//! Loading configuration lines into per-profile rule set builders, and the
//! set of compiled profiles they build.

use crate::error::RrrError;
use crate::rule_set::{
    alias_added, builds, built_profile, fresh_rule, import_applied, lemma_import_keeps_wf,
    rule_added, Action, ConfigOrigin, DesktopSection, Pattern, RuleOrigin, RuleSet, RuleSetBuilder,
};
use crate::text::{shell_words, unquote};
use vstd::prelude::*;
use vstd::string::*;

verus! {

/// A string field of a configuration line, as written.
#[derive(Debug)]
pub enum ConfigString {
    /// Taken as it is.
    Plain(String),
    /// Written with shell quoting, which is removed.
    Quoted(String),
}

/// The right side of a match line.
#[derive(Debug)]
pub enum MatchTarget {
    /// The identifier of an alias.
    Alias(String),
    /// A command template.
    Command(ConfigString),
    /// Something that is neither, with its text.
    Invalid(String),
}

/// One line of configuration, as a lexer reads it.
#[derive(Debug)]
pub enum ConfigLine {
    /// `include <path>`
    Include(ConfigString),
    /// `import <path>`
    Import { target: ConfigString, origin: ConfigOrigin },
    /// `profile <name>`
    Profile(ConfigString),
    /// `<identifier> = <command>`
    Alias { identifier: String, target: ConfigString },
    /// `<pattern> -> <target>`
    Match { pattern: Pattern, origin: ConfigOrigin, action: MatchTarget },
    /// A malformed meta-directive, with its text.
    InvalidMeta(String),
    /// A malformed alias declaration, with its text.
    InvalidAlias(String),
}

/// What the caller must do after a line has been applied.
#[derive(Debug)]
pub enum Directive {
    /// Nothing: go on with the next line.
    Continue,
    /// Load the configuration file, or every entry of the directory, at this path.
    Include(String),
    /// Import the desktop file, or every entry of the directory, at this path,
    /// into the current profile.
    Import { path: String, origin: ConfigOrigin },
}

/// The value of a string field: as written for a plain string; for a quoted
/// string its one shell word, or nothing where it is not exactly one word.
pub open spec fn string_value(s: ConfigString) -> Option<Seq<char>> {
    match s {
        ConfigString::Plain(t) => Some(t@),
        ConfigString::Quoted(t) => match shell_words(t@) {
            Some(ws) => if ws.len() == 1 {
                Some(ws[0])
            } else {
                None
            },
            None => None,
        },
    }
}

/// The value of a string field of a configuration line.
pub fn parse_string(target: &ConfigString) -> (r: Result<String, RrrError>)
    ensures
        match string_value(*target) {
            Some(v) => r matches Ok(s) && s@ == v,
            None => r matches Err(e) && e is InvalidQuotedString,
        },
{
    match target {
        ConfigString::Plain(t) => Ok(t.clone()),
        ConfigString::Quoted(t) => unquote(t.as_str()),
    }
}

/// Whether lines of `profile` are kept under the allow-list `only` (no list
/// keeps every profile).
pub open spec fn loadable(only: Option<Seq<Seq<char>>>, profile: Seq<char>) -> bool {
    match only {
        None => true,
        Some(list) => list.contains(profile),
    }
}

/// The builder holds no alias and no rule.
pub open spec fn is_empty_builder(b: RuleSetBuilder) -> bool {
    &&& b.aliases().len() == 0
    &&& b.regex_rules().len() == 0
    &&& b.glob_rules().len() == 0
}

/// The name of the profile that top-level declarations go to.
pub open spec fn default_profile() -> Seq<char> {
    seq!['d', 'e', 'f', 'a', 'u', 'l', 't']
}

/// `new` is `old` after a switch to profile `name`: unchanged where the
/// profile exists, else with an empty builder for it appended.
pub open spec fn profile_switched(
    old: Seq<RuleSetBuilder>,
    new: Seq<RuleSetBuilder>,
    name: Seq<char>,
    case_insensitive: bool,
) -> bool {
    if exists|i: int| 0 <= i < old.len() && (#[trigger] old[i]).profile() == name {
        new == old
    } else {
        &&& new.len() == old.len() + 1
        &&& new.subrange(0, old.len() as int) == old
        &&& new.last().profile() == name
        &&& new.last().case_insensitive() == case_insensitive
        &&& is_empty_builder(new.last())
        &&& new.last().wf()
    }
}

/// `new` is `old` with only the builder of the current profile changed.
pub open spec fn current_changed(old: RrrBuilder, new: RrrBuilder) -> bool {
    &&& RrrBuilder::same_but_profiles(old, new)
    &&& new.profiles() == old.profiles().update(
        old.index_of(old.current()),
        new.profiles()[old.index_of(old.current())],
    )
}

/// What applying `line` to `old` does: the new state `new` and the result `r`.
pub open spec fn line_applied(
    old: RrrBuilder,
    line: ConfigLine,
    new: RrrBuilder,
    r: Result<Directive, RrrError>,
) -> bool {
    let k = old.index_of(old.current());
    let keep = loadable(old.only(), old.current());
    match line {
        ConfigLine::Include(t) => new == old && match string_value(t) {
            Some(v) => r matches Ok(Directive::Include(p)) && p@ == v,
            None => r matches Err(e) && e is InvalidQuotedString,
        },
        ConfigLine::Import { target, origin } => new == old && if !old.import_enabled() {
            r matches Err(e) && e is ImportDisabled
        } else if !keep {
            r matches Ok(Directive::Continue)
        } else {
            match string_value(target) {
                Some(v) => r matches Ok(Directive::Import { path, origin: o }) && path@ == v && o
                    == origin,
                None => r matches Err(e) && e is InvalidQuotedString,
            }
        },
        ConfigLine::Profile(t) => match string_value(t) {
            Some(v) => {
                &&& r matches Ok(Directive::Continue)
                &&& new.current() == v
                &&& new.loaded() == old.loaded()
                &&& new.case_insensitive() == old.case_insensitive()
                &&& new.only() == old.only()
                &&& new.import_enabled() == old.import_enabled()
                &&& profile_switched(old.profiles(), new.profiles(), v, old.case_insensitive())
            },
            None => new == old && (r matches Err(e) && e is InvalidQuotedString),
        },
        ConfigLine::Alias { identifier, target } => if !keep {
            new == old && r matches Ok(Directive::Continue)
        } else {
            match string_value(target) {
                Some(v) => {
                    &&& r matches Ok(Directive::Continue)
                    &&& current_changed(old, new)
                    &&& alias_added(old.profiles()[k], new.profiles()[k], identifier@, v)
                },
                None => new == old && (r matches Err(e) && e is InvalidQuotedString),
            }
        },
        ConfigLine::Match { pattern, origin, action } => match action {
            MatchTarget::Invalid(t) => new == old && (r matches Err(RrrError::InvalidAlias(x)) && x@
                == t@),
            MatchTarget::Alias(a) => if !keep {
                new == old && r matches Ok(Directive::Continue)
            } else {
                &&& r matches Ok(Directive::Continue)
                &&& current_changed(old, new)
                &&& rule_added(
                    old.profiles()[k],
                    new.profiles()[k],
                    fresh_rule(
                        pattern,
                        Action::Alias(a),
                        old.case_insensitive(),
                        RuleOrigin::Explicit,
                        origin,
                    ),
                )
            },
            MatchTarget::Command(t) => if !keep {
                new == old && r matches Ok(Directive::Continue)
            } else {
                match string_value(t) {
                    Some(v) => {
                        &&& r matches Ok(Directive::Continue)
                        &&& current_changed(old, new)
                        &&& exists|c: String|
                            c@ == v && rule_added(
                                old.profiles()[k],
                                new.profiles()[k],
                                #[trigger] fresh_rule(
                                    pattern,
                                    Action::Command(c),
                                    old.case_insensitive(),
                                    RuleOrigin::Explicit,
                                    origin,
                                ),
                            )
                    },
                    None => new == old && (r matches Err(e) && e is InvalidQuotedString),
                }
            },
        },
        ConfigLine::InvalidMeta(t) => new == old && (r matches Err(RrrError::InvalidMeta(x)) && x@
            == t@),
        ConfigLine::InvalidAlias(t) => new == old && (r matches Err(RrrError::InvalidAlias(x)) && x@
            == t@),
    }
}

/// What entering the configuration file at `path` does: a file not loaded
/// before is recorded and `r` holds; a file loaded before changes nothing.
pub open spec fn entered(old: RrrBuilder, path: Seq<char>, new: RrrBuilder, r: bool) -> bool {
    &&& r == !old.loaded().contains(path)
    &&& r ==> (new.loaded() == old.loaded().push(path) && new.profiles() == old.profiles()
        && new.current() == old.current() && new.case_insensitive() == old.case_insensitive()
        && new.only() == old.only() && new.import_enabled() == old.import_enabled())
    &&& !r ==> new == old
}

/// Loads configuration into one rule set builder per profile.
pub struct RrrBuilder {
    loaded_config_files: Vec<String>,
    profiles: Vec<RuleSetBuilder>,
    current_profile: String,
    case_insensitive: bool,
    only_profiles: Option<Vec<String>>,
    import_enabled: bool,
}

impl RrrBuilder {
    /// The canonical paths of the files loaded so far.
    pub closed spec fn loaded(&self) -> Seq<Seq<char>> {
        self.loaded_config_files@.map_values(|p: String| p@)
    }

    /// The builders, one per profile, in order of first reference.
    pub closed spec fn profiles(&self) -> Seq<RuleSetBuilder> {
        self.profiles@
    }

    /// The profile that the next lines go to.
    pub closed spec fn current(&self) -> Seq<char> {
        self.current_profile@
    }

    /// Whether patterns match without regard to case.
    pub closed spec fn case_insensitive(&self) -> bool {
        self.case_insensitive
    }

    /// The allow-list of profiles, if any.
    pub closed spec fn only(&self) -> Option<Seq<Seq<char>>> {
        match self.only_profiles {
            Some(v) => Some(v@.map_values(|p: String| p@)),
            None => None,
        }
    }

    /// Whether `import` lines are accepted.
    pub closed spec fn import_enabled(&self) -> bool {
        self.import_enabled
    }

    /// The index of the builder of a profile.
    pub open spec fn index_of(&self, profile: Seq<char>) -> int {
        choose|i: int| 0 <= i < self.profiles().len() && self.profiles()[i].profile() == profile
    }

    /// Profiles are distinct, the current one exists, every builder is
    /// well formed with the shared case flag, and a profile outside the
    /// allow-list holds nothing.
    pub open spec fn wf(&self) -> bool {
        &&& forall|i: int, j: int|
            0 <= i < j < self.profiles().len() ==> (#[trigger] self.profiles()[i]).profile()
                != (#[trigger] self.profiles()[j]).profile()
        &&& exists|i: int|
            0 <= i < self.profiles().len() && (#[trigger] self.profiles()[i]).profile()
                == self.current()
        &&& forall|i: int|
            0 <= i < self.profiles().len() ==> (#[trigger] self.profiles()[i]).wf()
                && self.profiles()[i].case_insensitive() == self.case_insensitive()
        &&& forall|i: int|
            0 <= i < self.profiles().len() && !loadable(
                self.only(),
                (#[trigger] self.profiles()[i]).profile(),
            ) ==> is_empty_builder(self.profiles()[i])
    }

    /// `new` differs from `old` only in its profile builders.
    pub open spec fn same_but_profiles(old: RrrBuilder, new: RrrBuilder) -> bool {
        &&& new.loaded() == old.loaded()
        &&& new.current() == old.current()
        &&& new.case_insensitive() == old.case_insensitive()
        &&& new.only() == old.only()
        &&& new.import_enabled() == old.import_enabled()
    }

    /// A builder with the single profile `default`, current, and importing
    /// enabled. `only_profiles` restricts which profiles keep their lines
    /// (`None` keeps all).
    pub fn new(case_insensitive: bool, only_profiles: Option<Vec<String>>) -> (r: Self)
        ensures
            r.wf(),
            r.loaded() == Seq::<Seq<char>>::empty(),
            r.profiles().len() == 1,
            r.profiles()[0].profile() == default_profile(),
            is_empty_builder(r.profiles()[0]),
            r.current() == default_profile(),
            r.case_insensitive() == case_insensitive,
            r.import_enabled(),
            r.only() == match only_profiles {
                Some(v) => Some(v@.map_values(|p: String| p@)),
                None => None,
            },
    {
        proof {
            reveal_strlit("default");
        }
        let default = RuleSetBuilder::new(String::from_str("default"), case_insensitive);
        let r = Self {
            loaded_config_files: Vec::new(),
            profiles: vec![default],
            current_profile: String::from_str("default"),
            case_insensitive,
            only_profiles,
            import_enabled: true,
        };
        assert(r.loaded() =~= Seq::<Seq<char>>::empty());
        assert(r.profiles()[0].profile() == r.current());
        r
    }

    /// Turns the handling of `import` lines on or off.
    pub fn set_import_enabled(&mut self, enabled: bool)
        ensures
            final(self).import_enabled() == enabled,
            final(self).loaded() == old(self).loaded(),
            final(self).profiles() == old(self).profiles(),
            final(self).current() == old(self).current(),
            final(self).case_insensitive() == old(self).case_insensitive(),
            final(self).only() == old(self).only(),
            old(self).wf() ==> final(self).wf(),
    {
        proof {
            if old(self).wf() {
                let i = choose|i: int|
                    0 <= i < old(self).profiles().len() && (#[trigger] old(self).profiles()[i]).profile()
                        == old(self).current();
                assert(self.profiles()[i].profile() == self.current());
            }
        }
        self.import_enabled = enabled;
    }

    /// Whether the lines of the current profile are kept.
    fn is_profile_loadable(&self) -> (r: bool)
        ensures
            r == loadable(self.only(), self.current()),
    {
        match &self.only_profiles {
            None => true,
            Some(list) => {
                let ghost lv = list@.map_values(|p: String| p@);
                assert(self.only() == Some(lv));
                let mut i: usize = 0;
                while i < list.len()
                    invariant
                        i <= list.len(),
                        self.only() == Some(lv),
                        lv == list@.map_values(|p: String| p@),
                        forall|j: int| 0 <= j < i ==> lv[j] != self.current_profile@,
                    decreases list.len() - i,
                {
                    if list[i] == self.current_profile {
                        assert(lv[i as int] == list@[i as int]@);
                        assert(lv[i as int] == self.current());
                        assert(lv.contains(self.current()));
                        return true;
                    }
                    i = i + 1;
                }
                false
            },
        }
    }

    /// The index of the builder of the current profile.
    fn current_profile(&self) -> (r: usize)
        requires
            self.wf(),
        ensures
            r < self.profiles().len(),
            self.profiles()[r as int].profile() == self.current(),
    {
        let k = self.find_profile(&self.current_profile);
        match k {
            Some(i) => i,
            None => {
                assert(false);
                0
            },
        }
    }

    /// The index of the builder of a profile, if it exists.
    fn find_profile(&self, name: &String) -> (r: Option<usize>)
        ensures
            match r {
                Some(i) => i < self.profiles().len() && self.profiles()[i as int].profile()
                    == name@,
                None => forall|i: int|
                    0 <= i < self.profiles().len() ==> (#[trigger] self.profiles()[i]).profile()
                        != name@,
            },
    {
        let mut i: usize = 0;
        while i < self.profiles.len()
            invariant
                i <= self.profiles.len(),
                forall|j: int| 0 <= j < i ==> (#[trigger] self.profiles@[j]).profile() != name@,
            decreases self.profiles.len() - i,
        {
            if *self.profiles[i].profile_name() == *name {
                return Some(i);
            }
            i = i + 1;
        }
        None
    }
}

impl RrrBuilder {
    /// Records that the configuration file at `canonical_path` is being
    /// loaded. Returns false, changing nothing, where it was loaded before,
    /// so that a file that includes itself is read once.
    pub fn enter_config(&mut self, canonical_path: String) -> (r: bool)
        ensures
            entered(*old(self), canonical_path@, *final(self), r),
            old(self).wf() ==> final(self).wf(),
    {
        let ghost lv = self.loaded();
        let mut i: usize = 0;
        while i < self.loaded_config_files.len()
            invariant
                i <= self.loaded_config_files.len(),
                lv == self.loaded(),
                forall|j: int| 0 <= j < i ==> lv[j] != canonical_path@,
            decreases self.loaded_config_files.len() - i,
        {
            if self.loaded_config_files[i] == canonical_path {
                assert(lv[i as int] == canonical_path@);
                return false;
            }
            i = i + 1;
        }
        proof {
            if old(self).wf() {
                let w = choose|w: int|
                    0 <= w < old(self).profiles().len() && (#[trigger] old(
                        self,
                    ).profiles()[w]).profile() == old(self).current();
                assert(self.profiles()[w].profile() == self.current());
            }
        }
        self.loaded_config_files.push(canonical_path);
        assert(self.loaded() =~= lv.push(canonical_path@));
        true
    }

    /// Applies one configuration line: a profile switch, an alias or a rule
    /// for the current profile, or a directive for the caller to carry out
    /// (`include`, `import`). Aliases, rules and imports of a profile outside
    /// the allow-list are dropped. The current profile is one cursor over
    /// the whole load order: a switch made in an included file holds for the
    /// lines of the including file that follow the include.
    pub fn parse_line(&mut self, line: ConfigLine) -> (r: Result<Directive, RrrError>)
        requires
            old(self).wf(),
        ensures
            final(self).wf(),
            line_applied(*old(self), line, *final(self), r),
    {
        match line {
            ConfigLine::Include(target) => {
                let path = parse_string(&target)?;
                Ok(Directive::Include(path))
            },
            ConfigLine::Import { target, origin } => self.parse_meta_import(target, origin),
            ConfigLine::Profile(target) => self.parse_meta_profile(target),
            ConfigLine::Alias { identifier, target } => self.parse_alias(identifier, target),
            ConfigLine::Match { pattern, origin, action } => match action {
                MatchTarget::Invalid(t) => Err(RrrError::InvalidAlias(t)),
                _ => self.parse_match(pattern, origin, action),
            },
            ConfigLine::InvalidMeta(t) => Err(RrrError::InvalidMeta(t)),
            ConfigLine::InvalidAlias(t) => Err(RrrError::InvalidAlias(t)),
        }
    }

    fn parse_meta_import(&mut self, target: ConfigString, origin: ConfigOrigin) -> (r: Result<
        Directive,
        RrrError,
    >)
        requires
            old(self).wf(),
        ensures
            final(self).wf(),
            line_applied(*old(self), ConfigLine::Import { target, origin }, *final(self), r),
    {
        if !self.import_enabled {
            return Err(RrrError::ImportDisabled);
        }
        if !self.is_profile_loadable() {
            return Ok(Directive::Continue);
        }
        let path = parse_string(&target)?;
        Ok(Directive::Import { path, origin })
    }

    fn parse_meta_profile(&mut self, target: ConfigString) -> (r: Result<Directive, RrrError>)
        requires
            old(self).wf(),
        ensures
            final(self).wf(),
            line_applied(*old(self), ConfigLine::Profile(target), *final(self), r),
    {
        let name = parse_string(&target)?;
        let ghost old_profiles = self.profiles();
        let ghost mut k: int = 0;
        match self.find_profile(&name) {
            Some(i) => {
                proof {
                    k = i as int;
                }
                assert(exists|i: int|
                    0 <= i < old_profiles.len() && (#[trigger] old_profiles[i]).profile() == name@);
            },
            None => {
                let b = RuleSetBuilder::new(name.clone(), self.case_insensitive);
                self.profiles.push(b);
                proof {
                    k = old_profiles.len() as int;
                }
                assert(self.profiles().subrange(0, old_profiles.len() as int) =~= old_profiles);
                assert forall|i: int, j: int|
                    0 <= i < j < self.profiles().len() implies (#[trigger] self.profiles()[i]).profile()
                    != (#[trigger] self.profiles()[j]).profile() by {
                    if j < old_profiles.len() {
                        assert(self.profiles()[i] == old_profiles[i]);
                        assert(self.profiles()[j] == old_profiles[j]);
                    } else {
                        assert(self.profiles()[i] == old_profiles[i]);
                    }
                }
                assert forall|i: int|
                    0 <= i < self.profiles().len() && !loadable(
                        self.only(),
                        (#[trigger] self.profiles()[i]).profile(),
                    ) implies is_empty_builder(self.profiles()[i]) by {
                    if i < old_profiles.len() {
                        assert(self.profiles()[i] == old_profiles[i]);
                    }
                }
                assert forall|i: int| 0 <= i < self.profiles().len() implies (#[trigger] self.profiles()[i]).wf()
                    && self.profiles()[i].case_insensitive() == self.case_insensitive() by {
                    if i < old_profiles.len() {
                        assert(self.profiles()[i] == old_profiles[i]);
                    }
                }
            },
        }
        self.current_profile = name;
        assert(self.profiles()[k].profile() == self.current());
        Ok(Directive::Continue)
    }

    fn parse_alias(&mut self, identifier: String, target: ConfigString) -> (r: Result<
        Directive,
        RrrError,
    >)
        requires
            old(self).wf(),
        ensures
            final(self).wf(),
            line_applied(*old(self), ConfigLine::Alias { identifier, target }, *final(self), r),
    {
        if !self.is_profile_loadable() {
            return Ok(Directive::Continue);
        }
        let action = parse_string(&target)?;
        let k = self.current_profile();
        let ghost old_self = *self;
        proof {
            self.lemma_index_of_current(k as int);
        }
        self.profiles[k].alias(identifier, action);
        proof {
            old_self.lemma_update_current(*self, k as int);
        }
        Ok(Directive::Continue)
    }

    fn parse_match(&mut self, pattern: Pattern, origin: ConfigOrigin, action: MatchTarget) -> (r: Result<
        Directive,
        RrrError,
    >)
        requires
            old(self).wf(),
            !(action is Invalid),
        ensures
            final(self).wf(),
            line_applied(*old(self), ConfigLine::Match { pattern, origin, action }, *final(self), r),
    {
        if !self.is_profile_loadable() {
            return Ok(Directive::Continue);
        }
        let k = self.current_profile();
        let ghost old_self = *self;
        proof {
            self.lemma_index_of_current(k as int);
        }
        match action {
            MatchTarget::Alias(a) => {
                let _ = self.profiles[k].rule_with_alias(origin, pattern, a);
            },
            MatchTarget::Command(t) => {
                let command = parse_string(&t)?;
                let ghost c = command;
                self.profiles[k].rule_with_command(origin, pattern, command);
                assert(rule_added(
                    old_self.profiles()[k as int],
                    self.profiles()[k as int],
                    fresh_rule(
                        pattern,
                        Action::Command(c),
                        old_self.case_insensitive(),
                        RuleOrigin::Explicit,
                        origin,
                    ),
                ));
            },
            MatchTarget::Invalid(t) => {
                return Err(RrrError::InvalidAlias(t));
            },
        }
        proof {
            old_self.lemma_update_current(*self, k as int);
        }
        Ok(Directive::Continue)
    }

    proof fn lemma_index_of_current(&self, k: int)
        requires
            self.wf(),
            0 <= k < self.profiles().len(),
            self.profiles()[k].profile() == self.current(),
        ensures
            self.index_of(self.current()) == k,
    {
        let j = self.index_of(self.current());
        if j != k {
            if j < k {
                assert(self.profiles()[j].profile() != self.profiles()[k].profile());
            } else {
                assert(self.profiles()[k].profile() != self.profiles()[j].profile());
            }
        }
    }

    proof fn lemma_update_current(self, new: RrrBuilder, k: int)
        requires
            self.wf(),
            0 <= k < self.profiles().len(),
            self.profiles()[k].profile() == self.current(),
            loadable(self.only(), self.current()),
            RrrBuilder::same_but_profiles(self, new),
            new.profiles() == self.profiles().update(k, new.profiles()[k]),
            new.profiles()[k].profile() == self.profiles()[k].profile(),
            new.profiles()[k].case_insensitive() == self.profiles()[k].case_insensitive(),
            new.profiles()[k].wf(),
        ensures
            new.wf(),
    {
        assert(new.profiles()[k].profile() == new.current());
        assert forall|i: int, j: int|
            0 <= i < j < new.profiles().len() implies (#[trigger] new.profiles()[i]).profile()
            != (#[trigger] new.profiles()[j]).profile() by {
            assert(self.profiles()[i].profile() != self.profiles()[j].profile());
        }
        assert forall|i: int|
            0 <= i < new.profiles().len() && !loadable(
                new.only(),
                (#[trigger] new.profiles()[i]).profile(),
            ) implies is_empty_builder(new.profiles()[i]) by {
            assert(i != k);
        }
        assert forall|i: int| 0 <= i < new.profiles().len() implies (#[trigger] new.profiles()[i]).wf()
            && new.profiles()[i].case_insensitive() == new.case_insensitive() by {
            if i != k {
                assert(new.profiles()[i] == self.profiles()[i]);
            }
        }
    }
}

/// The compiled rule sets, one per profile.
pub struct Rrr {
    profiles: Vec<RuleSet>,
}

/// Each profile of `b` built, in order, into the rule set of `rrr`.
pub open spec fn built_from(b: RrrBuilder, rrr: Rrr) -> bool {
    &&& rrr.profiles().len() == b.profiles().len()
    &&& forall|i: int|
        0 <= i < rrr.profiles().len() ==> built_profile(
            b.profiles()[i],
            #[trigger] rrr.profiles()[i],
        )
}

/// No two rule sets have the same profile name.
pub open spec fn distinct_profiles(sets: Seq<RuleSet>) -> bool {
    forall|i: int, j: int|
        0 <= i < j < sets.len() ==> (#[trigger] sets[i]).profile() != (#[trigger] sets[j]).profile()
}

impl Rrr {
    /// The rule sets, in order of first reference of their profiles.
    pub closed spec fn profiles(&self) -> Seq<RuleSet> {
        self.profiles@
    }

    /// The rule set of a profile.
    pub fn profile(&self, profile_identifier: &str) -> (r: Result<&RuleSet, RrrError>)
        ensures
            r is Ok <==> exists|i: int|
                0 <= i < self.profiles().len() && (#[trigger] self.profiles()[i]).profile()
                    == profile_identifier@,
            r matches Ok(s) ==> (s.profile() == profile_identifier@ && exists|i: int|
                0 <= i < self.profiles().len() && self.profiles()[i] == *s),
            r matches Err(e) ==> (e matches RrrError::UnknownProfile(n) && n@
                == profile_identifier@),
    {
        let name = String::from_str(profile_identifier);
        let mut i: usize = 0;
        while i < self.profiles.len()
            invariant
                i <= self.profiles.len(),
                name@ == profile_identifier@,
                forall|j: int| 0 <= j < i ==> (#[trigger] self.profiles@[j]).profile() != name@,
            decreases self.profiles.len() - i,
        {
            if *self.profiles[i].profile_name() == name {
                assert(self.profiles()[i as int].profile() == profile_identifier@);
                assert(self.profiles()[i as int] == self.profiles@[i as int]);
                return Ok(&self.profiles[i]);
            }
            i = i + 1;
        }
        Err(RrrError::UnknownProfile(name))
    }
}

impl RrrBuilder {
    /// Builds the rule set of every profile, in order of first reference; the
    /// first profile that fails to build makes the whole build fail.
    pub fn build(self) -> (r: Result<Rrr, RrrError>)
        requires
            self.wf(),
        ensures
            r is Ok <==> forall|i: int|
                0 <= i < self.profiles().len() ==> builds(#[trigger] self.profiles()[i]),
            r matches Ok(rrr) ==> built_from(self, rrr) && distinct_profiles(rrr.profiles()),
    {
        let ghost orig = self.profiles();
        let mut rest = self.profiles;
        let mut sets: Vec<RuleSet> = Vec::new();
        while rest.len() > 0
            invariant
                sets@.len() + rest@.len() == orig.len(),
                orig == self.profiles(),
                rest@ == orig.subrange(sets@.len() as int, orig.len() as int),
                forall|i: int| 0 <= i < orig.len() ==> (#[trigger] orig[i]).wf(),
                forall|i: int|
                    0 <= i < sets@.len() ==> built_profile(orig[i], #[trigger] sets@[i]),
                forall|i: int| 0 <= i < sets@.len() ==> builds(#[trigger] orig[i]),
            decreases rest@.len(),
        {
            let ghost n = sets@.len();
            let b = rest.remove(0);
            assert(b == orig[n as int]);
            match b.build() {
                Ok(set) => {
                    sets.push(set);
                },
                Err(e) => {
                    assert(!builds(orig[n as int]));
                    assert(!(forall|i: int| 0 <= i < orig.len() ==> builds(#[trigger] orig[i])));
                    return Err(e);
                },
            }
            assert(rest@ =~= orig.subrange(sets@.len() as int, orig.len() as int));
        }
        let rrr = Rrr { profiles: sets };
        assert forall|i: int, j: int|
            0 <= i < j < rrr.profiles().len() implies (#[trigger] rrr.profiles()[i]).profile()
            != (#[trigger] rrr.profiles()[j]).profile() by {
            assert(built_profile(orig[i], rrr.profiles()[i]));
            assert(built_profile(orig[j], rrr.profiles()[j]));
            assert(orig[i].profile() != orig[j].profile());
        }
        Ok(rrr)
    }
}

/// Reading a configuration file a second time does nothing: once a file has
/// been entered, entering it again is refused and leaves the builder as it
/// was, so a file that includes itself, directly or through others, is
/// loaded once and its rules are registered once.
pub proof fn lemma_reentry_is_noop(
    b0: RrrBuilder,
    b1: RrrBuilder,
    b2: RrrBuilder,
    path: Seq<char>,
    r1: bool,
    r2: bool,
)
    requires
        entered(b0, path, b1, r1),
        entered(b1, path, b2, r2),
    ensures
        !r2,
        b2 == b1,
        b1.loaded().contains(path),
{
    if r1 {
        assert(b1.loaded().last() == path);
        assert(b1.loaded()[b1.loaded().len() - 1] == path);
    }
}

/// Applying a configuration line never forgets a loaded file.
pub proof fn lemma_line_keeps_loaded(
    b0: RrrBuilder,
    line: ConfigLine,
    b1: RrrBuilder,
    r: Result<Directive, RrrError>,
)
    requires
        line_applied(b0, line, b1, r),
    ensures
        b1.loaded() == b0.loaded(),
{
}

/// A profile outside the allow-list ends up with no rules: in every rule
/// set built from a well-formed builder, a profile that the allow-list
/// excludes holds no regex rule and no glob rule.
pub proof fn lemma_profile_filter(b: RrrBuilder, rrr: Rrr, name: Seq<char>)
    requires
        b.wf(),
        built_from(b, rrr),
        !loadable(b.only(), name),
    ensures
        forall|i: int|
            0 <= i < rrr.profiles().len() && (#[trigger] rrr.profiles()[i]).profile() == name
                ==> rrr.profiles()[i].regex_rules().len() == 0 && rrr.profiles()[i].glob_rules().len()
                == 0,
{
    assert forall|i: int|
        0 <= i < rrr.profiles().len() && (#[trigger] rrr.profiles()[i]).profile()
            == name implies rrr.profiles()[i].regex_rules().len() == 0
        && rrr.profiles()[i].glob_rules().len() == 0 by {
        assert(built_profile(b.profiles()[i], rrr.profiles()[i]));
        assert(is_empty_builder(b.profiles()[i]));
    }
}

impl RrrBuilder {
    /// Imports the primary section of the desktop file at `imported_path`
    /// into the current profile (see `RuleSetBuilder::rule_with_import`), a
    /// missing attribute adding nothing. Nothing happens where the current
    /// profile is outside the allow-list.
    pub fn import_entry(
        &mut self,
        config_origin: &ConfigOrigin,
        imported_path: &str,
        section: &Option<DesktopSection>,
    ) -> (r: Result<(), RrrError>)
        requires
            old(self).wf(),
        ensures
            final(self).wf(),
            !loadable(old(self).only(), old(self).current()) ==> (r is Ok && *final(self)
                == *old(self)),
            loadable(old(self).only(), old(self).current()) ==> (current_changed(
                *old(self),
                *final(self),
            ) && import_applied(
                old(self).profiles()[old(self).index_of(old(self).current())],
                final(self).profiles()[old(self).index_of(old(self).current())],
                *config_origin,
                imported_path@,
                *section,
                true,
                r,
            )),
    {
        if !self.is_profile_loadable() {
            return Ok(());
        }
        let k = self.current_profile();
        let ghost old_self = *self;
        proof {
            self.lemma_index_of_current(k as int);
        }
        let r = self.profiles[k].rule_with_import(config_origin, imported_path, section, true);
        proof {
            lemma_import_keeps_wf(
                old_self.profiles()[k as int],
                self.profiles()[k as int],
                *config_origin,
                imported_path@,
                *section,
                true,
                r,
            );
            old_self.lemma_update_current(*self, k as int);
        }
        r
    }
}

} // verus!
