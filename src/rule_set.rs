//! Rules, the per-profile rule set builder, and the compiled rule set that
//! matches inputs.

use crate::error::RrrError;
use crate::text::{
    chars_of, contains, contains_seq, decimal, push_decimal, quote, replace, replaced, shell_quoted,
    split_chars, split_on, string_of,
};
use vstd::prelude::*;
use vstd::string::*;

verus! {

/// Where in the configuration a rule was declared.
#[derive(Debug)]
pub struct ConfigOrigin {
    pub file: String,
    pub line: usize,
    pub column: usize,
}

impl ConfigOrigin {
    /// A copy of this origin.
    pub fn copy(&self) -> (r: Self)
        ensures
            r == *self,
    {
        ConfigOrigin { file: self.file.clone(), line: self.line, column: self.column }
    }
}

/// Whether a rule was written in the configuration or made from an import.
#[derive(Debug)]
pub enum RuleOrigin {
    /// Declared directly in the configuration.
    Explicit,
    /// Made from the imported desktop file at this path.
    Imported(String),
}

/// What a rule matches (left side of a rule).
#[derive(Debug)]
pub enum Pattern {
    Regex(String),
    Glob(String),
}

impl Pattern {
    /// A copy of this pattern.
    pub fn copy(&self) -> (r: Self)
        ensures
            r == *self,
    {
        match self {
            Pattern::Regex(p) => Pattern::Regex(p.clone()),
            Pattern::Glob(p) => Pattern::Glob(p.clone()),
        }
    }
}

/// What a rule does (right side of a rule).
#[derive(Debug)]
pub enum Action {
    /// A reference to an alias, resolved when the rule set is built.
    Alias(String),
    /// A command template.
    Command(String),
}

/// A rule that maps a pattern to an action.
///
/// `resolved` holds the command once the action's alias has been resolved;
/// `execution` holds the command substituted with an input, ready to run.
#[derive(Debug)]
pub struct Rule {
    pub pattern: Pattern,
    pub action: Action,
    pub resolved: Option<String>,
    pub execution: Option<String>,
    pub case_insensitive: bool,
    pub rule_origin: RuleOrigin,
    pub config_origin: ConfigOrigin,
}

/// The raw text of a pattern, whatever its kind.
pub open spec fn pattern_text(p: Pattern) -> Seq<char> {
    match p {
        Pattern::Regex(t) => t@,
        Pattern::Glob(t) => t@,
    }
}

/// The command that an alias identifier stands for: its last declaration.
pub open spec fn lookup_alias(aliases: Seq<(Seq<char>, Seq<char>)>, id: Seq<char>) -> Option<
    Seq<char>,
>
    decreases aliases.len(),
{
    if aliases.len() == 0 {
        None
    } else if aliases.last().0 == id {
        Some(aliases.last().1)
    } else {
        lookup_alias(aliases.drop_last(), id)
    }
}

/// The command that an action stands for, if it can be resolved.
pub open spec fn resolve_action(aliases: Seq<(Seq<char>, Seq<char>)>, action: Action) -> Option<
    Seq<char>,
> {
    match action {
        Action::Command(c) => Some(c@),
        Action::Alias(id) => lookup_alias(aliases, id@),
    }
}

/// `new` is `old` with its resolved command set to `command`.
pub open spec fn is_resolution(new: Rule, old: Rule, command: Seq<char>) -> bool {
    &&& new.pattern == old.pattern
    &&& new.action == old.action
    &&& new.execution == old.execution
    &&& new.case_insensitive == old.case_insensitive
    &&& new.rule_origin == old.rule_origin
    &&& new.config_origin == old.config_origin
    &&& new.resolved matches Some(c) && c@ == command
}

/// A fresh rule, neither resolved nor prepared.
pub open spec fn fresh_rule(
    pattern: Pattern,
    action: Action,
    case_insensitive: bool,
    rule_origin: RuleOrigin,
    config_origin: ConfigOrigin,
) -> Rule {
    Rule {
        pattern,
        action,
        resolved: None,
        execution: None,
        case_insensitive,
        rule_origin,
        config_origin,
    }
}

/// Every rule of `rules` can be resolved against `aliases`.
pub open spec fn all_resolvable(aliases: Seq<(Seq<char>, Seq<char>)>, rules: Seq<Rule>) -> bool {
    forall|i: int| 0 <= i < rules.len() ==> (#[trigger] resolve_action(aliases, rules[i].action)) is Some
}

/// `id` is the alias of the first rule of `rules` that cannot be resolved.
pub open spec fn first_unresolved(
    aliases: Seq<(Seq<char>, Seq<char>)>,
    rules: Seq<Rule>,
    id: Seq<char>,
) -> bool {
    exists|i: int|
        0 <= i < rules.len() && #[trigger] alias_of(rules[i].action) == Some(id) && lookup_alias(
            aliases,
            id,
        ) is None && all_resolvable(aliases, rules.subrange(0, i))
}

/// The alias identifier an action refers to, if any.
pub open spec fn alias_of(action: Action) -> Option<Seq<char>> {
    match action {
        Action::Alias(a) => Some(a@),
        Action::Command(_) => None,
    }
}

/// `new` holds the rules of `old`, each resolved, in reverse order.
pub open spec fn resolved_reversed(
    aliases: Seq<(Seq<char>, Seq<char>)>,
    old: Seq<Rule>,
    new: Seq<Rule>,
) -> bool {
    &&& new.len() == old.len()
    &&& forall|i: int|
        0 <= i < new.len() ==> #[trigger] is_resolution(
            new[i],
            old[old.len() - 1 - i],
            resolve_action(aliases, old[old.len() - 1 - i].action).unwrap(),
        )
}

impl Rule {
    /// The command this rule resolved to, if it has been resolved.
    pub open spec fn resolved_command(&self) -> Option<Seq<char>> {
        match self.resolved {
            Some(c) => Some(c@),
            None => None,
        }
    }

    /// The raw text of the rule's pattern.
    pub fn pattern_as_str(&self) -> (r: &str)
        ensures
            r@ == pattern_text(self.pattern),
    {
        match &self.pattern {
            Pattern::Glob(p) => p.as_str(),
            Pattern::Regex(p) => p.as_str(),
        }
    }

    /// A copy of this rule with its resolved command set from `aliases`.
    fn resolve(&self, aliases: &Vec<(String, String)>, profile: &String) -> (r: Result<
        Rule,
        RrrError,
    >)
        ensures
            match resolve_action(alias_view(aliases@), self.action) {
                Some(c) => r matches Ok(n) && is_resolution(n, *self, c),
                None => r matches Err(RrrError::UnresolvedAlias { alias, profile: p })
                    && alias_of(self.action) == Some(alias@) && p@ == profile@,
            },
    {
        let command = match &self.action {
            Action::Command(c) => c.clone(),
            Action::Alias(id) => match find_alias(aliases, id) {
                Some(c) => c,
                None => {
                    return Err(
                        RrrError::UnresolvedAlias { alias: id.clone(), profile: profile.clone() },
                    );
                },
            },
        };
        Ok(
            Rule {
                pattern: self.pattern.copy(),
                action: self.action.copy(),
                resolved: Some(command),
                execution: copy_option(&self.execution),
                case_insensitive: self.case_insensitive,
                rule_origin: self.rule_origin.copy(),
                config_origin: self.config_origin.copy(),
            },
        )
    }
}

impl Action {
    /// A copy of this action.
    pub fn copy(&self) -> (r: Self)
        ensures
            r == *self,
    {
        match self {
            Action::Alias(a) => Action::Alias(a.clone()),
            Action::Command(c) => Action::Command(c.clone()),
        }
    }
}

impl RuleOrigin {
    /// A copy of this origin.
    pub fn copy(&self) -> (r: Self)
        ensures
            r == *self,
    {
        match self {
            RuleOrigin::Explicit => RuleOrigin::Explicit,
            RuleOrigin::Imported(p) => RuleOrigin::Imported(p.clone()),
        }
    }
}

fn copy_option(s: &Option<String>) -> (r: Option<String>)
    ensures
        r == *s,
{
    match s {
        Some(t) => Some(t.clone()),
        None => None,
    }
}

/// The alias table seen as identifier and command texts.
pub open spec fn alias_view(aliases: Seq<(String, String)>) -> Seq<(Seq<char>, Seq<char>)> {
    aliases.map_values(|p: (String, String)| (p.0@, p.1@))
}

/// Looks up the last declaration of an alias.
fn find_alias(aliases: &Vec<(String, String)>, id: &String) -> (r: Option<String>)
    ensures
        match lookup_alias(alias_view(aliases@), id@) {
            Some(c) => r matches Some(s) && s@ == c,
            None => r is None,
        },
{
    let mut i: usize = aliases.len();
    assert(aliases@.subrange(0, i as int) =~= aliases@);
    while i > 0
        invariant
            i <= aliases.len(),
            lookup_alias(alias_view(aliases@), id@) == lookup_alias(
                alias_view(aliases@.subrange(0, i as int)),
                id@,
            ),
        decreases i,
    {
        let ghost prefix = alias_view(aliases@.subrange(0, i as int));
        assert(prefix.drop_last() =~= alias_view(aliases@.subrange(0, i - 1)));
        if aliases[i - 1].0 == *id {
            return Some(aliases[i - 1].1.clone());
        }
        i = i - 1;
    }
    assert(alias_view(aliases@.subrange(0, 0)) =~= Seq::<(Seq<char>, Seq<char>)>::empty());
    None
}

/// `new` is `old` with the alias `(id, command)` added.
pub open spec fn alias_added(
    old: RuleSetBuilder,
    new: RuleSetBuilder,
    id: Seq<char>,
    command: Seq<char>,
) -> bool {
    &&& new.aliases() == old.aliases().push((id, command))
    &&& new.profile() == old.profile()
    &&& new.case_insensitive() == old.case_insensitive()
    &&& new.regex_rules() == old.regex_rules()
    &&& new.glob_rules() == old.glob_rules()
}

/// Accumulates the aliases and rules of one profile, in declaration order.
pub struct RuleSetBuilder {
    profile: String,
    case_insensitive: bool,
    alias: Vec<(String, String)>,
    regex_rules: Vec<Rule>,
    glob_rules: Vec<Rule>,
}

/// `rule` is a regex rule, fresh, with the given case sensitivity flag.
pub open spec fn fresh_of_kind(rule: Rule, regex: bool, case_insensitive: bool) -> bool {
    &&& (rule.pattern is Regex) == regex
    &&& rule.resolved is None
    &&& rule.execution is None
    &&& rule.case_insensitive == case_insensitive
}

/// `new` is `old` with `rule` appended to the sequence of its kind.
pub open spec fn rule_added(old: RuleSetBuilder, new: RuleSetBuilder, rule: Rule) -> bool {
    &&& new.profile() == old.profile()
    &&& new.case_insensitive() == old.case_insensitive()
    &&& new.aliases() == old.aliases()
    &&& if rule.pattern is Regex {
        new.regex_rules() == old.regex_rules().push(rule) && new.glob_rules() == old.glob_rules()
    } else {
        new.glob_rules() == old.glob_rules().push(rule) && new.regex_rules() == old.regex_rules()
    }
}

impl RuleSetBuilder {
    /// Every rule is fresh, of the kind of the sequence that holds it, and
    /// carries the builder's case sensitivity flag.
    pub open spec fn wf(&self) -> bool {
        &&& forall|i: int|
            0 <= i < self.regex_rules().len() ==> fresh_of_kind(
                #[trigger] self.regex_rules()[i],
                true,
                self.case_insensitive(),
            )
        &&& forall|i: int|
            0 <= i < self.glob_rules().len() ==> fresh_of_kind(
                #[trigger] self.glob_rules()[i],
                false,
                self.case_insensitive(),
            )
    }

    /// The name of the profile.
    pub closed spec fn profile(&self) -> Seq<char> {
        self.profile@
    }

    /// Whether patterns match without regard to case.
    pub closed spec fn case_insensitive(&self) -> bool {
        self.case_insensitive
    }

    /// The alias declarations, in order.
    pub closed spec fn aliases(&self) -> Seq<(Seq<char>, Seq<char>)> {
        alias_view(self.alias@)
    }

    /// The regex rules, in declaration order.
    pub closed spec fn regex_rules(&self) -> Seq<Rule> {
        self.regex_rules@
    }

    /// The glob rules, in declaration order.
    pub closed spec fn glob_rules(&self) -> Seq<Rule> {
        self.glob_rules@
    }

    /// An empty builder for a profile.
    pub fn new(profile: String, case_insensitive: bool) -> (r: Self)
        ensures
            r.profile() == profile@,
            r.case_insensitive() == case_insensitive,
            r.aliases() == Seq::<(Seq<char>, Seq<char>)>::empty(),
            r.regex_rules() == Seq::<Rule>::empty(),
            r.glob_rules() == Seq::<Rule>::empty(),
            r.wf(),
    {
        let r = Self {
            profile,
            case_insensitive,
            alias: Vec::new(),
            regex_rules: Vec::new(),
            glob_rules: Vec::new(),
        };
        assert(alias_view(r.alias@) =~= Seq::<(Seq<char>, Seq<char>)>::empty());
        r
    }

    /// The name of the profile.
    pub fn profile_name(&self) -> (r: &String)
        ensures
            r@ == self.profile(),
    {
        &self.profile
    }

    /// Adds an alias; a later declaration of the same identifier wins.
    pub fn alias(&mut self, identifier: String, action_command: String)
        ensures
            alias_added(*old(self), *final(self), identifier@, action_command@),
    {
        let ghost before = self.alias@;
        self.alias.push((identifier, action_command));
        assert(alias_view(self.alias@) =~= alias_view(before).push((identifier@, action_command@)));
    }

    /// Adds a rule written in the configuration with a command.
    pub fn rule_with_command(
        &mut self,
        config_origin: ConfigOrigin,
        pattern: Pattern,
        action_command: String,
    )
        ensures
            rule_added(
                *old(self),
                *final(self),
                fresh_rule(
                    pattern,
                    Action::Command(action_command),
                    old(self).case_insensitive(),
                    RuleOrigin::Explicit,
                    config_origin,
                ),
            ),
    {
        let ci = self.case_insensitive;
        self.rule(pattern, Action::Command(action_command), ci, RuleOrigin::Explicit, config_origin);
    }

    /// Adds a rule written in the configuration that refers to an alias.
    pub fn rule_with_alias(
        &mut self,
        config_origin: ConfigOrigin,
        pattern: Pattern,
        alias_identifier: String,
    ) -> (r: Result<(), RrrError>)
        ensures
            r is Ok,
            rule_added(
                *old(self),
                *final(self),
                fresh_rule(
                    pattern,
                    Action::Alias(alias_identifier),
                    old(self).case_insensitive(),
                    RuleOrigin::Explicit,
                    config_origin,
                ),
            ),
    {
        let ci = self.case_insensitive;
        self.rule(pattern, Action::Alias(alias_identifier), ci, RuleOrigin::Explicit, config_origin);
        Ok(())
    }

    fn rule(
        &mut self,
        pattern: Pattern,
        action: Action,
        case_insensitive: bool,
        rule_origin: RuleOrigin,
        config_origin: ConfigOrigin,
    )
        requires
            case_insensitive == old(self).case_insensitive(),
        ensures
            rule_added(
                *old(self),
                *final(self),
                fresh_rule(pattern, action, case_insensitive, rule_origin, config_origin),
            ),
    {
        let rule = Rule {
            pattern,
            action,
            resolved: None,
            execution: None,
            case_insensitive,
            rule_origin,
            config_origin,
        };
        match rule.pattern {
            Pattern::Regex(_) => self.regex_rules.push(rule),
            Pattern::Glob(_) => self.glob_rules.push(rule),
        }
    }
}

#[verifier::external_type_specification]
#[verifier::external_body]
pub struct ExRegexSet(regex::RegexSet);

#[verifier::external_type_specification]
#[verifier::external_body]
pub struct ExRegexError(regex::Error);

#[verifier::external_type_specification]
#[verifier::external_body]
pub struct ExGlobSet(globset::GlobSet);

#[verifier::external_type_specification]
#[verifier::external_body]
pub struct ExGlobSetBuilder(globset::GlobSetBuilder);

#[verifier::external_type_specification]
#[verifier::external_body]
pub struct ExGlobError(globset::Error);

/// The patterns a compiled regex set holds, in order, each with its case
/// insensitivity flag.
pub uninterp spec fn regex_set_patterns(s: regex::RegexSet) -> Seq<(Seq<char>, bool)>;

/// Whether the regex `pattern` matches somewhere in `input`, as `RegexSet::matches` reports it.
pub uninterp spec fn regex_is_match(pattern: Seq<char>, case_insensitive: bool, input: Seq<char>) -> bool;

/// The globs a glob set builder holds, in order, each with its case
/// insensitivity flag.
pub uninterp spec fn glob_builder_globs(b: globset::GlobSetBuilder) -> Seq<(Seq<char>, bool)>;

/// The globs a compiled glob set holds, in order, each with its case
/// insensitivity flag.
pub uninterp spec fn glob_set_globs(s: globset::GlobSet) -> Seq<(Seq<char>, bool)>;

/// Whether the glob `pattern` matches the path `input`, as `GlobSet::matches` reports it.
pub uninterp spec fn glob_is_match(pattern: Seq<char>, case_insensitive: bool, input: Seq<char>) -> bool;

/// `idx` is strictly ascending and every index is below `n`.
pub open spec fn ascending_below(idx: Seq<usize>, n: nat) -> bool {
    &&& forall|i: int, j: int| 0 <= i < j < idx.len() ==> idx[i] < idx[j]
    &&& forall|i: int| 0 <= i < idx.len() ==> idx[i] < n
}

/// Whether `RegexSetBuilder` compiles these patterns with this flag.
pub uninterp spec fn regex_set_compiles(patterns: Seq<Seq<char>>, case_insensitive: bool) -> bool;

/// Whether `GlobBuilder` compiles this glob with this flag.
pub uninterp spec fn glob_compiles(pattern: Seq<char>, case_insensitive: bool) -> bool;

/// Whether `GlobSetBuilder::build` compiles a set of these globs.
pub uninterp spec fn glob_set_compiles(globs: Seq<(Seq<char>, bool)>) -> bool;

/// Relies on `RegexSetBuilder::new`, `case_insensitive` and `build`: whether
/// the patterns compile depends on them and the flag alone; on success the
/// set holds the given patterns in order, all with that flag.
#[verifier::external_body]
fn build_regex_set(patterns: &Vec<String>, case_insensitive: bool) -> (r: Result<
    regex::RegexSet,
    regex::Error,
>)
    ensures
        r is Ok <==> regex_set_compiles(patterns@.map_values(|p: String| p@), case_insensitive),
        r matches Ok(s) ==> regex_set_patterns(s) == patterns@.map_values(
            |p: String| (p@, case_insensitive),
        ),
{
    regex::RegexSetBuilder::new(patterns).case_insensitive(case_insensitive).build()
}

/// Relies on `RegexSet::matches`: the indices of the patterns that match,
/// in ascending order.
#[verifier::external_body]
fn regex_set_matches(set: &regex::RegexSet, input: &str) -> (r: Vec<usize>)
    ensures
        ascending_below(r@, regex_set_patterns(*set).len()),
        forall|i: int|
            0 <= i < regex_set_patterns(*set).len() ==> (r@.contains(i as usize) <==> regex_is_match(
                #[trigger] regex_set_patterns(*set)[i].0,
                regex_set_patterns(*set)[i].1,
                input@,
            )),
{
    set.matches(input).into_iter().collect()
}

/// Relies on `GlobSetBuilder::new`: a builder with no glob.
#[verifier::external_body]
fn new_glob_builder() -> (r: globset::GlobSetBuilder)
    ensures
        glob_builder_globs(r) == Seq::<(Seq<char>, bool)>::empty(),
{
    globset::GlobSetBuilder::new()
}

/// Relies on `GlobBuilder::new`, `case_insensitive` and `build`, then
/// `GlobSetBuilder::add`: whether the glob compiles depends on it and the
/// flag alone; a glob that compiles is appended, otherwise the builder is
/// left as it was.
#[verifier::external_body]
fn add_glob(b: &mut globset::GlobSetBuilder, pattern: &str, case_insensitive: bool) -> (r: Result<
    (),
    globset::Error,
>)
    ensures
        r is Ok <==> glob_compiles(pattern@, case_insensitive),
        r is Ok ==> glob_builder_globs(*final(b)) == glob_builder_globs(*old(b)).push(
            (pattern@, case_insensitive),
        ),
        r is Err ==> glob_builder_globs(*final(b)) == glob_builder_globs(*old(b)),
{
    let glob = globset::GlobBuilder::new(pattern).case_insensitive(case_insensitive).build()?;
    b.add(glob);
    Ok(())
}

/// Relies on `GlobSetBuilder::build`: whether the set compiles depends on the
/// builder's globs alone; on success the set holds them.
#[verifier::external_body]
fn build_glob_set(b: &globset::GlobSetBuilder) -> (r: Result<globset::GlobSet, globset::Error>)
    ensures
        r is Ok <==> glob_set_compiles(glob_builder_globs(*b)),
        r matches Ok(s) ==> glob_set_globs(s) == glob_builder_globs(*b),
{
    b.build()
}

/// Relies on `GlobSet::matches`: the indices of the globs that match, in
/// ascending order.
#[verifier::external_body]
fn glob_set_matches(set: &globset::GlobSet, input: &str) -> (r: Vec<usize>)
    ensures
        ascending_below(r@, glob_set_globs(*set).len()),
        forall|i: int|
            0 <= i < glob_set_globs(*set).len() ==> (r@.contains(i as usize) <==> glob_is_match(
                #[trigger] glob_set_globs(*set)[i].0,
                glob_set_globs(*set)[i].1,
                input@,
            )),
{
    set.matches(input)
}

/// Whether a rule's pattern matches the input.
pub open spec fn rule_matches(rule: Rule, input: Seq<char>) -> bool {
    match rule.pattern {
        Pattern::Regex(p) => regex_is_match(p@, rule.case_insensitive, input),
        Pattern::Glob(p) => glob_is_match(p@, rule.case_insensitive, input),
    }
}

/// The rules of `rules` that match `input`, in the order of `rules`.
pub open spec fn matching(rules: Seq<Rule>, input: Seq<char>) -> Seq<Rule>
    decreases rules.len(),
{
    if rules.len() == 0 {
        Seq::empty()
    } else if rule_matches(rules.last(), input) {
        matching(rules.drop_last(), input).push(rules.last())
    } else {
        matching(rules.drop_last(), input)
    }
}

/// The pattern and flag that a rule contributes to a compiled set.
pub open spec fn rule_key(rule: Rule) -> (Seq<char>, bool) {
    (pattern_text(rule.pattern), rule.case_insensitive)
}

/// The rules of one profile, resolved and compiled for matching. Within each
/// kind the most recently declared rule comes first.
pub struct RuleSet {
    regex_set: regex::RegexSet,
    glob_set: globset::GlobSet,
    profile: String,
    case_insensitive: bool,
    regex_rules: Vec<Rule>,
    glob_rules: Vec<Rule>,
}

impl RuleSet {
    #[verifier::type_invariant]
    spec fn inv(self) -> bool {
        &&& regex_set_patterns(self.regex_set) == self.regex_rules@.map_values(|r: Rule| rule_key(r))
        &&& glob_set_globs(self.glob_set) == self.glob_rules@.map_values(|r: Rule| rule_key(r))
        &&& forall|i: int|
            0 <= i < self.regex_rules@.len() ==> (#[trigger] self.regex_rules@[i]).pattern is Regex
        &&& forall|i: int|
            0 <= i < self.glob_rules@.len() ==> (#[trigger] self.glob_rules@[i]).pattern is Glob
    }

    /// The name of the profile.
    pub closed spec fn profile(&self) -> Seq<char> {
        self.profile@
    }

    /// Whether patterns match without regard to case.
    pub closed spec fn case_insensitive(&self) -> bool {
        self.case_insensitive
    }

    /// The regex rules, highest priority first.
    pub closed spec fn regex_rules(&self) -> Seq<Rule> {
        self.regex_rules@
    }

    /// The glob rules, highest priority first.
    pub closed spec fn glob_rules(&self) -> Seq<Rule> {
        self.glob_rules@
    }

    /// Every rule that matches `input`: regex rules before glob rules, each
    /// kind highest priority first.
    pub open spec fn spec_matches(&self, input: Seq<char>) -> Seq<Rule> {
        matching(self.regex_rules(), input) + matching(self.glob_rules(), input)
    }

    /// The rule that `match_one` selects for `input`.
    pub open spec fn spec_match_one(&self, input: Seq<char>) -> Option<Rule> {
        if self.spec_matches(input).len() > 0 {
            Some(self.spec_matches(input)[0])
        } else {
            None
        }
    }

    /// The name of the profile.
    pub fn profile_name(&self) -> (r: &String)
        ensures
            r@ == self.profile(),
    {
        &self.profile
    }

    /// Every rule that matches the input: regex rules before glob rules, each
    /// kind most recently declared first.
    pub fn matches(&self, input: &str) -> (r: Vec<&Rule>)
        ensures
            r@.map_values(|x: &Rule| *x) == self.spec_matches(input@),
    {
        proof {
            use_type_invariant(self);
        }
        let idx = regex_set_matches(&self.regex_set, input);
        assert forall|i: int| 0 <= i < self.regex_rules@.len() implies (idx@.contains(i as usize)
            <==> rule_matches(#[trigger] self.regex_rules@[i], input@)) by {
            assert(regex_set_patterns(self.regex_set)[i] == rule_key(self.regex_rules@[i]));
            assert(idx@.contains(i as usize) <==> regex_is_match(
                regex_set_patterns(self.regex_set)[i].0,
                regex_set_patterns(self.regex_set)[i].1,
                input@,
            ));
        }
        let mut out = select(&self.regex_rules, &idx, Ghost(input@));
        let idx = glob_set_matches(&self.glob_set, input);
        assert forall|i: int| 0 <= i < self.glob_rules@.len() implies (idx@.contains(i as usize)
            <==> rule_matches(#[trigger] self.glob_rules@[i], input@)) by {
            assert(glob_set_globs(self.glob_set)[i] == rule_key(self.glob_rules@[i]));
            assert(idx@.contains(i as usize) <==> glob_is_match(
                glob_set_globs(self.glob_set)[i].0,
                glob_set_globs(self.glob_set)[i].1,
                input@,
            ));
        }
        let globs = select(&self.glob_rules, &idx, Ghost(input@));
        let ghost first = out@;
        let mut k: usize = 0;
        while k < globs.len()
            invariant
                k <= globs.len(),
                out@.map_values(|x: &Rule| *x) == first.map_values(|x: &Rule| *x) + globs@.map_values(
                    |x: &Rule| *x,
                ).subrange(0, k as int),
            decreases globs.len() - k,
        {
            let ghost before = out@;
            out.push(globs[k]);
            assert(out@.map_values(|x: &Rule| *x) =~= before.map_values(|x: &Rule| *x).push(
                *globs@[k as int],
            ));
            assert(globs@.map_values(|x: &Rule| *x).subrange(0, k + 1) =~= globs@.map_values(
                |x: &Rule| *x,
            ).subrange(0, k as int).push(*globs@[k as int]));
            k = k + 1;
        }
        assert(globs@.map_values(|x: &Rule| *x).subrange(0, k as int) =~= globs@.map_values(
            |x: &Rule| *x,
        ));
        out
    }

    /// The highest-priority rule that matches the input: the most recently
    /// declared matching regex rule if any, else the most recently declared
    /// matching glob rule.
    pub fn match_one(&self, input: &str) -> (r: Option<&Rule>)
        ensures
            match r {
                Some(x) => self.spec_match_one(input@) == Some(*x),
                None => self.spec_match_one(input@) is None,
            },
    {
        let all = self.matches(input);
        if all.len() > 0 {
            assert(all@.map_values(|x: &Rule| *x)[0] == *all@[0]);
            Some(all[0])
        } else {
            None
        }
    }
}

/// The rules at the listed indices, given that the indices are exactly those
/// of the matching rules, in ascending order.
fn select<'a>(rules: &'a Vec<Rule>, idx: &Vec<usize>, Ghost(input): Ghost<Seq<char>>) -> (r: Vec<
    &'a Rule,
>)
    requires
        ascending_below(idx@, rules@.len()),
        forall|i: int|
            0 <= i < rules@.len() ==> (idx@.contains(i as usize) <==> rule_matches(
                #[trigger] rules@[i],
                input,
            )),
    ensures
        r@.map_values(|x: &Rule| *x) == matching(rules@, input),
{
    let mut out: Vec<&'a Rule> = Vec::new();
    let mut i: usize = 0;
    let mut k: usize = 0;
    assert(rules@.subrange(0, 0) =~= Seq::<Rule>::empty());
    assert(out@.map_values(|x: &Rule| *x) =~= Seq::<Rule>::empty());
    while i < rules.len()
        invariant
            i <= rules.len(),
            k <= idx.len(),
            ascending_below(idx@, rules@.len()),
            forall|i: int|
                0 <= i < rules@.len() ==> (idx@.contains(i as usize) <==> rule_matches(
                    #[trigger] rules@[i],
                    input,
                )),
            forall|j: int| 0 <= j < k ==> idx@[j] < i,
            forall|j: int| k <= j < idx@.len() ==> idx@[j] >= i,
            out@.map_values(|x: &Rule| *x) == matching(rules@.subrange(0, i as int), input),
        decreases rules.len() - i,
    {
        let ghost prefix = rules@.subrange(0, i as int + 1);
        assert(prefix.drop_last() =~= rules@.subrange(0, i as int));
        assert(prefix.last() == rules@[i as int]);
        let hit = k < idx.len() && idx[k] == i;
        assert(hit <==> idx@.contains(i)) by {
            if idx@.contains(i) {
                let j = choose|j: int| 0 <= j < idx@.len() && idx@[j] == i;
                if j > k {
                    assert(idx@[k as int] < idx@[j]);
                }
            }
        }
        if hit {
            let ghost before = out@;
            out.push(&rules[i]);
            assert(out@.map_values(|x: &Rule| *x) =~= before.map_values(|x: &Rule| *x).push(
                rules@[i as int],
            ));
            k = k + 1;
        }
        i = i + 1;
    }
    assert(rules@.subrange(0, i as int) =~= rules@);
    out
}

proof fn lemma_resolution_concat(
    aliases: Seq<(Seq<char>, Seq<char>)>,
    a: Seq<Rule>,
    b: Seq<Rule>,
    id: Seq<char>,
)
    ensures
        first_unresolved(aliases, a, id) ==> first_unresolved(aliases, a + b, id),
        all_resolvable(aliases, a) && first_unresolved(aliases, b, id) ==> first_unresolved(
            aliases,
            a + b,
            id,
        ),
        all_resolvable(aliases, a + b) <==> (all_resolvable(aliases, a) && all_resolvable(
            aliases,
            b,
        )),
{
    if first_unresolved(aliases, a, id) {
        let i = choose|i: int|
            0 <= i < a.len() && #[trigger] alias_of(a[i].action) == Some(id) && lookup_alias(
                aliases,
                id,
            ) is None && all_resolvable(aliases, a.subrange(0, i));
        assert((a + b).subrange(0, i) =~= a.subrange(0, i));
        assert((a + b)[i] == a[i]);
    }
    if all_resolvable(aliases, a) && first_unresolved(aliases, b, id) {
        let i = choose|i: int|
            0 <= i < b.len() && #[trigger] alias_of(b[i].action) == Some(id) && lookup_alias(
                aliases,
                id,
            ) is None && all_resolvable(aliases, b.subrange(0, i));
        let pre = (a + b).subrange(0, a.len() + i);
        assert(pre =~= a + b.subrange(0, i));
        assert forall|j: int| 0 <= j < pre.len() implies (#[trigger] resolve_action(
            aliases,
            pre[j].action,
        )) is Some by {
            if j < a.len() {
                assert(pre[j] == a[j]);
            } else {
                assert(pre[j] == b.subrange(0, i)[j - a.len()]);
            }
        }
        assert((a + b)[a.len() + i] == b[i]);
    }
    if all_resolvable(aliases, a) && all_resolvable(aliases, b) {
        assert forall|j: int| 0 <= j < (a + b).len() implies (#[trigger] resolve_action(
            aliases,
            (a + b)[j].action,
        )) is Some by {
            if j < a.len() {
                assert((a + b)[j] == a[j]);
            } else {
                assert((a + b)[j] == b[j - a.len()]);
            }
        }
    }
    if all_resolvable(aliases, a + b) {
        assert forall|j: int| 0 <= j < a.len() implies (#[trigger] resolve_action(
            aliases,
            a[j].action,
        )) is Some by {
            assert((a + b)[j] == a[j]);
        }
        assert forall|j: int| 0 <= j < b.len() implies (#[trigger] resolve_action(
            aliases,
            b[j].action,
        )) is Some by {
            assert((a + b)[a.len() + j] == b[j]);
        }
    }
}

/// `set` is what `b` builds: the same profile and flag, each kind of rules
/// resolved and in reverse declaration order.
pub open spec fn built_profile(b: RuleSetBuilder, set: RuleSet) -> bool {
    &&& set.profile() == b.profile()
    &&& set.case_insensitive() == b.case_insensitive()
    &&& resolved_reversed(b.aliases(), b.regex_rules(), set.regex_rules())
    &&& resolved_reversed(b.aliases(), b.glob_rules(), set.glob_rules())
}

/// Resolves each rule, in order; the first rule that cannot be resolved
/// stops the work.
fn resolve_all(rules: &Vec<Rule>, aliases: &Vec<(String, String)>, profile: &String) -> (r: Result<
    Vec<Rule>,
    RrrError,
>)
    ensures
        all_resolvable(alias_view(aliases@), rules@) <==> r is Ok,
        r matches Ok(v) ==> (v@.len() == rules@.len() && forall|i: int|
            0 <= i < v@.len() ==> #[trigger] is_resolution(
                v@[i],
                rules@[i],
                resolve_action(alias_view(aliases@), rules@[i].action).unwrap(),
            )),
        r matches Err(e) ==> (e matches RrrError::UnresolvedAlias { alias, profile: p }
            && first_unresolved(alias_view(aliases@), rules@, alias@) && p@ == profile@),
{
    let ghost al = alias_view(aliases@);
    let mut out: Vec<Rule> = Vec::new();
    let mut i: usize = 0;
    while i < rules.len()
        invariant
            i <= rules.len(),
            al == alias_view(aliases@),
            all_resolvable(al, rules@.subrange(0, i as int)),
            out@.len() == i,
            forall|j: int|
                0 <= j < i ==> #[trigger] is_resolution(
                    out@[j],
                    rules@[j],
                    resolve_action(al, rules@[j].action).unwrap(),
                ),
        decreases rules.len() - i,
    {
        match rules[i].resolve(aliases, profile) {
            Ok(rule) => {
                out.push(rule);
                assert forall|j: int| 0 <= j < i + 1 implies (#[trigger] resolve_action(
                    al,
                    rules@.subrange(0, i + 1)[j].action,
                )) is Some by {
                    if j < i {
                        assert(rules@.subrange(0, i + 1)[j] == rules@.subrange(0, i as int)[j]);
                    }
                }
            },
            Err(e) => {
                assert(alias_of(rules@[i as int].action) is Some);
                assert(!all_resolvable(al, rules@));
                return Err(e);
            },
        }
        i = i + 1;
    }
    assert(rules@.subrange(0, i as int) =~= rules@);
    Ok(out)
}

/// The rules in reverse order.
fn reversed(v: Vec<Rule>) -> (r: Vec<Rule>)
    ensures
        r@.len() == v@.len(),
        forall|i: int| 0 <= i < r@.len() ==> #[trigger] r@[i] == v@[v@.len() - 1 - i],
{
    let ghost orig = v@;
    let mut v = v;
    let mut out: Vec<Rule> = Vec::new();
    while v.len() > 0
        invariant
            out@.len() + v@.len() == orig.len(),
            v@ == orig.subrange(0, v@.len() as int),
            forall|i: int| 0 <= i < out@.len() ==> #[trigger] out@[i] == orig[orig.len() - 1 - i],
        decreases v@.len(),
    {
        match v.pop() {
            Some(x) => {
                out.push(x);
            },
            None => {},
        }
    }
    out
}

/// Every glob rule compiles, and so does the set of them.
pub open spec fn globs_compile(rules: Seq<Rule>) -> bool {
    &&& forall|j: int|
        0 <= j < rules.len() ==> glob_compiles(
            #[trigger] rule_key(rules[j]).0,
            rules[j].case_insensitive,
        )
    &&& glob_set_compiles(rules.map_values(|r: Rule| rule_key(r)))
}

/// The keys of the rules, last rule first.
pub open spec fn reversed_keys(rules: Seq<Rule>) -> Seq<(Seq<char>, bool)> {
    Seq::new(rules.len(), |i: int| rule_key(rules[rules.len() - 1 - i]))
}

/// The rules of a builder, in the order they are compiled, resolve and
/// compile: the build succeeds exactly then.
pub open spec fn builds(b: RuleSetBuilder) -> bool {
    &&& all_resolvable(b.aliases(), b.regex_rules() + b.glob_rules())
    &&& regex_set_compiles(
        reversed_keys(b.regex_rules()).map_values(|k: (Seq<char>, bool)| k.0),
        b.case_insensitive(),
    )
    &&& forall|j: int|
        0 <= j < b.glob_rules().len() ==> glob_compiles(
            #[trigger] rule_key(b.glob_rules()[j]).0,
            b.case_insensitive(),
        )
    &&& glob_set_compiles(reversed_keys(b.glob_rules()))
}

/// Compiles the glob rules, in order, into one glob set.
fn compile_globs(rules: &Vec<Rule>, case_insensitive: bool) -> (r: Result<
    globset::GlobSet,
    RrrError,
>)
    requires
        forall|j: int|
            0 <= j < rules@.len() ==> (#[trigger] rules@[j]).case_insensitive == case_insensitive,
    ensures
        r is Ok <==> globs_compile(rules@),
        r matches Ok(s) ==> glob_set_globs(s) == rules@.map_values(|r: Rule| rule_key(r)),
        r matches Err(e) ==> e is InvalidGlob,
{
    let mut builder = new_glob_builder();
    let mut i: usize = 0;
    assert(rules@.subrange(0, 0).map_values(|r: Rule| rule_key(r)) =~= Seq::<
        (Seq<char>, bool),
    >::empty());
    while i < rules.len()
        invariant
            i <= rules.len(),
            glob_builder_globs(builder) == rules@.subrange(0, i as int).map_values(
                |r: Rule| rule_key(r),
            ),
            forall|j: int|
                0 <= j < rules@.len() ==> (#[trigger] rules@[j]).case_insensitive
                    == case_insensitive,
            forall|j: int| 0 <= j < i ==> glob_compiles(#[trigger] rule_key(rules@[j]).0, rules@[j].case_insensitive),
        decreases rules.len() - i,
    {
        match add_glob(&mut builder, rules[i].pattern_as_str(), case_insensitive) {
            Ok(()) => {},
            Err(_) => {
                assert(!glob_compiles(rule_key(rules@[i as int]).0, rules@[i as int].case_insensitive));
                return Err(RrrError::InvalidGlob);
            },
        }
        assert(rules@.subrange(0, i + 1).map_values(|r: Rule| rule_key(r)) =~= rules@.subrange(
            0,
            i as int,
        ).map_values(|r: Rule| rule_key(r)).push(rule_key(rules@[i as int])));
        i = i + 1;
    }
    assert(rules@.subrange(0, i as int) =~= rules@);
    match build_glob_set(&builder) {
        Ok(s) => Ok(s),
        Err(_) => Err(RrrError::InvalidGlob),
    }
}

/// The pattern texts of the rules, in order.
fn pattern_texts(rules: &Vec<Rule>) -> (r: Vec<String>)
    ensures
        r@.len() == rules@.len(),
        forall|i: int| 0 <= i < r@.len() ==> #[trigger] r@[i]@ == pattern_text(rules@[i].pattern),
{
    let mut out: Vec<String> = Vec::new();
    let mut i: usize = 0;
    while i < rules.len()
        invariant
            i <= rules.len(),
            out@.len() == i,
            forall|j: int| 0 <= j < i ==> #[trigger] out@[j]@ == pattern_text(rules@[j].pattern),
        decreases rules.len() - i,
    {
        out.push(String::from_str(rules[i].pattern_as_str()));
        i = i + 1;
    }
    out
}

impl RuleSetBuilder {
    /// Resolves every rule (regex rules first, then glob rules, each in
    /// declaration order) and compiles the two matchers, with the most
    /// recently declared rule of each kind first. The first rule whose alias
    /// is not defined makes the whole build fail.
    pub fn build(self) -> (r: Result<RuleSet, RrrError>)
        requires
            self.wf(),
        ensures
            !all_resolvable(self.aliases(), self.regex_rules() + self.glob_rules()) ==> (r matches Err(
                RrrError::UnresolvedAlias { alias, profile },
            ) && first_unresolved(self.aliases(), self.regex_rules() + self.glob_rules(), alias@)
                && profile@ == self.profile()),
            r is Ok <==> builds(self),
            all_resolvable(self.aliases(), self.regex_rules() + self.glob_rules())
                && !regex_set_compiles(
                reversed_keys(self.regex_rules()).map_values(|k: (Seq<char>, bool)| k.0),
                self.case_insensitive(),
            ) ==> r matches Err(RrrError::InvalidRegex),
            all_resolvable(self.aliases(), self.regex_rules() + self.glob_rules())
                && regex_set_compiles(
                reversed_keys(self.regex_rules()).map_values(|k: (Seq<char>, bool)| k.0),
                self.case_insensitive(),
            ) && !builds(self) ==> r matches Err(RrrError::InvalidGlob),
            r matches Ok(set) ==> built_profile(self, set),
    {
        let ghost al = self.aliases();
        let ghost regex_decl = self.regex_rules();
        let ghost glob_decl = self.glob_rules();
        proof {
            lemma_resolution_concat(al, regex_decl, glob_decl, Seq::empty());
        }
        assert(forall|i: int|
            0 <= i < regex_decl.len() ==> fresh_of_kind(
                #[trigger] regex_decl[i],
                true,
                self.case_insensitive(),
            ));
        assert(forall|i: int|
            0 <= i < glob_decl.len() ==> fresh_of_kind(
                #[trigger] glob_decl[i],
                false,
                self.case_insensitive(),
            ));
        let RuleSetBuilder { profile, case_insensitive, alias, regex_rules, glob_rules } = self;
        let regex_resolved = match resolve_all(&regex_rules, &alias, &profile) {
            Ok(v) => v,
            Err(e) => {
                proof {
                    if let RrrError::UnresolvedAlias { alias: id, profile: _ } = &e {
                        lemma_resolution_concat(al, regex_rules@, glob_rules@, id@);
                    }
                }
                return Err(e);
            },
        };
        let glob_resolved = match resolve_all(&glob_rules, &alias, &profile) {
            Ok(v) => v,
            Err(e) => {
                proof {
                    if let RrrError::UnresolvedAlias { alias: id, profile: _ } = &e {
                        lemma_resolution_concat(al, regex_rules@, glob_rules@, id@);
                    }
                }
                return Err(e);
            },
        };
        let regex_rules = reversed(regex_resolved);
        let glob_rules = reversed(glob_resolved);
        assert forall|i: int| 0 <= i < regex_rules@.len() implies (#[trigger] regex_rules@[i]).pattern is Regex
            && regex_rules@[i].case_insensitive == case_insensitive by {
            let k = regex_rules@.len() - 1 - i;
            assert(regex_rules@[i] == regex_resolved@[k]);
            assert(is_resolution(
                regex_resolved@[k],
                regex_decl[k],
                resolve_action(al, regex_decl[k].action).unwrap(),
            ));
            assert(fresh_of_kind(regex_decl[k], true, case_insensitive));
        }
        assert forall|i: int| 0 <= i < glob_rules@.len() implies (#[trigger] glob_rules@[i]).pattern is Glob
            && glob_rules@[i].case_insensitive == case_insensitive by {
            let k = glob_rules@.len() - 1 - i;
            assert(glob_rules@[i] == glob_resolved@[k]);
            assert(is_resolution(
                glob_resolved@[k],
                glob_decl[k],
                resolve_action(al, glob_decl[k].action).unwrap(),
            ));
            assert(fresh_of_kind(glob_decl[k], false, case_insensitive));
        }

        assert forall|i: int| 0 <= i < regex_rules@.len() implies #[trigger] rule_key(regex_rules@[i])
            == reversed_keys(regex_decl)[i] by {
            let k = regex_rules@.len() - 1 - i;
            assert(regex_rules@[i] == regex_resolved@[k]);
            assert(is_resolution(
                regex_resolved@[k],
                regex_decl[k],
                resolve_action(al, regex_decl[k].action).unwrap(),
            ));
        }
        assert forall|i: int| 0 <= i < glob_rules@.len() implies #[trigger] rule_key(glob_rules@[i])
            == reversed_keys(glob_decl)[i] by {
            let k = glob_rules@.len() - 1 - i;
            assert(glob_rules@[i] == glob_resolved@[k]);
            assert(is_resolution(
                glob_resolved@[k],
                glob_decl[k],
                resolve_action(al, glob_decl[k].action).unwrap(),
            ));
        }
        assert(glob_rules@.map_values(|r: Rule| rule_key(r)) =~= reversed_keys(glob_decl));
        assert(globs_compile(glob_rules@) <==> (forall|j: int|
            0 <= j < glob_decl.len() ==> glob_compiles(
                #[trigger] rule_key(glob_decl[j]).0,
                case_insensitive,
            )) && glob_set_compiles(reversed_keys(glob_decl))) by {
            let n = glob_decl.len();
            if forall|j: int|
                0 <= j < glob_decl.len() ==> glob_compiles(
                    #[trigger] rule_key(glob_decl[j]).0,
                    case_insensitive,
                ) {
                assert forall|j: int| 0 <= j < glob_rules@.len() implies glob_compiles(
                    #[trigger] rule_key(glob_rules@[j]).0,
                    glob_rules@[j].case_insensitive,
                ) by {
                    assert(rule_key(glob_rules@[j]) == reversed_keys(glob_decl)[j]);
                    assert(rule_key(glob_decl[n - 1 - j]).0 == reversed_keys(glob_decl)[j].0);
                }
            }
            if forall|j: int|
                0 <= j < glob_rules@.len() ==> glob_compiles(
                    #[trigger] rule_key(glob_rules@[j]).0,
                    glob_rules@[j].case_insensitive,
                ) {
                assert forall|j: int| 0 <= j < glob_decl.len() implies glob_compiles(
                    #[trigger] rule_key(glob_decl[j]).0,
                    case_insensitive,
                ) by {
                    let i = n - 1 - j;
                    assert(rule_key(glob_rules@[i]) == reversed_keys(glob_decl)[i]);
                    assert(glob_compiles(rule_key(glob_rules@[i]).0, glob_rules@[i].case_insensitive));
                }
            }
        }

        let patterns = pattern_texts(&regex_rules);
        assert(patterns@.map_values(|p: String| p@) =~= reversed_keys(regex_decl).map_values(
            |k: (Seq<char>, bool)| k.0,
        )) by {
            assert forall|i: int| 0 <= i < patterns@.len() implies patterns@[i]@ == reversed_keys(
                regex_decl,
            )[i].0 by {
                assert(rule_key(regex_rules@[i]) == reversed_keys(regex_decl)[i]);
            }
        }
        let regex_set = match build_regex_set(&patterns, case_insensitive) {
            Ok(s) => s,
            Err(_) => {
                return Err(RrrError::InvalidRegex);
            },
        };
        assert(regex_set_patterns(regex_set) =~= regex_rules@.map_values(|r: Rule| rule_key(r)));
        let glob_set = compile_globs(&glob_rules, case_insensitive)?;
        Ok(RuleSet { regex_set, glob_set, profile, case_insensitive, regex_rules, glob_rules })
    }
}

/// The placeholder for the `k`-th capture group: `%k`.
pub open spec fn capture_tag(k: nat) -> Seq<char> {
    seq!['%'] + decimal(k)
}

/// The placeholder for the input: `%s`.
pub open spec fn input_tag() -> Seq<char> {
    seq!['%', 's']
}

/// `template` with `%1`, `%2`, ... replaced in turn by the given texts.
pub open spec fn substituted_captures(template: Seq<char>, captures: Seq<Seq<char>>) -> Seq<char>
    decreases captures.len(),
{
    if captures.len() == 0 {
        template
    } else {
        replaced(
            substituted_captures(template, captures.drop_last()),
            capture_tag(captures.len()),
            captures.last(),
        )
    }
}

/// `template` with `%s` replaced by `input`; where `template` has no `%s`,
/// ` %s` is appended first.
pub open spec fn substituted_input(template: Seq<char>, input: Seq<char>) -> Seq<char> {
    let with_tag = if contains_seq(template, input_tag()) {
        template
    } else {
        template + seq![' ', '%', 's']
    };
    replaced(with_tag, input_tag(), input)
}

/// No text of `texts` holds a nul character.
pub open spec fn all_quotable(texts: Seq<Seq<char>>) -> bool {
    forall|i: int| 0 <= i < texts.len() ==> !(#[trigger] texts[i]).contains('\0')
}

/// The command prepared from a resolved template, the captures and the input.
pub open spec fn prepared_command(template: Seq<char>, captures: Seq<Seq<char>>, input: Seq<char>) -> Seq<
    char,
> {
    substituted_input(
        substituted_captures(template, captures.map_values(|c: Seq<char>| shell_quoted(c))),
        shell_quoted(input),
    )
}

/// `new` is `old` with its execution command set to `command`.
pub open spec fn is_preparation(new: Rule, old: Rule, command: Seq<char>) -> bool {
    &&& new.pattern == old.pattern
    &&& new.action == old.action
    &&& new.resolved == old.resolved
    &&& new.case_insensitive == old.case_insensitive
    &&& new.rule_origin == old.rule_origin
    &&& new.config_origin == old.config_origin
    &&& new.execution matches Some(c) && c@ == command
}

/// What the regex `pattern` captures in `input`, group 0 first (`None` for a
/// group that did not take part), or nothing where the pattern does not
/// compile or does not match.
pub uninterp spec fn regex_captures(pattern: Seq<char>, case_insensitive: bool, input: Seq<char>) -> Option<
    Seq<Option<Seq<char>>>,
>;

/// The view of an optional text.
pub open spec fn opt_view(g: Option<String>) -> Option<Seq<char>> {
    match g {
        Some(s) => Some(s@),
        None => None,
    }
}

/// Relies on `RegexBuilder::new`, `case_insensitive`, `build`, then
/// `Regex::captures`: the groups of the match, group 0 first.
#[verifier::external_body]
fn capture_groups(pattern: &str, case_insensitive: bool, input: &str) -> (r: Option<
    Vec<Option<String>>,
>)
    ensures
        match r {
            Some(v) => regex_captures(pattern@, case_insensitive, input@) == Some(
                v@.map_values(|g: Option<String>| opt_view(g)),
            ),
            None => regex_captures(pattern@, case_insensitive, input@) is None,
        },
{
    let re = regex::RegexBuilder::new(pattern).case_insensitive(case_insensitive).build().ok()?;
    let caps = re.captures(input)?;
    Some(caps.iter().map(|m| m.map(|m| m.as_str().to_string())).collect())
}

/// The texts of the groups that took part, in order.
pub open spec fn present_groups(groups: Seq<Option<Seq<char>>>) -> Seq<Seq<char>>
    decreases groups.len(),
{
    if groups.len() == 0 {
        Seq::empty()
    } else {
        match groups.last() {
            Some(g) => present_groups(groups.drop_last()).push(g),
            None => present_groups(groups.drop_last()),
        }
    }
}

/// The capture groups of a rule on an input, group 0 left out: none for a
/// glob rule; nothing at all where a regex rule captures nothing.
pub open spec fn rule_captures(rule: Rule, input: Seq<char>) -> Option<Seq<Seq<char>>> {
    match rule.pattern {
        Pattern::Glob(_) => Some(Seq::empty()),
        Pattern::Regex(p) => match regex_captures(p@, rule.case_insensitive, input) {
            Some(groups) => Some(
                if groups.len() == 0 {
                    Seq::empty()
                } else {
                    present_groups(groups.drop_first())
                },
            ),
            None => None,
        },
    }
}

/// Replaces `%1`, `%2`, ... in `template`, in turn, by the given texts,
/// which are taken as they are (already quoted).
pub fn fill_captures(template: &str, quoted_captures: &Vec<String>) -> (r: String)
    ensures
        r@ == substituted_captures(template@, quoted_captures@.map_values(|c: String| c@)),
{
    let ghost caps = quoted_captures@.map_values(|c: String| c@);
    let mut action = chars_of(template);
    let mut i: usize = 0;
    assert(caps.subrange(0, 0) =~= Seq::<Seq<char>>::empty());
    while i < quoted_captures.len()
        invariant
            i <= quoted_captures.len(),
            caps == quoted_captures@.map_values(|c: String| c@),
            action@ == substituted_captures(template@, caps.subrange(0, i as int)),
        decreases quoted_captures.len() - i,
    {
        let mut tag: Vec<char> = vec!['%'];
        push_decimal(&mut tag, i + 1);
        let by = chars_of(quoted_captures[i].as_str());
        action = replace(&action, &tag, &by);
        let ghost pre = caps.subrange(0, i + 1);
        assert(pre.drop_last() =~= caps.subrange(0, i as int));
        assert(tag@ =~= capture_tag((i + 1) as nat));
        i = i + 1;
    }
    assert(caps.subrange(0, i as int) =~= caps);
    string_of(&action)
}

/// Replaces `%s` in `template` by `quoted_input`, taken as it is (already
/// quoted); where `template` has no `%s`, ` %s` is appended first.
pub fn fill_input(template: &str, quoted_input: &str) -> (r: String)
    ensures
        r@ == substituted_input(template@, quoted_input@),
{
    let mut action = chars_of(template);
    let tag: Vec<char> = vec!['%', 's'];
    assert(tag@ =~= input_tag());
    if !contains(&action, &tag) {
        action.push(' ');
        action.push('%');
        action.push('s');
    }
    assert(action@ =~= if contains_seq(template@, input_tag()) {
        template@
    } else {
        template@ + seq![' ', '%', 's']
    });
    let by = chars_of(quoted_input);
    let out = replace(&action, &tag, &by);
    string_of(&out)
}

impl Rule {
    /// Whether the rule has been prepared for execution.
    pub fn is_executable(&self) -> (r: bool)
        ensures
            r == self.execution is Some,
    {
        self.execution.is_some()
    }

    /// The command prepared for execution.
    pub fn get_executed_action(&self) -> (r: Result<&str, RrrError>)
        ensures
            match self.execution {
                Some(e) => r matches Ok(s) && s@ == e@,
                None => r matches Err(e) && e is NotPrepared,
            },
    {
        match &self.execution {
            Some(e) => Ok(e.as_str()),
            None => Err(RrrError::NotPrepared),
        }
    }

    /// Quotes each capture and substitutes it for `%1`, `%2`, ... in turn.
    fn substitute_captures(action: String, captures: Vec<String>) -> (r: Result<String, RrrError>)
        ensures
            all_quotable(captures@.map_values(|c: String| c@)) <==> r is Ok,
            r matches Ok(s) ==> s@ == substituted_captures(
                action@,
                captures@.map_values(|c: String| c@).map_values(|c: Seq<char>| shell_quoted(c)),
            ),
            r matches Err(e) ==> e is UnquotableText,
    {
        let ghost caps = captures@.map_values(|c: String| c@);
        let mut quoted: Vec<String> = Vec::new();
        let mut i: usize = 0;
        while i < captures.len()
            invariant
                i <= captures.len(),
                caps == captures@.map_values(|c: String| c@),
                quoted@.len() == i,
                forall|j: int| 0 <= j < i ==> #[trigger] quoted@[j]@ == shell_quoted(caps[j]),
                forall|j: int| 0 <= j < i ==> !(#[trigger] caps[j]).contains('\0'),
            decreases captures.len() - i,
        {
            match quote(captures[i].as_str()) {
                Ok(q) => quoted.push(q),
                Err(e) => {
                    assert(caps[i as int].contains('\0'));
                    return Err(e);
                },
            }
            i = i + 1;
        }
        assert(quoted@.map_values(|c: String| c@) =~= caps.map_values(
            |c: Seq<char>| shell_quoted(c),
        ));
        Ok(fill_captures(action.as_str(), &quoted))
    }

    /// Quotes the input and substitutes it for `%s`.
    fn substitute_file(action: String, input: &str) -> (r: Result<String, RrrError>)
        ensures
            !input@.contains('\0') <==> r is Ok,
            r matches Ok(s) ==> s@ == substituted_input(action@, shell_quoted(input@)),
            r matches Err(e) ==> e is UnquotableText,
    {
        let quoted = quote(input)?;
        Ok(fill_input(action.as_str(), quoted.as_str()))
    }

    /// A copy of this rule, prepared with the given captures and input.
    fn substitute(&self, captures: Vec<String>, input: &str) -> (r: Result<Rule, RrrError>)
        requires
            self.resolved is Some,
        ensures
            (all_quotable(captures@.map_values(|c: String| c@)) && !input@.contains('\0'))
                <==> r is Ok,
            r matches Ok(p) ==> is_preparation(
                p,
                *self,
                prepared_command(
                    self.resolved_command().unwrap(),
                    captures@.map_values(|c: String| c@),
                    input@,
                ),
            ),
            r matches Err(e) ==> e is UnquotableText,
    {
        let resolved = match &self.resolved {
            Some(c) => c.clone(),
            None => {
                return Err(RrrError::NotResolved);
            },
        };
        let with_captures = Self::substitute_captures(resolved, captures)?;
        let command = Self::substitute_file(with_captures, input)?;
        Ok(
            Rule {
                pattern: self.pattern.copy(),
                action: self.action.copy(),
                resolved: copy_option(&self.resolved),
                execution: Some(command),
                case_insensitive: self.case_insensitive,
                rule_origin: self.rule_origin.copy(),
                config_origin: self.config_origin.copy(),
            },
        )
    }

    /// The capture groups of the rule's pattern on the input, group 0 left
    /// out and groups that did not take part skipped; none for a glob rule.
    fn captures(&self, input: &str) -> (r: Result<Vec<String>, RrrError>)
        ensures
            match rule_captures(*self, input@) {
                Some(caps) => r matches Ok(v) && v@.map_values(|c: String| c@) == caps,
                None => r matches Err(e) && e is CaptureFailed,
            },
    {
        if let Pattern::Glob(_) = &self.pattern {
            let v: Vec<String> = Vec::new();
            assert(v@.map_values(|c: String| c@) =~= Seq::<Seq<char>>::empty());
            return Ok(v);
        }
        let groups = match capture_groups(self.pattern_as_str(), self.case_insensitive, input) {
            Some(g) => g,
            None => {
                return Err(RrrError::CaptureFailed);
            },
        };
        let ghost gv = groups@.map_values(|g: Option<String>| opt_view(g));
        let mut out: Vec<String> = Vec::new();
        if groups.len() == 0 {
            assert(out@.map_values(|c: String| c@) =~= Seq::<Seq<char>>::empty());
            return Ok(out);
        }
        let mut i: usize = 1;
        assert(gv.drop_first().subrange(0, 0) =~= Seq::<Option<Seq<char>>>::empty());
        assert(out@.map_values(|c: String| c@) =~= Seq::<Seq<char>>::empty());
        while i < groups.len()
            invariant
                1 <= i <= groups.len(),
                gv == groups@.map_values(|g: Option<String>| opt_view(g)),
                out@.map_values(|c: String| c@) == present_groups(
                    gv.drop_first().subrange(0, i - 1),
                ),
            decreases groups.len() - i,
        {
            let ghost before = out@;
            let ghost pre = gv.drop_first().subrange(0, i as int);
            assert(pre.drop_last() =~= gv.drop_first().subrange(0, i - 1));
            assert(pre.last() == opt_view(groups@[i as int]));
            match &groups[i] {
                Some(g) => {
                    out.push(g.clone());
                    assert(out@.map_values(|c: String| c@) =~= before.map_values(|c: String| c@).push(
                        g@,
                    ));
                },
                None => {},
            }
            i = i + 1;
        }
        assert(gv.drop_first().subrange(0, i - 1) =~= gv.drop_first());
        Ok(out)
    }

    /// A copy of this rule prepared for execution against the input that it
    /// matched: `%1`, `%2`, ... become the quoted capture groups, `%s` the
    /// quoted input (appended as ` %s` where the command has no `%s`). The
    /// rule itself is left as it is.
    pub fn prepare(&self, input: &str) -> (r: Result<Rule, RrrError>)
        requires
            self.resolved is Some,
        ensures
            match rule_captures(*self, input@) {
                None => r matches Err(e) && e is CaptureFailed,
                Some(caps) => if all_quotable(caps) && !input@.contains('\0') {
                    r matches Ok(p) && is_preparation(
                        p,
                        *self,
                        prepared_command(self.resolved_command().unwrap(), caps, input@),
                    )
                } else {
                    r matches Err(e) && e is UnquotableText
                },
            },
    {
        let captures = self.captures(input)?;
        self.substitute(captures, input)
    }
}

/// The primary section of a desktop entry: its `Exec` and `MimeType`
/// attributes, where present.
#[derive(Debug)]
pub struct DesktopSection {
    pub exec_command: Option<String>,
    pub mime_type: Option<String>,
}

/// The file extensions registered for a MIME type, as
/// `mime_guess::get_mime_extensions_str` gives them; nothing for an unknown type.
pub uninterp spec fn mime_extensions(mime: Seq<char>) -> Option<Seq<Seq<char>>>;

/// Relies on `mime_guess::get_mime_extensions_str`: the extensions
/// registered for the MIME type, `None` for an unknown type.
#[verifier::external_body]
fn extensions_of_mime(mime: &str) -> (r: Option<Vec<String>>)
    ensures
        match r {
            Some(v) => mime_extensions(mime@) == Some(v@.map_values(|e: String| e@)),
            None => mime_extensions(mime@) is None,
        },
{
    mime_guess::get_mime_extensions_str(mime).map(|exts| exts.iter().map(|e| e.to_string()).collect())
}

/// An `Exec` value with the file and URL placeholders `%U`, `%u`, `%F`, `%f`
/// replaced, in that order, by `%s`.
pub open spec fn normalized_exec(command: Seq<char>) -> Seq<char> {
    let s = input_tag();
    replaced(
        replaced(replaced(replaced(command, seq!['%', 'U'], s), seq!['%', 'u'], s), seq!['%', 'F'], s),
        seq!['%', 'f'],
        s,
    )
}

/// The glob that matches files with extension `ext`: `*.ext`.
pub open spec fn extension_glob(ext: Seq<char>) -> Seq<char> {
    seq!['*', '.'] + ext
}

/// The globs imported for a list of MIME types: for each non-empty one, in
/// order, the glob of each extension registered for it.
pub open spec fn import_globs(mimes: Seq<Seq<char>>) -> Seq<Seq<char>>
    decreases mimes.len(),
{
    if mimes.len() == 0 {
        Seq::empty()
    } else {
        let prev = import_globs(mimes.drop_last());
        if mimes.last().len() == 0 {
            prev
        } else {
            match mime_extensions(mimes.last()) {
                Some(exts) => prev + exts.map_values(|e: Seq<char>| extension_glob(e)),
                None => prev,
            }
        }
    }
}

/// `rule` is a fresh glob rule imported with this glob, command, path and origin.
pub open spec fn is_imported_rule(
    rule: Rule,
    glob: Seq<char>,
    command: Seq<char>,
    path: Seq<char>,
    origin: ConfigOrigin,
    case_insensitive: bool,
) -> bool {
    &&& rule.pattern is Glob
    &&& pattern_text(rule.pattern) == glob
    &&& rule.action == Action::Command(rule.action->Command_0)
    &&& rule.action->Command_0@ == command
    &&& rule.resolved is None
    &&& rule.execution is None
    &&& rule.case_insensitive == case_insensitive
    &&& rule.rule_origin is Imported
    &&& rule.rule_origin->Imported_0@ == path
    &&& rule.config_origin == origin
}

/// `new` is `old` with one imported glob rule per glob of `globs` appended.
pub open spec fn imported_rules_added(
    old: RuleSetBuilder,
    new: RuleSetBuilder,
    globs: Seq<Seq<char>>,
    command: Seq<char>,
    path: Seq<char>,
    origin: ConfigOrigin,
) -> bool {
    &&& new.profile() == old.profile()
    &&& new.case_insensitive() == old.case_insensitive()
    &&& new.aliases() == old.aliases()
    &&& new.regex_rules() == old.regex_rules()
    &&& new.glob_rules().len() == old.glob_rules().len() + globs.len()
    &&& new.glob_rules().subrange(0, old.glob_rules().len() as int) == old.glob_rules()
    &&& forall|k: int|
        0 <= k < globs.len() ==> is_imported_rule(
            #[trigger] new.glob_rules()[old.glob_rules().len() + k],
            globs[k],
            command,
            path,
            origin,
            old.case_insensitive(),
        )
}

/// Replaces the desktop file and URL placeholders of an `Exec` value by `%s`.
fn normalize_exec(command: &str) -> (r: String)
    ensures
        r@ == normalized_exec(command@),
{
    let s: Vec<char> = vec!['%', 's'];
    let a = replace(&chars_of(command), &vec!['%', 'U'], &s);
    let b = replace(&a, &vec!['%', 'u'], &s);
    let c = replace(&b, &vec!['%', 'F'], &s);
    let d = replace(&c, &vec!['%', 'f'], &s);
    assert(s@ =~= input_tag());
    string_of(&d)
}

/// What importing a desktop entry's primary section does to a builder.
pub open spec fn import_applied(
    old: RuleSetBuilder,
    new: RuleSetBuilder,
    config_origin: ConfigOrigin,
    imported_path: Seq<char>,
    section: Option<DesktopSection>,
    ignore_missing_attrs: bool,
    r: Result<(), RrrError>,
) -> bool {
    match section {
        None => r matches Err(e) && e is MissingSection && new == old,
        Some(sec) => match (sec.exec_command, sec.mime_type) {
            (Some(command), Some(mime)) => r is Ok && imported_rules_added(
                old,
                new,
                import_globs(split_on(mime@, ';')),
                normalized_exec(command@),
                imported_path,
                config_origin,
            ),
            (None, _) => new == old && if ignore_missing_attrs {
                r is Ok
            } else {
                r matches Err(RrrError::MissingAttribute(a)) && a@ == seq!['E', 'x', 'e', 'c']
            },
            (Some(_), None) => new == old && if ignore_missing_attrs {
                r is Ok
            } else {
                r matches Err(RrrError::MissingAttribute(a)) && a@ == seq![
                    'M',
                    'i',
                    'm',
                    'e',
                    'T',
                    'y',
                    'p',
                    'e',
                ]
            },
        },
    }
}

/// Importing keeps a builder well formed: the rules it adds are fresh glob
/// rules with the builder's case flag.
pub proof fn lemma_import_keeps_wf(
    old: RuleSetBuilder,
    new: RuleSetBuilder,
    config_origin: ConfigOrigin,
    imported_path: Seq<char>,
    section: Option<DesktopSection>,
    ignore_missing_attrs: bool,
    r: Result<(), RrrError>,
)
    requires
        old.wf(),
        import_applied(old, new, config_origin, imported_path, section, ignore_missing_attrs, r),
    ensures
        new.wf(),
        new.profile() == old.profile(),
        new.case_insensitive() == old.case_insensitive(),
{
    if let Some(sec) = section {
        if let (Some(command), Some(mime)) = (sec.exec_command, sec.mime_type) {
            let globs = import_globs(split_on(mime@, ';'));
            let n = old.glob_rules().len();
            assert forall|i: int| 0 <= i < new.glob_rules().len() implies fresh_of_kind(
                #[trigger] new.glob_rules()[i],
                false,
                new.case_insensitive(),
            ) by {
                if i < n {
                    assert(new.glob_rules()[i] == new.glob_rules().subrange(0, n as int)[i]);
                } else {
                    assert(is_imported_rule(
                        new.glob_rules()[n + (i - n)],
                        globs[i - n],
                        normalized_exec(command@),
                        imported_path,
                        config_origin,
                        old.case_insensitive(),
                    ));
                }
            }
        }
    }
}

impl RuleSetBuilder {
    /// Adds one imported glob rule for the desktop file's `Exec` command and
    /// one of the MIME types of its `MimeType` list.
    fn add_imported(
        &mut self,
        command: &String,
        path: &str,
        config_origin: &ConfigOrigin,
        ext: &String,
        Ghost(start): Ghost<RuleSetBuilder>,
        Ghost(globs): Ghost<Seq<Seq<char>>>,
    )
        requires
            imported_rules_added(start, *old(self), globs, command@, path@, *config_origin),
        ensures
            imported_rules_added(
                start,
                *final(self),
                globs.push(extension_glob(ext@)),
                command@,
                path@,
                *config_origin,
            ),
    {
        let mut pat: Vec<char> = vec!['*', '.'];
        let e = chars_of(ext.as_str());
        let mut j: usize = 0;
        while j < e.len()
            invariant
                j <= e.len(),
                pat@ == seq!['*', '.'] + e@.subrange(0, j as int),
            decreases e.len() - j,
        {
            pat.push(e[j]);
            j = j + 1;
            assert(pat@ =~= seq!['*', '.'] + e@.subrange(0, j as int));
        }
        assert(e@.subrange(0, j as int) =~= ext@);
        let ci = self.case_insensitive;
        let ghost before = *self;
        self.rule(
            Pattern::Glob(string_of(&pat)),
            Action::Command(command.clone()),
            ci,
            RuleOrigin::Imported(String::from_str(path)),
            config_origin.copy(),
        );
        let ghost n = start.glob_rules().len();
        let ghost g2 = globs.push(extension_glob(ext@));
        assert(self.glob_rules().subrange(0, n as int) =~= start.glob_rules()) by {
            assert(self.glob_rules().subrange(0, n as int) =~= before.glob_rules().subrange(0, n as int));
        }
        assert forall|k: int| 0 <= k < g2.len() implies is_imported_rule(
            #[trigger] self.glob_rules()[n + k],
            g2[k],
            command@,
            path@,
            *config_origin,
            start.case_insensitive(),
        ) by {
            if k < globs.len() {
                assert(self.glob_rules()[n + k] == before.glob_rules()[n + k]);
            }
        }
    }

    /// Adds the glob rules made from a desktop entry: one per extension
    /// registered for each MIME type of its `MimeType` list, running its
    /// `Exec` command with the file placeholders turned into `%s`. A missing
    /// section is an error; a missing attribute is an error unless
    /// `ignore_missing_attrs` holds, in which case nothing is added.
    pub fn rule_with_import(
        &mut self,
        config_origin: &ConfigOrigin,
        imported_path: &str,
        section: &Option<DesktopSection>,
        ignore_missing_attrs: bool,
    ) -> (r: Result<(), RrrError>)
        ensures
            import_applied(
                *old(self),
                *final(self),
                *config_origin,
                imported_path@,
                *section,
                ignore_missing_attrs,
                r,
            ),
    {
        let sec = match section {
            Some(s) => s,
            None => {
                return Err(RrrError::MissingSection);
            },
        };
        let command = match &sec.exec_command {
            Some(e) => e,
            None => {
                if ignore_missing_attrs {
                    return Ok(());
                }
                proof {
                    reveal_strlit("Exec");
                }
                assert("Exec"@ =~= seq!['E', 'x', 'e', 'c']);
                return Err(RrrError::MissingAttribute(String::from_str("Exec")));
            },
        };
        let exec_cmd = normalize_exec(command.as_str());
        let mime = match &sec.mime_type {
            Some(m) => m,
            None => {
                if ignore_missing_attrs {
                    return Ok(());
                }
                proof {
                    reveal_strlit("MimeType");
                }
                assert("MimeType"@ =~= seq!['M', 'i', 'm', 'e', 'T', 'y', 'p', 'e']);
                return Err(RrrError::MissingAttribute(String::from_str("MimeType")));
            },
        };
        let fields = split_chars(&chars_of(mime.as_str()), ';');
        let ghost fv = fields@.map_values(|f: Vec<char>| f@);
        let ghost start = *self;
        let mut i: usize = 0;
        assert(fv.subrange(0, 0) =~= Seq::<Seq<char>>::empty());
        assert(self.glob_rules().subrange(0, self.glob_rules().len() as int) =~= self.glob_rules());
        while i < fields.len()
            invariant
                i <= fields.len(),
                fv == fields@.map_values(|f: Vec<char>| f@),
                imported_rules_added(
                    start,
                    *self,
                    import_globs(fv.subrange(0, i as int)),
                    exec_cmd@,
                    imported_path@,
                    *config_origin,
                ),
            decreases fields.len() - i,
        {
            let ghost pre = fv.subrange(0, i + 1);
            assert(pre.drop_last() =~= fv.subrange(0, i as int));
            assert(pre.last() == fields@[i as int]@);
            if fields[i].len() > 0 {
                let m = string_of(&fields[i]);
                match extensions_of_mime(m.as_str()) {
                    Some(exts) => {
                        let ghost prev = import_globs(fv.subrange(0, i as int));
                        let ghost ev = exts@.map_values(|e: String| e@);
                        let mut j: usize = 0;
                        assert(prev + ev.map_values(|e: Seq<char>| extension_glob(e)).subrange(0, 0)
                            =~= prev);
                        while j < exts.len()
                            invariant
                                j <= exts.len(),
                                ev == exts@.map_values(|e: String| e@),
                                imported_rules_added(
                                    start,
                                    *self,
                                    prev + ev.map_values(|e: Seq<char>| extension_glob(e)).subrange(
                                        0,
                                        j as int,
                                    ),
                                    exec_cmd@,
                                    imported_path@,
                                    *config_origin,
                                ),
                            decreases exts.len() - j,
                        {
                            self.add_imported(
                                &exec_cmd,
                                imported_path,
                                config_origin,
                                &exts[j],
                                Ghost(start),
                                Ghost(
                                    prev + ev.map_values(|e: Seq<char>| extension_glob(e)).subrange(
                                        0,
                                        j as int,
                                    ),
                                ),
                            );
                            assert(prev + ev.map_values(|e: Seq<char>| extension_glob(e)).subrange(
                                0,
                                j + 1,
                            ) =~= (prev + ev.map_values(|e: Seq<char>| extension_glob(e)).subrange(
                                0,
                                j as int,
                            )).push(extension_glob(exts@[j as int]@)));
                            j = j + 1;
                        }
                        assert(ev.map_values(|e: Seq<char>| extension_glob(e)).subrange(0, j as int)
                            =~= ev.map_values(|e: Seq<char>| extension_glob(e)));
                    },
                    None => {},
                }
            }
            i = i + 1;
        }
        assert(fv.subrange(0, i as int) =~= fv);
        Ok(())
    }
}

proof fn lemma_matching_none(rules: Seq<Rule>, input: Seq<char>)
    requires
        forall|k: int| 0 <= k < rules.len() ==> !rule_matches(#[trigger] rules[k], input),
    ensures
        matching(rules, input).len() == 0,
    decreases rules.len(),
{
    if rules.len() > 0 {
        assert(!rule_matches(rules[rules.len() - 1], input));
        lemma_matching_none(rules.drop_last(), input);
    }
}

proof fn lemma_matching_first(rules: Seq<Rule>, input: Seq<char>, i: int)
    requires
        0 <= i < rules.len(),
        rule_matches(rules[i], input),
        forall|k: int| 0 <= k < i ==> !rule_matches(#[trigger] rules[k], input),
    ensures
        matching(rules, input).len() > 0,
        matching(rules, input)[0] == rules[i],
    decreases rules.len(),
{
    if i < rules.len() - 1 {
        lemma_matching_first(rules.drop_last(), input, i);
    } else {
        lemma_matching_none(rules.drop_last(), input);
    }
}

proof fn lemma_matching_members(rules: Seq<Rule>, input: Seq<char>)
    ensures
        forall|k: int|
            0 <= k < matching(rules, input).len() ==> exists|j: int|
                0 <= j < rules.len() && rules[j] == #[trigger] matching(rules, input)[k],
        (exists|j: int| 0 <= j < rules.len() && rule_matches(#[trigger] rules[j], input))
            ==> matching(rules, input).len() > 0,
    decreases rules.len(),
{
    if rules.len() > 0 {
        let prev = rules.drop_last();
        lemma_matching_members(prev, input);
        assert forall|k: int| 0 <= k < matching(rules, input).len() implies exists|j: int|
            0 <= j < rules.len() && rules[j] == #[trigger] matching(rules, input)[k] by {
            if k < matching(prev, input).len() {
                let j = choose|j: int| 0 <= j < prev.len() && prev[j] == matching(prev, input)[k];
                assert(rules[j] == prev[j]);
            } else {
                assert(rules[rules.len() - 1] == matching(rules, input)[k]);
            }
        }
        if exists|j: int| 0 <= j < rules.len() && rule_matches(#[trigger] rules[j], input) {
            let j = choose|j: int| 0 <= j < rules.len() && rule_matches(#[trigger] rules[j], input);
            if j < rules.len() - 1 {
                assert(rule_matches(prev[j], input));
            }
        }
    }
}

/// `match_one` is deterministic: its contract fixes the selected rule from
/// the rule set and the input alone, so any two calls with the same input
/// select the same rule.
pub proof fn lemma_match_one_deterministic(
    set: RuleSet,
    input: Seq<char>,
    first: Option<Rule>,
    second: Option<Rule>,
)
    requires
        first == set.spec_match_one(input),
        second == set.spec_match_one(input),
    ensures
        first == second,
{
}

/// The first matching rule of a built sequence is the resolution of the
/// last declared matching rule `j`.
proof fn lemma_built_first_match(
    aliases: Seq<(Seq<char>, Seq<char>)>,
    declared: Seq<Rule>,
    built: Seq<Rule>,
    input: Seq<char>,
    j: int,
)
    requires
        resolved_reversed(aliases, declared, built),
        0 <= j < declared.len(),
        rule_matches(declared[j], input),
        forall|k: int| j < k < declared.len() ==> !rule_matches(#[trigger] declared[k], input),
    ensures
        matching(built, input).len() > 0,
        matching(built, input)[0] == built[declared.len() - 1 - j],
        is_resolution(
            built[declared.len() - 1 - j],
            declared[j],
            resolve_action(aliases, declared[j].action).unwrap(),
        ),
{
    let n = declared.len();
    let i = n - 1 - j;
    assert(is_resolution(built[i], declared[n - 1 - i], resolve_action(aliases, declared[n - 1 - i].action).unwrap()));
    assert forall|k: int| 0 <= k < i implies !rule_matches(#[trigger] built[k], input) by {
        assert(is_resolution(built[k], declared[n - 1 - k], resolve_action(aliases, declared[n - 1 - k].action).unwrap()));
        assert(!rule_matches(declared[n - 1 - k], input));
    }
    lemma_matching_first(built, input, i);
}

/// Last declared wins among regex rules: where regex rule `j` is the last
/// declared regex rule that matches the input, `match_one` on the built set
/// selects that rule, resolved.
pub proof fn lemma_last_regex_wins(b: RuleSetBuilder, set: RuleSet, input: Seq<char>, j: int)
    requires
        built_profile(b, set),
        0 <= j < b.regex_rules().len(),
        rule_matches(b.regex_rules()[j], input),
        forall|k: int|
            j < k < b.regex_rules().len() ==> !rule_matches(#[trigger] b.regex_rules()[k], input),
    ensures
        set.spec_match_one(input) matches Some(r) && is_resolution(
            r,
            b.regex_rules()[j],
            resolve_action(b.aliases(), b.regex_rules()[j].action).unwrap(),
        ),
{
    lemma_built_first_match(b.aliases(), b.regex_rules(), set.regex_rules(), input, j);
    assert(set.spec_matches(input)[0] == matching(set.regex_rules(), input)[0]);
}

/// Last declared wins among glob rules: where no regex rule matches the
/// input and glob rule `j` is the last declared glob rule that does,
/// `match_one` on the built set selects that rule, resolved.
pub proof fn lemma_last_glob_wins(b: RuleSetBuilder, set: RuleSet, input: Seq<char>, j: int)
    requires
        built_profile(b, set),
        forall|k: int|
            0 <= k < b.regex_rules().len() ==> !rule_matches(#[trigger] b.regex_rules()[k], input),
        0 <= j < b.glob_rules().len(),
        rule_matches(b.glob_rules()[j], input),
        forall|k: int|
            j < k < b.glob_rules().len() ==> !rule_matches(#[trigger] b.glob_rules()[k], input),
    ensures
        set.spec_match_one(input) matches Some(r) && is_resolution(
            r,
            b.glob_rules()[j],
            resolve_action(b.aliases(), b.glob_rules()[j].action).unwrap(),
        ),
{
    let n = b.regex_rules().len();
    assert forall|k: int| 0 <= k < set.regex_rules().len() implies !rule_matches(
        #[trigger] set.regex_rules()[k],
        input,
    ) by {
        assert(is_resolution(set.regex_rules()[k], b.regex_rules()[n - 1 - k], resolve_action(b.aliases(), b.regex_rules()[n - 1 - k].action).unwrap()));
        assert(!rule_matches(b.regex_rules()[n - 1 - k], input));
    }
    lemma_matching_none(set.regex_rules(), input);
    lemma_built_first_match(b.aliases(), b.glob_rules(), set.glob_rules(), input, j);
    assert(matching(set.regex_rules(), input) + matching(set.glob_rules(), input) =~= matching(
        set.glob_rules(),
        input,
    ));
}

/// Regex rules take priority over glob rules: where any regex rule matches
/// the input, `match_one` on the built set selects a regex rule, whatever
/// glob rules match too.
pub proof fn lemma_regex_before_glob(b: RuleSetBuilder, set: RuleSet, input: Seq<char>, j: int)
    requires
        b.wf(),
        built_profile(b, set),
        0 <= j < b.regex_rules().len(),
        rule_matches(b.regex_rules()[j], input),
    ensures
        set.spec_match_one(input) matches Some(r) && r.pattern is Regex,
{
    let n = b.regex_rules().len();
    let i = n - 1 - j;
    assert(is_resolution(set.regex_rules()[i], b.regex_rules()[n - 1 - i], resolve_action(b.aliases(), b.regex_rules()[n - 1 - i].action).unwrap()));
    lemma_matching_members(set.regex_rules(), input);
    assert(rule_matches(set.regex_rules()[i], input));
    let m = matching(set.regex_rules(), input);
    assert(m.len() > 0);
    let k = choose|k: int| 0 <= k < set.regex_rules().len() && set.regex_rules()[k] == m[0];
    assert(is_resolution(set.regex_rules()[k], b.regex_rules()[n - 1 - k], resolve_action(b.aliases(), b.regex_rules()[n - 1 - k].action).unwrap()));
    assert(fresh_of_kind(b.regex_rules()[n - 1 - k], true, b.case_insensitive()));
    assert(set.spec_matches(input)[0] == m[0]);
}

/// Alias indirection: a rule that refers to alias `id`, added after the
/// alias was declared with `command`, builds to a rule whose resolved command
/// is `command`; as the last declared rule of its kind it comes first.
pub proof fn lemma_alias_indirection(
    b0: RuleSetBuilder,
    b1: RuleSetBuilder,
    b2: RuleSetBuilder,
    set: RuleSet,
    id: String,
    command: Seq<char>,
    pattern: Pattern,
    origin: ConfigOrigin,
)
    requires
        alias_added(b0, b1, id@, command),
        rule_added(
            b1,
            b2,
            fresh_rule(pattern, Action::Alias(id), b1.case_insensitive(), RuleOrigin::Explicit, origin),
        ),
        built_profile(b2, set),
    ensures
        ({
            let rules = if pattern is Regex {
                set.regex_rules()
            } else {
                set.glob_rules()
            };
            &&& rules.len() > 0
            &&& rules[0].action == Action::Alias(id)
            &&& rules[0].resolved_command() == Some(command)
        }),
{
    let declared = if pattern is Regex {
        b2.regex_rules()
    } else {
        b2.glob_rules()
    };
    let rules = if pattern is Regex {
        set.regex_rules()
    } else {
        set.glob_rules()
    };
    let n = declared.len();
    assert(declared[n - 1].action == Action::Alias(id));
    assert(b2.aliases().last() == (id@, command));
    assert(lookup_alias(b2.aliases(), id@) == Some(command));
    assert(is_resolution(rules[0], declared[n - 1 - 0], resolve_action(b2.aliases(), declared[n - 1 - 0].action).unwrap()));
}

} // verus!
