use runrunrun::error::RrrError;
use runrunrun::rule_set::{ConfigOrigin, DesktopSection, Pattern, RuleSet, RuleSetBuilder};

fn origin(line: usize) -> ConfigOrigin {
    ConfigOrigin { file: "test.conf".to_string(), line, column: 1 }
}

fn regex(p: &str) -> Pattern {
    Pattern::Regex(p.to_string())
}

fn glob(p: &str) -> Pattern {
    Pattern::Glob(p.to_string())
}

fn prepared(set: &RuleSet, input: &str) -> String {
    let rule = set.match_one(input).expect("a rule matches");
    let ready = rule.prepare(input).expect("the rule prepares");
    ready.get_executed_action().unwrap().to_string()
}

#[test]
fn substitution_quotes_each_capture() {
    let mut b = RuleSetBuilder::new("default".to_string(), false);
    b.rule_with_command(origin(1), regex(r"(\d+)-(\d+)"), "run %1 %2 %s".to_string());
    let set = b.build().unwrap();
    assert_eq!(prepared(&set, "12-34"), "run 12 34 12-34");
}

#[test]
fn substitution_quotes_captures_with_spaces() {
    let mut b = RuleSetBuilder::new("default".to_string(), false);
    b.rule_with_command(origin(1), regex(r"^(\w+) (\w+)$"), "open %2 %1".to_string());
    let set = b.build().unwrap();
    assert_eq!(prepared(&set, "a b"), "open b a 'a b'");
}

#[test]
fn missing_input_placeholder_is_appended() {
    let mut b = RuleSetBuilder::new("default".to_string(), false);
    b.rule_with_command(origin(1), glob("*.txt"), "run".to_string());
    let set = b.build().unwrap();
    assert_eq!(prepared(&set, "file.txt"), "run file.txt");
}

#[test]
fn input_with_space_is_quoted() {
    let mut b = RuleSetBuilder::new("default".to_string(), false);
    b.rule_with_command(origin(1), glob("*.txt"), "cat %s | less".to_string());
    let set = b.build().unwrap();
    assert_eq!(prepared(&set, "my file.txt"), "cat 'my file.txt' | less");
}

#[test]
fn glob_case_insensitive_matches() {
    let mut b = RuleSetBuilder::new("default".to_string(), true);
    b.rule_with_command(origin(1), glob("*.TXT"), "view".to_string());
    let set = b.build().unwrap();
    assert!(set.match_one("a.txt").is_some());
}

#[test]
fn glob_case_sensitive_does_not_match_other_case() {
    let mut b = RuleSetBuilder::new("default".to_string(), false);
    b.rule_with_command(origin(1), glob("*.TXT"), "view".to_string());
    let set = b.build().unwrap();
    assert!(set.match_one("a.txt").is_none());
    assert!(set.match_one("a.TXT").is_some());
}

#[test]
fn last_declared_regex_wins() {
    let mut b = RuleSetBuilder::new("default".to_string(), false);
    b.rule_with_command(origin(1), regex("txt"), "first".to_string());
    b.rule_with_command(origin(2), regex(r"\.txt$"), "second".to_string());
    let set = b.build().unwrap();
    assert_eq!(prepared(&set, "a.txt"), "second a.txt");
}

#[test]
fn last_declared_glob_wins() {
    let mut b = RuleSetBuilder::new("default".to_string(), false);
    b.rule_with_command(origin(1), glob("*.txt"), "first".to_string());
    b.rule_with_command(origin(2), glob("*"), "second".to_string());
    b.rule_with_command(origin(3), glob("*.pdf"), "third".to_string());
    let set = b.build().unwrap();
    assert_eq!(prepared(&set, "a.txt"), "second a.txt");
    assert_eq!(prepared(&set, "a.pdf"), "third a.pdf");
}

#[test]
fn regex_has_priority_over_glob() {
    let mut b = RuleSetBuilder::new("default".to_string(), false);
    b.rule_with_command(origin(1), regex(r"\.txt$"), "by-regex".to_string());
    b.rule_with_command(origin(2), glob("*.txt"), "by-glob".to_string());
    let set = b.build().unwrap();
    assert_eq!(prepared(&set, "a.txt"), "by-regex a.txt");
}

#[test]
fn matches_lists_regex_then_glob_by_priority() {
    let mut b = RuleSetBuilder::new("default".to_string(), false);
    b.rule_with_command(origin(1), glob("*.txt"), "g1".to_string());
    b.rule_with_command(origin(2), regex("a"), "r1".to_string());
    b.rule_with_command(origin(3), glob("a.*"), "g2".to_string());
    b.rule_with_command(origin(4), regex("z"), "r2".to_string());
    b.rule_with_command(origin(5), regex("txt"), "r3".to_string());
    let set = b.build().unwrap();
    let all: Vec<&str> = set.matches("a.txt").iter().map(|r| r.pattern_as_str()).collect();
    assert_eq!(all, vec!["txt", "a", "a.*", "*.txt"]);
    assert!(set.matches("nothing").is_empty());
}

#[test]
fn match_one_is_deterministic() {
    let mut b = RuleSetBuilder::new("default".to_string(), false);
    b.rule_with_command(origin(1), glob("*.txt"), "a".to_string());
    b.rule_with_command(origin(2), regex("t"), "b".to_string());
    let set = b.build().unwrap();
    let first = set.match_one("x.txt").unwrap();
    let second = set.match_one("x.txt").unwrap();
    assert!(std::ptr::eq(first, second));
    assert_eq!(first.pattern_as_str(), "t");
}

#[test]
fn no_rule_matches() {
    let mut b = RuleSetBuilder::new("default".to_string(), false);
    b.rule_with_command(origin(1), glob("*.txt"), "a".to_string());
    let set = b.build().unwrap();
    assert!(set.match_one("x.pdf").is_none());
}

#[test]
fn empty_rule_set_matches_nothing() {
    let set = RuleSetBuilder::new("default".to_string(), false).build().unwrap();
    assert!(set.match_one("").is_none());
    assert!(set.matches("anything").is_empty());
}

#[test]
fn alias_resolves_to_its_command() {
    let mut b = RuleSetBuilder::new("default".to_string(), false);
    b.alias("A".to_string(), "foo %s".to_string());
    b.rule_with_alias(origin(2), glob("*.txt"), "A".to_string()).unwrap();
    let set = b.build().unwrap();
    let rule = set.match_one("x.txt").unwrap();
    assert_eq!(rule.resolved.as_deref(), Some("foo %s"));
    assert_eq!(prepared(&set, "x.txt"), "foo x.txt");
}

#[test]
fn later_alias_declaration_wins() {
    let mut b = RuleSetBuilder::new("default".to_string(), false);
    b.alias("A".to_string(), "old".to_string());
    b.rule_with_alias(origin(2), glob("*"), "A".to_string()).unwrap();
    b.alias("A".to_string(), "new".to_string());
    let set = b.build().unwrap();
    assert_eq!(set.match_one("x").unwrap().resolved.as_deref(), Some("new"));
}

#[test]
fn unresolved_alias_fails_build() {
    let mut b = RuleSetBuilder::new("work".to_string(), false);
    b.alias("A".to_string(), "foo".to_string());
    b.rule_with_alias(origin(1), glob("*.txt"), "A".to_string()).unwrap();
    b.rule_with_alias(origin(2), regex("x"), "B".to_string()).unwrap();
    match b.build() {
        Err(RrrError::UnresolvedAlias { alias, profile }) => {
            assert_eq!(alias, "B");
            assert_eq!(profile, "work");
        }
        other => panic!("unexpected {:?}", other.map(|_| ())),
    }
}

#[test]
fn invalid_regex_fails_build() {
    let mut b = RuleSetBuilder::new("default".to_string(), false);
    b.rule_with_command(origin(1), regex("(unclosed"), "a".to_string());
    assert!(matches!(b.build(), Err(RrrError::InvalidRegex)));
}

#[test]
fn invalid_glob_fails_build() {
    let mut b = RuleSetBuilder::new("default".to_string(), false);
    b.rule_with_command(origin(1), glob("a[b"), "a".to_string());
    assert!(matches!(b.build(), Err(RrrError::InvalidGlob)));
}

#[test]
fn prepare_leaves_rule_unprepared() {
    let mut b = RuleSetBuilder::new("default".to_string(), false);
    b.rule_with_command(origin(1), glob("*"), "a".to_string());
    let set = b.build().unwrap();
    let rule = set.match_one("x").unwrap();
    let ready = rule.prepare("x").unwrap();
    assert!(ready.is_executable());
    assert!(!rule.is_executable());
    assert!(matches!(rule.get_executed_action(), Err(RrrError::NotPrepared)));
    assert_eq!(rule.prepare("y").unwrap().get_executed_action().unwrap(), "a y");
}

#[test]
fn prepare_on_non_matching_input_fails() {
    let mut b = RuleSetBuilder::new("default".to_string(), false);
    b.rule_with_command(origin(1), regex("^x$"), "a".to_string());
    let set = b.build().unwrap();
    let rule = set.match_one("x").unwrap();
    assert!(matches!(rule.prepare("y"), Err(RrrError::CaptureFailed)));
}

#[test]
fn prepare_rejects_nul_in_input() {
    let mut b = RuleSetBuilder::new("default".to_string(), false);
    b.rule_with_command(origin(1), glob("*"), "a".to_string());
    let set = b.build().unwrap();
    let rule = set.match_one("x\0y").unwrap();
    assert!(matches!(rule.prepare("x\0y"), Err(RrrError::UnquotableText)));
}

#[test]
fn optional_group_that_did_not_take_part_is_skipped() {
    let mut b = RuleSetBuilder::new("default".to_string(), false);
    b.rule_with_command(origin(1), regex(r"^(a)?(b)$"), "cmd %1 %2".to_string());
    let set = b.build().unwrap();
    assert_eq!(prepared(&set, "b"), "cmd b %2 b");
}

#[test]
fn import_makes_glob_rules_per_extension() {
    let mut b = RuleSetBuilder::new("default".to_string(), false);
    let section = Some(DesktopSection {
        exec_command: Some("viewer %U".to_string()),
        mime_type: Some("application/pdf;;".to_string()),
    });
    b.rule_with_import(&origin(3), "/apps/viewer.desktop", &section, true).unwrap();
    let set = b.build().unwrap();
    let rule = set.match_one("doc.pdf").unwrap();
    assert_eq!(rule.pattern_as_str(), "*.pdf");
    assert_eq!(prepared(&set, "doc.pdf"), "viewer doc.pdf");
    assert!(set.match_one("doc.txt").is_none());
}

#[test]
fn import_unknown_mime_adds_nothing() {
    let mut b = RuleSetBuilder::new("default".to_string(), false);
    let section = Some(DesktopSection {
        exec_command: Some("viewer %f".to_string()),
        mime_type: Some("no-such/type".to_string()),
    });
    b.rule_with_import(&origin(3), "/apps/viewer.desktop", &section, true).unwrap();
    let set = b.build().unwrap();
    assert!(set.matches("doc.pdf").is_empty());
}

#[test]
fn import_missing_section_fails() {
    let mut b = RuleSetBuilder::new("default".to_string(), false);
    let r = b.rule_with_import(&origin(3), "/apps/x.desktop", &None, true);
    assert!(matches!(r, Err(RrrError::MissingSection)));
}

#[test]
fn import_missing_attribute_fails_unless_ignored() {
    let mut b = RuleSetBuilder::new("default".to_string(), false);
    let no_exec = Some(DesktopSection { exec_command: None, mime_type: Some("text/plain".to_string()) });
    match b.rule_with_import(&origin(3), "/apps/x.desktop", &no_exec, false) {
        Err(RrrError::MissingAttribute(name)) => assert_eq!(name, "Exec"),
        other => panic!("unexpected {:?}", other),
    }
    let no_mime = Some(DesktopSection { exec_command: Some("x".to_string()), mime_type: None });
    match b.rule_with_import(&origin(3), "/apps/x.desktop", &no_mime, false) {
        Err(RrrError::MissingAttribute(name)) => assert_eq!(name, "MimeType"),
        other => panic!("unexpected {:?}", other),
    }
    assert!(b.rule_with_import(&origin(3), "/apps/x.desktop", &no_mime, true).is_ok());
    assert!(b.build().unwrap().matches("a.txt").is_empty());
}
