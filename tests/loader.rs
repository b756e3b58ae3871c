use runrunrun::error::RrrError;
use runrunrun::rrr::{ConfigLine, ConfigString, Directive, MatchTarget, RrrBuilder};
use runrunrun::rule_set::{ConfigOrigin, DesktopSection, Pattern};

fn origin(line: usize) -> ConfigOrigin {
    ConfigOrigin { file: "rrr.conf".to_string(), line, column: 1 }
}

fn plain(s: &str) -> ConfigString {
    ConfigString::Plain(s.to_string())
}

fn glob_rule(p: &str, command: &str) -> ConfigLine {
    ConfigLine::Match {
        pattern: Pattern::Glob(p.to_string()),
        origin: origin(1),
        action: MatchTarget::Command(plain(command)),
    }
}

#[test]
fn config_file_is_entered_once() {
    let mut b = RrrBuilder::new(false, None);
    assert!(b.enter_config("/etc/rrr.conf".to_string()));
    assert!(b.enter_config("/home/u/.config/rrr.conf".to_string()));
    assert!(!b.enter_config("/etc/rrr.conf".to_string()));
}

#[test]
fn self_include_registers_rules_once() {
    let mut b = RrrBuilder::new(false, None);
    assert!(b.enter_config("/a.conf".to_string()));
    b.parse_line(glob_rule("*.txt", "first")).unwrap();
    let d = b.parse_line(ConfigLine::Include(plain("/a.conf"))).unwrap();
    match d {
        Directive::Include(path) => assert!(!b.enter_config(path)),
        other => panic!("unexpected {:?}", other),
    }
    let rrr = b.build().unwrap();
    let set = rrr.profile("default").unwrap();
    assert_eq!(set.matches("x.txt").len(), 1);
}

#[test]
fn profile_filter_drops_excluded_profile() {
    let mut b = RrrBuilder::new(false, Some(vec!["default".to_string()]));
    b.parse_line(glob_rule("*.txt", "kept")).unwrap();
    b.parse_line(ConfigLine::Profile(plain("work"))).unwrap();
    b.parse_line(ConfigLine::Alias { identifier: "A".to_string(), target: plain("x") }).unwrap();
    b.parse_line(glob_rule("*.pdf", "dropped")).unwrap();
    b.parse_line(ConfigLine::Match {
        pattern: Pattern::Regex("y".to_string()),
        origin: origin(4),
        action: MatchTarget::Alias("MISSING".to_string()),
    })
    .unwrap();
    let rrr = b.build().unwrap();
    let work = rrr.profile("work").unwrap();
    assert!(work.matches("a.pdf").is_empty());
    assert!(work.matches("y").is_empty());
    assert!(rrr.profile("default").unwrap().match_one("a.txt").is_some());
}

#[test]
fn profile_switch_applies_to_later_lines() {
    let mut b = RrrBuilder::new(true, None);
    b.parse_line(glob_rule("*.txt", "in-default")).unwrap();
    b.parse_line(ConfigLine::Profile(plain("work"))).unwrap();
    b.parse_line(glob_rule("*.txt", "in-work")).unwrap();
    b.parse_line(ConfigLine::Profile(plain("default"))).unwrap();
    b.parse_line(glob_rule("*.md", "back-in-default")).unwrap();
    let rrr = b.build().unwrap();
    let d = rrr.profile("default").unwrap();
    let w = rrr.profile("work").unwrap();
    assert_eq!(d.match_one("A.TXT").unwrap().resolved.as_deref(), Some("in-default"));
    assert_eq!(w.match_one("a.txt").unwrap().resolved.as_deref(), Some("in-work"));
    assert!(d.match_one("a.md").is_some());
    assert!(w.match_one("a.md").is_none());
}

#[test]
fn alias_lines_resolve_in_their_profile() {
    let mut b = RrrBuilder::new(false, None);
    b.parse_line(ConfigLine::Alias {
        identifier: "EDIT".to_string(),
        target: ConfigString::Quoted("\"vim -p\"".to_string()),
    })
    .unwrap();
    b.parse_line(ConfigLine::Match {
        pattern: Pattern::Glob("*.rs".to_string()),
        origin: origin(2),
        action: MatchTarget::Alias("EDIT".to_string()),
    })
    .unwrap();
    let rrr = b.build().unwrap();
    let rule = rrr.profile("default").unwrap().match_one("main.rs").unwrap();
    assert_eq!(rule.resolved.as_deref(), Some("vim -p"));
}

#[test]
fn alias_missing_in_loaded_profile_fails_build() {
    let mut b = RrrBuilder::new(false, None);
    b.parse_line(ConfigLine::Profile(plain("work"))).unwrap();
    b.parse_line(ConfigLine::Match {
        pattern: Pattern::Glob("*".to_string()),
        origin: origin(2),
        action: MatchTarget::Alias("NOPE".to_string()),
    })
    .unwrap();
    match b.build() {
        Err(RrrError::UnresolvedAlias { alias, profile }) => {
            assert_eq!(alias, "NOPE");
            assert_eq!(profile, "work");
        }
        _ => panic!("build should fail"),
    }
}

#[test]
fn unknown_profile_is_an_error() {
    let rrr = RrrBuilder::new(false, None).build().unwrap();
    assert!(rrr.profile("default").is_ok());
    match rrr.profile("work") {
        Err(RrrError::UnknownProfile(name)) => assert_eq!(name, "work"),
        _ => panic!("profile should be unknown"),
    }
}

#[test]
fn include_and_import_directives() {
    let mut b = RrrBuilder::new(false, None);
    match b.parse_line(ConfigLine::Include(ConfigString::Quoted("'/etc/my dir'".to_string()))) {
        Ok(Directive::Include(p)) => assert_eq!(p, "/etc/my dir"),
        other => panic!("unexpected {:?}", other),
    }
    match b.parse_line(ConfigLine::Import { target: plain("/usr/share/applications"), origin: origin(7) }) {
        Ok(Directive::Import { path, origin }) => {
            assert_eq!(path, "/usr/share/applications");
            assert_eq!(origin.line, 7);
        }
        other => panic!("unexpected {:?}", other),
    }
}

#[test]
fn import_disabled_is_an_error() {
    let mut b = RrrBuilder::new(false, None);
    b.set_import_enabled(false);
    let r = b.parse_line(ConfigLine::Import { target: plain("/x"), origin: origin(1) });
    assert!(matches!(r, Err(RrrError::ImportDisabled)));
}

#[test]
fn import_in_excluded_profile_is_skipped() {
    let mut b = RrrBuilder::new(false, Some(vec!["other".to_string()]));
    let r = b.parse_line(ConfigLine::Import { target: plain("/x"), origin: origin(1) });
    assert!(matches!(r, Ok(Directive::Continue)));
}

#[test]
fn invalid_lines_are_errors() {
    let mut b = RrrBuilder::new(false, None);
    match b.parse_line(ConfigLine::InvalidMeta(":bogus x".to_string())) {
        Err(RrrError::InvalidMeta(t)) => assert_eq!(t, ":bogus x"),
        other => panic!("unexpected {:?}", other),
    }
    match b.parse_line(ConfigLine::InvalidAlias("A = ".to_string())) {
        Err(RrrError::InvalidAlias(t)) => assert_eq!(t, "A = "),
        other => panic!("unexpected {:?}", other),
    }
    let bad_target = ConfigLine::Match {
        pattern: Pattern::Glob("*".to_string()),
        origin: origin(3),
        action: MatchTarget::Invalid("9bad".to_string()),
    };
    match b.parse_line(bad_target) {
        Err(RrrError::InvalidAlias(t)) => assert_eq!(t, "9bad"),
        other => panic!("unexpected {:?}", other),
    }
    match b.parse_line(ConfigLine::Profile(ConfigString::Quoted("'unclosed".to_string()))) {
        Err(RrrError::InvalidQuotedString(t)) => assert_eq!(t, "'unclosed"),
        other => panic!("unexpected {:?}", other),
    }
}

fn viewer_section() -> Option<DesktopSection> {
    Some(DesktopSection {
        exec_command: Some("viewer %F".to_string()),
        mime_type: Some("application/pdf".to_string()),
    })
}

#[test]
fn import_entry_adds_rules_to_current_profile() {
    let mut b = RrrBuilder::new(false, None);
    b.parse_line(ConfigLine::Profile(plain("work"))).unwrap();
    b.import_entry(&origin(5), "/apps/viewer.desktop", &viewer_section()).unwrap();
    let rrr = b.build().unwrap();
    let rule = rrr.profile("work").unwrap().match_one("a.pdf").unwrap();
    assert_eq!(rule.resolved.as_deref(), Some("viewer %s"));
    assert!(rrr.profile("default").unwrap().match_one("a.pdf").is_none());
}

#[test]
fn import_entry_in_excluded_profile_adds_nothing() {
    let mut b = RrrBuilder::new(false, Some(vec!["default".to_string()]));
    b.parse_line(ConfigLine::Profile(plain("work"))).unwrap();
    b.import_entry(&origin(5), "/apps/viewer.desktop", &viewer_section()).unwrap();
    let rrr = b.build().unwrap();
    assert!(rrr.profile("work").unwrap().matches("a.pdf").is_empty());
}
