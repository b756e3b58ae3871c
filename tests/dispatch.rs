use runrunrun::dispatch::{
    execution_type, process_rule, DispatchOptions, ExecutionResult, ExecutionType, InputDispatch,
    InputOutcome, RuleStep,
};
use runrunrun::rule_set::{ConfigOrigin, Pattern, RuleSet, RuleSetBuilder};

fn options(query: bool, dry_run: bool, fork: bool, fallback: bool) -> DispatchOptions {
    DispatchOptions { query, dry_run, fork, fallback }
}

fn two_rule_set() -> RuleSet {
    let mut b = RuleSetBuilder::new("default".to_string(), false);
    let o = ConfigOrigin { file: "c".to_string(), line: 1, column: 1 };
    b.rule_with_command(o.copy(), Pattern::Glob("*.txt".to_string()), "false".to_string());
    b.rule_with_command(o, Pattern::Regex("txt$".to_string()), "exit 3;".to_string());
    b.build().unwrap()
}

fn failed() -> ExecutionResult {
    ExecutionResult::with_execution(Err("exit status 1".to_string()))
}

fn succeeded() -> ExecutionResult {
    ExecutionResult::with_execution(Ok(()))
}

#[test]
fn fallback_moves_on_after_failure() {
    let mut d = InputDispatch::new(2, true);
    assert_eq!(d.next_candidate(), Some(0));
    d.record(&failed());
    assert_eq!(d.next_candidate(), Some(1));
    d.record(&succeeded());
    assert_eq!(d.next_candidate(), None);
    assert_eq!(d.outcome, Some(InputOutcome::Succeeded));
    assert_eq!(d.attempted, 2);
    assert_eq!(d.failed, 1);
}

#[test]
fn fallback_fails_when_every_candidate_fails() {
    let mut d = InputDispatch::new(2, true);
    d.record(&failed());
    d.record(&failed());
    assert_eq!(d.outcome, Some(InputOutcome::Failed));
}

#[test]
fn without_fallback_first_failure_is_final() {
    let mut d = InputDispatch::new(1, false);
    d.record(&failed());
    assert_eq!(d.outcome, Some(InputOutcome::Failed));
    assert_eq!(d.next_candidate(), None);
}

#[test]
fn no_candidate_is_no_match() {
    let d = InputDispatch::new(0, true);
    assert_eq!(d.outcome, Some(InputOutcome::NoMatch));
    assert_eq!(d.next_candidate(), None);
}

#[test]
fn query_walks_every_candidate() {
    let mut d = InputDispatch::new(3, true);
    while d.next_candidate().is_some() {
        d.record(&ExecutionResult::no_execution());
    }
    assert_eq!(d.outcome, Some(InputOutcome::Done));
    assert_eq!(d.attempted, 3);
}

#[test]
fn execution_result_defaults_to_success() {
    assert!(ExecutionResult::no_execution().execution_result().is_ok());
    assert_eq!(failed().execution_result(), Err("exit status 1".to_string()));
}

#[test]
fn execution_type_by_options() {
    assert_eq!(execution_type(&options(false, false, false, false)), ExecutionType::Exec);
    assert_eq!(execution_type(&options(false, false, true, false)), ExecutionType::Fork);
    assert_eq!(execution_type(&options(false, false, true, true)), ExecutionType::WaitSuccessSignalOk);
}

#[test]
fn process_rule_by_mode() {
    let set = two_rule_set();
    let rule = set.match_one("a.txt").unwrap();
    match process_rule(&options(true, false, false, false), rule, "a.txt").unwrap() {
        RuleStep::Print(c) => assert_eq!(c, "exit 3; a.txt"),
        other => panic!("unexpected {:?}", other),
    }
    assert!(matches!(
        process_rule(&options(false, true, false, false), rule, "a.txt").unwrap(),
        RuleStep::Skip
    ));
    match process_rule(&options(false, false, false, true), rule, "a.txt").unwrap() {
        RuleStep::Run { command, execution } => {
            assert_eq!(command, "exit 3; a.txt");
            assert_eq!(execution, ExecutionType::WaitSuccessSignalOk);
        }
        other => panic!("unexpected {:?}", other),
    }
}

#[test]
fn candidates_follow_fallback_option() {
    let set = two_rule_set();
    let all = set.candidates("a.txt", true);
    assert_eq!(all.len(), 2);
    assert_eq!(all[0].pattern_as_str(), "txt$");
    assert_eq!(all[1].pattern_as_str(), "*.txt");
    let one = set.candidates("a.txt", false);
    assert_eq!(one.len(), 1);
    assert_eq!(one[0].pattern_as_str(), "txt$");
    assert!(set.candidates("a.pdf", false).is_empty());
}
