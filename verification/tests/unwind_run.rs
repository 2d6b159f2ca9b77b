//! The unwind plan: reverse order, best-effort blocks, no-op cases.

use mergeflow::{unwind_decision, unwind_plan, MergeStep, UndoAction, UnwindOutcome};

fn step(target: &str, sha: &str, tags: &[&str]) -> MergeStep {
    MergeStep {
        target_branch: target.to_string(),
        original_sha: sha.to_string(),
        tags_created: tags.iter().map(|t| t.to_string()).collect(),
    }
}

#[test]
fn undo_without_a_durable_log_does_nothing() {
    let r = unwind_decision(&None).expect("a missing log is not an error");
    assert_eq!(r, UnwindOutcome::Nothing);
}

#[test]
fn undo_of_an_empty_log_does_nothing() {
    let r = unwind_decision(&Some(String::new())).expect("an empty log is not an error");
    assert_eq!(r, UnwindOutcome::Nothing);
}

#[test]
fn undo_of_an_unreadable_log_is_an_error() {
    assert!(unwind_decision(&Some("not a record".to_string())).is_err());
}

#[test]
fn plan_processes_records_newest_first() {
    let history = vec![step("staging", "s1", &["v2"]), step("main", "m1", &[])];
    let plan = unwind_plan(&history);
    assert_eq!(
        plan,
        vec![
            UndoAction::Checkout("main".to_string()),
            UndoAction::ResetHard { branch: "main".to_string(), sha: "m1".to_string() },
            UndoAction::DeleteTag("v2".to_string()),
            UndoAction::Checkout("staging".to_string()),
            UndoAction::ResetHard { branch: "staging".to_string(), sha: "s1".to_string() },
        ],
    );
}

#[test]
fn plan_deletes_every_tag_of_a_record_before_resetting_it() {
    let history = vec![step("main", "m1", &["a", "b"])];
    let plan = unwind_plan(&history);
    assert_eq!(
        plan,
        vec![
            UndoAction::DeleteTag("a".to_string()),
            UndoAction::DeleteTag("b".to_string()),
            UndoAction::Checkout("main".to_string()),
            UndoAction::ResetHard { branch: "main".to_string(), sha: "m1".to_string() },
        ],
    );
}

#[test]
fn decision_on_a_durable_log_yields_the_reverse_plan() {
    let text = "staging s1 v2\nmain m1 \n".to_string();
    let r = unwind_decision(&Some(text)).expect("a well-formed log must decode");
    match r {
        UnwindOutcome::Restore(plan) => {
            assert_eq!(plan.len(), 5);
            assert_eq!(plan[0], UndoAction::Checkout("main".to_string()));
            assert_eq!(plan[2], UndoAction::DeleteTag("v2".to_string()));
        },
        UnwindOutcome::Nothing => panic!("a non-empty log must yield a plan"),
    }
}
