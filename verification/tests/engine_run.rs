//! A full scripted run of the engine, checked action by action.

use mergeflow::{Action, Engine, Event};

fn names(xs: &[&str]) -> Vec<String> {
    xs.iter().map(|x| x.to_string()).collect()
}

/// The promotion scenario: dev -> staging -> main, `staging` at `s1`,
/// `main` at `m1`, one existing tag `v1`; merging dev into staging
/// creates `v2`, merging staging into main creates nothing.
#[test]
fn scripted_run_emits_every_action_in_order() {
    let mut eng = Engine::new(names(&["dev", "staging", "main"]), vec![0, 1, 1]);

    // Transition dev -> staging.
    assert_eq!(eng.next_action(), Action::ListTags);
    eng.step(Event::Tags(names(&["v1"])));
    assert_eq!(eng.next_action(), Action::ResolveSha { branch: "staging".to_string() });
    eng.step(Event::Sha("s1".to_string()));
    // The provisional record is persisted before the merge, tags empty.
    assert_eq!(eng.next_action(), Action::Persist { content: "staging s1 \n".to_string() });
    eng.step(Event::Done);
    assert_eq!(eng.next_action(), Action::Checkout { branch: "staging".to_string() });
    eng.step(Event::Done);
    assert_eq!(
        eng.next_action(),
        Action::Merge { source: "dev".to_string(), message: "Merge dev".to_string() },
    );
    eng.step(Event::Done);
    assert_eq!(eng.next_action(), Action::ListTags);
    eng.step(Event::Tags(names(&["v1", "v2"])));
    // The finished record carries exactly the created tag.
    assert_eq!(eng.next_action(), Action::Persist { content: "staging s1 v2\n".to_string() });
    eng.step(Event::Done);
    match eng.next_action() {
        Action::RunHook { stage, hook, context } => {
            assert_eq!(stage, 1);
            assert_eq!(hook, 0);
            assert_eq!(context.source, "dev");
            assert_eq!(context.step.target_branch, "staging");
            assert_eq!(context.step.original_sha, "s1");
            assert_eq!(context.step.tags_created, names(&["v2"]));
        },
        other => panic!("expected a hook invocation, got {:?}", other),
    }
    eng.step(Event::Done);

    // Transition staging -> main.
    assert_eq!(eng.next_action(), Action::ListTags);
    eng.step(Event::Tags(names(&["v1", "v2"])));
    assert_eq!(eng.next_action(), Action::ResolveSha { branch: "main".to_string() });
    eng.step(Event::Sha("m1".to_string()));
    assert_eq!(
        eng.next_action(),
        Action::Persist { content: "staging s1 v2\nmain m1 \n".to_string() },
    );
    eng.step(Event::Done);
    assert_eq!(eng.next_action(), Action::Checkout { branch: "main".to_string() });
    eng.step(Event::Done);
    assert_eq!(
        eng.next_action(),
        Action::Merge { source: "staging".to_string(), message: "Merge staging".to_string() },
    );
    eng.step(Event::Done);
    assert_eq!(eng.next_action(), Action::ListTags);
    eng.step(Event::Tags(names(&["v1", "v2"])));
    // No new tags: the final record for main keeps an empty set.
    assert_eq!(
        eng.next_action(),
        Action::Persist { content: "staging s1 v2\nmain m1 \n".to_string() },
    );
    eng.step(Event::Done);
    match eng.next_action() {
        Action::RunHook { stage, hook, context } => {
            assert_eq!(stage, 2);
            assert_eq!(hook, 0);
            assert_eq!(context.source, "staging");
            assert!(context.step.tags_created.is_empty());
        },
        other => panic!("expected a hook invocation, got {:?}", other),
    }
    eng.step(Event::Done);

    assert_eq!(eng.next_action(), Action::Finished);
}

#[test]
fn hookless_stages_skip_straight_to_the_next_transition() {
    let mut eng = Engine::new(names(&["a", "b"]), vec![0, 0]);
    eng.step(Event::Tags(Vec::new()));
    eng.step(Event::Sha("x1".to_string()));
    eng.step(Event::Done); // provisional persist
    eng.step(Event::Done); // checkout
    eng.step(Event::Done); // merge
    eng.step(Event::Tags(Vec::new()));
    eng.step(Event::Done); // final persist; no hooks on b
    assert_eq!(eng.next_action(), Action::Finished);
}

#[test]
fn a_failure_is_fatal_and_surfaces_the_diagnostic() {
    let mut eng = Engine::new(names(&["dev", "main"]), vec![0, 0]);
    eng.step(Event::Tags(Vec::new()));
    eng.step(Event::Sha("m1".to_string()));
    eng.step(Event::Done); // provisional persist
    eng.step(Event::Done); // checkout
    assert!(matches!(eng.next_action(), Action::Merge { .. }));
    eng.step(Event::Failure("merge conflict in a.txt".to_string()));
    assert_eq!(
        eng.next_action(),
        Action::Fail { message: "merge conflict in a.txt".to_string() },
    );
}

#[test]
fn a_single_stage_pipeline_completes_at_once() {
    let eng = Engine::new(names(&["solo"]), vec![0]);
    assert_eq!(eng.next_action(), Action::Finished);
}

#[test]
fn an_event_that_answers_nothing_fails_the_run() {
    let mut eng = Engine::new(names(&["a", "b"]), vec![0, 0]);
    eng.step(Event::Sha("s".to_string()));
    assert_eq!(eng.next_action(), Action::Fail { message: "unexpected event".to_string() });
}
