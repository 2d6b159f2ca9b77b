//! The stage chain: building and materializing a pipeline.

use mergeflow::{Branch, DSLRunner};

#[test]
fn new_stage_has_no_hooks_and_no_successor() {
    let b: Branch<u32> = Branch::new("dev");
    assert_eq!(b.name, "dev");
    assert!(b.hooks.is_empty());
    assert!(b.next_branch.is_none());
}

#[test]
fn when_merged_keeps_attachment_order() {
    let mut b: Branch<u32> = Branch::new("staging");
    b.when_merged(10);
    b.when_merged(20);
    assert_eq!(b.hooks, vec![10, 20]);
}

#[test]
fn then_sets_and_replaces_the_successor() {
    let mut dev: Branch<u32> = Branch::new("dev");
    dev.then(Branch::new("staging"));
    assert_eq!(dev.next_branch.as_ref().unwrap().name, "staging");
    dev.then(Branch::new("main"));
    assert_eq!(dev.next_branch.as_ref().unwrap().name, "main");
}

#[test]
fn get_pipeline_follows_the_chain_in_order() {
    let mut staging: Branch<u32> = Branch::new("staging");
    staging.then(Branch::new("main"));
    let mut dev: Branch<u32> = Branch::new("dev");
    dev.then(staging);
    let runner = DSLRunner::new(dev);
    let pipeline = runner.get_pipeline();
    let names: Vec<&str> = pipeline.iter().map(|b| b.name.as_str()).collect();
    assert_eq!(names, vec!["dev", "staging", "main"]);
}

#[test]
fn single_stage_pipeline_has_one_element() {
    let runner = DSLRunner::new(Branch::<u32>::new("solo"));
    assert_eq!(runner.get_pipeline().len(), 1);
}

#[test]
fn stage_names_and_hook_counts_line_up() {
    let mut main: Branch<u32> = Branch::new("main");
    main.when_merged(1);
    let mut staging: Branch<u32> = Branch::new("staging");
    staging.when_merged(2);
    staging.when_merged(3);
    staging.then(main);
    let mut dev: Branch<u32> = Branch::new("dev");
    dev.then(staging);
    let runner = DSLRunner::new(dev);
    assert_eq!(runner.stage_names(), vec!["dev", "staging", "main"]);
    assert_eq!(runner.hook_counts(), vec![0, 2, 1]);
}
