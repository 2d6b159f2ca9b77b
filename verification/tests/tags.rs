//! The tag difference: set semantics on concrete listings.

use mergeflow::tag_diff;

fn names(xs: &[&str]) -> Vec<String> {
    xs.iter().map(|x| x.to_string()).collect()
}

#[test]
fn diff_finds_the_new_tag() {
    let d = tag_diff(&names(&["v1", "v2"]), &names(&["v1"]));
    assert_eq!(d, names(&["v2"]));
}

#[test]
fn diff_ignores_tags_that_vanished() {
    let d = tag_diff(&names(&["v1", "v2"]), &names(&["v1", "v3"]));
    assert_eq!(d, names(&["v2"]));
}

#[test]
fn diff_collapses_duplicates() {
    let d = tag_diff(&names(&["v2", "v2", "v1"]), &names(&["v1"]));
    assert_eq!(d, names(&["v2"]));
}

#[test]
fn diff_of_unchanged_listing_is_empty() {
    let d = tag_diff(&names(&["v1", "v2"]), &names(&["v2", "v1"]));
    assert!(d.is_empty());
}

#[test]
fn diff_from_empty_pre_keeps_everything_once() {
    let d = tag_diff(&names(&["a", "b", "a"]), &names(&[]));
    assert_eq!(d, names(&["a", "b"]));
}
