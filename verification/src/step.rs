//! The durable record of one attempted stage transition.

use vstd::prelude::*;

verus! {

/// The mathematical content of a [`MergeStep`]: every field as a
/// sequence of characters.
#[verifier::ext_equal]
pub ghost struct StepModel {
    pub target: Seq<char>,
    pub sha: Seq<char>,
    pub tags: Seq<Seq<char>>,
}

/// One attempted transition: the branch that was merged into, the
/// commit it pointed at before the merge, and the tags the merge
/// created. `tags_created` is empty in the provisional record written
/// before the merge and holds the computed difference afterwards.
#[derive(Debug, PartialEq, Eq)]
pub struct MergeStep {
    pub target_branch: String,
    pub original_sha: String,
    pub tags_created: Vec<String>,
}

impl View for MergeStep {
    type V = StepModel;

    open spec fn view(&self) -> StepModel {
        StepModel {
            target: self.target_branch@,
            sha: self.original_sha@,
            tags: self.tags_created.deep_view(),
        }
    }
}

impl DeepView for MergeStep {
    type V = StepModel;

    open spec fn deep_view(&self) -> StepModel {
        self.view()
    }
}

impl Clone for MergeStep {
    fn clone(&self) -> (r: Self)
        ensures
            r@ == self@,
    {
        MergeStep {
            target_branch: self.target_branch.clone(),
            original_sha: self.original_sha.clone(),
            tags_created: clone_tags(&self.tags_created),
        }
    }
}

/// Clones a list of tag names, keeping the sequence of views.
fn clone_tags(tags: &Vec<String>) -> (r: Vec<String>)
    ensures
        r.deep_view() == tags.deep_view(),
{
    let mut r: Vec<String> = Vec::new();
    let mut i: usize = 0;
    while i < tags.len()
        invariant
            i <= tags.len(),
            r@.len() == i,
            forall|j: int| 0 <= j < i ==> r@[j]@ == tags@[j]@,
        decreases tags.len() - i,
    {
        r.push(tags[i].clone());
        i = i + 1;
    }
    assert(r.deep_view() =~= tags.deep_view());
    r
}

} // verus!
