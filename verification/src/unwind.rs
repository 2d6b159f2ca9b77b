//! The reverse-order unwind: the rollback plan a durable log calls
//! for.
//!
//! Undo needs no decisions mid-way — every command is best-effort and
//! its outcome ignored — so the whole invocation is planned up front
//! from the log alone, and the caller runs the plan in order.

use vstd::prelude::*;
use crate::codec::{decode_history, parse_history, LogError};
use crate::step::{MergeStep, StepModel};

verus! {

/// One best-effort rollback command.
#[derive(Debug, PartialEq, Eq)]
pub enum UndoAction {
    /// Delete the tag; a failure is ignored.
    DeleteTag(String),
    /// Check out the branch; a failure is ignored.
    Checkout(String),
    /// Force the branch back to the recorded commit; a failure is
    /// ignored.
    ResetHard { branch: String, sha: String },
}

pub ghost enum UndoModel {
    DeleteTag(Seq<char>),
    Checkout(Seq<char>),
    ResetHard { branch: Seq<char>, sha: Seq<char> },
}

impl View for UndoAction {
    type V = UndoModel;

    open spec fn view(&self) -> UndoModel {
        match self {
            UndoAction::DeleteTag(t) => UndoModel::DeleteTag(t@),
            UndoAction::Checkout(b) => UndoModel::Checkout(b@),
            UndoAction::ResetHard { branch, sha } => UndoModel::ResetHard {
                branch: branch@,
                sha: sha@,
            },
        }
    }
}

impl DeepView for UndoAction {
    type V = UndoModel;

    open spec fn deep_view(&self) -> UndoModel {
        self.view()
    }
}

/// The commands that roll one recorded transition back: delete every
/// created tag, check the target out, reset it to its original commit.
pub open spec fn undo_block(s: StepModel) -> Seq<UndoModel> {
    Seq::new(s.tags.len(), |i: int| UndoModel::DeleteTag(s.tags[i])) + seq![
        UndoModel::Checkout(s.target),
        UndoModel::ResetHard { branch: s.target, sha: s.sha },
    ]
}

/// The rollback plan of a history: each recorded transition's block,
/// newest record first.
pub open spec fn unwind_actions(h: Seq<StepModel>) -> Seq<UndoModel>
    decreases h.len(),
{
    if h.len() == 0 {
        Seq::empty()
    } else {
        undo_block(h.last()) + unwind_actions(h.drop_last())
    }
}

/// Prepending a record appends its block to the plan: the earliest
/// record is rolled back last.
pub proof fn lemma_unwind_cons(s: StepModel, t: Seq<StepModel>)
    ensures
        unwind_actions(seq![s] + t) == unwind_actions(t) + undo_block(s),
    decreases t.len(),
{
    let u = seq![s] + t;
    if t.len() == 0 {
        assert(u =~= seq![s]);
        assert(u.drop_last() =~= Seq::<StepModel>::empty());
        assert(u.last() == s);
        assert(unwind_actions(u.drop_last()) == Seq::<UndoModel>::empty());
        assert(unwind_actions(t) == Seq::<UndoModel>::empty());
        assert(unwind_actions(u) == undo_block(s) + unwind_actions(u.drop_last()));
        assert(unwind_actions(u) =~= unwind_actions(t) + undo_block(s));
    } else {
        lemma_unwind_cons(s, t.drop_last());
        assert(u.last() == t.last());
        assert(u.drop_last() =~= seq![s] + t.drop_last());
        assert(unwind_actions(u) =~= unwind_actions(t) + undo_block(s));
    }
}

/// Undo reverses order: for a history split anywhere, everything
/// recorded later is rolled back before anything recorded earlier.
pub proof fn lemma_unwind_reverses(h1: Seq<StepModel>, h2: Seq<StepModel>)
    ensures
        unwind_actions(h1 + h2) == unwind_actions(h2) + unwind_actions(h1),
    decreases h1.len(),
{
    if h1.len() == 0 {
        assert(h1 + h2 =~= h2);
        assert(unwind_actions(h1 + h2) =~= unwind_actions(h2) + unwind_actions(h1));
    } else {
        let t = h1.drop_first();
        lemma_unwind_reverses(t, h2);
        assert(h1 + h2 =~= seq![h1[0]] + (t + h2));
        lemma_unwind_cons(h1[0], t + h2);
        assert(h1 =~= seq![h1[0]] + t);
        lemma_unwind_cons(h1[0], t);
        assert(unwind_actions(h1 + h2) =~= unwind_actions(h2) + unwind_actions(h1));
    }
}

/// Builds the rollback plan for a loaded history: the recorded
/// transitions in reverse order, each as tag deletions, a checkout and
/// a hard reset.
pub fn unwind_plan(steps: &Vec<MergeStep>) -> (r: Vec<UndoAction>)
    ensures
        r.deep_view() == unwind_actions(steps.deep_view()),
{
    let ghost h: Seq<StepModel> = steps.deep_view();
    let mut r: Vec<UndoAction> = Vec::new();
    let mut i: usize = steps.len();
    assert(h.subrange(i as int, h.len() as int) =~= Seq::<StepModel>::empty());
    while i > 0
        invariant
            i <= h.len(),
            h == steps.deep_view(),
            r.deep_view() =~= unwind_actions(h.subrange(i as int, h.len() as int)),
        decreases i,
    {
        i = i - 1;
        let step = &steps[i];
        let ghost base: Seq<UndoModel> = r.deep_view();
        let mut j: usize = 0;
        assert(step@ == h[i as int]);
        while j < step.tags_created.len()
            invariant
                j <= step.tags_created@.len(),
                step@ == h[i as int],
                0 <= i < h.len(),
                h == steps.deep_view(),
                step == &steps[i as int],
                r.deep_view() =~= base + Seq::new(
                    j as nat,
                    |k: int| UndoModel::DeleteTag(step@.tags[k]),
                ),
            decreases step.tags_created@.len() - j,
        {
            let ghost before: Seq<UndoModel> = r.deep_view();
            r.push(UndoAction::DeleteTag(step.tags_created[j].clone()));
            proof {
                assert(step@.tags[j as int] == step.tags_created@[j as int]@);
                assert(r.deep_view() =~= before.push(
                    UndoModel::DeleteTag(step@.tags[j as int]),
                ));
                assert(r.deep_view() =~= base + Seq::new(
                    (j + 1) as nat,
                    |k: int| UndoModel::DeleteTag(step@.tags[k]),
                ));
            }
            j = j + 1;
        }
        let ghost tagpart: Seq<UndoModel> = r.deep_view();
        r.push(UndoAction::Checkout(step.target_branch.clone()));
        proof {
            assert(r.deep_view() =~= tagpart.push(UndoModel::Checkout(step@.target)));
        }
        let ghost withco: Seq<UndoModel> = r.deep_view();
        r.push(
            UndoAction::ResetHard {
                branch: step.target_branch.clone(),
                sha: step.original_sha.clone(),
            },
        );
        proof {
            assert(r.deep_view() =~= withco.push(
                UndoModel::ResetHard { branch: step@.target, sha: step@.sha },
            ));
            assert(r.deep_view() =~= base + undo_block(h[i as int]));
            let pre = h.subrange(i as int, h.len() as int);
            let rest = h.subrange(i + 1 as int, h.len() as int);
            assert(pre =~= seq![h[i as int]] + rest);
            lemma_unwind_cons(h[i as int], rest);
            assert(r.deep_view() =~= unwind_actions(pre));
        }
    }
    assert(h.subrange(0, h.len() as int) =~= h);
    r
}

/// What one undo invocation amounts to.
#[derive(Debug, PartialEq, Eq)]
pub enum UnwindOutcome {
    /// No durable log, or an empty one: report that there is nothing
    /// to undo, touch nothing, and leave the log alone.
    Nothing,
    /// Run the commands in order, ignoring individual failures, then
    /// delete the durable log.
    Restore(Vec<UndoAction>),
}

/// Decides an undo invocation from the durable log as found: `None`
/// when no log exists. Without a log, or with an empty one, nothing is
/// done and nothing is touched; an unreadable log is an error; any
/// other log yields its rollback plan.
pub fn unwind_decision(durable: &Option<String>) -> (r: Result<UnwindOutcome, LogError>)
    ensures
        durable is None ==> r == Ok::<UnwindOutcome, LogError>(UnwindOutcome::Nothing),
        match durable {
            Some(text) => match parse_history(text@) {
                None => r is Err,
                Some(h) => if h.len() == 0 {
                    r == Ok::<UnwindOutcome, LogError>(UnwindOutcome::Nothing)
                } else {
                    r matches Ok(UnwindOutcome::Restore(plan)) && plan.deep_view()
                        == unwind_actions(h)
                },
            },
            None => true,
        },
{
    match durable {
        None => Ok(UnwindOutcome::Nothing),
        Some(text) => match decode_history(text.as_str()) {
            Err(e) => Err(e),
            Ok(steps) => {
                if steps.len() == 0 {
                    assert(steps.deep_view() =~= Seq::<StepModel>::empty());
                    Ok(UnwindOutcome::Nothing)
                } else {
                    Ok(UnwindOutcome::Restore(unwind_plan(&steps)))
                }
            },
        },
    }
}

} // verus!
