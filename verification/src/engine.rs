//! The pipeline engine.
//!
//! The engine is a state machine over one run of the pipeline. It never
//! touches the repository or the log file itself: `next_action` says
//! what the caller must do next (run a command, persist the given log
//! text, invoke a hook), and `step` absorbs the outcome the caller
//! reports. The machine walks the transitions strictly in order,
//! persists the provisional record before the merge and the finished
//! record after it, and stops on the first fatal failure.

use vstd::prelude::*;
use vstd::string::StringExecFns;
use crate::codec::{encode_history, history_text, history_wf, lemma_log_round_trip, parse_history};
use crate::step::{MergeStep, StepModel};
use crate::tags::{tag_diff, tag_diff_seq};

verus! {

/// One source-to-target merge of the pipeline.
#[verifier::ext_equal]
pub ghost struct Transition {
    pub source: Seq<char>,
    pub target: Seq<char>,
}

/// The transitions a pipeline of the given stage names calls for:
/// each adjacent pair, in order.
pub open spec fn transitions_of(names: Seq<Seq<char>>) -> Seq<Transition> {
    if names.len() < 2 {
        Seq::empty()
    } else {
        Seq::new((names.len() - 1) as nat, |i: int| Transition { source: names[i], target: names[i + 1] })
    }
}

/// Where the engine stands inside the current transition, or that the
/// run has ended.
#[derive(Clone, Copy, PartialEq, Eq, Structural, Debug)]
pub enum Phase {
    AwaitPreTags,
    AwaitSha,
    AwaitProvisionalPersist,
    AwaitCheckout,
    AwaitMerge,
    AwaitPostTags,
    AwaitFinalPersist,
    RunningHooks,
    Failed,
    Complete,
}

/// The outcome the caller reports for the action it was asked to
/// perform.
#[derive(Debug, PartialEq, Eq)]
pub enum Event {
    /// The tag listing the repository returned.
    Tags(Vec<String>),
    /// The commit the requested branch points at.
    Sha(String),
    /// The action failed fatally; the text is the tool's diagnostic.
    Failure(String),
    /// The action completed.
    Done,
}

pub ghost enum EventModel {
    Tags(Seq<Seq<char>>),
    Sha(Seq<char>),
    Failure(Seq<char>),
    Done,
}

impl View for Event {
    type V = EventModel;

    open spec fn view(&self) -> EventModel {
        match self {
            Event::Tags(v) => EventModel::Tags(v.deep_view()),
            Event::Sha(s) => EventModel::Sha(s@),
            Event::Failure(s) => EventModel::Failure(s@),
            Event::Done => EventModel::Done,
        }
    }
}

/// What a hook is given: the finished record of the transition and the
/// name of the stage that was merged in.
#[derive(Debug, PartialEq, Eq)]
pub struct MergeContext {
    pub step: MergeStep,
    pub source: String,
}

#[verifier::ext_equal]
pub ghost struct ContextModel {
    pub step: StepModel,
    pub source: Seq<char>,
}

impl View for MergeContext {
    type V = ContextModel;

    open spec fn view(&self) -> ContextModel {
        ContextModel { step: self.step@, source: self.source@ }
    }
}

/// What the caller must do next.
#[derive(Debug, PartialEq, Eq)]
pub enum Action {
    /// List every tag in the repository and report `Tags`.
    ListTags,
    /// Resolve the commit `branch` points at and report `Sha`.
    ResolveSha { branch: String },
    /// Overwrite the durable log with `content` and report `Done`.
    Persist { content: String },
    /// Check out `branch` and report `Done` or `Failure`.
    Checkout { branch: String },
    /// Merge `source` into the checked-out branch, never fast-forward,
    /// with `message` as the commit message; report `Done` or `Failure`.
    Merge { source: String, message: String },
    /// Invoke hook number `hook` of stage number `stage` with
    /// `context`, and report `Done` whatever the hook does.
    RunHook { stage: usize, hook: usize, context: MergeContext },
    /// The run failed; surface `message` and stop.
    Fail { message: String },
    /// The run completed.
    Finished,
}

pub ghost enum ActionModel {
    ListTags,
    ResolveSha { branch: Seq<char> },
    Persist { content: Seq<char> },
    Checkout { branch: Seq<char> },
    Merge { source: Seq<char>, message: Seq<char> },
    RunHook { stage: int, hook: int, context: ContextModel },
    Fail { message: Seq<char> },
    Finished,
}

impl View for Action {
    type V = ActionModel;

    open spec fn view(&self) -> ActionModel {
        match self {
            Action::ListTags => ActionModel::ListTags,
            Action::ResolveSha { branch } => ActionModel::ResolveSha { branch: branch@ },
            Action::Persist { content } => ActionModel::Persist { content: content@ },
            Action::Checkout { branch } => ActionModel::Checkout { branch: branch@ },
            Action::Merge { source, message } => ActionModel::Merge {
                source: source@,
                message: message@,
            },
            Action::RunHook { stage, hook, context } => ActionModel::RunHook {
                stage: *stage as int,
                hook: *hook as int,
                context: context@,
            },
            Action::Fail { message } => ActionModel::Fail { message: message@ },
            Action::Finished => ActionModel::Finished,
        }
    }
}

/// The engine's state as mathematics.
#[verifier::ext_equal]
pub ghost struct EngineModel {
    pub names: Seq<Seq<char>>,
    pub hook_counts: Seq<usize>,
    pub history: Seq<StepModel>,
    pub idx: int,
    pub phase: Phase,
    pub pre_tags: Seq<Seq<char>>,
    pub hook_idx: int,
    pub fail_msg: Seq<char>,
    pub trace: Seq<Transition>,
    pub durable: Option<Seq<StepModel>>,
}

/// Runs one pipeline: stage names and hook counts in order, the
/// in-memory history, and the position inside the walk. The ghost
/// trace records every merge the engine has asked for; the ghost
/// durable state records what the last acknowledged persist wrote.
pub struct Engine {
    pub names: Vec<String>,
    pub hook_counts: Vec<usize>,
    pub history: Vec<MergeStep>,
    pub idx: usize,
    pub phase: Phase,
    pub pre_tags: Vec<String>,
    pub hook_idx: usize,
    pub fail_msg: String,
    pub trace: Ghost<Seq<Transition>>,
    pub durable: Ghost<Option<Seq<StepModel>>>,
}

impl View for Engine {
    type V = EngineModel;

    open spec fn view(&self) -> EngineModel {
        EngineModel {
            names: self.names.deep_view(),
            hook_counts: self.hook_counts@,
            history: self.history.deep_view(),
            idx: self.idx as int,
            phase: self.phase,
            pre_tags: self.pre_tags.deep_view(),
            hook_idx: self.hook_idx as int,
            fail_msg: self.fail_msg@,
            trace: self.trace@,
            durable: self.durable@,
        }
    }
}

/// The phases inside one transition from the provisional record on.
pub open spec fn mid_transition(p: Phase) -> bool {
    ||| p is AwaitProvisionalPersist
    ||| p is AwaitCheckout
    ||| p is AwaitMerge
    ||| p is AwaitPostTags
    ||| p is AwaitFinalPersist
    ||| p is RunningHooks
}

/// The phases of a run still under way.
pub open spec fn active(p: Phase) -> bool {
    p is AwaitPreTags || p is AwaitSha || mid_transition(p)
}

/// The phases in which the current transition's merge has been asked
/// for.
pub open spec fn merged(p: Phase) -> bool {
    p is AwaitMerge || p is AwaitPostTags || p is AwaitFinalPersist || p is RunningHooks
}

/// What every reachable engine state satisfies: the walk stays inside
/// the pipeline, the history and the trace list exactly the
/// transitions begun so far in pipeline order, and between the
/// provisional and the final persist the durable log holds the
/// tag-less record.
pub open spec fn inv(m: EngineModel) -> bool {
    &&& m.names.len() == m.hook_counts.len()
    &&& 0 <= m.idx
    &&& 0 <= m.hook_idx
    &&& (if m.names.len() == 0 {
        m.history.len() == 0
    } else {
        m.history.len() <= m.names.len() - 1
    })
    &&& m.trace.len() <= m.history.len()
    &&& (active(m.phase) || m.phase is Complete) ==> m.trace.len() == m.history.len() - (
    if mid_transition(m.phase) && !merged(m.phase) {
        1int
    } else {
        0
    })
    &&& active(m.phase) ==> m.idx + 1 < m.names.len()
    &&& active(m.phase) ==> m.history.len() == m.idx + (if mid_transition(m.phase) {
        1int
    } else {
        0
    })
    &&& m.phase is Complete ==> m.history.len() == (if m.names.len() >= 2 {
        m.names.len() - 1
    } else {
        0int
    })
    &&& forall|k: int| 0 <= k < m.history.len() ==> (#[trigger] m.history[k]).target == m.names[
        k + 1]
    &&& forall|k: int|
        0 <= k < m.trace.len() ==> #[trigger] m.trace[k] == Transition {
            source: m.names[k],
            target: m.names[k + 1],
        }
    &&& m.phase is RunningHooks ==> m.hook_idx < m.hook_counts[m.idx + 1]
    &&& (m.phase is AwaitProvisionalPersist || m.phase is AwaitCheckout || m.phase is AwaitMerge
        || m.phase is AwaitPostTags) ==> m.history.last().tags == Seq::<Seq<char>>::empty()
    &&& (m.phase is AwaitCheckout || m.phase is AwaitMerge || m.phase is AwaitPostTags
        || m.phase is RunningHooks) ==> m.durable == Some(m.history)
}

/// The record written before a merge: the target, its commit, no tags.
pub open spec fn provisional_record(target: Seq<char>, sha: Seq<char>) -> StepModel {
    StepModel { target: target, sha: sha, tags: Seq::empty() }
}

/// The diagnostic for an event that does not answer the pending
/// action.
pub open spec fn protocol_error_text() -> Seq<char> {
    "unexpected event"@
}

/// A failed engine: the phase and the diagnostic change, nothing else.
pub open spec fn failed_model(m: EngineModel, msg: Seq<char>) -> EngineModel {
    EngineModel { phase: Phase::Failed, fail_msg: msg, ..m }
}

/// The state after a transition's hooks have all run: the next
/// transition begins, or the run completes.
pub open spec fn advanced_model(m: EngineModel) -> EngineModel {
    if m.idx + 2 < m.names.len() {
        EngineModel { idx: m.idx + 1, hook_idx: 0, phase: Phase::AwaitPreTags, ..m }
    } else {
        EngineModel { phase: Phase::Complete, ..m }
    }
}

/// The engine's transition function: the state after absorbing `ev`.
pub open spec fn step_model(m: EngineModel, ev: EventModel) -> EngineModel {
    if m.phase is Failed || m.phase is Complete {
        m
    } else if ev is Failure {
        failed_model(m, ev->Failure_0)
    } else {
        match (m.phase, ev) {
            (Phase::AwaitPreTags, EventModel::Tags(ts)) => EngineModel {
                phase: Phase::AwaitSha,
                pre_tags: ts,
                ..m
            },
            (Phase::AwaitSha, EventModel::Sha(sha)) => EngineModel {
                phase: Phase::AwaitProvisionalPersist,
                history: m.history.push(provisional_record(m.names[m.idx + 1], sha)),
                ..m
            },
            (Phase::AwaitProvisionalPersist, EventModel::Done) => EngineModel {
                phase: Phase::AwaitCheckout,
                durable: Some(m.history),
                ..m
            },
            (Phase::AwaitCheckout, EventModel::Done) => EngineModel {
                phase: Phase::AwaitMerge,
                trace: m.trace.push(
                    Transition { source: m.names[m.idx], target: m.names[m.idx + 1] },
                ),
                ..m
            },
            (Phase::AwaitMerge, EventModel::Done) => EngineModel {
                phase: Phase::AwaitPostTags,
                ..m
            },
            (Phase::AwaitPostTags, EventModel::Tags(post)) => EngineModel {
                phase: Phase::AwaitFinalPersist,
                history: m.history.update(
                    m.history.len() - 1,
                    StepModel { tags: tag_diff_seq(post, m.pre_tags), ..m.history.last() },
                ),
                ..m
            },
            (Phase::AwaitFinalPersist, EventModel::Done) => {
                let m2 = EngineModel { durable: Some(m.history), ..m };
                if m.hook_counts[m.idx + 1] == 0 {
                    advanced_model(m2)
                } else {
                    EngineModel { phase: Phase::RunningHooks, hook_idx: 0, ..m2 }
                }
            },
            (Phase::RunningHooks, EventModel::Done) => {
                if m.hook_idx + 1 < m.hook_counts[m.idx + 1] {
                    EngineModel { hook_idx: m.hook_idx + 1, ..m }
                } else {
                    advanced_model(m)
                }
            },
            _ => failed_model(m, protocol_error_text()),
        }
    }
}

/// The action the caller must perform in the given state.
pub open spec fn action_model(m: EngineModel) -> ActionModel {
    match m.phase {
        Phase::AwaitPreTags => ActionModel::ListTags,
        Phase::AwaitSha => ActionModel::ResolveSha { branch: m.names[m.idx + 1] },
        Phase::AwaitProvisionalPersist => ActionModel::Persist {
            content: history_text(m.history),
        },
        Phase::AwaitCheckout => ActionModel::Checkout { branch: m.names[m.idx + 1] },
        Phase::AwaitMerge => ActionModel::Merge {
            source: m.names[m.idx],
            message: merge_message(m.names[m.idx]),
        },
        Phase::AwaitPostTags => ActionModel::ListTags,
        Phase::AwaitFinalPersist => ActionModel::Persist { content: history_text(m.history) },
        Phase::RunningHooks => ActionModel::RunHook {
            stage: m.idx + 1,
            hook: m.hook_idx,
            context: ContextModel { step: m.history.last(), source: m.names[m.idx] },
        },
        Phase::Failed => ActionModel::Fail { message: m.fail_msg },
        Phase::Complete => ActionModel::Finished,
    }
}

/// The commit message recorded for a merge of `source`.
pub open spec fn merge_message(source: Seq<char>) -> Seq<char> {
    "Merge "@ + source
}

/// The state an engine starts a run in.
pub open spec fn init_model(names: Seq<Seq<char>>, hook_counts: Seq<usize>) -> EngineModel {
    EngineModel {
        names: names,
        hook_counts: hook_counts,
        history: Seq::empty(),
        idx: 0,
        phase: if names.len() >= 2 {
            Phase::AwaitPreTags
        } else {
            Phase::Complete
        },
        pre_tags: Seq::empty(),
        hook_idx: 0,
        fail_msg: Seq::empty(),
        trace: Seq::empty(),
        durable: None,
    }
}

/// Every step keeps the engine well formed.
pub proof fn lemma_step_preserves_inv(m: EngineModel, ev: EventModel)
    requires
        inv(m),
    ensures
        inv(step_model(m, ev)),
{
    let m2 = step_model(m, ev);
    if m.phase is Failed || m.phase is Complete {
    } else if ev is Failure {
    } else {
        match (m.phase, ev) {
            (Phase::AwaitSha, EventModel::Sha(sha)) => {
                let h2 = m2.history;
                assert forall|k: int| 0 <= k < h2.len() implies (#[trigger] h2[k]).target
                    == m2.names[k + 1] by {
                    if k < m.history.len() {
                        assert(h2[k] == m.history[k]);
                    } else {
                        assert(h2[k] == provisional_record(m.names[m.idx + 1], sha));
                        assert(k == m.idx);
                    }
                }
            },
            (Phase::AwaitCheckout, EventModel::Done) => {
                let t2 = m2.trace;
                assert forall|k: int| 0 <= k < t2.len() implies #[trigger] t2[k] == (Transition {
                    source: m2.names[k],
                    target: m2.names[k + 1],
                }) by {
                    if k < m.trace.len() {
                        assert(t2[k] == m.trace[k]);
                    } else {
                        assert(k == m.trace.len());
                        assert(k == m.idx);
                    }
                }
            },
            (Phase::AwaitPostTags, EventModel::Tags(post)) => {
                let h2 = m2.history;
                assert forall|k: int| 0 <= k < h2.len() implies (#[trigger] h2[k]).target
                    == m2.names[k + 1] by {
                    if k < m.history.len() - 1 {
                        assert(h2[k] == m.history[k]);
                    } else {
                        assert(h2[k].target == m.history[k].target);
                    }
                }
            },
            _ => {},
        }
    }
}

impl Engine {
    /// An engine for the pipeline of the given stage names, each with
    /// the given number of hooks. A pipeline of fewer than two stages
    /// has no transition to run and completes at once.
    pub fn new(names: Vec<String>, hook_counts: Vec<usize>) -> (r: Engine)
        requires
            names@.len() == hook_counts@.len(),
        ensures
            r@ == init_model(names.deep_view(), hook_counts@),
            inv(r@),
    {
        let phase = if names.len() >= 2 {
            Phase::AwaitPreTags
        } else {
            Phase::Complete
        };
        let r = Engine {
            names,
            hook_counts,
            history: Vec::new(),
            idx: 0,
            phase,
            pre_tags: Vec::new(),
            hook_idx: 0,
            fail_msg: String::new(),
            trace: Ghost(Seq::empty()),
            durable: Ghost(None),
        };
        assert(r.history.deep_view() =~= Seq::<StepModel>::empty());
        assert(r.pre_tags.deep_view() =~= Seq::<Seq<char>>::empty());
        assert(r@ =~= init_model(r.names.deep_view(), r.hook_counts@));
        r
    }

    /// What the caller must do next in this state.
    pub fn next_action(&self) -> (r: Action)
        requires
            inv(self@),
        ensures
            r@ == action_model(self@),
    {
        let n = self.names.len();
        match self.phase {
            Phase::AwaitPreTags => Action::ListTags,
            Phase::AwaitSha => {
                assert(self.idx + 1 < n);
                Action::ResolveSha { branch: self.names[self.idx + 1].clone() }
            },
            Phase::AwaitProvisionalPersist => Action::Persist {
                content: encode_history(&self.history),
            },
            Phase::AwaitCheckout => {
                assert(self.idx + 1 < n);
                Action::Checkout { branch: self.names[self.idx + 1].clone() }
            },
            Phase::AwaitMerge => {
                let mut message = "Merge ".to_owned();
                message.append(self.names[self.idx].as_str());
                Action::Merge { source: self.names[self.idx].clone(), message }
            },
            Phase::AwaitPostTags => Action::ListTags,
            Phase::AwaitFinalPersist => Action::Persist {
                content: encode_history(&self.history),
            },
            Phase::RunningHooks => {
                assert(self.idx + 1 < n);
                let context = MergeContext {
                    step: self.history[self.history.len() - 1].clone(),
                    source: self.names[self.idx].clone(),
                };
                assert(self.history.deep_view().last() == self@.history.last());
                Action::RunHook { stage: self.idx + 1, hook: self.hook_idx, context }
            },
            Phase::Failed => Action::Fail { message: self.fail_msg.clone() },
            Phase::Complete => Action::Finished,
        }
    }

    /// Absorbs the caller's report on the pending action and moves to
    /// the next state of the run.
    pub fn step(&mut self, ev: Event)
        requires
            inv(old(self)@),
        ensures
            final(self)@ == step_model(old(self)@, ev@),
            inv(final(self)@),
    {
        let ghost evm = ev@;
        proof {
            lemma_step_preserves_inv(old(self)@, evm);
        }
        if self.phase == Phase::Failed || self.phase == Phase::Complete {
            return;
        }
        match ev {
            Event::Failure(msg) => {
                self.fail_msg = msg;
                self.phase = Phase::Failed;
                assert(self@ =~= step_model(old(self)@, evm));
            },
            Event::Tags(ts) => {
                if self.phase == Phase::AwaitPreTags {
                    self.pre_tags = ts;
                    self.phase = Phase::AwaitSha;
                    assert(self@ =~= step_model(old(self)@, evm));
                } else if self.phase == Phase::AwaitPostTags {
                    let diff = tag_diff(&ts, &self.pre_tags);
                    let last = self.history.len() - 1;
                    let finished = MergeStep {
                        target_branch: self.history[last].target_branch.clone(),
                        original_sha: self.history[last].original_sha.clone(),
                        tags_created: diff,
                    };
                    self.history.set(last, finished);
                    self.phase = Phase::AwaitFinalPersist;
                    proof {
                        let hd = old(self).history.deep_view();
                        let upd = StepModel {
                            tags: tag_diff_seq(ts.deep_view(), old(self)@.pre_tags),
                            ..hd.last()
                        };
                        assert(hd.last() == old(self).history@[last as int]@);
                        assert(self.history.deep_view() =~~= hd.update(hd.len() - 1, upd));
                        assert(self@ =~= step_model(old(self)@, evm));
                    }
                } else {
                    self.fail_msg = "unexpected event".to_owned();
                    self.phase = Phase::Failed;
                    assert(self@ =~= step_model(old(self)@, evm));
                }
            },
            Event::Sha(sha) => {
                if self.phase == Phase::AwaitSha {
                    let n = self.names.len();
                    assert(self.idx + 1 < n);
                    let record = MergeStep {
                        target_branch: self.names[self.idx + 1].clone(),
                        original_sha: sha,
                        tags_created: Vec::new(),
                    };
                    self.history.push(record);
                    self.phase = Phase::AwaitProvisionalPersist;
                    proof {
                        let hd = old(self).history.deep_view();
                        assert(record@.tags =~= Seq::<Seq<char>>::empty());
                        assert(old(self)@.names[old(self)@.idx + 1] == old(self).names@[old(
                            self,
                        ).idx + 1]@);
                        assert(self.history.deep_view() =~~= hd.push(
                            provisional_record(old(self)@.names[old(self)@.idx + 1], evm->Sha_0),
                        ));
                        assert(self@ =~= step_model(old(self)@, evm));
                    }
                } else {
                    self.fail_msg = "unexpected event".to_owned();
                    self.phase = Phase::Failed;
                    assert(self@ =~= step_model(old(self)@, evm));
                }
            },
            Event::Done => {
                if self.phase == Phase::AwaitProvisionalPersist {
                    self.durable = Ghost(Some(self.history.deep_view()));
                    self.phase = Phase::AwaitCheckout;
                    assert(self@ =~= step_model(old(self)@, evm));
                } else if self.phase == Phase::AwaitCheckout {
                    self.trace = Ghost(
                        self.trace@.push(
                            Transition {
                                source: self@.names[self@.idx],
                                target: self@.names[self@.idx + 1],
                            },
                        ),
                    );
                    self.phase = Phase::AwaitMerge;
                    assert(self@ =~= step_model(old(self)@, evm));
                } else if self.phase == Phase::AwaitMerge {
                    self.phase = Phase::AwaitPostTags;
                    assert(self@ =~= step_model(old(self)@, evm));
                } else if self.phase == Phase::AwaitFinalPersist {
                    self.durable = Ghost(Some(self.history.deep_view()));
                    let n = self.hook_counts.len();
                    assert(self.idx + 1 < n);
                    if self.hook_counts[self.idx + 1] == 0 {
                        self.advance();
                    } else {
                        self.hook_idx = 0;
                        self.phase = Phase::RunningHooks;
                    }
                    assert(self@ =~= step_model(old(self)@, evm));
                } else if self.phase == Phase::RunningHooks {
                    let n = self.hook_counts.len();
                    assert(self.idx + 1 < n);
                    assert(self@.hook_idx < self@.hook_counts[self@.idx + 1]);
                    if self.hook_idx + 1 < self.hook_counts[self.idx + 1] {
                        self.hook_idx = self.hook_idx + 1;
                    } else {
                        self.advance();
                    }
                    assert(self@ =~= step_model(old(self)@, evm));
                } else {
                    self.fail_msg = "unexpected event".to_owned();
                    self.phase = Phase::Failed;
                    assert(self@ =~= step_model(old(self)@, evm));
                }
            },
        }
    }

    /// Moves past the finished transition: on to the next, or to
    /// completion.
    fn advance(&mut self)
        requires
            active(old(self)@.phase),
            inv(old(self)@),
        ensures
            final(self)@ == advanced_model(old(self)@),
    {
        let n = self.names.len();
        assert(self.idx + 1 < n);
        if self.idx + 2 < n {
            self.idx = self.idx + 1;
            self.hook_idx = 0;
            self.phase = Phase::AwaitPreTags;
        } else {
            self.phase = Phase::Complete;
        }
        assert(self@ =~= advanced_model(old(self)@));
    }
}

/// Over a whole run the merges asked for are exactly the pipeline's
/// transitions, each adjacent pair once, in pipeline order: nothing
/// skipped, nothing reordered.
pub proof fn lemma_run_ordering(m: EngineModel)
    requires
        inv(m),
        m.phase is Complete,
    ensures
        m.trace == transitions_of(m.names),
{
    assert(m.trace =~= transitions_of(m.names));
}

/// At every point of a run, the merges asked for so far are a prefix
/// of the pipeline's transitions, in order.
pub proof fn lemma_trace_prefix(m: EngineModel)
    requires
        inv(m),
    ensures
        m.trace == transitions_of(m.names).take(m.trace.len() as int),
{
    assert(m.trace =~= transitions_of(m.names).take(m.trace.len() as int));
}

/// From the provisional persist until the final persist of a
/// transition, the durable log holds the in-memory history, and the
/// record of the transition under way has no tags yet.
pub proof fn lemma_provisional_durable(m: EngineModel)
    requires
        inv(m),
        m.phase is AwaitCheckout || m.phase is AwaitMerge || m.phase is AwaitPostTags,
    ensures
        m.durable == Some(m.history),
        m.history.len() > 0,
        m.history.last().tags == Seq::<Seq<char>>::empty(),
{
}

/// What a persist action asks the caller to write is the durable text
/// of the in-memory history; as long as the recorded names avoid the
/// format's delimiters, that text reads back as exactly that history.
pub proof fn lemma_persist_content(m: EngineModel)
    requires
        inv(m),
        m.phase is AwaitProvisionalPersist || m.phase is AwaitFinalPersist,
        history_wf(m.history),
    ensures
        action_model(m) == (ActionModel::Persist { content: history_text(m.history) }),
        parse_history(history_text(m.history)) == Some(m.history),
{
    lemma_log_round_trip(m.history);
}

/// Absorbing the post-merge tag listing and the final persist leaves
/// the durable log holding the finished record, whose tags are exactly
/// the difference of the listings after and before the merge.
pub proof fn lemma_final_durable(m: EngineModel, post: Seq<Seq<char>>)
    requires
        inv(m),
        m.phase is AwaitPostTags,
    ensures
        ({
            let m2 = step_model(step_model(m, EventModel::Tags(post)), EventModel::Done);
            &&& m2.durable == Some(m2.history)
            &&& m2.history.len() == m.history.len()
            &&& m2.history.last().tags == tag_diff_seq(post, m.pre_tags)
            &&& m2.history.last().target == m.history.last().target
            &&& m2.history.last().sha == m.history.last().sha
        }),
{
}

} // verus!
