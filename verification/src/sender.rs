//! The throttled sender of one connection, as a state machine.
//!
//! The owner of the connection runs the loop: it asks the sender for the
//! pending [`Action`], performs it, and reports the [`Outcome`] with
//! [`Sender::step`], until the action is [`Action::Close`] or
//! [`Action::Abort`].

use vstd::prelude::*;
use vstd::arithmetic::div_mod::lemma_mod_add_multiples_vanish;
use vstd::slice::slice_subrange;
use crate::plan::{Plan, PlanView};

verus! {

/// What a sender is about to do, or how it ended.
#[derive(Debug, Clone, Copy, PartialEq, Eq, Structural)]
pub enum Phase {
    /// The chunk at the cursor is to be written.
    Writing,
    /// The chunk at the cursor was written and is to be flushed.
    Flushing,
    /// A chunk was handed over; the sender pauses before the chunk at the
    /// cursor.
    Pausing,
    /// The single pass is complete.
    Finished,
    /// A flush failed: the connection is given up.
    Failed,
}

/// How the action that the sender asked for ended.
#[derive(Debug, Clone, Copy, PartialEq, Eq, Structural)]
pub enum Outcome {
    Completed,
    Failed,
}

/// What the sender asks of whoever owns the connection.
#[derive(Debug, Clone, Copy, PartialEq, Eq, Structural)]
pub enum Action {
    /// Write the payload's bytes from `start` up to `end`, all of them.
    Write { start: usize, end: usize },
    /// Flush the connection.
    Flush,
    /// Do nothing for `millis` milliseconds, the connection held open.
    Sleep { millis: u64 },
    /// The transmission is complete: close the connection.
    Close,
    /// The connection is unusable: drop it.
    Abort,
}

/// The mathematical content of a [`Sender`]: a cursor into the payload and
/// a phase.
pub struct SenderView {
    pub pos: nat,
    pub phase: Phase,
}

impl SenderView {
    /// The state of a sender that has done nothing yet.
    pub open spec fn start() -> SenderView {
        SenderView { pos: 0, phase: Phase::Writing }
    }

    /// The cursor of a sender that has finished stands at the end of the
    /// pass. Any other cursor stands where a chunk starts.
    pub open spec fn wf(self, plan: PlanView) -> bool {
        if self.phase is Finished {
            self.pos == plan.limit()
        } else {
            plan.is_chunk_start(self.pos)
        }
    }

    /// The state that follows once the chunk at the cursor is dealt with:
    /// a pause before the next chunk or, after the last chunk of a pass, a
    /// new pass or the end.
    pub open spec fn after_chunk(self, plan: PlanView) -> SenderView {
        if !plan.is_last(self.pos) {
            SenderView { pos: self.pos + plan.chunk_size, phase: Phase::Pausing }
        } else if plan.repeat {
            SenderView::start()
        } else {
            SenderView { pos: plan.limit(), phase: Phase::Finished }
        }
    }

    /// The state that follows when the pending action ends with `outcome`.
    ///
    /// A failed write costs the chunk its flush and nothing else: the pace
    /// goes on. A failed flush ends the transmission. A pause cannot fail.
    /// Nothing follows the end.
    pub open spec fn step(self, plan: PlanView, outcome: Outcome) -> SenderView {
        match self.phase {
            Phase::Writing => match outcome {
                Outcome::Completed => SenderView { pos: self.pos, phase: Phase::Flushing },
                Outcome::Failed => self.after_chunk(plan),
            },
            Phase::Flushing => match outcome {
                Outcome::Completed => self.after_chunk(plan),
                Outcome::Failed => SenderView { pos: self.pos, phase: Phase::Failed },
            },
            Phase::Pausing => SenderView { pos: self.pos, phase: Phase::Writing },
            Phase::Finished => self,
            Phase::Failed => self,
        }
    }

    /// The bytes that the pending action is to write: the chunk at the cursor
    /// where a write is pending, none otherwise.
    pub open spec fn pending_bytes(self, plan: PlanView) -> Seq<u8> {
        if self.phase is Writing {
            plan.chunk(self.pos)
        } else {
            Seq::empty()
        }
    }

    /// The share of the pass that lies before the cursor, in whole percent,
    /// rounded down. An empty pass has no such share.
    pub open spec fn progress_percent(self, plan: PlanView) -> Option<nat> {
        if plan.limit() > 0 {
            Some(100 * self.pos / plan.limit())
        } else {
            None
        }
    }

    /// The action that is pending in this state.
    pub open spec fn action(self, plan: PlanView) -> Action {
        match self.phase {
            Phase::Writing => Action::Write {
                start: self.pos as usize,
                end: plan.chunk_end(self.pos) as usize,
            },
            Phase::Flushing => Action::Flush,
            Phase::Pausing => Action::Sleep { millis: plan.interval as u64 },
            Phase::Finished => Action::Close,
            Phase::Failed => Action::Abort,
        }
    }
}

/// The throttled sender of one connection.
///
/// A sender performs no I/O. It says which action is pending, is told how
/// that action ended, and moves on. Its owner writes, flushes and sleeps.
pub struct Sender<'a> {
    plan: &'a Plan,
    pos: usize,
    phase: Phase,
}

impl<'a> View for Sender<'a> {
    type V = SenderView;

    closed spec fn view(&self) -> SenderView {
        SenderView { pos: self.pos as nat, phase: self.phase }
    }
}

impl<'a> Sender<'a> {
    #[verifier::type_invariant]
    spec fn inv(&self) -> bool {
        self@.wf(self.plan@)
    }

    /// The plan that this sender follows.
    pub closed spec fn plan(&self) -> PlanView {
        self.plan@
    }

    /// A sender at the start of its first pass over `plan`.
    pub fn new(plan: &'a Plan) -> (s: Sender<'a>)
        ensures
            s@ == SenderView::start(),
            s.plan() == plan@,
    {
        proof {
            use_type_invariant(plan);
        }
        Sender { plan, pos: 0, phase: Phase::Writing }
    }

    /// The action that is pending.
    pub fn action(&self) -> (a: Action)
        ensures
            a == self@.action(self.plan()),
            a matches Action::Write { start, end } ==> self.plan().is_chunk_start(start as nat)
                && start <= end <= self.plan().limit() <= self.plan().payload.len(),
    {
        proof {
            use_type_invariant(self);
        }
        match self.phase {
            Phase::Writing => Action::Write { start: self.pos, end: self.plan.chunk_end(self.pos) },
            Phase::Flushing => Action::Flush,
            Phase::Pausing => Action::Sleep { millis: self.plan.interval() },
            Phase::Finished => Action::Close,
            Phase::Failed => Action::Abort,
        }
    }

    /// Moves on, given how the pending action ended.
    pub fn step(self, outcome: Outcome) -> (next: Sender<'a>)
        ensures
            next.plan() == self.plan(),
            next@ == self@.step(self.plan(), outcome),
    {
        proof {
            use_type_invariant(&self);
        }
        match self.phase {
            Phase::Writing => match outcome {
                Outcome::Completed => Sender { plan: self.plan, pos: self.pos, phase: Phase::Flushing },
                Outcome::Failed => self.after_chunk(),
            },
            Phase::Flushing => match outcome {
                Outcome::Completed => self.after_chunk(),
                Outcome::Failed => Sender { plan: self.plan, pos: self.pos, phase: Phase::Failed },
            },
            Phase::Pausing => Sender { plan: self.plan, pos: self.pos, phase: Phase::Writing },
            Phase::Finished => self,
            Phase::Failed => self,
        }
    }

    /// The bytes that the pending action is to write: the chunk at the cursor
    /// where a write is pending, none otherwise.
    pub fn pending_bytes(&self) -> (r: &'a [u8])
        ensures
            r@ == self@.pending_bytes(self.plan()),
    {
        proof {
            use_type_invariant(self);
        }
        let payload = self.plan.payload();
        match self.phase {
            Phase::Writing => slice_subrange(payload, self.pos, self.plan.chunk_end(self.pos)),
            _ => slice_subrange(payload, 0, 0),
        }
    }

    /// The share of the pass that lies before the cursor, in whole percent,
    /// rounded down. An empty pass has no such share.
    pub fn progress_percent(&self) -> (r: Option<usize>)
        ensures
            match r {
                Some(p) => self@.progress_percent(self.plan()) == Some(p as nat) && p <= 100,
                None => self@.progress_percent(self.plan()) is None,
            },
    {
        proof {
            use_type_invariant(self);
        }
        let limit: usize = self.plan.limit();
        if limit == 0 {
            None
        } else {
            let pos: usize = self.pos;
            assert(100 * pos / (limit as int) <= 100) by (nonlinear_arith)
                requires
                    0 <= pos <= limit,
                    limit > 0,
            ;
            let share: u128 = 100u128 * (pos as u128) / (limit as u128);
            Some(share as usize)
        }
    }

    /// Where the cursor stands.
    pub fn position(&self) -> (r: usize)
        ensures
            r == self@.pos,
            self.plan().wf(),
            self@.wf(self.plan()),
    {
        proof {
            use_type_invariant(self);
            use_type_invariant(self.plan);
        }
        self.pos
    }

    /// What the sender is about to do, or how it ended.
    pub fn phase(&self) -> (r: Phase)
        ensures
            r == self@.phase,
    {
        self.phase
    }

    fn after_chunk(self) -> (next: Sender<'a>)
        ensures
            next.plan() == self.plan(),
            next@ == self@.after_chunk(self.plan()),
    {
        proof {
            use_type_invariant(&self);
        }
        let limit: usize = self.plan.limit();
        let chunk: usize = self.plan.chunk_size();
        proof {
            lemma_mod_add_multiples_vanish(self.pos as int, chunk as int);
        }
        if chunk < limit - self.pos {
            Sender { plan: self.plan, pos: self.pos + chunk, phase: Phase::Pausing }
        } else if self.plan.repeat() {
            Sender { plan: self.plan, pos: 0, phase: Phase::Writing }
        } else {
            Sender { plan: self.plan, pos: limit, phase: Phase::Finished }
        }
    }
}

} // verus!
