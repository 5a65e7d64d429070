//! What a sender does over time, while every action it asks for completes:
//! the states it goes through, the bytes it delivers and the pauses it asks
//! for. The proofs say what a connection receives, and when the sender stops.

use vstd::prelude::*;
use vstd::arithmetic::div_mod::{
    lemma_fundamental_div_mod_converse, lemma_mod_add_multiples_vanish,
};
use crate::plan::PlanView;
use crate::sender::{Outcome, Phase, SenderView};

verus! {

/// The state reached from `s` after `n` actions that all completed.
pub open spec fn run(plan: PlanView, s: SenderView, n: nat) -> SenderView
    decreases n,
{
    if n == 0 {
        s
    } else {
        run(plan, s, (n - 1) as nat).step(plan, Outcome::Completed)
    }
}

/// The bytes that the connection receives, in order, while the sender goes
/// from `s` through `n` actions that all completed.
pub open spec fn delivered(plan: PlanView, s: SenderView, n: nat) -> Seq<u8>
    decreases n,
{
    if n == 0 {
        Seq::empty()
    } else {
        delivered(plan, s, (n - 1) as nat) + run(plan, s, (n - 1) as nat).pending_bytes(plan)
    }
}

/// The pause, in milliseconds, that the action pending in `s` asks for.
pub open spec fn pause_asked(plan: PlanView, s: SenderView) -> nat {
    if s.phase is Pausing {
        plan.interval
    } else {
        0
    }
}

/// The pauses, in milliseconds and summed up, that the sender asks for while
/// it goes from `s` through `n` actions that all completed.
pub open spec fn paused(plan: PlanView, s: SenderView, n: nat) -> nat
    decreases n,
{
    if n == 0 {
        0
    } else {
        paused(plan, s, (n - 1) as nat) + pause_asked(plan, run(plan, s, (n - 1) as nat))
    }
}

/// How far into its pass the connection has been served once the sender is
/// in state `s`: up to the cursor, or up to the end of the chunk at the
/// cursor where that chunk is written and awaits its flush.
pub open spec fn served(plan: PlanView, s: SenderView) -> nat {
    if s.phase is Flushing {
        plan.chunk_end(s.pos)
    } else {
        s.pos
    }
}

/// The number of actions of one pass: a write, a flush and a pause for each
/// chunk but the last, a write and a flush for the last.
pub open spec fn pass_actions(plan: PlanView) -> nat {
    (3 * plan.chunk_count() - 1) as nat
}

/// `p` repeated `j` times.
pub open spec fn cycles(p: Seq<u8>, j: nat) -> Seq<u8>
    decreases j,
{
    if j == 0 {
        Seq::empty()
    } else {
        cycles(p, (j - 1) as nat) + p
    }
}

/// However the pending action ends, the cursor stays where a chunk starts:
/// every write that a sender asks for is one whole chunk of the pass.
pub proof fn lemma_step_wf(plan: PlanView, s: SenderView, outcome: Outcome)
    requires
        plan.wf(),
        s.wf(plan),
    ensures
        s.step(plan, outcome).wf(plan),
{
    lemma_mod_add_multiples_vanish(s.pos as int, plan.chunk_size as int);
}

/// A run keeps the cursor where a chunk starts.
pub proof fn lemma_run_wf(plan: PlanView, s: SenderView, n: nat)
    requires
        plan.wf(),
        s.wf(plan),
    ensures
        run(plan, s, n).wf(plan),
    decreases n,
{
    if n > 0 {
        lemma_run_wf(plan, s, (n - 1) as nat);
        lemma_step_wf(plan, run(plan, s, (n - 1) as nat), Outcome::Completed);
    }
}

/// A run of `a + b` actions is a run of `a` actions followed by a run of
/// `b` actions. It delivers what the two deliver, in that order, and pauses
/// as long as the two together.
pub proof fn lemma_run_split(plan: PlanView, s: SenderView, a: nat, b: nat)
    ensures
        run(plan, s, a + b) == run(plan, run(plan, s, a), b),
        delivered(plan, s, a + b) == delivered(plan, s, a) + delivered(plan, run(plan, s, a), b),
        paused(plan, s, a + b) == paused(plan, s, a) + paused(plan, run(plan, s, a), b),
    decreases b,
{
    if b == 0 {
        assert(delivered(plan, s, a) + Seq::<u8>::empty() =~= delivered(plan, s, a));
    } else {
        let b1 = (b - 1) as nat;
        lemma_run_split(plan, s, a, b1);
        assert((a + b - 1) as nat == a + b1);
        let mid = run(plan, s, a);
        assert(delivered(plan, s, a + b) =~= delivered(plan, s, a) + (delivered(plan, mid, b1)
            + run(plan, mid, b1).pending_bytes(plan)));
    }
}

/// Every chunk but the last of a pass takes three actions: its write, its
/// flush, and one pause of the plan's interval, in that order. They deliver
/// the chunk, whole, and leave the sender about to write the next chunk.
pub proof fn lemma_chunk_cycle(plan: PlanView, pos: nat)
    requires
        plan.wf(),
        !plan.is_last(pos),
    ensures
        ({
            let s = SenderView { pos, phase: Phase::Writing };
            &&& run(plan, s, 1) == SenderView { pos, phase: Phase::Flushing }
            &&& run(plan, s, 2) == SenderView { pos: pos + plan.chunk_size, phase: Phase::Pausing }
            &&& run(plan, s, 3) == SenderView { pos: pos + plan.chunk_size, phase: Phase::Writing }
            &&& delivered(plan, s, 3) == plan.payload.subrange(
                pos as int,
                (pos + plan.chunk_size) as int,
            )
            &&& paused(plan, s, 2) == 0
            &&& paused(plan, s, 3) == plan.interval
        }),
{
    let s = SenderView { pos, phase: Phase::Writing };
    reveal_with_fuel(run, 4);
    reveal_with_fuel(delivered, 4);
    reveal_with_fuel(paused, 4);
    assert(delivered(plan, s, 3) =~= plan.payload.subrange(
        pos as int,
        (pos + plan.chunk_size) as int,
    ));
}

/// The last chunk of a pass takes two actions, its write and its flush, and
/// no pause. They deliver what remained and leave the sender at the start of
/// a new pass where the plan repeats, at the end where it does not.
pub proof fn lemma_last_chunk(plan: PlanView, pos: nat)
    requires
        plan.wf(),
        plan.is_last(pos),
        pos <= plan.limit(),
    ensures
        ({
            let s = SenderView { pos, phase: Phase::Writing };
            &&& run(plan, s, 1) == SenderView { pos, phase: Phase::Flushing }
            &&& run(plan, s, 2) == if plan.repeat {
                SenderView::start()
            } else {
                SenderView { pos: plan.limit(), phase: Phase::Finished }
            }
            &&& delivered(plan, s, 2) == plan.payload.subrange(pos as int, plan.limit() as int)
            &&& paused(plan, s, 2) == 0
        }),
{
    let s = SenderView { pos, phase: Phase::Writing };
    reveal_with_fuel(run, 3);
    reveal_with_fuel(delivered, 3);
    reveal_with_fuel(paused, 3);
    assert(delivered(plan, s, 2) =~= plan.payload.subrange(pos as int, plan.limit() as int));
}

/// Chunk number `i` of the first pass is written after `3 * i` actions. By
/// then the connection has received the payload up to where that chunk
/// starts, and the sender has paused `i` times for the plan's interval.
pub proof fn lemma_nth_chunk(plan: PlanView, i: nat)
    requires
        plan.wf(),
        i < plan.chunk_count(),
    ensures
        run(plan, SenderView::start(), 3 * i) == (SenderView {
            pos: plan.chunk_start(i),
            phase: Phase::Writing,
        }),
        delivered(plan, SenderView::start(), 3 * i) == plan.payload.subrange(
            0,
            plan.chunk_start(i) as int,
        ),
        paused(plan, SenderView::start(), 3 * i) == i * plan.interval,
    decreases i,
{
    let start = SenderView::start();
    if i == 0 {
        plan.lemma_chunk_start(0);
        assert(delivered(plan, start, 0) =~= plan.payload.subrange(0, 0));
        assert(0 * plan.interval == 0) by (nonlinear_arith);
    } else {
        let h = (i - 1) as nat;
        lemma_nth_chunk(plan, h);
        plan.lemma_chunk_start(h);
        let pos = plan.chunk_start(h);
        lemma_chunk_cycle(plan, pos);
        lemma_run_split(plan, start, 3 * h, 3);
        assert(3 * h + 3 == 3 * i);
        assert(i * plan.interval == h * plan.interval + plan.interval) by (nonlinear_arith)
            requires
                i == h + 1,
        ;
        assert(delivered(plan, start, 3 * i) =~= plan.payload.subrange(
            0,
            plan.chunk_start(i) as int,
        ));
    }
}

/// One pass, from its first action to its last, delivers the bytes of the
/// pass, all of them, in their order, and nothing else. It holds one pause of
/// the plan's interval between each chunk and the next, and no other. It
/// leaves a sender that repeats at the start of the next pass and one that
/// does not at the end.
pub proof fn lemma_pass(plan: PlanView)
    requires
        plan.wf(),
    ensures
        delivered(plan, SenderView::start(), pass_actions(plan)) == plan.pass(),
        paused(plan, SenderView::start(), pass_actions(plan)) == (plan.chunk_count() - 1)
            * plan.interval,
        run(plan, SenderView::start(), pass_actions(plan)) == if plan.repeat {
            SenderView::start()
        } else {
            SenderView { pos: plan.limit(), phase: Phase::Finished }
        },
{
    let start = SenderView::start();
    let h = (plan.chunk_count() - 1) as nat;
    lemma_nth_chunk(plan, h);
    plan.lemma_chunk_start(h);
    lemma_last_chunk(plan, plan.chunk_start(h));
    lemma_run_split(plan, start, 3 * h, 2);
    assert(3 * h + 2 == pass_actions(plan));
    assert(delivered(plan, start, pass_actions(plan)) =~= plan.pass());
}

/// Once a sender has finished or given up, it stays as it is and nothing
/// more is delivered, whatever is reported to it.
pub proof fn lemma_end_is_final(plan: PlanView, s: SenderView, n: nat)
    requires
        s.phase is Finished || s.phase is Failed,
    ensures
        run(plan, s, n) == s,
        delivered(plan, s, n) == Seq::<u8>::empty(),
        forall|outcome: Outcome| s.step(plan, outcome) == s,
    decreases n,
{
    if n > 0 {
        lemma_end_is_final(plan, s, (n - 1) as nat);
        assert(delivered(plan, s, n) =~= Seq::<u8>::empty());
    }
}

/// A sender that does not repeat delivers the pass once and stops: from the
/// last action of the pass on, whatever the number of actions, the connection
/// has received exactly the bytes of the pass.
pub proof fn lemma_single_pass(plan: PlanView, n: nat)
    requires
        plan.wf(),
        !plan.repeat,
        n >= pass_actions(plan),
    ensures
        run(plan, SenderView::start(), n) == (SenderView {
            pos: plan.limit(),
            phase: Phase::Finished,
        }),
        delivered(plan, SenderView::start(), n) == plan.pass(),
        delivered(plan, SenderView::start(), n).len() == plan.limit(),
{
    let start = SenderView::start();
    let p = pass_actions(plan);
    lemma_pass(plan);
    lemma_run_split(plan, start, p, (n - p) as nat);
    lemma_end_is_final(plan, run(plan, start, p), (n - p) as nat);
    assert(delivered(plan, start, n) =~= plan.pass());
}

/// Where the cap is set and smaller than the payload, a sender that does not
/// repeat delivers as many bytes as the cap says, not the whole payload.
pub proof fn lemma_capped_pass(plan: PlanView, cap: nat)
    requires
        plan.wf(),
        !plan.repeat,
        plan.max_bytes == Some(cap),
        cap < plan.payload.len(),
    ensures
        delivered(plan, SenderView::start(), pass_actions(plan)) == plan.payload.subrange(
            0,
            cap as int,
        ),
        delivered(plan, SenderView::start(), pass_actions(plan)).len() == cap,
{
    lemma_single_pass(plan, pass_actions(plan));
}

/// A sender that repeats is, after `j` passes, at the start of the next one,
/// and the connection has received the bytes of the pass `j` times over.
pub proof fn lemma_repeated_passes(plan: PlanView, j: nat)
    requires
        plan.wf(),
        plan.repeat,
    ensures
        run(plan, SenderView::start(), j * pass_actions(plan)) == SenderView::start(),
        delivered(plan, SenderView::start(), j * pass_actions(plan)) == cycles(plan.pass(), j),
    decreases j,
{
    let start = SenderView::start();
    let p = pass_actions(plan);
    if j == 0 {
        assert(0 * p == 0) by (nonlinear_arith);
    } else {
        let h = (j - 1) as nat;
        lemma_repeated_passes(plan, h);
        lemma_pass(plan);
        assert(j * p == h * p + p) by (nonlinear_arith)
            requires
                j == h + 1,
        ;
        lemma_run_split(plan, start, h * p, p);
    }
}

/// While every action completes, a sender never gives the connection up,
/// and one that repeats never finishes.
pub proof fn lemma_run_goes_on(plan: PlanView, n: nat)
    requires
        plan.wf(),
    ensures
        !(run(plan, SenderView::start(), n).phase is Failed),
        plan.repeat ==> !(run(plan, SenderView::start(), n).phase is Finished),
    decreases n,
{
    if n > 0 {
        lemma_run_goes_on(plan, (n - 1) as nat);
    }
}

/// At every moment of a run, what the connection has received is the pass,
/// some number of times over, followed by the part of the pass served so
/// far. Without repetition that number is zero.
pub proof fn lemma_stream_shape(plan: PlanView, n: nat) -> (j: nat)
    requires
        plan.wf(),
    ensures
        delivered(plan, SenderView::start(), n) == cycles(plan.pass(), j) + plan.pass().subrange(
            0,
            served(plan, run(plan, SenderView::start(), n)) as int,
        ),
        served(plan, run(plan, SenderView::start(), n)) <= plan.limit(),
        !plan.repeat ==> j == 0,
    decreases n,
{
    let start = SenderView::start();
    let pass = plan.pass();
    if n == 0 {
        assert(delivered(plan, start, 0) =~= cycles(pass, 0) + pass.subrange(0, 0));
        0
    } else {
        let m = (n - 1) as nat;
        let j = lemma_stream_shape(plan, m);
        lemma_run_goes_on(plan, m);
        lemma_run_wf(plan, start, m);
        let s = run(plan, start, m);
        let t = run(plan, start, n);
        let before = served(plan, s) as int;
        let after = served(plan, t) as int;
        if s.phase is Flushing && plan.is_last(s.pos) && plan.repeat {
            assert(pass.subrange(0, before) =~= pass);
            assert(delivered(plan, start, n) =~= cycles(pass, j + 1) + pass.subrange(0, after));
            j + 1
        } else {
            assert(delivered(plan, start, n) =~= cycles(pass, j) + pass.subrange(0, after));
            j
        }
    }
}

/// `p` repeated `j` times holds `j` times the bytes of `p`, and its byte at
/// index `x` is the byte of `p` at the remainder of `x` by the length of `p`.
pub proof fn lemma_cycles(p: Seq<u8>, j: nat, x: int)
    ensures
        cycles(p, j).len() == j * p.len(),
        0 <= x < cycles(p, j).len() ==> p.len() > 0 && 0 <= x % (p.len() as int) < p.len()
            && cycles(p, j)[x] == p[x % (p.len() as int)],
    decreases j,
{
    let len = p.len() as int;
    if j == 0 {
        assert(0 * len == 0) by (nonlinear_arith);
    } else {
        let h = (j - 1) as nat;
        lemma_cycles(p, h, x);
        assert(j * len == h * len + len) by (nonlinear_arith)
            requires
                j == h + 1,
        ;
        if h * len <= x < j * len {
            lemma_fundamental_div_mod_converse(x, len, h as int, x - h * len);
        }
    }
}

/// Every byte that the connection receives is the byte of the payload at
/// the remainder of its place in the stream by the length of the pass: the
/// payload's bytes in their order and, where the plan repeats, again from
/// the start after each pass.
pub proof fn lemma_stream_byte(plan: PlanView, n: nat, x: int)
    requires
        plan.wf(),
        0 <= x < delivered(plan, SenderView::start(), n).len(),
    ensures
        plan.limit() > 0,
        0 <= x % (plan.limit() as int) < plan.limit(),
        delivered(plan, SenderView::start(), n)[x] == plan.payload[x % (plan.limit() as int)],
        !plan.repeat ==> x < plan.limit(),
{
    let pass = plan.pass();
    let len = pass.len() as int;
    let j = lemma_stream_shape(plan, n);
    lemma_cycles(pass, j, x);
    if x >= cycles(pass, j).len() {
        lemma_fundamental_div_mod_converse(x, len, j as int, x - j * len);
    }
}

/// A write that fails costs its chunk and nothing else: the sender goes on
/// from where a completed write and a completed flush would have left it.
pub proof fn lemma_failed_write_keeps_pace(plan: PlanView, s: SenderView)
    requires
        s.phase is Writing,
    ensures
        s.step(plan, Outcome::Failed) == s.step(plan, Outcome::Completed).step(
            plan,
            Outcome::Completed,
        ),
{
}

} // verus!
