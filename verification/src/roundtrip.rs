//! Decoding optimized instructions back to raw tokens, and the
//! idempotence of the folding pass over what it emits.

use vstd::prelude::*;

use crate::command::Command;
use crate::command_opt::CommandOpt;
use crate::command_opt::OptSt;
use crate::command_opt::ParseError;
use crate::command_opt::Pending;
use crate::command_opt::ch_val_spec;
use crate::command_opt::close_spec;
use crate::command_opt::emit_spec;
use crate::command_opt::feed_spec;
use crate::command_opt::flush;
use crate::command_opt::open_spec;
use crate::command_opt::opt_init;
use crate::command_opt::opt_run;
use crate::command_opt::optimize_spec;
use crate::command_opt::nested;
use crate::command_opt::nested_at;

verus! {

/// The raw token run that one optimized instruction denotes: a signed
/// head move becomes that many single moves, a cell delta that many
/// increments, and the two folded loop idioms become the shortest
/// loops that fold back to them.
pub open spec fn decode_instr(c: CommandOpt) -> Seq<Command> {
    match c {
        CommandOpt::ChPtr(d) => {
            if d >= 0 {
                Seq::new(d as nat, |i: int| Command::IncPtr)
            } else {
                Seq::new((-(d as int)) as nat, |i: int| Command::DecPtr)
            }
        },
        CommandOpt::ChVal(v) => Seq::new(v as nat, |i: int| Command::IncVal),
        CommandOpt::PutChar => seq![Command::PutChar],
        CommandOpt::GetChar => seq![Command::GetChar],
        CommandOpt::Zero => seq![Command::OpenBr, Command::DecVal, Command::CloseBr],
        CommandOpt::LoopForever => seq![
            Command::OpenBr,
            Command::DecVal,
            Command::DecVal,
            Command::CloseBr,
        ],
        CommandOpt::OpenBr(_) => seq![Command::OpenBr],
        CommandOpt::CloseBr(_) => seq![Command::CloseBr],
    }
}

/// The raw token sequence that a whole instruction stream denotes.
pub open spec fn decode(p: Seq<CommandOpt>) -> Seq<Command>
    decreases p.len(),
{
    if p.len() == 0 {
        Seq::empty()
    } else {
        decode(p.drop_last()) + decode_instr(p.last())
    }
}

/// An instruction that the optimizer accumulates rather than emits
/// directly.
pub open spec fn fold_kind(c: CommandOpt) -> bool {
    c matches CommandOpt::ChPtr(_) || c matches CommandOpt::ChVal(_)
}

/// The stream carries no zero-delta instruction and never two
/// adjacent instructions of the same accumulating kind: exactly the
/// shape in which one optimizer pass emits folded runs.
pub open spec fn canonical(p: Seq<CommandOpt>) -> bool {
    forall|i: int| 0 <= i < p.len() ==> #[trigger] canonical_at(p, i)
}

/// The canonical-form condition at one index.
pub open spec fn canonical_at(p: Seq<CommandOpt>, i: int) -> bool {
    match p[i] {
        CommandOpt::ChPtr(d) => d != 0 && (i + 1 < p.len() ==> !(p[i + 1] matches CommandOpt::ChPtr(
            _,
        ))),
        CommandOpt::ChVal(v) => v != 0 && (i + 1 < p.len() ==> !(p[i + 1] matches CommandOpt::ChVal(
            _,
        ))) && !(0 <= i - 1 && i + 1 < p.len() && (p[i - 1] matches CommandOpt::OpenBr(_)) && (p[i
            + 1] matches CommandOpt::CloseBr(_))),
        _ => true,
    }
}

/// Decide canonical form. The optimizer's own output is not always
/// canonical: a run whose delta is a nonzero multiple of 256 folds to
/// a zero-delta cell instruction, and a skipped zero-delta run can
/// leave two runs of one kind adjacent, or a bare value run as a loop
/// body; this check tells those streams apart from the ones the
/// round-trip law covers.
pub fn is_canonical(p: &Vec<CommandOpt>) -> (r: bool)
    ensures
        r == canonical(p@),
{
    let n = p.len();
    let mut i: usize = 0;
    while i < n
        invariant
            i <= n,
            n == p@.len(),
            forall|k: int| 0 <= k < i ==> #[trigger] canonical_at(p@, k),
        decreases n - i,
    {
        let ok: bool = match p[i] {
            CommandOpt::ChPtr(d) => d != 0 && (i + 1 >= n || !(matches!(
                p[i + 1],
                CommandOpt::ChPtr(_),
            ))),
            CommandOpt::ChVal(v) => v != 0 && (i + 1 >= n || !(matches!(
                p[i + 1],
                CommandOpt::ChVal(_),
            ))) && !(i >= 1 && i + 1 < n && matches!(p[i - 1], CommandOpt::OpenBr(_)) && matches!(
                p[i + 1],
                CommandOpt::CloseBr(_),
            )),
            _ => true,
        };
        if !ok {
            proof {
                assert(!canonical_at(p@, i as int));
            }
            return false;
        }
        proof {
            assert(canonical_at(p@, i as int));
        }
        i = i + 1;
    }
    true
}

/// The optimizer continued from a mid-pass state.
pub open spec fn opt_run_from(st: OptSt, ts: Seq<Command>) -> Result<OptSt, ParseError>
    decreases ts.len(),
{
    if ts.len() == 0 {
        Ok(st)
    } else {
        match opt_run_from(st, ts.drop_last()) {
            Ok(s) => feed_spec(s, ts.last()),
            Err(e) => Err(e),
        }
    }
}

/// A whole run is a run from the initial state.
proof fn lemma_opt_run_is_from(ts: Seq<Command>)
    ensures
        opt_run(ts) == opt_run_from(opt_init(), ts),
    decreases ts.len(),
{
    if ts.len() > 0 {
        lemma_opt_run_is_from(ts.drop_last());
    }
}

/// Runs compose over concatenation.
proof fn lemma_opt_run_from_concat(st: OptSt, a: Seq<Command>, b: Seq<Command>)
    ensures
        opt_run_from(st, a + b) == (match opt_run_from(st, a) {
            Ok(s) => opt_run_from(s, b),
            Err(e) => Err::<OptSt, ParseError>(e),
        }),
    decreases b.len(),
{
    if b.len() == 0 {
        assert(a + b =~= a);
    } else {
        lemma_opt_run_from_concat(st, a, b.drop_last());
        assert((a + b).drop_last() =~= a + b.drop_last());
        assert((a + b).last() == b.last());
    }
}

/// Feeding a run of `IncPtr` onto a pending pointer run accumulates.
proof fn lemma_run_inc_ptr(st: OptSt, k: nat)
    requires
        st.pending matches Pending::Ptr(_),
    ensures
        opt_run_from(st, Seq::new(k, |i: int| Command::IncPtr)) == Ok::<OptSt, ParseError>(
            OptSt { pending: Pending::Ptr(st.pending->Ptr_0 + k), stack: st.stack, out: st.out },
        ),
    decreases k,
{
    let ts = Seq::new(k, |i: int| Command::IncPtr);
    if k == 0 {
        assert(OptSt { pending: Pending::Ptr(st.pending->Ptr_0 + 0), stack: st.stack, out: st.out }
            =~= st);
    } else {
        lemma_run_inc_ptr(st, (k - 1) as nat);
        assert(ts.drop_last() =~= Seq::new((k - 1) as nat, |i: int| Command::IncPtr));
        assert(ts.last() == Command::IncPtr);
    }
}

/// Feeding a run of `DecPtr` onto a pending pointer run accumulates.
proof fn lemma_run_dec_ptr(st: OptSt, k: nat)
    requires
        st.pending matches Pending::Ptr(_),
    ensures
        opt_run_from(st, Seq::new(k, |i: int| Command::DecPtr)) == Ok::<OptSt, ParseError>(
            OptSt { pending: Pending::Ptr(st.pending->Ptr_0 - k), stack: st.stack, out: st.out },
        ),
    decreases k,
{
    let ts = Seq::new(k, |i: int| Command::DecPtr);
    if k == 0 {
        assert(OptSt { pending: Pending::Ptr(st.pending->Ptr_0 - 0), stack: st.stack, out: st.out }
            =~= st);
    } else {
        lemma_run_dec_ptr(st, (k - 1) as nat);
        assert(ts.drop_last() =~= Seq::new((k - 1) as nat, |i: int| Command::DecPtr));
        assert(ts.last() == Command::DecPtr);
    }
}

/// Feeding a run of `IncVal` onto a pending value run accumulates.
proof fn lemma_run_inc_val(st: OptSt, k: nat)
    requires
        st.pending matches Pending::Val(_),
    ensures
        opt_run_from(st, Seq::new(k, |i: int| Command::IncVal)) == Ok::<OptSt, ParseError>(
            OptSt { pending: Pending::Val(st.pending->Val_0 + k), stack: st.stack, out: st.out },
        ),
    decreases k,
{
    let ts = Seq::new(k, |i: int| Command::IncVal);
    if k == 0 {
        assert(OptSt { pending: Pending::Val(st.pending->Val_0 + 0), stack: st.stack, out: st.out }
            =~= st);
    } else {
        lemma_run_inc_val(st, (k - 1) as nat);
        assert(ts.drop_last() =~= Seq::new((k - 1) as nat, |i: int| Command::IncVal));
        assert(ts.last() == Command::IncVal);
    }
}

/// The pending accumulator that one instruction leaves behind.
pub open spec fn pend_of(c: CommandOpt) -> Pending {
    match c {
        CommandOpt::ChPtr(d) => Pending::Ptr(d as int),
        CommandOpt::ChVal(v) => Pending::Val(v as int),
        _ => Pending::Idle,
    }
}

/// The first `j` instructions, with every open bracket still live at
/// position `i` reset to its placeholder form.
pub open spec fn unres(p: Seq<CommandOpt>, j: int, i: int) -> Seq<CommandOpt> {
    Seq::new(
        j as nat,
        |k: int|
            match p[k] {
                CommandOpt::OpenBr(t) => {
                    if t as int > i {
                        CommandOpt::OpenBr(0usize)
                    } else {
                        p[k]
                    }
                },
                _ => p[k],
            },
    )
}

/// The optimizer state reached after re-feeding the decoding of the
/// first `i` instructions of a resolved canonical stream: the first
/// `i` instructions stand re-emitted — still-open brackets as
/// placeholders, recorded on the stack — except that a trailing
/// accumulating instruction is still pending.
pub open spec fn sim_state(p: Seq<CommandOpt>, i: int) -> OptSt {
    if i > 0 && fold_kind(p[i - 1]) {
        OptSt { pending: pend_of(p[i - 1]), stack: lives(p, i, i), out: unres(p, i - 1, i) }
    } else {
        OptSt { pending: Pending::Idle, stack: lives(p, i, i), out: unres(p, i, i) }
    }
}

/// Flushing the simulation state emits exactly the instructions fed
/// so far.
proof fn lemma_sim_flush(p: Seq<CommandOpt>, i: int)
    requires
        canonical(p),
        0 <= i <= p.len(),
    ensures
        flush(sim_state(p, i)).out =~= unres(p, i, i),
        flush(sim_state(p, i)).stack == lives(p, i, i),
        flush(sim_state(p, i)).pending == Pending::Idle,
{
    if i > 0 && fold_kind(p[i - 1]) {
        assert(canonical_at(p, i - 1));
        match p[i - 1] {
            CommandOpt::ChPtr(d) => {
                assert(d != 0);
                assert(CommandOpt::ChPtr((d as int) as isize) == p[i - 1]);
            },
            CommandOpt::ChVal(v) => {
                assert(v != 0);
                assert((v as int) % 256 == v as int);
                assert(CommandOpt::ChVal(((v as int) % 256) as u8) == p[i - 1]);
            },
            _ => {},
        }
        assert(flush(sim_state(p, i)).out =~= unres(p, i - 1, i).push(p[i - 1]));
        assert(unres(p, i - 1, i).push(p[i - 1]) =~= unres(p, i, i));
    }
}

/// Consuming the decoding of one accumulating pointer instruction
/// from a state with no pointer run pending: the old accumulator is
/// flushed and the move becomes the new pending run.
proof fn lemma_run_chptr(s0: OptSt, d: isize)
    requires
        !(s0.pending matches Pending::Ptr(_)),
        d != 0,
    ensures
        opt_run_from(s0, decode_instr(CommandOpt::ChPtr(d))) == Ok::<OptSt, ParseError>(
            OptSt { pending: Pending::Ptr(d as int), stack: flush(s0).stack, out: flush(s0).out },
        ),
{
    let f0 = flush(s0);
    let ts = decode_instr(CommandOpt::ChPtr(d));
    if d >= 0 {
        let first = Seq::new(1nat, |j: int| Command::IncPtr);
        let rest = Seq::new((d - 1) as nat, |j: int| Command::IncPtr);
        assert(ts =~= first + rest);
        lemma_opt_run_from_concat(s0, first, rest);
        assert(first.drop_last() =~= Seq::<Command>::empty());
        assert(first.last() == Command::IncPtr);
        assert(opt_run_from(s0, first.drop_last()) == Ok::<OptSt, ParseError>(s0));
        let s1 = OptSt { pending: Pending::Ptr(1), stack: f0.stack, out: f0.out };
        assert(opt_run_from(s0, first) == Ok::<OptSt, ParseError>(s1));
        lemma_run_inc_ptr(s1, (d - 1) as nat);
        assert(OptSt { pending: Pending::Ptr(1 + (d - 1)), stack: s1.stack, out: s1.out } =~= OptSt {
            pending: Pending::Ptr(d as int),
            stack: f0.stack,
            out: f0.out,
        });
    } else {
        let k = -(d as int);
        let first = Seq::new(1nat, |j: int| Command::DecPtr);
        let rest = Seq::new((k - 1) as nat, |j: int| Command::DecPtr);
        assert(ts =~= first + rest);
        lemma_opt_run_from_concat(s0, first, rest);
        assert(first.drop_last() =~= Seq::<Command>::empty());
        assert(first.last() == Command::DecPtr);
        assert(opt_run_from(s0, first.drop_last()) == Ok::<OptSt, ParseError>(s0));
        let s1 = OptSt { pending: Pending::Ptr(-1), stack: f0.stack, out: f0.out };
        assert(opt_run_from(s0, first) == Ok::<OptSt, ParseError>(s1));
        lemma_run_dec_ptr(s1, (k - 1) as nat);
        assert(OptSt { pending: Pending::Ptr(-1 - (k - 1)), stack: s1.stack, out: s1.out } =~= OptSt {
            pending: Pending::Ptr(d as int),
            stack: f0.stack,
            out: f0.out,
        });
    }
}

/// Consuming the decoding of one accumulating value instruction from
/// a state with no value run pending.
proof fn lemma_run_chval(s0: OptSt, v: u8)
    requires
        !(s0.pending matches Pending::Val(_)),
        v != 0,
    ensures
        opt_run_from(s0, decode_instr(CommandOpt::ChVal(v))) == Ok::<OptSt, ParseError>(
            OptSt { pending: Pending::Val(v as int), stack: flush(s0).stack, out: flush(s0).out },
        ),
{
    let f0 = flush(s0);
    let ts = decode_instr(CommandOpt::ChVal(v));
    let first = Seq::new(1nat, |j: int| Command::IncVal);
    let rest = Seq::new((v - 1) as nat, |j: int| Command::IncVal);
    assert(ts =~= first + rest);
    lemma_opt_run_from_concat(s0, first, rest);
    assert(first.drop_last() =~= Seq::<Command>::empty());
    assert(first.last() == Command::IncVal);
    assert(opt_run_from(s0, first.drop_last()) == Ok::<OptSt, ParseError>(s0));
    let s1 = OptSt { pending: Pending::Val(1), stack: f0.stack, out: f0.out };
    assert(opt_run_from(s0, first) == Ok::<OptSt, ParseError>(s1));
    lemma_run_inc_val(s1, (v - 1) as nat);
    assert(OptSt { pending: Pending::Val(1 + (v - 1)), stack: s1.stack, out: s1.out } =~= OptSt {
        pending: Pending::Val(v as int),
        stack: f0.stack,
        out: f0.out,
    });
}

/// Consuming the decoding of a zero-and-exit idiom re-folds it.
proof fn lemma_run_zero(s0: OptSt)
    ensures
        opt_run_from(s0, decode_instr(CommandOpt::Zero)) == Ok::<OptSt, ParseError>(
            OptSt {
                pending: Pending::Idle,
                stack: flush(s0).stack,
                out: flush(s0).out.push(CommandOpt::Zero),
            },
        ),
{
    let f0 = flush(s0);
    let ts = decode_instr(CommandOpt::Zero);
    assert(ts.drop_last() =~= seq![Command::OpenBr, Command::DecVal]);
    assert(ts.drop_last().drop_last() =~= seq![Command::OpenBr]);
    assert(ts.drop_last().drop_last().drop_last() =~= Seq::<Command>::empty());
    let s1 = open_spec(s0);
    let s2 = ch_val_spec(s1, -1);
    assert(opt_run_from(s0, ts.drop_last().drop_last().drop_last()) == Ok::<OptSt, ParseError>(s0));
    assert(opt_run_from(s0, ts.drop_last().drop_last()) == Ok::<OptSt, ParseError>(s1));
    assert(opt_run_from(s0, ts.drop_last()) == Ok::<OptSt, ParseError>(s2));
    assert(opt_run_from(s0, ts) == close_spec(s2));
    assert((-1int) % 2 == 1);
    let s3 = close_spec(s2)->Ok_0;
    assert(s3.stack =~= f0.stack);
    assert(s3.out =~= f0.out.push(CommandOpt::Zero));
    assert(s3 =~= OptSt {
        pending: Pending::Idle,
        stack: f0.stack,
        out: f0.out.push(CommandOpt::Zero),
    });
}

/// Consuming the decoding of an infinite-loop idiom re-folds it.
proof fn lemma_run_loop_forever(s0: OptSt)
    ensures
        opt_run_from(s0, decode_instr(CommandOpt::LoopForever)) == Ok::<OptSt, ParseError>(
            OptSt {
                pending: Pending::Idle,
                stack: flush(s0).stack,
                out: flush(s0).out.push(CommandOpt::LoopForever),
            },
        ),
{
    let f0 = flush(s0);
    let ts = decode_instr(CommandOpt::LoopForever);
    assert(ts.drop_last() =~= seq![Command::OpenBr, Command::DecVal, Command::DecVal]);
    assert(ts.drop_last().drop_last() =~= seq![Command::OpenBr, Command::DecVal]);
    assert(ts.drop_last().drop_last().drop_last() =~= seq![Command::OpenBr]);
    assert(ts.drop_last().drop_last().drop_last().drop_last() =~= Seq::<Command>::empty());
    let s1 = open_spec(s0);
    let s2 = ch_val_spec(s1, -1);
    let s3 = ch_val_spec(s2, -1);
    assert(opt_run_from(s0, ts.drop_last().drop_last().drop_last().drop_last()) == Ok::<
        OptSt,
        ParseError,
    >(s0));
    assert(opt_run_from(s0, ts.drop_last().drop_last().drop_last()) == Ok::<OptSt, ParseError>(s1));
    assert(opt_run_from(s0, ts.drop_last().drop_last()) == Ok::<OptSt, ParseError>(s2));
    assert(opt_run_from(s0, ts.drop_last()) == Ok::<OptSt, ParseError>(s3));
    assert(opt_run_from(s0, ts) == close_spec(s3));
    assert((-2int) % 2 == 0);
    let s4 = close_spec(s3)->Ok_0;
    assert(s4.stack =~= f0.stack);
    assert(s4.out =~= f0.out.push(CommandOpt::LoopForever));
    assert(s4 =~= OptSt {
        pending: Pending::Idle,
        stack: f0.stack,
        out: f0.out.push(CommandOpt::LoopForever),
    });
}

/// Consuming the decoding of an output or input instruction re-emits
/// it.
proof fn lemma_run_io(s0: OptSt, c: CommandOpt)
    requires
        c == CommandOpt::PutChar || c == CommandOpt::GetChar,
    ensures
        opt_run_from(s0, decode_instr(c)) == Ok::<OptSt, ParseError>(
            OptSt { pending: Pending::Idle, stack: flush(s0).stack, out: flush(s0).out.push(c) },
        ),
{
    let ts = decode_instr(c);
    assert(ts.drop_last() =~= Seq::<Command>::empty());
    assert(opt_run_from(s0, ts.drop_last()) == Ok::<OptSt, ParseError>(s0));
    assert(opt_run_from(s0, ts) == Ok::<OptSt, ParseError>(emit_spec(s0, c)));
}

/// When the instruction at `i` is not a close bracket, the
/// re-emitted prefix is insensitive to moving from `i` to `i + 1`.
proof fn lemma_unres_shift(p: Seq<CommandOpt>, j: int, i: int)
    requires
        crate::command_opt::resolved(p),
        0 <= i < p.len(),
        !(p[i] matches CommandOpt::CloseBr(_)),
        0 <= j <= i + 1,
    ensures
        unres(p, j, i + 1) == unres(p, j, i),
{
    assert forall|k: int| 0 <= k < j implies unres(p, j, i + 1)[k] == unres(p, j, i)[k] by {
        if p[k] is OpenBr {
            let t = p[k]->OpenBr_0;
            assert(crate::command_opt::resolved_at(p, k));
            if t as int == i + 1 {
                assert(p[i] matches CommandOpt::CloseBr(_));
            }
        }
    };
    assert(unres(p, j, i + 1) =~= unres(p, j, i));
}

/// Re-feeding the decoding of the first `i` instructions lands in the
/// simulation state.
#[verifier::rlimit(60)]
proof fn lemma_sim(p: Seq<CommandOpt>, i: int)
    requires
        crate::command_opt::resolved(p),
        nested(p),
        canonical(p),
        p.len() <= usize::MAX,
        0 <= i <= p.len(),
    ensures
        opt_run_from(opt_init(), decode(p.take(i))) == Ok::<OptSt, ParseError>(sim_state(p, i)),
    decreases i,
{
    if i == 0 {
        assert(decode(p.take(0)) =~= Seq::<Command>::empty());
        assert(unres(p, 0, 0) =~= Seq::<CommandOpt>::empty());
        assert(sim_state(p, 0) =~= opt_init());
    } else {
        lemma_sim(p, i - 1);
        let s0 = sim_state(p, i - 1);
        let c = p[i - 1];
        assert(p.take(i).drop_last() =~= p.take(i - 1));
        assert(p.take(i).last() == c);
        assert(decode(p.take(i)) == decode(p.take(i - 1)) + decode_instr(c));
        lemma_opt_run_from_concat(opt_init(), decode(p.take(i - 1)), decode_instr(c));
        assert(canonical_at(p, i - 1));
        lemma_sim_flush(p, i - 1);
        let f0 = flush(s0);
        // with no two adjacent runs of one kind, the pending
        // accumulator never matches the incoming instruction's kind
        assert(i - 2 >= 0 && fold_kind(p[i - 2]) ==> canonical_at(p, i - 2));
        match c {
            CommandOpt::ChPtr(d) => {
                assert(!(s0.pending matches Pending::Ptr(_)));
                lemma_run_chptr(s0, d);
                lemma_lives_shift(p, i - 1, i - 1);
                lemma_unres_shift(p, i - 1, i - 1);
                assert(lives(p, i, i) == lives(p, i, i - 1));
                assert(OptSt { pending: Pending::Ptr(d as int), stack: f0.stack, out: f0.out } =~=
                    sim_state(p, i));
            },
            CommandOpt::ChVal(v) => {
                assert(!(s0.pending matches Pending::Val(_)));
                lemma_run_chval(s0, v);
                lemma_lives_shift(p, i - 1, i - 1);
                lemma_unres_shift(p, i - 1, i - 1);
                assert(lives(p, i, i) == lives(p, i, i - 1));
                assert(OptSt { pending: Pending::Val(v as int), stack: f0.stack, out: f0.out } =~=
                    sim_state(p, i));
            },
            CommandOpt::PutChar => {
                lemma_run_io(s0, c);
                lemma_lives_shift(p, i - 1, i - 1);
                lemma_unres_shift(p, i - 1, i - 1);
                assert(lives(p, i, i) == lives(p, i, i - 1));
                assert(unres(p, i - 1, i).push(c) =~= unres(p, i, i));
                assert(OptSt { pending: Pending::Idle, stack: f0.stack, out: f0.out.push(c) } =~=
                    sim_state(p, i));
            },
            CommandOpt::GetChar => {
                lemma_run_io(s0, c);
                lemma_lives_shift(p, i - 1, i - 1);
                lemma_unres_shift(p, i - 1, i - 1);
                assert(lives(p, i, i) == lives(p, i, i - 1));
                assert(unres(p, i - 1, i).push(c) =~= unres(p, i, i));
                assert(OptSt { pending: Pending::Idle, stack: f0.stack, out: f0.out.push(c) } =~=
                    sim_state(p, i));
            },
            CommandOpt::Zero => {
                lemma_run_zero(s0);
                lemma_lives_shift(p, i - 1, i - 1);
                lemma_unres_shift(p, i - 1, i - 1);
                assert(lives(p, i, i) == lives(p, i, i - 1));
                assert(unres(p, i - 1, i).push(c) =~= unres(p, i, i));
                assert(OptSt { pending: Pending::Idle, stack: f0.stack, out: f0.out.push(c) } =~=
                    sim_state(p, i));
            },
            CommandOpt::LoopForever => {
                lemma_run_loop_forever(s0);
                lemma_lives_shift(p, i - 1, i - 1);
                lemma_unres_shift(p, i - 1, i - 1);
                assert(lives(p, i, i) == lives(p, i, i - 1));
                assert(unres(p, i - 1, i).push(c) =~= unres(p, i, i));
                assert(OptSt { pending: Pending::Idle, stack: f0.stack, out: f0.out.push(c) } =~=
                    sim_state(p, i));
            },
            CommandOpt::OpenBr(_) => {
                let ts = decode_instr(c);
                assert(ts.drop_last() =~= Seq::<Command>::empty());
                assert(opt_run_from(s0, ts.drop_last()) == Ok::<OptSt, ParseError>(s0));
                assert(ts.last() == Command::OpenBr);
                assert(opt_run_from(s0, ts) == Ok::<OptSt, ParseError>(open_spec(s0)));
                let s1 = open_spec(s0);
                assert(crate::command_opt::resolved_at(p, i - 1));
                lemma_lives_shift(p, i - 1, i - 1);
                lemma_unres_shift(p, i - 1, i - 1);
                // this bracket's close lies beyond i, so it is live
                assert(lives(p, i, i) == lives(p, i, i - 1).push(i - 1));
                assert(f0.out.len() == i - 1);
                assert(s1.out =~= unres(p, i, i));
                assert(s1 =~= sim_state(p, i));
            },
            CommandOpt::CloseBr(tu) => {
                let u = tu as int;
                let ts = decode_instr(c);
                assert(ts.drop_last() =~= Seq::<Command>::empty());
                assert(opt_run_from(s0, ts.drop_last()) == Ok::<OptSt, ParseError>(s0));
                assert(ts.last() == Command::CloseBr);
                assert(opt_run_from(s0, ts) == close_spec(s0));
                assert(crate::command_opt::resolved_at(p, i - 1));
                assert(1 <= u <= i - 1);
                assert(p[u - 1] matches CommandOpt::OpenBr(t) && t as int == i);
                lemma_lives_shift_close(p, i - 1, i - 1);
                assert(s0.stack == lives(p, i - 1, u - 1).push(u - 1));
                assert(s0.stack.len() > 0);
                assert(s0.stack.last() == u - 1);
                // the peephole cannot fire: a live open just before a
                // pending value run would break nesting or canonical
                // form
                assert(match s0.pending {
                    Pending::Val(a) => !(a != 0 && s0.out.len() > 0 && (s0.out.last()
                        matches CommandOpt::OpenBr(_))),
                    _ => true,
                }) by {
                    if s0.pending matches Pending::Val(_) {
                        assert(i - 2 >= 0 && p[i - 2] matches CommandOpt::ChVal(_));
                        assert(s0.out == unres(p, i - 2, i - 1));
                        if s0.out.len() > 0 && (s0.out.last() matches CommandOpt::OpenBr(_)) {
                            let k = i - 3;
                            assert(k >= 0);
                            assert(unres(p, i - 2, i - 1)[k] matches CommandOpt::OpenBr(_));
                            assert(p[k] matches CommandOpt::OpenBr(_));
                            let t = p[k]->OpenBr_0;
                            assert(crate::command_opt::resolved_at(p, k));
                            if t as int == i - 1 {
                                assert(p[i - 2] matches CommandOpt::CloseBr(_));
                            } else if t as int == i {
                                // this open matches the close at i-1:
                                // the excluded open-value-close shape
                                assert(p[i - 1] == CommandOpt::CloseBr((k + 1) as usize));
                                assert(canonical_at(p, i - 2));
                            } else {
                                // a live open inside the pair breaks
                                // nesting, and between open and value
                                // run there is no room for another
                                assert(t as int > i);
                                if u - 1 < k {
                                    assert(nested_at(p, i - 1, k));
                                } else if u - 1 == k {
                                    assert(t as int == i);
                                } else {
                                    assert(u - 1 == i - 2);
                                    assert(p[u - 1] matches CommandOpt::OpenBr(_));
                                }
                            }
                            assert(false);
                        }
                    }
                };
                let res = close_spec(s0)->Ok_0;
                assert(f0.out.len() == i - 1);
                assert(res.out == f0.out.update(u - 1, CommandOpt::OpenBr(i as usize)).push(
                    CommandOpt::CloseBr(tu),
                ));
                assert forall|k: int| 0 <= k < i implies res.out[k] == unres(p, i, i)[k] by {
                    if k == i - 1 {
                        assert(res.out[k] == CommandOpt::CloseBr(tu));
                    } else if k == u - 1 {
                        assert(unres(p, i, i)[k] == p[u - 1]);
                    } else {
                        assert(res.out[k] == unres(p, i - 1, i - 1)[k]);
                        if p[k] is OpenBr {
                            let t2 = p[k]->OpenBr_0;
                            assert(crate::command_opt::resolved_at(p, k));
                            if t2 as int == i {
                                assert(p[i - 1] == CommandOpt::CloseBr((k + 1) as usize));
                                assert(k == u - 1);
                            }
                        }
                    }
                };
                assert(res.out =~= unres(p, i, i));
                assert(res.stack == lives(p, i - 1, u - 1));
                assert(lives(p, i, i) == lives(p, i, i - 1));
                assert(lives(p, i, i - 1) == lives(p, i - 1, u - 1));
                assert(res =~= sim_state(p, i));
            },
        }
    }
}

/// Folding is idempotent: re-optimizing the token decoding of a
/// resolved, properly nested, canonical instruction stream re-emits
/// exactly that stream. Canonical form — no zero-delta instruction,
/// no two adjacent runs of one kind, and no loop body left as a bare
/// value run — is essential: a decoded zero-delta run vanishes,
/// adjacent runs of one kind re-fuse, and a bare value-run loop body
/// re-folds into its idiom.
pub proof fn lemma_fold_idempotent(p: Seq<CommandOpt>)
    requires
        crate::command_opt::resolved(p),
        nested(p),
        canonical(p),
        p.len() <= usize::MAX,
    ensures
        optimize_spec(decode(p)) == Ok::<Seq<CommandOpt>, ParseError>(p),
{
    let n = p.len() as int;
    lemma_sim(p, n);
    assert(p.take(n) =~= p);
    lemma_opt_run_is_from(decode(p));
    lemma_sim_flush(p, n);
    let f = flush(sim_state(p, n));
    // past the end of the program nothing is live
    assert(f.stack =~= Seq::<int>::empty()) by {
        lemma_lives_mem(p, n, n);
        if lives(p, n, n).len() > 0 {
            let x = lives(p, n, n)[0];
            assert(lives(p, n, n).contains(x));
            assert(crate::command_opt::resolved_at(p, x));
        }
    };
    assert(f.out =~= p) by {
        assert forall|k: int| 0 <= k < n implies unres(p, n, n)[k] == p[k] by {
            if p[k] is OpenBr {
                assert(crate::command_opt::resolved_at(p, k));
            }
        };
    };
}

} // verus!

verus! {

/// The ascending indices below `m` of open brackets still live at
/// position `i`: those whose matching close lies at `i` or beyond.
pub open spec fn lives(p: Seq<CommandOpt>, i: int, m: int) -> Seq<int>
    decreases m,
{
    if m <= 0 {
        Seq::empty()
    } else {
        match p[m - 1] {
            CommandOpt::OpenBr(t) => {
                if t as int > i {
                    lives(p, i, m - 1).push(m - 1)
                } else {
                    lives(p, i, m - 1)
                }
            },
            _ => lives(p, i, m - 1),
        }
    }
}

/// Membership and order in `lives`: exactly the live open brackets
/// below `m`, in ascending order.
proof fn lemma_lives_mem(p: Seq<CommandOpt>, i: int, m: int)
    requires
        m >= 0,
    ensures
        forall|x: int|
            #[trigger] lives(p, i, m).contains(x) <==> (0 <= x < m && (p[x] matches
            CommandOpt::OpenBr(t) && t as int > i)),
        forall|k1: int, k2: int|
            0 <= k1 < k2 < lives(p, i, m).len() ==> lives(p, i, m)[k1] < lives(p, i, m)[k2],
        forall|k: int| 0 <= k < lives(p, i, m).len() ==> 0 <= #[trigger] lives(p, i, m)[k] < m,
    decreases m,
{
    if m > 0 {
        lemma_lives_mem(p, i, m - 1);
        let s0 = lives(p, i, m - 1);
        let s1 = lives(p, i, m);
        assert forall|x: int| #[trigger] s1.contains(x) implies (0 <= x < m && (p[x] matches
        CommandOpt::OpenBr(t) && t as int > i)) by {
            let k = choose|k: int| 0 <= k < s1.len() && s1[k] == x;
            if k < s0.len() {
                assert(s0[k] == x);
                assert(s0.contains(x));
            }
        };
        assert forall|x: int|
            0 <= x < m && (p[x] matches CommandOpt::OpenBr(t) && t as int > i) implies #[trigger] s1
            .contains(x) by {
            if x < m - 1 {
                assert(s0.contains(x));
                let k = choose|k: int| 0 <= k < s0.len() && s0[k] == x;
                assert(s1[k] == x);
            } else {
                assert(s1.last() == x);
            }
        };
    }
}

/// When the instruction at `i` is not a close bracket, liveness at
/// `i + 1` agrees with liveness at `i` below any point up to `i + 1`.
proof fn lemma_lives_shift(p: Seq<CommandOpt>, i: int, m: int)
    requires
        crate::command_opt::resolved(p),
        0 <= i < p.len(),
        !(p[i] matches CommandOpt::CloseBr(_)),
        0 <= m <= i + 1,
    ensures
        lives(p, i + 1, m) == lives(p, i, m),
    decreases m,
{
    if m > 0 {
        lemma_lives_shift(p, i, m - 1);
        if p[m - 1] is OpenBr {
            let t = p[m - 1]->OpenBr_0;
            assert(crate::command_opt::resolved_at(p, m - 1));
            // an open whose liveness changes right here would have
            // its close at i, which is no close bracket
            if t as int == i + 1 {
                assert(p[i] matches CommandOpt::CloseBr(_));
            }
        }
    }
}

/// When the instruction at `i` closes the pair opened at `u - 1`,
/// liveness below the matching open is unchanged, and between the
/// open and the close nothing is live.
proof fn lemma_lives_shift_close(p: Seq<CommandOpt>, i: int, m: int)
    requires
        crate::command_opt::resolved(p),
        nested(p),
        0 <= i < p.len(),
        p[i] matches CommandOpt::CloseBr(_),
        0 <= m <= i,
    ensures
        ({
            let u = p[i]->CloseBr_0 as int;
            &&& (m <= u - 1 ==> lives(p, i + 1, m) == lives(p, i, m))
            &&& (m > u - 1 ==> lives(p, i + 1, m) == lives(p, i, u - 1) && lives(p, i, m) == lives(
                p,
                i,
                u - 1,
            ).push(u - 1))
        }),
    decreases m,
{
    let u = p[i]->CloseBr_0 as int;
    assert(crate::command_opt::resolved_at(p, i));
    assert(p[u - 1] matches CommandOpt::OpenBr(t) && t as int == i + 1);
    if m > 0 {
        lemma_lives_shift_close(p, i, m - 1);
        if p[m - 1] is OpenBr {
            let t2 = p[m - 1]->OpenBr_0;
            assert(crate::command_opt::resolved_at(p, m - 1));
            if t2 as int == i + 1 && m - 1 != u - 1 {
                // two distinct opens cannot share the close at i
                assert(p[i] == CommandOpt::CloseBr((m - 1 + 1) as usize));
                assert(u == m);
                assert(false);
            }
            if m - 1 > u - 1 && t2 as int > i {
                // a live open strictly inside the pair breaks nesting
                assert(nested_at(p, i, m - 1));
                assert(false);
            }
        }
    }
}

/// An already-optimized stream in canonical form round-trips: what
/// one optimization pass emitted, decoded back to raw tokens and
/// optimized once more, comes back unchanged.
///
/// The canonical-form hypothesis cannot be dropped, because the
/// optimizer's output is not always canonical: a value run whose
/// delta is a nonzero multiple of 256 emits a zero-delta instruction
/// whose decoding vanishes, and a skipped zero-delta run can leave
/// two runs of one kind adjacent (they re-fuse) or a bare value run
/// as a loop body (it re-folds to an idiom). `is_canonical` decides
/// the hypothesis for any concrete stream.
pub proof fn lemma_optimized_roundtrip(ts: Seq<Command>, p: Seq<CommandOpt>)
    requires
        optimize_spec(ts) == Ok::<Seq<CommandOpt>, ParseError>(p),
        ts.len() <= isize::MAX as int,
        canonical(p),
    ensures
        optimize_spec(decode(p)) == Ok::<Seq<CommandOpt>, ParseError>(p),
{
    crate::command_opt::lemma_optimize_resolved(ts);
    crate::command_opt::lemma_optimize_nested(ts);
    lemma_fold_idempotent(p);
}

/// Decode one instruction back into its raw token run.
fn decode_instr_into(c: CommandOpt, out: &mut Vec<Command>)
    ensures
        final(out)@ == old(out)@ + decode_instr(c),
{
    match c {
        CommandOpt::ChPtr(d) => {
            if d >= 0 {
                let n: usize = d as usize;
                let mut i: usize = 0;
                while i < n
                    invariant
                        i <= n,
                        n == d as int,
                        out@ == old(out)@ + Seq::new(i as nat, |j: int| Command::IncPtr),
                    decreases n - i,
                {
                    out.push(Command::IncPtr);
                    proof {
                        assert(out@ =~= old(out)@ + Seq::new((i + 1) as nat, |j: int| Command::IncPtr));
                    }
                    i = i + 1;
                }
            } else {
                let n: usize = (-(d + 1)) as usize + 1;
                let mut i: usize = 0;
                while i < n
                    invariant
                        i <= n,
                        n == -(d as int),
                        out@ == old(out)@ + Seq::new(i as nat, |j: int| Command::DecPtr),
                    decreases n - i,
                {
                    out.push(Command::DecPtr);
                    proof {
                        assert(out@ =~= old(out)@ + Seq::new((i + 1) as nat, |j: int| Command::DecPtr));
                    }
                    i = i + 1;
                }
            }
        },
        CommandOpt::ChVal(v) => {
            let n: usize = v as usize;
            let mut i: usize = 0;
            while i < n
                invariant
                    i <= n,
                    n == v as int,
                    out@ == old(out)@ + Seq::new(i as nat, |j: int| Command::IncVal),
                decreases n - i,
            {
                out.push(Command::IncVal);
                proof {
                    assert(out@ =~= old(out)@ + Seq::new((i + 1) as nat, |j: int| Command::IncVal));
                }
                i = i + 1;
            }
        },
        CommandOpt::PutChar => {
            out.push(Command::PutChar);
            proof {
                assert(out@ =~= old(out)@ + decode_instr(c));
            }
        },
        CommandOpt::GetChar => {
            out.push(Command::GetChar);
            proof {
                assert(out@ =~= old(out)@ + decode_instr(c));
            }
        },
        CommandOpt::Zero => {
            out.push(Command::OpenBr);
            out.push(Command::DecVal);
            out.push(Command::CloseBr);
            proof {
                assert(out@ =~= old(out)@ + decode_instr(c));
            }
        },
        CommandOpt::LoopForever => {
            out.push(Command::OpenBr);
            out.push(Command::DecVal);
            out.push(Command::DecVal);
            out.push(Command::CloseBr);
            proof {
                assert(out@ =~= old(out)@ + decode_instr(c));
            }
        },
        CommandOpt::OpenBr(_) => {
            out.push(Command::OpenBr);
            proof {
                assert(out@ =~= old(out)@ + decode_instr(c));
            }
        },
        CommandOpt::CloseBr(_) => {
            out.push(Command::CloseBr);
            proof {
                assert(out@ =~= old(out)@ + decode_instr(c));
            }
        },
    }
    proof {
        assert(out@ =~= old(out)@ + decode_instr(c));
    }
}

/// Decode a whole instruction stream back into the raw token
/// sequence it denotes.
pub fn decode_prg(prg: &Vec<CommandOpt>) -> (r: Vec<Command>)
    ensures
        r@ == decode(prg@),
{
    let mut out: Vec<Command> = Vec::new();
    let n = prg.len();
    let mut i: usize = 0;
    while i < n
        invariant
            i <= n,
            n == prg@.len(),
            out@ == decode(prg@.take(i as int)),
        decreases n - i,
    {
        proof {
            assert(prg@.take(i + 1).drop_last() =~= prg@.take(i as int));
            assert(prg@.take(i + 1).last() == prg@[i as int]);
        }
        decode_instr_into(prg[i], &mut out);
        i = i + 1;
    }
    proof {
        assert(prg@.take(n as int) =~= prg@);
    }
    out
}

} // verus!
