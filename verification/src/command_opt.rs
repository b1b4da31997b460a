//! The optimizer: folds runs of pointer/value commands into single
//! counted instructions, resolves loop brackets into direct jump
//! targets, and recognizes the zero-and-exit / infinite-loop idioms.

use vstd::prelude::*;

use crate::command::Command;

verus! {

/// One optimized instruction.
///
/// Jump targets are resolved instruction indices: an `OpenBr`'s target
/// is the index immediately after its matching `CloseBr`, and a
/// `CloseBr`'s target is the index immediately after its matching
/// `OpenBr`.
#[derive(Debug, Clone, Copy, PartialEq, Eq, Structural)]
pub enum CommandOpt {
    /// Move the read/write head by a signed delta.
    ChPtr(isize),
    /// Add a delta, folded mod 256, to the current cell.
    ChVal(u8),
    /// Write the current cell as one output byte.
    PutChar,
    /// Read one input byte into the current cell.
    GetChar,
    /// Set the current cell to 0.
    Zero,
    /// A loop whose body provably never lets the cell reach 0: once
    /// entered with a nonzero cell it never advances.
    LoopForever,
    /// If the current cell is 0, jump to the target; else fall through.
    OpenBr(usize),
    /// If the current cell is nonzero, jump to the target; else fall through.
    CloseBr(usize),
}

/// A structural error found while resolving brackets.
#[derive(Debug, Clone, Copy, PartialEq, Eq, Structural)]
pub enum ParseError {
    /// A close bracket appeared with no open bracket pending.
    UnbalancedBrackets,
    /// An open bracket was never closed.
    UnclosedBracket,
}

/// The pending accumulator of the optimizer: at most one run of
/// pointer moves or of value changes is held back at a time.
pub ghost enum Pending {
    Ptr(int),
    Val(int),
    Idle,
}

/// The abstract state of one optimizer pass: the pending accumulator,
/// the stack of indices of unresolved open brackets, and the
/// instructions emitted so far.
#[verifier::ext_equal]
pub ghost struct OptSt {
    pub pending: Pending,
    pub stack: Seq<int>,
    pub out: Seq<CommandOpt>,
}

/// The optimizer state before any token has been consumed.
pub open spec fn opt_init() -> OptSt {
    OptSt { pending: Pending::Idle, stack: Seq::empty(), out: Seq::empty() }
}

/// Emit the pending accumulator, if any. A run whose accumulated delta
/// is exactly 0 is skipped; a value run is folded mod 256.
pub open spec fn flush(st: OptSt) -> OptSt {
    match st.pending {
        Pending::Ptr(d) => OptSt {
            pending: Pending::Idle,
            stack: st.stack,
            out: if d == 0 {
                st.out
            } else {
                st.out.push(CommandOpt::ChPtr(d as isize))
            },
        },
        Pending::Val(d) => OptSt {
            pending: Pending::Idle,
            stack: st.stack,
            out: if d == 0 {
                st.out
            } else {
                st.out.push(CommandOpt::ChVal((d % 256) as u8))
            },
        },
        Pending::Idle => st,
    }
}

/// Accumulate a pointer move: extends a pending pointer run, or
/// flushes whatever else was pending and starts a new one.
pub open spec fn ch_ptr_spec(st: OptSt, c: int) -> OptSt {
    match st.pending {
        Pending::Ptr(a) => OptSt { pending: Pending::Ptr(a + c), stack: st.stack, out: st.out },
        _ => {
            let f = flush(st);
            OptSt { pending: Pending::Ptr(c), stack: f.stack, out: f.out }
        },
    }
}

/// Accumulate a value change: extends a pending value run, or flushes
/// whatever else was pending and starts a new one.
pub open spec fn ch_val_spec(st: OptSt, c: int) -> OptSt {
    match st.pending {
        Pending::Val(a) => OptSt { pending: Pending::Val(a + c), stack: st.stack, out: st.out },
        _ => {
            let f = flush(st);
            OptSt { pending: Pending::Val(c), stack: f.stack, out: f.out }
        },
    }
}

/// Flush the pending accumulator, then emit one instruction.
pub open spec fn emit_spec(st: OptSt, c: CommandOpt) -> OptSt {
    let f = flush(st);
    OptSt { pending: Pending::Idle, stack: f.stack, out: f.out.push(c) }
}

/// An open bracket: flush, remember the placeholder's index, and emit
/// an `OpenBr` whose target is resolved by the matching close.
pub open spec fn open_spec(st: OptSt) -> OptSt {
    let f = flush(st);
    OptSt {
        pending: Pending::Idle,
        stack: f.stack.push(f.out.len() as int),
        out: f.out.push(CommandOpt::OpenBr(0)),
    }
}

/// A close bracket. With no open bracket pending this is a structural
/// error. When the loop body was exactly one pending value run, the
/// loop is replaced by `Zero` (odd per-iteration delta) or
/// `LoopForever` (even, nonzero delta); a zero net delta is no fold at
/// all, and the pair is resolved as an empty loop. Otherwise the
/// bracket pair is resolved to point just past each other.
pub open spec fn close_spec(st: OptSt) -> Result<OptSt, ParseError> {
    if st.stack.len() == 0 {
        Err(ParseError::UnbalancedBrackets)
    } else {
        let conn = st.stack.last();
        let stack1 = st.stack.drop_last();
        let fold = match st.pending {
            Pending::Val(a) => a != 0 && st.out.len() > 0 && (st.out.last() matches CommandOpt::OpenBr(_)),
            _ => false,
        };
        if fold {
            let a = st.pending->Val_0;
            let body = if a % 2 == 1 {
                CommandOpt::Zero
            } else {
                CommandOpt::LoopForever
            };
            Ok(OptSt { pending: Pending::Idle, stack: stack1, out: st.out.drop_last().push(body) })
        } else {
            let f = flush(st);
            Ok(OptSt {
                pending: Pending::Idle,
                stack: stack1,
                out: f.out.update(conn, CommandOpt::OpenBr((f.out.len() + 1) as usize)).push(
                    CommandOpt::CloseBr((conn + 1) as usize),
                ),
            })
        }
    }
}

/// One optimizer transition per token.
pub open spec fn feed_spec(st: OptSt, cmd: Command) -> Result<OptSt, ParseError> {
    match cmd {
        Command::IncPtr => Ok(ch_ptr_spec(st, 1)),
        Command::DecPtr => Ok(ch_ptr_spec(st, -1)),
        Command::IncVal => Ok(ch_val_spec(st, 1)),
        Command::DecVal => Ok(ch_val_spec(st, -1)),
        Command::PutChar => Ok(emit_spec(st, CommandOpt::PutChar)),
        Command::GetChar => Ok(emit_spec(st, CommandOpt::GetChar)),
        Command::OpenBr => Ok(open_spec(st)),
        Command::CloseBr => close_spec(st),
    }
}

/// The optimizer state after consuming a whole token sequence.
pub open spec fn opt_run(ts: Seq<Command>) -> Result<OptSt, ParseError>
    decreases ts.len(),
{
    if ts.len() == 0 {
        Ok(opt_init())
    } else {
        match opt_run(ts.drop_last()) {
            Ok(st) => feed_spec(st, ts.last()),
            Err(e) => Err(e),
        }
    }
}

/// What optimization returns for a whole token sequence: the emitted
/// instructions after a final flush, or the structural error.
pub open spec fn optimize_spec(ts: Seq<Command>) -> Result<Seq<CommandOpt>, ParseError> {
    match opt_run(ts) {
        Ok(st) => {
            let f = flush(st);
            if f.stack.len() == 0 {
                Ok(f.out)
            } else {
                Err(ParseError::UnclosedBracket)
            }
        },
        Err(e) => Err(e),
    }
}

/// Every recorded open-bracket index points into the emitted output.
pub open spec fn st_wf(st: OptSt) -> bool {
    forall|i: int| 0 <= i < st.stack.len() ==> 0 <= #[trigger] st.stack[i] < st.out.len()
}

/// The pending accumulator can take one more step of the given sign
/// without leaving the machine integer range.
pub open spec fn can_ptr(st: OptSt, c: int) -> bool {
    match st.pending {
        Pending::Ptr(a) => isize::MIN <= a + c <= isize::MAX,
        _ => true,
    }
}

/// As `can_ptr`, for a pending value run.
pub open spec fn can_val(st: OptSt, c: int) -> bool {
    match st.pending {
        Pending::Val(a) => isize::MIN <= a + c <= isize::MAX,
        _ => true,
    }
}

/// The accumulator of the token about to be fed stays in range.
pub open spec fn can_feed(st: OptSt, cmd: Command) -> bool {
    match cmd {
        Command::IncPtr => can_ptr(st, 1),
        Command::DecPtr => can_ptr(st, -1),
        Command::IncVal => can_val(st, 1),
        Command::DecVal => can_val(st, -1),
        _ => true,
    }
}

/// The pending accumulator of the optimizer, executable form.
#[derive(Debug, Clone, Copy, PartialEq, Eq, Structural)]
enum ParseCounts {
    ChPtr(isize),
    ChVal(isize),
    Idle,
}

/// The running state of one optimizer pass over a token stream.
pub struct ParseState {
    counts: ParseCounts,
    unres_brack: Vec<usize>,
    result: Vec<CommandOpt>,
}

impl View for ParseState {
    type V = OptSt;

    closed spec fn view(&self) -> OptSt {
        OptSt {
            pending: match self.counts {
                ParseCounts::ChPtr(a) => Pending::Ptr(a as int),
                ParseCounts::ChVal(a) => Pending::Val(a as int),
                ParseCounts::Idle => Pending::Idle,
            },
            stack: Seq::new(self.unres_brack@.len(), |i: int| self.unres_brack@[i] as int),
            out: self.result@,
        }
    }
}

/// The Euclidean remainder of `c` mod 256, as a byte.
fn euclid_mod_256(c: isize) -> (r: u8)
    ensures
        r as int == (c as int) % 256,
{
    if c >= 0 {
        (c % 256) as u8
    } else {
        let k: isize = -(c + 1);
        let r: isize = 255 - (k % 256);
        proof {
            let ci = c as int;
            let ki = k as int;
            vstd::arithmetic::div_mod::lemma_fundamental_div_mod(ki, 256);
            vstd::arithmetic::div_mod::lemma_mod_bound(ki, 256);
            let q = ki / 256;
            assert(ci == 256 * (-q - 1) + (255 - ki % 256));
            vstd::arithmetic::div_mod::lemma_fundamental_div_mod_converse_mod(
                ci,
                256,
                -q - 1,
                255 - ki % 256,
            );
        }
        r as u8
    }
}

/// Whether `c` is odd, in the Euclidean sense used for the peephole.
fn euclid_odd(c: isize) -> (r: bool)
    ensures
        r == ((c as int) % 2 == 1),
{
    if c >= 0 {
        c % 2 == 1
    } else {
        let k: isize = -(c + 1);
        let r: bool = k % 2 == 0;
        proof {
            let ci = c as int;
            let ki = k as int;
            vstd::arithmetic::div_mod::lemma_fundamental_div_mod(ki, 2);
            vstd::arithmetic::div_mod::lemma_mod_bound(ki, 2);
            let q = ki / 2;
            assert(ci == 2 * (-q - 1) + (1 - ki % 2));
            vstd::arithmetic::div_mod::lemma_fundamental_div_mod_converse_mod(
                ci,
                2,
                -q - 1,
                1 - ki % 2,
            );
        }
        r
    }
}

impl ParseState {
    /// A fresh optimizer state: nothing pending, nothing emitted.
    pub fn new() -> (r: Self)
        ensures
            r@ == opt_init(),
            st_wf(r@),
    {
        let r = Self { counts: ParseCounts::Idle, unres_brack: Vec::new(), result: Vec::new() };
        proof {
            assert(r@ =~= opt_init());
        }
        r
    }

    /// Accumulate a pointer move of the given signed size.
    pub fn ch_ptr(&mut self, count: isize)
        requires
            can_ptr(old(self)@, count as int),
        ensures
            final(self)@ == ch_ptr_spec(old(self)@, count as int),
    {
        if let ParseCounts::ChPtr(amount) = self.counts {
            self.counts = ParseCounts::ChPtr(amount + count);
        } else {
            self.apply_counts();
            self.counts = ParseCounts::ChPtr(count);
        }
        proof {
            assert(self@ =~= ch_ptr_spec(old(self)@, count as int));
        }
    }

    /// Accumulate a value change of the given signed size.
    pub fn ch_val(&mut self, count: isize)
        requires
            can_val(old(self)@, count as int),
        ensures
            final(self)@ == ch_val_spec(old(self)@, count as int),
    {
        if let ParseCounts::ChVal(amount) = self.counts {
            self.counts = ParseCounts::ChVal(amount + count);
        } else {
            self.apply_counts();
            self.counts = ParseCounts::ChVal(count);
        }
        proof {
            assert(self@ =~= ch_val_spec(old(self)@, count as int));
        }
    }

    /// Emit the pending accumulator, if any; zero-delta runs vanish.
    pub fn apply_counts(&mut self)
        ensures
            final(self)@ == flush(old(self)@),
    {
        match self.counts {
            ParseCounts::ChPtr(count) => {
                if count != 0 {
                    self.result.push(CommandOpt::ChPtr(count));
                }
                self.counts = ParseCounts::Idle;
            },
            ParseCounts::ChVal(count) => {
                if count != 0 {
                    let v = euclid_mod_256(count);
                    self.result.push(CommandOpt::ChVal(v));
                }
                self.counts = ParseCounts::Idle;
            },
            ParseCounts::Idle => {},
        }
        proof {
            assert(self@ =~= flush(old(self)@));
        }
    }

    /// Consume one token, growing the optimized stream.
    pub fn feed(&mut self, cmd: &Command) -> (r: Result<(), ParseError>)
        requires
            st_wf(old(self)@),
            can_feed(old(self)@, *cmd),
        ensures
            st_wf(final(self)@),
            match feed_spec(old(self)@, *cmd) {
                Ok(st) => r is Ok && final(self)@ == st,
                Err(e) => r == Result::<(), ParseError>::Err(e) && final(self)@ == old(self)@,
            },
    {
        match cmd {
            Command::IncPtr => self.ch_ptr(1),
            Command::DecPtr => self.ch_ptr(-1),
            Command::IncVal => self.ch_val(1),
            Command::DecVal => self.ch_val(-1),
            Command::PutChar => {
                self.apply_counts();
                self.result.push(CommandOpt::PutChar);
                proof {
                    assert(self@ =~= emit_spec(old(self)@, CommandOpt::PutChar));
                }
            },
            Command::GetChar => {
                self.apply_counts();
                self.result.push(CommandOpt::GetChar);
                proof {
                    assert(self@ =~= emit_spec(old(self)@, CommandOpt::GetChar));
                }
            },
            Command::OpenBr => {
                self.apply_counts();
                self.unres_brack.push(self.result.len());
                self.result.push(CommandOpt::OpenBr(0));
                proof {
                    assert(self@.stack =~= open_spec(old(self)@).stack);
                    assert(self@ =~= open_spec(old(self)@));
                }
            },
            Command::CloseBr => {
                let conn = match self.unres_brack.pop() {
                    Some(val) => val,
                    None => {
                        return Err(ParseError::UnbalancedBrackets);
                    },
                };
                proof {
                    let st0 = old(self)@;
                    assert(st0.stack.last() == conn as int);
                    assert((conn as int) < st0.out.len());
                    assert(conn < self.result.len());
                }
                let mut folded = false;
                if let ParseCounts::ChVal(amount) = self.counts {
                    let li = self.result.len() - 1;
                    if let CommandOpt::OpenBr(_) = self.result[li] {
                        if amount != 0 {
                            let _ = self.result.pop();
                            if euclid_odd(amount) {
                                self.result.push(CommandOpt::Zero);
                            } else {
                                self.result.push(CommandOpt::LoopForever);
                            }
                            self.counts = ParseCounts::Idle;
                            folded = true;
                        }
                    }
                }
                if !folded {
                    self.apply_counts();
                    self.result.push(CommandOpt::CloseBr(conn + 1));
                    let target = self.result.len();
                    self.result[conn] = CommandOpt::OpenBr(target);
                }
                proof {
                    let st0 = old(self)@;
                    assert(self@.stack =~= st0.stack.drop_last());
                    assert(self@ =~= close_spec(st0).unwrap());
                }
            },
        }
        Ok(())
    }

    /// Finish the pass: flush, and fail if any bracket is still open.
    pub fn get_result(&mut self) -> (r: Result<Vec<CommandOpt>, ParseError>)
        ensures
            final(self)@ == flush(old(self)@),
            ({
                let f = flush(old(self)@);
                if f.stack.len() == 0 {
                    r matches Ok(v) && v@ == f.out
                } else {
                    r == Result::<Vec<CommandOpt>, ParseError>::Err(ParseError::UnclosedBracket)
                }
            }),
    {
        self.apply_counts();
        if self.unres_brack.len() > 0 {
            return Err(ParseError::UnclosedBracket);
        }
        Ok(self.result.clone())
    }
}

/// Run the optimizer over a whole token sequence.
pub fn optimize_prg(prg: &[Command]) -> (r: Result<Vec<CommandOpt>, ParseError>)
    requires
        prg@.len() <= isize::MAX as int,
    ensures
        match optimize_spec(prg@) {
            Ok(s) => r matches Ok(v) && v@ == s,
            Err(e) => r == Result::<Vec<CommandOpt>, ParseError>::Err(e),
        },
{
    let mut state = ParseState::new();
    let n = prg.len();
    let mut i: usize = 0;
    while i < n
        invariant
            i <= n,
            n == prg@.len(),
            n <= isize::MAX as int,
            opt_run(prg@.take(i as int)) == Ok::<OptSt, ParseError>(state@),
            st_wf(state@),
        decreases n - i,
    {
        proof {
            lemma_pending_bound(prg@.take(i as int));
            assert(prg@.take(i + 1).drop_last() =~= prg@.take(i as int));
            assert(prg@.take(i + 1).last() == prg@[i as int]);
        }
        let cmd = prg[i];
        match state.feed(&cmd) {
            Ok(()) => {},
            Err(e) => {
                proof {
                    lemma_opt_run_err_prefix(prg@, i + 1);
                }
                return Err(e);
            },
        }
        i = i + 1;
    }
    proof {
        assert(prg@.take(n as int) =~= prg@);
    }
    state.get_result()
}

/// Tokenize source text and optimize the token sequence.
pub fn parse(code: &str) -> (r: Result<Vec<CommandOpt>, ParseError>)
    requires
        code@.len() <= isize::MAX as int,
    ensures
        match optimize_spec(crate::command::spec_tokens(code@)) {
            Ok(s) => r matches Ok(v) && v@ == s,
            Err(e) => r == Result::<Vec<CommandOpt>, ParseError>::Err(e),
        },
{
    let tokens = crate::command::parse(code);
    proof {
        lemma_tokens_len(code@);
    }
    optimize_prg(tokens.as_slice())
}

/// Tokenize source text and optimize the token sequence.
pub fn tokenize(code: &str) -> (r: Result<Vec<CommandOpt>, ParseError>)
    requires
        code@.len() <= isize::MAX as int,
    ensures
        match optimize_spec(crate::command::spec_tokens(code@)) {
            Ok(s) => r matches Ok(v) && v@ == s,
            Err(e) => r == Result::<Vec<CommandOpt>, ParseError>::Err(e),
        },
{
    parse(code)
}

/// The token sequence of a text is never longer than the text.
proof fn lemma_tokens_len(s: Seq<char>)
    ensures
        crate::command::spec_tokens(s).len() <= s.len(),
    decreases s.len(),
{
    if s.len() > 0 {
        lemma_tokens_len(s.drop_last());
    }
}

/// The magnitude of the pending accumulator is bounded by the number
/// of tokens consumed, and so stays within the machine integer range
/// for any token sequence that fits in memory.
pub proof fn lemma_pending_bound(ts: Seq<Command>)
    ensures
        opt_run(ts) matches Ok(st) ==> match st.pending {
            Pending::Ptr(a) => -(ts.len() as int) <= a <= ts.len() as int,
            Pending::Val(a) => -(ts.len() as int) <= a <= ts.len() as int,
            Pending::Idle => true,
        },
    decreases ts.len(),
{
    if ts.len() > 0 {
        lemma_pending_bound(ts.drop_last());
    }
}

/// Once the optimizer fails on a prefix, it fails the same way on the
/// whole sequence.
proof fn lemma_opt_run_err_prefix(ts: Seq<Command>, k: int)
    requires
        0 <= k <= ts.len(),
        opt_run(ts.take(k)) is Err,
    ensures
        opt_run(ts) == opt_run(ts.take(k)),
    decreases ts.len() - k,
{
    if k < ts.len() {
        assert(ts.take(k + 1).drop_last() =~= ts.take(k));
        lemma_opt_run_err_prefix(ts, k + 1);
    } else {
        assert(ts.take(k) =~= ts);
    }
}

} // verus!

verus! {

/// `c` is an open-bracket instruction.
pub open spec fn is_open(c: CommandOpt) -> bool {
    c matches CommandOpt::OpenBr(_)
}

/// `c` is a close-bracket instruction.
pub open spec fn is_close(c: CommandOpt) -> bool {
    c matches CommandOpt::CloseBr(_)
}

/// The bracket instruction at `i`, if any, is fully resolved: an open
/// bracket's target lies just past its matching close, which in turn
/// points just past the open.
pub open spec fn resolved_at(p: Seq<CommandOpt>, i: int) -> bool {
    match p[i] {
        CommandOpt::OpenBr(t) => {
            &&& i + 2 <= t as int <= p.len()
            &&& (p[t as int - 1] matches CommandOpt::CloseBr(u) && u as int == i + 1)
        },
        CommandOpt::CloseBr(u) => {
            &&& 1 <= u as int <= i
            &&& (p[u as int - 1] matches CommandOpt::OpenBr(t) && t as int == i + 1)
        },
        _ => true,
    }
}

/// Every bracket in the program is resolved; in particular every jump
/// target lies within `0 ..= p.len()`.
pub open spec fn resolved(p: Seq<CommandOpt>) -> bool {
    forall|i: int| 0 <= i < p.len() ==> #[trigger] resolved_at(p, i)
}

/// The invariant of a pass in flight: recorded open-bracket indices
/// are strictly increasing placeholder positions, and everything not
/// recorded is already resolved.
pub open spec fn pr(stack: Seq<int>, out: Seq<CommandOpt>) -> bool {
    &&& (forall|k: int| 0 <= k < stack.len() ==> 0 <= #[trigger] stack[k] < out.len())
    &&& (forall|k1: int, k2: int| 0 <= k1 < k2 < stack.len() ==> stack[k1] < stack[k2])
    &&& (forall|k: int|
        0 <= k < stack.len() ==> out[#[trigger] stack[k]] == CommandOpt::OpenBr(0usize))
    &&& (forall|i: int|
        0 <= i < out.len() && !stack.contains(i) ==> #[trigger] resolved_at(out, i))
}

/// Appending a non-bracket instruction preserves the pass invariant.
proof fn lemma_pr_push_nb(stack: Seq<int>, out: Seq<CommandOpt>, c: CommandOpt)
    requires
        pr(stack, out),
        !is_open(c),
        !is_close(c),
    ensures
        pr(stack, out.push(c)),
{
    let o2 = out.push(c);
    assert forall|i: int| 0 <= i < o2.len() && !stack.contains(i) implies #[trigger] resolved_at(
        o2,
        i,
    ) by {
        if i < out.len() {
            assert(resolved_at(out, i));
        }
    };
}

/// Flushing the pending accumulator preserves the pass invariant.
proof fn lemma_pr_flush(st: OptSt)
    requires
        pr(st.stack, st.out),
    ensures
        pr(flush(st).stack, flush(st).out),
        flush(st).stack == st.stack,
        st.out.len() <= flush(st).out.len() <= st.out.len() + 1,
{
    match st.pending {
        Pending::Ptr(d) => {
            if d != 0 {
                lemma_pr_push_nb(st.stack, st.out, CommandOpt::ChPtr(d as isize));
            }
        },
        Pending::Val(d) => {
            if d != 0 {
                lemma_pr_push_nb(st.stack, st.out, CommandOpt::ChVal((d % 256) as u8));
            }
        },
        Pending::Idle => {},
    }
}

/// Opening a bracket preserves the pass invariant.
proof fn lemma_pr_open(stack: Seq<int>, out: Seq<CommandOpt>)
    requires
        pr(stack, out),
    ensures
        pr(stack.push(out.len() as int), out.push(CommandOpt::OpenBr(0usize))),
{
    let s2 = stack.push(out.len() as int);
    let o2 = out.push(CommandOpt::OpenBr(0usize));
    assert forall|x: int| stack.contains(x) implies s2.contains(x) by {
        let k = choose|k: int| 0 <= k < stack.len() && stack[k] == x;
        assert(s2[k] == x);
    };
    assert(s2[s2.len() - 1] == out.len() as int);
    assert forall|i: int| 0 <= i < o2.len() && !s2.contains(i) implies #[trigger] resolved_at(
        o2,
        i,
    ) by {
        assert(i != out.len() as int);
        assert(!stack.contains(i));
        assert(resolved_at(out, i));
    };
}

/// Replacing a just-opened placeholder and its body with a single
/// folded instruction preserves the pass invariant.
proof fn lemma_pr_fold(stack: Seq<int>, out: Seq<CommandOpt>, body: CommandOpt)
    requires
        pr(stack, out),
        stack.len() > 0,
        out.len() > 0,
        is_open(out.last()),
        !is_open(body),
        !is_close(body),
    ensures
        pr(stack.drop_last(), out.drop_last().push(body)),
{
    let li = out.len() - 1;
    // The trailing open bracket cannot be resolved, so it is recorded,
    // and strict ordering puts it on top of the stack.
    assert(stack.contains(li)) by {
        if !stack.contains(li) {
            assert(resolved_at(out, li));
        }
    };
    let k0 = choose|k: int| 0 <= k < stack.len() && stack[k] == li;
    assert(stack.last() == li) by {
        if k0 < stack.len() - 1 {
            assert(stack[k0] < stack[stack.len() - 1]);
        }
    };
    let s2 = stack.drop_last();
    let o2 = out.drop_last().push(body);
    assert forall|x: int| s2.contains(x) implies stack.contains(x) && x != li by {
        let k = choose|k: int| 0 <= k < s2.len() && s2[k] == x;
        assert(stack[k] == x);
        assert(stack[k] < stack[stack.len() - 1]);
    };
    assert forall|k: int| 0 <= k < s2.len() implies out[#[trigger] s2[k]] == CommandOpt::OpenBr(
        0usize,
    ) && 0 <= s2[k] < li by {
        assert(stack[k] == s2[k]);
        assert(stack[k] < stack[stack.len() - 1]);
    };
    assert forall|i: int| 0 <= i < o2.len() && !s2.contains(i) implies #[trigger] resolved_at(
        o2,
        i,
    ) by {
        if i < li {
            assert(!stack.contains(i)) by {
                if stack.contains(i) {
                    let k = choose|k: int| 0 <= k < stack.len() && stack[k] == i;
                    if k < stack.len() - 1 {
                        assert(s2[k] == i);
                    }
                }
            };
            assert(resolved_at(out, i));
            match out[i] {
                CommandOpt::OpenBr(t) => {
                    assert(out[t as int - 1] matches CommandOpt::CloseBr(_));
                    assert(t as int - 1 != li);
                    assert(o2[i] == out[i] && o2[t as int - 1] == out[t as int - 1]);
                },
                CommandOpt::CloseBr(u) => {
                    assert(o2[i] == out[i] && o2[u as int - 1] == out[u as int - 1]);
                },
                _ => {},
            }
        }
    };
}

/// Resolving a bracket pair preserves the pass invariant.
proof fn lemma_pr_close(stack: Seq<int>, out: Seq<CommandOpt>)
    requires
        pr(stack, out),
        stack.len() > 0,
        out.len() + 1 <= usize::MAX,
    ensures
        ({
            let conn = stack.last();
            let o2 = out.update(conn, CommandOpt::OpenBr((out.len() + 1) as usize)).push(
                CommandOpt::CloseBr((conn + 1) as usize),
            );
            pr(stack.drop_last(), o2)
        }),
{
    let conn = stack.last();
    let ln = out.len() as int;
    let o2 = out.update(conn, CommandOpt::OpenBr((ln + 1) as usize)).push(
        CommandOpt::CloseBr((conn + 1) as usize),
    );
    let s2 = stack.drop_last();
    assert(0 <= conn < ln);
    assert(out[conn] == CommandOpt::OpenBr(0usize));
    assert forall|x: int| s2.contains(x) implies stack.contains(x) && x < conn by {
        let k = choose|k: int| 0 <= k < s2.len() && s2[k] == x;
        assert(stack[k] == x);
        assert(stack[k] < stack[stack.len() - 1]);
    };
    assert forall|k: int| 0 <= k < s2.len() implies o2[#[trigger] s2[k]] == CommandOpt::OpenBr(
        0usize,
    ) && 0 <= s2[k] < o2.len() by {
        assert(stack[k] == s2[k]);
        assert(stack[k] < stack[stack.len() - 1]);
        assert(out[s2[k]] == CommandOpt::OpenBr(0usize));
    };
    assert forall|i: int| 0 <= i < o2.len() && !s2.contains(i) implies #[trigger] resolved_at(
        o2,
        i,
    ) by {
        if i == conn {
            assert(o2[conn] == CommandOpt::OpenBr((ln + 1) as usize));
            assert(o2[ln] == CommandOpt::CloseBr((conn + 1) as usize));
        } else if i == ln {
            assert(o2[ln] == CommandOpt::CloseBr((conn + 1) as usize));
            assert(o2[conn] == CommandOpt::OpenBr((ln + 1) as usize));
        } else {
            assert(!stack.contains(i)) by {
                if stack.contains(i) {
                    let k = choose|k: int| 0 <= k < stack.len() && stack[k] == i;
                    if k < stack.len() - 1 {
                        assert(s2[k] == i);
                    }
                }
            };
            assert(resolved_at(out, i));
            assert(o2[i] == out[i]);
            match out[i] {
                CommandOpt::OpenBr(t) => {
                    assert(out[t as int - 1] matches CommandOpt::CloseBr(_));
                    assert(t as int - 1 != conn);
                    assert(o2[t as int - 1] == out[t as int - 1]);
                },
                CommandOpt::CloseBr(u) => {
                    assert(out[u as int - 1] matches CommandOpt::OpenBr(w) && w as int == i + 1);
                    assert(u as int - 1 != conn);
                    assert(o2[u as int - 1] == out[u as int - 1]);
                },
                _ => {},
            }
        }
    };
}

/// One token preserves the pass invariant, growing the output by at
/// most two instructions.
proof fn lemma_feed_pr(st: OptSt, cmd: Command)
    requires
        pr(st.stack, st.out),
        st.out.len() + 2 <= usize::MAX,
    ensures
        feed_spec(st, cmd) matches Ok(st2) ==> pr(st2.stack, st2.out) && st2.out.len() <= st.out.len()
            + 2 && st2.stack.len() <= st.stack.len() + 1,
{
    match cmd {
        Command::IncPtr | Command::DecPtr | Command::IncVal | Command::DecVal => {
            lemma_pr_flush(st);
        },
        Command::PutChar => {
            lemma_pr_flush(st);
            lemma_pr_push_nb(st.stack, flush(st).out, CommandOpt::PutChar);
        },
        Command::GetChar => {
            lemma_pr_flush(st);
            lemma_pr_push_nb(st.stack, flush(st).out, CommandOpt::GetChar);
        },
        Command::OpenBr => {
            lemma_pr_flush(st);
            lemma_pr_open(st.stack, flush(st).out);
        },
        Command::CloseBr => {
            if st.stack.len() > 0 {
                let fold = match st.pending {
                    Pending::Val(a) => a != 0 && st.out.len() > 0 && is_open(st.out.last()),
                    _ => false,
                };
                if fold {
                    let a = st.pending->Val_0;
                    let body = if a % 2 == 1 {
                        CommandOpt::Zero
                    } else {
                        CommandOpt::LoopForever
                    };
                    lemma_pr_fold(st.stack, st.out, body);
                } else {
                    lemma_pr_flush(st);
                    lemma_pr_close(st.stack, flush(st).out);
                }
            }
        },
    }
}

/// The pass invariant holds after any number of tokens, with the
/// output at most twice as long as the input.
proof fn lemma_opt_run_pr(ts: Seq<Command>)
    requires
        ts.len() <= isize::MAX as int,
    ensures
        opt_run(ts) matches Ok(st) ==> pr(st.stack, st.out) && st.out.len() <= 2 * ts.len()
            && st.stack.len() <= ts.len(),
    decreases ts.len(),
{
    if ts.len() > 0 {
        lemma_opt_run_pr(ts.drop_last());
        let r = opt_run(ts.drop_last());
        if r is Ok {
            lemma_feed_pr(r->Ok_0, ts.last());
        }
    }
}

/// A successful optimization yields a fully resolved program: every
/// jump target lies within `0 ..= p.len()`.
pub proof fn lemma_optimize_resolved(ts: Seq<Command>)
    requires
        ts.len() <= isize::MAX as int,
    ensures
        optimize_spec(ts) matches Ok(p) ==> resolved(p) && p.len() <= 2 * ts.len() + 1,
{
    lemma_opt_run_pr(ts);
    let r = opt_run(ts);
    if r is Ok {
        let st = r->Ok_0;
        lemma_pr_flush(st);
        let f = flush(st);
        if f.stack.len() == 0 {
            assert forall|i: int| 0 <= i < f.out.len() implies #[trigger] resolved_at(f.out, i) by {
                assert(!f.stack.contains(i));
            };
        }
    }
}

} // verus!

verus! {

/// The number of open-bracket tokens in a sequence.
pub open spec fn opens(ts: Seq<Command>) -> int
    decreases ts.len(),
{
    if ts.len() == 0 {
        0
    } else {
        opens(ts.drop_last()) + if ts.last() == Command::OpenBr {
            1int
        } else {
            0int
        }
    }
}

/// The number of close-bracket tokens in a sequence.
pub open spec fn closes(ts: Seq<Command>) -> int
    decreases ts.len(),
{
    if ts.len() == 0 {
        0
    } else {
        closes(ts.drop_last()) + if ts.last() == Command::CloseBr {
            1int
        } else {
            0int
        }
    }
}

/// Some prefix holds more closes than opens: a stray close bracket.
pub open spec fn has_early_close(ts: Seq<Command>) -> bool {
    exists|k: int| 0 <= k <= ts.len() && closes(#[trigger] ts.take(k)) > opens(ts.take(k))
}

/// Brackets are properly nested and balanced: no prefix closes more
/// than it has opened, and the whole sequence closes everything.
pub open spec fn balanced(ts: Seq<Command>) -> bool {
    !has_early_close(ts) && opens(ts) == closes(ts)
}

/// Along a successful run, the open-bracket stack is exactly as deep
/// as the surplus of opens over closes, and a failure is always the
/// stray-close error, struck exactly when a prefix first closes too
/// much.
proof fn lemma_opt_run_balance(ts: Seq<Command>)
    ensures
        opt_run(ts) matches Ok(st) ==> st.stack.len() == opens(ts) - closes(ts) && !has_early_close(
            ts,
        ),
        opt_run(ts) is Err ==> opt_run(ts) == Err::<OptSt, ParseError>(
            ParseError::UnbalancedBrackets,
        ) && has_early_close(ts),
    decreases ts.len(),
{
    if ts.len() == 0 {
        assert forall|k: int| 0 <= k <= ts.len() implies closes(#[trigger] ts.take(k)) <= opens(
            ts.take(k),
        ) by {
            assert(ts.take(k) =~= ts);
        };
    } else {
        let pre = ts.drop_last();
        lemma_opt_run_balance(pre);
        assert forall|k: int| 0 <= k < ts.len() implies ts.take(k) =~= pre.take(k) by {};
        assert(ts.take(ts.len() as int) =~= ts);
        match opt_run(pre) {
            Ok(st) => {
                // flush and accumulation never touch the stack
                assert(flush(st).stack == st.stack);
                match feed_spec(st, ts.last()) {
                    Ok(st2) => {
                        assert(!has_early_close(ts)) by {
                            assert forall|k: int|
                                0 <= k <= ts.len() implies closes(#[trigger] ts.take(k)) <= opens(
                                ts.take(k),
                            ) by {
                                if k < ts.len() {
                                    assert(ts.take(k) == pre.take(k));
                                    assert(!has_early_close(pre));
                                    if closes(pre.take(k)) > opens(pre.take(k)) {
                                        assert(has_early_close(pre));
                                    }
                                } else {
                                    assert(ts.take(k) == ts);
                                }
                            };
                        };
                    },
                    Err(_) => {
                        // only a close bracket on an empty stack fails
                        assert(ts.last() == Command::CloseBr);
                        assert(closes(ts) > opens(ts));
                        assert(has_early_close(ts)) by {
                            assert(closes(ts.take(ts.len() as int)) > opens(
                                ts.take(ts.len() as int),
                            ));
                        };
                    },
                }
            },
            Err(_) => {
                let k0 = choose|k: int|
                    0 <= k <= pre.len() && closes(#[trigger] pre.take(k)) > opens(pre.take(k));
                assert(ts.take(k0) == pre.take(k0));
                assert(closes(ts.take(k0)) > opens(ts.take(k0)));
            },
        }
    }
}

/// Optimization succeeds exactly on properly balanced token
/// sequences; a stray close bracket is reported as unbalanced, and an
/// open bracket that is never closed as unclosed.
pub proof fn lemma_bracket_balance(ts: Seq<Command>)
    ensures
        optimize_spec(ts) is Ok <==> balanced(ts),
        optimize_spec(ts) == Err::<Seq<CommandOpt>, ParseError>(ParseError::UnbalancedBrackets)
            <==> has_early_close(ts),
        optimize_spec(ts) == Err::<Seq<CommandOpt>, ParseError>(ParseError::UnclosedBracket) <==> (
        !has_early_close(ts) && opens(ts) != closes(ts)),
{
    lemma_opt_run_balance(ts);
    let r = opt_run(ts);
    if r is Ok {
        let st = r->Ok_0;
        assert(flush(st).stack == st.stack);
        assert(st.stack.len() >= 0);
    }
}

} // verus!

verus! {

/// Matching bracket pairs nest properly: between a close bracket's
/// matching open and the close itself, no open bracket reaches out
/// past the close.
pub open spec fn nested_at(p: Seq<CommandOpt>, i: int, k: int) -> bool {
    match (p[i], p[k]) {
        (CommandOpt::CloseBr(u), CommandOpt::OpenBr(t)) => (u as int - 1 < k && k < i) ==> t as int
            <= i,
        _ => true,
    }
}

/// Proper nesting of every bracket pair.
pub open spec fn nested(p: Seq<CommandOpt>) -> bool {
    forall|i: int, k: int| 0 <= k < i < p.len() ==> #[trigger] nested_at(p, i, k)
}

/// Separation of brackets along a pass in flight: no recorded
/// placeholder lies strictly inside a resolved pair, and resolved
/// pairs nest among themselves.
pub open spec fn pr_sep(stack: Seq<int>, out: Seq<CommandOpt>) -> bool {
    &&& (forall|a: int, k: int|
        #![trigger stack[k], out[a]]
        0 <= a < out.len() && !stack.contains(a) && 0 <= k < stack.len() && out[a] is OpenBr ==> !(a
            < stack[k] && stack[k] < out[a]->OpenBr_0 as int - 1))
    &&& (forall|a: int, b: int|
        #![trigger out[a], out[b]]
        0 <= a < b < out.len() && !stack.contains(a) && !stack.contains(b) && out[a] is OpenBr
            && out[b] is OpenBr && b < out[a]->OpenBr_0 as int - 1 ==> out[b]->OpenBr_0 as int <= out[a]->OpenBr_0
            as int - 1)
}

/// Appending a non-bracket instruction preserves separation.
proof fn lemma_sep_push_nb(stack: Seq<int>, out: Seq<CommandOpt>, c: CommandOpt)
    requires
        pr(stack, out),
        pr_sep(stack, out),
        !is_open(c),
        !is_close(c),
    ensures
        pr_sep(stack, out.push(c)),
{
    let o2 = out.push(c);
    assert forall|a: int, k: int|
        0 <= a < o2.len() && !stack.contains(a) && 0 <= k < stack.len() && o2[a]
            is OpenBr implies !(a < #[trigger] stack[k] && stack[k] < (#[trigger] o2[a])->OpenBr_0
        as int - 1) by {
        if a < out.len() {
            assert(o2[a] == out[a]);
        }
    };
    assert forall|a: int, b: int|
        0 <= a < b < o2.len() && !stack.contains(a) && !stack.contains(b) && (#[trigger] o2[a])
            is OpenBr && (#[trigger] o2[b]) is OpenBr && b < o2[a]->OpenBr_0 as int
            - 1 implies o2[b]->OpenBr_0 as int <= o2[a]->OpenBr_0 as int - 1 by {
        if b < out.len() {
            assert(o2[a] == out[a] && o2[b] == out[b]);
        }
    };
}

/// Flushing preserves separation.
proof fn lemma_sep_flush(st: OptSt)
    requires
        pr(st.stack, st.out),
        pr_sep(st.stack, st.out),
    ensures
        pr_sep(flush(st).stack, flush(st).out),
{
    match st.pending {
        Pending::Ptr(d) => {
            if d != 0 {
                lemma_sep_push_nb(st.stack, st.out, CommandOpt::ChPtr(d as isize));
            }
        },
        Pending::Val(d) => {
            if d != 0 {
                lemma_sep_push_nb(st.stack, st.out, CommandOpt::ChVal((d % 256) as u8));
            }
        },
        Pending::Idle => {},
    }
}

/// Opening a bracket preserves separation.
proof fn lemma_sep_open(stack: Seq<int>, out: Seq<CommandOpt>)
    requires
        pr(stack, out),
        pr_sep(stack, out),
    ensures
        pr_sep(stack.push(out.len() as int), out.push(CommandOpt::OpenBr(0usize))),
{
    let s2 = stack.push(out.len() as int);
    let o2 = out.push(CommandOpt::OpenBr(0usize));
    assert forall|x: int| s2.contains(x) implies stack.contains(x) || x == out.len() as int by {
        let k = choose|k: int| 0 <= k < s2.len() && s2[k] == x;
        if k < stack.len() {
            assert(stack[k] == x);
        }
    };
    assert forall|x: int| stack.contains(x) implies s2.contains(x) by {
        let k = choose|k: int| 0 <= k < stack.len() && stack[k] == x;
        assert(s2[k] == x);
    };
    assert(s2.contains(out.len() as int)) by {
        assert(s2[s2.len() - 1] == out.len() as int);
    };
    assert forall|a: int, k: int|
        0 <= a < o2.len() && !s2.contains(a) && 0 <= k < s2.len() && o2[a] is OpenBr implies !(a
            < #[trigger] s2[k] && s2[k] < (#[trigger] o2[a])->OpenBr_0 as int - 1) by {
        assert(a != out.len() as int);
        assert(o2[a] == out[a]);
        // a resolved open's span lies within the old output, and the
        // fresh placeholder sits past it
        assert(resolved_at(out, a));
        if k < stack.len() {
            assert(s2[k] == stack[k]);
        } else {
            assert(s2[k] == out.len() as int);
        }
    };
    assert forall|a: int, b: int|
        0 <= a < b < o2.len() && !s2.contains(a) && !s2.contains(b) && (#[trigger] o2[a])
            is OpenBr && (#[trigger] o2[b]) is OpenBr && b < o2[a]->OpenBr_0 as int
            - 1 implies o2[b]->OpenBr_0 as int <= o2[a]->OpenBr_0 as int - 1 by {
        assert(a != out.len() as int && b != out.len() as int);
        assert(o2[a] == out[a] && o2[b] == out[b]);
    };
}

/// Folding a just-opened pair into one instruction preserves
/// separation.
proof fn lemma_sep_fold(stack: Seq<int>, out: Seq<CommandOpt>, body: CommandOpt)
    requires
        pr(stack, out),
        pr_sep(stack, out),
        stack.len() > 0,
        out.len() > 0,
        is_open(out.last()),
        !is_open(body),
        !is_close(body),
    ensures
        pr_sep(stack.drop_last(), out.drop_last().push(body)),
{
    let li = out.len() - 1;
    let s2 = stack.drop_last();
    let o2 = out.drop_last().push(body);
    assert forall|x: int| s2.contains(x) implies stack.contains(x) by {
        let k = choose|k: int| 0 <= k < s2.len() && s2[k] == x;
        assert(stack[k] == x);
    };
    assert forall|a: int, k: int|
        0 <= a < o2.len() && !s2.contains(a) && 0 <= k < s2.len() && o2[a] is OpenBr implies !(a
            < #[trigger] s2[k] && s2[k] < (#[trigger] o2[a])->OpenBr_0 as int - 1) by {
        if a < li && !stack.contains(a) {
            assert(o2[a] == out[a]);
            assert(s2[k] == stack[k]);
        } else if a < li && stack.contains(a) {
            // a recorded placeholder holds a zero target
            let j = choose|j: int| 0 <= j < stack.len() && stack[j] == a;
            assert(out[a] == CommandOpt::OpenBr(0usize));
            assert(o2[a] == out[a]);
        } else {
            assert(a == li);
            assert(o2[a] == body);
        }
    };
    assert forall|a: int, b: int|
        0 <= a < b < o2.len() && !s2.contains(a) && !s2.contains(b) && (#[trigger] o2[a])
            is OpenBr && (#[trigger] o2[b]) is OpenBr && b < o2[a]->OpenBr_0 as int
            - 1 implies o2[b]->OpenBr_0 as int <= o2[a]->OpenBr_0 as int - 1 by {
        if a < li && b < li {
            assert(o2[a] == out[a] && o2[b] == out[b]);
            if stack.contains(a) {
                assert(out[a] == CommandOpt::OpenBr(0usize));
            } else if stack.contains(b) {
                assert(out[b] == CommandOpt::OpenBr(0usize));
                assert(resolved_at(out, a));
                // a placeholder inside a resolved pair is impossible
                let j = choose|j: int| 0 <= j < stack.len() && stack[j] == b;
                assert(!(a < stack[j] && stack[j] < out[a]->OpenBr_0 as int - 1));
            }
        } else {
            assert(b == li || a == li);
            assert(o2[li] == body);
        }
    };
}

/// Resolving a bracket pair preserves separation.
proof fn lemma_sep_close(stack: Seq<int>, out: Seq<CommandOpt>)
    requires
        pr(stack, out),
        pr_sep(stack, out),
        stack.len() > 0,
        out.len() + 1 <= usize::MAX,
    ensures
        ({
            let conn = stack.last();
            let o2 = out.update(conn, CommandOpt::OpenBr((out.len() + 1) as usize)).push(
                CommandOpt::CloseBr((conn + 1) as usize),
            );
            pr_sep(stack.drop_last(), o2)
        }),
{
    let conn = stack.last();
    let ln = out.len() as int;
    let o2 = out.update(conn, CommandOpt::OpenBr((ln + 1) as usize)).push(
        CommandOpt::CloseBr((conn + 1) as usize),
    );
    let s2 = stack.drop_last();
    assert(0 <= conn < ln);
    assert(out[conn] == CommandOpt::OpenBr(0usize));
    assert forall|x: int| s2.contains(x) implies stack.contains(x) && x < conn by {
        let k = choose|k: int| 0 <= k < s2.len() && s2[k] == x;
        assert(stack[k] == x);
        assert(stack[k] < stack[stack.len() - 1]);
    };
    assert forall|a: int, k: int|
        0 <= a < o2.len() && !s2.contains(a) && 0 <= k < s2.len() && o2[a] is OpenBr implies !(a
            < #[trigger] s2[k] && s2[k] < (#[trigger] o2[a])->OpenBr_0 as int - 1) by {
        assert(s2[k] == stack[k]);
        assert(stack[k] < conn);
        if a == conn {
            // remaining placeholders sit before the newly resolved open
        } else if a == ln {
            assert(o2[a] == CommandOpt::CloseBr((conn + 1) as usize));
        } else if stack.contains(a) {
            assert(o2[a] == out[a]);
            assert(out[a] == CommandOpt::OpenBr(0usize)) by {
                let j = choose|j: int| 0 <= j < stack.len() && stack[j] == a;
            };
        } else {
            assert(o2[a] == out[a]);
        }
    };
    assert forall|a: int, b: int|
        0 <= a < b < o2.len() && !s2.contains(a) && !s2.contains(b) && (#[trigger] o2[a])
            is OpenBr && (#[trigger] o2[b]) is OpenBr && b < o2[a]->OpenBr_0 as int
            - 1 implies o2[b]->OpenBr_0 as int <= o2[a]->OpenBr_0 as int - 1 by {
        if a == conn {
            // the new pair spans (conn, ln): anything resolved inside
            // points within the old output
            if b < ln {
                if stack.contains(b) {
                    let j = choose|j: int| 0 <= j < stack.len() && stack[j] == b;
                    assert(stack[j] <= conn);
                    assert(b == conn || b < conn);
                } else {
                    assert(o2[b] == out[b]);
                    assert(resolved_at(out, b));
                }
            }
        } else if b == conn {
            // a resolved pair cannot have held the placeholder inside
            assert(a < conn);
            if stack.contains(a) {
                let j = choose|j: int| 0 <= j < stack.len() && stack[j] == a;
                assert(out[a] == CommandOpt::OpenBr(0usize));
                assert(o2[a] == out[a]);
                assert(false);
            } else {
                assert(o2[a] == out[a]);
                let j = choose|j: int| 0 <= j < stack.len() && stack[j] == conn;
                assert(!(a < stack[j] && stack[j] < out[a]->OpenBr_0 as int - 1));
                assert(false);
            }
        } else if a == ln || b == ln {
            assert(o2[ln] == CommandOpt::CloseBr((conn + 1) as usize));
        } else {
            assert(o2[a] == out[a] && o2[b] == out[b]);
            if stack.contains(a) {
                let j = choose|j: int| 0 <= j < stack.len() && stack[j] == a;
                assert(out[a] == CommandOpt::OpenBr(0usize));
            } else if stack.contains(b) {
                let j = choose|j: int| 0 <= j < stack.len() && stack[j] == b;
                assert(out[b] == CommandOpt::OpenBr(0usize));
                assert(!(a < stack[j] && stack[j] < out[a]->OpenBr_0 as int - 1));
            }
        }
    };
}

/// One token preserves separation.
proof fn lemma_feed_sep(st: OptSt, cmd: Command)
    requires
        pr(st.stack, st.out),
        pr_sep(st.stack, st.out),
        st.out.len() + 2 <= usize::MAX,
    ensures
        feed_spec(st, cmd) matches Ok(st2) ==> pr_sep(st2.stack, st2.out),
{
    lemma_pr_flush(st);
    match cmd {
        Command::IncPtr | Command::DecPtr | Command::IncVal | Command::DecVal => {
            lemma_sep_flush(st);
        },
        Command::PutChar => {
            lemma_sep_flush(st);
            lemma_sep_push_nb(st.stack, flush(st).out, CommandOpt::PutChar);
        },
        Command::GetChar => {
            lemma_sep_flush(st);
            lemma_sep_push_nb(st.stack, flush(st).out, CommandOpt::GetChar);
        },
        Command::OpenBr => {
            lemma_sep_flush(st);
            lemma_sep_open(st.stack, flush(st).out);
        },
        Command::CloseBr => {
            if st.stack.len() > 0 {
                let fold = match st.pending {
                    Pending::Val(a) => a != 0 && st.out.len() > 0 && is_open(st.out.last()),
                    _ => false,
                };
                if fold {
                    let a = st.pending->Val_0;
                    let body = if a % 2 == 1 {
                        CommandOpt::Zero
                    } else {
                        CommandOpt::LoopForever
                    };
                    lemma_sep_fold(st.stack, st.out, body);
                } else {
                    lemma_sep_flush(st);
                    lemma_sep_close(st.stack, flush(st).out);
                }
            }
        },
    }
}

/// Separation holds after any number of tokens.
proof fn lemma_opt_run_sep(ts: Seq<Command>)
    requires
        ts.len() <= isize::MAX as int,
    ensures
        opt_run(ts) matches Ok(st) ==> pr_sep(st.stack, st.out),
    decreases ts.len(),
{
    if ts.len() > 0 {
        lemma_opt_run_sep(ts.drop_last());
        lemma_opt_run_pr(ts.drop_last());
        let r = opt_run(ts.drop_last());
        if r is Ok {
            lemma_feed_sep(r->Ok_0, ts.last());
        }
    }
}

/// A successful optimization yields a properly nested program.
pub proof fn lemma_optimize_nested(ts: Seq<Command>)
    requires
        ts.len() <= isize::MAX as int,
    ensures
        optimize_spec(ts) matches Ok(p) ==> nested(p),
{
    lemma_opt_run_sep(ts);
    lemma_opt_run_pr(ts);
    lemma_optimize_resolved(ts);
    let r = opt_run(ts);
    if r is Ok {
        let st = r->Ok_0;
        lemma_pr_flush(st);
        lemma_sep_flush(st);
        let f = flush(st);
        if f.stack.len() == 0 {
            let p = f.out;
            assert forall|i: int, k: int| 0 <= k < i < p.len() implies #[trigger] nested_at(
                p,
                i,
                k,
            ) by {
                if p[i] is CloseBr && p[k] is OpenBr {
                    let u = p[i]->CloseBr_0 as int;
                    let t = p[k]->OpenBr_0 as int;
                    if u - 1 < k && k < i && t > i {
                        assert(resolved_at(p, i));
                        assert(p[u - 1] is OpenBr && p[u - 1]->OpenBr_0 as int == i + 1);
                        assert(!f.stack.contains(u - 1) && !f.stack.contains(k));
                        // the pair at u-1 spans past k, so k's target
                        // stays inside it
                        assert(u - 1 < k < p[u - 1]->OpenBr_0 as int - 1);
                        assert(p[k]->OpenBr_0 as int <= p[u - 1]->OpenBr_0 as int - 1);
                        assert(false);
                    }
                }
            };
        }
    }
}

} // verus!
