//! A stack-free virtual machine that executes the optimized
//! instruction stream directly over a growable byte tape.
//!
//! The machine is deterministic over plain values: it consumes a
//! fixed input byte sequence (one byte per `GetChar`, the cell is set
//! to 0 once the input is exhausted) and accumulates its output
//! bytes. Execution is metered by a fuel bound so that every run
//! terminates; the abstract semantics below is the reference for both
//! this interpreter and the native-code backend.

use vstd::prelude::*;

use crate::command_opt::CommandOpt;

verus! {

/// A fatal error raised while executing an instruction stream.
#[derive(Debug, Clone, Copy, PartialEq, Eq, Structural)]
pub enum RuntimeError {
    /// The head would have moved below index 0.
    PointerUnderflow,
    /// The current cell cannot be rendered as one output unit.
    InvalidCharacter,
}

/// The abstract state of the machine: the tape, the head index, the
/// program counter, the remaining input, and the output so far.
#[verifier::ext_equal]
pub ghost struct VmSt {
    pub tape: Seq<u8>,
    pub head: int,
    pub pc: int,
    pub inp: Seq<u8>,
    pub out: Seq<u8>,
}

/// The result of one abstract step.
pub ghost enum StepSpec {
    /// The machine moved to this state.
    Go(VmSt),
    /// The step failed; the state is unchanged.
    Stop(RuntimeError),
    /// The step would need a tape cell beyond what the host's address
    /// space can index; the state is unchanged.
    Lim,
}

/// The result of a whole metered run.
pub ghost enum ORun {
    /// The program counter left the program: a normal halt.
    Done(VmSt),
    /// A fatal error, with the state at the failing instruction.
    Fail(RuntimeError, VmSt),
    /// The fuel ran out, with the state reached so far.
    Out(VmSt),
    /// The tape limit of the host was hit, with the state reached.
    Limit(VmSt),
}

/// The machine state at the start of a run: one zero cell, the head
/// and the program counter at 0, all input ahead, no output.
pub open spec fn init_vm(inp: Seq<u8>) -> VmSt {
    VmSt { tape: seq![0u8], head: 0, pc: 0, inp, out: Seq::empty() }
}

/// The tape extended with zero cells to hold at least `n` cells.
pub open spec fn grow_tape(t: Seq<u8>, n: int) -> Seq<u8> {
    if t.len() >= n {
        t
    } else {
        t + Seq::new((n - t.len()) as nat, |i: int| 0u8)
    }
}

/// Byte addition, wrapping mod 256.
pub open spec fn add_byte(b: u8, v: u8) -> u8 {
    ((b + v) % 256) as u8
}

/// Whether a cell value is a valid output unit. Output rejects,
/// rather than silently replaces, a value it cannot render; since
/// every byte is a valid Unicode scalar value, for byte cells this
/// always holds.
pub open spec fn renderable(b: u8) -> bool {
    (b as int) < 0xD800
}

/// One abstract step of the machine at `st.pc`, which must be within
/// the program.
pub open spec fn vm_step(prg: Seq<CommandOpt>, st: VmSt) -> StepSpec
    recommends
        0 <= st.pc < prg.len(),
{
    match prg[st.pc] {
        CommandOpt::ChPtr(d) => {
            if d >= 0 {
                let h2 = st.head + d;
                if h2 + 1 > usize::MAX {
                    StepSpec::Lim
                } else {
                    StepSpec::Go(
                        VmSt {
                            tape: grow_tape(st.tape, h2 + 1),
                            head: h2,
                            pc: st.pc + 1,
                            inp: st.inp,
                            out: st.out,
                        },
                    )
                }
            } else {
                if st.head + d < 0 {
                    StepSpec::Stop(RuntimeError::PointerUnderflow)
                } else {
                    StepSpec::Go(VmSt { head: st.head + d, pc: st.pc + 1, ..st })
                }
            }
        },
        CommandOpt::ChVal(v) => StepSpec::Go(
            VmSt { tape: st.tape.update(st.head, add_byte(st.tape[st.head], v)), pc: st.pc + 1, ..st },
        ),
        CommandOpt::PutChar => {
            if renderable(st.tape[st.head]) {
                StepSpec::Go(VmSt { out: st.out.push(st.tape[st.head]), pc: st.pc + 1, ..st })
            } else {
                StepSpec::Stop(RuntimeError::InvalidCharacter)
            }
        },
        CommandOpt::GetChar => {
            if st.inp.len() > 0 {
                StepSpec::Go(
                    VmSt {
                        tape: st.tape.update(st.head, st.inp[0]),
                        inp: st.inp.subrange(1, st.inp.len() as int),
                        pc: st.pc + 1,
                        ..st
                    },
                )
            } else {
                StepSpec::Go(VmSt { tape: st.tape.update(st.head, 0u8), pc: st.pc + 1, ..st })
            }
        },
        CommandOpt::Zero => StepSpec::Go(
            VmSt { tape: st.tape.update(st.head, 0u8), pc: st.pc + 1, ..st },
        ),
        CommandOpt::LoopForever => {
            if st.tape[st.head] != 0 {
                StepSpec::Go(st)
            } else {
                StepSpec::Go(VmSt { pc: st.pc + 1, ..st })
            }
        },
        CommandOpt::OpenBr(t) => {
            if st.tape[st.head] == 0 {
                StepSpec::Go(VmSt { pc: t as int, ..st })
            } else {
                StepSpec::Go(VmSt { pc: st.pc + 1, ..st })
            }
        },
        CommandOpt::CloseBr(t) => {
            if st.tape[st.head] != 0 {
                StepSpec::Go(VmSt { pc: t as int, ..st })
            } else {
                StepSpec::Go(VmSt { pc: st.pc + 1, ..st })
            }
        },
    }
}

/// A whole metered run: step until the program counter leaves the
/// program, an error strikes, or the fuel runs out.
pub open spec fn vm_run(prg: Seq<CommandOpt>, st: VmSt, fuel: nat) -> ORun
    decreases fuel,
{
    if !(0 <= st.pc < prg.len()) {
        ORun::Done(st)
    } else if fuel == 0 {
        ORun::Out(st)
    } else {
        match vm_step(prg, st) {
            StepSpec::Go(s2) => vm_run(prg, s2, (fuel - 1) as nat),
            StepSpec::Stop(e) => ORun::Fail(e, st),
            StepSpec::Lim => ORun::Limit(st),
        }
    }
}

/// What one executable step reported.
#[derive(Debug, Clone, Copy, PartialEq, Eq, Structural)]
pub enum StepStatus {
    /// The machine moved on.
    Stepped,
    /// A fatal error; the machine is unchanged.
    Failed(RuntimeError),
    /// The host's tape limit was hit; the machine is unchanged.
    TapeLimit,
}

/// How a whole metered run ended.
#[derive(Debug, Clone, Copy, PartialEq, Eq, Structural)]
pub enum RunStatus {
    /// The program ran to completion.
    Halted,
    /// A fatal error stopped the run.
    Failed(RuntimeError),
    /// The fuel bound was exhausted first.
    OutOfFuel,
    /// The host's tape limit was hit.
    TapeLimit,
}

/// The concrete machine: a growable byte tape, the head, the program
/// counter, the input stream with a read position, and the output.
pub struct Machine {
    pub tape: Vec<u8>,
    pub head: usize,
    pub pc: usize,
    pub input: Vec<u8>,
    pub pos: usize,
    pub out: Vec<u8>,
}

impl View for Machine {
    type V = VmSt;

    open spec fn view(&self) -> VmSt {
        VmSt {
            tape: self.tape@,
            head: self.head as int,
            pc: self.pc as int,
            inp: self.input@.skip(self.pos as int),
            out: self.out@,
        }
    }
}

impl Machine {
    /// The head points at a cell and the read position is within the
    /// input.
    pub open spec fn wf(&self) -> bool {
        &&& (self.head as int) < self.tape@.len()
        &&& (self.pos as int) <= self.input@.len()
    }

    /// A fresh machine over the given input stream.
    pub fn new(input: Vec<u8>) -> (r: Machine)
        ensures
            r@ == init_vm(input@),
            r.wf(),
    {
        let r = Machine { tape: vec![0u8], head: 0, pc: 0, input, pos: 0, out: Vec::new() };
        proof {
            assert(r@.inp =~= r.input@);
            assert(r@ =~= init_vm(r.input@));
        }
        r
    }

    /// Execute the single instruction under the program counter.
    pub fn step(&mut self, prg: &Vec<CommandOpt>) -> (r: StepStatus)
        requires
            old(self).wf(),
            (old(self).pc as int) < prg@.len(),
        ensures
            final(self).wf(),
            final(self).input == old(self).input,
            match vm_step(prg@, old(self)@) {
                StepSpec::Go(st) => r == StepStatus::Stepped && final(self)@ == st,
                StepSpec::Stop(e) => r == StepStatus::Failed(e) && final(self)@ == old(self)@,
                StepSpec::Lim => r == StepStatus::TapeLimit && final(self)@ == old(self)@,
            },
    {
        proof {
            assert(self.pc < prg.len());
        }
        match prg[self.pc] {
            CommandOpt::ChPtr(amt) => {
                if amt >= 0 {
                    match self.head.checked_add(amt as usize) {
                        Some(h2) => {
                            if h2 == usize::MAX {
                                return StepStatus::TapeLimit;
                            }
                            self.head = h2;
                            while self.head >= self.tape.len()
                                invariant
                                    old(self).tape@.len() <= self.tape@.len(),
                                    self.tape@.len() <= old(self).tape@.len() || self.tape@.len()
                                        <= self.head + 1,
                                    self.tape@ == grow_tape(old(self).tape@, self.tape@.len() as int),
                                    self.head == h2,
                                    h2 < usize::MAX,
                                    self.pc == old(self).pc,
                                    self.input == old(self).input,
                                    self.pos == old(self).pos,
                                    self.out == old(self).out,
                                decreases self.head + 1 - self.tape@.len(),
                            {
                                self.tape.push(0);
                                proof {
                                    assert(self.tape@ =~= grow_tape(
                                        old(self).tape@,
                                        self.tape@.len() as int,
                                    ));
                                }
                            }
                            proof {
                                let want = old(self).head + amt + 1;
                                if self.tape@.len() <= old(self).tape@.len() {
                                    assert(self.tape@ =~= old(self).tape@);
                                    assert(self.tape@ =~= grow_tape(old(self).tape@, want));
                                } else {
                                    assert(self.tape@.len() == self.head + 1);
                                    assert(self.tape@ =~= grow_tape(old(self).tape@, want));
                                }
                            }
                            self.pc = self.pc + 1;
                            proof {
                                assert(self@ =~= vm_step(prg@, old(self)@)->Go_0);
                            }
                            StepStatus::Stepped
                        },
                        None => StepStatus::TapeLimit,
                    }
                } else {
                    let back: usize = (-(amt + 1)) as usize + 1;
                    match self.head.checked_sub(back) {
                        Some(h2) => {
                            self.head = h2;
                            self.pc = self.pc + 1;
                            proof {
                                assert(self@ =~= vm_step(prg@, old(self)@)->Go_0);
                            }
                            StepStatus::Stepped
                        },
                        None => StepStatus::Failed(RuntimeError::PointerUnderflow),
                    }
                }
            },
            CommandOpt::ChVal(amt) => {
                let cur = self.tape[self.head];
                let s: u16 = cur as u16 + amt as u16;
                self.tape[self.head] = (s % 256) as u8;
                self.pc = self.pc + 1;
                proof {
                    assert(self@ =~= vm_step(prg@, old(self)@)->Go_0);
                }
                StepStatus::Stepped
            },
            CommandOpt::PutChar => {
                let b = self.tape[self.head];
                if (b as u32) >= 0xD800 {
                    return StepStatus::Failed(RuntimeError::InvalidCharacter);
                }
                self.out.push(b);
                self.pc = self.pc + 1;
                proof {
                    assert(self@ =~= vm_step(prg@, old(self)@)->Go_0);
                }
                StepStatus::Stepped
            },
            CommandOpt::GetChar => {
                if self.pos < self.input.len() {
                    let b = self.input[self.pos];
                    self.pos = self.pos + 1;
                    self.tape[self.head] = b;
                    proof {
                        assert(self.input@.skip(self.pos as int) =~= old(self)@.inp.subrange(
                            1,
                            old(self)@.inp.len() as int,
                        ));
                    }
                } else {
                    self.tape[self.head] = 0;
                }
                self.pc = self.pc + 1;
                proof {
                    assert(self@ =~= vm_step(prg@, old(self)@)->Go_0);
                }
                StepStatus::Stepped
            },
            CommandOpt::Zero => {
                self.tape[self.head] = 0;
                self.pc = self.pc + 1;
                proof {
                    assert(self@ =~= vm_step(prg@, old(self)@)->Go_0);
                }
                StepStatus::Stepped
            },
            CommandOpt::LoopForever => {
                if self.tape[self.head] != 0 {
                    proof {
                        assert(self@ =~= vm_step(prg@, old(self)@)->Go_0);
                    }
                } else {
                    self.pc = self.pc + 1;
                    proof {
                        assert(self@ =~= vm_step(prg@, old(self)@)->Go_0);
                    }
                }
                StepStatus::Stepped
            },
            CommandOpt::OpenBr(target) => {
                if self.tape[self.head] == 0 {
                    self.pc = target;
                } else {
                    self.pc = self.pc + 1;
                }
                proof {
                    assert(self@ =~= vm_step(prg@, old(self)@)->Go_0);
                }
                StepStatus::Stepped
            },
            CommandOpt::CloseBr(target) => {
                if self.tape[self.head] != 0 {
                    self.pc = target;
                } else {
                    self.pc = self.pc + 1;
                }
                proof {
                    assert(self@ =~= vm_step(prg@, old(self)@)->Go_0);
                }
                StepStatus::Stepped
            },
        }
    }
}

/// Run an instruction stream over an input stream, metered by `fuel`
/// steps. The returned machine holds the final tape, head and output;
/// the status says how the run ended.
pub fn run(prg: &Vec<CommandOpt>, input: Vec<u8>, fuel: u64) -> (r: (Machine, RunStatus))
    ensures
        r.0.wf(),
        match vm_run(prg@, init_vm(input@), fuel as nat) {
            ORun::Done(st) => r.1 == RunStatus::Halted && r.0@ == st,
            ORun::Fail(e, st) => r.1 == RunStatus::Failed(e) && r.0@ == st,
            ORun::Out(st) => r.1 == RunStatus::OutOfFuel && r.0@ == st,
            ORun::Limit(st) => r.1 == RunStatus::TapeLimit && r.0@ == st,
        },
{
    let ghost full = vm_run(prg@, init_vm(input@), fuel as nat);
    let mut m = Machine::new(input);
    let mut fuel_left: u64 = fuel;
    #[verifier::loop_isolation(false)]
    while m.pc < prg.len() && fuel_left > 0
        invariant
            m.wf(),
            vm_run(prg@, m@, fuel_left as nat) == full,
        decreases fuel_left,
    {
        let ghost prev = m@;
        let ghost pf = fuel_left;
        match m.step(prg) {
            StepStatus::Stepped => {},
            StepStatus::Failed(e) => {
                proof {
                    assert(vm_run(prg@, prev, pf as nat) == ORun::Fail(e, prev));
                }
                return (m, RunStatus::Failed(e));
            },
            StepStatus::TapeLimit => {
                proof {
                    assert(vm_run(prg@, prev, pf as nat) == ORun::Limit(prev));
                }
                return (m, RunStatus::TapeLimit);
            },
        }
        fuel_left = fuel_left - 1;
        proof {
            assert(vm_run(prg@, prev, pf as nat) == vm_run(prg@, m@, fuel_left as nat));
        }
    }
    if m.pc < prg.len() {
        (m, RunStatus::OutOfFuel)
    } else {
        (m, RunStatus::Halted)
    }
}

} // verus!

verus! {

/// Cell arithmetic wraps modulo 256: any `ChVal` step leaves
/// `add_byte` of the old cell in place; in particular one increment
/// of a cell at 255 yields 0, and one decrement (a delta of 255) of a
/// cell at 0 yields 255.
pub proof fn lemma_cell_wraparound(prg: Seq<CommandOpt>, st: VmSt)
    requires
        0 <= st.pc < prg.len(),
        0 <= st.head < st.tape.len(),
        prg[st.pc] matches CommandOpt::ChVal(_),
    ensures
        ({
            let v = prg[st.pc]->ChVal_0;
            &&& vm_step(prg, st) matches StepSpec::Go(s2) && s2.tape[st.head] == add_byte(
                st.tape[st.head],
                v,
            )
            &&& (st.tape[st.head] == 255 && v == 1 ==> vm_step(prg, st)->Go_0.tape[st.head] == 0)
            &&& (st.tape[st.head] == 0 && v == 255 ==> vm_step(prg, st)->Go_0.tape[st.head] == 255)
        }),
{
}

/// Moving the head to index `d` on a freshly initialized tape of
/// length 1 grows the tape to at least `d + 1` cells, every cell
/// still zero.
pub proof fn lemma_tape_growth(prg: Seq<CommandOpt>, st: VmSt, d: isize)
    requires
        0 <= st.pc < prg.len(),
        prg[st.pc] == CommandOpt::ChPtr(d),
        0 <= d,
        d + 1 <= usize::MAX,
        st.tape == seq![0u8],
        st.head == 0,
    ensures
        vm_step(prg, st) matches StepSpec::Go(s2) && s2.tape.len() >= d + 1 && s2.head == d && (
        forall|i: int| 0 <= i < s2.tape.len() ==> s2.tape[i] == 0u8),
{
    let s2 = vm_step(prg, st)->Go_0;
    assert forall|i: int| 0 <= i < s2.tape.len() implies s2.tape[i] == 0u8 by {
        if i > 0 {
            assert(s2.tape[i] == Seq::new((d + 1 - st.tape.len()) as nat, |j: int| 0u8)[i - 1]);
        }
    };
}

/// Moving the head below index 0 fails with `PointerUnderflow` and
/// executes nothing further: the run ends at once with the state, and
/// in particular the output, exactly as it stood.
pub proof fn lemma_underflow(prg: Seq<CommandOpt>, st: VmSt, fuel: nat)
    requires
        0 <= st.pc < prg.len(),
        fuel > 0,
        st.head >= 0,
        prg[st.pc] matches CommandOpt::ChPtr(d) && st.head + d < 0,
    ensures
        vm_run(prg, st, fuel) == ORun::Fail(RuntimeError::PointerUnderflow, st),
{
}

} // verus!
