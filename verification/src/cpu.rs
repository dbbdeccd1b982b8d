//! Machine state and the fetch-decode-execute engine.
//!
//! The machine owns a 256-slot register file, 1024 words of data memory,
//! 128 instruction words and a program counter. `load` assembles a whole
//! program into instruction memory; `step` executes one instruction and
//! `run` drives `step` until the machine halts. The machine halts exactly
//! when the fetched word's opcode field holds no valid tag — unused
//! instruction memory stays the all-zero word, whose tag 0 is never
//! valid, so every program that fits in memory reaches a halt.

use crate::assembler::ParseError;
use crate::assembler::assemble_tokens;
use crate::assembler::spec_assemble;
use crate::assembler::spec_tokenize;
use crate::assembler::tokenize;
use crate::assembler::views_of;
use crate::insn::Insn;
use crate::insn::dest_bits;
use crate::insn::immediate_bits;
use crate::insn::opcode_bits;
use crate::insn::src1_bits;
use crate::insn::src2_bits;
use crate::opcode::Opcode;
use crate::opcode::chars_of;
use vstd::prelude::*;
use vstd::wrapping::u32_specs;

verus! {

/// Instruction memory capacity, in 64-bit words.
pub const INSN_SIZE: usize = 128;

/// Data memory capacity, in 32-bit words.
pub const DATA_SIZE: usize = 1024;

/// Number of general-purpose registers.
pub const REG_COUNT: usize = 256;

/// What one call to `step` did.
#[derive(Clone, Copy, Debug, PartialEq, Eq, Structural)]
pub enum StepOutcome {
    /// An instruction was executed and the program counter advanced.
    Executed,
    /// The fetched word holds no valid opcode; the machine is halted.
    Halted,
}

/// A fault raised by the execution engine for a malformed instruction
/// word or a runaway program counter. Never used for ordinary halting.
#[derive(Clone, Copy, Debug, PartialEq, Eq, Structural)]
pub enum RuntimeError {
    /// The program counter points past instruction memory.
    ProgramCounterOutOfRange,
    /// A Load or Store addresses data memory at 1024 or beyond.
    AddressOutOfRange,
    /// An instruction names a register index of 256 or more. A decoded
    /// 8-bit register field can never reach this, but the taxonomy keeps
    /// the case for completeness.
    RegisterOutOfRange,
}

/// Why a whole program failed to load.
#[derive(Clone, Copy, Debug, PartialEq, Eq, Structural)]
pub enum LoadError {
    /// More than 128 non-blank lines.
    ProgramTooLarge,
    /// The first malformed line, with its 1-based line number.
    Parse { line: usize, err: ParseError },
}

/// The mathematical model of a machine: its four stores, the program
/// counter and whether it has halted.
#[verifier::ext_equal]
pub struct CpuView {
    pub insn: Seq<u64>,
    pub data: Seq<u32>,
    pub regs: Seq<u32>,
    pub ip: nat,
    pub halted: bool,
}

impl CpuView {
    /// The stores have their fixed capacities and the program counter
    /// never leaves instruction memory by more than one word.
    pub open spec fn wf(self) -> bool {
        &&& self.insn.len() == 128
        &&& self.data.len() == 1024
        &&& self.regs.len() == 256
        &&& self.ip <= 128
    }

    /// The state right after loading the words `ws`: they sit at the
    /// bottom of instruction memory, everything else is zero, the
    /// program counter is 0 and the machine is running.
    pub open spec fn loaded(ws: Seq<u64>) -> CpuView {
        CpuView {
            insn: Seq::new(128, |i: int| if i < ws.len() { ws[i] } else { 0u64 }),
            data: Seq::new(1024, |i: int| 0u32),
            regs: Seq::new(256, |i: int| 0u32),
            ip: 0,
            halted: false,
        }
    }
}

/// What one step does to a machine state: fetch the word under the
/// program counter, halt if its opcode tag is invalid, otherwise execute
/// it and advance the counter by one. Add and Sub wrap modulo 2^32.
pub open spec fn spec_step(v: CpuView) -> Result<(CpuView, StepOutcome), RuntimeError> {
    if v.halted {
        Ok((v, StepOutcome::Halted))
    } else if v.ip >= 128 {
        Err(RuntimeError::ProgramCounterOutOfRange)
    } else {
        let w = v.insn[v.ip as int];
        match Opcode::spec_from_u64(opcode_bits(w)) {
            None => Ok((CpuView { halted: true, ..v }, StepOutcome::Halted)),
            Some(op) => {
                let src1 = src1_bits(w) as int;
                let src2 = src2_bits(w) as int;
                let dest = dest_bits(w) as int;
                let imm = immediate_bits(w);
                match op {
                    Opcode::Load => if imm >= 1024 {
                        Err(RuntimeError::AddressOutOfRange)
                    } else {
                        Ok(
                            (
                                CpuView {
                                    regs: v.regs.update(dest, v.data[imm as int]),
                                    ip: v.ip + 1,
                                    ..v
                                },
                                StepOutcome::Executed,
                            ),
                        )
                    },
                    Opcode::Store => if imm >= 1024 {
                        Err(RuntimeError::AddressOutOfRange)
                    } else {
                        Ok(
                            (
                                CpuView {
                                    data: v.data.update(imm as int, v.regs[src1]),
                                    ip: v.ip + 1,
                                    ..v
                                },
                                StepOutcome::Executed,
                            ),
                        )
                    },
                    Opcode::Move => Ok(
                        (
                            CpuView { regs: v.regs.update(dest, imm as u32), ip: v.ip + 1, ..v },
                            StepOutcome::Executed,
                        ),
                    ),
                    Opcode::Add => Ok(
                        (
                            CpuView {
                                regs: v.regs.update(
                                    dest,
                                    u32_specs::wrapping_add(v.regs[src1], v.regs[src2]),
                                ),
                                ip: v.ip + 1,
                                ..v
                            },
                            StepOutcome::Executed,
                        ),
                    ),
                    Opcode::Sub => Ok(
                        (
                            CpuView {
                                regs: v.regs.update(
                                    dest,
                                    u32_specs::wrapping_sub(v.regs[src1], v.regs[src2]),
                                ),
                                ip: v.ip + 1,
                                ..v
                            },
                            StepOutcome::Executed,
                        ),
                    ),
                }
            },
        }
    }
}

/// A step never breaks the machine's shape invariant.
pub proof fn lemma_spec_step_wf(v: CpuView)
    requires
        v.wf(),
    ensures
        spec_step(v) is Ok ==> spec_step(v)->Ok_0.0.wf(),
{
    if !v.halted && v.ip < 128 {
        crate::insn::lemma_fields_bounded(v.insn[v.ip as int]);
    }
}

/// What running to completion does: iterate `spec_step` until it reports
/// a halt (normal termination) or a fault. The pair holds the final
/// machine state and the overall outcome.
pub open spec fn spec_run(v: CpuView) -> (CpuView, Result<(), RuntimeError>)
    decreases 128 - v.ip,
{
    match spec_step(v) {
        Err(e) => (v, Err(e)),
        Ok((v2, StepOutcome::Halted)) => (v2, Ok(())),
        Ok((v2, StepOutcome::Executed)) => spec_run(v2),
    }
}

/// Where the first parse failure in `lines` is, assembling every
/// non-blank line from index `i` on; `Ok` carries the assembled words in
/// line order.
pub open spec fn spec_assemble_lines(lines: Seq<Seq<char>>, i: int) -> Result<
    Seq<u64>,
    (int, ParseError),
>
    decreases lines.len() - i,
{
    if i < 0 || i >= lines.len() {
        Ok(Seq::empty())
    } else if spec_tokenize(lines[i]).len() == 0 {
        spec_assemble_lines(lines, i + 1)
    } else {
        match spec_assemble(lines[i]) {
            Err(e) => Err((i + 1, e)),
            Ok(w) => match spec_assemble_lines(lines, i + 1) {
                Err(p) => Err(p),
                Ok(ws) => Ok(seq![w] + ws),
            },
        }
    }
}

/// How many of the lines from index `i` on are non-blank, a line being
/// blank when it has no tokens at all.
pub open spec fn count_nonblank(lines: Seq<Seq<char>>, i: int) -> int
    decreases lines.len() - i,
{
    if i < 0 || i >= lines.len() {
        0
    } else if spec_tokenize(lines[i]).len() == 0 {
        count_nonblank(lines, i + 1)
    } else {
        1 + count_nonblank(lines, i + 1)
    }
}

/// One step of the line splitter: fold the next character into the lines
/// finished so far and the line currently being read.
pub open spec fn line_step(lines: Seq<Seq<char>>, cur: Seq<char>, c: char) -> (Seq<Seq<char>>, Seq<
    char,
>) {
    if c == '\n' {
        (lines.push(cur), Seq::empty())
    } else {
        (lines, cur.push(c))
    }
}

/// The line splitter state after reading the first `n` characters of `s`.
pub open spec fn line_fold(s: Seq<char>, n: int) -> (Seq<Seq<char>>, Seq<char>)
    decreases n,
{
    if n <= 0 {
        (Seq::empty(), Seq::empty())
    } else {
        let p = line_fold(s, n - 1);
        line_step(p.0, p.1, s[n - 1])
    }
}

/// The lines of `s`, split on newline characters; empty lines are kept
/// so that line numbers count every source line.
pub open spec fn spec_lines(s: Seq<char>) -> Seq<Seq<char>> {
    let p = line_fold(s, s.len() as int);
    p.0.push(p.1)
}

/// Split `s` into lines on newline characters, keeping empty lines.
fn split_lines(s: &Vec<char>) -> (r: Vec<Vec<char>>)
    ensures
        views_of(r@) == spec_lines(s@),
{
    let mut lines: Vec<Vec<char>> = Vec::new();
    let mut cur: Vec<char> = Vec::new();
    let mut i: usize = 0;
    while i < s.len()
        invariant
            i <= s@.len(),
            (views_of(lines@), cur@) == line_fold(s@, i as int),
        decreases s@.len() - i,
    {
        let ghost prev = (views_of(lines@), cur@);
        let c = s[i];
        if c == '\n' {
            let done = cur;
            cur = Vec::new();
            lines.push(done);
            assert(views_of(lines@) =~= prev.0.push(done@));
        } else {
            cur.push(c);
        }
        assert((views_of(lines@), cur@) == line_step(prev.0, prev.1, s@[i as int]));
        i += 1;
    }
    let ghost before = views_of(lines@);
    lines.push(cur);
    assert(views_of(lines@) =~= before.push(cur@));
    lines
}

/// The machine: four fixed-capacity stores and a program counter.
pub struct Cpu {
    insn: Vec<u64>,
    data: Vec<u32>,
    regs: Vec<u32>,
    ip: usize,
    halted: bool,
}

impl View for Cpu {
    type V = CpuView;

    closed spec fn view(&self) -> CpuView {
        CpuView {
            insn: self.insn@,
            data: self.data@,
            regs: self.regs@,
            ip: self.ip as nat,
            halted: self.halted,
        }
    }
}

impl Default for Cpu {
    /// The same all-zero machine that `new` builds.
    fn default() -> (r: Cpu)
        ensures
            r@ == CpuView::loaded(Seq::empty()),
    {
        Cpu::new()
    }
}

impl Cpu {
    #[verifier::type_invariant]
    spec fn shape_wf(self) -> bool {
        self@.wf()
    }

    /// A fresh machine: everything zero, running, counter at 0.
    pub fn new() -> (r: Cpu)
        ensures
            r@ == CpuView::loaded(Seq::empty()),
    {
        let r = Cpu {
            insn: vec![0u64; INSN_SIZE],
            data: vec![0u32; DATA_SIZE],
            regs: vec![0u32; REG_COUNT],
            ip: 0,
            halted: false,
        };
        proof {
            assert(r@.insn =~= CpuView::loaded(Seq::empty()).insn);
            assert(r@.data =~= CpuView::loaded(Seq::empty()).data);
            assert(r@.regs =~= CpuView::loaded(Seq::empty()).regs);
            assert(r@ =~= CpuView::loaded(Seq::empty()));
        }
        r
    }

    /// The instruction memory, for inspection.

    pub fn insn_memory(&self) -> (r: &Vec<u64>)
        ensures
            r@ == self@.insn,
    {
        &self.insn
    }

    /// The data memory, for inspection.
    pub fn data_memory(&self) -> (r: &Vec<u32>)
        ensures
            r@ == self@.data,
    {
        &self.data
    }

    /// The register file, for inspection.
    pub fn registers(&self) -> (r: &Vec<u32>)
        ensures
            r@ == self@.regs,
    {
        &self.regs
    }

    /// The program counter.
    pub fn ip(&self) -> (r: usize)
        ensures
            r == self@.ip,
    {
        self.ip
    }

    /// Has the machine reached its terminal state?
    pub fn is_halted(&self) -> (r: bool)
        ensures
            r == self@.halted,
    {
        self.halted
    }

    /// Load a whole program. Blank lines are skipped; every other line is
    /// assembled in order into instruction memory starting at word 0. On
    /// any failure the machine is left exactly as it was; on success the
    /// machine is reset to a fresh state holding only this program.
    pub fn load(&mut self, program: &str) -> (r: Result<(), LoadError>)
        ensures
            ({
                let ls = spec_lines(program@);
                if count_nonblank(ls, 0) > 128 {
                    r == Err::<(), LoadError>(LoadError::ProgramTooLarge) && final(self)@ == old(
                        self,
                    )@
                } else {
                    match spec_assemble_lines(ls, 0) {
                        Ok(ws) => r == Ok::<(), LoadError>(()) && final(self)@ == CpuView::loaded(
                            ws,
                        ),
                        Err(p) => r == Err::<(), LoadError>(
                            LoadError::Parse { line: p.0 as usize, err: p.1 },
                        ) && p.0 <= usize::MAX && final(self)@ == old(self)@,
                    }
                }
            }),
    {
        proof {
            use_type_invariant(&*self);
        }
        let cs = chars_of(program);
        let lines = split_lines(&cs);
        let ghost ls = spec_lines(program@);
        // First pass: count the non-blank lines against capacity.
        let mut nb: usize = 0;
        let mut i: usize = 0;
        while i < lines.len()
            invariant
                i <= lines@.len(),
                ls == spec_lines(program@),
                views_of(lines@) == ls,
                nb == count_nonblank(ls, 0) - count_nonblank(ls, i as int),
                nb <= i,
            decreases lines@.len() - i,
        {
            assert(ls[i as int] == lines@[i as int]@);
            let toks = tokenize(&lines[i]);
            if toks.len() > 0 {
                nb += 1;
            }
            i += 1;
        }
        assert(count_nonblank(ls, lines@.len() as int) == 0);
        if nb > INSN_SIZE {
            return Err(LoadError::ProgramTooLarge);
        }
        // Second pass: assemble every non-blank line, stopping at the
        // first malformed one.
        let mut words: Vec<u64> = Vec::new();
        let mut j: usize = 0;
        while j < lines.len()
            invariant
                j <= lines@.len(),
                ls == spec_lines(program@),
                views_of(lines@) == ls,
                count_nonblank(ls, 0) <= 128,
                words@.len() == count_nonblank(ls, 0) - count_nonblank(ls, j as int),
                spec_assemble_lines(ls, 0) == match spec_assemble_lines(ls, j as int) {
                    Ok(ws) => Ok::<Seq<u64>, (int, ParseError)>(words@ + ws),
                    Err(p) => Err::<Seq<u64>, (int, ParseError)>(p),
                },
            decreases lines@.len() - j,
        {
            assert(ls[j as int] == lines@[j as int]@);
            let toks = tokenize(&lines[j]);
            if toks.len() > 0 {
                match assemble_tokens(&toks) {
                    Err(e) => {
                        assert(spec_assemble_lines(ls, j as int) == Err::<
                            Seq<u64>,
                            (int, ParseError),
                        >((j + 1, e)));
                        return Err(LoadError::Parse { line: j + 1, err: e });
                    },
                    Ok(ins) => {
                        let ghost ws_before = words@;
                        words.push(ins.to_u64());
                        proof {
                            if let Ok(rest) = spec_assemble_lines(ls, j + 1) {
                                assert(ws_before + (seq![ins@] + rest) =~= words@ + rest);
                            }
                        }
                    },
                }
            }
            j += 1;
        }
        assert(spec_assemble_lines(ls, lines@.len() as int) == Ok::<Seq<u64>, (int, ParseError)>(
            Seq::empty(),
        ));
        assert(words@ + Seq::<u64>::empty() =~= words@);
        // Commit: reset every store and place the program.
        let n = words.len();
        assert(n <= 128);
        self.insn = vec![0u64; INSN_SIZE];
        self.data = vec![0u32; DATA_SIZE];
        self.regs = vec![0u32; REG_COUNT];
        self.ip = 0;
        self.halted = false;
        let mut k: usize = 0;
        while k < n
            invariant
                k <= n,
                n == words@.len() <= 128,
                self.insn@.len() == 128,
                self.data@ == Seq::new(1024, |i: int| 0u32),
                self.regs@ == Seq::new(256, |i: int| 0u32),
                self.ip == 0,
                self.halted == false,
                forall|m: int| 0 <= m < k ==> self.insn@[m] == words@[m],
                forall|m: int| k <= m < 128 ==> self.insn@[m] == 0u64,
            decreases n - k,
        {
            let w = words[k];
            self.insn[k] = w;
            k += 1;
        }
        proof {
            assert(self@.insn =~= CpuView::loaded(words@).insn);
            assert(self@ =~= CpuView::loaded(words@));
        }
        Ok(())
    }

    /// Execute one instruction, halt on an invalid opcode tag, or report
    /// a fault; a fault leaves the machine untouched.
    pub fn step(&mut self) -> (r: Result<StepOutcome, RuntimeError>)
        ensures
            match spec_step(old(self)@) {
                Ok(p) => r == Ok::<StepOutcome, RuntimeError>(p.1) && final(self)@ == p.0,
                Err(e) => r == Err::<StepOutcome, RuntimeError>(e) && final(self)@ == old(self)@,
            },
    {
        proof {
            use_type_invariant(&*self);
        }
        if self.halted {
            return Ok(StepOutcome::Halted);
        }
        if self.ip >= INSN_SIZE {
            return Err(RuntimeError::ProgramCounterOutOfRange);
        }
        let w = self.insn[self.ip];
        let ins = Insn::new(w);
        let op = match ins.get_opcode() {
            None => {
                self.halted = true;
                return Ok(StepOutcome::Halted);
            },
            Some(op) => op,
        };
        match op {
            Opcode::Load => {
                let addr = ins.get_immediate();
                if addr >= 1024 {
                    return Err(RuntimeError::AddressOutOfRange);
                }
                let dest = ins.get_dest();
                let value = self.data[addr as usize];
                self.regs[dest as usize] = value;
            },
            Opcode::Store => {
                let addr = ins.get_immediate();
                if addr >= 1024 {
                    return Err(RuntimeError::AddressOutOfRange);
                }
                let src1 = ins.get_src1();
                let value = self.regs[src1 as usize];
                self.data[addr as usize] = value;
            },
            Opcode::Move => {
                let imm = ins.get_immediate();
                let dest = ins.get_dest();
                self.regs[dest as usize] = imm;
            },
            Opcode::Add => {
                let a = self.regs[ins.get_src1() as usize];
                let b = self.regs[ins.get_src2() as usize];
                let dest = ins.get_dest();
                self.regs[dest as usize] = a.wrapping_add(b);
            },
            Opcode::Sub => {
                let a = self.regs[ins.get_src1() as usize];
                let b = self.regs[ins.get_src2() as usize];
                let dest = ins.get_dest();
                self.regs[dest as usize] = a.wrapping_sub(b);
            },
        }
        self.ip = self.ip + 1;
        Ok(StepOutcome::Executed)
    }

    /// Drive `step` until the machine halts, or propagate the first
    /// fault. No bound is needed: each executed instruction advances the
    /// program counter, and past the end of instruction memory a fault
    /// is reported, so the loop always ends.
    pub fn run(&mut self) -> (r: Result<(), RuntimeError>)
        ensures
            final(self)@ == spec_run(old(self)@).0,
            r == spec_run(old(self)@).1,
    {
        proof {
            use_type_invariant(&*self);
        }
        let ghost orig = self@;
        loop
            invariant
                orig == old(self)@,
                self@.wf(),
                spec_run(orig) == spec_run(self@),
            decreases 128 - self@.ip + (if self@.halted {
                0int
            } else {
                1int
            }),
        {
            let ghost before = self@;
            match self.step() {
                Err(e) => {
                    return Err(e);
                },
                Ok(StepOutcome::Halted) => {
                    return Ok(());
                },
                Ok(StepOutcome::Executed) => {
                    proof {
                        lemma_spec_step_wf(before);
                        assert(spec_run(before) == spec_run(self@));
                    }
                },
            }
        }
    }
}


/// Wrapping subtraction: when the subtrahend exceeds the minuend, Sub
/// wraps around 2^32 instead of faulting, leaving `2^32 - (b - a)`.
pub proof fn lemma_sub_wraps(a: u32, b: u32)
    requires
        a < b,
    ensures
        u32_specs::wrapping_sub(a, b) == 0x1_0000_0000 - (b - a),
{
}

/// Halt on the zero-word sentinel: when a step executes an instruction
/// and the next slot of instruction memory holds the all-zero word, the
/// very next step halts the machine without touching any store. In
/// particular, a machine loaded with a single valid instruction halts
/// exactly after one executed step.
pub proof fn lemma_halt_on_sentinel(v: CpuView)
    requires
        v.wf(),
        (spec_step(v) is Ok),
        spec_step(v)->Ok_0.1 == StepOutcome::Executed,
        spec_step(v)->Ok_0.0.ip < 128,
        v.insn[spec_step(v)->Ok_0.0.ip as int] == 0,
    ensures
        spec_run(v).1 == Ok::<(), RuntimeError>(()),
        spec_run(v).0 == (CpuView { halted: true, ..spec_step(v)->Ok_0.0 }),
{
    reveal_with_fuel(spec_run, 2);
    let v1 = spec_step(v)->Ok_0.0;
    assert(v1.insn == v.insn && !v1.halted);
    crate::insn::lemma_zero_fields();
    assert(spec_step(v1) == Ok::<(CpuView, StepOutcome), RuntimeError>(
        (CpuView { halted: true, ..v1 }, StepOutcome::Halted),
    ));
}

} // verus!
