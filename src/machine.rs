//! What straight-line assembly does to the machine's registers and memory.

use crate::hack::{Addr, Comp, Dest, Instr, Jump, Reg};
use vstd::prelude::*;

verus! {

/// The machine's data: the address register, the data register, and memory.
/// Every word is a 16-bit two's complement integer.
pub struct Machine {
    pub a: i16,
    pub d: i16,
    pub mem: spec_fn(int) -> i16,
}

/// The word at address `x`.
pub open spec fn at(st: Machine, x: int) -> i16 {
    (st.mem)(x)
}

/// Where the assembler places the symbols that are not named registers
/// (static variables, labels).
pub type Symbols = spec_fn(Seq<char>) -> int;

/// A mathematical integer reduced to a word, for sums of two words.
pub open spec fn word(x: int) -> i16 {
    if x > 0x7fff {
        (x - 0x10000) as i16
    } else if x < -0x8000 {
        (x + 0x10000) as i16
    } else {
        x as i16
    }
}

/// The address of a named register.
pub open spec fn reg_address(r: Reg) -> int {
    match r {
        Reg::SP => 0,
        Reg::LCL => 1,
        Reg::ARG => 2,
        Reg::THIS => 3,
        Reg::THAT => 4,
        Reg::R13 => 13,
        Reg::R14 => 14,
        Reg::R15 => 15,
    }
}

/// The value of a computation from the registers and the addressed word.
pub open spec fn comp_value(c: Comp, a: i16, d: i16, m: i16) -> i16 {
    match c {
        Comp::Zero => 0,
        Comp::One => 1,
        Comp::NegOne => -1i16,
        Comp::D => d,
        Comp::A => a,
        Comp::M => m,
        Comp::DPlusOne => word(d + 1),
        Comp::MPlusOne => word(m + 1),
        Comp::MMinusOne => word(m - 1),
        Comp::DPlusA => word(d + a),
        Comp::DMinusA => word(d - a),
        Comp::DPlusM => word(d + m),
        Comp::MMinusD => word(m - d),
        Comp::DAndM => d & m,
        Comp::DOrM => d | m,
        Comp::NegM => word(-m),
        Comp::NotM => !m,
    }
}

/// Whether a destination includes `A`.
pub open spec fn writes_a(d: Dest) -> bool {
    d is A || d is AM || d is AD
}

/// Whether a destination includes `D`.
pub open spec fn writes_d(d: Dest) -> bool {
    d is D || d is AD
}

/// Whether a destination includes the addressed word `M`.
pub open spec fn writes_m(d: Dest) -> bool {
    d is M || d is AM
}

/// Memory after writing `v` at address `addr`.
pub open spec fn store(mem: spec_fn(int) -> i16, addr: int, v: i16) -> spec_fn(int) -> i16 {
    |x: int| if x == addr { v } else { mem(x) }
}

/// The machine after `@v`, or `None` where `v` is no address.
pub open spec fn load(st: Machine, v: int) -> Option<Machine> {
    if 0 <= v <= 0x7fff {
        Some(Machine { a: v as i16, ..st })
    } else {
        None
    }
}

/// One instruction. `None` where execution leaves the straight line (any
/// jump instruction) or a load names no address.
pub open spec fn step(i: Instr, syms: Symbols, st: Machine) -> Option<Machine> {
    match i {
        Instr::Load(Addr::Num(n)) => load(st, n as int),
        Instr::Load(Addr::Reg(r)) => load(st, reg_address(r)),
        Instr::Load(Addr::Sym(s)) => load(st, syms(s)),
        Instr::Op(dest, c, j) => {
            if j is Nil {
                let v = comp_value(c, st.a, st.d, (st.mem)(st.a as int));
                Some(
                    Machine {
                        a: if writes_a(dest) { v } else { st.a },
                        d: if writes_d(dest) { v } else { st.d },
                        mem: if writes_m(dest) { store(st.mem, st.a as int, v) } else { st.mem },
                    },
                )
            } else {
                None
            }
        },
        Instr::Label(_) => Some(st),
    }
}

/// The instructions from index `i` on, run in order.
pub open spec fn run_from(code: Seq<Instr>, i: nat, syms: Symbols, st: Machine) -> Option<Machine>
    decreases code.len() - i,
{
    if i >= code.len() {
        Some(st)
    } else {
        match step(code[i as int], syms, st) {
            Some(next) => run_from(code, i + 1, syms, next),
            None => None,
        }
    }
}

/// The machine after running straight-line code, or `None` where it jumps or
/// loads an invalid address.
pub open spec fn run(code: Seq<Instr>, syms: Symbols, st: Machine) -> Option<Machine> {
    run_from(code, 0, syms, st)
}

/// Running `a` and then `b` from where `a` stopped.
pub open spec fn then_run(r: Option<Machine>, b: Seq<Instr>, syms: Symbols) -> Option<Machine> {
    match r {
        Some(st) => run(b, syms, st),
        None => None,
    }
}

proof fn lemma_run_from_suffix(a: Seq<Instr>, b: Seq<Instr>, j: nat, syms: Symbols, st: Machine)
    ensures
        run_from(a + b, a.len() + j, syms, st) == run_from(b, j, syms, st),
    decreases b.len() - j,
{
    if j < b.len() {
        assert((a + b)[(a.len() + j) as int] == b[j as int]);
        match step(b[j as int], syms, st) {
            Some(next) => lemma_run_from_suffix(a, b, j + 1, syms, next),
            None => {},
        }
    }
}

proof fn lemma_run_from_concat(a: Seq<Instr>, b: Seq<Instr>, i: nat, syms: Symbols, st: Machine)
    requires
        i <= a.len(),
    ensures
        run_from(a + b, i, syms, st) == match run_from(a, i, syms, st) {
            Some(t) => run(b, syms, t),
            None => None,
        },
    decreases a.len() - i,
{
    if i < a.len() {
        assert((a + b)[i as int] == a[i as int]);
        match step(a[i as int], syms, st) {
            Some(next) => lemma_run_from_concat(a, b, i + 1, syms, next),
            None => {},
        }
    } else {
        lemma_run_from_suffix(a, b, 0, syms, st);
    }
}

/// Running a concatenation runs its parts in turn.
pub proof fn lemma_run_concat(a: Seq<Instr>, b: Seq<Instr>, syms: Symbols, st: Machine)
    ensures
        run(a + b, syms, st) == then_run(run(a, syms, st), b, syms),
{
    lemma_run_from_concat(a, b, 0, syms, st);
}

/// Whether a jump is taken on the computed value.
pub open spec fn taken(j: Jump, v: i16) -> bool {
    match j {
        Jump::Nil => false,
        Jump::JEQ => v == 0,
        Jump::JGT => v > 0,
        Jump::JLT => v < 0,
        Jump::JGE => v >= 0,
        Jump::JNE => v != 0,
        Jump::JMP => true,
    }
}

/// Whether every label of `code` has, among the symbols, the address it
/// gets when the code is placed at address `base`.
pub open spec fn labels_placed(code: Seq<Instr>, base: int, syms: Symbols) -> bool {
    forall|k: int|
        0 <= k < code.len() && #[trigger] code[k] is Label ==> syms(code[k]->Label_0) == base + k
}

/// The instruction at index `pc` of code placed at `base`: the machine after
/// it and the index of the next instruction, which a taken jump finds by the
/// address in `A`. `None` where `pc` is outside the code or a load names no
/// address.
pub open spec fn exec_step(
    code: Seq<Instr>,
    base: int,
    syms: Symbols,
    st: Machine,
    pc: int,
) -> Option<(Machine, int)> {
    if pc < 0 || pc >= code.len() {
        None
    } else {
        match code[pc] {
            Instr::Op(dest, c, j) => {
                let v = comp_value(c, st.a, st.d, (st.mem)(st.a as int));
                let t = Machine {
                    a: if writes_a(dest) { v } else { st.a },
                    d: if writes_d(dest) { v } else { st.d },
                    mem: if writes_m(dest) { store(st.mem, st.a as int, v) } else { st.mem },
                };
                Some((t, if taken(j, v) { st.a as int - base } else { pc + 1 }))
            },
            i => match step(i, syms, st) {
                Some(t) => Some((t, pc + 1)),
                None => None,
            },
        }
    }
}

/// The machine when execution from index `pc` reaches the end of the code
/// within `fuel` instructions; `None` where it does not.
pub open spec fn exec(
    code: Seq<Instr>,
    base: int,
    syms: Symbols,
    st: Machine,
    pc: int,
    fuel: nat,
) -> Option<Machine>
    decreases fuel,
{
    if pc == code.len() {
        Some(st)
    } else if fuel == 0 {
        None
    } else {
        match exec_step(code, base, syms, st, pc) {
            Some((t, next)) => exec(code, base, syms, t, next, (fuel - 1) as nat),
            None => None,
        }
    }
}

/// Exactly `k` instructions from index `pc`: the machine and the index of
/// the next instruction; `None` where one of them cannot run.
pub open spec fn steps(
    code: Seq<Instr>,
    base: int,
    syms: Symbols,
    st: Machine,
    pc: int,
    k: nat,
) -> Option<(Machine, int)>
    decreases k,
{
    if k == 0 {
        Some((st, pc))
    } else {
        match exec_step(code, base, syms, st, pc) {
            Some((t, next)) => steps(code, base, syms, t, next, (k - 1) as nat),
            None => None,
        }
    }
}

/// Running to the end goes through any state that some steps reach.
pub proof fn lemma_exec_steps(
    code: Seq<Instr>,
    base: int,
    syms: Symbols,
    st: Machine,
    pc: int,
    k: nat,
    fuel: nat,
)
    requires
        steps(code, base, syms, st, pc, k) is Some,
        k <= fuel,
    ensures
        exec(code, base, syms, st, pc, fuel) == exec(
            code,
            base,
            syms,
            steps(code, base, syms, st, pc, k).unwrap().0,
            steps(code, base, syms, st, pc, k).unwrap().1,
            (fuel - k) as nat,
        ),
    decreases k,
{
    if k > 0 {
        let (t, next) = exec_step(code, base, syms, st, pc).unwrap();
        lemma_exec_steps(code, base, syms, t, next, (k - 1) as nat, (fuel - 1) as nat);
    }
}

/// Steps within a block of the code, placed at `base + off`, are steps of
/// the code placed at `base`.
pub proof fn lemma_steps_block(
    code: Seq<Instr>,
    off: int,
    b: Seq<Instr>,
    base: int,
    syms: Symbols,
    st: Machine,
    pc: int,
    k: nat,
)
    requires
        0 <= off,
        off + b.len() <= code.len(),
        code.subrange(off, off + b.len()) == b,
        steps(b, base + off, syms, st, pc, k) is Some,
    ensures
        steps(code, base, syms, st, off + pc, k) == Some(
            (
                steps(b, base + off, syms, st, pc, k).unwrap().0,
                steps(b, base + off, syms, st, pc, k).unwrap().1 + off,
            ),
        ),
    decreases k,
{
    if k > 0 {
        assert(code[off + pc] == b[pc]);
        let (t, next) = exec_step(b, base + off, syms, st, pc).unwrap();
        lemma_steps_block(code, off, b, base, syms, t, next, (k - 1) as nat);
    }
}

} // verus!
