//! The target assembly: a model of its instructions, their text, and a
//! writer that emits text while tracking the instructions it stands for.

use vstd::prelude::*;

verus! {

/// The text of a natural number in base ten, most significant digit first.
pub open spec fn decimal(n: nat) -> Seq<char>
    decreases n,
{
    if n < 10 {
        seq![digit_char(n)]
    } else {
        decimal(n / 10).push(digit_char(n % 10))
    }
}

/// The character of a single decimal digit.
pub open spec fn digit_char(d: nat) -> char {
    if d == 0 {
        '0'
    } else if d == 1 {
        '1'
    } else if d == 2 {
        '2'
    } else if d == 3 {
        '3'
    } else if d == 4 {
        '4'
    } else if d == 5 {
        '5'
    } else if d == 6 {
        '6'
    } else if d == 7 {
        '7'
    } else if d == 8 {
        '8'
    } else {
        '9'
    }
}

fn digit_str(d: u64) -> (r: &'static str)
    requires
        d < 10,
    ensures
        r@ == seq![digit_char(d as nat)],
{
    proof {
        reveal_strlit("0");
        reveal_strlit("1");
        reveal_strlit("2");
        reveal_strlit("3");
        reveal_strlit("4");
        reveal_strlit("5");
        reveal_strlit("6");
        reveal_strlit("7");
        reveal_strlit("8");
        reveal_strlit("9");
    }
    match d {
        0 => "0",
        1 => "1",
        2 => "2",
        3 => "3",
        4 => "4",
        5 => "5",
        6 => "6",
        7 => "7",
        8 => "8",
        _ => "9",
    }
}

/// Appends the decimal text of `n`.
pub fn push_decimal(out: &mut String, n: u64)
    ensures
        final(out)@ == old(out)@ + decimal(n as nat),
    decreases n,
{
    if n >= 10 {
        push_decimal(out, n / 10);
    }
    let d = digit_str(n % 10);
    out.append(d);
    assert(out@ =~= old(out)@ + decimal(n as nat));
}

/// Where an instruction stores what it computes.
#[derive(Clone, Copy, Debug)]
pub enum Dest {
    Nil,
    A,
    D,
    M,
    AM,
    AD,
}

/// What an instruction computes from the address register `A`, the data
/// register `D` and the memory word `M` that `A` addresses.
#[derive(Clone, Copy, Debug)]
pub enum Comp {
    Zero,
    One,
    NegOne,
    D,
    A,
    M,
    DPlusOne,
    MPlusOne,
    MMinusOne,
    DPlusA,
    DMinusA,
    DPlusM,
    MMinusD,
    DAndM,
    DOrM,
    NegM,
    NotM,
}

/// The condition, on the computed value, under which an instruction jumps
/// to the address held in `A`.
#[derive(Clone, Copy, Debug)]
pub enum Jump {
    Nil,
    JEQ,
    JGT,
    JLT,
    JGE,
    JNE,
    JMP,
}

/// A register that the assembler knows by name: the stack pointer, the four
/// segment bases, and three scratch words.
#[derive(Clone, Copy, Debug)]
pub enum Reg {
    SP,
    LCL,
    ARG,
    THIS,
    THAT,
    R13,
    R14,
    R15,
}

/// The operand of a load: a number, a named register, or a symbol that the
/// assembler resolves.
pub enum Addr {
    Num(nat),
    Reg(Reg),
    Sym(Seq<char>),
}

/// One line of assembly.
pub enum Instr {
    /// `@x`: loads a number or a symbol's address into `A`.
    Load(Addr),
    /// `dest=comp;jump`.
    Op(Dest, Comp, Jump),
    /// `(name)`: defines a label at the next instruction.
    Label(Seq<char>),
}

/// The name of a register as the assembler knows it.
pub open spec fn reg_text(r: Reg) -> Seq<char> {
    match r {
        Reg::SP => "SP"@,
        Reg::LCL => "LCL"@,
        Reg::ARG => "ARG"@,
        Reg::THIS => "THIS"@,
        Reg::THAT => "THAT"@,
        Reg::R13 => "R13"@,
        Reg::R14 => "R14"@,
        Reg::R15 => "R15"@,
    }
}

/// The text of a destination, with its `=`; none for `Nil`.
pub open spec fn dest_text(d: Dest) -> Seq<char> {
    match d {
        Dest::Nil => ""@,
        Dest::A => "A="@,
        Dest::D => "D="@,
        Dest::M => "M="@,
        Dest::AM => "AM="@,
        Dest::AD => "AD="@,
    }
}

/// The text of a computation.
pub open spec fn comp_text(c: Comp) -> Seq<char> {
    match c {
        Comp::Zero => "0"@,
        Comp::One => "1"@,
        Comp::NegOne => "-1"@,
        Comp::D => "D"@,
        Comp::A => "A"@,
        Comp::M => "M"@,
        Comp::DPlusOne => "D+1"@,
        Comp::MPlusOne => "M+1"@,
        Comp::MMinusOne => "M-1"@,
        Comp::DPlusA => "D+A"@,
        Comp::DMinusA => "D-A"@,
        Comp::DPlusM => "D+M"@,
        Comp::MMinusD => "M-D"@,
        Comp::DAndM => "D&M"@,
        Comp::DOrM => "D|M"@,
        Comp::NegM => "-M"@,
        Comp::NotM => "!M"@,
    }
}

/// The text of a jump condition, with its `;`; none for `Nil`.
pub open spec fn jump_text(j: Jump) -> Seq<char> {
    match j {
        Jump::Nil => ""@,
        Jump::JEQ => ";JEQ"@,
        Jump::JGT => ";JGT"@,
        Jump::JLT => ";JLT"@,
        Jump::JGE => ";JGE"@,
        Jump::JNE => ";JNE"@,
        Jump::JMP => ";JMP"@,
    }
}

/// The text of one instruction, ending in a newline.
pub open spec fn line(i: Instr) -> Seq<char> {
    match i {
        Instr::Load(Addr::Num(n)) => "@"@ + decimal(n) + "\n"@,
        Instr::Load(Addr::Reg(r)) => "@"@ + reg_text(r) + "\n"@,
        Instr::Load(Addr::Sym(s)) => "@"@ + s + "\n"@,
        Instr::Op(d, c, j) => dest_text(d) + comp_text(c) + jump_text(j) + "\n"@,
        Instr::Label(s) => "("@ + s + ")"@ + "\n"@,
    }
}

/// The text of a sequence of instructions: their lines, in order.
pub open spec fn code_text(code: Seq<Instr>) -> Seq<char>
    decreases code.len(),
{
    if code.len() == 0 {
        Seq::empty()
    } else {
        code_text(code.drop_last()) + line(code.last())
    }
}

fn reg_str(r: Reg) -> (s: &'static str)
    ensures
        s@ == reg_text(r),
{
    match r {
        Reg::SP => "SP",
        Reg::LCL => "LCL",
        Reg::ARG => "ARG",
        Reg::THIS => "THIS",
        Reg::THAT => "THAT",
        Reg::R13 => "R13",
        Reg::R14 => "R14",
        Reg::R15 => "R15",
    }
}

fn dest_str(d: Dest) -> (r: &'static str)
    ensures
        r@ == dest_text(d),
{
    match d {
        Dest::Nil => "",
        Dest::A => "A=",
        Dest::D => "D=",
        Dest::M => "M=",
        Dest::AM => "AM=",
        Dest::AD => "AD=",
    }
}

fn comp_str(c: Comp) -> (r: &'static str)
    ensures
        r@ == comp_text(c),
{
    match c {
        Comp::Zero => "0",
        Comp::One => "1",
        Comp::NegOne => "-1",
        Comp::D => "D",
        Comp::A => "A",
        Comp::M => "M",
        Comp::DPlusOne => "D+1",
        Comp::MPlusOne => "M+1",
        Comp::MMinusOne => "M-1",
        Comp::DPlusA => "D+A",
        Comp::DMinusA => "D-A",
        Comp::DPlusM => "D+M",
        Comp::MMinusD => "M-D",
        Comp::DAndM => "D&M",
        Comp::DOrM => "D|M",
        Comp::NegM => "-M",
        Comp::NotM => "!M",
    }
}

fn jump_str(j: Jump) -> (r: &'static str)
    ensures
        r@ == jump_text(j),
{
    match j {
        Jump::Nil => "",
        Jump::JEQ => ";JEQ",
        Jump::JGT => ";JGT",
        Jump::JLT => ";JLT",
        Jump::JGE => ";JGE",
        Jump::JNE => ";JNE",
        Jump::JMP => ";JMP",
    }
}

/// Assembly text under construction, with the instructions it spells.
pub struct Emitter {
    text: String,
    code: Ghost<Seq<Instr>>,
}

impl Emitter {
    /// The instructions written so far.
    pub closed spec fn code(&self) -> Seq<Instr> {
        self.code@
    }

    /// The text is exactly the text of the instructions.
    pub closed spec fn inv(&self) -> bool {
        self.text@ == code_text(self.code@)
    }

    proof fn lemma_push(code: Seq<Instr>, i: Instr)
        ensures
            code_text(code.push(i)) == code_text(code) + line(i),
    {
        assert(code.push(i).drop_last() =~= code);
    }

    /// An emitter with nothing written.
    pub fn new() -> (e: Emitter)
        ensures
            e.inv(),
            e.code() == Seq::<Instr>::empty(),
    {
        Emitter { text: String::new(), code: Ghost(Seq::empty()) }
    }

    /// `@n`
    pub fn load_num(&mut self, n: u64)
        requires
            old(self).inv(),
        ensures
            final(self).inv(),
            final(self).code() == old(self).code().push(Instr::Load(Addr::Num(n as nat))),
    {
        proof {
            Self::lemma_push(self.code@, Instr::Load(Addr::Num(n as nat)));
        }
        self.text.append("@");
        push_decimal(&mut self.text, n);
        self.text.append("\n");
        self.code = Ghost(self.code@.push(Instr::Load(Addr::Num(n as nat))));
        assert(self.text@ =~= code_text(self.code@));
    }

    /// `@R` for a named register.
    pub fn load_reg(&mut self, r: Reg)
        requires
            old(self).inv(),
        ensures
            final(self).inv(),
            final(self).code() == old(self).code().push(Instr::Load(Addr::Reg(r))),
    {
        proof {
            Self::lemma_push(self.code@, Instr::Load(Addr::Reg(r)));
        }
        self.text.append("@");
        self.text.append(reg_str(r));
        self.text.append("\n");
        self.code = Ghost(self.code@.push(Instr::Load(Addr::Reg(r))));
        assert(self.text@ =~= code_text(self.code@));
    }

    /// `@name`
    pub fn load_sym(&mut self, name: &str)
        requires
            old(self).inv(),
        ensures
            final(self).inv(),
            final(self).code() == old(self).code().push(Instr::Load(Addr::Sym(name@))),
    {
        proof {
            Self::lemma_push(self.code@, Instr::Load(Addr::Sym(name@)));
        }
        self.text.append("@");
        self.text.append(name);
        self.text.append("\n");
        self.code = Ghost(self.code@.push(Instr::Load(Addr::Sym(name@))));
        assert(self.text@ =~= code_text(self.code@));
    }

    /// `dest=comp;jump`
    pub fn op(&mut self, d: Dest, c: Comp, j: Jump)
        requires
            old(self).inv(),
        ensures
            final(self).inv(),
            final(self).code() == old(self).code().push(Instr::Op(d, c, j)),
    {
        proof {
            Self::lemma_push(self.code@, Instr::Op(d, c, j));
        }
        self.text.append(dest_str(d));
        self.text.append(comp_str(c));
        self.text.append(jump_str(j));
        self.text.append("\n");
        self.code = Ghost(self.code@.push(Instr::Op(d, c, j)));
        assert(self.text@ =~= code_text(self.code@));
    }

    /// `(name)`
    pub fn label(&mut self, name: &str)
        requires
            old(self).inv(),
        ensures
            final(self).inv(),
            final(self).code() == old(self).code().push(Instr::Label(name@)),
    {
        proof {
            Self::lemma_push(self.code@, Instr::Label(name@));
        }
        self.text.append("(");
        self.text.append(name);
        self.text.append(")");
        self.text.append("\n");
        self.code = Ghost(self.code@.push(Instr::Label(name@)));
        assert(self.text@ =~= code_text(self.code@));
    }

    /// The text written.
    pub fn finish(self) -> (r: String)
        requires
            self.inv(),
        ensures
            r@ == code_text(self.code()),
    {
        self.text
    }
}

} // verus!
