//! The code that each command translates to, as sequences of instructions.

use crate::hack::{decimal, Addr, Comp, Dest, Instr, Jump, Reg};
use crate::parser::CommandType;
use crate::text::first_dot_from;
use vstd::prelude::*;

verus! {

/// Why a command could not be translated.
#[derive(Clone, Copy, Debug, PartialEq, Eq, Structural)]
pub enum TranslateError {
    /// A line that matches no command shape: an unknown keyword, operands of
    /// the wrong number or kind, or a function name without its module.
    MalformedCommand,
    /// A `pointer` index other than 0 or 1, or a `temp` index past the last
    /// address.
    InvalidSegmentIndex,
    /// An operation that no segment allows: an unknown segment, or popping
    /// `constant`.
    InvalidOperation,
    /// An arithmetic command whose operator is not one of the nine.
    UnknownArithmeticOp,
}

/// A memory segment of the stack machine.
#[derive(Clone, Copy, Debug, PartialEq, Eq, Structural)]
pub enum Segment {
    Constant,
    Static,
    Local,
    Argument,
    This,
    That,
    Temp,
    Pointer,
}

/// A command that could not be translated: why, and the command's text.
#[derive(Debug, PartialEq, Eq)]
pub struct CommandFailure {
    pub error: TranslateError,
    pub command: String,
}

/// An arithmetic or logical command.
#[derive(Clone, Copy, Debug, PartialEq, Eq, Structural)]
pub enum ArithOp {
    Add,
    Sub,
    Neg,
    Eq,
    Gt,
    Lt,
    And,
    Or,
    Not,
}

/// The segment that a name denotes.
pub open spec fn segment_named(s: Seq<char>) -> Option<Segment> {
    if s == "constant"@ {
        Some(Segment::Constant)
    } else if s == "static"@ {
        Some(Segment::Static)
    } else if s == "local"@ {
        Some(Segment::Local)
    } else if s == "argument"@ {
        Some(Segment::Argument)
    } else if s == "this"@ {
        Some(Segment::This)
    } else if s == "that"@ {
        Some(Segment::That)
    } else if s == "temp"@ {
        Some(Segment::Temp)
    } else if s == "pointer"@ {
        Some(Segment::Pointer)
    } else {
        None
    }
}

/// The arithmetic command that a name denotes.
pub open spec fn arith_named(s: Seq<char>) -> Option<ArithOp> {
    if s == "add"@ {
        Some(ArithOp::Add)
    } else if s == "sub"@ {
        Some(ArithOp::Sub)
    } else if s == "neg"@ {
        Some(ArithOp::Neg)
    } else if s == "eq"@ {
        Some(ArithOp::Eq)
    } else if s == "gt"@ {
        Some(ArithOp::Gt)
    } else if s == "lt"@ {
        Some(ArithOp::Lt)
    } else if s == "and"@ {
        Some(ArithOp::And)
    } else if s == "or"@ {
        Some(ArithOp::Or)
    } else if s == "not"@ {
        Some(ArithOp::Not)
    } else {
        None
    }
}

/// The register that holds a segment's base address.
pub open spec fn base_reg(seg: Segment) -> Reg {
    match seg {
        Segment::Argument => Reg::ARG,
        Segment::This => Reg::THIS,
        Segment::That => Reg::THAT,
        _ => Reg::LCL,
    }
}

/// `pointer 0` is the `this` base register, `pointer 1` the `that` one.
pub open spec fn pointer_reg(i: nat) -> Reg {
    if i == 0 {
        Reg::THIS
    } else {
        Reg::THAT
    }
}

/// The first word of the `temp` segment.
pub const TEMP_BASE: u64 = 5;

/// The symbol of static variable `i` of a module: `Module.i`.
pub open spec fn static_symbol(module: Seq<char>, i: nat) -> Seq<char> {
    module + "."@ + decimal(i)
}

/// A label of a function's body: `Module.function$label`.
pub open spec fn scoped_label(module: Seq<char>, function: Seq<char>, label: Seq<char>) -> Seq<
    char,
> {
    module + "."@ + function + "$"@ + label
}

/// The return address of call number `n`: `Module.function$ret.n`.
pub open spec fn return_label(module: Seq<char>, function: Seq<char>, n: nat) -> Seq<char> {
    module + "."@ + function + "$ret."@ + decimal(n)
}

/// Whether a function name is qualified by its module: `Module.function`.
pub open spec fn is_qualified(name: Seq<char>) -> bool {
    first_dot_from(name, 0) is Some
}

/// What a call names: a qualified name as it stands, an unqualified one as a
/// function of the calling module.
pub open spec fn call_target(module: Seq<char>, name: Seq<char>) -> Seq<char> {
    if is_qualified(name) {
        name
    } else {
        module + "."@ + name
    }
}

/// The label of the branch that pushes true, for comparison number `n`.
pub open spec fn true_label(n: nat) -> Seq<char> {
    "TRUE_"@ + decimal(n)
}

/// The label after a comparison's two branches, for comparison number `n`.
pub open spec fn false_label(n: nat) -> Seq<char> {
    "FALSE_"@ + decimal(n)
}

/// The label where comparison number `n` goes on when its left operand is
/// negative.
pub open spec fn neg_label(n: nat) -> Seq<char> {
    "NEG_"@ + decimal(n)
}

/// The label where comparison number `n` subtracts operands of the same sign.
pub open spec fn same_label(n: nat) -> Seq<char> {
    "SAME_"@ + decimal(n)
}

/// The label where comparison number `n` tests the word whose sign is that
/// of the difference of its operands.
pub open spec fn cmp_label(n: nat) -> Seq<char> {
    "CMP_"@ + decimal(n)
}

/// `@n`
pub open spec fn load_num(n: nat) -> Instr {
    Instr::Load(Addr::Num(n))
}

/// `@R` for a named register.
pub open spec fn load_reg(r: Reg) -> Instr {
    Instr::Load(Addr::Reg(r))
}

/// `@symbol`
pub open spec fn load_sym(s: Seq<char>) -> Instr {
    Instr::Load(Addr::Sym(s))
}

/// `dest=comp`, without a jump.
pub open spec fn assign(d: Dest, c: Comp) -> Instr {
    Instr::Op(d, c, Jump::Nil)
}

/// Writes `D` where the stack pointer points, then advances it.
pub open spec fn push_d_code() -> Seq<Instr> {
    seq![
        load_reg(Reg::SP),
        assign(Dest::A, Comp::M),
        assign(Dest::M, Comp::D),
        load_reg(Reg::SP),
        assign(Dest::M, Comp::MPlusOne),
    ]
}

/// Moves the stack pointer back and reads the word it then points to into `D`.
pub open spec fn pop_d_code() -> Seq<Instr> {
    seq![load_reg(Reg::SP), assign(Dest::AM, Comp::MMinusOne), assign(Dest::D, Comp::M)]
}

/// Points `A` at the top word of the stack.
pub open spec fn top_code() -> Seq<Instr> {
    seq![load_reg(Reg::SP), assign(Dest::A, Comp::MMinusOne)]
}

/// Loads the word that `push seg i` pushes into `D`.
pub open spec fn fetch_code(seg: Segment, i: nat, module: Seq<char>) -> Seq<Instr> {
    match seg {
        Segment::Constant => seq![load_num(i), assign(Dest::D, Comp::A)],
        Segment::Static => seq![load_sym(static_symbol(module, i)), assign(Dest::D, Comp::M)],
        Segment::Temp => seq![load_num((i + TEMP_BASE) as nat), assign(Dest::D, Comp::M)],
        Segment::Pointer => seq![load_reg(pointer_reg(i)), assign(Dest::D, Comp::M)],
        _ => seq![
            load_reg(base_reg(seg)),
            assign(Dest::D, Comp::M),
            load_num(i),
            assign(Dest::A, Comp::DPlusA),
            assign(Dest::D, Comp::M),
        ],
    }
}

/// `push seg i`.
pub open spec fn push_code(seg: Segment, i: nat, module: Seq<char>) -> Seq<Instr> {
    fetch_code(seg, i, module) + push_d_code()
}

/// Stores `D` in word `i` of a segment whose address needs no arithmetic:
/// `static`, `temp` and `pointer`.
pub open spec fn store_code(seg: Segment, i: nat, module: Seq<char>) -> Seq<Instr> {
    match seg {
        Segment::Static => seq![load_sym(static_symbol(module, i)), assign(Dest::M, Comp::D)],
        Segment::Temp => seq![load_num((i + TEMP_BASE) as nat), assign(Dest::M, Comp::D)],
        _ => seq![load_reg(pointer_reg(i)), assign(Dest::M, Comp::D)],
    }
}

/// Keeps the address of word `i` of a based segment in `R13`.
pub open spec fn address_code(seg: Segment, i: nat) -> Seq<Instr> {
    seq![
        load_reg(base_reg(seg)),
        assign(Dest::D, Comp::M),
        load_num(i),
        assign(Dest::D, Comp::DPlusA),
        load_reg(Reg::R13),
        assign(Dest::M, Comp::D),
    ]
}

/// Stores `D` at the address kept in `R13`.
pub open spec fn store_indirect_code() -> Seq<Instr> {
    seq![load_reg(Reg::R13), assign(Dest::A, Comp::M), assign(Dest::M, Comp::D)]
}

/// Whether a segment is addressed from a base register.
pub open spec fn is_based(seg: Segment) -> bool {
    seg is Local || seg is Argument || seg is This || seg is That
}

/// `pop seg i`, for every segment but `constant`.
pub open spec fn pop_code(seg: Segment, i: nat, module: Seq<char>) -> Seq<Instr> {
    if is_based(seg) {
        address_code(seg, i) + pop_d_code() + store_indirect_code()
    } else {
        pop_d_code() + store_code(seg, i, module)
    }
}

/// What `push` (for `PUSH`) or `pop` (for any other command) translates to,
/// or why it cannot be translated: an unknown segment or popping `constant`
/// is an invalid operation; a negative index is malformed; a `pointer` index
/// other than 0 and 1, or a `temp` index whose word would lie past the last
/// address, is an invalid segment index.
pub open spec fn push_pop_code(
    command: CommandType,
    segment: Seq<char>,
    index: int,
    module: Seq<char>,
) -> Result<Seq<Instr>, TranslateError> {
    match segment_named(segment) {
        None => Err(TranslateError::InvalidOperation),
        Some(seg) => {
            if index < 0 {
                Err(TranslateError::MalformedCommand)
            } else if !(command is PUSH) && seg is Constant {
                Err(TranslateError::InvalidOperation)
            } else if seg is Pointer && index > 1 {
                Err(TranslateError::InvalidSegmentIndex)
            } else if seg is Temp && index + TEMP_BASE > 0x7fff {
                Err(TranslateError::InvalidSegmentIndex)
            } else if command is PUSH {
                Ok(push_code(seg, index as nat, module))
            } else {
                Ok(pop_code(seg, index as nat, module))
            }
        },
    }
}

/// A binary operation: the top word and the one beneath it are replaced by
/// `beneath op top`.
pub open spec fn binary_code(c: Comp) -> Seq<Instr> {
    pop_d_code() + top_code() + seq![assign(Dest::M, c)]
}

/// A unary operation on the top word, in place.
pub open spec fn unary_code(c: Comp) -> Seq<Instr> {
    top_code() + seq![assign(Dest::M, c)]
}

/// The first part of a comparison: the right operand `y` (the top word) is
/// kept in `R13`, the left one `x` (beneath it) is read into `D`, and a
/// negative `x` jumps on to the `NEG_n` part.
pub open spec fn compare_head_code(n: nat) -> Seq<Instr> {
    pop_d_code() + seq![load_reg(Reg::R13), assign(Dest::M, Comp::D)] + top_code() + seq![
        assign(Dest::D, Comp::M),
        load_sym(neg_label(n)),
        Instr::Op(Dest::Nil, Comp::D, Jump::JLT),
    ]
}

/// For `x` not negative: a `y` not negative goes on to `SAME_n`; a negative
/// one means `x > y`, and 1 goes on to `CMP_n`.
pub open spec fn compare_nonneg_code(n: nat) -> Seq<Instr> {
    seq![
        load_reg(Reg::R13),
        assign(Dest::D, Comp::M),
        load_sym(same_label(n)),
        Instr::Op(Dest::Nil, Comp::D, Jump::JGE),
        assign(Dest::D, Comp::One),
        load_sym(cmp_label(n)),
        Instr::Op(Dest::Nil, Comp::Zero, Jump::JMP),
    ]
}

/// For negative `x`: a negative `y` goes on to `SAME_n`; any other means
/// `x < y`, and -1 goes on to `CMP_n`.
pub open spec fn compare_neg_code(n: nat) -> Seq<Instr> {
    seq![
        Instr::Label(neg_label(n)),
        load_reg(Reg::R13),
        assign(Dest::D, Comp::M),
        load_sym(same_label(n)),
        Instr::Op(Dest::Nil, Comp::D, Jump::JLT),
        assign(Dest::D, Comp::NegOne),
        load_sym(cmp_label(n)),
        Instr::Op(Dest::Nil, Comp::Zero, Jump::JMP),
    ]
}

/// Operands of the same sign: `x - y`, which cannot overflow.
pub open spec fn compare_same_code(n: nat) -> Seq<Instr> {
    seq![Instr::Label(same_label(n)), load_reg(Reg::R13), assign(Dest::D, Comp::M)] + top_code()
        + seq![assign(Dest::D, Comp::MMinusD)]
}

/// `D` now has the sign of `x - y` and is zero only where `x == y`: the
/// jump condition on it chooses between writing true and false over `x`.
pub open spec fn compare_tail_code(j: Jump, n: nat) -> Seq<Instr> {
    seq![
        Instr::Label(cmp_label(n)),
        load_sym(true_label(n)),
        Instr::Op(Dest::Nil, Comp::D, j),
    ] + top_code() + seq![
        assign(Dest::M, Comp::Zero),
        load_sym(false_label(n)),
        Instr::Op(Dest::Nil, Comp::Zero, Jump::JMP),
        Instr::Label(true_label(n)),
    ] + top_code() + seq![assign(Dest::M, Comp::NegOne), Instr::Label(false_label(n))]
}

/// A comparison of the two top words, numbered `n`: they are replaced by
/// all ones (true) where `x - y`, computed without overflow, meets the jump
/// condition, by zero (false) otherwise. Operands of different signs are
/// decided by their signs alone.
pub open spec fn compare_code(j: Jump, n: nat) -> Seq<Instr> {
    compare_head_code(n) + compare_nonneg_code(n) + compare_neg_code(n) + compare_same_code(n)
        + compare_tail_code(j, n)
}

/// An arithmetic command; `n` numbers the comparison if it is one.
pub open spec fn arithmetic_code(op: ArithOp, n: nat) -> Seq<Instr> {
    match op {
        ArithOp::Add => binary_code(Comp::DPlusM),
        ArithOp::Sub => binary_code(Comp::MMinusD),
        ArithOp::And => binary_code(Comp::DAndM),
        ArithOp::Or => binary_code(Comp::DOrM),
        ArithOp::Neg => unary_code(Comp::NegM),
        ArithOp::Not => unary_code(Comp::NotM),
        ArithOp::Eq => compare_code(Jump::JEQ, n),
        ArithOp::Gt => compare_code(Jump::JGT, n),
        ArithOp::Lt => compare_code(Jump::JLT, n),
    }
}

/// Whether an arithmetic command compares, and so needs labels.
pub open spec fn is_comparison(op: ArithOp) -> bool {
    op is Eq || op is Gt || op is Lt
}

/// `goto label` within the scope `Module.function`.
pub open spec fn goto_code(target: Seq<char>) -> Seq<Instr> {
    seq![load_sym(target), Instr::Op(Dest::Nil, Comp::Zero, Jump::JMP)]
}

/// `if-goto label`: pops the top word and jumps where it is not zero.
pub open spec fn if_goto_code(target: Seq<char>) -> Seq<Instr> {
    pop_d_code() + seq![load_sym(target), Instr::Op(Dest::Nil, Comp::D, Jump::JNE)]
}

/// Pushes a zero word.
pub open spec fn push_zero_code() -> Seq<Instr> {
    seq![
        load_reg(Reg::SP),
        assign(Dest::A, Comp::M),
        assign(Dest::M, Comp::Zero),
        load_reg(Reg::SP),
        assign(Dest::M, Comp::MPlusOne),
    ]
}

/// `code` written `n` times.
pub open spec fn repeat(code: Seq<Instr>, n: nat) -> Seq<Instr>
    decreases n,
{
    if n == 0 {
        Seq::empty()
    } else {
        repeat(code, (n - 1) as nat) + code
    }
}

/// `function name n`: the entry label, then `n` zero locals.
pub open spec fn function_code(name: Seq<char>, n_locals: nat) -> Seq<Instr> {
    seq![Instr::Label(name)] + repeat(push_zero_code(), n_locals)
}

/// Pushes the value of a base register.
pub open spec fn save_code(r: Reg) -> Seq<Instr> {
    seq![load_reg(r), assign(Dest::D, Comp::M)] + push_d_code()
}

/// Sets `ARG` to the stack pointer less five and less `n_args`, and `LCL` to
/// the stack pointer.
pub open spec fn reframe_code(n_args: nat) -> Seq<Instr> {
    seq![
        load_reg(Reg::SP),
        assign(Dest::D, Comp::M),
        load_num(5),
        assign(Dest::D, Comp::DMinusA),
        load_num(n_args),
        assign(Dest::D, Comp::DMinusA),
        load_reg(Reg::ARG),
        assign(Dest::M, Comp::D),
        load_reg(Reg::SP),
        assign(Dest::D, Comp::M),
        load_reg(Reg::LCL),
        assign(Dest::M, Comp::D),
    ]
}

/// Pushes the address of `label`.
pub open spec fn push_address_code(label: Seq<char>) -> Seq<Instr> {
    seq![load_sym(label), assign(Dest::D, Comp::A)] + push_d_code()
}

/// The part of a call before its jump: pushes the return address and the
/// four base registers, points `ARG` at the arguments and `LCL` at the top
/// of the stack.
pub open spec fn call_setup_code(ret: Seq<char>, n_args: nat) -> Seq<Instr> {
    push_address_code(ret) + save_code(Reg::LCL) + save_code(Reg::ARG) + save_code(Reg::THIS)
        + save_code(Reg::THAT) + reframe_code(n_args)
}

/// `call name n_args`, returning to `ret`: the setup, a jump to `name`, and
/// `ret` defined just after the jump.
pub open spec fn call_code(ret: Seq<char>, name: Seq<char>, n_args: nat) -> Seq<Instr> {
    call_setup_code(ret, n_args) + goto_code(name) + seq![Instr::Label(ret)]
}

/// Steps the saved frame pointer in `R14` down one word and restores `r` from
/// the word it then points to.
pub open spec fn restore_code(r: Reg) -> Seq<Instr> {
    seq![
        load_reg(Reg::R14),
        assign(Dest::AM, Comp::MMinusOne),
        assign(Dest::D, Comp::M),
        load_reg(r),
        assign(Dest::M, Comp::D),
    ]
}

/// Keeps the frame base (`LCL`) in `R14` and the return address, five words
/// below it, in `R15`.
pub open spec fn keep_frame_code() -> Seq<Instr> {
    seq![
        load_reg(Reg::LCL),
        assign(Dest::D, Comp::M),
        load_reg(Reg::R14),
        assign(Dest::M, Comp::D),
        load_num(5),
        assign(Dest::A, Comp::DMinusA),
        assign(Dest::D, Comp::M),
        load_reg(Reg::R15),
        assign(Dest::M, Comp::D),
    ]
}

/// Stores `D` where `ARG` points and sets the stack pointer just above it.
pub open spec fn place_result_code() -> Seq<Instr> {
    seq![
        load_reg(Reg::ARG),
        assign(Dest::A, Comp::M),
        assign(Dest::M, Comp::D),
        load_reg(Reg::ARG),
        assign(Dest::D, Comp::M),
        load_reg(Reg::SP),
        assign(Dest::M, Comp::DPlusOne),
    ]
}

/// The part of `return` before its jump: moves the return value to where
/// the arguments began, sets the stack pointer just above it, restores
/// `THAT`, `THIS`, `ARG` and `LCL` from the four words below the frame
/// base, and loads the return address into `A`.
pub open spec fn unwind_code() -> Seq<Instr> {
    keep_frame_code() + pop_d_code() + place_result_code() + restore_code(Reg::THAT)
        + restore_code(Reg::THIS) + restore_code(Reg::ARG) + restore_code(Reg::LCL) + seq![
        load_reg(Reg::R15),
        assign(Dest::A, Comp::M),
    ]
}

/// `return`: the unwinding, then a jump to the return address.
pub open spec fn return_code() -> Seq<Instr> {
    unwind_code() + seq![Instr::Op(Dest::Nil, Comp::Zero, Jump::JMP)]
}

/// The first address of the stack.
pub const STACK_BASE: u64 = 256;

/// The function that the program starts in.
pub open spec fn entry_function() -> Seq<char> {
    "Sys.init"@
}

/// Sets the stack pointer to the stack's base.
pub open spec fn init_stack_code() -> Seq<Instr> {
    seq![
        load_num(STACK_BASE as nat),
        assign(Dest::D, Comp::A),
        load_reg(Reg::SP),
        assign(Dest::M, Comp::D),
    ]
}

/// The label of the loop that a finished program spins in.
pub open spec fn halt_label() -> Seq<char> {
    "INFINITE_LOOP"@
}

/// A loop that jumps to itself forever.
pub open spec fn halt_code() -> Seq<Instr> {
    seq![Instr::Label(halt_label())] + goto_code(halt_label())
}

} // verus!
