//! Translation of single commands into assembly text.

use crate::code::{
    address_code, call_target, compare_head_code, compare_nonneg_code, compare_neg_code,
    compare_same_code, compare_tail_code, neg_label, same_label, cmp_label, is_qualified, arith_named, arithmetic_code, assign, base_reg, binary_code, call_code,
    call_setup_code, compare_code, entry_function, false_label, fetch_code, function_code,
    goto_code, halt_code, if_goto_code, init_stack_code, is_based, is_comparison, keep_frame_code,
    load_num, load_reg, load_sym, place_result_code, pointer_reg, pop_code, pop_d_code,
    push_address_code, push_d_code, push_pop_code, push_zero_code, reframe_code, repeat,
    restore_code, return_code, return_label, save_code, scoped_label, segment_named, static_symbol,
    store_code, store_indirect_code, top_code, true_label, unary_code, ArithOp, STACK_BASE, Segment,
    TEMP_BASE, TranslateError,
};
use crate::hack::{code_text, push_decimal, Comp, Dest, Emitter, Instr, Jump, Reg};
use crate::parser::CommandType;
use crate::text::{has_dot, str_eq, unqualified, unqualified_name};
use vstd::prelude::*;

verus! {

/// The translation state as numbers and texts.
pub struct WriterState {
    /// The module whose commands are translated; it names static variables.
    pub module: Seq<char>,
    /// The function whose body is translated; it scopes labels.
    pub function: Seq<char>,
    /// How many comparisons were translated: the next one's number.
    pub comparisons: nat,
    /// How many calls were translated: the next one's number.
    pub calls: nat,
}

/// Translates commands one at a time, keeping the state that makes labels
/// unique across the whole program.
pub struct CodeWriter {
    filename: String,
    jmp_counter: u64,
    call_counter: u64,
    current_function: String,
}

impl View for CodeWriter {
    type V = WriterState;

    closed spec fn view(&self) -> WriterState {
        WriterState {
            module: self.filename@,
            function: self.current_function@,
            comparisons: self.jmp_counter as nat,
            calls: self.call_counter as nat,
        }
    }
}

/// The text of a translation that may fail.
pub open spec fn rendered(r: Result<Seq<Instr>, TranslateError>) -> Result<
    Seq<char>,
    TranslateError,
> {
    match r {
        Ok(code) => Ok(code_text(code)),
        Err(e) => Err(e),
    }
}

/// The characters of a string result.
pub open spec fn text_of(r: Result<String, TranslateError>) -> Result<Seq<char>, TranslateError> {
    match r {
        Ok(s) => Ok(s@),
        Err(e) => Err(e),
    }
}

/// The function a writer is in before it sees any `function` command.
pub open spec fn initial_function() -> Seq<char> {
    "bootstrap"@
}

/// What an arithmetic command translates to with `n` comparisons before it.
pub open spec fn arithmetic_result(op: Seq<char>, n: nat) -> Result<Seq<Instr>, TranslateError> {
    match arith_named(op) {
        Some(a) => Ok(arithmetic_code(a, n)),
        None => Err(TranslateError::UnknownArithmeticOp),
    }
}

fn emit_push_d(e: &mut Emitter)
    requires
        old(e).inv(),
    ensures
        final(e).inv(),
        final(e).code() == old(e).code() + push_d_code(),
{
    e.load_reg(Reg::SP);
    e.op(Dest::A, Comp::M, Jump::Nil);
    e.op(Dest::M, Comp::D, Jump::Nil);
    e.load_reg(Reg::SP);
    e.op(Dest::M, Comp::MPlusOne, Jump::Nil);
    assert(e.code() =~= old(e).code() + push_d_code());
}

fn emit_pop_d(e: &mut Emitter)
    requires
        old(e).inv(),
    ensures
        final(e).inv(),
        final(e).code() == old(e).code() + pop_d_code(),
{
    e.load_reg(Reg::SP);
    e.op(Dest::AM, Comp::MMinusOne, Jump::Nil);
    e.op(Dest::D, Comp::M, Jump::Nil);
    assert(e.code() =~= old(e).code() + pop_d_code());
}

fn emit_top(e: &mut Emitter)
    requires
        old(e).inv(),
    ensures
        final(e).inv(),
        final(e).code() == old(e).code() + top_code(),
{
    e.load_reg(Reg::SP);
    e.op(Dest::A, Comp::MMinusOne, Jump::Nil);
    assert(e.code() =~= old(e).code() + top_code());
}

fn emit_goto(e: &mut Emitter, target: &str)
    requires
        old(e).inv(),
    ensures
        final(e).inv(),
        final(e).code() == old(e).code() + goto_code(target@),
{
    e.load_sym(target);
    e.op(Dest::Nil, Comp::Zero, Jump::JMP);
    assert(e.code() =~= old(e).code() + goto_code(target@));
}

fn emit_save(e: &mut Emitter, r: Reg)
    requires
        old(e).inv(),
    ensures
        final(e).inv(),
        final(e).code() == old(e).code() + save_code(r),
{
    let ghost c0 = e.code();
    e.load_reg(r);
    e.op(Dest::D, Comp::M, Jump::Nil);
    let ghost c1 = e.code();
    emit_push_d(e);
    assert(c1 =~= c0 + seq![load_reg(r), assign(Dest::D, Comp::M)]);
    assert(e.code() =~= old(e).code() + save_code(r));
}

fn emit_restore(e: &mut Emitter, r: Reg)
    requires
        old(e).inv(),
    ensures
        final(e).inv(),
        final(e).code() == old(e).code() + restore_code(r),
{
    e.load_reg(Reg::R14);
    e.op(Dest::AM, Comp::MMinusOne, Jump::Nil);
    e.op(Dest::D, Comp::M, Jump::Nil);
    e.load_reg(r);
    e.op(Dest::M, Comp::D, Jump::Nil);
    assert(e.code() =~= old(e).code() + restore_code(r));
}

fn emit_push_zero(e: &mut Emitter)
    requires
        old(e).inv(),
    ensures
        final(e).inv(),
        final(e).code() == old(e).code() + push_zero_code(),
{
    e.load_reg(Reg::SP);
    e.op(Dest::A, Comp::M, Jump::Nil);
    e.op(Dest::M, Comp::Zero, Jump::Nil);
    e.load_reg(Reg::SP);
    e.op(Dest::M, Comp::MPlusOne, Jump::Nil);
    assert(e.code() =~= old(e).code() + push_zero_code());
}

/// Whether an arithmetic command is a comparison, and so takes a number.
pub open spec fn counts_comparison(op: Seq<char>) -> bool {
    match arith_named(op) {
        Some(a) => is_comparison(a),
        None => false,
    }
}

/// The segment of the given name.
pub fn segment_from(name: &str) -> (r: Option<Segment>)
    ensures
        r == segment_named(name@),
{
    if str_eq(name, "constant") {
        Some(Segment::Constant)
    } else if str_eq(name, "static") {
        Some(Segment::Static)
    } else if str_eq(name, "local") {
        Some(Segment::Local)
    } else if str_eq(name, "argument") {
        Some(Segment::Argument)
    } else if str_eq(name, "this") {
        Some(Segment::This)
    } else if str_eq(name, "that") {
        Some(Segment::That)
    } else if str_eq(name, "temp") {
        Some(Segment::Temp)
    } else if str_eq(name, "pointer") {
        Some(Segment::Pointer)
    } else {
        None
    }
}

/// The arithmetic command of the given name.
pub fn arith_from(name: &str) -> (r: Option<ArithOp>)
    ensures
        r == arith_named(name@),
{
    if str_eq(name, "add") {
        Some(ArithOp::Add)
    } else if str_eq(name, "sub") {
        Some(ArithOp::Sub)
    } else if str_eq(name, "neg") {
        Some(ArithOp::Neg)
    } else if str_eq(name, "eq") {
        Some(ArithOp::Eq)
    } else if str_eq(name, "gt") {
        Some(ArithOp::Gt)
    } else if str_eq(name, "lt") {
        Some(ArithOp::Lt)
    } else if str_eq(name, "and") {
        Some(ArithOp::And)
    } else if str_eq(name, "or") {
        Some(ArithOp::Or)
    } else if str_eq(name, "not") {
        Some(ArithOp::Not)
    } else {
        None
    }
}

fn base_of(seg: Segment) -> (r: Reg)
    ensures
        r == base_reg(seg),
{
    match seg {
        Segment::Argument => Reg::ARG,
        Segment::This => Reg::THIS,
        Segment::That => Reg::THAT,
        _ => Reg::LCL,
    }
}

fn pointer_of(i: u64) -> (r: Reg)
    ensures
        r == pointer_reg(i as nat),
{
    if i == 0 {
        Reg::THIS
    } else {
        Reg::THAT
    }
}

fn emit_compare_head(e: &mut Emitter, n: Ghost<nat>, neg: &str)
    requires
        old(e).inv(),
        neg@ == neg_label(n@),
    ensures
        final(e).inv(),
        final(e).code() == old(e).code() + compare_head_code(n@),
{
    emit_pop_d(e);
    e.load_reg(Reg::R13);
    e.op(Dest::M, Comp::D, Jump::Nil);
    emit_top(e);
    e.op(Dest::D, Comp::M, Jump::Nil);
    e.load_sym(neg);
    e.op(Dest::Nil, Comp::D, Jump::JLT);
    assert(e.code() =~= old(e).code() + compare_head_code(n@));
}

/// The two branches on `y`'s sign; `nonneg` chooses the one for `x` not
/// negative.
fn emit_compare_sign(e: &mut Emitter, n: Ghost<nat>, nonneg: bool, neg: &str, same: &str, cmp: &str)
    requires
        old(e).inv(),
        neg@ == neg_label(n@),
        same@ == same_label(n@),
        cmp@ == cmp_label(n@),
    ensures
        final(e).inv(),
        final(e).code() == old(e).code() + if nonneg {
            compare_nonneg_code(n@)
        } else {
            compare_neg_code(n@)
        },
{
    if !nonneg {
        e.label(neg);
    }
    e.load_reg(Reg::R13);
    e.op(Dest::D, Comp::M, Jump::Nil);
    e.load_sym(same);
    if nonneg {
        e.op(Dest::Nil, Comp::D, Jump::JGE);
        e.op(Dest::D, Comp::One, Jump::Nil);
    } else {
        e.op(Dest::Nil, Comp::D, Jump::JLT);
        e.op(Dest::D, Comp::NegOne, Jump::Nil);
    }
    e.load_sym(cmp);
    e.op(Dest::Nil, Comp::Zero, Jump::JMP);
    if nonneg {
        assert(e.code() =~= old(e).code() + compare_nonneg_code(n@));
    } else {
        assert(e.code() =~= old(e).code() + compare_neg_code(n@));
    }
}

fn emit_compare_same(e: &mut Emitter, n: Ghost<nat>, same: &str)
    requires
        old(e).inv(),
        same@ == same_label(n@),
    ensures
        final(e).inv(),
        final(e).code() == old(e).code() + compare_same_code(n@),
{
    e.label(same);
    e.load_reg(Reg::R13);
    e.op(Dest::D, Comp::M, Jump::Nil);
    emit_top(e);
    e.op(Dest::D, Comp::MMinusD, Jump::Nil);
    assert(e.code() =~= old(e).code() + compare_same_code(n@));
}

fn emit_compare_tail(e: &mut Emitter, j: Jump, n: Ghost<nat>, cmp: &str, t: &str, f: &str)
    requires
        old(e).inv(),
        cmp@ == cmp_label(n@),
        t@ == true_label(n@),
        f@ == false_label(n@),
    ensures
        final(e).inv(),
        final(e).code() == old(e).code() + compare_tail_code(j, n@),
{
    let ghost c0 = e.code();
    e.label(cmp);
    e.load_sym(t);
    e.op(Dest::Nil, Comp::D, j);
    emit_top(e);
    e.op(Dest::M, Comp::Zero, Jump::Nil);
    e.load_sym(f);
    e.op(Dest::Nil, Comp::Zero, Jump::JMP);
    e.label(t);
    let ghost c1 = e.code();
    emit_top(e);
    e.op(Dest::M, Comp::NegOne, Jump::Nil);
    e.label(f);
    assert(c1 =~= c0 + seq![
        Instr::Label(cmp_label(n@)),
        load_sym(true_label(n@)),
        Instr::Op(Dest::Nil, Comp::D, j),
    ] + top_code() + seq![
        assign(Dest::M, Comp::Zero),
        load_sym(false_label(n@)),
        Instr::Op(Dest::Nil, Comp::Zero, Jump::JMP),
        Instr::Label(true_label(n@)),
    ]);
    assert(e.code() =~= old(e).code() + compare_tail_code(j, n@));
}

fn emit_compare(e: &mut Emitter, j: Jump, n: u64)
    requires
        old(e).inv(),
    ensures
        final(e).inv(),
        final(e).code() == old(e).code() + compare_code(j, n as nat),
{
    let t = numbered("TRUE_", n);
    let f = numbered("FALSE_", n);
    let neg = numbered("NEG_", n);
    let same = numbered("SAME_", n);
    let cmp = numbered("CMP_", n);
    let ghost c0 = e.code();
    let ghost nn = n as nat;
    emit_compare_head(e, Ghost(nn), neg.as_str());
    let ghost c1 = e.code();
    emit_compare_sign(e, Ghost(nn), true, neg.as_str(), same.as_str(), cmp.as_str());
    let ghost c2 = e.code();
    emit_compare_sign(e, Ghost(nn), false, neg.as_str(), same.as_str(), cmp.as_str());
    let ghost c3 = e.code();
    emit_compare_same(e, Ghost(nn), same.as_str());
    let ghost c4 = e.code();
    emit_compare_tail(e, j, Ghost(nn), cmp.as_str(), t.as_str(), f.as_str());
    assert(e.code() =~= old(e).code() + compare_code(j, n as nat));
}

/// `prefix` followed by the decimal text of `n`.
fn numbered(prefix: &str, n: u64) -> (r: String)
    ensures
        r@ == prefix@ + crate::hack::decimal(n as nat),
{
    let mut s = prefix.to_owned();
    push_decimal(&mut s, n);
    s
}

impl CodeWriter {
    /// A writer for module `filename` whose next call is number `call_counter`
    /// and whose next comparison is number `comparison_counter`. A program
    /// translated by several writers hands both counters on from each to the
    /// next, so that no label repeats.
    pub fn new(filename: &str, call_counter: u64, comparison_counter: u64) -> (w: Self)
        ensures
            w@ == (WriterState {
                module: filename@,
                function: initial_function(),
                comparisons: comparison_counter as nat,
                calls: call_counter as nat,
            }),
    {
        CodeWriter {
            filename: filename.to_owned(),
            jmp_counter: comparison_counter,
            call_counter,
            current_function: "bootstrap".to_owned(),
        }
    }

    /// Moves on to the next module, keeping the counters so that labels stay
    /// unique across modules.
    pub fn set_file_name(&mut self, filename: &str)
        ensures
            final(self)@ == (WriterState {
                module: filename@,
                function: initial_function(),
                ..old(self)@
            }),
    {
        self.filename = filename.to_owned();
        self.current_function = "bootstrap".to_owned();
    }

    /// The number that the next call will take.
    pub fn call_counter(&self) -> (r: u64)
        ensures
            r == self@.calls,
    {
        self.call_counter
    }

    /// The number that the next comparison will take.
    pub fn comparison_counter(&self) -> (r: u64)
        ensures
            r == self@.comparisons,
    {
        self.jmp_counter
    }

    fn scoped(&self, label: &str) -> (r: String)
        ensures
            r@ == scoped_label(self@.module, self@.function, label@),
    {
        let mut s = self.filename.clone();
        s.append(".");
        s.append(self.current_function.as_str());
        s.append("$");
        s.append(label);
        s
    }

    fn static_name(&self, index: u64) -> (r: String)
        ensures
            r@ == static_symbol(self@.module, index as nat),
    {
        let mut s = self.filename.clone();
        s.append(".");
        push_decimal(&mut s, index);
        s
    }

    fn return_name(&self) -> (r: String)
        ensures
            r@ == return_label(self@.module, self@.function, self@.calls),
    {
        let mut s = self.filename.clone();
        s.append(".");
        s.append(self.current_function.as_str());
        s.append("$ret.");
        push_decimal(&mut s, self.call_counter);
        s
    }

    fn emit_fetch(&self, e: &mut Emitter, seg: Segment, i: u64)
        requires
            old(e).inv(),
            i <= 0x7fff,
        ensures
            final(e).inv(),
            final(e).code() == old(e).code() + fetch_code(seg, i as nat, self@.module),
    {
        match seg {
            Segment::Constant => {
                e.load_num(i);
                e.op(Dest::D, Comp::A, Jump::Nil);
            },
            Segment::Static => {
                let s = self.static_name(i);
                e.load_sym(s.as_str());
                e.op(Dest::D, Comp::M, Jump::Nil);
            },
            Segment::Temp => {
                e.load_num(i + TEMP_BASE);
                e.op(Dest::D, Comp::M, Jump::Nil);
            },
            Segment::Pointer => {
                e.load_reg(pointer_of(i));
                e.op(Dest::D, Comp::M, Jump::Nil);
            },
            _ => {
                e.load_reg(base_of(seg));
                e.op(Dest::D, Comp::M, Jump::Nil);
                e.load_num(i);
                e.op(Dest::A, Comp::DPlusA, Jump::Nil);
                e.op(Dest::D, Comp::M, Jump::Nil);
            },
        }
        assert(e.code() =~= old(e).code() + fetch_code(seg, i as nat, self@.module));
    }

    fn emit_store(&self, e: &mut Emitter, seg: Segment, i: u64)
        requires
            old(e).inv(),
            i <= 0x7fff,
            !is_based(seg),
        ensures
            final(e).inv(),
            final(e).code() == old(e).code() + store_code(seg, i as nat, self@.module),
    {
        match seg {
            Segment::Static => {
                let s = self.static_name(i);
                e.load_sym(s.as_str());
            },
            Segment::Temp => {
                e.load_num(i + TEMP_BASE);
            },
            _ => {
                e.load_reg(pointer_of(i));
            },
        }
        e.op(Dest::M, Comp::D, Jump::Nil);
        assert(e.code() =~= old(e).code() + store_code(seg, i as nat, self@.module));
    }

    fn emit_pop(&self, e: &mut Emitter, seg: Segment, i: u64)
        requires
            old(e).inv(),
            i <= 0x7fff,
        ensures
            final(e).inv(),
            final(e).code() == old(e).code() + pop_code(seg, i as nat, self@.module),
    {
        let ghost c0 = e.code();
        match seg {
            Segment::Local | Segment::Argument | Segment::This | Segment::That => {
                e.load_reg(base_of(seg));
                e.op(Dest::D, Comp::M, Jump::Nil);
                e.load_num(i);
                e.op(Dest::D, Comp::DPlusA, Jump::Nil);
                e.load_reg(Reg::R13);
                e.op(Dest::M, Comp::D, Jump::Nil);
                let ghost c1 = e.code();
                emit_pop_d(e);
                let ghost c2 = e.code();
                e.load_reg(Reg::R13);
                e.op(Dest::A, Comp::M, Jump::Nil);
                e.op(Dest::M, Comp::D, Jump::Nil);
                assert(c1 =~= c0 + address_code(seg, i as nat));
                assert(e.code() =~= c2 + store_indirect_code());
                assert(e.code() =~= c0 + pop_code(seg, i as nat, self@.module));
            },
            _ => {
                emit_pop_d(e);
                self.emit_store(e, seg, i);
                assert(e.code() =~= c0 + pop_code(seg, i as nat, self@.module));
            },
        }
    }

    /// `push segment index` or `pop segment index`.
    pub fn write_push_pop(&self, command_type: CommandType, segment: &str, index: i16) -> (r: Result<
        String,
        TranslateError,
    >)
        requires
            command_type is PUSH || command_type is POP,
        ensures
            text_of(r) == rendered(
                push_pop_code(command_type, segment@, index as int, self@.module),
            ),
    {
        let is_push = match command_type {
            CommandType::PUSH => true,
            _ => false,
        };
        let seg = match segment_from(segment) {
            Some(s) => s,
            None => {
                return Err(TranslateError::InvalidOperation);
            },
        };
        if index < 0 {
            return Err(TranslateError::MalformedCommand);
        }
        if !is_push && seg == Segment::Constant {
            return Err(TranslateError::InvalidOperation);
        }
        if seg == Segment::Pointer && index > 1 {
            return Err(TranslateError::InvalidSegmentIndex);
        }
        if seg == Segment::Temp && index as u64 + TEMP_BASE > 0x7fff {
            return Err(TranslateError::InvalidSegmentIndex);
        }
        let i = index as u64;
        let mut e = Emitter::new();
        if is_push {
            self.emit_fetch(&mut e, seg, i);
            emit_push_d(&mut e);
        } else {
            self.emit_pop(&mut e, seg, i);
        }
        assert(e.code() =~= push_pop_code(command_type, segment@, index as int, self@.module).unwrap());
        Ok(e.finish())
    }

    /// An arithmetic or logical command. A comparison takes the next number
    /// for its labels.
    pub fn write_arithmetic(&mut self, op: &str) -> (r: Result<String, TranslateError>)
        requires
            old(self)@.comparisons < u64::MAX,
        ensures
            text_of(r) == rendered(arithmetic_result(op@, old(self)@.comparisons)),
            final(self)@ == (WriterState {
                comparisons: if counts_comparison(op@) {
                    old(self)@.comparisons + 1
                } else {
                    old(self)@.comparisons
                },
                ..old(self)@
            }),
    {
        let a = match arith_from(op) {
            Some(a) => a,
            None => {
                return Err(TranslateError::UnknownArithmeticOp);
            },
        };
        let mut e = Emitter::new();
        let ghost c0 = e.code();
        match a {
            ArithOp::Add | ArithOp::Sub | ArithOp::And | ArithOp::Or => {
                let c = match a {
                    ArithOp::Add => Comp::DPlusM,
                    ArithOp::Sub => Comp::MMinusD,
                    ArithOp::And => Comp::DAndM,
                    _ => Comp::DOrM,
                };
                emit_pop_d(&mut e);
                emit_top(&mut e);
                e.op(Dest::M, c, Jump::Nil);
                assert(e.code() =~= c0 + binary_code(c));
            },
            ArithOp::Neg | ArithOp::Not => {
                let c = if a == ArithOp::Neg {
                    Comp::NegM
                } else {
                    Comp::NotM
                };
                emit_top(&mut e);
                e.op(Dest::M, c, Jump::Nil);
                assert(e.code() =~= c0 + unary_code(c));
            },
            _ => {
                let j = match a {
                    ArithOp::Eq => Jump::JEQ,
                    ArithOp::Gt => Jump::JGT,
                    _ => Jump::JLT,
                };
                emit_compare(&mut e, j, self.jmp_counter);
                self.jmp_counter = self.jmp_counter + 1;
            },
        }
        assert(e.code() =~= arithmetic_code(a, old(self)@.comparisons));
        Ok(e.finish())
    }

    /// `label name`, defined in the scope of the current function.
    pub fn write_label(&self, label: &str) -> (r: String)
        ensures
            r@ == code_text(seq![Instr::Label(scoped_label(self@.module, self@.function, label@))]),
    {
        let mut e = Emitter::new();
        let name = self.scoped(label);
        e.label(name.as_str());
        assert(e.code() =~= seq![Instr::Label(scoped_label(self@.module, self@.function, label@))]);
        e.finish()
    }

    /// `goto name`, to a label of the current function.
    pub fn write_goto(&self, label: &str) -> (r: String)
        ensures
            r@ == code_text(goto_code(scoped_label(self@.module, self@.function, label@))),
    {
        let mut e = Emitter::new();
        let name = self.scoped(label);
        emit_goto(&mut e, name.as_str());
        assert(e.code() =~= goto_code(scoped_label(self@.module, self@.function, label@)));
        e.finish()
    }

    /// `if-goto name`, to a label of the current function.
    pub fn write_if(&self, label: &str) -> (r: String)
        ensures
            r@ == code_text(if_goto_code(scoped_label(self@.module, self@.function, label@))),
    {
        let mut e = Emitter::new();
        let name = self.scoped(label);
        emit_pop_d(&mut e);
        e.load_sym(name.as_str());
        e.op(Dest::Nil, Comp::D, Jump::JNE);
        assert(e.code() =~= if_goto_code(scoped_label(self@.module, self@.function, label@)));
        e.finish()
    }

    /// `function name n_vars`: the entry label and `n_vars` zero locals. Labels
    /// after it are scoped by the function's name without its module.
    pub fn write_function(&mut self, function_name: &str, n_vars: i16) -> (r: Result<
        String,
        TranslateError,
    >)
        ensures
            n_vars < 0 || !is_qualified(function_name@) ==> r == Err::<String, TranslateError>(
                TranslateError::MalformedCommand,
            ) && final(self)@ == old(self)@,
            n_vars >= 0 && is_qualified(function_name@) ==> text_of(r) == Ok::<
                Seq<char>,
                TranslateError,
            >(code_text(function_code(function_name@, n_vars as nat))) && final(self)@ == (
            WriterState { function: unqualified(function_name@), ..old(self)@ }),
    {
        if n_vars < 0 || !has_dot(function_name) {
            return Err(TranslateError::MalformedCommand);
        }
        let mut e = Emitter::new();
        e.label(function_name);
        let ghost head = e.code();
        assert(head =~= seq![Instr::Label(function_name@)]);
        let mut k: i16 = 0;
        while k < n_vars
            invariant
                0 <= k <= n_vars,
                e.inv(),
                e.code() == head + repeat(push_zero_code(), k as nat),
            decreases n_vars - k,
        {
            let ghost before = e.code();
            emit_push_zero(&mut e);
            assert(repeat(push_zero_code(), (k + 1) as nat) == repeat(push_zero_code(), k as nat)
                + push_zero_code());
            assert(e.code() =~= head + repeat(push_zero_code(), (k + 1) as nat));
            k = k + 1;
        }
        self.current_function = unqualified_name(function_name);
        Ok(e.finish())
    }

    fn emit_call(&self, e: &mut Emitter, function_name: &str, n_args: u64)
        requires
            old(e).inv(),
        ensures
            final(e).inv(),
            final(e).code() == old(e).code() + call_code(
                return_label(self@.module, self@.function, self@.calls),
                function_name@,
                n_args as nat,
            ),
    {
        let ret = self.return_name();
        let ghost c0 = e.code();
        e.load_sym(ret.as_str());
        e.op(Dest::D, Comp::A, Jump::Nil);
        emit_push_d(e);
        let ghost c1 = e.code();
        emit_save(e, Reg::LCL);
        emit_save(e, Reg::ARG);
        emit_save(e, Reg::THIS);
        emit_save(e, Reg::THAT);
        let ghost c2 = e.code();
        e.load_reg(Reg::SP);
        e.op(Dest::D, Comp::M, Jump::Nil);
        e.load_num(5);
        e.op(Dest::D, Comp::DMinusA, Jump::Nil);
        e.load_num(n_args);
        e.op(Dest::D, Comp::DMinusA, Jump::Nil);
        e.load_reg(Reg::ARG);
        e.op(Dest::M, Comp::D, Jump::Nil);
        e.load_reg(Reg::SP);
        e.op(Dest::D, Comp::M, Jump::Nil);
        e.load_reg(Reg::LCL);
        e.op(Dest::M, Comp::D, Jump::Nil);
        let ghost c3 = e.code();
        emit_goto(e, function_name);
        e.label(ret.as_str());
        let ghost r = ret@;
        assert(c1 =~= c0 + push_address_code(r));
        assert(c2 =~= c1 + save_code(Reg::LCL) + save_code(Reg::ARG) + save_code(Reg::THIS)
            + save_code(Reg::THAT));
        assert(c3 =~= c2 + reframe_code(n_args as nat));
        assert(c3 =~= c0 + call_setup_code(r, n_args as nat));
        assert(e.code() =~= c3 + goto_code(function_name@) + seq![Instr::Label(r)]);
        assert(e.code() =~= c0 + call_code(r, function_name@, n_args as nat));
    }

    /// `call name n_args`; an unqualified name is a function of the current
    /// module. The return address is a label that the call's
    /// number makes unique.
    pub fn write_call(&mut self, function_name: &str, n_args: i16) -> (r: Result<
        String,
        TranslateError,
    >)
        requires
            old(self)@.calls < u64::MAX,
        ensures
            n_args < 0 ==> r == Err::<String, TranslateError>(TranslateError::MalformedCommand)
                && final(self)@ == old(self)@,
            n_args >= 0 ==> text_of(r) == Ok::<Seq<char>, TranslateError>(
                code_text(
                    call_code(
                        return_label(old(self)@.module, old(self)@.function, old(self)@.calls),
                        call_target(old(self)@.module, function_name@),
                        n_args as nat,
                    ),
                ),
            ) && final(self)@ == (WriterState { calls: old(self)@.calls + 1, ..old(self)@ }),
    {
        if n_args < 0 {
            return Err(TranslateError::MalformedCommand);
        }
        let target = if has_dot(function_name) {
            function_name.to_owned()
        } else {
            let mut t = self.filename.clone();
            t.append(".");
            t.append(function_name);
            t
        };
        let mut e = Emitter::new();
        self.emit_call(&mut e, target.as_str(), n_args as u64);
        assert(e.code() =~= call_code(
            return_label(self@.module, self@.function, self@.calls),
            call_target(self@.module, function_name@),
            n_args as nat,
        ));
        self.call_counter = self.call_counter + 1;
        Ok(e.finish())
    }

    /// `return`.
    pub fn write_return(&mut self) -> (r: String)
        ensures
            r@ == code_text(return_code()),
            final(self)@ == old(self)@,
    {
        let mut e = Emitter::new();
        let ghost c0 = e.code();
        e.load_reg(Reg::LCL);
        e.op(Dest::D, Comp::M, Jump::Nil);
        e.load_reg(Reg::R14);
        e.op(Dest::M, Comp::D, Jump::Nil);
        e.load_num(5);
        e.op(Dest::A, Comp::DMinusA, Jump::Nil);
        e.op(Dest::D, Comp::M, Jump::Nil);
        e.load_reg(Reg::R15);
        e.op(Dest::M, Comp::D, Jump::Nil);
        let ghost c1 = e.code();
        emit_pop_d(&mut e);
        e.load_reg(Reg::ARG);
        e.op(Dest::A, Comp::M, Jump::Nil);
        e.op(Dest::M, Comp::D, Jump::Nil);
        e.load_reg(Reg::ARG);
        e.op(Dest::D, Comp::M, Jump::Nil);
        e.load_reg(Reg::SP);
        e.op(Dest::M, Comp::DPlusOne, Jump::Nil);
        let ghost c2 = e.code();
        emit_restore(&mut e, Reg::THAT);
        emit_restore(&mut e, Reg::THIS);
        emit_restore(&mut e, Reg::ARG);
        emit_restore(&mut e, Reg::LCL);
        let ghost c3 = e.code();
        e.load_reg(Reg::R15);
        e.op(Dest::A, Comp::M, Jump::Nil);
        e.op(Dest::Nil, Comp::Zero, Jump::JMP);
        assert(c1 =~= keep_frame_code());
        assert(c2 =~= c1 + pop_d_code() + place_result_code());
        assert(c3 =~= c2 + restore_code(Reg::THAT) + restore_code(Reg::THIS) + restore_code(
            Reg::ARG,
        ) + restore_code(Reg::LCL));
        assert(e.code() =~= return_code());
        e.finish()
    }

    /// The code a program starts with: the stack pointer set to the stack's
    /// base, then a call of `Sys.init` with no arguments. It takes a call
    /// number like any other call.
    pub fn write_bootstrap(&mut self) -> (r: String)
        requires
            old(self)@.calls < u64::MAX,
        ensures
            r@ == code_text(
                init_stack_code() + call_code(
                    return_label(old(self)@.module, old(self)@.function, old(self)@.calls),
                    entry_function(),
                    0,
                ),
            ),
            final(self)@ == (WriterState { calls: old(self)@.calls + 1, ..old(self)@ }),
    {
        let mut e = Emitter::new();
        e.load_num(STACK_BASE);
        e.op(Dest::D, Comp::A, Jump::Nil);
        e.load_reg(Reg::SP);
        e.op(Dest::M, Comp::D, Jump::Nil);
        assert(e.code() =~= init_stack_code());
        let entry = "Sys.init";
        self.emit_call(&mut e, entry, 0);
        self.call_counter = self.call_counter + 1;
        e.finish()
    }

    /// The loop that a program ends in.
    pub fn write_halt(&self) -> (r: String)
        ensures
            r@ == code_text(halt_code()),
    {
        let mut e = Emitter::new();
        e.label("INFINITE_LOOP");
        emit_goto(&mut e, "INFINITE_LOOP");
        assert(e.code() =~= halt_code());
        e.finish()
    }
}

} // verus!
