//! What the translated code does, and what keeps its labels apart.

use crate::code::{
    compare_code, neg_label, same_label, cmp_label, compare_head_code, compare_nonneg_code,
    compare_neg_code, compare_same_code, compare_tail_code,
    address_code, arithmetic_code, assign, base_reg, binary_code, call_code, call_setup_code,
    false_label, fetch_code, function_code, is_based, keep_frame_code, load_reg, load_sym,
    place_result_code, pointer_reg, pop_code, pop_d_code, push_address_code, push_code, push_d_code,
    push_pop_code, reframe_code, restore_code, return_label, save_code, scoped_label, segment_named,
    static_symbol, store_code, store_indirect_code, true_label, unwind_code, ArithOp, Segment,
    TEMP_BASE, TranslateError,
};
use crate::hack::{decimal, digit_char, Comp, Instr, Jump, Dest, Reg};
use crate::parser::CommandType;
use crate::machine::{exec, steps, taken, lemma_exec_steps, lemma_steps_block, labels_placed, at, comp_value, word, lemma_run_concat, reg_address, run, run_from, Machine, Symbols};
use vstd::prelude::*;

verus! {

/// The stack pointer, the word at address 0.
pub open spec fn sp(st: Machine) -> int {
    at(st, 0) as int
}

/// The address of word `i` of a segment, as the translated code computes it.
pub open spec fn segment_address(
    seg: Segment,
    i: nat,
    module: Seq<char>,
    syms: Symbols,
    st: Machine,
) -> int {
    match seg {
        Segment::Static => syms(static_symbol(module, i)),
        Segment::Temp => i + TEMP_BASE,
        Segment::Pointer => reg_address(pointer_reg(i)),
        _ => at(st, reg_address(base_reg(seg))) + i,
    }
}

/// Whether word `i` of a segment other than `constant` lies in memory that
/// the code may address: `pointer` has two words, and every other segment's
/// word must have an address between the registers' end (16) and the
/// largest address (32767). `temp` sits at 5 to 12 by its nature.
pub open spec fn addressable(
    seg: Segment,
    i: nat,
    module: Seq<char>,
    syms: Symbols,
    st: Machine,
) -> bool {
    let a = segment_address(seg, i, module, syms, st);
    match seg {
        Segment::Constant => false,
        Segment::Pointer => i <= 1,
        Segment::Temp => a <= 0x7fff,
        Segment::Static => 16 <= a <= 0x7fff,
        _ => 0 <= at(st, reg_address(base_reg(seg))) && 16 <= a <= 0x7fff,
    }
}

/// The word that `push seg i` pushes.
pub open spec fn pushed_value(
    seg: Segment,
    i: nat,
    module: Seq<char>,
    syms: Symbols,
    st: Machine,
) -> i16 {
    if seg is Constant {
        i as i16
    } else {
        at(st, segment_address(seg, i, module, syms, st))
    }
}

/// The stack pointer lies above the registers, with room for `room` more words.
pub open spec fn stack_ok(st: Machine, room: int) -> bool {
    16 <= sp(st) && sp(st) + room <= 0x7fff
}

proof fn lemma_push_d(syms: Symbols, st: Machine)
    requires
        stack_ok(st, 1),
    ensures
        run(push_d_code(), syms, st) matches Some(t) && sp(t) == sp(st) + 1 && (t.mem)(sp(st))
            == st.d && forall|x: int| x != 0 && x != sp(st) ==> #[trigger] at(t, x) == at(st, x),
{
    reveal_with_fuel(run_from, 6);
}

proof fn lemma_pop_d(syms: Symbols, st: Machine)
    requires
        17 <= sp(st) <= 0x7fff,
    ensures
        run(pop_d_code(), syms, st) matches Some(t) && sp(t) == sp(st) - 1 && t.d == (st.mem)(
            sp(st) - 1,
        ) && forall|x: int| x != 0 ==> #[trigger] at(t, x) == at(st, x),
{
    reveal_with_fuel(run_from, 4);
}

proof fn lemma_fetch(seg: Segment, i: nat, module: Seq<char>, syms: Symbols, st: Machine)
    requires
        seg is Constant ==> i <= 0x7fff,
        !(seg is Constant) ==> addressable(seg, i, module, syms, st),
    ensures
        run(fetch_code(seg, i, module), syms, st) matches Some(t) && t.d == pushed_value(
            seg,
            i,
            module,
            syms,
            st,
        ) && t.mem == st.mem,
{
    reveal_with_fuel(run_from, 6);
    match seg {
        Segment::Constant => {},
        Segment::Static => {},
        Segment::Temp => {},
        Segment::Pointer => {},
        _ => {},
    }
}

/// `push seg i` writes the segment's word where the stack pointer pointed,
/// advances the stack pointer by one, and changes no other word.
pub proof fn law_push(seg: Segment, i: nat, module: Seq<char>, syms: Symbols, st: Machine)
    requires
        stack_ok(st, 1),
        seg is Constant ==> i <= 0x7fff,
        !(seg is Constant) ==> addressable(seg, i, module, syms, st),
    ensures
        run(push_code(seg, i, module), syms, st) matches Some(t) && sp(t) == sp(st) + 1 && (t.mem)(
            sp(st),
        ) == pushed_value(seg, i, module, syms, st) && forall|x: int|
            x != 0 && x != sp(st) ==> #[trigger] at(t, x) == at(st, x),
{
    lemma_run_concat(fetch_code(seg, i, module), push_d_code(), syms, st);
    lemma_fetch(seg, i, module, syms, st);
    let t = run(fetch_code(seg, i, module), syms, st).unwrap();
    lemma_push_d(syms, t);
}

proof fn lemma_address(seg: Segment, i: nat, module: Seq<char>, syms: Symbols, st: Machine)
    requires
        is_based(seg),
        addressable(seg, i, module, syms, st),
    ensures
        run(address_code(seg, i), syms, st) matches Some(t) && at(t, 13) == segment_address(
            seg,
            i,
            module,
            syms,
            st,
        ) && forall|x: int| x != 13 ==> #[trigger] at(t, x) == at(st, x),
{
    reveal_with_fuel(run_from, 7);
}

proof fn lemma_store_indirect(syms: Symbols, st: Machine)
    requires
        16 <= at(st, 13) <= 0x7fff,
    ensures
        run(store_indirect_code(), syms, st) matches Some(t) && at(t, at(st, 13) as int) == st.d
            && forall|x: int| x != at(st, 13) ==> #[trigger] at(t, x) == at(st, x),
{
    reveal_with_fuel(run_from, 4);
}

proof fn lemma_store(seg: Segment, i: nat, module: Seq<char>, syms: Symbols, st: Machine)
    requires
        !is_based(seg),
        addressable(seg, i, module, syms, st),
    ensures
        run(store_code(seg, i, module), syms, st) matches Some(t) && at(
            t,
            segment_address(seg, i, module, syms, st),
        ) == st.d && forall|x: int|
            x != segment_address(seg, i, module, syms, st) ==> #[trigger] at(t, x) == at(st, x),
{
    reveal_with_fuel(run_from, 3);
    match seg {
        Segment::Static => {},
        Segment::Temp => {},
        _ => {},
    }
}

/// `pop seg i` moves the stack pointer back by one and writes the word it
/// then points to into the segment's word. Besides these it may change only
/// the scratch word `R13`.
pub proof fn law_pop(seg: Segment, i: nat, module: Seq<char>, syms: Symbols, st: Machine)
    requires
        17 <= sp(st) <= 0x7fff,
        addressable(seg, i, module, syms, st),
    ensures
        run(pop_code(seg, i, module), syms, st) matches Some(t) && sp(t) == sp(st) - 1 && at(
            t,
            segment_address(seg, i, module, syms, st),
        ) == at(st, sp(st) - 1) && forall|x: int|
            x != 0 && x != 13 && x != segment_address(seg, i, module, syms, st) ==> #[trigger] at(
                t,
                x,
            ) == at(st, x),
{
    let a = segment_address(seg, i, module, syms, st);
    if is_based(seg) {
        lemma_address(seg, i, module, syms, st);
        let t1 = run(address_code(seg, i), syms, st).unwrap();
        lemma_pop_d(syms, t1);
        let t2 = run(pop_d_code(), syms, t1).unwrap();
        lemma_store_indirect(syms, t2);
        lemma_run_concat(address_code(seg, i), pop_d_code(), syms, st);
        lemma_run_concat(address_code(seg, i) + pop_d_code(), store_indirect_code(), syms, st);
        let t3 = run(store_indirect_code(), syms, t2).unwrap();
        assert(at(t2, 13) == at(t1, 13));
        assert(sp(t1) == sp(st));
        assert(at(t1, sp(st) - 1) == at(st, sp(st) - 1));
        assert(run(pop_code(seg, i, module), syms, st) == Some(t3));
        assert(sp(t3) == sp(st) - 1);
        assert(at(t3, a) == at(st, sp(st) - 1));
    } else {
        lemma_pop_d(syms, st);
        let t1 = run(pop_d_code(), syms, st).unwrap();
        assert(segment_address(seg, i, module, syms, t1) == a);
        lemma_store(seg, i, module, syms, t1);
        lemma_run_concat(pop_d_code(), store_code(seg, i, module), syms, st);
        let t2 = run(store_code(seg, i, module), syms, t1).unwrap();
        assert(run(pop_code(seg, i, module), syms, st) == Some(t2));
        assert(sp(t2) == sp(st) - 1);
        assert(at(t2, a) == at(st, sp(st) - 1));
    }
}

/// Pushing a constant and popping it into a segment leaves the stack pointer
/// where it was and the constant in the segment's word.
pub proof fn law_push_pop_balanced(
    k: nat,
    seg: Segment,
    i: nat,
    module: Seq<char>,
    syms: Symbols,
    st: Machine,
)
    requires
        k <= 0x7fff,
        stack_ok(st, 1),
        addressable(seg, i, module, syms, st),
    ensures
        run(push_code(Segment::Constant, k, module) + pop_code(seg, i, module), syms, st) matches Some(t)
            && sp(t) == sp(st) && at(t, segment_address(seg, i, module, syms, st)) == k as i16
            && forall|x: int|
            x != 0 && x != 13 && x != sp(st) && x != segment_address(seg, i, module, syms, st)
                ==> #[trigger] at(t, x) == at(st, x),
{
    law_push(Segment::Constant, k, module, syms, st);
    let t1 = run(push_code(Segment::Constant, k, module), syms, st).unwrap();
    assert(at(t1, reg_address(base_reg(seg))) == at(st, reg_address(base_reg(seg))));
    assert(segment_address(seg, i, module, syms, t1) == segment_address(seg, i, module, syms, st));
    law_pop(seg, i, module, syms, t1);
    lemma_run_concat(push_code(Segment::Constant, k, module), pop_code(seg, i, module), syms, st);
    let t2 = run(pop_code(seg, i, module), syms, t1).unwrap();
    assert forall|x: int|
        x != 0 && x != 13 && x != sp(st) && x != segment_address(seg, i, module, syms, st)
            implies #[trigger] at(t2, x) == at(st, x) by {
        assert(at(t2, x) == at(t1, x));
    }
}

/// The word that a binary operation leaves for `x` beneath `y`.
pub open spec fn binary_result(op: ArithOp, x: i16, y: i16) -> i16 {
    match op {
        ArithOp::Add => word(x + y),
        ArithOp::Sub => word(x - y),
        ArithOp::And => x & y,
        _ => x | y,
    }
}

/// Whether an arithmetic command takes two words and leaves one.
pub open spec fn is_binary(op: ArithOp) -> bool {
    op is Add || op is Sub || op is And || op is Or
}

proof fn lemma_binary(c: Comp, syms: Symbols, st: Machine)
    requires
        18 <= sp(st) <= 0x7fff,
    ensures
        run(binary_code(c), syms, st) matches Some(t) && sp(t) == sp(st) - 1 && at(t, sp(st) - 2)
            == comp_value(c, (sp(st) - 2) as i16, at(st, sp(st) - 1), at(st, sp(st) - 2))
            && forall|x: int| x != 0 && x != sp(st) - 2 ==> #[trigger] at(t, x) == at(st, x),
{
    reveal_with_fuel(run_from, 7);
}

/// A binary operation replaces the two top words `x` (beneath) and `y`
/// (top) by `x op y`, moves the stack pointer back by one, and changes no
/// other word.
pub proof fn law_binary_operation(op: ArithOp, n: nat, syms: Symbols, st: Machine)
    requires
        is_binary(op),
        18 <= sp(st) <= 0x7fff,
    ensures
        run(arithmetic_code(op, n), syms, st) matches Some(t) && sp(t) == sp(st) - 1 && at(
            t,
            sp(st) - 2,
        ) == binary_result(op, at(st, sp(st) - 2), at(st, sp(st) - 1)) && forall|a: int|
            a != 0 && a != sp(st) - 2 ==> #[trigger] at(t, a) == at(st, a),
{
    let c = match op {
        ArithOp::Add => Comp::DPlusM,
        ArithOp::Sub => Comp::MMinusD,
        ArithOp::And => Comp::DAndM,
        _ => Comp::DOrM,
    };
    assert(arithmetic_code(op, n) == binary_code(c));
    lemma_binary(c, syms, st);
    let x = at(st, sp(st) - 2);
    let y = at(st, sp(st) - 1);
    assert(y & x == x & y) by (bit_vector);
    assert(y | x == x | y) by (bit_vector);
}

/// Two pushed constants and a binary operation leave one word more on the
/// stack than before: `a op b`. The operation's code defines no label and
/// does not depend on how many comparisons came before it.
pub proof fn law_binary(
    op: ArithOp,
    a: nat,
    b: nat,
    n: nat,
    m: nat,
    module: Seq<char>,
    syms: Symbols,
    st: Machine,
)
    requires
        is_binary(op),
        a <= 0x7fff,
        b <= 0x7fff,
        stack_ok(st, 2),
    ensures
        run(
            push_code(Segment::Constant, a, module) + push_code(Segment::Constant, b, module)
                + arithmetic_code(op, n),
            syms,
            st,
        ) matches Some(t) && sp(t) == sp(st) + 1 && at(t, sp(st)) == binary_result(
            op,
            a as i16,
            b as i16,
        ) && forall|x: int|
            x != 0 && x != sp(st) && x != sp(st) + 1 ==> #[trigger] at(t, x) == at(st, x),
        arithmetic_code(op, n) == arithmetic_code(op, m),
        forall|j: int|
            0 <= j < arithmetic_code(op, n).len() ==> !(#[trigger] arithmetic_code(op, n)[j] is Label),
{
    let pa = push_code(Segment::Constant, a, module);
    let pb = push_code(Segment::Constant, b, module);
    let code = arithmetic_code(op, n);
    law_push(Segment::Constant, a, module, syms, st);
    let t1 = run(pa, syms, st).unwrap();
    law_push(Segment::Constant, b, module, syms, t1);
    let t2 = run(pb, syms, t1).unwrap();
    let c = match op {
        ArithOp::Add => Comp::DPlusM,
        ArithOp::Sub => Comp::MMinusD,
        ArithOp::And => Comp::DAndM,
        _ => Comp::DOrM,
    };
    assert(code == binary_code(c));
    lemma_binary(c, syms, t2);
    lemma_run_concat(pa, pb, syms, st);
    lemma_run_concat(pa + pb, code, syms, st);
    let t3 = run(code, syms, t2).unwrap();
    assert(sp(t2) == sp(st) + 2);
    assert(at(t2, sp(st)) == a as i16);
    assert(at(t2, sp(st) + 1) == b as i16);
    let x = a as i16;
    let y = b as i16;
    assert(y & x == x & y) by (bit_vector);
    assert(y | x == x | y) by (bit_vector);
    assert(at(t3, sp(st)) == binary_result(op, x, y));
}

/// `push temp i` reads the word at the fixed address `i + 5`, and `push
/// pointer 0` and `push pointer 1` read the base registers of `this` and
/// `that` themselves, whatever the base registers hold.
pub proof fn law_fixed_addressing(i: nat, module: Seq<char>, syms: Symbols, st: Machine)
    requires
        stack_ok(st, 1),
        i + TEMP_BASE <= 0x7fff,
    ensures
        run(push_code(Segment::Temp, i, module), syms, st) matches Some(t) && at(t, sp(st)) == at(
            st,
            i + 5int,
        ),
        run(push_code(Segment::Pointer, 0, module), syms, st) matches Some(t) && at(t, sp(st))
            == at(st, 3),
        run(push_code(Segment::Pointer, 1, module), syms, st) matches Some(t) && at(t, sp(st))
            == at(st, 4),
{
    law_push(Segment::Temp, i, module, syms, st);
    law_push(Segment::Pointer, 0, module, syms, st);
    law_push(Segment::Pointer, 1, module, syms, st);
}

/// A `pointer` index other than 0 and 1 is refused, in `push` and in `pop`.
pub proof fn law_pointer_range(command: CommandType, i: int, module: Seq<char>)
    requires
        command is PUSH || command is POP,
        i > 1,
    ensures
        push_pop_code(command, "pointer"@, i, module) == Err::<Seq<Instr>, TranslateError>(
            TranslateError::InvalidSegmentIndex,
        ),
{
    reveal_strlit("pointer");
    reveal_strlit("constant");
    reveal_strlit("static");
    reveal_strlit("local");
    reveal_strlit("argument");
    reveal_strlit("this");
    reveal_strlit("that");
    reveal_strlit("temp");
    assert("pointer"@.len() == 7);
    assert("constant"@.len() == 8);
    assert("static"@.len() == 6);
    assert("local"@.len() == 5);
    assert("argument"@.len() == 8);
    assert("this"@.len() == 4);
    assert("that"@.len() == 4);
    assert("temp"@.len() == 4);
    assert(segment_named("pointer"@) == Some(Segment::Pointer));
}

/// Two pushed constants, `add`, and `pop local 0` leave the stack pointer
/// where it was and the sum in the first word of the local segment.
pub proof fn law_sum_into_local(
    a: nat,
    b: nat,
    n: nat,
    module: Seq<char>,
    syms: Symbols,
    st: Machine,
)
    requires
        a <= 0x7fff,
        b <= 0x7fff,
        stack_ok(st, 2),
        addressable(Segment::Local, 0, module, syms, st),
    ensures
        run(
            push_code(Segment::Constant, a, module) + push_code(Segment::Constant, b, module)
                + arithmetic_code(ArithOp::Add, n) + pop_code(Segment::Local, 0, module),
            syms,
            st,
        ) matches Some(t) && sp(t) == sp(st) && at(t, at(st, 1) as int) == word(a + b as int),
{
    let code = push_code(Segment::Constant, a, module) + push_code(Segment::Constant, b, module)
        + arithmetic_code(ArithOp::Add, n);
    law_binary(ArithOp::Add, a, b, n, n, module, syms, st);
    let t = run(code, syms, st).unwrap();
    assert(at(t, 1) == at(st, 1));
    assert(segment_address(Segment::Local, 0, module, syms, t) == segment_address(
        Segment::Local,
        0,
        module,
        syms,
        st,
    ));
    law_pop(Segment::Local, 0, module, syms, t);
    lemma_run_concat(code, pop_code(Segment::Local, 0, module), syms, st);
}

proof fn lemma_decimal_len(n: nat)
    ensures
        decimal(n).len() >= 1,
        n >= 10 ==> decimal(n).len() >= 2,
    decreases n,
{
    if n >= 10 {
        lemma_decimal_len(n / 10);
    }
}

proof fn lemma_digit_injective(x: nat, y: nat)
    requires
        x < 10,
        y < 10,
        digit_char(x) == digit_char(y),
    ensures
        x == y,
{
}

/// Different numbers have different decimal texts.
pub proof fn lemma_decimal_injective(a: nat, b: nat)
    requires
        decimal(a) == decimal(b),
    ensures
        a == b,
    decreases a,
{
    lemma_decimal_len(a);
    lemma_decimal_len(b);
    if a >= 10 && b >= 10 {
        let da = decimal(a / 10);
        let db = decimal(b / 10);
        assert(decimal(a).drop_last() =~= da);
        assert(decimal(b).drop_last() =~= db);
        lemma_decimal_injective(a / 10, b / 10);
        assert(decimal(a).last() == digit_char(a % 10));
        assert(decimal(b).last() == digit_char(b % 10));
        lemma_digit_injective(a % 10, b % 10);
    } else if a < 10 && b < 10 {
        assert(decimal(a)[0] == digit_char(a));
        assert(decimal(b)[0] == digit_char(b));
        lemma_digit_injective(a, b);
    }
}

proof fn lemma_suffix_cancel(p: Seq<char>, x: Seq<char>, y: Seq<char>)
    requires
        p + x == p + y,
    ensures
        x == y,
{
    assert((p + x).subrange(p.len() as int, (p + x).len() as int) =~= x);
    assert((p + y).subrange(p.len() as int, (p + y).len() as int) =~= y);
}

/// The labels of comparison number `n`, by kind: 0 true, 1 false, 2 for a
/// negative left operand, 3 for operands of the same sign, 4 for the test.
pub open spec fn comparison_label(kind: nat, n: nat) -> Seq<char> {
    if kind == 0 {
        true_label(n)
    } else if kind == 1 {
        false_label(n)
    } else if kind == 2 {
        neg_label(n)
    } else if kind == 3 {
        same_label(n)
    } else {
        cmp_label(n)
    }
}

/// The text before the number in a comparison label of each kind.
pub open spec fn comparison_prefix(kind: nat) -> Seq<char> {
    if kind == 0 {
        "TRUE_"@
    } else if kind == 1 {
        "FALSE_"@
    } else if kind == 2 {
        "NEG_"@
    } else if kind == 3 {
        "SAME_"@
    } else {
        "CMP_"@
    }
}

/// No two comparison labels are the same unless they are of the same kind
/// and the same comparison number: comparisons with different numbers share
/// no label.
pub proof fn law_comparison_labels(k1: nat, n1: nat, k2: nat, n2: nat)
    requires
        k1 < 5,
        k2 < 5,
        k1 != k2 || n1 != n2,
    ensures
        comparison_label(k1, n1) != comparison_label(k2, n2),
{
    reveal_strlit("TRUE_");
    reveal_strlit("FALSE_");
    reveal_strlit("NEG_");
    reveal_strlit("SAME_");
    reveal_strlit("CMP_");
    let p1 = comparison_prefix(k1);
    let p2 = comparison_prefix(k2);
    assert(comparison_label(k1, n1) == p1 + decimal(n1));
    assert(comparison_label(k2, n2) == p2 + decimal(n2));
    if comparison_label(k1, n1) == comparison_label(k2, n2) {
        if k1 == k2 {
            lemma_suffix_cancel(p1, decimal(n1), decimal(n2));
            lemma_decimal_injective(n1, n2);
        } else {
            assert((p1 + decimal(n1))[0] == p1[0]);
            assert((p2 + decimal(n2))[0] == p2[0]);
        }
    }
}

/// A comparison defines exactly five labels, all of its own number.
pub proof fn law_compare_labels(j: Jump, n: nat)
    ensures
        forall|k: int|
            0 <= k < compare_code(j, n).len() && (#[trigger] compare_code(j, n)[k]) is Label ==> k
                == 17 || k == 25 || k == 31 || k == 39 || k == 43,
        compare_code(j, n)[17] == Instr::Label(comparison_label(2, n)),
        compare_code(j, n)[25] == Instr::Label(comparison_label(3, n)),
        compare_code(j, n)[31] == Instr::Label(comparison_label(4, n)),
        compare_code(j, n)[39] == Instr::Label(comparison_label(0, n)),
        compare_code(j, n)[43] == Instr::Label(comparison_label(1, n)),
{
    let code = compare_code(j, n);
    assert(code.len() == 44);
}

/// Whether a name holds no `'.'`, as a module's name does.
pub open spec fn dotless(s: Seq<char>) -> bool {
    forall|k: int| 0 <= k < s.len() ==> s[k] != '.'
}

proof fn lemma_module_prefix(m1: Seq<char>, m2: Seq<char>, r1: Seq<char>, r2: Seq<char>)
    requires
        dotless(m1),
        dotless(m2),
        m1 + "."@ + r1 == m2 + "."@ + r2,
    ensures
        m1 == m2,
        r1 == r2,
{
    reveal_strlit(".");
    let s1 = m1 + "."@ + r1;
    let s2 = m2 + "."@ + r2;
    if m1.len() < m2.len() {
        assert(s1[m1.len() as int] == '.');
        assert(s2[m1.len() as int] == m2[m1.len() as int]);
    } else if m2.len() < m1.len() {
        assert(s2[m2.len() as int] == '.');
        assert(s1[m2.len() as int] == m1[m2.len() as int]);
    } else {
        assert forall|k: int| 0 <= k < m1.len() implies m1[k] == m2[k] by {
            assert(s1[k] == m1[k]);
            assert(s2[k] == m2[k]);
        }
        assert(m1 =~= m2);
        lemma_suffix_cancel(m1 + "."@, r1, r2);
    }
}

/// Static variables of different modules never share a symbol.
pub proof fn law_static_isolation(m1: Seq<char>, m2: Seq<char>, i: nat, j: nat)
    requires
        dotless(m1),
        dotless(m2),
        m1 != m2,
    ensures
        static_symbol(m1, i) != static_symbol(m2, j),
        push_code(Segment::Static, i, m1) != push_code(Segment::Static, j, m2),
{
    if static_symbol(m1, i) == static_symbol(m2, j) {
        lemma_module_prefix(m1, m2, decimal(i), decimal(j));
    }
    assert(push_code(Segment::Static, i, m1)[0] != push_code(Segment::Static, j, m2)[0]);
}

/// The same label text in two different functions gives two different
/// labels, whether the functions differ by name or by module.
pub proof fn law_scoped_labels(
    m1: Seq<char>,
    f1: Seq<char>,
    m2: Seq<char>,
    f2: Seq<char>,
    label: Seq<char>,
)
    requires
        dotless(m1),
        dotless(m2),
        m1 != m2 || f1 != f2,
    ensures
        scoped_label(m1, f1, label) != scoped_label(m2, f2, label),
{
    reveal_strlit("$");
    if scoped_label(m1, f1, label) == scoped_label(m2, f2, label) {
        let r1 = f1 + "$"@ + label;
        let r2 = f2 + "$"@ + label;
        assert(scoped_label(m1, f1, label) =~= m1 + "."@ + r1);
        assert(scoped_label(m2, f2, label) =~= m2 + "."@ + r2);
        lemma_module_prefix(m1, m2, r1, r2);
        assert(r1.subrange(0, f1.len() as int) =~= f1);
        assert(r2.subrange(0, f2.len() as int) =~= f2);
    }
}

/// A call pushes its return label's address first and defines that label
/// last, right after the jump to the callee, whose entry label is the one
/// that `function` defines under the same name.
pub proof fn law_call_return_labels(ret: Seq<char>, name: Seq<char>, n_args: nat, n_locals: nat)
    ensures
        call_code(ret, name, n_args)[0] == load_sym(ret),
        call_code(ret, name, n_args).last() == Instr::Label(ret),
        call_code(ret, name, n_args)[call_code(ret, name, n_args).len() - 3] == load_sym(name),
        call_code(ret, name, n_args)[call_code(ret, name, n_args).len() - 2] == Instr::Op(
            Dest::Nil,
            Comp::Zero,
            Jump::JMP,
        ),
        function_code(name, n_locals)[0] == Instr::Label(name),
{
}

proof fn lemma_push_address(ret: Seq<char>, syms: Symbols, st: Machine)
    requires
        stack_ok(st, 1),
        0 <= syms(ret) <= 0x7fff,
    ensures
        run(push_address_code(ret), syms, st) matches Some(t) && sp(t) == sp(st) + 1 && at(
            t,
            sp(st),
        ) == syms(ret) as i16 && forall|x: int|
            x != 0 && x != sp(st) ==> #[trigger] at(t, x) == at(st, x),
{
    reveal_with_fuel(run_from, 8);
}

proof fn lemma_save(r: Reg, syms: Symbols, st: Machine)
    requires
        stack_ok(st, 1),
    ensures
        run(save_code(r), syms, st) matches Some(t) && sp(t) == sp(st) + 1 && at(t, sp(st)) == at(
            st,
            reg_address(r),
        ) && forall|x: int| x != 0 && x != sp(st) ==> #[trigger] at(t, x) == at(st, x),
{
    reveal_with_fuel(run_from, 8);
}

proof fn lemma_reframe(n: nat, syms: Symbols, st: Machine)
    requires
        n + 21 <= sp(st) <= 0x7fff,
    ensures
        run(reframe_code(n), syms, st) matches Some(t) && at(t, 1) == sp(st) && at(t, 2) == sp(st)
            - 5 - n && forall|x: int| x != 1 && x != 2 ==> #[trigger] at(t, x) == at(st, x),
{
    reveal_with_fuel(run_from, 13);
}

/// The frame that a call with `n` arguments, made from `st`, sets up: `LCL`
/// just above the five saved words, `ARG` at the first argument, and the
/// return address and the caller's four base registers saved in order.
pub open spec fn call_frame(u: Machine, st: Machine, ret: int, n: nat) -> bool {
    &&& at(u, 1) == sp(st) + 5
    &&& at(u, 2) == sp(st) - n
    &&& at(u, sp(st)) == ret as i16
    &&& at(u, sp(st) + 1) == at(st, 1)
    &&& at(u, sp(st) + 2) == at(st, 2)
    &&& at(u, sp(st) + 3) == at(st, 3)
    &&& at(u, sp(st) + 4) == at(st, 4)
}

proof fn lemma_call_setup(ret: Seq<char>, n: nat, syms: Symbols, st: Machine)
    requires
        stack_ok(st, 5),
        0 <= syms(ret) <= 0x7fff,
        n + 16 <= sp(st),
    ensures
        run(call_setup_code(ret, n), syms, st) matches Some(t) && sp(t) == sp(st) + 5 && call_frame(
            t,
            st,
            syms(ret),
            n,
        ),
{
    let s0 = sp(st);
    let c1 = push_address_code(ret);
    let c2 = c1 + save_code(Reg::LCL);
    let c3 = c2 + save_code(Reg::ARG);
    let c4 = c3 + save_code(Reg::THIS);
    let c5 = c4 + save_code(Reg::THAT);
    lemma_push_address(ret, syms, st);
    let t1 = run(c1, syms, st).unwrap();
    lemma_save(Reg::LCL, syms, t1);
    lemma_run_concat(c1, save_code(Reg::LCL), syms, st);
    let t2 = run(save_code(Reg::LCL), syms, t1).unwrap();
    lemma_save(Reg::ARG, syms, t2);
    lemma_run_concat(c2, save_code(Reg::ARG), syms, st);
    let t3 = run(save_code(Reg::ARG), syms, t2).unwrap();
    lemma_save(Reg::THIS, syms, t3);
    lemma_run_concat(c3, save_code(Reg::THIS), syms, st);
    let t4 = run(save_code(Reg::THIS), syms, t3).unwrap();
    lemma_save(Reg::THAT, syms, t4);
    lemma_run_concat(c4, save_code(Reg::THAT), syms, st);
    let t5 = run(save_code(Reg::THAT), syms, t4).unwrap();
    lemma_reframe(n, syms, t5);
    lemma_run_concat(c5, reframe_code(n), syms, st);
    let t6 = run(reframe_code(n), syms, t5).unwrap();
    assert(sp(t1) == s0 + 1);
    assert(at(t1, 1) == at(st, 1) && at(t1, 2) == at(st, 2) && at(t1, 3) == at(st, 3) && at(t1, 4)
        == at(st, 4));
    assert(sp(t2) == s0 + 2);
    assert(at(t2, s0 + 1) == at(st, 1));
    assert(at(t2, 2) == at(st, 2) && at(t2, 3) == at(st, 3) && at(t2, 4) == at(st, 4));
    assert(sp(t3) == s0 + 3);
    assert(at(t3, s0 + 2) == at(st, 2));
    assert(at(t3, 3) == at(st, 3) && at(t3, 4) == at(st, 4));
    assert(sp(t4) == s0 + 4);
    assert(at(t4, s0 + 3) == at(st, 3));
    assert(at(t4, 4) == at(st, 4));
    assert(sp(t5) == s0 + 5);
    assert(at(t5, s0 + 4) == at(st, 4));
    assert(at(t5, s0) == at(t1, s0));
    assert(at(t5, s0 + 1) == at(t2, s0 + 1));
    assert(at(t5, s0 + 2) == at(t3, s0 + 2));
    assert(at(t5, s0 + 3) == at(t4, s0 + 3));
    assert(sp(t6) == s0 + 5);
    assert(at(t6, s0) == at(t5, s0));
    assert(at(t6, s0 + 1) == at(t5, s0 + 1));
    assert(at(t6, s0 + 2) == at(t5, s0 + 2));
    assert(at(t6, s0 + 3) == at(t5, s0 + 3));
    assert(at(t6, s0 + 4) == at(t5, s0 + 4));
}

proof fn lemma_keep_frame(syms: Symbols, u: Machine)
    requires
        21 <= at(u, 1) <= 0x7fff,
    ensures
        run(keep_frame_code(), syms, u) matches Some(t) && at(t, 14) == at(u, 1) && at(t, 15) == at(
            u,
            at(u, 1) - 5,
        ) && forall|x: int| x != 14 && x != 15 ==> #[trigger] at(t, x) == at(u, x),
{
    reveal_with_fuel(run_from, 10);
}

proof fn lemma_place_result(syms: Symbols, u: Machine)
    requires
        16 <= at(u, 2) < 0x7fff,
    ensures
        run(place_result_code(), syms, u) matches Some(t) && at(t, at(u, 2) as int) == u.d && sp(t)
            == at(u, 2) + 1 && forall|x: int|
            x != 0 && x != at(u, 2) ==> #[trigger] at(t, x) == at(u, x),
{
    reveal_with_fuel(run_from, 8);
}

proof fn lemma_restore(r: Reg, syms: Symbols, u: Machine)
    requires
        17 <= at(u, 14) <= 0x7fff,
        1 <= reg_address(r) <= 4,
    ensures
        run(restore_code(r), syms, u) matches Some(t) && at(t, 14) == at(u, 14) - 1 && at(
            t,
            reg_address(r),
        ) == at(u, at(u, 14) - 1) && forall|x: int|
            x != 14 && x != reg_address(r) ==> #[trigger] at(t, x) == at(u, x),
{
    reveal_with_fuel(run_from, 6);
}

proof fn lemma_load_return(syms: Symbols, u: Machine)
    ensures
        run(seq![load_reg(Reg::R15), assign(Dest::A, Comp::M)], syms, u) matches Some(t) && t.a
            == at(u, 15) && t.mem == u.mem,
{
    reveal_with_fuel(run_from, 3);
}

proof fn lemma_unwind(syms: Symbols, u: Machine)
    requires
        21 <= at(u, 1) < sp(u) <= 0x7fff,
        16 <= at(u, 2) <= at(u, 1) - 5,
    ensures
        run(unwind_code(), syms, u) matches Some(v) && v.a == at(u, at(u, 1) - 5) && sp(v) == at(
            u,
            2,
        ) + 1 && at(v, at(u, 2) as int) == at(u, sp(u) - 1) && at(v, 1) == at(u, at(u, 1) - 4)
            && at(v, 2) == at(u, at(u, 1) - 3) && at(v, 3) == at(u, at(u, 1) - 2) && at(v, 4) == at(
            u,
            at(u, 1) - 1,
        ),
{
    let f = at(u, 1) as int;
    let a = at(u, 2) as int;
    let s = sp(u);
    let tail = seq![load_reg(Reg::R15), assign(Dest::A, Comp::M)];
    let c1 = keep_frame_code();
    let c2 = c1 + pop_d_code();
    let c3 = c2 + place_result_code();
    let c4 = c3 + restore_code(Reg::THAT);
    let c5 = c4 + restore_code(Reg::THIS);
    let c6 = c5 + restore_code(Reg::ARG);
    let c7 = c6 + restore_code(Reg::LCL);
    assert(unwind_code() == c7 + tail);
    lemma_keep_frame(syms, u);
    let u1 = run(c1, syms, u).unwrap();
    assert(sp(u1) == s);
    lemma_pop_d(syms, u1);
    lemma_run_concat(c1, pop_d_code(), syms, u);
    let u2 = run(pop_d_code(), syms, u1).unwrap();
    assert(at(u1, s - 1) == at(u, s - 1));
    assert(u2.d == at(u, s - 1));
    assert(at(u2, 2) == a);
    lemma_place_result(syms, u2);
    lemma_run_concat(c2, place_result_code(), syms, u);
    let u3 = run(place_result_code(), syms, u2).unwrap();
    assert(at(u3, 14) == f);
    lemma_restore(Reg::THAT, syms, u3);
    lemma_run_concat(c3, restore_code(Reg::THAT), syms, u);
    let u4 = run(restore_code(Reg::THAT), syms, u3).unwrap();
    assert(at(u3, f - 1) == at(u, f - 1));
    lemma_restore(Reg::THIS, syms, u4);
    lemma_run_concat(c4, restore_code(Reg::THIS), syms, u);
    let u5 = run(restore_code(Reg::THIS), syms, u4).unwrap();
    assert(at(u4, f - 2) == at(u, f - 2));
    lemma_restore(Reg::ARG, syms, u5);
    lemma_run_concat(c5, restore_code(Reg::ARG), syms, u);
    let u6 = run(restore_code(Reg::ARG), syms, u5).unwrap();
    assert(at(u5, f - 3) == at(u, f - 3));
    lemma_restore(Reg::LCL, syms, u6);
    lemma_run_concat(c6, restore_code(Reg::LCL), syms, u);
    let u7 = run(restore_code(Reg::LCL), syms, u6).unwrap();
    assert(at(u6, f - 4) == at(u, f - 4));
    lemma_load_return(syms, u7);
    lemma_run_concat(c7, tail, syms, u);
    let u8 = run(tail, syms, u7).unwrap();
    assert(at(u7, 15) == at(u, f - 5));
    assert(at(u4, 0) == at(u3, 0));
    assert(at(u5, 0) == at(u4, 0));
    assert(at(u6, 0) == at(u5, 0));
    assert(at(u7, 0) == at(u6, 0));
    assert(at(u8, 0) == at(u7, 0));
    assert(at(u4, a) == at(u3, a));
    assert(at(u5, a) == at(u4, a));
    assert(at(u6, a) == at(u5, a));
    assert(at(u7, a) == at(u6, a));
    assert(at(u8, a) == at(u7, a));
    assert(at(u8, a) == at(u3, a));
    assert(at(u5, 4) == at(u4, 4) && at(u6, 4) == at(u5, 4) && at(u7, 4) == at(u6, 4));
    assert(at(u8, 4) == at(u7, 4));
    assert(at(u6, 3) == at(u5, 3) && at(u7, 3) == at(u6, 3) && at(u8, 3) == at(u7, 3));
    assert(at(u7, 2) == at(u6, 2) && at(u8, 2) == at(u7, 2));
    assert(at(u8, 1) == at(u7, 1));
}

/// Call and return fit together. The call's setup, from `st`, leaves the
/// frame that [`call_frame`] describes. From any state that still holds that
/// frame, with the callee's result on top of the stack above it, the return's
/// unwinding restores the caller's four base registers, leaves the result
/// where the arguments began with the stack pointer just above it, and loads
/// the address of the call's return label for the jump that ends the return.
pub proof fn law_call_return(
    ret: Seq<char>,
    n_args: nat,
    syms: Symbols,
    st: Machine,
    u: Machine,
)
    requires
        stack_ok(st, 5),
        0 <= syms(ret) <= 0x7fff,
        n_args + 16 <= sp(st),
        call_frame(u, st, syms(ret), n_args),
        sp(st) + 5 < sp(u) <= 0x7fff,
    ensures
        run(call_setup_code(ret, n_args), syms, st) matches Some(t) && sp(t) == sp(st) + 5
            && call_frame(t, st, syms(ret), n_args),
        run(unwind_code(), syms, u) matches Some(v) && v.a == syms(ret) as i16 && sp(v) == sp(st)
            - n_args + 1 && at(v, sp(st) - n_args) == at(u, sp(u) - 1) && at(v, 1) == at(st, 1)
            && at(v, 2) == at(st, 2) && at(v, 3) == at(st, 3) && at(v, 4) == at(st, 4),
{
    lemma_call_setup(ret, n_args, syms, st);
    lemma_unwind(syms, u);
}

/// Two calls made from the same function take different return labels when
/// their numbers differ, as the writer's call counter sees to.
pub proof fn law_return_labels(module: Seq<char>, function: Seq<char>, n1: nat, n2: nat)
    requires
        n1 != n2,
    ensures
        return_label(module, function, n1) != return_label(module, function, n2),
{
    let p = module + "."@ + function + "$ret."@;
    assert(return_label(module, function, n1) =~= p + decimal(n1));
    assert(return_label(module, function, n2) =~= p + decimal(n2));
    if return_label(module, function, n1) == return_label(module, function, n2) {
        lemma_suffix_cancel(p, decimal(n1), decimal(n2));
        lemma_decimal_injective(n1, n2);
    }
}

/// Whether `x` and `y` compare as the jump condition of a comparison says.
pub open spec fn compare_holds(j: Jump, x: i16, y: i16) -> bool {
    match j {
        Jump::JEQ => x == y,
        Jump::JGT => x > y,
        _ => x < y,
    }
}

/// The jump conditions of `eq`, `gt` and `lt`.
pub open spec fn is_compare_jump(j: Jump) -> bool {
    j is JEQ || j is JGT || j is JLT
}

proof fn lemma_compare_head(n: nat, base: int, syms: Symbols, st: Machine)
    requires
        18 <= sp(st) <= 0x7fff,
        0 <= base,
        syms(neg_label(n)) == base + 17,
        base + 44 <= 0x7fff,
    ensures
        steps(compare_head_code(n), base, syms, st, 0, 10) matches Some((t, p)) && sp(t) == sp(st)
            - 1 && at(t, 13) == at(st, sp(st) - 1) && t.d == at(st, sp(st) - 2) && p == (if at(
            st,
            sp(st) - 2,
        ) < 0 {
            17int
        } else {
            10int
        }) && forall|a: int| a != 0 && a != 13 ==> #[trigger] at(t, a) == at(st, a),
{
    reveal_with_fuel(steps, 11);
}

proof fn lemma_compare_nonneg(n: nat, base: int, syms: Symbols, st: Machine)
    requires
        0 <= base,
        syms(same_label(n)) == base + 25,
        syms(cmp_label(n)) == base + 31,
        base + 44 <= 0x7fff,
    ensures
        at(st, 13) >= 0 ==> (steps(compare_nonneg_code(n), base + 10, syms, st, 0, 4) matches Some(
            (t, p),
        ) && p == 15 && t.mem == st.mem),
        at(st, 13) < 0 ==> (steps(compare_nonneg_code(n), base + 10, syms, st, 0, 7) matches Some(
            (t, p),
        ) && p == 21 && t.mem == st.mem && t.d == 1),
{
    reveal_with_fuel(steps, 8);
}

proof fn lemma_compare_neg(n: nat, base: int, syms: Symbols, st: Machine)
    requires
        0 <= base,
        syms(same_label(n)) == base + 25,
        syms(cmp_label(n)) == base + 31,
        base + 44 <= 0x7fff,
    ensures
        at(st, 13) < 0 ==> (steps(compare_neg_code(n), base + 17, syms, st, 0, 5) matches Some(
            (t, p),
        ) && p == 8 && t.mem == st.mem),
        at(st, 13) >= 0 ==> (steps(compare_neg_code(n), base + 17, syms, st, 0, 8) matches Some(
            (t, p),
        ) && p == 14 && t.mem == st.mem && t.d == -1),
{
    reveal_with_fuel(steps, 9);
}

proof fn lemma_compare_same(n: nat, base: int, syms: Symbols, st: Machine)
    requires
        17 <= sp(st) <= 0x7fff,
    ensures
        steps(compare_same_code(n), base + 25, syms, st, 0, 6) matches Some((t, p)) && p == 6
            && t.mem == st.mem && t.d == word(at(st, sp(st) - 1) - at(st, 13)),
{
    reveal_with_fuel(steps, 7);
}

proof fn lemma_compare_tail(j: Jump, n: nat, base: int, syms: Symbols, st: Machine)
    requires
        17 <= sp(st) <= 0x7fff,
        0 <= base,
        syms(true_label(n)) == base + 39,
        syms(false_label(n)) == base + 43,
        base + 44 <= 0x7fff,
    ensures
        taken(j, st.d) ==> (steps(compare_tail_code(j, n), base + 31, syms, st, 0, 8) matches Some(
            (t, p),
        ) && p == 13 && at(t, sp(st) - 1) == -1 && forall|a: int|
            a != sp(st) - 1 ==> #[trigger] at(t, a) == at(st, a)),
        !taken(j, st.d) ==> (steps(compare_tail_code(j, n), base + 31, syms, st, 0, 9) matches Some(
            (t, p),
        ) && p == 13 && at(t, sp(st) - 1) == 0 && forall|a: int|
            a != sp(st) - 1 ==> #[trigger] at(t, a) == at(st, a)),
{
    reveal_with_fuel(steps, 10);
}

/// A comparison, placed at `base` with its labels where the assembler puts
/// them, runs to its end and replaces the two top words `x` (beneath) and
/// `y` (top) by true (-1) where `x` and `y` compare as the condition says and
/// by false (0) otherwise, for every pair of signed words. Besides the stack
/// it changes only the scratch word `R13`.
pub proof fn law_compare(j: Jump, n: nat, base: int, syms: Symbols, st: Machine)
    requires
        is_compare_jump(j),
        18 <= sp(st) <= 0x7fff,
        0 <= base,
        base + compare_code(j, n).len() <= 0x7fff,
        labels_placed(compare_code(j, n), base, syms),
    ensures
        exec(compare_code(j, n), base, syms, st, 0, compare_code(j, n).len()) matches Some(t)
            && sp(t) == sp(st) - 1 && at(t, sp(st) - 2) == (if compare_holds(
            j,
            at(st, sp(st) - 2),
            at(st, sp(st) - 1),
        ) {
            -1i16
        } else {
            0i16
        }) && forall|a: int| a != 0 && a != 13 && a != sp(st) - 2 ==> #[trigger] at(t, a) == at(st, a),
{
    let code = compare_code(j, n);
    let h = compare_head_code(n);
    let nn = compare_nonneg_code(n);
    let g = compare_neg_code(n);
    let sm = compare_same_code(n);
    let tl = compare_tail_code(j, n);
    let s0 = sp(st);
    let x = at(st, s0 - 2);
    let y = at(st, s0 - 1);
    assert(code.len() == 44);
    assert(code[17] == Instr::Label(neg_label(n)));
    assert(code[25] == Instr::Label(same_label(n)));
    assert(code[31] == Instr::Label(cmp_label(n)));
    assert(code[39] == Instr::Label(true_label(n)));
    assert(code[43] == Instr::Label(false_label(n)));
    assert(code.subrange(0, 10) =~= h);
    assert(code.subrange(10, 17) =~= nn);
    assert(code.subrange(17, 25) =~= g);
    assert(code.subrange(25, 31) =~= sm);
    assert(code.subrange(31, 44) =~= tl);
    assert(0 + 0int == 0);
    lemma_compare_head(n, base, syms, st);
    let (t1, p1) = steps(h, base + 0, syms, st, 0, 10).unwrap();
    lemma_steps_block(code, 0, h, base, syms, st, 0, 10);
    lemma_exec_steps(code, base, syms, st, 0, 10, 44);
    assert(at(t1, 13) == y);
    assert(at(t1, s0 - 2) == x);
    assert(sp(t1) == s0 - 1);
    // the word whose sign decides, and the state before the last part
    let (t2, fuel2) = if x >= 0 {
        lemma_compare_nonneg(n, base, syms, t1);
        if y >= 0 {
            let (u, q) = steps(nn, base + 10, syms, t1, 0, 4).unwrap();
            lemma_steps_block(code, 10, nn, base, syms, t1, 0, 4);
            lemma_exec_steps(code, base, syms, t1, 10, 4, 34);
            lemma_compare_same(n, base, syms, u);
            lemma_steps_block(code, 25, sm, base, syms, u, 0, 6);
            lemma_exec_steps(code, base, syms, u, 25, 6, 30);
            (steps(sm, base + 25, syms, u, 0, 6).unwrap().0, 24nat)
        } else {
            lemma_steps_block(code, 10, nn, base, syms, t1, 0, 7);
            lemma_exec_steps(code, base, syms, t1, 10, 7, 34);
            (steps(nn, base + 10, syms, t1, 0, 7).unwrap().0, 27nat)
        }
    } else {
        lemma_compare_neg(n, base, syms, t1);
        if y < 0 {
            let (u, q) = steps(g, base + 17, syms, t1, 0, 5).unwrap();
            lemma_steps_block(code, 17, g, base, syms, t1, 0, 5);
            lemma_exec_steps(code, base, syms, t1, 17, 5, 34);
            lemma_compare_same(n, base, syms, u);
            lemma_steps_block(code, 25, sm, base, syms, u, 0, 6);
            lemma_exec_steps(code, base, syms, u, 25, 6, 29);
            (steps(sm, base + 25, syms, u, 0, 6).unwrap().0, 23nat)
        } else {
            lemma_steps_block(code, 17, g, base, syms, t1, 0, 8);
            lemma_exec_steps(code, base, syms, t1, 17, 8, 34);
            (steps(g, base + 17, syms, t1, 0, 8).unwrap().0, 26nat)
        }
    };
    assert(exec(code, base, syms, st, 0, 44) == exec(code, base, syms, t2, 31, fuel2));
    assert(t2.mem == t1.mem);
    assert(sp(t2) == s0 - 1);
    assert(at(t2, s0 - 2) == x);
    assert(taken(j, t2.d) == compare_holds(j, x, y));
    lemma_compare_tail(j, n, base, syms, t2);
    let k: nat = if taken(j, t2.d) { 8 } else { 9 };
    lemma_steps_block(code, 31, tl, base, syms, t2, 0, k);
    lemma_exec_steps(code, base, syms, t2, 31, k, fuel2);
    let t3 = steps(tl, base + 31, syms, t2, 0, k).unwrap().0;
    assert(exec(code, base, syms, st, 0, 44) == Some(t3));
    assert forall|a: int| a != 0 && a != 13 && a != s0 - 2 implies #[trigger] at(t3, a) == at(
        st,
        a,
    ) by {
        assert(at(t3, a) == at(t2, a));
        assert(at(t1, a) == at(st, a));
    }
}

} // verus!
