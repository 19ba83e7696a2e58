//! Translation of a whole module's text.

use crate::code::{
    call_target, is_qualified, CommandFailure, entry_function, halt_code, init_stack_code, call_code, function_code, goto_code, if_goto_code, push_pop_code, return_code, return_label,
    scoped_label, TranslateError,
};
use crate::code_writer::{arithmetic_result, counts_comparison, initial_function, CodeWriter, WriterState};
use crate::hack::{code_text, Instr};
use crate::parser::{
    command_kind, lemma_next_command_advances, next_command, number_value, words, CommandType,
    Parser,
};
use crate::text::unqualified;
use vstd::prelude::*;

verus! {

/// What a command of the given words translates to, and the translation
/// state after it.
pub open spec fn command_result(w: Seq<Seq<char>>, st: WriterState) -> Result<
    (Seq<Instr>, WriterState),
    TranslateError,
> {
    match command_kind(w) {
        Err(e) => Err(e),
        Ok(CommandType::ARITHMETIC) => match arithmetic_result(w[0], st.comparisons) {
            Ok(code) => Ok(
                (
                    code,
                    WriterState {
                        comparisons: if counts_comparison(w[0]) {
                            st.comparisons + 1
                        } else {
                            st.comparisons
                        },
                        ..st
                    },
                ),
            ),
            Err(e) => Err(e),
        },
        Ok(CommandType::LABEL) => Ok(
            (seq![Instr::Label(scoped_label(st.module, st.function, w[1]))], st),
        ),
        Ok(CommandType::GOTO) => Ok((goto_code(scoped_label(st.module, st.function, w[1])), st)),
        Ok(CommandType::IF) => Ok((if_goto_code(scoped_label(st.module, st.function, w[1])), st)),
        Ok(CommandType::FUNCTION) => if is_qualified(w[1]) {
            Ok(
                (
                    function_code(w[1], number_value(w[2]).unwrap() as nat),
                    WriterState { function: unqualified(w[1]), ..st },
                ),
            )
        } else {
            Err(TranslateError::MalformedCommand)
        },
        Ok(CommandType::CALL) => Ok(
            (
                call_code(
                    return_label(st.module, st.function, st.calls),
                    call_target(st.module, w[1]),
                    number_value(w[2]).unwrap() as nat,
                ),
                WriterState { calls: st.calls + 1, ..st },
            ),
        ),
        Ok(CommandType::RETURN) => Ok((return_code(), st)),
        Ok(kind) => match push_pop_code(kind, w[1], number_value(w[2]).unwrap() as int, st.module) {
            Ok(code) => Ok((code, st)),
            Err(e) => Err(e),
        },
    }
}

/// The text that the commands from line start `i` on translate to, and the
/// translation state after them; or the error of the first command that
/// fails, with that command's text.
pub open spec fn module_result(s: Seq<char>, i: nat, st: WriterState) -> Result<
    (Seq<char>, WriterState),
    (TranslateError, Seq<char>),
>
    decreases s.len() - i,
{
    match next_command(s, i) {
        None => Ok((Seq::empty(), st)),
        Some((command, next)) => {
            if next <= i || next > s.len() {
                Ok((Seq::empty(), st))
            } else {
                match command_result(words(command), st) {
                    Err(e) => Err((e, command)),
                    Ok((code, st2)) => match module_result(s, next, st2) {
                        Ok((rest, st3)) => Ok((code_text(code) + rest, st3)),
                        Err(e) => Err(e),
                    },
                }
            }
        },
    }
}

/// Translates the parser's current command.
pub fn translate_command(p: &Parser, w: &mut CodeWriter) -> (r: Result<String, TranslateError>)
    requires
        p.wf(),
        old(w)@.calls < u64::MAX,
        old(w)@.comparisons < u64::MAX,
    ensures
        match command_result(words(p.command()), old(w)@) {
            Ok((code, st)) => r matches Ok(t) && t@ == code_text(code) && final(w)@ == st,
            Err(e) => r == Err::<String, TranslateError>(e),
        },
{
    let kind = match p.command_type() {
        Ok(k) => k,
        Err(e) => {
            return Err(e);
        },
    };
    match kind {
        CommandType::RETURN => Ok(w.write_return()),
        CommandType::ARITHMETIC => {
            let op = p.arg1().unwrap();
            w.write_arithmetic(op)
        },
        CommandType::LABEL => Ok(w.write_label(p.arg1().unwrap())),
        CommandType::GOTO => Ok(w.write_goto(p.arg1().unwrap())),
        CommandType::IF => Ok(w.write_if(p.arg1().unwrap())),
        _ => {
            let name = p.arg1().unwrap();
            let n = match p.arg2() {
                Ok(Some(n)) => n,
                _ => {
                    return Err(TranslateError::MalformedCommand);
                },
            };
            match kind {
                CommandType::FUNCTION => w.write_function(name, n),
                CommandType::CALL => w.write_call(name, n),
                _ => w.write_push_pop(kind, name, n),
            }
        },
    }
}

/// Translates every command of a module's text, in order, or reports the
/// first that cannot be translated.
pub fn translate_module(input: &str, w: &mut CodeWriter) -> (r: Result<String, CommandFailure>)
    requires
        old(w)@.calls + input@.len() < u64::MAX,
        old(w)@.comparisons + input@.len() < u64::MAX,
    ensures
        match module_result(input@, 0, old(w)@) {
            Ok((t, st)) => r matches Ok(s) && s@ == t && final(w)@ == st,
            Err((e, c)) => r matches Err(f) && f.error == e && f.command@ == c,
        },
        r is Ok ==> final(w)@.calls <= old(w)@.calls + input@.len() && final(w)@.comparisons <= old(
            w,
        )@.comparisons + input@.len(),
{
    let mut p = Parser::new(input);
    let mut out = String::new();
    let ghost calls0 = w@.calls;
    let ghost comparisons0 = w@.comparisons;
    let ghost st0 = w@;
    while p.has_more_lines()
        invariant
            p.wf(),
            old(w)@ == st0,
            p.text() == input@,
            p.pos() <= input@.len(),
            w@.calls <= calls0 + p.pos(),
            w@.comparisons <= comparisons0 + p.pos(),
            calls0 + input@.len() < u64::MAX,
            comparisons0 + input@.len() < u64::MAX,
            module_result(input@, 0, st0) == match module_result(input@, p.pos(), w@) {
                Ok((rest, st)) => Ok((out@ + rest, st)),
                Err(e) => Err(e),
            },
        decreases input@.len() - p.pos(),
    {
        proof {
            lemma_next_command_advances(input@, p.pos());
        }
        let ghost out_before = out@;
        p.advance();
        match translate_command(&p, w) {
            Ok(t) => {
                out.append(t.as_str());
                proof {
                    if let Ok((rest, _)) = module_result(input@, p.pos(), w@) {
                        assert(out@ + rest =~= out_before + (t@ + rest));
                    }
                }
            },
            Err(e) => {
                return Err(CommandFailure { error: e, command: p.current_command().to_owned() });
            },
        }
    }
    proof {
        assert(out@ + Seq::<char>::empty() =~= out@);
    }
    Ok(out)
}

/// The total length of the modules' texts.
pub open spec fn total_len(mods: Seq<(String, String)>) -> nat
    decreases mods.len(),
{
    if mods.len() == 0 {
        0
    } else {
        total_len(mods.drop_last()) + mods.last().1@.len()
    }
}

/// The text that a sequence of modules (name, text) translates to, in order,
/// each starting in no function and all sharing the counters; or the index
/// of the first module that fails, with its error.
pub open spec fn modules_result(mods: Seq<(String, String)>, st: WriterState) -> Result<
    (Seq<char>, WriterState),
    (int, (TranslateError, Seq<char>)),
>
    decreases mods.len(),
{
    if mods.len() == 0 {
        Ok((Seq::empty(), st))
    } else {
        match modules_result(mods.drop_last(), st) {
            Err(e) => Err(e),
            Ok((t, st1)) => match module_result(
                mods.last().1@,
                0,
                WriterState { module: mods.last().0@, function: initial_function(), ..st1 },
            ) {
                Ok((t2, st2)) => Ok((t + t2, st2)),
                Err(e) => Err((mods.len() - 1, e)),
            },
        }
    }
}

/// The state in which a program's translation starts.
pub open spec fn program_start() -> WriterState {
    WriterState { module: "Sys"@, function: initial_function(), comparisons: 0, calls: 0 }
}

/// The code that a program starts with, in the state `st`: the stack set up
/// and `Sys.init` called.
pub open spec fn bootstrap_code(st: WriterState) -> Seq<Instr> {
    init_stack_code() + call_code(return_label(st.module, st.function, st.calls), entry_function(), 0)
}

/// A whole program: with `bootstrap`, the stack set up and `Sys.init`
/// called first; then every module in order, sharing the counters; then the
/// loop the program ends in.
pub open spec fn program_result(mods: Seq<(String, String)>, bootstrap: bool) -> Result<
    Seq<char>,
    (int, (TranslateError, Seq<char>)),
> {
    let st = program_start();
    let (head, st1) = if bootstrap {
        (code_text(bootstrap_code(st)), WriterState { calls: 1, ..st })
    } else {
        (Seq::empty(), st)
    };
    match modules_result(mods, st1) {
        Ok((body, _)) => Ok(head + body + code_text(halt_code())),
        Err(e) => Err(e),
    }
}

/// Translates a program of modules, each given by its name and its text.
/// Where a module cannot be translated, reports its index and the error.
pub fn translate_program(modules: &Vec<(String, String)>, bootstrap: bool) -> (r: Result<
    String,
    (usize, CommandFailure),
>)
    requires
        total_len(modules@) + 2 < u64::MAX,
    ensures
        match program_result(modules@, bootstrap) {
            Ok(t) => r matches Ok(s) && s@ == t,
            Err((i, (e, c))) => r matches Err((j, f)) && j == i && f.error == e && f.command@ == c,
        },
{
    let mut w = CodeWriter::new("Sys", 0, 0);
    let mut out = String::new();
    if bootstrap {
        out = w.write_bootstrap();
    }
    let ghost st1 = w@;
    let mut k: usize = 0;
    while k < modules.len()
        invariant
            k <= modules@.len(),
            total_len(modules@) + 2 < u64::MAX,
            w@.calls <= 1 + total_len(modules@.subrange(0, k as int)),
            w@.comparisons <= total_len(modules@.subrange(0, k as int)),
            st1.comparisons == 0,
            st1.calls <= 1,
            st1 == (if bootstrap {
                WriterState { calls: 1, ..program_start() }
            } else {
                program_start()
            }),
            modules_result(modules@.subrange(0, k as int), st1) matches Ok((t, st)) && st == w@
                && out@ == (if bootstrap {
                code_text(bootstrap_code(program_start()))
            } else {
                Seq::empty()
            }) + t,
        decreases modules@.len() - k,
    {
        let ghost prefix = modules@.subrange(0, k as int);
        let ghost next = modules@.subrange(0, k + 1);
        proof {
            assert(next.drop_last() =~= prefix);
            lemma_total_len_prefix(modules@, k as nat);
        }
        let (name, text) = &modules[k];
        w.set_file_name(name.as_str());
        match translate_module(text.as_str(), &mut w) {
            Ok(t) => {
                let ghost before = out@;
                out.append(t.as_str());
                proof {
                    let t0 = modules_result(prefix, st1)->Ok_0.0;
                    let head = if bootstrap {
                        code_text(bootstrap_code(program_start()))
                    } else {
                        Seq::<char>::empty()
                    };
                    assert(out@ =~= head + (t0 + t@));
                }
            },
            Err(e) => {
                proof {
                    assert(modules_result(next, st1) == Err::<
                        (Seq<char>, WriterState),
                        (int, (TranslateError, Seq<char>)),
                    >((k as int, (e.error, e.command@))));
                    lemma_error_persists(modules@, (k + 1) as nat, st1);
                    assert(modules@.subrange(0, modules@.len() as int) =~= modules@);
                }
                return Err((k, e));
            },
        }
        k = k + 1;
    }
    assert(modules@.subrange(0, modules@.len() as int) =~= modules@);
    let halt = w.write_halt();
    out.append(halt.as_str());
    Ok(out)
}

proof fn lemma_error_persists(mods: Seq<(String, String)>, k: nat, st: WriterState)
    requires
        k <= mods.len(),
        modules_result(mods.subrange(0, k as int), st) is Err,
    ensures
        modules_result(mods, st) == modules_result(mods.subrange(0, k as int), st),
    decreases mods.len() - k,
{
    if k < mods.len() {
        assert(mods.subrange(0, k + 1int).drop_last() =~= mods.subrange(0, k as int));
        lemma_error_persists(mods, k + 1, st);
    } else {
        assert(mods.subrange(0, k as int) =~= mods);
    }
}

proof fn lemma_total_len_prefix(mods: Seq<(String, String)>, k: nat)
    requires
        k < mods.len(),
    ensures
        total_len(mods.subrange(0, k + 1int)) == total_len(mods.subrange(0, k as int)) + mods[k as int].1@.len(),
        total_len(mods.subrange(0, k + 1int)) <= total_len(mods),
    decreases mods.len() - k,
{
    assert(mods.subrange(0, k + 1int).drop_last() =~= mods.subrange(0, k as int));
    if k + 1 < mods.len() {
        lemma_total_len_prefix(mods, k + 1);
    } else {
        assert(mods.subrange(0, k + 1int) =~= mods);
    }
}

} // verus!
