use vm_translator::{translate_module, CodeWriter, CommandFailure, CommandType, TranslateError};

#[test]
fn push_constant_text() {
    let w = CodeWriter::new("Main", 0, 0);
    assert_eq!(
        w.write_push_pop(CommandType::PUSH, "constant", 7).unwrap(),
        "@7\nD=A\n@SP\nA=M\nM=D\n@SP\nM=M+1\n"
    );
    assert_eq!(
        w.write_push_pop(CommandType::PUSH, "constant", 32767).unwrap(),
        "@32767\nD=A\n@SP\nA=M\nM=D\n@SP\nM=M+1\n"
    );
}

#[test]
fn pop_local_text() {
    let w = CodeWriter::new("Main", 0, 0);
    assert_eq!(
        w.write_push_pop(CommandType::POP, "local", 2).unwrap(),
        "@LCL\nD=M\n@2\nD=D+A\n@R13\nM=D\n@SP\nAM=M-1\nD=M\n@R13\nA=M\nM=D\n"
    );
}

#[test]
fn temp_and_pointer_addressing() {
    let w = CodeWriter::new("Main", 0, 0);
    assert_eq!(
        w.write_push_pop(CommandType::PUSH, "temp", 3).unwrap(),
        "@8\nD=M\n@SP\nA=M\nM=D\n@SP\nM=M+1\n"
    );
    assert_eq!(
        w.write_push_pop(CommandType::PUSH, "pointer", 0).unwrap(),
        "@THIS\nD=M\n@SP\nA=M\nM=D\n@SP\nM=M+1\n"
    );
    assert_eq!(
        w.write_push_pop(CommandType::POP, "pointer", 1).unwrap(),
        "@SP\nAM=M-1\nD=M\n@THAT\nM=D\n"
    );
    assert_eq!(
        w.write_push_pop(CommandType::PUSH, "pointer", 2),
        Err(TranslateError::InvalidSegmentIndex)
    );
    assert_eq!(
        w.write_push_pop(CommandType::POP, "pointer", 5),
        Err(TranslateError::InvalidSegmentIndex)
    );
}

#[test]
fn based_segment_push_text() {
    let w = CodeWriter::new("Main", 0, 0);
    assert_eq!(
        w.write_push_pop(CommandType::PUSH, "that", 5).unwrap(),
        "@THAT\nD=M\n@5\nA=D+A\nD=M\n@SP\nA=M\nM=D\n@SP\nM=M+1\n"
    );
}

#[test]
fn statics_of_two_modules_differ() {
    let mut w = CodeWriter::new("A", 0, 0);
    let a = w.write_push_pop(CommandType::PUSH, "static", 0).unwrap();
    w.set_file_name("B");
    let b = w.write_push_pop(CommandType::PUSH, "static", 0).unwrap();
    assert!(a.starts_with("@A.0\n"));
    assert!(b.starts_with("@B.0\n"));
    assert_ne!(a, b);
}

#[test]
fn push_pop_errors() {
    let w = CodeWriter::new("Main", 0, 0);
    assert_eq!(
        w.write_push_pop(CommandType::POP, "constant", 1),
        Err(TranslateError::InvalidOperation)
    );
    assert_eq!(
        w.write_push_pop(CommandType::PUSH, "heap", 1),
        Err(TranslateError::InvalidOperation)
    );
    assert_eq!(
        w.write_push_pop(CommandType::POP, "heap", 1),
        Err(TranslateError::InvalidOperation)
    );
    assert_eq!(
        w.write_push_pop(CommandType::PUSH, "local", -1),
        Err(TranslateError::MalformedCommand)
    );
}

#[test]
fn comparisons_take_fresh_labels() {
    let mut w = CodeWriter::new("Main", 0, 0);
    let first = w.write_arithmetic("eq").unwrap();
    let second = w.write_arithmetic("eq").unwrap();
    assert_eq!(w.comparison_counter(), 2);
    assert!(first.contains("(TRUE_0)") && first.contains("(FALSE_0)"));
    assert!(second.contains("(TRUE_1)") && second.contains("(FALSE_1)"));
    assert!(!second.contains("TRUE_0") && !second.contains("FALSE_0"));
    for label in ["(NEG_0)", "(SAME_0)", "(CMP_0)"] {
        assert!(first.contains(label) && !second.contains(label));
    }
    assert!(first.starts_with("@SP\nAM=M-1\nD=M\n@R13\nM=D\n@SP\nA=M-1\nD=M\n@NEG_0\nD;JLT\n"));
    assert!(first.ends_with("(TRUE_0)\n@SP\nA=M-1\nM=-1\n(FALSE_0)\n"));
    let gt = w.write_arithmetic("gt").unwrap();
    assert!(gt.contains("D;JGT") && gt.contains("(TRUE_2)"));
}

#[test]
fn arithmetic_texts() {
    let mut w = CodeWriter::new("Main", 0, 0);
    assert_eq!(w.write_arithmetic("add").unwrap(), "@SP\nAM=M-1\nD=M\n@SP\nA=M-1\nM=D+M\n");
    assert_eq!(w.write_arithmetic("sub").unwrap(), "@SP\nAM=M-1\nD=M\n@SP\nA=M-1\nM=M-D\n");
    assert_eq!(w.write_arithmetic("neg").unwrap(), "@SP\nA=M-1\nM=-M\n");
    assert_eq!(w.write_arithmetic("not").unwrap(), "@SP\nA=M-1\nM=!M\n");
    assert_eq!(w.comparison_counter(), 0);
}

#[test]
fn unknown_arithmetic_operator() {
    let mut w = CodeWriter::new("Main", 0, 0);
    assert_eq!(w.write_arithmetic("mul"), Err(TranslateError::UnknownArithmeticOp));
    assert_eq!(w.write_arithmetic(""), Err(TranslateError::UnknownArithmeticOp));
    assert_eq!(w.comparison_counter(), 0);
}

#[test]
fn labels_are_scoped_by_function() {
    let mut w = CodeWriter::new("Main", 0, 0);
    w.write_function("Main.f", 0).unwrap();
    let in_f = w.write_label("foo");
    w.write_function("Main.g", 0).unwrap();
    let in_g = w.write_label("foo");
    assert_eq!(in_f, "(Main.f$foo)\n");
    assert_eq!(in_g, "(Main.g$foo)\n");
    assert_ne!(in_f, in_g);
    assert_eq!(w.write_goto("foo"), "@Main.g$foo\n0;JMP\n");
    assert_eq!(w.write_if("foo"), "@SP\nAM=M-1\nD=M\n@Main.g$foo\nD;JNE\n");
}

#[test]
fn function_allocates_locals() {
    let mut w = CodeWriter::new("Main", 0, 0);
    assert_eq!(
        w.write_function("Main.f", 2).unwrap(),
        "(Main.f)\n@SP\nA=M\nM=0\n@SP\nM=M+1\n@SP\nA=M\nM=0\n@SP\nM=M+1\n"
    );
    assert_eq!(w.write_function("Main.g", 0).unwrap(), "(Main.g)\n");
    assert_eq!(w.write_function("Main.h", -1), Err(TranslateError::MalformedCommand));
    assert_eq!(w.write_label("x"), "(Main.g$x)\n");
}

#[test]
fn call_defines_its_return_label_after_the_jump() {
    let mut w = CodeWriter::new("Main", 4, 0);
    w.write_function("Main.main", 0).unwrap();
    let call = w.write_call("Math.f", 2).unwrap();
    assert_eq!(w.call_counter(), 5);
    assert!(call.starts_with("@Main.main$ret.4\nD=A\n"));
    assert!(call.ends_with("@Math.f\n0;JMP\n(Main.main$ret.4)\n"));
    assert!(call.contains("@5\nD=D-A\n@2\nD=D-A\n@ARG\nM=D\n"));
    let next = w.write_call("Math.f", 0).unwrap();
    assert!(next.ends_with("(Main.main$ret.5)\n"));
    assert_eq!(w.write_call("Math.f", -3), Err(TranslateError::MalformedCommand));
    assert_eq!(w.call_counter(), 6);
}

#[test]
fn return_restores_the_frame() {
    let mut w = CodeWriter::new("Main", 0, 0);
    let r = w.write_return();
    assert!(r.starts_with("@LCL\nD=M\n@R14\nM=D\n@5\nA=D-A\nD=M\n@R15\nM=D\n"));
    assert!(r.contains("@R14\nAM=M-1\nD=M\n@THAT\nM=D\n@R14\nAM=M-1\nD=M\n@THIS\nM=D\n"));
    assert!(r.ends_with("@R15\nA=M\n0;JMP\n"));
}

#[test]
fn bootstrap_and_halt() {
    let mut w = CodeWriter::new("Sys", 0, 0);
    let boot = w.write_bootstrap();
    assert!(boot.starts_with("@256\nD=A\n@SP\nM=D\n@Sys.bootstrap$ret.0\nD=A\n"));
    assert!(boot.ends_with("@Sys.init\n0;JMP\n(Sys.bootstrap$ret.0)\n"));
    assert_eq!(w.call_counter(), 1);
    assert_eq!(w.write_halt(), "(INFINITE_LOOP)\n@INFINITE_LOOP\n0;JMP\n");
}

#[test]
fn module_translation_concatenates_commands() {
    let mut w = CodeWriter::new("Main", 0, 0);
    let text = translate_module("// adds\npush constant 7\n\n  push constant 8 // eight\nadd\n", &mut w)
        .unwrap();
    let mut expected = String::new();
    let mut v = CodeWriter::new("Main", 0, 0);
    expected.push_str(&v.write_push_pop(CommandType::PUSH, "constant", 7).unwrap());
    expected.push_str(&v.write_push_pop(CommandType::PUSH, "constant", 8).unwrap());
    expected.push_str(&v.write_arithmetic("add").unwrap());
    assert_eq!(text, expected);
}

#[test]
fn module_translation_reports_first_error() {
    let mut w = CodeWriter::new("Main", 0, 0);
    assert_eq!(
        translate_module("push constant 1\npop constant 1 // no\nfoo\n", &mut w),
        Err(CommandFailure {
            error: TranslateError::InvalidOperation,
            command: "pop constant 1 ".to_string()
        })
    );
    let f = translate_module("push constant\n", &mut w).unwrap_err();
    assert_eq!((f.error, f.command.as_str()), (TranslateError::MalformedCommand, "push constant"));
    let f = translate_module("push pointer 2\n", &mut w).unwrap_err();
    assert_eq!(f.error, TranslateError::InvalidSegmentIndex);
    let f = translate_module("add\nmul 3\n", &mut w).unwrap_err();
    assert_eq!((f.error, f.command.as_str()), (TranslateError::MalformedCommand, "mul 3"));
    let f = translate_module("function main 0\n", &mut w).unwrap_err();
    assert_eq!(f.error, TranslateError::MalformedCommand);
    let f = translate_module("push heap 0\n", &mut w).unwrap_err();
    assert_eq!(f.error, TranslateError::InvalidOperation);
    assert_eq!(translate_module("", &mut w), Ok(String::new()));
}

#[test]
fn module_translation_shares_counters() {
    let mut w = CodeWriter::new("A", 0, 0);
    let a = translate_module("function A.f 0\neq\ncall B.g 0\n", &mut w).unwrap();
    w.set_file_name("B");
    let b = translate_module("function B.g 0\neq\ncall A.f 0\n", &mut w).unwrap();
    assert!(a.contains("(TRUE_0)") && a.contains("(A.f$ret.0)"));
    assert!(b.contains("(TRUE_1)") && b.contains("(B.g$ret.1)"));
    assert_eq!(w.comparison_counter(), 2);
    assert_eq!(w.call_counter(), 2);
}

#[test]
fn program_is_framed_by_bootstrap_and_halt() {
    let modules = vec![
        ("Sys".to_string(), "function Sys.init 0\ncall Main.main 0\neq\n".to_string()),
        ("Main".to_string(), "function Main.main 0\nlt\npush static 1\nreturn\n".to_string()),
    ];
    let program = vm_translator::translate_program(&modules, true).unwrap();
    let mut w = CodeWriter::new("Sys", 0, 0);
    let mut expected = w.write_bootstrap();
    w.set_file_name("Sys");
    expected.push_str(&translate_module(&modules[0].1, &mut w).unwrap());
    w.set_file_name("Main");
    expected.push_str(&translate_module(&modules[1].1, &mut w).unwrap());
    expected.push_str(&w.write_halt());
    assert_eq!(program, expected);
    assert!(program.contains("(Sys.init$ret.1)"));
    assert!(program.contains("(TRUE_1)"));
    assert!(program.contains("@Main.1\n"));
    assert!(program.ends_with("(INFINITE_LOOP)\n@INFINITE_LOOP\n0;JMP\n"));
}

#[test]
fn program_without_bootstrap() {
    let modules = vec![("Simple".to_string(), "push constant 1\n".to_string())];
    assert_eq!(
        vm_translator::translate_program(&modules, false).unwrap(),
        "@1\nD=A\n@SP\nA=M\nM=D\n@SP\nM=M+1\n(INFINITE_LOOP)\n@INFINITE_LOOP\n0;JMP\n"
    );
    assert_eq!(
        vm_translator::translate_program(&Vec::new(), false).unwrap(),
        "(INFINITE_LOOP)\n@INFINITE_LOOP\n0;JMP\n"
    );
}

#[test]
fn program_reports_failing_module() {
    let modules = vec![
        ("A".to_string(), "push constant 1\n".to_string()),
        ("B".to_string(), "pop constant 1\n".to_string()),
        ("C".to_string(), "bogus\n".to_string()),
    ];
    assert_eq!(
        vm_translator::translate_program(&modules, true),
        Err((
            1,
            CommandFailure { error: TranslateError::InvalidOperation, command: "pop constant 1".to_string() }
        ))
    );
}

#[test]
fn temp_index_must_stay_in_memory() {
    let w = CodeWriter::new("Main", 0, 0);
    assert_eq!(
        w.write_push_pop(CommandType::PUSH, "temp", 32762).unwrap(),
        "@32767\nD=M\n@SP\nA=M\nM=D\n@SP\nM=M+1\n"
    );
    assert_eq!(
        w.write_push_pop(CommandType::PUSH, "temp", 32763),
        Err(TranslateError::InvalidSegmentIndex)
    );
    assert_eq!(
        w.write_push_pop(CommandType::POP, "temp", 32767),
        Err(TranslateError::InvalidSegmentIndex)
    );
}

#[test]
fn function_names_must_be_qualified() {
    let mut w = CodeWriter::new("Main", 0, 0);
    assert_eq!(w.write_function("main", 1), Err(TranslateError::MalformedCommand));
    assert_eq!(w.write_label("x"), "(Main.bootstrap$x)\n");
    assert_eq!(w.write_function("Main.main", 0).unwrap(), "(Main.main)\n");
    assert_eq!(w.write_label("x"), "(Main.main$x)\n");
}

#[test]
fn unqualified_call_names_a_function_of_the_module() {
    let mut w = CodeWriter::new("Main", 0, 0);
    w.write_function("Main.main", 0).unwrap();
    let local = w.write_call("helper", 1).unwrap();
    assert!(local.ends_with("@Main.helper\n0;JMP\n(Main.main$ret.0)\n"));
    let other = w.write_call("Math.max", 2).unwrap();
    assert!(other.ends_with("@Math.max\n0;JMP\n(Main.main$ret.1)\n"));
}

#[test]
fn writers_handing_counters_on_share_no_label() {
    let mut a = CodeWriter::new("A", 0, 0);
    let first = a.write_arithmetic("eq").unwrap();
    let mut b = CodeWriter::new("B", a.call_counter(), a.comparison_counter());
    let second = b.write_arithmetic("eq").unwrap();
    assert!(first.contains("(TRUE_0)") && first.contains("(FALSE_0)"));
    assert!(second.contains("(TRUE_1)") && second.contains("(FALSE_1)"));
    assert!(!second.contains("_0)"));
    let c = CodeWriter::new("C", 7, 9);
    assert_eq!((c.call_counter(), c.comparison_counter()), (7, 9));
}
