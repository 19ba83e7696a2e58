use vm_translator::{CommandType, Parser, TranslateError};

#[test]
fn skips_blank_lines_and_comments() {
    let mut p = Parser::new("// header\n\n   \npush constant 7 // seven\r\n// tail\n\n");
    assert!(p.has_more_lines());
    p.advance();
    assert_eq!(p.current_command(), "push constant 7 ");
    assert_eq!(p.command_type(), Ok(CommandType::PUSH));
    assert_eq!(p.arg1(), Some("constant"));
    assert_eq!(p.arg2(), Ok(Some(7)));
    assert!(!p.has_more_lines());
    p.advance();
    assert_eq!(p.current_command(), "push constant 7 ");
}

#[test]
fn classifies_every_kind() {
    let text = "add\nsub\nneg\neq\ngt\nlt\nand\nor\nnot\npush local 1\npop that 2\nlabel L\n\
                goto L\nif-goto L\nfunction F.f 3\ncall F.f 1\nreturn";
    let expected = [
        CommandType::ARITHMETIC,
        CommandType::ARITHMETIC,
        CommandType::ARITHMETIC,
        CommandType::ARITHMETIC,
        CommandType::ARITHMETIC,
        CommandType::ARITHMETIC,
        CommandType::ARITHMETIC,
        CommandType::ARITHMETIC,
        CommandType::ARITHMETIC,
        CommandType::PUSH,
        CommandType::POP,
        CommandType::LABEL,
        CommandType::GOTO,
        CommandType::IF,
        CommandType::FUNCTION,
        CommandType::CALL,
        CommandType::RETURN,
    ];
    let mut p = Parser::new(text);
    for kind in expected {
        assert!(p.has_more_lines());
        p.advance();
        assert_eq!(p.command_type(), Ok(kind), "{}", p.current_command());
    }
    assert!(!p.has_more_lines());
}

#[test]
fn arguments() {
    let mut p = Parser::new("gt\nreturn\nif-goto LOOP_START\ncall Math.multiply 2\n");
    p.advance();
    assert_eq!(p.arg1(), Some("gt"));
    assert_eq!(p.arg2(), Ok(None));
    p.advance();
    assert_eq!(p.arg1(), None);
    assert_eq!(p.arg2(), Ok(None));
    p.advance();
    assert_eq!(p.arg1(), Some("LOOP_START"));
    assert_eq!(p.arg2(), Ok(None));
    p.advance();
    assert_eq!(p.arg1(), Some("Math.multiply"));
    assert_eq!(p.arg2(), Ok(Some(2)));
}

#[test]
fn malformed_commands() {
    let lines = [
        "push constant",
        "push constant x",
        "push constant -1",
        "push constant 32768",
        "pop local 1 2",
        "label",
        "goto a b",
        "return 1",
        "add 1",
        "mul",
        "push",
    ];
    for line in lines {
        let mut p = Parser::new(line);
        p.advance();
        assert_eq!(p.command_type(), Err(TranslateError::MalformedCommand), "{}", line);
        assert_eq!(p.arg1(), None, "{}", line);
        assert_eq!(p.arg2(), Err(TranslateError::MalformedCommand), "{}", line);
    }
}

#[test]
fn largest_index() {
    let mut p = Parser::new("push constant 32767\npush constant 00012");
    p.advance();
    assert_eq!(p.arg2(), Ok(Some(32767)));
    p.advance();
    assert_eq!(p.arg2(), Ok(Some(12)));
}

#[test]
fn empty_input() {
    let mut p = Parser::new("");
    assert!(!p.has_more_lines());
    p.advance();
    assert_eq!(p.current_command(), "");
    assert_eq!(p.command_type(), Err(TranslateError::MalformedCommand));
}

#[test]
fn text_outside_ascii() {
    let mut p = Parser::new("// é comment ✓\npush   static\t4\n");
    assert!(p.has_more_lines());
    p.advance();
    assert_eq!(p.command_type(), Ok(CommandType::PUSH));
    assert_eq!(p.arg1(), Some("static"));
    assert_eq!(p.arg2(), Ok(Some(4)));
}
