use std::collections::HashMap;
use vm_translator::{translate_module, CodeWriter, CommandType};

/// A small interpreter of the assembly the translator writes.
struct Machine {
    code: Vec<(Option<String>, Option<String>, Option<String>, Option<String>)>,
    ram: Vec<i16>,
    pc: usize,
    a: i16,
    d: i16,
}

impl Machine {
    fn load(text: &str) -> Machine {
        let mut labels: HashMap<String, usize> = HashMap::new();
        let mut lines: Vec<String> = Vec::new();
        for raw in text.lines() {
            let line = raw.trim();
            if line.is_empty() {
                continue;
            }
            if line.starts_with('(') && line.ends_with(')') {
                let name = line[1..line.len() - 1].to_string();
                assert!(!labels.contains_key(&name), "label defined twice: {}", name);
                labels.insert(name, lines.len());
            } else {
                lines.push(line.to_string());
            }
        }
        let mut vars: HashMap<String, i16> = HashMap::new();
        for (name, addr) in [("SP", 0), ("LCL", 1), ("ARG", 2), ("THIS", 3), ("THAT", 4)] {
            vars.insert(name.to_string(), addr);
        }
        for r in 0..16 {
            vars.insert(format!("R{}", r), r);
        }
        let mut next_var: i16 = 16;
        let mut code = Vec::new();
        for line in lines {
            if let Some(sym) = line.strip_prefix('@') {
                let value: i16 = if let Ok(n) = sym.parse::<i16>() {
                    n
                } else if let Some(&pc) = labels.get(sym) {
                    pc as i16
                } else if let Some(&v) = vars.get(sym) {
                    v
                } else {
                    vars.insert(sym.to_string(), next_var);
                    next_var += 1;
                    next_var - 1
                };
                code.push((Some(value.to_string()), None, None, None));
            } else {
                let (dest, rest) = match line.split_once('=') {
                    Some((d, r)) => (Some(d.to_string()), r.to_string()),
                    None => (None, line.clone()),
                };
                let (comp, jump) = match rest.split_once(';') {
                    Some((c, j)) => (c.to_string(), Some(j.to_string())),
                    None => (rest.clone(), None),
                };
                code.push((None, dest, Some(comp), jump));
            }
        }
        Machine { code, ram: vec![0; 32768], pc: 0, a: 0, d: 0 }
    }

    fn step(&mut self) {
        let (load, dest, comp, jump) = self.code[self.pc].clone();
        if let Some(v) = load {
            self.a = v.parse().unwrap();
            self.pc += 1;
            return;
        }
        let m = self.ram[self.a as u16 as usize];
        let (a, d) = (self.a, self.d);
        let v: i16 = match comp.unwrap().as_str() {
            "0" => 0,
            "1" => 1,
            "-1" => -1,
            "D" => d,
            "A" => a,
            "M" => m,
            "D+1" => d.wrapping_add(1),
            "M+1" => m.wrapping_add(1),
            "M-1" => m.wrapping_sub(1),
            "D+A" => d.wrapping_add(a),
            "D-A" => d.wrapping_sub(a),
            "D+M" => d.wrapping_add(m),
            "M-D" => m.wrapping_sub(d),
            "D&M" => d & m,
            "D|M" => d | m,
            "-M" => m.wrapping_neg(),
            "!M" => !m,
            other => panic!("unknown computation {}", other),
        };
        if let Some(dest) = dest {
            if dest.contains('M') {
                self.ram[a as u16 as usize] = v;
            }
            if dest.contains('A') {
                self.a = v;
            }
            if dest.contains('D') {
                self.d = v;
            }
        }
        let taken = match jump.as_deref() {
            None => false,
            Some("JEQ") => v == 0,
            Some("JGT") => v > 0,
            Some("JLT") => v < 0,
            Some("JGE") => v >= 0,
            Some("JNE") => v != 0,
            Some("JMP") => true,
            Some(other) => panic!("unknown jump {}", other),
        };
        if taken {
            self.pc = self.a as u16 as usize;
        } else {
            self.pc += 1;
        }
    }

    fn run(&mut self) {
        while self.pc < self.code.len() {
            self.step();
        }
    }

    fn run_steps(&mut self, n: usize) {
        for _ in 0..n {
            if self.pc >= self.code.len() {
                return;
            }
            self.step();
        }
    }
}

fn frame(m: &mut Machine) {
    m.ram[0] = 256;
    m.ram[1] = 300;
    m.ram[2] = 400;
    m.ram[3] = 3000;
    m.ram[4] = 3010;
}

#[test]
fn push_constant_then_pop_leaves_stack_pointer() {
    let cases: [(&str, i16, usize); 9] = [
        ("static", 0, 16),
        ("local", 2, 302),
        ("argument", 1, 401),
        ("this", 4, 3004),
        ("that", 0, 3010),
        ("temp", 3, 8),
        ("temp", 0, 5),
        ("pointer", 0, 3),
        ("pointer", 1, 4),
    ];
    for (seg, i, addr) in cases {
        let w = CodeWriter::new("Main", 0, 0);
        let mut text = w.write_push_pop(CommandType::PUSH, "constant", 1234).unwrap();
        text.push_str(&w.write_push_pop(CommandType::POP, seg, i).unwrap());
        let mut m = Machine::load(&text);
        frame(&mut m);
        m.run();
        assert_eq!(m.ram[0], 256, "stack pointer after pop {} {}", seg, i);
        assert_eq!(m.ram[addr], 1234, "word of {} {}", seg, i);
    }
}

#[test]
fn binary_operations_leave_one_value() {
    let cases: [(&str, i16); 4] = [("add", 12 + 5), ("sub", 12 - 5), ("and", 12 & 5), ("or", 12 | 5)];
    for (op, expected) in cases {
        let mut w = CodeWriter::new("Main", 0, 0);
        let mut text = w.write_push_pop(CommandType::PUSH, "constant", 12).unwrap();
        text.push_str(&w.write_push_pop(CommandType::PUSH, "constant", 5).unwrap());
        text.push_str(&w.write_arithmetic(op).unwrap());
        assert_eq!(w.comparison_counter(), 0);
        assert!(!text.contains('('), "{} defines a label", op);
        let mut m = Machine::load(&text);
        frame(&mut m);
        m.run();
        assert_eq!(m.ram[0], 257, "{}", op);
        assert_eq!(m.ram[256], expected, "{}", op);
    }
}

#[test]
fn comparisons_and_unary_operations_compute() {
    let cases: [(i16, i16, &str, i16); 8] = [
        (3, 3, "eq", -1),
        (3, 4, "eq", 0),
        (5, 4, "gt", -1),
        (4, 5, "gt", 0),
        (4, 5, "lt", -1),
        (5, 4, "lt", 0),
        (9, 0, "neg", -9),
        (9, 0, "not", !9),
    ];
    for (x, y, op, expected) in cases {
        let mut w = CodeWriter::new("Main", 0, 0);
        let mut text = w.write_push_pop(CommandType::PUSH, "constant", x).unwrap();
        let unary = op == "neg" || op == "not";
        if !unary {
            text.push_str(&w.write_push_pop(CommandType::PUSH, "constant", y).unwrap());
        }
        text.push_str(&w.write_arithmetic(op).unwrap());
        let mut m = Machine::load(&text);
        frame(&mut m);
        m.run();
        assert_eq!(m.ram[0], 257, "{} {} {}", x, op, y);
        assert_eq!(m.ram[256], expected, "{} {} {}", x, op, y);
    }
}

#[test]
fn sum_popped_into_first_local() {
    let mut w = CodeWriter::new("Main", 0, 0);
    let mut text = String::new();
    text.push_str(&w.write_push_pop(CommandType::PUSH, "constant", 7).unwrap());
    text.push_str(&w.write_push_pop(CommandType::PUSH, "constant", 8).unwrap());
    text.push_str(&w.write_arithmetic("add").unwrap());
    text.push_str(&w.write_push_pop(CommandType::POP, "local", 0).unwrap());
    let mut m = Machine::load(&text);
    frame(&mut m);
    m.ram[0] = 301;
    m.run();
    assert_eq!(m.ram[0], 301);
    assert_eq!(m.ram[300], 15);
}

#[test]
fn call_and_return_round_trip() {
    let program = "\
function Sys.init 0
push constant 3
call Sys.add4 1
pop temp 0
label END
goto END
function Sys.add4 1
push argument 0
push constant 4
add
pop local 0
push local 0
return
";
    let mut w = CodeWriter::new("Sys", 0, 0);
    let mut text = w.write_bootstrap();
    text.push_str(&translate_module(program, &mut w).unwrap());
    assert_eq!(w.call_counter(), 2);
    let mut m = Machine::load(&text);
    m.run_steps(2000);
    assert_eq!(m.ram[5], 7);
    assert_eq!(m.ram[0], 261);
}

#[test]
fn recursion_keeps_frames_apart() {
    let program = "\
function Main.main 0
push constant 6
call Main.sum 1
pop static 0
label HALT
goto HALT
// sum(n) = n + sum(n - 1), sum(0) = 0
function Main.sum 0
push argument 0
if-goto MORE
push constant 0
return
label MORE
push argument 0
push argument 0
push constant 1
sub
call Main.sum 1
add
return
";
    let mut w = CodeWriter::new("Main", 0, 0);
    let boot = "@256\nD=A\n@SP\nM=D\n";
    let mut text = String::from(boot);
    text.push_str(&w.write_call("Main.main", 0).unwrap());
    text.push_str(&translate_module(program, &mut w).unwrap());
    let mut m = Machine::load(&text);
    m.run_steps(20000);
    assert_eq!(m.ram[16], 21);
}

#[test]
fn comparisons_do_not_overflow() {
    let values: [i16; 9] = [i16::MIN, -20000, -2, -1, 0, 1, 2, 20000, i16::MAX];
    for x in values {
        for y in values {
            for op in ["eq", "gt", "lt"] {
                let mut w = CodeWriter::new("Main", 0, 3);
                let mut text = String::new();
                // push x and y through `neg` where they are negative
                for v in [x, y] {
                    let magnitude = (v as i32).abs();
                    if magnitude > 32767 {
                        text.push_str(&w.write_push_pop(CommandType::PUSH, "constant", 32767).unwrap());
                        text.push_str(&w.write_arithmetic("neg").unwrap());
                        text.push_str(&w.write_push_pop(CommandType::PUSH, "constant", 1).unwrap());
                        text.push_str(&w.write_arithmetic("sub").unwrap());
                    } else {
                        text.push_str(&w.write_push_pop(CommandType::PUSH, "constant", magnitude as i16).unwrap());
                        if v < 0 {
                            text.push_str(&w.write_arithmetic("neg").unwrap());
                        }
                    }
                }
                text.push_str(&w.write_arithmetic(op).unwrap());
                let expected = match op {
                    "eq" => x == y,
                    "gt" => x > y,
                    _ => x < y,
                };
                let mut m = Machine::load(&text);
                frame(&mut m);
                m.run();
                assert_eq!(m.ram[0], 257, "{} {} {}", x, op, y);
                assert_eq!(m.ram[256], if expected { -1 } else { 0 }, "{} {} {}", x, op, y);
            }
        }
    }
}
