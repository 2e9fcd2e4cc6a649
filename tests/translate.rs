use std::collections::HashMap;
use vm_translator::codegen::{
    is_instruction, translate, translate_instruction, ErrorKind, TranslateError,
};
use vm_translator::text::{parse_index, split_lines, split_tokens};

fn chars(s: &str) -> Vec<char> {
    s.chars().collect()
}

fn ok(program: &str, module: &str) -> String {
    match translate(program, module) {
        Ok(t) => t,
        Err(e) => panic!("unexpected error {:?}", e),
    }
}

/// Assembles and runs the generated text on a 16-bit machine, with the stack
/// at 256 and LCL, ARG, THIS, THAT at 300, 400, 3000, 3010.
fn simulate(text: &str) -> Vec<i16> {
    let mut code: Vec<String> = Vec::new();
    let mut labels: HashMap<String, i16> = HashMap::new();
    for line in text.lines() {
        let l = line.trim();
        if l.is_empty() || l.starts_with("//") {
            continue;
        }
        if l.starts_with('(') {
            labels.insert(l[1..l.len() - 1].to_string(), code.len() as i16);
        } else {
            code.push(l.to_string());
        }
    }
    let mut vars: HashMap<String, i16> = HashMap::new();
    let mut ram = vec![0i16; 4096];
    ram[0] = 256;
    ram[1] = 300;
    ram[2] = 400;
    ram[3] = 3000;
    ram[4] = 3010;
    let (mut a, mut d, mut pc): (i16, i16, usize) = (0, 0, 0);
    let mut steps = 0;
    while pc < code.len() {
        steps += 1;
        assert!(steps < 10000);
        let ins = &code[pc];
        pc += 1;
        if let Some(sym) = ins.strip_prefix('@') {
            a = if let Ok(n) = sym.parse::<i16>() {
                n
            } else {
                match sym {
                    "SP" => 0,
                    "LCL" => 1,
                    "ARG" => 2,
                    "THIS" => 3,
                    "THAT" => 4,
                    _ if sym.starts_with('R') && sym[1..].parse::<i16>().is_ok() => {
                        sym[1..].parse::<i16>().unwrap()
                    }
                    _ => {
                        if let Some(p) = labels.get(sym) {
                            *p
                        } else {
                            let next = 16 + vars.len() as i16;
                            *vars.entry(sym.to_string()).or_insert(next)
                        }
                    }
                }
            };
            continue;
        }
        let (dest, rest) = match ins.split_once('=') {
            Some((x, y)) => (x, y),
            None => ("", ins.as_str()),
        };
        let (comp, jump) = match rest.split_once(';') {
            Some((x, y)) => (x, y),
            None => (rest, ""),
        };
        let m = ram[a as usize];
        let v: i16 = match comp {
            "0" => 0,
            "-1" => -1,
            "A" => a,
            "D" => d,
            "M" => m,
            "D+A" => d.wrapping_add(a),
            "D+M" => d.wrapping_add(m),
            "M+1" => m.wrapping_add(1),
            "M-1" => m.wrapping_sub(1),
            "M-D" => m.wrapping_sub(d),
            "D-M" => d.wrapping_sub(m),
            "-M" => m.wrapping_neg(),
            "!M" => !m,
            "D&M" => d & m,
            "D|M" => d | m,
            other => panic!("unknown computation {}", other),
        };
        let target = a;
        if dest.contains('M') {
            ram[target as usize] = v;
        }
        if dest.contains('A') {
            a = v;
        }
        if dest.contains('D') {
            d = v;
        }
        let taken = match jump {
            "" => false,
            "JEQ" => v == 0,
            "JGT" => v > 0,
            "JLT" => v < 0,
            "JMP" => true,
            other => panic!("unknown jump {}", other),
        };
        if taken {
            pc = target as usize;
        }
    }
    ram
}

fn top(ram: &[i16]) -> i16 {
    ram[ram[0] as usize - 1]
}

#[test]
fn push_constant_text() {
    assert_eq!(
        ok("push constant 7", "Main"),
        "// Push value from constant at 7 to the stack.\n@7\nD=A\n@SP\nA=M\nM=D\n@SP\nM=M+1\n"
    );
}

#[test]
fn push_and_pop_move_stack_pointer_by_one() {
    for line in [
        "push local 2",
        "push argument 1",
        "push this 0",
        "push that 3",
        "push pointer 1",
        "push temp 4",
        "push constant 9",
        "push static 5",
    ] {
        let ram = simulate(&ok(line, "Main"));
        assert_eq!(ram[0], 257, "{}", line);
    }
    for line in [
        "pop local 2",
        "pop argument 1",
        "pop this 0",
        "pop that 3",
        "pop pointer 1",
        "pop temp 4",
        "pop static 5",
    ] {
        let ram = simulate(&ok(&format!("push constant 1\npush constant 2\n{}", line), "Main"));
        assert_eq!(ram[0], 257, "{}", line);
    }
}

#[test]
fn pop_local_writes_segment_cell() {
    let ram = simulate(&ok("push constant 42\npop local 3\npush local 3", "Main"));
    assert_eq!(ram[303], 42);
    assert_eq!(top(&ram), 42);
    assert_eq!(ram[0], 257);
}

#[test]
fn binary_and_unary_depth() {
    for op in ["add", "sub", "and", "or", "eq", "gt", "lt"] {
        let ram = simulate(&ok(&format!("push constant 5\npush constant 6\n{}", op), "Main"));
        assert_eq!(ram[0], 257, "{}", op);
    }
    for op in ["neg", "not"] {
        let ram = simulate(&ok(&format!("push constant 5\n{}", op), "Main"));
        assert_eq!(ram[0], 257, "{}", op);
    }
}

#[test]
fn temp_round_trip_keeps_value() {
    let ram = simulate(&ok("push constant 7\npop temp 2\npush temp 2", "Main"));
    assert_eq!(ram[0], 257);
    assert_eq!(top(&ram), 7);
    assert_eq!(ram[7], 7);
}

#[test]
fn comparison_labels_are_unique() {
    let text = ok("push constant 1\npush constant 1\neq\npush constant 1\neq\npush constant 2\ngt\npush constant 3\nlt", "Main");
    for n in 1..=4 {
        for label in ["RESULT_TRUE_", "RESULT_FALSE_", "RESULT_"] {
            let decl = format!("({}{})\n", label, n);
            assert_eq!(text.matches(decl.as_str()).count(), 1, "{}", decl);
        }
    }
    assert!(!text.contains("RESULT_TRUE_5"));
    assert!(!text.contains("RESULT_TRUE_0"));
    let mut seen = std::collections::HashSet::new();
    for line in text.lines().filter(|l| l.starts_with('(')) {
        assert!(seen.insert(line.to_string()), "{}", line);
    }
    assert_eq!(seen.len(), 12);
}

#[test]
fn comparisons_leave_temp_cells_alone() {
    for op in ["eq", "gt", "lt"] {
        let program = format!(
            "push constant 9\npop temp 1\npush constant 8\npop temp 2\npush constant 1\npush constant 1\n{}\npush temp 1\npush temp 2",
            op
        );
        let ram = simulate(&ok(&program, "Main"));
        assert_eq!(ram[0], 259, "{}", op);
        assert_eq!(ram[257], 9, "{}", op);
        assert_eq!(ram[258], 8, "{}", op);
        assert_eq!(ram[6], 9);
        assert_eq!(ram[7], 8);
    }
    let text = ok("eq", "Main");
    assert!(text.contains("@R13
") && text.contains("@R14
") && text.contains("@R15
"));
    assert!(!text.contains("@R6
") && !text.contains("@R7
"));
}

#[test]
fn sub_is_lower_minus_upper() {
    let ram = simulate(&ok("push constant 10\npush constant 3\nsub", "Main"));
    assert_eq!(top(&ram), 7);
    assert_eq!(ram[0], 257);
}

#[test]
fn comparison_sentinels() {
    let cases = [
        ("push constant 4\npush constant 4\neq", -1),
        ("push constant 4\npush constant 5\neq", 0),
        ("push constant 5\npush constant 4\ngt", -1),
        ("push constant 4\npush constant 5\ngt", 0),
        ("push constant 4\npush constant 5\nlt", -1),
        ("push constant 5\npush constant 4\nlt", 0),
    ];
    for (program, expected) in cases {
        let ram = simulate(&ok(program, "Main"));
        assert_eq!(top(&ram), expected, "{}", program);
        assert_eq!(ram[0], 257);
    }
}

#[test]
fn other_operators_compute() {
    let ram = simulate(&ok("push constant 2\npush constant 3\nadd\nneg", "Main"));
    assert_eq!(top(&ram), -5);
    let ram = simulate(&ok("push constant 12\npush constant 10\nand", "Main"));
    assert_eq!(top(&ram), 8);
    let ram = simulate(&ok("push constant 12\npush constant 10\nor\nnot", "Main"));
    assert_eq!(top(&ram), !14);
}

#[test]
fn pointer_index_out_of_range() {
    assert_eq!(
        translate("push pointer 5", "Main"),
        Err(TranslateError { line: 1, kind: ErrorKind::PointerIndexOutOfRange(5) })
    );
    assert_eq!(
        translate("push constant 1\npop pointer 2", "Main"),
        Err(TranslateError { line: 2, kind: ErrorKind::PointerIndexOutOfRange(2) })
    );
}

#[test]
fn temp_index_out_of_range() {
    assert_eq!(
        translate("push temp 9", "Main"),
        Err(TranslateError { line: 1, kind: ErrorKind::TempIndexOutOfRange(9) })
    );
    assert_eq!(
        translate("pop temp 0", "Main"),
        Err(TranslateError { line: 1, kind: ErrorKind::TempIndexOutOfRange(0) })
    );
}

#[test]
fn unknown_operator() {
    assert_eq!(
        translate("// start\n\nadd\nfoobar", "Main"),
        Err(TranslateError { line: 4, kind: ErrorKind::UnknownOperator })
    );
}

#[test]
fn unknown_segment_gives_comment_only() {
    assert_eq!(ok("push bogus 0", "Main"), "// Push value from bogus at 0 to the stack.\n");
    assert_eq!(ok("pop constant 3", "Main"), "// Pop value from constant at 3 to the stack.\n");
}

#[test]
fn comments_and_blank_lines_give_nothing() {
    let plain = ok("push constant 7\nadd", "Main");
    assert_eq!(ok("// comment\npush constant 7\n\n// comment\nadd\n// comment", "Main"), plain);
    assert_eq!(ok("\n\n// comment\n", "Main"), "");
    assert_eq!(ok("", "Main"), "");
}

#[test]
fn other_word_counts_give_nothing() {
    assert_eq!(ok("push constant", "Main"), "");
    assert_eq!(ok("push constant 7 extra", "Main"), "");
    assert_eq!(ok("   ", "Main"), "");
}

#[test]
fn static_symbol_uses_module_name() {
    let text = ok("push static 3\npop static 4", "Foo");
    assert!(text.contains("@Foo.3\nD=M\n"));
    assert!(text.contains("@Foo.4\nM=D\n"));
}

#[test]
fn index_text_parsing() {
    assert!(ok("push constant abc", "Main").contains("at 0 to the stack.\n@0\n"));
    assert!(ok("push constant +5", "Main").contains("at 5 to the stack.\n@5\n"));
    assert!(ok("push constant 70000", "Main").contains("@0\n"));
    assert!(ok("push constant 65535", "Main").contains("@65535\n"));
    assert!(ok("push constant 007", "Main").contains("at 7 to the stack.\n@7\n"));
    assert_eq!(parse_index(&chars("123")), Some(123));
    assert_eq!(parse_index(&chars("-1")), None);
    assert_eq!(parse_index(&chars("+")), None);
    assert_eq!(parse_index(&chars("")), None);
    assert_eq!(parse_index(&chars("65536")), None);
    assert_eq!(parse_index(&chars("0065535")), Some(65535));
}

#[test]
fn temp_addresses() {
    assert!(ok("push temp 1", "Main").contains("@6\nD=M\n"));
    assert!(ok("pop temp 7", "Main").contains("@12\nM=D\n"));
}

#[test]
fn windows_line_endings_and_tabs() {
    assert_eq!(ok("push\tconstant  7\r\nadd\r\n", "Main"), ok("push constant 7\nadd", "Main"));
}

#[test]
fn line_splitting() {
    let ls = split_lines(&chars("a\r\n\nb\rc\n"));
    assert_eq!(ls, vec![chars("a"), chars(""), chars("b\rc")]);
    assert_eq!(split_lines(&chars("")).len(), 0);
    assert_eq!(split_lines(&chars("x")), vec![chars("x")]);
}

#[test]
fn tokenizing() {
    assert_eq!(
        split_tokens(&chars("  pop\u{3000}local\t 3 ")),
        vec![chars("pop"), chars("local"), chars("3")]
    );
    assert_eq!(split_tokens(&chars(" \t ")).len(), 0);
}

#[test]
fn instruction_filter() {
    assert!(!is_instruction(&chars("")));
    assert!(!is_instruction(&chars("// x")));
    assert!(is_instruction(&chars(" // x")));
    assert!(is_instruction(&chars("/ x")));
}

#[test]
fn counter_threads_through_comparisons() {
    let mut counter: usize = 4;
    let text = translate_instruction(&chars("gt"), &chars("Main"), &mut counter).unwrap();
    assert_eq!(counter, 5);
    assert!(text.contains("(RESULT_TRUE_5)\n"));
    assert!(text.contains("@RESULT_5\n0;JMP\n"));
    let text = translate_instruction(&chars("add"), &chars("Main"), &mut counter).unwrap();
    assert_eq!(counter, 5);
    assert!(text.starts_with("// Arithmetic instruction: add.\n"));
}

#[test]
fn counter_unchanged_on_error() {
    let mut counter: usize = 7;
    assert_eq!(
        translate_instruction(&chars("foobar"), &chars("Main"), &mut counter),
        Err(ErrorKind::UnknownOperator)
    );
    assert_eq!(counter, 7);
    assert_eq!(
        translate_instruction(&chars("push temp 9"), &chars("Main"), &mut counter),
        Err(ErrorKind::TempIndexOutOfRange(9))
    );
    assert_eq!(counter, 7);
}
