use corewar::expression::{
    evaluate_tokens, read_expression, ExpressionOperator, ExpressionToken, ExpressionTree,
};
use corewar::instructions::{Instruction, Modifier, OpCode, Operand, OperandMode};
use corewar::literal::{parse_integer, split_into_tokens, to_core_size};
use corewar::numeric::Numeric;
use corewar::operand::{evaluate_operand, operand_to_expression_tokens, parse_operand};
use corewar::parser::{
    code_of, get_labels, implicit_modifier, lines_of, parse, parse_instruction, parse_op_code,
};
use corewar::variables::{
    classify, expand_variable, get_variable_definition, get_variables, Word,
};
use corewar::table::Table;
use corewar::text::{blank, is_word, same_text, split, split_words, trim, Separator};

fn one(line: &str) -> Instruction<8000> {
    let parsed = parse::<8000>(line.to_string()).unwrap();
    assert_eq!(1, parsed.len());
    parsed[0]
}

fn shape(i: &Instruction<8000>) -> (OpCode, Modifier, OperandMode, usize, OperandMode, usize) {
    (
        i.op,
        i.modifier,
        i.a_operand.mode,
        i.a_operand.pointer.value,
        i.b_operand.mode,
        i.b_operand.pointer.value,
    )
}

fn value(text: &str) -> Result<usize, String> {
    evaluate_operand::<8000>(text, &Table::new(), &Table::new(), 0)
}

#[test]
fn mov_with_a_negative_pointer() {
    assert_eq!(
        (OpCode::Mov, Modifier::I, OperandMode::Direct, 6, OperandMode::Direct, 7999),
        shape(&one("mov 6, -1"))
    );
}

#[test]
fn spl_with_a_decrement_operand() {
    assert_eq!(
        (OpCode::Spl, Modifier::B, OperandMode::Direct, 6, OperandMode::Decrement, 7997),
        shape(&one("spl 6, <-3"))
    );
}

#[test]
fn a_variable_as_operand() {
    let mut source = String::from("lozzero equ 66\n");
    for _ in 0..13 {
        source.push_str("dat 0, 0\n");
    }
    source.push_str("spl 0, lozzero\n");
    let parsed = parse::<8000>(source).unwrap();
    assert_eq!(14, parsed.len());
    assert_eq!(
        (OpCode::Spl, Modifier::B, OperandMode::Direct, 0, OperandMode::Direct, 66),
        shape(&parsed[13])
    );
}

#[test]
fn products_before_sums() {
    assert_eq!(Ok(132), value("5+10*12+7"));
    assert_eq!(Ok(127), value("10*12+7"));
    assert_eq!(Ok(7), value("1+2*3"));
    assert_eq!(Ok(9), value("(1+2)*3"));
    assert_eq!(Ok(5), value("1*2+3"));
    assert_eq!(Ok(1), value("7%4/2"));
    assert_eq!(Ok(2), value("9-4-3"));
    assert_eq!(Ok(8), value("9-(4-3)"));
    assert_eq!(Ok(4), value("16/2/2"));
    assert_eq!(Ok(42), value("((42))"));
    assert_eq!(Ok(8004), value("7999+5"));
}

#[test]
fn malformed_expressions_are_errors() {
    for text in ["", "+", "5+", "(5", "5)", "()", "(1)(2)+", "5 5", "*3", "1++2", "(1+2", "1+2)"] {
        assert!(value(text).is_err(), "{}", text);
    }
    assert_eq!(Err("Invalid expression 5*".to_string()), value("5*"));
}

#[test]
fn arithmetic_without_a_value_is_an_error() {
    assert_eq!(Err("Invalid expression 1/(1-1)".to_string()), value("1/(1-1)"));
    assert_eq!(Err("Invalid expression 4%(2-2)".to_string()), value("4%(2-2)"));
    assert_eq!(Err("Invalid expression 5-10".to_string()), value("5-10"));
    let big = "7999*7999*7999*7999*7999*7999*7999*7999*7999*7999";
    assert!(value(big).is_err());
    assert_eq!(Ok(0), value("5*0"));
    assert_eq!(Ok(0), value("0/5"));
}

#[test]
fn unknown_names_are_errors() {
    assert_eq!(Err("Invalid token nope".to_string()), value("nope+1"));
    assert_eq!(Err("Invalid token nope".to_string()), value("nope"));
    assert_eq!(Err("Invalid token b".to_string()), value("1+b*c"));
}

#[test]
fn integer_literals() {
    assert_eq!(Ok(0), value("0"));
    assert_eq!(Ok(99), value("99"));
    assert_eq!(Ok(99), value("+99"));
    assert_eq!(Ok(7901), value("-99"));
    assert_eq!(Ok(1000), value("9000"));
    assert_eq!(Ok(7000), value("-9000"));
    assert_eq!(Ok(0), value("-8000"));
    assert_eq!(Ok(7), value("007"));
    assert_eq!(Some(i128::MAX), parse_integer("170141183460469231731687303715884105727"));
    assert_eq!(None, parse_integer("170141183460469231731687303715884105728"));
    assert_eq!(Some(i128::MIN), parse_integer("-170141183460469231731687303715884105728"));
    assert_eq!(None, parse_integer("-170141183460469231731687303715884105729"));
    assert_eq!(None, parse_integer("1701411834604692317316873037158841057270"));
    assert_eq!(None, parse_integer(""));
    assert_eq!(None, parse_integer("-"));
    assert_eq!(None, parse_integer("+"));
    assert_eq!(None, parse_integer("--1"));
    assert_eq!(None, parse_integer("1a"));
    assert_eq!(None, parse_integer("\u{0664}"));
    assert_eq!(Some(-12), parse_integer("-12"));
    assert_eq!(7999, to_core_size::<8000>(-1));
    assert_eq!(0, to_core_size::<8000>(-16000));
    assert_eq!(1, to_core_size::<8000>(8001));
    assert_eq!((i128::MAX % 8000) as usize, to_core_size::<8000>(i128::MAX));
    assert_eq!(i128::MIN.rem_euclid(8000) as usize, to_core_size::<8000>(i128::MIN));
}

#[test]
fn labels_are_ways_from_the_current_line() {
    let mut labels: Table<usize> = Table::new();
    labels.insert("top", 2);
    labels.insert("end", 9);
    let variables: Table<String> = Table::new();
    assert_eq!(Ok(7998), evaluate_operand::<8000>("top", &labels, &variables, 4));
    assert_eq!(Ok(5), evaluate_operand::<8000>("end", &labels, &variables, 4));
    assert_eq!(Ok(0), evaluate_operand::<8000>("end", &labels, &variables, 9));
    assert_eq!(Ok(6), evaluate_operand::<8000>("end+1", &labels, &variables, 4));
    assert_eq!(Ok(7993), evaluate_operand::<8000>("top-end", &labels, &variables, 4));
    assert_eq!(Ok(2), evaluate_operand::<8000>("top", &labels, &variables, 8000));
    assert_eq!(Ok(1), evaluate_operand::<8000>("top", &labels, &variables, 8001));
}

#[test]
fn variables_in_operands() {
    let labels: Table<usize> = Table::new();
    let mut variables: Table<String> = Table::new();
    variables.insert("a", "b+1".to_string());
    variables.insert("b", "2".to_string());
    variables.insert("loop", "loop".to_string());
    variables.insert("ping", "pong".to_string());
    variables.insert("pong", "ping".to_string());
    assert_eq!(Ok(3), evaluate_operand::<8000>("a", &labels, &variables, 0));
    // The text stands in place of the name, without parentheses.
    assert_eq!(Ok(2 + 1 * (2 + 1)), evaluate_operand::<8000>("a*(b+1)", &labels, &variables, 0));
    assert_eq!(Ok(2 + 1 * 2), evaluate_operand::<8000>("a*b", &labels, &variables, 0));
    assert_eq!(Ok((2 + 1) * 2), evaluate_operand::<8000>("(a)*b", &labels, &variables, 0));
    assert!(evaluate_operand::<8000>("loop", &labels, &variables, 0).is_err());
    assert!(evaluate_operand::<8000>("ping+1", &labels, &variables, 0).is_err());
    let tokens = operand_to_expression_tokens::<8000>("a*7", &labels, &variables, 0, 5).unwrap();
    assert_eq!(
        vec![
            ExpressionToken::Value(2),
            ExpressionToken::Operator(ExpressionOperator::Add),
            ExpressionToken::Value(1),
            ExpressionToken::Operator(ExpressionOperator::Mul),
            ExpressionToken::Value(7),
        ],
        tokens
    );
    assert_eq!(
        Err("Cyclic variable b".to_string()),
        operand_to_expression_tokens::<8000>("a", &labels, &variables, 0, 1)
    );
}

#[test]
fn variables_are_expanded() {
    let parsed = parse::<8000>(
        "x equ 5\n y equ x+1 \n z equ y*(x+here)\n mov y, z\nhere: dat x, 0".to_string(),
    )
    .unwrap();
    assert_eq!(2, parsed.len());
    assert_eq!(6, parsed[0].a_operand.pointer.value);
    // z is 5+1*(5+here), and here is one line ahead.
    assert_eq!(5 + 1 * (5 + 1), parsed[0].b_operand.pointer.value);
    assert_eq!(5, parsed[1].a_operand.pointer.value);
}

#[test]
fn a_later_definition_replaces_an_earlier_one() {
    let parsed = parse::<8000>("x equ 5\nx equ 7\nmov x, 0".to_string()).unwrap();
    assert_eq!(7, parsed[0].a_operand.pointer.value);
}

#[test]
fn cyclic_variables_are_errors() {
    assert_eq!(Err("Invalid token x".to_string()), parse::<8000>("x equ x\nmov 0, 0".to_string()));
    assert!(parse::<8000>("x equ y+1\ny equ x\nmov 0, 0".to_string()).is_err());
    assert_eq!(
        Err("Invalid token nope".to_string()),
        parse::<8000>("mov 0, 0\nx equ 1+nope".to_string())
    );
}

fn word(text: &str, numeric: bool) -> Word {
    Word { text: text.to_string(), numeric }
}

fn spelling(words: &Vec<Word>) -> Vec<(String, bool)> {
    words.iter().map(|w| (w.text.clone(), w.numeric)).collect()
}

#[test]
fn texts_of_variables_are_cut_into_tokens() {
    assert_eq!(
        vec![
            ("(".to_string(), false),
            ("12".to_string(), true),
            ("+".to_string(), false),
            ("x1".to_string(), false),
            (")".to_string(), false),
            ("*".to_string(), false),
            ("\u{664}\u{b2}".to_string(), true),
        ],
        spelling(&classify("(12+x1)*\u{664}\u{b2}"))
    );
    assert!(classify("").is_empty());
}

#[test]
fn expanding_leaves_the_table_as_it_was() {
    let labels: Table<usize> = Table::new();
    let mut variables: Table<Vec<Word>> = Table::new();
    variables.insert("a", classify("b+1"));
    variables.insert("b", classify("(2)"));
    assert_eq!(
        Ok("(2)+1*(2)".to_string()),
        expand_variable(&classify("a*b"), &labels, &mut variables)
    );
    assert_eq!(2, variables.len());
    assert_eq!(spelling(&classify("b+1")), spelling(variables.get("a").unwrap()));
    assert_eq!(
        Err("Invalid token c".to_string()),
        expand_variable(&classify("a+c"), &labels, &mut variables)
    );
    assert_eq!(2, variables.len());
    assert_eq!(spelling(&classify("(2)")), spelling(variables.get("b").unwrap()));
}

#[test]
fn expanding_goes_by_the_notes_on_the_tokens() {
    let mut labels: Table<usize> = Table::new();
    labels.insert("here", 4);
    let mut variables: Table<Vec<Word>> = Table::new();
    variables.insert("x", vec![word("7", true)]);
    variables.insert("y", vec![word("x", false), word("+", false), word("x", true)]);
    variables.insert("self", vec![word("self", false)]);
    // A numeric token, an operator and a label stay; a variable is expanded.
    assert_eq!(
        Ok("7+7*here".to_string()),
        expand_variable(
            &vec![
                word("7", true),
                word("+", false),
                word("x", false),
                word("*", false),
                word("here", false)
            ],
            &labels,
            &mut variables
        )
    );
    // A token noted as numeric stays, even where a variable has its name.
    assert_eq!(
        Ok("7+x".to_string()),
        expand_variable(&vec![word("y", false)], &labels, &mut variables)
    );
    // A token that is not noted as numeric must be a variable.
    assert_eq!(
        Err("Invalid token 7".to_string()),
        expand_variable(&vec![word("7", false)], &labels, &mut variables)
    );
    assert_eq!(
        Err("Invalid token self".to_string()),
        expand_variable(&vec![word("self", false)], &labels, &mut variables)
    );
    assert_eq!(Ok("".to_string()), expand_variable(&vec![], &labels, &mut variables));
    assert_eq!(3, variables.len());
}

#[test]
fn wrong_lines_are_errors() {
    assert_eq!(Err("Invalid OpCode: nop".to_string()), parse::<8000>("nop 1, 2".to_string()));
    assert_eq!(Err("Invalid modifier: q".to_string()), parse::<8000>("mov.q 1, 2".to_string()));
    assert_eq!(Err("Invalid line mov 1".to_string()), parse::<8000>("mov 1".to_string()));
    assert_eq!(Err("Invalid line mov 1 2 3".to_string()), parse::<8000>("mov 1 2 3".to_string()));
    assert_eq!(Err("Invalid line end:".to_string()), parse::<8000>("end:".to_string()));
    assert_eq!(Err("Invalid token bad".to_string()), parse::<8000>("mov 1, bad".to_string()));
    assert_eq!(
        Err("Invalid expression 1/(2-2)".to_string()),
        parse::<8000>("mov 1, 1/(2-2)".to_string())
    );
    // The first wrong line counts.
    assert_eq!(
        Err("Invalid OpCode: one".to_string()),
        parse::<8000>("mov 0, 1\none 1, 2\ntwo 1, 2".to_string())
    );
}

#[test]
fn an_empty_text_has_no_instructions() {
    assert_eq!(Ok(vec![]), parse::<8000>("".to_string()).map(|v| v.iter().map(shape).collect::<Vec<_>>()));
    assert_eq!(0, parse::<8000>("\n\r\n  ; nothing\n\t\n".to_string()).unwrap().len());
}

#[test]
fn lines_end_with_any_line_break() {
    let parsed = parse::<8000>("mov 0, 1\rdat 1, 2\r\nadd #1, 2\njmp 0, 0".to_string()).unwrap();
    assert_eq!(4, parsed.len());
    assert_eq!(OpCode::Jmp, parsed[3].op);
    assert_eq!(vec!["a", "b", "d"], lines_of(" a \n;x\n\r b ;c\u{a0}\n\n\u{2003}d;\n ; \n"));
}

#[test]
fn opcodes_and_modifiers_in_any_case() {
    let words = [
        ("dat", OpCode::Dat),
        ("MOV", OpCode::Mov),
        ("Add", OpCode::Add),
        ("sUb", OpCode::Sub),
        ("mul", OpCode::Mul),
        ("DIV", OpCode::Div),
        ("mod", OpCode::Mod),
        ("jmp", OpCode::Jmp),
        ("JMZ", OpCode::Jmz),
        ("jmn", OpCode::Jmn),
        ("djn", OpCode::Djn),
        ("cmp", OpCode::Cmp),
        ("SLT", OpCode::Slt),
        ("spl", OpCode::Spl),
    ];
    for (word, op) in words {
        assert_eq!(Ok((op, None)), parse_op_code(word));
    }
    let modifiers = [
        ("a", Modifier::A),
        ("B", Modifier::B),
        ("aB", Modifier::AB),
        ("BA", Modifier::BA),
        ("f", Modifier::F),
        ("X", Modifier::X),
        ("i", Modifier::I),
    ];
    for (word, modifier) in modifiers {
        assert_eq!(Ok((OpCode::Mov, Some(modifier))), parse_op_code(&format!("mov.{}", word)));
    }
    assert_eq!(Ok((OpCode::Mov, None)), parse_op_code("mov.a.b"));
    assert_eq!(Err("Invalid OpCode: ".to_string()), parse_op_code(""));
    assert_eq!(Err("Invalid OpCode: mo".to_string()), parse_op_code("mo"));
    assert_eq!(Err("Invalid OpCode: movv.a".to_string()), parse_op_code("movv.a"));
    assert_eq!(Err("Invalid modifier: ".to_string()), parse_op_code("mov."));
    assert_eq!(Err("Invalid modifier: AX".to_string()), parse_op_code("mov.AX"));
}

fn tabled(op: OpCode, a: OperandMode, b: OperandMode) -> Modifier {
    match op {
        OpCode::Dat => Modifier::F,
        OpCode::Mov | OpCode::Cmp => {
            if a == OperandMode::Immediate {
                Modifier::AB
            } else if b == OperandMode::Immediate {
                Modifier::B
            } else {
                Modifier::I
            }
        }
        OpCode::Add | OpCode::Sub | OpCode::Mul | OpCode::Div | OpCode::Mod => {
            if a == OperandMode::Immediate {
                Modifier::AB
            } else if b == OperandMode::Immediate {
                Modifier::B
            } else {
                Modifier::F
            }
        }
        OpCode::Slt => {
            if a == OperandMode::Immediate {
                Modifier::AB
            } else {
                Modifier::B
            }
        }
        OpCode::Jmp | OpCode::Jmz | OpCode::Jmn | OpCode::Djn | OpCode::Spl => Modifier::B,
    }
}

#[test]
fn the_implicit_modifier_goes_by_opcode_and_modes() {
    let modes = [
        OperandMode::Immediate,
        OperandMode::Direct,
        OperandMode::Indirect,
        OperandMode::Decrement,
        OperandMode::Increment,
    ];
    let ops = [
        OpCode::Dat,
        OpCode::Mov,
        OpCode::Add,
        OpCode::Sub,
        OpCode::Mul,
        OpCode::Div,
        OpCode::Mod,
        OpCode::Jmp,
        OpCode::Jmz,
        OpCode::Jmn,
        OpCode::Djn,
        OpCode::Cmp,
        OpCode::Slt,
        OpCode::Spl,
    ];
    for op in ops {
        for a in modes {
            for b in modes {
                for (p, q) in [(0, 0), (17, 4000), (7999, 1)] {
                    let a_operand = Operand { pointer: Numeric::<8000>::new(p), mode: a };
                    let b_operand = Operand { pointer: Numeric::<8000>::new(q), mode: b };
                    assert_eq!(tabled(op, a, b), implicit_modifier(&op, &a_operand, &b_operand));
                }
            }
        }
    }
    assert_eq!(Modifier::AB, one("mov #1, 2").modifier);
    assert_eq!(Modifier::B, one("cmp 1, #2").modifier);
    assert_eq!(Modifier::I, one("mov @1, <2").modifier);
    assert_eq!(Modifier::F, one("add 1, 2").modifier);
    assert_eq!(Modifier::B, one("slt 1, #2").modifier);
    assert_eq!(Modifier::B, one("djn #1, #2").modifier);
    assert_eq!(Modifier::F, one("dat #1, #2").modifier);
    assert_eq!(Modifier::X, one("dat.x #1, #2").modifier);
}

#[test]
fn operands_with_their_modes() {
    let labels: Table<usize> = Table::new();
    let variables: Table<String> = Table::new();
    let read = |text: &str| {
        let operand = parse_operand::<8000>(text, 0, &labels, &variables).unwrap();
        (operand.mode, operand.pointer.value)
    };
    assert_eq!((OperandMode::Immediate, 4), read("#4"));
    assert_eq!((OperandMode::Direct, 4), read("$4"));
    assert_eq!((OperandMode::Direct, 4), read("4"));
    assert_eq!((OperandMode::Indirect, 7999), read("@-1"));
    assert_eq!((OperandMode::Decrement, 6), read("<2*3"));
    assert_eq!((OperandMode::Increment, 4), read(">8004"));
    assert_eq!((OperandMode::Direct, 4), read("7999+5"));
    assert!(parse_operand::<8000>("#", 0, &labels, &variables).is_err());
    assert!(parse_operand::<8000>("#$4", 0, &labels, &variables).is_err());
}

#[test]
fn labels_name_lines_of_code() {
    let lines = vec!["x equ 1", "a: mov 0, 1", "dat 0, 0", "b:dat 0, 0", "y equ 2", " c : jmp a, 0", "a::b", "a: nop"];
    assert_eq!(
        vec!["a: mov 0, 1", "dat 0, 0", "b:dat 0, 0", " c : jmp a, 0", "a::b", "a: nop"],
        code_of(&lines)
    );
    let labels = get_labels(&lines);
    assert_eq!(3, labels.len());
    assert_eq!(Some(&5), labels.get("a"));
    assert_eq!(Some(&2), labels.get("b"));
    assert_eq!(Some(&3), labels.get("c"));
    assert!(!labels.contains_key("x"));
    let parsed = parse::<8000>("up: jmp down, up\nmov 0, 1\ndown: jmp up, down".to_string()).unwrap();
    assert_eq!((2, 0), (parsed[0].a_operand.pointer.value, parsed[0].b_operand.pointer.value));
    assert_eq!((7998, 0), (parsed[2].a_operand.pointer.value, parsed[2].b_operand.pointer.value));
}

#[test]
fn definitions_of_variables() {
    assert_eq!(Some(("x", "1+2")), get_variable_definition("x equ 1+2"));
    assert_eq!(Some(("x", "1")), get_variable_definition("  x \t equ\u{2003}1 "));
    assert_eq!(None, get_variable_definition("x EQU 1"));
    assert_eq!(None, get_variable_definition("x equ 1 + 2"));
    assert_eq!(None, get_variable_definition("mov 0, 1"));
    assert_eq!(None, get_variable_definition("equ"));
    let labels: Table<usize> = Table::new();
    let variables = get_variables(&vec!["a equ b*2", "mov a, b", "b equ 3"], &labels).unwrap();
    assert_eq!(2, variables.len());
    assert_eq!(Some(&"3*2".to_string()), variables.get("a"));
    assert_eq!(Some(&"3".to_string()), variables.get("b"));
}

#[test]
fn instructions_on_lines() {
    let labels: Table<usize> = Table::new();
    let variables: Table<String> = Table::new();
    let read = |line: &str| parse_instruction::<8000>(line, 3, &labels, &variables);
    assert_eq!(
        (OpCode::Add, Modifier::AB, OperandMode::Immediate, 4, OperandMode::Direct, 3),
        shape(&read("gaga:add #4, 3").unwrap())
    );
    assert_eq!(
        (OpCode::Mov, Modifier::BA, OperandMode::Indirect, 1, OperandMode::Increment, 2),
        shape(&read("x:  MOV.ba,@1,,>2,").unwrap())
    );
    assert_eq!(Err("Invalid OpCode: :mov".to_string()), read(":mov 1, 2"));
    assert_eq!(Err("Invalid line a:b:c 1 2 3".to_string()), read("a:b:c 1 2 3"));
}

#[test]
fn tokens_of_expressions() {
    assert_eq!(Vec::<&str>::new(), split_into_tokens(""));
    assert_eq!(vec!["abc"], split_into_tokens("abc"));
    assert_eq!(vec!["(", "ab", "+", "1", ")", "*", "-", "c"], split_into_tokens("(ab+1)*-c"));
    assert_eq!(vec!["a", "/", "b", "%"], split_into_tokens("a/b%"));
    assert_eq!(Ok(ExpressionToken::Value(7995)), ExpressionToken::parse::<8000>("-5"));
    assert_eq!(Ok(ExpressionToken::Value(1)), ExpressionToken::parse::<8000>("8001"));
    assert_eq!(
        Ok(ExpressionToken::Operator(ExpressionOperator::Sub)),
        ExpressionToken::parse::<8000>("-")
    );
    assert_eq!(Ok(ExpressionToken::OpenParenthesis), ExpressionToken::parse::<8000>("("));
    assert_eq!(Ok(ExpressionToken::CloseParenthesis), ExpressionToken::parse::<8000>(")"));
    assert_eq!(Err("Can't parse x".to_string()), ExpressionToken::parse::<8000>("x"));
    assert_eq!(Err("Can't parse ".to_string()), ExpressionToken::parse::<8000>(""));
    assert_eq!(Ok(ExpressionOperator::Mod), ExpressionOperator::parse("%"));
    assert_eq!(Ok(ExpressionOperator::Div), ExpressionOperator::parse("/"));
    assert_eq!(Ok(ExpressionOperator::Mul), ExpressionOperator::parse("*"));
    assert_eq!(Ok(ExpressionOperator::Add), ExpressionOperator::parse("+"));
    assert_eq!(Err("Invalid operand ++".to_string()), ExpressionOperator::parse("++"));
    assert_eq!(Err("Invalid operand (".to_string()), ExpressionOperator::parse("("));
}

#[test]
fn precedence_of_operators() {
    let (add, sub) = (ExpressionOperator::Add, ExpressionOperator::Sub);
    let (mul, div, rem) = (ExpressionOperator::Mul, ExpressionOperator::Div, ExpressionOperator::Mod);
    for strong in [mul, div, rem] {
        for weak in [add, sub] {
            assert!(strong.takes_precedence(weak));
            assert!(!weak.takes_precedence(strong));
        }
        assert!(!strong.takes_precedence(mul));
    }
    assert!(!add.takes_precedence(sub));
    assert_eq!(Some(7), add.compute(3, 4));
    assert_eq!(None, add.compute(usize::MAX, 1));
    assert_eq!(Some(usize::MAX), add.compute(usize::MAX - 1, 1));
    assert_eq!(None, sub.compute(3, 4));
    assert_eq!(Some(0), sub.compute(4, 4));
    assert_eq!(Some(12), mul.compute(3, 4));
    assert_eq!(None, mul.compute(usize::MAX / 2 + 1, 2));
    assert_eq!(Some(usize::MAX - 1), mul.compute(usize::MAX / 2, 2));
    assert_eq!(Some(3), div.compute(13, 4));
    assert_eq!(None, div.compute(13, 0));
    assert_eq!(Some(1), rem.compute(13, 4));
    assert_eq!(None, rem.compute(13, 0));
}

#[test]
fn expressions_are_evaluated_while_they_are_read() {
    let sub = ExpressionToken::Operator(ExpressionOperator::Sub);
    let mul = ExpressionToken::Operator(ExpressionOperator::Mul);
    let tokens = vec![
        ExpressionToken::Value(1),
        sub,
        ExpressionToken::Value(2),
        mul,
        ExpressionToken::OpenParenthesis,
        ExpressionToken::Value(3),
        sub,
        ExpressionToken::Value(4),
        ExpressionToken::CloseParenthesis,
    ];
    // 3 - 4 has no value.
    assert!(read_expression(&tokens).is_none());
    assert_eq!(None, evaluate_tokens(&tokens));
    let tokens = vec![
        ExpressionToken::Value(7),
        sub,
        ExpressionToken::Value(2),
        mul,
        ExpressionToken::Value(3),
    ];
    assert!(matches!(read_expression(&tokens), Some(ExpressionTree::Leaf(1))));
    assert_eq!(Some(1), evaluate_tokens(&tokens));
    assert!(read_expression(&vec![ExpressionToken::Value(1), ExpressionToken::Value(2)]).is_none());
    assert!(read_expression(&vec![]).is_none());
}

#[test]
fn a_node_is_evaluated_when_it_is_made() {
    let two = ExpressionTree::create_node(
        ExpressionTree::Leaf(4),
        ExpressionTree::Leaf(2),
        ExpressionOperator::Div,
    )
    .unwrap();
    assert!(matches!(two, ExpressionTree::Leaf(2)));
    let none = ExpressionTree::create_node(two, ExpressionTree::Leaf(0), ExpressionOperator::Mod);
    assert!(none.is_none());
    let inner = ExpressionTree::Node(
        Box::new(ExpressionTree::Leaf(4)),
        Box::new(ExpressionTree::Leaf(5)),
        ExpressionOperator::Add,
    );
    assert_eq!(Some(9), inner.evaluate());
    let outer =
        ExpressionTree::create_node(ExpressionTree::Leaf(30), inner, ExpressionOperator::Sub);
    assert!(matches!(outer, Some(ExpressionTree::Leaf(21))));
    let deep = ExpressionTree::Node(
        Box::new(ExpressionTree::Leaf(1)),
        Box::new(ExpressionTree::Node(
            Box::new(ExpressionTree::Leaf(1)),
            Box::new(ExpressionTree::Leaf(2)),
            ExpressionOperator::Sub,
        )),
        ExpressionOperator::Add,
    );
    assert_eq!(None, deep.evaluate());
}

#[test]
fn text_is_cut_and_trimmed() {
    assert_eq!(vec![""], split("", Separator::Colon));
    assert_eq!(vec!["a", "", "b", ""], split("a::b:", Separator::Colon));
    assert_eq!(vec!["a", "b"], split_words("a::b:", Separator::Colon));
    assert_eq!(vec!["mov", "1", "2"], split_words(" mov\t1,,\u{3000}2 ", Separator::BlankOrComma));
    assert_eq!(vec!["mov", "1,", "2"], split_words("mov 1, 2", Separator::Blank));
    assert_eq!(vec!["a", "b", "", "c"], split("a\nb\r\nc", Separator::LineBreak));
    assert_eq!(vec!["a", "b"], split("a.b", Separator::Dot));
    assert_eq!(vec!["a.b", " c"], split("a.b; c", Separator::Semicolon));
    assert_eq!("a  b", trim(" \t\u{a0}a  b\u{2028}\n "));
    assert_eq!("", trim(" \u{205f} "));
    assert_eq!("", trim(""));
    assert_eq!("\u{200b}x", trim("\u{200b}x"));
    for c in ['\u{9}', '\u{a}', '\u{b}', '\u{c}', '\u{d}', ' ', '\u{85}', '\u{a0}', '\u{1680}', '\u{2000}', '\u{200a}', '\u{2028}', '\u{2029}', '\u{202f}', '\u{205f}', '\u{3000}'] {
        assert!(blank(c));
    }
    for code in 0..0x11000u32 {
        if let Some(c) = char::from_u32(code) {
            assert_eq!(c.is_whitespace(), blank(c));
        }
    }
    assert!(same_text("equ", "equ"));
    assert!(!same_text("equ", "eq"));
    assert!(!same_text("equ", "eqv"));
    assert!(same_text("", ""));
    assert!(is_word("MoV", "mov"));
    assert!(is_word("mov", "mov"));
    assert!(!is_word("mov", "MOV"));
    assert!(!is_word("mo", "mov"));
    assert!(!is_word("m\u{2134}v", "mov"));
    assert!(!is_word("[OV", "{ov"));
}

#[test]
fn tables_hold_each_name_once() {
    let mut table: Table<usize> = Table::new();
    assert_eq!(0, table.len());
    assert_eq!(None, table.get("a"));
    table.insert("a", 1);
    table.insert("b", 2);
    table.insert("a", 3);
    assert_eq!(2, table.len());
    assert_eq!(Some(&3), table.get("a"));
    assert_eq!(Some(&2), table.get("b"));
    assert!(table.contains_key("b"));
    assert_eq!(Some(3), table.remove("a"));
    assert_eq!(None, table.remove("a"));
    assert_eq!(1, table.len());
    assert!(!table.contains_key("a"));
    assert_eq!(Some(&2), table.get("b"));
    table.insert("", 9);
    assert_eq!(Some(&9), table.get(""));
}

#[test]
fn words_are_compared_as_lowercase_compares_them() {
    let words = [
        "dat", "mov", "add", "sub", "mul", "div", "mod", "jmp", "jmz", "jmn", "djn", "cmp", "slt",
        "spl", "a", "b", "ab", "ba", "f", "x", "i",
    ];
    for code in 0..0x110000u32 {
        let c = match char::from_u32(code) {
            Some(c) => c,
            None => continue,
        };
        for word in words {
            let letters: Vec<char> = word.chars().collect();
            // Put the character in place of one or two letters of the word.
            for at in 0..letters.len() {
                for taken in 1..=2 {
                    if at + taken > letters.len() {
                        continue;
                    }
                    let mut text: String = letters[..at].iter().collect();
                    text.push(c);
                    text.extend(letters[at + taken..].iter());
                    assert_eq!(text.to_lowercase() == word, is_word(&text, word), "{:?}", text);
                }
            }
        }
    }
}

#[test]
fn integers_are_read_as_the_standard_library_reads_them() {
    let texts = [
        "", "0", "-0", "+0", "00012", "12", "-12", "+12", "- 12", "12 ", " 12", "1_000", "0x10",
        "١٢", "１２", "1e3", "--1", "+-1", "-+1", "+", "-", "9999999999999999999999999999999999999",
        "170141183460469231731687303715884105727",
        "170141183460469231731687303715884105728",
        "-170141183460469231731687303715884105728",
        "-170141183460469231731687303715884105729",
        "340282366920938463463374607431768211455",
        "340282366920938463463374607431768211456",
        "000000000000000000000000000000000000000000000000000000000000001",
    ];
    for text in texts {
        assert_eq!(text.parse::<i128>().ok(), parse_integer(text), "{:?}", text);
    }
    for n in -300i128..300 {
        assert_eq!(Some(n), parse_integer(&n.to_string()));
        assert_eq!(n.rem_euclid(7) as usize, to_core_size::<7>(n));
    }
}
