use metavm::compiler::{
    compile, compile_to_instr, concretize, parse_tokens, resolve_labels, AbstractInstr,
    AbstractValue, CompileError,
};
use metavm::instr::Instr;
use metavm::lexer::{lex, to_chars, tokenize, Token};
use metavm::op::Op;

fn instr(op: Op, value: i64) -> Instr {
    Instr { op, value }
}

fn label(name: &str) -> Token {
    Token::Label(name.to_string())
}

#[test]
fn tokenize_keywords() {
    let text = "pop add inc dec sub mul div mod print halt dup dup2 swap clear over push je jn jg \
                jl jge jle jmp jz jnz";
    let expected: Vec<Token> = [
        Op::Pop,
        Op::Add,
        Op::Inc,
        Op::Dec,
        Op::Sub,
        Op::Mul,
        Op::Div,
        Op::Mod,
        Op::Print,
        Op::Halt,
        Op::Dup,
        Op::Dup2,
        Op::Swap,
        Op::Clear,
        Op::Over,
        Op::Push,
        Op::Je,
        Op::Jn,
        Op::Jg,
        Op::Jl,
        Op::Jge,
        Op::Jle,
        Op::Jmp,
        Op::Jz,
        Op::Jnz,
    ]
    .iter()
    .map(|op| Token::Op(*op))
    .collect();
    assert_eq!(tokenize(text), Ok(expected));
}

#[test]
fn tokenize_empty_text() {
    assert_eq!(tokenize(""), Ok(vec![]));
    assert_eq!(tokenize("   \n\t  "), Ok(vec![]));
}

#[test]
fn tokenize_splits_at_any_white_space() {
    let expected = vec![Token::Op(Op::Push), Token::Value(1), Token::Op(Op::Halt)];
    assert_eq!(tokenize("push 1 halt"), Ok(expected.clone()));
    assert_eq!(tokenize("  push\t1\nhalt\r\n"), Ok(expected.clone()));
    assert_eq!(tokenize("push\u{a0}1\u{3000}halt"), Ok(expected.clone()));
    assert_eq!(tokenize("push\u{2028}1\u{85}halt\u{b}"), Ok(expected));
}

#[test]
fn tokenize_keeps_words_whole() {
    assert_eq!(tokenize("push"), Ok(vec![Token::Op(Op::Push)]));
    assert_eq!(tokenize("pushpop"), Err("pushpop".to_string()));
    assert_eq!(tokenize("p u"), Err("p".to_string()));
}

#[test]
fn tokenize_integer_literals() {
    assert_eq!(tokenize("0"), Ok(vec![Token::Value(0)]));
    assert_eq!(tokenize("42"), Ok(vec![Token::Value(42)]));
    assert_eq!(tokenize("-42"), Ok(vec![Token::Value(-42)]));
    assert_eq!(tokenize("+42"), Ok(vec![Token::Value(42)]));
    assert_eq!(tokenize("-0"), Ok(vec![Token::Value(0)]));
    assert_eq!(tokenize("007"), Ok(vec![Token::Value(7)]));
    assert_eq!(
        tokenize("0000000000000000000000000000000000001"),
        Ok(vec![Token::Value(1)])
    );
    assert_eq!(tokenize("9223372036854775807"), Ok(vec![Token::Value(i64::MAX)]));
    assert_eq!(tokenize("-9223372036854775808"), Ok(vec![Token::Value(i64::MIN)]));
}

#[test]
fn tokenize_rejects_what_is_no_integer() {
    for word in [
        "9223372036854775808",
        "-9223372036854775809",
        "99999999999999999999999999",
        "-",
        "+",
        "--1",
        "+-1",
        "1-",
        "12a",
        "1_000",
        "0x10",
        "1.5",
        "\u{661}",
    ] {
        assert_eq!(tokenize(word), Err(word.to_string()));
    }
}

#[test]
fn tokenize_agrees_with_std_on_integers() {
    for word in ["5", "-5", "+5", "00", "-00012", "18446744073709551615", "٣", "１"] {
        let expected = match i64::from_str_radix(word, 10) {
            Ok(v) => Ok(vec![Token::Value(v)]),
            Err(_) => Err(word.to_string()),
        };
        assert_eq!(tokenize(word), expected);
    }
}

#[test]
fn tokenize_labels() {
    assert_eq!(tokenize(":end"), Ok(vec![label("end")]));
    assert_eq!(tokenize(":"), Ok(vec![label("")]));
    assert_eq!(tokenize("::"), Ok(vec![label(":")]));
    assert_eq!(tokenize(":push"), Ok(vec![label("push")]));
    assert_eq!(tokenize(":12"), Ok(vec![label("12")]));
    assert_eq!(tokenize(":größe"), Ok(vec![label("größe")]));
}

#[test]
fn tokenize_reports_first_unknown_word() {
    assert_eq!(tokenize("push 1 foo bar"), Err("foo".to_string()));
    assert_eq!(tokenize("end: push"), Err("end:".to_string()));
    assert_eq!(tokenize("PUSH 1"), Err("PUSH".to_string()));
    assert_eq!(tokenize("héllo"), Err("héllo".to_string()));
}

#[test]
fn lex_cuts_where_the_mask_says() {
    let text = "push,1;halt";
    let mut blank = vec![false; 11];
    blank[4] = true;
    blank[6] = true;
    assert_eq!(
        lex(text, &blank),
        Ok(vec![Token::Op(Op::Push), Token::Value(1), Token::Op(Op::Halt)])
    );
}

#[test]
fn lex_treats_a_short_mask_as_unmarked() {
    assert_eq!(lex("halt", &vec![]), Ok(vec![Token::Op(Op::Halt)]));
    assert_eq!(
        lex("pop halt", &vec![false, false, false, true]),
        Ok(vec![Token::Op(Op::Pop), Token::Op(Op::Halt)])
    );
    assert_eq!(lex("pop halt", &vec![false, false]), Err("pop halt".to_string()));
    assert_eq!(lex("a b", &vec![]), Err("a b".to_string()));
}

#[test]
fn lex_with_everything_marked() {
    assert_eq!(lex("push", &vec![true, true, true, true]), Ok(vec![]));
}

#[test]
fn to_chars_lists_characters() {
    assert_eq!(to_chars("aé≠"), vec!['a', 'é', '≠']);
    assert_eq!(to_chars(""), Vec::<char>::new());
}

#[test]
fn token_duplicate_is_equal() {
    for token in [Token::Op(Op::Jmp), Token::Value(-3), label("x"), Token::Unknown("?".to_string())]
    {
        assert_eq!(token.duplicate(), token);
    }
}

#[test]
fn compile_basic_program() {
    assert_eq!(
        compile("push 2 push 3 add print halt"),
        Ok(vec![
            instr(Op::Push, 2),
            instr(Op::Push, 3),
            instr(Op::Add, 0),
            instr(Op::Print, 0),
            instr(Op::Halt, 0),
        ])
    );
}

#[test]
fn compile_empty_text() {
    assert_eq!(compile(""), Ok(vec![]));
    assert_eq!(compile(" \n "), Ok(vec![]));
}

#[test]
fn compile_twice_gives_the_same() {
    let text = ":start push 10 dec dup jmp :start halt";
    let first = compile(text);
    let second = compile(text);
    assert!(first.is_ok());
    assert_eq!(first, second);
    let broken = "push 1 jmp :nowhere";
    assert_eq!(compile(broken), compile(broken));
}

#[test]
fn compile_resolves_forward_reference() {
    let program = compile("jmp :end push 1 print :end halt").unwrap();
    assert_eq!(
        program,
        vec![instr(Op::Jmp, 3), instr(Op::Push, 1), instr(Op::Print, 0), instr(Op::Halt, 0)]
    );
    assert_eq!(program[program[0].value as usize].op, Op::Halt);
}

#[test]
fn compile_resolves_backward_reference() {
    assert_eq!(
        compile("push 1 :loop inc jmp :loop"),
        Ok(vec![instr(Op::Push, 1), instr(Op::Inc, 0), instr(Op::Jmp, 1)])
    );
}

#[test]
fn compile_label_at_start_and_end() {
    assert_eq!(
        compile(":top jmp :bottom jmp :top :bottom"),
        Ok(vec![instr(Op::Jmp, 2), instr(Op::Jmp, 0)])
    );
}

#[test]
fn compile_several_labels_on_one_instruction() {
    assert_eq!(
        compile("pop :a :b halt jz :a jnz :b"),
        Ok(vec![instr(Op::Pop, 0), instr(Op::Halt, 0), instr(Op::Jz, 1), instr(Op::Jnz, 1)])
    );
}

#[test]
fn compile_jump_family_takes_literal_or_label() {
    assert_eq!(
        compile("je 1 jn 2 jg 3 jl 4 jge 5 jle 6 jmp 7 jz 8 jnz -9 :x je :x"),
        Ok(vec![
            instr(Op::Je, 1),
            instr(Op::Jn, 2),
            instr(Op::Jg, 3),
            instr(Op::Jl, 4),
            instr(Op::Jge, 5),
            instr(Op::Jle, 6),
            instr(Op::Jmp, 7),
            instr(Op::Jz, 8),
            instr(Op::Jnz, -9),
            instr(Op::Je, 9),
        ])
    );
}

#[test]
fn compile_rejects_duplicate_label() {
    assert_eq!(
        compile(":a push 1 :a halt"),
        Err(CompileError::DuplicateLabel("a".to_string()))
    );
}

#[test]
fn compile_rejects_unknown_label() {
    assert_eq!(
        compile("jmp :missing halt"),
        Err(CompileError::UnknownLabel("missing".to_string()))
    );
}

#[test]
fn compile_reports_first_unknown_label() {
    assert_eq!(
        compile("jmp :one jz :two :three"),
        Err(CompileError::UnknownLabel("one".to_string()))
    );
}

#[test]
fn compile_rejects_unknown_word() {
    assert_eq!(
        compile("push 1 frobnicate"),
        Err(CompileError::UnrecognizedToken("frobnicate".to_string()))
    );
}

#[test]
fn compile_reports_unknown_word_before_other_errors() {
    assert_eq!(
        compile(":a :a jmp :b ???"),
        Err(CompileError::UnrecognizedToken("???".to_string()))
    );
}

#[test]
fn compile_reports_scan_errors_before_unknown_labels() {
    assert_eq!(
        compile("jmp :missing :a :a"),
        Err(CompileError::DuplicateLabel("a".to_string()))
    );
    assert_eq!(
        compile("jmp :missing 7"),
        Err(CompileError::UnexpectedToken(Token::Value(7)))
    );
}

#[test]
fn compile_rejects_stray_operand() {
    assert_eq!(compile("pop 5"), Err(CompileError::UnexpectedToken(Token::Value(5))));
    assert_eq!(compile("5"), Err(CompileError::UnexpectedToken(Token::Value(5))));
    assert_eq!(compile("push 1 2"), Err(CompileError::UnexpectedToken(Token::Value(2))));
}

#[test]
fn compile_rejects_missing_operand() {
    assert_eq!(compile("push"), Err(CompileError::UnexpectedToken(Token::Op(Op::Push))));
    assert_eq!(compile("jmp"), Err(CompileError::UnexpectedToken(Token::Op(Op::Jmp))));
    assert_eq!(compile("push pop"), Err(CompileError::UnexpectedToken(Token::Op(Op::Push))));
    assert_eq!(compile("jz halt"), Err(CompileError::UnexpectedToken(Token::Op(Op::Jz))));
}

#[test]
fn compile_rejects_label_operand_of_push() {
    assert_eq!(
        compile(":x push :x"),
        Err(CompileError::UnexpectedToken(Token::Op(Op::Push)))
    );
}

#[test]
fn compile_label_after_plain_opcode_is_a_declaration() {
    assert_eq!(compile("pop :x jmp :x"), Ok(vec![instr(Op::Pop, 0), instr(Op::Jmp, 1)]));
}

#[test]
fn compile_to_instr_on_tokens() {
    let tokens = vec![
        Token::Op(Op::Jmp),
        label("end"),
        Token::Op(Op::Push),
        Token::Value(1),
        label("end"),
        Token::Op(Op::Halt),
    ];
    assert_eq!(
        compile_to_instr(&tokens),
        Ok(vec![instr(Op::Jmp, 2), instr(Op::Push, 1), instr(Op::Halt, 0)])
    );
}

#[test]
fn compile_to_instr_rejects_unknown_token() {
    let tokens = vec![Token::Op(Op::Pop), Token::Unknown("x".to_string())];
    assert_eq!(
        compile_to_instr(&tokens),
        Err(CompileError::UnexpectedToken(Token::Unknown("x".to_string())))
    );
    let tokens = vec![Token::Op(Op::Jmp), Token::Unknown("x".to_string())];
    assert_eq!(compile_to_instr(&tokens), Err(CompileError::UnexpectedToken(Token::Op(Op::Jmp))));
}

#[test]
fn parse_tokens_emits_abstract_instructions() {
    let tokens = vec![
        label("a"),
        Token::Op(Op::Jmp),
        label("b"),
        Token::Op(Op::Push),
        Token::Value(4),
        Token::Op(Op::Halt),
        label("b"),
    ];
    let (instrs, labels) = parse_tokens(&tokens).unwrap();
    assert_eq!(
        instrs,
        vec![
            AbstractInstr { op: Op::Jmp, value: AbstractValue::Label("b".to_string()) },
            AbstractInstr { op: Op::Push, value: AbstractValue::Integer(4) },
            AbstractInstr { op: Op::Halt, value: AbstractValue::Absent },
        ]
    );
    assert_eq!(labels.len(), 2);
    assert_eq!(labels.get("a"), Some(&0));
    assert_eq!(labels.get("b"), Some(&3));
    assert_eq!(labels.get("c"), None);
}

#[test]
fn resolve_labels_replaces_labels_only() {
    let tokens = vec![
        Token::Op(Op::Jz),
        label("x"),
        Token::Op(Op::Jmp),
        Token::Value(9),
        Token::Op(Op::Pop),
        label("x"),
    ];
    let (instrs, labels) = parse_tokens(&tokens).unwrap();
    let linked = resolve_labels(&instrs, &labels).unwrap();
    assert_eq!(
        linked,
        vec![
            AbstractInstr { op: Op::Jz, value: AbstractValue::Integer(3) },
            AbstractInstr { op: Op::Jmp, value: AbstractValue::Integer(9) },
            AbstractInstr { op: Op::Pop, value: AbstractValue::Absent },
        ]
    );
    assert_eq!(
        concretize(&linked),
        vec![instr(Op::Jz, 3), instr(Op::Jmp, 9), instr(Op::Pop, 0)]
    );
}

#[test]
fn resolve_labels_fails_on_missing_label() {
    let (instrs, labels) = parse_tokens(&[Token::Op(Op::Jmp), label("gone")]).unwrap();
    assert_eq!(
        resolve_labels(&instrs, &labels),
        Err(CompileError::UnknownLabel("gone".to_string()))
    );
}

#[test]
fn concretize_puts_zero_for_missing_operand() {
    let instrs = vec![
        AbstractInstr { op: Op::Add, value: AbstractValue::Absent },
        AbstractInstr { op: Op::Push, value: AbstractValue::Integer(-8) },
    ];
    assert_eq!(concretize(&instrs), vec![instr(Op::Add, 0), instr(Op::Push, -8)]);
    assert_eq!(concretize(&vec![]), vec![]);
}
