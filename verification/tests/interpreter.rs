use metavm::codec::{decode_instructions, encode_instructions};
use metavm::compiler::compile;
use metavm::instr::Instr;
use metavm::interpreter::{divide, remainder, InterpreterError, Status, Value, VM};
use metavm::lexer::{tokenize, Token};
use metavm::literal::format_integer;
use metavm::op::Op;

fn ints(values: &[i64]) -> Vec<Value> {
    values.iter().map(|v| Value::Integer(*v)).collect()
}

fn run(text: &str) -> (Result<(), InterpreterError>, VM) {
    let program = compile(text).unwrap();
    let mut vm = VM::with_step_limit(10_000);
    let result = vm.execute(program);
    (result, vm)
}

#[test]
fn new_machine_is_in_initial_state() {
    let vm = VM::new();
    assert_eq!(vm.pc(), 0);
    assert!(vm.stack().is_empty());
    assert!(vm.output().is_empty());
    assert_eq!(vm.step_limit(), u64::MAX);
    let vm = VM::with_step_limit(3);
    assert_eq!(vm.step_limit(), 3);
    assert_eq!(vm.pc(), 0);
}

#[test]
fn end_to_end_prints_five() {
    let program = compile("push 2 push 3 add print halt").unwrap();
    assert_eq!(program.len(), 5);
    assert!(program.iter().all(|i| i.op != Op::Jmp));
    assert_eq!(program[4].op, Op::Halt);
    let mut vm = VM::new();
    assert_eq!(vm.execute(program), Ok(()));
    assert_eq!(vm.output(), &ints(&[5]));
    assert!(vm.stack().is_empty());
    assert_eq!(vm.pc(), 4);
}

#[test]
fn pop_on_empty_stack_underflows() {
    let mut vm = VM::new();
    assert_eq!(vm.execute(vec![Instr { op: Op::Pop, value: 0 }]), Err(InterpreterError::StackEmpty));
    assert!(vm.stack().is_empty());
    assert!(!InterpreterError::StackEmpty.is_fatal());
}

#[test]
fn division_by_zero_consumes_operands() {
    let (result, vm) = run("push 5 push 0 div");
    assert_eq!(result, Err(InterpreterError::DivByZero));
    assert!(!vm.stack().contains(&Value::Integer(5)));
    assert!(!vm.stack().contains(&Value::Integer(0)));
    assert!(vm.stack().is_empty());
    assert!(!InterpreterError::DivByZero.is_fatal());
}

#[test]
fn division_by_zero_keeps_what_was_below() {
    let (result, vm) = run("push 9 push 5 push 0 div halt");
    assert_eq!(result, Err(InterpreterError::DivByZero));
    assert_eq!(vm.stack(), &ints(&[9]));
    assert_eq!(vm.pc(), 3);
}

#[test]
fn modulo_by_zero_is_its_own_fault() {
    let (result, vm) = run("push 5 push 0 mod halt");
    assert_eq!(result, Err(InterpreterError::ModByZero));
    assert!(vm.stack().is_empty());
}

#[test]
fn jump_out_of_program_is_fatal() {
    let mut vm = VM::new();
    let result = vm.execute(vec![Instr { op: Op::Jmp, value: 5 }]);
    assert_eq!(result, Err(InterpreterError::PcOutOfRange));
    assert!(result.unwrap_err().is_fatal());
    assert_eq!(vm.pc(), 0);
}

#[test]
fn jump_to_length_or_negative_is_out_of_range() {
    let mut vm = VM::new();
    let halt = Instr { op: Op::Halt, value: 0 };
    assert_eq!(
        vm.execute(vec![Instr { op: Op::Jmp, value: 2 }, halt]),
        Err(InterpreterError::PcOutOfRange)
    );
    assert_eq!(
        vm.execute(vec![Instr { op: Op::Jmp, value: -1 }, halt]),
        Err(InterpreterError::PcOutOfRange)
    );
    assert_eq!(
        vm.execute(vec![Instr { op: Op::Jmp, value: i64::MIN }, halt]),
        Err(InterpreterError::PcOutOfRange)
    );
    assert_eq!(
        vm.execute(vec![Instr { op: Op::Jmp, value: i64::MAX }, halt]),
        Err(InterpreterError::PcOutOfRange)
    );
    assert_eq!(vm.execute(vec![Instr { op: Op::Jmp, value: 1 }, halt]), Ok(()));
}

#[test]
fn jump_to_first_instruction_is_allowed() {
    let program = compile("push 1 print jmp 0").unwrap();
    let mut vm = VM::with_step_limit(7);
    assert_eq!(vm.execute(program), Err(InterpreterError::StepLimit));
    assert_eq!(vm.output(), &ints(&[1, 1]));
    assert_eq!(vm.stack(), &ints(&[1]));
    assert_eq!(vm.pc(), 1);
}

#[test]
fn jump_skips_instructions() {
    let (result, vm) = run("jmp :end push 1 print :end halt");
    assert_eq!(result, Ok(()));
    assert!(vm.output().is_empty());
    assert!(vm.stack().is_empty());
}

#[test]
fn running_off_the_end_is_a_fault_after_the_effect() {
    let (result, vm) = run("push 1 push 2");
    assert_eq!(result, Err(InterpreterError::PcOutOfRange));
    assert_eq!(vm.stack(), &ints(&[1, 2]));
    assert_eq!(vm.pc(), 1);
}

#[test]
fn empty_program_faults() {
    let mut vm = VM::new();
    assert_eq!(vm.execute(vec![]), Err(InterpreterError::PcOutOfRange));
}

#[test]
fn halt_stops_at_once() {
    let (result, vm) = run("push 1 halt push 2 print pop pop pop");
    assert_eq!(result, Ok(()));
    assert_eq!(vm.stack(), &ints(&[1]));
    assert!(vm.output().is_empty());
    assert_eq!(vm.pc(), 1);
}

#[test]
fn halt_as_last_instruction_succeeds() {
    let (result, _) = run("halt");
    assert_eq!(result, Ok(()));
}

#[test]
fn arithmetic_takes_lower_value_first() {
    let (result, vm) = run("push 7 push 2 sub print push 7 push 2 div print push 7 push 2 mod print halt");
    assert_eq!(result, Ok(()));
    assert_eq!(vm.output(), &ints(&[5, 3, 1]));
}

#[test]
fn arithmetic_results() {
    let (result, vm) = run("push 6 push 7 mul push -4 add push 3 sub halt");
    assert_eq!(result, Ok(()));
    assert_eq!(vm.stack(), &ints(&[35]));
}

#[test]
fn division_rounds_towards_zero() {
    assert_eq!(divide(7, 2), Ok(3));
    assert_eq!(divide(-7, 2), Ok(-3));
    assert_eq!(divide(7, -2), Ok(-3));
    assert_eq!(divide(-7, -2), Ok(3));
    assert_eq!(divide(0, 5), Ok(0));
    assert_eq!(divide(i64::MIN, 1), Ok(i64::MIN));
    assert_eq!(divide(i64::MAX, -1), Ok(-i64::MAX));
    assert_eq!(divide(1, 0), Err(InterpreterError::DivByZero));
    assert_eq!(divide(0, 0), Err(InterpreterError::DivByZero));
    assert_eq!(divide(i64::MIN, -1), Err(InterpreterError::Overflow));
}

#[test]
fn remainder_has_the_sign_of_the_dividend() {
    assert_eq!(remainder(7, 2), Ok(1));
    assert_eq!(remainder(-7, 2), Ok(-1));
    assert_eq!(remainder(7, -2), Ok(1));
    assert_eq!(remainder(-7, -2), Ok(-1));
    assert_eq!(remainder(6, 3), Ok(0));
    assert_eq!(remainder(i64::MIN, 2), Ok(0));
    assert_eq!(remainder(i64::MAX, i64::MIN), Ok(i64::MAX));
    assert_eq!(remainder(1, 0), Err(InterpreterError::ModByZero));
    assert_eq!(remainder(i64::MIN, -1), Err(InterpreterError::Overflow));
}

#[test]
fn quotient_and_remainder_make_up_the_dividend() {
    for a in [-9i64, -8, -1, 0, 1, 8, 9, i64::MAX, i64::MIN + 1] {
        for b in [-4i64, -3, -1, 1, 3, 4, i64::MAX] {
            let q = divide(a, b).unwrap();
            let r = remainder(a, b).unwrap();
            assert_eq!(b as i128 * q as i128 + r as i128, a as i128);
            assert!(r.unsigned_abs() < b.unsigned_abs());
        }
    }
}

#[test]
fn overflow_is_a_fault_that_consumes_operands() {
    let (result, vm) = run("push 1 push 9223372036854775807 push 1 add halt");
    assert_eq!(result, Err(InterpreterError::Overflow));
    assert_eq!(vm.stack(), &ints(&[1]));
    let (result, _) = run("push -9223372036854775808 push 1 sub halt");
    assert_eq!(result, Err(InterpreterError::Overflow));
    let (result, _) = run("push 4611686018427387904 push 2 mul halt");
    assert_eq!(result, Err(InterpreterError::Overflow));
    let (result, vm) = run("push -9223372036854775808 push -1 div halt");
    assert_eq!(result, Err(InterpreterError::Overflow));
    assert!(vm.stack().is_empty());
    assert!(!InterpreterError::Overflow.is_fatal());
}

#[test]
fn arithmetic_at_the_limits() {
    let (result, vm) = run("push 9223372036854775806 push 1 add push -9223372036854775807 push 1 sub halt");
    assert_eq!(result, Ok(()));
    assert_eq!(vm.stack(), &ints(&[i64::MAX, i64::MIN]));
}

#[test]
fn binary_instruction_with_one_value_changes_nothing() {
    for op in ["add", "sub", "mul", "div", "mod"] {
        let (result, vm) = run(&format!("push 4 {} halt", op));
        assert_eq!(result, Err(InterpreterError::StackEmpty));
        assert_eq!(vm.stack(), &ints(&[4]));
        assert_eq!(vm.pc(), 1);
        let (result, vm) = run(&format!("{} halt", op));
        assert_eq!(result, Err(InterpreterError::StackEmpty));
        assert!(vm.stack().is_empty());
    }
}

#[test]
fn inc_and_dec_change_the_top_in_place() {
    let (result, vm) = run("push 1 push 10 inc inc dec halt");
    assert_eq!(result, Ok(()));
    assert_eq!(vm.stack(), &ints(&[1, 11]));
}

#[test]
fn inc_and_dec_fail_without_change() {
    let (result, vm) = run("push 9223372036854775807 inc halt");
    assert_eq!(result, Err(InterpreterError::Overflow));
    assert_eq!(vm.stack(), &ints(&[i64::MAX]));
    let (result, vm) = run("push -9223372036854775808 dec halt");
    assert_eq!(result, Err(InterpreterError::Overflow));
    assert_eq!(vm.stack(), &ints(&[i64::MIN]));
    let (result, _) = run("inc halt");
    assert_eq!(result, Err(InterpreterError::StackEmpty));
    let (result, _) = run("dec halt");
    assert_eq!(result, Err(InterpreterError::StackEmpty));
}

#[test]
fn print_consumes_the_value() {
    let (result, vm) = run("push 1 push -2 print print halt");
    assert_eq!(result, Ok(()));
    assert_eq!(vm.output(), &ints(&[-2, 1]));
    assert!(vm.stack().is_empty());
    let (result, vm) = run("push 3 print print halt");
    assert_eq!(result, Err(InterpreterError::StackEmpty));
    assert_eq!(vm.output(), &ints(&[3]));
}

#[test]
fn dup_and_over() {
    let (result, vm) = run("push 1 push 2 dup halt");
    assert_eq!(result, Ok(()));
    assert_eq!(vm.stack(), &ints(&[1, 2, 2]));
    let (result, vm) = run("push 1 push 2 over halt");
    assert_eq!(result, Ok(()));
    assert_eq!(vm.stack(), &ints(&[1, 2, 1]));
    let (result, _) = run("dup halt");
    assert_eq!(result, Err(InterpreterError::StackEmpty));
    let (result, vm) = run("push 1 over halt");
    assert_eq!(result, Err(InterpreterError::StackEmpty));
    assert_eq!(vm.stack(), &ints(&[1]));
}

#[test]
fn opcodes_without_effect_fault() {
    for (text, op) in [
        ("dup2", Op::Dup2),
        ("swap", Op::Swap),
        ("clear", Op::Clear),
        ("je 0", Op::Je),
        ("jn 0", Op::Jn),
        ("jg 0", Op::Jg),
        ("jl 0", Op::Jl),
        ("jge 0", Op::Jge),
        ("jle 0", Op::Jle),
        ("jz 0", Op::Jz),
        ("jnz 0", Op::Jnz),
    ] {
        let (result, vm) = run(&format!("push 1 push 2 {} halt", text));
        assert_eq!(result, Err(InterpreterError::NotImplemented(op)));
        assert!(result.unwrap_err().is_fatal());
        assert_eq!(vm.stack(), &ints(&[1, 2]));
        assert_eq!(vm.pc(), 2);
    }
}

#[test]
fn step_limit_stops_a_loop() {
    let program = compile(":again push 1 pop jmp :again").unwrap();
    let mut vm = VM::with_step_limit(100);
    assert_eq!(vm.execute(program.clone()), Err(InterpreterError::StepLimit));
    assert!(!InterpreterError::StepLimit.is_fatal());
    assert_eq!(vm.pc(), 1);
    assert_eq!(vm.stack(), &ints(&[1]));
    let mut vm = VM::with_step_limit(0);
    assert_eq!(vm.execute(program), Err(InterpreterError::StepLimit));
    assert_eq!(vm.pc(), 0);
}

#[test]
fn step_limit_counts_the_halt() {
    let program = compile("push 1 push 2 halt").unwrap();
    let mut vm = VM::with_step_limit(2);
    assert_eq!(vm.execute(program.clone()), Err(InterpreterError::StepLimit));
    let mut vm = VM::with_step_limit(3);
    assert_eq!(vm.execute(program.clone()), Ok(()));
    let mut vm = VM::with_step_limit(4);
    assert_eq!(vm.execute(program), Ok(()));
}

#[test]
fn execute_starts_from_a_fresh_state() {
    let mut vm = VM::with_step_limit(50);
    assert_eq!(vm.execute(compile("push 1 push 2 print halt").unwrap()), Ok(()));
    assert_eq!(vm.stack(), &ints(&[1]));
    assert_eq!(vm.output(), &ints(&[2]));
    assert_eq!(vm.execute(compile("push 7 halt").unwrap()), Ok(()));
    assert_eq!(vm.stack(), &ints(&[7]));
    assert!(vm.output().is_empty());
    assert_eq!(vm.step_limit(), 50);
    vm.reset();
    assert!(vm.stack().is_empty());
    assert_eq!(vm.pc(), 0);
    assert_eq!(vm.step_limit(), 50);
}

#[test]
fn step_by_step() {
    let program = compile("push 4 dup mul print halt").unwrap();
    let mut vm = VM::new();
    assert_eq!(vm.step(&program), Status::Running);
    assert_eq!((vm.pc(), vm.stack().clone()), (1, ints(&[4])));
    assert_eq!(vm.step(&program), Status::Running);
    assert_eq!((vm.pc(), vm.stack().clone()), (2, ints(&[4, 4])));
    assert_eq!(vm.step(&program), Status::Running);
    assert_eq!((vm.pc(), vm.stack().clone()), (3, ints(&[16])));
    assert_eq!(vm.step(&program), Status::Running);
    assert_eq!((vm.pc(), vm.output().clone()), (4, ints(&[16])));
    assert_eq!(vm.step(&program), Status::Halted);
    assert_eq!(vm.pc(), 4);
    assert_eq!(vm.step(&program), Status::Halted);
}

#[test]
fn step_outside_the_program_faults() {
    let program = compile("push 1 push 2").unwrap();
    let mut vm = VM::new();
    assert_eq!(vm.step(&program), Status::Running);
    assert_eq!(vm.step(&program[..1]), Status::Faulted(InterpreterError::PcOutOfRange));
    assert_eq!(vm.stack(), &ints(&[1]));
    assert_eq!(vm.step(&[]), Status::Faulted(InterpreterError::PcOutOfRange));
}

#[test]
fn value_holds_its_integer() {
    assert_eq!(Value::Integer(-3).integer(), -3);
    assert_eq!(Value::Integer(i64::MAX).integer(), i64::MAX);
}

#[test]
fn value_text_is_decimal() {
    assert_eq!(Value::Integer(0).to_text(), "0");
    assert_eq!(Value::Integer(5).to_text(), "5");
    assert_eq!(Value::Integer(-5).to_text(), "-5");
    assert_eq!(Value::Integer(1200).to_text(), "1200");
    assert_eq!(Value::Integer(i64::MAX).to_text(), "9223372036854775807");
    assert_eq!(Value::Integer(i64::MIN).to_text(), "-9223372036854775808");
}

#[test]
fn format_integer_agrees_with_std() {
    for v in [0i64, 1, 9, 10, 11, 99, 100, 101, -1, -9, -10, -100, 1i64 << 56, i64::MAX, i64::MIN]
    {
        assert_eq!(format_integer(v), v.to_string());
    }
}

#[test]
fn printed_text_reads_back_as_the_value() {
    for v in [0i64, 7, -7, 1000, -1000, i64::MAX, i64::MIN] {
        assert_eq!(tokenize(&format_integer(v)), Ok(vec![Token::Value(v)]));
    }
}

#[test]
fn end_to_end_printed_lines() {
    let program = compile("push 2 push 3 add print push -40 print halt").unwrap();
    let mut vm = VM::new();
    assert_eq!(vm.execute(program), Ok(()));
    let lines: Vec<String> = vm.output().iter().map(|v| v.to_text()).collect();
    assert_eq!(lines, vec!["5".to_string(), "-40".to_string()]);
}

#[test]
fn only_program_faults_are_fatal() {
    assert!(InterpreterError::PcOutOfRange.is_fatal());
    assert!(InterpreterError::NotImplemented(Op::Swap).is_fatal());
    for e in [
        InterpreterError::InvalidNumberOfBytes(3),
        InterpreterError::UnknownOpcode(0),
        InterpreterError::StackEmpty,
        InterpreterError::InvalidType(Value::Integer(0), Value::Integer(1)),
        InterpreterError::DivByZero,
        InterpreterError::ModByZero,
        InterpreterError::Overflow,
        InterpreterError::StepLimit,
    ] {
        assert!(!e.is_fatal());
    }
}

#[test]
fn compiled_program_survives_the_byte_stream() {
    let text = ":loop push 3 dup mul print jmp :done push 0 :done halt";
    let program = compile(text).unwrap();
    let decoded = decode_instructions(encode_instructions(&program)).unwrap();
    assert_eq!(decoded, program);
    let mut direct = VM::new();
    let mut through_bytes = VM::new();
    assert_eq!(direct.execute(program), Ok(()));
    assert_eq!(through_bytes.execute(decoded), Ok(()));
    assert_eq!(direct.output(), &ints(&[9]));
    assert_eq!(through_bytes.output(), direct.output());
}

#[test]
fn negative_operand_does_not_survive_the_byte_stream() {
    let program = compile("push -1 print halt").unwrap();
    let decoded = decode_instructions(encode_instructions(&program)).unwrap();
    let mut vm = VM::new();
    assert_eq!(vm.execute(decoded), Ok(()));
    assert_eq!(vm.output(), &ints(&[(1i64 << 56) - 1]));
    assert!(!program[0].fits());
}
