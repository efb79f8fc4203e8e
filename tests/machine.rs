use rux::chunk::{Chunk, OpCode};
use rux::compiler::Compiler;
use rux::interpreter::{InterpretError, Interpreter};
use rux::objects::StringObject;
use rux::precedence::Precedence;
use rux::token::{TokenResult, TokenType};
use rux::value::Value;
use rux::vm::{Exec, NumOp, RuntimeError, VM};
use std::rc::Rc;

fn parse_number(s: &str) -> u64 {
    s.parse::<f64>().unwrap().to_bits()
}

fn arith(op: NumOp, a: u64, b: u64) -> u64 {
    let (x, y) = (f64::from_bits(a), f64::from_bits(b));
    let r = match op {
        NumOp::Add => x + y,
        NumOp::Subtract => x - y,
        NumOp::Multiply => x * y,
        NumOp::Divide => x / y,
    };
    r.to_bits()
}

fn num(x: f64) -> Value {
    Value::Number(x.to_bits())
}

fn text(s: &str) -> Value {
    Value::String(Rc::new(StringObject::new(s)))
}

fn run_to_end(chunk: &Chunk) -> (VM, Exec) {
    let mut vm = VM::new();
    let mut r = vm.run_main(chunk);
    while let Exec::Arithmetic(op, a, b) = r {
        vm.supply_number(arith(op, a, b));
        r = vm.run(chunk);
    }
    (vm, r)
}

fn eval(source: &str) -> Result<Value, InterpretError> {
    let mut interpreter = Interpreter::new();
    interpreter.interpret(source, parse_number, arith)
}

fn expect_value(source: &str, expected: Value) {
    match eval(source) {
        Ok(v) => assert!(v.equals(&expected), "{source}: got {v:?}"),
        Err(e) => panic!("{source}: {e:?}"),
    }
}

#[test]
fn constants() {
    let mut chunk = Chunk::new();
    chunk.emit_many(&mut vec![OpCode::Constant(0), OpCode::True, OpCode::Nil]);
    chunk.add_constant(num(2.0));
    let mut vm = VM::new();
    match vm.run_main(&chunk) {
        Exec::Failed(RuntimeError::ExhaustedProgram(_)) => {
            let stack = vm.stack.contents();
            let expected = vec![num(2.0), Value::Boolean(true), Value::Nil];
            assert_eq!(stack.len(), expected.len(), "Stack contents are not the same");
            for (a, b) in stack.iter().zip(expected.iter()) {
                assert!(a.equals(b), "Stack contents are not the same");
            }
        },
        other => panic!("Expected the VM to halt but got {other:?}"),
    }
}

#[test]
fn expressions_evaluate() {
    expect_value("1 + 2", num(3.0));
    expect_value("2 * (3 + 4)", num(14.0));
    expect_value("-5", num(-5.0));
    expect_value("10 - 4 - 3", num(3.0));
    expect_value("8 / 2 / 2", num(2.0));
    expect_value("1 + 2 * 3", num(7.0));
    expect_value("-(1 + 2) * 2", num(-6.0));
    expect_value("!1", Value::Boolean(false));
    expect_value("!!2.5", Value::Boolean(true));
}

#[test]
fn literals_without_prefix_rule_do_not_compile() {
    for source in ["!nil", "\"ab\" + \"cd\"", "true", ")"] {
        let mut compiler = Compiler::from_source(source);
        let _ = compiler.compile(parse_number);
        assert!(compiler.had_error, "{source}");
        assert!(compiler.has_errors());
        assert!(matches!(eval(source), Err(InterpretError::Compile(_))));
    }
}

#[test]
fn not_nil_and_concatenation_run() {
    let mut chunk = Chunk::new();
    chunk.write(OpCode::Nil, 1);
    chunk.write(OpCode::Not, 1);
    chunk.write(OpCode::Return, 1);
    match run_to_end(&chunk).1 {
        Exec::Halted(v) => assert!(v.equals(&Value::Boolean(true))),
        other => panic!("{other:?}"),
    }
    let mut chunk = Chunk::new();
    chunk.emit_constant(text("ab"));
    chunk.emit_constant(text("cd"));
    chunk.emit(OpCode::Add);
    chunk.emit(OpCode::Return);
    match run_to_end(&chunk).1 {
        Exec::Halted(Value::String(s)) => assert_eq!(s.value, "abcd"),
        other => panic!("{other:?}"),
    }
}

#[test]
fn incomplete_source_sets_error_flag() {
    let mut compiler = Compiler::from_source("1 +");
    let chunk = compiler.compile(parse_number);
    assert!(compiler.had_error);
    assert_eq!(chunk.code().last(), Some(&OpCode::Return));
    assert_eq!(compiler.into_errors().len(), 1);
    assert!(matches!(eval("1 +"), Err(InterpretError::Compile(_))));
}

#[test]
fn compiled_code_is_postfix() {
    let mut compiler = Compiler::from_source("2 * (3 + 4)");
    let chunk = compiler.compile(parse_number);
    assert!(!compiler.had_error);
    assert_eq!(
        chunk.code(),
        &[
            OpCode::Constant(0),
            OpCode::Constant(1),
            OpCode::Constant(2),
            OpCode::Add,
            OpCode::Multiply,
            OpCode::Return,
        ]
    );
    assert!(chunk.read_constant(2).equals(&num(4.0)));
    let mut compiler = Compiler::from_source("");
    let chunk = compiler.compile(parse_number);
    assert!(!compiler.had_error);
    assert_eq!(chunk.code(), &[OpCode::Return]);
    let mut compiler = Compiler::from_source("1 == 2");
    let chunk = compiler.compile(parse_number);
    assert!(!compiler.had_error);
    assert_eq!(chunk.code(), &[OpCode::Constant(0), OpCode::Constant(1), OpCode::Return]);
}

#[test]
fn add_with_one_operand_underflows() {
    let mut chunk = Chunk::new();
    chunk.emit_constant(num(1.0));
    chunk.emit(OpCode::Add);
    chunk.emit(OpCode::Return);
    assert!(matches!(run_to_end(&chunk).1, Exec::Failed(RuntimeError::StackUnderflow)));
    let mut chunk = Chunk::new();
    chunk.emit_constant(text("a"));
    chunk.emit(OpCode::Add);
    chunk.emit(OpCode::Return);
    assert!(matches!(run_to_end(&chunk).1, Exec::Failed(RuntimeError::StackUnderflow)));
}

#[test]
fn missing_return_exhausts_at_end() {
    let mut chunk = Chunk::new();
    chunk.emit_constant(num(1.0));
    chunk.emit_constant(num(2.0));
    chunk.emit(OpCode::Add);
    let (vm, r) = run_to_end(&chunk);
    assert!(matches!(r, Exec::Failed(RuntimeError::ExhaustedProgram(3))));
    assert_eq!(vm.stack.contents().len(), 1);
    assert!(vm.stack.contents()[0].equals(&num(3.0)));
    let chunk = Chunk::new();
    assert!(matches!(run_to_end(&chunk).1, Exec::Failed(RuntimeError::ExhaustedProgram(0))));
}

#[test]
fn type_mismatches() {
    assert!(matches!(eval("-!1"), Err(InterpretError::Runtime(RuntimeError::TypeMismatch))));
    assert!(matches!(eval("!1 + 2"), Err(InterpretError::Runtime(RuntimeError::TypeMismatch))));
    assert!(matches!(eval("1 - !2"), Err(InterpretError::Runtime(RuntimeError::TypeMismatch))));
    let mut chunk = Chunk::new();
    chunk.emit_constant(num(1.0));
    chunk.emit_constant(text("x"));
    chunk.emit(OpCode::Add);
    chunk.emit(OpCode::Return);
    assert!(matches!(run_to_end(&chunk).1, Exec::Failed(RuntimeError::TypeMismatch)));
}

#[test]
fn empty_program_underflows_on_return() {
    assert!(matches!(eval(""), Err(InterpretError::Runtime(RuntimeError::StackUnderflow))));
}

#[test]
fn division_by_zero_follows_ieee() {
    match eval("1 / 0") {
        Ok(Value::Number(bits)) => assert_eq!(f64::from_bits(bits), f64::INFINITY),
        other => panic!("{other:?}"),
    }
    match eval("0 / 0") {
        Ok(Value::Number(bits)) => assert!(f64::from_bits(bits).is_nan()),
        other => panic!("{other:?}"),
    }
}

#[test]
fn value_equality_and_truthiness() {
    assert!(num(0.0).equals(&num(-0.0)));
    assert!(!num(f64::NAN).equals(&num(f64::NAN)));
    assert!(num(1.5).equals(&num(1.5)));
    assert!(!num(1.0).equals(&Value::Boolean(true)));
    assert!(text("ab").equals(&text("ab")));
    assert!(!text("ab").equals(&text("abc")));
    assert!(Value::Nil.equals(&Value::Nil));
    assert!(Value::Nil.is_falsey());
    assert!(Value::Boolean(false).is_falsey());
    assert!(!Value::Boolean(true).is_falsey());
    assert!(!num(0.0).is_falsey());
    assert!(!text("").is_falsey());
}

#[test]
fn negation_flips_sign_bit() {
    let mut chunk = Chunk::new();
    chunk.emit_constant(num(0.0));
    chunk.emit(OpCode::Negate);
    chunk.emit(OpCode::Return);
    match run_to_end(&chunk).1 {
        Exec::Halted(Value::Number(bits)) => assert_eq!(bits, (-0.0f64).to_bits()),
        other => panic!("{other:?}"),
    }
}

#[test]
fn shared_value_keeps_text() {
    let v = text("hi");
    match v.share() {
        Value::String(s) => assert_eq!(s.value, "hi"),
        other => panic!("{other:?}"),
    }
}

#[test]
fn chunk_operations() {
    let mut chunk = Chunk::new();
    assert_eq!(chunk.add_constant(num(1.0)), 0);
    assert_eq!(chunk.add_constant(num(2.0)), 1);
    chunk.write(OpCode::Constant(1), 7);
    chunk.emit(OpCode::Return);
    assert_eq!(chunk.op_count(), 2);
    assert_eq!(chunk.constant_count(), 2);
    assert_eq!(chunk.op_get(0), Some(&OpCode::Constant(1)));
    assert_eq!(chunk.op_get(2), None);
    chunk.op_patch(0, OpCode::Constant(0));
    assert_eq!(chunk.op_get(0), Some(&OpCode::Constant(0)));
    assert!(chunk.is_runnable());
    chunk.op_patch(0, OpCode::Constant(5));
    assert!(!chunk.is_runnable());
}

#[test]
fn precedence_order() {
    assert_eq!(Precedence::Lowest.next(), Precedence::Assignment);
    assert_eq!(Precedence::Term.next(), Precedence::Factor);
    assert_eq!(Precedence::Primary.next(), Precedence::Primary);
    assert!(Precedence::Term.le(&Precedence::Factor));
    assert!(!Precedence::Unary.le(&Precedence::Term));
    assert_eq!(Precedence::Call.rank(), 9);
    assert_eq!(Precedence::from_level(11), None);
}

#[test]
fn placeholder_token_and_errors() {
    let t = TokenResult::invalid();
    assert_eq!(t.line, -1);
    assert_eq!(t.token_type, TokenType::Error);
    assert!(t.data.is_err());
    match RuntimeError::new("boom") {
        RuntimeError::Other(m) => assert_eq!(m, "boom"),
        other => panic!("{other:?}"),
    }
    assert_eq!(StringObject::from_owned(String::from("x")).value, "x");
}
