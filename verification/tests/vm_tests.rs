use orion::ast::{Expr, Literal};
use orion::bytecode::{Bytecode, OpCode};
use orion::compiler::Compiler;
use orion::errors::OrionError;
use orion::value::Value;
use orion::vm::{SingleOps, VM};

/// Singles as real IEEE 754 arithmetic, for exercising the delegated
/// operations end to end.
struct FloatSingles;

impl SingleOps for FloatSingles {
    fn add(&self, a: u32, b: u32) -> u32 {
        (f32::from_bits(a) + f32::from_bits(b)).to_bits()
    }
    fn sub(&self, a: u32, b: u32) -> u32 {
        (f32::from_bits(a) - f32::from_bits(b)).to_bits()
    }
    fn mul(&self, a: u32, b: u32) -> u32 {
        (f32::from_bits(a) * f32::from_bits(b)).to_bits()
    }
    fn div(&self, a: u32, b: u32) -> u32 {
        (f32::from_bits(a) / f32::from_bits(b)).to_bits()
    }
    fn neg(&self, a: u32) -> u32 {
        (-f32::from_bits(a)).to_bits()
    }
    fn cos(&self, a: u32) -> u32 {
        f32::from_bits(a).cos().to_bits()
    }
    fn sin(&self, a: u32) -> u32 {
        f32::from_bits(a).sin().to_bits()
    }
    fn tan(&self, a: u32) -> u32 {
        f32::from_bits(a).tan().to_bits()
    }
    fn acos(&self, a: u32) -> u32 {
        f32::from_bits(a).acos().to_bits()
    }
    fn asin(&self, a: u32) -> u32 {
        f32::from_bits(a).asin().to_bits()
    }
    fn atan(&self, a: u32) -> u32 {
        f32::from_bits(a).atan().to_bits()
    }
    fn native(&self, tag: u16, args: Vec<Value>) -> Result<Value, OrionError> {
        match (tag, args.as_slice()) {
            (7, [Value::Integer(a), Value::Integer(b)]) => Ok(Value::Integer((*a).max(*b))),
            _ => Err(OrionError::InvalidBytecode),
        }
    }
}

fn lit_int(i: i32) -> Expr {
    Expr::Literal(Literal::Integer(i))
}

fn run(program: Vec<Expr>) -> (VM<FloatSingles>, Result<Vec<Value>, OrionError>) {
    let mut compiler = Compiler::new(program);
    let bytecode = compiler.compile().unwrap();
    let mut vm = VM::new(bytecode, FloatSingles);
    let result = vm.eval();
    (vm, result)
}

#[test]
fn scenario_lambda_call_leaves_result_and_binding() {
    let program = vec![
        Expr::Def("x".to_owned(), Box::new(lit_int(5)), false),
        Expr::Call(
            Box::new(Expr::Lambda(
                vec!["y".to_owned()],
                Box::new(Expr::Builtin(
                    "+".to_owned(),
                    vec![Expr::Var("x".to_owned()), Expr::Var("y".to_owned())],
                )),
            )),
            vec![lit_int(3)],
        ),
    ];
    let (vm, result) = run(program);
    let ctx = result.unwrap();
    assert!(matches!(ctx[0], Value::Integer(5)));
    assert_eq!(vm.stack.len(), 1);
    assert!(matches!(vm.stack[0], Value::Integer(8)));
}

#[test]
fn context_isolation_call_observes_argument_and_restores() {
    // x = 1 at the top level; f(x) = x + 1; f(2) must see x = 2 inside
    // and the top-level x must read back 1 afterwards.
    let program = vec![
        Expr::Def("x".to_owned(), Box::new(lit_int(1)), false),
        Expr::Def(
            "f".to_owned(),
            Box::new(Expr::Lambda(
                vec!["x".to_owned()],
                Box::new(Expr::Builtin(
                    "+".to_owned(),
                    vec![Expr::Var("x".to_owned()), lit_int(1)],
                )),
            )),
            false,
        ),
        Expr::Call(Box::new(Expr::Var("f".to_owned())), vec![lit_int(2)]),
    ];
    let (vm, result) = run(program);
    let ctx = result.unwrap();
    // The call observed x = 2: its result is 3.
    assert!(matches!(vm.stack[vm.stack.len() - 1], Value::Integer(3)));
    // The top-level binding is restored.
    assert!(matches!(ctx[0], Value::Integer(1)));
}

#[test]
fn call_arity_mismatch_fails_evaluation() {
    let program = vec![Expr::Call(
        Box::new(Expr::Lambda(
            vec!["y".to_owned()],
            Box::new(Expr::Var("y".to_owned())),
        )),
        vec![lit_int(1), lit_int(2)],
    )];
    let (_, result) = run(program);
    match result {
        Err(OrionError::CallArity { expected, given }) => {
            assert_eq!(expected, 1);
            assert_eq!(given, 2);
        }
        other => panic!("expected an arity mismatch, got {:?}", other),
    }
}

#[test]
fn zero_parameter_lambda_rejects_one_argument() {
    let program = vec![Expr::Call(
        Box::new(Expr::Lambda(vec![], Box::new(lit_int(1)))),
        vec![lit_int(2)],
    )];
    let (_, result) = run(program);
    match result {
        Err(OrionError::CallArity { expected, given }) => {
            assert_eq!(expected, 0);
            assert_eq!(given, 1);
        }
        other => panic!("expected an arity mismatch, got {:?}", other),
    }
}

#[test]
fn calling_a_non_lambda_fails() {
    let program = vec![Expr::Call(Box::new(lit_int(3)), vec![])];
    let (_, result) = run(program);
    assert!(matches!(result, Err(OrionError::NotCallable)));
}

#[test]
fn constructor_roundtrip_preserves_argument_order() {
    let program = vec![
        Expr::Enum("Pair".to_owned(), vec![("Pair".to_owned(), 2)]),
        Expr::Constr("Pair".to_owned(), vec![lit_int(10), lit_int(20)]),
    ];
    let (vm, result) = run(program);
    result.unwrap();
    assert_eq!(vm.stack.len(), 1);
    match &vm.stack[0] {
        Value::Constructor(idx, values) => {
            assert_eq!(*idx, 0);
            assert_eq!(values.len(), 2);
            assert!(matches!(values[0], Value::Integer(10)));
            assert!(matches!(values[1], Value::Integer(20)));
        }
        other => panic!("expected a constructor value, got {:?}", other),
    }
}

#[test]
fn tuple_evaluates_to_its_elements_in_order() {
    let program = vec![Expr::Tuple(vec![
        lit_int(1),
        Expr::Literal(Literal::Str("two".to_owned())),
    ])];
    let (vm, result) = run(program);
    result.unwrap();
    match &vm.stack[0] {
        Value::Tuple(values) => {
            assert_eq!(values.len(), 2);
            assert!(matches!(values[0], Value::Integer(1)));
            match &values[1] {
                Value::Str(s) => assert_eq!(s, "two"),
                other => panic!("expected a string, got {:?}", other),
            }
        }
        other => panic!("expected a tuple value, got {:?}", other),
    }
}

#[test]
fn quote_stores_block_and_unquote_splices_it() {
    let program = vec![Expr::Builtin(
        "unquote".to_owned(),
        vec![Expr::Quote(Box::new(lit_int(7)))],
    )];
    let (vm, result) = run(program);
    result.unwrap();
    assert_eq!(vm.stack.len(), 1);
    assert!(matches!(vm.stack[0], Value::Integer(7)));
}

#[test]
fn quote_alone_yields_a_quoted_value() {
    let program = vec![Expr::Quote(Box::new(lit_int(7)))];
    let (vm, result) = run(program);
    result.unwrap();
    match &vm.stack[0] {
        Value::Quoted(block) => assert_eq!(block, &vec![OpCode::LoadConst(0)]),
        other => panic!("expected a quoted block, got {:?}", other),
    }
}

#[test]
fn dbg_records_value_and_yields_unit() {
    let program = vec![Expr::Builtin(
        "dbg".to_owned(),
        vec![Expr::Literal(Literal::Str("hi".to_owned()))],
    )];
    let (vm, result) = run(program);
    result.unwrap();
    assert_eq!(vm.debug_log.len(), 1);
    match &vm.debug_log[0] {
        Value::Str(s) => assert_eq!(s, "hi"),
        other => panic!("expected the logged string, got {:?}", other),
    }
    assert!(matches!(vm.stack[0], Value::Unit));
}

#[test]
fn integer_addition_wraps() {
    let program = vec![Expr::Builtin("+".to_owned(), vec![lit_int(i32::MAX), lit_int(1)])];
    let (vm, result) = run(program);
    result.unwrap();
    assert!(matches!(vm.stack[0], Value::Integer(i32::MIN)));
}

#[test]
fn single_addition_goes_through_the_embedder() {
    let program = vec![Expr::Builtin(
        "+".to_owned(),
        vec![
            Expr::Literal(Literal::Single(1.5f32.to_bits())),
            Expr::Literal(Literal::Single(2.25f32.to_bits())),
        ],
    )];
    let (vm, result) = run(program);
    result.unwrap();
    match vm.stack[0] {
        Value::Single(bits) => assert_eq!(f32::from_bits(bits), 3.75f32),
        ref other => panic!("expected a single, got {:?}", other),
    }
}

#[test]
fn adding_mismatched_tags_fails() {
    let program = vec![Expr::Builtin(
        "+".to_owned(),
        vec![lit_int(1), Expr::Literal(Literal::Str("x".to_owned()))],
    )];
    let (_, result) = run(program);
    assert!(matches!(result, Err(OrionError::TypeMismatch)));
}

#[test]
fn direct_arithmetic_methods() {
    let mut vm = VM::new(Bytecode::new(), FloatSingles);
    vm.stack.push(Value::Integer(7));
    vm.stack.push(Value::Integer(3));
    assert!(matches!(vm.sub().unwrap(), Value::Integer(4)));

    vm.stack.push(Value::Integer(6));
    vm.stack.push(Value::Integer(7));
    assert!(matches!(vm.mul().unwrap(), Value::Integer(42)));

    vm.stack.push(Value::Integer(9));
    vm.stack.push(Value::Integer(2));
    assert!(matches!(vm.div().unwrap(), Value::Integer(4)));

    vm.stack.push(Value::Integer(1));
    vm.stack.push(Value::Integer(0));
    assert!(matches!(vm.div(), Err(OrionError::DivisionByZero)));

    vm.stack.push(Value::Integer(5));
    assert!(matches!(vm.neg().unwrap(), Value::Integer(-5)));

    vm.stack.push(Value::Single(0.0f32.to_bits()));
    match vm.cos().unwrap() {
        Value::Single(bits) => assert_eq!(f32::from_bits(bits), 1.0f32),
        other => panic!("expected a single, got {:?}", other),
    }

    vm.stack.push(Value::Single(0.0f32.to_bits()));
    match vm.sin().unwrap() {
        Value::Single(bits) => assert_eq!(f32::from_bits(bits), 0.0f32),
        other => panic!("expected a single, got {:?}", other),
    }

    vm.stack.push(Value::Single(0.0f32.to_bits()));
    match vm.tan().unwrap() {
        Value::Single(bits) => assert_eq!(f32::from_bits(bits), 0.0f32),
        other => panic!("expected a single, got {:?}", other),
    }

    vm.stack.push(Value::Single(1.0f32.to_bits()));
    match vm.acos().unwrap() {
        Value::Single(bits) => assert_eq!(f32::from_bits(bits), 0.0f32),
        other => panic!("expected a single, got {:?}", other),
    }

    vm.stack.push(Value::Single(0.0f32.to_bits()));
    match vm.asin().unwrap() {
        Value::Single(bits) => assert_eq!(f32::from_bits(bits), 0.0f32),
        other => panic!("expected a single, got {:?}", other),
    }

    vm.stack.push(Value::Single(0.0f32.to_bits()));
    match vm.atan().unwrap() {
        Value::Single(bits) => assert_eq!(f32::from_bits(bits), 0.0f32),
        other => panic!("expected a single, got {:?}", other),
    }

    assert!(matches!(vm.add(), Err(OrionError::StackUnderflow)));
}

#[test]
fn division_overflow_wraps() {
    let mut vm = VM::new(Bytecode::new(), FloatSingles);
    vm.stack.push(Value::Integer(i32::MIN));
    vm.stack.push(Value::Integer(-1));
    assert!(matches!(vm.div().unwrap(), Value::Integer(i32::MIN)));
}

#[test]
fn malformed_bytecode_is_rejected_not_trusted() {
    let mut bytecode = Bytecode::new();
    bytecode.instructions.push(OpCode::LoadConst(4));
    let mut vm = VM::new(bytecode, FloatSingles);
    assert!(matches!(vm.eval(), Err(OrionError::InvalidBytecode)));

    let mut bytecode = Bytecode::new();
    bytecode.instructions.push(OpCode::Def(0));
    let mut vm = VM::new(bytecode, FloatSingles);
    assert!(matches!(vm.eval(), Err(OrionError::StackUnderflow)));

    let mut bytecode = Bytecode::new();
    bytecode.instructions.push(OpCode::LoadSym(0));
    let mut vm = VM::new(bytecode, FloatSingles);
    assert!(matches!(vm.eval(), Err(OrionError::InvalidBytecode)));
}

#[test]
fn builtin_arity_mismatch_is_reported() {
    let mut bytecode = Bytecode::new();
    bytecode.constants.push(Literal::Integer(1));
    bytecode.instructions.push(OpCode::LoadConst(0));
    bytecode.instructions.push(OpCode::Builtin(0, 1));
    let mut vm = VM::new(bytecode, FloatSingles);
    match vm.eval() {
        Err(OrionError::BuiltinArity {
            index,
            expected,
            given,
        }) => {
            assert_eq!(index, 0);
            assert_eq!(expected, 2);
            assert_eq!(given, 1);
        }
        other => panic!("expected a builtin arity mismatch, got {:?}", other),
    }
}

#[test]
fn runaway_recursion_hits_the_depth_budget() {
    let program = vec![
        Expr::Def(
            "f".to_owned(),
            Box::new(Expr::Lambda(
                vec![],
                Box::new(Expr::Call(Box::new(Expr::Var("f".to_owned())), vec![])),
            )),
            false,
        ),
        Expr::Call(Box::new(Expr::Var("f".to_owned())), vec![]),
    ];
    let (_, result) = run(program);
    assert!(matches!(result, Err(OrionError::RecursionLimit)));
}

#[test]
fn definitions_inside_a_call_do_not_leak() {
    // The whole context is restored after a call: even a definition made
    // inside the body is discarded when the call returns.
    let program = vec![
        Expr::Def("a".to_owned(), Box::new(lit_int(1)), false),
        Expr::Call(
            Box::new(Expr::Lambda(
                vec![],
                Box::new(Expr::Def("b".to_owned(), Box::new(lit_int(2)), false)),
            )),
            vec![],
        ),
    ];
    let (_, result) = run(program);
    let ctx = result.unwrap();
    assert_eq!(ctx.len(), 1);
    assert!(matches!(ctx[0], Value::Integer(1)));
}

#[test]
fn value_duplicate_is_structural() {
    let original = Value::Tuple(vec![
        Value::Integer(1),
        Value::Str("s".to_owned()),
        Value::Constructor(2, vec![Value::Unit]),
    ]);
    let copy = original.duplicate();
    match (&original, &copy) {
        (Value::Tuple(a), Value::Tuple(b)) => {
            assert_eq!(a.len(), b.len());
            assert!(matches!(b[0], Value::Integer(1)));
            match &b[1] {
                Value::Str(s) => assert_eq!(s, "s"),
                other => panic!("expected a string, got {:?}", other),
            }
            assert!(matches!(&b[2], Value::Constructor(2, inner) if inner.len() == 1));
        }
        other => panic!("expected tuples, got {:?}", other),
    }
}

#[test]
fn registered_builtin_is_dispatched_by_index() {
    // A second registration of the addition builtin, at a fresh index.
    let mut bytecode = Bytecode::new();
    bytecode.constants.push(Literal::Integer(20));
    bytecode.constants.push(Literal::Integer(22));
    bytecode.instructions.push(OpCode::LoadConst(0));
    bytecode.instructions.push(OpCode::LoadConst(1));
    bytecode.instructions.push(OpCode::Builtin(3, 2));
    let mut vm = VM::new(bytecode, FloatSingles);
    vm.register_builtin(orion::vm::Builtin::Add, 2);
    vm.eval().unwrap();
    assert!(matches!(vm.stack[0], Value::Integer(42)));
}

#[test]
fn unquoting_a_non_quote_fails() {
    let program = vec![Expr::Builtin("unquote".to_owned(), vec![lit_int(4)])];
    let (_, result) = run(program);
    assert!(matches!(result, Err(OrionError::TypeMismatch)));
}

#[test]
fn empty_program_yields_empty_context() {
    let (vm, result) = run(vec![]);
    let ctx = result.unwrap();
    assert!(ctx.is_empty());
    assert!(vm.stack.is_empty());
}

#[test]
fn nested_tuples_evaluate_inside_out() {
    let program = vec![Expr::Tuple(vec![
        Expr::Tuple(vec![lit_int(1), lit_int(2)]),
        lit_int(3),
    ])];
    let (vm, result) = run(program);
    result.unwrap();
    match &vm.stack[0] {
        Value::Tuple(outer) => {
            assert_eq!(outer.len(), 2);
            match &outer[0] {
                Value::Tuple(inner) => {
                    assert_eq!(inner.len(), 2);
                    assert!(matches!(inner[0], Value::Integer(1)));
                    assert!(matches!(inner[1], Value::Integer(2)));
                }
                other => panic!("expected an inner tuple, got {:?}", other),
            }
            assert!(matches!(outer[1], Value::Integer(3)));
        }
        other => panic!("expected a tuple value, got {:?}", other),
    }
}

#[test]
fn constructor_operand_may_be_a_call() {
    let program = vec![
        Expr::Enum("W".to_owned(), vec![("Wrap".to_owned(), 1)]),
        Expr::Constr(
            "Wrap".to_owned(),
            vec![Expr::Call(
                Box::new(Expr::Lambda(
                    vec!["y".to_owned()],
                    Box::new(Expr::Var("y".to_owned())),
                )),
                vec![lit_int(5)],
            )],
        ),
    ];
    let (vm, result) = run(program);
    result.unwrap();
    match &vm.stack[0] {
        Value::Constructor(0, values) => {
            assert_eq!(values.len(), 1);
            assert!(matches!(values[0], Value::Integer(5)));
        }
        other => panic!("expected a constructor value, got {:?}", other),
    }
}

#[test]
fn parameter_shadows_binding_at_its_slot() {
    let program = vec![
        Expr::Def("a".to_owned(), Box::new(lit_int(1)), false),
        Expr::Call(
            Box::new(Expr::Lambda(
                vec!["a".to_owned()],
                Box::new(Expr::Builtin(
                    "+".to_owned(),
                    vec![Expr::Var("a".to_owned()), Expr::Var("a".to_owned())],
                )),
            )),
            vec![lit_int(5)],
        ),
    ];
    let (vm, result) = run(program);
    let ctx = result.unwrap();
    assert!(matches!(vm.stack[0], Value::Integer(10)));
    assert!(matches!(ctx[0], Value::Integer(1)));
}

#[test]
fn two_argument_call_binds_parameters_in_source_order() {
    // (lambda (a b) a)(10, 20) must yield the first source argument.
    let program = vec![Expr::Call(
        Box::new(Expr::Lambda(
            vec!["a".to_owned(), "b".to_owned()],
            Box::new(Expr::Var("a".to_owned())),
        )),
        vec![lit_int(10), lit_int(20)],
    )];
    let (vm, result) = run(program);
    result.unwrap();
    assert!(matches!(vm.stack[0], Value::Integer(10)));
}

#[test]
fn two_argument_call_second_parameter_gets_second_argument() {
    let program = vec![Expr::Call(
        Box::new(Expr::Lambda(
            vec!["a".to_owned(), "b".to_owned()],
            Box::new(Expr::Tuple(vec![
                Expr::Var("a".to_owned()),
                Expr::Var("b".to_owned()),
            ])),
        )),
        vec![lit_int(1), lit_int(2)],
    )];
    let (vm, result) = run(program);
    result.unwrap();
    match &vm.stack[0] {
        Value::Tuple(values) => {
            assert!(matches!(values[0], Value::Integer(1)));
            assert!(matches!(values[1], Value::Integer(2)));
        }
        other => panic!("expected a tuple value, got {:?}", other),
    }
}

#[test]
fn embedder_native_builtin_is_dispatched() {
    // A two-operand native registered beyond the fixed table: the
    // integer maximum, tagged 7 by the embedder.
    let mut bytecode = Bytecode::new();
    bytecode.constants.push(Literal::Integer(3));
    bytecode.constants.push(Literal::Integer(42));
    bytecode.instructions.push(OpCode::LoadConst(0));
    bytecode.instructions.push(OpCode::LoadConst(1));
    bytecode.instructions.push(OpCode::Builtin(3, 2));
    let mut vm = VM::new(bytecode, FloatSingles);
    vm.register_builtin(orion::vm::Builtin::Native(7), 2);
    vm.eval().unwrap();
    assert_eq!(vm.stack.len(), 1);
    assert!(matches!(vm.stack[0], Value::Integer(42)));
}

#[test]
fn unknown_native_tag_aborts_evaluation() {
    let mut bytecode = Bytecode::new();
    bytecode.constants.push(Literal::Integer(1));
    bytecode.instructions.push(OpCode::LoadConst(0));
    bytecode.instructions.push(OpCode::Builtin(3, 1));
    let mut vm = VM::new(bytecode, FloatSingles);
    vm.register_builtin(orion::vm::Builtin::Native(99), 1);
    assert!(matches!(vm.eval(), Err(OrionError::InvalidBytecode)));
}
