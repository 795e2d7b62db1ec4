use orion::ast::{Expr, Literal};
use orion::bytecode::OpCode;
use orion::compiler::Compiler;
use orion::errors::OrionError;

fn lit_int(i: i32) -> Expr {
    Expr::Literal(Literal::Integer(i))
}

#[test]
fn constant_interning_two_loads_one_entry() {
    let program = vec![lit_int(5), lit_int(5)];
    let mut compiler = Compiler::new(program);
    let bytecode = compiler.compile().unwrap();
    assert_eq!(bytecode.constants.len(), 1);
    assert_eq!(
        bytecode.instructions,
        vec![OpCode::LoadConst(0), OpCode::LoadConst(0)]
    );
}

#[test]
fn constant_interning_distinguishes_values() {
    let program = vec![lit_int(5), lit_int(6), lit_int(5)];
    let mut compiler = Compiler::new(program);
    let bytecode = compiler.compile().unwrap();
    assert_eq!(bytecode.constants.len(), 2);
    assert_eq!(
        bytecode.instructions,
        vec![
            OpCode::LoadConst(0),
            OpCode::LoadConst(1),
            OpCode::LoadConst(0)
        ]
    );
}

#[test]
fn register_constant_reuses_ids() {
    let mut compiler = Compiler::new(vec![]);
    let a = compiler.register_constant(&Literal::Str("hello".to_owned())).unwrap();
    let b = compiler.register_constant(&Literal::Integer(3)).unwrap();
    let c = compiler.register_constant(&Literal::Str("hello".to_owned())).unwrap();
    assert_eq!(a, 0);
    assert_eq!(b, 1);
    assert_eq!(c, a);
}

#[test]
fn slot_stability_across_occurrences() {
    let program = vec![
        Expr::Def("x".to_owned(), Box::new(lit_int(5)), false),
        Expr::Def("y".to_owned(), Box::new(lit_int(6)), false),
        Expr::Var("x".to_owned()),
        Expr::Var("y".to_owned()),
        Expr::Var("x".to_owned()),
    ];
    let mut compiler = Compiler::new(program);
    let bytecode = compiler.compile().unwrap();
    assert_eq!(bytecode.symbols, vec!["x".to_owned(), "y".to_owned()]);
    assert_eq!(
        bytecode.instructions,
        vec![
            OpCode::LoadConst(0),
            OpCode::Def(0),
            OpCode::LoadConst(1),
            OpCode::Def(1),
            OpCode::LoadSym(0),
            OpCode::LoadSym(1),
            OpCode::LoadSym(0),
        ]
    );
}

#[test]
fn redefining_a_name_reuses_its_slot() {
    let program = vec![
        Expr::Def("x".to_owned(), Box::new(lit_int(5)), false),
        Expr::Def("x".to_owned(), Box::new(lit_int(6)), false),
    ];
    let mut compiler = Compiler::new(program);
    let bytecode = compiler.compile().unwrap();
    assert_eq!(bytecode.symbols, vec!["x".to_owned()]);
    assert_eq!(
        bytecode.instructions,
        vec![
            OpCode::LoadConst(0),
            OpCode::Def(0),
            OpCode::LoadConst(1),
            OpCode::Def(0),
        ]
    );
}

#[test]
fn purity_gate_rejects_impure_builtin_in_pure_binding() {
    let program = vec![Expr::Def(
        "y".to_owned(),
        Box::new(Expr::Builtin("dbg".to_owned(), vec![lit_int(1)])),
        false,
    )];
    let mut compiler = Compiler::new(program);
    match compiler.compile() {
        Err(OrionError::ImpureBuiltin(name)) => assert_eq!(name, "dbg"),
        other => panic!("expected a purity violation, got {:?}", other),
    }
}

#[test]
fn purity_gate_allows_impure_builtin_at_top_level() {
    let program = vec![Expr::Builtin("dbg".to_owned(), vec![lit_int(1)])];
    let mut compiler = Compiler::new(program);
    let bytecode = compiler.compile().unwrap();
    assert_eq!(
        bytecode.instructions,
        vec![OpCode::LoadConst(0), OpCode::Builtin(1, 1)]
    );
}

#[test]
fn impure_symbol_rejected_in_pure_context() {
    let program = vec![
        Expr::Def("x".to_owned(), Box::new(lit_int(1)), true),
        Expr::Def(
            "y".to_owned(),
            Box::new(Expr::Var("x".to_owned())),
            false,
        ),
    ];
    let mut compiler = Compiler::new(program);
    match compiler.compile() {
        Err(OrionError::ImpureSymbol(name)) => assert_eq!(name, "x"),
        other => panic!("expected a purity violation, got {:?}", other),
    }
}

#[test]
fn pure_symbol_usable_from_impure_context() {
    let program = vec![
        Expr::Def("x".to_owned(), Box::new(lit_int(1)), false),
        Expr::Def("y".to_owned(), Box::new(Expr::Var("x".to_owned())), true),
    ];
    let mut compiler = Compiler::new(program);
    assert!(compiler.compile().is_ok());
}

#[test]
fn unbound_variable_is_reported() {
    let program = vec![Expr::Var("nope".to_owned())];
    let mut compiler = Compiler::new(program);
    match compiler.compile() {
        Err(OrionError::UnboundVariable(name)) => assert_eq!(name, "nope"),
        other => panic!("expected an unbound variable, got {:?}", other),
    }
}

#[test]
fn unknown_builtin_is_reported() {
    let program = vec![Expr::Builtin("frobnicate".to_owned(), vec![])];
    let mut compiler = Compiler::new(program);
    match compiler.compile() {
        Err(OrionError::UnknownBuiltin(name)) => assert_eq!(name, "frobnicate"),
        other => panic!("expected an unknown builtin, got {:?}", other),
    }
}

#[test]
fn constructor_arity_mismatch_fails_compilation() {
    let program = vec![
        Expr::Enum(
            "Maybe".to_owned(),
            vec![("Just".to_owned(), 1), ("None".to_owned(), 0)],
        ),
        Expr::Constr("Just".to_owned(), vec![lit_int(1), lit_int(2)]),
    ];
    let mut compiler = Compiler::new(program);
    match compiler.compile() {
        Err(OrionError::ConstructorArity {
            name,
            expected,
            given,
        }) => {
            assert_eq!(name, "Just");
            assert_eq!(expected, 1);
            assert_eq!(given, 2);
        }
        other => panic!("expected an arity mismatch, got {:?}", other),
    }
}

#[test]
fn constructor_application_emits_construct_first() {
    let program = vec![
        Expr::Enum("Pair".to_owned(), vec![("Pair".to_owned(), 2)]),
        Expr::Constr("Pair".to_owned(), vec![lit_int(1), lit_int(2)]),
    ];
    let mut compiler = Compiler::new(program);
    let bytecode = compiler.compile().unwrap();
    assert_eq!(bytecode.constructors, vec![2]);
    assert_eq!(
        bytecode.instructions,
        vec![
            OpCode::Constructor(0, 2),
            OpCode::LoadConst(0),
            OpCode::LoadConst(1),
        ]
    );
}

#[test]
fn duplicate_constructor_is_reported_with_index() {
    let program = vec![Expr::Enum(
        "E".to_owned(),
        vec![("A".to_owned(), 0), ("B".to_owned(), 1), ("A".to_owned(), 2)],
    )];
    let mut compiler = Compiler::new(program);
    match compiler.compile() {
        Err(OrionError::DuplicateConstructor(name, idx)) => {
            assert_eq!(name, "A");
            assert_eq!(idx, 0);
        }
        other => panic!("expected a duplicate constructor, got {:?}", other),
    }
}

#[test]
fn unknown_constructor_is_reported() {
    let program = vec![Expr::Constr("Ghostly".to_owned(), vec![])];
    let mut compiler = Compiler::new(program);
    match compiler.compile() {
        Err(OrionError::UnknownConstructor(name)) => assert_eq!(name, "Ghostly"),
        other => panic!("expected an unknown constructor, got {:?}", other),
    }
}

#[test]
fn quote_carries_block_length() {
    let program = vec![Expr::Quote(Box::new(lit_int(7)))];
    let mut compiler = Compiler::new(program);
    let bytecode = compiler.compile().unwrap();
    assert_eq!(
        bytecode.instructions,
        vec![OpCode::Quote(1), OpCode::LoadConst(0)]
    );
}

#[test]
fn tuple_carries_length_and_count() {
    let program = vec![Expr::Tuple(vec![lit_int(1), lit_int(2), lit_int(3)])];
    let mut compiler = Compiler::new(program);
    let bytecode = compiler.compile().unwrap();
    assert_eq!(
        bytecode.instructions,
        vec![
            OpCode::Tuple(3, 3),
            OpCode::LoadConst(0),
            OpCode::LoadConst(1),
            OpCode::LoadConst(2),
        ]
    );
}

#[test]
fn scenario_lambda_call_compiles_to_expected_container() {
    // def x = 5; (lambda (y) (+ x y)) applied to 3
    let program = vec![
        Expr::Def("x".to_owned(), Box::new(lit_int(5)), false),
        Expr::Call(
            Box::new(Expr::Lambda(
                vec!["y".to_owned()],
                Box::new(Expr::Builtin(
                    "+".to_owned(),
                    vec![Expr::Var("x".to_owned()), Expr::Var("y".to_owned())],
                )),
            )),
            vec![lit_int(3)],
        ),
    ];
    let mut compiler = Compiler::new(program);
    let bytecode = compiler.compile().unwrap();
    assert_eq!(
        bytecode.constants,
        vec![Literal::Integer(5), Literal::Integer(3)]
    );
    assert_eq!(bytecode.symbols, vec!["x".to_owned(), "y".to_owned()]);
    assert_eq!(bytecode.chunks.len(), 1);
    assert_eq!(bytecode.chunks[0].reference, vec![1]);
    assert_eq!(
        bytecode.chunks[0].instructions,
        vec![OpCode::LoadSym(0), OpCode::LoadSym(1), OpCode::Builtin(0, 2)]
    );
    assert_eq!(
        bytecode.instructions,
        vec![
            OpCode::LoadConst(0),
            OpCode::Def(0),
            OpCode::Lambda(0),
            OpCode::LoadConst(1),
            OpCode::Call(1),
        ]
    );
}

#[test]
fn module_loaded_once_and_skipped_on_reload() {
    let module = vec![Expr::Def("z".to_owned(), Box::new(lit_int(9)), false)];
    let program = vec![
        Expr::Load(vec!["prelude".to_owned()]),
        Expr::Load(vec!["prelude".to_owned()]),
        Expr::Var("z".to_owned()),
    ];
    let mut compiler = Compiler::new(program);
    compiler.register_module("prelude".to_owned(), module);
    let bytecode = compiler.compile().unwrap();
    // The module's definitions appear exactly once.
    assert_eq!(
        bytecode.instructions,
        vec![OpCode::LoadConst(0), OpCode::Def(0), OpCode::LoadSym(0)]
    );
    assert_eq!(bytecode.symbols, vec!["z".to_owned()]);
}

#[test]
fn missing_module_is_reported() {
    let program = vec![Expr::Load(vec!["absent".to_owned()])];
    let mut compiler = Compiler::new(program);
    match compiler.compile() {
        Err(OrionError::FileNotFound(name)) => assert_eq!(name, "absent"),
        other => panic!("expected a missing module, got {:?}", other),
    }
}

#[test]
fn declare_reuses_and_appends() {
    let compiler = Compiler::new(vec![]);
    let symbols = Vec::new();
    let (slot_a, symbols) = compiler.declare(&"a".to_owned(), symbols, false).unwrap();
    let (slot_b, symbols) = compiler.declare(&"b".to_owned(), symbols, true).unwrap();
    let (again_a, symbols) = compiler.declare(&"a".to_owned(), symbols, true).unwrap();
    assert_eq!(slot_a, 0);
    assert_eq!(slot_b, 1);
    assert_eq!(again_a, 0);
    assert_eq!(symbols.len(), 2);
}

#[test]
fn get_constructor_reports_arity_and_index() {
    let mut compiler = Compiler::new(vec![]);
    compiler.register_constructor("A".to_owned(), 3).unwrap();
    compiler.register_constructor("B".to_owned(), 1).unwrap();
    assert_eq!(compiler.get_constructor(&"B".to_owned()).unwrap(), (1, 1));
    assert_eq!(compiler.get_constructor(&"A".to_owned()).unwrap(), (3, 0));
    assert!(matches!(
        compiler.get_constructor(&"C".to_owned()),
        Err(OrionError::UnknownConstructor(_))
    ));
}

#[test]
fn registered_builtin_resolves_at_its_index() {
    let program = vec![Expr::Builtin("halt".to_owned(), vec![])];
    let mut compiler = Compiler::new(program);
    compiler.register_builtin("halt".to_owned(), true);
    let bytecode = compiler.compile().unwrap();
    assert_eq!(bytecode.instructions, vec![OpCode::Builtin(3, 0)]);
}

#[test]
fn load_threads_symbols_into_later_expressions() {
    // A module may be requested from inside a definition's initializer.
    let module = vec![Expr::Def("base".to_owned(), Box::new(lit_int(40)), false)];
    let program = vec![
        Expr::Load(vec!["lib".to_owned()]),
        Expr::Def(
            "sum".to_owned(),
            Box::new(Expr::Builtin(
                "+".to_owned(),
                vec![Expr::Var("base".to_owned()), lit_int(2)],
            )),
            true,
        ),
    ];
    let mut compiler = Compiler::new(program);
    compiler.register_module("lib".to_owned(), module);
    let bytecode = compiler.compile().unwrap();
    assert_eq!(bytecode.symbols, vec!["base".to_owned(), "sum".to_owned()]);
}
