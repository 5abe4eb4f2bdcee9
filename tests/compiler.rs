use typee::ast::Expr;
use typee::code::{Code, Instr, Linkage};
use typee::compiler::{compile, CompError, State};
use typee::jit::can_lower;

fn sym(s: &str) -> Expr {
    Expr::Symbol(s.to_string())
}

fn lit(n: i32) -> Expr {
    Expr::IntLiteral(n)
}

fn list(items: Vec<Expr>) -> Expr {
    Expr::List(items)
}

fn entry_value(code: &Code) -> &Instr {
    let ret = code.functions[0].ret.expect("entry function has no return value");
    &code.values[ret]
}

fn compile_err(program: Vec<Expr>) -> CompError {
    match compile(&program) {
        Ok(_) => panic!("program compiled"),
        Err(e) => e,
    }
}

#[test]
fn compile_main() {
    let program = vec![list(vec![sym("+"), lit(2), lit(1)])];
    let code = compile(&program).unwrap();
    assert_eq!(code.functions.len(), 1);
    assert_eq!(code.functions[0].name, "main");
    assert_eq!(code.functions[0].linkage, Linkage::Exported);
    assert!(code.functions[0].params.is_empty());
    assert_eq!(code.values, vec![Instr::Int(2), Instr::Int(1), Instr::Add(0, 1)]);
    assert_eq!(code.functions[0].ret, Some(2));
    assert!(can_lower(&code));
}

#[test]
fn literal_program_returns_literal() {
    for n in [0, 42, -7, i32::MAX, i32::MIN] {
        let code = compile(&vec![lit(n)]).unwrap();
        assert_eq!(entry_value(&code), &Instr::Int(n));
    }
}

#[test]
fn sum_program_adds_operands() {
    let code = compile(&vec![list(vec![sym("+"), lit(40), lit(2)])]).unwrap();
    assert_eq!(entry_value(&code), &Instr::Add(0, 1));
    assert_eq!(code.values[0], Instr::Int(40));
    assert_eq!(code.values[1], Instr::Int(2));
}

#[test]
fn empty_program_returns_zero() {
    let code = compile(&vec![]).unwrap();
    assert_eq!(code.values, vec![Instr::Int(0)]);
    assert_eq!(entry_value(&code), &Instr::Int(0));
}

#[test]
fn last_form_is_entry_value() {
    let code = compile(&vec![lit(1), lit(2), lit(3)]).unwrap();
    assert_eq!(entry_value(&code), &Instr::Int(3));
}

#[test]
fn head_not_symbol_is_invalid_form() {
    assert_eq!(compile_err(vec![list(vec![lit(1), lit(2), lit(3)])]), CompError::InvalidForm);
    assert_eq!(compile_err(vec![list(vec![])]), CompError::InvalidForm);
}

#[test]
fn unbound_name_is_undefined() {
    let program = vec![list(vec![sym("+"), sym("x"), lit(1)])];
    assert_eq!(compile_err(program), CompError::UndefinedSymbol);
    assert_eq!(compile_err(vec![list(vec![sym("f"), lit(1)])]), CompError::UndefinedSymbol);
}

#[test]
fn malformed_definitions() {
    assert_eq!(compile_err(vec![list(vec![sym("def")])]), CompError::MissingFunctionName);
    assert_eq!(compile_err(vec![list(vec![sym("def"), lit(3)])]), CompError::MissingFunctionName);
    assert_eq!(compile_err(vec![list(vec![sym("def"), sym("f")])]), CompError::MissingFunctionArgs);
    assert_eq!(
        compile_err(vec![list(vec![sym("def"), sym("f"), sym("x"), sym("x")])]),
        CompError::MissingFunctionArgs
    );
    assert_eq!(
        compile_err(vec![list(vec![sym("def"), sym("f"), list(vec![sym("x")])])]),
        CompError::MissingFunctionBody
    );
    assert_eq!(
        compile_err(vec![list(vec![sym("def"), sym("f"), list(vec![lit(1)]), sym("x")])]),
        CompError::BadFunctionArgDefinition
    );
}

#[test]
fn duplicate_parameter_is_rejected() {
    let program = vec![list(vec![sym("def"), sym("f"), list(vec![sym("x"), sym("x")]), sym("x")])];
    assert_eq!(compile_err(program), CompError::BadFunctionArgDefinition);
}

#[test]
fn two_sessions_agree() {
    let make = || {
        vec![
            list(vec![sym("def"), sym("inc"), list(vec![sym("x")]), list(vec![sym("+"), sym("x"), lit(1)])]),
            list(vec![sym("inc"), lit(41)]),
        ]
    };
    let first = compile(&make()).unwrap();
    let second = compile(&make()).unwrap();
    assert_eq!(first, second);
}

#[test]
fn defined_function_is_callable() {
    let program = vec![
        list(vec![sym("def"), sym("inc"), list(vec![sym("x")]), list(vec![sym("+"), sym("x"), lit(1)])]),
        list(vec![sym("inc"), lit(41)]),
    ];
    let code = compile(&program).unwrap();
    assert_eq!(code.functions.len(), 2);
    let inc = &code.functions[1];
    assert_eq!(inc.name, "inc");
    assert_eq!(inc.linkage, Linkage::Internal);
    assert_eq!(inc.params, vec!["x".to_string()]);
    assert_eq!(code.values[0], Instr::Param { func: 1, index: 0 });
    assert_eq!(code.values[1], Instr::Int(1));
    assert_eq!(code.values[2], Instr::Add(0, 1));
    assert_eq!(inc.ret, Some(2));
    assert_eq!(code.values[3], Instr::Nil);
    assert_eq!(code.values[4], Instr::Int(41));
    assert_eq!(entry_value(&code), &Instr::Call(1, vec![4]));
    assert!(can_lower(&code));
}

#[test]
fn function_name_outside_call_is_undefined() {
    let program = vec![
        list(vec![sym("def"), sym("f"), list(vec![sym("x")]), sym("x")]),
        sym("f"),
    ];
    assert_eq!(compile_err(program), CompError::UndefinedSymbol);
}

#[test]
fn calling_a_parameter_is_not_a_call() {
    let program = vec![list(vec![sym("def"), sym("f"), list(vec![sym("x")]), list(vec![sym("x"), lit(1)])])];
    assert_eq!(compile_err(program), CompError::CalledNonFunction);
}

#[test]
fn builtin_sum_needs_two_arguments() {
    assert_eq!(compile_err(vec![list(vec![sym("+"), lit(1)])]), CompError::FuncCallWrongArgCount);
    assert_eq!(compile_err(vec![list(vec![sym("+"), lit(1), lit(2), lit(3)])]), CompError::FuncCallWrongArgCount);
    assert_eq!(compile_err(vec![list(vec![sym("+")])]), CompError::FuncCallWrongArgCount);
}

#[test]
fn redefinition_in_one_scope_is_rejected() {
    let def = || list(vec![sym("def"), sym("f"), list(vec![sym("x")]), sym("x")]);
    assert_eq!(compile_err(vec![def(), def()]), CompError::InvalidFunctionForm);
}

#[test]
fn inner_parameter_shadows_outer() {
    let program = vec![list(vec![
        sym("def"),
        sym("f"),
        list(vec![sym("x")]),
        list(vec![sym("def"), sym("g"), list(vec![sym("x")]), sym("x")]),
    ])];
    let code = compile(&program).unwrap();
    assert_eq!(code.functions.len(), 3);
    let g_ret = code.functions[2].ret.unwrap();
    assert_eq!(code.values[g_ret], Instr::Param { func: 2, index: 0 });
}

#[test]
fn first_error_aborts_build() {
    let program = vec![list(vec![lit(1)]), sym("y")];
    assert_eq!(compile_err(program), CompError::InvalidForm);
}

#[test]
fn session_build_then_finish() {
    let mut state = State::new();
    let program = vec![lit(5)];
    assert!(state.build(&program).is_ok());
    let code = state.finish();
    assert_eq!(entry_value(&code), &Instr::Int(5));
}

#[test]
fn unit_entry_value_is_not_lowerable() {
    let program = vec![list(vec![sym("def"), sym("f"), list(vec![sym("x")]), sym("x")])];
    let code = compile(&program).unwrap();
    assert_eq!(entry_value(&code), &Instr::Nil);
    assert!(!can_lower(&code));
}

#[test]
fn call_arity_mismatch_is_not_lowerable() {
    let program = vec![
        list(vec![sym("def"), sym("f"), list(vec![sym("x")]), sym("x")]),
        list(vec![sym("f"), lit(1), lit(2)]),
    ];
    let code = compile(&program).unwrap();
    assert!(!can_lower(&code));
}

#[test]
fn outer_parameter_in_inner_function_is_not_lowerable() {
    let program = vec![list(vec![
        sym("def"),
        sym("f"),
        list(vec![sym("x")]),
        list(vec![sym("def"), sym("g"), list(vec![sym("y")]), sym("x")]),
    ])];
    let code = compile(&program).unwrap();
    assert!(!can_lower(&code));
}

#[test]
fn function_name_must_be_identifier_to_lower() {
    let program = vec![
        list(vec![sym("def"), sym("add-one"), list(vec![sym("x")]), list(vec![sym("+"), sym("x"), lit(1)])]),
        list(vec![sym("add-one"), lit(1)]),
    ];
    let code = compile(&program).unwrap();
    assert!(!can_lower(&code));
    let program = vec![
        list(vec![sym("def"), sym("add_one"), list(vec![sym("x")]), list(vec![sym("+"), sym("x"), lit(1)])]),
        list(vec![sym("add_one"), lit(1)]),
    ];
    let code = compile(&program).unwrap();
    assert!(can_lower(&code));
}

#[test]
fn entry_name_is_reserved() {
    let program = vec![list(vec![sym("def"), sym("main"), list(vec![]), lit(1)]), lit(2)];
    assert_eq!(compile_err(program), CompError::InvalidFunctionForm);
}

#[test]
fn same_name_in_two_scopes_is_not_lowerable() {
    let program = vec![
        list(vec![
            sym("def"),
            sym("f"),
            list(vec![sym("x")]),
            list(vec![sym("+"), list(vec![sym("def"), sym("g"), list(vec![]), lit(1)]), sym("x")]),
        ]),
        list(vec![sym("def"), sym("g"), list(vec![]), lit(2)]),
        lit(0),
    ];
    let code = compile(&program).unwrap();
    assert!(!can_lower(&code));
}

#[test]
fn later_operand_error_after_nested_definition() {
    let program = vec![list(vec![sym("+"), list(vec![sym("def"), sym("g"), list(vec![]), lit(1)]), sym("y")])];
    assert_eq!(compile_err(program), CompError::UndefinedSymbol);
}
