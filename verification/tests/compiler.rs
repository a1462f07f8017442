use syljs::ast::{
    AssignOp, BindingPattern, Expr, ExprKind, ForInit, FunctionDecl, FunctionParam, Literal,
    MemberProperty, Program, ProgramKind, Stmt, StmtKind, VarDecl, VarDeclKind,
    VarDeclarator,
};
use syljs::bytecode::{BytecodeFunction, Constant, Instruction};
use syljs::compiler::{compile_program, CompileOptions};
use syljs::span::{SourceId, Span};

fn sp(start: usize, end: usize) -> Span {
    Span::new(SourceId(0), start, end)
}

fn program(body: Vec<Stmt>) -> Program {
    Program { kind: ProgramKind::Script, body, span: sp(0, 100) }
}

fn ident(name: &str) -> Expr {
    Expr::new(ExprKind::Identifier(name.to_owned()), sp(0, 1))
}

fn number(text: &str) -> Expr {
    Expr::new(ExprKind::Literal(Literal::Number(text.to_owned())), sp(0, 1))
}

fn stmt(kind: StmtKind) -> Stmt {
    Stmt::new(kind, sp(0, 1))
}

fn expr_stmt(expr: Expr) -> Stmt {
    stmt(StmtKind::Expr(expr))
}

fn tail(mut code: Vec<Instruction>) -> Vec<Instruction> {
    code.push(Instruction::LoadUndefined);
    code.push(Instruction::Return);
    code
}

#[test]
fn default_options_add_implicit_return() {
    assert!(CompileOptions::default().implicit_return_undefined);
}

#[test]
fn empty_program_returns_undefined() {
    let f = compile_program(&program(Vec::new()), CompileOptions::default()).unwrap();
    assert_eq!(f.name, Some("<script>".to_owned()));
    assert!(f.params.is_empty());
    assert!(f.constants.is_empty());
    assert_eq!(f.instructions, vec![Instruction::LoadUndefined, Instruction::Return]);
    assert_eq!(f.span, sp(0, 100));
}

#[test]
fn empty_program_without_implicit_return_is_empty() {
    let options = CompileOptions { implicit_return_undefined: false };
    let f = compile_program(&program(Vec::new()), options).unwrap();
    assert!(f.instructions.is_empty());
}

#[test]
fn literal_statement_loads_constant_and_pops() {
    let f = compile_program(&program(vec![expr_stmt(number("1"))]), CompileOptions::default())
        .unwrap();
    assert_eq!(f.constants, vec![Constant::Number("1".to_owned())]);
    assert_eq!(f.instructions, tail(vec![Instruction::LoadConst(0), Instruction::Pop]));
}

#[test]
fn if_else_jumps_land_after_branches() {
    let s = stmt(StmtKind::If {
        test: ident("x"),
        consequent: Box::new(stmt(StmtKind::Empty)),
        alternate: Some(Box::new(stmt(StmtKind::Empty))),
    });
    let f = compile_program(&program(vec![s]), CompileOptions::default()).unwrap();
    assert_eq!(
        f.instructions,
        tail(vec![
            Instruction::LoadName("x".to_owned()),
            Instruction::JumpIfFalse { target: 4 },
            Instruction::Nop,
            Instruction::Jump { target: 5 },
            Instruction::Nop,
        ])
    );
}

#[test]
fn while_break_and_continue_are_patched() {
    let body = stmt(StmtKind::Block(vec![stmt(StmtKind::Break), stmt(StmtKind::Continue)]));
    let s = stmt(StmtKind::While { test: ident("x"), body: Box::new(body) });
    let f = compile_program(&program(vec![s]), CompileOptions::default()).unwrap();
    assert_eq!(
        f.instructions,
        tail(vec![
            Instruction::LoadName("x".to_owned()),
            Instruction::JumpIfFalse { target: 7 },
            Instruction::EnterScope,
            Instruction::Jump { target: 7 },
            Instruction::Jump { target: 0 },
            Instruction::ExitScope,
            Instruction::Jump { target: 0 },
        ])
    );
}

#[test]
fn for_continue_jumps_to_update() {
    let body = stmt(StmtKind::Block(vec![stmt(StmtKind::Continue)]));
    let s = stmt(StmtKind::For {
        init: Some(ForInit::Expr(ident("a"))),
        test: None,
        update: Some(ident("i")),
        body: Box::new(body),
    });
    let f = compile_program(&program(vec![s]), CompileOptions::default()).unwrap();
    assert_eq!(
        f.instructions,
        tail(vec![
            Instruction::EnterScope,
            Instruction::LoadName("a".to_owned()),
            Instruction::Pop,
            Instruction::EnterScope,
            Instruction::Jump { target: 6 },
            Instruction::ExitScope,
            Instruction::LoadName("i".to_owned()),
            Instruction::Pop,
            Instruction::Jump { target: 3 },
            Instruction::ExitScope,
        ])
    );
}

#[test]
fn for_with_test_exits_past_back_jump() {
    let s = stmt(StmtKind::For {
        init: None,
        test: Some(ident("t")),
        update: None,
        body: Box::new(stmt(StmtKind::Break)),
    });
    let f = compile_program(&program(vec![s]), CompileOptions::default()).unwrap();
    assert_eq!(
        f.instructions,
        tail(vec![
            Instruction::EnterScope,
            Instruction::LoadName("t".to_owned()),
            Instruction::JumpIfFalse { target: 5 },
            Instruction::Jump { target: 5 },
            Instruction::Jump { target: 1 },
            Instruction::ExitScope,
        ])
    );
}

#[test]
fn break_outside_loop_is_an_error() {
    let s = Stmt::new(StmtKind::Break, sp(3, 9));
    let e = compile_program(&program(vec![s]), CompileOptions::default()).unwrap_err();
    assert_eq!(e.message, "`break` outside loop");
    assert_eq!(e.span, sp(3, 9));
    assert_eq!(e.describe(), "`break` outside loop at 3..9");
}

#[test]
fn continue_outside_loop_is_an_error() {
    let s = Stmt::new(StmtKind::Continue, sp(4, 12));
    let e = compile_program(&program(vec![s]), CompileOptions::default()).unwrap_err();
    assert_eq!(e.message, "`continue` outside loop");
    assert_eq!(e.span, sp(4, 12));
}

#[test]
fn literal_assignment_target_is_invalid() {
    let left = Expr::new(ExprKind::Literal(Literal::Null), sp(5, 9));
    let assign = Expr::new(
        ExprKind::Assign { op: AssignOp::Assign, left: Box::new(left), right: Box::new(number("2")) },
        sp(5, 13),
    );
    let e = compile_program(&program(vec![expr_stmt(assign)]), CompileOptions::default())
        .unwrap_err();
    assert_eq!(e.message, "invalid assignment target");
    assert_eq!(e.span, sp(5, 9));
}

#[test]
fn compound_assignment_to_computed_property_is_refused() {
    let left = Expr::new(
        ExprKind::Member {
            object: Box::new(ident("a")),
            property: MemberProperty::Computed(Box::new(ident("b"))),
        },
        sp(0, 4),
    );
    let assign = Expr::new(
        ExprKind::Assign { op: AssignOp::AddAssign, left: Box::new(left), right: Box::new(number("1")) },
        sp(0, 9),
    );
    let e = compile_program(&program(vec![expr_stmt(assign)]), CompileOptions::default())
        .unwrap_err();
    assert_eq!(
        e.message,
        "compound assignment to computed properties is not supported in Module 29"
    );
    assert_eq!(e.span, sp(0, 4));
}

#[test]
fn compound_assignment_to_identifier_loads_first() {
    let assign = Expr::new(
        ExprKind::Assign {
            op: AssignOp::AddAssign,
            left: Box::new(ident("x")),
            right: Box::new(number("1")),
        },
        sp(0, 6),
    );
    let f = compile_program(&program(vec![expr_stmt(assign)]), CompileOptions::default()).unwrap();
    assert_eq!(
        f.instructions,
        tail(vec![
            Instruction::LoadName("x".to_owned()),
            Instruction::LoadConst(0),
            Instruction::Assignment(AssignOp::AddAssign),
            Instruction::StoreName("x".to_owned()),
            Instruction::Pop,
        ])
    );
}

#[test]
fn compound_assignment_to_named_property_duplicates_object() {
    let left = Expr::new(
        ExprKind::Member {
            object: Box::new(ident("o")),
            property: MemberProperty::Ident("p".to_owned()),
        },
        sp(0, 3),
    );
    let assign = Expr::new(
        ExprKind::Assign { op: AssignOp::MulAssign, left: Box::new(left), right: Box::new(number("2")) },
        sp(0, 8),
    );
    let f = compile_program(&program(vec![expr_stmt(assign)]), CompileOptions::default()).unwrap();
    assert_eq!(
        f.instructions,
        tail(vec![
            Instruction::LoadName("o".to_owned()),
            Instruction::Dup,
            Instruction::GetNamedProperty("p".to_owned()),
            Instruction::LoadConst(0),
            Instruction::Assignment(AssignOp::MulAssign),
            Instruction::SetNamedProperty("p".to_owned()),
            Instruction::Pop,
        ])
    );
}

#[test]
fn let_without_initializer_stores_undefined() {
    let decl = VarDecl {
        kind: VarDeclKind::Let,
        declarations: vec![VarDeclarator {
            id: BindingPattern::Identifier("x".to_owned()),
            init: None,
            span: sp(4, 5),
        }],
    };
    let f = compile_program(&program(vec![stmt(StmtKind::VarDecl(decl))]), CompileOptions::default())
        .unwrap();
    assert_eq!(
        f.instructions,
        tail(vec![
            Instruction::DeclareName("x".to_owned()),
            Instruction::LoadUndefined,
            Instruction::StoreName("x".to_owned()),
            Instruction::Pop,
        ])
    );
}

#[test]
fn function_declaration_becomes_nested_constant() {
    let decl = FunctionDecl {
        name: "f".to_owned(),
        params: vec![FunctionParam { name: "a".to_owned(), span: sp(11, 12) }],
        body: vec![stmt(StmtKind::Return(Some(ident("a"))))],
        span: sp(0, 30),
    };
    let f = compile_program(&program(vec![stmt(StmtKind::FunctionDecl(decl))]), CompileOptions::default())
        .unwrap();
    let nested = BytecodeFunction {
        name: Some("f".to_owned()),
        params: vec!["a".to_owned()],
        constants: Vec::new(),
        instructions: vec![
            Instruction::LoadName("a".to_owned()),
            Instruction::Return,
            Instruction::LoadUndefined,
            Instruction::Return,
        ],
        span: sp(0, 30),
    };
    assert_eq!(f.constants, vec![Constant::Function(nested)]);
    assert_eq!(
        f.instructions,
        tail(vec![
            Instruction::LoadConst(0),
            Instruction::StoreName("f".to_owned()),
            Instruction::Pop,
        ])
    );
}

#[test]
fn nested_function_keeps_its_implicit_return_without_option() {
    let func = Expr::new(
        ExprKind::Function { name: None, params: Vec::new(), body: Vec::new() },
        sp(2, 8),
    );
    let options = CompileOptions { implicit_return_undefined: false };
    let f = compile_program(&program(vec![expr_stmt(func)]), options).unwrap();
    let nested = BytecodeFunction {
        name: None,
        params: Vec::new(),
        constants: Vec::new(),
        instructions: vec![Instruction::LoadUndefined, Instruction::Return],
        span: sp(2, 8),
    };
    assert_eq!(f.constants, vec![Constant::Function(nested)]);
    assert_eq!(f.instructions, vec![Instruction::LoadConst(0), Instruction::Pop]);
}

#[test]
fn error_inside_nested_function_propagates() {
    let func = Expr::new(
        ExprKind::Function {
            name: Some("g".to_owned()),
            params: Vec::new(),
            body: vec![Stmt::new(StmtKind::Break, sp(20, 26))],
        },
        sp(10, 30),
    );
    let e = compile_program(&program(vec![expr_stmt(func)]), CompileOptions::default()).unwrap_err();
    assert_eq!(e.message, "`break` outside loop");
    assert_eq!(e.span, sp(20, 26));
}

#[test]
fn array_holes_load_undefined() {
    let array = Expr::new(ExprKind::Array(vec![Some(number("1")), None]), sp(0, 5));
    let f = compile_program(&program(vec![expr_stmt(array)]), CompileOptions::default()).unwrap();
    assert_eq!(
        f.instructions,
        tail(vec![
            Instruction::LoadConst(0),
            Instruction::LoadUndefined,
            Instruction::NewArray(2),
            Instruction::Pop,
        ])
    );
}

#[test]
fn conditional_expression_jumps() {
    let cond = Expr::new(
        ExprKind::Conditional {
            test: Box::new(ident("c")),
            consequent: Box::new(ident("a")),
            alternate: Box::new(ident("b")),
        },
        sp(0, 9),
    );
    let f = compile_program(&program(vec![expr_stmt(cond)]), CompileOptions::default()).unwrap();
    assert_eq!(
        f.instructions,
        tail(vec![
            Instruction::LoadName("c".to_owned()),
            Instruction::JumpIfFalse { target: 4 },
            Instruction::LoadName("a".to_owned()),
            Instruction::Jump { target: 5 },
            Instruction::LoadName("b".to_owned()),
            Instruction::Pop,
        ])
    );
}

#[test]
fn this_loads_the_this_name() {
    let this = Expr::new(ExprKind::This, sp(0, 4));
    let f = compile_program(&program(vec![expr_stmt(this)]), CompileOptions::default()).unwrap();
    assert_eq!(
        f.instructions,
        tail(vec![Instruction::LoadName("this".to_owned()), Instruction::Pop])
    );
}

#[test]
fn bytecode_function_push_and_patch() {
    let mut f = BytecodeFunction::new(Some("h".to_owned()), Vec::new(), sp(0, 1));
    assert_eq!(f.push_constant(Constant::Null), 0);
    assert_eq!(f.push_constant(Constant::Boolean(true)), 1);
    assert_eq!(f.push_instruction(Instruction::Jump { target: usize::MAX }), 0);
    assert_eq!(f.push_instruction(Instruction::Nop), 1);
    f.patch_jump(0, 7);
    f.patch_jump(1, 9);
    f.patch_jump(5, 9);
    assert_eq!(f.instructions, vec![Instruction::Jump { target: 7 }, Instruction::Nop]);
}
