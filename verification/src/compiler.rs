//! One-pass compiler from the syntax tree to bytecode. Forward jumps are
//! emitted with a placeholder target and patched once the target is known;
//! `break` and `continue` jumps are collected per loop and patched when the
//! loop ends.

use crate::ast::{
    AssignOp, BindingPattern, Expr, ExprKind, ForInit, FunctionDecl, FunctionParam, Literal,
    MemberProperty, ObjectProperty, Program, Stmt, StmtKind, VarDecl, VarDeclarator,
};
use crate::bytecode::{
    lemma_fn_view_constants,
    BytecodeFunction, Constant, ConstView, FnView, Instr, Instruction, const_index, const_view, const_views, fn_view,
    instr_views, patched,
};
use crate::span::Span;
use crate::text::{append_str, decimal, decimal_string, owned};
use vstd::prelude::*;

verus! {

broadcast use vstd::string::group_string_axioms;

// ---------------------------------------------------------------------------
// Model of compilation
// ---------------------------------------------------------------------------

/// Jumps of an open loop still waiting for their target.
pub struct LoopView {
    pub breaks: Seq<usize>,
    pub continues: Seq<usize>,
}

/// Compilation state: the code so far, the constant pool, and the open
/// loops, innermost last.
pub struct GenState {
    pub code: Seq<Instr>,
    pub consts: Seq<ConstView>,
    pub loops: Seq<LoopView>,
}

/// Model of a compile error.
pub struct ErrView {
    pub message: Seq<char>,
    pub span: Span,
}

/// Target of a jump not yet patched.
pub open spec fn placeholder() -> usize {
    usize::MAX
}

/// The state at the start of a function.
pub open spec fn fresh_state() -> GenState {
    GenState { code: Seq::empty(), consts: Seq::empty(), loops: Seq::empty() }
}

/// The position of the next instruction.
pub open spec fn here(st: GenState) -> usize {
    st.code.len() as usize
}

/// One more instruction.
pub open spec fn emit(st: GenState, i: Instr) -> GenState {
    GenState { code: st.code.push(i), ..st }
}

/// A constant added to the pool and loaded.
pub open spec fn load_const(st: GenState, c: ConstView) -> GenState {
    emit(GenState { consts: st.consts.push(c), ..st }, Instr::LoadConst(const_index(st.consts.len())))
}

/// Every jump at the listed positions pointed at `t`, in order.
pub open spec fn patched_all(code: Seq<Instr>, ps: Seq<usize>, t: usize) -> Seq<Instr>
    decreases ps.len(),
{
    if ps.len() == 0 {
        code
    } else {
        patched(patched_all(code, ps.drop_last(), t), ps.last() as int, t)
    }
}

/// The state with the jump at `i` pointed at `t`.
pub open spec fn patch_at(st: GenState, i: usize, t: usize) -> GenState {
    GenState { code: patched(st.code, i as int, t), ..st }
}

/// The constant a literal loads.
pub open spec fn literal_const(l: Literal) -> ConstView {
    match l {
        Literal::Number(n) => ConstView::Number(n@),
        Literal::String(s) => ConstView::String(s@),
        Literal::Boolean(b) => ConstView::Boolean(b),
        Literal::Null => ConstView::Null,
        Literal::Undefined => ConstView::Undefined,
    }
}

/// The error message for `break` outside a loop.
pub open spec fn break_outside_loop() -> Seq<char> {
    "`break` outside loop"@
}

/// The error message for `continue` outside a loop.
pub open spec fn continue_outside_loop() -> Seq<char> {
    "`continue` outside loop"@
}

/// The error message for a compound assignment to a computed property.
pub open spec fn computed_compound_assignment() -> Seq<char> {
    "compound assignment to computed properties is not supported in Module 29"@
}

/// The error message for an assignment to something other than a name or member.
pub open spec fn invalid_assignment_target() -> Seq<char> {
    "invalid assignment target"@
}

/// The parameter names of a function.
pub open spec fn param_names(ps: Seq<FunctionParam>) -> Seq<Seq<char>> {
    ps.map_values(|p: FunctionParam| p.name@)
}

/// A view of an optional name.
pub open spec fn opt_name(n: Option<String>) -> Option<Seq<char>> {
    match n {
        Some(s) => Some(s@),
        None => None,
    }
}

/// Compiling a function: its body from a fresh state, then an implicit
/// `return undefined`.
pub open spec fn gen_function(name: Option<Seq<char>>, params: Seq<Seq<char>>, body: Seq<Stmt>, span: Span) -> Result<FnView, ErrView>
    decreases body, 2nat,
{
    match gen_stmts(fresh_state(), body) {
        Err(e) => Err(e),
        Ok(st) => Ok(
            FnView {
                name,
                params,
                constants: st.consts,
                instructions: st.code.push(Instr::LoadUndefined).push(Instr::Return),
                span,
            },
        ),
    }
}

/// Compiling statements in order.
pub open spec fn gen_stmts(st: GenState, ss: Seq<Stmt>) -> Result<GenState, ErrView>
    decreases ss, 1nat,
{
    if ss.len() == 0 {
        Ok(st)
    } else {
        match gen_stmts(st, ss.drop_last()) {
            Err(e) => Err(e),
            Ok(s1) => gen_stmt(s1, ss.last()),
        }
    }
}

/// Compiling expressions in order.
pub open spec fn gen_exprs(st: GenState, es: Seq<Expr>) -> Result<GenState, ErrView>
    decreases es, 1nat,
{
    if es.len() == 0 {
        Ok(st)
    } else {
        match gen_exprs(st, es.drop_last()) {
            Err(e) => Err(e),
            Ok(s1) => gen_expr(s1, es.last()),
        }
    }
}

/// Compiling array items in order; a hole loads `undefined`.
pub open spec fn gen_items(st: GenState, items: Seq<Option<Expr>>) -> Result<GenState, ErrView>
    decreases items, 1nat,
{
    if items.len() == 0 {
        Ok(st)
    } else {
        match gen_items(st, items.drop_last()) {
            Err(e) => Err(e),
            Ok(s1) => match items.last() {
                Some(x) => gen_expr(s1, x),
                None => Ok(emit(s1, Instr::LoadUndefined)),
            },
        }
    }
}

/// Compiling object properties in order: each value, then its definition.
pub open spec fn gen_props(st: GenState, ps: Seq<ObjectProperty>) -> Result<GenState, ErrView>
    decreases ps, 1nat,
{
    if ps.len() == 0 {
        Ok(st)
    } else {
        match gen_props(st, ps.drop_last()) {
            Err(e) => Err(e),
            Ok(s1) => match gen_expr(s1, ps.last().value) {
                Err(e) => Err(e),
                Ok(s2) => Ok(emit(s2, Instr::DefineProperty(ps.last().key@))),
            },
        }
    }
}

/// Compiling declarators in order: declare, initialize (or `undefined`),
/// store, pop.
pub open spec fn gen_decls(st: GenState, ds: Seq<VarDeclarator>) -> Result<GenState, ErrView>
    decreases ds, 1nat,
{
    if ds.len() == 0 {
        Ok(st)
    } else {
        match gen_decls(st, ds.drop_last()) {
            Err(e) => Err(e),
            Ok(s1) => {
                let d = ds.last();
                let name = match d.id {
                    BindingPattern::Identifier(n) => n@,
                };
                let s2 = emit(s1, Instr::DeclareName(name));
                let s3 = match d.init {
                    Some(x) => gen_expr(s2, x),
                    None => Ok(emit(s2, Instr::LoadUndefined)),
                };
                match s3 {
                    Err(e) => Err(e),
                    Ok(s4) => Ok(emit(emit(s4, Instr::StoreName(name)), Instr::Pop)),
                }
            },
        }
    }
}

/// Compiling an expression.
pub open spec fn gen_expr(st: GenState, e: Expr) -> Result<GenState, ErrView>
    decreases e, 1nat,
{
    match e.kind {
        ExprKind::Literal(l) => Ok(load_const(st, literal_const(l))),
        ExprKind::Identifier(n) => Ok(emit(st, Instr::LoadName(n@))),
        ExprKind::This => Ok(emit(st, Instr::LoadName("this"@))),
        ExprKind::Array(items) => match gen_items(st, items@) {
            Err(err) => Err(err),
            Ok(s1) => Ok(emit(s1, Instr::NewArray(items@.len() as usize))),
        },
        ExprKind::Object(props) => gen_props(emit(st, Instr::NewObject), props@),
        ExprKind::Unary { op, argument } => match gen_expr(st, *argument) {
            Err(err) => Err(err),
            Ok(s1) => Ok(emit(s1, Instr::Unary(op))),
        },
        ExprKind::Binary { op, left, right } => match gen_expr(st, *left) {
            Err(err) => Err(err),
            Ok(s1) => match gen_expr(s1, *right) {
                Err(err) => Err(err),
                Ok(s2) => Ok(emit(s2, Instr::Binary(op))),
            },
        },
        ExprKind::Assign { op, left, right } => gen_assign(st, e),
        ExprKind::Member { object, property } => match gen_expr(st, *object) {
            Err(err) => Err(err),
            Ok(s1) => match property {
                MemberProperty::Ident(n) => Ok(emit(s1, Instr::GetNamedProperty(n@))),
                MemberProperty::Computed(x) => match gen_expr(s1, *x) {
                    Err(err) => Err(err),
                    Ok(s2) => Ok(emit(s2, Instr::GetProperty)),
                },
            },
        },
        ExprKind::Call { callee, arguments } => match gen_expr(st, *callee) {
            Err(err) => Err(err),
            Ok(s1) => match gen_exprs(s1, arguments@) {
                Err(err) => Err(err),
                Ok(s2) => Ok(emit(s2, Instr::Call(arguments@.len() as usize))),
            },
        },
        ExprKind::Function { name, params, body } => match gen_function(opt_name(name), param_names(params@), body@, e.span) {
            Err(err) => Err(err),
            Ok(f) => Ok(load_const(st, ConstView::Function(f))),
        },
        ExprKind::New { callee, arguments } => match gen_expr(st, *callee) {
            Err(err) => Err(err),
            Ok(s1) => match gen_exprs(s1, arguments@) {
                Err(err) => Err(err),
                Ok(s2) => Ok(emit(s2, Instr::New(arguments@.len() as usize))),
            },
        },
        ExprKind::Conditional { test, consequent, alternate } => match gen_expr(st, *test) {
            Err(err) => Err(err),
            Ok(s1) => {
                let else_jump = here(s1);
                match gen_expr(emit(s1, Instr::JumpIfFalse(placeholder())), *consequent) {
                    Err(err) => Err(err),
                    Ok(s3) => {
                        let end_jump = here(s3);
                        let s4 = emit(s3, Instr::Jump(placeholder()));
                        match gen_expr(patch_at(s4, else_jump, here(s4)), *alternate) {
                            Err(err) => Err(err),
                            Ok(s6) => Ok(patch_at(s6, end_jump, here(s6))),
                        }
                    },
                }
            },
        },
    }
}

/// Compiling an assignment expression `e`.
pub open spec fn gen_assign(st: GenState, e: Expr) -> Result<GenState, ErrView>
    decreases e, 0nat,
{
    match e.kind {
        ExprKind::Assign { op, left, right } => match left.kind {
            ExprKind::Identifier(n) => {
                let r = if op == AssignOp::Assign {
                    gen_expr(st, *right)
                } else {
                    match gen_expr(emit(st, Instr::LoadName(n@)), *right) {
                        Err(err) => Err(err),
                        Ok(s1) => Ok(emit(s1, Instr::Assignment(op))),
                    }
                };
                match r {
                    Err(err) => Err(err),
                    Ok(s2) => Ok(emit(s2, Instr::StoreName(n@))),
                }
            },
            ExprKind::Member { object, property } => match gen_expr(st, *object) {
                Err(err) => Err(err),
                Ok(s1) => match property {
                    MemberProperty::Ident(n) => {
                        let r = if op == AssignOp::Assign {
                            gen_expr(s1, *right)
                        } else {
                            match gen_expr(emit(emit(s1, Instr::Dup), Instr::GetNamedProperty(n@)), *right) {
                                Err(err) => Err(err),
                                Ok(s2) => Ok(emit(s2, Instr::Assignment(op))),
                            }
                        };
                        match r {
                            Err(err) => Err(err),
                            Ok(s3) => Ok(emit(s3, Instr::SetNamedProperty(n@))),
                        }
                    },
                    MemberProperty::Computed(x) => match gen_expr(s1, *x) {
                        Err(err) => Err(err),
                        Ok(s2) => if op == AssignOp::Assign {
                            match gen_expr(s2, *right) {
                                Err(err) => Err(err),
                                Ok(s3) => Ok(emit(s3, Instr::SetProperty)),
                            }
                        } else {
                            Err(ErrView { message: computed_compound_assignment(), span: left.span })
                        },
                    },
                },
            },
            _ => Err(ErrView { message: invalid_assignment_target(), span: left.span }),
        },
        _ => Ok(st),
    }
}

/// A loop opened: no jumps waiting yet.
pub open spec fn open_loop(st: GenState) -> GenState {
    GenState { loops: st.loops.push(LoopView { breaks: Seq::empty(), continues: Seq::empty() }), ..st }
}

/// The innermost loop closed: its jumps, and the state without it.
pub open spec fn close_loop(st: GenState) -> (LoopView, GenState) {
    if st.loops.len() > 0 {
        (st.loops.last(), GenState { loops: st.loops.drop_last(), ..st })
    } else {
        (LoopView { breaks: Seq::empty(), continues: Seq::empty() }, st)
    }
}

/// The loop's waiting jumps pointed at their targets.
pub open spec fn resolve_loop(st: GenState, l: LoopView, break_target: usize, continue_target: usize) -> GenState {
    GenState { code: patched_all(patched_all(st.code, l.breaks, break_target), l.continues, continue_target), ..st }
}

/// A jump recorded in the innermost loop.
pub open spec fn record_jump(st: GenState, is_break: bool) -> GenState {
    let l = st.loops.last();
    let jump = here(st);
    let nl = if is_break {
        LoopView { breaks: l.breaks.push(jump), ..l }
    } else {
        LoopView { continues: l.continues.push(jump), ..l }
    };
    GenState { loops: st.loops.update(st.loops.len() - 1, nl), ..emit(st, Instr::Jump(placeholder())) }
}

/// Compiling a statement.
pub open spec fn gen_stmt(st: GenState, s: Stmt) -> Result<GenState, ErrView>
    decreases s, 1nat,
{
    match s.kind {
        StmtKind::Empty => Ok(emit(st, Instr::Nop)),
        StmtKind::Block(body) => match gen_stmts(emit(st, Instr::EnterScope), body@) {
            Err(err) => Err(err),
            Ok(s1) => Ok(emit(s1, Instr::ExitScope)),
        },
        StmtKind::Expr(x) => match gen_expr(st, x) {
            Err(err) => Err(err),
            Ok(s1) => Ok(emit(s1, Instr::Pop)),
        },
        StmtKind::VarDecl(d) => gen_decls(st, d.declarations@),
        StmtKind::FunctionDecl(f) => match gen_function(Some(f.name@), param_names(f.params@), f.body@, f.span) {
            Err(err) => Err(err),
            Ok(fv) => Ok(emit(emit(load_const(st, ConstView::Function(fv)), Instr::StoreName(f.name@)), Instr::Pop)),
        },
        StmtKind::Return(arg) => {
            let r = match arg {
                Some(x) => gen_expr(st, x),
                None => Ok(emit(st, Instr::LoadUndefined)),
            };
            match r {
                Err(err) => Err(err),
                Ok(s1) => Ok(emit(s1, Instr::Return)),
            }
        },
        StmtKind::If { test, consequent, alternate } => match gen_expr(st, test) {
            Err(err) => Err(err),
            Ok(s1) => {
                let else_jump = here(s1);
                match gen_stmt(emit(s1, Instr::JumpIfFalse(placeholder())), *consequent) {
                    Err(err) => Err(err),
                    Ok(s3) => {
                        let end_jump = here(s3);
                        let s4 = emit(s3, Instr::Jump(placeholder()));
                        let s5 = patch_at(s4, else_jump, here(s4));
                        let r = match alternate {
                            Some(a) => gen_stmt(s5, *a),
                            None => Ok(s5),
                        };
                        match r {
                            Err(err) => Err(err),
                            Ok(s6) => Ok(patch_at(s6, end_jump, here(s6))),
                        }
                    },
                }
            },
        },
        StmtKind::While { test, body } => {
            let loop_start = here(st);
            match gen_expr(st, test) {
                Err(err) => Err(err),
                Ok(s1) => {
                    let exit_jump = here(s1);
                    match gen_stmt(open_loop(emit(s1, Instr::JumpIfFalse(placeholder()))), *body) {
                        Err(err) => Err(err),
                        Ok(s3) => {
                            let (l, s4) = close_loop(s3);
                            let s5 = emit(s4, Instr::Jump(loop_start));
                            let loop_end = here(s5);
                            Ok(resolve_loop(patch_at(s5, exit_jump, loop_end), l, loop_end, loop_start))
                        },
                    }
                },
            }
        },
        StmtKind::For { init, test, update, body } => {
            let s0 = emit(st, Instr::EnterScope);
            let r1 = match init {
                Some(ForInit::VarDecl(d)) => gen_decls(s0, d.declarations@),
                Some(ForInit::Expr(x)) => match gen_expr(s0, x) {
                    Err(err) => Err(err),
                    Ok(s) => Ok(emit(s, Instr::Pop)),
                },
                None => Ok(s0),
            };
            match r1 {
                Err(err) => Err(err),
                Ok(s1) => {
                    let loop_start = here(s1);
                    let r2 = match test {
                        Some(t) => match gen_expr(s1, t) {
                            Err(err) => Err(err),
                            Ok(s) => Ok((emit(s, Instr::JumpIfFalse(placeholder())), Some(here(s)))),
                        },
                        None => Ok((s1, None)),
                    };
                    match r2 {
                        Err(err) => Err(err),
                        Ok((s2, exit_jump)) => match gen_stmt(open_loop(s2), *body) {
                            Err(err) => Err(err),
                            Ok(s3) => {
                                let continue_target = here(s3);
                                let r4 = match update {
                                    Some(u) => match gen_expr(s3, u) {
                                        Err(err) => Err(err),
                                        Ok(s) => Ok(emit(s, Instr::Pop)),
                                    },
                                    None => Ok(s3),
                                };
                                match r4 {
                                    Err(err) => Err(err),
                                    Ok(s4) => {
                                        let s5 = emit(s4, Instr::Jump(loop_start));
                                        let loop_end = here(s5);
                                        let s6 = match exit_jump {
                                            Some(j) => patch_at(s5, j, loop_end),
                                            None => s5,
                                        };
                                        let (l, s7) = close_loop(s6);
                                        Ok(emit(resolve_loop(s7, l, loop_end, continue_target), Instr::ExitScope))
                                    },
                                }
                            },
                        },
                    }
                },
            }
        },
        StmtKind::Break => if st.loops.len() == 0 {
            Err(ErrView { message: break_outside_loop(), span: s.span })
        } else {
            Ok(record_jump(st, true))
        },
        StmtKind::Continue => if st.loops.len() == 0 {
            Err(ErrView { message: continue_outside_loop(), span: s.span })
        } else {
            Ok(record_jump(st, false))
        },
    }
}

// ---------------------------------------------------------------------------
// A failure part-way fails the whole list
// ---------------------------------------------------------------------------

proof fn lemma_stmts_err(st: GenState, ss: Seq<Stmt>, k: int)
    requires
        0 <= k <= ss.len(),
        gen_stmts(st, ss.take(k)) is Err,
    ensures
        gen_stmts(st, ss) == gen_stmts(st, ss.take(k)),
    decreases ss.len(),
{
    if k < ss.len() {
        assert(ss.drop_last().take(k) =~= ss.take(k));
        lemma_stmts_err(st, ss.drop_last(), k);
    } else {
        assert(ss.take(k) =~= ss);
    }
}

proof fn lemma_exprs_err(st: GenState, es: Seq<Expr>, k: int)
    requires
        0 <= k <= es.len(),
        gen_exprs(st, es.take(k)) is Err,
    ensures
        gen_exprs(st, es) == gen_exprs(st, es.take(k)),
    decreases es.len(),
{
    if k < es.len() {
        assert(es.drop_last().take(k) =~= es.take(k));
        lemma_exprs_err(st, es.drop_last(), k);
    } else {
        assert(es.take(k) =~= es);
    }
}

proof fn lemma_items_err(st: GenState, items: Seq<Option<Expr>>, k: int)
    requires
        0 <= k <= items.len(),
        gen_items(st, items.take(k)) is Err,
    ensures
        gen_items(st, items) == gen_items(st, items.take(k)),
    decreases items.len(),
{
    if k < items.len() {
        assert(items.drop_last().take(k) =~= items.take(k));
        lemma_items_err(st, items.drop_last(), k);
    } else {
        assert(items.take(k) =~= items);
    }
}

proof fn lemma_props_err(st: GenState, ps: Seq<ObjectProperty>, k: int)
    requires
        0 <= k <= ps.len(),
        gen_props(st, ps.take(k)) is Err,
    ensures
        gen_props(st, ps) == gen_props(st, ps.take(k)),
    decreases ps.len(),
{
    if k < ps.len() {
        assert(ps.drop_last().take(k) =~= ps.take(k));
        lemma_props_err(st, ps.drop_last(), k);
    } else {
        assert(ps.take(k) =~= ps);
    }
}

proof fn lemma_decls_err(st: GenState, ds: Seq<VarDeclarator>, k: int)
    requires
        0 <= k <= ds.len(),
        gen_decls(st, ds.take(k)) is Err,
    ensures
        gen_decls(st, ds) == gen_decls(st, ds.take(k)),
    decreases ds.len(),
{
    if k < ds.len() {
        assert(ds.drop_last().take(k) =~= ds.take(k));
        lemma_decls_err(st, ds.drop_last(), k);
    } else {
        assert(ds.take(k) =~= ds);
    }
}

// ---------------------------------------------------------------------------
// Compiler
// ---------------------------------------------------------------------------

/// Compiler configuration.
#[derive(Debug, Clone, Copy, PartialEq, Eq, Structural)]
pub struct CompileOptions {
    /// Adds an implicit `return undefined` at the end of scripts/functions.
    pub implicit_return_undefined: bool,
}

impl Default for CompileOptions {
    fn default() -> (o: Self)
        ensures
            o.implicit_return_undefined,
    {
        Self { implicit_return_undefined: true }
    }
}

/// Compiler error.
#[derive(Debug, Clone, PartialEq, Eq)]
pub struct CompileError {
    /// Human-readable message.
    pub message: String,
    /// Source span.
    pub span: Span,
}

impl View for CompileError {
    type V = ErrView;

    open spec fn view(&self) -> ErrView {
        ErrView { message: self.message@, span: self.span }
    }
}

impl CompileError {
    fn new(message: &str, span: Span) -> (e: Self)
        ensures
            e@ == (ErrView { message: message@, span }),
    {
        Self { message: owned(message), span }
    }

    /// Human-readable rendering: `"{message} at {start}..{end}"`.
    pub fn describe(&self) -> (s: String)
        ensures
            s@ == self.message@ + " at "@ + decimal(self.span.start as nat) + ".."@ + decimal(self.span.end as nat),
    {
        let mut s = self.message.clone();
        append_str(&mut s, " at ");
        let a = decimal_string(self.span.start as u64);
        append_str(&mut s, a.as_str());
        append_str(&mut s, "..");
        let b = decimal_string(self.span.end as u64);
        append_str(&mut s, b.as_str());
        s
    }
}

#[derive(Debug)]
struct LoopPatch {
    break_jumps: Vec<usize>,
    continue_jumps: Vec<usize>,
}

impl View for LoopPatch {
    type V = LoopView;

    closed spec fn view(&self) -> LoopView {
        LoopView { breaks: self.break_jumps@, continues: self.continue_jumps@ }
    }
}

/// Views of the open loops.
spec fn loop_views(s: Seq<LoopPatch>) -> Seq<LoopView> {
    s.map_values(|l: LoopPatch| l@)
}

struct Compiler {
    function: BytecodeFunction,
    loop_stack: Vec<LoopPatch>,
}

impl View for Compiler {
    type V = GenState;

    closed spec fn view(&self) -> GenState {
        GenState {
            code: instr_views(self.function.instructions@),
            consts: const_views(self.function.constants@),
            loops: loop_views(self.loop_stack@),
        }
    }
}

/// The outcome of a compile step: the state it reaches, or its error.
pub open spec fn step_ok(r: Result<(), CompileError>, expected: Result<GenState, ErrView>, after: GenState) -> bool {
    match expected {
        Ok(st) => r is Ok && after == st,
        Err(e) => r is Err && r->Err_0@ == e,
    }
}

/// The function's name, parameters and span are kept.
pub open spec fn same_header(a: BytecodeFunction, b: BytecodeFunction) -> bool {
    a.name == b.name && a.params == b.params && a.span == b.span
}

impl Compiler {
    fn new(function: BytecodeFunction) -> (c: Self)
        ensures
            c.function == function,
            c@.loops.len() == 0,
    {
        let c = Compiler { function, loop_stack: Vec::new() };
        assert(c@.loops =~= Seq::<LoopView>::empty());
        c
    }

    fn emit(&mut self, i: Instruction) -> (at: usize)
        ensures
            final(self)@ == emit(old(self)@, i@),
            same_header(final(self).function, old(self).function),
            at == here(old(self)@),
    {
        let at = self.function.push_instruction(i);
        assert(instr_views(self.function.instructions@) =~= instr_views(old(self).function.instructions@).push(i@));
        at
    }

    fn here_exec(&self) -> (at: usize)
        ensures
            at == here(self@),
    {
        self.function.instructions.len()
    }

    fn load_constant(&mut self, c: Constant)
        ensures
            final(self)@ == load_const(old(self)@, const_view(c)),
            same_header(final(self).function, old(self).function),
    {
        let ghost c_view = const_view(c);
        let index = self.function.push_constant(c);
        assert(const_views(self.function.constants@) =~= const_views(old(self).function.constants@).push(c_view));
        self.emit(Instruction::LoadConst(index));
    }

    fn patch(&mut self, at: usize, target: usize)
        ensures
            final(self)@ == patch_at(old(self)@, at, target),
            same_header(final(self).function, old(self).function),
    {
        self.function.patch_jump(at, target);
    }

    fn patch_list(&mut self, ps: &Vec<usize>, target: usize)
        ensures
            final(self)@ == (GenState { code: patched_all(old(self)@.code, ps@, target), ..old(self)@ }),
            same_header(final(self).function, old(self).function),
    {
        let mut i: usize = 0;
        while i < ps.len()
            invariant
                i <= ps@.len(),
                self@ == (GenState { code: patched_all(old(self)@.code, ps@.take(i as int), target), ..old(self)@ }),
                same_header(self.function, old(self).function),
            decreases ps.len() - i,
        {
            assert(ps@.take(i + 1).drop_last() =~= ps@.take(i as int));
            self.patch(ps[i], target);
            i = i + 1;
        }
        assert(ps@.take(ps.len() as int) =~= ps@);
    }

    fn open_loop_exec(&mut self)
        ensures
            final(self)@ == open_loop(old(self)@),
            final(self).function == old(self).function,
    {
        self.loop_stack.push(LoopPatch { break_jumps: Vec::new(), continue_jumps: Vec::new() });
        assert(loop_views(self.loop_stack@) =~= loop_views(old(self).loop_stack@).push(
            LoopView { breaks: Seq::empty(), continues: Seq::empty() },
        ));
    }

    fn close_loop_exec(&mut self) -> (l: LoopPatch)
        ensures
            (l@, final(self)@) == close_loop(old(self)@),
            final(self).function == old(self).function,
    {
        match self.loop_stack.pop() {
            Some(l) => {
                assert(loop_views(self.loop_stack@) =~= loop_views(old(self).loop_stack@).drop_last());
                l
            },
            None => {
                let l = LoopPatch { break_jumps: Vec::new(), continue_jumps: Vec::new() };
                assert(l@.breaks =~= Seq::<usize>::empty());
                assert(l@.continues =~= Seq::<usize>::empty());
                l
            },
        }
    }

    fn resolve(&mut self, l: &LoopPatch, break_target: usize, continue_target: usize)
        ensures
            final(self)@ == resolve_loop(old(self)@, l@, break_target, continue_target),
            same_header(final(self).function, old(self).function),
    {
        self.patch_list(&l.break_jumps, break_target);
        self.patch_list(&l.continue_jumps, continue_target);
    }

    fn record(&mut self, is_break: bool)
        requires
            old(self)@.loops.len() > 0,
        ensures
            final(self)@ == record_jump(old(self)@, is_break),
            same_header(final(self).function, old(self).function),
    {
        let jump = self.emit(Instruction::Jump { target: usize::MAX });
        let mut lp = match self.loop_stack.pop() {
            Some(l) => l,
            None => LoopPatch { break_jumps: Vec::new(), continue_jumps: Vec::new() },
        };
        let ghost before = lp@;
        if is_break {
            lp.break_jumps.push(jump);
        } else {
            lp.continue_jumps.push(jump);
        }
        self.loop_stack.push(lp);
        proof {
            let s = old(self)@;
            assert(loop_views(self.loop_stack@) =~= s.loops.update(s.loops.len() - 1, lp@));
        }
    }
}

fn param_name_list(ps: &Vec<FunctionParam>) -> (r: Vec<String>)
    ensures
        r@.map_values(|s: String| s@) == param_names(ps@),
{
    let mut r: Vec<String> = Vec::new();
    let mut i: usize = 0;
    while i < ps.len()
        invariant
            i <= ps@.len(),
            r@.len() == i,
            forall|k: int| 0 <= k < i ==> (#[trigger] r@[k])@ == ps@[k].name@,
        decreases ps.len() - i,
    {
        r.push(ps[i].name.clone());
        i = i + 1;
    }
    assert(r@.map_values(|s: String| s@) =~= param_names(ps@));
    r
}

fn clone_name(n: &Option<String>) -> (r: Option<String>)
    ensures
        opt_name(r) == opt_name(*n),
{
    match n {
        Some(s) => Some(s.clone()),
        None => None,
    }
}

impl Compiler {
    fn compile_stmts(&mut self, ss: &Vec<Stmt>) -> (r: Result<(), CompileError>)
        ensures
            step_ok(r, gen_stmts(old(self)@, ss@), final(self)@),
            same_header(final(self).function, old(self).function),
        decreases ss@, 1nat,
    {
        let ghost s0 = self@;
        let mut i: usize = 0;
        assert(ss@.take(0) =~= Seq::<Stmt>::empty());
        while i < ss.len()
            invariant
                i <= ss@.len(),
                s0 == old(self)@,
                gen_stmts(s0, ss@.take(i as int)) == Ok::<GenState, ErrView>(self@),
                same_header(self.function, old(self).function),
            decreases ss.len() - i,
        {
            assert(ss@.take(i + 1).drop_last() =~= ss@.take(i as int));
            assert(ss@.take(i + 1).last() == ss@[i as int]);
            let ghost before = self@;
            match self.compile_stmt(&ss[i]) {
                Err(e) => {
                    proof {
                        assert(gen_stmts(s0, ss@.take(i + 1)) == gen_stmt(before, ss@[i as int]));
                        lemma_stmts_err(s0, ss@, i + 1);
                    }
                    return Err(e);
                },
                Ok(()) => {},
            }
            i = i + 1;
        }
        assert(ss@.take(ss.len() as int) =~= ss@);
        Ok(())
    }

    fn compile_exprs(&mut self, es: &Vec<Expr>) -> (r: Result<(), CompileError>)
        ensures
            step_ok(r, gen_exprs(old(self)@, es@), final(self)@),
            same_header(final(self).function, old(self).function),
        decreases es@, 1nat,
    {
        let ghost s0 = self@;
        let mut i: usize = 0;
        assert(es@.take(0) =~= Seq::<Expr>::empty());
        while i < es.len()
            invariant
                i <= es@.len(),
                s0 == old(self)@,
                gen_exprs(s0, es@.take(i as int)) == Ok::<GenState, ErrView>(self@),
                same_header(self.function, old(self).function),
            decreases es.len() - i,
        {
            assert(es@.take(i + 1).drop_last() =~= es@.take(i as int));
            assert(es@.take(i + 1).last() == es@[i as int]);
            let ghost before = self@;
            match self.compile_expr(&es[i]) {
                Err(e) => {
                    proof {
                        assert(gen_exprs(s0, es@.take(i + 1)) == gen_expr(before, es@[i as int]));
                        lemma_exprs_err(s0, es@, i + 1);
                    }
                    return Err(e);
                },
                Ok(()) => {},
            }
            i = i + 1;
        }
        assert(es@.take(es.len() as int) =~= es@);
        Ok(())
    }

    fn compile_items(&mut self, items: &Vec<Option<Expr>>) -> (r: Result<(), CompileError>)
        ensures
            step_ok(r, gen_items(old(self)@, items@), final(self)@),
            same_header(final(self).function, old(self).function),
        decreases items@, 1nat,
    {
        let ghost s0 = self@;
        let mut i: usize = 0;
        assert(items@.take(0) =~= Seq::<Option<Expr>>::empty());
        while i < items.len()
            invariant
                i <= items@.len(),
                s0 == old(self)@,
                gen_items(s0, items@.take(i as int)) == Ok::<GenState, ErrView>(self@),
                same_header(self.function, old(self).function),
            decreases items.len() - i,
        {
            assert(items@.take(i + 1).drop_last() =~= items@.take(i as int));
            assert(items@.take(i + 1).last() == items@[i as int]);
            let ghost before = self@;
            match &items[i] {
                Some(x) => {
                    match self.compile_expr(x) {
                        Err(e) => {
                            proof {
                                assert(gen_items(s0, items@.take(i + 1)) == gen_expr(before, *x));
                                lemma_items_err(s0, items@, i + 1);
                            }
                            return Err(e);
                        },
                        Ok(()) => {},
                    }
                },
                None => {
                    self.emit(Instruction::LoadUndefined);
                },
            }
            i = i + 1;
        }
        assert(items@.take(items.len() as int) =~= items@);
        Ok(())
    }

    fn compile_props(&mut self, ps: &Vec<ObjectProperty>) -> (r: Result<(), CompileError>)
        ensures
            step_ok(r, gen_props(old(self)@, ps@), final(self)@),
            same_header(final(self).function, old(self).function),
        decreases ps@, 1nat,
    {
        let ghost s0 = self@;
        let mut i: usize = 0;
        assert(ps@.take(0) =~= Seq::<ObjectProperty>::empty());
        while i < ps.len()
            invariant
                i <= ps@.len(),
                s0 == old(self)@,
                gen_props(s0, ps@.take(i as int)) == Ok::<GenState, ErrView>(self@),
                same_header(self.function, old(self).function),
            decreases ps.len() - i,
        {
            assert(ps@.take(i + 1).drop_last() =~= ps@.take(i as int));
            assert(ps@.take(i + 1).last() == ps@[i as int]);
            let p = &ps[i];
            let ghost before = self@;
            match self.compile_expr(&p.value) {
                Err(e) => {
                    proof {
                        assert(gen_props(s0, ps@.take(i + 1)) == gen_expr(before, p.value));
                        lemma_props_err(s0, ps@, i + 1);
                    }
                    return Err(e);
                },
                Ok(()) => {},
            }
            self.emit(Instruction::DefineProperty(p.key.clone()));
            i = i + 1;
        }
        assert(ps@.take(ps.len() as int) =~= ps@);
        Ok(())
    }

    fn compile_var_decl(&mut self, decl: &VarDecl) -> (r: Result<(), CompileError>)
        ensures
            step_ok(r, gen_decls(old(self)@, decl.declarations@), final(self)@),
            same_header(final(self).function, old(self).function),
        decreases decl.declarations@, 1nat,
    {
        let ds = &decl.declarations;
        let ghost s0 = self@;
        let mut i: usize = 0;
        assert(ds@.take(0) =~= Seq::<VarDeclarator>::empty());
        while i < ds.len()
            invariant
                ds == &decl.declarations,
                i <= ds@.len(),
                s0 == old(self)@,
                gen_decls(s0, ds@.take(i as int)) == Ok::<GenState, ErrView>(self@),
                same_header(self.function, old(self).function),
            decreases ds.len() - i,
        {
            assert(ds@.take(i + 1).drop_last() =~= ds@.take(i as int));
            assert(ds@.take(i + 1).last() == ds@[i as int]);
            let d = &ds[i];
            let name = match &d.id {
                BindingPattern::Identifier(n) => n,
            };
            let ghost before = self@;
            self.emit(Instruction::DeclareName(name.clone()));
            match &d.init {
                Some(x) => {
                    match self.compile_expr(x) {
                        Err(e) => {
                            proof {
                                assert(gen_decls(s0, ds@.take(i + 1)) == gen_expr(emit(before, Instr::DeclareName(name@)), *x));
                                lemma_decls_err(s0, ds@, i + 1);
                            }
                            return Err(e);
                        },
                        Ok(()) => {},
                    }
                },
                None => {
                    self.emit(Instruction::LoadUndefined);
                },
            }
            self.emit(Instruction::StoreName(name.clone()));
            self.emit(Instruction::Pop);
            i = i + 1;
        }
        assert(ds@.take(ds.len() as int) =~= ds@);
        Ok(())
    }

    fn compile_function_decl(&mut self, f: &FunctionDecl) -> (r: Result<(), CompileError>)
        ensures
            step_ok(
                r,
                match gen_function(Some(f.name@), param_names(f.params@), f.body@, f.span) {
                    Err(err) => Err(err),
                    Ok(fv) => Ok(emit(emit(load_const(old(self)@, ConstView::Function(fv)), Instr::StoreName(f.name@)), Instr::Pop)),
                },
                final(self)@,
            ),
            same_header(final(self).function, old(self).function),
        decreases f.body@, 4nat,
    {
        match compile_function(f) {
            Err(e) => Err(e),
            Ok(compiled) => {
                self.load_constant(Constant::Function(compiled));
                self.emit(Instruction::StoreName(f.name.clone()));
                self.emit(Instruction::Pop);
                Ok(())
            },
        }
    }
}

fn compile_function(f: &FunctionDecl) -> (r: Result<BytecodeFunction, CompileError>)
    ensures
        match gen_function(Some(f.name@), param_names(f.params@), f.body@, f.span) {
            Ok(fv) => r is Ok && fn_view(r->Ok_0) == fv,
            Err(e) => r is Err && r->Err_0@ == e,
        },
    decreases f.body@, 3nat,
{
    let params = param_name_list(&f.params);
    compile_function_parts(Some(f.name.clone()), params, &f.body, f.span)
}

fn compile_function_parts(name: Option<String>, params: Vec<String>, body: &Vec<Stmt>, span: Span) -> (r: Result<
    BytecodeFunction,
    CompileError,
>)
    ensures
        match gen_function(opt_name(name), params@.map_values(|s: String| s@), body@, span) {
            Ok(fv) => r is Ok && fn_view(r->Ok_0) == fv,
            Err(e) => r is Err && r->Err_0@ == e,
        },
    decreases body@, 2nat,
{
    let ghost nv = opt_name(name);
    let ghost pv = params@.map_values(|s: String| s@);
    let mut compiler = Compiler::new(BytecodeFunction::new(name, params, span));
    proof {
        assert(compiler@.code =~= Seq::<Instr>::empty());
        assert(compiler@.consts =~= Seq::<ConstView>::empty());
        assert(compiler@.loops =~= Seq::<LoopView>::empty());
        assert(compiler@ == fresh_state());
    }
    match compiler.compile_stmts(body) {
        Err(e) => return Err(e),
        Ok(()) => {},
    }
    compiler.emit(Instruction::LoadUndefined);
    compiler.emit(Instruction::Return);
    let f = compiler.function;
    proof {
        lemma_fn_view_constants(f);
        assert(fn_view(f).params =~= pv);
    }
    Ok(f)
}

impl Compiler {
    fn compile_expr(&mut self, expr: &Expr) -> (r: Result<(), CompileError>)
        ensures
            step_ok(r, gen_expr(old(self)@, *expr), final(self)@),
            same_header(final(self).function, old(self).function),
        decreases *expr, 1nat,
    {
        match &expr.kind {
            ExprKind::Literal(literal) => {
                let constant = match literal {
                    Literal::Number(value) => Constant::Number(value.clone()),
                    Literal::String(value) => Constant::String(value.clone()),
                    Literal::Boolean(value) => Constant::Boolean(*value),
                    Literal::Null => Constant::Null,
                    Literal::Undefined => Constant::Undefined,
                };
                assert(const_view(constant) == literal_const(*literal));
                self.load_constant(constant);
            },
            ExprKind::Identifier(name) => {
                self.emit(Instruction::LoadName(name.clone()));
            },
            ExprKind::This => {
                self.emit(Instruction::LoadName(owned("this")));
            },
            ExprKind::Array(items) => {
                match self.compile_items(items) {
                    Err(e) => return Err(e),
                    Ok(()) => {},
                }
                self.emit(Instruction::NewArray(items.len()));
            },
            ExprKind::Object(properties) => {
                self.emit(Instruction::NewObject);
                match self.compile_props(properties) {
                    Err(e) => return Err(e),
                    Ok(()) => {},
                }
            },
            ExprKind::Unary { op, argument } => {
                match self.compile_expr(argument) {
                    Err(e) => return Err(e),
                    Ok(()) => {},
                }
                self.emit(Instruction::Unary(*op));
            },
            ExprKind::Binary { op, left, right } => {
                match self.compile_expr(left) {
                    Err(e) => return Err(e),
                    Ok(()) => {},
                }
                match self.compile_expr(right) {
                    Err(e) => return Err(e),
                    Ok(()) => {},
                }
                self.emit(Instruction::Binary(*op));
            },
            ExprKind::Assign { .. } => {
                return self.compile_assignment(expr);
            },
            ExprKind::Member { object, property } => {
                match self.compile_expr(object) {
                    Err(e) => return Err(e),
                    Ok(()) => {},
                }
                match property {
                    MemberProperty::Ident(name) => {
                        self.emit(Instruction::GetNamedProperty(name.clone()));
                    },
                    MemberProperty::Computed(x) => {
                        match self.compile_expr(x) {
                            Err(e) => return Err(e),
                            Ok(()) => {},
                        }
                        self.emit(Instruction::GetProperty);
                    },
                }
            },
            ExprKind::Call { callee, arguments } => {
                match self.compile_expr(callee) {
                    Err(e) => return Err(e),
                    Ok(()) => {},
                }
                match self.compile_exprs(arguments) {
                    Err(e) => return Err(e),
                    Ok(()) => {},
                }
                self.emit(Instruction::Call(arguments.len()));
            },
            ExprKind::Function { name, params, body } => {
                let n = clone_name(name);
                let ps = param_name_list(params);
                match compile_function_parts(n, ps, body, expr.span) {
                    Err(e) => return Err(e),
                    Ok(nested) => {
                        self.load_constant(Constant::Function(nested));
                    },
                }
            },
            ExprKind::New { callee, arguments } => {
                match self.compile_expr(callee) {
                    Err(e) => return Err(e),
                    Ok(()) => {},
                }
                match self.compile_exprs(arguments) {
                    Err(e) => return Err(e),
                    Ok(()) => {},
                }
                self.emit(Instruction::New(arguments.len()));
            },
            ExprKind::Conditional { test, consequent, alternate } => {
                match self.compile_expr(test) {
                    Err(e) => return Err(e),
                    Ok(()) => {},
                }
                let else_jump = self.emit(Instruction::JumpIfFalse { target: usize::MAX });
                match self.compile_expr(consequent) {
                    Err(e) => return Err(e),
                    Ok(()) => {},
                }
                let end_jump = self.emit(Instruction::Jump { target: usize::MAX });
                let else_target = self.here_exec();
                self.patch(else_jump, else_target);
                match self.compile_expr(alternate) {
                    Err(e) => return Err(e),
                    Ok(()) => {},
                }
                let end_target = self.here_exec();
                self.patch(end_jump, end_target);
            },
        }
        Ok(())
    }

    fn compile_assignment(&mut self, expr: &Expr) -> (r: Result<(), CompileError>)
        ensures
            step_ok(r, gen_assign(old(self)@, *expr), final(self)@),
            same_header(final(self).function, old(self).function),
        decreases *expr, 0nat,
    {
        match &expr.kind {
            ExprKind::Assign { op, left, right } => {
                match &left.kind {
                    ExprKind::Identifier(name) => {
                        if *op == AssignOp::Assign {
                            match self.compile_expr(right) {
                                Err(e) => return Err(e),
                                Ok(()) => {},
                            }
                        } else {
                            self.emit(Instruction::LoadName(name.clone()));
                            match self.compile_expr(right) {
                                Err(e) => return Err(e),
                                Ok(()) => {},
                            }
                            self.emit(Instruction::Assignment(*op));
                        }
                        self.emit(Instruction::StoreName(name.clone()));
                    },
                    ExprKind::Member { object, property } => {
                        match self.compile_expr(object) {
                            Err(e) => return Err(e),
                            Ok(()) => {},
                        }
                        match property {
                            MemberProperty::Ident(name) => {
                                if *op == AssignOp::Assign {
                                    match self.compile_expr(right) {
                                        Err(e) => return Err(e),
                                        Ok(()) => {},
                                    }
                                } else {
                                    self.emit(Instruction::Dup);
                                    self.emit(Instruction::GetNamedProperty(name.clone()));
                                    match self.compile_expr(right) {
                                        Err(e) => return Err(e),
                                        Ok(()) => {},
                                    }
                                    self.emit(Instruction::Assignment(*op));
                                }
                                self.emit(Instruction::SetNamedProperty(name.clone()));
                            },
                            MemberProperty::Computed(property_expr) => {
                                match self.compile_expr(property_expr) {
                                    Err(e) => return Err(e),
                                    Ok(()) => {},
                                }
                                if *op == AssignOp::Assign {
                                    match self.compile_expr(right) {
                                        Err(e) => return Err(e),
                                        Ok(()) => {},
                                    }
                                } else {
                                    return Err(
                                        CompileError::new(
                                            "compound assignment to computed properties is not supported in Module 29",
                                            left.span,
                                        ),
                                    );
                                }
                                self.emit(Instruction::SetProperty);
                            },
                        }
                    },
                    _ => {
                        return Err(CompileError::new("invalid assignment target", left.span));
                    },
                }
            },
            _ => {},
        }
        Ok(())
    }

    fn compile_stmt(&mut self, stmt: &Stmt) -> (r: Result<(), CompileError>)
        ensures
            step_ok(r, gen_stmt(old(self)@, *stmt), final(self)@),
            same_header(final(self).function, old(self).function),
        decreases *stmt, 1nat,
    {
        match &stmt.kind {
            StmtKind::Empty => {
                self.emit(Instruction::Nop);
            },
            StmtKind::Block(body) => {
                self.emit(Instruction::EnterScope);
                match self.compile_stmts(body) {
                    Err(e) => return Err(e),
                    Ok(()) => {},
                }
                self.emit(Instruction::ExitScope);
            },
            StmtKind::Expr(x) => {
                match self.compile_expr(x) {
                    Err(e) => return Err(e),
                    Ok(()) => {},
                }
                self.emit(Instruction::Pop);
            },
            StmtKind::VarDecl(decl) => {
                return self.compile_var_decl(decl);
            },
            StmtKind::FunctionDecl(f) => {
                return self.compile_function_decl(f);
            },
            StmtKind::Return(argument) => {
                match argument {
                    Some(x) => {
                        match self.compile_expr(x) {
                            Err(e) => return Err(e),
                            Ok(()) => {},
                        }
                    },
                    None => {
                        self.emit(Instruction::LoadUndefined);
                    },
                }
                self.emit(Instruction::Return);
            },
            StmtKind::If { test, consequent, alternate } => {
                match self.compile_expr(test) {
                    Err(e) => return Err(e),
                    Ok(()) => {},
                }
                let else_jump = self.emit(Instruction::JumpIfFalse { target: usize::MAX });
                match self.compile_stmt(consequent) {
                    Err(e) => return Err(e),
                    Ok(()) => {},
                }
                let end_jump = self.emit(Instruction::Jump { target: usize::MAX });
                let else_target = self.here_exec();
                self.patch(else_jump, else_target);
                match alternate {
                    Some(a) => {
                        match self.compile_stmt(a) {
                            Err(e) => return Err(e),
                            Ok(()) => {},
                        }
                    },
                    None => {},
                }
                let end_target = self.here_exec();
                self.patch(end_jump, end_target);
            },
            StmtKind::While { test, body } => {
                let loop_start = self.here_exec();
                match self.compile_expr(test) {
                    Err(e) => return Err(e),
                    Ok(()) => {},
                }
                let exit_jump = self.emit(Instruction::JumpIfFalse { target: usize::MAX });
                self.open_loop_exec();
                match self.compile_stmt(body) {
                    Err(e) => return Err(e),
                    Ok(()) => {},
                }
                let patch = self.close_loop_exec();
                self.emit(Instruction::Jump { target: loop_start });
                let loop_end = self.here_exec();
                self.patch(exit_jump, loop_end);
                self.resolve(&patch, loop_end, loop_start);
            },
            StmtKind::For { init, test, update, body } => {
                self.emit(Instruction::EnterScope);
                match init {
                    Some(ForInit::VarDecl(decl)) => {
                        match self.compile_var_decl(decl) {
                            Err(e) => return Err(e),
                            Ok(()) => {},
                        }
                    },
                    Some(ForInit::Expr(x)) => {
                        match self.compile_expr(x) {
                            Err(e) => return Err(e),
                            Ok(()) => {},
                        }
                        self.emit(Instruction::Pop);
                    },
                    None => {},
                }
                let loop_start = self.here_exec();
                let exit_jump = match test {
                    Some(t) => {
                        match self.compile_expr(t) {
                            Err(e) => return Err(e),
                            Ok(()) => {},
                        }
                        Some(self.emit(Instruction::JumpIfFalse { target: usize::MAX }))
                    },
                    None => None,
                };
                self.open_loop_exec();
                match self.compile_stmt(body) {
                    Err(e) => return Err(e),
                    Ok(()) => {},
                }
                let continue_target = self.here_exec();
                match update {
                    Some(u) => {
                        match self.compile_expr(u) {
                            Err(e) => return Err(e),
                            Ok(()) => {},
                        }
                        self.emit(Instruction::Pop);
                    },
                    None => {},
                }
                self.emit(Instruction::Jump { target: loop_start });
                let loop_end = self.here_exec();
                match exit_jump {
                    Some(j) => self.patch(j, loop_end),
                    None => {},
                }
                let patch = self.close_loop_exec();
                self.resolve(&patch, loop_end, continue_target);
                self.emit(Instruction::ExitScope);
            },
            StmtKind::Break => {
                if self.loop_stack.len() == 0 {
                    return Err(CompileError::new("`break` outside loop", stmt.span));
                }
                self.record(true);
            },
            StmtKind::Continue => {
                if self.loop_stack.len() == 0 {
                    return Err(CompileError::new("`continue` outside loop", stmt.span));
                }
                self.record(false);
            },
        }
        Ok(())
    }
}

/// The model of compiling a program: its statements from a fresh state,
/// then, when asked for, an implicit `return undefined`; the function is
/// named `<script>` and takes no parameters.
pub open spec fn program_code(p: Program, options: CompileOptions) -> Result<FnView, ErrView> {
    match gen_stmts(fresh_state(), p.body@) {
        Err(e) => Err(e),
        Ok(st) => Ok(
            FnView {
                name: Some("<script>"@),
                params: Seq::empty(),
                constants: st.consts,
                instructions: if options.implicit_return_undefined {
                    st.code.push(Instr::LoadUndefined).push(Instr::Return)
                } else {
                    st.code
                },
                span: p.span,
            },
        ),
    }
}

/// Compiles a program to a top-level bytecode function.
pub fn compile_program(program: &Program, options: CompileOptions) -> (r: Result<BytecodeFunction, CompileError>)
    ensures
        match program_code(*program, options) {
            Ok(fv) => r is Ok && fn_view(r->Ok_0) == fv,
            Err(e) => r is Err && r->Err_0@ == e,
        },
{
    let mut compiler = Compiler::new(BytecodeFunction::new(Some(owned("<script>")), Vec::new(), program.span));
    proof {
        assert(compiler@.code =~= Seq::<Instr>::empty());
        assert(compiler@.consts =~= Seq::<ConstView>::empty());
        assert(compiler@.loops =~= Seq::<LoopView>::empty());
        assert(compiler@ == fresh_state());
    }
    match compiler.compile_stmts(&program.body) {
        Err(e) => return Err(e),
        Ok(()) => {},
    }
    if options.implicit_return_undefined {
        compiler.emit(Instruction::LoadUndefined);
        compiler.emit(Instruction::Return);
    }
    let f = compiler.function;
    proof {
        lemma_fn_view_constants(f);
        assert(fn_view(f).params =~= Seq::<Seq<char>>::empty());
    }
    Ok(f)
}

// ---------------------------------------------------------------------------
// Every jump of compiled code lands inside it
// ---------------------------------------------------------------------------

/// The target of a jump instruction.
pub open spec fn jump_target(i: Instr) -> Option<usize> {
    match i {
        Instr::Jump(t) => Some(t),
        Instr::JumpIfFalse(t) => Some(t),
        Instr::JumpIfTruthy(t) => Some(t),
        _ => None,
    }
}

/// Position `p` waits in one of the open loops.
pub open spec fn waiting(loops: Seq<LoopView>, p: usize) -> bool {
    exists|j: int| 0 <= j < loops.len() && (#[trigger] loops[j].breaks.contains(p) || loops[j].continues.contains(p))
}

/// The open loops wait only on unconditional jumps of the code.
pub open spec fn loops_ok(st: GenState) -> bool {
    forall|j: int, x: usize|
        0 <= j < st.loops.len() && (#[trigger] st.loops[j].breaks.contains(x) || st.loops[j].continues.contains(x))
            ==> x < st.code.len() && st.code[x as int] is Jump
}

/// The instruction at `p` is no jump, or lands inside the code, or waits in
/// an open loop.
pub open spec fn landed_at(st: GenState, p: int) -> bool {
    jump_target(st.code[p]) is Some ==> jump_target(st.code[p])->Some_0 <= st.code.len() || waiting(st.loops, p as usize)
}

/// Every instruction from `lo` up to `hi` has landed.
pub open spec fn landed_range(st: GenState, lo: int, hi: int) -> bool {
    forall|p: int| lo <= p < hi ==> #[trigger] landed_at(st, p)
}

/// The open loops of `b` wait on at least what those of `a` wait on.
pub open spec fn loops_grow(a: GenState, b: GenState) -> bool {
    &&& b.loops.len() == a.loops.len()
    &&& forall|j: int, x: usize|
        0 <= j < a.loops.len() && #[trigger] a.loops[j].breaks.contains(x) ==> b.loops[j].breaks.contains(x)
    &&& forall|j: int, x: usize|
        0 <= j < a.loops.len() && #[trigger] a.loops[j].continues.contains(x) ==> b.loops[j].continues.contains(x)
}

/// What the open loops of `b` wait on beyond those of `a` lies at or after `base`.
pub open spec fn new_waits_from(a: GenState, b: GenState, base: int) -> bool {
    &&& forall|j: int, x: usize|
        0 <= j < a.loops.len() && #[trigger] b.loops[j].breaks.contains(x) && !a.loops[j].breaks.contains(x) ==> x >= base
    &&& forall|j: int, x: usize|
        0 <= j < a.loops.len() && #[trigger] b.loops[j].continues.contains(x) && !a.loops[j].continues.contains(x) ==> x
            >= base
}

/// What compiling a piece keeps: the code before it, the open loops and what
/// they wait on (anything new lies in the piece), and the loops' hold on
/// unconditional jumps.
pub open spec fn keeps(st: GenState, st2: GenState) -> bool {
    &&& st.code.len() <= st2.code.len()
    &&& forall|p: int| 0 <= p < st.code.len() ==> #[trigger] st2.code[p] == st.code[p]
    &&& loops_grow(st, st2)
    &&& new_waits_from(st, st2, st.code.len() as int)
    &&& (loops_ok(st) ==> loops_ok(st2))
}

/// A good step: while the code stays addressable, it keeps what it must
/// and every instruction it emitted has landed.
pub open spec fn step_good(a: GenState, b: GenState) -> bool {
    b.code.len() < usize::MAX ==> keeps(a, b) && (loops_ok(a) ==> landed_range(b, a.code.len() as int, b.code.len() as int))
}

/// A compile step is good whenever it succeeds.
pub open spec fn sound_step(st: GenState, r: Result<GenState, ErrView>) -> bool {
    match r {
        Err(_) => true,
        Ok(st2) => step_good(st, st2),
    }
}

/// The jump at `p` in `b` is the one in `a`, or none, or lands inside `b`.
pub open spec fn tgt_ok(a: GenState, b: GenState, p: int) -> bool {
    ||| jump_target(b.code[p]) is None
    ||| jump_target(b.code[p]) == jump_target(a.code[p])
    ||| jump_target(b.code[p])->Some_0 <= b.code.len()
}

/// Every jump of `a` is in `b` unchanged or landed.
pub open spec fn tgt_step(a: GenState, b: GenState) -> bool {
    &&& a.code.len() <= b.code.len()
    &&& forall|p: int| 0 <= p < a.code.len() ==> #[trigger] tgt_ok(a, b, p)
}

proof fn lemma_tgt_trans(a: GenState, b: GenState, c: GenState)
    requires
        tgt_step(a, b),
        tgt_step(b, c),
    ensures
        tgt_step(a, c),
{
    assert forall|p: int| 0 <= p < a.code.len() implies #[trigger] tgt_ok(a, c, p) by {
        assert(tgt_ok(a, b, p));
        assert(tgt_ok(b, c, p));
    }
}

proof fn lemma_keeps_tgt(a: GenState, b: GenState)
    requires
        keeps(a, b),
    ensures
        tgt_step(a, b),
{
    assert forall|p: int| 0 <= p < a.code.len() implies #[trigger] tgt_ok(a, b, p) by {
        assert(b.code[p] == a.code[p]);
    }
}

proof fn lemma_grow_trans(a: GenState, b: GenState, c: GenState)
    requires
        loops_grow(a, b),
        loops_grow(b, c),
    ensures
        loops_grow(a, c),
{
}

/// Landing carries over to a later state whose jumps there are unchanged or
/// landed, and whose loops wait on at least as much.
proof fn lemma_range_carry(a: GenState, c: GenState, lo: int, hi: int)
    requires
        0 <= lo <= hi <= a.code.len(),
        tgt_step(a, c),
        loops_grow(a, c),
        landed_range(a, lo, hi),
    ensures
        landed_range(c, lo, hi),
{
    assert forall|p: int| lo <= p < hi implies #[trigger] landed_at(c, p) by {
        assert(landed_at(a, p));
        assert(tgt_ok(a, c, p));
        if jump_target(c.code[p]) is Some && jump_target(c.code[p]) == jump_target(a.code[p]) && !(jump_target(a.code[p])->Some_0
            <= a.code.len()) {
            assert(waiting(a.loops, p as usize));
            let j = choose|j: int| 0 <= j < a.loops.len() && (#[trigger] a.loops[j].breaks.contains(p as usize) || a.loops[j].continues.contains(p as usize));
            if a.loops[j].breaks.contains(p as usize) {
                assert(c.loops[j].breaks.contains(p as usize));
            } else {
                assert(c.loops[j].continues.contains(p as usize));
            }
            assert(waiting(c.loops, p as usize));
        }
    }
}

proof fn lemma_keeps_trans(a: GenState, b: GenState, c: GenState)
    requires
        keeps(a, b),
        keeps(b, c),
    ensures
        keeps(a, c),
{
    assert forall|p: int| 0 <= p < a.code.len() implies #[trigger] c.code[p] == a.code[p] by {
        assert(c.code[p] == b.code[p]);
    }
}

proof fn lemma_chain(a: GenState, b: GenState, c: GenState)
    requires
        step_good(a, b),
        step_good(b, c),
    ensures
        step_good(a, c),
{
    if c.code.len() < usize::MAX {
        lemma_keeps_trans(a, b, c);
        if loops_ok(a) {
            lemma_keeps_tgt(b, c);
            lemma_range_carry(b, c, a.code.len() as int, b.code.len() as int);
        }
    }
}

proof fn lemma_emit(st: GenState, i: Instr)
    ensures
        keeps(st, emit(st, i)),
        emit(st, i).code.len() == st.code.len() + 1,
        emit(st, i).code[st.code.len() as int] == i,
        emit(st, i).loops == st.loops,
        jump_target(i) is None ==> step_good(st, emit(st, i)),
{
    let s2 = emit(st, i);
    assert(s2.code[st.code.len() as int] == i);
    if loops_ok(st) {
        assert forall|j: int, x: usize|
            0 <= j < s2.loops.len() && (#[trigger] s2.loops[j].breaks.contains(x) || s2.loops[j].continues.contains(x))
                implies x < s2.code.len() && s2.code[x as int] is Jump by {
            if st.loops[j].breaks.contains(x) {
                assert(x < st.code.len() && st.code[x as int] is Jump);
            } else {
                assert(st.loops[j].continues.contains(x));
                assert(x < st.code.len() && st.code[x as int] is Jump);
            }
            assert(s2.code[x as int] == st.code[x as int]);
        }
    }
    if jump_target(i) is None {
        assert(landed_at(s2, st.code.len() as int));
    }
}

proof fn lemma_emit_good(st: GenState, i: Instr)
    requires
        jump_target(i) is None,
    ensures
        step_good(st, emit(st, i)),
{
    lemma_emit(st, i);
}

proof fn lemma_load_const(st: GenState, c: ConstView)
    ensures
        step_good(st, load_const(st, c)),
{
    let s1 = GenState { consts: st.consts.push(c), ..st };
    lemma_emit(s1, Instr::LoadConst(const_index(st.consts.len())));
    assert(keeps(st, s1));
}

proof fn lemma_patch_step(a: GenState, i: usize, t: usize)
    ensures
        patch_at(a, i, t).code.len() == a.code.len(),
        patch_at(a, i, t).loops == a.loops,
        forall|p: int| 0 <= p < a.code.len() && p != i ==> #[trigger] patch_at(a, i, t).code[p] == a.code[p],
        i < a.code.len() && jump_target(a.code[i as int]) is Some ==> jump_target(patch_at(a, i, t).code[i as int]) == Some(t),
        loops_ok(a) ==> loops_ok(patch_at(a, i, t)),
        loops_grow(a, patch_at(a, i, t)),
        t <= a.code.len() ==> tgt_step(a, patch_at(a, i, t)),
{
    let b = patch_at(a, i, t);
    if loops_ok(a) {
        assert forall|j: int, x: usize|
            0 <= j < b.loops.len() && (#[trigger] b.loops[j].breaks.contains(x) || b.loops[j].continues.contains(x))
                implies x < b.code.len() && b.code[x as int] is Jump by {
            if b.loops[j].breaks.contains(x) {
                assert(a.loops[j].breaks.contains(x));
            } else {
                assert(a.loops[j].continues.contains(x));
            }
            assert(x < a.code.len() && a.code[x as int] is Jump);
        }
    }
    if t <= a.code.len() {
        assert forall|p: int| 0 <= p < a.code.len() implies #[trigger] tgt_ok(a, b, p) by {
            if p != i {
                assert(b.code[p] == a.code[p]);
            }
        }
    }
}

proof fn lemma_patched_all(code: Seq<Instr>, ps: Seq<usize>, t: usize)
    ensures
        patched_all(code, ps, t).len() == code.len(),
        forall|p: int|
            0 <= p < code.len() ==> (jump_target(#[trigger] patched_all(code, ps, t)[p]) == jump_target(code[p])
                || jump_target(patched_all(code, ps, t)[p]) == Some(t)),
        forall|p: int| 0 <= p < code.len() ==> (#[trigger] patched_all(code, ps, t)[p] is Jump <==> code[p] is Jump),
        forall|p: int|
            0 <= p < code.len() && p <= usize::MAX && ps.contains(p as usize) && code[p] is Jump ==> #[trigger] patched_all(
                code,
                ps,
                t,
            )[p] == Instr::Jump(t),
        forall|p: int|
            0 <= p < code.len() && p <= usize::MAX && !ps.contains(p as usize) ==> #[trigger] patched_all(code, ps, t)[p]
                == code[p],
    decreases ps.len(),
{
    if ps.len() > 0 {
        let q = ps.drop_last();
        lemma_patched_all(code, q, t);
        let i = ps.last() as int;
        assert forall|p: int| 0 <= p < code.len() && p <= usize::MAX && !ps.contains(p as usize) implies #[trigger] patched_all(
            code,
            ps,
            t,
        )[p] == code[p] by {
            assert(!q.contains(p as usize)) by {
                if q.contains(p as usize) {
                    let k = choose|k: int| 0 <= k < q.len() && q[k] == p as usize;
                    assert(ps[k] == p as usize);
                }
            }
            assert(p != i) by {
                if p == i {
                    assert(ps[ps.len() - 1] == p as usize);
                }
            }
        }
        assert forall|p: int|
            0 <= p < code.len() && p <= usize::MAX && ps.contains(p as usize) && code[p] is Jump implies #[trigger] patched_all(
                code,
                ps,
                t,
            )[p] == Instr::Jump(t) by {
            if p != i {
                let k = choose|k: int| 0 <= k < ps.len() && ps[k] == p as usize;
                if k == ps.len() - 1 {
                    assert(ps.last() == p as usize);
                }
                assert(q[k] == p as usize);
                assert(q.contains(p as usize));
            }
        }
    }
}

proof fn lemma_resolve(st: GenState, l: LoopView, bt: usize, ct: usize)
    ensures
        resolve_loop(st, l, bt, ct).code.len() == st.code.len(),
        resolve_loop(st, l, bt, ct).loops == st.loops,
        forall|p: int|
            0 <= p < st.code.len() ==> (jump_target(#[trigger] resolve_loop(st, l, bt, ct).code[p]) == jump_target(st.code[p])
                || jump_target(resolve_loop(st, l, bt, ct).code[p]) == Some(bt) || jump_target(
                resolve_loop(st, l, bt, ct).code[p],
            ) == Some(ct)),
        forall|p: int|
            0 <= p < st.code.len() && p <= usize::MAX && (l.breaks.contains(p as usize) || l.continues.contains(p as usize))
                && st.code[p] is Jump ==> (jump_target(#[trigger] resolve_loop(st, l, bt, ct).code[p]) == Some(bt)
                || jump_target(resolve_loop(st, l, bt, ct).code[p]) == Some(ct)),
        forall|p: int|
            0 <= p < st.code.len() && p <= usize::MAX && !l.breaks.contains(p as usize) && !l.continues.contains(p as usize)
                ==> #[trigger] resolve_loop(st, l, bt, ct).code[p] == st.code[p],
        loops_ok(st) ==> loops_ok(resolve_loop(st, l, bt, ct)),
        loops_grow(st, resolve_loop(st, l, bt, ct)),
        bt <= st.code.len() && ct <= st.code.len() ==> tgt_step(st, resolve_loop(st, l, bt, ct)),
{
    let c1 = patched_all(st.code, l.breaks, bt);
    lemma_patched_all(st.code, l.breaks, bt);
    lemma_patched_all(c1, l.continues, ct);
    let r = resolve_loop(st, l, bt, ct);
    assert forall|p: int| 0 <= p < st.code.len() implies (jump_target(#[trigger] r.code[p]) == jump_target(st.code[p])
        || jump_target(r.code[p]) == Some(bt) || jump_target(r.code[p]) == Some(ct)) by {
        assert(jump_target(c1[p]) == jump_target(st.code[p]) || jump_target(c1[p]) == Some(bt));
        assert(jump_target(r.code[p]) == jump_target(c1[p]) || jump_target(r.code[p]) == Some(ct));
    }
    assert forall|p: int|
        0 <= p < st.code.len() && p <= usize::MAX && (l.breaks.contains(p as usize) || l.continues.contains(p as usize))
            && st.code[p] is Jump implies (jump_target(#[trigger] r.code[p]) == Some(bt) || jump_target(r.code[p]) == Some(ct)) by {
        if l.continues.contains(p as usize) {
            assert(c1[p] is Jump);
            assert(r.code[p] == Instr::Jump(ct));
        } else {
            assert(c1[p] == Instr::Jump(bt));
            assert(jump_target(r.code[p]) == jump_target(c1[p]) || jump_target(r.code[p]) == Some(ct));
        }
    }
    if loops_ok(st) {
        assert forall|j: int, x: usize|
            0 <= j < r.loops.len() && (#[trigger] r.loops[j].breaks.contains(x) || r.loops[j].continues.contains(x))
                implies x < r.code.len() && r.code[x as int] is Jump by {
            if r.loops[j].breaks.contains(x) {
                assert(st.loops[j].breaks.contains(x));
            } else {
                assert(st.loops[j].continues.contains(x));
            }
            assert(x < st.code.len() && st.code[x as int] is Jump);
            assert(c1[x as int] is Jump);
            assert(r.code[x as int] is Jump);
        }
    }
    if bt <= st.code.len() && ct <= st.code.len() {
        assert forall|p: int| 0 <= p < st.code.len() implies #[trigger] tgt_ok(st, r, p) by {
            assert(jump_target(r.code[p]) == jump_target(st.code[p]) || jump_target(r.code[p]) == Some(bt)
                || jump_target(r.code[p]) == Some(ct));
        }
    }
}

proof fn lemma_good_refl(st: GenState)
    ensures
        step_good(st, st),
{
}

/// The shape of a two-way branch: test, a conditional jump over the first
/// arm, the first arm, a jump over the second arm, the second arm; both
/// jumps patched to land right after what they skip.
proof fn lemma_branches(st: GenState, s1: GenState, s3: GenState, s6: GenState)
    requires
        step_good(st, s1),
        step_good(emit(s1, Instr::JumpIfFalse(placeholder())), s3),
        step_good(patch_at(emit(s3, Instr::Jump(placeholder())), here(s1), here(emit(s3, Instr::Jump(placeholder())))), s6),
    ensures
        step_good(st, patch_at(s6, here(s3), here(s6))),
{
    let s2 = emit(s1, Instr::JumpIfFalse(placeholder()));
    let s4 = emit(s3, Instr::Jump(placeholder()));
    let s5 = patch_at(s4, here(s1), here(s4));
    let s7 = patch_at(s6, here(s3), here(s6));
    lemma_patch_step(s6, here(s3), here(s6));
    if s7.code.len() < usize::MAX {
        lemma_patch_step(s4, here(s1), here(s4));
        lemma_emit(s3, Instr::Jump(placeholder()));
        lemma_emit(s1, Instr::JumpIfFalse(placeholder()));
        assert(keeps(s5, s6));
        assert(keeps(s2, s3));
        assert(keeps(st, s1));
        let n0 = st.code.len() as int;
        let n1 = s1.code.len() as int;
        let n3 = s3.code.len() as int;
        let n5 = s5.code.len() as int;
        assert(here(s1) as int == n1);
        assert(here(s3) as int == n3);
        assert(here(s4) as int == n3 + 1);
        assert(here(s6) as int == s6.code.len());
        // The code before the branch stays.
        assert forall|p: int| 0 <= p < n0 implies #[trigger] s7.code[p] == st.code[p] by {
            assert(s7.code[p] == s6.code[p]);
            assert(s6.code[p] == s5.code[p]);
            assert(s5.code[p] == s4.code[p]);
            assert(s4.code[p] == s3.code[p]);
            assert(s3.code[p] == s2.code[p]);
            assert(s2.code[p] == s1.code[p]);
        }
        lemma_grow_trans(st, s1, s2);
        lemma_grow_trans(st, s2, s3);
        lemma_grow_trans(st, s3, s4);
        lemma_grow_trans(st, s4, s5);
        lemma_grow_trans(st, s5, s6);
        lemma_grow_trans(st, s6, s7);
        assert(keeps(st, s7));
        if loops_ok(st) {
            assert(loops_ok(s2));
            assert(loops_ok(s5));
            // Jumps of earlier states reach s7 unchanged or landed.
            lemma_keeps_tgt(s1, s2);
            lemma_keeps_tgt(s2, s3);
            lemma_keeps_tgt(s3, s4);
            lemma_keeps_tgt(s5, s6);
            lemma_tgt_trans(s5, s6, s7);
            lemma_tgt_trans(s4, s5, s7);
            lemma_tgt_trans(s3, s4, s7);
            lemma_tgt_trans(s2, s3, s7);
            lemma_tgt_trans(s1, s2, s7);
            lemma_grow_trans(s1, s2, s3);
            lemma_grow_trans(s1, s3, s4);
            lemma_grow_trans(s1, s4, s5);
            lemma_grow_trans(s1, s5, s6);
            lemma_grow_trans(s1, s6, s7);
            lemma_grow_trans(s3, s4, s5);
            lemma_grow_trans(s3, s5, s6);
            lemma_grow_trans(s3, s6, s7);
            lemma_grow_trans(s6, s6, s7);
            lemma_range_carry(s1, s7, n0, n1);
            lemma_range_carry(s3, s7, n1 + 1, n3);
            lemma_range_carry(s6, s7, n5, s6.code.len() as int);
            assert(s7.code[n1] == s6.code[n1]);
            assert(s6.code[n1] == s5.code[n1]);
            assert(landed_at(s7, n1));
            assert(s6.code[n3] == s5.code[n3]);
            assert(s5.code[n3] == s4.code[n3]);
            assert(landed_at(s7, n3));
            assert forall|p: int| n0 <= p < s7.code.len() implies #[trigger] landed_at(s7, p) by {
                if p < n1 {
                    assert(landed_range(s7, n0, n1));
                } else if p == n1 {
                } else if p < n3 {
                    assert(landed_range(s7, n1 + 1, n3));
                } else if p == n3 {
                } else {
                    assert(landed_range(s7, n5, s6.code.len() as int));
                }
            }
        }
    }
}

/// Opening a loop keeps the code and adds a loop that waits on nothing.
proof fn lemma_open_loop(s: GenState)
    ensures
        open_loop(s).code == s.code,
        open_loop(s).loops.len() == s.loops.len() + 1,
        forall|j: int| 0 <= j < s.loops.len() ==> #[trigger] open_loop(s).loops[j] == s.loops[j],
        open_loop(s).loops[s.loops.len() as int].breaks.len() == 0,
        open_loop(s).loops[s.loops.len() as int].continues.len() == 0,
        loops_ok(s) ==> loops_ok(open_loop(s)),
{
    let o = open_loop(s);
    if loops_ok(s) {
        assert forall|j: int, x: usize|
            0 <= j < o.loops.len() && (#[trigger] o.loops[j].breaks.contains(x) || o.loops[j].continues.contains(x))
                implies x < o.code.len() && o.code[x as int] is Jump by {
            if j < s.loops.len() {
                assert(o.loops[j] == s.loops[j]);
                if s.loops[j].breaks.contains(x) {
                } else {
                    assert(s.loops[j].continues.contains(x));
                }
            } else {
                assert(o.loops[j].breaks.len() == 0);
                assert(o.loops[j].continues.len() == 0);
            }
        }
    }
}

/// After a loop body compiled from a freshly opened loop, closing the loop
/// returns the enclosing loops as they were, grown only past `base`.
proof fn lemma_close_after_body(s2: GenState, s4: GenState)
    requires
        keeps(open_loop(s2), s4),
    ensures
        s4.loops.len() == s2.loops.len() + 1,
        close_loop(s4).1.code == s4.code,
        loops_grow(s2, close_loop(s4).1),
        new_waits_from(s2, close_loop(s4).1, s2.code.len() as int),
        forall|x: usize| #[trigger] close_loop(s4).0.breaks.contains(x) ==> x >= s2.code.len(),
        forall|x: usize| #[trigger] close_loop(s4).0.continues.contains(x) ==> x >= s2.code.len(),
        close_loop(s4).0 == s4.loops[s2.loops.len() as int],
        forall|j: int| 0 <= j < s2.loops.len() ==> #[trigger] close_loop(s4).1.loops[j] == s4.loops[j],
        loops_ok(s4) ==> loops_ok(close_loop(s4).1),
{
    let o = open_loop(s2);
    lemma_open_loop(s2);
    let (l, c) = close_loop(s4);
    let k = s2.loops.len() as int;
    assert(s4.loops.len() == k + 1);
    assert forall|x: usize| #[trigger] l.breaks.contains(x) implies x >= s2.code.len() by {
        assert(s4.loops[k].breaks.contains(x));
        assert(!o.loops[k].breaks.contains(x));
    }
    assert forall|x: usize| #[trigger] l.continues.contains(x) implies x >= s2.code.len() by {
        assert(s4.loops[k].continues.contains(x));
        assert(!o.loops[k].continues.contains(x));
    }
    assert forall|j: int, x: usize| 0 <= j < s2.loops.len() && #[trigger] s2.loops[j].breaks.contains(x) implies c.loops[j].breaks.contains(x) by {
        assert(o.loops[j] == s2.loops[j]);
    }
    assert forall|j: int, x: usize| 0 <= j < s2.loops.len() && #[trigger] s2.loops[j].continues.contains(x) implies c.loops[j].continues.contains(x) by {
        assert(o.loops[j] == s2.loops[j]);
    }
    assert forall|j: int, x: usize|
        0 <= j < s2.loops.len() && #[trigger] c.loops[j].breaks.contains(x) && !s2.loops[j].breaks.contains(x) implies x
            >= s2.code.len() by {
        assert(o.loops[j] == s2.loops[j]);
    }
    assert forall|j: int, x: usize|
        0 <= j < s2.loops.len() && #[trigger] c.loops[j].continues.contains(x) && !s2.loops[j].continues.contains(x) implies x
            >= s2.code.len() by {
        assert(o.loops[j] == s2.loops[j]);
    }
    if loops_ok(s4) {
        assert forall|j: int, x: usize|
            0 <= j < c.loops.len() && (#[trigger] c.loops[j].breaks.contains(x) || c.loops[j].continues.contains(x))
                implies x < c.code.len() && c.code[x as int] is Jump by {
            assert(c.loops[j] == s4.loops[j]);
            if s4.loops[j].breaks.contains(x) {
            } else {
                assert(s4.loops[j].continues.contains(x));
            }
        }
    }
}

/// The jumps a closed loop waited on, and everything else emitted from
/// `lo` on, land once the loop is resolved.
proof fn lemma_body_landed(s4: GenState, c: GenState, l: LoopView, r: GenState, lo: int, hi: int, bt: usize, ct: usize)
    requires
        0 <= lo <= hi <= s4.code.len(),
        s4.code.len() < usize::MAX,
        s4.loops.len() > 0,
        c == close_loop(s4).1,
        l == close_loop(s4).0,
        loops_ok(s4),
        landed_range(s4, lo, hi),
        r.code.len() >= s4.code.len(),
        r.loops == c.loops,
        bt <= r.code.len(),
        ct <= r.code.len(),
        forall|p: int|
            lo <= p < hi ==> (jump_target(#[trigger] r.code[p]) == jump_target(s4.code[p]) || jump_target(r.code[p]) == Some(bt)
                || jump_target(r.code[p]) == Some(ct)),
        forall|p: int|
            lo <= p < hi && (l.breaks.contains(p as usize) || l.continues.contains(p as usize)) ==> (jump_target(
                #[trigger] r.code[p],
            ) == Some(bt) || jump_target(r.code[p]) == Some(ct)),
    ensures
        landed_range(r, lo, hi),
{
    let k = s4.loops.len() - 1;
    assert(l == s4.loops[k]);
    assert(c.loops == s4.loops.drop_last());
    assert forall|p: int| lo <= p < hi implies #[trigger] landed_at(r, p) by {
        assert(landed_at(s4, p));
        if jump_target(r.code[p]) is Some && jump_target(r.code[p]) == jump_target(s4.code[p]) && !(jump_target(
            s4.code[p],
        )->Some_0 <= s4.code.len()) {
            assert(waiting(s4.loops, p as usize));
            let q = p as usize;
            assert(exists|j: int| 0 <= j < s4.loops.len() && (#[trigger] s4.loops[j].breaks.contains(q) || s4.loops[j].continues.contains(q)));
            let j = choose|j: int| 0 <= j < s4.loops.len() && (#[trigger] s4.loops[j].breaks.contains(q) || s4.loops[j].continues.contains(q));
            assert(0 <= j < s4.loops.len());
            assert(s4.loops[j].breaks.contains(q) || s4.loops[j].continues.contains(q));
            if j == k {
                assert(l == s4.loops[k]);
                assert(l.breaks.contains(p as usize) || l.continues.contains(p as usize));
            } else {
                assert(c.loops[j] == s4.loops[j]);
                if s4.loops[j].breaks.contains(p as usize) {
                    assert(r.loops[j].breaks.contains(p as usize));
                } else {
                    assert(r.loops[j].continues.contains(p as usize));
                }
                assert(waiting(r.loops, p as usize));
            }
        }
    }
}

/// The shape of a `while` loop: test, a conditional exit, the body inside a
/// fresh loop, a jump back; the exit, the breaks and the continues patched.
proof fn lemma_while(st: GenState, s1: GenState, s3: GenState)
    requires
        step_good(st, s1),
        step_good(open_loop(emit(s1, Instr::JumpIfFalse(placeholder()))), s3),
    ensures
        ({
            let (l, s4) = close_loop(s3);
            let s5 = emit(s4, Instr::Jump(here(st)));
            step_good(st, resolve_loop(patch_at(s5, here(s1), here(s5)), l, here(s5), here(st)))
        }),
{
    let s2 = emit(s1, Instr::JumpIfFalse(placeholder()));
    let o = open_loop(s2);
    let (l, s4) = close_loop(s3);
    let s5 = emit(s4, Instr::Jump(here(st)));
    let le = here(s5);
    let s6 = patch_at(s5, here(s1), le);
    let w = resolve_loop(s6, l, le, here(st));
    lemma_resolve(s6, l, le, here(st));
    lemma_patch_step(s5, here(s1), le);
    lemma_emit(s4, Instr::Jump(here(st)));
    if w.code.len() < usize::MAX {
        lemma_emit(s1, Instr::JumpIfFalse(placeholder()));
        lemma_open_loop(s2);
        assert(keeps(o, s3));
        assert(keeps(st, s1));
        lemma_close_after_body(s2, s3);
        let n0 = st.code.len() as int;
        let n1 = s1.code.len() as int;
        let n3 = s3.code.len() as int;
        assert(here(st) as int == n0);
        assert(here(s1) as int == n1);
        assert(le as int == n3 + 1);
        // Loop waits are past the test.
        assert forall|p: int| 0 <= p <= n1 implies !(#[trigger] l.breaks.contains(p as usize)) && !l.continues.contains(p as usize) by {
            if l.breaks.contains(p as usize) {
                assert(p as usize >= s2.code.len());
            }
            if l.continues.contains(p as usize) {
                assert(p as usize >= s2.code.len());
            }
        }
        // The code before the loop stays.
        assert forall|p: int| 0 <= p < n0 implies #[trigger] w.code[p] == st.code[p] by {
            assert(!l.breaks.contains(p as usize) && !l.continues.contains(p as usize));
            assert(w.code[p] == s6.code[p]);
            assert(s6.code[p] == s5.code[p]);
            assert(s5.code[p] == s4.code[p]);
            assert(s3.code[p] == o.code[p]);
            assert(s2.code[p] == s1.code[p]);
        }
        lemma_grow_trans(st, s1, s2);
        lemma_grow_trans(st, s2, s4);
        assert(loops_grow(s4, w));
        lemma_grow_trans(st, s4, w);
        assert(new_waits_from(st, w, n0)) by {
            assert forall|j: int, x: usize|
                0 <= j < st.loops.len() && #[trigger] w.loops[j].breaks.contains(x) && !st.loops[j].breaks.contains(x) implies x
                    >= n0 by {
                assert(w.loops[j] == s4.loops[j]);
                if !s2.loops[j].breaks.contains(x) {
                    assert(x >= s2.code.len());
                }
            }
            assert forall|j: int, x: usize|
                0 <= j < st.loops.len() && #[trigger] w.loops[j].continues.contains(x) && !st.loops[j].continues.contains(x)
                    implies x >= n0 by {
                assert(w.loops[j] == s4.loops[j]);
                if !s2.loops[j].continues.contains(x) {
                    assert(x >= s2.code.len());
                }
            }
        }
        if loops_ok(st) {
            assert(loops_ok(s2));
            assert(loops_ok(o));
            assert(loops_ok(s3));
            assert(loops_ok(s4));
            assert(loops_ok(w));
        }
        assert(keeps(st, w));
        if loops_ok(st) {
            // The test lands.
            lemma_keeps_tgt(s1, s2);
            assert(tgt_step(s2, s4)) by {
                assert forall|p: int| 0 <= p < s2.code.len() implies #[trigger] tgt_ok(s2, s4, p) by {
                    assert(s3.code[p] == o.code[p]);
                }
            }
            lemma_keeps_tgt(s4, s5);
            lemma_tgt_trans(s5, s6, w);
            lemma_tgt_trans(s4, s5, w);
            lemma_tgt_trans(s2, s4, w);
            lemma_tgt_trans(s1, s2, w);
            lemma_grow_trans(s1, s2, s4);
            lemma_grow_trans(s1, s4, w);
            lemma_range_carry(s1, w, n0, n1);
            // The exit jump lands after the loop.
            assert(s6.code[n1] == patch_at(s5, here(s1), le).code[n1]);
            assert(s5.code[n1] == s2.code[n1]) by {
                assert(s3.code[n1] == o.code[n1]);
            }
            assert(landed_at(w, n1));
            // The body lands, its breaks and continues included.
            assert(landed_range(s3, n1 + 1, n3));
            assert forall|p: int| n1 + 1 <= p < n3 implies (jump_target(#[trigger] w.code[p]) == jump_target(s3.code[p])
                || jump_target(w.code[p]) == Some(le) || jump_target(w.code[p]) == Some(here(st))) by {
                assert(s6.code[p] == s5.code[p]);
                assert(s5.code[p] == s4.code[p]);
            }
            assert forall|p: int|
                n1 + 1 <= p < n3 && (l.breaks.contains(p as usize) || l.continues.contains(p as usize)) implies (jump_target(
                    #[trigger] w.code[p],
                ) == Some(le) || jump_target(w.code[p]) == Some(here(st))) by {
                assert(s6.code[p] == s5.code[p]);
                assert(s5.code[p] == s4.code[p]);
                let k = s2.loops.len() as int;
                if l.breaks.contains(p as usize) {
                    assert(s3.loops[k].breaks.contains(p as usize));
                } else {
                    assert(s3.loops[k].continues.contains(p as usize));
                }
                assert(s3.code[p] is Jump);
            }
            lemma_body_landed(s3, s4, l, w, n1 + 1, n3, le, here(st));
            // The jump back lands at the test.
            assert(s6.code[n3] == s5.code[n3]);
            assert(landed_at(w, n3));
            assert forall|p: int| n0 <= p < w.code.len() implies #[trigger] landed_at(w, p) by {
                if p < n1 {
                    assert(landed_range(w, n0, n1));
                } else if p == n1 {
                } else if p < n3 {
                    assert(landed_range(w, n1 + 1, n3));
                } else {
                }
            }
        }
    }
}

proof fn lemma_close_ok(s: GenState)
    ensures
        close_loop(s).1.code == s.code,
        loops_ok(s) ==> loops_ok(close_loop(s).1),
{
    let c = close_loop(s).1;
    if loops_ok(s) && s.loops.len() > 0 {
        assert forall|j: int, x: usize|
            0 <= j < c.loops.len() && (#[trigger] c.loops[j].breaks.contains(x) || c.loops[j].continues.contains(x))
                implies x < c.code.len() && c.code[x as int] is Jump by {
            assert(c.loops[j] == s.loops[j]);
            if s.loops[j].breaks.contains(x) {
            } else {
                assert(s.loops[j].continues.contains(x));
            }
        }
    }
}

/// The shape of a `for` loop: a scope, the initializer, an optional test
/// with a conditional exit, the body inside a fresh loop, the update, a
/// jump back; the exit, the breaks and the continues patched; the scope left.
proof fn lemma_for(st: GenState, s1: GenState, has_test: bool, st_test: GenState, s2: GenState, s3: GenState, s4: GenState)
    requires
        step_good(emit(st, Instr::EnterScope), s1),
        has_test ==> step_good(s1, st_test) && s2 == emit(st_test, Instr::JumpIfFalse(placeholder())),
        !has_test ==> s2 == s1,
        step_good(open_loop(s2), s3),
        step_good(s3, s4),
    ensures
        ({
            let s5 = emit(s4, Instr::Jump(here(s1)));
            let le = here(s5);
            let s6 = if has_test {
                patch_at(s5, here(st_test), le)
            } else {
                s5
            };
            let (l, s7) = close_loop(s6);
            step_good(st, emit(resolve_loop(s7, l, le, here(s3)), Instr::ExitScope))
        }),
{
    let s0 = emit(st, Instr::EnterScope);
    let o = open_loop(s2);
    let s5 = emit(s4, Instr::Jump(here(s1)));
    let le = here(s5);
    let s6 = if has_test {
        patch_at(s5, here(st_test), le)
    } else {
        s5
    };
    let (l, s7) = close_loop(s6);
    let r = resolve_loop(s7, l, le, here(s3));
    let w = emit(r, Instr::ExitScope);
    lemma_emit(r, Instr::ExitScope);
    lemma_resolve(s7, l, le, here(s3));
    lemma_patch_step(s5, here(st_test), le);
    lemma_emit(s4, Instr::Jump(here(s1)));
    if w.code.len() < usize::MAX {
        lemma_emit(st, Instr::EnterScope);
        if has_test {
            lemma_emit(st_test, Instr::JumpIfFalse(placeholder()));
            assert(keeps(s1, st_test));
        }
        lemma_open_loop(s2);
        assert(keeps(o, s3));
        assert(keeps(s3, s4));
        assert(keeps(s0, s1));
        assert(keeps(s1, s2)) by {
            if has_test {
                lemma_keeps_trans(s1, st_test, s2);
            }
        }
        lemma_keeps_trans(o, s3, s4);
        lemma_close_after_body(s2, s4);
        assert(s6.loops == s4.loops);
        assert(s6.code.len() == s4.code.len() + 1);
        let n0 = st.code.len() as int;
        let n1 = s1.code.len() as int;
        let n2 = s2.code.len() as int;
        let n3 = s3.code.len() as int;
        let n4 = s4.code.len() as int;
        let nt = st_test.code.len() as int;
        assert(here(s1) as int == n1);
        assert(here(s3) as int == n3);
        assert(le as int == n4 + 1);
        assert(has_test ==> here(st_test) as int == nt && nt + 1 == n2);
        assert(l == s4.loops[s2.loops.len() as int]);
        assert forall|p: int| 0 <= p < n2 implies !(#[trigger] l.breaks.contains(p as usize)) && !l.continues.contains(p as usize) by {
            if l.breaks.contains(p as usize) {
                assert(p as usize >= s2.code.len());
            }
            if l.continues.contains(p as usize) {
                assert(p as usize >= s2.code.len());
            }
        }
        // The code before the loop stays.
        assert forall|p: int| 0 <= p < n0 implies #[trigger] w.code[p] == st.code[p] by {
            assert(!l.breaks.contains(p as usize) && !l.continues.contains(p as usize));
            assert(w.code[p] == r.code[p]);
            assert(r.code[p] == s7.code[p]);
            assert(s6.code[p] == s5.code[p]);
            assert(s5.code[p] == s4.code[p]);
            assert(s4.code[p] == o.code[p]);
            assert(s2.code[p] == s1.code[p]);
            assert(s1.code[p] == s0.code[p]);
        }
        lemma_grow_trans(st, s0, s1);
        lemma_grow_trans(st, s1, s2);
        lemma_grow_trans(st, s2, s7);
        assert(loops_grow(s7, w));
        lemma_grow_trans(st, s7, w);
        assert(new_waits_from(st, w, n0)) by {
            assert forall|j: int, x: usize|
                0 <= j < st.loops.len() && #[trigger] w.loops[j].breaks.contains(x) && !st.loops[j].breaks.contains(x) implies x
                    >= n0 by {
                assert(w.loops[j] == s7.loops[j]);
                if s1.loops[j].breaks.contains(x) {
                } else if s2.loops[j].breaks.contains(x) {
                    assert(x >= s1.code.len());
                } else {
                    assert(x >= s2.code.len());
                }
            }
            assert forall|j: int, x: usize|
                0 <= j < st.loops.len() && #[trigger] w.loops[j].continues.contains(x) && !st.loops[j].continues.contains(x)
                    implies x >= n0 by {
                assert(w.loops[j] == s7.loops[j]);
                if s1.loops[j].continues.contains(x) {
                } else if s2.loops[j].continues.contains(x) {
                    assert(x >= s1.code.len());
                } else {
                    assert(x >= s2.code.len());
                }
            }
        }
        if loops_ok(st) {
            assert(loops_ok(s0));
            assert(loops_ok(s1));
            assert(loops_ok(s2));
            assert(loops_ok(o));
            assert(loops_ok(s3));
            assert(loops_ok(s4));
            assert(loops_ok(s5));
            assert(loops_ok(s6));
            lemma_close_ok(s6);
            assert(loops_ok(s7));
            assert(loops_ok(r));
            assert(loops_ok(w));
        }
        assert(keeps(st, w));
        if loops_ok(st) {
            // Jumps of the initializer and the test reach w unchanged or landed.
            lemma_keeps_tgt(s0, s1);
            assert(tgt_step(s1, s2)) by {
                lemma_keeps_tgt(s1, s2);
            }
            assert(tgt_step(s2, s4)) by {
                assert forall|p: int| 0 <= p < s2.code.len() implies #[trigger] tgt_ok(s2, s4, p) by {
                    assert(s4.code[p] == o.code[p]);
                }
            }
            lemma_keeps_tgt(s4, s5);
            assert(tgt_step(s5, s6)) by {
                if !has_test {
                    assert forall|p: int| 0 <= p < s5.code.len() implies #[trigger] tgt_ok(s5, s6, p) by {
                    }
                }
            }
            assert(tgt_step(s6, s7)) by {
                assert forall|p: int| 0 <= p < s6.code.len() implies #[trigger] tgt_ok(s6, s7, p) by {
                }
            }
            lemma_keeps_tgt(r, w);
            lemma_tgt_trans(s7, r, w);
            lemma_tgt_trans(s6, s7, w);
            lemma_tgt_trans(s5, s6, w);
            lemma_tgt_trans(s4, s5, w);
            lemma_tgt_trans(s2, s4, w);
            lemma_tgt_trans(s1, s2, w);
            lemma_tgt_trans(s0, s1, w);
            lemma_grow_trans(s0, s1, s2);
            lemma_grow_trans(s0, s2, s7);
            lemma_grow_trans(s0, s7, w);
            lemma_grow_trans(s1, s2, s7);
            lemma_grow_trans(s1, s7, w);
            lemma_range_carry(s1, w, n0 + 1, n1);
            assert(landed_at(w, n0)) by {
                assert(jump_target(s0.code[n0]) is None);
                assert(tgt_ok(s0, w, n0));
            }
            if has_test {
                lemma_grow_trans(st_test, s2, s7);
                lemma_grow_trans(st_test, s7, w);
                lemma_keeps_tgt(st_test, s2);
                lemma_tgt_trans(st_test, s2, w);
                lemma_range_carry(st_test, w, n1, nt);
                // The exit jump lands after the loop.
                assert(s5.code[nt] == s2.code[nt]) by {
                    assert(s4.code[nt] == o.code[nt]);
                }
                assert(!l.breaks.contains(nt as usize) && !l.continues.contains(nt as usize));
                assert(w.code[nt] == r.code[nt]);
                assert(landed_at(w, nt));
            }
            // The body and the update land, breaks and continues included.
            lemma_keeps_tgt(s3, s4);
            lemma_range_carry(s3, s4, n2, n3);
            assert(landed_range(s4, n2, n4)) by {
                assert forall|p: int| n2 <= p < n4 implies #[trigger] landed_at(s4, p) by {
                    if p < n3 {
                        assert(landed_range(s4, n2, n3));
                    } else {
                        assert(landed_range(s4, n3, n4));
                    }
                }
            }
            assert forall|p: int| n2 <= p < n4 implies (jump_target(#[trigger] w.code[p]) == jump_target(s4.code[p])
                || jump_target(w.code[p]) == Some(le) || jump_target(w.code[p]) == Some(here(s3))) by {
                assert(s6.code[p] == s5.code[p]);
                assert(s5.code[p] == s4.code[p]);
                assert(w.code[p] == r.code[p]);
            }
            assert forall|p: int|
                n2 <= p < n4 && (l.breaks.contains(p as usize) || l.continues.contains(p as usize)) implies (jump_target(
                    #[trigger] w.code[p],
                ) == Some(le) || jump_target(w.code[p]) == Some(here(s3))) by {
                assert(s6.code[p] == s5.code[p]);
                assert(s5.code[p] == s4.code[p]);
                assert(w.code[p] == r.code[p]);
                let k = s2.loops.len() as int;
                if l.breaks.contains(p as usize) {
                    assert(s4.loops[k].breaks.contains(p as usize));
                } else {
                    assert(s4.loops[k].continues.contains(p as usize));
                }
                assert(s4.code[p] is Jump);
            }
            assert(close_loop(s4).1.loops == w.loops);
            assert(close_loop(s4).0 == l);
            lemma_body_landed(s4, close_loop(s4).1, l, w, n2, n4, le, here(s3));
            // The jump back lands at the test.
            assert(s6.code[n4] == s5.code[n4]);
            assert(w.code[n4] == r.code[n4]);
            assert(landed_at(w, n4));
            assert(landed_at(w, n4 + 1));
            assert forall|p: int| n0 <= p < w.code.len() implies #[trigger] landed_at(w, p) by {
                if p == n0 {
                } else if p < n1 {
                    assert(landed_range(w, n0 + 1, n1));
                } else if p < n2 {
                    if has_test {
                        if p < nt {
                            assert(landed_range(w, n1, nt));
                        }
                    }
                } else if p < n4 {
                    assert(landed_range(w, n2, n4));
                } else {
                }
            }
        }
    }
}

proof fn lemma_loops_ok_at(st: GenState, j: int, x: usize)
    requires
        loops_ok(st),
        0 <= j < st.loops.len(),
        st.loops[j].breaks.contains(x) || st.loops[j].continues.contains(x),
    ensures
        x < st.code.len() && st.code[x as int] is Jump,
{
}

proof fn lemma_waiting_at(loops: Seq<LoopView>, j: int, p: usize)
    requires
        0 <= j < loops.len(),
        loops[j].breaks.contains(p) || loops[j].continues.contains(p),
    ensures
        waiting(loops, p),
{
    assert(loops[j].breaks.contains(p) || loops[j].continues.contains(p));
}

proof fn lemma_record(st: GenState, is_break: bool)
    requires
        st.loops.len() > 0,
    ensures
        step_good(st, record_jump(st, is_break)),
{
    let r = record_jump(st, is_break);
    let k = st.loops.len() - 1;
    let jump = here(st);
    if r.code.len() < usize::MAX {
        assert(jump as int == st.code.len());
        assert(r.code[st.code.len() as int] == Instr::Jump(placeholder()));
        assert forall|j: int, x: usize| 0 <= j < st.loops.len() && #[trigger] st.loops[j].breaks.contains(x) implies r.loops[j].breaks.contains(x) by {
            if j == k && is_break {
                let i = choose|i: int| 0 <= i < st.loops[j].breaks.len() && st.loops[j].breaks[i] == x;
                assert(r.loops[j].breaks[i] == x);
            }
        }
        assert forall|j: int, x: usize| 0 <= j < st.loops.len() && #[trigger] st.loops[j].continues.contains(x) implies r.loops[j].continues.contains(x) by {
            if j == k && !is_break {
                let i = choose|i: int| 0 <= i < st.loops[j].continues.len() && st.loops[j].continues[i] == x;
                assert(r.loops[j].continues[i] == x);
            }
        }
        assert forall|j: int, x: usize|
            0 <= j < st.loops.len() && #[trigger] r.loops[j].breaks.contains(x) && !st.loops[j].breaks.contains(x) implies x
                >= st.code.len() by {
            if j == k && is_break {
                let i = choose|i: int| 0 <= i < r.loops[j].breaks.len() && r.loops[j].breaks[i] == x;
                if i < st.loops[j].breaks.len() {
                    assert(st.loops[j].breaks[i] == x);
                }
            }
        }
        assert forall|j: int, x: usize|
            0 <= j < st.loops.len() && #[trigger] r.loops[j].continues.contains(x) && !st.loops[j].continues.contains(x)
                implies x >= st.code.len() by {
            if j == k && !is_break {
                let i = choose|i: int| 0 <= i < r.loops[j].continues.len() && r.loops[j].continues[i] == x;
                if i < st.loops[j].continues.len() {
                    assert(st.loops[j].continues[i] == x);
                }
            }
        }
        if loops_ok(st) {
            assert forall|j: int, x: usize|
                0 <= j < r.loops.len() && (#[trigger] r.loops[j].breaks.contains(x) || r.loops[j].continues.contains(x))
                    implies x < r.code.len() && r.code[x as int] is Jump by {
                if x == jump {
                } else {
                    if r.loops[j].breaks.contains(x) {
                        let i = choose|i: int| 0 <= i < r.loops[j].breaks.len() && r.loops[j].breaks[i] == x;
                        if j == k && is_break {
                            if i == st.loops[j].breaks.len() {
                            } else {
                                assert(st.loops[j].breaks[i] == x);
                            }
                        }
                        assert(st.loops[j].breaks.contains(x));
                    } else {
                        let i = choose|i: int| 0 <= i < r.loops[j].continues.len() && r.loops[j].continues[i] == x;
                        if j == k && !is_break {
                            if i == st.loops[j].continues.len() {
                            } else {
                                assert(st.loops[j].continues[i] == x);
                            }
                        }
                        assert(st.loops[j].continues.contains(x));
                    }
                    lemma_loops_ok_at(st, j, x);
                }
            }
            assert(landed_at(r, st.code.len() as int)) by {
                if is_break {
                    assert(r.loops[k].breaks.last() == jump);
                    assert(r.loops[k].breaks.contains(jump));
                } else {
                    assert(r.loops[k].continues.last() == jump);
                    assert(r.loops[k].continues.contains(jump));
                }
                lemma_waiting_at(r.loops, k, jump);
            }
        }
    }
}

/// Compiling statements in order keeps what it must and lands its jumps.
proof fn lemma_gen_stmts(st: GenState, ss: Seq<Stmt>)
    ensures
        sound_step(st, gen_stmts(st, ss)),
    decreases ss, 1nat,
{
    if ss.len() > 0 {
        lemma_gen_stmts(st, ss.drop_last());
        match gen_stmts(st, ss.drop_last()) {
            Err(_) => {},
            Ok(s1) => {
                lemma_gen_stmt(s1, ss.last());
                match gen_stmt(s1, ss.last()) {
                    Err(_) => {},
                    Ok(s2) => lemma_chain(st, s1, s2),
                }
            },
        }
    }
}

proof fn lemma_gen_exprs(st: GenState, es: Seq<Expr>)
    ensures
        sound_step(st, gen_exprs(st, es)),
    decreases es, 1nat,
{
    if es.len() > 0 {
        lemma_gen_exprs(st, es.drop_last());
        match gen_exprs(st, es.drop_last()) {
            Err(_) => {},
            Ok(s1) => {
                lemma_gen_expr(s1, es.last());
                match gen_expr(s1, es.last()) {
                    Err(_) => {},
                    Ok(s2) => lemma_chain(st, s1, s2),
                }
            },
        }
    }
}

proof fn lemma_gen_items(st: GenState, items: Seq<Option<Expr>>)
    ensures
        sound_step(st, gen_items(st, items)),
    decreases items, 1nat,
{
    if items.len() > 0 {
        lemma_gen_items(st, items.drop_last());
        match gen_items(st, items.drop_last()) {
            Err(_) => {},
            Ok(s1) => match items.last() {
                Some(x) => {
                    lemma_gen_expr(s1, x);
                    match gen_expr(s1, x) {
                        Err(_) => {},
                        Ok(s2) => lemma_chain(st, s1, s2),
                    }
                },
                None => {
                    lemma_emit_good(s1, Instr::LoadUndefined);
                    lemma_chain(st, s1, emit(s1, Instr::LoadUndefined));
                },
            },
        }
    }
}

proof fn lemma_gen_props(st: GenState, ps: Seq<ObjectProperty>)
    ensures
        sound_step(st, gen_props(st, ps)),
    decreases ps, 1nat,
{
    if ps.len() > 0 {
        lemma_gen_props(st, ps.drop_last());
        match gen_props(st, ps.drop_last()) {
            Err(_) => {},
            Ok(s1) => {
                lemma_gen_expr(s1, ps.last().value);
                match gen_expr(s1, ps.last().value) {
                    Err(_) => {},
                    Ok(s2) => {
                        lemma_chain(st, s1, s2);
                        lemma_emit_good(s2, Instr::DefineProperty(ps.last().key@));
                        lemma_chain(st, s2, emit(s2, Instr::DefineProperty(ps.last().key@)));
                    },
                }
            },
        }
    }
}

proof fn lemma_gen_decls(st: GenState, ds: Seq<VarDeclarator>)
    ensures
        sound_step(st, gen_decls(st, ds)),
    decreases ds, 1nat,
{
    if ds.len() > 0 {
        lemma_gen_decls(st, ds.drop_last());
        match gen_decls(st, ds.drop_last()) {
            Err(_) => {},
            Ok(s1) => {
                let d = ds.last();
                let name = match d.id {
                    BindingPattern::Identifier(n) => n@,
                };
                let s2 = emit(s1, Instr::DeclareName(name));
                lemma_emit_good(s1, Instr::DeclareName(name));
                lemma_chain(st, s1, s2);
                let s3 = match d.init {
                    Some(x) => gen_expr(s2, x),
                    None => Ok(emit(s2, Instr::LoadUndefined)),
                };
                match d.init {
                    Some(x) => lemma_gen_expr(s2, x),
                    None => lemma_emit_good(s2, Instr::LoadUndefined),
                }
                match s3 {
                    Err(_) => {},
                    Ok(s4) => {
                        lemma_chain(st, s2, s4);
                        let s5 = emit(s4, Instr::StoreName(name));
                        lemma_emit_good(s4, Instr::StoreName(name));
                        lemma_chain(st, s4, s5);
                        lemma_emit_good(s5, Instr::Pop);
                        lemma_chain(st, s5, emit(s5, Instr::Pop));
                    },
                }
            },
        }
    }
}

/// A step followed by emitting a non-jump instruction is good.
proof fn lemma_then_emit(st: GenState, s1: GenState, i: Instr)
    requires
        step_good(st, s1),
        jump_target(i) is None,
    ensures
        step_good(st, emit(s1, i)),
{
    lemma_emit_good(s1, i);
    lemma_chain(st, s1, emit(s1, i));
}

proof fn lemma_gen_expr(st: GenState, e: Expr)
    ensures
        sound_step(st, gen_expr(st, e)),
    decreases e, 1nat,
{
    match e.kind {
        ExprKind::Literal(l) => lemma_load_const(st, literal_const(l)),
        ExprKind::Identifier(n) => lemma_emit_good(st, Instr::LoadName(n@)),
        ExprKind::This => lemma_emit_good(st, Instr::LoadName("this"@)),
        ExprKind::Array(items) => {
            lemma_gen_items(st, items@);
            match gen_items(st, items@) {
                Err(_) => {},
                Ok(s1) => lemma_then_emit(st, s1, Instr::NewArray(items@.len() as usize)),
            }
        },
        ExprKind::Object(props) => {
            let s0 = emit(st, Instr::NewObject);
            lemma_emit_good(st, Instr::NewObject);
            lemma_gen_props(s0, props@);
            match gen_props(s0, props@) {
                Err(_) => {},
                Ok(s1) => lemma_chain(st, s0, s1),
            }
        },
        ExprKind::Unary { op, argument } => {
            lemma_gen_expr(st, *argument);
            match gen_expr(st, *argument) {
                Err(_) => {},
                Ok(s1) => lemma_then_emit(st, s1, Instr::Unary(op)),
            }
        },
        ExprKind::Binary { op, left, right } => {
            lemma_gen_expr(st, *left);
            match gen_expr(st, *left) {
                Err(_) => {},
                Ok(s1) => {
                    lemma_gen_expr(s1, *right);
                    match gen_expr(s1, *right) {
                        Err(_) => {},
                        Ok(s2) => {
                            lemma_chain(st, s1, s2);
                            lemma_then_emit(st, s2, Instr::Binary(op));
                        },
                    }
                },
            }
        },
        ExprKind::Assign { op, left, right } => lemma_gen_assign(st, e),
        ExprKind::Member { object, property } => {
            lemma_gen_expr(st, *object);
            match gen_expr(st, *object) {
                Err(_) => {},
                Ok(s1) => match property {
                    MemberProperty::Ident(n) => lemma_then_emit(st, s1, Instr::GetNamedProperty(n@)),
                    MemberProperty::Computed(x) => {
                        lemma_gen_expr(s1, *x);
                        match gen_expr(s1, *x) {
                            Err(_) => {},
                            Ok(s2) => {
                                lemma_chain(st, s1, s2);
                                lemma_then_emit(st, s2, Instr::GetProperty);
                            },
                        }
                    },
                },
            }
        },
        ExprKind::Call { callee, arguments } => {
            lemma_gen_expr(st, *callee);
            match gen_expr(st, *callee) {
                Err(_) => {},
                Ok(s1) => {
                    lemma_gen_exprs(s1, arguments@);
                    match gen_exprs(s1, arguments@) {
                        Err(_) => {},
                        Ok(s2) => {
                            lemma_chain(st, s1, s2);
                            lemma_then_emit(st, s2, Instr::Call(arguments@.len() as usize));
                        },
                    }
                },
            }
        },
        ExprKind::Function { name, params, body } => {
            match gen_function(opt_name(name), param_names(params@), body@, e.span) {
                Err(_) => {},
                Ok(f) => lemma_load_const(st, ConstView::Function(f)),
            }
        },
        ExprKind::New { callee, arguments } => {
            lemma_gen_expr(st, *callee);
            match gen_expr(st, *callee) {
                Err(_) => {},
                Ok(s1) => {
                    lemma_gen_exprs(s1, arguments@);
                    match gen_exprs(s1, arguments@) {
                        Err(_) => {},
                        Ok(s2) => {
                            lemma_chain(st, s1, s2);
                            lemma_then_emit(st, s2, Instr::New(arguments@.len() as usize));
                        },
                    }
                },
            }
        },
        ExprKind::Conditional { test, consequent, alternate } => {
            lemma_gen_expr(st, *test);
            match gen_expr(st, *test) {
                Err(_) => {},
                Ok(s1) => {
                    let s2 = emit(s1, Instr::JumpIfFalse(placeholder()));
                    lemma_gen_expr(s2, *consequent);
                    match gen_expr(s2, *consequent) {
                        Err(_) => {},
                        Ok(s3) => {
                            let s4 = emit(s3, Instr::Jump(placeholder()));
                            let s5 = patch_at(s4, here(s1), here(s4));
                            lemma_gen_expr(s5, *alternate);
                            match gen_expr(s5, *alternate) {
                                Err(_) => {},
                                Ok(s6) => lemma_branches(st, s1, s3, s6),
                            }
                        },
                    }
                },
            }
        },
    }
}

proof fn lemma_gen_assign(st: GenState, e: Expr)
    ensures
        sound_step(st, gen_assign(st, e)),
    decreases e, 0nat,
{
    match e.kind {
        ExprKind::Assign { op, left, right } => match left.kind {
            ExprKind::Identifier(n) => {
                if op == AssignOp::Assign {
                    lemma_gen_expr(st, *right);
                    match gen_expr(st, *right) {
                        Err(_) => {},
                        Ok(s2) => lemma_then_emit(st, s2, Instr::StoreName(n@)),
                    }
                } else {
                    let s0 = emit(st, Instr::LoadName(n@));
                    lemma_emit_good(st, Instr::LoadName(n@));
                    lemma_gen_expr(s0, *right);
                    match gen_expr(s0, *right) {
                        Err(_) => {},
                        Ok(s1) => {
                            lemma_chain(st, s0, s1);
                            lemma_then_emit(st, s1, Instr::Assignment(op));
                            lemma_then_emit(st, emit(s1, Instr::Assignment(op)), Instr::StoreName(n@));
                        },
                    }
                }
            },
            ExprKind::Member { object, property } => {
                lemma_gen_expr(st, *object);
                match gen_expr(st, *object) {
                    Err(_) => {},
                    Ok(s1) => match property {
                        MemberProperty::Ident(n) => {
                            if op == AssignOp::Assign {
                                lemma_gen_expr(s1, *right);
                                match gen_expr(s1, *right) {
                                    Err(_) => {},
                                    Ok(s3) => {
                                        lemma_chain(st, s1, s3);
                                        lemma_then_emit(st, s3, Instr::SetNamedProperty(n@));
                                    },
                                }
                            } else {
                                lemma_then_emit(st, s1, Instr::Dup);
                                let sd = emit(s1, Instr::Dup);
                                lemma_then_emit(st, sd, Instr::GetNamedProperty(n@));
                                let sg = emit(sd, Instr::GetNamedProperty(n@));
                                lemma_gen_expr(sg, *right);
                                match gen_expr(sg, *right) {
                                    Err(_) => {},
                                    Ok(s2) => {
                                        lemma_chain(st, sg, s2);
                                        lemma_then_emit(st, s2, Instr::Assignment(op));
                                        lemma_then_emit(st, emit(s2, Instr::Assignment(op)), Instr::SetNamedProperty(n@));
                                    },
                                }
                            }
                        },
                        MemberProperty::Computed(x) => {
                            lemma_gen_expr(s1, *x);
                            match gen_expr(s1, *x) {
                                Err(_) => {},
                                Ok(s2) => {
                                    lemma_chain(st, s1, s2);
                                    if op == AssignOp::Assign {
                                        lemma_gen_expr(s2, *right);
                                        match gen_expr(s2, *right) {
                                            Err(_) => {},
                                            Ok(s3) => {
                                                lemma_chain(st, s2, s3);
                                                lemma_then_emit(st, s3, Instr::SetProperty);
                                            },
                                        }
                                    }
                                },
                            }
                        },
                    },
                }
            },
            _ => {},
        },
        _ => lemma_good_refl(st),
    }
}

proof fn lemma_gen_stmt(st: GenState, s: Stmt)
    ensures
        sound_step(st, gen_stmt(st, s)),
    decreases s, 1nat,
{
    match s.kind {
        StmtKind::Empty => lemma_emit_good(st, Instr::Nop),
        StmtKind::Block(body) => {
            let s0 = emit(st, Instr::EnterScope);
            lemma_emit_good(st, Instr::EnterScope);
            lemma_gen_stmts(s0, body@);
            match gen_stmts(s0, body@) {
                Err(_) => {},
                Ok(s1) => {
                    lemma_chain(st, s0, s1);
                    lemma_then_emit(st, s1, Instr::ExitScope);
                },
            }
        },
        StmtKind::Expr(x) => {
            lemma_gen_expr(st, x);
            match gen_expr(st, x) {
                Err(_) => {},
                Ok(s1) => lemma_then_emit(st, s1, Instr::Pop),
            }
        },
        StmtKind::VarDecl(d) => lemma_gen_decls(st, d.declarations@),
        StmtKind::FunctionDecl(f) => {
            match gen_function(Some(f.name@), param_names(f.params@), f.body@, f.span) {
                Err(_) => {},
                Ok(fv) => {
                    let s1 = load_const(st, ConstView::Function(fv));
                    lemma_load_const(st, ConstView::Function(fv));
                    lemma_then_emit(st, s1, Instr::StoreName(f.name@));
                    lemma_then_emit(st, emit(s1, Instr::StoreName(f.name@)), Instr::Pop);
                },
            }
        },
        StmtKind::Return(arg) => {
            match arg {
                Some(x) => {
                    lemma_gen_expr(st, x);
                    match gen_expr(st, x) {
                        Err(_) => {},
                        Ok(s1) => lemma_then_emit(st, s1, Instr::Return),
                    }
                },
                None => {
                    lemma_emit_good(st, Instr::LoadUndefined);
                    lemma_then_emit(st, emit(st, Instr::LoadUndefined), Instr::Return);
                },
            }
        },
        StmtKind::If { test, consequent, alternate } => {
            lemma_gen_expr(st, test);
            match gen_expr(st, test) {
                Err(_) => {},
                Ok(s1) => {
                    let s2 = emit(s1, Instr::JumpIfFalse(placeholder()));
                    lemma_gen_stmt(s2, *consequent);
                    match gen_stmt(s2, *consequent) {
                        Err(_) => {},
                        Ok(s3) => {
                            let s4 = emit(s3, Instr::Jump(placeholder()));
                            let s5 = patch_at(s4, here(s1), here(s4));
                            match alternate {
                                Some(a) => {
                                    lemma_gen_stmt(s5, *a);
                                    match gen_stmt(s5, *a) {
                                        Err(_) => {},
                                        Ok(s6) => lemma_branches(st, s1, s3, s6),
                                    }
                                },
                                None => {
                                    lemma_good_refl(s5);
                                    lemma_branches(st, s1, s3, s5);
                                },
                            }
                        },
                    }
                },
            }
        },
        StmtKind::While { test, body } => {
            lemma_gen_expr(st, test);
            match gen_expr(st, test) {
                Err(_) => {},
                Ok(s1) => {
                    let o = open_loop(emit(s1, Instr::JumpIfFalse(placeholder())));
                    lemma_gen_stmt(o, *body);
                    match gen_stmt(o, *body) {
                        Err(_) => {},
                        Ok(s3) => lemma_while(st, s1, s3),
                    }
                },
            }
        },
        StmtKind::For { init, test, update, body } => {
            let s0 = emit(st, Instr::EnterScope);
            let r1 = match init {
                Some(ForInit::VarDecl(d)) => gen_decls(s0, d.declarations@),
                Some(ForInit::Expr(x)) => match gen_expr(s0, x) {
                    Err(err) => Err(err),
                    Ok(s) => Ok(emit(s, Instr::Pop)),
                },
                None => Ok(s0),
            };
            match init {
                Some(ForInit::VarDecl(d)) => lemma_gen_decls(s0, d.declarations@),
                Some(ForInit::Expr(x)) => {
                    lemma_gen_expr(s0, x);
                    match gen_expr(s0, x) {
                        Err(_) => {},
                        Ok(s) => lemma_then_emit(s0, s, Instr::Pop),
                    }
                },
                None => lemma_good_refl(s0),
            }
            match r1 {
                Err(_) => {},
                Ok(s1) => {
                    let r2 = match test {
                        Some(t) => match gen_expr(s1, t) {
                            Err(err) => Err(err),
                            Ok(s) => Ok((emit(s, Instr::JumpIfFalse(placeholder())), Some(here(s)))),
                        },
                        None => Ok((s1, None)),
                    };
                    match test {
                        Some(t) => lemma_gen_expr(s1, t),
                        None => {},
                    }
                    match r2 {
                        Err(_) => {},
                        Ok((s2, exit_jump)) => {
                            let st_test = match test {
                                Some(t) => gen_expr(s1, t)->Ok_0,
                                None => s1,
                            };
                            lemma_gen_stmt(open_loop(s2), *body);
                            match gen_stmt(open_loop(s2), *body) {
                                Err(_) => {},
                                Ok(s3) => {
                                    let r4 = match update {
                                        Some(u) => match gen_expr(s3, u) {
                                            Err(err) => Err(err),
                                            Ok(s) => Ok(emit(s, Instr::Pop)),
                                        },
                                        None => Ok(s3),
                                    };
                                    match update {
                                        Some(u) => {
                                            lemma_gen_expr(s3, u);
                                            match gen_expr(s3, u) {
                                                Err(_) => {},
                                                Ok(s) => lemma_then_emit(s3, s, Instr::Pop),
                                            }
                                        },
                                        None => lemma_good_refl(s3),
                                    }
                                    match r4 {
                                        Err(_) => {},
                                        Ok(s4) => {
                                            lemma_for(st, s1, test is Some, st_test, s2, s3, s4);
                                        },
                                    }
                                },
                            }
                        },
                    }
                },
            }
        },
        StmtKind::Break => if st.loops.len() > 0 {
            lemma_record(st, true);
        },
        StmtKind::Continue => if st.loops.len() > 0 {
            lemma_record(st, false);
        },
    }
}

/// Every jump of a compiled function lands inside its code.
pub open spec fn jumps_land(f: FnView) -> bool {
    forall|p: int|
        0 <= p < f.instructions.len() && (#[trigger] jump_target(f.instructions[p])) is Some ==> jump_target(
            f.instructions[p],
        )->Some_0 <= f.instructions.len()
}

/// Every jump the compiler emits for a function lands inside the function's
/// code: no placeholder is left, and no target lies past the end.
pub proof fn lemma_function_jumps_land(name: Option<Seq<char>>, params: Seq<Seq<char>>, body: Seq<Stmt>, span: Span)
    requires
        gen_function(name, params, body, span) is Ok,
        gen_function(name, params, body, span)->Ok_0.instructions.len() < usize::MAX,
    ensures
        jumps_land(gen_function(name, params, body, span)->Ok_0),
{
    lemma_gen_stmts(fresh_state(), body);
    let st = gen_stmts(fresh_state(), body)->Ok_0;
    let f = gen_function(name, params, body, span)->Ok_0;
    assert(loops_ok(fresh_state()));
    assert(landed_range(st, 0, st.code.len() as int));
    assert forall|p: int| 0 <= p < f.instructions.len() && (#[trigger] jump_target(f.instructions[p])) is Some implies jump_target(
        f.instructions[p],
    )->Some_0 <= f.instructions.len() by {
        if p < st.code.len() {
            assert(f.instructions[p] == st.code[p]);
            assert(landed_at(st, p));
            assert(st.loops.len() == 0);
            assert(!waiting(st.loops, p as usize));
        }
    }
}

/// Every jump of a compiled program lands inside its code: no placeholder
/// is left, and no target lies past the end.
pub proof fn lemma_program_jumps_land(p: Program, options: CompileOptions)
    requires
        program_code(p, options) is Ok,
        program_code(p, options)->Ok_0.instructions.len() < usize::MAX,
    ensures
        jumps_land(program_code(p, options)->Ok_0),
{
    lemma_gen_stmts(fresh_state(), p.body@);
    let st = gen_stmts(fresh_state(), p.body@)->Ok_0;
    let f = program_code(p, options)->Ok_0;
    assert(loops_ok(fresh_state()));
    assert(landed_range(st, 0, st.code.len() as int));
    assert forall|q: int| 0 <= q < f.instructions.len() && (#[trigger] jump_target(f.instructions[q])) is Some implies jump_target(
        f.instructions[q],
    )->Some_0 <= f.instructions.len() by {
        if q < st.code.len() {
            assert(f.instructions[q] == st.code[q]);
            assert(landed_at(st, q));
            assert(st.loops.len() == 0);
            assert(!waiting(st.loops, q as usize));
        }
    }
}

// ---------------------------------------------------------------------------
// Every constant the compiled code loads is in its pool
// ---------------------------------------------------------------------------

/// Every `LoadConst` of `code` names one of the first `n` constants.
pub open spec fn const_refs_ok(code: Seq<Instr>, n: nat) -> bool {
    forall|p: int| 0 <= p < code.len() && (#[trigger] code[p]) is LoadConst ==> (code[p]->LoadConst_0 as nat) < n
}

/// A compile step grows the pool and keeps every load inside it.
pub open spec fn cstep(a: GenState, b: GenState) -> bool {
    &&& a.consts.len() <= b.consts.len()
    &&& const_refs_ok(a.code, a.consts.len()) ==> const_refs_ok(b.code, b.consts.len())
}

/// A compile step keeps the loads inside the pool whenever it succeeds.
pub open spec fn c_sound(st: GenState, r: Result<GenState, ErrView>) -> bool {
    match r {
        Err(_) => true,
        Ok(st2) => cstep(st, st2),
    }
}

proof fn lemma_c_refl(st: GenState)
    ensures
        cstep(st, st),
{
}

proof fn lemma_c_trans(a: GenState, b: GenState, c: GenState)
    requires
        cstep(a, b),
        cstep(b, c),
    ensures
        cstep(a, c),
{
}

proof fn lemma_c_emit(st: GenState, i: Instr)
    requires
        !(i is LoadConst),
    ensures
        cstep(st, emit(st, i)),
{
    let s2 = emit(st, i);
    if const_refs_ok(st.code, st.consts.len()) {
        assert forall|p: int| 0 <= p < s2.code.len() && (#[trigger] s2.code[p]) is LoadConst implies (s2.code[p]->LoadConst_0 as nat)
            < s2.consts.len() by {
            if p < st.code.len() {
                assert(s2.code[p] == st.code[p]);
            }
        }
    }
}

proof fn lemma_c_then(st: GenState, s1: GenState, i: Instr)
    requires
        cstep(st, s1),
        !(i is LoadConst),
    ensures
        cstep(st, emit(s1, i)),
{
    lemma_c_emit(s1, i);
    lemma_c_trans(st, s1, emit(s1, i));
}

proof fn lemma_c_load(st: GenState, c: ConstView)
    ensures
        cstep(st, load_const(st, c)),
{
    let s2 = load_const(st, c);
    if const_refs_ok(st.code, st.consts.len()) {
        assert forall|p: int| 0 <= p < s2.code.len() && (#[trigger] s2.code[p]) is LoadConst implies (s2.code[p]->LoadConst_0 as nat)
            < s2.consts.len() by {
            if p < st.code.len() {
                assert(s2.code[p] == st.code[p]);
            }
        }
    }
}

proof fn lemma_c_patch(st: GenState, i: usize, t: usize)
    ensures
        cstep(st, patch_at(st, i, t)),
{
    let s2 = patch_at(st, i, t);
    if const_refs_ok(st.code, st.consts.len()) {
        assert forall|p: int| 0 <= p < s2.code.len() && (#[trigger] s2.code[p]) is LoadConst implies (s2.code[p]->LoadConst_0 as nat)
            < s2.consts.len() by {
            assert(s2.code[p] == st.code[p]);
        }
    }
}

proof fn lemma_c_patched_all(st: GenState, ps: Seq<usize>, t: usize)
    ensures
        cstep(st, GenState { code: patched_all(st.code, ps, t), ..st }),
    decreases ps.len(),
{
    if ps.len() > 0 {
        let mid = GenState { code: patched_all(st.code, ps.drop_last(), t), ..st };
        lemma_c_patched_all(st, ps.drop_last(), t);
        lemma_c_patch(mid, ps.last(), t);
        lemma_c_trans(st, mid, patch_at(mid, ps.last(), t));
    }
}

proof fn lemma_c_resolve(st: GenState, l: LoopView, bt: usize, ct: usize)
    ensures
        cstep(st, resolve_loop(st, l, bt, ct)),
{
    let mid = GenState { code: patched_all(st.code, l.breaks, bt), ..st };
    lemma_c_patched_all(st, l.breaks, bt);
    lemma_c_patched_all(mid, l.continues, ct);
    lemma_c_trans(st, mid, resolve_loop(st, l, bt, ct));
}

proof fn lemma_c_stmts(st: GenState, ss: Seq<Stmt>)
    ensures
        c_sound(st, gen_stmts(st, ss)),
    decreases ss, 1nat,
{
    if ss.len() > 0 {
        lemma_c_stmts(st, ss.drop_last());
        match gen_stmts(st, ss.drop_last()) {
            Err(_) => {},
            Ok(s1) => {
                lemma_c_stmt(s1, ss.last());
                match gen_stmt(s1, ss.last()) {
                    Err(_) => {},
                    Ok(s2) => lemma_c_trans(st, s1, s2),
                }
            },
        }
    }
}

proof fn lemma_c_exprs(st: GenState, es: Seq<Expr>)
    ensures
        c_sound(st, gen_exprs(st, es)),
    decreases es, 1nat,
{
    if es.len() > 0 {
        lemma_c_exprs(st, es.drop_last());
        match gen_exprs(st, es.drop_last()) {
            Err(_) => {},
            Ok(s1) => {
                lemma_c_expr(s1, es.last());
                match gen_expr(s1, es.last()) {
                    Err(_) => {},
                    Ok(s2) => lemma_c_trans(st, s1, s2),
                }
            },
        }
    }
}

proof fn lemma_c_items(st: GenState, items: Seq<Option<Expr>>)
    ensures
        c_sound(st, gen_items(st, items)),
    decreases items, 1nat,
{
    if items.len() > 0 {
        lemma_c_items(st, items.drop_last());
        match gen_items(st, items.drop_last()) {
            Err(_) => {},
            Ok(s1) => match items.last() {
                Some(x) => {
                    lemma_c_expr(s1, x);
                    match gen_expr(s1, x) {
                        Err(_) => {},
                        Ok(s2) => lemma_c_trans(st, s1, s2),
                    }
                },
                None => lemma_c_then(st, s1, Instr::LoadUndefined),
            },
        }
    }
}

proof fn lemma_c_props(st: GenState, ps: Seq<ObjectProperty>)
    ensures
        c_sound(st, gen_props(st, ps)),
    decreases ps, 1nat,
{
    if ps.len() > 0 {
        lemma_c_props(st, ps.drop_last());
        match gen_props(st, ps.drop_last()) {
            Err(_) => {},
            Ok(s1) => {
                lemma_c_expr(s1, ps.last().value);
                match gen_expr(s1, ps.last().value) {
                    Err(_) => {},
                    Ok(s2) => {
                        lemma_c_trans(st, s1, s2);
                        lemma_c_then(st, s2, Instr::DefineProperty(ps.last().key@));
                    },
                }
            },
        }
    }
}

proof fn lemma_c_decls(st: GenState, ds: Seq<VarDeclarator>)
    ensures
        c_sound(st, gen_decls(st, ds)),
    decreases ds, 1nat,
{
    if ds.len() > 0 {
        lemma_c_decls(st, ds.drop_last());
        match gen_decls(st, ds.drop_last()) {
            Err(_) => {},
            Ok(s1) => {
                let d = ds.last();
                let name = match d.id {
                    BindingPattern::Identifier(n) => n@,
                };
                let s2 = emit(s1, Instr::DeclareName(name));
                lemma_c_then(st, s1, Instr::DeclareName(name));
                match d.init {
                    Some(x) => {
                        lemma_c_expr(s2, x);
                        match gen_expr(s2, x) {
                            Err(_) => {},
                            Ok(s4) => {
                                lemma_c_trans(st, s2, s4);
                                lemma_c_then(st, s4, Instr::StoreName(name));
                                lemma_c_then(st, emit(s4, Instr::StoreName(name)), Instr::Pop);
                            },
                        }
                    },
                    None => {
                        let s4 = emit(s2, Instr::LoadUndefined);
                        lemma_c_then(st, s2, Instr::LoadUndefined);
                        lemma_c_then(st, s4, Instr::StoreName(name));
                        lemma_c_then(st, emit(s4, Instr::StoreName(name)), Instr::Pop);
                    },
                }
            },
        }
    }
}

proof fn lemma_c_expr(st: GenState, e: Expr)
    ensures
        c_sound(st, gen_expr(st, e)),
    decreases e, 1nat,
{
    match e.kind {
        ExprKind::Literal(l) => lemma_c_load(st, literal_const(l)),
        ExprKind::Identifier(n) => lemma_c_emit(st, Instr::LoadName(n@)),
        ExprKind::This => lemma_c_emit(st, Instr::LoadName("this"@)),
        ExprKind::Array(items) => {
            lemma_c_items(st, items@);
            match gen_items(st, items@) {
                Err(_) => {},
                Ok(s1) => lemma_c_then(st, s1, Instr::NewArray(items@.len() as usize)),
            }
        },
        ExprKind::Object(props) => {
            lemma_c_emit(st, Instr::NewObject);
            lemma_c_props(emit(st, Instr::NewObject), props@);
            match gen_props(emit(st, Instr::NewObject), props@) {
                Err(_) => {},
                Ok(s1) => lemma_c_trans(st, emit(st, Instr::NewObject), s1),
            }
        },
        ExprKind::Unary { op, argument } => {
            lemma_c_expr(st, *argument);
            match gen_expr(st, *argument) {
                Err(_) => {},
                Ok(s1) => lemma_c_then(st, s1, Instr::Unary(op)),
            }
        },
        ExprKind::Binary { op, left, right } => {
            lemma_c_expr(st, *left);
            match gen_expr(st, *left) {
                Err(_) => {},
                Ok(s1) => {
                    lemma_c_expr(s1, *right);
                    match gen_expr(s1, *right) {
                        Err(_) => {},
                        Ok(s2) => {
                            lemma_c_trans(st, s1, s2);
                            lemma_c_then(st, s2, Instr::Binary(op));
                        },
                    }
                },
            }
        },
        ExprKind::Assign { .. } => lemma_c_assign(st, e),
        ExprKind::Member { object, property } => {
            lemma_c_expr(st, *object);
            match gen_expr(st, *object) {
                Err(_) => {},
                Ok(s1) => match property {
                    MemberProperty::Ident(n) => lemma_c_then(st, s1, Instr::GetNamedProperty(n@)),
                    MemberProperty::Computed(x) => {
                        lemma_c_expr(s1, *x);
                        match gen_expr(s1, *x) {
                            Err(_) => {},
                            Ok(s2) => {
                                lemma_c_trans(st, s1, s2);
                                lemma_c_then(st, s2, Instr::GetProperty);
                            },
                        }
                    },
                },
            }
        },
        ExprKind::Call { callee, arguments } => {
            lemma_c_expr(st, *callee);
            match gen_expr(st, *callee) {
                Err(_) => {},
                Ok(s1) => {
                    lemma_c_exprs(s1, arguments@);
                    match gen_exprs(s1, arguments@) {
                        Err(_) => {},
                        Ok(s2) => {
                            lemma_c_trans(st, s1, s2);
                            lemma_c_then(st, s2, Instr::Call(arguments@.len() as usize));
                        },
                    }
                },
            }
        },
        ExprKind::Function { name, params, body } => {
            match gen_function(opt_name(name), param_names(params@), body@, e.span) {
                Err(_) => {},
                Ok(f) => lemma_c_load(st, ConstView::Function(f)),
            }
        },
        ExprKind::New { callee, arguments } => {
            lemma_c_expr(st, *callee);
            match gen_expr(st, *callee) {
                Err(_) => {},
                Ok(s1) => {
                    lemma_c_exprs(s1, arguments@);
                    match gen_exprs(s1, arguments@) {
                        Err(_) => {},
                        Ok(s2) => {
                            lemma_c_trans(st, s1, s2);
                            lemma_c_then(st, s2, Instr::New(arguments@.len() as usize));
                        },
                    }
                },
            }
        },
        ExprKind::Conditional { test, consequent, alternate } => {
            lemma_c_expr(st, *test);
            match gen_expr(st, *test) {
                Err(_) => {},
                Ok(s1) => {
                    let else_jump = here(s1);
                    let s2 = emit(s1, Instr::JumpIfFalse(placeholder()));
                    lemma_c_then(st, s1, Instr::JumpIfFalse(placeholder()));
                    lemma_c_expr(s2, *consequent);
                    match gen_expr(s2, *consequent) {
                        Err(_) => {},
                        Ok(s3) => {
                            lemma_c_trans(st, s2, s3);
                            let end_jump = here(s3);
                            let s4 = emit(s3, Instr::Jump(placeholder()));
                            lemma_c_then(st, s3, Instr::Jump(placeholder()));
                            let s5 = patch_at(s4, else_jump, here(s4));
                            lemma_c_patch(s4, else_jump, here(s4));
                            lemma_c_trans(st, s4, s5);
                            lemma_c_expr(s5, *alternate);
                            match gen_expr(s5, *alternate) {
                                Err(_) => {},
                                Ok(s6) => {
                                    lemma_c_trans(st, s5, s6);
                                    lemma_c_patch(s6, end_jump, here(s6));
                                    lemma_c_trans(st, s6, patch_at(s6, end_jump, here(s6)));
                                },
                            }
                        },
                    }
                },
            }
        },
    }
}

proof fn lemma_c_assign(st: GenState, e: Expr)
    ensures
        c_sound(st, gen_assign(st, e)),
    decreases e, 0nat,
{
    match e.kind {
        ExprKind::Assign { op, left, right } => match left.kind {
            ExprKind::Identifier(n) => {
                let r = if op == AssignOp::Assign {
                    gen_expr(st, *right)
                } else {
                    match gen_expr(emit(st, Instr::LoadName(n@)), *right) {
                        Err(err) => Err(err),
                        Ok(s1) => Ok(emit(s1, Instr::Assignment(op))),
                    }
                };
                if op == AssignOp::Assign {
                    lemma_c_expr(st, *right);
                } else {
                    let s0 = emit(st, Instr::LoadName(n@));
                    lemma_c_emit(st, Instr::LoadName(n@));
                    lemma_c_expr(s0, *right);
                    match gen_expr(s0, *right) {
                        Err(_) => {},
                        Ok(s1) => {
                            lemma_c_trans(st, s0, s1);
                            lemma_c_then(st, s1, Instr::Assignment(op));
                        },
                    }
                }
                match r {
                    Err(_) => {},
                    Ok(s2) => lemma_c_then(st, s2, Instr::StoreName(n@)),
                }
            },
            ExprKind::Member { object, property } => {
                lemma_c_expr(st, *object);
                match gen_expr(st, *object) {
                    Err(_) => {},
                    Ok(s1) => match property {
                        MemberProperty::Ident(n) => {
                            let r = if op == AssignOp::Assign {
                                gen_expr(s1, *right)
                            } else {
                                match gen_expr(emit(emit(s1, Instr::Dup), Instr::GetNamedProperty(n@)), *right) {
                                    Err(err) => Err(err),
                                    Ok(s2) => Ok(emit(s2, Instr::Assignment(op))),
                                }
                            };
                            if op == AssignOp::Assign {
                                lemma_c_expr(s1, *right);
                                match gen_expr(s1, *right) {
                                    Err(_) => {},
                                    Ok(s2) => lemma_c_trans(st, s1, s2),
                                }
                            } else {
                                let d = emit(s1, Instr::Dup);
                                let g = emit(d, Instr::GetNamedProperty(n@));
                                lemma_c_then(st, s1, Instr::Dup);
                                lemma_c_then(st, d, Instr::GetNamedProperty(n@));
                                lemma_c_expr(g, *right);
                                match gen_expr(g, *right) {
                                    Err(_) => {},
                                    Ok(s2) => {
                                        lemma_c_trans(st, g, s2);
                                        lemma_c_then(st, s2, Instr::Assignment(op));
                                    },
                                }
                            }
                            match r {
                                Err(_) => {},
                                Ok(s3) => lemma_c_then(st, s3, Instr::SetNamedProperty(n@)),
                            }
                        },
                        MemberProperty::Computed(x) => {
                            lemma_c_expr(s1, *x);
                            match gen_expr(s1, *x) {
                                Err(_) => {},
                                Ok(s2) => {
                                    lemma_c_trans(st, s1, s2);
                                    if op == AssignOp::Assign {
                                        lemma_c_expr(s2, *right);
                                        match gen_expr(s2, *right) {
                                            Err(_) => {},
                                            Ok(s3) => {
                                                lemma_c_trans(st, s2, s3);
                                                lemma_c_then(st, s3, Instr::SetProperty);
                                            },
                                        }
                                    }
                                },
                            }
                        },
                    },
                }
            },
            _ => {},
        },
        _ => lemma_c_refl(st),
    }
}

proof fn lemma_c_stmt(st: GenState, s: Stmt)
    ensures
        c_sound(st, gen_stmt(st, s)),
    decreases s, 1nat,
{
    match s.kind {
        StmtKind::Empty => lemma_c_emit(st, Instr::Nop),
        StmtKind::Block(body) => {
            let s0 = emit(st, Instr::EnterScope);
            lemma_c_emit(st, Instr::EnterScope);
            lemma_c_stmts(s0, body@);
            match gen_stmts(s0, body@) {
                Err(_) => {},
                Ok(s1) => {
                    lemma_c_trans(st, s0, s1);
                    lemma_c_then(st, s1, Instr::ExitScope);
                },
            }
        },
        StmtKind::Expr(x) => {
            lemma_c_expr(st, x);
            match gen_expr(st, x) {
                Err(_) => {},
                Ok(s1) => lemma_c_then(st, s1, Instr::Pop),
            }
        },
        StmtKind::VarDecl(d) => lemma_c_decls(st, d.declarations@),
        StmtKind::FunctionDecl(f) => {
            match gen_function(Some(f.name@), param_names(f.params@), f.body@, f.span) {
                Err(_) => {},
                Ok(fv) => {
                    let s1 = load_const(st, ConstView::Function(fv));
                    lemma_c_load(st, ConstView::Function(fv));
                    lemma_c_then(st, s1, Instr::StoreName(f.name@));
                    lemma_c_then(st, emit(s1, Instr::StoreName(f.name@)), Instr::Pop);
                },
            }
        },
        StmtKind::Return(arg) => {
            let r = match arg {
                Some(x) => gen_expr(st, x),
                None => Ok(emit(st, Instr::LoadUndefined)),
            };
            match arg {
                Some(x) => lemma_c_expr(st, x),
                None => lemma_c_emit(st, Instr::LoadUndefined),
            }
            match r {
                Err(_) => {},
                Ok(s1) => lemma_c_then(st, s1, Instr::Return),
            }
        },
        StmtKind::If { test, consequent, alternate } => {
            lemma_c_expr(st, test);
            match gen_expr(st, test) {
                Err(_) => {},
                Ok(s1) => {
                    let else_jump = here(s1);
                    let s2 = emit(s1, Instr::JumpIfFalse(placeholder()));
                    lemma_c_then(st, s1, Instr::JumpIfFalse(placeholder()));
                    lemma_c_stmt(s2, *consequent);
                    match gen_stmt(s2, *consequent) {
                        Err(_) => {},
                        Ok(s3) => {
                            lemma_c_trans(st, s2, s3);
                            let end_jump = here(s3);
                            let s4 = emit(s3, Instr::Jump(placeholder()));
                            lemma_c_then(st, s3, Instr::Jump(placeholder()));
                            let s5 = patch_at(s4, else_jump, here(s4));
                            lemma_c_patch(s4, else_jump, here(s4));
                            lemma_c_trans(st, s4, s5);
                            let r = match alternate {
                                Some(a) => gen_stmt(s5, *a),
                                None => Ok(s5),
                            };
                            match alternate {
                                Some(a) => lemma_c_stmt(s5, *a),
                                None => lemma_c_refl(s5),
                            }
                            match r {
                                Err(_) => {},
                                Ok(s6) => {
                                    lemma_c_trans(st, s5, s6);
                                    lemma_c_patch(s6, end_jump, here(s6));
                                    lemma_c_trans(st, s6, patch_at(s6, end_jump, here(s6)));
                                },
                            }
                        },
                    }
                },
            }
        },
        StmtKind::While { test, body } => {
            let loop_start = here(st);
            lemma_c_expr(st, test);
            match gen_expr(st, test) {
                Err(_) => {},
                Ok(s1) => {
                    let exit_jump = here(s1);
                    let s2 = open_loop(emit(s1, Instr::JumpIfFalse(placeholder())));
                    lemma_c_then(st, s1, Instr::JumpIfFalse(placeholder()));
                    lemma_c_stmt(s2, *body);
                    match gen_stmt(s2, *body) {
                        Err(_) => {},
                        Ok(s3) => {
                            lemma_c_trans(st, s2, s3);
                            let (l, s4) = close_loop(s3);
                            let s5 = emit(s4, Instr::Jump(loop_start));
                            lemma_c_then(st, s4, Instr::Jump(loop_start));
                            let loop_end = here(s5);
                            let s6 = patch_at(s5, exit_jump, loop_end);
                            lemma_c_patch(s5, exit_jump, loop_end);
                            lemma_c_trans(st, s5, s6);
                            lemma_c_resolve(s6, l, loop_end, loop_start);
                            lemma_c_trans(st, s6, resolve_loop(s6, l, loop_end, loop_start));
                        },
                    }
                },
            }
        },
        StmtKind::For { init, test, update, body } => {
            let s0 = emit(st, Instr::EnterScope);
            lemma_c_emit(st, Instr::EnterScope);
            let r1 = match init {
                Some(ForInit::VarDecl(d)) => gen_decls(s0, d.declarations@),
                Some(ForInit::Expr(x)) => match gen_expr(s0, x) {
                    Err(err) => Err(err),
                    Ok(s) => Ok(emit(s, Instr::Pop)),
                },
                None => Ok(s0),
            };
            match init {
                Some(ForInit::VarDecl(d)) => {
                    lemma_c_decls(s0, d.declarations@);
                    match gen_decls(s0, d.declarations@) {
                        Err(_) => {},
                        Ok(s) => lemma_c_trans(st, s0, s),
                    }
                },
                Some(ForInit::Expr(x)) => {
                    lemma_c_expr(s0, x);
                    match gen_expr(s0, x) {
                        Err(_) => {},
                        Ok(s) => {
                            lemma_c_trans(st, s0, s);
                            lemma_c_then(st, s, Instr::Pop);
                        },
                    }
                },
                None => {},
            }
            match r1 {
                Err(_) => {},
                Ok(s1) => {
                    let loop_start = here(s1);
                    let r2 = match test {
                        Some(t) => match gen_expr(s1, t) {
                            Err(err) => Err(err),
                            Ok(s) => Ok((emit(s, Instr::JumpIfFalse(placeholder())), Some(here(s)))),
                        },
                        None => Ok((s1, None)),
                    };
                    match test {
                        Some(t) => {
                            lemma_c_expr(s1, t);
                            match gen_expr(s1, t) {
                                Err(_) => {},
                                Ok(s) => {
                                    lemma_c_trans(st, s1, s);
                                    lemma_c_then(st, s, Instr::JumpIfFalse(placeholder()));
                                },
                            }
                        },
                        None => {},
                    }
                    match r2 {
                        Err(_) => {},
                        Ok((s2, exit_jump)) => {
                            lemma_c_stmt(open_loop(s2), *body);
                            match gen_stmt(open_loop(s2), *body) {
                                Err(_) => {},
                                Ok(s3) => {
                                    lemma_c_trans(st, open_loop(s2), s3);
                                    let continue_target = here(s3);
                                    let r4 = match update {
                                        Some(u) => match gen_expr(s3, u) {
                                            Err(err) => Err(err),
                                            Ok(s) => Ok(emit(s, Instr::Pop)),
                                        },
                                        None => Ok(s3),
                                    };
                                    match update {
                                        Some(u) => {
                                            lemma_c_expr(s3, u);
                                            match gen_expr(s3, u) {
                                                Err(_) => {},
                                                Ok(s) => {
                                                    lemma_c_trans(st, s3, s);
                                                    lemma_c_then(st, s, Instr::Pop);
                                                },
                                            }
                                        },
                                        None => {},
                                    }
                                    match r4 {
                                        Err(_) => {},
                                        Ok(s4) => {
                                            let s5 = emit(s4, Instr::Jump(loop_start));
                                            lemma_c_then(st, s4, Instr::Jump(loop_start));
                                            let loop_end = here(s5);
                                            let s6 = match exit_jump {
                                                Some(j) => patch_at(s5, j, loop_end),
                                                None => s5,
                                            };
                                            match exit_jump {
                                                Some(j) => {
                                                    lemma_c_patch(s5, j, loop_end);
                                                    lemma_c_trans(st, s5, s6);
                                                },
                                                None => {},
                                            }
                                            let (l, s7) = close_loop(s6);
                                            let s8 = resolve_loop(s7, l, loop_end, continue_target);
                                            lemma_c_resolve(s7, l, loop_end, continue_target);
                                            lemma_c_trans(st, s7, s8);
                                            lemma_c_then(st, s8, Instr::ExitScope);
                                        },
                                    }
                                },
                            }
                        },
                    }
                },
            }
        },
        StmtKind::Break => {
            if st.loops.len() > 0 {
                lemma_c_emit(st, Instr::Jump(placeholder()));
            }
        },
        StmtKind::Continue => {
            if st.loops.len() > 0 {
                lemma_c_emit(st, Instr::Jump(placeholder()));
            }
        },
    }
}

/// Every constant the compiler loads in a function's code is in the
/// function's constant pool.
pub proof fn lemma_function_constants_exist(name: Option<Seq<char>>, params: Seq<Seq<char>>, body: Seq<Stmt>, span: Span)
    requires
        gen_function(name, params, body, span) is Ok,
    ensures
        const_refs_ok(
            gen_function(name, params, body, span)->Ok_0.instructions,
            gen_function(name, params, body, span)->Ok_0.constants.len(),
        ),
{
    lemma_c_stmts(fresh_state(), body);
    let st = gen_stmts(fresh_state(), body)->Ok_0;
    lemma_c_then(fresh_state(), st, Instr::LoadUndefined);
    lemma_c_then(fresh_state(), emit(st, Instr::LoadUndefined), Instr::Return);
}

/// Every constant a compiled program loads is in its constant pool.
pub proof fn lemma_program_constants_exist(p: Program, options: CompileOptions)
    requires
        program_code(p, options) is Ok,
    ensures
        const_refs_ok(program_code(p, options)->Ok_0.instructions, program_code(p, options)->Ok_0.constants.len()),
{
    lemma_c_stmts(fresh_state(), p.body@);
    let st = gen_stmts(fresh_state(), p.body@)->Ok_0;
    if options.implicit_return_undefined {
        lemma_c_then(fresh_state(), st, Instr::LoadUndefined);
        lemma_c_then(fresh_state(), emit(st, Instr::LoadUndefined), Instr::Return);
    }
}

} // verus!
