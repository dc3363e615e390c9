//! The type checker: a best-effort walk that gives every expression a
//! coarse type and enforces a handful of rules — an `if` condition must be
//! `Boolean` (only the relational operators produce one), arithmetic wants
//! numbers, and a call's arity and argument types must match its
//! declaration, where an `Unknown` parameter accepts anything. Its verdict
//! is advisory: the interpreter never consults it.

use crate::ast::{BinaryOp, ExprModel, Expression, Program, Statement, StmtModel};
use crate::env::Env;
use crate::errors::{TypeError, TypeErrorModel};
use vstd::prelude::*;

verus! {

/// A coarse type. `Unknown` is both "not yet inferred" and "accepts
/// anything".
#[derive(Debug, PartialEq)]
pub enum Type {
    Number,
    Float,
    String,
    Boolean,
    List(Box<Type>),
    Function(Vec<Type>, Box<Type>),
    Unknown,
}

/// The mathematical value of a type.
pub enum TyModel {
    Number,
    Float,
    Str,
    Boolean,
    List(Box<TyModel>),
    Function(Seq<TyModel>, Box<TyModel>),
    Unknown,
}

pub open spec fn ty_view(t: Type) -> TyModel
    decreases t,
{
    match t {
        Type::Number => TyModel::Number,
        Type::Float => TyModel::Float,
        Type::String => TyModel::Str,
        Type::Boolean => TyModel::Boolean,
        Type::List(inner) => TyModel::List(Box::new(ty_view(*inner))),
        Type::Function(params, ret) => TyModel::Function(
            tys_view_from(params@, 0),
            Box::new(ty_view(*ret)),
        ),
        Type::Unknown => TyModel::Unknown,
    }
}

pub open spec fn tys_view_from(ts: Seq<Type>, i: int) -> Seq<TyModel>
    decreases ts, ts.len() - i,
{
    if i < 0 || i >= ts.len() {
        Seq::empty()
    } else {
        seq![ty_view(ts[i])] + tys_view_from(ts, i + 1)
    }
}

pub open spec fn tys_view(ts: Seq<Type>) -> Seq<TyModel> {
    tys_view_from(ts, 0)
}

pub proof fn lemma_tys_view_from(ts: Seq<Type>, i: int)
    requires
        0 <= i <= ts.len(),
    ensures
        tys_view_from(ts, i).len() == ts.len() - i,
        forall|j: int| i <= j < ts.len() ==> tys_view_from(ts, i)[j - i] == ty_view(ts[j]),
    decreases ts.len() - i,
{
    if i < ts.len() {
        lemma_tys_view_from(ts, i + 1);
    }
}

pub proof fn lemma_tys_view(ts: Seq<Type>)
    ensures
        tys_view(ts).len() == ts.len(),
        forall|j: int| 0 <= j < ts.len() ==> tys_view(ts)[j] == ty_view(ts[j]),
{
    lemma_tys_view_from(ts, 0);
}

impl View for Type {
    type V = TyModel;

    open spec fn view(&self) -> TyModel {
        ty_view(*self)
    }
}

/// A registered function: its parameter types and return type.
#[derive(Debug, PartialEq)]
pub struct FunSig {
    pub params: Vec<Type>,
    pub ret: Type,
}

impl View for FunSig {
    type V = (Seq<TyModel>, TyModel);

    open spec fn view(&self) -> (Seq<TyModel>, TyModel) {
        (tys_view(self.params@), ty_view(self.ret))
    }
}

/// The outcome of a checking step.
pub enum TRes<T> {
    Done(T),
    Fault(TypeErrorModel),
}

/// A run of `Unknown` parameter types.
pub open spec fn unknowns(n: nat) -> Seq<TyModel> {
    Seq::new(n, |i: int| TyModel::Unknown)
}

/// The functions known before any statement runs: the built-in `print`,
/// declared as taking one string and returning `Unknown`.
pub open spec fn builtin_funs() -> Map<Seq<char>, (Seq<TyModel>, TyModel)> {
    Map::empty().insert("print"@, (seq![TyModel::Str], TyModel::Unknown))
}

/// The type of an expression under the given tables.
pub open spec fn check_expr(
    vars: Map<Seq<char>, TyModel>,
    funs: Map<Seq<char>, (Seq<TyModel>, TyModel)>,
    e: ExprModel,
) -> TRes<TyModel>
    decreases e, 1int, 0int,
{
    match e {
        ExprModel::Number(_) => TRes::Done(TyModel::Number),
        ExprModel::Float(_) => TRes::Done(TyModel::Float),
        ExprModel::StrLit(_) => TRes::Done(TyModel::Str),
        ExprModel::Variable(v) => {
            if vars.contains_key(v) {
                TRes::Done(vars[v])
            } else {
                TRes::Fault(TypeErrorModel::UndefinedVariable(v))
            }
        },
        ExprModel::Binary(l, op, r) => match check_expr(vars, funs, *l) {
            TRes::Done(lt) => match check_expr(vars, funs, *r) {
                TRes::Done(rt) => match op {
                    BinaryOp::Add | BinaryOp::Subtract | BinaryOp::Multiply | BinaryOp::Divide => {
                        if lt == TyModel::Number && rt == TyModel::Number {
                            TRes::Done(TyModel::Number)
                        } else if lt == TyModel::Float || rt == TyModel::Float {
                            TRes::Done(TyModel::Float)
                        } else {
                            TRes::Fault(TypeErrorModel::NonNumericArithmetic)
                        }
                    },
                    BinaryOp::Greater | BinaryOp::Less | BinaryOp::Equal => TRes::Done(
                        TyModel::Boolean,
                    ),
                },
                TRes::Fault(f) => TRes::Fault(f),
            },
            TRes::Fault(f) => TRes::Fault(f),
        },
        ExprModel::Unary(_, inner) => check_expr(vars, funs, *inner),
        ExprModel::Call(name, args) => {
            if funs.contains_key(name) {
                let sig = funs[name];
                if args.len() != sig.0.len() {
                    TRes::Fault(
                        TypeErrorModel::ArityMismatch {
                            name,
                            expected: sig.0.len() as int,
                            got: args.len() as int,
                        },
                    )
                } else {
                    match check_args(vars, funs, args, sig.0, 0) {
                        TRes::Done(_) => TRes::Done(sig.1),
                        TRes::Fault(f) => TRes::Fault(f),
                    }
                }
            } else {
                TRes::Fault(TypeErrorModel::UndefinedFunction(name))
            }
        },
    }
}

/// Each argument's type must equal the declared parameter type, unless
/// that parameter is `Unknown`.
pub open spec fn check_args(
    vars: Map<Seq<char>, TyModel>,
    funs: Map<Seq<char>, (Seq<TyModel>, TyModel)>,
    args: Seq<ExprModel>,
    params: Seq<TyModel>,
    i: int,
) -> TRes<()>
    decreases args, 0int, args.len() - i,
{
    if i < 0 || i >= args.len() || i >= params.len() {
        TRes::Done(())
    } else {
        match check_expr(vars, funs, args[i]) {
            TRes::Done(at) => {
                if at != params[i] && params[i] != TyModel::Unknown {
                    TRes::Fault(TypeErrorModel::ArgumentTypeMismatch)
                } else {
                    check_args(vars, funs, args, params, i + 1)
                }
            },
            TRes::Fault(f) => TRes::Fault(f),
        }
    }
}

/// Checks each expression of a list, keeping only the first fault.
pub open spec fn check_each(
    vars: Map<Seq<char>, TyModel>,
    funs: Map<Seq<char>, (Seq<TyModel>, TyModel)>,
    args: Seq<ExprModel>,
    i: int,
) -> TRes<()>
    decreases args, 0int, args.len() - i,
{
    if i < 0 || i >= args.len() {
        TRes::Done(())
    } else {
        match check_expr(vars, funs, args[i]) {
            TRes::Done(_) => check_each(vars, funs, args, i + 1),
            TRes::Fault(f) => TRes::Fault(f),
        }
    }
}

/// The first `return` with a value, found depth-first: statement order,
/// looking inside `if` bodies (then before else) and `for` bodies, but not
/// inside nested function declarations, whose returns are their own.
pub open spec fn find_return(ss: Seq<StmtModel>, i: int) -> Option<ExprModel>
    decreases ss, 1int, ss.len() - i,
{
    if i < 0 || i >= ss.len() {
        Option::None
    } else {
        match ss[i] {
            StmtModel::Return { value: Option::Some(v) } => Option::Some(v),
            StmtModel::If { condition: _, then_body, else_body } => {
                match find_return(then_body, 0) {
                    Option::Some(v) => Option::Some(v),
                    Option::None => match else_body {
                        Option::Some(b) => match find_return(b, 0) {
                            Option::Some(v) => Option::Some(v),
                            Option::None => find_return(ss, i + 1),
                        },
                        Option::None => find_return(ss, i + 1),
                    },
                }
            },
            StmtModel::For { var: _, iterable: _, body } => match find_return(body, 0) {
                Option::Some(v) => Option::Some(v),
                Option::None => find_return(ss, i + 1),
            },
            _ => find_return(ss, i + 1),
        }
    }
}

/// Checks one statement, threading the two tables.
pub open spec fn check_stmt(
    vars: Map<Seq<char>, TyModel>,
    funs: Map<Seq<char>, (Seq<TyModel>, TyModel)>,
    s: StmtModel,
) -> TRes<(Map<Seq<char>, TyModel>, Map<Seq<char>, (Seq<TyModel>, TyModel)>)>
    decreases s, 2int, 0int,
{
    match s {
        StmtModel::Let { name, value } => match check_expr(vars, funs, value) {
            TRes::Done(t) => TRes::Done((vars.insert(name, t), funs)),
            TRes::Fault(f) => TRes::Fault(f),
        },
        StmtModel::Function { name, params, body } => {
            let ret = match find_return(body, 0) {
                Option::Some(v) => check_expr(vars, funs, v),
                Option::None => TRes::Done(TyModel::Unknown),
            };
            match ret {
                TRes::Done(rt) => TRes::Done(
                    (vars, funs.insert(name, (unknowns(params.len()), rt))),
                ),
                TRes::Fault(f) => TRes::Fault(f),
            }
        },
        StmtModel::If { condition, then_body, else_body } => match check_expr(
            vars,
            funs,
            condition,
        ) {
            TRes::Done(ct) => {
                if ct != TyModel::Boolean {
                    TRes::Fault(TypeErrorModel::NonBooleanCondition)
                } else {
                    match check_block(vars, funs, then_body, 0) {
                        TRes::Done(st) => match else_body {
                            Option::Some(b) => check_block(st.0, st.1, b, 0),
                            Option::None => TRes::Done(st),
                        },
                        TRes::Fault(f) => TRes::Fault(f),
                    }
                }
            },
            TRes::Fault(f) => TRes::Fault(f),
        },
        StmtModel::For { var, iterable, body } => match check_expr(vars, funs, iterable) {
            TRes::Done(_) => check_block(vars.insert(var, TyModel::Number), funs, body, 0),
            TRes::Fault(f) => TRes::Fault(f),
        },
        StmtModel::Print { args } => match check_each(vars, funs, args, 0) {
            TRes::Done(_) => TRes::Done((vars, funs)),
            TRes::Fault(f) => TRes::Fault(f),
        },
        StmtModel::Return { value } => match value {
            Option::Some(v) => match check_expr(vars, funs, v) {
                TRes::Done(_) => TRes::Done((vars, funs)),
                TRes::Fault(f) => TRes::Fault(f),
            },
            Option::None => TRes::Done((vars, funs)),
        },
        StmtModel::Expr(e) => match check_expr(vars, funs, e) {
            TRes::Done(_) => TRes::Done((vars, funs)),
            TRes::Fault(f) => TRes::Fault(f),
        },
    }
}

/// Checks the statements of a block in order.
pub open spec fn check_block(
    vars: Map<Seq<char>, TyModel>,
    funs: Map<Seq<char>, (Seq<TyModel>, TyModel)>,
    ss: Seq<StmtModel>,
    i: int,
) -> TRes<(Map<Seq<char>, TyModel>, Map<Seq<char>, (Seq<TyModel>, TyModel)>)>
    decreases ss, 3int, ss.len() - i,
{
    if i < 0 || i >= ss.len() {
        TRes::Done((vars, funs))
    } else {
        match check_stmt(vars, funs, ss[i]) {
            TRes::Done(st) => check_block(st.0, st.1, ss, i + 1),
            TRes::Fault(f) => TRes::Fault(f),
        }
    }
}

/// Checks a whole program against the built-in table.
pub open spec fn spec_check(p: Seq<StmtModel>) -> TRes<
    (Map<Seq<char>, TyModel>, Map<Seq<char>, (Seq<TyModel>, TyModel)>),
> {
    check_block(Map::empty(), builtin_funs(), p, 0)
}

/// True when the two types are the same shape.
fn ty_eq(a: &Type, b: &Type) -> (r: bool)
    ensures
        r == (a@ == b@),
    decreases *a, 1int, 0int,
{
    match (a, b) {
        (Type::Number, Type::Number) => true,
        (Type::Float, Type::Float) => true,
        (Type::String, Type::String) => true,
        (Type::Boolean, Type::Boolean) => true,
        (Type::Unknown, Type::Unknown) => true,
        (Type::List(x), Type::List(y)) => ty_eq(x, y),
        (Type::Function(xp, xr), Type::Function(yp, yr)) => {
            if xp.len() != yp.len() {
                proof {
                    lemma_tys_view(xp@);
                    lemma_tys_view(yp@);
                }
                false
            } else {
                let pe = tys_eq(xp, yp, 0);
                if !pe {
                    false
                } else {
                    proof {
                        assert(tys_view(xp@).skip(0) =~= tys_view(xp@));
                        assert(tys_view(yp@).skip(0) =~= tys_view(yp@));
                    }
                    ty_eq(xr, yr)
                }
            }
        },
        _ => false,
    }
}

/// True when the two type lists agree from `i` on.
fn tys_eq(a: &Vec<Type>, b: &Vec<Type>, i: usize) -> (r: bool)
    requires
        a@.len() == b@.len(),
        i <= a@.len(),
    ensures
        r == (forall|j: int| i <= j < a@.len() ==> tys_view(a@)[j] == tys_view(b@)[j]),
        r ==> tys_view(a@).skip(i as int) == tys_view(b@).skip(i as int),
        !r ==> tys_view(a@) != tys_view(b@),
    decreases *a, 2int, a@.len() - i,
{
    proof {
        lemma_tys_view(a@);
        lemma_tys_view(b@);
    }
    if i >= a.len() {
        proof {
            assert(tys_view(a@).skip(i as int) =~= tys_view(b@).skip(i as int));
        }
        true
    } else {
        if ty_eq(&a[i], &b[i]) {
            let r = tys_eq(a, b, i + 1);
            proof {
                if r {
                    assert(tys_view(a@).skip(i as int) =~= tys_view(b@).skip(i as int));
                }
            }
            r
        } else {
            proof {
                assert(tys_view(a@)[i as int] != tys_view(b@)[i as int]);
            }
            false
        }
    }
}

/// The type checker: the variable and function tables as the walk has
/// built them so far.
pub struct TypeChecker {
    variables: Env<Type>,
    functions: Env<FunSig>,
}

impl TypeChecker {
    /// The variable table.
    pub closed spec fn vars(self) -> Map<Seq<char>, TyModel> {
        self.variables@
    }

    /// The function table.
    pub closed spec fn funs(self) -> Map<Seq<char>, (Seq<TyModel>, TyModel)> {
        self.functions@
    }

    /// A fresh checker knowing only the built-in `print`.
    pub fn new() -> (r: TypeChecker)
        ensures
            r.vars() == Map::<Seq<char>, TyModel>::empty(),
            r.funs() == builtin_funs(),
    {
        let mut checker = TypeChecker { variables: Env::new(), functions: Env::new() };
        checker.register_builtins();
        checker
    }

    /// Declares the built-in `print`: one string parameter, `Unknown`
    /// result.
    fn register_builtins(&mut self)
        ensures
            final(self).vars() == old(self).vars(),
            final(self).funs() == old(self).funs().insert(
                "print"@,
                (seq![TyModel::Str], TyModel::Unknown),
            ),
    {
        let mut params: Vec<Type> = Vec::new();
        params.push(Type::String);
        let sig = FunSig { params, ret: Type::Unknown };
        proof {
            lemma_tys_view(sig.params@);
            assert(tys_view(sig.params@) =~= seq![TyModel::Str]);
        }
        self.functions.insert(String::from_str("print"), sig);
        proof {
            reveal_strlit("print");
        }
    }

    /// Checks the program's statements in order against the current
    /// tables; the first broken rule stops the walk and is returned.
    pub fn check(&mut self, program: &Program) -> (r: Result<(), TypeError>)
        ensures
            match r {
                Result::Ok(_) => check_block(old(self).vars(), old(self).funs(), program@, 0)
                    matches TRes::Done(st) && st.0 == final(self).vars() && st.1 == final(self).funs(),
                Result::Err(e) => check_block(old(self).vars(), old(self).funs(), program@, 0)
                    == TRes::<(Map<Seq<char>, TyModel>, Map<Seq<char>, (Seq<TyModel>, TyModel)>)>::Fault(e@),
            },
    {
        self.check_stmts(&program.statements)
    }

    /// Checks the statements of one block in order.
    fn check_stmts(&mut self, ss: &Vec<Statement>) -> (r: Result<(), TypeError>)
        ensures
            match r {
                Result::Ok(_) => check_block(
                    old(self).vars(),
                    old(self).funs(),
                    crate::ast::stmts_view(ss@),
                    0,
                ) matches TRes::Done(st) && st.0 == final(self).vars() && st.1 == final(self).funs(),
                Result::Err(e) => check_block(
                    old(self).vars(),
                    old(self).funs(),
                    crate::ast::stmts_view(ss@),
                    0,
                ) == TRes::<(Map<Seq<char>, TyModel>, Map<Seq<char>, (Seq<TyModel>, TyModel)>)>::Fault(e@),
            },
        decreases *ss, 3int, 0int,
    {
        let ghost sv = crate::ast::stmts_view(ss@);
        proof {
            crate::ast::lemma_stmts_view(ss@);
        }
        let mut i: usize = 0;
        loop
            invariant
                i <= ss@.len(),
                sv == crate::ast::stmts_view(ss@),
                sv.len() == ss@.len(),
                forall|j: int| 0 <= j < ss@.len() ==> sv[j] == crate::ast::stmt_view(ss@[j]),
                check_block(old(self).vars(), old(self).funs(), sv, 0) == check_block(
                    self.vars(),
                    self.funs(),
                    sv,
                    i as int,
                ),
            ensures
                i == ss@.len(),
                check_block(old(self).vars(), old(self).funs(), sv, 0) == check_block(
                    self.vars(),
                    self.funs(),
                    sv,
                    i as int,
                ),
            decreases ss@.len() - i,
        {
            if i >= ss.len() {
                break;
            }
            match self.check_statement(&ss[i]) {
                Result::Ok(_) => {},
                Result::Err(e) => {
                    return Result::Err(e);
                },
            }
            i = i + 1;
        }
        Result::Ok(())
    }

    /// Checks one statement.
    fn check_statement(&mut self, s: &Statement) -> (r: Result<(), TypeError>)
        ensures
            match r {
                Result::Ok(_) => check_stmt(old(self).vars(), old(self).funs(), s@)
                    matches TRes::Done(st) && st.0 == final(self).vars() && st.1 == final(self).funs(),
                Result::Err(e) => check_stmt(old(self).vars(), old(self).funs(), s@) == TRes::<
                    (Map<Seq<char>, TyModel>, Map<Seq<char>, (Seq<TyModel>, TyModel)>),
                >::Fault(e@),
            },
        decreases *s, 2int, 0int,
    {
        match s {
            Statement::Let { name, value } => {
                let t = match self.check_expression(value) {
                    Result::Ok(t) => t,
                    Result::Err(e) => {
                        return Result::Err(e);
                    },
                };
                self.variables.insert(name.clone(), t);
                Result::Ok(())
            },
            Statement::Function { name, params, body } => {
                let found = find_return_in(body, 0);
                let rt = match found {
                    Option::Some(v) => {
                        match self.check_expression(v) {
                            Result::Ok(t) => t,
                            Result::Err(e) => {
                                return Result::Err(e);
                            },
                        }
                    },
                    Option::None => Type::Unknown,
                };
                let mut ptys: Vec<Type> = Vec::new();
                let mut j: usize = 0;
                proof {
                    lemma_tys_view(ptys@);
                    assert(tys_view(ptys@) =~= unknowns(0));
                }
                while j < params.len()
                    invariant
                        j <= params@.len(),
                        ptys@.len() == j,
                        tys_view(ptys@) == unknowns(j as nat),
                    decreases params@.len() - j,
                {
                    let ghost pre = ptys@;
                    ptys.push(Type::Unknown);
                    proof {
                        lemma_tys_view(ptys@);
                        lemma_tys_view(pre);
                        assert(forall|m: int| 0 <= m < j ==> ptys@[m] == pre[m]);
                        assert(ptys@[j as int] == Type::Unknown);
                        assert forall|m: int| 0 <= m < j + 1 implies tys_view(ptys@)[m]
                            == TyModel::Unknown by {
                            if m < j {
                                assert(tys_view(ptys@)[m] == ty_view(ptys@[m]));
                                assert(tys_view(pre)[m] == ty_view(pre[m]));
                                assert(tys_view(pre)[m] == unknowns(j as nat)[m]);
                            } else {
                                assert(tys_view(ptys@)[m] == ty_view(ptys@[m]));
                            }
                        }
                        assert(tys_view(ptys@) =~= unknowns((j + 1) as nat));
                    }
                    j = j + 1;
                }
                self.functions.insert(name.clone(), FunSig { params: ptys, ret: rt });
                Result::Ok(())
            },
            Statement::If { condition, then_body, else_body } => {
                let ct = match self.check_expression(condition) {
                    Result::Ok(t) => t,
                    Result::Err(e) => {
                        return Result::Err(e);
                    },
                };
                let is_bool = match ct {
                    Type::Boolean => true,
                    _ => false,
                };
                if !is_bool {
                    return Result::Err(TypeError::NonBooleanCondition);
                }
                match self.check_stmts(then_body) {
                    Result::Ok(_) => {},
                    Result::Err(e) => {
                        return Result::Err(e);
                    },
                }
                match else_body {
                    Option::Some(b) => self.check_stmts(b),
                    Option::None => Result::Ok(()),
                }
            },
            Statement::For { var, iterable, body } => {
                match self.check_expression(iterable) {
                    Result::Ok(_) => {},
                    Result::Err(e) => {
                        return Result::Err(e);
                    },
                }
                self.variables.insert(var.clone(), Type::Number);
                self.check_stmts(body)
            },
            Statement::Print { args } => self.check_print_args(args, 0),
            Statement::Return { value } => {
                match value {
                    Option::Some(v) => match self.check_expression(v) {
                        Result::Ok(_) => Result::Ok(()),
                        Result::Err(e) => Result::Err(e),
                    },
                    Option::None => Result::Ok(()),
                }
            },
            Statement::Expression(e) => {
                match self.check_expression(e) {
                    Result::Ok(_) => Result::Ok(()),
                    Result::Err(err) => Result::Err(err),
                }
            },
        }
    }

    /// Checks the arguments of a `print` statement from `i` on.
    fn check_print_args(&mut self, args: &Vec<Expression>, i: usize) -> (r: Result<(), TypeError>)
        requires
            i <= args@.len(),
        ensures
            final(self).vars() == old(self).vars(),
            final(self).funs() == old(self).funs(),
            match r {
                Result::Ok(_) => check_each(
                    old(self).vars(),
                    old(self).funs(),
                    crate::ast::exprs_view(args@),
                    i as int,
                ) == TRes::Done(()),
                Result::Err(e) => check_each(
                    old(self).vars(),
                    old(self).funs(),
                    crate::ast::exprs_view(args@),
                    i as int,
                ) == TRes::<()>::Fault(e@),
            },
        decreases *args, 0int, args@.len() - i,
    {
        proof {
            crate::ast::lemma_exprs_view(args@);
        }
        if i >= args.len() {
            return Result::Ok(());
        }
        match self.check_expression(&args[i]) {
            Result::Ok(_) => {},
            Result::Err(e) => {
                return Result::Err(e);
            },
        }
        self.check_print_args(args, i + 1)
    }

    /// The type of one expression under the current tables.
    fn check_expression(&self, e: &Expression) -> (r: Result<Type, TypeError>)
        ensures
            match r {
                Result::Ok(t) => check_expr(self.vars(), self.funs(), e@) == TRes::Done(t@),
                Result::Err(err) => check_expr(self.vars(), self.funs(), e@) == TRes::<
                    TyModel,
                >::Fault(err@),
            },
        decreases *e, 1int, 0int,
    {
        match e {
            Expression::Number(_) => Result::Ok(Type::Number),
            Expression::Float(_) => Result::Ok(Type::Float),
            Expression::String(_) => Result::Ok(Type::String),
            Expression::Variable(v) => {
                match self.variables.get(v.as_str()) {
                    Option::Some(t) => Result::Ok(clone_type(t)),
                    Option::None => Result::Err(TypeError::UndefinedVariable(v.clone())),
                }
            },
            Expression::Binary { left, op, right } => {
                let lt = match self.check_expression(left) {
                    Result::Ok(t) => t,
                    Result::Err(err) => {
                        return Result::Err(err);
                    },
                };
                let rt = match self.check_expression(right) {
                    Result::Ok(t) => t,
                    Result::Err(err) => {
                        return Result::Err(err);
                    },
                };
                match op {
                    BinaryOp::Add | BinaryOp::Subtract | BinaryOp::Multiply | BinaryOp::Divide => {
                        let ln = match lt {
                            Type::Number => true,
                            _ => false,
                        };
                        let rn = match rt {
                            Type::Number => true,
                            _ => false,
                        };
                        if ln && rn {
                            Result::Ok(Type::Number)
                        } else {
                            let lf = match lt {
                                Type::Float => true,
                                _ => false,
                            };
                            let rf = match rt {
                                Type::Float => true,
                                _ => false,
                            };
                            if lf || rf {
                                Result::Ok(Type::Float)
                            } else {
                                Result::Err(TypeError::NonNumericArithmetic)
                            }
                        }
                    },
                    BinaryOp::Greater | BinaryOp::Less | BinaryOp::Equal => Result::Ok(
                        Type::Boolean,
                    ),
                }
            },
            Expression::Unary { op: _, expr } => self.check_expression(expr),
            Expression::Call { name, args } => {
                let sig = match self.functions.get(name.as_str()) {
                    Option::Some(sig) => sig,
                    Option::None => {
                        return Result::Err(TypeError::UndefinedFunction(name.clone()));
                    },
                };
                proof {
                    lemma_tys_view(sig.params@);
                    crate::ast::lemma_exprs_view(args@);
                }
                if args.len() != sig.params.len() {
                    return Result::Err(
                        TypeError::ArityMismatch {
                            name: name.clone(),
                            expected: sig.params.len(),
                            got: args.len(),
                        },
                    );
                }
                match self.check_call_args(args, &sig.params, 0) {
                    Result::Ok(_) => Result::Ok(clone_type(&sig.ret)),
                    Result::Err(err) => Result::Err(err),
                }
            },
        }
    }

    /// Checks a call's arguments against the declared parameter types.
    fn check_call_args(&self, args: &Vec<Expression>, params: &Vec<Type>, i: usize) -> (r: Result<
        (),
        TypeError,
    >)
        requires
            i <= args@.len(),
            args@.len() == params@.len(),
        ensures
            match r {
                Result::Ok(_) => check_args(
                    self.vars(),
                    self.funs(),
                    crate::ast::exprs_view(args@),
                    tys_view(params@),
                    i as int,
                ) == TRes::Done(()),
                Result::Err(err) => check_args(
                    self.vars(),
                    self.funs(),
                    crate::ast::exprs_view(args@),
                    tys_view(params@),
                    i as int,
                ) == TRes::<()>::Fault(err@),
            },
        decreases *args, 0int, args@.len() - i,
    {
        proof {
            crate::ast::lemma_exprs_view(args@);
            lemma_tys_view(params@);
        }
        if i >= args.len() {
            return Result::Ok(());
        }
        let at = match self.check_expression(&args[i]) {
            Result::Ok(t) => t,
            Result::Err(err) => {
                return Result::Err(err);
            },
        };
        let p_unknown = match params[i] {
            Type::Unknown => true,
            _ => false,
        };
        if !ty_eq(&at, &params[i]) && !p_unknown {
            return Result::Err(TypeError::ArgumentTypeMismatch);
        }
        self.check_call_args(args, params, i + 1)
    }
}

/// The first `return` with a value among these statements from `i` on,
/// depth-first.
fn find_return_in(ss: &Vec<Statement>, i: usize) -> (r: Option<&Expression>)
    requires
        i <= ss@.len(),
    ensures
        match r {
            Option::Some(v) => find_return(crate::ast::stmts_view(ss@), i as int)
                == Option::Some(v@),
            Option::None => find_return(crate::ast::stmts_view(ss@), i as int) is None,
        },
    decreases *ss, 1int, ss@.len() - i,
{
    proof {
        crate::ast::lemma_stmts_view(ss@);
    }
    if i >= ss.len() {
        return Option::None;
    }
    match &ss[i] {
        Statement::Return { value: Option::Some(v) } => Option::Some(v),
        Statement::If { condition: _, then_body, else_body } => {
            match find_return_in(then_body, 0) {
                Option::Some(v) => Option::Some(v),
                Option::None => {
                    match else_body {
                        Option::Some(b) => {
                            match find_return_in(b, 0) {
                                Option::Some(v) => Option::Some(v),
                                Option::None => find_return_in(ss, i + 1),
                            }
                        },
                        Option::None => find_return_in(ss, i + 1),
                    }
                },
            }
        },
        Statement::For { var: _, iterable: _, body } => {
            match find_return_in(body, 0) {
                Option::Some(v) => Option::Some(v),
                Option::None => find_return_in(ss, i + 1),
            }
        },
        _ => find_return_in(ss, i + 1),
    }
}

/// Structurally equal copies of the types from `i` on.
fn clone_tys(ts: &Vec<Type>, i: usize) -> (r: Vec<Type>)
    requires
        i <= ts@.len(),
    ensures
        r@.len() == ts@.len() - i,
        forall|j: int| 0 <= j < r@.len() ==> r@[j]@ == ts@[j + i]@,
    decreases *ts, 2int, ts@.len() - i,
{
    if i >= ts.len() {
        let v: Vec<Type> = Vec::new();
        return v;
    }
    let head = clone_type(&ts[i]);
    let rest = clone_tys(ts, i + 1);
    let mut v: Vec<Type> = Vec::new();
    v.push(head);
    let mut rest = rest;
    v.append(&mut rest);
    v
}

/// A structurally equal copy of a type.
fn clone_type(t: &Type) -> (r: Type)
    ensures
        r@ == t@,
    decreases *t, 1int, 0int,
{
    match t {
        Type::Number => Type::Number,
        Type::Float => Type::Float,
        Type::String => Type::String,
        Type::Boolean => Type::Boolean,
        Type::Unknown => Type::Unknown,
        Type::List(inner) => Type::List(Box::new(clone_type(inner))),
        Type::Function(params, ret) => {
            let ps = clone_tys(params, 0);
            let mut whole: Vec<Type> = ps;
            proof {
                lemma_tys_view(whole@);
                lemma_tys_view(params@);
                assert(tys_view(whole@) =~= tys_view(params@));
            }
            let rc = Box::new(clone_type(ret));
            Type::Function(whole, rc)
        },
    }
}

} // verus!
