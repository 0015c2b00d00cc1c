use vstd::prelude::*;

use crate::syntax::{ArgDecl, ArgDeclV, Expr, ExprV, decls_view};
use crate::text::{decimal, push_decimal, push_str};
use crate::type_def::{Type, TypeV, TypedExpr, type_text};

verus! {

/// Why an expression has no type.
#[derive(Debug, PartialEq)]
pub enum TypeError {
    UnboundVariable(String),
    TypeMismatch { expected: Type, found: Type },
    NotCallable(Type),
    ArityMismatch { expected: usize, found: usize },
}

/// The mathematical model of a [`TypeError`].
pub enum TypeErrorV {
    UnboundVariable(Seq<char>),
    TypeMismatch { expected: TypeV, found: TypeV },
    NotCallable(TypeV),
    ArityMismatch { expected: nat, found: nat },
}

impl View for TypeError {
    type V = TypeErrorV;

    open spec fn view(&self) -> TypeErrorV {
        match self {
            TypeError::UnboundVariable(n) => TypeErrorV::UnboundVariable(n@),
            TypeError::TypeMismatch { expected, found } => TypeErrorV::TypeMismatch {
                expected: expected@,
                found: found@,
            },
            TypeError::NotCallable(t) => TypeErrorV::NotCallable(t@),
            TypeError::ArityMismatch { expected, found } => TypeErrorV::ArityMismatch {
                expected: *expected as nat,
                found: *found as nat,
            },
        }
    }
}

/// How a type error is reported.
pub open spec fn type_error_text(e: TypeErrorV) -> Seq<char> {
    match e {
        TypeErrorV::UnboundVariable(n) => "Unbound variable "@ + n,
        TypeErrorV::TypeMismatch { expected, found } => "Type mismatch: expected "@ + type_text(
            expected,
        ) + ", found "@ + type_text(found),
        TypeErrorV::NotCallable(t) => "Not callable: "@ + type_text(t),
        TypeErrorV::ArityMismatch { expected, found } => "Expected "@ + decimal(expected)
            + " arguments, found "@ + decimal(found),
    }
}

impl TypeError {
    /// A description of what went wrong.
    pub fn message(&self) -> (r: String)
        ensures
            r@ == type_error_text(self@),
    {
        let mut s = String::new();
        match self {
            TypeError::UnboundVariable(n) => {
                push_str(&mut s, "Unbound variable ");
                push_str(&mut s, n.as_str());
            },
            TypeError::TypeMismatch { expected, found } => {
                push_str(&mut s, "Type mismatch: expected ");
                expected.write_to(&mut s);
                push_str(&mut s, ", found ");
                found.write_to(&mut s);
            },
            TypeError::NotCallable(t) => {
                push_str(&mut s, "Not callable: ");
                t.write_to(&mut s);
            },
            TypeError::ArityMismatch { expected, found } => {
                push_str(&mut s, "Expected ");
                push_decimal(&mut s, *expected);
                push_str(&mut s, " arguments, found ");
                push_decimal(&mut s, *found);
            },
        }
        assert(s@ =~= type_error_text(self@));
        s
    }
}

/// A scope: each name declared in it, with its type. A later declaration of a
/// name replaces an earlier one.
pub type Frame = Map<Seq<char>, TypeV>;

/// The scope made of a list of parameter declarations.
pub open spec fn frame_of(ds: Seq<ArgDeclV>) -> Frame
    decreases ds.len(),
{
    if ds.len() == 0 {
        Map::empty()
    } else {
        frame_of(ds.drop_last()).insert(ds.last().vname, ds.last().vtype)
    }
}

/// The type of `name` in the innermost scope of `env` that declares it.
pub open spec fn lookup(env: Seq<Frame>, name: Seq<char>) -> Option<TypeV>
    decreases env.len(),
{
    if env.len() == 0 {
        None
    } else if env.last().contains_key(name) {
        Some(env.last()[name])
    } else {
        lookup(env.drop_last(), name)
    }
}

/// The type of `e` under the scopes `env`, or the first error met checking it.
pub open spec fn synth(e: ExprV, env: Seq<Frame>) -> Result<TypeV, TypeErrorV>
    decreases e,
{
    match e {
        ExprV::I32 { .. } => Ok(TypeV::I32),
        ExprV::Unit => Ok(TypeV::Unit),
        ExprV::Var { name } => match lookup(env, name) {
            Some(t) => Ok(t),
            None => Err(TypeErrorV::UnboundVariable(name)),
        },
        ExprV::Block { exprs } => synth_block(exprs, env),
        ExprV::AnonFunc { args_decl, ret_decl, block } => match synth(
            *block,
            env.push(frame_of(args_decl)),
        ) {
            Err(x) => Err(x),
            Ok(t) => if t == ret_decl {
                Ok(
                    TypeV::Func {
                        args: args_decl.map_values(|d: ArgDeclV| d.vtype),
                        ret: Box::new(ret_decl),
                    },
                )
            } else {
                Err(TypeErrorV::TypeMismatch { expected: ret_decl, found: t })
            },
        },
        ExprV::FuncApp { callee, args } => match synth(*callee, env) {
            Err(x) => Err(x),
            Ok(TypeV::Func { args: params, ret }) => if args.len() != params.len() {
                Err(TypeErrorV::ArityMismatch { expected: params.len(), found: args.len() })
            } else {
                match synth_args(args, params, env) {
                    Err(x) => Err(x),
                    Ok(_) => Ok(*ret),
                }
            },
            Ok(t) => Err(TypeErrorV::NotCallable(t)),
        },
    }
}

/// The type of the last of `es`, each checked in order; `Unit` when there are none.
pub open spec fn synth_block(es: Seq<ExprV>, env: Seq<Frame>) -> Result<TypeV, TypeErrorV>
    decreases es,
{
    if es.len() == 0 {
        Ok(TypeV::Unit)
    } else {
        match synth(es[0], env) {
            Err(x) => Err(x),
            Ok(t) => if es.len() == 1 {
                Ok(t)
            } else {
                synth_block(es.drop_first(), env)
            },
        }
    }
}

/// Checks each argument in order against the parameter type at its position.
pub open spec fn synth_args(args: Seq<ExprV>, params: Seq<TypeV>, env: Seq<Frame>) -> Result<
    (),
    TypeErrorV,
>
    decreases args,
{
    if args.len() == 0 {
        Ok(())
    } else {
        match synth(args[0], env) {
            Err(x) => Err(x),
            Ok(t) => if params.len() == 0 || t != params[0] {
                Err(TypeErrorV::TypeMismatch { expected: params[0], found: t })
            } else {
                synth_args(args.drop_first(), params.drop_first(), env)
            },
        }
    }
}

proof fn lemma_frame_prefix(ds: Seq<ArgDeclV>, i: int)
    requires
        0 <= i < ds.len(),
    ensures
        frame_of(ds.subrange(0, i + 1)) == frame_of(ds.subrange(0, i)).insert(
            ds[i].vname,
            ds[i].vtype,
        ),
{
    assert(ds.subrange(0, i + 1).drop_last() =~= ds.subrange(0, i));
}

/// Copies a list of parameter declarations.
fn copy_decls(ds: &Vec<ArgDecl>) -> (r: Vec<ArgDecl>)
    ensures
        decls_view(r@) == decls_view(ds@),
{
    let mut out: Vec<ArgDecl> = Vec::new();
    let mut i: usize = 0;
    while i < ds.len()
        invariant
            i <= ds.len(),
            out.len() == i,
            forall|j: int| 0 <= j < i ==> out@[j]@ == ds@[j]@,
        decreases ds.len() - i,
    {
        let d = ArgDecl { vname: ds[i].vname.clone(), vtype: ds[i].vtype.duplicate() };
        out.push(d);
        i = i + 1;
    }
    assert(decls_view(out@) =~= decls_view(ds@));
    out
}

/// The scope of one function body.
pub struct VarTypeTable {
    pub table: Vec<ArgDecl>,
}

impl View for VarTypeTable {
    type V = Frame;

    open spec fn view(&self) -> Frame {
        frame_of(decls_view(self.table@))
    }
}

impl VarTypeTable {
    /// The type declared for `name` in this scope.
    pub fn get(&self, name: &String) -> (r: Option<&Type>)
        ensures
            r is Some <==> self@.contains_key(name@),
            r is Some ==> r->0@ == self@[name@],
    {
        let ghost ds = decls_view(self.table@);
        let mut i: usize = self.table.len();
        assert(ds.subrange(0, i as int) =~= ds);
        while i > 0
            invariant
                i <= self.table.len(),
                ds == decls_view(self.table@),
                self@.contains_key(name@) == frame_of(ds.subrange(0, i as int)).contains_key(
                    name@,
                ),
                self@.contains_key(name@) ==> self@[name@] == frame_of(
                    ds.subrange(0, i as int),
                )[name@],
            decreases i,
        {
            proof {
                lemma_frame_prefix(ds, i - 1);
            }
            if crate::text::str_eq(self.table[i - 1].vname.as_str(), name.as_str()) {
                return Some(&self.table[i - 1].vtype);
            }
            i = i - 1;
        }
        None
    }

    /// The scope that declares the parameters `decls`.
    pub fn from_args_decl(decls: Vec<ArgDecl>) -> (r: VarTypeTable)
        ensures
            r@ == frame_of(decls_view(decls@)),
    {
        VarTypeTable { table: decls }
    }
}

/// The stack of scopes under which an expression is checked, innermost last.
pub struct Context {
    pub layered_table: Vec<VarTypeTable>,
}

impl View for Context {
    type V = Seq<Frame>;

    open spec fn view(&self) -> Seq<Frame> {
        Seq::new(self.layered_table.len() as nat, |i: int| self.layered_table[i]@)
    }
}

impl Context {
    /// No scope at all.
    pub fn new() -> (r: Context)
        ensures
            r@ == Seq::<Frame>::empty(),
    {
        let r = Context { layered_table: Vec::new() };
        assert(r@ =~= Seq::<Frame>::empty());
        r
    }

    /// The type of `name` in the innermost scope that declares it.
    pub fn get(&self, name: &String) -> (r: Result<Type, TypeError>)
        ensures
            match lookup(self@, name@) {
                Some(t) => r is Ok && r->Ok_0@ == t,
                None => r is Err && r->Err_0@ == TypeErrorV::UnboundVariable(name@),
            },
    {
        let mut depth: usize = self.layered_table.len();
        assert(self@.subrange(0, depth as int) =~= self@);
        while depth > 0
            invariant
                depth <= self.layered_table.len(),
                lookup(self@, name@) == lookup(self@.subrange(0, depth as int), name@),
            decreases depth,
        {
            let ghost prefix = self@.subrange(0, depth as int);
            assert(prefix.drop_last() =~= self@.subrange(0, depth - 1));
            match self.layered_table[depth - 1].get(name) {
                Some(t) => {
                    return Ok(t.duplicate());
                },
                None => {},
            }
            depth = depth - 1;
        }
        Err(TypeError::UnboundVariable(name.clone()))
    }

    /// Enters a function body whose parameters are `args_decl`.
    pub fn push_table_from_argsdecl(&mut self, args_decl: Vec<ArgDecl>)
        ensures
            final(self)@ == old(self)@.push(frame_of(decls_view(args_decl@))),
    {
        self.layered_table.push(VarTypeTable::from_args_decl(args_decl));
        assert(self@ =~= old(self)@.push(frame_of(decls_view(args_decl@))));
    }

    /// Leaves the innermost function body.
    pub fn pop_table(&mut self)
        requires
            old(self)@.len() > 0,
        ensures
            final(self)@ == old(self)@.drop_last(),
    {
        self.layered_table.pop();
        assert(self@ =~= old(self)@.drop_last());
    }
}

/// A function whose body's type differs from its declared return type is
/// rejected with a type mismatch that names both types.
pub proof fn lemma_return_type_mismatch(
    args_decl: Seq<ArgDeclV>,
    ret_decl: TypeV,
    block: ExprV,
    env: Seq<Frame>,
)
    requires
        synth(block, env.push(frame_of(args_decl))) is Ok,
        synth(block, env.push(frame_of(args_decl)))->Ok_0 != ret_decl,
    ensures
        synth(ExprV::AnonFunc { args_decl, ret_decl, block: Box::new(block) }, env) == Err::<
            TypeV,
            TypeErrorV,
        >(
            TypeErrorV::TypeMismatch {
                expected: ret_decl,
                found: synth(block, env.push(frame_of(args_decl)))->Ok_0,
            },
        ),
{
}

/// A call whose argument count differs from the callee's parameter count is
/// rejected with an arity mismatch, whatever the arguments are.
pub proof fn lemma_arity_mismatch(callee: ExprV, args: Seq<ExprV>, env: Seq<Frame>)
    requires
        synth(callee, env) is Ok,
        synth(callee, env)->Ok_0 is Func,
        synth(callee, env)->Ok_0->Func_args.len() != args.len(),
    ensures
        synth(ExprV::FuncApp { callee: Box::new(callee), args }, env) == Err::<TypeV, TypeErrorV>(
            TypeErrorV::ArityMismatch {
                expected: synth(callee, env)->Ok_0->Func_args.len(),
                found: args.len(),
            },
        ),
{
}

/// The model of what checking an expression gives.
pub open spec fn typed(r: Result<Type, TypeError>) -> Result<TypeV, TypeErrorV> {
    match r {
        Ok(t) => Ok(t@),
        Err(e) => Err(e@),
    }
}

/// What checking an expression promises: its type under `env`, or the error.
pub open spec fn typed_expr_matches(
    e: ExprV,
    env: Seq<Frame>,
    r: Result<TypedExpr, TypeError>,
) -> bool {
    match synth(e, env) {
        Ok(t) => r is Ok && (*r->Ok_0.expr)@ == e && r->Ok_0.expr_type is Some
            && r->Ok_0.expr_type->0@ == t,
        Err(x) => r is Err && r->Err_0@ == x,
    }
}

impl Expr {
    /// The type of this expression under the scopes of `cxt`; the scopes are
    /// left as they were.
    #[verifier::loop_isolation(false)]
    pub fn check(&self, cxt: &mut Context) -> (r: Result<Type, TypeError>)
        ensures
            final(cxt)@ == old(cxt)@,
            typed(r) == synth(self@, old(cxt)@),
        decreases self,
    {
        let ghost env = cxt@;
        match self {
            Expr::Unit => Ok(Type::Unit),
            Expr::I32 { .. } => Ok(Type::I32),
            Expr::Var { name } => cxt.get(name),
            Expr::Block { exprs } => {
                let ghost es = self@->Block_exprs;
                let ghost n = es.len() as int;
                let mut last = Type::Unit;
                let mut i: usize = 0;
                assert(es.subrange(0, n) =~= es);
                while i < exprs.len()
                    invariant
                        cxt@ == env,
                        n == exprs.len(),
                        i == 0 ==> last@ == TypeV::Unit,
                        i <= exprs.len(),
                        synth_block(es, env) == if i == n && i > 0 {
                            Ok(last@)
                        } else {
                            synth_block(es.subrange(i as int, n), env)
                        },
                    decreases exprs.len() - i,
                {
                    proof {
                        assert(decreases_to!(exprs => exprs[i as int]));
                        assert(es.subrange(i as int, n)[0] == es[i as int]);
                        assert(es.subrange(i as int, n).drop_first() =~= es.subrange(i + 1, n));
                    }
                    match exprs[i].check(cxt) {
                        Ok(t) => {
                            last = t;
                        },
                        Err(e) => {
                            return Err(e);
                        },
                    }
                    i = i + 1;
                }
                assert(es.subrange(n, n).len() == 0);
                Ok(last)
            },
            Expr::AnonFunc { args_decl, ret_decl, block } => {
                cxt.push_table_from_argsdecl(copy_decls(args_decl));
                let body = block.check(cxt);
                cxt.pop_table();
                assert(cxt@ =~= env);
                match body {
                    Err(e) => Err(e),
                    Ok(t) => {
                        if t.same_as(ret_decl) {
                            let mut args: Vec<Box<Type>> = Vec::new();
                            let mut i: usize = 0;
                            while i < args_decl.len()
                                invariant
                                    cxt@ == env,
                                    i <= args_decl.len(),
                                    args.len() == i,
                                    forall|j: int|
                                        0 <= j < i ==> (*args[j])@ == args_decl@[j].vtype@,
                                decreases args_decl.len() - i,
                            {
                                args.push(Box::new(args_decl[i].vtype.duplicate()));
                                i = i + 1;
                            }
                            let r = Type::Func { args, ret: Box::new(ret_decl.duplicate()) };
                            assert(r@->Func_args =~= self@->AnonFunc_args_decl.map_values(
                                |d: ArgDeclV| d.vtype,
                            ));
                            Ok(r)
                        } else {
                            Err(TypeError::TypeMismatch { expected: ret_decl.duplicate(), found: t })
                        }
                    },
                }
            },
            Expr::FuncApp { callee, args } => {
                match callee.check(cxt) {
                    Err(e) => Err(e),
                    Ok(Type::Func { args: params, ret }) => {
                        if args.len() != params.len() {
                            return Err(
                                TypeError::ArityMismatch { expected: params.len(), found: args.len() },
                            );
                        }
                        let ghost av = self@->FuncApp_args;
                        let ghost pv = synth(*self@->FuncApp_callee, env)->Ok_0->Func_args;
                        let ghost n = av.len() as int;
                        assert(av.subrange(0, n) =~= av);
                        assert(pv.subrange(0, n) =~= pv);
                        let mut i: usize = 0;
                        while i < args.len()
                            invariant
                                cxt@ == env,
                                i <= args.len(),
                                synth_args(av, pv, env) == synth_args(
                                    av.subrange(i as int, n),
                                    pv.subrange(i as int, n),
                                    env,
                                ),
                            decreases args.len() - i,
                        {
                            proof {
                                assert(decreases_to!(args => args[i as int]));
                                assert(av.subrange(i as int, n).drop_first() =~= av.subrange(
                                    i + 1,
                                    n,
                                ));
                                assert(pv.subrange(i as int, n).drop_first() =~= pv.subrange(
                                    i + 1,
                                    n,
                                ));
                            }
                            match args[i].check(cxt) {
                                Ok(t) => {
                                    if !t.same_as(&params[i]) {
                                        return Err(
                                            TypeError::TypeMismatch {
                                                expected: params[i].duplicate(),
                                                found: t,
                                            },
                                        );
                                    }
                                },
                                Err(e) => {
                                    return Err(e);
                                },
                            }
                            i = i + 1;
                        }
                        assert(av.subrange(n, n).len() == 0);
                        Ok(*ret)
                    },
                    Ok(other) => Err(TypeError::NotCallable(other)),
                }
            },
        }
    }

    /// This expression together with its type under the scopes of `cxt`.
    pub fn into_typed_expr(self, cxt: &mut Context) -> (r: Result<TypedExpr, TypeError>)
        ensures
            final(cxt)@ == old(cxt)@,
            typed_expr_matches(self@, old(cxt)@, r),
    {
        match self.check(cxt) {
            Ok(t) => Ok(TypedExpr::new(Box::new(self), Some(t))),
            Err(e) => Err(e),
        }
    }
}

/// The type of a whole program, checked with no variable in scope.
pub fn typecheck(expr: Expr) -> (r: Result<TypedExpr, TypeError>)
    ensures
        typed_expr_matches(expr@, Seq::empty(), r),
{
    let mut cxt = Context::new();
    expr.into_typed_expr(&mut cxt)
}

} // verus!
