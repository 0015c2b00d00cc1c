use vstd::prelude::*;

use crate::syntax::Expr;
use crate::text::{push_str, str_eq};

verus! {

/// A type of the language. `UserType` is nominal: two of them are equal when
/// their names are.
#[derive(Debug)]
pub enum Type {
    I32,
    Unit,
    Func { args: Vec<Box<Type>>, ret: Box<Type> },
    UserType { name: String },
}

/// The mathematical model of a [`Type`].
pub enum TypeV {
    I32,
    Unit,
    Func { args: Seq<TypeV>, ret: Box<TypeV> },
    UserType { name: Seq<char> },
}

pub open spec fn type_view(t: Type) -> TypeV
    decreases t,
{
    match t {
        Type::I32 => TypeV::I32,
        Type::Unit => TypeV::Unit,
        Type::Func { args, ret } => TypeV::Func {
            args: Seq::new(
                args.len() as nat,
                |i: int|
                    if 0 <= i < args.len() {
                        type_view(*args[i])
                    } else {
                        TypeV::Unit
                    },
            ),
            ret: Box::new(type_view(*ret)),
        },
        Type::UserType { name } => TypeV::UserType { name: name@ },
    }
}

/// The model of a list of types.
pub open spec fn types_view(ts: Seq<Box<Type>>) -> Seq<TypeV> {
    Seq::new(ts.len(), |i: int| (*ts[i])@)
}

impl View for Type {
    type V = TypeV;

    open spec fn view(&self) -> TypeV {
        type_view(*self)
    }
}

/// How a type is written: `I32`, `Unit`, a user type's name, or
/// `Fn(<args separated by ','>)-><ret>`.
pub open spec fn type_text(t: TypeV) -> Seq<char>
    decreases t,
{
    match t {
        TypeV::I32 => "I32"@,
        TypeV::Unit => "Unit"@,
        TypeV::UserType { name } => name,
        TypeV::Func { args, ret } => "Fn("@ + types_text(args) + ")->"@ + type_text(*ret),
    }
}

/// Types written one after another, separated by `,`.
pub open spec fn types_text(ts: Seq<TypeV>) -> Seq<char>
    decreases ts,
{
    if ts.len() == 0 {
        Seq::empty()
    } else if ts.len() == 1 {
        type_text(ts[0])
    } else {
        types_text(ts.drop_last()) + seq![','] + type_text(ts.last())
    }
}

impl Type {
    /// Appends how this type is written.
    #[verifier::loop_isolation(false)]
    pub fn write_to(&self, s: &mut String)
        ensures
            final(s)@ == old(s)@ + type_text(self@),
        decreases self,
    {
        match self {
            Type::I32 => push_str(s, "I32"),
            Type::Unit => push_str(s, "Unit"),
            Type::UserType { name } => push_str(s, name.as_str()),
            Type::Func { args, ret } => {
                let ghost av = self@->Func_args;
                push_str(s, "Fn(");
                let ghost head = s@;
                let mut i: usize = 0;
                assert(av.subrange(0, 0) =~= Seq::<TypeV>::empty());
                assert(s@ =~= head + types_text(av.subrange(0, 0)));
                while i < args.len()
                    invariant
                        i <= args.len(),
                        av.len() == args.len(),
                        s@ == head + types_text(av.subrange(0, i as int)),
                    decreases args.len() - i,
                {
                    proof {
                        assert(decreases_to!(args => args[i as int]));
                        assert(av.subrange(0, i + 1).drop_last() =~= av.subrange(0, i as int));
                    }
                    if i > 0 {
                        crate::text::push_char(s, ',');
                    }
                    args[i].write_to(s);
                    proof {
                        if i == 0 {
                            assert(av.subrange(0, 1) =~= seq![av[0]]);
                        }
                    }
                    assert(s@ =~= head + types_text(av.subrange(0, i + 1)));
                    i = i + 1;
                }
                assert(av.subrange(0, i as int) =~= av);
                push_str(s, ")->");
                ret.write_to(s);
                assert(s@ =~= old(s)@ + type_text(self@));
            },
        }
    }

    /// A copy whose model is that of `self`.
    #[verifier::loop_isolation(false)]
    pub fn duplicate(&self) -> (r: Type)
        ensures
            r@ == self@,
        decreases self,
    {
        match self {
            Type::I32 => Type::I32,
            Type::Unit => Type::Unit,
            Type::Func { args, ret } => {
                let mut out: Vec<Box<Type>> = Vec::new();
                let mut i: usize = 0;
                while i < args.len()
                    invariant
                        i <= args.len(),
                        out.len() == i,
                        forall|j: int| 0 <= j < i ==> (*out[j])@ == (*args[j])@,
                    decreases args.len() - i,
                {
                    proof {
                        assert(decreases_to!(args => args[i as int]));
                    }
                    let t = args[i].duplicate();
                    out.push(Box::new(t));
                    i = i + 1;
                }
                let r = Type::Func { args: out, ret: Box::new(ret.duplicate()) };
                assert(r@->Func_args =~= self@->Func_args);
                r
            },
            Type::UserType { name } => Type::UserType { name: name.clone() },
        }
    }

    /// Structural equality; user types are equal when their names are.
    #[verifier::loop_isolation(false)]
    pub fn same_as(&self, other: &Type) -> (r: bool)
        ensures
            r == (self@ == other@),
        decreases self,
    {
        match (self, other) {
            (Type::I32, Type::I32) => true,
            (Type::Unit, Type::Unit) => true,
            (Type::UserType { name: x }, Type::UserType { name: y }) => str_eq(
                x.as_str(),
                y.as_str(),
            ),
            (Type::Func { args: xa, ret: xr }, Type::Func { args: ya, ret: yr }) => {
                if xa.len() != ya.len() {
                    assert(self@->Func_args.len() != other@->Func_args.len());
                    return false;
                }
                let mut i: usize = 0;
                while i < xa.len()
                    invariant
                        i <= xa.len(),
                        xa.len() == ya.len(),
                        forall|j: int| 0 <= j < i ==> (*xa[j])@ == (*ya[j])@,
                    decreases xa.len() - i,
                {
                    proof {
                        assert(decreases_to!(xa => xa[i as int]));
                    }
                    if !xa[i].same_as(&ya[i]) {
                        assert(self@->Func_args[i as int] != other@->Func_args[i as int]);
                        return false;
                    }
                    i = i + 1;
                }
                assert(self@->Func_args =~= other@->Func_args);
                xr.same_as(yr)
            },
            _ => false,
        }
    }
}

impl PartialEq for Type {
    fn eq(&self, other: &Type) -> (r: bool) {
        self.same_as(other)
    }
}

impl vstd::std_specs::cmp::PartialEqSpecImpl for Type {
    open spec fn obeys_eq_spec() -> bool {
        true
    }

    open spec fn eq_spec(&self, other: &Type) -> bool {
        self@ == other@
    }
}

/// An expression together with the type it was found to have.
#[derive(Debug)]
pub struct TypedExpr {
    pub expr: Box<Expr>,
    pub expr_type: Option<Type>,
}

impl TypedExpr {
    pub fn new(expr: Box<Expr>, expr_type: Option<Type>) -> (r: TypedExpr)
        ensures
            r.expr == expr,
            r.expr_type == expr_type,
    {
        TypedExpr { expr, expr_type }
    }
}

} // verus!
