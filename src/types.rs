use vstd::prelude::*;
use crate::text::{push_str};

verus! {

/// A runtime or static type.
#[derive(Debug, PartialEq)]
pub enum Ty {
    Int,
    Float,
    Length,
    Angle,
    Bool,
    String,
    Vec3,
    Solid,
    Mesh,
    List(Box<Ty>),
    Fn { params: Vec<Ty>, ret: Box<Ty> },
    Data(String),
    Enum(String),
    Unit,
}

/// How a type is written: `List[Int]`, `Fn(Int, Float) -> Bool`, or its
/// name.
pub open spec fn ty_text(t: Ty) -> Seq<char>
    decreases t, 1int,
{
    match t {
        Ty::Int => "Int"@,
        Ty::Float => "Float"@,
        Ty::Length => "Length"@,
        Ty::Angle => "Angle"@,
        Ty::Bool => "Bool"@,
        Ty::String => "String"@,
        Ty::Vec3 => "Vec3"@,
        Ty::Solid => "Solid"@,
        Ty::Mesh => "Mesh"@,
        Ty::List(inner) => "List["@ + ty_text(*inner) + "]"@,
        Ty::Fn { params, ret } => "Fn("@ + tys_text(params@, params@.len() as int) + ") -> "@ + ty_text(*ret),
        Ty::Data(name) => name@,
        Ty::Enum(name) => name@,
        Ty::Unit => "Unit"@,
    }
}

/// The first `n` types, separated by `, `.
pub open spec fn tys_text(ts: Seq<Ty>, n: int) -> Seq<char>
    decreases ts, 0int, n,
{
    if n <= 0 || n > ts.len() {
        seq![]
    } else if n == 1 {
        ty_text(ts[0])
    } else {
        tys_text(ts, n - 1) + ", "@ + ty_text(ts[n - 1])
    }
}

impl Ty {
    /// How this type is written.
    pub fn to_text(&self) -> (r: String)
        ensures
            r@ == ty_text(*self),
        decreases self,
    {
        let mut r = String::new();
        match self {
            Ty::Int => push_str(&mut r, "Int"),
            Ty::Float => push_str(&mut r, "Float"),
            Ty::Length => push_str(&mut r, "Length"),
            Ty::Angle => push_str(&mut r, "Angle"),
            Ty::Bool => push_str(&mut r, "Bool"),
            Ty::String => push_str(&mut r, "String"),
            Ty::Vec3 => push_str(&mut r, "Vec3"),
            Ty::Solid => push_str(&mut r, "Solid"),
            Ty::Mesh => push_str(&mut r, "Mesh"),
            Ty::List(inner) => {
                push_str(&mut r, "List[");
                let s = inner.to_text();
                push_str(&mut r, s.as_str());
                push_str(&mut r, "]");
            },
            Ty::Fn { params, ret } => {
                push_str(&mut r, "Fn(");
                let mut i: usize = 0;
                while i < params.len()
                    invariant
                        i <= params@.len(),
                        *self == (Ty::Fn { params: *params, ret: *ret }),
                        r@ == "Fn("@ + tys_text(params@, i as int),
                    decreases params@.len() - i,
                {
                    proof {
                        assert(decreases_to!(*self => (*self)->Fn_params));
                        assert((*self)->Fn_params == *params);
                        assert(decreases_to!(*params => params@));
                        assert(decreases_to!(params@ => params@[i as int]));
                    }
                    if i > 0 {
                        push_str(&mut r, ", ");
                    }
                    let s = params[i].to_text();
                    push_str(&mut r, s.as_str());
                    proof {
                        if i == 0 {
                            assert(r@ =~= "Fn("@ + tys_text(params@, 1));
                        } else {
                            assert(r@ =~= "Fn("@ + tys_text(params@, i + 1));
                        }
                    }
                    i = i + 1;
                }
                push_str(&mut r, ") -> ");
                let s = ret.to_text();
                push_str(&mut r, s.as_str());
            },
            Ty::Data(name) => push_str(&mut r, name.as_str()),
            Ty::Enum(name) => push_str(&mut r, name.as_str()),
            Ty::Unit => push_str(&mut r, "Unit"),
        }
        proof {
            reveal_strlit("");
        }
        r
    }
}

} // verus!
