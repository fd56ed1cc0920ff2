//! S-expression trees as read from source text.
use vstd::prelude::*;

verus! {

/// An S-expression: a symbol, an integer, a non-integer numeric atom, or a list.
pub enum SExpr {
    Sym(String),
    Int(i64),
    Float,
    List(Vec<SExpr>),
}

/// The mathematical value of an [`SExpr`].
pub enum SExprV {
    Sym(Seq<char>),
    Int(int),
    Float,
    List(Seq<SExprV>),
}

impl View for SExpr {
    type V = SExprV;

    open spec fn view(&self) -> SExprV
        decreases self,
    {
        match self {
            SExpr::Sym(s) => SExprV::Sym(s@),
            SExpr::Int(n) => SExprV::Int(*n as int),
            SExpr::Float => SExprV::Float,
            SExpr::List(v) => SExprV::List(
                Seq::new(v@.len(), |i: int| if 0 <= i < v@.len() { v@[i]@ } else { SExprV::Float }),
            ),
        }
    }
}

} // verus!

verus! {

#[verifier::external_type_specification]
#[verifier::external_body]
pub struct ExSexp(sexp::Sexp);

/// What the S-expression reader makes of a text: `None` where it refuses it.
pub uninterp spec fn reading(src: Seq<char>) -> Option<SExprV>;

/// Relies on `sexp::parse`: it reads one S-expression that spans the whole text, or fails;
/// the outcome depends on the text alone.
#[verifier::external_body]
pub(crate) fn read_sexp(src: &str) -> (r: Option<SExpr>)
    ensures
        r matches Some(t) ==> reading(src@) == Some(t@),
        r is None ==> reading(src@) is None,
{
    sexp::parse(src).ok().map(|t| from_outside(&t))
}

/// Relies on the shape of `sexp::Sexp`: the same tree, atom for atom, with the value of a
/// floating-point atom left out.
#[verifier::external_body]
fn from_outside(t: &sexp::Sexp) -> SExpr {
    match t {
        sexp::Sexp::Atom(sexp::Atom::S(s)) => SExpr::Sym(s.clone()),
        sexp::Sexp::Atom(sexp::Atom::I(n)) => SExpr::Int(*n),
        sexp::Sexp::Atom(sexp::Atom::F(_)) => SExpr::Float,
        sexp::Sexp::List(v) => SExpr::List(v.iter().map(from_outside).collect()),
    }
}

} // verus!

verus! {

/// The views of a sequence of S-expressions.
pub open spec fn sexprs_view(v: Seq<SExpr>) -> Seq<SExprV> {
    Seq::new(v.len(), |i: int| v[i]@)
}

/// The view of a list is the list of the views of its items.
pub proof fn lemma_list_view(s: SExpr)
    requires
        s is List,
    ensures
        s@ == SExprV::List(sexprs_view(s->List_0@)),
{
    assert(s@->List_0 =~= sexprs_view(s->List_0@));
}

} // verus!
