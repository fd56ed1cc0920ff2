//! The abstract syntax of programs.
use vstd::prelude::*;

verus! {

/// Unary primitives.
#[derive(Clone, Copy, Debug, PartialEq, Eq, Structural)]
pub enum Op1 {
    Add1,
    Sub1,
    IsNum,
    IsBool,
}

/// Binary primitives.
#[derive(Clone, Copy, Debug, PartialEq, Eq, Structural)]
pub enum Op2 {
    Plus,
    Minus,
    Times,
    Equal,
    Greater,
    GreaterEqual,
    Less,
    LessEqual,
}

/// An expression.
#[derive(Debug)]
pub enum Expr {
    Number(i64),
    Boolean(bool),
    Input,
    Id(String),
    Let(Vec<Binding>, Box<Expr>),
    UnOp(Op1, Box<Expr>),
    BinOp(Op2, Box<Expr>, Box<Expr>),
    Assign(String, Box<Expr>),
    If(Box<Expr>, Box<Expr>, Box<Expr>),
    Block(Vec<Expr>),
    Loop(Box<Expr>),
    Break(Box<Expr>),
    Call(String, Vec<Expr>),
    Print(Box<Expr>),
}

/// One binding of a `let`: a name and the expression whose value it takes.
#[derive(Debug)]
pub struct Binding {
    pub name: String,
    pub rhs: Expr,
}

/// A function definition: its name, its parameters and its body.
#[derive(Debug)]
pub enum Definition {
    Func(String, Vec<String>, Expr),
}

/// A program: function definitions followed by the main expression.
#[derive(Debug)]
pub struct Program {
    pub defs: Vec<Definition>,
    pub main: Expr,
}

/// The mathematical value of an [`Expr`].
pub enum ExprV {
    Number(int),
    Boolean(bool),
    Input,
    Id(Seq<char>),
    Let(Seq<(Seq<char>, ExprV)>, Box<ExprV>),
    UnOp(Op1, Box<ExprV>),
    BinOp(Op2, Box<ExprV>, Box<ExprV>),
    Assign(Seq<char>, Box<ExprV>),
    If(Box<ExprV>, Box<ExprV>, Box<ExprV>),
    Block(Seq<ExprV>),
    Loop(Box<ExprV>),
    Break(Box<ExprV>),
    Call(Seq<char>, Seq<ExprV>),
    Print(Box<ExprV>),
}

/// The mathematical value of a [`Definition`].
pub struct DefinitionV {
    pub name: Seq<char>,
    pub params: Seq<Seq<char>>,
    pub body: ExprV,
}

/// The mathematical value of a [`Program`].
pub struct ProgramV {
    pub defs: Seq<DefinitionV>,
    pub main: ExprV,
}

/// The view of one binding.
pub open spec fn binding_view(b: Binding) -> (Seq<char>, ExprV)
    decreases b,
{
    (b.name@, b.rhs@)
}

/// The views of a vector of strings.
pub open spec fn strings_view(v: Seq<String>) -> Seq<Seq<char>> {
    Seq::new(v.len(), |i: int| v[i]@)
}

impl View for Expr {
    type V = ExprV;

    open spec fn view(&self) -> ExprV
        decreases self,
    {
        match self {
            Expr::Number(n) => ExprV::Number(*n as int),
            Expr::Boolean(b) => ExprV::Boolean(*b),
            Expr::Input => ExprV::Input,
            Expr::Id(s) => ExprV::Id(s@),
            Expr::Let(bs, body) => ExprV::Let(
                Seq::new(
                    bs@.len(),
                    |i: int|
                        if 0 <= i < bs@.len() {
                            binding_view(bs@[i])
                        } else {
                            (Seq::empty(), ExprV::Input)
                        },
                ),
                Box::new((**body)@),
            ),
            Expr::UnOp(op, e) => ExprV::UnOp(*op, Box::new((**e)@)),
            Expr::BinOp(op, l, r) => ExprV::BinOp(*op, Box::new((**l)@), Box::new((**r)@)),
            Expr::Assign(s, e) => ExprV::Assign(s@, Box::new((**e)@)),
            Expr::If(c, t, e) => ExprV::If(Box::new((**c)@), Box::new((**t)@), Box::new((**e)@)),
            Expr::Block(es) => ExprV::Block(
                Seq::new(es@.len(), |i: int| if 0 <= i < es@.len() { es@[i]@ } else { ExprV::Input }),
            ),
            Expr::Loop(e) => ExprV::Loop(Box::new((**e)@)),
            Expr::Break(e) => ExprV::Break(Box::new((**e)@)),
            Expr::Call(f, es) => ExprV::Call(
                f@,
                Seq::new(es@.len(), |i: int| if 0 <= i < es@.len() { es@[i]@ } else { ExprV::Input }),
            ),
            Expr::Print(e) => ExprV::Print(Box::new((**e)@)),
        }
    }
}

impl View for Definition {
    type V = DefinitionV;

    open spec fn view(&self) -> DefinitionV {
        match self {
            Definition::Func(name, params, body) => DefinitionV {
                name: name@,
                params: strings_view(params@),
                body: body@,
            },
        }
    }
}

impl View for Program {
    type V = ProgramV;

    open spec fn view(&self) -> ProgramV {
        ProgramV { defs: defs_view(self.defs@), main: self.main@ }
    }
}

} // verus!

verus! {

/// The views of a sequence of expressions.
pub open spec fn exprs_view(es: Seq<Expr>) -> Seq<ExprV> {
    Seq::new(es.len(), |i: int| es[i]@)
}

/// The views of a sequence of bindings.
pub open spec fn binds_view(bs: Seq<Binding>) -> Seq<(Seq<char>, ExprV)> {
    Seq::new(bs.len(), |i: int| binding_view(bs[i]))
}

/// The views of a sequence of definitions.
pub open spec fn defs_view(ds: Seq<Definition>) -> Seq<DefinitionV> {
    Seq::new(ds.len(), |i: int| ds[i]@)
}

/// The view of an expression with a list inside is built from the views of its items.
pub proof fn lemma_expr_view(e: Expr)
    ensures
        e matches Expr::Let(bs, body) ==> e@ == ExprV::Let(binds_view(bs@), Box::new((*body)@)),
        e matches Expr::Block(es) ==> e@ == ExprV::Block(exprs_view(es@)),
        e matches Expr::Call(f, es) ==> e@ == ExprV::Call(f@, exprs_view(es@)),
{
    match e {
        Expr::Let(bs, body) => {
            assert(e@->Let_0 =~= binds_view(bs@));
        },
        Expr::Block(es) => {
            assert(e@->Block_0 =~= exprs_view(es@));
        },
        Expr::Call(f, es) => {
            assert(e@->Call_1 =~= exprs_view(es@));
        },
        _ => {},
    }
}

} // verus!
