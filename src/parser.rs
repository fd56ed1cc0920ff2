//! From S-expressions to programs: shape, arity, literal and reserved-word checks.
use vstd::prelude::*;
use crate::ast::{
    Binding, Definition, DefinitionV, Expr, ExprV, Op1, Op2, Program, ProgramV, binds_view,
    defs_view, exprs_view, lemma_expr_view, strings_view,
};
use crate::error::{CompileError, ErrV, ErrorKind, result_view};
use crate::sexpr::{SExpr, SExprV, lemma_list_view, sexprs_view};

verus! {

/// The error that carries no name.
pub open spec fn plain_err(k: ErrorKind) -> ErrV {
    (k, Seq::empty())
}

/// Words that cannot be bound as variables or parameters.
pub open spec fn is_reserved_word(s: Seq<char>) -> bool {
    ||| s == "true"@
    ||| s == "false"@
    ||| s == "input"@
    ||| s == "let"@
    ||| s == "set!"@
    ||| s == "if"@
    ||| s == "block"@
    ||| s == "loop"@
    ||| s == "break"@
    ||| s == "add1"@
    ||| s == "sub1"@
    ||| s == "isnum"@
    ||| s == "isbool"@
    ||| s == "print"@
    ||| s == "fun"@
    ||| s == "+"@
    ||| s == "-"@
    ||| s == "*"@
    ||| s == "<"@
    ||| s == ">"@
    ||| s == ">="@
    ||| s == "<="@
    ||| s == "="@
}

/// Labels of the runtime interface, which no function may take as its name.
pub open spec fn is_reserved_label(s: Seq<char>) -> bool {
    ||| s == "throw_error"@
    ||| s == "snek_print"@
    ||| s == "snek_error"@
    ||| s == "our_code_starts_here"@
}

/// Whether a character is an ASCII decimal digit.
pub open spec fn is_digit(c: char) -> bool {
    '0' <= c <= '9'
}

/// Whether `s` is the word `p` followed by one or more decimal digits.
pub open spec fn prefix_then_digits(s: Seq<char>, p: Seq<char>) -> bool {
    &&& s.len() > p.len()
    &&& s.subrange(0, p.len() as int) == p
    &&& forall|i: int| p.len() <= i < s.len() ==> is_digit(#[trigger] s[i])
}

/// Whether a name has the form of a label the code generator makes from its counter.
pub open spec fn is_generated_label(s: Seq<char>) -> bool {
    ||| prefix_then_digits(s, "cmp_end_label"@)
    ||| prefix_then_digits(s, "ifend"@)
    ||| prefix_then_digits(s, "ifelse"@)
    ||| prefix_then_digits(s, "loop_start"@)
    ||| prefix_then_digits(s, "loop_end"@)
}

/// Whether a name is one of the registers the generated code names.
pub open spec fn is_register_name(s: Seq<char>) -> bool {
    s == "rax"@ || s == "rbx"@ || s == "rcx"@ || s == "rsp"@ || s == "rdi"@
}

/// Whether a name can label a function: no label of the runtime interface, no register and
/// nothing of the form of a generated label, so that every label of the output is unique.
pub open spec fn is_function_name(s: Seq<char>) -> bool {
    !is_reserved_label(s) && !is_register_name(s) && !is_generated_label(s)
}

/// The unary primitive that a head symbol names.
pub open spec fn unop_of(op: Seq<char>) -> Option<Op1> {
    if op == "add1"@ {
        Some(Op1::Add1)
    } else if op == "sub1"@ {
        Some(Op1::Sub1)
    } else if op == "isnum"@ {
        Some(Op1::IsNum)
    } else if op == "isbool"@ {
        Some(Op1::IsBool)
    } else {
        None
    }
}

/// The binary primitive that a head symbol names.
pub open spec fn binop_of(op: Seq<char>) -> Option<Op2> {
    if op == "+"@ {
        Some(Op2::Plus)
    } else if op == "-"@ {
        Some(Op2::Minus)
    } else if op == "*"@ {
        Some(Op2::Times)
    } else if op == "<"@ {
        Some(Op2::Less)
    } else if op == ">"@ {
        Some(Op2::Greater)
    } else if op == ">="@ {
        Some(Op2::GreaterEqual)
    } else if op == "<="@ {
        Some(Op2::LessEqual)
    } else if op == "="@ {
        Some(Op2::Equal)
    } else {
        None
    }
}

/// Integers that a tagged word can hold: `[-2^62, 2^62)`.
pub open spec fn in_value_range(n: int) -> bool {
    -0x4000_0000_0000_0000 <= n < 0x4000_0000_0000_0000
}

/// The expression that a symbol stands for.
pub open spec fn atom_spec(x: Seq<char>) -> ExprV {
    if x == "true"@ {
        ExprV::Boolean(true)
    } else if x == "false"@ {
        ExprV::Boolean(false)
    } else if x == "input"@ {
        ExprV::Input
    } else {
        ExprV::Id(x)
    }
}

/// All the values of a sequence of results, or the first error among them.
pub open spec fn collect<T>(rs: Seq<Result<T, ErrV>>) -> Result<Seq<T>, ErrV>
    decreases rs.len(),
{
    if rs.len() == 0 {
        Ok(Seq::empty())
    } else {
        match collect(rs.drop_last()) {
            Err(e) => Err(e),
            Ok(xs) => match rs.last() {
                Ok(x) => Ok(xs.push(x)),
                Err(e) => Err(e),
            },
        }
    }
}

/// Once a prefix of the results holds an error, the whole sequence yields that error.
pub proof fn lemma_collect_prefix_err<T>(rs: Seq<Result<T, ErrV>>, k: int, e: ErrV)
    requires
        0 <= k <= rs.len(),
        collect(rs.take(k)) == Err::<Seq<T>, ErrV>(e),
    ensures
        collect(rs) == Err::<Seq<T>, ErrV>(e),
    decreases rs.len() - k,
{
    if k == rs.len() {
        assert(rs.take(k) =~= rs);
    } else {
        assert(rs.take(k + 1).drop_last() =~= rs.take(k));
        lemma_collect_prefix_err(rs, k + 1, e);
    }
}

/// One more result at the end of a prefix.
pub proof fn lemma_collect_step<T>(rs: Seq<Result<T, ErrV>>, k: int)
    requires
        0 <= k < rs.len(),
    ensures
        collect(rs.take(k + 1)) == match collect(rs.take(k)) {
            Err(e) => Err(e),
            Ok(xs) => match rs[k] {
                Ok(x) => Ok(xs.push(x)),
                Err(e) => Err::<Seq<T>, ErrV>(e),
            },
        },
{
    assert(rs.take(k + 1).drop_last() =~= rs.take(k));
}

/// The expression of each item from index `from` on.
pub open spec fn parse_each(items: Seq<SExprV>, from: int) -> Seq<Result<ExprV, ErrV>>
    decreases items,
{
    Seq::new(
        (items.len() - from) as nat,
        |i: int|
            if 0 <= from && 0 <= i + from < items.len() {
                parse_expr_spec(items[i + from])
            } else {
                Err(plain_err(ErrorKind::Invalid))
            },
    )
}

/// The binding that each item of a `let` binding list stands for.
pub open spec fn parse_binds_spec(bs: Seq<SExprV>) -> Seq<Result<(Seq<char>, ExprV), ErrV>>
    decreases bs,
{
    Seq::new(
        bs.len(),
        |i: int|
            if 0 <= i < bs.len() {
                parse_bind_spec(bs[i])
            } else {
                Err(plain_err(ErrorKind::Invalid))
            },
    )
}

/// A binding `(name expr)`.
pub open spec fn parse_bind_spec(b: SExprV) -> Result<(Seq<char>, ExprV), ErrV>
    decreases b,
{
    match b {
        SExprV::List(p) => if p.len() == 2 {
            match p[0] {
                SExprV::Sym(x) => if is_reserved_word(x) {
                    Err((ErrorKind::Keyword, x))
                } else {
                    match parse_expr_spec(p[1]) {
                        Ok(e) => Ok((x, e)),
                        Err(e) => Err(e),
                    }
                },
                _ => Err(plain_err(ErrorKind::Invalid)),
            }
        } else {
            Err(plain_err(ErrorKind::Invalid))
        },
        _ => Err(plain_err(ErrorKind::Invalid)),
    }
}

/// The expression that an S-expression stands for, or the first error found in it.
pub open spec fn parse_expr_spec(s: SExprV) -> Result<ExprV, ErrV>
    decreases s,
{
    match s {
        SExprV::Int(n) => if in_value_range(n) {
            Ok(ExprV::Number(n))
        } else {
            Err(plain_err(ErrorKind::Invalid))
        },
        SExprV::Float => Err(plain_err(ErrorKind::Invalid)),
        SExprV::Sym(x) => Ok(atom_spec(x)),
        SExprV::List(items) => if items.len() == 0 {
            Err(plain_err(ErrorKind::Invalid))
        } else {
            match items[0] {
                SExprV::Sym(op) => {
                    let n = items.len();
                    if op == "let"@ {
                        if n >= 3 {
                            match items[1] {
                                SExprV::List(bs) => if bs.len() == 0 {
                                    Err(plain_err(ErrorKind::Invalid))
                                } else {
                                    match collect(parse_binds_spec(bs)) {
                                        Err(e) => Err(e),
                                        Ok(binds) => if n == 3 {
                                            match parse_expr_spec(items[2]) {
                                                Err(e) => Err(e),
                                                Ok(body) => Ok(ExprV::Let(binds, Box::new(body))),
                                            }
                                        } else {
                                            match collect(parse_each(items, 2)) {
                                                Err(e) => Err(e),
                                                Ok(es) => Ok(
                                                    ExprV::Let(binds, Box::new(ExprV::Block(es))),
                                                ),
                                            }
                                        },
                                    }
                                },
                                _ => Err(plain_err(ErrorKind::Invalid)),
                            }
                        } else {
                            Err(plain_err(ErrorKind::Invalid))
                        }
                    } else if unop_of(op) is Some {
                        if n == 2 {
                            match parse_expr_spec(items[1]) {
                                Err(e) => Err(e),
                                Ok(e) => Ok(ExprV::UnOp(unop_of(op)->0, Box::new(e))),
                            }
                        } else {
                            Err(plain_err(ErrorKind::Invalid))
                        }
                    } else if binop_of(op) is Some {
                        if n == 3 {
                            match parse_expr_spec(items[1]) {
                                Err(e) => Err(e),
                                Ok(l) => match parse_expr_spec(items[2]) {
                                    Err(e) => Err(e),
                                    Ok(r) => Ok(
                                        ExprV::BinOp(binop_of(op)->0, Box::new(l), Box::new(r)),
                                    ),
                                },
                            }
                        } else {
                            Err(plain_err(ErrorKind::Invalid))
                        }
                    } else if op == "print"@ || op == "loop"@ || op == "break"@ {
                        if n == 2 {
                            match parse_expr_spec(items[1]) {
                                Err(e) => Err(e),
                                Ok(e) => Ok(
                                    if op == "print"@ {
                                        ExprV::Print(Box::new(e))
                                    } else if op == "loop"@ {
                                        ExprV::Loop(Box::new(e))
                                    } else {
                                        ExprV::Break(Box::new(e))
                                    },
                                ),
                            }
                        } else {
                            Err(plain_err(ErrorKind::Invalid))
                        }
                    } else if op == "if"@ {
                        if n == 4 {
                            match parse_expr_spec(items[1]) {
                                Err(e) => Err(e),
                                Ok(c) => match parse_expr_spec(items[2]) {
                                    Err(e) => Err(e),
                                    Ok(t) => match parse_expr_spec(items[3]) {
                                        Err(e) => Err(e),
                                        Ok(f) => Ok(
                                            ExprV::If(Box::new(c), Box::new(t), Box::new(f)),
                                        ),
                                    },
                                },
                            }
                        } else {
                            Err(plain_err(ErrorKind::Invalid))
                        }
                    } else if op == "set!"@ {
                        if n == 3 {
                            match items[1] {
                                SExprV::Sym(x) => match parse_expr_spec(items[2]) {
                                    Err(e) => Err(e),
                                    Ok(e) => Ok(ExprV::Assign(x, Box::new(e))),
                                },
                                _ => Err(plain_err(ErrorKind::Invalid)),
                            }
                        } else {
                            Err(plain_err(ErrorKind::Invalid))
                        }
                    } else if op == "block"@ {
                        if n >= 2 {
                            match collect(parse_each(items, 1)) {
                                Err(e) => Err(e),
                                Ok(es) => Ok(ExprV::Block(es)),
                            }
                        } else {
                            Err(plain_err(ErrorKind::Invalid))
                        }
                    } else if is_reserved_word(op) {
                        Err(plain_err(ErrorKind::Invalid))
                    } else {
                        match collect(parse_each(items, 1)) {
                            Err(e) => Err(e),
                            Ok(es) => Ok(ExprV::Call(op, es)),
                        }
                    }
                },
                _ => Err(plain_err(ErrorKind::Invalid)),
            }
        },
    }
}

} // verus!

verus! {

/// Whether a string is the word `w`.
fn word_is(s: &String, w: &str) -> (r: bool)
    ensures
        r == (s@ == w@),
{
    let t = String::from_str(w);
    *s == t
}

/// Whether a name is a reserved word.
pub fn reserved_word(s: &String) -> (r: bool)
    ensures
        r == is_reserved_word(s@),
{
    word_is(s, "true") || word_is(s, "false") || word_is(s, "input") || word_is(s, "let")
        || word_is(s, "set!") || word_is(s, "if") || word_is(s, "block") || word_is(s, "loop")
        || word_is(s, "break") || word_is(s, "add1") || word_is(s, "sub1") || word_is(s, "isnum")
        || word_is(s, "isbool") || word_is(s, "print") || word_is(s, "fun") || word_is(s, "+")
        || word_is(s, "-") || word_is(s, "*") || word_is(s, "<") || word_is(s, ">") || word_is(
        s,
        ">=",
    ) || word_is(s, "<=") || word_is(s, "=")
}

/// Whether a name is a label of the runtime interface.
pub fn reserved_label(s: &String) -> (r: bool)
    ensures
        r == is_reserved_label(s@),
{
    word_is(s, "throw_error") || word_is(s, "snek_print") || word_is(s, "snek_error") || word_is(
        s,
        "our_code_starts_here",
    )
}

/// Whether `s` is the word `p` followed by one or more decimal digits.
fn has_prefix_then_digits(s: &String, p: &str) -> (r: bool)
    ensures
        r == prefix_then_digits(s@, p@),
{
    let t = s.as_str();
    let n = t.unicode_len();
    let m = p.unicode_len();
    if n <= m {
        return false;
    }
    let mut i: usize = 0;
    while i < m
        invariant
            i <= m < n,
            n == s@.len(),
            m == p@.len(),
            t@ == s@,
            forall|j: int| 0 <= j < i ==> s@[j] == p@[j],
        decreases m - i,
    {
        if t.get_char(i) != p.get_char(i) {
            assert(s@.subrange(0, m as int)[i as int] != p@[i as int]);
            return false;
        }
        i += 1;
    }
    assert(s@.subrange(0, m as int) =~= p@);
    while i < n
        invariant
            m <= i <= n,
            n == s@.len(),
            m == p@.len(),
            t@ == s@,
            forall|j: int| m <= j < i ==> is_digit(#[trigger] s@[j]),
        decreases n - i,
    {
        let c = t.get_char(i);
        if !('0' <= c && c <= '9') {
            return false;
        }
        i += 1;
    }
    true
}

/// Whether a name can label a function.
pub fn function_name(s: &String) -> (r: bool)
    ensures
        r == is_function_name(s@),
{
    !reserved_label(s) && !(word_is(s, "rax") || word_is(s, "rbx") || word_is(s, "rcx")
        || word_is(s, "rsp") || word_is(s, "rdi")) && !(has_prefix_then_digits(s, "cmp_end_label")
        || has_prefix_then_digits(s, "ifend") || has_prefix_then_digits(s, "ifelse")
        || has_prefix_then_digits(s, "loop_start") || has_prefix_then_digits(s, "loop_end"))
}

fn unop(op: &String) -> (r: Option<Op1>)
    ensures
        r == unop_of(op@),
{
    if word_is(op, "add1") {
        Some(Op1::Add1)
    } else if word_is(op, "sub1") {
        Some(Op1::Sub1)
    } else if word_is(op, "isnum") {
        Some(Op1::IsNum)
    } else if word_is(op, "isbool") {
        Some(Op1::IsBool)
    } else {
        None
    }
}

fn binop(op: &String) -> (r: Option<Op2>)
    ensures
        r == binop_of(op@),
{
    if word_is(op, "+") {
        Some(Op2::Plus)
    } else if word_is(op, "-") {
        Some(Op2::Minus)
    } else if word_is(op, "*") {
        Some(Op2::Times)
    } else if word_is(op, "<") {
        Some(Op2::Less)
    } else if word_is(op, ">") {
        Some(Op2::Greater)
    } else if word_is(op, ">=") {
        Some(Op2::GreaterEqual)
    } else if word_is(op, "<=") {
        Some(Op2::LessEqual)
    } else if word_is(op, "=") {
        Some(Op2::Equal)
    } else {
        None
    }
}

fn invalid() -> (r: CompileError)
    ensures
        r@ == plain_err(ErrorKind::Invalid),
{
    CompileError::plain(ErrorKind::Invalid)
}

/// The view of a parsed list of expressions.
pub open spec fn exprs_result(r: Result<Vec<Expr>, CompileError>) -> Result<Seq<ExprV>, ErrV> {
    match r {
        Ok(v) => Ok(exprs_view(v@)),
        Err(e) => Err(e@),
    }
}

/// The view of a parsed binding list.
pub open spec fn binds_result(r: Result<Vec<Binding>, CompileError>) -> Result<
    Seq<(Seq<char>, ExprV)>,
    ErrV,
> {
    match r {
        Ok(v) => Ok(binds_view(v@)),
        Err(e) => Err(e@),
    }
}

/// The view of a parsed binding.
pub open spec fn bind_result(r: Result<Binding, CompileError>) -> Result<(Seq<char>, ExprV), ErrV> {
    match r {
        Ok(b) => Ok((b.name@, b.rhs@)),
        Err(e) => Err(e@),
    }
}

/// Parses the items of a list from index `from` on, each as an expression.
fn parse_exprs(items: &Vec<SExpr>, from: usize) -> (r: Result<Vec<Expr>, CompileError>)
    requires
        from <= items.len(),
    ensures
        exprs_result(r) == collect(parse_each(sexprs_view(items@), from as int)),
    decreases items, 0nat,
{
    let ghost rs = parse_each(sexprs_view(items@), from as int);
    let mut out: Vec<Expr> = Vec::new();
    let mut i: usize = from;
    proof {
        assert(rs.take(0) =~= Seq::<Result<ExprV, ErrV>>::empty());
        assert(exprs_view(out@) =~= Seq::<ExprV>::empty());
    }
    while i < items.len()
        invariant
            from <= i <= items.len(),
            rs == parse_each(sexprs_view(items@), from as int),
            rs.len() == items.len() - from,
            collect(rs.take(i - from)) == Ok::<Seq<ExprV>, ErrV>(exprs_view(out@)),
        decreases items.len() - i,
    {
        proof {
            lemma_collect_step(rs, i - from);
        }
        match parse_expr(&items[i]) {
            Ok(e) => {
                let ghost before = out@;
                out.push(e);
                proof {
                    assert(exprs_view(out@) =~= exprs_view(before).push(e@));
                }
            },
            Err(e) => {
                proof {
                    lemma_collect_prefix_err(rs, i - from + 1, e@);
                }
                return Err(e);
            },
        }
        i += 1;
    }
    proof {
        assert(rs.take(i - from) =~= rs);
    }
    Ok(out)
}

/// Parses a binding `(name expr)`.
fn parse_bind(b: &SExpr) -> (r: Result<Binding, CompileError>)
    ensures
        bind_result(r) == parse_bind_spec(b@),
    decreases b, 0nat,
{
    proof {
        if b is List {
            lemma_list_view(*b);
        }
    }
    match b {
        SExpr::List(p) => {
            if p.len() == 2 {
                match &p[0] {
                    SExpr::Sym(x) => {
                        if reserved_word(x) {
                            Err(CompileError::named(ErrorKind::Keyword, x))
                        } else {
                            match parse_expr(&p[1]) {
                                Ok(e) => Ok(Binding { name: x.clone(), rhs: e }),
                                Err(e) => Err(e),
                            }
                        }
                    },
                    _ => Err(invalid()),
                }
            } else {
                Err(invalid())
            }
        },
        _ => Err(invalid()),
    }
}

/// Parses each item of a `let` binding list.
fn parse_binds(bs: &Vec<SExpr>) -> (r: Result<Vec<Binding>, CompileError>)
    ensures
        binds_result(r) == collect(parse_binds_spec(sexprs_view(bs@))),
    decreases bs, 0nat,
{
    let ghost rs = parse_binds_spec(sexprs_view(bs@));
    let mut out: Vec<Binding> = Vec::new();
    let mut i: usize = 0;
    proof {
        assert(rs.take(0) =~= Seq::<Result<(Seq<char>, ExprV), ErrV>>::empty());
        assert(binds_view(out@) =~= Seq::<(Seq<char>, ExprV)>::empty());
    }
    while i < bs.len()
        invariant
            i <= bs.len(),
            rs == parse_binds_spec(sexprs_view(bs@)),
            rs.len() == bs.len(),
            collect(rs.take(i as int)) == Ok::<Seq<(Seq<char>, ExprV)>, ErrV>(binds_view(out@)),
        decreases bs.len() - i,
    {
        proof {
            lemma_collect_step(rs, i as int);
        }
        match parse_bind(&bs[i]) {
            Ok(b) => {
                let ghost before = out@;
                out.push(b);
                proof {
                    assert(binds_view(out@) =~= binds_view(before).push((b.name@, b.rhs@)));
                }
            },
            Err(e) => {
                proof {
                    lemma_collect_prefix_err(rs, i + 1, e@);
                }
                return Err(e);
            },
        }
        i += 1;
    }
    proof {
        assert(rs.take(i as int) =~= rs);
    }
    Ok(out)
}

} // verus!

verus! {

fn atom(x: &String) -> (r: Expr)
    ensures
        r@ == atom_spec(x@),
{
    if word_is(x, "true") {
        Expr::Boolean(true)
    } else if word_is(x, "false") {
        Expr::Boolean(false)
    } else if word_is(x, "input") {
        Expr::Input
    } else {
        Expr::Id(x.clone())
    }
}

/// Parses one expression.
pub fn parse_expr(s: &SExpr) -> (r: Result<Expr, CompileError>)
    ensures
        result_view(r) == parse_expr_spec(s@),
    decreases s, 0nat,
{
    proof {
        if s is List {
            lemma_list_view(*s);
        }
    }
    match s {
        SExpr::Int(n) => {
            if -0x4000_0000_0000_0000i64 <= *n && *n < 0x4000_0000_0000_0000i64 {
                Ok(Expr::Number(*n))
            } else {
                Err(invalid())
            }
        },
        SExpr::Float => Err(invalid()),
        SExpr::Sym(x) => Ok(atom(x)),
        SExpr::List(items) => {
            if items.len() == 0 {
                return Err(invalid());
            }
            let n = items.len();
            match &items[0] {
                SExpr::Sym(op) => {
                    if word_is(op, "let") {
                        if n < 3 {
                            return Err(invalid());
                        }
                        match &items[1] {
                            SExpr::List(bs) => {
                                proof {
                                    lemma_list_view(items@[1]);
                                }
                                if bs.len() == 0 {
                                    return Err(invalid());
                                }
                                match parse_binds(bs) {
                                    Err(e) => Err(e),
                                    Ok(binds) => {
                                        let body = if n == 3 {
                                            match parse_expr(&items[2]) {
                                                Err(e) => {
                                                    return Err(e);
                                                },
                                                Ok(body) => body,
                                            }
                                        } else {
                                            match parse_exprs(items, 2) {
                                                Err(e) => {
                                                    return Err(e);
                                                },
                                                Ok(es) => {
                                                    let b = Expr::Block(es);
                                                    proof {
                                                        lemma_expr_view(b);
                                                    }
                                                    b
                                                },
                                            }
                                        };
                                        let r = Expr::Let(binds, Box::new(body));
                                        proof {
                                            lemma_expr_view(r);
                                        }
                                        Ok(r)
                                    },
                                }
                            },
                            _ => Err(invalid()),
                        }
                    } else if let Some(o) = unop(op) {
                        if n != 2 {
                            return Err(invalid());
                        }
                        match parse_expr(&items[1]) {
                            Err(e) => Err(e),
                            Ok(e) => Ok(Expr::UnOp(o, Box::new(e))),
                        }
                    } else if let Some(o) = binop(op) {
                        if n != 3 {
                            return Err(invalid());
                        }
                        match parse_expr(&items[1]) {
                            Err(e) => Err(e),
                            Ok(l) => match parse_expr(&items[2]) {
                                Err(e) => Err(e),
                                Ok(r) => Ok(Expr::BinOp(o, Box::new(l), Box::new(r))),
                            },
                        }
                    } else if word_is(op, "print") || word_is(op, "loop") || word_is(op, "break") {
                        if n != 2 {
                            return Err(invalid());
                        }
                        match parse_expr(&items[1]) {
                            Err(e) => Err(e),
                            Ok(e) => Ok(
                                if word_is(op, "print") {
                                    Expr::Print(Box::new(e))
                                } else if word_is(op, "loop") {
                                    Expr::Loop(Box::new(e))
                                } else {
                                    Expr::Break(Box::new(e))
                                },
                            ),
                        }
                    } else if word_is(op, "if") {
                        if n != 4 {
                            return Err(invalid());
                        }
                        match parse_expr(&items[1]) {
                            Err(e) => Err(e),
                            Ok(c) => match parse_expr(&items[2]) {
                                Err(e) => Err(e),
                                Ok(t) => match parse_expr(&items[3]) {
                                    Err(e) => Err(e),
                                    Ok(f) => Ok(Expr::If(Box::new(c), Box::new(t), Box::new(f))),
                                },
                            },
                        }
                    } else if word_is(op, "set!") {
                        if n != 3 {
                            return Err(invalid());
                        }
                        match &items[1] {
                            SExpr::Sym(x) => match parse_expr(&items[2]) {
                                Err(e) => Err(e),
                                Ok(e) => Ok(Expr::Assign(x.clone(), Box::new(e))),
                            },
                            _ => Err(invalid()),
                        }
                    } else if word_is(op, "block") {
                        if n < 2 {
                            return Err(invalid());
                        }
                        match parse_exprs(items, 1) {
                            Err(e) => Err(e),
                            Ok(es) => {
                                let r = Expr::Block(es);
                                proof {
                                    lemma_expr_view(r);
                                }
                                Ok(r)
                            },
                        }
                    } else if reserved_word(op) {
                        Err(invalid())
                    } else {
                        match parse_exprs(items, 1) {
                            Err(e) => Err(e),
                            Ok(es) => {
                                let r = Expr::Call(op.clone(), es);
                                proof {
                                    lemma_expr_view(r);
                                }
                                Ok(r)
                            },
                        }
                    }
                },
                _ => Err(invalid()),
            }
        },
    }
}

} // verus!

verus! {

/// Whether an S-expression has the shape `(fun (...) body)` of a definition.
pub open spec fn is_fun_def(s: SExprV) -> bool {
    &&& s matches SExprV::List(items)
    &&& items.len() == 3
    &&& items[0] == SExprV::Sym("fun"@)
    &&& items[1] is List
}

/// One name of a signature.
pub open spec fn sig_name(x: SExprV) -> Result<Seq<char>, ErrV> {
    match x {
        SExprV::Sym(n) => if is_reserved_word(n) {
            Err((ErrorKind::Keyword, n))
        } else {
            Ok(n)
        },
        _ => Err(plain_err(ErrorKind::Invalid)),
    }
}

/// The first name that repeats an earlier one.
pub open spec fn first_dup(ps: Seq<Seq<char>>) -> Option<Seq<char>>
    decreases ps.len(),
{
    if ps.len() == 0 {
        None
    } else {
        match first_dup(ps.drop_last()) {
            Some(x) => Some(x),
            None => if ps.drop_last().contains(ps.last()) {
                Some(ps.last())
            } else {
                None
            },
        }
    }
}

/// A repetition within a prefix is the first repetition of the whole sequence.
pub proof fn lemma_first_dup_prefix(ps: Seq<Seq<char>>, k: int, x: Seq<char>)
    requires
        0 <= k <= ps.len(),
        first_dup(ps.take(k)) == Some(x),
    ensures
        first_dup(ps) == Some(x),
    decreases ps.len() - k,
{
    if k == ps.len() {
        assert(ps.take(k) =~= ps);
    } else {
        assert(ps.take(k + 1).drop_last() =~= ps.take(k));
        lemma_first_dup_prefix(ps, k + 1, x);
    }
}

/// Each name of a signature.
pub open spec fn sig_names(sig: Seq<SExprV>) -> Seq<Result<Seq<char>, ErrV>> {
    Seq::new(sig.len(), |i: int| sig_name(sig[i]))
}

/// Each item of a program, read as a definition.
pub open spec fn parse_each_def(items: Seq<SExprV>) -> Seq<Result<DefinitionV, ErrV>> {
    Seq::new(items.len(), |i: int| parse_definition_spec(items[i]))
}

/// A definition `(fun (name p1 ...) body)`.
pub open spec fn parse_definition_spec(s: SExprV) -> Result<DefinitionV, ErrV> {
    match s {
        SExprV::List(items) => if items.len() == 3 {
            match items[1] {
                SExprV::List(sig) => match collect(sig_names(sig)) {
                    Err(e) => Err(e),
                    Ok(names) => if names.len() == 0 {
                        Err(plain_err(ErrorKind::Invalid))
                    } else if !is_function_name(names[0]) {
                        Err((ErrorKind::Invalid, names[0]))
                    } else {
                        match first_dup(names.drop_first()) {
                            Some(x) => Err((ErrorKind::Duplicate, x)),
                            None => match parse_expr_spec(items[2]) {
                                Err(e) => Err(e),
                                Ok(body) => Ok(
                                    DefinitionV {
                                        name: names[0],
                                        params: names.drop_first(),
                                        body,
                                    },
                                ),
                            },
                        }
                    },
                },
                _ => Err(plain_err(ErrorKind::Invalid)),
            }
        } else {
            Err(plain_err(ErrorKind::Invalid))
        },
        _ => Err(plain_err(ErrorKind::Invalid)),
    }
}

/// How many items at the front of a program are definitions.
pub open spec fn leading_defs(items: Seq<SExprV>) -> nat
    decreases items.len(),
{
    if items.len() > 0 && is_fun_def(items[0]) {
        1 + leading_defs(items.drop_first())
    } else {
        0
    }
}

/// A program: definitions, then the main expression as the last item.
pub open spec fn parse_program_spec(s: SExprV) -> Result<ProgramV, ErrV> {
    match s {
        SExprV::List(items) => {
            let k = leading_defs(items);
            match collect(parse_each_def(items).take(k as int)) {
                Err(e) => Err(e),
                Ok(defs) => if k == items.len() || k + 1 != items.len() {
                    Err(plain_err(ErrorKind::Invalid))
                } else {
                    match parse_expr_spec(items[k as int]) {
                        Err(e) => Err(e),
                        Ok(main) => Ok(ProgramV { defs, main }),
                    }
                },
            }
        },
        _ => Err(plain_err(ErrorKind::Invalid)),
    }
}

proof fn lemma_leading_defs(items: Seq<SExprV>, k: int)
    requires
        0 <= k <= items.len(),
        forall|j: int| 0 <= j < k ==> is_fun_def(#[trigger] items[j]),
        k == items.len() || !is_fun_def(items[k]),
    ensures
        leading_defs(items) == k,
    decreases k,
{
    if k > 0 {
        let rest = items.drop_first();
        assert forall|j: int| 0 <= j < k - 1 implies is_fun_def(#[trigger] rest[j]) by {
            assert(rest[j] == items[j + 1]);
        }
        lemma_leading_defs(rest, k - 1);
    }
}

/// The index of the first name that repeats an earlier one.
pub(crate) fn find_duplicate(names: &Vec<String>) -> (r: Option<usize>)
    ensures
        match r {
            None => first_dup(strings_view(names@)) is None,
            Some(j) => j < names.len() && first_dup(strings_view(names@)) == Some(names@[j as int]@),
        },
{
    let ghost sv = strings_view(names@);
    let mut i: usize = 0;
    proof {
        assert(sv.take(0) =~= Seq::<Seq<char>>::empty());
    }
    while i < names.len()
        invariant
            i <= names.len(),
            sv == strings_view(names@),
            first_dup(sv.take(i as int)) is None,
        decreases names.len() - i,
    {
        let mut j: usize = 0;
        while j < i
            invariant
                j <= i < names.len(),
                sv == strings_view(names@),
                first_dup(sv.take(i as int)) is None,
                forall|m: int| 0 <= m < j ==> sv[m] != sv[i as int],
            decreases i - j,
        {
            if names[j] == names[i] {
                proof {
                    assert(sv.take(i as int + 1).drop_last() =~= sv.take(i as int));
                    assert(sv.take(i as int)[j as int] == sv[i as int]);
                    lemma_first_dup_prefix(sv, i + 1, sv[i as int]);
                }
                return Some(i);
            }
            j += 1;
        }
        assert(sv.take(i as int + 1).drop_last() =~= sv.take(i as int));
        assert forall|m: int| 0 <= m < i implies #[trigger] sv.take(i as int)[m] != sv[i as int] by {
            assert(sv.take(i as int)[m] == sv[m]);
        }
        assert(!sv.take(i as int).contains(sv[i as int]));
        i += 1;
    }
    assert(sv.take(i as int) =~= sv);
    None
}

/// The view of a parsed definition.
pub open spec fn def_result(r: Result<Definition, CompileError>) -> Result<DefinitionV, ErrV> {
    match r {
        Ok(d) => Ok(d@),
        Err(e) => Err(e@),
    }
}

/// Parses a definition `(fun (name p1 ...) body)`.
fn parse_definition(s: &SExpr) -> (r: Result<Definition, CompileError>)
    ensures
        def_result(r) == parse_definition_spec(s@),
{
    proof {
        if s is List {
            lemma_list_view(*s);
        }
    }
    match s {
        SExpr::List(items) => {
            if items.len() != 3 {
                return Err(invalid());
            }
            match &items[1] {
                SExpr::List(sig) => {
                    proof {
                        lemma_list_view(items@[1]);
                    }
                    let ghost sv = sexprs_view(sig@);
                    let ghost rs = sig_names(sv);
                    let mut names: Vec<String> = Vec::new();
                    let mut i: usize = 0;
                    proof {
                        assert(rs.take(0) =~= Seq::<Result<Seq<char>, ErrV>>::empty());
                        assert(strings_view(names@) =~= Seq::<Seq<char>>::empty());
                    }
                    while i < sig.len()
                        invariant
                            i <= sig.len(),
                            sv == sexprs_view(sig@),
                            s@ is List,
                            s@->List_0.len() == 3,
                            s@->List_0[1] == SExprV::List(sv),
                            rs == sig_names(sv),
                            collect(rs.take(i as int)) == Ok::<Seq<Seq<char>>, ErrV>(
                                strings_view(names@),
                            ),
                        decreases sig.len() - i,
                    {
                        proof {
                            lemma_collect_step(rs, i as int);
                        }
                        match &sig[i] {
                            SExpr::Sym(x) => {
                                if reserved_word(x) {
                                    let e = CompileError::named(ErrorKind::Keyword, x);
                                    proof {
                                        lemma_collect_prefix_err(rs, i + 1, e@);
                                    }
                                    return Err(e);
                                }
                                let ghost before = names@;
                                names.push(x.clone());
                                proof {
                                    assert(strings_view(names@) =~= strings_view(before).push(
                                        x@,
                                    ));
                                }
                            },
                            _ => {
                                proof {
                                    lemma_collect_prefix_err(rs, i + 1, plain_err(ErrorKind::Invalid));
                                }
                                return Err(invalid());
                            },
                        }
                        i += 1;
                    }
                    proof {
                        assert(rs.take(i as int) =~= rs);
                    }
                    if names.len() == 0 {
                        return Err(invalid());
                    }
                    if !function_name(&names[0]) {
                        return Err(CompileError::named(ErrorKind::Invalid, &names[0]));
                    }
                    let ghost all = names@;
                    let name = names.remove(0);
                    proof {
                        assert(strings_view(names@) =~= strings_view(all).drop_first());
                    }
                    match find_duplicate(&names) {
                        Some(j) => Err(CompileError::named(ErrorKind::Duplicate, &names[j])),
                        None => match parse_expr(&items[2]) {
                            Err(e) => Err(e),
                            Ok(body) => Ok(Definition::Func(name, names, body)),
                        },
                    }
                },
                _ => Err(invalid()),
            }
        },
        _ => Err(invalid()),
    }
}

/// Whether an S-expression has the shape of a definition.
fn is_func_define(s: &SExpr) -> (r: bool)
    ensures
        r == is_fun_def(s@),
{
    proof {
        if s is List {
            lemma_list_view(*s);
        }
    }
    match s {
        SExpr::List(items) => {
            if items.len() != 3 {
                return false;
            }
            proof {
                if items@[1] is List {
                    lemma_list_view(items@[1]);
                }
            }
            let head = match &items[0] {
                SExpr::Sym(h) => word_is(h, "fun"),
                _ => false,
            };
            head && match &items[1] {
                SExpr::List(_) => true,
                _ => false,
            }
        },
        _ => false,
    }
}

/// Parses a program: the list of its top-level forms.
pub fn parse_program(s: &SExpr) -> (r: Result<Program, CompileError>)
    ensures
        result_view(r) == parse_program_spec(s@),
{
    proof {
        if s is List {
            lemma_list_view(*s);
        }
    }
    match s {
        SExpr::List(items) => {
            let ghost iv = sexprs_view(items@);
            let ghost rs = parse_each_def(iv);
            let mut defs: Vec<Definition> = Vec::new();
            let mut i: usize = 0;
            proof {
                assert(rs.take(0) =~= Seq::<Result<DefinitionV, ErrV>>::empty());
                assert(defs_view(defs@) =~= Seq::<DefinitionV>::empty());
            }
            while i < items.len() && is_func_define(&items[i])
                invariant
                    i <= items.len(),
                    iv == sexprs_view(items@),
                    s@ == SExprV::List(iv),
                    rs == parse_each_def(iv),
                    forall|j: int| 0 <= j < i ==> is_fun_def(#[trigger] iv[j]),
                    collect(rs.take(i as int)) == Ok::<Seq<DefinitionV>, ErrV>(defs_view(defs@)),
                decreases items.len() - i,
            {
                proof {
                    lemma_collect_step(rs, i as int);
                }
                match parse_definition(&items[i]) {
                    Ok(d) => {
                        let ghost before = defs@;
                        defs.push(d);
                        proof {
                            assert(defs_view(defs@) =~= defs_view(before).push(d@));
                        }
                    },
                    Err(e) => {
                        proof {
                            lemma_leading_defs_at_least(iv, i as int);
                            lemma_leading_defs_bound(iv);
                            assert(rs.take(leading_defs(iv) as int).take(i + 1) =~= rs.take(i + 1));
                            lemma_collect_prefix_err(
                                rs.take(leading_defs(iv) as int),
                                i + 1,
                                e@,
                            );
                        }
                        return Err(e);
                    },
                }
                i += 1;
            }
            proof {
                lemma_leading_defs(iv, i as int);
            }
            if i == items.len() || i + 1 != items.len() {
                return Err(invalid());
            }
            match parse_expr(&items[i]) {
                Err(e) => Err(e),
                Ok(main) => Ok(Program { defs, main }),
            }
        },
        _ => Err(invalid()),
    }
}

proof fn lemma_leading_defs_bound(items: Seq<SExprV>)
    ensures
        leading_defs(items) <= items.len(),
    decreases items.len(),
{
    if items.len() > 0 && is_fun_def(items[0]) {
        lemma_leading_defs_bound(items.drop_first());
    }
}

proof fn lemma_leading_defs_at_least(items: Seq<SExprV>, i: int)
    requires
        0 <= i < items.len(),
        forall|j: int| 0 <= j <= i ==> is_fun_def(#[trigger] items[j]),
    ensures
        leading_defs(items) > i,
    decreases i,
{
    if i > 0 {
        let rest = items.drop_first();
        assert forall|j: int| 0 <= j <= i - 1 implies is_fun_def(#[trigger] rest[j]) by {
            assert(rest[j] == items[j + 1]);
        }
        lemma_leading_defs_at_least(rest, i - 1);
    }
}

} // verus!
