//! Compile-time errors.
use vstd::prelude::*;

verus! {

/// The kinds of compile-time failure.
#[derive(Clone, Copy, Debug, PartialEq, Eq, Structural)]
pub enum ErrorKind {
    /// The source text is not a well-formed S-expression.
    Syntax,
    /// A form has the wrong shape or arity, or a literal is out of range.
    Invalid,
    /// A reserved word stands where a name is bound.
    Keyword,
    /// A name is bound twice in one `let`, one parameter list, or one program.
    Duplicate,
    /// A variable is used or assigned where no binding is in scope.
    Unbound,
    /// `break` stands outside every `loop` of its function.
    BreakOutsideLoop,
    /// A call names a function that the program does not define.
    UndefinedFunction,
    /// A call passes a number of arguments other than the function's arity.
    Arity,
    /// `input` stands inside a function body.
    InputOutsideMain,
    /// The program holds more nodes than the compiler's counters can number.
    TooLarge,
}

/// A compile-time failure, with the name it concerns (empty where there is none).
#[derive(Debug)]
pub struct CompileError {
    pub kind: ErrorKind,
    pub name: String,
}

/// The mathematical value of a [`CompileError`].
pub type ErrV = (ErrorKind, Seq<char>);

impl View for CompileError {
    type V = ErrV;

    open spec fn view(&self) -> ErrV {
        (self.kind, self.name@)
    }
}

impl CompileError {
    /// An error of kind `kind` about `name`.
    pub fn named(kind: ErrorKind, name: &String) -> (r: CompileError)
        ensures
            r@ == (kind, name@),
    {
        CompileError { kind, name: name.clone() }
    }

    /// An error of kind `kind` about no particular name.
    pub fn plain(kind: ErrorKind) -> (r: CompileError)
        ensures
            r@ == (kind, Seq::<char>::empty()),
    {
        CompileError { kind, name: String::new() }
    }
}

/// The view of a result whose error is a [`CompileError`].
pub open spec fn result_view<T: View>(r: Result<T, CompileError>) -> Result<T::V, ErrV> {
    match r {
        Ok(t) => Ok(t@),
        Err(e) => Err(e@),
    }
}

} // verus!

verus! {

/// The message of an error of kind `k` about `name`. Each holds the word that names its
/// class: `Syntax`, `Invalid`, `keyword`, `Duplicate binding` or `Unbound variable identifier`.
pub open spec fn message_text(k: ErrorKind, name: Seq<char>) -> Seq<char> {
    match k {
        ErrorKind::Syntax => "Syntax error: the source is not a well-formed S-expression"@,
        ErrorKind::Invalid => "Invalid program "@ + name,
        ErrorKind::Keyword => "Invalid keyword "@ + name + " matches reserved word"@,
        ErrorKind::Duplicate => "Duplicate binding "@ + name,
        ErrorKind::Unbound => "Unbound variable identifier "@ + name,
        ErrorKind::BreakOutsideLoop => "Invalid break outside loop"@,
        ErrorKind::UndefinedFunction => "Invalid function not defined: "@ + name,
        ErrorKind::Arity => "Invalid number of arguments in call of "@ + name,
        ErrorKind::InputOutsideMain => "Invalid use of input inside a function"@,
        ErrorKind::TooLarge => "Invalid program: too large to compile"@,
    }
}

impl CompileError {
    /// The message reported for this error.
    pub fn message(&self) -> (r: String)
        ensures
            r@ == message_text(self.kind, self.name@),
    {
        let (lead, tail): (&str, &str) = match self.kind {
            ErrorKind::Syntax => ("Syntax error: the source is not a well-formed S-expression", ""),
            ErrorKind::Invalid => ("Invalid program ", ""),
            ErrorKind::Keyword => ("Invalid keyword ", " matches reserved word"),
            ErrorKind::Duplicate => ("Duplicate binding ", ""),
            ErrorKind::Unbound => ("Unbound variable identifier ", ""),
            ErrorKind::BreakOutsideLoop => ("Invalid break outside loop", ""),
            ErrorKind::UndefinedFunction => ("Invalid function not defined: ", ""),
            ErrorKind::Arity => ("Invalid number of arguments in call of ", ""),
            ErrorKind::InputOutsideMain => ("Invalid use of input inside a function", ""),
            ErrorKind::TooLarge => ("Invalid program: too large to compile", ""),
        };
        let mut r = String::from_str(lead);
        match self.kind {
            ErrorKind::Invalid | ErrorKind::Keyword | ErrorKind::Duplicate | ErrorKind::Unbound
            | ErrorKind::UndefinedFunction | ErrorKind::Arity => {
                r.append(self.name.as_str());
                r.append(tail);
                proof {
                    if self.kind is Invalid || self.kind is Duplicate || self.kind is Unbound
                        || self.kind is UndefinedFunction || self.kind is Arity {
                        reveal_strlit("");
                        assert(r@ =~= lead@ + self.name@);
                    }
                }
            },
            _ => {},
        }
        r
    }
}

} // verus!
