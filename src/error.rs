use vstd::prelude::*;

verus! {

/// What went wrong while reading a directive or expanding a file.
#[derive(Clone, Copy, Debug, PartialEq, Eq, Structural)]
pub enum ErrorKind {
    /// The tokens ended where more were required.
    UnexpectedEnd,
    /// A directive comment is not followed by whitespace.
    MissingWhitespace,
    /// A `=` is missing after a macro or alias name.
    ExpectedAssign,
    /// A `(` is missing.
    ExpectedLParen,
    /// A `)` is missing, or a parameter list holds something else.
    ExpectedRParen,
    /// A name is missing after `function`, `local` or in an alias.
    ExpectedName,
    /// A function macro body has no terminating `end`.
    UnterminatedBody,
    /// A directive starts with neither an identifier nor `function`.
    BadIntroducer,
    /// A macro was invoked with the wrong number of arguments.
    Arity { expected: usize, found: usize },
    /// An argument list of a macro use has no matching `)`.
    UnclosedArguments,
    /// An alias directive without `local`.
    AliasNotLocal,
    /// The target of an alias is not defined.
    AliasUndefined,
    /// The target of an alias is hidden by an ordinary binding.
    AliasShadowed,
    /// A block-closing or branch keyword with no open block.
    UnbalancedBlock,
}

/// An error with the index of the token at which it was found.
#[derive(Clone, Copy, Debug, PartialEq, Eq, Structural)]
pub struct MacroError {
    pub kind: ErrorKind,
    pub pos: usize,
}

pub open spec fn fail(kind: ErrorKind, pos: int) -> MacroError {
    MacroError { kind, pos: pos as usize }
}

pub fn make_error(kind: ErrorKind, pos: usize) -> (r: MacroError)
    ensures
        r == fail(kind, pos as int),
{
    MacroError { kind, pos }
}

} // verus!
