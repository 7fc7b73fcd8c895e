//! Argument validation: the first stage of the pipeline. An invocation is
//! well formed exactly when it consists of two string literals: the name of
//! the type to synthesize and the template path.

use vstd::prelude::*;

verus! {

/// One raw invocation argument, as the host build hands it over: either a
/// string literal carrying its text, or a literal of some other kind.
#[derive(Debug, Clone)]
pub enum ArgLiteral {
    Text(String),
    Other,
}

/// A validated invocation: the desired struct name and the template path,
/// both taken verbatim from the two string literals.
#[derive(Debug, Clone)]
pub struct InvocationArgs {
    pub struct_name: String,
    pub relative_path: String,
}

/// Rejection of a malformed call site. No file is touched when validation
/// fails: the validator runs before any other stage.
#[derive(Debug, Clone, PartialEq, Eq)]
pub enum InvocationError {
    /// The invocation did not have exactly two arguments.
    WrongArity,
    /// The argument at this position (0 or 1) was not a string literal.
    NotAStringLiteral(usize),
}

/// Checks the invocation shape. Succeeds if and only if exactly two
/// arguments are present and both are string literals; on success the two
/// literal texts become the type name and the template path, in that order.
/// An arity mismatch is reported before literal kinds are inspected, and a
/// bad literal is reported at the first position that holds one.
pub fn validate_args(args: &Vec<ArgLiteral>) -> (r: Result<InvocationArgs, InvocationError>)
    ensures
        args@.len() != 2 ==> r == Err::<InvocationArgs, InvocationError>(InvocationError::WrongArity),
        args@.len() == 2 && !(args@[0] is Text) ==> r == Err::<InvocationArgs, InvocationError>(
            InvocationError::NotAStringLiteral(0usize),
        ),
        args@.len() == 2 && args@[0] is Text && !(args@[1] is Text) ==> r == Err::<
            InvocationArgs,
            InvocationError,
        >(InvocationError::NotAStringLiteral(1usize)),
        args@.len() == 2 && args@[0] is Text && args@[1] is Text ==> (r matches Ok(a)
            && a.struct_name@ == args@[0]->Text_0@ && a.relative_path@ == args@[1]->Text_0@),
{
    if args.len() != 2 {
        return Err(InvocationError::WrongArity);
    }
    let struct_name: String = match &args[0] {
        ArgLiteral::Text(s) => s.clone(),
        ArgLiteral::Other => {
            return Err(InvocationError::NotAStringLiteral(0));
        },
    };
    let relative_path: String = match &args[1] {
        ArgLiteral::Text(s) => s.clone(),
        ArgLiteral::Other => {
            return Err(InvocationError::NotAStringLiteral(1));
        },
    };
    Ok(InvocationArgs { struct_name, relative_path })
}

} // verus!
