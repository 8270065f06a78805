use vstd::prelude::*;

use crate::errors::{Error, ErrorView};
use crate::text::{decimal, push_decimal, push_str};

verus! {

/// The message when an argument is asked for past the number that the method takes.
pub open spec fn too_many_arguments_message(args_count: usize, index: usize) -> Seq<char> {
    "Expected "@ + decimal(args_count as nat) + " arguments, but got "@ + decimal(index as nat)
}

/// The message when the caller passed fewer arguments than the one asked for.
pub open spec fn missing_argument_message(index: usize) -> Seq<char> {
    "Argument at index "@ + decimal(index as nat) + " not found"@
}

/// The argument at `index` of a method that takes `args_count` arguments.
pub fn parse_arg<T>(args: &Vec<T>, index: usize, args_count: usize) -> (r: Result<&T, Error>)
    ensures
        index < args_count && index < args@.len() ==> r == Ok::<&T, Error>(&args@[index as int]),
        index >= args_count ==> (r matches Err(e) && e@ == ErrorView::RuntimeError(
            too_many_arguments_message(args_count, index),
        )),
        index < args_count && index >= args@.len() ==> (r matches Err(e) && e@
            == ErrorView::RuntimeError(missing_argument_message(index))),
{
    if index >= args_count {
        let mut message = String::new();
        push_str(&mut message, "Expected ");
        push_decimal(&mut message, args_count);
        push_str(&mut message, " arguments, but got ");
        push_decimal(&mut message, index);
        return Err(Error::RuntimeError(message));
    }
    if index < args.len() {
        Ok(&args[index])
    } else {
        let mut message = String::new();
        push_str(&mut message, "Argument at index ");
        push_decimal(&mut message, index);
        push_str(&mut message, " not found");
        Err(Error::RuntimeError(message))
    }
}

} // verus!
