use vstd::prelude::*;

use crate::errors::{Error, ErrorView};
use crate::text::{decimal, push_decimal, push_str};

verus! {

broadcast use vstd::string::group_string_axioms;

/// The message of a call with the wrong number of arguments.
pub open spec fn arity_message(name: Seq<char>, expected: nat, given: nat) -> Seq<char> {
    "Function '"@ + name + "' expects "@ + decimal(expected) + " arguments, but got "@ + decimal(given)
}

/// The names that a call binds, in the order it binds them: the receiver as `self` where there
/// is one, then each parameter to the argument in its place.
pub open spec fn bindings<T>(params: Seq<Seq<char>>, args: Seq<T>, receiver: Option<T>) -> Seq<(Seq<char>, T)> {
    let own = Seq::new(args.len(), |i: int| (params[i], args[i]));
    match receiver {
        Some(r) => seq![("self"@, r)] + own,
        None => own,
    }
}

/// The plain view of a list of bindings.
pub open spec fn bindings_view<T>(b: Seq<(String, T)>) -> Seq<(Seq<char>, T)> {
    b.map_values(|e: (String, T)| (e.0@, e.1))
}

/// What a call of a function decides before it runs the function's code: the locals of the new
/// frame, or an error where the number of arguments is not the number of parameters.
pub fn bind_arguments<T>(name: &str, params: &Vec<String>, args: Vec<T>, receiver: Option<T>) -> (r: Result<Vec<(String, T)>, Error>)
    ensures
        params@.len() != args@.len() ==> (r matches Err(e) && e@ == ErrorView::RuntimeError(
            arity_message(name@, params@.len(), args@.len()),
        )),
        params@.len() == args@.len() ==> (r matches Ok(b) && bindings_view(b@) == bindings(
            params@.map_values(|p: String| p@),
            args@,
            receiver,
        )),
{
    if params.len() != args.len() {
        let mut message = String::new();
        push_str(&mut message, "Function '");
        push_str(&mut message, name);
        push_str(&mut message, "' expects ");
        push_decimal(&mut message, params.len());
        push_str(&mut message, " arguments, but got ");
        push_decimal(&mut message, args.len());
        return Err(Error::RuntimeError(message));
    }
    let ghost names = params@.map_values(|p: String| p@);
    let ghost all = args@;
    let mut out: Vec<(String, T)> = Vec::new();
    let ghost start: Seq<(Seq<char>, T)> = Seq::empty();
    match receiver {
        Some(r) => {
            out.push(("self".to_string(), r));
            proof {
                start = seq![("self"@, r)];
            }
        },
        None => {},
    }
    assert(bindings_view(out@) =~= start);
    let n = params.len();
    let mut rest = args;
    let mut k: usize = 0;
    while k < n
        invariant
            params@.len() == all.len(),
            n == all.len(),
            k + rest@.len() == all.len(),
            rest@ == all.subrange(k as int, all.len() as int),
            names == params@.map_values(|p: String| p@),
            bindings_view(out@) == start + Seq::new(k as nat, |i: int| (names[i], all[i])),
        decreases n - k,
    {
        let ghost before = bindings_view(out@);
        let v = rest.remove(0);
        let p = params[k].clone();
        out.push((p, v));
        assert(bindings_view(out@) =~= before.push((names[k as int], all[k as int])));
        k = k + 1;
        assert(rest@ =~= all.subrange(k as int, all.len() as int));
        assert(start + Seq::new(k as nat, |i: int| (names[i], all[i])) =~= before.push(
            (names[k - 1], all[k - 1]),
        ));
    }
    assert(bindings_view(out@) =~= bindings(names, all, receiver));
    Ok(out)
}

} // verus!
