use vstd::prelude::*;

use crate::errors::{Error, ErrorView};

verus! {

broadcast use vstd::string::group_string_axioms;

/// The slots of a type: for each operation, the function that does it, if the type has one.
#[derive(Clone, Copy)]
pub struct TypeSlots<S> {
    pub tp_repr: Option<S>,
    pub tp_call: Option<S>,
    pub tp_new: Option<S>,
    pub tp_init: Option<S>,
    pub tp_get_attr: Option<S>,
    pub tp_set_attr: Option<S>,
    pub nb_bool: Option<S>,
    pub sq_len: Option<S>,
    pub tp_compare: Option<S>,
    pub tp_hash: Option<S>,
}

/// A slot of a type after it is made ready: its own where it has one, the parent's otherwise.
pub open spec fn inherited<S>(own: Option<S>, parent: Option<S>) -> Option<S> {
    if own is Some {
        own
    } else {
        parent
    }
}

/// The error of a type with no parent.
pub open spec fn no_parent_error() -> ErrorView {
    ErrorView::RuntimeError("Type has no parent"@)
}

fn inherit<S: Copy>(own: Option<S>, parent: Option<S>) -> (r: Option<S>)
    ensures
        r == inherited(own, parent),
{
    match own {
        Some(f) => Some(f),
        None => parent,
    }
}

/// Makes a type ready: each slot the type lacks is taken from its parent; a type without a
/// parent cannot be made ready.
pub fn ready<S: Copy>(own: TypeSlots<S>, parent: Option<TypeSlots<S>>) -> (r: Result<TypeSlots<S>, Error>)
    ensures
        parent is None ==> (r matches Err(e) && e@ == no_parent_error()),
        parent matches Some(p) ==> r == Ok::<TypeSlots<S>, Error>(TypeSlots {
            tp_repr: inherited(own.tp_repr, p.tp_repr),
            tp_call: inherited(own.tp_call, p.tp_call),
            tp_new: inherited(own.tp_new, p.tp_new),
            tp_init: inherited(own.tp_init, p.tp_init),
            tp_get_attr: inherited(own.tp_get_attr, p.tp_get_attr),
            tp_set_attr: inherited(own.tp_set_attr, p.tp_set_attr),
            nb_bool: inherited(own.nb_bool, p.nb_bool),
            sq_len: inherited(own.sq_len, p.sq_len),
            tp_compare: inherited(own.tp_compare, p.tp_compare),
            tp_hash: inherited(own.tp_hash, p.tp_hash),
        }),
{
    match parent {
        None => Err(Error::RuntimeError("Type has no parent".to_string())),
        Some(p) => Ok(TypeSlots {
            tp_repr: inherit(own.tp_repr, p.tp_repr),
            tp_call: inherit(own.tp_call, p.tp_call),
            tp_new: inherit(own.tp_new, p.tp_new),
            tp_init: inherit(own.tp_init, p.tp_init),
            tp_get_attr: inherit(own.tp_get_attr, p.tp_get_attr),
            tp_set_attr: inherit(own.tp_set_attr, p.tp_set_attr),
            nb_bool: inherit(own.nb_bool, p.nb_bool),
            sq_len: inherit(own.sq_len, p.sq_len),
            tp_compare: inherit(own.tp_compare, p.tp_compare),
            tp_hash: inherit(own.tp_hash, p.tp_hash),
        }),
    }
}

} // verus!
