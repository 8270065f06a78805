use vstd::prelude::*;

use crate::errors::{Error, ErrorView};
use crate::text::push_str;

verus! {

broadcast use vstd::string::group_string_axioms;

/// What initialising a new instance comes to.
#[derive(Debug, Clone, Copy, PartialEq, Eq, Structural)]
pub enum InitAction {
    /// Call the class's constructor on the instance with the arguments.
    CallConstructor,
    /// The instance is ready as it is.
    ReturnInstance,
}

/// The message of arguments given to a class without a constructor.
pub open spec fn no_arguments_message(owner: Seq<char>, count: nat) -> Seq<char> {
    "The object '"@ + owner + "' takes no arguments, but "@ + crate::text::decimal(count)
        + " were given"@
}

/// How an instance is initialised: by its class's constructor where there is one; without
/// one, as it is where no argument was given, and with an error otherwise.
pub fn init_action(has_constructor: bool, owner: &str, arg_count: usize) -> (r: Result<InitAction, Error>)
    ensures
        has_constructor ==> r == Ok::<InitAction, Error>(InitAction::CallConstructor),
        !has_constructor && arg_count == 0 ==> r == Ok::<InitAction, Error>(InitAction::ReturnInstance),
        !has_constructor && arg_count > 0 ==> (r matches Err(e) && e@ == ErrorView::RuntimeError(
            no_arguments_message(owner@, arg_count as nat),
        )),
{
    if has_constructor {
        Ok(InitAction::CallConstructor)
    } else if arg_count == 0 {
        Ok(InitAction::ReturnInstance)
    } else {
        let mut message = String::new();
        push_str(&mut message, "The object '");
        push_str(&mut message, owner);
        push_str(&mut message, "' takes no arguments, but ");
        crate::text::push_decimal(&mut message, arg_count);
        push_str(&mut message, " were given");
        Err(Error::RuntimeError(message))
    }
}

/// The message of an attribute that none of the dictionaries holds.
pub open spec fn no_attribute_message(owner: Seq<char>, name: Seq<char>) -> Seq<char> {
    "The object '"@ + owner + "' has no attribute '"@ + name + "'"@
}

/// The dictionary `chain[i]` holds `name` at `k`.
pub open spec fn holds_at<V>(chain: Seq<Vec<(String, V)>>, name: Seq<char>, i: int, k: int) -> bool {
    0 <= i < chain.len() && 0 <= k < chain[i]@.len() && chain[i]@[k].0@ == name
}

/// Looks an attribute up along a chain of dictionaries: the object's own, then its type's,
/// then each parent type's. The first dictionary that holds the name gives the value.
pub fn get_attr<V: Clone>(chain: &Vec<Vec<(String, V)>>, name: &str, owner: &str) -> (r: Result<V, Error>)
    ensures
        (exists|i: int, k: int| holds_at(chain@, name@, i, k)) ==> (r matches Ok(v) && exists|i: int, k: int|
            #![trigger holds_at(chain@, name@, i, k)]
            holds_at(chain@, name@, i, k) && cloned(chain@[i]@[k].1, v) && (forall|i2: int, k2: int|
                0 <= i2 < i ==> !holds_at(chain@, name@, i2, k2)) && (forall|k2: int|
                0 <= k2 < k ==> !holds_at(chain@, name@, i, k2))),
        !(exists|i: int, k: int| holds_at(chain@, name@, i, k)) ==> (r matches Err(e) && e@
            == ErrorView::RuntimeError(no_attribute_message(owner@, name@))),
{
    let wanted = name.to_string();
    let mut i: usize = 0;
    while i < chain.len()
        invariant
            wanted@ == name@,
            i <= chain@.len(),
            forall|i2: int, k2: int| 0 <= i2 < i ==> !holds_at(chain@, name@, i2, k2),
        decreases chain@.len() - i,
    {
        let dict = &chain[i];
        let mut k: usize = 0;
        while k < dict.len()
            invariant
                wanted@ == name@,
                i < chain@.len(),
                dict == chain@[i as int],
                k <= dict@.len(),
                forall|i2: int, k2: int| 0 <= i2 < i ==> !holds_at(chain@, name@, i2, k2),
                forall|k2: int| 0 <= k2 < k ==> !holds_at(chain@, name@, i as int, k2),
            decreases dict@.len() - k,
        {
            if dict[k].0 == wanted {
                let v = dict[k].1.clone();
                assert(holds_at(chain@, name@, i as int, k as int));
                return Ok(v);
            }
            k = k + 1;
        }
        i = i + 1;
    }
    let mut message = String::new();
    push_str(&mut message, "The object '");
    push_str(&mut message, owner);
    push_str(&mut message, "' has no attribute '");
    push_str(&mut message, name);
    push_str(&mut message, "'");
    Err(Error::RuntimeError(message))
}

} // verus!
