use vstd::prelude::*;

use crate::errors::{Error, ErrorView};
use crate::text::{decimal, join, push_char, push_decimal, push_str};

verus! {

/// How a list shows: the texts of its items between brackets, separated by a comma and a space.
pub open spec fn list_text(items: Seq<Seq<char>>) -> Seq<char> {
    seq!['['] + join(items, ", "@) + seq![']']
}

/// Appends the texts of `items`, separated by a comma and a space, to `out`.
pub fn push_joined(out: &mut String, items: &Vec<String>)
    ensures
        final(out)@ == old(out)@ + join(items@.map_values(|p: String| p@), ", "@),
{
    let ghost parts = items@.map_values(|p: String| p@);
    let ghost start = out@;
    let mut k: usize = 0;
    assert(parts.take(0) =~= Seq::<Seq<char>>::empty());
    while k < items.len()
        invariant
            parts == items@.map_values(|p: String| p@),
            k <= items@.len(),
            out@ == start + join(parts.take(k as int), ", "@),
        decreases items@.len() - k,
    {
        let ghost before = out@;
        if k > 0 {
            push_str(out, ", ");
        }
        push_str(out, items[k].as_str());
        assert(parts.take(k + 1).drop_last() =~= parts.take(k as int));
        assert(parts.take(k + 1).last() == items@[k as int]@);
        if k == 0 {
            assert(join(parts.take(1), ", "@) == parts.take(1)[0]);
            assert(out@ =~= start + join(parts.take(k + 1), ", "@));
        } else {
            assert(out@ =~= start + join(parts.take(k + 1), ", "@));
        }
        k = k + 1;
    }
    assert(parts.take(items@.len() as int) =~= parts);
}

/// `List.__repr__`: the list shown from the texts of its items.
pub fn list_tp_repr(items: &Vec<String>) -> (r: String)
    ensures
        r@ == list_text(items@.map_values(|p: String| p@)),
{
    let mut out = String::new();
    push_char(&mut out, '[');
    push_joined(&mut out, items);
    push_char(&mut out, ']');
    assert(out@ =~= list_text(items@.map_values(|p: String| p@)));
    out
}

/// The message of an index past the end of a list.
pub open spec fn at_message(idx: usize) -> Seq<char> {
    "Index out of range: "@ + decimal(idx as nat)
}

/// `at`: the item at `idx`, or an error past the end.
pub fn list_at<T>(items: &Vec<T>, idx: usize) -> (r: Result<&T, Error>)
    ensures
        idx < items@.len() ==> r == Ok::<&T, Error>(&items@[idx as int]),
        idx >= items@.len() ==> (r matches Err(e) && e@ == ErrorView::RuntimeError(
            at_message(idx),
        )),
{
    if idx < items.len() {
        Ok(&items[idx])
    } else {
        let mut message = String::new();
        push_str(&mut message, "Index out of range: ");
        push_decimal(&mut message, idx);
        Err(Error::RuntimeError(message))
    }
}

/// The message of a slice that does not lie in the list.
pub open spec fn slice_message(start: usize, end: usize) -> Seq<char> {
    "Slice indices out of range: "@ + decimal(start as nat) + " to "@ + decimal(end as nat)
}

/// `slice`: copies of the items `start..end`, or an error where `start` is not an index of
/// the list or `end` is past its end. A start past the end inside the list is left out: the
/// slice of such a range panics.
pub fn list_slice<T: Clone>(items: &Vec<T>, start: usize, end: usize) -> (r: Result<Vec<T>, Error>)
    requires
        start < items@.len() && end <= items@.len() ==> start <= end,
    ensures
        start < items@.len() && end <= items@.len() ==> (r matches Ok(v) && v@.len() == end - start
            && forall|k: int| 0 <= k < v@.len() ==> cloned(items@[start + k], #[trigger] v@[k])),
        !(start < items@.len() && end <= items@.len()) ==> (r matches Err(e) && e@
            == ErrorView::RuntimeError(slice_message(start, end))),
{
    if start < items.len() && end <= items.len() {
        let mut v: Vec<T> = Vec::new();
        let mut i = start;
        while i < end
            invariant
                start <= i <= end <= items@.len(),
                v@.len() == i - start,
                forall|k: int| 0 <= k < v@.len() ==> cloned(items@[start + k], #[trigger] v@[k]),
            decreases end - i,
        {
            let item = items[i].clone();
            v.push(item);
            i = i + 1;
        }
        Ok(v)
    } else {
        let mut message = String::new();
        push_str(&mut message, "Slice indices out of range: ");
        push_decimal(&mut message, start);
        push_str(&mut message, " to ");
        push_decimal(&mut message, end);
        Err(Error::RuntimeError(message))
    }
}

} // verus!
