use vstd::prelude::*;

use crate::objects::list_object::push_joined;
use crate::text::{join, push_char, push_str};

verus! {

/// How one entry of a hash shows: its key, a colon and a space, then its value.
pub open spec fn entry_text(entry: (Seq<char>, Seq<char>)) -> Seq<char> {
    entry.0 + ": "@ + entry.1
}

/// How a hash shows: its entries, in the order given, between braces, separated by a comma
/// and a space.
pub open spec fn hash_text(entries: Seq<(Seq<char>, Seq<char>)>) -> Seq<char> {
    seq!['{'] + join(entries.map_values(|e: (Seq<char>, Seq<char>)| entry_text(e)), ", "@) + seq!['}']
}

/// The plain view of the entries of a hash.
pub open spec fn entries_view(entries: Seq<(String, String)>) -> Seq<(Seq<char>, Seq<char>)> {
    entries.map_values(|e: (String, String)| (e.0@, e.1@))
}

/// `Hash.__repr__`: the hash shown from the texts of its keys and values, in the order in
/// which its table hands them out.
pub fn hash_tp_repr(entries: &Vec<(String, String)>) -> (r: String)
    ensures
        r@ == hash_text(entries_view(entries@)),
{
    let mut texts: Vec<String> = Vec::new();
    let mut k: usize = 0;
    while k < entries.len()
        invariant
            k <= entries@.len(),
            texts@.len() == k,
            forall|j: int|
                0 <= j < k ==> (#[trigger] texts@[j])@ == entry_text(entries_view(entries@)[j]),
        decreases entries@.len() - k,
    {
        let mut text = String::new();
        push_str(&mut text, entries[k].0.as_str());
        push_str(&mut text, ": ");
        push_str(&mut text, entries[k].1.as_str());
        texts.push(text);
        k = k + 1;
    }
    let mut out = String::new();
    push_char(&mut out, '{');
    push_joined(&mut out, &texts);
    push_char(&mut out, '}');
    assert(texts@.map_values(|p: String| p@) =~= entries_view(entries@).map_values(
        |e: (Seq<char>, Seq<char>)| entry_text(e),
    ));
    assert(out@ =~= hash_text(entries_view(entries@)));
    out
}

} // verus!
