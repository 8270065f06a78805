use vstd::prelude::*;

use vstd::string::*;

verus! {

broadcast use vstd::string::group_string_axioms;

/// `String::push`: appends one char.
#[verifier::external_body]
pub fn push_char(s: &mut String, c: char)
    ensures
        final(s)@ == old(s)@.push(c),
{
    s.push(c);
}

/// The chars of a text, in order.
pub fn chars_of(s: &str) -> (v: Vec<char>)
    ensures
        v@ == s@,
{
    let mut v: Vec<char> = Vec::new();
    for c in iter: s.chars()
        invariant
            v@ == iter.seq().take(iter.index() as int),
    {
        v.push(c);
    }
    v
}

/// The text made of `input[from..to]`.
pub fn string_from_range(input: &Vec<char>, from: usize, to: usize) -> (s: String)
    requires
        from <= to <= input@.len(),
    ensures
        s@ == input@.subrange(from as int, to as int),
{
    let mut s = String::new();
    let mut i = from;
    while i < to
        invariant
            from <= i <= to <= input@.len(),
            s@ == input@.subrange(from as int, i as int),
        decreases to - i,
    {
        push_char(&mut s, input[i]);
        i = i + 1;
        assert(s@ =~= input@.subrange(from as int, i as int));
    }
    s
}

/// The chars `input[from..to]`.
pub fn vec_from_range(input: &Vec<char>, from: usize, to: usize) -> (v: Vec<char>)
    requires
        from <= to <= input@.len(),
    ensures
        v@ == input@.subrange(from as int, to as int),
{
    let mut v: Vec<char> = Vec::new();
    let mut i = from;
    while i < to
        invariant
            from <= i <= to <= input@.len(),
            v@ == input@.subrange(from as int, i as int),
        decreases to - i,
    {
        v.push(input[i]);
        i = i + 1;
        assert(v@ =~= input@.subrange(from as int, i as int));
    }
    v
}

/// The texts of `parts` one after another, with `sep` between each two.
pub open spec fn join(parts: Seq<Seq<char>>, sep: Seq<char>) -> Seq<char>
    decreases parts.len(),
{
    if parts.len() == 0 {
        Seq::empty()
    } else if parts.len() == 1 {
        parts[0]
    } else {
        join(parts.drop_last(), sep) + sep + parts.last()
    }
}

/// Joining a text in front of a non-empty list of texts.
pub proof fn lemma_join_prepend(p: Seq<char>, rest: Seq<Seq<char>>, sep: Seq<char>)
    requires
        rest.len() > 0,
    ensures
        join(seq![p] + rest, sep) == p + sep + join(rest, sep),
    decreases rest.len(),
{
    let all = seq![p] + rest;
    if rest.len() == 1 {
        assert(all.drop_last() =~= seq![p]);
        assert(all.last() == rest[0]);
        assert(join(all.drop_last(), sep) == p);
        assert(join(all, sep) == join(all.drop_last(), sep) + sep + all.last());
        assert(join(all, sep) =~= p + sep + join(rest, sep));
    } else {
        lemma_join_prepend(p, rest.drop_last(), sep);
        assert(all.drop_last() =~= seq![p] + rest.drop_last());
        assert(all.last() == rest.last());
        assert(join(all, sep) == join(all.drop_last(), sep) + sep + all.last());
        assert(join(rest, sep) == join(rest.drop_last(), sep) + sep + rest.last());
        assert(join(all, sep) =~= p + sep + join(rest, sep));
    }
}

/// The char of a decimal digit.
pub open spec fn digit_char(d: nat) -> char {
    seq!['0', '1', '2', '3', '4', '5', '6', '7', '8', '9'][d as int]
}

/// The decimal notation of a natural number, without leading zeros.
pub open spec fn decimal(n: nat) -> Seq<char>
    decreases n,
{
    if n < 10 {
        seq![digit_char(n)]
    } else {
        decimal(n / 10).push(digit_char(n % 10))
    }
}

/// The decimal notation of `n` padded with zeros on the left to at least four chars.
pub open spec fn decimal_pad4(n: nat) -> Seq<char> {
    let d = decimal(n);
    if d.len() >= 4 {
        d
    } else {
        Seq::new((4 - d.len()) as nat, |i: int| '0') + d
    }
}

fn digit(d: usize) -> (c: char)
    requires
        d < 10,
    ensures
        c == digit_char(d as nat),
{
    let table = ['0', '1', '2', '3', '4', '5', '6', '7', '8', '9'];
    proof {
        assert(table@ == seq!['0', '1', '2', '3', '4', '5', '6', '7', '8', '9']);
    }
    table[d]
}

/// Appends the decimal notation of `n`.
pub fn push_decimal(s: &mut String, n: usize)
    ensures
        final(s)@ == old(s)@ + decimal(n as nat),
    decreases n,
{
    if n >= 10 {
        push_decimal(s, n / 10);
    }
    push_char(s, digit(n % 10));
    proof {
        if n >= 10 {
            assert(old(s)@ + decimal(n as nat) =~= old(s)@ + decimal((n / 10) as nat) + seq![
                digit_char((n % 10) as nat),
            ]);
        }
    }
}

/// Appends the chars of `t`.
pub fn push_str(s: &mut String, t: &str)
    ensures
        final(s)@ == old(s)@ + t@,
{
    s.append(t);
}

/// Appends the decimal notation of `n`, padded with zeros to at least four chars.
pub fn push_decimal_pad4(s: &mut String, n: usize)
    ensures
        final(s)@ == old(s)@ + decimal_pad4(n as nat),
{
    let mut digits = String::new();
    push_decimal(&mut digits, n);
    let ghost d = decimal(n as nat);
    assert(digits@ =~= d);
    let len = digits.as_str().unicode_len();
    let mut k = len;
    let ghost s0 = s@;
    while k < 4
        invariant
            len == d.len(),
            len <= k <= 4 || (len > 4 && k == len),
            s@ == s0 + Seq::new((k - len) as nat, |i: int| '0'),
        decreases 4 - k,
    {
        push_char(s, '0');
        k = k + 1;
        assert(s@ =~= s0 + Seq::new((k - len) as nat, |i: int| '0'));
    }
    s.append(digits.as_str());
    assert(s@ =~= s0 + decimal_pad4(n as nat));
}

} // verus!
