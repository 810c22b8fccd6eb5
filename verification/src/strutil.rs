//! Small string helpers: upper-casing through std, decimal rendering of an
//! issue number, and the last path segment of a reference URL.

use vstd::prelude::*;

verus! {

/// The Unicode upper-case form of a character sequence.
pub uninterp spec fn upper_of(s: Seq<char>) -> Seq<char>;

/// Relies on `str::to_uppercase` of std: the upper-case form is a function
/// of the characters alone.
#[verifier::external_body]
pub(crate) fn upper(s: &str) -> (r: String)
    ensures
        r@ == upper_of(s@),
{
    s.to_uppercase()
}

/// Relies on `String::push` of std: appends one character.
#[verifier::external_body]
pub(crate) fn push_char(s: &mut String, c: char)
    ensures
        final(s)@ == old(s)@.push(c),
{
    s.push(c)
}

/// The decimal digit character for `d` in `0 ..= 9`.
pub open spec fn dec_digit(d: int) -> char {
    if d == 0 { '0' }
    else if d == 1 { '1' }
    else if d == 2 { '2' }
    else if d == 3 { '3' }
    else if d == 4 { '4' }
    else if d == 5 { '5' }
    else if d == 6 { '6' }
    else if d == 7 { '7' }
    else if d == 8 { '8' }
    else { '9' }
}

/// The decimal representation of a nonnegative integer, most significant
/// digit first, with no leading zeros (except for `0` itself).
pub open spec fn dec_of(n: int) -> Seq<char>
    decreases n,
{
    if n < 10 {
        seq![dec_digit(n)]
    } else {
        dec_of(n / 10).push(dec_digit(n % 10))
    }
}

fn digit_char(d: u64) -> (c: char)
    requires
        d < 10,
    ensures
        c == dec_digit(d as int),
{
    if d == 0 { '0' }
    else if d == 1 { '1' }
    else if d == 2 { '2' }
    else if d == 3 { '3' }
    else if d == 4 { '4' }
    else if d == 5 { '5' }
    else if d == 6 { '6' }
    else if d == 7 { '7' }
    else if d == 8 { '8' }
    else { '9' }
}

/// Renders `n` in decimal.
pub fn u64_to_dec(n: u64) -> (r: String)
    ensures
        r@ == dec_of(n as int),
    decreases n,
{
    if n < 10 {
        let mut s = String::new();
        push_char(&mut s, digit_char(n));
        s
    } else {
        let mut s = u64_to_dec(n / 10);
        push_char(&mut s, digit_char(n % 10));
        s
    }
}

/// The suffix of `s` after its last `'/'`; `s` itself where no `'/'`
/// occurs. This is what splitting on `'/'` and taking the final piece
/// yields.
pub open spec fn last_segment(s: Seq<char>) -> Seq<char>
    decreases s.len(),
{
    if s.len() == 0 {
        s
    } else if s[s.len() - 1] == '/' {
        Seq::<char>::empty()
    } else {
        last_segment(s.drop_last()).push(s[s.len() - 1])
    }
}

/// Where no `'/'` occurs in `s`, the last segment is `s` itself.
proof fn lemma_last_segment_no_slash(s: Seq<char>)
    requires
        forall|k: int| 0 <= k < s.len() ==> s[k] != '/',
    ensures
        last_segment(s) == s,
    decreases s.len(),
{
    if s.len() == 0 {
        assert(last_segment(s) =~= s);
    } else {
        lemma_last_segment_no_slash(s.drop_last());
        assert(last_segment(s) =~= s);
    }
}

/// Where `s[j] == '/'` and no `'/'` follows it, the last segment is the
/// suffix after `j`.
proof fn lemma_last_segment_after_slash(s: Seq<char>, j: int)
    requires
        0 <= j < s.len(),
        s[j] == '/',
        forall|k: int| j < k < s.len() ==> s[k] != '/',
    ensures
        last_segment(s) == s.subrange(j + 1, s.len() as int),
    decreases s.len(),
{
    if j == s.len() - 1 {
        assert(last_segment(s) =~= s.subrange(j + 1, s.len() as int));
    } else {
        lemma_last_segment_after_slash(s.drop_last(), j);
        assert(s.drop_last().subrange(j + 1, s.len() - 1).push(s[s.len() - 1])
            =~= s.subrange(j + 1, s.len() as int));
        assert(last_segment(s) =~= s.subrange(j + 1, s.len() as int));
    }
}

/// The last path segment of `s`: everything after the final `'/'`, or all
/// of `s` where it holds none.
pub fn last_path_segment(s: &str) -> (r: String)
    ensures
        r@ == last_segment(s@),
{
    let len = s.unicode_len();
    let mut i = len;
    while i > 0
        invariant
            i <= len,
            len == s@.len(),
            forall|k: int| i <= k < len ==> s@[k] != '/',
        decreases i,
    {
        if s.get_char(i - 1) == '/' {
            let seg = s.substring_char(i, len);
            proof {
                lemma_last_segment_after_slash(s@, i - 1);
            }
            return String::from_str(seg);
        }
        i = i - 1;
    }
    proof {
        lemma_last_segment_no_slash(s@);
    }
    String::from_str(s)
}

} // verus!
