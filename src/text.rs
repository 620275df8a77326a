//! Plain text operations on strings, stated over `Seq<char>`.
use vstd::prelude::*;

verus! {

/// `s` with every non-overlapping occurrence of `pat`, searched left to right,
/// replaced by `with`. An empty pattern leaves the text alone.
pub open spec fn replace_all(s: Seq<char>, pat: Seq<char>, with: Seq<char>) -> Seq<char>
    decreases s.len(),
{
    if s.len() == 0 || pat.len() == 0 {
        s
    } else if pat.len() <= s.len() && s.subrange(0, pat.len() as int) == pat {
        with + replace_all(s.subrange(pat.len() as int, s.len() as int), pat, with)
    } else {
        seq![s[0]] + replace_all(s.subrange(1, s.len() as int), pat, with)
    }
}

/// The pieces of `s` between the non-overlapping occurrences of `sep`,
/// searched left to right; there is always at least one piece.
pub open spec fn split_all(s: Seq<char>, sep: Seq<char>) -> Seq<Seq<char>>
    decreases s.len(),
{
    if s.len() == 0 || sep.len() == 0 {
        seq![s]
    } else if sep.len() <= s.len() && s.subrange(0, sep.len() as int) == sep {
        seq![Seq::<char>::empty()] + split_all(s.subrange(sep.len() as int, s.len() as int), sep)
    } else {
        let rest = split_all(s.subrange(1, s.len() as int), sep);
        rest.update(0, seq![s[0]] + rest[0])
    }
}

/// `pat` occurs in `s` at some position.
pub open spec fn occurs_in(s: Seq<char>, pat: Seq<char>) -> bool {
    exists|i: int| 0 <= i <= s.len() - pat.len() && #[trigger] s.subrange(i, i + pat.len()) == pat
}

/// Relies on `str::replace`: every non-overlapping match of `pat`, found from
/// the left, is replaced by `with`.
#[verifier::external_body]
pub(crate) fn replace_str(s: &str, pat: &str, with: &str) -> (r: String)
    requires
        pat@.len() > 0,
    ensures
        r@ == replace_all(s@, pat@, with@),
{
    s.replace(pat, with)
}

/// Relies on `str::split` with a string pattern: the substrings between the
/// non-overlapping matches of `sep`, found from the left.
#[verifier::external_body]
pub(crate) fn split_str(s: &str, sep: &str) -> (r: Vec<String>)
    requires
        sep@.len() > 0,
    ensures
        r@.len() == split_all(s@, sep@).len(),
        forall|i: int| 0 <= i < r@.len() ==> #[trigger] r@[i]@ == split_all(s@, sep@)[i],
{
    s.split(sep).map(|p| p.to_string()).collect()
}

/// Relies on `str::contains` with a string pattern.
#[verifier::external_body]
pub(crate) fn contains_str(s: &str, pat: &str) -> (r: bool)
    ensures
        r == occurs_in(s@, pat@),
{
    s.contains(pat)
}

/// Relies on `<str as PartialEq>::eq`: two string slices are equal exactly
/// when they hold the same characters.
#[verifier::external_body]
pub(crate) fn str_eq(a: &str, b: &str) -> (r: bool)
    ensures
        r == (a@ == b@),
{
    a == b
}

} // verus!
