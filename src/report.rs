//! Classifying responses: line and word counts, filters, and the counters
//! of attempts and transport errors.
use vstd::prelude::*;
use crate::error::KillerError;
use crate::settings::Filters;

verus! {

/// Relies on `str::chars`, collected: the characters of the text in order.
#[verifier::external_body]
fn chars_of(s: &str) -> (r: Vec<char>)
    ensures
        r@ == s@,
{
    s.chars().collect()
}

/// The characters with the Unicode `White_Space` property.
pub open spec fn white_space(c: char) -> bool {
    let u = c as u32;
    (0x9 <= u <= 0xd) || u == 0x20 || u == 0x85 || u == 0xa0 || u == 0x1680 || (0x2000 <= u <= 0x200a)
        || u == 0x2028 || u == 0x2029 || u == 0x202f || u == 0x205f || u == 0x3000
}

pub fn is_white_space(c: char) -> (r: bool)
    ensures
        r == white_space(c),
{
    let u = c as u32;
    (0x9 <= u && u <= 0xd) || u == 0x20 || u == 0x85 || u == 0xa0 || u == 0x1680 || (0x2000 <= u && u
        <= 0x200a) || u == 0x2028 || u == 0x2029 || u == 0x202f || u == 0x205f || u == 0x3000
}

/// Number of `'\n'` characters.
pub open spec fn newline_count(s: Seq<char>) -> nat
    decreases s.len(),
{
    if s.len() == 0 {
        0
    } else {
        newline_count(s.drop_last()) + if s.last() == '\n' {
            1nat
        } else {
            0nat
        }
    }
}

/// Lines as `str::lines` yields them: split at `'\n'`, a final line ending
/// being optional, so an empty text has none.
pub open spec fn line_count(s: Seq<char>) -> nat {
    if s.len() == 0 {
        0
    } else if s.last() == '\n' {
        newline_count(s)
    } else {
        newline_count(s) + 1
    }
}

/// Maximal runs of non-white-space characters, as `str::split_whitespace`
/// yields them.
pub open spec fn word_count(s: Seq<char>) -> nat
    decreases s.len(),
{
    if s.len() == 0 {
        0
    } else {
        let starts = !white_space(s.last()) && (s.len() == 1 || white_space(s[s.len() - 2]));
        word_count(s.drop_last()) + if starts {
            1nat
        } else {
            0nat
        }
    }
}

/// Lines and words of a response body.
pub fn count_lines_words(text: &str) -> (r: (usize, usize))
    ensures
        r.0 == line_count(text@),
        r.1 == word_count(text@),
{
    let cs = chars_of(text);
    let n = cs.len();
    let mut newlines: usize = 0;
    let mut words: usize = 0;
    let mut i: usize = 0;
    while i < n
        invariant
            n == cs@.len(),
            cs@ == text@,
            i <= n,
            newlines == newline_count(cs@.take(i as int)),
            words == word_count(cs@.take(i as int)),
            newlines <= i,
            words <= i,
            i > 0 && cs@[i - 1] != '\n' ==> newlines < i,
        decreases n - i,
    {
        let c = cs[i];
        proof {
            assert(cs@.take(i as int + 1).drop_last() =~= cs@.take(i as int));
        }
        if c == '\n' {
            newlines = newlines + 1;
        }
        if !is_white_space(c) && (i == 0 || is_white_space(cs[i - 1])) {
            words = words + 1;
        }
        i = i + 1;
    }
    proof {
        assert(cs@.take(n as int) =~= cs@);
    }
    let lines = if n == 0 {
        0
    } else if cs[n - 1] == '\n' {
        newlines
    } else {
        newlines + 1
    };
    (lines, words)
}

/// A response reduced to what is shown and filtered.
pub struct ResponseSummary {
    pub status: u16,
    pub content_length: Option<u64>,
    pub text: String,
}

/// How an attempt ended.
pub enum Outcome {
    Response(ResponseSummary),
    TransportError,
    Fatal(KillerError),
}

/// One printed row.
#[derive(Clone, Copy, Debug, PartialEq, Eq, Structural)]
pub struct Row {
    pub no: u64,
    pub status: u16,
    pub length: u64,
    pub lines: usize,
    pub words: usize,
}

/// What to show for an attempt.
pub enum Report {
    Print(Row),
    Suppressed,
    /// A transport error, with its number.
    Error(u64),
}

/// A filter matches when one of its set fields equals the response's value.
pub open spec fn filtered(f: Filters, status: u16, length: u64, lines: nat, words: nat) -> bool {
    f.status == Some(status) || f.length == Some(length) || (f.lines matches Some(l) && l == lines)
        || (f.words matches Some(w) && w == words)
}

pub fn is_filtered(f: &Filters, status: u16, length: u64, lines: usize, words: usize) -> (r: bool)
    ensures
        r == filtered(*f, status, length, lines as nat, words as nat),
{
    let by_status = match f.status {
        Some(s) => s == status,
        None => false,
    };
    let by_length = match f.length {
        Some(l) => l == length,
        None => false,
    };
    let by_lines = match f.lines {
        Some(l) => l == lines,
        None => false,
    };
    let by_words = match f.words {
        Some(w) => w == words,
        None => false,
    };
    by_status || by_length || by_lines || by_words
}

/// Numbers for attempts and transport errors; the next number of each.
pub struct Tally {
    pub no_req: u64,
    pub no_err: u64,
}

pub open spec fn bump(n: u64) -> u64 {
    if n < u64::MAX {
        (n + 1) as u64
    } else {
        n
    }
}

impl Tally {
    pub fn new() -> (r: Tally)
        ensures
            r.no_req == 1,
            r.no_err == 1,
    {
        Tally { no_req: 1, no_err: 1 }
    }
}

/// Records one attempt and says what to show. Every attempt takes the next
/// attempt number; a response is printed unless a filter matches; a
/// transport error takes the next error number; a fatal error is returned.
pub fn log_response(response: Outcome, filters: &Filters, tally: &mut Tally) -> (r: Result<Report, KillerError>)
    ensures
        final(tally).no_req == bump(old(tally).no_req),
        match response {
            Outcome::Response(s) => {
                let length = match s.content_length {
                    Some(l) => l,
                    None => 0,
                };
                let lines = line_count(s.text@);
                let words = word_count(s.text@);
                final(tally).no_err == old(tally).no_err && if filtered(*filters, s.status, length, lines, words) {
                    r == Ok::<Report, KillerError>(Report::Suppressed)
                } else {
                    (r matches Ok(Report::Print(row)) && row == (Row {
                        no: old(tally).no_req,
                        status: s.status,
                        length,
                        lines: lines as usize,
                        words: words as usize,
                    }))
                }
            },
            Outcome::TransportError => final(tally).no_err == bump(old(tally).no_err) && (r matches Ok(
                Report::Error(n),
            ) && n == old(tally).no_err),
            Outcome::Fatal(e) => final(tally).no_err == old(tally).no_err && (r matches Err(e2) && e2 == e),
        },
{
    let no = tally.no_req;
    if tally.no_req < u64::MAX {
        tally.no_req = tally.no_req + 1;
    }
    match response {
        Outcome::Response(s) => {
            let length = match s.content_length {
                Some(l) => l,
                None => 0,
            };
            let (lines, words) = count_lines_words(s.text.as_str());
            if is_filtered(filters, s.status, length, lines, words) {
                Ok(Report::Suppressed)
            } else {
                Ok(Report::Print(Row { no, status: s.status, length, lines, words }))
            }
        },
        Outcome::TransportError => {
            let n = tally.no_err;
            if tally.no_err < u64::MAX {
                tally.no_err = tally.no_err + 1;
            }
            Ok(Report::Error(n))
        },
        Outcome::Fatal(e) => Err(e),
    }
}

} // verus!
