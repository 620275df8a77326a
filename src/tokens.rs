//! CSRF tokens: how they are declared, and how their values are taken from a
//! page and turned into request parts.
use vstd::prelude::*;
use crate::assoc::{keys_distinct, last_with_key, lemma_map_of_update, map_of};
use crate::error::KillerError;
use crate::form::FormMap;
use crate::json::{json_string, json_tree, members_of, object_of, string_value, JsonTree};
use crate::parts::{PartModel, RequestPart, RequestParts, Data};
use crate::text::{split_all, split_str, str_eq};

verus! {

#[verifier::external_type_specification]
#[verifier::external_body]
pub struct ExRegex(regex::Regex);

#[verifier::external_type_specification]
#[verifier::external_body]
pub struct ExRegexError(regex::Error);

/// Whether the pattern is a regular expression that the `regex` crate accepts.
pub uninterp spec fn regex_valid(p: Seq<char>) -> bool;

/// For the first match of the pattern in the text: `None` when there is no
/// match, else every group in order, the whole match first, each `None` when
/// that group took no part in the match.
pub uninterp spec fn regex_groups(p: Seq<char>, text: Seq<char>) -> Option<Seq<Option<Seq<char>>>>;

pub open spec fn group_view(g: Option<String>) -> Option<Seq<char>> {
    match g {
        Some(s) => Some(s@),
        None => None,
    }
}

/// The text of the last group, `None` when there is no group or the last
/// one took no part in the match.
pub open spec fn last_group_of(gs: Seq<Option<Seq<char>>>) -> Option<Seq<char>> {
    if gs.len() == 0 {
        None
    } else {
        gs.last()
    }
}

/// The number of capture groups of the pattern, the implicit group of the
/// whole match included.
pub uninterp spec fn regex_group_count(p: Seq<char>) -> nat;

/// A compiled regular expression together with its source.
pub struct Pattern {
    source: String,
    regex: regex::Regex,
}

impl View for Pattern {
    type V = Seq<char>;

    closed spec fn view(&self) -> Seq<char> {
        self.source@
    }
}

/// Relies on `regex::Regex::new`, which compiles the pattern or says why not.
#[verifier::external_body]
fn compile(src: &str) -> (r: Result<Pattern, regex::Error>)
    ensures
        match r {
            Ok(p) => p@ == src@ && regex_valid(src@),
            Err(_) => !regex_valid(src@),
        },
{
    regex::Regex::new(src).map(|regex| Pattern { source: src.to_string(), regex })
}

/// Relies on `regex::Regex::captures` (first match) and `Captures::iter`
/// (every group in order, `None` for one that took no part).
#[verifier::external_body]
fn capture_groups(p: &Pattern, text: &str) -> (r: Option<Vec<Option<String>>>)
    ensures
        match r {
            None => regex_groups(p@, text@) is None,
            Some(gs) => regex_groups(p@, text@) == Some(gs@.map_values(|g: Option<String>| group_view(g))),
        },
{
    p.regex.captures(text).map(|c| c.iter().map(|m| m.map(|m| m.as_str().to_string())).collect())
}

/// Relies on `regex::Regex::captures_len`: all groups, the implicit group of
/// the whole match included.
#[verifier::external_body]
fn group_count(p: &Pattern) -> (r: usize)
    ensures
        r as nat == regex_group_count(p@),
{
    p.regex.captures_len()
}

impl Pattern {
    /// Whether the pattern has a capture group of its own.
    pub fn has_group(&self) -> (r: bool)
        ensures
            r == (regex_group_count(self@) >= 2),
    {
        group_count(self) >= 2
    }

    pub fn new(src: &str) -> (r: Result<Pattern, KillerError>)
        ensures
            match r {
                Ok(p) => p@ == src@ && regex_valid(src@),
                Err(_) => !regex_valid(src@),
            },
    {
        match compile(src) {
            Ok(p) => Ok(p),
            Err(_) => Err(KillerError { detail: String::from_str("Invalid Regex: ").concat(src) }),
        }
    }

    /// The regular expression's source text.
    pub fn as_str(&self) -> (r: &str)
        ensures
            r@ == self@,
    {
        self.source.as_str()
    }
}

/// A declared token: its name, where it is sent, and the pattern whose last
/// group holds its value.
pub type Token = (String, (String, Pattern));

pub open spec fn token_view(t: Token) -> (Seq<char>, (Seq<char>, Seq<char>)) {
    (t.0@, (t.1.0@, t.1.1@))
}

pub open spec fn eq_eq() -> Seq<char> {
    seq!['=', '=']
}

/// The three `==`-separated fields of a token declaration.
pub open spec fn token_fields(t: Seq<char>) -> Seq<Seq<char>> {
    split_all(t, eq_eq())
}

/// A declaration is `name==position==regex` with a regex that compiles and
/// has at least one capture group.
pub open spec fn token_ok(t: Seq<char>) -> bool {
    token_fields(t).len() == 3 && regex_valid(token_fields(t)[2]) && regex_group_count(token_fields(t)[2])
        >= 2
}

pub open spec fn token_entry(t: Seq<char>) -> (Seq<char>, (Seq<char>, Seq<char>)) {
    (token_fields(t)[0], (token_fields(t)[1], token_fields(t)[2]))
}

/// Name to `(position, regex source)`; a later declaration of a name wins.
pub open spec fn token_map(ts: Seq<Token>) -> Map<Seq<char>, (Seq<char>, Seq<char>)> {
    map_of(ts.map_values(|t: Token| token_view(t)))
}

/// Position of the last token named `name`.
fn find_token(ts: &Vec<Token>, name: &str) -> (r: Option<usize>)
    ensures
        match r {
            Some(i) => i < ts@.len() && ts@[i as int].0@ == name@ && last_with_key(
                ts@.map_values(|t: Token| token_view(t)),
                i as int,
            ),
            None => forall|j: int| 0 <= j < ts@.len() ==> ts@[j].0@ != name@,
        },
{
    let ghost s = ts@.map_values(|t: Token| token_view(t));
    let mut i: usize = ts.len();
    while i > 0
        invariant
            i <= ts@.len(),
            s == ts@.map_values(|t: Token| token_view(t)),
            forall|j: int| i <= j < ts@.len() ==> ts@[j].0@ != name@,
        decreases i,
    {
        i = i - 1;
        if str_eq(ts[i].0.as_str(), name) {
            return Some(i);
        }
    }
    None
}

/// Parses declarations of the form `name==position==regex`. Fails when one
/// does not have exactly three fields or its regex does not compile.
pub fn validate_tokens(tokens: &Vec<String>) -> (r: Result<Vec<Token>, KillerError>)
    ensures
        match r {
            Ok(ts) => (forall|i: int| 0 <= i < tokens@.len() ==> token_ok(#[trigger] tokens@[i]@))
                && token_map(ts@) == map_of(tokens@.map_values(|t: String| token_entry(t@)))
                && keys_distinct(ts@.map_values(|t: Token| token_view(t))),
            Err(_) => exists|i: int| 0 <= i < tokens@.len() && !token_ok(#[trigger] tokens@[i]@),
        },
{
    proof {
        reveal_strlit("==");
    }
    let mut out: Vec<Token> = Vec::new();
    let mut i: usize = 0;
    let ghost want = tokens@.map_values(|t: String| token_entry(t@));
    proof {
        assert(out@.map_values(|t: Token| token_view(t)) =~= Seq::<(Seq<char>, (Seq<char>, Seq<char>))>::empty());
        assert(want.take(0) =~= Seq::<(Seq<char>, (Seq<char>, Seq<char>))>::empty());
    }
    while i < tokens.len()
        invariant
            i <= tokens@.len(),
            "=="@ == eq_eq(),
            want == tokens@.map_values(|t: String| token_entry(t@)),
            forall|j: int| 0 <= j < i ==> token_ok(#[trigger] tokens@[j]@),
            token_map(out@) == map_of(want.take(i as int)),
            keys_distinct(out@.map_values(|t: Token| token_view(t))),
        decreases tokens@.len() - i,
    {
        let token = &tokens[i];
        let fields = split_str(token.as_str(), "==");
        if fields.len() != 3 {
            return Err(KillerError {
                detail: String::from_str("Invalid token struct: ").concat(token.as_str()).concat(
                    ", must be == separated",
                ),
            });
        }
        let pattern = match Pattern::new(fields[2].as_str()) {
            Ok(p) => p,
            Err(e) => {
                return Err(e);
            },
        };
        if !pattern.has_group() {
            return Err(
                KillerError {
                    detail: String::from_str("The regex of the token has no capture group: ").concat(
                        token.as_str(),
                    ),
                },
            );
        }
        let name = fields[0].clone();
        let position = fields[1].clone();
        let ghost entry = (name@, (position@, pattern@));
        let ghost before = out@.map_values(|t: Token| token_view(t));
        proof {
            assert(entry == want[i as int]);
            assert(want.take(i as int + 1) =~= want.take(i as int).push(entry));
            assert(want.take(i as int).push(entry).drop_last() =~= want.take(i as int));
        }
        match find_token(&out, name.as_str()) {
            Some(k) => {
                out.set(k, (name, (position, pattern)));
                proof {
                    assert(out@.map_values(|t: Token| token_view(t)) =~= before.update(
                        k as int,
                        (before[k as int].0, entry.1),
                    ));
                    lemma_map_of_update(before, k as int, entry.1);
                    assert(token_map(out@) =~= map_of(want.take(i as int + 1)));
                }
            },
            None => {
                out.push((name, (position, pattern)));
                proof {
                    assert(out@.map_values(|t: Token| token_view(t)) =~= before.push(entry));
                    assert(before.push(entry).drop_last() =~= before);
                }
            },
        }
        i = i + 1;
    }
    proof {
        assert(want.take(i as int) =~= want);
    }
    Ok(out)
}

/// Where the CSRF tokens are fetched, and which tokens are taken from the page.
pub struct Csrf {
    pub url: String,
    pub tokens: Vec<Token>,
}

/// The request part that carries the value of token `name` at `position`,
/// or `None` for an unknown position.
pub open spec fn token_part(name: Seq<char>, position: Seq<char>, value: Seq<char>) -> Option<PartModel> {
    if position == "form"@ {
        Some(PartModel::Form(map![name => value]))
    } else if position == "multipart"@ {
        Some(PartModel::PartText(map![name => value]))
    } else if position == "json"@ {
        Some(PartModel::Json(JsonTree::Object(map![name => JsonTree::Leaf(json_string(value))])))
    } else if position == "query"@ {
        Some(PartModel::Query(name, value))
    } else if position == "header"@ {
        Some(PartModel::Header(name, value))
    } else if position == "cookie"@ {
        Some(PartModel::Cookie(name + seq!['='] + value))
    } else {
        None
    }
}

impl Csrf {
    /// No two tokens share a name.
    pub open spec fn names_distinct(&self) -> bool {
        keys_distinct(self.tokens@.map_values(|t: Token| token_view(t)))
    }

    pub fn has_distinct_names(&self) -> (r: bool)
        ensures
            r == self.names_distinct(),
    {
        let ghost s = self.tokens@.map_values(|t: Token| token_view(t));
        let n = self.tokens.len();
        let mut i: usize = 0;
        while i < n
            invariant
                n == self.tokens@.len(),
                s == self.tokens@.map_values(|t: Token| token_view(t)),
                i <= n,
                forall|a: int, b: int| 0 <= a < b < n && a < i ==> s[a].0 != s[b].0,
            decreases n - i,
        {
            let mut j: usize = i + 1;
            while j < n
                invariant
                    n == self.tokens@.len(),
                    s == self.tokens@.map_values(|t: Token| token_view(t)),
                    i < n,
                    i + 1 <= j <= n,
                    forall|a: int, b: int| 0 <= a < b < n && a < i ==> s[a].0 != s[b].0,
                    forall|b: int| i < b < j ==> s[i as int].0 != s[b].0,
                decreases n - j,
            {
                if str_eq(self.tokens[i].0.as_str(), self.tokens[j].0.as_str()) {
                    proof {
                        assert(s[i as int].0 == s[j as int].0);
                    }
                    return false;
                }
                j = j + 1;
            }
            i = i + 1;
        }
        true
    }
}

/// The part that a declared token gives on the page `text`: the value is the
/// last capture group of the first match. `None` when the regex has no
/// capture group, does not match, yields no group, its last group took no
/// part, or the position is unknown.
pub open spec fn extracted(t: (Seq<char>, (Seq<char>, Seq<char>)), text: Seq<char>) -> Option<PartModel> {
    if regex_group_count(t.1.1) < 2 {
        None
    } else {
        match regex_groups(t.1.1, text) {
            Some(gs) => match last_group_of(gs) {
                Some(v) => token_part(t.0, t.1.0, v),
                None => None,
            },
            None => None,
        }
    }
}

/// The part for one token value.
fn make_part(name: &String, position: &String, value: String) -> (r: Option<RequestPart>)
    ensures
        match r {
            Some(p) => token_part(name@, position@, value@) == Some(p@),
            None => token_part(name@, position@, value@) is None,
        },
{
    if str_eq(position.as_str(), "form") {
        let mut m = FormMap::new();
        m.insert(name.clone(), value);
        proof {
            assert(m@ =~= map![name@ => value@]);
        }
        Some(RequestPart::Data(Data::Form(m)))
    } else if str_eq(position.as_str(), "multipart") {
        let mut m = FormMap::new();
        m.insert(name.clone(), value);
        proof {
            assert(m@ =~= map![name@ => value@]);
        }
        Some(RequestPart::Data(Data::PartText(m)))
    } else if str_eq(position.as_str(), "json") {
        let ghost vv = value@;
        let v = string_value(value);
        let mut members: Vec<(String, serde_json::Value)> = Vec::new();
        members.push((name.clone(), v));
        let obj = object_of(members);
        proof {
            assert(members@.map_values(|e: (String, serde_json::Value)| (e.0@, json_tree(e.1))) =~= seq![(name@, json_tree(v))]);
            assert(seq![(name@, json_tree(v))].drop_last() =~= Seq::<(Seq<char>, JsonTree)>::empty());
            assert(map_of(Seq::<(Seq<char>, JsonTree)>::empty()) == Map::<Seq<char>, JsonTree>::empty());
            assert(map_of(seq![(name@, json_tree(v))]) == Map::<Seq<char>, JsonTree>::empty().insert(name@, json_tree(v)));
            assert(members_of(members@) =~= map![name@ => JsonTree::Leaf(json_string(vv))]);
        }
        Some(RequestPart::Data(Data::Json(obj)))
    } else if str_eq(position.as_str(), "query") {
        Some(RequestPart::Query(name.clone(), value))
    } else if str_eq(position.as_str(), "header") {
        Some(RequestPart::Header(name.clone(), value))
    } else if str_eq(position.as_str(), "cookie") {
        proof {
            reveal_strlit("=");
        }
        let cookie = name.clone().concat("=").concat(value.as_str());
        proof {
            assert(cookie@ =~= name@ + seq!['='] + value@);
        }
        Some(RequestPart::Cookie(cookie))
    } else {
        None
    }
}

/// One part per declared token, in declaration order, each holding the last
/// capture group of the token's regex on the first match in `text`. Fails
/// when a regex has no group or does not match, its last group took no part,
/// or a position is unknown.
pub fn filter_tokens(csrf: &Csrf, text: &str) -> (r: Result<RequestParts, KillerError>)
    requires
        csrf.names_distinct(),
    ensures
        match r {
            Ok(parts) => parts@.len() == csrf.tokens@.len() && forall|i: int|
                0 <= i < csrf.tokens@.len() ==> extracted(token_view(#[trigger] csrf.tokens@[i]), text@)
                    == Some(parts@[i]),
            Err(_) => exists|i: int|
                0 <= i < csrf.tokens@.len() && extracted(token_view(#[trigger] csrf.tokens@[i]), text@) is None,
        },
{
    let mut tokens = RequestParts::new();
    let mut i: usize = 0;
    while i < csrf.tokens.len()
        invariant
            i <= csrf.tokens@.len(),
            tokens@.len() == i,
            forall|j: int|
                0 <= j < i ==> extracted(token_view(#[trigger] csrf.tokens@[j]), text@) == Some(tokens@[j]),
        decreases csrf.tokens@.len() - i,
    {
        let name = &csrf.tokens[i].0;
        let position = &csrf.tokens[i].1.0;
        let pattern = &csrf.tokens[i].1.1;
        if !pattern.has_group() {
            return Err(KillerError::new("The regex of the token has no capture group"));
        }
        let groups = match capture_groups(pattern, text) {
            None => {
                return Err(KillerError {
                    detail: String::from_str("Don't found a match for the regex of the token: ").concat(
                        name.as_str(),
                    ),
                });
            },
            Some(gs) => gs,
        };
        if groups.len() == 0 {
            return Err(KillerError::new("Can not get the last group of the regex"));
        }
        let value = match &groups[groups.len() - 1] {
            Some(v) => v.clone(),
            None => {
                return Err(KillerError::new("Can not get the value of the last group of the regex"));
            },
        };
        match make_part(name, position, value) {
            Some(part) => {
                tokens.add(part);
            },
            None => {
                return Err(KillerError::new("Invalid token position"));
            },
        }
        i = i + 1;
    }
    Ok(tokens)
}

} // verus!
