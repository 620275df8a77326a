//! The run's configuration: plain argument values checked and turned into
//! the settings that every worker reads.
use vstd::prelude::*;
use crate::assoc::{keys_distinct, lemma_map_of_dom, lemma_map_of_index, last_with_key, map_of};
use crate::error::KillerError;
use crate::form::{fuzz_word, FormMap, FUZZ};
use crate::json::{json_error_text, json_parse, json_tree, parse_json};
use crate::parts::{Data, PartModel};
use crate::text::{contains_str, occurs_in, split_all, split_str, str_eq};
use crate::tokens::{token_entry, token_map, token_ok, token_view, validate_tokens, Csrf, Token};

verus! {

pub open spec fn amp() -> Seq<char> {
    seq!['&']
}

pub open spec fn equals_sign() -> Seq<char> {
    seq!['=']
}

pub open spec fn colon() -> Seq<char> {
    seq![':']
}

/// The `&`-separated fields of a form body.
pub open spec fn form_fields(d: Seq<char>) -> Seq<Seq<char>> {
    split_all(d, amp())
}

/// A field is `key=value`, both non-empty, with no other `=`.
pub open spec fn form_field_ok(f: Seq<char>) -> bool {
    let kv = split_all(f, equals_sign());
    kv.len() == 2 && kv[0].len() > 0 && kv[1].len() > 0
}

/// A form body is one or more well-formed fields joined by `&`.
pub open spec fn form_ok(d: Seq<char>) -> bool {
    forall|i: int| 0 <= i < form_fields(d).len() ==> form_field_ok(#[trigger] form_fields(d)[i])
}

pub open spec fn form_pair(f: Seq<char>) -> (Seq<char>, Seq<char>) {
    (split_all(f, equals_sign())[0], split_all(f, equals_sign())[1])
}

/// The fields of a well-formed form body; a later key wins.
pub open spec fn form_map(d: Seq<char>) -> Map<Seq<char>, Seq<char>> {
    map_of(form_fields(d).map_values(|f: Seq<char>| form_pair(f)))
}

/// Reads a body of the form `k1=v1&k2=v2`.
pub fn validate_form(data: &str) -> (r: Result<FormMap, KillerError>)
    ensures
        match r {
            Ok(m) => form_ok(data@) && m@ == form_map(data@),
            Err(e) => !form_ok(data@) && e.detail@ == "Invalid format of form data"@,
        },
{
    proof {
        reveal_strlit("&");
        reveal_strlit("=");
        assert("&"@ =~= amp());
        assert("="@ =~= equals_sign());
    }
    let fields = split_str(data, "&");
    let ghost fs = form_fields(data@);
    let ghost pairs = fs.map_values(|f: Seq<char>| form_pair(f));
    let mut form = FormMap::new();
    let mut i: usize = 0;
    proof {
        assert(pairs.take(0) =~= Seq::<(Seq<char>, Seq<char>)>::empty());
    }
    while i < fields.len()
        invariant
            i <= fields@.len(),
            fields@.len() == fs.len(),
            fs == form_fields(data@),
            forall|j: int| 0 <= j < fields@.len() ==> #[trigger] fields@[j]@ == fs[j],
            "="@ == equals_sign(),
            pairs == fs.map_values(|f: Seq<char>| form_pair(f)),
            forall|j: int| 0 <= j < i ==> form_field_ok(#[trigger] fs[j]),
            form@ == map_of(pairs.take(i as int)),
        decreases fields@.len() - i,
    {
        let kv = split_str(fields[i].as_str(), "=");
        if kv.len() != 2 || kv[0].as_str().is_empty() || kv[1].as_str().is_empty() {
            proof {
                if kv@.len() == 2 {
                    assert(kv@[0]@.len() == 0 || kv@[1]@.len() == 0);
                }
                assert(!form_field_ok(form_fields(data@)[i as int]));
                assert(!form_ok(data@));
            }
            return Err(KillerError::new("Invalid format of form data"));
        }
        let key = kv[0].clone();
        let value = kv[1].clone();
        proof {
            assert(pairs[i as int] == (key@, value@));
            assert(pairs.take(i as int + 1) =~= pairs.take(i as int).push((key@, value@)));
            assert(pairs.take(i as int).push((key@, value@)).drop_last() =~= pairs.take(i as int));
        }
        form.insert(key, value);
        i = i + 1;
    }
    proof {
        assert(pairs.take(i as int) =~= pairs);
    }
    Ok(form)
}

/// Whether the text is a header name that the HTTP client accepts.
pub uninterp spec fn header_name_valid(s: Seq<char>) -> bool;

/// Whether the text is a header value that the HTTP client accepts.
pub uninterp spec fn header_value_valid(s: Seq<char>) -> bool;

/// Relies on `reqwest::header::HeaderName::from_str` succeeding or not.
#[verifier::external_body]
fn is_header_name(s: &str) -> (r: bool)
    ensures
        r == header_name_valid(s@),
{
    <reqwest::header::HeaderName as std::str::FromStr>::from_str(s).is_ok()
}

/// Relies on `reqwest::header::HeaderValue::from_str` succeeding or not.
#[verifier::external_body]
fn is_header_value(s: &str) -> (r: bool)
    ensures
        r == header_value_valid(s@),
{
    <reqwest::header::HeaderValue as std::str::FromStr>::from_str(s).is_ok()
}

/// A header is `name:value` with exactly one `:`, a valid name and a valid
/// value.
pub open spec fn header_ok(h: Seq<char>) -> bool {
    &&& split_all(h, colon()).len() == 2
    &&& header_name_valid(split_all(h, colon())[0])
    &&& header_value_valid(split_all(h, colon())[1])
}

/// `v` holds the name and value of each header declaration, in order.
pub open spec fn headers_split(hs: Seq<String>, v: Seq<(String, String)>) -> bool {
    &&& v.len() == hs.len()
    &&& forall|i: int| 0 <= i < v.len() ==> (#[trigger] v[i].0@, v[i].1@) == (split_all(hs[i]@, colon())[0],
        split_all(hs[i]@, colon())[1])
}

/// Reads headers of the form `Name:Value`, in order.
pub fn validate_headers(headers: &Vec<String>) -> (r: Result<Vec<(String, String)>, KillerError>)
    ensures
        match r {
            Ok(hs) => (forall|i: int| 0 <= i < headers@.len() ==> header_ok(#[trigger] headers@[i]@))
                && headers_split(headers@, hs@),
            Err(_) => exists|i: int| 0 <= i < headers@.len() && !header_ok(#[trigger] headers@[i]@),
        },
{
    proof {
        reveal_strlit(":");
    }
    let mut out: Vec<(String, String)> = Vec::new();
    let mut i: usize = 0;
    while i < headers.len()
        invariant
            i <= headers@.len(),
            ":"@ == colon(),
            out@.len() == i,
            forall|j: int| 0 <= j < i ==> header_ok(#[trigger] headers@[j]@),
            forall|j: int| 0 <= j < i ==> (#[trigger] out@[j].0@, out@[j].1@) == (split_all(headers@[j]@, colon())[0],
                split_all(headers@[j]@, colon())[1]),
        decreases headers@.len() - i,
    {
        let pair = split_str(headers[i].as_str(), ":");
        if pair.len() != 2 {
            return Err(KillerError {
                detail: String::from_str("Invalid header: ").concat(headers[i].as_str()).concat(
                    ", must be : separated",
                ),
            });
        }
        if !is_header_name(pair[0].as_str()) || !is_header_value(pair[1].as_str()) {
            return Err(KillerError {
                detail: String::from_str("Invalid header name or value: ").concat(headers[i].as_str()),
            });
        }
        out.push((pair[0].clone(), pair[1].clone()));
        i = i + 1;
    }
    Ok(out)
}

/// What is attacked, with which verb, and the configured body.
pub struct Target {
    pub url: String,
    pub method: String,
    pub data: Option<Data>,
}

/// Exactly one of brute force (payloads from `wordlist`) or upload (paths
/// listed in `file_paths`, sent in the multipart field `field_name`).
pub struct Modes {
    pub brute_force: bool,
    pub wordlist: Option<String>,
    pub upload_files: bool,
    pub file_paths: Option<String>,
    pub field_name: Option<String>,
}

/// Responses that match any set field are not shown.
#[derive(Clone, Copy, Debug, PartialEq, Eq, Structural)]
pub struct Filters {
    pub status: Option<u16>,
    pub length: Option<u64>,
    pub lines: Option<usize>,
    pub words: Option<usize>,
}

/// How the HTTP client is built; durations are in milliseconds.
pub struct RequestOptions {
    pub headers: Option<Vec<(String, String)>>,
    pub store_cookies: bool,
    pub redirects: bool,
    pub proxy: Option<String>,
    pub timeout_ms: u64,
}

pub struct Settings {
    pub csrf: Csrf,
    pub target: Target,
    pub modes: Modes,
    pub concurrence: u16,
    pub delay_ms: u64,
    pub options: RequestOptions,
    pub filters: Filters,
}

/// The command line's values; durations are in milliseconds.
pub struct Args {
    pub url: String,
    pub csrf_url: String,
    pub tokens: Vec<String>,
    pub method: String,
    pub brute_force: bool,
    pub wordlist: Option<String>,
    pub upload_files: bool,
    pub file_paths: Option<String>,
    pub field_name: Option<String>,
    pub concurrence: u16,
    pub delay_ms: u64,
    pub data_post: Option<String>,
    pub data_type: Option<String>,
    pub headers: Option<Vec<String>>,
    pub store_cookies: bool,
    pub no_redirects: bool,
    pub proxy: Option<String>,
    pub timeout_ms: u64,
    pub no_status: Option<u16>,
    pub no_length: Option<u64>,
    pub no_words: Option<usize>,
    pub no_lines: Option<usize>,
}

pub open spec fn opt_view(o: Option<String>) -> Option<Seq<char>> {
    match o {
        Some(s) => Some(s@),
        None => None,
    }
}

fn clone_opt(o: &Option<String>) -> (r: Option<String>)
    ensures
        r == *o,
{
    match o {
        Some(s) => Some(s.clone()),
        None => None,
    }
}

proof fn lemma_body_kinds_differ()
    ensures
        "json"@ != "form"@,
        "json"@ != "multipart"@,
        "form"@ != "multipart"@,
{
    reveal_strlit("json");
    reveal_strlit("form");
    reveal_strlit("multipart");
    assert("json"@[0] != "form"@[0]);
    assert("json"@[0] != "multipart"@[0]);
    assert("form"@[0] != "multipart"@[0]);
}

/// Positions that put a token into the body.
pub open spec fn body_position(p: Seq<char>) -> bool {
    p == "json"@ || p == "form"@ || p == "multipart"@
}

/// The declared tokens by name: `(position, regex source)`.
pub open spec fn declared_tokens(tokens: Seq<String>) -> Map<Seq<char>, (Seq<char>, Seq<char>)> {
    map_of(tokens.map_values(|t: String| token_entry(t@)))
}

/// A token is sent in a body of another kind than `data_type`.
pub open spec fn body_conflict(tokens: Seq<String>, data_type: Seq<char>) -> bool {
    exists|k: Seq<char>|
        #[trigger] declared_tokens(tokens).contains_key(k) && body_position(declared_tokens(tokens)[k].0)
            && declared_tokens(tokens)[k].0 != data_type
}

/// The body text is well-formed for its type.
pub open spec fn data_ok(post: Seq<char>, data_type: Seq<char>) -> bool {
    if data_type == "form"@ || data_type == "multipart"@ {
        form_ok(post)
    } else if data_type == "json"@ {
        json_parse(post) is Some
    } else {
        false
    }
}

/// The checks that the configuration must pass.
pub open spec fn args_ok(a: Args) -> bool {
    &&& match a.headers {
        Some(hs) => forall|i: int| 0 <= i < hs@.len() ==> header_ok(#[trigger] hs@[i]@),
        None => true,
    }
    &&& forall|i: int| 0 <= i < a.tokens@.len() ==> token_ok(#[trigger] a.tokens@[i]@)
    &&& match (a.data_post, a.data_type) {
        (Some(post), Some(ty)) => !body_conflict(a.tokens@, ty@) && data_ok(post@, ty@),
        _ => true,
    }
    &&& a.brute_force ==> (occurs_in(a.url@, fuzz_word()) || match (a.data_post, a.data_type) {
        (Some(post), Some(_)) => occurs_in(post@, fuzz_word()),
        _ => false,
    })
}

/// The configured body is the one that the body text and its type describe.
pub open spec fn data_matches(d: Option<Data>, a: Args) -> bool {
    match (a.data_post, a.data_type) {
        (Some(post), Some(ty)) => if ty@ == "json"@ {
            d matches Some(Data::Json(v)) && json_parse(post@) == Some(v)
        } else if ty@ == "form"@ {
            d matches Some(Data::Form(m)) && m@ == form_map(post@)
        } else {
            d matches Some(Data::PartText(m)) && m@ == form_map(post@)
        },
        _ => d is None,
    }
}

impl Settings {
    /// Settings that carry the argument values, with the checked tokens,
    /// body and headers.
    pub fn from_args(
        args: &Args,
        tokens: Vec<Token>,
        data: Option<Data>,
        headers: Option<Vec<(String, String)>>,
    ) -> (r: Settings)
        ensures
            r.target.url == args.url,
            r.target.method == args.method,
            r.target.data == data,
            r.csrf.url == args.csrf_url,
            r.csrf.tokens == tokens,
            r.modes.brute_force == args.brute_force,
            r.modes.wordlist == args.wordlist,
            r.modes.upload_files == args.upload_files,
            r.modes.file_paths == args.file_paths,
            r.modes.field_name == args.field_name,
            r.concurrence == args.concurrence,
            r.delay_ms == args.delay_ms,
            r.options.headers == headers,
            r.options.store_cookies == args.store_cookies,
            r.options.redirects == args.no_redirects,
            r.options.proxy == args.proxy,
            r.options.timeout_ms == args.timeout_ms,
            r.filters == (Filters {
                status: args.no_status,
                length: args.no_length,
                lines: args.no_lines,
                words: args.no_words,
            }),
    {
        Settings {
            target: Target { url: args.url.clone(), method: args.method.clone(), data },
            csrf: Csrf { url: args.csrf_url.clone(), tokens },
            modes: Modes {
                brute_force: args.brute_force,
                wordlist: clone_opt(&args.wordlist),
                upload_files: args.upload_files,
                file_paths: clone_opt(&args.file_paths),
                field_name: clone_opt(&args.field_name),
            },
            concurrence: args.concurrence,
            delay_ms: args.delay_ms,
            options: RequestOptions {
                store_cookies: args.store_cookies,
                headers,
                redirects: args.no_redirects,
                proxy: clone_opt(&args.proxy),
                timeout_ms: args.timeout_ms,
            },
            filters: Filters {
                status: args.no_status,
                length: args.no_length,
                words: args.no_words,
                lines: args.no_lines,
            },
        }
    }
}

/// Looks for a token sent in a body of another kind than `data_type`.
fn find_conflict(tokens: &Vec<Token>, data_type: &String) -> (r: bool)
    requires
        keys_distinct(tokens@.map_values(|t: Token| token_view(t))),
    ensures
        r == exists|k: Seq<char>|
            #[trigger] token_map(tokens@).contains_key(k) && body_position(token_map(tokens@)[k].0)
                && token_map(tokens@)[k].0 != data_type@,
{
    let ghost s = tokens@.map_values(|t: Token| token_view(t));
    let mut i: usize = 0;
    while i < tokens.len()
        invariant
            i <= tokens@.len(),
            s == tokens@.map_values(|t: Token| token_view(t)),
            keys_distinct(s),
            forall|j: int| 0 <= j < i ==> !(body_position(#[trigger] s[j].1.0) && s[j].1.0 != data_type@),
        decreases tokens@.len() - i,
    {
        let pos = &tokens[i].1.0;
        let in_body = str_eq(pos.as_str(), "json") || str_eq(pos.as_str(), "form") || str_eq(
            pos.as_str(),
            "multipart",
        );
        if in_body && !str_eq(pos.as_str(), data_type.as_str()) {
            proof {
                assert(last_with_key(s, i as int));
                lemma_map_of_index(s, i as int);
                let k = s[i as int].0;
                assert(token_map(tokens@).contains_key(k) && body_position(token_map(tokens@)[k].0)
                    && token_map(tokens@)[k].0 != data_type@);
            }
            return true;
        }
        i = i + 1;
    }
    proof {
        assert forall|k: Seq<char>|
            #[trigger] token_map(tokens@).contains_key(k) implies !(body_position(token_map(tokens@)[k].0)
                && token_map(tokens@)[k].0 != data_type@) by {
            lemma_map_of_dom(s, k);
            let j = choose|j: int| 0 <= j < s.len() && s[j].0 == k;
            assert(last_with_key(s, j));
            lemma_map_of_index(s, j);
        }
    }
    false
}

impl Args {
    /// Checks the arguments and builds the settings: headers are `Name:Value`,
    /// tokens `name==position==regex`; a body needs no token in a body of
    /// another kind and must be well-formed for its type; brute force needs
    /// `FUZZ` in the URL or in the body.
    pub fn move_to_setting(self) -> (r: Result<Settings, KillerError>)
        ensures
            match r {
                Ok(s) => args_ok(self) && s.target.url == self.url && s.target.method == self.method
                    && data_matches(s.target.data, self) && s.csrf.url == self.csrf_url && s.csrf.names_distinct() && token_map(
                    s.csrf.tokens@,
                ) == declared_tokens(self.tokens@) && s.modes.brute_force == self.brute_force
                    && s.modes.wordlist == self.wordlist && s.modes.upload_files == self.upload_files
                    && s.modes.file_paths == self.file_paths && s.modes.field_name == self.field_name
                    && s.concurrence == self.concurrence && s.delay_ms == self.delay_ms
                    && match self.headers {
                    Some(hs) => s.options.headers matches Some(v) && headers_split(hs@, v@),
                    None => s.options.headers is None,
                } && s.options.store_cookies == self.store_cookies && s.options.redirects
                    == self.no_redirects && s.options.proxy == self.proxy && s.options.timeout_ms
                    == self.timeout_ms && s.filters == (Filters {
                    status: self.no_status,
                    length: self.no_length,
                    lines: self.no_lines,
                    words: self.no_words,
                }),
                Err(_) => !args_ok(self),
            },
    {
        proof {
            reveal_strlit("FUZZ");
            lemma_body_kinds_differ();
        }
        let mut found_fuzz = contains_str(self.url.as_str(), FUZZ);
        let headers = match &self.headers {
            Some(hs) => match validate_headers(hs) {
                Ok(v) => Some(v),
                Err(e) => {
                    return Err(e);
                },
            },
            None => None,
        };
        let tokens = match validate_tokens(&self.tokens) {
            Ok(ts) => ts,
            Err(e) => {
                return Err(e);
            },
        };
        let data = match (&self.data_post, &self.data_type) {
            (Some(data_post), Some(data_type)) => {
                if find_conflict(&tokens, data_type) {
                    proof {
                        let k = choose|k: Seq<char>|
                            #[trigger] token_map(tokens@).contains_key(k) && body_position(token_map(tokens@)[k].0)
                                && token_map(tokens@)[k].0 != data_type@;
                        assert(declared_tokens(self.tokens@).contains_key(k));
                        assert(body_conflict(self.tokens@, data_type@));
                    }
                    return Err(
                        KillerError::new(
                            "Can't send multiples data type in the same request ex: json and form",
                        ),
                    );
                }
                if contains_str(data_post.as_str(), FUZZ) {
                    found_fuzz = true;
                }
                if str_eq(data_type.as_str(), "form") {
                    match validate_form(data_post.as_str()) {
                        Ok(m) => Some(Data::Form(m)),
                        Err(e) => {
                            return Err(e);
                        },
                    }
                } else if str_eq(data_type.as_str(), "json") {
                    match parse_json(data_post.as_str()) {
                        Ok(v) => Some(Data::Json(v)),
                        Err(e) => {
                            return Err(
                                KillerError {
                                    detail: String::from_str("Invalid json: ").concat(
                                        json_error_text(&e).as_str(),
                                    ),
                                },
                            );
                        },
                    }
                } else if str_eq(data_type.as_str(), "multipart") {
                    match validate_form(data_post.as_str()) {
                        Ok(m) => Some(Data::PartText(m)),
                        Err(e) => {
                            return Err(e);
                        },
                    }
                } else {
                    return Err(KillerError::new("Invalid data type"));
                }
            },
            (_, _) => None,
        };
        if self.brute_force && !found_fuzz {
            return Err(KillerError::new("Mode brute force without FUZZ keyword"));
        }
        Ok(Settings::from_args(&self, tokens, data, headers))
    }
}

} // verus!
