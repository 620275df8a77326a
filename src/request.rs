//! Composing the target request for one payload: `FUZZ` substitution,
//! uploaded files, merging of the parts, and the request that results.
use vstd::prelude::*;
use crate::error::KillerError;
use crate::form::{fuzz_word, FormMap, FUZZ};
use crate::json::{json_parse, json_text, json_tree};
use crate::parts::{fuzzed_fields, fuzzed_text, joined, parts_view, Data, PartModel, RequestPart,
    RequestParts};
use crate::settings::Target;
use crate::text::{replace_all, replace_str, str_eq};

verus! {

/// The MIME type that `mime_guess` gives a path by its extension, `text/plain`
/// when it knows none.
pub uninterp spec fn mime_for_path(path: Seq<char>) -> Seq<char>;

/// Relies on `mime_guess::from_path(..).first_or_text_plain()`, rendered as text.
#[verifier::external_body]
fn guess_mime(path: &str) -> (r: String)
    ensures
        r@ == mime_for_path(path@),
{
    mime_guess::from_path(path).first_or_text_plain().to_string()
}

/// The last component of a path, as `std::path::Path::file_name` gives it.
pub uninterp spec fn path_file_name(path: Seq<char>) -> Option<Seq<char>>;

/// Relies on `std::path::Path::file_name`: the last component of the path,
/// if it has one.
#[verifier::external_body]
fn file_name(path: &str) -> (r: Option<String>)
    ensures
        match r {
            Some(n) => path_file_name(path@) == Some(n@),
            None => path_file_name(path@) is None,
        },
{
    std::path::Path::new(path).file_name().and_then(|n| n.to_str()).map(|n| n.to_string())
}

/// One payload: a line of the wordlist, or an upload field with the path of
/// the file to send in it.
pub enum Payload {
    Line(String),
    Upload(String, String),
}

#[derive(Clone, Copy, Debug, PartialEq, Eq, Structural)]
pub enum Method {
    Get,
    Post,
    Put,
    Delete,
}

pub open spec fn method_of(m: Seq<char>) -> Option<Method> {
    if m == "get"@ {
        Some(Method::Get)
    } else if m == "post"@ {
        Some(Method::Post)
    } else if m == "put"@ {
        Some(Method::Put)
    } else if m == "delete"@ {
        Some(Method::Delete)
    } else {
        None
    }
}

pub fn parse_method(m: &str) -> (r: Option<Method>)
    ensures
        r == method_of(m@),
{
    if str_eq(m, "get") {
        Some(Method::Get)
    } else if str_eq(m, "post") {
        Some(Method::Post)
    } else if str_eq(m, "put") {
        Some(Method::Put)
    } else if str_eq(m, "delete") {
        Some(Method::Delete)
    } else {
        None
    }
}

/// The file part for an upload: the field, the file's name, the MIME type
/// guessed from the path, and the contents read by the caller. Fails when the
/// path names no file.
pub fn get_part_file(field_name: &str, path: &str, contents: Vec<u8>) -> (r: Result<RequestPart, KillerError>)
    ensures
        match r {
            Ok(p) => p@ is File && p@->File_0 == field_name@ && path_file_name(path@) == Some(p@->File_1)
                && p@->File_2 == mime_for_path(path@) && p@->File_3 == contents@,
            Err(_) => path_file_name(path@) is None,
        },
{
    let mime = guess_mime(path);
    match file_name(path) {
        Some(name) => Ok(RequestPart::Data(Data::File(String::from_str(field_name), name, mime, contents))),
        None => Err(KillerError { detail: String::from_str("Error reading the file name of: ").concat(path) }),
    }
}

/// What a request body is made of.
pub enum Body {
    Empty,
    Form(FormMap),
    Json(serde_json::Value),
    /// Text and file parts, in order.
    Multipart(Vec<Data>),
}

pub enum BodyModel {
    Empty,
    Plain(PartModel),
    Multipart(Seq<PartModel>),
}

pub open spec fn data_view(d: Data) -> PartModel {
    RequestPart::Data(d)@
}

impl View for Body {
    type V = BodyModel;

    open spec fn view(&self) -> BodyModel {
        match self {
            Body::Empty => BodyModel::Empty,
            Body::Form(m) => BodyModel::Plain(PartModel::Form(m@)),
            Body::Json(v) => BodyModel::Plain(PartModel::Json(json_tree(*v))),
            Body::Multipart(ds) => BodyModel::Multipart(ds@.map_values(|d: Data| data_view(d))),
        }
    }
}

/// The request to send, in the terms of the HTTP client.
pub struct PreparedRequest {
    pub method: Method,
    pub url: String,
    pub query: Vec<(String, String)>,
    pub headers: Vec<(String, String)>,
    pub body: Body,
}

pub open spec fn pairs_view(v: Seq<(String, String)>) -> Seq<(Seq<char>, Seq<char>)> {
    v.map_values(|e: (String, String)| (e.0@, e.1@))
}

/// Query parameters of the parts, in order.
pub open spec fn query_of(ps: Seq<PartModel>) -> Seq<(Seq<char>, Seq<char>)>
    decreases ps.len(),
{
    if ps.len() == 0 {
        Seq::empty()
    } else {
        let rest = query_of(ps.drop_last());
        match ps.last() {
            PartModel::Query(k, v) => rest.push((k, v)),
            _ => rest,
        }
    }
}

/// Headers of the parts, in order; a cookie line is a `Cookie` header.
pub open spec fn headers_of(ps: Seq<PartModel>) -> Seq<(Seq<char>, Seq<char>)>
    decreases ps.len(),
{
    if ps.len() == 0 {
        Seq::empty()
    } else {
        let rest = headers_of(ps.drop_last());
        match ps.last() {
            PartModel::Header(k, v) => rest.push((k, v)),
            PartModel::Cookie(c) => rest.push(("Cookie"@, c)),
            _ => rest,
        }
    }
}

/// Multipart text and file parts, in order.
pub open spec fn multipart_of(ps: Seq<PartModel>) -> Seq<PartModel>
    decreases ps.len(),
{
    if ps.len() == 0 {
        Seq::empty()
    } else {
        let rest = multipart_of(ps.drop_last());
        match ps.last() {
            PartModel::PartText(..) => rest.push(ps.last()),
            PartModel::File(..) => rest.push(ps.last()),
            _ => rest,
        }
    }
}

/// The last form or JSON part.
pub open spec fn plain_body_of(ps: Seq<PartModel>) -> Option<PartModel>
    decreases ps.len(),
{
    if ps.len() == 0 {
        None
    } else {
        match ps.last() {
            PartModel::Form(..) => Some(ps.last()),
            PartModel::Json(..) => Some(ps.last()),
            _ => plain_body_of(ps.drop_last()),
        }
    }
}

/// Multipart when any text or file part is present, else the form or JSON
/// body, else none.
pub open spec fn body_of(ps: Seq<PartModel>) -> BodyModel {
    if multipart_of(ps).len() > 0 {
        BodyModel::Multipart(multipart_of(ps))
    } else {
        match plain_body_of(ps) {
            Some(p) => BodyModel::Plain(p),
            None => BodyModel::Empty,
        }
    }
}

/// The request that the parts describe, once merged.
pub open spec fn request_from(method: Method, url: Seq<char>, ps: Seq<PartModel>, r: PreparedRequest) -> bool {
    &&& r.method == method
    &&& r.url@ == url
    &&& pairs_view(r.query@) == query_of(ps)
    &&& pairs_view(r.headers@) == headers_of(ps)
    &&& r.body@ == body_of(ps)
}

/// Turns merged parts into the request's query, headers and body.
fn apply_parts(method: Method, url: String, parts: RequestParts) -> (r: PreparedRequest)
    ensures
        request_from(method, url@, parts@, r),
{
    let ghost ps = parts@;
    let mut values = parts.values;
    let mut query: Vec<(String, String)> = Vec::new();
    let mut headers: Vec<(String, String)> = Vec::new();
    let mut multipart: Vec<Data> = Vec::new();
    let mut plain: Body = Body::Empty;
    let n = values.len();
    let mut i: usize = 0;
    proof {
        reveal_strlit("Cookie");
        assert(ps.take(0) =~= Seq::<PartModel>::empty());
        assert(pairs_view(query@) =~= Seq::<(Seq<char>, Seq<char>)>::empty());
        assert(pairs_view(headers@) =~= Seq::<(Seq<char>, Seq<char>)>::empty());
        assert(multipart@.map_values(|d: Data| data_view(d)) =~= Seq::<PartModel>::empty());
    }
    while i < n
        invariant
            n == ps.len(),
            i <= n,
            parts_view(values@) == ps.skip(i as int),
            pairs_view(query@) == query_of(ps.take(i as int)),
            pairs_view(headers@) == headers_of(ps.take(i as int)),
            multipart@.map_values(|d: Data| data_view(d)) == multipart_of(ps.take(i as int)),
            match plain_body_of(ps.take(i as int)) {
                Some(p) => plain@ == BodyModel::Plain(p),
                None => plain is Empty,
            },
        decreases n - i,
    {
        let ghost pre = ps.take(i as int);
        let ghost next = ps.take(i as int + 1);
        proof {
            assert(parts_view(values@).len() == values@.len());
            assert(parts_view(values@)[0] == values@[0]@);
        }
        let ghost before = values@;
        let part = values.remove(0);
        proof {
            assert(ps.skip(i as int)[0] == ps[i as int]);
            assert(part@ == ps[i as int]);
            assert(next.drop_last() =~= pre);
            assert(next.last() == ps[i as int]);
            assert forall|j: int| 0 <= j < values@.len() implies parts_view(values@)[j] == ps.skip(
                i as int + 1,
            )[j] by {
                assert(values@[j] == before[j + 1]);
                assert(parts_view(before)[j + 1] == ps.skip(i as int)[j + 1]);
            }
            assert(parts_view(values@) =~= ps.skip(i as int + 1));
        }
        match part {
            RequestPart::Query(k, v) => {
                query.push((k, v));
                proof {
                    assert(pairs_view(query@) =~= query_of(next));
                    assert(pairs_view(headers@) =~= headers_of(next));
                    assert(multipart@.map_values(|d: Data| data_view(d)) =~= multipart_of(next));
                }
            },
            RequestPart::Header(k, v) => {
                headers.push((k, v));
                proof {
                    assert(pairs_view(headers@) =~= headers_of(next));
                    assert(multipart@.map_values(|d: Data| data_view(d)) =~= multipart_of(next));
                }
            },
            RequestPart::Cookie(c) => {
                headers.push((String::from_str("Cookie"), c));
                proof {
                    assert(pairs_view(headers@) =~= headers_of(next));
                    assert(multipart@.map_values(|d: Data| data_view(d)) =~= multipart_of(next));
                }
            },
            RequestPart::Data(Data::Form(m)) => {
                plain = Body::Form(m);
                proof {
                    assert(multipart@.map_values(|d: Data| data_view(d)) =~= multipart_of(next));
                }
            },
            RequestPart::Data(Data::Json(v)) => {
                plain = Body::Json(v);
                proof {
                    assert(multipart@.map_values(|d: Data| data_view(d)) =~= multipart_of(next));
                }
            },
            RequestPart::Data(d) => {
                let ghost dv = data_view(d);
                multipart.push(d);
                proof {
                    assert(multipart@.map_values(|d: Data| data_view(d)) =~= multipart_of(pre).push(dv));
                    assert(multipart@.map_values(|d: Data| data_view(d)) =~= multipart_of(next));
                }
            },
        }
        i = i + 1;
    }
    proof {
        assert(ps.take(n as int) =~= ps);
    }
    let body = if multipart.len() > 0 {
        Body::Multipart(multipart)
    } else {
        plain
    };
    PreparedRequest { method, url, query, headers, body }
}

/// The parts before merging: the CSRF parts, then the payload's own
/// contribution; `None` when a JSON body no longer parses after `FUZZ`
/// substitution, or an upload comes without a file part.
pub open spec fn parts_before_merge(
    data: Option<Data>,
    parts: Seq<PartModel>,
    payload: Payload,
    file: Option<RequestPart>,
) -> Option<Seq<PartModel>> {
    match payload {
        Payload::Line(line) => match data {
            Some(Data::Form(m)) => Some(parts.push(PartModel::Form(fuzzed_fields(m@, line@)))),
            Some(Data::PartText(m)) => Some(parts.push(PartModel::PartText(fuzzed_fields(m@, line@)))),
            Some(Data::Json(v)) => match json_parse(fuzzed_text(json_text(v), line@)) {
                Some(w) => Some(parts.push(PartModel::Json(json_tree(w)))),
                None => None,
            },
            _ => Some(parts),
        },
        Payload::Upload(..) => match file {
            Some(f) => if f@ is File {
                Some(parts.push(f@))
            } else {
                None
            },
            None => None,
        },
    }
}

/// The URL for a payload: `FUZZ` replaced by a line; an upload leaves it.
pub open spec fn url_for(url: Seq<char>, payload: Payload) -> Seq<char> {
    match payload {
        Payload::Line(line) => replace_all(url, fuzz_word(), line@),
        Payload::Upload(..) => url,
    }
}

/// Composes the target request for one payload from the CSRF parts. A line
/// replaces `FUZZ` in the URL and adds the fuzzed configured body; an upload
/// adds `file`, the part made from the file. The parts are then merged and
/// laid out as query, headers and body. Fails on an unknown method, when the
/// fuzzed JSON body does not parse, or when an upload has no file part.
pub fn target_request(
    target: &Target,
    request_parts: RequestParts,
    payload: &Payload,
    file: Option<RequestPart>,
) -> (r: Result<PreparedRequest, KillerError>)
    ensures
        match r {
            Ok(req) => method_of(target.method@) matches Some(m) && parts_before_merge(
                target.data,
                request_parts@,
                *payload,
                file,
            ) matches Some(ps) && request_from(m, url_for(target.url@, *payload), joined(ps), req),
            Err(_) => method_of(target.method@) is None || parts_before_merge(
                target.data,
                request_parts@,
                *payload,
                file,
            ) is None,
        },
{
    proof {
        reveal_strlit("FUZZ");
    }
    let method = match parse_method(target.method.as_str()) {
        Some(m) => m,
        None => {
            return Err(KillerError::new("Invalid method"));
        },
    };
    let mut request_parts = request_parts;
    let url = match payload {
        Payload::Line(line) => {
            match request_parts.add_fuzz_data(target.data.as_ref(), line.as_str()) {
                Ok(()) => {},
                Err(e) => {
                    return Err(e);
                },
            }
            replace_str(target.url.as_str(), FUZZ, line.as_str())
        },
        Payload::Upload(..) => {
            match file {
                Some(RequestPart::Data(Data::File(field, name, mime, bytes))) => {
                    request_parts.add(RequestPart::Data(Data::File(field, name, mime, bytes)));
                },
                _ => {
                    return Err(KillerError::new("An upload needs the part of its file"));
                },
            }
            target.url.clone()
        },
    };
    request_parts.join_parts();
    Ok(apply_parts(method, url, request_parts))
}

} // verus!
