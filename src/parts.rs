//! Request parts: the typed fragments that make up an outgoing request, and
//! the rules that merge them.
use vstd::prelude::*;
use crate::error::KillerError;
use crate::form::{fuzz_word, FormMap, FUZZ};
use crate::json::{json_merge, json_parse, json_text, json_tree, merge_json, parse_json,
    to_json_text, JsonTree};
use crate::text::{replace_all, replace_str};

verus! {

/// A request body, or one piece of it.
pub enum Data {
    Form(FormMap),
    Json(serde_json::Value),
    PartText(FormMap),
    /// Field name, file name, MIME type and contents of an uploaded file.
    File(String, String, String, Vec<u8>),
}

pub enum RequestPart {
    Header(String, String),
    Cookie(String),
    Query(String, String),
    Data(Data),
}

/// What a request part contributes, as plain values.
pub enum PartModel {
    Header(Seq<char>, Seq<char>),
    Cookie(Seq<char>),
    Query(Seq<char>, Seq<char>),
    Form(Map<Seq<char>, Seq<char>>),
    Json(JsonTree),
    PartText(Map<Seq<char>, Seq<char>>),
    File(Seq<char>, Seq<char>, Seq<char>, Seq<u8>),
}

impl View for RequestPart {
    type V = PartModel;

    open spec fn view(&self) -> PartModel {
        match self {
            RequestPart::Header(k, v) => PartModel::Header(k@, v@),
            RequestPart::Cookie(c) => PartModel::Cookie(c@),
            RequestPart::Query(k, v) => PartModel::Query(k@, v@),
            RequestPart::Data(Data::Form(m)) => PartModel::Form(m@),
            RequestPart::Data(Data::Json(j)) => PartModel::Json(json_tree(*j)),
            RequestPart::Data(Data::PartText(m)) => PartModel::PartText(m@),
            RequestPart::Data(Data::File(f, n, m, b)) => PartModel::File(f@, n@, m@, b@),
        }
    }
}

/// The outer variant of a part: headers 0, cookies 1, query parameters 2,
/// and 3 for a body of any sort.
pub open spec fn variant_of(p: PartModel) -> int {
    match p {
        PartModel::Header(..) => 0,
        PartModel::Cookie(..) => 1,
        PartModel::Query(..) => 2,
        _ => 3,
    }
}

/// Parts that are merged with an earlier part of their variant: cookies,
/// URL-encoded forms and JSON bodies.
pub open spec fn mergeable(p: PartModel) -> bool {
    p is Cookie || p is Form || p is Json
}

/// `"a; b"`.
pub open spec fn cookie_join(a: Seq<char>, b: Seq<char>) -> Seq<char> {
    a + seq![';', ' '] + b
}

/// The base part `a` (added later) joined with an earlier part `b`: forms by
/// union, where the base wins on a shared key; JSON bodies by deep merge of
/// the base into `b`, so the base wins on a conflict; cookies as `"a; b"`;
/// any other pair keeps `a`.
pub open spec fn join_model(a: PartModel, b: PartModel) -> PartModel {
    match (a, b) {
        (PartModel::Form(ma), PartModel::Form(mb)) => PartModel::Form(mb.union_prefer_right(ma)),
        (PartModel::Json(ja), PartModel::Json(jb)) => PartModel::Json(json_merge(jb, ja)),
        (PartModel::Cookie(ca), PartModel::Cookie(cb)) => PartModel::Cookie(cookie_join(ca, cb)),
        _ => a,
    }
}

/// Index of the first part of `acc` whose outer variant is `v`, or `acc.len()`.
pub open spec fn first_of_variant(acc: Seq<PartModel>, v: int) -> int
    decreases acc.len(),
{
    if acc.len() == 0 {
        0
    } else if variant_of(acc[0]) == v {
        0
    } else {
        1 + first_of_variant(acc.drop_first(), v)
    }
}

/// One step of the merge: `p` is appended, or, when it is mergeable and
/// `acc` holds a part of its outer variant, that part is taken out and its
/// join with `p` appended.
pub open spec fn join_step(acc: Seq<PartModel>, p: PartModel) -> Seq<PartModel> {
    let i = first_of_variant(acc, variant_of(p));
    if mergeable(p) && i < acc.len() {
        acc.remove(i).push(join_model(acc[i], p))
    } else {
        acc.push(p)
    }
}

/// The parts after merging: drained from the last one to the first, so that
/// the last part of a mergeable kind becomes the base that earlier ones join.
pub open spec fn joined(s: Seq<PartModel>) -> Seq<PartModel>
    decreases s.len(),
{
    if s.len() == 0 {
        Seq::empty()
    } else {
        join_step(joined(s.drop_first()), s[0])
    }
}

/// Every value of `m` with each `FUZZ` replaced by `line`.
pub open spec fn fuzzed_fields(m: Map<Seq<char>, Seq<char>>, line: Seq<char>) -> Map<Seq<char>, Seq<char>> {
    Map::new(|k: Seq<char>| m.contains_key(k), |k: Seq<char>| replace_all(m[k], fuzz_word(), line))
}

/// `s` with each `FUZZ` replaced by `line`.
pub open spec fn fuzzed_text(s: Seq<char>, line: Seq<char>) -> Seq<char> {
    replace_all(s, fuzz_word(), line)
}

pub open spec fn parts_view(v: Seq<RequestPart>) -> Seq<PartModel> {
    v.map_values(|p: RequestPart| p@)
}

pub struct RequestParts {
    pub values: Vec<RequestPart>,
}

impl View for RequestParts {
    type V = Seq<PartModel>;

    open spec fn view(&self) -> Seq<PartModel> {
        parts_view(self.values@)
    }
}

impl RequestPart {
    /// The outer variant, as `variant_of` numbers it.
    pub fn variant(&self) -> (r: u8)
        ensures
            r as int == variant_of(self@),
    {
        match self {
            RequestPart::Header(..) => 0,
            RequestPart::Cookie(..) => 1,
            RequestPart::Query(..) => 2,
            RequestPart::Data(..) => 3,
        }
    }

    pub fn is_mergeable(&self) -> (r: bool)
        ensures
            r == mergeable(self@),
    {
        match self {
            RequestPart::Cookie(..) => true,
            RequestPart::Data(Data::Form(..)) => true,
            RequestPart::Data(Data::Json(..)) => true,
            _ => false,
        }
    }
}

/// Position of the first part whose outer variant is `v`, or the length.
fn position_of_variant(values: &Vec<RequestPart>, v: u8) -> (r: usize)
    ensures
        r as int == first_of_variant(parts_view(values@), v as int),
{
    let mut i: usize = 0;
    let ghost s = parts_view(values@);
    assert(s.skip(0) =~= s);
    while i < values.len()
        invariant
            i <= values@.len(),
            s == parts_view(values@),
            forall|j: int| 0 <= j < i ==> variant_of(s[j]) != v as int,
            first_of_variant(s, v as int) == i + first_of_variant(s.skip(i as int), v as int),
        decreases values@.len() - i,
    {
        if values[i].variant() == v {
            proof {
                assert(s.skip(i as int)[0] == s[i as int]);
            }
            return i;
        }
        proof {
            assert(s.skip(i as int).drop_first() =~= s.skip(i as int + 1));
        }
        i = i + 1;
    }
    proof {
        assert(s.skip(i as int).len() == 0);
    }
    i
}

impl Default for RequestParts {
    fn default() -> (r: RequestParts)
        ensures
            r@ == Seq::<PartModel>::empty(),
    {
        RequestParts::new()
    }
}

impl RequestParts {
    pub fn new() -> (r: RequestParts)
        ensures
            r@ == Seq::<PartModel>::empty(),
    {
        let r = RequestParts { values: Vec::new() };
        assert(r@ =~= Seq::<PartModel>::empty());
        r
    }

    pub fn add(&mut self, token: RequestPart)
        ensures
            final(self)@ == old(self)@.push(token@),
    {
        self.values.push(token);
        assert(final(self)@ =~= old(self)@.push(token@));
    }

    pub fn extend(&mut self, rp: RequestParts)
        ensures
            final(self)@ == old(self)@ + rp@,
    {
        let mut other = rp.values;
        let ghost start = self@;
        let ghost all = other@;
        self.values.append(&mut other);
        assert(self@ =~= start + parts_view(all));
    }

    /// Appends a copy of the configured body `data` with `FUZZ` replaced by
    /// `line`: in every value of a form or multipart text body, and in the
    /// compact JSON text of a JSON body, which is then read back. Nothing is
    /// appended for a file or no body; a JSON body whose substituted text is
    /// no JSON is an error.
    pub fn add_fuzz_data(&mut self, data: Option<&Data>, line: &str) -> (r: Result<(), KillerError>)
        ensures
            match data {
                Some(Data::Form(m)) => r is Ok && final(self)@ == old(self)@.push(
                    PartModel::Form(fuzzed_fields(m@, line@)),
                ),
                Some(Data::PartText(m)) => r is Ok && final(self)@ == old(self)@.push(
                    PartModel::PartText(fuzzed_fields(m@, line@)),
                ),
                Some(Data::Json(v)) => match json_parse(fuzzed_text(json_text(*v), line@)) {
                    Some(w) => r is Ok && final(self)@ == old(self)@.push(PartModel::Json(json_tree(w))),
                    None => r is Err && final(self)@ == old(self)@,
                },
                _ => r is Ok && final(self)@ == old(self)@,
            },
    {
        proof {
            reveal_strlit("FUZZ");
        }
        match data {
            Some(Data::Form(form_data)) => {
                let fuzzed = form_data.replace_fuzz(line);
                proof {
                    assert(fuzzed@ =~= fuzzed_fields(form_data@, line@));
                }
                self.add(RequestPart::Data(Data::Form(fuzzed)));
                Ok(())
            },
            Some(Data::Json(json_data)) => {
                let text = to_json_text(json_data);
                let replaced = replace_str(text.as_str(), FUZZ, line);
                match parse_json(replaced.as_str()) {
                    Ok(value) => {
                        self.add(RequestPart::Data(Data::Json(value)));
                        Ok(())
                    },
                    Err(_) => Err(KillerError::new("The payload makes the JSON body invalid")),
                }
            },
            Some(Data::PartText(text_data)) => {
                let fuzzed = text_data.replace_fuzz(line);
                proof {
                    assert(fuzzed@ =~= fuzzed_fields(text_data@, line@));
                }
                self.add(RequestPart::Data(Data::PartText(fuzzed)));
                Ok(())
            },
            _ => Ok(()),
        }
    }

    /// `a` and `b` joined as `join_model` says.
    pub fn join_part(a: RequestPart, b: RequestPart) -> (r: RequestPart)
        ensures
            r@ == join_model(a@, b@),
    {
        match (a, b) {
            (RequestPart::Data(Data::Form(mut form_a)), RequestPart::Data(Data::Form(form_b))) => {
                form_a.merge_under(form_b);
                RequestPart::Data(Data::Form(form_a))
            },
            (RequestPart::Data(Data::Json(json_a)), RequestPart::Data(Data::Json(mut json_b))) => {
                merge_json(&mut json_b, json_a);
                RequestPart::Data(Data::Json(json_b))
            },
            (RequestPart::Cookie(cookie_a), RequestPart::Cookie(cookie_b)) => {
                proof {
                    reveal_strlit("; ");
                }
                let c = cookie_a.concat("; ").concat(cookie_b.as_str());
                proof {
                    assert(c@ =~= cookie_join(cookie_a@, cookie_b@));
                }
                RequestPart::Cookie(c)
            },
            (a, _) => a,
        }
    }

    /// Merges the parts as `joined` describes.
    pub fn join_parts(&mut self)
        ensures
            final(self)@ == joined(old(self)@),
    {
        let ghost s = self@;
        let mut new_values: Vec<RequestPart> = Vec::new();
        proof {
            assert(s.skip(s.len() as int) =~= Seq::<PartModel>::empty());
            assert(parts_view(new_values@) =~= Seq::<PartModel>::empty());
        }
        while self.values.len() > 0
            invariant
                s.len() >= self.values@.len(),
                parts_view(self.values@) == s.take(self.values@.len() as int),
                parts_view(new_values@) == joined(s.skip(self.values@.len() as int)),
            decreases self.values@.len(),
        {
            let ghost k = self.values@.len() as int;
            let ghost acc = parts_view(new_values@);
            let part = self.values.pop().unwrap();
            proof {
                assert(s.take(k)[k - 1] == s[k - 1]);
                assert(part@ == s[k - 1]);
                assert(s.skip(k - 1).drop_first() =~= s.skip(k));
                assert(s.skip(k - 1)[0] == s[k - 1]);
                assert(parts_view(self.values@) =~= s.take(k - 1));
            }
            if !part.is_mergeable() {
                new_values.push(part);
                proof {
                    assert(parts_view(new_values@) =~= acc.push(part@));
                }
            } else {
                let pos = position_of_variant(&new_values, part.variant());
                if pos < new_values.len() {
                    let base = new_values.remove(pos);
                    proof {
                        assert(base@ == acc[pos as int]);
                        assert(parts_view(new_values@) =~= acc.remove(pos as int));
                    }
                    let joined_part = RequestParts::join_part(base, part);
                    new_values.push(joined_part);
                    proof {
                        assert(parts_view(new_values@) =~= acc.remove(pos as int).push(
                            join_model(acc[pos as int], s[k - 1]),
                        ));
                    }
                } else {
                    new_values.push(part);
                    proof {
                        assert(parts_view(new_values@) =~= acc.push(part@));
                    }
                }
            }
        }
        proof {
            assert(s.skip(0) =~= s);
        }
        self.values = new_values;
    }
}

} // verus!
