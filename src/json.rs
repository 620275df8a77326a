//! JSON bodies: values of `serde_json`, their shape as the merge rules read it,
//! and the deep merge of two values.
use vstd::prelude::*;
use crate::assoc::{keys_distinct, last_with_key, lemma_map_of_dom, lemma_map_of_finite,
    lemma_map_of_update, map_of};
use crate::text::str_eq;

verus! {

#[verifier::external_type_specification]
#[verifier::external_body]
pub struct ExJsonValue(serde_json::Value);

#[verifier::external_type_specification]
#[verifier::external_body]
pub struct ExJsonError(serde_json::Error);

/// A JSON value as the merge rules see it: an object with its members, or any
/// other value, taken whole.
pub enum JsonTree {
    Object(Map<Seq<char>, JsonTree>),
    Leaf(serde_json::Value),
}

/// The members of a JSON object value, or the value itself when it is no object.
pub uninterp spec fn json_tree(v: serde_json::Value) -> JsonTree;

/// The JSON string that holds the given text.
pub uninterp spec fn json_string(s: Seq<char>) -> serde_json::Value;

/// The compact serialisation of a JSON value.
pub uninterp spec fn json_text(v: serde_json::Value) -> Seq<char>;

/// The value that JSON text denotes, when it is well-formed.
pub uninterp spec fn json_parse(s: Seq<char>) -> Option<serde_json::Value>;

/// The object members that a list of `(key, value)` pairs makes; a later pair wins.
pub open spec fn members_of(es: Seq<(String, serde_json::Value)>) -> Map<Seq<char>, JsonTree> {
    map_of(es.map_values(|e: (String, serde_json::Value)| (e.0@, json_tree(e.1))))
}

pub open spec fn member_keys(es: Seq<(String, serde_json::Value)>) -> Seq<(Seq<char>, JsonTree)> {
    es.map_values(|e: (String, serde_json::Value)| (e.0@, json_tree(e.1)))
}

/// Relies on matching `serde_json::Value::Object`: an object hands out its
/// members (the map holds each key once); any other value comes back unchanged.
#[verifier::external_body]
fn take_members(v: serde_json::Value) -> (r: Result<Vec<(String, serde_json::Value)>, serde_json::Value>)
    ensures
        match r {
            Ok(es) => keys_distinct(member_keys(es@)) && json_tree(v) == JsonTree::Object(
                members_of(es@),
            ),
            Err(w) => w == v && json_tree(v) == JsonTree::Leaf(v),
        },
{
    match v {
        serde_json::Value::Object(m) => Ok(m.into_iter().collect()),
        other => Err(other),
    }
}

/// Relies on collecting pairs with distinct keys into `serde_json::Map` and
/// wrapping it in `serde_json::Value::Object`.
#[verifier::external_body]
pub(crate) fn object_of(es: Vec<(String, serde_json::Value)>) -> (r: serde_json::Value)
    requires
        keys_distinct(member_keys(es@)),
    ensures
        json_tree(r) == JsonTree::Object(members_of(es@)),
{
    serde_json::Value::Object(es.into_iter().collect())
}

/// Relies on `serde_json::Value::String`: a string is no object.
#[verifier::external_body]
pub(crate) fn string_value(s: String) -> (r: serde_json::Value)
    ensures
        r == json_string(s@),
        json_tree(r) == JsonTree::Leaf(r),
{
    serde_json::Value::String(s)
}

/// Relies on `serde_json::Value::Null`, used as a placeholder.
#[verifier::external_body]
fn null_value() -> (r: serde_json::Value) {
    serde_json::Value::Null
}

/// Relies on the `Display` impl of `serde_json::Value` (compact form).
#[verifier::external_body]
pub(crate) fn to_json_text(v: &serde_json::Value) -> (r: String)
    ensures
        r@ == json_text(*v),
{
    v.to_string()
}

/// Relies on `serde_json::from_str` into a `serde_json::Value`.
#[verifier::external_body]
pub(crate) fn parse_json(s: &str) -> (r: Result<serde_json::Value, serde_json::Error>)
    ensures
        match r {
            Ok(v) => json_parse(s@) == Some(v),
            Err(_) => json_parse(s@) is None,
        },
{
    serde_json::from_str(s)
}

/// Relies on the `Display` impl of `serde_json::Error`: a message for people.
#[verifier::external_body]
pub(crate) fn json_error_text(e: &serde_json::Error) -> (r: String) {
    e.to_string()
}

/// Deep merge: two objects merge member by member (keys of either side, a
/// key on both sides merged again); otherwise `b` replaces `a`.
pub open spec fn json_merge(a: JsonTree, b: JsonTree) -> JsonTree
    decreases b,
{
    match b {
        JsonTree::Object(mb) => match a {
            JsonTree::Object(ma) => JsonTree::Object(
                Map::new(
                    |k: Seq<char>| ma.contains_key(k) || mb.contains_key(k),
                    |k: Seq<char>|
                        if mb.contains_key(k) {
                            if ma.contains_key(k) {
                                json_merge(ma[k], mb[k])
                            } else {
                                mb[k]
                            }
                        } else {
                            ma[k]
                        },
                ),
            ),
            JsonTree::Leaf(_) => b,
        },
        JsonTree::Leaf(_) => b,
    }
}

/// Members of two objects merged as `json_merge` merges them.
pub open spec fn merge_members(ma: Map<Seq<char>, JsonTree>, mb: Map<Seq<char>, JsonTree>) -> Map<Seq<char>, JsonTree> {
    Map::new(
        |k: Seq<char>| ma.contains_key(k) || mb.contains_key(k),
        |k: Seq<char>|
            if mb.contains_key(k) {
                if ma.contains_key(k) {
                    json_merge(ma[k], mb[k])
                } else {
                    mb[k]
                }
            } else {
                ma[k]
            },
    )
}

/// Position of the member named `key`.
fn find_member(es: &Vec<(String, serde_json::Value)>, key: &str) -> (r: Option<usize>)
    ensures
        match r {
            Some(i) => i < es@.len() && es@[i as int].0@ == key@,
            None => forall|j: int| 0 <= j < es@.len() ==> es@[j].0@ != key@,
        },
{
    let mut i: usize = 0;
    while i < es.len()
        invariant
            i <= es@.len(),
            forall|j: int| 0 <= j < i ==> es@[j].0@ != key@,
        decreases es@.len() - i,
    {
        if str_eq(es[i].0.as_str(), key) {
            return Some(i);
        }
        i = i + 1;
    }
    None
}

proof fn lemma_member_in_map(es: Seq<(String, serde_json::Value)>, i: int)
    requires
        keys_distinct(member_keys(es)),
        0 <= i < es.len(),
    ensures
        members_of(es).contains_key(es[i].0@),
        members_of(es)[es[i].0@] == json_tree(es[i].1),
{
    let s = member_keys(es);
    assert(last_with_key(s, i));
    crate::assoc::lemma_map_of_index(s, i);
}

/// `a` and `b` merged deeply.
fn merged(a: serde_json::Value, b: serde_json::Value) -> (r: serde_json::Value)
    ensures
        json_tree(r) == json_merge(json_tree(a), json_tree(b)),
        json_tree(a) is Leaf || json_tree(b) is Leaf ==> r == b,
    decreases json_tree(b),
{
    let ghost tb = json_tree(b);
    let ghost ta = json_tree(a);
    match take_members(a) {
        Err(_) => b,
        Ok(a_members) => {
            match take_members(b) {
                Err(leaf) => leaf,
                Ok(b_members) => {
                    let ghost b_all = b_members@;
                    let ghost mb = members_of(b_all);
                    let ghost ma = members_of(a_members@);
                    let mut a_members = a_members;
                    let mut b_members = b_members;
                    let n = b_members.len();
                    let mut done: usize = 0;
                    proof {
                        assert(member_keys(b_all.take(0)) =~= Seq::<(Seq<char>, JsonTree)>::empty());
                        assert(merge_members(ma, members_of(b_all.take(0))) =~= ma);
                        lemma_map_of_finite(member_keys(b_all));
                    }
                    while done < n
                        invariant
                            n == b_all.len(),
                            done <= n,
                            b_members@ == b_all.skip(done as int),
                            keys_distinct(member_keys(b_all)),
                            keys_distinct(member_keys(a_members@)),
                            members_of(a_members@) == merge_members(ma, members_of(b_all.take(done as int))),
                            mb == members_of(b_all),
                            mb.dom().finite(),
                            tb == JsonTree::Object(mb),
                            tb == json_tree(b),
                        decreases n - done,
                    {
                        let ghost pre = b_all.take(done as int);
                        let ghost p = members_of(pre);
                        let ghost cur = a_members@;
                        let (k, v) = b_members.remove(0);
                        proof {
                            assert(b_all[done as int] == (k, v));
                            lemma_member_in_map(b_all, done as int);
                            assert(decreases_to!(mb => mb[k@]));
                            assert(tb->Object_0 == mb);
                            assert(decreases_to!(tb => tb->Object_0));
                            assert(decreases_to!(tb => json_tree(v)));
                            assert(member_keys(b_all.take(done as int + 1)) =~= member_keys(pre).push((k@, json_tree(v))));
                            assert(!p.contains_key(k@)) by {
                                lemma_map_of_dom(member_keys(pre), k@);
                                if p.contains_key(k@) {
                                    let j = choose|j: int| 0 <= j < member_keys(pre).len() && member_keys(pre)[j].0 == k@;
                                    assert(member_keys(b_all)[j].0 == member_keys(b_all)[done as int].0);
                                }
                            }
                        }
                        let ghost p_next = members_of(b_all.take(done as int + 1));
                        proof {
                            assert(member_keys(pre).push((k@, json_tree(v))).drop_last() =~= member_keys(pre));
                            assert(p_next == p.insert(k@, json_tree(v)));
                        }
                        match find_member(&a_members, k.as_str()) {
                            Some(i) => {
                                proof {
                                    lemma_member_in_map(cur, i as int);
                                }
                                let mut slot = (k, null_value());
                                a_members.set_and_swap(i, &mut slot);
                                let (key, old_value) = slot;
                                proof {
                                    assert(key@ == k@);
                                    assert(json_tree(old_value) == members_of(cur)[k@]);
                                    assert(ma.contains_key(k@));
                                    assert(json_tree(old_value) == ma[k@]);
                                }
                                let m = merged(old_value, v);
                                a_members.set(i, (key, m));
                                proof {
                                    let ck = member_keys(cur);
                                    assert(member_keys(a_members@) =~= ck.update(i as int, (ck[i as int].0, json_tree(m))));
                                    assert(last_with_key(ck, i as int));
                                    lemma_map_of_update(ck, i as int, json_tree(m));
                                    assert(ck[i as int].0 == k@);
                                    assert(members_of(a_members@) == members_of(cur).insert(k@, json_tree(m)));
                                    assert(p_next == p.insert(k@, json_tree(v)));
                                    assert(json_tree(m) == json_merge(ma[k@], p_next[k@]));
                                    assert(members_of(a_members@) =~= merge_members(ma, p_next));
                                }
                            },
                            None => {
                                proof {
                                    lemma_map_of_dom(member_keys(cur), k@);
                                }
                                let ghost kv = k@;
                                a_members.push((k, v));
                                proof {
                                    assert(member_keys(a_members@) =~= member_keys(cur).push((kv, json_tree(v))));
                                    assert(member_keys(a_members@).drop_last() =~= member_keys(cur));
                                    assert(members_of(a_members@) =~= merge_members(ma, p_next));
                                }
                            },
                        }
                        proof {
                            assert(b_members@ =~= b_all.skip(done as int + 1));
                        }
                        done = done + 1;
                    }
                    proof {
                        assert(b_all.take(n as int) =~= b_all);
                        assert(merge_members(ma, mb) =~= json_merge(ta, tb)->Object_0);
                    }
                    object_of(a_members)
                },
            }
        },
    }
}

/// Deep merge of `b` into `a`: where both are objects, each member of `b` is
/// merged into the member of `a` with its key, or added; otherwise `b`
/// replaces `a`.
pub fn merge_json(a: &mut serde_json::Value, b: serde_json::Value)
    ensures
        json_tree(*final(a)) == json_merge(json_tree(*old(a)), json_tree(b)),
        json_tree(*old(a)) is Leaf || json_tree(b) is Leaf ==> *final(a) == b,
        b == *old(a) ==> json_tree(*final(a)) == json_tree(*old(a)),
{
    proof {
        crate::laws::law_json_merge_self(json_tree(*a));
    }
    let mut base = null_value();
    std::mem::swap(a, &mut base);
    let m = merged(base, b);
    *a = m;
}

} // verus!
