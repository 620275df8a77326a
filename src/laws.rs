//! Properties that relate the parts of the library, proved over its models.
use vstd::prelude::*;
use crate::form::fuzz_word;
use crate::json::{json_merge, JsonTree};
use crate::parts::{cookie_join, first_of_variant, fuzzed_fields, join_model, join_step, joined,
    mergeable, variant_of, PartModel};
use crate::request::{body_of, multipart_of, plain_body_of, BodyModel};
use crate::text::replace_all;

verus! {

proof fn lemma_replace_skip(s: Seq<char>, pat: Seq<char>, w: Seq<char>, j: int)
    requires
        pat.len() > 0,
        0 <= j <= s.len(),
        forall|i: int| 0 <= i < j ==> !(i + pat.len() <= s.len() && #[trigger] s.subrange(i, i + pat.len()) == pat),
    ensures
        replace_all(s, pat, w) == s.subrange(0, j) + replace_all(s.subrange(j, s.len() as int), pat, w),
    decreases j,
{
    if j == 0 {
        assert(s.subrange(0, 0) + s.subrange(0, s.len() as int) =~= s);
        assert(s.subrange(0, s.len() as int) =~= s);
    } else {
        let t = s.subrange(1, s.len() as int);
        assert forall|i: int| 0 <= i < j - 1 implies !(i + pat.len() <= t.len() && #[trigger] t.subrange(
            i,
            i + pat.len(),
        ) == pat) by {
            if i + pat.len() <= t.len() {
                assert(t.subrange(i, i + pat.len()) =~= s.subrange(i + 1, i + 1 + pat.len()));
            }
        }
        lemma_replace_skip(t, pat, w, j - 1);
        if pat.len() <= s.len() {
            assert(!(0 + pat.len() <= s.len() && s.subrange(0, 0 + pat.len() as int) == pat));
        }
        assert(t.subrange(j - 1, t.len() as int) =~= s.subrange(j, s.len() as int));
        assert(seq![s[0]] + t.subrange(0, j - 1) =~= s.subrange(0, j));
    }
}

/// A configured form value `prefix-FUZZ-suffix` becomes `prefix-` + payload +
/// `-suffix` in the fuzzed copy of the body; every key stays.
pub proof fn law_fuzz_substitution(m: Map<Seq<char>, Seq<char>>, k: Seq<char>, payload: Seq<char>)
    requires
        m.contains_key(k),
        m[k] == "prefix-FUZZ-suffix"@,
    ensures
        fuzzed_fields(m, payload).dom() == m.dom(),
        fuzzed_fields(m, payload)[k] == "prefix-"@ + payload + "-suffix"@,
{
    reveal_strlit("prefix-FUZZ-suffix");
    reveal_strlit("prefix-");
    reveal_strlit("-suffix");
    reveal_strlit("FUZZ");
    let s = "prefix-FUZZ-suffix"@;
    let pat = fuzz_word();
    assert(fuzzed_fields(m, payload).dom() =~= m.dom());
    assert forall|i: int| 0 <= i < 7 implies !(i + pat.len() <= s.len() && #[trigger] s.subrange(i, i + pat.len()) == pat) by {
        assert(s.subrange(i, i + 4)[3] != pat[3] || s.subrange(i, i + 4)[2] != pat[2] || s.subrange(i, i + 4)[0] != pat[0]);
    }
    lemma_replace_skip(s, pat, payload, 7);
    let rest = s.subrange(7, s.len() as int);
    assert(rest.subrange(0, 4) =~= pat);
    let tail = rest.subrange(4, rest.len() as int);
    assert forall|i: int| 0 <= i < 7 implies !(i + pat.len() <= tail.len() && #[trigger] tail.subrange(i, i + pat.len()) == pat) by {
        if i + 4 <= tail.len() {
            assert(tail.subrange(i, i + 4)[0] != pat[0]);
        }
    }
    lemma_replace_skip(tail, pat, payload, 7);
    assert(tail.subrange(7, 7) =~= Seq::<char>::empty());
    assert(tail.subrange(0, 7) =~= tail);
    assert(s.subrange(0, 7) =~= "prefix-"@);
    assert(tail =~= "-suffix"@);
}

proof fn lemma_join_two(first: PartModel, second: PartModel)
    requires
        mergeable(first),
        variant_of(first) == variant_of(second),
    ensures
        joined(seq![first, second]) == seq![join_model(second, first)],
{
    let s = seq![first, second];
    assert(s.drop_first() =~= seq![second]);
    assert(seq![second].drop_first() =~= Seq::<PartModel>::empty());
    let one = joined(seq![second]);
    assert(joined(Seq::<PartModel>::empty()) == Seq::<PartModel>::empty());
    assert(first_of_variant(Seq::<PartModel>::empty(), variant_of(second)) == 0);
    assert(one =~= seq![second]);
    assert(first_of_variant(one, variant_of(first)) == 0);
    assert(one.remove(0).push(join_model(one[0], first)) =~= seq![join_model(second, first)]);
}

/// Merging a form `a` with a form `b` added after it gives one form with the
/// keys of both; on a shared key the later part `b` wins.
pub proof fn law_form_merge(a: Map<Seq<char>, Seq<char>>, b: Map<Seq<char>, Seq<char>>)
    ensures
        joined(seq![PartModel::Form(a), PartModel::Form(b)]) == seq![PartModel::Form(a.union_prefer_right(b))],
        a.union_prefer_right(b).dom() == a.dom().union(b.dom()),
        forall|k: Seq<char>| #[trigger] b.contains_key(k) ==> a.union_prefer_right(b)[k] == b[k],
        forall|k: Seq<char>|
            #[trigger] a.contains_key(k) && !b.contains_key(k) ==> a.union_prefer_right(b)[k] == a[k],
{
    lemma_join_two(PartModel::Form(a), PartModel::Form(b));
    assert(a.union_prefer_right(b).dom() =~= a.dom().union(b.dom()));
}

/// Merging a JSON body `a` with a JSON body `b` added after it gives one
/// body: `b` deep-merged into `a`.
pub proof fn law_json_parts_merge(a: JsonTree, b: JsonTree)
    ensures
        joined(seq![PartModel::Json(a), PartModel::Json(b)]) == seq![PartModel::Json(json_merge(a, b))],
{
    lemma_join_two(PartModel::Json(a), PartModel::Json(b));
}

/// Deep merge of two JSON objects keeps the keys of either side that the
/// other lacks; where a key is on both sides and either value is no object,
/// the value of `b` wins; two objects merge again.
pub proof fn law_json_merge(ma: Map<Seq<char>, JsonTree>, mb: Map<Seq<char>, JsonTree>)
    ensures
        json_merge(JsonTree::Object(ma), JsonTree::Object(mb)) matches JsonTree::Object(m) && m.dom()
            == ma.dom().union(mb.dom()) && (forall|k: Seq<char>|
            #[trigger] ma.contains_key(k) && !mb.contains_key(k) ==> m[k] == ma[k]) && (forall|k: Seq<char>|
            #[trigger] mb.contains_key(k) && !ma.contains_key(k) ==> m[k] == mb[k]) && (forall|k: Seq<char>|
            #[trigger] ma.contains_key(k) && mb.contains_key(k) && (ma[k] is Leaf || mb[k] is Leaf) ==> m[k]
                == mb[k]) && (forall|k: Seq<char>|
            #[trigger] ma.contains_key(k) && mb.contains_key(k) ==> m[k] == json_merge(ma[k], mb[k])),
{
    let m = json_merge(JsonTree::Object(ma), JsonTree::Object(mb))->Object_0;
    assert(m.dom() =~= ma.dom().union(mb.dom()));
    assert forall|k: Seq<char>|
        #[trigger] ma.contains_key(k) && mb.contains_key(k) && (ma[k] is Leaf || mb[k] is Leaf) implies m[k]
            == mb[k] by {
        law_json_merge_leaf(ma[k], mb[k]);
    }
}

/// A value that is no object is replaced whole by the merge.
pub proof fn law_json_merge_leaf(a: JsonTree, b: JsonTree)
    requires
        a is Leaf || b is Leaf,
    ensures
        json_merge(a, b) == b,
{
}

/// Two cookie parts collapse to one cookie line holding both, the later
/// part first, separated by `"; "`.
pub proof fn law_cookie_merge(first: Seq<char>, second: Seq<char>)
    ensures
        joined(seq![PartModel::Cookie(first), PartModel::Cookie(second)]) == seq![
            PartModel::Cookie(cookie_join(second, first)),
        ],
{
    lemma_join_two(PartModel::Cookie(first), PartModel::Cookie(second));
}

/// The seven kinds of parts: header, cookie, query, form, JSON, multipart
/// text and file.
pub open spec fn kind_of(p: PartModel) -> int {
    match p {
        PartModel::Header(..) => 0,
        PartModel::Cookie(..) => 1,
        PartModel::Query(..) => 2,
        PartModel::Form(..) => 3,
        PartModel::Json(..) => 4,
        PartModel::PartText(..) => 5,
        PartModel::File(..) => 6,
    }
}

/// Number of parts of kind `k`.
pub open spec fn count_kind(s: Seq<PartModel>, k: int) -> nat
    decreases s.len(),
{
    if s.len() == 0 {
        0
    } else {
        count_kind(s.drop_last(), k) + if kind_of(s.last()) == k {
            1nat
        } else {
            0nat
        }
    }
}

proof fn lemma_count_remove(s: Seq<PartModel>, i: int, k: int)
    requires
        0 <= i < s.len(),
    ensures
        count_kind(s, k) == count_kind(s.remove(i), k) + if kind_of(s[i]) == k {
            1nat
        } else {
            0nat
        },
    decreases s.len(),
{
    if i < s.len() - 1 {
        lemma_count_remove(s.drop_last(), i, k);
        assert(s.remove(i).drop_last() =~= s.drop_last().remove(i));
        assert(s.remove(i).last() == s.last());
    } else {
        assert(s.remove(i) =~= s.drop_last());
    }
}

proof fn lemma_count_push(s: Seq<PartModel>, x: PartModel, k: int)
    ensures
        count_kind(s.push(x), k) == count_kind(s, k) + if kind_of(x) == k {
            1nat
        } else {
            0nat
        },
{
    assert(s.push(x).drop_last() =~= s);
}

proof fn lemma_first_of_variant(acc: Seq<PartModel>, v: int)
    ensures
        0 <= first_of_variant(acc, v) <= acc.len(),
        first_of_variant(acc, v) < acc.len() ==> variant_of(acc[first_of_variant(acc, v)]) == v,
        first_of_variant(acc, v) == acc.len() ==> forall|j: int| 0 <= j < acc.len() ==> variant_of(#[trigger] acc[j]) != v,
    decreases acc.len(),
{
    if acc.len() > 0 && variant_of(acc[0]) != v {
        lemma_first_of_variant(acc.drop_first(), v);
        assert forall|j: int| 0 <= j < acc.len() && first_of_variant(acc, v) == acc.len() implies variant_of(
            #[trigger] acc[j],
        ) != v by {
            if j > 0 {
                assert(acc[j] == acc.drop_first()[j - 1]);
            }
        }
    }
}

proof fn lemma_count_zero(s: Seq<PartModel>, k: int)
    requires
        forall|j: int| 0 <= j < s.len() ==> kind_of(#[trigger] s[j]) != k,
    ensures
        count_kind(s, k) == 0,
    decreases s.len(),
{
    if s.len() > 0 {
        lemma_count_zero(s.drop_last(), k);
    }
}

/// At most one cookie part, and at most one form or JSON body part.
pub open spec fn merged_shape(s: Seq<PartModel>) -> bool {
    count_kind(s, 1) <= 1 && count_kind(s, 3) + count_kind(s, 4) <= 1
}

proof fn lemma_join_step(acc: Seq<PartModel>, p: PartModel)
    requires
        merged_shape(acc),
    ensures
        merged_shape(join_step(acc, p)),
        forall|k: int| (k == 0 || k == 2 || k == 5 || k == 6) ==> #[trigger] count_kind(join_step(acc, p), k)
            == count_kind(acc, k) + if kind_of(p) == k {
            1nat
        } else {
            0nat
        },
{
    let i = first_of_variant(acc, variant_of(p));
    lemma_first_of_variant(acc, variant_of(p));
    if mergeable(p) && i < acc.len() {
        let x = join_model(acc[i], p);
        assert(kind_of(x) == kind_of(acc[i]));
        assert forall|k: int| #![trigger count_kind(join_step(acc, p), k)] true implies count_kind(join_step(acc, p), k)
            == count_kind(acc, k) by {
            lemma_count_remove(acc, i, k);
            lemma_count_push(acc.remove(i), x, k);
        }
    } else {
        assert forall|k: int| #![trigger count_kind(join_step(acc, p), k)] true implies count_kind(join_step(acc, p), k)
            == count_kind(acc, k) + if kind_of(p) == k {
            1nat
        } else {
            0nat
        } by {
            lemma_count_push(acc, p, k);
        }
        if mergeable(p) {
            if p is Cookie {
                assert forall|j: int| 0 <= j < acc.len() implies kind_of(#[trigger] acc[j]) != 1 by {
                    assert(variant_of(acc[j]) != 1);
                }
                lemma_count_zero(acc, 1);
            } else {
                assert forall|j: int| 0 <= j < acc.len() implies kind_of(#[trigger] acc[j]) != 3 by {
                    assert(variant_of(acc[j]) != 3);
                }
                assert forall|j: int| 0 <= j < acc.len() implies kind_of(#[trigger] acc[j]) != 4 by {
                    assert(variant_of(acc[j]) != 3);
                }
                lemma_count_zero(acc, 3);
                lemma_count_zero(acc, 4);
            }
        }
    }
}

/// After merging, headers, query parameters, multipart text and file parts
/// are all still there; at most one cookie part and at most one form or
/// JSON body part remain.
pub proof fn law_kind_isolation(s: Seq<PartModel>)
    ensures
        count_kind(joined(s), 0) == count_kind(s, 0),
        count_kind(joined(s), 2) == count_kind(s, 2),
        count_kind(joined(s), 5) == count_kind(s, 5),
        count_kind(joined(s), 6) == count_kind(s, 6),
        count_kind(joined(s), 1) <= 1,
        count_kind(joined(s), 3) + count_kind(joined(s), 4) <= 1,
    decreases s.len(),
{
    if s.len() == 0 {
    } else {
        law_kind_isolation(s.drop_first());
        lemma_join_step(joined(s.drop_first()), s[0]);
        assert forall|k: int| (k == 0 || k == 2 || k == 5 || k == 6) implies #[trigger] count_kind(s, k)
            == count_kind(s.drop_first(), k) + if kind_of(s[0]) == k {
            1nat
        } else {
            0nat
        } by {
            lemma_count_remove(s, 0, k);
            assert(s.remove(0) =~= s.drop_first());
        }
        assert(count_kind(joined(s), 0) == count_kind(s, 0));
        assert(count_kind(joined(s), 2) == count_kind(s, 2));
        assert(count_kind(joined(s), 5) == count_kind(s, 5));
        assert(count_kind(joined(s), 6) == count_kind(s, 6));
    }
}

/// The parts of outer variant `v`, in order.
pub open spec fn of_variant(s: Seq<PartModel>, v: int) -> Seq<PartModel>
    decreases s.len(),
{
    if s.len() == 0 {
        Seq::empty()
    } else {
        let rest = of_variant(s.drop_first(), v);
        if variant_of(s[0]) == v {
            seq![s[0]] + rest
        } else {
            rest
        }
    }
}

proof fn lemma_of_variant_push(s: Seq<PartModel>, x: PartModel, v: int)
    ensures
        of_variant(s.push(x), v) == if variant_of(x) == v {
            of_variant(s, v).push(x)
        } else {
            of_variant(s, v)
        },
    decreases s.len(),
{
    assert(of_variant(Seq::<PartModel>::empty(), v) == Seq::<PartModel>::empty());
    if s.len() == 0 {
        assert(s.push(x).drop_first() =~= Seq::<PartModel>::empty());
        assert(s.push(x)[0] == x);
        assert(seq![x] + Seq::<PartModel>::empty() =~= Seq::<PartModel>::empty().push(x));
        assert(s =~= Seq::<PartModel>::empty());
    } else {
        assert(s.push(x).drop_first() =~= s.drop_first().push(x));
        assert(s.push(x)[0] == s[0]);
        lemma_of_variant_push(s.drop_first(), x, v);
        if variant_of(s[0]) == v {
            assert(seq![s[0]] + of_variant(s.drop_first(), v).push(x) =~= (seq![s[0]] + of_variant(
                s.drop_first(),
                v,
            )).push(x));
        }
    }
}

proof fn lemma_of_variant_remove_other(s: Seq<PartModel>, i: int, v: int)
    requires
        0 <= i < s.len(),
        variant_of(s[i]) != v,
    ensures
        of_variant(s.remove(i), v) == of_variant(s, v),
    decreases s.len(),
{
    if i == 0 {
        assert(s.remove(0) =~= s.drop_first());
    } else {
        assert(s.remove(i).drop_first() =~= s.drop_first().remove(i - 1));
        assert(s.remove(i)[0] == s[0]);
        lemma_of_variant_remove_other(s.drop_first(), i - 1, v);
    }
}

proof fn lemma_of_variant_first(s: Seq<PartModel>, v: int)
    ensures
        first_of_variant(s, v) < s.len() <==> of_variant(s, v).len() > 0,
        first_of_variant(s, v) < s.len() ==> of_variant(s, v)[0] == s[first_of_variant(s, v)]
            && of_variant(s.remove(first_of_variant(s, v)), v) == of_variant(s, v).drop_first(),
    decreases s.len(),
{
    if s.len() > 0 {
        if variant_of(s[0]) == v {
            assert(s.remove(0) =~= s.drop_first());
            assert((seq![s[0]] + of_variant(s.drop_first(), v)).drop_first() =~= of_variant(s.drop_first(), v));
        } else {
            lemma_of_variant_first(s.drop_first(), v);
            lemma_first_of_variant(s.drop_first(), v);
            let j = first_of_variant(s.drop_first(), v);
            if j < s.drop_first().len() {
                assert(s.remove(j + 1).drop_first() =~= s.drop_first().remove(j));
                assert(s.remove(j + 1)[0] == s[0]);
            }
        }
    }
}

proof fn lemma_all_of_variant(s: Seq<PartModel>, v: int)
    ensures
        forall|j: int| 0 <= j < of_variant(s, v).len() ==> variant_of(#[trigger] of_variant(s, v)[j]) == v,
    decreases s.len(),
{
    if s.len() > 0 {
        lemma_all_of_variant(s.drop_first(), v);
        let r = of_variant(s.drop_first(), v);
        if variant_of(s[0]) == v {
            assert forall|j: int| 0 <= j < of_variant(s, v).len() implies variant_of(
                #[trigger] of_variant(s, v)[j],
            ) == v by {
                if j > 0 {
                    assert(of_variant(s, v)[j] == r[j - 1]);
                }
            }
        }
    }
}

proof fn lemma_join_keeps_variant(a: PartModel, b: PartModel)
    ensures
        variant_of(join_model(a, b)) == variant_of(a),
{
}

/// Parts of one outer variant never interact with parts of another: the
/// parts of variant `v` after merging are the merge of the parts of variant
/// `v` alone.
pub proof fn law_variants_merge_apart(s: Seq<PartModel>, v: int)
    ensures
        of_variant(joined(s), v) == joined(of_variant(s, v)),
    decreases s.len(),
{
    if s.len() > 0 {
        let p = s[0];
        let j = joined(s.drop_first());
        law_variants_merge_apart(s.drop_first(), v);
        let i = first_of_variant(j, variant_of(p));
        lemma_first_of_variant(j, variant_of(p));
        if variant_of(p) != v {
            if mergeable(p) && i < j.len() {
                lemma_of_variant_remove_other(j, i, v);
                lemma_join_keeps_variant(j[i], p);
                lemma_of_variant_push(j.remove(i), join_model(j[i], p), v);
            } else {
                lemma_of_variant_push(j, p, v);
            }
        } else {
            let sv = of_variant(s.drop_first(), v);
            assert(of_variant(s, v) == seq![p] + sv);
            assert((seq![p] + sv).drop_first() =~= sv);
            assert((seq![p] + sv)[0] == p);
            let jv = of_variant(j, v);
            lemma_of_variant_first(j, v);
            lemma_all_of_variant(j, v);
            if jv.len() > 0 {
                assert(variant_of(jv[0]) == v);
                assert(first_of_variant(jv, v) == 0);
            } else {
                assert(first_of_variant(jv, v) == 0);
            }
            if mergeable(p) && i < j.len() {
                lemma_join_keeps_variant(j[i], p);
                lemma_of_variant_push(j.remove(i), join_model(j[i], p), v);
                assert(jv.remove(0) =~= jv.drop_first());
            } else {
                lemma_of_variant_push(j, p, v);
            }
        }
    }
}

/// The cookie lines of `cs` chained later first: `c_n; ...; c_1`.
pub open spec fn cookie_chain(cs: Seq<Seq<char>>) -> Seq<char>
    decreases cs.len(),
{
    if cs.len() <= 1 {
        if cs.len() == 0 {
            Seq::empty()
        } else {
            cs[0]
        }
    } else {
        cookie_join(cookie_chain(cs.drop_first()), cs[0])
    }
}

pub open spec fn cookie_lines(s: Seq<PartModel>) -> Seq<Seq<char>> {
    s.map_values(|p: PartModel| p->Cookie_0)
}

proof fn lemma_cookies_chain(s: Seq<PartModel>)
    requires
        s.len() >= 1,
        forall|j: int| 0 <= j < s.len() ==> #[trigger] s[j] is Cookie,
    ensures
        joined(s) == seq![PartModel::Cookie(cookie_chain(cookie_lines(s)))],
    decreases s.len(),
{
    let cs = cookie_lines(s);
    assert(joined(Seq::<PartModel>::empty()) == Seq::<PartModel>::empty());
    assert(cs[0] == s[0]->Cookie_0);
    assert(s[0] == PartModel::Cookie(cs[0]));
    if s.len() == 1 {
        assert(s.drop_first() =~= Seq::<PartModel>::empty());
        assert(first_of_variant(Seq::<PartModel>::empty(), 1) == 0);
        assert(s =~= seq![PartModel::Cookie(cs[0])]);
        assert(Seq::<PartModel>::empty().push(s[0]) =~= seq![s[0]]);
    } else {
        lemma_cookies_chain(s.drop_first());
        assert(cookie_lines(s.drop_first()) =~= cs.drop_first());
        let j = seq![PartModel::Cookie(cookie_chain(cs.drop_first()))];
        assert(first_of_variant(j, 1) == 0);
        assert(j.remove(0).push(join_model(j[0], s[0])) =~= seq![
            PartModel::Cookie(cookie_chain(cs)),
        ]);
    }
}

/// Whatever other parts stand around them, two forms `a` then `b` and no
/// other body part leave one form with the keys of both, where `b`, the
/// later one, wins on a shared key.
pub proof fn law_forms_merge_among_parts(s: Seq<PartModel>, a: Map<Seq<char>, Seq<char>>, b: Map<Seq<char>, Seq<char>>)
    requires
        of_variant(s, 3) == seq![PartModel::Form(a), PartModel::Form(b)],
    ensures
        of_variant(joined(s), 3) == seq![PartModel::Form(a.union_prefer_right(b))],
{
    law_variants_merge_apart(s, 3);
    law_form_merge(a, b);
}

/// Whatever other parts stand around them, two JSON bodies `a` then `b` and
/// no other body part leave one JSON body: `b`, the later one, deep-merged
/// into `a`.
pub proof fn law_json_merge_among_parts(s: Seq<PartModel>, a: JsonTree, b: JsonTree)
    requires
        of_variant(s, 3) == seq![PartModel::Json(a), PartModel::Json(b)],
    ensures
        of_variant(joined(s), 3) == seq![PartModel::Json(json_merge(a, b))],
{
    law_variants_merge_apart(s, 3);
    law_json_parts_merge(a, b);
}

/// Whatever other parts stand around them, the cookie parts collapse into
/// one cookie line holding every cookie, the later before the earlier,
/// separated by `"; "`; with no cookie part none is made.
pub proof fn law_cookies_among_parts(s: Seq<PartModel>)
    ensures
        of_variant(s, 1).len() == 0 ==> of_variant(joined(s), 1).len() == 0,
        of_variant(s, 1).len() > 0 ==> of_variant(joined(s), 1) == seq![
            PartModel::Cookie(cookie_chain(cookie_lines(of_variant(s, 1)))),
        ],
{
    law_variants_merge_apart(s, 1);
    lemma_all_of_variant(s, 1);
    let c = of_variant(s, 1);
    if c.len() > 0 {
        assert forall|j: int| 0 <= j < c.len() implies #[trigger] c[j] is Cookie by {
            assert(variant_of(c[j]) == 1);
        }
        lemma_cookies_chain(c);
    } else {
        assert(c =~= Seq::<PartModel>::empty());
    }
}

proof fn lemma_unmerged_reverse(t: Seq<PartModel>)
    requires
        forall|j: int| 0 <= j < t.len() ==> !mergeable(#[trigger] t[j]),
    ensures
        joined(t) == t.reverse(),
    decreases t.len(),
{
    if t.len() > 0 {
        lemma_unmerged_reverse(t.drop_first());
        assert(t.drop_first().reverse().push(t[0]) =~= t.reverse());
    }
}

/// Headers and query parameters are never merged away: after merging, the
/// parts of each of these variants are the same parts, in reverse order.
pub proof fn law_headers_and_queries_kept(s: Seq<PartModel>)
    ensures
        of_variant(joined(s), 0) == of_variant(s, 0).reverse(),
        of_variant(joined(s), 2) == of_variant(s, 2).reverse(),
{
    law_variants_merge_apart(s, 0);
    law_variants_merge_apart(s, 2);
    lemma_all_of_variant(s, 0);
    lemma_all_of_variant(s, 2);
    let h = of_variant(s, 0);
    let q = of_variant(s, 2);
    assert forall|j: int| 0 <= j < h.len() implies !mergeable(#[trigger] h[j]) by {
        assert(variant_of(h[j]) == 0);
    }
    assert forall|j: int| 0 <= j < q.len() implies !mergeable(#[trigger] q[j]) by {
        assert(variant_of(q[j]) == 2);
    }
    lemma_unmerged_reverse(h);
    lemma_unmerged_reverse(q);
}

proof fn lemma_forms_only_body(x: Seq<PartModel>)
    requires
        forall|j: int| 0 <= j < of_variant(x, 3).len() ==> #[trigger] of_variant(x, 3)[j] is Form,
    ensures
        multipart_of(x).len() == 0,
        of_variant(x, 3).len() == 0 ==> plain_body_of(x) is None,
        of_variant(x, 3).len() > 0 ==> plain_body_of(x) == Some(of_variant(x, 3).last()),
    decreases x.len(),
{
    if x.len() > 0 {
        let y = x.last();
        let xp = x.drop_last();
        assert(xp.push(y) =~= x);
        lemma_of_variant_push(xp, y, 3);
        let d = of_variant(xp, 3);
        if variant_of(y) == 3 {
            assert(of_variant(x, 3) == d.push(y));
            assert(of_variant(x, 3)[d.len() as int] == y);
            assert forall|j: int| 0 <= j < d.len() implies #[trigger] d[j] is Form by {
                assert(of_variant(x, 3)[j] == d[j]);
            }
        }
        lemma_forms_only_body(xp);
    }
}

proof fn lemma_forms_join(t: Seq<PartModel>, k: Seq<char>)
    requires
        t.len() >= 1,
        forall|j: int| 0 <= j < t.len() ==> #[trigger] t[j] is Form,
        t.last()->Form_0.contains_key(k),
    ensures
        joined(t).len() == 1,
        joined(t)[0] is Form,
        joined(t)[0]->Form_0.contains_key(k),
        joined(t)[0]->Form_0[k] == t.last()->Form_0[k],
    decreases t.len(),
{
    assert(joined(Seq::<PartModel>::empty()) == Seq::<PartModel>::empty());
    if t.len() == 1 {
        assert(t.drop_first() =~= Seq::<PartModel>::empty());
        assert(first_of_variant(Seq::<PartModel>::empty(), 3) == 0);
        assert(Seq::<PartModel>::empty().push(t[0]) =~= seq![t[0]]);
    } else {
        let r = t.drop_first();
        assert(r.last() == t.last());
        lemma_forms_join(r, k);
        let j = joined(r);
        assert(variant_of(j[0]) == 3);
        assert(first_of_variant(j, 3) == 0);
        assert(j.remove(0) =~= Seq::<PartModel>::empty());
    }
}

/// With a configured form whose field `k` is `prefix-FUZZ-suffix`, and CSRF
/// parts whose body parts are forms, the request for payload `p` has a form
/// body where `k` is `prefix-` + `p` + `-suffix`: the fuzzed copy is added
/// last, so it wins over a CSRF form field of the same name.
pub proof fn law_fuzzed_form_in_body(d: Map<Seq<char>, Seq<char>>, k: Seq<char>, p: Seq<char>, ps: Seq<PartModel>)
    requires
        d.contains_key(k),
        d[k] == "prefix-FUZZ-suffix"@,
        forall|j: int| 0 <= j < of_variant(ps, 3).len() ==> #[trigger] of_variant(ps, 3)[j] is Form,
    ensures
        body_of(joined(ps.push(PartModel::Form(fuzzed_fields(d, p))))) matches BodyModel::Plain(
            PartModel::Form(m),
        ) && m.contains_key(k) && m[k] == "prefix-"@ + p + "-suffix"@,
{
    let f = PartModel::Form(fuzzed_fields(d, p));
    let s = ps.push(f);
    law_fuzz_substitution(d, k, p);
    lemma_of_variant_push(ps, f, 3);
    let t = of_variant(s, 3);
    assert(t == of_variant(ps, 3).push(f));
    assert forall|j: int| 0 <= j < t.len() implies #[trigger] t[j] is Form by {
        if j < of_variant(ps, 3).len() {
            assert(t[j] == of_variant(ps, 3)[j]);
        }
    }
    lemma_forms_join(t, k);
    law_variants_merge_apart(s, 3);
    let out = joined(s);
    assert(of_variant(out, 3) == joined(t));
    lemma_forms_only_body(out);
    assert(of_variant(out, 3).last() == joined(t)[0]);
}

/// Merging a JSON value with itself changes nothing.
pub proof fn law_json_merge_self(t: JsonTree)
    ensures
        json_merge(t, t) == t,
    decreases t,
{
    match t {
        JsonTree::Object(m) => {
            assert forall|k: Seq<char>| m.contains_key(k) implies json_merge(m[k], m[k]) == m[k] by {
                law_json_merge_self(m[k]);
            }
            assert(json_merge(t, t)->Object_0 =~= m);
        },
        JsonTree::Leaf(_) => {},
    }
}

/// The parts that are never merged (headers, query parameters, multipart
/// text and file parts), in order.
pub open spec fn unmerged(s: Seq<PartModel>) -> Seq<PartModel>
    decreases s.len(),
{
    if s.len() == 0 {
        Seq::empty()
    } else {
        let rest = unmerged(s.drop_last());
        if mergeable(s.last()) {
            rest
        } else {
            rest.push(s.last())
        }
    }
}

proof fn lemma_unmerged_remove(s: Seq<PartModel>, i: int)
    requires
        0 <= i < s.len(),
    ensures
        unmerged(s).to_multiset() == if mergeable(s[i]) {
            unmerged(s.remove(i)).to_multiset()
        } else {
            unmerged(s.remove(i)).to_multiset().insert(s[i])
        },
    decreases s.len(),
{
    let dl = s.drop_last();
    if i == s.len() - 1 {
        assert(s.remove(i) =~= dl);
        if !mergeable(s.last()) {
            vstd::seq_lib::to_multiset_build(unmerged(dl), s.last());
        }
    } else {
        lemma_unmerged_remove(dl, i);
        assert(s.remove(i).drop_last() =~= dl.remove(i));
        assert(s.remove(i).last() == s.last());
        assert(dl[i] == s[i]);
        let u = unmerged(dl.remove(i));
        if !mergeable(s.last()) {
            vstd::seq_lib::to_multiset_build(unmerged(dl), s.last());
            vstd::seq_lib::to_multiset_build(u, s.last());
        }
        if !mergeable(s[i]) {
            assert(u.to_multiset().insert(s[i]).insert(s.last()) =~= u.to_multiset().insert(s.last()).insert(s[i]));
        }
    }
}

proof fn lemma_unmerged_push(s: Seq<PartModel>, x: PartModel)
    ensures
        unmerged(s.push(x)).to_multiset() == if mergeable(x) {
            unmerged(s).to_multiset()
        } else {
            unmerged(s).to_multiset().insert(x)
        },
{
    assert(s.push(x).drop_last() =~= s);
    if !mergeable(x) {
        vstd::seq_lib::to_multiset_build(unmerged(s), x);
    }
}

/// Merging never drops, adds or changes a header, query parameter,
/// multipart text or file part: those parts are the same multiset before
/// and after.
pub proof fn law_unmerged_parts_kept(s: Seq<PartModel>)
    ensures
        unmerged(joined(s)).to_multiset() == unmerged(s).to_multiset(),
    decreases s.len(),
{
    if s.len() > 0 {
        let p = s[0];
        let j = joined(s.drop_first());
        law_unmerged_parts_kept(s.drop_first());
        lemma_unmerged_remove(s, 0);
        assert(s.remove(0) =~= s.drop_first());
        let i = first_of_variant(j, variant_of(p));
        lemma_first_of_variant(j, variant_of(p));
        if mergeable(p) && i < j.len() {
            let x = join_model(j[i], p);
            lemma_unmerged_remove(j, i);
            lemma_unmerged_push(j.remove(i), x);
            assert(mergeable(x) == mergeable(j[i]));
            assert(!mergeable(j[i]) ==> x == j[i]);
        } else {
            lemma_unmerged_push(j, p);
        }
    }
}

} // verus!
