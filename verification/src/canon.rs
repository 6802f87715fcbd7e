//! Deterministic JSON canonicalization.
//!
//! [`canonical_string`] turns a [`JsonValue`] into the exact byte sequence
//! that gets signed: object members sorted by key in ascending code-point
//! order, null members and null array elements dropped at every depth,
//! array order preserved, no inserted whitespace, and string contents passed
//! through unescaped, bit-for-bit as the payment processor expects them.

use vstd::prelude::*;

use crate::json::{model_items, model_pairs, JsonModel, JsonValue};
use vstd::multiset::Multiset;

verus! {

broadcast use vstd::std_specs::vec::group_vec_axioms;

/// Lexicographic code-point order on character sequences.
pub open spec fn lex_leq(a: Seq<char>, b: Seq<char>) -> bool
    decreases a.len(),
{
    if a.len() == 0 {
        true
    } else if b.len() == 0 {
        false
    } else if (a[0] as int) < (b[0] as int) {
        true
    } else if (a[0] as int) > (b[0] as int) {
        false
    } else {
        lex_leq(a.drop_first(), b.drop_first())
    }
}

/// A rendered object member: its key and its canonical value text.
pub type RenderedMember = (Seq<char>, Seq<char>);

/// The characters `null`.
pub open spec fn lit_null() -> Seq<char> {
    seq!['n', 'u', 'l', 'l']
}

/// The characters `true`.
pub open spec fn lit_true() -> Seq<char> {
    seq!['t', 'r', 'u', 'e']
}

/// The characters `false`.
pub open spec fn lit_false() -> Seq<char> {
    seq!['f', 'a', 'l', 's', 'e']
}

/// `s` wrapped in double quotes, contents untouched.
pub open spec fn quoted(s: Seq<char>) -> Seq<char> {
    seq!['"'] + s + seq!['"']
}

/// The canonical text of one member: `"key":value`.
pub open spec fn member_str(m: RenderedMember) -> Seq<char> {
    quoted(m.0) + seq![':'] + m.1
}

/// Canonical texts joined with commas.
pub open spec fn join_strs(parts: Seq<Seq<char>>) -> Seq<char>
    decreases parts.len(),
{
    if parts.len() == 0 {
        Seq::empty()
    } else if parts.len() == 1 {
        parts[0]
    } else {
        join_strs(parts.drop_last()) + seq![','] + parts.last()
    }
}

/// Member texts joined with commas.
pub open spec fn join_members(ms: Seq<RenderedMember>) -> Seq<char>
    decreases ms.len(),
{
    if ms.len() == 0 {
        Seq::empty()
    } else if ms.len() == 1 {
        member_str(ms[0])
    } else {
        join_members(ms.drop_last()) + seq![','] + member_str(ms.last())
    }
}

/// Inserts a rendered member into a key-sorted run, before the first member
/// whose key is not below the new key.
pub open spec fn insert_member(s: Seq<RenderedMember>, m: RenderedMember) -> Seq<RenderedMember>
    decreases s.len(),
{
    if s.len() == 0 {
        seq![m]
    } else if lex_leq(m.0, s[0].0) {
        seq![m] + s
    } else {
        seq![s[0]] + insert_member(s.drop_first(), m)
    }
}

/// Sorts rendered members by key with insertion sort.
pub open spec fn sort_members(s: Seq<RenderedMember>) -> Seq<RenderedMember>
    decreases s.len(),
{
    if s.len() == 0 {
        Seq::empty()
    } else {
        insert_member(sort_members(s.drop_last()), s.last())
    }
}

/// Canonical texts of array elements: nulls dropped, order kept.
pub open spec fn render_items(items: Seq<JsonModel>) -> Seq<Seq<char>>
    decreases items, 0int,
{
    if items.len() == 0 {
        Seq::empty()
    } else {
        render_items(items.drop_last()) + if items.last() is Null {
            Seq::<Seq<char>>::empty()
        } else {
            seq![spec_canon(items.last())]
        }
    }
}

/// Rendered object members in source order: null-valued members dropped.
pub open spec fn render_members(pairs: Seq<(Seq<char>, JsonModel)>) -> Seq<RenderedMember>
    decreases pairs, 0int,
{
    if pairs.len() == 0 {
        Seq::empty()
    } else {
        render_members(pairs.drop_last()) + if pairs.last().1 is Null {
            Seq::<RenderedMember>::empty()
        } else {
            seq![(pairs.last().0, spec_canon(pairs.last().1))]
        }
    }
}

/// The canonical text of a value.
pub open spec fn spec_canon(v: JsonModel) -> Seq<char>
    decreases v, 1int,
{
    match v {
        JsonModel::Null => lit_null(),
        JsonModel::Bool(b) => if b {
            lit_true()
        } else {
            lit_false()
        },
        JsonModel::Num(s) => s,
        JsonModel::Text(s) => quoted(s),
        JsonModel::Arr(items) => seq!['['] + join_strs(render_items(items)) + seq![']'],
        JsonModel::Obj(pairs) => seq!['{'] + join_members(sort_members(render_members(pairs)))
            + seq!['}'],
    }
}

/// Key-and-value view of executable rendered members.
pub open spec fn rendered_view(s: Seq<(String, String)>) -> Seq<RenderedMember> {
    s.map_values(|p: (String, String)| (p.0@, p.1@))
}

/// Skipping an equal prefix does not change the lexicographic comparison.
proof fn lemma_lex_skip(a: Seq<char>, b: Seq<char>, i: int)
    requires
        0 <= i <= a.len(),
        i <= b.len(),
        forall|j: int| 0 <= j < i ==> a[j] == b[j],
    ensures
        lex_leq(a, b) == lex_leq(a.skip(i), b.skip(i)),
    decreases i,
{
    if i == 0 {
        assert(a.skip(0) =~= a);
        assert(b.skip(0) =~= b);
    } else {
        assert(a[0] == b[0]);
        assert(a.len() > 0 && b.len() > 0);
        lemma_lex_skip(a.drop_first(), b.drop_first(), i - 1);
        assert(a.drop_first().skip(i - 1) =~= a.skip(i));
        assert(b.drop_first().skip(i - 1) =~= b.skip(i));
    }
}

/// The lexicographic order is total: two keys always compare one way.
pub proof fn lemma_lex_total(a: Seq<char>, b: Seq<char>)
    ensures
        lex_leq(a, b) || lex_leq(b, a),
    decreases a.len(),
{
    if a.len() > 0 && b.len() > 0 && (a[0] as int) == (b[0] as int) {
        lemma_lex_total(a.drop_first(), b.drop_first());
    }
}

/// Decides `lex_leq` on two string slices.
pub fn str_lex_leq(a: &str, b: &str) -> (r: bool)
    ensures
        r == lex_leq(a@, b@),
{
    let na: usize = a.unicode_len();
    let nb: usize = b.unicode_len();
    let min: usize = if na < nb {
        na
    } else {
        nb
    };
    let mut i: usize = 0;
    while i < min
        invariant
            i <= min,
            na == a@.len(),
            nb == b@.len(),
            min == if na < nb {
                na
            } else {
                nb
            },
            forall|j: int| 0 <= j < i ==> a@[j] == b@[j],
        decreases min - i,
    {
        let ca = a.get_char(i);
        let cb = b.get_char(i);
        proof {
            assert(ca as int == (ca as u32) as int);
            assert(cb as int == (cb as u32) as int);
        }
        if (ca as u32) < (cb as u32) {
            proof {
                lemma_lex_skip(a@, b@, i as int);
                assert(a@.skip(i as int)[0] == a@[i as int]);
                assert(b@.skip(i as int)[0] == b@[i as int]);
                assert((a@[i as int] as int) < (b@[i as int] as int));
            }
            return true;
        }
        if (ca as u32) > (cb as u32) {
            proof {
                lemma_lex_skip(a@, b@, i as int);
                assert(a@.skip(i as int)[0] == a@[i as int]);
                assert(b@.skip(i as int)[0] == b@[i as int]);
                assert((a@[i as int] as int) > (b@[i as int] as int));
            }
            return false;
        }
        assert(a@[i as int] == b@[i as int]) by {
            assert(ca as int == cb as int);
        }
        i = i + 1;
    }
    proof {
        lemma_lex_skip(a@, b@, min as int);
        if na <= nb {
            assert(a@.skip(min as int).len() == 0);
        } else {
            assert(b@.skip(min as int).len() == 0);
            assert(a@.skip(min as int).len() > 0);
        }
    }
    na <= nb
}

/// `insert_member` splits at the first position whose key is not below the
/// inserted key.
proof fn lemma_insert_member_at(s: Seq<RenderedMember>, m: RenderedMember, p: int)
    requires
        0 <= p <= s.len(),
        forall|j: int| 0 <= j < p ==> !lex_leq(m.0, #[trigger] s[j].0),
        p < s.len() ==> lex_leq(m.0, s[p].0),
    ensures
        insert_member(s, m) =~= s.take(p) + seq![m] + s.skip(p),
    decreases s.len(),
{
    if s.len() == 0 {
        assert(insert_member(s, m) =~= s.take(0) + seq![m] + s.skip(0));
    } else if p == 0 {
        assert(insert_member(s, m) =~= s.take(0) + seq![m] + s.skip(0));
    } else {
        assert(!lex_leq(m.0, s[0].0));
        lemma_insert_member_at(s.drop_first(), m, p - 1);
        assert(s.drop_first().take(p - 1) =~= s.take(p).drop_first());
        assert(s.drop_first().skip(p - 1) =~= s.skip(p));
        assert(seq![s[0]] + (s.drop_first().take(p - 1) + seq![m] + s.drop_first().skip(p - 1))
            =~= s.take(p) + seq![m] + s.skip(p));
    }
}

/// Finds the first position in the key-sorted run `v` whose key is not
/// below `key`.
fn find_insert_pos(v: &Vec<(String, String)>, key: &str) -> (p: usize)
    ensures
        p <= v@.len(),
        forall|j: int| 0 <= j < p ==> !lex_leq(key@, #[trigger] rendered_view(v@)[j].0),
        p < v@.len() ==> lex_leq(key@, rendered_view(v@)[p as int].0),
{
    let n: usize = v.len();
    let mut p: usize = 0;
    while p < n
        invariant
            p <= n == v@.len(),
            forall|j: int| 0 <= j < p ==> !lex_leq(key@, #[trigger] rendered_view(v@)[j].0),
        decreases n - p,
    {
        if str_lex_leq(key, v[p].0.as_str()) {
            return p;
        }
        p = p + 1;
    }
    p
}

/// Sorts rendered members by key; see [`sort_members`].
fn sort_rendered(rm: Vec<(String, String)>) -> (r: Vec<(String, String)>)
    ensures
        rendered_view(r@) == sort_members(rendered_view(rm@)),
{
    let ghost orig = rm@;
    let mut rest = rm;
    let mut out: Vec<(String, String)> = Vec::new();
    let ghost mut taken: int = 0;
    while rest.len() > 0
        invariant
            0 <= taken,
            taken + rest@.len() == orig.len(),
            rest@ =~= orig.skip(taken),
            rendered_view(out@) =~= sort_members(rendered_view(orig).take(taken)),
        decreases rest@.len(),
    {
        let m = rest.remove(0);
        assert(m == orig[taken]);
        assert(rest@ =~= orig.skip(taken + 1));
        let p: usize = find_insert_pos(&out, m.0.as_str());
        let ghost before = out@;
        out.insert(p, m);
        proof {
            let mv = (m.0@, m.1@);
            let rv = rendered_view(before);
            lemma_insert_member_at(rv, mv, p as int);
            assert(rendered_view(out@) =~= rv.take(p as int) + seq![mv] + rv.skip(p as int)) by {
                assert(out@ =~= before.take(p as int) + seq![m] + before.skip(p as int));
            }
            let full = rendered_view(orig);
            assert(full.take(taken + 1).drop_last() =~= full.take(taken));
            assert(full.take(taken + 1).last() == full[taken]);
            assert(full[taken] == mv);
            assert(sort_members(full.take(taken + 1)) == insert_member(
                sort_members(full.take(taken)),
                mv,
            ));
            assert(rendered_view(out@) =~= insert_member(rv, mv));
            taken = taken + 1;
        }
    }
    proof {
        assert(rendered_view(orig).take(taken) =~= rendered_view(orig));
    }
    out
}

/// Writes the sorted members as `"key":value` texts joined with commas.
#[verifier::loop_isolation(false)]
fn emit_members(sorted: &Vec<(String, String)>) -> (r: String)
    ensures
        r@ == join_members(rendered_view(sorted@)),
{
    let ghost ms = rendered_view(sorted@);
    let mut out = String::new();
    proof {
        reveal_strlit("\"");
        reveal_strlit(":");
        reveal_strlit(",");
    }
    let n: usize = sorted.len();
    let mut i: usize = 0;
    while i < n
        invariant
            i <= n == sorted@.len(),
            ms == rendered_view(sorted@),
            out@ =~= join_members(ms.take(i as int)),
        decreases n - i,
    {
        if i > 0 {
            out.append(",");
        }
        out.append("\"");
        out.append(sorted[i].0.as_str());
        out.append("\"");
        out.append(":");
        out.append(sorted[i].1.as_str());
        proof {
            assert(ms.take(i + 1).drop_last() =~= ms.take(i as int));
            assert(ms.take(i + 1).last() == ms[i as int]);
            assert(ms[i as int] == (sorted@[i as int].0@, sorted@[i as int].1@));
            assert(out@ =~= join_members(ms.take(i + 1)));
        }
        i = i + 1;
    }
    proof {
        assert(ms.take(n as int) =~= ms);
    }
    out
}

/// Renders a value in canonical form; see [`spec_canon`].
#[verifier::loop_isolation(false)]
#[verifier::rlimit(100)]
pub fn canonical_string(v: &JsonValue) -> (r: String)
    ensures
        r@ == spec_canon(v@),
    decreases v,
{
    match v {
        JsonValue::Null => {
            proof {
                reveal_strlit("null");
            }
            let r = String::from_str("null");
            assert(r@ =~= lit_null());
            r
        },
        JsonValue::Bool(b) => {
            if *b {
                proof {
                    reveal_strlit("true");
                }
                let r = String::from_str("true");
                assert(r@ =~= lit_true());
                r
            } else {
                proof {
                    reveal_strlit("false");
                }
                let r = String::from_str("false");
                assert(r@ =~= lit_false());
                r
            }
        },
        JsonValue::Num(s) => s.clone(),
        JsonValue::Text(s) => {
            proof {
                reveal_strlit("\"");
            }
            let mut out = String::new();
            out.append("\"");
            out.append(s.as_str());
            out.append("\"");
            assert(out@ =~= quoted(s@));
            out
        },
        JsonValue::Arr(items) => {
            proof {
                reveal_strlit("[");
                reveal_strlit("]");
                reveal_strlit(",");
            }
            let mut out = String::new();
            out.append("[");
            let mut first: bool = true;
            let n: usize = items.len();
            let mut i: usize = 0;
            while i < n
                invariant
                    i <= n,
                    first == (render_items(model_items(items@.take(i as int))).len() == 0),
                    out@ =~= seq!['['] + join_strs(render_items(model_items(items@.take(i as int)))),
                decreases n - i,
            {
                let ghost rend = render_items(model_items(items@.take(i as int)));
                proof {
                    assert(items@.take(i + 1).drop_last() =~= items@.take(i as int));
                    assert(items@.take(i + 1).last() == items@[i as int]);
                    let m = model_items(items@.take(i + 1));
                    assert(m =~= model_items(items@.take(i as int)) + seq![
                        crate::json::json_model(items@[i as int]),
                    ]);
                    assert(m.drop_last() =~= model_items(items@.take(i as int)));
                }
                match &items[i] {
                    JsonValue::Null => {
                        assert(render_items(model_items(items@.take(i + 1))) =~= rend);
                    },
                    _ => {
                        proof {
                            assert(decreases_to!(*v => v->Arr_0));
                            assert(v->Arr_0 == *items);
                            assert(decreases_to!(*items => items@));
                            assert(decreases_to!(items@ => items@[i as int]));
                        }
                        let c = canonical_string(&items[i]);
                        if !first {
                            out.append(",");
                        }
                        out.append(c.as_str());
                        first = false;
                        proof {
                            let rend2 = render_items(model_items(items@.take(i + 1)));
                            assert(rend2 =~= rend + seq![spec_canon(items@[i as int]@)]);
                            assert(rend2.drop_last() =~= rend);
                            assert(out@ =~= seq!['['] + join_strs(rend2));
                        }
                    },
                }
                i = i + 1;
            }
            proof {
                assert(items@.take(n as int) =~= items@);
            }
            out.append("]");
            assert(out@ =~= spec_canon(v@));
            out
        },
        JsonValue::Obj(pairs) => {
            proof {
                reveal_strlit("{");
                reveal_strlit("}");
            }
            let mut rm: Vec<(String, String)> = Vec::new();
            let n: usize = pairs.len();
            let mut i: usize = 0;
            while i < n
                invariant
                    i <= n,
                    rendered_view(rm@) =~= render_members(model_pairs(pairs@.take(i as int))),
                decreases n - i,
            {
                let ghost rend = render_members(model_pairs(pairs@.take(i as int)));
                proof {
                    assert(pairs@.take(i + 1).drop_last() =~= pairs@.take(i as int));
                    assert(pairs@.take(i + 1).last() == pairs@[i as int]);
                    let m = model_pairs(pairs@.take(i + 1));
                    assert(m =~= model_pairs(pairs@.take(i as int)) + seq![
                        (pairs@[i as int].0@, crate::json::json_model(pairs@[i as int].1)),
                    ]);
                    assert(m.drop_last() =~= model_pairs(pairs@.take(i as int)));
                }
                let ghost prev = rm@;
                match &pairs[i].1 {
                    JsonValue::Null => {
                        assert(render_members(model_pairs(pairs@.take(i + 1))) =~= rend);
                    },
                    _ => {
                        proof {
                            assert(decreases_to!(*v => v->Obj_0));
                            assert(v->Obj_0 == *pairs);
                            assert(decreases_to!(*pairs => pairs@));
                            assert(decreases_to!(pairs@ => pairs@[i as int]));
                            assert(decreases_to!(pairs@[i as int] => pairs@[i as int].1));
                        }
                        let c = canonical_string(&pairs[i].1);
                        let k = pairs[i].0.clone();
                        rm.push((k, c));
                        proof {
                            let rend2 = render_members(model_pairs(pairs@.take(i + 1)));
                            assert(rend2 =~= rend + seq![
                                (pairs@[i as int].0@, spec_canon(pairs@[i as int].1@)),
                            ]);
                            assert(rm@.drop_last() =~= prev);
                            assert(rendered_view(rm@) =~= rend2);
                        }
                    },
                }
                i = i + 1;
            }
            proof {
                assert(pairs@.take(n as int) =~= pairs@);
            }
            let sorted = sort_rendered(rm);
            let body = emit_members(&sorted);
            let mut out = String::new();
            out.append("{");
            out.append(body.as_str());
            out.append("}");
            assert(out@ =~= spec_canon(v@));
            out
        },
    }
}

/// Inserting a null-valued member anywhere leaves the rendered member list
/// unchanged.
proof fn lemma_render_insert_null(pairs: Seq<(Seq<char>, JsonModel)>, k: Seq<char>, i: int)
    requires
        0 <= i <= pairs.len(),
    ensures
        render_members(pairs.insert(i, (k, JsonModel::Null))) =~= render_members(pairs),
    decreases pairs.len(),
{
    let np = pairs.insert(i, (k, JsonModel::Null));
    if i == pairs.len() {
        assert(np.drop_last() =~= pairs);
        assert(np.last() == (k, JsonModel::Null));
    } else {
        assert(np.last() == pairs.last());
        assert(np.drop_last() =~= pairs.drop_last().insert(i, (k, JsonModel::Null)));
        lemma_render_insert_null(pairs.drop_last(), k, i);
    }
}

/// A null-valued member is stripped: an object with one inserted anywhere
/// has the same canonical text as the object without it.  Nulls below the
/// top level are handled by the recursion, so this holds at every depth.
pub proof fn lemma_canon_null_member_dropped(
    pairs: Seq<(Seq<char>, JsonModel)>,
    k: Seq<char>,
    i: int,
)
    requires
        0 <= i <= pairs.len(),
    ensures
        spec_canon(JsonModel::Obj(pairs.insert(i, (k, JsonModel::Null)))) == spec_canon(
            JsonModel::Obj(pairs),
        ),
{
    lemma_render_insert_null(pairs, k, i);
    assert(render_members(pairs.insert(i, (k, JsonModel::Null))) == render_members(pairs));
}

/// A null array element is likewise stripped from the canonical text.
pub proof fn lemma_canon_null_element_dropped(items: Seq<JsonModel>, i: int)
    requires
        0 <= i <= items.len(),
    ensures
        spec_canon(JsonModel::Arr(items.insert(i, JsonModel::Null))) == spec_canon(
            JsonModel::Arr(items),
        ),
{
    lemma_render_items_insert_null(items, i);
    assert(render_items(items.insert(i, JsonModel::Null)) == render_items(items));
}

/// Inserting a null element anywhere leaves the rendered element list
/// unchanged.
proof fn lemma_render_items_insert_null(items: Seq<JsonModel>, i: int)
    requires
        0 <= i <= items.len(),
    ensures
        render_items(items.insert(i, JsonModel::Null)) =~= render_items(items),
    decreases items.len(),
{
    let ni = items.insert(i, JsonModel::Null);
    if i == items.len() {
        assert(ni.drop_last() =~= items);
        assert(ni.last() == JsonModel::Null);
    } else {
        assert(ni.last() == items.last());
        assert(ni.drop_last() =~= items.drop_last().insert(i, JsonModel::Null));
        lemma_render_items_insert_null(items.drop_last(), i);
    }
}

/// `v` with null members and null array elements removed at every depth;
/// the canonicalizer's own view of the tree.
pub open spec fn strip_nulls(v: JsonModel) -> JsonModel
    decreases v, 1int,
{
    match v {
        JsonModel::Arr(items) => JsonModel::Arr(strip_items(items)),
        JsonModel::Obj(pairs) => JsonModel::Obj(strip_pairs(pairs)),
        _ => v,
    }
}

/// Array elements with nulls removed at every depth.
pub open spec fn strip_items(items: Seq<JsonModel>) -> Seq<JsonModel>
    decreases items, 0int,
{
    if items.len() == 0 {
        Seq::empty()
    } else {
        strip_items(items.drop_last()) + if items.last() is Null {
            Seq::<JsonModel>::empty()
        } else {
            seq![strip_nulls(items.last())]
        }
    }
}

/// Object members with null values removed at every depth.
pub open spec fn strip_pairs(pairs: Seq<(Seq<char>, JsonModel)>) -> Seq<(Seq<char>, JsonModel)>
    decreases pairs, 0int,
{
    if pairs.len() == 0 {
        Seq::empty()
    } else {
        strip_pairs(pairs.drop_last()) + if pairs.last().1 is Null {
            Seq::<(Seq<char>, JsonModel)>::empty()
        } else {
            seq![(pairs.last().0, strip_nulls(pairs.last().1))]
        }
    }
}

/// Stripping nulls keeps the rendered element texts.
proof fn lemma_render_items_strip(items: Seq<JsonModel>)
    ensures
        render_items(strip_items(items)) =~= render_items(items),
    decreases items, 0int,
{
    if items.len() > 0 {
        lemma_render_items_strip(items.drop_last());
        let last = items.last();
        if last is Null {
            assert(strip_items(items) =~= strip_items(items.drop_last()));
        } else {
            lemma_canon_strip_nulls(last);
            let si = strip_items(items);
            assert(si =~= strip_items(items.drop_last()).push(strip_nulls(last)));
            assert(si.drop_last() =~= strip_items(items.drop_last()));
            assert(si.last() == strip_nulls(last));
            assert(!(strip_nulls(last) is Null));
            assert(render_items(si) =~= render_items(strip_items(items.drop_last())) + seq![
                spec_canon(strip_nulls(last)),
            ]);
        }
    }
}

/// Stripping nulls keeps the rendered member texts.
proof fn lemma_render_pairs_strip(pairs: Seq<(Seq<char>, JsonModel)>)
    ensures
        render_members(strip_pairs(pairs)) =~= render_members(pairs),
    decreases pairs, 0int,
{
    if pairs.len() > 0 {
        lemma_render_pairs_strip(pairs.drop_last());
        let last = pairs.last();
        if last.1 is Null {
            assert(strip_pairs(pairs) =~= strip_pairs(pairs.drop_last()));
        } else {
            lemma_canon_strip_nulls(last.1);
            let sp = strip_pairs(pairs);
            assert(sp =~= strip_pairs(pairs.drop_last()).push((last.0, strip_nulls(last.1))));
            assert(sp.drop_last() =~= strip_pairs(pairs.drop_last()));
            assert(sp.last() == (last.0, strip_nulls(last.1)));
            assert(!(strip_nulls(last.1) is Null));
            assert(render_members(sp) =~= render_members(strip_pairs(pairs.drop_last())) + seq![
                (last.0, spec_canon(strip_nulls(last.1))),
            ]);
        }
    }
}

/// Nulls are invisible to canonicalization at every depth: a value and the
/// same value with every null member and null array element removed have
/// the same canonical text.
pub proof fn lemma_canon_strip_nulls(v: JsonModel)
    ensures
        spec_canon(strip_nulls(v)) == spec_canon(v),
    decreases v, 1int,
{
    match v {
        JsonModel::Arr(items) => {
            lemma_render_items_strip(items);
        },
        JsonModel::Obj(pairs) => {
            lemma_render_pairs_strip(pairs);
            assert(render_members(strip_pairs(pairs)) == render_members(pairs));
        },
        _ => {},
    }
}

/// No two members share a key.
pub open spec fn distinct_keys(pairs: Seq<(Seq<char>, JsonModel)>) -> bool {
    forall|i: int, j: int| 0 <= i < j < pairs.len() ==> pairs[i].0 != pairs[j].0
}

/// Two values are the same logical object: equal scalars, arrays equal
/// element by element, and objects with no key repeated carrying the same
/// member for each key, however the members are ordered, at every depth.
pub open spec fn same_json(a: JsonModel, b: JsonModel) -> bool
    decreases a, 1int,
{
    match (a, b) {
        (JsonModel::Arr(x), JsonModel::Arr(y)) => x.len() == y.len() && (forall|i: int|
            0 <= i < x.len() ==> same_json(#[trigger] x[i], y[i])),
        (JsonModel::Obj(p), JsonModel::Obj(q)) => {
            &&& distinct_keys(p)
            &&& distinct_keys(q)
            &&& members_matched(p, q)
        },
        _ => a == b,
    }
}

/// Some member of `q` has this member's key and the same logical value.
pub open spec fn member_matched_in(
    m: (Seq<char>, JsonModel),
    q: Seq<(Seq<char>, JsonModel)>,
) -> bool
    decreases m, 0int,
{
    exists|j: int| 0 <= j < q.len() && m.0 == (#[trigger] q[j]).0 && same_json(m.1, q[j].1)
}

/// Each member of `p` has a member of `q` with the same key and the same
/// logical value, and the lists are equally long.
pub open spec fn members_matched(
    p: Seq<(Seq<char>, JsonModel)>,
    q: Seq<(Seq<char>, JsonModel)>,
) -> bool
    decreases p, 1int,
{
    p.len() == q.len() && (forall|i: int|
        0 <= i < p.len() ==> member_matched_in(#[trigger] p[i], q))
}

/// Rendered members in ascending key order.
pub open spec fn sorted_by_key(s: Seq<RenderedMember>) -> bool {
    forall|i: int, j: int| 0 <= i < j < s.len() ==> lex_leq(#[trigger] s[i].0, #[trigger] s[j].0)
}

/// In this bag of rendered members, a key determines the member.
pub open spec fn key_injective(m: Multiset<RenderedMember>) -> bool {
    forall|m1: RenderedMember, m2: RenderedMember|
        m.count(m1) > 0 && m.count(m2) > 0 && m1.0 == m2.0 ==> m1 == m2
}

/// What one member contributes to the rendered bag.
pub open spec fn rendered_of(p: (Seq<char>, JsonModel)) -> Multiset<RenderedMember> {
    if p.1 is Null {
        Multiset::empty()
    } else {
        Multiset::empty().insert((p.0, spec_canon(p.1)))
    }
}

/// The lexicographic order is transitive.
proof fn lemma_lex_trans(a: Seq<char>, b: Seq<char>, c: Seq<char>)
    requires
        lex_leq(a, b),
        lex_leq(b, c),
    ensures
        lex_leq(a, c),
    decreases a.len(),
{
    if a.len() > 0 {
        assert(b.len() > 0);
        assert(c.len() > 0);
        if (a[0] as int) == (b[0] as int) && (b[0] as int) == (c[0] as int) {
            lemma_lex_trans(a.drop_first(), b.drop_first(), c.drop_first());
        }
    }
}

/// The lexicographic order is reflexive.
proof fn lemma_lex_refl(a: Seq<char>)
    ensures
        lex_leq(a, a),
    decreases a.len(),
{
    if a.len() > 0 {
        lemma_lex_refl(a.drop_first());
    }
}

/// The lexicographic order is antisymmetric.
proof fn lemma_lex_antisym(a: Seq<char>, b: Seq<char>)
    requires
        lex_leq(a, b),
        lex_leq(b, a),
    ensures
        a == b,
    decreases a.len(),
{
    if a.len() == 0 {
        assert(b.len() == 0);
        assert(a =~= b);
    } else {
        assert(b.len() > 0);
        assert((a[0] as int) == (b[0] as int));
        assert(a[0] == b[0]);
        lemma_lex_antisym(a.drop_first(), b.drop_first());
        assert(a =~= seq![a[0]] + a.drop_first());
        assert(b =~= seq![b[0]] + b.drop_first());
        assert(a =~= b);
    }
}

/// Inserting into a key-sorted run keeps it sorted and adds one member to
/// the bag.
proof fn lemma_insert_sorted(s: Seq<RenderedMember>, m: RenderedMember)
    requires
        sorted_by_key(s),
    ensures
        sorted_by_key(insert_member(s, m)),
        insert_member(s, m).to_multiset() == s.to_multiset().insert(m),
    decreases s.len(),
{
    broadcast use vstd::seq_lib::group_to_multiset_ensures;
    broadcast use vstd::multiset::group_multiset_axioms;

    if s.len() == 0 {
        assert(insert_member(s, m) =~= Seq::empty().push(m));
        assert(insert_member(s, m).to_multiset() =~= s.to_multiset().insert(m));
    } else if lex_leq(m.0, s[0].0) {
        let r = seq![m] + s;
        assert(r =~= s.insert(0, m));
        assert(r.to_multiset() == s.to_multiset().insert(m));
        assert forall|i: int, j: int| 0 <= i < j < r.len() implies lex_leq(
            #[trigger] r[i].0,
            #[trigger] r[j].0,
        ) by {
            if i == 0 {
                assert(r[j] == s[j - 1]);
                if j > 1 {
                    assert(lex_leq(s[0].0, s[j - 1].0));
                    lemma_lex_trans(m.0, s[0].0, s[j - 1].0);
                }
            } else {
                assert(r[i] == s[i - 1] && r[j] == s[j - 1]);
            }
        }
    } else {
        let rest = s.drop_first();
        assert(sorted_by_key(rest)) by {
            assert(forall|i: int, j: int|
                0 <= i < j < rest.len() ==> rest[i] == s[i + 1] && rest[j] == s[j + 1]);
        }
        lemma_insert_sorted(rest, m);
        let ri = insert_member(rest, m);
        let r = seq![s[0]] + ri;
        assert(insert_member(s, m) == r);
        assert(r =~= ri.insert(0, s[0]));
        assert(r.to_multiset() == ri.to_multiset().insert(s[0]));
        assert(s =~= rest.insert(0, s[0]));
        assert(s.to_multiset() == rest.to_multiset().insert(s[0]));
        assert(r.to_multiset() =~= s.to_multiset().insert(m));
        lemma_lex_total(m.0, s[0].0);
        assert(lex_leq(s[0].0, m.0));
        assert forall|i: int, j: int| 0 <= i < j < r.len() implies lex_leq(
            #[trigger] r[i].0,
            #[trigger] r[j].0,
        ) by {
            if i == 0 {
                let x = r[j];
                assert(x == ri[j - 1]);
                assert(ri.to_multiset().count(x) > 0);
                assert(rest.to_multiset().insert(m).count(x) > 0);
                if x == m {
                    assert(lex_leq(s[0].0, m.0));
                } else {
                    assert(rest.to_multiset().count(x) > 0);
                    assert(rest.contains(x));
                    let k = choose|k: int| 0 <= k < rest.len() && rest[k] == x;
                    assert(rest[k] == s[k + 1]);
                    assert(lex_leq(s[0].0, s[k + 1].0));
                }
            } else {
                assert(r[i] == ri[i - 1] && r[j] == ri[j - 1]);
            }
        }
    }
}

/// Insertion sort by key: the result is sorted and holds the same bag of
/// members.
proof fn lemma_sort_members_props(s: Seq<RenderedMember>)
    ensures
        sorted_by_key(sort_members(s)),
        sort_members(s).to_multiset() == s.to_multiset(),
    decreases s.len(),
{
    broadcast use vstd::seq_lib::group_to_multiset_ensures;
    broadcast use vstd::multiset::group_multiset_axioms;

    if s.len() == 0 {
        assert(sort_members(s).to_multiset() =~= s.to_multiset());
    } else {
        let dl = s.drop_last();
        lemma_sort_members_props(dl);
        lemma_insert_sorted(sort_members(dl), s.last());
        assert(s =~= dl.push(s.last()));
        assert(s.to_multiset() == dl.to_multiset().insert(s.last()));
    }
}

/// Removing one member changes the rendered bag by exactly that member's
/// contribution.
proof fn lemma_render_remove(pairs: Seq<(Seq<char>, JsonModel)>, j: int)
    requires
        0 <= j < pairs.len(),
    ensures
        render_members(pairs).to_multiset() == render_members(pairs.remove(j)).to_multiset().add(
            rendered_of(pairs[j]),
        ),
    decreases pairs.len(),
{
    broadcast use vstd::seq_lib::group_to_multiset_ensures;
    broadcast use vstd::multiset::group_multiset_axioms;

    let dl = pairs.drop_last();
    let tail = if pairs.last().1 is Null {
        Seq::<RenderedMember>::empty()
    } else {
        seq![(pairs.last().0, spec_canon(pairs.last().1))]
    };
    assert(render_members(pairs) == render_members(dl) + tail);
    vstd::seq_lib::lemma_multiset_commutative(render_members(dl), tail);
    assert(tail.to_multiset() =~= rendered_of(pairs.last())) by {
        if !(pairs.last().1 is Null) {
            assert(tail =~= Seq::empty().push((pairs.last().0, spec_canon(pairs.last().1))));
        }
    }
    if j == pairs.len() - 1 {
        assert(pairs.remove(j) =~= dl);
    } else {
        let r = pairs.remove(j);
        assert(r.last() == pairs.last());
        assert(r.drop_last() =~= dl.remove(j));
        lemma_render_remove(dl, j);
        let rtail = if r.last().1 is Null {
            Seq::<RenderedMember>::empty()
        } else {
            seq![(r.last().0, spec_canon(r.last().1))]
        };
        assert(render_members(r) == render_members(dl.remove(j)) + rtail);
        vstd::seq_lib::lemma_multiset_commutative(render_members(dl.remove(j)), rtail);
        assert(rtail == tail);
        assert(render_members(pairs).to_multiset() =~= render_members(r).to_multiset().add(
            rendered_of(pairs[j]),
        ));
    }
}

/// Member lists with the same bag of members render the same bag.
proof fn lemma_render_multiset_eq(
    pairs1: Seq<(Seq<char>, JsonModel)>,
    pairs2: Seq<(Seq<char>, JsonModel)>,
)
    requires
        pairs1.to_multiset() == pairs2.to_multiset(),
    ensures
        render_members(pairs1).to_multiset() == render_members(pairs2).to_multiset(),
    decreases pairs1.len(),
{
    broadcast use vstd::seq_lib::group_to_multiset_ensures;
    broadcast use vstd::multiset::group_multiset_axioms;

    if pairs1.len() == 0 {
        assert(pairs2.to_multiset().len() == 0);
        assert(pairs2.len() == 0);
    } else {
        let p = pairs1.last();
        let dl = pairs1.drop_last();
        assert(pairs1 =~= dl.push(p));
        assert(pairs1.to_multiset() == dl.to_multiset().insert(p));
        assert(pairs2.to_multiset().count(p) > 0);
        assert(pairs2.contains(p));
        let j = choose|j: int| 0 <= j < pairs2.len() && pairs2[j] == p;
        assert(pairs2.remove(j).to_multiset() == pairs2.to_multiset().remove(p));
        assert(pairs2.remove(j).to_multiset() =~= dl.to_multiset());
        lemma_render_multiset_eq(dl, pairs2.remove(j));
        lemma_render_remove(pairs1, pairs1.len() - 1);
        assert(pairs1.remove(pairs1.len() - 1) =~= dl);
        lemma_render_remove(pairs2, j);
        assert(render_members(pairs1).to_multiset() =~= render_members(pairs2).to_multiset());
    }
}

/// Every rendered member comes from a member of the list, key unchanged.
proof fn lemma_render_member_src(pairs: Seq<(Seq<char>, JsonModel)>, m: RenderedMember)
    requires
        render_members(pairs).contains(m),
    ensures
        exists|b: int|
            0 <= b < pairs.len() && !(#[trigger] pairs[b].1 is Null) && m == (
                pairs[b].0,
                spec_canon(pairs[b].1),
            ),
    decreases pairs.len(),
{
    let dl = pairs.drop_last();
    let tail = if pairs.last().1 is Null {
        Seq::<RenderedMember>::empty()
    } else {
        seq![(pairs.last().0, spec_canon(pairs.last().1))]
    };
    assert(render_members(pairs) == render_members(dl) + tail);
    let i = choose|i: int| 0 <= i < render_members(pairs).len() && render_members(pairs)[i] == m;
    if i < render_members(dl).len() {
        assert(render_members(dl)[i] == m);
        assert(render_members(dl).contains(m));
        lemma_render_member_src(dl, m);
        let b = choose|b: int|
            0 <= b < dl.len() && !(#[trigger] dl[b].1 is Null) && m == (
                dl[b].0,
                spec_canon(dl[b].1),
            );
        assert(pairs[b] == dl[b]);
        assert(0 <= b < pairs.len() && !(pairs[b].1 is Null) && m == (
            pairs[b].0,
            spec_canon(pairs[b].1),
        ));
    } else {
        let b = pairs.len() - 1;
        assert(m == tail[i - render_members(dl).len()]);
        assert(0 <= b < pairs.len() && !(pairs[b].1 is Null) && m == (
            pairs[b].0,
            spec_canon(pairs[b].1),
        ));
    }
}

/// Distinct member keys make the rendered bag key-injective.
proof fn lemma_render_key_injective(pairs: Seq<(Seq<char>, JsonModel)>)
    requires
        distinct_keys(pairs),
    ensures
        key_injective(render_members(pairs).to_multiset()),
{
    broadcast use vstd::seq_lib::group_to_multiset_ensures;

    let tm = render_members(pairs).to_multiset();
    assert forall|m1: RenderedMember, m2: RenderedMember|
        tm.count(m1) > 0 && tm.count(m2) > 0 && m1.0 == m2.0 implies m1 == m2 by {
        assert(render_members(pairs).contains(m1));
        assert(render_members(pairs).contains(m2));
        lemma_render_member_src(pairs, m1);
        lemma_render_member_src(pairs, m2);
        let b1 = choose|b: int|
            0 <= b < pairs.len() && !(#[trigger] pairs[b].1 is Null) && m1 == (
                pairs[b].0,
                spec_canon(pairs[b].1),
            );
        let b2 = choose|b: int|
            0 <= b < pairs.len() && !(#[trigger] pairs[b].1 is Null) && m2 == (
                pairs[b].0,
                spec_canon(pairs[b].1),
            );
        assert(pairs[b1].0 == pairs[b2].0);
        if b1 != b2 {
            assert(false);
        }
    }
}

/// Two key-sorted runs with the same key-injective bag are equal.
proof fn lemma_sorted_unique_by_key(x: Seq<RenderedMember>, y: Seq<RenderedMember>)
    requires
        sorted_by_key(x),
        sorted_by_key(y),
        x.to_multiset() == y.to_multiset(),
        key_injective(x.to_multiset()),
    ensures
        x == y,
    decreases x.len(),
{
    broadcast use vstd::seq_lib::group_to_multiset_ensures;
    broadcast use vstd::multiset::group_multiset_axioms;

    if x.len() == 0 {
        assert(y.to_multiset().len() == 0);
        assert(y.len() == 0);
        assert(x =~= y);
    } else {
        assert(y.len() > 0) by {
            assert(x.to_multiset().len() == x.len());
        }
        assert(x.contains(x[0]));
        assert(y.to_multiset().count(y[0]) > 0);
        assert(x.to_multiset().count(y[0]) > 0);
        assert(x.contains(y[0]));
        let i = choose|i: int| 0 <= i < x.len() && x[i] == y[0];
        assert(lex_leq(x[0].0, y[0].0)) by {
            if i > 0 {
                assert(lex_leq(x[0].0, x[i].0));
            } else {
                lemma_lex_refl(x[0].0);
            }
        }
        assert(y.to_multiset().count(x[0]) > 0);
        assert(y.contains(x[0]));
        let k = choose|k: int| 0 <= k < y.len() && y[k] == x[0];
        assert(lex_leq(y[0].0, x[0].0)) by {
            if k > 0 {
                assert(lex_leq(y[0].0, y[k].0));
            } else {
                lemma_lex_refl(y[0].0);
            }
        }
        lemma_lex_antisym(x[0].0, y[0].0);
        assert(x[0].0 == y[0].0);
        assert(x.to_multiset().count(x[0]) > 0);
        assert(x[0] == y[0]);

        let xr = x.drop_first();
        let yr = y.drop_first();
        assert(x =~= xr.insert(0, x[0]));
        assert(x.to_multiset() == xr.to_multiset().insert(x[0]));
        assert(y =~= yr.insert(0, y[0]));
        assert(y.to_multiset() == yr.to_multiset().insert(y[0]));
        assert forall|e: RenderedMember| xr.to_multiset().count(e) == yr.to_multiset().count(
            e,
        ) by {
            assert(x.to_multiset().count(e) == xr.to_multiset().count(e) + if e == x[0] {
                1int
            } else {
                0int
            });
            assert(y.to_multiset().count(e) == yr.to_multiset().count(e) + if e == y[0] {
                1int
            } else {
                0int
            });
        }
        assert(xr.to_multiset() =~= yr.to_multiset());
        assert(sorted_by_key(xr)) by {
            assert(forall|a: int, b: int|
                0 <= a < b < xr.len() ==> xr[a] == x[a + 1] && xr[b] == x[b + 1]);
        }
        assert(sorted_by_key(yr)) by {
            assert(forall|a: int, b: int|
                0 <= a < b < yr.len() ==> yr[a] == y[a + 1] && yr[b] == y[b + 1]);
        }
        assert(key_injective(xr.to_multiset())) by {
            assert forall|m1: RenderedMember, m2: RenderedMember|
                xr.to_multiset().count(m1) > 0 && xr.to_multiset().count(m2) > 0 && m1.0
                    == m2.0 implies m1 == m2 by {
                assert(x.to_multiset().count(m1) > 0);
                assert(x.to_multiset().count(m2) > 0);
            }
        }
        lemma_sorted_unique_by_key(xr, yr);
        assert(x =~= y);
    }
}

/// Equal-length element lists of the same logical values render the same
/// canonical texts.
proof fn lemma_render_items_same(x: Seq<JsonModel>, y: Seq<JsonModel>)
    requires
        x.len() == y.len(),
        forall|i: int| 0 <= i < x.len() ==> same_json(#[trigger] x[i], y[i]),
    ensures
        render_items(x) =~= render_items(y),
    decreases x, 0int,
{
    if x.len() > 0 {
        let n = x.len() - 1;
        assert(same_json(x[n], y[n]));
        lemma_render_items_same(x.drop_last(), y.drop_last());
        if x.last() is Null {
            assert(y.last() is Null);
        } else {
            assert(!(y.last() is Null));
            lemma_canon_same_json(x.last(), y.last());
        }
    }
}

/// Matched member lists with no repeated keys render the same bag of
/// member texts.
proof fn lemma_render_members_matched(
    p: Seq<(Seq<char>, JsonModel)>,
    q: Seq<(Seq<char>, JsonModel)>,
)
    requires
        distinct_keys(p),
        distinct_keys(q),
        members_matched(p, q),
    ensures
        render_members(p).to_multiset() == render_members(q).to_multiset(),
    decreases p, 0int,
{
    broadcast use vstd::seq_lib::group_to_multiset_ensures;
    broadcast use vstd::multiset::group_multiset_axioms;

    if p.len() == 0 {
        assert(q.len() == 0);
    } else {
        let n = p.len() - 1;
        let last = p[n];
        assert(member_matched_in(p[n], q));
        let j = choose|j: int|
            0 <= j < q.len() && last.0 == (#[trigger] q[j]).0 && same_json(last.1, q[j].1);
        let dl = p.drop_last();
        let qr = q.remove(j);
        assert(qr =~= q.take(j) + q.skip(j + 1));

        assert(distinct_keys(dl)) by {
            assert(forall|i: int| 0 <= i < dl.len() ==> dl[i] == p[i]);
        }
        assert(distinct_keys(qr)) by {
            assert(forall|i: int|
                0 <= i < qr.len() ==> qr[i] == (if i < j {
                    q[i]
                } else {
                    q[i + 1]
                }));
        }
        assert(members_matched(dl, qr)) by {
            assert(dl.len() == qr.len());
            assert forall|i: int| 0 <= i < dl.len() implies member_matched_in(
                #[trigger] dl[i],
                qr,
            ) by {
                assert(dl[i] == p[i]);
                assert(member_matched_in(p[i], q));
                let j1 = choose|j1: int|
                    0 <= j1 < q.len() && p[i].0 == (#[trigger] q[j1]).0 && same_json(
                        p[i].1,
                        q[j1].1,
                    );
                assert(j1 != j) by {
                    if j1 == j {
                        assert(p[i].0 == last.0);
                        assert(i < n);
                        assert(false);
                    }
                }
                if j1 < j {
                    assert(qr[j1] == q[j1]);
                    assert(0 <= j1 < qr.len() && dl[i].0 == (qr[j1]).0 && same_json(
                        dl[i].1,
                        qr[j1].1,
                    ));
                } else {
                    assert(qr[j1 - 1] == q[j1]);
                    assert(0 <= j1 - 1 < qr.len() && dl[i].0 == (qr[j1 - 1]).0 && same_json(
                        dl[i].1,
                        qr[j1 - 1].1,
                    ));
                }
            }
        }
        lemma_render_members_matched(dl, qr);

        lemma_render_remove(p, n);
        assert(p.remove(n) =~= dl);
        lemma_render_remove(q, j);

        assert(rendered_of(last) =~= rendered_of(q[j])) by {
            if last.1 is Null {
                assert(q[j].1 is Null);
            } else {
                assert(!(q[j].1 is Null));
                lemma_canon_same_json(last.1, q[j].1);
            }
        }
        assert(render_members(p).to_multiset() =~= render_members(q).to_multiset());
    }
}

/// The same logical object always has the same canonical text: equal
/// scalars, arrays equal element by element, and objects carrying the same
/// member for each key, at every depth and however every object's members
/// are ordered.
pub proof fn lemma_canon_same_json(a: JsonModel, b: JsonModel)
    requires
        same_json(a, b),
    ensures
        spec_canon(a) == spec_canon(b),
    decreases a, 1int,
{
    match a {
        JsonModel::Arr(x) => {
            let y = b->Arr_0;
            lemma_render_items_same(x, y);
            assert(render_items(x) == render_items(y));
        },
        JsonModel::Obj(p) => {
            let q = b->Obj_0;
            lemma_render_members_matched(p, q);
            lemma_sort_members_props(render_members(p));
            lemma_sort_members_props(render_members(q));
            lemma_render_key_injective(p);
            lemma_sorted_unique_by_key(
                sort_members(render_members(p)),
                sort_members(render_members(q)),
            );
        },
        _ => {},
    }
}

/// Canonicalization is key-order independent: two objects whose members are
/// the same up to order — no key repeated — have the same canonical text.
/// Shuffling an object's keys before canonicalizing changes nothing.
pub proof fn lemma_canon_key_order_independent(
    pairs1: Seq<(Seq<char>, JsonModel)>,
    pairs2: Seq<(Seq<char>, JsonModel)>,
)
    requires
        pairs1.to_multiset() == pairs2.to_multiset(),
        distinct_keys(pairs1),
        distinct_keys(pairs2),
    ensures
        spec_canon(JsonModel::Obj(pairs1)) == spec_canon(JsonModel::Obj(pairs2)),
{
    lemma_render_multiset_eq(pairs1, pairs2);
    lemma_sort_members_props(render_members(pairs1));
    lemma_sort_members_props(render_members(pairs2));
    lemma_render_key_injective(pairs1);
    lemma_sorted_unique_by_key(
        sort_members(render_members(pairs1)),
        sort_members(render_members(pairs2)),
    );
}

} // verus!
