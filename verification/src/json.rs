//! The crate's own JSON-like value tree.
//!
//! [`JsonValue`] mirrors the untyped JSON exchanged with the payment
//! processor as plain owned data, so that the canonicalizer and the signing
//! engine can be verified over its ghost model [`JsonModel`].  Numbers are
//! kept as text, exactly as the provider's loosely typed schema sends and
//! receives them.

use vstd::prelude::*;

use crate::number::{is_plain_decimal, spec_format_number, spec_trim, LosslessNumber};

verus! {

broadcast use vstd::std_specs::vec::group_vec_axioms;

/// An owned JSON-like value: object members and array elements are held in
/// order, and a number is held as its exact source text.
#[derive(Debug)]
pub enum JsonValue {
    Null,
    Bool(bool),
    Num(String),
    Text(String),
    Arr(Vec<JsonValue>),
    Obj(Vec<(String, JsonValue)>),
}

/// The ghost shape of a [`JsonValue`].
#[verifier::ext_equal]
pub enum JsonModel {
    Null,
    Bool(bool),
    Num(Seq<char>),
    Text(Seq<char>),
    Arr(Seq<JsonModel>),
    Obj(Seq<(Seq<char>, JsonModel)>),
}

/// Ghost shape of a sequence of array elements.
pub open spec fn model_items(items: Seq<JsonValue>) -> Seq<JsonModel>
    decreases items,
{
    if items.len() == 0 {
        Seq::empty()
    } else {
        model_items(items.drop_last()) + seq![json_model(items.last())]
    }
}

/// Ghost shape of a sequence of object members.
pub open spec fn model_pairs(pairs: Seq<(String, JsonValue)>) -> Seq<(Seq<char>, JsonModel)>
    decreases pairs,
{
    if pairs.len() == 0 {
        Seq::empty()
    } else {
        model_pairs(pairs.drop_last()) + seq![
            (pairs.last().0@, json_model(pairs.last().1)),
        ]
    }
}

/// Ghost shape of a value.
pub open spec fn json_model(v: JsonValue) -> JsonModel
    decreases v,
{
    match v {
        JsonValue::Null => JsonModel::Null,
        JsonValue::Bool(b) => JsonModel::Bool(b),
        JsonValue::Num(s) => JsonModel::Num(s@),
        JsonValue::Text(s) => JsonModel::Text(s@),
        JsonValue::Arr(items) => JsonModel::Arr(model_items(items@)),
        JsonValue::Obj(pairs) => JsonModel::Obj(model_pairs(pairs@)),
    }
}

impl View for JsonValue {
    type V = JsonModel;

    open spec fn view(&self) -> JsonModel {
        json_model(*self)
    }
}

/// The member names whose textual values carry monetary amounts and are
/// renumbered by [`JsonValue::cleaned`].
pub open spec fn is_lossless_field(k: Seq<char>) -> bool {
    ||| k == "BilledAmount"@
    ||| k == "TaxedAmount"@
    ||| k == "VATAmount"@
    ||| k == "Amount"@
    ||| k == "LoyaltyProgramAmount"@
}

/// The cleaned form of the member value `v` under the member name `k`: a
/// monetary text field that holds a plain decimal becomes a number in the
/// provider's fixed-point form; anything else is cleaned recursively.
pub open spec fn clean_member(k: Seq<char>, v: JsonModel) -> JsonModel
    decreases v, 1int,
{
    if is_lossless_field(k) && v is Text && is_plain_decimal(spec_trim(v->Text_0)) {
        JsonModel::Num(spec_format_number(v->Text_0))
    } else {
        spec_clean(v)
    }
}

/// Array elements after cleaning: nulls dropped, the rest cleaned.
pub open spec fn clean_items(items: Seq<JsonModel>) -> Seq<JsonModel>
    decreases items, 0int,
{
    if items.len() == 0 {
        Seq::empty()
    } else {
        clean_items(items.drop_last()) + if items.last() is Null {
            Seq::empty()
        } else {
            seq![spec_clean(items.last())]
        }
    }
}

/// Object members after cleaning: null-valued members dropped, the rest
/// cleaned member-wise.
pub open spec fn clean_pairs(pairs: Seq<(Seq<char>, JsonModel)>) -> Seq<(Seq<char>, JsonModel)>
    decreases pairs, 0int,
{
    if pairs.len() == 0 {
        Seq::empty()
    } else {
        clean_pairs(pairs.drop_last()) + if pairs.last().1 is Null {
            Seq::empty()
        } else {
            seq![(pairs.last().0, clean_member(pairs.last().0, pairs.last().1))]
        }
    }
}

/// Recursively removes null members and null array elements and renumbers
/// monetary text fields.
pub open spec fn spec_clean(v: JsonModel) -> JsonModel
    decreases v, 0int,
{
    match v {
        JsonModel::Arr(items) => JsonModel::Arr(clean_items(items)),
        JsonModel::Obj(pairs) => JsonModel::Obj(clean_pairs(pairs)),
        _ => v,
    }
}

/// Reports whether the member name `k` carries a monetary amount.
pub fn is_lossless_number_field(field_name: &str) -> (r: bool)
    ensures
        r == is_lossless_field(field_name@),
{
    crate::text::str_eq(field_name, "BilledAmount") || crate::text::str_eq(
        field_name,
        "TaxedAmount",
    ) || crate::text::str_eq(field_name, "VATAmount") || crate::text::str_eq(field_name, "Amount")
        || crate::text::str_eq(field_name, "LoyaltyProgramAmount")
}

impl JsonValue {
    /// Structural copy; the copy has the same ghost shape.
    #[verifier::loop_isolation(false)]
    pub fn deep_clone(&self) -> (r: JsonValue)
        ensures
            r@ == self@,
        decreases self,
    {
        match self {
            JsonValue::Null => JsonValue::Null,
            JsonValue::Bool(b) => JsonValue::Bool(*b),
            JsonValue::Num(s) => JsonValue::Num(s.clone()),
            JsonValue::Text(s) => JsonValue::Text(s.clone()),
            JsonValue::Arr(items) => {
                let mut out: Vec<JsonValue> = Vec::new();
                let n: usize = items.len();
                let mut i: usize = 0;
                while i < n
                    invariant
                        i <= n == items@.len(),
                        model_items(out@) =~= model_items(items@.take(i as int)),
                        out@.len() == i,
                    decreases n - i,
                {
                    proof {
                        assert(decreases_to!(*self => self->Arr_0));
                        assert(self->Arr_0 == *items);
                        assert(decreases_to!(*items => items@));
                        assert(decreases_to!(items@ => items@[i as int]));
                    }
                    let ghost prev = out@;
                    let c = items[i].deep_clone();
                    out.push(c);
                    proof {
                        assert(out@.drop_last() =~= prev);
                        assert(items@.take(i + 1).drop_last() =~= items@.take(i as int));
                        assert(items@.take(i + 1).last() == items@[i as int]);
                        assert(model_items(out@) =~= model_items(items@.take(i + 1)));
                    }
                    i = i + 1;
                }
                proof {
                    assert(items@.take(n as int) =~= items@);
                }
                JsonValue::Arr(out)
            },
            JsonValue::Obj(pairs) => {
                let mut out: Vec<(String, JsonValue)> = Vec::new();
                let n: usize = pairs.len();
                let mut i: usize = 0;
                while i < n
                    invariant
                        i <= n == pairs@.len(),
                        model_pairs(out@) =~= model_pairs(pairs@.take(i as int)),
                        out@.len() == i,
                    decreases n - i,
                {
                    proof {
                        assert(decreases_to!(*self => self->Obj_0));
                        assert(self->Obj_0 == *pairs);
                        assert(decreases_to!(*pairs => pairs@));
                        assert(decreases_to!(pairs@ => pairs@[i as int]));
                        assert(decreases_to!(pairs@[i as int] => pairs@[i as int].1));
                    }
                    let ghost prev = out@;
                    let k = pairs[i].0.clone();
                    let v = pairs[i].1.deep_clone();
                    out.push((k, v));
                    proof {
                        assert(out@.drop_last() =~= prev);
                        assert(pairs@.take(i + 1).drop_last() =~= pairs@.take(i as int));
                        assert(pairs@.take(i + 1).last() == pairs@[i as int]);
                        assert(model_pairs(out@) =~= model_pairs(pairs@.take(i + 1)));
                    }
                    i = i + 1;
                }
                proof {
                    assert(pairs@.take(n as int) =~= pairs@);
                }
                JsonValue::Obj(out)
            },
        }
    }

    /// Returns this value with null members and null array elements removed
    /// recursively and monetary text fields turned into fixed-point numbers;
    /// see [`spec_clean`].
    #[verifier::loop_isolation(false)]
    pub fn cleaned(&self) -> (r: JsonValue)
        ensures
            r@ == spec_clean(self@),
        decreases self, 0int,
    {
        match self {
            JsonValue::Null => JsonValue::Null,
            JsonValue::Bool(b) => JsonValue::Bool(*b),
            JsonValue::Num(s) => JsonValue::Num(s.clone()),
            JsonValue::Text(s) => JsonValue::Text(s.clone()),
            JsonValue::Arr(items) => {
                let mut out: Vec<JsonValue> = Vec::new();
                let n: usize = items.len();
                let mut i: usize = 0;
                while i < n
                    invariant
                        i <= n == items@.len(),
                        model_items(out@) =~= clean_items(model_items(items@.take(i as int))),
                    decreases n - i,
                {
                    let item = &items[i];
                    proof {
                        assert(decreases_to!(*self => self->Arr_0));
                        assert(self->Arr_0 == *items);
                        assert(decreases_to!(*items => items@));
                        assert(decreases_to!(items@ => items@[i as int]));
                    }
                    let ghost prev = out@;
                    match item {
                        JsonValue::Null => {},
                        _ => {
                            let c = item.cleaned();
                            out.push(c);
                            proof {
                                assert(out@.drop_last() =~= prev);
                                assert(out@.last()@ == spec_clean(items@[i as int]@));
                            }
                        },
                    }
                    proof {
                        let m = model_items(items@.take(i + 1));
                        assert(items@.take(i + 1).drop_last() =~= items@.take(i as int));
                        assert(items@.take(i + 1).last() == items@[i as int]);
                        assert(m =~= model_items(items@.take(i as int)) + seq![
                            json_model(items@[i as int]),
                        ]);
                        assert(m.drop_last() =~= model_items(items@.take(i as int)));
                        assert(model_items(out@) =~= clean_items(m));
                    }
                    i = i + 1;
                }
                proof {
                    assert(items@.take(n as int) =~= items@);
                }
                JsonValue::Arr(out)
            },
            JsonValue::Obj(pairs) => {
                let mut out: Vec<(String, JsonValue)> = Vec::new();
                let n: usize = pairs.len();
                let mut i: usize = 0;
                while i < n
                    invariant
                        i <= n == pairs@.len(),
                        model_pairs(out@) =~= clean_pairs(model_pairs(pairs@.take(i as int))),
                    decreases n - i,
                {
                    let k = &pairs[i].0;
                    let v = &pairs[i].1;
                    proof {
                        assert(decreases_to!(*self => self->Obj_0));
                        assert(self->Obj_0 == *pairs);
                        assert(decreases_to!(*pairs => pairs@));
                        assert(decreases_to!(pairs@ => pairs@[i as int]));
                        assert(decreases_to!(pairs@[i as int] => pairs@[i as int].1));
                    }
                    let ghost prev = out@;
                    match v {
                        JsonValue::Null => {},
                        _ => {
                            let cv = clean_value_for_member(k.as_str(), v);
                            out.push((k.clone(), cv));
                            proof {
                                assert(out@.drop_last() =~= prev);
                            }
                        },
                    }
                    proof {
                        let m = model_pairs(pairs@.take(i + 1));
                        assert(pairs@.take(i + 1).drop_last() =~= pairs@.take(i as int));
                        assert(pairs@.take(i + 1).last() == pairs@[i as int]);
                        assert(m =~= model_pairs(pairs@.take(i as int)) + seq![
                            (pairs@[i as int].0@, json_model(pairs@[i as int].1)),
                        ]);
                        assert(m.drop_last() =~= model_pairs(pairs@.take(i as int)));
                        assert(model_pairs(out@) =~= clean_pairs(m));
                    }
                    i = i + 1;
                }
                proof {
                    assert(pairs@.take(n as int) =~= pairs@);
                }
                JsonValue::Obj(out)
            },
        }
    }
}

/// Replaces a value by its cleaned form in place; see [`spec_clean`].
pub fn clean_nulls(value: &mut JsonValue)
    ensures
        final(value)@ == spec_clean(old(value)@),
{
    let c = value.cleaned();
    *value = c;
}

/// Cleans one non-null object member value under its member name; see
/// [`clean_member`].
fn clean_value_for_member(k: &str, v: &JsonValue) -> (r: JsonValue)
    ensures
        r@ == clean_member(k@, v@),
    decreases v, 1int,
{
    let lossless = is_lossless_number_field(k);
    match v {
        JsonValue::Text(s) => {
            if lossless && crate::number::is_plain_number(s.as_str()) {
                let num = LosslessNumber::new(s.clone());
                JsonValue::Num(num.format_for_json())
            } else {
                v.cleaned()
            }
        },
        _ => v.cleaned(),
    }
}

} // verus!
