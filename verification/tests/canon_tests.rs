use plexo_relay::canon::{canonical_string, str_lex_leq};
use plexo_relay::json::{is_lossless_number_field, JsonValue};

fn obj(pairs: Vec<(&str, JsonValue)>) -> JsonValue {
    JsonValue::Obj(pairs.into_iter().map(|(k, v)| (k.to_string(), v)).collect())
}

fn num(s: &str) -> JsonValue {
    JsonValue::Num(s.to_string())
}

fn text(s: &str) -> JsonValue {
    JsonValue::Text(s.to_string())
}

#[test]
fn scalars_render_canonically() {
    assert_eq!(canonical_string(&JsonValue::Null), "null");
    assert_eq!(canonical_string(&JsonValue::Bool(true)), "true");
    assert_eq!(canonical_string(&JsonValue::Bool(false)), "false");
    assert_eq!(canonical_string(&num("12.30")), "12.30");
    assert_eq!(canonical_string(&text("hi")), "\"hi\"");
}

#[test]
fn object_keys_are_sorted() {
    let v = obj(vec![("b", num("2")), ("a", num("1")), ("c", num("3"))]);
    assert_eq!(canonical_string(&v), "{\"a\":1,\"b\":2,\"c\":3}");
}

#[test]
fn key_order_does_not_matter() {
    let v1 = obj(vec![
        ("zeta", num("1")),
        ("alpha", text("x")),
        ("mid", JsonValue::Bool(false)),
    ]);
    let v2 = obj(vec![
        ("mid", JsonValue::Bool(false)),
        ("zeta", num("1")),
        ("alpha", text("x")),
    ]);
    assert_eq!(canonical_string(&v1), canonical_string(&v2));
}

#[test]
fn key_order_does_not_matter_at_any_depth() {
    let v1 = obj(vec![
        ("outer", obj(vec![("b", num("2")), ("a", num("1"))])),
        ("list", JsonValue::Arr(vec![obj(vec![("y", text("v")), ("x", text("u"))])])),
    ]);
    let v2 = obj(vec![
        ("list", JsonValue::Arr(vec![obj(vec![("x", text("u")), ("y", text("v"))])])),
        ("outer", obj(vec![("a", num("1")), ("b", num("2"))])),
    ]);
    assert_eq!(canonical_string(&v1), canonical_string(&v2));
}

#[test]
fn nulls_are_stripped_recursively() {
    let v = obj(vec![
        ("a", num("1")),
        ("b", JsonValue::Null),
        ("c", obj(vec![("d", JsonValue::Null), ("e", num("2"))])),
    ]);
    assert_eq!(canonical_string(&v), "{\"a\":1,\"c\":{\"e\":2}}");
}

#[test]
fn array_order_is_kept_and_nulls_dropped() {
    let v = JsonValue::Arr(vec![num("3"), JsonValue::Null, num("1"), text("z")]);
    assert_eq!(canonical_string(&v), "[3,1,\"z\"]");
}

#[test]
fn empty_object_and_array() {
    assert_eq!(canonical_string(&JsonValue::Obj(vec![])), "{}");
    assert_eq!(canonical_string(&JsonValue::Arr(vec![])), "[]");
    let v = obj(vec![("a", JsonValue::Null)]);
    assert_eq!(canonical_string(&v), "{}");
}

#[test]
fn canonicalization_is_deterministic() {
    let make = || {
        obj(vec![
            ("outer", obj(vec![("y", num("2")), ("x", num("1"))])),
            ("list", JsonValue::Arr(vec![text("a"), text("b")])),
        ])
    };
    assert_eq!(canonical_string(&make()), canonical_string(&make()));
}

#[test]
fn string_contents_pass_through_unescaped() {
    let v = text("a\"b\\c");
    assert_eq!(canonical_string(&v), "\"a\"b\\c\"");
}

#[test]
fn lexicographic_key_comparison() {
    assert!(str_lex_leq("a", "b"));
    assert!(!str_lex_leq("b", "a"));
    assert!(str_lex_leq("a", "ab"));
    assert!(str_lex_leq("abc", "abc"));
    assert!(str_lex_leq("Fingerprint", "Object"));
    assert!(str_lex_leq("Object", "UTCUnixTimeExpiration"));
}

#[test]
fn deep_clone_preserves_rendering() {
    let v = obj(vec![("k", JsonValue::Arr(vec![num("1"), text("s")]))]);
    assert_eq!(canonical_string(&v.deep_clone()), canonical_string(&v));
}

#[test]
fn cleaned_strips_nulls_and_renumbers_amounts() {
    let v = obj(vec![
        ("BilledAmount", text("12.3")),
        ("note", JsonValue::Null),
        ("TaxedAmount", text("131")),
        ("name", text("x")),
    ]);
    let c = v.cleaned();
    assert_eq!(
        canonical_string(&c),
        "{\"BilledAmount\":12.30,\"TaxedAmount\":131.0,\"name\":\"x\"}"
    );
}

#[test]
fn cleaned_keeps_unparseable_amount_text() {
    let v = obj(vec![("Amount", text("abc"))]);
    assert_eq!(canonical_string(&v.cleaned()), "{\"Amount\":\"abc\"}");
}

#[test]
fn cleaned_recurses_into_arrays() {
    let v = JsonValue::Arr(vec![
        JsonValue::Null,
        obj(vec![("a", JsonValue::Null), ("b", num("1"))]),
    ]);
    assert_eq!(canonical_string(&v.cleaned()), "[{\"b\":1}]");
}

#[test]
fn lossless_field_names() {
    assert!(is_lossless_number_field("BilledAmount"));
    assert!(is_lossless_number_field("TaxedAmount"));
    assert!(is_lossless_number_field("VATAmount"));
    assert!(is_lossless_number_field("Amount"));
    assert!(is_lossless_number_field("LoyaltyProgramAmount"));
    assert!(!is_lossless_number_field("amount"));
    assert!(!is_lossless_number_field("Other"));
}
