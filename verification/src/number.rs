//! Monetary number formatting.
//!
//! A [`LosslessNumber`] keeps the textual form of a monetary amount exactly
//! as it was received and only normalizes it when it is rendered for the
//! provider's schema: whole numbers gain a single `.0`, fractional numbers
//! are printed with exactly two decimal digits, and extra decimal digits are
//! truncated, never rounded.  Text that is not a plain decimal number is
//! repaired at the text level instead, and the formatter never fails.

use vstd::prelude::*;

use crate::text::{digit_char, is_digit, is_ws, str_chars, ws_char};

verus! {

/// A decimal amount kept losslessly as text until formatting time.
#[derive(Debug, Clone)]
pub struct LosslessNumber(pub String);

/// Characters of `s` with leading ASCII whitespace removed.
pub open spec fn trim_front(s: Seq<char>) -> Seq<char>
    decreases s.len(),
{
    if s.len() > 0 && is_ws(s[0]) {
        trim_front(s.drop_first())
    } else {
        s
    }
}

/// Characters of `s` with trailing ASCII whitespace removed.
pub open spec fn trim_back(s: Seq<char>) -> Seq<char>
    decreases s.len(),
{
    if s.len() > 0 && is_ws(s[s.len() - 1]) {
        trim_back(s.drop_last())
    } else {
        s
    }
}

/// Characters of `s` with whitespace removed from both ends.
pub open spec fn spec_trim(s: Seq<char>) -> Seq<char> {
    trim_back(trim_front(s))
}

/// Index of the first `.` at or after `i`, or `s.len()` when there is none.
pub open spec fn find_dot(s: Seq<char>, i: int) -> int
    decreases s.len() - i,
{
    if i < 0 || i >= s.len() {
        s.len() as int
    } else if s[i] == '.' {
        i
    } else {
        find_dot(s, i + 1)
    }
}

/// Number of `.` characters in `s`.
pub open spec fn dot_count(s: Seq<char>) -> nat
    decreases s.len(),
{
    if s.len() == 0 {
        0
    } else {
        dot_count(s.drop_last()) + if s[s.len() - 1] == '.' {
            1nat
        } else {
            0nat
        }
    }
}

/// Length of the sign prefix of `t`: one when `t` starts with `+` or `-`.
pub open spec fn sign_len(t: Seq<char>) -> int {
    if t.len() > 0 && (t[0] == '+' || t[0] == '-') {
        1
    } else {
        0
    }
}

/// Whether trimmed text `t` is a plain decimal number: an optional sign,
/// digits, at most one decimal point, and at least one digit overall.
pub open spec fn is_plain_decimal(t: Seq<char>) -> bool {
    let b = t.skip(sign_len(t));
    let d = find_dot(b, 0);
    &&& forall|i: int| 0 <= i < b.len() && i != d ==> is_digit(#[trigger] b[i])
    &&& b.len() > 0
    &&& b.len() > 1 || d == b.len()
}

/// Digits of `s` with leading zeros removed.
pub open spec fn strip_zeros(s: Seq<char>) -> Seq<char>
    decreases s.len(),
{
    if s.len() > 0 && s[0] == '0' {
        strip_zeros(s.drop_first())
    } else {
        s
    }
}

/// The integer digits to print: leading zeros dropped, an all-zero or empty
/// integer part printed as a single `0`.
pub open spec fn norm_int_digits(ip: Seq<char>) -> Seq<char> {
    if strip_zeros(ip).len() == 0 {
        seq!['0']
    } else {
        strip_zeros(ip)
    }
}

/// Whether every character of `s` is the digit `0`.
pub open spec fn all_zeros(s: Seq<char>) -> bool {
    forall|i: int| 0 <= i < s.len() ==> #[trigger] s[i] == '0'
}

/// Normalized form of a plain decimal `t`: `<int>.0` when the fractional
/// part is absent or all zeros, and exactly two (truncated or zero-padded)
/// fractional digits otherwise.  A leading `-` is kept, a leading `+`
/// dropped.
pub open spec fn format_decimal(t: Seq<char>) -> Seq<char> {
    let b = t.skip(sign_len(t));
    let d = find_dot(b, 0);
    let ip = b.take(d);
    let fp = if d < b.len() {
        b.skip(d + 1)
    } else {
        Seq::<char>::empty()
    };
    let sign = if t.len() > 0 && t[0] == '-' {
        seq!['-']
    } else {
        Seq::<char>::empty()
    };
    if all_zeros(fp) {
        sign + norm_int_digits(ip) + seq!['.', '0']
    } else if fp.len() == 1 {
        sign + norm_int_digits(ip) + seq!['.'] + fp + seq!['0']
    } else {
        sign + norm_int_digits(ip) + seq!['.'] + fp.take(2)
    }
}

/// Best-effort repair of trimmed text `t` that is not a plain decimal:
/// with exactly one decimal point, a single fractional character is padded
/// with `0` and more than two are truncated to two; with no decimal point,
/// `.0` is appended; anything else is returned unchanged.
pub open spec fn repair_text(t: Seq<char>) -> Seq<char> {
    let d = find_dot(t, 0);
    if dot_count(t) == 1 {
        let fplen = t.len() - d - 1;
        if fplen == 1 {
            t + seq!['0']
        } else if fplen > 2 {
            t.take(d + 3)
        } else {
            t
        }
    } else if dot_count(t) == 0 {
        t + seq!['.', '0']
    } else {
        t
    }
}

/// The provider-facing rendering of the raw amount text `s`.
pub open spec fn spec_format_number(s: Seq<char>) -> Seq<char> {
    let t = spec_trim(s);
    if is_plain_decimal(t) {
        format_decimal(t)
    } else {
        repair_text(t)
    }
}

/// `trim_front` keeps exactly the suffix that starts at the first
/// non-whitespace character.
proof fn lemma_trim_front_index(s: Seq<char>, k: int)
    requires
        0 <= k <= s.len(),
        forall|j: int| 0 <= j < k ==> is_ws(#[trigger] s[j]),
        k < s.len() ==> !is_ws(s[k]),
    ensures
        trim_front(s) =~= s.subrange(k, s.len() as int),
    decreases s.len(),
{
    if k == 0 {
        if s.len() > 0 && is_ws(s[0]) {
            assert(false);
        }
        assert(trim_front(s) =~= s.subrange(0, s.len() as int));
    } else {
        assert(is_ws(s[0]));
        let rest = s.drop_first();
        lemma_trim_front_index(rest, k - 1);
        assert(rest.subrange(k - 1, rest.len() as int) =~= s.subrange(k, s.len() as int));
    }
}

/// `trim_back` keeps exactly the prefix that ends after the last
/// non-whitespace character.
proof fn lemma_trim_back_index(s: Seq<char>, k: int)
    requires
        0 <= k <= s.len(),
        forall|j: int| k <= j < s.len() ==> is_ws(#[trigger] s[j]),
        k > 0 ==> !is_ws(s[k - 1]),
    ensures
        trim_back(s) =~= s.subrange(0, k),
    decreases s.len(),
{
    if k == s.len() {
        if s.len() > 0 && is_ws(s[s.len() - 1]) {
            assert(false);
        }
        assert(trim_back(s) =~= s.subrange(0, k));
    } else {
        assert(is_ws(s[s.len() - 1]));
        let rest = s.drop_last();
        lemma_trim_back_index(rest, k);
        assert(rest.subrange(0, k) =~= s.subrange(0, k));
    }
}

/// `find_dot` names the first dot: everything before it differs from `.`,
/// and the index holds a dot when it is in range.
proof fn lemma_find_dot(s: Seq<char>, i: int)
    requires
        0 <= i <= s.len(),
    ensures
        i <= find_dot(s, i) <= s.len(),
        forall|j: int| i <= j < find_dot(s, i) ==> #[trigger] s[j] != '.',
        find_dot(s, i) < s.len() ==> s[find_dot(s, i)] == '.',
    decreases s.len() - i,
{
    if i < s.len() && s[i] != '.' {
        lemma_find_dot(s, i + 1);
    }
}

/// A sequence with no dot after `i` has its first dot at the end; one whose
/// first dot from `i` is at `d` with no further dot has `dot_count` telling
/// the same story on the suffix.
proof fn lemma_dot_count_zero(s: Seq<char>)
    requires
        forall|j: int| 0 <= j < s.len() ==> #[trigger] s[j] != '.',
    ensures
        dot_count(s) == 0,
    decreases s.len(),
{
    if s.len() > 0 {
        lemma_dot_count_zero(s.drop_last());
    }
}

/// `dot_count` of a sequence with exactly one dot position.
proof fn lemma_dot_count_one(s: Seq<char>, d: int)
    requires
        0 <= d < s.len(),
        s[d] == '.',
        forall|j: int| 0 <= j < s.len() && j != d ==> #[trigger] s[j] != '.',
    ensures
        dot_count(s) == 1,
    decreases s.len(),
{
    if d == s.len() - 1 {
        lemma_dot_count_zero(s.drop_last());
    } else {
        lemma_dot_count_one(s.drop_last(), d);
    }
}

/// `dot_count` is positive when some position holds a dot.
proof fn lemma_dot_count_pos(s: Seq<char>, d: int)
    requires
        0 <= d < s.len(),
        s[d] == '.',
    ensures
        dot_count(s) >= 1,
    decreases s.len(),
{
    if d == s.len() - 1 {
    } else {
        lemma_dot_count_pos(s.drop_last(), d);
    }
}

/// `strip_zeros` keeps exactly the suffix that starts at the first
/// non-zero character.
proof fn lemma_strip_zeros_index(s: Seq<char>, k: int)
    requires
        0 <= k <= s.len(),
        forall|j: int| 0 <= j < k ==> #[trigger] s[j] == '0',
        k < s.len() ==> s[k] != '0',
    ensures
        strip_zeros(s) =~= s.subrange(k, s.len() as int),
    decreases s.len(),
{
    if k == 0 {
        assert(strip_zeros(s) =~= s.subrange(0, s.len() as int));
    } else {
        let rest = s.drop_first();
        lemma_strip_zeros_index(rest, k - 1);
        assert(rest.subrange(k - 1, rest.len() as int) =~= s.subrange(k, s.len() as int));
    }
}

/// Bounds of the whitespace-trimmed middle of `chars`.
fn trim_range(chars: &Vec<char>) -> (r: (usize, usize))
    ensures
        r.0 <= r.1 <= chars@.len(),
        spec_trim(chars@) == chars@.subrange(r.0 as int, r.1 as int),
{
    let n: usize = chars.len();
    let mut lo: usize = 0;
    while lo < n && ws_char(chars[lo])
        invariant
            lo <= n == chars@.len(),
            forall|j: int| 0 <= j < lo ==> is_ws(#[trigger] chars@[j]),
        decreases n - lo,
    {
        lo = lo + 1;
    }
    let mut hi: usize = n;
    while hi > lo && ws_char(chars[hi - 1])
        invariant
            lo <= hi <= n == chars@.len(),
            lo < n ==> !is_ws(chars@[lo as int]),
            forall|j: int| hi <= j < n ==> is_ws(#[trigger] chars@[j]),
        decreases hi,
    {
        hi = hi - 1;
    }
    proof {
        lemma_trim_front_index(chars@, lo as int);
        let front = chars@.subrange(lo as int, n as int);
        lemma_trim_back_index(front, hi - lo);
        assert(front.subrange(0, hi - lo) =~= chars@.subrange(lo as int, hi as int));
    }
    (lo, hi)
}

/// Absolute index of the first `.` in `chars[from..to]`, or `to`.
fn first_dot_in(chars: &Vec<char>, from: usize, to: usize) -> (dot: usize)
    requires
        from <= to <= chars@.len(),
    ensures
        from <= dot <= to,
        dot - from == find_dot(chars@.subrange(from as int, to as int), 0),
{
    let ghost part = chars@.subrange(from as int, to as int);
    let mut dot: usize = to;
    let mut i: usize = from;
    while i < to
        invariant
            from <= i <= to <= chars@.len(),
            from <= dot,
            dot < i ==> dot < to && chars@[dot as int] == '.',
            dot >= i ==> dot == to,
            forall|j: int| from <= j < i && j < dot ==> #[trigger] chars@[j] != '.',
        decreases to - i,
    {
        if chars[i] == '.' {
            if dot == to {
                dot = i;
            }
        }
        i = i + 1;
    }
    proof {
        lemma_find_dot(part, 0);
        let d = find_dot(part, 0);
        if dot < to {
            assert(part[dot - from] == '.');
            assert(forall|j: int| 0 <= j < dot - from ==> #[trigger] part[j] != '.');
            if d < dot - from {
                assert(part[d] == '.');
                assert(false);
            }
            if d > dot - from {
                assert(part[dot - from] != '.');
                assert(false);
            }
        } else {
            assert(forall|j: int| 0 <= j < part.len() ==> #[trigger] part[j] != '.');
            if d < part.len() {
                assert(part[d] == '.');
                assert(false);
            }
        }
    }
    dot
}

/// Whether every character of `chars[from..to]` other than the one at the
/// absolute index `skip` is a decimal digit.
fn digits_in_range(chars: &Vec<char>, from: usize, to: usize, skip: usize) -> (ok: bool)
    requires
        from <= to <= chars@.len(),
        from <= skip,
    ensures
        ok <==> (forall|j: int|
            0 <= j < to - from && j != skip - from ==> is_digit(
                #[trigger] chars@.subrange(from as int, to as int)[j],
            )),
{
    let ghost part = chars@.subrange(from as int, to as int);
    let mut ok: bool = true;
    let mut i: usize = from;
    while i < to
        invariant
            from <= i <= to <= chars@.len(),
            from <= skip,
            part == chars@.subrange(from as int, to as int),
            ok <==> (forall|j: int|
                from <= j < i && j != skip ==> is_digit(#[trigger] chars@[j])),
        decreases to - i,
    {
        if i != skip && !digit_char(chars[i]) {
            ok = false;
            assert(!is_digit(chars@[i as int]));
        }
        i = i + 1;
    }
    proof {
        if ok {
            assert forall|j: int| 0 <= j < part.len() && j != skip - from implies is_digit(
                #[trigger] part[j],
            ) by {
                assert(part[j] == chars@[from + j]);
                assert(from + j != skip);
            }
        } else {
            let w = choose|j: int|
                !(from as int <= j < to as int && j != skip ==> is_digit(#[trigger] chars@[j]));
            assert(from <= w < to as int && w != skip && !is_digit(chars@[w]));
            assert(part[w - from] == chars@[w]);
        }
    }
    ok
}

/// Absolute index where the run of `0` characters starting at `from` ends,
/// bounded by `to`.
fn zeros_prefix_end(chars: &Vec<char>, from: usize, to: usize) -> (z: usize)
    requires
        from <= to <= chars@.len(),
    ensures
        from <= z <= to,
        forall|j: int| from <= j < z ==> #[trigger] chars@[j] == '0',
        z < to ==> chars@[z as int] != '0',
{
    let mut z: usize = from;
    while z < to && chars[z] == '0'
        invariant
            from <= z <= to <= chars@.len(),
            forall|j: int| from <= j < z ==> #[trigger] chars@[j] == '0',
        decreases to - z,
    {
        z = z + 1;
    }
    z
}

/// Whether `chars[from..to]` consists entirely of `0` characters.
fn zeros_in_range(chars: &Vec<char>, from: usize, to: usize) -> (r: bool)
    requires
        from <= to <= chars@.len(),
    ensures
        r == all_zeros(chars@.subrange(from as int, to as int)),
{
    let ghost part = chars@.subrange(from as int, to as int);
    let mut r: bool = true;
    let mut i: usize = from;
    while i < to
        invariant
            from <= i <= to <= chars@.len(),
            part == chars@.subrange(from as int, to as int),
            r <==> (forall|j: int| from <= j < i ==> #[trigger] chars@[j] == '0'),
        decreases to - i,
    {
        if chars[i] != '0' {
            r = false;
            assert(chars@[i as int] != '0');
        }
        i = i + 1;
    }
    proof {
        if r {
            assert forall|j: int| 0 <= j < part.len() implies #[trigger] part[j] == '0' by {
                assert(part[j] == chars@[from + j]);
            }
        } else {
            let w = choose|j: int| !(from as int <= j < to as int ==> #[trigger] chars@[j] == '0');
            assert(from <= w < to as int && chars@[w] != '0');
            assert(part[w - from] == chars@[w]);
        }
    }
    r
}

/// Number of `.` characters in `chars[from..to]`.
fn dots_in_range(chars: &Vec<char>, from: usize, to: usize) -> (r: usize)
    requires
        from <= to <= chars@.len(),
    ensures
        r == dot_count(chars@.subrange(from as int, to as int)),
{
    let mut r: usize = 0;
    let mut i: usize = from;
    while i < to
        invariant
            from <= i <= to <= chars@.len(),
            r <= i - from,
            r == dot_count(chars@.subrange(from as int, i as int)),
        decreases to - i,
    {
        proof {
            assert(chars@.subrange(from as int, i + 1).drop_last() =~= chars@.subrange(
                from as int,
                i as int,
            ));
            assert(chars@.subrange(from as int, i + 1).last() == chars@[i as int]);
        }
        if chars[i] == '.' {
            r = r + 1;
        }
        i = i + 1;
    }
    r
}

/// Renders the plain decimal held in `src[lo..hi]` (character indices) in
/// its normalized fixed-point form.
#[verifier::rlimit(100)]
fn render_plain(src: &str, chars: &Vec<char>, lo: usize, hi: usize) -> (r: String)
    requires
        chars@ == src@,
        lo <= hi <= chars@.len(),
        is_plain_decimal(chars@.subrange(lo as int, hi as int)),
    ensures
        r@ == format_decimal(chars@.subrange(lo as int, hi as int)),
{
    let ghost full = chars@;
    let ghost t = full.subrange(lo as int, hi as int);
    let tlen: usize = hi - lo;
    assert(tlen > 0) by {
        assert(t.skip(sign_len(t)).len() > 0);
    }
    let has_sign: bool = chars[lo] == '+' || chars[lo] == '-';
    let neg: bool = chars[lo] == '-';
    let slen: usize = if has_sign {
        1
    } else {
        0
    };
    assert(slen == sign_len(t)) by {
        assert(t[0] == full[lo as int]);
    }
    let blo: usize = lo + slen;
    let ghost b = t.skip(sign_len(t));
    assert(b =~= full.subrange(blo as int, hi as int));
    assert(blo <= hi);

    let dot: usize = first_dot_in(chars, blo, hi);
    let ghost d = find_dot(b, 0);
    assert(dot - blo == d);
    proof {
        lemma_find_dot(b, 0);
    }

    // Integer digits with leading zeros skipped.
    let z: usize = zeros_prefix_end(chars, blo, dot);
    let ghost ip = b.take(d);
    proof {
        assert(ip =~= full.subrange(blo as int, dot as int));
        lemma_strip_zeros_index(ip, z - blo);
        assert(ip.subrange(z - blo, ip.len() as int) =~= full.subrange(z as int, dot as int));
    }

    // Fractional digits.
    let fstart: usize = if dot < hi {
        dot + 1
    } else {
        hi
    };
    let fz: bool = zeros_in_range(chars, fstart, hi);
    let ghost fp = if d < b.len() {
        b.skip(d + 1)
    } else {
        Seq::<char>::empty()
    };
    proof {
        if d < b.len() {
            assert(fp =~= full.subrange(fstart as int, hi as int));
        } else {
            assert(fp =~= full.subrange(fstart as int, hi as int));
        }
    }
    assert(fz == all_zeros(fp));

    let mut out = String::new();
    proof {
        reveal_strlit("-");
        reveal_strlit("0");
        reveal_strlit(".");
        reveal_strlit(".0");
    }
    if neg {
        out.append("-");
    }
    assert(out@ =~= (if t.len() > 0 && t[0] == '-' {
        seq!['-']
    } else {
        Seq::<char>::empty()
    })) by {
        assert(t[0] == full[lo as int]);
    }
    if z == dot {
        out.append("0");
    } else {
        let digits = src.substring_char(z, dot);
        out.append(digits);
    }
    assert(out@ =~= (if t.len() > 0 && t[0] == '-' {
        seq!['-']
    } else {
        Seq::<char>::empty()
    }) + norm_int_digits(ip));
    if fz {
        out.append(".0");
        assert(out@ =~= format_decimal(t));
    } else {
        out.append(".");
        let flen: usize = hi - fstart;
        assert(flen == fp.len());
        assert(flen > 0);
        if flen == 1 {
            let fr = src.substring_char(fstart, hi);
            out.append(fr);
            out.append("0");
            assert(out@ =~= format_decimal(t));
        } else {
            let fr = src.substring_char(fstart, fstart + 2);
            out.append(fr);
            assert(out@ =~= format_decimal(t)) by {
                assert(fp.take(2) =~= full.subrange(fstart as int, fstart + 2));
            }
        }
    }
    out
}

/// Applies the text-level repair to `src[lo..hi]` (character indices).
#[verifier::rlimit(100)]
fn render_repair(src: &str, chars: &Vec<char>, lo: usize, hi: usize) -> (r: String)
    requires
        chars@ == src@,
        lo <= hi <= chars@.len(),
    ensures
        r@ == repair_text(chars@.subrange(lo as int, hi as int)),
{
    let ghost full = chars@;
    let ghost t = full.subrange(lo as int, hi as int);
    let dots: usize = dots_in_range(chars, lo, hi);
    let tdot: usize = first_dot_in(chars, lo, hi);
    let ghost td = find_dot(t, 0);
    assert(tdot - lo == td);
    proof {
        lemma_find_dot(t, 0);
    }
    let mut out = String::new();
    proof {
        reveal_strlit("0");
        reveal_strlit(".0");
    }
    if dots == 1 {
        assert(tdot < hi) by {
            if tdot == hi {
                assert(forall|j: int| 0 <= j < t.len() ==> #[trigger] t[j] != '.');
                lemma_dot_count_zero(t);
            }
        }
        let fplen: usize = hi - tdot - 1;
        if fplen == 1 {
            let base = src.substring_char(lo, hi);
            out.append(base);
            out.append("0");
            assert(out@ =~= repair_text(t));
        } else if fplen > 2 {
            let base = src.substring_char(lo, tdot + 3);
            out.append(base);
            assert(out@ =~= repair_text(t)) by {
                assert(t.take(td + 3) =~= full.subrange(lo as int, tdot + 3));
            }
        } else {
            let base = src.substring_char(lo, hi);
            out.append(base);
            assert(out@ =~= repair_text(t));
        }
    } else if dots == 0 {
        let base = src.substring_char(lo, hi);
        out.append(base);
        out.append(".0");
        assert(out@ =~= repair_text(t));
    } else {
        let base = src.substring_char(lo, hi);
        out.append(base);
        assert(out@ =~= repair_text(t));
    }
    out
}

/// Reports whether `s`, once trimmed, is a plain decimal number, the form
/// that [`LosslessNumber::format_for_json`] normalizes arithmetically.
pub fn is_plain_number(s: &str) -> (r: bool)
    ensures
        r == is_plain_decimal(spec_trim(s@)),
{
    let chars: Vec<char> = str_chars(s);
    let ghost full = s@;
    let bounds = trim_range(&chars);
    let lo: usize = bounds.0;
    let hi: usize = bounds.1;
    let ghost t = full.subrange(lo as int, hi as int);
    let tlen: usize = hi - lo;
    let has_sign: bool = tlen > 0 && (chars[lo] == '+' || chars[lo] == '-');
    let slen: usize = if has_sign {
        1
    } else {
        0
    };
    assert(slen == sign_len(t)) by {
        if tlen > 0 {
            assert(t[0] == full[lo as int]);
        }
    }
    let blo: usize = lo + slen;
    let ghost b = t.skip(sign_len(t));
    assert(b =~= full.subrange(blo as int, hi as int));
    let dot: usize = first_dot_in(&chars, blo, hi);
    let ghost d = find_dot(b, 0);
    assert(dot - blo == d);
    let digits_ok: bool = digits_in_range(&chars, blo, hi, dot);
    let plain: bool = digits_ok && tlen > slen && (tlen > slen + 1 || dot == hi);
    assert(plain == is_plain_decimal(t)) by {
        assert(b.len() == tlen - slen);
        assert(b == full.subrange(blo as int, hi as int));
    }
    plain
}

impl LosslessNumber {
    /// Wraps raw amount text.
    pub fn new(value: String) -> (r: LosslessNumber)
        ensures
            r.0@ == value@,
    {
        LosslessNumber(value)
    }

    /// Renders the amount for the provider's schema; see
    /// [`spec_format_number`] for the exact rules.
    #[verifier::rlimit(100)]
    pub fn format_for_json(&self) -> (r: String)
        ensures
            r@ == spec_format_number(self.0@),
    {
        let chars: Vec<char> = str_chars(self.0.as_str());
        let ghost full = self.0@;
        let bounds = trim_range(&chars);
        let lo: usize = bounds.0;
        let hi: usize = bounds.1;
        let ghost t = full.subrange(lo as int, hi as int);
        assert(spec_trim(full) == t);

        let tlen: usize = hi - lo;
        let has_sign: bool = tlen > 0 && (chars[lo] == '+' || chars[lo] == '-');
        let slen: usize = if has_sign {
            1
        } else {
            0
        };
        assert(slen == sign_len(t)) by {
            if tlen > 0 {
                assert(t[0] == full[lo as int]);
            }
        }
        let blo: usize = lo + slen;
        let ghost b = t.skip(sign_len(t));
        assert(b =~= full.subrange(blo as int, hi as int));

        let dot: usize = first_dot_in(&chars, blo, hi);
        let ghost d = find_dot(b, 0);
        assert(dot - blo == d);
        let digits_ok: bool = digits_in_range(&chars, blo, hi, dot);

        let plain: bool = digits_ok && tlen > slen && (tlen > slen + 1 || dot == hi);
        assert(plain == is_plain_decimal(t)) by {
            assert(b.len() == tlen - slen);
            assert(b == full.subrange(blo as int, hi as int));
        }

        if plain {
            let out = render_plain(self.0.as_str(), &chars, lo, hi);
            assert(out@ == spec_format_number(full));
            out
        } else {
            let out = render_repair(self.0.as_str(), &chars, lo, hi);
            assert(out@ == spec_format_number(full));
            out
        }
    }
}

} // verus!
