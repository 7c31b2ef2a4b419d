use vstd::prelude::*;
use crate::order::{OrderStatus, OrderStatusModel};
use crate::text::{chars_to_string, str_to_chars};
use crate::json::{
    is_json_ws, is_digit, digit_val, is_hex, hex_val, key_order_id, key_order_date, key_status,
};
use vstd::string::StrSliceExecFns;

verus! {

broadcast use vstd::string::group_string_axioms;

// ---------------------------------------------------------------------------
// Spec-level parsing of the orders document
//
// The grammar the loader accepts: optional JSON whitespace around tokens, an
// array of objects whose three members may come in any order, each exactly
// once and with no member besides them, integers in plain decimal without
// leading zeros, strings with the JSON escapes `\" \\ \/ \b \f \n \r \t` and
// `\u` followed by four hexadecimal digits, surrogate pairs included (a lone
// surrogate is an error; characters above U+001F may stand unescaped).
// ---------------------------------------------------------------------------

/// The first position at or after `i` holding no JSON whitespace.
pub open spec fn skip_ws(s: Seq<char>, i: int) -> int
    decreases s.len() - i,
{
    if 0 <= i && i < s.len() && is_json_ws(s[i]) {
        skip_ws(s, i + 1)
    } else {
        i
    }
}

pub proof fn lemma_skip_ws(s: Seq<char>, i: int)
    requires
        0 <= i <= s.len(),
    ensures
        i <= skip_ws(s, i) <= s.len(),
    decreases s.len() - i,
{
    if i < s.len() && is_json_ws(s[i]) {
        lemma_skip_ws(s, i + 1);
    }
}

/// The token `tok` stands in `s` at position `i`.
pub open spec fn token_at(s: Seq<char>, i: int, tok: Seq<char>) -> bool {
    0 <= i && i + tok.len() <= s.len() && s.subrange(i, i + tok.len()) == tok
}

/// The first position at or after `i` holding no decimal digit.
pub open spec fn digits_end(s: Seq<char>, i: int) -> int
    decreases s.len() - i,
{
    if 0 <= i && i < s.len() && is_digit(s[i]) {
        digits_end(s, i + 1)
    } else {
        i
    }
}

pub open spec fn all_digits(s: Seq<char>, i: int, j: int) -> bool {
    forall|l: int| i <= l < j ==> is_digit(s[l])
}

pub proof fn lemma_digits_end(s: Seq<char>, i: int)
    requires
        0 <= i <= s.len(),
    ensures
        i <= digits_end(s, i) <= s.len(),
        all_digits(s, i, digits_end(s, i)),
        digits_end(s, i) < s.len() ==> !is_digit(s[digits_end(s, i)]),
    decreases s.len() - i,
{
    if i < s.len() && is_digit(s[i]) {
        lemma_digits_end(s, i + 1);
    }
}

/// The value of the decimal digits of `s` in positions `[i, j)`.
pub open spec fn digits_value(s: Seq<char>, i: int, j: int) -> int
    decreases j - i,
{
    if i < j {
        digits_value(s, i, j - 1) * 10 + digit_val(s[j - 1])
    } else {
        0
    }
}

pub open spec fn pow10(k: nat) -> int
    decreases k,
{
    if k == 0 {
        1
    } else {
        10 * pow10((k - 1) as nat)
    }
}

pub proof fn lemma_digits_value_lower(s: Seq<char>, i: int, j: int)
    requires
        i < j,
        all_digits(s, i, j),
        s[i] != '0',
    ensures
        digits_value(s, i, j) >= pow10((j - i - 1) as nat),
    decreases j - i,
{
    if i == j - 1 {
        assert(is_digit(s[i]));
        if s[i] as u32 == 48 {
            vstd::utf8::char_u32_cast(s[i], 48u32);
            vstd::utf8::char_u32_cast('0', 48u32);
            assert(s[i] == '0');
        }
        assert(s[i] as u32 >= 49);
        assert(digit_val(s[i]) >= 1);
        assert(digits_value(s, i, j) == digits_value(s, i, i) * 10 + digit_val(s[i]));
        assert(pow10(0) == 1);
    } else {
        lemma_digits_value_lower(s, i, j - 1);
        assert(digit_val(s[j - 1]) >= 0);
        assert(pow10((j - i - 1) as nat) == 10 * pow10((j - i - 2) as nat));
    }
}

pub proof fn lemma_pow10_pos(a: nat)
    ensures
        pow10(a) >= 1,
    decreases a,
{
    if a > 0 {
        lemma_pow10_pos((a - 1) as nat);
    }
}

pub proof fn lemma_pow10_mono(a: nat, b: nat)
    requires
        a <= b,
    ensures
        1 <= pow10(a) <= pow10(b),
    decreases b,
{
    lemma_pow10_pos(a);
    if a < b {
        lemma_pow10_mono(a, (b - 1) as nat);
        lemma_pow10_pos((b - 1) as nat);
    }
}

/// The integer at position `i`: an optional minus sign, then digits without a
/// leading zero, with a value that fits the record's identifier field.
pub open spec fn spec_parse_int(s: Seq<char>, i: int) -> Option<(int, int)> {
    let neg = 0 <= i && i < s.len() && s[i] == '-';
    let d0 = if neg {
        i + 1
    } else {
        i
    };
    let j = digits_end(s, d0);
    if j == d0 {
        None
    } else if s[d0] == '0' && j > d0 + 1 {
        None
    } else {
        let m = digits_value(s, d0, j);
        let v = if neg {
            -m
        } else {
            m
        };
        if -2147483648 <= v <= 2147483647 {
            Some((v, j))
        } else {
            None
        }
    }
}

/// Four hexadecimal digits stand at position `i`.
pub open spec fn hex4_ok(s: Seq<char>, i: int) -> bool {
    0 <= i && i + 4 <= s.len() && is_hex(s[i]) && is_hex(s[i + 1]) && is_hex(s[i + 2]) && is_hex(
        s[i + 3],
    )
}

/// The value of the four hexadecimal digits at position `i`.
pub open spec fn hex4_val(s: Seq<char>, i: int) -> int {
    hex_val(s[i]) * 4096 + hex_val(s[i + 1]) * 256 + hex_val(s[i + 2]) * 16 + hex_val(s[i + 3])
}

pub open spec fn is_high_surrogate(v: int) -> bool {
    0xD800 <= v < 0xDC00
}

pub open spec fn is_low_surrogate(v: int) -> bool {
    0xDC00 <= v < 0xE000
}

/// Prefix a parsed string fragment with one decoded character.
pub open spec fn prepend_char(c: char, r: Option<(Seq<char>, int)>) -> Option<(Seq<char>, int)> {
    match r {
        Some((t, j)) => Some((seq![c] + t, j)),
        None => None,
    }
}

/// The rest of a JSON string literal starting at `i` (the opening quote
/// already consumed), up to and including the closing quote.
pub open spec fn spec_parse_string_body(s: Seq<char>, i: int) -> Option<(Seq<char>, int)>
    decreases s.len() - i,
{
    if i < 0 || i >= s.len() {
        None
    } else if s[i] == '"' {
        Some((Seq::<char>::empty(), i + 1))
    } else if s[i] == '\\' {
        if i + 1 >= s.len() {
            None
        } else {
            let e = s[i + 1];
            if e == '"' || e == '\\' || e == '/' {
                prepend_char(e, spec_parse_string_body(s, i + 2))
            } else if e == 'b' {
                prepend_char('\u{8}', spec_parse_string_body(s, i + 2))
            } else if e == 'f' {
                prepend_char('\u{c}', spec_parse_string_body(s, i + 2))
            } else if e == 'n' {
                prepend_char('\n', spec_parse_string_body(s, i + 2))
            } else if e == 'r' {
                prepend_char('\r', spec_parse_string_body(s, i + 2))
            } else if e == 't' {
                prepend_char('\t', spec_parse_string_body(s, i + 2))
            } else if e == 'u' {
                if !hex4_ok(s, i + 2) {
                    None
                } else {
                    let v = hex4_val(s, i + 2);
                    if is_high_surrogate(v) {
                        if i + 12 <= s.len() && s[i + 6] == '\\' && s[i + 7] == 'u' && hex4_ok(
                            s,
                            i + 8,
                        ) && is_low_surrogate(hex4_val(s, i + 8)) {
                            let w = hex4_val(s, i + 8);
                            let code = 0x10000 + (v - 0xD800) * 0x400 + (w - 0xDC00);
                            prepend_char((code as u32) as char, spec_parse_string_body(s, i + 12))
                        } else {
                            None
                        }
                    } else if is_low_surrogate(v) {
                        None
                    } else {
                        prepend_char((v as u32) as char, spec_parse_string_body(s, i + 6))
                    }
                }
            } else {
                None
            }
        }
    } else if (s[i] as u32) < 32 {
        None
    } else {
        prepend_char(s[i], spec_parse_string_body(s, i + 1))
    }
}

/// A full JSON string literal at position `i`, quotes included.
pub open spec fn spec_parse_string(s: Seq<char>, i: int) -> Option<(Seq<char>, int)> {
    if 0 <= i && i < s.len() && s[i] == '"' {
        spec_parse_string_body(s, i + 1)
    } else {
        None
    }
}

pub proof fn lemma_parse_string_body_advances(s: Seq<char>, i: int)
    ensures
        spec_parse_string_body(s, i) matches Some(p) ==> i < p.1 <= s.len(),
    decreases s.len() - i,
{
    if 0 <= i && i < s.len() {
        if s[i] == '"' {
        } else if s[i] == '\\' {
            if i + 1 < s.len() {
                lemma_parse_string_body_advances(s, i + 2);
                if i + 6 <= s.len() {
                    lemma_parse_string_body_advances(s, i + 6);
                }
                if i + 12 <= s.len() {
                    lemma_parse_string_body_advances(s, i + 12);
                }
            }
        } else {
            lemma_parse_string_body_advances(s, i + 1);
        }
    }
}

/// After optional whitespace, the quoted key `key`, optional whitespace and a
/// colon: the position just past the colon.
pub open spec fn after_key(s: Seq<char>, i: int, key: Seq<char>) -> Option<int> {
    let k = skip_ws(s, i);
    if token_at(s, k, key) {
        let c = skip_ws(s, k + key.len());
        if token_at(s, c, seq![':']) {
            Some(c + 1)
        } else {
            None
        }
    } else {
        None
    }
}

pub proof fn lemma_after_key_advances(s: Seq<char>, i: int, key: Seq<char>)
    requires
        0 <= i <= s.len(),
    ensures
        after_key(s, i, key) matches Some(p) ==> i < p <= s.len(),
{
    lemma_skip_ws(s, i);
    let k = skip_ws(s, i);
    if token_at(s, k, key) {
        lemma_skip_ws(s, k + key.len());
    }
}

/// Strengthens [`lemma_after_key_advances`] to arbitrary positions: out of
/// range, no key can stand.
pub proof fn lemma_after_key_total(s: Seq<char>, i: int, key: Seq<char>)
    ensures
        after_key(s, i, key) matches Some(p) ==> i < p <= s.len() && 0 < p,
{
    if i < 0 {
        assert(skip_ws(s, i) == i);
    } else if i > s.len() {
        assert(skip_ws(s, i) == i);
    } else {
        lemma_after_key_advances(s, i, key);
    }
}

/// The partly-assembled record while an object's members are read: each
/// field is filled once its member has been seen.
#[verifier::ext_equal]
pub struct PartialOrder {
    pub id: Option<int>,
    pub date: Option<Seq<char>>,
    pub status: Option<Seq<char>>,
}

/// No member seen yet.
pub open spec fn empty_partial() -> PartialOrder {
    PartialOrder { id: None, date: None, status: None }
}

/// The field already filled is within the record's identifier range.
pub open spec fn partial_wf(acc: PartialOrder) -> bool {
    acc.id matches Some(v) ==> -2147483648 <= v <= 2147483647
}

/// One `"key": value` member at position `i` (whitespace allowed around key
/// and colon). The three known members are told apart by their key; a key
/// whose member was already seen, or any other key, is an error.
pub open spec fn spec_parse_member(s: Seq<char>, i: int, acc: PartialOrder) -> Option<
    (PartialOrder, int),
> {
    match after_key(s, i, key_order_id()) {
        Some(p) => if acc.id is Some {
            None
        } else {
            match spec_parse_int(s, skip_ws(s, p)) {
                None => None,
                Some((v, j)) => Some(
                    (PartialOrder { id: Some(v), date: acc.date, status: acc.status }, j),
                ),
            }
        },
        None => match after_key(s, i, key_order_date()) {
            Some(p) => if acc.date is Some {
                None
            } else {
                match spec_parse_string(s, skip_ws(s, p)) {
                    None => None,
                    Some((d, j)) => Some(
                        (PartialOrder { id: acc.id, date: Some(d), status: acc.status }, j),
                    ),
                }
            },
            None => match after_key(s, i, key_status()) {
                Some(p) => if acc.status is Some {
                    None
                } else {
                    match spec_parse_string(s, skip_ws(s, p)) {
                        None => None,
                        Some((st, j)) => Some(
                            (PartialOrder { id: acc.id, date: acc.date, status: Some(st) }, j),
                        ),
                    }
                },
                None => None,
            },
        },
    }
}

pub proof fn lemma_parse_member_advances(s: Seq<char>, i: int, acc: PartialOrder)
    ensures
        spec_parse_member(s, i, acc) matches Some(r) ==> i < r.1 <= s.len() && 0 < r.1,
        partial_wf(acc) ==> (spec_parse_member(s, i, acc) matches Some(r) ==> partial_wf(r.0)),
{
    lemma_after_key_total(s, i, key_order_id());
    lemma_after_key_total(s, i, key_order_date());
    lemma_after_key_total(s, i, key_status());
    match after_key(s, i, key_order_id()) {
        Some(p) => {
            lemma_skip_ws(s, p);
            lemma_parse_int_advances(s, skip_ws(s, p));
        },
        None => match after_key(s, i, key_order_date()) {
            Some(p) => {
                lemma_skip_ws(s, p);
                let w = skip_ws(s, p);
                if 0 <= w && w < s.len() && s[w] == '"' {
                    lemma_parse_string_body_advances(s, w + 1);
                }
            },
            None => match after_key(s, i, key_status()) {
                Some(p) => {
                    lemma_skip_ws(s, p);
                    let w = skip_ws(s, p);
                    if 0 <= w && w < s.len() && s[w] == '"' {
                        lemma_parse_string_body_advances(s, w + 1);
                    }
                },
                None => {},
            },
        },
    }
}

/// The members of one record object, from the first member up to and
/// including the closing brace. The members may come in any order, each
/// exactly once.
pub open spec fn spec_parse_members(s: Seq<char>, i: int, acc: PartialOrder) -> Option<
    (PartialOrder, int),
>
    decreases s.len() - i
        via spec_parse_members_decreases
{
    match spec_parse_member(s, i, acc) {
        None => None,
        Some((acc2, j)) => {
            let k = skip_ws(s, j);
            if token_at(s, k, seq![',']) {
                spec_parse_members(s, k + 1, acc2)
            } else if token_at(s, k, seq!['}']) {
                Some((acc2, k + 1))
            } else {
                None
            }
        },
    }
}

#[via_fn]
proof fn spec_parse_members_decreases(s: Seq<char>, i: int, acc: PartialOrder) {
    lemma_parse_member_advances(s, i, acc);
    match spec_parse_member(s, i, acc) {
        None => {},
        Some((acc2, j)) => {
            lemma_skip_ws(s, j);
        },
    }
}

pub proof fn lemma_parse_members_advances(s: Seq<char>, i: int, acc: PartialOrder)
    ensures
        spec_parse_members(s, i, acc) matches Some(r) ==> i < r.1 <= s.len(),
        partial_wf(acc) ==> (spec_parse_members(s, i, acc) matches Some(r) ==> partial_wf(r.0)),
    decreases s.len() - i,
{
    lemma_parse_member_advances(s, i, acc);
    match spec_parse_member(s, i, acc) {
        None => {},
        Some((acc2, j)) => {
            lemma_skip_ws(s, j);
            let k = skip_ws(s, j);
            if token_at(s, k, seq![',']) {
                lemma_parse_members_advances(s, k + 1, acc2);
            }
        },
    }
}

/// One record object at position `i` (after optional leading whitespace):
/// a brace-delimited object whose members `"order_id": <int>`,
/// `"order_date": <string>` and `"status": <string>` may come in any order,
/// each exactly once.
pub open spec fn spec_parse_order(s: Seq<char>, i: int) -> Option<(OrderStatusModel, int)> {
    let j0 = skip_ws(s, i);
    if !token_at(s, j0, seq!['{']) {
        None
    } else {
        match spec_parse_members(s, j0 + 1, empty_partial()) {
            None => None,
            Some((acc, end)) => match (acc.id, acc.date, acc.status) {
                (Some(id), Some(d), Some(st)) => Some(
                    (OrderStatusModel { order_id: id, order_date: d, status: st }, end),
                ),
                _ => None,
            },
        }
    }
}

pub proof fn lemma_parse_order_advances(s: Seq<char>, i: int)
    ensures
        spec_parse_order(s, i) matches Some(p) ==> i < p.1 <= s.len(),
{
    let j0 = skip_ws(s, i);
    if token_at(s, j0, seq!['{']) {
        if i < 0 {
            assert(skip_ws(s, i) == i);
        } else if i > s.len() {
            assert(skip_ws(s, i) == i);
        } else {
            lemma_skip_ws(s, i);
        }
        lemma_parse_members_advances(s, j0 + 1, empty_partial());
    }
}

pub proof fn lemma_parse_int_advances(s: Seq<char>, i: int)
    ensures
        spec_parse_int(s, i) matches Some(p) ==> i < p.1 <= s.len(),
{
    let neg = 0 <= i && i < s.len() && s[i] == '-';
    let d0 = if neg {
        i + 1
    } else {
        i
    };
    if 0 <= d0 && d0 <= s.len() {
        lemma_digits_end(s, d0);
    }
}

/// Prefix a parsed record sequence with one record.
pub open spec fn prepend_order(
    o: OrderStatusModel,
    r: Option<(Seq<OrderStatusModel>, int)>,
) -> Option<(Seq<OrderStatusModel>, int)> {
    match r {
        Some((t, j)) => Some((seq![o] + t, j)),
        None => None,
    }
}

/// One or more comma-separated record objects starting at `i`, up to and
/// including the closing `]` of the array.
pub open spec fn spec_parse_items(s: Seq<char>, i: int) -> Option<(Seq<OrderStatusModel>, int)>
    decreases s.len() - i
        via spec_parse_items_decreases
{
    match spec_parse_order(s, i) {
        None => None,
        Some((o, j)) => {
            let k = skip_ws(s, j);
            if token_at(s, k, seq![',']) {
                prepend_order(o, spec_parse_items(s, k + 1))
            } else if token_at(s, k, seq![']']) {
                Some((seq![o], k + 1))
            } else {
                None
            }
        },
    }
}

#[via_fn]
proof fn spec_parse_items_decreases(s: Seq<char>, i: int) {
    lemma_parse_order_advances(s, i);
    match spec_parse_order(s, i) {
        None => {},
        Some((o, j)) => {
            lemma_skip_ws(s, j);
        },
    }
}

/// The whole orders document: a JSON array of record objects, possibly
/// surrounded by whitespace, with nothing after it.
pub open spec fn spec_parse_orders(s: Seq<char>) -> Option<Seq<OrderStatusModel>> {
    let i0 = skip_ws(s, 0);
    if !token_at(s, i0, seq!['[']) {
        None
    } else {
        let i1 = skip_ws(s, i0 + 1);
        if token_at(s, i1, seq![']']) {
            if skip_ws(s, i1 + 1) == s.len() {
                Some(Seq::<OrderStatusModel>::empty())
            } else {
                None
            }
        } else {
            match spec_parse_items(s, i0 + 1) {
                None => None,
                Some((os, j)) => {
                    if skip_ws(s, j) == s.len() {
                        Some(os)
                    } else {
                        None
                    }
                },
            }
        }
    }
}

// ---------------------------------------------------------------------------
// Executable parsing
// ---------------------------------------------------------------------------

fn skip_ws_run(s: &Vec<char>, i: usize) -> (r: usize)
    requires
        i <= s@.len(),
    ensures
        r as int == skip_ws(s@, i as int),
        i <= r <= s@.len(),
{
    let n = s.len();
    let mut j = i;
    while j < n
        invariant
            n == s@.len(),
            i <= j <= n,
            skip_ws(s@, i as int) == skip_ws(s@, j as int),
        decreases n - j,
    {
        let c = s[j];
        if c == ' ' || c == '\t' || c == '\n' || c == '\r' {
            j = j + 1;
        } else {
            return j;
        }
    }
    j
}

fn match_token(s: &Vec<char>, i: usize, tok: &str) -> (b: bool)
    requires
        i <= s@.len(),
    ensures
        b == token_at(s@, i as int, tok@),
        b ==> i + tok@.len() <= s@.len(),
{
    let m = tok.unicode_len();
    if s.len() - i < m {
        return false;
    }
    let mut k: usize = 0;
    while k < m
        invariant
            s@.len() <= usize::MAX,
            i + m <= s@.len(),
            m == tok@.len(),
            k <= m,
            forall|l: int| 0 <= l < k ==> s@[i + l] == tok@[l],
        decreases m - k,
    {
        if s[i + k] != tok.get_char(k) {
            proof {
                if token_at(s@, i as int, tok@) {
                    assert(s@.subrange(i as int, i + tok@.len())[k as int] == tok@[k as int]);
                    assert(false);
                }
            }
            return false;
        }
        k = k + 1;
    }
    proof {
        assert(s@.subrange(i as int, i + tok@.len()) =~= tok@);
    }
    true
}

fn digit_check(c: char) -> (b: bool)
    ensures
        b == is_digit(c),
{
    let u = c as u32;
    48 <= u && u <= 57
}

fn parse_int_run(s: &Vec<char>, i: usize) -> (r: Option<(i32, usize)>)
    requires
        i <= s@.len(),
    ensures
        (match r {
            Some((v, j)) => spec_parse_int(s@, i as int) == Some((v as int, j as int)) && i < j
                <= s@.len(),
            None => spec_parse_int(s@, i as int) is None,
        }),
{
    let n = s.len();
    let neg = i < n && s[i] == '-';
    let d0 = if neg {
        i + 1
    } else {
        i
    };
    proof {
        lemma_digits_end(s@, d0 as int);
    }
    let mut j = d0;
    while j < n && digit_check(s[j])
        invariant
            n == s@.len(),
            d0 <= j <= n,
            digits_end(s@, d0 as int) == digits_end(s@, j as int),
        decreases n - j,
    {
        j = j + 1;
    }
    proof {
        assert(digits_end(s@, j as int) == j as int);
        assert(digits_end(s@, d0 as int) == j as int);
        lemma_digits_end(s@, d0 as int);
    }
    if j == d0 {
        return None;
    }
    if s[d0] == '0' && j > d0 + 1 {
        return None;
    }
    let count = j - d0;
    proof {
        if s@[d0 as int] == '0' {
            assert(j == d0 + 1);
        }
    }
    if count > 10 {
        proof {
            assert(s@[d0 as int] != '0');
            lemma_digits_value_lower(s@, d0 as int, j as int);
            lemma_pow10_mono(10, (j - d0 - 1) as nat);
            reveal_with_fuel(pow10, 12);
            assert(pow10(10) == 10000000000);
            assert(digits_value(s@, d0 as int, j as int) > 2147483647);
        }
        return None;
    }
    let mut m: u64 = 0;
    let mut k = d0;
    proof {
        lemma_pow10_mono((count - 1) as nat, 10);
        reveal_with_fuel(pow10, 12);
        assert(pow10(10) == 10000000000);
    }
    while k < j
        invariant
            n == s@.len(),
            d0 <= k <= j <= n,
            j - d0 <= 10,
            all_digits(s@, d0 as int, j as int),
            m as int == digits_value(s@, d0 as int, k as int),
            (m as int) < pow10((k - d0) as nat),
            pow10((j - d0) as nat) <= pow10(10),
            pow10(10) == 10000000000,
        decreases j - k,
    {
        let c = s[k];
        proof {
            assert(is_digit(s@[k as int]));
            assert(pow10((k + 1 - d0) as nat) == 10 * pow10((k - d0) as nat));
            lemma_pow10_mono((k + 1 - d0) as nat, (j - d0) as nat);
        }
        let d = (c as u32 - 48) as u64;
        m = m * 10 + d;
        k = k + 1;
        proof {
            assert(m as int == digits_value(s@, d0 as int, k as int));
        }
    }
    if neg {
        if m > 2147483648 {
            return None;
        }
        let v = (-(m as i64)) as i32;
        proof {
            assert(v as int == -(m as int));
        }
        Some((v, j))
    } else {
        if m > 2147483647 {
            return None;
        }
        let v = m as i32;
        Some((v, j))
    }
}

/// Relies on `char::from_u32`: the conversion succeeds exactly on Unicode
/// scalar values (not a surrogate, at most U+10FFFF) and yields the
/// character with that code point.
pub assume_specification[ char::from_u32 ](v: u32) -> (r: Option<char>)
    ensures
        r is Some <==> (v < 0xD800 || (0xE000 <= v && v <= 0x10FFFF)),
        r matches Some(c) ==> c as u32 == v,
;

fn hex_digit_run(c: char) -> (r: Option<u32>)
    ensures
        (match r {
            Some(v) => is_hex(c) && v as int == hex_val(c) && v < 16,
            None => !is_hex(c),
        }),
{
    let u = c as u32;
    if 48 <= u && u <= 57 {
        Some(u - 48)
    } else if 97 <= u && u <= 102 {
        Some(u - 87)
    } else if 65 <= u && u <= 70 {
        Some(u - 55)
    } else {
        None
    }
}

fn hex4_run(s: &Vec<char>, i: usize) -> (r: Option<u32>)
    requires
        i + 4 <= s@.len(),
    ensures
        (match r {
            Some(v) => hex4_ok(s@, i as int) && v as int == hex4_val(s@, i as int) && v <= 0xFFFF,
            None => !hex4_ok(s@, i as int),
        }),
{
    let n: usize = s.len();
    let a = match hex_digit_run(s[i]) {
        None => {
            return None;
        },
        Some(x) => x,
    };
    let b = match hex_digit_run(s[i + 1]) {
        None => {
            return None;
        },
        Some(x) => x,
    };
    let c = match hex_digit_run(s[i + 2]) {
        None => {
            return None;
        },
        Some(x) => x,
    };
    let d = match hex_digit_run(s[i + 3]) {
        None => {
            return None;
        },
        Some(x) => x,
    };
    Some(a * 4096 + b * 256 + c * 16 + d)
}

fn parse_string_run(s: &Vec<char>, i: usize) -> (r: Option<(String, usize)>)
    requires
        i <= s@.len(),
    ensures
        (match r {
            Some((t, j)) => spec_parse_string(s@, i as int) == Some((t@, j as int)) && i < j
                <= s@.len(),
            None => spec_parse_string(s@, i as int) is None,
        }),
{
    let n = s.len();
    if i >= n || s[i] != '"' {
        return None;
    }
    let mut acc: Vec<char> = Vec::new();
    let mut cur = i + 1;
    proof {
        lemma_parse_string_body_advances(s@, i as int + 1);
    }
    loop
        invariant
            n == s@.len(),
            i < n,
            s@[i as int] == '"',
            i + 1 <= cur <= n,
            spec_parse_string_body(s@, i as int + 1) == (match spec_parse_string_body(
                s@,
                cur as int,
            ) {
                Some((t, j)) => Some((acc@ + t, j)),
                None => None::<(Seq<char>, int)>,
            }),
        decreases n - cur,
    {
        proof {
            lemma_parse_string_body_advances(s@, cur as int);
        }
        if cur >= n {
            return None;
        }
        let c = s[cur];
        if c == '"' {
            let t = chars_to_string(&acc);
            proof {
                assert(spec_parse_string_body(s@, cur as int) == Some(
                    (Seq::<char>::empty(), cur as int + 1),
                ));
                assert(acc@ + Seq::<char>::empty() =~= acc@);
                assert(spec_parse_string_body(s@, i as int + 1) == Some(
                    (acc@, cur as int + 1),
                ));
                assert(s@[i as int] == '"');
                assert(spec_parse_string(s@, i as int) == spec_parse_string_body(
                    s@,
                    i as int + 1,
                ));
            }
            return Some((t, cur + 1));
        }
        if c == '\\' {
            if cur + 1 >= n {
                return None;
            }
            let e = s[cur + 1];
            let ghost acc0 = acc@;
            if e == '"' || e == '\\' || e == '/' {
                acc.push(e);
                cur = cur + 2;
            } else if e == 'b' {
                acc.push('\u{8}');
                cur = cur + 2;
            } else if e == 'f' {
                acc.push('\u{c}');
                cur = cur + 2;
            } else if e == 'n' {
                acc.push('\n');
                cur = cur + 2;
            } else if e == 'r' {
                acc.push('\r');
                cur = cur + 2;
            } else if e == 't' {
                acc.push('\t');
                cur = cur + 2;
            } else if e == 'u' {
                if n - cur < 6 {
                    return None;
                }
                let v = match hex4_run(s, cur + 2) {
                    None => {
                        return None;
                    },
                    Some(v) => v,
                };
                if 0xD800 <= v && v < 0xDC00 {
                    // a high surrogate must be followed by its paired low one
                    if n - cur < 12 {
                        return None;
                    }
                    if s[cur + 6] != '\\' || s[cur + 7] != 'u' {
                        return None;
                    }
                    let w = match hex4_run(s, cur + 8) {
                        None => {
                            return None;
                        },
                        Some(w) => w,
                    };
                    if !(0xDC00 <= w && w < 0xE000) {
                        return None;
                    }
                    let code: u32 = 0x10000 + (v - 0xD800) * 0x400 + (w - 0xDC00);
                    let d = match char::from_u32(code) {
                        Some(d) => d,
                        None => {
                            proof {
                                assert(false);
                            }
                            return None;
                        },
                    };
                    proof {
                        vstd::utf8::char_u32_cast(d, code);
                    }
                    acc.push(d);
                    cur = cur + 12;
                } else if 0xDC00 <= v && v < 0xE000 {
                    return None;
                } else {
                    let d = match char::from_u32(v) {
                        Some(d) => d,
                        None => {
                            proof {
                                assert(false);
                            }
                            return None;
                        },
                    };
                    proof {
                        vstd::utf8::char_u32_cast(d, v);
                    }
                    acc.push(d);
                    cur = cur + 6;
                }
            } else {
                return None;
            }
            proof {
                assert(forall|c0: char, t0: Seq<char>|
                    acc0 + (seq![c0] + t0) =~= (acc0 + seq![c0]) + t0);
                assert(acc@ =~= acc0 + seq![acc@.last()]);
            }
        } else {
            let u = c as u32;
            if u < 32 {
                return None;
            }
            let ghost acc0 = acc@;
            acc.push(c);
            cur = cur + 1;
            proof {
                assert(forall|c0: char, t0: Seq<char>|
                    acc0 + (seq![c0] + t0) =~= (acc0 + seq![c0]) + t0);
                assert(acc@ =~= acc0 + seq![c]);
            }
        }
    }
}

fn expect_key(s: &Vec<char>, i: usize, key: &str) -> (r: Option<usize>)
    requires
        i <= s@.len(),
    ensures
        (match r {
            Some(p) => after_key(s@, i as int, key@) == Some(p as int) && i < p <= s@.len(),
            None => after_key(s@, i as int, key@) is None,
        }),
{
    proof {
        reveal_strlit(":");
    }
    let n: usize = s.len();
    let k = skip_ws_run(s, i);
    if !match_token(s, k, key) {
        return None;
    }
    let c = skip_ws_run(s, k + key.unicode_len());
    if !match_token(s, c, ":") {
        proof {
            assert(":"@ =~= seq![':']);
        }
        return None;
    }
    proof {
        assert(":"@ =~= seq![':']);
        assert(token_at(s@, c as int, seq![':']));
    }
    Some(c + 1)
}

/// One member's decoded value, tagged by its key.
enum MemberVal {
    IdVal(i32),
    DateVal(String),
    StatusVal(String),
}

/// The record under assembly after one more member was read.
spec fn member_applied(acc: PartialOrder, m: MemberVal) -> PartialOrder {
    match m {
        MemberVal::IdVal(v) => PartialOrder {
            id: Some(v as int),
            date: acc.date,
            status: acc.status,
        },
        MemberVal::DateVal(d) => PartialOrder { id: acc.id, date: Some(d@), status: acc.status },
        MemberVal::StatusVal(st) => PartialOrder { id: acc.id, date: acc.date, status: Some(st@) },
    }
}

/// The ghost image of the three member slots.
spec fn partial_of(id: Option<i32>, date: Option<String>, status: Option<String>) -> PartialOrder {
    PartialOrder {
        id: match id {
            Some(v) => Some(v as int),
            None => None,
        },
        date: match date {
            Some(d) => Some(d@),
            None => None,
        },
        status: match status {
            Some(st) => Some(st@),
            None => None,
        },
    }
}

fn parse_member_run(
    s: &Vec<char>,
    i: usize,
    Ghost(acc): Ghost<PartialOrder>,
    has_id: bool,
    has_date: bool,
    has_status: bool,
) -> (r: Option<(MemberVal, usize)>)
    requires
        i <= s@.len(),
        has_id == (acc.id is Some),
        has_date == (acc.date is Some),
        has_status == (acc.status is Some),
    ensures
        (match r {
            Some((m, j)) => spec_parse_member(s@, i as int, acc) == Some(
                (member_applied(acc, m), j as int),
            ) && i < j <= s@.len(),
            None => spec_parse_member(s@, i as int, acc) is None,
        }),
{
    proof {
        reveal_strlit("\"order_id\"");
        reveal_strlit("\"order_date\"");
        reveal_strlit("\"status\"");
        assert("\"order_id\""@ =~= key_order_id());
        assert("\"order_date\""@ =~= key_order_date());
        assert("\"status\""@ =~= key_status());
    }
    match expect_key(s, i, "\"order_id\"") {
        Some(p) => {
            if has_id {
                return None;
            }
            let w = skip_ws_run(s, p);
            match parse_int_run(s, w) {
                None => None,
                Some((v, j)) => {
                    proof {
                        assert(spec_parse_member(s@, i as int, acc) matches Some(r0)
                            && r0.0 =~~= member_applied(acc, MemberVal::IdVal(v)) && r0.1 == j);
                    }
                    Some((MemberVal::IdVal(v), j))
                },
            }
        },
        None => match expect_key(s, i, "\"order_date\"") {
            Some(p) => {
                if has_date {
                    return None;
                }
                let w = skip_ws_run(s, p);
                match parse_string_run(s, w) {
                    None => None,
                    Some((d, j)) => {
                        let ghost dg = d@;
                        proof {
                            assert(spec_parse_member(s@, i as int, acc) matches Some(r0)
                                && r0.0 =~~= (PartialOrder {
                                id: acc.id,
                                date: Some(dg),
                                status: acc.status,
                            }) && r0.1 == j);
                        }
                        Some((MemberVal::DateVal(d), j))
                    },
                }
            },
            None => match expect_key(s, i, "\"status\"") {
                Some(p) => {
                    if has_status {
                        return None;
                    }
                    let w = skip_ws_run(s, p);
                    match parse_string_run(s, w) {
                        None => None,
                        Some((st, j)) => {
                            let ghost sg = st@;
                            proof {
                                assert(spec_parse_member(s@, i as int, acc) matches Some(r0)
                                    && r0.0 =~~= (PartialOrder {
                                    id: acc.id,
                                    date: acc.date,
                                    status: Some(sg),
                                }) && r0.1 == j);
                            }
                            Some((MemberVal::StatusVal(st), j))
                        },
                    }
                },
                None => None,
            },
        },
    }
}

fn parse_order_run(s: &Vec<char>, i: usize) -> (r: Option<(OrderStatus, usize)>)
    requires
        i <= s@.len(),
    ensures
        (match r {
            Some((o, j)) => spec_parse_order(s@, i as int) == Some((o@, j as int)) && i < j
                <= s@.len(),
            None => spec_parse_order(s@, i as int) is None,
        }),
{
    proof {
        reveal_strlit("{");
        reveal_strlit("}");
        reveal_strlit(",");
        assert("{"@ =~= seq!['{']);
        assert("}"@ =~= seq!['}']);
        assert(","@ =~= seq![',']);
    }
    let n: usize = s.len();
    let j0 = skip_ws_run(s, i);
    if !match_token(s, j0, "{") {
        return None;
    }
    let mut id: Option<i32> = None;
    let mut date: Option<String> = None;
    let mut status: Option<String> = None;
    let mut cur = j0 + 1;
    let ghost start = j0 + 1;
    proof {
        assert(partial_of(id, date, status) =~~= empty_partial());
    }
    loop
        invariant
            n == s@.len(),
            i <= j0 <= n,
            j0 as int == skip_ws(s@, i as int),
            token_at(s@, j0 as int, seq!['{']),
            start == j0 + 1,
            start <= cur <= n,
            "{"@ == seq!['{'],
            "}"@ == seq!['}'],
            ","@ == seq![','],
            spec_parse_members(s@, start as int, empty_partial()) == spec_parse_members(
                s@,
                cur as int,
                partial_of(id, date, status),
            ),
        decreases n - cur,
    {
        let ghost acc = partial_of(id, date, status);
        match parse_member_run(s, cur, Ghost(acc), id.is_some(), date.is_some(), status.is_some())
        {
            None => {
                return None;
            },
            Some((m, j)) => {
                let ghost m0 = m;
                match m {
                    MemberVal::IdVal(v) => {
                        id = Some(v);
                    },
                    MemberVal::DateVal(d) => {
                        date = Some(d);
                    },
                    MemberVal::StatusVal(st) => {
                        status = Some(st);
                    },
                }
                let ghost acc2 = member_applied(acc, m0);
                proof {
                    assert(partial_of(id, date, status) =~~= acc2);
                }
                let k2 = skip_ws_run(s, j);
                if match_token(s, k2, ",") {
                    cur = k2 + 1;
                } else if match_token(s, k2, "}") {
                    proof {
                        assert(spec_parse_members(s@, start as int, empty_partial()) == Some(
                            (acc2, k2 as int + 1),
                        ));
                    }
                    let idv = match id {
                        Some(v) => v,
                        None => {
                            return None;
                        },
                    };
                    let datev = match date {
                        Some(d) => d,
                        None => {
                            return None;
                        },
                    };
                    let statusv = match status {
                        Some(st) => st,
                        None => {
                            return None;
                        },
                    };
                    let o = OrderStatus { order_id: idv, order_date: datev, status: statusv };
                    proof {
                        assert(spec_parse_order(s@, i as int) matches Some(p) && p.0 =~~= o@
                            && p.1 == k2 + 1);
                    }
                    return Some((o, k2 + 1));
                } else {
                    return None;
                }
            },
        }
    }
}

fn parse_items_run(s: &Vec<char>, start: usize) -> (r: Option<(Vec<OrderStatus>, usize)>)
    requires
        start <= s@.len(),
    ensures
        (match r {
            Some((os, j)) => spec_parse_items(s@, start as int) == Some((os.deep_view(), j as int))
                && j <= s@.len(),
            None => spec_parse_items(s@, start as int) is None,
        }),
{
    proof {
        reveal_strlit(",");
        reveal_strlit("]");
        assert(","@ =~= seq![',']);
        assert("]"@ =~= seq![']']);
    }
    let n: usize = s.len();
    let mut acc: Vec<OrderStatus> = Vec::new();
    let mut i = start;
    loop
        invariant
            n == s@.len(),
            start <= s@.len(),
            i <= s@.len(),
            ","@ == seq![','],
            "]"@ == seq![']'],
            spec_parse_items(s@, start as int) == (match spec_parse_items(s@, i as int) {
                Some((t, j)) => Some((acc.deep_view() + t, j)),
                None => None::<(Seq<OrderStatusModel>, int)>,
            }),
        decreases s@.len() - i,
    {
        let ghost acc0 = acc.deep_view();
        match parse_order_run(s, i) {
            None => {
                return None;
            },
            Some((o, j)) => {
                let ghost om = o@;
                acc.push(o);
                proof {
                    assert(acc.deep_view() =~~= acc0 + seq![om]);
                }
                let k = skip_ws_run(s, j);
                if match_token(s, k, ",") {
                    proof {
                        assert(k + 1 <= n);
                        assert(forall|t0: Seq<OrderStatusModel>|
                            acc0 + (seq![om] + t0) =~= (acc0 + seq![om]) + t0);
                    }
                    i = k + 1;
                } else if match_token(s, k, "]") {
                    proof {
                        assert(k + 1 <= n);
                        assert(acc0 + seq![om] =~= acc.deep_view());
                    }
                    return Some((acc, k + 1));
                } else {
                    return None;
                }
            },
        }
    }
}

/// Decode the orders document. Returns the records exactly when the text is
/// an orders document in the sense of [`spec_parse_orders`]: a JSON array of
/// objects holding exactly the three record members, in any order. A document
/// whose objects carry members besides those three is rejected rather than
/// having them ignored: the document's layout is fixed, and an unexpected
/// member is treated as corruption.
pub fn parse_orders(text: &str) -> (r: Option<Vec<OrderStatus>>)
    ensures
        (match r {
            Some(os) => spec_parse_orders(text@) == Some(os.deep_view()),
            None => spec_parse_orders(text@) is None,
        }),
{
    proof {
        reveal_strlit("[");
        reveal_strlit("]");
        assert("["@ =~= seq!['[']);
        assert("]"@ =~= seq![']']);
    }
    let s = str_to_chars(text);
    let i0 = skip_ws_run(&s, 0);
    if !match_token(&s, i0, "[") {
        return None;
    }
    let i1 = skip_ws_run(&s, i0 + 1);
    if match_token(&s, i1, "]") {
        if skip_ws_run(&s, i1 + 1) == s.len() {
            let empty: Vec<OrderStatus> = Vec::new();
            proof {
                assert(empty.deep_view() =~= Seq::<OrderStatusModel>::empty());
            }
            return Some(empty);
        } else {
            return None;
        }
    }
    match parse_items_run(&s, i0 + 1) {
        None => None,
        Some((os, j)) => {
            if skip_ws_run(&s, j) == s.len() {
                Some(os)
            } else {
                None
            }
        },
    }
}

} // verus!
