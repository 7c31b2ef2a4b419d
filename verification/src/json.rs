use vstd::prelude::*;
use crate::order::{OrderStatus, OrderStatusModel};
use crate::text::{chars_to_string, push_str_chars, str_to_chars};
use vstd::string::StrSliceExecFns;

verus! {

broadcast use vstd::string::group_string_axioms;

// ---------------------------------------------------------------------------
// Characters
// ---------------------------------------------------------------------------

/// JSON insignificant whitespace.
pub open spec fn is_json_ws(c: char) -> bool {
    c == ' ' || c == '\t' || c == '\n' || c == '\r'
}

pub open spec fn is_digit(c: char) -> bool {
    48 <= c as u32 <= 57
}

pub open spec fn digit_val(c: char) -> int {
    c as u32 - 48
}

pub open spec fn digit_char(d: int) -> char {
    ((48 + d) as u8) as char
}

/// Lower-case hexadecimal digit for `0 <= d < 16`.
pub open spec fn hex_char(d: int) -> char {
    if d < 10 {
        ((48 + d) as u8) as char
    } else {
        ((87 + d) as u8) as char
    }
}

pub open spec fn is_hex(c: char) -> bool {
    is_digit(c) || (97 <= c as u32 <= 102) || (65 <= c as u32 <= 70)
}

pub open spec fn hex_val(c: char) -> int {
    if is_digit(c) {
        digit_val(c)
    } else if 97 <= c as u32 {
        c as u32 - 87
    } else {
        c as u32 - 55
    }
}

// ---------------------------------------------------------------------------
// Encoding: numbers
// ---------------------------------------------------------------------------

/// The decimal digits of `n`, most significant first, without leading zeros
/// (`0` itself is the single digit `0`).
pub open spec fn dec_nat(n: nat) -> Seq<char>
    decreases n,
{
    if n < 10 {
        seq![digit_char(n as int)]
    } else {
        dec_nat(n / 10) + seq![digit_char((n % 10) as int)]
    }
}

/// The decimal form of `i`, with a leading minus sign when negative.
pub open spec fn dec_int(i: int) -> Seq<char> {
    if i < 0 {
        seq!['-'] + dec_nat((-i) as nat)
    } else {
        dec_nat(i as nat)
    }
}

/// Append the decimal digits of `n`.
fn push_u32_dec(n: u32, out: &mut Vec<char>)
    ensures
        final(out)@ == old(out)@ + dec_nat(n as nat),
    decreases n,
{
    if n < 10 {
        let c = (48u8 + n as u8) as char;
        proof {
            assert(c == digit_char(n as int));
        }
        out.push(c);
        proof {
            assert(out@ =~= old(out)@ + dec_nat(n as nat));
        }
    } else {
        push_u32_dec(n / 10, out);
        let c = (48u8 + (n % 10) as u8) as char;
        proof {
            assert(c == digit_char((n % 10) as int));
        }
        out.push(c);
        proof {
            assert(out@ =~= old(out)@ + dec_nat(n as nat));
        }
    }
}

/// Append the decimal form of `v`.
fn push_i32_dec(v: i32, out: &mut Vec<char>)
    ensures
        final(out)@ == old(out)@ + dec_int(v as int),
{
    if v < 0 {
        out.push('-');
        let m: u32 = (-(v as i64)) as u32;
        proof {
            assert(m as nat == (-(v as int)) as nat);
        }
        push_u32_dec(m, out);
        proof {
            assert(out@ =~= old(out)@ + dec_int(v as int));
        }
    } else {
        push_u32_dec(v as u32, out);
    }
}

// ---------------------------------------------------------------------------
// Encoding: strings
// ---------------------------------------------------------------------------

/// How one character appears inside a JSON string literal: quote, backslash
/// and the named control characters get a short escape, the remaining control
/// characters get a `\u00..` escape, everything else stands for itself.
pub open spec fn escape_char(c: char) -> Seq<char> {
    if c == '"' {
        seq!['\\', '"']
    } else if c == '\\' {
        seq!['\\', '\\']
    } else if c == '\u{8}' {
        seq!['\\', 'b']
    } else if c == '\t' {
        seq!['\\', 't']
    } else if c == '\n' {
        seq!['\\', 'n']
    } else if c == '\u{c}' {
        seq!['\\', 'f']
    } else if c == '\r' {
        seq!['\\', 'r']
    } else if (c as u32) < 32 {
        seq!['\\', 'u', '0', '0', hex_char((c as u32 / 16) as int), hex_char((c as u32 % 16) as int)]
    } else {
        seq![c]
    }
}

/// The body of the JSON string literal for `s`.
pub open spec fn escape_text(s: Seq<char>) -> Seq<char>
    decreases s.len(),
{
    if s.len() == 0 {
        Seq::<char>::empty()
    } else {
        escape_text(s.drop_last()) + escape_char(s.last())
    }
}

/// The full JSON string literal for `s`, quotes included.
pub open spec fn quoted(s: Seq<char>) -> Seq<char> {
    seq!['"'] + escape_text(s) + seq!['"']
}

/// Append the escaped body of the JSON string literal for `s`.
fn push_escaped(s: &str, out: &mut Vec<char>)
    ensures
        final(out)@ == old(out)@ + escape_text(s@),
{
    let chars = str_to_chars(s);
    let n = chars.len();
    let mut i: usize = 0;
    while i < n
        invariant
            chars@ == s@,
            n == s@.len(),
            i <= n,
            out@ == old(out)@ + escape_text(s@.take(i as int)),
        decreases n - i,
    {
        let c = chars[i];
        proof {
            assert(s@.take(i as int + 1).drop_last() =~= s@.take(i as int));
            assert(s@.take(i as int + 1).last() == s@[i as int]);
            assert(escape_text(s@.take(i as int + 1))
                == escape_text(s@.take(i as int)) + escape_char(s@[i as int]));
        }
        let ghost out0 = out@;
        let u = c as u32;
        if c == '"' {
            out.push('\\');
            out.push('"');
        } else if c == '\\' {
            out.push('\\');
            out.push('\\');
        } else if c == '\u{8}' {
            out.push('\\');
            out.push('b');
        } else if c == '\t' {
            out.push('\\');
            out.push('t');
        } else if c == '\n' {
            out.push('\\');
            out.push('n');
        } else if c == '\u{c}' {
            out.push('\\');
            out.push('f');
        } else if c == '\r' {
            out.push('\\');
            out.push('r');
        } else if u < 32 {
            out.push('\\');
            out.push('u');
            out.push('0');
            out.push('0');
            let hi = (u / 16) as u8;
            let lo = (u % 16) as u8;
            let hc = if hi < 10 { (48u8 + hi) as char } else { (87u8 + hi) as char };
            let lc = if lo < 10 { (48u8 + lo) as char } else { (87u8 + lo) as char };
            proof {
                assert(hc == hex_char((c as u32 / 16) as int));
                assert(lc == hex_char((c as u32 % 16) as int));
            }
            out.push(hc);
            out.push(lc);
        } else {
            out.push(c);
        }
        proof {
            assert(out@ =~= out0 + escape_char(c));
            assert(out@ =~= old(out)@ + escape_text(s@.take(i as int + 1)));
        }
        i = i + 1;
    }
    proof {
        assert(s@.take(n as int) =~= s@);
    }
}

// ---------------------------------------------------------------------------
// Encoding: records and the document
// ---------------------------------------------------------------------------

/// The `"order_id"` key token, quotes included.
pub open spec fn key_order_id() -> Seq<char> {
    seq!['"', 'o', 'r', 'd', 'e', 'r', '_', 'i', 'd', '"']
}

/// The `"order_date"` key token, quotes included.
pub open spec fn key_order_date() -> Seq<char> {
    seq!['"', 'o', 'r', 'd', 'e', 'r', '_', 'd', 'a', 't', 'e', '"']
}

/// The `"status"` key token, quotes included.
pub open spec fn key_status() -> Seq<char> {
    seq!['"', 's', 't', 'a', 't', 'u', 's', '"']
}

/// The JSON object for one record: the three fields in declared order, no
/// inserted whitespace.
pub open spec fn encode_order(o: OrderStatusModel) -> Seq<char> {
    seq!['{'] + key_order_id() + seq![':'] + dec_int(o.order_id) + seq![','] + key_order_date()
        + seq![':'] + quoted(o.order_date) + seq![','] + key_status() + seq![':']
        + quoted(o.status) + seq!['}']
}

/// The comma-separated record objects of the document body.
pub open spec fn encode_items(os: Seq<OrderStatusModel>) -> Seq<char>
    decreases os.len(),
{
    if os.len() == 0 {
        Seq::<char>::empty()
    } else if os.len() == 1 {
        encode_order(os[0])
    } else {
        encode_order(os[0]) + seq![','] + encode_items(os.drop_first())
    }
}

/// The JSON document for a sequence of records: a JSON array of their
/// objects.
pub open spec fn encode_orders(os: Seq<OrderStatusModel>) -> Seq<char> {
    seq!['['] + encode_items(os) + seq![']']
}

/// Appending one record to the document body appends its object, after a
/// comma when the body was not empty.
proof fn lemma_encode_items_push(os: Seq<OrderStatusModel>, o: OrderStatusModel)
    ensures
        os.len() == 0 ==> encode_items(os.push(o)) == encode_order(o),
        os.len() > 0 ==> encode_items(os.push(o)) == encode_items(os) + seq![','] + encode_order(o),
    decreases os.len(),
{
    if os.len() == 0 {
        assert(os.push(o) =~= seq![o]);
        assert(encode_items(seq![o]) == encode_order(o));
    } else if os.len() == 1 {
        let p = os.push(o);
        assert(p[0] == os[0]);
        assert(p.drop_first() =~= seq![o]);
        assert(encode_items(seq![o]) == encode_order(o));
        assert(encode_items(p) == encode_order(p[0]) + seq![','] + encode_items(p.drop_first()));
        assert(encode_items(os) == encode_order(os[0]));
    } else {
        lemma_encode_items_push(os.drop_first(), o);
        assert(os.push(o)[0] == os[0]);
        assert(os.push(o).drop_first() =~= os.drop_first().push(o));
        assert(encode_items(os.drop_first()).len() > 0 ==> true);
        assert(encode_items(os.push(o))
            == encode_order(os[0]) + seq![','] + encode_items(os.drop_first().push(o)));
        assert(encode_order(os[0]) + seq![','] + (encode_items(os.drop_first()) + seq![',']
            + encode_order(o)) =~= (encode_order(os[0]) + seq![','] + encode_items(
            os.drop_first(),
        )) + seq![','] + encode_order(o));
    }
}

/// Append the JSON object for one record.
fn push_order_json(o: &OrderStatus, out: &mut Vec<char>)
    ensures
        final(out)@ == old(out)@ + encode_order(o@),
{
    proof {
        reveal_strlit("{\"order_id\":");
        reveal_strlit(",\"order_date\":\"");
        reveal_strlit("\",\"status\":\"");
        reveal_strlit("\"}");
    }
    push_str_chars(out, "{\"order_id\":");
    push_i32_dec(o.order_id, out);
    push_str_chars(out, ",\"order_date\":\"");
    push_escaped(o.order_date.as_str(), out);
    push_str_chars(out, "\",\"status\":\"");
    push_escaped(o.status.as_str(), out);
    push_str_chars(out, "\"}");
    proof {
        assert("{\"order_id\":"@ =~= seq!['{'] + key_order_id() + seq![':']);
        assert(",\"order_date\":\""@ =~= seq![','] + key_order_date() + seq![':'] + seq!['"']);
        assert("\",\"status\":\""@ =~= seq!['"'] + seq![','] + key_status() + seq![':'] + seq!['"']);
        assert("\"}"@ =~= seq!['"'] + seq!['}']);
        assert(out@ =~= old(out)@ + encode_order(o@));
    }
}

/// Encode a list of records as the JSON document the orders endpoint serves.
pub fn encode_orders_json(orders: &Vec<OrderStatus>) -> (r: String)
    ensures
        r@ == encode_orders(orders.deep_view()),
{
    let mut out: Vec<char> = Vec::new();
    out.push('[');
    let n = orders.len();
    let mut i: usize = 0;
    proof {
        assert(orders.deep_view().take(0) =~= Seq::<OrderStatusModel>::empty());
        assert(out@ =~= seq!['['] + encode_items(orders.deep_view().take(0)));
    }
    while i < n
        invariant
            n == orders.len(),
            i <= n,
            out@ == seq!['['] + encode_items(orders.deep_view().take(i as int)),
        decreases n - i,
    {
        let ghost taken = orders.deep_view().take(i as int);
        proof {
            assert(orders.deep_view().take(i as int + 1) =~= taken.push(orders.deep_view()[i as int]));
            assert(orders.deep_view()[i as int] == orders[i as int]@);
            lemma_encode_items_push(taken, orders[i as int]@);
        }
        if i > 0 {
            out.push(',');
        }
        push_order_json(&orders[i], &mut out);
        i = i + 1;
        proof {
            assert(out@ =~= seq!['['] + encode_items(orders.deep_view().take(i as int)));
        }
    }
    out.push(']');
    proof {
        assert(orders.deep_view().take(n as int) =~= orders.deep_view());
        assert(out@ =~= encode_orders(orders.deep_view()));
    }
    chars_to_string(&out)
}

} // verus!
