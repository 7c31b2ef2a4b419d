use vstd::prelude::*;
use crate::json::{
    dec_int, dec_nat, digit_char, digit_val, encode_items, encode_order, encode_orders,
    escape_char, escape_text, hex_char, hex_val, is_digit, is_hex, is_json_ws, key_order_date,
    key_order_id, key_status, quoted,
};
use crate::order::OrderStatusModel;
use crate::parse::{
    after_key, all_digits, digits_end, digits_value, empty_partial, hex4_ok, hex4_val,
    prepend_char, spec_parse_int, spec_parse_items, spec_parse_member, spec_parse_members,
    spec_parse_order, spec_parse_orders, spec_parse_string, spec_parse_string_body, skip_ws,
    token_at, PartialOrder,
};

verus! {

/// The text `e` stands in `s` at position `i`.
pub open spec fn at_seg(s: Seq<char>, i: int, e: Seq<char>) -> bool {
    0 <= i && i + e.len() <= s.len() && s.subrange(i, i + e.len()) == e
}

proof fn lemma_at_seg_split(s: Seq<char>, i: int, a: Seq<char>, b: Seq<char>)
    requires
        at_seg(s, i, a + b),
    ensures
        at_seg(s, i, a),
        at_seg(s, i + a.len(), b),
{
    let ab = a + b;
    assert forall|k: int| 0 <= k < ab.len() implies s[i + k] == ab[k] by {
        assert(s.subrange(i, i + ab.len())[k] == ab[k]);
    }
    assert(s.subrange(i, i + a.len()) =~= a);
    assert forall|k: int| 0 <= k < b.len() implies s[i + a.len() + k] == b[k] by {
        assert(s[i + (a.len() + k)] == ab[a.len() + k]);
    }
    assert(s.subrange(i + a.len(), i + a.len() + b.len()) =~= b);
}

proof fn lemma_at_seg_char(s: Seq<char>, i: int, e: Seq<char>)
    requires
        at_seg(s, i, e),
        e.len() > 0,
    ensures
        s[i] == e[0],
        i < s.len(),
{
    assert(s.subrange(i, i + e.len())[0] == e[0]);
}

proof fn lemma_token_here(s: Seq<char>, i: int, tok: Seq<char>)
    requires
        at_seg(s, i, tok),
    ensures
        token_at(s, i, tok),
{
}

proof fn lemma_digit_char_val(d: int)
    requires
        0 <= d <= 9,
    ensures
        is_digit(digit_char(d)),
        digit_val(digit_char(d)) == d,
        d >= 1 ==> digit_char(d) != '0',
        digit_char(d) != '-',
        !is_json_ws(digit_char(d)),
{
    let b = (48 + d) as u8;
    assert(b as u32 == 48 + d);
    assert((b as char) as u32 == 48 + d);
}

proof fn lemma_hex_char_val(d: int)
    requires
        0 <= d < 16,
    ensures
        is_hex(hex_char(d)),
        hex_val(hex_char(d)) == d,
{
    if d < 10 {
        let b = (48 + d) as u8;
        assert((b as char) as u32 == 48 + d);
    } else {
        let b = (87 + d) as u8;
        assert((b as char) as u32 == 87 + d);
    }
}

proof fn lemma_dec_nat_chars(n: nat)
    ensures
        dec_nat(n).len() >= 1,
        all_digits_of(dec_nat(n)),
        n >= 1 ==> dec_nat(n)[0] != '0',
        n == 0 ==> dec_nat(n) =~= seq!['0'],
    decreases n,
{
    if n < 10 {
        lemma_digit_char_val(n as int);
        assert(dec_nat(n) =~= seq![digit_char(n as int)]);
        if n == 0 {
            assert(digit_char(0) == '0') by {
                assert((48u8 as char) as u32 == 48);
                assert('0' as u32 == 48);
                vstd::utf8::char_u32_cast('0', 48u32);
            }
        }
    } else {
        lemma_dec_nat_chars(n / 10);
        lemma_digit_char_val((n % 10) as int);
        let pre = dec_nat(n / 10);
        assert(dec_nat(n) == pre + seq![digit_char((n % 10) as int)]);
        assert(dec_nat(n)[0] == pre[0]);
        assert forall|k: int| 0 <= k < dec_nat(n).len() implies is_digit(dec_nat(n)[k]) by {
            if k < pre.len() {
                assert(dec_nat(n)[k] == pre[k]);
            }
        }
    }
}

/// Every character of `e` is a decimal digit.
pub open spec fn all_digits_of(e: Seq<char>) -> bool {
    forall|k: int| 0 <= k < e.len() ==> is_digit(e[k])
}

proof fn lemma_dec_nat_value(s: Seq<char>, i: int, n: nat)
    requires
        at_seg(s, i, dec_nat(n)),
    ensures
        digits_value(s, i, i + dec_nat(n).len()) == n,
        all_digits(s, i, i + dec_nat(n).len()),
    decreases n,
{
    lemma_dec_nat_chars(n);
    let e = dec_nat(n);
    assert forall|k: int| i <= k < i + e.len() implies is_digit(s[k]) by {
        assert(s.subrange(i, i + e.len())[k - i] == e[k - i]);
    }
    if n < 10 {
        lemma_digit_char_val(n as int);
        assert(s.subrange(i, i + 1)[0] == e[0]);
        assert(digits_value(s, i, i + 1) == digits_value(s, i, i) * 10 + digit_val(s[i]));
    } else {
        let pre = dec_nat(n / 10);
        let last = seq![digit_char((n % 10) as int)];
        assert(e == pre + last);
        lemma_at_seg_split(s, i, pre, last);
        lemma_dec_nat_value(s, i, n / 10);
        lemma_at_seg_char(s, i + pre.len(), last);
        lemma_digit_char_val((n % 10) as int);
        assert(digits_value(s, i, i + e.len()) == digits_value(s, i, i + e.len() - 1) * 10
            + digit_val(s[i + e.len() - 1]));
    }
}

proof fn lemma_digits_end_run(s: Seq<char>, i: int, j: int)
    requires
        0 <= i <= j <= s.len(),
        all_digits(s, i, j),
        j < s.len() ==> !is_digit(s[j]),
    ensures
        digits_end(s, i) == j,
    decreases j - i,
{
    if i < j {
        assert(is_digit(s[i]));
        lemma_digits_end_run(s, i + 1, j);
    }
}

proof fn lemma_parse_int_at(s: Seq<char>, i: int, v: int)
    requires
        -2147483648 <= v <= 2147483647,
        at_seg(s, i, dec_int(v)),
        i + dec_int(v).len() < s.len(),
        !is_digit(s[i + dec_int(v).len()]),
    ensures
        spec_parse_int(s, i) == Some((v, i + dec_int(v).len())),
{
    if v >= 0 {
        let e = dec_nat(v as nat);
        lemma_dec_nat_chars(v as nat);
        lemma_at_seg_char(s, i, e);
        assert(is_digit(s[i]));
        assert(s[i] != '-') by {
            if s[i] == '-' {
                assert(s[i] as u32 == 45);
            }
        }
        lemma_dec_nat_value(s, i, v as nat);
        lemma_digits_end_run(s, i, i + e.len());
        if v == 0 {
            assert(e =~= seq!['0']);
        } else {
            assert(s[i] == e[0]);
            assert(s[i] != '0');
        }
    } else {
        let m = (-v) as nat;
        let e = dec_nat(m);
        assert(dec_int(v) == seq!['-'] + e);
        lemma_at_seg_split(s, i, seq!['-'], e);
        lemma_at_seg_char(s, i, seq!['-']);
        assert(s[i] == '-');
        lemma_dec_nat_chars(m);
        lemma_dec_nat_value(s, i + 1, m);
        lemma_digits_end_run(s, i + 1, i + 1 + e.len());
        assert(s[i + 1] == e[0]) by {
            lemma_at_seg_char(s, i + 1, e);
        }
        assert(s[i + 1] != '0');
        assert(digits_value(s, i + 1, i + 1 + e.len()) == m);
    }
}

proof fn lemma_escape_first(t: Seq<char>)
    requires
        t.len() > 0,
    ensures
        escape_text(t) == escape_char(t[0]) + escape_text(t.drop_first()),
    decreases t.len(),
{
    if t.len() == 1 {
        assert(t.drop_last() =~= Seq::<char>::empty());
        assert(t.drop_first() =~= Seq::<char>::empty());
        assert(escape_text(t) == escape_text(t.drop_last()) + escape_char(t.last()));
        assert(escape_char(t[0]) + escape_text(t.drop_first()) =~= escape_char(t[0]));
        assert(escape_text(t.drop_last()) + escape_char(t.last()) =~= escape_char(t[0]));
    } else {
        let u = t.drop_last();
        lemma_escape_first(u);
        assert(u[0] == t[0]);
        assert(u.drop_first() =~= t.drop_first().drop_last());
        assert(t.drop_first().last() == t.last());
        assert(escape_text(t) == escape_text(u) + escape_char(t.last()));
        assert(escape_text(u) == escape_char(t[0]) + escape_text(t.drop_first().drop_last()));
        assert(escape_text(t.drop_first()) == escape_text(t.drop_first().drop_last())
            + escape_char(t.drop_first().last()));
        assert((escape_char(t[0]) + escape_text(t.drop_first().drop_last())) + escape_char(
            t.last(),
        ) =~= escape_char(t[0]) + (escape_text(t.drop_first().drop_last()) + escape_char(
            t.last(),
        )));
    }
}

proof fn lemma_parse_string_body_at(s: Seq<char>, i: int, t: Seq<char>)
    requires
        at_seg(s, i, escape_text(t) + seq!['"']),
    ensures
        spec_parse_string_body(s, i) == Some((t, i + escape_text(t).len() + 1)),
    decreases t.len(),
{
    if t.len() == 0 {
        assert(escape_text(t) + seq!['"'] =~= seq!['"']);
        lemma_at_seg_char(s, i, seq!['"']);
        assert(s[i] == '"');
        assert(spec_parse_string_body(s, i) == Some((Seq::<char>::empty(), i + 1)));
        assert(t =~= Seq::<char>::empty());
    } else {
        let c = t[0];
        let e = escape_char(c);
        let rest = t.drop_first();
        lemma_escape_first(t);
        assert(escape_text(t) + seq!['"'] =~= e + (escape_text(rest) + seq!['"']));
        lemma_at_seg_split(s, i, e, escape_text(rest) + seq!['"']);
        lemma_parse_string_body_at(s, i + e.len(), rest);
        let inner = Some((rest, i + e.len() + escape_text(rest).len() + 1));
        assert(spec_parse_string_body(s, i + e.len()) == inner);
        assert(seq![c] + rest =~= t);
        if c == '"' || c == '\\' {
            assert(e =~= seq!['\\'] + seq![c]);
            lemma_at_seg_split(s, i, seq!['\\'], seq![c]);
            lemma_at_seg_char(s, i + 1, seq![c]);
            assert(s[i] == '\\' && s[i + 1] == c);
        } else if c == '\u{8}' {
            assert(e =~= seq!['\\'] + seq!['b']);
            lemma_at_seg_split(s, i, seq!['\\'], seq!['b']);
            lemma_at_seg_char(s, i, seq!['\\']);
            lemma_at_seg_char(s, i + 1, seq!['b']);
            assert(s[i] == '\\' && s[i + 1] == 'b');
        } else if c == '\t' {
            assert(e =~= seq!['\\'] + seq!['t']);
            lemma_at_seg_split(s, i, seq!['\\'], seq!['t']);
            lemma_at_seg_char(s, i, seq!['\\']);
            lemma_at_seg_char(s, i + 1, seq!['t']);
            assert(s[i] == '\\' && s[i + 1] == 't');
        } else if c == '\n' {
            assert(e =~= seq!['\\'] + seq!['n']);
            lemma_at_seg_split(s, i, seq!['\\'], seq!['n']);
            lemma_at_seg_char(s, i, seq!['\\']);
            lemma_at_seg_char(s, i + 1, seq!['n']);
            assert(s[i] == '\\' && s[i + 1] == 'n');
        } else if c == '\u{c}' {
            assert(e =~= seq!['\\'] + seq!['f']);
            lemma_at_seg_split(s, i, seq!['\\'], seq!['f']);
            lemma_at_seg_char(s, i, seq!['\\']);
            lemma_at_seg_char(s, i + 1, seq!['f']);
            assert(s[i] == '\\' && s[i + 1] == 'f');
        } else if c == '\r' {
            assert(e =~= seq!['\\'] + seq!['r']);
            lemma_at_seg_split(s, i, seq!['\\'], seq!['r']);
            lemma_at_seg_char(s, i, seq!['\\']);
            lemma_at_seg_char(s, i + 1, seq!['r']);
            assert(s[i] == '\\' && s[i + 1] == 'r');
        } else if (c as u32) < 32 {
            let hi = (c as u32 / 16) as int;
            let lo = (c as u32 % 16) as int;
            assert(e == seq!['\\', 'u', '0', '0', hex_char(hi), hex_char(lo)]);
            assert(s[i] == '\\' && s[i + 1] == 'u' && s[i + 2] == '0' && s[i + 3] == '0'
                && s[i + 4] == hex_char(hi) && s[i + 5] == hex_char(lo)) by {
                assert forall|k: int| 0 <= k < e.len() implies s[i + k] == e[k] by {
                    assert(s.subrange(i, i + e.len())[k] == e[k]);
                }
            }
            lemma_hex_char_val(hi);
            lemma_hex_char_val(lo);
            assert(hex4_ok(s, i + 2));
            assert(hex4_val(s, i + 2) == c as u32);
            assert((((c as u32) as u32) as char) == c) by {
                vstd::utf8::char_u32_cast(c, c as u32);
            }
            assert(spec_parse_string_body(s, i) == prepend_char(c, inner));
        } else {
            assert(e =~= seq![c]);
            lemma_at_seg_char(s, i, e);
            assert(s[i] == c);
            assert(c != '"' && c != '\\');
        }
        assert(spec_parse_string_body(s, i) == Some((t, i + escape_text(t).len() + 1)));
    }
}

proof fn lemma_parse_string_at(s: Seq<char>, i: int, t: Seq<char>)
    requires
        at_seg(s, i, quoted(t)),
    ensures
        spec_parse_string(s, i) == Some((t, i + quoted(t).len())),
{
    assert(quoted(t) =~= seq!['"'] + (escape_text(t) + seq!['"']));
    lemma_at_seg_split(s, i, seq!['"'], escape_text(t) + seq!['"']);
    lemma_at_seg_char(s, i, seq!['"']);
    lemma_parse_string_body_at(s, i + 1, t);
}

proof fn lemma_skip_ws_here(s: Seq<char>, p: int)
    requires
        0 <= p < s.len(),
        !is_json_ws(s[p]),
    ensures
        skip_ws(s, p) == p,
{
}

proof fn lemma_after_key_at(s: Seq<char>, i: int, key: Seq<char>)
    requires
        at_seg(s, i, key + seq![':']),
        key.len() > 0,
        !is_json_ws(key[0]),
    ensures
        after_key(s, i, key) == Some(i + key.len() + 1),
{
    lemma_at_seg_split(s, i, key, seq![':']);
    lemma_at_seg_char(s, i, key);
    lemma_skip_ws_here(s, i);
    lemma_token_here(s, i, key);
    lemma_at_seg_char(s, i + key.len(), seq![':']);
    assert(!is_json_ws(':'));
    lemma_skip_ws_here(s, i + key.len());
    lemma_token_here(s, i + key.len(), seq![':']);
    assert(token_at(s, i + key.len(), seq![':']));
}

#[verifier::rlimit(50)]
proof fn lemma_parse_order_at(s: Seq<char>, i: int, o: OrderStatusModel)
    requires
        o.wf(),
        at_seg(s, i, encode_order(o)),
    ensures
        spec_parse_order(s, i) == Some((o, i + encode_order(o).len())),
{
    let k1 = key_order_id();
    let k2 = key_order_date();
    let k3 = key_status();
    let e_id = dec_int(o.order_id);
    let q_d = quoted(o.order_date);
    let q_s = quoted(o.status);
    let e = encode_order(o);

    let r1 = (k1 + seq![':']) + (e_id + ((seq![','] + (k2 + seq![':'])) + (q_d + ((seq![','] + (k3
        + seq![':'])) + (q_s + seq!['}'])))));
    assert(e =~= seq!['{'] + r1);
    lemma_at_seg_split(s, i, seq!['{'], r1);
    lemma_at_seg_char(s, i, seq!['{']);
    lemma_skip_ws_here(s, i);
    lemma_token_here(s, i, seq!['{']);

    let p_k1 = i + 1;
    let r2 = e_id + ((seq![','] + (k2 + seq![':'])) + (q_d + ((seq![','] + (k3 + seq![':'])) + (q_s
        + seq!['}']))));
    lemma_at_seg_split(s, p_k1, k1 + seq![':'], r2);
    assert(k1[0] == '"');
    lemma_after_key_at(s, p_k1, k1);
    let p_id = p_k1 + k1.len() + 1;
    assert(after_key(s, i + 1, k1) == Some(p_id));

    let r3 = (seq![','] + (k2 + seq![':'])) + (q_d + ((seq![','] + (k3 + seq![':'])) + (q_s
        + seq!['}'])));
    lemma_at_seg_split(s, p_id, e_id, r3);
    if o.order_id >= 0 {
        lemma_dec_nat_chars(o.order_id as nat);
        lemma_at_seg_char(s, p_id, e_id);
        assert(is_digit(s[p_id]));
        lemma_skip_ws_here(s, p_id);
    } else {
        assert(e_id == seq!['-'] + dec_nat((-o.order_id) as nat));
        lemma_at_seg_char(s, p_id, e_id);
        assert(s[p_id] == '-');
        assert(!is_json_ws('-'));
        lemma_skip_ws_here(s, p_id);
    }
    let q1 = p_id + e_id.len();
    lemma_at_seg_char(s, q1, r3);
    assert(r3[0] == ',');
    assert(s[q1] == ',');
    assert(!is_digit(',')) by {
        assert(',' as u32 == 44);
    }
    lemma_parse_int_at(s, p_id, o.order_id);
    assert(spec_parse_int(s, p_id) == Some((o.order_id, q1)));
    lemma_skip_ws_here(s, q1);
    let r4 = (k2 + seq![':']) + (q_d + ((seq![','] + (k3 + seq![':'])) + (q_s + seq!['}'])));
    assert(r3 =~= seq![','] + r4);
    lemma_at_seg_split(s, q1, seq![','], r4);
    lemma_token_here(s, q1, seq![',']);

    let p_k2 = q1 + 1;
    let r5 = q_d + ((seq![','] + (k3 + seq![':'])) + (q_s + seq!['}']));
    lemma_at_seg_split(s, p_k2, k2 + seq![':'], r5);
    assert(k2[0] == '"');
    lemma_after_key_at(s, p_k2, k2);
    let p_d = p_k2 + k2.len() + 1;

    let r6 = (seq![','] + (k3 + seq![':'])) + (q_s + seq!['}']);
    lemma_at_seg_split(s, p_d, q_d, r6);
    lemma_at_seg_char(s, p_d, q_d);
    assert(q_d[0] == '"');
    lemma_skip_ws_here(s, p_d);
    lemma_parse_string_at(s, p_d, o.order_date);
    let q2 = p_d + q_d.len();
    assert(spec_parse_string(s, p_d) == Some((o.order_date, q2)));

    lemma_at_seg_char(s, q2, r6);
    assert(r6[0] == ',');
    lemma_skip_ws_here(s, q2);
    let r7 = (k3 + seq![':']) + (q_s + seq!['}']);
    assert(r6 =~= seq![','] + r7);
    lemma_at_seg_split(s, q2, seq![','], r7);
    lemma_token_here(s, q2, seq![',']);

    let p_k3 = q2 + 1;
    let r8 = q_s + seq!['}'];
    lemma_at_seg_split(s, p_k3, k3 + seq![':'], r8);
    assert(k3[0] == '"');
    lemma_after_key_at(s, p_k3, k3);
    let p_s = p_k3 + k3.len() + 1;

    lemma_at_seg_split(s, p_s, q_s, seq!['}']);
    lemma_at_seg_char(s, p_s, q_s);
    assert(q_s[0] == '"');
    lemma_skip_ws_here(s, p_s);
    lemma_parse_string_at(s, p_s, o.status);
    let q3 = p_s + q_s.len();
    assert(spec_parse_string(s, p_s) == Some((o.status, q3)));

    lemma_at_seg_char(s, q3, seq!['}']);
    assert(s[q3] == '}');
    lemma_skip_ws_here(s, q3);
    lemma_token_here(s, q3, seq!['}']);
    assert(!token_at(s, q3, seq![','])) by {
        if token_at(s, q3, seq![',']) {
            assert(s.subrange(q3, q3 + 1)[0] == ',');
        }
    }

    // walk the member list: the encoder writes the members in declared order
    let acc0 = empty_partial();
    let acc1 = PartialOrder { id: Some(o.order_id), date: None, status: None };
    let acc2 = PartialOrder { id: Some(o.order_id), date: Some(o.order_date), status: None };
    let acc3 = PartialOrder {
        id: Some(o.order_id),
        date: Some(o.order_date),
        status: Some(o.status),
    };

    assert(spec_parse_member(s, p_k1, acc0) matches Some(r) && r.0 =~~= acc1 && r.1 == q1);
    assert(spec_parse_members(s, p_k1, acc0) == spec_parse_members(s, p_k2, acc1));

    lemma_at_seg_split(s, p_k2, k2, seq![':']);
    lemma_at_seg_char(s, p_k2, k2);
    assert(s[p_k2] == '"');
    assert(after_key(s, p_k2, key_order_id()) is None) by {
        lemma_skip_ws_here(s, p_k2);
        if token_at(s, p_k2, key_order_id()) {
            assert(s.subrange(p_k2, p_k2 + key_order_id().len())[7] == key_order_id()[7]);
            assert(s.subrange(p_k2, p_k2 + k2.len())[7] == k2[7]);
            assert(false);
        }
    }
    assert(spec_parse_member(s, p_k2, acc1) matches Some(r) && r.0 =~~= acc2 && r.1 == q2);
    assert(spec_parse_members(s, p_k2, acc1) == spec_parse_members(s, p_k3, acc2));

    lemma_at_seg_split(s, p_k3, k3, seq![':']);
    lemma_at_seg_char(s, p_k3, k3);
    assert(s[p_k3] == '"');
    assert(after_key(s, p_k3, key_order_id()) is None) by {
        lemma_skip_ws_here(s, p_k3);
        if token_at(s, p_k3, key_order_id()) {
            assert(s.subrange(p_k3, p_k3 + key_order_id().len())[1] == key_order_id()[1]);
            assert(s.subrange(p_k3, p_k3 + k3.len())[1] == k3[1]);
            assert(false);
        }
    }
    assert(after_key(s, p_k3, key_order_date()) is None) by {
        lemma_skip_ws_here(s, p_k3);
        if token_at(s, p_k3, key_order_date()) {
            assert(s.subrange(p_k3, p_k3 + key_order_date().len())[1] == key_order_date()[1]);
            assert(s.subrange(p_k3, p_k3 + k3.len())[1] == k3[1]);
            assert(false);
        }
    }
    assert(spec_parse_member(s, p_k3, acc2) matches Some(r) && r.0 =~~= acc3 && r.1 == q3);
    assert(spec_parse_members(s, p_k3, acc2) == Some((acc3, q3 + 1)));

    assert(q3 + 1 == i + e.len());
    assert(spec_parse_order(s, i) matches Some(p) && p.0 =~~= o && p.1 == i + e.len());
}

proof fn lemma_parse_items_at(s: Seq<char>, i: int, os: Seq<OrderStatusModel>)
    requires
        os.len() >= 1,
        forall|k: int| 0 <= k < os.len() ==> os[k].wf(),
        at_seg(s, i, encode_items(os) + seq![']']),
    ensures
        spec_parse_items(s, i) == Some((os, i + encode_items(os).len() + 1)),
    decreases os.len(),
{
    if os.len() == 1 {
        assert(encode_items(os) == encode_order(os[0]));
        lemma_at_seg_split(s, i, encode_order(os[0]), seq![']']);
        lemma_parse_order_at(s, i, os[0]);
        let j = i + encode_order(os[0]).len();
        lemma_at_seg_char(s, j, seq![']']);
        assert(s[j] == ']');
        lemma_skip_ws_here(s, j);
        assert(!token_at(s, j, seq![','])) by {
            if token_at(s, j, seq![',']) {
                assert(s.subrange(j, j + 1)[0] == ',');
            }
        }
        lemma_token_here(s, j, seq![']']);
        assert(seq![os[0]] =~= os);
    } else {
        let rest = os.drop_first();
        assert(encode_items(os) == encode_order(os[0]) + seq![','] + encode_items(rest));
        let tail = seq![','] + (encode_items(rest) + seq![']']);
        assert(encode_items(os) + seq![']'] =~= encode_order(os[0]) + tail);
        lemma_at_seg_split(s, i, encode_order(os[0]), tail);
        lemma_parse_order_at(s, i, os[0]);
        let j = i + encode_order(os[0]).len();
        lemma_at_seg_char(s, j, tail);
        assert(s[j] == ',');
        lemma_skip_ws_here(s, j);
        lemma_at_seg_split(s, j, seq![','], encode_items(rest) + seq![']']);
        lemma_token_here(s, j, seq![',']);
        assert(forall|k: int| 0 <= k < rest.len() ==> rest[k] == os[k + 1]);
        lemma_parse_items_at(s, j + 1, rest);
        assert(seq![os[0]] + rest =~= os);
    }
}

/// Every record a successful parse yields is well-formed: its identifier was
/// admitted by the integer parser's range check.
proof fn lemma_parse_order_wf(s: Seq<char>, i: int)
    ensures
        spec_parse_order(s, i) matches Some(p) ==> p.0.wf(),
{
    let j0 = skip_ws(s, i);
    if token_at(s, j0, seq!['{']) {
        crate::parse::lemma_parse_members_advances(s, j0 + 1, empty_partial());
    }
}

proof fn lemma_parse_items_wf(s: Seq<char>, i: int)
    ensures
        spec_parse_items(s, i) matches Some(p) ==> forall|k: int|
            0 <= k < p.0.len() ==> p.0[k].wf(),
    decreases s.len() - i,
{
    crate::parse::lemma_parse_order_advances(s, i);
    lemma_parse_order_wf(s, i);
    match spec_parse_order(s, i) {
        None => {},
        Some((o, j)) => {
            crate::parse::lemma_skip_ws(s, j);
            let k = skip_ws(s, j);
            if token_at(s, k, seq![',']) {
                lemma_parse_items_wf(s, k + 1);
            }
        },
    }
}

/// The records of a decoded orders document are all well-formed.
pub proof fn lemma_parse_orders_wf(s: Seq<char>)
    ensures
        spec_parse_orders(s) matches Some(os) ==> forall|k: int| 0 <= k < os.len() ==> os[k].wf(),
{
    let i0 = skip_ws(s, 0);
    if token_at(s, i0, seq!['[']) {
        lemma_parse_items_wf(s, i0 + 1);
    }
}

/// Decoding an encoded orders document yields exactly the records that were
/// encoded: the orders endpoint's body decodes to the record set it was made
/// from, and re-encoding gives the same body.
pub proof fn lemma_orders_round_trip(os: Seq<OrderStatusModel>)
    requires
        forall|k: int| 0 <= k < os.len() ==> os[k].wf(),
    ensures
        spec_parse_orders(encode_orders(os)) == Some(os),
{
    let s = encode_orders(os);
    assert(s.subrange(0, s.len() as int) =~= s);
    assert(at_seg(s, 0, s));
    assert(s =~= seq!['['] + (encode_items(os) + seq![']']));
    lemma_at_seg_split(s, 0, seq!['['], encode_items(os) + seq![']']);
    lemma_at_seg_char(s, 0, seq!['[']);
    lemma_skip_ws_here(s, 0);
    lemma_token_here(s, 0, seq!['[']);
    if os.len() == 0 {
        assert(encode_items(os) + seq![']'] =~= seq![']']);
        lemma_at_seg_char(s, 1, seq![']']);
        assert(s[1] == ']');
        lemma_skip_ws_here(s, 1);
        lemma_token_here(s, 1, seq![']']);
        assert(skip_ws(s, 2) == s.len());
        assert(spec_parse_orders(s) == Some(Seq::<OrderStatusModel>::empty()));
        assert(os =~= Seq::<OrderStatusModel>::empty());
    } else {
        assert(encode_items(os)[0] == '{') by {
            if os.len() == 1 {
                assert(encode_items(os) == encode_order(os[0]));
            } else {
                assert(encode_items(os) == encode_order(os[0]) + seq![','] + encode_items(
                    os.drop_first(),
                ));
            }
            assert(encode_order(os[0])[0] == '{');
        }
        lemma_at_seg_char(s, 1, encode_items(os) + seq![']']);
        assert(s[1] == '{');
        lemma_skip_ws_here(s, 1);
        assert(!token_at(s, 1, seq![']'])) by {
            if token_at(s, 1, seq![']']) {
                assert(s.subrange(1, 2)[0] == ']');
            }
        }
        lemma_parse_items_at(s, 1, os);
        assert(spec_parse_items(s, 1) == Some((os, s.len() as int)));
        assert(skip_ws(s, s.len() as int) == s.len());
    }
}

} // verus!
