//! The canonical text forms read back uniquely: a string literal, a
//! decimal number and a timestamp each end where the text says, so equal
//! texts come from equal values.

use vstd::prelude::*;
use crate::codec::{decimal, digit_char, escape_char, hex_digit, json_escaped, json_opt_string, json_string, padded};
use crate::parse::pow10;
use crate::time::Timestamp;

verus! {

pub(crate) proof fn lemma_escaped_head(a: Seq<char>)
    requires
        a.len() > 0,
    ensures
        json_escaped(a) == escape_char(a[0]) + json_escaped(a.drop_first()),
    decreases a.len(),
{
    if a.len() == 1 {
        assert(a.drop_last() =~= Seq::<char>::empty());
        assert(a.drop_first() =~= Seq::<char>::empty());
        assert(json_escaped(a.drop_last()) =~= Seq::<char>::empty());
        assert(json_escaped(a.drop_first()) =~= Seq::<char>::empty());
        assert(json_escaped(a) == json_escaped(a.drop_last()) + escape_char(a.last()));
        assert(json_escaped(a) =~= escape_char(a[0]) + json_escaped(a.drop_first()));
    } else {
        lemma_escaped_head(a.drop_last());
        assert(a.drop_last().drop_first() =~= a.drop_first().drop_last());
        assert(a.drop_first().last() == a.last());
        assert(json_escaped(a.drop_first()) == json_escaped(a.drop_first().drop_last()) + escape_char(a.drop_first().last()));
        assert(json_escaped(a) =~= escape_char(a[0]) + json_escaped(a.drop_first()));
    }
}

proof fn lemma_hex_digit_injective(x: nat, y: nat)
    requires
        x < 16,
        y < 16,
        hex_digit(x) == hex_digit(y),
    ensures
        x == y,
{
}

proof fn lemma_escape_char_prefix(c: char, d: char, x: Seq<char>, y: Seq<char>)
    requires
        escape_char(c) + x == escape_char(d) + y,
    ensures
        c == d,
        x == y,
{
    let l = escape_char(c) + x;
    let r = escape_char(d) + y;
    assert(l[0] == r[0]);
    if escape_char(c)[0] != '\\' {
        assert(escape_char(c) == seq![c]);
        assert(escape_char(d) == seq![d]);
    } else {
        assert(escape_char(d)[0] == '\\');
        assert(l[1] == r[1]);
        if escape_char(c)[1] == 'u' {
            assert(l[4] == r[4] && l[5] == r[5]);
            lemma_hex_digit_injective((c as u32 / 16) as nat, (d as u32 / 16) as nat);
            lemma_hex_digit_injective((c as u32 % 16) as nat, (d as u32 % 16) as nat);
            assert(c as u32 == d as u32);
        }
    }
    assert(escape_char(c) == escape_char(d));
    assert(x =~= l.skip(escape_char(c).len() as int));
    assert(y =~= r.skip(escape_char(d).len() as int));
}

proof fn lemma_escaped_unique(a: Seq<char>, b: Seq<char>, x: Seq<char>, y: Seq<char>)
    requires
        json_escaped(a) + (seq!['"'] + x) == json_escaped(b) + (seq!['"'] + y),
    ensures
        a == b,
        x == y,
    decreases a.len(),
{
    let l = json_escaped(a) + (seq!['"'] + x);
    let r = json_escaped(b) + (seq!['"'] + y);
    if a.len() == 0 {
        if b.len() > 0 {
            lemma_escaped_head(b);
            assert(r[0] == escape_char(b[0])[0]);
            assert(l[0] == '"');
        }
        assert(b =~= Seq::<char>::empty());
        assert(x =~= l.skip(1));
        assert(y =~= r.skip(1));
    } else if b.len() == 0 {
        lemma_escaped_head(a);
        assert(l[0] == escape_char(a[0])[0]);
        assert(r[0] == '"');
    } else {
        lemma_escaped_head(a);
        lemma_escaped_head(b);
        assert(l =~= escape_char(a[0]) + (json_escaped(a.drop_first()) + (seq!['"'] + x)));
        assert(r =~= escape_char(b[0]) + (json_escaped(b.drop_first()) + (seq!['"'] + y)));
        lemma_escape_char_prefix(a[0], b[0], json_escaped(a.drop_first()) + (seq!['"'] + x), json_escaped(b.drop_first()) + (seq!['"'] + y));
        lemma_escaped_unique(a.drop_first(), b.drop_first(), x, y);
        assert(a =~= seq![a[0]] + a.drop_first());
        assert(b =~= seq![b[0]] + b.drop_first());
    }
}

/// A JSON string literal ends where its closing quote stands: what it
/// holds, and what follows it, are determined by the text.
pub proof fn lemma_string_unique(a: Seq<char>, b: Seq<char>, x: Seq<char>, y: Seq<char>)
    requires
        json_string(a) + x == json_string(b) + y,
    ensures
        a == b,
        x == y,
{
    let l = json_string(a) + x;
    let r = json_string(b) + y;
    assert(l.skip(1) =~= json_escaped(a) + (seq!['"'] + x));
    assert(r.skip(1) =~= json_escaped(b) + (seq!['"'] + y));
    lemma_escaped_unique(a, b, x, y);
}

/// The same for a string that may be `null`.
pub proof fn lemma_opt_string_unique(a: Option<Seq<char>>, b: Option<Seq<char>>, x: Seq<char>, y: Seq<char>)
    requires
        json_opt_string(a) + x == json_opt_string(b) + y,
    ensures
        a == b,
        x == y,
{
    let l = json_opt_string(a) + x;
    let r = json_opt_string(b) + y;
    match (a, b) {
        (Some(s), Some(t)) => {
            lemma_string_unique(s, t, x, y);
        },
        (None, None) => {
            assert(x =~= l.skip(4));
            assert(y =~= r.skip(4));
        },
        (Some(s), None) => {
            assert(l[0] == '"' && r[0] == 'n');
        },
        (None, Some(t)) => {
            assert(l[0] == 'n' && r[0] == '"');
        },
    }
}

/// A literal prefix can be taken off both sides.
pub proof fn lemma_prefix_cancel(p: Seq<char>, x: Seq<char>, y: Seq<char>)
    requires
        p + x == p + y,
    ensures
        x == y,
{
    assert(x =~= (p + x).skip(p.len() as int));
    assert(y =~= (p + y).skip(p.len() as int));
}

proof fn lemma_digit_injective(a: nat, b: nat)
    requires
        a < 10,
        b < 10,
        digit_char(a) == digit_char(b),
    ensures
        a == b,
{
}

pub(crate) proof fn lemma_padded_len(n: nat, w: nat)
    ensures
        padded(n, w).len() == w,
    decreases w,
{
    if w > 0 {
        lemma_padded_len(n / 10, (w - 1) as nat);
    }
}

pub(crate) proof fn lemma_padded_injective(a: nat, b: nat, w: nat)
    requires
        a < pow10(w),
        b < pow10(w),
        padded(a, w) == padded(b, w),
    ensures
        a == b,
    decreases w,
{
    if w == 0 {
        assert(a == 0 && b == 0);
    } else {
        let pa = padded(a, w);
        let pb = padded(b, w);
        assert(pa.last() == pb.last());
        assert(digit_char(a % 10) == digit_char(b % 10));
        assert(a % 10 == b % 10);
        assert(pa.drop_last() == pb.drop_last());
        assert(padded(a / 10, (w - 1) as nat) =~= pa.drop_last());
        assert(padded(b / 10, (w - 1) as nat) =~= pb.drop_last());
        let p = pow10((w - 1) as nat);
        assert(a / 10 < p && b / 10 < p) by (nonlinear_arith)
            requires a < 10 * p, b < 10 * p;
        lemma_padded_injective(a / 10, b / 10, (w - 1) as nat);
        assert(a == 10 * (a / 10) + a % 10 && b == 10 * (b / 10) + b % 10) by (nonlinear_arith);
    }
}

pub(crate) proof fn lemma_decimal_shape(n: nat)
    ensures
        decimal(n).len() >= 1,
        n >= 10 ==> decimal(n).len() >= 2,
        forall|i: int| 0 <= i < decimal(n).len() ==> #[trigger] decimal(n)[i] != ',',
    decreases n,
{
    if n >= 10 {
        lemma_decimal_shape(n / 10);
        assert forall|i: int| 0 <= i < decimal(n).len() implies #[trigger] decimal(n)[i] != ',' by {
            if i < decimal(n / 10).len() {
                assert(decimal(n)[i] == decimal(n / 10)[i]);
            }
        }
    }
}

proof fn lemma_decimal_injective(a: nat, b: nat)
    requires
        decimal(a) == decimal(b),
    ensures
        a == b,
    decreases a,
{
    lemma_decimal_shape(a);
    lemma_decimal_shape(b);
    if a < 10 && b < 10 {
        assert(decimal(a) == seq![digit_char(a)]);
        assert(decimal(b) == seq![digit_char(b)]);
        assert(decimal(a)[0] == digit_char(a));
        assert(decimal(b)[0] == digit_char(b));
        lemma_digit_injective(a, b);
    } else if a < 10 || b < 10 {
        assert(a < 10 ==> decimal(a).len() == 1);
        assert(b < 10 ==> decimal(b).len() == 1);
    } else {
        assert(decimal(a) == decimal(a / 10).push(digit_char(a % 10)));
        assert(decimal(b) == decimal(b / 10).push(digit_char(b % 10)));
        assert(decimal(a).last() == digit_char(a % 10));
        assert(decimal(b).last() == digit_char(b % 10));
        lemma_digit_injective(a % 10, b % 10);
        assert(decimal(a / 10) =~= decimal(a).drop_last());
        assert(decimal(b / 10) =~= decimal(b).drop_last());
        lemma_decimal_injective(a / 10, b / 10);
        assert(a == 10 * (a / 10) + a % 10 && b == 10 * (b / 10) + b % 10) by (nonlinear_arith);
    }
}

/// A decimal number followed by a comma is read back uniquely.
pub proof fn lemma_decimal_unique(a: nat, b: nat, x: Seq<char>, y: Seq<char>)
    requires
        decimal(a) + x == decimal(b) + y,
        x.len() > 0 && x[0] == ',',
        y.len() > 0 && y[0] == ',',
    ensures
        a == b,
        x == y,
{
    lemma_decimal_shape(a);
    lemma_decimal_shape(b);
    let l = decimal(a) + x;
    let r = decimal(b) + y;
    let la = decimal(a).len();
    let lb = decimal(b).len();
    if la < lb {
        assert(l[la as int] == ',');
        assert(r[la as int] == decimal(b)[la as int]);
    } else if lb < la {
        assert(r[lb as int] == ',');
        assert(l[lb as int] == decimal(a)[lb as int]);
    }
    assert(decimal(a) =~= l.take(la as int));
    assert(decimal(b) =~= r.take(lb as int));
    lemma_decimal_injective(a, b);
    lemma_prefix_cancel(decimal(a), x, y);
}

pub(crate) proof fn lemma_pow10_values()
    ensures
        pow10(2) == 100,
        pow10(4) == 10000,
        pow10(9) == 1_000_000_000,
{
    reveal_with_fuel(pow10, 10);
}

/// The RFC 3339 text of a well-formed timestamp is read back uniquely.
pub proof fn lemma_rfc3339_unique(t: Timestamp, u: Timestamp, x: Seq<char>, y: Seq<char>)
    requires
        t.wf(),
        u.wf(),
        t.rfc3339() + x == u.rfc3339() + y,
    ensures
        t == u,
        x == y,
{
    lemma_padded_len(t.year as nat, 4);
    lemma_padded_len(t.month as nat, 2);
    lemma_padded_len(t.day as nat, 2);
    lemma_padded_len(t.hour as nat, 2);
    lemma_padded_len(t.minute as nat, 2);
    lemma_padded_len(t.second as nat, 2);
    lemma_padded_len(t.nanosecond as nat, 9);
    lemma_padded_len(u.year as nat, 4);
    lemma_padded_len(u.month as nat, 2);
    lemma_padded_len(u.day as nat, 2);
    lemma_padded_len(u.hour as nat, 2);
    lemma_padded_len(u.minute as nat, 2);
    lemma_padded_len(u.second as nat, 2);
    lemma_padded_len(u.nanosecond as nat, 9);
    let a = t.rfc3339();
    let b = u.rfc3339();
    assert(a.len() == 30 && b.len() == 30);
    assert(a =~= (a + x).take(30));
    assert(b =~= (b + y).take(30));
    assert(a == b);
    lemma_pow10_values();
    assert(a.subrange(0, 4) =~= padded(t.year as nat, 4));
    assert(b.subrange(0, 4) =~= padded(u.year as nat, 4));
    lemma_padded_injective(t.year as nat, u.year as nat, 4);
    assert(a.subrange(5, 7) =~= padded(t.month as nat, 2));
    assert(b.subrange(5, 7) =~= padded(u.month as nat, 2));
    lemma_padded_injective(t.month as nat, u.month as nat, 2);
    assert(a.subrange(8, 10) =~= padded(t.day as nat, 2));
    assert(b.subrange(8, 10) =~= padded(u.day as nat, 2));
    lemma_padded_injective(t.day as nat, u.day as nat, 2);
    assert(a.subrange(11, 13) =~= padded(t.hour as nat, 2));
    assert(b.subrange(11, 13) =~= padded(u.hour as nat, 2));
    lemma_padded_injective(t.hour as nat, u.hour as nat, 2);
    assert(a.subrange(14, 16) =~= padded(t.minute as nat, 2));
    assert(b.subrange(14, 16) =~= padded(u.minute as nat, 2));
    lemma_padded_injective(t.minute as nat, u.minute as nat, 2);
    assert(a.subrange(17, 19) =~= padded(t.second as nat, 2));
    assert(b.subrange(17, 19) =~= padded(u.second as nat, 2));
    lemma_padded_injective(t.second as nat, u.second as nat, 2);
    assert(a.subrange(20, 29) =~= padded(t.nanosecond as nat, 9));
    assert(b.subrange(20, 29) =~= padded(u.nanosecond as nat, 9));
    lemma_padded_injective(t.nanosecond as nat, u.nanosecond as nat, 9);
    lemma_prefix_cancel(a, x, y);
}

} // verus!
