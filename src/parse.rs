//! Reading the canonical JSON text back, piece by piece; each reader states
//! the exact span it consumed.

use vstd::prelude::*;
use vstd::std_specs::iter::IteratorSpec;
use crate::canon::lemma_decimal_shape;
use crate::codec::{decimal, digit_char, escape_char, hex_digit, json_escaped, json_null, json_opt_string, json_string, json_string_array, json_string_items, padded, push_char, strings_view};

verus! {

/// The characters of `s`, in order.
pub fn chars_of(s: &str) -> (r: Vec<char>)
    ensures
        r@ == s@,
{
    let mut r: Vec<char> = Vec::new();
    let mut it = s.chars();
    let ghost k: int = 0;
    loop
        invariant
            0 <= k <= s@.len(),
            it.remaining() =~= s@.subrange(k, s@.len() as int),
            r@ =~= s@.subrange(0, k),
        ensures
            r@ =~= s@,
        decreases s@.len() - k,
    {
        let ghost before = it.remaining();
        match it.next() {
            Some(c) => {
                r.push(c);
                proof {
                    k = k + 1;
                }
            },
            None => {
                assert(before.len() == 0);
                break;
            },
        }
    }
    r
}

/// Matches the literal `lit` at `pos`; returns the position after it.
pub fn expect_literal(s: &Vec<char>, pos: usize, lit: &str) -> (r: Option<usize>)
    requires
        pos <= s@.len(),
    ensures
        r matches Some(e) ==> pos <= e <= s@.len() && s@.subrange(pos as int, e as int) == lit@,
        forall|rest: Seq<char>| #[trigger] (lit@ + rest) == s@.skip(pos as int) ==> r == Some((pos + lit@.len()) as usize),
{
    let l = chars_of(lit);
    proof {
        assert forall|rest: Seq<char>| #[trigger] (lit@ + rest) == s@.skip(pos as int) implies
            pos + lit@.len() <= s@.len() && s@.subrange(pos as int, pos + lit@.len()) == lit@ by {
            assert(s@.skip(pos as int).len() == s@.len() - pos);
            assert(s@.subrange(pos as int, pos + lit@.len()) =~= (lit@ + rest).take(lit@.len() as int));
        }
    }
    let n = s.len();
    if l.len() > n - pos {
        return None;
    }
    let mut i: usize = 0;
    while i < l.len()
        invariant
            n == s@.len(),
            l@ == lit@,
            forall|rest: Seq<char>| #[trigger] (lit@ + rest) == s@.skip(pos as int) ==>
                s@.subrange(pos as int, pos + lit@.len()) == lit@,
            0 <= i <= l@.len(),
            pos + l@.len() <= s@.len(),
            s@.subrange(pos as int, pos + i) =~= l@.subrange(0, i as int),
        decreases l@.len() - i,
    {
        if s[pos + i] != l[i] {
            proof {
                assert(s@.subrange(pos as int, pos + l@.len())[i as int] == s@[pos + i]);
            }
            return None;
        }
        i = i + 1;
        assert(s@.subrange(pos as int, pos + i) =~= l@.subrange(0, i as int));
    }
    assert(l@.subrange(0, i as int) =~= l@);
    Some(pos + l.len())
}

/// The value of a decimal digit character.
pub fn digit_value(c: char) -> (r: Option<u32>)
    ensures
        r matches Some(d) ==> d < 10 && digit_char(d as nat) == c,
        r is None ==> forall|d: nat| d < 10 ==> digit_char(d) != c,
        r is None <==> !is_digit(c),
        forall|d: nat| d < 10 && #[trigger] digit_char(d) == c ==> r == Some(d as u32),
{
    if c == '0' { Some(0) }
    else if c == '1' { Some(1) }
    else if c == '2' { Some(2) }
    else if c == '3' { Some(3) }
    else if c == '4' { Some(4) }
    else if c == '5' { Some(5) }
    else if c == '6' { Some(6) }
    else if c == '7' { Some(7) }
    else if c == '8' { Some(8) }
    else if c == '9' { Some(9) }
    else { None }
}

proof fn lemma_digit_step(v: nat, d: nat)
    requires
        d < 10,
    ensures
        (v * 10 + d) / 10 == v,
        (v * 10 + d) % 10 == d,
{
    assert((v * 10 + d) / 10 == v && (v * 10 + d) % 10 == d) by (nonlinear_arith)
        requires d < 10;
}

/// Reads exactly `w` decimal digits at `pos`.
pub fn parse_padded(s: &Vec<char>, pos: usize, w: usize) -> (r: Option<(u32, usize)>)
    requires
        pos <= s@.len(),
        w <= 9,
    ensures
        r matches Some((v, e)) ==> pos <= e <= s@.len() && s@.subrange(pos as int, e as int) == padded(v as nat, w as nat),
        forall|v: u32, rest: Seq<char>| (v as int) < pow10(w as nat) && #[trigger] (padded(v as nat, w as nat) + rest) == s@.skip(pos as int)
            ==> r == Some((v, (pos + w) as usize)),
{
    let n = s.len();
    let ghost cond = exists|v: u32, rest: Seq<char>| (v as int) < pow10(w as nat) && #[trigger] (padded(v as nat, w as nat) + rest) == s@.skip(pos as int);
    proof {
        if cond {
            let (v, rest) = choose|v: u32, rest: Seq<char>| (v as int) < pow10(w as nat) && #[trigger] (padded(v as nat, w as nat) + rest) == s@.skip(pos as int);
            crate::canon::lemma_padded_len(v as nat, w as nat);
            lemma_padded_digits(v as nat, w as nat);
            assert(s@.skip(pos as int).len() == n - pos);
            assert forall|k: int| 0 <= k < w implies is_digit(#[trigger] s@[pos + k]) by {
                assert(s@.skip(pos as int)[k] == s@[pos + k]);
                assert(s@.skip(pos as int)[k] == padded(v as nat, w as nat)[k]);
            }
        }
    }
    if w > n - pos {
        return None;
    }
    let mut v: u32 = 0;
    let mut i: usize = 0;
    assert(s@.subrange(pos as int, pos as int) =~= padded(0, 0));
    while i < w
        invariant
            n == s@.len(),
            0 <= i <= w <= 9,
            pos + w <= s@.len(),
            (v as int) < pow10(i as nat),
            s@.subrange(pos as int, pos + i) =~= padded(v as nat, i as nat),
            cond == exists|v: u32, rest: Seq<char>| (v as int) < pow10(w as nat) && #[trigger] (padded(v as nat, w as nat) + rest) == s@.skip(pos as int),
            cond ==> forall|k: int| 0 <= k < w ==> is_digit(#[trigger] s@[pos + k]),
        decreases w - i,
    {
        let d = match digit_value(s[pos + i]) {
            Some(d) => d,
            None => {
                proof {
                    if cond {
                        assert(is_digit(s@[pos + (i as int)]));
                    }
                }
                return None;
            },
        };
        proof {
            lemma_digit_step(v as nat, d as nat);
            lemma_pow10_step(i as nat);
            let p = pow10(i as nat);
            assert(v * 10 + d < 10 * p) by (nonlinear_arith)
                requires v < p, d < 10;
            lemma_pow10_le((i + 1) as nat, 9);
            lemma_pow10_nine();
        }
        v = v * 10 + d;
        i = i + 1;
        assert(s@.subrange(pos as int, pos + i) =~= s@.subrange(pos as int, pos + i - 1).push(s@[pos + i - 1]));
    }
    proof {
        assert forall|v2: u32, rest: Seq<char>| (v2 as int) < pow10(w as nat) && #[trigger] (padded(v2 as nat, w as nat) + rest) == s@.skip(pos as int)
            implies v2 == v by {
            crate::canon::lemma_padded_len(v2 as nat, w as nat);
            assert(s@.subrange(pos as int, pos + w) =~= s@.skip(pos as int).take(w as int));
            assert(padded(v2 as nat, w as nat) =~= (padded(v2 as nat, w as nat) + rest).take(w as int));
            assert(s@.subrange(pos as int, pos + w) == padded(v as nat, w as nat));
            crate::canon::lemma_padded_injective(v as nat, v2 as nat, w as nat);
        }
    }
    Some((v, pos + w))
}

/// Whether `c` is a decimal digit character.
pub open spec fn is_digit(c: char) -> bool {
    c == '0' || c == '1' || c == '2' || c == '3' || c == '4' || c == '5' || c == '6' || c == '7'
        || c == '8' || c == '9'
}

proof fn lemma_padded_digits(n: nat, w: nat)
    ensures
        forall|k: int| 0 <= k < padded(n, w).len() ==> is_digit(#[trigger] padded(n, w)[k]),
    decreases w,
{
    if w > 0 {
        lemma_padded_digits(n / 10, (w - 1) as nat);
        assert forall|k: int| 0 <= k < padded(n, w).len() implies is_digit(#[trigger] padded(n, w)[k]) by {
            if k < padded(n / 10, (w - 1) as nat).len() {
                assert(padded(n, w)[k] == padded(n / 10, (w - 1) as nat)[k]);
            }
        }
    }
}

proof fn lemma_decimal_digits(n: nat)
    ensures
        forall|k: int| 0 <= k < decimal(n).len() ==> is_digit(#[trigger] decimal(n)[k]),
        n >= 1 ==> decimal(n)[0] != '0',
        decimal(n).len() >= 1,
    decreases n,
{
    if n >= 10 {
        lemma_decimal_digits(n / 10);
        assert forall|k: int| 0 <= k < decimal(n).len() implies is_digit(#[trigger] decimal(n)[k]) by {
            if k < decimal(n / 10).len() {
                assert(decimal(n)[k] == decimal(n / 10)[k]);
            }
        }
        assert(decimal(n)[0] == decimal(n / 10)[0]);
    }
}

proof fn lemma_decimal_len_bound(n: nat, k: nat)
    requires
        (n as int) < pow10(k),
        k >= 1,
    ensures
        decimal(n).len() <= k,
    decreases k,
{
    if n >= 10 {
        let p = pow10((k - 1) as nat);
        lemma_pow10_step((k - 1) as nat);
        assert(n / 10 < p) by (nonlinear_arith)
            requires n < 10 * p;
        if k == 1 {
            assert(pow10(1) == 10) by {
                reveal_with_fuel(pow10, 2);
            }
        } else {
            lemma_decimal_len_bound(n / 10, (k - 1) as nat);
        }
    }
}

/// Reads the decimal form of a `u32` at `pos`: digits without a leading
/// zero.
pub fn parse_decimal(s: &Vec<char>, pos: usize) -> (r: Option<(u32, usize)>)
    requires
        pos <= s@.len(),
    ensures
        r matches Some((v, e)) ==> pos <= e <= s@.len() && s@.subrange(pos as int, e as int) == decimal(v as nat),
        forall|v: u32, rest: Seq<char>| #[trigger] (decimal(v as nat) + rest) == s@.skip(pos as int) && rest.len() > 0 && rest[0] == ','
            ==> r == Some((v, (pos + decimal(v as nat).len()) as usize)),
{
    let n = s.len();
    let ghost cond = exists|v: u32, rest: Seq<char>| #[trigger] (decimal(v as nat) + rest) == s@.skip(pos as int) && rest.len() > 0 && rest[0] == ',';
    let ghost mut gv: u32 = 0;
    let ghost mut grest: Seq<char> = Seq::empty();
    proof {
        if cond {
            let (v, rest) = choose|v: u32, rest: Seq<char>| #[trigger] (decimal(v as nat) + rest) == s@.skip(pos as int) && rest.len() > 0 && rest[0] == ',';
            gv = v;
            grest = rest;
            lemma_decimal_digits(gv as nat);
            assert(s@.skip(pos as int).len() == n - pos);
            assert forall|k: int| 0 <= k < decimal(gv as nat).len() implies is_digit(#[trigger] s@[pos + k]) by {
                assert(s@.skip(pos as int)[k] == s@[pos + k]);
                assert(s@.skip(pos as int)[k] == decimal(gv as nat)[k]);
            }
            assert(s@.skip(pos as int)[decimal(gv as nat).len() as int] == ',');
            assert(s@[pos + decimal(gv as nat).len()] == ',');
            assert(s@.skip(pos as int)[0] == s@[pos as int]);
            assert((u32::MAX as int) < pow10(10)) by {
                reveal_with_fuel(pow10, 11);
            }
            lemma_decimal_len_bound(gv as nat, 10);
        }
    }
    if pos >= n {
        return None;
    }
    let first = match digit_value(s[pos]) {
        Some(d) => d,
        None => {
            return None;
        },
    };
    assert(s@.subrange(pos as int, pos + 1) =~= decimal(first as nat));
    if first == 0 {
        proof {
            assert forall|v2: u32, rest: Seq<char>| #[trigger] (decimal(v2 as nat) + rest) == s@.skip(pos as int) && rest.len() > 0 && rest[0] == ','
                implies v2 == 0 && decimal(v2 as nat).len() == 1 by {
                lemma_decimal_digits(v2 as nat);
                assert(s@.skip(pos as int).len() == n - pos);
                assert(s@.skip(pos as int)[0] == s@[pos as int]);
                assert(s@.skip(pos as int)[0] == decimal(v2 as nat)[0]);
                assert(decimal(0) == seq![digit_char(0)]);
            }
        }
        return Some((0, pos + 1));
    }
    let mut v: u64 = first as u64;
    let mut i: usize = pos + 1;
    proof {
        lemma_pow10_step(0);
        reveal_with_fuel(pow10, 2);
    }
    while i < n
        invariant
            n == s@.len(),
            pos < i <= n,
            i - pos <= 10,
            v >= 1,
            (v as int) < pow10((i - pos) as nat),
            s@.subrange(pos as int, i as int) == decimal(v as nat),
            cond == exists|v: u32, rest: Seq<char>| #[trigger] (decimal(v as nat) + rest) == s@.skip(pos as int) && rest.len() > 0 && rest[0] == ',',
            cond ==> {
                &&& (decimal(gv as nat) + grest) == s@.skip(pos as int) && grest.len() > 0 && grest[0] == ','
                &&& decimal(gv as nat).len() <= 10
                &&& i - pos <= decimal(gv as nat).len()
                &&& forall|k: int| 0 <= k < decimal(gv as nat).len() ==> is_digit(#[trigger] s@[pos + k])
                &&& s@[pos + decimal(gv as nat).len()] == ','
            },
        ensures
            pos < i <= n,
            i - pos <= 10,
            s@.subrange(pos as int, i as int) == decimal(v as nat),
            i == n || !is_digit(s@[i as int]),
            cond == exists|v: u32, rest: Seq<char>| #[trigger] (decimal(v as nat) + rest) == s@.skip(pos as int) && rest.len() > 0 && rest[0] == ',',
            cond ==> {
                &&& (decimal(gv as nat) + grest) == s@.skip(pos as int) && grest.len() > 0 && grest[0] == ','
                &&& i - pos <= decimal(gv as nat).len()
                &&& forall|k: int| 0 <= k < decimal(gv as nat).len() ==> is_digit(#[trigger] s@[pos + k])
                &&& s@[pos + decimal(gv as nat).len()] == ','
            },
        decreases n - i,
    {
        let d = match digit_value(s[i]) {
            Some(d) => d,
            None => {
                break;
            },
        };
        if i - pos == 10 {
            proof {
                if cond {
                    assert(s@[pos + (i - pos)] == s@[i as int]);
                }
            }
            return None;
        }
        proof {
            lemma_digit_step(v as nat, d as nat);
            lemma_pow10_step((i - pos) as nat);
            let p = pow10((i - pos) as nat);
            assert(v * 10 + d < 10 * p) by (nonlinear_arith)
                requires v < p, d < 10;
            lemma_pow10_le((i - pos + 1) as nat, 10);
            assert(pow10(10) == 10_000_000_000) by {
                reveal_with_fuel(pow10, 11);
            }
            assert(s@.subrange(pos as int, i + 1) =~= s@.subrange(pos as int, i as int).push(s@[i as int]));
            if cond {
                if i - pos == decimal(gv as nat).len() {
                    assert(s@[pos + (i - pos)] == s@[i as int]);
                }
            }
        }
        v = v * 10 + d as u64;
        i = i + 1;
    }
    if v > u32::MAX as u64 {
        proof {
            if cond {
                lemma_decimal_shape(gv as nat);
                if i < n {
                    assert(s@.subrange(pos as int, i as int) + s@.skip(i as int) =~= s@.skip(pos as int));
                }
                lemma_after_digits(s@, pos as int, i as int, gv, grest);
                crate::canon::lemma_decimal_unique(v as nat, gv as nat, s@.skip(i as int), grest);
            }
        }
        return None;
    }
    proof {
        if cond {
            lemma_decimal_shape(gv as nat);
            lemma_after_digits(s@, pos as int, i as int, gv, grest);
            crate::canon::lemma_decimal_unique(v as nat, gv as nat, s@.skip(i as int), grest);
        }
        assert forall|v2: u32, rest: Seq<char>| #[trigger] (decimal(v2 as nat) + rest) == s@.skip(pos as int) && rest.len() > 0 && rest[0] == ','
            implies v2 == v && i == pos + decimal(v2 as nat).len() by {
            assert(cond);
            lemma_decimal_shape(gv as nat);
            lemma_after_digits(s@, pos as int, i as int, gv, grest);
            crate::canon::lemma_decimal_unique(v as nat, gv as nat, s@.skip(i as int), grest);
            crate::canon::lemma_decimal_unique(v2 as nat, gv as nat, rest, grest);
            lemma_decimal_shape(v as nat);
        }
    }
    Some((v as u32, i))
}

/// Where the decimal reader stops on the text of `gv` followed by a comma:
/// right before the comma.
proof fn lemma_after_digits(s: Seq<char>, pos: int, i: int, gv: u32, grest: Seq<char>)
    requires
        0 <= pos < i <= s.len(),
        (decimal(gv as nat) + grest) == s.skip(pos),
        grest.len() > 0,
        grest[0] == ',',
        i - pos <= decimal(gv as nat).len(),
        i == s.len() || !is_digit(s[i]),
        forall|k: int| 0 <= k < decimal(gv as nat).len() ==> is_digit(#[trigger] s[pos + k]),
        s[pos + decimal(gv as nat).len()] == ',',
    ensures
        i == pos + decimal(gv as nat).len(),
        s.subrange(pos, i) + s.skip(i) == s.skip(pos),
        s.skip(i).len() > 0 && s.skip(i)[0] == ',',
{
    assert(s.skip(pos).len() == s.len() - pos);
    if i < pos + decimal(gv as nat).len() {
        assert(is_digit(s[pos + (i - pos)]));
    }
    assert(s.subrange(pos, i) + s.skip(i) =~= s.skip(pos));
    assert(s.skip(i)[0] == s[i]);
}

/// The value of a lower-case hexadecimal digit character.
pub fn hex_value(c: char) -> (r: Option<u32>)
    ensures
        r matches Some(d) ==> d < 16 && hex_digit(d as nat) == c,
        forall|d: nat| d < 16 && #[trigger] hex_digit(d) == c ==> r == Some(d as u32),
{
    match digit_value(c) {
        Some(d) => Some(d),
        None => {
            if c == 'a' { Some(10) }
            else if c == 'b' { Some(11) }
            else if c == 'c' { Some(12) }
            else if c == 'd' { Some(13) }
            else if c == 'e' { Some(14) }
            else if c == 'f' { Some(15) }
            else { None }
        },
    }
}

/// Reads a JSON string literal at `pos` in the escaping that `json_string`
/// writes.
pub fn parse_json_string(s: &Vec<char>, pos: usize) -> (r: Option<(String, usize)>)
    requires
        pos <= s@.len(),
    ensures
        r matches Some((v, e)) ==> pos <= e <= s@.len() && s@.subrange(pos as int, e as int) == json_string(v@),
        forall|v: Seq<char>, rest: Seq<char>| #[trigger] (json_string(v) + rest) == s@.skip(pos as int)
            ==> (r matches Some((w, e)) && w@ == v && e == pos + json_string(v).len()),
{
    let n = s.len();
    let ghost cond = exists|v: Seq<char>, rest: Seq<char>| #[trigger] (json_string(v) + rest) == s@.skip(pos as int);
    let ghost mut gv: Seq<char> = Seq::empty();
    let ghost mut grest: Seq<char> = Seq::empty();
    proof {
        if cond {
            let (v, rest) = choose|v: Seq<char>, rest: Seq<char>| #[trigger] (json_string(v) + rest) == s@.skip(pos as int);
            gv = v;
            grest = rest;
            assert(json_string(gv).len() >= 2);
            assert(s@.skip(pos as int).len() == s@.len() - pos);
            assert(s@.skip(pos as int)[0] == '"');
            assert(s@[pos as int] == s@.skip(pos as int)[0]);
            assert(s@.skip(pos + 1) =~= s@.skip(pos as int).skip(1));
            assert((json_string(gv) + grest).skip(1) =~= json_escaped(gv) + (seq!['"'] + grest));
            assert(s@.skip(pos + 1) =~= json_escaped(gv) + (seq!['"'] + grest));
        }
    }
    if pos >= n || s[pos] != '"' {
        return None;
    }
    let mut out = String::new();
    let mut i: usize = pos + 1;
    let ghost mut j: int = 0;
    assert(s@.subrange(pos as int, i as int) =~= seq!['"'] + json_escaped(out@));
    assert(gv.skip(0) =~= gv);
    assert(out@ =~= gv.take(0));
    while i < n
        invariant
            n == s@.len(),
            pos < i <= n,
            s@.subrange(pos as int, i as int) == seq!['"'] + json_escaped(out@),
            cond == exists|v: Seq<char>, rest: Seq<char>| #[trigger] (json_string(v) + rest) == s@.skip(pos as int),
            cond ==> {
                &&& 0 <= j <= gv.len()
                &&& out@ == gv.take(j)
                &&& s@.skip(i as int) == json_escaped(gv.skip(j)) + (seq!['"'] + grest)
                &&& s@.skip(pos as int) == json_string(gv) + grest
            },
        decreases n - i,
    {
        let c = s[i];
        let ghost before = out@;
        proof {
            if cond {
                lemma_scan(s@, pos as int, i as int, gv, j, grest);
                if j < gv.len() {
                    lemma_escape_char_facts(gv[j]);
                }
            }
        }
        if c == '"' {
            assert(s@.subrange(pos as int, i + 1) =~= json_string(out@));
            proof {
                assert forall|v: Seq<char>, rest: Seq<char>| #[trigger] (json_string(v) + rest) == s@.skip(pos as int)
                    implies out@ == v && i + 1 == pos + json_string(v).len() by {
                    assert(cond);
                    lemma_scan(s@, pos as int, i as int, gv, j, grest);
                    if j < gv.len() {
                        lemma_escape_char_facts(gv[j]);
                    }
                    crate::canon::lemma_string_unique(v, gv, rest, grest);
                }
            }
            return Some((out, i + 1));
        }
        let width: usize;
        if c == '\\' {
            if i + 1 >= n {
                return None;
            }
            let e = s[i + 1];
            if e == 'u' {
                if n - i <= 5 || s[i + 2] != '0' || s[i + 3] != '0' {
                    return None;
                }
                let hi = match hex_value(s[i + 4]) {
                    Some(h) => h,
                    None => {
                        return None;
                    },
                };
                let lo = match hex_value(s[i + 5]) {
                    Some(h) => h,
                    None => {
                        return None;
                    },
                };
                if hi > 1 {
                    return None;
                }
                let x: u8 = (hi * 16 + lo) as u8;
                let d = x as char;
                proof {
                    if cond {
                        assert(d as u32 == gv[j] as u32);
                        vstd::utf8::char_u32_cast(d, d as u32);
                        vstd::utf8::char_u32_cast(gv[j], gv[j] as u32);
                        assert(d == gv[j]);
                    }
                }
                if d == '"' || d == '\\' || d == '\n' || d == '\r' || d == '\t' || d == '\x08' || d == '\x0c' {
                    return None;
                }
                proof {
                    assert((d as u32) == hi * 16 + lo);
                    assert((d as u32) / 16 == hi && (d as u32) % 16 == lo);
                }
                push_char(&mut out, d);
                width = 6;
                assert(escape_char(d) =~= s@.subrange(i as int, i + 6));
            } else {
                let d = if e == '"' {
                    '"'
                } else if e == '\\' {
                    '\\'
                } else if e == 'n' {
                    '\n'
                } else if e == 'r' {
                    '\r'
                } else if e == 't' {
                    '\t'
                } else if e == 'b' {
                    '\x08'
                } else if e == 'f' {
                    '\x0c'
                } else {
                    return None;
                };
                push_char(&mut out, d);
                width = 2;
                assert(escape_char(d) =~= s@.subrange(i as int, i + 2));
            }
        } else {
            if (c as u32) < 0x20 {
                return None;
            }
            push_char(&mut out, c);
            width = 1;
            assert(escape_char(c) =~= s@.subrange(i as int, i + 1));
        }
        proof {
            assert(out@.drop_last() =~= before);
            assert(json_escaped(out@) == json_escaped(before) + escape_char(out@.last()));
            assert(s@.subrange(pos as int, i + width) =~= s@.subrange(pos as int, i as int) + s@.subrange(i as int, i + width));
            if cond {
                assert(out@.last() == gv[j]);
                assert(out@ =~= gv.take(j + 1));
                assert(width == escape_char(gv[j]).len());
                assert(s@.skip(i + width) =~= s@.skip(i as int).skip(width as int));
                assert(s@.skip(i + width) =~= json_escaped(gv.skip(j + 1)) + (seq!['"'] + grest));
                j = j + 1;
            }
        }
        i = i + width;
    }
    proof {
        if cond {
            assert(s@.skip(i as int).len() == 0);
            lemma_escaped_len_pos(gv.skip(j));
        }
    }
    None
}

/// What the string reader meets at `i` while it scans the escaped text of
/// `gv` from its `j`-th character.
proof fn lemma_scan(s: Seq<char>, pos: int, i: int, gv: Seq<char>, j: int, grest: Seq<char>)
    requires
        0 <= pos < i < s.len(),
        0 <= j <= gv.len(),
        s.skip(i) == json_escaped(gv.skip(j)) + (seq!['"'] + grest),
        s.skip(pos) == json_string(gv) + grest,
    ensures
        j < gv.len() ==> {
            &&& s.skip(i) == escape_char(gv[j]) + (json_escaped(gv.skip(j + 1)) + (seq!['"'] + grest))
            &&& i + escape_char(gv[j]).len() < s.len()
            &&& forall|k: int| 0 <= k < escape_char(gv[j]).len() ==> #[trigger] s[i + k] == escape_char(gv[j])[k]
            &&& s[i] == escape_char(gv[j])[0]
        },
        j == gv.len() ==> {
            &&& s[i] == '"'
            &&& i + 1 == pos + json_string(gv).len()
            &&& gv.take(j) == gv
            &&& forall|v: Seq<char>, rest: Seq<char>| #[trigger] (json_string(v) + rest) == s.skip(pos)
                ==> v == gv && json_string(v).len() == json_string(gv).len()
        },
{
    assert(s.skip(i).len() == s.len() - i);
    assert(s.skip(pos).len() == s.len() - pos);
    assert(s.skip(i)[0] == s[i]);
    if j < gv.len() {
        lemma_escaped_head_parse(gv.skip(j));
        assert(gv.skip(j)[0] == gv[j]);
        assert(gv.skip(j).drop_first() =~= gv.skip(j + 1));
        lemma_escape_char_facts(gv[j]);
        let ec = escape_char(gv[j]);
        assert(s.skip(i) =~= ec + (json_escaped(gv.skip(j + 1)) + (seq!['"'] + grest)));
        assert forall|k: int| 0 <= k < ec.len() implies #[trigger] s[i + k] == ec[k] by {
            assert(s.skip(i)[k] == s[i + k]);
        }
    } else {
        assert(gv.skip(j) =~= Seq::<char>::empty());
        assert(json_escaped(gv.skip(j)) =~= Seq::<char>::empty());
        assert(gv.take(j) =~= gv);
        assert forall|v: Seq<char>, rest: Seq<char>| #[trigger] (json_string(v) + rest) == s.skip(pos)
            implies v == gv && json_string(v).len() == json_string(gv).len() by {
            crate::canon::lemma_string_unique(v, gv, rest, grest);
        }
    }
}

proof fn lemma_escaped_len_pos(a: Seq<char>)
    ensures
        json_escaped(a).len() >= a.len(),
    decreases a.len(),
{
    if a.len() > 0 {
        lemma_escaped_len_pos(a.drop_last());
        lemma_escape_char_facts(a.last());
    }
}

proof fn lemma_escaped_head_parse(a: Seq<char>)
    requires
        a.len() > 0,
    ensures
        json_escaped(a) == escape_char(a[0]) + json_escaped(a.drop_first()),
{
    crate::canon::lemma_escaped_head(a);
}

/// The shapes `escape_char` gives.
proof fn lemma_escape_char_facts(c: char)
    ensures
        escape_char(c).len() >= 1,
        escape_char(c)[0] != '"',
        escape_char(c)[0] != '\\' ==> escape_char(c) == seq![c] && c != '"' && c != '\\' && (c as u32) >= 0x20,
        escape_char(c)[0] == '\\' ==> escape_char(c).len() >= 2,
        escape_char(c)[0] == '\\' && escape_char(c)[1] == 'u' ==> {
            &&& escape_char(c).len() == 6
            &&& (c as u32) < 0x20
            &&& c != '\n' && c != '\r' && c != '\t' && c != '\x08' && c != '\x0c'
            &&& escape_char(c)[2] == '0' && escape_char(c)[3] == '0'
            &&& escape_char(c)[4] == hex_digit((c as u32 / 16) as nat)
            &&& escape_char(c)[5] == hex_digit((c as u32 % 16) as nat)
        },
        escape_char(c)[0] == '\\' && escape_char(c)[1] != 'u' ==> escape_char(c).len() == 2 && {
            ||| (escape_char(c)[1] == '"' && c == '"')
            ||| (escape_char(c)[1] == '\\' && c == '\\')
            ||| (escape_char(c)[1] == 'n' && c == '\n')
            ||| (escape_char(c)[1] == 'r' && c == '\r')
            ||| (escape_char(c)[1] == 't' && c == '\t')
            ||| (escape_char(c)[1] == 'b' && c == '\x08')
            ||| (escape_char(c)[1] == 'f' && c == '\x0c')
        },
{
}

/// Reads `null` or a JSON string literal at `pos`.
pub fn parse_json_opt_string(s: &Vec<char>, pos: usize) -> (r: Option<(Option<String>, usize)>)
    requires
        pos <= s@.len(),
    ensures
        r matches Some((v, e)) ==> pos <= e <= s@.len()
            && s@.subrange(pos as int, e as int) == json_opt_string(crate::codec::opt_view(&v)),
        forall|v: Option<Seq<char>>, rest: Seq<char>| #[trigger] (json_opt_string(v) + rest) == s@.skip(pos as int)
            ==> (r matches Some((w, e)) && crate::codec::opt_view(&w) == v && e == pos + json_opt_string(v).len()),
{
    let n = s.len();
    proof {
        assert forall|v: Option<Seq<char>>, rest: Seq<char>| #[trigger] (json_opt_string(v) + rest) == s@.skip(pos as int)
            implies (v is None <==> (n - pos >= 4 && s@[pos as int] == 'n')) by {
            assert(s@.skip(pos as int).len() == n - pos);
            assert(s@.skip(pos as int)[0] == s@[pos as int]);
            if v is None {
                assert(s@.skip(pos as int)[0] == 'n');
            } else {
                assert(s@.skip(pos as int)[0] == '"');
            }
        }
    }
    if n - pos >= 4 && s[pos] == 'n' && s[pos + 1] == 'u' && s[pos + 2] == 'l' && s[pos + 3] == 'l' {
        assert(s@.subrange(pos as int, pos + 4) =~= json_null());
        proof {
            assert forall|v: Option<Seq<char>>, rest: Seq<char>| #[trigger] (json_opt_string(v) + rest) == s@.skip(pos as int)
                implies v is None by {
                assert(s@.skip(pos as int)[0] == s@[pos as int]);
                if v is Some {
                    assert(s@.skip(pos as int)[0] == '"');
                }
            }
        }
        return Some((None, pos + 4));
    }
    proof {
        assert forall|v: Option<Seq<char>>, rest: Seq<char>| #[trigger] (json_opt_string(v) + rest) == s@.skip(pos as int)
            implies v is Some && json_string(v->0) + rest == s@.skip(pos as int) by {
            assert(s@.skip(pos as int).len() == n - pos);
            if v is None {
                assert(s@.skip(pos as int).subrange(0, 4) =~= json_null());
                assert(s@[pos as int] == s@.skip(pos as int)[0]);
                assert(s@[pos + 1] == s@.skip(pos as int)[1]);
                assert(s@[pos + 2] == s@.skip(pos as int)[2]);
                assert(s@[pos + 3] == s@.skip(pos as int)[3]);
            }
        }
    }
    match parse_json_string(s, pos) {
        Some((v, e)) => Some((Some(v), e)),
        None => None,
    }
}

/// What follows the first item of a JSON array of strings: a comma and the
/// remaining items, or nothing.
pub open spec fn items_after(u: Seq<Seq<char>>) -> Seq<char> {
    if u.len() == 0 {
        Seq::empty()
    } else {
        seq![','] + json_string_items(u)
    }
}

proof fn lemma_items_head(t: Seq<Seq<char>>)
    requires
        t.len() >= 1,
    ensures
        json_string_items(t) == json_string(t[0]) + items_after(t.drop_first()),
    decreases t.len(),
{
    if t.len() == 1 {
        assert(t.drop_first() =~= Seq::<Seq<char>>::empty());
        assert(json_string(t[0]) + Seq::<char>::empty() =~= json_string(t[0]));
    } else if t.len() == 2 {
        assert(t.drop_last().len() == 1);
        assert(t.drop_first().len() == 1);
        assert(t.drop_first()[0] == t.last());
        assert(json_string_items(t.drop_first()) == json_string(t.drop_first()[0]));
        assert(t.drop_last()[0] == t[0]);
        assert(json_string_items(t.drop_last()) == json_string(t.drop_last()[0]));
        assert(json_string_items(t) == json_string_items(t.drop_last()) + seq![','] + json_string(t.last()));
        assert(json_string_items(t) =~= json_string(t[0]) + items_after(t.drop_first()));
    } else {
        lemma_items_head(t.drop_last());
        let m = t.drop_first();
        assert(t.drop_last().drop_first() =~= m.drop_last());
        assert(t.drop_last()[0] == t[0]);
        assert(m.last() == t.last());
        assert(m.drop_last().len() >= 1);
        assert(items_after(t.drop_last().drop_first()) == seq![','] + json_string_items(m.drop_last()));
        assert(json_string_items(t) == json_string_items(t.drop_last()) + seq![','] + json_string(t.last()));
        assert(json_string_items(m) == json_string_items(m.drop_last()) + seq![','] + json_string(m.last()));
        assert(json_string_items(t.drop_first()) == json_string_items(t.drop_first().drop_last()) + seq![','] + json_string(t.drop_first().last()));
        assert(json_string_items(t) =~= json_string(t[0]) + items_after(t.drop_first()));
    }
}

/// The text of the items of `gi` from the `j`-th on, as the array reader
/// meets it.
pub open spec fn items_from(gi: Seq<Seq<char>>, j: int) -> Seq<char> {
    if j == 0 {
        json_string_items(gi)
    } else {
        items_after(gi.skip(j))
    }
}

proof fn lemma_items_from_step(gi: Seq<Seq<char>>, j: int)
    requires
        0 <= j < gi.len(),
    ensures
        items_from(gi, j) == (if j == 0 { Seq::<char>::empty() } else { seq![','] }) + (json_string(gi[j]) + items_from(gi, j + 1)),
{
    lemma_items_head(gi.skip(j));
    assert(gi.skip(j)[0] == gi[j]);
    assert(gi.skip(j).drop_first() =~= gi.skip(j + 1));
    if j == 0 {
        assert(gi.skip(0) =~= gi);
        assert(Seq::<char>::empty() + (json_string(gi[j]) + items_from(gi, j + 1)) =~= json_string(gi[j]) + items_from(gi, j + 1));
    } else {
        assert(items_from(gi, j) =~= seq![','] + (json_string(gi[j]) + items_from(gi, j + 1)));
    }
}

/// Reads a JSON array of string literals at `pos`, in the layout that
/// `json_string_array` writes.
pub fn parse_json_string_array(s: &Vec<char>, pos: usize) -> (r: Option<(Vec<String>, usize)>)
    requires
        pos <= s@.len(),
    ensures
        r matches Some((v, e)) ==> pos <= e <= s@.len() && s@.subrange(pos as int, e as int) == json_string_array(strings_view(v@)),
        forall|items: Seq<Seq<char>>, rest: Seq<char>| #[trigger] (json_string_array(items) + rest) == s@.skip(pos as int)
            ==> (r matches Some((v, e)) && strings_view(v@) == items && e == pos + json_string_array(items).len()),
{
    let n = s.len();
    let ghost cond = exists|items: Seq<Seq<char>>, rest: Seq<char>| #[trigger] (json_string_array(items) + rest) == s@.skip(pos as int);
    let ghost mut gi: Seq<Seq<char>> = Seq::empty();
    let ghost mut grest: Seq<char> = Seq::empty();
    proof {
        if cond {
            let (items, rest) = choose|items: Seq<Seq<char>>, rest: Seq<char>| #[trigger] (json_string_array(items) + rest) == s@.skip(pos as int);
            gi = items;
            grest = rest;
            assert(s@.skip(pos as int) == seq!['['] + (json_string_items(gi) + (seq![']'] + grest)));
        }
    }
    let mut i = match expect_char(s, pos, '[') { Some(x) => x, None => { return None; } };
    let mut v: Vec<String> = Vec::new();
    let ghost mut j: int = 0;
    proof {
        if cond {
            crate::time::lemma_skip_piece(s@, pos as int, seq!['['], json_string_items(gi) + (seq![']'] + grest));
        }
    }
    assert(s@.subrange(pos as int, i as int) =~= seq!['['] + json_string_items(strings_view(v@)));
    loop
        invariant
            n == s@.len(),
            pos < i <= n,
            s@.subrange(pos as int, i as int) == seq!['['] + json_string_items(strings_view(v@)),
            cond == exists|items: Seq<Seq<char>>, rest: Seq<char>| #[trigger] (json_string_array(items) + rest) == s@.skip(pos as int),
            cond ==> {
                &&& 0 <= j <= gi.len()
                &&& strings_view(v@) == gi.take(j)
                &&& v@.len() == j
                &&& s@.skip(i as int) == items_from(gi, j) + (seq![']'] + grest)
                &&& s@.skip(pos as int) == json_string_array(gi) + grest
            },
        decreases n - i,
    {
        proof {
            if cond {
                assert(s@.skip(i as int).len() == n - i);
                if j < gi.len() {
                    lemma_items_from_step(gi, j);
                    lemma_string_len(gi[j]);
                    assert(s@.skip(i as int)[0] == s@[i as int]);
                    if j == 0 {
                        assert(s@.skip(i as int) == json_string(gi[j]) + (items_from(gi, j + 1) + (seq![']'] + grest)));
                    } else {
                        assert(s@.skip(i as int) == seq![','] + (json_string(gi[j]) + (items_from(gi, j + 1) + (seq![']'] + grest))));
                    }
                } else {
                    assert(gi.skip(j) =~= Seq::<Seq<char>>::empty());
                    assert(items_from(gi, j) =~= Seq::<char>::empty()) by {
                        if j == 0 {
                            assert(gi =~= Seq::<Seq<char>>::empty());
                        }
                    }
                    assert(s@.skip(i as int) == seq![']'] + grest);
                }
            }
        }
        if let Some(e) = expect_char(s, i, ']') {
            proof {
                lemma_join(s@, pos as int, i as int, e as int);
                if cond {
                    if j < gi.len() {
                        assert(s@.subrange(i as int, e as int)[0] == s@[i as int]);
                    }
                    assert(gi.take(j) =~= gi);
                    assert(s@.skip(i as int).len() == 1 + grest.len());
                    assert(s@.skip(pos as int).len() == n - pos);
                }
                assert forall|items: Seq<Seq<char>>, rest: Seq<char>| #[trigger] (json_string_array(items) + rest) == s@.skip(pos as int)
                    implies strings_view(v@) == items && e == pos + json_string_array(items).len() by {
                    assert(cond);
                    lemma_array_unique(items, gi, rest, grest);
                }
            }
            assert(s@.subrange(pos as int, e as int) =~= json_string_array(strings_view(v@)));
            return Some((v, e));
        }
        let start = if v.len() == 0 {
            i
        } else {
            match expect_char(s, i, ',') { Some(x) => x, None => { return None; } }
        };
        proof {
            if cond {
                lemma_items_from_step(gi, j);
                if j > 0 {
                    crate::time::lemma_skip_piece(s@, i as int, seq![','], json_string(gi[j]) + (items_from(gi, j + 1) + (seq![']'] + grest)));
                }
                assert(s@.skip(start as int) == json_string(gi[j]) + (items_from(gi, j + 1) + (seq![']'] + grest)));
            }
        }
        let (item, e) = match parse_json_string(s, start) { Some(x) => x, None => { return None; } };
        let ghost old_v = v@;
        v.push(item);
        proof {
            let sv = strings_view(v@);
            assert(sv.drop_last() =~= strings_view(old_v));
            assert(sv.last() == item@);
            lemma_join(s@, pos as int, i as int, start as int);
            lemma_join(s@, pos as int, start as int, e as int);
            if old_v.len() == 0 {
                assert(s@.subrange(i as int, start as int) =~= Seq::<char>::empty());
                assert(sv.len() == 1);
                assert(s@.subrange(pos as int, e as int) =~= seq!['['] + json_string_items(sv));
            } else {
                assert(s@.subrange(pos as int, e as int) =~= seq!['['] + json_string_items(sv));
            }
            if cond {
                crate::time::lemma_skip_piece(s@, start as int, json_string(gi[j]), items_from(gi, j + 1) + (seq![']'] + grest));
                assert(sv =~= gi.take(j + 1));
                j = j + 1;
            }
        }
        i = e;
    }
}

proof fn lemma_string_len(v: Seq<char>)
    ensures
        json_string(v).len() >= 2,
        json_string(v)[0] == '"',
{
}

/// A JSON array of strings is read back uniquely.
pub(crate) proof fn lemma_array_unique(a: Seq<Seq<char>>, b: Seq<Seq<char>>, x: Seq<char>, y: Seq<char>)
    requires
        json_string_array(a) + x == json_string_array(b) + y,
    ensures
        a == b,
        x == y,
{
    let l = json_string_array(a) + x;
    let r = json_string_array(b) + y;
    assert(l.skip(1) =~= items_from(a, 0) + (seq![']'] + x));
    assert(r.skip(1) =~= items_from(b, 0) + (seq![']'] + y));
    lemma_items_unique(a, b, 0, x, y);
    assert(a.skip(0) =~= a);
    assert(b.skip(0) =~= b);
}

proof fn lemma_items_unique(a: Seq<Seq<char>>, b: Seq<Seq<char>>, j: int, x: Seq<char>, y: Seq<char>)
    requires
        0 <= j <= a.len(),
        0 <= j <= b.len(),
        items_from(a, j) + (seq![']'] + x) == items_from(b, j) + (seq![']'] + y),
    ensures
        a.skip(j) == b.skip(j),
        x == y,
    decreases a.len() - j,
{
    let l = items_from(a, j) + (seq![']'] + x);
    let r = items_from(b, j) + (seq![']'] + y);
    if j < a.len() {
        lemma_items_from_step(a, j);
        lemma_string_len(a[j]);
    }
    if j < b.len() {
        lemma_items_from_step(b, j);
        lemma_string_len(b[j]);
    }
    if j == a.len() && j == b.len() {
        assert(a.skip(j) =~= Seq::<Seq<char>>::empty());
        assert(b.skip(j) =~= Seq::<Seq<char>>::empty());
        assert(items_from(a, j) =~= Seq::<char>::empty()) by {
            if j == 0 { assert(a =~= Seq::<Seq<char>>::empty()); }
        }
        assert(items_from(b, j) =~= Seq::<char>::empty()) by {
            if j == 0 { assert(b =~= Seq::<Seq<char>>::empty()); }
        }
        assert(x =~= l.skip(1));
        assert(y =~= r.skip(1));
    } else if j == a.len() {
        assert(items_from(a, j) =~= Seq::<char>::empty()) by {
            if j == 0 { assert(a =~= Seq::<Seq<char>>::empty()); }
        }
        assert(l[0] == ']');
        assert(r[0] == (if j == 0 { '"' } else { ',' }));
    } else if j == b.len() {
        assert(items_from(b, j) =~= Seq::<char>::empty()) by {
            if j == 0 { assert(b =~= Seq::<Seq<char>>::empty()); }
        }
        assert(r[0] == ']');
        assert(l[0] == (if j == 0 { '"' } else { ',' }));
    } else {
        let pre = if j == 0 { Seq::<char>::empty() } else { seq![','] };
        assert(l =~= pre + (json_string(a[j]) + (items_from(a, j + 1) + (seq![']'] + x))));
        assert(r =~= pre + (json_string(b[j]) + (items_from(b, j + 1) + (seq![']'] + y))));
        crate::canon::lemma_prefix_cancel(pre, json_string(a[j]) + (items_from(a, j + 1) + (seq![']'] + x)), json_string(b[j]) + (items_from(b, j + 1) + (seq![']'] + y)));
        crate::canon::lemma_string_unique(a[j], b[j], items_from(a, j + 1) + (seq![']'] + x), items_from(b, j + 1) + (seq![']'] + y));
        lemma_items_unique(a, b, j + 1, x, y);
        assert(a.skip(j) =~= seq![a[j]] + a.skip(j + 1));
        assert(b.skip(j) =~= seq![b[j]] + b.skip(j + 1));
    }
}

/// Matches the single character `c` at `pos`.
pub fn expect_char(s: &Vec<char>, pos: usize, c: char) -> (r: Option<usize>)
    requires
        pos <= s@.len(),
    ensures
        r matches Some(e) ==> pos <= e <= s@.len() && s@.subrange(pos as int, e as int) == seq![c],
        forall|rest: Seq<char>| #[trigger] (seq![c] + rest) == s@.skip(pos as int) ==> r == Some((pos + 1) as usize),
{
    proof {
        assert forall|rest: Seq<char>| #[trigger] (seq![c] + rest) == s@.skip(pos as int) implies pos < s@.len() && s@[pos as int] == c by {
            assert(s@.skip(pos as int).len() == s@.len() - pos);
            assert(s@.skip(pos as int)[0] == s@[pos as int]);
        }
    }
    if pos < s.len() && s[pos] == c {
        assert(s@.subrange(pos as int, pos + 1) =~= seq![c]);
        Some(pos + 1)
    } else {
        None
    }
}

/// A span of `s` is the span up to a midpoint followed by the span after it.
pub proof fn lemma_join(s: Seq<char>, a: int, b: int, c: int)
    requires
        0 <= a <= b <= c <= s.len(),
    ensures
        s.subrange(a, c) == s.subrange(a, b) + s.subrange(b, c),
{
    assert(s.subrange(a, c) =~= s.subrange(a, b) + s.subrange(b, c));
}

/// 10 to the power `n`.
pub open spec fn pow10(n: nat) -> int
    decreases n,
{
    if n == 0 { 1 } else { 10 * pow10((n - 1) as nat) }
}

proof fn lemma_pow10_step(n: nat)
    ensures
        pow10(n + 1) == 10 * pow10(n),
        pow10(n) >= 1,
    decreases n,
{
    if n > 0 {
        lemma_pow10_step((n - 1) as nat);
    }
}

proof fn lemma_pow10_le(a: nat, b: nat)
    requires
        a <= b,
    ensures
        pow10(a) <= pow10(b),
    decreases b - a,
{
    if a < b {
        lemma_pow10_le(a, (b - 1) as nat);
        lemma_pow10_step((b - 1) as nat);
    }
}

proof fn lemma_pow10_nine()
    ensures
        pow10(9) == 1_000_000_000,
{
    reveal_with_fuel(pow10, 10);
}

} // verus!
