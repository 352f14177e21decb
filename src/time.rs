//! UTC timestamps as calendar fields, their RFC 3339 text, and the clock.

use vstd::prelude::*;
use chrono::{Datelike, Timelike};
use crate::codec::{padded, push_char, push_padded};
use crate::parse::{expect_char, lemma_join, parse_padded};
use vstd::seq_lib::lemma_concat_associative;

verus! {

/// A UTC instant as calendar fields, to the nanosecond.
///
/// A leap second is written with `second == 60`.
#[derive(Clone, Copy, Debug, PartialEq, Eq, Structural)]
pub struct Timestamp {
    pub year: u32,
    pub month: u32,
    pub day: u32,
    pub hour: u32,
    pub minute: u32,
    pub second: u32,
    pub nanosecond: u32,
}

/// Relies on `chrono::Utc::now` and the `Datelike` / `Timelike` accessors:
/// the current UTC time as (year, month, day, hour, minute, second,
/// nanosecond), in the ranges that chrono documents for each accessor.
#[verifier::external_body]
fn utc_clock_fields() -> (r: (i32, u32, u32, u32, u32, u32, u32))
    ensures
        1 <= r.1 <= 12,
        1 <= r.2 <= 31,
        r.3 < 24,
        r.4 < 60,
        r.5 < 60,
        r.6 < 2_000_000_000,
{
    let t = chrono::Utc::now();
    (t.year(), t.month(), t.day(), t.hour(), t.minute(), t.second(), t.nanosecond())
}

/// Taking a known piece off the front of the text at `p`.
pub(crate) proof fn lemma_skip_piece(s: Seq<char>, p: int, piece: Seq<char>, rest: Seq<char>)
    requires
        0 <= p <= s.len(),
        s.skip(p) == piece + rest,
    ensures
        p + piece.len() <= s.len(),
        s.skip(p + piece.len()) == rest,
{
    assert(s.skip(p).len() == s.len() - p);
    assert(s.skip(p + piece.len()) =~= s.skip(p).skip(piece.len() as int));
    assert((piece + rest).skip(piece.len() as int) =~= rest);
}

/// The RFC 3339 text followed by more text, grouped from the right.
proof fn lemma_rfc3339_right(t: Timestamp, rest: Seq<char>)
    ensures
        t.rfc3339() + rest == padded(t.year as nat, 4) + (seq!['-'] + (padded(t.month as nat, 2) + (seq!['-'] + (padded(t.day as nat, 2) + (seq!['T'] + (padded(t.hour as nat, 2) + (seq![':'] + (padded(t.minute as nat, 2) + (seq![':'] + (padded(t.second as nat, 2) + (seq!['.'] + (padded(t.nanosecond as nat, 9) + (seq!['Z'] + rest))))))))))))),
{
    let l0 = padded(t.year as nat, 4);
    let l1 = l0 + seq!['-'];
    let l2 = l1 + padded(t.month as nat, 2);
    let l3 = l2 + seq!['-'];
    let l4 = l3 + padded(t.day as nat, 2);
    let l5 = l4 + seq!['T'];
    let l6 = l5 + padded(t.hour as nat, 2);
    let l7 = l6 + seq![':'];
    let l8 = l7 + padded(t.minute as nat, 2);
    let l9 = l8 + seq![':'];
    let l10 = l9 + padded(t.second as nat, 2);
    let l11 = l10 + seq!['.'];
    let l12 = l11 + padded(t.nanosecond as nat, 9);
    let l13 = l12 + seq!['Z'];
    let r14 = rest;
    let r13 = seq!['Z'] + r14;
    let r12 = padded(t.nanosecond as nat, 9) + r13;
    let r11 = seq!['.'] + r12;
    let r10 = padded(t.second as nat, 2) + r11;
    let r9 = seq![':'] + r10;
    let r8 = padded(t.minute as nat, 2) + r9;
    let r7 = seq![':'] + r8;
    let r6 = padded(t.hour as nat, 2) + r7;
    let r5 = seq!['T'] + r6;
    let r4 = padded(t.day as nat, 2) + r5;
    let r3 = seq!['-'] + r4;
    let r2 = padded(t.month as nat, 2) + r3;
    let r1 = seq!['-'] + r2;
    let r0 = padded(t.year as nat, 4) + r1;
    assert(t.rfc3339() == l13);
    lemma_concat_associative(l12, seq!['Z'], rest);
    lemma_concat_associative(l12, seq!['Z'], r14);
    lemma_concat_associative(l11, padded(t.nanosecond as nat, 9), r13);
    lemma_concat_associative(l10, seq!['.'], r12);
    lemma_concat_associative(l9, padded(t.second as nat, 2), r11);
    lemma_concat_associative(l8, seq![':'], r10);
    lemma_concat_associative(l7, padded(t.minute as nat, 2), r9);
    lemma_concat_associative(l6, seq![':'], r8);
    lemma_concat_associative(l5, padded(t.hour as nat, 2), r7);
    lemma_concat_associative(l4, seq!['T'], r6);
    lemma_concat_associative(l3, padded(t.day as nat, 2), r5);
    lemma_concat_associative(l2, seq!['-'], r4);
    lemma_concat_associative(l1, padded(t.month as nat, 2), r3);
    lemma_concat_associative(l0, seq!['-'], r2);
}

impl Timestamp {
    /// Fields within their calendar ranges, and a four-digit year.
    pub open spec fn wf(&self) -> bool {
        &&& self.year <= 9999
        &&& 1 <= self.month <= 12
        &&& 1 <= self.day <= 31
        &&& self.hour < 24
        &&& self.minute < 60
        &&& self.second <= 60
        &&& self.nanosecond < 1_000_000_000
    }

    /// Strictly later than `other`: the fields compared in order.
    pub open spec fn later_than(&self, other: Timestamp) -> bool {
        if self.year != other.year { self.year > other.year }
        else if self.month != other.month { self.month > other.month }
        else if self.day != other.day { self.day > other.day }
        else if self.hour != other.hour { self.hour > other.hour }
        else if self.minute != other.minute { self.minute > other.minute }
        else if self.second != other.second { self.second > other.second }
        else { self.nanosecond > other.nanosecond }
    }

    /// RFC 3339 text in UTC with nine fractional digits:
    /// `YYYY-MM-DDTHH:MM:SS.nnnnnnnnnZ`.
    pub open spec fn rfc3339(&self) -> Seq<char> {
        padded(self.year as nat, 4) + seq!['-'] + padded(self.month as nat, 2) + seq!['-']
            + padded(self.day as nat, 2) + seq!['T'] + padded(self.hour as nat, 2) + seq![':']
            + padded(self.minute as nat, 2) + seq![':'] + padded(self.second as nat, 2)
            + seq!['.'] + padded(self.nanosecond as nat, 9) + seq!['Z']
    }

    /// Whether `year` is a leap year of the Gregorian calendar.
    pub open spec fn leap_year(year: u32) -> bool {
        year % 4 == 0 && (year % 100 != 0 || year % 400 == 0)
    }

    /// The number of days in a month.
    pub open spec fn days_in_month(year: u32, month: u32) -> u32 {
        if month == 2 {
            if Self::leap_year(year) { 29 } else { 28 }
        } else if month == 4 || month == 6 || month == 9 || month == 11 {
            30
        } else {
            31
        }
    }

    /// The instant one nanosecond after `self`, carrying into the larger
    /// fields; the leap second `23:59:60` follows `23:59:59` at the end of a
    /// day. The last instant that can be written has no successor and is
    /// returned unchanged.
    pub open spec fn successor(&self) -> Timestamp {
        let t = *self;
        if t.nanosecond < 999_999_999 {
            Timestamp { nanosecond: (t.nanosecond + 1) as u32, ..t }
        } else if t.second < 59 {
            Timestamp { second: (t.second + 1) as u32, nanosecond: 0, ..t }
        } else if t.minute < 59 {
            Timestamp { minute: (t.minute + 1) as u32, second: 0, nanosecond: 0, ..t }
        } else if t.hour < 23 {
            Timestamp { hour: (t.hour + 1) as u32, minute: 0, second: 0, nanosecond: 0, ..t }
        } else if t.second == 59 {
            Timestamp { second: 60, nanosecond: 0, ..t }
        } else if t.day < Self::days_in_month(t.year, t.month) {
            Timestamp { day: (t.day + 1) as u32, hour: 0, minute: 0, second: 0, nanosecond: 0, ..t }
        } else if t.month < 12 {
            Timestamp { month: (t.month + 1) as u32, day: 1, hour: 0, minute: 0, second: 0, nanosecond: 0, ..t }
        } else if t.year < 9999 {
            Timestamp { year: (t.year + 1) as u32, month: 1, day: 1, hour: 0, minute: 0, second: 0, nanosecond: 0 }
        } else {
            t
        }
    }

    /// Whether `self` is the last instant that can be written, which has no
    /// successor.
    pub open spec fn is_last(&self) -> bool {
        &&& self.nanosecond >= 999_999_999
        &&& self.second >= 59
        &&& self.minute >= 59
        &&& self.hour >= 23
        &&& self.second != 59
        &&& self.day >= Self::days_in_month(self.year, self.month)
        &&& self.month >= 12
        &&& self.year >= 9999
    }

    /// The time an update is stamped with: the clock's reading `now` when it
    /// is later than `self`, else the instant right after `self`.
    pub open spec fn advance(&self, now: Timestamp) -> Timestamp {
        if now.later_than(*self) { now } else { self.successor() }
    }

    /// The successor is strictly later unless there is none, and stays
    /// within the calendar ranges.
    pub proof fn lemma_successor(&self)
        ensures
            !self.is_last() ==> self.successor().later_than(*self),
            self.is_last() ==> self.successor() == *self,
            self.wf() ==> self.successor().wf(),
    {
    }

    /// What `from_clock` makes of the clock's fields: a leap second moves to
    /// `second == 60`, and a year outside 0..=9999 is held at the nearest
    /// end of that range.
    pub open spec fn spec_from_clock(y: i32, mo: u32, d: u32, h: u32, mi: u32, s: u32, ns: u32) -> Timestamp {
        if y < 0 {
            Timestamp { year: 0, month: 1, day: 1, hour: 0, minute: 0, second: 0, nanosecond: 0 }
        } else if y > 9999 {
            Timestamp {
                year: 9999,
                month: 12,
                day: 31,
                hour: 23,
                minute: 59,
                second: 60,
                nanosecond: 999_999_999,
            }
        } else if ns >= 1_000_000_000 {
            Timestamp {
                year: y as u32,
                month: mo,
                day: d,
                hour: h,
                minute: mi,
                second: (s + 1) as u32,
                nanosecond: (ns - 1_000_000_000) as u32,
            }
        } else {
            Timestamp { year: y as u32, month: mo, day: d, hour: h, minute: mi, second: s, nanosecond: ns }
        }
    }

    /// Builds a timestamp from a clock reading.
    pub fn from_clock(y: i32, mo: u32, d: u32, h: u32, mi: u32, s: u32, ns: u32) -> (t: Timestamp)
        requires
            1 <= mo <= 12,
            1 <= d <= 31,
            h < 24,
            mi < 60,
            s < 60,
            ns < 2_000_000_000,
        ensures
            t == Self::spec_from_clock(y, mo, d, h, mi, s, ns),
            t.wf(),
    {
        if y < 0 {
            Timestamp { year: 0, month: 1, day: 1, hour: 0, minute: 0, second: 0, nanosecond: 0 }
        } else if y > 9999 {
            Timestamp {
                year: 9999,
                month: 12,
                day: 31,
                hour: 23,
                minute: 59,
                second: 60,
                nanosecond: 999_999_999,
            }
        } else if ns >= 1_000_000_000 {
            Timestamp {
                year: y as u32,
                month: mo,
                day: d,
                hour: h,
                minute: mi,
                second: s + 1,
                nanosecond: ns - 1_000_000_000,
            }
        } else {
            Timestamp { year: y as u32, month: mo, day: d, hour: h, minute: mi, second: s, nanosecond: ns }
        }
    }

    /// The current UTC time.
    pub fn now() -> (t: Timestamp)
        ensures
            t.wf(),
    {
        let (y, mo, d, h, mi, s, ns) = utc_clock_fields();
        Self::from_clock(y, mo, d, h, mi, s, ns)
    }

    /// The number of days in a month.
    pub fn month_days(year: u32, month: u32) -> (r: u32)
        ensures
            r == Self::days_in_month(year, month),
    {
        if month == 2 {
            if year % 4 == 0 && (year % 100 != 0 || year % 400 == 0) { 29 } else { 28 }
        } else if month == 4 || month == 6 || month == 9 || month == 11 {
            30
        } else {
            31
        }
    }

    /// The instant one nanosecond after `self` (see `successor`).
    pub fn next_instant(&self) -> (r: Timestamp)
        ensures
            r == self.successor(),
    {
        let t = *self;
        if t.nanosecond < 999_999_999 {
            Timestamp { nanosecond: t.nanosecond + 1, ..t }
        } else if t.second < 59 {
            Timestamp { second: t.second + 1, nanosecond: 0, ..t }
        } else if t.minute < 59 {
            Timestamp { minute: t.minute + 1, second: 0, nanosecond: 0, ..t }
        } else if t.hour < 23 {
            Timestamp { hour: t.hour + 1, minute: 0, second: 0, nanosecond: 0, ..t }
        } else if t.second == 59 {
            Timestamp { second: 60, nanosecond: 0, ..t }
        } else if t.day < Self::month_days(t.year, t.month) {
            Timestamp { day: t.day + 1, hour: 0, minute: 0, second: 0, nanosecond: 0, ..t }
        } else if t.month < 12 {
            Timestamp { month: t.month + 1, day: 1, hour: 0, minute: 0, second: 0, nanosecond: 0, ..t }
        } else if t.year < 9999 {
            Timestamp { year: t.year + 1, month: 1, day: 1, hour: 0, minute: 0, second: 0, nanosecond: 0 }
        } else {
            t
        }
    }

    /// The time to stamp an update with: `now` when it is later than
    /// `self`, else the instant right after `self`.
    pub fn advance_to(&self, now: Timestamp) -> (r: Timestamp)
        ensures
            r == self.advance(now),
            !self.is_last() ==> r.later_than(*self),
            self.wf() && now.wf() ==> r.wf(),
    {
        proof {
            self.lemma_successor();
        }
        if now.is_later_than(self) {
            now
        } else {
            self.next_instant()
        }
    }

    /// Whether `self` is strictly later than `other`.
    pub fn is_later_than(&self, other: &Timestamp) -> (r: bool)
        ensures
            r == self.later_than(*other),
    {
        if self.year != other.year {
            self.year > other.year
        } else if self.month != other.month {
            self.month > other.month
        } else if self.day != other.day {
            self.day > other.day
        } else if self.hour != other.hour {
            self.hour > other.hour
        } else if self.minute != other.minute {
            self.minute > other.minute
        } else if self.second != other.second {
            self.second > other.second
        } else {
            self.nanosecond > other.nanosecond
        }
    }

    /// Appends the RFC 3339 text of `self`.
    pub fn push_rfc3339(&self, out: &mut String)
        ensures
            final(out)@ == old(out)@ + self.rfc3339(),
    {
        let ghost start = out@;
        push_padded(out, self.year, 4);
        push_char(out, '-');
        push_padded(out, self.month, 2);
        push_char(out, '-');
        push_padded(out, self.day, 2);
        push_char(out, 'T');
        push_padded(out, self.hour, 2);
        push_char(out, ':');
        push_padded(out, self.minute, 2);
        push_char(out, ':');
        push_padded(out, self.second, 2);
        push_char(out, '.');
        push_padded(out, self.nanosecond, 9);
        push_char(out, 'Z');
        assert(out@ =~= start + self.rfc3339());
    }

    /// Whether the fields are within their calendar ranges.
    pub fn is_wf(&self) -> (r: bool)
        ensures
            r == self.wf(),
    {
        self.year <= 9999 && 1 <= self.month && self.month <= 12 && 1 <= self.day && self.day <= 31
            && self.hour < 24 && self.minute < 60 && self.second <= 60 && self.nanosecond < 1_000_000_000
    }

    /// Reads the RFC 3339 text that `rfc3339` writes, at `pos` in `s`.
    pub fn parse_rfc3339(s: &Vec<char>, pos: usize) -> (r: Option<(Timestamp, usize)>)
        requires
            pos <= s@.len(),
        ensures
            r matches Some((t, e)) ==> pos <= e <= s@.len() && s@.subrange(pos as int, e as int) == t.rfc3339(),
            forall|t: Timestamp, rest: Seq<char>| t.wf() && #[trigger] (t.rfc3339() + rest) == s@.skip(pos as int)
                ==> r == Some((t, (pos + 30) as usize)),
    {
        let ghost cond = exists|t: Timestamp, rest: Seq<char>| t.wf() && #[trigger] (t.rfc3339() + rest) == s@.skip(pos as int);
        let ghost mut gt = Timestamp { year: 0, month: 1, day: 1, hour: 0, minute: 0, second: 0, nanosecond: 0 };
        let ghost mut grest: Seq<char> = Seq::empty();
        proof {
            if cond {
                let (t, rest) = choose|t: Timestamp, rest: Seq<char>| t.wf() && #[trigger] (t.rfc3339() + rest) == s@.skip(pos as int);
                gt = t;
                grest = rest;
                lemma_rfc3339_right(gt, grest);
                crate::canon::lemma_pow10_values();
                crate::canon::lemma_padded_len(gt.year as nat, 4);
                crate::canon::lemma_padded_len(gt.month as nat, 2);
                crate::canon::lemma_padded_len(gt.day as nat, 2);
                crate::canon::lemma_padded_len(gt.hour as nat, 2);
                crate::canon::lemma_padded_len(gt.minute as nat, 2);
                crate::canon::lemma_padded_len(gt.second as nat, 2);
                crate::canon::lemma_padded_len(gt.nanosecond as nat, 9);
                assert(s@.skip(pos as int) == (padded(gt.year as nat, 4) + (seq!['-'] + (padded(gt.month as nat, 2) + (seq!['-'] + (padded(gt.day as nat, 2) + (seq!['T'] + (padded(gt.hour as nat, 2) + (seq![':'] + (padded(gt.minute as nat, 2) + (seq![':'] + (padded(gt.second as nat, 2) + (seq!['.'] + (padded(gt.nanosecond as nat, 9) + (seq!['Z'] + grest)))))))))))))));
            }
        }
        let (year, p1) = match parse_padded(s, pos, 4) { Some(x) => x, None => { return None; } };
        proof {
            if cond {
                lemma_skip_piece(s@, pos as int, padded(gt.year as nat, 4), (seq!['-'] + (padded(gt.month as nat, 2) + (seq!['-'] + (padded(gt.day as nat, 2) + (seq!['T'] + (padded(gt.hour as nat, 2) + (seq![':'] + (padded(gt.minute as nat, 2) + (seq![':'] + (padded(gt.second as nat, 2) + (seq!['.'] + (padded(gt.nanosecond as nat, 9) + (seq!['Z'] + grest))))))))))))));
                assert(p1 == pos + padded(gt.year as nat, 4).len() as int);
            }
        }
        let p2 = match expect_char(s, p1, '-') { Some(x) => x, None => { return None; } };
        proof {
            if cond {
                lemma_skip_piece(s@, p1 as int, seq!['-'], (padded(gt.month as nat, 2) + (seq!['-'] + (padded(gt.day as nat, 2) + (seq!['T'] + (padded(gt.hour as nat, 2) + (seq![':'] + (padded(gt.minute as nat, 2) + (seq![':'] + (padded(gt.second as nat, 2) + (seq!['.'] + (padded(gt.nanosecond as nat, 9) + (seq!['Z'] + grest)))))))))))));
                assert(p2 == p1 + seq!['-'].len() as int);
            }
        }
        let (month, p3) = match parse_padded(s, p2, 2) { Some(x) => x, None => { return None; } };
        proof {
            if cond {
                lemma_skip_piece(s@, p2 as int, padded(gt.month as nat, 2), (seq!['-'] + (padded(gt.day as nat, 2) + (seq!['T'] + (padded(gt.hour as nat, 2) + (seq![':'] + (padded(gt.minute as nat, 2) + (seq![':'] + (padded(gt.second as nat, 2) + (seq!['.'] + (padded(gt.nanosecond as nat, 9) + (seq!['Z'] + grest))))))))))));
                assert(p3 == p2 + padded(gt.month as nat, 2).len() as int);
            }
        }
        let p4 = match expect_char(s, p3, '-') { Some(x) => x, None => { return None; } };
        proof {
            if cond {
                lemma_skip_piece(s@, p3 as int, seq!['-'], (padded(gt.day as nat, 2) + (seq!['T'] + (padded(gt.hour as nat, 2) + (seq![':'] + (padded(gt.minute as nat, 2) + (seq![':'] + (padded(gt.second as nat, 2) + (seq!['.'] + (padded(gt.nanosecond as nat, 9) + (seq!['Z'] + grest)))))))))));
                assert(p4 == p3 + seq!['-'].len() as int);
            }
        }
        let (day, p5) = match parse_padded(s, p4, 2) { Some(x) => x, None => { return None; } };
        proof {
            if cond {
                lemma_skip_piece(s@, p4 as int, padded(gt.day as nat, 2), (seq!['T'] + (padded(gt.hour as nat, 2) + (seq![':'] + (padded(gt.minute as nat, 2) + (seq![':'] + (padded(gt.second as nat, 2) + (seq!['.'] + (padded(gt.nanosecond as nat, 9) + (seq!['Z'] + grest))))))))));
                assert(p5 == p4 + padded(gt.day as nat, 2).len() as int);
            }
        }
        let p6 = match expect_char(s, p5, 'T') { Some(x) => x, None => { return None; } };
        proof {
            if cond {
                lemma_skip_piece(s@, p5 as int, seq!['T'], (padded(gt.hour as nat, 2) + (seq![':'] + (padded(gt.minute as nat, 2) + (seq![':'] + (padded(gt.second as nat, 2) + (seq!['.'] + (padded(gt.nanosecond as nat, 9) + (seq!['Z'] + grest)))))))));
                assert(p6 == p5 + seq!['T'].len() as int);
            }
        }
        let (hour, p7) = match parse_padded(s, p6, 2) { Some(x) => x, None => { return None; } };
        proof {
            if cond {
                lemma_skip_piece(s@, p6 as int, padded(gt.hour as nat, 2), (seq![':'] + (padded(gt.minute as nat, 2) + (seq![':'] + (padded(gt.second as nat, 2) + (seq!['.'] + (padded(gt.nanosecond as nat, 9) + (seq!['Z'] + grest))))))));
                assert(p7 == p6 + padded(gt.hour as nat, 2).len() as int);
            }
        }
        let p8 = match expect_char(s, p7, ':') { Some(x) => x, None => { return None; } };
        proof {
            if cond {
                lemma_skip_piece(s@, p7 as int, seq![':'], (padded(gt.minute as nat, 2) + (seq![':'] + (padded(gt.second as nat, 2) + (seq!['.'] + (padded(gt.nanosecond as nat, 9) + (seq!['Z'] + grest)))))));
                assert(p8 == p7 + seq![':'].len() as int);
            }
        }
        let (minute, p9) = match parse_padded(s, p8, 2) { Some(x) => x, None => { return None; } };
        proof {
            if cond {
                lemma_skip_piece(s@, p8 as int, padded(gt.minute as nat, 2), (seq![':'] + (padded(gt.second as nat, 2) + (seq!['.'] + (padded(gt.nanosecond as nat, 9) + (seq!['Z'] + grest))))));
                assert(p9 == p8 + padded(gt.minute as nat, 2).len() as int);
            }
        }
        let p10 = match expect_char(s, p9, ':') { Some(x) => x, None => { return None; } };
        proof {
            if cond {
                lemma_skip_piece(s@, p9 as int, seq![':'], (padded(gt.second as nat, 2) + (seq!['.'] + (padded(gt.nanosecond as nat, 9) + (seq!['Z'] + grest)))));
                assert(p10 == p9 + seq![':'].len() as int);
            }
        }
        let (second, p11) = match parse_padded(s, p10, 2) { Some(x) => x, None => { return None; } };
        proof {
            if cond {
                lemma_skip_piece(s@, p10 as int, padded(gt.second as nat, 2), (seq!['.'] + (padded(gt.nanosecond as nat, 9) + (seq!['Z'] + grest))));
                assert(p11 == p10 + padded(gt.second as nat, 2).len() as int);
            }
        }
        let p12 = match expect_char(s, p11, '.') { Some(x) => x, None => { return None; } };
        proof {
            if cond {
                lemma_skip_piece(s@, p11 as int, seq!['.'], (padded(gt.nanosecond as nat, 9) + (seq!['Z'] + grest)));
                assert(p12 == p11 + seq!['.'].len() as int);
            }
        }
        let (nanosecond, p13) = match parse_padded(s, p12, 9) { Some(x) => x, None => { return None; } };
        proof {
            if cond {
                lemma_skip_piece(s@, p12 as int, padded(gt.nanosecond as nat, 9), (seq!['Z'] + grest));
                assert(p13 == p12 + padded(gt.nanosecond as nat, 9).len() as int);
            }
        }
        let p14 = match expect_char(s, p13, 'Z') { Some(x) => x, None => { return None; } };
        proof {
            if cond {
                lemma_skip_piece(s@, p13 as int, seq!['Z'], grest);
                assert(p14 == p13 + seq!['Z'].len() as int);
            }
        }
        let t = Timestamp { year, month, day, hour, minute, second, nanosecond };
        proof {
            assert forall|t2: Timestamp, rest: Seq<char>| t2.wf() && #[trigger] (t2.rfc3339() + rest) == s@.skip(pos as int)
                implies t2 == t && p14 == pos + 30 by {
                assert(cond);
                crate::canon::lemma_rfc3339_unique(t2, gt, rest, grest);
            }
        }
        proof {
            let q = s@;
            let b = pos as int;
            lemma_join(q, b, p1 as int, p2 as int);
            lemma_join(q, b, p2 as int, p3 as int);
            lemma_join(q, b, p3 as int, p4 as int);
            lemma_join(q, b, p4 as int, p5 as int);
            lemma_join(q, b, p5 as int, p6 as int);
            lemma_join(q, b, p6 as int, p7 as int);
            lemma_join(q, b, p7 as int, p8 as int);
            lemma_join(q, b, p8 as int, p9 as int);
            lemma_join(q, b, p9 as int, p10 as int);
            lemma_join(q, b, p10 as int, p11 as int);
            lemma_join(q, b, p11 as int, p12 as int);
            lemma_join(q, b, p12 as int, p13 as int);
            lemma_join(q, b, p13 as int, p14 as int);
        }
        Some((t, p14))
    }

    /// Reads a whole text written by `to_rfc3339`; `None` for any other text
    /// or for fields outside their ranges.
    pub fn from_rfc3339(text: &str) -> (r: Option<Timestamp>)
        ensures
            r matches Some(t) ==> t.rfc3339() == text@ && t.wf(),
            forall|t: Timestamp| t.wf() && #[trigger] t.rfc3339() == text@ ==> r == Some(t),
    {
        let s = crate::parse::chars_of(text);
        proof {
            assert(s@.skip(0) =~= s@);
            assert forall|t: Timestamp| t.wf() && #[trigger] t.rfc3339() == text@
                implies (t.rfc3339() + Seq::<char>::empty()) == s@.skip(0) by {
                assert(t.rfc3339() + Seq::<char>::empty() =~= t.rfc3339());
            }
        }
        match Self::parse_rfc3339(&s, 0) {
            Some((t, e)) => {
                if e == s.len() && t.is_wf() {
                    assert(s@.subrange(0, e as int) =~= s@);
                    Some(t)
                } else {
                    None
                }
            },
            None => None,
        }
    }

    /// The RFC 3339 text of `self`.
    pub fn to_rfc3339(&self) -> (r: String)
        ensures
            r@ == self.rfc3339(),
    {
        let mut out = String::new();
        self.push_rfc3339(&mut out);
        assert(out@ =~= self.rfc3339());
        out
    }
}

} // verus!
