//! The archive namer: a minute-granularity timestamp and the derivation of
//! the archive file name `backup-YYYY-MM-DD-HH-mm.zip`. Because every field
//! is zero-padded and ordered most significant first, lexicographic order on
//! names agrees with time order — the fact the retention pruner relies on.

use vstd::prelude::*;

use chrono::Datelike;
use chrono::Timelike;

use crate::text::{
    lemma_lex_lt_common_prefix, lemma_lex_lt_irreflexive, lex_lt,
};
use vstd::arithmetic::div_mod::lemma_fundamental_div_mod;

verus! {

/// A wall-clock instant truncated to the minute, as plain calendar fields.
/// Two calls within the same clock minute yield equal timestamps, so their
/// archive names collide and the second write overwrites the first.
#[derive(Clone, Copy, PartialEq, Eq, Structural, Debug)]
pub struct Timestamp {
    pub year: u16,
    pub month: u8,
    pub day: u8,
    pub hour: u8,
    pub minute: u8,
}

impl Timestamp {
    /// The fields form a calendar time the name format can carry.
    pub open spec fn wf(self) -> bool {
        &&& self.year <= 9999
        &&& 1 <= self.month <= 12
        &&& 1 <= self.day <= 31
        &&& self.hour <= 23
        &&& self.minute <= 59
    }
}

/// Timestamps ordered by time, most significant field first.
pub open spec fn ts_le(a: Timestamp, b: Timestamp) -> bool {
    if a.year != b.year {
        a.year < b.year
    } else if a.month != b.month {
        a.month < b.month
    } else if a.day != b.day {
        a.day < b.day
    } else if a.hour != b.hour {
        a.hour < b.hour
    } else {
        a.minute <= b.minute
    }
}

/// The decimal digit character for `d` in 0..=9.
pub open spec fn dchar(d: int) -> char {
    if d == 0 {
        '0'
    } else if d == 1 {
        '1'
    } else if d == 2 {
        '2'
    } else if d == 3 {
        '3'
    } else if d == 4 {
        '4'
    } else if d == 5 {
        '5'
    } else if d == 6 {
        '6'
    } else if d == 7 {
        '7'
    } else if d == 8 {
        '8'
    } else {
        '9'
    }
}

/// `n` in 0..=99 as two zero-padded digits.
pub open spec fn pad2(n: int) -> Seq<char> {
    seq![dchar(n / 10), dchar(n % 10)]
}

/// The archive name for timestamp `t`, without the container extension:
/// `backup-YYYY-MM-DD-HH-mm`.
pub open spec fn archive_name_spec(t: Timestamp) -> Seq<char> {
    "backup-"@ + pad2(t.year as int / 100) + pad2(t.year as int % 100) + "-"@ + pad2(
        t.month as int,
    ) + "-"@ + pad2(t.day as int) + "-"@ + pad2(t.hour as int) + "-"@ + pad2(t.minute as int)
}

/// The file name the orchestrator writes: the archive name plus `.zip`.
pub open spec fn archive_file_name_spec(t: Timestamp) -> Seq<char> {
    archive_name_spec(t) + ".zip"@
}

/// The one-character string for a decimal digit.
fn digit_str(d: u8) -> (r: &'static str)
    requires
        d <= 9,
    ensures
        r@ == seq![dchar(d as int)],
{
    let r: &'static str = match d {
        0 => "0",
        1 => "1",
        2 => "2",
        3 => "3",
        4 => "4",
        5 => "5",
        6 => "6",
        7 => "7",
        8 => "8",
        _ => "9",
    };
    proof {
        reveal_strlit("0");
        reveal_strlit("1");
        reveal_strlit("2");
        reveal_strlit("3");
        reveal_strlit("4");
        reveal_strlit("5");
        reveal_strlit("6");
        reveal_strlit("7");
        reveal_strlit("8");
        reveal_strlit("9");
        assert(r@ =~= seq![dchar(d as int)]);
    }
    r
}

/// Append `n` in 0..=99 as two zero-padded digits.
fn push_pad2(s: &mut String, n: u8)
    requires
        n <= 99,
    ensures
        final(s)@ == old(s)@ + pad2(n as int),
{
    s.append(digit_str(n / 10));
    s.append(digit_str(n % 10));
    proof {
        assert(s@ =~= old(s)@ + pad2(n as int));
    }
}

/// The archive name for `t`, without extension: `backup-YYYY-MM-DD-HH-mm`.
pub fn archive_name(t: &Timestamp) -> (r: String)
    requires
        t.wf(),
    ensures
        r@ == archive_name_spec(*t),
{
    let mut s = String::from_str("backup-");
    push_pad2(&mut s, (t.year / 100) as u8);
    push_pad2(&mut s, (t.year % 100) as u8);
    s.append("-");
    push_pad2(&mut s, t.month);
    s.append("-");
    push_pad2(&mut s, t.day);
    s.append("-");
    push_pad2(&mut s, t.hour);
    s.append("-");
    push_pad2(&mut s, t.minute);
    proof {
        assert(s@ =~= archive_name_spec(*t));
    }
    s
}

/// The file name an archive is written under: the archive name plus `.zip`.
pub fn archive_file_name(t: &Timestamp) -> (r: String)
    requires
        t.wf(),
    ensures
        r@ == archive_file_name_spec(*t),
{
    let s = archive_name(t);
    let r = s.concat(".zip");
    r
}

/// Each digit character carries the value it names.
proof fn lemma_dchar_value(d: int)
    requires
        0 <= d <= 9,
    ensures
        dchar(d) as int == 48 + d,
{
}

/// Comparing two zero-padded two-digit blocks followed by equally long
/// tails: the numeric values decide, and equal values defer to the tails.
proof fn lemma_pad2_block(x: int, y: int, s: Seq<char>, t: Seq<char>)
    requires
        0 <= x <= 99,
        0 <= y <= 99,
        s.len() == t.len(),
    ensures
        lex_lt(pad2(x) + s, pad2(y) + t) == (x < y || (x == y && lex_lt(s, t))),
{
    let a = pad2(x) + s;
    let b = pad2(y) + t;
    lemma_dchar_value(x / 10);
    lemma_dchar_value(x % 10);
    lemma_dchar_value(y / 10);
    lemma_dchar_value(y % 10);
    lemma_fundamental_div_mod(x, 10);
    lemma_fundamental_div_mod(y, 10);
    assert(x == 10 * (x / 10) + x % 10);
    assert(y == 10 * (y / 10) + y % 10);
    assert(0 <= x % 10 <= 9 && 0 <= x / 10 <= 9);
    assert(0 <= y % 10 <= 9 && 0 <= y / 10 <= 9);
    assert(a[0] == dchar(x / 10));
    assert(b[0] == dchar(y / 10));
    if x == y {
        assert(pad2(x) == pad2(y));
        lemma_lex_lt_common_prefix(pad2(x), s, t);
    } else if x / 10 == y / 10 {
        // the tens digits agree, the units digits differ and decide
        assert(x % 10 != y % 10);
        assert(a[0] == b[0]);
        assert(lex_lt(a, b) == lex_lt(a.drop_first(), b.drop_first()));
        let a1 = seq![dchar(x % 10)] + s;
        let b1 = seq![dchar(y % 10)] + t;
        assert(a.drop_first() =~= a1);
        assert(b.drop_first() =~= b1);
        assert(a1[0] == dchar(x % 10));
        assert(b1[0] == dchar(y % 10));
        assert((a1[0] as int) != (b1[0] as int));
        assert(lex_lt(a1, b1) == (x % 10 < y % 10));
        assert((x < y) == (x % 10 < y % 10));
    } else {
        // the tens digits differ and decide
        assert((a[0] as int) != (b[0] as int));
        assert(lex_lt(a, b) == (x / 10 < y / 10));
        assert((x < y) == (x / 10 < y / 10));
    }
}

/// Law: archive file names order exactly as their timestamps do — a name is
/// lexicographically before another if and only if its timestamp is strictly
/// earlier. The pruner's newest-first name sort therefore keeps the most
/// recent archives.
pub proof fn lemma_name_order_reflects_time(t1: Timestamp, t2: Timestamp)
    requires
        t1.wf(),
        t2.wf(),
    ensures
        lex_lt(archive_file_name_spec(t1), archive_file_name_spec(t2)) == (ts_le(t1, t2) && t1
            != t2),
{
    reveal_strlit("backup-");
    reveal_strlit("-");
    reveal_strlit(".zip");
    let p = "backup-"@;
    let sep = "-"@;
    let ext = ".zip"@;
    let q1 = t1.year as int / 100;
    let q2 = t2.year as int / 100;
    let w1 = t1.year as int % 100;
    let w2 = t2.year as int % 100;
    lemma_fundamental_div_mod(t1.year as int, 100);
    lemma_fundamental_div_mod(t2.year as int, 100);
    assert(t1.year as int == 100 * q1 + w1);
    assert(t2.year as int == 100 * q2 + w2);
    assert(0 <= w1 <= 99 && 0 <= q1 <= 99);
    assert(0 <= w2 <= 99 && 0 <= q2 <= 99);

    let e1 = pad2(t1.minute as int) + ext;
    let e2 = pad2(t2.minute as int) + ext;
    let d1 = pad2(t1.hour as int) + (sep + e1);
    let d2 = pad2(t2.hour as int) + (sep + e2);
    let c1 = pad2(t1.day as int) + (sep + d1);
    let c2 = pad2(t2.day as int) + (sep + d2);
    let b1 = pad2(t1.month as int) + (sep + c1);
    let b2 = pad2(t2.month as int) + (sep + c2);
    let a1 = pad2(w1) + (sep + b1);
    let a2 = pad2(w2) + (sep + b2);
    let f1 = pad2(q1) + a1;
    let f2 = pad2(q2) + a2;
    assert(archive_file_name_spec(t1) =~= p + f1);
    assert(archive_file_name_spec(t2) =~= p + f2);

    lemma_lex_lt_common_prefix(p, f1, f2);
    lemma_pad2_block(q1, q2, a1, a2);
    lemma_pad2_block(w1, w2, sep + b1, sep + b2);
    lemma_lex_lt_common_prefix(sep, b1, b2);
    lemma_pad2_block(t1.month as int, t2.month as int, sep + c1, sep + c2);
    lemma_lex_lt_common_prefix(sep, c1, c2);
    lemma_pad2_block(t1.day as int, t2.day as int, sep + d1, sep + d2);
    lemma_lex_lt_common_prefix(sep, d1, d2);
    lemma_pad2_block(t1.hour as int, t2.hour as int, sep + e1, sep + e2);
    lemma_lex_lt_common_prefix(sep, e1, e2);
    lemma_pad2_block(t1.minute as int, t2.minute as int, ext, ext);
    lemma_lex_lt_irreflexive(ext);

    assert((t1.year < t2.year) == (q1 < q2 || (q1 == q2 && w1 < w2)));
    if t1.year == t2.year && t1.month == t2.month && t1.day == t2.day && t1.hour == t2.hour
        && t1.minute == t2.minute {
        assert(t1 == t2);
    }
}

/// Law: the archive file name determines the timestamp — names collide only
/// for calls within the same clock minute, which therefore overwrite one
/// archive rather than accumulating two.
pub proof fn lemma_name_injective(t1: Timestamp, t2: Timestamp)
    requires
        t1.wf(),
        t2.wf(),
        archive_file_name_spec(t1) == archive_file_name_spec(t2),
    ensures
        t1 == t2,
{
    if t1 != t2 {
        lemma_name_order_reflects_time(t1, t2);
        lemma_name_order_reflects_time(t2, t1);
        lemma_lex_lt_irreflexive(archive_file_name_spec(t1));
        assert(ts_le(t1, t2) || ts_le(t2, t1));
    }
}

/// Relies on `chrono::Local::now` and the `Datelike`/`Timelike` accessors:
/// `month()` is 1–12, `day()` is 1–31, `hour()` is 0–23, `minute()` is 0–59;
/// the year is whatever the system clock says.
#[verifier::external_body]
fn clock_now() -> (r: (i32, u8, u8, u8, u8))
    ensures
        1 <= r.1 <= 12,
        1 <= r.2 <= 31,
        r.3 <= 23,
        r.4 <= 59,
{
    let t = chrono::Local::now();
    (t.year(), t.month() as u8, t.day() as u8, t.hour() as u8, t.minute() as u8)
}

/// Build a timestamp from raw clock fields: `Some` exactly when the fields
/// form a calendar time the name format carries, and then with exactly these
/// fields.
pub fn timestamp_from_parts(year: i32, month: u8, day: u8, hour: u8, minute: u8) -> (r: Option<
    Timestamp,
>)
    ensures
        r is Some <==> (0 <= year <= 9999 && 1 <= month <= 12 && 1 <= day <= 31 && hour <= 23
            && minute <= 59),
        r matches Some(t) ==> t == (Timestamp { year: year as u16, month, day, hour, minute }),
{
    if 0 <= year && year <= 9999 && 1 <= month && month <= 12 && 1 <= day && day <= 31 && hour
        <= 23 && minute <= 59 {
        Some(Timestamp { year: year as u16, month, day, hour, minute })
    } else {
        None
    }
}

/// The current local time at minute granularity, when the clock's year fits
/// the four digits the name format carries; `None` for a clock far out of
/// range. Whatever the clock returned, a `Some` result is well formed.
pub fn current_timestamp() -> (r: Option<Timestamp>)
    ensures
        r matches Some(t) ==> t.wf(),
{
    let (y, mo, d, h, mi) = clock_now();
    timestamp_from_parts(y, mo, d, h, mi)
}

} // verus!
