//! The snapshot naming convention.
//!
//! A managed snapshot name is `<prefix><4-digit index>-<timestamp>`:
//! the prefix verbatim, exactly four decimal digits, a dash, and a
//! non-empty run of digits and dashes.  Names of any other shape belong
//! to a different convention and are invisible to the namer and the
//! retention engine.  The grammar is stated once, as [`snap_matches`],
//! and the matcher, the renderer and the round-trip law all refer to it.

use chrono::Datelike;
use chrono::Timelike;
use vstd::prelude::*;
use vstd::string::StrSliceExecFns;
use vstd::string::StringExecFns;

use crate::strutil::all_digits;
use crate::strutil::char_of_digit;
use crate::strutil::dec_seq;
use crate::strutil::dec_val;
use crate::strutil::has_prefix;
use crate::strutil::is_digit;
use crate::strutil::lemma_all_digits_concat;
use crate::strutil::lemma_dec_seq;
use crate::strutil::lemma_pad2_round_trip;
use crate::strutil::lemma_pad4_round_trip;
use crate::strutil::pad2_spec;
use crate::strutil::pad4_spec;
use crate::strutil::pow10;
use crate::strutil::push_pad2;
use crate::strutil::push_pad4;
use crate::strutil::push_u64;
use crate::strutil::split2_spec;
use crate::strutil::split_once_at;

verus! {

/// A character allowed in the timestamp part: a digit or a dash.
pub open spec fn is_snap_char(c: char) -> bool {
    is_digit(c) || c == '-'
}

/// Does `name` follow the convention under `prefix`?
pub open spec fn snap_matches(prefix: Seq<char>, name: Seq<char>) -> bool {
    let p = prefix.len() as int;
    &&& name.len() >= p + 6
    &&& name.take(p) == prefix
    &&& all_digits(name.subrange(p, p + 4))
    &&& name[p + 4] == '-'
    &&& forall|i: int| p + 5 <= i < name.len() ==> is_snap_char(name[i])
}

/// The numeric index encoded in a matching name.
pub open spec fn snap_index(prefix: Seq<char>, name: Seq<char>) -> nat {
    dec_val(name.subrange(prefix.len() as int, prefix.len() as int + 4))
}

/// Decode the index of a snapshot name, `None` when the name does not
/// follow the convention under `prefix`.
pub fn snap_number_of(prefix: &str, name: &str) -> (r: Option<usize>)
    ensures
        match r {
            Some(n) => {
                &&& snap_matches(prefix@, name@)
                &&& n == snap_index(prefix@, name@)
                &&& n <= 9999
            },
            None => !snap_matches(prefix@, name@),
        },
{
    let p = prefix.unicode_len();
    let n = name.unicode_len();
    if !has_prefix(name, prefix) {
        return None;
    }
    if n - p < 6 {
        return None;
    }
    let ghost digits = name@.subrange(p as int, p + 4);
    let mut v: usize = 0;
    let mut k: usize = 0;
    proof {
        assert(digits.subrange(0, 0) =~= Seq::<char>::empty());
    }
    while k < 4
        invariant
            p == prefix@.len(),
            p + 6 <= n == name@.len(),
            digits == name@.subrange(p as int, p + 4),
            k <= 4,
            all_digits(digits.subrange(0, k as int)),
            v == dec_val(digits.subrange(0, k as int)),
            v < pow10(k as nat),
        decreases 4 - k,
    {
        let c = name.get_char(p + k);
        let u = c as u32;
        proof {
            assert(digits[k as int] == name@[(p + k) as int]);
            assert(digits.subrange(0, k + 1).drop_last() =~= digits.subrange(0, k as int));
            assert(digits.subrange(0, k + 1).last() == digits[k as int]);
        }
        if u < 48 || u > 57 {
            proof {
                assert(!is_digit(digits[k as int]));
                assert(!snap_matches(prefix@, name@)) by {
                    assert(name@.subrange(
                        prefix@.len() as int,
                        prefix@.len() as int + 4,
                    )[k as int] == digits[k as int]);
                }
            }
            return None;
        }
        proof {
            assert(pow10(0) == 1);
            assert(pow10(1) == 10);
            assert(pow10(2) == 100);
            assert(pow10(3) == 1000);
            assert(pow10(4) == 10000);
            assert(forall|j: int|
                0 <= j < k + 1 ==> is_digit(#[trigger] digits.subrange(0, k + 1)[j]));
        }
        v = v * 10 + ((u - 48) as usize);
        k = k + 1;
    }
    proof {
        assert(digits.subrange(0, 4) =~= digits);
        assert(pow10(0) == 1);
        assert(pow10(1) == 10);
        assert(pow10(2) == 100);
        assert(pow10(3) == 1000);
        assert(pow10(4) == 10000);
    }
    if name.get_char(p + 4) != '-' {
        return None;
    }
    let mut j: usize = p + 5;
    while j < n
        invariant
            p == prefix@.len(),
            p + 6 <= n == name@.len(),
            p + 5 <= j <= n,
            forall|i: int| p + 5 <= i < j ==> is_snap_char(name@[i]),
        decreases n - j,
    {
        let c = name.get_char(j);
        let u = c as u32;
        if !(u == 45 || (48 <= u && u <= 57)) {
            proof {
                assert(c != '-') by {
                    assert('-' as u32 == 45);
                }
                assert(!is_snap_char(name@[j as int]));
                assert(!snap_matches(prefix@, name@)) by {
                    assert(prefix@.len() + 5 <= j < name@.len());
                }
            }
            return None;
        }
        proof {
            if u == 45 {
                assert(c == '-') by {
                    assert(c as u32 == 45 && '-' as u32 == 45);
                }
            }
        }
        j = j + 1;
    }
    Some(v)
}

/// A clock reading at second granularity, with every field clamped
/// into its rendering range.
#[derive(Debug, Clone, Copy, PartialEq, Eq, Structural)]
pub struct Timestamp {
    pub year: u32,
    pub month: u32,
    pub day: u32,
    pub hour: u32,
    pub minute: u32,
    pub second: u32,
}

impl Timestamp {
    /// Every field fits its zero-padded column.
    pub open spec fn wf(self) -> bool {
        &&& self.year <= 9999
        &&& 1 <= self.month <= 12
        &&& 1 <= self.day <= 31
        &&& self.hour <= 23
        &&& self.minute <= 59
        &&& self.second <= 59
    }

    /// Clamp raw clock fields into rendering range.  The calendar
    /// fields a real clock reports are already in range; only an
    /// absurd year is actually altered.
    pub fn from_clock(year: i64, month: u32, day: u32, hour: u32, minute: u32, second: u32) -> (r:
        Timestamp)
        ensures
            r.wf(),
            r.year == if year < 0 {
                0int
            } else if year > 9999 {
                9999int
            } else {
                year as int
            },
            1 <= month <= 12 ==> r.month == month,
            1 <= day <= 31 ==> r.day == day,
            hour <= 23 ==> r.hour == hour,
            minute <= 59 ==> r.minute == minute,
            second <= 59 ==> r.second == second,
    {
        let y: u32 = if year < 0 {
            0
        } else if year > 9999 {
            9999
        } else {
            year as u32
        };
        let mo: u32 = if month < 1 {
            1
        } else if month > 12 {
            12
        } else {
            month
        };
        let d: u32 = if day < 1 {
            1
        } else if day > 31 {
            31
        } else {
            day
        };
        let h: u32 = if hour > 23 {
            23
        } else {
            hour
        };
        let mi: u32 = if minute > 59 {
            59
        } else {
            minute
        };
        let s: u32 = if second > 59 {
            59
        } else {
            second
        };
        Timestamp { year: y, month: mo, day: d, hour: h, minute: mi, second: s }
    }
}

/// Relies on chrono's `Local::now` with the `Datelike` and `Timelike`
/// accessors, whose documentation bounds them: month 1–12, day 1–31,
/// hour 0–23, minute 0–59, second 0–59.  The year is whatever the
/// system clock says, so nothing is promised of it.
#[verifier::external_body]
fn clock_now() -> (r: (i64, u32, u32, u32, u32, u32))
    ensures
        1 <= r.1 <= 12,
        1 <= r.2 <= 31,
        r.3 <= 23,
        r.4 <= 59,
        r.5 <= 59,
{
    let now = chrono::Local::now();
    (now.year() as i64, now.month(), now.day(), now.hour(), now.minute(), now.second())
}

/// The current local time, already clamped for rendering.
pub fn now_timestamp() -> (r: Timestamp)
    ensures
        r.wf(),
{
    let (y, mo, d, h, mi, s) = clock_now();
    Timestamp::from_clock(y, mo, d, h, mi, s)
}

/// The digits of the timestamp column: `yyyymmddhhmmss`.
pub open spec fn ts_digits(ts: Timestamp) -> Seq<char> {
    pad4_spec(ts.year as nat) + pad2_spec(ts.month as nat) + pad2_spec(ts.day as nat) + pad2_spec(
        ts.hour as nat,
    ) + pad2_spec(ts.minute as nat) + pad2_spec(ts.second as nat)
}

/// The index column: four digits zero-padded, widening only beyond
/// 9999 (such an index can never be produced by allocation, which
/// stays below the four-digit ceiling of its own inputs plus one).
pub open spec fn index_digits(n: nat) -> Seq<char> {
    if n <= 9999 {
        pad4_spec(n)
    } else {
        dec_seq(n)
    }
}

/// The canonical snapshot name for an index and a clock reading.
pub open spec fn snap_name_spec(prefix: Seq<char>, index: nat, ts: Timestamp) -> Seq<char> {
    prefix + index_digits(index) + seq!['-'] + ts_digits(ts)
}

/// Timestamp digits are digits.
pub proof fn lemma_ts_digits(ts: Timestamp)
    requires
        ts.wf(),
    ensures
        all_digits(ts_digits(ts)),
        ts_digits(ts).len() == 14,
{
    lemma_pad4_round_trip(ts.year as nat);
    lemma_pad2_round_trip(ts.month as nat);
    lemma_pad2_round_trip(ts.day as nat);
    lemma_pad2_round_trip(ts.hour as nat);
    lemma_pad2_round_trip(ts.minute as nat);
    lemma_pad2_round_trip(ts.second as nat);
    lemma_all_digits_concat(pad4_spec(ts.year as nat), pad2_spec(ts.month as nat));
    lemma_all_digits_concat(
        pad4_spec(ts.year as nat) + pad2_spec(ts.month as nat),
        pad2_spec(ts.day as nat),
    );
    lemma_all_digits_concat(
        pad4_spec(ts.year as nat) + pad2_spec(ts.month as nat) + pad2_spec(ts.day as nat),
        pad2_spec(ts.hour as nat),
    );
    lemma_all_digits_concat(
        pad4_spec(ts.year as nat) + pad2_spec(ts.month as nat) + pad2_spec(ts.day as nat)
            + pad2_spec(ts.hour as nat),
        pad2_spec(ts.minute as nat),
    );
    lemma_all_digits_concat(
        pad4_spec(ts.year as nat) + pad2_spec(ts.month as nat) + pad2_spec(ts.day as nat)
            + pad2_spec(ts.hour as nat) + pad2_spec(ts.minute as nat),
        pad2_spec(ts.second as nat),
    );
}

/// Render the canonical snapshot name.
pub fn render_snap_name(prefix: &str, index: usize, ts: Timestamp) -> (r: String)
    requires
        ts.wf(),
    ensures
        r@ == snap_name_spec(prefix@, index as nat, ts),
{
    let mut out = prefix.to_owned();
    if index <= 9999 {
        push_pad4(&mut out, index as u32);
    } else {
        push_u64(&mut out, index as u64);
    }
    out.append("-");
    proof {
        reveal_strlit("-");
        assert("-"@ =~= seq!['-']);
    }
    push_pad4(&mut out, ts.year);
    push_pad2(&mut out, ts.month);
    push_pad2(&mut out, ts.day);
    push_pad2(&mut out, ts.hour);
    push_pad2(&mut out, ts.minute);
    push_pad2(&mut out, ts.second);
    proof {
        assert(out@ =~= snap_name_spec(prefix@, index as nat, ts));
    }
    out
}

/// The namer's round trip: a rendered name matches the convention
/// under its own prefix, and decodes back to exactly the index it was
/// rendered from.
pub proof fn lemma_snap_name_round_trip(prefix: Seq<char>, index: nat, ts: Timestamp)
    requires
        index <= 9999,
        ts.wf(),
    ensures
        snap_matches(prefix, snap_name_spec(prefix, index, ts)),
        snap_index(prefix, snap_name_spec(prefix, index, ts)) == index,
{
    let name = snap_name_spec(prefix, index, ts);
    let p = prefix.len() as int;
    lemma_pad4_round_trip(index);
    lemma_ts_digits(ts);
    assert(name.len() == p + 4 + 1 + 14);
    assert(name.take(p) =~= prefix);
    assert(name.subrange(p, p + 4) =~= pad4_spec(index));
    assert(name[p + 4] == '-');
    assert forall|i: int| p + 5 <= i < name.len() implies is_snap_char(name[i]) by {
        assert(name[i] == ts_digits(ts)[i - (p + 5)]);
    }
}

/// A filesystem volume: local, or on a given host.
#[derive(Eq, PartialEq, Debug)]
pub enum FsName {
    Local { name: String },
    Remote { host: String, name: String },
}

/// Parse a volume name of the form `name` or `host:name`; only the
/// first colon separates, the rest stays in the name.
pub fn parse_fsname(text: &str) -> (r: FsName)
    ensures
        match split2_spec(text@, ':') {
            None => r matches FsName::Local { name } && name@ == text@,
            Some(parts) => r matches FsName::Remote { host, name } && host@ == parts.0 && name@
                == parts.1,
        },
{
    match split_once_at(text, ':') {
        None => FsName::Local { name: text.to_owned() },
        Some(parts) => FsName::Remote { host: parts.0, name: parts.1 },
    }
}

} // verus!
