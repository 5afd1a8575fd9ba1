//! The recurrence expander.
//!
//! A recurrence rule is an RFC-5545-style string: semicolon-separated
//! `KEY=VALUE` parts, optionally preceded by an `RRULE:` prefix, with a
//! required `FREQ` (`DAILY` or `WEEKLY`), an optional positive `INTERVAL`
//! (default 1), and an optional `COUNT` or `UNTIL` (a UTC date-time
//! `YYYYMMDDTHHMMSSZ`), but not both. Expansion is over a fixed calendar: a
//! day is 86400 seconds and a week 604800, the rule advances occurrence
//! starts from the template start, and the occurrence count is capped at a
//! hard ceiling of 100 to bound resource use even when the rule is
//! unbounded. A rule whose occurrences are already exhausted (for example
//! `COUNT=0`, or an `UNTIL` before the template start) expands to the empty
//! sequence: creating zero shifts is a success, not an error.

use vstd::prelude::*;
use crate::errors::{ApiError, ValidationFault};
use crate::calendar::{valid_civil, epoch_seconds};
use vstd::string::StringSliceAdditionalSpecFns;
use vstd::string::StrSliceExecFns;

verus! {

/// How often the rule repeats.
#[derive(Clone, Copy, Debug, PartialEq, Eq, Structural)]
pub enum Frequency {
    Daily,
    Weekly,
}

/// Seconds the rule advances per unit of `interval`.
pub open spec fn spec_step_seconds(f: Frequency) -> int {
    match f {
        Frequency::Daily => 86400,
        Frequency::Weekly => 604800,
    }
}

/// A parsed recurrence rule: frequency, interval, and an optional bound by
/// count or by final instant.
#[derive(Clone, Copy, Debug, PartialEq, Eq, Structural)]
pub struct RecurrenceRule {
    pub freq: Frequency,
    pub interval: u64,
    pub count: Option<u64>,
    pub until: Option<i64>,
}

impl RecurrenceRule {
    /// Every rule the parser returns satisfies this: the interval is
    /// positive and fits in ten decimal digits, and at most one of the two
    /// bounds is present.
    pub open spec fn wf(self) -> bool {
        &&& 1 <= self.interval <= 9_999_999_999u64
        &&& !(self.count is Some && self.until is Some)
    }
}

/// The largest number of occurrences one expansion may produce.
pub const MAX_OCCURRENCES: usize = 100;

/// The upper bound on supported instants: the first second of the year
/// 10000.
pub const MAX_TIMESTAMP: i64 = 253_402_300_800;

/// The lower bound on supported instants: the first second of the year 0.
/// Template intervals lie in `[MIN_TIMESTAMP, MAX_TIMESTAMP]`.
pub const MIN_TIMESTAMP: i64 = -62_167_219_200;

// ---------------------------------------------------------------------------
// The grammar, over the rule string's bytes.
// ---------------------------------------------------------------------------

/// Whether `b` is an ASCII decimal digit.
pub open spec fn is_digit(b: u8) -> bool {
    48 <= b <= 57
}

/// A nonempty, all-digit byte sequence.
pub open spec fn is_digits(s: Seq<u8>) -> bool {
    s.len() > 0 && forall|i: int| 0 <= i < s.len() ==> is_digit(#[trigger] s[i])
}

/// The decimal value of a digit sequence.
pub open spec fn digits_val(s: Seq<u8>) -> int
    decreases s.len(),
{
    if s.len() == 0 {
        0
    } else {
        digits_val(s.drop_last()) * 10 + (s.last() - 48)
    }
}

/// The least index at or after `i` where `sep` occurs, or the length when it
/// does not.
pub open spec fn find_from(s: Seq<u8>, sep: u8, i: int) -> int
    decreases s.len() - i,
{
    if i < 0 || i >= s.len() {
        s.len() as int
    } else if s[i] == sep {
        i
    } else {
        find_from(s, sep, i + 1)
    }
}

/// The rule string split at semicolons, from index `i` on. A trailing
/// separator yields a trailing empty part, which no key matches, so it makes
/// the rule invalid.
pub open spec fn parts_from(s: Seq<u8>, i: int) -> Seq<Seq<u8>>
    decreases s.len() - i,
{
    if !(0 <= i <= s.len()) {
        seq![]
    } else {
        let j = find_from(s, 59, i);
        if !(i <= j <= s.len()) {
            seq![]
        } else if j == s.len() {
            seq![s.subrange(i, j)]
        } else {
            seq![s.subrange(i, j)] + parts_from(s, j + 1)
        }
    }
}

/// The bytes of `FREQ`.
pub open spec fn freq_key() -> Seq<u8> {
    seq![70u8, 82u8, 69u8, 81u8]
}

/// The bytes of `DAILY`.
pub open spec fn daily_value() -> Seq<u8> {
    seq![68u8, 65u8, 73u8, 76u8, 89u8]
}

/// The bytes of `WEEKLY`.
pub open spec fn weekly_value() -> Seq<u8> {
    seq![87u8, 69u8, 69u8, 75u8, 76u8, 89u8]
}

/// The bytes of `INTERVAL`.
pub open spec fn interval_key() -> Seq<u8> {
    seq![73u8, 78u8, 84u8, 69u8, 82u8, 86u8, 65u8, 76u8]
}

/// The bytes of `COUNT`.
pub open spec fn count_key() -> Seq<u8> {
    seq![67u8, 79u8, 85u8, 78u8, 84u8]
}

/// The bytes of `UNTIL`.
pub open spec fn until_key() -> Seq<u8> {
    seq![85u8, 78u8, 84u8, 73u8, 76u8]
}

/// The bytes of `RRULE:`.
pub open spec fn rrule_prefix() -> Seq<u8> {
    seq![82u8, 82u8, 85u8, 76u8, 69u8, 58u8]
}

/// The value of an `UNTIL` part: a 16-byte `YYYYMMDDTHHMMSSZ` UTC date-time
/// naming a supported civil instant, as seconds since the Unix epoch.
pub open spec fn parse_until_value(v: Seq<u8>) -> Option<i64> {
    if v.len() == 16 && v[8] == 84 && v[15] == 90 && is_digits(v.subrange(0, 4)) && is_digits(
        v.subrange(4, 6),
    ) && is_digits(v.subrange(6, 8)) && is_digits(v.subrange(9, 11)) && is_digits(
        v.subrange(11, 13),
    ) && is_digits(v.subrange(13, 15)) {
        let y = digits_val(v.subrange(0, 4)) as int;
        let mo = digits_val(v.subrange(4, 6)) as int;
        let d = digits_val(v.subrange(6, 8)) as int;
        let h = digits_val(v.subrange(9, 11)) as int;
        let mi = digits_val(v.subrange(11, 13)) as int;
        let s = digits_val(v.subrange(13, 15)) as int;
        if valid_civil(y, mo, d, h, mi, s) {
            Some(epoch_seconds(y, mo, d, h, mi, s) as i64)
        } else {
            None
        }
    } else {
        None
    }
}

/// The fields seen so far while folding over a rule string's parts.
#[derive(Clone, Copy, Debug, PartialEq, Eq, Structural)]
pub struct PartialRule {
    pub freq: Option<Frequency>,
    pub interval: Option<u64>,
    pub count: Option<u64>,
    pub until: Option<i64>,
}

/// The state before any part has been read.
pub open spec fn empty_partial() -> PartialRule {
    PartialRule { freq: None, interval: None, count: None, until: None }
}

/// One `KEY=VALUE` part applied to the state. `None` on a missing `=`, an
/// unknown key, a repeated key, or a malformed value; numeric values carry
/// at most ten digits and an interval must be positive.
pub open spec fn apply_part(acc: PartialRule, part: Seq<u8>) -> Option<PartialRule> {
    let e = find_from(part, 61, 0);
    if !(0 <= e < part.len()) {
        None
    } else {
        let key = part.subrange(0, e);
        let val = part.subrange(e + 1, part.len() as int);
        if key == freq_key() {
            if acc.freq is Some {
                None
            } else if val == daily_value() {
                Some(PartialRule { freq: Some(Frequency::Daily), ..acc })
            } else if val == weekly_value() {
                Some(PartialRule { freq: Some(Frequency::Weekly), ..acc })
            } else {
                None
            }
        } else if key == interval_key() {
            if acc.interval is Some || !is_digits(val) || val.len() > 10 || digits_val(val) == 0 {
                None
            } else {
                Some(PartialRule { interval: Some(digits_val(val) as u64), ..acc })
            }
        } else if key == count_key() {
            if acc.count is Some || !is_digits(val) || val.len() > 10 {
                None
            } else {
                Some(PartialRule { count: Some(digits_val(val) as u64), ..acc })
            }
        } else if key == until_key() {
            if acc.until is Some {
                None
            } else {
                match parse_until_value(val) {
                    Some(t) => Some(PartialRule { until: Some(t), ..acc }),
                    None => None,
                }
            }
        } else {
            None
        }
    }
}

/// The parts folded in order over the state; `None` as soon as one part is
/// rejected.
pub open spec fn fold_parts(parts: Seq<Seq<u8>>, acc: PartialRule) -> Option<PartialRule>
    decreases parts.len(),
{
    if parts.len() == 0 {
        Some(acc)
    } else {
        match apply_part(acc, parts[0]) {
            None => None,
            Some(a2) => fold_parts(parts.drop_first(), a2),
        }
    }
}

/// The folded state made into a rule: `FREQ` is required, the interval
/// defaults to 1, and `COUNT` and `UNTIL` exclude one another.
pub open spec fn finalize_partial(p: PartialRule) -> Option<RecurrenceRule> {
    match p.freq {
        None => None,
        Some(f) => if p.count is Some && p.until is Some {
            None
        } else {
            Some(
                RecurrenceRule {
                    freq: f,
                    interval: match p.interval {
                        Some(v) => v,
                        None => 1,
                    },
                    count: p.count,
                    until: p.until,
                },
            )
        },
    }
}

/// The rule string without its optional `RRULE:` prefix.
pub open spec fn strip_rrule_prefix(s: Seq<u8>) -> Seq<u8> {
    if s.len() >= 6 && s.subrange(0, 6) == rrule_prefix() {
        s.subrange(6, s.len() as int)
    } else {
        s
    }
}

/// What a rule string denotes: `Some(rule)` exactly when the string is
/// syntactically valid.
pub open spec fn spec_parse_rrule(s: Seq<u8>) -> Option<RecurrenceRule> {
    match fold_parts(parts_from(strip_rrule_prefix(s), 0), empty_partial()) {
        None => None,
        Some(p) => finalize_partial(p),
    }
}

// ---------------------------------------------------------------------------
// Expansion semantics.
// ---------------------------------------------------------------------------

/// The start instant of occurrence `k`: the template start advanced `k`
/// rule-lengths.
pub open spec fn occ_start(rule: RecurrenceRule, start: int, k: int) -> int {
    start + k * rule.interval * spec_step_seconds(rule.freq)
}

/// Whether the rule's own bounds admit occurrence `k`.
pub open spec fn rule_admits(rule: RecurrenceRule, start: int, k: int) -> bool {
    &&& match rule.count {
        Some(c) => k < c,
        None => true,
    }
    &&& match rule.until {
        Some(u) => occ_start(rule, start, k) <= u,
        None => true,
    }
}

/// The occurrence intervals from index `k` on, while the rule admits them
/// and the ceiling is not reached. Each occurrence keeps the template
/// duration `dur`.
pub open spec fn spec_expand_from(rule: RecurrenceRule, start: int, dur: int, k: int) -> Seq<
    (i64, i64),
>
    decreases 100 - k,
{
    if !(0 <= k < 100) {
        seq![]
    } else if !rule_admits(rule, start, k) {
        seq![]
    } else {
        seq![
            (
                occ_start(rule, start, k) as i64,
                (occ_start(rule, start, k) + dur) as i64,
            ),
        ] + spec_expand_from(rule, start, dur, k + 1)
    }
}

/// The full ordered occurrence sequence of a rule applied to a template
/// interval of duration `dur` starting at `start`.
pub open spec fn spec_expand(rule: RecurrenceRule, start: int, dur: int) -> Seq<(i64, i64)> {
    spec_expand_from(rule, start, dur, 0)
}

// ---------------------------------------------------------------------------
// The parser.
// ---------------------------------------------------------------------------

proof fn lemma_find_from(s: Seq<u8>, sep: u8, i: int)
    requires
        0 <= i <= s.len(),
    ensures
        i <= find_from(s, sep, i) <= s.len(),
        find_from(s, sep, i) < s.len() ==> s[find_from(s, sep, i)] == sep,
    decreases s.len() - i,
{
    if i < s.len() && s[i] != sep {
        lemma_find_from(s, sep, i + 1);
    }
}

#[verifier::loop_isolation(false)]
fn find_byte(v: &Vec<u8>, sep: u8, from: usize) -> (r: usize)
    requires
        from <= v@.len(),
    ensures
        r == find_from(v@, sep, from as int),
        from <= r <= v@.len(),
{
    proof {
        lemma_find_from(v@, sep, from as int);
    }
    let mut k: usize = from;
    while k < v.len()
        invariant
            from <= k <= v@.len(),
            find_from(v@, sep, from as int) == find_from(v@, sep, k as int),
        decreases v@.len() - k,
    {
        if v[k] == sep {
            return k;
        }
        k = k + 1;
    }
    k
}

spec fn pow10(n: nat) -> int
    decreases n,
{
    if n == 0 {
        1
    } else {
        10 * pow10((n - 1) as nat)
    }
}

proof fn lemma_digits_val_bound(s: Seq<u8>)
    requires
        forall|i: int| 0 <= i < s.len() ==> is_digit(#[trigger] s[i]),
    ensures
        0 <= digits_val(s) < pow10(s.len()),
    decreases s.len(),
{
    if s.len() > 0 {
        lemma_digits_val_bound(s.drop_last());
    }
}

/// Reads the decimal value of `v[from..to]`: `Some` exactly when the range
/// is nonempty, all digits, and at most ten digits long.
#[verifier::loop_isolation(false)]
fn parse_uint(v: &Vec<u8>, from: usize, to: usize) -> (r: Option<u64>)
    requires
        from <= to <= v@.len(),
    ensures
        r is Some <==> is_digits(v@.subrange(from as int, to as int)) && to - from <= 10,
        r matches Some(x) ==> x == digits_val(v@.subrange(from as int, to as int)),
{
    let ghost seg = v@.subrange(from as int, to as int);
    if to == from || to - from > 10 {
        return None;
    }
    let mut acc: u64 = 0;
    let mut i: usize = from;
    while i < to
        invariant
            from <= i <= to <= v@.len(),
            to - from <= 10,
            forall|m: int| from <= m < i ==> is_digit(#[trigger] v@[m]),
            acc == digits_val(v@.subrange(from as int, i as int)),
            0 <= acc < pow10((i - from) as nat),
        decreases to - i,
    {
        let b = v[i];
        if !(48 <= b && b <= 57) {
            proof {
                assert(seg[i - from] == v@[i as int]);
            }
            return None;
        }
        proof {
            assert(pow10((i - from) as nat) <= pow10(9)) by {
                lemma_pow10_mono((i - from) as nat, 9);
            }
            assert(pow10(9) == 1000000000) by {
                reveal_with_fuel(pow10, 10);
            }
        }
        acc = acc * 10 + (b - 48) as u64;
        proof {
            let pre = v@.subrange(from as int, i as int);
            let cur = v@.subrange(from as int, i + 1 as int);
            assert(cur.drop_last() =~= pre);
            assert(cur.last() == v@[i as int]);
        }
        i = i + 1;
    }
    proof {
        assert(seg =~= v@.subrange(from as int, i as int));
        assert(is_digits(seg));
    }
    Some(acc)
}

proof fn lemma_pow10_mono(a: nat, b: nat)
    requires
        a <= b,
    ensures
        pow10(a) <= pow10(b),
        pow10(a) >= 1,
    decreases b,
{
    if a < b {
        lemma_pow10_mono(a, (b - 1) as nat);
    } else if a == b && a > 0 {
        lemma_pow10_mono((a - 1) as nat, (b - 1) as nat);
    }
}

/// Reads an `UNTIL` value from `v[from..to]`, per `parse_until_value`.
fn parse_until(v: &Vec<u8>, from: usize, to: usize) -> (r: Option<i64>)
    requires
        from <= to <= v@.len(),
    ensures
        r == parse_until_value(v@.subrange(from as int, to as int)),
{
    let ghost seg = v@.subrange(from as int, to as int);
    if to - from != 16 {
        return None;
    }
    if v[from + 8] != 84 || v[from + 15] != 90 {
        proof {
            assert(seg[8] == v@[from + 8]);
            assert(seg[15] == v@[from + 15]);
        }
        return None;
    }
    proof {
        assert(seg[8] == v@[from + 8]);
        assert(seg[15] == v@[from + 15]);
        assert(seg.subrange(0, 4) =~= v@.subrange(from as int, from + 4));
        assert(seg.subrange(4, 6) =~= v@.subrange(from + 4, from + 6));
        assert(seg.subrange(6, 8) =~= v@.subrange(from + 6, from + 8));
        assert(seg.subrange(9, 11) =~= v@.subrange(from + 9, from + 11));
        assert(seg.subrange(11, 13) =~= v@.subrange(from + 11, from + 13));
        assert(seg.subrange(13, 15) =~= v@.subrange(from + 13, from + 15));
    }
    let y = match parse_uint(v, from, from + 4) {
        Some(x) => x,
        None => {
            return None;
        },
    };
    let mo = match parse_uint(v, from + 4, from + 6) {
        Some(x) => x,
        None => {
            return None;
        },
    };
    let d = match parse_uint(v, from + 6, from + 8) {
        Some(x) => x,
        None => {
            return None;
        },
    };
    let h = match parse_uint(v, from + 9, from + 11) {
        Some(x) => x,
        None => {
            return None;
        },
    };
    let mi = match parse_uint(v, from + 11, from + 13) {
        Some(x) => x,
        None => {
            return None;
        },
    };
    let s = match parse_uint(v, from + 13, from + 15) {
        Some(x) => x,
        None => {
            return None;
        },
    };
    crate::calendar::civil_to_epoch(y, mo, d, h, mi, s)
}

/// Compares `a[from..to]` with the whole of `b`.
#[verifier::loop_isolation(false)]
fn bytes_eq(a: &Vec<u8>, from: usize, to: usize, b: &Vec<u8>) -> (r: bool)
    requires
        from <= to <= a@.len(),
    ensures
        r == (a@.subrange(from as int, to as int) == b@),
{
    let ghost seg = a@.subrange(from as int, to as int);
    if to - from != b.len() {
        return false;
    }
    let mut k: usize = 0;
    while k < b.len()
        invariant
            0 <= k <= b@.len(),
            from <= to <= a@.len(),
            to - from == b@.len(),
            forall|m: int| 0 <= m < k ==> a@.subrange(from as int, to as int)[m] == b@[m],
        decreases b@.len() - k,
    {
        if a[from + k] != b[k] {
            proof {
                assert(seg[k as int] == a@[from + k]);
            }
            return false;
        }
        proof {
            assert(seg[k as int] == a@[from + k]);
        }
        k = k + 1;
    }
    proof {
        assert(seg =~= b@);
    }
    true
}

/// Whether the partial state keeps an interval within the parser's bounds.
spec fn partial_wf(p: PartialRule) -> bool {
    p.interval matches Some(v) ==> 1 <= v <= 9_999_999_999u64
}

/// One part applied in executable code, byte for byte as `apply_part` says.
fn apply_part_exec(acc: PartialRule, part: &Vec<u8>) -> (r: Option<PartialRule>)
    ensures
        r == apply_part(acc, part@),
{
    let e = find_byte(part, 61, 0);
    if e >= part.len() {
        return None;
    }
    let ghost key = part@.subrange(0, e as int);
    let ghost val = part@.subrange(e + 1 as int, part@.len() as int);
    let freq_pat: Vec<u8> = vec![70u8, 82u8, 69u8, 81u8];
    let interval_pat: Vec<u8> = vec![73u8, 78u8, 84u8, 69u8, 82u8, 86u8, 65u8, 76u8];
    let count_pat: Vec<u8> = vec![67u8, 79u8, 85u8, 78u8, 84u8];
    let until_pat: Vec<u8> = vec![85u8, 78u8, 84u8, 73u8, 76u8];
    proof {
        assert(freq_pat@ =~= freq_key());
        assert(interval_pat@ =~= interval_key());
        assert(count_pat@ =~= count_key());
        assert(until_pat@ =~= until_key());
    }
    if bytes_eq(part, 0, e, &freq_pat) {
        if acc.freq.is_some() {
            return None;
        }
        let daily_pat: Vec<u8> = vec![68u8, 65u8, 73u8, 76u8, 89u8];
        let weekly_pat: Vec<u8> = vec![87u8, 69u8, 69u8, 75u8, 76u8, 89u8];
        proof {
            assert(daily_pat@ =~= daily_value());
            assert(weekly_pat@ =~= weekly_value());
        }
        if bytes_eq(part, e + 1, part.len(), &daily_pat) {
            Some(
                PartialRule {
                    freq: Some(Frequency::Daily),
                    interval: acc.interval,
                    count: acc.count,
                    until: acc.until,
                },
            )
        } else if bytes_eq(part, e + 1, part.len(), &weekly_pat) {
            Some(
                PartialRule {
                    freq: Some(Frequency::Weekly),
                    interval: acc.interval,
                    count: acc.count,
                    until: acc.until,
                },
            )
        } else {
            None
        }
    } else if bytes_eq(part, 0, e, &interval_pat) {
        if acc.interval.is_some() {
            return None;
        }
        match parse_uint(part, e + 1, part.len()) {
            Some(x) => if x == 0 {
                None
            } else {
                Some(
                    PartialRule {
                        freq: acc.freq,
                        interval: Some(x),
                        count: acc.count,
                        until: acc.until,
                    },
                )
            },
            None => None,
        }
    } else if bytes_eq(part, 0, e, &count_pat) {
        if acc.count.is_some() {
            return None;
        }
        match parse_uint(part, e + 1, part.len()) {
            Some(x) => Some(
                PartialRule {
                    freq: acc.freq,
                    interval: acc.interval,
                    count: Some(x),
                    until: acc.until,
                },
            ),
            None => None,
        }
    } else if bytes_eq(part, 0, e, &until_pat) {
        if acc.until.is_some() {
            return None;
        }
        match parse_until(part, e + 1, part.len()) {
            Some(t) => Some(
                PartialRule {
                    freq: acc.freq,
                    interval: acc.interval,
                    count: acc.count,
                    until: Some(t),
                },
            ),
            None => None,
        }
    } else {
        None
    }
}

proof fn lemma_apply_part_wf(acc: PartialRule, part: Seq<u8>)
    requires
        partial_wf(acc),
    ensures
        apply_part(acc, part) matches Some(a2) ==> partial_wf(a2),
{
    let e = find_from(part, 61, 0);
    if 0 <= e < part.len() {
        let key = part.subrange(0, e);
        let val = part.subrange(e + 1, part.len() as int);
        if key == interval_key() {
            if !(acc.interval is Some || !is_digits(val) || val.len() > 10 || digits_val(val)
                == 0) {
                lemma_digits_val_bound(val);
                lemma_pow10_mono(val.len(), 10);
                assert(pow10(10) == 10000000000) by {
                    reveal_with_fuel(pow10, 11);
                }
            }
        }
    }
}

proof fn lemma_fold_cons(part: Seq<u8>, rest: Seq<Seq<u8>>, acc: PartialRule)
    ensures
        fold_parts(seq![part] + rest, acc) == match apply_part(acc, part) {
            None => None::<PartialRule>,
            Some(a2) => fold_parts(rest, a2),
        },
{
    let s = seq![part] + rest;
    assert(s[0] == part);
    assert(s.drop_first() =~= rest);
}

/// Parses a recurrence rule string. Success and the returned rule are
/// exactly what the grammar (`spec_parse_rrule`) says of the string's
/// bytes; an invalid string is a `ValidationError`, never a panic.
#[verifier::loop_isolation(false)]
#[verifier::rlimit(60)]
pub fn parse_rrule(s: &str) -> (r: Result<RecurrenceRule, ApiError>)
    ensures
        spec_parse_rrule(s.spec_bytes()) matches Some(rule) ==> r == Ok::<
            RecurrenceRule,
            ApiError,
        >(rule),
        spec_parse_rrule(s.spec_bytes()) is None ==> r == Err::<RecurrenceRule, ApiError>(
            ApiError::Validation(ValidationFault::BadRecurrenceRule),
        ),
        r matches Ok(rule) ==> rule.wf() && Some(rule) == spec_parse_rrule(s.spec_bytes()),
{
    let v: Vec<u8> = s.as_bytes_vec();
    let ghost whole = s.spec_bytes();
    // Strip the optional "RRULE:" prefix into a working copy.
    let mut i0: usize = 0;
    if v.len() >= 6 && v[0] == 82 && v[1] == 82 && v[2] == 85 && v[3] == 76 && v[4] == 69 && v[5]
        == 58 {
        proof {
            assert(whole.subrange(0, 6) =~= rrule_prefix());
        }
        i0 = 6;
    } else {
        proof {
            if whole.len() >= 6 && whole.subrange(0, 6) == rrule_prefix() {
                assert(whole.subrange(0, 6)[0] == whole[0]);
                assert(whole.subrange(0, 6)[1] == whole[1]);
                assert(whole.subrange(0, 6)[2] == whole[2]);
                assert(whole.subrange(0, 6)[3] == whole[3]);
                assert(whole.subrange(0, 6)[4] == whole[4]);
                assert(whole.subrange(0, 6)[5] == whole[5]);
            }
        }
    }
    let mut body: Vec<u8> = Vec::new();
    let mut ci: usize = i0;
    while ci < v.len()
        invariant
            i0 <= ci <= v@.len(),
            body@ =~= v@.subrange(i0 as int, ci as int),
        decreases v@.len() - ci,
    {
        body.push(v[ci]);
        ci = ci + 1;
    }
    proof {
        assert(body@ =~= whole.subrange(i0 as int, whole.len() as int));
        assert(body@ =~= strip_rrule_prefix(whole));
    }
    let ghost all_parts = parts_from(body@, 0);
    let mut acc = PartialRule { freq: None, interval: None, count: None, until: None };
    let mut i: usize = 0;
    let mut done = false;
    while !done
        invariant
            0 <= i <= body@.len(),
            partial_wf(acc),
            !done ==> fold_parts(parts_from(body@, i as int), acc) == fold_parts(
                all_parts,
                empty_partial(),
            ),
            done ==> Some(acc) == fold_parts(all_parts, empty_partial()),
        decreases body@.len() - i + (if done {
            0int
        } else {
            1int
        }),
    {
        let j = find_byte(&body, 59, i);
        let mut part: Vec<u8> = Vec::new();
        let mut k: usize = i;
        while k < j
            invariant
                i <= k <= j <= body@.len(),
                part@ =~= body@.subrange(i as int, k as int),
            decreases j - k,
        {
            part.push(body[k]);
            k = k + 1;
        }
        proof {
            assert(part@ =~= body@.subrange(i as int, j as int));
        }
        let next = apply_part_exec(acc, &part);
        proof {
            lemma_apply_part_wf(acc, part@);
            if j < body@.len() {
                assert(parts_from(body@, i as int) == seq![body@.subrange(i as int, j as int)]
                    + parts_from(body@, j + 1 as int));
                lemma_fold_cons(part@, parts_from(body@, j + 1 as int), acc);
            } else {
                assert(parts_from(body@, i as int) == seq![body@.subrange(i as int, j as int)]);
                lemma_fold_cons(part@, seq![], acc);
                assert(seq![part@] + Seq::<Seq<u8>>::empty() =~= seq![part@]);
            }
        }
        match next {
            None => {
                return Err(ApiError::Validation(ValidationFault::BadRecurrenceRule));
            },
            Some(a2) => {
                acc = a2;
            },
        }
        if j >= body.len() {
            done = true;
        } else {
            i = j + 1;
        }
    }
    match acc.freq {
        None => Err(ApiError::Validation(ValidationFault::BadRecurrenceRule)),
        Some(f) => {
            if acc.count.is_some() && acc.until.is_some() {
                Err(ApiError::Validation(ValidationFault::BadRecurrenceRule))
            } else {
                let interval: u64 = match acc.interval {
                    Some(x) => x,
                    None => 1,
                };
                Ok(RecurrenceRule { freq: f, interval, count: acc.count, until: acc.until })
            }
        },
    }
}


// ---------------------------------------------------------------------------
// Expansion.
// ---------------------------------------------------------------------------

proof fn lemma_occ_monotone(rule: RecurrenceRule, start: int, k1: int, k2: int)
    requires
        rule.wf(),
        0 <= k1 <= k2,
    ensures
        occ_start(rule, start, k1) <= occ_start(rule, start, k2),
        k1 < k2 ==> occ_start(rule, start, k1) + 86400 <= occ_start(rule, start, k2),
{
    let iv = rule.interval as int;
    let step = spec_step_seconds(rule.freq);
    assert(k1 * iv * step <= k2 * iv * step && (k1 < k2 ==> k1 * iv * step + 86400 <= k2 * iv
        * step)) by (nonlinear_arith)
        requires
            0 <= k1 <= k2,
            1 <= iv,
            86400 <= step,
    ;
}

proof fn lemma_occ_bounds(rule: RecurrenceRule, start: int, k: int)
    requires
        rule.wf(),
        0 <= k <= 100,
    ensures
        start <= occ_start(rule, start, k),
        occ_start(rule, start, k) <= start + 604799999939520000,
{
    let iv = rule.interval as int;
    let step = spec_step_seconds(rule.freq);
    assert(0 <= k * iv * step <= 604799999939520000) by (nonlinear_arith)
        requires
            0 <= k <= 100,
            1 <= iv <= 9_999_999_999i64,
            86400 <= step <= 604800,
    ;
}

proof fn lemma_expand_from_props(rule: RecurrenceRule, start: int, dur: int, k: int)
    requires
        rule.wf(),
        0 <= k <= 100,
    ensures
        spec_expand_from(rule, start, dur, k).len() <= 100 - k,
        forall|i: int|
            0 <= i < spec_expand_from(rule, start, dur, k).len() ==> #[trigger] spec_expand_from(
                rule,
                start,
                dur,
                k,
            )[i] == (
                occ_start(rule, start, k + i) as i64,
                (occ_start(rule, start, k + i) + dur) as i64,
            ) && rule_admits(rule, start, k + i),
        k + spec_expand_from(rule, start, dur, k).len() == 100 || !rule_admits(
            rule,
            start,
            k + spec_expand_from(rule, start, dur, k).len(),
        ),
    decreases 100 - k,
{
    if 0 <= k < 100 && rule_admits(rule, start, k) {
        lemma_expand_from_props(rule, start, dur, k + 1);
        let rest = spec_expand_from(rule, start, dur, k + 1);
        let s = spec_expand_from(rule, start, dur, k);
        assert(s == seq![
            (occ_start(rule, start, k) as i64, (occ_start(rule, start, k) + dur) as i64),
        ] + rest);
        assert forall|i: int| 0 <= i < s.len() implies #[trigger] s[i] == (
            occ_start(rule, start, k + i) as i64,
            (occ_start(rule, start, k + i) + dur) as i64,
        ) && rule_admits(rule, start, k + i) by {
            if i > 0 {
                assert(s[i] == rest[i - 1]);
            }
        }
    }
}

fn step_seconds(f: &Frequency) -> (r: i64)
    ensures
        r == spec_step_seconds(*f),
{
    match f {
        Frequency::Daily => 86400,
        Frequency::Weekly => 604800,
    }
}

/// Expands a rule over the template interval `[start, end)`: an ordered,
/// deduplicated sequence of occurrence intervals, each of the template's
/// duration, capped at the hard ceiling of 100 occurrences. With a `COUNT`
/// bound and no `UNTIL`, exactly `min(count, 100)` occurrences come out; an
/// unbounded rule is cut at the ceiling.
#[verifier::rlimit(100)]
pub fn expand(rule: &RecurrenceRule, start: i64, end: i64) -> (r: Vec<(i64, i64)>)
    requires
        rule.wf(),
        MIN_TIMESTAMP <= start < end <= MAX_TIMESTAMP,
    ensures
        r@ == spec_expand(*rule, start as int, end - start),
        r@.len() <= 100,
        forall|i: int| 0 <= i < r@.len() ==> (#[trigger] r@[i]).1 - r@[i].0 == end - start,
        forall|i: int, j: int| 0 <= i < j < r@.len() ==> (#[trigger] r@[i]).0 < (#[trigger] r@[j]).0,
        rule.count matches Some(c) ==> (rule.until is None ==> r@.len() == (if c <= 100 {
            c as int
        } else {
            100
        })),
        rule.count is None && rule.until is None ==> r@.len() == 100,
{
    let ghost gstart = start as int;
    let ghost gdur = (end - start) as int;
    let dur: i64 = end - start;
    let step = step_seconds(&rule.freq);
    let iv: i64 = rule.interval as i64;
    let mut v: Vec<(i64, i64)> = Vec::new();
    let mut k: usize = 0;
    loop
        invariant_except_break
            rule.wf(),
            MIN_TIMESTAMP <= start < end <= MAX_TIMESTAMP,
            gstart == start as int,
            gdur == end - start,
            dur == end - start,
            step == spec_step_seconds(rule.freq),
            iv == rule.interval as i64,
            0 <= k <= 100,
            v@.len() == k,
            spec_expand(*rule, gstart, gdur) == v@ + spec_expand_from(*rule, gstart, gdur, k as int),
        ensures
            v@ == spec_expand(*rule, gstart, gdur),
        decreases 100 - k,
    {
        if k >= 100 {
            proof {
                assert(spec_expand_from(*rule, gstart, gdur, k as int) =~= seq![]);
                assert(v@ + seq![] =~= v@);
            }
            break;
        }
        proof {
            assert((k as int) * (iv as int) <= 999999999900) by (nonlinear_arith)
                requires
                    0 <= k < 100,
                    1 <= iv <= 9_999_999_999i64,
            ;
            assert(0 <= (k as int) * (iv as int) * (step as int) <= 604799999939520000)
                by (nonlinear_arith)
                requires
                    0 <= k < 100,
                    1 <= iv <= 9_999_999_999i64,
                    86400 <= step <= 604800,
            ;
        }
        let mul: i64 = (k as i64) * iv * step;
        let occ: i64 = start + mul;
        proof {
            assert(occ == occ_start(*rule, gstart, k as int));
        }
        let mut ok: bool = true;
        match rule.count {
            Some(c) => {
                if (k as u64) >= c {
                    ok = false;
                }
            },
            None => {},
        }
        match rule.until {
            Some(u) => {
                if occ > u {
                    ok = false;
                }
            },
            None => {},
        }
        proof {
            assert(ok == rule_admits(*rule, gstart, k as int));
        }
        if !ok {
            proof {
                assert(spec_expand_from(*rule, gstart, gdur, k as int) =~= seq![]);
                assert(v@ + seq![] =~= v@);
            }
            break;
        }
        v.push((occ, occ + dur));
        proof {
            let t: (i64, i64) = (occ, (occ + dur) as i64);
            let rest = spec_expand_from(*rule, gstart, gdur, k + 1 as int);
            assert(spec_expand_from(*rule, gstart, gdur, k as int) == seq![t] + rest);
            assert(v@ + rest =~= (v@.drop_last() + (seq![t] + rest)));
        }
        k = k + 1;
    }
    proof {
        lemma_expand_from_props(*rule, gstart, gdur, 0);
        let s = spec_expand(*rule, gstart, gdur);
        assert forall|i: int, j: int| 0 <= i < j < s.len() implies (#[trigger] s[i]).0 < (
        #[trigger] s[j]).0 by {
            lemma_occ_monotone(*rule, gstart, i, j);
            lemma_occ_bounds(*rule, gstart, i);
            lemma_occ_bounds(*rule, gstart, j);
        }
        assert forall|i: int| 0 <= i < s.len() implies (#[trigger] s[i]).1 - s[i].0 == end
            - start by {
            lemma_occ_bounds(*rule, gstart, i);
        }
        match rule.count {
            Some(c) => {
                if rule.until is None {
                    let n = s.len() as int;
                    if n > c as int {
                        let x = s[c as int];
                        assert(rule_admits(*rule, gstart, c as int));
                        assert(false);
                    }
                    if n < 100 {
                        assert(!rule_admits(*rule, gstart, n));
                        assert(n >= c as int);
                    }
                }
            },
            None => {},
        }
    }
    v
}

} // verus!
