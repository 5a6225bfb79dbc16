//! Instants in UTC, held as calendar fields, and their textual forms.
use chrono::{Datelike, Timelike};
use vstd::prelude::*;

verus! {

/// Smallest year that a calendar date can carry.
pub const MIN_YEAR: i32 = -262143;

/// Largest year that a calendar date can carry.
pub const MAX_YEAR: i32 = 262142;

/// An instant in UTC. A `nanosecond` of one billion or more marks a leap
/// second, which only follows second 59.
#[derive(Clone, Copy, Debug, PartialEq, Eq, Structural)]
pub struct Timestamp {
    pub year: i32,
    pub month: u32,
    pub day: u32,
    pub hour: u32,
    pub minute: u32,
    pub second: u32,
    pub nanosecond: u32,
}

pub open spec fn is_leap_year(y: int) -> bool {
    y % 4 == 0 && (y % 100 != 0 || y % 400 == 0)
}

pub open spec fn days_in_month(y: int, m: int) -> int {
    if m == 2 {
        if is_leap_year(y) {
            29
        } else {
            28
        }
    } else if m == 4 || m == 6 || m == 9 || m == 11 {
        30
    } else {
        31
    }
}

/// The decimal digit for `d`, which is below ten.
pub open spec fn digit_char(d: nat) -> char {
    if d == 0 { '0' }
    else if d == 1 { '1' }
    else if d == 2 { '2' }
    else if d == 3 { '3' }
    else if d == 4 { '4' }
    else if d == 5 { '5' }
    else if d == 6 { '6' }
    else if d == 7 { '7' }
    else if d == 8 { '8' }
    else { '9' }
}

/// The last `width` decimal digits of `n`, zeros in front.
pub open spec fn padded(n: nat, width: nat) -> Seq<char>
    decreases width,
{
    if width == 0 {
        Seq::empty()
    } else {
        padded(n / 10, (width - 1) as nat).push(digit_char(n % 10))
    }
}

impl Timestamp {
    /// The fields name a real instant.
    pub open spec fn wf(self) -> bool {
        &&& MIN_YEAR <= self.year <= MAX_YEAR
        &&& 1 <= self.month <= 12
        &&& 1 <= self.day <= days_in_month(self.year as int, self.month as int)
        &&& self.hour < 24
        &&& self.minute < 60
        &&& self.second < 60
        &&& self.nanosecond < 2_000_000_000
        &&& self.nanosecond >= 1_000_000_000 ==> self.second == 59
    }

    /// The instant has a four-digit year, so that its canonical text is the
    /// fixed-width form.
    pub open spec fn representable(self) -> bool {
        0 <= self.year <= 9999
    }
}

impl Timestamp {
    /// Whether the fields name a real instant.
    pub fn is_valid(&self) -> (r: bool)
        ensures
            r == self.wf(),
    {
        let leap = self.year % 4 == 0 && (self.year % 100 != 0 || self.year % 400 == 0);
        let days: u32 = if self.month == 2 {
            if leap {
                29
            } else {
                28
            }
        } else if self.month == 4 || self.month == 6 || self.month == 9 || self.month == 11 {
            30
        } else {
            31
        };
        assert(leap == is_leap_year(self.year as int)) by {
            assert((self.year % 4 == 0) == ((self.year as int) % 4 == 0));
            assert((self.year % 100 == 0) == ((self.year as int) % 100 == 0));
            assert((self.year % 400 == 0) == ((self.year as int) % 400 == 0));
        }
        MIN_YEAR <= self.year && self.year <= MAX_YEAR && 1 <= self.month && self.month <= 12
            && 1 <= self.day && self.day <= days && self.hour < 24 && self.minute < 60
            && self.second < 60 && self.nanosecond < 2_000_000_000 && (self.nanosecond
            < 1_000_000_000 || self.second == 59)
    }
}

/// The second that the text shows: a leap second shows as second 60.
pub open spec fn shown_second(t: Timestamp) -> nat {
    if t.nanosecond >= 1_000_000_000 {
        (t.second + 1) as nat
    } else {
        t.second as nat
    }
}

/// The fraction of a second that the text shows, in nanoseconds.
pub open spec fn shown_fraction(t: Timestamp) -> nat {
    if t.nanosecond >= 1_000_000_000 {
        (t.nanosecond - 1_000_000_000) as nat
    } else {
        t.nanosecond as nat
    }
}

/// Canonical RFC 3339 text: `YYYY-MM-DDTHH:MM:SS.nnnnnnnnnZ`.
pub open spec fn rfc3339_text(t: Timestamp) -> Seq<char> {
    padded(t.year as nat, 4) + seq!['-'] + padded(t.month as nat, 2) + seq!['-']
        + padded(t.day as nat, 2) + seq!['T'] + padded(t.hour as nat, 2) + seq![':']
        + padded(t.minute as nat, 2) + seq![':'] + padded(shown_second(t), 2) + seq!['.']
        + padded(shown_fraction(t), 9) + seq!['Z']
}

/// What chrono reads from an RFC 3339 text, taken to UTC.
pub uninterp spec fn rfc3339_instant(s: Seq<char>) -> Option<Timestamp>;

/// The text is the canonical form of some representable instant.
pub open spec fn is_canonical_rfc3339(s: Seq<char>) -> bool {
    exists|t: Timestamp| t.wf() && t.representable() && rfc3339_text(t) == s
}

/// The instant read from an RFC 3339 text: the one it spells when the text is
/// canonical, else what chrono makes of it.
pub open spec fn rfc3339_value(s: Seq<char>) -> Option<Timestamp> {
    if is_canonical_rfc3339(s) {
        Some(choose|t: Timestamp| t.wf() && t.representable() && rfc3339_text(t) == s)
    } else {
        rfc3339_instant(s)
    }
}

pub open spec fn pow10(w: nat) -> nat
    decreases w,
{
    if w == 0 {
        1
    } else {
        10 * pow10((w - 1) as nat)
    }
}

pub proof fn lemma_padded_len(n: nat, w: nat)
    ensures
        padded(n, w).len() == w,
    decreases w,
{
    if w > 0 {
        lemma_padded_len(n / 10, (w - 1) as nat);
    }
}

/// Padded digits hold no separator of the cache format.
pub proof fn lemma_padded_plain(n: nat, w: nat)
    ensures
        !padded(n, w).contains(';'),
        !padded(n, w).contains('\n'),
    decreases w,
{
    if w > 0 {
        lemma_padded_plain(n / 10, (w - 1) as nat);
        let p = padded(n / 10, (w - 1) as nat);
        let q = padded(n, w);
        assert forall|k: int| 0 <= k < q.len() implies q[k] != ';' && q[k] != '\n' by {
            if k < p.len() {
                assert(q[k] == p[k]);
            }
        }
    }
}

pub proof fn lemma_padded_inj(a: nat, b: nat, w: nat)
    requires
        padded(a, w) == padded(b, w),
        a < pow10(w),
        b < pow10(w),
    ensures
        a == b,
    decreases w,
{
    if w > 0 {
        let pa = padded(a, w);
        let pb = padded(b, w);
        assert(pa.last() == digit_char(a % 10));
        assert(pb.last() == digit_char(b % 10));
        assert(a % 10 == b % 10);
        assert(pa.drop_last() =~= padded(a / 10, (w - 1) as nat));
        assert(pb.drop_last() =~= padded(b / 10, (w - 1) as nat));
        let p = pow10((w - 1) as nat);
        assert(a / 10 < p) by (nonlinear_arith)
            requires
                a < 10 * p,
        ;
        assert(b / 10 < p) by (nonlinear_arith)
            requires
                b < 10 * p,
        ;
        lemma_padded_inj(a / 10, b / 10, (w - 1) as nat);
    }
}

/// Distinct representable instants have distinct canonical texts.
pub proof fn lemma_rfc3339_text_inj(t1: Timestamp, t2: Timestamp)
    requires
        t1.wf() && t1.representable(),
        t2.wf() && t2.representable(),
        rfc3339_text(t1) == rfc3339_text(t2),
    ensures
        t1 == t2,
{
    reveal_with_fuel(pow10, 10);
    lemma_padded_len(t1.year as nat, 4);
    lemma_padded_len(t2.year as nat, 4);
    lemma_padded_len(t1.month as nat, 2);
    lemma_padded_len(t2.month as nat, 2);
    lemma_padded_len(t1.day as nat, 2);
    lemma_padded_len(t2.day as nat, 2);
    lemma_padded_len(t1.hour as nat, 2);
    lemma_padded_len(t2.hour as nat, 2);
    lemma_padded_len(t1.minute as nat, 2);
    lemma_padded_len(t2.minute as nat, 2);
    lemma_padded_len(shown_second(t1), 2);
    lemma_padded_len(shown_second(t2), 2);
    lemma_padded_len(shown_fraction(t1), 9);
    lemma_padded_len(shown_fraction(t2), 9);
    lemma_concat_eq(
        padded(t1.year as nat, 4) + seq!['-'] + padded(t1.month as nat, 2) + seq!['-'] + padded(t1.day as nat, 2) + seq!['T'] + padded(t1.hour as nat, 2) + seq![':'] + padded(t1.minute as nat, 2) + seq![':'] + padded(shown_second(t1), 2) + seq!['.'] + padded(shown_fraction(t1), 9),
        seq!['Z'],
        padded(t2.year as nat, 4) + seq!['-'] + padded(t2.month as nat, 2) + seq!['-'] + padded(t2.day as nat, 2) + seq!['T'] + padded(t2.hour as nat, 2) + seq![':'] + padded(t2.minute as nat, 2) + seq![':'] + padded(shown_second(t2), 2) + seq!['.'] + padded(shown_fraction(t2), 9),
        seq!['Z'],
    );
    lemma_concat_eq(
        padded(t1.year as nat, 4) + seq!['-'] + padded(t1.month as nat, 2) + seq!['-'] + padded(t1.day as nat, 2) + seq!['T'] + padded(t1.hour as nat, 2) + seq![':'] + padded(t1.minute as nat, 2) + seq![':'] + padded(shown_second(t1), 2) + seq!['.'],
        padded(shown_fraction(t1), 9),
        padded(t2.year as nat, 4) + seq!['-'] + padded(t2.month as nat, 2) + seq!['-'] + padded(t2.day as nat, 2) + seq!['T'] + padded(t2.hour as nat, 2) + seq![':'] + padded(t2.minute as nat, 2) + seq![':'] + padded(shown_second(t2), 2) + seq!['.'],
        padded(shown_fraction(t2), 9),
    );
    lemma_concat_eq(
        padded(t1.year as nat, 4) + seq!['-'] + padded(t1.month as nat, 2) + seq!['-'] + padded(t1.day as nat, 2) + seq!['T'] + padded(t1.hour as nat, 2) + seq![':'] + padded(t1.minute as nat, 2) + seq![':'] + padded(shown_second(t1), 2),
        seq!['.'],
        padded(t2.year as nat, 4) + seq!['-'] + padded(t2.month as nat, 2) + seq!['-'] + padded(t2.day as nat, 2) + seq!['T'] + padded(t2.hour as nat, 2) + seq![':'] + padded(t2.minute as nat, 2) + seq![':'] + padded(shown_second(t2), 2),
        seq!['.'],
    );
    lemma_concat_eq(
        padded(t1.year as nat, 4) + seq!['-'] + padded(t1.month as nat, 2) + seq!['-'] + padded(t1.day as nat, 2) + seq!['T'] + padded(t1.hour as nat, 2) + seq![':'] + padded(t1.minute as nat, 2) + seq![':'],
        padded(shown_second(t1), 2),
        padded(t2.year as nat, 4) + seq!['-'] + padded(t2.month as nat, 2) + seq!['-'] + padded(t2.day as nat, 2) + seq!['T'] + padded(t2.hour as nat, 2) + seq![':'] + padded(t2.minute as nat, 2) + seq![':'],
        padded(shown_second(t2), 2),
    );
    lemma_concat_eq(
        padded(t1.year as nat, 4) + seq!['-'] + padded(t1.month as nat, 2) + seq!['-'] + padded(t1.day as nat, 2) + seq!['T'] + padded(t1.hour as nat, 2) + seq![':'] + padded(t1.minute as nat, 2),
        seq![':'],
        padded(t2.year as nat, 4) + seq!['-'] + padded(t2.month as nat, 2) + seq!['-'] + padded(t2.day as nat, 2) + seq!['T'] + padded(t2.hour as nat, 2) + seq![':'] + padded(t2.minute as nat, 2),
        seq![':'],
    );
    lemma_concat_eq(
        padded(t1.year as nat, 4) + seq!['-'] + padded(t1.month as nat, 2) + seq!['-'] + padded(t1.day as nat, 2) + seq!['T'] + padded(t1.hour as nat, 2) + seq![':'],
        padded(t1.minute as nat, 2),
        padded(t2.year as nat, 4) + seq!['-'] + padded(t2.month as nat, 2) + seq!['-'] + padded(t2.day as nat, 2) + seq!['T'] + padded(t2.hour as nat, 2) + seq![':'],
        padded(t2.minute as nat, 2),
    );
    lemma_concat_eq(
        padded(t1.year as nat, 4) + seq!['-'] + padded(t1.month as nat, 2) + seq!['-'] + padded(t1.day as nat, 2) + seq!['T'] + padded(t1.hour as nat, 2),
        seq![':'],
        padded(t2.year as nat, 4) + seq!['-'] + padded(t2.month as nat, 2) + seq!['-'] + padded(t2.day as nat, 2) + seq!['T'] + padded(t2.hour as nat, 2),
        seq![':'],
    );
    lemma_concat_eq(
        padded(t1.year as nat, 4) + seq!['-'] + padded(t1.month as nat, 2) + seq!['-'] + padded(t1.day as nat, 2) + seq!['T'],
        padded(t1.hour as nat, 2),
        padded(t2.year as nat, 4) + seq!['-'] + padded(t2.month as nat, 2) + seq!['-'] + padded(t2.day as nat, 2) + seq!['T'],
        padded(t2.hour as nat, 2),
    );
    lemma_concat_eq(
        padded(t1.year as nat, 4) + seq!['-'] + padded(t1.month as nat, 2) + seq!['-'] + padded(t1.day as nat, 2),
        seq!['T'],
        padded(t2.year as nat, 4) + seq!['-'] + padded(t2.month as nat, 2) + seq!['-'] + padded(t2.day as nat, 2),
        seq!['T'],
    );
    lemma_concat_eq(
        padded(t1.year as nat, 4) + seq!['-'] + padded(t1.month as nat, 2) + seq!['-'],
        padded(t1.day as nat, 2),
        padded(t2.year as nat, 4) + seq!['-'] + padded(t2.month as nat, 2) + seq!['-'],
        padded(t2.day as nat, 2),
    );
    lemma_concat_eq(
        padded(t1.year as nat, 4) + seq!['-'] + padded(t1.month as nat, 2),
        seq!['-'],
        padded(t2.year as nat, 4) + seq!['-'] + padded(t2.month as nat, 2),
        seq!['-'],
    );
    lemma_concat_eq(
        padded(t1.year as nat, 4) + seq!['-'],
        padded(t1.month as nat, 2),
        padded(t2.year as nat, 4) + seq!['-'],
        padded(t2.month as nat, 2),
    );
    lemma_concat_eq(
        padded(t1.year as nat, 4),
        seq!['-'],
        padded(t2.year as nat, 4),
        seq!['-'],
    );
    lemma_padded_inj(t1.year as nat, t2.year as nat, 4);
    lemma_padded_inj(t1.month as nat, t2.month as nat, 2);
    lemma_padded_inj(t1.day as nat, t2.day as nat, 2);
    lemma_padded_inj(t1.hour as nat, t2.hour as nat, 2);
    lemma_padded_inj(t1.minute as nat, t2.minute as nat, 2);
    lemma_padded_inj(shown_second(t1), shown_second(t2), 2);
    lemma_padded_inj(shown_fraction(t1), shown_fraction(t2), 9);
}

proof fn lemma_concat_eq(a: Seq<char>, b: Seq<char>, c: Seq<char>, d: Seq<char>)
    requires
        a + b == c + d,
        a.len() == c.len(),
    ensures
        a == c,
        b == d,
{
    assert(a =~= (a + b).subrange(0, a.len() as int));
    assert(c =~= (c + d).subrange(0, c.len() as int));
    assert(b =~= (a + b).subrange(a.len() as int, (a + b).len() as int));
    assert(d =~= (c + d).subrange(c.len() as int, (c + d).len() as int));
}

/// Reading the canonical text of a representable instant gives it back.
pub proof fn lemma_rfc3339_value_of_text(t: Timestamp)
    requires
        t.wf() && t.representable(),
    ensures
        rfc3339_value(rfc3339_text(t)) == Some(t),
{
    let s = rfc3339_text(t);
    assert(is_canonical_rfc3339(s));
    let u = choose|u: Timestamp| u.wf() && u.representable() && rfc3339_text(u) == s;
    lemma_rfc3339_text_inj(u, t);
}

/// The canonical text holds no separator of the cache format.
pub proof fn lemma_rfc3339_text_plain(t: Timestamp)
    ensures
        !rfc3339_text(t).contains(';'),
        !rfc3339_text(t).contains('\n'),
{
    lemma_padded_plain(t.year as nat, 4);
    lemma_padded_plain(t.month as nat, 2);
    lemma_padded_plain(t.day as nat, 2);
    lemma_padded_plain(t.hour as nat, 2);
    lemma_padded_plain(t.minute as nat, 2);
    lemma_padded_plain(shown_second(t), 2);
    lemma_padded_plain(shown_fraction(t), 9);
    let s = rfc3339_text(t);
    assert(!s.contains(';') && !s.contains('\n'));
}

/// What chrono reads from an RFC 2822 text, taken to UTC.
pub uninterp spec fn rfc2822_instant(s: Seq<char>) -> Option<Timestamp>;

/// Relies on chrono's `DateTime::<Utc>::to_rfc3339_opts` with nanosecond
/// precision and `Z` for the zero offset: for a four-digit year it writes
/// `rfc3339_text`, a leap second as second 60.
#[verifier::external_body]
pub(crate) fn format_rfc3339(t: Timestamp) -> (r: String)
    requires
        t.wf(),
    ensures
        t.representable() ==> r@ == rfc3339_text(t),
{
    chrono::NaiveDate::from_ymd_opt(t.year, t.month, t.day)
        .unwrap()
        .and_hms_nano_opt(t.hour, t.minute, t.second, t.nanosecond)
        .unwrap()
        .and_utc()
        .to_rfc3339_opts(chrono::SecondsFormat::Nanos, true)
}

/// Relies on chrono's `DateTime::parse_from_rfc3339`, its result taken to
/// UTC: the instant spelled by a canonical text, otherwise a function of the
/// text; a valid instant when it succeeds.
#[verifier::external_body]
pub(crate) fn parse_rfc3339(s: &str) -> (r: Option<Timestamp>)
    ensures
        r == rfc3339_value(s@),
        !is_canonical_rfc3339(s@) ==> r == rfc3339_instant(s@),
        r matches Some(t) ==> t.wf(),
{
    chrono::DateTime::parse_from_rfc3339(s).ok().map(|d| {
        let d = d.to_utc();
        Timestamp {
            year: d.year(),
            month: d.month(),
            day: d.day(),
            hour: d.hour(),
            minute: d.minute(),
            second: d.second(),
            nanosecond: d.nanosecond(),
        }
    })
}

/// Relies on chrono's `DateTime::parse_from_rfc2822`, its result taken to
/// UTC: a function of the text, and a valid instant when it succeeds.
#[verifier::external_body]
pub(crate) fn parse_rfc2822(s: &str) -> (r: Option<Timestamp>)
    ensures
        r == rfc2822_instant(s@),
        r matches Some(t) ==> t.wf(),
{
    chrono::DateTime::parse_from_rfc2822(s).ok().map(|d| {
        let d = d.to_utc();
        Timestamp {
            year: d.year(),
            month: d.month(),
            day: d.day(),
            hour: d.hour(),
            minute: d.minute(),
            second: d.second(),
            nanosecond: d.nanosecond(),
        }
    })
}

} // verus!
