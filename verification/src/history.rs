//! Bounded history of calculations, newest first, with at most
//! `HISTORY_LIMIT` records.

use vstd::prelude::*;

verus! {

/// The most records that a history keeps.
pub const HISTORY_LIMIT: usize = 100;

/// A time of day written `HH:MM:SS`: two-digit hour (00–23), minute
/// (00–59) and second (00–60, a leap second being 60).
pub open spec fn is_clock_text(s: Seq<char>) -> bool {
    &&& s.len() == 8
    &&& s[2] == ':'
    &&& s[5] == ':'
    &&& forall|i: int|
        0 <= i < 8 && i != 2 && i != 5 ==> '0' <= #[trigger] s[i] <= '9'
    &&& two_digits(s[0], s[1]) <= 23
    &&& two_digits(s[3], s[4]) <= 59
    &&& two_digits(s[6], s[7]) <= 60
}

/// The number written by two decimal digit characters.
pub open spec fn two_digits(hi: char, lo: char) -> int {
    (hi as int - '0' as int) * 10 + (lo as int - '0' as int)
}

/// The two decimal digits of `n` (0–99).
pub open spec fn two_digit_chars(n: int) -> Seq<char> {
    seq![('0' as int + n / 10) as char, ('0' as int + n % 10) as char]
}

/// The UTC time of day, `HH:MM:SS`, at `secs` seconds after the Unix epoch.
pub open spec fn utc_clock_text(secs: int) -> Seq<char> {
    let d = secs % 86400;
    two_digit_chars(d / 3600) + seq![':'] + two_digit_chars((d / 60) % 60) + seq![':']
        + two_digit_chars(d % 60)
}

/// Seconds before the year 10000: the clock readings that the stamp is made
/// from.
pub const CLOCK_LIMIT: u64 = 253_402_300_800;

/// The time elapsed since the Unix epoch as whole seconds and the
/// nanoseconds beyond them, or `None` when the system clock reads a time
/// before the epoch.
///
/// Trusted: calls `std::time::UNIX_EPOCH.elapsed()` (`SystemTime::elapsed`),
/// which std documents as returning an error when the clock reads earlier
/// than the epoch, and splits the `Duration` with `as_secs` and
/// `subsec_nanos`, which std documents as less than one billion. Which time
/// the clock reads is not stated.
#[verifier::external_body]
fn unix_time_now() -> (r: Option<(u64, u32)>)
    ensures
        r matches Some((_, n)) ==> n < 1_000_000_000,
{
    match std::time::UNIX_EPOCH.elapsed() {
        Ok(d) => Some((d.as_secs(), d.subsec_nanos())),
        Err(_) => None,
    }
}

/// The UTC time of day at `secs` seconds (and `nanos` nanoseconds) after
/// the Unix epoch, written `HH:MM:SS`.
///
/// Trusted: calls chrono's `DateTime::from_timestamp(secs, nanos)`, which
/// gives `None` only outside chrono's date range (its day count must fit an
/// `i32` and a valid date), and formats the result with `"%H:%M:%S"`, which
/// writes the hour, minute and second of the day zero-padded to two digits
/// (`format/formatting.rs`, the `Hour`, `Minute` and `Second` items; the
/// second gains one only for a leap nanosecond count, which `requires`
/// leaves out). The contract states that every reading before the year
/// 10000 converts and what the text is.
#[verifier::external_body]
fn utc_clock_text_of(secs: i64, nanos: u32) -> (r: Option<String>)
    requires
        nanos < 1_000_000_000,
    ensures
        0 <= secs < CLOCK_LIMIT ==> r is Some,
        r matches Some(t) ==> t@ == utc_clock_text(secs as int),
{
    match chrono::DateTime::from_timestamp(secs, nanos) {
        Some(t) => Some(t.format("%H:%M:%S").to_string()),
        None => None,
    }
}

/// A UTC time of day is a clock text.
proof fn lemma_utc_clock_text(secs: int)
    ensures
        is_clock_text(utc_clock_text(secs)),
{
    let d = secs % 86400;
    let h = d / 3600;
    let m = (d / 60) % 60;
    let sc = d % 60;
    assert(0 <= d < 86400);
    assert(0 <= h <= 23);
    assert(0 <= m <= 59);
    assert(0 <= sc <= 59);
    lemma_two_digit_chars(h);
    lemma_two_digit_chars(m);
    lemma_two_digit_chars(sc);
    let s = utc_clock_text(secs);
    assert(s[0] == two_digit_chars(h)[0] && s[1] == two_digit_chars(h)[1]);
    assert(s[3] == two_digit_chars(m)[0] && s[4] == two_digit_chars(m)[1]);
    assert(s[6] == two_digit_chars(sc)[0] && s[7] == two_digit_chars(sc)[1]);
}

/// The two digits of a number below 100 are decimal digits that read back
/// as the number.
proof fn lemma_two_digit_chars(n: int)
    requires
        0 <= n < 100,
    ensures
        '0' <= two_digit_chars(n)[0] <= '9',
        '0' <= two_digit_chars(n)[1] <= '9',
        two_digits(two_digit_chars(n)[0], two_digit_chars(n)[1]) == n,
{
    assert(0 <= n / 10 <= 9);
    assert(0 <= n % 10 <= 9);
    assert((n / 10) * 10 + n % 10 == n);
}

/// The stamp of a record made now: the UTC time of day, or empty when the
/// system clock reads a time before the Unix epoch or after the year 9999.
fn clock_stamp() -> (s: String)
    ensures
        s@.len() == 0 || is_clock_text(s@),
{
    match unix_time_now() {
        Some((secs, nanos)) => {
            if secs < CLOCK_LIMIT {
                match utc_clock_text_of(secs as i64, nanos) {
                    Some(t) => {
                        proof {
                            lemma_utc_clock_text(secs as int);
                        }
                        t
                    },
                    None => String::new(),
                }
            } else {
                String::new()
            }
        },
        None => String::new(),
    }
}

/// One calculation: the expression, its result and when it was recorded.
#[derive(Debug, Clone)]
pub struct HistoryRecord {
    pub expr: String,
    pub result: String,
    pub ts: String,
}

impl HistoryRecord {
    /// A record of `expr` and `result` stamped with the UTC time of day, or
    /// with an empty stamp when the system clock cannot be read (before the
    /// Unix epoch, or after the year 9999).
    pub fn new(expr: String, result: String) -> (r: Self)
        ensures
            r.expr@ == expr@,
            r.result@ == result@,
            r.ts@.len() == 0 || is_clock_text(r.ts@),
    {
        HistoryRecord { expr, result, ts: clock_stamp() }
    }
}

/// The calculation history, newest record first.
pub struct History {
    records: Vec<HistoryRecord>,
    max: usize,
}

/// The history after recording `r` in front of `h`, keeping at most
/// `HISTORY_LIMIT` records (the oldest drop out).
pub open spec fn pushed(h: Seq<HistoryRecord>, r: HistoryRecord) -> Seq<HistoryRecord> {
    let all = seq![r] + h;
    if all.len() <= HISTORY_LIMIT {
        all
    } else {
        all.take(HISTORY_LIMIT as int)
    }
}

impl View for History {
    type V = Seq<HistoryRecord>;

    closed spec fn view(&self) -> Seq<HistoryRecord> {
        self.records@
    }
}

impl History {
    #[verifier::type_invariant]
    spec fn bounded(&self) -> bool {
        &&& self.max == HISTORY_LIMIT
        &&& self.records@.len() <= self.max
    }

    /// An empty history.
    pub fn new() -> (h: Self)
        ensures
            h@ == Seq::<HistoryRecord>::empty(),
    {
        History { records: Vec::new(), max: HISTORY_LIMIT }
    }

    /// Records `expr` and `result` as the newest entry, stamped as
    /// `HistoryRecord::new` stamps it (an empty stamp when the clock cannot be
    /// read); the oldest entry drops out beyond `HISTORY_LIMIT`.
    pub fn push(&mut self, expr: String, result: String)
        ensures
            final(self)@.len() > 0,
            final(self)@[0].expr@ == expr@,
            final(self)@[0].result@ == result@,
            final(self)@[0].ts@.len() == 0 || is_clock_text(final(self)@[0].ts@),
            final(self)@ == pushed(old(self)@, final(self)@[0]),
    {
        let rec = HistoryRecord::new(expr, result);
        self.push_record(rec);
    }

    /// Records `rec` as the newest entry; the oldest entry drops out beyond
    /// `HISTORY_LIMIT`.
    pub fn push_record(&mut self, rec: HistoryRecord)
        ensures
            final(self)@ == pushed(old(self)@, rec),
    {
        proof {
            use_type_invariant(&*self);
        }
        let ghost r = rec;
        let mut records = Vec::new();
        std::mem::swap(&mut records, &mut self.records);
        records.insert(0, rec);
        records.truncate(self.max);
        self.records = records;
        assert(self.records@ =~= pushed(old(self)@, r));
    }

    /// All records, newest first.
    pub fn all(&self) -> (r: &[HistoryRecord])
        ensures
            r@ == self@,
    {
        self.records.as_slice()
    }

    /// Drops every record.
    pub fn clear(&mut self)
        ensures
            final(self)@ == Seq::<HistoryRecord>::empty(),
    {
        proof {
            use_type_invariant(&*self);
        }
        let mut records = Vec::new();
        std::mem::swap(&mut records, &mut self.records);
        records.clear();
        self.records = records;
    }

    /// The number of records.
    pub fn len(&self) -> (n: usize)
        ensures
            n == self@.len(),
            n <= HISTORY_LIMIT,
    {
        proof {
            use_type_invariant(self);
        }
        self.records.len()
    }

    /// Whether there is no record.
    pub fn is_empty(&self) -> (b: bool)
        ensures
            b == (self@.len() == 0),
    {
        self.records.is_empty()
    }

    /// The record at position `idx` (0 is the newest), if there is one.
    pub fn get(&self, idx: usize) -> (r: Option<&HistoryRecord>)
        ensures
            idx < self@.len() ==> r == Some(&self@[idx as int]),
            idx >= self@.len() ==> r is None,
    {
        if idx < self.records.len() {
            Some(&self.records[idx])
        } else {
            None
        }
    }
}

impl Default for History {
    fn default() -> (h: Self)
        ensures
            h@ == Seq::<HistoryRecord>::empty(),
    {
        History::new()
    }
}

} // verus!
