//! Local storage of the sampled records: the name of the day's data file
//! and the flushing discipline of the writer.

use vstd::prelude::*;

verus! {

/// The UTC calendar date of a Unix timestamp (seconds), as chrono's
/// `%Y%m%d` format writes it.
pub uninterp spec fn utc_date_digits(timestamp: i64) -> Seq<char>;

/// Whether chrono represents the UTC date of `timestamp`: its calendar runs
/// from 1 January of year -262143 (at -8334601228800 s) to 31 December of
/// year 262142 (up to 8210266876799 s).
pub open spec fn utc_date_in_range(timestamp: i64) -> bool {
    -8_334_601_228_800 <= timestamp <= 8_210_266_876_799
}

/// Formats the UTC date of `timestamp` with chrono: `DateTime::from_timestamp`
/// followed by `format("%Y%m%d")`. Trusted to give `utc_date_digits` of the
/// timestamp exactly when chrono's calendar holds the date
/// (`utc_date_in_range`), and nothing otherwise.
#[verifier::external_body]
fn format_utc_date(timestamp: i64) -> (date: Option<String>)
    ensures
        date matches Some(d) ==> d@ == utc_date_digits(timestamp),
        date is Some <==> utc_date_in_range(timestamp),
{
    match chrono::DateTime::from_timestamp(timestamp, 0) {
        Some(dt) => Some(dt.format("%Y%m%d").to_string()),
        None => None,
    }
}

/// The path of the data file for a day whose date is written `date`.
pub fn data_file_name_for_date(date: &str) -> (name: String)
    ensures
        name@ == "data/Data_"@ + date@ + ".bin"@,
{
    let mut name = String::from_str("data/Data_");
    name.append(date);
    name.append(".bin");
    name
}

/// The path of the data file that records taken at `timestamp` go to:
/// `data/Data_YYYYMMDD.bin` with the UTC date of the timestamp.
pub fn data_file_name(timestamp: i64) -> (name: Option<String>)
    ensures
        name matches Some(n) ==> n@ == "data/Data_"@ + utc_date_digits(timestamp) + ".bin"@,
        name is Some <==> utc_date_in_range(timestamp),
{
    match format_utc_date(timestamp) {
        Some(date) => Some(data_file_name_for_date(date.as_str())),
        None => None,
    }
}

/// What the writer does after appending record `written + 1` when it
/// flushes every `every` records: flush (and start counting again) when
/// the count reaches `every`.
pub open spec fn flush_step(every: u64, written: nat) -> (bool, nat) {
    if written + 1 == every {
        (true, 0)
    } else {
        (false, written + 1)
    }
}

/// Counts records appended to the data file since its last flush.
pub struct FlushCounter {
    every: u64,
    written: u64,
}

impl FlushCounter {
    /// Records between flushes.
    pub closed spec fn every(self) -> u64 {
        self.every
    }

    /// Records appended since the last flush.
    pub closed spec fn written(self) -> nat {
        self.written as nat
    }

    /// A counter for a freshly opened file, flushing every `every` records.
    pub fn new(every: u64) -> (c: FlushCounter)
        ensures
            c.every() == every,
            c.written() == 0,
    {
        FlushCounter { every, written: 0 }
    }

    /// Records appended since the last flush.
    pub fn pending(&self) -> (n: u64)
        ensures
            n as nat == self.written(),
    {
        self.written
    }

    /// Accounts for one appended record; true when the file is to be
    /// flushed now.
    pub fn record_written(&mut self) -> (flush: bool)
        requires
            old(self).written() < u64::MAX,
        ensures
            (flush, final(self).written()) == flush_step(old(self).every(), old(self).written()),
            final(self).every() == old(self).every(),
    {
        self.written = self.written + 1;
        if self.written == self.every {
            self.written = 0;
            true
        } else {
            false
        }
    }
}

/// Records pending after `k` appends to a fresh file.
pub open spec fn pending_after(every: u64, k: nat) -> nat
    decreases k,
{
    if k == 0 {
        0
    } else {
        flush_step(every, pending_after(every, (k - 1) as nat)).1
    }
}

/// Whether the `k`-th append (counting from 1) to a fresh file flushes it.
pub open spec fn flushes_at(every: u64, k: nat) -> bool
    recommends
        k >= 1,
{
    flush_step(every, pending_after(every, (k - 1) as nat)).0
}

/// With a positive interval `n`, the file is flushed after exactly the
/// appends whose number is a multiple of `n`, and between flushes fewer
/// than `n` records are pending.
pub proof fn lemma_flush_every_n(every: u64, k: nat)
    requires
        every >= 1,
    ensures
        pending_after(every, k) == k % (every as nat),
        pending_after(every, k) < every,
        k >= 1 ==> (flushes_at(every, k) <==> k % (every as nat) == 0),
    decreases k,
{
    if k > 0 {
        let km1 = (k - 1) as nat;
        let e = every as nat;
        lemma_flush_every_n(every, km1);
        let p = pending_after(every, km1);
        assert(k % e == (if p + 1 == e { 0 } else { p + 1 })) by (nonlinear_arith)
            requires
                p == km1 % e,
                k == km1 + 1,
                e >= 1,
                p < e,
        ;
    }
}

} // verus!
