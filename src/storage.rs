//! Snapshot files: one flat text file per snapshot, named
//! `DDMMYYYY_N.DAT` after the day it was taken and its number within that day,
//! with one line `<id> <balance>` per account.

use crate::amount::{decimal_digits, decimal_text, digit, Amount};
use chrono::{Datelike, NaiveDate, Utc};
use vstd::prelude::*;

verus! {

/// The earliest and latest years that `chrono`'s dates hold.
pub const MIN_YEAR: i32 = -262143;
pub const MAX_YEAR: i32 = 262142;

/// A calendar day.
#[derive(Clone, Copy, Debug)]
pub struct SnapshotDate {
    pub year: i32,
    pub month: u32,
    pub day: u32,
}

pub open spec fn is_leap_year(year: int) -> bool {
    (year % 4 == 0 && year % 100 != 0) || year % 400 == 0
}

pub open spec fn days_in_month(year: int, month: int) -> int {
    if month == 2 {
        if is_leap_year(year) { 29 } else { 28 }
    } else if month == 4 || month == 6 || month == 9 || month == 11 {
        30
    } else {
        31
    }
}

impl SnapshotDate {
    /// A day that exists in the calendar, within `chrono`'s range of years.
    pub open spec fn wf(self) -> bool {
        &&& MIN_YEAR <= self.year <= MAX_YEAR
        &&& 1 <= self.month <= 12
        &&& 1 <= self.day <= days_in_month(self.year as int, self.month as int)
    }
}

/// `n` in 0..100 as two digits.
pub open spec fn two_digits(n: int) -> Seq<char> {
    seq![digit(n / 10), digit(n % 10)]
}

/// `n` in 0..10000 as four digits.
pub open spec fn four_digits(n: int) -> Seq<char> {
    seq![digit(n / 1000), digit((n / 100) % 10), digit((n / 10) % 10), digit(n % 10)]
}

/// The date stamp `DDMMYYYY` of a day whose year has at most four digits.
pub open spec fn date_stamp_of(date: SnapshotDate) -> Seq<char> {
    two_digits(date.day as int) + two_digits(date.month as int) + four_digits(date.year as int)
}

/// The extension of snapshot files.
pub open spec fn snapshot_extension() -> Seq<char> {
    seq!['.', 'D', 'A', 'T']
}

pub open spec fn begins_with(s: Seq<char>, prefix: Seq<char>) -> bool {
    prefix.len() <= s.len() && s.subrange(0, prefix.len() as int) == prefix
}

pub open spec fn finishes_with(s: Seq<char>, suffix: Seq<char>) -> bool {
    suffix.len() <= s.len() && s.subrange(s.len() - suffix.len(), s.len() as int) == suffix
}

/// A file name counts as a snapshot of the day with this stamp.
pub open spec fn is_snapshot_of(name: Seq<char>, stamp: Seq<char>) -> bool {
    begins_with(name, stamp) && finishes_with(name, snapshot_extension())
}

/// How many of the names are snapshots of the day with this stamp.
pub open spec fn count_snapshots(names: Seq<Seq<char>>, stamp: Seq<char>) -> nat
    decreases names.len(),
{
    if names.len() == 0 {
        0
    } else {
        count_snapshots(names.drop_last(), stamp) + if is_snapshot_of(names.last(), stamp) { 1nat } else { 0nat }
    }
}

/// The name of the snapshot file numbered `number` on the day with this stamp.
pub open spec fn snapshot_file_name(stamp: Seq<char>, number: nat) -> Seq<char> {
    stamp + seq!['_'] + decimal_digits(number) + snapshot_extension()
}

/// The views of a list of strings.
pub open spec fn names_view(names: Seq<String>) -> Seq<Seq<char>> {
    names.map_values(|s: String| s@)
}

/// The file's text for a list of (id, balance) records: one line each.
pub open spec fn snapshot_text(records: Seq<(String, Amount)>) -> Seq<char>
    decreases records.len(),
{
    if records.len() == 0 {
        Seq::<char>::empty()
    } else {
        let last = records.last();
        snapshot_text(records.drop_last()) + last.0@ + seq![' '] + decimal_text(last.1.mantissa, last.1.scale) + seq!['\n']
    }
}

/// Once the snapshot file that follows the day's current count is written, the
/// directory's listing counts one more snapshot for that day.
pub proof fn lemma_write_advances_sequence(names: Seq<Seq<char>>, stamp: Seq<char>)
    ensures
        count_snapshots(
            names.push(snapshot_file_name(stamp, count_snapshots(names, stamp) + 1)),
            stamp,
        ) == count_snapshots(names, stamp) + 1,
{
    let name = snapshot_file_name(stamp, count_snapshots(names, stamp) + 1);
    let listing = names.push(name);
    assert(listing.drop_last() =~= names);
    assert(name.subrange(0, stamp.len() as int) =~= stamp);
    assert(name.subrange(name.len() - 4, name.len() as int) =~= snapshot_extension());
    assert(is_snapshot_of(name, stamp));
}

/// Relies on `Utc::now` (the clock) and on `chrono`'s dates, which hold only
/// days that exist, in years from `MIN_YEAR` to `MAX_YEAR`.
#[verifier::external_body]
fn utc_today() -> (r: SnapshotDate)
    ensures
        r.wf(),
{
    let today = Utc::now().date_naive();
    SnapshotDate { year: today.year(), month: today.month(), day: today.day() }
}

/// Relies on `NaiveDate::from_ymd_opt` (a date for each existing day in range)
/// and on `chrono`'s `%d%m%Y`: day and month as two digits, a year in
/// 0..=9999 as four.
#[verifier::external_body]
fn format_date_stamp(date: &SnapshotDate) -> (r: String)
    requires
        date.wf(),
    ensures
        0 <= date.year <= 9999 ==> r@ == date_stamp_of(*date),
{
    NaiveDate::from_ymd_opt(date.year, date.month, date.day).unwrap().format("%d%m%Y").to_string()
}

/// Relies on `usize`'s `Display`: decimal digits without leading zeros.
#[verifier::external_body]
fn number_text(n: usize) -> (r: String)
    ensures
        r@ == decimal_digits(n as nat),
{
    n.to_string()
}

/// Today's date, by the UTC clock.
pub fn today() -> (r: SnapshotDate)
    ensures
        r.wf(),
{
    utc_today()
}

/// The stamp `DDMMYYYY` that names a day's snapshot files.
pub fn date_stamp(date: &SnapshotDate) -> (r: String)
    requires
        date.wf(),
    ensures
        0 <= date.year <= 9999 ==> r@ == date_stamp_of(*date),
{
    format_date_stamp(date)
}

/// Whether `s` begins with `prefix`.
fn begins_with_str(s: &str, prefix: &str) -> (r: bool)
    ensures
        r == begins_with(s@, prefix@),
{
    let n = s.unicode_len();
    let k = prefix.unicode_len();
    if k > n {
        return false;
    }
    let mut i: usize = 0;
    while i < k
        invariant
            k <= n,
            n == s@.len(),
            k == prefix@.len(),
            i <= k,
            forall|j: int| 0 <= j < i ==> s@[j] == prefix@[j],
        decreases k - i,
    {
        if s.get_char(i) != prefix.get_char(i) {
            assert(s@.subrange(0, k as int)[i as int] != prefix@[i as int]);
            return false;
        }
        i = i + 1;
    }
    assert(s@.subrange(0, k as int) =~= prefix@);
    true
}

/// Whether `s` ends with `suffix`.
fn finishes_with_str(s: &str, suffix: &str) -> (r: bool)
    ensures
        r == finishes_with(s@, suffix@),
{
    let n = s.unicode_len();
    let k = suffix.unicode_len();
    if k > n {
        return false;
    }
    let start = n - k;
    let mut i: usize = 0;
    while i < k
        invariant
            k <= n,
            start == n - k,
            n == s@.len(),
            k == suffix@.len(),
            i <= k,
            forall|j: int| 0 <= j < i ==> s@[start + j] == suffix@[j],
        decreases k - i,
    {
        if s.get_char(start + i) != suffix.get_char(i) {
            assert(s@.subrange(start as int, n as int)[i as int] != suffix@[i as int]);
            return false;
        }
        i = i + 1;
    }
    assert(s@.subrange(start as int, n as int) =~= suffix@);
    true
}

/// Whether the file name counts as a snapshot of the day with this stamp:
/// it begins with the stamp and ends with `.DAT`.
pub fn is_snapshot_file(name: &String, stamp: &String) -> (r: bool)
    ensures
        r == is_snapshot_of(name@, stamp@),
{
    let extension = ".DAT";
    proof {
        reveal_strlit(".DAT");
        assert(extension@ =~= snapshot_extension());
    }
    begins_with_str(name.as_str(), stamp.as_str()) && finishes_with_str(name.as_str(), extension)
}

/// The number of snapshot files already written on the day with this stamp,
/// among the names of a directory's files. The next snapshot of that day is
/// numbered one higher.
pub fn next_sequence_for_today(names: &Vec<String>, stamp: &String) -> (r: usize)
    ensures
        r == count_snapshots(names_view(names@), stamp@),
{
    let mut count: usize = 0;
    let mut i: usize = 0;
    while i < names.len()
        invariant
            i <= names@.len(),
            count <= i,
            count == count_snapshots(names_view(names@.subrange(0, i as int)), stamp@),
        decreases names@.len() - i,
    {
        proof {
            let front = names@.subrange(0, i as int + 1);
            assert(names_view(front).drop_last() =~= names_view(names@.subrange(0, i as int)));
            assert(names_view(front).last() == names@[i as int]@);
        }
        if is_snapshot_file(&names[i], stamp) {
            count = count + 1;
        }
        i = i + 1;
    }
    assert(names@.subrange(0, names@.len() as int) =~= names@);
    count
}

/// Renders records as a snapshot file's text: `<id> <balance>` and a newline
/// for each, the balance in full decimal precision.
pub fn render_snapshot(records: &Vec<(String, Amount)>) -> (r: String)
    requires
        forall|i: int| 0 <= i < records@.len() ==> (#[trigger] records@[i]).1.wf(),
    ensures
        r@ == snapshot_text(records@),
{
    let space = " ";
    let newline = "\n";
    proof {
        reveal_strlit(" ");
        reveal_strlit("\n");
    }
    let mut out = String::new();
    let mut i: usize = 0;
    while i < records.len()
        invariant
            i <= records@.len(),
            space@ == seq![' '],
            newline@ == seq!['\n'],
            forall|j: int| 0 <= j < records@.len() ==> (#[trigger] records@[j]).1.wf(),
            out@ == snapshot_text(records@.subrange(0, i as int)),
        decreases records@.len() - i,
    {
        let balance = records[i].1.to_text();
        out.append(records[i].0.as_str());
        out.append(space);
        out.append(balance.as_str());
        out.append(newline);
        proof {
            let front = records@.subrange(0, i as int + 1);
            assert(front.drop_last() =~= records@.subrange(0, i as int));
        }
        i = i + 1;
    }
    assert(records@.subrange(0, records@.len() as int) =~= records@);
    out
}

/// Where snapshot files are written: a directory path, ending in a separator.
pub struct FileStorage {
    directory: String,
}

impl View for FileStorage {
    type V = Seq<char>;

    closed spec fn view(&self) -> Seq<char> {
        self.directory@
    }
}

impl FileStorage {
    /// Storage in the directory `directory`.
    pub fn new(directory: &str) -> (r: Self)
        ensures
            r@ == directory@,
    {
        FileStorage { directory: directory.to_owned() }
    }

    /// The directory's path.
    pub fn directory(&self) -> (r: &String)
        ensures
            r@ == self@,
    {
        &self.directory
    }

    /// The path of the file for the snapshot that follows `sequence` earlier
    /// ones on the day with this stamp.
    pub fn file_path(&self, stamp: &String, sequence: usize) -> (r: String)
        requires
            sequence < usize::MAX,
        ensures
            r@ == self@ + snapshot_file_name(stamp@, sequence as nat + 1),
    {
        let number = number_text(sequence + 1);
        let underscore = "_";
        let extension = ".DAT";
        proof {
            reveal_strlit("_");
            reveal_strlit(".DAT");
        }
        let mut path = self.directory.clone();
        path.append(stamp.as_str());
        path.append(underscore);
        path.append(number.as_str());
        path.append(extension);
        assert(path@ =~= self@ + snapshot_file_name(stamp@, sequence as nat + 1));
        path
    }
}

} // verus!
