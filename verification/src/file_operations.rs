//! Entries as values, and the filename-level logic around them: recovering
//! the sequence number embedded in a filename, the total orderings used for
//! display, and the stable sorts over them.

use vstd::prelude::*;
use vstd::string::StrSliceExecFns;
use vstd::string::StringExecFns;
use core::cmp::Ordering;
use crate::dates::{DateStamp, rfc2822_epoch, parse_stamp, now_stamp};
use crate::database::PathConfig;
use crate::numerals::{is_digit, digit_val, digits_val, dec_str, u32_to_string};
use crate::sorting::{
    total_le, trans_le, ordered_by, stable_insert, stable_sort, lemma_stable_sort_props,
    lemma_stable_insert_position,
};

verus! {

/// The longest prefix of `s` made of decimal digits.
pub open spec fn leading_digits(s: Seq<char>) -> Seq<char>
    decreases s.len(),
{
    if s.len() == 0 || !is_digit(s[0]) {
        Seq::empty()
    } else {
        seq![s[0]] + leading_digits(s.drop_first())
    }
}

/// The first maximal run of decimal digits in `s`, if any.
pub open spec fn first_digit_run(s: Seq<char>) -> Option<Seq<char>>
    decreases s.len(),
{
    if s.len() == 0 {
        None
    } else if is_digit(s[0]) {
        Some(leading_digits(s))
    } else {
        first_digit_run(s.drop_first())
    }
}

/// The number embedded in a filename: the first maximal digit run, read as
/// an unsigned integer; absent when there is no digit, or when the run
/// denotes a value beyond `u32::MAX`.
pub open spec fn spec_extract_number(s: Seq<char>) -> Option<u32> {
    match first_digit_run(s) {
        Some(run) => if digits_val(run) <= u32::MAX as nat {
            Some(digits_val(run) as u32)
        } else {
            None
        },
        None => None,
    }
}

/// Skipping a digit-free prefix does not change the first digit run.
proof fn lemma_first_run_skip(s: Seq<char>, i: int)
    requires
        0 <= i <= s.len(),
        forall|k: int| 0 <= k < i ==> !is_digit(s[k]),
    ensures
        first_digit_run(s) == first_digit_run(s.subrange(i, s.len() as int)),
    decreases i,
{
    if i == 0 {
        assert(s.subrange(0, s.len() as int) =~= s);
    } else {
        let t = s.subrange(1, s.len() as int);
        assert(s.drop_first() =~= t);
        lemma_first_run_skip(t, i - 1);
        assert(t.subrange(i - 1, t.len() as int) =~= s.subrange(i, s.len() as int));
    }
}

/// The digit prefix of `s` reaches exactly to the first non-digit.
proof fn lemma_leading_digits_extent(s: Seq<char>, e: int)
    requires
        0 <= e <= s.len(),
        forall|k: int| 0 <= k < e ==> is_digit(s[k]),
        e == s.len() || !is_digit(s[e]),
    ensures
        leading_digits(s) == s.subrange(0, e),
    decreases e,
{
    if e == 0 {
        assert(leading_digits(s) =~= s.subrange(0, 0));
    } else {
        let t = s.subrange(1, s.len() as int);
        assert(s.drop_first() =~= t);
        lemma_leading_digits_extent(t, e - 1);
        assert(seq![s[0]] + t.subrange(0, e - 1) =~= s.subrange(0, e));
    }
}

/// Whether `c` is a decimal digit.
fn is_digit_char(c: char) -> (r: bool)
    ensures
        r == is_digit(c),
{
    let u = c as u32;
    48 <= u && u <= 57
}

/// The position of the first digit in `x`, or the length when none occurs.
fn first_digit_index(x: &str) -> (r: usize)
    ensures
        r <= x@.len(),
        forall|k: int| 0 <= k < r ==> !is_digit(x@[k]),
        r < x@.len() ==> is_digit(x@[r as int]),
{
    let len = x.unicode_len();
    let mut i: usize = 0;
    while i < len
        invariant
            i <= len,
            len == x@.len(),
            forall|k: int| 0 <= k < i ==> !is_digit(x@[k]),
        decreases len - i,
    {
        if is_digit_char(x.get_char(i)) {
            return i;
        }
        i += 1;
    }
    len
}

/// The end of the digit run that begins at `start`.
fn digit_run_end(x: &str, start: usize) -> (r: usize)
    requires
        start <= x@.len(),
    ensures
        start <= r <= x@.len(),
        forall|k: int| start <= k < r ==> is_digit(x@[k]),
        r < x@.len() ==> !is_digit(x@[r as int]),
{
    let len = x.unicode_len();
    let mut j: usize = start;
    while j < len
        invariant
            start <= j <= len,
            len == x@.len(),
            forall|k: int| start <= k < j ==> is_digit(x@[k]),
        decreases len - j,
    {
        if !is_digit_char(x.get_char(j)) {
            return j;
        }
        j += 1;
    }
    len
}

/// Reads the digit run `x[start..end]` as a `u32`, or reports that its value
/// is too large for one.
fn digits_to_u32(x: &str, start: usize, end: usize) -> (r: Option<u32>)
    requires
        start <= end <= x@.len(),
        forall|k: int| start <= k < end ==> is_digit(x@[k]),
    ensures
        match r {
            Some(v) => v == digits_val(x@.subrange(start as int, end as int)),
            None => digits_val(x@.subrange(start as int, end as int)) > u32::MAX as nat,
        },
{
    let ghost run = x@.subrange(start as int, end as int);
    let mut val: u32 = 0;
    let mut j: usize = start;
    while j < end
        invariant
            start <= j <= end <= x@.len(),
            forall|k: int| start <= k < end ==> is_digit(x@[k]),
            val == digits_val(x@.subrange(start as int, j as int)),
            run == x@.subrange(start as int, end as int),
        decreases end - j,
    {
        let c = x.get_char(j);
        let u = c as u32;
        assert(is_digit(x@[j as int]));
        let d = u - 48;
        proof {
            let step = x@.subrange(start as int, j + 1);
            assert(step.drop_last() =~= x@.subrange(start as int, j as int));
            assert(step.last() == x@[j as int]);
            assert(digits_val(step) == val * 10 + d);
        }
        if val > 429496729 || (val == 429496729 && d > 5) {
            proof {
                assert(val * 10 + d > u32::MAX as nat);
                let inner = run.subrange(0, j + 1 - start);
                assert(inner =~= x@.subrange(start as int, j + 1));
                crate::numerals::lemma_digits_val_prefix(run, j + 1 - start);
            }
            return None;
        }
        val = val * 10 + d;
        j += 1;
    }
    assert(x@.subrange(start as int, j as int) == run);
    Some(val)
}

/// The number embedded in `x`: its first maximal run of decimal digits,
/// parsed as a `u32`; `None` when `x` holds no digit or the run is too
/// large for a `u32`.
pub fn extract_number(x: &str) -> (r: Option<u32>)
    ensures
        r == spec_extract_number(x@),
{
    let len = x.unicode_len();
    let i = first_digit_index(x);
    if i == len {
        proof {
            lemma_first_run_skip(x@, len as int);
            assert(x@.subrange(len as int, len as int) =~= Seq::<char>::empty());
        }
        return None;
    }
    let e = digit_run_end(x, i);
    proof {
        lemma_first_run_skip(x@, i as int);
        let t = x@.subrange(i as int, len as int);
        lemma_leading_digits_extent(t, e - i);
        assert(t.subrange(0, e - i) =~= x@.subrange(i as int, e as int));
        assert(first_digit_run(x@) == Some(x@.subrange(i as int, e as int)));
    }
    digits_to_u32(x, i, e)
}

/// Lexicographic ordering over character sequences, by code point; the
/// ordering that `str::cmp` computes.
pub open spec fn lex_cmp(a: Seq<char>, b: Seq<char>) -> Ordering
    decreases a.len(),
{
    if a.len() == 0 && b.len() == 0 {
        Ordering::Equal
    } else if a.len() == 0 {
        Ordering::Less
    } else if b.len() == 0 {
        Ordering::Greater
    } else if (a[0] as u32) < (b[0] as u32) {
        Ordering::Less
    } else if (a[0] as u32) > (b[0] as u32) {
        Ordering::Greater
    } else {
        lex_cmp(a.drop_first(), b.drop_first())
    }
}

/// Skipping an equal prefix does not change the lexicographic comparison.
proof fn lemma_lex_skip(a: Seq<char>, b: Seq<char>, i: int)
    requires
        0 <= i <= a.len(),
        i <= b.len(),
        forall|k: int| 0 <= k < i ==> a[k] as u32 == b[k] as u32,
    ensures
        lex_cmp(a, b) == lex_cmp(
            a.subrange(i, a.len() as int),
            b.subrange(i, b.len() as int),
        ),
    decreases i,
{
    if i == 0 {
        assert(a.subrange(0, a.len() as int) =~= a);
        assert(b.subrange(0, b.len() as int) =~= b);
    } else {
        let ta = a.subrange(1, a.len() as int);
        let tb = b.subrange(1, b.len() as int);
        assert(a.drop_first() =~= ta);
        assert(b.drop_first() =~= tb);
        lemma_lex_skip(ta, tb, i - 1);
        assert(ta.subrange(i - 1, ta.len() as int) =~= a.subrange(i, a.len() as int));
        assert(tb.subrange(i - 1, tb.len() as int) =~= b.subrange(i, b.len() as int));
    }
}

/// Compares two strings lexicographically by code point.
fn lex_compare(a: &str, b: &str) -> (r: Ordering)
    ensures
        r == lex_cmp(a@, b@),
{
    let alen = a.unicode_len();
    let blen = b.unicode_len();
    let mut i: usize = 0;
    while i < alen && i < blen
        invariant
            i <= alen,
            i <= blen,
            alen == a@.len(),
            blen == b@.len(),
            forall|k: int| 0 <= k < i ==> a@[k] as u32 == b@[k] as u32,
        decreases alen - i,
    {
        let ua = a.get_char(i) as u32;
        let ub = b.get_char(i) as u32;
        if ua < ub {
            proof {
                lemma_lex_skip(a@, b@, i as int);
            }
            return Ordering::Less;
        }
        if ua > ub {
            proof {
                lemma_lex_skip(a@, b@, i as int);
            }
            return Ordering::Greater;
        }
        i += 1;
    }
    proof {
        lemma_lex_skip(a@, b@, i as int);
    }
    if alen == blen {
        Ordering::Equal
    } else if alen < blen {
        Ordering::Less
    } else {
        Ordering::Greater
    }
}

/// The filename ordering of the store's listings: filenames with an embedded
/// number come after those without; two numbered filenames order by the
/// number; two number-free filenames order lexicographically.
pub open spec fn spec_compare_filenames(a: Seq<char>, b: Seq<char>) -> Ordering {
    match (spec_extract_number(a), spec_extract_number(b)) {
        (Some(na), Some(nb)) => if na < nb {
            Ordering::Less
        } else if na > nb {
            Ordering::Greater
        } else {
            Ordering::Equal
        },
        (Some(na), None) => Ordering::Greater,
        (None, Some(nb)) => Ordering::Less,
        (None, None) => lex_cmp(a, b),
    }
}

/// Orders two filenames as the store's listings do.
pub fn compare_filenames(a: &str, b: &str) -> (r: Ordering)
    ensures
        r == spec_compare_filenames(a@, b@),
{
    match (extract_number(a), extract_number(b)) {
        (Some(na), Some(nb)) => if na < nb {
            Ordering::Less
        } else if na > nb {
            Ordering::Greater
        } else {
            Ordering::Equal
        },
        (Some(_), None) => Ordering::Greater,
        (None, Some(_)) => Ordering::Less,
        (None, None) => lex_compare(a, b),
    }
}

/// Whether something exists at the path right now. Relies on
/// `std::path::Path::exists`; no contract, since the answer depends on the
/// filesystem at the moment of the call.
#[verifier::external_body]
pub fn file_exists(filename: &str) -> bool {
    std::path::Path::new(filename).exists()
}

/// One journal item: a file in the entries directory mirrored by an index
/// row keyed by `name`.
#[derive(Clone, Debug)]
pub struct Entry {
    /// The display and file identifier; the index primary key.
    pub name: String,
    /// `entries_dir/name`; derived, never stored.
    pub path: String,
    /// The optional sequence number; present on auto-created entries.
    pub number: Option<u32>,
    /// When the entry was created; immutable after creation.
    pub entry_date: Option<DateStamp>,
    /// When the entry was last opened.
    pub access_date: Option<DateStamp>,
}

/// How a date field relates to the text stored for it: a line that parses
/// as a date is kept with its instant; any other text leaves the field
/// absent.
pub open spec fn stamp_matches(d: Option<DateStamp>, text: Seq<char>) -> bool {
    match rfc2822_epoch(text) {
        Some(t) => match d {
            Some(ds) => ds.raw@ == text && ds.epoch == t,
            None => false,
        },
        None => d is None,
    }
}

/// The creation instant as an ordering key, if present.
pub open spec fn entry_epoch(e: Entry) -> Option<i64> {
    match e.entry_date {
        Some(d) => Some(d.epoch),
        None => None,
    }
}

/// The last-access instant as an ordering key, if present.
pub open spec fn access_epoch(e: Entry) -> Option<i64> {
    match e.access_date {
        Some(d) => Some(d.epoch),
        None => None,
    }
}

impl Entry {
    /// The date texts agree with the instants they carry.
    pub open spec fn wf(self) -> bool {
        &&& match self.entry_date {
            Some(d) => d.wf(),
            None => true,
        }
        &&& match self.access_date {
            Some(d) => d.wf(),
            None => true,
        }
    }

    /// Rebuilds an entry from a scanned file: the name is the filename, the
    /// number is extracted from it, and the creation date is read from the
    /// file's first line when that line is a date.
    pub fn from_file(directory: &str, filename: &str, first_line: Option<&str>) -> (r: Entry)
        ensures
            r.name@ == filename@,
            r.path@ == directory@ + "/"@ + filename@,
            r.number == spec_extract_number(filename@),
            r.access_date is None,
            match first_line {
                Some(l) => stamp_matches(r.entry_date, l@),
                None => r.entry_date is None,
            },
            r.wf(),
    {
        let entry_date = match first_line {
            Some(l) => parse_stamp(l),
            None => None,
        };
        Entry {
            name: String::from_str(filename),
            path: String::from_str(directory).concat("/").concat(filename),
            number: extract_number(filename),
            entry_date,
            access_date: None,
        }
    }

    /// Rebuilds an entry from the plain values of one index row.
    pub fn build_from_row(
        dir_path: &str,
        number: Option<u32>,
        name: String,
        entry_date: &str,
        access_date: &str,
    ) -> (r: Entry)
        ensures
            r.name@ == name@,
            r.path@ == dir_path@ + "/"@ + name@,
            r.number == number,
            stamp_matches(r.entry_date, entry_date@),
            stamp_matches(r.access_date, access_date@),
            r.wf(),
    {
        let path = String::from_str(dir_path).concat("/").concat(name.as_str());
        Entry {
            name,
            path,
            number,
            entry_date: parse_stamp(entry_date),
            access_date: parse_stamp(access_date),
        }
    }

    /// A fresh auto-numbered entry named `Entry_<number>.txt`, dated now.
    pub fn create_default(number: u32, path_config: &PathConfig) -> (r: Entry)
        ensures
            r.name@ == default_entry_name(number),
            r.path@ == path_config.entry_dir@ + "/"@ + r.name@,
            r.number == Some(number),
            r.entry_date is Some,
            r.access_date is Some,
            r.wf(),
    {
        let name = default_name_string(number);
        let path = path_config.get_entry_path(name.as_str());
        Entry {
            name,
            path,
            number: Some(number),
            entry_date: Some(now_stamp()),
            access_date: Some(now_stamp()),
        }
    }

    /// A fresh custom-named entry without a number, dated now.
    pub fn create_custom(path_config: &PathConfig, name: &str) -> (r: Entry)
        ensures
            r.name@ == name@,
            r.path@ == path_config.entry_dir@ + "/"@ + name@,
            r.number is None,
            r.entry_date is Some,
            r.access_date is Some,
            r.wf(),
    {
        let path = path_config.get_entry_path(name);
        Entry {
            name: String::from_str(name),
            path,
            number: None,
            entry_date: Some(now_stamp()),
            access_date: Some(now_stamp()),
        }
    }

    /// The creation-date text as stored in an index row: the date line, or
    /// empty when absent.
    pub fn entry_string(&self) -> (r: String)
        ensures
            r@ == match self.entry_date {
                Some(d) => d.raw@,
                None => Seq::<char>::empty(),
            },
    {
        match &self.entry_date {
            Some(d) => d.raw.clone(),
            None => String::new(),
        }
    }

    /// The access-date text as stored in an index row: the date line, or
    /// empty when absent.
    pub fn access_string(&self) -> (r: String)
        ensures
            r@ == match self.access_date {
                Some(d) => d.raw@,
                None => Seq::<char>::empty(),
            },
    {
        match &self.access_date {
            Some(d) => d.raw.clone(),
            None => String::new(),
        }
    }
}

/// The filename of the auto-numbered entry `n`.
pub open spec fn default_entry_name(n: u32) -> Seq<char> {
    "Entry_"@ + dec_str(n as nat) + ".txt"@
}

/// Builds the filename of the auto-numbered entry `n`.
pub fn default_name_string(n: u32) -> (r: String)
    ensures
        r@ == default_entry_name(n),
{
    String::from_str("Entry_").concat(u32_to_string(n).as_str()).concat(".txt")
}

/// The number extractor inverts the creation naming scheme: scanning the
/// filename of the auto-numbered entry `n` recovers exactly `n`, so a
/// rebuild gives a created entry its number back.
pub proof fn lemma_extract_of_default_name(n: u32)
    ensures
        spec_extract_number(default_entry_name(n)) == Some(n),
{
    reveal_strlit("Entry_");
    reveal_strlit(".txt");
    let s = default_entry_name(n);
    let ds = dec_str(n as nat);
    crate::numerals::lemma_dec_digits_val(n as nat);
    assert(ds.len() >= 1);
    assert(forall|k: int| 0 <= k < ds.len() ==> is_digit(#[trigger] ds[k]));
    assert(digits_val(ds) == n as nat) by {
        if n == 0 {
            assert(ds =~= Seq::<char>::empty().push('0'));
            assert(ds.drop_last() =~= Seq::<char>::empty());
        }
    }
    assert(s.len() == 6 + ds.len() + 4);
    assert(forall|k: int| 0 <= k < 6 ==> !is_digit(#[trigger] s[k])) by {
        assert(s[0] == 'E' && s[1] == 'n' && s[2] == 't' && s[3] == 'r' && s[4] == 'y' && s[5]
            == '_');
    }
    lemma_first_run_skip(s, 6);
    let t = s.subrange(6, s.len() as int);
    assert(t =~= ds + ".txt"@);
    assert(forall|k: int| 0 <= k < ds.len() ==> is_digit(#[trigger] t[k]));
    assert(t[ds.len() as int] == '.');
    assert(!is_digit('.'));
    lemma_leading_digits_extent(t, ds.len() as int);
    assert(t.subrange(0, ds.len() as int) =~= ds);
    assert(first_digit_run(s) == Some(ds));
}

/// What a fresh entry file holds: the creation date line, a blank line, and
/// a separator line; the rest is for the user to write.
pub open spec fn spec_initial_text(date_line: Seq<char>) -> Seq<char> {
    date_line + "\n\n"@
        + "======================================================================================================================"@
        + "\n"@
}

/// The separator drawn under the date line of a fresh entry file.
fn separator_str() -> (r: &'static str)
    ensures
        r@
            == "======================================================================================================================"@,
{
    "======================================================================================================================"
}

/// Builds the initial text of a fresh entry file from its date line.
pub fn initial_file_text(date_line: &str) -> (r: String)
    ensures
        r@ == spec_initial_text(date_line@),
{
    String::from_str(date_line).concat("\n\n").concat(separator_str()).concat("\n")
}

/// The first entry of `s` called `name`, if any.
pub open spec fn find_entry(s: Seq<Entry>, name: Seq<char>) -> Option<Entry>
    decreases s.len(),
{
    if s.len() == 0 {
        None
    } else if s[0].name@ == name {
        Some(s[0])
    } else {
        find_entry(s.drop_first(), name)
    }
}

/// Skipping leading entries with other names does not change the find.
proof fn lemma_find_entry_skip(s: Seq<Entry>, name: Seq<char>, i: int)
    requires
        0 <= i <= s.len(),
        forall|k: int| 0 <= k < i ==> (#[trigger] s[k]).name@ != name,
    ensures
        find_entry(s, name) == find_entry(s.subrange(i, s.len() as int), name),
    decreases i,
{
    if i == 0 {
        assert(s.subrange(0, s.len() as int) =~= s);
    } else {
        let t = s.subrange(1, s.len() as int);
        assert(s.drop_first() =~= t);
        lemma_find_entry_skip(t, name, i - 1);
        assert(t.subrange(i - 1, t.len() as int) =~= s.subrange(i, s.len() as int));
    }
}

/// The by-number ordering: numbered entries come before number-less ones,
/// numbered ones ascend by value, and number-less pairs tie.
pub open spec fn num_le(a: Entry, b: Entry) -> bool {
    match (a.number, b.number) {
        (Some(x), Some(y)) => x <= y,
        (Some(_), None) => true,
        (None, Some(_)) => false,
        (None, None) => true,
    }
}

/// The by-number ordering as a relation value.
pub open spec fn num_le_f() -> spec_fn(Entry, Entry) -> bool {
    |a: Entry, b: Entry| num_le(a, b)
}

/// The by-number ordering relates every pair and is transitive.
pub proof fn lemma_num_le_props()
    ensures
        total_le(num_le_f()),
        trans_le(num_le_f()),
{
    let le = num_le_f();
    assert forall|a: Entry, b: Entry| #[trigger] le(a, b) || #[trigger] le(b, a) by {
        assert(le(a, b) == num_le(a, b));
        assert(le(b, a) == num_le(b, a));
    }
    assert forall|a: Entry, b: Entry, c: Entry|
        #[trigger] le(a, b) && #[trigger] le(b, c) implies le(a, c) by {
        assert(le(a, c) == num_le(a, c));
    }
}

/// The ordering key of the by-date orderings: the access instant or the
/// creation instant.
pub open spec fn date_key(use_access: bool, e: Entry) -> Option<i64> {
    if use_access {
        access_epoch(e)
    } else {
        entry_epoch(e)
    }
}

/// The by-date ordering: dated entries come before undated ones, dated ones
/// ascend chronologically, and undated pairs tie.
pub open spec fn date_le(use_access: bool, a: Entry, b: Entry) -> bool {
    match (date_key(use_access, a), date_key(use_access, b)) {
        (Some(x), Some(y)) => x <= y,
        (Some(_), None) => true,
        (None, Some(_)) => false,
        (None, None) => true,
    }
}

/// The by-date ordering as a relation value.
pub open spec fn date_le_f(use_access: bool) -> spec_fn(Entry, Entry) -> bool {
    |a: Entry, b: Entry| date_le(use_access, a, b)
}

/// The by-date ordering relates every pair and is transitive.
pub proof fn lemma_date_le_props(use_access: bool)
    ensures
        total_le(date_le_f(use_access)),
        trans_le(date_le_f(use_access)),
{
    let le = date_le_f(use_access);
    assert forall|a: Entry, b: Entry| #[trigger] le(a, b) || #[trigger] le(b, a) by {
        assert(le(a, b) == date_le(use_access, a, b));
        assert(le(b, a) == date_le(use_access, b, a));
    }
    assert forall|a: Entry, b: Entry, c: Entry|
        #[trigger] le(a, b) && #[trigger] le(b, c) implies le(a, c) by {
        assert(le(a, c) == date_le(use_access, a, c));
    }
}

/// Orders two entries by number.
fn num_le_exec(a: &Entry, b: &Entry) -> (r: bool)
    ensures
        r == num_le(*a, *b),
{
    match (a.number, b.number) {
        (Some(x), Some(y)) => x <= y,
        (Some(_), None) => true,
        (None, Some(_)) => false,
        (None, None) => true,
    }
}

/// Orders two entries by date.
fn date_le_exec(use_access: bool, a: &Entry, b: &Entry) -> (r: bool)
    ensures
        r == date_le(use_access, *a, *b),
{
    let ka: Option<i64> = if use_access {
        match &a.access_date {
            Some(d) => Some(d.epoch),
            None => None,
        }
    } else {
        match &a.entry_date {
            Some(d) => Some(d.epoch),
            None => None,
        }
    };
    let kb: Option<i64> = if use_access {
        match &b.access_date {
            Some(d) => Some(d.epoch),
            None => None,
        }
    } else {
        match &b.entry_date {
            Some(d) => Some(d.epoch),
            None => None,
        }
    };
    match (ka, kb) {
        (Some(x), Some(y)) => x <= y,
        (Some(_), None) => true,
        (None, Some(_)) => false,
        (None, None) => true,
    }
}

/// Where to place `x` among `v` under the by-number ordering.
fn num_insert_pos(v: &Vec<Entry>, x: &Entry) -> (p: usize)
    ensures
        p <= v@.len(),
        forall|k: int| 0 <= k < p ==> num_le(#[trigger] v@[k], *x),
        p < v@.len() ==> !num_le(v@[p as int], *x),
{
    let mut p: usize = 0;
    while p < v.len()
        invariant
            p <= v@.len(),
            forall|k: int| 0 <= k < p ==> num_le(#[trigger] v@[k], *x),
        decreases v@.len() - p,
    {
        if !num_le_exec(&v[p], x) {
            return p;
        }
        p += 1;
    }
    p
}

/// Where to place `x` among `v` under the by-date ordering.
fn date_insert_pos(use_access: bool, v: &Vec<Entry>, x: &Entry) -> (p: usize)
    ensures
        p <= v@.len(),
        forall|k: int| 0 <= k < p ==> date_le(use_access, #[trigger] v@[k], *x),
        p < v@.len() ==> !date_le(use_access, v@[p as int], *x),
{
    let mut p: usize = 0;
    while p < v.len()
        invariant
            p <= v@.len(),
            forall|k: int| 0 <= k < p ==> date_le(use_access, #[trigger] v@[k], *x),
        decreases v@.len() - p,
    {
        if !date_le_exec(use_access, &v[p], x) {
            return p;
        }
        p += 1;
    }
    p
}

/// The insertion step of the stable by-number sort.
fn insert_entry_by_num(v: &mut Vec<Entry>, x: Entry)
    ensures
        final(v)@ == stable_insert(num_le_f(), x, old(v)@),
{
    let p = num_insert_pos(v, &x);
    proof {
        let le = num_le_f();
        assert(forall|k: int| 0 <= k < p ==> le(#[trigger] v@[k], x));
        assert(p < v@.len() ==> !le(v@[p as int], x));
        lemma_stable_insert_position(le, x, v@, p as int);
    }
    v.insert(p, x);
}

/// The insertion step of the stable by-date sort.
fn insert_entry_by_date(use_access: bool, v: &mut Vec<Entry>, x: Entry)
    ensures
        final(v)@ == stable_insert(date_le_f(use_access), x, old(v)@),
{
    let p = date_insert_pos(use_access, v, &x);
    proof {
        let le = date_le_f(use_access);
        assert(forall|k: int| 0 <= k < p ==> le(#[trigger] v@[k], x));
        assert(p < v@.len() ==> !le(v@[p as int], x));
        lemma_stable_insert_position(le, x, v@, p as int);
    }
    v.insert(p, x);
}

/// Sorts entries by number, stably: numbered entries first in ascending
/// order, number-less entries after them in their prior relative order.
pub fn sort_entries_by_number(entries: &mut Vec<Entry>)
    ensures
        final(entries)@ == stable_sort(num_le_f(), old(entries)@),
        final(entries)@.len() == old(entries)@.len(),
        final(entries)@.to_multiset() == old(entries)@.to_multiset(),
        ordered_by(num_le_f(), final(entries)@),
        forall|i: int, j: int| 0 <= i < j < final(entries)@.len() ==> num_le(
            #[trigger] final(entries)@[i],
            #[trigger] final(entries)@[j],
        ),
        forall|i: int, j: int|
            0 <= i < j < final(entries)@.len() && (#[trigger] final(entries)@[i]).number is None
                ==> (#[trigger] final(entries)@[j]).number is None,
{
    let ghost input = entries@;
    let ghost le = num_le_f();
    proof {
        lemma_num_le_props();
        lemma_stable_sort_props(le, input);
    }
    let mut out: Vec<Entry> = Vec::new();
    let ghost mut i: int = 0;
    while entries.len() > 0
        invariant
            0 <= i <= input.len(),
            entries@ == input.subrange(i, input.len() as int),
            out@ == stable_sort(le, input.subrange(0, i)),
            le == num_le_f(),
        decreases entries@.len(),
    {
        let e = entries.remove(0);
        proof {
            assert(e == input[i]);
            assert(entries@ =~= input.subrange(i + 1, input.len() as int));
            assert(input.subrange(0, i + 1).drop_last() =~= input.subrange(0, i));
            assert(input.subrange(0, i + 1).last() == input[i]);
        }
        insert_entry_by_num(&mut out, e);
        proof {
            i = i + 1;
        }
    }
    proof {
        assert(input.subrange(0, input.len() as int) =~= input);
    }
    *entries = out;
    proof {
        let r = entries@;
        assert forall|i2: int, j2: int|
            0 <= i2 < j2 < r.len() implies num_le(#[trigger] r[i2], #[trigger] r[j2]) by {
            assert(le(r[i2], r[j2]));
        }
    }
}

/// Sorts entries by date, stably: dated entries first in chronological
/// order, undated entries after them in their prior relative order. The
/// flag selects the access date over the creation date as the key.
pub fn sort_entries_by_date(entries: &mut Vec<Entry>, use_access: bool)
    ensures
        final(entries)@ == stable_sort(date_le_f(use_access), old(entries)@),
        final(entries)@.len() == old(entries)@.len(),
        final(entries)@.to_multiset() == old(entries)@.to_multiset(),
        ordered_by(date_le_f(use_access), final(entries)@),
        forall|i: int, j: int| 0 <= i < j < final(entries)@.len() ==> date_le(
            use_access,
            #[trigger] final(entries)@[i],
            #[trigger] final(entries)@[j],
        ),
{
    let ghost input = entries@;
    let ghost le = date_le_f(use_access);
    proof {
        lemma_date_le_props(use_access);
        lemma_stable_sort_props(le, input);
    }
    let mut out: Vec<Entry> = Vec::new();
    let ghost mut i: int = 0;
    while entries.len() > 0
        invariant
            0 <= i <= input.len(),
            entries@ == input.subrange(i, input.len() as int),
            out@ == stable_sort(le, input.subrange(0, i)),
            le == date_le_f(use_access),
        decreases entries@.len(),
    {
        let e = entries.remove(0);
        proof {
            assert(e == input[i]);
            assert(entries@ =~= input.subrange(i + 1, input.len() as int));
            assert(input.subrange(0, i + 1).drop_last() =~= input.subrange(0, i));
            assert(input.subrange(0, i + 1).last() == input[i]);
        }
        insert_entry_by_date(use_access, &mut out, e);
        proof {
            i = i + 1;
        }
    }
    proof {
        assert(input.subrange(0, input.len() as int) =~= input);
    }
    *entries = out;
    proof {
        let r = entries@;
        assert forall|i2: int, j2: int|
            0 <= i2 < j2 < r.len() implies date_le(use_access, #[trigger] r[i2], #[trigger] r[j2]) by {
            assert(le(r[i2], r[j2]));
        }
    }
}

/// The subsequence of entries that carry an access date, in their given
/// order.
pub open spec fn access_dated(s: Seq<Entry>) -> Seq<Entry>
    decreases s.len(),
{
    if s.len() == 0 {
        Seq::empty()
    } else if s.last().access_date is Some {
        access_dated(s.drop_last()).push(s.last())
    } else {
        access_dated(s.drop_last())
    }
}

/// What `access_dated` keeps: exactly the entries with an access date.
proof fn lemma_access_dated_contains(s: Seq<Entry>)
    ensures
        forall|k: int|
            0 <= k < s.len() && (#[trigger] s[k]).access_date is Some ==> access_dated(s).contains(
                s[k],
            ),
        forall|j: int|
            0 <= j < access_dated(s).len() ==> (#[trigger] access_dated(s)[j]).access_date is Some
                && s.contains(access_dated(s)[j]),
    decreases s.len(),
{
    if s.len() > 0 {
        let s0 = s.drop_last();
        lemma_access_dated_contains(s0);
        let d0 = access_dated(s0);
        let d = access_dated(s);
        assert forall|k: int|
            0 <= k < s.len() && (#[trigger] s[k]).access_date is Some implies d.contains(
            s[k],
        ) by {
            if k < s.len() - 1 {
                assert(s0[k] == s[k]);
                assert(d0.contains(s[k]));
                let j = choose|j: int| 0 <= j < d0.len() && d0[j] == s[k];
                if s.last().access_date is Some {
                    assert(d[j] == s[k]);
                } else {
                    assert(d == d0);
                }
            } else {
                assert(s[k] == s.last());
                assert(d == d0.push(s.last()));
                assert(d[d.len() - 1] == s[k]);
            }
        }
        assert forall|j: int|
            0 <= j < d.len() implies (#[trigger] d[j]).access_date is Some && s.contains(
            d[j],
        ) by {
            if s.last().access_date is Some {
                assert(d == d0.push(s.last()));
                if j < d0.len() {
                    assert(d[j] == d0[j]);
                    assert(s0.contains(d0[j]));
                    let k = choose|k: int| 0 <= k < s0.len() && s0[k] == d0[j];
                    assert(s[k] == d[j]);
                } else {
                    assert(d[j] == s.last());
                    assert(s[s.len() - 1] == d[j]);
                }
            } else {
                assert(d == d0);
                assert(s0.contains(d0[j]));
                let k = choose|k: int| 0 <= k < s0.len() && s0[k] == d0[j];
                assert(s[k] == d[j]);
            }
        }
    }
}

/// The most recently accessed entry: the last element after the stable
/// ascending sort, by access date, of the entries that have one.
pub open spec fn spec_last_accessed(s: Seq<Entry>) -> Option<Entry> {
    let dated = access_dated(s);
    if dated.len() == 0 {
        None
    } else {
        Some(stable_sort(date_le_f(true), dated).last())
    }
}

/// Selects the most recently accessed entry; `None` when no entry carries
/// an access date. Whatever is returned was accessed no earlier than any
/// other accessed entry.
pub fn get_last_accessed(entries: Vec<Entry>) -> (r: Option<Entry>)
    ensures
        r == spec_last_accessed(entries@),
        match r {
            Some(e) => e.access_date is Some && forall|k: int|
                0 <= k < entries@.len() && (#[trigger] entries@[k]).access_date is Some ==> date_le(
                    true,
                    entries@[k],
                    e,
                ),
            None => forall|k: int|
                0 <= k < entries@.len() ==> (#[trigger] entries@[k]).access_date is None,
        },
{
    let ghost input = entries@;
    let mut rest = entries;
    let mut dated: Vec<Entry> = Vec::new();
    let ghost mut i: int = 0;
    while rest.len() > 0
        invariant
            0 <= i <= input.len(),
            rest@ == input.subrange(i, input.len() as int),
            dated@ == access_dated(input.subrange(0, i)),
        decreases rest@.len(),
    {
        let e = rest.remove(0);
        proof {
            assert(e == input[i]);
            assert(rest@ =~= input.subrange(i + 1, input.len() as int));
            assert(input.subrange(0, i + 1).drop_last() =~= input.subrange(0, i));
            assert(input.subrange(0, i + 1).last() == input[i]);
        }
        if e.access_date.is_some() {
            dated.push(e);
        }
        proof {
            i = i + 1;
        }
    }
    proof {
        assert(input.subrange(0, input.len() as int) =~= input);
        lemma_access_dated_contains(input);
    }
    if dated.len() == 0 {
        proof {
            assert forall|k: int|
                0 <= k < input.len() implies (#[trigger] input[k]).access_date is None by {
                if input[k].access_date is Some {
                    assert(access_dated(input).contains(input[k]));
                }
            }
        }
        return None;
    }
    let ghost dated_seq = dated@;
    sort_entries_by_date(&mut dated, true);
    let ghost sorted = dated@;
    match dated.pop() {
        Some(e) => {
            proof {
                broadcast use vstd::seq_lib::group_to_multiset_ensures;

                assert(e == sorted.last());
                assert(sorted.to_multiset().count(e) > 0);
                assert(dated_seq.contains(e));
                assert(e.access_date is Some);
                assert forall|k: int|
                    0 <= k < input.len() && (#[trigger] input[k]).access_date is Some implies
                    date_le(true, input[k], e) by {
                    assert(access_dated(input).contains(input[k]));
                    assert(dated_seq.to_multiset().count(input[k]) > 0);
                    assert(sorted.contains(input[k]));
                    let j = choose|j: int| 0 <= j < sorted.len() && sorted[j] == input[k];
                    if j < sorted.len() - 1 {
                        assert(date_le_f(true)(sorted[j], sorted[sorted.len() - 1]));
                    }
                }
            }
            Some(e)
        },
        None => {
            proof {
                assert(false);
            }
            None
        },
    }
}

/// The position of the first entry called `name`, or the length when none
/// is.
fn find_entry_index(entries: &Vec<Entry>, name: &str) -> (i: usize)
    ensures
        i <= entries@.len(),
        forall|k: int| 0 <= k < i ==> (#[trigger] entries@[k]).name@ != name@,
        i < entries@.len() ==> entries@[i as int].name@ == name@,
{
    let want = String::from_str(name);
    let mut i: usize = 0;
    while i < entries.len()
        invariant
            i <= entries@.len(),
            want@ == name@,
            forall|k: int| 0 <= k < i ==> (#[trigger] entries@[k]).name@ != name@,
        decreases entries@.len() - i,
    {
        if entries[i].name == want {
            return i;
        }
        i += 1;
    }
    i
}

/// Picks the entry called `name` out of `entries`, if one is there.
pub fn get_entry(entries: Vec<Entry>, name: &str) -> (r: Option<Entry>)
    ensures
        r == find_entry(entries@, name@),
{
    let i = find_entry_index(&entries, name);
    proof {
        lemma_find_entry_skip(entries@, name@, i as int);
    }
    if i < entries.len() {
        proof {
            let sub = entries@.subrange(i as int, entries@.len() as int);
            assert(sub[0] == entries@[i as int]);
            assert(find_entry(sub, name@) == Some(sub[0]));
        }
        let mut v = entries;
        Some(v.remove(i))
    } else {
        proof {
            assert(entries@.subrange(i as int, entries@.len() as int) =~= Seq::<Entry>::empty());
        }
        None
    }
}

} // verus!
