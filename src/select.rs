use vstd::prelude::*;

use crate::midi::{chars_of, magnitude, read_digits};

verus! {

/// The lower-case form of a text, as `str::to_lowercase` gives it.
pub uninterp spec fn lower_of(s: Seq<char>) -> Seq<char>;

/// Relies on `str::to_lowercase`: its result depends on the characters alone, and an
/// empty text stays empty.
#[verifier::external_body]
fn lowercase(s: &str) -> (r: String)
    ensures
        r@ == lower_of(s@),
        s@.len() == 0 ==> r@.len() == 0,
{
    s.to_lowercase()
}

/// The value of `s` read as a `usize` in decimal: an optional `+`, then digits.
pub open spec fn usize_text(s: Seq<char>) -> Option<int> {
    if s.len() > 0 && s[0] == '+' {
        magnitude(s.drop_first(), usize::MAX as int)
    } else {
        magnitude(s, usize::MAX as int)
    }
}

/// Whether `n` occurs in `h` at `i`.
pub open spec fn occurs_at(h: Seq<char>, n: Seq<char>, i: int) -> bool {
    0 <= i && i + n.len() <= h.len() && h.subrange(i, i + n.len()) == n
}

/// Whether `n` occurs anywhere in `h`.
pub open spec fn contains_text(h: Seq<char>, n: Seq<char>) -> bool {
    exists|i: int| occurs_at(h, n, i)
}

/// The place of the first of `hs` from `j` on in which `n` occurs.
pub open spec fn first_containing(hs: Seq<Seq<char>>, n: Seq<char>, j: int) -> Option<int>
    decreases hs.len() - j,
{
    if j < 0 || j >= hs.len() {
        None
    } else if contains_text(hs[j], n) {
        Some(j)
    } else {
        first_containing(hs, n, j + 1)
    }
}

/// The texts of `v`.
pub open spec fn texts(v: Seq<String>) -> Seq<Seq<char>> {
    v.map_values(|s: String| s@)
}

/// The lower-case forms of the texts of `v`.
pub open spec fn lowered(v: Seq<String>) -> Seq<Seq<char>> {
    v.map_values(|s: String| lower_of(s@))
}

fn occurs_at_exec(h: &Vec<char>, n: &Vec<char>, i: usize) -> (r: bool)
    requires
        i + n@.len() <= h@.len(),
    ensures
        r == occurs_at(h@, n@, i as int),
{
    let hl = h.len();
    let mut k: usize = 0;
    while k < n.len()
        invariant
            k <= n@.len(),
            hl == h@.len(),
            i + n@.len() <= h@.len(),
            h@.subrange(i as int, i + k) == n@.take(k as int),
        decreases n@.len() - k,
    {
        if h[i + k] != n[k] {
            assert(h@.subrange(i as int, i + n@.len())[k as int] != n@[k as int]);
            return false;
        }
        assert(h@.subrange(i as int, i + k + 1) =~= h@.subrange(i as int, i + k).push(h@[i + k]));
        assert(n@.take(k + 1) =~= n@.take(k as int).push(n@[k as int]));
        k = k + 1;
    }
    assert(n@.take(n@.len() as int) =~= n@);
    true
}

fn contains_exec(h: &Vec<char>, n: &Vec<char>) -> (r: bool)
    ensures
        r == contains_text(h@, n@),
{
    if n.len() > h.len() {
        return false;
    }
    let last = h.len() - n.len();
    let mut i: usize = 0;
    loop
        invariant
            n@.len() <= h@.len(),
            last == h@.len() - n@.len(),
            i <= last,
            forall|j: int| 0 <= j < i ==> !occurs_at(h@, n@, j),
        decreases last - i,
    {
        if occurs_at_exec(h, n, i) {
            return true;
        }
        if i == last {
            assert forall|j: int| !occurs_at(h@, n@, j) by {
                if 0 <= j < i {
                }
            }
            return false;
        }
        i = i + 1;
    }
}

/// The place of the first of `names` in which `pattern` occurs, if any.
pub fn position_containing(names: &Vec<String>, pattern: &str) -> (r: Option<usize>)
    ensures
        match first_containing(texts(names@), pattern@, 0) {
            Some(j) => r == Some(j as usize),
            None => r is None,
        },
{
    let pat = chars_of(pattern);
    let mut j: usize = 0;
    while j < names.len()
        invariant
            j <= names@.len(),
            pat@ == pattern@,
            first_containing(texts(names@), pattern@, 0) == first_containing(
                texts(names@),
                pattern@,
                j as int,
            ),
        decreases names@.len() - j,
    {
        let h = chars_of(names[j].as_str());
        if contains_exec(&h, &pat) {
            return Some(j);
        }
        j = j + 1;
    }
    None
}

/// Picks one of a list of devices or ports, by its place or by part of its name.
#[derive(Debug, Clone)]
pub enum Matcher {
    /// The one at this place in the list
    Index(usize),
    /// The first whose lower-case name holds this text (kept in lower case)
    String(String),
}

impl Matcher {
    /// A place if `s` is a number in decimal, otherwise `s` in lower case.
    pub fn parse(s: &str) -> (r: Matcher)
        ensures
            match usize_text(s@) {
                Some(n) => r == Matcher::Index(n as usize),
                None => r is String && r->String_0@ == lower_of(s@),
            },
    {
        let v = chars_of(s);
        let sign: usize = if v.len() > 0 && v[0] == '+' { 1 } else { 0 };
        if v.len() > 0 {
            assert(v@.skip(1) =~= v@.drop_first());
        }
        assert(v@.skip(0) =~= v@);
        match read_digits(&v, sign, usize::MAX as u64) {
            Some(n) => Matcher::Index(n as usize),
            None => Matcher::String(lowercase(s)),
        }
    }

    /// The place of the item picked among the items named `names`, if there is one.
    pub fn get(&self, names: &Vec<String>) -> (r: Option<usize>)
        ensures
            match self {
                Matcher::Index(i) => r == if *i < names@.len() {
                    Some(*i)
                } else {
                    None
                },
                Matcher::String(s) => match first_containing(lowered(names@), s@, 0) {
                    Some(j) => r == Some(j as usize),
                    None => r is None,
                },
            },
    {
        match self {
            Matcher::Index(i) => if *i < names.len() {
                Some(*i)
            } else {
                None
            },
            Matcher::String(s) => {
                let mut low: Vec<String> = Vec::new();
                let mut j: usize = 0;
                while j < names.len()
                    invariant
                        j <= names@.len(),
                        low@.len() == j,
                        forall|k: int| 0 <= k < j ==> (#[trigger] low@[k])@ == lower_of(names@[k]@),
                    decreases names@.len() - j,
                {
                    low.push(lowercase(names[j].as_str()));
                    j = j + 1;
                }
                assert(texts(low@) =~= lowered(names@));
                position_containing(&low, s.as_str())
            },
        }
    }
}

} // verus!

verus! {

/// The sample rate asked for first.
pub const PREFERRED_SAMPLE_RATE: u32 = 96_000;

/// The sample rate asked for when no configuration offers the preferred one.
pub const BACKUP_SAMPLE_RATE: u32 = 48_000;

/// The place of the first of `ranges` (lowest and highest rate, both included) from
/// `j` on that offers `rate`.
pub open spec fn first_with_rate(ranges: Seq<(u32, u32)>, rate: u32, j: int) -> Option<int>
    decreases ranges.len() - j,
{
    if j < 0 || j >= ranges.len() {
        None
    } else if ranges[j].0 <= rate && rate <= ranges[j].1 {
        Some(j)
    } else {
        first_with_rate(ranges, rate, j + 1)
    }
}

/// The configuration and rate to record with: the first range that offers the
/// preferred rate, else the first that offers the backup rate, else none (the device's
/// default configuration is then used).
pub open spec fn rate_choice(ranges: Seq<(u32, u32)>) -> Option<(int, u32)> {
    match first_with_rate(ranges, PREFERRED_SAMPLE_RATE, 0) {
        Some(j) => Some((j, PREFERRED_SAMPLE_RATE)),
        None => match first_with_rate(ranges, BACKUP_SAMPLE_RATE, 0) {
            Some(j) => Some((j, BACKUP_SAMPLE_RATE)),
            None => None,
        },
    }
}

fn find_rate(ranges: &Vec<(u32, u32)>, rate: u32) -> (r: Option<usize>)
    ensures
        match first_with_rate(ranges@, rate, 0) {
            Some(j) => r == Some(j as usize),
            None => r is None,
        },
{
    let mut j: usize = 0;
    while j < ranges.len()
        invariant
            j <= ranges@.len(),
            first_with_rate(ranges@, rate, 0) == first_with_rate(ranges@, rate, j as int),
        decreases ranges@.len() - j,
    {
        let (lo, hi) = ranges[j];
        if lo <= rate && rate <= hi {
            return Some(j);
        }
        j = j + 1;
    }
    None
}

/// Picks a configuration and a rate among input configurations offering the rate
/// ranges `ranges` (see [`rate_choice`]).
pub fn best_rate(ranges: &Vec<(u32, u32)>) -> (r: Option<(usize, u32)>)
    ensures
        match rate_choice(ranges@) {
            Some((j, rate)) => r == Some((j as usize, rate)),
            None => r is None,
        },
{
    if let Some(j) = find_rate(ranges, PREFERRED_SAMPLE_RATE) {
        return Some((j, PREFERRED_SAMPLE_RATE));
    }
    match find_rate(ranges, BACKUP_SAMPLE_RATE) {
        Some(j) => Some((j, BACKUP_SAMPLE_RATE)),
        None => None,
    }
}

} // verus!
