//! The fallback CPU probe's parser.
//!
//! When the system-information library sees nothing, the prober reads the
//! kernel's own CPU listing: one entry per `processor` line, and the chip's
//! name on a `Hardware` line, after the colon and stripped of the blanks
//! that pad such lines. Reading the file is I/O and stays with the caller;
//! the parsing of its lines is specified and verified here.

use vstd::prelude::*;
use vstd::string::StrSliceExecFns;
use vstd::string::StringExecFns;

verus! {

/// Whether `p` begins `l`.
pub open spec fn line_starts_with(l: Seq<char>, p: Seq<char>) -> bool {
    p.is_prefix_of(l)
}

/// A blank that pads a value on such a line: a space or a tab.
pub open spec fn is_blank(c: char) -> bool {
    c == ' ' || c == '\t'
}

/// `l` without its leading blanks.
pub open spec fn trim_front(l: Seq<char>) -> Seq<char>
    decreases l.len(),
{
    if l.len() > 0 && is_blank(l[0]) {
        trim_front(l.drop_first())
    } else {
        l
    }
}

/// `l` without its trailing blanks.
pub open spec fn trim_back(l: Seq<char>) -> Seq<char>
    decreases l.len(),
{
    if l.len() > 0 && is_blank(l.last()) {
        trim_back(l.drop_last())
    } else {
        l
    }
}

/// `l` without leading and trailing blanks.
pub open spec fn trimmed(l: Seq<char>) -> Seq<char> {
    trim_back(trim_front(l))
}

/// The position of the first colon of `l`; negative when there is none.
pub open spec fn first_colon(l: Seq<char>) -> int
    decreases l.len(),
{
    if l.len() == 0 {
        -1
    } else if l[0] == ':' {
        0
    } else if first_colon(l.drop_first()) < 0 {
        -1
    } else {
        first_colon(l.drop_first()) + 1
    }
}

/// The hardware name carried by `l`: only a line that starts with
/// `Hardware` and holds a colon carries one, and it is what stands after
/// the first colon, trimmed of blanks — provided that leaves anything.
pub open spec fn hardware_value_of(l: Seq<char>) -> Option<Seq<char>> {
    if !line_starts_with(l, "Hardware"@) {
        Option::None
    } else if first_colon(l) < 0 {
        Option::None
    } else {
        let v = trimmed(l.subrange(first_colon(l) + 1, l.len() as int));
        if v.len() > 0 {
            Option::Some(v)
        } else {
            Option::None
        }
    }
}

/// How many `processor` lines `ls` holds.
pub open spec fn processor_count(ls: Seq<Seq<char>>) -> int
    decreases ls.len(),
{
    if ls.len() == 0 {
        0
    } else {
        processor_count(ls.drop_last()) + if line_starts_with(ls.last(), "processor"@) {
            1int
        } else {
            0int
        }
    }
}

/// The hardware name of the first line that carries one.
pub open spec fn first_hardware(ls: Seq<Seq<char>>) -> Option<Seq<char>>
    decreases ls.len(),
{
    if ls.len() == 0 {
        Option::None
    } else if first_hardware(ls.drop_last()) is Some {
        first_hardware(ls.drop_last())
    } else {
        hardware_value_of(ls.last())
    }
}

/// Whether `prefix` begins `line`.
fn has_prefix(line: &str, prefix: &str) -> (r: bool)
    ensures
        r == line_starts_with(line@, prefix@),
{
    let pl = prefix.unicode_len();
    if pl > line.unicode_len() {
        return false;
    }
    let mut i: usize = 0;
    while i < pl
        invariant
            i <= pl,
            pl == prefix@.len(),
            pl <= line@.len(),
            forall|j: int| 0 <= j < i ==> line@[j] == prefix@[j],
        decreases pl - i,
    {
        if line.get_char(i) != prefix.get_char(i) {
            return false;
        }
        i += 1;
    }
    proof {
        assert(prefix@ =~= line@.subrange(0, pl as int));
    }
    true
}

/// The first colon of `l` sits where no colon sits before it; a negative
/// answer means `l` holds none.
proof fn lemma_first_colon(l: Seq<char>)
    ensures
        first_colon(l) >= 0 ==> 0 <= first_colon(l) < l.len() && l[first_colon(l)] == ':'
            && forall|j: int| 0 <= j < first_colon(l) ==> l[j] != ':',
        first_colon(l) < 0 ==> forall|j: int| 0 <= j < l.len() ==> l[j] != ':',
    decreases l.len(),
{
    if l.len() > 0 && l[0] != ':' {
        let d = l.drop_first();
        lemma_first_colon(d);
        assert(forall|j: int| 1 <= j < l.len() ==> l[j] == d[j - 1]);
        if first_colon(d) < 0 {
            assert(forall|j: int| 0 <= j < l.len() ==> l[j] != ':') by {
                assert(forall|j: int| 1 <= j < l.len() ==> l[j] == d[j - 1] && d[j - 1] != ':');
            }
        } else {
            let f = first_colon(d);
            assert(first_colon(l) == f + 1);
            assert(l[f + 1] == d[f]);
            assert(forall|j: int| 0 <= j < f + 1 ==> l[j] != ':') by {
                assert(forall|j: int| 1 <= j < f + 1 ==> l[j] == d[j - 1] && d[j - 1] != ':');
            }
        }
    }
}

/// Finds the first colon of `line`.
fn find_colon(line: &str) -> (r: Option<usize>)
    ensures
        r matches Option::Some(i) ==> first_colon(line@) == i,
        r is None ==> first_colon(line@) < 0,
{
    let n = line.unicode_len();
    let mut i: usize = 0;
    while i < n
        invariant
            i <= n,
            n == line@.len(),
            forall|j: int| 0 <= j < i ==> line@[j] != ':',
        decreases n - i,
    {
        if line.get_char(i) == ':' {
            proof {
                lemma_first_colon(line@);
            }
            return Option::Some(i);
        }
        i += 1;
    }
    proof {
        lemma_first_colon(line@);
    }
    Option::None
}

/// Blanks up to `k`, and no blank at `k`: the untrimmed front is exactly
/// the part from `k` on.
proof fn lemma_trim_front(l: Seq<char>, k: int)
    requires
        0 <= k <= l.len(),
        forall|j: int| 0 <= j < k ==> is_blank(l[j]),
        k < l.len() ==> !is_blank(l[k]),
    ensures
        trim_front(l) == l.subrange(k, l.len() as int),
    decreases k,
{
    if k == 0 {
        assert(l.subrange(0, l.len() as int) =~= l);
    } else {
        let d = l.drop_first();
        assert(forall|j: int| 0 <= j < d.len() ==> d[j] == l[j + 1]);
        lemma_trim_front(d, k - 1);
        assert(d.subrange(k - 1, d.len() as int) =~= l.subrange(k, l.len() as int));
    }
}

/// No blank at `k - 1`, blanks from `k` on: the untrimmed back is exactly
/// the part before `k`.
proof fn lemma_trim_back(l: Seq<char>, k: int)
    requires
        0 <= k <= l.len(),
        forall|j: int| k <= j < l.len() ==> is_blank(l[j]),
        k > 0 ==> !is_blank(l[k - 1]),
    ensures
        trim_back(l) == l.subrange(0, k),
    decreases l.len() - k,
{
    if k == l.len() {
        assert(l.subrange(0, k) =~= l);
    } else {
        let d = l.drop_last();
        lemma_trim_back(d, k);
        assert(d.subrange(0, k) =~= l.subrange(0, k));
    }
}

/// Strips the blanks from both ends of `s`.
fn trim_blanks(s: &str) -> (r: &str)
    ensures
        r@ == trimmed(s@),
{
    let n = s.unicode_len();
    let mut b: usize = 0;
    while b < n && (s.get_char(b) == ' ' || s.get_char(b) == '\t')
        invariant
            b <= n,
            n == s@.len(),
            forall|j: int| 0 <= j < b ==> is_blank(s@[j]),
        decreases n - b,
    {
        b += 1;
    }
    proof {
        lemma_trim_front(s@, b as int);
    }
    let mut e: usize = n;
    while e > b && (s.get_char(e - 1) == ' ' || s.get_char(e - 1) == '\t')
        invariant
            b <= e <= n,
            n == s@.len(),
            forall|j: int| e <= j < n ==> is_blank(s@[j]),
        decreases e,
    {
        e -= 1;
    }
    proof {
        let f = trim_front(s@);
        assert(f == s@.subrange(b as int, n as int));
        assert(forall|j: int| e - b <= j < f.len() ==> is_blank(f[j]));
        assert(e > b ==> !is_blank(f[e - b - 1]));
        lemma_trim_back(f, e - b);
        assert(f.subrange(0, e - b) =~= s@.subrange(b as int, e as int));
    }
    s.substring_char(b, e)
}

/// The hardware name carried by `line`, if any: the part after the first
/// colon of a `Hardware` line, trimmed, when that is nonempty.
pub fn hardware_value(line: &str) -> (r: Option<String>)
    ensures
        r.deep_view() == hardware_value_of(line@),
{
    if !has_prefix(line, "Hardware") {
        return Option::None;
    }
    match find_colon(line) {
        Option::None => Option::None,
        Option::Some(i) => {
            proof {
                lemma_first_colon(line@);
            }
            let n = line.unicode_len();
            let rest = line.substring_char(i + 1, n);
            let value = trim_blanks(rest);
            if value.unicode_len() > 0 {
                Option::Some(String::from_str(value))
            } else {
                Option::None
            }
        },
    }
}

/// Parses the kernel's CPU listing, handed over line by line: the count of
/// `processor` lines and the first hardware name found.
pub fn parse_cpuinfo(lines: &Vec<String>) -> (r: (usize, Option<String>))
    ensures
        r.0 == processor_count(lines.deep_view()),
        r.1.deep_view() == first_hardware(lines.deep_view()),
{
    let mut count: usize = 0;
    let mut brand: Option<String> = Option::None;
    let mut i: usize = 0;
    while i < lines.len()
        invariant
            i <= lines@.len(),
            count == processor_count(lines.deep_view().take(i as int)),
            count <= i,
            brand.deep_view() == first_hardware(lines.deep_view().take(i as int)),
        decreases lines@.len() - i,
    {
        let line = &lines[i];
        if has_prefix(line.as_str(), "processor") {
            count += 1;
        }
        if brand.is_none() {
            brand = hardware_value(line.as_str());
        }
        i += 1;
        proof {
            let ls = lines.deep_view();
            assert(ls.take(i as int).drop_last() =~= ls.take(i - 1));
            assert(ls.take(i as int).last() == ls[i - 1]);
            assert(ls[i - 1] == lines@[i - 1]@);
        }
    }
    proof {
        assert(lines.deep_view().take(lines@.len() as int) =~= lines.deep_view());
    }
    (count, brand)
}

} // verus!
