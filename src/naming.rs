//! The name of the archive parts: the working directory relative to home,
//! flattened into one file name, followed by the date and the part index.

use crate::date::{digit_char, CalendarDate};
use vstd::prelude::*;
use vstd::string::*;

verus! {

/// Position of the first occurrence of `pat` in `s` at `i` or later.
pub open spec fn first_match(s: Seq<char>, pat: Seq<char>, i: int) -> Option<int>
    decreases s.len() + 1 - i,
{
    if i < 0 || i + pat.len() > s.len() {
        None
    } else if s.subrange(i, i + pat.len()) == pat {
        Some(i)
    } else {
        first_match(s, pat, i + 1)
    }
}

/// A position that `first_match` gives lies at `i` or later, and `pat`
/// occurs there in full.
proof fn lemma_first_match_found(s: Seq<char>, pat: Seq<char>, i: int)
    ensures
        first_match(s, pat, i) matches Some(k) ==> {
            &&& i <= k
            &&& 0 <= k
            &&& k + pat.len() <= s.len()
            &&& s.subrange(k, k + pat.len()) == pat
        },
    decreases s.len() + 1 - i,
{
    if !(i < 0 || i + pat.len() > s.len()) && s.subrange(i, i + pat.len()) != pat {
        lemma_first_match_found(s, pat, i + 1);
    }
}

/// `s` with the first occurrence of `pat` taken out, or `s` itself when `pat`
/// does not occur.
pub open spec fn remove_first(s: Seq<char>, pat: Seq<char>) -> Seq<char> {
    match first_match(s, pat, 0) {
        Some(i) => s.take(i) + s.skip(i + pat.len()),
        None => s,
    }
}

/// The path separator turned into the flat token `#`.
pub open spec fn flat_char(c: char) -> char {
    if c == '/' {
        '#'
    } else {
        c
    }
}

/// `s` with every path separator replaced by `#`.
pub open spec fn flatten(s: Seq<char>) -> Seq<char> {
    s.map_values(|c: char| flat_char(c))
}

/// The base file name: home, then the working directory with home taken out
/// and separators flattened, then `-` and the date.
pub open spec fn base_name(cwd: Seq<char>, home: Seq<char>, date: Seq<char>) -> Seq<char> {
    home + flatten(remove_first(cwd, home)) + seq!['-'] + date
}

/// `n` in decimal, without leading zeros.
pub open spec fn decimal(n: nat) -> Seq<char>
    decreases n,
{
    if n < 10 {
        seq![digit_char(n as int)]
    } else {
        decimal(n / 10).push(digit_char((n % 10) as int))
    }
}

/// The file name of part `index`: the base name, `.part` and the index.
pub open spec fn part_name(base: Seq<char>, index: nat) -> Seq<char> {
    base + seq!['.', 'p', 'a', 'r', 't'] + decimal(index)
}

/// The decimal text of a number has at least one digit.
proof fn lemma_decimal_nonempty(n: nat)
    ensures
        decimal(n).len() >= 1,
    decreases n,
{
    if n >= 10 {
        lemma_decimal_nonempty(n / 10);
    }
}

/// Different digits have different characters.
proof fn lemma_digit_char_injective(x: int, y: int)
    requires
        0 <= x < 10,
        0 <= y < 10,
        digit_char(x) == digit_char(y),
    ensures
        x == y,
{
    assert(digit_char(x) as u32 == (x + 48) as u32);
    assert(digit_char(y) as u32 == (y + 48) as u32);
}

/// Different numbers have different decimal texts.
pub proof fn lemma_decimal_injective(a: nat, b: nat)
    requires
        decimal(a) == decimal(b),
    ensures
        a == b,
    decreases a,
{
    if a < 10 && b < 10 {
        assert(decimal(a) == seq![digit_char(a as int)]);
        assert(decimal(b) == seq![digit_char(b as int)]);
        assert(decimal(a)[0] == digit_char(a as int));
        assert(decimal(b)[0] == digit_char(b as int));
        lemma_digit_char_injective(a as int, b as int);
    } else if a < 10 {
        lemma_decimal_nonempty(b / 10);
        assert(decimal(a).len() == 1);
        assert(decimal(b).len() == decimal(b / 10).len() + 1);
    } else if b < 10 {
        lemma_decimal_nonempty(a / 10);
        assert(decimal(b).len() == 1);
        assert(decimal(a).len() == decimal(a / 10).len() + 1);
    } else {
        let da = decimal(a);
        let db = decimal(b);
        assert(da.drop_last() == decimal(a / 10));
        assert(db.drop_last() == decimal(b / 10));
        assert(da.last() == db.last());
        lemma_digit_char_injective((a % 10) as int, (b % 10) as int);
        lemma_decimal_injective(a / 10, b / 10);
    }
}

/// Each part of a run has a file of its own: different indices give
/// different part file names.
pub proof fn lemma_part_names_distinct(base: Seq<char>, i: nat, j: nat)
    requires
        i != j,
    ensures
        part_name(base, i) != part_name(base, j),
{
    let prefix = base + seq!['.', 'p', 'a', 'r', 't'];
    if part_name(base, i) == part_name(base, j) {
        assert(part_name(base, i).skip(prefix.len() as int) == decimal(i));
        assert(part_name(base, j).skip(prefix.len() as int) == decimal(j));
        lemma_decimal_injective(i, j);
    }
}

/// Naming is deterministic: the same working directory, home and date give
/// the same base name, and so the same part names.
pub proof fn lemma_naming_deterministic(
    cwd1: Seq<char>,
    home1: Seq<char>,
    date1: CalendarDate,
    cwd2: Seq<char>,
    home2: Seq<char>,
    date2: CalendarDate,
    index: nat,
)
    requires
        cwd1 == cwd2,
        home1 == home2,
        date1 == date2,
    ensures
        base_name(cwd1, home1, date1.iso()) == base_name(cwd2, home2, date2.iso()),
        part_name(base_name(cwd1, home1, date1.iso()), index) == part_name(
            base_name(cwd2, home2, date2.iso()),
            index,
        ),
{
}

/// The one-character text of a digit.
fn digit_text(d: u64) -> (r: &'static str)
    requires
        d < 10,
    ensures
        r@ == seq![digit_char(d as int)],
{
    proof {
        reveal_strlit("0");
        reveal_strlit("1");
        reveal_strlit("2");
        reveal_strlit("3");
        reveal_strlit("4");
        reveal_strlit("5");
        reveal_strlit("6");
        reveal_strlit("7");
        reveal_strlit("8");
        reveal_strlit("9");
    }
    match d {
        0 => "0",
        1 => "1",
        2 => "2",
        3 => "3",
        4 => "4",
        5 => "5",
        6 => "6",
        7 => "7",
        8 => "8",
        _ => "9",
    }
}

/// Appends `n` in decimal to `out`.
fn push_decimal(out: &mut String, n: u64)
    ensures
        final(out)@ == old(out)@ + decimal(n as nat),
    decreases n,
{
    if n < 10 {
        out.append(digit_text(n));
    } else {
        push_decimal(out, n / 10);
        out.append(digit_text(n % 10));
    }
}

/// The file name of part `index` of the archive named `base`.
pub fn segment_file_name(base: &str, index: u64) -> (r: String)
    ensures
        r@ == part_name(base@, index as nat),
{
    let mut r = base.to_owned();
    proof {
        reveal_strlit(".part");
    }
    r.append(".part");
    push_decimal(&mut r, index);
    r
}

/// The characters of `s`.
fn chars_of(s: &str) -> (r: Vec<char>)
    ensures
        r@ == s@,
{
    let n = s.unicode_len();
    let mut r: Vec<char> = Vec::new();
    let mut i: usize = 0;
    while i < n
        invariant
            n == s@.len(),
            i <= n,
            r@ == s@.take(i as int),
        decreases n - i,
    {
        r.push(s.get_char(i));
        i = i + 1;
        assert(r@ == s@.take(i as int));
    }
    assert(r@ == s@);
    r
}

/// Whether `pat` occurs in `s` at position `i`.
fn matches_at(s: &Vec<char>, pat: &Vec<char>, i: usize) -> (r: bool)
    requires
        i + pat@.len() <= s@.len(),
    ensures
        r == (s@.subrange(i as int, i + pat@.len()) == pat@),
{
    let n = s.len();
    let mut j: usize = 0;
    while j < pat.len()
        invariant
            n == s@.len(),
            i + pat@.len() <= s@.len(),
            j <= pat@.len(),
            s@.subrange(i as int, i + j) == pat@.take(j as int),
        decreases pat@.len() - j,
    {
        if s[i + j] != pat[j] {
            assert(s@.subrange(i as int, i + pat@.len())[j as int] != pat@[j as int]);
            return false;
        }
        j = j + 1;
        assert(s@.subrange(i as int, i + j) == pat@.take(j as int));
    }
    assert(pat@.take(j as int) == pat@);
    true
}

/// The first position at which `pat` occurs in `s`.
fn find_first(s: &Vec<char>, pat: &Vec<char>) -> (r: Option<usize>)
    ensures
        r matches Some(k) ==> first_match(s@, pat@, 0) == Some(k as int),
        r is None ==> first_match(s@, pat@, 0) is None,
        r matches Some(k) ==> k + pat@.len() <= s@.len(),
{
    if pat.len() > s.len() {
        return None;
    }
    let last = s.len() - pat.len();
    let mut i: usize = 0;
    while i <= last
        invariant
            last + pat@.len() == s@.len(),
            i <= last + 1,
            first_match(s@, pat@, 0) == first_match(s@, pat@, i as int),
        decreases last + 1 - i,
    {
        if matches_at(s, pat, i) {
            proof {
                lemma_first_match_found(s@, pat@, i as int);
            }
            return Some(i);
        }
        if i == last {
            return None;
        }
        i = i + 1;
    }
    None
}

/// Appends `src` from `from` to `to` to `out`, with separators flattened.
fn push_flattened(out: &mut String, src: &str, chars: &Vec<char>, from: usize, to: usize)
    requires
        chars@ == src@,
        from <= to <= src@.len(),
    ensures
        final(out)@ == old(out)@ + flatten(src@.subrange(from as int, to as int)),
{
    let mut k: usize = from;
    while k < to
        invariant
            chars@ == src@,
            from <= k <= to <= src@.len(),
            out@ == old(out)@ + flatten(src@.subrange(from as int, k as int)),
        decreases to - k,
    {
        let ghost before = out@;
        if chars[k] == '/' {
            proof {
                reveal_strlit("#");
            }
            out.append("#");
        } else {
            out.append(src.substring_char(k, k + 1));
        }
        assert(flatten(src@.subrange(from as int, k + 1)) == flatten(src@.subrange(from as int, k as int)).push(
            flat_char(src@[k as int]),
        ));
        k = k + 1;
    }
}

/// The base file name of the archive parts for a working directory `cwd`, a
/// home directory `home` and a date.
pub fn base_filename(cwd: &str, home: &str, date: &CalendarDate) -> (r: String)
    requires
        date.is_valid(),
    ensures
        r@ == base_name(cwd@, home@, date.iso()),
{
    let cwd_chars = chars_of(cwd);
    let home_chars = chars_of(home);
    let mut r = home.to_owned();
    let n = cwd_chars.len();
    match find_first(&cwd_chars, &home_chars) {
        Some(i) => {
            let end = i + home_chars.len();
            push_flattened(&mut r, cwd, &cwd_chars, 0, i);
            push_flattened(&mut r, cwd, &cwd_chars, end, cwd_chars.len());
            assert(flatten(cwd@.take(i as int) + cwd@.skip(end as int)) == flatten(
                cwd@.subrange(0, i as int),
            ) + flatten(cwd@.subrange(end as int, cwd@.len() as int)));
        },
        None => {
            push_flattened(&mut r, cwd, &cwd_chars, 0, cwd_chars.len());
            assert(cwd@.subrange(0, cwd@.len() as int) == cwd@);
        },
    }
    proof {
        reveal_strlit("-");
    }
    r.append("-");
    let d = date.iso_text();
    r.append(d.as_str());
    r
}

} // verus!
