//! Capture dates read out of metadata text or out of a file name, in the
//! canonical form `YYYY-MM-DD`.

use vstd::prelude::*;

verus! {

pub open spec fn is_digit(c: char) -> bool {
    '0' <= c && c <= '9'
}

/// The separators that may stand between the year, month and day of a
/// metadata date.
pub open spec fn is_date_sep(c: char) -> bool {
    c == ':' || c == '-' || c == '_'
}

/// `n` digits stand in `s` from position `i` on.
pub open spec fn digits_at(s: Seq<char>, i: int, n: int) -> bool {
    0 <= i && i + n <= s.len() && forall|k: int| i <= k < i + n ==> is_digit(#[trigger] s[k])
}

/// Position `i`, moved past one separator if one stands there.
pub open spec fn skip_sep(s: Seq<char>, i: int) -> int {
    if 0 <= i < s.len() && is_date_sep(s[i]) {
        i + 1
    } else {
        i
    }
}

/// Where the month of a metadata date whose year starts at `i` begins.
pub open spec fn month_pos(s: Seq<char>, i: int) -> int {
    skip_sep(s, i + 4)
}

/// Where the day of a metadata date whose year starts at `i` begins.
pub open spec fn day_pos(s: Seq<char>, i: int) -> int {
    skip_sep(s, month_pos(s, i) + 2)
}

/// A metadata date starts at `i`: four digits, an optional separator, two
/// digits, an optional separator, two digits.
pub open spec fn metadata_date_at(s: Seq<char>, i: int) -> bool {
    digits_at(s, i, 4) && digits_at(s, month_pos(s, i), 2) && digits_at(s, day_pos(s, i), 2)
}

/// `i` is the leftmost position at which a metadata date starts.
pub open spec fn first_metadata_date(s: Seq<char>, i: int) -> bool {
    metadata_date_at(s, i) && forall|j: int| 0 <= j < i ==> !metadata_date_at(s, j)
}

/// Year, month and day joined by hyphens.
pub open spec fn hyphenated(y: Seq<char>, m: Seq<char>, d: Seq<char>) -> Seq<char> {
    y + seq!['-'] + m + seq!['-'] + d
}

/// The date found in a metadata date text: the leftmost match of the
/// pattern, re-joined with hyphens whatever separators it used.
pub open spec fn metadata_date_of(s: Seq<char>) -> Option<Seq<char>> {
    if exists|i: int| metadata_date_at(s, i) {
        let i = choose|i: int| first_metadata_date(s, i);
        let m = month_pos(s, i);
        let d = day_pos(s, i);
        Some(hyphenated(s.subrange(i, i + 4), s.subrange(m, m + 2), s.subrange(d, d + 2)))
    } else {
        None
    }
}

/// A file name date starts at `j`: eight digits followed by an underscore.
/// (An `IMG-` prefix before them does not change which digits are taken.)
pub open spec fn name_date_at(s: Seq<char>, j: int) -> bool {
    digits_at(s, j, 8) && j + 8 < s.len() && s[j + 8] == '_'
}

/// `j` is the leftmost position at which a file name date starts.
pub open spec fn first_name_date(s: Seq<char>, j: int) -> bool {
    name_date_at(s, j) && forall|k: int| 0 <= k < j ==> !name_date_at(s, k)
}

/// The date found in a file name: its leftmost eight-digit block that an
/// underscore follows, split four, two, two and joined with hyphens.
pub open spec fn name_date_of(s: Seq<char>) -> Option<Seq<char>> {
    if exists|j: int| name_date_at(s, j) {
        let j = choose|j: int| first_name_date(s, j);
        Some(hyphenated(s.subrange(j, j + 4), s.subrange(j + 4, j + 6), s.subrange(j + 6, j + 8)))
    } else {
        None
    }
}

/// The best-effort date: the metadata date when the metadata text holds
/// one, else the file name's date.
pub open spec fn best_effort_date_of(metadata: Option<Seq<char>>, name: Seq<char>) -> Option<Seq<char>> {
    match metadata {
        Some(t) if metadata_date_of(t) is Some => metadata_date_of(t),
        _ => name_date_of(name),
    }
}

proof fn lemma_first_metadata_unique(s: Seq<char>, a: int, b: int)
    requires
        first_metadata_date(s, a),
        first_metadata_date(s, b),
    ensures
        a == b,
{
    if a < b {
        assert(!metadata_date_at(s, a));
    } else if b < a {
        assert(!metadata_date_at(s, b));
    }
}

proof fn lemma_first_name_unique(s: Seq<char>, a: int, b: int)
    requires
        first_name_date(s, a),
        first_name_date(s, b),
    ensures
        a == b,
{
    if a < b {
        assert(!name_date_at(s, a));
    } else if b < a {
        assert(!name_date_at(s, b));
    }
}

fn is_digit_char(c: char) -> (r: bool)
    ensures
        r == is_digit(c),
{
    '0' <= c && c <= '9'
}

fn is_sep_char(c: char) -> (r: bool)
    ensures
        r == is_date_sep(c),
{
    c == ':' || c == '-' || c == '_'
}

/// Whether `count` digits stand in `s` from position `i` on.
fn digits_in(s: &str, len: usize, i: usize, count: usize) -> (r: bool)
    requires
        len == s@.len(),
        i <= len,
    ensures
        r == digits_at(s@, i as int, count as int),
{
    if count > len - i {
        return false;
    }
    let mut k: usize = 0;
    while k < count
        invariant
            len == s@.len(),
            i + count <= len,
            k <= count,
            forall|x: int| i <= x < i + k ==> is_digit(#[trigger] s@[x]),
        decreases count - k,
    {
        if !is_digit_char(s.get_char(i + k)) {
            assert(!is_digit(s@[i + k]));
            return false;
        }
        k = k + 1;
    }
    true
}

/// Position `i`, moved past one separator if one stands there.
fn skip_sep_in(s: &str, len: usize, i: usize) -> (r: usize)
    requires
        len == s@.len(),
        i <= len,
    ensures
        r == skip_sep(s@, i as int),
        r <= len,
{
    if i < len && is_sep_char(s.get_char(i)) {
        i + 1
    } else {
        i
    }
}

/// `s[from..from + n]` appended to `out`.
fn append_part(out: &mut String, s: &str, from: usize, n: usize)
    requires
        from + n <= s@.len(),
        s@.len() <= usize::MAX,
    ensures
        final(out)@ == old(out)@ + s@.subrange(from as int, from + n),
{
    out.append(s.substring_char(from, from + n));
}

/// Year, month and day of `s`, taken from the given positions, joined by
/// hyphens.
fn hyphenate(s: &str, y: usize, m: usize, d: usize) -> (r: String)
    requires
        s@.len() <= usize::MAX,
        y + 4 <= s@.len(),
        m + 2 <= s@.len(),
        d + 2 <= s@.len(),
    ensures
        r@ == hyphenated(
            s@.subrange(y as int, y + 4),
            s@.subrange(m as int, m + 2),
            s@.subrange(d as int, d + 2),
        ),
{
    let mut r = String::new();
    append_part(&mut r, s, y, 4);
    r.append("-");
    append_part(&mut r, s, m, 2);
    r.append("-");
    append_part(&mut r, s, d, 2);
    proof {
        reveal_strlit("-");
    }
    assert(r@ =~= hyphenated(
        s@.subrange(y as int, y + 4),
        s@.subrange(m as int, m + 2),
        s@.subrange(d as int, d + 2),
    ));
    r
}

/// Reads the date out of a metadata date text such as `2022:05:04 10:11:12`.
pub fn metadata_date(s: &str) -> (r: Option<String>)
    ensures
        match r {
            Some(t) => metadata_date_of(s@) == Some(t@),
            None => metadata_date_of(s@) is None,
        },
{
    let len = s.unicode_len();
    let mut i: usize = 0;
    while i < len
        invariant
            len == s@.len(),
            i <= len,
            forall|j: int| 0 <= j < i ==> !metadata_date_at(s@, j),
        decreases len - i,
    {
        if digits_in(s, len, i, 4) {
            let m = skip_sep_in(s, len, i + 4);
            if digits_in(s, len, m, 2) {
                let d = skip_sep_in(s, len, m + 2);
                if digits_in(s, len, d, 2) {
                    proof {
                        assert(first_metadata_date(s@, i as int));
                        let c = choose|c: int| first_metadata_date(s@, c);
                        lemma_first_metadata_unique(s@, c, i as int);
                    }
                    return Some(hyphenate(s, i, m, d));
                }
            }
        }
        i = i + 1;
    }
    proof {
        assert forall|j: int| !metadata_date_at(s@, j) by {
            if 0 <= j < len {
            } else if j >= len {
                assert(!digits_at(s@, j, 4));
            }
        }
    }
    None
}

/// Reads the date out of a file name such as `IMG-20220504_101112.jpg`.
pub fn name_date(name: &str) -> (r: Option<String>)
    ensures
        match r {
            Some(t) => name_date_of(name@) == Some(t@),
            None => name_date_of(name@) is None,
        },
{
    let len = name.unicode_len();
    let mut j: usize = 0;
    while j < len
        invariant
            len == name@.len(),
            j <= len,
            forall|k: int| 0 <= k < j ==> !name_date_at(name@, k),
        decreases len - j,
    {
        if digits_in(name, len, j, 8) && j + 8 < len && name.get_char(j + 8) == '_' {
            proof {
                assert(first_name_date(name@, j as int));
                let c = choose|c: int| first_name_date(name@, c);
                lemma_first_name_unique(name@, c, j as int);
            }
            return Some(hyphenate(name, j, j + 4, j + 6));
        }
        j = j + 1;
    }
    proof {
        assert forall|k: int| !name_date_at(name@, k) by {
            if 0 <= k < len {
            } else if k >= len {
                assert(!digits_at(name@, k, 8));
            }
        }
    }
    None
}

} // verus!
