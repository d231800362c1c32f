//! Paths as text: components separated by `/` or `\\` (both separate
//! components on Windows), the last one being the file name. A file name
//! that itself holds a backslash is therefore not supported.

use vstd::prelude::*;

verus! {

/// `p` is the last position of `c` in `s`.
pub open spec fn is_last_pos(s: Seq<char>, c: char, p: int) -> bool {
    0 <= p < s.len() && s[p] == c && forall|q: int| p < q < s.len() ==> s[q] != c
}

/// The last position of `c` in `s`, or -1 when `c` does not occur.
pub open spec fn last_pos(s: Seq<char>, c: char) -> int {
    if exists|p: int| is_last_pos(s, c, p) {
        choose|p: int| is_last_pos(s, c, p)
    } else {
        -1
    }
}

/// A character that separates the components of a path.
pub open spec fn is_sep(c: char) -> bool {
    c == '/' || c == '\\'
}

/// `p` is the position of the last separator of `s`.
pub open spec fn is_last_sep(s: Seq<char>, p: int) -> bool {
    0 <= p < s.len() && is_sep(s[p]) && forall|q: int| p < q < s.len() ==> !is_sep(s[q])
}

/// The position of the last separator of `s`, or -1 when it has none.
pub open spec fn last_sep(s: Seq<char>) -> int {
    if exists|p: int| is_last_sep(s, p) {
        choose|p: int| is_last_sep(s, p)
    } else {
        -1
    }
}

/// The separator that joins components onto `base`: a backslash when
/// `base` uses backslashes, else a slash.
pub open spec fn sep_for(base: Seq<char>) -> char {
    if base.contains('\\') {
        '\\'
    } else {
        '/'
    }
}

/// The directory part of a path, with its trailing separator; empty for a
/// bare file name.
pub open spec fn dir_part(s: Seq<char>) -> Seq<char> {
    s.subrange(0, last_sep(s) + 1)
}

/// The last component of a path.
pub open spec fn file_name_of(s: Seq<char>) -> Seq<char> {
    s.subrange(last_sep(s) + 1, s.len() as int)
}

/// The extension of a path: what follows the last dot of its file name,
/// where that dot is not the name's first character.
pub open spec fn extension_of(s: Seq<char>) -> Option<Seq<char>> {
    let name = file_name_of(s);
    let p = last_pos(name, '.');
    if p > 0 {
        Some(name.subrange(p + 1, name.len() as int))
    } else {
        None
    }
}

/// The file name of a path without its extension and the dot before it.
pub open spec fn stem_of(s: Seq<char>) -> Seq<char> {
    let name = file_name_of(s);
    let p = last_pos(name, '.');
    if p > 0 {
        name.subrange(0, p)
    } else {
        name
    }
}

/// The path's extension is exactly `jpg`.
pub open spec fn is_jpg(s: Seq<char>) -> bool {
    extension_of(s) == Some(seq!['j', 'p', 'g'])
}

/// The path of `path` below `root`: empty when they are equal, `None` when
/// `path` does not lie under `root`.
pub open spec fn relative_to(path: Seq<char>, root: Seq<char>) -> Option<Seq<char>> {
    if path == root {
        Some(Seq::empty())
    } else if root.len() < path.len() && path.subrange(0, root.len() as int) == root {
        if root.len() == 0 || is_sep(root.last()) {
            Some(path.subrange(root.len() as int, path.len() as int))
        } else if is_sep(path[root.len() as int]) {
            Some(path.subrange(root.len() as int + 1, path.len() as int))
        } else {
            None
        }
    } else {
        None
    }
}

/// `rel` joined onto `base` with one separator between them.
pub open spec fn joined(base: Seq<char>, rel: Seq<char>) -> Seq<char> {
    if rel.len() == 0 {
        base
    } else if base.len() == 0 || is_sep(base.last()) {
        base + rel
    } else {
        base + seq![sep_for(base)] + rel
    }
}

/// The path with `prefix` put before its file name.
pub open spec fn name_prefixed(s: Seq<char>, prefix: Seq<char>) -> Seq<char> {
    dir_part(s) + prefix + file_name_of(s)
}

proof fn lemma_last_pos(s: Seq<char>, c: char, p: int)
    requires
        is_last_pos(s, c, p),
    ensures
        last_pos(s, c) == p,
{
    let q = choose|q: int| is_last_pos(s, c, q);
    if q < p {
        assert(s[p] != c);
    } else if p < q {
        assert(s[q] != c);
    }
}

/// The last position of `c` in `s`.
fn find_last(s: &str, len: usize, c: char) -> (r: Option<usize>)
    requires
        len == s@.len(),
    ensures
        match r {
            Some(p) => p < len && last_pos(s@, c) == p,
            None => last_pos(s@, c) == -1,
        },
{
    let mut i: usize = len;
    while i > 0
        invariant
            len == s@.len(),
            i <= len,
            forall|q: int| i <= q < len ==> s@[q] != c,
        decreases i,
    {
        if s.get_char(i - 1) == c {
            proof {
                lemma_last_pos(s@, c, i - 1);
            }
            return Some(i - 1);
        }
        i = i - 1;
    }
    assert(!exists|p: int| is_last_pos(s@, c, p));
    None
}

fn is_sep_char(c: char) -> (r: bool)
    ensures
        r == is_sep(c),
{
    c == '/' || c == '\\'
}

proof fn lemma_last_sep(s: Seq<char>, p: int)
    requires
        is_last_sep(s, p),
    ensures
        last_sep(s) == p,
{
    let q = choose|q: int| is_last_sep(s, q);
    if q < p {
        assert(!is_sep(s[p]));
    } else if p < q {
        assert(!is_sep(s[q]));
    }
}

/// Where the file name of `s` starts: just after its last separator.
fn name_start(s: &str, len: usize) -> (r: usize)
    requires
        len == s@.len(),
    ensures
        r == last_sep(s@) + 1,
        r <= len,
{
    let mut i: usize = len;
    while i > 0
        invariant
            len == s@.len(),
            i <= len,
            forall|q: int| i <= q < len ==> !is_sep(#[trigger] s@[q]),
        decreases i,
    {
        if is_sep_char(s.get_char(i - 1)) {
            proof {
                lemma_last_sep(s@, i - 1);
            }
            return i;
        }
        i = i - 1;
    }
    assert(!exists|p: int| is_last_sep(s@, p));
    0
}

/// Whether `c` occurs in `s`.
fn contains_char(s: &str, len: usize, c: char) -> (r: bool)
    requires
        len == s@.len(),
    ensures
        r == s@.contains(c),
{
    let mut i: usize = 0;
    while i < len
        invariant
            len == s@.len(),
            i <= len,
            forall|q: int| 0 <= q < i ==> s@[q] != c,
        decreases len - i,
    {
        if s.get_char(i) == c {
            return true;
        }
        i = i + 1;
    }
    false
}

/// The last component of a path.
pub fn file_name(s: &str) -> (r: &str)
    ensures
        r@ == file_name_of(s@),
{
    let len = s.unicode_len();
    let start = name_start(s, len);
    s.substring_char(start, len)
}

/// The extension of a path, when its file name has one.
pub fn extension(s: &str) -> (r: Option<&str>)
    ensures
        match r {
            Some(e) => extension_of(s@) == Some(e@),
            None => extension_of(s@) is None,
        },
{
    let name = file_name(s);
    let n = name.unicode_len();
    match find_last(name, n, '.') {
        Some(p) if p > 0 => Some(name.substring_char(p + 1, n)),
        _ => None,
    }
}

/// Whether the path's extension is exactly `jpg` (case matters).
pub fn has_jpg_extension(s: &str) -> (r: bool)
    ensures
        r == is_jpg(s@),
{
    match extension(s) {
        Some(e) => {
            let n = e.unicode_len();
            let r = n == 3 && e.get_char(0) == 'j' && e.get_char(1) == 'p' && e.get_char(2) == 'g';
            assert(r ==> e@ =~= seq!['j', 'p', 'g']);
            r
        },
        None => false,
    }
}

/// The path of `path` below `root`, `None` when it does not lie there.
pub fn relative_path<'a>(path: &'a str, root: &str) -> (r: Option<&'a str>)
    ensures
        match r {
            Some(rel) => relative_to(path@, root@) == Some(rel@),
            None => relative_to(path@, root@) is None,
        },
{
    let n = path.unicode_len();
    let m = root.unicode_len();
    if m > n {
        return None;
    }
    let mut i: usize = 0;
    while i < m
        invariant
            n == path@.len(),
            m == root@.len(),
            m <= n,
            i <= m,
            forall|k: int| 0 <= k < i ==> path@[k] == root@[k],
        decreases m - i,
    {
        if path.get_char(i) != root.get_char(i) {
            assert(path@.subrange(0, m as int)[i as int] != root@[i as int]);
            assert(path@ != root@);
            return None;
        }
        i = i + 1;
    }
    assert(path@.subrange(0, m as int) =~= root@);
    if m == n {
        assert(path@ =~= root@);
        return Some(path.substring_char(n, n));
    }
    assert(path@ != root@);
    if m == 0 || is_sep_char(root.get_char(m - 1)) {
        Some(path.substring_char(m, n))
    } else if is_sep_char(path.get_char(m)) {
        Some(path.substring_char(m + 1, n))
    } else {
        None
    }
}

/// `rel` joined onto `base`.
pub fn join(base: &str, rel: &str) -> (r: String)
    ensures
        r@ == joined(base@, rel@),
{
    let mut r = String::from_str(base);
    let bn = base.unicode_len();
    if rel.unicode_len() == 0 {
        return r;
    }
    if !(bn == 0 || is_sep_char(base.get_char(bn - 1))) {
        if contains_char(base, bn, '\\') {
            r.append("\\");
            proof {
                reveal_strlit("\\");
            }
        } else {
            r.append("/");
            proof {
                reveal_strlit("/");
            }
        }
    }
    r.append(rel);
    assert(r@ =~= joined(base@, rel@));
    r
}

/// The path with `prefix` put before its file name.
pub fn prefix_file_name(s: &str, prefix: &str) -> (r: String)
    ensures
        r@ == name_prefixed(s@, prefix@),
{
    let len = s.unicode_len();
    let start = name_start(s, len);
    let mut r = String::from_str(s.substring_char(0, start));
    r.append(prefix);
    r.append(s.substring_char(start, len));
    assert(r@ =~= name_prefixed(s@, prefix@));
    r
}

/// Where the clip of a motion photo is written: beside the photo, named by
/// the photo's stem followed by `-motion.mp4`.
pub open spec fn clip_path_of(s: Seq<char>) -> Seq<char> {
    dir_part(s) + stem_of(s) + seq!['-', 'm', 'o', 't', 'i', 'o', 'n', '.', 'm', 'p', '4']
}

/// Where the clip of the motion photo at `s` is written.
pub fn clip_path(s: &str) -> (r: String)
    ensures
        r@ == clip_path_of(s@),
{
    let len = s.unicode_len();
    let start = name_start(s, len);
    let mut r = String::from_str(s.substring_char(0, start));
    let name = s.substring_char(start, len);
    let n = name.unicode_len();
    match find_last(name, n, '.') {
        Some(p) if p > 0 => r.append(name.substring_char(0, p)),
        _ => r.append(name),
    }
    r.append("-motion.mp4");
    proof {
        reveal_strlit("-motion.mp4");
    }
    assert(r@ =~= clip_path_of(s@));
    r
}

} // verus!
