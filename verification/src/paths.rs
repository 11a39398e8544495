//! Path rules on slash-separated path text: the final component, extension
//! and stem as `std::path::Path` defines them on Unix (repeated and trailing
//! separators and `.` components after the first are ignored), the audio-file
//! test, directory-prefix handling and the duplicate-root check.

use vstd::prelude::*;
use crate::text::{chars_of, chars_eq, has_prefix, starts_with, trim_end_char, trimmed_end_len};

verus! {

/// Index just past the last `/` in `t` (0 when `t` has none).
pub open spec fn segment_start(t: Seq<char>) -> int
    decreases t.len(),
{
    if t.len() == 0 {
        0
    } else if t.last() == '/' {
        t.len() as int
    } else {
        segment_start(t.drop_last())
    }
}

/// The final component of a path, as `Path::file_name` gives it: the last
/// component that is not `.` (a `.` is kept only as a leading component), or
/// `None` when that component is `..`, a leading `.`, or absent.
pub open spec fn file_name_of(s: Seq<char>) -> Option<Seq<char>>
    decreases s.len(),
{
    let t = trim_end_char(s, '/');
    let i = segment_start(t);
    let seg = t.subrange(i, t.len() as int);
    if t.len() == 0 {
        None
    } else if seg == seq!['.'] {
        if i == 0 {
            None
        } else {
            proof {
                lemma_trim_end_char_len(s, '/');
                lemma_segment_start_bounds(t);
                assert(seg.len() == 1);
            }
            file_name_of(t.subrange(0, i))
        }
    } else if seg == seq!['.', '.'] {
        None
    } else {
        Some(seg)
    }
}

/// Index of the last `c` in `s`, or -1.
pub open spec fn last_index_of(s: Seq<char>, c: char) -> int
    decreases s.len(),
{
    if s.len() == 0 {
        -1
    } else if s.last() == c {
        s.len() - 1
    } else {
        last_index_of(s.drop_last(), c)
    }
}

/// The extension of a file name, as `Path::extension` gives it: the text
/// after the final `.`, or `None` when there is no `.` or the only `.` is
/// the first character.
pub open spec fn extension_of_name(name: Seq<char>) -> Option<Seq<char>> {
    let p = last_index_of(name, '.');
    if p <= 0 {
        None
    } else {
        Some(name.subrange(p + 1, name.len() as int))
    }
}

/// The stem of a file name, as `Path::file_stem` gives it: the text before
/// the final `.`, or the whole name when there is no `.` or the only `.` is
/// the first character.
pub open spec fn stem_of_name(name: Seq<char>) -> Seq<char> {
    let p = last_index_of(name, '.');
    if p <= 0 {
        name
    } else {
        name.subrange(0, p)
    }
}

pub proof fn lemma_trim_end_char_len(s: Seq<char>, c: char)
    ensures
        trim_end_char(s, c).len() <= s.len(),
    decreases s.len(),
{
    if s.len() > 0 && s.last() == c {
        lemma_trim_end_char_len(s.drop_last(), c);
    }
}

pub proof fn lemma_segment_start_bounds(t: Seq<char>)
    ensures
        0 <= segment_start(t) <= t.len(),
        forall|j: int| segment_start(t) <= j < t.len() ==> t[j] != '/',
        segment_start(t) > 0 ==> t[segment_start(t) - 1] == '/',
    decreases t.len(),
{
    if t.len() > 0 && t.last() != '/' {
        lemma_segment_start_bounds(t.drop_last());
        assert forall|j: int| segment_start(t) <= j < t.len() implies t[j] != '/' by {
            if j < t.len() - 1 {
                assert(t[j] == t.drop_last()[j]);
            }
        }
    }
}

pub proof fn lemma_last_index_bounds(s: Seq<char>, c: char)
    ensures
        -1 <= last_index_of(s, c) < s.len(),
        last_index_of(s, c) >= 0 ==> s[last_index_of(s, c)] == c,
        forall|j: int| last_index_of(s, c) < j < s.len() ==> s[j] != c,
    decreases s.len(),
{
    if s.len() > 0 && s.last() != c {
        lemma_last_index_bounds(s.drop_last(), c);
        assert forall|j: int| last_index_of(s, c) < j < s.len() implies s[j] != c by {
            if j < s.len() - 1 {
                assert(s[j] == s.drop_last()[j]);
            }
        }
    }
}

/// Index just past the last `/` in `v[..n]`.
fn segment_start_in(v: &Vec<char>, n: usize) -> (i: usize)
    requires
        n <= v.len(),
    ensures
        i as int == segment_start(v@.take(n as int)),
{
    let mut k = n;
    while k > 0 && v[k - 1] != '/'
        invariant
            k <= n <= v.len(),
            segment_start(v@.take(n as int)) == segment_start(v@.take(k as int)),
        decreases k,
    {
        assert(v@.take(k as int).drop_last() =~= v@.take(k - 1));
        k = k - 1;
    }
    k
}

/// Position of the last `c` in `v[lo..hi]`, relative to `lo`.
fn last_index_in(v: &Vec<char>, lo: usize, hi: usize, c: char) -> (r: Option<usize>)
    requires
        lo <= hi <= v.len(),
    ensures
        match r {
            Some(p) => p as int == last_index_of(v@.subrange(lo as int, hi as int), c),
            None => last_index_of(v@.subrange(lo as int, hi as int), c) == -1,
        },
{
    let mut k = hi;
    while k > lo && v[k - 1] != c
        invariant
            lo <= k <= hi <= v.len(),
            last_index_of(v@.subrange(lo as int, hi as int), c)
                == last_index_of(v@.subrange(lo as int, k as int), c),
        decreases k,
    {
        assert(v@.subrange(lo as int, k as int).drop_last() =~= v@.subrange(lo as int, k - 1));
        k = k - 1;
    }
    if k == lo {
        None
    } else {
        Some(k - 1 - lo)
    }
}

/// Where the final component of the path `v` lies in `v`, as a range.
pub fn file_name_range(v: &Vec<char>) -> (r: Option<(usize, usize)>)
    ensures
        match r {
            Some((lo, hi)) => lo <= hi <= v.len() && file_name_of(v@) == Some(
                v@.subrange(lo as int, hi as int),
            ),
            None => file_name_of(v@) is None,
        },
{
    let mut n = v.len();
    assert(v@.take(n as int) =~= v@);
    loop
        invariant
            n <= v.len(),
            file_name_of(v@) == file_name_of(v@.take(n as int)),
        decreases n,
    {
        let ghost s = v@.take(n as int);
        let mut tl = n;
        while tl > 0 && v[tl - 1] == '/'
            invariant
                tl <= n <= v.len(),
                trim_end_char(s, '/') == trim_end_char(v@.take(tl as int), '/'),
            decreases tl,
        {
            assert(v@.take(tl as int).drop_last() =~= v@.take(tl - 1));
            tl = tl - 1;
        }
        proof {
            if tl > 0 {
                assert(trim_end_char(v@.take(tl as int), '/') == v@.take(tl as int));
            } else {
                assert(v@.take(0) =~= Seq::<char>::empty());
            }
        }
        if tl == 0 {
            return None;
        }
        let i = segment_start_in(v, tl);
        proof {
            lemma_segment_start_bounds(v@.take(tl as int));
            assert(v@.take(tl as int).subrange(i as int, tl as int) =~= v@.subrange(
                i as int,
                tl as int,
            ));
        }
        let seg_len = tl - i;
        if seg_len == 1 && v[i] == '.' {
            assert(v@.subrange(i as int, tl as int) =~= seq!['.']);
            if i == 0 {
                return None;
            }
            assert(v@.take(tl as int).subrange(0, i as int) =~= v@.take(i as int));
            n = i;
        } else if seg_len == 2 && v[i] == '.' && v[i + 1] == '.' {
            assert(v@.subrange(i as int, tl as int) =~= seq!['.', '.']);
            return None;
        } else {
            proof {
                if seg_len == 1 {
                    assert(v@.subrange(i as int, tl as int)[0] != '.');
                }
                if seg_len == 2 {
                    assert(v@.subrange(i as int, tl as int)[0] != '.' || v@.subrange(
                        i as int,
                        tl as int,
                    )[1] != '.');
                }
            }
            return Some((i, tl));
        }
    }
}

/// The extension of the file name `v[lo..hi]`, as a range of `v`.
pub fn extension_range(v: &Vec<char>, lo: usize, hi: usize) -> (r: Option<(usize, usize)>)
    requires
        lo <= hi <= v.len(),
    ensures
        match r {
            Some((a, b)) => lo <= a <= b && b == hi && extension_of_name(
                v@.subrange(lo as int, hi as int),
            ) == Some(v@.subrange(a as int, b as int)),
            None => extension_of_name(v@.subrange(lo as int, hi as int)) is None,
        },
{
    let p = last_index_in(v, lo, hi, '.');
    proof {
        lemma_last_index_bounds(v@.subrange(lo as int, hi as int), '.');
    }
    match p {
        Some(p) if p > 0 => {
            let a = lo + p + 1;
            assert(v@.subrange(lo as int, hi as int).subrange(p + 1, hi - lo) =~= v@.subrange(
                a as int,
                hi as int,
            ));
            Some((a, hi))
        },
        _ => None,
    }
}

/// The final component of `path`, as `Path::file_name` gives it.
pub fn file_name(path: &str) -> (r: Option<String>)
    ensures
        match r {
            Some(n) => file_name_of(path@) == Some(n@),
            None => file_name_of(path@) is None,
        },
{
    let v = chars_of(path);
    match file_name_range(&v) {
        Some((lo, hi)) => Some(path.substring_char(lo, hi).to_string()),
        None => None,
    }
}

/// The stem of the final component of `path`, as `Path::file_stem` gives it.
pub fn file_stem(path: &str) -> (r: Option<String>)
    ensures
        match r {
            Some(n) => file_name_of(path@) is Some && n@ == stem_of_name(file_name_of(path@)->0),
            None => file_name_of(path@) is None,
        },
{
    let v = chars_of(path);
    match file_name_range(&v) {
        Some((lo, hi)) => {
            let p = last_index_in(&v, lo, hi, '.');
            proof {
                lemma_last_index_bounds(v@.subrange(lo as int, hi as int), '.');
            }
            match p {
                Some(p) if p > 0 => {
                    let e = lo + p;
                    assert(v@.subrange(lo as int, hi as int).subrange(0, p as int)
                        =~= v@.subrange(lo as int, e as int));
                    Some(path.substring_char(lo, e).to_string())
                },
                _ => Some(path.substring_char(lo, hi).to_string()),
            }
        },
        None => None,
    }
}

// ── Audio files ─────────────────────────────────────────────────────────────

/// ASCII lower-casing of one char, as `char::to_ascii_lowercase`.
pub open spec fn ascii_lower(c: char) -> char {
    if 'A' <= c && c <= 'Z' {
        ((c as u32) + 32) as char
    } else {
        c
    }
}

pub open spec fn ascii_lower_seq(s: Seq<char>) -> Seq<char> {
    s.map_values(|c: char| ascii_lower(c))
}

/// File extensions that the scanner processes.
pub open spec fn audio_extensions() -> Seq<Seq<char>> {
    seq![
        "mp3"@, "flac"@, "ogg"@, "opus"@, "wav"@, "aiff"@, "aif"@, "m4a"@, "wv"@, "ape"@,
    ]
}

/// `path` has a recognised audio file extension, compared case-insensitively.
pub open spec fn is_audio_path(path: Seq<char>) -> bool {
    match file_name_of(path) {
        Some(name) => match extension_of_name(name) {
            Some(ext) => audio_extensions().contains(ascii_lower_seq(ext)),
            None => false,
        },
        None => false,
    }
}

fn lower_chars(v: &Vec<char>, lo: usize, hi: usize) -> (r: Vec<char>)
    requires
        lo <= hi <= v.len(),
    ensures
        r@ == ascii_lower_seq(v@.subrange(lo as int, hi as int)),
{
    let mut r: Vec<char> = Vec::new();
    let mut i = lo;
    while i < hi
        invariant
            lo <= i <= hi <= v.len(),
            r@ == ascii_lower_seq(v@.subrange(lo as int, i as int)),
        decreases hi - i,
    {
        let c = v[i];
        let l = if 'A' <= c && c <= 'Z' {
            proof {
                assert((c as u32) + 32 <= 0x7f);
            }
            char_from_ascii(((c as u32) + 32) as u8)
        } else {
            c
        };
        r.push(l);
        i = i + 1;
        assert(r@ =~= ascii_lower_seq(v@.subrange(lo as int, i as int)));
    }
    r
}

/// The char with ASCII code `b`.
fn char_from_ascii(b: u8) -> (c: char)
    requires
        b < 128,
    ensures
        c == (b as u32) as char,
{
    b as char
}

/// Returns true if `path` has a recognised audio file extension.
pub fn is_audio_file(path: &str) -> (r: bool)
    ensures
        r == is_audio_path(path@),
{
    let v = chars_of(path);
    let (lo, hi) = match file_name_range(&v) {
        Some(r) => r,
        None => return false,
    };
    let (a, b) = match extension_range(&v, lo, hi) {
        Some(r) => r,
        None => return false,
    };
    let ext = lower_chars(&v, a, b);
    let known = [
        "mp3", "flac", "ogg", "opus", "wav", "aiff", "aif", "m4a", "wv", "ape",
    ];
    let mut k: usize = 0;
    while k < 10
        invariant
            k <= 10,
            v@ == path@,
            lo <= a <= b <= hi <= v.len(),
            file_name_of(path@) == Some(v@.subrange(lo as int, hi as int)),
            extension_of_name(v@.subrange(lo as int, hi as int)) == Some(
                v@.subrange(a as int, b as int),
            ),
            ext@ == ascii_lower_seq(v@.subrange(a as int, b as int)),
            forall|j: int| 0 <= j < 10 ==> (#[trigger] known@[j])@ == audio_extensions()[j],
            forall|j: int| 0 <= j < k ==> audio_extensions()[j] != ext@,
        decreases 10 - k,
    {
        let cand = chars_of(known[k]);
        if chars_eq(&cand, &ext) {
            assert(audio_extensions()[k as int] == ext@);
            assert(audio_extensions().contains(ext@));
            assert(file_name_of(path@) == Some(v@.subrange(lo as int, hi as int)));
            assert(extension_of_name(v@.subrange(lo as int, hi as int)) == Some(
                v@.subrange(a as int, b as int),
            ));
            return true;
        }
        k = k + 1;
    }
    proof {
        if audio_extensions().contains(ext@) {
            let j = choose|j: int| 0 <= j < audio_extensions().len() && audio_extensions()[j]
                == ext@;
            assert(audio_extensions().len() == 10);
        }
    }
    false
}

// ── Library roots ───────────────────────────────────────────────────────────

/// Two directory paths overlap: after trailing `/` are trimmed they are
/// equal, or one lies inside the other.
pub open spec fn dirs_overlap(p: Seq<char>, r: Seq<char>) -> bool {
    let pt = trim_end_char(p, '/');
    let rt = trim_end_char(r, '/');
    pt == rt || has_prefix(pt, rt.push('/')) || has_prefix(rt, pt.push('/'))
}

/// The message shown when a directory is already covered by a library root.
pub open spec fn duplicate_dir_message() -> Seq<char> {
    "This directory is already in your library."@
}

/// `v[..n]` followed by a `/`.
fn with_slash(v: &Vec<char>, n: usize) -> (r: Vec<char>)
    requires
        n <= v.len(),
    ensures
        r@ == v@.take(n as int).push('/'),
{
    let mut r: Vec<char> = Vec::new();
    let mut i: usize = 0;
    while i < n
        invariant
            i <= n <= v.len(),
            r@ == v@.take(i as int),
        decreases n - i,
    {
        r.push(v[i]);
        i = i + 1;
        assert(r@ =~= v@.take(i as int));
    }
    r.push('/');
    r
}

/// `true` iff the directories `p` and `r` overlap.
fn overlaps(p: &Vec<char>, r: &Vec<char>) -> (b: bool)
    ensures
        b == dirs_overlap(p@, r@),
{
    let pn = trimmed_end_len(p, '/');
    let rn = trimmed_end_len(r, '/');
    let pt = with_slash(p, pn);
    let rt = with_slash(r, rn);
    let mut pt_trim = pt.clone();
    pt_trim.pop();
    let mut rt_trim = rt.clone();
    rt_trim.pop();
    assert(pt_trim@ =~= trim_end_char(p@, '/'));
    assert(rt_trim@ =~= trim_end_char(r@, '/'));
    chars_eq(&pt_trim, &rt_trim) || starts_with(&pt_trim, &rt) || starts_with(&rt_trim, &pt)
}

/// Returns a message if `path` is already covered by any of the `existing`
/// library roots: the same directory, one inside it, or one containing it.
pub fn check_duplicate_dir(path: &str, existing: &Vec<String>) -> (r: Option<String>)
    ensures
        r is Some <==> exists|i: int|
            0 <= i < existing@.len() && dirs_overlap(path@, #[trigger] existing@[i]@),
        r matches Some(m) ==> m@ == duplicate_dir_message(),
{
    let p = chars_of(path);
    let mut i: usize = 0;
    while i < existing.len()
        invariant
            i <= existing.len(),
            p@ == path@,
            forall|j: int| 0 <= j < i ==> !dirs_overlap(path@, #[trigger] existing@[j]@),
        decreases existing.len() - i,
    {
        let r = chars_of(existing[i].as_str());
        if overlaps(&p, &r) {
            return Some(String::from_str("This directory is already in your library."));
        }
        i = i + 1;
    }
    None
}

/// Overlap of two directories does not depend on which one is the root.
pub proof fn lemma_dirs_overlap_symmetric(p: Seq<char>, r: Seq<char>)
    ensures
        dirs_overlap(p, r) == dirs_overlap(r, p),
{
}

/// A directory anywhere below a library root overlaps it, at any depth:
/// the root (trailing `/` trimmed), a `/`, and any further path that does
/// not end in `/` overlaps the root, both ways round.
pub proof fn lemma_nested_dir_overlaps(r: Seq<char>, tail: Seq<char>)
    requires
        tail.len() > 0,
        tail.last() != '/',
    ensures
        dirs_overlap(trim_end_char(r, '/') + seq!['/'] + tail, r),
        dirs_overlap(r, trim_end_char(r, '/') + seq!['/'] + tail),
{
    let rt = trim_end_char(r, '/');
    let p = rt + seq!['/'] + tail;
    assert(p.last() == tail.last());
    assert(trim_end_char(p, '/') == p);
    assert(p.take(rt.push('/').len() as int) =~= rt.push('/'));
    assert(has_prefix(p, rt.push('/')));
}

/// The directory path ending in `/`: unchanged when it already ends so,
/// otherwise with `/` appended, so that `"/foo"` does not match `"/foobar"`
/// as a prefix.
pub open spec fn dir_prefix_of(d: Seq<char>) -> Seq<char> {
    if d.len() > 0 && d.last() == '/' {
        d
    } else {
        d.push('/')
    }
}

/// The prefix that paths of tracks inside `dir` start with.
pub fn dir_prefix(dir: &str) -> (r: String)
    ensures
        r@ == dir_prefix_of(dir@),
{
    let v = chars_of(dir);
    let mut r = String::from_str(dir);
    if !(v.len() > 0 && v[v.len() - 1] == '/') {
        r.append("/");
        proof {
            reveal_strlit("/");
            assert(r@ =~= dir@.push('/'));
        }
    }
    r
}

// ── Parent directory ────────────────────────────────────────────────────────

/// The text of `Path::parent` of a path: the path without its final
/// component, `Some("")` for a relative path of one component, and `None`
/// for a root or the empty path (as on Unix).
pub uninterp spec fn std_path_parent(path: Seq<char>) -> Option<Seq<char>>;

/// Calls `std::path::Path::parent`. Claimed: the result is the named parent
/// text of `path`, and the empty path has no parent (as its documentation
/// states). The exact text, e.g. for repeated separators, is left unsaid.
#[verifier::external_body]
pub(crate) fn path_parent(path: &str) -> (r: Option<String>)
    ensures
        match r {
            Some(p) => std_path_parent(path@) == Some(p@),
            None => std_path_parent(path@) is None,
        },
        path@.len() == 0 ==> r is None,
{
    match std::path::Path::new(path).parent() {
        Some(p) => Some(p.to_string_lossy().into_owned()),
        None => None,
    }
}

} // verus!
