//! The project's database rules that are computed rather than queried: which
//! track listing a search asks for, the SQL `LIKE` pattern and `IN`
//! placeholders, where a track appended to a playlist goes, how stored
//! waveform blobs are split into samples, and which track an album-art URL
//! names.

use vstd::prelude::*;
use crate::num::{parse_i64, spec_parse_i64};
use crate::text::{chars_of, has_prefix, starts_with};
use crate::paths::segment_start;
use crate::settings::str_eq;

verus! {

// ── Track listings ──────────────────────────────────────────────────────────

/// A track listing of the library.
#[derive(Debug, Clone)]
pub enum TrackQuery {
    All,
    InDir(String),
    InPlaylist(i64),
    WithTag(i64),
    AllFiltered(String),
    InDirFiltered(String, String),
    InPlaylistFiltered(i64, String),
    WithTagFiltered(i64, String),
    /// An unknown view: no tracks.
    Nothing,
}

/// Picks the track listing for a search: the current view (0 = all tracks,
/// 1 = the directory `nav_dir`, 2 = playlist `nav_id`, 3 = tag `nav_id`),
/// filtered by `query` unless it is empty; any other view lists nothing.
pub fn plan_track_search(query: &str, nav_kind: u8, nav_id: i64, nav_dir: &str) -> (r: TrackQuery)
    ensures
        query@.len() == 0 ==> match nav_kind {
            0 => r is All,
            1 => (r matches TrackQuery::InDir(d) && d@ == nav_dir@),
            2 => (r matches TrackQuery::InPlaylist(p) && p == nav_id),
            3 => (r matches TrackQuery::WithTag(t) && t == nav_id),
            _ => r is Nothing,
        },
        query@.len() > 0 ==> match nav_kind {
            0 => (r matches TrackQuery::AllFiltered(q) && q@ == query@),
            1 => (r matches TrackQuery::InDirFiltered(d, q) && d@ == nav_dir@ && q@ == query@),
            2 => (r matches TrackQuery::InPlaylistFiltered(p, q) && p == nav_id && q@ == query@),
            3 => (r matches TrackQuery::WithTagFiltered(t, q) && t == nav_id && q@ == query@),
            _ => r is Nothing,
        },
{
    if query.unicode_len() == 0 {
        match nav_kind {
            0 => TrackQuery::All,
            1 => TrackQuery::InDir(nav_dir.to_string()),
            2 => TrackQuery::InPlaylist(nav_id),
            3 => TrackQuery::WithTag(nav_id),
            _ => TrackQuery::Nothing,
        }
    } else {
        match nav_kind {
            0 => TrackQuery::AllFiltered(query.to_string()),
            1 => TrackQuery::InDirFiltered(nav_dir.to_string(), query.to_string()),
            2 => TrackQuery::InPlaylistFiltered(nav_id, query.to_string()),
            3 => TrackQuery::WithTagFiltered(nav_id, query.to_string()),
            _ => TrackQuery::Nothing,
        }
    }
}

// ── Playlist tree moves ─────────────────────────────────────────────────────

/// The kind of sidebar node that a move request names.
#[derive(Debug, Clone, Copy, PartialEq, Eq, Structural)]
pub enum PlaylistNodeKind {
    Playlist,
    Group,
}

/// The node kind named by a move request's `node_type`: `"playlist"` or
/// `"group"`; any other text is refused (`None`).
pub fn parse_playlist_node_kind(node_type: &str) -> (r: Option<PlaylistNodeKind>)
    ensures
        r == (if node_type@ == "playlist"@ {
            Some(PlaylistNodeKind::Playlist)
        } else if node_type@ == "group"@ {
            Some(PlaylistNodeKind::Group)
        } else {
            None::<PlaylistNodeKind>
        }),
{
    if str_eq(node_type, "playlist") {
        Some(PlaylistNodeKind::Playlist)
    } else if str_eq(node_type, "group") {
        Some(PlaylistNodeKind::Group)
    } else {
        None
    }
}

// ── SQL text ────────────────────────────────────────────────────────────────

/// The `LIKE` pattern matching any text that contains `needle`.
pub fn like_pattern(needle: &str) -> (r: String)
    ensures
        r@ == seq!['%'] + needle@ + seq!['%'],
{
    let mut r = String::from_str("%");
    r.append(needle);
    r.append("%");
    proof {
        reveal_strlit("%");
        assert(r@ =~= seq!['%'] + needle@ + seq!['%']);
    }
    r
}

/// `n` question marks separated by `", "`.
pub open spec fn placeholders_text(n: nat) -> Seq<char>
    decreases n,
{
    if n == 0 {
        seq![]
    } else if n == 1 {
        seq!['?']
    } else {
        placeholders_text((n - 1) as nat) + seq![',', ' ', '?']
    }
}

/// The placeholder list of an SQL `IN (...)` clause for `n` values.
pub fn in_placeholders(n: usize) -> (r: String)
    ensures
        r@ == placeholders_text(n as nat),
{
    let mut r = String::new();
    let mut i: usize = 0;
    proof {
        reveal_strlit("?");
        reveal_strlit(", ?");
    }
    while i < n
        invariant
            i <= n,
            r@ == placeholders_text(i as nat),
        decreases n - i,
    {
        proof {
            reveal_strlit("?");
            reveal_strlit(", ?");
        }
        if i == 0 {
            r.append("?");
        } else {
            r.append(", ?");
        }
        i = i + 1;
        assert(r@ =~= placeholders_text(i as nat));
    }
    r
}

// ── Playlist positions ──────────────────────────────────────────────────────

/// The position for a track appended to a playlist whose largest position
/// is `max_position` (`None` for an empty playlist): one past the largest.
pub fn next_playlist_position(max_position: Option<i64>) -> (r: i64)
    requires
        max_position != Some(i64::MAX),
    ensures
        r == match max_position {
            Some(m) => m + 1,
            None => 0,
        },
        forall|p: i64| max_position == Some(p) ==> r > p,
{
    match max_position {
        Some(m) => m + 1,
        None => 0,
    }
}

// ── Stored waveforms ────────────────────────────────────────────────────────

/// Splits a frequency-band waveform blob into 12-byte buckets (three
/// little-endian `f32`: low, mid, high). A blob whose length is not a
/// multiple of 12 is in the older mono format and gives `None`.
pub fn split_band_blob(bytes: &Vec<u8>) -> (r: Option<Vec<[u8; 12]>>)
    ensures
        bytes.len() % 12 != 0 ==> r is None,
        bytes.len() % 12 == 0 ==> (r matches Some(v) && v.len() == bytes.len() / 12 && forall|
            i: int,
            j: int,
        | 0 <= i < v.len() && 0 <= j < 12 ==> #[trigger] v@[i]@[j] == bytes@[12 * i + j]),
{
    if bytes.len() % 12 != 0 {
        return None;
    }
    let n = bytes.len() / 12;
    let mut v: Vec<[u8; 12]> = Vec::new();
    let mut i: usize = 0;
    while i < n
        invariant
            i <= n,
            n * 12 == bytes.len(),
            v.len() == i,
            forall|a: int, j: int|
                0 <= a < i && 0 <= j < 12 ==> #[trigger] v@[a]@[j] == bytes@[12 * a + j],
        decreases n - i,
    {
        let b = 12 * i;
        let chunk: [u8; 12] = [
            bytes[b],
            bytes[b + 1],
            bytes[b + 2],
            bytes[b + 3],
            bytes[b + 4],
            bytes[b + 5],
            bytes[b + 6],
            bytes[b + 7],
            bytes[b + 8],
            bytes[b + 9],
            bytes[b + 10],
            bytes[b + 11],
        ];
        v.push(chunk);
        i = i + 1;
    }
    Some(v)
}

/// Splits a mono waveform blob into 4-byte samples (little-endian `f32`);
/// trailing bytes that do not fill a sample are ignored.
pub fn split_mono_blob(bytes: &Vec<u8>) -> (r: Vec<[u8; 4]>)
    ensures
        r.len() == bytes.len() / 4,
        forall|i: int, j: int|
            0 <= i < r.len() && 0 <= j < 4 ==> #[trigger] r@[i]@[j] == bytes@[4 * i + j],
{
    let n = bytes.len() / 4;
    let mut v: Vec<[u8; 4]> = Vec::new();
    let mut i: usize = 0;
    while i < n
        invariant
            i <= n,
            n == bytes.len() / 4,
            v.len() == i,
            forall|a: int, j: int|
                0 <= a < i && 0 <= j < 4 ==> #[trigger] v@[a]@[j] == bytes@[4 * a + j],
        decreases n - i,
    {
        let b = 4 * i;
        v.push([bytes[b], bytes[b + 1], bytes[b + 2], bytes[b + 3]]);
        i = i + 1;
    }
    v
}

// ── Album-art URLs ──────────────────────────────────────────────────────────

/// `s` with every leading repetition of `p` removed (as
/// `str::trim_start_matches` with a non-empty string pattern).
pub open spec fn trim_start_all(s: Seq<char>, p: Seq<char>) -> Seq<char>
    decreases s.len(),
{
    if p.len() > 0 && has_prefix(s, p) {
        trim_start_all(s.skip(p.len() as int), p)
    } else {
        s
    }
}

/// The track id an `art://localhost/{track_id}` URL names: the text after
/// the last `/`, once the `art://localhost/` and `art://localhost:` prefixes
/// are trimmed, read as an `i64`.
pub open spec fn art_url_track_id(url: Seq<char>) -> Option<i64> {
    let t = trim_start_all(trim_start_all(url, "art://localhost/"@), "art://localhost:"@);
    spec_parse_i64(t.subrange(segment_start(t), t.len() as int))
}

fn trim_start_all_exec(v: &Vec<char>, from: usize, p: &Vec<char>) -> (r: usize)
    requires
        from <= v.len(),
        p.len() > 0,
    ensures
        from <= r <= v.len(),
        v@.skip(r as int) == trim_start_all(v@.skip(from as int), p@),
{
    let mut i = from;
    while p.len() <= v.len() - i && prefix_at(v, i, p)
        invariant
            from <= i <= v.len(),
            p.len() > 0,
            trim_start_all(v@.skip(from as int), p@) == trim_start_all(v@.skip(i as int), p@),
        decreases v.len() - i,
    {
        proof {
            assert(has_prefix(v@.skip(i as int), p@));
            assert(v@.skip(i as int).skip(p.len() as int) =~= v@.skip(i + p.len()));
        }
        i = i + p.len();
    }
    proof {
        if !(p.len() <= v.len() - i) {
            assert(!has_prefix(v@.skip(i as int), p@));
        }
    }
    i
}

/// `v[i..]` starts with `p`.
fn prefix_at(v: &Vec<char>, i: usize, p: &Vec<char>) -> (r: bool)
    requires
        i + p.len() <= v.len(),
    ensures
        r == has_prefix(v@.skip(i as int), p@),
{
    let mut k: usize = 0;
    while k < p.len()
        invariant
            i + p.len() <= v.len(),
            k <= p.len(),
            forall|j: int| 0 <= j < k ==> v@[i + j] == p@[j],
        decreases p.len() - k,
    {
        if v[i + k] != p[k] {
            assert(v@.skip(i as int).take(p.len() as int)[k as int] != p@[k as int]);
            return false;
        }
        k = k + 1;
    }
    assert(v@.skip(i as int).take(p.len() as int) =~= p@);
    true
}

/// The track id named by an album-art URL, if any.
pub fn art_track_id(url: &str) -> (r: Option<i64>)
    ensures
        r == art_url_track_id(url@),
{
    let v = chars_of(url);
    let p1 = chars_of("art://localhost/");
    let p2 = chars_of("art://localhost:");
    proof {
        reveal_strlit("art://localhost/");
        reveal_strlit("art://localhost:");
        assert(v@.skip(0) =~= v@);
    }
    let a = trim_start_all_exec(&v, 0, &p1);
    let b = trim_start_all_exec(&v, a, &p2);
    // Start of the last `/`-separated segment.
    let mut k = v.len();
    assert(v@.skip(b as int).take(k - b) =~= v@.skip(b as int));
    while k > b && v[k - 1] != '/'
        invariant
            b <= k <= v.len(),
            segment_start(v@.skip(b as int)) == segment_start(v@.skip(b as int).take(k - b)),
        decreases k,
    {
        assert(v@.skip(b as int).take(k - b).drop_last() =~= v@.skip(b as int).take(k - b - 1));
        k = k - 1;
    }
    proof {
        let t = v@.skip(b as int);
        crate::paths::lemma_segment_start_bounds(t.take(k - b));
        assert(t.take((v.len() - b) as int) =~= t);
        assert(t.subrange(k - b, t.len() as int) =~= v@.subrange(k as int, v.len() as int));
    }
    let last = url.substring_char(k, v.len());
    parse_i64(last)
}

} // verus!
