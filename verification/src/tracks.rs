//! What the track list shows about single tracks: the expanded row (tags,
//! playlists, notes, `m:ss` duration) and the neighbour of the playing track.

use vstd::prelude::*;
use crate::model::{
    ExpandedPlaylistItemDto, ExpandedTagItemDto, ExpandedTrackDto, Playlist, Tag,
};
use crate::num::{decimal_text, digit_char, digit_str, push_decimal};

verus! {

/// `m:ss` for a whole number of seconds: minutes in shortest decimal form,
/// seconds as two digits.
pub open spec fn duration_text(total: nat) -> Seq<char> {
    let sec = total % 60;
    decimal_text(total / 60) + seq![':', digit_char(sec / 10), digit_char(sec % 10)]
}

/// Formats a duration of `total_secs` whole seconds as `m:ss`.
pub fn format_duration(total_secs: u64) -> (r: String)
    ensures
        r@ == duration_text(total_secs as nat),
{
    let mut s = String::new();
    push_decimal(&mut s, total_secs / 60);
    s.append(":");
    let sec = total_secs % 60;
    s.append(digit_str(sec / 10));
    s.append(digit_str(sec % 10));
    proof {
        reveal_strlit(":");
        assert(s@ =~= duration_text(total_secs as nat));
    }
    s
}

pub open spec fn tag_chip(t: Tag) -> ExpandedTagItemDto {
    ExpandedTagItemDto { id: t.id, name: t.name, color: t.color }
}

pub open spec fn playlist_chip(p: Playlist) -> ExpandedPlaylistItemDto {
    ExpandedPlaylistItemDto { id: p.id, name: p.name }
}

/// The tag chips of an expanded row, one per tag, in order.
pub fn tag_chips(tags: &Vec<Tag>) -> (r: Vec<ExpandedTagItemDto>)
    ensures
        r@ == tags@.map_values(|t: Tag| tag_chip(t)),
{
    let mut r: Vec<ExpandedTagItemDto> = Vec::new();
    let mut i: usize = 0;
    while i < tags.len()
        invariant
            i <= tags.len(),
            r@ == tags@.take(i as int).map_values(|t: Tag| tag_chip(t)),
        decreases tags.len() - i,
    {
        let t = &tags[i];
        r.push(ExpandedTagItemDto { id: t.id, name: t.name.clone(), color: t.color.clone() });
        i = i + 1;
        assert(r@ =~= tags@.take(i as int).map_values(|t: Tag| tag_chip(t)));
    }
    assert(tags@.take(tags.len() as int) =~= tags@);
    r
}

/// The playlist chips of an expanded row, one per playlist, in order.
pub fn playlist_chips(playlists: &Vec<Playlist>) -> (r: Vec<ExpandedPlaylistItemDto>)
    ensures
        r@ == playlists@.map_values(|p: Playlist| playlist_chip(p)),
{
    let mut r: Vec<ExpandedPlaylistItemDto> = Vec::new();
    let mut i: usize = 0;
    while i < playlists.len()
        invariant
            i <= playlists.len(),
            r@ == playlists@.take(i as int).map_values(|p: Playlist| playlist_chip(p)),
        decreases playlists.len() - i,
    {
        let p = &playlists[i];
        r.push(ExpandedPlaylistItemDto { id: p.id, name: p.name.clone() });
        i = i + 1;
        assert(r@ =~= playlists@.take(i as int).map_values(|p: Playlist| playlist_chip(p)));
    }
    assert(playlists@.take(playlists.len() as int) =~= playlists@);
    r
}

/// The expanded row of a track from its tags, playlists, stored notes (empty
/// when none) and whole-second duration (empty text when unknown).
pub fn expanded_track(
    tags: &Vec<Tag>,
    playlists: &Vec<Playlist>,
    notes: Option<String>,
    duration_secs: Option<u64>,
) -> (r: ExpandedTrackDto)
    ensures
        r.tags@ == tags@.map_values(|t: Tag| tag_chip(t)),
        r.playlists@ == playlists@.map_values(|p: Playlist| playlist_chip(p)),
        r.notes@ == match notes {
            Some(n) => n@,
            None => Seq::<char>::empty(),
        },
        r.duration_formatted@ == match duration_secs {
            Some(s) => duration_text(s as nat),
            None => Seq::<char>::empty(),
        },
{
    let notes = match notes {
        Some(n) => n,
        None => String::new(),
    };
    let duration_formatted = match duration_secs {
        Some(s) => format_duration(s),
        None => String::new(),
    };
    ExpandedTrackDto {
        tags: tag_chips(tags),
        playlists: playlist_chips(playlists),
        notes,
        duration_formatted,
    }
}

// ── Next / previous track ───────────────────────────────────────────────────

/// Index of the first `x` in `s`, or -1.
pub open spec fn first_index_i32(s: Seq<i32>, x: i32) -> int
    decreases s.len(),
{
    if s.len() == 0 {
        -1
    } else if s[0] == x {
        0
    } else {
        let r = first_index_i32(s.drop_first(), x);
        if r < 0 {
            -1
        } else {
            r + 1
        }
    }
}

proof fn lemma_first_index_i32(s: Seq<i32>, x: i32)
    ensures
        -1 <= first_index_i32(s, x) < s.len(),
        first_index_i32(s, x) >= 0 ==> s[first_index_i32(s, x)] == x,
        forall|j: int| 0 <= j < first_index_i32(s, x) ==> s[j] != x,
        first_index_i32(s, x) == -1 ==> forall|j: int| 0 <= j < s.len() ==> s[j] != x,
    decreases s.len(),
{
    if s.len() > 0 && s[0] != x {
        lemma_first_index_i32(s.drop_first(), x);
        assert forall|j: int| 0 <= j < first_index_i32(s, x) implies s[j] != x by {
            if j > 0 {
                assert(s[j] == s.drop_first()[j - 1]);
            }
        }
        if first_index_i32(s, x) == -1 {
            assert forall|j: int| 0 <= j < s.len() implies s[j] != x by {
                if j > 0 {
                    assert(s[j] == s.drop_first()[j - 1]);
                }
            }
        }
    }
}

/// The id `offset` places after `current_id` in `ids`, wrapping around; the
/// first occurrence of `current_id` counts.
pub open spec fn adjacent_id(ids: Seq<i32>, current_id: i32, offset: i32) -> Option<i32> {
    let i = first_index_i32(ids, current_id);
    if ids.len() == 0 || i < 0 {
        None
    } else {
        Some(ids[(i + offset) % (ids.len() as int)])
    }
}

proof fn lemma_negative_mod(s: int, n: int)
    requires
        n > 0,
        s < 0,
    ensures
        s % n == (if (-s) % n == 0 {
            0
        } else {
            n - (-s) % n
        }),
{
    let q = (-s) % n;
    let d = (-s) / n;
    vstd::arithmetic::div_mod::lemma_fundamental_div_mod(-s, n);
    assert(-s == n * d + q);
    assert(0 <= q < n);
    if q == 0 {
        assert(s == n * (-d)) by (nonlinear_arith)
            requires
                -s == n * d,
        ;
        vstd::arithmetic::div_mod::lemma_mod_multiples_basic(-d, n);
        assert((-d) * n == n * (-d)) by (nonlinear_arith);
    } else {
        assert(s == n * (-d - 1) + (n - q)) by (nonlinear_arith)
            requires
                -s == n * d + q,
        ;
        vstd::arithmetic::div_mod::lemma_mod_multiples_vanish(-d - 1, n - q, n);
        vstd::arithmetic::div_mod::lemma_small_mod((n - q) as nat, n as nat);
    }
}

/// Finds the id of the track adjacent to `current_id` in the list `ids`:
/// `offset` is +1 for next and -1 for previous, wrapping around.
pub fn find_adjacent_track(ids: &Vec<i32>, current_id: i32, offset: i32) -> (r: Option<i32>)
    requires
        ids.len() + offset <= i32::MAX + 1,
    ensures
        r == adjacent_id(ids@, current_id, offset),
{
    let len = ids.len();
    if len == 0 {
        return None;
    }
    proof {
        lemma_first_index_i32(ids@, current_id);
    }
    let mut k: usize = 0;
    while k < len && ids[k] != current_id
        invariant
            len == ids.len(),
            k <= len,
            forall|j: int| 0 <= j < k ==> ids@[j] != current_id,
        decreases len - k,
    {
        k = k + 1;
    }
    if k == len {
        return None;
    }
    proof {
        if first_index_i32(ids@, current_id) != k {
            assert(ids@[first_index_i32(ids@, current_id)] == current_id);
        }
    }
    let s: i64 = k as i64 + offset as i64;
    let n: i64 = len as i64;
    let m: i64 = if s >= 0 {
        s % n
    } else {
        let q = (0 - s) % n;
        if q == 0 {
            0
        } else {
            n - q
        }
    };
    proof {
        if s < 0 {
            lemma_negative_mod(s as int, n as int);
        }
    }
    Some(ids[m as usize])
}


/// No id occurs twice in `ids`.
pub open spec fn distinct_ids(ids: Seq<i32>) -> bool {
    forall|a: int, b: int| 0 <= a < b < ids.len() ==> ids[a] != ids[b]
}

/// Going to the next track and then to the previous one comes back to the
/// track one started from, when the list holds it and holds no id twice.
pub proof fn lemma_next_then_previous(ids: Seq<i32>, current_id: i32)
    requires
        ids.contains(current_id),
        distinct_ids(ids),
    ensures
        adjacent_id(ids, current_id, 1) is Some,
        adjacent_id(ids, adjacent_id(ids, current_id, 1).unwrap(), -1i32) == Some(current_id),
{
    lemma_first_index_i32(ids, current_id);
    let n = ids.len() as int;
    let i = first_index_i32(ids, current_id);
    assert(i >= 0);
    let j = (i + 1) % n;
    let next = ids[j];
    lemma_first_index_i32(ids, next);
    let f = first_index_i32(ids, next);
    if f < 0 {
        assert(ids[j] == next);
    } else if f != j {
        assert(ids[f] == ids[j]);
    }
    assert(f == j);
    if i + 1 < n {
        vstd::arithmetic::div_mod::lemma_small_mod((i + 1) as nat, n as nat);
        vstd::arithmetic::div_mod::lemma_small_mod(i as nat, n as nat);
    } else {
        vstd::arithmetic::div_mod::lemma_mod_self_0(n);
        assert(j == 0);
        vstd::arithmetic::div_mod::lemma_mod_multiples_vanish(-1, n - 1, n);
        vstd::arithmetic::div_mod::lemma_small_mod((n - 1) as nat, n as nat);
        assert((j + (-1)) % n == n - 1);
    }
}

} // verus!
