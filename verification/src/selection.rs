//! Track selection in the track list (plain, shift and meta clicks), the tag
//! panel shown for a selection, and the plan that toggles a tag across it.

use vstd::prelude::*;
use std::collections::HashSet;
use vstd::std_specs::iter::IteratorSpec;
use crate::model::{SelectedTagDto, SelectionChangedDto, Tag};

verus! {

broadcast use vstd::std_specs::hash::group_hash_axioms;

// ── Small sequence helpers ──────────────────────────────────────────────────

/// Index of the first `x` in `s`, or -1.
pub open spec fn index_of_first(s: Seq<i64>, x: i64) -> int
    decreases s.len(),
{
    if s.len() == 0 {
        -1
    } else if s[0] == x {
        0
    } else {
        let r = index_of_first(s.drop_first(), x);
        if r < 0 {
            -1
        } else {
            r + 1
        }
    }
}

pub proof fn lemma_index_of_first(s: Seq<i64>, x: i64)
    ensures
        -1 <= index_of_first(s, x) < s.len(),
        index_of_first(s, x) >= 0 ==> s[index_of_first(s, x)] == x,
        index_of_first(s, x) == -1 <==> !s.contains(x),
        forall|j: int| 0 <= j < index_of_first(s, x) ==> s[j] != x,
    decreases s.len(),
{
    if s.len() > 0 && s[0] != x {
        lemma_index_of_first(s.drop_first(), x);
        if s.contains(x) {
            let j = choose|j: int| 0 <= j < s.len() && s[j] == x;
            assert(s.drop_first()[j - 1] == x);
        }
        if s.drop_first().contains(x) {
            let j = choose|j: int| 0 <= j < s.drop_first().len() && s.drop_first()[j] == x;
            assert(s[j + 1] == x);
        }
        assert forall|j: int| 0 <= j < index_of_first(s, x) implies s[j] != x by {
            if j > 0 {
                assert(s[j] == s.drop_first()[j - 1]);
            }
        }
    }
}

/// Position of the first `x` in `v`.
pub fn position(v: &Vec<i64>, x: i64) -> (r: Option<usize>)
    ensures
        match r {
            Some(i) => i as int == index_of_first(v@, x),
            None => index_of_first(v@, x) == -1,
        },
{
    proof {
        lemma_index_of_first(v@, x);
    }
    let mut i: usize = 0;
    while i < v.len()
        invariant
            i <= v.len(),
            forall|j: int| 0 <= j < i ==> v@[j] != x,
            -1 <= index_of_first(v@, x) < v@.len(),
            index_of_first(v@, x) >= 0 ==> v@[index_of_first(v@, x)] == x,
            forall|j: int| 0 <= j < index_of_first(v@, x) ==> v@[j] != x,
            index_of_first(v@, x) == -1 <==> !v@.contains(x),
        decreases v.len() - i,
    {
        if v[i] == x {
            return Some(i);
        }
        i = i + 1;
    }
    None
}

/// `true` iff `x` occurs in `v`.
pub fn contains_id(v: &Vec<i64>, x: i64) -> (r: bool)
    ensures
        r == v@.contains(x),
{
    proof {
        lemma_index_of_first(v@, x);
    }
    position(v, x).is_some()
}

/// Adds `x` to `v` unless it is already there.
fn insert_unique(v: &mut Vec<i64>, x: i64)
    requires
        old(v)@.no_duplicates(),
    ensures
        final(v)@.no_duplicates(),
        final(v)@.to_set() == old(v)@.to_set().insert(x),
{
    if !contains_id(v, x) {
        v.push(x);
        proof {
            old(v)@.lemma_push_to_set_commute(x);
            assert forall|a: int, b: int|
                0 <= a < v@.len() && 0 <= b < v@.len() && a != b implies v@[a] != v@[b] by {
                if a < old(v)@.len() && b < old(v)@.len() {
                    assert(v@[a] == old(v)@[a] && v@[b] == old(v)@[b]);
                } else if a < old(v)@.len() {
                    assert(v@[a] == old(v)@[a]);
                } else {
                    assert(v@[b] == old(v)@[b]);
                }
            }
        }
    } else {
        assert(old(v)@.to_set().insert(x) =~= old(v)@.to_set());
    }
}

/// The distinct values of `v`, in order of first occurrence.
pub fn unique_ids(v: &Vec<i64>) -> (r: Vec<i64>)
    ensures
        r@.no_duplicates(),
        r@.to_set() == v@.to_set(),
{
    let mut r: Vec<i64> = Vec::new();
    let mut i: usize = 0;
    while i < v.len()
        invariant
            i <= v.len(),
            r@.no_duplicates(),
            r@.to_set() == v@.take(i as int).to_set(),
        decreases v.len() - i,
    {
        insert_unique(&mut r, v[i]);
        proof {
            assert(v@.take(i + 1) =~= v@.take(i as int).push(v@[i as int]));
            v@.take(i as int).lemma_push_to_set_commute(v@[i as int]);
        }
        i = i + 1;
    }
    assert(v@.take(v.len() as int) =~= v@);
    r
}

// ── Selection ───────────────────────────────────────────────────────────────

/// The selected tracks and the anchor of the last plain or meta click.
pub struct SelectionState {
    pub selected: Set<i64>,
    pub last: Option<i64>,
}

/// The selection after clicking track `id` in a list showing `ids`:
/// a meta click toggles `id`; a shift click selects the contiguous range
/// between the anchor (or `id` when there is none) and `id`, if both are in
/// the list; a plain click selects `id` alone. Plain clicks, and meta clicks
/// that add a track, move the anchor to `id`.
pub open spec fn click_result(
    s: SelectionState,
    id: i64,
    shift: bool,
    meta: bool,
    ids: Seq<i64>,
) -> SelectionState {
    if meta {
        if s.selected.contains(id) {
            SelectionState { selected: s.selected.remove(id), last: s.last }
        } else {
            SelectionState { selected: s.selected.insert(id), last: Some(id) }
        }
    } else if shift {
        let anchor = match s.last {
            Some(a) => a,
            None => id,
        };
        let a = index_of_first(ids, anchor);
        let b = index_of_first(ids, id);
        if a >= 0 && b >= 0 {
            let lo = if a <= b { a } else { b };
            let hi = if a <= b { b } else { a };
            SelectionState { selected: ids.subrange(lo, hi + 1).to_set(), last: s.last }
        } else {
            s
        }
    } else {
        SelectionState { selected: Set::empty().insert(id), last: Some(id) }
    }
}

/// The ids of `s`, each once, in the order the set is walked.
fn set_ids(s: &HashSet<i64>) -> (r: Vec<i64>)
    ensures
        r@.to_set() == s@,
        r@.no_duplicates(),
{
    let mut r: Vec<i64> = Vec::new();
    let ghost keys = vstd::std_specs::hash::spec_hash_keys_iter(s).remaining().unref();
    for k in it: s.iter()
        invariant
            keys.to_set() == s@,
            keys.no_duplicates(),
            it.seq().unref() == keys,
            r@ == keys.take(it.index() as int),
    {
        r.push(*k);
        assert(r@ =~= keys.take(it.index() + 1));
    }
    assert(keys.take(keys.len() as int) =~= keys);
    r
}

/// The current selection of the track list.
pub struct Selection {
    ids: HashSet<i64>,
    last: Option<i64>,
}

impl View for Selection {
    type V = SelectionState;

    closed spec fn view(&self) -> SelectionState {
        SelectionState { selected: self.ids@, last: self.last }
    }
}

impl Selection {
    /// Nothing selected and no anchor.
    pub fn new() -> (r: Self)
        ensures
            r@.selected == Set::<i64>::empty(),
            r@.last is None,
    {
        Selection { ids: HashSet::new(), last: None }
    }

    /// The selected track ids, each once.
    pub fn selected_ids(&self) -> (r: Vec<i64>)
        ensures
            r@.no_duplicates(),
            r@.to_set() == self@.selected,
    {
        set_ids(&self.ids)
    }

    /// Applies a click on track `id` in the list `current_ids` and returns
    /// the selected ids, each once.
    pub fn click(&mut self, id: i64, shift: bool, meta: bool, current_ids: &Vec<i64>) -> (r: Vec<
        i64,
    >)
        ensures
            final(self)@ == click_result(old(self)@, id, shift, meta, current_ids@),
            r@.no_duplicates(),
            r@.to_set() == final(self)@.selected,
    {
        if meta {
            if self.ids.contains(&id) {
                self.ids.remove(&id);
            } else {
                self.ids.insert(id);
                self.last = Some(id);
            }
        } else if shift {
            let anchor = match self.last {
                Some(a) => a,
                None => id,
            };
            let a = position(current_ids, anchor);
            let b = position(current_ids, id);
            proof {
                lemma_index_of_first(current_ids@, anchor);
                lemma_index_of_first(current_ids@, id);
            }
            match (a, b) {
                (Some(a), Some(b)) => {
                    let lo = if a <= b { a } else { b };
                    let hi = if a <= b { b } else { a };
                    self.ids.clear();
                    assert(current_ids@.subrange(lo as int, lo as int).to_set() =~= Set::<
                        i64,
                    >::empty());
                    let mut k = lo;
                    while k <= hi
                        invariant
                            lo <= k <= hi + 1,
                            hi < current_ids.len(),
                            self.ids@ == current_ids@.subrange(lo as int, k as int).to_set(),
                            self.last == old(self).last,
                        decreases hi + 1 - k,
                    {
                        self.ids.insert(current_ids[k]);
                        proof {
                            assert(current_ids@.subrange(lo as int, k + 1) =~= current_ids@.subrange(
                                lo as int,
                                k as int,
                            ).push(current_ids@[k as int]));
                            current_ids@.subrange(lo as int, k as int).lemma_push_to_set_commute(
                                current_ids@[k as int],
                            );
                        }
                        k = k + 1;
                    }
                },
                _ => {},
            }
        } else {
            self.ids.clear();
            self.ids.insert(id);
            self.last = Some(id);
            assert(self.ids@ =~= Set::<i64>::empty().insert(id));
        }
        set_ids(&self.ids)
    }
}

/// A plain click selects exactly the clicked track.
pub proof fn lemma_plain_click_selects_one(s: SelectionState, id: i64, ids: Seq<i64>)
    ensures
        click_result(s, id, false, false, ids).selected == Set::<i64>::empty().insert(id),
        click_result(s, id, false, false, ids).last == Some(id),
{
}

/// Two meta clicks on the same track restore the selected set.
pub proof fn lemma_meta_click_twice(s: SelectionState, id: i64, ids: Seq<i64>)
    ensures
        click_result(click_result(s, id, false, true, ids), id, false, true, ids).selected
            == s.selected,
{
    if s.selected.contains(id) {
        assert(s.selected.remove(id).insert(id) =~= s.selected);
    } else {
        assert(s.selected.insert(id).remove(id) =~= s.selected);
    }
}

/// A meta click on a track that is not selected adds it to the selection
/// and makes it the anchor of later shift clicks.
pub proof fn lemma_meta_click_adds_and_anchors(s: SelectionState, id: i64, ids: Seq<i64>)
    requires
        !s.selected.contains(id),
    ensures
        click_result(s, id, false, true, ids).selected == s.selected.insert(id),
        click_result(s, id, false, true, ids).last == Some(id),
{
}

/// A meta click on a selected track removes it and leaves the anchor where
/// it was.
pub proof fn lemma_meta_click_removes_keeps_anchor(s: SelectionState, id: i64, ids: Seq<i64>)
    requires
        s.selected.contains(id),
    ensures
        click_result(s, id, false, true, ids).selected == s.selected.remove(id),
        click_result(s, id, false, true, ids).last == s.last,
{
}

/// The tracks listed between positions `i` and `j` of `ids`, both included.
pub open spec fn listed_between(ids: Seq<i64>, i: int, j: int, x: i64) -> bool {
    exists|k: int| (i <= k <= j || j <= k <= i) && 0 <= k < ids.len() && ids[k] == x
}

/// A shift click selects exactly the tracks listed between the anchor and
/// the clicked track (each at its first place in the list), both included,
/// and keeps the anchor.
pub proof fn lemma_shift_click_selects_exact_range(
    s: SelectionState,
    anchor: i64,
    id: i64,
    ids: Seq<i64>,
)
    requires
        s.last == Some(anchor),
        ids.contains(anchor),
        ids.contains(id),
    ensures
        click_result(s, id, true, false, ids).last == s.last,
        forall|x: i64|
            #[trigger] click_result(s, id, true, false, ids).selected.contains(x) <==> listed_between(
                ids,
                index_of_first(ids, anchor),
                index_of_first(ids, id),
                x,
            ),
{
    lemma_index_of_first(ids, anchor);
    lemma_index_of_first(ids, id);
    let a = index_of_first(ids, anchor);
    let b = index_of_first(ids, id);
    let lo = if a <= b { a } else { b };
    let hi = if a <= b { b } else { a };
    let r = ids.subrange(lo, hi + 1);
    assert forall|x: i64| #[trigger] r.to_set().contains(x) <==> listed_between(ids, a, b, x) by {
        if r.to_set().contains(x) {
            let m = choose|m: int| 0 <= m < r.len() && r[m] == x;
            assert(ids[lo + m] == x);
        }
        if listed_between(ids, a, b, x) {
            let k = choose|k: int| (a <= k <= b || b <= k <= a) && 0 <= k < ids.len() && ids[k] == x;
            assert(r[k - lo] == x);
            assert(r.contains(x));
        }
    }
}

/// After a meta click adds a track, a shift click selects exactly the tracks
/// listed between that track and the one shift-clicked.
pub proof fn lemma_meta_then_shift_ranges_from_new_anchor(
    s: SelectionState,
    first: i64,
    second: i64,
    ids: Seq<i64>,
)
    requires
        !s.selected.contains(first),
        ids.contains(first),
        ids.contains(second),
    ensures
        forall|x: i64|
            #[trigger] click_result(click_result(s, first, false, true, ids), second, true, false, ids).selected.contains(
                x,
            ) <==> listed_between(ids, index_of_first(ids, first), index_of_first(ids, second), x),
{
    lemma_meta_click_adds_and_anchors(s, first, ids);
    lemma_shift_click_selects_exact_range(click_result(s, first, false, true, ids), first, second, ids);
}

/// A shift click after a plain click selects every track listed between the
/// two clicked tracks, both included.
pub proof fn lemma_shift_click_selects_range(
    s: SelectionState,
    first: i64,
    second: i64,
    ids: Seq<i64>,
)
    requires
        ids.contains(first),
        ids.contains(second),
    ensures
        ({
            let after = click_result(click_result(s, first, false, false, ids), second, true, false, ids);
            let a = index_of_first(ids, first);
            let b = index_of_first(ids, second);
            &&& after.selected.contains(first)
            &&& after.selected.contains(second)
            &&& forall|k: int|
                (a <= k <= b || b <= k <= a) ==> after.selected.contains(#[trigger] ids[k])
        }),
{
    lemma_index_of_first(ids, first);
    lemma_index_of_first(ids, second);
    let a = index_of_first(ids, first);
    let b = index_of_first(ids, second);
    let lo = if a <= b { a } else { b };
    let hi = if a <= b { b } else { a };
    let r = ids.subrange(lo, hi + 1);
    assert forall|k: int| lo <= k <= hi implies r.to_set().contains(#[trigger] ids[k]) by {
        assert(r[k - lo] == ids[k]);
    }
    assert(ids[a] == first);
    assert(ids[b] == second);
}

// ── Tag panel for a selection ───────────────────────────────────────────────

/// How many `(track, tag)` rows of `track_tags` give tag `tag_id` to a
/// selected track.
pub open spec fn tag_hits(track_tags: Seq<(i64, Tag)>, sel: Set<i64>, tag_id: i64) -> nat {
    track_tags.filter(|p: (i64, Tag)| sel.contains(p.0) && p.1.id == tag_id).len()
}

/// The panel entry for `tag`, given how many selected tracks carry it and
/// how many tracks are selected.
pub open spec fn tag_item(tag: Tag, hits: nat, total: nat) -> SelectedTagDto {
    SelectedTagDto {
        id: tag.id,
        name: tag.name,
        color: tag.color,
        assigned: hits == total && total > 0,
        partial: hits > 0 && hits < total,
    }
}

/// The panel entries, one per tag of `all_tags`, for the selection `sel`.
pub open spec fn tag_panel(
    all_tags: Seq<Tag>,
    track_tags: Seq<(i64, Tag)>,
    sel: Set<i64>,
) -> Seq<SelectedTagDto> {
    all_tags.map_values(|t: Tag| tag_item(t, tag_hits(track_tags, sel, t.id), sel.len()))
}

fn count_hits(track_tags: &Vec<(i64, Tag)>, sel: &Vec<i64>, tag_id: i64) -> (n: usize)
    ensures
        n == tag_hits(track_tags@, sel@.to_set(), tag_id),
{
    let ghost pred = |p: (i64, Tag)| sel@.to_set().contains(p.0) && p.1.id == tag_id;
    let mut n: usize = 0;
    let mut i: usize = 0;
    while i < track_tags.len()
        invariant
            i <= track_tags.len(),
            n == track_tags@.take(i as int).filter(pred).len(),
            pred == (|p: (i64, Tag)| sel@.to_set().contains(p.0) && p.1.id == tag_id),
            n <= i,
        decreases track_tags.len() - i,
    {
        let (tid, ref t) = track_tags[i];
        let hit = contains_id(sel, tid) && t.id == tag_id;
        proof {
            reveal(Seq::filter);
            assert(track_tags@.take(i + 1).drop_last() =~= track_tags@.take(i as int));
            assert(track_tags@.take(i + 1).last() == track_tags@[i as int]);
            assert(sel@.contains(tid) == sel@.to_set().contains(tid));
            assert(tid == track_tags@[i as int].0 && t.id == track_tags@[i as int].1.id);
            assert(hit == pred(track_tags@[i as int]));
        }
        if hit {
            n = n + 1;
        }
        i = i + 1;
    }
    assert(track_tags@.take(track_tags.len() as int) =~= track_tags@);
    n
}

/// The tag panel for the tracks `selected_ids`: every tag of `all_tags`, in
/// order, marked assigned when every selected track carries it and partial
/// when some but not all do. `track_tags` lists `(track, tag)` assignments.
pub fn selected_tag_items(
    all_tags: &Vec<Tag>,
    track_tags: &Vec<(i64, Tag)>,
    selected_ids: &Vec<i64>,
) -> (r: Vec<SelectedTagDto>)
    ensures
        r@ == tag_panel(all_tags@, track_tags@, selected_ids@.to_set()),
{
    let sel = unique_ids(selected_ids);
    let total = sel.len();
    proof {
        sel@.unique_seq_to_set();
    }
    let ghost want = tag_panel(all_tags@, track_tags@, selected_ids@.to_set());
    let mut r: Vec<SelectedTagDto> = Vec::new();
    let mut i: usize = 0;
    while i < all_tags.len()
        invariant
            i <= all_tags.len(),
            sel@.to_set() == selected_ids@.to_set(),
            total == selected_ids@.to_set().len(),
            want == tag_panel(all_tags@, track_tags@, selected_ids@.to_set()),
            r@ == want.take(i as int),
        decreases all_tags.len() - i,
    {
        let tag = &all_tags[i];
        let hits = count_hits(track_tags, &sel, tag.id);
        r.push(SelectedTagDto {
            id: tag.id,
            name: tag.name.clone(),
            color: tag.color.clone(),
            assigned: hits == total && total > 0,
            partial: hits > 0 && hits < total,
        });
        i = i + 1;
        assert(r@ =~= want.take(i as int));
    }
    assert(want.take(all_tags.len() as int) =~= want);
    r
}

/// No tag is shown both assigned and partial.
pub proof fn lemma_assigned_excludes_partial(
    all_tags: Seq<Tag>,
    track_tags: Seq<(i64, Tag)>,
    sel: Set<i64>,
    i: int,
)
    requires
        0 <= i < all_tags.len(),
    ensures
        !(tag_panel(all_tags, track_tags, sel)[i].assigned && tag_panel(
            all_tags,
            track_tags,
            sel,
        )[i].partial),
{
}

/// Applies a click to the selection and returns the new selection with its
/// tag panel; `track_tags` must list the tag assignments of the selected
/// tracks after the click.
pub fn selection_changed(
    selected_ids: Vec<i64>,
    all_tags: &Vec<Tag>,
    track_tags: &Vec<(i64, Tag)>,
) -> (r: SelectionChangedDto)
    ensures
        r.selected_ids@ == selected_ids@,
        r.tag_items@ == tag_panel(all_tags@, track_tags@, selected_ids@.to_set()),
{
    let tag_items = selected_tag_items(all_tags, track_tags, &selected_ids);
    SelectionChangedDto { selected_ids, tag_items }
}

// ── Toggling a tag over a selection ─────────────────────────────────────────

/// A change to one track's tags.
#[derive(Debug, Clone, Copy, PartialEq, Eq, Structural)]
pub enum TagChange {
    Assign { track_id: i64 },
    Unassign { track_id: i64 },
}

/// The tracks that `track_tags` shows carrying tag `tag_id`.
pub open spec fn tracks_with_tag(track_tags: Seq<(i64, Tag)>, tag_id: i64) -> Set<i64> {
    track_tags.filter(|p: (i64, Tag)| p.1.id == tag_id).map_values(|p: (i64, Tag)| p.0).to_set()
}

/// The change for each selected track in turn: when every selected track
/// already has the tag it is removed from all of them, otherwise it is added
/// to those that lack it.
pub open spec fn toggle_steps(sel: Seq<i64>, have: Set<i64>, all_have: bool) -> Seq<TagChange>
    decreases sel.len(),
{
    if sel.len() == 0 {
        seq![]
    } else {
        let t = sel.last();
        let step: Seq<TagChange> = if all_have {
            seq![TagChange::Unassign { track_id: t }]
        } else if !have.contains(t) {
            seq![TagChange::Assign { track_id: t }]
        } else {
            seq![]
        };
        toggle_steps(sel.drop_last(), have, all_have) + step
    }
}

/// The changes that toggle tag `tag_id` over the selection `sel_ids`, where
/// `track_tags` lists the current assignments of the selected tracks. The
/// tag counts as present on every selected track when as many distinct
/// tracks carry it as there are entries in `sel_ids`.
pub open spec fn toggle_plan(tag_id: i64, sel_ids: Seq<i64>, track_tags: Seq<(i64, Tag)>) -> Seq<
    TagChange,
> {
    let have = tracks_with_tag(track_tags, tag_id);
    toggle_steps(sel_ids, have, have.len() == sel_ids.len())
}

/// Plans the tag changes of toggling `tag_id` over the selection.
pub fn plan_tag_toggle(tag_id: i64, sel_ids: &Vec<i64>, track_tags: &Vec<(i64, Tag)>) -> (r: Vec<
    TagChange,
>)
    ensures
        r@ == toggle_plan(tag_id, sel_ids@, track_tags@),
{
    let ghost tagged = track_tags@.filter(|p: (i64, Tag)| p.1.id == tag_id).map_values(
        |p: (i64, Tag)| p.0,
    );
    // Distinct tracks that carry the tag.
    let mut have: Vec<i64> = Vec::new();
    let mut i: usize = 0;
    while i < track_tags.len()
        invariant
            i <= track_tags.len(),
            have@.no_duplicates(),
            have@.to_set() == track_tags@.take(i as int).filter(|p: (i64, Tag)| p.1.id == tag_id).map_values(
                |p: (i64, Tag)| p.0,
            ).to_set(),
        decreases track_tags.len() - i,
    {
        let (tid, ref t) = track_tags[i];
        let ghost prev = track_tags@.take(i as int).filter(|p: (i64, Tag)| p.1.id == tag_id);
        proof {
            reveal(Seq::filter);
            assert(track_tags@.take(i + 1).drop_last() =~= track_tags@.take(i as int));
            assert(track_tags@.take(i + 1).last() == track_tags@[i as int]);
        }
        if t.id == tag_id {
            insert_unique(&mut have, tid);
            proof {
                let cur = track_tags@.take(i + 1).filter(|p: (i64, Tag)| p.1.id == tag_id);
                assert(cur == prev.push(track_tags@[i as int]));
                assert(cur.map_values(|p: (i64, Tag)| p.0) =~= prev.map_values(|p: (i64, Tag)| p.0).push(
                    tid,
                ));
                prev.map_values(|p: (i64, Tag)| p.0).lemma_push_to_set_commute(tid);
            }
        }
        i = i + 1;
    }
    assert(track_tags@.take(track_tags.len() as int) =~= track_tags@);
    proof {
        have@.unique_seq_to_set();
    }
    let all_have = have.len() == sel_ids.len();
    let ghost have_set = tracks_with_tag(track_tags@, tag_id);
    let mut r: Vec<TagChange> = Vec::new();
    let mut k: usize = 0;
    while k < sel_ids.len()
        invariant
            k <= sel_ids.len(),
            have@.to_set() == have_set,
            r@ == toggle_steps(sel_ids@.take(k as int), have_set, all_have),
        decreases sel_ids.len() - k,
    {
        let t = sel_ids[k];
        proof {
            assert(sel_ids@.take(k + 1).drop_last() =~= sel_ids@.take(k as int));
            assert(sel_ids@.take(k + 1).last() == t);
            assert(have@.contains(t) == have_set.contains(t));
        }
        if all_have {
            r.push(TagChange::Unassign { track_id: t });
        } else if !contains_id(&have, t) {
            r.push(TagChange::Assign { track_id: t });
        }
        k = k + 1;
        assert(r@ =~= toggle_steps(sel_ids@.take(k as int), have_set, all_have));
    }
    assert(sel_ids@.take(sel_ids.len() as int) =~= sel_ids@);
    r
}

/// The `(track, tag)` assignments after the changes for tag `tag_id`.
pub open spec fn apply_changes(a: Set<(i64, i64)>, tag_id: i64, cs: Seq<TagChange>) -> Set<
    (i64, i64),
>
    decreases cs.len(),
{
    if cs.len() == 0 {
        a
    } else {
        let prev = apply_changes(a, tag_id, cs.drop_last());
        match cs.last() {
            TagChange::Assign { track_id } => prev.insert((track_id, tag_id)),
            TagChange::Unassign { track_id } => prev.remove((track_id, tag_id)),
        }
    }
}

proof fn lemma_apply_steps(
    a: Set<(i64, i64)>,
    tag_id: i64,
    sel: Seq<i64>,
    have: Set<i64>,
    all_have: bool,
)
    ensures
        forall|t: i64, g: i64|
            #[trigger] apply_changes(a, tag_id, toggle_steps(sel, have, all_have)).contains((t, g))
                == if g == tag_id && sel.contains(t) {
                if all_have {
                    false
                } else if have.contains(t) {
                    a.contains((t, g))
                } else {
                    true
                }
            } else {
                a.contains((t, g))
            },
    decreases sel.len(),
{
    if sel.len() > 0 {
        let rest = sel.drop_last();
        let x = sel.last();
        lemma_apply_steps(a, tag_id, rest, have, all_have);
        let step: Seq<TagChange> = if all_have {
            seq![TagChange::Unassign { track_id: x }]
        } else if !have.contains(x) {
            seq![TagChange::Assign { track_id: x }]
        } else {
            seq![]
        };
        let steps = toggle_steps(sel, have, all_have);
        let prev_steps = toggle_steps(rest, have, all_have);
        assert(steps == prev_steps + step);
        let prev = apply_changes(a, tag_id, prev_steps);
        if step.len() > 0 {
            assert(steps.drop_last() =~= prev_steps);
            assert(steps.last() == step[0]);
        } else {
            assert(steps =~= prev_steps);
        }
        assert forall|t: i64, g: i64|
            #[trigger] apply_changes(a, tag_id, steps).contains((t, g)) == if g == tag_id
                && sel.contains(t) {
                if all_have {
                    false
                } else if have.contains(t) {
                    a.contains((t, g))
                } else {
                    true
                }
            } else {
                a.contains((t, g))
            } by {
            assert(sel.contains(t) == (rest.contains(t) || t == x)) by {
                if sel.contains(t) {
                    let j = choose|j: int| 0 <= j < sel.len() && sel[j] == t;
                    if j < sel.len() - 1 {
                        assert(rest[j] == t);
                    }
                }
                if rest.contains(t) {
                    let j = choose|j: int| 0 <= j < rest.len() && rest[j] == t;
                    assert(sel[j] == t);
                }
            }
            assert(prev.contains((t, g)) == if g == tag_id && rest.contains(t) {
                if all_have {
                    false
                } else if have.contains(t) {
                    a.contains((t, g))
                } else {
                    true
                }
            } else {
                a.contains((t, g))
            });
        }
    }
}

/// Toggling a tag over a selection of distinct tracks removes it from all of
/// them when every one had it, and otherwise gives it to all of them; no
/// other assignment changes. Here `track_tags` lists exactly the selected
/// tracks' current assignments of the tag, and `a` is the set of all
/// `(track, tag)` assignments.
pub proof fn lemma_toggle_flips_tag(
    a: Set<(i64, i64)>,
    tag_id: i64,
    sel: Seq<i64>,
    track_tags: Seq<(i64, Tag)>,
)
    requires
        sel.no_duplicates(),
        forall|t: i64|
            #[trigger] tracks_with_tag(track_tags, tag_id).contains(t) <==> (sel.contains(t)
                && a.contains((t, tag_id))),
    ensures
        ({
            let after = apply_changes(a, tag_id, toggle_plan(tag_id, sel, track_tags));
            let all_had = forall|t: i64| sel.contains(t) ==> a.contains((t, tag_id));
            &&& all_had ==> forall|t: i64| sel.contains(t) ==> !after.contains((t, tag_id))
            &&& !all_had ==> forall|t: i64| sel.contains(t) ==> after.contains((t, tag_id))
            &&& forall|t: i64, g: i64|
                !(g == tag_id && sel.contains(t)) ==> after.contains((t, g)) == a.contains((t, g))
        }),
{
    let have = tracks_with_tag(track_tags, tag_id);
    let ss = sel.to_set();
    sel.unique_seq_to_set();
    assert(have.subset_of(ss));
    vstd::set_lib::lemma_len_subset(have, ss);
    let all_had = forall|t: i64| sel.contains(t) ==> a.contains((t, tag_id));
    if all_had {
        assert(have =~= ss);
    }
    if have.len() == sel.len() {
        vstd::set_lib::lemma_subset_equality(have, ss);
        assert forall|t: i64| sel.contains(t) implies a.contains((t, tag_id)) by {
            assert(ss.contains(t));
            assert(have.contains(t));
        }
    }
    lemma_apply_steps(a, tag_id, sel, have, have.len() == sel.len());
}

} // verus!
