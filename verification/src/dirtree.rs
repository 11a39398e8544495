//! The sidebar's directory tree: a flat list of rows, one per library root
//! and, below every expanded directory, one per directory that directly
//! contains tracks, in sorted order.

use vstd::prelude::*;
use crate::text::{chars_of, chars_eq, contains_char, has_prefix, starts_with};
use crate::paths::{file_name, file_name_of, path_parent, std_path_parent};
use crate::order::{lemma_sorted_unique, sort_unique, strictly_sorted, strs};

verus! {

// ── Expansion state ─────────────────────────────────────────────────────────

/// Which directories of the tree are expanded, keyed by path.
///
/// Held as `(path, expanded)` pairs with unique paths rather than as a
/// `HashMap<String, bool>`: vstd specifies `HashMap` only for keys with a
/// key model, and `String` has none, so no contract on such a map could be
/// proved.
pub struct ExpandedDirs {
    entries: Vec<(String, bool)>,
}

pub open spec fn keys_unique(s: Seq<(String, bool)>) -> bool {
    forall|i: int, j: int|
        0 <= i < s.len() && 0 <= j < s.len() && i != j ==> (#[trigger] s[i]).0@ != (
        #[trigger] s[j]).0@
}

pub open spec fn has_key(s: Seq<(String, bool)>, k: Seq<char>) -> bool {
    exists|i: int| 0 <= i < s.len() && (#[trigger] s[i]).0@ == k
}

pub open spec fn key_index(s: Seq<(String, bool)>, k: Seq<char>) -> int {
    choose|i: int| 0 <= i < s.len() && (#[trigger] s[i]).0@ == k
}

pub open spec fn entries_map(s: Seq<(String, bool)>) -> Map<Seq<char>, bool> {
    Map::new(|k: Seq<char>| has_key(s, k), |k: Seq<char>| s[key_index(s, k)].1)
}

/// A directory is drawn expanded when its flag is set; unknown directories
/// are collapsed.
pub open spec fn expanded_flag(m: Map<Seq<char>, bool>, k: Seq<char>) -> bool {
    m.contains_key(k) && m[k]
}

impl View for ExpandedDirs {
    type V = Map<Seq<char>, bool>;

    closed spec fn view(&self) -> Map<Seq<char>, bool> {
        entries_map(self.entries@)
    }
}

impl ExpandedDirs {
    #[verifier::type_invariant]
    spec fn inv(self) -> bool {
        keys_unique(self.entries@)
    }

    /// No directory is expanded.
    pub fn new() -> (r: Self)
        ensures
            r@ == Map::<Seq<char>, bool>::empty(),
    {
        let r = ExpandedDirs { entries: Vec::new() };
        assert(r@ =~= Map::<Seq<char>, bool>::empty());
        r
    }

    fn find(&self, path: &str) -> (r: Option<usize>)
        ensures
            match r {
                Some(i) => i < self.entries@.len() && self.entries@[i as int].0@ == path@,
                None => !has_key(self.entries@, path@),
            },
    {
        let p = chars_of(path);
        let mut i: usize = 0;
        while i < self.entries.len()
            invariant
                i <= self.entries@.len(),
                p@ == path@,
                forall|j: int| 0 <= j < i ==> (#[trigger] self.entries@[j]).0@ != path@,
            decreases self.entries.len() - i,
        {
            let k = chars_of(self.entries[i].0.as_str());
            if chars_eq(&k, &p) {
                return Some(i);
            }
            i = i + 1;
        }
        None
    }

    /// Whether `path` is drawn expanded.
    pub fn is_expanded(&self, path: &str) -> (r: bool)
        ensures
            r == expanded_flag(self@, path@),
    {
        proof {
            use_type_invariant(self);
        }
        match self.find(path) {
            Some(i) => {
                assert(has_key(self.entries@, path@));
                let ghost j = key_index(self.entries@, path@);
                assert(j == i);
                self.entries[i].1
            },
            None => false,
        }
    }

    /// Flips the expansion of `path`; an unknown directory becomes expanded.
    pub fn toggle(&mut self, path: &str)
        ensures
            final(self)@ == old(self)@.insert(path@, !expanded_flag(old(self)@, path@)),
    {
        proof {
            use_type_invariant(&*self);
        }
        let ghost old_entries = self.entries@;
        match self.find(path) {
            Some(i) => {
                assert(has_key(old_entries, path@));
                assert(key_index(old_entries, path@) == i);
                let flag = !self.entries[i].1;
                let key = self.entries[i].0.clone();
                let mut entries: Vec<(String, bool)> = Vec::new();
                std::mem::swap(&mut entries, &mut self.entries);
                entries.set(i, (key, flag));
                self.entries = entries;
                proof {
                    let s = self.entries@;
                    assert(keys_unique(s)) by {
                        assert forall|a: int, b: int|
                            0 <= a < s.len() && 0 <= b < s.len() && a != b implies (
                            #[trigger] s[a]).0@ != (#[trigger] s[b]).0@ by {
                            assert(old_entries[a].0@ == s[a].0@);
                            assert(old_entries[b].0@ == s[b].0@);
                        }
                    }
                    assert forall|k: Seq<char>| has_key(s, k) == has_key(old_entries, k) by {
                        if has_key(s, k) {
                            let a = choose|a: int| 0 <= a < s.len() && (#[trigger] s[a]).0@ == k;
                            assert(old_entries[a].0@ == k);
                        }
                        if has_key(old_entries, k) {
                            let a = choose|a: int|
                                0 <= a < old_entries.len() && (#[trigger] old_entries[a]).0@ == k;
                            assert(s[a].0@ == k);
                        }
                    }
                    assert forall|k: Seq<char>| has_key(s, k) implies s[key_index(s, k)].1 == (
                    if k == path@ {
                        flag
                    } else {
                        old_entries[key_index(old_entries, k)].1
                    }) by {
                        let a = key_index(s, k);
                        let b = key_index(old_entries, k);
                        assert(s[a].0@ == k);
                        assert(old_entries[b].0@ == k);
                        assert(old_entries[a].0@ == k);
                        assert(a == b);
                    }
                    assert(self@ =~= old(self)@.insert(path@, !expanded_flag(old(self)@, path@)));
                }
            },
            None => {
                let mut entries: Vec<(String, bool)> = Vec::new();
                std::mem::swap(&mut entries, &mut self.entries);
                entries.push((path.to_string(), true));
                self.entries = entries;
                proof {
                    let s = self.entries@;
                    let n = old_entries.len() as int;
                    assert(s[n].0@ == path@);
                    assert(keys_unique(s)) by {
                        assert forall|a: int, b: int|
                            0 <= a < s.len() && 0 <= b < s.len() && a != b implies (
                            #[trigger] s[a]).0@ != (#[trigger] s[b]).0@ by {
                            if a < n && b < n {
                                assert(old_entries[a] == s[a]);
                                assert(old_entries[b] == s[b]);
                            } else if a < n {
                                assert(old_entries[a] == s[a]);
                            } else {
                                assert(old_entries[b] == s[b]);
                            }
                        }
                    }
                    assert forall|k: Seq<char>| has_key(s, k) == (has_key(old_entries, k) || k
                        == path@) by {
                        if has_key(s, k) {
                            let a = choose|a: int| 0 <= a < s.len() && (#[trigger] s[a]).0@ == k;
                            if a < n {
                                assert(old_entries[a] == s[a]);
                            }
                        }
                        if has_key(old_entries, k) {
                            let a = choose|a: int|
                                0 <= a < old_entries.len() && (#[trigger] old_entries[a]).0@ == k;
                            assert(old_entries[a] == s[a]);
                        }
                    }
                    assert forall|k: Seq<char>| has_key(s, k) implies s[key_index(s, k)].1 == (
                    if k == path@ {
                        true
                    } else {
                        old_entries[key_index(old_entries, k)].1
                    }) by {
                        let a = key_index(s, k);
                        assert(s[a].0@ == k);
                        if k == path@ {
                            assert(a == n);
                        } else {
                            let b = key_index(old_entries, k);
                            assert(a < n);
                            assert(old_entries[a] == s[a]);
                            assert(has_key(old_entries, k));
                            assert(old_entries[b].0@ == k);
                            assert(a == b);
                        }
                    }
                    assert(self@ =~= old(self)@.insert(path@, !expanded_flag(old(self)@, path@)));
                }
            },
        }
    }

    /// Forgets the expansion state of `path`.
    pub fn remove(&mut self, path: &str)
        ensures
            final(self)@ == old(self)@.remove(path@),
    {
        proof {
            use_type_invariant(&*self);
        }
        let ghost old_entries = self.entries@;
        match self.find(path) {
            Some(i) => {
                let mut entries: Vec<(String, bool)> = Vec::new();
                std::mem::swap(&mut entries, &mut self.entries);
                entries.remove(i);
                self.entries = entries;
                proof {
                    let s = self.entries@;
                    assert(s =~= old_entries.remove(i as int));
                    assert forall|a: int| 0 <= a < s.len() implies #[trigger] s[a] == old_entries[
                    if a < i {
                        a
                    } else {
                        a + 1
                    }] by {}
                    assert(keys_unique(s)) by {
                        assert forall|a: int, b: int|
                            0 <= a < s.len() && 0 <= b < s.len() && a != b implies (
                            #[trigger] s[a]).0@ != (#[trigger] s[b]).0@ by {
                            let oa = if a < i { a } else { a + 1 };
                            let ob = if b < i { b } else { b + 1 };
                            assert(s[a] == old_entries[oa]);
                            assert(s[b] == old_entries[ob]);
                        }
                    }
                    assert forall|k: Seq<char>| has_key(s, k) == (has_key(old_entries, k) && k
                        != path@) by {
                        if has_key(s, k) {
                            let a = choose|a: int| 0 <= a < s.len() && (#[trigger] s[a]).0@ == k;
                            let oa = if a < i { a } else { a + 1 };
                            assert(s[a] == old_entries[oa]);
                            assert(oa != i);
                        }
                        if has_key(old_entries, k) && k != path@ {
                            let b = choose|b: int|
                                0 <= b < old_entries.len() && (#[trigger] old_entries[b]).0@ == k;
                            assert(b != i);
                            let a = if b < i { b } else { b - 1 };
                            assert(s[a] == old_entries[b]);
                        }
                    }
                    assert forall|k: Seq<char>| has_key(s, k) implies s[key_index(s, k)].1
                        == old_entries[key_index(old_entries, k)].1 by {
                        let a = key_index(s, k);
                        let oa = if a < i { a } else { a + 1 };
                        assert(s[a] == old_entries[oa]);
                        let b = key_index(old_entries, k);
                        assert(old_entries[b].0@ == k);
                        assert(oa == b);
                    }
                    assert(self@ =~= old(self)@.remove(path@));
                }
            },
            None => {
                assert(self@ =~= old(self)@.remove(path@));
            },
        }
    }
}

/// Toggling a directory twice restores whether it is drawn expanded.
pub proof fn lemma_toggle_twice(m: Map<Seq<char>, bool>, k: Seq<char>)
    ensures
        ({
            let once = m.insert(k, !expanded_flag(m, k));
            let twice = once.insert(k, !expanded_flag(once, k));
            expanded_flag(twice, k) == expanded_flag(m, k)
        }),
{
}

// ── Tree rows ───────────────────────────────────────────────────────────────

/// One row of the sidebar directory tree.
#[derive(Debug, Clone)]
pub struct DirTreeItemDto {
    pub path: String,
    pub name: String,
    /// Nesting depth, capped at 4.
    pub indent: u32,
    pub has_children: bool,
    pub is_expanded: bool,
    pub is_root: bool,
}

/// The abstract content of a tree row.
pub struct DirItem {
    pub path: Seq<char>,
    pub name: Seq<char>,
    pub indent: nat,
    pub has_children: bool,
    pub is_expanded: bool,
    pub is_root: bool,
}

impl View for DirTreeItemDto {
    type V = DirItem;

    open spec fn view(&self) -> DirItem {
        DirItem {
            path: self.path@,
            name: self.name@,
            indent: self.indent as nat,
            has_children: self.has_children,
            is_expanded: self.is_expanded,
            is_root: self.is_root,
        }
    }
}

pub open spec fn rows_view(v: Seq<DirTreeItemDto>) -> Seq<DirItem> {
    v.map_values(|x: DirTreeItemDto| x@)
}

/// `d` lies directly inside `dir`: it starts with `dir/` and has no further
/// `/` after that.
pub open spec fn is_direct_child(dir: Seq<char>, d: Seq<char>) -> bool {
    has_prefix(d, dir.push('/')) && !d.subrange(dir.len() as int + 1, d.len() as int).contains('/')
}

/// The directories of `all` that lie directly inside `dir`, in the order of
/// `all`.
pub open spec fn direct_children(dir: Seq<char>, all: Seq<Seq<char>>) -> Seq<Seq<char>> {
    all.filter(|d: Seq<char>| is_direct_child(dir, d))
}

/// The name shown for a directory: its final component, or the whole path.
pub open spec fn dir_display_name(dir: Seq<char>) -> Seq<char> {
    match file_name_of(dir) {
        Some(n) => n,
        None => dir,
    }
}

pub open spec fn min_nat(a: nat, b: nat) -> nat {
    if a <= b {
        a
    } else {
        b
    }
}

/// The row drawn for `dir` at depth `indent`.
pub open spec fn dir_row(
    dir: Seq<char>,
    all: Seq<Seq<char>>,
    indent: nat,
    expanded: Map<Seq<char>, bool>,
    is_root: bool,
) -> DirItem {
    DirItem {
        path: dir,
        name: dir_display_name(dir),
        indent: min_nat(indent, 4),
        has_children: direct_children(dir, all).len() > 0,
        is_expanded: expanded_flag(expanded, dir),
        is_root,
    }
}

pub open spec fn max_len(all: Seq<Seq<char>>) -> nat
    decreases all.len(),
{
    if all.len() == 0 {
        0
    } else {
        let m = max_len(all.drop_last());
        if all.last().len() > m {
            all.last().len()
        } else {
            m
        }
    }
}

pub proof fn lemma_max_len(all: Seq<Seq<char>>, d: Seq<char>)
    requires
        all.contains(d),
    ensures
        d.len() <= max_len(all),
    decreases all.len(),
{
    if all.last() != d {
        let i = choose|i: int| 0 <= i < all.len() && all[i] == d;
        assert(all.drop_last()[i] == d);
        lemma_max_len(all.drop_last(), d);
    }
}

pub open spec fn dir_measure(dir: Seq<char>, all: Seq<Seq<char>>) -> int {
    max_len(all) + 1 - dir.len()
}

/// The rows for `dir` and, when it is expanded, for everything below it.
pub open spec fn node_rows(
    dir: Seq<char>,
    all: Seq<Seq<char>>,
    indent: nat,
    expanded: Map<Seq<char>, bool>,
    is_root: bool,
) -> Seq<DirItem>
    decreases dir_measure(dir, all), 1int, 0nat,
{
    let row = dir_row(dir, all, indent, expanded, is_root);
    if expanded_flag(expanded, dir) {
        seq![row] + children_rows(dir, direct_children(dir, all), all, indent + 1, expanded)
    } else {
        seq![row]
    }
}

/// The rows for each of `kids` (children of `dir`) in turn.
pub open spec fn children_rows(
    dir: Seq<char>,
    kids: Seq<Seq<char>>,
    all: Seq<Seq<char>>,
    indent: nat,
    expanded: Map<Seq<char>, bool>,
) -> Seq<DirItem>
    decreases dir_measure(dir, all), 0int, kids.len(),
{
    if kids.len() == 0 {
        seq![]
    } else {
        let k = kids[0];
        let first = if is_direct_child(dir, k) && all.contains(k) {
            proof {
                lemma_max_len(all, k);
            }
            node_rows(k, all, indent, expanded, false)
        } else {
            seq![]
        };
        first + children_rows(dir, kids.drop_first(), all, indent, expanded)
    }
}

pub proof fn lemma_children_rows_push(
    dir: Seq<char>,
    kids: Seq<Seq<char>>,
    k: Seq<char>,
    all: Seq<Seq<char>>,
    indent: nat,
    expanded: Map<Seq<char>, bool>,
)
    ensures
        children_rows(dir, kids.push(k), all, indent, expanded) == children_rows(
            dir,
            kids,
            all,
            indent,
            expanded,
        ) + children_rows(dir, seq![k], all, indent, expanded),
    decreases kids.len(),
{
    if kids.len() == 0 {
        assert(kids.push(k) =~= seq![k]);
        assert(children_rows(dir, kids, all, indent, expanded) =~= seq![]);
    } else {
        assert(kids.push(k).drop_first() =~= kids.drop_first().push(k));
        lemma_children_rows_push(dir, kids.drop_first(), k, all, indent, expanded);
        assert(kids.push(k)[0] == kids[0]);
        let first = if is_direct_child(dir, kids[0]) && all.contains(kids[0]) {
            node_rows(kids[0], all, indent, expanded, false)
        } else {
            seq![]
        };
        assert(children_rows(dir, kids.push(k), all, indent, expanded) == first + children_rows(
            dir,
            kids.drop_first().push(k),
            all,
            indent,
            expanded,
        ));
        assert(children_rows(dir, kids, all, indent, expanded) == first + children_rows(
            dir,
            kids.drop_first(),
            all,
            indent,
            expanded,
        ));
        assert(children_rows(dir, kids.push(k), all, indent, expanded) =~= children_rows(
            dir,
            kids,
            all,
            indent,
            expanded,
        ) + children_rows(dir, seq![k], all, indent, expanded));
    }
}

/// Only the capped depth shows in the rows.
pub proof fn lemma_rows_depend_on_capped_indent(
    dir: Seq<char>,
    all: Seq<Seq<char>>,
    a: nat,
    b: nat,
    expanded: Map<Seq<char>, bool>,
    is_root: bool,
)
    requires
        min_nat(a, 4) == min_nat(b, 4),
    ensures
        node_rows(dir, all, a, expanded, is_root) == node_rows(dir, all, b, expanded, is_root),
    decreases dir_measure(dir, all), 1int, 0nat,
{
    if expanded_flag(expanded, dir) {
        lemma_children_rows_capped(dir, direct_children(dir, all), all, a + 1, b + 1, expanded);
    }
}

pub proof fn lemma_children_rows_capped(
    dir: Seq<char>,
    kids: Seq<Seq<char>>,
    all: Seq<Seq<char>>,
    a: nat,
    b: nat,
    expanded: Map<Seq<char>, bool>,
)
    requires
        min_nat(a, 4) == min_nat(b, 4),
    ensures
        children_rows(dir, kids, all, a, expanded) == children_rows(dir, kids, all, b, expanded),
    decreases dir_measure(dir, all), 0int, kids.len(),
{
    if kids.len() > 0 {
        let k = kids[0];
        if is_direct_child(dir, k) && all.contains(k) {
            lemma_max_len(all, k);
            lemma_rows_depend_on_capped_indent(k, all, a, b, expanded, false);
        }
        lemma_children_rows_capped(dir, kids.drop_first(), all, a, b, expanded);
    }
}

/// `d` lies directly inside `dir`.
fn direct_child_test(dir: &Vec<char>, d: &Vec<char>) -> (r: bool)
    ensures
        r == is_direct_child(dir@, d@),
{
    let mut prefix = dir.clone();
    prefix.push('/');
    assert(prefix@ == dir@.push('/'));
    if !starts_with(d, &prefix) {
        return false;
    }
    let mut i = prefix.len();
    while i < d.len()
        invariant
            prefix.len() == dir.len() + 1,
            prefix.len() <= i <= d.len(),
            forall|j: int| prefix.len() <= j < i ==> d@[j] != '/',
        decreases d.len() - i,
    {
        if d[i] == '/' {
            assert(d@.subrange(dir.len() as int + 1, d.len() as int)[i - prefix.len()] == '/');
            return false;
        }
        i = i + 1;
    }
    let ghost tail = d@.subrange(dir.len() as int + 1, d.len() as int);
    assert forall|j: int| 0 <= j < tail.len() implies #[trigger] tail[j] != '/' by {
        assert(tail[j] == d@[j + prefix.len()]);
    }
    true
}

/// The directories of `all_dirs` directly inside `dir`, in order.
fn direct_children_of(dir: &Vec<char>, all_dirs: &Vec<String>) -> (r: Vec<String>)
    ensures
        strs(r@) == direct_children(dir@, strs(all_dirs@)),
{
    let ghost all = strs(all_dirs@);
    let mut r: Vec<String> = Vec::new();
    let mut i: usize = 0;
    while i < all_dirs.len()
        invariant
            i <= all_dirs.len(),
            all == strs(all_dirs@),
            strs(r@) == direct_children(dir@, all.take(i as int)),
        decreases all_dirs.len() - i,
    {
        let d = chars_of(all_dirs[i].as_str());
        let keep = direct_child_test(dir, &d);
        proof {
            assert(all.take(i + 1).drop_last() =~= all.take(i as int));
            assert(all.take(i + 1).last() == all_dirs@[i as int]@);
            reveal(Seq::filter);
        }
        if keep {
            r.push(all_dirs[i].clone());
        }
        i = i + 1;
        proof {
            if keep {
                assert(strs(r@) =~= strs(r@.drop_last()).push(r@.last()@));
            }
            assert(strs(r@) =~= direct_children(dir@, all.take(i as int)));
        }
    }
    assert(all.take(all_dirs.len() as int) =~= all);
    r
}

/// Appends the row for `dir` and, when it is expanded, the rows for every
/// directory of `all_dirs` below it (depth first, children in the order of
/// `all_dirs`).
pub fn append_dir_node(
    result: &mut Vec<DirTreeItemDto>,
    dir: &str,
    all_dirs: &Vec<String>,
    indent: u32,
    expanded: &ExpandedDirs,
    is_root: bool,
)
    ensures
        rows_view(final(result)@) == rows_view(old(result)@) + node_rows(
            dir@,
            strs(all_dirs@),
            indent as nat,
            expanded@,
            is_root,
        ),
    decreases dir_measure(dir@, strs(all_dirs@)), 1int, 0nat,
{
    let ghost all = strs(all_dirs@);
    let dv = chars_of(dir);
    let kids = direct_children_of(&dv, all_dirs);
    let has_children = kids.len() > 0;
    let is_expanded = expanded.is_expanded(dir);
    let name = match file_name(dir) {
        Some(n) => n,
        None => dir.to_string(),
    };
    let shown_indent = if indent < 4 { indent } else { 4 };
    let ghost before = rows_view(result@);
    result.push(DirTreeItemDto {
        path: dir.to_string(),
        name,
        indent: shown_indent,
        has_children,
        is_expanded,
        is_root,
    });
    proof {
        assert(rows_view(result@) =~= before.push(dir_row(dir@, all, indent as nat, expanded@, is_root)));
    }
    if is_expanded {
        let child_indent = indent.saturating_add(1);
        let ghost kv = strs(kids@);
        let ghost base = before.push(dir_row(dir@, all, indent as nat, expanded@, is_root));
        let mut i: usize = 0;
        while i < kids.len()
            invariant
                i <= kids.len(),
                all == strs(all_dirs@),
                kv == strs(kids@),
                kv == direct_children(dir@, all),
                min_nat(child_indent as nat, 4) == min_nat(indent as nat + 1, 4),
                rows_view(result@) == base + children_rows(
                    dir@,
                    kv.take(i as int),
                    all,
                    child_indent as nat,
                    expanded@,
                ),
            decreases kids.len() - i,
        {
            let ghost k = kv[i as int];
            proof {
                let pred = |d: Seq<char>| is_direct_child(dir@, d);
                assert(kv == all.filter(pred));
                assert(kv.contains(k));
                all.lemma_filter_pred(pred, i as int);
                all.lemma_filter_contains_rev(pred, k);
                assert(is_direct_child(dir@, k));
                assert(all.contains(k));
                lemma_max_len(all, k);
            }
            append_dir_node(result, kids[i].as_str(), all_dirs, child_indent, expanded, false);
            proof {
                lemma_children_rows_push(dir@, kv.take(i as int), k, all, child_indent as nat, expanded@);
                assert(kv.take(i + 1) =~= kv.take(i as int).push(k));
                assert(seq![k][0] == k);
                assert(seq![k].drop_first() =~= Seq::<Seq<char>>::empty());
                assert(children_rows(dir@, Seq::<Seq<char>>::empty(), all, child_indent as nat, expanded@)
                    =~= seq![]);
                assert(children_rows(dir@, seq![k], all, child_indent as nat, expanded@) =~= node_rows(
                    k,
                    all,
                    child_indent as nat,
                    expanded@,
                    false,
                ));
            }
            i = i + 1;
        }
        proof {
            assert(kv.take(kids.len() as int) =~= kv);
            lemma_children_rows_capped(dir@, kv, all, child_indent as nat, indent as nat + 1, expanded@);
        }
    }
}

// ── Whole tree ──────────────────────────────────────────────────────────────

/// The directories of a set, each once, in ascending order.
pub open spec fn sorted_dirs(dirs: Set<Seq<char>>) -> Seq<Seq<char>> {
    choose|s: Seq<Seq<char>>| strictly_sorted(s) && s.to_set() == dirs
}

/// The rows for each root in turn, every root at depth 0.
pub open spec fn roots_rows(
    roots: Seq<Seq<char>>,
    all: Seq<Seq<char>>,
    expanded: Map<Seq<char>, bool>,
) -> Seq<DirItem>
    decreases roots.len(),
{
    if roots.len() == 0 {
        seq![]
    } else {
        roots_rows(roots.drop_last(), all, expanded) + node_rows(
            roots.last(),
            all,
            0,
            expanded,
            true,
        )
    }
}

/// The whole sidebar tree: the rows under each library root, where the
/// directories that hold tracks are visited in sorted order.
pub open spec fn dir_tree(
    roots: Seq<Seq<char>>,
    track_dirs: Set<Seq<char>>,
    expanded: Map<Seq<char>, bool>,
) -> Seq<DirItem> {
    roots_rows(roots, sorted_dirs(track_dirs), expanded)
}

/// Builds the flat list of tree rows from the library roots and the
/// directories that hold tracks.
pub fn build_dir_tree(
    roots: &Vec<String>,
    track_dirs: &Vec<String>,
    expanded: &ExpandedDirs,
) -> (r: Vec<DirTreeItemDto>)
    ensures
        rows_view(r@) == dir_tree(strs(roots@), strs(track_dirs@).to_set(), expanded@),
{
    let sorted = sort_unique(track_dirs);
    proof {
        let s = strs(sorted@);
        let c = sorted_dirs(strs(track_dirs@).to_set());
        assert(strictly_sorted(c) && c.to_set() == strs(track_dirs@).to_set());
        lemma_sorted_unique(s, c);
    }
    let ghost all = strs(sorted@);
    let mut result: Vec<DirTreeItemDto> = Vec::new();
    let mut i: usize = 0;
    while i < roots.len()
        invariant
            i <= roots.len(),
            all == strs(sorted@),
            rows_view(result@) == roots_rows(strs(roots@).take(i as int), all, expanded@),
        decreases roots.len() - i,
    {
        append_dir_node(&mut result, roots[i].as_str(), &sorted, 0, expanded, true);
        proof {
            let rs = strs(roots@);
            assert(rs.take(i + 1).drop_last() =~= rs.take(i as int));
            assert(rs.take(i + 1).last() == roots@[i as int]@);
        }
        i = i + 1;
    }
    assert(strs(roots@).take(roots.len() as int) =~= strs(roots@));
    result
}

/// One row of the directory tree as the settings-free desktop window shows it.
#[derive(Debug, Clone)]
pub struct DirTreeItem {
    pub path: String,
    pub name: String,
    pub indent: i32,
    pub has_children: bool,
    pub is_expanded: bool,
    pub is_root: bool,
}

impl View for DirTreeItem {
    type V = DirItem;

    open spec fn view(&self) -> DirItem {
        DirItem {
            path: self.path@,
            name: self.name@,
            indent: self.indent as nat,
            has_children: self.has_children,
            is_expanded: self.is_expanded,
            is_root: self.is_root,
        }
    }
}

pub open spec fn indents_capped(rows: Seq<DirItem>) -> bool {
    forall|j: int| 0 <= j < rows.len() ==> (#[trigger] rows[j]).indent <= 4
}

pub proof fn lemma_concat_capped(a: Seq<DirItem>, b: Seq<DirItem>)
    requires
        indents_capped(a),
        indents_capped(b),
    ensures
        indents_capped(a + b),
{
    assert forall|j: int| 0 <= j < (a + b).len() implies (#[trigger] (a + b)[j]).indent <= 4 by {
        if j < a.len() {
            assert((a + b)[j] == a[j]);
        } else {
            assert((a + b)[j] == b[j - a.len()]);
        }
    }
}

pub proof fn lemma_node_rows_indent(
    dir: Seq<char>,
    all: Seq<Seq<char>>,
    indent: nat,
    expanded: Map<Seq<char>, bool>,
    is_root: bool,
)
    ensures
        indents_capped(node_rows(dir, all, indent, expanded, is_root)),
    decreases dir_measure(dir, all), 1int, 0nat,
{
    let row = dir_row(dir, all, indent, expanded, is_root);
    assert(indents_capped(seq![row]));
    if expanded_flag(expanded, dir) {
        lemma_children_rows_indent(dir, direct_children(dir, all), all, indent + 1, expanded);
        lemma_concat_capped(
            seq![row],
            children_rows(dir, direct_children(dir, all), all, indent + 1, expanded),
        );
    }
}

pub proof fn lemma_children_rows_indent(
    dir: Seq<char>,
    kids: Seq<Seq<char>>,
    all: Seq<Seq<char>>,
    indent: nat,
    expanded: Map<Seq<char>, bool>,
)
    ensures
        indents_capped(children_rows(dir, kids, all, indent, expanded)),
    decreases dir_measure(dir, all), 0int, kids.len(),
{
    if kids.len() > 0 {
        let k = kids[0];
        let first = if is_direct_child(dir, k) && all.contains(k) {
            node_rows(k, all, indent, expanded, false)
        } else {
            seq![]
        };
        if is_direct_child(dir, k) && all.contains(k) {
            lemma_max_len(all, k);
            lemma_node_rows_indent(k, all, indent, expanded, false);
        }
        lemma_children_rows_indent(dir, kids.drop_first(), all, indent, expanded);
        lemma_concat_capped(first, children_rows(dir, kids.drop_first(), all, indent, expanded));
    }
}

pub proof fn lemma_roots_rows_indent(
    roots: Seq<Seq<char>>,
    all: Seq<Seq<char>>,
    expanded: Map<Seq<char>, bool>,
)
    ensures
        indents_capped(roots_rows(roots, all, expanded)),
    decreases roots.len(),
{
    if roots.len() > 0 {
        lemma_roots_rows_indent(roots.drop_last(), all, expanded);
        lemma_node_rows_indent(roots.last(), all, 0, expanded, true);
        lemma_concat_capped(
            roots_rows(roots.drop_last(), all, expanded),
            node_rows(roots.last(), all, 0, expanded, true),
        );
    }
}

/// Builds the same rows as [`build_dir_tree`], in the window's row type.
pub fn build_dir_tree_items(
    roots: &Vec<String>,
    track_dirs: &Vec<String>,
    expanded: &ExpandedDirs,
) -> (r: Vec<DirTreeItem>)
    ensures
        r@.map_values(|x: DirTreeItem| x@) == dir_tree(
            strs(roots@),
            strs(track_dirs@).to_set(),
            expanded@,
        ),
        forall|j: int| 0 <= j < r@.len() ==> 0 <= #[trigger] r@[j].indent <= 4,
{
    let rows = build_dir_tree(roots, track_dirs, expanded);
    let ghost want = rows_view(rows@);
    proof {
        let sd = sorted_dirs(strs(track_dirs@).to_set());
        lemma_roots_rows_indent(strs(roots@), sd, expanded@);
        assert forall|j: int| 0 <= j < rows@.len() implies (#[trigger] rows@[j]).indent <= 4 by {
            assert(want[j] == rows@[j]@);
        }
    }
    let mut out: Vec<DirTreeItem> = Vec::new();
    let mut i: usize = 0;
    while i < rows.len()
        invariant
            i <= rows.len(),
            want == rows_view(rows@),
            forall|j: int| 0 <= j < rows@.len() ==> (#[trigger] rows@[j]).indent <= 4,
            out@.map_values(|x: DirTreeItem| x@) == want.take(i as int),
            out@.len() == i,
            forall|j: int| 0 <= j < out@.len() ==> 0 <= #[trigger] out@[j].indent <= 4,
        decreases rows.len() - i,
    {
        let row = &rows[i];
        assert(row.indent <= 4);
        let ghost prev = out@;
        out.push(DirTreeItem {
            path: row.path.clone(),
            name: row.name.clone(),
            indent: row.indent as i32,
            has_children: row.has_children,
            is_expanded: row.is_expanded,
            is_root: row.is_root,
        });
        i = i + 1;
        proof {
            assert(out@.last()@ == rows@[i - 1]@);
            assert(out@ == prev.push(out@.last()));
            assert(out@.map_values(|x: DirTreeItem| x@) =~= prev.map_values(|x: DirTreeItem| x@).push(
                out@.last()@,
            ));
            assert(want[i - 1] == rows@[i - 1]@);
            assert(want.take(i as int) =~= want.take(i - 1).push(want[i - 1]));
            assert(out@.map_values(|x: DirTreeItem| x@) =~= want.take(i as int));
        }
    }
    assert(want.take(rows.len() as int) =~= want);
    out
}

/// The set of parent directories of the given track paths.
pub open spec fn parent_dirs(paths: Seq<Seq<char>>) -> Set<Seq<char>> {
    Set::new(
        |d: Seq<char>|
            exists|i: int|
                0 <= i < paths.len() && std_path_parent(#[trigger] paths[i]) == Some(d),
    )
}

/// Unique parent directories of all tracks (used to build the sidebar tree),
/// each once and in ascending order. A sorted vector stands for a
/// `HashSet<String>`: vstd gives `String` no key model, so no contract on
/// such a set could be proved; the tree sorts the directories anyway.
pub fn track_dirs_from(track_paths: &Vec<String>) -> (r: Vec<String>)
    ensures
        strs(r@).to_set() == parent_dirs(strs(track_paths@)),
        strictly_sorted(strs(r@)),
{
    let ghost ps = strs(track_paths@);
    let mut parents: Vec<String> = Vec::new();
    let mut i: usize = 0;
    while i < track_paths.len()
        invariant
            i <= track_paths.len(),
            ps == strs(track_paths@),
            strs(parents@).to_set() == parent_dirs(ps.take(i as int)),
        decreases track_paths.len() - i,
    {
        let ghost before = parents@;
        let p = path_parent(track_paths[i].as_str());
        let ghost pv: Option<Seq<char>> = match &p {
            Some(d) => Some(d@),
            None => None,
        };
        match p {
            Some(d) => {
                parents.push(d);
            },
            None => {},
        }
        proof {
            let prev = ps.take(i as int);
            let cur = ps.take(i + 1);
            assert(cur =~= prev.push(ps[i as int]));
            assert(ps[i as int] == track_paths@[i as int]@);
            match pv {
                Some(dv) => {
                    assert(strs(parents@) =~= strs(before).push(dv));
                    strs(before).lemma_push_to_set_commute(dv);
                    assert(parent_dirs(cur) =~= parent_dirs(prev).insert(dv)) by {
                        assert forall|e: Seq<char>| parent_dirs(cur).contains(e) implies parent_dirs(
                            prev,
                        ).insert(dv).contains(e) by {
                            let k = choose|k: int|
                                0 <= k < cur.len() && std_path_parent(#[trigger] cur[k]) == Some(e);
                            if k < i {
                                assert(prev[k] == cur[k]);
                            }
                        }
                        assert forall|e: Seq<char>| parent_dirs(prev).insert(dv).contains(
                            e,
                        ) implies parent_dirs(cur).contains(e) by {
                            if e == dv {
                                assert(std_path_parent(cur[i as int]) == Some(e));
                            } else {
                                let k = choose|k: int|
                                    0 <= k < prev.len() && std_path_parent(#[trigger] prev[k])
                                        == Some(e);
                                assert(cur[k] == prev[k]);
                            }
                        }
                    }
                },
                None => {
                    assert(parent_dirs(cur) =~= parent_dirs(prev)) by {
                        assert forall|e: Seq<char>| parent_dirs(cur).contains(e) implies parent_dirs(
                            prev,
                        ).contains(e) by {
                            let k = choose|k: int|
                                0 <= k < cur.len() && std_path_parent(#[trigger] cur[k]) == Some(e);
                            assert(k < i);
                            assert(prev[k] == cur[k]);
                        }
                        assert forall|e: Seq<char>| parent_dirs(prev).contains(e) implies parent_dirs(
                            cur,
                        ).contains(e) by {
                            let k = choose|k: int|
                                0 <= k < prev.len() && std_path_parent(#[trigger] prev[k])
                                    == Some(e);
                            assert(cur[k] == prev[k]);
                        }
                    }
                },
            }
        }
        i = i + 1;
    }
    assert(ps.take(track_paths.len() as int) =~= ps);
    sort_unique(&parents)
}

/// With no directory expanded, the tree shows exactly one row per library
/// root, in the order of the roots, each marked as a root at depth 0.
pub proof fn lemma_collapsed_tree_lists_roots(
    roots: Seq<Seq<char>>,
    track_dirs: Set<Seq<char>>,
    expanded: Map<Seq<char>, bool>,
)
    requires
        forall|d: Seq<char>| !expanded_flag(expanded, d),
    ensures
        dir_tree(roots, track_dirs, expanded).len() == roots.len(),
        forall|i: int|
            0 <= i < roots.len() ==> {
                let row = #[trigger] dir_tree(roots, track_dirs, expanded)[i];
                &&& row.path == roots[i]
                &&& row.is_root
                &&& row.indent == 0
                &&& !row.is_expanded
            },
    decreases roots.len(),
{
    let all = sorted_dirs(track_dirs);
    if roots.len() > 0 {
        lemma_collapsed_tree_lists_roots(roots.drop_last(), track_dirs, expanded);
        let prev = roots_rows(roots.drop_last(), all, expanded);
        let last = node_rows(roots.last(), all, 0, expanded, true);
        assert(!expanded_flag(expanded, roots.last()));
        assert(last.len() == 1);
        assert forall|i: int| 0 <= i < roots.len() implies {
            let row = #[trigger] dir_tree(roots, track_dirs, expanded)[i];
            &&& row.path == roots[i]
            &&& row.is_root
            &&& row.indent == 0
            &&& !row.is_expanded
        } by {
            if i < roots.len() - 1 {
                assert(dir_tree(roots, track_dirs, expanded)[i] == prev[i]);
                assert(prev[i] == dir_tree(roots.drop_last(), track_dirs, expanded)[i]);
                assert(roots.drop_last()[i] == roots[i]);
            } else {
                assert(dir_tree(roots, track_dirs, expanded)[i] == last[0]);
            }
        }
    }
}

} // verus!
