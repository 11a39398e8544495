//! Lexicographic order on strings (by char, which is the byte order of their
//! UTF-8 encodings) and sorting with duplicates removed.

use vstd::prelude::*;
use crate::text::chars_of;

verus! {

/// `a` sorts strictly before `b`.
pub open spec fn lex_lt(a: Seq<char>, b: Seq<char>) -> bool
    decreases a.len(),
{
    if b.len() == 0 {
        false
    } else if a.len() == 0 {
        true
    } else if a[0] < b[0] {
        true
    } else if a[0] == b[0] {
        lex_lt(a.drop_first(), b.drop_first())
    } else {
        false
    }
}

pub proof fn lemma_lex_irreflexive(a: Seq<char>)
    ensures
        !lex_lt(a, a),
    decreases a.len(),
{
    if a.len() > 0 {
        lemma_lex_irreflexive(a.drop_first());
    }
}

pub proof fn lemma_lex_asymmetric(a: Seq<char>, b: Seq<char>)
    ensures
        !(lex_lt(a, b) && lex_lt(b, a)),
    decreases a.len(),
{
    if a.len() > 0 && b.len() > 0 && a[0] == b[0] {
        lemma_lex_asymmetric(a.drop_first(), b.drop_first());
    }
}

pub proof fn lemma_lex_transitive(a: Seq<char>, b: Seq<char>, c: Seq<char>)
    requires
        lex_lt(a, b),
        lex_lt(b, c),
    ensures
        lex_lt(a, c),
    decreases a.len(),
{
    if a.len() > 0 && b.len() > 0 && c.len() > 0 && a[0] == b[0] && b[0] == c[0] {
        lemma_lex_transitive(a.drop_first(), b.drop_first(), c.drop_first());
    }
}

pub proof fn lemma_lex_total(a: Seq<char>, b: Seq<char>)
    ensures
        a == b || lex_lt(a, b) || lex_lt(b, a),
    decreases a.len(),
{
    if a.len() > 0 && b.len() > 0 && a[0] == b[0] {
        lemma_lex_total(a.drop_first(), b.drop_first());
        if a.drop_first() == b.drop_first() {
            assert(a =~= seq![a[0]] + a.drop_first());
            assert(b =~= seq![b[0]] + b.drop_first());
        }
    } else if a.len() == 0 && b.len() == 0 {
        assert(a =~= b);
    }
}

/// Strings sort by their chars: where `a` and `b` first differ, the one
/// with the smaller char comes first.
pub proof fn lemma_lex_first_difference(a: Seq<char>, b: Seq<char>, i: int)
    requires
        0 <= i < a.len(),
        i < b.len(),
        a.take(i) == b.take(i),
        a[i] < b[i],
    ensures
        lex_lt(a, b),
        !lex_lt(b, a),
    decreases i,
{
    if i > 0 {
        assert(a[0] == a.take(i)[0] && b[0] == b.take(i)[0]);
        assert(a.drop_first().take(i - 1) =~= a.take(i).drop_first());
        assert(b.drop_first().take(i - 1) =~= b.take(i).drop_first());
        lemma_lex_first_difference(a.drop_first(), b.drop_first(), i - 1);
    }
}

/// A string sorts before every longer string that it begins.
pub proof fn lemma_lex_proper_prefix(a: Seq<char>, b: Seq<char>)
    requires
        a.len() < b.len(),
        b.take(a.len() as int) == a,
    ensures
        lex_lt(a, b),
        !lex_lt(b, a),
    decreases a.len(),
{
    if a.len() > 0 {
        assert(a[0] == b.take(a.len() as int)[0]);
        assert(b.drop_first().take(a.len() - 1) =~= a.drop_first());
        lemma_lex_proper_prefix(a.drop_first(), b.drop_first());
    }
}

/// `true` iff `a` sorts strictly before `b`.
pub fn lex_less(a: &Vec<char>, b: &Vec<char>) -> (r: bool)
    ensures
        r == lex_lt(a@, b@),
{
    let mut i: usize = 0;
    assert(a@.skip(0) =~= a@);
    assert(b@.skip(0) =~= b@);
    while i < a.len() && i < b.len() && a[i] == b[i]
        invariant
            i <= a.len(),
            i <= b.len(),
            lex_lt(a@, b@) == lex_lt(a@.skip(i as int), b@.skip(i as int)),
        decreases a.len() - i,
    {
        assert(a@.skip(i as int).drop_first() =~= a@.skip(i + 1));
        assert(b@.skip(i as int).drop_first() =~= b@.skip(i + 1));
        i = i + 1;
    }
    if i == b.len() {
        false
    } else if i == a.len() {
        true
    } else {
        a[i] < b[i]
    }
}

pub open spec fn strictly_sorted(s: Seq<Seq<char>>) -> bool {
    forall|i: int, j: int| 0 <= i < j < s.len() ==> lex_lt(#[trigger] s[i], #[trigger] s[j])
}

/// Two strictly sorted sequences with the same elements are equal.
pub proof fn lemma_sorted_unique(a: Seq<Seq<char>>, b: Seq<Seq<char>>)
    requires
        strictly_sorted(a),
        strictly_sorted(b),
        a.to_set() == b.to_set(),
    ensures
        a == b,
    decreases a.len(),
{
    if a.len() == 0 {
        if b.len() > 0 {
            assert(b.to_set().contains(b[0]));
        }
        assert(a =~= b);
    } else {
        assert(a.to_set().contains(a[0]));
        assert(b.len() > 0);
        assert(b.to_set().contains(b[0]));
        let j = choose|j: int| 0 <= j < b.len() && b[j] == a[0];
        let i = choose|i: int| 0 <= i < a.len() && a[i] == b[0];
        if j > 0 {
            assert(lex_lt(b[0], b[j]));
            if i > 0 {
                assert(lex_lt(a[0], a[i]));
                lemma_lex_asymmetric(a[0], a[i]);
            } else {
                lemma_lex_irreflexive(a[0]);
            }
        }
        assert(a[0] == b[0]);
        let ra = a.drop_first();
        let rb = b.drop_first();
        assert(strictly_sorted(ra)) by {
            assert forall|x: int, y: int| 0 <= x < y < ra.len() implies lex_lt(
                #[trigger] ra[x],
                #[trigger] ra[y],
            ) by {
                assert(ra[x] == a[x + 1] && ra[y] == a[y + 1]);
            }
        }
        assert(strictly_sorted(rb)) by {
            assert forall|x: int, y: int| 0 <= x < y < rb.len() implies lex_lt(
                #[trigger] rb[x],
                #[trigger] rb[y],
            ) by {
                assert(rb[x] == b[x + 1] && rb[y] == b[y + 1]);
            }
        }
        assert(ra.to_set() =~= rb.to_set()) by {
            assert forall|e: Seq<char>| ra.to_set().contains(e) implies rb.to_set().contains(e) by {
                let x = choose|x: int| 0 <= x < ra.len() && ra[x] == e;
                assert(a.to_set().contains(e)) by {
                    assert(a[x + 1] == e);
                }
                let y = choose|y: int| 0 <= y < b.len() && b[y] == e;
                assert(lex_lt(a[0], a[x + 1]));
                if y == 0 {
                    lemma_lex_irreflexive(e);
                }
                assert(rb[y - 1] == e);
            }
            assert forall|e: Seq<char>| rb.to_set().contains(e) implies ra.to_set().contains(e) by {
                let x = choose|x: int| 0 <= x < rb.len() && rb[x] == e;
                assert(b.to_set().contains(e)) by {
                    assert(b[x + 1] == e);
                }
                let y = choose|y: int| 0 <= y < a.len() && a[y] == e;
                assert(lex_lt(b[0], b[x + 1]));
                if y == 0 {
                    lemma_lex_irreflexive(e);
                }
                assert(ra[y - 1] == e);
            }
        }
        lemma_sorted_unique(ra, rb);
        assert(a =~= seq![a[0]] + ra);
        assert(b =~= seq![b[0]] + rb);
    }
}

pub open spec fn strs(v: Seq<String>) -> Seq<Seq<char>> {
    v.map_values(|x: String| x@)
}

/// The strings of `v`, each once, in ascending order.
pub fn sort_unique(v: &Vec<String>) -> (r: Vec<String>)
    ensures
        strictly_sorted(strs(r@)),
        strs(r@).to_set() == strs(v@).to_set(),
{
    let mut out: Vec<String> = Vec::new();
    let mut keys: Vec<Vec<char>> = Vec::new();
    let mut i: usize = 0;
    while i < v.len()
        invariant
            i <= v.len(),
            out.len() == keys.len(),
            forall|j: int| 0 <= j < keys.len() ==> (#[trigger] keys@[j])@ == out@[j]@,
            strictly_sorted(strs(out@)),
            strs(out@).to_set() == strs(v@.take(i as int)).to_set(),
        decreases v.len() - i,
    {
        let x = chars_of(v[i].as_str());
        let ghost xs = x@;
        let ghost so = strs(out@);
        // first position whose key does not sort before x
        let mut p: usize = 0;
        while p < keys.len() && lex_less(&keys[p], &x)
            invariant
                p <= keys.len(),
                out.len() == keys.len(),
                so == strs(out@),
                x@ == xs,
                forall|j: int| 0 <= j < keys.len() ==> (#[trigger] keys@[j])@ == out@[j]@,
                forall|j: int| 0 <= j < p ==> lex_lt(#[trigger] so[j], xs),
            decreases keys.len() - p,
        {
            assert(keys@[p as int]@ == so[p as int]);
            p = p + 1;
        }
        let dup = p < keys.len() && crate::text::chars_eq(&keys[p], &x);
        proof {
            if p < keys.len() {
                assert(keys@[p as int]@ == so[p as int]);
            }
        }
        proof {
            assert(strs(v@.take(i + 1)) =~= strs(v@.take(i as int)).push(xs));
            strs(v@.take(i as int)).lemma_push_to_set_commute(xs);
        }
        if !dup {
            proof {
                if p < keys.len() {
                    lemma_lex_total(so[p as int], xs);
                }
            }
            out.insert(p, v[i].clone());
            keys.insert(p, x);
            proof {
                let sn = strs(out@);
                assert(sn =~= so.insert(p as int, xs));
                assert forall|a: int, b: int| 0 <= a < b < sn.len() implies lex_lt(
                    #[trigger] sn[a],
                    #[trigger] sn[b],
                ) by {
                    if a < p && b < p {
                        assert(sn[a] == so[a] && sn[b] == so[b]);
                    } else if a < p && b == p {
                        assert(sn[a] == so[a]);
                    } else if a < p {
                        assert(sn[a] == so[a] && sn[b] == so[b - 1]);
                        assert(lex_lt(so[a], xs));
                        assert(lex_lt(xs, so[p as int]));
                        if b - 1 > p {
                            assert(lex_lt(so[p as int], so[b - 1]));
                            lemma_lex_transitive(xs, so[p as int], so[b - 1]);
                        }
                        lemma_lex_transitive(so[a], xs, so[b - 1]);
                    } else if a == p {
                        assert(sn[b] == so[b - 1]);
                        if b - 1 > p {
                            assert(lex_lt(so[p as int], so[b - 1]));
                            lemma_lex_transitive(xs, so[p as int], so[b - 1]);
                        }
                    } else {
                        assert(sn[a] == so[a - 1] && sn[b] == so[b - 1]);
                    }
                }
                assert(sn.to_set() =~= so.to_set().insert(xs)) by {
                    assert forall|e: Seq<char>| sn.to_set().contains(e) implies so.to_set().insert(
                        xs,
                    ).contains(e) by {
                        let a = choose|a: int| 0 <= a < sn.len() && sn[a] == e;
                        if a < p {
                            assert(so[a] == e);
                        } else if a > p {
                            assert(so[a - 1] == e);
                        }
                    }
                    assert forall|e: Seq<char>| so.to_set().insert(xs).contains(e) implies sn.to_set().contains(
                        e,
                    ) by {
                        if e == xs {
                            assert(sn[p as int] == e);
                        } else {
                            let a = choose|a: int| 0 <= a < so.len() && so[a] == e;
                            if a < p {
                                assert(sn[a] == e);
                            } else {
                                assert(sn[a + 1] == e);
                            }
                        }
                    }
                }
                assert(strs(v@.take(i + 1)).to_set() =~= strs(v@.take(i as int)).to_set().insert(xs));
                assert forall|j: int| 0 <= j < keys.len() implies (#[trigger] keys@[j])@ == out@[j]@ by {
                    if j < p {
                    } else if j > p {
                    } else {
                    }
                }
            }
        } else {
            proof {
                assert(so[p as int] == xs);
                assert(so.to_set().contains(xs));
                assert(strs(v@.take(i + 1)).to_set() =~= strs(v@.take(i as int)).to_set().insert(xs));
                assert(so.to_set().insert(xs) =~= so.to_set());
            }
        }
        i = i + 1;
    }
    assert(v@.take(v.len() as int) =~= v@);
    out
}

} // verus!
