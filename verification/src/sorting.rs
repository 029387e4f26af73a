//! Stable ordering of records by a two-part key.  A record is named by its
//! position in a store; the key of position `i` is `(primary, secondary, i)`.

use vstd::prelude::*;

verus! {

/// Strictly before, by primary and then secondary key.
pub open spec fn key_before(a: (i128, u128, usize), b: (i128, u128, usize)) -> bool {
    a.0 < b.0 || (a.0 == b.0 && a.1 < b.1)
}

/// No key comes strictly before one that precedes it.
pub open spec fn keys_in_order(s: Seq<(i128, u128, usize)>) -> bool {
    forall|i: int, j: int| 0 <= i < j < s.len() ==> !key_before(#[trigger] s[j], #[trigger] s[i])
}

/// No two keys name the same position.
pub open spec fn positions_unique(s: Seq<(i128, u128, usize)>) -> bool {
    forall|i: int, j: int| 0 <= i < s.len() && 0 <= j < s.len() && #[trigger] s[i].2 == #[trigger] s[j].2 ==> i == j
}

fn before(a: (i128, u128, usize), b: (i128, u128, usize)) -> (r: bool)
    ensures
        r == key_before(a, b),
{
    a.0 < b.0 || (a.0 == b.0 && a.1 < b.1)
}

/// Sorts keys by primary and secondary key, keeping the given order among
/// equal keys.
pub fn sort_keys(v: Vec<(i128, u128, usize)>) -> (r: Vec<(i128, u128, usize)>)
    requires
        positions_unique(v@),
    ensures
        keys_in_order(r@),
        positions_unique(r@),
        r@.len() == v@.len(),
        forall|x: (i128, u128, usize)| r@.contains(x) <==> v@.contains(x),
{
    let mut out: Vec<(i128, u128, usize)> = Vec::new();
    let mut i: usize = 0;
    while i < v.len()
        invariant
            i <= v.len(),
            positions_unique(v@),
            keys_in_order(out@),
            positions_unique(out@),
            out@.len() == i,
            forall|x: (i128, u128, usize)| out@.contains(x) <==> v@.take(i as int).contains(x),
        decreases v.len() - i,
    {
        let x = v[i];
        let mut pos: usize = 0;
        while pos < out.len() && !before(x, out[pos])
            invariant
                pos <= out.len(),
                forall|k: int| 0 <= k < pos ==> !key_before(x, #[trigger] out@[k]),
            decreases out.len() - pos,
        {
            pos += 1;
        }
        let ghost old_out = out@;
        out.insert(pos, x);
        proof {
            old_out.insert_ensures(pos as int, x);
            assert(out@ =~= old_out.insert(pos as int, x));
            assert forall|a: int, b: int| 0 <= a < b < out@.len() implies !key_before(
                #[trigger] out@[b],
                #[trigger] out@[a],
            ) by {
                if b < pos {
                    assert(out@[a] == old_out[a] && out@[b] == old_out[b]);
                } else if b == pos {
                    assert(out@[a] == old_out[a]);
                } else if a < pos {
                    assert(out@[a] == old_out[a] && out@[b] == old_out[b - 1]);
                    assert(key_before(x, old_out[pos as int]));
                    if b - 1 > pos {
                        assert(!key_before(old_out[b - 1], old_out[pos as int]));
                    }
                } else if a == pos {
                    assert(out@[b] == old_out[b - 1]);
                    assert(key_before(x, old_out[pos as int]));
                    if b - 1 > pos {
                        assert(!key_before(old_out[b - 1], old_out[pos as int]));
                    }
                } else {
                    assert(out@[a] == old_out[a - 1] && out@[b] == old_out[b - 1]);
                }
            }
            assert(v@.take(i + 1) =~= v@.take(i as int).push(x));
            assert forall|k: int| 0 <= k < old_out.len() implies (#[trigger] old_out[k]).2 != x.2 by {
                assert(old_out.contains(old_out[k]));
                assert(v@.take(i as int).contains(old_out[k]));
                let m = choose|m: int| 0 <= m < i && v@.take(i as int)[m] == old_out[k];
                assert(v@[m] == old_out[k]);
                if old_out[k].2 == x.2 {
                    assert(v@[m].2 == v@[i as int].2);
                }
            }
            assert forall|a: int, b: int|
                0 <= a < out@.len() && 0 <= b < out@.len() && #[trigger] out@[a].2 == #[trigger] out@[b].2 implies a
                == b by {
                if a < pos && b < pos {
                    assert(old_out[a].2 == old_out[b].2);
                } else if a > pos && b > pos {
                    assert(old_out[a - 1].2 == old_out[b - 1].2);
                } else if a < pos && b > pos {
                    assert(old_out[a].2 == old_out[b - 1].2);
                } else if a > pos && b < pos {
                    assert(old_out[a - 1].2 == old_out[b].2);
                } else if a == pos && b != pos {
                    if b < pos {
                        assert(old_out[b].2 != x.2);
                    } else {
                        assert(old_out[b - 1].2 != x.2);
                    }
                } else if b == pos && a != pos {
                    if a < pos {
                        assert(old_out[a].2 != x.2);
                    } else {
                        assert(old_out[a - 1].2 != x.2);
                    }
                }
            }
            assert forall|y: (i128, u128, usize)| out@.contains(y) <==> v@.take(i + 1).contains(y) by {
                if out@.contains(y) {
                    let k = choose|k: int| 0 <= k < out@.len() && out@[k] == y;
                    if k < pos {
                        assert(old_out[k] == y);
                        assert(old_out.contains(y));
                    } else if k > pos {
                        assert(old_out[k - 1] == y);
                        assert(old_out.contains(y));
                    } else {
                        assert(v@.take(i + 1)[i as int] == y);
                    }
                }
                let taken = v@.take(i + 1);
                if taken.contains(y) {
                    let k = choose|k: int| 0 <= k < taken.len() && #[trigger] taken[k] == y;
                    if k < i {
                        assert(v@.take(i as int)[k] == y);
                        assert(old_out.contains(y));
                        let m = choose|m: int| 0 <= m < old_out.len() && old_out[m] == y;
                        if m < pos {
                            assert(out@[m] == y);
                        } else {
                            assert(out@[m + 1] == y);
                        }
                    } else {
                        assert(out@[pos as int] == y);
                    }
                }
            }
        }
        i += 1;
    }
    assert(v@.take(v.len() as int) =~= v@);
    out
}


/// `r` lists the entries of `s` that satisfy `p`, in order of `key`.
pub open spec fn is_sorted_listing<T>(s: Seq<T>, p: spec_fn(T) -> bool, key: spec_fn(T) -> (i128, u128), r: Seq<T>) -> bool {
    &&& forall|x: T| r.contains(x) <==> (s.contains(x) && p(x))
    &&& forall|i: int, j: int|
        0 <= i < j < r.len() ==> !key_before(
            (key(#[trigger] r[j]).0, key(r[j]).1, 0usize),
            (key(#[trigger] r[i]).0, key(r[i]).1, 0usize),
        )
}

/// `ks` names, once each, the places of `s` whose entries satisfy `p`, with
/// their keys.
pub open spec fn keys_of_places<T>(s: Seq<T>, p: spec_fn(T) -> bool, key: spec_fn(T) -> (i128, u128), ks: Seq<(i128, u128, usize)>) -> bool {
    &&& positions_unique(ks)
    &&& forall|k: int| 0 <= k < ks.len() ==> (#[trigger] ks[k]).2 < s.len() && p(s[ks[k].2 as int]) && key(
        s[ks[k].2 as int],
    ) == (ks[k].0, ks[k].1)
    &&& forall|i: int| 0 <= i < s.len() && p(#[trigger] s[i]) ==> ks.contains((key(s[i]).0, key(s[i]).1, i as usize))
}

/// Entries taken at sorted key places form a sorted listing, with no entry
/// twice when `s` has none twice.
pub proof fn lemma_listing_from_keys<T>(
    s: Seq<T>,
    p: spec_fn(T) -> bool,
    key: spec_fn(T) -> (i128, u128),
    ks: Seq<(i128, u128, usize)>,
    r: Seq<T>,
)
    requires
        s.len() <= usize::MAX,
        keys_of_places(s, p, key, ks),
        keys_in_order(ks),
        r.len() == ks.len(),
        forall|k: int| 0 <= k < r.len() ==> #[trigger] r[k] == s[ks[k].2 as int],
    ensures
        is_sorted_listing(s, p, key, r),
        (forall|a: int, b: int| 0 <= a < s.len() && 0 <= b < s.len() && #[trigger] s[a] == #[trigger] s[b] ==> a == b)
            ==> (forall|i: int, j: int| 0 <= i < r.len() && 0 <= j < r.len() && #[trigger] r[i] == #[trigger] r[j] ==> i == j),
{
    assert forall|x: T| r.contains(x) <==> (s.contains(x) && p(x)) by {
        if r.contains(x) {
            let k = choose|k: int| 0 <= k < r.len() && r[k] == x;
            assert(ks[k].2 < s.len());
            assert(s[ks[k].2 as int] == x);
        }
        if s.contains(x) && p(x) {
            let i = choose|i: int| 0 <= i < s.len() && s[i] == x;
            assert(p(s[i]));
            assert(ks.contains((key(s[i]).0, key(s[i]).1, i as usize)));
            let k = choose|k: int| 0 <= k < ks.len() && ks[k] == (key(s[i]).0, key(s[i]).1, i as usize);
            assert(ks[k].2 as int == i);
            assert(r[k] == s[i]);
        }
    }
    assert forall|i: int, j: int| 0 <= i < j < r.len() implies !key_before(
        (key(#[trigger] r[j]).0, key(r[j]).1, 0usize),
        (key(#[trigger] r[i]).0, key(r[i]).1, 0usize),
    ) by {
        assert(!key_before(ks[j], ks[i]));
        assert(r[i] == s[ks[i].2 as int]);
        assert(r[j] == s[ks[j].2 as int]);
    }
    if forall|a: int, b: int| 0 <= a < s.len() && 0 <= b < s.len() && #[trigger] s[a] == #[trigger] s[b] ==> a == b {
        assert forall|i: int, j: int| 0 <= i < r.len() && 0 <= j < r.len() && #[trigger] r[i] == #[trigger] r[j] implies i
            == j by {
            assert(r[i] == s[ks[i].2 as int]);
            assert(r[j] == s[ks[j].2 as int]);
            assert(ks[i].2 == ks[j].2);
        }
    }
}


/// Sorting keeps `keys_of_places`.
pub proof fn lemma_keys_of_places_sorted<T>(
    s: Seq<T>,
    p: spec_fn(T) -> bool,
    key: spec_fn(T) -> (i128, u128),
    ks: Seq<(i128, u128, usize)>,
    sorted: Seq<(i128, u128, usize)>,
)
    requires
        keys_of_places(s, p, key, ks),
        positions_unique(sorted),
        forall|x: (i128, u128, usize)| sorted.contains(x) <==> ks.contains(x),
    ensures
        keys_of_places(s, p, key, sorted),
{
    assert forall|k: int| 0 <= k < sorted.len() implies (#[trigger] sorted[k]).2 < s.len() && p(s[sorted[k].2 as int])
        && key(s[sorted[k].2 as int]) == (sorted[k].0, sorted[k].1) by {
        assert(sorted.contains(sorted[k]));
        let m = choose|m: int| 0 <= m < ks.len() && ks[m] == sorted[k];
        assert(ks[m] == sorted[k]);
    }
}

/// One more place of `s` checked: its key is added when it satisfies `p`.
pub proof fn lemma_keys_of_places_step<T>(
    s: Seq<T>,
    p: spec_fn(T) -> bool,
    key: spec_fn(T) -> (i128, u128),
    ks: Seq<(i128, u128, usize)>,
    i: int,
    added: bool,
    ks2: Seq<(i128, u128, usize)>,
)
    requires
        0 <= i < s.len() <= usize::MAX,
        keys_of_places(s.take(i), p, key, ks),
        added == p(s[i]),
        ks2 == if added { ks.push((key(s[i]).0, key(s[i]).1, i as usize)) } else { ks },
    ensures
        keys_of_places(s.take(i + 1), p, key, ks2),
{
    let t = s.take(i + 1);
    assert forall|k: int| 0 <= k < ks.len() implies (#[trigger] ks[k]).2 < i && t[ks[k].2 as int] == s[ks[k].2 as int] by {
    }
    assert forall|a: int, b: int| 0 <= a < ks2.len() && 0 <= b < ks2.len() && #[trigger] ks2[a].2 == #[trigger] ks2[b].2 implies a
        == b by {
        if a < ks.len() && b < ks.len() {
            assert(ks[a].2 == ks[b].2);
        } else if a < ks.len() {
            assert(ks[a].2 < i);
        } else if b < ks.len() {
            assert(ks[b].2 < i);
        }
    }
    assert forall|k: int| 0 <= k < ks2.len() implies (#[trigger] ks2[k]).2 < t.len() && p(t[ks2[k].2 as int]) && key(
        t[ks2[k].2 as int],
    ) == (ks2[k].0, ks2[k].1) by {
        if k < ks.len() {
            assert(ks2[k] == ks[k]);
            assert(s.take(i)[ks[k].2 as int] == s[ks[k].2 as int]);
        }
    }
    assert forall|j: int| 0 <= j < t.len() && p(#[trigger] t[j]) implies ks2.contains((key(t[j]).0, key(t[j]).1, j as usize)) by {
        if j < i {
            assert(s.take(i)[j] == t[j]);
            assert(ks.contains((key(t[j]).0, key(t[j]).1, j as usize)));
            let m = choose|m: int| 0 <= m < ks.len() && ks[m] == (key(t[j]).0, key(t[j]).1, j as usize);
            assert(ks2[m] == ks[m]);
        } else {
            assert(ks2[ks.len() as int] == (key(t[j]).0, key(t[j]).1, j as usize));
        }
    }
}

} // verus!
