//! The piece diff engine: given two consecutive occupancy snapshots, compute
//! a minimal edit between them — matched moves (a vacated square paired with
//! a newly occupied square of the same kind, preferring nearby origins),
//! pure removals (fade-outs) and pure additions.

use vstd::prelude::*;
use vstd::arithmetic::div_mod::lemma_fundamental_div_mod;

use crate::board::{lemma_square_index_injective, Board, Piece, Square};

verus! {

/// A pure removal: the square whose piece fades out, and whether another
/// piece now stands there (a capture), which lowers the fade's starting
/// opacity.
#[derive(Clone, Copy, PartialEq, Eq, Structural, Debug)]
pub struct DiffFade {
    pub square: Square,
    pub replaced: bool,
}

/// The minimal edit between two snapshots.
pub struct DiffOutcome {
    /// Piece relocations, as (origin, destination) pairs.
    pub matched: Vec<(Square, Square)>,
    /// Squares whose pieces fade out.
    pub fades: Vec<DiffFade>,
    /// Newly appearing pieces with no plausible origin.
    pub adds: Vec<(Square, Piece)>,
}

/// `sq` was occupied before and its occupant changed or left.
pub open spec fn is_removed(old: Seq<Option<Piece>>, new: Seq<Option<Piece>>, sq: Square) -> bool {
    sq.wf() && old[sq.spec_index()] is Some && old[sq.spec_index()] != new[sq.spec_index()]
}

/// `sq` is occupied now and its occupant changed or appeared.
pub open spec fn is_added(old: Seq<Option<Piece>>, new: Seq<Option<Piece>>, sq: Square) -> bool {
    sq.wf() && new[sq.spec_index()] is Some && old[sq.spec_index()] != new[sq.spec_index()]
}

/// `sq` is the origin of some matched move.
pub open spec fn in_origins(m: Seq<(Square, Square)>, sq: Square) -> bool {
    exists|k: int| 0 <= k < m.len() && (#[trigger] m[k]).0 == sq
}

/// `sq` is the destination of some matched move.
pub open spec fn in_dests(m: Seq<(Square, Square)>, sq: Square) -> bool {
    exists|k: int| 0 <= k < m.len() && (#[trigger] m[k]).1 == sq
}

/// `sq` fades out.
pub open spec fn in_fades(f: Seq<DiffFade>, sq: Square) -> bool {
    exists|k: int| 0 <= k < f.len() && (#[trigger] f[k]).square == sq
}

/// `sq` receives a pure addition.
pub open spec fn in_adds(a: Seq<(Square, Piece)>, sq: Square) -> bool {
    exists|k: int| 0 <= k < a.len() && (#[trigger] a[k]).0 == sq
}

/// A matched move pairs a vacated origin with a newly occupied destination
/// holding the very piece kind that left the origin.
pub open spec fn match_ok(
    old: Seq<Option<Piece>>,
    new: Seq<Option<Piece>>,
    pair: (Square, Square),
) -> bool {
    &&& is_removed(old, new, pair.0)
    &&& is_added(old, new, pair.1)
    &&& old[pair.0.spec_index()] == new[pair.1.spec_index()]
}

/// A fade is an unmatched removal, and its `replaced` flag records whether
/// the square is occupied afterwards.
pub open spec fn fade_ok(
    old: Seq<Option<Piece>>,
    new: Seq<Option<Piece>>,
    m: Seq<(Square, Square)>,
    fd: DiffFade,
) -> bool {
    &&& is_removed(old, new, fd.square)
    &&& !in_origins(m, fd.square)
    &&& fd.replaced <==> new[fd.square.spec_index()] is Some
}

/// A pure addition is an unmatched newly occupied square, recorded with its
/// new occupant.
pub open spec fn add_ok(
    old: Seq<Option<Piece>>,
    new: Seq<Option<Piece>>,
    m: Seq<(Square, Square)>,
    e: (Square, Piece),
) -> bool {
    &&& is_added(old, new, e.0)
    &&& new[e.0.spec_index()] == Some(e.1)
    &&& !in_dests(m, e.0)
}

/// What the diff engine promises of its outcome:
/// - every matched move relocates one piece kind from a vacated square to a
///   newly occupied one, with no origin or destination used twice;
/// - the fades are exactly the unmatched removals, each flagged with whether
///   its square was re-occupied;
/// - the adds are exactly the unmatched additions, each with its new piece;
/// - an addition is left unmatched only when every vacated square that held
///   its piece kind was already claimed by some other match.
pub open spec fn diff_post(
    old: Seq<Option<Piece>>,
    new: Seq<Option<Piece>>,
    m: Seq<(Square, Square)>,
    f: Seq<DiffFade>,
    a: Seq<(Square, Piece)>,
) -> bool {
    &&& forall|k: int| 0 <= k < m.len() ==> match_ok(old, new, #[trigger] m[k])
    &&& forall|k: int, l: int|
        #![trigger m[k], m[l]]
        0 <= k < l < m.len() ==> m[k].0 != m[l].0 && m[k].1 != m[l].1
    &&& forall|k: int| 0 <= k < f.len() ==> fade_ok(old, new, m, #[trigger] f[k])
    &&& forall|k: int, l: int|
        #![trigger f[k], f[l]]
        0 <= k < l < f.len() ==> f[k].square != f[l].square
    &&& forall|sq: Square| #[trigger]
        is_removed(old, new, sq) && !in_origins(m, sq) ==> in_fades(f, sq)
    &&& forall|k: int| 0 <= k < a.len() ==> add_ok(old, new, m, #[trigger] a[k])
    &&& forall|k: int, l: int|
        #![trigger a[k], a[l]]
        0 <= k < l < a.len() ==> a[k].0 != a[l].0
    &&& forall|sq: Square| #[trigger] is_added(old, new, sq) && !in_dests(m, sq) ==> in_adds(a, sq)
    &&& forall|k: int, r: Square|
        #![trigger a[k], is_removed(old, new, r)]
        0 <= k < a.len() && is_removed(old, new, r) && old[r.spec_index()] == Some(a[k].1)
            ==> in_origins(m, r)
}

/// Equality of two optional pieces, usable in verified code.
pub fn piece_opt_eq(x: Option<Piece>, y: Option<Piece>) -> (r: bool)
    ensures
        r == (x == y),
{
    match (x, y) {
        (None, None) => true,
        (Some(p), Some(q)) => p == q,
        _ => false,
    }
}

/// Walk both snapshots square by square and collect the removed squares and
/// the added squares with their new occupants, in rank-major order.
fn collect_changes(prev: &Board, next: &Board) -> (r: (Vec<Square>, Vec<(Square, Piece)>))
    requires
        prev.wf(),
        next.wf(),
    ensures
        forall|k: int|
            0 <= k < r.0@.len() ==> is_removed(prev@, next@, #[trigger] r.0@[k]),
        forall|k: int, l: int|
            #![trigger r.0@[k], r.0@[l]]
            0 <= k < l < r.0@.len() ==> r.0@[k] != r.0@[l],
        forall|sq: Square| #[trigger] is_removed(prev@, next@, sq) ==> r.0@.contains(sq),
        forall|k: int|
            0 <= k < r.1@.len() ==> is_added(prev@, next@, (#[trigger] r.1@[k]).0) && next@[
                r.1@[k].0.spec_index()
            ] == Some(r.1@[k].1),
        forall|k: int, l: int|
            #![trigger r.1@[k], r.1@[l]]
            0 <= k < l < r.1@.len() ==> r.1@[k].0 != r.1@[l].0,
        forall|sq: Square| #[trigger] is_added(prev@, next@, sq) ==> in_adds(r.1@, sq),
{
    let mut removed: Vec<Square> = Vec::new();
    let mut added: Vec<(Square, Piece)> = Vec::new();
    for idx in 0..64usize
        invariant
            prev.wf(),
            next.wf(),
            forall|k: int|
                0 <= k < removed@.len() ==> is_removed(prev@, next@, #[trigger] removed@[k])
                    && removed@[k].spec_index() < idx,
            forall|k: int, l: int|
                #![trigger removed@[k], removed@[l]]
                0 <= k < l < removed@.len() ==> removed@[k] != removed@[l],
            forall|sq: Square| #[trigger]
                is_removed(prev@, next@, sq) && sq.spec_index() < idx ==> removed@.contains(sq),
            forall|k: int|
                0 <= k < added@.len() ==> is_added(prev@, next@, (#[trigger] added@[k]).0)
                    && next@[added@[k].0.spec_index()] == Some(added@[k].1)
                    && added@[k].0.spec_index() < idx,
            forall|k: int, l: int|
                #![trigger added@[k], added@[l]]
                0 <= k < l < added@.len() ==> added@[k].0 != added@[l].0,
            forall|sq: Square| #[trigger]
                is_added(prev@, next@, sq) && sq.spec_index() < idx ==> in_adds(added@, sq),
    {
        let sq = Square { file: (idx % 8) as u8, rank: (idx / 8) as u8 };
        proof {
            lemma_fundamental_div_mod(idx as int, 8);
            assert(sq.wf() && sq.spec_index() == idx);
        }
        let o = prev.piece_at(sq);
        let n = next.piece_at(sq);
        if !piece_opt_eq(o, n) {
            if o.is_some() {
                let ghost prior = removed@;
                removed.push(sq);
                proof {
                    assert forall|s2: Square| #[trigger]
                        is_removed(prev@, next@, s2) && s2.spec_index() < idx
                            + 1 implies removed@.contains(s2) by {
                        if s2.spec_index() < idx {
                            let w = choose|w: int| 0 <= w < prior.len() && prior[w] == s2;
                            assert(removed@[w] == s2);
                        } else {
                            lemma_square_index_injective(s2, sq);
                            assert(removed@[removed@.len() - 1] == s2);
                        }
                    }
                }
            }
            if let Some(p) = n {
                let ghost prior = added@;
                added.push((sq, p));
                proof {
                    assert forall|s2: Square| #[trigger]
                        is_added(prev@, next@, s2) && s2.spec_index() < idx + 1 implies in_adds(
                        added@,
                        s2,
                    ) by {
                        if s2.spec_index() < idx {
                            let w = choose|w: int|
                                0 <= w < prior.len() && (#[trigger] prior[w]).0 == s2;
                            assert(added@[w].0 == s2);
                        } else {
                            lemma_square_index_injective(s2, sq);
                            assert(added@[added@.len() - 1].0 == s2);
                        }
                    }
                }
            }
        } else {
            proof {
                assert forall|s2: Square| #[trigger]
                    is_removed(prev@, next@, s2) && s2.spec_index() < idx
                        + 1 implies removed@.contains(s2) by {
                    if s2.spec_index() >= idx {
                        lemma_square_index_injective(s2, sq);
                    }
                }
                assert forall|s2: Square| #[trigger]
                    is_added(prev@, next@, s2) && s2.spec_index() < idx + 1 implies in_adds(
                    added@,
                    s2,
                ) by {
                    if s2.spec_index() >= idx {
                        lemma_square_index_injective(s2, sq);
                    }
                }
            }
        }
    }
    proof {
        assert forall|sq: Square| #[trigger]
            is_removed(prev@, next@, sq) implies removed@.contains(sq) by {
            assert(sq.spec_index() < 64);
        }
        assert forall|sq: Square| #[trigger] is_added(prev@, next@, sq) implies in_adds(
            added@,
            sq,
        ) by {
            assert(sq.spec_index() < 64);
        }
    }
    (removed, added)
}

/// `fd` fades a square among the first `k` removed entries.
pub open spec fn fade_from_removed(removed: Seq<Square>, k: int, fd: DiffFade) -> bool {
    exists|w: int| 0 <= w < k && #[trigger] removed[w] == fd.square
}

/// `sq` is the square of one of the first `j` added entries.
pub open spec fn in_added_prefix(a: Seq<(Square, Piece)>, j: int, sq: Square) -> bool {
    exists|l: int| 0 <= l < j && (#[trigger] a[l]).0 == sq
}

/// Scan the removed squares for an unclaimed origin holding exactly piece
/// `p`, preferring the one nearest to `dest`; the first candidate wins ties.
fn find_match(
    prev: &Board,
    dest: Square,
    p: Piece,
    removed: &Vec<Square>,
    claimed: &Vec<bool>,
) -> (best: Option<usize>)
    requires
        prev.wf(),
        dest.wf(),
        claimed@.len() == removed@.len(),
        forall|k: int| 0 <= k < removed@.len() ==> (#[trigger] removed@[k]).wf(),
    ensures
        match best {
            Some(b) => b < removed@.len() && !claimed@[b as int] && prev@[removed@[
                b as int
            ].spec_index()] == Some(p),
            None => forall|k: int|
                0 <= k < removed@.len() && !claimed@[k] ==> prev@[(
                #[trigger] removed@[k]).spec_index()] != Some(p),
        },
{
    let mut best: Option<usize> = None;
    let n = removed.len();
    for k in 0..n
        invariant
            n == removed@.len(),
            claimed@.len() == n,
            prev.wf(),
            dest.wf(),
            forall|k2: int| 0 <= k2 < removed@.len() ==> (#[trigger] removed@[k2]).wf(),
            match best {
                Some(b) => b < removed@.len() && !claimed@[b as int] && prev@[removed@[
                    b as int
                ].spec_index()] == Some(p),
                None => forall|k2: int|
                    0 <= k2 < k && !claimed@[k2] ==> prev@[(
                    #[trigger] removed@[k2]).spec_index()] != Some(p),
            },
    {
        if !claimed[k] && piece_opt_eq(prev.piece_at(removed[k]), Some(p)) {
            best = match best {
                None => Some(k),
                Some(b) => {
                    if removed[k].distance(dest) < removed[b].distance(dest) {
                        Some(k)
                    } else {
                        Some(b)
                    }
                },
            };
        }
    }
    best
}

/// Pair each added square with a surviving removed square of the same piece
/// kind where one exists; the leftovers become fades and pure adds.
fn match_changes(
    prev: &Board,
    next: &Board,
    removed: Vec<Square>,
    added: Vec<(Square, Piece)>,
) -> (d: DiffOutcome)
    requires
        prev.wf(),
        next.wf(),
        forall|k: int| 0 <= k < removed@.len() ==> is_removed(prev@, next@, #[trigger] removed@[k]),
        forall|k: int, l: int|
            #![trigger removed@[k], removed@[l]]
            0 <= k < l < removed@.len() ==> removed@[k] != removed@[l],
        forall|sq: Square| #[trigger] is_removed(prev@, next@, sq) ==> removed@.contains(sq),
        forall|k: int|
            0 <= k < added@.len() ==> is_added(prev@, next@, (#[trigger] added@[k]).0) && next@[
                added@[k].0.spec_index()
            ] == Some(added@[k].1),
        forall|k: int, l: int|
            #![trigger added@[k], added@[l]]
            0 <= k < l < added@.len() ==> added@[k].0 != added@[l].0,
        forall|sq: Square| #[trigger] is_added(prev@, next@, sq) ==> in_adds(added@, sq),
    ensures
        diff_post(prev@, next@, d.matched@, d.fades@, d.adds@),
{
    let nr = removed.len();
    let mut claimed: Vec<bool> = Vec::new();
    for k in 0..nr
        invariant
            claimed@.len() == k,
            forall|k2: int| 0 <= k2 < k ==> !claimed@[k2],
    {
        claimed.push(false);
    }

    let mut matched: Vec<(Square, Square)> = Vec::new();
    let mut adds: Vec<(Square, Piece)> = Vec::new();
    let na = added.len();
    for j in 0..na
        invariant
            prev.wf(),
            next.wf(),
            na == added@.len(),
            nr == removed@.len(),
            claimed@.len() == nr,
            forall|k: int|
                0 <= k < removed@.len() ==> is_removed(prev@, next@, #[trigger] removed@[k]),
            forall|k: int, l: int|
                #![trigger removed@[k], removed@[l]]
                0 <= k < l < removed@.len() ==> removed@[k] != removed@[l],
            forall|sq: Square| #[trigger] is_removed(prev@, next@, sq) ==> removed@.contains(sq),
            forall|k: int|
                0 <= k < added@.len() ==> is_added(prev@, next@, (#[trigger] added@[k]).0)
                    && next@[added@[k].0.spec_index()] == Some(added@[k].1),
            forall|k: int, l: int|
                #![trigger added@[k], added@[l]]
                0 <= k < l < added@.len() ==> added@[k].0 != added@[l].0,
            forall|k: int|
                0 <= k < removed@.len() ==> (#[trigger] claimed@[k] <==> in_origins(
                    matched@,
                    removed@[k],
                )),
            forall|k: int| 0 <= k < matched@.len() ==> match_ok(prev@, next@, #[trigger] matched@[k]),
            forall|k: int|
                0 <= k < matched@.len() ==> removed@.contains((#[trigger] matched@[k]).0),
            forall|k: int|
                0 <= k < matched@.len() ==> in_added_prefix(
                    added@,
                    j as int,
                    (#[trigger] matched@[k]).1,
                ),
            forall|k: int, l: int|
                #![trigger matched@[k], matched@[l]]
                0 <= k < l < matched@.len() ==> matched@[k].0 != matched@[l].0 && matched@[k].1
                    != matched@[l].1,
            forall|k: int|
                0 <= k < adds@.len() ==> is_added(prev@, next@, (#[trigger] adds@[k]).0) && next@[
                    adds@[k].0.spec_index()
                ] == Some(adds@[k].1),
            forall|k: int|
                0 <= k < adds@.len() ==> in_added_prefix(added@, j as int, (#[trigger] adds@[k]).0),
            forall|k: int| 0 <= k < adds@.len() ==> !in_dests(matched@, (#[trigger] adds@[k]).0),
            forall|k: int, l: int|
                #![trigger adds@[k], adds@[l]]
                0 <= k < l < adds@.len() ==> adds@[k].0 != adds@[l].0,
            forall|k: int, r: Square|
                #![trigger adds@[k], is_removed(prev@, next@, r)]
                0 <= k < adds@.len() && is_removed(prev@, next@, r) && prev@[r.spec_index()]
                    == Some(adds@[k].1) ==> in_origins(matched@, r),
            forall|l: int|
                0 <= l < j ==> in_dests(matched@, (#[trigger] added@[l]).0) || in_adds(
                    adds@,
                    added@[l].0,
                ),
    {
        let entry = added[j];
        let sq = entry.0;
        let p = entry.1;
        let found = find_match(prev, sq, p, &removed, &claimed);
        let ghost old_matched = matched@;
        let ghost old_claimed = claimed@;
        let ghost old_adds = adds@;
        match found {
            Some(b) => {
                let orig = removed[b];
                claimed.set(b, true);
                matched.push((orig, sq));
                proof {
                    let e = (orig, sq);
                    let m2 = matched@;
                    assert(m2 == old_matched.push(e));
                    assert(m2[m2.len() - 1] == e);
                    // the new pair is a proper match
                    assert(match_ok(prev@, next@, e));
                    // membership in the grown origin set
                    assert forall|s2: Square| in_origins(old_matched, s2) implies in_origins(
                        m2,
                        s2,
                    ) by {
                        let w = choose|w: int|
                            0 <= w < old_matched.len() && (#[trigger] old_matched[w]).0 == s2;
                        assert(m2[w].0 == s2);
                    }
                    assert forall|s2: Square| in_dests(old_matched, s2) implies in_dests(
                        m2,
                        s2,
                    ) by {
                        let w = choose|w: int|
                            0 <= w < old_matched.len() && (#[trigger] old_matched[w]).1 == s2;
                        assert(m2[w].1 == s2);
                    }
                    // the claimed flags still mirror the origin set
                    assert forall|k: int| 0 <= k < removed@.len() implies (#[trigger] claimed@[k]
                        <==> in_origins(m2, removed@[k])) by {
                        if k == b {
                            assert(m2[m2.len() - 1].0 == removed@[k]);
                        } else {
                            if in_origins(m2, removed@[k]) {
                                let w = choose|w: int|
                                    0 <= w < m2.len() && (#[trigger] m2[w]).0 == removed@[k];
                                if w == m2.len() - 1 {
                                    // removed squares are pairwise distinct
                                    assert(removed@[k] != removed@[b as int]);
                                    assert(false);
                                } else {
                                    assert(old_matched[w].0 == removed@[k]);
                                }
                            }
                        }
                    }
                    // the new origin differs from every earlier origin, the
                    // new destination from every earlier destination
                    assert forall|k: int, l: int|
                        #![trigger m2[k], m2[l]]
                        0 <= k < l < m2.len() implies m2[k].0 != m2[l].0 && m2[k].1
                        != m2[l].1 by {
                        if l == m2.len() - 1 {
                            assert(old_matched[k] == m2[k]);
                            if m2[k].0 == e.0 {
                                assert(in_origins(old_matched, e.0));
                                assert(old_claimed[b as int]);
                                assert(false);
                            }
                            if m2[k].1 == e.1 {
                                let w = choose|w: int|
                                    0 <= w < j && (#[trigger] added@[w]).0 == m2[k].1;
                                assert(added@[w].0 == added@[j as int].0);
                                assert(false);
                            }
                        }
                    }
                    // no pure add sits on the new destination
                    assert forall|k: int| 0 <= k < adds@.len() implies !in_dests(
                        m2,
                        (#[trigger] adds@[k]).0,
                    ) by {
                        if in_dests(m2, adds@[k].0) {
                            let w = choose|w: int|
                                0 <= w < m2.len() && (#[trigger] m2[w]).1 == adds@[k].0;
                            if w == m2.len() - 1 {
                                let w2 = choose|w2: int|
                                    0 <= w2 < j && (#[trigger] added@[w2]).0 == adds@[k].0;
                                assert(added@[w2].0 == added@[j as int].0);
                                assert(false);
                            } else {
                                assert(in_dests(old_matched, adds@[k].0));
                                assert(false);
                            }
                        }
                    }
                    // every processed entry is matched or a pure add
                    assert forall|l: int| 0 <= l < j + 1 implies in_dests(
                        m2,
                        (#[trigger] added@[l]).0,
                    ) || in_adds(adds@, added@[l].0) by {
                        if l == j {
                            assert(m2[m2.len() - 1].1 == added@[l].0);
                        }
                    }
                }
            },
            None => {
                adds.push((sq, p));
                proof {
                    let a2 = adds@;
                    assert(a2 == old_adds.push((sq, p)));
                    assert(a2[a2.len() - 1] == (sq, p));
                    // the new entry's kind has no surviving origin left
                    assert forall|r: Square|
                        is_removed(prev@, next@, r) && prev@[r.spec_index()] == Some(
                            p,
                        ) implies in_origins(matched@, r) by {
                        assert(removed@.contains(r));
                        let w = choose|w: int|
                            0 <= w < removed@.len() && #[trigger] removed@[w] == r;
                        assert(!claimed@[w] ==> prev@[removed@[w].spec_index()] != Some(p));
                        assert(claimed@[w]);
                    }
                    // the new square was never a destination
                    assert(!in_dests(matched@, sq)) by {
                        if in_dests(matched@, sq) {
                            let w = choose|w: int|
                                0 <= w < matched@.len() && (#[trigger] matched@[w]).1 == sq;
                            let w2 = choose|w2: int|
                                0 <= w2 < j && (#[trigger] added@[w2]).0 == matched@[w].1;
                            assert(added@[w2].0 == added@[j as int].0);
                            assert(false);
                        }
                    }
                    // and differs from every earlier pure add
                    assert forall|k: int, l: int|
                        #![trigger a2[k], a2[l]]
                        0 <= k < l < a2.len() implies a2[k].0 != a2[l].0 by {
                        if l == a2.len() - 1 {
                            assert(old_adds[k] == a2[k]);
                            if a2[k].0 == sq {
                                let w = choose|w: int|
                                    0 <= w < j && (#[trigger] added@[w]).0 == a2[k].0;
                                assert(added@[w].0 == added@[j as int].0);
                                assert(false);
                            }
                        }
                    }
                    assert forall|l: int| 0 <= l < j + 1 implies in_dests(
                        matched@,
                        (#[trigger] added@[l]).0,
                    ) || in_adds(a2, added@[l].0) by {
                        if l == j {
                            assert(a2[a2.len() - 1].0 == added@[l].0);
                        } else {
                            if in_adds(old_adds, added@[l].0) {
                                let w = choose|w: int|
                                    0 <= w < old_adds.len() && (#[trigger] old_adds[w]).0
                                        == added@[l].0;
                                assert(a2[w].0 == added@[l].0);
                            }
                        }
                    }
                }
            },
        }
    }

    let mut fades: Vec<DiffFade> = Vec::new();
    for k in 0..nr
        invariant
            prev.wf(),
            next.wf(),
            nr == removed@.len(),
            claimed@.len() == nr,
            forall|k2: int|
                0 <= k2 < removed@.len() ==> is_removed(prev@, next@, #[trigger] removed@[k2])
                    && removed@[k2].wf(),
            forall|k2: int, l: int|
                #![trigger removed@[k2], removed@[l]]
                0 <= k2 < l < removed@.len() ==> removed@[k2] != removed@[l],
            forall|k2: int|
                0 <= k2 < removed@.len() ==> (#[trigger] claimed@[k2] <==> in_origins(
                    matched@,
                    removed@[k2],
                )),
            forall|k2: int|
                0 <= k2 < fades@.len() ==> fade_ok(prev@, next@, matched@, #[trigger] fades@[k2]),
            forall|k2: int|
                0 <= k2 < fades@.len() ==> fade_from_removed(removed@, k as int, #[trigger] fades@[k2]),
            forall|k2: int, l: int|
                #![trigger fades@[k2], fades@[l]]
                0 <= k2 < l < fades@.len() ==> fades@[k2].square != fades@[l].square,
            forall|k2: int|
                0 <= k2 < k && !claimed@[k2] ==> in_fades(fades@, #[trigger] removed@[k2]),
    {
        if !claimed[k] {
            let sq = removed[k];
            let replaced = next.occupied(sq);
            let ghost old_fades = fades@;
            fades.push(DiffFade { square: sq, replaced });
            proof {
                let f2 = fades@;
                assert(f2[f2.len() - 1] == (DiffFade { square: sq, replaced }));
                assert forall|k2: int| 0 <= k2 < f2.len() implies fade_from_removed(
                    removed@,
                    k + 1,
                    #[trigger] f2[k2],
                ) by {
                    if k2 == f2.len() - 1 {
                        assert(removed@[k as int] == f2[k2].square);
                    } else {
                        assert(fade_from_removed(removed@, k as int, old_fades[k2]));
                        let w = choose|w: int|
                            0 <= w < k && #[trigger] removed@[w] == old_fades[k2].square;
                        assert(removed@[w] == f2[k2].square);
                    }
                }
                assert forall|k2: int, l: int|
                    #![trigger f2[k2], f2[l]]
                    0 <= k2 < l < f2.len() implies f2[k2].square != f2[l].square by {
                    if l == f2.len() - 1 {
                        assert(old_fades[k2] == f2[k2]);
                        assert(fade_from_removed(removed@, k as int, old_fades[k2]));
                        let w = choose|w: int|
                            0 <= w < k && #[trigger] removed@[w] == f2[k2].square;
                        if f2[k2].square == sq {
                            assert(removed@[w] == removed@[k as int]);
                            assert(false);
                        }
                    }
                }
                assert forall|k2: int| 0 <= k2 < k + 1 && !claimed@[k2] implies in_fades(
                    f2,
                    #[trigger] removed@[k2],
                ) by {
                    if k2 == k {
                        assert(f2[f2.len() - 1].square == removed@[k2]);
                    } else {
                        let w = choose|w: int|
                            0 <= w < old_fades.len() && (#[trigger] old_fades[w]).square
                                == removed@[k2];
                        assert(f2[w].square == removed@[k2]);
                    }
                }
            }
        }
    }

    proof {
        assert forall|sq: Square| #[trigger]
            is_removed(prev@, next@, sq) && !in_origins(matched@, sq) implies in_fades(
            fades@,
            sq,
        ) by {
            let w = choose|w: int| 0 <= w < removed@.len() && #[trigger] removed@[w] == sq;
            assert(!claimed@[w]);
        }
        assert forall|sq: Square| #[trigger]
            is_added(prev@, next@, sq) && !in_dests(matched@, sq) implies in_adds(adds@, sq) by {
            let w = choose|w: int| 0 <= w < added@.len() && (#[trigger] added@[w]).0 == sq;
        }
    }
    DiffOutcome { matched, fades, adds }
}

/// Diffing a snapshot against itself produces no matches, no fades and no
/// adds: the diff engine is idempotent on an unchanged position.
pub proof fn lemma_diff_identity(
    b: Seq<Option<Piece>>,
    m: Seq<(Square, Square)>,
    f: Seq<DiffFade>,
    a: Seq<(Square, Piece)>,
)
    requires
        diff_post(b, b, m, f, a),
    ensures
        m.len() == 0,
        f.len() == 0,
        a.len() == 0,
{
    if m.len() > 0 {
        assert(match_ok(b, b, m[0]));
        assert(false);
    }
    if f.len() > 0 {
        assert(fade_ok(b, b, m, f[0]));
        assert(false);
    }
    if a.len() > 0 {
        assert(add_ok(b, b, m, a[0]));
        assert(false);
    }
}

/// When two snapshots differ by exactly one piece moving from `s1` to the
/// previously empty `s2`, the diff is exactly one matched move `(s1, s2)`,
/// with no fades and no adds.
pub proof fn lemma_diff_single_move(
    old: Seq<Option<Piece>>,
    new: Seq<Option<Piece>>,
    s1: Square,
    s2: Square,
    p: Piece,
    m: Seq<(Square, Square)>,
    f: Seq<DiffFade>,
    a: Seq<(Square, Piece)>,
)
    requires
        diff_post(old, new, m, f, a),
        s1.wf(),
        s2.wf(),
        s1 != s2,
        old[s1.spec_index()] == Some(p),
        new[s1.spec_index()] is None,
        old[s2.spec_index()] is None,
        new[s2.spec_index()] == Some(p),
        forall|sq: Square|
            sq.wf() && sq != s1 && sq != s2 ==> old[#[trigger] sq.spec_index()] == new[
                sq.spec_index()
            ],
    ensures
        m =~= seq![(s1, s2)],
        f.len() == 0,
        a.len() == 0,
{
    assert(is_removed(old, new, s1));
    assert(is_added(old, new, s2));
    // the move's endpoints are the only changed squares
    assert forall|sq: Square| #[trigger] is_removed(old, new, sq) implies sq == s1 by {
        if sq != s1 && sq != s2 {
            assert(old[sq.spec_index()] == new[sq.spec_index()]);
        }
    }
    assert forall|sq: Square| #[trigger] is_added(old, new, sq) implies sq == s2 by {
        if sq != s1 && sq != s2 {
            assert(old[sq.spec_index()] == new[sq.spec_index()]);
        }
    }
    // no pure add: s1 still offered an origin of the right kind
    if a.len() > 0 {
        assert(add_ok(old, new, m, a[0]));
        assert(a[0].0 == s2);
        assert(a[0].1 == p);
        assert(in_origins(m, s1));
        let w = choose|w: int| 0 <= w < m.len() && (#[trigger] m[w]).0 == s1;
        assert(match_ok(old, new, m[w]));
        assert(m[w].1 == s2);
        assert(in_dests(m, s2));
        assert(false);
    }
    // so s2 must be a destination, giving at least one match
    assert(in_adds(a, s2) ==> false);
    assert(in_dests(m, s2));
    let w = choose|w: int| 0 <= w < m.len() && (#[trigger] m[w]).1 == s2;
    assert(match_ok(old, new, m[w]));
    assert(m[w] == (s1, s2));
    // and at most one: origins are distinct and all equal s1
    assert forall|k: int| 0 <= k < m.len() implies m[k] == (s1, s2) by {
        assert(match_ok(old, new, m[k]));
    }
    if m.len() > 1 {
        assert(m[0].0 != m[1].0);
        assert(false);
    }
    assert(m =~= seq![(s1, s2)]);
    // no fade: the only removal is matched
    if f.len() > 0 {
        assert(fade_ok(old, new, m, f[0]));
        assert(f[0].square == s1);
        assert(m[0].0 == s1);
        assert(in_origins(m, s1));
        assert(false);
    }
}

/// When a piece is captured — its square now holds a different kind, no
/// vacated square held that new kind (so the newcomer cannot be a matched
/// move), and no addition elsewhere is of the captured kind (so the captured
/// piece cannot be matched away as an origin) — the diff fades the captured
/// piece and flags it `replaced`.
pub proof fn lemma_diff_capture(
    old: Seq<Option<Piece>>,
    new: Seq<Option<Piece>>,
    s: Square,
    p: Piece,
    q: Piece,
    m: Seq<(Square, Square)>,
    f: Seq<DiffFade>,
    a: Seq<(Square, Piece)>,
)
    requires
        diff_post(old, new, m, f, a),
        s.wf(),
        old[s.spec_index()] == Some(p),
        new[s.spec_index()] == Some(q),
        p != q,
        forall|r: Square| #[trigger]
            is_removed(old, new, r) ==> old[r.spec_index()] != Some(q),
        forall|d: Square| #[trigger] is_added(old, new, d) ==> new[d.spec_index()] != Some(p),
    ensures
        in_fades(f, s),
        forall|k: int| 0 <= k < f.len() && (#[trigger] f[k]).square == s ==> f[k].replaced,
{
    assert(is_removed(old, new, s));
    // s cannot be the origin of a match: the matched piece would be a
    // newly-added `p`, which the premises rule out
    if in_origins(m, s) {
        let w = choose|w: int| 0 <= w < m.len() && (#[trigger] m[w]).0 == s;
        assert(match_ok(old, new, m[w]));
        assert(new[m[w].1.spec_index()] == Some(p));
        assert(is_added(old, new, m[w].1));
        assert(false);
    }
    assert(in_fades(f, s));
    assert forall|k: int| 0 <= k < f.len() && (#[trigger] f[k]).square == s implies f[
        k
    ].replaced by {
        assert(fade_ok(old, new, m, f[k]));
    }
}

/// Compute the minimal edit between two consecutive snapshots: matched
/// moves, fade-outs and pure additions.
pub fn compute_diff(prev: &Board, next: &Board) -> (d: DiffOutcome)
    requires
        prev.wf(),
        next.wf(),
    ensures
        diff_post(prev@, next@, d.matched@, d.fades@, d.adds@),
{
    let changes = collect_changes(prev, next);
    match_changes(prev, next, changes.0, changes.1)
}

} // verus!
