//! The fuzzy-search engine: case-insensitive subsequence matching over
//! display strings, a score that rewards contiguous runs, segment
//! boundaries and early matches, and ranked results with per-byte match
//! positions.

use vstd::prelude::*;

use crate::ascii::fold;
use crate::ascii::fold_byte;
use crate::ascii::fold_byte_exec;
use crate::catalog::display_of;
use crate::catalog::display_string;
use crate::catalog::entries_view;
use crate::catalog::ScriptEntry;
use crate::catalog::ScriptEntryV;

verus! {

/// Byte value of `'/'`, the segment separator inside a display string.
pub const SEPARATOR: u8 = 47;

/// Score added to a matched byte that directly follows the previous match.
pub const RUN_BONUS: u128 = 8;

/// Score added to a matched byte at the start of the string or right
/// after a `'/'` separator.
pub const BOUNDARY_BONUS: u128 = 4;

/// Matches that begin before this offset earn the difference as a bonus.
pub const EARLY_CAP: u128 = 8;

/// Largest score one matched byte can earn (base point plus both bonuses).
pub const MAX_BYTE_SCORE: u128 = 13;

/// `q` occurs inside `t` as a subsequence: every byte of `q` appears in
/// `t`, in order, not necessarily contiguously. Both are compared exactly;
/// callers fold for case-insensitivity.
pub open spec fn is_subsequence(q: Seq<u8>, t: Seq<u8>) -> bool
    decreases t.len(),
{
    if q.len() == 0 {
        true
    } else if t.len() == 0 {
        false
    } else if q.first() == t.first() {
        is_subsequence(q.drop_first(), t.drop_first())
    } else {
        is_subsequence(q, t.drop_first())
    }
}

/// The positions the greedy leftmost embedding of `q` into `t` consumes,
/// shifted by `off`. When `q` is a subsequence of `t` the result has one
/// position per byte of `q` and ends at the earliest position where a
/// match can end; otherwise it is shorter. This forward pass only fixes
/// that end: the positions a match reports come from `chosen_positions`.
pub open spec fn match_positions(q: Seq<u8>, t: Seq<u8>, off: int) -> Seq<int>
    decreases t.len(),
{
    if q.len() == 0 || t.len() == 0 {
        Seq::empty()
    } else if q.first() == t.first() {
        seq![off] + match_positions(q.drop_first(), t.drop_first(), off + 1)
    } else {
        match_positions(q, t.drop_first(), off + 1)
    }
}

/// The rightmost embedding of `q` into `t`: matching backward from the
/// end, each query byte sits as late in `t` as it can. When `q` is a
/// subsequence of `t` the result has one position per byte of `q`.
pub open spec fn back_positions(q: Seq<u8>, t: Seq<u8>) -> Seq<int>
    decreases t.len(),
{
    if q.len() == 0 || t.len() == 0 {
        Seq::empty()
    } else if q.last() == t.last() {
        back_positions(q.drop_last(), t.drop_last()).push(t.len() - 1)
    } else {
        back_positions(q, t.drop_last())
    }
}

/// The positions a match reports: the forward pass finds the earliest
/// position where the match can end, and the backward pass then pulls
/// every matched byte as far right as possible below that end. This
/// tightens the match into the last display segment it can occupy, so a
/// query naming a script matches inside the script's own name rather
/// than picking up stray bytes of the category.
pub open spec fn chosen_positions(q: Seq<u8>, t: Seq<u8>) -> Seq<int> {
    if q.len() > 0 && is_subsequence(q, t) {
        back_positions(q, t.take(match_positions(q, t, 0).last() + 1))
    } else {
        Seq::empty()
    }
}

/// What the byte matched at `ps[k]` contributes to the score of a match
/// of `t` with positions `ps`.
pub open spec fn byte_score(t: Seq<u8>, ps: Seq<int>, k: int) -> int {
    1 + (if k > 0 && ps[k] == ps[k - 1] + 1 {
        RUN_BONUS as int
    } else {
        0
    }) + (if ps[k] == 0 || t[ps[k] - 1] == SEPARATOR {
        BOUNDARY_BONUS as int
    } else {
        0
    })
}

/// Sum of the per-byte scores of a match of `t` with positions `ps`.
pub open spec fn score_sum(t: Seq<u8>, ps: Seq<int>) -> int
    decreases ps.len(),
{
    if ps.len() == 0 {
        0
    } else {
        score_sum(t, ps.drop_last()) + byte_score(t, ps, ps.len() - 1)
    }
}

/// Bonus for a match that starts early in the display string.
pub open spec fn early_bonus(ps: Seq<int>) -> int {
    if ps.len() > 0 && ps[0] < EARLY_CAP as int {
        EARLY_CAP as int - ps[0]
    } else {
        0
    }
}

/// The rank score of a match of `t` with positions `ps`. An empty query
/// scores the neutral 0 on every target.
pub open spec fn score_of(t: Seq<u8>, ps: Seq<int>) -> int {
    score_sum(t, ps) + early_bonus(ps)
}

/// The reported positions of a query against an entry's display string,
/// computed case-insensitively.
pub open spec fn entry_positions(q: Seq<u8>, e: ScriptEntryV) -> Seq<int> {
    chosen_positions(fold(q), fold(display_of(e)))
}

/// Whether a query matches an entry, case-insensitively.
pub open spec fn entry_matches(q: Seq<u8>, e: ScriptEntryV) -> bool {
    is_subsequence(fold(q), fold(display_of(e)))
}

/// The score of a query against an entry.
pub open spec fn entry_score(q: Seq<u8>, e: ScriptEntryV) -> int {
    score_of(display_of(e), entry_positions(q, e))
}

/// The greedy positions embed `q` into `t`: there are at most `q.len()`
/// of them, exactly `q.len()` iff `q` is a subsequence of `t`, they are
/// strictly increasing, they lie in `[off, off + t.len())`, and each
/// names a byte of `t` equal to the query byte it consumes.
pub proof fn lemma_match_positions_props(q: Seq<u8>, t: Seq<u8>, off: int)
    ensures
        match_positions(q, t, off).len() <= q.len(),
        match_positions(q, t, off).len() == q.len() <==> is_subsequence(q, t),
        forall|k: int|
            0 <= k < match_positions(q, t, off).len() ==> off <= #[trigger] match_positions(
                q,
                t,
                off,
            )[k] < off + t.len(),
        forall|k: int|
            0 < k < match_positions(q, t, off).len() ==> match_positions(q, t, off)[k - 1]
                < #[trigger] match_positions(q, t, off)[k],
        forall|k: int|
            0 <= k < match_positions(q, t, off).len() ==> t[#[trigger] match_positions(
                q,
                t,
                off,
            )[k] - off] == q[k],
    decreases t.len(),
{
    let ps = match_positions(q, t, off);
    if q.len() == 0 || t.len() == 0 {
    } else if q.first() == t.first() {
        lemma_match_positions_props(q.drop_first(), t.drop_first(), off + 1);
        let rest = match_positions(q.drop_first(), t.drop_first(), off + 1);
        assert(ps == seq![off] + rest);
        assert forall|k: int| 0 <= k < ps.len() implies off <= #[trigger] ps[k] < off
            + t.len() by {
            if k > 0 {
                assert(ps[k] == rest[k - 1]);
            }
        }
        assert forall|k: int| 0 < k < ps.len() implies ps[k - 1] < #[trigger] ps[k] by {
            if k == 1 {
                assert(ps[1] == rest[0]);
            } else {
                assert(ps[k] == rest[k - 1] && ps[k - 1] == rest[k - 2]);
            }
        }
        assert forall|k: int| 0 <= k < ps.len() implies t[#[trigger] ps[k] - off] == q[k] by {
            if k > 0 {
                assert(ps[k] == rest[k - 1]);
                assert(t.drop_first()[rest[k - 1] - (off + 1)] == q.drop_first()[k - 1]);
            }
        }
    } else {
        lemma_match_positions_props(q, t.drop_first(), off + 1);
        let rest = match_positions(q, t.drop_first(), off + 1);
        assert(ps == rest);
        assert forall|k: int| 0 <= k < ps.len() implies t[#[trigger] ps[k] - off] == q[k] by {
            assert(t.drop_first()[rest[k] - (off + 1)] == q[k]);
        }
    }
}

/// Shifting the start of a `skip` by one is dropping the first element.
proof fn lemma_skip_succ(s: Seq<u8>, n: int)
    requires
        0 <= n < s.len(),
    ensures
        s.skip(n).drop_first() == s.skip(n + 1),
{
    assert(s.skip(n).drop_first() =~= s.skip(n + 1));
}

/// In a sequence whose adjacent elements increase strictly, any earlier
/// element is at most any later one.
proof fn lemma_adjacent_increasing_le(e: Seq<int>, i: int, j: int)
    requires
        forall|k: int| 0 < k < e.len() ==> e[k - 1] < #[trigger] e[k],
        0 <= i <= j < e.len(),
    ensures
        e[i] <= e[j],
    decreases j - i,
{
    if i < j {
        lemma_adjacent_increasing_le(e, i, j - 1);
        assert(e[j - 1] < e[j]);
    }
}

/// The backward positions embed `q` into `t`: there are at most
/// `q.len()` of them, exactly `q.len()` iff some embedding of `q` into
/// `t` exists, and a complete backward match is itself an embedding.
#[verifier::rlimit(100)]
#[verifier::spinoff_prover]
pub proof fn lemma_back_positions_props(q: Seq<u8>, t: Seq<u8>)
    ensures
        back_positions(q, t).len() <= q.len(),
        back_positions(q, t).len() == q.len() <==> (exists|idxs: Seq<int>|
            #[trigger] embeds(q, t, idxs)),
        back_positions(q, t).len() == q.len() ==> embeds(q, t, back_positions(q, t)),
    decreases t.len(),
{
    let ps = back_positions(q, t);
    if q.len() == 0 {
        assert(embeds(q, t, Seq::<int>::empty()));
        assert(ps =~= Seq::<int>::empty());
    } else if t.len() == 0 {
        assert(ps =~= Seq::<int>::empty());
        if exists|idxs: Seq<int>| #[trigger] embeds(q, t, idxs) {
            let e = choose|idxs: Seq<int>| #[trigger] embeds(q, t, idxs);
            assert(0 <= e[0] < t.len());
            assert(false);
        }
    } else {
        let q1 = q.drop_last();
        let t1 = t.drop_last();
        if q.last() == t.last() {
            lemma_back_positions_props(q1, t1);
            let inner = back_positions(q1, t1);
            assert(ps == inner.push(t.len() - 1));
            // an embedding into the shorter strings extends by the last byte
            if inner.len() == q1.len() {
                let e1 = choose|idxs: Seq<int>| #[trigger] embeds(q1, t1, idxs);
                let e2 = e1.push(t.len() - 1);
                assert(embeds(q, t, e2)) by {
                    assert forall|k: int| 0 <= k < e2.len() implies 0 <= #[trigger] e2[k]
                        < t.len() by {
                        if k < e2.len() - 1 {
                            assert(e2[k] == e1[k] && 0 <= e1[k] < t1.len());
                        }
                    }
                    assert forall|k: int| 0 < k < e2.len() implies e2[k - 1] < #[trigger] e2[
                        k
                    ] by {
                        if k < e2.len() - 1 {
                            assert(e2[k] == e1[k] && e2[k - 1] == e1[k - 1]);
                        } else {
                            assert(e2[k - 1] == e1[k - 1] && e1[k - 1] < t1.len());
                        }
                    }
                    assert forall|k: int| 0 <= k < e2.len() implies t[#[trigger] e2[k]] == q[
                        k
                    ] by {
                        if k < e2.len() - 1 {
                            assert(t1[e1[k]] == q1[k]);
                        }
                    }
                }
            }
            // an embedding into the full strings restricts to the shorter ones
            if exists|idxs: Seq<int>| #[trigger] embeds(q, t, idxs) {
                let e = choose|idxs: Seq<int>| #[trigger] embeds(q, t, idxs);
                let e1 = e.drop_last();
                assert(embeds(q1, t1, e1)) by {
                    assert forall|k: int| 0 <= k < e1.len() implies 0 <= #[trigger] e1[k]
                        < t1.len() by {
                        lemma_adjacent_increasing_le(e, k, e.len() - 2);
                        assert(e[e.len() - 2] < e[e.len() - 1]);
                        assert(e1[k] == e[k]);
                    }
                    assert forall|k: int| 0 < k < e1.len() implies e1[k - 1] < #[trigger] e1[
                        k
                    ] by {
                        assert(e1[k] == e[k] && e1[k - 1] == e[k - 1]);
                    }
                    assert forall|k: int| 0 <= k < e1.len() implies t1[#[trigger] e1[k]] == q1[
                        k
                    ] by {
                        lemma_adjacent_increasing_le(e, k, e.len() - 2);
                        assert(e[e.len() - 2] < e[e.len() - 1]);
                        assert(t[e[k]] == q[k]);
                    }
                }
            }
            // complete backward matches are embeddings
            if ps.len() == q.len() {
                assert(inner.len() == q1.len());
                assert(embeds(q1, t1, inner));
                assert(embeds(q, t, ps)) by {
                    assert forall|k: int| 0 <= k < ps.len() implies 0 <= #[trigger] ps[k]
                        < t.len() by {
                        if k < ps.len() - 1 {
                            assert(ps[k] == inner[k] && 0 <= inner[k] < t1.len());
                        }
                    }
                    assert forall|k: int| 0 < k < ps.len() implies ps[k - 1] < #[trigger] ps[
                        k
                    ] by {
                        if k < ps.len() - 1 {
                            assert(ps[k] == inner[k] && ps[k - 1] == inner[k - 1]);
                        } else {
                            assert(ps[k - 1] == inner[k - 1] && inner[k - 1] < t1.len());
                        }
                    }
                    assert forall|k: int| 0 <= k < ps.len() implies t[#[trigger] ps[k]] == q[
                        k
                    ] by {
                        if k < ps.len() - 1 {
                            assert(ps[k] == inner[k]);
                            assert(t1[inner[k]] == q1[k]);
                        }
                    }
                }
            }
        } else {
            lemma_back_positions_props(q, t1);
            assert(ps == back_positions(q, t1));
            // an embedding into `t` avoids the mismatched last byte
            if exists|idxs: Seq<int>| #[trigger] embeds(q, t, idxs) {
                let e = choose|idxs: Seq<int>| #[trigger] embeds(q, t, idxs);
                assert(embeds(q, t1, e)) by {
                    assert(t[e[e.len() - 1]] == q.last());
                    assert(e[e.len() - 1] != t.len() - 1);
                    assert forall|k: int| 0 <= k < e.len() implies 0 <= #[trigger] e[k]
                        < t1.len() by {
                        lemma_adjacent_increasing_le(e, k, e.len() - 1);
                    }
                    assert forall|k: int| 0 <= k < e.len() implies t1[#[trigger] e[k]] == q[
                        k
                    ] by {
                        lemma_adjacent_increasing_le(e, k, e.len() - 1);
                        assert(t[e[k]] == q[k]);
                    }
                }
            }
            // and conversely, one into `t1` embeds into `t` unchanged
            if exists|idxs: Seq<int>| #[trigger] embeds(q, t1, idxs) {
                let e = choose|idxs: Seq<int>| #[trigger] embeds(q, t1, idxs);
                assert(embeds(q, t, e)) by {
                    assert forall|k: int| 0 <= k < e.len() implies t[#[trigger] e[k]] == q[
                        k
                    ] by {
                        assert(t1[e[k]] == q[k]);
                    }
                }
            }
            if ps.len() == q.len() {
                assert(embeds(q, t1, ps));
                assert(embeds(q, t, ps)) by {
                    assert forall|k: int| 0 <= k < ps.len() implies t[#[trigger] ps[k]] == q[
                        k
                    ] by {
                        assert(t1[ps[k]] == q[k]);
                    }
                }
            }
        }
    }
}

/// When `q` is a subsequence of `t`, the reported positions form an
/// embedding of `q`: one strictly increasing, in-range position per
/// query byte, each naming an equal byte of `t`.
pub proof fn lemma_chosen_positions_props(q: Seq<u8>, t: Seq<u8>)
    ensures
        is_subsequence(q, t) ==> embeds(q, t, chosen_positions(q, t)),
        !is_subsequence(q, t) ==> chosen_positions(q, t) == Seq::<int>::empty(),
        q.len() == 0 ==> chosen_positions(q, t) == Seq::<int>::empty(),
{
    if q.len() > 0 && is_subsequence(q, t) {
        lemma_match_positions_props(q, t, 0);
        let fwd = match_positions(q, t, 0);
        let e = fwd.last();
        let tpre = t.take(e + 1);
        assert(0 <= e < t.len());
        assert(embeds(q, tpre, fwd)) by {
            assert forall|k: int| 0 <= k < fwd.len() implies 0 <= #[trigger] fwd[k]
                < tpre.len() by {
                lemma_adjacent_increasing_le(fwd, k, fwd.len() - 1);
            }
            assert forall|k: int| 0 <= k < fwd.len() implies tpre[#[trigger] fwd[k]] == q[
                k
            ] by {
                lemma_adjacent_increasing_le(fwd, k, fwd.len() - 1);
                assert(t[fwd[k] - 0] == q[k]);
            }
        }
        lemma_back_positions_props(q, tpre);
        let cs = back_positions(q, tpre);
        assert(cs.len() == q.len());
        assert(embeds(q, tpre, cs));
        assert(chosen_positions(q, t) == cs);
        assert(embeds(q, t, cs)) by {
            assert forall|k: int| 0 <= k < cs.len() implies 0 <= #[trigger] cs[k] < t.len() by {
                assert(0 <= cs[k] < tpre.len());
            }
            assert forall|k: int| 0 <= k < cs.len() implies t[#[trigger] cs[k]] == q[k] by {
                assert(tpre[cs[k]] == q[k]);
            }
        }
    }
}

/// View of a vector of byte offsets as mathematical integers.
pub open spec fn idxs_view(v: Seq<usize>) -> Seq<int> {
    v.map_values(|u: usize| u as int)
}

/// The backward pass: walks `target[..=e]` from the right and records,
/// in reverse order, the rightmost position for each query byte.
fn backward_pass(query: &Vec<u8>, target: &Vec<u8>, e: usize) -> (back: Vec<usize>)
    requires
        e < target@.len(),
        query@.len() > 0,
        back_positions(fold(query@), fold(target@).take(e + 1)).len() == query@.len(),
    ensures
        back@.len() == query@.len(),
        idxs_view(back@).reverse() == back_positions(fold(query@), fold(target@).take(e + 1)),
{
    let ghost fq = fold(query@);
    let ghost ft = fold(target@);
    let ghost tpre = ft.take(e + 1);
    let tl = target.len();
    assert(e < tl);
    let mut back: Vec<usize> = Vec::new();
    let mut qj: usize = query.len();
    let mut tcur: usize = e + 1;
    proof {
        assert(fq.take(query@.len() as int) =~= fq);
        assert(idxs_view(back@).reverse() =~= Seq::<int>::empty());
        assert(back_positions(fq, tpre) + idxs_view(back@).reverse() =~= back_positions(
            fq,
            tpre,
        ));
        assert(ft.take(tcur as int) == tpre);
    }
    while qj > 0
        invariant
            qj <= query.len(),
            e < target@.len(),
            tcur <= e + 1,
            fq == fold(query@),
            ft == fold(target@),
            tpre == ft.take(e + 1),
            back@.len() == query.len() - qj,
            back_positions(fq, tpre) == back_positions(fq.take(qj as int), ft.take(tcur as int))
                + idxs_view(back@).reverse(),
            back_positions(fq.take(qj as int), ft.take(tcur as int)).len() == qj,
        decreases tcur,
    {
        proof {
            if tcur == 0 {
                assert(ft.take(0).len() == 0);
                assert(back_positions(fq.take(qj as int), ft.take(0)).len() == 0);
                assert(false);
            }
        }
        let ghost bq = fq.take(qj as int);
        let ghost bt = ft.take(tcur as int);
        proof {
            assert(bq.len() == qj && bt.len() == tcur);
            assert(bq.last() == fold_byte(query@[qj - 1]));
            assert(bt.last() == fold_byte(target@[tcur - 1]));
        }
        if fold_byte_exec(target[tcur - 1]) == fold_byte_exec(query[qj - 1]) {
            let ghost orev = idxs_view(back@).reverse();
            back.push(tcur - 1);
            proof {
                assert(back_positions(bq, bt) == back_positions(
                    bq.drop_last(),
                    bt.drop_last(),
                ).push(tcur - 1));
                assert(bq.drop_last() =~= fq.take(qj - 1));
                assert(bt.drop_last() =~= ft.take(tcur - 1));
                assert(idxs_view(back@).reverse() =~= seq![(tcur - 1) as int] + orev);
                assert(back_positions(fq.take(qj - 1), ft.take(tcur - 1)).push((tcur - 1) as int)
                    + orev =~= back_positions(fq.take(qj - 1), ft.take(tcur - 1)) + (seq![
                    (tcur - 1) as int
                ] + orev));
            }
            qj -= 1;
            tcur -= 1;
        } else {
            proof {
                assert(bq.len() > 0 && bt.len() > 0 && bq.last() != bt.last());
                assert(back_positions(bq, bt) == back_positions(bq, bt.drop_last()));
                assert(bt.drop_last() =~= ft.take(tcur - 1));
            }
            tcur -= 1;
        }
    }
    proof {
        assert(fq.take(0).len() == 0);
        assert(back_positions(fq.take(0), ft.take(tcur as int)) == Seq::<int>::empty());
        assert(Seq::<int>::empty() + idxs_view(back@).reverse() =~= idxs_view(back@).reverse());
    }
    back
}

/// Reverses a vector of byte offsets.
fn reverse_positions(back: &Vec<usize>) -> (pos: Vec<usize>)
    ensures
        idxs_view(pos@) == idxs_view(back@).reverse(),
{
    let mut pos: Vec<usize> = Vec::new();
    let mut i: usize = back.len();
    while i > 0
        invariant
            i <= back@.len(),
            pos@.len() == back@.len() - i,
            forall|j: int|
                0 <= j < pos@.len() ==> #[trigger] pos@[j] == back@[back@.len() - 1 - j],
        decreases i,
    {
        i -= 1;
        pos.push(back[i]);
    }
    proof {
        assert(idxs_view(pos@) =~= idxs_view(back@).reverse());
    }
    pos
}

/// Sums the per-byte scores and the early bonus over strictly
/// increasing, in-range match positions.
fn score_positions(target: &Vec<u8>, pos: &Vec<usize>) -> (total: u128)
    requires
        forall|k: int| 0 <= k < pos@.len() ==> 0 <= #[trigger] idxs_view(pos@)[k] < target@.len(),
        forall|k: int|
            0 < k < pos@.len() ==> idxs_view(pos@)[k - 1] < #[trigger] idxs_view(pos@)[k],
    ensures
        total == score_of(target@, idxs_view(pos@)),
{
    let ghost cs = idxs_view(pos@);
    let mut score: u128 = 0;
    let mut k: usize = 0;
    proof {
        assert(cs.take(0) =~= Seq::<int>::empty());
    }
    while k < pos.len()
        invariant
            k <= pos@.len(),
            cs == idxs_view(pos@),
            forall|j: int| 0 <= j < cs.len() ==> 0 <= #[trigger] cs[j] < target@.len(),
            forall|j: int| 0 < j < cs.len() ==> cs[j - 1] < #[trigger] cs[j],
            score == score_sum(target@, cs.take(k as int)),
            score <= MAX_BYTE_SCORE * k,
        decreases pos@.len() - k,
    {
        let p = pos[k];
        proof {
            assert(cs[k as int] == p as int);
            assert(0 <= cs[k as int] < target@.len());
        }
        let mut bonus: u128 = 1;
        if k > 0 && pos[k - 1] + 1 == p {
            bonus = bonus + RUN_BONUS;
        }
        if p == 0 || target[p - 1] == SEPARATOR {
            bonus = bonus + BOUNDARY_BONUS;
        }
        proof {
            let kk = k as int;
            assert(cs.take(kk + 1).drop_last() =~= cs.take(kk));
            assert(cs.take(kk + 1)[kk] == cs[kk]);
            if k > 0 {
                assert(cs.take(kk + 1)[kk - 1] == cs[kk - 1]);
                assert(cs[kk - 1] == pos@[kk - 1] as int);
            }
            assert(byte_score(target@, cs.take(kk + 1), kk) == bonus);
            assert(score_sum(target@, cs.take(kk + 1)) == score_sum(target@, cs.take(kk))
                + bonus);
        }
        score = score + bonus;
        k += 1;
    }
    proof {
        assert(cs.take(pos@.len() as int) =~= cs);
    }
    let mut total: u128 = score;
    if pos.len() > 0 && pos[0] < 8 {
        let first = pos[0];
        total = total + (EARLY_CAP - first as u128);
    }
    proof {
        if cs.len() > 0 {
            assert(cs[0] == pos@[0] as int);
        }
        assert(total == score_of(target@, cs));
    }
    total
}

/// Case-insensitive fuzzy match of `query` against `target`: a forward
/// pass finds the earliest end of a match, a backward pass from that end
/// pulls each matched byte as late as possible, and the score is taken
/// on those positions. Returns the score and the matched byte offsets,
/// or `None` when the folded query is not a subsequence of the folded
/// target.
#[verifier::rlimit(100)]
#[verifier::spinoff_prover]
pub fn fuzzy_match(query: &Vec<u8>, target: &Vec<u8>) -> (r: Option<(u128, Vec<usize>)>)
    ensures
        match r {
            Some(m) => {
                &&& is_subsequence(fold(query@), fold(target@))
                &&& idxs_view(m.1@) == chosen_positions(fold(query@), fold(target@))
                &&& m.0 == score_of(target@, chosen_positions(fold(query@), fold(target@)))
            },
            None => !is_subsequence(fold(query@), fold(target@)),
        },
{
    let ghost fq = fold(query@);
    let ghost ft = fold(target@);
    // forward pass: the earliest end of a match, if one exists
    let mut qi: usize = 0;
    let mut ti: usize = 0;
    let mut idxs: Vec<usize> = Vec::new();
    proof {
        assert(fq.skip(0) =~= fq);
        assert(ft.skip(0) =~= ft);
        assert(idxs_view(idxs@) =~= Seq::<int>::empty());
        assert(idxs_view(idxs@) + match_positions(fq, ft, 0) =~= match_positions(fq, ft, 0));
    }
    while ti < target.len()
        invariant
            qi <= query.len(),
            ti <= target.len(),
            fq == fold(query@),
            ft == fold(target@),
            idxs@.len() == qi,
            forall|k: int| 0 <= k < idxs@.len() ==> #[trigger] idxs@[k] < ti,
            match_positions(fq, ft, 0) == idxs_view(idxs@) + match_positions(
                fq.skip(qi as int),
                ft.skip(ti as int),
                ti as int,
            ),
        decreases target.len() - ti,
    {
        if qi < query.len() && fold_byte_exec(target[ti]) == fold_byte_exec(query[qi]) {
            let ghost ops = idxs_view(idxs@);
            idxs.push(ti);
            proof {
                let nps = idxs_view(idxs@);
                assert(nps =~= ops.push(ti as int));
                assert(fq.skip(qi as int).first() == fold_byte(query@[qi as int]));
                assert(ft.skip(ti as int).first() == fold_byte(target@[ti as int]));
                lemma_skip_succ(fq, qi as int);
                lemma_skip_succ(ft, ti as int);
                assert(match_positions(fq.skip(qi as int), ft.skip(ti as int), ti as int)
                    == seq![ti as int] + match_positions(
                    fq.skip(qi + 1),
                    ft.skip(ti + 1),
                    ti + 1,
                ));
                assert(ops + (seq![ti as int] + match_positions(
                    fq.skip(qi + 1),
                    ft.skip(ti + 1),
                    ti + 1,
                )) =~= nps + match_positions(fq.skip(qi + 1), ft.skip(ti + 1), ti + 1));
            }
            qi += 1;
        } else {
            proof {
                if qi == query.len() {
                    assert(fq.skip(qi as int).len() == 0);
                    assert(match_positions(fq.skip(qi as int), ft.skip(ti as int), ti as int)
                        == Seq::<int>::empty());
                    assert(match_positions(fq.skip(qi as int), ft.skip(ti + 1), ti + 1)
                        == Seq::<int>::empty());
                } else {
                    assert(fq.skip(qi as int).first() == fold_byte(query@[qi as int]));
                    assert(ft.skip(ti as int).first() == fold_byte(target@[ti as int]));
                    assert(fq.skip(qi as int).len() > 0 && ft.skip(ti as int).len() > 0);
                    assert(fq.skip(qi as int).first() != ft.skip(ti as int).first());
                    lemma_skip_succ(ft, ti as int);
                    assert(match_positions(fq.skip(qi as int), ft.skip(ti as int), ti as int)
                        == match_positions(fq.skip(qi as int), ft.skip(ti + 1), ti + 1));
                }
            }
        }
        ti += 1;
    }
    proof {
        assert(ft.skip(target@.len() as int).len() == 0);
        assert(match_positions(fq.skip(qi as int), ft.skip(ti as int), ti as int)
            == Seq::<int>::empty());
        assert(match_positions(fq, ft, 0) =~= idxs_view(idxs@));
        lemma_match_positions_props(fq, ft, 0);
    }
    if qi < query.len() {
        return None;
    }
    if query.len() == 0 {
        let empty: Vec<usize> = Vec::new();
        proof {
            assert(idxs_view(empty@) =~= Seq::<int>::empty());
            assert(chosen_positions(fq, ft) == Seq::<int>::empty());
            assert(score_of(target@, Seq::<int>::empty()) == 0);
        }
        return Some((0, empty));
    }
    // backward pass, bounded by the forward end
    let e: usize = idxs[idxs.len() - 1];
    let ghost tpre = ft.take(e + 1);
    let ghost cs = chosen_positions(fq, ft);
    proof {
        assert(match_positions(fq, ft, 0).last() == e as int);
        assert(e < ft.len() && ft.len() == target@.len());
        lemma_chosen_positions_props(fq, ft);
        assert(cs == back_positions(fq, tpre));
        assert(fq.len() == query@.len());
        assert(embeds(fq, ft, cs));
        assert(back_positions(fq, tpre).len() == query@.len());
    }
    let back = backward_pass(query, target, e);
    let pos = reverse_positions(&back);
    proof {
        assert(idxs_view(pos@) == cs);
        assert forall|k: int| 0 <= k < pos@.len() implies 0 <= #[trigger] idxs_view(pos@)[k]
            < target@.len() by {
            assert(0 <= cs[k] < ft.len());
        }
        assert forall|k: int|
            0 < k < pos@.len() implies idxs_view(pos@)[k - 1] < #[trigger] idxs_view(
            pos@,
        )[k] by {
            assert(cs[k - 1] < cs[k]);
        }
    }
    let total = score_positions(target, &pos);
    Some((total, pos))
}

/// One ranked search hit: the matched entry, its rank score, the matched
/// byte offsets into the display string, and the entry's catalog position
/// (the tie-breaker).
pub struct SearchResult {
    pub item: ScriptEntry,
    pub score: u128,
    pub indices: Vec<usize>,
    pub pos: usize,
}

/// Mathematical value of a `SearchResult`.
pub ghost struct SearchResultV {
    pub item: ScriptEntryV,
    pub score: int,
    pub indices: Seq<int>,
    pub pos: int,
}

impl View for SearchResult {
    type V = SearchResultV;

    open spec fn view(&self) -> SearchResultV {
        SearchResultV {
            item: self.item@,
            score: self.score as int,
            indices: idxs_view(self.indices@),
            pos: self.pos as int,
        }
    }
}

/// Mathematical value of a result list.
pub open spec fn results_view(s: Seq<SearchResult>) -> Seq<SearchResultV> {
    s.map_values(|r: SearchResult| r@)
}

/// A single result is sound for `(entries, q)`: it names a real entry by
/// catalog position and carries exactly the greedy positions and score of
/// the query against that entry.
pub open spec fn result_ok(entries: Seq<ScriptEntryV>, q: Seq<u8>, r: SearchResultV) -> bool {
    &&& 0 <= r.pos < entries.len()
    &&& r.item == entries[r.pos]
    &&& entry_matches(q, r.item)
    &&& r.indices == entry_positions(q, r.item)
    &&& r.score == entry_score(q, r.item)
}

/// `a` is ranked strictly before `b`: higher score first, catalog order
/// on ties.
pub open spec fn ranks_before(a: SearchResultV, b: SearchResultV) -> bool {
    a.score > b.score || (a.score == b.score && a.pos < b.pos)
}

/// The full search contract: every result is sound, an entry appears in
/// the results iff the query matches it, and the list is strictly ranked
/// (which also forbids duplicates).
pub open spec fn results_ok(entries: Seq<ScriptEntryV>, q: Seq<u8>, rs: Seq<SearchResultV>) -> bool {
    &&& forall|j: int| 0 <= j < rs.len() ==> result_ok(entries, q, #[trigger] rs[j])
    &&& forall|i: int|
        0 <= i < entries.len() ==> (entry_matches(q, #[trigger] entries[i]) <==> exists|j: int|
            0 <= j < rs.len() && #[trigger] rs[j].pos == i)
    &&& forall|j: int, k: int| 0 <= j < k < rs.len() ==> ranks_before(#[trigger] rs[j], #[trigger] rs[k])
}

/// Runs the fuzzy matcher over every catalog entry and returns the
/// ranked result list.
pub fn search_entries(entries: &Vec<ScriptEntry>, query: &Vec<u8>) -> (rs: Vec<SearchResult>)
    ensures
        results_ok(entries_view(entries@), query@, results_view(rs@)),
        rs@.len() <= entries@.len(),
{
    let ghost ev = entries_view(entries@);
    let mut rs: Vec<SearchResult> = Vec::new();
    let mut i: usize = 0;
    while i < entries.len()
        invariant
            i <= entries.len(),
            ev == entries_view(entries@),
            rs@.len() <= i,
            forall|j: int|
                0 <= j < rs@.len() ==> result_ok(ev, query@, #[trigger] results_view(rs@)[j]),
            forall|j: int| 0 <= j < rs@.len() ==> #[trigger] results_view(rs@)[j].pos < i,
            forall|p: int|
                0 <= p < i ==> (entry_matches(query@, #[trigger] ev[p]) <==> exists|j: int|
                    0 <= j < rs@.len() && #[trigger] results_view(rs@)[j].pos == p),
            forall|j: int, k: int|
                0 <= j < k < rs@.len() ==> ranks_before(
                    #[trigger] results_view(rs@)[j],
                    #[trigger] results_view(rs@)[k],
                ),
        decreases entries.len() - i,
    {
        let disp = display_string(&entries[i]);
        let ghost old_rs = results_view(rs@);
        match fuzzy_match(query, &disp) {
            Some(m) => {
                let nr = SearchResult {
                    item: entries[i].clone_entry(),
                    score: m.0,
                    indices: m.1,
                    pos: i,
                };
                let ghost nv = nr@;
                assert(result_ok(ev, query@, nv));
                let mut j: usize = 0;
                while j < rs.len() && !(nr.score > rs[j].score || (nr.score == rs[j].score
                    && nr.pos < rs[j].pos))
                    invariant
                        j <= rs@.len(),
                        results_view(rs@) == old_rs,
                        nv == nr@,
                        forall|k: int| 0 <= k < rs@.len() ==> #[trigger] old_rs[k] == rs@[k]@,
                        forall|k: int| 0 <= k < j ==> !ranks_before(nv, #[trigger] old_rs[k]),
                    decreases rs@.len() - j,
                {
                    j += 1;
                }
                let ghost jj = j as int;
                assert(jj < old_rs.len() ==> ranks_before(nv, old_rs[jj]));
                rs.insert(j, nr);
                proof {
                    let new_rs = results_view(rs@);
                    assert(new_rs =~= old_rs.take(jj).push(nv) + old_rs.skip(jj));
                    assert(new_rs.len() == old_rs.len() + 1);
                    assert forall|k: int| 0 <= k < new_rs.len() implies #[trigger] new_rs[k] == (
                    if k < jj {
                        old_rs[k]
                    } else if k == jj {
                        nv
                    } else {
                        old_rs[k - 1]
                    }) by {}
                    // soundness and position bound of every element
                    assert forall|k: int| 0 <= k < new_rs.len() implies result_ok(
                        ev,
                        query@,
                        #[trigger] new_rs[k],
                    ) && new_rs[k].pos < i + 1 by {}
                    // strict ranking is preserved around the insertion point
                    assert forall|a: int, b: int| 0 <= a < b < new_rs.len() implies ranks_before(
                        #[trigger] new_rs[a],
                        #[trigger] new_rs[b],
                    ) by {
                        if a == jj {
                            if b == jj + 1 {
                            } else {
                                assert(ranks_before(old_rs[jj], old_rs[b - 1]));
                            }
                        } else if b == jj {
                            assert(!ranks_before(nv, old_rs[a]));
                            assert(old_rs[a].pos < i as int && nv.pos == i as int);
                        } else if a < jj && b > jj {
                            assert(ranks_before(old_rs[a], nv) || true);
                            assert(!ranks_before(nv, old_rs[a]));
                            assert(old_rs[a].pos < i as int && nv.pos == i as int);
                            assert(ranks_before(old_rs[a], nv));
                            if b > jj + 1 {
                                assert(ranks_before(old_rs[a], old_rs[b - 1]));
                            }
                        }
                    }
                    // membership: everything kept, the new position added
                    assert forall|p: int| 0 <= p < i + 1 implies (entry_matches(
                        query@,
                        #[trigger] ev[p],
                    ) <==> exists|k: int| 0 <= k < new_rs.len() && #[trigger] new_rs[k].pos
                        == p) by {
                        if p == i as int {
                            assert(new_rs[jj].pos == p);
                        } else {
                            if entry_matches(query@, ev[p]) {
                                let w = choose|k: int|
                                    0 <= k < old_rs.len() && #[trigger] old_rs[k].pos == p;
                                if w < jj {
                                    assert(new_rs[w].pos == p);
                                } else {
                                    assert(new_rs[w + 1].pos == p);
                                }
                            } else {
                                assert forall|k: int|
                                    0 <= k < new_rs.len() && #[trigger] new_rs[k].pos
                                        == p implies false by {
                                    if k < jj {
                                        assert(old_rs[k].pos == p);
                                    } else if k > jj {
                                        assert(old_rs[k - 1].pos == p);
                                    }
                                }
                            }
                        }
                    }
                }
            },
            None => {
                proof {
                    assert(!entry_matches(query@, ev[i as int]));
                    assert forall|k: int|
                        0 <= k < old_rs.len() && #[trigger] old_rs[k].pos
                            == i as int implies false by {}
                }
            },
        }
        i += 1;
    }
    rs
}

/// The autocomplete suggestion for a query and its ranked results: the
/// display string of the top-ranked result, whenever the query is a
/// strict case-insensitive prefix of it; otherwise none.
pub open spec fn suggestion_spec(q: Seq<u8>, rs: Seq<SearchResultV>) -> Option<Seq<u8>> {
    if rs.len() > 0 && crate::ascii::is_strict_prefix_of(fold(q), fold(display_of(rs[0].item))) {
        Some(display_of(rs[0].item))
    } else {
        None
    }
}

/// Computes the autocomplete suggestion of a result list.
pub fn compute_suggestion(results: &Vec<SearchResult>, query: &Vec<u8>) -> (r: Option<Vec<u8>>)
    ensures
        match r {
            Some(s) => suggestion_spec(query@, results_view(results@)) == Some(s@),
            None => suggestion_spec(query@, results_view(results@)) is None,
        },
{
    if results.len() > 0 {
        let d = display_string(&results[0].item);
        assert(d@ == display_of(results_view(results@)[0].item));
        if crate::ascii::is_strict_prefix_fold(query, &d) {
            Some(d)
        } else {
            None
        }
    } else {
        None
    }
}

/// The index after `i` in a cyclic list of length `len`.
pub open spec fn next_idx(i: int, len: int) -> int {
    if len <= 0 {
        i
    } else if i + 1 < len {
        i + 1
    } else {
        0
    }
}

/// The index before `i` in a cyclic list of length `len`.
pub open spec fn prev_idx(i: int, len: int) -> int {
    if len <= 0 {
        i
    } else if i > 0 {
        i - 1
    } else {
        len - 1
    }
}

/// `next_idx` applied `k` times.
pub open spec fn iter_next(i: int, len: int, k: nat) -> int
    decreases k,
{
    if k == 0 {
        i
    } else {
        next_idx(iter_next(i, len, (k - 1) as nat), len)
    }
}

/// While no wrap happens, stepping forward is plain addition.
proof fn lemma_iter_next_linear(i: int, len: int, k: nat)
    requires
        0 <= i < len,
        i + k < len,
    ensures
        iter_next(i, len, k) == i + k,
    decreases k,
{
    if k > 0 {
        lemma_iter_next_linear(i, len, (k - 1) as nat);
    }
}

/// Stepping `a + b` times is stepping `a` times, then `b` times.
proof fn lemma_iter_next_compose(i: int, len: int, a: nat, b: nat)
    ensures
        iter_next(i, len, a + b) == iter_next(iter_next(i, len, a), len, b),
    decreases b,
{
    if b > 0 {
        lemma_iter_next_compose(i, len, a, (b - 1) as nat);
        assert(a + b == (a + b - 1) + 1);
    }
}

/// Result navigation forms a cycle of the list's length: one step forward
/// then one step back is the identity (and the other way round), a full
/// round of `len` forward steps is the identity, and `len - 1` forward
/// steps are exactly one step back.
pub proof fn lemma_navigation_cycle(i: int, len: int)
    requires
        0 <= i < len,
    ensures
        prev_idx(next_idx(i, len), len) == i,
        next_idx(prev_idx(i, len), len) == i,
        iter_next(i, len, len as nat) == i,
        iter_next(i, len, (len - 1) as nat) == prev_idx(i, len),
{
    let wrap = (len - i) as nat;
    lemma_iter_next_linear(i, len, (wrap - 1) as nat);
    assert(iter_next(i, len, wrap) == 0) by {
        lemma_iter_next_compose(i, len, (wrap - 1) as nat, 1);
    }
    // a full cycle: walk to the wrap point, then the remaining i steps
    lemma_iter_next_compose(i, len, wrap, i as nat);
    if i > 0 {
        lemma_iter_next_linear(0, len, i as nat);
    }
    assert(iter_next(i, len, (wrap + i) as nat) == i);
    assert(wrap + i == len);
    // len - 1 steps land on the previous index
    if i > 0 {
        lemma_iter_next_compose(i, len, wrap, (i - 1) as nat);
        lemma_iter_next_linear(0, len, (i - 1) as nat);
        assert(wrap + (i - 1) == len - 1);
    } else {
        lemma_iter_next_linear(i, len, (len - 1) as nat);
    }
}

/// `idxs` embeds `q` into `t`: one strictly increasing position per
/// query byte, each naming an equal byte of `t`.
pub open spec fn embeds(q: Seq<u8>, t: Seq<u8>, idxs: Seq<int>) -> bool {
    &&& idxs.len() == q.len()
    &&& forall|k: int| 0 <= k < idxs.len() ==> 0 <= #[trigger] idxs[k] < t.len()
    &&& forall|k: int| 0 < k < idxs.len() ==> idxs[k - 1] < #[trigger] idxs[k]
    &&& forall|k: int| 0 <= k < idxs.len() ==> t[#[trigger] idxs[k]] == q[k]
}

/// The subsequence test is exactly the existence of an embedding: the
/// greedy positions witness one direction, and any embedding can be bent
/// leftward into the greedy one.
#[verifier::rlimit(60)]
pub proof fn lemma_subsequence_iff_embedding(q: Seq<u8>, t: Seq<u8>)
    ensures
        is_subsequence(q, t) <==> exists|idxs: Seq<int>| #[trigger] embeds(q, t, idxs),
    decreases t.len(),
{
    if is_subsequence(q, t) {
        lemma_match_positions_props(q, t, 0);
        let ps = match_positions(q, t, 0);
        assert(embeds(q, t, ps));
    }
    if exists|idxs: Seq<int>| #[trigger] embeds(q, t, idxs) {
        let idxs = choose|idxs: Seq<int>| #[trigger] embeds(q, t, idxs);
        if q.len() == 0 {
        } else if t.len() == 0 {
            assert(0 <= idxs[0] < t.len());
            assert(false);
        } else {
            let t1 = t.drop_first();
            if q.first() == t.first() {
                lemma_subsequence_iff_embedding(q.drop_first(), t1);
                // shift the tail of the embedding left by one
                let shifted = idxs.drop_first().map_values(|x: int| x - 1);
                assert forall|k: int| 0 <= k < shifted.len() implies 0 <= #[trigger] shifted[k]
                    < t1.len() by {
                    assert(idxs[k + 1] > idxs[k]);
                    if k > 0 {
                        assert(idxs[k] > idxs[k - 1]);
                    }
                    assert(idxs[k + 1] >= 1);
                }
                assert forall|k: int| 0 <= k < shifted.len() implies t1[#[trigger] shifted[k]]
                    == q.drop_first()[k] by {
                    assert(idxs[k + 1] >= 1);
                    assert(t1[idxs[k + 1] - 1] == t[idxs[k + 1]]);
                }
                assert(embeds(q.drop_first(), t1, shifted));
                assert(is_subsequence(q.drop_first(), t1));
            } else {
                lemma_subsequence_iff_embedding(q, t1);
                // the first byte differs, so no position is 0; shift all
                let shifted = idxs.map_values(|x: int| x - 1);
                assert forall|k: int| 0 <= k < shifted.len() implies 0 <= #[trigger] shifted[k]
                    < t1.len() by {
                    assert(t[idxs[k]] == q[k]);
                    if k == 0 {
                        if idxs[0] == 0 {
                            assert(t[idxs[0]] == q[0]);
                            assert(false);
                        }
                    } else {
                        assert(idxs[k] > idxs[k - 1]);
                        assert(idxs[0] >= 1);
                        assert(forall|j: int| 0 < j < idxs.len() ==> idxs[j - 1] < #[trigger] idxs[j]);
                        assert(idxs[k] >= 1);
                    }
                }
                assert forall|k: int| 0 <= k < shifted.len() implies t1[#[trigger] shifted[k]]
                    == q[k] by {
                    assert(t1[idxs[k] - 1] == t[idxs[k]]);
                }
                assert(embeds(q, t1, shifted));
                assert(is_subsequence(q, t1));
            }
        }
    }
}

/// Two result lists that both satisfy the search contract for the same
/// entries and query are the same list: the contract is deterministic.
pub proof fn lemma_results_unique(
    entries: Seq<ScriptEntryV>,
    q: Seq<u8>,
    rs1: Seq<SearchResultV>,
    rs2: Seq<SearchResultV>,
)
    requires
        results_ok(entries, q, rs1),
        results_ok(entries, q, rs2),
    ensures
        rs1 == rs2,
{
    assert forall|j: int| 0 <= j < rs1.len() implies pos_present(
        rs2,
        (#[trigger] rs1[j]).pos,
    ) by {
        assert(result_ok(entries, q, rs1[j]));
        let p = rs1[j].pos;
        assert(entry_matches(q, entries[p]));
        let w = choose|k: int| 0 <= k < rs2.len() && #[trigger] rs2[k].pos == p;
        assert(pos_present(rs2, p));
    }
    assert forall|j: int| 0 <= j < rs2.len() implies pos_present(
        rs1,
        (#[trigger] rs2[j]).pos,
    ) by {
        assert(result_ok(entries, q, rs2[j]));
        let p = rs2[j].pos;
        assert(entry_matches(q, entries[p]));
        let w = choose|k: int| 0 <= k < rs1.len() && #[trigger] rs1[k].pos == p;
        assert(pos_present(rs1, p));
    }
    lemma_sorted_results_unique(entries, q, rs1, rs2);
}

/// Some result in `rs` sits at catalog position `p`.
pub open spec fn pos_present(rs: Seq<SearchResultV>, p: int) -> bool {
    exists|k: int| 0 <= k < rs.len() && (#[trigger] rs[k]).pos == p
}

/// The inductive core of `lemma_results_unique`: soundness, strict
/// ranking, and equal position membership force equality.
#[verifier::rlimit(100)]
#[verifier::spinoff_prover]
proof fn lemma_sorted_results_unique(
    entries: Seq<ScriptEntryV>,
    q: Seq<u8>,
    rs1: Seq<SearchResultV>,
    rs2: Seq<SearchResultV>,
)
    requires
        forall|j: int| 0 <= j < rs1.len() ==> result_ok(entries, q, #[trigger] rs1[j]),
        forall|j: int| 0 <= j < rs2.len() ==> result_ok(entries, q, #[trigger] rs2[j]),
        forall|j: int, k: int|
            0 <= j < k < rs1.len() ==> ranks_before(#[trigger] rs1[j], #[trigger] rs1[k]),
        forall|j: int, k: int|
            0 <= j < k < rs2.len() ==> ranks_before(#[trigger] rs2[j], #[trigger] rs2[k]),
        forall|j: int| 0 <= j < rs1.len() ==> pos_present(rs2, (#[trigger] rs1[j]).pos),
        forall|j: int| 0 <= j < rs2.len() ==> pos_present(rs1, (#[trigger] rs2[j]).pos),
    ensures
        rs1 == rs2,
    decreases rs1.len(),
{
    if rs1.len() == 0 {
        if rs2.len() > 0 {
            assert(pos_present(rs1, rs2[0].pos));
            assert(false);
        }
        assert(rs1 =~= rs2);
    } else {
        assert(pos_present(rs2, rs1[0].pos));
        let j2 = choose|k: int| 0 <= k < rs2.len() && (#[trigger] rs2[k]).pos == rs1[0].pos;
        assert(pos_present(rs1, rs2[0].pos));
        let j1 = choose|k: int| 0 <= k < rs1.len() && (#[trigger] rs1[k]).pos == rs2[0].pos;
        // a result is fully determined by its catalog position
        assert(rs2[j2] == rs1[0]) by {
            assert(result_ok(entries, q, rs2[j2]) && result_ok(entries, q, rs1[0]));
            assert(rs2[j2].item == entries[rs1[0].pos] && rs1[0].item == entries[rs1[0].pos]);
        }
        assert(rs1[j1] == rs2[0]) by {
            assert(result_ok(entries, q, rs1[j1]) && result_ok(entries, q, rs2[0]));
            assert(rs1[j1].item == entries[rs2[0].pos] && rs2[0].item == entries[rs2[0].pos]);
        }
        // both heads are the unique ranking maximum, so they are equal
        assert(rs1[0] == rs2[0]) by {
            if j2 > 0 {
                assert(ranks_before(rs2[0], rs2[j2]));
                if j1 > 0 {
                    assert(ranks_before(rs1[0], rs1[j1]));
                    assert(false);
                } else {
                    assert(ranks_before(rs1[0], rs1[0]));
                    assert(false);
                }
            }
        }
        let t1 = rs1.drop_first();
        let t2 = rs2.drop_first();
        // a tail position is never the head's position
        assert forall|j: int| 0 <= j < t1.len() implies pos_present(
            t2,
            (#[trigger] t1[j]).pos,
        ) by {
            let p = t1[j].pos;
            assert(rs1[j + 1].pos == p);
            assert(ranks_before(rs1[0], rs1[j + 1]));
            assert(p != rs1[0].pos) by {
                if p == rs1[0].pos {
                    assert(result_ok(entries, q, rs1[0]) && result_ok(entries, q, rs1[j + 1]));
                    assert(rs1[0].item == entries[p] && rs1[j + 1].item == entries[p]);
                    assert(rs1[0].score == rs1[j + 1].score);
                    assert(false);
                }
            }
            assert(pos_present(rs2, p));
            let w = choose|k: int| 0 <= k < rs2.len() && (#[trigger] rs2[k]).pos == p;
            assert(w != 0);
            assert(t2[w - 1].pos == p);
            assert(pos_present(t2, p));
        }
        assert forall|j: int| 0 <= j < t2.len() implies pos_present(
            t1,
            (#[trigger] t2[j]).pos,
        ) by {
            let p = t2[j].pos;
            assert(rs2[j + 1].pos == p);
            assert(ranks_before(rs2[0], rs2[j + 1]));
            assert(p != rs2[0].pos) by {
                if p == rs2[0].pos {
                    assert(result_ok(entries, q, rs2[0]) && result_ok(entries, q, rs2[j + 1]));
                    assert(rs2[0].item == entries[p] && rs2[j + 1].item == entries[p]);
                    assert(rs2[0].score == rs2[j + 1].score);
                    assert(false);
                }
            }
            assert(pos_present(rs1, p));
            let w = choose|k: int| 0 <= k < rs1.len() && (#[trigger] rs1[k]).pos == p;
            assert(w != 0);
            assert(t1[w - 1].pos == p);
            assert(pos_present(t1, p));
        }
        assert forall|j: int, k: int|
            0 <= j < k < t1.len() implies ranks_before(#[trigger] t1[j], #[trigger] t1[k]) by {
            assert(ranks_before(rs1[j + 1], rs1[k + 1]));
        }
        assert forall|j: int, k: int|
            0 <= j < k < t2.len() implies ranks_before(#[trigger] t2[j], #[trigger] t2[k]) by {
            assert(ranks_before(rs2[j + 1], rs2[k + 1]));
        }
        assert forall|j: int| 0 <= j < t1.len() implies result_ok(entries, q, #[trigger] t1[j]) by {
            assert(result_ok(entries, q, rs1[j + 1]));
        }
        assert forall|j: int| 0 <= j < t2.len() implies result_ok(entries, q, #[trigger] t2[j]) by {
            assert(result_ok(entries, q, rs2[j + 1]));
        }
        lemma_sorted_results_unique(entries, q, t1, t2);
        assert(rs1.len() == rs2.len());
        assert forall|k: int| 0 <= k < rs1.len() implies rs1[k] == rs2[k] by {
            if k > 0 {
                assert(t1[k - 1] == rs1[k]);
                assert(t2[k - 1] == rs2[k]);
            }
        }
        assert(rs1 =~= rs2);
    }
}

/// An empty query matches the whole catalog with the neutral score, so
/// its result list is exactly the catalog in its own order.
pub proof fn lemma_empty_query_results(entries: Seq<ScriptEntryV>, rs: Seq<SearchResultV>)
    requires
        results_ok(entries, Seq::<u8>::empty(), rs),
    ensures
        rs.len() == entries.len(),
        forall|j: int| 0 <= j < rs.len() ==> (#[trigger] rs[j]).pos == j,
        forall|j: int| 0 <= j < rs.len() ==> (#[trigger] rs[j]).item == entries[j],
{
    let q = Seq::<u8>::empty();
    assert(fold(q) =~= Seq::<u8>::empty());
    let canon = Seq::new(
        entries.len(),
        |i: int|
            SearchResultV {
                item: entries[i],
                score: 0,
                indices: Seq::<int>::empty(),
                pos: i,
            },
    );
    assert forall|j: int| 0 <= j < canon.len() implies result_ok(entries, q, #[trigger] canon[j]) by {
        assert(fold(q).len() == 0);
        assert(is_subsequence(fold(q), fold(display_of(entries[j]))));
        assert(match_positions(fold(q), fold(display_of(entries[j])), 0) =~= Seq::<int>::empty());
        assert(score_of(display_of(entries[j]), Seq::<int>::empty()) == 0);
    }
    assert forall|i: int| 0 <= i < entries.len() implies entry_matches(q, #[trigger] entries[i])
        && (exists|j: int| 0 <= j < canon.len() && #[trigger] canon[j].pos == i) by {
        assert(is_subsequence(fold(q), fold(display_of(entries[i]))));
        assert(canon[i].pos == i);
    }
    assert(results_ok(entries, q, canon));
    lemma_results_unique(entries, q, rs, canon);
}

} // verus!
