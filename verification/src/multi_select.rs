//! The multi-select set: an insertion-ordered, duplicate-free set of
//! script paths, togglable per path. Disabling multi-select clears it.

use vstd::prelude::*;

use crate::ascii::bytes_eq;

verus! {

/// Mathematical value of a list of paths.
pub open spec fn paths_view(s: Seq<Vec<u8>>) -> Seq<Seq<u8>> {
    s.map_values(|p: Vec<u8>| p@)
}

pub proof fn lemma_paths_view_push(s: Seq<Vec<u8>>, p: Vec<u8>)
    ensures
        paths_view(s.push(p)) == paths_view(s).push(p@),
{
    assert(paths_view(s.push(p)) =~= paths_view(s).push(p@));
}

/// No path occurs twice.
pub open spec fn no_dup_paths(s: Seq<Seq<u8>>) -> bool {
    forall|i: int, j: int| 0 <= i < j < s.len() ==> #[trigger] s[i] != #[trigger] s[j]
}

/// One toggle step: a present path is removed from its place, an absent
/// path is appended at the end.
pub open spec fn toggle_spec(s: Seq<Seq<u8>>, p: Seq<u8>) -> Seq<Seq<u8>> {
    match s.index_of_first(p) {
        Some(i) => s.remove(i),
        None => s.push(p),
    }
}

/// The multi-select set. `enabled` distinguishes multi-select mode from
/// single-select mode; the set is empty whenever the mode was (re-)entered.
pub struct MultiSelect {
    pub enabled: bool,
    pub scripts: Vec<Vec<u8>>,
}

impl MultiSelect {
    /// The set's invariant: no duplicate paths.
    pub open spec fn wf(self) -> bool {
        no_dup_paths(paths_view(self.scripts@))
    }

    pub fn new() -> (r: MultiSelect)
        ensures
            r.wf(),
            r.enabled == false,
            r.scripts@.len() == 0,
    {
        MultiSelect { enabled: false, scripts: Vec::new() }
    }

    /// Toggles `path`: removes it when present, appends it when absent.
    pub fn toggle(&mut self, path: &Vec<u8>)
        requires
            old(self).wf(),
        ensures
            final(self).wf(),
            final(self).enabled == old(self).enabled,
            paths_view(final(self).scripts@) == toggle_spec(paths_view(old(self).scripts@), path@),
    {
        let ghost ov = paths_view(self.scripts@);
        assert(no_dup_paths(ov));
        let mut i: usize = 0;
        while i < self.scripts.len()
            invariant
                i <= self.scripts@.len(),
                *self == *old(self),
                ov == paths_view(self.scripts@),
                no_dup_paths(ov),
                forall|k: int| 0 <= k < i ==> #[trigger] ov[k] != path@,
            decreases self.scripts@.len() - i,
        {
            if bytes_eq(&self.scripts[i], path) {
                assert(ov[i as int] == path@);
                proof {
                    ov.index_of_first_ensures(path@);
                    assert(ov.index_of_first(path@) == Some(i as int));
                }
                self.scripts.remove(i);
                proof {
                    let ii = i as int;
                    assert(paths_view(self.scripts@) =~= ov.remove(ii));
                    assert forall|a: int, b: int|
                        0 <= a < b < ov.remove(ii).len() implies #[trigger] ov.remove(ii)[a]
                        != #[trigger] ov.remove(ii)[b] by {
                        ov.remove_ensures(ii);
                        let ra: Seq<u8> = if a < ii { ov[a] } else { ov[a + 1] };
                        let rb: Seq<u8> = if b < ii { ov[b] } else { ov[b + 1] };
                        assert(ov.remove(ii)[a] == ra);
                        assert(ov.remove(ii)[b] == rb);
                        assert(ra != rb);
                    }
                }
                return ;
            }
            i += 1;
        }
        proof {
            assert(forall|k: int| 0 <= k < ov.len() ==> #[trigger] ov[k] != path@);
            assert(!ov.contains(path@));
            ov.index_of_first_ensures(path@);
            assert(ov.index_of_first(path@) is None);
        }
        let p = path.clone();
        self.scripts.push(p);
        proof {
            assert(paths_view(self.scripts@) =~= ov.push(path@));
        }
    }

    /// Empties the set (used when multi-select mode is left).
    pub fn clear(&mut self)
        ensures
            final(self).wf(),
            final(self).enabled == old(self).enabled,
            final(self).scripts@.len() == 0,
    {
        self.scripts = Vec::new();
    }

    /// Whether `path` is currently selected.
    pub fn contains(&self, path: &Vec<u8>) -> (r: bool)
        ensures
            r == paths_view(self.scripts@).contains(path@),
    {
        let mut i: usize = 0;
        while i < self.scripts.len()
            invariant
                i <= self.scripts@.len(),
                forall|k: int| 0 <= k < i ==> #[trigger] paths_view(self.scripts@)[k] != path@,
            decreases self.scripts@.len() - i,
        {
            if bytes_eq(&self.scripts[i], path) {
                assert(paths_view(self.scripts@)[i as int] == path@);
                return true;
            }
            i += 1;
        }
        assert(forall|k: int|
            0 <= k < paths_view(self.scripts@).len() ==> #[trigger] paths_view(self.scripts@)[k]
                != path@);
        false
    }
}

/// Toggling the same path twice is its own inverse: membership of every
/// path is restored, the relative order of all other paths is untouched,
/// and a path that was absent leaves the set exactly as it found it.
pub proof fn lemma_toggle_twice(s: Seq<Seq<u8>>, p: Seq<u8>)
    requires
        no_dup_paths(s),
    ensures
        forall|q: Seq<u8>| toggle_spec(toggle_spec(s, p), p).contains(q) <==> s.contains(q),
        toggle_spec(toggle_spec(s, p), p).filter(|q: Seq<u8>| q != p) == s.filter(
            |q: Seq<u8>| q != p,
        ),
        !s.contains(p) ==> toggle_spec(toggle_spec(s, p), p) == s,
{
    s.index_of_first_ensures(p);
    if s.index_of_first(p) is Some {
        let i = s.index_of_first(p)->0;
        let s1 = s.remove(i);
        s.remove_ensures(i);
        assert forall|k: int| 0 <= k < s1.len() implies #[trigger] s1[k] != p by {
            if k < i {
            } else {
                assert(s1[k] == s[k + 1]);
            }
        }
        assert(!s1.contains(p)) by {
            if s1.contains(p) {
                let w = choose|k: int| 0 <= k < s1.len() && s1[k] == p;
                assert(s1[w] != p);
            }
        }
        s1.index_of_first_ensures(p);
        assert(s1.index_of_first(p) is None);
        let s2 = s1.push(p);
        assert(toggle_spec(toggle_spec(s, p), p) == s2);
        // membership round trip
        assert forall|q: Seq<u8>| s2.contains(q) <==> s.contains(q) by {
            if s2.contains(q) {
                let w = choose|k: int| 0 <= k < s2.len() && s2[k] == q;
                if w < s1.len() {
                    if w < i {
                        assert(s[w] == q);
                    } else {
                        assert(s[w + 1] == q);
                    }
                } else {
                    assert(s[i] == q);
                }
                assert(s.contains(q));
            }
            if s.contains(q) {
                let w = choose|k: int| 0 <= k < s.len() && s[k] == q;
                if w == i {
                    assert(s2[s2.len() - 1] == q);
                } else if w < i {
                    assert(s2[w] == q);
                } else {
                    assert(s2[w - 1] == q);
                }
                assert(s2.contains(q));
            }
        }
        // order of all other paths
        lemma_filter_remove_then_push(s, i, p);
    } else {
        let s1 = s.push(p);
        s1.index_of_first_ensures(p);
        let j = s1.index_of_first(p)->0;
        assert(s1[s.len() as int] == p);
        assert(s1.contains(p)) by {
            assert(s1[s.len() as int] == p);
        }
        assert(0 <= j < s1.len() && s1[j] == p);
        assert(j == s.len()) by {
            if j < s.len() {
                assert(s[j] == p);
                assert(s.contains(p));
            }
        }
        assert(toggle_spec(toggle_spec(s, p), p) =~= s);
    }
}

/// Removing the only occurrence of `p` and appending it again leaves the
/// subsequence of paths other than `p` unchanged.
proof fn lemma_filter_remove_then_push(s: Seq<Seq<u8>>, i: int, p: Seq<u8>)
    requires
        0 <= i < s.len(),
        s[i] == p,
    ensures
        s.remove(i).push(p).filter(|q: Seq<u8>| q != p) == s.filter(|q: Seq<u8>| q != p),
{
    let pred = |q: Seq<u8>| q != p;
    let s2 = s.remove(i).push(p);
    assert(s =~= s.subrange(0, i) + seq![p] + s.subrange(i + 1, s.len() as int));
    assert(s2 =~= s.subrange(0, i) + s.subrange(i + 1, s.len() as int) + seq![p]);
    Seq::filter_distributes_over_add(s.subrange(0, i) + seq![p], s.subrange(i + 1, s.len() as int), pred);
    Seq::filter_distributes_over_add(s.subrange(0, i), seq![p], pred);
    Seq::filter_distributes_over_add(
        s.subrange(0, i) + s.subrange(i + 1, s.len() as int),
        seq![p],
        pred,
    );
    Seq::filter_distributes_over_add(s.subrange(0, i), s.subrange(i + 1, s.len() as int), pred);
    assert(seq![p].filter(pred) =~= Seq::<Seq<u8>>::empty()) by {
        reveal_with_fuel(Seq::<_>::filter, 3);
        assert(seq![p].drop_last() =~= Seq::<Seq<u8>>::empty());
        assert(Seq::<Seq<u8>>::empty().filter(pred) =~= Seq::<Seq<u8>>::empty());
    }
    assert(s.filter(pred) == s.subrange(0, i).filter(pred) + s.subrange(
        i + 1,
        s.len() as int,
    ).filter(pred));
    assert(s2.filter(pred) =~= s.filter(pred));
}

} // verus!
