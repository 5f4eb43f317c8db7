//! Data viewers' state: which nodes of a JSON tree are expanded, keyed by
//! JSON-pointer path (`""` is the root, `/nodes/0` a child).

use vstd::prelude::*;

verus! {

/// The paths held by `v`, as a set.
pub open spec fn path_set(v: Seq<String>) -> Set<Seq<char>> {
    Set::new(|p: Seq<char>| exists|i: int| 0 <= i < v.len() && (#[trigger] v[i])@ == p)
}

/// No path is held twice.
pub open spec fn distinct_paths(v: Seq<String>) -> bool {
    forall|i: int, j: int| 0 <= i < j < v.len() ==> (#[trigger] v[i])@ != (#[trigger] v[j])@
}

/// `s` with `p` flipped: removed when held, added otherwise.
pub open spec fn toggled(s: Set<Seq<char>>, p: Seq<char>) -> Set<Seq<char>> {
    if s.contains(p) {
        s.remove(p)
    } else {
        s.insert(p)
    }
}

/// Toggling a path twice restores the state, and toggling one path never
/// changes another's: collapsing a parent keeps its children's entries.
pub proof fn lemma_toggle_round_trip(s: Set<Seq<char>>, p: Seq<char>, q: Seq<char>)
    ensures
        toggled(toggled(s, p), p) == s,
        q != p ==> (toggled(s, p).contains(q) == s.contains(q)),
        toggled(s, p).contains(p) == !s.contains(p),
{
    assert(toggled(toggled(s, p), p) =~= s);
}

/// Expansion state of a JSON viewer: the set of expanded paths. The root
/// starts expanded; every other node starts collapsed. Each node's entry is
/// its own, so collapsing a parent keeps its children's entries and
/// re-expanding it restores the subtree as it was.
pub struct JsonViewerState {
    expanded: Vec<String>,
}

impl JsonViewerState {
    #[verifier::type_invariant]
    spec fn inv(&self) -> bool {
        distinct_paths(self.expanded@)
    }

    /// The expanded paths.
    pub closed spec fn expanded_paths(&self) -> Set<Seq<char>> {
        path_set(self.expanded@)
    }

    /// Only the root is expanded.
    pub fn new() -> (s: JsonViewerState)
        ensures
            s.expanded_paths() == Set::<Seq<char>>::empty().insert(Seq::<char>::empty()),
    {
        let mut expanded: Vec<String> = Vec::new();
        expanded.push(String::new());
        let s = JsonViewerState { expanded };
        assert(s.expanded_paths() =~= Set::<Seq<char>>::empty().insert(Seq::<char>::empty())) by {
            assert(s.expanded@[0]@ == Seq::<char>::empty());
        }
        s
    }

    /// Where `path` sits among the expanded paths, if it does.
    fn position(&self, path: &String) -> (r: Option<usize>)
        ensures
            r matches Some(i) ==> i < self.expanded@.len() && self.expanded@[i as int]@ == path@,
            r is None ==> !self.expanded_paths().contains(path@),
    {
        let mut k: usize = 0;
        while k < self.expanded.len()
            invariant
                k <= self.expanded@.len(),
                forall|i: int| 0 <= i < k ==> (#[trigger] self.expanded@[i])@ != path@,
            decreases self.expanded@.len() - k,
        {
            if self.expanded[k] == *path {
                return Some(k);
            }
            k += 1;
        }
        None
    }

    /// Whether the node at `path` is expanded.
    pub fn is_expanded(&self, path: &str) -> (b: bool)
        ensures
            b == self.expanded_paths().contains(path@),
    {
        let key = path.to_owned();
        match self.position(&key) {
            Some(i) => {
                assert(path_set(self.expanded@).contains(path@)) by {
                    assert(self.expanded@[i as int]@ == path@);
                }
                true
            },
            None => false,
        }
    }

    /// Flip the node at `path`, leaving every other entry alone; returns
    /// whether it is now expanded.
    pub fn toggle(&mut self, path: &str) -> (open: bool)
        ensures
            open == !old(self).expanded_paths().contains(path@),
            final(self).expanded_paths() == toggled(old(self).expanded_paths(), path@),
    {
        proof {
            use_type_invariant(&*self);
        }
        let key = path.to_owned();
        let found = self.position(&key);
        let mut list: Vec<String> = Vec::new();
        std::mem::swap(&mut list, &mut self.expanded);
        let ghost before = list@;
        match found {
            Some(i) => {
                assert(path_set(before).contains(path@)) by {
                    assert(before[i as int]@ == path@);
                }
                list.remove(i);
                proof {
                    assert forall|a: int, b: int| 0 <= a < b < list@.len() implies (#[trigger] list@[a])@
                        != (#[trigger] list@[b])@ by {
                        let a0 = if a < i { a } else { a + 1 };
                        let b0 = if b < i { b } else { b + 1 };
                        assert(list@[a] == before[a0]);
                        assert(list@[b] == before[b0]);
                    }
                    assert(path_set(list@) =~= path_set(before).remove(path@)) by {
                        assert forall|p: Seq<char>| path_set(list@).contains(p) implies path_set(
                            before,
                        ).remove(path@).contains(p) by {
                            let x = choose|x: int| 0 <= x < list@.len() && (#[trigger] list@[x])@ == p;
                            let x0 = if x < i { x } else { x + 1 };
                            assert(list@[x] == before[x0]);
                            assert(before[x0]@ == p);
                        }
                        assert forall|p: Seq<char>| path_set(before).remove(path@).contains(p) implies path_set(
                            list@,
                        ).contains(p) by {
                            let y = choose|y: int| 0 <= y < before.len() && (#[trigger] before[y])@ == p;
                            assert(y != i);
                            let x = if y < i { y } else { y - 1 };
                            assert(list@[x] == before[y]);
                        }
                    }
                }
                self.expanded = list;
                false
            },
            None => {
                list.push(key);
                proof {
                    assert forall|a: int, b: int| 0 <= a < b < list@.len() implies (#[trigger] list@[a])@
                        != (#[trigger] list@[b])@ by {
                        if b == list@.len() - 1 {
                            assert(list@[a] == before[a]);
                            assert(path_set(before).contains(before[a]@));
                        } else {
                            assert(list@[a] == before[a]);
                            assert(list@[b] == before[b]);
                        }
                    }
                    assert(path_set(list@) =~= path_set(before).insert(path@)) by {
                        assert forall|p: Seq<char>| path_set(list@).contains(p) implies path_set(
                            before,
                        ).insert(path@).contains(p) by {
                            let x = choose|x: int| 0 <= x < list@.len() && (#[trigger] list@[x])@ == p;
                            if x < before.len() {
                                assert(list@[x] == before[x]);
                            }
                        }
                        assert forall|p: Seq<char>| path_set(before).insert(path@).contains(p) implies path_set(
                            list@,
                        ).contains(p) by {
                            if p == path@ {
                                assert(list@[before.len() as int]@ == p);
                            } else {
                                let y = choose|y: int| 0 <= y < before.len() && (#[trigger] before[y])@ == p;
                                assert(list@[y] == before[y]);
                            }
                        }
                    }
                }
                self.expanded = list;
                true
            },
        }
    }
}

impl Default for JsonViewerState {
    fn default() -> (s: JsonViewerState)
        ensures
            s.expanded_paths() == Set::<Seq<char>>::empty().insert(Seq::<char>::empty()),
    {
        JsonViewerState::new()
    }
}

} // verus!
