//! The node-identity registry. Callers name voices with external text ids;
//! the engine addresses them by numeric node handles. The registry assigns
//! fresh handles above the engine's reserved low range, substitutes the
//! `{nodeId}` placeholder in self-referencing names, and answers bulk
//! lookups whose patterns are regular expressions.
use vstd::prelude::*;

use crate::strutil::{replace_all, spec_replace, spec_i64_str, i32_to_string};

verus! {

/// Whether the regex engine accepts a pattern; a function of the pattern
/// text alone.
pub uninterp spec fn regex_is_valid(p: Seq<char>) -> bool;

/// Whether a valid pattern matches anywhere in a text; a function of
/// pattern and text alone.
pub uninterp spec fn regex_matches(p: Seq<char>, t: Seq<char>) -> bool;

/// Relies on regex::Regex::new, which succeeds exactly on the well-formed
/// patterns, and regex::Regex::is_match, which tells whether the compiled
/// pattern matches anywhere in the text; both outcomes depend only on the
/// pattern and the text.
#[verifier::external_body]
fn regex_match(pattern: &str, text: &str) -> (r: Option<bool>)
    ensures
        r is Some <==> regex_is_valid(pattern@),
        r matches Some(b) ==> b == regex_matches(pattern@, text@),
{
    regex::Regex::new(pattern).ok().map(|re| re.is_match(text))
}

/// A registry entry: the external name and its node handle.
pub type EntryV = (Seq<char>, int);

/// The mathematical values of a handle list.
pub open spec fn ints_view(s: Seq<i32>) -> Seq<int> {
    s.map_values(|x: i32| x as int)
}

/// Map from external names to engine node handles, with the handle counter.
pub struct NodeIDRegistry {
    entries: Vec<(String, i32)>,
    curr_id: i32,
}

/// The handles of the entries whose name a valid pattern matches, in entry
/// order; a malformed pattern finds nothing.
pub open spec fn spec_search(entries: Seq<EntryV>, pat: Seq<char>) -> Seq<int> {
    if regex_is_valid(pat) {
        search_matches(entries, pat)
    } else {
        Seq::<int>::empty()
    }
}

/// The handles of the matching entries, in order.
pub open spec fn search_matches(entries: Seq<EntryV>, pat: Seq<char>) -> Seq<int>
    decreases entries.len(),
{
    if entries.len() == 0 {
        Seq::<int>::empty()
    } else {
        search_matches(entries.drop_last(), pat) + (if regex_matches(pat, entries.last().0) {
            seq![entries.last().1]
        } else {
            Seq::<int>::empty()
        })
    }
}

/// The entries that survive removing one exact name.
pub open spec fn remove_name(entries: Seq<EntryV>, name: Seq<char>) -> Seq<EntryV>
    decreases entries.len(),
{
    if entries.len() == 0 {
        Seq::<EntryV>::empty()
    } else {
        remove_name(entries.drop_last(), name) + (if entries.last().0 == name {
            Seq::<EntryV>::empty()
        } else {
            seq![entries.last()]
        })
    }
}

/// The entries that survive clearing a valid pattern: exactly those the
/// pattern does not match.
pub open spec fn keep_unmatched(entries: Seq<EntryV>, pat: Seq<char>) -> Seq<EntryV>
    decreases entries.len(),
{
    if entries.len() == 0 {
        Seq::<EntryV>::empty()
    } else {
        keep_unmatched(entries.drop_last(), pat) + (if regex_matches(pat, entries.last().0) {
            Seq::<EntryV>::empty()
        } else {
            seq![entries.last()]
        })
    }
}

/// Whether assigning this external name would succeed on this registry:
/// the counter has room and the filled name is not already matched.
pub open spec fn spec_assign_ok(reg: Seq<EntryV>, curr: int, ext: Seq<char>) -> bool {
    curr < i32::MAX && spec_search(reg, fill_name(ext, curr + 1)).len() == 0
}

/// The registry after a successful assignment.
pub open spec fn spec_assign(reg: Seq<EntryV>, curr: int, ext: Seq<char>) -> Seq<EntryV> {
    remove_name(reg, fill_name(ext, curr + 1)).push((fill_name(ext, curr + 1), curr + 1))
}

/// The external name after the `{nodeId}` placeholder is filled with the
/// assigned handle.
pub open spec fn fill_name(external_id: Seq<char>, id: int) -> Seq<char> {
    spec_replace(external_id, "{nodeId}"@, spec_i64_str(id))
}

impl View for NodeIDRegistry {
    type V = Seq<EntryV>;

    closed spec fn view(&self) -> Seq<EntryV> {
        self.entries@.map_values(|e: (String, i32)| (e.0@, e.1 as int))
    }
}

impl NodeIDRegistry {
    /// The handle counter: every held handle is at or below it.
    pub closed spec fn curr_spec(&self) -> int {
        self.curr_id as int
    }

    /// Registry invariant: handles start above the engine's reserved range,
    /// never exceed the counter, and grow strictly in entry order (so they
    /// are pairwise distinct); names are unique.
    pub closed spec fn wf(&self) -> bool {
        &&& 100 <= self.curr_spec()
        &&& forall|i: int|
            0 <= i < self@.len() ==> 101 <= (#[trigger] self@[i]).1 <= self.curr_spec()
        &&& forall|i: int, j: int| 0 <= i < j < self@.len() ==> self@[i].1 < self@[j].1
        &&& forall|i: int, j: int| 0 <= i < j < self@.len() ==> self@[i].0 != self@[j].0
    }

    /// A fresh registry: no entries, counter at the top of the engine's
    /// reserved range.
    pub fn new() -> (r: NodeIDRegistry)
        ensures
            r.wf(),
            r@.len() == 0,
            r.curr_spec() == 100,
    {
        NodeIDRegistry { entries: Vec::new(), curr_id: 100 }
    }

    /// Registry law: under the invariant the held handles are pairwise
    /// distinct, whatever sequence of assignments produced them.
    pub proof fn lemma_handles_unique(&self)
        requires
            self.wf(),
        ensures
            forall|i: int, j: int|
                0 <= i < self@.len() && 0 <= j < self@.len() && i != j ==> (#[trigger] self@[i]).1
                    != (#[trigger] self@[j]).1,
    {
    }

    /// Assign and return a fresh unique node handle for the given external
    /// name. The placeholder is substituted first; a name the registry's
    /// own pattern search already matches is a duplicate and changes
    /// nothing, as does an exhausted handle counter.
    pub fn create_node_id(&mut self, external_id: &str) -> (r: Result<i32, String>)
        requires
            old(self).wf(),
        ensures
            final(self).wf(),
            match r {
                Ok(id) => {
                    &&& old(self).curr_spec() < i32::MAX
                    &&& id == old(self).curr_spec() + 1
                    &&& final(self).curr_spec() == id
                    &&& spec_search(old(self)@, fill_name(external_id@, id as int)).len() == 0
                    &&& final(self)@ == remove_name(
                        old(self)@,
                        fill_name(external_id@, id as int),
                    ).push((fill_name(external_id@, id as int), id as int))
                    &&& forall|k: int|
                        0 <= k < old(self)@.len() ==> (#[trigger] old(self)@[k]).1 < id
                },
                Err(_) => {
                    &&& *final(self) == *old(self)
                    &&& (old(self).curr_spec() == i32::MAX || spec_search(
                        old(self)@,
                        fill_name(external_id@, old(self).curr_spec() + 1),
                    ).len() > 0)
                },
            },
    {
        if self.curr_id == i32::MAX {
            return Err("node handle space exhausted".to_owned());
        }
        let node_id = self.curr_id + 1;
        let id_string = i32_to_string(node_id);
        let with_id_fill = replace_all(external_id, "{nodeId}", id_string.as_str());

        let found = self.regex_search_node_ids(with_id_fill.as_str());
        if found.len() > 0 {
            return Err("External id already taken".to_owned());
        }

        self.remove_exact(with_id_fill.as_str());
        let ghost removed = self@;
        self.entries.push((with_id_fill, node_id));
        self.curr_id = node_id;
        proof {
            assert(self@ =~= removed.push((fill_name(external_id@, node_id as int),
                node_id as int)));
        }
        Ok(node_id)
    }

    /// All node handles whose external name the pattern matches, in entry
    /// order. A malformed pattern finds nothing and is never an error.
    pub fn regex_search_node_ids(&self, external_id_regex: &str) -> (r: Vec<i32>)
        ensures
            ints_view(r@) == spec_search(self@, external_id_regex@),
    {
        match regex_match(external_id_regex, "") {
            None => {
                return Vec::new();
            },
            Some(_) => {},
        }
        let mut out: Vec<i32> = Vec::new();
        let mut i: usize = 0;
        while i < self.entries.len()
            invariant
                i <= self.entries@.len(),
                regex_is_valid(external_id_regex@),
                ints_view(out@) == search_matches(self@.subrange(0, i as int), external_id_regex@),
            decreases self.entries@.len() - i,
        {
            let hit = match regex_match(external_id_regex, self.entries[i].0.as_str()) {
                Some(b) => b,
                None => {
                    proof {
                        assert(false);
                    }
                    false
                },
            };
            proof {
                let pre = self@.subrange(0, i as int);
                let ext = self@.subrange(0, i + 1);
                assert(ext.drop_last() =~= pre);
                assert(ext.last() == self@[i as int]);
                assert(self@[i as int] == (self.entries@[i as int].0@,
                    self.entries@[i as int].1 as int));
            }
            if hit {
                out.push(self.entries[i].1);
                proof {
                    assert(ints_view(out@) =~= search_matches(
                        self@.subrange(0, i + 1),
                        external_id_regex@,
                    ));
                }
            } else {
                proof {
                    assert(search_matches(self@.subrange(0, i + 1), external_id_regex@)
                        =~= search_matches(self@.subrange(0, i as int), external_id_regex@));
                }
            }
            i = i + 1;
        }
        proof {
            assert(self@.subrange(0, self@.len() as int) =~= self@);
        }
        out
    }

    /// Drop every entry whose name the pattern matches; a malformed pattern
    /// is only a warning to the caller and drops nothing.
    pub fn regex_clear_node_ids(&mut self, external_id_regex: &str)
        requires
            old(self).wf(),
        ensures
            final(self).wf(),
            final(self).curr_spec() == old(self).curr_spec(),
            regex_is_valid(external_id_regex@) ==> final(self)@ == keep_unmatched(
                old(self)@,
                external_id_regex@,
            ),
            !regex_is_valid(external_id_regex@) ==> *final(self) == *old(self),
    {
        match regex_match(external_id_regex, "") {
            None => {
                return ;
            },
            Some(_) => {},
        }
        let mut out: Vec<(String, i32)> = Vec::new();
        let ghost mut idxs: Seq<int> = Seq::empty();
        let mut i: usize = 0;
        while i < self.entries.len()
            invariant
                i <= self.entries@.len(),
                old(self).wf(),
                self == old(self),
                regex_is_valid(external_id_regex@),
                idxs.len() == out@.len(),
                out@.map_values(|e: (String, i32)| (e.0@, e.1 as int)) == keep_unmatched(
                    self@.subrange(0, i as int),
                    external_id_regex@,
                ),
                forall|k: int| 0 <= k < idxs.len() ==> 0 <= #[trigger] idxs[k] < i,
                forall|k1: int, k2: int| 0 <= k1 < k2 < idxs.len() ==> idxs[k1] < idxs[k2],
                forall|k: int|
                    0 <= k < out@.len() ==> ((#[trigger] out@[k]).0@, out@[k].1 as int)
                        == self@[idxs[k]],
            decreases self.entries@.len() - i,
        {
            let hit = match regex_match(external_id_regex, self.entries[i].0.as_str()) {
                Some(b) => b,
                None => {
                    proof {
                        assert(false);
                    }
                    false
                },
            };
            proof {
                let pre = self@.subrange(0, i as int);
                let ext = self@.subrange(0, i + 1);
                assert(ext.drop_last() =~= pre);
                assert(ext.last() == self@[i as int]);
                assert(self@[i as int] == (self.entries@[i as int].0@,
                    self.entries@[i as int].1 as int));
            }
            if !hit {
                let entry_name = self.entries[i].0.clone();
                let entry_id = self.entries[i].1;
                out.push((entry_name, entry_id));
                proof {
                    idxs = idxs.push(i as int);
                    assert(out@.map_values(|e: (String, i32)| (e.0@, e.1 as int))
                        =~= keep_unmatched(self@.subrange(0, i + 1), external_id_regex@));
                }
            } else {
                proof {
                    assert(keep_unmatched(self@.subrange(0, i + 1), external_id_regex@)
                        =~= keep_unmatched(self@.subrange(0, i as int), external_id_regex@));
                }
            }
            i = i + 1;
        }
        proof {
            assert(self@.subrange(0, self@.len() as int) =~= self@);
        }
        self.entries = out;
        proof {
            let ov = old(self)@;
            assert forall|i1: int, j1: int| 0 <= i1 < j1 < self@.len() implies self@[i1].1
                < self@[j1].1 by {
                assert(self@[i1] == ov[idxs[i1]]);
                assert(self@[j1] == ov[idxs[j1]]);
            }
            assert forall|i1: int, j1: int| 0 <= i1 < j1 < self@.len() implies self@[i1].0
                != self@[j1].0 by {
                assert(self@[i1] == ov[idxs[i1]]);
                assert(self@[j1] == ov[idxs[j1]]);
            }
            assert forall|k: int| 0 <= k < self@.len() implies 101 <= (#[trigger] self@[k]).1
                <= self.curr_spec() by {
                assert(self@[k] == ov[idxs[k]]);
            }
        }
    }

    /// Remove the entry under exactly this external name, if present; a
    /// miss changes nothing.
    pub fn clear(&mut self, external_id: String)
        requires
            old(self).wf(),
        ensures
            final(self).wf(),
            final(self).curr_spec() == old(self).curr_spec(),
            final(self)@ == remove_name(old(self)@, external_id@),
    {
        self.remove_exact(external_id.as_str());
    }

    /// Drop the entry with exactly this name, if one is held.
    fn remove_exact(&mut self, name: &str) -> (found: bool)
        requires
            old(self).wf(),
        ensures
            final(self).wf(),
            final(self).curr_spec() == old(self).curr_spec(),
            final(self)@ == remove_name(old(self)@, name@),
            forall|k: int|
                0 <= k < final(self)@.len() ==> exists|m: int|
                    0 <= m < old(self)@.len() && #[trigger] final(self)@[k] == old(self)@[m],
            forall|k: int| 0 <= k < final(self)@.len() ==> (#[trigger] final(self)@[k]).0 != name@,
    {
        let mut out: Vec<(String, i32)> = Vec::new();
        let ghost mut idxs: Seq<int> = Seq::empty();
        let mut i: usize = 0;
        let mut found = false;
        while i < self.entries.len()
            invariant
                i <= self.entries@.len(),
                old(self).wf(),
                self == old(self),
                idxs.len() == out@.len(),
                out@.map_values(|e: (String, i32)| (e.0@, e.1 as int)) == remove_name(
                    self@.subrange(0, i as int),
                    name@,
                ),
                forall|k: int| 0 <= k < idxs.len() ==> 0 <= #[trigger] idxs[k] < i,
                forall|k1: int, k2: int| 0 <= k1 < k2 < idxs.len() ==> idxs[k1] < idxs[k2],
                forall|k: int|
                    0 <= k < out@.len() ==> ((#[trigger] out@[k]).0@, out@[k].1 as int)
                        == self@[idxs[k]],
                forall|k: int| 0 <= k < out@.len() ==> (#[trigger] out@[k]).0@ != name@,
            decreases self.entries@.len() - i,
        {
            let keep = !crate::strutil::str_eq(self.entries[i].0.as_str(), name);
            proof {
                let pre = self@.subrange(0, i as int);
                let ext = self@.subrange(0, i + 1);
                assert(ext.drop_last() =~= pre);
                assert(ext.last() == self@[i as int]);
                assert(self@[i as int] == (self.entries@[i as int].0@,
                    self.entries@[i as int].1 as int));
            }
            if keep {
                let entry_name = self.entries[i].0.clone();
                let entry_id = self.entries[i].1;
                out.push((entry_name, entry_id));
                proof {
                    idxs = idxs.push(i as int);
                    assert(out@.map_values(|e: (String, i32)| (e.0@, e.1 as int)) =~= remove_name(
                        self@.subrange(0, i + 1),
                        name@,
                    ));
                }
            } else {
                found = true;
                proof {
                    assert(remove_name(self@.subrange(0, i + 1), name@) =~= remove_name(
                        self@.subrange(0, i as int),
                        name@,
                    ));
                }
            }
            i = i + 1;
        }
        proof {
            assert(self@.subrange(0, self@.len() as int) =~= self@);
        }
        self.entries = out;
        proof {
            let ov = old(self)@;
            assert forall|k: int| 0 <= k < self@.len() implies exists|m: int|
                0 <= m < ov.len() && #[trigger] self@[k] == ov[m] by {
                assert(self@[k] == ov[idxs[k]]);
            }
            assert forall|i1: int, j1: int| 0 <= i1 < j1 < self@.len() implies self@[i1].1
                < self@[j1].1 by {
                assert(self@[i1] == ov[idxs[i1]]);
                assert(self@[j1] == ov[idxs[j1]]);
            }
            assert forall|i1: int, j1: int| 0 <= i1 < j1 < self@.len() implies self@[i1].0
                != self@[j1].0 by {
                assert(self@[i1] == ov[idxs[i1]]);
                assert(self@[j1] == ov[idxs[j1]]);
            }
            assert forall|k: int| 0 <= k < self@.len() implies 101 <= (#[trigger] self@[k]).1
                <= self.curr_spec() by {
                assert(self@[k] == ov[idxs[k]]);
            }
        }
        found
    }
}

/// Clearing law: a valid pattern's bulk delete removes all and only the
/// matching entries — what remains is exactly the registry filtered to the
/// names the pattern does not match.
pub proof fn lemma_clear_exact(entries: Seq<EntryV>, pat: Seq<char>)
    ensures
        keep_unmatched(entries, pat) == entries.filter(
            |e: EntryV| !regex_matches(pat, e.0),
        ),
    decreases entries.len(),
{
    reveal(Seq::filter);
    if entries.len() > 0 {
        lemma_clear_exact(entries.drop_last(), pat);
        assert(keep_unmatched(entries, pat) =~= entries.filter(
            |e: EntryV| !regex_matches(pat, e.0),
        ));
    } else {
        assert(keep_unmatched(entries, pat) =~= entries.filter(
            |e: EntryV| !regex_matches(pat, e.0),
        ));
    }
}

} // verus!
