//! Sets of names, and maps from names to such sets, that can be walked.

use vstd::prelude::*;

use crate::text;

verus! {

/// A set of names. Each is held once, in the order in which it came.
pub struct Names {
    pub list: Vec<String>,
}

impl View for Names {
    type V = Set<Seq<char>>;

    open spec fn view(&self) -> Set<Seq<char>> {
        text::all_chars(self.list@).to_set()
    }
}

impl Names {
    pub fn new() -> (r: Names)
        ensures
            r@ == Set::<Seq<char>>::empty(),
    {
        let r = Names { list: Vec::new() };
        proof {
            assert(r@ =~= Set::<Seq<char>>::empty());
        }
        r
    }

    pub fn contains(&self, name: &str) -> (r: bool)
        ensures
            r == self@.contains(name@),
    {
        let ghost all = text::all_chars(self.list@);
        let mut i: usize = 0;
        while i < self.list.len()
            invariant
                i <= self.list.len(),
                all == text::all_chars(self.list@),
                forall|j: int| 0 <= j < i ==> all[j] != name@,
            decreases self.list.len() - i,
        {
            proof {
                assert(all[i as int] == self.list@[i as int]@);
            }
            if text::str_eq(self.list[i].as_str(), name) {
                proof {
                    assert(all.contains(name@));
                }
                return true;
            }
            i = i + 1;
        }
        false
    }

    /// Adds a name if it is not there yet.
    pub fn insert(&mut self, name: &str)
        ensures
            final(self)@ == old(self)@.insert(name@),
            old(self)@.contains(name@) ==> *final(self) == *old(self),
            !old(self)@.contains(name@) ==> text::all_chars(final(self).list@) == text::all_chars(
                old(self).list@,
            ).push(name@),
    {
        let ghost all = text::all_chars(self.list@);
        if self.contains(name) {
            proof {
                assert(self@ =~= self@.insert(name@));
            }
        } else {
            self.list.push(name.to_owned());
            proof {
                let now = text::all_chars(self.list@);
                assert(now =~= all.push(name@));
                assert forall|s: Seq<char>| #[trigger] now.to_set().contains(s) <==> all.to_set().insert(
                    name@,
                ).contains(s) by {
                    if all.to_set().insert(name@).contains(s) {
                        if s == name@ {
                            assert(now[all.len() as int] == s);
                        } else {
                            let i = choose|i: int| 0 <= i < all.len() && all[i] == s;
                            assert(now[i] == s);
                        }
                    }
                }
                assert(self@ =~= old(self)@.insert(name@));
            }
        }
    }
}

/// A map from names to sets of names.
pub struct NameMap {
    pub entries: Vec<(String, Names)>,
}

pub open spec fn entry_views(v: Seq<(String, Names)>) -> Seq<(Seq<char>, Set<Seq<char>>)> {
    v.map_values(|e: (String, Names)| (e.0@, e.1@))
}

/// The map that a list of entries is. Of two entries for one name the later counts.
pub open spec fn map_of(s: Seq<(Seq<char>, Set<Seq<char>>)>) -> Map<Seq<char>, Set<Seq<char>>>
    decreases s.len(),
{
    if s.len() == 0 {
        Map::empty()
    } else {
        map_of(s.drop_last()).insert(s.last().0, s.last().1)
    }
}

/// All names that are in the sets of a list of entries.
pub open spec fn members(s: Seq<(Seq<char>, Set<Seq<char>>)>) -> Set<Seq<char>>
    decreases s.len(),
{
    if s.len() == 0 {
        Set::empty()
    } else {
        members(s.drop_last()).union(s.last().1)
    }
}

proof fn lemma_members(s: Seq<(Seq<char>, Set<Seq<char>>)>, k: Seq<char>)
    ensures
        map_of(s).contains_key(k) ==> map_of(s)[k].subset_of(members(s)),
    decreases s.len(),
{
    if s.len() > 0 {
        lemma_members(s.drop_last(), k);
    }
}

proof fn lemma_members_finite(s: Seq<(Seq<char>, Set<Seq<char>>)>)
    requires
        forall|i: int| 0 <= i < s.len() ==> (#[trigger] s[i]).1.finite(),
    ensures
        members(s).finite(),
    decreases s.len(),
{
    if s.len() > 0 {
        lemma_members_finite(s.drop_last());
        assert(s.last() == s[s.len() - 1]);
    }
}

impl View for NameMap {
    type V = Map<Seq<char>, Set<Seq<char>>>;

    open spec fn view(&self) -> Map<Seq<char>, Set<Seq<char>>> {
        map_of(entry_views(self.entries@))
    }
}

impl NameMap {
    pub fn new() -> (r: NameMap)
        ensures
            r@ == Map::<Seq<char>, Set<Seq<char>>>::empty(),
    {
        let r = NameMap { entries: Vec::new() };
        proof {
            assert(entry_views(r.entries@) =~= Seq::empty());
        }
        r
    }

    pub fn insert(&mut self, name: String, names: Names)
        ensures
            final(self)@ == old(self)@.insert(name@, names@),
    {
        let ghost before = entry_views(self.entries@);
        self.entries.push((name, names));
        proof {
            let now = entry_views(self.entries@);
            assert(now.drop_last() =~= before);
            assert(now.last() == (name@, names@));
        }
    }

    pub fn get(&self, name: &str) -> (r: Option<&Names>)
        ensures
            match r {
                Some(names) => self@.contains_key(name@) && self@[name@] == names@,
                None => !self@.contains_key(name@),
            },
    {
        let ghost all = entry_views(self.entries@);
        let mut i: usize = self.entries.len();
        proof {
            assert(all.subrange(0, all.len() as int) =~= all);
        }
        while i > 0
            invariant
                i <= self.entries.len(),
                all == entry_views(self.entries@),
                self@.contains_key(name@) == map_of(all.subrange(0, i as int)).contains_key(name@),
                self@.contains_key(name@) ==> self@[name@] == map_of(
                    all.subrange(0, i as int),
                )[name@],
            decreases i,
        {
            let ghost cut = all.subrange(0, i as int);
            proof {
                assert(cut.drop_last() =~= all.subrange(0, i - 1));
                assert(cut.last() == (self.entries@[i - 1].0@, self.entries@[i - 1].1@));
            }
            i = i - 1;
            if text::str_eq(self.entries[i].0.as_str(), name) {
                return Some(&self.entries[i].1);
            }
        }
        None
    }

    /// All names in all sets are finitely many, and each set is among them.
    pub proof fn law_members(&self)
        ensures
            members(entry_views(self.entries@)).finite(),
            forall|k: Seq<char>| #[trigger]
                self@.contains_key(k) ==> self@[k].subset_of(members(entry_views(self.entries@))),
    {
        let s = entry_views(self.entries@);
        assert forall|i: int| 0 <= i < s.len() implies (#[trigger] s[i]).1.finite() by {
            let list = text::all_chars(self.entries@[i].1.list@);
            vstd::seq_lib::seq_to_set_is_finite(list);
        }
        lemma_members_finite(s);
        assert forall|k: Seq<char>| #[trigger] self@.contains_key(k) implies self@[k].subset_of(
            members(s),
        ) by {
            lemma_members(s, k);
        }
    }
}

} // verus!
