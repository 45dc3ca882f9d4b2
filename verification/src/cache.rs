//! The pages loaded during a session, kept so that revisits need no new run of `man`.
use vstd::prelude::*;

use crate::text::{decimal, push_decimal};

verus! {

/// The key under which a page is kept: the command, a colon, and the section
/// number when there is one.
pub open spec fn page_key(cmd: Seq<char>, section: Option<u8>) -> Seq<char> {
    match section {
        Some(n) => cmd + seq![':'] + decimal(n),
        None => cmd + seq![':'],
    }
}

/// Builds `page_key` for a command and section.
pub fn cache_key(cmd: &String, section: Option<u8>) -> (key: String)
    ensures
        key@ == page_key(cmd@, section),
{
    let mut key = cmd.clone();
    key.push(':');
    match section {
        Some(n) => push_decimal(&mut key, n),
        None => {},
    }
    key
}

/// The map from keys to pages that a list of entries describes; a later entry
/// wins over an earlier one with the same key.
pub open spec fn entries_map(entries: Seq<(String, String)>) -> Map<Seq<char>, Seq<char>>
    decreases entries.len(),
{
    if entries.len() == 0 {
        Map::empty()
    } else {
        entries_map(entries.drop_last()).insert(entries.last().0@, entries.last().1@)
    }
}

/// No two entries share a key.
pub open spec fn distinct_keys(entries: Seq<(String, String)>) -> bool {
    forall|i: int, j: int| 0 <= i < j < entries.len() ==> entries[i].0@ != entries[j].0@
}

proof fn lemma_entries_map(entries: Seq<(String, String)>)
    requires
        distinct_keys(entries),
    ensures
        forall|k: Seq<char>|
            #[trigger] entries_map(entries).dom().contains(k) <==> exists|i: int|
                0 <= i < entries.len() && entries[i].0@ == k,
        forall|i: int|
            0 <= i < entries.len() ==> #[trigger] entries_map(entries)[entries[i].0@] == entries[i].1@,
    decreases entries.len(),
{
    if entries.len() > 0 {
        let init = entries.drop_last();
        lemma_entries_map(init);
        let n = entries.len() - 1;
        assert forall|k: Seq<char>|
            #[trigger] entries_map(entries).dom().contains(k) <==> exists|i: int|
                0 <= i < entries.len() && entries[i].0@ == k by {
            if entries_map(init).dom().contains(k) {
                let i = choose|i: int| 0 <= i < init.len() && init[i].0@ == k;
                assert(entries[i].0@ == k);
            }
            if exists|i: int| 0 <= i < entries.len() && entries[i].0@ == k {
                let i = choose|i: int| 0 <= i < entries.len() && entries[i].0@ == k;
                if i < n {
                    assert(init[i].0@ == k);
                }
            }
        }
        assert forall|i: int| 0 <= i < entries.len() implies #[trigger] entries_map(entries)[entries[i].0@]
            == entries[i].1@ by {
            if i < n {
                assert(init[i] == entries[i]);
                assert(entries[i].0@ != entries[n].0@);
                assert(entries_map(init)[init[i].0@] == init[i].1@);
                assert(entries_map(init).dom().contains(init[i].0@));
            }
        }
    }
}

proof fn lemma_entries_map_update(entries: Seq<(String, String)>, i: int, e: (String, String))
    requires
        distinct_keys(entries),
        0 <= i < entries.len(),
        entries[i].0@ == e.0@,
    ensures
        distinct_keys(entries.update(i, e)),
        entries_map(entries.update(i, e)) == entries_map(entries).insert(e.0@, e.1@),
{
    let u = entries.update(i, e);
    assert(distinct_keys(u)) by {
        assert forall|a: int, b: int| 0 <= a < b < u.len() implies u[a].0@ != u[b].0@ by {
            assert(entries[a].0@ != entries[b].0@);
        }
    }
    lemma_entries_map(entries);
    lemma_entries_map(u);
    let m1 = entries_map(u);
    let m2 = entries_map(entries).insert(e.0@, e.1@);
    assert forall|k: Seq<char>| m1.dom().contains(k) <==> m2.dom().contains(k) by {
        if m1.dom().contains(k) {
            let j = choose|j: int| 0 <= j < u.len() && u[j].0@ == k;
            if j != i {
                assert(entries[j].0@ == k);
            }
        }
        if entries_map(entries).dom().contains(k) {
            let j = choose|j: int| 0 <= j < entries.len() && entries[j].0@ == k;
            if j != i {
                assert(u[j].0@ == k);
            } else {
                assert(u[i].0@ == k);
            }
        }
        if k == e.0@ {
            assert(u[i].0@ == k);
        }
    }
    assert forall|k: Seq<char>| m1.dom().contains(k) implies m1[k] == m2[k] by {
        let j = choose|j: int| 0 <= j < u.len() && u[j].0@ == k;
        assert(m1[u[j].0@] == u[j].1@);
        if j != i {
            assert(entries_map(entries)[entries[j].0@] == entries[j].1@);
        }
    }
    assert(m1 =~= m2);
}

/// Pages by key.
pub struct PageCache {
    entries: Vec<(String, String)>,
}

impl View for PageCache {
    type V = Map<Seq<char>, Seq<char>>;

    closed spec fn view(&self) -> Map<Seq<char>, Seq<char>> {
        entries_map(self.entries@)
    }
}

impl PageCache {
    #[verifier::type_invariant]
    spec fn keys_are_distinct(self) -> bool {
        distinct_keys(self.entries@)
    }

    /// An empty cache.
    pub fn new() -> (c: Self)
        ensures
            c@ == Map::<Seq<char>, Seq<char>>::empty(),
    {
        PageCache { entries: Vec::new() }
    }

    /// The page kept under `key`, if any.
    pub fn get(&self, key: &String) -> (r: Option<String>)
        ensures
            r is Some <==> self@.dom().contains(key@),
            r matches Some(page) ==> page@ == self@[key@],
    {
        let mut i: usize = 0;
        while i < self.entries.len()
            invariant
                i <= self.entries@.len(),
                forall|j: int| 0 <= j < i ==> self.entries@[j].0@ != key@,
            decreases self.entries@.len() - i,
        {
            if self.entries[i].0 == *key {
                proof {
                    use_type_invariant(self);
                    lemma_entries_map(self.entries@);
                    assert(entries_map(self.entries@)[self.entries@[i as int].0@] == self.entries@[i as int].1@);
                }
                return Some(self.entries[i].1.clone());
            }
            i = i + 1;
        }
        proof {
            use_type_invariant(self);
            lemma_entries_map(self.entries@);
        }
        None
    }

    /// Keeps `page` under `key`, replacing what was kept there before.
    pub fn insert(&mut self, key: String, page: String)
        ensures
            final(self)@ == old(self)@.insert(key@, page@),
    {
        proof {
            use_type_invariant(&*self);
        }
        let mut i: usize = 0;
        while i < self.entries.len()
            invariant
                i <= self.entries@.len(),
                self.entries@ == old(self).entries@,
                distinct_keys(self.entries@),
                forall|j: int| 0 <= j < i ==> self.entries@[j].0@ != key@,
            decreases self.entries@.len() - i,
        {
            if self.entries[i].0 == key {
                let ghost before = self.entries@;
                proof {
                    lemma_entries_map_update(before, i as int, (key, page));
                }
                let mut entries: Vec<(String, String)> = Vec::new();
                std::mem::swap(&mut entries, &mut self.entries);
                entries.set(i, (key, page));
                self.entries = entries;
                return ;
            }
            i = i + 1;
        }
        let ghost before = self.entries@;
        let mut entries: Vec<(String, String)> = Vec::new();
        std::mem::swap(&mut entries, &mut self.entries);
        entries.push((key, page));
        proof {
            assert(entries@.drop_last() =~= before);
            assert forall|a: int, b: int| 0 <= a < b < entries@.len() implies entries@[a].0@ != entries@[b].0@ by {
                if b < before.len() {
                    assert(before[a] == entries@[a]);
                    assert(before[b] == entries@[b]);
                }
            }
        }
        self.entries = entries;
    }
}

} // verus!
