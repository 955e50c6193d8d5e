//! The shared URL-to-path table and the visited set.
//!
//! The table is the sole dedup point of a crawl: a URL is enqueued only
//! when its first insertion succeeds, so check-and-insert is one
//! operation and entries are never removed. The visited set records
//! completed fetch attempts for observability only.

use vstd::prelude::*;

verus! {

/// The map an entry vector denotes; a later entry for the same key
/// wins, though the table never makes one.
pub open spec fn map_of(s: Seq<(String, String)>) -> Map<Seq<char>, Seq<char>>
    decreases s.len(),
{
    if s.len() == 0 {
        Map::empty()
    } else {
        map_of(s.drop_last()).insert(s.last().0@, s.last().1@)
    }
}

proof fn lemma_map_of_untouched_tail(s: Seq<(String, String)>, k: Seq<char>, i: int)
    requires
        0 <= i <= s.len(),
        forall|j: int| i <= j < s.len() ==> #[trigger] s[j].0@ != k,
    ensures
        map_of(s).contains_key(k) == map_of(s.take(i)).contains_key(k),
        map_of(s).contains_key(k) ==> map_of(s)[k] == map_of(s.take(i))[k],
    decreases s.len() - i,
{
    if i == s.len() {
        assert(s.take(i) =~= s);
    } else {
        assert(s.last().0@ != k);
        assert(s.drop_last() =~= s.take(s.len() - 1));
        lemma_map_of_untouched_tail(s.take(s.len() - 1), k, i);
        assert(s.take(s.len() - 1).take(i) =~= s.take(i));
    }
}

proof fn lemma_map_of_found(s: Seq<(String, String)>, i: int)
    requires
        0 <= i < s.len(),
        forall|j: int| i < j < s.len() ==> #[trigger] s[j].0@ != s[i].0@,
    ensures
        map_of(s).contains_key(s[i].0@),
        map_of(s)[s[i].0@] == s[i].1@,
{
    lemma_map_of_untouched_tail(s, s[i].0@, i + 1);
    assert(s.take(i + 1).last() == s[i]);
    assert(s.take(i + 1).drop_last() =~= s.take(i));
}

/// URL-to-path table: insertion is the only way in, and checking and
/// inserting are one call.
pub struct PathTable {
    entries: Vec<(String, String)>,
}

impl View for PathTable {
    type V = Map<Seq<char>, Seq<char>>;

    closed spec fn view(&self) -> Map<Seq<char>, Seq<char>> {
        map_of(self.entries@)
    }
}

impl PathTable {
    /// An empty table.
    pub fn new() -> (t: PathTable)
        ensures
            t@ == Map::<Seq<char>, Seq<char>>::empty(),
    {
        PathTable { entries: Vec::new() }
    }

    /// The path assigned to a URL, if one was.
    pub fn get(&self, key: &String) -> (r: Option<&String>)
        ensures
            match r {
                Some(v) => self@.contains_key(key@) && v@ == self@[key@],
                None => !self@.contains_key(key@),
            },
    {
        let n = self.entries.len();
        let mut i: usize = n;
        while i > 0
            invariant
                n == self.entries@.len(),
                i <= n,
                forall|j: int| i <= j < n ==> #[trigger] self.entries@[j].0@ != key@,
            decreases i,
        {
            i -= 1;
            if crate::strutil::str_eq(self.entries[i].0.as_str(), key.as_str()) {
                proof {
                    lemma_map_of_found(self.entries@, i as int);
                }
                return Some(&self.entries[i].1);
            }
        }
        proof {
            lemma_map_of_untouched_tail(self.entries@, key@, 0);
            assert(self.entries@.take(0) =~= Seq::<(String, String)>::empty());
        }
        None
    }

    /// Atomic check-and-insert: the entry goes in only when the key is
    /// new, and the answer says whether it did.
    pub fn insert_if_absent(&mut self, key: &String, value: String) -> (inserted: bool)
        ensures
            inserted == !old(self)@.contains_key(key@),
            final(self)@ == (if inserted {
                old(self)@.insert(key@, value@)
            } else {
                old(self)@
            }),
    {
        let n = self.entries.len();
        let mut i: usize = n;
        while i > 0
            invariant
                n == self.entries@.len(),
                i <= n,
                forall|j: int| i <= j < n ==> #[trigger] self.entries@[j].0@ != key@,
            decreases i,
        {
            i -= 1;
            if crate::strutil::str_eq(self.entries[i].0.as_str(), key.as_str()) {
                proof {
                    lemma_map_of_found(self.entries@, i as int);
                }
                return false;
            }
        }
        proof {
            lemma_map_of_untouched_tail(self.entries@, key@, 0);
            assert(self.entries@.take(0) =~= Seq::<(String, String)>::empty());
        }
        let ghost pre = self.entries@;
        self.entries.push((key.clone(), value));
        proof {
            assert(self.entries@.drop_last() =~= pre);
        }
        true
    }
}

/// The set an item vector denotes.
pub open spec fn set_of(s: Seq<String>) -> Set<Seq<char>>
    decreases s.len(),
{
    if s.len() == 0 {
        Set::empty()
    } else {
        set_of(s.drop_last()).insert(s.last()@)
    }
}

/// URLs whose fetch attempt has completed; kept for observability, not
/// for dedup.
pub struct VisitedSet {
    items: Vec<String>,
}

impl View for VisitedSet {
    type V = Set<Seq<char>>;

    closed spec fn view(&self) -> Set<Seq<char>> {
        set_of(self.items@)
    }
}

impl VisitedSet {
    /// An empty set.
    pub fn new() -> (s: VisitedSet)
        ensures
            s@ == Set::<Seq<char>>::empty(),
    {
        VisitedSet { items: Vec::new() }
    }

    /// Record a completed fetch attempt.
    pub fn insert(&mut self, url: String)
        ensures
            final(self)@ == old(self)@.insert(url@),
    {
        let ghost pre = self.items@;
        self.items.push(url);
        proof {
            assert(self.items@.drop_last() =~= pre);
        }
    }

    /// Whether a URL's fetch attempt has completed.
    pub fn contains(&self, url: &String) -> (r: bool)
        ensures
            r == self@.contains(url@),
    {
        let n = self.items.len();
        let mut i: usize = 0;
        while i < n
            invariant
                n == self.items@.len(),
                i <= n,
                forall|j: int| 0 <= j < i ==> #[trigger] self.items@[j]@ != url@,
            decreases n - i,
        {
            if crate::strutil::str_eq(self.items[i].as_str(), url.as_str()) {
                proof {
                    lemma_set_of_member(self.items@, i as int);
                }
                return true;
            }
            i += 1;
        }
        proof {
            lemma_set_of_no_member(self.items@, url@);
        }
        false
    }
}

proof fn lemma_set_of_member(s: Seq<String>, i: int)
    requires
        0 <= i < s.len(),
    ensures
        set_of(s).contains(s[i]@),
    decreases s.len(),
{
    if i == s.len() - 1 {
    } else {
        lemma_set_of_member(s.drop_last(), i);
    }
}

proof fn lemma_set_of_no_member(s: Seq<String>, k: Seq<char>)
    requires
        forall|j: int| 0 <= j < s.len() ==> #[trigger] s[j]@ != k,
    ensures
        !set_of(s).contains(k),
    decreases s.len(),
{
    if s.len() > 0 {
        lemma_set_of_no_member(s.drop_last(), k);
    }
}

} // verus!
