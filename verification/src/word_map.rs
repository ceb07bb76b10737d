//! An immutable string-to-string table. Its view is the mapping that the
//! entry list denotes, later entries winning on a repeated key, which is
//! exactly the merge order the stem builder needs.

use vstd::prelude::*;

verus! {

/// The mapping that a key/value entry list denotes, later entries winning.
pub open spec fn map_of(entries: Seq<(String, String)>) -> Map<Seq<char>, Seq<char>>
    decreases entries.len(),
{
    if entries.len() == 0 {
        Map::empty()
    } else {
        map_of(entries.drop_last()).insert(entries.last().0@, entries.last().1@)
    }
}

/// What a stem query returns on a table: the stored value when the word is
/// a key, the word itself otherwise (identity fallback; a lookup never
/// fails).
pub open spec fn stem_lookup(m: Map<Seq<char>, Seq<char>>, w: Seq<char>) -> Seq<char> {
    if m.contains_key(w) {
        m[w]
    } else {
        w
    }
}

/// Every key and value of a mapping is canonical: an output of the
/// normalizer, so a lookup that normalizes its query side exactly matches
/// the stored keys.
pub open spec fn map_canonical(m: Map<Seq<char>, Seq<char>>) -> bool {
    forall|k: Seq<char>|
        #[trigger] m.contains_key(k) ==> crate::text::canonical(k) && crate::text::canonical(
            m[k],
        )
}

/// A string-to-string lookup table, immutable once built.
#[derive(Debug)]
pub struct WordMap {
    entries: Vec<(String, String)>,
}

impl View for WordMap {
    type V = Map<Seq<char>, Seq<char>>;

    closed spec fn view(&self) -> Map<Seq<char>, Seq<char>> {
        map_of(self.entries@)
    }
}

impl WordMap {
    /// An empty table.
    pub fn new() -> (r: WordMap)
        ensures
            r@ == Map::<Seq<char>, Seq<char>>::empty(),
    {
        WordMap { entries: Vec::new() }
    }

    /// Binds a key to a value, replacing any earlier binding of the key.
    pub fn insert(&mut self, key: String, value: String)
        ensures
            final(self)@ == old(self)@.insert(key@, value@),
    {
        self.entries.push((key, value));
        proof {
            assert(self.entries@.drop_last() =~= old(self).entries@);
        }
    }

    /// The value bound to a key, if the key is present.
    pub fn get(&self, key: &String) -> (r: Option<&String>)
        ensures
            match r {
                Some(v) => self@.contains_key(key@) && v@ == self@[key@],
                None => !self@.contains_key(key@),
            },
    {
        let mut j = self.entries.len();
        proof {
            assert(self.entries@.take(j as int) =~= self.entries@);
        }
        while j > 0
            invariant
                j <= self.entries@.len(),
                self@.contains_key(key@) <==> map_of(self.entries@.take(j as int)).contains_key(
                    key@,
                ),
                self@.contains_key(key@) ==> self@[key@] == map_of(
                    self.entries@.take(j as int),
                )[key@],
            decreases j,
        {
            j -= 1;
            proof {
                assert(self.entries@.take(j + 1 as int).drop_last() =~= self.entries@.take(
                    j as int,
                ));
                assert(self.entries@.take(j + 1 as int).last() == self.entries@[j as int]);
            }
            let entry = &self.entries[j];
            if entry.0 == *key {
                return Some(&entry.1);
            }
        }
        proof {
            assert(self.entries@.take(0) =~= Seq::<(String, String)>::empty());
        }
        None
    }

    /// Whether a key is present.
    pub fn contains_key(&self, key: &String) -> (r: bool)
        ensures
            r == self@.contains_key(key@),
    {
        self.get(key).is_some()
    }

    /// The stem of a word: the stored value when the word is a key, the
    /// word unchanged otherwise. A stem query never fails.
    pub fn stem_of(&self, word: String) -> (r: String)
        ensures
            r@ == stem_lookup(self@, word@),
    {
        match self.get(&word) {
            Some(v) => v.clone(),
            None => word,
        }
    }

    /// A structurally equal copy of the table.
    pub fn duplicate(&self) -> (r: WordMap)
        ensures
            r@ == self@,
    {
        let mut entries: Vec<(String, String)> = Vec::new();
        let n = self.entries.len();
        let mut i: usize = 0;
        while i < n
            invariant
                i <= n,
                n == self.entries@.len(),
                entries@.len() == i,
                forall|j: int|
                    0 <= j < i ==> (#[trigger] entries@[j]).0@ == self.entries@[j].0@
                        && entries@[j].1@ == self.entries@[j].1@,
            decreases n - i,
        {
            let entry = &self.entries[i];
            entries.push((entry.0.clone(), entry.1.clone()));
            i += 1;
        }
        let r = WordMap { entries };
        proof {
            lemma_map_of_depends_on_views(r.entries@, self.entries@);
        }
        r
    }
}

/// Two entry lists whose keys and values agree characterwise denote the
/// same mapping.
proof fn lemma_map_of_depends_on_views(a: Seq<(String, String)>, b: Seq<(String, String)>)
    requires
        a.len() == b.len(),
        forall|j: int|
            0 <= j < a.len() ==> (#[trigger] a[j]).0@ == b[j].0@ && a[j].1@ == b[j].1@,
    ensures
        map_of(a) == map_of(b),
    decreases a.len(),
{
    if a.len() > 0 {
        lemma_map_of_depends_on_views(a.drop_last(), b.drop_last());
        assert(map_of(a) =~= map_of(b));
    } else {
        assert(map_of(a) =~= map_of(b));
    }
}

} // verus!
