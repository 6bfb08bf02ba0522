use vstd::pervasive::VecAdditionalExecFns;
use vstd::prelude::*;

verus! {

/// An ordered name-to-value table with string keys, used for request forms and
/// for queue, topic and message attribute bags. Lookup returns the first entry
/// whose key matches; `insert` replaces that entry in place, so a table built
/// through `insert` keeps its keys unique and its insertion order, which lets
/// attribute bags round-trip through get/set unchanged.
#[derive(Debug)]
pub struct Dict {
    pub entries: Vec<(String, String)>,
}

impl View for Dict {
    type V = Seq<(Seq<char>, Seq<char>)>;

    open spec fn view(&self) -> Self::V {
        Seq::new(self.entries@.len(), |i: int| (self.entries@[i].0@, self.entries@[i].1@))
    }
}

/// Index of the first entry whose key is `key`, or -1 when none matches.
pub open spec fn dict_index_of(m: Seq<(Seq<char>, Seq<char>)>, key: Seq<char>) -> int
    decreases m.len(),
{
    if m.len() == 0 {
        -1
    } else if m[0].0 == key {
        0
    } else {
        let r = dict_index_of(m.drop_first(), key);
        if r == -1 {
            -1
        } else {
            r + 1
        }
    }
}

pub open spec fn dict_has_key(m: Seq<(Seq<char>, Seq<char>)>, key: Seq<char>) -> bool {
    dict_index_of(m, key) != -1
}

/// The value bound to `key`, taken from the first matching entry.
pub open spec fn dict_get(m: Seq<(Seq<char>, Seq<char>)>, key: Seq<char>) -> Option<Seq<char>> {
    if dict_has_key(m, key) {
        Some(m[dict_index_of(m, key)].1)
    } else {
        None
    }
}

/// Replace the first entry whose key is `key`, or append a new entry.
pub open spec fn dict_insert(
    m: Seq<(Seq<char>, Seq<char>)>,
    key: Seq<char>,
    value: Seq<char>,
) -> Seq<(Seq<char>, Seq<char>)> {
    if dict_has_key(m, key) {
        m.update(dict_index_of(m, key), (key, value))
    } else {
        m.push((key, value))
    }
}

/// `dict_index_of` points at the first matching entry: the index is in range,
/// its entry has the key, everything before it does not, and -1 means no entry
/// has the key at all.
pub proof fn lemma_dict_index_of(m: Seq<(Seq<char>, Seq<char>)>, key: Seq<char>)
    ensures
        dict_index_of(m, key) == -1 || (0 <= dict_index_of(m, key) < m.len()),
        dict_index_of(m, key) != -1 ==> m[dict_index_of(m, key)].0 == key,
        dict_index_of(m, key) != -1 ==> forall|j: int|
            0 <= j < dict_index_of(m, key) ==> m[j].0 != key,
        dict_index_of(m, key) == -1 ==> forall|j: int| 0 <= j < m.len() ==> m[j].0 != key,
    decreases m.len(),
{
    if m.len() > 0 && m[0].0 != key {
        lemma_dict_index_of(m.drop_first(), key);
        assert forall|j: int| 1 <= j < m.len() implies m.drop_first()[j - 1] == m[j] by {}
    }
}

/// If entry `i` matches `key` and no earlier entry does, then `i` is exactly
/// the index `dict_index_of` returns.
pub proof fn lemma_dict_index_of_unique(m: Seq<(Seq<char>, Seq<char>)>, key: Seq<char>, i: int)
    requires
        0 <= i < m.len(),
        m[i].0 == key,
        forall|j: int| 0 <= j < i ==> m[j].0 != key,
    ensures
        dict_index_of(m, key) == i,
{
    lemma_dict_index_of(m, key);
}

impl Dict {
    pub fn new() -> (r: Dict)
        ensures
            r@ =~= Seq::<(Seq<char>, Seq<char>)>::empty(),
    {
        Dict { entries: Vec::new() }
    }

    pub fn len(&self) -> (r: usize)
        ensures
            r == self@.len(),
    {
        self.entries.len()
    }

    /// The value bound to `key`, if any entry carries that key.
    pub fn get<'a>(&'a self, key: &str) -> (r: Option<&'a String>)
        ensures
            match r {
                Some(v) => dict_get(self@, key@) == Some(v@),
                None => dict_get(self@, key@) is None,
            },
    {
        let ks = String::from_str(key);
        let mut i: usize = 0;
        while i < self.entries.len()
            invariant
                i <= self.entries@.len(),
                ks@ == key@,
                forall|j: int| 0 <= j < i ==> self@[j].0 != key@,
            decreases self.entries@.len() - i,
        {
            if self.entries[i].0 == ks {
                proof {
                    lemma_dict_index_of_unique(self@, key@, i as int);
                }
                return Some(&self.entries[i].1);
            }
            i += 1;
        }
        proof {
            lemma_dict_index_of(self@, key@);
        }
        None
    }

    pub fn contains_key(&self, key: &str) -> (r: bool)
        ensures
            r == dict_has_key(self@, key@),
    {
        self.get(key).is_some()
    }

    /// Bind `key` to `value`, replacing the first entry with that key if one
    /// exists and appending otherwise.
    pub fn insert(&mut self, key: String, value: String)
        ensures
            final(self)@ == dict_insert(old(self)@, key@, value@),
    {
        let mut i: usize = 0;
        while i < self.entries.len()
            invariant
                i <= self.entries@.len(),
                *self == *old(self),
                forall|j: int| 0 <= j < i ==> self@[j].0 != key@,
            decreases self.entries@.len() - i,
        {
            if self.entries[i].0 == key {
                proof {
                    lemma_dict_index_of_unique(self@, key@, i as int);
                }
                self.entries.set(i, (key, value));
                proof {
                    assert(self@ =~= dict_insert(old(self)@, key@, value@));
                }
                return ;
            }
            i += 1;
        }
        proof {
            lemma_dict_index_of(self@, key@);
        }
        self.entries.push((key, value));
        proof {
            assert(self@ =~= dict_insert(old(self)@, key@, value@));
        }
    }
}

} // verus!
