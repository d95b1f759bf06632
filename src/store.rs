//! The key/value store that the server shares between uploads and downloads.
use vstd::prelude::*;
use vstd::string::StringExecFns;

verus! {

/// A map from text keys to text values; each key is held once.
pub struct Database {
    entries: Vec<(String, String)>,
}

impl View for Database {
    type V = Map<Seq<char>, Seq<char>>;

    closed spec fn view(&self) -> Map<Seq<char>, Seq<char>> {
        Map::new(
            |k: Seq<char>| exists|i: int| 0 <= i < self.entries@.len() && self.entries@[i].0@ == k,
            |k: Seq<char>|
                self.entries@[choose|i: int| 0 <= i < self.entries@.len() && self.entries@[i].0@ == k].1@,
        )
    }
}

/// What `m` holds under `key`, or the empty text.
pub open spec fn entry_or_empty(m: Map<Seq<char>, Seq<char>>, key: Seq<char>) -> Seq<char> {
    if m.contains_key(key) {
        m[key]
    } else {
        Seq::empty()
    }
}

impl Database {
    /// No key is held twice.
    pub closed spec fn wf(&self) -> bool {
        forall|i: int, j: int|
            0 <= i < j < self.entries@.len() ==> #[trigger] self.entries@[i].0@ != #[trigger] self.entries@[j].0@
    }

    proof fn lemma_view_at(&self, i: int)
        requires
            self.wf(),
            0 <= i < self.entries@.len(),
        ensures
            self@.contains_key(self.entries@[i].0@),
            self@[self.entries@[i].0@] == self.entries@[i].1@,
    {
        let k = self.entries@[i].0@;
        assert(self@.dom().contains(k));
        let j = choose|j: int| 0 <= j < self.entries@.len() && self.entries@[j].0@ == k;
        if i < j {
            assert(self.entries@[i].0@ != self.entries@[j].0@);
        } else if j < i {
            assert(self.entries@[j].0@ != self.entries@[i].0@);
        }
    }

    /// An empty store.
    pub fn new() -> (r: Database)
        ensures
            r.wf(),
            r@ == Map::<Seq<char>, Seq<char>>::empty(),
    {
        let r = Database { entries: Vec::new() };
        assert(r@ =~= Map::<Seq<char>, Seq<char>>::empty());
        r
    }

    /// Where `key` is held.
    fn find(&self, key: &String) -> (r: Option<usize>)
        requires
            self.wf(),
        ensures
            match r {
                Some(i) => i < self.entries@.len() && self.entries@[i as int].0@ == key@,
                None => !self@.contains_key(key@),
            },
    {
        let mut i: usize = 0;
        while i < self.entries.len()
            invariant
                i <= self.entries@.len(),
                forall|j: int| 0 <= j < i ==> self.entries@[j].0@ != key@,
            decreases self.entries@.len() - i,
        {
            if self.entries[i].0 == *key {
                return Some(i);
            }
            i = i + 1;
        }
        None
    }

    /// What the store holds under `key`, leaving it in place.
    pub fn peek(&self, key: &String) -> (r: Option<String>)
        requires
            self.wf(),
        ensures
            match r {
                Some(v) => self@.contains_key(key@) && v@ == self@[key@],
                None => !self@.contains_key(key@),
            },
    {
        match self.find(key) {
            Some(i) => {
                proof {
                    self.lemma_view_at(i as int);
                }
                Some(self.entries[i].1.clone())
            },
            None => None,
        }
    }
}

/// Takes the value held under `key` out of the store.
pub fn get_value(db: &mut Database, key: &String) -> (r: Option<String>)
    requires
        old(db).wf(),
    ensures
        final(db).wf(),
        final(db)@ == old(db)@.remove(key@),
        match r {
            Some(v) => old(db)@.contains_key(key@) && v@ == old(db)@[key@],
            None => !old(db)@.contains_key(key@),
        },
{
    match db.find(key) {
        None => {
            assert(db@ =~= db@.remove(key@));
            None
        },
        Some(i) => {
            proof {
                db.lemma_view_at(i as int);
            }
            let ghost before = db.entries@;
            let (_, v) = db.entries.remove(i);
            assert(db.entries@ == before.remove(i as int));
            assert(db.wf());
            assert forall|k: Seq<char>| #[trigger] db@.contains_key(k) <==> old(db)@.remove(key@).contains_key(k) by {
                if db@.contains_key(k) {
                    let j = choose|j: int| 0 <= j < db.entries@.len() && db.entries@[j].0@ == k;
                    if j < i {
                        assert(before[j].0@ == k);
                        assert(k != key@);
                    } else {
                        assert(before[j + 1].0@ == k);
                        assert(k != key@);
                    }
                }
                if old(db)@.remove(key@).contains_key(k) {
                    let j = choose|j: int| 0 <= j < before.len() && before[j].0@ == k;
                    assert(j != i);
                    if j < i {
                        assert(db.entries@[j].0@ == k);
                    } else {
                        assert(db.entries@[j - 1].0@ == k);
                    }
                }
            }
            assert forall|k: Seq<char>| #[trigger] db@.contains_key(k) implies db@[k] == old(db)@[k] by {
                let j = choose|j: int| 0 <= j < db.entries@.len() && db.entries@[j].0@ == k;
                db.lemma_view_at(j);
                if j < i {
                    old(db).lemma_view_at(j);
                } else {
                    old(db).lemma_view_at(j + 1);
                }
            }
            assert(db@ =~= old(db)@.remove(key@));
            Some(v)
        },
    }
}

/// Holds `value` under `key`, in place of what was there.
pub fn set_value(db: &mut Database, key: String, value: String)
    requires
        old(db).wf(),
    ensures
        final(db).wf(),
        final(db)@ == old(db)@.insert(key@, value@),
{
    let _ = get_value(db, &key);
    let ghost mid = db.entries@;
    let ghost mid_view = db@;
    db.entries.push((key, value));
    let n = db.entries.len() - 1;
    assert(db.entries@ == mid.push(db.entries@[n as int]));
    assert forall|j: int| 0 <= j < n implies db.entries@[j].0@ != key@ by {
        assert(db.entries@[j] == mid[j]);
        assert(!mid_view.contains_key(key@));
        assert(mid_view.contains_key(mid[j].0@));
    }
    assert(db.wf());
    proof {
        db.lemma_view_at(n as int);
    }
    assert forall|k: Seq<char>| #[trigger] db@.contains_key(k) <==> mid_view.insert(key@, value@).contains_key(k) by {
        if mid_view.contains_key(k) {
            let j = choose|j: int| 0 <= j < mid.len() && mid[j].0@ == k;
            assert(db.entries@[j].0@ == k);
        }
        if db@.contains_key(k) && k != key@ {
            let j = choose|j: int| 0 <= j < db.entries@.len() && db.entries@[j].0@ == k;
            assert(j < n);
            assert(mid[j].0@ == k);
        }
    }
    assert forall|k: Seq<char>| #[trigger] db@.contains_key(k) && k != key@ implies db@[k] == mid_view[k] by {
        let j = choose|j: int| 0 <= j < db.entries@.len() && db.entries@[j].0@ == k;
        assert(j < n);
        db.lemma_view_at(j);
        assert(mid[j] == db.entries@[j]);
    }
    assert(db@ =~= mid_view.insert(key@, value@));
    assert(mid_view.insert(key@, value@) =~= old(db)@.insert(key@, value@));
}

/// Appends `value` to what the store holds under `key` (nothing, where the
/// key is not there).
pub fn append_value(db: &mut Database, key: String, value: String)
    requires
        old(db).wf(),
    ensures
        final(db).wf(),
        final(db)@ == old(db)@.insert(key@, entry_or_empty(old(db)@, key@) + value@),
{
    let current = get_value(db, &key);
    let mut current = match current {
        Some(v) => v,
        None => String::new(),
    };
    current.append(value.as_str());
    set_value(db, key, current);
    assert(old(db)@.remove(key@).insert(key@, entry_or_empty(old(db)@, key@) + value@) =~= old(db)@.insert(key@, entry_or_empty(old(db)@, key@) + value@));
}

} // verus!
