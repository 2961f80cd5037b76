//! A map from texts to values, kept as a list of rows.

use vstd::prelude::*;

use crate::text;

verus! {

/// Whether row `i` is the row of `key`.
pub open spec fn is_row_of<T>(rows: Seq<(Seq<char>, T)>, key: Seq<char>, i: int) -> bool {
    0 <= i < rows.len() && rows[i].0 == key
}

/// Whether `key` has a row.
pub open spec fn has_row<T>(rows: Seq<(Seq<char>, T)>, key: Seq<char>) -> bool {
    exists|i: int| is_row_of(rows, key, i)
}

/// Whether no two rows have the same key.
pub open spec fn distinct_keys<T>(rows: Seq<(Seq<char>, T)>) -> bool {
    forall|i: int, j: int| 0 <= i < j < rows.len() ==> rows[i].0 != rows[j].0
}

/// The map that a list of rows is.
pub open spec fn rows_map<T>(rows: Seq<(Seq<char>, T)>) -> Map<Seq<char>, T> {
    Map::new(
        |key: Seq<char>| has_row(rows, key),
        |key: Seq<char>| rows[choose|i: int| is_row_of(rows, key, i)].1,
    )
}

/// The map has what each row says.
pub proof fn lemma_row<T>(rows: Seq<(Seq<char>, T)>, i: int)
    requires
        distinct_keys(rows),
        0 <= i < rows.len(),
    ensures
        rows_map(rows).contains_key(rows[i].0),
        rows_map(rows)[rows[i].0] == rows[i].1,
{
    let key = rows[i].0;
    assert(is_row_of(rows, key, i));
    let j = choose|j: int| is_row_of(rows, key, j);
    assert(is_row_of(rows, key, j));
}

proof fn lemma_push_row<T>(rows: Seq<(Seq<char>, T)>, key: Seq<char>, value: T)
    requires
        distinct_keys(rows),
        !has_row(rows, key),
    ensures
        distinct_keys(rows.push((key, value))),
        rows_map(rows.push((key, value))) == rows_map(rows).insert(key, value),
{
    let more = rows.push((key, value));
    assert forall|i: int| 0 <= i < rows.len() implies rows[i].0 != key by {
        if rows[i].0 == key {
            assert(is_row_of(rows, key, i));
        }
    }
    assert(distinct_keys(more));
    lemma_row(more, rows.len() as int);
    assert forall|k: Seq<char>| rows_map(more).contains_key(k) == rows_map(rows).insert(
        key,
        value,
    ).contains_key(k) by {
        if has_row(rows, k) {
            let i = choose|i: int| is_row_of(rows, k, i);
            assert(is_row_of(more, k, i));
        }
        if has_row(more, k) {
            let i = choose|i: int| is_row_of(more, k, i);
            if i < rows.len() {
                assert(is_row_of(rows, k, i));
            }
        }
    }
    assert forall|k: Seq<char>| rows_map(more).contains_key(k) implies rows_map(more)[k]
        == rows_map(rows).insert(key, value)[k] by {
        let i = choose|i: int| is_row_of(more, k, i);
        lemma_row(more, i);
        if i < rows.len() {
            lemma_row(rows, i);
        }
    }
    assert(rows_map(more) =~= rows_map(rows).insert(key, value));
}

proof fn lemma_remove_row<T>(rows: Seq<(Seq<char>, T)>, at: int)
    requires
        distinct_keys(rows),
        0 <= at < rows.len(),
    ensures
        distinct_keys(rows.remove(at)),
        rows_map(rows.remove(at)) == rows_map(rows).remove(rows[at].0),
{
    let less = rows.remove(at);
    let key = rows[at].0;
    assert forall|i: int| 0 <= i < less.len() implies less[i] == rows[if i < at {
        i
    } else {
        i + 1
    }] by {}
    assert(distinct_keys(less));
    assert forall|k: Seq<char>| rows_map(less).contains_key(k) == rows_map(rows).remove(
        key,
    ).contains_key(k) by {
        if has_row(rows, k) && k != key {
            let i = choose|i: int| is_row_of(rows, k, i);
            let j = if i < at {
                i
            } else {
                i - 1
            };
            assert(is_row_of(less, k, j));
        }
        if has_row(less, k) {
            let i = choose|i: int| is_row_of(less, k, i);
            let j = if i < at {
                i
            } else {
                i + 1
            };
            assert(is_row_of(rows, k, j));
        }
    }
    assert forall|k: Seq<char>| rows_map(less).contains_key(k) implies rows_map(less)[k]
        == rows_map(rows).remove(key)[k] by {
        let i = choose|i: int| is_row_of(less, k, i);
        lemma_row(less, i);
        lemma_row(
            rows,
            if i < at {
                i
            } else {
                i + 1
            },
        );
    }
    assert(rows_map(less) =~= rows_map(rows).remove(key));
}

/// A map from texts to values. No key has more than one row.
pub struct Table<T> {
    entries: Vec<(String, T)>,
}

impl<T> View for Table<T> {
    type V = Map<Seq<char>, T>;

    open spec fn view(&self) -> Map<Seq<char>, T> {
        rows_map(self.rows())
    }
}

impl<T> Table<T> {
    /// The rows, in the order in which they are listed.
    pub closed spec fn rows(&self) -> Seq<(Seq<char>, T)> {
        rows_of(self.entries@)
    }

    #[verifier::type_invariant]
    spec fn keys_differ(self) -> bool {
        distinct_keys(self.rows())
    }

    /// The map without keys.
    pub fn new() -> (r: Self)
        ensures
            r@ == Map::<Seq<char>, T>::empty(),
    {
        let entries: Vec<(String, T)> = Vec::new();
        let r = Table { entries };
        proof {
            assert(r@ =~= Map::<Seq<char>, T>::empty());
        }
        r
    }

    /// How many keys there are.
    pub fn len(&self) -> (r: usize)
        ensures
            r == self.rows().len(),
            distinct_keys(self.rows()),
    {
        proof {
            use_type_invariant(self);
        }
        self.entries.len()
    }

    /// The key and the value of row `i`.
    pub fn row(&self, i: usize) -> (r: (&String, &T))
        requires
            i < self.rows().len(),
        ensures
            r.0@ == self.rows()[i as int].0,
            *r.1 == self.rows()[i as int].1,
    {
        let e = &self.entries[i];
        (&e.0, &e.1)
    }

    /// The row of `key`.
    fn find(&self, key: &str) -> (r: Option<usize>)
        ensures
            match r {
                Some(i) => is_row_of(self.rows(), key@, i as int),
                None => !has_row(self.rows(), key@),
            },
    {
        let n: usize = self.entries.len();
        let mut i: usize = 0;
        while i < n
            invariant
                n == self.entries@.len(),
                i <= n,
                forall|j: int| 0 <= j < i ==> !is_row_of(self.rows(), key@, j),
            decreases n - i,
        {
            if text::same_text(self.entries[i].0.as_str(), key) {
                return Some(i);
            }
            i = i + 1;
        }
        None
    }

    /// Whether `key` has a value.
    pub fn contains_key(&self, key: &str) -> (r: bool)
        ensures
            r == self@.contains_key(key@),
    {
        self.find(key).is_some()
    }

    /// The value of `key`.
    pub fn get(&self, key: &str) -> (r: Option<&T>)
        ensures
            match r {
                Some(v) => self@.contains_key(key@) && *v == self@[key@],
                None => !self@.contains_key(key@),
            },
    {
        match self.find(key) {
            Some(i) => {
                proof {
                    use_type_invariant(self);
                    lemma_row(self.rows(), i as int);
                }
                Some(&self.entries[i].1)
            },
            None => None,
        }
    }

    /// Takes `key` and its value out.
    pub fn remove(&mut self, key: &str) -> (r: Option<T>)
        ensures
            final(self)@ == old(self)@.remove(key@),
            match r {
                Some(v) => old(self)@.contains_key(key@) && v == old(self)@[key@],
                None => !old(self)@.contains_key(key@),
            },
    {
        match self.find(key) {
            Some(i) => {
                proof {
                    use_type_invariant(&*self);
                    lemma_row(self.rows(), i as int);
                }
                Some(self.remove_row(i))
            },
            None => {
                proof {
                    assert(self@.remove(key@) =~= self@);
                }
                None
            },
        }
    }

    /// Takes row `i` out.
    pub fn remove_row(&mut self, i: usize) -> (r: T)
        requires
            i < old(self).rows().len(),
        ensures
            final(self).rows() == old(self).rows().remove(i as int),
            final(self)@ == old(self)@.remove(old(self).rows()[i as int].0),
            r == old(self).rows()[i as int].1,
            distinct_keys(old(self).rows()),
    {
        proof {
            use_type_invariant(&*self);
        }
        let ghost rows = self.rows();
        let mut entries: Vec<(String, T)> = Vec::new();
        proof {
            assert(rows_of(entries@) =~= Seq::empty());
        }
        std::mem::swap(&mut entries, &mut self.entries);
        let (_, value) = entries.remove(i);
        proof {
            lemma_remove_row(rows, i as int);
            assert(rows_of(entries@) =~= rows.remove(i as int));
        }
        self.entries = entries;
        value
    }

    /// Gives `key` the value, in place of the one that it has.
    pub fn insert(&mut self, key: &str, value: T)
        ensures
            final(self)@ == old(self)@.insert(key@, value),
    {
        self.remove(key);
        proof {
            use_type_invariant(&*self);
        }
        let ghost rows = self.rows();
        let mut entries: Vec<(String, T)> = Vec::new();
        proof {
            assert(rows_of(entries@) =~= Seq::empty());
            assert(!has_row(rows, key@)) by {
                assert(!self@.contains_key(key@));
            }
            lemma_push_row(rows, key@, value);
        }
        std::mem::swap(&mut entries, &mut self.entries);
        entries.push((key.to_owned(), value));
        proof {
            assert(rows_of(entries@) =~= rows.push((key@, value)));
        }
        self.entries = entries;
        proof {
            assert(old(self)@.remove(key@).insert(key@, value) =~= old(self)@.insert(key@, value));
        }
    }

    /// All keys, each once.
    pub fn keys(&self) -> (r: Vec<String>)
        ensures
            r@.map_values(|k: String| k@).no_duplicates(),
            forall|k: Seq<char>|
                r@.map_values(|s: String| s@).contains(k) <==> self@.contains_key(k),
    {
        proof {
            use_type_invariant(self);
        }
        let n: usize = self.entries.len();
        let mut r: Vec<String> = Vec::new();
        let mut i: usize = 0;
        while i < n
            invariant
                n == self.entries@.len(),
                i <= n,
                r@.len() == i,
                forall|j: int| 0 <= j < i ==> r@[j]@ == self.rows()[j].0,
            decreases n - i,
        {
            r.push(self.entries[i].0.clone());
            i = i + 1;
        }
        proof {
            let views = r@.map_values(|k: String| k@);
            assert forall|k: Seq<char>| views.contains(k) <==> self@.contains_key(k) by {
                if views.contains(k) {
                    let j = views.index_of(k);
                    assert(is_row_of(self.rows(), k, j));
                }
                if has_row(self.rows(), k) {
                    let j = choose|j: int| is_row_of(self.rows(), k, j);
                    assert(views[j] == k);
                }
            }
        }
        r
    }
}

/// The rows that a list of entries is.
spec fn rows_of<T>(entries: Seq<(String, T)>) -> Seq<(Seq<char>, T)> {
    entries.map_values(|e: (String, T)| (e.0@, e.1))
}

} // verus!
