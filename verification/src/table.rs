//! Rows under generated identifiers: the store behind the in-memory providers.

use crate::text::decimal_string;
use crate::text::decimal_text;
use crate::text::lemma_decimal_text_injective;
use crate::text::str_eq;
use vstd::prelude::*;
use vstd::string::*;

verus! {

/// One row: the number it was made under, the decimal text of that number as its
/// identifier, and what it holds.
pub struct Row<T> {
    number: u32,
    id: String,
    value: T,
}

/// Rows with identifiers that are pairwise distinct, in the order in which they were added.
pub struct Table<T> {
    rows: Vec<Row<T>>,
    bound: u32,
}

impl<T> Table<T> {
    /// Each row's identifier is the decimal text of its number, and no number occurs twice.
    #[verifier::type_invariant]
    pub closed spec fn wf(self) -> bool {
        &&& forall|i: int|
            0 <= i < self.rows@.len() ==> (#[trigger] self.rows@[i]).id@ == decimal_text(
                self.rows@[i].number as nat,
            ) && self.rows@[i].number < self.bound
        &&& forall|i: int, j: int|
            0 <= i < j < self.rows@.len() ==> (#[trigger] self.rows@[i]).number
                != (#[trigger] self.rows@[j]).number
    }

    /// The identifiers of the rows, in order.
    pub closed spec fn ids(&self) -> Seq<Seq<char>> {
        Seq::new(self.rows@.len(), |i: int| self.rows@[i].id@)
    }

    /// What the rows hold, in order.
    pub closed spec fn values(&self) -> Seq<T> {
        Seq::new(self.rows@.len(), |i: int| self.rows@[i].value)
    }

    /// A number above the numbers of all rows.
    pub closed spec fn bound(&self) -> u32 {
        self.bound
    }

}

impl<T: View> Table<T> {
    /// The position of the row with the identifier `id`.
    pub open spec fn position(&self, id: Seq<char>) -> int {
        choose|i: int| 0 <= i < self.ids().len() && #[trigger] self.ids()[i] == id
    }

    /// The views of what the rows hold, by identifier.
    pub open spec fn map(&self) -> Map<Seq<char>, T::V> {
        Map::new(
            |id: Seq<char>| self.ids().contains(id),
            |id: Seq<char>| self.values()[self.position(id)]@,
        )
    }

    /// Identifiers and values run in parallel, and no identifier occurs twice.
    pub proof fn lemma_rows(self)
        requires
            self.wf(),
        ensures
            self.ids().len() == self.values().len(),
            self.ids().no_duplicates(),
            forall|i: int|
                0 <= i < self.ids().len() ==> self.position(#[trigger] self.ids()[i]) == i
                    && self.map().contains_key(self.ids()[i]) && self.map()[self.ids()[i]]
                    == self.values()[i]@,
    {
        assert forall|i: int, j: int|
            0 <= i < self.ids().len() && 0 <= j < self.ids().len() && i != j implies self.ids()[i]
            != self.ids()[j] by {
            if self.ids()[i] == self.ids()[j] {
                lemma_decimal_text_injective(
                    self.rows@[i].number as nat,
                    self.rows@[j].number as nat,
                );
            }
        }
    }
}

impl<T: View> Table<T> {
    /// The table without rows.
    pub fn new() -> (r: Table<T>)
        ensures
            r.ids().len() == 0,
            r.values().len() == 0,
            r.bound() == 0,
            r.map() == Map::<Seq<char>, T::V>::empty(),
    {
        Table { rows: Vec::new(), bound: 0 }
    }

    /// The number of rows.
    pub fn len(&self) -> (n: usize)
        ensures
            n == self.ids().len(),
            n == self.values().len(),
            self.wf(),
    {
        proof {
            use_type_invariant(self);
        }
        self.rows.len()
    }

    /// The identifier of the row at `i`.
    pub fn id_at(&self, i: usize) -> (id: &str)
        requires
            i < self.ids().len(),
        ensures
            id@ == self.ids()[i as int],
    {
        self.rows[i].id.as_str()
    }

    /// What the row at `i` holds.
    pub fn value_at(&self, i: usize) -> (value: &T)
        requires
            i < self.values().len(),
        ensures
            *value == self.values()[i as int],
            self.ids().len() == self.values().len(),
            self.map().contains_key(self.ids()[i as int]),
            self.map()[self.ids()[i as int]] == value@,
    {
        proof {
            use_type_invariant(self);
            self.lemma_rows();
        }
        &self.rows[i].value
    }

    /// Finds the row with the identifier `id`.
    pub fn find(&self, id: &str) -> (r: Option<usize>)
        ensures
            self.ids().len() == self.values().len(),
            match r {
                Some(i) => i < self.ids().len() && self.ids()[i as int] == id@
                    && self.map().contains_key(id@),
                None => !self.map().contains_key(id@),
            },
    {
        let mut i: usize = 0;
        while i < self.rows.len()
            invariant
                i <= self.rows.len(),
                forall|j: int| 0 <= j < i ==> self.ids()[j] != id@,
            decreases self.rows.len() - i,
        {
            if str_eq(self.rows[i].id.as_str(), id) {
                assert(self.ids()[i as int] == id@);
                return Some(i);
            }
            i = i + 1;
        }
        None
    }

    /// Puts `value` in place of what the row at `i` holds.
    pub fn replace(&mut self, i: usize, value: T)
        requires
            i < old(self).ids().len(),
        ensures
            final(self).ids() == old(self).ids(),
            final(self).bound() == old(self).bound(),
            final(self).values() == old(self).values().update(i as int, value),
            final(self).map() == old(self).map().insert(old(self).ids()[i as int], value@),
    {
        proof {
            use_type_invariant(&*self);
        }
        let ghost before = *self;
        let mut taken = Table { rows: Vec::new(), bound: 0 };
        core::mem::swap(self, &mut taken);
        let Table { rows: mut rows, bound } = taken;
        let row = rows.remove(i);
        rows.insert(i, Row { number: row.number, id: row.id, value });
        let after = Table { rows, bound };
        proof {
            assert(after.ids() =~= before.ids());
            after.lemma_rows();
        }
        *self = after;
    }

    /// Adds a row that holds `value` under the decimal text of `number`, which it returns.
    pub fn add(&mut self, number: u32, value: T) -> (id: String)
        requires
            old(self).bound() <= number < u32::MAX,
        ensures
            id@ == decimal_text(number as nat),
            final(self).bound() == number + 1,
            final(self).ids() == old(self).ids().push(id@),
            final(self).values() == old(self).values().push(value),
            !old(self).map().contains_key(id@),
            final(self).map() == old(self).map().insert(id@, value@),
    {
        proof {
            use_type_invariant(&*self);
            self.lemma_rows();
        }
        let ghost before = *self;
        let id = decimal_string(number as u64);
        let mut taken = Table { rows: Vec::new(), bound: 0 };
        core::mem::swap(self, &mut taken);
        let Table { rows: mut rows, bound: _ } = taken;
        rows.push(Row { number, id: id.clone(), value });
        let after = Table { rows, bound: number + 1 };
        proof {
            assert(after.ids() =~= before.ids().push(id@));
            assert(!before.ids().contains(id@)) by {
                if before.ids().contains(id@) {
                    let k = choose|k: int| 0 <= k < before.ids().len() && before.ids()[k] == id@;
                    lemma_decimal_text_injective(before.rows@[k].number as nat, number as nat);
                }
            }
            assert forall|key: Seq<char>| before.map().insert(id@, value@).contains_key(
                key,
            ) implies after.map().contains_key(key) by {
                if key == id@ {
                    assert(after.ids()[before.ids().len() as int] == key);
                } else {
                    let k = choose|k: int| 0 <= k < before.ids().len() && before.ids()[k] == key;
                    assert(after.ids()[k] == key);
                }
            }
        }
        *self = after;
        id
    }
}

} // verus!
