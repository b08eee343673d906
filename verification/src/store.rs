//! The store: the named tables an endpoint serves, and the five
//! operations a client issues against them — list tables, put, get,
//! update and delete — each dispatched to the table the request names.

use vstd::prelude::*;

use crate::attr::AttrModel;
use crate::item::Item;
use crate::item::ItemModel;
use crate::table::StoreError;
use crate::table::Table;
use crate::table::TableModel;
use crate::table::delete_spec;
use crate::table::item_ok;
use crate::table::key_ok;
use crate::table::put_spec;
use crate::table::update_ok;
use crate::table::update_spec;

verus! {

/// The tables an endpoint serves.
pub struct Store {
    pub tables: Vec<Table>,
}

/// Whether some table in the list bears the name.
pub open spec fn has_table(s: Seq<Table>, n: Seq<char>) -> bool {
    exists|i: int| 0 <= i < s.len() && s[i].name@ == n
}

/// The position of the table bearing the name; meaningful only under
/// `has_table`.
pub open spec fn tindex(s: Seq<Table>, n: Seq<char>) -> int {
    choose|i: int| 0 <= i < s.len() && s[i].name@ == n
}

/// The key attribute the named table was declared with.
pub open spec fn tkey(s: Seq<Table>, n: Seq<char>) -> Seq<char> {
    s[tindex(s, n)].key_attr@
}

/// The model of the named table.
pub open spec fn tmodel(s: Seq<Table>, n: Seq<char>) -> TableModel {
    s[tindex(s, n)]@
}

impl Store {
    /// Every table is well formed and no two share a name.
    pub open spec fn wf(self) -> bool {
        &&& forall|i: int| 0 <= i < self.tables@.len() ==> (#[trigger] self.tables@[i]).wf()
        &&& forall|i: int, j: int|
            0 <= i < j < self.tables@.len() ==> self.tables@[i].name@ != self.tables@[j].name@
    }

    /// A store serving no tables.
    pub fn new() -> (r: Store)
        ensures
            r.wf(),
            r.tables@.len() == 0,
    {
        Store { tables: Vec::new() }
    }

    /// Declares a fresh empty table. Rejected exactly when the name is
    /// already taken.
    pub fn create_table(&mut self, name: String, key_attr: String) -> (r: Result<(), StoreError>)
        requires
            old(self).wf(),
        ensures
            final(self).wf(),
            match r {
                Ok(()) => {
                    &&& !has_table(old(self).tables@, name@)
                    &&& final(self).tables@.len() == old(self).tables@.len() + 1
                    &&& forall|j: int|
                        0 <= j < old(self).tables@.len() ==> final(self).tables@[j] == old(
                            self,
                        ).tables@[j]
                    &&& final(self).tables@.last().name@ == name@
                    &&& final(self).tables@.last().key_attr@ == key_attr@
                    &&& final(self).tables@.last()@ == Map::<AttrModel, ItemModel>::empty()
                },
                Err(e) => e == StoreError::Validation && has_table(old(self).tables@, name@)
                    && *final(self) == *old(self),
            },
    {
        if self.find_table(&name).is_some() {
            return Err(StoreError::Validation);
        }
        let t = Table::new(name, key_attr);
        self.tables.push(t);
        proof {
            assert forall|i: int, j: int|
                0 <= i < j < self.tables@.len() implies self.tables@[i].name@
                != self.tables@[j].name@ by {
                if j < self.tables@.len() - 1 {
                    assert(self.tables@[i] == old(self).tables@[i]);
                    assert(self.tables@[j] == old(self).tables@[j]);
                } else {
                    assert(self.tables@[i] == old(self).tables@[i]);
                    assert(!has_table(old(self).tables@, self.tables@[j].name@));
                }
            }
        }
        Ok(())
    }

    /// The position of the table bearing the name, if any.
    pub fn find_table(&self, name: &String) -> (r: Option<usize>)
        requires
            self.wf(),
        ensures
            match r {
                Some(i) => i < self.tables@.len() && self.tables@[i as int].name@ == name@
                    && has_table(self.tables@, name@) && tindex(self.tables@, name@) == i,
                None => !has_table(self.tables@, name@),
            },
    {
        let mut i: usize = 0;
        while i < self.tables.len()
            invariant
                self.wf(),
                i <= self.tables@.len(),
                forall|j: int| 0 <= j < i ==> self.tables@[j].name@ != name@,
            decreases self.tables@.len() - i,
        {
            if self.tables[i].name == *name {
                proof {
                    assert(has_table(self.tables@, name@));
                    let w = tindex(self.tables@, name@);
                    assert(0 <= w < self.tables@.len() && self.tables@[w].name@ == name@);
                    if w < i {
                        assert(false);
                    }
                    if w > i {
                        assert(self.tables@[i as int].name@ != self.tables@[w].name@);
                    }
                }
                return Some(i);
            }
            i += 1;
        }
        None
    }

    /// The names of the tables the store serves, in order.
    pub fn list_tables(&self) -> (r: Vec<String>)
        ensures
            r@.len() == self.tables@.len(),
            forall|i: int| 0 <= i < r@.len() ==> r@[i]@ == self.tables@[i].name@,
    {
        let mut names: Vec<String> = Vec::new();
        let mut i: usize = 0;
        while i < self.tables.len()
            invariant
                i <= self.tables@.len(),
                names@.len() == i,
                forall|j: int| 0 <= j < i ==> names@[j]@ == self.tables@[j].name@,
            decreases self.tables@.len() - i,
        {
            names.push(self.tables[i].name.clone());
            i += 1;
        }
        names
    }

    /// Put against the named table: inserts or fully replaces the row
    /// whose key the item carries. Rejected when the table is unknown
    /// or the item lacks a scalar key attribute.
    pub fn put_item(&mut self, table: &String, item: Item) -> (r: Result<(), StoreError>)
        requires
            old(self).wf(),
        ensures
            final(self).wf(),
            match r {
                Ok(()) => has_table(old(self).tables@, table@) && item_ok(
                    item@,
                    tkey(old(self).tables@, table@),
                ) && self_updated_at(
                    old(self).tables@,
                    final(self).tables@,
                    table@,
                    put_spec(tmodel(old(self).tables@, table@), item@, tkey(old(self).tables@, table@)),
                ),
                Err(e) => e == StoreError::Validation && final(self).tables@ == old(self).tables@
                    && !(has_table(old(self).tables@, table@) && item_ok(
                    item@,
                    tkey(old(self).tables@, table@),
                )),
            },
    {
        let i = match self.find_table(table) {
            Some(i) => i,
            None => {
                return Err(StoreError::Validation);
            },
        };
        let ghost before = self.tables@;
        let mut t = self.tables.remove(i);
        let res = t.put_item(item);
        self.tables.insert(i, t);
        proof {
            lemma_reinserted(before, self.tables@, i as int, t);
        }
        match res {
            Ok(()) => {
                proof {
                    lemma_wf_after_dispatch(before, self.tables@, i as int);
                }
                Ok(())
            },
            Err(e) => {
                proof {
                    assert(self.tables@ =~= before);
                }
                Err(e)
            },
        }
    }

    /// Get against the named table: the row at the key, or its absence.
    /// Rejected when the table is unknown or the key is malformed.
    pub fn get_item<'a>(&'a self, table: &String, key: &Item) -> (r: Result<
        Option<&'a Item>,
        StoreError,
    >)
        requires
            self.wf(),
        ensures
            match r {
                Ok(opt) => has_table(self.tables@, table@) && key_ok(
                    key@,
                    tkey(self.tables@, table@),
                ) && match opt {
                    Some(it) => tmodel(self.tables@, table@).contains_key(
                        key@[tkey(self.tables@, table@)],
                    ) && it@ == tmodel(self.tables@, table@)[key@[tkey(self.tables@, table@)]],
                    None => !tmodel(self.tables@, table@).contains_key(
                        key@[tkey(self.tables@, table@)],
                    ),
                },
                Err(e) => e == StoreError::Validation && !(has_table(self.tables@, table@)
                    && key_ok(key@, tkey(self.tables@, table@))),
            },
    {
        let i = match self.find_table(table) {
            Some(i) => i,
            None => {
                return Err(StoreError::Validation);
            },
        };
        self.tables[i].get_item(key)
    }

    /// Update against the named table: replaces exactly the mentioned
    /// attributes of the row at the key, creating the row if absent.
    /// Rejected when the table is unknown, the key is malformed, or the
    /// update touches the key attribute.
    pub fn update_item(&mut self, table: &String, key: &Item, updates: Item) -> (r: Result<
        (),
        StoreError,
    >)
        requires
            old(self).wf(),
        ensures
            final(self).wf(),
            match r {
                Ok(()) => has_table(old(self).tables@, table@) && update_ok(
                    key@,
                    updates@,
                    tkey(old(self).tables@, table@),
                ) && self_updated_at(
                    old(self).tables@,
                    final(self).tables@,
                    table@,
                    update_spec(
                        tmodel(old(self).tables@, table@),
                        key@[tkey(old(self).tables@, table@)],
                        tkey(old(self).tables@, table@),
                        updates@,
                    ),
                ),
                Err(e) => e == StoreError::Validation && final(self).tables@ == old(self).tables@
                    && !(has_table(old(self).tables@, table@) && update_ok(
                    key@,
                    updates@,
                    tkey(old(self).tables@, table@),
                )),
            },
    {
        let i = match self.find_table(table) {
            Some(i) => i,
            None => {
                return Err(StoreError::Validation);
            },
        };
        let ghost before = self.tables@;
        let mut t = self.tables.remove(i);
        let res = t.update_item(key, updates);
        self.tables.insert(i, t);
        proof {
            lemma_reinserted(before, self.tables@, i as int, t);
        }
        match res {
            Ok(()) => {
                proof {
                    lemma_wf_after_dispatch(before, self.tables@, i as int);
                }
                Ok(())
            },
            Err(e) => {
                proof {
                    assert(self.tables@ =~= before);
                }
                Err(e)
            },
        }
    }

    /// Delete against the named table: removes the row at the key; an
    /// absent row is no error. Rejected when the table is unknown or
    /// the key is malformed.
    pub fn delete_item(&mut self, table: &String, key: &Item) -> (r: Result<(), StoreError>)
        requires
            old(self).wf(),
        ensures
            final(self).wf(),
            match r {
                Ok(()) => has_table(old(self).tables@, table@) && key_ok(
                    key@,
                    tkey(old(self).tables@, table@),
                ) && self_updated_at(
                    old(self).tables@,
                    final(self).tables@,
                    table@,
                    delete_spec(
                        tmodel(old(self).tables@, table@),
                        key@[tkey(old(self).tables@, table@)],
                    ),
                ),
                Err(e) => e == StoreError::Validation && final(self).tables@ == old(self).tables@
                    && !(has_table(old(self).tables@, table@) && key_ok(
                    key@,
                    tkey(old(self).tables@, table@),
                )),
            },
    {
        let i = match self.find_table(table) {
            Some(i) => i,
            None => {
                return Err(StoreError::Validation);
            },
        };
        let ghost before = self.tables@;
        let mut t = self.tables.remove(i);
        let res = t.delete_item(key);
        self.tables.insert(i, t);
        proof {
            lemma_reinserted(before, self.tables@, i as int, t);
        }
        match res {
            Ok(()) => {
                proof {
                    lemma_wf_after_dispatch(before, self.tables@, i as int);
                }
                Ok(())
            },
            Err(e) => {
                proof {
                    assert(self.tables@ =~= before);
                }
                Err(e)
            },
        }
    }
}

/// One dispatch changed exactly the named table, and its model became
/// `m`; every other table was left untouched.
pub open spec fn self_updated_at(
    before: Seq<Table>,
    after: Seq<Table>,
    n: Seq<char>,
    m: TableModel,
) -> bool {
    &&& after.len() == before.len()
    &&& forall|j: int|
        0 <= j < before.len() && j != tindex(before, n) ==> after[j] == before[j]
    &&& after[tindex(before, n)].name@ == n
    &&& after[tindex(before, n)].key_attr@ == tkey(before, n)
    &&& after[tindex(before, n)]@ == m
}

/// Removing the table at `i` and reinserting `t` there yields the
/// original list with position `i` replaced by `t`.
proof fn lemma_reinserted(before: Seq<Table>, after: Seq<Table>, i: int, t: Table)
    requires
        0 <= i < before.len(),
        after == before.remove(i).insert(i, t),
    ensures
        after.len() == before.len(),
        after[i] == t,
        forall|j: int| 0 <= j < before.len() && j != i ==> after[j] == before[j],
{
    before.remove_ensures(i);
    assert forall|j: int| 0 <= j < before.len() && j != i implies after[j] == before[j] by {
        if j < i {
            assert(after[j] == before.remove(i)[j]);
        } else {
            assert(after[j] == before.remove(i)[j - 1]);
        }
    }
}

/// A dispatch that preserved the touched table's name and key attribute
/// and its own well-formedness keeps the store well formed.
proof fn lemma_wf_after_dispatch(before: Seq<Table>, after: Seq<Table>, i: int)
    requires
        0 <= i < before.len(),
        after.len() == before.len(),
        forall|j: int| 0 <= j < before.len() && j != i ==> after[j] == before[j],
        after[i].wf(),
        after[i].name@ == before[i].name@,
        forall|j: int| 0 <= j < before.len() ==> (#[trigger] before[j]).wf(),
        forall|p: int, q: int| 0 <= p < q < before.len() ==> before[p].name@ != before[q].name@,
    ensures
        forall|j: int| 0 <= j < after.len() ==> (#[trigger] after[j]).wf(),
        forall|p: int, q: int| 0 <= p < q < after.len() ==> after[p].name@ != after[q].name@,
{
    assert forall|p: int, q: int| 0 <= p < q < after.len() implies after[p].name@
        != after[q].name@ by {
        assert(after[p].name@ == before[p].name@);
        assert(after[q].name@ == before[q].name@);
    }
}

} // verus!
