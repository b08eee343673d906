//! Tables: a named collection of rows sharing one declared key attribute.
//!
//! A table's mathematical view is the map from each key value to the row
//! it identifies. The four row operations — put, get, update, delete —
//! carry contracts that state, over that map, exactly what the store
//! holds afterwards, and on exactly which inputs a request is rejected.

use vstd::prelude::*;

use crate::attr::AttrModel;
use crate::attr::AttrValue;
use crate::attr::scalar_copy;
use crate::attr::scalar_eq;
use crate::item::Item;
use crate::item::ItemModel;
use crate::item::item_model;
use crate::item::lemma_item_model_dom;
use crate::item::names_of;

verus! {

/// Why the store refused a request.
///
/// The in-memory model only ever reports `Validation`; `Connection`
/// stands for a transport failure and is reported by callers that carry
/// these operations over a network.
#[derive(Clone, Copy, Debug, PartialEq, Eq)]
pub enum StoreError {
    Validation,
    Connection,
}

/// A table's model: each key value maps to the one row it identifies.
pub type TableModel = Map<AttrModel, ItemModel>;

/// A named table whose rows are identified by the value of one
/// key attribute.
pub struct Table {
    pub name: String,
    pub key_attr: String,
    pub rows: Vec<Item>,
}

/// The map a row list stands for, keyed by each row's key-attribute value.
pub open spec fn rows_model(s: Seq<Item>, ka: Seq<char>) -> TableModel
    decreases s,
{
    if s.len() == 0 {
        Map::empty()
    } else {
        rows_model(s.subrange(0, s.len() - 1), ka).insert(s[s.len() - 1]@[ka], s[s.len() - 1]@)
    }
}

/// The set of key values a row list mentions.
pub open spec fn keys_of(s: Seq<Item>, ka: Seq<char>) -> Set<AttrModel> {
    Set::new(|k: AttrModel| exists|j: int| 0 <= j < s.len() && s[j]@[ka] == k)
}

/// A key is well formed for key attribute `ka` when it holds exactly
/// that one attribute, with a scalar value.
pub open spec fn key_ok(key: ItemModel, ka: Seq<char>) -> bool {
    key.dom() == set![ka] && key[ka].is_scalar()
}

/// An item may enter the table when it carries the key attribute with a
/// scalar value.
pub open spec fn item_ok(item: ItemModel, ka: Seq<char>) -> bool {
    item.contains_key(ka) && item[ka].is_scalar()
}

/// Put inserts or fully replaces the row whose key the item carries.
pub open spec fn put_spec(t: TableModel, item: ItemModel, ka: Seq<char>) -> TableModel {
    t.insert(item[ka], item)
}

/// Get returns the row at the key, or reports its absence.
pub open spec fn get_spec(t: TableModel, kv: AttrModel) -> Option<ItemModel> {
    if t.contains_key(kv) {
        Some(t[kv])
    } else {
        None
    }
}

/// Delete removes the row at the key; absent keys are left be.
pub open spec fn delete_spec(t: TableModel, kv: AttrModel) -> TableModel {
    t.remove(kv)
}

/// The row an update starts from: the stored row, or a fresh row
/// holding only the key.
pub open spec fn update_base(t: TableModel, kv: AttrModel, ka: Seq<char>) -> ItemModel {
    if t.contains_key(kv) {
        t[kv]
    } else {
        Map::empty().insert(ka, kv)
    }
}

/// Update replaces exactly the mentioned attributes of the row at the
/// key, creating the row if it was absent.
pub open spec fn update_spec(
    t: TableModel,
    kv: AttrModel,
    ka: Seq<char>,
    updates: ItemModel,
) -> TableModel {
    t.insert(kv, update_base(t, kv, ka).union_prefer_right(updates))
}

/// An update request is well formed when its key is, and it leaves the
/// key attribute alone.
pub open spec fn update_ok(key: ItemModel, updates: ItemModel, ka: Seq<char>) -> bool {
    key_ok(key, ka) && !updates.contains_key(ka)
}

/// The domain of a row list's map is exactly the set of key values it
/// mentions.
pub proof fn lemma_rows_model_dom(s: Seq<Item>, ka: Seq<char>)
    ensures
        rows_model(s, ka).dom() == keys_of(s, ka),
    decreases s.len(),
{
    if s.len() == 0 {
        assert(rows_model(s, ka).dom() =~= keys_of(s, ka));
    } else {
        let pre = s.subrange(0, s.len() - 1);
        lemma_rows_model_dom(pre, ka);
        assert forall|k: AttrModel| rows_model(s, ka).dom().contains(k) implies keys_of(
            s,
            ka,
        ).contains(k) by {
            if k == s[s.len() - 1]@[ka] {
                assert(0 <= s.len() - 1 < s.len() && s[s.len() - 1]@[ka] == k);
            } else {
                let j = choose|j: int| 0 <= j < pre.len() && pre[j]@[ka] == k;
                assert(s[j]@[ka] == k);
            }
        }
        assert forall|k: AttrModel| keys_of(s, ka).contains(k) implies rows_model(
            s,
            ka,
        ).dom().contains(k) by {
            let j = choose|j: int| 0 <= j < s.len() && s[j]@[ka] == k;
            if j < s.len() - 1 {
                assert(pre[j]@[ka] == k);
                assert(keys_of(pre, ka).contains(k));
            }
        }
        assert(rows_model(s, ka).dom() =~= keys_of(s, ka));
    }
}

/// A key value no row carries is outside the map.
pub proof fn lemma_rows_model_absent(s: Seq<Item>, ka: Seq<char>, kv: AttrModel)
    requires
        forall|j: int| 0 <= j < s.len() ==> s[j]@[ka] != kv,
    ensures
        !rows_model(s, ka).contains_key(kv),
{
    lemma_rows_model_dom(s, ka);
}

/// The row at position `i`, when no later row shares its key value,
/// decides the map's row at that key.
pub proof fn lemma_rows_model_at(s: Seq<Item>, ka: Seq<char>, i: int)
    requires
        0 <= i < s.len(),
        forall|j: int| i < j < s.len() ==> s[j]@[ka] != s[i]@[ka],
    ensures
        rows_model(s, ka).contains_key(s[i]@[ka]),
        rows_model(s, ka)[s[i]@[ka]] == s[i]@,
    decreases s.len(),
{
    let pre = s.subrange(0, s.len() - 1);
    if i < s.len() - 1 {
        assert(pre[i] == s[i]);
        lemma_rows_model_at(pre, ka, i);
    }
}

/// Removing the row at position `i` removes exactly its key from the map,
/// provided key values are pairwise distinct.
pub proof fn lemma_rows_model_remove(s: Seq<Item>, ka: Seq<char>, i: int)
    requires
        0 <= i < s.len(),
        forall|p: int, q: int| 0 <= p < q < s.len() ==> s[p]@[ka] != s[q]@[ka],
    ensures
        rows_model(s.remove(i), ka) == rows_model(s, ka).remove(s[i]@[ka]),
    decreases s.len(),
{
    let pre = s.subrange(0, s.len() - 1);
    let ki = s[i]@[ka];
    s.remove_ensures(i);
    if i == s.len() - 1 {
        assert(s.remove(i) =~= pre);
        assert forall|j: int| 0 <= j < pre.len() implies pre[j]@[ka] != ki by {
            assert(pre[j] == s[j]);
        }
        lemma_rows_model_absent(pre, ka, ki);
        assert(rows_model(pre, ka).insert(ki, s[i]@).remove(ki) =~= rows_model(pre, ka));
    } else {
        let s2 = s.remove(i);
        assert(s2.len() == s.len() - 1);
        assert(s2[s2.len() - 1] == s[s.len() - 1]);
        assert(s2.subrange(0, s2.len() - 1) =~= pre.remove(i)) by {
            pre.remove_ensures(i);
        }
        assert forall|p: int, q: int| 0 <= p < q < pre.len() implies pre[p]@[ka] != pre[q]@[ka] by {
            assert(pre[p] == s[p] && pre[q] == s[q]);
        }
        lemma_rows_model_remove(pre, ka, i);
        assert(pre[i] == s[i]);
        let klast = s[s.len() - 1]@[ka];
        let vlast = s[s.len() - 1]@;
        assert(ki != klast);
        assert(rows_model(pre, ka).remove(ki).insert(klast, vlast) =~= rows_model(
            pre,
            ka,
        ).insert(klast, vlast).remove(ki));
        assert(rows_model(s2, ka) == rows_model(pre.remove(i), ka).insert(klast, vlast));
    }
}

impl View for Table {
    type V = TableModel;

    open spec fn view(&self) -> TableModel {
        rows_model(self.rows@, self.key_attr@)
    }
}

impl Table {
    /// Every row carries the key attribute with a scalar value, and no
    /// two rows share a key value.
    pub open spec fn wf(self) -> bool {
        &&& forall|i: int|
            0 <= i < self.rows@.len() ==> item_ok(#[trigger] self.rows@[i]@, self.key_attr@)
        &&& forall|i: int, j: int|
            0 <= i < j < self.rows@.len() ==> self.rows@[i]@[self.key_attr@]
                != self.rows@[j]@[self.key_attr@]
    }

    /// An empty table with the given name and key attribute.
    pub fn new(name: String, key_attr: String) -> (r: Table)
        ensures
            r.wf(),
            r.name@ == name@,
            r.key_attr@ == key_attr@,
            r@ == Map::<AttrModel, ItemModel>::empty(),
    {
        Table { name, key_attr, rows: Vec::new() }
    }

    /// The position of the row carrying the key value, if any.
    fn find_row(&self, kv: &AttrValue) -> (r: Option<usize>)
        requires
            self.wf(),
            kv.deep().is_scalar(),
        ensures
            match r {
                Some(i) => i < self.rows@.len() && self.rows@[i as int]@[self.key_attr@]
                    == kv.deep() && self@.contains_key(kv.deep()) && self@[kv.deep()]
                    == self.rows@[i as int]@,
                None => !self@.contains_key(kv.deep()),
            },
    {
        let mut i: usize = 0;
        while i < self.rows.len()
            invariant
                self.wf(),
                kv.deep().is_scalar(),
                i <= self.rows@.len(),
                forall|j: int| 0 <= j < i ==> self.rows@[j]@[self.key_attr@] != kv.deep(),
            decreases self.rows@.len() - i,
        {
            match self.rows[i].get_attr(&self.key_attr) {
                Some(v) => {
                    if scalar_eq(v, kv) {
                        proof {
                            lemma_rows_model_at(self.rows@, self.key_attr@, i as int);
                        }
                        return Some(i);
                    }
                },
                None => {
                    proof {
                        assert(false);
                    }
                },
            }
            i += 1;
        }
        proof {
            lemma_rows_model_absent(self.rows@, self.key_attr@, kv.deep());
        }
        None
    }

    /// Inserts the item as a row, fully replacing any row sharing its
    /// key value. Rejected exactly when the item lacks the key
    /// attribute or holds a non-scalar value under it.
    pub fn put_item(&mut self, item: Item) -> (r: Result<(), StoreError>)
        requires
            old(self).wf(),
        ensures
            final(self).wf(),
            final(self).name == old(self).name,
            final(self).key_attr == old(self).key_attr,
            match r {
                Ok(()) => item_ok(item@, old(self).key_attr@) && final(self)@ == put_spec(
                    old(self)@,
                    item@,
                    old(self).key_attr@,
                ),
                Err(e) => e == StoreError::Validation && !item_ok(item@, old(self).key_attr@)
                    && *final(self) == *old(self),
            },
    {
        let ghost ka = self.key_attr@;
        let ghost t0 = self@;
        let ghost kv = item@[ka];
        let idx: Option<usize> = match item.get_attr(&self.key_attr) {
            Some(v) => {
                if v.is_scalar() {
                    self.find_row(v)
                } else {
                    return Err(StoreError::Validation);
                }
            },
            None => {
                return Err(StoreError::Validation);
            },
        };
        if let Some(i) = idx {
            let ghost rows0 = self.rows@;
            let _removed = self.rows.remove(i);
            proof {
                rows0.remove_ensures(i as int);
                lemma_rows_model_remove(rows0, ka, i as int);
                assert forall|p: int| 0 <= p < self.rows@.len() implies item_ok(
                    #[trigger] self.rows@[p]@,
                    ka,
                ) && self.rows@[p]@[ka] != kv by {
                    if p < i {
                        assert(self.rows@[p] == rows0[p]);
                    } else {
                        assert(self.rows@[p] == rows0[p + 1]);
                    }
                }
                assert forall|p: int, q: int| 0 <= p < q < self.rows@.len() implies self.rows@[p]@[ka]
                    != self.rows@[q]@[ka] by {
                    assert(self.rows@[p] == if p < i {
                        rows0[p]
                    } else {
                        rows0[p + 1]
                    });
                    assert(self.rows@[q] == if q < i {
                        rows0[q]
                    } else {
                        rows0[q + 1]
                    });
                }
                assert(self@ =~= t0.remove(kv));
            }
        } else {
            proof {
                lemma_rows_model_dom(self.rows@, ka);
                assert forall|p: int| 0 <= p < self.rows@.len() implies self.rows@[p]@[ka]
                    != kv by {
                    if self.rows@[p]@[ka] == kv {
                        assert(keys_of(self.rows@, ka).contains(kv));
                    }
                }
                assert(self@ =~= t0.remove(kv));
            }
        }
        let ghost rows1 = self.rows@;
        self.rows.push(item);
        proof {
            assert(self.rows@.subrange(0, self.rows@.len() - 1) =~= rows1);
            assert(self@ == rows_model(rows1, ka).insert(kv, item@));
            assert(self@ =~= t0.insert(kv, item@));
            assert forall|p: int| 0 <= p < self.rows@.len() implies item_ok(
                #[trigger] self.rows@[p]@,
                ka,
            ) by {
                if p < self.rows@.len() - 1 {
                    assert(self.rows@[p] == rows1[p]);
                }
            }
            assert forall|p: int, q: int| 0 <= p < q < self.rows@.len() implies self.rows@[p]@[ka]
                != self.rows@[q]@[ka] by {
                if q < self.rows@.len() - 1 {
                    assert(self.rows@[p] == rows1[p] && self.rows@[q] == rows1[q]);
                } else {
                    assert(self.rows@[p] == rows1[p]);
                }
            }
        }
        Ok(())
    }

    /// The row at the key, or its absence. Rejected exactly when the
    /// key is malformed: not the one key attribute, or non-scalar.
    pub fn get_item<'a>(&'a self, key: &Item) -> (r: Result<Option<&'a Item>, StoreError>)
        requires
            self.wf(),
        ensures
            match r {
                Ok(opt) => key_ok(key@, self.key_attr@) && match opt {
                    Some(it) => self@.contains_key(key@[self.key_attr@]) && it@ == self@[key@[self.key_attr@]],
                    None => !self@.contains_key(key@[self.key_attr@]),
                },
                Err(e) => e == StoreError::Validation && !key_ok(key@, self.key_attr@),
            },
    {
        let kv = match key.sole_attr(&self.key_attr) {
            Some(v) => {
                if v.is_scalar() {
                    v
                } else {
                    return Err(StoreError::Validation);
                }
            },
            None => {
                return Err(StoreError::Validation);
            },
        };
        match self.find_row(kv) {
            Some(i) => Ok(Some(&self.rows[i])),
            None => Ok(None),
        }
    }

    /// Removes the row at the key; an absent row is no error. Rejected
    /// exactly when the key is malformed.
    pub fn delete_item(&mut self, key: &Item) -> (r: Result<(), StoreError>)
        requires
            old(self).wf(),
        ensures
            final(self).wf(),
            final(self).name == old(self).name,
            final(self).key_attr == old(self).key_attr,
            match r {
                Ok(()) => key_ok(key@, old(self).key_attr@) && final(self)@ == delete_spec(
                    old(self)@,
                    key@[old(self).key_attr@],
                ),
                Err(e) => e == StoreError::Validation && !key_ok(key@, old(self).key_attr@)
                    && *final(self) == *old(self),
            },
    {
        let ghost ka = self.key_attr@;
        let ghost t0 = self@;
        let kv = match key.sole_attr(&self.key_attr) {
            Some(v) => {
                if v.is_scalar() {
                    v
                } else {
                    return Err(StoreError::Validation);
                }
            },
            None => {
                return Err(StoreError::Validation);
            },
        };
        match self.find_row(kv) {
            Some(i) => {
                let ghost rows0 = self.rows@;
                let _removed = self.rows.remove(i);
                proof {
                    rows0.remove_ensures(i as int);
                    lemma_rows_model_remove(rows0, ka, i as int);
                    assert forall|p: int| 0 <= p < self.rows@.len() implies item_ok(
                        #[trigger] self.rows@[p]@,
                        ka,
                    ) by {
                        if p < i {
                            assert(self.rows@[p] == rows0[p]);
                        } else {
                            assert(self.rows@[p] == rows0[p + 1]);
                        }
                    }
                    assert forall|p: int, q: int| 0 <= p < q < self.rows@.len() implies self.rows@[p]@[ka]
                        != self.rows@[q]@[ka] by {
                        assert(self.rows@[p] == if p < i {
                            rows0[p]
                        } else {
                            rows0[p + 1]
                        });
                        assert(self.rows@[q] == if q < i {
                            rows0[q]
                        } else {
                            rows0[q + 1]
                        });
                    }
                }
            },
            None => {
                proof {
                    assert(t0.remove(kv.deep()) =~= t0);
                }
            },
        }
        Ok(())
    }

    /// Replaces exactly the attributes the update mentions on the row at
    /// the key, leaving every other attribute untouched; an absent row
    /// is created from the key and the updates. Rejected exactly when
    /// the key is malformed or the update touches the key attribute.
    pub fn update_item(&mut self, key: &Item, updates: Item) -> (r: Result<(), StoreError>)
        requires
            old(self).wf(),
        ensures
            final(self).wf(),
            final(self).name == old(self).name,
            final(self).key_attr == old(self).key_attr,
            match r {
                Ok(()) => update_ok(key@, updates@, old(self).key_attr@) && final(self)@
                    == update_spec(
                    old(self)@,
                    key@[old(self).key_attr@],
                    old(self).key_attr@,
                    updates@,
                ),
                Err(e) => e == StoreError::Validation && !update_ok(
                    key@,
                    updates@,
                    old(self).key_attr@,
                ) && *final(self) == *old(self),
            },
    {
        let ghost ka = self.key_attr@;
        let ghost t0 = self@;
        let kv_ref = match key.sole_attr(&self.key_attr) {
            Some(v) => {
                if v.is_scalar() {
                    v
                } else {
                    return Err(StoreError::Validation);
                }
            },
            None => {
                return Err(StoreError::Validation);
            },
        };
        let ghost kv = key@[ka];
        // The update must leave the key attribute alone.
        let mut j: usize = 0;
        while j < updates.attrs.len()
            invariant
                *self == *old(self),
                self.wf(),
                j <= updates.attrs@.len(),
                forall|p: int| 0 <= p < j ==> updates.attrs@[p].name@ != self.key_attr@,
            decreases updates.attrs@.len() - j,
        {
            if updates.attrs[j].name == self.key_attr {
                proof {
                    lemma_item_model_dom(updates.attrs@);
                    assert(0 <= j < updates.attrs@.len() && updates.attrs@[j as int].name@
                        == self.key_attr@);
                    assert(names_of(updates.attrs@).contains(self.key_attr@));
                }
                return Err(StoreError::Validation);
            }
            j += 1;
        }
        proof {
            lemma_item_model_dom(updates.attrs@);
            if updates@.contains_key(ka) {
                let p = choose|p: int|
                    0 <= p < updates.attrs@.len() && updates.attrs@[p].name@ == ka;
                assert(false);
            }
        }
        // The row the update starts from: the stored one, or a fresh
        // row holding only the key.
        let mut row: Item;
        match self.find_row(kv_ref) {
            Some(i) => {
                let ghost rows0 = self.rows@;
                row = self.rows.remove(i);
                proof {
                    rows0.remove_ensures(i as int);
                    lemma_rows_model_remove(rows0, ka, i as int);
                    assert forall|p: int| 0 <= p < self.rows@.len() implies item_ok(
                        #[trigger] self.rows@[p]@,
                        ka,
                    ) && self.rows@[p]@[ka] != kv by {
                        if p < i {
                            assert(self.rows@[p] == rows0[p]);
                        } else {
                            assert(self.rows@[p] == rows0[p + 1]);
                        }
                    }
                    assert forall|p: int, q: int| 0 <= p < q < self.rows@.len() implies self.rows@[p]@[ka]
                        != self.rows@[q]@[ka] by {
                        assert(self.rows@[p] == if p < i {
                            rows0[p]
                        } else {
                            rows0[p + 1]
                        });
                        assert(self.rows@[q] == if q < i {
                            rows0[q]
                        } else {
                            rows0[q + 1]
                        });
                    }
                    assert(self@ =~= t0.remove(kv));
                    assert(row@ == update_base(t0, kv, ka));
                }
            },
            None => {
                row = Item::new();
                let kv_owned = scalar_copy(kv_ref);
                let ka_owned = self.key_attr.clone();
                row.set_attr(ka_owned, kv_owned);
                proof {
                    lemma_rows_model_dom(self.rows@, ka);
                    assert forall|p: int| 0 <= p < self.rows@.len() implies self.rows@[p]@[ka]
                        != kv by {
                        if self.rows@[p]@[ka] == kv {
                            assert(keys_of(self.rows@, ka).contains(kv));
                        }
                    }
                    assert(self@ =~= t0.remove(kv));
                    assert(row@ =~= update_base(t0, kv, ka));
                }
            },
        }
        // Apply the updates in order: each mentioned attribute is
        // replaced, every other one left untouched.
        let ghost base = row@;
        let ghost mid = *self;
        let ghost uattrs = updates.attrs@;
        let mut u = updates;
        let mut k: usize = 0;
        proof {
            assert(base.union_prefer_right(item_model(uattrs.subrange(0, 0))) =~= base);
        }
        while u.attrs.len() > 0
            invariant
                *self == mid,
                k <= uattrs.len(),
                uattrs.len() <= usize::MAX,
                u.attrs@ == uattrs.subrange(k as int, uattrs.len() as int),
                row@ == base.union_prefer_right(item_model(uattrs.subrange(0, k as int))),
            decreases u.attrs@.len(),
        {
            proof {
                assert(uattrs.subrange(k as int, uattrs.len() as int).len() == uattrs.len() - k);
                assert(k < uattrs.len());
            }
            let a = u.attrs.remove(0);
            proof {
                uattrs.subrange(k as int, uattrs.len() as int).remove_ensures(0);
                assert(a == uattrs[k as int]);
                assert(u.attrs@ =~= uattrs.subrange(k + 1, uattrs.len() as int));
            }
            let ghost row_before = row@;
            row.set_attr(a.name, a.value);
            proof {
                let pre_k = uattrs.subrange(0, k as int);
                let pre_k1 = uattrs.subrange(0, k + 1);
                assert(pre_k1.subrange(0, pre_k1.len() - 1) =~= pre_k);
                assert(item_model(pre_k1) == item_model(pre_k).insert(
                    uattrs[k as int].name@,
                    uattrs[k as int].value.deep(),
                ));
                assert(row@ =~= base.union_prefer_right(item_model(pre_k1)));
            }
            k += 1;
        }
        proof {
            assert(uattrs.subrange(0, uattrs.len() as int) =~= uattrs);
            assert(row@ == base.union_prefer_right(item_model(uattrs)));
        }
        // Store the updated row.
        let ghost rows1 = self.rows@;
        self.rows.push(row);
        proof {
            assert(self.rows@.subrange(0, self.rows@.len() - 1) =~= rows1);
            assert(self.rows@[self.rows@.len() - 1]@ == base.union_prefer_right(item_model(uattrs)));
            assert(!item_model(uattrs).contains_key(ka));
            assert(self.rows@[self.rows@.len() - 1]@[ka] == base[ka]);
            assert(base[ka] == kv && kv.is_scalar());
            assert(self@ == rows_model(rows1, ka).insert(kv, base.union_prefer_right(
                item_model(uattrs),
            )));
            assert(self@ =~= update_spec(t0, kv, ka, item_model(uattrs)));
            assert forall|p: int| 0 <= p < self.rows@.len() implies item_ok(
                #[trigger] self.rows@[p]@,
                ka,
            ) by {
                if p < self.rows@.len() - 1 {
                    assert(self.rows@[p] == rows1[p]);
                }
            }
            assert forall|p: int, q: int| 0 <= p < q < self.rows@.len() implies self.rows@[p]@[ka]
                != self.rows@[q]@[ka] by {
                if q < self.rows@.len() - 1 {
                    assert(self.rows@[p] == rows1[p] && self.rows@[q] == rows1[q]);
                } else {
                    assert(self.rows@[p] == rows1[p]);
                }
            }
        }
        Ok(())
    }
}

} // verus!
