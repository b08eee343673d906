//! The store's laws: properties that hold of the table operations for
//! every table, key and item, proved once over the table model that the
//! operations' own contracts speak of.

use vstd::prelude::*;

use crate::attr::AttrModel;
use crate::item::ItemModel;
use crate::table::TableModel;
use crate::table::delete_spec;
use crate::table::get_spec;
use crate::table::item_ok;
use crate::table::put_spec;
use crate::table::update_spec;

verus! {

/// Round trip: putting an item that carries a valid key and then getting
/// that key returns exactly the item.
pub proof fn lemma_put_then_get(t: TableModel, item: ItemModel, ka: Seq<char>)
    requires
        item_ok(item, ka),
    ensures
        get_spec(put_spec(t, item, ka), item[ka]) == Some(item),
{
}

/// Putting the same item twice yields the same stored state as putting
/// it once.
pub proof fn lemma_put_idempotent(t: TableModel, item: ItemModel, ka: Seq<char>)
    ensures
        put_spec(put_spec(t, item, ka), item, ka) == put_spec(t, item, ka),
{
    assert(put_spec(put_spec(t, item, ka), item, ka) =~= put_spec(t, item, ka));
}

/// A put fully replaces the row at its key and touches no other row.
pub proof fn lemma_put_touches_one_row(
    t: TableModel,
    item: ItemModel,
    ka: Seq<char>,
    kv: AttrModel,
)
    requires
        kv != item[ka],
    ensures
        get_spec(put_spec(t, item, ka), kv) == get_spec(t, kv),
{
}

/// Deleting a key is idempotent: deleting it a second time leaves
/// exactly the table the first delete left, with the row absent.
pub proof fn lemma_delete_idempotent(t: TableModel, kv: AttrModel)
    ensures
        delete_spec(delete_spec(t, kv), kv) == delete_spec(t, kv),
        get_spec(delete_spec(t, kv), kv) is None,
{
    assert(delete_spec(delete_spec(t, kv), kv) =~= delete_spec(t, kv));
}

/// A key never inserted is reported absent, not an error: the lookup
/// returns no row at all.
pub proof fn lemma_get_absent(t: TableModel, kv: AttrModel)
    requires
        !t.contains_key(kv),
    ensures
        get_spec(t, kv) is None,
{
}

/// An update on a stored row replaces exactly the attributes it
/// mentions: a mentioned attribute takes its new value, every other
/// attribute keeps its old value or stays absent, and no other row of
/// the table changes.
pub proof fn lemma_update_touches_only_mentioned(
    t: TableModel,
    kv: AttrModel,
    ka: Seq<char>,
    updates: ItemModel,
    attr: Seq<char>,
    other: AttrModel,
)
    requires
        t.contains_key(kv),
        other != kv,
    ensures
        update_spec(t, kv, ka, updates).contains_key(kv),
        updates.contains_key(attr) ==> update_spec(t, kv, ka, updates)[kv][attr] == updates[attr],
        !updates.contains_key(attr) && t[kv].contains_key(attr) ==> update_spec(
            t,
            kv,
            ka,
            updates,
        )[kv][attr] == t[kv][attr],
        !updates.contains_key(attr) && !t[kv].contains_key(attr) ==> !update_spec(
            t,
            kv,
            ka,
            updates,
        )[kv].contains_key(attr),
        get_spec(update_spec(t, kv, ka, updates), other) == get_spec(t, other),
{
}

} // verus!
