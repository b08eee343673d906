//! The user-table requests: builders for the items, keys and updates a
//! client issues against a table of users keyed by document number.

use vstd::prelude::*;

use crate::attr::AttrModel;
use crate::attr::AttrValue;
use crate::item::Item;
use crate::item::ItemModel;

verus! {

/// The model of a user row built from the three fields.
pub open spec fn user_model(document: Seq<char>, name: Seq<char>, city: Seq<char>) -> ItemModel {
    Map::<Seq<char>, AttrModel>::empty().insert("document"@, AttrModel::S(document)).insert(
        "name"@,
        AttrModel::S(name),
    ).insert("city"@, AttrModel::S(city))
}

/// A full user row: document number, name and city, all strings.
pub fn user_item(document: String, name: String, city: String) -> (r: Item)
    ensures
        r@ == user_model(document@, name@, city@),
{
    let mut it = Item::new();
    it.set_attr("document".to_owned(), AttrValue::S(document));
    it.set_attr("name".to_owned(), AttrValue::S(name));
    it.set_attr("city".to_owned(), AttrValue::S(city));
    it
}

/// The key identifying one user row: the document number alone.
pub fn user_key(document: String) -> (r: Item)
    ensures
        r@ == Map::<Seq<char>, AttrModel>::empty().insert("document"@, AttrModel::S(document@)),
{
    let mut k = Item::new();
    k.set_attr("document".to_owned(), AttrValue::S(document));
    k
}

/// The update a client issues to rename and move one user: new name and
/// new city, leaving every other attribute untouched.
pub fn user_updates(name: String, city: String) -> (r: Item)
    ensures
        r@ == Map::<Seq<char>, AttrModel>::empty().insert("name"@, AttrModel::S(name@)).insert(
            "city"@,
            AttrModel::S(city@),
        ),
{
    let mut u = Item::new();
    u.set_attr("name".to_owned(), AttrValue::S(name));
    u.set_attr("city".to_owned(), AttrValue::S(city));
    u
}

} // verus!
