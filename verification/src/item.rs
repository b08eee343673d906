//! Items: one row's attribute set, a mapping from attribute name to value.
//!
//! An item is kept as a list of named attributes; its mathematical view is
//! the map from each name to the value it last received, so setting an
//! attribute is exactly a map insertion.

use vstd::prelude::*;

use crate::attr::AttrModel;
use crate::attr::AttrValue;

verus! {

/// One named attribute of an item.
#[derive(Debug, PartialEq, Eq)]
pub struct Attr {
    pub name: String,
    pub value: AttrValue,
}

/// A mapping from attribute name to attribute value: the model of an item.
pub type ItemModel = Map<Seq<char>, AttrModel>;

/// One row's full attribute set.
#[derive(Debug, PartialEq, Eq)]
pub struct Item {
    pub attrs: Vec<Attr>,
}

/// The map an attribute list stands for; a later entry with the same
/// name wins.
pub open spec fn item_model(s: Seq<Attr>) -> ItemModel
    decreases s,
{
    if s.len() == 0 {
        Map::empty()
    } else {
        item_model(s.subrange(0, s.len() - 1)).insert(
            s[s.len() - 1].name@,
            s[s.len() - 1].value.deep(),
        )
    }
}

/// The set of attribute names an attribute list mentions.
pub open spec fn names_of(s: Seq<Attr>) -> Set<Seq<char>> {
    Set::new(|n: Seq<char>| exists|j: int| 0 <= j < s.len() && s[j].name@ == n)
}

impl View for Item {
    type V = ItemModel;

    open spec fn view(&self) -> ItemModel {
        item_model(self.attrs@)
    }
}

/// The domain of an attribute list's map is exactly the set of names it
/// mentions.
pub proof fn lemma_item_model_dom(s: Seq<Attr>)
    ensures
        item_model(s).dom() == names_of(s),
    decreases s.len(),
{
    if s.len() == 0 {
        assert(item_model(s).dom() =~= names_of(s));
    } else {
        let pre = s.subrange(0, s.len() - 1);
        lemma_item_model_dom(pre);
        assert forall|n: Seq<char>| item_model(s).dom().contains(n) implies names_of(
            s,
        ).contains(n) by {
            if n == s[s.len() - 1].name@ {
                assert(0 <= s.len() - 1 < s.len() && s[s.len() - 1].name@ == n);
            } else {
                let j = choose|j: int| 0 <= j < pre.len() && pre[j].name@ == n;
                assert(s[j].name@ == n);
            }
        }
        assert forall|n: Seq<char>| names_of(s).contains(n) implies item_model(
            s,
        ).dom().contains(n) by {
            let j = choose|j: int| 0 <= j < s.len() && s[j].name@ == n;
            if j < s.len() - 1 {
                assert(pre[j].name@ == n);
                assert(names_of(pre).contains(n));
            }
        }
        assert(item_model(s).dom() =~= names_of(s));
    }
}

/// A name the list never mentions is outside the map.
pub proof fn lemma_item_model_absent(s: Seq<Attr>, n: Seq<char>)
    requires
        forall|j: int| 0 <= j < s.len() ==> s[j].name@ != n,
    ensures
        !item_model(s).contains_key(n),
{
    lemma_item_model_dom(s);
}

/// The entry at position `i`, when no later entry shares its name,
/// decides the map's value at that name.
pub proof fn lemma_item_model_at(s: Seq<Attr>, i: int)
    requires
        0 <= i < s.len(),
        forall|j: int| i < j < s.len() ==> s[j].name@ != s[i].name@,
    ensures
        item_model(s).contains_key(s[i].name@),
        item_model(s)[s[i].name@] == s[i].value.deep(),
    decreases s.len(),
{
    let pre = s.subrange(0, s.len() - 1);
    if i < s.len() - 1 {
        assert(pre[i] == s[i]);
        lemma_item_model_at(pre, i);
    }
}

impl Item {
    /// An item with no attributes.
    pub fn new() -> (r: Item)
        ensures
            r@ == Map::<Seq<char>, AttrModel>::empty(),
    {
        Item { attrs: Vec::new() }
    }

    /// Sets `name` to `value`, replacing any value it had.
    pub fn set_attr(&mut self, name: String, value: AttrValue)
        ensures
            final(self)@ == old(self)@.insert(name@, value.deep()),
    {
        let ghost before = self.attrs@;
        let ghost n = name@;
        let ghost d = value.deep();
        self.attrs.push(Attr { name, value });
        proof {
            assert(self.attrs@.subrange(0, self.attrs@.len() - 1) =~= before);
            assert(self@ == old(self)@.insert(n, d));
        }
    }

    /// The value stored under `name`, if any.
    pub fn get_attr(&self, name: &String) -> (r: Option<&AttrValue>)
        ensures
            match r {
                Some(v) => self@.contains_key(name@) && v.deep() == self@[name@],
                None => !self@.contains_key(name@),
            },
    {
        let mut i: usize = self.attrs.len();
        while i > 0
            invariant
                i <= self.attrs@.len(),
                forall|j: int| i <= j < self.attrs@.len() ==> self.attrs@[j].name@ != name@,
            decreases i,
        {
            i = i - 1;
            if self.attrs[i].name == *name {
                proof {
                    lemma_item_model_at(self.attrs@, i as int);
                }
                return Some(&self.attrs[i].value);
            }
        }
        proof {
            lemma_item_model_absent(self.attrs@, name@);
        }
        None
    }

    /// When every attribute of the item is named `name`, returns the
    /// item's value under it; otherwise reports that the item does not
    /// consist of that one name.
    pub fn sole_attr(&self, name: &String) -> (r: Option<&AttrValue>)
        ensures
            match r {
                Some(v) => self@.dom() == set![name@] && v.deep() == self@[name@],
                None => self@.dom() != set![name@],
            },
    {
        if self.attrs.len() == 0 {
            proof {
                lemma_item_model_dom(self.attrs@);
                assert(set![name@].contains(name@));
                assert(!names_of(self.attrs@).contains(name@));
            }
            return None;
        }
        let mut i: usize = 0;
        while i < self.attrs.len()
            invariant
                i <= self.attrs@.len(),
                forall|j: int| 0 <= j < i ==> self.attrs@[j].name@ == name@,
            decreases self.attrs@.len() - i,
        {
            if !(self.attrs[i].name == *name) {
                proof {
                    lemma_item_model_dom(self.attrs@);
                    assert(names_of(self.attrs@).contains(self.attrs@[i as int].name@));
                    assert(!set![name@].contains(self.attrs@[i as int].name@));
                }
                return None;
            }
            i += 1;
        }
        proof {
            lemma_item_model_dom(self.attrs@);
            lemma_item_model_at(self.attrs@, self.attrs@.len() - 1);
            assert forall|n: Seq<char>| names_of(self.attrs@).contains(n) implies set![
                name@,
            ].contains(n) by {
                let j = choose|j: int| 0 <= j < self.attrs@.len() && self.attrs@[j].name@ == n;
                assert(n == name@);
            }
            assert(names_of(self.attrs@).contains(name@));
            assert(item_model(self.attrs@).dom() =~= set![name@]);
        }
        Some(&self.attrs[self.attrs.len() - 1].value)
    }
}

} // verus!
