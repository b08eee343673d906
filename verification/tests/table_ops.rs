use table_client::attr::AttrValue;
use table_client::item::Item;
use table_client::table::StoreError;
use table_client::table::Table;

fn s(v: &str) -> AttrValue {
    AttrValue::S(v.to_owned())
}

fn user_table() -> Table {
    Table::new("Users".to_owned(), "document".to_owned())
}

fn user_item(document: &str, name: &str, city: &str) -> Item {
    let mut it = Item::new();
    it.set_attr("document".to_owned(), s(document));
    it.set_attr("name".to_owned(), s(name));
    it.set_attr("city".to_owned(), s(city));
    it
}

fn doc_key(document: &str) -> Item {
    let mut k = Item::new();
    k.set_attr("document".to_owned(), s(document));
    k
}

#[test]
fn put_then_get_returns_the_item() {
    let mut t = user_table();
    let r = t.put_item(user_item("999999", "Joseph", "Sao Paulo"));
    assert_eq!(r, Ok(()));
    let got = t.get_item(&doc_key("999999")).unwrap().unwrap();
    assert_eq!(got.get_attr(&"document".to_owned()), Some(&s("999999")));
    assert_eq!(got.get_attr(&"name".to_owned()), Some(&s("Joseph")));
    assert_eq!(got.get_attr(&"city".to_owned()), Some(&s("Sao Paulo")));
}

#[test]
fn put_is_idempotent() {
    let mut t = user_table();
    assert_eq!(t.put_item(user_item("999999", "Joseph", "Sao Paulo")), Ok(()));
    assert_eq!(t.put_item(user_item("999999", "Joseph", "Sao Paulo")), Ok(()));
    let got = t.get_item(&doc_key("999999")).unwrap().unwrap();
    assert_eq!(got.get_attr(&"name".to_owned()), Some(&s("Joseph")));
    assert_eq!(t.rows.len(), 1);
}

#[test]
fn put_replaces_the_whole_row() {
    let mut t = user_table();
    t.put_item(user_item("111111", "Paolo", "Sao Paulo")).unwrap();
    let mut bare = Item::new();
    bare.set_attr("document".to_owned(), s("111111"));
    bare.set_attr("name".to_owned(), s("Paola"));
    t.put_item(bare).unwrap();
    let got = t.get_item(&doc_key("111111")).unwrap().unwrap();
    assert_eq!(got.get_attr(&"name".to_owned()), Some(&s("Paola")));
    // The old row is gone entirely: no city survives the replacement.
    assert_eq!(got.get_attr(&"city".to_owned()), None);
}

#[test]
fn get_on_a_key_never_inserted_is_absent_not_an_error() {
    let mut t = user_table();
    t.put_item(user_item("999999", "Joseph", "Sao Paulo")).unwrap();
    let got = t.get_item(&doc_key("123465"));
    assert_eq!(got, Ok(None));
}

#[test]
fn get_on_an_empty_table_is_absent() {
    let t = user_table();
    assert_eq!(t.get_item(&doc_key("999999")), Ok(None));
}

#[test]
fn delete_is_idempotent() {
    let mut t = user_table();
    t.put_item(user_item("123456", "Jane", "Rio de Janeiro")).unwrap();
    assert_eq!(t.delete_item(&doc_key("123456")), Ok(()));
    assert_eq!(t.get_item(&doc_key("123456")), Ok(None));
    // Deleting the same key again succeeds and changes nothing.
    assert_eq!(t.delete_item(&doc_key("123456")), Ok(()));
    assert_eq!(t.get_item(&doc_key("123456")), Ok(None));
}

#[test]
fn delete_leaves_other_rows_alone() {
    let mut t = user_table();
    t.put_item(user_item("123456", "Jane", "Rio de Janeiro")).unwrap();
    t.put_item(user_item("111111", "Paolo", "Sao Paulo")).unwrap();
    t.delete_item(&doc_key("123456")).unwrap();
    let got = t.get_item(&doc_key("111111")).unwrap().unwrap();
    assert_eq!(got.get_attr(&"name".to_owned()), Some(&s("Paolo")));
}

#[test]
fn update_changes_only_the_mentioned_attributes() {
    let mut t = user_table();
    t.put_item(user_item("999999", "Joseph", "Sao Paulo")).unwrap();
    let mut upd = Item::new();
    upd.set_attr("name".to_owned(), s("X"));
    assert_eq!(t.update_item(&doc_key("999999"), upd), Ok(()));
    let got = t.get_item(&doc_key("999999")).unwrap().unwrap();
    assert_eq!(got.get_attr(&"name".to_owned()), Some(&s("X")));
    // The city was not mentioned, so it is unchanged.
    assert_eq!(got.get_attr(&"city".to_owned()), Some(&s("Sao Paulo")));
    assert_eq!(got.get_attr(&"document".to_owned()), Some(&s("999999")));
}

#[test]
fn update_on_an_absent_row_creates_it() {
    let mut t = user_table();
    let mut upd = Item::new();
    upd.set_attr("name".to_owned(), s("Ana"));
    assert_eq!(t.update_item(&doc_key("777777"), upd), Ok(()));
    let got = t.get_item(&doc_key("777777")).unwrap().unwrap();
    assert_eq!(got.get_attr(&"document".to_owned()), Some(&s("777777")));
    assert_eq!(got.get_attr(&"name".to_owned()), Some(&s("Ana")));
    assert_eq!(got.get_attr(&"city".to_owned()), None);
}

#[test]
fn put_without_the_key_attribute_is_a_validation_error() {
    let mut t = user_table();
    let mut it = Item::new();
    it.set_attr("name".to_owned(), s("Joseph"));
    assert_eq!(t.put_item(it), Err(StoreError::Validation));
}

#[test]
fn put_with_a_non_scalar_key_value_is_a_validation_error() {
    let mut t = user_table();
    let mut it = Item::new();
    it.set_attr("document".to_owned(), AttrValue::Bool(true));
    assert_eq!(t.put_item(it), Err(StoreError::Validation));
}

#[test]
fn get_with_a_wrongly_named_key_is_a_validation_error() {
    let t = user_table();
    let mut k = Item::new();
    k.set_attr("code".to_owned(), s("999999"));
    assert_eq!(t.get_item(&k), Err(StoreError::Validation));
}

#[test]
fn get_with_an_extra_key_attribute_is_a_validation_error() {
    let mut t = user_table();
    t.put_item(user_item("999999", "Joseph", "Sao Paulo")).unwrap();
    let mut k = doc_key("999999");
    k.set_attr("name".to_owned(), s("Joseph"));
    assert_eq!(t.get_item(&k), Err(StoreError::Validation));
}

#[test]
fn get_with_an_empty_key_is_a_validation_error() {
    let t = user_table();
    assert_eq!(t.get_item(&Item::new()), Err(StoreError::Validation));
}

#[test]
fn delete_with_a_malformed_key_is_a_validation_error() {
    let mut t = user_table();
    let mut k = Item::new();
    k.set_attr("document".to_owned(), AttrValue::Null);
    assert_eq!(t.delete_item(&k), Err(StoreError::Validation));
}

#[test]
fn update_touching_the_key_attribute_is_a_validation_error() {
    let mut t = user_table();
    t.put_item(user_item("999999", "Joseph", "Sao Paulo")).unwrap();
    let mut upd = Item::new();
    upd.set_attr("document".to_owned(), s("888888"));
    assert_eq!(t.update_item(&doc_key("999999"), upd), Err(StoreError::Validation));
    // The row is untouched.
    let got = t.get_item(&doc_key("999999")).unwrap().unwrap();
    assert_eq!(got.get_attr(&"name".to_owned()), Some(&s("Joseph")));
}

#[test]
fn number_and_binary_keys_identify_rows() {
    let mut t = Table::new("Readings".to_owned(), "id".to_owned());
    let mut row = Item::new();
    row.set_attr("id".to_owned(), AttrValue::N("42".to_owned()));
    row.set_attr("value".to_owned(), s("high"));
    t.put_item(row).unwrap();
    let mut k = Item::new();
    k.set_attr("id".to_owned(), AttrValue::N("42".to_owned()));
    let got = t.get_item(&k).unwrap().unwrap();
    assert_eq!(got.get_attr(&"value".to_owned()), Some(&s("high")));
    // A string key with the same digits is a different key value.
    let mut ks = Item::new();
    ks.set_attr("id".to_owned(), s("42"));
    assert_eq!(t.get_item(&ks), Ok(None));

    let mut tb = Table::new("Blobs".to_owned(), "tag".to_owned());
    let mut rowb = Item::new();
    rowb.set_attr("tag".to_owned(), AttrValue::B(vec![1u8, 2, 3]));
    rowb.set_attr("value".to_owned(), s("bytes"));
    tb.put_item(rowb).unwrap();
    let mut kb = Item::new();
    kb.set_attr("tag".to_owned(), AttrValue::B(vec![1u8, 2, 3]));
    let gotb = tb.get_item(&kb).unwrap().unwrap();
    assert_eq!(gotb.get_attr(&"value".to_owned()), Some(&s("bytes")));
    let mut kb2 = Item::new();
    kb2.set_attr("tag".to_owned(), AttrValue::B(vec![1u8, 2, 4]));
    assert_eq!(tb.get_item(&kb2), Ok(None));
}

#[test]
fn setting_an_attribute_twice_keeps_the_later_value() {
    let mut it = Item::new();
    it.set_attr("name".to_owned(), s("first"));
    it.set_attr("name".to_owned(), s("second"));
    assert_eq!(it.get_attr(&"name".to_owned()), Some(&s("second")));
}
