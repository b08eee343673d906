use table_client::attr::AttrValue;
use table_client::item::Item;
use table_client::store::Store;
use table_client::table::StoreError;
use table_client::users::user_item;
use table_client::users::user_key;
use table_client::users::user_updates;

fn s(v: &str) -> AttrValue {
    AttrValue::S(v.to_owned())
}

fn users_store() -> Store {
    let mut st = Store::new();
    st.create_table("Users".to_owned(), "document".to_owned()).unwrap();
    st
}

#[test]
fn list_tables_names_every_table_in_order() {
    let mut st = Store::new();
    assert_eq!(st.list_tables(), Vec::<String>::new());
    st.create_table("Users".to_owned(), "document".to_owned()).unwrap();
    st.create_table("Orders".to_owned(), "id".to_owned()).unwrap();
    assert_eq!(st.list_tables(), vec!["Users".to_owned(), "Orders".to_owned()]);
}

#[test]
fn creating_a_table_under_a_taken_name_is_rejected() {
    let mut st = users_store();
    assert_eq!(
        st.create_table("Users".to_owned(), "id".to_owned()),
        Err(StoreError::Validation)
    );
    assert_eq!(st.list_tables(), vec!["Users".to_owned()]);
}

#[test]
fn operations_against_an_unknown_table_are_rejected() {
    let mut st = users_store();
    let table = "People".to_owned();
    assert_eq!(
        st.put_item(&table, user_item("1".to_owned(), "A".to_owned(), "B".to_owned())),
        Err(StoreError::Validation)
    );
    assert_eq!(st.get_item(&table, &user_key("1".to_owned())), Err(StoreError::Validation));
    assert_eq!(
        st.update_item(&table, &user_key("1".to_owned()), user_updates("A".to_owned(), "B".to_owned())),
        Err(StoreError::Validation)
    );
    assert_eq!(st.delete_item(&table, &user_key("1".to_owned())), Err(StoreError::Validation));
}

#[test]
fn insert_update_get_returns_the_updated_row() {
    // Insert a user, rename and move them, then read the row back:
    // the two mentioned attributes changed, the document did not.
    let mut st = users_store();
    let table = "Users".to_owned();
    st.put_item(
        &table,
        user_item("999999".to_owned(), "Joseph".to_owned(), "Sao Paulo".to_owned()),
    )
    .unwrap();
    st.update_item(
        &table,
        &user_key("999999".to_owned()),
        user_updates("Joseph Jones".to_owned(), "Rio Branco".to_owned()),
    )
    .unwrap();
    let got = st.get_item(&table, &user_key("999999".to_owned())).unwrap().unwrap();
    assert_eq!(got.get_attr(&"document".to_owned()), Some(&s("999999")));
    assert_eq!(got.get_attr(&"name".to_owned()), Some(&s("Joseph Jones")));
    assert_eq!(got.get_attr(&"city".to_owned()), Some(&s("Rio Branco")));
}

#[test]
fn insert_delete_get_reports_the_row_absent() {
    // Insert a user, delete the row, then a get on its key finds nothing.
    let mut st = users_store();
    let table = "Users".to_owned();
    st.put_item(
        &table,
        user_item("123456".to_owned(), "Jane".to_owned(), "Rio de Janeiro".to_owned()),
    )
    .unwrap();
    st.delete_item(&table, &user_key("123456".to_owned())).unwrap();
    assert_eq!(st.get_item(&table, &user_key("123456".to_owned())), Ok(None));
}

#[test]
fn the_demo_script_round_trip() {
    // The fixed call sequence a demo client issues: three inserts, a
    // lookup of a document never inserted, one update, one delete.
    let mut st = users_store();
    let table = "Users".to_owned();
    st.put_item(
        &table,
        user_item("999999".to_owned(), "Joseph".to_owned(), "Sao Paulo".to_owned()),
    )
    .unwrap();
    st.put_item(
        &table,
        user_item("123456".to_owned(), "Jane".to_owned(), "Rio de Janeiro".to_owned()),
    )
    .unwrap();
    st.put_item(
        &table,
        user_item("111111".to_owned(), "Paolo".to_owned(), "Sao Paulo".to_owned()),
    )
    .unwrap();
    // The demo looks up a transposed document number: absent, no error.
    assert_eq!(st.get_item(&table, &user_key("123465".to_owned())), Ok(None));
    st.update_item(
        &table,
        &user_key("999999".to_owned()),
        user_updates("Joseph Jones".to_owned(), "Rio Branco".to_owned()),
    )
    .unwrap();
    st.delete_item(&table, &user_key("123456".to_owned())).unwrap();

    let joseph = st.get_item(&table, &user_key("999999".to_owned())).unwrap().unwrap();
    assert_eq!(joseph.get_attr(&"name".to_owned()), Some(&s("Joseph Jones")));
    assert_eq!(joseph.get_attr(&"city".to_owned()), Some(&s("Rio Branco")));
    assert_eq!(st.get_item(&table, &user_key("123456".to_owned())), Ok(None));
    let paolo = st.get_item(&table, &user_key("111111".to_owned())).unwrap().unwrap();
    assert_eq!(paolo.get_attr(&"city".to_owned()), Some(&s("Sao Paulo")));
}

#[test]
fn two_tables_do_not_share_rows() {
    let mut st = users_store();
    st.create_table("Archive".to_owned(), "document".to_owned()).unwrap();
    let users = "Users".to_owned();
    let archive = "Archive".to_owned();
    st.put_item(
        &users,
        user_item("1".to_owned(), "A".to_owned(), "X".to_owned()),
    )
    .unwrap();
    assert_eq!(st.get_item(&archive, &user_key("1".to_owned())), Ok(None));
    let got = st.get_item(&users, &user_key("1".to_owned())).unwrap().unwrap();
    assert_eq!(got.get_attr(&"name".to_owned()), Some(&s("A")));
}
