use model_widgets::item_model::{KeyedListModel, KeyedViewItem, ListModel, ViewItem};
use model_widgets::keyed_model::KeyedModel;
use model_widgets::label_item::LabelItem;

fn item(key: &str, text: &str) -> LabelItem {
    LabelItem::new(key.to_string(), text.to_string())
}

fn fruit_model() -> KeyedModel<LabelItem> {
    let mut m: KeyedModel<LabelItem> = KeyedModel::new();
    m.add(item("a", "apple"));
    m.add(item("b", "banana"));
    m.add(item("c", "cherry"));
    m
}

#[test]
fn vec_add_appends_and_item_reads_back() {
    let mut v: Vec<LabelItem> = Vec::new();
    assert!(ListModel::is_empty(&v));
    ListModel::add(&mut v, item("a", "apple"));
    ListModel::add(&mut v, item("b", "banana"));
    assert_eq!(ListModel::len(&v), 2);
    assert_eq!(ListModel::item(&v, 0).unwrap().text, "apple");
    assert_eq!(ListModel::item(&v, 1).unwrap().text, "banana");
    assert!(ListModel::item(&v, 2).is_none());
}

#[test]
fn vec_ops_len_accounting() {
    // a sequence of adds and removes: the length is adds minus removes,
    // and each slot holds the last value placed there
    let mut v: Vec<LabelItem> = Vec::new();
    ListModel::add(&mut v, item("a", "apple"));
    ListModel::add(&mut v, item("b", "banana"));
    ListModel::add(&mut v, item("c", "cherry"));
    ListModel::remove(&mut v, 1);
    assert_eq!(ListModel::len(&v), 2);
    assert_eq!(ListModel::item(&v, 1).unwrap().text, "cherry");
    ListModel::insert(&mut v, 1, item("d", "damson"));
    assert_eq!(ListModel::len(&v), 3);
    assert_eq!(ListModel::item(&v, 1).unwrap().text, "damson");
    assert_eq!(ListModel::item(&v, 2).unwrap().text, "cherry");
}

#[test]
fn vec_insert_out_of_bounds_is_noop() {
    let mut v: Vec<LabelItem> = vec![item("a", "apple")];
    ListModel::insert(&mut v, 5, item("b", "banana"));
    assert_eq!(ListModel::len(&v), 1);
    // inserting at the current length appends
    ListModel::insert(&mut v, 1, item("b", "banana"));
    assert_eq!(ListModel::len(&v), 2);
    assert_eq!(ListModel::item(&v, 1).unwrap().text, "banana");
}

#[test]
fn vec_remove_out_of_bounds_is_noop() {
    let mut v: Vec<LabelItem> = vec![item("a", "apple")];
    ListModel::remove(&mut v, 3);
    assert_eq!(ListModel::len(&v), 1);
}

#[test]
fn vec_swap_items_exchanges_slots() {
    let mut v: Vec<LabelItem> = vec![item("a", "apple"), item("b", "banana")];
    ListModel::swap_items(&mut v, 0, 1);
    assert_eq!(ListModel::item(&v, 0).unwrap().text, "banana");
    assert_eq!(ListModel::item(&v, 1).unwrap().text, "apple");
    // out of bounds: no-op
    ListModel::swap_items(&mut v, 0, 9);
    assert_eq!(ListModel::item(&v, 0).unwrap().text, "banana");
}

#[test]
fn vec_copy_overwrites_target() {
    let mut v: Vec<LabelItem> = vec![item("a", "apple"), item("b", "banana")];
    ListModel::copy(&mut v, 0, 1);
    assert_eq!(ListModel::item(&v, 1).unwrap().key, "a");
    assert_eq!(ListModel::item(&v, 1).unwrap().text, "apple");
    ListModel::copy(&mut v, 5, 0);
    assert_eq!(ListModel::item(&v, 0).unwrap().text, "apple");
}

#[test]
fn vec_item_mut_updates_in_place() {
    let mut v: Vec<LabelItem> = vec![item("a", "apple")];
    if let Some(it) = ListModel::item_mut(&mut v, 0) {
        it.text = "apricot".to_string();
    }
    assert_eq!(ListModel::item(&v, 0).unwrap().text, "apricot");
    assert!(ListModel::item_mut(&mut v, 7).is_none());
}

#[test]
fn vec_row_to_index_is_identity_for_valid_rows() {
    let v: Vec<LabelItem> = vec![item("a", "apple"), item("b", "banana")];
    assert_eq!(ListModel::row_to_index(&v, 0), Some(0));
    assert_eq!(ListModel::row_to_index(&v, 1), Some(1));
    assert_eq!(ListModel::row_to_index(&v, 2), None);
}

#[test]
fn keyed_add_duplicate_key_is_noop() {
    let mut m = fruit_model();
    // same key, different text: first writer wins
    m.add(item("b", "blueberry"));
    assert_eq!(m.len(), 3);
    assert_eq!(m.item(1).unwrap().text, "banana");
}

#[test]
fn keyed_index_of_agrees_with_item_keys() {
    let m = fruit_model();
    for i in 0..m.len() {
        let key = m.item(i).unwrap().key();
        assert_eq!(m.index_of(&key), Some(i));
    }
    assert_eq!(m.index_of("zz"), None);
}

#[test]
fn keyed_item_keyed_and_contains() {
    let m = fruit_model();
    assert_eq!(m.item_keyed("b").unwrap().text, "banana");
    assert!(m.item_keyed("zz").is_none());
    assert!(m.contains("c"));
    assert!(!m.contains("zz"));
}

#[test]
fn keyed_insert_fresh_key_shifts_by_one() {
    let mut m = fruit_model();
    m.insert(1, item("d", "damson"));
    assert_eq!(m.len(), 4);
    assert_eq!(m.item(1).unwrap().key, "d");
    // the previous occupant of slot 1 and everything after it shift by one
    assert_eq!(m.item(0).unwrap().key, "a");
    assert_eq!(m.item(2).unwrap().key, "b");
    assert_eq!(m.item(3).unwrap().key, "c");
}

#[test]
fn keyed_insert_duplicate_key_repositions_existing() {
    let mut m = fruit_model();
    m.insert(0, item("c", "carambola"));
    assert_eq!(m.len(), 3);
    // the existing entry for "c" moved to slot 0, keeping its stored text
    assert_eq!(m.item(0).unwrap().key, "c");
    assert_eq!(m.item(0).unwrap().text, "cherry");
    assert_eq!(m.item(1).unwrap().key, "a");
    assert_eq!(m.item(2).unwrap().key, "b");
}

#[test]
fn keyed_insert_at_length_appends_fresh_key() {
    let mut m = fruit_model();
    m.insert(3, item("d", "damson"));
    assert_eq!(m.len(), 4);
    assert_eq!(m.item(3).unwrap().key, "d");
}

#[test]
fn keyed_insert_out_of_range_is_noop() {
    let mut m = fruit_model();
    // fresh key past the end
    m.insert(9, item("d", "damson"));
    assert_eq!(m.len(), 3);
    // duplicate key: the valid reposition range ends at len - 1
    m.insert(3, item("a", "avocado"));
    assert_eq!(m.len(), 3);
    assert_eq!(m.item(0).unwrap().key, "a");
    assert_eq!(m.item(0).unwrap().text, "apple");
}

#[test]
fn keyed_remove_shifts_left() {
    let mut m = fruit_model();
    m.remove(0);
    assert_eq!(m.len(), 2);
    assert_eq!(m.item(0).unwrap().key, "b");
    assert_eq!(m.index_of("a"), None);
    m.remove(5);
    assert_eq!(m.len(), 2);
}

#[test]
fn keyed_swap_items_keeps_lookup_consistent() {
    let mut m = fruit_model();
    m.swap_items(0, 2);
    assert_eq!(m.item(0).unwrap().key, "c");
    assert_eq!(m.item(2).unwrap().key, "a");
    assert_eq!(m.index_of("c"), Some(0));
    assert_eq!(m.index_of("a"), Some(2));
}

#[test]
fn keyed_copy_rewrites_key_to_target_slot() {
    let mut m = fruit_model();
    m.copy(0, 2);
    // the clone of slot 0 lands in slot 2, but carries slot 2's old key
    assert_eq!(m.item(2).unwrap().key, "c");
    assert_eq!(m.item(2).unwrap().text, "apple");
    // uniqueness and lookup stay intact
    assert_eq!(m.index_of("c"), Some(2));
    assert_eq!(m.len(), 3);
    // out of bounds: no-op
    m.copy(0, 9);
    assert_eq!(m.item(2).unwrap().text, "apple");
}

#[test]
fn keyed_row_to_index_is_identity_for_valid_rows() {
    let m = fruit_model();
    assert_eq!(m.row_to_index(2), Some(2));
    assert_eq!(m.row_to_index(3), None);
}

#[test]
fn keyed_item_mut_updates_in_place() {
    let mut m = fruit_model();
    if let Some(it) = m.item_mut(1) {
        it.text = "bilberry".to_string();
    }
    assert_eq!(m.item(1).unwrap().text, "bilberry");
}

#[test]
fn keyed_mixed_sequence_len_accounting() {
    // the length is the number of successful adds and inserts minus the
    // number of successful removes; swap and copy never change it
    let mut m: KeyedModel<LabelItem> = KeyedModel::new();
    m.add(item("a", "apple"));
    m.add(item("b", "banana"));
    m.add(item("a", "avocado")); // duplicate: dropped
    m.insert(1, item("c", "cherry"));
    m.insert(7, item("d", "damson")); // out of range: dropped
    m.swap_items(0, 2);
    m.copy(0, 1);
    m.remove(2);
    m.remove(9); // out of range: no-op
    assert_eq!(m.len(), 2);
    // slot contents follow from the calls above
    assert_eq!(m.item(0).unwrap().key, "b");
    assert_eq!(m.item(1).unwrap().key, "c");
    assert_eq!(m.item(1).unwrap().text, "banana");
}

#[test]
fn empty_keyed_model_basics() {
    let mut m: KeyedModel<LabelItem> = KeyedModel::new();
    assert!(m.is_empty());
    assert_eq!(m.len(), 0);
    assert!(m.item(0).is_none());
    assert_eq!(m.index_of("a"), None);
    m.remove(0);
    m.swap_items(0, 0);
    m.copy(0, 0);
    assert!(m.is_empty());
    // inserting the first item through `insert` at slot zero appends
    m.insert(0, item("a", "apple"));
    assert_eq!(m.len(), 1);
}

#[test]
fn label_item_set_key_replaces_only_the_key() {
    let mut it = item("a", "apple");
    it.set_key("z".to_string());
    assert_eq!(it.key(), "z");
    assert_eq!(it.text(), "apple");
}
