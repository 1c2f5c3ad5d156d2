use model_widgets::drop_down::{
    visible_rows, FrameOutcome, ModelDropDown, SelectorEvent, WidgetState,
};
use model_widgets::item_model::{ListModel, ViewItem};
use model_widgets::keyed_model::KeyedModel;
use model_widgets::label_item::LabelItem;
use model_widgets::text::{contains_substr, row_passes, str_eq};

fn item(key: &str, text: &str) -> LabelItem {
    LabelItem::new(key.to_string(), text.to_string())
}

fn fruit_model() -> KeyedModel<LabelItem> {
    let mut m: KeyedModel<LabelItem> = KeyedModel::new();
    m.add(item("a", "apple"));
    m.add(item("b", "banana"));
    m.add(item("c", "cherry"));
    m
}

fn open_state(search: &str) -> WidgetState {
    let mut st = WidgetState::new();
    st.search_text = search.to_string();
    st.popup_open = true;
    st
}

#[test]
fn str_eq_is_exact() {
    assert!(str_eq("banana", "banana"));
    assert!(!str_eq("banana", "Banana"));
    assert!(!str_eq("banana", "banan"));
    assert!(str_eq("", ""));
}

#[test]
fn contains_substr_finds_runs() {
    assert!(contains_substr("banana", "an"));
    assert!(contains_substr("banana", "banana"));
    assert!(contains_substr("banana", ""));
    assert!(!contains_substr("banana", "AN"));
    assert!(!contains_substr("an", "banana"));
}

#[test]
fn row_passes_empty_search_matches_everything() {
    assert!(row_passes("apple", ""));
    assert!(row_passes("", ""));
    assert!(!row_passes("", "a"));
}

#[test]
fn search_an_shows_exactly_banana() {
    let m = fruit_model();
    let rows = visible_rows(&m, "an");
    assert_eq!(rows, vec![1]);
    assert_eq!(m.item(rows[0]).unwrap().text(), "banana");
}

#[test]
fn empty_search_shows_all_rows_in_model_order() {
    let m = fruit_model();
    let rows = visible_rows(&m, "");
    assert_eq!(rows, vec![0, 1, 2]);
}

#[test]
fn search_is_case_exact() {
    let m = fruit_model();
    let rows = visible_rows(&m, "AN");
    assert!(rows.is_empty());
}

#[test]
fn visible_rows_work_on_the_sequential_backing() {
    let mut v: Vec<LabelItem> = Vec::new();
    ListModel::add(&mut v, item("a", "apple"));
    ListModel::add(&mut v, item("b", "pineapple"));
    let rows = visible_rows(&v, "apple");
    assert_eq!(rows, vec![0, 1]);
}

#[test]
fn gaining_focus_clears_search_and_opens_popup() {
    let m = fruit_model();
    let mut st = WidgetState::new();
    st.search_text = "left over".to_string();
    let mut key = Some("b".to_string());
    let out = ModelDropDown::new().show(&mut st, &m, &mut key, &SelectorEvent::GainedFocus);
    assert_eq!(st.search_text, "");
    assert!(st.popup_open);
    assert_eq!(out.search_shown, "");
    assert_eq!(out.selection, None);
    assert_eq!(key, Some("b".to_string()));
}

#[test]
fn closed_popup_shows_selection_display_text() {
    let m = fruit_model();
    let mut st = WidgetState::new();
    let mut key = Some("c".to_string());
    let out = ModelDropDown::new().show(&mut st, &m, &mut key, &SelectorEvent::Idle);
    assert_eq!(out.search_shown, "cherry");
    // nothing persisted, nothing committed
    assert_eq!(st.search_text, "");
    assert_eq!(out.selection, None);
}

#[test]
fn keystrokes_are_persisted() {
    let m = fruit_model();
    let mut st = open_state("ba");
    let mut key: Option<String> = None;
    let out = ModelDropDown::new().show(
        &mut st,
        &m,
        &mut key,
        &SelectorEvent::TextChanged("ban".to_string()),
    );
    assert_eq!(st.search_text, "ban");
    assert_eq!(out.search_shown, "ban");
    assert_eq!(out.visible, vec![1]);
}

#[test]
fn clicking_a_row_commits_key_text_and_closes() {
    let m = fruit_model();
    let mut st = open_state("an");
    let mut key = Some("a".to_string());
    let out = ModelDropDown::new().show(&mut st, &m, &mut key, &SelectorEvent::RowClicked(1));
    assert_eq!(out.selection, Some(1));
    assert_eq!(key, Some("b".to_string()));
    assert_eq!(st.search_text, "banana");
    assert!(!st.popup_open);
}

#[test]
fn clicking_outside_closes_without_selection_change() {
    let m = fruit_model();
    let mut st = open_state("an");
    let mut key = Some("a".to_string());
    let out = ModelDropDown::new().show(&mut st, &m, &mut key, &SelectorEvent::ClickedOutside);
    assert_eq!(out.selection, None);
    assert_eq!(key, Some("a".to_string()));
    assert!(!st.popup_open);
    assert_eq!(st.search_text, "an");
}

#[test]
fn force_refresh_overwrites_typed_text() {
    let m = fruit_model();
    let mut st = open_state("user typed this");
    let mut key = Some("b".to_string());
    let out = ModelDropDown::new().force_refresh(true).show(
        &mut st,
        &m,
        &mut key,
        &SelectorEvent::Idle,
    );
    assert_eq!(st.search_text, "banana");
    assert_eq!(out.search_shown, "banana");
    assert!(st.popup_open);
}

#[test]
fn force_refresh_beats_simultaneous_keystroke() {
    let m = fruit_model();
    let mut st = open_state("ba");
    let mut key = Some("a".to_string());
    let _ = ModelDropDown::new().force_refresh(true).show(
        &mut st,
        &m,
        &mut key,
        &SelectorEvent::TextChanged("ban".to_string()),
    );
    assert_eq!(st.search_text, "apple");
}

#[test]
fn unknown_key_resolves_to_no_selection() {
    let m = fruit_model();
    let mut st = WidgetState::new();
    let mut key = Some("zz".to_string());
    let out = ModelDropDown::new().show(&mut st, &m, &mut key, &SelectorEvent::Idle);
    assert_eq!(out.search_shown, "");
    assert_eq!(out.selection, None);
}

#[test]
fn show_indexed_updates_the_held_index() {
    let m = fruit_model();
    let mut st = open_state("");
    let mut index = Some(0);
    let out: FrameOutcome = ModelDropDown::new().show_indexed(
        &mut st,
        &m,
        &mut index,
        &SelectorEvent::RowClicked(2),
    );
    assert_eq!(out.selection, Some(2));
    assert_eq!(index, Some(2));
    assert_eq!(st.search_text, "cherry");
}

#[test]
fn show_indexed_keeps_index_without_commit() {
    let m = fruit_model();
    let mut st = WidgetState::new();
    let mut index = Some(1);
    let out = ModelDropDown::new().show_indexed(&mut st, &m, &mut index, &SelectorEvent::Idle);
    assert_eq!(index, Some(1));
    assert_eq!(out.search_shown, "banana");
}

#[test]
fn show_indexed_with_stale_index_shows_blank() {
    let m = fruit_model();
    let mut st = WidgetState::new();
    let mut index = Some(9);
    let out = ModelDropDown::new().show_indexed(&mut st, &m, &mut index, &SelectorEvent::Idle);
    assert_eq!(out.search_shown, "");
    assert_eq!(index, Some(9));
}

#[test]
fn out_of_bounds_click_commits_nothing() {
    let m = fruit_model();
    let mut st = open_state("");
    let mut key = Some("a".to_string());
    let out = ModelDropDown::new().show(&mut st, &m, &mut key, &SelectorEvent::RowClicked(9));
    assert_eq!(out.selection, None);
    assert_eq!(key, Some("a".to_string()));
    assert!(st.popup_open);
}

#[test]
fn default_selector_has_no_forced_refresh() {
    let d = ModelDropDown::default();
    assert!(!d.force_refresh);
    let d = d.force_refresh(true);
    assert!(d.force_refresh);
}
