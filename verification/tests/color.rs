use page_widgets::color::{
    color_key_string, default_color_string, style_for, ColorState, Lookup, StoreWrite,
};
use std::collections::HashMap;

/// A store that stands in for the persistent one.
fn lookup_in(store: &HashMap<String, String>) -> Lookup {
    match store.get(&color_key_string()) {
        Some(value) => Lookup::Found(value.clone()),
        None => Lookup::Absent,
    }
}

fn carry_out(store: &mut HashMap<String, String>, write: Option<StoreWrite>) {
    if let Some(w) = write {
        store.insert(w.key, w.value);
    }
}

#[test]
fn default_color_is_red() {
    assert_eq!(default_color_string(), "#ff0000");
    assert_eq!(ColorState::new().color(), "#ff0000");
}

#[test]
fn color_key_is_color() {
    assert_eq!(color_key_string(), "color");
}

#[test]
fn initialize_takes_the_color_found() {
    let state = ColorState::initialize(Lookup::Found("#123456".to_string()));
    assert_eq!(state.color(), "#123456");
}

#[test]
fn initialize_falls_back_to_the_default() {
    assert_eq!(ColorState::initialize(Lookup::Absent).color(), "#ff0000");
    assert_eq!(ColorState::initialize(Lookup::NoStore).color(), "#ff0000");
    assert_eq!(ColorState::initialize(Lookup::Failed).color(), "#ff0000");
}

#[test]
fn set_color_asks_for_a_write_where_there_is_a_store() {
    let mut state = ColorState::new();
    let write = state.set_color("#00ff00", true).expect("a write");
    assert_eq!(write.key, "color");
    assert_eq!(write.value, "#00ff00");
    assert_eq!(state.color(), "#00ff00");
}

#[test]
fn set_color_without_a_store_changes_the_color_only() {
    let mut state = ColorState::new();
    let write = state.set_color("#00ff00", false);
    assert!(write.is_none());
    assert_eq!(state.color(), "#00ff00");
}

#[test]
fn set_color_takes_any_string() {
    let mut state = ColorState::new();
    state.set_color("rebeccapurple", false);
    assert_eq!(state.color(), "rebeccapurple");
    state.set_color("", false);
    assert_eq!(state.color(), "");
}

#[test]
fn initialize_then_set_round_trip() {
    let mut store: HashMap<String, String> = HashMap::new();
    let mut state = ColorState::initialize(lookup_in(&store));
    assert_eq!(state.color(), "#ff0000");

    let write = state.set_color("#00ff00", true);
    carry_out(&mut store, write);
    assert_eq!(state.color(), "#00ff00");
    assert_eq!(store.get("color").map(String::as_str), Some("#00ff00"));
    assert_eq!(store.len(), 1);

    let fresh = ColorState::initialize(lookup_in(&store));
    assert_eq!(fresh.color(), "#00ff00");
}

#[test]
fn setting_a_color_twice_is_setting_it_once() {
    let mut once_store: HashMap<String, String> = HashMap::new();
    once_store.insert("other".to_string(), "kept".to_string());
    let mut twice_store = once_store.clone();

    let mut once = ColorState::new();
    let write = once.set_color("#0000ff", true);
    carry_out(&mut once_store, write);

    let mut twice = ColorState::new();
    let write = twice.set_color("#0000ff", true);
    carry_out(&mut twice_store, write);
    let write = twice.set_color("#0000ff", true);
    carry_out(&mut twice_store, write);

    assert_eq!(once.color(), twice.color());
    assert_eq!(once_store, twice_store);
    assert_eq!(twice_store.len(), 2);
}

#[test]
fn the_last_color_set_wins() {
    let mut store: HashMap<String, String> = HashMap::new();
    let mut state = ColorState::new();
    for color in ["#111111", "#222222", "#333333"] {
        let write = state.set_color(color, true);
        carry_out(&mut store, write);
    }
    assert_eq!(state.color(), "#333333");
    assert_eq!(ColorState::initialize(lookup_in(&store)).color(), "#333333");
}

#[test]
fn style_shows_the_color() {
    assert_eq!(style_for("#ff0000"), "color: #ff0000");
    assert_eq!(style_for("#00ff00"), "color: #00ff00");
    assert_eq!(style_for(""), "color: ");
    for color in ["#000000", "#abcdef", "#ABCDEF", "red"] {
        assert_eq!(style_for(color), format!("color: {}", color));
    }
}

#[test]
fn style_follows_the_current_color() {
    let mut state = ColorState::new();
    assert_eq!(state.style(), "color: #ff0000");
    state.set_color("#00ff00", false);
    assert_eq!(state.style(), "color: #00ff00");
    assert_eq!(state.style(), style_for(state.color()));
}
