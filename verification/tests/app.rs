use dbug_desktop::app::{
    remove_from_list, App, Effect, HotkeyAction, Key, Message, Pending, ServerMessage,
};
use dbug_desktop::settings::Settings;
use dbug_desktop::storage::Storage;
use serde_json::Value;
use std::collections::HashMap;

fn app_value(text: &str) -> Value {
    serde_json::from_str(text).unwrap()
}

fn app_with(file: Option<&str>) -> App<u64> {
    let mut hotkeys = HashMap::new();
    hotkeys.insert(10, HotkeyAction::ShowWindow);
    hotkeys.insert(20, HotkeyAction::ClearPayloads);
    let themes = ["Light", "Dark", "Dracula"].iter().map(|s| s.to_string()).collect();
    App::new(Storage::new(file).unwrap(), Settings::default(), themes, hotkeys)
}

fn cache_ids(app: &App<u64>) -> Vec<String> {
    app.payload_list_cache.iter().map(|(id, _)| id.clone()).collect()
}

fn collapsed(app: &App<u64>) -> Vec<usize> {
    let mut lines: Vec<usize> = app.collapsed_json_lines.iter().copied().collect();
    lines.sort();
    lines
}

const THREE: &str = "[[\"1\", {\"a\": 1}], [\"2\", {\"b\": 2}], [\"3\", {\"c\": 3}]]";

#[test]
fn a_run_starts_with_the_newest_payload_expanded() {
    let app = app_with(Some(THREE));
    assert_eq!(cache_ids(&app), vec!["3", "2", "1"]);
    assert_eq!(app.expanded_payload_id, Some("3".to_string()));
    assert!(!app.show_modal);
    assert!(app.collapsed_json_lines.is_empty());
    assert_eq!(app.search_query, "");
    assert_eq!(app.main_window_id, None);
    let app = app_with(None);
    assert!(app.payload_list_cache.is_empty());
    assert_eq!(app.expanded_payload_id, None);
}

#[test]
fn the_dialog_opens_and_closes() {
    let mut app = app_with(None);
    assert!(matches!(app.update(Message::ShowModal), Effect::Nothing));
    assert!(app.show_modal);
    assert!(matches!(app.update(Message::HideModal), Effect::Nothing));
    assert!(!app.show_modal);
    assert!(matches!(app.update(Message::OpenSettings), Effect::Nothing));
    assert!(app.show_modal);
    app.hide_modal();
    assert!(!app.show_modal);
}

#[test]
fn a_received_payload_is_stored_then_shown_once_written() {
    let mut app = app_with(Some(THREE));
    app.collapsed_json_lines.insert(4);
    app.search_query = "b".to_string();
    let message = Message::Server(ServerMessage::PayloadReceived(app_value("{\"d\": 4}")));
    let effect = app.update_at(message, 1_700_000_000_000);
    assert!(matches!(effect, Effect::Persist(Pending::Received)));
    assert_eq!(app.storage.len(), 4);
    assert_eq!(cache_ids(&app), vec!["3", "2", "1"]);
    assert_eq!(collapsed(&app), vec![4]);
    let effect = app.persisted(Pending::Received, true);
    assert!(matches!(effect, Effect::ScrollToTop));
    assert_eq!(cache_ids(&app), vec!["1700000000000", "3", "2", "1"]);
    assert_eq!(app.payload_list_cache[0].1, app_value("{\"d\":4}"));
    assert_eq!(app.expanded_payload_id, Some("1700000000000".to_string()));
    assert!(app.collapsed_json_lines.is_empty());
    assert_eq!(app.search_query, "b");
}

#[test]
fn a_payload_that_could_not_be_written_is_not_shown() {
    let mut app = app_with(Some(THREE));
    let message = Message::Server(ServerMessage::PayloadReceived(app_value("4")));
    app.update_at(message, 5);
    let effect = app.persisted(Pending::Received, false);
    assert!(matches!(effect, Effect::Nothing));
    assert_eq!(cache_ids(&app), vec!["3", "2", "1"]);
    assert_eq!(app.expanded_payload_id, Some("3".to_string()));
    assert_eq!(app.storage.len(), 4);
}

#[test]
fn update_reads_the_clock_for_the_identifier() {
    let mut app = app_with(None);
    let effect = app.update(Message::Server(ServerMessage::PayloadReceived(app_value("1"))));
    assert!(matches!(effect, Effect::Persist(Pending::Received)));
    let id: i64 = app.storage.get_all()[0].0.parse().unwrap();
    assert!(id > 1_600_000_000_000);
}

#[test]
fn toggling_a_payload_expands_it_and_resets_the_view() {
    let mut app = app_with(Some(THREE));
    app.collapsed_json_lines.insert(1);
    app.search_query = "q".to_string();
    assert!(matches!(app.update(Message::TogglePayload("2".to_string())), Effect::Nothing));
    assert_eq!(app.expanded_payload_id, Some("2".to_string()));
    assert_eq!(app.search_query, "");
    assert!(app.collapsed_json_lines.is_empty());
}

#[test]
fn toggling_the_expanded_payload_collapses_it_and_keeps_the_view() {
    let mut app = app_with(Some(THREE));
    app.collapsed_json_lines.insert(1);
    app.search_query = "q".to_string();
    app.update(Message::TogglePayload("3".to_string()));
    assert_eq!(app.expanded_payload_id, None);
    assert_eq!(app.search_query, "q");
    assert_eq!(collapsed(&app), vec![1]);
}

#[test]
fn sections_toggle_only_while_a_payload_is_expanded() {
    let mut app = app_with(Some(THREE));
    app.update(Message::ToggleJsonSection(2));
    app.update(Message::ToggleJsonSection(5));
    assert_eq!(collapsed(&app), vec![2, 5]);
    app.update(Message::ToggleJsonSection(2));
    assert_eq!(collapsed(&app), vec![5]);
    app.update(Message::TogglePayload("3".to_string()));
    assert_eq!(app.expanded_payload_id, None);
    app.update(Message::ToggleJsonSection(7));
    assert_eq!(collapsed(&app), vec![5]);
}

#[test]
fn clearing_empties_the_store_then_the_view() {
    let mut app = app_with(Some(THREE));
    app.search_query = "q".to_string();
    app.collapsed_json_lines.insert(1);
    let effect = app.update(Message::ClearPayloads);
    assert!(matches!(effect, Effect::Persist(Pending::Cleared)));
    assert_eq!(app.storage.len(), 0);
    assert_eq!(cache_ids(&app), vec!["3", "2", "1"]);
    assert!(matches!(app.persisted(Pending::Cleared, false), Effect::Nothing));
    assert_eq!(cache_ids(&app), vec!["3", "2", "1"]);
    assert!(matches!(app.persisted(Pending::Cleared, true), Effect::Nothing));
    assert!(app.payload_list_cache.is_empty());
    assert_eq!(app.expanded_payload_id, None);
    assert_eq!(app.search_query, "");
    assert!(app.collapsed_json_lines.is_empty());
}

#[test]
fn clearing_an_empty_store_is_written_too() {
    let mut app = app_with(None);
    assert!(matches!(app.update(Message::ClearPayloads), Effect::Persist(Pending::Cleared)));
}

#[test]
fn deleting_the_expanded_payload_closes_it() {
    let mut app = app_with(Some(THREE));
    app.search_query = "q".to_string();
    app.collapsed_json_lines.insert(1);
    let effect = app.update(Message::DeletePayload("3".to_string()));
    let pending = match effect {
        Effect::Persist(Pending::Deleted(id)) => {
            assert_eq!(id, "3");
            Pending::Deleted(id)
        }
        other => panic!("unexpected effect {:?}", other),
    };
    assert_eq!(app.storage.len(), 2);
    assert_eq!(cache_ids(&app), vec!["3", "2", "1"]);
    assert!(matches!(app.persisted(pending, true), Effect::Nothing));
    assert_eq!(cache_ids(&app), vec!["2", "1"]);
    assert_eq!(app.expanded_payload_id, None);
    assert_eq!(app.search_query, "");
    assert!(app.collapsed_json_lines.is_empty());
}

#[test]
fn deleting_another_payload_keeps_the_expanded_one() {
    let mut app = app_with(Some(THREE));
    app.search_query = "q".to_string();
    app.collapsed_json_lines.insert(1);
    app.update(Message::DeletePayload("1".to_string()));
    app.persisted(Pending::Deleted("1".to_string()), true);
    assert_eq!(cache_ids(&app), vec!["3", "2"]);
    assert_eq!(app.expanded_payload_id, Some("3".to_string()));
    assert_eq!(app.search_query, "q");
    assert!(app.collapsed_json_lines.is_empty());
}

#[test]
fn a_deletion_that_could_not_be_written_is_not_shown() {
    let mut app = app_with(Some(THREE));
    app.collapsed_json_lines.insert(1);
    app.update(Message::DeletePayload("3".to_string()));
    assert!(matches!(app.persisted(Pending::Deleted("3".to_string()), false), Effect::Nothing));
    assert_eq!(cache_ids(&app), vec!["3", "2", "1"]);
    assert_eq!(app.expanded_payload_id, Some("3".to_string()));
    assert_eq!(collapsed(&app), vec![1]);
}

#[test]
fn deleting_an_unknown_payload_does_nothing() {
    let mut app = app_with(Some(THREE));
    app.collapsed_json_lines.insert(1);
    assert!(matches!(app.update(Message::DeletePayload("9".to_string())), Effect::Nothing));
    assert_eq!(app.storage.len(), 3);
    assert_eq!(collapsed(&app), vec![1]);
}

#[test]
fn remove_from_list_takes_every_payload_of_that_id() {
    let mut list = vec![
        ("1".to_string(), app_value("1")),
        ("2".to_string(), app_value("2")),
        ("1".to_string(), app_value("3")),
    ];
    remove_from_list(&mut list, &"1".to_string());
    assert_eq!(list, vec![("2".to_string(), app_value("2"))]);
    remove_from_list(&mut list, &"7".to_string());
    assert_eq!(list.len(), 1);
    remove_from_list(&mut list, &"2".to_string());
    assert!(list.is_empty());
}

#[test]
fn tab_moves_the_focus() {
    let mut app = app_with(None);
    let tab = |shift| Message::KeyPressed { key: Key::Tab, shift, command: false };
    assert!(matches!(app.update(tab(false)), Effect::FocusNext));
    assert!(matches!(app.update(tab(true)), Effect::FocusPrevious));
}

#[test]
fn escape_closes_the_dialog() {
    let mut app = app_with(None);
    app.update(Message::ShowModal);
    let effect = app.update(Message::KeyPressed { key: Key::Escape, shift: false, command: true });
    assert!(matches!(effect, Effect::Nothing));
    assert!(!app.show_modal);
}

#[test]
fn command_comma_opens_the_settings() {
    let mut app = app_with(None);
    let key = |text: &str, command| Message::KeyPressed {
        key: Key::Character(text.to_string()),
        shift: false,
        command,
    };
    assert!(matches!(app.update(key(",", true)), Effect::Dispatch(Message::OpenSettings)));
    assert!(!app.show_modal);
    assert!(matches!(app.update(key(",", false)), Effect::Nothing));
    assert!(matches!(app.update(key(".", true)), Effect::Nothing));
    assert!(matches!(app.update(key(",,", true)), Effect::Nothing));
    assert!(matches!(app.update(key("", true)), Effect::Nothing));
    let other = Message::KeyPressed { key: Key::Other, shift: true, command: true };
    assert!(matches!(app.update(other), Effect::Nothing));
    assert!(matches!(app.update(Message::OtherEvent), Effect::Nothing));
}

#[test]
fn a_theme_is_chosen_by_its_index() {
    let mut app = app_with(None);
    assert!(matches!(app.update(Message::ThemeChanged(2)), Effect::SaveSettings));
    assert_eq!(app.settings.theme_name(), "Dracula");
    assert!(matches!(app.update(Message::ThemeChanged(3)), Effect::Nothing));
    assert_eq!(app.settings.theme_name(), "Dracula");
    assert!(matches!(app.update(Message::ThemeChanged(0)), Effect::SaveSettings));
    assert_eq!(app.settings.theme_name(), "Light");
}

#[test]
fn the_window_saves_the_settings_when_it_changes() {
    let mut app = app_with(None);
    assert!(matches!(app.update(Message::WindowMoved), Effect::SaveSettings));
    assert!(matches!(app.update(Message::WindowResized), Effect::SaveSettings));
    assert!(matches!(app.update(Message::WindowClosed), Effect::SaveSettingsAndExit));
}

#[test]
fn the_search_query_is_replaced() {
    let mut app = app_with(Some(THREE));
    app.collapsed_json_lines.insert(3);
    assert!(matches!(app.update(Message::SearchQueryChanged("err".to_string())), Effect::Nothing));
    assert_eq!(app.search_query, "err");
    assert_eq!(collapsed(&app), vec![3]);
    assert_eq!(app.expanded_payload_id, Some("3".to_string()));
}

#[test]
fn the_first_window_is_the_main_window() {
    let mut app = app_with(None);
    app.update(Message::CaptureWindowId(7));
    assert_eq!(app.main_window_id, Some(7));
    app.update(Message::CaptureWindowId(8));
    assert_eq!(app.main_window_id, Some(7));
}

#[test]
fn hotkeys_show_the_window_or_clear_the_payloads() {
    let mut app = app_with(Some(THREE));
    app.update(Message::CaptureWindowId(7));
    assert!(matches!(app.update(Message::HotkeyActivated(10)), Effect::GainFocus(7)));
    let effect = app.update(Message::HotkeyActivated(20));
    assert!(matches!(effect, Effect::Dispatch(Message::ClearPayloads)));
    assert_eq!(app.storage.len(), 3);
    assert!(matches!(app.update(Message::HotkeyActivated(30)), Effect::Nothing));
}

#[test]
fn the_server_address_is_changed_and_saved() {
    let mut app = app_with(None);
    let effect = app.update(Message::ServerHostChanged("0.0.0.0".to_string()));
    assert!(matches!(effect, Effect::SaveSettings));
    assert_eq!(app.settings.get_server_host(), "0.0.0.0");
    let effect = app.update(Message::ServerPortChanged("8080".to_string()));
    assert!(matches!(effect, Effect::SaveSettings));
    assert_eq!(app.settings.get_server_port(), 8080);
}

#[test]
fn a_port_that_is_no_port_is_ignored() {
    let mut app = app_with(None);
    for text in ["", "http", "65536", "-1", "80 ", "8 0", "1.5"] {
        let effect = app.update(Message::ServerPortChanged(text.to_string()));
        assert!(matches!(effect, Effect::Nothing), "for {:?}", text);
        assert_eq!(app.settings.get_server_port(), 53821);
    }
}

#[test]
fn the_server_address_is_reset_to_the_defaults() {
    let mut app = app_with(None);
    app.update(Message::ServerHostChanged("example.org".to_string()));
    app.update(Message::ServerPortChanged("1".to_string()));
    app.update(Message::ThemeChanged(1));
    assert!(matches!(app.update(Message::ResetServerToDefaults), Effect::SaveSettings));
    assert_eq!(app.settings.get_server_host(), "127.0.0.1");
    assert_eq!(app.settings.get_server_port(), 53821);
    assert_eq!(app.settings.theme_name(), "Dark");
}
