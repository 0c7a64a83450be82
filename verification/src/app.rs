//! The application's state and its transitions: what each message changes,
//! and what is to be done outside afterwards.

use vstd::prelude::*;
use serde_json::Value;
use std::collections::{HashMap, HashSet};
use crate::clock::now_millis;
use crate::json::{pair_views, payload_size};
use crate::number::{decimal_of, decimal_string, parse_u16, parse_u16_spec};
use crate::settings::{Settings, SettingsView, DEFAULT_SERVER_PORT};
use crate::storage::{
    after_add,
    after_delete,
    after_delete_all,
    has_id,
    lemma_without_absent,
    pairs_of,
    EntryView,
    Storage,
    StorageView,
};
use crate::text::{chars_of, string_views};

verus! {

broadcast use vstd::std_specs::hash::group_hash_axioms;

/// What a global hotkey stands for.
#[derive(Debug, Clone, Copy, PartialEq, Eq, Hash, Structural)]
pub enum HotkeyAction {
    ShowWindow,
    ClearPayloads,
}

/// What the embedded server reports.
#[derive(Debug, Clone)]
pub enum ServerMessage {
    PayloadReceived(Value),
}

/// A key of the keyboard, as far as the application tells keys apart.
#[derive(Debug, Clone)]
pub enum Key {
    Tab,
    Escape,
    /// A key that produces text.
    Character(String),
    Other,
}

/// Messages used for application state updates. `W` identifies a window.
#[derive(Debug, Clone)]
pub enum Message<W> {
    ShowModal,
    HideModal,
    /// A key was pressed, with or without Shift and the command key.
    KeyPressed { key: Key, shift: bool, command: bool },
    /// Any other event of the keyboard.
    OtherEvent,
    Server(ServerMessage),
    ThemeChanged(usize),
    TogglePayload(String),
    ToggleJsonSection(usize),
    ClearPayloads,
    DeletePayload(String),
    WindowMoved,
    WindowResized,
    WindowClosed,
    SearchQueryChanged(String),
    HotkeyActivated(u32),
    CaptureWindowId(W),
    OpenSettings,
    ServerHostChanged(String),
    ServerPortChanged(String),
    ResetServerToDefaults,
}

/// A change of the store that is made in memory and waits to be written.
#[derive(Debug, Clone)]
pub enum Pending {
    /// A payload was added.
    Received,
    /// All payloads were deleted.
    Cleared,
    /// The payloads with this identifier were deleted.
    Deleted(String),
}

/// What is to be done outside after a transition.
#[derive(Debug, Clone)]
pub enum Effect<W> {
    /// Nothing.
    Nothing,
    /// Write the store to its file, then report with [`App::persisted`]
    /// whether that worked.
    Persist(Pending),
    /// Write the settings to their file.
    SaveSettings,
    /// Write the settings to their file, then leave.
    SaveSettingsAndExit,
    /// Scroll the list of payloads to its top.
    ScrollToTop,
    FocusNext,
    FocusPrevious,
    /// Bring this window to the front.
    GainFocus(W),
    /// Handle this message next.
    Dispatch(Message<W>),
}

/// The state of the application.
pub struct App<W> {
    pub show_modal: bool,
    pub settings: Settings,
    pub storage: Storage,
    pub expanded_payload_id: Option<String>,
    pub collapsed_json_lines: HashSet<usize>,
    pub payload_list_cache: Vec<(String, Value)>,
    pub search_query: String,
    pub main_window_id: Option<W>,
    pub hotkey_actions: HashMap<u32, HotkeyAction>,
    /// The names of the themes on offer.
    pub themes: Vec<String>,
}

/// The mathematical value of an [`App`].
pub struct AppView<W> {
    pub show_modal: bool,
    pub settings: SettingsView,
    pub storage: StorageView,
    pub expanded_payload_id: Option<Seq<char>>,
    pub collapsed_json_lines: Set<usize>,
    pub payload_list_cache: Seq<(Seq<char>, Value)>,
    pub search_query: Seq<char>,
    pub main_window_id: Option<W>,
    pub hotkey_actions: Map<u32, HotkeyAction>,
    pub themes: Seq<Seq<char>>,
}

impl<W> View for App<W> {
    type V = AppView<W>;

    open spec fn view(&self) -> AppView<W> {
        AppView {
            show_modal: self.show_modal,
            settings: self.settings@,
            storage: self.storage@,
            expanded_payload_id: match self.expanded_payload_id {
                Some(id) => Some(id@),
                None => None,
            },
            collapsed_json_lines: self.collapsed_json_lines@,
            payload_list_cache: pair_views(self.payload_list_cache@),
            search_query: self.search_query@,
            main_window_id: self.main_window_id,
            hotkey_actions: self.hotkey_actions@,
            themes: string_views(self.themes@),
        }
    }
}

/// The identifier of the first payload of a list, if there is one.
pub open spec fn first_id(list: Seq<(Seq<char>, Value)>) -> Option<Seq<char>> {
    if list.len() > 0 {
        Some(list[0].0)
    } else {
        None
    }
}

/// The payloads of a list whose identifier is not `id`, in order.
pub open spec fn list_without(list: Seq<(Seq<char>, Value)>, id: Seq<char>) -> Seq<
    (Seq<char>, Value),
>
    decreases list.len(),
{
    if list.len() == 0 {
        Seq::empty()
    } else if list.last().0 == id {
        list_without(list.drop_last(), id)
    } else {
        list_without(list.drop_last(), id).push(list.last())
    }
}

/// `set` with `line` taken out if it is in, and put in if it is not.
pub open spec fn toggled(set: Set<usize>, line: usize) -> Set<usize> {
    if set.contains(line) {
        set.remove(line)
    } else {
        set.insert(line)
    }
}

/// The state a run starts in: the newest stored payload is expanded, nothing
/// is collapsed or searched for, and no window is known.
pub open spec fn initial_state<W>(
    storage: StorageView,
    settings: SettingsView,
    themes: Seq<Seq<char>>,
    hotkey_actions: Map<u32, HotkeyAction>,
) -> AppView<W> {
    let cache = pairs_of(storage.entries).reverse();
    AppView {
        show_modal: false,
        settings,
        storage,
        expanded_payload_id: first_id(cache),
        collapsed_json_lines: Set::empty(),
        payload_list_cache: cache,
        search_query: Seq::empty(),
        main_window_id: None,
        hotkey_actions,
        themes,
    }
}

/// Whether the application can handle `message` in state `st`. The one thing
/// it cannot do is to show a window on a hotkey before any window is known.
pub open spec fn can_handle<W>(st: AppView<W>, message: Message<W>) -> bool {
    message matches Message::HotkeyActivated(id) ==> (st.hotkey_actions.contains_key(id)
        && st.hotkey_actions[id] == HotkeyAction::ShowWindow ==> st.main_window_id is Some)
}

/// What a pressed key does.
pub open spec fn after_key<W>(st: AppView<W>, key: Key, shift: bool, command: bool) -> (
    AppView<W>,
    Effect<W>,
) {
    match key {
        Key::Tab => (
            st,
            if shift {
                Effect::FocusPrevious
            } else {
                Effect::FocusNext
            },
        ),
        Key::Escape => (AppView { show_modal: false, ..st }, Effect::Nothing),
        Key::Character(text) => if command && text@ == seq![','] {
            (st, Effect::Dispatch(Message::OpenSettings))
        } else {
            (st, Effect::Nothing)
        },
        Key::Other => (st, Effect::Nothing),
    }
}

/// What an activated hotkey does.
pub open spec fn after_hotkey<W>(st: AppView<W>, id: u32) -> (AppView<W>, Effect<W>) {
    if st.hotkey_actions.contains_key(id) {
        match st.hotkey_actions[id] {
            HotkeyAction::ShowWindow => (st, Effect::GainFocus(st.main_window_id->0)),
            HotkeyAction::ClearPayloads => (st, Effect::Dispatch(Message::ClearPayloads)),
        }
    } else {
        (st, Effect::Nothing)
    }
}

/// The state after `message` has been handled in state `st` at the time
/// `now`, and what is to be done outside.
///
/// Changes of the store are made in memory at once and then wait to be
/// written; what follows a successful write is told by [`settle`]. The time
/// matters only to a received payload, which is named by it.
pub open spec fn step<W>(st: AppView<W>, message: Message<W>, now: i64) -> (AppView<W>, Effect<W>) {
    match message {
        Message::Server(ServerMessage::PayloadReceived(value)) => (
            AppView {
                storage: after_add(
                    st.storage,
                    EntryView { id: decimal_of(now as int), value, size: payload_size(value) },
                ),
                ..st
            },
            Effect::Persist(Pending::Received),
        ),
        Message::ShowModal => (AppView { show_modal: true, ..st }, Effect::Nothing),
        Message::OpenSettings => (AppView { show_modal: true, ..st }, Effect::Nothing),
        Message::HideModal => (AppView { show_modal: false, ..st }, Effect::Nothing),
        Message::ThemeChanged(index) => if index < st.themes.len() {
            (
                AppView {
                    settings: SettingsView { theme_name: st.themes[index as int], ..st.settings },
                    ..st
                },
                Effect::SaveSettings,
            )
        } else {
            (st, Effect::Nothing)
        },
        Message::TogglePayload(id) => if st.expanded_payload_id == Some(id@) {
            (AppView { expanded_payload_id: None, ..st }, Effect::Nothing)
        } else {
            (
                AppView {
                    expanded_payload_id: Some(id@),
                    search_query: Seq::empty(),
                    collapsed_json_lines: Set::empty(),
                    ..st
                },
                Effect::Nothing,
            )
        },
        Message::ToggleJsonSection(line) => if st.expanded_payload_id is Some {
            (
                AppView { collapsed_json_lines: toggled(st.collapsed_json_lines, line), ..st },
                Effect::Nothing,
            )
        } else {
            (st, Effect::Nothing)
        },
        Message::ClearPayloads => (
            AppView { storage: after_delete_all(st.storage), ..st },
            Effect::Persist(Pending::Cleared),
        ),
        Message::DeletePayload(id) => if has_id(st.storage.entries, id@) {
            (
                AppView { storage: after_delete(st.storage, id@), ..st },
                Effect::Persist(Pending::Deleted(id)),
            )
        } else {
            (st, Effect::Nothing)
        },
        Message::KeyPressed { key, shift, command } => after_key(st, key, shift, command),
        Message::OtherEvent => (st, Effect::Nothing),
        Message::WindowMoved => (st, Effect::SaveSettings),
        Message::WindowResized => (st, Effect::SaveSettings),
        Message::WindowClosed => (st, Effect::SaveSettingsAndExit),
        Message::SearchQueryChanged(query) => (AppView { search_query: query@, ..st }, Effect::Nothing),
        Message::HotkeyActivated(id) => after_hotkey(st, id),
        Message::CaptureWindowId(id) => if st.main_window_id is None {
            (AppView { main_window_id: Some(id), ..st }, Effect::Nothing)
        } else {
            (st, Effect::Nothing)
        },
        Message::ServerHostChanged(host) => (
            AppView { settings: SettingsView { server_host: host@, ..st.settings }, ..st },
            Effect::SaveSettings,
        ),
        Message::ServerPortChanged(text) => match parse_u16_spec(text@) {
            Some(port) => (
                AppView { settings: SettingsView { server_port: port, ..st.settings }, ..st },
                Effect::SaveSettings,
            ),
            None => (st, Effect::Nothing),
        },
        Message::ResetServerToDefaults => (
            AppView {
                settings: SettingsView {
                    server_host: "127.0.0.1"@,
                    server_port: DEFAULT_SERVER_PORT,
                    ..st.settings
                },
                ..st
            },
            Effect::SaveSettings,
        ),
    }
}

/// The state after a pending change of the store has been written, or has
/// failed to be written, and what is to be done outside. A change that
/// could not be written leaves what is shown as it was.
pub open spec fn settle<W>(st: AppView<W>, pending: Pending, saved: bool) -> (AppView<W>, Effect<W>) {
    if !saved {
        (st, Effect::Nothing)
    } else {
        match pending {
            Pending::Received => {
                let cache = pairs_of(st.storage.entries).reverse();
                (
                    AppView {
                        payload_list_cache: cache,
                        expanded_payload_id: first_id(cache),
                        collapsed_json_lines: Set::empty(),
                        ..st
                    },
                    Effect::ScrollToTop,
                )
            },
            Pending::Cleared => (
                AppView {
                    payload_list_cache: Seq::empty(),
                    expanded_payload_id: None,
                    collapsed_json_lines: Set::empty(),
                    search_query: Seq::empty(),
                    ..st
                },
                Effect::Nothing,
            ),
            Pending::Deleted(id) => {
                let was_expanded = st.expanded_payload_id == Some(id@);
                (
                    AppView {
                        payload_list_cache: list_without(st.payload_list_cache, id@),
                        expanded_payload_id: if was_expanded {
                            None
                        } else {
                            st.expanded_payload_id
                        },
                        search_query: if was_expanded {
                            Seq::empty()
                        } else {
                            st.search_query
                        },
                        collapsed_json_lines: Set::empty(),
                        ..st
                    },
                    Effect::Nothing,
                )
            },
        }
    }
}

/// Takes the payloads with identifier `id` out of `list`.
pub fn remove_from_list(list: &mut Vec<(String, Value)>, id: &String)
    ensures
        pair_views(final(list)@) == list_without(pair_views(old(list)@), id@),
{
    let ghost before = pair_views(list@);
    let mut i: usize = 0;
    let ghost mut seen: int = 0;
    proof {
        assert(before.take(0) =~= Seq::<(Seq<char>, Value)>::empty());
        assert(before.skip(0) =~= before);
        assert(Seq::<(Seq<char>, Value)>::empty() + before =~= before);
    }
    while i < list.len()
        invariant
            i <= list.len(),
            0 <= seen <= before.len(),
            list.len() - i == before.len() - seen,
            pair_views(list@) == list_without(before.take(seen), id@) + before.skip(seen),
            i == list_without(before.take(seen), id@).len(),
        decreases list.len() - i,
    {
        let ghost now = pair_views(list@);
        let ghost kept = list_without(before.take(seen), id@);
        proof {
            assert(now[i as int] == before.skip(seen)[0]);
            assert(now[i as int] == (list@[i as int].0@, list@[i as int].1));
            assert(before.take(seen + 1).drop_last() =~= before.take(seen));
            assert(before.take(seen + 1).last() == before[seen]);
        }
        if list[i].0 == *id {
            proof {
                assert(pair_views(list@.remove(i as int)) =~= now.remove(i as int));
                assert(now.remove(i as int) =~= kept + before.skip(seen + 1));
            }
            list.remove(i);
        } else {
            proof {
                assert(now =~= kept.push(before[seen]) + before.skip(seen + 1));
            }
            i += 1;
        }
        proof {
            seen = seen + 1;
        }
    }
    proof {
        assert(before.take(seen) =~= before);
        assert(before.skip(seen) =~= Seq::<(Seq<char>, Value)>::empty());
        assert(pair_views(list@) =~= list_without(before, id@));
    }
}

impl<W: Copy> App<W> {
    /// The application at the start of a run.
    pub fn new(
        storage: Storage,
        settings: Settings,
        themes: Vec<String>,
        hotkey_actions: HashMap<u32, HotkeyAction>,
    ) -> (app: App<W>)
        ensures
            app@ == initial_state::<W>(
                storage@,
                settings@,
                string_views(themes@),
                hotkey_actions@,
            ),
    {
        let payload_list_cache = storage.get_all();
        let expanded_payload_id = if payload_list_cache.len() > 0 {
            Some(payload_list_cache[0].0.clone())
        } else {
            None
        };
        App {
            show_modal: false,
            settings,
            storage,
            expanded_payload_id,
            collapsed_json_lines: HashSet::new(),
            payload_list_cache,
            search_query: String::new(),
            main_window_id: None,
            hotkey_actions,
            themes,
        }
    }

    /// Hides the settings dialog.
    pub fn hide_modal(&mut self)
        ensures
            final(self)@ == (AppView { show_modal: false, ..old(self)@ }),
    {
        self.show_modal = false;
    }

    /// Handles `message` at the time `now`, in milliseconds since the Unix
    /// epoch, and tells what is to be done outside.
    pub fn update_at(&mut self, message: Message<W>, now: i64) -> (effect: Effect<W>)
        requires
            can_handle(old(self)@, message),
        ensures
            (final(self)@, effect) == step(old(self)@, message, now),
    {
        let ghost st = self@;
        match message {
            Message::Server(ServerMessage::PayloadReceived(value)) => {
                let id = decimal_string(now);
                self.storage.add_json_as(id, &value);
                Effect::Persist(Pending::Received)
            },
            Message::ShowModal => {
                self.show_modal = true;
                Effect::Nothing
            },
            Message::OpenSettings => {
                self.show_modal = true;
                Effect::Nothing
            },
            Message::HideModal => {
                self.hide_modal();
                Effect::Nothing
            },
            Message::ThemeChanged(index) => {
                if index < self.themes.len() {
                    let name = self.themes[index].clone();
                    assert(name@ == st.themes[index as int]);
                    self.settings.set_theme(name);
                    Effect::SaveSettings
                } else {
                    Effect::Nothing
                }
            },
            Message::TogglePayload(id) => {
                let same = match &self.expanded_payload_id {
                    Some(current) => *current == id,
                    None => false,
                };
                if same {
                    self.expanded_payload_id = None;
                } else {
                    self.expanded_payload_id = Some(id);
                    self.search_query = String::new();
                    self.collapsed_json_lines.clear();
                }
                Effect::Nothing
            },
            Message::ToggleJsonSection(line) => {
                if self.expanded_payload_id.is_some() {
                    if self.collapsed_json_lines.contains(&line) {
                        self.collapsed_json_lines.remove(&line);
                    } else {
                        self.collapsed_json_lines.insert(line);
                    }
                    assert(self.collapsed_json_lines@ =~= toggled(st.collapsed_json_lines, line));
                }
                Effect::Nothing
            },
            Message::ClearPayloads => {
                self.storage.delete_all();
                Effect::Persist(Pending::Cleared)
            },
            Message::DeletePayload(id) => {
                if self.storage.delete(id.as_str()) {
                    Effect::Persist(Pending::Deleted(id))
                } else {
                    proof {
                        lemma_without_absent(st.storage.entries, id@);
                    }
                    Effect::Nothing
                }
            },
            Message::KeyPressed { key, shift, command } => {
                match key {
                    Key::Tab => {
                        if shift {
                            Effect::FocusPrevious
                        } else {
                            Effect::FocusNext
                        }
                    },
                    Key::Escape => {
                        self.hide_modal();
                        Effect::Nothing
                    },
                    Key::Character(text) => {
                        let chars = chars_of(text.as_str());
                        if command && chars.len() == 1 && chars[0] == ',' {
                            assert(text@ =~= seq![',']);
                            Effect::Dispatch(Message::OpenSettings)
                        } else {
                            assert(seq![','].len() == 1 && seq![','][0] == ',');
                            Effect::Nothing
                        }
                    },
                    Key::Other => Effect::Nothing,
                }
            },
            Message::OtherEvent => Effect::Nothing,
            Message::WindowMoved => Effect::SaveSettings,
            Message::WindowResized => Effect::SaveSettings,
            Message::WindowClosed => Effect::SaveSettingsAndExit,
            Message::SearchQueryChanged(query) => {
                self.search_query = query;
                Effect::Nothing
            },
            Message::HotkeyActivated(id) => {
                match self.hotkey_actions.get(&id) {
                    Some(action) => match action {
                        HotkeyAction::ShowWindow => match self.main_window_id {
                            Some(window) => Effect::GainFocus(window),
                            None => Effect::Nothing,
                        },
                        HotkeyAction::ClearPayloads => Effect::Dispatch(Message::ClearPayloads),
                    },
                    None => Effect::Nothing,
                }
            },
            Message::CaptureWindowId(id) => {
                if self.main_window_id.is_none() {
                    self.main_window_id = Some(id);
                }
                Effect::Nothing
            },
            Message::ServerHostChanged(host) => {
                self.settings.set_server_host(host);
                Effect::SaveSettings
            },
            Message::ServerPortChanged(text) => {
                let chars = chars_of(text.as_str());
                match parse_u16(chars.as_slice()) {
                    Some(port) => {
                        self.settings.set_server_port(port);
                        Effect::SaveSettings
                    },
                    None => Effect::Nothing,
                }
            },
            Message::ResetServerToDefaults => {
                self.settings.set_server_host(String::from_str("127.0.0.1"));
                self.settings.set_server_port(DEFAULT_SERVER_PORT);
                Effect::SaveSettings
            },
        }
    }

    /// Handles `message` now, and tells what is to be done outside. The
    /// clock is read only for a received payload.
    pub fn update(&mut self, message: Message<W>) -> (effect: Effect<W>)
        requires
            can_handle(old(self)@, message),
        ensures
            exists|now: i64| (final(self)@, effect) == #[trigger] step(old(self)@, message, now),
            !(message is Server) ==> forall|now: i64|
                (final(self)@, effect) == #[trigger] step(old(self)@, message, now),
    {
        let now = match &message {
            Message::Server(_) => now_millis(),
            _ => 0,
        };
        let ghost st = self@;
        proof {
            if !(message is Server) {
                assert forall|other: i64| step(st, message, other) == #[trigger] step(
                    st,
                    message,
                    now,
                ) by {}
            }
        }
        self.update_at(message, now)
    }

    /// Takes note that a pending change of the store was written, or could
    /// not be written, and tells what is to be done outside.
    pub fn persisted(&mut self, pending: Pending, saved: bool) -> (effect: Effect<W>)
        ensures
            (final(self)@, effect) == settle(old(self)@, pending, saved),
    {
        if !saved {
            return Effect::Nothing;
        }
        match pending {
            Pending::Received => {
                self.payload_list_cache = self.storage.get_all();
                self.expanded_payload_id = if self.payload_list_cache.len() > 0 {
                    Some(self.payload_list_cache[0].0.clone())
                } else {
                    None
                };
                self.collapsed_json_lines.clear();
                Effect::ScrollToTop
            },
            Pending::Cleared => {
                self.payload_list_cache = Vec::new();
                self.expanded_payload_id = None;
                self.collapsed_json_lines.clear();
                self.search_query = String::new();
                assert(pair_views(self.payload_list_cache@) =~= Seq::<(Seq<char>, Value)>::empty());
                Effect::Nothing
            },
            Pending::Deleted(id) => {
                remove_from_list(&mut self.payload_list_cache, &id);
                let was_expanded = match &self.expanded_payload_id {
                    Some(current) => *current == id,
                    None => false,
                };
                if was_expanded {
                    self.expanded_payload_id = None;
                    self.search_query = String::new();
                }
                self.collapsed_json_lines.clear();
                Effect::Nothing
            },
        }
    }
}

} // verus!
