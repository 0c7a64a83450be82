//! The settings a user can change: the theme and the address the server
//! listens on.

use vstd::prelude::*;
use crate::text::string_views;

verus! {

/// The settings that are kept between runs, but for the window's geometry.
#[derive(Debug, Clone)]
pub struct Settings {
    theme_name: String,
    server_host: String,
    server_port: u16,
}

/// The mathematical value of [`Settings`].
pub struct SettingsView {
    pub theme_name: Seq<char>,
    pub server_host: Seq<char>,
    pub server_port: u16,
}

impl View for Settings {
    type V = SettingsView;

    closed spec fn view(&self) -> SettingsView {
        SettingsView {
            theme_name: self.theme_name@,
            server_host: self.server_host@,
            server_port: self.server_port,
        }
    }
}

/// The port the server listens on unless told otherwise.
pub const DEFAULT_SERVER_PORT: u16 = 53821;

/// The settings of a first run.
pub open spec fn default_settings() -> SettingsView {
    SettingsView {
        theme_name: "Catppuccin Mocha"@,
        server_host: "127.0.0.1"@,
        server_port: DEFAULT_SERVER_PORT,
    }
}

/// The position of the first of `names` that equals `name`.
pub open spec fn position_of(names: Seq<Seq<char>>, name: Seq<char>) -> Option<int>
    decreases names.len(),
{
    if names.len() == 0 {
        None
    } else if names[0] == name {
        Some(0int)
    } else {
        match position_of(names.drop_first(), name) {
            Some(i) => Some(i + 1),
            None => None,
        }
    }
}

/// The position found is that of the first equal name, and none is found
/// only where no name is equal.
pub proof fn lemma_position_of(names: Seq<Seq<char>>, name: Seq<char>)
    ensures
        match position_of(names, name) {
            Some(i) => 0 <= i < names.len() && names[i] == name && forall|j: int|
                0 <= j < i ==> names[j] != name,
            None => forall|j: int| 0 <= j < names.len() ==> names[j] != name,
        },
    decreases names.len(),
{
    if names.len() > 0 && names[0] != name {
        let rest = names.drop_first();
        lemma_position_of(rest, name);
        match position_of(rest, name) {
            Some(i) => {
                assert forall|j: int| 0 <= j < i + 1 implies names[j] != name by {
                    if j > 0 {
                        assert(names[j] == rest[j - 1]);
                    }
                }
            },
            None => {
                assert forall|j: int| 0 <= j < names.len() implies names[j] != name by {
                    if j > 0 {
                        assert(names[j] == rest[j - 1]);
                    }
                }
            },
        }
    }
}

/// Finds the first of `names` that equals `name`.
pub fn find_name(names: &[String], name: &String) -> (found: Option<usize>)
    ensures
        match found {
            Some(i) => position_of(string_views(names@), name@) == Some(i as int),
            None => position_of(string_views(names@), name@) is None,
        },
{
    let ghost all = string_views(names@);
    let mut i: usize = 0;
    assert(all.skip(0) =~= all);
    while i < names.len()
        invariant
            i <= names.len(),
            all == string_views(names@),
            position_of(all, name@) == match position_of(all.skip(i as int), name@) {
                Some(k) => Some(k + i),
                None => None,
            },
        decreases names.len() - i,
    {
        assert(all.skip(i as int)[0] == names@[i as int]@);
        assert(all.skip(i as int).drop_first() =~= all.skip(i + 1));
        if names[i] == *name {
            return Some(i);
        }
        i += 1;
    }
    None
}

impl Default for Settings {
    fn default() -> (out: Settings)
        ensures
            out@ == default_settings(),
    {
        Settings {
            theme_name: String::from_str("Catppuccin Mocha"),
            server_host: String::from_str("127.0.0.1"),
            server_port: DEFAULT_SERVER_PORT,
        }
    }
}

impl Settings {
    /// Settings with the given values.
    pub fn new(theme_name: String, server_host: String, server_port: u16) -> (out: Settings)
        ensures
            out@ == (SettingsView {
                theme_name: theme_name@,
                server_host: server_host@,
                server_port,
            }),
    {
        Settings { theme_name, server_host, server_port }
    }

    /// The name of the chosen theme.
    pub fn theme_name(&self) -> (name: &String)
        ensures
            name@ == self@.theme_name,
    {
        &self.theme_name
    }

    /// Which of the themes on offer is the chosen one: the first that bears
    /// its name, if any does.
    pub fn theme(&self, names: &[String]) -> (found: Option<usize>)
        ensures
            match found {
                Some(i) => position_of(string_views(names@), self@.theme_name) == Some(i as int),
                None => position_of(string_views(names@), self@.theme_name) is None,
            },
    {
        find_name(names, &self.theme_name)
    }

    /// Chooses the theme of that name.
    pub fn set_theme(&mut self, name: String)
        ensures
            final(self)@ == (SettingsView { theme_name: name@, ..old(self)@ }),
    {
        self.theme_name = name;
    }

    /// The host the server listens on.
    pub fn get_server_host(&self) -> (host: &str)
        ensures
            host@ == self@.server_host,
    {
        self.server_host.as_str()
    }

    /// The port the server listens on.
    pub fn get_server_port(&self) -> (port: u16)
        ensures
            port == self@.server_port,
    {
        self.server_port
    }

    /// Sets the host the server listens on.
    pub fn set_server_host(&mut self, host: String)
        ensures
            final(self)@ == (SettingsView { server_host: host@, ..old(self)@ }),
    {
        self.server_host = host;
    }

    /// Sets the port the server listens on.
    pub fn set_server_port(&mut self, port: u16)
        ensures
            final(self)@ == (SettingsView { server_port: port, ..old(self)@ }),
    {
        self.server_port = port;
    }
}

/// A keyboard shortcut and what it does.
#[derive(Debug)]
pub struct Shortcut {
    pub keys: String,
    pub description: String,
}

/// What the settings dialog shows.
#[derive(Debug)]
pub struct SettingsModal {
    /// The keyboard shortcuts, in the order shown.
    pub shortcuts: Vec<Shortcut>,
    /// Which of the themes on offer is marked as chosen.
    pub current_index: usize,
}

/// The shortcuts that the dialog lists, each as keys and description.
pub open spec fn shortcut_texts() -> Seq<(Seq<char>, Seq<char>)> {
    seq![
        ("Shift+Cmd+L"@, "Toggle visibility from anywhere"@),
        ("Shift+Cmd+K"@, "Clear payloads from anywhere"@),
        ("Cmd+,"@, "Open Settings"@),
    ]
}

/// The keys and the description of each shortcut.
pub open spec fn shortcut_views(v: Seq<Shortcut>) -> Seq<(Seq<char>, Seq<char>)> {
    v.map_values(|s: Shortcut| (s.keys@, s.description@))
}

/// The theme marked as chosen: the first on offer that bears the current
/// theme's name, or the first on offer where none does.
pub open spec fn chosen_index(themes: Seq<Seq<char>>, current: Seq<char>) -> int {
    match position_of(themes, current) {
        Some(i) => i,
        None => 0,
    }
}

/// Creates the content of the settings dialog: the shortcuts, and the theme
/// selection with the current theme marked.
pub fn settings_modal(current_theme: &String, themes: &[String]) -> (modal: SettingsModal)
    ensures
        shortcut_views(modal.shortcuts@) == shortcut_texts(),
        modal.current_index == chosen_index(string_views(themes@), current_theme@),
{
    let current_index = match find_name(themes, current_theme) {
        Some(i) => i,
        None => 0,
    };
    let mut shortcuts: Vec<Shortcut> = Vec::new();
    shortcuts.push(
        Shortcut {
            keys: String::from_str("Shift+Cmd+L"),
            description: String::from_str("Toggle visibility from anywhere"),
        },
    );
    shortcuts.push(
        Shortcut {
            keys: String::from_str("Shift+Cmd+K"),
            description: String::from_str("Clear payloads from anywhere"),
        },
    );
    shortcuts.push(
        Shortcut {
            keys: String::from_str("Cmd+,"),
            description: String::from_str("Open Settings"),
        },
    );
    assert(shortcut_views(shortcuts@) =~= shortcut_texts());
    SettingsModal { shortcuts, current_index }
}

} // verus!
