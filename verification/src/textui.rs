//! Text helpers of the UI layer: the greeting, label truncation, and the
//! routing of tray menu events to actions.

use vstd::prelude::*;

verus! {

/// The greeting returned for a name.
pub fn greet(name: &str) -> (r: String)
    ensures
        r@ == "Hello, "@ + name@ + "! Welcome to Vibing2 Desktop."@,
{
    let mut out = String::from_str("Hello, ");
    out.append(name);
    out.append("! Welcome to Vibing2 Desktop.");
    proof {
        assert(out@ =~= "Hello, "@ + name@ + "! Welcome to Vibing2 Desktop."@);
    }
    out
}

/// A text cut to at most `max` characters: longer texts keep their first
/// `max - 3` characters and end in an ellipsis.
pub open spec fn truncate_chars(s: Seq<char>, max: int) -> Seq<char> {
    if s.len() <= max {
        s
    } else {
        s.subrange(0, if max >= 3 { max - 3 } else { 0 }) + "..."@
    }
}

/// Cuts a string to at most `max_len` characters, with an ellipsis when
/// it was longer.
pub fn truncate_string(s: &str, max_len: usize) -> (r: String)
    ensures
        r@ == truncate_chars(s@, max_len as int),
{
    let n = s.unicode_len();
    if n <= max_len {
        s.to_owned()
    } else {
        let cut = if max_len >= 3 {
            max_len - 3
        } else {
            0
        };
        let head = s.substring_char(0, cut);
        let mut out = String::from_str(head);
        out.append("...");
        proof {
            assert(out@ =~= truncate_chars(s@, max_len as int));
        }
        out
    }
}

/// The label of a recent-projects menu entry: the name cut to 40
/// characters, and, when a description exists, a dash and the
/// description cut to 30.
pub fn menu_label(name: &str, description: Option<&str>) -> (r: String)
    ensures
        match description {
            Some(d) => r@ == truncate_chars(name@, 40) + " - "@ + truncate_chars(d@, 30),
            None => r@ == truncate_chars(name@, 40),
        },
{
    let mut out = truncate_string(name, 40);
    match description {
        Some(d) => {
            out.append(" - ");
            let tail = truncate_string(d, 30);
            out.append(tail.as_str());
            proof {
                assert(out@ =~= truncate_chars(name@, 40) + " - "@ + truncate_chars(d@, 30));
            }
        }
        None => {}
    }
    out
}

/// The menu identifier of the window toggle.
pub fn menu_show_hide() -> (r: &'static str)
    ensures
        r@ == "show_hide"@,
{
    "show_hide"
}

/// The menu identifier of project creation.
pub fn menu_new_project() -> (r: &'static str)
    ensures
        r@ == "new_project"@,
{
    "new_project"
}

/// The menu identifier of the settings page.
pub fn menu_settings() -> (r: &'static str)
    ensures
        r@ == "settings"@,
{
    "settings"
}

/// The menu identifier of the update check.
pub fn menu_check_updates() -> (r: &'static str)
    ensures
        r@ == "check_updates"@,
{
    "check_updates"
}

/// The menu identifier of the about dialog.
pub fn menu_about() -> (r: &'static str)
    ensures
        r@ == "about"@,
{
    "about"
}

/// The prefix of recent-project menu identifiers.
pub fn menu_recent_prefix() -> (r: &'static str)
    ensures
        r@ == "recent_"@,
{
    "recent_"
}

/// What a tray menu event asks for.
#[derive(Debug)]
pub enum MenuAction {
    ShowHide,
    NewProject,
    OpenSettings,
    CheckUpdates,
    About,
    LoadRecent(String),
    Ignore,
}

pub ghost enum MenuActionV {
    ShowHide,
    NewProject,
    OpenSettings,
    CheckUpdates,
    About,
    LoadRecent(Seq<char>),
    Ignore,
}

impl View for MenuAction {
    type V = MenuActionV;

    open spec fn view(&self) -> MenuActionV {
        match self {
            MenuAction::ShowHide => MenuActionV::ShowHide,
            MenuAction::NewProject => MenuActionV::NewProject,
            MenuAction::OpenSettings => MenuActionV::OpenSettings,
            MenuAction::CheckUpdates => MenuActionV::CheckUpdates,
            MenuAction::About => MenuActionV::About,
            MenuAction::LoadRecent(id) => MenuActionV::LoadRecent(id@),
            MenuAction::Ignore => MenuActionV::Ignore,
        }
    }
}

/// The action a menu identifier routes to: the fixed identifiers first,
/// then the recent-project prefix with the project identifier behind it,
/// and nothing for anything else.
pub open spec fn route_menu_event_model(id: Seq<char>) -> MenuActionV {
    if id == "show_hide"@ {
        MenuActionV::ShowHide
    } else if id == "new_project"@ {
        MenuActionV::NewProject
    } else if id == "settings"@ {
        MenuActionV::OpenSettings
    } else if id == "check_updates"@ {
        MenuActionV::CheckUpdates
    } else if id == "about"@ {
        MenuActionV::About
    } else if id.len() >= 7 && id.subrange(0, 7) == "recent_"@ {
        MenuActionV::LoadRecent(id.subrange(7, id.len() as int))
    } else {
        MenuActionV::Ignore
    }
}

/// Routes one tray menu event.
pub fn route_menu_event(id: &str) -> (r: MenuAction)
    ensures
        r@ == route_menu_event_model(id@),
{
    let ids = String::from_str(id);
    if ids == String::from_str("show_hide") {
        MenuAction::ShowHide
    } else if ids == String::from_str("new_project") {
        MenuAction::NewProject
    } else if ids == String::from_str("settings") {
        MenuAction::OpenSettings
    } else if ids == String::from_str("check_updates") {
        MenuAction::CheckUpdates
    } else if ids == String::from_str("about") {
        MenuAction::About
    } else {
        let n = id.unicode_len();
        if n >= 7 {
            let head = id.substring_char(0, 7);
            let heads = String::from_str(head);
            if heads == String::from_str("recent_") {
                let tail = id.substring_char(7, n);
                MenuAction::LoadRecent(String::from_str(tail))
            } else {
                MenuAction::Ignore
            }
        } else {
            MenuAction::Ignore
        }
    }
}

} // verus!
