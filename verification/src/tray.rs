use vstd::prelude::*;
use crate::text::{chars_of, has_prefix, push_str, starts_with, string_of};

verus! {

/// What a click on an entry of the tray menu asks for.
pub enum TrayAction {
    /// Ask the user to confirm quitting.
    Quit,
    /// Show the main window.
    Show,
    /// Show the command with this id.
    OpenCommand(String),
    /// Nothing.
    Ignore,
}

/// What a click on an entry of the application menu asks for.
pub enum AppMenuAction {
    /// Ask the user to confirm quitting.
    ConfirmQuit,
    /// Hide the main window.
    Hide,
    /// Nothing.
    Ignore,
}

/// The id of the tray menu entry of command `id`.
pub open spec fn command_item_id(id: Seq<char>) -> Seq<char> {
    "cmd:"@ + id
}

/// The id of the tray menu entry of command `id`.
pub fn menu_item_id(id: &str) -> (res: String)
    ensures
        res@ == command_item_id(id@),
{
    let mut s = String::new();
    push_str(&mut s, "cmd:");
    push_str(&mut s, id);
    s
}

/// What a click on the tray menu entry `item` asks for: `quit`, `show`, or a
/// command entry `cmd:<id>`.
pub open spec fn tray_action_spec(item: Seq<char>) -> Option<Seq<char>> {
    if has_prefix(item, "cmd:"@) {
        Some(item.skip(4))
    } else {
        None
    }
}

/// What a click on the tray menu entry `item` asks for.
pub fn tray_action(item: &str) -> (res: TrayAction)
    ensures
        item@ == "quit"@ ==> res is Quit,
        item@ == "show"@ ==> res is Show,
        item@ != "quit"@ && item@ != "show"@ ==> match tray_action_spec(item@) {
            Some(id) => res matches TrayAction::OpenCommand(s) && s@ == id,
            None => res is Ignore,
        },
{
    proof {
        reveal_strlit("quit");
        reveal_strlit("show");
        assert("show"@[0] != "quit"@[0]);
    }
    let v = chars_of(item);
    let s = string_of(&v, 0, v.len());
    assert(v@.subrange(0, v@.len() as int) =~= item@);
    if s == "quit".to_owned() {
        TrayAction::Quit
    } else if s == "show".to_owned() {
        TrayAction::Show
    } else if starts_with(item, "cmd:") {
        proof {
            reveal_strlit("cmd:");
        }
        let rest = string_of(&v, 4, v.len());
        assert(v@.subrange(4, v@.len() as int) =~= item@.skip(4));
        TrayAction::OpenCommand(rest)
    } else {
        TrayAction::Ignore
    }
}

/// What a click on the application menu entry `item` asks for.
pub fn app_menu_action(item: &str) -> (res: AppMenuAction)
    ensures
        item@ == "app-quit"@ ==> res is ConfirmQuit,
        item@ == "app-hide"@ ==> res is Hide,
        item@ != "app-quit"@ && item@ != "app-hide"@ ==> res is Ignore,
{
    proof {
        reveal_strlit("app-quit");
        reveal_strlit("app-hide");
        assert("app-hide"@[4] != "app-quit"@[4]);
    }
    let v = chars_of(item);
    let s = string_of(&v, 0, v.len());
    assert(v@.subrange(0, v@.len() as int) =~= item@);
    if s == "app-quit".to_owned() {
        AppMenuAction::ConfirmQuit
    } else if s == "app-hide".to_owned() {
        AppMenuAction::Hide
    } else {
        AppMenuAction::Ignore
    }
}

} // verus!
