//! The start of the program: whether WireGuard is installed, and the
//! management menu.

use vstd::prelude::*;
use crate::models::string_views;
use crate::text::owned;

verus! {

/// WireGuard counts as installed when the old parameters file or the
/// interfaces file exists.
pub fn is_installed(params_exists: bool, interfaces_file_exists: bool) -> (r: bool)
    ensures
        r == (params_exists || interfaces_file_exists),
{
    params_exists || interfaces_file_exists
}

/// An entry of the management menu.
#[derive(Clone, Copy, Debug, PartialEq, Eq, Structural)]
pub enum MenuAction {
    AddClient,
    ListClients,
    RevokeClient,
    AddInterface,
    ListInterfaces,
    RemoveInterface,
    Uninstall,
    Exit,
    Invalid,
}

/// The entries of the management menu, in order.
pub open spec fn menu_options_spec() -> Seq<Seq<char>> {
    seq![
        "Add Client"@,
        "List Clients"@,
        "Revoke Client"@,
        "Add Interface"@,
        "List Interfaces"@,
        "Remove Interface"@,
        "Uninstall WireGuard"@,
        "Exit"@,
    ]
}

/// The entries of the management menu.
pub fn menu_options() -> (r: Vec<String>)
    ensures
        string_views(r@) == menu_options_spec(),
{
    let mut r: Vec<String> = Vec::new();
    r.push(owned("Add Client"));
    r.push(owned("List Clients"));
    r.push(owned("Revoke Client"));
    r.push(owned("Add Interface"));
    r.push(owned("List Interfaces"));
    r.push(owned("Remove Interface"));
    r.push(owned("Uninstall WireGuard"));
    r.push(owned("Exit"));
    assert(string_views(r@) =~= menu_options_spec());
    r
}

/// The action of the menu entry at position `selection`.
pub open spec fn menu_action_spec(selection: int) -> MenuAction {
    if selection == 0 {
        MenuAction::AddClient
    } else if selection == 1 {
        MenuAction::ListClients
    } else if selection == 2 {
        MenuAction::RevokeClient
    } else if selection == 3 {
        MenuAction::AddInterface
    } else if selection == 4 {
        MenuAction::ListInterfaces
    } else if selection == 5 {
        MenuAction::RemoveInterface
    } else if selection == 6 {
        MenuAction::Uninstall
    } else if selection == 7 {
        MenuAction::Exit
    } else {
        MenuAction::Invalid
    }
}

/// The action of the menu entry at position `selection`.
pub fn menu_action(selection: usize) -> (r: MenuAction)
    ensures
        r == menu_action_spec(selection as int),
{
    match selection {
        0 => MenuAction::AddClient,
        1 => MenuAction::ListClients,
        2 => MenuAction::RevokeClient,
        3 => MenuAction::AddInterface,
        4 => MenuAction::ListInterfaces,
        5 => MenuAction::RemoveInterface,
        6 => MenuAction::Uninstall,
        7 => MenuAction::Exit,
        _ => MenuAction::Invalid,
    }
}

/// Whether the terminal is cleared after the action: after every action
/// but adding a client, uninstalling and leaving.
pub fn clears_after(action: MenuAction) -> (r: bool)
    ensures
        r == !(action == MenuAction::AddClient || action == MenuAction::Uninstall || action
            == MenuAction::Exit || action == MenuAction::Invalid),
{
    match action {
        MenuAction::AddClient | MenuAction::Uninstall | MenuAction::Exit | MenuAction::Invalid => false,
        _ => true,
    }
}

/// Whether the menu ends after the action: after uninstalling and leaving.
pub fn ends_menu(action: MenuAction) -> (r: bool)
    ensures
        r == (action == MenuAction::Uninstall || action == MenuAction::Exit),
{
    action == MenuAction::Uninstall || action == MenuAction::Exit
}

} // verus!
