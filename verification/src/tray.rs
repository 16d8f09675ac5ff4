use vstd::prelude::*;
use vstd::string::*;

use crate::text::{push_signed_decimal, signed_decimal, str_eq};

verus! {

/// The tray tooltip when no rate-limit bucket is known: today's tokens and the feed's state.
pub fn usage_tooltip(today_tokens: i64, state: &str) -> (tip: String)
    ensures
        tip@ == "Codex usage: "@ + signed_decimal(today_tokens as int) + " tokens today ("@ + state@ + ")"@,
{
    let mut tip = String::from_str("Codex usage: ");
    push_signed_decimal(&mut tip, today_tokens);
    tip.append(" tokens today (");
    tip.append(state);
    tip.append(")");
    tip
}


/// An entry of the tray menu.
#[derive(Clone, Copy, Debug, PartialEq, Eq, Structural)]
pub enum TrayCommand {
    OpenDashboard,
    Refresh,
    ToggleBadge,
    Quit,
}

/// The id under which a menu entry is registered.
pub open spec fn command_id(c: TrayCommand) -> Seq<char> {
    match c {
        TrayCommand::OpenDashboard => "open"@,
        TrayCommand::Refresh => "refresh"@,
        TrayCommand::ToggleBadge => "badge"@,
        TrayCommand::Quit => "quit"@,
    }
}

/// The menu entry registered under an id, if any.
pub open spec fn command_for(id: Seq<char>) -> Option<TrayCommand> {
    if id == "open"@ {
        Some(TrayCommand::OpenDashboard)
    } else if id == "refresh"@ {
        Some(TrayCommand::Refresh)
    } else if id == "badge"@ {
        Some(TrayCommand::ToggleBadge)
    } else if id == "quit"@ {
        Some(TrayCommand::Quit)
    } else {
        None
    }
}

impl TrayCommand {
    /// The menu entries, in the order the menu shows them.
    pub fn all() -> (cs: Vec<TrayCommand>)
        ensures
            cs@ == seq![TrayCommand::OpenDashboard, TrayCommand::Refresh, TrayCommand::ToggleBadge, TrayCommand::Quit],
    {
        vec![TrayCommand::OpenDashboard, TrayCommand::Refresh, TrayCommand::ToggleBadge, TrayCommand::Quit]
    }

    /// The id under which the entry is registered.
    pub fn id(&self) -> (s: &'static str)
        ensures
            s@ == command_id(*self),
    {
        match self {
            TrayCommand::OpenDashboard => "open",
            TrayCommand::Refresh => "refresh",
            TrayCommand::ToggleBadge => "badge",
            TrayCommand::Quit => "quit",
        }
    }

    /// The text the entry shows.
    pub fn label(&self) -> (s: &'static str)
        ensures
            s@ == match self {
                TrayCommand::OpenDashboard => "Open Dashboard"@,
                TrayCommand::Refresh => "Refresh Now"@,
                TrayCommand::ToggleBadge => "Toggle Badge"@,
                TrayCommand::Quit => "Quit"@,
            },
    {
        match self {
            TrayCommand::OpenDashboard => "Open Dashboard",
            TrayCommand::Refresh => "Refresh Now",
            TrayCommand::ToggleBadge => "Toggle Badge",
            TrayCommand::Quit => "Quit",
        }
    }
}

/// The menu entry that a menu event's id names; events with other ids are ignored.
pub fn tray_menu_command(id: &str) -> (c: Option<TrayCommand>)
    ensures
        c == command_for(id@),
{
    if str_eq(id, "open") {
        Some(TrayCommand::OpenDashboard)
    } else if str_eq(id, "refresh") {
        Some(TrayCommand::Refresh)
    } else if str_eq(id, "badge") {
        Some(TrayCommand::ToggleBadge)
    } else if str_eq(id, "quit") {
        Some(TrayCommand::Quit)
    } else {
        None
    }
}

/// Every menu entry is found again from its id.
pub proof fn lemma_menu_ids_round_trip(c: TrayCommand)
    ensures
        command_for(command_id(c)) == Some(c),
{
    reveal_strlit("open");
    reveal_strlit("refresh");
    reveal_strlit("badge");
    reveal_strlit("quit");
    assert("open"@[0] == 'o');
    assert("refresh"@[0] == 'r');
    assert("badge"@[0] == 'b');
    assert("quit"@[0] == 'q');
}

} // verus!
