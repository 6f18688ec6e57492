//! How the client begins and ends.

use vstd::prelude::*;
use vstd::string::StringExecFns;

use crate::model::Client;
use crate::order::texts;
use crate::packets::optional_text;
use crate::steps::{add_effect, effects_view, no_effects, Effect, EffectView};

verus! {

broadcast use vstd::string::group_string_axioms;

/// The name that a user starts with: the one that was kept, else the one that the system
/// knows them by, else a placeholder.
pub fn first_nick(kept: Option<String>, system: Option<String>) -> (res: String)
    ensures
        res@ == match (optional_text(kept), optional_text(system)) {
            (Some(name), _) => name,
            (None, Some(name)) => name,
            (None, None) => "unknown"@,
        },
{
    match kept {
        Some(name) => name,
        None => match system {
            Some(name) => name,
            None => "unknown".to_owned(),
        },
    }
}

/// The lines that greet a user.
pub fn welcome(nick: &str) -> (res: Vec<String>)
    ensures
        texts(res@) == seq![
            "Welcome, "@ + nick@,
            "To quit, type /quit"@,
            "To change your name, type"@,
            "/nick <name>"@,
            "To connect to a server, type"@,
            "/connect <ip>"@,
            ""@,
        ],
{
    let mut greeting = "Welcome, ".to_owned();
    greeting.append(nick);
    let mut lines: Vec<String> = Vec::new();
    lines.push(greeting);
    lines.push("To quit, type /quit".to_owned());
    lines.push("To change your name, type".to_owned());
    lines.push("/nick <name>".to_owned());
    lines.push("To connect to a server, type".to_owned());
    lines.push("/connect <ip>".to_owned());
    lines.push("".to_owned());
    assert(texts(lines@) =~= seq![
        "Welcome, "@ + nick@,
        "To quit, type /quit"@,
        "To change your name, type"@,
        "/nick <name>"@,
        "To connect to a server, type"@,
        "/connect <ip>"@,
        ""@,
    ]);
    lines
}

/// What is left to do when the client ends: a server that it is connected to is told.
pub fn farewell(client: &Client) -> (res: Vec<Effect>)
    ensures
        effects_view(res@) == if client.session is Some {
            seq![EffectView::Close]
        } else {
            Seq::<EffectView>::empty()
        },
{
    let mut effects = no_effects();
    if client.session.is_some() {
        add_effect(&mut effects, Effect::Close);
        assert(effects_view(effects@) =~= seq![EffectView::Close]);
    }
    effects
}

} // verus!
