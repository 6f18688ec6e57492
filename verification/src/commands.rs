//! What the lines that a user types ask for.

use std::collections::HashMap;

use vstd::prelude::*;
use vstd::string::{StrSliceExecFns, StringExecFns};

use crate::address::{address_of, parse_addr};
use crate::dialogue::{prompt_text, prompts};
use crate::keys::{is_new_pair, may_not_make, new_pair, KeyPair};
use crate::listing::{
    channel_list, info, list_channels, list_users, shows_info, user_list,
};
use crate::model::{
    entry, find_user, finds_user, walk, walks, Channel, Client, Session, User,
};
use crate::order::texts;
use crate::packets::{optional_text, Packet, PacketView, Protocol};
use crate::permissions::Permissions;
use crate::steps::{
    add_effect, add_line, do_nothing, effects_view, no_effects, nothing, optional_prompt, say, says,
    send, sends, Effect, EffectView, ModePrompt, ModePromptView, Next, NextView, Purpose, Question,
    QuestionView, Step, StepView,
};
use crate::text::{
    bytes_of, chars_of, from_utf8_lossy, lossy_text, number_of, parse_number, replace, replaced,
    same_text, text_of,
};

verus! {

broadcast use {vstd::std_specs::hash::group_hash_axioms, vstd::string::group_string_axioms};

/// What a line that the user typed is.
#[derive(Debug, PartialEq, Eq)]
pub enum Line {
    /// Nothing.
    Empty,
    /// A command to the client, without its slash.
    Command(String),
    /// A command to a bot, without its exclamation mark.
    Bot(String),
    /// Something to say.
    Text,
}

/// Tells what a line is by its first character.
pub fn classify(input: &str) -> (res: Line)
    ensures
        match res {
            Line::Empty => input@.len() == 0,
            Line::Command(rest) => input@.len() > 0 && input@[0] == '/' && rest@ == input@.skip(1),
            Line::Bot(rest) => input@.len() > 0 && input@[0] == '!' && rest@ == input@.skip(1),
            Line::Text => input@.len() > 0 && input@[0] != '/' && input@[0] != '!',
        },
{
    let chars = chars_of(input);
    if chars.len() == 0 {
        return Line::Empty;
    }
    let first = chars[0];
    if first == '/' || first == '!' {
        let behind = vstd::slice::slice_subrange(chars.as_slice(), 1, chars.len());
        assert(behind@ =~= input@.skip(1));
        let rest = text_of(behind);
        if first == '/' {
            Line::Command(rest)
        } else {
            Line::Bot(rest)
        }
    } else {
        Line::Text
    }
}

/// A command needs a connection.
pub open spec fn not_connected() -> StepView {
    says("You're not connected to a server"@)
}

/// A name without the mark of a channel, if it has one.
pub open spec fn unmarked(name: Seq<char>) -> Seq<char> {
    if name.len() > 0 && name[0] == '#' {
        name.skip(1)
    } else {
        name
    }
}

/// Takes the mark of a channel off a name.
fn unmark(name: &str) -> (res: String)
    ensures
        res@ == unmarked(name@),
{
    let chars = chars_of(name);
    if chars.len() > 0 && chars[0] == '#' {
        let behind = vstd::slice::slice_subrange(chars.as_slice(), 1, chars.len());
        assert(behind@ =~= name@.skip(1));
        text_of(behind)
    } else {
        name.to_owned()
    }
}

/// The number that a text gives for something the server knows.
pub open spec fn id_of(text: Seq<char>) -> Option<usize> {
    match number_of(text) {
        Some(n) => if n <= usize::MAX {
            Some(n as usize)
        } else {
            None
        },
        None => None,
    }
}

/// Reads the number of something the server knows.
fn parse_id(text: &str) -> (res: Option<usize>)
    ensures
        res == id_of(text@),
{
    match parse_number(text, usize::MAX as u64) {
        Some(n) => Some(n as usize),
        None => None,
    }
}

/// What banning or unbanning asks for, once the user was looked up.
pub open spec fn ban_step(ban: bool, found: Option<User>) -> StepView {
    match found {
        Some(user) => sends(
            PacketView::UserUpdate {
                admin: None,
                ban: Some(ban),
                channel_mode: None,
                id: user.id,
            },
        ),
        None => says("No such user"@),
    }
}

/// Whether a step may follow from `/ban` or `/unban`.
pub open spec fn bans(
    session: Option<Session>,
    ban: bool,
    args: Seq<Seq<char>>,
    step: StepView,
) -> bool {
    if args.len() != 1 {
        step == says("Usage: /ban/unban <user>"@)
    } else {
        match session {
            Some(session) => exists|found: Option<User>|
                finds_user(session.state.users@, args[0], found) && step == #[trigger] ban_step(
                    ban,
                    found,
                ),
            None => step == not_connected(),
        }
    }
}

fn run_ban(session: &Option<Session>, ban: bool, args: &Vec<String>) -> (res: Step)
    ensures
        bans(*session, ban, texts(args@), res@),
{
    if args.len() != 1 {
        return say("Usage: /ban/unban <user>");
    }
    match session {
        Some(session) => {
            let found = find_user(&session.state.users, args[0].as_str());
            let res = match found {
                Some(user) => send(
                    Packet::UserUpdate {
                        admin: None,
                        ban: Some(ban),
                        channel_mode: None,
                        id: user.id,
                    },
                ),
                None => say("No such user"),
            };
            let ghost view = match found {
                Some(user) => Some(*user),
                None => None,
            };
            assert(res@ == ban_step(ban, view));
            res
        },
        None => say("You're not connected to a server"),
    }
}

/// An address is to be looked up.
pub open spec fn looks_up(host: Seq<char>, port: u16, purpose: Purpose) -> StepView {
    StepView { effects: seq![], next: NextView::Resolve { host, port, purpose } }
}

/// Looks an address up.
fn look_up(host: String, port: u16, purpose: Purpose) -> (res: Step)
    ensures
        res@ == looks_up(host@, port, purpose),
{
    let res = Step { effects: no_effects(), next: Next::Resolve { host, port, purpose } };
    assert(res@ =~= looks_up(host@, port, purpose));
    res
}

/// What follows from `/connect`.
pub open spec fn connect_step(
    connected: bool,
    default_port: u16,
    args: Seq<Seq<char>>,
) -> StepView {
    if args.len() != 1 {
        says("Usage: /connect <ip[:port]>"@)
    } else if connected {
        says("You have to disconnect before doing that."@)
    } else {
        match address_of(args[0], default_port) {
            Some((host, port)) => looks_up(host, port, Purpose::Connect),
            None => says("Could not parse IP"@),
        }
    }
}

fn run_connect(connected: bool, default_port: u16, args: &Vec<String>) -> (res: Step)
    ensures
        res@ == connect_step(connected, default_port, texts(args@)),
{
    if args.len() != 1 {
        return say("Usage: /connect <ip[:port]>");
    }
    if connected {
        return say("You have to disconnect before doing that.");
    }
    assert(texts(args@)[0] == args@[0]@);
    match parse_addr(args[0].as_str(), default_port) {
        Some((host, port)) => look_up(host, port, Purpose::Connect),
        None => say("Could not parse IP"),
    }
}

/// What follows from `/forget`.
pub open spec fn forget_step(default_port: u16, args: Seq<Seq<char>>) -> StepView {
    if args.len() != 1 {
        says("Usage: /forget <ip>"@)
    } else {
        match address_of(args[0], default_port) {
            Some((host, port)) => looks_up(host, port, Purpose::Forget),
            None => says("Invalid IP"@),
        }
    }
}

fn run_forget(default_port: u16, args: &Vec<String>) -> (res: Step)
    ensures
        res@ == forget_step(default_port, texts(args@)),
{
    if args.len() != 1 {
        return say("Usage: /forget <ip>");
    }
    assert(texts(args@)[0] == args@[0]@);
    match parse_addr(args[0].as_str(), default_port) {
        Some((host, port)) => look_up(host, port, Purpose::Forget),
        None => say("Invalid IP"),
    }
}

/// What follows once an address was looked up, or was not found.
pub open spec fn resolved_step(purpose: Purpose, address: Option<Seq<char>>) -> StepView {
    match (purpose, address) {
        (Purpose::Connect, Some(address)) => StepView {
            effects: seq![EffectView::Connect(address)],
            next: NextView::Ready,
        },
        (Purpose::Connect, None) => says("Could not parse IP"@),
        (Purpose::Forget, Some(address)) => StepView {
            effects: seq![EffectView::Forget(address)],
            next: NextView::Ready,
        },
        (Purpose::Forget, None) => says("Invalid IP"@),
    }
}

/// Goes on once an address was looked up.
pub fn resolved(purpose: Purpose, address: Option<String>) -> (res: Step)
    ensures
        res@ == resolved_step(purpose, optional_text(address)),
{
    let mut effects = no_effects();
    match (purpose, address) {
        (Purpose::Connect, Some(address)) => {
            add_effect(&mut effects, Effect::Connect(address));
        },
        (Purpose::Connect, None) => {
            return say("Could not parse IP");
        },
        (Purpose::Forget, Some(address)) => {
            add_effect(&mut effects, Effect::Forget(address));
        },
        (Purpose::Forget, None) => {
            return say("Invalid IP");
        },
    }
    let res = Step { effects, next: Next::Ready };
    assert(res@ =~= resolved_step(purpose, optional_text(address)));
    res
}

/// What follows from `/create`.
pub open spec fn create_step(
    connected: bool,
    perms: Permissions,
    args: Seq<Seq<char>>,
) -> StepView {
    if args.len() < 2 {
        says("Usage: /create <\"channel\"/\"group\"> <name> [data]"@)
    } else if !connected {
        not_connected()
    } else if args[0] == "channel"@ {
        if args.len() > 2 {
            says("Usage: /create channel <name>"@)
        } else {
            sends(
                PacketView::ChannelCreate {
                    default_mode_bot: 0,
                    default_mode_user: perms.read | perms.write,
                    name: unmarked(args[1]),
                    recipient: None,
                },
            )
        }
    } else {
        says("Unable to create that"@)
    }
}

fn run_create(connected: bool, perms: &Permissions, args: &Vec<String>) -> (res: Step)
    ensures
        res@ == create_step(connected, *perms, texts(args@)),
{
    if args.len() < 2 {
        return say("Usage: /create <\"channel\"/\"group\"> <name> [data]");
    }
    if !connected {
        return say("You're not connected to a server");
    }
    assert(texts(args@)[0] == args@[0]@);
    assert(texts(args@)[1] == args@[1]@);
    if same_text(args[0].as_str(), "channel") {
        if args.len() > 2 {
            return say("Usage: /create channel <name>");
        }
        send(
            Packet::ChannelCreate {
                default_mode_bot: 0,
                default_mode_user: perms.read | perms.write,
                name: unmark(args[1].as_str()),
                recipient: None,
            },
        )
    } else {
        say("Unable to create that")
    }
}

/// What follows from `/delete`.
pub open spec fn delete_step(session: Option<Session>, args: Seq<Seq<char>>) -> StepView {
    if args.len() != 2 {
        says("Usage: /delete <\"channel\"/\"message\"> <id>"@)
    } else {
        match session {
            None => not_connected(),
            Some(session) => match id_of(args[1]) {
                None => says("Failed to parse ID"@),
                Some(id) => if args[0] == "channel"@ {
                    if session.state.channels@.contains_key(id) {
                        sends(PacketView::ChannelDelete { id })
                    } else {
                        says("Nothing with that ID exists"@)
                    }
                } else if args[0] == "message"@ {
                    sends(PacketView::MessageDelete { id })
                } else {
                    says("Unable to delete that"@)
                },
            },
        }
    }
}

fn run_delete(session: &Option<Session>, args: &Vec<String>) -> (res: Step)
    ensures
        res@ == delete_step(*session, texts(args@)),
{
    if args.len() != 2 {
        return say("Usage: /delete <\"channel\"/\"message\"> <id>");
    }
    assert(texts(args@)[0] == args@[0]@);
    assert(texts(args@)[1] == args@[1]@);
    match session {
        None => say("You're not connected to a server"),
        Some(session) => match parse_id(args[1].as_str()) {
            None => say("Failed to parse ID"),
            Some(id) => {
                if same_text(args[0].as_str(), "channel") {
                    if session.state.channels.contains_key(&id) {
                        send(Packet::ChannelDelete { id })
                    } else {
                        say("Nothing with that ID exists")
                    }
                } else if same_text(args[0].as_str(), "message") {
                    send(Packet::MessageDelete { id })
                } else {
                    say("Unable to delete that")
                }
            },
        },
    }
}

/// Whether a lookup by name may give `found`: a channel of that name, or nothing if there
/// is none. Where two channels share the name, either may be found.
pub open spec fn finds_channel(
    channels: Map<usize, Channel>,
    name: Seq<char>,
    found: Option<Channel>,
) -> bool {
    match found {
        Some(channel) => channel.name@ == name && exists|k: usize|
            channels.contains_key(k) && #[trigger] channels[k] == channel,
        None => forall|k: usize|
            channels.contains_key(k) ==> (#[trigger] channels[k]).name@ != name,
    }
}

/// Looks a channel up by name.
fn find_channel<'a>(channels: &'a HashMap<usize, Channel>, name: &str) -> (res: Option<&'a Channel>)
    ensures
        finds_channel(
            channels@,
            name@,
            match res {
                Some(channel) => Some(*channel),
                None => None,
            },
        ),
{
    let order = walk(channels);
    for i in 0..order.len()
        invariant
            walks(channels@, order@),
            forall|j: int| 0 <= j < i ==> (#[trigger] channels@[order@[j]]).name@ != name@,
    {
        assert(order@.contains(order@[i as int]));
        let channel = entry(channels, order[i]);
        if same_text(channel.name.as_str(), name) {
            return Some(channel);
        }
    }
    proof {
        assert forall|k: usize| channels@.contains_key(k) implies (#[trigger] channels@[k]).name@
            != name@ by {
            assert(order@.contains(k));
            let j = choose|j: int| 0 <= j < order@.len() && order@[j] == k;
            assert(channels@[order@[j]].name@ != name@);
        }
    }
    None
}

/// The request for the newest messages of a channel.
pub open spec fn newest_messages(channel: usize, limit: usize) -> PacketView {
    PacketView::MessageList { after: None, before: None, channel, limit }
}

/// A channel is entered: the log starts anew, and the newest messages are asked for.
pub open spec fn enters(channel: usize, line: Seq<char>, limit: usize) -> StepView {
    StepView {
        effects: seq![
            EffectView::Clear,
            EffectView::Log(line),
            EffectView::Send(newest_messages(channel, limit)),
        ],
        next: NextView::Ready,
    }
}

/// Enters a channel.
fn enter(channel: usize, line: String, limit: usize) -> (res: Step)
    ensures
        res@ == enters(channel, line@, limit),
{
    let mut effects = no_effects();
    add_effect(&mut effects, Effect::Clear);
    add_effect(&mut effects, Effect::Log(line));
    add_effect(
        &mut effects,
        Effect::Send(Packet::MessageList { after: None, before: None, channel, limit }),
    );
    let res = Step { effects, next: Next::Ready };
    assert(res@ =~= enters(channel, line@, limit));
    res
}

/// A session in which the user is in another channel.
pub open spec fn in_channel(session: Session, channel: usize) -> Session {
    Session { channel: Some(channel), ..session }
}

/// What `/join` does, once the channel was looked up: to the session, and the step.
pub open spec fn join_outcome(
    session: Session,
    limit: usize,
    found: Option<Channel>,
) -> (Session, StepView) {
    match found {
        Some(channel) => (
            in_channel(session, channel.id),
            enters(channel.id, "Joined channel #"@ + channel.name@, limit),
        ),
        None => (session, says("No channel found with that name"@)),
    }
}

/// Whether `/join` may turn one session into another with a step.
pub open spec fn joins(
    before: Option<Session>,
    limit: usize,
    args: Seq<Seq<char>>,
    after: Option<Session>,
    step: StepView,
) -> bool {
    if args.len() != 1 {
        after == before && step == says("Usage: /join <channel>"@)
    } else {
        match before {
            Some(session) => exists|found: Option<Channel>|
                {
                    &&& finds_channel(session.state.channels@, unmarked(args[0]), found)
                    &&& after == Some((#[trigger] join_outcome(session, limit, found)).0)
                    &&& step == join_outcome(session, limit, found).1
                },
            None => after == before && step == not_connected(),
        }
    }
}

fn run_join(client: &mut Client, limit: usize, args: &Vec<String>) -> (res: Step)
    ensures
        final(client).connector == old(client).connector,
        joins(old(client).session, limit, texts(args@), final(client).session, res@),
{
    if args.len() != 1 {
        return say("Usage: /join <channel>");
    }
    assert(texts(args@)[0] == args@[0]@);
    match client.session.take() {
        Some(session) => {
            let name = unmark(args[0].as_str());
            let mut session = session;
            let ghost before = session;
            let found = find_channel(&session.state.channels, name.as_str());
            let ghost view = match found {
                Some(channel) => Some(*channel),
                None => None,
            };
            let res: Step;
            let mut channel_id: Option<usize> = None;
            match found {
                Some(channel) => {
                    let mut line = "Joined channel #".to_owned();
                    line.append(channel.name.as_str());
                    channel_id = Some(channel.id);
                    res = enter(channel.id, line, limit);
                },
                None => {
                    res = say("No channel found with that name");
                },
            }
            if channel_id.is_some() {
                session.channel = channel_id;
            }
            client.session = Some(session);
            proof {
                assert(finds_channel(before.state.channels@, unmarked(texts(args@)[0]), view));
                assert(session == join_outcome(before, limit, view).0);
                assert(res@ == join_outcome(before, limit, view).1);
            }
            res
        },
        None => say("You're not connected to a server"),
    }
}

/// A private channel with a user is asked for. The user has to repeat the command to enter
/// it.
pub open spec fn creates_private(user: usize) -> StepView {
    StepView {
        effects: seq![
            EffectView::SendOrStop(
                PacketView::ChannelCreate {
                    default_mode_bot: 0,
                    default_mode_user: 0,
                    name: seq![],
                    recipient: Some(user),
                },
            ),
            EffectView::Log("Creating channel with <user>..."@),
            EffectView::Log("Type command again to switch to it."@),
        ],
        next: NextView::Ready,
    }
}

/// Asks for a private channel with a user.
fn create_private(user: usize) -> (res: Step)
    ensures
        res@ == creates_private(user),
{
    let packet = Packet::ChannelCreate {
        default_mode_bot: 0,
        default_mode_user: 0,
        name: String::new(),
        recipient: Some(user),
    };
    let mut effects = no_effects();
    add_effect(&mut effects, Effect::SendOrStop(packet));
    add_line(&mut effects, "Creating channel with <user>...");
    add_line(&mut effects, "Type command again to switch to it.");
    let res = Step { effects, next: Next::Ready };
    assert(res@ =~= creates_private(user));
    res
}

/// What `/msg` does, once the user was looked up: to the session, and the step.
pub open spec fn msg_outcome(session: Session, limit: usize, found: Option<User>) -> (
    Session,
    StepView,
) {
    match found {
        Some(user) => match user.private_channel {
            Some(channel) => (
                in_channel(session, channel),
                enters(channel, "Joined private channel"@, limit),
            ),
            None => (session, creates_private(user.id)),
        },
        None => (session, says("No such user"@)),
    }
}

/// Whether `/msg` may turn one session into another with a step.
pub open spec fn messages(
    before: Option<Session>,
    limit: usize,
    args: Seq<Seq<char>>,
    after: Option<Session>,
    step: StepView,
) -> bool {
    if args.len() != 1 {
        after == before && step == says("Usage: /msg <user>"@)
    } else {
        match before {
            Some(session) => exists|found: Option<User>|
                {
                    &&& finds_user(session.state.users@, args[0], found)
                    &&& after == Some((#[trigger] msg_outcome(session, limit, found)).0)
                    &&& step == msg_outcome(session, limit, found).1
                },
            None => after == before && step == not_connected(),
        }
    }
}

fn run_msg(client: &mut Client, limit: usize, args: &Vec<String>) -> (res: Step)
    ensures
        final(client).connector == old(client).connector,
        messages(old(client).session, limit, texts(args@), final(client).session, res@),
{
    if args.len() != 1 {
        return say("Usage: /msg <user>");
    }
    assert(texts(args@)[0] == args@[0]@);
    match client.session.take() {
        Some(session) => {
            let mut session = session;
            let ghost before = session;
            let found = find_user(&session.state.users, args[0].as_str());
            let ghost view = match found {
                Some(user) => Some(*user),
                None => None,
            };
            let res: Step;
            let mut channel_id: Option<usize> = None;
            match found {
                Some(user) => match user.private_channel {
                    Some(channel) => {
                        channel_id = Some(channel);
                        res = enter(channel, "Joined private channel".to_owned(), limit);
                    },
                    None => {
                        res = create_private(user.id);
                    },
                },
                None => {
                    res = say("No such user");
                },
            }
            if channel_id.is_some() {
                session.channel = channel_id;
            }
            client.session = Some(session);
            proof {
                assert(session == msg_outcome(before, limit, view).0);
                assert(res@ == msg_outcome(before, limit, view).1);
            }
            res
        },
        None => say("You're not connected to a server"),
    }
}

/// What follows from `/nick` with a name: it is remembered and, with a session, the server
/// is told.
pub open spec fn nick_step(connected: bool, name: Seq<char>) -> StepView {
    StepView {
        effects: seq![EffectView::SaveNick(name)] + (if connected {
            seq![
                EffectView::Send(
                    PacketView::LoginUpdate {
                        name: Some(name),
                        password_current: None,
                        password_new: None,
                        reset_token: false,
                    },
                ),
            ]
        } else {
            seq![]
        }) + seq![EffectView::Log("Your name is now "@ + name)],
        next: NextView::Ready,
    }
}

/// Whether `/nick` turns one client into another with a step.
pub open spec fn renames(
    before: Client,
    args: Seq<Seq<char>>,
    after: Client,
    step: StepView,
) -> bool {
    &&& after.session == before.session
    &&& if args.len() != 1 {
        after.connector == before.connector && step == says("Usage: /nick <name>"@)
    } else {
        after.connector.nick@ == args[0] && step == nick_step(before.session is Some, args[0])
    }
}

fn run_nick(client: &mut Client, args: &Vec<String>) -> (res: Step)
    ensures
        renames(*old(client), texts(args@), *final(client), res@),
{
    if args.len() != 1 {
        return say("Usage: /nick <name>");
    }
    assert(texts(args@)[0] == args@[0]@);
    let name = args[0].clone();
    let mut effects = no_effects();
    add_effect(&mut effects, Effect::SaveNick(name.clone()));
    if client.session.is_some() {
        add_effect(
            &mut effects,
            Effect::Send(
                Packet::LoginUpdate {
                    name: Some(name.clone()),
                    password_current: None,
                    password_new: None,
                    reset_token: false,
                },
            ),
        );
    }
    let mut line = "Your name is now ".to_owned();
    line.append(name.as_str());
    add_effect(&mut effects, Effect::Log(line));
    client.connector.nick = name;
    let res = Step { effects, next: Next::Ready };
    assert(res@ =~= nick_step(old(client).session is Some, texts(args@)[0]));
    res
}

/// Whether `/disconnect` turns one session into another with a step.
pub open spec fn disconnects(
    before: Option<Session>,
    args: Seq<Seq<char>>,
    after: Option<Session>,
    step: StepView,
) -> bool {
    if args.len() != 0 {
        after == before && step == says("Usage: /disconnect"@)
    } else if before is None {
        after == before && step == not_connected()
    } else {
        after is None && step == StepView {
            effects: seq![EffectView::Close],
            next: NextView::Ready,
        }
    }
}

fn run_disconnect(client: &mut Client, args: &Vec<String>) -> (res: Step)
    ensures
        final(client).connector == old(client).connector,
        disconnects(old(client).session, texts(args@), final(client).session, res@),
{
    if args.len() != 0 {
        return say("Usage: /disconnect");
    }
    if client.session.is_none() {
        return say("You're not connected to a server");
    }
    client.session = None;
    let mut effects = no_effects();
    add_effect(&mut effects, Effect::Close);
    let res = Step { effects, next: Next::Ready };
    assert(res@.effects =~= seq![EffectView::Close]);
    res
}

/// What follows from `/passwd`.
pub open spec fn passwd_step(connected: bool, args: Seq<Seq<char>>) -> StepView {
    if args.len() != 0 {
        says("Usage: /passwd"@)
    } else if !connected {
        not_connected()
    } else {
        StepView {
            effects: seq![EffectView::Log("Current password: "@)],
            next: NextView::AskSecret(QuestionView::PasswordCurrent),
        }
    }
}

fn run_passwd(connected: bool, args: &Vec<String>) -> (res: Step)
    ensures
        res@ == passwd_step(connected, texts(args@)),
{
    if args.len() != 0 {
        return say("Usage: /passwd");
    }
    if !connected {
        return say("You're not connected to a server");
    }
    let mut effects = no_effects();
    add_line(&mut effects, "Current password: ");
    let res = Step { effects, next: Next::AskSecret(Question::PasswordCurrent) };
    assert(res@ =~= passwd_step(connected, texts(args@)));
    res
}

/// Lines are logged one after the other.
pub open spec fn shows(lines: Seq<Seq<char>>) -> StepView {
    StepView {
        effects: lines.map_values(|line: Seq<char>| EffectView::Log(line)),
        next: NextView::Ready,
    }
}

/// Logs lines one after the other.
fn show(lines: Vec<String>) -> (res: Step)
    ensures
        res@ == shows(texts(lines@)),
{
    let mut effects = no_effects();
    for i in 0..lines.len()
        invariant
            effects_view(effects@) == texts(lines@).take(i as int).map_values(
                |line: Seq<char>| EffectView::Log(line),
            ),
    {
        let ghost before = effects_view(effects@);
        add_line(&mut effects, lines[i].as_str());
        assert(effects_view(effects@) =~= texts(lines@).take(i + 1).map_values(
            |line: Seq<char>| EffectView::Log(line),
        ));
    }
    let res = Step { effects, next: Next::Ready };
    assert(texts(lines@).take(lines@.len() as int) =~= texts(lines@));
    assert(res@ =~= shows(texts(lines@)));
    res
}

/// Whether a step may follow from `/info`.
pub open spec fn informs(
    session: Option<Session>,
    perms: Permissions,
    args: Seq<Seq<char>>,
    step: StepView,
) -> bool {
    if args.len() != 1 {
        step == says("Usage: /info <channel/user>"@)
    } else {
        match session {
            Some(session) => exists|lines: Seq<Seq<char>>|
                {
                    &&& shows_info(
                        session.state,
                        unmarked(args[0]),
                        id_of(unmarked(args[0])),
                        perms,
                        lines,
                    )
                    &&& step == #[trigger] shows(lines)
                },
            None => step == not_connected(),
        }
    }
}

fn run_info(session: &Option<Session>, perms: &Permissions, args: &Vec<String>) -> (res: Step)
    ensures
        informs(*session, *perms, texts(args@), res@),
{
    if args.len() != 1 {
        return say("Usage: /info <channel/user>");
    }
    assert(texts(args@)[0] == args@[0]@);
    match session {
        Some(session) => {
            let name = unmark(args[0].as_str());
            let id = parse_id(name.as_str());
            show(info(&session.state, name.as_str(), id, perms))
        },
        None => say("You're not connected to a server"),
    }
}

/// Whether a step follows from `/list`, whichever way the tables are walked.
pub open spec fn lists(session: Option<Session>, args: Seq<Seq<char>>, step: StepView) -> bool {
    if args.len() != 1 {
        step == says("Usage: /list <\"channels\"/\"groups\"/\"users\">"@)
    } else {
        match session {
            Some(session) => if args[0] == "channels"@ {
                forall|order: Seq<usize>|
                    walks(session.state.channels@, order) ==> step == says(
                        #[trigger] channel_list(session.state.channels@, order),
                    )
            } else if args[0] == "users"@ {
                forall|order: Seq<usize>| #[trigger]
                    walks(session.state.users@, order) ==> step == shows(
                        seq![
                            user_list(session.state.users@, order, false),
                            "Banned:"@,
                            user_list(session.state.users@, order, true),
                        ],
                    )
            } else {
                step == says("Unable to list that"@)
            },
            None => step == not_connected(),
        }
    }
}

fn run_list(session: &Option<Session>, args: &Vec<String>) -> (res: Step)
    ensures
        lists(*session, texts(args@), res@),
{
    if args.len() != 1 {
        return say("Usage: /list <\"channels\"/\"groups\"/\"users\">");
    }
    assert(texts(args@)[0] == args@[0]@);
    match session {
        Some(session) => {
            if same_text(args[0].as_str(), "channels") {
                let line = list_channels(&session.state.channels);
                say(line.as_str())
            } else if same_text(args[0].as_str(), "users") {
                let mut lines: Vec<String> = Vec::new();
                lines.push(list_users(&session.state.users, false));
                lines.push("Banned:".to_owned());
                lines.push(list_users(&session.state.users, true));
                let ghost shown = texts(lines@);
                let res = show(lines);
                proof {
                    assert forall|order: Seq<usize>| #[trigger]
                        walks(session.state.users@, order) implies res@ == shows(
                        seq![
                            user_list(session.state.users@, order, false),
                            "Banned:"@,
                            user_list(session.state.users@, order, true),
                        ],
                    ) by {
                        assert(shown =~= seq![
                            user_list(session.state.users@, order, false),
                            "Banned:"@,
                            user_list(session.state.users@, order, true),
                        ]);
                    }
                }
                res
            } else {
                say("Unable to list that")
            }
        },
        None => say("You're not connected to a server"),
    }
}

/// What `/setupkeys` shows and asks for, once a key pair was made or was not.
pub open spec fn pair_step(recipient: usize, made: Result<(Seq<u8>, Seq<u8>), Seq<char>>) -> StepView {
    match made {
        Ok((private, public)) => StepView {
            effects: seq![
                EffectView::Log("In order to secure your connection, we need two things:"@),
                EffectView::Log("1. You need to give your recipient this \"public key\":"@),
                EffectView::Log(lossy_text(public)),
                EffectView::Log("2. Have your recipient run /setupkeys too."@),
                EffectView::Log("You will be asked to enter his/her public key here."@),
                EffectView::Log("When you've entered it, type \"END\"."@),
                EffectView::Log("Enter his/her public key here:"@),
            ],
            next: NextView::Ask(QuestionView::KeyLine { recipient, private, text: seq![] }),
        },
        Err(why) => StepView {
            effects: seq![
                EffectView::Log("In order to secure your connection, we need two things:"@),
                EffectView::Log("Error! Failed to generate a key pair."@),
                EffectView::Log("Details: "@ + why),
            ],
            next: NextView::Ready,
        },
    }
}

/// What came of making a key pair.
pub open spec fn pair_view(made: Result<KeyPair, String>) -> Result<
    (Seq<u8>, Seq<u8>),
    Seq<char>,
> {
    match made {
        Ok(pair) => Ok((pair.private@, pair.public@)),
        Err(why) => Err(why@),
    }
}

/// Shows the public key of a new pair and asks for the recipient's, or says why there is
/// no pair.
pub fn pair_made(recipient: usize, made: Result<KeyPair, String>) -> (res: Step)
    ensures
        res@ == pair_step(recipient, pair_view(made)),
{
    let mut effects = no_effects();
    add_line(&mut effects, "In order to secure your connection, we need two things:");
    match made {
        Ok(pair) => {
            add_line(&mut effects, "1. You need to give your recipient this \"public key\":");
            add_effect(&mut effects, Effect::Log(from_utf8_lossy(pair.public.as_slice())));
            add_line(&mut effects, "2. Have your recipient run /setupkeys too.");
            add_line(&mut effects, "You will be asked to enter his/her public key here.");
            add_line(&mut effects, "When you've entered it, type \"END\".");
            add_line(&mut effects, "Enter his/her public key here:");
            let res = Step {
                effects,
                next: Next::Ask(
                    Question::KeyLine { recipient, private: pair.private, text: String::new() },
                ),
            };
            assert(res@ =~= pair_step(recipient, pair_view(made)));
            res
        },
        Err(why) => {
            add_line(&mut effects, "Error! Failed to generate a key pair.");
            let mut line = "Details: ".to_owned();
            line.append(why.as_str());
            add_effect(&mut effects, Effect::Log(line));
            let res = Step { effects, next: Next::Ready };
            assert(res@ =~= pair_step(recipient, pair_view(made)));
            res
        },
    }
}

/// Whether `/setupkeys` may lead to a step for the user that was found: a new pair for the
/// length of the protocol was made, or none was and OpenSSL says why.
pub open spec fn offers_key(found: Option<User>, bits: u32, step: StepView) -> bool {
    match found {
        Some(user) => exists|made: Result<(Seq<u8>, Seq<u8>), Seq<char>>|
            {
                &&& step == #[trigger] pair_step(user.id, made)
                &&& match made {
                    Ok((private, public)) => is_new_pair(private, public, bits),
                    Err(why) => may_not_make(bits, why),
                }
            },
        None => step == says("No such user"@),
    }
}

/// Whether a step may follow from `/setupkeys`.
pub open spec fn sets_up_keys(
    session: Option<Session>,
    bits: u32,
    args: Seq<Seq<char>>,
    step: StepView,
) -> bool {
    if args.len() != 1 {
        step == says("Usage: /setupkeys <user>"@)
    } else {
        match session {
            Some(session) => exists|found: Option<User>|
                finds_user(session.state.users@, args[0], found) && #[trigger] offers_key(
                    found,
                    bits,
                    step,
                ),
            None => step == not_connected(),
        }
    }
}

fn run_setupkeys(session: &Option<Session>, bits: u32, args: &Vec<String>) -> (res: Step)
    ensures
        sets_up_keys(*session, bits, texts(args@), res@),
{
    if args.len() != 1 {
        return say("Usage: /setupkeys <user>");
    }
    assert(texts(args@)[0] == args@[0]@);
    match session {
        Some(session) => {
            match find_user(&session.state.users, args[0].as_str()) {
                Some(user) => {
                    let made = new_pair(bits);
                    let res = pair_made(user.id, made);
                    assert(res@ == pair_step(user.id, pair_view(made)));
                    assert(offers_key(Some(*user), bits, res@));
                    res
                },
                None => {
                    let res = say("No such user");
                    assert(offers_key(None, bits, res@));
                    res
                },
            }
        },
        None => say("You're not connected to a server"),
    }
}

/// The permissions of a user in the channel that the session is in: none where they have
/// none of their own. `None` where the session is in no channel that is known.
pub open spec fn mode_prompt(session: Session, user: User) -> Option<ModePromptView> {
    match session.channel {
        Some(k) => if session.state.channels@.contains_key(k) {
            let channel = session.state.channels@[k];
            Some(
                ModePromptView {
                    channel: channel.id,
                    name: channel.name@,
                    mode: if user.modes@.contains_key(channel.id) {
                        user.modes@[channel.id]
                    } else {
                        0
                    },
                },
            )
        } else {
            None
        },
        None => None,
    }
}

/// Reads the permissions of a user in the channel that the session is in.
fn read_prompt(session: &Session, user: &User) -> (res: Option<ModePrompt>)
    ensures
        optional_prompt(res) == mode_prompt(*session, *user),
{
    match session.channel {
        Some(k) => match session.state.channels.get(&k) {
            Some(channel) => {
                let mode: u8 = match user.modes.get(&channel.id) {
                    Some(mode) => *mode,
                    None => 0,
                };
                Some(ModePrompt { channel: channel.id, name: channel.name.clone(), mode })
            },
            None => None,
        },
        None => None,
    }
}

/// The start of changing a channel: its name is asked for.
pub open spec fn edits_channel(channel: Channel) -> StepView {
    StepView {
        effects: seq![
            EffectView::Log("Editing: #"@ + channel.name@),
            EffectView::Log("(Press enter to keep current value)"@),
            EffectView::Log(seq![]),
            EffectView::Log(prompts("Name ["@, channel.name@)),
        ],
        next: NextView::Ask(
            QuestionView::ChannelName {
                id: channel.id,
                name: channel.name@,
                default_mode_bot: channel.default_mode_bot,
                default_mode_user: channel.default_mode_user,
            },
        ),
    }
}

/// Starts changing a channel.
fn edit_channel(channel: &Channel) -> (res: Step)
    ensures
        res@ == edits_channel(*channel),
{
    let mut effects = no_effects();
    let mut line = "Editing: #".to_owned();
    line.append(channel.name.as_str());
    add_effect(&mut effects, Effect::Log(line));
    add_line(&mut effects, "(Press enter to keep current value)");
    add_effect(&mut effects, Effect::Log(String::new()));
    add_effect(&mut effects, Effect::Log(prompt_text("Name [", channel.name.as_str())));
    let res = Step {
        effects,
        next: Next::Ask(
            Question::ChannelName {
                id: channel.id,
                name: channel.name.clone(),
                default_mode_bot: channel.default_mode_bot,
                default_mode_user: channel.default_mode_user,
            },
        ),
    };
    assert(res@ =~= edits_channel(*channel));
    res
}

/// The start of changing a user: whether they are to be an administrator is asked for.
pub open spec fn edits_user(session: Session, id: usize, user: User) -> StepView {
    StepView {
        effects: seq![
            EffectView::Log(
                prompts(
                    "Admin ["@,
                    if user.admin {
                        "true"@
                    } else {
                        "false"@
                    },
                ),
            ),
        ],
        next: NextView::Ask(
            QuestionView::UserAdmin { id, admin: user.admin, prompt: mode_prompt(session, user) },
        ),
    }
}

/// Starts changing a user.
fn edit_user(session: &Session, id: usize, user: &User) -> (res: Step)
    ensures
        res@ == edits_user(*session, id, *user),
{
    let mut effects = no_effects();
    let current = if user.admin {
        "true"
    } else {
        "false"
    };
    add_effect(&mut effects, Effect::Log(prompt_text("Admin [", current)));
    let prompt = read_prompt(session, user);
    let res = Step {
        effects,
        next: Next::Ask(Question::UserAdmin { id, admin: user.admin, prompt }),
    };
    assert(res@ =~= edits_user(*session, id, *user));
    res
}

/// What follows from `/update`.
pub open spec fn update_step(session: Option<Session>, args: Seq<Seq<char>>) -> StepView {
    if args.len() != 2 {
        says("Usage: /update <\"channel\"/\"user\"> <id>"@)
    } else {
        match session {
            None => not_connected(),
            Some(session) => match id_of(args[1]) {
                None => says("Not a valid number"@),
                Some(id) => if args[0] == "channel"@ {
                    if session.state.channels@.contains_key(id) {
                        edits_channel(session.state.channels@[id])
                    } else {
                        says("Nothing with that ID exists"@)
                    }
                } else if args[0] == "user"@ {
                    if session.state.users@.contains_key(id) {
                        edits_user(session, id, session.state.users@[id])
                    } else {
                        says("Nothing with that ID exists"@)
                    }
                } else {
                    says("Unable to delete that"@)
                },
            },
        }
    }
}

fn run_update(session: &Option<Session>, args: &Vec<String>) -> (res: Step)
    ensures
        res@ == update_step(*session, texts(args@)),
{
    if args.len() != 2 {
        return say("Usage: /update <\"channel\"/\"user\"> <id>");
    }
    assert(texts(args@)[0] == args@[0]@);
    assert(texts(args@)[1] == args@[1]@);
    match session {
        None => say("You're not connected to a server"),
        Some(session) => match parse_id(args[1].as_str()) {
            None => say("Not a valid number"),
            Some(id) => {
                if same_text(args[0].as_str(), "channel") {
                    match session.state.channels.get(&id) {
                        Some(channel) => edit_channel(channel),
                        None => say("Nothing with that ID exists"),
                    }
                } else if same_text(args[0].as_str(), "user") {
                    match session.state.users.get(&id) {
                        Some(user) => edit_user(session, id, user),
                        None => say("Nothing with that ID exists"),
                    }
                } else {
                    say("Unable to delete that")
                }
            },
        },
    }
}

/// Whether a command that changes nothing of the client may lead to a step.
pub open spec fn runs_quietly(
    protocol: Protocol,
    session: Option<Session>,
    command: Seq<char>,
    args: Seq<Seq<char>>,
    step: StepView,
) -> bool {
    let connected = session is Some;
    if command == "ban"@ || command == "unban"@ {
        bans(session, command == "ban"@, args, step)
    } else if command == "connect"@ {
        step == connect_step(connected, protocol.default_port, args)
    } else if command == "create"@ {
        step == create_step(connected, protocol.permissions, args)
    } else if command == "delete"@ {
        step == delete_step(session, args)
    } else if command == "forget"@ {
        step == forget_step(protocol.default_port, args)
    } else if command == "help"@ {
        step == StepView { effects: seq![EffectView::Help(args)], next: NextView::Ready }
    } else if command == "info"@ {
        informs(session, protocol.permissions, args, step)
    } else if command == "list"@ {
        lists(session, args, step)
    } else if command == "passwd"@ {
        step == passwd_step(connected, args)
    } else if command == "quit"@ {
        step == StepView { effects: seq![], next: NextView::Quit }
    } else if command == "setupkeys"@ {
        sets_up_keys(session, protocol.rsa_length, args, step)
    } else if command == "update"@ {
        step == update_step(session, args)
    } else {
        step == says("Unknown command"@)
    }
}

/// Whether a command, given as the words of its line, may turn one client into another
/// with a step.
pub open spec fn runs(
    protocol: Protocol,
    before: Client,
    words: Seq<Seq<char>>,
    after: Client,
    step: StepView,
) -> bool {
    if words.len() == 0 {
        after == before && step == nothing()
    } else {
        let command = words[0];
        let args = words.skip(1);
        if command == "disconnect"@ {
            &&& after.connector == before.connector
            &&& disconnects(before.session, args, after.session, step)
        } else if command == "join"@ {
            &&& after.connector == before.connector
            &&& joins(before.session, protocol.limit_bulk, args, after.session, step)
        } else if command == "msg"@ {
            &&& after.connector == before.connector
            &&& messages(before.session, protocol.limit_bulk, args, after.session, step)
        } else if command == "nick"@ {
            renames(before, args, after, step)
        } else {
            &&& after == before
            &&& runs_quietly(protocol, before.session, command, args, step)
        }
    }
}

/// Runs a command that changes nothing of the client.
fn run_quietly(
    protocol: &Protocol,
    session: &Option<Session>,
    command: &str,
    args: Vec<String>,
) -> (res: Step)
    ensures
        runs_quietly(*protocol, *session, command@, texts(args@), res@),
{
    let connected = session.is_some();
    if same_text(command, "ban") {
        run_ban(session, true, &args)
    } else if same_text(command, "unban") {
        run_ban(session, false, &args)
    } else if same_text(command, "connect") {
        run_connect(connected, protocol.default_port, &args)
    } else if same_text(command, "create") {
        run_create(connected, &protocol.permissions, &args)
    } else if same_text(command, "delete") {
        run_delete(session, &args)
    } else if same_text(command, "forget") {
        run_forget(protocol.default_port, &args)
    } else if same_text(command, "help") {
        let mut effects = no_effects();
        let ghost words = texts(args@);
        add_effect(&mut effects, Effect::Help(args));
        let res = Step { effects, next: Next::Ready };
        assert(res@.effects =~= seq![EffectView::Help(words)]);
        res
    } else if same_text(command, "info") {
        run_info(session, &protocol.permissions, &args)
    } else if same_text(command, "list") {
        run_list(session, &args)
    } else if same_text(command, "passwd") {
        run_passwd(connected, &args)
    } else if same_text(command, "quit") {
        Step { effects: no_effects(), next: Next::Quit }
    } else if same_text(command, "setupkeys") {
        run_setupkeys(session, protocol.rsa_length, &args)
    } else if same_text(command, "update") {
        run_update(session, &args)
    } else {
        say("Unknown command")
    }
}

/// Runs a command, given as the words of its line.
pub fn run_command(client: &mut Client, protocol: &Protocol, words: Vec<String>) -> (res: Step)
    ensures
        runs(*protocol, *old(client), texts(words@), *final(client), res@),
{
    if words.len() == 0 {
        return do_nothing();
    }
    let ghost all = texts(words@);
    let mut args = words;
    let command = args.remove(0);
    let name = command.as_str();
    assert(texts(args@) =~= all.skip(1));
    assert(name@ == all[0]);
    if same_text(name, "disconnect") {
        run_disconnect(client, &args)
    } else if same_text(name, "join") {
        run_join(client, protocol.limit_bulk, &args)
    } else if same_text(name, "msg") {
        run_msg(client, protocol.limit_bulk, &args)
    } else if same_text(name, "nick") {
        run_nick(client, &args)
    } else {
        run_quietly(protocol, &client.session, name, args)
    }
}

/// What a command to a bot does, once the user was looked up.
pub open spec fn bot_step(args: Seq<Seq<char>>, found: Option<User>) -> StepView {
    match found {
        Some(user) => if user.bot {
            sends(PacketView::Command { args, recipient: user.id })
        } else {
            says("That's not a bot!"@)
        },
        None => says("No such user"@),
    }
}

/// Whether a step may follow from a command to a bot: the name of the bot, then words for
/// it.
pub open spec fn commands_bot(
    session: Option<Session>,
    words: Seq<Seq<char>>,
    step: StepView,
) -> bool {
    match session {
        Some(session) => if words.len() < 2 {
            step == nothing()
        } else {
            exists|found: Option<User>|
                finds_user(session.state.users@, words[0], found) && step == #[trigger] bot_step(
                    words.skip(1),
                    found,
                )
        },
        None => step == not_connected(),
    }
}

/// Runs a command to a bot, given as the words of its line.
pub fn run_bot_command(client: &Client, words: Vec<String>) -> (res: Step)
    ensures
        commands_bot(client.session, texts(words@), res@),
{
    match &client.session {
        Some(session) => {
            if words.len() < 2 {
                return do_nothing();
            }
            let ghost all = texts(words@);
            let mut args = words;
            let name = args.remove(0);
            assert(texts(args@) =~= all.skip(1));
            assert(name@ == all[0]);
            match find_user(&session.state.users, name.as_str()) {
                Some(user) => {
                    let res = if user.bot {
                        send(Packet::Command { args, recipient: user.id })
                    } else {
                        say("That's not a bot!")
                    };
                    assert(res@ == bot_step(all.skip(1), Some(*user)));
                    res
                },
                None => {
                    let res = say("No such user");
                    assert(res@ == bot_step(all.skip(1), None));
                    res
                },
            }
        },
        None => say("You're not connected to a server"),
    }
}

/// Whether `at` is where the first slash of a text stands.
pub open spec fn is_first_slash(text: Seq<char>, at: int) -> bool {
    &&& 0 <= at < text.len()
    &&& text[at] == '/'
    &&& forall|j: int| 0 <= j < at ==> #[trigger] text[j] != '/'
}

/// Whether a text is an order to correct the last message.
pub open spec fn is_correction(input: Seq<char>) -> bool {
    input.len() >= 2 && input[0] == 's' && input[1] == '/'
}

/// What follows from an order to correct the last message: what stands before the next
/// slash is replaced by what stands behind it, all over the message. Without that slash
/// nothing happens.
pub open spec fn correction_step(id: usize, message: Seq<u8>, order: Seq<char>) -> StepView {
    if order.contains('/') {
        let at = choose|at: int| is_first_slash(order, at);
        sends(
            PacketView::MessageUpdate {
                id,
                text: bytes_of(replaced(lossy_text(message), order.take(at), order.skip(at + 1))),
            },
        )
    } else {
        nothing()
    }
}

/// What follows from a line that is no command: the last message is corrected, or the line
/// is said in the channel that the user is in.
pub open spec fn speech_step(client: Client, input: Seq<char>) -> StepView {
    match client.session {
        Some(session) => match session.channel {
            Some(channel) => if is_correction(input) && session.last is Some {
                correction_step(
                    session.last.unwrap().0,
                    session.last.unwrap().1@,
                    input.skip(2),
                )
            } else {
                StepView {
                    effects: seq![
                        EffectView::LogSending(client.connector.nick@ + ": "@ + input),
                        EffectView::Send(
                            PacketView::MessageCreate { channel, text: bytes_of(input) },
                        ),
                    ],
                    next: NextView::Ready,
                }
            },
            None => says(
                "No channel specified. See /create channel, /list channels and /join"@,
            ),
        },
        None => not_connected(),
    }
}

/// Corrects a message.
fn correct(id: usize, message: &Vec<u8>, order: &[char]) -> (res: Step)
    ensures
        res@ == correction_step(id, message@, order@),
{
    for at in 0..order.len()
        invariant
            forall|j: int| 0 <= j < at ==> #[trigger] order@[j] != '/',
    {
        if order[at] == '/' {
            proof {
                assert(is_first_slash(order@, at as int));
                assert(order@.contains('/'));
                let other = choose|other: int| is_first_slash(order@, other);
                if other < at {
                    assert(order@[other] != '/');
                }
                if at < other {
                    assert(order@[at as int] != '/');
                }
            }
            let before = vstd::slice::slice_subrange(order, 0, at);
            let behind = vstd::slice::slice_subrange(order, at + 1, order.len());
            assert(before@ =~= order@.take(at as int));
            assert(behind@ =~= order@.skip(at + 1));
            let text = replace(
                from_utf8_lossy(message.as_slice()).as_str(),
                text_of(before).as_str(),
                text_of(behind).as_str(),
            );
            return send(Packet::MessageUpdate { id, text: text.as_str().as_bytes_vec() });
        }
    }
    do_nothing()
}

/// Takes a line that is no command.
pub fn speak(client: &Client, input: &str) -> (res: Step)
    ensures
        res@ == speech_step(*client, input@),
{
    let session = match &client.session {
        Some(session) => session,
        None => {
            return say("You're not connected to a server");
        },
    };
    let channel = match session.channel {
        Some(channel) => channel,
        None => {
            return say("No channel specified. See /create channel, /list channels and /join");
        },
    };
    let chars = chars_of(input);
    if chars.len() >= 2 && chars[0] == 's' && chars[1] == '/' {
        if let Some(last) = &session.last {
            let order = vstd::slice::slice_subrange(chars.as_slice(), 2, chars.len());
            assert(order@ =~= input@.skip(2));
            return correct(last.0, &last.1, order);
        }
    }
    let mut line = client.connector.nick.clone();
    line.append(": ");
    line.append(input);
    let mut effects = no_effects();
    add_effect(&mut effects, Effect::LogSending(line));
    add_effect(
        &mut effects,
        Effect::Send(Packet::MessageCreate { channel, text: input.as_bytes_vec() }),
    );
    let res = Step { effects, next: Next::Ready };
    assert(res@ =~= speech_step(*client, input@));
    res
}

} // verus!
