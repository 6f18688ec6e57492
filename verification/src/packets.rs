//! What the client sends to the server.

use vstd::prelude::*;

use crate::order::texts;
use crate::permissions::Permissions;

verus! {

/// The numbers that the protocol fixes.
pub struct Protocol {
    /// The bits of the permissions.
    pub permissions: Permissions,
    /// How many messages may be asked for at once.
    pub limit_bulk: usize,
    /// The port of a server that names none.
    pub default_port: u16,
    /// The length of an RSA key, in bits.
    pub rsa_length: u32,
}

/// A packet from the client to the server.
#[derive(Debug, PartialEq, Eq)]
#[allow(inconsistent_fields)]
pub enum Packet {
    ChannelCreate {
        default_mode_bot: u8,
        default_mode_user: u8,
        name: String,
        recipient: Option<usize>,
    },
    ChannelDelete { id: usize },
    ChannelUpdate {
        default_mode_bot: u8,
        default_mode_user: u8,
        id: usize,
        name: String,
        private: bool,
    },
    Close,
    Command { args: Vec<String>, recipient: usize },
    LoginUpdate {
        name: Option<String>,
        password_current: Option<String>,
        password_new: Option<String>,
        reset_token: bool,
    },
    MessageCreate { channel: usize, text: Vec<u8> },
    MessageDelete { id: usize },
    MessageList { after: Option<usize>, before: Option<usize>, channel: usize, limit: usize },
    MessageUpdate { id: usize, text: Vec<u8> },
    UserUpdate {
        admin: Option<bool>,
        ban: Option<bool>,
        channel_mode: Option<(usize, Option<u8>)>,
        id: usize,
    },
}

/// What a [`Packet`] says.
#[allow(inconsistent_fields)]
pub ghost enum PacketView {
    ChannelCreate {
        default_mode_bot: u8,
        default_mode_user: u8,
        name: Seq<char>,
        recipient: Option<usize>,
    },
    ChannelDelete { id: usize },
    ChannelUpdate {
        default_mode_bot: u8,
        default_mode_user: u8,
        id: usize,
        name: Seq<char>,
        private: bool,
    },
    Close,
    Command { args: Seq<Seq<char>>, recipient: usize },
    LoginUpdate {
        name: Option<Seq<char>>,
        password_current: Option<Seq<char>>,
        password_new: Option<Seq<char>>,
        reset_token: bool,
    },
    MessageCreate { channel: usize, text: Seq<u8> },
    MessageDelete { id: usize },
    MessageList { after: Option<usize>, before: Option<usize>, channel: usize, limit: usize },
    MessageUpdate { id: usize, text: Seq<u8> },
    UserUpdate {
        admin: Option<bool>,
        ban: Option<bool>,
        channel_mode: Option<(usize, Option<u8>)>,
        id: usize,
    },
}

/// What an optional text says.
pub open spec fn optional_text(text: Option<String>) -> Option<Seq<char>> {
    match text {
        Some(text) => Some(text@),
        None => None,
    }
}

impl View for Packet {
    type V = PacketView;

    open spec fn view(&self) -> PacketView {
        match *self {
            Packet::ChannelCreate { default_mode_bot, default_mode_user, name, recipient } => {
                PacketView::ChannelCreate {
                    default_mode_bot,
                    default_mode_user,
                    name: name@,
                    recipient,
                }
            },
            Packet::ChannelDelete { id } => PacketView::ChannelDelete { id },
            Packet::ChannelUpdate { default_mode_bot, default_mode_user, id, name, private } => {
                PacketView::ChannelUpdate {
                    default_mode_bot,
                    default_mode_user,
                    id,
                    name: name@,
                    private,
                }
            },
            Packet::Close => PacketView::Close,
            Packet::Command { args, recipient } => PacketView::Command {
                args: texts(args@),
                recipient,
            },
            Packet::LoginUpdate { name, password_current, password_new, reset_token } => {
                PacketView::LoginUpdate {
                    name: optional_text(name),
                    password_current: optional_text(password_current),
                    password_new: optional_text(password_new),
                    reset_token,
                }
            },
            Packet::MessageCreate { channel, text } => PacketView::MessageCreate {
                channel,
                text: text@,
            },
            Packet::MessageDelete { id } => PacketView::MessageDelete { id },
            Packet::MessageList { after, before, channel, limit } => PacketView::MessageList {
                after,
                before,
                channel,
                limit,
            },
            Packet::MessageUpdate { id, text } => PacketView::MessageUpdate { id, text: text@ },
            Packet::UserUpdate { admin, ban, channel_mode, id } => PacketView::UserUpdate {
                admin,
                ban,
                channel_mode,
                id,
            },
        }
    }
}

/// What a packet says is what its fields say, each in its place.
pub proof fn law_packets_say_their_fields(
    a: u8,
    b: u8,
    id: usize,
    other: usize,
    limit: usize,
    ends: (Option<usize>, Option<usize>),
    name: String,
    texts: (Option<String>, Option<String>, Option<String>),
    args: Vec<String>,
    bytes: Vec<u8>,
    flag: bool,
    choices: (Option<bool>, Option<bool>),
    mode: Option<(usize, Option<u8>)>,
)
    ensures
        (Packet::ChannelCreate {
            default_mode_bot: a,
            default_mode_user: b,
            name,
            recipient: ends.0,
        })@ == (PacketView::ChannelCreate {
            default_mode_bot: a,
            default_mode_user: b,
            name: name@,
            recipient: ends.0,
        }),
        (Packet::ChannelDelete { id })@ == (PacketView::ChannelDelete { id }),
        (Packet::ChannelUpdate {
            default_mode_bot: a,
            default_mode_user: b,
            id,
            name,
            private: flag,
        })@ == (PacketView::ChannelUpdate {
            default_mode_bot: a,
            default_mode_user: b,
            id,
            name: name@,
            private: flag,
        }),
        Packet::Close@ == PacketView::Close,
        (Packet::Command { args, recipient: id })@ is Command,
        (Packet::Command { args, recipient: id })@->Command_recipient == id,
        (Packet::Command { args, recipient: id })@->args.len() == args@.len(),
        forall|i: int|
            0 <= i < args@.len() ==> (Packet::Command { args, recipient: id })@->args[i]
                == (#[trigger] args@[i])@,
        (Packet::LoginUpdate {
            name: texts.0,
            password_current: texts.1,
            password_new: texts.2,
            reset_token: flag,
        })@ == (PacketView::LoginUpdate {
            name: optional_text(texts.0),
            password_current: optional_text(texts.1),
            password_new: optional_text(texts.2),
            reset_token: flag,
        }),
        optional_text(Some(name)) == Some(name@),
        optional_text(None) == None::<Seq<char>>,
        (Packet::MessageCreate { channel: id, text: bytes })@ == (PacketView::MessageCreate {
            channel: id,
            text: bytes@,
        }),
        (Packet::MessageDelete { id })@ == (PacketView::MessageDelete { id }),
        (Packet::MessageList { after: ends.0, before: ends.1, channel: other, limit })@ == (
        PacketView::MessageList { after: ends.0, before: ends.1, channel: other, limit }),
        (Packet::MessageUpdate { id, text: bytes })@ == (PacketView::MessageUpdate {
            id,
            text: bytes@,
        }),
        (Packet::UserUpdate { admin: choices.0, ban: choices.1, channel_mode: mode, id })@ == (
        PacketView::UserUpdate { admin: choices.0, ban: choices.1, channel_mode: mode, id }),
{
}

} // verus!
