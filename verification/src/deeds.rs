//! What each line does, said outright: the effects, word for word, and what becomes of the
//! client.

use vstd::prelude::*;

use crate::address::{law_address_comes_apart, law_bad_ports_are_refused};
use crate::commands::{commands_bot, pair_step, resolved_step, runs, speech_step};
use crate::keys::{may_make, may_not_make, modulus_bits_of, public_pem_of};
use crate::model::{Client, Session};
use crate::packets::{PacketView, Protocol};
use crate::steps::{EffectView, NextView, Purpose, QuestionView, StepView};
use crate::text::{decimal, number_of};

verus! {

broadcast use vstd::std_specs::hash::group_hash_axioms;

/// Whether a step has these effects and no others, and the client then waits for a line.
pub open spec fn does(step: StepView, effects: Seq<EffectView>) -> bool {
    step.effects == effects && step.next == NextView::Ready
}

/// Whether a step logs one line and does nothing else.
pub open spec fn logs(step: StepView, line: Seq<char>) -> bool {
    does(step, seq![EffectView::Log(line)])
}

/// The names of the commands are all different.
pub proof fn lemma_commands_differ()
    ensures
        "ban"@.len() == 3 && "ban"@[0] == 'b',
        "unban"@.len() == 5 && "unban"@[0] == 'u',
        "connect"@.len() == 7 && "connect"@[0] == 'c',
        "create"@.len() == 6 && "create"@[0] == 'c',
        "delete"@.len() == 6 && "delete"@[0] == 'd',
        "disconnect"@.len() == 10,
        "forget"@.len() == 6 && "forget"@[0] == 'f',
        "help"@.len() == 4 && "help"@[0] == 'h',
        "info"@.len() == 4 && "info"@[0] == 'i',
        "join"@.len() == 4 && "join"@[0] == 'j',
        "list"@.len() == 4 && "list"@[0] == 'l',
        "msg"@.len() == 3 && "msg"@[0] == 'm',
        "nick"@.len() == 4 && "nick"@[0] == 'n',
        "passwd"@.len() == 6 && "passwd"@[0] == 'p',
        "quit"@.len() == 4 && "quit"@[0] == 'q',
        "setupkeys"@.len() == 9,
        "update"@.len() == 6 && "update"@[0] == 'u',
        "channel"@.len() == 7 && "channel"@[0] == 'c',
        "message"@.len() == 7 && "message"@[0] == 'm',
        "user"@.len() == 4 && "user"@[0] == 'u',
        "channels"@.len() == 8,
        "users"@.len() == 5,
{
    reveal_strlit("ban");
    reveal_strlit("unban");
    reveal_strlit("connect");
    reveal_strlit("create");
    reveal_strlit("delete");
    reveal_strlit("disconnect");
    reveal_strlit("forget");
    reveal_strlit("help");
    reveal_strlit("info");
    reveal_strlit("join");
    reveal_strlit("list");
    reveal_strlit("msg");
    reveal_strlit("nick");
    reveal_strlit("passwd");
    reveal_strlit("quit");
    reveal_strlit("setupkeys");
    reveal_strlit("update");
    reveal_strlit("channel");
    reveal_strlit("message");
    reveal_strlit("user");
    reveal_strlit("channels");
    reveal_strlit("users");
}

/// Whether a step comes of making a key pair of a given length for a recipient.
pub open spec fn is_key_offer(bits: u32, recipient: usize, step: StepView) -> bool {
    ||| exists|private: Seq<u8>, public: Seq<u8>|
        #![trigger public_pem_of(private), pair_step(recipient, Ok((private, public)))]
        {
            &&& may_make(bits, private, public)
            &&& public == public_pem_of(private)
            &&& bits % 2 == 0 ==> modulus_bits_of(private) == bits
            &&& step == pair_step(recipient, Ok((private, public)))
        }
    ||| exists|why: Seq<char>|
        may_not_make(bits, why) && step == #[trigger] pair_step(recipient, Err(why))
}

/// Joining a channel that the server knows by that name, with or without its mark, puts the
/// user in that channel, whichever they were in: the log is forgotten, the name is logged
/// and the newest messages of that channel are asked for. A name that no channel has changes
/// nothing.
pub proof fn law_join_enters(
    protocol: Protocol,
    before: Client,
    words: Seq<Seq<char>>,
    name: Seq<char>,
    after: Client,
    step: StepView,
)
    requires
        runs(protocol, before, words, after, step),
        words.len() == 2,
        words[0] == "join"@,
        words[1] == seq!['#'] + name || (words[1] == name && !(seq!['#'].is_prefix_of(name))),
        before.session is Some,
    ensures
        after.connector == before.connector,
        after.session is Some,
        ({
            let channels = before.session.unwrap().state.channels@;
            let session = after.session.unwrap();
            ||| exists|k: usize|
                {
                    &&& channels.contains_key(k)
                    &&& (#[trigger] channels[k]).name@ == name
                    &&& session == (Session {
                        channel: Some(channels[k].id),
                        ..before.session.unwrap()
                    })
                    &&& does(
                        step,
                        seq![
                            EffectView::Clear,
                            EffectView::Log("Joined channel #"@ + name),
                            EffectView::Send(
                                PacketView::MessageList {
                                    after: None,
                                    before: None,
                                    channel: channels[k].id,
                                    limit: protocol.limit_bulk,
                                },
                            ),
                        ],
                    )
                }
            ||| {
                &&& forall|k: usize|
                    channels.contains_key(k) ==> (#[trigger] channels[k]).name@ != name
                &&& after.session == before.session
                &&& logs(step, "No channel found with that name"@)
            }
        }),
{
    lemma_commands_differ();
    assert((seq!['#'] + name).skip(1) =~= name);
    if words[1] == name && name.len() > 0 {
        assert(seq!['#'].is_prefix_of(name) == (name[0] == '#')) by {
            assert(name.subrange(0, 1) =~= seq![name[0]]);
            if name[0] != '#' {
                assert(seq!['#'][0] != name.subrange(0, 1)[0]);
            }
        }
    }
}

/// Whenever `/join` or `/msg` asks for messages of a channel or says that one was joined,
/// the session is in that channel afterwards.
pub proof fn law_shown_channel_is_entered(
    protocol: Protocol,
    before: Client,
    words: Seq<Seq<char>>,
    after: Client,
    step: StepView,
    i: int,
    channel: usize,
    limit: usize,
    earlier: (Option<usize>, Option<usize>),
)
    requires
        runs(protocol, before, words, after, step),
        words.len() > 0,
        words[0] == "join"@ || words[0] == "msg"@,
        0 <= i < step.effects.len(),
        step.effects[i] == EffectView::Send(
            PacketView::MessageList { after: earlier.0, before: earlier.1, channel, limit },
        ),
    ensures
        after.session is Some,
        after.session.unwrap().channel == Some(channel),
        step.effects[0] == EffectView::Clear,
        limit == protocol.limit_bulk,
        earlier == (None::<usize>, None::<usize>),
{
    lemma_commands_differ();
}

/// A private conversation with a user who has one is entered; with another user it is asked
/// for, and the session stays as it is.
pub proof fn law_msg_enters(
    protocol: Protocol,
    before: Client,
    words: Seq<Seq<char>>,
    after: Client,
    step: StepView,
)
    requires
        runs(protocol, before, words, after, step),
        words.len() == 2,
        words[0] == "msg"@,
        before.session is Some,
    ensures
        after.connector == before.connector,
        ({
            let users = before.session.unwrap().state.users@;
            ||| exists|k: usize|
                {
                    &&& users.contains_key(k)
                    &&& (#[trigger] users[k]).name@ == words[1]
                    &&& match users[k].private_channel {
                        Some(channel) => {
                            &&& after.session == Some(
                                Session { channel: Some(channel), ..before.session.unwrap() },
                            )
                            &&& does(
                                step,
                                seq![
                                    EffectView::Clear,
                                    EffectView::Log("Joined private channel"@),
                                    EffectView::Send(
                                        PacketView::MessageList {
                                            after: None,
                                            before: None,
                                            channel,
                                            limit: protocol.limit_bulk,
                                        },
                                    ),
                                ],
                            )
                        },
                        None => {
                            &&& after.session == before.session
                            &&& does(
                                step,
                                seq![
                                    EffectView::SendOrStop(
                                        PacketView::ChannelCreate {
                                            default_mode_bot: 0,
                                            default_mode_user: 0,
                                            name: seq![],
                                            recipient: Some(users[k].id),
                                        },
                                    ),
                                    EffectView::Log("Creating channel with <user>..."@),
                                    EffectView::Log("Type command again to switch to it."@),
                                ],
                            )
                        },
                    }
                }
            ||| {
                &&& forall|k: usize|
                    users.contains_key(k) ==> (#[trigger] users[k]).name@ != words[1]
                &&& after.session == before.session
                &&& logs(step, "No such user"@)
            }
        }),
{
    lemma_commands_differ();
}

/// In a channel, a line that does not start with `s/` is said as it stands, whether or not
/// there is a last message: it is logged behind the name of the user as being on its way,
/// and its bytes are sent to that channel. So is every line while there is no last message.
pub proof fn law_lines_are_said(client: Client, input: Seq<char>, channel: usize)
    requires
        client.session is Some,
        client.session.unwrap().channel == Some(channel),
        !("s/"@.is_prefix_of(input)) || client.session.unwrap().last is None,
    ensures
        does(
            speech_step(client, input),
            seq![
                EffectView::LogSending(client.connector.nick@ + ": "@ + input),
                EffectView::Send(
                    PacketView::MessageCreate { channel, text: vstd::utf8::encode_utf8(input) },
                ),
            ],
        ),
{
    reveal_strlit("s/");
    if input.len() >= 2 && input[0] == 's' && input[1] == '/' {
        assert(input.subrange(0, 2) =~= "s/"@);
    }
}

/// Without a channel, and without a session, nothing is said.
pub proof fn law_speech_needs_a_channel(client: Client, input: Seq<char>)
    ensures
        client.session is None ==> logs(
            speech_step(client, input),
            "You're not connected to a server"@,
        ),
        client.session is Some && client.session.unwrap().channel is None ==> logs(
            speech_step(client, input),
            "No channel specified. See /create channel, /list channels and /join"@,
        ),
{
}

/// In a channel and with a last message, `s/`, a text without slashes, a slash and any text
/// sends the last message anew under its number, with the first text replaced by the second.
/// Without the second slash nothing happens.
pub proof fn law_corrections_replace(
    client: Client,
    channel: usize,
    id: usize,
    last: Vec<u8>,
    find: Seq<char>,
    with: Seq<char>,
)
    requires
        client.session is Some,
        client.session.unwrap().channel == Some(channel),
        client.session.unwrap().last == Some((id, last)),
        !find.contains('/'),
    ensures
        does(
            speech_step(client, "s/"@ + find + "/"@ + with),
            seq![
                EffectView::Send(
                    PacketView::MessageUpdate {
                        id,
                        text: vstd::utf8::encode_utf8(
                            crate::text::replaced(crate::text::lossy_text(last@), find, with),
                        ),
                    },
                ),
            ],
        ),
        does(speech_step(client, "s/"@ + find), seq![]),
{
    reveal_strlit("s/");
    reveal_strlit("/");
    let input = "s/"@ + find + "/"@ + with;
    let order = input.skip(2);
    assert(order =~= find + seq!['/'] + with);
    let at = find.len() as int;
    assert(order[at] == '/');
    assert forall|j: int| 0 <= j < at implies #[trigger] order[j] != '/' by {
        assert(order[j] == find[j]);
        assert(find.contains(find[j]));
    }
    assert(crate::commands::is_first_slash(order, at));
    assert(order.contains('/'));
    let other = choose|other: int| crate::commands::is_first_slash(order, other);
    if other < at {
        assert(order[other] != '/');
    }
    if at < other {
        assert(order[at] != '/');
    }
    assert(order.take(at) =~= find);
    assert(order.skip(at + 1) =~= with);
    let short = "s/"@ + find;
    assert(short.skip(2) =~= find);
}

/// `/ban` and `/unban` send the number of a user of that name with what is to become of
/// them, or say that there is none.
pub proof fn law_ban_names_the_user(
    protocol: Protocol,
    before: Client,
    words: Seq<Seq<char>>,
    after: Client,
    step: StepView,
)
    requires
        runs(protocol, before, words, after, step),
        words.len() == 2,
        words[0] == "ban"@ || words[0] == "unban"@,
        before.session is Some,
    ensures
        after == before,
        ({
            let users = before.session.unwrap().state.users@;
            ||| exists|k: usize|
                {
                    &&& users.contains_key(k)
                    &&& (#[trigger] users[k]).name@ == words[1]
                    &&& does(
                        step,
                        seq![
                            EffectView::Send(
                                PacketView::UserUpdate {
                                    admin: None,
                                    ban: Some(words[0] == "ban"@),
                                    channel_mode: None,
                                    id: users[k].id,
                                },
                            ),
                        ],
                    )
                }
            ||| {
                &&& forall|k: usize|
                    users.contains_key(k) ==> (#[trigger] users[k]).name@ != words[1]
                &&& logs(step, "No such user"@)
            }
        }),
{
    lemma_commands_differ();
}

/// Without a session, the commands that need one say so, and nothing changes.
pub proof fn law_sessions_are_needed(
    protocol: Protocol,
    before: Client,
    words: Seq<Seq<char>>,
    after: Client,
    step: StepView,
)
    requires
        runs(protocol, before, words, after, step),
        before.session is None,
        ({
            ||| words.len() == 1 && (words[0] == "disconnect"@ || words[0] == "passwd"@)
            ||| words.len() == 2 && (words[0] == "ban"@ || words[0] == "unban"@ || words[0]
                == "info"@ || words[0] == "join"@ || words[0] == "list"@ || words[0] == "msg"@
                || words[0] == "setupkeys"@)
            ||| words.len() == 3 && (words[0] == "delete"@ || words[0] == "update"@)
            ||| words.len() >= 3 && words[0] == "create"@
        }),
    ensures
        after == before,
        logs(step, "You're not connected to a server"@),
{
    lemma_commands_differ();
}

/// A command with the wrong number of words says how it is used, with or without a session,
/// and changes nothing.
pub proof fn law_usage_is_told(
    protocol: Protocol,
    before: Client,
    words: Seq<Seq<char>>,
    after: Client,
    step: StepView,
)
    requires
        runs(protocol, before, words, after, step),
        words.len() > 0,
    ensures
        words[0] == "ban"@ && words.len() != 2 ==> after == before && logs(
            step,
            "Usage: /ban/unban <user>"@,
        ),
        words[0] == "unban"@ && words.len() != 2 ==> after == before && logs(
            step,
            "Usage: /ban/unban <user>"@,
        ),
        words[0] == "connect"@ && words.len() != 2 ==> after == before && logs(
            step,
            "Usage: /connect <ip[:port]>"@,
        ),
        words[0] == "create"@ && words.len() < 3 ==> after == before && logs(
            step,
            "Usage: /create <\"channel\"/\"group\"> <name> [data]"@,
        ),
        words[0] == "delete"@ && words.len() != 3 ==> after == before && logs(
            step,
            "Usage: /delete <\"channel\"/\"message\"> <id>"@,
        ),
        words[0] == "disconnect"@ && words.len() != 1 ==> after == before && logs(
            step,
            "Usage: /disconnect"@,
        ),
        words[0] == "forget"@ && words.len() != 2 ==> after == before && logs(
            step,
            "Usage: /forget <ip>"@,
        ),
        words[0] == "info"@ && words.len() != 2 ==> after == before && logs(
            step,
            "Usage: /info <channel/user>"@,
        ),
        words[0] == "join"@ && words.len() != 2 ==> after == before && logs(
            step,
            "Usage: /join <channel>"@,
        ),
        words[0] == "list"@ && words.len() != 2 ==> after == before && logs(
            step,
            "Usage: /list <\"channels\"/\"groups\"/\"users\">"@,
        ),
        words[0] == "msg"@ && words.len() != 2 ==> after == before && logs(
            step,
            "Usage: /msg <user>"@,
        ),
        words[0] == "nick"@ && words.len() != 2 ==> after == before && logs(
            step,
            "Usage: /nick <name>"@,
        ),
        words[0] == "passwd"@ && words.len() != 1 ==> after == before && logs(
            step,
            "Usage: /passwd"@,
        ),
        words[0] == "setupkeys"@ && words.len() != 2 ==> after == before && logs(
            step,
            "Usage: /setupkeys <user>"@,
        ),
        words[0] == "update"@ && words.len() != 3 ==> after == before && logs(
            step,
            "Usage: /update <\"channel\"/\"user\"> <id>"@,
        ),
{
    lemma_commands_differ();
}

/// A line without words does nothing, and a word that is no command is refused.
pub proof fn law_other_words_are_unknown(
    protocol: Protocol,
    before: Client,
    words: Seq<Seq<char>>,
    after: Client,
    step: StepView,
)
    requires
        runs(protocol, before, words, after, step),
    ensures
        words.len() == 0 ==> after == before && does(step, seq![]),
        words.len() > 0
            && words[0] != "ban"@
            && words[0] != "unban"@
            && words[0] != "connect"@
            && words[0] != "create"@
            && words[0] != "delete"@
            && words[0] != "disconnect"@
            && words[0] != "forget"@
            && words[0] != "help"@
            && words[0] != "info"@
            && words[0] != "join"@
            && words[0] != "list"@
            && words[0] != "msg"@
            && words[0] != "nick"@
            && words[0] != "passwd"@
            && words[0] != "quit"@
            && words[0] != "setupkeys"@
            && words[0] != "update"@ ==> after == before && logs(step, "Unknown command"@),
{
    lemma_commands_differ();
}

/// Help is shown for the words that follow, and quitting does nothing but end the client.
pub proof fn law_help_and_quit(
    protocol: Protocol,
    before: Client,
    words: Seq<Seq<char>>,
    after: Client,
    step: StepView,
)
    requires
        runs(protocol, before, words, after, step),
        words.len() > 0,
    ensures
        words[0] == "help"@ ==> after == before && does(step, seq![EffectView::Help(words.skip(1))]),
        words[0] == "quit"@ ==> after == before && step.effects.len() == 0 && step.next
            == NextView::Quit,
{
    lemma_commands_differ();
}

/// A bare `/disconnect` tells the server that the connection ends, and leaves no session.
pub proof fn law_disconnect_closes(
    protocol: Protocol,
    before: Client,
    words: Seq<Seq<char>>,
    after: Client,
    step: StepView,
)
    requires
        runs(protocol, before, words, after, step),
        words.len() == 1,
        words[0] == "disconnect"@,
        before.session is Some,
    ensures
        after == (Client { session: None, ..before }),
        does(step, seq![EffectView::Close]),
{
    lemma_commands_differ();
}

/// A new name is kept, the server is told of it if there is one, and it is logged; the
/// session stays as it is.
pub proof fn law_nick_is_kept_and_told(
    protocol: Protocol,
    before: Client,
    words: Seq<Seq<char>>,
    after: Client,
    step: StepView,
)
    requires
        runs(protocol, before, words, after, step),
        words.len() == 2,
        words[0] == "nick"@,
    ensures
        after.session == before.session,
        after.connector.nick@ == words[1],
        before.session is None ==> does(
            step,
            seq![
                EffectView::SaveNick(words[1]),
                EffectView::Log("Your name is now "@ + words[1]),
            ],
        ),
        before.session is Some ==> does(
            step,
            seq![
                EffectView::SaveNick(words[1]),
                EffectView::Send(
                    PacketView::LoginUpdate {
                        name: Some(words[1]),
                        password_current: None,
                        password_new: None,
                        reset_token: false,
                    },
                ),
                EffectView::Log("Your name is now "@ + words[1]),
            ],
        ),
{
    lemma_commands_differ();
    if before.session is None {
        assert(step.effects =~= seq![
            EffectView::SaveNick(words[1]),
            EffectView::Log("Your name is now "@ + words[1]),
        ]);
    } else {
        assert(step.effects =~= seq![
            EffectView::SaveNick(words[1]),
            EffectView::Send(
                PacketView::LoginUpdate {
                    name: Some(words[1]),
                    password_current: None,
                    password_new: None,
                    reset_token: false,
                },
            ),
            EffectView::Log("Your name is now "@ + words[1]),
        ]);
    }
}

/// With a session, a bare `/passwd` asks in secret for the password so far.
pub proof fn law_passwd_asks(
    protocol: Protocol,
    before: Client,
    words: Seq<Seq<char>>,
    after: Client,
    step: StepView,
)
    requires
        runs(protocol, before, words, after, step),
        words.len() == 1,
        words[0] == "passwd"@,
        before.session is Some,
    ensures
        after == before,
        step.effects == seq![EffectView::Log("Current password: "@)],
        step.next == NextView::AskSecret(QuestionView::PasswordCurrent),
{
    lemma_commands_differ();
}

/// With a session, `/create channel` sends the name without its mark; those who join may
/// read and write, bots may do nothing. Nothing else can be created.
pub proof fn law_create_makes_channels(
    protocol: Protocol,
    before: Client,
    words: Seq<Seq<char>>,
    after: Client,
    step: StepView,
    name: Seq<char>,
)
    requires
        runs(protocol, before, words, after, step),
        words.len() >= 3,
        words[0] == "create"@,
        before.session is Some,
    ensures
        after == before,
        words[1] != "channel"@ ==> logs(step, "Unable to create that"@),
        words[1] == "channel"@ && words.len() > 3 ==> logs(
            step,
            "Usage: /create channel <name>"@,
        ),
        words[1] == "channel"@ && words.len() == 3 && (words[2] == seq!['#'] + name || (words[2]
            == name && (name.len() == 0 || name[0] != '#'))) ==> does(
            step,
            seq![
                EffectView::Send(
                    PacketView::ChannelCreate {
                        default_mode_bot: 0,
                        default_mode_user: protocol.permissions.read | protocol.permissions.write,
                        name,
                        recipient: None,
                    },
                ),
            ],
        ),
{
    lemma_commands_differ();
    assert((seq!['#'] + name).skip(1) =~= name);
}

/// With a session, `/delete` sends the number of a channel that is known or of any message.
/// What is no number is refused before all else.
pub proof fn law_delete_names_the_number(
    protocol: Protocol,
    before: Client,
    words: Seq<Seq<char>>,
    after: Client,
    step: StepView,
    id: usize,
)
    requires
        runs(protocol, before, words, after, step),
        words.len() == 3,
        words[0] == "delete"@,
        before.session is Some,
    ensures
        after == before,
        number_of(words[2]) is None || number_of(words[2]).unwrap() > usize::MAX ==> logs(
            step,
            "Failed to parse ID"@,
        ),
        number_of(words[2]) == Some(id as nat) ==> {
            &&& words[1] == "message"@ ==> does(
                step,
                seq![EffectView::Send(PacketView::MessageDelete { id })],
            )
            &&& words[1] == "channel"@ && before.session.unwrap().state.channels@.contains_key(
                id,
            ) ==> does(step, seq![EffectView::Send(PacketView::ChannelDelete { id })])
            &&& words[1] == "channel"@ && !before.session.unwrap().state.channels@.contains_key(
                id,
            ) ==> logs(step, "Nothing with that ID exists"@)
            &&& words[1] != "message"@ && words[1] != "channel"@ ==> logs(
                step,
                "Unable to delete that"@,
            )
        },
{
    lemma_commands_differ();
}

/// Without a session, `/connect` looks up a host at the default port, or at the port behind
/// the colon; with a session it is refused.
pub proof fn law_connect_looks_up(
    protocol: Protocol,
    before: Client,
    words: Seq<Seq<char>>,
    after: Client,
    step: StepView,
    host: Seq<char>,
    port: u16,
)
    requires
        runs(protocol, before, words, after, step),
        words.len() == 2,
        words[0] == "connect"@,
    ensures
        after == before,
        before.session is Some ==> logs(step, "You have to disconnect before doing that."@),
        before.session is None && words[1] == host + seq![':'] + decimal(port as nat)
            ==> step.effects.len() == 0 && step.next == (NextView::Resolve {
            host,
            port,
            purpose: Purpose::Connect,
        }),
        before.session is None && !words[1].contains(':') ==> step.effects.len() == 0 && step.next
            == (NextView::Resolve {
            host: words[1],
            port: protocol.default_port,
            purpose: Purpose::Connect,
        }),
        before.session is None && (exists|i: int|
            {
                &&& 0 <= i < words[1].len()
                &&& words[1][i] == ':'
                &&& match number_of(#[trigger] words[1].skip(i + 1)) {
                    Some(n) => n > 65535,
                    None => true,
                }
                &&& !words[1].skip(i + 1).contains(':')
            }) ==> logs(step, "Could not parse IP"@),
{
    lemma_commands_differ();
    law_address_comes_apart(host, port, protocol.default_port);
    law_bad_ports_are_refused(words[1], protocol.default_port);
}

/// `/forget` looks up a host at the default port, or at the port behind the colon, with or
/// without a session.
pub proof fn law_forget_looks_up(
    protocol: Protocol,
    before: Client,
    words: Seq<Seq<char>>,
    after: Client,
    step: StepView,
    host: Seq<char>,
    port: u16,
)
    requires
        runs(protocol, before, words, after, step),
        words.len() == 2,
        words[0] == "forget"@,
    ensures
        after == before,
        words[1] == host + seq![':'] + decimal(port as nat) ==> step.effects.len() == 0
            && step.next == (NextView::Resolve { host, port, purpose: Purpose::Forget }),
        !words[1].contains(':') ==> step.effects.len() == 0 && step.next == (NextView::Resolve {
            host: words[1],
            port: protocol.default_port,
            purpose: Purpose::Forget,
        }),
        (exists|i: int|
            {
                &&& 0 <= i < words[1].len()
                &&& words[1][i] == ':'
                &&& match number_of(#[trigger] words[1].skip(i + 1)) {
                    Some(n) => n > 65535,
                    None => true,
                }
                &&& !words[1].skip(i + 1).contains(':')
            }) ==> logs(step, "Invalid IP"@),
{
    lemma_commands_differ();
    law_address_comes_apart(host, port, protocol.default_port);
    law_bad_ports_are_refused(words[1], protocol.default_port);
}

/// An address that was found is connected to or forgotten, as it was looked up for; one that
/// was not found is refused.
pub proof fn law_found_addresses_are_used(address: Seq<char>)
    ensures
        does(
            resolved_step(Purpose::Connect, Some(address)),
            seq![EffectView::Connect(address)],
        ),
        does(resolved_step(Purpose::Forget, Some(address)), seq![EffectView::Forget(address)]),
        logs(resolved_step(Purpose::Connect, None), "Could not parse IP"@),
        logs(resolved_step(Purpose::Forget, None), "Invalid IP"@),
{
}

/// A command to a bot sends all words but the name to the bot of that name. Others, and bots
/// that nobody knows, get nothing, and neither does a name without words.
pub proof fn law_bots_get_the_words(client: Client, words: Seq<Seq<char>>, step: StepView)
    requires
        commands_bot(client.session, words, step),
    ensures
        client.session is None ==> logs(step, "You're not connected to a server"@),
        client.session is Some && words.len() < 2 ==> does(step, seq![]),
        client.session is Some && words.len() >= 2 ==> {
            let users = client.session.unwrap().state.users@;
            ||| exists|k: usize|
                {
                    &&& users.contains_key(k)
                    &&& (#[trigger] users[k]).name@ == words[0]
                    &&& users[k].bot ==> does(
                        step,
                        seq![
                            EffectView::Send(
                                PacketView::Command {
                                    args: words.subrange(1, words.len() as int),
                                    recipient: users[k].id,
                                },
                            ),
                        ],
                    )
                    &&& !users[k].bot ==> logs(step, "That's not a bot!"@)
                }
            ||| {
                &&& forall|k: usize|
                    users.contains_key(k) ==> (#[trigger] users[k]).name@ != words[0]
                &&& logs(step, "No such user"@)
            }
        },
{
    assert(words.len() >= 2 ==> words.skip(1) =~= words.subrange(1, words.len() as int));
}

/// With a session, `/update channel` shows the channel under that number and asks for its new
/// name; what is not there is refused.
pub proof fn law_update_asks_for_a_channel(
    protocol: Protocol,
    before: Client,
    words: Seq<Seq<char>>,
    after: Client,
    step: StepView,
    id: usize,
)
    requires
        runs(protocol, before, words, after, step),
        words.len() == 3,
        words[0] == "update"@,
        before.session is Some,
    ensures
        after == before,
        number_of(words[2]) is None || number_of(words[2]).unwrap() > usize::MAX ==> logs(
            step,
            "Not a valid number"@,
        ),
        number_of(words[2]) == Some(id as nat) && words[1] == "channel"@ ==> {
            let channels = before.session.unwrap().state.channels@;
            if channels.contains_key(id) {
                let channel = channels[id];
                &&& step.effects == seq![
                    EffectView::Log("Editing: #"@ + channel.name@),
                    EffectView::Log("(Press enter to keep current value)"@),
                    EffectView::Log(seq![]),
                    EffectView::Log("Name ["@ + channel.name@ + "]: "@),
                ]
                &&& step.next == NextView::Ask(
                    QuestionView::ChannelName {
                        id: channel.id,
                        name: channel.name@,
                        default_mode_bot: channel.default_mode_bot,
                        default_mode_user: channel.default_mode_user,
                    },
                )
            } else {
                logs(step, "Nothing with that ID exists"@)
            }
        },
        number_of(words[2]) == Some(id as nat) && words[1] != "channel"@ && words[1] != "user"@
            ==> logs(step, "Unable to delete that"@),
{
    lemma_commands_differ();
}

/// With a session, `/update user` shows whether the user under that number is an
/// administrator and asks whether they are to be one. Their permissions in the channel that
/// the session is in are kept for the next question: none where they have none of their own.
pub proof fn law_update_asks_for_a_user(
    protocol: Protocol,
    before: Client,
    words: Seq<Seq<char>>,
    after: Client,
    step: StepView,
    id: usize,
)
    requires
        runs(protocol, before, words, after, step),
        words.len() == 3,
        words[0] == "update"@,
        words[1] == "user"@,
        before.session is Some,
        number_of(words[2]) == Some(id as nat),
    ensures
        after == before,
        ({
            let session = before.session.unwrap();
            let users = session.state.users@;
            let channels = session.state.channels@;
            if users.contains_key(id) {
                let user = users[id];
                &&& user.admin ==> step.effects == seq![
                    EffectView::Log("Admin ["@ + "true"@ + "]: "@),
                ]
                &&& !user.admin ==> step.effects == seq![
                    EffectView::Log("Admin ["@ + "false"@ + "]: "@),
                ]
                &&& step.next is Ask
                &&& step.next->Ask_0 is UserAdmin
                &&& step.next->Ask_0->UserAdmin_id == id
                &&& step.next->Ask_0->UserAdmin_admin == user.admin
                &&& forall|k: usize|
                    session.channel == Some(k) && #[trigger] channels.contains_key(k) ==> {
                        &&& step.next->Ask_0->UserAdmin_prompt is Some
                        &&& step.next->Ask_0->UserAdmin_prompt.unwrap().channel == channels[k].id
                        &&& step.next->Ask_0->UserAdmin_prompt.unwrap().name == channels[k].name@
                        &&& user.modes@.contains_key(channels[k].id)
                            ==> step.next->Ask_0->UserAdmin_prompt.unwrap().mode
                            == user.modes@[channels[k].id]
                        &&& !user.modes@.contains_key(channels[k].id)
                            ==> step.next->Ask_0->UserAdmin_prompt.unwrap().mode == 0
                    }
                &&& session.channel is None || !channels.contains_key(session.channel.unwrap())
                    ==> step.next->Ask_0->UserAdmin_prompt is None
            } else {
                logs(step, "Nothing with that ID exists"@)
            }
        }),
{
    lemma_commands_differ();
}

/// A new key pair is shown line by line, and the recipient's public key is asked for, with
/// the new private key kept; where there is no pair, it is said why.
pub proof fn law_pairs_are_shown(
    recipient: usize,
    private: Seq<u8>,
    public: Seq<u8>,
    why: Seq<char>,
)
    ensures
        ({
            let step = pair_step(recipient, Ok((private, public)));
            &&& step.effects == seq![
                EffectView::Log("In order to secure your connection, we need two things:"@),
                EffectView::Log("1. You need to give your recipient this \"public key\":"@),
                EffectView::Log(crate::text::lossy_text(public)),
                EffectView::Log("2. Have your recipient run /setupkeys too."@),
                EffectView::Log("You will be asked to enter his/her public key here."@),
                EffectView::Log("When you've entered it, type \"END\"."@),
                EffectView::Log("Enter his/her public key here:"@),
            ]
            &&& step.next == NextView::Ask(
                QuestionView::KeyLine { recipient, private, text: seq![] },
            )
        }),
        does(
            pair_step(recipient, Err(why)),
            seq![
                EffectView::Log("In order to secure your connection, we need two things:"@),
                EffectView::Log("Error! Failed to generate a key pair."@),
                EffectView::Log("Details: "@ + why),
            ],
        ),
{
}

/// With a session, `/setupkeys` makes a pair of the length of the protocol for a user of that
/// name, or says that there is none.
pub proof fn law_setupkeys_is_for_a_user(
    protocol: Protocol,
    before: Client,
    words: Seq<Seq<char>>,
    after: Client,
    step: StepView,
)
    requires
        runs(protocol, before, words, after, step),
        words.len() == 2,
        words[0] == "setupkeys"@,
        before.session is Some,
    ensures
        after == before,
        ({
            let users = before.session.unwrap().state.users@;
            ||| {
                &&& forall|k: usize|
                    users.contains_key(k) ==> (#[trigger] users[k]).name@ != words[1]
                &&& logs(step, "No such user"@)
            }
            ||| exists|k: usize|
                {
                    &&& users.contains_key(k)
                    &&& (#[trigger] users[k]).name@ == words[1]
                    &&& is_key_offer(protocol.rsa_length, users[k].id, step)
                }
        }),
{
    lemma_commands_differ();
}

} // verus!
