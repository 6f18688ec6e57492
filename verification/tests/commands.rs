use std::collections::HashMap;

use synac_client::commands::{
    classify, pair_made, resolved, run_bot_command, run_command, speak, Line,
};
use synac_client::dialogue::{answer, key_entered};
use synac_client::keys::{new_pair, KeyPair};
use synac_client::model::{find_user, Channel, Client, Connector, Session, User};
use synac_client::packets::{Packet, Protocol};
use synac_client::permissions::Permissions;
use synac_client::steps::{Effect, ModePrompt, Next, Purpose, Question, Step};

fn protocol() -> Protocol {
    Protocol {
        permissions: Permissions { read: 1, write: 2, manage_channels: 4, manage_messages: 8 },
        limit_bulk: 64,
        default_port: 8439,
        rsa_length: 1024,
    }
}

fn text(text: &str) -> String {
    String::from(text)
}

fn user(id: usize, name: &str) -> User {
    User {
        admin: false,
        ban: false,
        bot: false,
        id,
        modes: HashMap::new(),
        name: text(name),
        private_channel: None,
    }
}

fn channel(id: usize, name: &str) -> Channel {
    Channel {
        default_mode_bot: 0,
        default_mode_user: 3,
        id,
        name: text(name),
        private: false,
        recipient: None,
    }
}

fn offline() -> Client {
    Client { connector: Connector { nick: text("me") }, session: None }
}

/// Connected: channels 10 `general` and 11 `random`; users 1 `me`, 2 `bob` (an
/// administrator with a private channel), 3 `robot` (a bot) and 4 `eve` (banned).
fn online() -> Client {
    let mut session = Session::new(text("127.0.0.1:8439"), 1);
    session.state.channels.insert(10, channel(10, "general"));
    session.state.channels.insert(11, channel(11, "random"));
    session.state.users.insert(1, user(1, "me"));
    let mut bob = user(2, "bob");
    bob.admin = true;
    bob.private_channel = Some(12);
    bob.modes.insert(10, 7);
    bob.modes.insert(99, 1);
    session.state.users.insert(2, bob);
    session.state.users.insert(3, User { bot: true, ..user(3, "robot") });
    session.state.users.insert(4, User { ban: true, ..user(4, "eve") });
    Client { session: Some(session), ..offline() }
}

fn in_general() -> Client {
    let mut client = online();
    client.session.as_mut().unwrap().channel = Some(10);
    client
}

fn run(client: &mut Client, words: &[&str]) -> Step {
    let words = words.iter().map(|word| text(word)).collect();
    run_command(client, &protocol(), words)
}

fn says(line: &str) -> Step {
    shows(&[line])
}

fn shows(lines: &[&str]) -> Step {
    Step { effects: lines.iter().map(|line| Effect::Log(text(line))).collect(), next: Next::Ready }
}

fn sends(packet: Packet) -> Step {
    Step { effects: vec![Effect::Send(packet)], next: Next::Ready }
}

fn nothing() -> Step {
    Step { effects: vec![], next: Next::Ready }
}

fn not_connected() -> Step {
    says("You're not connected to a server")
}

fn reply(question: Question, reply: &str) -> Step {
    answer(&protocol(), question, Some(text(reply)))
}

#[test]
fn lines_are_told_apart_by_their_first_character() {
    assert_eq!(classify(""), Line::Empty);
    assert_eq!(classify("/ban bob"), Line::Command(text("ban bob")));
    assert_eq!(classify("/"), Line::Command(text("")));
    assert_eq!(classify("!robot hi"), Line::Bot(text("robot hi")));
    assert_eq!(classify(" /ban"), Line::Text);
    assert_eq!(classify("ä/"), Line::Text);
}

#[test]
fn a_line_without_a_command_does_nothing() {
    assert_eq!(run(&mut online(), &[]), nothing());
}

#[test]
fn unknown_commands_are_refused() {
    assert_eq!(run(&mut online(), &["frobnicate", "x"]), says("Unknown command"));
    assert_eq!(run(&mut offline(), &["Ban", "bob"]), says("Unknown command"));
    assert_eq!(run(&mut offline(), &[""]), says("Unknown command"));
}

#[test]
fn quitting_ends_the_client() {
    assert_eq!(run(&mut offline(), &["quit"]), Step { effects: vec![], next: Next::Quit });
    assert_eq!(run(&mut online(), &["quit", "now"]), Step { effects: vec![], next: Next::Quit });
}

#[test]
fn help_is_asked_for() {
    assert_eq!(
        run(&mut offline(), &["help", "ban", "msg"]),
        Step { effects: vec![Effect::Help(vec![text("ban"), text("msg")])], next: Next::Ready }
    );
}

#[test]
fn most_commands_need_a_session() {
    let cases: [&[&str]; 14] = [
        &["ban", "bob"],
        &["unban", "bob"],
        &["create", "channel", "x"],
        &["delete", "channel", "10"],
        &["disconnect"],
        &["info", "bob"],
        &["join", "general"],
        &["list", "users"],
        &["msg", "bob"],
        &["passwd"],
        &["setupkeys", "bob"],
        &["update", "user", "2"],
        &["list", "nonsense"],
        &["update", "nonsense", "x"],
    ];
    for words in cases.iter() {
        let mut client = offline();
        assert_eq!(run(&mut client, words), not_connected(), "{:?}", words);
        assert!(client.session.is_none());
    }
}

#[test]
fn a_wrong_number_of_words_is_told_first() {
    let cases: [(&[&str], &str); 17] = [
        (&["ban"], "Usage: /ban/unban <user>"),
        (&["unban", "a", "b"], "Usage: /ban/unban <user>"),
        (&["connect"], "Usage: /connect <ip[:port]>"),
        (&["create", "channel"], "Usage: /create <\"channel\"/\"group\"> <name> [data]"),
        (&["delete", "channel"], "Usage: /delete <\"channel\"/\"message\"> <id>"),
        (&["disconnect", "now"], "Usage: /disconnect"),
        (&["forget"], "Usage: /forget <ip>"),
        (&["info"], "Usage: /info <channel/user>"),
        (&["join"], "Usage: /join <channel>"),
        (&["list"], "Usage: /list <\"channels\"/\"groups\"/\"users\">"),
        (&["msg"], "Usage: /msg <user>"),
        (&["nick"], "Usage: /nick <name>"),
        (&["nick", "a", "b"], "Usage: /nick <name>"),
        (&["passwd", "x"], "Usage: /passwd"),
        (&["setupkeys"], "Usage: /setupkeys <user>"),
        (&["update", "user"], "Usage: /update <\"channel\"/\"user\"> <id>"),
        (&["update", "user", "1", "2"], "Usage: /update <\"channel\"/\"user\"> <id>"),
    ];
    for (words, line) in cases.iter() {
        let mut client = offline();
        assert_eq!(run(&mut client, words), says(line), "{:?}", words);
        let mut client = online();
        assert_eq!(run(&mut client, words), says(line), "{:?}", words);
        assert!(client.session.is_some());
        assert_eq!(client.connector.nick, "me");
    }
}

#[test]
fn users_are_banned_and_unbanned() {
    let packet = |ban: bool| Packet::UserUpdate {
        admin: None,
        ban: Some(ban),
        channel_mode: None,
        id: 2,
    };
    assert_eq!(run(&mut online(), &["ban", "bob"]), sends(packet(true)));
    assert_eq!(run(&mut online(), &["unban", "bob"]), sends(packet(false)));
    assert_eq!(run(&mut online(), &["ban", "alice"]), says("No such user"));
}

#[test]
fn users_are_found_by_their_whole_name() {
    let client = online();
    let users = &client.session.as_ref().unwrap().state.users;
    assert_eq!(find_user(users, "bob").unwrap().id, 2);
    assert!(find_user(users, "bo").is_none());
    assert!(find_user(users, "Bob").is_none());
}

#[test]
fn connecting_looks_the_address_up() {
    let looks_up = |host: &str, port: u16| Step {
        effects: vec![],
        next: Next::Resolve { host: text(host), port, purpose: Purpose::Connect },
    };
    assert_eq!(run(&mut offline(), &["connect", "example.org"]), looks_up("example.org", 8439));
    assert_eq!(run(&mut offline(), &["connect", "example.org:1"]), looks_up("example.org", 1));
    assert_eq!(run(&mut offline(), &["connect", "example.org:x"]), says("Could not parse IP"));
    assert_eq!(
        run(&mut online(), &["connect", "example.org"]),
        says("You have to disconnect before doing that.")
    );
}

#[test]
fn forgetting_looks_the_address_up() {
    assert_eq!(
        run(&mut online(), &["forget", "h:2"]),
        Step {
            effects: vec![],
            next: Next::Resolve { host: text("h"), port: 2, purpose: Purpose::Forget },
        }
    );
    assert_eq!(run(&mut offline(), &["forget", "h:"]), says("Invalid IP"));
}

#[test]
fn an_address_that_was_found_is_used() {
    let ready = |effect: Effect| Step { effects: vec![effect], next: Next::Ready };
    let address = || Some(text("127.0.0.1:1"));
    assert_eq!(
        resolved(Purpose::Connect, address()),
        ready(Effect::Connect(text("127.0.0.1:1")))
    );
    assert_eq!(resolved(Purpose::Forget, address()), ready(Effect::Forget(text("127.0.0.1:1"))));
    assert_eq!(resolved(Purpose::Connect, None), says("Could not parse IP"));
    assert_eq!(resolved(Purpose::Forget, None), says("Invalid IP"));
}

#[test]
fn channels_are_created() {
    let created = |name: &str| {
        sends(Packet::ChannelCreate {
            default_mode_bot: 0,
            default_mode_user: 3,
            name: text(name),
            recipient: None,
        })
    };
    assert_eq!(run(&mut online(), &["create", "channel", "new"]), created("new"));
    assert_eq!(run(&mut online(), &["create", "channel", "#new"]), created("new"));
    assert_eq!(run(&mut online(), &["create", "channel", "##new"]), created("#new"));
    assert_eq!(
        run(&mut online(), &["create", "channel", "new", "x"]),
        says("Usage: /create channel <name>")
    );
    assert_eq!(run(&mut online(), &["create", "group", "new"]), says("Unable to create that"));
}

#[test]
fn channels_and_messages_are_deleted() {
    let client = &mut online();
    assert_eq!(run(client, &["delete", "channel", "10"]), sends(Packet::ChannelDelete { id: 10 }));
    assert_eq!(run(client, &["delete", "channel", "12"]), says("Nothing with that ID exists"));
    assert_eq!(run(client, &["delete", "message", "77"]), sends(Packet::MessageDelete { id: 77 }));
    assert_eq!(run(client, &["delete", "user", "2"]), says("Unable to delete that"));
    assert_eq!(run(client, &["delete", "user", "x"]), says("Failed to parse ID"));
    assert_eq!(
        run(client, &["delete", "message", "99999999999999999999999"]),
        says("Failed to parse ID")
    );
}

#[test]
fn disconnecting_ends_the_session() {
    let mut client = online();
    assert_eq!(
        run(&mut client, &["disconnect"]),
        Step { effects: vec![Effect::Close], next: Next::Ready }
    );
    assert!(client.session.is_none());
    assert_eq!(run(&mut client, &["disconnect"]), not_connected());
}

#[test]
fn info_shows_a_channel() {
    let lines = [
        "",
        "Channel #general",
        "ID: #10",
        "Default mode for bots: ",
        "Default mode for users: +rw",
    ];
    for name in ["general", "#general", "##general", "10", "#10"].iter() {
        assert_eq!(run(&mut online(), &["info", name]), shows(&lines), "{}", name);
    }
    assert_eq!(run(&mut online(), &["info", "nobody"]), says(""));
}

#[test]
fn info_shows_a_user() {
    let lines = ["", "User bob", "Bot: false", "ID: #2", "Channel #general mode: +rwc"];
    assert_eq!(run(&mut online(), &["info", "bob"]), shows(&lines));
    assert_eq!(run(&mut online(), &["info", "2"]), shows(&lines));
    let lines = ["", "User eve", "Banned.", "Bot: false", "ID: #4"];
    assert_eq!(run(&mut online(), &["info", "eve"]), shows(&lines));
    let lines = ["", "User robot", "Bot: true", "ID: #3"];
    assert_eq!(run(&mut online(), &["info", "robot"]), shows(&lines));
}

#[test]
fn info_shows_channels_before_users() {
    let mut client = online();
    let state = &mut client.session.as_mut().unwrap().state;
    state.users.insert(10, user(10, "x"));
    let step = run(&mut client, &["info", "10"]);
    assert_eq!(step.effects[1], Effect::Log(text("Channel #general")));
    assert_eq!(step.effects[5], Effect::Log(text("User x")));
    assert_eq!(step.effects.len(), 8);
}

#[test]
fn joining_enters_a_channel() {
    for name in ["general", "#general"].iter() {
        let mut client = online();
        assert_eq!(
            run(&mut client, &["join", name]),
            Step {
                effects: vec![
                    Effect::Clear,
                    Effect::Log(text("Joined channel #general")),
                    Effect::Send(Packet::MessageList {
                        after: None,
                        before: None,
                        channel: 10,
                        limit: 64,
                    }),
                ],
                next: Next::Ready,
            }
        );
        assert_eq!(client.session.unwrap().channel, Some(10));
    }
}

#[test]
fn joining_nowhere_changes_nothing() {
    let mut client = in_general();
    assert_eq!(run(&mut client, &["join", "##general"]), says("No channel found with that name"));
    let session = client.session.unwrap();
    assert_eq!(session.channel, Some(10));
    assert_eq!(session.state.users.len(), 4);
    assert_eq!(session.state.channels.len(), 2);
}

#[test]
fn channels_are_listed_in_order() {
    assert_eq!(run(&mut online(), &["list", "channels"]), says("#general, #random"));
    let mut client = online();
    client.session.as_mut().unwrap().state.channels.clear();
    assert_eq!(run(&mut client, &["list", "channels"]), says(""));
}

#[test]
fn users_are_listed_in_order() {
    assert_eq!(
        run(&mut online(), &["list", "users"]),
        shows(&["bob, me, robot", "Banned:", "eve"])
    );
    assert_eq!(run(&mut online(), &["list", "groups"]), says("Unable to list that"));
}

#[test]
fn a_nameless_user_gets_no_comma() {
    let mut client = online();
    client.session.as_mut().unwrap().state.users.insert(5, user(5, ""));
    assert_eq!(
        run(&mut client, &["list", "users"]),
        shows(&["bob, me, robot", "Banned:", "eve"])
    );
}

#[test]
fn private_channels_are_entered() {
    let mut client = online();
    assert_eq!(
        run(&mut client, &["msg", "bob"]),
        Step {
            effects: vec![
                Effect::Clear,
                Effect::Log(text("Joined private channel")),
                Effect::Send(Packet::MessageList {
                    after: None,
                    before: None,
                    channel: 12,
                    limit: 64,
                }),
            ],
            next: Next::Ready,
        }
    );
    assert_eq!(client.session.unwrap().channel, Some(12));
}

#[test]
fn private_channels_are_created_first() {
    let mut client = in_general();
    assert_eq!(
        run(&mut client, &["msg", "robot"]),
        Step {
            effects: vec![
                Effect::SendOrStop(Packet::ChannelCreate {
                    default_mode_bot: 0,
                    default_mode_user: 0,
                    name: text(""),
                    recipient: Some(3),
                }),
                Effect::Log(text("Creating channel with <user>...")),
                Effect::Log(text("Type command again to switch to it.")),
            ],
            next: Next::Ready,
        }
    );
    assert_eq!(client.session.as_ref().unwrap().channel, Some(10));
    assert_eq!(run(&mut client, &["msg", "nobody"]), says("No such user"));
}

#[test]
fn a_new_name_is_kept() {
    let mut client = offline();
    assert_eq!(
        run(&mut client, &["nick", "you"]),
        Step {
            effects: vec![
                Effect::SaveNick(text("you")),
                Effect::Log(text("Your name is now you")),
            ],
            next: Next::Ready,
        }
    );
    assert_eq!(client.connector.nick, "you");
}

#[test]
fn a_server_is_told_the_new_name() {
    let mut client = in_general();
    assert_eq!(
        run(&mut client, &["nick", "you"]),
        Step {
            effects: vec![
                Effect::SaveNick(text("you")),
                Effect::Send(Packet::LoginUpdate {
                    name: Some(text("you")),
                    password_current: None,
                    password_new: None,
                    reset_token: false,
                }),
                Effect::Log(text("Your name is now you")),
            ],
            next: Next::Ready,
        }
    );
    assert_eq!(client.connector.nick, "you");
    assert_eq!(client.session.unwrap().channel, Some(10));
}

#[test]
fn passwords_are_asked_for_and_sent() {
    let step = run(&mut online(), &["passwd"]);
    assert_eq!(
        step,
        Step {
            effects: vec![Effect::Log(text("Current password: "))],
            next: Next::AskSecret(Question::PasswordCurrent),
        }
    );
    let step = reply(Question::PasswordCurrent, "old");
    assert_eq!(
        step,
        Step {
            effects: vec![Effect::Log(text("New password: "))],
            next: Next::AskSecret(Question::PasswordNew { current: text("old") }),
        }
    );
    assert_eq!(
        reply(Question::PasswordNew { current: text("old") }, " new "),
        Step {
            effects: vec![
                Effect::SendOrStop(Packet::LoginUpdate {
                    name: None,
                    password_current: Some(text("old")),
                    password_new: Some(text(" new ")),
                    reset_token: true,
                }),
                Effect::AwaitReply,
            ],
            next: Next::Ready,
        }
    );
}

#[test]
fn giving_up_on_a_question_does_nothing() {
    let questions = vec![
        Question::PasswordCurrent,
        Question::PasswordNew { current: text("old") },
        Question::ChannelName { id: 1, name: text("n"), default_mode_bot: 0, default_mode_user: 0 },
        Question::ChannelBots { id: 1, name: text("n"), default_mode_bot: 0, default_mode_user: 0 },
        Question::ChannelUsers { id: 1, name: text("n"), default_mode_bot: 0, default_mode_user: 0 },
        Question::UserAdmin { id: 1, admin: false, prompt: None },
        Question::UserMode { id: 1, channel: 2, mode: 3 },
    ];
    for question in questions {
        assert_eq!(answer(&protocol(), question, None), nothing());
    }
}

#[test]
fn setting_up_keys_shows_the_public_one() {
    let step = run(&mut online(), &["setupkeys", "bob"]);
    assert_eq!(step.effects.len(), 7);
    assert_eq!(
        step.effects[0],
        Effect::Log(text("In order to secure your connection, we need two things:"))
    );
    match (&step.effects[2], &step.next) {
        (Effect::Log(public), Next::Ask(Question::KeyLine { recipient, private, text })) => {
            assert_eq!(*recipient, 2);
            assert_eq!(text, "");
            let rsa = openssl::rsa::Rsa::private_key_from_pem(private).unwrap();
            assert_eq!(public.as_bytes(), &rsa.public_key_to_pem().unwrap()[..]);
            assert_eq!(rsa.n().num_bits(), 1024);
        }
        _ => panic!("no key is asked for"),
    }
    assert_eq!(run(&mut online(), &["setupkeys", "nobody"]), says("No such user"));
}

#[test]
fn a_pair_that_was_made_is_shown() {
    let step = pair_made(5, Ok(KeyPair { private: vec![1], public: b"P\xffQ".to_vec() }));
    assert_eq!(
        step,
        Step {
            effects: [
                "In order to secure your connection, we need two things:",
                "1. You need to give your recipient this \"public key\":",
                "P\u{fffd}Q",
                "2. Have your recipient run /setupkeys too.",
                "You will be asked to enter his/her public key here.",
                "When you've entered it, type \"END\".",
                "Enter his/her public key here:",
            ]
            .iter()
            .map(|line| Effect::Log(text(line)))
            .collect(),
            next: Next::Ask(Question::KeyLine { recipient: 5, private: vec![1], text: text("") }),
        }
    );
}

#[test]
fn a_pair_that_was_not_made_is_told() {
    assert_eq!(
        pair_made(5, Err(text("no luck"))),
        shows(&[
            "In order to secure your connection, we need two things:",
            "Error! Failed to generate a key pair.",
            "Details: no luck",
        ])
    );
}

#[test]
fn lines_of_a_key_are_gathered() {
    let question = Question::KeyLine { recipient: 5, private: vec![1], text: text("a\n") };
    assert_eq!(
        reply(question, " b"),
        Step {
            effects: vec![],
            next: Next::Ask(Question::KeyLine {
                recipient: 5,
                private: vec![1],
                text: text("a\n b\n"),
            }),
        }
    );
}

#[test]
fn a_good_key_is_kept() {
    let pair = new_pair(1024).unwrap();
    let pem = String::from_utf8(pair.public).unwrap();
    let mut question = Question::KeyLine { recipient: 5, private: vec![1], text: text("") };
    for line in pem.lines() {
        question = match reply(question, line).next {
            Next::Ask(question) => question,
            _ => panic!("no more lines are asked for"),
        };
    }
    assert_eq!(
        reply(question, "END"),
        Step {
            effects: vec![Effect::SaveKeys { private: vec![1], public: pem, recipient: 5 }],
            next: Next::Ready,
        }
    );
}

#[test]
fn a_key_may_end_with_the_input() {
    let pem = String::from_utf8(new_pair(1024).unwrap().public).unwrap();
    let question = Question::KeyLine { recipient: 5, private: vec![1], text: pem.clone() };
    assert_eq!(
        answer(&protocol(), question, None).effects,
        vec![Effect::SaveKeys { private: vec![1], public: pem, recipient: 5 }]
    );
}

#[test]
fn a_bad_key_is_refused() {
    let question = Question::KeyLine { recipient: 5, private: vec![1], text: text("nonsense\n") };
    let step = reply(question, "END");
    assert_eq!(step.next, Next::Ready);
    assert_eq!(step.effects.len(), 2);
    assert_eq!(step.effects[0], Effect::Log(text("Error! Did you enter it correctly?")));
    match &step.effects[1] {
        Effect::Log(line) => assert!(line.starts_with("Details: ") && line.len() > 9),
        _ => panic!("no details"),
    }
}

#[test]
fn a_key_that_was_checked_is_kept_or_refused() {
    assert_eq!(
        key_entered(5, vec![1], text("k"), None),
        Step {
            effects: vec![Effect::SaveKeys { private: vec![1], public: text("k"), recipient: 5 }],
            next: Next::Ready,
        }
    );
    assert_eq!(
        key_entered(5, vec![1], text("k"), Some(text("why"))),
        shows(&["Error! Did you enter it correctly?", "Details: why"])
    );
}

#[test]
fn updating_needs_something_that_exists() {
    let client = &mut online();
    assert_eq!(run(client, &["update", "channel", "x"]), says("Not a valid number"));
    assert_eq!(run(client, &["update", "channel", "2"]), says("Nothing with that ID exists"));
    assert_eq!(run(client, &["update", "user", "10"]), says("Nothing with that ID exists"));
    assert_eq!(run(client, &["update", "group", "2"]), says("Unable to delete that"));
}

#[test]
fn a_channel_is_updated() {
    let step = run(&mut online(), &["update", "channel", "10"]);
    assert_eq!(
        step.effects,
        shows(&["Editing: #general", "(Press enter to keep current value)", "", "Name [general]: "])
            .effects
    );
    let question = Question::ChannelName {
        id: 10,
        name: text("general"),
        default_mode_bot: 0,
        default_mode_user: 3,
    };
    assert_eq!(step.next, Next::Ask(question));
    let question = Question::ChannelName {
        id: 10,
        name: text("general"),
        default_mode_bot: 0,
        default_mode_user: 3,
    };
    let step = reply(question, "  lobby ");
    assert_eq!(step.effects, says("Default mode for bots []: ").effects);
    let question = match step.next {
        Next::Ask(question) => question,
        _ => panic!("nothing is asked"),
    };
    let step = reply(question, "+r");
    assert_eq!(step.effects, says("Default mode for users [+rw]: ").effects);
    let question = match step.next {
        Next::Ask(question) => question,
        _ => panic!("nothing is asked"),
    };
    assert_eq!(
        reply(question, "-w+m"),
        Step {
            effects: vec![
                Effect::Log(text("9")),
                Effect::Send(Packet::ChannelUpdate {
                    default_mode_bot: 1,
                    default_mode_user: 9,
                    id: 10,
                    name: text("lobby"),
                    private: false,
                }),
            ],
            next: Next::Ready,
        }
    );
}

#[test]
fn pressing_enter_keeps_a_channel() {
    let mut step = run(&mut online(), &["update", "channel", "11"]);
    for blank in ["", "  ", "\t"].iter() {
        step = match step.next {
            Next::Ask(question) => reply(question, blank),
            _ => panic!("nothing is asked"),
        };
    }
    assert_eq!(
        step.effects[1],
        Effect::Send(Packet::ChannelUpdate {
            default_mode_bot: 0,
            default_mode_user: 3,
            id: 11,
            name: text("random"),
            private: false,
        })
    );
}

#[test]
fn bad_permissions_of_a_channel_are_refused() {
    let bots =
        Question::ChannelBots { id: 1, name: text("n"), default_mode_bot: 0, default_mode_user: 0 };
    assert_eq!(reply(bots, "rx"), says("Invalid permission string."));
    let users =
        Question::ChannelUsers { id: 1, name: text("n"), default_mode_bot: 0, default_mode_user: 0 };
    assert_eq!(reply(users, "z"), says("Invalid permission string."));
}

#[test]
fn a_user_becomes_an_administrator() {
    let step = run(&mut in_general(), &["update", "user", "1"]);
    assert_eq!(step.effects, says("Admin [false]: ").effects);
    let question = match step.next {
        Next::Ask(question) => question,
        _ => panic!("nothing is asked"),
    };
    assert_eq!(
        reply(question, " true "),
        sends(Packet::UserUpdate { admin: Some(true), ban: None, channel_mode: None, id: 1 })
    );
}

#[test]
fn a_user_outside_a_channel_is_not_asked_for_permissions() {
    let step = run(&mut online(), &["update", "user", "2"]);
    assert_eq!(step.effects, says("Admin [true]: ").effects);
    assert_eq!(step.next, Next::Ask(Question::UserAdmin { id: 2, admin: true, prompt: None }));
    assert_eq!(
        reply(Question::UserAdmin { id: 2, admin: true, prompt: None }, ""),
        sends(Packet::UserUpdate { admin: None, ban: None, channel_mode: None, id: 2 })
    );
    assert_eq!(
        reply(Question::UserAdmin { id: 2, admin: true, prompt: None }, "yes"),
        says("Invalid boolean")
    );
}

#[test]
fn the_permissions_of_a_user_are_changed() {
    let ask = || match run(&mut in_general(), &["update", "user", "2"]).next {
        Next::Ask(question) => {
            let step = reply(question, "true");
            assert_eq!(
                step.effects,
                shows(&["Mode in #general [+rwc]: ", "Type r to remove"]).effects
            );
            match step.next {
                Next::Ask(question) => question,
                _ => panic!("no permissions are asked for"),
            }
        }
        _ => panic!("nothing is asked"),
    };
    let changed = |mode: Option<u8>| {
        sends(Packet::UserUpdate { admin: None, ban: None, channel_mode: Some((10, mode)), id: 2 })
    };
    assert_eq!(ask(), Question::UserMode { id: 2, channel: 10, mode: 7 });
    assert_eq!(reply(ask(), " -c"), changed(Some(3)));
    assert_eq!(reply(ask(), ""), changed(Some(7)));
    assert_eq!(reply(ask(), " r "), changed(None));
    assert_eq!(reply(ask(), "q"), says("Invalid permission string"));
}

#[test]
fn a_user_without_permissions_starts_from_none() {
    let step = run(&mut in_general(), &["update", "user", "3"]);
    assert_eq!(
        step.next,
        Next::Ask(Question::UserAdmin {
            id: 3,
            admin: false,
            prompt: Some(ModePrompt { channel: 10, name: text("general"), mode: 0 }),
        })
    );
}

#[test]
fn bots_get_commands() {
    let words = |words: &[&str]| words.iter().map(|word| text(word)).collect::<Vec<String>>();
    assert_eq!(
        run_bot_command(&online(), words(&["robot", "roll", "6"])),
        sends(Packet::Command { args: words(&["roll", "6"]), recipient: 3 })
    );
    assert_eq!(run_bot_command(&online(), words(&["bob", "hi"])), says("That's not a bot!"));
    assert_eq!(run_bot_command(&online(), words(&["nobody", "hi"])), says("No such user"));
    assert_eq!(run_bot_command(&online(), words(&["robot"])), nothing());
    assert_eq!(run_bot_command(&online(), words(&[])), nothing());
    assert_eq!(run_bot_command(&offline(), words(&[])), not_connected());
}

#[test]
fn what_is_said_goes_to_the_channel() {
    assert_eq!(
        speak(&in_general(), "grüße"),
        Step {
            effects: vec![
                Effect::LogSending(text("me: grüße")),
                Effect::Send(Packet::MessageCreate {
                    channel: 10,
                    text: "grüße".as_bytes().to_vec(),
                }),
            ],
            next: Next::Ready,
        }
    );
}

#[test]
fn speaking_needs_a_session_and_a_channel() {
    assert_eq!(speak(&offline(), "hi"), not_connected());
    assert_eq!(
        speak(&online(), "hi"),
        says("No channel specified. See /create channel, /list channels and /join")
    );
}

#[test]
fn the_last_message_is_corrected() {
    let mut client = in_general();
    client.session.as_mut().unwrap().last = Some((77, b"a banana\xff".to_vec()));
    let corrected = |message: &str| {
        sends(Packet::MessageUpdate { id: 77, text: message.as_bytes().to_vec() })
    };
    assert_eq!(speak(&client, "s/an/x"), corrected("a bxxa\u{fffd}"));
    assert_eq!(speak(&client, "s/an/x/y"), corrected("a bx/yx/ya\u{fffd}"));
    assert_eq!(speak(&client, "s/an/"), corrected("a ba\u{fffd}"));
    assert_eq!(speak(&client, "s/nothing/x"), corrected("a banana\u{fffd}"));
    assert_eq!(speak(&client, "s/an"), nothing());
    assert_eq!(speak(&client, "s/"), nothing());
}

#[test]
fn without_a_last_message_a_correction_is_said() {
    let step = speak(&in_general(), "s/a/b");
    assert_eq!(step.effects[0], Effect::LogSending(text("me: s/a/b")));
    assert_eq!(
        step.effects[1],
        Effect::Send(Packet::MessageCreate { channel: 10, text: b"s/a/b".to_vec() })
    );
}
