//! Commands that ask the user something: each answer leads to the next question, to a
//! packet or to nothing.

use vstd::prelude::*;
use vstd::string::StringExecFns;

use crate::encrypter::{PublicKey, OPENSSL_LIMIT};
use crate::keys::{is_public_key, may_refuse, reads_as_public_key};
use crate::packets::{optional_text, Packet, PacketView, Protocol};
use crate::permissions::{applied, from_perm_string, perm_string, to_perm_string, Permissions};
use crate::steps::{
    add_effect, add_line, do_nothing, no_effects, nothing, optional_prompt, say, says,
    send, sends, Effect, EffectView, ModePrompt, ModePromptView, Next, NextView, Question,
    QuestionView, Step, StepView,
};
use crate::text::{bytes_of, decimal, decimal_text, law_trimmed_stays, same_text, trim, trimmed};

verus! {

broadcast use vstd::string::group_string_axioms;

/// A line is logged and an answer is waited for.
pub open spec fn asks(line: Seq<char>, question: QuestionView) -> StepView {
    StepView { effects: seq![EffectView::Log(line)], next: NextView::Ask(question) }
}

/// Logs a line and waits for an answer.
fn ask(line: String, question: Question) -> (res: Step)
    ensures
        res@ == asks(line@, question@),
{
    let mut effects = no_effects();
    add_effect(&mut effects, Effect::Log(line));
    let res = Step { effects, next: Next::Ask(question) };
    assert(res@ =~= asks(line@, question@));
    res
}

/// A text between brackets, as a prompt shows the current value.
pub open spec fn prompts(before: Seq<char>, value: Seq<char>) -> Seq<char> {
    before + value + "]: "@
}

/// Shows the current value in a prompt.
pub fn prompt_text(before: &str, value: &str) -> (res: String)
    ensures
        res@ == prompts(before@, value@),
{
    let mut res = before.to_owned();
    res.append(value);
    res.append("]: ");
    res
}

/// The permissions that an answer asks for: those so far if it is blank, `None` if it
/// cannot be read.
pub open spec fn new_mode(perms: Permissions, reply: Seq<char>, mode: u8) -> Option<u8> {
    if trimmed(reply).len() == 0 {
        Some(mode)
    } else if applied(perms, reply, mode, true).0 {
        Some(applied(perms, reply, mode, true).1)
    } else {
        None
    }
}

/// Reads the permissions that an answer asks for.
fn read_mode(perms: &Permissions, reply: &str, mode: u8) -> (res: Option<u8>)
    ensures
        res == new_mode(*perms, reply@, mode),
{
    if trim(reply).as_str().is_empty() {
        return Some(mode);
    }
    let mut bitmask: u8 = mode;
    if from_perm_string(reply, &mut bitmask, perms) {
        Some(bitmask)
    } else {
        None
    }
}

/// The packet that changes a user.
pub open spec fn user_packet(
    id: usize,
    admin: Option<bool>,
    channel_mode: Option<(usize, Option<u8>)>,
) -> PacketView {
    PacketView::UserUpdate { admin, ban: None, channel_mode, id }
}

/// What follows from the answer whether a user is to be an administrator. Where that does
/// not change and the client is in a channel, their permissions there are asked for.
pub open spec fn after_admin(
    perms: Permissions,
    id: usize,
    admin: bool,
    prompt: Option<ModePromptView>,
    reply: Seq<char>,
) -> StepView {
    let answer = trimmed(reply);
    let wanted = if answer.len() == 0 {
        Some(admin)
    } else if answer == "true"@ {
        Some(true)
    } else if answer == "false"@ {
        Some(false)
    } else {
        None
    };
    match wanted {
        None => says("Invalid boolean"@),
        Some(wanted) => if wanted != admin {
            sends(user_packet(id, Some(wanted), None))
        } else {
            match prompt {
                Some(prompt) => StepView {
                    effects: seq![
                        EffectView::Log(
                            prompts(
                                "Mode in #"@ + prompt.name + " ["@,
                                perm_string(perms, prompt.mode),
                            ),
                        ),
                        EffectView::Log("Type r to remove"@),
                    ],
                    next: NextView::Ask(
                        QuestionView::UserMode { id, channel: prompt.channel, mode: prompt.mode },
                    ),
                },
                None => sends(user_packet(id, None, None)),
            }
        },
    }
}

/// What follows from the answer which permissions a user is to have in a channel.
pub open spec fn after_mode(
    perms: Permissions,
    id: usize,
    channel: usize,
    mode: u8,
    reply: Seq<char>,
) -> StepView {
    let answer = trimmed(reply);
    if answer == "r"@ {
        sends(user_packet(id, None, Some((channel, None))))
    } else {
        match new_mode(perms, answer, mode) {
            Some(mode) => sends(user_packet(id, None, Some((channel, Some(mode))))),
            None => says("Invalid permission string"@),
        }
    }
}

/// What follows once a public key was entered: it is kept if it can be read.
pub open spec fn after_key(
    recipient: usize,
    private: Seq<u8>,
    text: Seq<char>,
    failure: Option<Seq<char>>,
) -> StepView {
    match failure {
        Some(why) => StepView {
            effects: seq![
                EffectView::Log("Error! Did you enter it correctly?"@),
                EffectView::Log("Details: "@ + why),
            ],
            next: NextView::Ready,
        },
        None => StepView {
            effects: seq![EffectView::SaveKeys { private, public: text, recipient }],
            next: NextView::Ready,
        },
    }
}

/// Keeps a public key that was entered, or says why it cannot be read.
pub fn key_entered(
    recipient: usize,
    private: Vec<u8>,
    text: String,
    failure: Option<String>,
) -> (res: Step)
    ensures
        res@ == after_key(recipient, private@, text@, optional_text(failure)),
{
    let mut effects = no_effects();
    match failure {
        Some(why) => {
            add_line(&mut effects, "Error! Did you enter it correctly?");
            let mut line = "Details: ".to_owned();
            line.append(why.as_str());
            add_effect(&mut effects, Effect::Log(line));
        },
        None => {
            add_effect(&mut effects, Effect::SaveKeys { private, public: text, recipient });
        },
    }
    let res = Step { effects, next: Next::Ready };
    assert(res@ =~= after_key(recipient, private@, text@, optional_text(failure)));
    res
}

/// Whether a step may follow once a public key was entered. Whether the key is accepted is
/// left to OpenSSL: one that is kept can be read as some public key, of another OpenSSL says
/// why.
pub open spec fn checks_key(
    recipient: usize,
    private: Seq<u8>,
    text: Seq<char>,
    step: StepView,
) -> bool {
    exists|failure: Option<Seq<char>>|
        {
            &&& step == #[trigger] after_key(recipient, private, text, failure)
            &&& match failure {
                Some(why) => may_refuse(bytes_of(text), why),
                None => is_public_key(bytes_of(text)),
            }
        }
}

/// Whether a step may follow from an answer, or from there being none. Only the check of a
/// public key leaves anything open.
pub open spec fn answers(
    perms: Permissions,
    question: QuestionView,
    reply: Option<Seq<char>>,
    step: StepView,
) -> bool {
    match (question, reply) {
        (QuestionView::KeyLine { recipient, private, text }, reply) => match reply {
            Some(line) => if line == "END"@ {
                checks_key(recipient, private, text, step)
            } else {
                step == StepView {
                    effects: seq![],
                    next: NextView::Ask(
                        QuestionView::KeyLine {
                            recipient,
                            private,
                            text: text + line + seq!['\n'],
                        },
                    ),
                }
            },
            None => checks_key(recipient, private, text, step),
        },
        (_, None) => step == nothing(),
        (QuestionView::PasswordCurrent, Some(reply)) => step == StepView {
            effects: seq![EffectView::Log("New password: "@)],
            next: NextView::AskSecret(QuestionView::PasswordNew { current: reply }),
        },
        (QuestionView::PasswordNew { current }, Some(reply)) => step == StepView {
            effects: seq![
                EffectView::SendOrStop(
                    PacketView::LoginUpdate {
                        name: None,
                        password_current: Some(current),
                        password_new: Some(reply),
                        reset_token: true,
                    },
                ),
                EffectView::AwaitReply,
            ],
            next: NextView::Ready,
        },
        (
            QuestionView::ChannelName { id, name, default_mode_bot, default_mode_user },
            Some(reply),
        ) => step == asks(
            prompts("Default mode for bots ["@, perm_string(perms, default_mode_bot)),
            QuestionView::ChannelBots {
                id,
                name: if trimmed(reply).len() == 0 {
                    name
                } else {
                    trimmed(reply)
                },
                default_mode_bot,
                default_mode_user,
            },
        ),
        (
            QuestionView::ChannelBots { id, name, default_mode_bot, default_mode_user },
            Some(reply),
        ) => step == match new_mode(perms, reply, default_mode_bot) {
            Some(mode) => asks(
                prompts("Default mode for users ["@, perm_string(perms, default_mode_user)),
                QuestionView::ChannelUsers { id, name, default_mode_bot: mode, default_mode_user },
            ),
            None => says("Invalid permission string."@),
        },
        (
            QuestionView::ChannelUsers { id, name, default_mode_bot, default_mode_user },
            Some(reply),
        ) => step == match new_mode(perms, reply, default_mode_user) {
            Some(mode) => StepView {
                effects: seq![
                    EffectView::Log(decimal(mode as nat)),
                    EffectView::Send(
                        PacketView::ChannelUpdate {
                            default_mode_bot,
                            default_mode_user: mode,
                            id,
                            name,
                            private: false,
                        },
                    ),
                ],
                next: NextView::Ready,
            },
            None => says("Invalid permission string."@),
        },
        (QuestionView::UserAdmin { id, admin, prompt }, Some(reply)) => step == after_admin(
            perms,
            id,
            admin,
            prompt,
            reply,
        ),
        (QuestionView::UserMode { id, channel, mode }, Some(reply)) => step == after_mode(
            perms,
            id,
            channel,
            mode,
            reply,
        ),
    }
}

/// A public key that is being entered is short enough for OpenSSL.
pub open spec fn question_wf(question: Question) -> bool {
    match question {
        Question::KeyLine { recipient, private, text } => bytes_of(text@).len() <= OPENSSL_LIMIT,
        _ => true,
    }
}

/// Checks a public key that was entered.
fn check_key(recipient: usize, private: Vec<u8>, text: String) -> (res: Step)
    requires
        bytes_of(text@).len() <= OPENSSL_LIMIT,
    ensures
        checks_key(recipient, private@, text@, res@),
{
    match PublicKey::from_pem(text.as_str().as_bytes()) {
        Ok(key) => {
            assert(reads_as_public_key(bytes_of(text@), key.n@, key.e@));
            key_entered(recipient, private, text, None)
        },
        Err(why) => key_entered(recipient, private, text, Some(why)),
    }
}

/// Goes on with an answer whether a user is to be an administrator.
fn admin_answered(
    perms: &Permissions,
    id: usize,
    admin: bool,
    prompt: Option<ModePrompt>,
    reply: &str,
) -> (res: Step)
    ensures
        res@ == after_admin(*perms, id, admin, optional_prompt(prompt), reply@),
{
    let answer = trim(reply);
    let wanted: bool = if answer.as_str().is_empty() {
        admin
    } else if same_text(answer.as_str(), "true") {
        true
    } else if same_text(answer.as_str(), "false") {
        false
    } else {
        return say("Invalid boolean");
    };
    if wanted != admin {
        return send(
            Packet::UserUpdate { admin: Some(wanted), ban: None, channel_mode: None, id },
        );
    }
    match prompt {
        Some(prompt) => {
            let mut before = "Mode in #".to_owned();
            before.append(prompt.name.as_str());
            before.append(" [");
            let mode = to_perm_string(prompt.mode, perms);
            let mut effects = no_effects();
            add_effect(&mut effects, Effect::Log(prompt_text(before.as_str(), mode.as_str())));
            add_line(&mut effects, "Type r to remove");
            let res = Step {
                effects,
                next: Next::Ask(
                    Question::UserMode { id, channel: prompt.channel, mode: prompt.mode },
                ),
            };
            assert(res@ =~= after_admin(*perms, id, admin, Some(prompt@), reply@));
            res
        },
        None => send(Packet::UserUpdate { admin: None, ban: None, channel_mode: None, id }),
    }
}

/// Goes on with an answer which permissions a user is to have in a channel.
fn mode_answered(perms: &Permissions, id: usize, channel: usize, mode: u8, reply: &str) -> (res:
    Step)
    ensures
        res@ == after_mode(*perms, id, channel, mode, reply@),
{
    let answer = trim(reply);
    if same_text(answer.as_str(), "r") {
        return send(
            Packet::UserUpdate { admin: None, ban: None, channel_mode: Some((channel, None)), id },
        );
    }
    match read_mode(perms, answer.as_str(), mode) {
        Some(mode) => send(
            Packet::UserUpdate {
                admin: None,
                ban: None,
                channel_mode: Some((channel, Some(mode))),
                id,
            },
        ),
        None => say("Invalid permission string"),
    }
}

/// Goes on with the answer to a question; `None` if there is none.
pub fn answer(protocol: &Protocol, question: Question, reply: Option<String>) -> (res: Step)
    requires
        question_wf(question),
    ensures
        answers(protocol.permissions, question@, optional_text(reply), res@),
{
    let perms = &protocol.permissions;
    if let Question::KeyLine { recipient, private, text } = question {
        return match reply {
            Some(line) => {
                if same_text(line.as_str(), "END") {
                    check_key(recipient, private, text)
                } else {
                    let ghost before = text@;
                    let mut text = text;
                    text.append(line.as_str());
                    text.push('\n');
                    assert(text@ =~= before + line@ + seq!['\n']);
                    Step {
                        effects: no_effects(),
                        next: Next::Ask(Question::KeyLine { recipient, private, text }),
                    }
                }
            },
            None => check_key(recipient, private, text),
        };
    }
    let reply = match reply {
        Some(reply) => reply,
        None => {
            return do_nothing();
        },
    };
    match question {
        Question::PasswordCurrent => {
            let mut effects = no_effects();
            add_line(&mut effects, "New password: ");
            let res = Step {
                effects,
                next: Next::AskSecret(Question::PasswordNew { current: reply }),
            };
            assert(res@.effects =~= seq![EffectView::Log("New password: "@)]);
            res
        },
        Question::PasswordNew { current } => {
            let packet = Packet::LoginUpdate {
                name: None,
                password_current: Some(current),
                password_new: Some(reply),
                reset_token: true,
            };
            let mut effects = no_effects();
            add_effect(&mut effects, Effect::SendOrStop(packet));
            add_effect(&mut effects, Effect::AwaitReply);
            let res = Step { effects, next: Next::Ready };
            assert(res@.effects =~= seq![
                EffectView::SendOrStop(packet@),
                EffectView::AwaitReply,
            ]);
            res
        },
        Question::ChannelName { id, name, default_mode_bot, default_mode_user } => {
            let mut name = name;
            let new_name = trim(reply.as_str());
            if !new_name.as_str().is_empty() {
                name = new_name;
            }
            let mode = to_perm_string(default_mode_bot, perms);
            ask(
                prompt_text("Default mode for bots [", mode.as_str()),
                Question::ChannelBots { id, name, default_mode_bot, default_mode_user },
            )
        },
        Question::ChannelBots { id, name, default_mode_bot, default_mode_user } => {
            match read_mode(perms, reply.as_str(), default_mode_bot) {
                Some(new_bot) => {
                    let mode = to_perm_string(default_mode_user, perms);
                    ask(
                        prompt_text("Default mode for users [", mode.as_str()),
                        Question::ChannelUsers {
                            id,
                            name,
                            default_mode_bot: new_bot,
                            default_mode_user,
                        },
                    )
                },
                None => say("Invalid permission string."),
            }
        },
        Question::ChannelUsers { id, name, default_mode_bot, default_mode_user } => {
            match read_mode(perms, reply.as_str(), default_mode_user) {
                Some(new_user) => {
                    let packet = Packet::ChannelUpdate {
                        default_mode_bot,
                        default_mode_user: new_user,
                        id,
                        name,
                        private: false,
                    };
                    let mut effects = no_effects();
                    add_effect(&mut effects, Effect::Log(decimal_text(new_user as u64)));
                    add_effect(&mut effects, Effect::Send(packet));
                    let res = Step { effects, next: Next::Ready };
                    assert(res@.effects =~= seq![
                        EffectView::Log(decimal(new_user as nat)),
                        EffectView::Send(packet@),
                    ]);
                    res
                },
                None => say("Invalid permission string."),
            }
        },
        Question::UserAdmin { id, admin, prompt } => admin_answered(
            perms,
            id,
            admin,
            prompt,
            reply.as_str(),
        ),
        Question::UserMode { id, channel, mode } => mode_answered(
            perms,
            id,
            channel,
            mode,
            reply.as_str(),
        ),
        Question::KeyLine { recipient: _, private: _, text: _ } => do_nothing(),
    }
}

/// Blank answers to all questions about a channel send its current values back.
pub proof fn law_enter_keeps_channel(
    perms: Permissions,
    id: usize,
    name: Seq<char>,
    default_mode_bot: u8,
    default_mode_user: u8,
    replies: (Seq<char>, Seq<char>, Seq<char>),
    questions: (QuestionView, QuestionView),
    steps: (StepView, StepView, StepView),
)
    requires
        trimmed(replies.0).len() == 0,
        trimmed(replies.1).len() == 0,
        trimmed(replies.2).len() == 0,
        answers(
            perms,
            QuestionView::ChannelName { id, name, default_mode_bot, default_mode_user },
            Some(replies.0),
            steps.0,
        ),
        steps.0.next == NextView::Ask(questions.0),
        answers(perms, questions.0, Some(replies.1), steps.1),
        steps.1.next == NextView::Ask(questions.1),
        answers(perms, questions.1, Some(replies.2), steps.2),
    ensures
        steps.2.effects == seq![
            EffectView::Log(decimal(default_mode_user as nat)),
            EffectView::Send(
                PacketView::ChannelUpdate {
                    default_mode_bot,
                    default_mode_user,
                    id,
                    name,
                    private: false,
                },
            ),
        ],
        steps.2.next is Ready,
{
}

/// Blank answers to all questions about a user change nothing of them: whether they are an
/// administrator is not mentioned, and their permissions are sent back where the client is
/// in a channel.
pub proof fn law_enter_keeps_user(
    perms: Permissions,
    id: usize,
    admin: bool,
    prompt: ModePromptView,
    replies: (Seq<char>, Seq<char>),
    question: QuestionView,
    steps: (StepView, StepView),
)
    requires
        trimmed(replies.0).len() == 0,
        trimmed(replies.1).len() == 0,
        answers(
            perms,
            QuestionView::UserAdmin { id, admin, prompt: Some(prompt) },
            Some(replies.0),
            steps.0,
        ),
        steps.0.next == NextView::Ask(question),
        answers(perms, question, Some(replies.1), steps.1),
    ensures
        steps.1 == sends(user_packet(id, None, Some((prompt.channel, Some(prompt.mode))))),
        after_admin(perms, id, admin, None, replies.0) == sends(user_packet(id, None, None)),
{
    reveal_strlit("r");
    assert(trimmed(replies.1) != "r"@);
    law_trimmed_stays(replies.1);
}

/// Lines one behind the other, each with its end.
pub open spec fn joined(lines: Seq<Seq<char>>) -> Seq<char>
    decreases lines.len(),
{
    if lines.len() == 0 {
        seq![]
    } else {
        joined(lines.drop_last()) + lines.last() + seq!['\n']
    }
}

/// While a public key is entered, all lines so far are kept as they were typed.
pub proof fn law_key_lines_add_up(
    perms: Permissions,
    recipient: usize,
    private: Seq<u8>,
    lines: Seq<Seq<char>>,
    steps: Seq<StepView>,
)
    requires
        lines.len() > 0,
        steps.len() == lines.len(),
        forall|i: int| 0 <= i < lines.len() ==> #[trigger] lines[i] != "END"@,
        answers(
            perms,
            QuestionView::KeyLine { recipient, private, text: seq![] },
            Some(lines[0]),
            steps[0],
        ),
        forall|i: int|
            0 < i < lines.len() ==> #[trigger] steps[i - 1].next is Ask && answers(
                perms,
                steps[i - 1].next->Ask_0,
                Some(lines[i]),
                steps[i],
            ),
    ensures
        steps.last() == (StepView {
            effects: seq![],
            next: NextView::Ask(QuestionView::KeyLine { recipient, private, text: joined(lines) }),
        }),
    decreases lines.len(),
{
    let last = lines.len() - 1;
    assert(lines[last] != "END"@);
    assert(joined(lines.drop_last()) + lines.last() + seq!['\n'] == joined(lines));
    if last == 0 {
        assert(lines.drop_last() =~= Seq::empty());
        assert(seq![] + lines.last() + seq!['\n'] == joined(lines));
    } else {
        let fewer = lines.drop_last();
        let before = steps.drop_last();
        assert forall|i: int| 0 < i < fewer.len() implies #[trigger] before[i - 1].next is Ask
            && answers(perms, before[i - 1].next->Ask_0, Some(fewer[i]), before[i]) by {
            assert(steps[i - 1].next is Ask);
        }
        assert forall|i: int| 0 <= i < fewer.len() implies #[trigger] fewer[i] != "END"@ by {
            assert(lines[i] != "END"@);
        }
        law_key_lines_add_up(perms, recipient, private, fewer, before);
        assert(steps[last - 1].next is Ask);
    }
}

} // verus!
