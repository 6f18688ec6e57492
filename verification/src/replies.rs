//! What each answer leads to, said outright.

use vstd::prelude::*;

use crate::deeds::{does, logs};
use crate::dialogue::{after_key, answers, checks_key};
use crate::packets::PacketView;
use crate::permissions::{applied, perm_string, Permissions};
use crate::steps::{EffectView, ModePromptView, NextView, QuestionView, StepView};
use crate::text::{decimal, law_trimmed_stays, trimmed};

verus! {

/// The words that answers are compared with are all different.
proof fn lemma_answers_differ()
    ensures
        "true"@.len() == 4,
        "false"@.len() == 5,
        "r"@.len() == 1,
{
    reveal_strlit("true");
    reveal_strlit("false");
    reveal_strlit("r");
}

/// An answer that asks for the other value of whether a user is an administrator sends that
/// value, in both directions, and nothing else.
pub proof fn law_admin_is_changed(
    perms: Permissions,
    id: usize,
    admin: bool,
    prompt: Option<ModePromptView>,
    reply: Seq<char>,
    wanted: bool,
    step: StepView,
)
    requires
        answers(perms, QuestionView::UserAdmin { id, admin, prompt }, Some(reply), step),
        wanted ==> trimmed(reply) == "true"@,
        !wanted ==> trimmed(reply) == "false"@,
        wanted != admin,
    ensures
        does(
            step,
            seq![
                EffectView::Send(
                    PacketView::UserUpdate {
                        admin: Some(wanted),
                        ban: None,
                        channel_mode: None,
                        id,
                    },
                ),
            ],
        ),
{
    lemma_answers_differ();
}

/// An answer that leaves it as it is whether a user is an administrator sends nothing of it.
/// In a channel, the permissions of the user there are shown and asked for.
pub proof fn law_admin_stays(
    perms: Permissions,
    id: usize,
    admin: bool,
    prompt: Option<ModePromptView>,
    reply: Seq<char>,
    step: StepView,
)
    requires
        answers(perms, QuestionView::UserAdmin { id, admin, prompt }, Some(reply), step),
        ({
            ||| trimmed(reply) == Seq::<char>::empty()
            ||| admin && trimmed(reply) == "true"@
            ||| !admin && trimmed(reply) == "false"@
        }),
    ensures
        prompt is None ==> does(
            step,
            seq![
                EffectView::Send(
                    PacketView::UserUpdate { admin: None, ban: None, channel_mode: None, id },
                ),
            ],
        ),
        prompt is Some ==> step.effects == seq![
            EffectView::Log(
                "Mode in #"@ + prompt.unwrap().name + " ["@ + perm_string(
                    perms,
                    prompt.unwrap().mode,
                ) + "]: "@,
            ),
            EffectView::Log("Type r to remove"@),
        ] && step.next == NextView::Ask(
            QuestionView::UserMode {
                id,
                channel: prompt.unwrap().channel,
                mode: prompt.unwrap().mode,
            },
        ),
{
    lemma_answers_differ();
}

/// Any other answer whether a user is an administrator is refused.
pub proof fn law_other_booleans_are_refused(
    perms: Permissions,
    id: usize,
    admin: bool,
    prompt: Option<ModePromptView>,
    reply: Seq<char>,
    step: StepView,
)
    requires
        answers(perms, QuestionView::UserAdmin { id, admin, prompt }, Some(reply), step),
        trimmed(reply) != Seq::<char>::empty(),
        trimmed(reply) != "true"@,
        trimmed(reply) != "false"@,
    ensures
        logs(step, "Invalid boolean"@),
{
    if trimmed(reply).len() == 0 {
        assert(trimmed(reply) =~= Seq::<char>::empty());
    }
}

/// The answer which permissions a user is to have in a channel takes them away, leaves them
/// as they are or changes them letter by letter, for this user and this channel alone; one
/// that cannot be read is refused.
pub proof fn law_mode_is_changed(
    perms: Permissions,
    id: usize,
    channel: usize,
    mode: u8,
    reply: Seq<char>,
    step: StepView,
)
    requires
        answers(perms, QuestionView::UserMode { id, channel, mode }, Some(reply), step),
    ensures
        trimmed(reply) == "r"@ ==> does(
            step,
            seq![
                EffectView::Send(
                    PacketView::UserUpdate {
                        admin: None,
                        ban: None,
                        channel_mode: Some((channel, None)),
                        id,
                    },
                ),
            ],
        ),
        trimmed(reply) == Seq::<char>::empty() ==> does(
            step,
            seq![
                EffectView::Send(
                    PacketView::UserUpdate {
                        admin: None,
                        ban: None,
                        channel_mode: Some((channel, Some(mode))),
                        id,
                    },
                ),
            ],
        ),
        trimmed(reply) != "r"@ && trimmed(reply) != Seq::<char>::empty() ==> {
            let change = applied(perms, trimmed(reply), mode, true);
            &&& change.0 ==> does(
                step,
                seq![
                    EffectView::Send(
                        PacketView::UserUpdate {
                            admin: None,
                            ban: None,
                            channel_mode: Some((channel, Some(change.1))),
                            id,
                        },
                    ),
                ],
            )
            &&& !change.0 ==> logs(step, "Invalid permission string"@)
        },
{
    lemma_answers_differ();
    law_trimmed_stays(reply);
    if trimmed(reply).len() == 0 {
        assert(trimmed(reply) =~= Seq::<char>::empty());
    }
}

/// The new name of a channel is what was answered, without the white space around it, or the
/// name so far; then the permissions of bots are asked for.
pub proof fn law_channel_name_is_taken(
    perms: Permissions,
    id: usize,
    name: Seq<char>,
    bots: u8,
    users: u8,
    reply: Seq<char>,
    step: StepView,
)
    requires
        answers(
            perms,
            QuestionView::ChannelName {
                id,
                name,
                default_mode_bot: bots,
                default_mode_user: users,
            },
            Some(reply),
            step,
        ),
    ensures
        step.effects == seq![
            EffectView::Log("Default mode for bots ["@ + perm_string(perms, bots) + "]: "@),
        ],
        trimmed(reply) == Seq::<char>::empty() ==> step.next == NextView::Ask(
            QuestionView::ChannelBots {
                id,
                name,
                default_mode_bot: bots,
                default_mode_user: users,
            },
        ),
        trimmed(reply) != Seq::<char>::empty() ==> step.next == NextView::Ask(
            QuestionView::ChannelBots {
                id,
                name: trimmed(reply),
                default_mode_bot: bots,
                default_mode_user: users,
            },
        ),
{
    if trimmed(reply).len() == 0 {
        assert(trimmed(reply) =~= Seq::<char>::empty());
    }
}

/// The new permissions of bots in a channel are those so far, changed letter by letter; then
/// the permissions of users are asked for. What cannot be read is refused.
pub proof fn law_channel_bots_are_changed(
    perms: Permissions,
    id: usize,
    name: Seq<char>,
    bots: u8,
    users: u8,
    reply: Seq<char>,
    step: StepView,
)
    requires
        answers(
            perms,
            QuestionView::ChannelBots {
                id,
                name,
                default_mode_bot: bots,
                default_mode_user: users,
            },
            Some(reply),
            step,
        ),
    ensures
        ({
            let change = applied(perms, reply, bots, true);
            let blank = trimmed(reply) == Seq::<char>::empty();
            &&& !blank && !change.0 ==> logs(step, "Invalid permission string."@)
            &&& blank || change.0 ==> step.effects == seq![
                EffectView::Log("Default mode for users ["@ + perm_string(perms, users) + "]: "@),
            ]
            &&& blank ==> step.next == NextView::Ask(
                QuestionView::ChannelUsers {
                    id,
                    name,
                    default_mode_bot: bots,
                    default_mode_user: users,
                },
            )
            &&& !blank && change.0 ==> step.next == NextView::Ask(
                QuestionView::ChannelUsers {
                    id,
                    name,
                    default_mode_bot: change.1,
                    default_mode_user: users,
                },
            )
        }),
{
    if trimmed(reply).len() == 0 {
        assert(trimmed(reply) =~= Seq::<char>::empty());
    }
}

/// The new permissions of users in a channel are those so far, changed letter by letter; the
/// channel is then sent with all its new values, never as a private one. What cannot be read
/// is refused.
pub proof fn law_channel_users_are_changed(
    perms: Permissions,
    id: usize,
    name: Seq<char>,
    bots: u8,
    users: u8,
    reply: Seq<char>,
    step: StepView,
)
    requires
        answers(
            perms,
            QuestionView::ChannelUsers {
                id,
                name,
                default_mode_bot: bots,
                default_mode_user: users,
            },
            Some(reply),
            step,
        ),
    ensures
        ({
            let change = applied(perms, reply, users, true);
            let blank = trimmed(reply) == Seq::<char>::empty();
            &&& !blank && !change.0 ==> logs(step, "Invalid permission string."@)
            &&& blank ==> does(
                step,
                seq![
                    EffectView::Log(decimal(users as nat)),
                    EffectView::Send(
                        PacketView::ChannelUpdate {
                            default_mode_bot: bots,
                            default_mode_user: users,
                            id,
                            name,
                            private: false,
                        },
                    ),
                ],
            )
            &&& !blank && change.0 ==> does(
                step,
                seq![
                    EffectView::Log(decimal(change.1 as nat)),
                    EffectView::Send(
                        PacketView::ChannelUpdate {
                            default_mode_bot: bots,
                            default_mode_user: change.1,
                            id,
                            name,
                            private: false,
                        },
                    ),
                ],
            )
        }),
{
    if trimmed(reply).len() == 0 {
        assert(trimmed(reply) =~= Seq::<char>::empty());
    }
}

/// The password so far and the one from now on are sent as they were typed, and the reply
/// is waited for.
pub proof fn law_passwords_are_sent(
    perms: Permissions,
    current: Seq<char>,
    new: Seq<char>,
    first: StepView,
    second: StepView,
)
    requires
        answers(perms, QuestionView::PasswordCurrent, Some(current), first),
        answers(perms, QuestionView::PasswordNew { current }, Some(new), second),
    ensures
        first.effects == seq![EffectView::Log("New password: "@)],
        first.next == NextView::AskSecret(QuestionView::PasswordNew { current }),
        does(
            second,
            seq![
                EffectView::SendOrStop(
                    PacketView::LoginUpdate {
                        name: None,
                        password_current: Some(current),
                        password_new: Some(new),
                        reset_token: true,
                    },
                ),
                EffectView::AwaitReply,
            ],
        ),
{
}

/// Whoever gives no answer ends the questions, and nothing is sent; only a public key that is
/// being entered counts as complete then.
pub proof fn law_no_answer_ends_it(perms: Permissions, question: QuestionView, step: StepView)
    requires
        answers(perms, question, None, step),
    ensures
        !(question is KeyLine) ==> does(step, seq![]),
        question is KeyLine ==> checks_key(
            question->KeyLine_recipient,
            question->KeyLine_private,
            question->KeyLine_text,
            step,
        ),
{
}

/// The line `END` ends a public key; any other line is added to it as it was typed, with a
/// newline behind it.
pub proof fn law_key_lines_are_gathered(
    perms: Permissions,
    recipient: usize,
    private: Seq<u8>,
    text: Seq<char>,
    line: Seq<char>,
    step: StepView,
)
    requires
        answers(perms, QuestionView::KeyLine { recipient, private, text }, Some(line), step),
    ensures
        line == "END"@ ==> checks_key(recipient, private, text, step),
        line != "END"@ ==> step.effects.len() == 0 && step.next == NextView::Ask(
            QuestionView::KeyLine { recipient, private, text: text + line + seq!['\n'] },
        ),
{
}

/// A public key that was read is kept as it was typed, with the private key of the user and
/// for their recipient; one that was refused is told with the reason, and nothing is kept.
pub proof fn law_entered_keys_are_kept(
    recipient: usize,
    private: Seq<u8>,
    text: Seq<char>,
    why: Seq<char>,
)
    ensures
        does(
            after_key(recipient, private, text, None),
            seq![EffectView::SaveKeys { private, public: text, recipient }],
        ),
        does(
            after_key(recipient, private, text, Some(why)),
            seq![
                EffectView::Log("Error! Did you enter it correctly?"@),
                EffectView::Log("Details: "@ + why),
            ],
        ),
{
}

/// Checking a public key that was entered leads to one of two things: the key is kept, or
/// what is wrong with it is told.
pub proof fn law_checked_keys_are_kept_or_told(
    recipient: usize,
    private: Seq<u8>,
    text: Seq<char>,
    step: StepView,
)
    requires
        checks_key(recipient, private, text, step),
    ensures
        ({
            ||| crate::keys::is_public_key(vstd::utf8::encode_utf8(text)) && does(
                step,
                seq![EffectView::SaveKeys { private, public: text, recipient }],
            )
            ||| exists|why: Seq<char>|
                {
                    &&& #[trigger] crate::keys::may_refuse(vstd::utf8::encode_utf8(text), why)
                    &&& does(
                        step,
                        seq![
                            EffectView::Log("Error! Did you enter it correctly?"@),
                            EffectView::Log("Details: "@ + why),
                        ],
                    )
                }
        }),
{
}

} // verus!
