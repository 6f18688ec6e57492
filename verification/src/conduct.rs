//! What holds of whatever a user types.

use vstd::prelude::*;

use crate::commands::{commands_bot, in_channel, newest_messages, runs, speech_step};
use crate::listing::channel_list;
use crate::model::{law_tables_can_be_walked, walks, Client};
use crate::packets::Protocol;
use crate::steps::{says, EffectView, StepView};

verus! {

broadcast use vstd::std_specs::hash::group_hash_axioms;

/// Whether an effect reaches the server of the session.
pub open spec fn reaches_server(effect: EffectView) -> bool {
    effect is Send || effect is SendOrStop || effect is Close
}

/// Whether a step leaves the server alone and asks the user nothing.
pub open spec fn is_quiet(step: StepView) -> bool {
    &&& forall|i: int|
        0 <= i < step.effects.len() ==> !reaches_server(#[trigger] step.effects[i])
    &&& step.next !is Ask
    &&& step.next !is AskSecret
}

/// Without a session no command sends anything or asks anything, and there is no session
/// afterwards: only the effect of connecting brings one.
pub proof fn law_offline_commands_are_quiet(
    protocol: Protocol,
    before: Client,
    words: Seq<Seq<char>>,
    after: Client,
    step: StepView,
)
    requires
        runs(protocol, before, words, after, step),
        before.session is None,
    ensures
        after.session is None,
        is_quiet(step),
{
}

/// Without a session nothing is sent to a bot, and nothing is said.
pub proof fn law_offline_lines_are_quiet(
    client: Client,
    words: Seq<Seq<char>>,
    to_bot: StepView,
    input: Seq<char>,
)
    requires
        client.session is None,
        commands_bot(client.session, words, to_bot),
    ensures
        is_quiet(to_bot),
        is_quiet(speech_step(client, input)),
{
}

/// Only `/nick` with one name changes the name of the user, and to that name.
pub proof fn law_only_nick_renames(
    protocol: Protocol,
    before: Client,
    words: Seq<Seq<char>>,
    after: Client,
    step: StepView,
)
    requires
        runs(protocol, before, words, after, step),
    ensures
        after.connector == before.connector || (words.len() == 2 && words[0] == "nick"@
            && after.connector.nick@ == words[1]),
{
}

/// Only a bare `/disconnect` ends a session, and then the server is told so and nothing
/// else happens.
pub proof fn law_only_disconnect_ends(
    protocol: Protocol,
    before: Client,
    words: Seq<Seq<char>>,
    after: Client,
    step: StepView,
)
    requires
        runs(protocol, before, words, after, step),
        before.session is Some,
        after.session is None,
    ensures
        words.len() == 1,
        words[0] == "disconnect"@,
        step.effects == seq![EffectView::Close],
        step.next is Ready,
{
}

/// Of a session that goes on, a command changes nothing but the channel that the user is
/// in. Only `/join` and `/msg` with one name do that; then the log is forgotten first, and
/// the newest messages of the channel are asked for last.
pub proof fn law_sessions_go_on(
    protocol: Protocol,
    before: Client,
    words: Seq<Seq<char>>,
    after: Client,
    step: StepView,
)
    requires
        runs(protocol, before, words, after, step),
        before.session is Some,
        after.session is Some,
    ensures
        after.session == before.session || ({
            &&& words.len() == 2
            &&& words[0] == "join"@ || words[0] == "msg"@
            &&& after.session.unwrap().channel is Some
            &&& after.session.unwrap() == in_channel(
                before.session.unwrap(),
                after.session.unwrap().channel.unwrap(),
            )
            &&& step.effects.len() == 3
            &&& step.effects[0] is Clear
            &&& step.effects[2] == EffectView::Send(
                newest_messages(
                    after.session.unwrap().channel.unwrap(),
                    protocol.limit_bulk,
                ),
            )
        }),
{
}

/// `/quit` ends the client, whatever follows it, and no other command does.
pub proof fn law_only_quit_quits(
    protocol: Protocol,
    before: Client,
    words: Seq<Seq<char>>,
    after: Client,
    step: StepView,
)
    requires
        runs(protocol, before, words, after, step),
    ensures
        step.next is Quit <==> words.len() > 0 && words[0] == "quit"@,
{
    reveal_strlit("ban");
    reveal_strlit("unban");
    reveal_strlit("connect");
    reveal_strlit("create");
    reveal_strlit("delete");
    reveal_strlit("disconnect");
    reveal_strlit("forget");
    reveal_strlit("help");
    reveal_strlit("info");
    reveal_strlit("join");
    reveal_strlit("list");
    reveal_strlit("msg");
    reveal_strlit("nick");
    reveal_strlit("passwd");
    reveal_strlit("quit");
    if let Some(session) = before.session {
        law_tables_can_be_walked(session.state.channels@);
        law_tables_can_be_walked(session.state.users@);
        let order = choose|order: Seq<usize>| walks(session.state.channels@, order);
        assert(step.next is Quit ==> step != says(channel_list(session.state.channels@, order)));
    }
    if words.len() > 0 && words[0] == "quit"@ {
        assert("quit"@[0] == 'q');
    }
}

} // verus!
