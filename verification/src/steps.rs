//! What the client does next: the effects of a line, and what to ask for then.

use vstd::prelude::*;

use crate::order::texts;
use crate::packets::{Packet, PacketView};

verus! {

broadcast use vstd::string::group_string_axioms;

/// Something for the terminal, the connection or the database to do.
#[derive(Debug, PartialEq, Eq)]
pub enum Effect {
    /// Log a line of the client's own.
    Log(String),
    /// Log a message as being on its way.
    LogSending(String),
    /// Forget the log.
    Clear,
    /// Send a packet. The effects that follow do not depend on whether that works.
    Send(Packet),
    /// Send a packet. If that fails, drop the effects that follow.
    SendOrStop(Packet),
    /// Tell the server that the connection ends; it does not matter whether that works.
    Close,
    /// Connect to the server at an address.
    Connect(String),
    /// Forget the key and the token of the server at an address.
    Forget(String),
    /// Show the help for some words.
    Help(Vec<String>),
    /// Remember the name of the user.
    SaveNick(String),
    /// Remember the keys for private messages with a user.
    SaveKeys { private: Vec<u8>, public: String, recipient: usize },
    /// Wait until the server has answered, but not for long.
    AwaitReply,
}

/// What an [`Effect`] says.
pub ghost enum EffectView {
    Log(Seq<char>),
    LogSending(Seq<char>),
    Clear,
    Send(PacketView),
    SendOrStop(PacketView),
    Close,
    Connect(Seq<char>),
    Forget(Seq<char>),
    Help(Seq<Seq<char>>),
    SaveNick(Seq<char>),
    SaveKeys { private: Seq<u8>, public: Seq<char>, recipient: usize },
    AwaitReply,
}

impl View for Effect {
    type V = EffectView;

    open spec fn view(&self) -> EffectView {
        match *self {
            Effect::Log(text) => EffectView::Log(text@),
            Effect::LogSending(text) => EffectView::LogSending(text@),
            Effect::Clear => EffectView::Clear,
            Effect::Send(packet) => EffectView::Send(packet@),
            Effect::SendOrStop(packet) => EffectView::SendOrStop(packet@),
            Effect::Close => EffectView::Close,
            Effect::Connect(address) => EffectView::Connect(address@),
            Effect::Forget(address) => EffectView::Forget(address@),
            Effect::Help(words) => EffectView::Help(texts(words@)),
            Effect::SaveNick(name) => EffectView::SaveNick(name@),
            Effect::SaveKeys { private, public, recipient } => EffectView::SaveKeys {
                private: private@,
                public: public@,
                recipient,
            },
            Effect::AwaitReply => EffectView::AwaitReply,
        }
    }
}

/// What some effects say.
pub open spec fn effects_view(effects: Seq<Effect>) -> Seq<EffectView> {
    effects.map_values(|effect: Effect| effect@)
}

/// What an address is looked up for.
#[derive(Debug, PartialEq, Eq, Clone, Copy, Structural)]
pub enum Purpose {
    Connect,
    Forget,
}

/// The permissions of a user in the channel that the client is in.
#[derive(Debug, PartialEq, Eq)]
pub struct ModePrompt {
    pub channel: usize,
    pub name: String,
    pub mode: u8,
}

/// What a [`ModePrompt`] says.
pub ghost struct ModePromptView {
    pub channel: usize,
    pub name: Seq<char>,
    pub mode: u8,
}

impl View for ModePrompt {
    type V = ModePromptView;

    open spec fn view(&self) -> ModePromptView {
        ModePromptView { channel: self.channel, name: self.name@, mode: self.mode }
    }
}

/// What an optional [`ModePrompt`] says.
pub open spec fn optional_prompt(prompt: Option<ModePrompt>) -> Option<ModePromptView> {
    match prompt {
        Some(prompt) => Some(prompt@),
        None => None,
    }
}

/// A question to the user, with what is known by then.
#[derive(Debug, PartialEq, Eq)]
pub enum Question {
    /// The password so far.
    PasswordCurrent,
    /// The password from now on.
    PasswordNew { current: String },
    /// The next line of the recipient's public key.
    KeyLine { recipient: usize, private: Vec<u8>, text: String },
    /// The new name of a channel.
    ChannelName { id: usize, name: String, default_mode_bot: u8, default_mode_user: u8 },
    /// The new permissions of bots in a channel.
    ChannelBots { id: usize, name: String, default_mode_bot: u8, default_mode_user: u8 },
    /// The new permissions of users in a channel.
    ChannelUsers { id: usize, name: String, default_mode_bot: u8, default_mode_user: u8 },
    /// Whether a user is to be an administrator.
    UserAdmin { id: usize, admin: bool, prompt: Option<ModePrompt> },
    /// The new permissions of a user in a channel.
    UserMode { id: usize, channel: usize, mode: u8 },
}

/// What a [`Question`] says.
pub ghost enum QuestionView {
    PasswordCurrent,
    PasswordNew { current: Seq<char> },
    KeyLine { recipient: usize, private: Seq<u8>, text: Seq<char> },
    ChannelName { id: usize, name: Seq<char>, default_mode_bot: u8, default_mode_user: u8 },
    ChannelBots { id: usize, name: Seq<char>, default_mode_bot: u8, default_mode_user: u8 },
    ChannelUsers { id: usize, name: Seq<char>, default_mode_bot: u8, default_mode_user: u8 },
    UserAdmin { id: usize, admin: bool, prompt: Option<ModePromptView> },
    UserMode { id: usize, channel: usize, mode: u8 },
}

impl View for Question {
    type V = QuestionView;

    open spec fn view(&self) -> QuestionView {
        match *self {
            Question::PasswordCurrent => QuestionView::PasswordCurrent,
            Question::PasswordNew { current } => QuestionView::PasswordNew { current: current@ },
            Question::KeyLine { recipient, private, text } => QuestionView::KeyLine {
                recipient,
                private: private@,
                text: text@,
            },
            Question::ChannelName { id, name, default_mode_bot, default_mode_user } => {
                QuestionView::ChannelName { id, name: name@, default_mode_bot, default_mode_user }
            },
            Question::ChannelBots { id, name, default_mode_bot, default_mode_user } => {
                QuestionView::ChannelBots { id, name: name@, default_mode_bot, default_mode_user }
            },
            Question::ChannelUsers { id, name, default_mode_bot, default_mode_user } => {
                QuestionView::ChannelUsers { id, name: name@, default_mode_bot, default_mode_user }
            },
            Question::UserAdmin { id, admin, prompt } => QuestionView::UserAdmin {
                id,
                admin,
                prompt: optional_prompt(prompt),
            },
            Question::UserMode { id, channel, mode } => QuestionView::UserMode {
                id,
                channel,
                mode,
            },
        }
    }
}

/// What the client waits for.
#[derive(Debug, PartialEq, Eq)]
pub enum Next {
    /// The next line.
    Ready,
    /// Nothing: the client ends.
    Quit,
    /// The address of a host.
    Resolve { host: String, port: u16, purpose: Purpose },
    /// An answer, typed in the open.
    Ask(Question),
    /// An answer that must not be seen.
    AskSecret(Question),
}

/// What a [`Next`] says.
pub ghost enum NextView {
    Ready,
    Quit,
    Resolve { host: Seq<char>, port: u16, purpose: Purpose },
    Ask(QuestionView),
    AskSecret(QuestionView),
}

impl View for Next {
    type V = NextView;

    open spec fn view(&self) -> NextView {
        match *self {
            Next::Ready => NextView::Ready,
            Next::Quit => NextView::Quit,
            Next::Resolve { host, port, purpose } => NextView::Resolve {
                host: host@,
                port,
                purpose,
            },
            Next::Ask(question) => NextView::Ask(question@),
            Next::AskSecret(question) => NextView::AskSecret(question@),
        }
    }
}

/// Some effects, in order, and what the client waits for then.
#[derive(Debug, PartialEq, Eq)]
pub struct Step {
    pub effects: Vec<Effect>,
    pub next: Next,
}

/// What a [`Step`] says.
#[verifier::ext_equal]
pub ghost struct StepView {
    pub effects: Seq<EffectView>,
    pub next: NextView,
}

impl View for Step {
    type V = StepView;

    open spec fn view(&self) -> StepView {
        StepView { effects: effects_view(self.effects@), next: self.next@ }
    }
}

/// Nothing happens.
pub open spec fn nothing() -> StepView {
    StepView { effects: seq![], next: NextView::Ready }
}

/// One line is logged.
pub open spec fn says(text: Seq<char>) -> StepView {
    StepView { effects: seq![EffectView::Log(text)], next: NextView::Ready }
}

/// One packet is sent.
pub open spec fn sends(packet: PacketView) -> StepView {
    StepView { effects: seq![EffectView::Send(packet)], next: NextView::Ready }
}

/// Does nothing.
pub fn do_nothing() -> (res: Step)
    ensures
        res@ == nothing(),
{
    let res = Step { effects: Vec::new(), next: Next::Ready };
    assert(res@ =~= nothing());
    res
}

/// Logs one line.
pub fn say(text: &str) -> (res: Step)
    ensures
        res@ == says(text@),
{
    let mut effects: Vec<Effect> = Vec::new();
    effects.push(Effect::Log(text.to_owned()));
    let res = Step { effects, next: Next::Ready };
    assert(res@ =~= says(text@));
    res
}

/// Sends one packet.
pub fn send(packet: Packet) -> (res: Step)
    ensures
        res@ == sends(packet@),
{
    let mut effects: Vec<Effect> = Vec::new();
    effects.push(Effect::Send(packet));
    let res = Step { effects, next: Next::Ready };
    assert(res@ =~= sends(packet@));
    res
}

/// Adds an effect behind others.
pub fn add_effect(effects: &mut Vec<Effect>, effect: Effect)
    ensures
        effects_view(final(effects)@) == effects_view(old(effects)@).push(effect@),
{
    effects.push(effect);
    assert(effects_view(effects@) =~= effects_view(old(effects)@).push(effect@));
}

/// Adds a line to be logged behind other effects.
pub fn add_line(effects: &mut Vec<Effect>, text: &str)
    ensures
        effects_view(final(effects)@) == effects_view(old(effects)@).push(EffectView::Log(text@)),
{
    add_effect(effects, Effect::Log(text.to_owned()));
}

/// No effects yet.
pub fn no_effects() -> (res: Vec<Effect>)
    ensures
        effects_view(res@) == Seq::<EffectView>::empty(),
{
    let res: Vec<Effect> = Vec::new();
    assert(effects_view(res@) =~= Seq::<EffectView>::empty());
    res
}

/// What a step says is what its effects say, in their order, and what it waits for.
pub proof fn law_steps_say_their_effects(step: Step, i: int)
    ensures
        step@.effects.len() == step.effects@.len(),
        0 <= i < step.effects@.len() ==> step@.effects[i] == step.effects@[i]@,
        step@.next == step.next@,
{
}

/// What an effect says is what its fields say.
pub proof fn law_effects_say_their_fields(
    text: String,
    packet: Packet,
    words: Vec<String>,
    private: Vec<u8>,
    recipient: usize,
)
    ensures
        Effect::Log(text)@ == EffectView::Log(text@),
        Effect::LogSending(text)@ == EffectView::LogSending(text@),
        Effect::Clear@ == EffectView::Clear,
        Effect::Send(packet)@ == EffectView::Send(packet@),
        Effect::SendOrStop(packet)@ == EffectView::SendOrStop(packet@),
        Effect::Close@ == EffectView::Close,
        Effect::Connect(text)@ == EffectView::Connect(text@),
        Effect::Forget(text)@ == EffectView::Forget(text@),
        Effect::Help(words)@ is Help,
        Effect::Help(words)@->Help_0.len() == words@.len(),
        forall|i: int|
            0 <= i < words@.len() ==> Effect::Help(words)@->Help_0[i] == (#[trigger] words@[i])@,
        Effect::SaveNick(text)@ == EffectView::SaveNick(text@),
        (Effect::SaveKeys { private, public: text, recipient })@ == (EffectView::SaveKeys {
            private: private@,
            public: text@,
            recipient,
        }),
        Effect::AwaitReply@ == EffectView::AwaitReply,
{
}

/// What the client waits for is said with all that is known of it.
pub proof fn law_questions_say_their_fields(
    text: String,
    port: u16,
    purpose: Purpose,
    question: Question,
    private: Vec<u8>,
    id: usize,
    channel: usize,
    a: u8,
    b: u8,
    admin: bool,
    prompt: ModePrompt,
)
    ensures
        Next::Ready@ == NextView::Ready,
        Next::Quit@ == NextView::Quit,
        (Next::Resolve { host: text, port, purpose })@ == (NextView::Resolve {
            host: text@,
            port,
            purpose,
        }),
        Next::Ask(question)@ == NextView::Ask(question@),
        Next::AskSecret(question)@ == NextView::AskSecret(question@),
        Question::PasswordCurrent@ == QuestionView::PasswordCurrent,
        (Question::PasswordNew { current: text })@ == (QuestionView::PasswordNew {
            current: text@,
        }),
        (Question::KeyLine { recipient: id, private, text })@ == (QuestionView::KeyLine {
            recipient: id,
            private: private@,
            text: text@,
        }),
        (Question::ChannelName {
            id,
            name: text,
            default_mode_bot: a,
            default_mode_user: b,
        })@ == (QuestionView::ChannelName {
            id,
            name: text@,
            default_mode_bot: a,
            default_mode_user: b,
        }),
        (Question::ChannelBots {
            id,
            name: text,
            default_mode_bot: a,
            default_mode_user: b,
        })@ == (QuestionView::ChannelBots {
            id,
            name: text@,
            default_mode_bot: a,
            default_mode_user: b,
        }),
        (Question::ChannelUsers {
            id,
            name: text,
            default_mode_bot: a,
            default_mode_user: b,
        })@ == (QuestionView::ChannelUsers {
            id,
            name: text@,
            default_mode_bot: a,
            default_mode_user: b,
        }),
        (Question::UserAdmin { id, admin, prompt: None })@ == (QuestionView::UserAdmin {
            id,
            admin,
            prompt: None,
        }),
        (Question::UserAdmin { id, admin, prompt: Some(prompt) })@ == (QuestionView::UserAdmin {
            id,
            admin,
            prompt: Some(
                ModePromptView { channel: prompt.channel, name: prompt.name@, mode: prompt.mode },
            ),
        }),
        (Question::UserMode { id, channel, mode: a })@ == (QuestionView::UserMode {
            id,
            channel,
            mode: a,
        }),
{
}

} // verus!
