//! The screen: the log, the channel list, completion and what is read from the user.

use vstd::prelude::*;
use vstd::string::StringExecFns;

use crate::layout::{paint, paintable, painted, Frame};
use crate::model::{entry, lemma_walks_agree, walk, walks, Channel, LogEntryId, State, User};
use crate::order::{
    in_order, law_order_forgets, law_order_sorts, lemma_map_multiset, sort_texts, text_le, texts,
};
use crate::text::{bytes_of, chars_of, is_control_char, same_text};

verus! {

broadcast use {vstd::std_specs::hash::group_hash_axioms, vstd::string::group_string_axioms};

/// Whether a character may be shown: it is no control code, or it is a newline or a tab.
pub open spec fn is_harmless(c: char) -> bool {
    !is_control_char(c) || c == '\n' || c == '\t'
}

/// A text without the control codes that must not reach the terminal.
pub open spec fn sanitized(text: Seq<char>) -> Seq<char> {
    text.filter(|c: char| is_harmless(c))
}

/// Removes every control code but newlines and tabs from a text.
pub fn sanitize(text: &mut String)
    ensures
        final(text)@ == sanitized(old(text)@),
{
    let chars = chars_of(text.as_str());
    let mut kept = String::new();
    let ghost harmless = |c: char| is_harmless(c);
    proof {
        reveal(Seq::filter);
        assert(chars@.take(0).filter(harmless) =~= seq![]);
    }
    for i in 0..chars.len()
        invariant
            harmless == |c: char| is_harmless(c),
            kept@ == chars@.take(i as int).filter(harmless),
    {
        let c = chars[i];
        proof {
            reveal(Seq::filter);
            assert(chars@.take(i + 1).drop_last() =~= chars@.take(i as int));
        }
        if !c.is_control() || c == '\n' || c == '\t' {
            kept.push(c);
        }
    }
    assert(chars@.take(chars@.len() as int) =~= chars@);
    *text = kept;
}

/// Sanitizing keeps nothing harmful, and a second time it changes nothing.
pub proof fn law_sanitized_is_harmless(text: Seq<char>)
    ensures
        forall|i: int|
            0 <= i < sanitized(text).len() ==> is_harmless(#[trigger] sanitized(text)[i]),
        sanitized(sanitized(text)) == sanitized(text),
{
    let harmless = |c: char| is_harmless(c);
    assert forall|i: int| 0 <= i < sanitized(text).len() implies is_harmless(
        #[trigger] sanitized(text)[i],
    ) by {
        text.lemma_filter_pred(harmless, i);
        assert(harmless(sanitized(text)[i]));
    }
    lemma_harmless_stays(sanitized(text));
}

/// Sanitizing leaves a text without harmful characters as it is.
pub proof fn lemma_harmless_stays(text: Seq<char>)
    requires
        forall|i: int| 0 <= i < text.len() ==> is_harmless(#[trigger] text[i]),
    ensures
        sanitized(text) == text,
    decreases text.len(),
{
    reveal(Seq::filter);
    if text.len() > 0 {
        lemma_harmless_stays(text.drop_last());
        assert(text =~= text.drop_last().push(text.last()));
    }
}

/// Whether `word`, from byte `start` on, is the word of `line` that ends at byte `pos`:
/// the longest run before `pos` without a break character.
pub open spec fn is_word_at(
    line: Seq<char>,
    pos: int,
    breaks: Seq<char>,
    start: int,
    word: Seq<char>,
) -> bool {
    exists|from: int, to: int|
        {
            &&& 0 <= from <= to <= line.len()
            &&& bytes_of(#[trigger] line.take(from)).len() == start
            &&& bytes_of(#[trigger] line.take(to)).len() == pos
            &&& word == line.subrange(from, to)
            &&& from == 0 || breaks.contains(line[from - 1])
            &&& forall|j: int| from <= j < to ==> !breaks.contains(#[trigger] line[j])
        }
}

/// `rustyline::completion::extract_word`: the word that ends at byte `pos`, and where it
/// starts. The word is what stands between the last break character before `pos`, or the
/// start of the line, and `pos`. The function cuts the line at `pos` and so panics where
/// that is within a character.
#[verifier::external_body]
fn extract_word<'l>(line: &'l str, pos: usize, breaks: &Vec<char>) -> (res: (usize, &'l str))
    requires
        vstd::utf8::is_char_boundary(bytes_of(line@), pos as int),
    ensures
        is_word_at(line@, pos as int, breaks@, res.0 as int, res.1@),
{
    rustyline::completion::extract_word(line, pos, &breaks.iter().cloned().collect())
}

/// The characters that end a word when completing.
pub open spec fn break_chars() -> Seq<char> {
    seq![' ', '"', '\'']
}

/// The names of users, in the order given.
pub open spec fn user_names(users: Map<usize, User>, order: Seq<usize>) -> Seq<Seq<char>> {
    order.map_values(|k: usize| users[k].name@)
}

/// The names of channels with the mark that they are written with, in the order given.
pub open spec fn channel_names(channels: Map<usize, Channel>, order: Seq<usize>) -> Seq<Seq<char>> {
    order.map_values(|k: usize| seq!['#'] + channels[k].name@)
}

/// What a word can be completed to: users first, then channels, in the orders given.
pub open spec fn candidates(
    users: Map<usize, User>,
    user_order: Seq<usize>,
    channels: Map<usize, Channel>,
    channel_order: Seq<usize>,
    word: Seq<char>,
) -> Seq<Seq<char>> {
    let fits = |name: Seq<char>| word.is_prefix_of(name);
    user_names(users, user_order).filter(fits) + channel_names(channels, channel_order).filter(fits)
}

/// Whether a text starts with a word.
fn starts_with(text: &str, word: &str) -> (res: bool)
    ensures
        res == word@.is_prefix_of(text@),
{
    let t = chars_of(text);
    let w = chars_of(word);
    if w.len() > t.len() {
        return false;
    }
    for i in 0..w.len()
        invariant
            t@ == text@,
            w@ == word@,
            w@.len() <= t@.len(),
            forall|j: int| 0 <= j < i ==> t@[j] == w@[j],
    {
        if t[i] != w[i] {
            assert(t@.subrange(0, w@.len() as int)[i as int] != w@[i as int]);
            return false;
        }
    }
    assert(t@.subrange(0, w@.len() as int) =~= w@);
    true
}

/// What a word can be completed to, users and channels taken in the orders given.
pub fn complete_word(
    state: &State,
    user_order: &Vec<usize>,
    channel_order: &Vec<usize>,
    word: &str,
) -> (res: Vec<String>)
    requires
        walks(state.users@, user_order@),
        walks(state.channels@, channel_order@),
    ensures
        texts(res@) == candidates(
            state.users@,
            user_order@,
            state.channels@,
            channel_order@,
            word@,
        ),
{
    let ghost fits = |name: Seq<char>| word@.is_prefix_of(name);
    let ghost names = user_names(state.users@, user_order@);
    let ghost marked = channel_names(state.channels@, channel_order@);
    let mut res: Vec<String> = Vec::new();
    proof {
        reveal(Seq::filter);
        assert(names.take(0).filter(fits) =~= seq![]);
        assert(texts(res@) =~= seq![]);
    }
    for i in 0..user_order.len()
        invariant
            walks(state.users@, user_order@),
            fits == |name: Seq<char>| word@.is_prefix_of(name),
            names == user_names(state.users@, user_order@),
            texts(res@) == names.take(i as int).filter(fits),
    {
        assert(user_order@.contains(user_order@[i as int]));
        let user = entry(&state.users, user_order[i]);
        proof {
            reveal(Seq::filter);
            assert(names.take(i + 1).drop_last() =~= names.take(i as int));
        }
        let ghost before = res@;
        if starts_with(user.name.as_str(), word) {
            res.push(user.name.clone());
            assert(texts(res@) =~= texts(before).push(user.name@));
        }
    }
    proof {
        assert(names.take(names.len() as int) =~= names);
        reveal(Seq::filter);
        assert(marked.take(0).filter(fits) =~= seq![]);
    }
    for i in 0..channel_order.len()
        invariant
            walks(state.channels@, channel_order@),
            fits == |name: Seq<char>| word@.is_prefix_of(name),
            marked == channel_names(state.channels@, channel_order@),
            texts(res@) == names.filter(fits) + marked.take(i as int).filter(fits),
    {
        assert(channel_order@.contains(channel_order@[i as int]));
        let channel = entry(&state.channels, channel_order[i]);
        let mut name = String::new();
        name.push('#');
        name.append(channel.name.as_str());
        assert(name@ =~= seq!['#'] + channel.name@);
        proof {
            reveal(Seq::filter);
            assert(marked.take(i + 1).drop_last() =~= marked.take(i as int));
        }
        let ghost before = res@;
        let ghost shown = name@;
        if starts_with(name.as_str(), word) {
            res.push(name);
            assert(texts(res@) =~= texts(before).push(shown));
            assert(texts(res@) =~= names.filter(fits) + marked.take(i + 1).filter(fits));
        }
    }
    assert(marked.take(marked.len() as int) =~= marked);
    res
}

/// Whether `found` is what a word can be completed to, for some walk through the users and
/// some walk through the channels. Without a session there is nothing to complete to.
pub open spec fn completes(session: Option<&State>, word: Seq<char>, found: Seq<Seq<char>>) -> bool {
    match session {
        Some(state) => exists|users: Seq<usize>, channels: Seq<usize>|
            {
                &&& walks(state.users@, users)
                &&& walks(state.channels@, channels)
                &&& found == #[trigger] candidates(
                    state.users@,
                    users,
                    state.channels@,
                    channels,
                    word,
                )
            },
        None => found.len() == 0,
    }
}

/// A word is only completed to names that start with it, and every user and every channel
/// whose name does is among them.
pub proof fn law_completions_fit(state: &State, word: Seq<char>, found: Seq<Seq<char>>)
    requires
        completes(Some(state), word, found),
    ensures
        forall|i: int| 0 <= i < found.len() ==> word.is_prefix_of(#[trigger] found[i]),
        forall|k: usize|
            state.users@.contains_key(k) && word.is_prefix_of((#[trigger] state.users@[k]).name@)
                ==> found.contains(state.users@[k].name@),
        forall|k: usize|
            state.channels@.contains_key(k) && word.is_prefix_of(
                seq!['#'] + (#[trigger] state.channels@[k]).name@,
            ) ==> found.contains(seq!['#'] + state.channels@[k].name@),
{
    let (users, channels) = choose|users: Seq<usize>, channels: Seq<usize>|
        {
            &&& walks(state.users@, users)
            &&& walks(state.channels@, channels)
            &&& found == #[trigger] candidates(state.users@, users, state.channels@, channels, word)
        };
    let fits = |name: Seq<char>| word.is_prefix_of(name);
    let names = user_names(state.users@, users);
    let marked = channel_names(state.channels@, channels);
    let left = names.filter(fits);
    let right = marked.filter(fits);
    assert(found == left + right);
    assert forall|i: int| 0 <= i < found.len() implies word.is_prefix_of(#[trigger] found[i]) by {
        if i < left.len() {
            names.lemma_filter_pred(fits, i);
            assert(fits(left[i]));
        } else {
            marked.lemma_filter_pred(fits, i - left.len());
            assert(fits(right[i - left.len()]));
        }
    }
    assert forall|k: usize|
        state.users@.contains_key(k) && word.is_prefix_of(
            (#[trigger] state.users@[k]).name@,
        ) implies found.contains(state.users@[k].name@) by {
        assert(users.contains(k));
        let i = choose|i: int| 0 <= i < users.len() && users[i] == k;
        assert(names[i] == state.users@[k].name@);
        names.lemma_filter_contains(fits, i);
        let j = left.index_of(names[i]);
        assert(found[j] == names[i]);
    }
    assert forall|k: usize|
        state.channels@.contains_key(k) && word.is_prefix_of(
            seq!['#'] + (#[trigger] state.channels@[k]).name@,
        ) implies found.contains(seq!['#'] + state.channels@[k].name@) by {
        assert(channels.contains(k));
        let i = choose|i: int| 0 <= i < channels.len() && channels[i] == k;
        assert(marked[i] == seq!['#'] + state.channels@[k].name@);
        marked.lemma_filter_contains(fits, i);
        let j = right.index_of(marked[i]);
        assert(found[left.len() + j] == marked[i]);
    }
}

/// Whether a line is completed rightly: `start` is where its word before byte `pos` starts,
/// and `found` is what that word can be completed to.
pub open spec fn completes_line(
    session: Option<&State>,
    line: Seq<char>,
    pos: int,
    start: int,
    found: Seq<Seq<char>>,
) -> bool {
    exists|word: Seq<char>|
        is_word_at(line, pos, break_chars(), start, word) && #[trigger] completes(
            session,
            word,
            found,
        )
}

/// Completes the word before byte `pos` of a line: where the word starts, and what it can
/// be completed to. Without a session there is nothing to complete to. Users and channels
/// come in the order in which their tables are walked.
pub fn complete(session: Option<&State>, line: &str, pos: usize) -> (res: (usize, Vec<String>))
    requires
        vstd::utf8::is_char_boundary(bytes_of(line@), pos as int),
    ensures
        completes_line(session, line@, pos as int, res.0 as int, texts(res.1@)),
{
    let breaks: Vec<char> = vec![' ', '"', '\''];
    assert(breaks@ =~= break_chars());
    let (start, word) = extract_word(line, pos, &breaks);
    let mut found: Vec<String> = Vec::new();
    assert(texts(found@) =~= seq![]);
    if let Some(state) = session {
        let users = walk(&state.users);
        let channels = walk(&state.channels);
        found = complete_word(state, &users, &channels, word);
    }
    assert(is_word_at(line@, pos as int, break_chars(), start as int, word@));
    assert(completes(session, word@, texts(found@)));
    (start, found)
}

/// What the screen holds: the log, the channel list and who is typing.
pub struct Screen {
    /// The entries of the log, the oldest first.
    pub log: Vec<(String, LogEntryId)>,
    /// The lines of the side column.
    pub status: Vec<String>,
    /// Who is typing.
    pub typing: String,
}

/// Whether `at` is the first entry of a log that stands for `id`.
pub open spec fn is_entry_of(log: Seq<(String, LogEntryId)>, id: LogEntryId, at: int) -> bool {
    &&& 0 <= at < log.len()
    &&& log[at].1 == id
    &&& forall|j: int| 0 <= j < at ==> (#[trigger] log[j]).1 != id
}

/// Whether a log has an entry that stands for `id`.
pub open spec fn has_entry(log: Seq<(String, LogEntryId)>, id: LogEntryId) -> bool {
    exists|i: int| 0 <= i < log.len() && (#[trigger] log[i]).1 == id
}

/// The first entry of a log that stands for `id`.
pub open spec fn entry_of(log: Seq<(String, LogEntryId)>, id: LogEntryId) -> int {
    choose|at: int| is_entry_of(log, id, at)
}

/// A log whose first entry for `id`, if it has one, says `text`.
pub open spec fn edited(
    log: Seq<(String, LogEntryId)>,
    text: String,
    id: LogEntryId,
) -> Seq<(String, LogEntryId)> {
    if has_entry(log, id) {
        log.update(entry_of(log, id), (text, id))
    } else {
        log
    }
}

/// A log after a line was logged: a message that it holds already is changed where it
/// stands, anything else is added at the end.
pub open spec fn logged(
    log: Seq<(String, LogEntryId)>,
    text: String,
    id: LogEntryId,
) -> Seq<(String, LogEntryId)> {
    if id is Message && has_entry(log, id) {
        edited(log, text, id)
    } else {
        log.push((text, id))
    }
}

/// A log without its first entry for `id`.
pub open spec fn deleted(log: Seq<(String, LogEntryId)>, id: LogEntryId) -> Seq<
    (String, LogEntryId),
> {
    if has_entry(log, id) {
        log.remove(entry_of(log, id))
    } else {
        log
    }
}

/// Finds the first entry of a log that stands for `id`.
fn position(log: &Vec<(String, LogEntryId)>, id: LogEntryId) -> (res: Option<usize>)
    ensures
        match res {
            Some(at) => has_entry(log@, id) && is_entry_of(log@, id, at as int) && at == entry_of(
                log@,
                id,
            ),
            None => !has_entry(log@, id),
        },
{
    for i in 0..log.len()
        invariant
            forall|j: int| 0 <= j < i ==> (#[trigger] log@[j]).1 != id,
    {
        if log[i].1 == id {
            assert(is_entry_of(log@, id, i as int));
            return Some(i);
        }
    }
    None
}

/// How the channel list names a channel: a private one by its recipient.
pub open spec fn label_of(channel: Channel) -> Seq<char> {
    if channel.private {
        match channel.recipient {
            Some(name) => "* "@ + name@,
            None => "* "@ + "unknown"@,
        }
    } else {
        " #"@ + channel.name@
    }
}

/// How the channel list names the channels of a table, in the order given.
pub open spec fn labels(channels: Map<usize, Channel>, order: Seq<usize>) -> Seq<Seq<char>> {
    order.map_values(|k: usize| label_of(channels[k]))
}

/// The lines of the side column: a heading, and the channels in order of their labels.
pub open spec fn status_lines(channels: Map<usize, Channel>, order: Seq<usize>) -> Seq<Seq<char>> {
    seq![""@, "Channels:"@] + in_order(labels(channels, order))
}

/// Names a channel for the channel list.
fn label(channel: &Channel) -> (res: String)
    ensures
        res@ == label_of(*channel),
{
    if channel.private {
        let mut res = "* ".to_owned();
        match &channel.recipient {
            Some(name) => {
                res.append(name.as_str());
            },
            None => {
                res.append("unknown");
            },
        }
        res
    } else {
        let mut res = " #".to_owned();
        res.append(channel.name.as_str());
        res
    }
}

/// What came of asking the user for a line.
pub enum LineRead {
    Line(String),
    Interrupted,
    Eof,
    /// Reading failed; the text says why.
    Failed(String),
}

/// What came of asking the user for a password.
pub enum PassRead {
    Password(String),
    Nothing,
    /// Reading failed; the text says why.
    Failed(String),
}

impl Screen {
    /// An empty screen.
    pub fn new() -> (res: Screen)
        ensures
            res.log@ == Seq::<(String, LogEntryId)>::empty(),
            res.status@ == Seq::<String>::empty(),
            res.typing@ == Seq::<char>::empty(),
    {
        Screen { log: Vec::new(), status: Vec::new(), typing: String::new() }
    }

    /// Forgets the log. The screen has to be repainted.
    pub fn clear(&mut self)
        ensures
            final(self).log@ == Seq::<(String, LogEntryId)>::empty(),
            final(self).status == old(self).status,
            final(self).typing == old(self).typing,
    {
        self.log.clear();
    }

    /// Adds a line of the client's own to the log. The screen has to be repainted.
    pub fn log(&mut self, text: String)
        ensures
            final(self).log@ == old(self).log@.push((text, LogEntryId::Plain)),
            final(self).status == old(self).status,
            final(self).typing == old(self).typing,
    {
        self.log_with_id(text, LogEntryId::Plain);
    }

    /// Logs a line. The screen has to be repainted.
    pub fn log_with_id(&mut self, text: String, id: LogEntryId)
        ensures
            final(self).log@ == logged(old(self).log@, text, id),
            final(self).status == old(self).status,
            final(self).typing == old(self).typing,
    {
        let mut text = text;
        if let LogEntryId::Message(_) = id {
            match self.edit(text, id) {
                Some(back) => {
                    text = back;
                },
                None => {
                    return;
                },
            }
        }
        self.log.push((text, id));
    }

    /// Changes the text of the first entry for `id`. Gives the text back if there is none.
    pub fn edit(&mut self, text: String, id: LogEntryId) -> (res: Option<String>)
        ensures
            final(self).log@ == edited(old(self).log@, text, id),
            res == if has_entry(old(self).log@, id) {
                None
            } else {
                Some(text)
            },
            final(self).status == old(self).status,
            final(self).typing == old(self).typing,
    {
        match position(&self.log, id) {
            Some(at) => {
                self.log[at].0 = text;
                assert(self.log@ =~= edited(old(self).log@, text, id));
                None
            },
            None => Some(text),
        }
    }

    /// Removes the first entry for `id`, if there is one.
    pub fn delete(&mut self, id: LogEntryId)
        ensures
            final(self).log@ == deleted(old(self).log@, id),
            final(self).status == old(self).status,
            final(self).typing == old(self).typing,
    {
        if let Some(at) = position(&self.log, id) {
            self.log.remove(at);
        }
    }

    /// Lists the channels in the side column, in the order of their labels, whichever way
    /// the table is walked.
    pub fn update(&mut self, state: &State)
        ensures
            forall|order: Seq<usize>|
                walks(state.channels@, order) ==> texts(final(self).status@)
                    == #[trigger] status_lines(state.channels@, order),
            final(self).log == old(self).log,
            final(self).typing == old(self).typing,
    {
        let order = walk(&state.channels);
        let mut named: Vec<String> = Vec::new();
        let ghost all = labels(state.channels@, order@);
        assert(texts(named@) =~= all.take(0));
        for i in 0..order.len()
            invariant
                walks(state.channels@, order@),
                all == labels(state.channels@, order@),
                texts(named@) == all.take(i as int),
        {
            assert(order@.contains(order@[i as int]));
            let ghost before = named@;
            let channel = entry(&state.channels, order[i]);
            let line = label(channel);
            let ghost shown = line@;
            named.push(line);
            assert(texts(named@) =~= texts(before).push(shown));
            assert(all.take(i + 1) =~= all.take(i as int).push(all[i as int]));
        }
        assert(all.take(all.len() as int) =~= all);
        let mut sorted = sort_texts(named);
        let ghost tail = sorted@;
        self.status.clear();
        self.status.push(String::new());
        self.status.push("Channels:".to_owned());
        self.status.append(&mut sorted);
        proof {
            reveal_strlit("");
            assert(""@ =~= Seq::<char>::empty());
            assert(texts(self.status@) =~= seq![""@, "Channels:"@] + texts(tail));
            assert forall|other: Seq<usize>| walks(state.channels@, other) implies texts(
                self.status@,
            ) == #[trigger] status_lines(state.channels@, other) by {
                lemma_walks_agree(state.channels@, order@, other);
                lemma_map_multiset(order@, other, |k: usize| label_of(state.channels@[k]));
                law_order_forgets(all, labels(state.channels@, other));
            }
        }
    }

    /// Lays the screen out for a terminal, taken to be fifty by fifty where its size is not
    /// known. Gives `None` where the screen cannot be drawn.
    pub fn repaint(&self, size: Option<(u16, u16)>) -> (res: Option<Frame>)
        ensures
            ({
                let (width, height) = match size {
                    Some((w, h)) => (w as int, h as int),
                    None => (50int, 50int),
                };
                match res {
                    Some(frame) => paintable(self.log@, self.status@, width, height) && frame@
                        == painted(self.log@, self.status@, self.typing@, width, height),
                    None => !paintable(self.log@, self.status@, width, height),
                }
            }),
    {
        match size {
            Some((width, height)) => paint(
                &self.log,
                &self.status,
                self.typing.as_str(),
                width,
                height,
            ),
            None => paint(&self.log, &self.status, self.typing.as_str(), 50, 50),
        }
    }

    /// Takes what came of asking for a line. A failure is logged; the end of the input and
    /// an interrupt are not.
    pub fn readline(&mut self, read: LineRead) -> (res: Result<String, ()>)
        ensures
            res == match read {
                LineRead::Line(line) => Ok(line),
                _ => Err(()),
            },
            match read {
                LineRead::Failed(why) => logs_failure(
                    old(self).log@,
                    final(self).log@,
                    "Failed to read line: "@ + why@,
                ),
                _ => final(self).log == old(self).log,
            },
            final(self).status == old(self).status,
            final(self).typing == old(self).typing,
    {
        match read {
            LineRead::Line(line) => Ok(line),
            LineRead::Interrupted => Err(()),
            LineRead::Eof => Err(()),
            LineRead::Failed(why) => {
                let mut line = "Failed to read line: ".to_owned();
                line.append(why.as_str());
                self.log(line);
                assert(self.log@.drop_last() =~= old(self).log@);
                Err(())
            },
        }
    }

    /// Takes what came of asking for a password. A failure is logged; the end of the input
    /// is not.
    pub fn readpass(&mut self, read: PassRead) -> (res: Result<String, ()>)
        ensures
            res == match read {
                PassRead::Password(password) => Ok(password),
                _ => Err(()),
            },
            match read {
                PassRead::Failed(why) => logs_failure(
                    old(self).log@,
                    final(self).log@,
                    "Failed to read password: "@ + why@,
                ),
                _ => final(self).log == old(self).log,
            },
            final(self).status == old(self).status,
            final(self).typing == old(self).typing,
    {
        match read {
            PassRead::Password(password) => Ok(password),
            PassRead::Nothing => Err(()),
            PassRead::Failed(why) => {
                let mut line = "Failed to read password: ".to_owned();
                line.append(why.as_str());
                self.log(line);
                assert(self.log@.drop_last() =~= old(self).log@);
                Err(())
            },
        }
    }

    /// Sets who is typing. Whether the screen has to be repainted: whether that changed.
    pub fn typing_set(&mut self, typing: String) -> (res: bool)
        ensures
            res == (old(self).typing@ != typing@),
            final(self).typing@ == typing@,
            final(self).log == old(self).log,
            final(self).status == old(self).status,
    {
        if same_text(self.typing.as_str(), typing.as_str()) {
            return false;
        }
        self.typing = typing;
        true
    }
}

/// Whether a log grew by one line of the client's own that says `text`.
pub open spec fn logs_failure(
    before: Seq<(String, LogEntryId)>,
    after: Seq<(String, LogEntryId)>,
    text: Seq<char>,
) -> bool {
    &&& after.len() == before.len() + 1
    &&& after.drop_last() == before
    &&& after.last().0@ == text
    &&& after.last().1 == LogEntryId::Plain
}

/// Whether no message has two entries in a log.
pub open spec fn messages_are_unique(log: Seq<(String, LogEntryId)>) -> bool {
    forall|i: int, j: int|
        0 <= i < j < log.len() && (#[trigger] log[i]).1 is Message ==> log[i].1 != (
        #[trigger] log[j]).1
}

proof fn lemma_entry_of(log: Seq<(String, LogEntryId)>, id: LogEntryId, at: int)
    requires
        0 <= at < log.len(),
        log[at].1 == id,
    ensures
        is_entry_of(log, id, entry_of(log, id)),
        entry_of(log, id) <= at,
    decreases at,
{
    if exists|j: int| 0 <= j < at && (#[trigger] log[j]).1 == id {
        let j = choose|j: int| 0 <= j < at && (#[trigger] log[j]).1 == id;
        lemma_entry_of(log, id, j);
    } else {
        assert(is_entry_of(log, id, at));
    }
}

/// An empty log has no message twice, and neither logging, editing nor deleting makes one
/// appear twice.
pub proof fn law_messages_stay_unique(
    log: Seq<(String, LogEntryId)>,
    text: String,
    id: LogEntryId,
)
    requires
        messages_are_unique(log),
    ensures
        messages_are_unique(Seq::empty()),
        messages_are_unique(logged(log, text, id)),
        messages_are_unique(edited(log, text, id)),
        messages_are_unique(deleted(log, id)),
{
    if has_entry(log, id) {
        let at = choose|at: int| 0 <= at < log.len() && (#[trigger] log[at]).1 == id;
        lemma_entry_of(log, id, at);
        let first = entry_of(log, id);
        let short = deleted(log, id);
        assert forall|i: int, j: int|
            0 <= i < j < short.len() && (#[trigger] short[i]).1 is Message implies short[i].1 != (
        #[trigger] short[j]).1 by {
            let a = if i < first { i } else { i + 1 };
            let b = if j < first { j } else { j + 1 };
            assert(short[i] == log[a]);
            assert(short[j] == log[b]);
        }
    }
}

/// Deleting takes back the logging of an entry that was not there.
pub proof fn law_delete_takes_back(log: Seq<(String, LogEntryId)>, text: String, id: LogEntryId)
    requires
        !has_entry(log, id),
    ensures
        deleted(logged(log, text, id), id) == log,
{
    let longer = logged(log, text, id);
    lemma_entry_of(longer, id, log.len() as int);
    assert(longer[log.len() as int].1 == id);
    let at = entry_of(longer, id);
    if at < log.len() {
        assert(log[at].1 == id);
    }
    assert(deleted(longer, id) =~= log);
}

/// A message that is logged again is changed where it stands: as if it had been logged
/// with the later text in the first place.
pub proof fn law_later_text_stands(
    log: Seq<(String, LogEntryId)>,
    first: String,
    later: String,
    number: usize,
)
    ensures
        ({
            let id = LogEntryId::Message(number);
            logged(logged(log, first, id), later, id) == logged(log, later, id)
        }),
{
    let id = LogEntryId::Message(number);
    let once = logged(log, first, id);
    if has_entry(log, id) {
        let i = choose|i: int| 0 <= i < log.len() && (#[trigger] log[i]).1 == id;
        lemma_entry_of(log, id, i);
        let at = entry_of(log, id);
        lemma_entry_of(once, id, at);
        let again = entry_of(once, id);
        assert(again == at) by {
            if again < at {
                assert(log[again].1 != id);
            }
        }
        assert(once[at].1 == id);
        assert(logged(once, later, id) =~= logged(log, later, id));
    } else {
        lemma_entry_of(once, id, log.len() as int);
        assert(once[log.len() as int].1 == id);
        let at = entry_of(once, id);
        if at < log.len() {
            assert(log[at].1 == id);
        }
        assert(logged(once, later, id) =~= logged(log, later, id));
    }
}

/// How many bytes come before a character grows from character to character.
proof fn lemma_bytes_grow(line: Seq<char>, i: int, j: int)
    requires
        0 <= i < j <= line.len(),
    ensures
        bytes_of(line.take(i)).len() < bytes_of(line.take(j)).len(),
    decreases i,
{
    let a = line.take(i);
    let b = line.take(j);
    vstd::utf8::encode_utf8_first_scalar(b);
    if i == 0 {
        assert(a =~= Seq::empty());
        vstd::utf8::encode_utf8_valid_utf8(b);
    } else {
        assert(a.drop_first() =~= line.drop_first().take(i - 1));
        assert(b.drop_first() =~= line.drop_first().take(j - 1));
        lemma_bytes_grow(line.drop_first(), i - 1, j - 1);
    }
}

/// A line has one word before a position, which starts in one place.
pub proof fn law_word_is_sure(
    line: Seq<char>,
    pos: int,
    breaks: Seq<char>,
    a: (int, Seq<char>),
    b: (int, Seq<char>),
)
    requires
        is_word_at(line, pos, breaks, a.0, a.1),
        is_word_at(line, pos, breaks, b.0, b.1),
    ensures
        a == b,
{
    let (f, t) = choose|from: int, to: int|
        {
            &&& 0 <= from <= to <= line.len()
            &&& bytes_of(#[trigger] line.take(from)).len() == a.0
            &&& bytes_of(#[trigger] line.take(to)).len() == pos
            &&& a.1 == line.subrange(from, to)
            &&& from == 0 || breaks.contains(line[from - 1])
            &&& forall|j: int| from <= j < to ==> !breaks.contains(#[trigger] line[j])
        };
    let (g, u) = choose|from: int, to: int|
        {
            &&& 0 <= from <= to <= line.len()
            &&& bytes_of(#[trigger] line.take(from)).len() == b.0
            &&& bytes_of(#[trigger] line.take(to)).len() == pos
            &&& b.1 == line.subrange(from, to)
            &&& from == 0 || breaks.contains(line[from - 1])
            &&& forall|j: int| from <= j < to ==> !breaks.contains(#[trigger] line[j])
        };
    if t < u {
        lemma_bytes_grow(line, t, u);
    }
    if u < t {
        lemma_bytes_grow(line, u, t);
    }
    if f < g {
        assert(breaks.contains(line[g - 1]));
    }
    if g < f {
        assert(breaks.contains(line[f - 1]));
    }
}

/// Deleting takes the first entry for an `id` out and keeps all others in their order; where
/// there is none, the log stays as it is.
pub proof fn law_delete_keeps_order(log: Seq<(String, LogEntryId)>, id: LogEntryId, at: int)
    ensures
        0 <= at < log.len() && log[at].1 == id && (forall|j: int|
            0 <= j < at ==> (#[trigger] log[j]).1 != id) ==> deleted(log, id) == log.take(at)
            + log.skip(at + 1),
        (forall|j: int| 0 <= j < log.len() ==> (#[trigger] log[j]).1 != id) ==> deleted(log, id)
            == log,
{
    if 0 <= at < log.len() && log[at].1 == id && (forall|j: int|
        0 <= j < at ==> (#[trigger] log[j]).1 != id) {
        lemma_entry_of(log, id, at);
        assert(entry_of(log, id) == at);
        assert(deleted(log, id) =~= log.take(at) + log.skip(at + 1));
    }
}

proof fn lemma_filter_keeps(
    log: Seq<(String, LogEntryId)>,
    keep: spec_fn((String, LogEntryId)) -> bool,
)
    requires
        forall|i: int| 0 <= i < log.len() ==> keep(#[trigger] log[i]),
    ensures
        log.filter(keep) == log,
    decreases log.len(),
{
    reveal(Seq::filter);
    if log.len() > 0 {
        lemma_filter_keeps(log.drop_last(), keep);
        assert(log =~= log.drop_last().push(log.last()));
    }
}

/// Where an `id` has at most one entry, deleting leaves exactly the entries for others, in
/// their order.
pub proof fn law_delete_leaves_the_others(log: Seq<(String, LogEntryId)>, id: LogEntryId)
    requires
        forall|i: int, j: int|
            0 <= i < j < log.len() && (#[trigger] log[i]).1 == id ==> (#[trigger] log[j]).1 != id,
    ensures
        deleted(log, id) == log.filter(|entry: (String, LogEntryId)| entry.1 != id),
{
    let keep = |entry: (String, LogEntryId)| entry.1 != id;
    if exists|at: int| 0 <= at < log.len() && (#[trigger] log[at]).1 == id {
        let at = choose|at: int| 0 <= at < log.len() && (#[trigger] log[at]).1 == id;
        law_delete_keeps_order(log, id, at);
        let head = log.take(at);
        let tail = log.skip(at + 1);
        let one = seq![log[at]];
        lemma_filter_keeps(head, keep);
        assert forall|i: int| 0 <= i < tail.len() implies keep(#[trigger] tail[i]) by {
            assert(tail[i] == log[at + 1 + i]);
        }
        lemma_filter_keeps(tail, keep);
        assert(log =~= head + one + tail);
        Seq::filter_distributes_over_add(head + one, tail, keep);
        Seq::filter_distributes_over_add(head, one, keep);
        assert(one.filter(keep) =~= seq![]) by {
            reveal(Seq::filter);
            assert(one.drop_last() =~= seq![]);
            assert(one.drop_last().filter(keep) =~= seq![]);
        }
        assert(log.filter(keep) =~= head + tail);
    } else {
        lemma_filter_keeps(log, keep);
    }
}

/// Editing changes the first entry for an `id` to the new text, and no other entry; where
/// there is none, the log stays as it is.
pub proof fn law_edit_changes_one(
    log: Seq<(String, LogEntryId)>,
    text: String,
    id: LogEntryId,
    at: int,
)
    ensures
        0 <= at < log.len() && log[at].1 == id && (forall|j: int|
            0 <= j < at ==> (#[trigger] log[j]).1 != id) ==> edited(log, text, id) == log.take(at)
            + seq![(text, id)] + log.skip(at + 1),
        (forall|j: int| 0 <= j < log.len() ==> (#[trigger] log[j]).1 != id) ==> edited(
            log,
            text,
            id,
        ) == log,
        has_entry(log, id) == exists|i: int| 0 <= i < log.len() && (#[trigger] log[i]).1 == id,
{
    if 0 <= at < log.len() && log[at].1 == id && (forall|j: int|
        0 <= j < at ==> (#[trigger] log[j]).1 != id) {
        lemma_entry_of(log, id, at);
        assert(entry_of(log, id) == at);
        assert(edited(log, text, id) =~= log.take(at) + seq![(text, id)] + log.skip(at + 1));
    }
}

/// A message that the log holds is changed where it stands; everything else is added behind
/// what the log holds, be it a line of the client's own, a message on its way or a message
/// that is new.
pub proof fn law_log_adds_or_changes(
    log: Seq<(String, LogEntryId)>,
    text: String,
    number: usize,
    at: int,
)
    ensures
        logged(log, text, LogEntryId::Plain) == log + seq![(text, LogEntryId::Plain)],
        logged(log, text, LogEntryId::Sending) == log + seq![(text, LogEntryId::Sending)],
        (forall|j: int|
            0 <= j < log.len() ==> (#[trigger] log[j]).1 != LogEntryId::Message(number))
            ==> logged(log, text, LogEntryId::Message(number)) == log + seq![
            (text, LogEntryId::Message(number)),
        ],
        0 <= at < log.len() && log[at].1 == LogEntryId::Message(number) && (forall|j: int|
            0 <= j < at ==> (#[trigger] log[j]).1 != LogEntryId::Message(number)) ==> logged(
            log,
            text,
            LogEntryId::Message(number),
        ) == log.take(at) + seq![(text, LogEntryId::Message(number))] + log.skip(at + 1),
{
    let id = LogEntryId::Message(number);
    law_edit_changes_one(log, text, id, at);
    assert(log.push((text, id)) =~= log + seq![(text, id)]);
    assert(logged(log, text, LogEntryId::Plain) =~= log + seq![(text, LogEntryId::Plain)]);
    assert(logged(log, text, LogEntryId::Sending) =~= log + seq![(text, LogEntryId::Sending)]);
}

/// Sanitizing goes character by character: a control code is left out unless it is a newline
/// or a tab, and everything else stays.
pub proof fn law_sanitize_goes_by_characters(text: Seq<char>, c: char)
    ensures
        sanitized(seq![]) == Seq::<char>::empty(),
        ({
            let control = c as u32 <= 0x1f || 0x7f <= c as u32 <= 0x9f;
            sanitized(text.push(c)) == if control && c != '\n' && c != '\t' {
                sanitized(text)
            } else {
                sanitized(text).push(c)
            }
        }),
{
    reveal(Seq::filter);
    assert(text.push(c).drop_last() =~= text);
}

/// The side column has a heading of two lines, then one label for each channel, sorted: the
/// name behind a mark, or for a private channel the recipient, if they are known.
pub proof fn law_channel_list_names_all(channels: Map<usize, Channel>, order: Seq<usize>)
    requires
        walks(channels, order),
    ensures
        ({
            let lines = status_lines(channels, order);
            let label = |k: usize|
                if !channels[k].private {
                    " #"@ + channels[k].name@
                } else if channels[k].recipient is Some {
                    "* "@ + channels[k].recipient.unwrap()@
                } else {
                    "* "@ + "unknown"@
                };
            &&& lines.len() == order.len() + 2
            &&& lines[0] == ""@
            &&& lines[1] == "Channels:"@
            &&& lines.skip(2).to_multiset() == order.map_values(label).to_multiset()
            &&& forall|i: int, j: int|
                2 <= i < j < lines.len() ==> text_le(#[trigger] lines[i], #[trigger] lines[j])
        }),
{
    let lines = status_lines(channels, order);
    let label = |k: usize|
        if !channels[k].private {
            " #"@ + channels[k].name@
        } else if channels[k].recipient is Some {
            "* "@ + channels[k].recipient.unwrap()@
        } else {
            "* "@ + "unknown"@
        };
    let all = labels(channels, order);
    law_order_sorts(all);
    assert(all =~= order.map_values(label));
    broadcast use vstd::seq_lib::group_to_multiset_ensures;

    assert(in_order(all).len() == all.len()) by {
        assert(in_order(all).to_multiset().len() == all.to_multiset().len());
    }
    assert(lines.skip(2) =~= in_order(all));
    assert forall|i: int, j: int| 2 <= i < j < lines.len() implies text_le(
        #[trigger] lines[i],
        #[trigger] lines[j],
    ) by {
        assert(lines[i] == in_order(all)[i - 2]);
        assert(lines[j] == in_order(all)[j - 2]);
    }
}

/// Whether a text is the name of a user.
pub open spec fn is_user_name(state: &State, name: Seq<char>) -> bool {
    exists|k: usize| state.users@.contains_key(k) && (#[trigger] state.users@[k]).name@ == name
}

/// Whether a text is the name of a channel with its mark.
pub open spec fn is_channel_name(state: &State, name: Seq<char>) -> bool {
    exists|k: usize|
        state.channels@.contains_key(k) && seq!['#'] + (#[trigger] state.channels@[k]).name@
            == name
}

/// What a word is completed to are names of users first and then names of channels with
/// their mark, and nothing else.
pub proof fn law_completions_are_names(state: &State, word: Seq<char>, found: Seq<Seq<char>>)
    requires
        completes(Some(state), word, found),
    ensures
        exists|n: int|
            {
                &&& 0 <= n <= found.len()
                &&& #[trigger] found.take(n).len() == n
                &&& forall|i: int| 0 <= i < n ==> is_user_name(state, #[trigger] found[i])
                &&& forall|i: int|
                    n <= i < found.len() ==> is_channel_name(state, #[trigger] found[i])
            },
{
    let (users, channels) = choose|users: Seq<usize>, channels: Seq<usize>|
        {
            &&& walks(state.users@, users)
            &&& walks(state.channels@, channels)
            &&& found == #[trigger] candidates(state.users@, users, state.channels@, channels, word)
        };
    let fits = |name: Seq<char>| word.is_prefix_of(name);
    let names = user_names(state.users@, users);
    let marked = channel_names(state.channels@, channels);
    let left = names.filter(fits);
    let right = marked.filter(fits);
    let n = left.len() as int;
    assert forall|i: int| 0 <= i < n implies is_user_name(state, #[trigger] found[i]) by {
        assert(left.contains(left[i]));
        names.lemma_filter_contains_rev(fits, left[i]);
        let j = choose|j: int| 0 <= j < names.len() && names[j] == left[i];
        assert(users.contains(users[j]));
        assert(state.users@[users[j]].name@ == found[i]);
    }
    assert forall|i: int| n <= i < found.len() implies is_channel_name(
        state,
        #[trigger] found[i],
    ) by {
        assert(right.contains(right[i - n]));
        marked.lemma_filter_contains_rev(fits, right[i - n]);
        let j = choose|j: int| 0 <= j < marked.len() && marked[j] == right[i - n];
        assert(channels.contains(channels[j]));
        assert(seq!['#'] + state.channels@[channels[j]].name@ == found[i]);
    }
    assert(found.take(n).len() == n);
}

/// A line is completed behind its last space or quote before the cursor, or from its start,
/// and without a session to nothing.
pub proof fn law_completion_starts_behind_a_break(
    session: Option<&State>,
    line: Seq<char>,
    pos: int,
    start: int,
    found: Seq<Seq<char>>,
)
    requires
        completes_line(session, line, pos, start, found),
    ensures
        exists|from: int, to: int|
            {
                &&& 0 <= from <= to <= line.len()
                &&& vstd::utf8::encode_utf8(#[trigger] line.take(from)).len() == start
                &&& vstd::utf8::encode_utf8(#[trigger] line.take(to)).len() == pos
                &&& from == 0 || line[from - 1] == ' ' || line[from - 1] == '"' || line[from - 1]
                    == '\''
                &&& forall|j: int|
                    from <= j < to ==> #[trigger] line[j] != ' ' && line[j] != '"' && line[j]
                        != '\''
                &&& session is Some ==> completes(session, line.subrange(from, to), found)
            },
        session is None ==> found.len() == 0,
{
    let word = choose|word: Seq<char>|
        is_word_at(line, pos, break_chars(), start, word) && #[trigger] completes(
            session,
            word,
            found,
        );
    let (from, to) = choose|from: int, to: int|
        {
            &&& 0 <= from <= to <= line.len()
            &&& bytes_of(#[trigger] line.take(from)).len() == start
            &&& bytes_of(#[trigger] line.take(to)).len() == pos
            &&& word == line.subrange(from, to)
            &&& from == 0 || break_chars().contains(line[from - 1])
            &&& forall|j: int| from <= j < to ==> !break_chars().contains(#[trigger] line[j])
        };
    assert(break_chars()[0] == ' ' && break_chars()[1] == '"' && break_chars()[2] == '\'');
    assert forall|c: char| #[trigger] break_chars().contains(c) <==> c == ' ' || c == '"' || c
        == '\'' by {}
    assert(line.take(from) == line.take(from) && line.take(to) == line.take(to));
}

/// A word is completed to the names of all users that start with it, then to those of all
/// channels with their mark, each table walked once.
pub proof fn law_completions_are_all(state: &State, word: Seq<char>, found: Seq<Seq<char>>)
    requires
        completes(Some(state), word, found),
    ensures
        exists|users: Seq<usize>, channels: Seq<usize>|
            {
                &&& #[trigger] walks(state.users@, users)
                &&& #[trigger] walks(state.channels@, channels)
                &&& found == users.map_values(|k: usize| state.users@[k].name@).filter(
                    |name: Seq<char>| word.is_prefix_of(name),
                ) + channels.map_values(|k: usize| seq!['#'] + state.channels@[k].name@).filter(
                    |name: Seq<char>| word.is_prefix_of(name),
                )
            },
{
    let (users, channels) = choose|users: Seq<usize>, channels: Seq<usize>|
        {
            &&& walks(state.users@, users)
            &&& walks(state.channels@, channels)
            &&& found == #[trigger] candidates(state.users@, users, state.channels@, channels, word)
        };
    assert(walks(state.users@, users) && walks(state.channels@, channels));
}

/// A failure to read is logged behind all else, as a line of the client's own.
pub proof fn law_failures_are_logged_last(
    before: Seq<(String, LogEntryId)>,
    after: Seq<(String, LogEntryId)>,
    text: Seq<char>,
)
    requires
        logs_failure(before, after, text),
    ensures
        exists|line: String|
            line@ == text && after == #[trigger] before.push((line, LogEntryId::Plain)),
{
    let line = after.last().0;
    assert(after =~= before.push((line, LogEntryId::Plain)));
}

} // verus!
