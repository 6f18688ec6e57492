use synac_client::frontend::{complete, LineRead, PassRead, Screen};
use synac_client::layout::{Frame, Row, Side};
use synac_client::model::{Channel, LogEntryId, State, User};

use std::collections::HashMap;

fn user(id: usize, name: &str) -> User {
    User {
        admin: false,
        ban: false,
        bot: false,
        id,
        modes: HashMap::new(),
        name: String::from(name),
        private_channel: None,
    }
}

fn channel(id: usize, name: &str) -> Channel {
    Channel {
        default_mode_bot: 0,
        default_mode_user: 3,
        id,
        name: String::from(name),
        private: false,
        recipient: None,
    }
}

fn private_channel(id: usize, recipient: Option<&str>) -> Channel {
    Channel { private: true, recipient: recipient.map(String::from), ..channel(id, "hidden") }
}

fn state(channels: Vec<Channel>, users: Vec<User>) -> State {
    let mut state = State::new();
    for channel in channels {
        state.channels.insert(channel.id, channel);
    }
    for user in users {
        state.users.insert(user.id, user);
    }
    state
}

fn screen(entries: &[&str]) -> Screen {
    let mut screen = Screen::new();
    for entry in entries {
        screen.log(String::from(*entry));
    }
    screen
}

fn row(indent: usize, text: &str) -> Row {
    Row { indent, text: String::from(text), sending: false, side: None }
}

fn rows(screen: &Screen, width: u16, height: u16) -> Vec<Row> {
    screen.repaint(Some((width, height))).unwrap().rows
}

fn texts(screen: &Screen, width: u16, height: u16) -> Vec<String> {
    rows(screen, width, height).into_iter().map(|row| row.text).collect()
}

fn log(screen: &Screen) -> Vec<(&str, LogEntryId)> {
    screen.log.iter().map(|entry| (entry.0.as_str(), entry.1)).collect()
}

#[test]
fn a_new_screen_is_empty() {
    let screen = Screen::new();
    assert!(screen.log.is_empty());
    assert!(screen.status.is_empty());
    assert_eq!(screen.typing, "");
    assert_eq!(
        screen.repaint(Some((80, 24))),
        Some(Frame { rows: vec![], typing: String::new(), typing_line: 24, prompt_line: 23 })
    );
}

#[test]
fn own_lines_pile_up() {
    let screen = screen(&["a", "a"]);
    assert_eq!(log(&screen), vec![("a", LogEntryId::Plain), ("a", LogEntryId::Plain)]);
}

#[test]
fn a_message_that_is_logged_again_is_changed() {
    let mut screen = Screen::new();
    screen.log_with_id(String::from("one"), LogEntryId::Message(1));
    screen.log_with_id(String::from("two"), LogEntryId::Message(2));
    screen.log_with_id(String::from("uno"), LogEntryId::Message(1));
    assert_eq!(log(&screen), vec![("uno", LogEntryId::Message(1)), ("two", LogEntryId::Message(2))]);
}

#[test]
fn messages_on_their_way_pile_up() {
    let mut screen = Screen::new();
    screen.log_with_id(String::from("x"), LogEntryId::Sending);
    screen.log_with_id(String::from("y"), LogEntryId::Sending);
    assert_eq!(log(&screen), vec![("x", LogEntryId::Sending), ("y", LogEntryId::Sending)]);
}

#[test]
fn editing_gives_the_text_back_where_there_is_no_entry() {
    let mut screen = screen(&["a"]);
    assert_eq!(
        screen.edit(String::from("b"), LogEntryId::Message(1)),
        Some(String::from("b"))
    );
    assert_eq!(log(&screen), vec![("a", LogEntryId::Plain)]);
}

#[test]
fn editing_changes_the_first_entry() {
    let mut screen = screen(&["a", "b"]);
    assert_eq!(screen.edit(String::from("c"), LogEntryId::Plain), None);
    assert_eq!(log(&screen), vec![("c", LogEntryId::Plain), ("b", LogEntryId::Plain)]);
}

#[test]
fn deleting_removes_the_first_entry() {
    let mut screen = screen(&["a", "b"]);
    screen.delete(LogEntryId::Sending);
    assert_eq!(screen.log.len(), 2);
    screen.delete(LogEntryId::Plain);
    assert_eq!(log(&screen), vec![("b", LogEntryId::Plain)]);
}

#[test]
fn deleting_takes_back_what_was_logged() {
    let mut screen = screen(&["a"]);
    screen.log_with_id(String::from("m"), LogEntryId::Message(7));
    screen.delete(LogEntryId::Message(7));
    assert_eq!(log(&screen), vec![("a", LogEntryId::Plain)]);
}

#[test]
fn clearing_forgets_the_log_alone() {
    let mut screen = screen(&["a"]);
    screen.update(&state(vec![], vec![]));
    screen.typing_set(String::from("B is typing"));
    screen.clear();
    assert!(screen.log.is_empty());
    assert_eq!(screen.status, vec!["", "Channels:"]);
    assert_eq!(screen.typing, "B is typing");
}

#[test]
fn the_channel_list_is_sorted() {
    let mut screen = Screen::new();
    screen.update(&state(
        vec![
            channel(3, "zoo"),
            channel(1, "abc"),
            private_channel(2, Some("Bob")),
            private_channel(4, None),
            channel(5, "Abc"),
        ],
        vec![],
    ));
    assert_eq!(
        screen.status,
        vec!["", "Channels:", " #Abc", " #abc", " #zoo", "* Bob", "* unknown"]
    );
    screen.update(&state(vec![channel(9, "new")], vec![]));
    assert_eq!(screen.status, vec!["", "Channels:", " #new"]);
}

#[test]
fn typing_is_repainted_where_it_changed() {
    let mut screen = Screen::new();
    assert!(!screen.typing_set(String::new()));
    assert!(screen.typing_set(String::from("A is typing")));
    assert!(!screen.typing_set(String::from("A is typing")));
    assert_eq!(screen.typing, "A is typing");
    let frame = screen.repaint(Some((80, 24))).unwrap();
    assert_eq!((frame.typing.as_str(), frame.typing_line, frame.prompt_line), ("A is typing", 24, 23));
}

#[test]
fn lines_that_are_read_come_back() {
    let mut screen = Screen::new();
    assert_eq!(screen.readline(LineRead::Line(String::from("hi"))), Ok(String::from("hi")));
    assert_eq!(screen.readline(LineRead::Interrupted), Err(()));
    assert_eq!(screen.readline(LineRead::Eof), Err(()));
    assert!(screen.log.is_empty());
    assert_eq!(screen.readline(LineRead::Failed(String::from("broken"))), Err(()));
    assert_eq!(log(&screen), vec![("Failed to read line: broken", LogEntryId::Plain)]);
}

#[test]
fn passwords_that_are_read_come_back() {
    let mut screen = Screen::new();
    assert_eq!(screen.readpass(PassRead::Password(String::from("pw"))), Ok(String::from("pw")));
    assert_eq!(screen.readpass(PassRead::Nothing), Err(()));
    assert!(screen.log.is_empty());
    assert_eq!(screen.readpass(PassRead::Failed(String::from("broken"))), Err(()));
    assert_eq!(log(&screen), vec![("Failed to read password: broken", LogEntryId::Plain)]);
}

#[test]
fn a_short_entry_takes_one_row() {
    assert_eq!(rows(&screen(&["hello"]), 80, 24), vec![row(0, "hello")]);
    assert_eq!(rows(&screen(&[""]), 80, 24), vec![row(0, "")]);
}

#[test]
fn a_terminal_of_unknown_size_is_fifty_by_fifty() {
    let text = "x".repeat(40);
    let screen = screen(&[&text]);
    assert_eq!(screen.repaint(None), screen.repaint(Some((50, 50))));
    let frame = screen.repaint(None).unwrap();
    assert_eq!((frame.typing_line, frame.prompt_line), (50, 49));
    assert_eq!(frame.rows, vec![row(0, &"x".repeat(37)), row(0, "xxx")]);
}

#[test]
fn long_entries_are_indented_behind_the_name() {
    assert_eq!(
        rows(&screen(&["a: bcdefghij"]), 20, 24),
        vec![row(0, "a: bcde"), row(3, "fghi"), row(3, "j")]
    );
}

#[test]
fn newlines_end_rows() {
    assert_eq!(rows(&screen(&["x\ny"]), 80, 24), vec![row(0, "x"), row(0, "y")]);
    assert_eq!(rows(&screen(&["x\ny\n"]), 80, 24), vec![row(0, "x"), row(0, "y"), row(0, "")]);
    assert_eq!(
        rows(&screen(&["me: a\n\nb"]), 80, 24),
        vec![row(0, "me: a"), row(4, ""), row(4, "b")]
    );
}

#[test]
fn a_newline_at_the_right_edge_ends_one_row() {
    assert_eq!(texts(&screen(&["abcdefg\nh"]), 20, 24), vec!["abcdefg", "h"]);
}

#[test]
fn rows_show_the_whole_entry() {
    let text = "Alice: Lorem ipsum dolor sit amet,\nconsectetur adipiscing elit";
    for width in 21..60u16 {
        assert_eq!(texts(&screen(&[text]), width, 50).concat(), text.replace("\n", ""));
    }
}

#[test]
fn messages_on_their_way_are_marked() {
    let mut screen = Screen::new();
    screen.log_with_id(String::from("me: hi"), LogEntryId::Sending);
    screen.log_with_id(String::new(), LogEntryId::Sending);
    assert_eq!(rows(&screen, 80, 24), vec![Row { sending: true, ..row(0, "me: hi") }, row(0, "")]);
}

#[test]
fn the_newest_entries_are_shown() {
    let screen = screen(&["a", "b", "c"]);
    assert_eq!(texts(&screen, 80, 6), vec!["a", "b", "c"]);
    assert_eq!(texts(&screen, 80, 5), vec!["b", "c"]);
    assert_eq!(texts(&screen, 80, 4), vec!["c"]);
    assert!(texts(&screen, 80, 3).is_empty());
    assert!(texts(&screen, 80, 1).is_empty());
}

#[test]
fn an_entry_is_shown_whole_or_not_at_all() {
    let screen = screen(&["a\nb", "c"]);
    assert_eq!(texts(&screen, 80, 6), vec!["a", "b", "c"]);
    assert_eq!(texts(&screen, 80, 5), vec!["c"]);
}

#[test]
fn the_character_at_the_edge_is_not_counted() {
    // Seven columns: fifteen characters are counted for two lines, but drawn on three.
    let screen = screen(&["abcdefghijklmno"]);
    assert_eq!(texts(&screen, 20, 5), vec!["abcdefg", "hijklmn", "o"]);
    assert!(texts(&screen, 20, 4).is_empty());
}

#[test]
fn the_side_column_stands_next_to_the_rows() {
    let mut screen = screen(&["abc", "", "de"]);
    screen.update(&state(vec![channel(1, "general-chat"), channel(2, "x")], vec![]));
    let side = |right: u16, text: &str, ellipsis: bool| {
        Some(Side { right, text: String::from(text), ellipsis })
    };
    assert_eq!(
        rows(&screen, 50, 50),
        vec![
            Row { side: side(36, "", false), ..row(0, "abc") },
            Row { side: side(39, "Channels:", false), ..row(0, "") },
            Row { side: side(37, " #general-", true), ..row(0, "de") },
        ]
    );
}

#[test]
fn a_label_of_eleven_bytes_is_not_cut() {
    let mut screen = screen(&["", "", ""]);
    screen.update(&state(vec![channel(1, "123456789")], vec![]));
    let last = rows(&screen, 50, 50).pop().unwrap();
    assert_eq!(last.side, Some(Side { right: 39, text: String::from(" #123456789"), ellipsis: false }));
}

#[test]
fn what_cannot_be_drawn_gives_no_frame() {
    // No line at all.
    assert_eq!(Screen::new().repaint(Some((80, 0))), None);
    // No column for the text.
    assert_eq!(screen(&["x"]).repaint(Some((13, 24))), None);
    // A character that a row would cut in two.
    assert_eq!(screen(&["é"]).repaint(Some((14, 24))), None);
    // No room behind the indentation.
    assert_eq!(screen(&["abcdefghij: klm"]).repaint(Some((20, 24))), None);
    // A label that would be cut within a character.
    let mut labelled = screen(&["", "", ""]);
    labelled.update(&state(vec![channel(1, "1234567é12")], vec![]));
    assert_eq!(labelled.repaint(Some((80, 24))), None);
}

#[test]
fn a_label_without_a_row_does_not_matter() {
    let mut labelled = screen(&["", ""]);
    labelled.update(&state(vec![channel(1, "1234567é12")], vec![]));
    assert!(labelled.repaint(Some((80, 24))).is_some());
}

#[test]
fn words_are_completed_to_users_and_channels() {
    let state = state(vec![channel(1, "alpha"), channel(2, "beta")], vec![user(1, "alice"), user(2, "bob")]);
    assert_eq!(complete(Some(&state), "hi al", 5), (3, vec![String::from("alice")]));
    assert_eq!(complete(Some(&state), "#a", 2), (0, vec![String::from("#alpha")]));
    assert_eq!(complete(Some(&state), "bob", 3), (0, vec![String::from("bob")]));
    assert_eq!(complete(Some(&state), "Bob", 3), (0, vec![]));
}

#[test]
fn completion_breaks_at_spaces_and_quotes() {
    let state = state(vec![], vec![user(1, "alice")]);
    let found = vec![String::from("alice")];
    assert_eq!(complete(Some(&state), "/msg \"al", 8), (6, found));
    assert_eq!(complete(Some(&state), "'al", 3).0, 1);
    assert_eq!(complete(Some(&state), "x,al", 4), (0, vec![]));
}

#[test]
fn completion_looks_before_the_cursor_only() {
    let state = state(vec![], vec![user(1, "älice"), user(2, "bob")]);
    assert_eq!(complete(Some(&state), "äl bob", 2), (0, vec![String::from("älice")]));
    assert_eq!(complete(Some(&state), "é ä", 5), (3, vec![String::from("älice")]));
}

#[test]
fn an_empty_word_is_completed_to_everything() {
    let state = state(vec![channel(1, "c"), channel(2, "d")], vec![user(1, "a"), user(2, "b")]);
    let (start, found) = complete(Some(&state), "x ", 2);
    assert_eq!(start, 2);
    let mut users: Vec<String> = found[..2].to_vec();
    let mut channels: Vec<String> = found[2..].to_vec();
    users.sort();
    channels.sort();
    assert_eq!(users, vec!["a", "b"]);
    assert_eq!(channels, vec!["#c", "#d"]);
}

#[test]
fn without_a_session_nothing_is_completed() {
    assert_eq!(complete(None, "hi al", 5), (3, vec![]));
    assert_eq!(complete(None, "", 0), (0, vec![]));
}
