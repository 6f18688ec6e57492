use synac_client::model::{Client, Connector, Session};
use synac_client::startup::{farewell, first_nick, welcome};
use synac_client::steps::Effect;

#[test]
fn the_name_that_was_kept_comes_first() {
    let name = |text: &str| Some(String::from(text));
    assert_eq!(first_nick(name("kept"), name("system")), "kept");
    assert_eq!(first_nick(None, name("system")), "system");
    assert_eq!(first_nick(None, None), "unknown");
    assert_eq!(first_nick(name(""), name("system")), "");
}

#[test]
fn the_user_is_welcomed() {
    assert_eq!(
        welcome("Alice"),
        vec![
            "Welcome, Alice",
            "To quit, type /quit",
            "To change your name, type",
            "/nick <name>",
            "To connect to a server, type",
            "/connect <ip>",
            "",
        ]
    );
}

#[test]
fn a_server_is_told_at_the_end() {
    let mut client = Client { connector: Connector { nick: String::from("Alice") }, session: None };
    assert_eq!(farewell(&client), vec![]);
    client.session = Some(Session::new(String::from("127.0.0.1:8439"), 1));
    assert_eq!(farewell(&client), vec![Effect::Close]);
}
