//! What the client knows: log entries, users, channels and sessions.

use std::collections::HashMap;

use vstd::prelude::*;

use crate::text::same_text;

verus! {

broadcast use {vstd::std_specs::hash::group_hash_axioms, vstd::string::group_string_axioms};

/// What a line of the log stands for.
#[derive(Debug, PartialEq, Eq, Clone, Copy, Structural)]
pub enum LogEntryId {
    /// A message that the server knows under this number.
    Message(usize),
    /// A line of the client's own.
    Plain,
    /// A message on its way to the server.
    Sending,
}

/// A user, as the server describes them.
pub struct User {
    pub admin: bool,
    pub ban: bool,
    pub bot: bool,
    pub id: usize,
    /// The permissions of the user in each channel that has some of their own for them.
    pub modes: HashMap<usize, u8>,
    pub name: String,
    /// The private channel with this user, if there is one.
    pub private_channel: Option<usize>,
}

/// A channel, as the server describes it.
pub struct Channel {
    pub default_mode_bot: u8,
    pub default_mode_user: u8,
    pub id: usize,
    pub name: String,
    pub private: bool,
    /// The name of the other user of a private channel, where it is known.
    pub recipient: Option<String>,
}

/// Everything the server has told the client about channels and users.
pub struct State {
    pub channels: HashMap<usize, Channel>,
    pub users: HashMap<usize, User>,
}

impl State {
    /// Nothing is known yet.
    pub fn new() -> (res: State)
        ensures
            res.channels@ == Map::<usize, Channel>::empty(),
            res.users@ == Map::<usize, User>::empty(),
    {
        State { channels: HashMap::new(), users: HashMap::new() }
    }
}

/// A connection to a server.
pub struct Session {
    pub state: State,
    /// The address of the server.
    pub addr: String,
    /// The channel that the user is in.
    pub channel: Option<usize>,
    /// The number of the user.
    pub id: usize,
    /// The last message of the user: its number and its text.
    pub last: Option<(usize, Vec<u8>)>,
    /// Since when, in milliseconds, each user has been typing in each channel.
    pub typing: HashMap<(usize, usize), u64>,
}

impl Session {
    /// A session in which nothing has happened yet.
    pub fn new(addr: String, id: usize) -> (res: Session)
        ensures
            res.state.channels@ == Map::<usize, Channel>::empty(),
            res.state.users@ == Map::<usize, User>::empty(),
            res.addr == addr,
            res.channel is None,
            res.id == id,
            res.last is None,
            res.typing@ == Map::<(usize, usize), u64>::empty(),
    {
        Session {
            state: State::new(),
            addr,
            channel: None,
            id,
            last: None,
            typing: HashMap::new(),
        }
    }
}

/// What the client keeps beyond a connection.
pub struct Connector {
    /// The name that the user goes by.
    pub nick: String,
}

/// The client: its user and, while it is connected, its session.
pub struct Client {
    pub connector: Connector,
    pub session: Option<Session>,
}

/// Whether `order` lists every key of a table once.
pub open spec fn walks<V>(table: Map<usize, V>, order: Seq<usize>) -> bool {
    &&& order.no_duplicates()
    &&& forall|k: usize| order.contains(k) <==> #[trigger] table.contains_key(k)
}

/// There is a walk through every finite table.
pub proof fn law_tables_can_be_walked<V>(table: Map<usize, V>)
    requires
        table.dom().finite(),
    ensures
        exists|order: Seq<usize>| walks(table, order),
    decreases table.dom().len(),
{
    if table.dom().len() == 0 {
        assert(table.dom() =~= Set::empty());
        assert(walks(table, Seq::empty()));
    } else {
        let key = table.dom().choose();
        let rest = table.remove(key);
        law_tables_can_be_walked(rest);
        let order = choose|order: Seq<usize>| walks(rest, order);
        let longer = order.push(key);
        assert forall|k: usize| longer.contains(k) <==> #[trigger] table.contains_key(k) by {
            assert(order.contains(k) <==> rest.contains_key(k));
            if order.contains(k) {
                let i = choose|i: int| 0 <= i < order.len() && order[i] == k;
                assert(longer[i] == k);
            }
            assert(longer[order.len() as int] == key);
        }
        assert(!order.contains(key)) by {
            assert(!rest.contains_key(key));
        }
        assert(walks(table, longer));
    }
}

/// Two walks through one table visit the same keys, each once.
pub proof fn lemma_walks_agree<V>(table: Map<usize, V>, a: Seq<usize>, b: Seq<usize>)
    requires
        walks(table, a),
        walks(table, b),
    ensures
        a.to_multiset() == b.to_multiset(),
{
    broadcast use vstd::seq_lib::group_to_multiset_ensures;

    a.lemma_multiset_has_no_duplicates();
    b.lemma_multiset_has_no_duplicates();
    assert(a.to_multiset() =~= b.to_multiset()) by {
        assert forall|k: usize| a.to_multiset().count(k) == b.to_multiset().count(k) by {
            assert(a.contains(k) <==> table.contains_key(k));
            assert(b.contains(k) <==> table.contains_key(k));
        }
    }
}

/// Lists the keys of a table, in no particular order.
pub fn walk<V>(table: &HashMap<usize, V>) -> (res: Vec<usize>)
    ensures
        walks(table@, res@),
{
    let mut order: Vec<usize> = Vec::new();
    let ghost all = vstd::std_specs::iter::IteratorSpec::remaining(
        &vstd::std_specs::hash::spec_keys_iter(table),
    ).unref();
    for key in it: table.keys()
        invariant
            it.seq().unref() == all,
            order@ == all.take(it.index()),
    {
        order.push(*key);
    }
    proof {
        assert(order@ =~= all);
        assert forall|k: usize| order@.contains(k) <==> #[trigger] table@.contains_key(k) by {
            assert(all.to_set().contains(k) <==> table@.dom().contains(k));
        }
    }
    order
}

/// What stands in a table under a key that it has.
pub fn entry<V>(table: &HashMap<usize, V>, key: usize) -> (res: &V)
    requires
        table@.contains_key(key),
    ensures
        *res == table@[key],
{
    table.get(&key).unwrap()
}

/// Whether a lookup by name may give `found`: a user of that name, or nothing if there is
/// none. Where two users share the name, either may be found.
pub open spec fn finds_user(users: Map<usize, User>, name: Seq<char>, found: Option<User>) -> bool {
    match found {
        Some(user) => user.name@ == name && exists|k: usize|
            users.contains_key(k) && #[trigger] users[k] == user,
        None => forall|k: usize| users.contains_key(k) ==> (#[trigger] users[k]).name@ != name,
    }
}

/// Looks a user up by name.
pub fn find_user<'a>(users: &'a HashMap<usize, User>, name: &str) -> (res: Option<&'a User>)
    ensures
        finds_user(
            users@,
            name@,
            match res {
                Some(user) => Some(*user),
                None => None,
            },
        ),
{
    let order = walk(users);
    for i in 0..order.len()
        invariant
            walks(users@, order@),
            forall|j: int| 0 <= j < i ==> (#[trigger] users@[order@[j]]).name@ != name@,
    {
        assert(order@.contains(order@[i as int]));
        let user = entry(users, order[i]);
        if same_text(user.name.as_str(), name) {
            return Some(user);
        }
    }
    proof {
        assert forall|k: usize| users@.contains_key(k) implies (#[trigger] users@[k]).name@
            != name@ by {
            assert(order@.contains(k));
            let j = choose|j: int| 0 <= j < order@.len() && order@[j] == k;
            assert(users@[order@[j]].name@ != name@);
        }
    }
    None
}

/// Where no two users share a name, a lookup by that name can only give one result.
pub proof fn law_lookup_is_sure(
    users: Map<usize, User>,
    name: Seq<char>,
    a: Option<User>,
    b: Option<User>,
)
    requires
        finds_user(users, name, a),
        finds_user(users, name, b),
        forall|j: usize, k: usize|
            users.contains_key(j) && users.contains_key(k) && (#[trigger] users[j]).name@ == (
            #[trigger] users[k]).name@ ==> j == k,
    ensures
        a == b,
{
}

/// A walk visits every key of a table, and no key twice.
pub proof fn law_walks_visit_each_once<V>(table: Map<usize, V>, order: Seq<usize>)
    requires
        walks(table, order),
    ensures
        order.to_set() == table.dom(),
        forall|i: int, j: int| 0 <= i < j < order.len() ==> order[i] != order[j],
{
    assert(order.to_set() =~= table.dom()) by {
        assert forall|k: usize| order.to_set().contains(k) == table.dom().contains(k) by {
            assert(order.contains(k) <==> table.contains_key(k));
        }
    }
}

/// A lookup by name gives a user of that name wherever there is one, and nobody else.
pub proof fn law_lookup_goes_by_name(
    users: Map<usize, User>,
    name: Seq<char>,
    found: Option<User>,
    k: usize,
)
    requires
        finds_user(users, name, found),
    ensures
        users.contains_key(k) && users[k].name@ == name ==> found is Some,
        found is Some ==> found.unwrap().name@ == name && users.values().contains(found.unwrap()),
{
}

} // verus!
