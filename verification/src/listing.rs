//! What `/list` and `/info` show of the users and channels of a server.

use std::collections::HashMap;

use vstd::prelude::*;
use vstd::string::StringExecFns;

use crate::model::{entry, lemma_walks_agree, walk, walks, Channel, State, User};
use crate::order::{in_order, law_order_forgets, lemma_map_multiset, sort_texts, texts};
use crate::permissions::{perm_string, to_perm_string, Permissions};
use crate::text::{chars_of, decimal, decimal_text, same_text, text_of};

verus! {

broadcast use {vstd::std_specs::hash::group_hash_axioms, vstd::string::group_string_axioms};

/// Names one behind the other, with a comma before each that follows something.
pub open spec fn listed(names: Seq<Seq<char>>) -> Seq<char>
    decreases names.len(),
{
    if names.len() == 0 {
        seq![]
    } else {
        let before = listed(names.drop_last());
        (if before.len() == 0 {
            before
        } else {
            before + ", "@
        }) + names.last()
    }
}

/// Lists names behind a mark that each of them gets.
fn list_names(names: &Vec<String>, mark: &str) -> (res: String)
    ensures
        res@ == listed(texts(names@).map_values(|name: Seq<char>| mark@ + name)),
{
    let mut res = String::new();
    let ghost marked = texts(names@).map_values(|name: Seq<char>| mark@ + name);
    for i in 0..names.len()
        invariant
            marked == texts(names@).map_values(|name: Seq<char>| mark@ + name),
            res@ == listed(marked.take(i as int)),
    {
        let ghost before = res@;
        assert(marked.take(i + 1).drop_last() =~= marked.take(i as int));
        assert(marked[i as int] == mark@ + names@[i as int]@);
        if !res.as_str().is_empty() {
            res.append(", ");
        }
        res.append(mark);
        res.append(names[i].as_str());
        assert(res@ =~= (if before.len() == 0 {
            before
        } else {
            before + ", "@
        }) + marked[i as int]);
    }
    assert(marked.take(marked.len() as int) =~= marked);
    res
}

/// The names of channels, in the order given.
pub open spec fn names_of_channels(channels: Map<usize, Channel>, order: Seq<usize>) -> Seq<
    Seq<char>,
> {
    order.map_values(|k: usize| channels[k].name@)
}

/// What `/list channels` shows: all channels in order of their names.
pub open spec fn channel_list(channels: Map<usize, Channel>, order: Seq<usize>) -> Seq<char> {
    listed(
        in_order(names_of_channels(channels, order)).map_values(|name: Seq<char>| "#"@ + name),
    )
}

/// Lists all channels, in order of their names whichever way the table is walked.
pub fn list_channels(channels: &HashMap<usize, Channel>) -> (res: String)
    ensures
        forall|order: Seq<usize>|
            walks(channels@, order) ==> res@ == #[trigger] channel_list(channels@, order),
{
    let order = walk(channels);
    let mut names: Vec<String> = Vec::new();
    let ghost all = names_of_channels(channels@, order@);
    assert(texts(names@) =~= all.take(0));
    for i in 0..order.len()
        invariant
            walks(channels@, order@),
            all == names_of_channels(channels@, order@),
            texts(names@) == all.take(i as int),
    {
        assert(order@.contains(order@[i as int]));
        let ghost before = names@;
        let channel = entry(channels, order[i]);
        names.push(channel.name.clone());
        assert(texts(names@) =~= texts(before).push(channel.name@));
        assert(all.take(i + 1) =~= all.take(i as int).push(all[i as int]));
    }
    assert(all.take(all.len() as int) =~= all);
    let sorted = sort_texts(names);
    let res = list_names(&sorted, "#");
    proof {
        assert forall|other: Seq<usize>| walks(channels@, other) implies res@
            == #[trigger] channel_list(channels@, other) by {
            lemma_walks_agree(channels@, order@, other);
            lemma_map_multiset(order@, other, |k: usize| channels@[k].name@);
            law_order_forgets(all, names_of_channels(channels@, other));
        }
    }
    res
}

/// The names of the users who are banned, or of those who are not, in the order given.
pub open spec fn names_of_users(users: Map<usize, User>, order: Seq<usize>, ban: bool) -> Seq<
    Seq<char>,
> {
    order.filter(|k: usize| users[k].ban == ban).map_values(|k: usize| users[k].name@)
}

/// What `/list users` shows of the users who are banned, or of those who are not: their
/// names in order.
pub open spec fn user_list(users: Map<usize, User>, order: Seq<usize>, ban: bool) -> Seq<char> {
    listed(in_order(names_of_users(users, order, ban)))
}

/// Two lists with the same items, each as often, stay so when items are left out.
pub proof fn lemma_filter_multiset<A>(a: Seq<A>, b: Seq<A>, keep: spec_fn(A) -> bool)
    requires
        a.to_multiset() == b.to_multiset(),
    ensures
        a.filter(keep).to_multiset() == b.filter(keep).to_multiset(),
    decreases a.len(),
{
    broadcast use vstd::seq_lib::group_to_multiset_ensures;

    if a.len() == 0 {
        assert(b.to_multiset().len() == 0);
        assert(a =~= b);
    } else {
        let x = a.last();
        assert(a.to_multiset().count(x) > 0);
        let i = choose|i: int| 0 <= i < b.len() && b[i] == x;
        let rest = a.drop_last();
        let short = b.remove(i);
        assert(a.remove(a.len() - 1) =~= rest);
        lemma_filter_multiset(rest, short, keep);
        let head = b.take(i);
        let tail = b.skip(i + 1);
        let one = seq![x];
        assert(b =~= head + one + tail);
        assert(short =~= head + tail);
        assert(a =~= rest + one);
        Seq::filter_distributes_over_add(rest, one, keep);
        Seq::filter_distributes_over_add(head + one, tail, keep);
        Seq::filter_distributes_over_add(head, one, keep);
        Seq::filter_distributes_over_add(head, tail, keep);
        let h = head.filter(keep);
        let t = tail.filter(keep);
        assert(one.filter(keep) == if keep(x) {
            one
        } else {
            Seq::empty()
        }) by {
            reveal(Seq::filter);
            assert(one.drop_last() =~= Seq::empty());
            assert(one.drop_last().filter(keep) =~= Seq::empty());
            assert(Seq::<A>::empty().push(x) =~= one);
        }
        if keep(x) {
            assert(a.filter(keep) =~= rest.filter(keep).push(x));
            assert(b.filter(keep) =~= (h + t).insert(h.len() as int, x));
            vstd::seq_lib::to_multiset_insert(h + t, h.len() as int, x);
        } else {
            assert(a.filter(keep) =~= rest.filter(keep));
            assert(b.filter(keep) =~= short.filter(keep));
        }
    }
}

/// Lists the users who are banned, or those who are not, in order of their names whichever
/// way the table is walked.
pub fn list_users(users: &HashMap<usize, User>, ban: bool) -> (res: String)
    ensures
        forall|order: Seq<usize>|
            walks(users@, order) ==> res@ == #[trigger] user_list(users@, order, ban),
{
    let order = walk(users);
    let mut names: Vec<String> = Vec::new();
    let ghost keep = |k: usize| users@[k].ban == ban;
    let ghost name = |k: usize| users@[k].name@;
    proof {
        reveal(Seq::filter);
        assert(texts(names@) =~= order@.take(0).filter(keep).map_values(name));
    }
    for i in 0..order.len()
        invariant
            walks(users@, order@),
            keep == |k: usize| users@[k].ban == ban,
            name == |k: usize| users@[k].name@,
            texts(names@) == order@.take(i as int).filter(keep).map_values(name),
    {
        assert(order@.contains(order@[i as int]));
        let ghost before = names@;
        let user = entry(users, order[i]);
        proof {
            reveal(Seq::filter);
            assert(order@.take(i + 1).drop_last() =~= order@.take(i as int));
        }
        if user.ban == ban {
            names.push(user.name.clone());
            assert(texts(names@) =~= texts(before).push(user.name@));
            assert(order@.take(i + 1).filter(keep) == order@.take(i as int).filter(keep).push(
                order@[i as int],
            ));
            assert(texts(names@) =~= order@.take(i + 1).filter(keep).map_values(name));
        }
    }
    assert(order@.take(order@.len() as int) =~= order@);
    let ghost all = names_of_users(users@, order@, ban);
    assert(texts(names@) == all);
    let sorted = sort_texts(names);
    let res = list_names(&sorted, "");
    proof {
        reveal_strlit("");
        let plain = in_order(all);
        assert(plain.map_values(|name: Seq<char>| ""@ + name) =~= plain) by {
            assert forall|i: int| 0 <= i < plain.len() implies ""@ + plain[i] == plain[i] by {
                assert(""@ + plain[i] =~= plain[i]);
            }
        }
        assert forall|other: Seq<usize>| walks(users@, other) implies res@ == #[trigger] user_list(
            users@,
            other,
            ban,
        ) by {
            lemma_walks_agree(users@, order@, other);
            lemma_filter_multiset(order@, other, keep);
            lemma_map_multiset(order@.filter(keep), other.filter(keep), name);
            law_order_forgets(all, names_of_users(users@, other, ban));
        }
    }
    res
}

/// Whether `/info` means a channel: by its name, with or without a mark, or by its number.
pub open spec fn means_channel(channel: Channel, name: Seq<char>, id: Option<usize>) -> bool {
    ||| name == channel.name@
    ||| name.len() > 0 && name[0] == '#' && name.skip(1) == channel.name@
    ||| id == Some(channel.id)
}

/// Whether `/info` means a user: by their name or by their number.
pub open spec fn means_user(user: User, name: Seq<char>, id: Option<usize>) -> bool {
    name == user.name@ || id == Some(user.id)
}

/// What `/info` shows of a channel.
pub open spec fn channel_info(channel: Channel, perms: Permissions) -> Seq<Seq<char>> {
    seq![
        "Channel #"@ + channel.name@,
        "ID: #"@ + decimal(channel.id as nat),
        "Default mode for bots: "@ + perm_string(perms, channel.default_mode_bot),
        "Default mode for users: "@ + perm_string(perms, channel.default_mode_user),
    ]
}

/// What `/info` shows of the channels that it means, in the order given.
pub open spec fn channels_info(
    channels: Map<usize, Channel>,
    order: Seq<usize>,
    name: Seq<char>,
    id: Option<usize>,
    perms: Permissions,
) -> Seq<Seq<char>>
    decreases order.len(),
{
    if order.len() == 0 {
        seq![]
    } else {
        let channel = channels[order.last()];
        channels_info(channels, order.drop_last(), name, id, perms) + (if means_channel(
            channel,
            name,
            id,
        ) {
            channel_info(channel, perms)
        } else {
            seq![]
        })
    }
}

/// What `/info` shows of the permissions of a user: in every channel that is known, in the
/// order given.
pub open spec fn modes_info(
    modes: Map<usize, u8>,
    order: Seq<usize>,
    channels: Map<usize, Channel>,
    perms: Permissions,
) -> Seq<Seq<char>>
    decreases order.len(),
{
    if order.len() == 0 {
        seq![]
    } else {
        let k = order.last();
        modes_info(modes, order.drop_last(), channels, perms) + (if channels.contains_key(k) {
            seq![
                "Channel #"@ + channels[k].name@ + " mode: "@ + perm_string(perms, modes[k]),
            ]
        } else {
            seq![]
        })
    }
}

/// What `/info` shows of a user, their permissions in the order given.
pub open spec fn user_info(
    user: User,
    order: Seq<usize>,
    channels: Map<usize, Channel>,
    perms: Permissions,
) -> Seq<Seq<char>> {
    seq!["User "@ + user.name@] + (if user.ban {
        seq!["Banned."@]
    } else {
        seq![]
    }) + seq![
        "Bot: "@ + (if user.bot {
            "true"@
        } else {
            "false"@
        }),
        "ID: #"@ + decimal(user.id as nat),
    ] + modes_info(user.modes@, order, channels, perms)
}

/// What `/info` shows of the users that it means, in the order given; `mode_orders` has the
/// orders of their permissions.
pub open spec fn users_info(
    state: State,
    order: Seq<usize>,
    mode_orders: Map<usize, Seq<usize>>,
    name: Seq<char>,
    id: Option<usize>,
    perms: Permissions,
) -> Seq<Seq<char>>
    decreases order.len(),
{
    if order.len() == 0 {
        seq![]
    } else {
        let k = order.last();
        let user = state.users@[k];
        users_info(state, order.drop_last(), mode_orders, name, id, perms) + (if means_user(
            user,
            name,
            id,
        ) {
            user_info(user, mode_orders[k], state.channels@, perms)
        } else {
            seq![]
        })
    }
}

/// Whether some orders walk through the channels, the users and each user's permissions.
pub open spec fn walk_all(
    state: State,
    channel_order: Seq<usize>,
    user_order: Seq<usize>,
    mode_orders: Map<usize, Seq<usize>>,
) -> bool {
    &&& walks(state.channels@, channel_order)
    &&& walks(state.users@, user_order)
    &&& forall|k: usize|
        state.users@.contains_key(k) ==> walks(
            (#[trigger] state.users@[k]).modes@,
            mode_orders[k],
        )
}

/// What `/info` shows: an empty line, then the channels and the users that it means.
pub open spec fn info_lines(
    state: State,
    channel_order: Seq<usize>,
    user_order: Seq<usize>,
    mode_orders: Map<usize, Seq<usize>>,
    name: Seq<char>,
    id: Option<usize>,
    perms: Permissions,
) -> Seq<Seq<char>> {
    seq![Seq::<char>::empty()] + channels_info(state.channels@, channel_order, name, id, perms)
        + users_info(state, user_order, mode_orders, name, id, perms)
}

/// Adds a text made of two parts to a list.
fn add_text(list: &mut Vec<String>, head: &str, tail: &str)
    ensures
        texts(final(list)@) == texts(old(list)@).push(head@ + tail@),
{
    let mut text = head.to_owned();
    text.append(tail);
    list.push(text);
    assert(texts(list@) =~= texts(old(list)@).push(text@));
}

fn add_channel_info(list: &mut Vec<String>, channel: &Channel, perms: &Permissions)
    ensures
        texts(final(list)@) == texts(old(list)@) + channel_info(*channel, *perms),
{
    let id = decimal_text(channel.id as u64);
    let bots = to_perm_string(channel.default_mode_bot, perms);
    let users = to_perm_string(channel.default_mode_user, perms);
    add_text(list, "Channel #", channel.name.as_str());
    add_text(list, "ID: #", id.as_str());
    add_text(list, "Default mode for bots: ", bots.as_str());
    add_text(list, "Default mode for users: ", users.as_str());
    assert(texts(list@) =~= texts(old(list)@) + channel_info(*channel, *perms));
}

/// Whether `/info` means a channel.
fn is_meant(channel: &Channel, name: &str, id: Option<usize>) -> (res: bool)
    ensures
        res == means_channel(*channel, name@, id),
{
    if same_text(name, channel.name.as_str()) {
        return true;
    }
    let chars = chars_of(name);
    if chars.len() > 0 && chars[0] == '#' {
        let behind = vstd::slice::slice_subrange(chars.as_slice(), 1, chars.len());
        assert(behind@ =~= name@.skip(1));
        if same_text(text_of(behind).as_str(), channel.name.as_str()) {
            return true;
        }
    }
    match id {
        Some(id) => id == channel.id,
        None => false,
    }
}

fn add_user_info(
    list: &mut Vec<String>,
    user: &User,
    order: &Vec<usize>,
    channels: &HashMap<usize, Channel>,
    perms: &Permissions,
)
    requires
        walks(user.modes@, order@),
    ensures
        texts(final(list)@) == texts(old(list)@) + user_info(*user, order@, channels@, *perms),
{
    let ghost start = texts(list@);
    add_text(list, "User ", user.name.as_str());
    if user.ban {
        add_text(list, "Banned.", "");
        proof {
            reveal_strlit("");
            assert("Banned."@ + ""@ =~= "Banned."@);
        }
    }
    if user.bot {
        add_text(list, "Bot: ", "true");
    } else {
        add_text(list, "Bot: ", "false");
    }
    let id = decimal_text(user.id as u64);
    add_text(list, "ID: #", id.as_str());
    let ghost head = texts(list@);
    assert(head + modes_info(user.modes@, order@.take(0), channels@, *perms) =~= head);
    for i in 0..order.len()
        invariant
            walks(user.modes@, order@),
            texts(list@) == head + modes_info(
                user.modes@,
                order@.take(i as int),
                channels@,
                *perms,
            ),
    {
        let ghost before = texts(list@);
        assert(order@.contains(order@[i as int]));
        assert(order@.take(i + 1).drop_last() =~= order@.take(i as int));
        assert(order@.take(i + 1).last() == order@[i as int]);
        let key = order[i];
        let mode = *entry(&user.modes, key);
        if let Some(channel) = channels.get(&key) {
            let mut line = "Channel #".to_owned();
            line.append(channel.name.as_str());
            line.append(" mode: ");
            let mode_text = to_perm_string(mode, perms);
            add_text(list, line.as_str(), mode_text.as_str());
        }
        assert(texts(list@) =~= head + modes_info(
            user.modes@,
            order@.take(i + 1),
            channels@,
            *perms,
        ));
    }
    assert(order@.take(order@.len() as int) =~= order@);
    assert(texts(list@) =~= start + user_info(*user, order@, channels@, *perms));
}

/// Shows what `/info` shows for a name that may also be a number, everything in the order
/// in which the tables are walked.
pub fn info(state: &State, name: &str, id: Option<usize>, perms: &Permissions) -> (res: Vec<String>)
    ensures
        shows_info(*state, name@, id, *perms, texts(res@)),
{
    let mut list: Vec<String> = Vec::new();
    list.push(String::new());
    assert(texts(list@) =~= seq![Seq::<char>::empty()]);
    let ghost head = texts(list@);
    let channel_order = walk(&state.channels);
    assert(head + channels_info(state.channels@, channel_order@.take(0), name@, id, *perms)
        =~= head);
    for i in 0..channel_order.len()
        invariant
            walks(state.channels@, channel_order@),
            texts(list@) == head + channels_info(
                state.channels@,
                channel_order@.take(i as int),
                name@,
                id,
                *perms,
            ),
    {
        assert(channel_order@.contains(channel_order@[i as int]));
        assert(channel_order@.take(i + 1).drop_last() =~= channel_order@.take(i as int));
        let channel = entry(&state.channels, channel_order[i]);
        if is_meant(channel, name, id) {
            add_channel_info(&mut list, channel, perms);
        }
        assert(texts(list@) =~= head + channels_info(
            state.channels@,
            channel_order@.take(i + 1),
            name@,
            id,
            *perms,
        ));
    }
    assert(channel_order@.take(channel_order@.len() as int) =~= channel_order@);
    let ghost middle = texts(list@);
    let user_order = walk(&state.users);
    let ghost mut mode_orders = Map::<usize, Seq<usize>>::new(
        |k: usize| true,
        |k: usize| choose|order: Seq<usize>| walks(state.users@[k].modes@, order),
    );
    assert(middle + users_info(*state, user_order@.take(0), mode_orders, name@, id, *perms)
        =~= middle);
    for i in 0..user_order.len()
        invariant
            walks(state.users@, user_order@),
            texts(list@) == middle + users_info(
                *state,
                user_order@.take(i as int),
                mode_orders,
                name@,
                id,
                *perms,
            ),
            forall|j: int|
                0 <= j < i ==> walks(
                    (#[trigger] state.users@[user_order@[j]]).modes@,
                    mode_orders[user_order@[j]],
                ),
    {
        assert(user_order@.contains(user_order@[i as int]));
        assert(user_order@.take(i + 1).drop_last() =~= user_order@.take(i as int));
        let key = user_order[i];
        let user = entry(&state.users, key);
        let order = walk(&user.modes);
        let ghost before = mode_orders;
        proof {
            mode_orders = mode_orders.insert(key, order@);
            lemma_users_info_keeps(
                *state,
                user_order@.take(i as int),
                before,
                mode_orders,
                name@,
                id,
                *perms,
            );
        }
        let meant: bool = same_text(name, user.name.as_str()) || (match id {
            Some(id) => id == user.id,
            None => false,
        });
        if meant {
            add_user_info(&mut list, user, &order, &state.channels, perms);
        }
        assert(texts(list@) =~= middle + users_info(
            *state,
            user_order@.take(i + 1),
            mode_orders,
            name@,
            id,
            *perms,
        ));
    }
    proof {
        assert(user_order@.take(user_order@.len() as int) =~= user_order@);
        assert forall|k: usize| state.users@.contains_key(k) implies walks(
            (#[trigger] state.users@[k]).modes@,
            mode_orders[k],
        ) by {
            assert(user_order@.contains(k));
            let j = choose|j: int| 0 <= j < user_order@.len() && user_order@[j] == k;
            assert(walks(state.users@[user_order@[j]].modes@, mode_orders[user_order@[j]]));
        }
        assert(walk_all(*state, channel_order@, user_order@, mode_orders));
        assert(texts(list@) == info_lines(
            *state,
            channel_order@,
            user_order@,
            mode_orders,
            name@,
            id,
            *perms,
        ));
    }
    list
}

/// Whether `/info` may show some lines: in the order of some walk through the tables.
pub open spec fn shows_info(
    state: State,
    name: Seq<char>,
    id: Option<usize>,
    perms: Permissions,
    lines: Seq<Seq<char>>,
) -> bool {
    exists|
        channel_order: Seq<usize>,
        user_order: Seq<usize>,
        mode_orders: Map<usize, Seq<usize>>,
    |
        walk_all(state, channel_order, user_order, mode_orders) && lines == #[trigger] info_lines(
            state,
            channel_order,
            user_order,
            mode_orders,
            name,
            id,
            perms,
        )
}

/// Other orders for users that are not listed change nothing.
proof fn lemma_users_info_keeps(
    state: State,
    order: Seq<usize>,
    a: Map<usize, Seq<usize>>,
    b: Map<usize, Seq<usize>>,
    name: Seq<char>,
    id: Option<usize>,
    perms: Permissions,
)
    requires
        forall|i: int| 0 <= i < order.len() ==> a[#[trigger] order[i]] == b[order[i]],
    ensures
        users_info(state, order, a, name, id, perms) == users_info(
            state,
            order,
            b,
            name,
            id,
            perms,
        ),
    decreases order.len(),
{
    if order.len() > 0 {
        lemma_users_info_keeps(state, order.drop_last(), a, b, name, id, perms);
        assert(a[order[order.len() - 1]] == b[order[order.len() - 1]]);
    }
}

} // verus!
