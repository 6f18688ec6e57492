//! What `/list` and `/info` show, said outright.

use vstd::prelude::*;

use crate::commands::runs;
use crate::deeds::{does, logs};
use crate::listing::{
    channels_info, info_lines, listed, modes_info, names_of_channels, names_of_users, users_info,
    walk_all,
};
use crate::model::{walks, Channel, Client, State, User};
use crate::order::{in_order, law_order_sorts, text_le};
use crate::packets::Protocol;
use crate::permissions::{perm_string, Permissions};
use crate::steps::{EffectView, StepView};
use crate::text::{decimal, number_of};

verus! {

broadcast use vstd::std_specs::hash::group_hash_axioms;

/// Texts with a comma and a space between each and the next.
pub open spec fn strung(names: Seq<Seq<char>>) -> Seq<char>
    decreases names.len(),
{
    if names.len() == 0 {
        seq![]
    } else if names.len() == 1 {
        names[0]
    } else {
        names[0] + seq![',', ' '] + strung(names.drop_first())
    }
}

proof fn lemma_strung_push(names: Seq<Seq<char>>, name: Seq<char>)
    requires
        names.len() > 0,
    ensures
        strung(names.push(name)) == strung(names) + seq![',', ' '] + name,
    decreases names.len(),
{
    if names.len() == 1 {
        assert(names.push(name).drop_first() =~= seq![name]);
        reveal_with_fuel(strung, 2);
    } else {
        lemma_strung_push(names.drop_first(), name);
        assert(names.push(name).drop_first() =~= names.drop_first().push(name));
        assert(strung(names.push(name)) =~= strung(names) + seq![',', ' '] + name);
    }
}

proof fn lemma_listed_is_strung(names: Seq<Seq<char>>)
    requires
        forall|i: int| 0 <= i < names.len() ==> (#[trigger] names[i]).len() > 0,
    ensures
        listed(names) == strung(names),
        names.len() > 0 ==> listed(names).len() > 0,
    decreases names.len(),
{
    reveal_strlit(", ");
    if names.len() > 0 {
        let rest = names.drop_last();
        assert forall|i: int| 0 <= i < rest.len() implies (#[trigger] rest[i]).len() > 0 by {
            assert(rest[i] == names[i]);
        }
        lemma_listed_is_strung(rest);
        assert(names[names.len() - 1].len() > 0);
        if rest.len() > 0 {
            lemma_strung_push(rest, names.last());
            assert(names =~= rest.push(names.last()));
            assert(", "@ =~= seq![',', ' ']);
        } else {
            assert(listed(rest) =~= seq![]);
            assert(listed(names) =~= names[0]);
        }
    }
}

/// Whether texts stand in the order of their bytes.
pub open spec fn are_sorted(names: Seq<Seq<char>>) -> bool {
    forall|i: int, j: int|
        0 <= i < j < names.len() ==> text_le(#[trigger] names[i], #[trigger] names[j])
}

/// With a session, `/list channels` shows the name of every channel behind its mark, sorted
/// by name and with commas between them.
pub proof fn law_list_shows_channels(
    protocol: Protocol,
    before: Client,
    words: Seq<Seq<char>>,
    after: Client,
    step: StepView,
    order: Seq<usize>,
)
    requires
        runs(protocol, before, words, after, step),
        words.len() == 2,
        words[0] == "list"@,
        words[1] == "channels"@,
        before.session is Some,
        walks(before.session.unwrap().state.channels@, order),
    ensures
        after == before,
        ({
            let channels = before.session.unwrap().state.channels@;
            exists|names: Seq<Seq<char>>|
                {
                    &&& #[trigger] names.to_multiset() == order.map_values(
                        |k: usize| channels[k].name@,
                    ).to_multiset()
                    &&& are_sorted(names)
                    &&& logs(step, strung(names.map_values(|name: Seq<char>| seq!['#'] + name)))
                }
        }),
{
    crate::deeds::lemma_commands_differ();
    reveal_strlit("#");
    let channels = before.session.unwrap().state.channels@;
    let all = names_of_channels(channels, order);
    let names = in_order(all);
    law_order_sorts(all);
    assert(all =~= order.map_values(|k: usize| channels[k].name@));
    let marked = names.map_values(|name: Seq<char>| seq!['#'] + name);
    assert(names.map_values(|name: Seq<char>| "#"@ + name) =~= marked) by {
        assert("#"@ =~= seq!['#']);
    }
    lemma_listed_is_strung(marked);
    assert(step.effects == seq![EffectView::Log(
        crate::listing::channel_list(channels, order),
    )]);
}

/// The names among some texts: those that are not empty.
pub open spec fn without_empty(names: Seq<Seq<char>>) -> Seq<Seq<char>> {
    names.filter(|name: Seq<char>| name.len() > 0)
}

proof fn lemma_empty_comes_first(names: Seq<Seq<char>>)
    requires
        are_sorted(names),
    ensures
        listed(names) == strung(without_empty(names)),
        are_sorted(without_empty(names)),
    decreases names.len(),
{
    let keep = |name: Seq<char>| name.len() > 0;
    if names.len() == 0 {
        assert(without_empty(names) =~= seq![]) by {
            reveal(Seq::filter);
        }
    } else if names[0].len() == 0 {
        let rest = names.drop_first();
        assert forall|i: int, j: int| 0 <= i < j < rest.len() implies text_le(
            #[trigger] rest[i],
            #[trigger] rest[j],
        ) by {
            assert(rest[i] == names[i + 1] && rest[j] == names[j + 1]);
        }
        lemma_empty_comes_first(rest);
        let one = seq![names[0]];
        assert(names[0] =~= Seq::<char>::empty());
        assert(one =~= seq![Seq::<char>::empty()]);
        assert(names =~= seq![Seq::<char>::empty()] + rest);
        law_nameless_take_no_comma(rest);
        Seq::filter_distributes_over_add(one, rest, keep);
        assert(one.filter(keep) =~= seq![]) by {
            reveal(Seq::filter);
            assert(one.drop_last() =~= seq![]);
            assert(one.drop_last().filter(keep) =~= seq![]);
        }
        assert(names.filter(keep) =~= rest.filter(keep));
    } else {
        assert forall|i: int| 0 <= i < names.len() implies (#[trigger] names[i]).len() > 0 by {
            if i > 0 && names[i].len() == 0 {
                assert(text_le(names[0], names[i]));
                crate::order::law_bytes_decide(names[0], names[i]);
                let x = vstd::utf8::encode_utf8(names[0]);
                let y = vstd::utf8::encode_utf8(names[i]);
                assert(names[i] =~= seq![]);
                assert(y.len() == 0);
                assert(x.len() == 0);
                assert(x =~= y);
                crate::text::lemma_same_bytes_same_text(names[0], names[i]);
            }
        }
        lemma_listed_is_strung(names);
        lemma_all_kept(names);
    }
}

proof fn lemma_all_kept(names: Seq<Seq<char>>)
    requires
        forall|i: int| 0 <= i < names.len() ==> (#[trigger] names[i]).len() > 0,
    ensures
        without_empty(names) == names,
    decreases names.len(),
{
    reveal(Seq::filter);
    if names.len() > 0 {
        let rest = names.drop_last();
        assert forall|i: int| 0 <= i < rest.len() implies (#[trigger] rest[i]).len() > 0 by {
            assert(rest[i] == names[i]);
        }
        lemma_all_kept(rest);
        assert(names[names.len() - 1].len() > 0);
        assert(names =~= rest.push(names.last()));
    }
}

proof fn lemma_sorted_names(users: Map<usize, User>, order: Seq<usize>, ban: bool)
    ensures
        ({
            let all = names_of_users(users, order, ban);
            &&& listed(in_order(all)) == strung(without_empty(in_order(all)))
            &&& are_sorted(without_empty(in_order(all)))
            &&& without_empty(in_order(all)).to_multiset() == without_empty(all).to_multiset()
        }),
{
    let all = names_of_users(users, order, ban);
    law_order_sorts(all);
    lemma_empty_comes_first(in_order(all));
    crate::listing::lemma_filter_multiset(
        in_order(all),
        all,
        |name: Seq<char>| name.len() > 0,
    );
}

/// With a session, `/list users` shows the names of those who are not banned, then a heading,
/// then the names of those who are, each sorted and with commas between them. Users without a
/// name do not show.
pub proof fn law_list_shows_users(
    protocol: Protocol,
    before: Client,
    words: Seq<Seq<char>>,
    after: Client,
    step: StepView,
    order: Seq<usize>,
)
    requires
        runs(protocol, before, words, after, step),
        words.len() == 2,
        words[0] == "list"@,
        words[1] == "users"@,
        before.session is Some,
        walks(before.session.unwrap().state.users@, order),
    ensures
        after == before,
        ({
            let users = before.session.unwrap().state.users@;
            exists|free: Seq<Seq<char>>, banned: Seq<Seq<char>>|
                {
                    &&& #[trigger] free.to_multiset() == without_empty(
                        order.filter(|k: usize| !users[k].ban).map_values(
                            |k: usize| users[k].name@,
                        ),
                    ).to_multiset()
                    &&& #[trigger] banned.to_multiset() == without_empty(
                        order.filter(|k: usize| users[k].ban).map_values(
                            |k: usize| users[k].name@,
                        ),
                    ).to_multiset()
                    &&& are_sorted(free)
                    &&& are_sorted(banned)
                    &&& does(
                        step,
                        seq![
                            EffectView::Log(strung(free)),
                            EffectView::Log("Banned:"@),
                            EffectView::Log(strung(banned)),
                        ],
                    )
                }
        }),
{
    crate::deeds::lemma_commands_differ();
    let users = before.session.unwrap().state.users@;
    let is_free = |k: usize| !users[k].ban;
    let is_banned = |k: usize| users[k].ban;
    assert(is_free =~= |k: usize| users[k].ban == false);
    assert(is_banned =~= |k: usize| users[k].ban == true);
    lemma_sorted_names(users, order, false);
    lemma_sorted_names(users, order, true);
    let free = without_empty(in_order(names_of_users(users, order, false)));
    let banned = without_empty(in_order(names_of_users(users, order, true)));
    assert(free.to_multiset() == without_empty(
        order.filter(is_free).map_values(|k: usize| users[k].name@),
    ).to_multiset());
    assert(banned.to_multiset() == without_empty(
        order.filter(is_banned).map_values(|k: usize| users[k].name@),
    ).to_multiset());
    assert(step.effects =~= seq![
        EffectView::Log(strung(free)),
        EffectView::Log("Banned:"@),
        EffectView::Log(strung(banned)),
    ]);
}

/// With a session, anything else is not listed.
pub proof fn law_list_shows_nothing_else(
    protocol: Protocol,
    before: Client,
    words: Seq<Seq<char>>,
    after: Client,
    step: StepView,
)
    requires
        runs(protocol, before, words, after, step),
        words.len() == 2,
        words[0] == "list"@,
        words[1] != "channels"@,
        words[1] != "users"@,
        before.session is Some,
    ensures
        after == before,
        logs(step, "Unable to list that"@),
{
    crate::deeds::lemma_commands_differ();
}

/// A user without a name takes no comma at the start of a list.
pub proof fn law_nameless_take_no_comma(names: Seq<Seq<char>>)
    ensures
        listed(seq![Seq::<char>::empty()] + names) == listed(names),
    decreases names.len(),
{
    let whole = seq![Seq::<char>::empty()] + names;
    if names.len() == 0 {
        assert(whole.drop_last() =~= seq![]);
        reveal_with_fuel(listed, 2);
        assert(listed(whole) =~= listed(names));
    } else {
        law_nameless_take_no_comma(names.drop_last());
        assert(whole.drop_last() =~= seq![Seq::<char>::empty()] + names.drop_last());
        assert(whole.last() == names.last());
    }
}

/// Whether `name`, which may be a number, means a channel.
pub open spec fn is_channel_called(channel: Channel, name: Seq<char>) -> bool {
    ||| channel.name@ == name
    ||| seq!['#'] + channel.name@ == name
    ||| number_of(name) == Some(channel.id as nat)
}

/// Whether `name`, which may be a number, means a user.
pub open spec fn is_user_called(user: User, name: Seq<char>) -> bool {
    user.name@ == name || number_of(name) == Some(user.id as nat)
}

/// What is told of a channel.
pub open spec fn about_channel(channel: Channel, perms: Permissions) -> Seq<EffectView> {
    seq![
        EffectView::Log("Channel #"@ + channel.name@),
        EffectView::Log("ID: #"@ + decimal(channel.id as nat)),
        EffectView::Log("Default mode for bots: "@ + perm_string(perms, channel.default_mode_bot)),
        EffectView::Log(
            "Default mode for users: "@ + perm_string(perms, channel.default_mode_user),
        ),
    ]
}

/// What is told of a user before their permissions.
pub open spec fn about_user(user: User) -> Seq<EffectView> {
    let bot = EffectView::Log(
        "Bot: "@ + (if user.bot {
            "true"@
        } else {
            "false"@
        }),
    );
    let id = EffectView::Log("ID: #"@ + decimal(user.id as nat));
    if user.ban {
        seq![EffectView::Log("User "@ + user.name@), EffectView::Log("Banned."@), bot, id]
    } else {
        seq![EffectView::Log("User "@ + user.name@), bot, id]
    }
}

proof fn lemma_means(state: State, word: Seq<char>, name: Seq<char>)
    requires
        word == seq!['#'] + name || (word == name && (name.len() == 0 || name[0] != '#')),
    ensures
        crate::commands::unmarked(word) == name,
        forall|channel: Channel| #[trigger]
            crate::listing::means_channel(channel, name, crate::commands::id_of(name))
                == is_channel_called(channel, name),
        forall|user: User| #[trigger]
            crate::listing::means_user(user, name, crate::commands::id_of(name))
                == is_user_called(user, name),
{
    assert((seq!['#'] + name).skip(1) =~= name);
    assert forall|channel: Channel| #[trigger]
        crate::listing::means_channel(channel, name, crate::commands::id_of(name))
            == is_channel_called(channel, name) by {
        if name.len() > 0 && name[0] == '#' && name.skip(1) == channel.name@ {
            assert(seq!['#'] + channel.name@ =~= name);
        }
        if seq!['#'] + channel.name@ == name {
            assert(name.skip(1) =~= channel.name@);
            assert(name[0] == '#');
        }
    }
}

proof fn lemma_no_channels(
    channels: Map<usize, Channel>,
    order: Seq<usize>,
    name: Seq<char>,
    id: Option<usize>,
    perms: Permissions,
)
    requires
        forall|i: int|
            0 <= i < order.len() ==> !crate::listing::means_channel(
                channels[#[trigger] order[i]],
                name,
                id,
            ),
    ensures
        channels_info(channels, order, name, id, perms) == Seq::<Seq<char>>::empty(),
    decreases order.len(),
{
    if order.len() > 0 {
        assert(!crate::listing::means_channel(channels[order[order.len() - 1]], name, id));
        lemma_no_channels(channels, order.drop_last(), name, id, perms);
    }
}

proof fn lemma_one_channel(
    channels: Map<usize, Channel>,
    order: Seq<usize>,
    name: Seq<char>,
    id: Option<usize>,
    perms: Permissions,
    k: usize,
)
    requires
        order.no_duplicates(),
        order.contains(k),
        crate::listing::means_channel(channels[k], name, id),
        forall|i: int|
            0 <= i < order.len() && #[trigger] order[i] != k ==> !crate::listing::means_channel(
                channels[order[i]],
                name,
                id,
            ),
    ensures
        channels_info(channels, order, name, id, perms) == crate::listing::channel_info(
            channels[k],
            perms,
        ),
    decreases order.len(),
{
    let rest = order.drop_last();
    let last = order[order.len() - 1];
    if last == k {
        lemma_no_channels(channels, rest, name, id, perms);
    } else {
        let i = choose|i: int| 0 <= i < order.len() && order[i] == k;
        assert(rest[i] == k);
        lemma_one_channel(channels, rest, name, id, perms, k);
    }
    assert(channels_info(channels, order, name, id, perms) =~= crate::listing::channel_info(
        channels[k],
        perms,
    ));
}

proof fn lemma_no_users(
    state: State,
    order: Seq<usize>,
    mode_orders: Map<usize, Seq<usize>>,
    name: Seq<char>,
    id: Option<usize>,
    perms: Permissions,
)
    requires
        forall|i: int|
            0 <= i < order.len() ==> !crate::listing::means_user(
                state.users@[#[trigger] order[i]],
                name,
                id,
            ),
    ensures
        users_info(state, order, mode_orders, name, id, perms) == Seq::<Seq<char>>::empty(),
    decreases order.len(),
{
    if order.len() > 0 {
        assert(!crate::listing::means_user(state.users@[order[order.len() - 1]], name, id));
        lemma_no_users(state, order.drop_last(), mode_orders, name, id, perms);
    }
}

proof fn lemma_one_user(
    state: State,
    order: Seq<usize>,
    mode_orders: Map<usize, Seq<usize>>,
    name: Seq<char>,
    id: Option<usize>,
    perms: Permissions,
    k: usize,
)
    requires
        order.no_duplicates(),
        order.contains(k),
        crate::listing::means_user(state.users@[k], name, id),
        forall|i: int|
            0 <= i < order.len() && #[trigger] order[i] != k ==> !crate::listing::means_user(
                state.users@[order[i]],
                name,
                id,
            ),
    ensures
        users_info(state, order, mode_orders, name, id, perms) == crate::listing::user_info(
            state.users@[k],
            mode_orders[k],
            state.channels@,
            perms,
        ),
    decreases order.len(),
{
    let rest = order.drop_last();
    let last = order[order.len() - 1];
    if last == k {
        lemma_no_users(state, rest, mode_orders, name, id, perms);
    } else {
        let i = choose|i: int| 0 <= i < order.len() && order[i] == k;
        assert(rest[i] == k);
        lemma_one_user(state, rest, mode_orders, name, id, perms, k);
    }
    assert(users_info(state, order, mode_orders, name, id, perms) =~= crate::listing::user_info(
        state.users@[k],
        mode_orders[k],
        state.channels@,
        perms,
    ));
}

/// The line that tells the permissions of a user in a channel.
pub open spec fn about_mode(channel: Channel, mode: u8, perms: Permissions) -> Seq<char> {
    "Channel #"@ + channel.name@ + " mode: "@ + perm_string(perms, mode)
}

proof fn lemma_modes(
    modes: Map<usize, u8>,
    order: Seq<usize>,
    channels: Map<usize, Channel>,
    perms: Permissions,
)
    ensures
        ({
            let lines = modes_info(modes, order, channels, perms);
            &&& lines.len() == order.filter(|k: usize| channels.contains_key(k)).len()
            &&& forall|i: int|
                0 <= i < lines.len() ==> #[trigger] lines[i] == ({
                    let k = order.filter(|k: usize| channels.contains_key(k))[i];
                    about_mode(channels[k], modes[k], perms)
                })
        }),
    decreases order.len(),
{
    reveal(Seq::filter);
    if order.len() > 0 {
        lemma_modes(modes, order.drop_last(), channels, perms);
    }
}

/// Where a name means no channel and no user, `/info` shows an empty line. Where it means one
/// channel and no user, it shows that channel, and where it means one user and no channel,
/// that user: first who they are, then their permissions in each channel that is known, once
/// each.
pub proof fn law_info_shows_what_is_meant(
    protocol: Protocol,
    before: Client,
    words: Seq<Seq<char>>,
    name: Seq<char>,
    after: Client,
    step: StepView,
    k: usize,
)
    requires
        runs(protocol, before, words, after, step),
        words.len() == 2,
        words[0] == "info"@,
        words[1] == seq!['#'] + name || (words[1] == name && (name.len() == 0 || name[0] != '#')),
        before.session is Some,
    ensures
        after == before,
        ({
            let state = before.session.unwrap().state;
            let channels = state.channels@;
            let users = state.users@;
            let perms = protocol.permissions;
            let no_channel = forall|j: usize| #[trigger]
                channels.contains_key(j) ==> !is_channel_called(channels[j], name);
            let no_user = forall|j: usize| #[trigger]
                users.contains_key(j) ==> !is_user_called(users[j], name);
            &&& no_channel && no_user ==> does(step, seq![EffectView::Log(seq![])])
            &&& no_user && channels.contains_key(k) && is_channel_called(channels[k], name) && (
            forall|j: usize| #[trigger]
                channels.contains_key(j) && j != k ==> !is_channel_called(channels[j], name))
                ==> does(
                step,
                seq![EffectView::Log(seq![])] + about_channel(channels[k], perms),
            )
            &&& no_channel && users.contains_key(k) && is_user_called(users[k], name) && (
            forall|j: usize| #[trigger]
                users.contains_key(j) && j != k ==> !is_user_called(users[j], name)) ==> exists|
                order: Seq<usize>,
            |
                {
                    &&& #[trigger] walks(users[k].modes@, order)
                    &&& does(
                        step,
                        seq![EffectView::Log(seq![])] + about_user(users[k]) + order.filter(
                            |j: usize| channels.contains_key(j),
                        ).map_values(
                            |j: usize|
                                EffectView::Log(
                                    about_mode(channels[j], users[k].modes@[j], perms),
                                ),
                        ),
                    )
                }
        }),
{
    crate::deeds::lemma_commands_differ();
    let state = before.session.unwrap().state;
    let channels = state.channels@;
    let users = state.users@;
    let perms = protocol.permissions;
    let id = crate::commands::id_of(name);
    lemma_means(state, words[1], name);
    let lines = choose|lines: Seq<Seq<char>>|
        {
            &&& crate::listing::shows_info(state, name, id, perms, lines)
            &&& step == #[trigger] crate::commands::shows(lines)
        };
    let (channel_order, user_order, mode_orders) = choose|
        channel_order: Seq<usize>,
        user_order: Seq<usize>,
        mode_orders: Map<usize, Seq<usize>>,
    |
        walk_all(state, channel_order, user_order, mode_orders) && lines == #[trigger] info_lines(
            state,
            channel_order,
            user_order,
            mode_orders,
            name,
            id,
            perms,
        );
    let no_channel = forall|j: usize| #[trigger]
        channels.contains_key(j) ==> !is_channel_called(channels[j], name);
    let no_user = forall|j: usize| #[trigger]
        users.contains_key(j) ==> !is_user_called(users[j], name);
    if no_channel {
        assert forall|i: int| 0 <= i < channel_order.len() implies !crate::listing::means_channel(
            channels[#[trigger] channel_order[i]],
            name,
            id,
        ) by {
            assert(channel_order.contains(channel_order[i]));
            assert(channels.contains_key(channel_order[i]));
        }
        lemma_no_channels(channels, channel_order, name, id, perms);
    }
    if no_user {
        assert forall|i: int| 0 <= i < user_order.len() implies !crate::listing::means_user(
            users[#[trigger] user_order[i]],
            name,
            id,
        ) by {
            assert(user_order.contains(user_order[i]));
            assert(users.contains_key(user_order[i]));
        }
        lemma_no_users(state, user_order, mode_orders, name, id, perms);
    }
    if no_channel && no_user {
        assert(lines =~= seq![Seq::<char>::empty()]);
        assert(step.effects =~= seq![EffectView::Log(seq![])]);
    }
    if no_user && channels.contains_key(k) && is_channel_called(channels[k], name) && (forall|
        j: usize,
    | #[trigger]
        channels.contains_key(j) && j != k ==> !is_channel_called(channels[j], name)) {
        assert(channel_order.contains(k));
        assert forall|i: int|
            0 <= i < channel_order.len() && #[trigger] channel_order[i]
                != k implies !crate::listing::means_channel(channels[channel_order[i]], name, id) by {
            assert(channel_order.contains(channel_order[i]));
            assert(channels.contains_key(channel_order[i]));
        }
        lemma_one_channel(channels, channel_order, name, id, perms, k);
        assert(step.effects =~= seq![EffectView::Log(seq![])] + about_channel(
            channels[k],
            perms,
        ));
    }
    if no_channel && users.contains_key(k) && is_user_called(users[k], name) && (forall|j: usize|
     #[trigger]
        users.contains_key(j) && j != k ==> !is_user_called(users[j], name)) {
        assert(user_order.contains(k));
        assert forall|i: int|
            0 <= i < user_order.len() && #[trigger] user_order[i]
                != k implies !crate::listing::means_user(users[user_order[i]], name, id) by {
            assert(user_order.contains(user_order[i]));
            assert(users.contains_key(user_order[i]));
        }
        lemma_one_user(state, user_order, mode_orders, name, id, perms, k);
        let order = mode_orders[k];
        assert(walks(users[k].modes@, order));
        lemma_modes(users[k].modes@, order, channels, perms);
        let known = |j: usize| channels.contains_key(j);
        assert(step.effects =~= seq![EffectView::Log(seq![])] + about_user(users[k])
            + order.filter(known).map_values(
            |j: usize| EffectView::Log(about_mode(channels[j], users[k].modes@[j], perms)),
        ));
    }
}

/// Lines, as they are logged.
pub open spec fn as_logs(lines: Seq<Seq<char>>) -> Seq<EffectView> {
    lines.map_values(|line: Seq<char>| EffectView::Log(line))
}

/// What is told of a user, their permissions in the order given.
pub open spec fn all_about_user(
    user: User,
    order: Seq<usize>,
    channels: Map<usize, Channel>,
    perms: Permissions,
) -> Seq<EffectView> {
    about_user(user) + order.filter(|j: usize| channels.contains_key(j)).map_values(
        |j: usize| EffectView::Log(about_mode(channels[j], user.modes@[j], perms)),
    )
}

proof fn lemma_flat_step<A, B>(
    order: Seq<A>,
    keep: spec_fn(A) -> bool,
    told: spec_fn(A) -> Seq<B>,
)
    requires
        order.len() > 0,
    ensures
        order.filter(keep).map_values(told).flatten() == order.drop_last().filter(keep).map_values(
            told,
        ).flatten() + (if keep(order.last()) {
            told(order.last())
        } else {
            seq![]
        }),
{
    reveal(Seq::filter);
    let before = order.drop_last().filter(keep);
    if keep(order.last()) {
        assert(order.filter(keep) == before.push(order.last()));
        assert(order.filter(keep).map_values(told) =~= before.map_values(told).push(
            told(order.last()),
        ));
        before.map_values(told).lemma_flatten_push(told(order.last()));
    } else {
        assert(order.filter(keep) == before);
        assert(before.map_values(told).flatten() + seq![] =~= before.map_values(told).flatten());
    }
}

proof fn lemma_channels_flat(
    channels: Map<usize, Channel>,
    order: Seq<usize>,
    name: Seq<char>,
    perms: Permissions,
)
    requires
        forall|channel: Channel| #[trigger]
            crate::listing::means_channel(channel, name, crate::commands::id_of(name))
                == is_channel_called(channel, name),
    ensures
        as_logs(channels_info(channels, order, name, crate::commands::id_of(name), perms))
            == order.filter(|k: usize| is_channel_called(channels[k], name)).map_values(
            |k: usize| about_channel(channels[k], perms),
        ).flatten(),
    decreases order.len(),
{
    let id = crate::commands::id_of(name);
    let keep = |k: usize| is_channel_called(channels[k], name);
    let told = |k: usize| about_channel(channels[k], perms);
    let lines = channels_info(channels, order, name, id, perms);
    if order.len() == 0 {
        assert(order.filter(keep) =~= seq![]) by {
            reveal(Seq::filter);
        }
        assert(order.filter(keep).map_values(told) =~= seq![]);
        assert(as_logs(lines) =~= seq![]);
    } else {
        lemma_channels_flat(channels, order.drop_last(), name, perms);
        lemma_flat_step(order, keep, told);
        let channel = channels[order.last()];
        assert(crate::listing::means_channel(channel, name, id) == keep(order.last()));
        let before = channels_info(channels, order.drop_last(), name, id, perms);
        if keep(order.last()) {
            assert(as_logs(lines) =~= as_logs(before) + about_channel(channel, perms));
        } else {
            assert(as_logs(lines) =~= as_logs(before) + seq![]);
        }
    }
}

proof fn lemma_users_flat(
    state: State,
    order: Seq<usize>,
    mode_orders: Map<usize, Seq<usize>>,
    name: Seq<char>,
    perms: Permissions,
)
    requires
        forall|user: User| #[trigger]
            crate::listing::means_user(user, name, crate::commands::id_of(name))
                == is_user_called(user, name),
    ensures
        as_logs(users_info(state, order, mode_orders, name, crate::commands::id_of(name), perms))
            == order.filter(|k: usize| is_user_called(state.users@[k], name)).map_values(
            |k: usize| all_about_user(state.users@[k], mode_orders[k], state.channels@, perms),
        ).flatten(),
    decreases order.len(),
{
    let id = crate::commands::id_of(name);
    let keep = |k: usize| is_user_called(state.users@[k], name);
    let told = |k: usize|
        all_about_user(state.users@[k], mode_orders[k], state.channels@, perms);
    let lines = users_info(state, order, mode_orders, name, id, perms);
    if order.len() == 0 {
        assert(order.filter(keep) =~= seq![]) by {
            reveal(Seq::filter);
        }
        assert(order.filter(keep).map_values(told) =~= seq![]);
        assert(as_logs(lines) =~= seq![]);
    } else {
        lemma_users_flat(state, order.drop_last(), mode_orders, name, perms);
        lemma_flat_step(order, keep, told);
        let k = order.last();
        let user = state.users@[k];
        assert(crate::listing::means_user(user, name, id) == keep(k));
        let before = users_info(state, order.drop_last(), mode_orders, name, id, perms);
        if keep(k) {
            lemma_modes(user.modes@, mode_orders[k], state.channels@, perms);
            assert(as_logs(
                crate::listing::user_info(user, mode_orders[k], state.channels@, perms),
            ) =~= told(k));
            assert(as_logs(lines) =~= as_logs(before) + told(k));
        } else {
            assert(as_logs(lines) =~= as_logs(before) + seq![]);
        }
    }
}

/// Whether some effects tell of all channels and users that a name means, in the order of
/// some walk through the tables.
pub open spec fn tells_all(
    state: State,
    name: Seq<char>,
    perms: Permissions,
    channel_order: Seq<usize>,
    user_order: Seq<usize>,
    mode_orders: Map<usize, Seq<usize>>,
    effects: Seq<EffectView>,
) -> bool {
    &&& walks(state.channels@, channel_order)
    &&& walks(state.users@, user_order)
    &&& forall|k: usize|
        state.users@.contains_key(k) ==> walks((#[trigger] state.users@[k]).modes@, mode_orders[k])
    &&& effects == seq![EffectView::Log(seq![])] + channel_order.filter(
        |k: usize| is_channel_called(state.channels@[k], name),
    ).map_values(|k: usize| about_channel(state.channels@[k], perms)).flatten()
        + user_order.filter(|k: usize| is_user_called(state.users@[k], name)).map_values(
        |k: usize| all_about_user(state.users@[k], mode_orders[k], state.channels@, perms),
    ).flatten()
}

/// `/info` shows an empty line, then every channel that the name means, then every user that
/// it means, each once and nothing else.
pub proof fn law_info_shows_all_that_is_meant(
    protocol: Protocol,
    before: Client,
    words: Seq<Seq<char>>,
    name: Seq<char>,
    after: Client,
    step: StepView,
)
    requires
        runs(protocol, before, words, after, step),
        words.len() == 2,
        words[0] == "info"@,
        words[1] == seq!['#'] + name || (words[1] == name && (name.len() == 0 || name[0] != '#')),
        before.session is Some,
    ensures
        step.next is Ready,
        exists|
            channel_order: Seq<usize>,
            user_order: Seq<usize>,
            mode_orders: Map<usize, Seq<usize>>,
        |
            tells_all(
                before.session.unwrap().state,
                name,
                protocol.permissions,
                channel_order,
                user_order,
                mode_orders,
                step.effects,
            ),
{
    crate::deeds::lemma_commands_differ();
    let state = before.session.unwrap().state;
    let perms = protocol.permissions;
    let id = crate::commands::id_of(name);
    lemma_means(state, words[1], name);
    let lines = choose|lines: Seq<Seq<char>>|
        {
            &&& crate::listing::shows_info(state, name, id, perms, lines)
            &&& step == #[trigger] crate::commands::shows(lines)
        };
    let (channel_order, user_order, mode_orders) = choose|
        channel_order: Seq<usize>,
        user_order: Seq<usize>,
        mode_orders: Map<usize, Seq<usize>>,
    |
        walk_all(state, channel_order, user_order, mode_orders) && lines == #[trigger] info_lines(
            state,
            channel_order,
            user_order,
            mode_orders,
            name,
            id,
            perms,
        );
    lemma_channels_flat(state.channels@, channel_order, name, perms);
    lemma_users_flat(state, user_order, mode_orders, name, perms);
    let channel_lines = channels_info(state.channels@, channel_order, name, id, perms);
    let user_lines = users_info(state, user_order, mode_orders, name, id, perms);
    assert(step.effects =~= seq![EffectView::Log(seq![])] + as_logs(channel_lines) + as_logs(
        user_lines,
    ));
    assert(tells_all(
        state,
        name,
        perms,
        channel_order,
        user_order,
        mode_orders,
        step.effects,
    ));
}

} // verus!
