//! Events between plugins: the channel each plugin emits its events on,
//! the subscriptions that turn an event into a command of another plugin,
//! and the events queued until they are published.
use vstd::prelude::*;
use crate::runtime::mapper::{Mapper, without_output};

verus! {

/// A subscription: the command of a plugin an event invokes, and how the
/// event's fields map into the command's payload.
pub struct Subscription {
    pub mapper: Mapper,
    pub command: usize,
    /// The subscribing plugin instance, by its handle.
    pub plugin: usize,
}

impl Subscription {
    /// Whether an invocation is skipped as unmapped: nothing is mapped, so
    /// every field of a payload of `payload_fields` fields would arrive as
    /// none, and a command that reads its payload cannot survive that.
    pub fn unmapped(&self, payload_fields: usize) -> (r: bool)
        ensures
            r == (self.mapper@.len() == 0 && payload_fields > 0),
    {
        self.mapper.is_empty() && payload_fields > 0
    }
}

/// A subscription as it stands.
pub struct SubscriptionView {
    pub plugin: usize,
    pub command: usize,
    pub mappings: Seq<(Seq<usize>, Seq<usize>)>,
}

impl View for Subscription {
    type V = SubscriptionView;

    open spec fn view(&self) -> SubscriptionView {
        SubscriptionView { plugin: self.plugin, command: self.command, mappings: self.mapper@ }
    }
}

/// A queued event: which of the channel's events it is, and the token its
/// payload is kept under until it is published.
#[derive(Debug, Clone, Copy, PartialEq, Eq, Structural)]
pub struct Pending {
    pub event: usize,
    pub token: u64,
}

/// The channel a plugin emits its events on.
pub struct Channel {
    queue: Vec<Pending>,
    /// Subscriptions per event, indexed like the plugin's events.
    subscriptions: Vec<Vec<Subscription>>,
}

/// A channel as it stands: its queue, oldest first, and the subscriptions
/// of each of its events.
pub struct ChannelView {
    pub queue: Seq<Pending>,
    pub subscriptions: Seq<Seq<SubscriptionView>>,
}

/// The subscriptions of a list, as they stand.
pub open spec fn sub_views(v: Vec<Subscription>) -> Seq<SubscriptionView> {
    v@.map_values(|s: Subscription| s@)
}

impl View for Channel {
    type V = ChannelView;

    closed spec fn view(&self) -> ChannelView {
        ChannelView {
            queue: self.queue@,
            subscriptions: self.subscriptions@.map_values(|v: Vec<Subscription>| sub_views(v)),
        }
    }
}

/// Whether some pair in `cs` is keyed `id`.
pub open spec fn has_channel(cs: Seq<(Seq<char>, ChannelView)>, id: Seq<char>) -> bool {
    exists|i: int| 0 <= i < cs.len() && cs[i].0 == id
}

/// Where in `cs` the pair keyed `id` stands.
pub open spec fn channel_index(cs: Seq<(Seq<char>, ChannelView)>, id: Seq<char>) -> int {
    choose|i: int| 0 <= i < cs.len() && cs[i].0 == id
}

/// The channels of `cs` by plugin id.
pub open spec fn channel_map(cs: Seq<(Seq<char>, ChannelView)>) -> Map<Seq<char>, ChannelView> {
    Map::new(|id: Seq<char>| has_channel(cs, id), |id: Seq<char>| cs[channel_index(cs, id)].1)
}

/// No two pairs of `cs` share a key.
pub open spec fn unique_ids(cs: Seq<(Seq<char>, ChannelView)>) -> bool {
    forall|i: int, j: int| 0 <= i < j < cs.len() ==> #[trigger] cs[i].0 != #[trigger] cs[j].0
}

/// Whether `s` holds a subscription of `command` on `plugin`.
pub open spec fn has_sub(s: Seq<SubscriptionView>, plugin: usize, command: usize) -> bool {
    exists|i: int| 0 <= i < s.len() && s[i].plugin == plugin && s[i].command == command
}

/// Where in `s` the subscription of `command` on `plugin` stands.
pub open spec fn sub_index(s: Seq<SubscriptionView>, plugin: usize, command: usize) -> int {
    choose|i: int| 0 <= i < s.len() && s[i].plugin == plugin && s[i].command == command
}

/// No two subscriptions of `s` are of the same command on the same plugin.
pub open spec fn distinct_subs(s: Seq<SubscriptionView>) -> bool {
    forall|i: int, j: int|
        0 <= i < j < s.len() ==> !(#[trigger] s[i].plugin == #[trigger] s[j].plugin && s[i].command == s[j].command)
}

/// The subscriptions once `x` is made: it takes the place of the one of the
/// same command on the same plugin, and goes last otherwise.
pub open spec fn subscribed(s: Seq<SubscriptionView>, x: SubscriptionView) -> Seq<SubscriptionView> {
    if has_sub(s, x.plugin, x.command) {
        s.update(sub_index(s, x.plugin, x.command), x)
    } else {
        s.push(x)
    }
}

/// The subscriptions left once those of `command` on `plugin` go, in order.
pub open spec fn unsubscribed(s: Seq<SubscriptionView>, plugin: usize, command: usize) -> Seq<SubscriptionView>
    decreases s.len(),
{
    if s.len() == 0 {
        Seq::empty()
    } else if s.last().plugin == plugin && s.last().command == command {
        unsubscribed(s.drop_last(), plugin, command)
    } else {
        unsubscribed(s.drop_last(), plugin, command).push(s.last())
    }
}

/// The subscriptions left once those of `plugin` go, in order.
pub open spec fn without_plugin(s: Seq<SubscriptionView>, plugin: usize) -> Seq<SubscriptionView>
    decreases s.len(),
{
    if s.len() == 0 {
        Seq::empty()
    } else if s.last().plugin == plugin {
        without_plugin(s.drop_last(), plugin)
    } else {
        without_plugin(s.drop_last(), plugin).push(s.last())
    }
}

/// A channel once `plugin` is gone: none of its subscriptions are left.
pub open spec fn forgotten(c: ChannelView, plugin: usize) -> ChannelView {
    ChannelView {
        queue: c.queue,
        subscriptions: c.subscriptions.map_values(|s: Seq<SubscriptionView>| without_plugin(s, plugin)),
    }
}

/// The channels once the one of `id` is closed and every subscription of
/// `plugin` is dropped.
pub open spec fn forget_in(m: Map<Seq<char>, ChannelView>, id: Seq<char>, plugin: usize) -> Map<Seq<char>, ChannelView> {
    m.remove(id).map_values(|c: ChannelView| forgotten(c, plugin))
}

/// The tokens of the queued events that are `event`, oldest first.
pub open spec fn tokens_of(q: Seq<Pending>, event: usize) -> Seq<u64>
    decreases q.len(),
{
    if q.len() == 0 {
        Seq::empty()
    } else if q.last().event == event {
        tokens_of(q.drop_last(), event).push(q.last().token)
    } else {
        tokens_of(q.drop_last(), event)
    }
}

/// The queued events that are not `event`, oldest first.
pub open spec fn others_of(q: Seq<Pending>, event: usize) -> Seq<Pending>
    decreases q.len(),
{
    if q.len() == 0 {
        Seq::empty()
    } else if q.last().event == event {
        others_of(q.drop_last(), event)
    } else {
        others_of(q.drop_last(), event).push(q.last())
    }
}

/// A channel for `events` events: nothing queued, nobody subscribed.
pub open spec fn fresh_channel(events: usize) -> ChannelView {
    ChannelView {
        queue: Seq::empty(),
        subscriptions: Seq::new(events as nat, |i: int| Seq::<SubscriptionView>::empty()),
    }
}

/// The channels every plugin emits on, by plugin id.
pub struct Manager {
    channels: Vec<(String, Channel)>,
}

/// The pairs of a list of channels, as they stand.
pub open spec fn pair_views(v: Seq<(String, Channel)>) -> Seq<(Seq<char>, ChannelView)> {
    v.map_values(|p: (String, Channel)| (p.0@, p.1@))
}

impl View for Manager {
    type V = Map<Seq<char>, ChannelView>;

    closed spec fn view(&self) -> Map<Seq<char>, ChannelView> {
        channel_map(pair_views(self.channels@))
    }
}

/// Every list of subscriptions of every channel holds each command of each
/// plugin at most once.
pub open spec fn subs_distinct(m: Map<Seq<char>, ChannelView>) -> bool {
    forall|id: Seq<char>, e: int|
        #![trigger m[id].subscriptions[e]]
        m.contains_key(id) && 0 <= e < m[id].subscriptions.len() ==> distinct_subs(m[id].subscriptions[e])
}

impl Manager {
    #[verifier::type_invariant]
    closed spec fn well_formed(self) -> bool {
        &&& unique_ids(pair_views(self.channels@))
        &&& forall|i: int, e: int|
            #![trigger pair_views(self.channels@)[i].1.subscriptions[e]]
            0 <= i < self.channels@.len() && 0 <= e < pair_views(self.channels@)[i].1.subscriptions.len()
                ==> distinct_subs(pair_views(self.channels@)[i].1.subscriptions[e])
    }
}

/// In pairs with distinct keys, the pair at `i` is the one its key names.
proof fn lemma_channel_index(cs: Seq<(Seq<char>, ChannelView)>, i: int)
    requires
        unique_ids(cs),
        0 <= i < cs.len(),
    ensures
        has_channel(cs, cs[i].0),
        channel_index(cs, cs[i].0) == i,
{
    assert(has_channel(cs, cs[i].0));
    let k = channel_index(cs, cs[i].0);
    if k < i {
        assert(cs[k].0 != cs[i].0);
    } else if i < k {
        assert(cs[i].0 != cs[k].0);
    }
}

/// Putting another channel in place of the one at `i`.
proof fn lemma_map_update(cs: Seq<(Seq<char>, ChannelView)>, i: int, c: ChannelView)
    requires
        unique_ids(cs),
        0 <= i < cs.len(),
    ensures
        unique_ids(cs.update(i, (cs[i].0, c))),
        channel_map(cs.update(i, (cs[i].0, c))) == channel_map(cs).insert(cs[i].0, c),
{
    let ds = cs.update(i, (cs[i].0, c));
    assert forall|a: int, b: int| 0 <= a < b < ds.len() implies #[trigger] ds[a].0 != #[trigger] ds[b].0 by {
        assert(cs[a].0 != cs[b].0);
    }
    lemma_channel_index(ds, i);
    assert forall|id: Seq<char>| #[trigger] has_channel(ds, id) == has_channel(cs, id) by {
        if has_channel(cs, id) {
            let k = choose|k: int| 0 <= k < cs.len() && cs[k].0 == id;
            assert(ds[k].0 == id);
        }
        if has_channel(ds, id) {
            let k = choose|k: int| 0 <= k < ds.len() && ds[k].0 == id;
            assert(cs[k].0 == id);
        }
    }
    assert forall|id: Seq<char>| has_channel(ds, id) && id != cs[i].0 implies #[trigger] ds[channel_index(ds, id)].1 == cs[channel_index(cs, id)].1 by {
        let k = channel_index(ds, id);
        lemma_channel_index(ds, k);
        lemma_channel_index(cs, k);
    }
    assert(channel_map(ds) =~= channel_map(cs).insert(cs[i].0, c));
}

/// Adding a channel under a new key.
proof fn lemma_map_push(cs: Seq<(Seq<char>, ChannelView)>, id: Seq<char>, c: ChannelView)
    requires
        unique_ids(cs),
        !has_channel(cs, id),
    ensures
        unique_ids(cs.push((id, c))),
        channel_map(cs.push((id, c))) == channel_map(cs).insert(id, c),
{
    let ds = cs.push((id, c));
    assert forall|a: int, b: int| 0 <= a < b < ds.len() implies #[trigger] ds[a].0 != #[trigger] ds[b].0 by {
        if b == cs.len() {
            assert(ds[a] == cs[a]);
        } else {
            assert(cs[a].0 != cs[b].0);
        }
    }
    lemma_channel_index(ds, cs.len() as int);
    assert forall|k: Seq<char>| #[trigger] has_channel(ds, k) == (has_channel(cs, k) || k == id) by {
        if has_channel(cs, k) {
            let j = choose|j: int| 0 <= j < cs.len() && cs[j].0 == k;
            assert(ds[j].0 == k);
        }
        if has_channel(ds, k) && k != id {
            let j = choose|j: int| 0 <= j < ds.len() && ds[j].0 == k;
            assert(cs[j].0 == k);
        }
    }
    assert forall|k: Seq<char>| has_channel(ds, k) && k != id implies #[trigger] ds[channel_index(ds, k)].1 == cs[channel_index(cs, k)].1 by {
        let j = channel_index(ds, k);
        lemma_channel_index(ds, j);
        lemma_channel_index(cs, j);
    }
    assert(channel_map(ds) =~= channel_map(cs).insert(id, c));
}

/// Taking the channel at `i` out.
proof fn lemma_map_remove(cs: Seq<(Seq<char>, ChannelView)>, i: int)
    requires
        unique_ids(cs),
        0 <= i < cs.len(),
    ensures
        unique_ids(cs.remove(i)),
        channel_map(cs.remove(i)) == channel_map(cs).remove(cs[i].0),
{
    let ds = cs.remove(i);
    assert forall|a: int, b: int| 0 <= a < b < ds.len() implies #[trigger] ds[a].0 != #[trigger] ds[b].0 by {
        let a2 = if a < i { a } else { a + 1 };
        let b2 = if b < i { b } else { b + 1 };
        assert(ds[a] == cs[a2] && ds[b] == cs[b2]);
        assert(cs[a2].0 != cs[b2].0);
    }
    assert forall|k: Seq<char>| #[trigger] has_channel(ds, k) == (has_channel(cs, k) && k != cs[i].0) by {
        if has_channel(cs, k) && k != cs[i].0 {
            let j = choose|j: int| 0 <= j < cs.len() && cs[j].0 == k;
            if j < i {
                assert(ds[j].0 == k);
            } else {
                assert(j != i);
                assert(ds[j - 1].0 == k);
            }
        }
        if has_channel(ds, k) {
            let j = choose|j: int| 0 <= j < ds.len() && ds[j].0 == k;
            let j2 = if j < i { j } else { j + 1 };
            assert(cs[j2].0 == k);
            if k == cs[i].0 {
                if j2 < i {
                    assert(cs[j2].0 != cs[i].0);
                } else {
                    assert(cs[i].0 != cs[j2].0);
                }
            }
        }
    }
    assert forall|k: Seq<char>| has_channel(ds, k) implies #[trigger] ds[channel_index(ds, k)].1 == cs[channel_index(cs, k)].1 by {
        let j = channel_index(ds, k);
        lemma_channel_index(ds, j);
        let j2 = if j < i { j } else { j + 1 };
        assert(ds[j] == cs[j2]);
        lemma_channel_index(cs, j2);
    }
    assert(channel_map(ds) =~= channel_map(cs).remove(cs[i].0));
}

impl Manager {
    pub fn new() -> (r: Self)
        ensures
            r@ == Map::<Seq<char>, ChannelView>::empty(),
            subs_distinct(r@),
    {
        let r = Manager { channels: Vec::new() };
        proof {
            assert(pair_views(r.channels@) =~= Seq::<(Seq<char>, ChannelView)>::empty());
            assert(r@ =~= Map::<Seq<char>, ChannelView>::empty());
        }
        r
    }

    /// Where the channel of `id` stands, if there is one.
    fn find(&self, id: &String) -> (r: Option<usize>)
        ensures
            match r {
                Some(i) => i < self.channels@.len() && self.channels@[i as int].0@ == id@,
                None => !has_channel(pair_views(self.channels@), id@),
            },
    {
        let mut i: usize = 0;
        while i < self.channels.len()
            invariant
                i <= self.channels@.len(),
                forall|j: int| 0 <= j < i ==> #[trigger] self.channels@[j].0@ != id@,
            decreases self.channels@.len() - i,
        {
            if self.channels[i].0 == *id {
                return Some(i);
            }
            i = i + 1;
        }
        proof {
            let cs = pair_views(self.channels@);
            if has_channel(cs, id@) {
                let j = choose|j: int| 0 <= j < cs.len() && cs[j].0 == id@;
                assert(self.channels@[j].0@ == id@);
            }
        }
        None
    }
}


/// What dropping the subscriptions of `command` on `plugin` leaves: ones
/// that were there, none of that command on that plugin, and the whole list
/// where there was none.
pub proof fn lemma_unsubscribed(s: Seq<SubscriptionView>, plugin: usize, command: usize)
    ensures
        unsubscribed(s, plugin, command).len() <= s.len(),
        forall|i: int| 0 <= i < unsubscribed(s, plugin, command).len() ==> s.contains(#[trigger] unsubscribed(s, plugin, command)[i]),
        !has_sub(unsubscribed(s, plugin, command), plugin, command),
        (unsubscribed(s, plugin, command).len() == s.len()) == !has_sub(s, plugin, command),
        !has_sub(s, plugin, command) ==> unsubscribed(s, plugin, command) == s,
        distinct_subs(s) ==> distinct_subs(unsubscribed(s, plugin, command)),
    decreases s.len(),
{
    if s.len() > 0 {
        let init = s.drop_last();
        let l = s.last();
        lemma_unsubscribed(init, plugin, command);
        let rest = unsubscribed(init, plugin, command);
        let u = unsubscribed(s, plugin, command);
        assert(s =~= init.push(l));
        assert forall|i: int| 0 <= i < u.len() implies s.contains(#[trigger] u[i]) by {
            if i < rest.len() {
                assert(u[i] == rest[i]);
                let j = choose|j: int| 0 <= j < init.len() && init[j] == rest[i];
                assert(s[j] == rest[i]);
            } else {
                assert(s[s.len() - 1] == l);
            }
        }
        if has_sub(u, plugin, command) {
            let k = choose|k: int| 0 <= k < u.len() && u[k].plugin == plugin && u[k].command == command;
            if k < rest.len() {
                assert(u[k] == rest[k]);
            }
        }
        if has_sub(s, plugin, command) {
            let k = choose|k: int| 0 <= k < s.len() && s[k].plugin == plugin && s[k].command == command;
            if k < init.len() {
                assert(init[k] == s[k]);
            }
        }
        if has_sub(init, plugin, command) {
            let k = choose|k: int| 0 <= k < init.len() && init[k].plugin == plugin && init[k].command == command;
            assert(s[k] == init[k]);
        }
        if !has_sub(s, plugin, command) {
            assert(u =~= s);
        }
        if distinct_subs(s) {
            assert(distinct_subs(init)) by {
                assert forall|i: int, j: int| 0 <= i < j < init.len() implies !(#[trigger] init[i].plugin == #[trigger] init[j].plugin && init[i].command == init[j].command) by {
                    assert(s[i] == init[i] && s[j] == init[j]);
                }
            }
            if !(l.plugin == plugin && l.command == command) {
                assert forall|i: int, j: int| 0 <= i < j < u.len() implies !(#[trigger] u[i].plugin == #[trigger] u[j].plugin && u[i].command == u[j].command) by {
                    if j == u.len() - 1 {
                        assert(u[i] == rest[i]);
                        let m = choose|m: int| 0 <= m < init.len() && init[m] == rest[i];
                        assert(s[m] == init[m]);
                        assert(!(s[m].plugin == s[s.len() - 1].plugin && s[m].command == s[s.len() - 1].command));
                    } else {
                        assert(u[i] == rest[i] && u[j] == rest[j]);
                    }
                }
            }
        }
    }
}

/// What dropping the subscriptions of `plugin` leaves: ones that were there,
/// none of that plugin.
pub proof fn lemma_without_plugin(s: Seq<SubscriptionView>, plugin: usize)
    ensures
        forall|i: int| 0 <= i < without_plugin(s, plugin).len() ==> s.contains(#[trigger] without_plugin(s, plugin)[i]),
        forall|i: int| 0 <= i < without_plugin(s, plugin).len() ==> #[trigger] without_plugin(s, plugin)[i].plugin != plugin,
        distinct_subs(s) ==> distinct_subs(without_plugin(s, plugin)),
    decreases s.len(),
{
    if s.len() > 0 {
        let init = s.drop_last();
        let l = s.last();
        lemma_without_plugin(init, plugin);
        let rest = without_plugin(init, plugin);
        let u = without_plugin(s, plugin);
        assert(s =~= init.push(l));
        assert forall|i: int| 0 <= i < u.len() implies s.contains(#[trigger] u[i]) by {
            if i < rest.len() {
                assert(u[i] == rest[i]);
                let j = choose|j: int| 0 <= j < init.len() && init[j] == rest[i];
                assert(s[j] == rest[i]);
            } else {
                assert(s[s.len() - 1] == l);
            }
        }
        assert forall|i: int| 0 <= i < u.len() implies #[trigger] u[i].plugin != plugin by {
            if i < rest.len() {
                assert(u[i] == rest[i]);
            }
        }
        if distinct_subs(s) {
            assert(distinct_subs(init)) by {
                assert forall|i: int, j: int| 0 <= i < j < init.len() implies !(#[trigger] init[i].plugin == #[trigger] init[j].plugin && init[i].command == init[j].command) by {
                    assert(s[i] == init[i] && s[j] == init[j]);
                }
            }
            if l.plugin != plugin {
                assert forall|i: int, j: int| 0 <= i < j < u.len() implies !(#[trigger] u[i].plugin == #[trigger] u[j].plugin && u[i].command == u[j].command) by {
                    if j == u.len() - 1 {
                        assert(u[i] == rest[i]);
                        let m = choose|m: int| 0 <= m < init.len() && init[m] == rest[i];
                        assert(s[m] == init[m]);
                        assert(!(s[m].plugin == s[s.len() - 1].plugin && s[m].command == s[s.len() - 1].command));
                    } else {
                        assert(u[i] == rest[i] && u[j] == rest[j]);
                    }
                }
            }
        }
    }
}

/// In a list without repeats, the subscription of `command` on `plugin` at
/// `i` is the one `sub_index` names.
proof fn lemma_sub_index(s: Seq<SubscriptionView>, i: int)
    requires
        distinct_subs(s),
        0 <= i < s.len(),
    ensures
        has_sub(s, s[i].plugin, s[i].command),
        sub_index(s, s[i].plugin, s[i].command) == i,
{
    assert(has_sub(s, s[i].plugin, s[i].command));
    let k = sub_index(s, s[i].plugin, s[i].command);
    if k < i {
        assert(!(s[k].plugin == s[i].plugin && s[k].command == s[i].command));
    } else if i < k {
        assert(!(s[i].plugin == s[k].plugin && s[i].command == s[k].command));
    }
}

/// A subscription just made is the one of its command on its plugin, and
/// leaves the list without repeats.
pub proof fn law_subscription_is_single(s: Seq<SubscriptionView>, x: SubscriptionView)
    requires
        distinct_subs(s),
    ensures
        distinct_subs(subscribed(s, x)),
        has_sub(subscribed(s, x), x.plugin, x.command),
        subscribed(s, x)[sub_index(subscribed(s, x), x.plugin, x.command)] == x,
{
    let t = subscribed(s, x);
    if has_sub(s, x.plugin, x.command) {
        let k = sub_index(s, x.plugin, x.command);
        assert forall|i: int, j: int| 0 <= i < j < t.len() implies !(#[trigger] t[i].plugin == #[trigger] t[j].plugin && t[i].command == t[j].command) by {
            assert(!(s[i].plugin == s[j].plugin && s[i].command == s[j].command));
        }
        lemma_sub_index(t, k);
    } else {
        assert forall|i: int, j: int| 0 <= i < j < t.len() implies !(#[trigger] t[i].plugin == #[trigger] t[j].plugin && t[i].command == t[j].command) by {
            if j == s.len() {
                assert(t[i] == s[i]);
            } else {
                assert(!(s[i].plugin == s[j].plugin && s[i].command == s[j].command));
            }
        }
        lemma_sub_index(t, s.len() as int);
    }
}

/// Subscribing the same command on the same plugin again replaces its
/// mapping, the way reconnecting a pair of nodes does.
pub proof fn law_resubscribe_replaces(s: Seq<SubscriptionView>, first: SubscriptionView, second: SubscriptionView)
    requires
        distinct_subs(s),
        first.plugin == second.plugin,
        first.command == second.command,
    ensures
        subscribed(subscribed(s, first), second) == subscribed(s, second),
{
    let t = subscribed(s, first);
    law_subscription_is_single(s, first);
    if has_sub(s, first.plugin, first.command) {
        let k = sub_index(s, first.plugin, first.command);
        lemma_sub_index(t, k);
        assert(t.update(k, second) =~= s.update(k, second));
    } else {
        lemma_sub_index(t, s.len() as int);
        assert(t.update(s.len() as int, second) =~= s.push(second));
    }
}

/// Dropping a subscription just replaced drops the same as before.
proof fn lemma_unsubscribed_update(s: Seq<SubscriptionView>, k: int, x: SubscriptionView)
    requires
        0 <= k < s.len(),
        s[k].plugin == x.plugin,
        s[k].command == x.command,
    ensures
        unsubscribed(s.update(k, x), x.plugin, x.command) == unsubscribed(s, x.plugin, x.command),
    decreases s.len(),
{
    let u = s.update(k, x);
    if k == s.len() - 1 {
        assert(u.drop_last() =~= s.drop_last());
    } else {
        assert(u.drop_last() =~= s.drop_last().update(k, x));
        lemma_unsubscribed_update(s.drop_last(), k, x);
    }
}

/// Subscribing and then unsubscribing leaves the subscriptions as
/// unsubscribing alone would.
pub proof fn law_subscribe_then_unsubscribe(s: Seq<SubscriptionView>, x: SubscriptionView)
    requires
        distinct_subs(s),
    ensures
        unsubscribed(subscribed(s, x), x.plugin, x.command) == unsubscribed(s, x.plugin, x.command),
        !has_sub(unsubscribed(subscribed(s, x), x.plugin, x.command), x.plugin, x.command),
{
    if has_sub(s, x.plugin, x.command) {
        lemma_unsubscribed_update(s, sub_index(s, x.plugin, x.command), x);
    } else {
        assert(s.push(x).drop_last() =~= s);
    }
    lemma_unsubscribed(subscribed(s, x), x.plugin, x.command);
}

/// Once a plugin is forgotten, no subscription of any channel left points
/// at it: a released plugin is not reachable through an event.
pub proof fn law_forgotten_plugin_unreachable(m: Map<Seq<char>, ChannelView>, id: Seq<char>, plugin: usize)
    ensures
        !forget_in(m, id, plugin).contains_key(id),
        forall|k: Seq<char>, e: int, i: int|
            #![trigger forget_in(m, id, plugin)[k].subscriptions[e][i]]
            forget_in(m, id, plugin).contains_key(k) && 0 <= e < forget_in(m, id, plugin)[k].subscriptions.len()
                && 0 <= i < forget_in(m, id, plugin)[k].subscriptions[e].len()
                ==> forget_in(m, id, plugin)[k].subscriptions[e][i].plugin != plugin,
{
    let f = forget_in(m, id, plugin);
    assert forall|k: Seq<char>, e: int, i: int|
        f.contains_key(k) && 0 <= e < f[k].subscriptions.len() && 0 <= i < f[k].subscriptions[e].len()
        implies #[trigger] f[k].subscriptions[e][i].plugin != plugin by {
        lemma_without_plugin(m[k].subscriptions[e], plugin);
    }
}

/// Publishing an event takes every queued message of it, oldest first, and
/// keeps the others in their order.
pub proof fn law_publish_splits_the_queue(q: Seq<Pending>, event: usize)
    ensures
        tokens_of(q, event).len() + others_of(q, event).len() == q.len(),
        forall|i: int| 0 <= i < others_of(q, event).len() ==> #[trigger] others_of(q, event)[i].event != event,
        tokens_of(others_of(q, event), event).len() == 0,
    decreases q.len(),
{
    if q.len() > 0 {
        law_publish_splits_the_queue(q.drop_last(), event);
        let o = others_of(q, event);
        let o0 = others_of(q.drop_last(), event);
        if q.last().event != event {
            assert(o.drop_last() =~= o0);
        }
        assert forall|i: int| 0 <= i < o.len() implies #[trigger] o[i].event != event by {
            if i < o0.len() {
                assert(o[i] == o0[i]);
            }
        }
    }
}


/// Where in `list` the first subscription of `command` on `plugin` stands.
fn sub_position(list: &Vec<Subscription>, plugin: usize, command: usize) -> (r: Option<usize>)
    ensures
        match r {
            Some(i) => i < list@.len() && list@[i as int].plugin == plugin && list@[i as int].command == command,
            None => !has_sub(sub_views(*list), plugin, command),
        },
{
    let mut i: usize = 0;
    while i < list.len()
        invariant
            i <= list@.len(),
            forall|j: int| 0 <= j < i ==> !(#[trigger] list@[j].plugin == plugin && list@[j].command == command),
        decreases list@.len() - i,
    {
        if list[i].plugin == plugin && list[i].command == command {
            return Some(i);
        }
        i = i + 1;
    }
    proof {
        let s = sub_views(*list);
        if has_sub(s, plugin, command) {
            let k = choose|k: int| 0 <= k < s.len() && s[k].plugin == plugin && s[k].command == command;
            assert(list@[k]@ == s[k]);
        }
    }
    None
}

/// The subscriptions of `list` that are not of `command` on `plugin`, in order.
fn drop_subs(list: Vec<Subscription>, plugin: usize, command: usize) -> (r: Vec<Subscription>)
    ensures
        sub_views(r) == unsubscribed(sub_views(list), plugin, command),
{
    let ghost orig = list@;
    let ghost all = sub_views(list);
    let mut rest = list;
    let mut kept: Vec<Subscription> = Vec::new();
    while rest.len() > 0
        invariant
            all == orig.map_values(|s: Subscription| s@),
            rest@ == orig.skip(orig.len() - rest@.len()),
            rest@.len() <= orig.len(),
            sub_views(kept) == unsubscribed(all.take(orig.len() - rest@.len()), plugin, command),
        decreases rest@.len(),
    {
        let ghost i = orig.len() - rest@.len();
        let sub = rest.remove(0);
        proof {
            assert(orig.skip(i)[0] == orig[i]);
            assert(rest@ =~= orig.skip(i + 1));
            assert(all.take(i + 1) =~= all.take(i).push(all[i]));
            assert(all.take(i + 1).drop_last() =~= all.take(i));
        }
        if !(sub.plugin == plugin && sub.command == command) {
            let ghost prior = kept@;
            kept.push(sub);
            proof {
                assert(sub_views(kept) =~= prior.map_values(|s: Subscription| s@).push(sub@));
            }
        }
    }
    proof {
        assert(all.take(orig.len() as int) =~= all);
    }
    kept
}

/// The subscriptions of `list` that are not of `plugin`, in order.
fn drop_plugin(list: Vec<Subscription>, plugin: usize) -> (r: Vec<Subscription>)
    ensures
        sub_views(r) == without_plugin(sub_views(list), plugin),
{
    let ghost orig = list@;
    let ghost all = sub_views(list);
    let mut rest = list;
    let mut kept: Vec<Subscription> = Vec::new();
    while rest.len() > 0
        invariant
            all == orig.map_values(|s: Subscription| s@),
            rest@ == orig.skip(orig.len() - rest@.len()),
            rest@.len() <= orig.len(),
            sub_views(kept) == without_plugin(all.take(orig.len() - rest@.len()), plugin),
        decreases rest@.len(),
    {
        let ghost i = orig.len() - rest@.len();
        let sub = rest.remove(0);
        proof {
            assert(orig.skip(i)[0] == orig[i]);
            assert(rest@ =~= orig.skip(i + 1));
            assert(all.take(i + 1) =~= all.take(i).push(all[i]));
            assert(all.take(i + 1).drop_last() =~= all.take(i));
        }
        if sub.plugin != plugin {
            let ghost prior = kept@;
            kept.push(sub);
            proof {
                assert(sub_views(kept) =~= prior.map_values(|s: Subscription| s@).push(sub@));
            }
        }
    }
    proof {
        assert(all.take(orig.len() as int) =~= all);
    }
    kept
}

impl Manager {
    /// Opens the channel the plugin `id` emits its `events` events on, in
    /// place of any it had.
    pub fn register(&mut self, id: &str, events: usize)
        ensures
            final(self)@ == old(self)@.insert(id@, fresh_channel(events)),
            subs_distinct(final(self)@),
    {
        proof {
            use_type_invariant(&*self);
        }
        let key = id.to_owned();
        let mut subscriptions: Vec<Vec<Subscription>> = Vec::new();
        let mut n: usize = 0;
        while n < events
            invariant
                n <= events,
                subscriptions@.len() == n,
                forall|e: int| 0 <= e < n ==> #[trigger] subscriptions@[e]@.len() == 0,
            decreases events - n,
        {
            subscriptions.push(Vec::new());
            n = n + 1;
        }
        let channel = Channel { queue: Vec::new(), subscriptions };
        proof {
            assert forall|e: int| 0 <= e < events implies #[trigger] channel@.subscriptions[e] =~= Seq::<SubscriptionView>::empty() by {
                assert(channel.subscriptions@[e]@.len() == 0);
                assert(channel@.subscriptions[e] == sub_views(channel.subscriptions@[e]));
            }
            assert(channel@.subscriptions =~= fresh_channel(events).subscriptions);
            assert(channel@ == fresh_channel(events));
        }
        let found = self.find(&key);
        let mut channels: Vec<(String, Channel)> = Vec::new();
        std::mem::swap(&mut channels, &mut self.channels);
        let ghost cs0 = pair_views(channels@);
        match found {
            Some(i) => {
                let ghost prior = channels@;
                channels.remove(i);
                channels.insert(i, (key, channel));
                proof {
                    assert(channels@ =~= prior.update(i as int, (key, channel)));
                    assert(pair_views(channels@) =~= cs0.update(i as int, (cs0[i as int].0, fresh_channel(events))));
                    lemma_map_update(cs0, i as int, fresh_channel(events));
                }
            },
            None => {
                channels.push((key, channel));
                proof {
                    assert(pair_views(channels@) =~= cs0.push((id@, fresh_channel(events))));
                    lemma_map_push(cs0, id@, fresh_channel(events));
                }
            },
        }
        proof {
            let cs = pair_views(channels@);
            assert forall|i: int, e: int| 0 <= i < channels@.len() && 0 <= e < cs[i].1.subscriptions.len() implies distinct_subs(#[trigger] cs[i].1.subscriptions[e]) by {
                if cs[i].1 != fresh_channel(events) {
                    assert(cs[i] == cs0[i]);
                }
            }
        }
        self.channels = channels;
        proof {
            self.lemma_subs_distinct();
        }
    }

    /// The type's invariant, in terms of the channels by id.
    proof fn lemma_subs_distinct(&self)
        requires
            self.well_formed(),
        ensures
            subs_distinct(self@),
    {
        let cs = pair_views(self.channels@);
        assert forall|id: Seq<char>, e: int|
            self@.contains_key(id) && 0 <= e < self@[id].subscriptions.len() implies distinct_subs(#[trigger] self@[id].subscriptions[e]) by {
            let i = channel_index(cs, id);
            assert(cs[i].1.subscriptions[e] == self@[id].subscriptions[e]);
        }
    }
}


/// The channel once its subscriptions of `event` are `s`.
pub open spec fn with_subs(c: ChannelView, event: int, s: Seq<SubscriptionView>) -> ChannelView {
    ChannelView { queue: c.queue, subscriptions: c.subscriptions.update(event, s) }
}

/// Whether the plugin `id` has a channel with an event `event`.
pub open spec fn has_event(m: Map<Seq<char>, ChannelView>, id: Seq<char>, event: int) -> bool {
    m.contains_key(id) && 0 <= event < m[id].subscriptions.len()
}

impl Manager {
    /// What the channel of `id` is, where `find` put it.
    proof fn lemma_found(&self, id: Seq<char>, i: int)
        requires
            self.well_formed(),
            0 <= i < self.channels@.len(),
            self.channels@[i].0@ == id,
        ensures
            self@.contains_key(id),
            self@[id] == self.channels@[i].1@,
    {
        let cs = pair_views(self.channels@);
        assert(cs[i].0 == id);
        lemma_channel_index(cs, i);
    }

    /// Subscribes `subscription` to event `event` of the plugin `id`. The same
    /// command on the same plugin subscribed again replaces its mapping, the
    /// way reconnecting a pair of nodes does. Nothing happens for an unknown
    /// plugin or event.
    pub fn subscribe(&mut self, id: &str, event: usize, subscription: Subscription)
        ensures
            has_event(old(self)@, id@, event as int) ==> final(self)@ == old(self)@.insert(
                id@,
                with_subs(
                    old(self)@[id@],
                    event as int,
                    subscribed(old(self)@[id@].subscriptions[event as int], subscription@),
                ),
            ),
            !has_event(old(self)@, id@, event as int) ==> final(self)@ == old(self)@,
            subs_distinct(final(self)@),
    {
        proof {
            use_type_invariant(&*self);
            self.lemma_subs_distinct();
        }
        let key = id.to_owned();
        let i = match self.find(&key) {
            Some(i) => i,
            None => {
                return;
            },
        };
        proof {
            self.lemma_found(id@, i as int);
        }
        if event >= self.channels[i].1.subscriptions.len() {
            return;
        }
        let ghost x = subscription@;
        let plugin = subscription.plugin;
        let command = subscription.command;
        let mut channels: Vec<(String, Channel)> = Vec::new();
        std::mem::swap(&mut channels, &mut self.channels);
        let ghost cs0 = pair_views(channels@);
        let ghost all0 = channels@;
        let (name, mut channel) = channels.remove(i);
        let ghost c0 = channel@;
        let mut list = channel.subscriptions.remove(event);
        let ghost before = sub_views(list);
        proof {
            assert(before == c0.subscriptions[event as int]);
            assert(distinct_subs(before)) by {
                assert(cs0[i as int].1.subscriptions[event as int] == before);
            }
        }
        match sub_position(&list, plugin, command) {
            Some(p) => {
                let ghost prior = list@;
                list.remove(p);
                list.insert(p, subscription);
                proof {
                    assert(list@ =~= prior.update(p as int, subscription));
                    lemma_sub_index(before, p as int);
                    assert(sub_views(list) =~= before.update(p as int, x));
                }
            },
            None => {
                list.push(subscription);
                proof {
                    assert(sub_views(list) =~= before.push(x));
                }
            },
        }
        proof {
            assert(sub_views(list) == subscribed(before, x));
            law_subscription_is_single(before, x);
        }
        let ghost prior_subs = channel.subscriptions@;
        channel.subscriptions.insert(event, list);
        let ghost c1 = channel@;
        proof {
            assert(channel.subscriptions@ =~= prior_subs.insert(event as int, list));
            assert(c1.subscriptions =~= c0.subscriptions.update(event as int, subscribed(before, x)));
            assert(c1 == with_subs(c0, event as int, subscribed(before, x)));
        }
        channels.insert(i, (name, channel));
        proof {
            assert(channels@ =~= all0.update(i as int, (name, channel)));
            assert(pair_views(channels@) =~= cs0.update(i as int, (cs0[i as int].0, c1)));
            lemma_map_update(cs0, i as int, c1);
            let cs = pair_views(channels@);
            assert forall|j: int, e: int| 0 <= j < channels@.len() && 0 <= e < cs[j].1.subscriptions.len() implies distinct_subs(#[trigger] cs[j].1.subscriptions[e]) by {
                if j != i {
                    assert(cs[j] == cs0[j]);
                } else if e != event {
                    assert(cs[j].1.subscriptions[e] == cs0[j].1.subscriptions[e]);
                }
            }
        }
        self.channels = channels;
        proof {
            self.lemma_subs_distinct();
        }
    }
}


impl Manager {
    /// Drops the subscription of `command` on `plugin` to event `event` of
    /// the plugin `id`, and says whether one was there.
    pub fn unsubscribe(&mut self, id: &str, event: usize, plugin: usize, command: usize) -> (r: bool)
        ensures
            r == (has_event(old(self)@, id@, event as int) && has_sub(
                old(self)@[id@].subscriptions[event as int],
                plugin,
                command,
            )),
            r ==> final(self)@ == old(self)@.insert(
                id@,
                with_subs(
                    old(self)@[id@],
                    event as int,
                    unsubscribed(old(self)@[id@].subscriptions[event as int], plugin, command),
                ),
            ),
            !r ==> final(self)@ == old(self)@,
            subs_distinct(final(self)@),
    {
        proof {
            use_type_invariant(&*self);
            self.lemma_subs_distinct();
        }
        let key = id.to_owned();
        let i = match self.find(&key) {
            Some(i) => i,
            None => {
                return false;
            },
        };
        proof {
            self.lemma_found(id@, i as int);
        }
        if event >= self.channels[i].1.subscriptions.len() {
            return false;
        }
        let mut channels: Vec<(String, Channel)> = Vec::new();
        std::mem::swap(&mut channels, &mut self.channels);
        let ghost cs0 = pair_views(channels@);
        let ghost all0 = channels@;
        let (name, mut channel) = channels.remove(i);
        let ghost c0 = channel@;
        let list = channel.subscriptions.remove(event);
        let ghost before = sub_views(list);
        proof {
            assert(before == c0.subscriptions[event as int]);
            assert(distinct_subs(before)) by {
                assert(cs0[i as int].1.subscriptions[event as int] == before);
            }
            lemma_unsubscribed(before, plugin, command);
        }
        let before_len = list.len();
        let kept = drop_subs(list, plugin, command);
        let removed = kept.len() < before_len;
        let ghost prior_subs = channel.subscriptions@;
        channel.subscriptions.insert(event, kept);
        let ghost c1 = channel@;
        proof {
            assert(channel.subscriptions@ =~= prior_subs.insert(event as int, kept));
            assert(c1.subscriptions =~= c0.subscriptions.update(event as int, unsubscribed(before, plugin, command)));
            assert(c1 == with_subs(c0, event as int, unsubscribed(before, plugin, command)));
            if !removed {
                assert(c1.subscriptions =~= c0.subscriptions);
                assert(c1 == c0);
            }
        }
        channels.insert(i, (name, channel));
        proof {
            assert(channels@ =~= all0.update(i as int, (name, channel)));
            assert(pair_views(channels@) =~= cs0.update(i as int, (cs0[i as int].0, c1)));
            lemma_map_update(cs0, i as int, c1);
            if !removed {
                assert(old(self)@.insert(id@, c1) =~= old(self)@);
            }
            let cs = pair_views(channels@);
            assert forall|j: int, e: int| 0 <= j < channels@.len() && 0 <= e < cs[j].1.subscriptions.len() implies distinct_subs(#[trigger] cs[j].1.subscriptions[e]) by {
                if j != i {
                    assert(cs[j] == cs0[j]);
                } else if e != event {
                    assert(cs[j].1.subscriptions[e] == cs0[j].1.subscriptions[e]);
                }
            }
        }
        self.channels = channels;
        proof {
            self.lemma_subs_distinct();
        }
        removed
    }

    /// Drops the mapping filling `output` from the subscription of `command`
    /// on `plugin` to event `event` of the plugin `id`: None when there is no
    /// such subscription, otherwise whether one was there.
    pub fn remove_mapping(&mut self, id: &str, event: usize, plugin: usize, command: usize, output: &[usize]) -> (r: Option<bool>)
        ensures
            !(has_event(old(self)@, id@, event as int) && has_sub(old(self)@[id@].subscriptions[event as int], plugin, command))
                ==> r is None && final(self)@ == old(self)@,
            has_event(old(self)@, id@, event as int) && has_sub(old(self)@[id@].subscriptions[event as int], plugin, command) ==> {
                let s = old(self)@[id@].subscriptions[event as int];
                let k = sub_index(s, plugin, command);
                let kept = without_output(s[k].mappings, output@);
                &&& r == Some(kept.len() < s[k].mappings.len())
                &&& final(self)@ == old(self)@.insert(
                    id@,
                    with_subs(old(self)@[id@], event as int, s.update(k, SubscriptionView { mappings: kept, ..s[k] })),
                )
            },
            subs_distinct(final(self)@),
    {
        proof {
            use_type_invariant(&*self);
            self.lemma_subs_distinct();
        }
        let key = id.to_owned();
        let i = match self.find(&key) {
            Some(i) => i,
            None => {
                return None;
            },
        };
        proof {
            self.lemma_found(id@, i as int);
        }
        if event >= self.channels[i].1.subscriptions.len() {
            return None;
        }
        let p = match sub_position(&self.channels[i].1.subscriptions[event], plugin, command) {
            Some(p) => p,
            None => {
                return None;
            },
        };
        let mut channels: Vec<(String, Channel)> = Vec::new();
        std::mem::swap(&mut channels, &mut self.channels);
        let ghost cs0 = pair_views(channels@);
        let ghost all0 = channels@;
        let (name, mut channel) = channels.remove(i);
        let ghost c0 = channel@;
        let mut list = channel.subscriptions.remove(event);
        let ghost before = sub_views(list);
        proof {
            assert(before == c0.subscriptions[event as int]);
            assert(distinct_subs(before)) by {
                assert(cs0[i as int].1.subscriptions[event as int] == before);
            }
            lemma_sub_index(before, p as int);
        }
        let ghost prior = list@;
        let mut sub = list.remove(p);
        let removed = sub.mapper.remove(output);
        let ghost changed = sub@;
        list.insert(p, sub);
        proof {
            assert(list@ =~= prior.update(p as int, sub));
            assert(sub_views(list) =~= before.update(p as int, changed));
            assert(changed == SubscriptionView { mappings: without_output(before[p as int].mappings, output@), ..before[p as int] });
            assert(distinct_subs(sub_views(list))) by {
                let t = sub_views(list);
                assert forall|a: int, b: int| 0 <= a < b < t.len() implies !(#[trigger] t[a].plugin == #[trigger] t[b].plugin && t[a].command == t[b].command) by {
                    assert(!(before[a].plugin == before[b].plugin && before[a].command == before[b].command));
                }
            }
        }
        let ghost prior_subs = channel.subscriptions@;
        channel.subscriptions.insert(event, list);
        let ghost c1 = channel@;
        proof {
            assert(channel.subscriptions@ =~= prior_subs.insert(event as int, list));
            assert(c1.subscriptions =~= c0.subscriptions.update(event as int, before.update(p as int, changed)));
        }
        channels.insert(i, (name, channel));
        proof {
            assert(channels@ =~= all0.update(i as int, (name, channel)));
            assert(pair_views(channels@) =~= cs0.update(i as int, (cs0[i as int].0, c1)));
            lemma_map_update(cs0, i as int, c1);
            let cs = pair_views(channels@);
            assert forall|j: int, e: int| 0 <= j < channels@.len() && 0 <= e < cs[j].1.subscriptions.len() implies distinct_subs(#[trigger] cs[j].1.subscriptions[e]) by {
                if j != i {
                    assert(cs[j] == cs0[j]);
                } else if e != event {
                    assert(cs[j].1.subscriptions[e] == cs0[j].1.subscriptions[e]);
                }
            }
        }
        self.channels = channels;
        proof {
            self.lemma_subs_distinct();
        }
        Some(removed)
    }

    /// Queues event `event` of the plugin `id`, its payload kept under
    /// `token`; false for an unknown plugin or event.
    pub fn new_event(&mut self, id: &str, event: usize, token: u64) -> (r: bool)
        ensures
            r == has_event(old(self)@, id@, event as int),
            r ==> final(self)@ == old(self)@.insert(
                id@,
                ChannelView { queue: old(self)@[id@].queue.push(Pending { event, token }), ..old(self)@[id@] },
            ),
            !r ==> final(self)@ == old(self)@,
            subs_distinct(final(self)@),
    {
        proof {
            use_type_invariant(&*self);
            self.lemma_subs_distinct();
        }
        let key = id.to_owned();
        let i = match self.find(&key) {
            Some(i) => i,
            None => {
                return false;
            },
        };
        proof {
            self.lemma_found(id@, i as int);
        }
        if event >= self.channels[i].1.subscriptions.len() {
            return false;
        }
        let mut channels: Vec<(String, Channel)> = Vec::new();
        std::mem::swap(&mut channels, &mut self.channels);
        let ghost cs0 = pair_views(channels@);
        let ghost all0 = channels@;
        let (name, mut channel) = channels.remove(i);
        let ghost c0 = channel@;
        channel.queue.push(Pending { event, token });
        let ghost c1 = channel@;
        proof {
            assert(c1 == ChannelView { queue: c0.queue.push(Pending { event, token }), ..c0 });
        }
        channels.insert(i, (name, channel));
        proof {
            assert(channels@ =~= all0.update(i as int, (name, channel)));
            assert(pair_views(channels@) =~= cs0.update(i as int, (cs0[i as int].0, c1)));
            lemma_map_update(cs0, i as int, c1);
            let cs = pair_views(channels@);
            assert forall|j: int, e: int| 0 <= j < channels@.len() && 0 <= e < cs[j].1.subscriptions.len() implies distinct_subs(#[trigger] cs[j].1.subscriptions[e]) by {
                if j != i {
                    assert(cs[j] == cs0[j]);
                } else {
                    assert(cs[j].1.subscriptions[e] == cs0[j].1.subscriptions[e]);
                }
            }
        }
        self.channels = channels;
        proof {
            self.lemma_subs_distinct();
        }
        true
    }
}


/// Drops every subscription of `plugin` from a channel.
fn forget_plugin(channel: &mut Channel, plugin: usize)
    ensures
        final(channel)@ == forgotten(old(channel)@, plugin),
{
    let ghost c0 = channel@;
    let mut e: usize = 0;
    while e < channel.subscriptions.len()
        invariant
            e <= channel.subscriptions@.len(),
            channel.subscriptions@.len() == c0.subscriptions.len(),
            channel.queue@ == c0.queue,
            forall|k: int| 0 <= k < c0.subscriptions.len() ==> #[trigger] channel@.subscriptions[k] == if k < e {
                without_plugin(c0.subscriptions[k], plugin)
            } else {
                c0.subscriptions[k]
            },
        decreases c0.subscriptions.len() - e,
    {
        let ghost prior = channel.subscriptions@;
        let ghost pre = channel@;
        let list = channel.subscriptions.remove(e);
        proof {
            assert(sub_views(list) == pre.subscriptions[e as int]);
        }
        let kept = drop_plugin(list, plugin);
        channel.subscriptions.insert(e, kept);
        proof {
            assert(channel.subscriptions@ =~= prior.update(e as int, kept));
            assert forall|k: int| 0 <= k < c0.subscriptions.len() implies #[trigger] channel@.subscriptions[k] == if k < e + 1 {
                without_plugin(c0.subscriptions[k], plugin)
            } else {
                c0.subscriptions[k]
            } by {
                assert(pre.subscriptions[k] == if k < e {
                    without_plugin(c0.subscriptions[k], plugin)
                } else {
                    c0.subscriptions[k]
                });
                if k != e {
                    assert(channel.subscriptions@[k] == prior[k]);
                    assert(channel@.subscriptions[k] == pre.subscriptions[k]);
                }
            }
        }
        e = e + 1;
    }
    proof {
        assert(channel@.subscriptions =~= c0.subscriptions.map_values(|s: Seq<SubscriptionView>| without_plugin(s, plugin)));
    }
}

/// Forgetting a plugin in every channel of `cs`, read by id.
proof fn lemma_map_forgotten(cs: Seq<(Seq<char>, ChannelView)>, ds: Seq<(Seq<char>, ChannelView)>, plugin: usize)
    requires
        unique_ids(cs),
        ds.len() == cs.len(),
        forall|j: int| 0 <= j < cs.len() ==> #[trigger] ds[j] == (cs[j].0, forgotten(cs[j].1, plugin)),
    ensures
        unique_ids(ds),
        channel_map(ds) == channel_map(cs).map_values(|c: ChannelView| forgotten(c, plugin)),
{
    assert forall|a: int, b: int| 0 <= a < b < ds.len() implies #[trigger] ds[a].0 != #[trigger] ds[b].0 by {
        assert(ds[a].0 == cs[a].0 && ds[b].0 == cs[b].0);
        assert(cs[a].0 != cs[b].0);
    }
    assert forall|k: Seq<char>| #[trigger] has_channel(ds, k) == has_channel(cs, k) by {
        if has_channel(cs, k) {
            let j = choose|j: int| 0 <= j < cs.len() && cs[j].0 == k;
            assert(ds[j].0 == k);
        }
        if has_channel(ds, k) {
            let j = choose|j: int| 0 <= j < ds.len() && ds[j].0 == k;
            assert(cs[j].0 == ds[j].0);
        }
    }
    assert forall|k: Seq<char>| has_channel(ds, k) implies #[trigger] ds[channel_index(ds, k)].1 == forgotten(cs[channel_index(cs, k)].1, plugin) by {
        let j = channel_index(ds, k);
        lemma_channel_index(ds, j);
        assert(cs[j].0 == ds[j].0);
        lemma_channel_index(cs, j);
    }
    assert(channel_map(ds) =~= channel_map(cs).map_values(|c: ChannelView| forgotten(c, plugin)));
}

impl Manager {
    /// Closes the channel of the plugin `id` and drops every subscription
    /// of `plugin` on the others: a released plugin must not be reachable
    /// through an event it never saw unsubscribed.
    pub fn forget(&mut self, id: &str, plugin: usize)
        ensures
            final(self)@ == forget_in(old(self)@, id@, plugin),
            subs_distinct(final(self)@),
    {
        proof {
            use_type_invariant(&*self);
        }
        let key = id.to_owned();
        let found = self.find(&key);
        let mut channels: Vec<(String, Channel)> = Vec::new();
        std::mem::swap(&mut channels, &mut self.channels);
        let ghost cs0 = pair_views(channels@);
        match found {
            Some(i) => {
                channels.remove(i);
                proof {
                    assert(pair_views(channels@) =~= cs0.remove(i as int));
                    lemma_map_remove(cs0, i as int);
                }
            },
            None => {
                proof {
                    assert(channel_map(cs0) =~= channel_map(cs0).remove(id@));
                }
            },
        }
        let ghost cs1 = pair_views(channels@);
        proof {
            assert(channel_map(cs1) == channel_map(cs0).remove(id@));
            assert(unique_ids(cs1));
            assert forall|j: int, e: int| 0 <= j < cs1.len() && 0 <= e < cs1[j].1.subscriptions.len() implies distinct_subs(#[trigger] cs1[j].1.subscriptions[e]) by {
                match found {
                    Some(i) => {
                        let j2 = if j < i { j } else { j + 1 };
                        assert(cs1[j] == cs0[j2]);
                    },
                    None => {},
                }
            }
        }
        let mut k: usize = 0;
        while k < channels.len()
            invariant
                k <= channels@.len(),
                channels@.len() == cs1.len(),
                forall|j: int| 0 <= j < cs1.len() ==> #[trigger] pair_views(channels@)[j] == if j < k {
                    (cs1[j].0, forgotten(cs1[j].1, plugin))
                } else {
                    cs1[j]
                },
            decreases cs1.len() - k,
        {
            let ghost prior = channels@;
            let ghost pv = pair_views(channels@);
            let (name, mut channel) = channels.remove(k);
            proof {
                assert(pv[k as int] == cs1[k as int]);
                assert((name@, channel@) == pv[k as int]);
            }
            forget_plugin(&mut channel, plugin);
            channels.insert(k, (name, channel));
            proof {
                assert(channels@ =~= prior.update(k as int, (name, channel)));
                assert forall|j: int| 0 <= j < cs1.len() implies #[trigger] pair_views(channels@)[j] == if j < k + 1 {
                    (cs1[j].0, forgotten(cs1[j].1, plugin))
                } else {
                    cs1[j]
                } by {
                    assert(pv[j] == if j < k {
                        (cs1[j].0, forgotten(cs1[j].1, plugin))
                    } else {
                        cs1[j]
                    });
                    if j != k {
                        assert(channels@[j] == prior[j]);
                        assert(pair_views(channels@)[j] == pv[j]);
                    }
                }
            }
            k = k + 1;
        }
        proof {
            let ds = pair_views(channels@);
            lemma_map_forgotten(cs1, ds, plugin);
            assert(channel_map(ds) =~= forget_in(old(self)@, id@, plugin));
            assert forall|j: int, e: int| 0 <= j < channels@.len() && 0 <= e < ds[j].1.subscriptions.len() implies distinct_subs(#[trigger] ds[j].1.subscriptions[e]) by {
                lemma_without_plugin(cs1[j].1.subscriptions[e], plugin);
            }
        }
        self.channels = channels;
        proof {
            self.lemma_subs_distinct();
        }
    }

    /// Takes the queued messages of event `event` of the plugin `id` off its
    /// queue, oldest first, to be published: the tokens their payloads are
    /// kept under. None for an unknown plugin.
    pub fn take_pending(&mut self, id: &str, event: usize) -> (r: Option<Vec<u64>>)
        ensures
            !old(self)@.contains_key(id@) ==> r is None && final(self)@ == old(self)@,
            old(self)@.contains_key(id@) ==> {
                &&& r matches Some(tokens) && tokens@ == tokens_of(old(self)@[id@].queue, event)
                &&& final(self)@ == old(self)@.insert(
                    id@,
                    ChannelView { queue: others_of(old(self)@[id@].queue, event), ..old(self)@[id@] },
                )
            },
            subs_distinct(final(self)@),
    {
        proof {
            use_type_invariant(&*self);
            self.lemma_subs_distinct();
        }
        let key = id.to_owned();
        let i = match self.find(&key) {
            Some(i) => i,
            None => {
                return None;
            },
        };
        proof {
            self.lemma_found(id@, i as int);
        }
        let mut channels: Vec<(String, Channel)> = Vec::new();
        std::mem::swap(&mut channels, &mut self.channels);
        let ghost cs0 = pair_views(channels@);
        let ghost all0 = channels@;
        let (name, mut channel) = channels.remove(i);
        let ghost c0 = channel@;
        let ghost q = channel.queue@;
        let mut tokens: Vec<u64> = Vec::new();
        let mut keep: Vec<Pending> = Vec::new();
        let mut n: usize = 0;
        while n < channel.queue.len()
            invariant
                n <= q.len(),
                channel.queue@ == q,
                tokens@ == tokens_of(q.take(n as int), event),
                keep@ == others_of(q.take(n as int), event),
            decreases q.len() - n,
        {
            let pending = channel.queue[n];
            proof {
                assert(q.take(n + 1) =~= q.take(n as int).push(q[n as int]));
                assert(q.take(n + 1).drop_last() =~= q.take(n as int));
            }
            if pending.event == event {
                tokens.push(pending.token);
            } else {
                keep.push(pending);
            }
            n = n + 1;
        }
        proof {
            assert(q.take(q.len() as int) =~= q);
        }
        channel.queue = keep;
        let ghost c1 = channel@;
        proof {
            assert(c1 == ChannelView { queue: others_of(c0.queue, event), ..c0 });
        }
        channels.insert(i, (name, channel));
        proof {
            assert(channels@ =~= all0.update(i as int, (name, channel)));
            assert(pair_views(channels@) =~= cs0.update(i as int, (cs0[i as int].0, c1)));
            lemma_map_update(cs0, i as int, c1);
            let cs = pair_views(channels@);
            assert forall|j: int, e: int| 0 <= j < channels@.len() && 0 <= e < cs[j].1.subscriptions.len() implies distinct_subs(#[trigger] cs[j].1.subscriptions[e]) by {
                if j != i {
                    assert(cs[j] == cs0[j]);
                } else {
                    assert(cs[j].1.subscriptions[e] == cs0[j].1.subscriptions[e]);
                }
            }
        }
        self.channels = channels;
        proof {
            self.lemma_subs_distinct();
        }
        Some(tokens)
    }

    /// The subscriptions of event `event` of the plugin `id`, to invoke with
    /// what it publishes; None for an unknown plugin or event.
    pub fn subscriptions(&self, id: &str, event: usize) -> (r: Option<&Vec<Subscription>>)
        ensures
            match r {
                Some(v) => has_event(self@, id@, event as int) && sub_views(*v) == self@[id@].subscriptions[event as int],
                None => !has_event(self@, id@, event as int),
            },
    {
        proof {
            use_type_invariant(self);
        }
        let key = id.to_owned();
        let i = match self.find(&key) {
            Some(i) => i,
            None => {
                return None;
            },
        };
        proof {
            self.lemma_found(id@, i as int);
        }
        if event >= self.channels[i].1.subscriptions.len() {
            return None;
        }
        Some(&self.channels[i].1.subscriptions[event])
    }
}

} // verus!
