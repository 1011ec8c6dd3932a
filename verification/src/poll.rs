use std::collections::HashMap;
use vstd::prelude::*;

use crate::channel::{
    batch_text, render_batch_message, TidepoolChannelConfig, TidepoolMessageRow,
    TidepoolReplyMetadata, TidepoolSubscriptionRow,
};
use crate::text::{decimal, owned, push_decimal};

verus! {

broadcast use vstd::std_specs::hash::group_hash_axioms, vstd::string::group_string_axioms;

/// The last sequence number the channel has handed on for a domain (zero when none).
pub open spec fn cursor_of(cursors: Map<u64, u64>, domain_id: u64) -> u64 {
    if cursors.contains_key(domain_id) {
        cursors[domain_id]
    } else {
        0
    }
}

/// A message past its domain's cursor.
pub open spec fn is_unseen(m: TidepoolMessageRow, cursors: Map<u64, u64>) -> bool {
    m.domain_sequence > cursor_of(cursors, m.domain_id)
}

/// A message the channel shows: any message when the caller's own are wanted, else
/// only those of other authors.
pub open spec fn is_shown(m: TidepoolMessageRow, account_id: u64, emit_self_messages: bool) -> bool {
    emit_self_messages || m.author_account_id != account_id
}

/// A message the channel has not handed on yet, and that it hands on at all: past
/// its domain's cursor, and not the caller's own unless those are wanted.
pub open spec fn is_pending(
    m: TidepoolMessageRow,
    cursors: Map<u64, u64>,
    account_id: u64,
    emit_self_messages: bool,
) -> bool {
    &&& is_unseen(m, cursors)
    &&& is_shown(m, account_id, emit_self_messages)
}

/// The messages past their domain's cursor, in the order given.
pub open spec fn unseen(messages: Seq<TidepoolMessageRow>, cursors: Map<u64, u64>) -> Seq<
    TidepoolMessageRow,
> {
    messages.filter(|m: TidepoolMessageRow| is_unseen(m, cursors))
}

/// The messages still to hand on, in the order given: the unseen ones, then without
/// the caller's own unless those are wanted.
pub open spec fn pending(
    messages: Seq<TidepoolMessageRow>,
    cursors: Map<u64, u64>,
    account_id: u64,
    emit_self_messages: bool,
) -> Seq<TidepoolMessageRow> {
    unseen(messages, cursors).filter(
        |m: TidepoolMessageRow| is_shown(m, account_id, emit_self_messages),
    )
}

/// Messages are ordered by domain, then by sequence number within a domain.
pub open spec fn key_le(a: TidepoolMessageRow, b: TidepoolMessageRow) -> bool {
    a.domain_id < b.domain_id || (a.domain_id == b.domain_id && a.domain_sequence
        <= b.domain_sequence)
}

/// A message put into an ordered list after every message that does not come after it.
pub open spec fn insert_ordered(s: Seq<TidepoolMessageRow>, m: TidepoolMessageRow) -> Seq<
    TidepoolMessageRow,
>
    decreases s.len(),
{
    if s.len() == 0 {
        seq![m]
    } else if key_le(s.last(), m) {
        s.push(m)
    } else {
        insert_ordered(s.drop_last(), m).push(s.last())
    }
}

/// The messages ordered by domain and sequence number, messages with equal keys
/// keeping their order (a stable sort).
pub open spec fn ordered(s: Seq<TidepoolMessageRow>) -> Seq<TidepoolMessageRow>
    decreases s.len(),
{
    if s.len() == 0 {
        s
    } else {
        insert_ordered(ordered(s.drop_last()), s.last())
    }
}

/// Consecutive messages of one domain gathered into one group, in order.
pub open spec fn group_by_domain(s: Seq<TidepoolMessageRow>) -> Seq<Seq<TidepoolMessageRow>>
    decreases s.len(),
{
    if s.len() == 0 {
        Seq::empty()
    } else {
        let groups = group_by_domain(s.drop_last());
        let m = s.last();
        if groups.len() > 0 && groups.last().last().domain_id == m.domain_id {
            groups.update(groups.len() - 1, groups.last().push(m))
        } else {
            groups.push(seq![m])
        }
    }
}

/// The index of the last subscription to a domain, or -1 when there is none.
pub open spec fn subscription_index(subscriptions: Seq<TidepoolSubscriptionRow>, domain_id: u64) -> int
    decreases subscriptions.len(),
{
    if subscriptions.len() == 0 {
        -1
    } else if subscriptions.last().domain_id == domain_id {
        subscriptions.len() - 1
    } else {
        subscription_index(subscriptions.drop_last(), domain_id)
    }
}

/// The messages one poll hands on: the pending ones, ordered, cut to the budget.
pub open spec fn poll_selection(
    config: TidepoolChannelConfig,
    account_id: u64,
    cursors: Map<u64, u64>,
    messages: Seq<TidepoolMessageRow>,
) -> Seq<TidepoolMessageRow> {
    let s = ordered(pending(messages, cursors, account_id, config.emit_self_messages));
    if config.max_messages_per_poll < s.len() {
        s.take(config.max_messages_per_poll as int)
    } else {
        s
    }
}

/// Whether a poll gets as far as handing messages on (and then stores its cursors):
/// there are subscriptions and pending messages.
pub open spec fn poll_proceeds(
    config: TidepoolChannelConfig,
    account_id: u64,
    subscriptions: Seq<TidepoolSubscriptionRow>,
    cursors: Map<u64, u64>,
    messages: Seq<TidepoolMessageRow>,
) -> bool {
    subscriptions.len() > 0 && pending(
        messages,
        cursors,
        account_id,
        config.emit_self_messages,
    ).len() > 0
}

/// The groups of messages a poll emits, one per domain in increasing domain order,
/// leaving out domains without a subscription.
pub open spec fn poll_groups(
    config: TidepoolChannelConfig,
    account_id: u64,
    subscriptions: Seq<TidepoolSubscriptionRow>,
    cursors: Map<u64, u64>,
    messages: Seq<TidepoolMessageRow>,
) -> Seq<Seq<TidepoolMessageRow>> {
    if poll_proceeds(config, account_id, subscriptions, cursors, messages) {
        group_by_domain(poll_selection(config, account_id, cursors, messages)).filter(
            |g: Seq<TidepoolMessageRow>| subscription_index(subscriptions, g[0].domain_id) >= 0,
        )
    } else {
        Seq::empty()
    }
}

/// The cursors after a poll: each emitted domain's cursor moves to the sequence
/// number of the last message emitted for it.
pub open spec fn advanced_cursors(cursors: Map<u64, u64>, groups: Seq<Seq<TidepoolMessageRow>>) -> Map<
    u64,
    u64,
>
    decreases groups.len(),
{
    if groups.len() == 0 {
        cursors
    } else {
        advanced_cursors(cursors, groups.drop_last()).insert(
            groups.last()[0].domain_id,
            groups.last().last().domain_sequence,
        )
    }
}

/// The sender and thread name of a domain's batches.
pub open spec fn domain_thread(domain_id: u64) -> Seq<char> {
    "tidepool:domain:"@ + decimal(domain_id as nat)
}

/// A batch of messages handed to the agent.
#[derive(Debug)]
pub struct EmittedBatch {
    pub domain_id: u64,
    pub user_id: String,
    pub user_name: String,
    pub content: String,
    pub thread_id: String,
    pub metadata: TidepoolReplyMetadata,
    pub message_count: usize,
}

/// `b` is the batch for a group of messages of one domain under its subscription.
pub open spec fn batch_for(
    b: EmittedBatch,
    config: TidepoolChannelConfig,
    subscription: TidepoolSubscriptionRow,
    group: Seq<TidepoolMessageRow>,
) -> bool {
    let d = group[0].domain_id;
    let last = group.last();
    &&& b.domain_id == d
    &&& b.user_id@ == domain_thread(d)
    &&& b.thread_id@ == domain_thread(d)
    &&& b.user_name@ == subscription.title@
    &&& b.content@ == batch_text(subscription, group)
    &&& b.message_count == group.len()
    &&& b.metadata.base_url@ == config.base_url@
    &&& b.metadata.database@ == config.database@
    &&& b.metadata.domain_id == d
    &&& b.metadata.domain_title@ == subscription.title@
    &&& b.metadata.message_char_limit == subscription.message_char_limit
    &&& b.metadata.reply_to_message_id == Some(last.message_id)
    &&& b.metadata.last_seen_domain_sequence == last.domain_sequence
}

/// What one poll does: the batches to emit, in order, and whether the cursors are
/// stored afterwards; with how many messages passed the cursor filter and then the
/// author filter, and the domains whose messages are dropped for want of a
/// subscription.
#[derive(Debug)]
pub struct PollPlan {
    pub batches: Vec<EmittedBatch>,
    pub save_cursors: bool,
    pub unseen_count: usize,
    pub pending_count: usize,
    pub dropped_domain_ids: Vec<u64>,
}

/// The domains of a poll's groups that have no subscription, in increasing order;
/// their messages are dropped.
pub open spec fn poll_dropped(
    config: TidepoolChannelConfig,
    account_id: u64,
    subscriptions: Seq<TidepoolSubscriptionRow>,
    cursors: Map<u64, u64>,
    messages: Seq<TidepoolMessageRow>,
) -> Seq<u64> {
    if poll_proceeds(config, account_id, subscriptions, cursors, messages) {
        group_by_domain(poll_selection(config, account_id, cursors, messages)).filter(
            |g: Seq<TidepoolMessageRow>| subscription_index(subscriptions, g[0].domain_id) < 0,
        ).map_values(|g: Seq<TidepoolMessageRow>| g[0].domain_id)
    } else {
        Seq::empty()
    }
}

fn unseen_messages(messages: Vec<TidepoolMessageRow>, cursors: &HashMap<u64, u64>) -> (r: Vec<
    TidepoolMessageRow,
>)
    ensures
        r@ == unseen(messages@, cursors@),
{
    let ghost all = messages@;
    let ghost p = |m: TidepoolMessageRow| is_unseen(m, cursors@);
    let mut rest = messages;
    let mut kept: Vec<TidepoolMessageRow> = Vec::new();
    assert(all.take(0).filter(p) =~= Seq::<TidepoolMessageRow>::empty()) by {
        reveal_with_fuel(Seq::filter, 1);
    }
    while rest.len() > 0
        invariant
            rest@ == all.skip(all.len() - rest@.len()),
            rest@.len() <= all.len(),
            kept@ == all.take(all.len() - rest@.len()).filter(p),
            p == (|m: TidepoolMessageRow| is_unseen(m, cursors@)),
        decreases rest.len(),
    {
        let ghost k = all.len() - rest@.len();
        let m = rest.remove(0);
        proof {
            assert(all.take(k + 1) =~= all.take(k).push(m));
            all.take(k).lemma_filter_push(m, p);
            assert(rest@ =~= all.skip(all.len() - rest@.len()));
        }
        let cursor = match cursors.get(&m.domain_id) {
            Some(c) => *c,
            None => 0,
        };
        if m.domain_sequence > cursor {
            kept.push(m);
        }
    }
    assert(all.take(all.len() as int) =~= all);
    kept
}

fn shown_messages(messages: Vec<TidepoolMessageRow>, account_id: u64, emit_self_messages: bool) -> (r:
    Vec<TidepoolMessageRow>)
    ensures
        r@ == messages@.filter(|m: TidepoolMessageRow| is_shown(m, account_id, emit_self_messages)),
{
    let ghost all = messages@;
    let ghost p = |m: TidepoolMessageRow| is_shown(m, account_id, emit_self_messages);
    let mut rest = messages;
    let mut kept: Vec<TidepoolMessageRow> = Vec::new();
    assert(all.take(0).filter(p) =~= Seq::<TidepoolMessageRow>::empty()) by {
        reveal_with_fuel(Seq::filter, 1);
    }
    while rest.len() > 0
        invariant
            rest@ == all.skip(all.len() - rest@.len()),
            rest@.len() <= all.len(),
            kept@ == all.take(all.len() - rest@.len()).filter(p),
            p == (|m: TidepoolMessageRow| is_shown(m, account_id, emit_self_messages)),
        decreases rest.len(),
    {
        let ghost k = all.len() - rest@.len();
        let m = rest.remove(0);
        proof {
            assert(all.take(k + 1) =~= all.take(k).push(m));
            all.take(k).lemma_filter_push(m, p);
            assert(rest@ =~= all.skip(all.len() - rest@.len()));
        }
        if emit_self_messages || m.author_account_id != account_id {
            kept.push(m);
        }
    }
    assert(all.take(all.len() as int) =~= all);
    kept
}

/// The position at which `insert_ordered` puts a message: after the last message
/// that does not come after it.
proof fn lemma_insert_ordered_at(s: Seq<TidepoolMessageRow>, m: TidepoolMessageRow, j: int)
    requires
        0 <= j <= s.len(),
        j == 0 || key_le(s[j - 1], m),
        forall|k: int| j <= k < s.len() ==> !key_le(#[trigger] s[k], m),
    ensures
        insert_ordered(s, m) == s.take(j).push(m) + s.skip(j),
    decreases s.len(),
{
    if s.len() == 0 {
        assert(s.take(j).push(m) + s.skip(j) =~= seq![m]);
    } else if key_le(s.last(), m) {
        assert(j == s.len());
        assert(s.take(j).push(m) + s.skip(j) =~= s.push(m));
    } else {
        lemma_insert_ordered_at(s.drop_last(), m, j);
        assert(s.drop_last().take(j).push(m) + s.drop_last().skip(j) + seq![s.last()]
            =~= s.take(j).push(m) + s.skip(j));
        assert((s.drop_last().take(j).push(m) + s.drop_last().skip(j)).push(s.last())
            =~= s.drop_last().take(j).push(m) + s.drop_last().skip(j) + seq![s.last()]);
    }
}

/// Sorts messages by domain and then sequence number, keeping the order of equal keys.
fn sort_messages(messages: Vec<TidepoolMessageRow>) -> (r: Vec<TidepoolMessageRow>)
    ensures
        r@ == ordered(messages@),
{
    let ghost all = messages@;
    let mut rest = messages;
    let mut sorted: Vec<TidepoolMessageRow> = Vec::new();
    assert(all.take(0) =~= Seq::<TidepoolMessageRow>::empty());
    while rest.len() > 0
        invariant
            rest@ == all.skip(all.len() - rest@.len()),
            rest@.len() <= all.len(),
            sorted@ == ordered(all.take(all.len() - rest@.len())),
        decreases rest.len(),
    {
        let ghost k = all.len() - rest@.len();
        let m = rest.remove(0);
        proof {
            assert(all.take(k + 1).drop_last() =~= all.take(k));
            assert(rest@ =~= all.skip(all.len() - rest@.len()));
        }
        let mut j: usize = sorted.len();
        while j > 0 && !(sorted[j - 1].domain_id < m.domain_id || (sorted[j - 1].domain_id
            == m.domain_id && sorted[j - 1].domain_sequence <= m.domain_sequence))
            invariant
                j <= sorted@.len(),
                forall|i: int| j <= i < sorted@.len() ==> !key_le(#[trigger] sorted@[i], m),
            decreases j,
        {
            j -= 1;
        }
        proof {
            lemma_insert_ordered_at(sorted@, m, j as int);
            assert(sorted@.insert(j as int, m) =~= sorted@.take(j as int).push(m) + sorted@.skip(
                j as int,
            ));
        }
        sorted.insert(j, m);
    }
    assert(all.take(all.len() as int) =~= all);
    sorted
}

/// The groups of a list of groups, each taken by its view.
pub open spec fn groups_view(v: Seq<Vec<TidepoolMessageRow>>) -> Seq<Seq<TidepoolMessageRow>> {
    v.map_values(|g: Vec<TidepoolMessageRow>| g@)
}

/// Every group of `group_by_domain` holds at least one message.
pub proof fn lemma_groups_nonempty(s: Seq<TidepoolMessageRow>)
    ensures
        forall|i: int|
            0 <= i < group_by_domain(s).len() ==> #[trigger] group_by_domain(s)[i].len() > 0,
    decreases s.len(),
{
    if s.len() > 0 {
        lemma_groups_nonempty(s.drop_last());
        let groups = group_by_domain(s.drop_last());
        let m = s.last();
        if groups.len() > 0 && groups.last().last().domain_id == m.domain_id {
            let now = groups.update(groups.len() - 1, groups.last().push(m));
            assert forall|i: int| 0 <= i < now.len() implies #[trigger] now[i].len() > 0 by {
                if i < groups.len() - 1 {
                    assert(now[i] == groups[i]);
                }
            }
        } else {
            let now = groups.push(seq![m]);
            assert forall|i: int| 0 <= i < now.len() implies #[trigger] now[i].len() > 0 by {
                if i < groups.len() {
                    assert(now[i] == groups[i]);
                }
            }
        }
    }
}

fn group_messages(messages: Vec<TidepoolMessageRow>) -> (r: Vec<Vec<TidepoolMessageRow>>)
    ensures
        groups_view(r@) == group_by_domain(messages@),
{
    let ghost all = messages@;
    let mut rest = messages;
    let mut groups: Vec<Vec<TidepoolMessageRow>> = Vec::new();
    assert(all.take(0) =~= Seq::<TidepoolMessageRow>::empty());
    assert(groups_view(groups@) =~= Seq::empty());
    while rest.len() > 0
        invariant
            rest@ == all.skip(all.len() - rest@.len()),
            rest@.len() <= all.len(),
            groups_view(groups@) == group_by_domain(all.take(all.len() - rest@.len())),
        decreases rest.len(),
    {
        let ghost k = all.len() - rest@.len();
        let ghost before = groups_view(groups@);
        let m = rest.remove(0);
        proof {
            assert(all.take(k + 1).drop_last() =~= all.take(k));
            assert(all.take(k + 1).last() == m);
            assert(rest@ =~= all.skip(all.len() - rest@.len()));
            lemma_groups_nonempty(all.take(k));
        }
        let n = groups.len();
        let joins = if n > 0 {
            let last = &groups[n - 1];
            assert(last@ == before[n - 1]);
            last[last.len() - 1].domain_id == m.domain_id
        } else {
            false
        };
        if joins {
            let mut last = groups.pop().unwrap();
            last.push(m);
            groups.push(last);
            assert(groups_view(groups@) =~= before.update(before.len() - 1, before.last().push(m)));
        } else {
            let mut single: Vec<TidepoolMessageRow> = Vec::new();
            single.push(m);
            assert(single@ =~= seq![m]);
            groups.push(single);
            assert(groups_view(groups@) =~= before.push(seq![m]));
        }
    }
    assert(all.take(all.len() as int) =~= all);
    groups
}

/// Finds the last subscription to a domain.
fn find_subscription(subscriptions: &[TidepoolSubscriptionRow], domain_id: u64) -> (r: Option<
    usize,
>)
    ensures
        match r {
            Some(i) => i == subscription_index(subscriptions@, domain_id) && i
                < subscriptions@.len(),
            None => subscription_index(subscriptions@, domain_id) < 0,
        },
{
    let mut j: usize = subscriptions.len();
    assert(subscriptions@.take(j as int) =~= subscriptions@);
    while j > 0
        invariant
            j <= subscriptions@.len(),
            subscription_index(subscriptions@, domain_id) == subscription_index(
                subscriptions@.take(j as int),
                domain_id,
            ),
        decreases j,
    {
        assert(subscriptions@.take(j as int).drop_last() =~= subscriptions@.take(j as int - 1));
        if subscriptions[j - 1].domain_id == domain_id {
            return Some(j - 1);
        }
        j -= 1;
    }
    None
}

/// Builds the batch for a group of messages of one domain.
fn make_batch(
    config: &TidepoolChannelConfig,
    subscription: &TidepoolSubscriptionRow,
    group: &[TidepoolMessageRow],
) -> (b: EmittedBatch)
    requires
        group@.len() > 0,
    ensures
        batch_for(b, *config, *subscription, group@),
{
    let domain_id = group[0].domain_id;
    let last = &group[group.len() - 1];
    let mut user_id = owned("tidepool:domain:");
    push_decimal(&mut user_id, domain_id);
    let mut thread_id = owned("tidepool:domain:");
    push_decimal(&mut thread_id, domain_id);
    let metadata = TidepoolReplyMetadata {
        base_url: config.base_url.clone(),
        database: config.database.clone(),
        domain_id,
        domain_title: subscription.title.clone(),
        message_char_limit: subscription.message_char_limit,
        reply_to_message_id: Some(last.message_id),
        last_seen_domain_sequence: last.domain_sequence,
    };
    EmittedBatch {
        domain_id,
        user_id,
        user_name: subscription.title.clone(),
        content: render_batch_message(subscription, group),
        thread_id,
        metadata,
        message_count: group.len(),
    }
}

/// Decides what one poll emits. The pending messages (past their domain's cursor,
/// and not the caller's own unless configured) are ordered by domain and sequence
/// number, cut to the poll's budget and grouped by domain; each group whose domain
/// has a subscription becomes one batch, and its domain's cursor moves to the last
/// message of the group. With no subscription or no pending message nothing is
/// emitted and the cursors are not stored.
pub fn plan_poll(
    config: &TidepoolChannelConfig,
    account_id: u64,
    subscriptions: &[TidepoolSubscriptionRow],
    cursors: &mut HashMap<u64, u64>,
    messages: Vec<TidepoolMessageRow>,
) -> (plan: PollPlan)
    ensures
        plan.save_cursors == poll_proceeds(
            *config,
            account_id,
            subscriptions@,
            old(cursors)@,
            messages@,
        ),
        ({
            let groups = poll_groups(*config, account_id, subscriptions@, old(cursors)@, messages@);
            &&& plan.batches@.len() == groups.len()
            &&& forall|i: int|
                0 <= i < groups.len() ==> batch_for(
                    #[trigger] plan.batches@[i],
                    *config,
                    subscriptions@[subscription_index(subscriptions@, groups[i][0].domain_id)],
                    groups[i],
                )
            &&& final(cursors)@ == advanced_cursors(old(cursors)@, groups)
        }),
        plan.dropped_domain_ids@ == poll_dropped(
            *config,
            account_id,
            subscriptions@,
            old(cursors)@,
            messages@,
        ),
        subscriptions@.len() > 0 ==> plan.unseen_count == unseen(messages@, old(cursors)@).len()
            && plan.pending_count == pending(
            messages@,
            old(cursors)@,
            account_id,
            config.emit_self_messages,
        ).len(),
        subscriptions@.len() == 0 ==> plan.unseen_count == 0 && plan.pending_count == 0,
{
    let ghost old_cursors = cursors@;
    let ghost all = messages@;
    let mut batches: Vec<EmittedBatch> = Vec::new();
    let mut dropped_domain_ids: Vec<u64> = Vec::new();
    if subscriptions.len() == 0 {
        return PollPlan {
            batches,
            save_cursors: false,
            unseen_count: 0,
            pending_count: 0,
            dropped_domain_ids,
        };
    }
    let fresh = unseen_messages(messages, cursors);
    let unseen_count = fresh.len();
    let pending = shown_messages(fresh, account_id, config.emit_self_messages);
    let pending_count = pending.len();
    if pending.len() == 0 {
        return PollPlan {
            batches,
            save_cursors: false,
            unseen_count,
            pending_count,
            dropped_domain_ids,
        };
    }
    let mut selected = sort_messages(pending);
    if config.max_messages_per_poll < selected.len() {
        selected.truncate(config.max_messages_per_poll);
    }
    assert(selected@ == poll_selection(*config, account_id, old_cursors, all));
    let groups = group_messages(selected);
    let ghost gs = groups_view(groups@);
    let ghost keep = |g: Seq<TidepoolMessageRow>|
        subscription_index(subscriptions@, g[0].domain_id) >= 0;
    let ghost lose = |g: Seq<TidepoolMessageRow>|
        subscription_index(subscriptions@, g[0].domain_id) < 0;
    let ghost first = |g: Seq<TidepoolMessageRow>| g[0].domain_id;
    proof {
        lemma_groups_nonempty(poll_selection(*config, account_id, old_cursors, all));
        reveal_with_fuel(Seq::filter, 1);
        assert(gs.take(0).filter(keep) =~= Seq::<Seq<TidepoolMessageRow>>::empty());
        assert(gs.take(0).filter(lose) =~= Seq::<Seq<TidepoolMessageRow>>::empty());
        assert(gs.take(0).filter(lose).map_values(first) =~= Seq::<u64>::empty());
    }
    let mut i: usize = 0;
    while i < groups.len()
        invariant
            i <= groups@.len(),
            gs == groups_view(groups@),
            forall|k: int| 0 <= k < gs.len() ==> #[trigger] gs[k].len() > 0,
            keep == (|g: Seq<TidepoolMessageRow>|
                subscription_index(subscriptions@, g[0].domain_id) >= 0),
            batches@.len() == gs.take(i as int).filter(keep).len(),
            forall|k: int|
                0 <= k < batches@.len() ==> batch_for(
                    #[trigger] batches@[k],
                    *config,
                    subscriptions@[subscription_index(
                        subscriptions@,
                        gs.take(i as int).filter(keep)[k][0].domain_id,
                    )],
                    gs.take(i as int).filter(keep)[k],
                ),
            cursors@ == advanced_cursors(old_cursors, gs.take(i as int).filter(keep)),
            lose == (|g: Seq<TidepoolMessageRow>|
                subscription_index(subscriptions@, g[0].domain_id) < 0),
            first == (|g: Seq<TidepoolMessageRow>| g[0].domain_id),
            dropped_domain_ids@ == gs.take(i as int).filter(lose).map_values(first),
        decreases groups.len() - i,
    {
        let ghost g = gs[i as int];
        let ghost done = gs.take(i as int).filter(keep);
        proof {
            assert(gs.take(i as int + 1) =~= gs.take(i as int).push(g));
            gs.take(i as int).lemma_filter_push(g, keep);
            gs.take(i as int).lemma_filter_push(g, lose);
        }
        let ghost lost = gs.take(i as int).filter(lose);
        let group = &groups[i];
        assert(group@ == g);
        let domain_id = group[0].domain_id;
        match find_subscription(subscriptions, domain_id) {
            Some(s) => {
                let batch = make_batch(config, &subscriptions[s], group.as_slice());
                let last_sequence = group[group.len() - 1].domain_sequence;
                cursors.insert(domain_id, last_sequence);
                let ghost prev = batches@;
                batches.push(batch);
                proof {
                    let now = done.push(g);
                    assert(now.drop_last() =~= done);
                    assert forall|k: int| 0 <= k < batches@.len() implies batch_for(
                        #[trigger] batches@[k],
                        *config,
                        subscriptions@[subscription_index(subscriptions@, now[k][0].domain_id)],
                        now[k],
                    ) by {
                        if k < done.len() {
                            assert(batches@[k] == prev[k]);
                        }
                    }
                }
            },
            None => {
                dropped_domain_ids.push(domain_id);
                assert(lost.push(g).map_values(first) =~= lost.map_values(first).push(
                    g[0].domain_id,
                ));
            },
        }
        i += 1;
    }
    assert(gs.take(groups@.len() as int) =~= gs);
    PollPlan { batches, save_cursors: true, unseen_count, pending_count, dropped_domain_ids }
}

} // verus!
