use vstd::prelude::*;
use vstd::seq_lib::group_to_multiset_ensures;

use crate::channel::{
    account_from_rows_spec, messages_from_rows_spec, subscriptions_from_rows_spec, MessageFields,
    SqlCell, SqlRow, SubscriptionFields, clamped_body, TidepoolChannelConfig, TidepoolMessageRow, TidepoolSubscriptionRow,
};
use crate::text::{decimal, is_white_space, trim, trim_end, trim_start};
use crate::validation::body_error;
use crate::poll::{
    batch_for, EmittedBatch,
    advanced_cursors, cursor_of, group_by_domain, insert_ordered, is_pending, is_shown, is_unseen,
    key_le, ordered, unseen,
    pending, poll_groups, poll_proceeds, poll_selection, subscription_index,
};

verus! {

/// Messages in order of domain, then sequence number.
pub open spec fn is_ordered(s: Seq<TidepoolMessageRow>) -> bool {
    forall|i: int, j: int| 0 <= i < j < s.len() ==> key_le(#[trigger] s[i], #[trigger] s[j])
}

/// Groups of messages as a poll forms them: none empty; each of one domain, in
/// sequence order; the domains strictly increasing from group to group.
pub open spec fn groups_wf(groups: Seq<Seq<TidepoolMessageRow>>) -> bool {
    &&& forall|i: int| 0 <= i < groups.len() ==> #[trigger] groups[i].len() > 0
    &&& forall|i: int, k: int|
        0 <= i < groups.len() && 0 <= k < groups[i].len() ==> #[trigger] groups[i][k].domain_id
            == groups[i][0].domain_id
    &&& forall|i: int, a: int, b: int|
        0 <= i < groups.len() && 0 <= a < b < groups[i].len() ==> #[trigger] groups[i][a].domain_sequence
            <= #[trigger] groups[i][b].domain_sequence
    &&& forall|i: int, j: int|
        0 <= i < j < groups.len() ==> #[trigger] groups[i][0].domain_id
            < #[trigger] groups[j][0].domain_id
}

/// The number of messages in a list of groups.
pub open spec fn total_len(groups: Seq<Seq<TidepoolMessageRow>>) -> nat
    decreases groups.len(),
{
    if groups.len() == 0 {
        0
    } else {
        total_len(groups.drop_last()) + groups.last().len()
    }
}

/// Inserting into an ordered list adds the message to its multiset and keeps the
/// list ordered.
proof fn lemma_insert_ordered(s: Seq<TidepoolMessageRow>, m: TidepoolMessageRow)
    ensures
        insert_ordered(s, m).to_multiset() == s.to_multiset().insert(m),
        is_ordered(s) ==> is_ordered(insert_ordered(s, m)),
    decreases s.len(),
{
    broadcast use group_to_multiset_ensures;
    broadcast use vstd::multiset::group_multiset_axioms;

    if s.len() == 0 {
        assert(seq![m] =~= Seq::<TidepoolMessageRow>::empty().push(m));
    } else if key_le(s.last(), m) {
        assert(s.drop_last().push(s.last()) =~= s);
        if is_ordered(s) {
            let r = s.push(m);
            assert forall|i: int, j: int| 0 <= i < j < r.len() implies key_le(
                #[trigger] r[i],
                #[trigger] r[j],
            ) by {
                if j == s.len() && i < s.len() - 1 {
                    assert(key_le(s[i], s[s.len() - 1]));
                }
            }
        }
    } else {
        let p = s.drop_last();
        let x = s.last();
        lemma_insert_ordered(p, m);
        assert(p.push(x) =~= s);
        let r0 = insert_ordered(p, m);
        assert(r0.push(x).to_multiset() =~= s.to_multiset().insert(m));
        if is_ordered(s) {
            assert(is_ordered(p)) by {
                assert forall|i: int, j: int| 0 <= i < j < p.len() implies key_le(
                    #[trigger] p[i],
                    #[trigger] p[j],
                ) by {
                    assert(p[i] == s[i] && p[j] == s[j]);
                }
            }
            let r = r0.push(x);
            assert forall|i: int, j: int| 0 <= i < j < r.len() implies key_le(
                #[trigger] r[i],
                #[trigger] r[j],
            ) by {
                if j == r0.len() {
                    let y = r0[i];
                    assert(r0.to_multiset().count(y) > 0);
                    if y != m {
                        assert(p.to_multiset().count(y) > 0);
                        assert(p.contains(y));
                        let k = choose|k: int| 0 <= k < p.len() && p[k] == y;
                        assert(s[k] == y);
                        assert(key_le(s[k], s[s.len() - 1]));
                    }
                }
            }
        }
    }
}

/// `ordered` is a sorted permutation of its input: it holds the same messages,
/// each as often, in order of domain and sequence number.
pub proof fn law_ordered_is_sorted_permutation(s: Seq<TidepoolMessageRow>)
    ensures
        ordered(s).to_multiset() == s.to_multiset(),
        is_ordered(ordered(s)),
    decreases s.len(),
{
    broadcast use group_to_multiset_ensures;

    if s.len() > 0 {
        law_ordered_is_sorted_permutation(s.drop_last());
        lemma_insert_ordered(ordered(s.drop_last()), s.last());
        assert(s.drop_last().push(s.last()) =~= s);
    }
}

/// Grouping an ordered list of messages by domain keeps every message, in order, and
/// forms well-formed groups whose last message is the list's last.
pub proof fn law_grouping_keeps_messages(t: Seq<TidepoolMessageRow>)
    requires
        is_ordered(t),
    ensures
        groups_wf(group_by_domain(t)),
        total_len(group_by_domain(t)) == t.len(),
        forall|i: int, k: int|
            0 <= i < group_by_domain(t).len() && 0 <= k < group_by_domain(t)[i].len()
                ==> t.contains(#[trigger] group_by_domain(t)[i][k]),
        t.len() > 0 ==> group_by_domain(t).len() > 0 && group_by_domain(t).last().last()
            == t.last(),
    decreases t.len(),
{
    if t.len() > 0 {
        let p = t.drop_last();
        let m = t.last();
        assert(is_ordered(p)) by {
            assert forall|i: int, j: int| 0 <= i < j < p.len() implies key_le(
                #[trigger] p[i],
                #[trigger] p[j],
            ) by {
                assert(p[i] == t[i] && p[j] == t[j]);
            }
        }
        law_grouping_keeps_messages(p);
        let gs = group_by_domain(p);
        let n = gs.len();
        if n > 0 {
            assert(key_le(t[t.len() - 2], t[t.len() - 1]));
        }
        if n > 0 && gs.last().last().domain_id == m.domain_id {
            let g = gs.last().push(m);
            let now = gs.update(n - 1, g);
            assert(now.drop_last() =~= gs.drop_last());
            assert forall|i: int, k: int|
                0 <= i < now.len() && 0 <= k < now[i].len() implies #[trigger] now[i][k].domain_id
                == now[i][0].domain_id by {
                if i < n - 1 {
                    assert(now[i] == gs[i]);
                }
            }
            assert forall|i: int, a: int, b: int|
                0 <= i < now.len() && 0 <= a < b < now[i].len() implies #[trigger] now[i][a].domain_sequence
                <= #[trigger] now[i][b].domain_sequence by {
                if i < n - 1 {
                    assert(now[i] == gs[i]);
                } else if b == g.len() - 1 && a < b - 1 {
                    assert(gs[n - 1][a].domain_sequence <= gs[n - 1][b - 1].domain_sequence);
                }
            }
            assert forall|i: int, j: int| 0 <= i < j < now.len() implies #[trigger] now[i][0].domain_id
                < #[trigger] now[j][0].domain_id by {
                assert(now[i][0] == gs[i][0]);
                assert(now[j][0] == gs[j][0]);
            }
            assert forall|i: int, k: int|
                0 <= i < now.len() && 0 <= k < now[i].len() implies t.contains(
                #[trigger] now[i][k],
            ) by {
                if i < n - 1 || k < now[i].len() - 1 {
                    assert(now[i][k] == gs[i][k]);
                    assert(p.contains(gs[i][k]));
                    let q = choose|q: int| 0 <= q < p.len() && p[q] == gs[i][k];
                    assert(t[q] == gs[i][k]);
                } else {
                    assert(t[t.len() - 1] == m);
                }
            }
            assert forall|i: int| 0 <= i < now.len() implies #[trigger] now[i].len() > 0 by {
                if i < n - 1 {
                    assert(now[i] == gs[i]);
                }
            }
        } else {
            let now = gs.push(seq![m]);
            assert(now.drop_last() =~= gs);
            if n > 0 {
                assert(gs[n - 1][gs[n - 1].len() - 1].domain_id == gs[n - 1][0].domain_id);
            }
            assert forall|i: int, k: int|
                0 <= i < now.len() && 0 <= k < now[i].len() implies #[trigger] now[i][k].domain_id
                == now[i][0].domain_id by {
                if i < n {
                    assert(now[i] == gs[i]);
                }
            }
            assert forall|i: int, a: int, b: int|
                0 <= i < now.len() && 0 <= a < b < now[i].len() implies #[trigger] now[i][a].domain_sequence
                <= #[trigger] now[i][b].domain_sequence by {
                if i < n {
                    assert(now[i] == gs[i]);
                }
            }
            assert forall|i: int, j: int| 0 <= i < j < now.len() implies #[trigger] now[i][0].domain_id
                < #[trigger] now[j][0].domain_id by {
                assert(now[i] == gs[i]);
                if j < n {
                    assert(now[j] == gs[j]);
                } else if i < n - 1 {
                    assert(gs[i][0].domain_id < gs[n - 1][0].domain_id);
                }
            }
            assert forall|i: int, k: int|
                0 <= i < now.len() && 0 <= k < now[i].len() implies t.contains(
                #[trigger] now[i][k],
            ) by {
                if i < n {
                    assert(now[i] == gs[i]);
                    assert(p.contains(gs[i][k]));
                    let q = choose|q: int| 0 <= q < p.len() && p[q] == gs[i][k];
                    assert(t[q] == gs[i][k]);
                } else {
                    assert(t[t.len() - 1] == m);
                }
            }
            assert forall|i: int| 0 <= i < now.len() implies #[trigger] now[i].len() > 0 by {
                if i < n {
                    assert(now[i] == gs[i]);
                }
            }
        }
    }
}

/// A prefix of well-formed groups is well formed.
proof fn lemma_groups_wf_prefix(groups: Seq<Seq<TidepoolMessageRow>>)
    requires
        groups_wf(groups),
        groups.len() > 0,
    ensures
        groups_wf(groups.drop_last()),
{
    let q = groups.drop_last();
    assert forall|i: int| 0 <= i < q.len() implies q[i] == groups[i] by {}
}

/// Keeping some groups of a well-formed list keeps it well formed, keeps only groups
/// of the list, and adds no message.
proof fn lemma_filter_groups(
    groups: Seq<Seq<TidepoolMessageRow>>,
    keep: spec_fn(Seq<TidepoolMessageRow>) -> bool,
)
    requires
        groups_wf(groups),
    ensures
        groups_wf(groups.filter(keep)),
        total_len(groups.filter(keep)) <= total_len(groups),
        forall|i: int|
            0 <= i < groups.filter(keep).len() ==> groups.contains(#[trigger] groups.filter(keep)[i]),
    decreases groups.len(),
{
    if groups.len() == 0 {
        reveal(Seq::filter);
        assert(groups.filter(keep).len() == 0);
    } else {
        let q = groups.drop_last();
        let g = groups.last();
        lemma_groups_wf_prefix(groups);
        lemma_filter_groups(q, keep);
        assert(q.push(g) =~= groups);
        q.lemma_filter_push(g, keep);
        let f = q.filter(keep);
        assert forall|i: int| 0 <= i < f.len() implies groups.contains(#[trigger] f[i]) by {
            assert(q.contains(f[i]));
            let k = choose|k: int| 0 <= k < q.len() && q[k] == f[i];
            assert(groups[k] == f[i]);
        }
        if keep(g) {
            let now = f.push(g);
            assert(now.drop_last() =~= f);
            assert forall|i: int, j: int| 0 <= i < j < now.len() implies #[trigger] now[i][0].domain_id
                < #[trigger] now[j][0].domain_id by {
                assert(now[i] == f[i]);
                if j < f.len() {
                    assert(now[j] == f[j]);
                } else {
                    assert(q.contains(f[i]));
                    let k = choose|k: int| 0 <= k < q.len() && q[k] == f[i];
                    assert(groups[k] == f[i]);
                    assert(groups[k][0].domain_id < groups[groups.len() - 1][0].domain_id);
                }
            }
            assert forall|i: int| 0 <= i < now.len() implies groups.contains(#[trigger] now[i]) by {
                if i < f.len() {
                    assert(now[i] == f[i]);
                } else {
                    assert(groups[groups.len() - 1] == now[i]);
                }
            }
            assert forall|i: int| 0 <= i < now.len() implies #[trigger] now[i].len() > 0 by {
                assert(groups.contains(now[i]));
            }
            assert forall|i: int, k: int|
                0 <= i < now.len() && 0 <= k < now[i].len() implies #[trigger] now[i][k].domain_id
                == now[i][0].domain_id by {
                assert(groups.contains(now[i]));
                let x = choose|x: int| 0 <= x < groups.len() && groups[x] == now[i];
                assert(groups[x][k].domain_id == groups[x][0].domain_id);
            }
            assert forall|i: int, a: int, b: int|
                0 <= i < now.len() && 0 <= a < b < now[i].len() implies #[trigger] now[i][a].domain_sequence
                <= #[trigger] now[i][b].domain_sequence by {
                assert(groups.contains(now[i]));
                let x = choose|x: int| 0 <= x < groups.len() && groups[x] == now[i];
                assert(groups[x][a].domain_sequence <= groups[x][b].domain_sequence);
            }
        }
    }
}

/// What the cursors are after a poll: each emitted domain's cursor is the sequence
/// number of the last message emitted for it; every other domain keeps its cursor.
proof fn lemma_advanced_cursors(cursors: Map<u64, u64>, groups: Seq<Seq<TidepoolMessageRow>>)
    requires
        groups_wf(groups),
    ensures
        forall|i: int|
            0 <= i < groups.len() ==> advanced_cursors(cursors, groups).contains_key(
                #[trigger] groups[i][0].domain_id,
            ) && advanced_cursors(cursors, groups)[groups[i][0].domain_id]
                == groups[i].last().domain_sequence,
        forall|d: u64|
            (forall|i: int| 0 <= i < groups.len() ==> #[trigger] groups[i][0].domain_id != d)
                ==> cursor_of(#[trigger] advanced_cursors(cursors, groups), d) == cursor_of(
                cursors,
                d,
            ),
    decreases groups.len(),
{
    if groups.len() > 0 {
        let q = groups.drop_last();
        lemma_groups_wf_prefix(groups);
        lemma_advanced_cursors(cursors, q);
        let n = groups.len();
        assert forall|i: int| 0 <= i < groups.len() implies advanced_cursors(
            cursors,
            groups,
        ).contains_key(#[trigger] groups[i][0].domain_id) && advanced_cursors(cursors, groups)[groups[i][0].domain_id]
            == groups[i].last().domain_sequence by {
            if i < n - 1 {
                assert(q[i] == groups[i]);
                assert(groups[i][0].domain_id < groups[n - 1][0].domain_id);
            }
        }
        assert forall|d: u64|
            (forall|i: int| 0 <= i < groups.len() ==> #[trigger] groups[i][0].domain_id != d)
                implies cursor_of(#[trigger] advanced_cursors(cursors, groups), d) == cursor_of(
            cursors,
            d,
        ) by {
            assert(groups[n - 1][0].domain_id != d);
            assert forall|i: int| 0 <= i < q.len() implies #[trigger] q[i][0].domain_id != d by {
                assert(q[i] == groups[i]);
                assert(groups[i][0].domain_id != d);
            }
        }
    }
}

/// A pending message is one of the messages and passes both filters.
proof fn lemma_pending_member(
    messages: Seq<TidepoolMessageRow>,
    cursors: Map<u64, u64>,
    account_id: u64,
    emit_self_messages: bool,
    x: TidepoolMessageRow,
)
    requires
        pending(messages, cursors, account_id, emit_self_messages).contains(x),
    ensures
        messages.contains(x),
        is_pending(x, cursors, account_id, emit_self_messages),
{
    let fresh = |m: TidepoolMessageRow| is_unseen(m, cursors);
    let shown = |m: TidepoolMessageRow| is_shown(m, account_id, emit_self_messages);
    let u = unseen(messages, cursors);
    let p = pending(messages, cursors, account_id, emit_self_messages);
    let b = choose|b: int| 0 <= b < p.len() && p[b] == x;
    u.lemma_filter_pred(shown, b);
    u.lemma_filter_contains_rev(shown, x);
    let c = choose|c: int| 0 <= c < u.len() && u[c] == x;
    messages.lemma_filter_pred(fresh, c);
    messages.lemma_filter_contains_rev(fresh, x);
}

/// A message that passes both filters is pending.
proof fn lemma_pending_has(
    messages: Seq<TidepoolMessageRow>,
    cursors: Map<u64, u64>,
    account_id: u64,
    emit_self_messages: bool,
    x: TidepoolMessageRow,
)
    requires
        messages.contains(x),
        is_pending(x, cursors, account_id, emit_self_messages),
    ensures
        pending(messages, cursors, account_id, emit_self_messages).contains(x),
{
    let fresh = |m: TidepoolMessageRow| is_unseen(m, cursors);
    let shown = |m: TidepoolMessageRow| is_shown(m, account_id, emit_self_messages);
    let u = unseen(messages, cursors);
    let c = choose|c: int| 0 <= c < messages.len() && messages[c] == x;
    messages.lemma_filter_contains(fresh, c);
    let b = choose|b: int| 0 <= b < u.len() && u[b] == x;
    u.lemma_filter_contains(shown, b);
}


/// The groups of a poll are well formed, hold only pending messages, and hold no
/// more messages than the poll's budget.
proof fn lemma_poll_groups(
    config: TidepoolChannelConfig,
    account_id: u64,
    subscriptions: Seq<TidepoolSubscriptionRow>,
    cursors: Map<u64, u64>,
    messages: Seq<TidepoolMessageRow>,
)
    ensures
        groups_wf(poll_groups(config, account_id, subscriptions, cursors, messages)),
        total_len(poll_groups(config, account_id, subscriptions, cursors, messages))
            <= config.max_messages_per_poll,
        forall|i: int, k: int|
            0 <= i < poll_groups(config, account_id, subscriptions, cursors, messages).len() && 0
                <= k < poll_groups(config, account_id, subscriptions, cursors, messages)[i].len()
                ==> is_pending(
                #[trigger] poll_groups(config, account_id, subscriptions, cursors, messages)[i][k],
                cursors,
                account_id,
                config.emit_self_messages,
            ),
{
    broadcast use group_to_multiset_ensures;

    let gs = poll_groups(config, account_id, subscriptions, cursors, messages);
    if poll_proceeds(config, account_id, subscriptions, cursors, messages) {
        let p = pending(messages, cursors, account_id, config.emit_self_messages);
        let s = ordered(p);
        let t = poll_selection(config, account_id, cursors, messages);
        let keep = |g: Seq<TidepoolMessageRow>|
            subscription_index(subscriptions, g[0].domain_id) >= 0;
        law_ordered_is_sorted_permutation(p);
        assert(is_ordered(t)) by {
            assert forall|i: int, j: int| 0 <= i < j < t.len() implies key_le(
                #[trigger] t[i],
                #[trigger] t[j],
            ) by {
                assert(t[i] == s[i] && t[j] == s[j]);
            }
        }
        law_grouping_keeps_messages(t);
        let all = group_by_domain(t);
        assert(gs == all.filter(keep));
        lemma_filter_groups(all, keep);
        assert forall|i: int, k: int| 0 <= i < gs.len() && 0 <= k < gs[i].len() implies is_pending(
            #[trigger] gs[i][k],
            cursors,
            account_id,
            config.emit_self_messages,
        ) by {
            assert(all.contains(gs[i]));
            let j = choose|j: int| 0 <= j < all.len() && all[j] == gs[i];
            let x = all[j][k];
            assert(t.contains(x));
            let a = choose|a: int| 0 <= a < t.len() && t[a] == x;
            assert(s[a] == x);
            assert(s.contains(x));
            assert(s.to_multiset().count(x) > 0);
            assert(p.contains(x));
            lemma_pending_member(messages, cursors, account_id, config.emit_self_messages, x);
        }
    } else {
        assert(gs.len() == 0);
    }
}

/// A poll hands on only messages it has not handed on before: each is past its
/// domain's stored cursor, and is not the caller's own unless those are wanted.
pub proof fn law_poll_emits_only_pending(
    config: TidepoolChannelConfig,
    account_id: u64,
    subscriptions: Seq<TidepoolSubscriptionRow>,
    cursors: Map<u64, u64>,
    messages: Seq<TidepoolMessageRow>,
)
    ensures
        forall|i: int, k: int|
            0 <= i < poll_groups(config, account_id, subscriptions, cursors, messages).len() && 0
                <= k < poll_groups(config, account_id, subscriptions, cursors, messages)[i].len()
                ==> is_pending(
                #[trigger] poll_groups(config, account_id, subscriptions, cursors, messages)[i][k],
                cursors,
                account_id,
                config.emit_self_messages,
            ),
        forall|i: int, k: int|
            0 <= i < poll_groups(config, account_id, subscriptions, cursors, messages).len() && 0
                <= k < poll_groups(config, account_id, subscriptions, cursors, messages)[i].len()
                ==> {
                let m = #[trigger] poll_groups(
                    config,
                    account_id,
                    subscriptions,
                    cursors,
                    messages,
                )[i][k];
                &&& m.domain_sequence > if cursors.contains_key(m.domain_id) {
                    cursors[m.domain_id]
                } else {
                    0u64
                }
                &&& config.emit_self_messages || m.author_account_id != account_id
            },
{
    lemma_poll_groups(config, account_id, subscriptions, cursors, messages);
}

/// A poll hands on at most `max_messages_per_poll` messages.
pub proof fn law_poll_respects_budget(
    config: TidepoolChannelConfig,
    account_id: u64,
    subscriptions: Seq<TidepoolSubscriptionRow>,
    cursors: Map<u64, u64>,
    messages: Seq<TidepoolMessageRow>,
)
    ensures
        total_len(poll_groups(config, account_id, subscriptions, cursors, messages))
            <= config.max_messages_per_poll,
{
    lemma_poll_groups(config, account_id, subscriptions, cursors, messages);
}

/// A poll emits one batch per domain, domains in increasing order, and the messages of
/// a batch all belong to its domain and come in sequence order.
pub proof fn law_poll_batches_ordered(
    config: TidepoolChannelConfig,
    account_id: u64,
    subscriptions: Seq<TidepoolSubscriptionRow>,
    cursors: Map<u64, u64>,
    messages: Seq<TidepoolMessageRow>,
)
    ensures
        groups_wf(poll_groups(config, account_id, subscriptions, cursors, messages)),
{
    lemma_poll_groups(config, account_id, subscriptions, cursors, messages);
}

/// After a poll, each emitted domain's cursor is the sequence number of the last
/// message emitted for it, and every other domain keeps its cursor; so no cursor
/// ever moves back.
pub proof fn law_poll_cursors_advance(
    config: TidepoolChannelConfig,
    account_id: u64,
    subscriptions: Seq<TidepoolSubscriptionRow>,
    cursors: Map<u64, u64>,
    messages: Seq<TidepoolMessageRow>,
)
    ensures
        ({
            let groups = poll_groups(config, account_id, subscriptions, cursors, messages);
            let after = advanced_cursors(cursors, groups);
            &&& forall|i: int|
                0 <= i < groups.len() ==> cursor_of(after, #[trigger] groups[i][0].domain_id)
                    == groups[i].last().domain_sequence
            &&& forall|d: u64|
                (forall|i: int| 0 <= i < groups.len() ==> #[trigger] groups[i][0].domain_id != d)
                    ==> cursor_of(after, d) == cursor_of(cursors, d)
            &&& forall|d: u64| #[trigger] cursor_of(after, d) >= cursor_of(cursors, d)
        }),
{
    let groups = poll_groups(config, account_id, subscriptions, cursors, messages);
    let after = advanced_cursors(cursors, groups);
    lemma_poll_groups(config, account_id, subscriptions, cursors, messages);
    lemma_advanced_cursors(cursors, groups);
    assert forall|d: u64| #[trigger] cursor_of(after, d) >= cursor_of(cursors, d) by {
        if exists|i: int| 0 <= i < groups.len() && groups[i][0].domain_id == d {
            let i = choose|i: int| 0 <= i < groups.len() && groups[i][0].domain_id == d;
            let last = groups[i].len() - 1;
            assert(groups[i][last].domain_id == groups[i][0].domain_id);
            assert(is_pending(groups[i][last], cursors, account_id, config.emit_self_messages));
        } else {
            assert forall|i: int| 0 <= i < groups.len() implies #[trigger] groups[i][0].domain_id
                != d by {}
        }
    }
}

/// A message one poll hands on is not handed on again by the next poll, which reads
/// the cursors this one stored.
pub proof fn law_poll_does_not_repeat(
    config: TidepoolChannelConfig,
    account_id: u64,
    subscriptions: Seq<TidepoolSubscriptionRow>,
    cursors: Map<u64, u64>,
    messages: Seq<TidepoolMessageRow>,
)
    ensures
        ({
            let groups = poll_groups(config, account_id, subscriptions, cursors, messages);
            let after = advanced_cursors(cursors, groups);
            forall|i: int, k: int|
                0 <= i < groups.len() && 0 <= k < groups[i].len() ==> !is_pending(
                    #[trigger] groups[i][k],
                    after,
                    account_id,
                    config.emit_self_messages,
                )
        }),
        ({
            let groups = poll_groups(config, account_id, subscriptions, cursors, messages);
            let after = advanced_cursors(cursors, groups);
            forall|i: int, k: int|
                0 <= i < groups.len() && 0 <= k < groups[i].len() ==> after.contains_key(
                    (#[trigger] groups[i][k]).domain_id,
                ) && groups[i][k].domain_sequence <= after[groups[i][k].domain_id]
        }),
{
    let groups = poll_groups(config, account_id, subscriptions, cursors, messages);
    let after = advanced_cursors(cursors, groups);
    lemma_poll_groups(config, account_id, subscriptions, cursors, messages);
    lemma_advanced_cursors(cursors, groups);
    assert forall|i: int, k: int| 0 <= i < groups.len() && 0 <= k < groups[i].len() implies !is_pending(
        #[trigger] groups[i][k],
        after,
        account_id,
        config.emit_self_messages,
    ) by {
        let last = groups[i].len() - 1;
        assert(groups[i][k].domain_id == groups[i][0].domain_id);
        if k < last {
            assert(groups[i][k].domain_sequence <= groups[i][last].domain_sequence);
        }
    }
}

/// Removing leading white space leaves nothing, or a text that starts with a
/// character that is not white space.
proof fn lemma_trim_start_shape(s: Seq<char>)
    ensures
        trim_start(s).len() == 0 || !is_white_space(trim_start(s)[0]),
        trim_start(s).len() <= s.len(),
    decreases s.len(),
{
    if s.len() > 0 && is_white_space(s[0]) {
        lemma_trim_start_shape(s.drop_first());
    }
}

/// Removing trailing white space keeps a prefix that is empty or ends with a
/// character that is not white space.
proof fn lemma_trim_end_shape(s: Seq<char>)
    ensures
        trim_end(s).len() <= s.len(),
        trim_end(s) == s.take(trim_end(s).len() as int),
        trim_end(s).len() == 0 || !is_white_space(trim_end(s).last()),
    decreases s.len(),
{
    if s.len() > 0 && is_white_space(s.last()) {
        lemma_trim_end_shape(s.drop_last());
        assert(s.drop_last().take(trim_end(s).len() as int) =~= s.take(trim_end(s).len() as int));
    } else {
        assert(s.take(s.len() as int) =~= s);
    }
}

/// Trimming a text whose ends are not white space leaves it unchanged.
proof fn lemma_trim_fixed(s: Seq<char>)
    requires
        s.len() > 0,
        !is_white_space(s[0]),
        !is_white_space(s.last()),
    ensures
        trim(s) == s,
{
}

/// A trimmed text is empty or has ends that are not white space.
proof fn lemma_trim_shape(s: Seq<char>)
    ensures
        trim(s).len() == 0 || (!is_white_space(trim(s)[0]) && !is_white_space(trim(s).last())),
{
    lemma_trim_start_shape(s);
    lemma_trim_end_shape(trim_start(s));
    let u = trim_start(s);
    if trim(s).len() > 0 {
        assert(trim(s)[0] == u.take(trim(s).len() as int)[0]);
    }
}

/// A reply the channel posts passes the message-body check of `post_message` at the
/// domain's character limit: it is neither blank nor longer than the limit.
pub proof fn law_clamped_reply_is_accepted(content: Seq<char>, limit: nat)
    requires
        clamped_body(content, limit).len() > 0,
    ensures
        body_error(clamped_body(content, limit), limit) is None,
{
    reveal_strlit("...");
    let t = trim(content);
    let b = clamped_body(content, limit);
    lemma_trim_shape(content);
    assert(!is_white_space('.'));
    if t.len() <= limit {
        assert(b == t);
        lemma_trim_fixed(t);
    } else if limit <= 3 {
        assert(b[0] == '.' && b.last() == '.');
        lemma_trim_fixed(b);
    } else {
        assert(b[0] == t[0]);
        assert(b.last() == '.');
        lemma_trim_fixed(b);
    }
}

/// Every message of a list lands in one of its groups.
proof fn lemma_grouping_covers(t: Seq<TidepoolMessageRow>)
    ensures
        forall|x: TidepoolMessageRow|
            #[trigger] t.contains(x) ==> exists|i: int, k: int|
                0 <= i < group_by_domain(t).len() && 0 <= k < group_by_domain(t)[i].len()
                    && group_by_domain(t)[i][k] == x,
    decreases t.len(),
{
    if t.len() > 0 {
        let p = t.drop_last();
        let m = t.last();
        lemma_grouping_covers(p);
        let gs = group_by_domain(p);
        let now = group_by_domain(t);
        let n = gs.len();
        assert forall|x: TidepoolMessageRow| #[trigger] t.contains(x) implies exists|i: int, k: int|
            0 <= i < now.len() && 0 <= k < now[i].len() && now[i][k] == x by {
            if x == m {
                if n > 0 && gs.last().last().domain_id == m.domain_id {
                    assert(now[n - 1][gs[n - 1].len() as int] == m);
                } else {
                    assert(now[n as int][0] == m);
                }
            } else {
                let q = choose|q: int| 0 <= q < t.len() && t[q] == x;
                assert(p[q] == x);
                assert(p.contains(x));
                let (i, k) = choose|i: int, k: int|
                    0 <= i < gs.len() && 0 <= k < gs[i].len() && gs[i][k] == x;
                assert(now[i][k] == x);
            }
        }
    }
}

/// A poll leaves no gap: when the messages carry distinct (domain, sequence) pairs, as
/// the ledger's do, every pending message of an emitted domain at or below that
/// domain's new cursor is in the domain's batch; so each poll hands on a domain's
/// pending messages up to its new cursor without skipping any.
pub proof fn law_poll_is_complete(
    config: TidepoolChannelConfig,
    account_id: u64,
    subscriptions: Seq<TidepoolSubscriptionRow>,
    cursors: Map<u64, u64>,
    messages: Seq<TidepoolMessageRow>,
)
    requires
        forall|i: int, j: int|
            0 <= i < messages.len() && 0 <= j < messages.len() && #[trigger] messages[i].domain_id
                == #[trigger] messages[j].domain_id && messages[i].domain_sequence
                == messages[j].domain_sequence ==> i == j,
    ensures
        ({
            let groups = poll_groups(config, account_id, subscriptions, cursors, messages);
            let after = advanced_cursors(cursors, groups);
            forall|i: int, m: TidepoolMessageRow|
                0 <= i < groups.len() && messages.contains(m) && m.domain_id == groups[i][0].domain_id
                    && is_pending(m, cursors, account_id, config.emit_self_messages)
                    && m.domain_sequence <= cursor_of(after, m.domain_id) ==> #[trigger] groups[i].contains(
                    m,
                )
        }),
{
    broadcast use group_to_multiset_ensures;

    let gs = poll_groups(config, account_id, subscriptions, cursors, messages);
    let after = advanced_cursors(cursors, gs);
    lemma_poll_groups(config, account_id, subscriptions, cursors, messages);
    lemma_advanced_cursors(cursors, gs);
    if poll_proceeds(config, account_id, subscriptions, cursors, messages) {
        let p = pending(messages, cursors, account_id, config.emit_self_messages);
        let s = ordered(p);
        let t = poll_selection(config, account_id, cursors, messages);
        let keep = |g: Seq<TidepoolMessageRow>|
            subscription_index(subscriptions, g[0].domain_id) >= 0;
        law_ordered_is_sorted_permutation(p);
        assert(is_ordered(t)) by {
            assert forall|i: int, j: int| 0 <= i < j < t.len() implies key_le(
                #[trigger] t[i],
                #[trigger] t[j],
            ) by {
                assert(t[i] == s[i] && t[j] == s[j]);
            }
        }
        law_grouping_keeps_messages(t);
        lemma_grouping_covers(t);
        let all = group_by_domain(t);
        assert(gs == all.filter(keep));
        lemma_filter_groups(all, keep);
        assert forall|i: int, m: TidepoolMessageRow|
            0 <= i < gs.len() && messages.contains(m) && m.domain_id == gs[i][0].domain_id
                && is_pending(m, cursors, account_id, config.emit_self_messages)
                && m.domain_sequence <= cursor_of(after, m.domain_id) implies #[trigger] gs[i].contains(
            m,
        ) by {
            let g = gs[i];
            let last = g.len() - 1;
            let e = g[last];
            assert(g[last].domain_id == g[0].domain_id);
            assert(cursor_of(after, g[0].domain_id) == g.last().domain_sequence);
            // The batch's last message is one of the messages.
            assert(all.contains(g));
            let j0 = choose|j0: int| 0 <= j0 < all.len() && all[j0] == g;
            assert(t.contains(e));
            let b = choose|b: int| 0 <= b < t.len() && t[b] == e;
            assert(s[b] == e);
            assert(s.to_multiset().count(e) > 0);
            assert(p.contains(e));
            lemma_pending_member(messages, cursors, account_id, config.emit_self_messages, e);
            // The message is in the selection.
            lemma_pending_has(messages, cursors, account_id, config.emit_self_messages, m);
            assert(p.to_multiset().count(m) > 0);
            assert(s.contains(m));
            if !t.contains(m) {
                let a = choose|a: int| 0 <= a < s.len() && s[a] == m;
                assert(t.len() < s.len());
                if a < t.len() {
                    assert(t[a] == m);
                }
                assert(key_le(s[b], s[a]));
                // Same domain and sequence number: the same message.
                let x = choose|x: int| 0 <= x < messages.len() && messages[x] == e;
                let y = choose|y: int| 0 <= y < messages.len() && messages[y] == m;
                assert(messages[x].domain_id == messages[y].domain_id);
                assert(x == y);
                assert(t[b] == m);
            }
            // Its group in the selection is the emitted group of its domain.
            let (j, k) = choose|j: int, k: int|
                0 <= j < all.len() && 0 <= k < all[j].len() && all[j][k] == m;
            assert(all[j][k].domain_id == all[j][0].domain_id);
            assert(all[j0][0].domain_id == g[0].domain_id);
            if j < j0 {
                assert(all[j][0].domain_id < all[j0][0].domain_id);
            } else if j0 < j {
                assert(all[j0][0].domain_id < all[j][0].domain_id);
            }
            assert(g[k] == m);
        }
    }
}

/// A message row read: its cells in the order of the SELECT list `message_id,
/// domain_id, domain_sequence, author_account_id, body`.
pub open spec fn message_row_holds(row: SqlRow, m: MessageFields) -> bool {
    match row {
        SqlRow::Cells(c) => c@.len() >= 5 && c@[0] == SqlCell::Unsigned(m.0) && c@[1]
            == SqlCell::Unsigned(m.1) && c@[2] == SqlCell::Unsigned(m.2) && c@[3]
            == SqlCell::Unsigned(m.3) && match c@[4] {
            SqlCell::Text(b) => b@ == m.4,
            _ => false,
        },
        SqlRow::NotArray => false,
    }
}

/// Messages are read column by column in the order of the query's SELECT list: the
/// id from column 0, the domain from column 1, the sequence number from column 2, the
/// author from column 3 and the body from column 4, one message per row, in order.
pub proof fn law_message_rows_read_by_column(rows: Seq<SqlRow>)
    ensures
        match messages_from_rows_spec(rows) {
            Ok(v) => v.len() == rows.len() && forall|i: int|
                0 <= i < rows.len() ==> message_row_holds(#[trigger] rows[i], v[i]),
            Err(_) => true,
        },
    decreases rows.len(),
{
    if rows.len() > 0 {
        let q = rows.drop_last();
        law_message_rows_read_by_column(q);
        match messages_from_rows_spec(rows) {
            Ok(v) => {
                let done = v.drop_last();
                match messages_from_rows_spec(q) {
                    Ok(d0) => {
                        assert(d0.push(v.last()).drop_last() =~= d0);
                    },
                    Err(_) => {},
                }
                assert(messages_from_rows_spec(q) == Ok::<Seq<MessageFields>, Seq<char>>(done));
                assert forall|i: int| 0 <= i < rows.len() implies message_row_holds(
                    #[trigger] rows[i],
                    v[i],
                ) by {
                    if i < q.len() {
                        assert(rows[i] == q[i]);
                        assert(v[i] == done[i]);
                    }
                }
            },
            Err(_) => {},
        }
    }
}

/// A subscription row read: its cells in the order of the SELECT list `domain_id,
/// slug, title, message_char_limit, batch_window_seconds`, the two limits cut to the
/// width of their fields.
pub open spec fn subscription_row_holds(row: SqlRow, f: SubscriptionFields) -> bool {
    match row {
        SqlRow::Cells(c) => c@.len() >= 5 && c@[0] == SqlCell::Unsigned(f.0) && match c@[1] {
            SqlCell::Text(slug) => slug@ == f.1,
            _ => false,
        } && match c@[2] {
            SqlCell::Text(title) => title@ == f.2,
            _ => false,
        } && match c@[3] {
            SqlCell::Unsigned(limit) => f.3 == limit as u16,
            _ => false,
        } && match c@[4] {
            SqlCell::Unsigned(window) => f.4 == window as u32,
            _ => false,
        },
        SqlRow::NotArray => false,
    }
}

/// Subscriptions are read column by column in the order of the query's SELECT list,
/// one subscription per row, in order.
pub proof fn law_subscription_rows_read_by_column(rows: Seq<SqlRow>)
    ensures
        match subscriptions_from_rows_spec(rows) {
            Ok(v) => v.len() == rows.len() && forall|i: int|
                0 <= i < rows.len() ==> subscription_row_holds(#[trigger] rows[i], v[i]),
            Err(_) => true,
        },
    decreases rows.len(),
{
    if rows.len() > 0 {
        let q = rows.drop_last();
        law_subscription_rows_read_by_column(q);
        match subscriptions_from_rows_spec(rows) {
            Ok(v) => {
                let done = v.drop_last();
                match subscriptions_from_rows_spec(q) {
                    Ok(d0) => {
                        assert(d0.push(v.last()).drop_last() =~= d0);
                    },
                    Err(_) => {},
                }
                assert(subscriptions_from_rows_spec(q) == Ok::<Seq<SubscriptionFields>, Seq<char>>(
                    done,
                ));
                assert forall|i: int| 0 <= i < rows.len() implies subscription_row_holds(
                    #[trigger] rows[i],
                    v[i],
                ) by {
                    if i < q.len() {
                        assert(rows[i] == q[i]);
                        assert(v[i] == done[i]);
                    }
                }
            },
            Err(_) => {},
        }
    }
}

/// The caller's account is read from the first row: the id from column 0 and the
/// handle from column 1.
pub proof fn law_account_row_read_by_column(rows: Seq<SqlRow>)
    ensures
        match account_from_rows_spec(rows) {
            Ok(a) => rows.len() > 0 && match rows[0] {
                SqlRow::Cells(c) => c@.len() >= 2 && c@[0] == SqlCell::Unsigned(a.0) && match c@[1] {
                    SqlCell::Text(h) => h@ == a.1,
                    _ => false,
                },
                SqlRow::NotArray => false,
            },
            Err(_) => true,
        },
{
}

/// The batch of an emitted group carries its domain's subscription: the reply metadata
/// has the subscription row's character limit and title, the group's domain, and a
/// reply to the group's last message; so a reply clamped to the metadata's limit
/// passes the body check at the subscription's limit.
pub proof fn law_batch_reply_fits_its_domain(
    b: EmittedBatch,
    config: TidepoolChannelConfig,
    subscription: TidepoolSubscriptionRow,
    group: Seq<TidepoolMessageRow>,
    content: Seq<char>,
)
    requires
        batch_for(b, config, subscription, group),
    ensures
        b.metadata.message_char_limit == subscription.message_char_limit,
        b.metadata.domain_title@ == subscription.title@,
        b.metadata.domain_id == group[0].domain_id,
        b.metadata.reply_to_message_id == Some(group.last().message_id),
        b.metadata.last_seen_domain_sequence == group.last().domain_sequence,
        b.metadata.base_url@ == config.base_url@,
        b.metadata.database@ == config.database@,
        b.domain_id == group[0].domain_id,
        b.user_id@ == "tidepool:domain:"@ + decimal(group[0].domain_id as nat),
        b.thread_id@ == b.user_id@,
        b.user_name@ == subscription.title@,
        b.message_count == group.len(),
        clamped_body(content, b.metadata.message_char_limit as nat).len() > 0 ==> body_error(
            clamped_body(content, b.metadata.message_char_limit as nat),
            subscription.message_char_limit as nat,
        ) is None,
{
    if clamped_body(content, b.metadata.message_char_limit as nat).len() > 0 {
        law_clamped_reply_is_accepted(content, b.metadata.message_char_limit as nat);
    }
}

/// `subscription_index` names the last subscription to the domain, when there is one.
proof fn lemma_subscription_index(subscriptions: Seq<TidepoolSubscriptionRow>, domain_id: u64)
    ensures
        subscription_index(subscriptions, domain_id) < subscriptions.len(),
        subscription_index(subscriptions, domain_id) >= 0 ==> subscriptions[subscription_index(
            subscriptions,
            domain_id,
        )].domain_id == domain_id,
        forall|j: int|
            0 <= j < subscriptions.len() && subscription_index(subscriptions, domain_id) < j
                ==> (#[trigger] subscriptions[j]).domain_id != domain_id,
        (exists|j: int| 0 <= j < subscriptions.len() && (#[trigger] subscriptions[j]).domain_id
            == domain_id) ==> subscription_index(subscriptions, domain_id) >= 0,
    decreases subscriptions.len(),
{
    if subscriptions.len() > 0 {
        let q = subscriptions.drop_last();
        lemma_subscription_index(q, domain_id);
        assert forall|j: int| 0 <= j < q.len() implies q[j] == subscriptions[j] by {}
        if subscriptions.last().domain_id != domain_id {
            assert forall|j: int|
                0 <= j < subscriptions.len() && subscription_index(subscriptions, domain_id) < j
                    implies (#[trigger] subscriptions[j]).domain_id != domain_id by {
                if j < q.len() {
                    assert(q[j] == subscriptions[j]);
                }
            }
            if exists|j: int| 0 <= j < subscriptions.len() && (#[trigger] subscriptions[j]).domain_id
                == domain_id {
                let j = choose|j: int| 0 <= j < subscriptions.len() && (#[trigger] subscriptions[j]).domain_id
                    == domain_id;
                assert(j < q.len());
                assert(q[j].domain_id == domain_id);
            }
        }
    }
}

/// Each batch of a poll is built from its own domain's subscription: the last
/// subscription row whose domain is the batch's domain.
pub proof fn law_poll_batches_use_their_domains_subscription(
    config: TidepoolChannelConfig,
    account_id: u64,
    subscriptions: Seq<TidepoolSubscriptionRow>,
    cursors: Map<u64, u64>,
    messages: Seq<TidepoolMessageRow>,
)
    ensures
        ({
            let groups = poll_groups(config, account_id, subscriptions, cursors, messages);
            forall|i: int|
                0 <= i < groups.len() ==> {
                    let k = subscription_index(subscriptions, #[trigger] groups[i][0].domain_id);
                    &&& 0 <= k < subscriptions.len()
                    &&& subscriptions[k].domain_id == groups[i][0].domain_id
                    &&& forall|j: int|
                        k < j < subscriptions.len() ==> (#[trigger] subscriptions[j]).domain_id
                            != groups[i][0].domain_id
                }
        }),
{
    let groups = poll_groups(config, account_id, subscriptions, cursors, messages);
    if poll_proceeds(config, account_id, subscriptions, cursors, messages) {
        let keep = |g: Seq<TidepoolMessageRow>|
            subscription_index(subscriptions, g[0].domain_id) >= 0;
        let all = group_by_domain(poll_selection(config, account_id, cursors, messages));
        assert(groups == all.filter(keep));
        assert forall|i: int| 0 <= i < groups.len() implies {
            let k = subscription_index(subscriptions, #[trigger] groups[i][0].domain_id);
            &&& 0 <= k < subscriptions.len()
            &&& subscriptions[k].domain_id == groups[i][0].domain_id
            &&& forall|j: int|
                k < j < subscriptions.len() ==> (#[trigger] subscriptions[j]).domain_id
                    != groups[i][0].domain_id
        } by {
            all.lemma_filter_pred(keep, i);
            lemma_subscription_index(subscriptions, groups[i][0].domain_id);
        }
    }
}

} // verus!
