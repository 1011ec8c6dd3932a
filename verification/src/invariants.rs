use vstd::prelude::*;

use crate::ledger::{
    account_pred, domain_pred, find_index, key_pred, lemma_find_index, member_account_ids,
    membership_pred, LedgerState,
};
use crate::model::{AccountKey, Domain, DomainKind, DomainMember, DomainRole, Identity, Timestamp};
use crate::model::{Message, Subscription};
use crate::participants::{seq_max, strictly_ascending, u64_leq, lemma_sorted_permutation, lemma_strict_sorted};
use crate::rules::{dm_created, dm_index, dm_pred, other_than};
use vstd::seq_lib::group_to_multiset_ensures;
use crate::rules::{
    add_account_key_post, create_account_post, domain_sequences, revoke_account_key_post,
    with_member,
};

verus! {

/// In a well-formed ledger, a found account has the id looked for, which names an
/// existing account.
pub proof fn lemma_account_found(s: LedgerState, account_id: u64)
    requires
        s.ids_wf(),
        s.account_index(account_id) is Some,
    ensures
        s.account_exists(account_id),
        s.account_index(account_id)->0 == account_id - 1,
        s.account(account_id)->0.account_id == account_id,
{
    lemma_find_index(s.accounts, account_pred(account_id));
}

/// In a well-formed ledger, an existing account id is found at its index.
pub proof fn lemma_account_present(s: LedgerState, account_id: u64)
    requires
        s.ids_wf(),
        s.account_exists(account_id),
    ensures
        s.account_index(account_id) == Some((account_id - 1) as int),
{
    lemma_find_index(s.accounts, account_pred(account_id));
    match s.account_index(account_id) {
        Some(i) => {
            assert(s.accounts[account_id - 1].account_id == account_id);
        },
        None => {
            assert(!(account_pred(account_id))(s.accounts[account_id - 1]));
        },
    }
}

/// In a well-formed ledger, a found domain has the id looked for, which names an
/// existing domain.
pub proof fn lemma_domain_found(s: LedgerState, domain_id: u64)
    requires
        s.ids_wf(),
        s.domain_index(domain_id) is Some,
    ensures
        s.domain_exists(domain_id),
        s.domain_index(domain_id)->0 == domain_id - 1,
        s.domain(domain_id)->0.domain_id == domain_id,
{
    lemma_find_index(s.domains, domain_pred(domain_id));
}

/// In a well-formed ledger, an existing domain id is found at its index.
pub proof fn lemma_domain_present(s: LedgerState, domain_id: u64)
    requires
        s.ids_wf(),
        s.domain_exists(domain_id),
    ensures
        s.domain_index(domain_id) == Some((domain_id - 1) as int),
{
    lemma_find_index(s.domains, domain_pred(domain_id));
    match s.domain_index(domain_id) {
        Some(i) => {
            assert(s.domains[domain_id - 1].domain_id == domain_id);
        },
        None => {
            assert(!(domain_pred(domain_id))(s.domains[domain_id - 1]));
        },
    }
}

/// The active account of an identity exists in a well-formed ledger.
pub proof fn lemma_active_account_exists(s: LedgerState, identity: Identity)
    requires
        s.wf(),
        s.active_account(identity) is Some,
    ensures
        s.account_exists(s.active_account(identity)->0.account_id),
{
    let k = s.key_index(identity)->0;
    lemma_account_found(s, s.account_keys[k].account_id);
}

/// No key row is bound to an identity whose lookup finds nothing.
pub proof fn lemma_key_absent(s: LedgerState, identity: Identity)
    requires
        s.key_index(identity) is None,
    ensures
        forall|i: int| 0 <= i < s.account_keys.len() ==> #[trigger] s.account_keys[i].key_identity != identity,
{
    lemma_find_index(s.account_keys, key_pred(identity));
    assert forall|i: int| 0 <= i < s.account_keys.len() implies #[trigger] s.account_keys[i].key_identity != identity by {
        assert(!(key_pred(identity))(s.account_keys[i]));
    }
}

/// `create_account` keeps the ledger well formed.
pub proof fn lemma_create_account_wf(s: LedgerState, sender: Identity, now: Timestamp, handle: String)
    requires
        s.wf(),
        s.key_index(sender) is None,
        s.accounts.len() < u64::MAX,
    ensures
        create_account_post(s, sender, now, handle).wf(),
{
    lemma_key_absent(s, sender);
    let t = create_account_post(s, sender, now, handle);
    assert(t.keys_wf()) by {
        assert forall|i: int, j: int|
            0 <= i < t.account_keys.len() && 0 <= j < t.account_keys.len() && i != j
                implies #[trigger] t.account_keys[i].key_identity != #[trigger] t.account_keys[j].key_identity by {
            if i < s.account_keys.len() && j < s.account_keys.len() {
                assert(s.account_keys[i] == t.account_keys[i]);
                assert(s.account_keys[j] == t.account_keys[j]);
            } else if i < s.account_keys.len() {
                assert(s.account_keys[i] == t.account_keys[i]);
            } else {
                assert(s.account_keys[j] == t.account_keys[j]);
            }
        }
        assert forall|i: int| 0 <= i < t.account_keys.len() implies t.account_exists(#[trigger] t.account_keys[i].account_id) by {
            if i < s.account_keys.len() {
                assert(s.account_keys[i] == t.account_keys[i]);
            }
        }
    }
    assert(t.ids_wf()) by {
        assert forall|i: int| 0 <= i < t.accounts.len() implies #[trigger] t.accounts[i].account_id == i + 1 by {
            if i < s.accounts.len() {
                assert(s.accounts[i] == t.accounts[i]);
            }
        }
    }
}

/// `add_account_key` keeps the ledger well formed.
pub proof fn lemma_add_account_key_wf(s: LedgerState, sender: Identity, now: Timestamp, key_identity: Identity)
    requires
        s.wf(),
        s.active_account(sender) is Some,
        s.key_index(key_identity) is None,
    ensures
        add_account_key_post(s, sender, now, key_identity).wf(),
{
    lemma_key_absent(s, key_identity);
    lemma_active_account_exists(s, sender);
    let t = add_account_key_post(s, sender, now, key_identity);
    assert(t.keys_wf()) by {
        assert forall|i: int, j: int|
            0 <= i < t.account_keys.len() && 0 <= j < t.account_keys.len() && i != j
                implies #[trigger] t.account_keys[i].key_identity != #[trigger] t.account_keys[j].key_identity by {
            if i < s.account_keys.len() && j < s.account_keys.len() {
                assert(s.account_keys[i] == t.account_keys[i]);
                assert(s.account_keys[j] == t.account_keys[j]);
            } else if i < s.account_keys.len() {
                assert(s.account_keys[i] == t.account_keys[i]);
            } else {
                assert(s.account_keys[j] == t.account_keys[j]);
            }
        }
        assert forall|i: int| 0 <= i < t.account_keys.len() implies t.account_exists(#[trigger] t.account_keys[i].account_id) by {
            if i < s.account_keys.len() {
                assert(s.account_keys[i] == t.account_keys[i]);
            }
        }
    }
}

/// `revoke_account_key` keeps the ledger well formed.
pub proof fn lemma_revoke_account_key_wf(s: LedgerState, now: Timestamp, key_identity: Identity)
    requires
        s.wf(),
        s.key_index(key_identity) is Some,
    ensures
        revoke_account_key_post(s, now, key_identity).wf(),
{
    lemma_find_index(s.account_keys, key_pred(key_identity));
    let k = s.key_index(key_identity)->0;
    let t = revoke_account_key_post(s, now, key_identity);
    assert(t.keys_wf()) by {
        assert forall|i: int, j: int|
            0 <= i < t.account_keys.len() && 0 <= j < t.account_keys.len() && i != j
                implies #[trigger] t.account_keys[i].key_identity != #[trigger] t.account_keys[j].key_identity by {
            assert(t.account_keys[i].key_identity == s.account_keys[i].key_identity);
            assert(t.account_keys[j].key_identity == s.account_keys[j].key_identity);
        }
        assert forall|i: int| 0 <= i < t.account_keys.len() implies t.account_exists(#[trigger] t.account_keys[i].account_id) by {
            assert(t.account_keys[i].account_id == s.account_keys[i].account_id);
        }
    }
}

/// Appending a membership row of another domain leaves a domain's member list as it was.
pub proof fn lemma_member_ids_push_other(ms: Seq<DomainMember>, m: DomainMember, d: u64)
    requires
        m.domain_id != d,
    ensures
        member_account_ids(ms.push(m), d) == member_account_ids(ms, d),
{
    assert(ms.push(m).drop_last() =~= ms);
}

/// Deleting a membership row of another domain leaves a domain's member list as it was.
pub proof fn lemma_member_ids_remove_other(ms: Seq<DomainMember>, k: int, d: u64)
    requires
        0 <= k < ms.len(),
        ms[k].domain_id != d,
    ensures
        member_account_ids(ms.remove(k), d) == member_account_ids(ms, d),
    decreases ms.len(),
{
    if k == ms.len() - 1 {
        assert(ms.remove(k) =~= ms.drop_last());
    } else {
        lemma_member_ids_remove_other(ms.drop_last(), k, d);
        assert(ms.remove(k).drop_last() =~= ms.drop_last().remove(k));
        assert(ms.remove(k).last() == ms.last());
    }
}

/// No membership row pairs the account with the domain when the lookup finds nothing.
pub proof fn lemma_membership_absent(s: LedgerState, domain_id: u64, account_id: u64)
    requires
        s.membership_index(domain_id, account_id) is None,
    ensures
        forall|i: int| 0 <= i < s.domain_members.len() ==> !(#[trigger] s.domain_members[i].domain_id == domain_id && s.domain_members[i].account_id == account_id),
{
    lemma_find_index(s.domain_members, membership_pred(domain_id, account_id));
    assert forall|i: int| 0 <= i < s.domain_members.len() implies !(#[trigger] s.domain_members[i].domain_id == domain_id && s.domain_members[i].account_id == account_id) by {
        assert(!(membership_pred(domain_id, account_id))(s.domain_members[i]));
    }
}

/// Appending a named (non-DM) domain created by an existing account keeps the ledger
/// well formed.
pub proof fn lemma_push_named_domain_wf(s: LedgerState, d: Domain)
    requires
        s.wf(),
        d.domain_id == s.domains.len() + 1,
        d.kind != DomainKind::Dm,
        s.account_exists(d.created_by_account_id),
        !crate::rules::slug_claimed(s, d.slug@),
    ensures
        (LedgerState { domains: s.domains.push(d), ..s }).wf(),
{
    let t = LedgerState { domains: s.domains.push(d), ..s };
    assert(t.ids_wf()) by {
        assert forall|i: int| 0 <= i < t.domains.len() implies #[trigger] t.domains[i].domain_id == i + 1 by {
            if i < s.domains.len() {
                assert(t.domains[i] == s.domains[i]);
            }
        }
    }
    assert(t.domains_wf()) by {
        assert forall|i: int| 0 <= i < t.domains.len() implies t.account_exists(#[trigger] t.domains[i].created_by_account_id) by {
            if i < s.domains.len() {
                assert(t.domains[i] == s.domains[i]);
            }
        }
    }
    assert(t.dms_distinct()) by {
        assert forall|i: int, j: int|
            0 <= i < j < t.domains.len() && #[trigger] t.domains[i].kind == DomainKind::Dm
                && #[trigger] t.domains[j].kind == DomainKind::Dm
                implies t.sorted_member_ids(t.domains[i].domain_id) != t.sorted_member_ids(t.domains[j].domain_id) by {
            assert(j < s.domains.len());
            assert(t.domains[i] == s.domains[i]);
            assert(t.domains[j] == s.domains[j]);
        }
    }
    assert(t.slugs_distinct()) by {
        assert forall|i: int, j: int|
            0 <= i < j < t.domains.len() && #[trigger] t.domains[i].kind != DomainKind::Dm
                && #[trigger] t.domains[j].kind != DomainKind::Dm
                implies t.domains[i].slug@ != t.domains[j].slug@ by {
            assert(t.domains[i] == s.domains[i]);
            if j < s.domains.len() {
                assert(t.domains[j] == s.domains[j]);
            }
        }
    }
}

/// Adding a fresh member to a named domain keeps the ledger well formed.
pub proof fn lemma_with_member_wf(
    s: LedgerState,
    domain_id: u64,
    account_id: u64,
    role: DomainRole,
    now: Timestamp,
)
    requires
        s.wf(),
        s.domain_exists(domain_id),
        s.domains[domain_id - 1].kind != DomainKind::Dm,
        s.account_exists(account_id),
        s.membership_index(domain_id, account_id) is None,
        s.next_membership_id < u64::MAX,
    ensures
        with_member(s, domain_id, account_id, role, now).wf(),
{
    lemma_membership_absent(s, domain_id, account_id);
    let t = with_member(s, domain_id, account_id, role, now);
    let m = t.domain_members.last();
    assert(t.domain_members == s.domain_members.push(m));
    assert(t.members_wf()) by {
        assert forall|i: int, j: int| 0 <= i < j < t.domain_members.len() implies #[trigger] t.domain_members[i].membership_id < #[trigger] t.domain_members[j].membership_id by {
            assert(t.domain_members[i] == s.domain_members[i]);
            if j < s.domain_members.len() {
                assert(t.domain_members[j] == s.domain_members[j]);
            }
        }
        assert forall|i: int| 0 <= i < t.domain_members.len() implies #[trigger] t.domain_members[i].membership_id < t.next_membership_id by {
            if i < s.domain_members.len() {
                assert(t.domain_members[i] == s.domain_members[i]);
            }
        }
        assert forall|i: int| 0 <= i < t.domain_members.len() implies t.domain_exists(#[trigger] t.domain_members[i].domain_id) by {
            if i < s.domain_members.len() {
                assert(t.domain_members[i] == s.domain_members[i]);
            }
        }
        assert forall|i: int| 0 <= i < t.domain_members.len() implies t.account_exists(#[trigger] t.domain_members[i].account_id) by {
            if i < s.domain_members.len() {
                assert(t.domain_members[i] == s.domain_members[i]);
            }
        }
        assert forall|i: int, j: int|
            0 <= i < t.domain_members.len() && 0 <= j < t.domain_members.len() && i != j
                && #[trigger] t.domain_members[i].domain_id == #[trigger] t.domain_members[j].domain_id
                implies t.domain_members[i].account_id != t.domain_members[j].account_id by {
            if i < s.domain_members.len() {
                assert(t.domain_members[i] == s.domain_members[i]);
            }
            if j < s.domain_members.len() {
                assert(t.domain_members[j] == s.domain_members[j]);
            }
        }
    }
    assert(t.dms_distinct()) by {
        assert forall|i: int, j: int|
            0 <= i < j < t.domains.len() && #[trigger] t.domains[i].kind == DomainKind::Dm
                && #[trigger] t.domains[j].kind == DomainKind::Dm
                implies t.sorted_member_ids(t.domains[i].domain_id) != t.sorted_member_ids(t.domains[j].domain_id) by {
            lemma_member_ids_push_other(s.domain_members, m, t.domains[i].domain_id);
            lemma_member_ids_push_other(s.domain_members, m, t.domains[j].domain_id);
        }
    }
}

/// Deleting the membership row at an index of a named domain keeps the ledger well
/// formed.
pub proof fn lemma_remove_member_wf(s: LedgerState, k: int)
    requires
        s.wf(),
        0 <= k < s.domain_members.len(),
        s.domains[s.domain_members[k].domain_id - 1].kind != DomainKind::Dm,
    ensures
        (LedgerState { domain_members: s.domain_members.remove(k), ..s }).wf(),
{
    let t = LedgerState { domain_members: s.domain_members.remove(k), ..s };
    s.domain_members.remove_ensures(k);
    assert(t.members_wf()) by {
        assert forall|i: int, j: int| 0 <= i < j < t.domain_members.len() implies #[trigger] t.domain_members[i].membership_id < #[trigger] t.domain_members[j].membership_id by {
            let i2 = if i < k { i } else { i + 1 };
            let j2 = if j < k { j } else { j + 1 };
            assert(t.domain_members[i] == s.domain_members[i2]);
            assert(t.domain_members[j] == s.domain_members[j2]);
        }
        assert forall|i: int| 0 <= i < t.domain_members.len() implies #[trigger] t.domain_members[i].membership_id < t.next_membership_id by {
            let i2 = if i < k { i } else { i + 1 };
            assert(t.domain_members[i] == s.domain_members[i2]);
        }
        assert forall|i: int| 0 <= i < t.domain_members.len() implies t.domain_exists(#[trigger] t.domain_members[i].domain_id) by {
            let i2 = if i < k { i } else { i + 1 };
            assert(t.domain_members[i] == s.domain_members[i2]);
        }
        assert forall|i: int| 0 <= i < t.domain_members.len() implies t.account_exists(#[trigger] t.domain_members[i].account_id) by {
            let i2 = if i < k { i } else { i + 1 };
            assert(t.domain_members[i] == s.domain_members[i2]);
        }
        assert forall|i: int, j: int|
            0 <= i < t.domain_members.len() && 0 <= j < t.domain_members.len() && i != j
                && #[trigger] t.domain_members[i].domain_id == #[trigger] t.domain_members[j].domain_id
                implies t.domain_members[i].account_id != t.domain_members[j].account_id by {
            let i2 = if i < k { i } else { i + 1 };
            let j2 = if j < k { j } else { j + 1 };
            assert(t.domain_members[i] == s.domain_members[i2]);
            assert(t.domain_members[j] == s.domain_members[j2]);
        }
    }
    assert(t.dms_distinct()) by {
        assert forall|i: int, j: int|
            0 <= i < j < t.domains.len() && #[trigger] t.domains[i].kind == DomainKind::Dm
                && #[trigger] t.domains[j].kind == DomainKind::Dm
                implies t.sorted_member_ids(t.domains[i].domain_id) != t.sorted_member_ids(t.domains[j].domain_id) by {
            assert(s.domains[i].domain_id == i + 1);
            assert(s.domains[j].domain_id == j + 1);
            lemma_member_ids_remove_other(s.domain_members, k, t.domains[i].domain_id);
            lemma_member_ids_remove_other(s.domain_members, k, t.domains[j].domain_id);
        }
    }
}

/// When every message's sequence number is at most its position plus one, the largest
/// sequence number of a domain is at most the number of messages, and bounds every
/// sequence number of that domain.
pub proof fn lemma_domain_sequences_bound(ms: Seq<Message>, d: u64)
    requires
        forall|i: int| 0 <= i < ms.len() ==> #[trigger] ms[i].domain_sequence <= i + 1,
    ensures
        seq_max(domain_sequences(ms, d)) <= ms.len(),
        forall|i: int| 0 <= i < ms.len() && #[trigger] ms[i].domain_id == d ==> ms[i].domain_sequence
            <= seq_max(domain_sequences(ms, d)),
    decreases ms.len(),
{
    if ms.len() > 0 {
        let p = ms.drop_last();
        assert forall|i: int| 0 <= i < p.len() implies #[trigger] p[i].domain_sequence <= i + 1 by {
            assert(p[i] == ms[i]);
        }
        lemma_domain_sequences_bound(p, d);
        let rest = domain_sequences(p, d);
        if ms.last().domain_id == d {
            assert(rest.push(ms.last().domain_sequence).drop_last() =~= rest);
            assert(domain_sequences(ms, d) == rest.push(ms.last().domain_sequence));
        } else {
            assert(domain_sequences(ms, d) == rest);
        }
        assert forall|i: int| 0 <= i < ms.len() && #[trigger] ms[i].domain_id == d implies ms[i].domain_sequence
            <= seq_max(domain_sequences(ms, d)) by {
            if i < p.len() {
                assert(p[i] == ms[i]);
            }
        }
        assert(ms[ms.len() - 1].domain_sequence <= ms.len());
    }
}

/// Appending a message that satisfies the message rules keeps the ledger well formed.
pub proof fn lemma_push_message_wf(s: LedgerState, m: Message)
    requires
        s.wf(),
        m.message_id == s.messages.len() + 1,
        s.domain_exists(m.domain_id),
        s.account_exists(m.author_account_id),
        m.domain_sequence == seq_max(domain_sequences(s.messages, m.domain_id)) + 1,
        m.reply_to_message_id matches Some(r) ==> 1 <= r <= s.messages.len() && s.messages[r - 1].domain_id
            == m.domain_id,
        s.body_within_limit(m),
    ensures
        (LedgerState { messages: s.messages.push(m), ..s }).wf(),
{
    let t = LedgerState { messages: s.messages.push(m), ..s };
    assert forall|i: int| 0 <= i < s.messages.len() implies #[trigger] s.messages[i].domain_sequence <= i + 1 by {
        assert(s.messages[i].message_id == i + 1);
    }
    lemma_domain_sequences_bound(s.messages, m.domain_id);
    assert(t.ids_wf()) by {
        assert forall|i: int| 0 <= i < t.messages.len() implies #[trigger] t.messages[i].message_id == i + 1 by {
            if i < s.messages.len() {
                assert(t.messages[i] == s.messages[i]);
            }
        }
    }
    assert(t.messages_wf()) by {
        assert forall|i: int| 0 <= i < t.messages.len() implies t.domain_exists(#[trigger] t.messages[i].domain_id) by {
            if i < s.messages.len() {
                assert(t.messages[i] == s.messages[i]);
            }
        }
        assert forall|i: int| 0 <= i < t.messages.len() implies t.account_exists(#[trigger] t.messages[i].author_account_id) by {
            if i < s.messages.len() {
                assert(t.messages[i] == s.messages[i]);
            }
        }
        assert forall|i: int| 0 <= i < t.messages.len() implies 1 <= #[trigger] t.messages[i].domain_sequence <= t.messages[i].message_id by {
            if i < s.messages.len() {
                assert(t.messages[i] == s.messages[i]);
            }
        }
        assert forall|i: int, j: int|
            0 <= i < j < t.messages.len() && #[trigger] t.messages[i].domain_id == #[trigger] t.messages[j].domain_id
                implies t.messages[i].domain_sequence < t.messages[j].domain_sequence by {
            assert(t.messages[i] == s.messages[i]);
            if j < s.messages.len() {
                assert(t.messages[j] == s.messages[j]);
            }
        }
        assert forall|i: int| 0 <= i < t.messages.len() && (#[trigger] t.messages[i]).reply_to_message_id is Some
            implies ({
                let r = t.messages[i].reply_to_message_id->0;
                &&& 1 <= r < t.messages[i].message_id
                &&& t.messages[r - 1].domain_id == t.messages[i].domain_id
            }) by {
            if i < s.messages.len() {
                assert(t.messages[i] == s.messages[i]);
                let r = s.messages[i].reply_to_message_id->0;
                assert(t.messages[r - 1] == s.messages[r - 1]);
            } else {
                let r = m.reply_to_message_id->0;
                assert(t.messages[r - 1] == s.messages[r - 1]);
            }
        }
        assert forall|i: int| 0 <= i < t.messages.len() implies t.body_within_limit(#[trigger] t.messages[i]) by {
            if i < s.messages.len() {
                assert(t.messages[i] == s.messages[i]);
            }
        }
    }
}

/// Replacing a subscription row by one with the same subscriber and domain keeps the
/// ledger well formed.
pub proof fn lemma_update_subscription_wf(s: LedgerState, i: int, sub: Subscription)
    requires
        s.wf(),
        0 <= i < s.subscriptions.len(),
        sub.subscription_id == s.subscriptions[i].subscription_id,
        sub.subscriber_account_id == s.subscriptions[i].subscriber_account_id,
        sub.domain_id == s.subscriptions[i].domain_id,
    ensures
        (LedgerState { subscriptions: s.subscriptions.update(i, sub), ..s }).wf(),
{
    let t = LedgerState { subscriptions: s.subscriptions.update(i, sub), ..s };
    assert(t.ids_wf()) by {
        assert forall|k: int| 0 <= k < t.subscriptions.len() implies #[trigger] t.subscriptions[k].subscription_id == k + 1 by {
            assert(s.subscriptions[k].subscription_id == k + 1);
        }
    }
    assert(t.subscriptions_wf()) by {
        assert forall|k: int| 0 <= k < t.subscriptions.len() implies t.account_exists(#[trigger] t.subscriptions[k].subscriber_account_id) by {
            assert(t.subscriptions[k].subscriber_account_id == s.subscriptions[k].subscriber_account_id);
        }
        assert forall|k: int| 0 <= k < t.subscriptions.len() implies t.domain_exists(#[trigger] t.subscriptions[k].domain_id) by {
            assert(t.subscriptions[k].domain_id == s.subscriptions[k].domain_id);
        }
        assert forall|a: int, b: int|
            0 <= a < t.subscriptions.len() && 0 <= b < t.subscriptions.len() && a != b
                && #[trigger] t.subscriptions[a].domain_id == #[trigger] t.subscriptions[b].domain_id
                implies t.subscriptions[a].subscriber_account_id != t.subscriptions[b].subscriber_account_id by {
            assert(t.subscriptions[a].domain_id == s.subscriptions[a].domain_id);
            assert(t.subscriptions[b].domain_id == s.subscriptions[b].domain_id);
            assert(t.subscriptions[a].subscriber_account_id == s.subscriptions[a].subscriber_account_id);
            assert(t.subscriptions[b].subscriber_account_id == s.subscriptions[b].subscriber_account_id);
        }
    }
}

/// Appending a subscription of an existing account to an existing domain it had no
/// subscription to keeps the ledger well formed.
pub proof fn lemma_push_subscription_wf(s: LedgerState, sub: Subscription)
    requires
        s.wf(),
        sub.subscription_id == s.subscriptions.len() + 1,
        s.account_exists(sub.subscriber_account_id),
        s.domain_exists(sub.domain_id),
        s.subscription_index(sub.subscriber_account_id, sub.domain_id) is None,
    ensures
        (LedgerState { subscriptions: s.subscriptions.push(sub), ..s }).wf(),
{
    let t = LedgerState { subscriptions: s.subscriptions.push(sub), ..s };
    lemma_find_index(s.subscriptions, crate::ledger::subscription_pred(sub.subscriber_account_id, sub.domain_id));
    assert(t.ids_wf()) by {
        assert forall|k: int| 0 <= k < t.subscriptions.len() implies #[trigger] t.subscriptions[k].subscription_id == k + 1 by {
            if k < s.subscriptions.len() {
                assert(t.subscriptions[k] == s.subscriptions[k]);
            }
        }
    }
    assert(t.subscriptions_wf()) by {
        assert forall|k: int| 0 <= k < t.subscriptions.len() implies t.account_exists(#[trigger] t.subscriptions[k].subscriber_account_id) by {
            if k < s.subscriptions.len() {
                assert(t.subscriptions[k] == s.subscriptions[k]);
            }
        }
        assert forall|k: int| 0 <= k < t.subscriptions.len() implies t.domain_exists(#[trigger] t.subscriptions[k].domain_id) by {
            if k < s.subscriptions.len() {
                assert(t.subscriptions[k] == s.subscriptions[k]);
            }
        }
        assert forall|a: int, b: int|
            0 <= a < t.subscriptions.len() && 0 <= b < t.subscriptions.len() && a != b
                && #[trigger] t.subscriptions[a].domain_id == #[trigger] t.subscriptions[b].domain_id
                implies t.subscriptions[a].subscriber_account_id != t.subscriptions[b].subscriber_account_id by {
            if a < s.subscriptions.len() {
                assert(t.subscriptions[a] == s.subscriptions[a]);
            }
            if b < s.subscriptions.len() {
                assert(t.subscriptions[b] == s.subscriptions[b]);
            }
            if a == s.subscriptions.len() {
                assert(!(crate::ledger::subscription_pred(sub.subscriber_account_id, sub.domain_id))(s.subscriptions[b]));
            }
            if b == s.subscriptions.len() {
                assert(!(crate::ledger::subscription_pred(sub.subscriber_account_id, sub.domain_id))(s.subscriptions[a]));
            }
        }
    }
}

/// Filtering a strictly ascending sequence keeps it strictly ascending, and keeps only
/// elements of it other than the excluded value.
pub proof fn lemma_filter_other_than(p: Seq<u64>, v: u64)
    requires
        strictly_ascending(p),
    ensures
        strictly_ascending(p.filter(other_than(v))),
        forall|k: int| 0 <= k < p.filter(other_than(v)).len() ==> p.contains(#[trigger] p.filter(other_than(v))[k])
            && p.filter(other_than(v))[k] != v,
        forall|x: u64| p.contains(x) && x != v ==> p.filter(other_than(v)).contains(x),
    decreases p.len(),
{
    reveal(Seq::filter);
    if p.len() > 0 {
        let t = p.drop_last();
        let a = p.last();
        assert(t.push(a) =~= p);
        assert(strictly_ascending(t));
        lemma_filter_other_than(t, v);
        t.lemma_filter_push(a, other_than(v));
        let ft = t.filter(other_than(v));
        let f = p.filter(other_than(v));
        assert forall|k: int| 0 <= k < ft.len() implies #[trigger] ft[k] < a by {
            assert(t.contains(ft[k]));
            let j = choose|j: int| 0 <= j < t.len() && t[j] == ft[k];
            assert(p[j] < p[p.len() - 1]);
        }
        assert forall|k: int| 0 <= k < f.len() implies p.contains(#[trigger] f[k]) && f[k] != v by {
            if k < ft.len() {
                assert(f[k] == ft[k]);
                assert(t.contains(ft[k]));
                let j = choose|j: int| 0 <= j < t.len() && t[j] == ft[k];
                assert(p[j] == f[k]);
            } else {
                assert(f[k] == a);
                assert(p[p.len() - 1] == a);
            }
        }
        assert forall|x: u64| p.contains(x) && x != v implies f.contains(x) by {
            let j = choose|j: int| 0 <= j < p.len() && p[j] == x;
            if j < p.len() - 1 {
                assert(t[j] == x);
                assert(ft.contains(x));
                let k = choose|k: int| 0 <= k < ft.len() && ft[k] == x;
                assert(f[k] == x);
            } else {
                assert(f[f.len() - 1] == x);
            }
        }
    }
}

/// Filtering out one value removes its occurrences from the multiset and keeps the rest.
pub proof fn lemma_filter_other_than_counts(s: Seq<u64>, v: u64)
    ensures
        forall|x: u64| #[trigger] s.filter(other_than(v)).to_multiset().count(x) == if x == v {
            0nat
        } else {
            s.to_multiset().count(x)
        },
    decreases s.len(),
{
    broadcast use group_to_multiset_ensures;
    broadcast use vstd::multiset::group_multiset_axioms;

    if s.len() == 0 {
        s.lemma_filter_len(other_than(v));
        assert(s.filter(other_than(v)) =~= Seq::<u64>::empty());
        assert(s =~= Seq::<u64>::empty());
    } else {
        let t = s.drop_last();
        let a = s.last();
        lemma_filter_other_than_counts(t, v);
        assert(t.push(a) =~= s);
        t.lemma_filter_push(a, other_than(v));
        t.to_multiset_ensures();
        t.filter(other_than(v)).to_multiset_ensures();
    }
}

/// A DM's member list (creator first, then the other participants) is a permutation of
/// the participant list.
pub proof fn lemma_dm_member_multiset(p: Seq<u64>, v: u64)
    requires
        strictly_ascending(p),
        p.contains(v),
    ensures
        (seq![v] + p.filter(other_than(v))).to_multiset() == p.to_multiset(),
{
    broadcast use group_to_multiset_ensures;
    broadcast use vstd::multiset::group_multiset_axioms;

    let f = p.filter(other_than(v));
    lemma_filter_other_than_counts(p, v);
    assert(p.no_duplicates());
    p.lemma_multiset_has_no_duplicates();
    p.to_multiset_ensures();
    assert(p.to_multiset().count(v) == 1);
    vstd::seq_lib::lemma_multiset_commutative(seq![v], f);
    assert(seq![v] =~= Seq::<u64>::empty().push(v));
    Seq::<u64>::empty().to_multiset_ensures();
    assert(seq![v].to_multiset() =~= vstd::multiset::Multiset::<u64>::empty().insert(v));
    assert((seq![v] + f).to_multiset() =~= p.to_multiset());
}

/// A domain's member list over two concatenated tables is the concatenation.
pub proof fn lemma_member_ids_append(a: Seq<DomainMember>, b: Seq<DomainMember>, d: u64)
    ensures
        member_account_ids(a + b, d) == member_account_ids(a, d) + member_account_ids(b, d),
    decreases b.len(),
{
    if b.len() == 0 {
        assert(a + b =~= a);
        assert(member_account_ids(a, d) + member_account_ids(b, d) =~= member_account_ids(a, d));
    } else {
        lemma_member_ids_append(a, b.drop_last(), d);
        assert((a + b).drop_last() =~= a + b.drop_last());
        assert((a + b).last() == b.last());
        let x = member_account_ids(a, d);
        let y = member_account_ids(b.drop_last(), d);
        assert((x + y).push(b.last().account_id) =~= x + y.push(b.last().account_id));
    }
}

/// A domain none of whose rows are in a table has no members there.
pub proof fn lemma_member_ids_none(ms: Seq<DomainMember>, d: u64)
    requires
        forall|i: int| 0 <= i < ms.len() ==> #[trigger] ms[i].domain_id != d,
    ensures
        member_account_ids(ms, d) == Seq::<u64>::empty(),
    decreases ms.len(),
{
    if ms.len() > 0 {
        assert forall|i: int| 0 <= i < ms.len() - 1 implies #[trigger] ms.drop_last()[i].domain_id != d by {
            assert(ms.drop_last()[i] == ms[i]);
        }
        lemma_member_ids_none(ms.drop_last(), d);
    }
}

/// When every row of a table is of a domain, its member list lists every row's account.
pub proof fn lemma_member_ids_all(ms: Seq<DomainMember>, d: u64)
    requires
        forall|i: int| 0 <= i < ms.len() ==> #[trigger] ms[i].domain_id == d,
    ensures
        member_account_ids(ms, d) == Seq::new(ms.len(), |k: int| ms[k].account_id),
    decreases ms.len(),
{
    if ms.len() > 0 {
        assert forall|i: int| 0 <= i < ms.len() - 1 implies #[trigger] ms.drop_last()[i].domain_id == d by {
            assert(ms.drop_last()[i] == ms[i]);
        }
        lemma_member_ids_all(ms.drop_last(), d);
        assert(member_account_ids(ms, d) =~= Seq::new(ms.len(), |k: int| ms[k].account_id));
    } else {
        assert(member_account_ids(ms, d) =~= Seq::new(ms.len(), |k: int| ms[k].account_id));
    }
}

/// Making a DM for a participant set no DM holds yet keeps the ledger well formed, and
/// the new DM's sorted member list is the participant list.
pub proof fn lemma_create_dm_wf(
    s: LedgerState,
    post: LedgerState,
    creator: u64,
    p: Seq<u64>,
    title: String,
    now: Timestamp,
)
    requires
        s.wf(),
        s.domains.len() < u64::MAX,
        dm_created(s, post, creator, p, title, now),
        strictly_ascending(p),
        p.contains(creator),
        forall|x: u64| p.contains(x) ==> s.account_exists(x),
        dm_index(s, p) is None,
    ensures
        post.wf(),
        post.sorted_member_ids((s.domains.len() + 1) as u64) == p,
        forall|d: u64| d != (s.domains.len() + 1) as u64 ==> #[trigger] member_account_ids(post.domain_members, d) == member_account_ids(s.domain_members, d),
{
    let id = (s.domains.len() + 1) as u64;
    let base = s.domain_members.len() as int;
    let others = p.filter(other_than(creator));
    let tail = post.domain_members.skip(base);
    lemma_filter_other_than(p, creator);
    assert(post.domain_members =~= s.domain_members + tail);
    assert(post.domains =~= s.domains.push(post.domains[s.domains.len() as int]));
    assert(post.next_membership_id == s.next_membership_id + 1 + others.len());
    assert(post.next_membership_id <= u64::MAX);
    assert forall|k: int| 0 <= k < tail.len() implies (#[trigger] tail[k]).domain_id == id && tail[k].membership_id == s.next_membership_id + k by {
        assert(tail[k] == post.domain_members[base + k]);
        if k > 0 {
            let k1 = k - 1;
            assert(0 <= k1 < others.len());
            assert(post.domain_members[base + 1 + k1] == (DomainMember {
                membership_id: (s.next_membership_id + 1 + k1) as u64,
                domain_id: id,
                account_id: others[k1],
                role: DomainRole::Member,
                joined_at: now,
            }));
        }
    }
    lemma_member_ids_all(tail, id);
    assert(Seq::new(tail.len(), |k: int| tail[k].account_id) =~= seq![creator] + others) by {
        assert forall|k: int| 0 <= k < tail.len() implies tail[k].account_id == (seq![creator] + others)[k] by {
            assert(tail[k] == post.domain_members[base + k]);
            if k > 0 {
                assert(others[k - 1] == others[k - 1]);
            }
        }
    }
    assert forall|i: int| 0 <= i < s.domain_members.len() implies #[trigger] s.domain_members[i].domain_id != id by {
        assert(s.domain_exists(s.domain_members[i].domain_id));
    }
    lemma_member_ids_none(s.domain_members, id);
    lemma_member_ids_append(s.domain_members, tail, id);
    assert(member_account_ids(post.domain_members, id) =~= seq![creator] + others);
    lemma_dm_member_multiset(p, creator);
    lemma_strict_sorted(p);
    lemma_sorted_permutation(p, seq![creator] + others);
    assert(post.sorted_member_ids(id) == p);
    assert forall|d: u64| d != id implies member_account_ids(post.domain_members, d) == member_account_ids(s.domain_members, d) by {
        assert forall|k: int| 0 <= k < tail.len() implies #[trigger] tail[k].domain_id != d by {}
        lemma_member_ids_none(tail, d);
        lemma_member_ids_append(s.domain_members, tail, d);
        assert(member_account_ids(s.domain_members, d) + Seq::<u64>::empty() =~= member_account_ids(s.domain_members, d));
    }
    assert(post.ids_wf()) by {
        assert forall|i: int| 0 <= i < post.domains.len() implies #[trigger] post.domains[i].domain_id == i + 1 by {
            if i < s.domains.len() {
                assert(post.domains[i] == s.domains[i]);
            }
        }
    }
    assert(post.domains_wf()) by {
        assert forall|i: int| 0 <= i < post.domains.len() implies post.account_exists(#[trigger] post.domains[i].created_by_account_id) by {
            if i < s.domains.len() {
                assert(post.domains[i] == s.domains[i]);
            }
        }
    }
    assert(post.slugs_distinct()) by {
        assert forall|i: int, j: int|
            0 <= i < j < post.domains.len() && #[trigger] post.domains[i].kind != DomainKind::Dm
                && #[trigger] post.domains[j].kind != DomainKind::Dm
                implies post.domains[i].slug@ != post.domains[j].slug@ by {
            assert(post.domains[i] == s.domains[i]);
            if j < s.domains.len() {
                assert(post.domains[j] == s.domains[j]);
            }
        }
    }
    assert(post.members_wf()) by {
        let ms = post.domain_members;
        assert forall|i: int| 0 <= i < ms.len() implies #[trigger] ms[i] == if i < base { s.domain_members[i] } else { tail[i - base] } by {}
        assert forall|i: int| base <= i < ms.len() implies (#[trigger] ms[i]).account_id == creator || (ms[i].account_id != creator && p.contains(ms[i].account_id)) by {
            assert(ms[i] == post.domain_members[base + (i - base)]);
            if i > base {
                let k = i - base - 1;
                assert(ms[i].account_id == others[k]);
            }
        }
        assert forall|i: int, j: int| 0 <= i < j < ms.len() implies #[trigger] ms[i].membership_id < #[trigger] ms[j].membership_id by {
            if j >= base && i < base {
                assert(s.domain_members[i].membership_id < s.next_membership_id);
                assert(tail[j - base].membership_id == s.next_membership_id + (j - base));
            } else if i >= base {
                assert(tail[j - base].membership_id == s.next_membership_id + (j - base));
                assert(tail[i - base].membership_id == s.next_membership_id + (i - base));
            }
        }
        assert forall|i: int| 0 <= i < ms.len() implies #[trigger] ms[i].membership_id < post.next_membership_id by {}
        assert forall|i: int| 0 <= i < ms.len() implies post.domain_exists(#[trigger] ms[i].domain_id) by {}
        assert forall|i: int| 0 <= i < ms.len() implies post.account_exists(#[trigger] ms[i].account_id) by {}
        assert forall|i: int, j: int|
            0 <= i < ms.len() && 0 <= j < ms.len() && i != j && #[trigger] ms[i].domain_id == #[trigger] ms[j].domain_id
                implies ms[i].account_id != ms[j].account_id by {
            if i >= base && j >= base {
                if i > base && j > base {
                    assert(ms[i].account_id == others[i - base - 1]);
                    assert(ms[j].account_id == others[j - base - 1]);
                    if i - base - 1 < j - base - 1 {
                        assert(others[i - base - 1] < others[j - base - 1]);
                    } else {
                        assert(others[j - base - 1] < others[i - base - 1]);
                    }
                } else if i > base {
                    assert(ms[i].account_id == others[i - base - 1]);
                } else if j > base {
                    assert(ms[j].account_id == others[j - base - 1]);
                }
            } else if i >= base {
                assert(s.domain_exists(s.domain_members[j].domain_id));
            } else if j >= base {
                assert(s.domain_exists(s.domain_members[i].domain_id));
            }
        }
    }
    assert(post.dms_distinct()) by {
        assert forall|i: int, j: int|
            0 <= i < j < post.domains.len() && #[trigger] post.domains[i].kind == DomainKind::Dm
                && #[trigger] post.domains[j].kind == DomainKind::Dm
                implies post.sorted_member_ids(post.domains[i].domain_id) != post.sorted_member_ids(post.domains[j].domain_id) by {
            assert(post.domains[i] == s.domains[i]);
            assert(s.domains[i].domain_id == i + 1);
            assert(member_account_ids(post.domain_members, s.domains[i].domain_id) == member_account_ids(s.domain_members, s.domains[i].domain_id));
            if j < s.domains.len() {
                assert(post.domains[j] == s.domains[j]);
                assert(s.domains[j].domain_id == j + 1);
                assert(member_account_ids(post.domain_members, s.domains[j].domain_id) == member_account_ids(s.domain_members, s.domains[j].domain_id));
            } else {
                lemma_find_index(s.domains, dm_pred(s, p));
                assert(!(dm_pred(s, p))(s.domains[i]));
            }
        }
    }
}

/// When no participant other than the sender is refused, every one of them names an
/// existing account.
pub proof fn lemma_participants_exist(s: LedgerState, p: Seq<u64>, sender_account_id: u64)
    requires
        s.ids_wf(),
        crate::rules::participants_error(s, p, sender_account_id) is None,
    ensures
        forall|j: int| 0 <= j < p.len() && p[j] != sender_account_id ==> s.account_exists(#[trigger] p[j]),
    decreases p.len(),
{
    if p.len() > 0 {
        lemma_participants_exist(s, p.drop_first(), sender_account_id);
        assert forall|j: int| 0 <= j < p.len() && p[j] != sender_account_id implies s.account_exists(#[trigger] p[j]) by {
            if j == 0 {
                lemma_account_found(s, p[0]);
            } else {
                assert(p.drop_first()[j - 1] == p[j]);
            }
        }
    }
}

/// A sequence is a prefix of itself.
pub proof fn lemma_prefix_refl<T>(s: Seq<T>)
    ensures
        s.is_prefix_of(s),
{
    assert(s =~= s.subrange(0, s.len() as int));
}

/// A sequence is a prefix of itself with one more element.
pub proof fn lemma_prefix_push<T>(s: Seq<T>, x: T)
    ensures
        s.is_prefix_of(s.push(x)),
{
    assert(s =~= s.push(x).subrange(0, s.len() as int));
}

/// Changing only the membership rows of named domains keeps the history, in a
/// well-formed ledger.
pub proof fn lemma_history_members_only(s: LedgerState, t: LedgerState)
    requires
        s.ids_wf(),
        t.accounts == s.accounts,
        t.domains == s.domains,
        t.messages == s.messages,
        t.account_keys == s.account_keys,
        forall|i: int| 0 <= i < s.domains.len() && (#[trigger] s.domains[i]).kind == DomainKind::Dm
            ==> member_account_ids(t.domain_members, s.domains[i].domain_id) == member_account_ids(s.domain_members, s.domains[i].domain_id),
    ensures
        crate::rules::history_kept(s, t),
{
    lemma_prefix_refl(s.accounts);
    lemma_prefix_refl(s.domains);
    lemma_prefix_refl(s.messages);
}

/// Adding a member to a domain that is no existing DM keeps the history.
pub proof fn lemma_history_with_member(
    s: LedgerState,
    domain_id: u64,
    account_id: u64,
    role: DomainRole,
    now: Timestamp,
)
    requires
        s.ids_wf(),
        forall|i: int| 0 <= i < s.domains.len() && (#[trigger] s.domains[i]).kind == DomainKind::Dm ==> s.domains[i].domain_id != domain_id,
    ensures
        crate::rules::history_kept(s, with_member(s, domain_id, account_id, role, now)),
{
    let t = with_member(s, domain_id, account_id, role, now);
    assert forall|i: int| 0 <= i < s.domains.len() && (#[trigger] s.domains[i]).kind == DomainKind::Dm
        implies member_account_ids(t.domain_members, s.domains[i].domain_id) == member_account_ids(s.domain_members, s.domains[i].domain_id) by {
        lemma_member_ids_push_other(s.domain_members, t.domain_members.last(), s.domains[i].domain_id);
        assert(t.domain_members == s.domain_members.push(t.domain_members.last()));
    }
    lemma_history_members_only(s, t);
}

/// Deleting a membership row of a domain that is no DM keeps the history.
pub proof fn lemma_history_remove_member(s: LedgerState, k: int)
    requires
        s.ids_wf(),
        0 <= k < s.domain_members.len(),
        forall|i: int| 0 <= i < s.domains.len() && (#[trigger] s.domains[i]).kind == DomainKind::Dm ==> s.domains[i].domain_id != s.domain_members[k].domain_id,
    ensures
        crate::rules::history_kept(s, LedgerState { domain_members: s.domain_members.remove(k), ..s }),
{
    let t = LedgerState { domain_members: s.domain_members.remove(k), ..s };
    assert forall|i: int| 0 <= i < s.domains.len() && (#[trigger] s.domains[i]).kind == DomainKind::Dm
        implies member_account_ids(t.domain_members, s.domains[i].domain_id) == member_account_ids(s.domain_members, s.domains[i].domain_id) by {
        lemma_member_ids_remove_other(s.domain_members, k, s.domains[i].domain_id);
    }
    lemma_history_members_only(s, t);
}

/// A new named domain with its owner keeps the history.
pub proof fn lemma_history_new_domain(s: LedgerState, d: Domain, owner: u64, now: Timestamp)
    requires
        s.ids_wf(),
        d.domain_id == s.domains.len() + 1,
    ensures
        crate::rules::history_kept(s, with_member(LedgerState { domains: s.domains.push(d), ..s }, d.domain_id, owner, DomainRole::Owner, now)),
{
    let m = LedgerState { domains: s.domains.push(d), ..s };
    let t = with_member(m, d.domain_id, owner, DomainRole::Owner, now);
    lemma_prefix_refl(s.accounts);
    lemma_prefix_push(s.domains, d);
    lemma_prefix_refl(s.messages);
    assert forall|i: int| 0 <= i < s.domains.len() && (#[trigger] s.domains[i]).kind == DomainKind::Dm
        implies member_account_ids(t.domain_members, s.domains[i].domain_id) == member_account_ids(s.domain_members, s.domains[i].domain_id) by {
        lemma_member_ids_push_other(s.domain_members, t.domain_members.last(), s.domains[i].domain_id);
        assert(t.domain_members == s.domain_members.push(t.domain_members.last()));
    }
}

} // verus!
