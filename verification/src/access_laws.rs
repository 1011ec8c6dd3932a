use vstd::prelude::*;

use crate::ledger::{domain_pred, key_pred, lemma_find_index, membership_pred, LedgerState};
use crate::model::{DomainKind, DomainRole, Identity};
use crate::rules::{
    add_domain_member_error, join_domain_error, post_message_error, remove_domain_member_error,
    revoke_account_key_error, subscribe_domain_error,
};
use crate::validation::body_error;

verus! {

/// The account has a membership row in the domain.
pub open spec fn has_row(s: LedgerState, domain_id: u64, account_id: u64) -> bool {
    exists|j: int|
        0 <= j < s.domain_members.len() && (#[trigger] s.domain_members[j]).domain_id == domain_id
            && s.domain_members[j].account_id == account_id
}

/// `is_member` is having a membership row.
proof fn lemma_is_member(s: LedgerState, domain_id: u64, account_id: u64)
    ensures
        s.is_member(domain_id, account_id) <==> has_row(s, domain_id, account_id),
{
    lemma_find_index(s.domain_members, membership_pred(domain_id, account_id));
    if has_row(s, domain_id, account_id) {
        let j = choose|j: int|
            0 <= j < s.domain_members.len() && (#[trigger] s.domain_members[j]).domain_id
                == domain_id && s.domain_members[j].account_id == account_id;
        assert((membership_pred(domain_id, account_id))(s.domain_members[j]));
    }
}

/// Who may post: once the caller acts for an active account, the domain exists and the
/// body passes its check, a post that replies to nothing is accepted exactly when the
/// domain is public or the caller's account belongs to it.
pub proof fn law_who_may_post(s: LedgerState, sender: Identity, domain_id: u64, body: Seq<char>)
    requires
        s.active_account(sender) is Some,
        s.domain(domain_id) is Some,
        body_error(body, s.domain(domain_id)->0.message_char_limit as nat) is None,
    ensures
        post_message_error(s, sender, domain_id, body, None) is None <==> (s.domain(
            domain_id,
        )->0.kind == DomainKind::Public || has_row(
            s,
            domain_id,
            s.active_account(sender)->0.account_id,
        )),
{
    lemma_find_index(s.domains, domain_pred(domain_id));
    lemma_is_member(s, domain_id, s.active_account(sender)->0.account_id);
}

/// Who may subscribe: once the caller acts for an active account, the domain exists and
/// the batch window is allowed, a subscription is accepted exactly when the domain is
/// public or the caller's account belongs to it.
pub proof fn law_who_may_subscribe(s: LedgerState, sender: Identity, domain_id: u64, batch_window_seconds: u32)
    requires
        s.active_account(sender) is Some,
        s.domain(domain_id) is Some,
        batch_window_seconds <= 3600,
    ensures
        subscribe_domain_error(s, sender, domain_id, batch_window_seconds) is None <==> (s.domain(
            domain_id,
        )->0.kind == DomainKind::Public || has_row(
            s,
            domain_id,
            s.active_account(sender)->0.account_id,
        )),
{
    lemma_find_index(s.domains, domain_pred(domain_id));
    lemma_is_member(s, domain_id, s.active_account(sender)->0.account_id);
}

/// Only public domains can be joined: for a caller with an active account and an
/// existing domain, `join_domain` is accepted exactly when the domain is public.
pub proof fn law_only_public_domains_are_joined(s: LedgerState, sender: Identity, domain_id: u64)
    requires
        s.active_account(sender) is Some,
        s.domain(domain_id) is Some,
    ensures
        join_domain_error(s, sender, domain_id) is None <==> s.domain(domain_id)->0.kind
            == DomainKind::Public,
{
}

/// Only owners administer members, and only of named domains: an accepted
/// `add_domain_member` or `remove_domain_member` comes from a caller whose account holds
/// an owner's membership row in a domain that is not a DM; an add names an account
/// without a row there, a removal one with a row.
pub proof fn law_only_owners_administer(s: LedgerState, sender: Identity, domain_id: u64, account_id: u64)
    ensures
        add_domain_member_error(s, sender, domain_id, account_id) is None ==> {
            &&& s.active_account(sender) is Some
            &&& s.domain(domain_id) is Some
            &&& s.domain(domain_id)->0.kind != DomainKind::Dm
            &&& exists|j: int|
                0 <= j < s.domain_members.len() && (#[trigger] s.domain_members[j]).domain_id
                    == domain_id && s.domain_members[j].account_id == s.active_account(
                    sender,
                )->0.account_id && s.domain_members[j].role == DomainRole::Owner
            &&& !has_row(s, domain_id, account_id)
        },
        remove_domain_member_error(s, sender, domain_id, account_id) is None ==> {
            &&& s.active_account(sender) is Some
            &&& s.domain(domain_id) is Some
            &&& s.domain(domain_id)->0.kind != DomainKind::Dm
            &&& exists|j: int|
                0 <= j < s.domain_members.len() && (#[trigger] s.domain_members[j]).domain_id
                    == domain_id && s.domain_members[j].account_id == s.active_account(
                    sender,
                )->0.account_id && s.domain_members[j].role == DomainRole::Owner
            &&& has_row(s, domain_id, account_id)
        },
{
    if s.active_account(sender) is Some {
        let a = s.active_account(sender)->0.account_id;
        lemma_find_index(s.domain_members, membership_pred(domain_id, a));
        lemma_is_member(s, domain_id, account_id);
        if s.membership_index(domain_id, a) is Some {
            let j = s.membership_index(domain_id, a)->0;
            assert(s.domain_members[j].domain_id == domain_id);
        }
    }
}

/// Only one's own live keys are revoked: an accepted `revoke_account_key` names a key
/// row bound to the caller's account and not yet revoked.
pub proof fn law_revoke_only_own_live_keys(s: LedgerState, sender: Identity, key_identity: Identity)
    ensures
        revoke_account_key_error(s, sender, key_identity) is None ==> exists|k: int|
            0 <= k < s.account_keys.len() && (#[trigger] s.account_keys[k]).key_identity
                == key_identity && s.account_keys[k].account_id == s.active_account(
                sender,
            )->0.account_id && s.account_keys[k].revoked_at is None,
{
    lemma_find_index(s.account_keys, key_pred(key_identity));
    if revoke_account_key_error(s, sender, key_identity) is None {
        let k = s.key_index(key_identity)->0;
        assert(s.account_keys[k].key_identity == key_identity);
    }
}

} // verus!
