use vstd::prelude::*;

use crate::invariants::{lemma_domain_sequences_bound, lemma_push_named_domain_wf, lemma_with_member_wf, lemma_account_found, lemma_domain_present, lemma_create_dm_wf, lemma_filter_other_than, lemma_participants_exist, lemma_active_account_exists};
use crate::ledger::{
    account_pred, find_index, key_pred, lemma_find_index, member_account_ids, membership_pred,
    LedgerState,
};
use crate::model::{
    AccountStatus, Domain, DomainKind, DomainMember, DomainRole, Identity, Timestamp, MAX_NAMED_DOMAIN_CLAIMS_PER_WINDOW,
};
use crate::participants::{
    lemma_strictly_ascending_unique, lemma_u64_leq_total, seq_max, strictly_ascending, u64_leq,
};
use crate::rules::{
    add_account_key_error, add_account_key_post, claim_cutoff, create_account_error,
    create_account_post, create_dm_error, create_dm_post, create_domain_error,
    create_domain_post, dm_index, dm_participants, dm_pred, domains_created_since,
    participants_error, recent_named_claims, revoke_account_key_error, revoke_account_key_post,
    canonical_participants_error, account_error, dm_lookups, my_dm_domains_view,
    add_domain_member_error, create_domain_reaches_claim_check, domain_sequences,
    join_domain_error, join_domain_post, post_message_error, post_message_post,
    remove_domain_member_error, remove_domain_member_post, slug_claimed, with_member,
    dm_created, other_than,
};
use crate::text::trim;
use crate::validation::title_error;

verus! {

/// After `create_account` succeeds, the calling identity acts for the new account,
/// which is active and holds the handle as given.
pub proof fn law_create_account_binds_sender(s: LedgerState, sender: Identity, now: Timestamp, handle: String)
    requires
        s.wf(),
        s.accounts.len() < u64::MAX,
        create_account_error(s, sender, handle@) is None,
        s.key_index(sender) is None,
    ensures
        ({
            let t = create_account_post(s, sender, now, handle);
            &&& t.active_account(sender) is Some
            &&& t.active_account(sender)->0.account_id == s.accounts.len() + 1
            &&& t.active_account(sender)->0.handle == handle
            &&& t.active_account(sender)->0.status == AccountStatus::Active
        }),
{
    let t = create_account_post(s, sender, now, handle);
    let id = (s.accounts.len() + 1) as u64;
    assert(t.account_keys.drop_last() =~= s.account_keys);
    assert(t.accounts.drop_last() =~= s.accounts);
    assert(t.key_index(sender) == Some(s.account_keys.len() as int));
    lemma_find_index(s.accounts, account_pred(id));
    if s.account_index(id) is Some {
        let i = s.account_index(id)->0;
        assert(s.accounts[i].account_id == i + 1);
    }
    assert(t.account_index(id) == Some(s.accounts.len() as int));
}

/// After `add_account_key` succeeds, the added key identity acts for the caller's
/// account.
pub proof fn law_added_key_acts_for_account(s: LedgerState, sender: Identity, now: Timestamp, key_identity: Identity)
    requires
        s.wf(),
        add_account_key_error(s, sender, key_identity) is None,
    ensures
        add_account_key_post(s, sender, now, key_identity).active_account(key_identity) == s.active_account(sender),
{
    let t = add_account_key_post(s, sender, now, key_identity);
    assert(t.account_keys.drop_last() =~= s.account_keys);
    assert(t.key_index(key_identity) == Some(s.account_keys.len() as int));
    let k = s.key_index(sender)->0;
    lemma_account_found(s, s.account_keys[k].account_id);
}

/// After `revoke_account_key` succeeds, the revoked identity acts for no account.
pub proof fn law_revoked_key_acts_for_nothing(s: LedgerState, sender: Identity, now: Timestamp, key_identity: Identity)
    requires
        s.wf(),
        revoke_account_key_error(s, sender, key_identity) is None,
    ensures
        revoke_account_key_post(s, now, key_identity).active_account(key_identity) is None,
{
    let t = revoke_account_key_post(s, now, key_identity);
    let k = s.key_index(key_identity)->0;
    lemma_find_index(s.account_keys, key_pred(key_identity));
    lemma_find_index(t.account_keys, key_pred(key_identity));
    assert forall|j: int| 0 <= j < t.account_keys.len() implies (#[trigger] t.account_keys[j]).key_identity == s.account_keys[j].key_identity by {}
    match t.key_index(key_identity) {
        Some(j) => {
            assert(!(key_pred(key_identity))(t.account_keys[k]) || j <= k);
            if j < k {
                assert((key_pred(key_identity))(s.account_keys[j]));
            }
            assert(j == k);
        },
        None => {
            assert((key_pred(key_identity))(t.account_keys[k]));
        },
    }
}

/// After `create_domain` succeeds, the creator holds at most the maximum number of named
/// domains created within the claim window ending at the time of the call.
pub proof fn law_named_domain_claims_bounded(
    s: LedgerState,
    sender: Identity,
    now: Timestamp,
    kind: DomainKind,
    slug: String,
    title: String,
    message_char_limit: u16,
)
    requires
        s.wf(),
        s.domains.len() < u64::MAX,
        s.next_membership_id < u64::MAX,
        create_domain_error(s, sender, now, kind, slug@, title@, message_char_limit) is None,
    ensures
        ({
            let t = create_domain_post(s, sender, now, kind, slug, title, message_char_limit);
            recent_named_claims(t, s.active_account(sender)->0.account_id, now) <= MAX_NAMED_DOMAIN_CLAIMS_PER_WINDOW
        }),
{
    let t = create_domain_post(s, sender, now, kind, slug, title, message_char_limit);
    let owner = s.active_account(sender)->0.account_id;
    let cutoff = claim_cutoff(now);
    assert(t.domains.drop_last() =~= s.domains);
    let before = domains_created_since(s.domains, owner, cutoff);
    assert(domains_created_since(t.domains, owner, cutoff) == before.push(t.domains.last()));
    assert(before.push(t.domains.last()).drop_last() =~= before);
}

/// Find-or-create: once `create_dm` succeeded for a participant set, a later
/// `create_dm` by any participant with an active account, naming the same set (the
/// others listed in any order, with repeats, with or without the caller) and a valid
/// title, succeeds and changes nothing: there is one shared DM per participant set.
pub proof fn law_create_dm_finds_existing(
    s: LedgerState,
    t: LedgerState,
    sender: Identity,
    now: Timestamp,
    recipients: Seq<u64>,
    title: String,
    caller: Identity,
    later: Timestamp,
    caller_recipients: Seq<u64>,
    caller_title: String,
)
    requires
        s.wf(),
        s.domains.len() < u64::MAX,
        create_dm_error(s, sender, recipients, title@) is None,
        create_dm_post(s, t, sender, now, recipients, title),
        s.active_account(caller) is Some,
        title_error(caller_title@) is None,
        forall|x: u64|
            (x == s.active_account(sender)->0.account_id || #[trigger] recipients.contains(x)) <==> (x
                == s.active_account(caller)->0.account_id || caller_recipients.contains(x)),
    ensures
        create_dm_error(t, caller, caller_recipients, caller_title@) is None,
        create_dm_post(t, t, caller, later, caller_recipients, caller_title),
        ({
            let p = dm_participants(s.active_account(sender)->0.account_id, recipients);
            &&& dm_index(t, p) is Some
            &&& forall|i: int, j: int|
                0 <= i < t.domains.len() && 0 <= j < t.domains.len() && (dm_pred(t, p))(
                    #[trigger] t.domains[i],
                ) && (dm_pred(t, p))(#[trigger] t.domains[j]) ==> i == j
        }),
{
    let creator = s.active_account(sender)->0.account_id;
    let other = s.active_account(caller)->0.account_id;
    let p = dm_participants(creator, recipients);
    let q = dm_participants(other, caller_recipients);
    // Both calls name the same canonical participant list.
    lemma_dm_participants_exist(creator, recipients);
    lemma_dm_participants_exist(other, caller_recipients);
    assert forall|x: u64| #[trigger] p.contains(x) <==> q.contains(x) by {
        if recipients.contains(x) {
        }
        if caller_recipients.contains(x) {
        }
    }
    lemma_strictly_ascending_unique(p, q);
    // Every participant, the first caller included, has an active account.
    lemma_participants_error_none(s, p, creator);
    let k = s.key_index(sender)->0;
    lemma_account_found(s, s.account_keys[k].account_id);
    assert(account_error(s, creator) is None);
    assert forall|j: int| 0 <= j < p.len() && p[j] != other implies account_error(
        s,
        #[trigger] p[j],
    ) is None by {}
    lemma_participants_error_none(s, p, other);
    if dm_index(s, p) is Some {
        assert(t == s);
        assert(t.wf());
    } else {
        lemma_active_account_exists(s, sender);
        lemma_participants_exist(s, p, creator);
        assert forall|x: u64| p.contains(x) implies s.account_exists(x) by {
            let j = choose|j: int| 0 <= j < p.len() && p[j] == x;
            assert(p[j] == x);
        }
        lemma_create_dm_wf(s, t, creator, p, title, now);
        let id = (s.domains.len() + 1) as u64;
        let n = s.domains.len() as int;
        assert(t.domains[n].domain_id == id);
        lemma_find_index(t.domains, dm_pred(t, p));
        assert((dm_pred(t, p))(t.domains[n]));
        // The accounts and keys are as they were.
        assert(t.accounts == s.accounts);
        assert(t.account_keys == s.account_keys);
        lemma_participants_error_same_accounts(s, t, p, other);
    }
    // No other DM of the ledger holds the same participant list.
    assert forall|i: int, j: int|
        0 <= i < t.domains.len() && 0 <= j < t.domains.len() && (dm_pred(t, p))(
            #[trigger] t.domains[i],
        ) && (dm_pred(t, p))(#[trigger] t.domains[j]) implies i == j by {
        if i < j {
            assert(t.dms_distinct());
        } else if j < i {
            assert(t.dms_distinct());
        }
    }
}

/// The participants pass the check exactly when every participant other than the
/// caller names an active account.
proof fn lemma_participants_error_none(s: LedgerState, p: Seq<u64>, sender_account_id: u64)
    ensures
        participants_error(s, p, sender_account_id) is None <==> forall|j: int|
            0 <= j < p.len() && p[j] != sender_account_id ==> account_error(s, #[trigger] p[j]) is None,
    decreases p.len(),
{
    if p.len() > 0 {
        lemma_participants_error_none(s, p.drop_first(), sender_account_id);
        if participants_error(s, p, sender_account_id) is None {
            assert forall|j: int| 0 <= j < p.len() && p[j] != sender_account_id implies account_error(
                s,
                #[trigger] p[j],
            ) is None by {
                if j > 0 {
                    assert(p.drop_first()[j - 1] == p[j]);
                }
            }
        } else if p[0] == sender_account_id || account_error(s, p[0]) is None {
            let r = p.drop_first();
            let j = choose|j: int|
                0 <= j < r.len() && r[j] != sender_account_id && account_error(s, #[trigger] r[j]) is Some;
            assert(p[j + 1] == r[j]);
        }
    }
}

/// The canonical participant list exists: it is strictly ascending and holds exactly the
/// sender and the recipients.
pub proof fn lemma_dm_participants_exist(sender_account_id: u64, recipients: Seq<u64>)
    ensures
        strictly_ascending(dm_participants(sender_account_id, recipients)),
        forall|x: u64| #[trigger] dm_participants(sender_account_id, recipients).contains(x) <==> (x
            == sender_account_id || recipients.contains(x)),
{
    let w = crate::participants::strict_sorted_set_of(sender_account_id, recipients);
    assert(strictly_ascending(w) && forall|x: u64| #[trigger] w.contains(x) <==> (x == sender_account_id || recipients.contains(x)));
}

/// The refusal of participants depends only on the account table.
pub proof fn lemma_participants_error_same_accounts(s: LedgerState, t: LedgerState, p: Seq<u64>, sender_account_id: u64)
    requires
        t.accounts == s.accounts,
    ensures
        participants_error(t, p, sender_account_id) == participants_error(s, p, sender_account_id),
    decreases p.len(),
{
    if p.len() > 0 {
        lemma_participants_error_same_accounts(s, t, p.drop_first(), sender_account_id);
    }
}

/// A membership row of an account in a DM puts the DM, with its sorted member list,
/// among the account's DM lookups.
proof fn lemma_dm_lookups_has(s: LedgerState, ms: Seq<DomainMember>, account_id: u64, i: int)
    requires
        0 <= i < ms.len(),
        ms[i].account_id == account_id,
        s.domain(ms[i].domain_id) is Some,
        s.domain(ms[i].domain_id)->0.kind == DomainKind::Dm,
    ensures
        ({
            let d = s.domain(ms[i].domain_id)->0;
            dm_lookups(s, ms, account_id).contains(
                (d.domain_id, d.title@, s.sorted_member_ids(d.domain_id)),
            )
        }),
    decreases ms.len(),
{
    let d = s.domain(ms[i].domain_id)->0;
    let entry = (d.domain_id, d.title@, s.sorted_member_ids(d.domain_id));
    let rest = dm_lookups(s, ms.drop_last(), account_id);
    if i < ms.len() - 1 {
        assert(ms.drop_last()[i] == ms[i]);
        lemma_dm_lookups_has(s, ms.drop_last(), account_id, i);
        let k = choose|k: int| 0 <= k < rest.len() && rest[k] == entry;
        let m = ms.last();
        if m.account_id == account_id && s.domain(m.domain_id) is Some && s.domain(
            m.domain_id,
        )->0.kind == DomainKind::Dm {
            let e = s.domain(m.domain_id)->0;
            assert(dm_lookups(s, ms, account_id) == rest.push(
                (e.domain_id, e.title@, s.sorted_member_ids(e.domain_id)),
            ));
            assert(dm_lookups(s, ms, account_id)[k] == entry);
        } else {
            assert(dm_lookups(s, ms, account_id)[k] == entry);
        }
    } else {
        assert(dm_lookups(s, ms, account_id) == rest.push(entry));
        assert(dm_lookups(s, ms, account_id)[rest.len() as int] == entry);
    }
}

/// An account in a domain's member list has a membership row in that domain.
proof fn lemma_member_row(ms: Seq<DomainMember>, domain_id: u64, account_id: u64)
    requires
        member_account_ids(ms, domain_id).contains(account_id),
    ensures
        exists|i: int|
            0 <= i < ms.len() && (#[trigger] ms[i]).domain_id == domain_id && ms[i].account_id
                == account_id,
    decreases ms.len(),
{
    let rest = member_account_ids(ms.drop_last(), domain_id);
    if ms.last().domain_id == domain_id && ms.last().account_id == account_id {
        assert(ms[ms.len() - 1] == ms.last());
    } else {
        if ms.last().domain_id == domain_id {
            let k = choose|k: int|
                0 <= k < rest.push(ms.last().account_id).len() && rest.push(
                    ms.last().account_id,
                )[k] == account_id;
            assert(k < rest.len());
            assert(rest[k] == account_id);
        }
        assert(rest.contains(account_id));
        lemma_member_row(ms.drop_last(), domain_id, account_id);
        let i = choose|i: int|
            0 <= i < ms.drop_last().len() && (#[trigger] ms.drop_last()[i]).domain_id == domain_id
                && ms.drop_last()[i].account_id == account_id;
        assert(ms[i] == ms.drop_last()[i]);
    }
}

/// A DM whose sorted member list holds an account shows up in that account's DM
/// lookups with that member list.
proof fn lemma_dm_seen_by_member(s: LedgerState, i: int, account_id: u64)
    requires
        s.ids_wf(),
        0 <= i < s.domains.len(),
        s.domains[i].kind == DomainKind::Dm,
        s.sorted_member_ids(s.domains[i].domain_id).contains(account_id),
    ensures
        exists|k: int|
            0 <= k < dm_lookups(s, s.domain_members, account_id).len() && (#[trigger] dm_lookups(
                s,
                s.domain_members,
                account_id,
            )[k]).2 == s.sorted_member_ids(s.domains[i].domain_id),
{
    let d = s.domains[i];
    assert(d.domain_id == i + 1);
    lemma_u64_leq_total();
    member_account_ids(s.domain_members, d.domain_id).lemma_sort_by_ensures(u64_leq());
    lemma_member_row(s.domain_members, d.domain_id, account_id);
    let j = choose|j: int|
        0 <= j < s.domain_members.len() && (#[trigger] s.domain_members[j]).domain_id == d.domain_id
            && s.domain_members[j].account_id == account_id;
    lemma_domain_present(s, d.domain_id);
    lemma_dm_lookups_has(s, s.domain_members, account_id, j);
    let entry = (d.domain_id, d.title@, s.sorted_member_ids(d.domain_id));
    let look = dm_lookups(s, s.domain_members, account_id);
    let k = choose|k: int| 0 <= k < look.len() && look[k] == entry;
    assert(look[k].2 == s.sorted_member_ids(d.domain_id));
}

/// A read gives back the write: after `create_dm` succeeds, every participant with an
/// active account finds, through `my_dm_domains`, a DM whose participant list is the
/// canonical list of the call.
pub proof fn law_created_dm_is_discovered(
    s: LedgerState,
    t: LedgerState,
    sender: Identity,
    now: Timestamp,
    recipients: Seq<u64>,
    title: String,
    viewer: Identity,
)
    requires
        s.wf(),
        s.domains.len() < u64::MAX,
        create_dm_error(s, sender, recipients, title@) is None,
        create_dm_post(s, t, sender, now, recipients, title),
        s.active_account(viewer) is Some,
        dm_participants(s.active_account(sender)->0.account_id, recipients).contains(
            s.active_account(viewer)->0.account_id,
        ),
    ensures
        exists|k: int|
            0 <= k < my_dm_domains_view(t, viewer).len() && (#[trigger] my_dm_domains_view(
                t,
                viewer,
            )[k]).2 == dm_participants(s.active_account(sender)->0.account_id, recipients),
{
    let creator = s.active_account(sender)->0.account_id;
    let a = s.active_account(viewer)->0.account_id;
    let p = dm_participants(creator, recipients);
    lemma_dm_participants_exist(creator, recipients);
    match dm_index(s, p) {
        Some(i) => {
            assert(t == s);
            lemma_find_index(s.domains, dm_pred(s, p));
            assert((dm_pred(s, p))(s.domains[i]));
            lemma_dm_seen_by_member(s, i, a);
            let look = dm_lookups(s, s.domain_members, a);
            assert(my_dm_domains_view(t, viewer) == look);
            let k = choose|k: int|
                0 <= k < look.len() && (#[trigger] look[k]).2 == s.sorted_member_ids(
                    s.domains[i].domain_id,
                );
            assert(my_dm_domains_view(t, viewer)[k].2 == p);
        },
        None => {
            lemma_active_account_exists(s, sender);
            lemma_participants_exist(s, p, creator);
            assert forall|x: u64| p.contains(x) implies s.account_exists(x) by {
                let j = choose|j: int| 0 <= j < p.len() && p[j] == x;
                assert(p[j] == x);
            }
            lemma_create_dm_wf(s, t, creator, p, title, now);
            assert(t.accounts == s.accounts);
            assert(t.account_keys == s.account_keys);
            assert(t.active_account(viewer) == s.active_account(viewer));
            let n = s.domains.len() as int;
            assert(t.domains[n].domain_id == s.domains.len() + 1);
            lemma_dm_seen_by_member(t, n, a);
            let look = dm_lookups(t, t.domain_members, a);
            assert(my_dm_domains_view(t, viewer) == look);
            let k = choose|k: int|
                0 <= k < look.len() && (#[trigger] look[k]).2 == t.sorted_member_ids(
                    t.domains[n].domain_id,
                );
            assert(my_dm_domains_view(t, viewer)[k].2 == p);
        },
    }
}

/// A handle given without surrounding white space is held by no earlier account when
/// `create_account` accepts it, so such handles are never shared.
pub proof fn law_trimmed_handle_is_unique(s: LedgerState, sender: Identity, now: Timestamp, handle: String)
    requires
        create_account_error(s, sender, handle@) is None,
        trim(handle@) == handle@,
    ensures
        forall|i: int| 0 <= i < s.accounts.len() ==> (#[trigger] s.accounts[i]).handle@ != handle@,
        create_account_post(s, sender, now, handle).accounts.last().handle == handle,
{
}

/// Per-domain replay order: the message `post_message` appends gets one more than the
/// largest sequence number of its domain (1 for the first message), so it exceeds the
/// sequence number of every earlier message of the domain.
pub proof fn law_post_message_sequence(
    s: LedgerState,
    sender: Identity,
    now: Timestamp,
    domain_id: u64,
    body: String,
    reply_to_message_id: Option<u64>,
)
    requires
        s.wf(),
        s.messages.len() < u64::MAX,
        post_message_error(s, sender, domain_id, body@, reply_to_message_id) is None,
    ensures
        ({
            let t = post_message_post(s, sender, now, domain_id, body, reply_to_message_id);
            let m = t.messages.last();
            &&& t.messages.len() == s.messages.len() + 1
            &&& t.messages.drop_last() == s.messages
            &&& m.domain_id == domain_id
            &&& m.domain_sequence == seq_max(domain_sequences(s.messages, domain_id)) + 1
            &&& forall|i: int|
                0 <= i < s.messages.len() && #[trigger] s.messages[i].domain_id == domain_id
                    ==> s.messages[i].domain_sequence < m.domain_sequence
        }),
{
    assert forall|i: int| 0 <= i < s.messages.len() implies #[trigger] s.messages[i].domain_sequence
        <= i + 1 by {
        assert(s.messages[i].message_id == i + 1);
    }
    lemma_domain_sequences_bound(s.messages, domain_id);
    let t = post_message_post(s, sender, now, domain_id, body, reply_to_message_id);
    assert(t.messages.drop_last() =~= s.messages);
}

/// Public and private domains share one slug namespace that DMs stay out of: a
/// `create_domain` that succeeds leaves no two named domains with the same slug (and
/// the ledger well formed), and one naming a slug a named domain already holds, once
/// its earlier checks pass, is refused with the slug error.
pub proof fn law_named_slugs_stay_unique(
    s: LedgerState,
    sender: Identity,
    now: Timestamp,
    kind: DomainKind,
    slug: String,
    title: String,
    message_char_limit: u16,
)
    requires
        s.wf(),
        s.has_capacity(),
    ensures
        create_domain_error(s, sender, now, kind, slug@, title@, message_char_limit) is None ==> {
            let t = create_domain_post(s, sender, now, kind, slug, title, message_char_limit);
            &&& t.wf()
            &&& t.slugs_distinct()
        },
        create_domain_reaches_claim_check(s, sender, kind, slug@, title@, message_char_limit)
            && recent_named_claims(s, s.active_account(sender)->0.account_id, now)
            < MAX_NAMED_DOMAIN_CLAIMS_PER_WINDOW && slug_claimed(s, slug@) ==> create_domain_error(
            s,
            sender,
            now,
            kind,
            slug@,
            title@,
            message_char_limit,
        ) == Some("That domain slug has already been claimed."@),
{
    if create_domain_error(s, sender, now, kind, slug@, title@, message_char_limit) is None {
        let owner = s.active_account(sender)->0.account_id;
        let id = (s.domains.len() + 1) as u64;
        let d = Domain {
            domain_id: id,
            kind,
            slug,
            title,
            created_by_account_id: owner,
            created_at: now,
            message_char_limit,
        };
        lemma_active_account_exists(s, sender);
        lemma_push_named_domain_wf(s, d);
        let mid = LedgerState { domains: s.domains.push(d), ..s };
        assert forall|i: int| 0 <= i < mid.domain_members.len() implies !(
        #[trigger] mid.domain_members[i].domain_id == id && mid.domain_members[i].account_id
            == owner) by {
            assert(mid.domain_members[i] == s.domain_members[i]);
        }
        lemma_find_index(mid.domain_members, membership_pred(id, owner));
        if mid.membership_index(id, owner) is Some {
            let k = mid.membership_index(id, owner)->0;
            assert((membership_pred(id, owner))(mid.domain_members[k]));
        }
        assert(mid.domains[id - 1] == d);
        lemma_with_member_wf(mid, id, owner, DomainRole::Owner, now);
    }
}

/// `find_index` over a sequence with one more element: an earlier match stays the
/// answer; otherwise the new element is found when it matches.
proof fn lemma_find_index_push<T>(s: Seq<T>, x: T, p: spec_fn(T) -> bool)
    ensures
        find_index(s.push(x), p) == match find_index(s, p) {
            Some(i) => Some(i),
            None => if p(x) {
                Some(s.len() as int)
            } else {
                None
            },
        },
{
    assert(s.push(x).drop_last() =~= s);
}

/// Joining is idempotent: after `join_domain` succeeds, joining the same domain again
/// succeeds and changes nothing, so two calls leave the state one call leaves.
pub proof fn law_join_domain_twice(
    s: LedgerState,
    sender: Identity,
    now: Timestamp,
    later: Timestamp,
    domain_id: u64,
)
    requires
        s.wf(),
        join_domain_error(s, sender, domain_id) is None,
    ensures
        ({
            let t = join_domain_post(s, sender, now, domain_id);
            &&& join_domain_error(t, sender, domain_id) is None
            &&& join_domain_post(t, sender, later, domain_id) == t
        }),
{
    let a = s.active_account(sender)->0.account_id;
    if !s.is_member(domain_id, a) {
        let t = with_member(s, domain_id, a, DomainRole::Member, now);
        let row = t.domain_members.last();
        assert(t.domain_members == s.domain_members.push(row));
        lemma_find_index_push(s.domain_members, row, membership_pred(domain_id, a));
        assert(t.active_account(sender) == s.active_account(sender));
        assert(t.domain(domain_id) == s.domain(domain_id));
        assert(t.is_member(domain_id, a));
    }
}

/// Adding a member to a named domain and then removing it again succeeds and restores
/// the membership table; every other table keeps what the addition left.
pub proof fn law_add_then_remove_member(
    s: LedgerState,
    sender: Identity,
    now: Timestamp,
    domain_id: u64,
    account_id: u64,
    role: DomainRole,
)
    requires
        s.wf(),
        add_domain_member_error(s, sender, domain_id, account_id) is None,
    ensures
        ({
            let t = with_member(s, domain_id, account_id, role, now);
            let u = remove_domain_member_post(t, domain_id, account_id);
            &&& remove_domain_member_error(t, sender, domain_id, account_id) is None
            &&& u.domain_members == s.domain_members
            &&& u == (LedgerState { next_membership_id: t.next_membership_id, ..s })
        }),
{
    let owner = s.active_account(sender)->0.account_id;
    let t = with_member(s, domain_id, account_id, role, now);
    let row = t.domain_members.last();
    assert(t.domain_members == s.domain_members.push(row));
    lemma_find_index_push(s.domain_members, row, membership_pred(domain_id, account_id));
    lemma_find_index_push(s.domain_members, row, membership_pred(domain_id, owner));
    assert(t.active_account(sender) == s.active_account(sender));
    assert(t.domain(domain_id) == s.domain(domain_id));
    assert(s.membership_index(domain_id, owner) is Some);
    lemma_find_index(s.domain_members, membership_pred(domain_id, owner));
    let k = s.membership_index(domain_id, owner)->0;
    assert(t.domain_members[k] == s.domain_members[k]);
    assert(t.membership(domain_id, owner) == s.membership(domain_id, owner));
    assert(t.membership_index(domain_id, account_id) == Some(s.domain_members.len() as int));
    assert(t.domain_members.remove(s.domain_members.len() as int) =~= s.domain_members);
}

/// A named domain the account created at or after a time.
pub open spec fn own_named_since(d: Domain, account_id: u64, cutoff: int) -> bool {
    &&& d.created_by_account_id == account_id
    &&& d.kind != DomainKind::Dm
    &&& d.created_at.micros_since_unix_epoch >= cutoff
}

/// The recent named claims of an account number at least one, two or three exactly
/// when that many of its own named domains were created since the cutoff.
proof fn lemma_claims_witness(ds: Seq<Domain>, account_id: u64, cutoff: int)
    ensures
        ({
            let n = crate::participants::named_domain_count(
                domains_created_since(ds, account_id, cutoff),
            );
            &&& n >= 1 <==> exists|i: int|
                0 <= i < ds.len() && own_named_since(#[trigger] ds[i], account_id, cutoff)
            &&& n >= 2 <==> exists|i: int, j: int|
                0 <= i < j < ds.len() && own_named_since(#[trigger] ds[i], account_id, cutoff)
                    && own_named_since(#[trigger] ds[j], account_id, cutoff)
            &&& n >= 3 <==> exists|i: int, j: int, k: int|
                0 <= i < j < k < ds.len() && own_named_since(#[trigger] ds[i], account_id, cutoff)
                    && own_named_since(#[trigger] ds[j], account_id, cutoff) && own_named_since(
                    #[trigger] ds[k],
                    account_id,
                    cutoff,
                )
        }),
    decreases ds.len(),
{
    if ds.len() > 0 {
        let q = ds.drop_last();
        let x = ds.last();
        let last = ds.len() - 1;
        lemma_claims_witness(q, account_id, cutoff);
        let dq = domains_created_since(q, account_id, cutoff);
        assert(x.created_by_account_id == account_id && x.created_at.micros_since_unix_epoch
            >= cutoff ==> domains_created_since(ds, account_id, cutoff) == dq.push(x));
        assert(dq.push(x).drop_last() =~= dq);
        assert forall|i: int| 0 <= i < q.len() implies q[i] == ds[i] by {}
        if own_named_since(x, account_id, cutoff) {
            // One more claim: the last domain completes each smaller witness.
            if exists|i: int| 0 <= i < q.len() && own_named_since(#[trigger] q[i], account_id, cutoff) {
                let i = choose|i: int| 0 <= i < q.len() && own_named_since(#[trigger] q[i], account_id, cutoff);
                assert(own_named_since(ds[i], account_id, cutoff) && own_named_since(ds[last], account_id, cutoff));
            }
            if exists|i: int, j: int|
                0 <= i < j < q.len() && own_named_since(#[trigger] q[i], account_id, cutoff)
                    && own_named_since(#[trigger] q[j], account_id, cutoff) {
                let (i, j) = choose|i: int, j: int|
                    0 <= i < j < q.len() && own_named_since(#[trigger] q[i], account_id, cutoff)
                        && own_named_since(#[trigger] q[j], account_id, cutoff);
                assert(own_named_since(ds[i], account_id, cutoff) && own_named_since(ds[j], account_id, cutoff)
                    && own_named_since(ds[last], account_id, cutoff));
            }
            assert(own_named_since(ds[last], account_id, cutoff));
            if exists|i: int, j: int|
                0 <= i < j < ds.len() && own_named_since(#[trigger] ds[i], account_id, cutoff)
                    && own_named_since(#[trigger] ds[j], account_id, cutoff) {
                let (i, j) = choose|i: int, j: int|
                    0 <= i < j < ds.len() && own_named_since(#[trigger] ds[i], account_id, cutoff)
                        && own_named_since(#[trigger] ds[j], account_id, cutoff);
                assert(own_named_since(q[i], account_id, cutoff));
            }
            if exists|i: int, j: int, k: int|
                0 <= i < j < k < ds.len() && own_named_since(#[trigger] ds[i], account_id, cutoff)
                    && own_named_since(#[trigger] ds[j], account_id, cutoff) && own_named_since(
                    #[trigger] ds[k],
                    account_id,
                    cutoff,
                ) {
                let (i, j, k) = choose|i: int, j: int, k: int|
                    0 <= i < j < k < ds.len() && own_named_since(#[trigger] ds[i], account_id, cutoff)
                        && own_named_since(#[trigger] ds[j], account_id, cutoff) && own_named_since(
                        #[trigger] ds[k],
                        account_id,
                        cutoff,
                    );
                assert(own_named_since(q[i], account_id, cutoff) && own_named_since(q[j], account_id, cutoff));
            }
        } else {
            // The last domain is no claim: the witnesses are those of the prefix.
            if x.created_by_account_id == account_id && x.created_at.micros_since_unix_epoch >= cutoff {
                assert(x.kind == DomainKind::Dm);
            }
            if exists|i: int| 0 <= i < ds.len() && own_named_since(#[trigger] ds[i], account_id, cutoff) {
                let i = choose|i: int| 0 <= i < ds.len() && own_named_since(#[trigger] ds[i], account_id, cutoff);
                assert(own_named_since(q[i], account_id, cutoff));
            }
            if exists|i: int| 0 <= i < q.len() && own_named_since(#[trigger] q[i], account_id, cutoff) {
                let i = choose|i: int| 0 <= i < q.len() && own_named_since(#[trigger] q[i], account_id, cutoff);
                assert(own_named_since(ds[i], account_id, cutoff));
            }
            if exists|i: int, j: int|
                0 <= i < j < ds.len() && own_named_since(#[trigger] ds[i], account_id, cutoff)
                    && own_named_since(#[trigger] ds[j], account_id, cutoff) {
                let (i, j) = choose|i: int, j: int|
                    0 <= i < j < ds.len() && own_named_since(#[trigger] ds[i], account_id, cutoff)
                        && own_named_since(#[trigger] ds[j], account_id, cutoff);
                assert(own_named_since(q[i], account_id, cutoff) && own_named_since(q[j], account_id, cutoff));
            }
            if exists|i: int, j: int|
                0 <= i < j < q.len() && own_named_since(#[trigger] q[i], account_id, cutoff)
                    && own_named_since(#[trigger] q[j], account_id, cutoff) {
                let (i, j) = choose|i: int, j: int|
                    0 <= i < j < q.len() && own_named_since(#[trigger] q[i], account_id, cutoff)
                        && own_named_since(#[trigger] q[j], account_id, cutoff);
                assert(own_named_since(ds[i], account_id, cutoff) && own_named_since(ds[j], account_id, cutoff));
            }
            if exists|i: int, j: int, k: int|
                0 <= i < j < k < ds.len() && own_named_since(#[trigger] ds[i], account_id, cutoff)
                    && own_named_since(#[trigger] ds[j], account_id, cutoff) && own_named_since(
                    #[trigger] ds[k],
                    account_id,
                    cutoff,
                ) {
                let (i, j, k) = choose|i: int, j: int, k: int|
                    0 <= i < j < k < ds.len() && own_named_since(#[trigger] ds[i], account_id, cutoff)
                        && own_named_since(#[trigger] ds[j], account_id, cutoff) && own_named_since(
                        #[trigger] ds[k],
                        account_id,
                        cutoff,
                    );
                assert(own_named_since(q[i], account_id, cutoff) && own_named_since(q[j], account_id, cutoff)
                    && own_named_since(q[k], account_id, cutoff));
            }
            if exists|i: int, j: int, k: int|
                0 <= i < j < k < q.len() && own_named_since(#[trigger] q[i], account_id, cutoff)
                    && own_named_since(#[trigger] q[j], account_id, cutoff) && own_named_since(
                    #[trigger] q[k],
                    account_id,
                    cutoff,
                ) {
                let (i, j, k) = choose|i: int, j: int, k: int|
                    0 <= i < j < k < q.len() && own_named_since(#[trigger] q[i], account_id, cutoff)
                        && own_named_since(#[trigger] q[j], account_id, cutoff) && own_named_since(
                        #[trigger] q[k],
                        account_id,
                        cutoff,
                    );
                assert(own_named_since(ds[i], account_id, cutoff) && own_named_since(ds[j], account_id, cutoff)
                    && own_named_since(ds[k], account_id, cutoff));
            }
        }
    }
}

/// The claim limit is per account: once the earlier checks of `create_domain` pass, the
/// call is refused for the claim window exactly when three named domains created by the
/// caller's own account fall within the 24 hours before the call; otherwise the outcome
/// is decided by the slug alone, whatever other accounts created.
pub proof fn law_claim_limit_counts_own_domains(
    s: LedgerState,
    sender: Identity,
    now: Timestamp,
    kind: DomainKind,
    slug: Seq<char>,
    title: Seq<char>,
    message_char_limit: u16,
)
    requires
        create_domain_reaches_claim_check(s, sender, kind, slug, title, message_char_limit),
    ensures
        ({
            let a = s.active_account(sender)->0.account_id;
            let cutoff = now.micros_since_unix_epoch - 86400 * 1_000_000;
            let three_own = exists|i: int, j: int, k: int|
                0 <= i < j < k < s.domains.len() && own_named_since(#[trigger] s.domains[i], a, cutoff)
                    && own_named_since(#[trigger] s.domains[j], a, cutoff) && own_named_since(
                    #[trigger] s.domains[k],
                    a,
                    cutoff,
                );
            let taken = exists|i: int|
                0 <= i < s.domains.len() && (#[trigger] s.domains[i]).kind != DomainKind::Dm
                    && s.domains[i].slug@ == slug;
            &&& three_own ==> create_domain_error(s, sender, now, kind, slug, title, message_char_limit)
                == Some("You may only create 3 named domains every 24 hours."@)
            &&& !three_own ==> create_domain_error(s, sender, now, kind, slug, title, message_char_limit)
                == if taken {
                Some("That domain slug has already been claimed."@)
            } else {
                None
            }
        }),
{
    let a = s.active_account(sender)->0.account_id;
    lemma_claims_witness(s.domains, a, claim_cutoff(now));
}

/// An entry names a DM of the ledger, with that DM's title, in which the account has a
/// membership row.
pub open spec fn names_members_dm(
    s: LedgerState,
    ms: Seq<DomainMember>,
    account_id: u64,
    entry: (u64, Seq<char>, Seq<u64>),
) -> bool {
    exists|i: int, j: int|
        0 <= i < s.domains.len() && 0 <= j < ms.len() && (#[trigger] s.domains[i]).domain_id
            == entry.0 && s.domains[i].kind == DomainKind::Dm && s.domains[i].title@ == entry.1
            && (#[trigger] ms[j]).domain_id == entry.0 && ms[j].account_id == account_id
}

/// Every DM lookup of an account names a DM of the ledger, with its title, that the
/// account has a membership row in.
proof fn lemma_dm_lookups_are_dms(s: LedgerState, ms: Seq<DomainMember>, account_id: u64)
    ensures
        forall|k: int|
            0 <= k < dm_lookups(s, ms, account_id).len() ==> names_members_dm(
                s,
                ms,
                account_id,
                #[trigger] dm_lookups(s, ms, account_id)[k],
            ),
    decreases ms.len(),
{
    if ms.len() > 0 {
        let q = ms.drop_last();
        let m = ms.last();
        lemma_dm_lookups_are_dms(s, q, account_id);
        let rest = dm_lookups(s, q, account_id);
        let now = dm_lookups(s, ms, account_id);
        assert forall|k: int| 0 <= k < now.len() implies names_members_dm(
            s,
            ms,
            account_id,
            #[trigger] now[k],
        ) by {
            if k < rest.len() {
                assert(now[k] == rest[k]);
                assert(names_members_dm(s, q, account_id, rest[k]));
                let (i, j) = choose|i: int, j: int|
                    0 <= i < s.domains.len() && 0 <= j < q.len() && (#[trigger] s.domains[i]).domain_id
                        == rest[k].0 && s.domains[i].kind == DomainKind::Dm && s.domains[i].title@
                        == rest[k].1 && (#[trigger] q[j]).domain_id == rest[k].0 && q[j].account_id
                        == account_id;
                assert(ms[j] == q[j]);
            } else {
                let d = m.domain_id;
                assert(m.account_id == account_id && s.domain(d) is Some && s.domain(d)->0.kind
                    == DomainKind::Dm);
                lemma_find_index(s.domains, crate::ledger::domain_pred(d));
                let i = s.domain_index(d)->0;
                let e = s.domain(d)->0;
                assert(e == s.domains[i]);
                assert(now == rest.push((e.domain_id, e.title@, s.sorted_member_ids(e.domain_id))));
                let j = ms.len() - 1;
                assert(ms[j] == m);
                assert(s.domains[i].domain_id == now[k].0);
            }
        }
    }
}

/// The DM discovery view lists DMs only, and all of them: each entry names a domain of
/// kind Dm, with its title, that the caller's account belongs to; and every DM that the
/// caller's account has a membership row in is listed. A caller without an active
/// account gets nothing.
pub proof fn law_dm_view_lists_exactly_the_callers_dms(s: LedgerState, identity: Identity)
    requires
        s.wf(),
    ensures
        s.active_account(identity) is None ==> my_dm_domains_view(s, identity).len() == 0,
        s.active_account(identity) is Some ==> {
            let a = s.active_account(identity)->0.account_id;
            let view = my_dm_domains_view(s, identity);
            &&& forall|k: int|
                0 <= k < view.len() ==> names_members_dm(s, s.domain_members, a, #[trigger] view[k])
            &&& forall|i: int, j: int|
                0 <= i < s.domains.len() && 0 <= j < s.domain_members.len()
                    && (#[trigger] s.domains[i]).kind == DomainKind::Dm
                    && (#[trigger] s.domain_members[j]).domain_id == s.domains[i].domain_id
                    && s.domain_members[j].account_id == a ==> exists|k: int|
                    0 <= k < view.len() && (#[trigger] view[k]).0 == s.domains[i].domain_id
        },
{
    if s.active_account(identity) is Some {
        let a = s.active_account(identity)->0.account_id;
        let view = my_dm_domains_view(s, identity);
        assert(view == dm_lookups(s, s.domain_members, a));
        lemma_dm_lookups_are_dms(s, s.domain_members, a);
        assert forall|i: int, j: int|
            0 <= i < s.domains.len() && 0 <= j < s.domain_members.len()
                && (#[trigger] s.domains[i]).kind == DomainKind::Dm
                && (#[trigger] s.domain_members[j]).domain_id == s.domains[i].domain_id
                && s.domain_members[j].account_id == a implies exists|k: int|
            0 <= k < view.len() && (#[trigger] view[k]).0 == s.domains[i].domain_id by {
            let d = s.domains[i];
            assert(d.domain_id == i + 1);
            lemma_domain_present(s, d.domain_id);
            lemma_dm_lookups_has(s, s.domain_members, a, j);
            let entry = (d.domain_id, d.title@, s.sorted_member_ids(d.domain_id));
            let k = choose|k: int| 0 <= k < view.len() && view[k] == entry;
            assert(view[k].0 == d.domain_id);
        }
    }
}

/// A new named domain is owned by its creator: after `create_domain` succeeds, the
/// ledger holds one more domain, of the kind, slug, title and limit asked for, created
/// by the caller's account, and that account holds an owner's membership row in it.
pub proof fn law_create_domain_makes_creator_owner(
    s: LedgerState,
    sender: Identity,
    now: Timestamp,
    kind: DomainKind,
    slug: String,
    title: String,
    message_char_limit: u16,
)
    requires
        create_domain_error(s, sender, now, kind, slug@, title@, message_char_limit) is None,
    ensures
        ({
            let t = create_domain_post(s, sender, now, kind, slug, title, message_char_limit);
            let a = s.active_account(sender)->0.account_id;
            let d = t.domains.last();
            &&& t.domains.len() == s.domains.len() + 1
            &&& d.kind == kind && d.slug == slug && d.title == title
            &&& d.message_char_limit == message_char_limit && d.created_by_account_id == a
            &&& exists|j: int|
                0 <= j < t.domain_members.len() && (#[trigger] t.domain_members[j]).domain_id
                    == d.domain_id && t.domain_members[j].account_id == a
                    && t.domain_members[j].role == DomainRole::Owner
        }),
{
    let t = create_domain_post(s, sender, now, kind, slug, title, message_char_limit);
    assert(t.domain_members[s.domain_members.len() as int].role == DomainRole::Owner);
}

/// A new DM holds exactly its participants: when `create_dm` makes a DM, the caller's
/// account holds an owner's membership row in it and every other participant a
/// member's row, and the DM has the default limit and no slug.
pub proof fn law_new_dm_holds_its_participants(
    s: LedgerState,
    t: LedgerState,
    creator: u64,
    participants: Seq<u64>,
    title: String,
    now: Timestamp,
)
    requires
        dm_created(s, t, creator, participants, title, now),
    ensures
        ({
            let d = t.domains[s.domains.len() as int];
            &&& d.kind == DomainKind::Dm
            &&& d.slug@.len() == 0
            &&& d.message_char_limit == crate::model::DEFAULT_MESSAGE_CHAR_LIMIT
            &&& exists|j: int|
                0 <= j < t.domain_members.len() && (#[trigger] t.domain_members[j]).domain_id
                    == d.domain_id && t.domain_members[j].account_id == creator
                    && t.domain_members[j].role == DomainRole::Owner
            &&& forall|x: u64|
                #[trigger] participants.contains(x) && x != creator ==> exists|j: int|
                    0 <= j < t.domain_members.len() && (#[trigger] t.domain_members[j]).domain_id
                        == d.domain_id && t.domain_members[j].account_id == x
                        && t.domain_members[j].role == DomainRole::Member
        }),
{
    let d = t.domains[s.domains.len() as int];
    let base = s.domain_members.len() as int;
    assert(t.domain_members[base].role == DomainRole::Owner);
    let others = participants.filter(other_than(creator));
    assert forall|x: u64| #[trigger] participants.contains(x) && x != creator implies exists|j: int|
        0 <= j < t.domain_members.len() && (#[trigger] t.domain_members[j]).domain_id
            == d.domain_id && t.domain_members[j].account_id == x && t.domain_members[j].role
            == DomainRole::Member by {
        let i = choose|i: int| 0 <= i < participants.len() && participants[i] == x;
        participants.lemma_filter_contains(other_than(creator), i);
        let k = choose|k: int| 0 <= k < others.len() && others[k] == x;
        assert(t.domain_members[base + 1 + k].account_id == others[k]);
    }
}

} // verus!
