use vstd::prelude::*;

use crate::ledger::{find_index, member_account_ids, LedgerState};
use crate::model::{
    Account, AccountKey, AccountStatus, Domain, DomainKind, DomainMember, DomainRole, Identity,
    Message, Subscription, Timestamp, DOMAIN_CLAIM_WINDOW_SECS, MAX_NAMED_DOMAIN_CLAIMS_PER_WINDOW,
    DEFAULT_MESSAGE_CHAR_LIMIT,
};
use crate::participants::{named_domain_count, seq_max, strictly_ascending};
use crate::text::{decimal, trim};
use crate::validation::{body_error, domain_fields_error, handle_format_error, title_error};

verus! {

/// What no reducer undoes: accounts, domains and messages are only ever appended
/// (a committed row never changes); a key stays bound to its identity and account, and
/// a revocation is never undone; the member list of a DM never changes.
pub open spec fn history_kept(pre: LedgerState, post: LedgerState) -> bool {
    &&& pre.accounts.is_prefix_of(post.accounts)
    &&& pre.domains.is_prefix_of(post.domains)
    &&& pre.messages.is_prefix_of(post.messages)
    &&& pre.account_keys.len() <= post.account_keys.len()
    &&& forall|i: int| 0 <= i < pre.account_keys.len() ==> {
        &&& (#[trigger] post.account_keys[i]).key_identity == pre.account_keys[i].key_identity
        &&& post.account_keys[i].account_id == pre.account_keys[i].account_id
        &&& (pre.account_keys[i].revoked_at is Some ==> post.account_keys[i].revoked_at
            == pre.account_keys[i].revoked_at)
    }
    &&& forall|i: int| 0 <= i < pre.domains.len() && (#[trigger] pre.domains[i]).kind == DomainKind::Dm
        ==> member_account_ids(post.domain_members, pre.domains[i].domain_id) == member_account_ids(
        pre.domain_members,
        pre.domains[i].domain_id,
    )
}

/// The error of every reducer called by an identity without an active account.
pub open spec fn no_account_text() -> Seq<char> {
    "Create an account before using this reducer."@
}

/// Why a handle is refused: its form, or an account whose handle equals the trimmed
/// handle.
pub open spec fn handle_error(s: LedgerState, handle: Seq<char>) -> Option<Seq<char>> {
    if handle_format_error(handle) is Some {
        handle_format_error(handle)
    } else if exists|i: int| 0 <= i < s.accounts.len() && (#[trigger] s.accounts[i]).handle@ == trim(handle) {
        Some("That handle is already taken."@)
    } else {
        None
    }
}

/// Why an account id cannot join a DM or a domain: it names no account, or an
/// inactive one.
pub open spec fn account_error(s: LedgerState, account_id: u64) -> Option<Seq<char>> {
    match s.account(account_id) {
        None => Some("That account does not exist."@),
        Some(a) => if a.status != AccountStatus::Active {
            Some("That account is not active."@)
        } else {
            None
        },
    }
}

/// The first error among the participants other than the sender, in order.
pub open spec fn participants_error(s: LedgerState, p: Seq<u64>, sender_account_id: u64) -> Option<
    Seq<char>,
>
    decreases p.len(),
{
    if p.len() == 0 {
        None
    } else if p[0] != sender_account_id && account_error(s, p[0]) is Some {
        account_error(s, p[0])
    } else {
        participants_error(s, p.drop_first(), sender_account_id)
    }
}

/// The canonical participant list of a DM: ascending, without repeats, holding the
/// sender and every recipient and nothing else.
pub open spec fn dm_participants(sender_account_id: u64, recipients: Seq<u64>) -> Seq<u64> {
    choose|p: Seq<u64>|
        strictly_ascending(p) && forall|x: u64| #[trigger]
            p.contains(x) <==> (x == sender_account_id || recipients.contains(x))
}

/// Why a DM participant set is refused, if it is.
pub open spec fn canonical_participants_error(
    s: LedgerState,
    sender_account_id: u64,
    recipients: Seq<u64>,
) -> Option<Seq<char>> {
    let p = dm_participants(sender_account_id, recipients);
    if p.len() < 2 {
        Some("DM creation requires at least one other active account."@)
    } else {
        participants_error(s, p, sender_account_id)
    }
}

/// A domain is a DM whose sorted member list is the given participant list.
pub open spec fn dm_pred(s: LedgerState, participants: Seq<u64>) -> spec_fn(Domain) -> bool {
    |d: Domain| d.kind == DomainKind::Dm && s.sorted_member_ids(d.domain_id) == participants
}

/// The index of the first DM whose sorted member list is the given participant list.
pub open spec fn dm_index(s: LedgerState, participants: Seq<u64>) -> Option<int> {
    find_index(s.domains, dm_pred(s, participants))
}

/// Every value but one.
pub open spec fn other_than(v: u64) -> spec_fn(u64) -> bool {
    |x: u64| x != v
}

/// A domain can be read (and subscribed to) by an account: it is public, or the
/// account belongs to it.
pub open spec fn can_read(s: LedgerState, d: Domain, account_id: u64) -> bool {
    d.kind == DomainKind::Public || s.is_member(d.domain_id, account_id)
}

/// A domain accepts posts from an account: it is public, or the account belongs to it.
pub open spec fn can_post(s: LedgerState, d: Domain, account_id: u64) -> bool {
    match d.kind {
        DomainKind::Public => true,
        _ => s.is_member(d.domain_id, account_id),
    }
}

/// The domains of a sequence created by an account at or after a cutoff time.
pub open spec fn domains_created_since(ds: Seq<Domain>, account_id: u64, cutoff: int) -> Seq<Domain>
    decreases ds.len(),
{
    if ds.len() == 0 {
        Seq::empty()
    } else {
        let rest = domains_created_since(ds.drop_last(), account_id, cutoff);
        if ds.last().created_by_account_id == account_id && ds.last().created_at.micros_since_unix_epoch >= cutoff {
            rest.push(ds.last())
        } else {
            rest
        }
    }
}

/// The start of the claim window that ends at a time.
pub open spec fn claim_cutoff(now: Timestamp) -> int {
    now.micros_since_unix_epoch - DOMAIN_CLAIM_WINDOW_SECS * 1_000_000
}

/// The start of the claim window is a representable timestamp.
pub open spec fn claim_cutoff_representable(now: Timestamp) -> bool {
    claim_cutoff(now) >= i64::MIN
}

/// The number of named domains an account created within the claim window ending now.
pub open spec fn recent_named_claims(s: LedgerState, account_id: u64, now: Timestamp) -> nat {
    named_domain_count(domains_created_since(s.domains, account_id, claim_cutoff(now)))
}

/// A named (non-DM) domain already holds this exact slug.
pub open spec fn slug_claimed(s: LedgerState, slug: Seq<char>) -> bool {
    exists|i: int| 0 <= i < s.domains.len() && (#[trigger] s.domains[i]).kind != DomainKind::Dm && s.domains[i].slug@ == slug
}

/// The sequence numbers of the messages of a domain, in table order.
pub open spec fn domain_sequences(ms: Seq<Message>, domain_id: u64) -> Seq<u64>
    decreases ms.len(),
{
    if ms.len() == 0 {
        Seq::empty()
    } else {
        let rest = domain_sequences(ms.drop_last(), domain_id);
        if ms.last().domain_id == domain_id {
            rest.push(ms.last().domain_sequence)
        } else {
            rest
        }
    }
}

/// The sequence number the next message of a domain gets.
pub open spec fn next_sequence(s: LedgerState, domain_id: u64) -> nat {
    seq_max(domain_sequences(s.messages, domain_id)) + 1
}

/// The ledger after appending a membership row with the next membership id.
pub open spec fn with_member(
    s: LedgerState,
    domain_id: u64,
    account_id: u64,
    role: DomainRole,
    now: Timestamp,
) -> LedgerState {
    LedgerState {
        domain_members: s.domain_members.push(
            DomainMember {
                membership_id: s.next_membership_id,
                domain_id,
                account_id,
                role,
                joined_at: now,
            },
        ),
        next_membership_id: (s.next_membership_id + 1) as u64,
        ..s
    }
}

// ---------------------------------------------------------------- create_account

/// Why `create_account` refuses, if it does.
pub open spec fn create_account_error(s: LedgerState, sender: Identity, handle: Seq<char>) -> Option<
    Seq<char>,
> {
    if s.active_account(sender) is Some {
        Some("This identity is already bound to an active account."@)
    } else {
        handle_error(s, handle)
    }
}

/// The ledger after `create_account` succeeds: a new active account with the handle
/// as given, and the sender's key bound to it.
pub open spec fn create_account_post(
    s: LedgerState,
    sender: Identity,
    now: Timestamp,
    handle: String,
) -> LedgerState {
    let id = (s.accounts.len() + 1) as u64;
    LedgerState {
        accounts: s.accounts.push(
            Account { account_id: id, handle, created_at: now, status: AccountStatus::Active },
        ),
        account_keys: s.account_keys.push(
            AccountKey {
                key_identity: sender,
                account_id: id,
                added_by_identity: sender,
                created_at: now,
                revoked_at: None,
            },
        ),
        ..s
    }
}

// ---------------------------------------------------------------- add_account_key

/// Why `add_account_key` refuses, if it does.
pub open spec fn add_account_key_error(s: LedgerState, sender: Identity, key_identity: Identity) -> Option<
    Seq<char>,
> {
    if s.active_account(sender) is None {
        Some(no_account_text())
    } else if s.key_index(key_identity) is Some {
        Some("That key identity is already bound to an account."@)
    } else {
        None
    }
}

/// The ledger after `add_account_key` succeeds: the key bound to the sender's account.
pub open spec fn add_account_key_post(
    s: LedgerState,
    sender: Identity,
    now: Timestamp,
    key_identity: Identity,
) -> LedgerState {
    LedgerState {
        account_keys: s.account_keys.push(
            AccountKey {
                key_identity,
                account_id: s.active_account(sender)->0.account_id,
                added_by_identity: sender,
                created_at: now,
                revoked_at: None,
            },
        ),
        ..s
    }
}

// ---------------------------------------------------------------- revoke_account_key

/// Why `revoke_account_key` refuses, if it does.
pub open spec fn revoke_account_key_error(s: LedgerState, sender: Identity, key_identity: Identity) -> Option<
    Seq<char>,
> {
    if s.active_account(sender) is None {
        Some(no_account_text())
    } else if s.key_index(key_identity) is None {
        Some("That key identity is not bound to any account."@)
    } else if s.account_keys[s.key_index(key_identity)->0].account_id != s.active_account(sender)->0.account_id {
        Some("You can only revoke keys for your own account."@)
    } else if s.account_keys[s.key_index(key_identity)->0].revoked_at is Some {
        Some("That key identity has already been revoked."@)
    } else {
        None
    }
}

/// The ledger after `revoke_account_key` succeeds: the key marked revoked now.
pub open spec fn revoke_account_key_post(s: LedgerState, now: Timestamp, key_identity: Identity) -> LedgerState {
    let k = s.key_index(key_identity)->0;
    LedgerState {
        account_keys: s.account_keys.update(
            k,
            AccountKey { revoked_at: Some(now), ..s.account_keys[k] },
        ),
        ..s
    }
}

// ---------------------------------------------------------------- create_domain

/// Why `create_domain` refuses, if it does.
pub open spec fn create_domain_error(
    s: LedgerState,
    sender: Identity,
    now: Timestamp,
    kind: DomainKind,
    slug: Seq<char>,
    title: Seq<char>,
    message_char_limit: u16,
) -> Option<Seq<char>> {
    if s.active_account(sender) is None {
        Some(no_account_text())
    } else if kind == DomainKind::Dm {
        Some("DMs must be created with create_dm, not create_domain."@)
    } else if domain_fields_error(kind, slug, title, message_char_limit) is Some {
        domain_fields_error(kind, slug, title, message_char_limit)
    } else if recent_named_claims(s, s.active_account(sender)->0.account_id, now)
        >= MAX_NAMED_DOMAIN_CLAIMS_PER_WINDOW {
        Some("You may only create 3 named domains every 24 hours."@)
    } else if slug_claimed(s, slug) {
        Some("That domain slug has already been claimed."@)
    } else {
        None
    }
}

/// `create_domain` reaches the claim-window check.
pub open spec fn create_domain_reaches_claim_check(
    s: LedgerState,
    sender: Identity,
    kind: DomainKind,
    slug: Seq<char>,
    title: Seq<char>,
    message_char_limit: u16,
) -> bool {
    &&& s.active_account(sender) is Some
    &&& kind != DomainKind::Dm
    &&& domain_fields_error(kind, slug, title, message_char_limit) is None
}

/// The ledger after `create_domain` succeeds: the new domain, with the sender as its
/// owner.
pub open spec fn create_domain_post(
    s: LedgerState,
    sender: Identity,
    now: Timestamp,
    kind: DomainKind,
    slug: String,
    title: String,
    message_char_limit: u16,
) -> LedgerState {
    let id = (s.domains.len() + 1) as u64;
    let owner = s.active_account(sender)->0.account_id;
    with_member(
        LedgerState {
            domains: s.domains.push(
                Domain {
                    domain_id: id,
                    kind,
                    slug,
                    title,
                    created_by_account_id: owner,
                    created_at: now,
                    message_char_limit,
                },
            ),
            ..s
        },
        id,
        owner,
        DomainRole::Owner,
        now,
    )
}

// ---------------------------------------------------------------- create_dm

/// Why `create_dm` refuses, if it does.
pub open spec fn create_dm_error(s: LedgerState, sender: Identity, recipients: Seq<u64>, title: Seq<char>) -> Option<
    Seq<char>,
> {
    if s.active_account(sender) is None {
        Some(no_account_text())
    } else if canonical_participants_error(s, s.active_account(sender)->0.account_id, recipients) is Some {
        canonical_participants_error(s, s.active_account(sender)->0.account_id, recipients)
    } else {
        title_error(title)
    }
}

/// The ledger after a new DM with the given participants was made: one DM domain with
/// an empty slug and the default limit, the creator as owner and every other
/// participant, in ascending order, as member.
pub open spec fn dm_created(
    s: LedgerState,
    post: LedgerState,
    creator: u64,
    participants: Seq<u64>,
    title: String,
    now: Timestamp,
) -> bool {
    let id = (s.domains.len() + 1) as u64;
    let others = participants.filter(other_than(creator));
    &&& post.accounts == s.accounts
    &&& post.account_keys == s.account_keys
    &&& post.messages == s.messages
    &&& post.subscriptions == s.subscriptions
    &&& post.domains.len() == s.domains.len() + 1
    &&& post.domains.take(s.domains.len() as int) == s.domains
    &&& ({
        let d = post.domains[s.domains.len() as int];
        &&& d.domain_id == id
        &&& d.kind == DomainKind::Dm
        &&& d.slug@ == Seq::<char>::empty()
        &&& d.title == title
        &&& d.created_by_account_id == creator
        &&& d.created_at == now
        &&& d.message_char_limit == DEFAULT_MESSAGE_CHAR_LIMIT
    })
    &&& post.next_membership_id == s.next_membership_id + 1 + others.len()
    &&& post.domain_members.len() == s.domain_members.len() + 1 + others.len()
    &&& post.domain_members.take(s.domain_members.len() as int) == s.domain_members
    &&& post.domain_members[s.domain_members.len() as int] == (DomainMember {
        membership_id: s.next_membership_id,
        domain_id: id,
        account_id: creator,
        role: DomainRole::Owner,
        joined_at: now,
    })
    &&& forall|k: int| 0 <= k < others.len() ==> post.domain_members[s.domain_members.len() + 1 + k]
        == (DomainMember {
        membership_id: (s.next_membership_id + 1 + k) as u64,
        domain_id: id,
        account_id: #[trigger] others[k],
        role: DomainRole::Member,
        joined_at: now,
    })
}

/// The ledger after `create_dm` succeeds: unchanged when a DM with exactly these
/// participants exists, else a new DM.
pub open spec fn create_dm_post(
    s: LedgerState,
    post: LedgerState,
    sender: Identity,
    now: Timestamp,
    recipients: Seq<u64>,
    title: String,
) -> bool {
    let creator = s.active_account(sender)->0.account_id;
    let p = dm_participants(creator, recipients);
    if dm_index(s, p) is Some {
        post == s
    } else {
        dm_created(s, post, creator, p, title, now)
    }
}

// ---------------------------------------------------------------- create_dm_with_domain_id

/// The error text naming the DM that already holds a participant set.
pub open spec fn dm_exists_text(domain_id: u64) -> Seq<char> {
    "A DM for that participant set already exists as domain_id "@ + decimal(domain_id as nat)
        + "."@
}

/// Why `create_dm_with_domain_id` refuses, if it does.
pub open spec fn create_dm_with_domain_id_error(
    s: LedgerState,
    sender: Identity,
    domain_id: u64,
    recipients: Seq<u64>,
    title: Seq<char>,
) -> Option<Seq<char>> {
    if create_dm_error(s, sender, recipients, title) is Some {
        create_dm_error(s, sender, recipients, title)
    } else {
        let p = dm_participants(s.active_account(sender)->0.account_id, recipients);
        match s.domain(domain_id) {
            Some(d) => if d.kind != DomainKind::Dm {
                Some("That domain_id does not refer to a DM domain."@)
            } else if s.sorted_member_ids(d.domain_id) != p {
                Some("That domain_id refers to a different DM participant set."@)
            } else {
                None
            },
            None => match dm_index(s, p) {
                Some(i) => Some(dm_exists_text(s.domains[i].domain_id)),
                None => None,
            },
        }
    }
}

/// The ledger after `create_dm_with_domain_id` succeeds: unchanged when the domain id
/// names the DM of these participants, else a new DM.
pub open spec fn create_dm_with_domain_id_post(
    s: LedgerState,
    post: LedgerState,
    sender: Identity,
    now: Timestamp,
    domain_id: u64,
    recipients: Seq<u64>,
    title: String,
) -> bool {
    let creator = s.active_account(sender)->0.account_id;
    if s.domain(domain_id) is Some {
        post == s
    } else {
        dm_created(s, post, creator, dm_participants(creator, recipients), title, now)
    }
}

// ---------------------------------------------------------------- join_domain

/// Why `join_domain` refuses, if it does.
pub open spec fn join_domain_error(s: LedgerState, sender: Identity, domain_id: u64) -> Option<Seq<char>> {
    if s.active_account(sender) is None {
        Some(no_account_text())
    } else if s.domain(domain_id) is None {
        Some("That domain does not exist."@)
    } else if s.domain(domain_id)->0.kind != DomainKind::Public {
        Some("Only public domains can be joined directly."@)
    } else {
        None
    }
}

/// The ledger after `join_domain` succeeds: unchanged for a member, else the sender
/// added as member.
pub open spec fn join_domain_post(s: LedgerState, sender: Identity, now: Timestamp, domain_id: u64) -> LedgerState {
    let a = s.active_account(sender)->0.account_id;
    if s.is_member(domain_id, a) {
        s
    } else {
        with_member(s, domain_id, a, DomainRole::Member, now)
    }
}

// ---------------------------------------------------------------- owner checks

/// Why the sender may not administer a domain, if it may not.
pub open spec fn owner_error(s: LedgerState, domain_id: u64, account_id: u64) -> Option<Seq<char>> {
    match s.membership(domain_id, account_id) {
        None => Some("You are not a member of that domain."@),
        Some(m) => if m.role != DomainRole::Owner {
            Some("Only domain owners can perform that action."@)
        } else {
            None
        },
    }
}

// ---------------------------------------------------------------- add_domain_member

/// Why `add_domain_member` refuses, if it does.
pub open spec fn add_domain_member_error(
    s: LedgerState,
    sender: Identity,
    domain_id: u64,
    account_id: u64,
) -> Option<Seq<char>> {
    if s.active_account(sender) is None {
        Some(no_account_text())
    } else if s.domain(domain_id) is None {
        Some("That domain does not exist."@)
    } else if owner_error(s, domain_id, s.active_account(sender)->0.account_id) is Some {
        owner_error(s, domain_id, s.active_account(sender)->0.account_id)
    } else if account_error(s, account_id) is Some {
        account_error(s, account_id)
    } else if s.domain(domain_id)->0.kind == DomainKind::Dm {
        Some("DM membership is fixed after creation."@)
    } else if s.is_member(domain_id, account_id) {
        Some("That account is already a member of the domain."@)
    } else {
        None
    }
}

// ---------------------------------------------------------------- remove_domain_member

/// Why `remove_domain_member` refuses, if it does.
pub open spec fn remove_domain_member_error(
    s: LedgerState,
    sender: Identity,
    domain_id: u64,
    account_id: u64,
) -> Option<Seq<char>> {
    if s.active_account(sender) is None {
        Some(no_account_text())
    } else if s.domain(domain_id) is None {
        Some("That domain does not exist."@)
    } else if owner_error(s, domain_id, s.active_account(sender)->0.account_id) is Some {
        owner_error(s, domain_id, s.active_account(sender)->0.account_id)
    } else if s.domain(domain_id)->0.kind == DomainKind::Dm {
        Some("DM membership cannot be changed after creation."@)
    } else if !s.is_member(domain_id, account_id) {
        Some("That account is not a member of the domain."@)
    } else {
        None
    }
}

/// The ledger after `remove_domain_member` succeeds: the membership row deleted.
pub open spec fn remove_domain_member_post(s: LedgerState, domain_id: u64, account_id: u64) -> LedgerState {
    LedgerState {
        domain_members: s.domain_members.remove(s.membership_index(domain_id, account_id)->0),
        ..s
    }
}

// ---------------------------------------------------------------- post_message

/// Why `post_message` refuses, if it does.
pub open spec fn post_message_error(
    s: LedgerState,
    sender: Identity,
    domain_id: u64,
    body: Seq<char>,
    reply_to_message_id: Option<u64>,
) -> Option<Seq<char>> {
    if s.active_account(sender) is None {
        Some(no_account_text())
    } else if s.domain(domain_id) is None {
        Some("That domain does not exist."@)
    } else if body_error(body, s.domain(domain_id)->0.message_char_limit as nat) is Some {
        body_error(body, s.domain(domain_id)->0.message_char_limit as nat)
    } else if !can_post(s, s.domain(domain_id)->0, s.active_account(sender)->0.account_id) {
        Some("You are not allowed to post in that domain."@)
    } else {
        match reply_to_message_id {
            None => None,
            Some(r) => match s.message_index(r) {
                None => Some("Reply target message does not exist."@),
                Some(k) => if s.messages[k].domain_id != domain_id {
                    Some("Replies must stay within the same domain."@)
                } else {
                    None
                },
            },
        }
    }
}

/// The ledger after `post_message` succeeds: the message appended with the next
/// sequence number of its domain, the sender's account as author and the sender's
/// identity as authenticating key.
pub open spec fn post_message_post(
    s: LedgerState,
    sender: Identity,
    now: Timestamp,
    domain_id: u64,
    body: String,
    reply_to_message_id: Option<u64>,
) -> LedgerState {
    LedgerState {
        messages: s.messages.push(
            Message {
                message_id: (s.messages.len() + 1) as u64,
                domain_id,
                domain_sequence: next_sequence(s, domain_id) as u64,
                author_account_id: s.active_account(sender)->0.account_id,
                authenticated_key_identity: sender,
                body,
                created_at: now,
                reply_to_message_id,
            },
        ),
        ..s
    }
}

// ---------------------------------------------------------------- subscribe_domain

/// The batch window a subscription request gets.
pub open spec fn batch_window(batch_window_seconds: u32) -> u32 {
    if batch_window_seconds == 0 {
        crate::model::DEFAULT_BATCH_WINDOW_SECONDS
    } else {
        batch_window_seconds
    }
}

/// Why `subscribe_domain` refuses, if it does.
pub open spec fn subscribe_domain_error(
    s: LedgerState,
    sender: Identity,
    domain_id: u64,
    batch_window_seconds: u32,
) -> Option<Seq<char>> {
    if s.active_account(sender) is None {
        Some(no_account_text())
    } else if s.domain(domain_id) is None {
        Some("That domain does not exist."@)
    } else if batch_window_seconds > crate::model::MAX_BATCH_WINDOW_SECONDS {
        Some("Batch window must be 3600 seconds or less."@)
    } else if !can_read(s, s.domain(domain_id)->0, s.active_account(sender)->0.account_id) {
        Some("You are not allowed to subscribe to that domain."@)
    } else {
        None
    }
}

/// The ledger after `subscribe_domain` succeeds: the sender's subscription to the
/// domain made active with the window, updated now; created now when there was none.
pub open spec fn subscribe_domain_post(
    s: LedgerState,
    sender: Identity,
    now: Timestamp,
    domain_id: u64,
    batch_window_seconds: u32,
) -> LedgerState {
    let a = s.active_account(sender)->0.account_id;
    let w = batch_window(batch_window_seconds);
    match s.subscription_index(a, domain_id) {
        Some(i) => LedgerState {
            subscriptions: s.subscriptions.update(
                i,
                Subscription { batch_window_seconds: w, active: true, updated_at: now, ..s.subscriptions[i] },
            ),
            ..s
        },
        None => LedgerState {
            subscriptions: s.subscriptions.push(
                Subscription {
                    subscription_id: (s.subscriptions.len() + 1) as u64,
                    subscriber_account_id: a,
                    domain_id,
                    batch_window_seconds: w,
                    active: true,
                    created_at: now,
                    updated_at: now,
                },
            ),
            ..s
        },
    }
}

// ---------------------------------------------------------------- unsubscribe_domain

/// Why `unsubscribe_domain` refuses, if it does.
pub open spec fn unsubscribe_domain_error(s: LedgerState, sender: Identity, domain_id: u64) -> Option<Seq<char>> {
    if s.active_account(sender) is None {
        Some(no_account_text())
    } else if s.subscription_index(s.active_account(sender)->0.account_id, domain_id) is None {
        Some("No subscription exists for that domain."@)
    } else {
        None
    }
}

/// The ledger after `unsubscribe_domain` succeeds: the subscription made inactive,
/// updated now.
pub open spec fn unsubscribe_domain_post(s: LedgerState, sender: Identity, now: Timestamp, domain_id: u64) -> LedgerState {
    let i = s.subscription_index(s.active_account(sender)->0.account_id, domain_id)->0;
    LedgerState {
        subscriptions: s.subscriptions.update(
            i,
            Subscription { active: false, updated_at: now, ..s.subscriptions[i] },
        ),
        ..s
    }
}

// ---------------------------------------------------------------- my_dm_domains

/// The DMs an account belongs to, in membership-table order: each DM's id, title
/// and sorted participant list.
pub open spec fn dm_lookups(s: LedgerState, ms: Seq<DomainMember>, account_id: u64) -> Seq<
    (u64, Seq<char>, Seq<u64>),
>
    decreases ms.len(),
{
    if ms.len() == 0 {
        Seq::empty()
    } else {
        let rest = dm_lookups(s, ms.drop_last(), account_id);
        let m = ms.last();
        if m.account_id == account_id && s.domain(m.domain_id) is Some && s.domain(m.domain_id)->0.kind
            == DomainKind::Dm {
            let d = s.domain(m.domain_id)->0;
            rest.push((d.domain_id, d.title@, s.sorted_member_ids(d.domain_id)))
        } else {
            rest
        }
    }
}

/// The account the view identity acts for, if active.
pub open spec fn view_account_id(s: LedgerState, identity: Identity) -> Option<u64> {
    match s.active_account(identity) {
        Some(a) => Some(a.account_id),
        None => None,
    }
}

/// What the DM discovery view returns for an identity: nothing without an active
/// account, else the DMs of its account.
pub open spec fn my_dm_domains_view(s: LedgerState, identity: Identity) -> Seq<(u64, Seq<char>, Seq<u64>)> {
    match view_account_id(s, identity) {
        None => Seq::empty(),
        Some(a) => dm_lookups(s, s.domain_members, a),
    }
}

} // verus!
