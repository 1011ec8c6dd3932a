use vstd::prelude::*;

use crate::invariants::{
    lemma_account_found, lemma_account_present, lemma_active_account_exists,
    lemma_add_account_key_wf, lemma_create_account_wf, lemma_domain_found, lemma_domain_present,
    lemma_membership_absent, lemma_push_named_domain_wf, lemma_remove_member_wf,
    lemma_revoke_account_key_wf, lemma_with_member_wf, lemma_domain_sequences_bound,
    lemma_push_message_wf, lemma_push_subscription_wf, lemma_update_subscription_wf,
    lemma_create_dm_wf, lemma_filter_other_than, lemma_participants_exist,
    lemma_history_with_member, lemma_history_remove_member, lemma_history_new_domain,
};
use crate::ledger::{member_account_ids, lemma_find_index, lemma_find_index_at, lemma_find_index_none};
use crate::model::{DmLookup, DEFAULT_MESSAGE_CHAR_LIMIT};
use crate::participants::{
    lemma_permutation_distinct, lemma_sorted_permutation, lemma_strictly_ascending_unique,
    normalize_dm_participant_account_ids, same_u64s, sort_ascending, strictly_ascending,
};
use crate::rules::{
    canonical_participants_error, create_dm_error, create_dm_post, create_dm_with_domain_id_error,
    create_dm_with_domain_id_post, dm_created, dm_exists_text, dm_index, dm_lookups, dm_participants,
    dm_pred, my_dm_domains_view, other_than, participants_error, view_account_id, history_kept,
};
use crate::text::push_decimal;
use crate::validation::validate_title;
use crate::ledger::{Database, LedgerState};
use crate::model::{
    Account, AccountKey, AccountStatus, Domain, DomainKind, DomainMember, DomainRole, Identity,
    Timestamp, DOMAIN_CLAIM_WINDOW_SECS, MAX_NAMED_DOMAIN_CLAIMS_PER_WINDOW,
};
use crate::participants::{count_recent_named_domain_claims, next_domain_sequence_from_existing, seq_max};
use crate::model::{Subscription};
use crate::rules::{
    account_error, add_account_key_error, add_account_key_post, add_domain_member_error,
    can_post, can_read, claim_cutoff, claim_cutoff_representable, create_account_error,
    create_account_post, create_domain_error, create_domain_post,
    create_domain_reaches_claim_check, domains_created_since, handle_error, join_domain_error,
    join_domain_post, no_account_text, owner_error, recent_named_claims,
    remove_domain_member_error, remove_domain_member_post, revoke_account_key_error,
    revoke_account_key_post, slug_claimed, with_member, domain_sequences, next_sequence,
    post_message_error, post_message_post, subscribe_domain_error, subscribe_domain_post,
    unsubscribe_domain_error, unsubscribe_domain_post,
};
use crate::text::{owned, trim, trimmed};
use crate::validation::{
    check_matches, handle_format_error, normalize_batch_window, normalize_message_char_limit,
    validate_domain_fields, validate_handle_format, validate_message_body,
};

verus! {

/// What a reducer sees: the ledger, the calling identity and the time of the call.
pub struct ReducerContext {
    pub db: Database,
    pub sender: Identity,
    pub timestamp: Timestamp,
}

impl ReducerContext {
    /// The calling identity.
    pub fn sender(&self) -> (r: Identity)
        ensures
            r == self.sender,
    {
        self.sender
    }
}

/// What a view sees: the ledger and the calling identity.
pub struct ViewContext<'a> {
    pub db: &'a Database,
    pub sender: Identity,
}

impl<'a> ViewContext<'a> {
    /// The calling identity.
    pub fn sender(&self) -> (r: Identity)
        ensures
            r == self.sender,
    {
        self.sender
    }
}

/// A reducer call keeps the caller and the time, and leaves the ledger as the
/// specification says: unchanged with the error on refusal, else `post`.
pub open spec fn reducer_done(
    pre: &ReducerContext,
    post: &ReducerContext,
    r: Result<(), String>,
    error: Option<Seq<char>>,
    success: LedgerState,
) -> bool {
    &&& post.sender == pre.sender
    &&& post.timestamp == pre.timestamp
    &&& match error {
        Some(e) => (r matches Err(m) && m@ == e) && post.db@ == pre.db@,
        None => r is Ok && post.db@ == success,
    }
}

/// Does nothing: the module starts with empty tables.
pub fn init(ctx: &mut ReducerContext)
    ensures
        final(ctx).db@ == old(ctx).db@,
        final(ctx).sender == old(ctx).sender,
        final(ctx).timestamp == old(ctx).timestamp,
{
}

/// The active account an identity acts for, if any.
pub fn active_account_for_identity(ctx: &ReducerContext, identity: Identity) -> (r: Option<Account>)
    ensures
        r == ctx.db@.active_account(identity),
{
    let k = match ctx.db.find_key(identity) {
        Some(k) => k,
        None => return None,
    };
    let key = ctx.db.account_keys()[k];
    if key.revoked_at.is_some() {
        return None;
    }
    let ai = match ctx.db.find_account(key.account_id) {
        Some(i) => i,
        None => return None,
    };
    let account = &ctx.db.accounts()[ai];
    if account.status != AccountStatus::Active {
        return None;
    }
    Some(account.copy_row())
}

/// Refuses an identity that already acts for an active account.
pub fn ensure_sender_has_no_active_account(ctx: &ReducerContext) -> (r: Result<(), String>)
    ensures
        ctx.db@.active_account(ctx.sender) is Some ==> (r matches Err(m) && m@
            == "This identity is already bound to an active account."@),
        ctx.db@.active_account(ctx.sender) is None ==> r is Ok,
{
    if active_account_for_identity(ctx, ctx.sender()).is_some() {
        return Err(owned("This identity is already bound to an active account."));
    }
    Ok(())
}

/// The active account of the caller, or the error every reducer gives without one.
pub fn require_active_sender_account(ctx: &ReducerContext) -> (r: Result<Account, String>)
    ensures
        match ctx.db@.active_account(ctx.sender) {
            Some(a) => r == Ok::<Account, String>(a),
            None => r matches Err(m) && m@ == no_account_text(),
        },
{
    match active_account_for_identity(ctx, ctx.sender()) {
        Some(a) => Ok(a),
        None => Err(owned("Create an account before using this reducer.")),
    }
}

/// Checks a requested handle: its form, and that no account has the trimmed handle.
pub fn validate_handle(ctx: &ReducerContext, handle: &str) -> (r: Result<(), String>)
    ensures
        check_matches(r, handle_error(ctx.db@, handle@)),
{
    if let Err(e) = validate_handle_format(handle) {
        return Err(e);
    }
    let t = owned(trimmed(handle));
    let accounts = ctx.db.accounts();
    let mut i: usize = 0;
    while i < accounts.len()
        invariant
            accounts@ == ctx.db@.accounts,
            t@ == trim(handle@),
            handle_format_error(handle@) is None,
            i <= accounts@.len(),
            forall|j: int| 0 <= j < i ==> (#[trigger] accounts@[j]).handle@ != trim(handle@),
        decreases accounts@.len() - i,
    {
        if accounts[i].handle == t {
            assert(ctx.db@.accounts[i as int].handle@ == trim(handle@));
            return Err(owned("That handle is already taken."));
        }
        i += 1;
    }
    Ok(())
}

/// Creates an account with the handle for the calling identity, and binds the
/// identity to it as its first key.
pub fn create_account(ctx: &mut ReducerContext, handle: String) -> (r: Result<(), String>)
    requires
        old(ctx).db@.wf(),
        old(ctx).db@.has_capacity(),
        create_account_error(old(ctx).db@, old(ctx).sender, handle@) is None ==> old(
            ctx,
        ).db@.key_index(old(ctx).sender) is None,
    ensures
        final(ctx).db@.wf(),
        history_kept(old(ctx).db@, final(ctx).db@),
        reducer_done(
            old(ctx),
            final(ctx),
            r,
            create_account_error(old(ctx).db@, old(ctx).sender, handle@),
            create_account_post(old(ctx).db@, old(ctx).sender, old(ctx).timestamp, handle),
        ),
{
    if let Err(e) = ensure_sender_has_no_active_account(ctx) {
        return Err(e);
    }
    if let Err(e) = validate_handle(ctx, handle.as_str()) {
        return Err(e);
    }
    let ghost pre = ctx.db@;
    let sender = ctx.sender();
    let now = ctx.timestamp;
    proof {
        lemma_create_account_wf(pre, sender, now, handle);
    }
    let account_id = ctx.db.insert_account(handle, now, AccountStatus::Active);
    ctx.db.insert_account_key(
        AccountKey {
            key_identity: sender,
            account_id,
            added_by_identity: sender,
            created_at: now,
            revoked_at: None,
        },
    );
    Ok(())
}

/// Binds another key identity to the caller's account.
pub fn add_account_key(ctx: &mut ReducerContext, key_identity: Identity) -> (r: Result<(), String>)
    requires
        old(ctx).db@.wf(),
    ensures
        final(ctx).db@.wf(),
        history_kept(old(ctx).db@, final(ctx).db@),
        reducer_done(
            old(ctx),
            final(ctx),
            r,
            add_account_key_error(old(ctx).db@, old(ctx).sender, key_identity),
            add_account_key_post(old(ctx).db@, old(ctx).sender, old(ctx).timestamp, key_identity),
        ),
{
    let sender_account = match require_active_sender_account(ctx) {
        Ok(v) => v,
        Err(e) => return Err(e),
    };
    if ctx.db.find_key(key_identity).is_some() {
        return Err(owned("That key identity is already bound to an account."));
    }
    let ghost pre = ctx.db@;
    let sender = ctx.sender();
    let now = ctx.timestamp;
    proof {
        lemma_add_account_key_wf(pre, sender, now, key_identity);
    }
    ctx.db.insert_account_key(
        AccountKey {
            key_identity,
            account_id: sender_account.account_id,
            added_by_identity: sender,
            created_at: now,
            revoked_at: None,
        },
    );
    Ok(())
}

/// Marks one of the caller's account keys revoked.
pub fn revoke_account_key(ctx: &mut ReducerContext, key_identity: Identity) -> (r: Result<(), String>)
    requires
        old(ctx).db@.wf(),
    ensures
        final(ctx).db@.wf(),
        history_kept(old(ctx).db@, final(ctx).db@),
        reducer_done(
            old(ctx),
            final(ctx),
            r,
            revoke_account_key_error(old(ctx).db@, old(ctx).sender, key_identity),
            revoke_account_key_post(old(ctx).db@, old(ctx).timestamp, key_identity),
        ),
{
    let sender_account = match require_active_sender_account(ctx) {
        Ok(v) => v,
        Err(e) => return Err(e),
    };
    let k = match ctx.db.find_key(key_identity) {
        Some(k) => k,
        None => return Err(owned("That key identity is not bound to any account.")),
    };
    let mut key = ctx.db.account_keys()[k];
    if key.account_id != sender_account.account_id {
        return Err(owned("You can only revoke keys for your own account."));
    }
    if key.revoked_at.is_some() {
        return Err(owned("That key identity has already been revoked."));
    }
    key.revoked_at = Some(ctx.timestamp);
    let ghost pre = ctx.db@;
    proof {
        lemma_revoke_account_key_wf(pre, ctx.timestamp, key_identity);
    }
    ctx.db.update_account_key(k, key);
    Ok(())
}

/// The account an id names, when it exists and is active.
pub fn require_active_account(ctx: &ReducerContext, account_id: u64) -> (r: Result<Account, String>)
    ensures
        match account_error(ctx.db@, account_id) {
            Some(e) => r matches Err(m) && m@ == e,
            None => r == Ok::<Account, String>(ctx.db@.account(account_id)->0),
        },
{
    let ai = match ctx.db.find_account(account_id) {
        Some(i) => i,
        None => return Err(owned("That account does not exist.")),
    };
    let account = &ctx.db.accounts()[ai];
    if account.status != AccountStatus::Active {
        return Err(owned("That account is not active."));
    }
    Ok(account.copy_row())
}

/// The domain an id names.
pub fn require_domain(ctx: &ReducerContext, domain_id: u64) -> (r: Result<Domain, String>)
    ensures
        match ctx.db@.domain(domain_id) {
            Some(d) => r == Ok::<Domain, String>(d),
            None => r matches Err(m) && m@ == "That domain does not exist."@,
        },
{
    match ctx.db.find_domain(domain_id) {
        Some(i) => Ok(ctx.db.domains()[i].copy_row()),
        None => Err(owned("That domain does not exist.")),
    }
}

/// The membership of an account in a domain, if any.
pub fn find_domain_membership(ctx: &ReducerContext, domain_id: u64, account_id: u64) -> (r: Option<
    DomainMember,
>)
    ensures
        r == ctx.db@.membership(domain_id, account_id),
{
    match ctx.db.find_membership(domain_id, account_id) {
        Some(i) => Some(ctx.db.domain_members()[i]),
        None => None,
    }
}

/// Whether an account belongs to a domain.
pub fn has_domain_membership(ctx: &ReducerContext, domain_id: u64, account_id: u64) -> (b: bool)
    ensures
        b == ctx.db@.is_member(domain_id, account_id),
{
    find_domain_membership(ctx, domain_id, account_id).is_some()
}

/// Refuses an account that is not an owner of the domain.
pub fn require_domain_owner(ctx: &ReducerContext, domain_id: u64, account_id: u64) -> (r: Result<
    (),
    String,
>)
    ensures
        check_matches(r, owner_error(ctx.db@, domain_id, account_id)),
{
    let membership = match find_domain_membership(ctx, domain_id, account_id) {
        Some(m) => m,
        None => return Err(owned("You are not a member of that domain.")),
    };
    if membership.role != DomainRole::Owner {
        return Err(owned("Only domain owners can perform that action."));
    }
    Ok(())
}

/// Whether an account may read (and subscribe to) a domain.
pub fn can_read_domain(ctx: &ReducerContext, domain: &Domain, account_id: u64) -> (b: bool)
    ensures
        b == can_read(ctx.db@, *domain, account_id),
{
    domain.kind == DomainKind::Public || has_domain_membership(ctx, domain.domain_id, account_id)
}

/// Whether an account may post in a domain.
pub fn can_post_in_domain(ctx: &ReducerContext, domain: &Domain, account_id: u64) -> (b: bool)
    ensures
        b == can_post(ctx.db@, *domain, account_id),
{
    match domain.kind {
        DomainKind::Public => true,
        DomainKind::Private | DomainKind::Dm => has_domain_membership(
            ctx,
            domain.domain_id,
            account_id,
        ),
    }
}

/// Adds an account to a domain with a role, refusing one that already belongs to it.
pub fn insert_domain_member(
    ctx: &mut ReducerContext,
    domain_id: u64,
    account_id: u64,
    role: DomainRole,
) -> (r: Result<(), String>)
    requires
        old(ctx).db@.next_membership_id < u64::MAX,
    ensures
        final(ctx).sender == old(ctx).sender,
        final(ctx).timestamp == old(ctx).timestamp,
        old(ctx).db@.is_member(domain_id, account_id) ==> (r matches Err(m) && m@
            == "That account is already a member of the domain."@) && final(ctx).db@ == old(
            ctx,
        ).db@,
        !old(ctx).db@.is_member(domain_id, account_id) ==> r is Ok && final(ctx).db@ == with_member(
            old(ctx).db@,
            domain_id,
            account_id,
            role,
            old(ctx).timestamp,
        ),
{
    if has_domain_membership(ctx, domain_id, account_id) {
        return Err(owned("That account is already a member of the domain."));
    }
    let now = ctx.timestamp;
    ctx.db.insert_domain_member_row(domain_id, account_id, role, now);
    Ok(())
}

/// Refuses an account that has already created the maximum number of named domains
/// within the claim window ending now.
pub fn ensure_named_domain_claim_allowed(ctx: &ReducerContext, account_id: u64) -> (r: Result<
    (),
    String,
>)
    requires
        claim_cutoff_representable(ctx.timestamp),
    ensures
        recent_named_claims(ctx.db@, account_id, ctx.timestamp) >= MAX_NAMED_DOMAIN_CLAIMS_PER_WINDOW
            ==> (r matches Err(m) && m@ == "You may only create 3 named domains every 24 hours."@),
        recent_named_claims(ctx.db@, account_id, ctx.timestamp) < MAX_NAMED_DOMAIN_CLAIMS_PER_WINDOW
            ==> r is Ok,
{
    let cutoff_micros = ctx.timestamp.to_micros_since_unix_epoch() - DOMAIN_CLAIM_WINDOW_SECS
        * 1_000_000;
    let domains = ctx.db.domains();
    let mut recent: Vec<Domain> = Vec::new();
    let mut i: usize = 0;
    while i < domains.len()
        invariant
            i <= domains@.len(),
            cutoff_micros == claim_cutoff(ctx.timestamp),
            recent@ == domains_created_since(domains@.take(i as int), account_id, cutoff_micros as int),
        decreases domains@.len() - i,
    {
        assert(domains@.take(i as int + 1).drop_last() =~= domains@.take(i as int));
        if domains[i].created_by_account_id == account_id
            && domains[i].created_at.to_micros_since_unix_epoch() >= cutoff_micros {
            recent.push(domains[i].copy_row());
        }
        i += 1;
    }
    assert(domains@.take(i as int) =~= domains@);
    let recent_claims = count_recent_named_domain_claims(recent.as_slice());
    if recent_claims >= MAX_NAMED_DOMAIN_CLAIMS_PER_WINDOW {
        return Err(owned("You may only create 3 named domains every 24 hours."));
    }
    Ok(())
}

/// Refuses a slug that a named domain already holds.
pub fn ensure_slug_is_available(ctx: &ReducerContext, slug: &str) -> (r: Result<(), String>)
    ensures
        slug_claimed(ctx.db@, slug@) ==> (r matches Err(m) && m@
            == "That domain slug has already been claimed."@),
        !slug_claimed(ctx.db@, slug@) ==> r is Ok,
{
    let wanted = owned(slug);
    let domains = ctx.db.domains();
    let mut i: usize = 0;
    while i < domains.len()
        invariant
            domains@ == ctx.db@.domains,
            wanted@ == slug@,
            i <= domains@.len(),
            forall|j: int| 0 <= j < i ==> !((#[trigger] domains@[j]).kind != DomainKind::Dm && domains@[j].slug@ == slug@),
        decreases domains@.len() - i,
    {
        if domains[i].kind != DomainKind::Dm && domains[i].slug == wanted {
            assert(ctx.db@.domains[i as int].kind != DomainKind::Dm && ctx.db@.domains[i as int].slug@ == slug@);
            return Err(owned("That domain slug has already been claimed."));
        }
        i += 1;
    }
    Ok(())
}

/// Creates a public or private domain owned by the caller.
pub fn create_domain(
    ctx: &mut ReducerContext,
    kind: DomainKind,
    slug: String,
    title: String,
    message_char_limit: u16,
) -> (r: Result<(), String>)
    requires
        old(ctx).db@.wf(),
        old(ctx).db@.has_capacity(),
        create_domain_reaches_claim_check(
            old(ctx).db@,
            old(ctx).sender,
            kind,
            slug@,
            title@,
            message_char_limit,
        ) ==> claim_cutoff_representable(old(ctx).timestamp),
    ensures
        final(ctx).db@.wf(),
        history_kept(old(ctx).db@, final(ctx).db@),
        reducer_done(
            old(ctx),
            final(ctx),
            r,
            create_domain_error(
                old(ctx).db@,
                old(ctx).sender,
                old(ctx).timestamp,
                kind,
                slug@,
                title@,
                message_char_limit,
            ),
            create_domain_post(
                old(ctx).db@,
                old(ctx).sender,
                old(ctx).timestamp,
                kind,
                slug,
                title,
                message_char_limit,
            ),
        ),
{
    let sender_account = match require_active_sender_account(ctx) {
        Ok(a) => a,
        Err(e) => return Err(e),
    };
    if kind == DomainKind::Dm {
        return Err(owned("DMs must be created with create_dm, not create_domain."));
    }
    if let Err(e) = validate_domain_fields(kind, slug.as_str(), title.as_str(), message_char_limit) {
        return Err(e);
    }
    if let Err(e) = ensure_named_domain_claim_allowed(ctx, sender_account.account_id) {
        return Err(e);
    }
    if let Err(e) = ensure_slug_is_available(ctx, slug.as_str()) {
        return Err(e);
    }
    let limit = match normalize_message_char_limit(message_char_limit) {
        Ok(l) => l,
        Err(e) => return Err(e),
    };
    let ghost pre = ctx.db@;
    let now = ctx.timestamp;
    let owner = sender_account.account_id;
    proof {
        lemma_active_account_exists(pre, ctx.sender);
    }
    let domain_id = ctx.db.insert_domain(kind, slug, title, owner, now, limit);
    let ghost mid = ctx.db@;
    proof {
        lemma_push_named_domain_wf(pre, mid.domains.last());
        assert(mid == (LedgerState { domains: pre.domains.push(mid.domains.last()), ..pre }));
        assert forall|i: int| 0 <= i < mid.domain_members.len() implies !(#[trigger] mid.domain_members[i].domain_id == domain_id && mid.domain_members[i].account_id == owner) by {
            assert(mid.domain_members[i] == pre.domain_members[i]);
        }
        crate::ledger::lemma_find_index(mid.domain_members, crate::ledger::membership_pred(domain_id, owner));
        if mid.membership_index(domain_id, owner) is Some {
            let k = mid.membership_index(domain_id, owner)->0;
            assert((crate::ledger::membership_pred(domain_id, owner))(mid.domain_members[k]));
        }
        assert(mid.domains[domain_id - 1].kind == kind);
        lemma_with_member_wf(mid, domain_id, owner, DomainRole::Owner, now);
        lemma_history_new_domain(pre, mid.domains.last(), owner, now);
    }
    match insert_domain_member(ctx, domain_id, owner, DomainRole::Owner) {
        Ok(()) => Ok(()),
        Err(e) => Err(e),
    }
}

/// Joins the caller to a public domain (nothing to do for a member).
pub fn join_domain(ctx: &mut ReducerContext, domain_id: u64) -> (r: Result<(), String>)
    requires
        old(ctx).db@.wf(),
        old(ctx).db@.has_capacity(),
    ensures
        final(ctx).db@.wf(),
        history_kept(old(ctx).db@, final(ctx).db@),
        reducer_done(
            old(ctx),
            final(ctx),
            r,
            join_domain_error(old(ctx).db@, old(ctx).sender, domain_id),
            join_domain_post(old(ctx).db@, old(ctx).sender, old(ctx).timestamp, domain_id),
        ),
{
    let sender_account = match require_active_sender_account(ctx) {
        Ok(a) => a,
        Err(e) => return Err(e),
    };
    let domain = match require_domain(ctx, domain_id) {
        Ok(d) => d,
        Err(e) => return Err(e),
    };
    if domain.kind != DomainKind::Public {
        return Err(owned("Only public domains can be joined directly."));
    }
    if has_domain_membership(ctx, domain_id, sender_account.account_id) {
        return Ok(());
    }
    proof {
        lemma_active_account_exists(ctx.db@, ctx.sender);
        lemma_domain_found(ctx.db@, domain_id);
        lemma_with_member_wf(
            ctx.db@,
            domain_id,
            sender_account.account_id,
            DomainRole::Member,
            ctx.timestamp,
        );
        assert forall|i: int| 0 <= i < ctx.db@.domains.len() && (#[trigger] ctx.db@.domains[i]).kind == DomainKind::Dm implies ctx.db@.domains[i].domain_id != domain_id by {
            assert(ctx.db@.domains[i].domain_id == i + 1);
        }
        lemma_history_with_member(ctx.db@, domain_id, sender_account.account_id, DomainRole::Member, ctx.timestamp);
    }
    insert_domain_member(ctx, domain_id, sender_account.account_id, DomainRole::Member)
}

/// Adds an active account to a named domain the caller owns.
pub fn add_domain_member(
    ctx: &mut ReducerContext,
    domain_id: u64,
    account_id: u64,
    role: DomainRole,
) -> (r: Result<(), String>)
    requires
        old(ctx).db@.wf(),
        old(ctx).db@.has_capacity(),
    ensures
        final(ctx).db@.wf(),
        history_kept(old(ctx).db@, final(ctx).db@),
        reducer_done(
            old(ctx),
            final(ctx),
            r,
            add_domain_member_error(old(ctx).db@, old(ctx).sender, domain_id, account_id),
            with_member(old(ctx).db@, domain_id, account_id, role, old(ctx).timestamp),
        ),
{
    let sender_account = match require_active_sender_account(ctx) {
        Ok(a) => a,
        Err(e) => return Err(e),
    };
    let domain = match require_domain(ctx, domain_id) {
        Ok(d) => d,
        Err(e) => return Err(e),
    };
    if let Err(e) = require_domain_owner(ctx, domain_id, sender_account.account_id) {
        return Err(e);
    }
    if let Err(e) = require_active_account(ctx, account_id) {
        return Err(e);
    }
    if domain.kind == DomainKind::Dm {
        return Err(owned("DM membership is fixed after creation."));
    }
    if has_domain_membership(ctx, domain_id, account_id) {
        return Err(owned("That account is already a member of the domain."));
    }
    proof {
        lemma_account_found(ctx.db@, account_id);
        lemma_domain_found(ctx.db@, domain_id);
        lemma_with_member_wf(ctx.db@, domain_id, account_id, role, ctx.timestamp);
        assert forall|i: int| 0 <= i < ctx.db@.domains.len() && (#[trigger] ctx.db@.domains[i]).kind == DomainKind::Dm implies ctx.db@.domains[i].domain_id != domain_id by {
            assert(ctx.db@.domains[i].domain_id == i + 1);
        }
        lemma_history_with_member(ctx.db@, domain_id, account_id, role, ctx.timestamp);
    }
    insert_domain_member(ctx, domain_id, account_id, role)
}

/// Removes an account from a named domain the caller owns.
pub fn remove_domain_member(ctx: &mut ReducerContext, domain_id: u64, account_id: u64) -> (r: Result<
    (),
    String,
>)
    requires
        old(ctx).db@.wf(),
    ensures
        final(ctx).db@.wf(),
        history_kept(old(ctx).db@, final(ctx).db@),
        reducer_done(
            old(ctx),
            final(ctx),
            r,
            remove_domain_member_error(old(ctx).db@, old(ctx).sender, domain_id, account_id),
            remove_domain_member_post(old(ctx).db@, domain_id, account_id),
        ),
{
    let sender_account = match require_active_sender_account(ctx) {
        Ok(a) => a,
        Err(e) => return Err(e),
    };
    let domain = match require_domain(ctx, domain_id) {
        Ok(d) => d,
        Err(e) => return Err(e),
    };
    if let Err(e) = require_domain_owner(ctx, domain_id, sender_account.account_id) {
        return Err(e);
    }
    if domain.kind == DomainKind::Dm {
        return Err(owned("DM membership cannot be changed after creation."));
    }
    let k = match ctx.db.find_membership(domain_id, account_id) {
        Some(k) => k,
        None => return Err(owned("That account is not a member of the domain.")),
    };
    proof {
        lemma_domain_found(ctx.db@, domain_id);
        crate::ledger::lemma_find_index(ctx.db@.domain_members, crate::ledger::membership_pred(domain_id, account_id));
        lemma_remove_member_wf(ctx.db@, k as int);
        assert forall|i: int| 0 <= i < ctx.db@.domains.len() && (#[trigger] ctx.db@.domains[i]).kind == DomainKind::Dm implies ctx.db@.domains[i].domain_id != ctx.db@.domain_members[k as int].domain_id by {
            assert(ctx.db@.domains[i].domain_id == i + 1);
        }
        lemma_history_remove_member(ctx.db@, k as int);
    }
    ctx.db.delete_domain_member_row(k);
    Ok(())
}

/// The sequence number the next message of a domain gets.
pub fn next_domain_sequence(ctx: &ReducerContext, domain_id: u64) -> (r: u64)
    requires
        seq_max(domain_sequences(ctx.db@.messages, domain_id)) < u64::MAX,
    ensures
        r == next_sequence(ctx.db@, domain_id),
{
    let messages = ctx.db.messages();
    let mut sequences: Vec<u64> = Vec::new();
    let mut i: usize = 0;
    while i < messages.len()
        invariant
            i <= messages@.len(),
            sequences@ == domain_sequences(messages@.take(i as int), domain_id),
        decreases messages@.len() - i,
    {
        assert(messages@.take(i as int + 1).drop_last() =~= messages@.take(i as int));
        if messages[i].domain_id == domain_id {
            sequences.push(messages[i].domain_sequence);
        }
        i += 1;
    }
    assert(messages@.take(i as int) =~= messages@);
    next_domain_sequence_from_existing(sequences.as_slice())
}

/// Appends a message by the caller to a domain it may post in.
pub fn post_message(
    ctx: &mut ReducerContext,
    domain_id: u64,
    body: String,
    reply_to_message_id: Option<u64>,
) -> (r: Result<(), String>)
    requires
        old(ctx).db@.wf(),
        old(ctx).db@.has_capacity(),
    ensures
        final(ctx).db@.wf(),
        history_kept(old(ctx).db@, final(ctx).db@),
        reducer_done(
            old(ctx),
            final(ctx),
            r,
            post_message_error(old(ctx).db@, old(ctx).sender, domain_id, body@, reply_to_message_id),
            post_message_post(
                old(ctx).db@,
                old(ctx).sender,
                old(ctx).timestamp,
                domain_id,
                body,
                reply_to_message_id,
            ),
        ),
{
    let sender_account = match require_active_sender_account(ctx) {
        Ok(a) => a,
        Err(e) => return Err(e),
    };
    let domain = match require_domain(ctx, domain_id) {
        Ok(d) => d,
        Err(e) => return Err(e),
    };
    if let Err(e) = validate_message_body(body.as_str(), domain.message_char_limit as usize) {
        return Err(e);
    }
    if !can_post_in_domain(ctx, &domain, sender_account.account_id) {
        return Err(owned("You are not allowed to post in that domain."));
    }
    if let Some(reply_to) = reply_to_message_id {
        let k = match ctx.db.find_message(reply_to) {
            Some(k) => k,
            None => return Err(owned("Reply target message does not exist.")),
        };
        if ctx.db.messages()[k].domain_id != domain_id {
            return Err(owned("Replies must stay within the same domain."));
        }
        proof {
            crate::ledger::lemma_find_index(ctx.db@.messages, crate::ledger::message_pred(reply_to));
        }
    }
    proof {
        let s = ctx.db@;
        assert forall|i: int| 0 <= i < s.messages.len() implies #[trigger] s.messages[i].domain_sequence <= i + 1 by {
            assert(s.messages[i].message_id == i + 1);
        }
        lemma_domain_sequences_bound(s.messages, domain_id);
        lemma_active_account_exists(s, ctx.sender);
        lemma_domain_found(s, domain_id);
    }
    let domain_sequence = next_domain_sequence(ctx, domain_id);
    let ghost pre = ctx.db@;
    let sender = ctx.sender();
    let now = ctx.timestamp;
    ctx.db.insert_message(
        domain_id,
        domain_sequence,
        sender_account.account_id,
        sender,
        body,
        now,
        reply_to_message_id,
    );
    proof {
        lemma_push_message_wf(pre, ctx.db@.messages.last());
        assert(ctx.db@ == (LedgerState { messages: pre.messages.push(ctx.db@.messages.last()), ..pre }));
    }
    Ok(())
}

/// The subscription of an account to a domain, with its row index, if any.
pub fn find_subscription(ctx: &ReducerContext, subscriber_account_id: u64, domain_id: u64) -> (r: Option<
    (usize, Subscription),
>)
    ensures
        match ctx.db@.subscription_index(subscriber_account_id, domain_id) {
            Some(i) => r matches Some((k, row)) && k as int == i && row == ctx.db@.subscriptions[i]
                && i < ctx.db@.subscriptions.len(),
            None => r is None,
        },
{
    match ctx.db.find_subscription(subscriber_account_id, domain_id) {
        Some(i) => Some((i, ctx.db.subscriptions()[i])),
        None => None,
    }
}

/// Subscribes the caller to a domain it may read, or refreshes its subscription.
pub fn subscribe_domain(ctx: &mut ReducerContext, domain_id: u64, batch_window_seconds: u32) -> (r:
    Result<(), String>)
    requires
        old(ctx).db@.wf(),
        old(ctx).db@.has_capacity(),
    ensures
        final(ctx).db@.wf(),
        history_kept(old(ctx).db@, final(ctx).db@),
        reducer_done(
            old(ctx),
            final(ctx),
            r,
            subscribe_domain_error(old(ctx).db@, old(ctx).sender, domain_id, batch_window_seconds),
            subscribe_domain_post(
                old(ctx).db@,
                old(ctx).sender,
                old(ctx).timestamp,
                domain_id,
                batch_window_seconds,
            ),
        ),
{
    let sender_account = match require_active_sender_account(ctx) {
        Ok(a) => a,
        Err(e) => return Err(e),
    };
    let domain = match require_domain(ctx, domain_id) {
        Ok(d) => d,
        Err(e) => return Err(e),
    };
    let batch_window_seconds = match normalize_batch_window(batch_window_seconds) {
        Ok(w) => w,
        Err(e) => return Err(e),
    };
    if !can_read_domain(ctx, &domain, sender_account.account_id) {
        return Err(owned("You are not allowed to subscribe to that domain."));
    }
    let now = ctx.timestamp;
    let ghost pre = ctx.db@;
    if let Some((index, mut subscription)) = find_subscription(ctx, sender_account.account_id, domain_id) {
        let ghost i = pre.subscription_index(sender_account.account_id, domain_id)->0;
        proof {
            crate::ledger::lemma_find_index(pre.subscriptions, crate::ledger::subscription_pred(sender_account.account_id, domain_id));
            assert(pre.subscriptions[i].subscription_id == i + 1);
        }
        subscription.batch_window_seconds = batch_window_seconds;
        subscription.active = true;
        subscription.updated_at = now;
        proof {
            lemma_update_subscription_wf(pre, i, subscription);
        }
        ctx.db.update_subscription(index, subscription);
        return Ok(());
    }
    proof {
        lemma_active_account_exists(pre, ctx.sender);
        lemma_domain_found(pre, domain_id);
    }
    ctx.db.insert_subscription(sender_account.account_id, domain_id, batch_window_seconds, true, now, now);
    proof {
        lemma_push_subscription_wf(pre, ctx.db@.subscriptions.last());
        assert(ctx.db@ == (LedgerState { subscriptions: pre.subscriptions.push(ctx.db@.subscriptions.last()), ..pre }));
    }
    Ok(())
}

/// Makes the caller's subscription to a domain inactive.
pub fn unsubscribe_domain(ctx: &mut ReducerContext, domain_id: u64) -> (r: Result<(), String>)
    requires
        old(ctx).db@.wf(),
    ensures
        final(ctx).db@.wf(),
        history_kept(old(ctx).db@, final(ctx).db@),
        reducer_done(
            old(ctx),
            final(ctx),
            r,
            unsubscribe_domain_error(old(ctx).db@, old(ctx).sender, domain_id),
            unsubscribe_domain_post(old(ctx).db@, old(ctx).sender, old(ctx).timestamp, domain_id),
        ),
{
    let sender_account = match require_active_sender_account(ctx) {
        Ok(a) => a,
        Err(e) => return Err(e),
    };
    let (index, mut subscription) = match find_subscription(ctx, sender_account.account_id, domain_id) {
        Some(s) => s,
        None => return Err(owned("No subscription exists for that domain.")),
    };
    let ghost pre = ctx.db@;
    let ghost i = pre.subscription_index(sender_account.account_id, domain_id)->0;
    proof {
        assert(pre.subscription_index(sender_account.account_id, domain_id) is Some);
        crate::ledger::lemma_find_index(pre.subscriptions, crate::ledger::subscription_pred(sender_account.account_id, domain_id));
        assert(0 <= i < pre.subscriptions.len());
        assert(subscription == pre.subscriptions[i]);
        assert(pre.subscriptions[i].subscription_id == i + 1);
    }
    subscription.active = false;
    subscription.updated_at = ctx.timestamp;
    proof {
        lemma_update_subscription_wf(pre, i, subscription);
    }
    ctx.db.update_subscription(index, subscription);
    Ok(())
}

/// The account ids of a domain's members in a table, sorted ascending.
fn sorted_member_account_ids(db: &Database, domain_id: u64) -> (r: Vec<u64>)
    ensures
        r@ == db@.sorted_member_ids(domain_id),
{
    let members = db.domain_members();
    let mut ids: Vec<u64> = Vec::new();
    let mut i: usize = 0;
    while i < members.len()
        invariant
            i <= members@.len(),
            ids@ == member_account_ids(members@.take(i as int), domain_id),
        decreases members@.len() - i,
    {
        assert(members@.take(i as int + 1).drop_last() =~= members@.take(i as int));
        if members[i].domain_id == domain_id {
            ids.push(members[i].account_id);
        }
        i += 1;
    }
    assert(members@.take(i as int) =~= members@);
    let sorted = sort_ascending(&ids);
    proof {
        lemma_sorted_permutation(sorted@, ids@);
    }
    sorted
}

/// The account ids of a domain's members, sorted ascending.
pub fn dm_member_account_ids(ctx: &ReducerContext, domain_id: u64) -> (r: Vec<u64>)
    ensures
        r@ == ctx.db@.sorted_member_ids(domain_id),
{
    sorted_member_account_ids(&ctx.db, domain_id)
}

/// The account ids of a domain's members, sorted ascending (for a view).
pub fn dm_member_account_ids_for_view(ctx: &ViewContext, domain_id: u64) -> (r: Vec<u64>)
    ensures
        r@ == ctx.db@.sorted_member_ids(domain_id),
{
    sorted_member_account_ids(ctx.db, domain_id)
}

/// The first DM whose sorted member list is the participant list, if any.
pub fn find_existing_dm(ctx: &ReducerContext, participant_account_ids: &[u64]) -> (r: Option<Domain>)
    ensures
        match dm_index(ctx.db@, participant_account_ids@) {
            Some(i) => r == Some(ctx.db@.domains[i]),
            None => r is None,
        },
{
    let domains = ctx.db.domains();
    let ghost p = participant_account_ids@;
    let mut i: usize = 0;
    while i < domains.len()
        invariant
            domains@ == ctx.db@.domains,
            p == participant_account_ids@,
            i <= domains@.len(),
            forall|j: int| 0 <= j < i ==> !(dm_pred(ctx.db@, p))(#[trigger] domains@[j]),
        decreases domains@.len() - i,
    {
        if domains[i].kind == DomainKind::Dm {
            let members = dm_member_account_ids(ctx, domains[i].domain_id);
            if same_u64s(members.as_slice(), participant_account_ids) {
                proof {
                    lemma_find_index_at(ctx.db@.domains, dm_pred(ctx.db@, p), i as int);
                }
                return Some(domains[i].copy_row());
            }
        }
        i += 1;
    }
    proof {
        lemma_find_index_none(ctx.db@.domains, dm_pred(ctx.db@, p));
    }
    None
}

/// The canonical participant list of a DM, once every participant other than the sender
/// is checked to be an active account.
pub fn canonicalize_dm_participants(
    ctx: &ReducerContext,
    sender_account_id: u64,
    recipient_account_ids: Vec<u64>,
) -> (r: Result<Vec<u64>, String>)
    ensures
        match canonical_participants_error(ctx.db@, sender_account_id, recipient_account_ids@) {
            Some(e) => r matches Err(m) && m@ == e,
            None => r matches Ok(v) && v@ == dm_participants(sender_account_id, recipient_account_ids@),
        },
        r matches Ok(v) ==> v@.len() <= recipient_account_ids@.len() + 1,
        r matches Ok(v) ==> strictly_ascending(v@) && forall|x: u64| #[trigger] v@.contains(x) <==> (x
            == sender_account_id || recipient_account_ids@.contains(x)),
{
    let ghost recipients = recipient_account_ids@;
    let participant_account_ids = normalize_dm_participant_account_ids(
        sender_account_id,
        recipient_account_ids,
    );
    proof {
        let q = dm_participants(sender_account_id, recipients);
        assert(strictly_ascending(participant_account_ids@) && forall|x: u64|
            #[trigger] participant_account_ids@.contains(x) <==> (x == sender_account_id
                || recipients.contains(x)));
        lemma_strictly_ascending_unique(participant_account_ids@, q);
    }
    if participant_account_ids.len() < 2 {
        return Err(owned("DM creation requires at least one other active account."));
    }
    let ghost p = participant_account_ids@;
    let mut i: usize = 0;
    assert(p.skip(0) =~= p);
    while i < participant_account_ids.len()
        invariant
            p == participant_account_ids@,
            p == dm_participants(sender_account_id, recipients),
            recipients == recipient_account_ids@,
            p.len() >= 2,
            i <= p.len(),
            participants_error(ctx.db@, p, sender_account_id) == participants_error(
                ctx.db@,
                p.skip(i as int),
                sender_account_id,
            ),
        decreases p.len() - i,
    {
        let account_id = participant_account_ids[i];
        assert(p.skip(i as int)[0] == account_id);
        assert(p.skip(i as int).drop_first() =~= p.skip(i as int + 1));
        if account_id != sender_account_id {
            if let Err(e) = require_active_account(ctx, account_id) {
                assert(participants_error(ctx.db@, p.skip(i as int), sender_account_id) == crate::rules::account_error(ctx.db@, account_id));
                return Err(e);
            }
        }
        i += 1;
    }
    assert(p.skip(i as int) =~= Seq::<u64>::empty());
    Ok(participant_account_ids)
}

/// Finds or creates the DM of the caller and the recipients (the caller and every
/// distinct recipient, as one participant set).
pub fn create_dm(ctx: &mut ReducerContext, recipient_account_ids: Vec<u64>, title: String) -> (r: Result<
    (),
    String,
>)
    requires
        old(ctx).db@.wf(),
        old(ctx).db@.has_capacity(),
        old(ctx).db@.next_membership_id + recipient_account_ids@.len() + 1 < u64::MAX,
    ensures
        final(ctx).db@.wf(),
        history_kept(old(ctx).db@, final(ctx).db@),
        final(ctx).sender == old(ctx).sender,
        final(ctx).timestamp == old(ctx).timestamp,
        match create_dm_error(old(ctx).db@, old(ctx).sender, recipient_account_ids@, title@) {
            Some(e) => (r matches Err(m) && m@ == e) && final(ctx).db@ == old(ctx).db@,
            None => r is Ok && create_dm_post(
                old(ctx).db@,
                final(ctx).db@,
                old(ctx).sender,
                old(ctx).timestamp,
                recipient_account_ids@,
                title,
            ),
        },
{
    let ghost recipients = recipient_account_ids@;
    let sender_account = match require_active_sender_account(ctx) {
        Ok(a) => a,
        Err(e) => return Err(e),
    };
    let creator = sender_account.account_id;
    let participant_account_ids = match canonicalize_dm_participants(ctx, creator, recipient_account_ids) {
        Ok(p) => p,
        Err(e) => return Err(e),
    };
    if let Err(e) = validate_title(title.as_str()) {
        return Err(e);
    }
    if find_existing_dm(ctx, participant_account_ids.as_slice()).is_some() {
        return Ok(());
    }
    let ghost pre = ctx.db@;
    let ghost p = participant_account_ids@;
    let ghost others = p.filter(other_than(creator));
    let now = ctx.timestamp;
    proof {
        lemma_active_account_exists(pre, ctx.sender);
        lemma_participants_exist(pre, p, creator);
        lemma_filter_other_than(p, creator);
        assert(p.contains(creator));
        assert forall|i: int| 0 <= i < pre.domain_members.len() implies #[trigger] pre.domain_members[i].domain_id != (pre.domains.len() + 1) as u64 by {
            assert(pre.domain_exists(pre.domain_members[i].domain_id));
        }
    }
    let domain_id = ctx.db.insert_domain(DomainKind::Dm, String::new(), title, creator, now, DEFAULT_MESSAGE_CHAR_LIMIT);
    let ghost mid = ctx.db@;
    let ghost base = pre.domain_members.len() as int;
    proof {
        lemma_find_index(mid.domain_members, crate::ledger::membership_pred(domain_id, creator));
        if mid.membership_index(domain_id, creator) is Some {
            let k = mid.membership_index(domain_id, creator)->0;
            assert((crate::ledger::membership_pred(domain_id, creator))(mid.domain_members[k]));
        }
    }
    match insert_domain_member(ctx, domain_id, creator, DomainRole::Owner) {
        Ok(()) => {},
        Err(e) => return Err(e),
    }
    let mut i: usize = 0;
    proof {
        assert(p.take(0) =~= Seq::<u64>::empty());
        assert(p.take(0).filter(other_than(creator)) =~= Seq::<u64>::empty()) by {
            p.take(0).lemma_filter_len(other_than(creator));
        }
    }
    while i < participant_account_ids.len()
        invariant
            p == participant_account_ids@,
            strictly_ascending(p),
            p.contains(creator),
            i <= p.len(),
            domain_id == pre.domains.len() + 1,
            pre.next_membership_id + p.len() < u64::MAX,
            ctx.sender == old(ctx).sender,
            ctx.timestamp == now,
            ctx.db@.accounts == pre.accounts,
            ctx.db@.account_keys == pre.account_keys,
            ctx.db@.messages == pre.messages,
            ctx.db@.subscriptions == pre.subscriptions,
            ctx.db@.domains == mid.domains,
            base == pre.domain_members.len(),
            forall|k: int| 0 <= k < base ==> #[trigger] pre.domain_members[k].domain_id != domain_id,
            ctx.db@.domain_members.len() == base + 1 + p.take(i as int).filter(other_than(creator)).len(),
            ctx.db@.next_membership_id == pre.next_membership_id + 1 + p.take(i as int).filter(other_than(creator)).len(),
            ctx.db@.domain_members.take(base) == pre.domain_members,
            ctx.db@.domain_members[base] == (DomainMember {
                membership_id: pre.next_membership_id,
                domain_id,
                account_id: creator,
                role: DomainRole::Owner,
                joined_at: now,
            }),
            forall|k: int| 0 <= k < p.take(i as int).filter(other_than(creator)).len() ==> ctx.db@.domain_members[base + 1 + k]
                == (DomainMember {
                membership_id: (pre.next_membership_id + 1 + k) as u64,
                domain_id,
                account_id: #[trigger] p.take(i as int).filter(other_than(creator))[k],
                role: DomainRole::Member,
                joined_at: now,
            }),
            forall|k: int| base <= k < ctx.db@.domain_members.len() ==> (#[trigger] ctx.db@.domain_members[k]).domain_id == domain_id
                && (ctx.db@.domain_members[k].account_id == creator || p.take(i as int).contains(ctx.db@.domain_members[k].account_id)),
        decreases p.len() - i,
    {
        let account_id = participant_account_ids[i];
        let ghost cur = ctx.db@;
        let ghost fi = p.take(i as int).filter(other_than(creator));
        proof {
            assert(p.take(i as int + 1) =~= p.take(i as int).push(account_id));
            p.take(i as int).lemma_filter_push(account_id, other_than(creator));
            assert(p.take(i as int).filter(other_than(creator)).len() <= i) by {
                p.take(i as int).lemma_filter_len(other_than(creator));
            }
        }
        if account_id != creator {
            proof {
                assert forall|k: int| 0 <= k < cur.domain_members.len() implies !(#[trigger] cur.domain_members[k].domain_id == domain_id && cur.domain_members[k].account_id == account_id) by {
                    if k < base {
                        assert(cur.domain_members[k] == cur.domain_members.take(base)[k]);
                    } else if cur.domain_members[k].account_id != creator {
                        let a = cur.domain_members[k].account_id;
                        assert(p.take(i as int).contains(a));
                        let j = choose|j: int| 0 <= j < i && p.take(i as int)[j] == a;
                        assert(p[j] < p[i as int]);
                    }
                }
                lemma_find_index(cur.domain_members, crate::ledger::membership_pred(domain_id, account_id));
                if cur.membership_index(domain_id, account_id) is Some {
                    let k = cur.membership_index(domain_id, account_id)->0;
                    assert((crate::ledger::membership_pred(domain_id, account_id))(cur.domain_members[k]));
                }
            }
            match insert_domain_member(ctx, domain_id, account_id, DomainRole::Member) {
                Ok(()) => {},
                Err(e) => return Err(e),
            }
            proof {
                let nf = p.take(i as int + 1).filter(other_than(creator));
                assert(nf == fi.push(account_id));
                assert(ctx.db@.domain_members == cur.domain_members.push(ctx.db@.domain_members.last()));
                assert forall|k: int| 0 <= k < nf.len() implies ctx.db@.domain_members[base + 1 + k]
                    == (DomainMember {
                    membership_id: (pre.next_membership_id + 1 + k) as u64,
                    domain_id,
                    account_id: #[trigger] nf[k],
                    role: DomainRole::Member,
                    joined_at: now,
                }) by {
                    if k < fi.len() {
                        assert(nf[k] == fi[k]);
                        assert(ctx.db@.domain_members[base + 1 + k] == cur.domain_members[base + 1 + k]);
                    }
                }
                assert forall|k: int| base <= k < ctx.db@.domain_members.len() implies (#[trigger] ctx.db@.domain_members[k]).domain_id == domain_id
                    && (ctx.db@.domain_members[k].account_id == creator || p.take(i as int + 1).contains(ctx.db@.domain_members[k].account_id)) by {
                    if k < cur.domain_members.len() {
                        assert(ctx.db@.domain_members[k] == cur.domain_members[k]);
                        if cur.domain_members[k].account_id != creator {
                            let a = cur.domain_members[k].account_id;
                            let j = choose|j: int| 0 <= j < i && p.take(i as int)[j] == a;
                            assert(p.take(i as int + 1)[j] == a);
                        }
                    } else {
                        assert(p.take(i as int + 1)[i as int] == account_id);
                    }
                }
                assert(ctx.db@.domain_members.take(base) =~= cur.domain_members.take(base));
            }
        } else {
            proof {
                assert(p.take(i as int + 1).filter(other_than(creator)) == fi);
                assert forall|k: int| base <= k < ctx.db@.domain_members.len() implies (#[trigger] ctx.db@.domain_members[k]).domain_id == domain_id
                    && (ctx.db@.domain_members[k].account_id == creator || p.take(i as int + 1).contains(ctx.db@.domain_members[k].account_id)) by {
                    if ctx.db@.domain_members[k].account_id != creator {
                        let a = ctx.db@.domain_members[k].account_id;
                        let j = choose|j: int| 0 <= j < i && p.take(i as int)[j] == a;
                        assert(p.take(i as int + 1)[j] == a);
                    }
                }
            }
        }
        i += 1;
    }
    proof {
        assert(p.take(p.len() as int) =~= p);
        let post = ctx.db@;
        assert(post.domains.take(pre.domains.len() as int) =~= pre.domains);
        assert(dm_created(pre, post, creator, p, title, now));
        lemma_create_dm_wf(pre, post, creator, p, title, now);
    }
    Ok(())
}

/// Checks a candidate DM domain id against the participant set: accepts the DM of
/// exactly these participants; when the id names no domain, creates the DM unless one
/// already exists.
pub fn create_dm_with_domain_id(
    ctx: &mut ReducerContext,
    domain_id: u64,
    recipient_account_ids: Vec<u64>,
    title: String,
) -> (r: Result<(), String>)
    requires
        old(ctx).db@.wf(),
        old(ctx).db@.has_capacity(),
        old(ctx).db@.next_membership_id + recipient_account_ids@.len() + 2 < u64::MAX,
    ensures
        final(ctx).db@.wf(),
        history_kept(old(ctx).db@, final(ctx).db@),
        final(ctx).sender == old(ctx).sender,
        final(ctx).timestamp == old(ctx).timestamp,
        match create_dm_with_domain_id_error(
            old(ctx).db@,
            old(ctx).sender,
            domain_id,
            recipient_account_ids@,
            title@,
        ) {
            Some(e) => (r matches Err(m) && m@ == e) && final(ctx).db@ == old(ctx).db@,
            None => r is Ok && create_dm_with_domain_id_post(
                old(ctx).db@,
                final(ctx).db@,
                old(ctx).sender,
                old(ctx).timestamp,
                domain_id,
                recipient_account_ids@,
                title,
            ),
        },
{
    let ghost recipients = recipient_account_ids@;
    let sender_account = match require_active_sender_account(ctx) {
        Ok(a) => a,
        Err(e) => return Err(e),
    };
    let creator = sender_account.account_id;
    let participant_account_ids = match canonicalize_dm_participants(ctx, creator, recipient_account_ids) {
        Ok(p) => p,
        Err(e) => return Err(e),
    };
    if let Err(e) = validate_title(title.as_str()) {
        return Err(e);
    }
    if let Some(domain) = require_domain(ctx, domain_id).ok() {
        if domain.kind != DomainKind::Dm {
            return Err(owned("That domain_id does not refer to a DM domain."));
        }
        let members = dm_member_account_ids(ctx, domain.domain_id);
        if !same_u64s(members.as_slice(), participant_account_ids.as_slice()) {
            return Err(owned("That domain_id refers to a different DM participant set."));
        }
        return Ok(());
    }
    if let Some(existing_dm) = find_existing_dm(ctx, participant_account_ids.as_slice()) {
        let mut m = owned("A DM for that participant set already exists as domain_id ");
        push_decimal(&mut m, existing_dm.domain_id);
        m.append(".");
        return Err(m);
    }
    let ghost p = participant_account_ids@;
    proof {
        assert forall|x: u64| #[trigger] p.contains(x) <==> (x == creator || p.contains(x)) by {}
        lemma_strictly_ascending_unique(p, dm_participants(creator, p));
        assert(create_dm_error(ctx.db@, ctx.sender, p, title@) is None);
    }
    create_dm(ctx, participant_account_ids, title)
}

/// The active account id an identity acts for, for a view.
pub fn active_account_id_for_view_identity(ctx: &ViewContext, identity: Identity) -> (r: Option<u64>)
    ensures
        r == view_account_id(ctx.db@, identity),
{
    let k = match ctx.db.find_key(identity) {
        Some(k) => k,
        None => return None,
    };
    let key = ctx.db.account_keys()[k];
    if key.revoked_at.is_some() {
        return None;
    }
    let ai = match ctx.db.find_account(key.account_id) {
        Some(i) => i,
        None => return None,
    };
    let account = &ctx.db.accounts()[ai];
    if account.status != AccountStatus::Active {
        return None;
    }
    Some(account.account_id)
}

/// The caller's DMs: for each DM its account belongs to, the DM's id, title and
/// sorted participant list (nothing without an active account).
pub fn my_dm_domains(ctx: &ViewContext) -> (r: Vec<DmLookup>)
    ensures
        r@.len() == my_dm_domains_view(ctx.db@, ctx.sender).len(),
        forall|k: int| 0 <= k < r@.len() ==> (#[trigger] r@[k])@ == my_dm_domains_view(ctx.db@, ctx.sender)[k],
{
    let sender_account_id = match active_account_id_for_view_identity(ctx, ctx.sender()) {
        Some(a) => a,
        None => return Vec::new(),
    };
    let s = ctx.db;
    let members = s.domain_members();
    let mut lookups: Vec<DmLookup> = Vec::new();
    let mut i: usize = 0;
    while i < members.len()
        invariant
            members@ == s@.domain_members,
            s@ == ctx.db@,
            i <= members@.len(),
            lookups@.len() == dm_lookups(s@, members@.take(i as int), sender_account_id).len(),
            forall|k: int| 0 <= k < lookups@.len() ==> (#[trigger] lookups@[k])@ == dm_lookups(s@, members@.take(i as int), sender_account_id)[k],
        decreases members@.len() - i,
    {
        assert(members@.take(i as int + 1).drop_last() =~= members@.take(i as int));
        let membership = members[i];
        let ghost prev = lookups@;
        let ghost spec_prev = dm_lookups(s@, members@.take(i as int), sender_account_id);
        assert(members@.take(i as int + 1).last() == membership);
        if membership.account_id == sender_account_id {
            if let Some(di) = s.find_domain(membership.domain_id) {
                let domain = &s.domains()[di];
                if domain.kind == DomainKind::Dm {
                    let participants = dm_member_account_ids_for_view(ctx, domain.domain_id);
                    let title = domain.title.clone();
                    lookups.push(
                        DmLookup {
                            domain_id: domain.domain_id,
                            title,
                            participant_account_ids: participants,
                        },
                    );
                    proof {
                        let spec_next = dm_lookups(s@, members@.take(i as int + 1), sender_account_id);
                        assert(spec_next == spec_prev.push((domain.domain_id, domain.title@, s@.sorted_member_ids(domain.domain_id))));
                        assert forall|k: int| 0 <= k < lookups@.len() implies (#[trigger] lookups@[k])@ == spec_next[k] by {
                            if k < prev.len() {
                                assert(lookups@[k] == prev[k]);
                                assert(spec_next[k] == spec_prev[k]);
                            } else {
                                assert(k == prev.len());
                                assert(lookups@[k].title@ == domain.title@);
                                assert(lookups@[k].participant_account_ids@ == s@.sorted_member_ids(domain.domain_id));
                                assert(spec_next[k] == (domain.domain_id, domain.title@, s@.sorted_member_ids(domain.domain_id)));
                            }
                        }
                    }
                }
            }
        }
        i += 1;
    }
    assert(members@.take(i as int) =~= members@);
    lookups
}

} // verus!
