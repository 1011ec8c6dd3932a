use tidepool::ledger::Database;
use tidepool::model::{AccountStatus, DomainKind, DomainRole, Identity, Timestamp};
use tidepool::reducers::{
    add_account_key, add_domain_member, create_account, create_dm, create_dm_with_domain_id,
    create_domain, init, join_domain, my_dm_domains, post_message, remove_domain_member,
    revoke_account_key, subscribe_domain, unsubscribe_domain, ReducerContext, ViewContext,
};

const HOUR: i64 = 3_600_000_000;

fn alice() -> Identity {
    Identity::from_parts(0, 1)
}

fn bob() -> Identity {
    Identity::from_parts(0, 2)
}

fn carol() -> Identity {
    Identity::from_parts(0, 3)
}

fn ledger() -> ReducerContext {
    let mut ctx = ReducerContext {
        db: Database::new(),
        sender: alice(),
        timestamp: Timestamp::from_micros_since_unix_epoch(100 * HOUR),
    };
    init(&mut ctx);
    ctx
}

fn as_sender(ctx: &mut ReducerContext, who: Identity) {
    ctx.sender = who;
}

/// alice (account 1), bob (account 2) and carol (account 3).
fn three_accounts() -> ReducerContext {
    let mut ctx = ledger();
    create_account(&mut ctx, "alice".to_string()).unwrap();
    as_sender(&mut ctx, bob());
    create_account(&mut ctx, "bob".to_string()).unwrap();
    as_sender(&mut ctx, carol());
    create_account(&mut ctx, "carol".to_string()).unwrap();
    as_sender(&mut ctx, alice());
    ctx
}

#[test]
fn create_account_binds_the_calling_identity() {
    let mut ctx = ledger();
    assert_eq!(create_account(&mut ctx, "alice".to_string()), Ok(()));
    assert_eq!(ctx.db.accounts().len(), 1);
    assert_eq!(ctx.db.accounts()[0].account_id, 1);
    assert_eq!(ctx.db.accounts()[0].handle, "alice");
    assert_eq!(ctx.db.accounts()[0].status, AccountStatus::Active);
    assert_eq!(ctx.db.account_keys().len(), 1);
    assert_eq!(ctx.db.account_keys()[0].key_identity, alice());
    assert_eq!(ctx.db.account_keys()[0].account_id, 1);
    assert_eq!(ctx.db.account_keys()[0].revoked_at, None);
    assert_eq!(
        create_account(&mut ctx, "alice2".to_string()),
        Err("This identity is already bound to an active account.".to_string())
    );
    assert_eq!(ctx.db.accounts().len(), 1);
}

#[test]
fn create_account_refuses_taken_and_malformed_handles() {
    let mut ctx = ledger();
    create_account(&mut ctx, "alice".to_string()).unwrap();
    as_sender(&mut ctx, bob());
    assert_eq!(
        create_account(&mut ctx, " alice ".to_string()),
        Err("That handle is already taken.".to_string())
    );
    assert_eq!(
        create_account(&mut ctx, "Bob".to_string()),
        Err("Handle may only contain lowercase ASCII letters, numbers, dashes, and underscores."
            .to_string())
    );
    assert_eq!(ctx.db.accounts().len(), 1);
}

#[test]
fn reducers_need_an_account() {
    let mut ctx = ledger();
    assert_eq!(
        create_domain(&mut ctx, DomainKind::Public, "general".to_string(), "General".to_string(), 280),
        Err("Create an account before using this reducer.".to_string())
    );
    assert_eq!(
        post_message(&mut ctx, 1, "hi".to_string(), None),
        Err("Create an account before using this reducer.".to_string())
    );
}

#[test]
fn added_key_acts_for_the_account_until_revoked() {
    let mut ctx = three_accounts();
    let laptop = Identity::from_parts(7, 7);
    assert_eq!(add_account_key(&mut ctx, laptop), Ok(()));
    assert_eq!(
        add_account_key(&mut ctx, bob()),
        Err("That key identity is already bound to an account.".to_string())
    );
    as_sender(&mut ctx, laptop);
    assert_eq!(
        create_domain(&mut ctx, DomainKind::Public, "general".to_string(), "General".to_string(), 280),
        Ok(())
    );
    assert_eq!(ctx.db.domains()[0].created_by_account_id, 1);
    as_sender(&mut ctx, bob());
    assert_eq!(
        revoke_account_key(&mut ctx, laptop),
        Err("You can only revoke keys for your own account.".to_string())
    );
    assert_eq!(
        revoke_account_key(&mut ctx, Identity::from_parts(9, 9)),
        Err("That key identity is not bound to any account.".to_string())
    );
    as_sender(&mut ctx, alice());
    assert_eq!(revoke_account_key(&mut ctx, laptop), Ok(()));
    assert_eq!(
        revoke_account_key(&mut ctx, laptop),
        Err("That key identity has already been revoked.".to_string())
    );
    as_sender(&mut ctx, laptop);
    assert_eq!(
        post_message(&mut ctx, 1, "hi".to_string(), None),
        Err("Create an account before using this reducer.".to_string())
    );
}

#[test]
fn create_domain_makes_the_creator_owner() {
    let mut ctx = three_accounts();
    assert_eq!(
        create_domain(&mut ctx, DomainKind::Private, "team".to_string(), "Team".to_string(), 64),
        Ok(())
    );
    let domain = &ctx.db.domains()[0];
    assert_eq!(domain.domain_id, 1);
    assert_eq!(domain.kind, DomainKind::Private);
    assert_eq!(domain.slug, "team");
    assert_eq!(domain.message_char_limit, 64);
    assert_eq!(ctx.db.domain_members().len(), 1);
    assert_eq!(ctx.db.domain_members()[0].account_id, 1);
    assert_eq!(ctx.db.domain_members()[0].role, DomainRole::Owner);
    assert_eq!(
        create_domain(&mut ctx, DomainKind::Dm, String::new(), "Chat".to_string(), 280),
        Err("DMs must be created with create_dm, not create_domain.".to_string())
    );
    as_sender(&mut ctx, bob());
    assert_eq!(
        create_domain(&mut ctx, DomainKind::Public, "team".to_string(), "Other".to_string(), 280),
        Err("That domain slug has already been claimed.".to_string())
    );
}

#[test]
fn named_domain_claims_are_limited_per_day() {
    let mut ctx = three_accounts();
    for slug in ["a", "b", "c"] {
        assert_eq!(
            create_domain(&mut ctx, DomainKind::Public, slug.to_string(), "T".to_string(), 280),
            Ok(())
        );
    }
    assert_eq!(
        create_domain(&mut ctx, DomainKind::Public, "d".to_string(), "T".to_string(), 280),
        Err("You may only create 3 named domains every 24 hours.".to_string())
    );
    ctx.timestamp = Timestamp::from_micros_since_unix_epoch(124 * HOUR + 1);
    assert_eq!(
        create_domain(&mut ctx, DomainKind::Public, "d".to_string(), "T".to_string(), 280),
        Ok(())
    );
    assert_eq!(ctx.db.domains().len(), 4);
}

#[test]
fn posting_numbers_messages_per_domain() {
    let mut ctx = three_accounts();
    create_domain(&mut ctx, DomainKind::Public, "one".to_string(), "One".to_string(), 280).unwrap();
    create_domain(&mut ctx, DomainKind::Public, "two".to_string(), "Two".to_string(), 32).unwrap();
    assert_eq!(post_message(&mut ctx, 1, "first".to_string(), None), Ok(()));
    assert_eq!(post_message(&mut ctx, 2, "elsewhere".to_string(), None), Ok(()));
    as_sender(&mut ctx, bob());
    assert_eq!(post_message(&mut ctx, 1, "second".to_string(), Some(1)), Ok(()));
    let messages = ctx.db.messages();
    assert_eq!(messages.len(), 3);
    assert_eq!((messages[0].domain_id, messages[0].domain_sequence), (1, 1));
    assert_eq!((messages[1].domain_id, messages[1].domain_sequence), (2, 1));
    assert_eq!((messages[2].domain_id, messages[2].domain_sequence), (1, 2));
    assert_eq!(messages[2].author_account_id, 2);
    assert_eq!(messages[2].authenticated_key_identity, bob());
    assert_eq!(messages[2].reply_to_message_id, Some(1));
    assert_eq!(
        post_message(&mut ctx, 1, "x".to_string(), Some(2)),
        Err("Replies must stay within the same domain.".to_string())
    );
    assert_eq!(
        post_message(&mut ctx, 1, "x".to_string(), Some(99)),
        Err("Reply target message does not exist.".to_string())
    );
    assert_eq!(
        post_message(&mut ctx, 9, "x".to_string(), None),
        Err("That domain does not exist.".to_string())
    );
    assert_eq!(
        post_message(&mut ctx, 2, "y".repeat(33), None),
        Err("Message body must be at most 32 characters.".to_string())
    );
    assert_eq!(ctx.db.messages().len(), 3);
}

#[test]
fn private_domains_need_membership() {
    let mut ctx = three_accounts();
    create_domain(&mut ctx, DomainKind::Private, "team".to_string(), "Team".to_string(), 280).unwrap();
    as_sender(&mut ctx, bob());
    assert_eq!(
        post_message(&mut ctx, 1, "hi".to_string(), None),
        Err("You are not allowed to post in that domain.".to_string())
    );
    assert_eq!(
        join_domain(&mut ctx, 1),
        Err("Only public domains can be joined directly.".to_string())
    );
    assert_eq!(
        subscribe_domain(&mut ctx, 1, 0),
        Err("You are not allowed to subscribe to that domain.".to_string())
    );
    assert_eq!(
        add_domain_member(&mut ctx, 1, 2, DomainRole::Member),
        Err("You are not a member of that domain.".to_string())
    );
    as_sender(&mut ctx, alice());
    assert_eq!(add_domain_member(&mut ctx, 1, 2, DomainRole::Member), Ok(()));
    assert_eq!(
        add_domain_member(&mut ctx, 1, 2, DomainRole::Member),
        Err("That account is already a member of the domain.".to_string())
    );
    assert_eq!(
        add_domain_member(&mut ctx, 1, 42, DomainRole::Member),
        Err("That account does not exist.".to_string())
    );
    as_sender(&mut ctx, bob());
    assert_eq!(post_message(&mut ctx, 1, "hi".to_string(), None), Ok(()));
    assert_eq!(
        remove_domain_member(&mut ctx, 1, 1),
        Err("Only domain owners can perform that action.".to_string())
    );
    as_sender(&mut ctx, alice());
    assert_eq!(remove_domain_member(&mut ctx, 1, 2), Ok(()));
    assert_eq!(
        remove_domain_member(&mut ctx, 1, 2),
        Err("That account is not a member of the domain.".to_string())
    );
    as_sender(&mut ctx, bob());
    assert_eq!(
        post_message(&mut ctx, 1, "again".to_string(), None),
        Err("You are not allowed to post in that domain.".to_string())
    );
}

#[test]
fn joining_a_public_domain_twice_is_harmless() {
    let mut ctx = three_accounts();
    create_domain(&mut ctx, DomainKind::Public, "open".to_string(), "Open".to_string(), 280).unwrap();
    as_sender(&mut ctx, bob());
    assert_eq!(join_domain(&mut ctx, 1), Ok(()));
    assert_eq!(join_domain(&mut ctx, 1), Ok(()));
    assert_eq!(ctx.db.domain_members().len(), 2);
    assert_eq!(ctx.db.domain_members()[1].role, DomainRole::Member);
    assert_eq!(join_domain(&mut ctx, 5), Err("That domain does not exist.".to_string()));
}

#[test]
fn subscriptions_are_created_updated_and_deactivated() {
    let mut ctx = three_accounts();
    create_domain(&mut ctx, DomainKind::Public, "open".to_string(), "Open".to_string(), 280).unwrap();
    as_sender(&mut ctx, bob());
    assert_eq!(
        unsubscribe_domain(&mut ctx, 1),
        Err("No subscription exists for that domain.".to_string())
    );
    assert_eq!(subscribe_domain(&mut ctx, 1, 0), Ok(()));
    assert_eq!(ctx.db.subscriptions().len(), 1);
    assert_eq!(ctx.db.subscriptions()[0].batch_window_seconds, 30);
    assert!(ctx.db.subscriptions()[0].active);
    assert_eq!(ctx.db.subscriptions()[0].subscriber_account_id, 2);
    assert_eq!(
        subscribe_domain(&mut ctx, 1, 4000),
        Err("Batch window must be 3600 seconds or less.".to_string())
    );
    assert_eq!(unsubscribe_domain(&mut ctx, 1), Ok(()));
    assert!(!ctx.db.subscriptions()[0].active);
    ctx.timestamp = Timestamp::from_micros_since_unix_epoch(101 * HOUR);
    assert_eq!(subscribe_domain(&mut ctx, 1, 90), Ok(()));
    assert_eq!(ctx.db.subscriptions().len(), 1);
    assert!(ctx.db.subscriptions()[0].active);
    assert_eq!(ctx.db.subscriptions()[0].batch_window_seconds, 90);
    assert_eq!(
        ctx.db.subscriptions()[0].updated_at,
        Timestamp::from_micros_since_unix_epoch(101 * HOUR)
    );
}

#[test]
fn create_dm_finds_the_existing_dm_for_the_same_participants() {
    let mut ctx = three_accounts();
    assert_eq!(create_dm(&mut ctx, vec![3, 2], "Trio".to_string()), Ok(()));
    assert_eq!(ctx.db.domains().len(), 1);
    assert_eq!(ctx.db.domains()[0].kind, DomainKind::Dm);
    assert_eq!(ctx.db.domains()[0].message_char_limit, 280);
    assert_eq!(ctx.db.domain_members().len(), 3);
    as_sender(&mut ctx, carol());
    assert_eq!(create_dm(&mut ctx, vec![1, 2, 1, 3], "Again".to_string()), Ok(()));
    assert_eq!(ctx.db.domains().len(), 1);
    assert_eq!(
        create_dm(&mut ctx, vec![3], "Alone".to_string()),
        Err("DM creation requires at least one other active account.".to_string())
    );
    assert_eq!(
        create_dm(&mut ctx, vec![8], "Ghost".to_string()),
        Err("That account does not exist.".to_string())
    );
    let view = ViewContext { db: &ctx.db, sender: carol() };
    let dms = my_dm_domains(&view);
    assert_eq!(dms.len(), 1);
    assert_eq!(dms[0].domain_id, 1);
    assert_eq!(dms[0].title, "Trio");
    assert_eq!(dms[0].participant_account_ids, vec![1, 2, 3]);
}

#[test]
fn dm_membership_is_fixed() {
    let mut ctx = three_accounts();
    create_dm(&mut ctx, vec![2], "Pair".to_string()).unwrap();
    assert_eq!(
        add_domain_member(&mut ctx, 1, 3, DomainRole::Member),
        Err("DM membership is fixed after creation.".to_string())
    );
    assert_eq!(
        remove_domain_member(&mut ctx, 1, 2),
        Err("DM membership cannot be changed after creation.".to_string())
    );
    as_sender(&mut ctx, carol());
    assert_eq!(
        post_message(&mut ctx, 1, "hi".to_string(), None),
        Err("You are not allowed to post in that domain.".to_string())
    );
}

#[test]
fn create_dm_with_domain_id_checks_the_named_domain() {
    let mut ctx = three_accounts();
    assert_eq!(create_dm_with_domain_id(&mut ctx, 1, vec![2], "Pair".to_string()), Ok(()));
    assert_eq!(ctx.db.domains().len(), 1);
    assert_eq!(create_dm_with_domain_id(&mut ctx, 1, vec![2, 2], "Pair".to_string()), Ok(()));
    assert_eq!(
        create_dm_with_domain_id(&mut ctx, 1, vec![3], "Other".to_string()),
        Err("That domain_id refers to a different DM participant set.".to_string())
    );
    assert_eq!(
        create_dm_with_domain_id(&mut ctx, 7, vec![2], "Pair".to_string()),
        Err("A DM for that participant set already exists as domain_id 1.".to_string())
    );
    create_domain(&mut ctx, DomainKind::Public, "open".to_string(), "Open".to_string(), 280).unwrap();
    assert_eq!(
        create_dm_with_domain_id(&mut ctx, 2, vec![3], "Other".to_string()),
        Err("That domain_id does not refer to a DM domain.".to_string())
    );
    assert_eq!(
        create_dm_with_domain_id(&mut ctx, 3, vec![3], "Title ".repeat(20)),
        Err("Title must be at most 80 characters.".to_string())
    );
}

#[test]
fn my_dm_domains_is_empty_without_an_account() {
    let ctx = three_accounts();
    let view = ViewContext { db: &ctx.db, sender: Identity::from_parts(5, 5) };
    assert!(my_dm_domains(&view).is_empty());
}

#[test]
fn handles_are_stored_as_given() {
    let mut ctx = ledger();
    create_account(&mut ctx, " bob".to_string()).unwrap();
    assert_eq!(ctx.db.accounts()[0].handle, " bob");
    // The stored handle keeps its space, so the trimmed handle is still free.
    as_sender(&mut ctx, bob());
    assert_eq!(create_account(&mut ctx, "bob".to_string()), Ok(()));
    as_sender(&mut ctx, carol());
    assert_eq!(
        create_account(&mut ctx, "bob ".to_string()),
        Err("That handle is already taken.".to_string())
    );
}

#[test]
fn adding_then_removing_a_member_restores_the_members() {
    let mut ctx = three_accounts();
    create_domain(&mut ctx, DomainKind::Private, "team".to_string(), "Team".to_string(), 280).unwrap();
    let before: Vec<(u64, u64, u64)> = ctx
        .db
        .domain_members()
        .iter()
        .map(|m| (m.membership_id, m.domain_id, m.account_id))
        .collect();
    assert_eq!(add_domain_member(&mut ctx, 1, 3, DomainRole::Owner), Ok(()));
    assert_eq!(ctx.db.domain_members().len(), before.len() + 1);
    assert_eq!(remove_domain_member(&mut ctx, 1, 3), Ok(()));
    let after: Vec<(u64, u64, u64)> = ctx
        .db
        .domain_members()
        .iter()
        .map(|m| (m.membership_id, m.domain_id, m.account_id))
        .collect();
    assert_eq!(after, before);
}

#[test]
fn sequence_numbers_continue_from_the_largest() {
    let mut ctx = three_accounts();
    create_domain(&mut ctx, DomainKind::Public, "one".to_string(), "One".to_string(), 280).unwrap();
    for k in 1..=4u64 {
        assert_eq!(post_message(&mut ctx, 1, format!("m{k}"), None), Ok(()));
        assert_eq!(ctx.db.messages().last().unwrap().domain_sequence, k);
    }
}
