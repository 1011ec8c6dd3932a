use std::collections::HashMap;

use tidepool::channel::{
    account_from_rows, channel_settings, clamp_message_body, default_base_url,
    default_max_messages_per_poll, default_poll_interval_ms, display_domain_name,
    messages_from_rows, plan_reply, render_batch_message, row_string, row_u64,
    subscriptions_from_rows, validate_config, validate_request_body, SqlCell, SqlRow,
    TidepoolChannelConfig, TidepoolMessageRow, TidepoolReplyMetadata, TidepoolSubscriptionRow,
};
use tidepool::poll::plan_poll;
use tidepool::validation::validate_message_body;

fn config(max: usize, emit_self: bool) -> TidepoolChannelConfig {
    TidepoolChannelConfig {
        database: "tide".to_string(),
        base_url: "https://h".to_string(),
        poll_interval_ms: 30_000,
        max_messages_per_poll: max,
        emit_self_messages: emit_self,
    }
}

fn sub(domain_id: u64, slug: &str, title: &str, window: u32) -> TidepoolSubscriptionRow {
    TidepoolSubscriptionRow {
        domain_id,
        slug: slug.to_string(),
        title: title.to_string(),
        message_char_limit: 280,
        batch_window_seconds: window,
    }
}

fn msg(message_id: u64, domain_id: u64, seq: u64, author: u64, body: &str) -> TidepoolMessageRow {
    TidepoolMessageRow {
        message_id,
        domain_id,
        domain_sequence: seq,
        author_account_id: author,
        body: body.to_string(),
    }
}

fn inbox() -> Vec<TidepoolMessageRow> {
    vec![
        msg(20, 7, 1, 2, "dm hi"),
        msg(10, 5, 2, 2, "old"),
        msg(12, 5, 4, 3, "four"),
        msg(11, 5, 3, 1, "mine"),
        msg(30, 9, 1, 2, "no sub"),
        msg(13, 5, 5, 2, "five"),
    ]
}

#[test]
fn defaults() {
    assert_eq!(default_base_url(), "https://spacetimedb.com");
    assert_eq!(default_poll_interval_ms(), 30_000);
    assert_eq!(default_max_messages_per_poll(), 100);
}

#[test]
fn config_is_normalised() {
    let mut c = TidepoolChannelConfig {
        database: "tide".to_string(),
        base_url: "https://h//".to_string(),
        poll_interval_ms: 10,
        max_messages_per_poll: 0,
        emit_self_messages: true,
    };
    assert_eq!(validate_config(&mut c), Ok(()));
    assert_eq!(c.base_url, "https://h");
    assert_eq!(c.poll_interval_ms, 30_000);
    assert_eq!(c.max_messages_per_poll, 100);
    assert!(c.emit_self_messages);

    let mut blank = config(5, false);
    blank.database = "  ".to_string();
    assert_eq!(
        validate_config(&mut blank),
        Err("config.database cannot be empty".to_string())
    );

    let mut bad = config(5, false);
    bad.base_url = "h/".to_string();
    bad.poll_interval_ms = 10;
    assert_eq!(
        validate_config(&mut bad),
        Err("config.base_url must start with http:// or https://".to_string())
    );
    assert_eq!(bad.base_url, "h");
    assert_eq!(bad.poll_interval_ms, 10);

    let settings = channel_settings(&c);
    assert_eq!(settings.display_name, "Tidepool (tide)");
    assert_eq!(settings.poll_interval_ms, 30_000);
}

#[test]
fn batches_render_as_text() {
    let s = sub(5, "ops", "Ops", 30);
    assert_eq!(display_domain_name(&s), "ops/Ops");
    assert_eq!(display_domain_name(&sub(7, "", "DM", 0)), "DM");
    let text = render_batch_message(&s, &[msg(11, 5, 3, 2, "hello"), msg(12, 5, 4, 3, "  world ")]);
    assert_eq!(
        text,
        "Tidepool domain \"ops/Ops\" has 2 new message(s).\nConfigured batch window: 30s.\n\n- seq 3 from account 2\nhello\n\n- seq 4 from account 3\n  world"
    );
    assert_eq!(
        render_batch_message(&sub(7, "", "DM", 0), &[]),
        "Tidepool domain \"DM\" has 0 new message(s)."
    );
}

#[test]
fn replies_are_clamped_to_the_limit() {
    assert_eq!(clamp_message_body("  hello  ", 10), "hello");
    assert_eq!(clamp_message_body("hello world", 8), "hello...");
    assert_eq!(clamp_message_body("hello", 2), "..");
    assert_eq!(clamp_message_body("   ", 5), "");
    assert_eq!(clamp_message_body("x", 0), "");
    assert_eq!(clamp_message_body("héllo wörld", 9), "héllo ...");
}

#[test]
fn replies_go_back_to_their_domain() {
    let metadata = TidepoolReplyMetadata {
        base_url: "https://h".to_string(),
        database: "tide".to_string(),
        domain_id: 5,
        domain_title: "Ops".to_string(),
        message_char_limit: 8,
        reply_to_message_id: Some(13),
        last_seen_domain_sequence: 5,
    };
    let reply = plan_reply(&metadata, "hello world").expect("a reply");
    assert_eq!(reply.url, "https://h/v1/database/tide/call/post_message");
    assert_eq!(reply.domain_id, 5);
    assert_eq!(reply.body, "hello...");
    assert_eq!(reply.reply_to_message_id, Some(13));
    assert!(plan_reply(&metadata, " \n ").is_none());
}

#[test]
fn rows_are_read_by_column() {
    let rows = vec![SqlRow::Cells(vec![SqlCell::Unsigned(1), SqlCell::Text("alice".to_string())])];
    let account = account_from_rows(&rows).unwrap();
    assert_eq!(account.account_id, 1);
    assert_eq!(account.handle, "alice");
    assert_eq!(
        account_from_rows(&[]).unwrap_err(),
        "No Tidepool account is visible to this auth token. Create an account or fix the token."
    );
    assert_eq!(
        account_from_rows(&[SqlRow::NotArray]).unwrap_err(),
        "SQL row was not an array"
    );
    assert_eq!(
        account_from_rows(&[SqlRow::Cells(vec![SqlCell::Unsigned(1)])]).unwrap_err(),
        "Missing or invalid handle column"
    );
    assert_eq!(
        row_u64(&SqlRow::Cells(vec![SqlCell::Other]), 0, "x"),
        Err("Missing or invalid x column".to_string())
    );
    assert_eq!(
        row_string(&SqlRow::Cells(vec![SqlCell::Unsigned(3)]), 0, "y"),
        Err("Missing or invalid y column".to_string())
    );

    let subs = subscriptions_from_rows(&[SqlRow::Cells(vec![
        SqlCell::Unsigned(5),
        SqlCell::Text("ops".to_string()),
        SqlCell::Text("Ops".to_string()),
        SqlCell::Unsigned(70_000),
        SqlCell::Unsigned(30),
    ])])
    .unwrap();
    assert_eq!(subs.len(), 1);
    assert_eq!(subs[0].domain_id, 5);
    assert_eq!(subs[0].slug, "ops");
    assert_eq!(subs[0].message_char_limit, 4_464);
    assert_eq!(subs[0].batch_window_seconds, 30);

    let bad = messages_from_rows(&[
        SqlRow::Cells(vec![
            SqlCell::Unsigned(1),
            SqlCell::Unsigned(2),
            SqlCell::Unsigned(3),
            SqlCell::Unsigned(4),
            SqlCell::Text("b".to_string()),
        ]),
        SqlRow::Cells(vec![SqlCell::Unsigned(1), SqlCell::Text("2".to_string())]),
    ]);
    assert_eq!(bad.unwrap_err(), "Missing or invalid domain_id column");
}

#[test]
fn request_bodies_are_bounded() {
    assert!(validate_request_body(&"a".repeat(262_144)).is_ok());
    assert_eq!(
        validate_request_body(&"a".repeat(262_145)),
        Err("HTTP request body exceeds 262144 bytes".to_string())
    );
}

#[test]
fn a_poll_emits_unseen_messages_grouped_by_domain() {
    let c = config(3, false);
    let subs = vec![sub(5, "ops", "Ops", 30), sub(7, "", "DM", 0)];
    let mut cursors: HashMap<u64, u64> = HashMap::new();
    cursors.insert(5, 2);
    let plan = plan_poll(&c, 1, &subs, &mut cursors, inbox());
    assert!(plan.save_cursors);
    assert_eq!(plan.batches.len(), 2);

    let first = &plan.batches[0];
    assert_eq!(first.domain_id, 5);
    assert_eq!(first.user_id, "tidepool:domain:5");
    assert_eq!(first.thread_id, "tidepool:domain:5");
    assert_eq!(first.user_name, "Ops");
    assert_eq!(first.message_count, 2);
    assert_eq!(
        first.content,
        "Tidepool domain \"ops/Ops\" has 2 new message(s).\nConfigured batch window: 30s.\n\n- seq 4 from account 3\nfour\n\n- seq 5 from account 2\nfive"
    );
    assert_eq!(first.metadata.base_url, "https://h");
    assert_eq!(first.metadata.database, "tide");
    assert_eq!(first.metadata.domain_title, "Ops");
    assert_eq!(first.metadata.message_char_limit, 280);
    assert_eq!(first.metadata.reply_to_message_id, Some(13));
    assert_eq!(first.metadata.last_seen_domain_sequence, 5);

    let second = &plan.batches[1];
    assert_eq!(second.domain_id, 7);
    assert_eq!(
        second.content,
        "Tidepool domain \"DM\" has 1 new message(s).\n\n- seq 1 from account 2\ndm hi"
    );

    assert_eq!(cursors.get(&5), Some(&5));
    assert_eq!(cursors.get(&7), Some(&1));
    assert_eq!(cursors.get(&9), None);
    assert_eq!(cursors.len(), 2);
    assert_eq!(plan.unseen_count, 5);
    assert_eq!(plan.pending_count, 4);
    assert!(plan.dropped_domain_ids.is_empty());
}

#[test]
fn a_second_poll_does_not_repeat_messages() {
    let c = config(3, false);
    let subs = vec![sub(5, "ops", "Ops", 30), sub(7, "", "DM", 0)];
    let mut cursors: HashMap<u64, u64> = HashMap::new();
    cursors.insert(5, 2);
    plan_poll(&c, 1, &subs, &mut cursors, inbox());
    let again = plan_poll(&c, 1, &subs, &mut cursors, inbox());
    // Only the message of the unsubscribed domain is still pending; it is dropped.
    assert!(again.save_cursors);
    assert!(again.batches.is_empty());
    assert_eq!(again.dropped_domain_ids, vec![9]);
    assert_eq!(again.unseen_count, 1);
    assert_eq!(again.pending_count, 1);
    assert_eq!(cursors.get(&5), Some(&5));
    assert_eq!(cursors.get(&7), Some(&1));
}

#[test]
fn own_messages_are_emitted_when_configured() {
    let c = config(10, true);
    let subs = vec![sub(5, "ops", "Ops", 0)];
    let mut cursors: HashMap<u64, u64> = HashMap::new();
    cursors.insert(5, 2);
    let plan = plan_poll(&c, 1, &subs, &mut cursors, inbox());
    assert_eq!(plan.batches.len(), 1);
    assert_eq!(plan.batches[0].message_count, 3);
    assert!(plan.batches[0].content.contains("- seq 3 from account 1\nmine"));
    assert_eq!(cursors.get(&5), Some(&5));
    assert_eq!(cursors.get(&9), None);
}

#[test]
fn nothing_happens_without_subscriptions_or_news() {
    let c = config(10, false);
    let mut cursors: HashMap<u64, u64> = HashMap::new();
    let plan = plan_poll(&c, 1, &[], &mut cursors, inbox());
    assert!(!plan.save_cursors);
    assert!(plan.batches.is_empty());

    let subs = vec![sub(5, "ops", "Ops", 0)];
    cursors.insert(5, 9);
    let plan = plan_poll(&c, 1, &subs, &mut cursors, vec![msg(1, 5, 3, 2, "old")]);
    assert!(!plan.save_cursors);
    assert!(plan.batches.is_empty());
    assert_eq!(cursors.get(&5), Some(&9));
}

#[test]
fn a_clamped_reply_passes_the_body_check() {
    for (content, limit) in [("hello world", 8usize), ("  x  ", 1), ("abcdef", 3), ("ok", 280)] {
        let body = clamp_message_body(content, limit);
        assert!(!body.is_empty());
        assert!(validate_message_body(&body, limit).is_ok());
    }
}

#[test]
fn a_poll_stays_within_its_budget() {
    let c = config(1, false);
    let subs = vec![sub(5, "ops", "Ops", 0), sub(7, "", "DM", 0)];
    let mut cursors: HashMap<u64, u64> = HashMap::new();
    let plan = plan_poll(&c, 1, &subs, &mut cursors, inbox());
    assert_eq!(plan.batches.len(), 1);
    assert_eq!(plan.batches[0].domain_id, 5);
    assert_eq!(plan.batches[0].message_count, 1);
    assert_eq!(plan.batches[0].metadata.reply_to_message_id, Some(10));
    assert_eq!(cursors.get(&5), Some(&2));
    assert_eq!(cursors.get(&7), None);
}

#[test]
fn polls_cut_by_the_budget_leave_no_gap() {
    let c = config(1, false);
    let subs = vec![sub(5, "ops", "Ops", 0), sub(7, "", "DM", 0), sub(9, "x", "X", 0)];
    let mut cursors: HashMap<u64, u64> = HashMap::new();
    let mut emitted: Vec<(u64, u64)> = Vec::new();
    for _ in 0..8 {
        let plan = plan_poll(&c, 1, &subs, &mut cursors, inbox());
        for batch in &plan.batches {
            emitted.push((batch.domain_id, batch.metadata.last_seen_domain_sequence));
        }
    }
    // Every message but the caller's own, once each, in domain and sequence order.
    assert_eq!(emitted, vec![(5, 2), (5, 4), (5, 5), (7, 1), (9, 1)]);
    assert_eq!(cursors.get(&5), Some(&5));
    assert_eq!(cursors.get(&7), Some(&1));
    assert_eq!(cursors.get(&9), Some(&1));
}
