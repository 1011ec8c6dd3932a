use tidepool::tool::{
    build_messages_sql, call_url, check_status, normalize_domain_kind, plan_action,
    resolve_base_url, sql_url, validate_base_url, validate_input_length, ReducerArgs,
    TidepoolAction, ToolRequest, DEFAULT_MESSAGE_LIMIT, MAX_TEXT_LENGTH,
};

#[test]
fn base_url_defaults_and_loses_trailing_slashes() {
    assert_eq!(resolve_base_url(None), Ok("https://spacetimedb.com".to_string()));
    assert_eq!(
        resolve_base_url(Some("http://localhost:3000//".to_string())),
        Ok("http://localhost:3000".to_string())
    );
    assert_eq!(
        resolve_base_url(Some(String::new())),
        Err("base_url cannot be empty".to_string())
    );
    assert_eq!(
        resolve_base_url(Some("ftp://example.org".to_string())),
        Err("base_url must start with http:// or https://".to_string())
    );
    assert!(validate_base_url("https://x").is_ok());
    assert_eq!(
        validate_base_url("http:/x"),
        Err("base_url must start with http:// or https://".to_string())
    );
}

#[test]
fn domain_kinds_are_normalised() {
    assert_eq!(normalize_domain_kind("public"), Ok("Public"));
    assert_eq!(normalize_domain_kind("Public"), Ok("Public"));
    assert_eq!(normalize_domain_kind("private"), Ok("Private"));
    assert_eq!(normalize_domain_kind("Private"), Ok("Private"));
    assert_eq!(normalize_domain_kind("dm"), Ok("Dm"));
    assert_eq!(normalize_domain_kind("Dm"), Ok("Dm"));
    assert_eq!(normalize_domain_kind("DM"), Ok("Dm"));
    assert_eq!(
        normalize_domain_kind("PUBLIC"),
        Err("kind must be one of: public, private, dm".to_string())
    );
}

#[test]
fn message_queries_cap_the_limit() {
    assert_eq!(
        build_messages_sql(7, None, 5),
        "SELECT message_id, domain_id, domain_sequence, author_account_id, body, created_at, reply_to_message_id FROM message WHERE domain_id = 7 ORDER BY domain_sequence ASC LIMIT 5"
    );
    assert_eq!(
        build_messages_sql(12, Some(40), 500),
        "SELECT message_id, domain_id, domain_sequence, author_account_id, body, created_at, reply_to_message_id FROM message WHERE domain_id = 12 AND domain_sequence > 40 ORDER BY domain_sequence ASC LIMIT 100"
    );
    assert_eq!(DEFAULT_MESSAGE_LIMIT, 100);
}

#[test]
fn inputs_longer_than_the_maximum_are_refused() {
    assert_eq!(MAX_TEXT_LENGTH, 65_536);
    assert!(validate_input_length(&"x".repeat(65_536), "params").is_ok());
    assert_eq!(
        validate_input_length(&"x".repeat(65_537), "params"),
        Err("Input 'params' exceeds maximum length of 65536 characters".to_string())
    );
    // 32 769 two-byte characters are 65 538 bytes.
    assert!(validate_input_length(&"é".repeat(32_769), "sql").is_err());
}

#[test]
fn urls_and_statuses() {
    assert_eq!(sql_url("https://h", "db"), "https://h/v1/database/db/sql");
    assert_eq!(
        call_url("https://h", "db", "post_message"),
        "https://h/v1/database/db/call/post_message"
    );
    assert_eq!(check_status("Reducer call", 200, "x"), Ok(()));
    assert_eq!(check_status("Reducer call", 299, "x"), Ok(()));
    assert_eq!(
        check_status("Reducer call", 404, "missing"),
        Err("Reducer call failed with status 404: missing".to_string())
    );
    assert_eq!(
        check_status("HTTP request", 199, ""),
        Err("HTTP request failed with status 199: ".to_string())
    );
}

#[test]
fn sql_action_posts_the_query() {
    let r = plan_action(TidepoolAction::Sql {
        database: "tide".to_string(),
        sql: "SELECT 1".to_string(),
        base_url: Some("https://h/".to_string()),
    });
    match r {
        Ok(ToolRequest::Query { action, url, sql }) => {
            assert_eq!(action, "sql");
            assert_eq!(url, "https://h/v1/database/tide/sql");
            assert_eq!(sql, "SELECT 1");
        }
        other => panic!("unexpected {:?}", other),
    }
    let long = plan_action(TidepoolAction::Sql {
        database: "tide".to_string(),
        sql: "x".repeat(70_000),
        base_url: None,
    });
    assert_eq!(
        long.unwrap_err(),
        "Input 'sql' exceeds maximum length of 65536 characters"
    );
}

#[test]
fn create_domain_action_checks_kind_before_base_url() {
    let bad = plan_action(TidepoolAction::CreateDomain {
        database: "tide".to_string(),
        kind: "group".to_string(),
        slug: "s".to_string(),
        title: "T".to_string(),
        message_char_limit: None,
        base_url: Some(String::new()),
    });
    assert_eq!(bad.unwrap_err(), "kind must be one of: public, private, dm");
    let ok = plan_action(TidepoolAction::CreateDomain {
        database: "tide".to_string(),
        kind: "private".to_string(),
        slug: "s".to_string(),
        title: "T".to_string(),
        message_char_limit: None,
        base_url: None,
    });
    match ok {
        Ok(ToolRequest::Call { action, url, args, database, domain_id }) => {
            assert_eq!(action, "create_domain");
            assert_eq!(url, "https://spacetimedb.com/v1/database/tide/call/create_domain");
            assert_eq!(database, "tide");
            assert_eq!(domain_id, None);
            match args {
                ReducerArgs::CreateDomain { kind, slug, title, message_char_limit } => {
                    assert_eq!(kind, "Private");
                    assert_eq!(slug, "s");
                    assert_eq!(title, "T");
                    assert_eq!(message_char_limit, 280);
                }
                other => panic!("unexpected {:?}", other),
            }
        }
        other => panic!("unexpected {:?}", other),
    }
}

#[test]
fn post_message_action_names_the_domain() {
    let r = plan_action(TidepoolAction::PostMessage {
        database: "tide".to_string(),
        domain_id: 4,
        body: "hello".to_string(),
        reply_to_message_id: Some(9),
        base_url: Some("http://localhost:3000".to_string()),
    });
    match r {
        Ok(ToolRequest::Call { action, url, args, domain_id, .. }) => {
            assert_eq!(action, "post_message");
            assert_eq!(url, "http://localhost:3000/v1/database/tide/call/post_message");
            assert_eq!(domain_id, Some(4));
            match args {
                ReducerArgs::PostMessage { domain_id, body, reply_to_message_id } => {
                    assert_eq!(domain_id, 4);
                    assert_eq!(body, "hello");
                    assert_eq!(reply_to_message_id, Some(9));
                }
                other => panic!("unexpected {:?}", other),
            }
        }
        other => panic!("unexpected {:?}", other),
    }
    let bad = plan_action(TidepoolAction::CreateAccount {
        database: "tide".to_string(),
        handle: "a".to_string(),
        base_url: Some("localhost".to_string()),
    });
    assert_eq!(bad.unwrap_err(), "base_url must start with http:// or https://");
}

#[test]
fn reading_actions_build_their_queries() {
    match plan_action(TidepoolAction::MyDmDomains { database: "tide".to_string(), base_url: None }) {
        Ok(ToolRequest::Query { action, sql, .. }) => {
            assert_eq!(action, "my_dm_domains");
            assert_eq!(
                sql,
                "SELECT domain_id, title, participant_account_ids FROM my_dm_domains ORDER BY domain_id"
            );
        }
        other => panic!("unexpected {:?}", other),
    }
    match plan_action(TidepoolAction::GetDomainMessages {
        database: "tide".to_string(),
        domain_id: 3,
        after_sequence: None,
        limit: None,
        base_url: None,
    }) {
        Ok(ToolRequest::Query { action, sql, url }) => {
            assert_eq!(action, "get_domain_messages");
            assert_eq!(url, "https://spacetimedb.com/v1/database/tide/sql");
            assert!(sql.ends_with("WHERE domain_id = 3 ORDER BY domain_sequence ASC LIMIT 100"));
        }
        other => panic!("unexpected {:?}", other),
    }
    match plan_action(TidepoolAction::CreateDmWithDomainId {
        database: "tide".to_string(),
        domain_id: 11,
        recipient_account_ids: vec![2, 3],
        title: "Trio".to_string(),
        base_url: None,
    }) {
        Ok(ToolRequest::Call { action, args, domain_id, .. }) => {
            assert_eq!(action, "create_dm_with_domain_id");
            assert_eq!(domain_id, Some(11));
            match args {
                ReducerArgs::CreateDmWithDomainId { domain_id, recipient_account_ids, title } => {
                    assert_eq!(domain_id, 11);
                    assert_eq!(recipient_account_ids, vec![2, 3]);
                    assert_eq!(title, "Trio");
                }
                other => panic!("unexpected {:?}", other),
            }
        }
        other => panic!("unexpected {:?}", other),
    }
}
