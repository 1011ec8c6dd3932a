use tidepool::model::{Domain, DomainKind, Timestamp, DEFAULT_BATCH_WINDOW_SECONDS, DEFAULT_MESSAGE_CHAR_LIMIT};
use tidepool::participants::{
    count_recent_named_domain_claims, next_domain_sequence_from_existing,
    normalize_dm_participant_account_ids,
};
use tidepool::validation::{
    normalize_batch_window, normalize_message_char_limit, validate_domain_fields,
    validate_handle_format, validate_message_body, validate_slug, validate_title,
};

#[test]
fn next_domain_sequence_starts_at_one() {
    assert_eq!(next_domain_sequence_from_existing(&[]), 1);
}

#[test]
fn next_domain_sequence_advances_from_max_seen_value() {
    assert_eq!(next_domain_sequence_from_existing(&[1, 2, 7, 3]), 8);
}

#[test]
fn normalize_dm_participants_sorts_dedupes_and_includes_sender() {
    let participants = normalize_dm_participant_account_ids(10, vec![12, 10, 11, 12, 9]);
    assert_eq!(participants, vec![9, 10, 11, 12]);
}

#[test]
fn normalize_dm_participants_can_collapse_to_sender_only() {
    let participants = normalize_dm_participant_account_ids(10, vec![10, 10]);
    assert_eq!(participants, vec![10]);
}

#[test]
fn count_recent_named_domain_claims_ignores_dm_domains() {
    let domains = vec![
        Domain {
            domain_id: 1,
            kind: DomainKind::Public,
            slug: "alpha".to_string(),
            title: "Alpha".to_string(),
            created_by_account_id: 1,
            created_at: Timestamp::from_micros_since_unix_epoch(1),
            message_char_limit: DEFAULT_MESSAGE_CHAR_LIMIT,
        },
        Domain {
            domain_id: 2,
            kind: DomainKind::Dm,
            slug: String::new(),
            title: "DM".to_string(),
            created_by_account_id: 1,
            created_at: Timestamp::from_micros_since_unix_epoch(1),
            message_char_limit: DEFAULT_MESSAGE_CHAR_LIMIT,
        },
        Domain {
            domain_id: 3,
            kind: DomainKind::Private,
            slug: "beta".to_string(),
            title: "Beta".to_string(),
            created_by_account_id: 1,
            created_at: Timestamp::from_micros_since_unix_epoch(1),
            message_char_limit: DEFAULT_MESSAGE_CHAR_LIMIT,
        },
    ];

    assert_eq!(count_recent_named_domain_claims(&domains), 2);
}

#[test]
fn validate_message_body_rejects_blank_messages() {
    assert!(validate_message_body("   ", 10).is_err());
}

#[test]
fn validate_message_body_enforces_character_limit() {
    assert!(validate_message_body("hello", 4).is_err());
    assert!(validate_message_body("hello", 5).is_ok());
}

#[test]
fn normalize_batch_window_uses_default_for_zero() {
    assert_eq!(
        normalize_batch_window(0).expect("zero should map to default"),
        DEFAULT_BATCH_WINDOW_SECONDS
    );
}

#[test]
fn batch_window_is_kept_up_to_the_maximum_and_refused_beyond() {
    assert_eq!(normalize_batch_window(45), Ok(45));
    assert_eq!(normalize_batch_window(3600), Ok(3600));
    assert_eq!(
        normalize_batch_window(3601),
        Err("Batch window must be 3600 seconds or less.".to_string())
    );
}

#[test]
fn message_char_limit_must_lie_between_bounds() {
    assert_eq!(normalize_message_char_limit(32), Ok(32));
    assert_eq!(normalize_message_char_limit(1024), Ok(1024));
    let refused = Err("Message char limit must be between 32 and 1024.".to_string());
    assert_eq!(normalize_message_char_limit(31), refused);
    assert_eq!(normalize_message_char_limit(1025), refused);
}

#[test]
fn message_body_errors_name_the_limit() {
    assert_eq!(
        validate_message_body("hello", 4),
        Err("Message body must be at most 4 characters.".to_string())
    );
    assert_eq!(
        validate_message_body(" \t ", 10),
        Err("Message body cannot be empty.".to_string())
    );
    assert!(validate_message_body("  hello  ", 5).is_ok());
    assert!(validate_message_body("héllo", 5).is_ok());
}

#[test]
fn slug_and_handle_checks() {
    assert!(validate_slug(" general-chat_2 ").is_ok());
    assert_eq!(
        validate_slug("  "),
        Err("Slug cannot be empty for public or private domains.".to_string())
    );
    assert_eq!(
        validate_slug("General"),
        Err("Slug may only contain lowercase ASCII letters, numbers, dashes, and underscores."
            .to_string())
    );
    assert_eq!(
        validate_slug(&"a".repeat(65)),
        Err("Slug must be at most 64 characters.".to_string())
    );
    assert!(validate_slug(&"a".repeat(64)).is_ok());
    assert!(validate_handle_format("alice").is_ok());
    assert_eq!(
        validate_handle_format(""),
        Err("Handle cannot be empty.".to_string())
    );
    assert_eq!(
        validate_handle_format(&"b".repeat(33)),
        Err("Handle must be at most 32 characters.".to_string())
    );
    assert_eq!(
        validate_handle_format("al ice"),
        Err("Handle may only contain lowercase ASCII letters, numbers, dashes, and underscores."
            .to_string())
    );
}

#[test]
fn title_checks_count_bytes() {
    assert!(validate_title("Alpha").is_ok());
    assert_eq!(validate_title("   "), Err("Title cannot be empty.".to_string()));
    // 41 two-byte characters are 82 bytes.
    assert_eq!(
        validate_title(&"é".repeat(41)),
        Err("Title must be at most 80 characters.".to_string())
    );
    assert!(validate_title(&"é".repeat(40)).is_ok());
}

#[test]
fn domain_fields_are_checked_in_order() {
    assert_eq!(
        validate_domain_fields(DomainKind::Public, "BAD", "", 10),
        Err("Title cannot be empty.".to_string())
    );
    assert_eq!(
        validate_domain_fields(DomainKind::Public, "BAD", "Title", 10),
        Err("Message char limit must be between 32 and 1024.".to_string())
    );
    assert_eq!(
        validate_domain_fields(DomainKind::Dm, "x", "Title", 280),
        Err("DM domains may not define a slug.".to_string())
    );
    assert!(validate_domain_fields(DomainKind::Dm, "  ", "Title", 280).is_ok());
    assert!(validate_domain_fields(DomainKind::Private, "ok", "Title", 280).is_ok());
}

#[test]
fn next_domain_sequence_ignores_order() {
    assert_eq!(next_domain_sequence_from_existing(&[9, 3, 5]), 10);
}
