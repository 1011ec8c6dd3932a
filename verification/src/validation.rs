use vstd::prelude::*;
use vstd::string::*;

use crate::model::{
    DomainKind, DEFAULT_BATCH_WINDOW_SECONDS, MAX_BATCH_WINDOW_SECONDS, MAX_HANDLE_LEN,
    MAX_MESSAGE_CHAR_LIMIT, MAX_SLUG_LEN, MAX_TITLE_LEN, MIN_MESSAGE_CHAR_LIMIT,
};
use crate::text::{
    all_name_chars, all_name_chars_exec, decimal, owned, push_decimal, trim, trimmed, utf8_len,
    utf8_len_exceeds,
};

verus! {

/// A result of a check agrees with the error text the specification gives
/// (`None`: the check passes).
pub open spec fn check_matches(r: Result<(), String>, e: Option<Seq<char>>) -> bool {
    match r {
        Ok(_) => e is None,
        Err(m) => e == Some(m@),
    }
}

/// Why a title is refused, if it is.
pub open spec fn title_error(title: Seq<char>) -> Option<Seq<char>> {
    let t = trim(title);
    if t.len() == 0 {
        Some("Title cannot be empty."@)
    } else if utf8_len(t) > MAX_TITLE_LEN {
        Some("Title must be at most 80 characters."@)
    } else {
        None
    }
}

/// Why a slug of a public or private domain is refused, if it is.
pub open spec fn slug_error(slug: Seq<char>) -> Option<Seq<char>> {
    let t = trim(slug);
    if t.len() == 0 {
        Some("Slug cannot be empty for public or private domains."@)
    } else if utf8_len(t) > MAX_SLUG_LEN {
        Some("Slug must be at most 64 characters."@)
    } else if !all_name_chars(t) {
        Some("Slug may only contain lowercase ASCII letters, numbers, dashes, and underscores."@)
    } else {
        None
    }
}

/// Why a handle is refused on its form alone, if it is.
pub open spec fn handle_format_error(handle: Seq<char>) -> Option<Seq<char>> {
    let t = trim(handle);
    if t.len() == 0 {
        Some("Handle cannot be empty."@)
    } else if utf8_len(t) > MAX_HANDLE_LEN {
        Some("Handle must be at most 32 characters."@)
    } else if !all_name_chars(t) {
        Some(
            "Handle may only contain lowercase ASCII letters, numbers, dashes, and underscores."@,
        )
    } else {
        None
    }
}

/// The error text for a message body longer than the limit.
pub open spec fn body_too_long_text(limit: nat) -> Seq<char> {
    "Message body must be at most "@ + decimal(limit) + " characters."@
}

/// Why a message body is refused under a character limit, if it is: its trimmed
/// text must be non-empty and have at most `limit` characters.
pub open spec fn body_error(body: Seq<char>, limit: nat) -> Option<Seq<char>> {
    let t = trim(body);
    if t.len() == 0 {
        Some("Message body cannot be empty."@)
    } else if t.len() > limit {
        Some(body_too_long_text(limit))
    } else {
        None
    }
}

/// A domain's message character limit is within the allowed range.
pub open spec fn char_limit_ok(limit: u16) -> bool {
    MIN_MESSAGE_CHAR_LIMIT <= limit && limit <= MAX_MESSAGE_CHAR_LIMIT
}

/// The error text for a message character limit out of range.
pub open spec fn char_limit_text() -> Seq<char> {
    "Message char limit must be between 32 and 1024."@
}

/// Why the fields of a new domain are refused, if they are.
pub open spec fn domain_fields_error(
    kind: DomainKind,
    slug: Seq<char>,
    title: Seq<char>,
    limit: u16,
) -> Option<Seq<char>> {
    if title_error(title) is Some {
        title_error(title)
    } else if !char_limit_ok(limit) {
        Some(char_limit_text())
    } else {
        match kind {
            DomainKind::Dm => if trim(slug).len() != 0 {
                Some("DM domains may not define a slug."@)
            } else {
                None
            },
            _ => slug_error(slug),
        }
    }
}

fn fail(text: &str) -> (r: Result<(), String>)
    ensures
        r matches Err(m) && m@ == text@,
{
    Err(owned(text))
}

/// Checks a domain's message character limit and hands it back when it is in range.
pub fn normalize_message_char_limit(limit: u16) -> (r: Result<u16, String>)
    ensures
        char_limit_ok(limit) ==> r == Ok::<u16, String>(limit),
        !char_limit_ok(limit) ==> (r matches Err(m) && m@ == char_limit_text()),
{
    if !(MIN_MESSAGE_CHAR_LIMIT <= limit && limit <= MAX_MESSAGE_CHAR_LIMIT) {
        return Err(owned("Message char limit must be between 32 and 1024."));
    }
    Ok(limit)
}

/// The batch window a subscription gets: zero asks for the default; more than the
/// maximum is refused; anything else is kept.
pub fn normalize_batch_window(batch_window_seconds: u32) -> (r: Result<u32, String>)
    ensures
        batch_window_seconds == 0 ==> r == Ok::<u32, String>(DEFAULT_BATCH_WINDOW_SECONDS),
        batch_window_seconds > MAX_BATCH_WINDOW_SECONDS ==> (r matches Err(m) && m@
            == "Batch window must be 3600 seconds or less."@),
        0 < batch_window_seconds <= MAX_BATCH_WINDOW_SECONDS ==> r == Ok::<u32, String>(
            batch_window_seconds,
        ),
{
    if batch_window_seconds == 0 {
        return Ok(DEFAULT_BATCH_WINDOW_SECONDS);
    }
    if batch_window_seconds > MAX_BATCH_WINDOW_SECONDS {
        return Err(owned("Batch window must be 3600 seconds or less."));
    }
    Ok(batch_window_seconds)
}

/// Checks the slug of a public or private domain.
pub fn validate_slug(slug: &str) -> (r: Result<(), String>)
    ensures
        check_matches(r, slug_error(slug@)),
{
    let t = trimmed(slug);
    if t.is_empty() {
        return fail("Slug cannot be empty for public or private domains.");
    }
    if utf8_len_exceeds(t, MAX_SLUG_LEN) {
        return fail("Slug must be at most 64 characters.");
    }
    if !all_name_chars_exec(t) {
        return fail(
            "Slug may only contain lowercase ASCII letters, numbers, dashes, and underscores.",
        );
    }
    Ok(())
}

/// Checks a handle's form (its uniqueness is checked against the ledger elsewhere).
pub fn validate_handle_format(handle: &str) -> (r: Result<(), String>)
    ensures
        check_matches(r, handle_format_error(handle@)),
{
    let t = trimmed(handle);
    if t.is_empty() {
        return fail("Handle cannot be empty.");
    }
    if utf8_len_exceeds(t, MAX_HANDLE_LEN) {
        return fail("Handle must be at most 32 characters.");
    }
    if !all_name_chars_exec(t) {
        return fail(
            "Handle may only contain lowercase ASCII letters, numbers, dashes, and underscores.",
        );
    }
    Ok(())
}

/// Checks a title.
pub fn validate_title(title: &str) -> (r: Result<(), String>)
    ensures
        check_matches(r, title_error(title@)),
{
    let t = trimmed(title);
    if t.is_empty() {
        return fail("Title cannot be empty.");
    }
    if utf8_len_exceeds(t, MAX_TITLE_LEN) {
        return fail("Title must be at most 80 characters.");
    }
    Ok(())
}

/// Checks a message body against a character limit.
pub fn validate_message_body(body: &str, message_char_limit: usize) -> (r: Result<(), String>)
    ensures
        check_matches(r, body_error(body@, message_char_limit as nat)),
{
    let t = trimmed(body);
    if t.is_empty() {
        return fail("Message body cannot be empty.");
    }
    if t.unicode_len() > message_char_limit {
        let mut m = owned("Message body must be at most ");
        push_decimal(&mut m, message_char_limit as u64);
        m.append(" characters.");
        return Err(m);
    }
    Ok(())
}

/// Checks the fields of a new domain.
pub fn validate_domain_fields(kind: DomainKind, slug: &str, title: &str, message_char_limit: u16) -> (r:
    Result<(), String>)
    ensures
        check_matches(r, domain_fields_error(kind, slug@, title@, message_char_limit)),
{
    if let Err(e) = validate_title(title) {
        return Err(e);
    }
    if let Err(e) = normalize_message_char_limit(message_char_limit) {
        return Err(e);
    }
    match kind {
        DomainKind::Public | DomainKind::Private => validate_slug(slug),
        DomainKind::Dm => {
            if !trimmed(slug).is_empty() {
                return fail("DM domains may not define a slug.");
            }
            Ok(())
        },
    }
}

} // verus!
