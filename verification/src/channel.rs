use vstd::prelude::*;

use crate::text::{
    decimal, has_prefix, owned, push_decimal, repeat_char, starts_with_text, take_chars, trim,
    trim_end_char, trimmed, trimmed_end_char, utf8_len, utf8_len_exceeds,
};
use crate::tool::{call_url, call_url_text};

verus! {

broadcast use vstd::string::group_string_axioms;

/// Shortest interval between two polls, in milliseconds.
pub const MIN_POLL_INTERVAL_MS: u32 = 30000;

/// Messages emitted by one poll when the configuration asks for zero.
pub const DEFAULT_MAX_MESSAGES_PER_POLL: usize = 100;

/// Largest body of an HTTP request the channel sends, in bytes.
pub const MAX_HTTP_BODY_LEN: usize = 262144;

/// The channel's configuration.
#[derive(Debug)]
pub struct TidepoolChannelConfig {
    pub database: String,
    pub base_url: String,
    pub poll_interval_ms: u32,
    pub max_messages_per_poll: usize,
    pub emit_self_messages: bool,
}

/// The caller's account, as the `my_account` view shows it.
#[derive(Debug)]
pub struct TidepoolAccountRow {
    pub account_id: u64,
    pub handle: String,
}

/// One of the caller's subscriptions, as the `my_subscriptions` view shows it.
#[derive(Debug)]
pub struct TidepoolSubscriptionRow {
    pub domain_id: u64,
    pub slug: String,
    pub title: String,
    pub message_char_limit: u16,
    pub batch_window_seconds: u32,
}

/// A message of a subscribed domain, as the `my_subscribed_messages` view shows it.
#[derive(Debug)]
pub struct TidepoolMessageRow {
    pub message_id: u64,
    pub domain_id: u64,
    pub domain_sequence: u64,
    pub author_account_id: u64,
    pub body: String,
}

/// What travels with an emitted batch so that a reply can be posted back.
#[derive(Debug)]
pub struct TidepoolReplyMetadata {
    pub base_url: String,
    pub database: String,
    pub domain_id: u64,
    pub domain_title: String,
    pub message_char_limit: u16,
    pub reply_to_message_id: Option<u64>,
    pub last_seen_domain_sequence: u64,
}

/// The base URL of the public SpacetimeDB host.
pub open spec fn default_base_url_text() -> Seq<char> {
    "https://spacetimedb.com"@
}

/// The base URL used when none is configured.
pub fn default_base_url() -> (r: String)
    ensures
        r@ == default_base_url_text(),
{
    owned("https://spacetimedb.com")
}

/// The poll interval used when none is configured.
pub fn default_poll_interval_ms() -> (r: u32)
    ensures
        r == MIN_POLL_INTERVAL_MS,
{
    MIN_POLL_INTERVAL_MS
}

/// The number of messages one poll emits when none is configured.
pub fn default_max_messages_per_poll() -> (r: usize)
    ensures
        r == DEFAULT_MAX_MESSAGES_PER_POLL,
{
    DEFAULT_MAX_MESSAGES_PER_POLL
}

/// A URL that names the HTTP or HTTPS scheme.
pub open spec fn is_http_url(url: Seq<char>) -> bool {
    has_prefix(url, "http://"@) || has_prefix(url, "https://"@)
}

/// Checks and normalises a configuration: the database must be named; trailing
/// slashes leave the base URL, which must then be an HTTP or HTTPS URL; the poll
/// interval is raised to the minimum; a zero message budget becomes the default.
pub fn validate_config(config: &mut TidepoolChannelConfig) -> (r: Result<(), String>)
    ensures
        trim(old(config).database@).len() == 0 ==> {
            &&& r matches Err(e) && e@ == "config.database cannot be empty"@
            &&& *final(config) == *old(config)
        },
        trim(old(config).database@).len() != 0 ==> {
            &&& final(config).database == old(config).database
            &&& final(config).emit_self_messages == old(config).emit_self_messages
            &&& final(config).base_url@ == trim_end_char(old(config).base_url@, '/')
            &&& !is_http_url(final(config).base_url@) ==> {
                &&& r matches Err(e) && e@ == "config.base_url must start with http:// or https://"@
                &&& final(config).poll_interval_ms == old(config).poll_interval_ms
                &&& final(config).max_messages_per_poll == old(config).max_messages_per_poll
            }
            &&& is_http_url(final(config).base_url@) ==> {
                &&& r is Ok
                &&& final(config).poll_interval_ms == if old(config).poll_interval_ms
                    < MIN_POLL_INTERVAL_MS {
                    MIN_POLL_INTERVAL_MS
                } else {
                    old(config).poll_interval_ms
                }
                &&& final(config).max_messages_per_poll == if old(config).max_messages_per_poll
                    == 0 {
                    DEFAULT_MAX_MESSAGES_PER_POLL
                } else {
                    old(config).max_messages_per_poll
                }
            }
        },
{
    if trimmed(config.database.as_str()).is_empty() {
        return Err(owned("config.database cannot be empty"));
    }
    let base = owned(trimmed_end_char(config.base_url.as_str(), '/'));
    config.base_url = base;
    if !(starts_with_text(config.base_url.as_str(), "http://") || starts_with_text(
        config.base_url.as_str(),
        "https://",
    )) {
        return Err(owned("config.base_url must start with http:// or https://"));
    }
    if config.poll_interval_ms < MIN_POLL_INTERVAL_MS {
        config.poll_interval_ms = MIN_POLL_INTERVAL_MS;
    }
    if config.max_messages_per_poll == 0 {
        config.max_messages_per_poll = DEFAULT_MAX_MESSAGES_PER_POLL;
    }
    Ok(())
}

/// How a domain is named in a batch: `slug/title`, or the title alone when the
/// domain has no slug.
pub open spec fn display_name(slug: Seq<char>, title: Seq<char>) -> Seq<char> {
    if slug.len() > 0 {
        slug + "/"@ + title
    } else {
        title
    }
}

/// The name under which a subscribed domain is shown.
pub fn display_domain_name(subscription: &TidepoolSubscriptionRow) -> (r: String)
    ensures
        r@ == display_name(subscription.slug@, subscription.title@),
{
    if !subscription.slug.as_str().is_empty() {
        let mut r = subscription.slug.clone();
        r.append("/");
        r.append(subscription.title.as_str());
        r
    } else {
        subscription.title.clone()
    }
}

/// A reply body fitted to a character limit: trimmed; empty when nothing is left
/// or the limit is zero; cut to `limit - 3` characters followed by `...` when it
/// is too long, or only dots when the limit is three or less.
pub open spec fn clamped_body(body: Seq<char>, max_chars: nat) -> Seq<char> {
    let t = trim(body);
    if t.len() == 0 || max_chars == 0 {
        Seq::empty()
    } else if t.len() <= max_chars {
        t
    } else if max_chars <= 3 {
        Seq::new(max_chars, |i: int| '.')
    } else {
        t.take(max_chars - 3) + "..."@
    }
}

/// Fits a reply body to a domain's character limit.
pub fn clamp_message_body(body: &str, max_chars: usize) -> (r: String)
    ensures
        r@ == clamped_body(body@, max_chars as nat),
{
    let trimmed_body = trimmed(body);
    if trimmed_body.is_empty() || max_chars == 0 {
        return String::new();
    }
    let char_count = trimmed_body.unicode_len();
    if char_count <= max_chars {
        return owned(trimmed_body);
    }
    if max_chars <= 3 {
        return repeat_char('.', max_chars);
    }
    let mut shortened = take_chars(trimmed_body, max_chars - 3);
    shortened.append("...");
    shortened
}

/// Lines joined by newlines.
pub open spec fn join_lines(lines: Seq<Seq<char>>) -> Seq<char>
    decreases lines.len(),
{
    if lines.len() == 0 {
        Seq::empty()
    } else if lines.len() == 1 {
        lines[0]
    } else {
        join_lines(lines.drop_last()) + "\n"@ + lines.last()
    }
}

/// The heading lines of a batch of `count` messages, ending with a blank line.
pub open spec fn batch_heading(subscription: TidepoolSubscriptionRow, count: nat) -> Seq<Seq<char>> {
    let first = "Tidepool domain \""@ + display_name(subscription.slug@, subscription.title@)
        + "\" has "@ + decimal(count) + " new message(s)."@;
    if subscription.batch_window_seconds > 0 {
        seq![
            first,
            "Configured batch window: "@ + decimal(subscription.batch_window_seconds as nat)
                + "s."@,
            Seq::empty(),
        ]
    } else {
        seq![first, Seq::empty()]
    }
}

/// The line that introduces a message in a batch.
pub open spec fn message_intro(message: TidepoolMessageRow) -> Seq<char> {
    "- seq "@ + decimal(message.domain_sequence as nat) + " from account "@ + decimal(
        message.author_account_id as nat,
    )
}

/// Each message as its introduction, its body and a blank line.
pub open spec fn message_lines(messages: Seq<TidepoolMessageRow>) -> Seq<Seq<char>>
    decreases messages.len(),
{
    if messages.len() == 0 {
        Seq::empty()
    } else {
        message_lines(messages.drop_last()) + seq![
            message_intro(messages.last()),
            messages.last().body@,
            Seq::empty(),
        ]
    }
}

/// The text of a batch: its heading and messages, one per line, trimmed.
pub open spec fn batch_text(
    subscription: TidepoolSubscriptionRow,
    messages: Seq<TidepoolMessageRow>,
) -> Seq<char> {
    trim(join_lines(batch_heading(subscription, messages.len()) + message_lines(messages)))
}

/// Joining one more line adds a newline and the line.
proof fn lemma_join_push(lines: Seq<Seq<char>>, line: Seq<char>)
    requires
        lines.len() > 0,
    ensures
        join_lines(lines.push(line)) == join_lines(lines) + "\n"@ + line,
{
    assert(lines.push(line).drop_last() =~= lines);
}

/// Renders a batch of messages of one subscribed domain as one text.
pub fn render_batch_message(
    subscription: &TidepoolSubscriptionRow,
    messages: &[TidepoolMessageRow],
) -> (r: String)
    ensures
        r@ == batch_text(*subscription, messages@),
{
    let ghost heading = batch_heading(*subscription, messages@.len());
    let mut s = owned("Tidepool domain \"");
    let name = display_domain_name(subscription);
    s.append(name.as_str());
    s.append("\" has ");
    push_decimal(&mut s, messages.len() as u64);
    s.append(" new message(s).");
    proof {
        assert(join_lines(seq![heading[0]]) == heading[0]);
        assert(s@ =~= heading[0]);
    }
    if subscription.batch_window_seconds > 0 {
        proof {
            lemma_join_push(seq![heading[0]], heading[1]);
            assert(seq![heading[0]].push(heading[1]) =~= heading.take(2));
        }
        s.append("\n");
        s.append("Configured batch window: ");
        push_decimal(&mut s, subscription.batch_window_seconds as u64);
        s.append("s.");
        assert(s@ =~= join_lines(heading.take(2)));
        proof {
            lemma_join_push(heading.take(2), heading[2]);
            assert(heading.take(2).push(heading[2]) =~= heading);
        }
    } else {
        proof {
            lemma_join_push(seq![heading[0]], heading[1]);
            assert(seq![heading[0]].push(heading[1]) =~= heading);
        }
    }
    s.append("\n");
    assert(s@ =~= join_lines(heading));
    let mut i: usize = 0;
    while i < messages.len()
        invariant
            i <= messages@.len(),
            heading == batch_heading(*subscription, messages@.len()),
            heading.len() > 0,
            s@ == join_lines(heading + message_lines(messages@.take(i as int))),
        decreases messages.len() - i,
    {
        let ghost before = heading + message_lines(messages@.take(i as int));
        let ghost m = messages@[i as int];
        proof {
            assert(messages@.take(i as int + 1).drop_last() =~= messages@.take(i as int));
            assert(heading + message_lines(messages@.take(i as int + 1)) =~= before.push(
                message_intro(m),
            ).push(m.body@).push(Seq::empty()));
            lemma_join_push(before, message_intro(m));
            lemma_join_push(before.push(message_intro(m)), m.body@);
            lemma_join_push(before.push(message_intro(m)).push(m.body@), Seq::empty());
        }
        s.append("\n");
        s.append("- seq ");
        push_decimal(&mut s, messages[i].domain_sequence);
        s.append(" from account ");
        push_decimal(&mut s, messages[i].author_account_id);
        s.append("\n");
        s.append(messages[i].body.as_str());
        s.append("\n");
        i += 1;
        assert(s@ =~= join_lines(heading + message_lines(messages@.take(i as int))));
    }
    assert(messages@.take(i as int) =~= messages@);
    owned(trimmed(s.as_str()))
}

/// A cell of a row of an SQL answer, as far as the channel reads it.
#[derive(Debug)]
pub enum SqlCell {
    /// A number that is a non-negative integer fitting in 64 bits.
    Unsigned(u64),
    /// A string.
    Text(String),
    /// Anything else.
    Other,
}

/// A row of an SQL answer: an array of cells, or something that is not an array.
#[derive(Debug)]
pub enum SqlRow {
    Cells(Vec<SqlCell>),
    NotArray,
}

/// The error text for a missing or ill-typed column.
pub open spec fn column_error(field_name: Seq<char>) -> Seq<char> {
    "Missing or invalid "@ + field_name + " column"@
}

/// The error text for a row that is not an array.
pub open spec fn not_array_text() -> Seq<char> {
    "SQL row was not an array"@
}

/// The unsigned integer in a column of a row, or why there is none.
pub open spec fn column_u64(row: SqlRow, index: int, field_name: Seq<char>) -> Result<u64, Seq<char>> {
    match row {
        SqlRow::NotArray => Err(not_array_text()),
        SqlRow::Cells(cells) => if 0 <= index < cells@.len() && cells@[index] is Unsigned {
            Ok(cells@[index]->Unsigned_0)
        } else {
            Err(column_error(field_name))
        },
    }
}

/// The text in a column of a row, or why there is none.
pub open spec fn column_text(row: SqlRow, index: int, field_name: Seq<char>) -> Result<
    Seq<char>,
    Seq<char>,
> {
    match row {
        SqlRow::NotArray => Err(not_array_text()),
        SqlRow::Cells(cells) => if 0 <= index < cells@.len() && cells@[index] is Text {
            Ok(cells@[index]->Text_0@)
        } else {
            Err(column_error(field_name))
        },
    }
}

/// A text result taken by its view.
pub open spec fn text_result(r: Result<String, String>) -> Result<Seq<char>, Seq<char>> {
    match r {
        Ok(s) => Ok(s@),
        Err(e) => Err(e@),
    }
}

/// An integer result with its error taken by its view.
pub open spec fn u64_result(r: Result<u64, String>) -> Result<u64, Seq<char>> {
    match r {
        Ok(v) => Ok(v),
        Err(e) => Err(e@),
    }
}

fn column_error_string(field_name: &str) -> (e: String)
    ensures
        e@ == column_error(field_name@),
{
    let mut e = owned("Missing or invalid ");
    e.append(field_name);
    e.append(" column");
    e
}

/// Reads an unsigned integer column of a row.
pub fn row_u64(row: &SqlRow, index: usize, field_name: &str) -> (r: Result<u64, String>)
    ensures
        u64_result(r) == column_u64(*row, index as int, field_name@),
{
    match row {
        SqlRow::NotArray => Err(owned("SQL row was not an array")),
        SqlRow::Cells(cells) => {
            if index < cells.len() {
                match &cells[index] {
                    SqlCell::Unsigned(v) => Ok(*v),
                    _ => Err(column_error_string(field_name)),
                }
            } else {
                Err(column_error_string(field_name))
            }
        },
    }
}

/// Reads a text column of a row.
pub fn row_string(row: &SqlRow, index: usize, field_name: &str) -> (r: Result<String, String>)
    ensures
        text_result(r) == column_text(*row, index as int, field_name@),
{
    match row {
        SqlRow::NotArray => Err(owned("SQL row was not an array")),
        SqlRow::Cells(cells) => {
            if index < cells.len() {
                match &cells[index] {
                    SqlCell::Text(s) => Ok(s.clone()),
                    _ => Err(column_error_string(field_name)),
                }
            } else {
                Err(column_error_string(field_name))
            }
        },
    }
}

/// The error text when no account is visible to the caller.
pub open spec fn no_account_visible_text() -> Seq<char> {
    "No Tidepool account is visible to this auth token. Create an account or fix the token."@
}

/// The caller's account read from the rows of `my_account`: the first row's
/// `account_id` and `handle`, or why it cannot be read.
pub open spec fn account_from_rows_spec(rows: Seq<SqlRow>) -> Result<(u64, Seq<char>), Seq<char>> {
    if rows.len() == 0 {
        Err(no_account_visible_text())
    } else {
        match column_u64(rows[0], 0, "account_id"@) {
            Err(e) => Err(e),
            Ok(id) => match column_text(rows[0], 1, "handle"@) {
                Err(e) => Err(e),
                Ok(handle) => Ok((id, handle)),
            },
        }
    }
}

/// An account result taken by its view.
pub open spec fn account_result(r: Result<TidepoolAccountRow, String>) -> Result<
    (u64, Seq<char>),
    Seq<char>,
> {
    match r {
        Ok(a) => Ok((a.account_id, a.handle@)),
        Err(e) => Err(e@),
    }
}

/// Reads the caller's account from the rows of the `my_account` view.
pub fn account_from_rows(rows: &[SqlRow]) -> (r: Result<TidepoolAccountRow, String>)
    ensures
        account_result(r) == account_from_rows_spec(rows@),
{
    if rows.len() == 0 {
        return Err(
            owned(
                "No Tidepool account is visible to this auth token. Create an account or fix the token.",
            ),
        );
    }
    let account_id = match row_u64(&rows[0], 0, "account_id") {
        Ok(v) => v,
        Err(e) => {
            return Err(e);
        },
    };
    let handle = match row_string(&rows[0], 1, "handle") {
        Ok(v) => v,
        Err(e) => {
            return Err(e);
        },
    };
    Ok(TidepoolAccountRow { account_id, handle })
}

/// A subscription row's fields: domain, slug, title, character limit and batch window.
pub type SubscriptionFields = (u64, Seq<char>, Seq<char>, u16, u32);

/// The fields of a subscription row.
pub open spec fn subscription_fields(s: TidepoolSubscriptionRow) -> SubscriptionFields {
    (s.domain_id, s.slug@, s.title@, s.message_char_limit, s.batch_window_seconds)
}

/// A subscription read from a row: columns 0 to 4, the two limits cut to the width
/// of their fields.
pub open spec fn subscription_from_row(row: SqlRow) -> Result<SubscriptionFields, Seq<char>> {
    match column_u64(row, 0, "domain_id"@) {
        Err(e) => Err(e),
        Ok(domain_id) => match column_text(row, 1, "slug"@) {
            Err(e) => Err(e),
            Ok(slug) => match column_text(row, 2, "title"@) {
                Err(e) => Err(e),
                Ok(title) => match column_u64(row, 3, "message_char_limit"@) {
                    Err(e) => Err(e),
                    Ok(limit) => match column_u64(row, 4, "batch_window_seconds"@) {
                        Err(e) => Err(e),
                        Ok(window) => Ok((domain_id, slug, title, limit as u16, window as u32)),
                    },
                },
            },
        },
    }
}

/// All rows read as subscriptions, or the error of the first row that fails.
pub open spec fn subscriptions_from_rows_spec(rows: Seq<SqlRow>) -> Result<
    Seq<SubscriptionFields>,
    Seq<char>,
>
    decreases rows.len(),
{
    if rows.len() == 0 {
        Ok(Seq::empty())
    } else {
        match subscriptions_from_rows_spec(rows.drop_last()) {
            Err(e) => Err(e),
            Ok(done) => match subscription_from_row(rows.last()) {
                Err(e) => Err(e),
                Ok(s) => Ok(done.push(s)),
            },
        }
    }
}

/// A list of subscriptions taken by their fields.
pub open spec fn subscriptions_view(v: Seq<TidepoolSubscriptionRow>) -> Seq<SubscriptionFields> {
    v.map_values(|s: TidepoolSubscriptionRow| subscription_fields(s))
}

fn subscription_from_row_exec(row: &SqlRow) -> (r: Result<TidepoolSubscriptionRow, String>)
    ensures
        match r {
            Ok(s) => subscription_from_row(*row) == Ok::<SubscriptionFields, Seq<char>>(
                subscription_fields(s),
            ),
            Err(e) => subscription_from_row(*row) == Err::<SubscriptionFields, Seq<char>>(e@),
        },
{
    let domain_id = match row_u64(row, 0, "domain_id") {
        Ok(v) => v,
        Err(e) => {
            return Err(e);
        },
    };
    let slug = match row_string(row, 1, "slug") {
        Ok(v) => v,
        Err(e) => {
            return Err(e);
        },
    };
    let title = match row_string(row, 2, "title") {
        Ok(v) => v,
        Err(e) => {
            return Err(e);
        },
    };
    let limit = match row_u64(row, 3, "message_char_limit") {
        Ok(v) => v,
        Err(e) => {
            return Err(e);
        },
    };
    let window = match row_u64(row, 4, "batch_window_seconds") {
        Ok(v) => v,
        Err(e) => {
            return Err(e);
        },
    };
    Ok(
        TidepoolSubscriptionRow {
            domain_id,
            slug,
            title,
            message_char_limit: limit as u16,
            batch_window_seconds: window as u32,
        },
    )
}

/// Reads the caller's subscriptions from the rows of the `my_subscriptions` view.
pub fn subscriptions_from_rows(rows: &[SqlRow]) -> (r: Result<Vec<TidepoolSubscriptionRow>, String>)
    ensures
        match r {
            Ok(v) => subscriptions_from_rows_spec(rows@) == Ok::<
                Seq<SubscriptionFields>,
                Seq<char>,
            >(subscriptions_view(v@)),
            Err(e) => subscriptions_from_rows_spec(rows@) == Err::<
                Seq<SubscriptionFields>,
                Seq<char>,
            >(e@),
        },
{
    let mut out: Vec<TidepoolSubscriptionRow> = Vec::new();
    let mut i: usize = 0;
    assert(rows@.take(0) =~= Seq::<SqlRow>::empty());
    assert(subscriptions_view(out@) =~= Seq::empty());
    while i < rows.len()
        invariant
            i <= rows@.len(),
            subscriptions_from_rows_spec(rows@.take(i as int)) == Ok::<
                Seq<SubscriptionFields>,
                Seq<char>,
            >(subscriptions_view(out@)),
        decreases rows.len() - i,
    {
        let ghost before = out@;
        proof {
            assert(rows@.take(i as int + 1).drop_last() =~= rows@.take(i as int));
            assert(rows@.take(i as int + 1).last() == rows@[i as int]);
        }
        match subscription_from_row_exec(&rows[i]) {
            Ok(s) => {
                out.push(s);
                assert(subscriptions_view(out@) =~= subscriptions_view(before).push(subscription_fields(s)));
            },
            Err(e) => {
                proof {
                    lemma_subscriptions_error_stays(rows@, i as int + 1);
                }
                return Err(e);
            },
        }
        i += 1;
    }
    assert(rows@.take(i as int) =~= rows@);
    Ok(out)
}

/// Once a prefix of the rows fails, the whole list fails with the same error.
proof fn lemma_subscriptions_error_stays(rows: Seq<SqlRow>, k: int)
    requires
        0 <= k <= rows.len(),
        subscriptions_from_rows_spec(rows.take(k)) is Err,
    ensures
        subscriptions_from_rows_spec(rows) == subscriptions_from_rows_spec(rows.take(k)),
    decreases rows.len() - k,
{
    if k < rows.len() {
        assert(rows.take(k + 1).drop_last() =~= rows.take(k));
        lemma_subscriptions_error_stays(rows, k + 1);
    } else {
        assert(rows.take(k) =~= rows);
    }
}

/// A message row's fields: id, domain, sequence, author and body.
pub type MessageFields = (u64, u64, u64, u64, Seq<char>);

/// The fields of a message row.
pub open spec fn message_fields(m: TidepoolMessageRow) -> MessageFields {
    (m.message_id, m.domain_id, m.domain_sequence, m.author_account_id, m.body@)
}

/// A message read from a row: columns 0 to 4.
pub open spec fn message_from_row(row: SqlRow) -> Result<MessageFields, Seq<char>> {
    match column_u64(row, 0, "message_id"@) {
        Err(e) => Err(e),
        Ok(message_id) => match column_u64(row, 1, "domain_id"@) {
            Err(e) => Err(e),
            Ok(domain_id) => match column_u64(row, 2, "domain_sequence"@) {
                Err(e) => Err(e),
                Ok(sequence) => match column_u64(row, 3, "author_account_id"@) {
                    Err(e) => Err(e),
                    Ok(author) => match column_text(row, 4, "body"@) {
                        Err(e) => Err(e),
                        Ok(body) => Ok((message_id, domain_id, sequence, author, body)),
                    },
                },
            },
        },
    }
}

/// All rows read as messages, or the error of the first row that fails.
pub open spec fn messages_from_rows_spec(rows: Seq<SqlRow>) -> Result<Seq<MessageFields>, Seq<char>>
    decreases rows.len(),
{
    if rows.len() == 0 {
        Ok(Seq::empty())
    } else {
        match messages_from_rows_spec(rows.drop_last()) {
            Err(e) => Err(e),
            Ok(done) => match message_from_row(rows.last()) {
                Err(e) => Err(e),
                Ok(m) => Ok(done.push(m)),
            },
        }
    }
}

/// A list of messages taken by their fields.
pub open spec fn messages_view(v: Seq<TidepoolMessageRow>) -> Seq<MessageFields> {
    v.map_values(|m: TidepoolMessageRow| message_fields(m))
}

fn message_from_row_exec(row: &SqlRow) -> (r: Result<TidepoolMessageRow, String>)
    ensures
        match r {
            Ok(m) => message_from_row(*row) == Ok::<MessageFields, Seq<char>>(message_fields(m)),
            Err(e) => message_from_row(*row) == Err::<MessageFields, Seq<char>>(e@),
        },
{
    let message_id = match row_u64(row, 0, "message_id") {
        Ok(v) => v,
        Err(e) => {
            return Err(e);
        },
    };
    let domain_id = match row_u64(row, 1, "domain_id") {
        Ok(v) => v,
        Err(e) => {
            return Err(e);
        },
    };
    let domain_sequence = match row_u64(row, 2, "domain_sequence") {
        Ok(v) => v,
        Err(e) => {
            return Err(e);
        },
    };
    let author_account_id = match row_u64(row, 3, "author_account_id") {
        Ok(v) => v,
        Err(e) => {
            return Err(e);
        },
    };
    let body = match row_string(row, 4, "body") {
        Ok(v) => v,
        Err(e) => {
            return Err(e);
        },
    };
    Ok(TidepoolMessageRow { message_id, domain_id, domain_sequence, author_account_id, body })
}

/// Reads the messages of the caller's subscribed domains from the rows of the
/// `my_subscribed_messages` view.
pub fn messages_from_rows(rows: &[SqlRow]) -> (r: Result<Vec<TidepoolMessageRow>, String>)
    ensures
        match r {
            Ok(v) => messages_from_rows_spec(rows@) == Ok::<Seq<MessageFields>, Seq<char>>(
                messages_view(v@),
            ),
            Err(e) => messages_from_rows_spec(rows@) == Err::<Seq<MessageFields>, Seq<char>>(e@),
        },
{
    let mut out: Vec<TidepoolMessageRow> = Vec::new();
    let mut i: usize = 0;
    assert(rows@.take(0) =~= Seq::<SqlRow>::empty());
    assert(messages_view(out@) =~= Seq::empty());
    while i < rows.len()
        invariant
            i <= rows@.len(),
            messages_from_rows_spec(rows@.take(i as int)) == Ok::<Seq<MessageFields>, Seq<char>>(
                messages_view(out@),
            ),
        decreases rows.len() - i,
    {
        let ghost before = out@;
        proof {
            assert(rows@.take(i as int + 1).drop_last() =~= rows@.take(i as int));
            assert(rows@.take(i as int + 1).last() == rows@[i as int]);
        }
        match message_from_row_exec(&rows[i]) {
            Ok(m) => {
                out.push(m);
                assert(messages_view(out@) =~= messages_view(before).push(message_fields(m)));
            },
            Err(e) => {
                proof {
                    lemma_messages_error_stays(rows@, i as int + 1);
                }
                return Err(e);
            },
        }
        i += 1;
    }
    assert(rows@.take(i as int) =~= rows@);
    Ok(out)
}

/// Once a prefix of the rows fails, the whole list fails with the same error.
proof fn lemma_messages_error_stays(rows: Seq<SqlRow>, k: int)
    requires
        0 <= k <= rows.len(),
        messages_from_rows_spec(rows.take(k)) is Err,
    ensures
        messages_from_rows_spec(rows) == messages_from_rows_spec(rows.take(k)),
    decreases rows.len() - k,
{
    if k < rows.len() {
        assert(rows.take(k + 1).drop_last() =~= rows.take(k));
        lemma_messages_error_stays(rows, k + 1);
    } else {
        assert(rows.take(k) =~= rows);
    }
}

/// How the channel presents itself to the host.
#[derive(Debug)]
pub struct ChannelSettings {
    pub display_name: String,
    pub poll_interval_ms: u32,
}

/// The channel's name, `Tidepool (database)`, and its poll interval, never below
/// the minimum.
pub fn channel_settings(config: &TidepoolChannelConfig) -> (r: ChannelSettings)
    ensures
        r.display_name@ == "Tidepool ("@ + config.database@ + ")"@,
        r.poll_interval_ms == if config.poll_interval_ms < MIN_POLL_INTERVAL_MS {
            MIN_POLL_INTERVAL_MS
        } else {
            config.poll_interval_ms
        },
{
    let mut display_name = owned("Tidepool (");
    display_name.append(config.database.as_str());
    display_name.append(")");
    let poll_interval_ms = if config.poll_interval_ms < MIN_POLL_INTERVAL_MS {
        MIN_POLL_INTERVAL_MS
    } else {
        config.poll_interval_ms
    };
    ChannelSettings { display_name, poll_interval_ms }
}

/// The error text for a request body that is too long.
pub open spec fn body_too_large_text() -> Seq<char> {
    "HTTP request body exceeds "@ + decimal(MAX_HTTP_BODY_LEN as nat) + " bytes"@
}

/// Checks that the body of a request is at most `MAX_HTTP_BODY_LEN` bytes long.
pub fn validate_request_body(body: &str) -> (r: Result<(), String>)
    ensures
        utf8_len(body@) > MAX_HTTP_BODY_LEN ==> (r matches Err(e) && e@ == body_too_large_text()),
        utf8_len(body@) <= MAX_HTTP_BODY_LEN ==> r is Ok,
{
    if utf8_len_exceeds(body, MAX_HTTP_BODY_LEN) {
        let mut e = owned("HTTP request body exceeds ");
        push_decimal(&mut e, MAX_HTTP_BODY_LEN as u64);
        e.append(" bytes");
        return Err(e);
    }
    Ok(())
}

/// The call that posts the agent's reply back into a domain.
#[derive(Debug)]
pub struct ReplyRequest {
    pub url: String,
    pub domain_id: u64,
    pub body: String,
    pub reply_to_message_id: Option<u64>,
}

/// What to post for an agent's reply: nothing when the reply, fitted to the
/// domain's character limit, is empty; otherwise a `post_message` call into the
/// domain the batch came from, replying to the batch's last message.
pub fn plan_reply(metadata: &TidepoolReplyMetadata, content: &str) -> (r: Option<ReplyRequest>)
    ensures
        ({
            let body = clamped_body(content@, metadata.message_char_limit as nat);
            &&& r is None <==> body.len() == 0
            &&& r matches Some(q) ==> {
                &&& q.url@ == call_url_text(
                    metadata.base_url@,
                    metadata.database@,
                    "post_message"@,
                )
                &&& q.domain_id == metadata.domain_id
                &&& q.body@ == body
                &&& q.reply_to_message_id == metadata.reply_to_message_id
            }
        }),
{
    let body = clamp_message_body(content, metadata.message_char_limit as usize);
    if body.as_str().is_empty() {
        return None;
    }
    let url = call_url(metadata.base_url.as_str(), metadata.database.as_str(), "post_message");
    Some(
        ReplyRequest {
            url,
            domain_id: metadata.domain_id,
            body,
            reply_to_message_id: metadata.reply_to_message_id,
        },
    )
}

} // verus!
