use vstd::prelude::*;

use crate::channel::{default_base_url, default_base_url_text, is_http_url};
use crate::model::DEFAULT_MESSAGE_CHAR_LIMIT;
use crate::text::{
    decimal, owned, push_decimal, same_text, starts_with_text, trim_end_char, trimmed_end_char,
    utf8_len, utf8_len_exceeds,
};
use crate::validation::check_matches;

verus! {

broadcast use vstd::string::group_string_axioms;

/// Messages one read of a domain returns when the caller names no limit, and at most.
pub const DEFAULT_MESSAGE_LIMIT: u32 = 100;

/// Longest text input the tool accepts, in UTF-8 bytes.
pub const MAX_TEXT_LENGTH: usize = 65536;

/// Why a base URL is refused, if it is.
pub open spec fn base_url_error(base_url: Seq<char>) -> Option<Seq<char>> {
    if base_url.len() == 0 {
        Some("base_url cannot be empty"@)
    } else if !is_http_url(base_url) {
        Some("base_url must start with http:// or https://"@)
    } else {
        None
    }
}

/// Checks that a base URL is a non-empty HTTP or HTTPS URL.
pub fn validate_base_url(base_url: &str) -> (r: Result<(), String>)
    ensures
        check_matches(r, base_url_error(base_url@)),
{
    if base_url.is_empty() {
        return Err(owned("base_url cannot be empty"));
    }
    if !(starts_with_text(base_url, "https://") || starts_with_text(base_url, "http://")) {
        return Err(owned("base_url must start with http:// or https://"));
    }
    Ok(())
}

/// The base URL a request goes to: the one given, or the public host; checked, and
/// without trailing slashes.
pub open spec fn resolved_base_url(base_url: Option<Seq<char>>) -> Result<Seq<char>, Seq<char>> {
    let b = match base_url {
        Some(s) => s,
        None => default_base_url_text(),
    };
    match base_url_error(b) {
        Some(e) => Err(e),
        None => Ok(trim_end_char(b, '/')),
    }
}

/// An optional text taken by its view.
pub open spec fn opt_text(s: Option<String>) -> Option<Seq<char>> {
    match s {
        Some(t) => Some(t@),
        None => None,
    }
}

/// A text result taken by its view.
pub open spec fn string_result(r: Result<String, String>) -> Result<Seq<char>, Seq<char>> {
    match r {
        Ok(s) => Ok(s@),
        Err(e) => Err(e@),
    }
}

/// Resolves the base URL of a request.
pub fn resolve_base_url(base_url: Option<String>) -> (r: Result<String, String>)
    ensures
        string_result(r) == resolved_base_url(opt_text(base_url)),
{
    let base_url = match base_url {
        Some(s) => s,
        None => default_base_url(),
    };
    match validate_base_url(base_url.as_str()) {
        Ok(()) => {},
        Err(e) => {
            return Err(e);
        },
    }
    Ok(owned(trimmed_end_char(base_url.as_str(), '/')))
}

/// The stored name of a domain kind, for the spellings the tool accepts.
pub open spec fn domain_kind_name(kind: Seq<char>) -> Option<Seq<char>> {
    if kind == "public"@ || kind == "Public"@ {
        Some("Public"@)
    } else if kind == "private"@ || kind == "Private"@ {
        Some("Private"@)
    } else if kind == "dm"@ || kind == "Dm"@ || kind == "DM"@ {
        Some("Dm"@)
    } else {
        None
    }
}

/// Maps the accepted spellings of a domain kind to its stored name.
pub fn normalize_domain_kind(kind: &str) -> (r: Result<&'static str, String>)
    ensures
        match domain_kind_name(kind@) {
            Some(n) => r matches Ok(k) && k@ == n,
            None => r matches Err(e) && e@ == "kind must be one of: public, private, dm"@,
        },
{
    if same_text(kind, "public") || same_text(kind, "Public") {
        Ok("Public")
    } else if same_text(kind, "private") || same_text(kind, "Private") {
        Ok("Private")
    } else if same_text(kind, "dm") || same_text(kind, "Dm") || same_text(kind, "DM") {
        Ok("Dm")
    } else {
        Err(owned("kind must be one of: public, private, dm"))
    }
}

/// The query that reads a domain's messages in sequence order: after a sequence
/// number when one is given, at most `limit` of them and never more than the
/// default limit.
pub open spec fn messages_sql(domain_id: u64, after_sequence: Option<u64>, limit: u32) -> Seq<
    char,
> {
    let n: nat = if limit < DEFAULT_MESSAGE_LIMIT {
        limit as nat
    } else {
        DEFAULT_MESSAGE_LIMIT as nat
    };
    match after_sequence {
        Some(after) => "SELECT message_id, domain_id, domain_sequence, author_account_id, body, created_at, reply_to_message_id FROM message WHERE domain_id = "@
            + decimal(domain_id as nat) + " AND domain_sequence > "@ + decimal(after as nat)
            + " ORDER BY domain_sequence ASC LIMIT "@ + decimal(n),
        None => "SELECT message_id, domain_id, domain_sequence, author_account_id, body, created_at, reply_to_message_id FROM message WHERE domain_id = "@
            + decimal(domain_id as nat) + " ORDER BY domain_sequence ASC LIMIT "@ + decimal(n),
    }
}

/// Builds the query that reads a domain's messages.
pub fn build_messages_sql(domain_id: u64, after_sequence: Option<u64>, limit: u32) -> (r: String)
    ensures
        r@ == messages_sql(domain_id, after_sequence, limit),
{
    let limit = if limit < DEFAULT_MESSAGE_LIMIT {
        limit
    } else {
        DEFAULT_MESSAGE_LIMIT
    };
    let mut sql = owned(
        "SELECT message_id, domain_id, domain_sequence, author_account_id, body, created_at, reply_to_message_id FROM message WHERE domain_id = ",
    );
    push_decimal(&mut sql, domain_id);
    match after_sequence {
        Some(after) => {
            sql.append(" AND domain_sequence > ");
            push_decimal(&mut sql, after);
            sql.append(" ORDER BY domain_sequence ASC LIMIT ");
            push_decimal(&mut sql, limit as u64);
        },
        None => {
            sql.append(" ORDER BY domain_sequence ASC LIMIT ");
            push_decimal(&mut sql, limit as u64);
        },
    }
    sql
}

/// The error text for an input that is too long.
pub open spec fn input_too_long_text(field_name: Seq<char>) -> Seq<char> {
    "Input '"@ + field_name + "' exceeds maximum length of "@ + decimal(MAX_TEXT_LENGTH as nat)
        + " characters"@
}

/// Checks that a text input is at most `MAX_TEXT_LENGTH` bytes long.
pub fn validate_input_length(value: &str, field_name: &str) -> (r: Result<(), String>)
    ensures
        utf8_len(value@) > MAX_TEXT_LENGTH ==> (r matches Err(e) && e@ == input_too_long_text(
            field_name@,
        )),
        utf8_len(value@) <= MAX_TEXT_LENGTH ==> r is Ok,
{
    if utf8_len_exceeds(value, MAX_TEXT_LENGTH) {
        let mut e = owned("Input '");
        e.append(field_name);
        e.append("' exceeds maximum length of ");
        push_decimal(&mut e, MAX_TEXT_LENGTH as u64);
        e.append(" characters");
        return Err(e);
    }
    Ok(())
}

/// The URL of a database's SQL endpoint.
pub open spec fn sql_url_text(base_url: Seq<char>, database: Seq<char>) -> Seq<char> {
    base_url + "/v1/database/"@ + database + "/sql"@
}

/// The URL that calls a reducer of a database.
pub open spec fn call_url_text(base_url: Seq<char>, database: Seq<char>, reducer: Seq<char>) -> Seq<
    char,
> {
    base_url + "/v1/database/"@ + database + "/call/"@ + reducer
}

/// Builds the URL of a database's SQL endpoint.
pub fn sql_url(base_url: &str, database: &str) -> (r: String)
    ensures
        r@ == sql_url_text(base_url@, database@),
{
    let mut url = owned(base_url);
    url.append("/v1/database/");
    url.append(database);
    url.append("/sql");
    url
}

/// Builds the URL that calls a reducer of a database.
pub fn call_url(base_url: &str, database: &str, reducer: &str) -> (r: String)
    ensures
        r@ == call_url_text(base_url@, database@, reducer@),
{
    let mut url = owned(base_url);
    url.append("/v1/database/");
    url.append(database);
    url.append("/call/");
    url.append(reducer);
    url
}

/// An HTTP status in the success range, 200 to 299.
pub open spec fn is_success(status: u16) -> bool {
    200 <= status < 300
}

/// The error text for an answer outside the success range.
pub open spec fn status_error_text(what: Seq<char>, status: u16, body: Seq<char>) -> Seq<char> {
    what + " failed with status "@ + decimal(status as nat) + ": "@ + body
}

/// Accepts an HTTP answer in the success range and refuses any other, naming what
/// failed, the status and the answer's body.
pub fn check_status(what: &str, status: u16, body: &str) -> (r: Result<(), String>)
    ensures
        is_success(status) ==> r is Ok,
        !is_success(status) ==> (r matches Err(e) && e@ == status_error_text(what@, status, body@)),
{
    if 200 <= status && status < 300 {
        return Ok(());
    }
    let mut e = owned(what);
    e.append(" failed with status ");
    push_decimal(&mut e, status as u64);
    e.append(": ");
    e.append(body);
    Err(e)
}

/// What the tool is asked to do.
#[derive(Debug)]
pub enum TidepoolAction {
    Sql { database: String, sql: String, base_url: Option<String> },
    CreateAccount { database: String, handle: String, base_url: Option<String> },
    CreateDomain {
        database: String,
        kind: String,
        slug: String,
        title: String,
        message_char_limit: Option<u16>,
        base_url: Option<String>,
    },
    CreateDm {
        database: String,
        recipient_account_ids: Vec<u64>,
        title: String,
        base_url: Option<String>,
    },
    CreateDmWithDomainId {
        database: String,
        domain_id: u64,
        recipient_account_ids: Vec<u64>,
        title: String,
        base_url: Option<String>,
    },
    PostMessage {
        database: String,
        domain_id: u64,
        body: String,
        reply_to_message_id: Option<u64>,
        base_url: Option<String>,
    },
    MyDmDomains { database: String, base_url: Option<String> },
    GetDomainMessages {
        database: String,
        domain_id: u64,
        after_sequence: Option<u64>,
        limit: Option<u32>,
        base_url: Option<String>,
    },
}

/// The arguments of a reducer call, in the reducer's order.
#[derive(Debug)]
pub enum ReducerArgs {
    CreateAccount { handle: String },
    CreateDomain { kind: &'static str, slug: String, title: String, message_char_limit: u16 },
    CreateDm { recipient_account_ids: Vec<u64>, title: String },
    CreateDmWithDomainId { domain_id: u64, recipient_account_ids: Vec<u64>, title: String },
    PostMessage { domain_id: u64, body: String, reply_to_message_id: Option<u64> },
}

/// The HTTP request that carries out an action.
#[derive(Debug)]
pub enum ToolRequest {
    /// Post `sql` to `url`; the answer becomes the output's data.
    Query { action: &'static str, url: String, sql: String },
    /// Post `args` to `url`; on success the output's data names the database and,
    /// when `domain_id` is given, the domain.
    Call {
        action: &'static str,
        url: String,
        args: ReducerArgs,
        database: String,
        domain_id: Option<u64>,
    },
}

/// The query that lists the caller's DM domains.
pub open spec fn my_dm_domains_sql() -> Seq<char> {
    "SELECT domain_id, title, participant_account_ids FROM my_dm_domains ORDER BY domain_id"@
}

/// `r` is what a query action plans: the base URL resolved, the query checked for
/// length, then a query posted to the database's SQL endpoint.
pub open spec fn query_planned(
    r: Result<ToolRequest, String>,
    name: Seq<char>,
    base_url: Option<Seq<char>>,
    database: Seq<char>,
    sql: Seq<char>,
) -> bool {
    match resolved_base_url(base_url) {
        Err(e) => r matches Err(m) && m@ == e,
        Ok(b) => if utf8_len(sql) > MAX_TEXT_LENGTH {
            r matches Err(m) && m@ == input_too_long_text("sql"@)
        } else {
            r matches Ok(ToolRequest::Query { action, url, sql: q }) && action@ == name && url@
                == sql_url_text(b, database) && q@ == sql
        },
    }
}

/// `r` is what a reducer action plans: the base URL resolved, then a call of the
/// reducer named like the action with arguments that `args_ok` accepts.
pub open spec fn call_planned(
    r: Result<ToolRequest, String>,
    name: Seq<char>,
    base_url: Option<Seq<char>>,
    database: Seq<char>,
    domain_id: Option<u64>,
    args_ok: spec_fn(ReducerArgs) -> bool,
) -> bool {
    match resolved_base_url(base_url) {
        Err(e) => r matches Err(m) && m@ == e,
        Ok(b) => r matches Ok(ToolRequest::Call { action, url, args, database: d, domain_id: id })
            && action@ == name && url@ == call_url_text(b, database, name) && args_ok(args) && d@
            == database && id == domain_id,
    }
}

/// `r` is the request, or the error, that an action leads to.
pub open spec fn action_planned(action: TidepoolAction, r: Result<ToolRequest, String>) -> bool {
    match action {
        TidepoolAction::Sql { database, sql, base_url } => query_planned(
            r,
            "sql"@,
            opt_text(base_url),
            database@,
            sql@,
        ),
        TidepoolAction::CreateAccount { database, handle, base_url } => call_planned(
            r,
            "create_account"@,
            opt_text(base_url),
            database@,
            None,
            |a: ReducerArgs| a matches ReducerArgs::CreateAccount { handle: h } && h@ == handle@,
        ),
        TidepoolAction::CreateDomain {
            database,
            kind,
            slug,
            title,
            message_char_limit,
            base_url,
        } => match domain_kind_name(kind@) {
            None => r matches Err(m) && m@ == "kind must be one of: public, private, dm"@,
            Some(k) => call_planned(
                r,
                "create_domain"@,
                opt_text(base_url),
                database@,
                None,
                |a: ReducerArgs|
                    a matches ReducerArgs::CreateDomain {
                        kind: k2,
                        slug: s2,
                        title: t2,
                        message_char_limit: l,
                    } && k2@ == k && s2@ == slug@ && t2@ == title@ && l == match message_char_limit {
                        Some(v) => v,
                        None => DEFAULT_MESSAGE_CHAR_LIMIT,
                    },
            ),
        },
        TidepoolAction::CreateDm { database, recipient_account_ids, title, base_url } =>
            call_planned(
            r,
            "create_dm"@,
            opt_text(base_url),
            database@,
            None,
            |a: ReducerArgs|
                a matches ReducerArgs::CreateDm { recipient_account_ids: ids, title: t2 } && ids@
                    == recipient_account_ids@ && t2@ == title@,
        ),
        TidepoolAction::CreateDmWithDomainId {
            database,
            domain_id,
            recipient_account_ids,
            title,
            base_url,
        } => call_planned(
            r,
            "create_dm_with_domain_id"@,
            opt_text(base_url),
            database@,
            Some(domain_id),
            |a: ReducerArgs|
                a matches ReducerArgs::CreateDmWithDomainId {
                    domain_id: d2,
                    recipient_account_ids: ids,
                    title: t2,
                } && d2 == domain_id && ids@ == recipient_account_ids@ && t2@ == title@,
        ),
        TidepoolAction::PostMessage { database, domain_id, body, reply_to_message_id, base_url } =>
            call_planned(
            r,
            "post_message"@,
            opt_text(base_url),
            database@,
            Some(domain_id),
            |a: ReducerArgs|
                a matches ReducerArgs::PostMessage {
                    domain_id: d2,
                    body: b2,
                    reply_to_message_id: reply,
                } && d2 == domain_id && b2@ == body@ && reply == reply_to_message_id,
        ),
        TidepoolAction::MyDmDomains { database, base_url } => query_planned(
            r,
            "my_dm_domains"@,
            opt_text(base_url),
            database@,
            my_dm_domains_sql(),
        ),
        TidepoolAction::GetDomainMessages {
            database,
            domain_id,
            after_sequence,
            limit,
            base_url,
        } => query_planned(
            r,
            "get_domain_messages"@,
            opt_text(base_url),
            database@,
            messages_sql(
                domain_id,
                after_sequence,
                match limit {
                    Some(l) => l,
                    None => DEFAULT_MESSAGE_LIMIT,
                },
            ),
        ),
    }
}

fn plan_query(name: &'static str, base_url: Option<String>, database: String, sql: String) -> (r:
    Result<ToolRequest, String>)
    ensures
        query_planned(r, name@, opt_text(base_url), database@, sql@),
{
    let base = match resolve_base_url(base_url) {
        Ok(b) => b,
        Err(e) => {
            return Err(e);
        },
    };
    match validate_input_length(sql.as_str(), "sql") {
        Ok(()) => {},
        Err(e) => {
            return Err(e);
        },
    }
    let url = sql_url(base.as_str(), database.as_str());
    Ok(ToolRequest::Query { action: name, url, sql })
}

fn plan_call(
    name: &'static str,
    base_url: Option<String>,
    database: String,
    domain_id: Option<u64>,
    args: ReducerArgs,
) -> (r: Result<ToolRequest, String>)
    ensures
        forall|args_ok: spec_fn(ReducerArgs) -> bool|
            #![auto]
            args_ok(args) ==> call_planned(
                r,
                name@,
                opt_text(base_url),
                database@,
                domain_id,
                args_ok,
            ),
{
    let base = match resolve_base_url(base_url) {
        Ok(b) => b,
        Err(e) => {
            return Err(e);
        },
    };
    let url = call_url(base.as_str(), database.as_str(), name);
    Ok(ToolRequest::Call { action: name, url, args, database, domain_id })
}

/// Turns an action into the request that carries it out, or the error that stops it:
/// the domain kind is checked first, then the base URL, then the query's length.
pub fn plan_action(action: TidepoolAction) -> (r: Result<ToolRequest, String>)
    ensures
        action_planned(action, r),
{
    match action {
        TidepoolAction::Sql { database, sql, base_url } => plan_query(
            "sql",
            base_url,
            database,
            sql,
        ),
        TidepoolAction::CreateAccount { database, handle, base_url } => plan_call(
            "create_account",
            base_url,
            database,
            None,
            ReducerArgs::CreateAccount { handle },
        ),
        TidepoolAction::CreateDomain {
            database,
            kind,
            slug,
            title,
            message_char_limit,
            base_url,
        } => {
            let kind = match normalize_domain_kind(kind.as_str()) {
                Ok(k) => k,
                Err(e) => {
                    return Err(e);
                },
            };
            let limit = match message_char_limit {
                Some(v) => v,
                None => DEFAULT_MESSAGE_CHAR_LIMIT,
            };
            plan_call(
                "create_domain",
                base_url,
                database,
                None,
                ReducerArgs::CreateDomain { kind, slug, title, message_char_limit: limit },
            )
        },
        TidepoolAction::CreateDm { database, recipient_account_ids, title, base_url } => plan_call(
            "create_dm",
            base_url,
            database,
            None,
            ReducerArgs::CreateDm { recipient_account_ids, title },
        ),
        TidepoolAction::CreateDmWithDomainId {
            database,
            domain_id,
            recipient_account_ids,
            title,
            base_url,
        } => plan_call(
            "create_dm_with_domain_id",
            base_url,
            database,
            Some(domain_id),
            ReducerArgs::CreateDmWithDomainId { domain_id, recipient_account_ids, title },
        ),
        TidepoolAction::PostMessage { database, domain_id, body, reply_to_message_id, base_url } =>
            plan_call(
            "post_message",
            base_url,
            database,
            Some(domain_id),
            ReducerArgs::PostMessage { domain_id, body, reply_to_message_id },
        ),
        TidepoolAction::MyDmDomains { database, base_url } => plan_query(
            "my_dm_domains",
            base_url,
            database,
            owned(
                "SELECT domain_id, title, participant_account_ids FROM my_dm_domains ORDER BY domain_id",
            ),
        ),
        TidepoolAction::GetDomainMessages {
            database,
            domain_id,
            after_sequence,
            limit,
            base_url,
        } => {
            let limit = match limit {
                Some(l) => l,
                None => DEFAULT_MESSAGE_LIMIT,
            };
            let sql = build_messages_sql(domain_id, after_sequence, limit);
            plan_query("get_domain_messages", base_url, database, sql)
        },
    }
}

} // verus!
