use vstd::prelude::*;

use crate::text::{decimal, has_prefix, trim_end_char};
use crate::tool::{
    action_planned, messages_sql, resolved_base_url, TidepoolAction, ToolRequest, DEFAULT_MESSAGE_LIMIT,
};

verus! {

/// The end of a message query that asks for `n` messages in sequence order.
pub open spec fn limit_tail(n: nat) -> Seq<char> {
    " ORDER BY domain_sequence ASC LIMIT "@ + decimal(n)
}

/// `s` ends with `tail`.
pub open spec fn ends_with(s: Seq<char>, tail: Seq<char>) -> bool {
    tail.len() <= s.len() && s.skip(s.len() - tail.len()) == tail
}

/// A message query asks for at most `limit` messages and never more than the default
/// limit, in sequence order; given a sequence number, it asks only for later messages.
pub proof fn law_messages_sql_limit(domain_id: u64, after_sequence: Option<u64>, limit: u32)
    ensures
        ({
            let n: nat = if limit < DEFAULT_MESSAGE_LIMIT {
                limit as nat
            } else {
                DEFAULT_MESSAGE_LIMIT as nat
            };
            let sql = messages_sql(domain_id, after_sequence, limit);
            &&& ends_with(sql, limit_tail(n))
            &&& after_sequence matches Some(a) ==> ends_with(
                sql,
                " AND domain_sequence > "@ + decimal(a as nat) + limit_tail(n),
            )
        }),
{
    let n: nat = if limit < DEFAULT_MESSAGE_LIMIT {
        limit as nat
    } else {
        DEFAULT_MESSAGE_LIMIT as nat
    };
    let head = "SELECT message_id, domain_id, domain_sequence, author_account_id, body, created_at, reply_to_message_id FROM message WHERE domain_id = "@
        + decimal(domain_id as nat);
    let tail = limit_tail(n);
    match after_sequence {
        Some(a) => {
            let mid = " AND domain_sequence > "@ + decimal(a as nat);
            let sql = messages_sql(domain_id, after_sequence, limit);
            assert(sql =~= head + (mid + tail));
            assert(sql.skip(sql.len() - tail.len()) =~= tail);
            assert(sql.skip(sql.len() - (mid + tail).len()) =~= mid + tail);
        },
        None => {
            let sql = messages_sql(domain_id, after_sequence, limit);
            assert(sql =~= head + tail);
            assert(sql.skip(sql.len() - tail.len()) =~= tail);
        },
    }
}

/// Reading a domain's messages through the tool asks for the caller's limit, capped at
/// the default; only a missing limit asks for the default itself.
pub proof fn law_get_domain_messages_limit(
    database: String,
    domain_id: u64,
    after_sequence: Option<u64>,
    limit: Option<u32>,
    base_url: Option<String>,
    r: Result<ToolRequest, String>,
)
    requires
        action_planned(
            TidepoolAction::GetDomainMessages {
                database,
                domain_id,
                after_sequence,
                limit,
                base_url,
            },
            r,
        ),
    ensures
        match r {
            Ok(ToolRequest::Query { sql, .. }) => ends_with(
                sql@,
                limit_tail(
                    match limit {
                        Some(l) => if l < DEFAULT_MESSAGE_LIMIT {
                            l as nat
                        } else {
                            DEFAULT_MESSAGE_LIMIT as nat
                        },
                        None => DEFAULT_MESSAGE_LIMIT as nat,
                    },
                ),
            ),
            _ => true,
        },
{
    let l = match limit {
        Some(l) => l,
        None => DEFAULT_MESSAGE_LIMIT,
    };
    law_messages_sql_limit(domain_id, after_sequence, l);
}

/// Removing trailing copies of a character keeps a prefix, drops only that character,
/// and leaves a text that does not end with it.
pub proof fn lemma_trim_end_char(u: Seq<char>, c: char)
    ensures
        ({
            let b = trim_end_char(u, c);
            &&& b.len() <= u.len()
            &&& b == u.take(b.len() as int)
            &&& forall|k: int| b.len() <= k < u.len() ==> #[trigger] u[k] == c
            &&& b.len() == 0 || b.last() != c
        }),
    decreases u.len(),
{
    if u.len() > 0 && u.last() == c {
        lemma_trim_end_char(u.drop_last(), c);
        let b = trim_end_char(u, c);
        assert(u.drop_last().take(b.len() as int) =~= u.take(b.len() as int));
        assert forall|k: int| b.len() <= k < u.len() implies #[trigger] u[k] == c by {
            if k < u.len() - 1 {
                assert(u.drop_last()[k] == u[k]);
            }
        }
    } else {
        assert(u.take(u.len() as int) =~= u);
    }
}

/// The base URL a tool request goes to is the one given (or the public host when none
/// is), an HTTP or HTTPS URL, with its trailing slashes, and only those, removed.
pub proof fn law_base_url_loses_only_trailing_slashes(base_url: Option<Seq<char>>)
    ensures
        match resolved_base_url(base_url) {
            Ok(b) => {
                let u = match base_url {
                    Some(x) => x,
                    None => "https://spacetimedb.com"@,
                };
                &&& has_prefix(u, "http://"@) || has_prefix(u, "https://"@)
                &&& b.len() <= u.len()
                &&& b == u.take(b.len() as int)
                &&& forall|k: int| b.len() <= k < u.len() ==> #[trigger] u[k] == '/'
                &&& b.len() == 0 || b.last() != '/'
            },
            Err(_) => true,
        },
{
    let u = match base_url {
        Some(x) => x,
        None => "https://spacetimedb.com"@,
    };
    lemma_trim_end_char(u, '/');
}

} // verus!
