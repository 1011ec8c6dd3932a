use vstd::prelude::*;

verus! {

/// Default character limit of a domain's messages, also the limit of every DM.
pub const DEFAULT_MESSAGE_CHAR_LIMIT: u16 = 280;

/// Smallest message character limit a domain may declare.
pub const MIN_MESSAGE_CHAR_LIMIT: u16 = 32;

/// Largest message character limit a domain may declare.
pub const MAX_MESSAGE_CHAR_LIMIT: u16 = 1024;

/// Batch window given to a subscription that asks for none.
pub const DEFAULT_BATCH_WINDOW_SECONDS: u32 = 30;

/// Largest batch window a subscription may ask for.
pub const MAX_BATCH_WINDOW_SECONDS: u32 = 3600;

/// Longest handle, in UTF-8 bytes.
pub const MAX_HANDLE_LEN: usize = 32;

/// Longest slug, in UTF-8 bytes.
pub const MAX_SLUG_LEN: usize = 64;

/// Longest title, in UTF-8 bytes.
pub const MAX_TITLE_LEN: usize = 80;

/// Length of the window over which named domain claims are counted.
pub const DOMAIN_CLAIM_WINDOW_SECS: i64 = 86400;

/// Named domains an account may create within one claim window.
pub const MAX_NAMED_DOMAIN_CLAIMS_PER_WINDOW: usize = 3;

/// An authenticated caller identity (a 256-bit value).
#[derive(Clone, Copy, Debug, PartialEq, Eq, Hash, Structural)]
pub struct Identity {
    pub high: u128,
    pub low: u128,
}

impl Identity {
    /// Builds an identity from its two 128-bit halves.
    pub fn from_parts(high: u128, low: u128) -> (r: Identity)
        ensures
            r.high == high,
            r.low == low,
    {
        Identity { high, low }
    }
}

/// A point in time, in microseconds since the Unix epoch.
#[derive(Clone, Copy, Debug, PartialEq, Eq, Hash, Structural)]
pub struct Timestamp {
    pub micros_since_unix_epoch: i64,
}

impl Timestamp {
    /// Builds a timestamp from microseconds since the Unix epoch.
    pub fn from_micros_since_unix_epoch(micros: i64) -> (r: Timestamp)
        ensures
            r.micros_since_unix_epoch == micros,
    {
        Timestamp { micros_since_unix_epoch: micros }
    }

    /// Microseconds since the Unix epoch.
    pub fn to_micros_since_unix_epoch(&self) -> (r: i64)
        ensures
            r == self.micros_since_unix_epoch,
    {
        self.micros_since_unix_epoch
    }
}

/// Whether an account may act.
#[derive(Clone, Copy, Debug, PartialEq, Eq, Structural)]
pub enum AccountStatus {
    Active,
    Suspended,
}

/// The kind of a coordination domain.
#[derive(Clone, Copy, Debug, PartialEq, Eq, Structural)]
pub enum DomainKind {
    Public,
    Private,
    Dm,
}

/// The role of a member within a domain.
#[derive(Clone, Copy, Debug, PartialEq, Eq, Structural)]
pub enum DomainRole {
    Owner,
    Member,
}

/// A row of the account table.
#[derive(Debug)]
pub struct Account {
    pub account_id: u64,
    pub handle: String,
    pub created_at: Timestamp,
    pub status: AccountStatus,
}

/// A row of the account key table: a key identity bound to an account.
#[derive(Clone, Copy, Debug)]
pub struct AccountKey {
    pub key_identity: Identity,
    pub account_id: u64,
    pub added_by_identity: Identity,
    pub created_at: Timestamp,
    pub revoked_at: Option<Timestamp>,
}

/// A row of the domain table.
#[derive(Debug)]
pub struct Domain {
    pub domain_id: u64,
    pub kind: DomainKind,
    pub slug: String,
    pub title: String,
    pub created_by_account_id: u64,
    pub created_at: Timestamp,
    pub message_char_limit: u16,
}

/// A row of the domain membership table.
#[derive(Clone, Copy, Debug)]
pub struct DomainMember {
    pub membership_id: u64,
    pub domain_id: u64,
    pub account_id: u64,
    pub role: DomainRole,
    pub joined_at: Timestamp,
}

/// A row of the message table.
#[derive(Debug)]
pub struct Message {
    pub message_id: u64,
    pub domain_id: u64,
    pub domain_sequence: u64,
    pub author_account_id: u64,
    pub authenticated_key_identity: Identity,
    pub body: String,
    pub created_at: Timestamp,
    pub reply_to_message_id: Option<u64>,
}

/// A row of the subscription table.
#[derive(Clone, Copy, Debug)]
pub struct Subscription {
    pub subscription_id: u64,
    pub subscriber_account_id: u64,
    pub domain_id: u64,
    pub batch_window_seconds: u32,
    pub active: bool,
    pub created_at: Timestamp,
    pub updated_at: Timestamp,
}

/// One DM of the caller, as the DM discovery view returns it.
#[derive(Debug)]
pub struct DmLookup {
    pub domain_id: u64,
    pub title: String,
    pub participant_account_ids: Vec<u64>,
}

impl View for DmLookup {
    type V = (u64, Seq<char>, Seq<u64>);

    open spec fn view(&self) -> (u64, Seq<char>, Seq<u64>) {
        (self.domain_id, self.title@, self.participant_account_ids@)
    }
}

impl Domain {
    /// A copy of this row.
    pub fn copy_row(&self) -> (r: Domain)
        ensures
            r == *self,
    {
        Domain {
            domain_id: self.domain_id,
            kind: self.kind,
            slug: self.slug.clone(),
            title: self.title.clone(),
            created_by_account_id: self.created_by_account_id,
            created_at: self.created_at,
            message_char_limit: self.message_char_limit,
        }
    }
}

impl Account {
    /// A copy of this row.
    pub fn copy_row(&self) -> (r: Account)
        ensures
            r == *self,
    {
        Account {
            account_id: self.account_id,
            handle: self.handle.clone(),
            created_at: self.created_at,
            status: self.status,
        }
    }
}

} // verus!
