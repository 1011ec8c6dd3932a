use vstd::prelude::*;

use crate::model::{
    Account, AccountKey, AccountStatus, Domain, DomainKind, DomainMember, DomainRole, Identity,
    Message, Subscription, Timestamp,
};
use crate::participants::u64_leq;
use crate::validation::body_error;

verus! {

/// The index of the first element of a sequence that satisfies a predicate.
pub open spec fn find_index<T>(s: Seq<T>, p: spec_fn(T) -> bool) -> Option<int>
    decreases s.len(),
{
    if s.len() == 0 {
        None
    } else {
        match find_index(s.drop_last(), p) {
            Some(i) => Some(i),
            None => if p(s.last()) {
                Some(s.len() - 1)
            } else {
                None
            },
        }
    }
}

/// `find_index` gives the first index whose element satisfies the predicate, and
/// `None` exactly when no element does.
pub proof fn lemma_find_index<T>(s: Seq<T>, p: spec_fn(T) -> bool)
    ensures
        match find_index(s, p) {
            Some(i) => 0 <= i < s.len() && p(s[i]) && forall|j: int| 0 <= j < i ==> !p(#[trigger] s[j]),
            None => forall|j: int| 0 <= j < s.len() ==> !p(#[trigger] s[j]),
        },
    decreases s.len(),
{
    if s.len() > 0 {
        lemma_find_index(s.drop_last(), p);
        assert forall|j: int| 0 <= j < s.len() - 1 implies s.drop_last()[j] == s[j] by {}
    }
}

/// When an element satisfies the predicate and none before it does, `find_index`
/// gives its index.
pub proof fn lemma_find_index_at<T>(s: Seq<T>, p: spec_fn(T) -> bool, i: int)
    requires
        0 <= i < s.len(),
        p(s[i]),
        forall|j: int| 0 <= j < i ==> !p(#[trigger] s[j]),
    ensures
        find_index(s, p) == Some(i),
{
    lemma_find_index(s, p);
}

/// When no element satisfies the predicate, `find_index` gives `None`.
pub proof fn lemma_find_index_none<T>(s: Seq<T>, p: spec_fn(T) -> bool)
    requires
        forall|j: int| 0 <= j < s.len() ==> !p(#[trigger] s[j]),
    ensures
        find_index(s, p) == None::<int>,
{
    lemma_find_index(s, p);
}

/// The content of the ledger: its tables, in insertion order, and the next
/// membership id.
#[verifier::ext_equal]
pub struct LedgerState {
    pub accounts: Seq<Account>,
    pub account_keys: Seq<AccountKey>,
    pub domains: Seq<Domain>,
    pub domain_members: Seq<DomainMember>,
    pub messages: Seq<Message>,
    pub subscriptions: Seq<Subscription>,
    pub next_membership_id: u64,
}

pub open spec fn key_pred(identity: Identity) -> spec_fn(AccountKey) -> bool {
    |k: AccountKey| k.key_identity == identity
}

pub open spec fn account_pred(account_id: u64) -> spec_fn(Account) -> bool {
    |a: Account| a.account_id == account_id
}

pub open spec fn domain_pred(domain_id: u64) -> spec_fn(Domain) -> bool {
    |d: Domain| d.domain_id == domain_id
}

pub open spec fn membership_pred(domain_id: u64, account_id: u64) -> spec_fn(DomainMember) -> bool {
    |m: DomainMember| m.domain_id == domain_id && m.account_id == account_id
}

pub open spec fn message_pred(message_id: u64) -> spec_fn(Message) -> bool {
    |m: Message| m.message_id == message_id
}

pub open spec fn subscription_pred(subscriber_account_id: u64, domain_id: u64) -> spec_fn(
    Subscription,
) -> bool {
    |s: Subscription| s.subscriber_account_id == subscriber_account_id && s.domain_id == domain_id
}

/// The account ids of the members of a domain, in table order.
pub open spec fn member_account_ids(ms: Seq<DomainMember>, domain_id: u64) -> Seq<u64>
    decreases ms.len(),
{
    if ms.len() == 0 {
        Seq::empty()
    } else {
        let rest = member_account_ids(ms.drop_last(), domain_id);
        if ms.last().domain_id == domain_id {
            rest.push(ms.last().account_id)
        } else {
            rest
        }
    }
}

impl LedgerState {
    /// The row index of the key bound to an identity.
    pub open spec fn key_index(self, identity: Identity) -> Option<int> {
        find_index(self.account_keys, key_pred(identity))
    }

    /// The row index of an account.
    pub open spec fn account_index(self, account_id: u64) -> Option<int> {
        find_index(self.accounts, account_pred(account_id))
    }

    /// The row index of a domain.
    pub open spec fn domain_index(self, domain_id: u64) -> Option<int> {
        find_index(self.domains, domain_pred(domain_id))
    }

    /// The row index of the membership of an account in a domain.
    pub open spec fn membership_index(self, domain_id: u64, account_id: u64) -> Option<int> {
        find_index(self.domain_members, membership_pred(domain_id, account_id))
    }

    /// The row index of a message.
    pub open spec fn message_index(self, message_id: u64) -> Option<int> {
        find_index(self.messages, message_pred(message_id))
    }

    /// The row index of the subscription of an account to a domain.
    pub open spec fn subscription_index(self, subscriber_account_id: u64, domain_id: u64) -> Option<
        int,
    > {
        find_index(self.subscriptions, subscription_pred(subscriber_account_id, domain_id))
    }

    /// The account a domain id names, if any.
    pub open spec fn account(self, account_id: u64) -> Option<Account> {
        match self.account_index(account_id) {
            Some(i) => Some(self.accounts[i]),
            None => None,
        }
    }

    /// The domain a domain id names, if any.
    pub open spec fn domain(self, domain_id: u64) -> Option<Domain> {
        match self.domain_index(domain_id) {
            Some(i) => Some(self.domains[i]),
            None => None,
        }
    }

    /// The membership of an account in a domain, if any.
    pub open spec fn membership(self, domain_id: u64, account_id: u64) -> Option<DomainMember> {
        match self.membership_index(domain_id, account_id) {
            Some(i) => Some(self.domain_members[i]),
            None => None,
        }
    }

    /// The active account an identity acts for: its key must be bound and not
    /// revoked, and the account must exist and be active.
    pub open spec fn active_account(self, identity: Identity) -> Option<Account> {
        match self.key_index(identity) {
            None => None,
            Some(k) => if self.account_keys[k].revoked_at is Some {
                None
            } else {
                match self.account(self.account_keys[k].account_id) {
                    Some(a) => if a.status == AccountStatus::Active {
                        Some(a)
                    } else {
                        None
                    },
                    None => None,
                }
            },
        }
    }

    /// The account ids of a domain's members, sorted ascending.
    pub open spec fn sorted_member_ids(self, domain_id: u64) -> Seq<u64> {
        member_account_ids(self.domain_members, domain_id).sort_by(u64_leq())
    }

    /// An account belongs to a domain.
    pub open spec fn is_member(self, domain_id: u64, account_id: u64) -> bool {
        self.membership_index(domain_id, account_id) is Some
    }

    /// The next id of each auto-incremented table is still representable.
    pub open spec fn has_capacity(self) -> bool {
        &&& self.accounts.len() < u64::MAX
        &&& self.domains.len() < u64::MAX
        &&& self.messages.len() < u64::MAX
        &&& self.subscriptions.len() < u64::MAX
        &&& self.next_membership_id < u64::MAX
    }

    /// Ids given by auto-increment: the row at index `i` has id `i + 1`.
    pub open spec fn ids_wf(self) -> bool {
        &&& forall|i: int| 0 <= i < self.accounts.len() ==> #[trigger] self.accounts[i].account_id == i + 1
        &&& forall|i: int| 0 <= i < self.domains.len() ==> #[trigger] self.domains[i].domain_id == i + 1
        &&& forall|i: int| 0 <= i < self.messages.len() ==> #[trigger] self.messages[i].message_id == i + 1
        &&& forall|i: int| 0 <= i < self.subscriptions.len() ==> #[trigger] self.subscriptions[i].subscription_id == i + 1
    }

    /// An account id names an existing account.
    pub open spec fn account_exists(self, account_id: u64) -> bool {
        1 <= account_id <= self.accounts.len()
    }

    /// A domain id names an existing domain.
    pub open spec fn domain_exists(self, domain_id: u64) -> bool {
        1 <= domain_id <= self.domains.len()
    }

    /// Each key identity is bound at most once, to an existing account.
    pub open spec fn keys_wf(self) -> bool {
        &&& forall|i: int, j: int|
            0 <= i < self.account_keys.len() && 0 <= j < self.account_keys.len() && i != j
                ==> #[trigger] self.account_keys[i].key_identity != #[trigger] self.account_keys[j].key_identity
        &&& forall|i: int| 0 <= i < self.account_keys.len() ==> self.account_exists(#[trigger] self.account_keys[i].account_id)
    }

    /// Every domain was created by an existing account.
    pub open spec fn domains_wf(self) -> bool {
        forall|i: int| 0 <= i < self.domains.len() ==> self.account_exists(#[trigger] self.domains[i].created_by_account_id)
    }

    /// Membership ids increase along the table and stay below the next id; each
    /// account belongs to a domain at most once; members and domains exist.
    pub open spec fn members_wf(self) -> bool {
        &&& forall|i: int, j: int| 0 <= i < j < self.domain_members.len() ==> #[trigger] self.domain_members[i].membership_id < #[trigger] self.domain_members[j].membership_id
        &&& forall|i: int| 0 <= i < self.domain_members.len() ==> #[trigger] self.domain_members[i].membership_id < self.next_membership_id
        &&& forall|i: int| 0 <= i < self.domain_members.len() ==> self.domain_exists(#[trigger] self.domain_members[i].domain_id)
        &&& forall|i: int| 0 <= i < self.domain_members.len() ==> self.account_exists(#[trigger] self.domain_members[i].account_id)
        &&& forall|i: int, j: int|
            0 <= i < self.domain_members.len() && 0 <= j < self.domain_members.len() && i != j
                && #[trigger] self.domain_members[i].domain_id == #[trigger] self.domain_members[j].domain_id
                ==> self.domain_members[i].account_id != self.domain_members[j].account_id
    }

    /// No two DMs have the same participant set.
    pub open spec fn dms_distinct(self) -> bool {
        forall|i: int, j: int|
            0 <= i < j < self.domains.len() && #[trigger] self.domains[i].kind == DomainKind::Dm
                && #[trigger] self.domains[j].kind == DomainKind::Dm
                ==> self.sorted_member_ids(self.domains[i].domain_id) != self.sorted_member_ids(self.domains[j].domain_id)
    }

    /// No two named (non-DM) domains hold the same slug.
    pub open spec fn slugs_distinct(self) -> bool {
        forall|i: int, j: int|
            0 <= i < j < self.domains.len() && #[trigger] self.domains[i].kind != DomainKind::Dm
                && #[trigger] self.domains[j].kind != DomainKind::Dm
                ==> self.domains[i].slug@ != self.domains[j].slug@
    }

    /// Messages: their domain and author exist; within a domain, sequence numbers
    /// increase along the table and never exceed the message id; a reply points
    /// back to an earlier message of the same domain.
    pub open spec fn messages_wf(self) -> bool {
        &&& forall|i: int| 0 <= i < self.messages.len() ==> self.domain_exists(#[trigger] self.messages[i].domain_id)
        &&& forall|i: int| 0 <= i < self.messages.len() ==> self.account_exists(#[trigger] self.messages[i].author_account_id)
        &&& forall|i: int| 0 <= i < self.messages.len() ==> 1 <= #[trigger] self.messages[i].domain_sequence <= self.messages[i].message_id
        &&& forall|i: int, j: int|
            0 <= i < j < self.messages.len() && #[trigger] self.messages[i].domain_id == #[trigger] self.messages[j].domain_id
                ==> self.messages[i].domain_sequence < self.messages[j].domain_sequence
        &&& forall|i: int| 0 <= i < self.messages.len() && (#[trigger] self.messages[i]).reply_to_message_id is Some
            ==> {
                let r = self.messages[i].reply_to_message_id->0;
                &&& 1 <= r < self.messages[i].message_id
                &&& self.messages[r - 1].domain_id == self.messages[i].domain_id
            }
        &&& forall|i: int| 0 <= i < self.messages.len() ==> self.body_within_limit(#[trigger] self.messages[i])
    }

    /// A message's body passes the body check at its domain's character limit.
    pub open spec fn body_within_limit(self, m: Message) -> bool {
        body_error(m.body@, self.domains[m.domain_id - 1].message_char_limit as nat) is None
    }

    /// Each account subscribes to a domain at most once; subscribers and domains exist.
    pub open spec fn subscriptions_wf(self) -> bool {
        &&& forall|i: int| 0 <= i < self.subscriptions.len() ==> self.account_exists(#[trigger] self.subscriptions[i].subscriber_account_id)
        &&& forall|i: int| 0 <= i < self.subscriptions.len() ==> self.domain_exists(#[trigger] self.subscriptions[i].domain_id)
        &&& forall|i: int, j: int|
            0 <= i < self.subscriptions.len() && 0 <= j < self.subscriptions.len() && i != j
                && #[trigger] self.subscriptions[i].domain_id == #[trigger] self.subscriptions[j].domain_id
                ==> self.subscriptions[i].subscriber_account_id != self.subscriptions[j].subscriber_account_id
    }

    /// The invariant every reducer keeps.
    pub open spec fn wf(self) -> bool {
        &&& self.ids_wf()
        &&& self.keys_wf()
        &&& self.domains_wf()
        &&& self.members_wf()
        &&& self.dms_distinct()
        &&& self.slugs_distinct()
        &&& self.messages_wf()
        &&& self.subscriptions_wf()
    }
}

/// The tables of a Tidepool ledger.
pub struct Database {
    accounts: Vec<Account>,
    account_keys: Vec<AccountKey>,
    domains: Vec<Domain>,
    domain_members: Vec<DomainMember>,
    messages: Vec<Message>,
    subscriptions: Vec<Subscription>,
    next_membership_id: u64,
}

impl View for Database {
    type V = LedgerState;

    closed spec fn view(&self) -> LedgerState {
        LedgerState {
            accounts: self.accounts@,
            account_keys: self.account_keys@,
            domains: self.domains@,
            domain_members: self.domain_members@,
            messages: self.messages@,
            subscriptions: self.subscriptions@,
            next_membership_id: self.next_membership_id,
        }
    }
}

impl Database {
    /// An empty ledger.
    pub fn new() -> (db: Database)
        ensures
            db@.accounts.len() == 0,
            db@.account_keys.len() == 0,
            db@.domains.len() == 0,
            db@.domain_members.len() == 0,
            db@.messages.len() == 0,
            db@.subscriptions.len() == 0,
            db@.next_membership_id == 1,
            db@.wf(),
    {
        let db = Database {
            accounts: Vec::new(),
            account_keys: Vec::new(),
            domains: Vec::new(),
            domain_members: Vec::new(),
            messages: Vec::new(),
            subscriptions: Vec::new(),
            next_membership_id: 1,
        };
        db
    }

    /// The account table.
    pub fn accounts(&self) -> (r: &[Account])
        ensures
            r@ == self@.accounts,
    {
        self.accounts.as_slice()
    }

    /// The account key table.
    pub fn account_keys(&self) -> (r: &[AccountKey])
        ensures
            r@ == self@.account_keys,
    {
        self.account_keys.as_slice()
    }

    /// The domain table.
    pub fn domains(&self) -> (r: &[Domain])
        ensures
            r@ == self@.domains,
    {
        self.domains.as_slice()
    }

    /// The domain membership table.
    pub fn domain_members(&self) -> (r: &[DomainMember])
        ensures
            r@ == self@.domain_members,
    {
        self.domain_members.as_slice()
    }

    /// The message table.
    pub fn messages(&self) -> (r: &[Message])
        ensures
            r@ == self@.messages,
    {
        self.messages.as_slice()
    }

    /// The subscription table.
    pub fn subscriptions(&self) -> (r: &[Subscription])
        ensures
            r@ == self@.subscriptions,
    {
        self.subscriptions.as_slice()
    }

    /// Looks up the key bound to an identity.
    pub fn find_key(&self, identity: Identity) -> (r: Option<usize>)
        ensures
            r matches Some(i) ==> self@.key_index(identity) == Some(i as int),
            r matches Some(i) ==> i < self@.account_keys.len(),
            r is None ==> self@.key_index(identity) is None,
    {
        let mut i: usize = 0;
        while i < self.account_keys.len()
            invariant
                i <= self@.account_keys.len(),
                forall|j: int| 0 <= j < i ==> !(key_pred(identity))(#[trigger] self@.account_keys[j]),
            decreases self@.account_keys.len() - i,
        {
            if self.account_keys[i].key_identity == identity {
                proof {
                    lemma_find_index_at(self@.account_keys, key_pred(identity), i as int);
                }
                return Some(i);
            }
            i += 1;
        }
        proof {
            lemma_find_index_none(self@.account_keys, key_pred(identity));
        }
        None
    }

    /// Looks up an account by id.
    pub fn find_account(&self, account_id: u64) -> (r: Option<usize>)
        ensures
            r matches Some(i) ==> self@.account_index(account_id) == Some(i as int),
            r matches Some(i) ==> i < self@.accounts.len(),
            r is None ==> self@.account_index(account_id) is None,
    {
        let mut i: usize = 0;
        while i < self.accounts.len()
            invariant
                i <= self@.accounts.len(),
                forall|j: int| 0 <= j < i ==> !(account_pred(account_id))(#[trigger] self@.accounts[j]),
            decreases self@.accounts.len() - i,
        {
            if self.accounts[i].account_id == account_id {
                proof {
                    lemma_find_index_at(self@.accounts, account_pred(account_id), i as int);
                }
                return Some(i);
            }
            i += 1;
        }
        proof {
            lemma_find_index_none(self@.accounts, account_pred(account_id));
        }
        None
    }

    /// Looks up a domain by id.
    pub fn find_domain(&self, domain_id: u64) -> (r: Option<usize>)
        ensures
            r matches Some(i) ==> self@.domain_index(domain_id) == Some(i as int),
            r matches Some(i) ==> i < self@.domains.len(),
            r is None ==> self@.domain_index(domain_id) is None,
    {
        let mut i: usize = 0;
        while i < self.domains.len()
            invariant
                i <= self@.domains.len(),
                forall|j: int| 0 <= j < i ==> !(domain_pred(domain_id))(#[trigger] self@.domains[j]),
            decreases self@.domains.len() - i,
        {
            if self.domains[i].domain_id == domain_id {
                proof {
                    lemma_find_index_at(self@.domains, domain_pred(domain_id), i as int);
                }
                return Some(i);
            }
            i += 1;
        }
        proof {
            lemma_find_index_none(self@.domains, domain_pred(domain_id));
        }
        None
    }

    /// Looks up the membership of an account in a domain.
    pub fn find_membership(&self, domain_id: u64, account_id: u64) -> (r: Option<usize>)
        ensures
            r matches Some(i) ==> self@.membership_index(domain_id, account_id) == Some(i as int),
            r matches Some(i) ==> i < self@.domain_members.len(),
            r is None ==> self@.membership_index(domain_id, account_id) is None,
    {
        let mut i: usize = 0;
        while i < self.domain_members.len()
            invariant
                i <= self@.domain_members.len(),
                forall|j: int| 0 <= j < i ==> !(membership_pred(domain_id, account_id))(#[trigger] self@.domain_members[j]),
            decreases self@.domain_members.len() - i,
        {
            if self.domain_members[i].domain_id == domain_id && self.domain_members[i].account_id == account_id {
                proof {
                    lemma_find_index_at(self@.domain_members, membership_pred(domain_id, account_id), i as int);
                }
                return Some(i);
            }
            i += 1;
        }
        proof {
            lemma_find_index_none(self@.domain_members, membership_pred(domain_id, account_id));
        }
        None
    }

    /// Looks up a message by id.
    pub fn find_message(&self, message_id: u64) -> (r: Option<usize>)
        ensures
            r matches Some(i) ==> self@.message_index(message_id) == Some(i as int),
            r matches Some(i) ==> i < self@.messages.len(),
            r is None ==> self@.message_index(message_id) is None,
    {
        let mut i: usize = 0;
        while i < self.messages.len()
            invariant
                i <= self@.messages.len(),
                forall|j: int| 0 <= j < i ==> !(message_pred(message_id))(#[trigger] self@.messages[j]),
            decreases self@.messages.len() - i,
        {
            if self.messages[i].message_id == message_id {
                proof {
                    lemma_find_index_at(self@.messages, message_pred(message_id), i as int);
                }
                return Some(i);
            }
            i += 1;
        }
        proof {
            lemma_find_index_none(self@.messages, message_pred(message_id));
        }
        None
    }

    /// Looks up the subscription of an account to a domain.
    pub fn find_subscription(&self, subscriber_account_id: u64, domain_id: u64) -> (r: Option<usize>)
        ensures
            r matches Some(i) ==> self@.subscription_index(subscriber_account_id, domain_id) == Some(i as int),
            r matches Some(i) ==> i < self@.subscriptions.len(),
            r is None ==> self@.subscription_index(subscriber_account_id, domain_id) is None,
    {
        let mut i: usize = 0;
        while i < self.subscriptions.len()
            invariant
                i <= self@.subscriptions.len(),
                forall|j: int| 0 <= j < i ==> !(subscription_pred(subscriber_account_id, domain_id))(#[trigger] self@.subscriptions[j]),
            decreases self@.subscriptions.len() - i,
        {
            if self.subscriptions[i].subscriber_account_id == subscriber_account_id && self.subscriptions[i].domain_id == domain_id {
                proof {
                    lemma_find_index_at(self@.subscriptions, subscription_pred(subscriber_account_id, domain_id), i as int);
                }
                return Some(i);
            }
            i += 1;
        }
        proof {
            lemma_find_index_none(self@.subscriptions, subscription_pred(subscriber_account_id, domain_id));
        }
        None
    }

    /// Appends an account row with the next account id, and returns that id.
    pub(crate) fn insert_account(&mut self, handle: String, created_at: Timestamp, status: AccountStatus) -> (id: u64)
        requires
            old(self)@.accounts.len() < u64::MAX,
        ensures
            id == old(self)@.accounts.len() + 1,
            final(self)@ == (LedgerState {
                accounts: old(self)@.accounts.push(Account { account_id: id, handle, created_at, status }),
                ..old(self)@
            }),
    {
        let id = self.accounts.len() as u64 + 1;
        self.accounts.push(Account { account_id: id, handle, created_at, status });
        id
    }

    /// Appends a key row.
    pub(crate) fn insert_account_key(&mut self, key: AccountKey)
        ensures
            final(self)@ == (LedgerState { account_keys: old(self)@.account_keys.push(key), ..old(self)@ }),
    {
        self.account_keys.push(key);
    }

    /// Replaces the key row at an index.
    pub(crate) fn update_account_key(&mut self, index: usize, key: AccountKey)
        requires
            index < old(self)@.account_keys.len(),
        ensures
            final(self)@ == (LedgerState {
                account_keys: old(self)@.account_keys.update(index as int, key),
                ..old(self)@
            }),
    {
        self.account_keys.set(index, key);
    }

    /// Appends a domain row with the next domain id, and returns that id.
    pub(crate) fn insert_domain(
        &mut self,
        kind: DomainKind,
        slug: String,
        title: String,
        created_by_account_id: u64,
        created_at: Timestamp,
        message_char_limit: u16,
    ) -> (id: u64)
        requires
            old(self)@.domains.len() < u64::MAX,
        ensures
            id == old(self)@.domains.len() + 1,
            final(self)@ == (LedgerState {
                domains: old(self)@.domains.push(Domain {
                    domain_id: id,
                    kind,
                    slug,
                    title,
                    created_by_account_id,
                    created_at,
                    message_char_limit,
                }),
                ..old(self)@
            }),
    {
        let id = self.domains.len() as u64 + 1;
        self.domains.push(
            Domain {
                domain_id: id,
                kind,
                slug,
                title,
                created_by_account_id,
                created_at,
                message_char_limit,
            },
        );
        id
    }

    /// Appends a membership row with the next membership id.
    pub(crate) fn insert_domain_member_row(
        &mut self,
        domain_id: u64,
        account_id: u64,
        role: DomainRole,
        joined_at: Timestamp,
    )
        requires
            old(self)@.next_membership_id < u64::MAX,
        ensures
            final(self)@ == (LedgerState {
                domain_members: old(self)@.domain_members.push(DomainMember {
                    membership_id: old(self)@.next_membership_id,
                    domain_id,
                    account_id,
                    role,
                    joined_at,
                }),
                next_membership_id: (old(self)@.next_membership_id + 1) as u64,
                ..old(self)@
            }),
    {
        let id = self.next_membership_id;
        self.domain_members.push(DomainMember { membership_id: id, domain_id, account_id, role, joined_at });
        self.next_membership_id = id + 1;
    }

    /// Deletes the membership row at an index.
    pub(crate) fn delete_domain_member_row(&mut self, index: usize)
        requires
            index < old(self)@.domain_members.len(),
        ensures
            final(self)@ == (LedgerState {
                domain_members: old(self)@.domain_members.remove(index as int),
                ..old(self)@
            }),
    {
        self.domain_members.remove(index);
    }

    /// Appends a message row with the next message id, and returns that id.
    pub(crate) fn insert_message(
        &mut self,
        domain_id: u64,
        domain_sequence: u64,
        author_account_id: u64,
        authenticated_key_identity: Identity,
        body: String,
        created_at: Timestamp,
        reply_to_message_id: Option<u64>,
    ) -> (id: u64)
        requires
            old(self)@.messages.len() < u64::MAX,
        ensures
            id == old(self)@.messages.len() + 1,
            final(self)@ == (LedgerState {
                messages: old(self)@.messages.push(Message {
                    message_id: id,
                    domain_id,
                    domain_sequence,
                    author_account_id,
                    authenticated_key_identity,
                    body,
                    created_at,
                    reply_to_message_id,
                }),
                ..old(self)@
            }),
    {
        let id = self.messages.len() as u64 + 1;
        self.messages.push(
            Message {
                message_id: id,
                domain_id,
                domain_sequence,
                author_account_id,
                authenticated_key_identity,
                body,
                created_at,
                reply_to_message_id,
            },
        );
        id
    }

    /// Appends a subscription row with the next subscription id, and returns that id.
    pub(crate) fn insert_subscription(
        &mut self,
        subscriber_account_id: u64,
        domain_id: u64,
        batch_window_seconds: u32,
        active: bool,
        created_at: Timestamp,
        updated_at: Timestamp,
    ) -> (id: u64)
        requires
            old(self)@.subscriptions.len() < u64::MAX,
        ensures
            id == old(self)@.subscriptions.len() + 1,
            final(self)@ == (LedgerState {
                subscriptions: old(self)@.subscriptions.push(Subscription {
                    subscription_id: id,
                    subscriber_account_id,
                    domain_id,
                    batch_window_seconds,
                    active,
                    created_at,
                    updated_at,
                }),
                ..old(self)@
            }),
    {
        let id = self.subscriptions.len() as u64 + 1;
        self.subscriptions.push(
            Subscription {
                subscription_id: id,
                subscriber_account_id,
                domain_id,
                batch_window_seconds,
                active,
                created_at,
                updated_at,
            },
        );
        id
    }

    /// Replaces the subscription row at an index.
    pub(crate) fn update_subscription(&mut self, index: usize, subscription: Subscription)
        requires
            index < old(self)@.subscriptions.len(),
        ensures
            final(self)@ == (LedgerState {
                subscriptions: old(self)@.subscriptions.update(index as int, subscription),
                ..old(self)@
            }),
    {
        self.subscriptions.set(index, subscription);
    }
}

} // verus!
