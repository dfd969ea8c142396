use vstd::prelude::*;

use crate::store::{cap_u64, tmp_bytes_of, tmp_count_of, Store};
use crate::types::{BlobId, BlobKind, Id, RequestError, RequestErrorType, RequestLimitError};

verus! {

/// Configured limits of the ingestion path. A quota ceiling of zero means
/// that dimension is unlimited.
#[derive(Clone, Copy, Debug, PartialEq, Eq, Structural)]
pub struct Config {
    pub upload_tmp_quota_size: u64,
    pub upload_tmp_quota_amount: u64,
    pub upload_tmp_ttl: u64,
    pub max_concurrent_uploads: u64,
}

/// One (account, document) capability grant.
#[derive(Clone, Copy, Debug, PartialEq, Eq, Structural)]
pub struct DocGrant {
    pub account: u32,
    pub document: u32,
}

/// What the directory collaborator resolved for a caller: its own account,
/// whether it is a super-user, which other accounts are shared with it,
/// and which documents it may read or write there.
#[derive(Clone, Debug)]
pub struct AccessToken {
    pub primary_id: u32,
    pub super_user: bool,
    pub shared_accounts: Vec<u32>,
    pub readable_messages: Vec<DocGrant>,
    pub writable_mailboxes: Vec<DocGrant>,
}

impl AccessToken {
    pub open spec fn spec_is_super_user(&self) -> bool {
        self.super_user
    }

    #[verifier::when_used_as_spec(spec_is_super_user)]
    pub fn is_super_user(&self) -> (r: bool)
        ensures
            r == self.super_user,
    {
        self.super_user
    }

    pub open spec fn spec_is_shared(&self, account: u32) -> bool {
        self.shared_accounts@.contains(account)
    }

    /// Whether the account is shared with this caller (rather than owned).
    #[verifier::when_used_as_spec(spec_is_shared)]
    #[verifier::loop_isolation(false)]
    pub fn is_shared(&self, account: u32) -> (r: bool)
        ensures
            r == self.spec_is_shared(account),
    {
        let mut i: usize = 0;
        while i < self.shared_accounts.len()
            invariant
                i <= self.shared_accounts@.len(),
                forall|j: int| 0 <= j < i ==> self.shared_accounts@[j] != account,
            decreases self.shared_accounts@.len() - i,
        {
            if self.shared_accounts[i] == account {
                proof {
                    assert(self.shared_accounts@.contains(account));
                }
                return true;
            }
            i = i + 1;
        }
        false
    }

    /// Whether the caller may read the given message of the account: it
    /// owns the account, or holds an explicit read grant.
    pub open spec fn spec_can_read_message(&self, account: u32, document: u32) -> bool {
        account == self.primary_id || self.readable_messages@.contains(
            DocGrant { account, document },
        )
    }

    #[verifier::when_used_as_spec(spec_can_read_message)]
    #[verifier::loop_isolation(false)]
    pub fn can_read_message(&self, account: u32, document: u32) -> (r: bool)
        ensures
            r == self.spec_can_read_message(account, document),
    {
        if account == self.primary_id {
            return true;
        }
        let g = DocGrant { account, document };
        let mut i: usize = 0;
        while i < self.readable_messages.len()
            invariant
                i <= self.readable_messages@.len(),
                forall|j: int| 0 <= j < i ==> self.readable_messages@[j] != g,
            decreases self.readable_messages@.len() - i,
        {
            if self.readable_messages[i] == g {
                proof {
                    assert(self.readable_messages@.contains(g));
                }
                return true;
            }
            i = i + 1;
        }
        false
    }

    /// Whether the caller may add messages to the given mailbox of a
    /// shared account.
    pub open spec fn spec_can_add_to_mailbox(&self, account: u32, document: u32) -> bool {
        self.writable_mailboxes@.contains(DocGrant { account, document })
    }

    #[verifier::when_used_as_spec(spec_can_add_to_mailbox)]
    #[verifier::loop_isolation(false)]
    pub fn can_add_to_mailbox(&self, account: u32, document: u32) -> (r: bool)
        ensures
            r == self.spec_can_add_to_mailbox(account, document),
    {
        let g = DocGrant { account, document };
        let mut i: usize = 0;
        while i < self.writable_mailboxes.len()
            invariant
                i <= self.writable_mailboxes@.len(),
                forall|j: int| 0 <= j < i ==> self.writable_mailboxes@[j] != g,
            decreases self.writable_mailboxes@.len() - i,
        {
            if self.writable_mailboxes[i] == g {
                proof {
                    assert(self.writable_mailboxes@.contains(g));
                }
                return true;
            }
            i = i + 1;
        }
        false
    }
}

/// Number of in-flight uploads of a principal: the last record wins, zero
/// before any upload. This counter is the one piece of shared mutable
/// state of the admission path.
#[derive(Clone, Copy, Debug, PartialEq, Eq, Structural)]
pub struct FlightRecord {
    pub principal: u32,
    pub count: u64,
}

pub open spec fn in_flight_of(s: Seq<FlightRecord>, principal: u32) -> u64
    decreases s.len(),
{
    if s.len() == 0 {
        0
    } else if s.last().principal == principal {
        s.last().count
    } else {
        in_flight_of(s.drop_last(), principal)
    }
}

pub broadcast proof fn lemma_in_flight_of_push(s: Seq<FlightRecord>, r: FlightRecord, principal: u32)
    ensures
        #[trigger] in_flight_of(s.push(r), principal) == if r.principal == principal {
            r.count
        } else {
            in_flight_of(s, principal)
        },
{
    assert(s.push(r).drop_last() =~= s);
}

/// Configured byte quota of an account (zero: unlimited).
#[derive(Clone, Copy, Debug, PartialEq, Eq, Structural)]
pub struct AccountQuota {
    pub account: u32,
    pub quota: i64,
}

pub open spec fn quota_config_of(s: Seq<AccountQuota>, account: u32) -> i64
    decreases s.len(),
{
    if s.len() == 0 {
        0
    } else if s.last().account == account {
        s.last().quota
    } else {
        quota_config_of(s.drop_last(), account)
    }
}

/// Whether an upload of `upload_len` bytes must be rejected against the
/// configured temporary-blob ceilings, given the account's freshly
/// recomputed usage. A ceiling of zero means that dimension is unlimited.
pub open spec fn upload_quota_exceeded(
    quota_amount: u64,
    quota_size: u64,
    total_files: int,
    total_bytes: int,
    upload_len: int,
) -> bool {
    (quota_size > 0 && total_bytes + upload_len > quota_size) || (quota_amount > 0 && total_files
        + 1 > quota_amount)
}

/// The mutation-and-synchronization core: the storage collaborator, the
/// configured limits, the per-principal upload gate, and the configured
/// per-account quotas.
#[derive(Debug)]
pub struct JMAP {
    pub store: Store,
    pub config: Config,
    pub in_flight: Vec<FlightRecord>,
    pub account_quotas: Vec<AccountQuota>,
}

impl JMAP {
    /// Whether an upload by this caller must be refused by the
    /// concurrency gate: ordinary callers are capped at the configured
    /// number of simultaneous uploads, a super-user is not, and a
    /// saturated counter admits nobody.
    pub open spec fn concurrency_rejected(&self, token: AccessToken) -> bool {
        (!token.super_user && in_flight_of(self.in_flight@, token.primary_id)
            >= self.config.max_concurrent_uploads) || in_flight_of(
            self.in_flight@,
            token.primary_id,
        ) == u64::MAX
    }

    /// Acquire one upload slot; the caller must release it on every exit
    /// path of the guarded operation.
    pub fn acquire_upload_slot(&mut self, token: &AccessToken) -> (r: Result<(), RequestError>)
        ensures
            r is Err <==> old(self).concurrency_rejected(*token),
            r is Err ==> *final(self) == *old(self),
            r matches Err(e) ==> e.p_type == RequestErrorType::Limit && e.limit == Some(
                RequestLimitError::ConcurrentUpload,
            ) && e.status == 400 && e.detail@ == crate::types::limit_detail(
                RequestLimitError::ConcurrentUpload,
            ),
            r is Ok ==> in_flight_of(final(self).in_flight@, token.primary_id) == in_flight_of(
                old(self).in_flight@,
                token.primary_id,
            ) + 1,
            r is Ok ==> forall|p: u32|
                p != token.primary_id ==> in_flight_of(final(self).in_flight@, p) == in_flight_of(
                    old(self).in_flight@,
                    p,
                ),
            final(self).store == old(self).store,
            final(self).config == old(self).config,
            final(self).account_quotas == old(self).account_quotas,
    {
        broadcast use lemma_in_flight_of_push;

        let c = self.in_flight_count(token.primary_id);
        if (!token.is_super_user() && c >= self.config.max_concurrent_uploads) || c == u64::MAX {
            return Err(RequestError::limit(RequestLimitError::ConcurrentUpload));
        }
        self.in_flight.push(FlightRecord { principal: token.primary_id, count: c + 1 });
        Ok(())
    }

    /// Release one upload slot. Idempotent at zero.
    pub fn release_upload_slot(&mut self, token: &AccessToken)
        ensures
            in_flight_of(final(self).in_flight@, token.primary_id) == if in_flight_of(
                old(self).in_flight@,
                token.primary_id,
            ) > 0 {
                (in_flight_of(old(self).in_flight@, token.primary_id) - 1) as u64
            } else {
                0
            },
            forall|p: u32|
                p != token.primary_id ==> in_flight_of(final(self).in_flight@, p) == in_flight_of(
                    old(self).in_flight@,
                    p,
                ),
            final(self).store == old(self).store,
            final(self).config == old(self).config,
            final(self).account_quotas == old(self).account_quotas,
    {
        broadcast use lemma_in_flight_of_push;

        let c = self.in_flight_count(token.primary_id);
        if c > 0 {
            self.in_flight.push(FlightRecord { principal: token.primary_id, count: c - 1 });
        }
    }

    /// Current number of in-flight uploads of a principal.
    #[verifier::loop_isolation(false)]
    pub fn in_flight_count(&self, principal: u32) -> (r: u64)
        ensures
            r == in_flight_of(self.in_flight@, principal),
    {
        let mut i: usize = self.in_flight.len();
        proof {
            assert(self.in_flight@.subrange(0, i as int) =~= self.in_flight@);
        }
        while i > 0
            invariant
                i <= self.in_flight@.len(),
                in_flight_of(self.in_flight@, principal) == in_flight_of(
                    self.in_flight@.subrange(0, i as int),
                    principal,
                ),
            decreases i,
        {
            i = i - 1;
            proof {
                assert(self.in_flight@.subrange(0, i as int + 1).last() == self.in_flight@[i as int]);
                assert(self.in_flight@.subrange(0, i as int + 1).drop_last() =~= self.in_flight@
                    .subrange(0, i as int));
            }
            if self.in_flight[i].principal == principal {
                return self.in_flight[i].count;
            }
        }
        0
    }

    /// Configured byte quota of an account (zero: unlimited).
    #[verifier::loop_isolation(false)]
    pub fn get_quota(&self, account_id: u32) -> (r: i64)
        ensures
            r == quota_config_of(self.account_quotas@, account_id),
    {
        let mut i: usize = self.account_quotas.len();
        proof {
            assert(self.account_quotas@.subrange(0, i as int) =~= self.account_quotas@);
        }
        while i > 0
            invariant
                i <= self.account_quotas@.len(),
                quota_config_of(self.account_quotas@, account_id) == quota_config_of(
                    self.account_quotas@.subrange(0, i as int),
                    account_id,
                ),
            decreases i,
        {
            i = i - 1;
            proof {
                assert(self.account_quotas@.subrange(0, i as int + 1).last()
                    == self.account_quotas@[i as int]);
                assert(self.account_quotas@.subrange(0, i as int + 1).drop_last()
                    =~= self.account_quotas@.subrange(0, i as int));
            }
            if self.account_quotas[i].account == account_id {
                return self.account_quotas[i].quota;
            }
        }
        0
    }
}

} // verus!
