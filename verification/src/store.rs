use vstd::prelude::*;

use crate::types::{ChangeKind, Collection, State};

verus! {

/// A committed change-log record: one document touched by one change id.
#[derive(Clone, Copy, Debug, PartialEq, Eq, Structural)]
pub struct LogRecord {
    pub account: u32,
    pub change_id: u64,
    pub collection: Collection,
    pub document: u64,
    pub kind: ChangeKind,
}

/// Latest allocated change id of an account (log-structured: the last
/// record for an account holds its current value).
#[derive(Clone, Copy, Debug, PartialEq, Eq, Structural)]
pub struct CounterRecord {
    pub account: u32,
    pub value: u64,
}

/// Next unallocated document id of one (account, collection).
#[derive(Clone, Copy, Debug, PartialEq, Eq, Structural)]
pub struct DocCounterRecord {
    pub account: u32,
    pub collection: Collection,
    pub next: u32,
}

/// Bytes of message data charged against an account's quota.
#[derive(Clone, Copy, Debug, PartialEq, Eq, Structural)]
pub struct QuotaRecord {
    pub account: u32,
    pub used: u64,
}

/// An existing document.
#[derive(Clone, Copy, Debug, PartialEq, Eq, Structural)]
pub struct DocRecord {
    pub account: u32,
    pub collection: Collection,
    pub document: u32,
}

/// One reference token of a stored message, pointing at the thread that
/// message belongs to.
#[derive(Clone, Debug)]
pub struct ThreadEntry {
    pub account: u32,
    pub token: Vec<u8>,
    pub thread: u32,
}

/// The change-log payload of a batch: all records collected here share one
/// freshly allocated change id and become durable together.
#[derive(Clone, Debug)]
pub struct Changes {
    pub account_id: u32,
    pub change_id: u64,
    pub entries: Vec<ChangeEntry>,
}

/// One entry collected by `Changes`.
#[derive(Clone, Copy, Debug, PartialEq, Eq, Structural)]
pub struct ChangeEntry {
    pub collection: Collection,
    pub document: u64,
    pub kind: ChangeKind,
}

impl Changes {
    pub fn log_insert(&mut self, collection: Collection, document: u64)
        ensures
            final(self).entries@ == old(self).entries@.push(
                ChangeEntry { collection, document, kind: ChangeKind::Insert },
            ),
            final(self).account_id == old(self).account_id,
            final(self).change_id == old(self).change_id,
    {
        self.entries.push(ChangeEntry { collection, document, kind: ChangeKind::Insert });
    }

    pub fn log_update(&mut self, collection: Collection, document: u64)
        ensures
            final(self).entries@ == old(self).entries@.push(
                ChangeEntry { collection, document, kind: ChangeKind::Update },
            ),
            final(self).account_id == old(self).account_id,
            final(self).change_id == old(self).change_id,
    {
        self.entries.push(ChangeEntry { collection, document, kind: ChangeKind::Update });
    }

    pub fn log_child_update(&mut self, collection: Collection, document: u64)
        ensures
            final(self).entries@ == old(self).entries@.push(
                ChangeEntry { collection, document, kind: ChangeKind::ChildUpdate },
            ),
            final(self).account_id == old(self).account_id,
            final(self).change_id == old(self).change_id,
    {
        self.entries.push(ChangeEntry { collection, document, kind: ChangeKind::ChildUpdate });
    }
}

/// The storage collaborator fails as a unit; callers see no detail.
#[derive(Clone, Copy, Debug, PartialEq, Eq, Structural)]
pub enum StoreError {
    Unavailable,
}

/// Synchronization state of (account, collection) after the given log:
/// the change id of the last record touching that collection, if any.
pub open spec fn state_of(log: Seq<LogRecord>, account: u32, collection: Collection) -> State
    decreases log.len(),
{
    if log.len() == 0 {
        State::Initial
    } else if log.last().account == account && log.last().collection == collection {
        State::Exact(log.last().change_id)
    } else {
        state_of(log.drop_last(), account, collection)
    }
}

/// Current change-id counter of an account: the last record wins, zero
/// before any allocation.
pub open spec fn counter_of(s: Seq<CounterRecord>, account: u32) -> u64
    decreases s.len(),
{
    if s.len() == 0 {
        0
    } else if s.last().account == account {
        s.last().value
    } else {
        counter_of(s.drop_last(), account)
    }
}

/// Next document id of (account, collection): the last record wins, zero
/// before any allocation.
pub open spec fn doc_next_of(s: Seq<DocCounterRecord>, account: u32, collection: Collection) -> u32
    decreases s.len(),
{
    if s.len() == 0 {
        0
    } else if s.last().account == account && s.last().collection == collection {
        s.last().next
    } else {
        doc_next_of(s.drop_last(), account, collection)
    }
}

/// Message bytes currently charged against an account: the last record
/// wins, zero before any charge.
pub open spec fn used_of(s: Seq<QuotaRecord>, account: u32) -> u64
    decreases s.len(),
{
    if s.len() == 0 {
        0
    } else if s.last().account == account {
        s.last().used
    } else {
        used_of(s.drop_last(), account)
    }
}

pub broadcast proof fn lemma_counter_of_push(s: Seq<CounterRecord>, r: CounterRecord, account: u32)
    ensures
        #[trigger] counter_of(s.push(r), account) == if r.account == account {
            r.value
        } else {
            counter_of(s, account)
        },
{
    assert(s.push(r).drop_last() =~= s);
}

pub broadcast proof fn lemma_doc_next_of_push(
    s: Seq<DocCounterRecord>,
    r: DocCounterRecord,
    account: u32,
    collection: Collection,
)
    ensures
        #[trigger] doc_next_of(s.push(r), account, collection) == if r.account == account
            && r.collection == collection {
            r.next
        } else {
            doc_next_of(s, account, collection)
        },
{
    assert(s.push(r).drop_last() =~= s);
}

pub broadcast proof fn lemma_used_of_push(s: Seq<QuotaRecord>, r: QuotaRecord, account: u32)
    ensures
        #[trigger] used_of(s.push(r), account) == if r.account == account {
            r.used
        } else {
            used_of(s, account)
        },
{
    assert(s.push(r).drop_last() =~= s);
}

/// Metadata of a stored message, as the mutation pipeline reads it: its
/// size in bytes, its subject, its reference-header tokens, and when it
/// was received.
#[derive(Clone, Debug)]
pub struct MessageMetadata {
    pub size: u64,
    pub subject: String,
    pub references: Vec<Vec<u8>>,
    pub received_at: Option<u64>,
}

impl MessageMetadata {
    /// Field-for-field copy with a known relation to the original.
    pub fn duplicate(&self) -> (r: MessageMetadata)
        ensures
            r.size == self.size,
            r.subject@ == self.subject@,
            r.references.deep_view() == self.references.deep_view(),
            r.received_at == self.received_at,
    {
        MessageMetadata {
            size: self.size,
            subject: self.subject.clone(),
            references: copy_token_list(&self.references),
            received_at: self.received_at,
        }
    }
}

/// A stored message's metadata record; the last record for a document wins.
#[derive(Clone, Debug)]
pub struct MessageRecord {
    pub account: u32,
    pub document: u32,
    pub metadata: MessageMetadata,
}

/// A document with a stored full-text search payload.
#[derive(Clone, Copy, Debug, PartialEq, Eq, Structural)]
pub struct SearchRecord {
    pub account: u32,
    pub document: u32,
}

/// What a blob descriptor points at: stored bytes, or a link to the data
/// underlying another blob (no bytes duplicated).
#[derive(Clone, Debug)]
pub enum BlobEntry {
    Stored { data: Vec<u8> },
    Linked { src: crate::types::BlobKind },
}

/// One blob known to the store.
#[derive(Clone, Debug)]
pub struct BlobRecord {
    pub kind: crate::types::BlobKind,
    pub entry: BlobEntry,
}

/// An indexed property value of a document; the families byte says which
/// index families (value lookup, bitmap) the value participates in.
#[derive(Clone, Debug)]
pub struct ValueRecord {
    pub account: u32,
    pub collection: Collection,
    pub document: u32,
    pub property: crate::types::Property,
    pub value: PropValue,
    pub families: u8,
}

/// A property value as stored in the indexes.
#[derive(Clone, Debug)]
pub enum PropValue {
    U32(u32),
    U64(u64),
    U32List(Vec<u32>),
    Keywords(Vec<String>),
}

/// Copy a byte string.
pub fn copy_bytes(v: &Vec<u8>) -> (r: Vec<u8>)
    ensures
        r@ == v@,
{
    let mut r: Vec<u8> = Vec::new();
    let mut i: usize = 0;
    while i < v.len()
        invariant
            i <= v@.len(),
            r@ == v@.subrange(0, i as int),
        decreases v@.len() - i,
    {
        r.push(v[i]);
        proof {
            assert(v@.subrange(0, i as int + 1) =~= v@.subrange(0, i as int).push(v@[i as int]));
        }
        i = i + 1;
    }
    proof {
        assert(v@.subrange(0, v@.len() as int) =~= v@);
    }
    r
}

/// Copy a list of byte strings.
pub fn copy_token_list(v: &Vec<Vec<u8>>) -> (r: Vec<Vec<u8>>)
    ensures
        r.deep_view() == v.deep_view(),
        r@.len() == v@.len(),
        forall|i: int| 0 <= i < v@.len() ==> #[trigger] r@[i]@ == v@[i]@,
{
    let mut r: Vec<Vec<u8>> = Vec::new();
    let mut i: usize = 0;
    while i < v.len()
        invariant
            i <= v@.len(),
            r@.len() == i,
            forall|j: int| 0 <= j < i ==> #[trigger] r@[j]@ == v@[j]@,
        decreases v@.len() - i,
    {
        r.push(copy_bytes(&v[i]));
        i = i + 1;
    }
    proof {
        assert(r.deep_view() =~= v.deep_view());
    }
    r
}

/// Whether two byte strings hold the same bytes.
pub fn bytes_eq(a: &Vec<u8>, b: &Vec<u8>) -> (r: bool)
    ensures
        r == (a@ == b@),
{
    if a.len() != b.len() {
        proof {
            assert(a@.len() != b@.len());
        }
        return false;
    }
    let mut i: usize = 0;
    while i < a.len()
        invariant
            i <= a@.len(),
            a@.len() == b@.len(),
            forall|j: int| 0 <= j < i ==> a@[j] == b@[j],
        decreases a@.len() - i,
    {
        if a[i] != b[i] {
            return false;
        }
        i = i + 1;
    }
    proof {
        assert(a@ =~= b@);
    }
    true
}

/// Metadata of (account, document), as of the last record written for it.
pub open spec fn metadata_of(s: Seq<MessageRecord>, account: u32, document: u32) -> Option<
    MessageMetadata,
>
    decreases s.len(),
{
    if s.len() == 0 {
        None
    } else if s.last().account == account && s.last().document == document {
        Some(s.last().metadata)
    } else {
        metadata_of(s.drop_last(), account, document)
    }
}

/// The entry of the last blob record written under a descriptor, if any.
pub open spec fn blob_of(s: Seq<BlobRecord>, kind: crate::types::BlobKind) -> Option<BlobEntry>
    decreases s.len(),
{
    if s.len() == 0 {
        None
    } else if s.last().kind == kind {
        Some(s.last().entry)
    } else {
        blob_of(s.drop_last(), kind)
    }
}

pub broadcast proof fn lemma_blob_of_push(s: Seq<BlobRecord>, r: BlobRecord, kind: crate::types::BlobKind)
    ensures
        #[trigger] blob_of(s.push(r), kind) == if r.kind == kind {
            Some(r.entry)
        } else {
            blob_of(s, kind)
        },
{
    assert(s.push(r).drop_last() =~= s);
}

/// One of a blob record toward an account's count of temporary blobs.
pub open spec fn tmp_count_one(r: BlobRecord, account: u32) -> int {
    match r.kind {
        crate::types::BlobKind::Temporary { account_id, .. } => if account_id == account {
            1
        } else {
            0
        },
        _ => 0,
    }
}

/// Bytes a blob record contributes to an account's temporary usage.
pub open spec fn tmp_bytes_one(r: BlobRecord, account: u32) -> int {
    match r.kind {
        crate::types::BlobKind::Temporary { account_id, .. } => if account_id == account {
            match r.entry {
                BlobEntry::Stored { data } => data@.len() as int,
                BlobEntry::Linked { .. } => 0,
            }
        } else {
            0
        },
        _ => 0,
    }
}

/// Number of temporary blobs an account holds.
pub open spec fn tmp_count_of(s: Seq<BlobRecord>, account: u32) -> int
    decreases s.len(),
{
    if s.len() == 0 {
        0
    } else {
        tmp_count_of(s.drop_last(), account) + tmp_count_one(s.last(), account)
    }
}

/// Bytes of temporary blob data an account holds.
pub open spec fn tmp_bytes_of(s: Seq<BlobRecord>, account: u32) -> int
    decreases s.len(),
{
    if s.len() == 0 {
        0
    } else {
        tmp_bytes_of(s.drop_last(), account) + tmp_bytes_one(s.last(), account)
    }
}

/// A value capped at what fits in 64 bits.
pub open spec fn cap_u64(x: int) -> u64 {
    if x > u64::MAX {
        u64::MAX
    } else if x < 0 {
        0
    } else {
        x as u64
    }
}

/// The opaque key/blob storage collaborator, modeled as log-structured
/// record lists: within each list the last matching record wins. Writes
/// that must be atomic go through `commit`; `fail_commits` simulates the
/// collaborator becoming unavailable.
#[derive(Debug)]
pub struct Store {
    pub docs: Vec<DocRecord>,
    pub values: Vec<ValueRecord>,
    pub messages: Vec<MessageRecord>,
    pub blobs: Vec<BlobRecord>,
    pub change_log: Vec<LogRecord>,
    pub change_counters: Vec<CounterRecord>,
    pub doc_counters: Vec<DocCounterRecord>,
    pub quotas: Vec<QuotaRecord>,
    pub thread_index: Vec<ThreadEntry>,
    pub search_index: Vec<SearchRecord>,
    pub tmp_blob_seq: u32,
    pub fail_commits: bool,
}

impl Store {
    /// Every committed change id has been allocated: none exceeds its
    /// account's change-id counter.
    pub open spec fn wf(&self) -> bool {
        forall|i: int|
            0 <= i < self.change_log@.len() ==> (#[trigger] self.change_log@[i]).change_id
                <= counter_of(self.change_counters@, self.change_log@[i].account)
    }

    pub fn new() -> (r: Store)
        ensures
            r.docs@.len() == 0,
            r.values@.len() == 0,
            r.messages@.len() == 0,
            r.blobs@.len() == 0,
            r.change_log@.len() == 0,
            r.change_counters@.len() == 0,
            r.doc_counters@.len() == 0,
            r.quotas@.len() == 0,
            r.thread_index@.len() == 0,
            r.search_index@.len() == 0,
            r.tmp_blob_seq == 0,
            !r.fail_commits,
            r.wf(),
    {
        Store {
            docs: Vec::new(),
            values: Vec::new(),
            messages: Vec::new(),
            blobs: Vec::new(),
            change_log: Vec::new(),
            change_counters: Vec::new(),
            doc_counters: Vec::new(),
            quotas: Vec::new(),
            thread_index: Vec::new(),
            search_index: Vec::new(),
            tmp_blob_seq: 0,
            fail_commits: false,
        }
    }

    /// Latest synchronization state visible for (account, collection):
    /// only durably committed changes are reflected here.
    pub fn get_state(&self, account: u32, collection: Collection) -> (r: State)
        ensures
            r == state_of(self.change_log@, account, collection),
    {
        let mut i: usize = self.change_log.len();
        proof {
            assert(self.change_log@.subrange(0, i as int) =~= self.change_log@);
        }
        while i > 0
            invariant
                i <= self.change_log@.len(),
                state_of(self.change_log@, account, collection) == state_of(
                    self.change_log@.subrange(0, i as int),
                    account,
                    collection,
                ),
            decreases i,
        {
            i = i - 1;
            let r = self.change_log[i];
            proof {
                assert(self.change_log@.subrange(0, i as int + 1).last() == self.change_log@[i as int]);
                assert(self.change_log@.subrange(0, i as int + 1).drop_last() =~= self.change_log@
                    .subrange(0, i as int));
            }
            if r.account == account && r.collection == collection {
                return State::Exact(r.change_id);
            }
        }
        State::Initial
    }

    /// Current change-id counter of an account.
    pub fn change_counter(&self, account: u32) -> (r: u64)
        ensures
            r == counter_of(self.change_counters@, account),
    {
        let mut i: usize = self.change_counters.len();
        proof {
            assert(self.change_counters@.subrange(0, i as int) =~= self.change_counters@);
        }
        while i > 0
            invariant
                i <= self.change_counters@.len(),
                counter_of(self.change_counters@, account) == counter_of(
                    self.change_counters@.subrange(0, i as int),
                    account,
                ),
            decreases i,
        {
            i = i - 1;
            let r = self.change_counters[i];
            proof {
                assert(self.change_counters@.subrange(0, i as int + 1).last()
                    == self.change_counters@[i as int]);
                assert(self.change_counters@.subrange(0, i as int + 1).drop_last()
                    =~= self.change_counters@.subrange(0, i as int));
            }
            if r.account == account {
                return r.value;
            }
        }
        0
    }

    /// Bytes of message data currently charged against an account.
    pub fn get_used_quota(&self, account: u32) -> (r: u64)
        ensures
            r == used_of(self.quotas@, account),
    {
        let mut i: usize = self.quotas.len();
        proof {
            assert(self.quotas@.subrange(0, i as int) =~= self.quotas@);
        }
        while i > 0
            invariant
                i <= self.quotas@.len(),
                used_of(self.quotas@, account) == used_of(
                    self.quotas@.subrange(0, i as int),
                    account,
                ),
            decreases i,
        {
            i = i - 1;
            let r = self.quotas[i];
            proof {
                assert(self.quotas@.subrange(0, i as int + 1).last() == self.quotas@[i as int]);
                assert(self.quotas@.subrange(0, i as int + 1).drop_last() =~= self.quotas@.subrange(
                    0,
                    i as int,
                ));
            }
            if r.account == account {
                return r.used;
            }
        }
        0
    }

    /// Whether (account, collection, document) exists.
    #[verifier::loop_isolation(false)]
    pub fn doc_exists(&self, account: u32, collection: Collection, document: u32) -> (r: bool)
        ensures
            r == self.docs@.contains(DocRecord { account, collection, document }),
    {
        let rec = DocRecord { account, collection, document };
        let mut i: usize = 0;
        while i < self.docs.len()
            invariant
                i <= self.docs@.len(),
                forall|j: int| 0 <= j < i ==> self.docs@[j] != rec,
            decreases self.docs@.len() - i,
        {
            if self.docs[i] == rec {
                proof {
                    assert(self.docs@[i as int] == rec);
                    assert(self.docs@.contains(rec));
                }
                return true;
            }
            i = i + 1;
        }
        false
    }

    /// Whether a full-text search payload is stored for (account, document).
    #[verifier::loop_isolation(false)]
    pub fn has_search_index(&self, account: u32, document: u32) -> (r: bool)
        ensures
            r == self.search_index@.contains(SearchRecord { account, document }),
    {
        let rec = SearchRecord { account, document };
        let mut i: usize = 0;
        while i < self.search_index.len()
            invariant
                i <= self.search_index@.len(),
                forall|j: int| 0 <= j < i ==> self.search_index@[j] != rec,
            decreases self.search_index@.len() - i,
        {
            if self.search_index[i] == rec {
                proof {
                    assert(self.search_index@[i as int] == rec);
                    assert(self.search_index@.contains(rec));
                }
                return true;
            }
            i = i + 1;
        }
        false
    }

    /// Copy of the metadata stored for (account, document), if any.
    pub fn get_message_metadata(&self, account: u32, document: u32) -> (r: Option<MessageMetadata>)
        ensures
            r is Some <==> metadata_of(self.messages@, account, document) is Some,
            r matches Some(m) ==> {
                let s = metadata_of(self.messages@, account, document)->0;
                &&& m.size == s.size
                &&& m.subject@ == s.subject@
                &&& m.references.deep_view() == s.references.deep_view()
                &&& m.received_at == s.received_at
            },
    {
        let mut i: usize = self.messages.len();
        proof {
            assert(self.messages@.subrange(0, i as int) =~= self.messages@);
        }
        while i > 0
            invariant
                i <= self.messages@.len(),
                metadata_of(self.messages@, account, document) == metadata_of(
                    self.messages@.subrange(0, i as int),
                    account,
                    document,
                ),
            decreases i,
        {
            i = i - 1;
            proof {
                assert(self.messages@.subrange(0, i as int + 1).last() == self.messages@[i as int]);
                assert(self.messages@.subrange(0, i as int + 1).drop_last() =~= self.messages@
                    .subrange(0, i as int));
            }
            if self.messages[i].account == account && self.messages[i].document == document {
                return Some(self.messages[i].metadata.duplicate());
            }
        }
        None
    }

    /// Allocate the next change id of an account and hand back the
    /// collector all of this mutation's change-log entries go through.
    /// Fails only when the id counter is exhausted.
    pub fn begin_changes(&mut self, account: u32) -> (r: Result<Changes, crate::types::MethodError>)
        ensures
            counter_of(old(self).change_counters@, account) == u64::MAX ==> r is Err && *final(self)
                == *old(self),
            counter_of(old(self).change_counters@, account) < u64::MAX ==> {
                &&& r matches Ok(ch)
                &&& ch.account_id == account
                &&& ch.change_id == counter_of(old(self).change_counters@, account) + 1
                &&& ch.entries@.len() == 0
                &&& counter_of(final(self).change_counters@, account) == ch.change_id
                &&& forall|a: u32|
                    a != account ==> counter_of(final(self).change_counters@, a) == counter_of(
                        old(self).change_counters@,
                        a,
                    )
                &&& old(self).wf() ==> forall|i: int|
                    0 <= i < old(self).change_log@.len() && (#[trigger] old(self).change_log@[i]).account
                        == account ==> old(self).change_log@[i].change_id < ch.change_id
            },
            r is Err <==> counter_of(old(self).change_counters@, account) == u64::MAX,
            final(self).docs == old(self).docs,
            final(self).values == old(self).values,
            final(self).messages == old(self).messages,
            final(self).blobs == old(self).blobs,
            final(self).change_log == old(self).change_log,
            final(self).doc_counters == old(self).doc_counters,
            final(self).quotas == old(self).quotas,
            final(self).thread_index == old(self).thread_index,
            final(self).search_index == old(self).search_index,
            final(self).tmp_blob_seq == old(self).tmp_blob_seq,
            final(self).fail_commits == old(self).fail_commits,
            old(self).wf() ==> final(self).wf(),
    {
        broadcast use lemma_counter_of_push;

        let c = self.change_counter(account);
        if c == u64::MAX {
            return Err(crate::types::MethodError::ServerPartialFail);
        }
        let next = c + 1;
        self.change_counters.push(CounterRecord { account, value: next });
        proof {
            if old(self).wf() {
                assert forall|i: int|
                    0 <= i < self.change_log@.len() implies (#[trigger] self.change_log@[i]).change_id
                    <= counter_of(self.change_counters@, self.change_log@[i].account) by {
                    let a = self.change_log@[i].account;
                    assert(self.change_log@[i].change_id <= counter_of(
                        old(self).change_counters@,
                        a,
                    ));
                }
            }
        }
        Ok(Changes { account_id: account, change_id: next, entries: Vec::new() })
    }

    /// Allocate the next document id of (account, collection). Fails only
    /// when the id space is exhausted.
    pub fn assign_document_id(&mut self, account: u32, collection: Collection) -> (r: Result<
        u32,
        crate::types::MethodError,
    >)
        ensures
            r is Err <==> doc_next_of(old(self).doc_counters@, account, collection) == u32::MAX,
            r is Err ==> *final(self) == *old(self),
            r matches Ok(d) ==> {
                &&& d == doc_next_of(old(self).doc_counters@, account, collection)
                &&& doc_next_of(final(self).doc_counters@, account, collection) == d + 1
                &&& forall|a: u32, c: Collection|
                    !(a == account && c == collection) ==> doc_next_of(
                        final(self).doc_counters@,
                        a,
                        c,
                    ) == doc_next_of(old(self).doc_counters@, a, c)
            },
            final(self).docs == old(self).docs,
            final(self).values == old(self).values,
            final(self).messages == old(self).messages,
            final(self).blobs == old(self).blobs,
            final(self).change_log == old(self).change_log,
            final(self).change_counters == old(self).change_counters,
            final(self).quotas == old(self).quotas,
            final(self).thread_index == old(self).thread_index,
            final(self).search_index == old(self).search_index,
            final(self).tmp_blob_seq == old(self).tmp_blob_seq,
            final(self).fail_commits == old(self).fail_commits,
            old(self).wf() ==> final(self).wf(),
    {
        broadcast use lemma_doc_next_of_push;

        let mut i: usize = self.doc_counters.len();
        let mut cur: u32 = 0;
        let mut found: bool = false;
        proof {
            assert(self.doc_counters@.subrange(0, i as int) =~= self.doc_counters@);
        }
        while i > 0 && !found
            invariant
                i <= self.doc_counters@.len(),
                !found ==> doc_next_of(self.doc_counters@, account, collection) == doc_next_of(
                    self.doc_counters@.subrange(0, i as int),
                    account,
                    collection,
                ),
                found ==> cur == doc_next_of(self.doc_counters@, account, collection),
            decreases i,
        {
            i = i - 1;
            proof {
                assert(self.doc_counters@.subrange(0, i as int + 1).last()
                    == self.doc_counters@[i as int]);
                assert(self.doc_counters@.subrange(0, i as int + 1).drop_last()
                    =~= self.doc_counters@.subrange(0, i as int));
            }
            let r = self.doc_counters[i];
            if r.account == account && r.collection == collection {
                cur = r.next;
                found = true;
            }
        }
        if !found {
            cur = 0;
        }
        if cur == u32::MAX {
            return Err(crate::types::MethodError::ServerPartialFail);
        }
        self.doc_counters.push(DocCounterRecord { account, collection, next: cur + 1 });
        Ok(cur)
    }
}

/// One document operation of a batch.
#[derive(Clone, Copy, Debug, PartialEq, Eq, Structural)]
pub enum DocumentOp {
    Create { collection: Collection, document: u32 },
    Delete { collection: Collection, document: u32 },
}

/// One indexed property value carried by a batch.
#[derive(Clone, Debug)]
pub struct BatchValue {
    pub collection: Collection,
    pub document: u32,
    pub property: crate::types::Property,
    pub value: PropValue,
    pub families: u8,
}

/// Reference tokens of a newly stored message, all pointing at its thread.
#[derive(Clone, Debug)]
pub struct ThreadTokens {
    pub thread: u32,
    pub tokens: Vec<Vec<u8>>,
}

/// Metadata payload of a newly stored message.
#[derive(Clone, Debug)]
pub struct EmailIndexPayload {
    pub document: u32,
    pub metadata: MessageMetadata,
}

/// A batch: every operation it carries becomes durable together, or none
/// does. Scoped to one account; carries at most one change-log payload and
/// at most one search-index payload.
#[derive(Debug)]
pub struct Batch {
    pub account_id: u32,
    pub ops: Vec<DocumentOp>,
    pub values: Vec<BatchValue>,
    pub changes: Option<Changes>,
    pub email_index: Option<EmailIndexPayload>,
    pub search_index: Option<u32>,
    pub thread_tokens: Option<ThreadTokens>,
}

/// Effect of one document operation on the document list.
pub open spec fn apply_doc_op(docs: Seq<DocRecord>, account: u32, op: DocumentOp) -> Seq<
    DocRecord,
> {
    match op {
        DocumentOp::Create { collection, document } => docs.push(
            DocRecord { account, collection, document },
        ),
        DocumentOp::Delete { collection, document } => docs.filter(
            |d: DocRecord| d != (DocRecord { account, collection, document }),
        ),
    }
}

/// Effect of a batch's document operations, applied in order.
pub open spec fn apply_doc_ops(docs: Seq<DocRecord>, account: u32, ops: Seq<DocumentOp>) -> Seq<
    DocRecord,
>
    decreases ops.len(),
{
    if ops.len() == 0 {
        docs
    } else {
        apply_doc_op(apply_doc_ops(docs, account, ops.drop_last()), account, ops.last())
    }
}

/// The value record a batch value becomes for the batch's account.
pub open spec fn record_of_value(account: u32, bv: BatchValue) -> ValueRecord {
    ValueRecord {
        account,
        collection: bv.collection,
        document: bv.document,
        property: bv.property,
        value: bv.value,
        families: bv.families,
    }
}

/// The log records a batch's change payload commits; all share one change id.
pub open spec fn change_records_of(batch: Batch) -> Seq<LogRecord> {
    match batch.changes {
        None => Seq::empty(),
        Some(ch) => ch.entries@.map_values(
            |e: ChangeEntry| LogRecord {
                account: ch.account_id,
                change_id: ch.change_id,
                collection: e.collection,
                document: e.document,
                kind: e.kind,
            },
        ),
    }
}

/// The message records a batch's metadata payload commits.
pub open spec fn email_records_of(batch: Batch) -> Seq<MessageRecord> {
    match batch.email_index {
        None => Seq::empty(),
        Some(p) => seq![
            MessageRecord { account: batch.account_id, document: p.document, metadata: p.metadata },
        ],
    }
}

/// The search-index records a batch commits.
pub open spec fn search_records_of(batch: Batch) -> Seq<SearchRecord> {
    match batch.search_index {
        None => Seq::empty(),
        Some(d) => seq![SearchRecord { account: batch.account_id, document: d }],
    }
}

/// The thread-index entries a batch commits.
pub open spec fn thread_entries_of(batch: Batch) -> Seq<ThreadEntry> {
    match batch.thread_tokens {
        None => Seq::empty(),
        Some(tt) => tt.tokens@.map_values(
            |t: Vec<u8>| ThreadEntry { account: batch.account_id, token: t, thread: tt.thread },
        ),
    }
}

/// Remove every record equal to `rec`.
fn remove_doc_records(v: &mut Vec<DocRecord>, rec: DocRecord)
    ensures
        final(v)@ == old(v)@.filter(|d: DocRecord| d != rec),
{
    let ghost p = |d: DocRecord| d != rec;
    let mut out: Vec<DocRecord> = Vec::new();
    let mut i: usize = 0;
    proof {
        assert(v@.subrange(0, 0) =~= Seq::<DocRecord>::empty());
        v@.subrange(0, 0).lemma_all_neg_filter_empty(p);
        assert(out@ =~= v@.subrange(0, 0).filter(p));
    }
    while i < v.len()
        invariant
            i <= v@.len(),
            out@ == v@.subrange(0, i as int).filter(p),
            p == (|d: DocRecord| d != rec),
        decreases v@.len() - i,
    {
        let d = v[i];
        proof {
            assert(v@.subrange(0, i as int + 1) =~= v@.subrange(0, i as int).push(v@[i as int]));
            v@.subrange(0, i as int).lemma_filter_push(v@[i as int], p);
        }
        if !(d == rec) {
            out.push(d);
        }
        i = i + 1;
    }
    proof {
        assert(v@.subrange(0, v@.len() as int) =~= v@);
    }
    *v = out;
}

impl Store {
    /// Atomically apply a batch. The whole batch becomes durable and
    /// visible on success; when the storage collaborator is failing, the
    /// store is left exactly as it was — no partial application.
    ///
    /// The change payload, if any, must carry the batch's account and a
    /// change id that was allocated (not above the account's counter) and
    /// is newer than every committed change of that account.
    #[verifier::loop_isolation(false)]
    pub fn commit(&mut self, batch: Batch) -> (r: Result<(), StoreError>)
        requires
            batch.changes matches Some(ch) ==> {
                &&& ch.account_id == batch.account_id
                &&& ch.change_id <= counter_of(old(self).change_counters@, batch.account_id)
                &&& forall|i: int|
                    0 <= i < old(self).change_log@.len() && (#[trigger] old(
                        self,
                    ).change_log@[i]).account == batch.account_id ==> old(
                        self,
                    ).change_log@[i].change_id < ch.change_id
            },
        ensures
            r is Err <==> old(self).fail_commits,
            r is Err ==> *final(self) == *old(self),
            r is Ok ==> final(self).docs@ == apply_doc_ops(
                old(self).docs@,
                batch.account_id,
                batch.ops@,
            ),
            r is Ok ==> final(self).values@ == old(self).values@ + batch.values@.map_values(
                |bv: BatchValue| record_of_value(batch.account_id, bv),
            ),
            r is Ok ==> final(self).change_log@ == old(self).change_log@ + change_records_of(batch),
            r is Ok ==> final(self).messages@ == old(self).messages@ + email_records_of(batch),
            r is Ok ==> final(self).search_index@ == old(self).search_index@ + search_records_of(
                batch,
            ),
            r is Ok ==> final(self).thread_index@ == old(self).thread_index@ + thread_entries_of(
                batch,
            ),
            r is Ok ==> (batch.email_index matches Some(p) ==> used_of(
                final(self).quotas@,
                batch.account_id,
            ) == cap_u64(used_of(old(self).quotas@, batch.account_id) + p.metadata.size)),
            r is Ok ==> (batch.email_index matches Some(p) ==> forall|a: u32|
                a != batch.account_id ==> used_of(final(self).quotas@, a) == used_of(
                    old(self).quotas@,
                    a,
                )),
            r is Ok ==> (batch.email_index is None ==> final(self).quotas == old(self).quotas),
            final(self).blobs == old(self).blobs,
            final(self).change_counters == old(self).change_counters,
            final(self).doc_counters == old(self).doc_counters,
            final(self).tmp_blob_seq == old(self).tmp_blob_seq,
            final(self).fail_commits == old(self).fail_commits,
            old(self).wf() ==> final(self).wf(),
    {
        broadcast use lemma_used_of_push;

        if self.fail_commits {
            return Err(StoreError::Unavailable);
        }
        let Batch { account_id, ops, mut values, changes, email_index, search_index, thread_tokens } =
            batch;

        // Document creates and deletes, in order.
        let mut docs: Vec<DocRecord> = Vec::new();
        core::mem::swap(&mut docs, &mut self.docs);
        let ghost docs0 = docs@;
        let mut k: usize = 0;
        while k < ops.len()
            invariant
                k <= ops@.len(),
                docs@ == apply_doc_ops(docs0, account_id, ops@.subrange(0, k as int)),
                self.values == old(self).values,
                self.messages == old(self).messages,
                self.blobs == old(self).blobs,
                self.change_log == old(self).change_log,
                self.change_counters == old(self).change_counters,
                self.doc_counters == old(self).doc_counters,
                self.quotas == old(self).quotas,
                self.thread_index == old(self).thread_index,
                self.search_index == old(self).search_index,
                self.tmp_blob_seq == old(self).tmp_blob_seq,
                self.fail_commits == old(self).fail_commits,
            decreases ops@.len() - k,
        {
            proof {
                assert(ops@.subrange(0, k as int + 1).drop_last() =~= ops@.subrange(0, k as int));
                assert(ops@.subrange(0, k as int + 1).last() == ops@[k as int]);
            }
            match ops[k] {
                DocumentOp::Create { collection, document } => {
                    docs.push(DocRecord { account: account_id, collection, document });
                },
                DocumentOp::Delete { collection, document } => {
                    remove_doc_records(
                        &mut docs,
                        DocRecord { account: account_id, collection, document },
                    );
                },
            }
            k = k + 1;
        }
        proof {
            assert(ops@.subrange(0, ops@.len() as int) =~= ops@);
        }
        self.docs = docs;

        // Indexed property values.
        let ghost fv = |bv: BatchValue| record_of_value(account_id, bv);
        let ghost vs0 = values@;
        proof {
            assert(vs0.subrange(0, 0).map_values(fv) =~= Seq::<ValueRecord>::empty());
            assert(self.values@ =~= old(self).values@ + vs0.subrange(0, 0).map_values(fv));
        }
        while values.len() > 0
            invariant
                values@.len() <= vs0.len(),
                vs0.subrange(vs0.len() - values@.len(), vs0.len() as int) == values@,
                self.values@ == old(self).values@ + vs0.subrange(
                    0,
                    vs0.len() - values@.len(),
                ).map_values(fv),
                fv == (|bv: BatchValue| record_of_value(account_id, bv)),
                self.docs@ == apply_doc_ops(old(self).docs@, account_id, ops@),
                self.messages == old(self).messages,
                self.blobs == old(self).blobs,
                self.change_log == old(self).change_log,
                self.change_counters == old(self).change_counters,
                self.doc_counters == old(self).doc_counters,
                self.quotas == old(self).quotas,
                self.thread_index == old(self).thread_index,
                self.search_index == old(self).search_index,
                self.tmp_blob_seq == old(self).tmp_blob_seq,
                self.fail_commits == old(self).fail_commits,
            decreases values@.len(),
        {
            let ghost j = vs0.len() - values@.len();
            proof {
                assert(values@[0] == vs0.subrange(j, vs0.len() as int)[0]);
            }
            let bv = values.remove(0);
            proof {
                assert(vs0.subrange(j + 1, vs0.len() as int) =~= values@);
                assert(vs0.subrange(0, j + 1) =~= vs0.subrange(0, j).push(vs0[j]));
                vs0.subrange(0, j).lemma_push_map_commute(fv, vs0[j]);
                assert((old(self).values@ + vs0.subrange(0, j).map_values(fv)).push(fv(vs0[j]))
                    =~= old(self).values@ + vs0.subrange(0, j).map_values(fv).push(fv(vs0[j])));
            }
            self.values.push(
                ValueRecord {
                    account: account_id,
                    collection: bv.collection,
                    document: bv.document,
                    property: bv.property,
                    value: bv.value,
                    families: bv.families,
                },
            );
        }
        proof {
            assert(vs0.subrange(0, vs0.len() as int) =~= vs0);
            assert(self.values@ == old(self).values@ + batch.values@.map_values(
                |bv: BatchValue| record_of_value(batch.account_id, bv),
            ));
        }

        // Change-log payload: all records share the payload's change id.
        if let Some(ch) = changes {
            let Changes { account_id: ch_account, change_id, mut entries } = ch;
            let ghost fe = |e: ChangeEntry| LogRecord {
                account: ch_account,
                change_id,
                collection: e.collection,
                document: e.document,
                kind: e.kind,
            };
            let ghost es0 = entries@;
            proof {
                assert(es0.subrange(0, 0).map_values(fe) =~= Seq::<LogRecord>::empty());
                assert(self.change_log@ =~= old(self).change_log@ + es0.subrange(0, 0).map_values(
                    fe,
                ));
            }
            while entries.len() > 0
                invariant
                    entries@.len() <= es0.len(),
                    es0.subrange(es0.len() - entries@.len(), es0.len() as int) == entries@,
                    self.change_log@ == old(self).change_log@ + es0.subrange(
                        0,
                        es0.len() - entries@.len(),
                    ).map_values(fe),
                    fe == (|e: ChangeEntry| LogRecord {
                        account: ch_account,
                        change_id,
                        collection: e.collection,
                        document: e.document,
                        kind: e.kind,
                    }),
                    self.docs@ == apply_doc_ops(old(self).docs@, account_id, ops@),
                    self.values@ == old(self).values@ + batch.values@.map_values(
                        |bv: BatchValue| record_of_value(batch.account_id, bv),
                    ),
                    self.messages == old(self).messages,
                    self.blobs == old(self).blobs,
                    self.change_counters == old(self).change_counters,
                    self.doc_counters == old(self).doc_counters,
                    self.quotas == old(self).quotas,
                    self.thread_index == old(self).thread_index,
                    self.search_index == old(self).search_index,
                    self.tmp_blob_seq == old(self).tmp_blob_seq,
                    self.fail_commits == old(self).fail_commits,
                decreases entries@.len(),
            {
                let ghost j = es0.len() - entries@.len();
                proof {
                    assert(entries@[0] == es0.subrange(j, es0.len() as int)[0]);
                }
                let e = entries.remove(0);
                proof {
                    assert(es0.subrange(j + 1, es0.len() as int) =~= entries@);
                    assert(es0.subrange(0, j + 1) =~= es0.subrange(0, j).push(es0[j]));
                    es0.subrange(0, j).lemma_push_map_commute(fe, es0[j]);
                    assert((old(self).change_log@ + es0.subrange(0, j).map_values(fe)).push(
                        fe(es0[j]),
                    ) =~= old(self).change_log@ + es0.subrange(0, j).map_values(fe).push(
                        fe(es0[j]),
                    ));
                }
                self.change_log.push(
                    LogRecord {
                        account: ch_account,
                        change_id,
                        collection: e.collection,
                        document: e.document,
                        kind: e.kind,
                    },
                );
            }
            proof {
                assert(es0.subrange(0, es0.len() as int) =~= es0);
                assert(self.change_log@ == old(self).change_log@ + change_records_of(batch));
            }
        }
        proof {
            assert(self.change_log@ == old(self).change_log@ + change_records_of(batch));
        }

        // Message metadata payload, charged against the account's quota.
        if let Some(p) = email_index {
            let used = self.get_used_quota(account_id);
            let new_used: u64 = if p.metadata.size > u64::MAX - used {
                u64::MAX
            } else {
                used + p.metadata.size
            };
            self.quotas.push(QuotaRecord { account: account_id, used: new_used });
            self.messages.push(
                MessageRecord { account: account_id, document: p.document, metadata: p.metadata },
            );
        }
        proof {
            assert(self.messages@ =~= old(self).messages@ + email_records_of(batch));
        }

        // Search-index payload.
        if let Some(d) = search_index {
            self.search_index.push(SearchRecord { account: account_id, document: d });
        }
        proof {
            assert(self.search_index@ =~= old(self).search_index@ + search_records_of(batch));
        }

        // Thread-index entries of the new message's reference tokens.
        if let Some(tt) = thread_tokens {
            let ThreadTokens { thread, mut tokens } = tt;
            let ghost ft = |t: Vec<u8>| ThreadEntry { account: account_id, token: t, thread };
            let ghost ts0 = tokens@;
            proof {
                assert(ts0.subrange(0, 0).map_values(ft) =~= Seq::<ThreadEntry>::empty());
                assert(self.thread_index@ =~= old(self).thread_index@ + ts0.subrange(
                    0,
                    0,
                ).map_values(ft));
            }
            while tokens.len() > 0
                invariant
                    tokens@.len() <= ts0.len(),
                    ts0.subrange(ts0.len() - tokens@.len(), ts0.len() as int) == tokens@,
                    self.thread_index@ == old(self).thread_index@ + ts0.subrange(
                        0,
                        ts0.len() - tokens@.len(),
                    ).map_values(ft),
                    ft == (|t: Vec<u8>| ThreadEntry { account: account_id, token: t, thread }),
                    self.docs@ == apply_doc_ops(old(self).docs@, account_id, ops@),
                    self.values@ == old(self).values@ + batch.values@.map_values(
                        |bv: BatchValue| record_of_value(batch.account_id, bv),
                    ),
                    self.change_log@ == old(self).change_log@ + change_records_of(batch),
                    self.messages@ == old(self).messages@ + email_records_of(batch),
                    self.search_index@ == old(self).search_index@ + search_records_of(batch),
                    batch.email_index matches Some(p) ==> used_of(self.quotas@, account_id)
                        == cap_u64(used_of(old(self).quotas@, account_id) + p.metadata.size),
                    batch.email_index matches Some(p) ==> forall|a: u32|
                        a != account_id ==> used_of(self.quotas@, a) == used_of(
                            old(self).quotas@,
                            a,
                        ),
                    batch.email_index is None ==> self.quotas == old(self).quotas,
                    self.blobs == old(self).blobs,
                    self.change_counters == old(self).change_counters,
                    self.doc_counters == old(self).doc_counters,
                    self.tmp_blob_seq == old(self).tmp_blob_seq,
                    self.fail_commits == old(self).fail_commits,
                decreases tokens@.len(),
            {
                let ghost j = ts0.len() - tokens@.len();
                proof {
                    assert(tokens@[0] == ts0.subrange(j, ts0.len() as int)[0]);
                }
                let t = tokens.remove(0);
                proof {
                    assert(ts0.subrange(j + 1, ts0.len() as int) =~= tokens@);
                    assert(ts0.subrange(0, j + 1) =~= ts0.subrange(0, j).push(ts0[j]));
                    ts0.subrange(0, j).lemma_push_map_commute(ft, ts0[j]);
                    assert((old(self).thread_index@ + ts0.subrange(0, j).map_values(ft)).push(
                        ft(ts0[j]),
                    ) =~= old(self).thread_index@ + ts0.subrange(0, j).map_values(ft).push(
                        ft(ts0[j]),
                    ));
                }
                self.thread_index.push(ThreadEntry { account: account_id, token: t, thread });
            }
            proof {
                assert(ts0.subrange(0, ts0.len() as int) =~= ts0);
                assert(self.thread_index@ == old(self).thread_index@ + thread_entries_of(batch));
            }
        }
        proof {
            assert(self.thread_index@ == old(self).thread_index@ + thread_entries_of(batch));
            if old(self).wf() {
                assert forall|i: int|
                    0 <= i < self.change_log@.len() implies (#[trigger] self.change_log@[i]).change_id
                    <= counter_of(self.change_counters@, self.change_log@[i].account) by {
                    if i < old(self).change_log@.len() {
                        assert(self.change_log@[i] == old(self).change_log@[i]);
                    } else {
                        let ch = batch.changes->0;
                        assert(change_records_of(batch).len() > 0);
                        assert(self.change_log@[i] == change_records_of(batch)[i - old(
                            self,
                        ).change_log@.len()]);
                        assert(self.change_log@[i].change_id == ch.change_id);
                        assert(self.change_log@[i].account == ch.account_id);
                    }
                }
            }
        }
        Ok(())
    }

    /// Count and bytes of an account's temporary (in-flight) blobs,
    /// recomputed freshly from what is stored — never cached.
    #[verifier::loop_isolation(false)]
    pub fn get_tmp_blob_usage(&self, account: u32) -> (r: (u64, u64))
        ensures
            r.0 == tmp_count_of(self.blobs@, account),
            r.1 == cap_u64(tmp_bytes_of(self.blobs@, account)),
    {
        let mut count: u64 = 0;
        let mut bytes: u64 = 0;
        let mut i: usize = 0;
        proof {
            assert(self.blobs@.subrange(0, 0) =~= Seq::<BlobRecord>::empty());
        }
        while i < self.blobs.len()
            invariant
                i <= self.blobs@.len(),
                count == tmp_count_of(self.blobs@.subrange(0, i as int), account),
                count <= i,
                bytes == cap_u64(tmp_bytes_of(self.blobs@.subrange(0, i as int), account)),
            decreases self.blobs@.len() - i,
        {
            proof {
                assert(self.blobs@.subrange(0, i as int + 1).drop_last() =~= self.blobs@.subrange(
                    0,
                    i as int,
                ));
                assert(self.blobs@.subrange(0, i as int + 1).last() == self.blobs@[i as int]);
                assert(tmp_bytes_of(self.blobs@.subrange(0, i as int), account) >= 0) by {
                    lemma_tmp_nonneg(self.blobs@.subrange(0, i as int), account);
                }
            }
            let b = &self.blobs[i];
            let is_tmp: bool = match b.kind {
                crate::types::BlobKind::Temporary { account_id, .. } => account_id == account,
                _ => false,
            };
            if is_tmp {
                count = count + 1;
                match &b.entry {
                    BlobEntry::Stored { data } => {
                        let n: u64 = data.len() as u64;
                        if n > u64::MAX - bytes {
                            bytes = u64::MAX;
                        } else {
                            bytes = bytes + n;
                        }
                    },
                    BlobEntry::Linked { .. } => {},
                }
            }
            i = i + 1;
        }
        proof {
            assert(self.blobs@.subrange(0, self.blobs@.len() as int) =~= self.blobs@);
        }
        (count, bytes)
    }

    /// Store bytes under a blob descriptor. No other part of the store is
    /// touched; fails exactly when the collaborator is failing.
    pub fn put_blob(&mut self, kind: crate::types::BlobKind, data: &[u8]) -> (r: Result<
        (),
        StoreError,
    >)
        ensures
            r is Err <==> old(self).fail_commits,
            r is Err ==> *final(self) == *old(self),
            r is Ok ==> {
                &&& final(self).blobs@.len() == old(self).blobs@.len() + 1
                &&& forall|i: int|
                    0 <= i < old(self).blobs@.len() ==> final(self).blobs@[i] == old(self).blobs@[i]
                &&& final(self).blobs@.last().kind == kind
                &&& final(self).blobs@.last().entry matches BlobEntry::Stored { data: d } && d@
                    == data@
                &&& blob_of(final(self).blobs@, kind) is Some
                &&& forall|k: crate::types::BlobKind|
                    k != kind ==> blob_of(final(self).blobs@, k) == blob_of(old(self).blobs@, k)
                &&& forall|a: u32|
                    tmp_count_of(final(self).blobs@, a) == tmp_count_of(old(self).blobs@, a)
                        + tmp_count_one(final(self).blobs@.last(), a)
                &&& forall|a: u32|
                    tmp_bytes_of(final(self).blobs@, a) == tmp_bytes_of(old(self).blobs@, a)
                        + tmp_bytes_one(final(self).blobs@.last(), a)
            },
            final(self).docs == old(self).docs,
            final(self).values == old(self).values,
            final(self).messages == old(self).messages,
            final(self).change_log == old(self).change_log,
            final(self).change_counters == old(self).change_counters,
            final(self).doc_counters == old(self).doc_counters,
            final(self).quotas == old(self).quotas,
            final(self).thread_index == old(self).thread_index,
            final(self).search_index == old(self).search_index,
            final(self).tmp_blob_seq == old(self).tmp_blob_seq,
            final(self).fail_commits == old(self).fail_commits,
    {
        broadcast use lemma_blob_of_push;

        if self.fail_commits {
            return Err(StoreError::Unavailable);
        }
        let rec = BlobRecord {
            kind,
            entry: BlobEntry::Stored { data: vstd::slice::slice_to_vec(data) },
        };
        proof {
            lemma_tmp_of_push(self.blobs@, rec);
        }
        self.blobs.push(rec);
        Ok(())
    }

    /// Link a new blob descriptor to the data underlying an existing one;
    /// no bytes are duplicated. Fails when the collaborator is failing or
    /// the source blob does not exist.
    pub fn copy_blob(&mut self, src: crate::types::BlobKind, dst: crate::types::BlobKind) -> (r:
        Result<(), StoreError>)
        ensures
            r is Err <==> old(self).fail_commits || blob_of(old(self).blobs@, src) is None,
            r is Err ==> *final(self) == *old(self),
            r is Ok ==> final(self).blobs@ == old(self).blobs@.push(
                BlobRecord { kind: dst, entry: BlobEntry::Linked { src } },
            ),
            final(self).docs == old(self).docs,
            final(self).values == old(self).values,
            final(self).messages == old(self).messages,
            final(self).change_log == old(self).change_log,
            final(self).change_counters == old(self).change_counters,
            final(self).doc_counters == old(self).doc_counters,
            final(self).quotas == old(self).quotas,
            final(self).thread_index == old(self).thread_index,
            final(self).search_index == old(self).search_index,
            final(self).tmp_blob_seq == old(self).tmp_blob_seq,
            final(self).fail_commits == old(self).fail_commits,
    {
        if self.fail_commits {
            return Err(StoreError::Unavailable);
        }
        if !self.blob_exists_inner(src) {
            return Err(StoreError::Unavailable);
        }
        self.blobs.push(BlobRecord { kind: dst, entry: BlobEntry::Linked { src } });
        Ok(())
    }

    /// Whether a blob record exists under a descriptor.
    #[verifier::loop_isolation(false)]
    fn blob_exists_inner(&self, kind: crate::types::BlobKind) -> (r: bool)
        ensures
            r == (blob_of(self.blobs@, kind) is Some),
    {
        let mut i: usize = self.blobs.len();
        proof {
            assert(self.blobs@.subrange(0, i as int) =~= self.blobs@);
        }
        while i > 0
            invariant
                i <= self.blobs@.len(),
                blob_of(self.blobs@, kind) is Some <==> blob_of(
                    self.blobs@.subrange(0, i as int),
                    kind,
                ) is Some,
            decreases i,
        {
            i = i - 1;
            proof {
                assert(self.blobs@.subrange(0, i as int + 1).last() == self.blobs@[i as int]);
                assert(self.blobs@.subrange(0, i as int + 1).drop_last() =~= self.blobs@.subrange(
                    0,
                    i as int,
                ));
            }
            if self.blobs[i].kind == kind {
                return true;
            }
        }
        false
    }

    /// Delete every blob record under a descriptor; reports whether one
    /// existed. Fails exactly when the collaborator is failing.
    #[verifier::loop_isolation(false)]
    pub fn delete_blob(&mut self, kind: crate::types::BlobKind) -> (r: Result<bool, StoreError>)
        ensures
            r is Err <==> old(self).fail_commits,
            r is Err ==> *final(self) == *old(self),
            r matches Ok(existed) ==> {
                &&& existed == (blob_of(old(self).blobs@, kind) is Some)
                &&& final(self).blobs@ == old(self).blobs@.filter(
                    |b: BlobRecord| b.kind != kind,
                )
            },
            final(self).docs == old(self).docs,
            final(self).values == old(self).values,
            final(self).messages == old(self).messages,
            final(self).change_log == old(self).change_log,
            final(self).change_counters == old(self).change_counters,
            final(self).doc_counters == old(self).doc_counters,
            final(self).quotas == old(self).quotas,
            final(self).thread_index == old(self).thread_index,
            final(self).search_index == old(self).search_index,
            final(self).tmp_blob_seq == old(self).tmp_blob_seq,
            final(self).fail_commits == old(self).fail_commits,
    {
        if self.fail_commits {
            return Err(StoreError::Unavailable);
        }
        let existed = self.blob_exists_inner(kind);
        let ghost p = |b: BlobRecord| b.kind != kind;
        let mut out: Vec<BlobRecord> = Vec::new();
        let mut kept: Vec<BlobRecord> = Vec::new();
        core::mem::swap(&mut kept, &mut self.blobs);
        let ghost b0 = kept@;
        proof {
            assert(b0.subrange(0, 0) =~= Seq::<BlobRecord>::empty());
            b0.subrange(0, 0).lemma_all_neg_filter_empty(p);
            assert(out@ =~= b0.subrange(0, 0).filter(p));
        }
        while kept.len() > 0
            invariant
                kept@.len() <= b0.len(),
                b0.subrange(b0.len() - kept@.len(), b0.len() as int) == kept@,
                out@ == b0.subrange(0, b0.len() - kept@.len()).filter(p),
                p == (|b: BlobRecord| b.kind != kind),
            decreases kept@.len(),
        {
            let ghost j = b0.len() - kept@.len();
            proof {
                assert(kept@[0] == b0.subrange(j, b0.len() as int)[0]);
            }
            let b = kept.remove(0);
            proof {
                assert(b0.subrange(j + 1, b0.len() as int) =~= kept@);
                assert(b0.subrange(0, j + 1) =~= b0.subrange(0, j).push(b0[j]));
                b0.subrange(0, j).lemma_filter_push(b0[j], p);
            }
            if b.kind != kind {
                out.push(b);
            }
        }
        proof {
            assert(b0.subrange(0, b0.len() as int) =~= b0);
        }
        self.blobs = out;
        Ok(existed)
    }
}

/// Sums of temporary-blob usage are never negative.
pub proof fn lemma_tmp_nonneg(s: Seq<BlobRecord>, account: u32)
    ensures
        tmp_count_of(s, account) >= 0,
        tmp_bytes_of(s, account) >= 0,
    decreases s.len(),
{
    if s.len() > 0 {
        lemma_tmp_nonneg(s.drop_last(), account);
    }
}

/// Pushing a record moves temporary usage by exactly that record's share.
pub proof fn lemma_tmp_of_push(s: Seq<BlobRecord>, r: BlobRecord)
    ensures
        forall|a: u32| tmp_count_of(s.push(r), a) == tmp_count_of(s, a) + tmp_count_one(r, a),
        forall|a: u32| tmp_bytes_of(s.push(r), a) == tmp_bytes_of(s, a) + tmp_bytes_one(r, a),
{
    assert(s.push(r).drop_last() =~= s);
}

/// Law: the synchronization state of an account's collection never moves
/// backwards across a commit. Appending records whose change ids are newer
/// than everything committed for that (account, collection) leaves the
/// state's rank no smaller; and when a record for that (account,
/// collection) is among them, the rank grows strictly — the new state is
/// never equal to any state observed before the commit.
pub proof fn lemma_state_monotonic(
    log: Seq<LogRecord>,
    extra: Seq<LogRecord>,
    account: u32,
    collection: Collection,
)
    requires
        forall|i: int|
            0 <= i < extra.len() && (#[trigger] extra[i]).account == account
                && extra[i].collection == collection ==> state_of(log, account, collection).rank()
                < extra[i].change_id,
    ensures
        state_of(log + extra, account, collection).rank() >= state_of(
            log,
            account,
            collection,
        ).rank(),
        (exists|i: int|
            0 <= i < extra.len() && (#[trigger] extra[i]).account == account
                && extra[i].collection == collection) ==> state_of(
            log + extra,
            account,
            collection,
        ).rank() > state_of(log, account, collection).rank(),
    decreases extra.len(),
{
    if extra.len() == 0 {
        assert(log + extra =~= log);
    } else {
        let e = extra.last();
        assert((log + extra).drop_last() =~= log + extra.drop_last());
        assert((log + extra).last() == e);
        lemma_state_monotonic(log, extra.drop_last(), account, collection);
        if e.account == account && e.collection == collection {
            assert(state_of(log + extra, account, collection) == State::Exact(e.change_id));
        } else {
            assert(state_of(log + extra, account, collection) == state_of(
                log + extra.drop_last(),
                account,
                collection,
            ));
            if exists|i: int|
                0 <= i < extra.len() && (#[trigger] extra[i]).account == account
                    && extra[i].collection == collection {
                let i = choose|i: int|
                    0 <= i < extra.len() && (#[trigger] extra[i]).account == account
                        && extra[i].collection == collection;
                assert(extra.drop_last()[i] == extra[i]);
            }
        }
    }
}

/// An exact state's change id always comes from some record of the log.
pub proof fn lemma_state_of_from_log(log: Seq<LogRecord>, account: u32, collection: Collection)
    ensures
        state_of(log, account, collection) matches State::Exact(cid) ==> exists|i: int|
            0 <= i < log.len() && (#[trigger] log[i]).account == account && log[i].collection
                == collection && log[i].change_id == cid,
    decreases log.len(),
{
    if log.len() > 0 {
        if log.last().account == account && log.last().collection == collection {
            assert(log[log.len() - 1] == log.last());
        } else {
            lemma_state_of_from_log(log.drop_last(), account, collection);
            let st = state_of(log, account, collection);
            if st is Exact {
                let cid = st->Exact_0;
                let i = choose|i: int|
                    0 <= i < log.drop_last().len() && (#[trigger] log.drop_last()[i]).account
                        == account && log.drop_last()[i].collection == collection
                        && log.drop_last()[i].change_id == cid;
                assert(log[i] == log.drop_last()[i]);
            }
        }
    }
}

/// Law: a commit only moves synchronization state forward. Given what
/// `Store::commit` requires of a batch's change payload (a change id
/// newer than everything committed for the account) and what it ensures
/// of the log (the payload's records appended), no (account, collection)
/// state loses rank across the commit, and every collection the payload
/// touches reaches a state strictly above anything observed before it —
/// never equal to an earlier value.
pub proof fn lemma_commit_state_monotonic(pre: Store, post: Store, batch: Batch)
    requires
        batch.changes matches Some(ch) ==> {
            &&& ch.account_id == batch.account_id
            &&& forall|i: int|
                0 <= i < pre.change_log@.len() && (#[trigger] pre.change_log@[i]).account
                    == batch.account_id ==> pre.change_log@[i].change_id < ch.change_id
        },
        post.change_log@ == pre.change_log@ + change_records_of(batch),
    ensures
        forall|a: u32, c: Collection|
            state_of(post.change_log@, a, c).rank() >= (#[trigger] state_of(
                pre.change_log@,
                a,
                c,
            )).rank(),
        batch.changes matches Some(ch) ==> forall|i: int|
            0 <= i < ch.entries@.len() ==> state_of(
                post.change_log@,
                ch.account_id,
                (#[trigger] ch.entries@[i]).collection,
            ).rank() > state_of(pre.change_log@, ch.account_id, ch.entries@[i].collection).rank(),
{
    let extra = change_records_of(batch);
    assert forall|a: u32, c: Collection|
        state_of(post.change_log@, a, c).rank() >= (#[trigger] state_of(
            pre.change_log@,
            a,
            c,
        )).rank() by {
        lemma_state_of_from_log(pre.change_log@, a, c);
        lemma_state_monotonic(pre.change_log@, extra, a, c);
    }
    if batch.changes is Some {
        let ch = batch.changes->0;
        assert forall|i: int| 0 <= i < ch.entries@.len() implies state_of(
            post.change_log@,
            ch.account_id,
            (#[trigger] ch.entries@[i]).collection,
        ).rank() > state_of(pre.change_log@, ch.account_id, ch.entries@[i].collection).rank() by {
            let c = ch.entries@[i].collection;
            lemma_state_of_from_log(pre.change_log@, ch.account_id, c);
            assert(extra[i].account == ch.account_id && extra[i].collection == c);
            lemma_state_monotonic(pre.change_log@, extra, ch.account_id, c);
        }
    }
}

/// Creating documents leaves every earlier document in place and makes
/// each created one visible.
pub proof fn lemma_creates_visible(docs: Seq<DocRecord>, account: u32, ops: Seq<DocumentOp>)
    requires
        forall|i: int| 0 <= i < ops.len() ==> (#[trigger] ops[i]) is Create,
    ensures
        forall|d: DocRecord| docs.contains(d) ==> apply_doc_ops(docs, account, ops).contains(d),
        forall|i: int|
            0 <= i < ops.len() ==> apply_doc_ops(docs, account, ops).contains(
                DocRecord {
                    account,
                    collection: (#[trigger] ops[i])->Create_collection,
                    document: ops[i]->Create_document,
                },
            ),
    decreases ops.len(),
{
    if ops.len() > 0 {
        lemma_creates_visible(docs, account, ops.drop_last());
        let prev = apply_doc_ops(docs, account, ops.drop_last());
        let e = ops.last();
        assert forall|d: DocRecord| prev.contains(d) implies apply_doc_ops(
            docs,
            account,
            ops,
        ).contains(d) by {
            let j = choose|j: int| 0 <= j < prev.len() && prev[j] == d;
            assert(apply_doc_ops(docs, account, ops)[j] == d);
        }
        assert forall|i: int| 0 <= i < ops.len() implies apply_doc_ops(docs, account, ops).contains(
            DocRecord {
                account,
                collection: (#[trigger] ops[i])->Create_collection,
                document: ops[i]->Create_document,
            },
        ) by {
            let rec = DocRecord {
                account,
                collection: ops[i]->Create_collection,
                document: ops[i]->Create_document,
            };
            if i < ops.len() - 1 {
                assert(ops.drop_last()[i] == ops[i]);
                assert(prev.contains(rec));
            } else {
                assert(apply_doc_ops(docs, account, ops).last() == rec);
            }
        }
    }
}

/// Law: a batch commit is all-or-nothing. A commit that failed (the store
/// reported an error and, per `Store::commit`, was left exactly as it was)
/// makes none of the batch's created documents visible and publishes no
/// change-log record; one that succeeded, with create operations only,
/// makes every one of them visible together.
pub proof fn lemma_commit_all_or_nothing(
    pre: Store,
    post: Store,
    batch: Batch,
    r: Result<(), StoreError>,
)
    requires
        r is Err ==> post == pre,
        r is Ok ==> post.docs@ == apply_doc_ops(pre.docs@, batch.account_id, batch.ops@),
        r is Ok ==> post.change_log@ == pre.change_log@ + change_records_of(batch),
    ensures
        r is Err ==> forall|d: DocRecord| post.docs@.contains(d) == pre.docs@.contains(d),
        r is Err ==> post.change_log@ == pre.change_log@,
        r is Ok && (forall|i: int| 0 <= i < batch.ops@.len() ==> (#[trigger] batch.ops@[i]) is Create)
            ==> forall|i: int|
            0 <= i < batch.ops@.len() ==> post.docs@.contains(
                DocRecord {
                    account: batch.account_id,
                    collection: (#[trigger] batch.ops@[i])->Create_collection,
                    document: batch.ops@[i]->Create_document,
                },
            ),
{
    if r is Ok && (forall|i: int|
        0 <= i < batch.ops@.len() ==> (#[trigger] batch.ops@[i]) is Create) {
        lemma_creates_visible(pre.docs@, batch.account_id, batch.ops@);
    }
}

} // verus!
