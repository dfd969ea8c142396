use vstd::prelude::*;

use crate::jmap::JMAP;
use crate::store::{
    blob_of, counter_of, doc_next_of, metadata_of, used_of, cap_u64, state_of, copy_token_list,
    Batch, BatchValue, BlobEntry, BlobRecord, ChangeEntry, DocRecord, DocumentOp,
    EmailIndexPayload, LogRecord, PropValue, SearchRecord, Store, ThreadTokens,
};
use crate::thread::resolve_thread;
use crate::types::{
    BlobId, BlobKind, ChangeKind, Collection, Id, MethodError, Property, SetError, State, TypeState,
};

verus! {

/// Values participate in the plain value index.
pub const F_VALUE: u8 = 1;

/// Values participate in the bitmap index.
pub const F_BITMAP: u8 = 2;

/// A property value in a copy request: a full value, or one patch step.
#[derive(Clone, Debug)]
pub enum SetValue {
    IdList(Vec<Id>),
    IdPatch(Id, bool),
    KeywordList(Vec<String>),
    KeywordPatch(String, bool),
    Date(u64),
    Invalid,
}

/// One message to create in the target account, as the client sent it.
#[derive(Clone, Debug)]
pub struct CreateItem {
    pub properties: Vec<(Property, SetValue)>,
}

/// A cross-account copy request.
#[derive(Debug)]
pub struct CopyRequest {
    pub from_account_id: Id,
    pub account_id: Id,
    pub if_in_state: Option<State>,
    pub create: Vec<(Id, CreateItem)>,
    pub on_success_destroy_original: Option<bool>,
    pub destroy_from_if_in_state: Option<State>,
}

/// What one successful copy produced.
#[derive(Clone, Debug)]
pub struct IngestedEmail {
    pub id: Id,
    pub change_id: u64,
    pub blob_id: crate::types::BlobId,
    pub size: u64,
}

/// The per-account state-change notification emitted after a commit.
#[derive(Clone, Debug)]
pub struct StateChange {
    pub account_id: u32,
    pub types: Vec<(TypeState, u64)>,
}

impl StateChange {
    pub fn new(account_id: u32) -> (r: StateChange)
        ensures
            r.account_id == account_id,
            r.types@.len() == 0,
    {
        StateChange { account_id, types: Vec::new() }
    }

    pub fn with_change(self, type_state: TypeState, change_id: u64) -> (r: StateChange)
        ensures
            r.account_id == self.account_id,
            r.types@ == self.types@.push((type_state, change_id)),
    {
        let mut r = self;
        r.types.push((type_state, change_id));
        r
    }
}

/// The follow-up destroy call enqueued after "destroy source on success":
/// a set request against the source account, scoped to the copied ids.
#[derive(Clone, Debug)]
pub struct SetRequest {
    pub account_id: Id,
    pub if_in_state: Option<State>,
    pub destroy: Vec<Id>,
}

/// A queued method call.
#[derive(Clone, Debug)]
pub struct Call {
    pub id: String,
    pub method: SetRequest,
}

/// The response to a copy request: per-item results in request order,
/// keyed by the client-supplied id, plus the state movement observed.
#[derive(Debug)]
pub struct CopyResponse {
    pub from_account_id: Id,
    pub account_id: Id,
    pub old_state: State,
    pub new_state: State,
    pub created: Vec<(Id, IngestedEmail)>,
    pub not_created: Vec<(Id, SetError)>,
    pub state_change: Option<StateChange>,
}

/// The properties of one item, evaluated: target mailboxes, keywords, and
/// the received date override.
pub struct EvalState {
    pub mailboxes: Seq<u32>,
    pub keywords: Seq<Seq<char>>,
    pub received_at: Option<u64>,
}

/// One evaluation step: full values replace, patches add (if absent) or
/// remove (all occurrences), a date sets the override; anything else is an
/// invalid property and fails the whole item.
pub open spec fn eval_step(st: EvalState, property: Property, value: SetValue) -> Result<
    EvalState,
    SetError,
> {
    match (property, value) {
        (Property::MailboxIds, SetValue::IdList(ids)) => Ok(
            EvalState {
                mailboxes: ids@.map_values(|id: Id| id.spec_document_id()),
                ..st
            },
        ),
        (Property::MailboxIds, SetValue::IdPatch(id, set)) => {
            let d = id.spec_document_id();
            if set {
                Ok(
                    EvalState {
                        mailboxes: if st.mailboxes.contains(d) {
                            st.mailboxes
                        } else {
                            st.mailboxes.push(d)
                        },
                        ..st
                    },
                )
            } else {
                Ok(EvalState { mailboxes: st.mailboxes.filter(|x: u32| x != d), ..st })
            }
        },
        (Property::Keywords, SetValue::KeywordList(ks)) => Ok(
            EvalState { keywords: ks.deep_view(), ..st },
        ),
        (Property::Keywords, SetValue::KeywordPatch(k, set)) => {
            if set {
                Ok(
                    EvalState {
                        keywords: if st.keywords.contains(k@) {
                            st.keywords
                        } else {
                            st.keywords.push(k@)
                        },
                        ..st
                    },
                )
            } else {
                Ok(EvalState { keywords: st.keywords.filter(|x: Seq<char>| x != k@), ..st })
            }
        },
        (Property::ReceivedAt, SetValue::Date(d)) => Ok(
            EvalState { received_at: Some(d), ..st },
        ),
        (p, _) => Err(SetError::InvalidProperties(p)),
    }
}

/// Evaluate a property list left to right from a given state.
pub open spec fn eval_from(st: EvalState, props: Seq<(Property, SetValue)>) -> Result<
    EvalState,
    SetError,
>
    decreases props.len(),
{
    if props.len() == 0 {
        Ok(st)
    } else {
        match eval_step(st, props[0].0, props[0].1) {
            Ok(st2) => eval_from(st2, props.drop_first()),
            Err(e) => Err(e),
        }
    }
}

/// Evaluate an item's properties from the empty state.
pub open spec fn eval_props(props: Seq<(Property, SetValue)>) -> Result<EvalState, SetError> {
    eval_from(
        EvalState { mailboxes: Seq::empty(), keywords: Seq::empty(), received_at: None },
        props,
    )
}

/// Append a document id unless it is already present.
#[verifier::loop_isolation(false)]
fn push_id_if_absent(v: &mut Vec<u32>, x: u32)
    ensures
        final(v)@ == if old(v)@.contains(x) {
            old(v)@
        } else {
            old(v)@.push(x)
        },
{
    let mut i: usize = 0;
    while i < v.len()
        invariant
            i <= v@.len(),
            forall|j: int| 0 <= j < i ==> v@[j] != x,
            v@ == old(v)@,
        decreases v@.len() - i,
    {
        if v[i] == x {
            proof {
                assert(v@.contains(x));
            }
            return ;
        }
        i = i + 1;
    }
    v.push(x);
}

/// Remove every occurrence of a document id.
#[verifier::loop_isolation(false)]
fn remove_id(v: &mut Vec<u32>, x: u32)
    ensures
        final(v)@ == old(v)@.filter(|y: u32| y != x),
{
    let ghost p = |y: u32| y != x;
    let mut out: Vec<u32> = Vec::new();
    proof {
        assert(old(v)@.subrange(0, 0) =~= Seq::<u32>::empty());
        old(v)@.subrange(0, 0).lemma_all_neg_filter_empty(p);
        assert(out@ =~= old(v)@.subrange(0, 0).filter(p));
    }
    let mut i: usize = 0;
    while i < v.len()
        invariant
            i <= v@.len(),
            v@ == old(v)@,
            out@ == v@.subrange(0, i as int).filter(p),
            p == (|y: u32| y != x),
        decreases v@.len() - i,
    {
        proof {
            assert(v@.subrange(0, i as int + 1) =~= v@.subrange(0, i as int).push(v@[i as int]));
            v@.subrange(0, i as int).lemma_filter_push(v@[i as int], p);
        }
        if v[i] != x {
            out.push(v[i]);
        }
        i = i + 1;
    }
    proof {
        assert(v@.subrange(0, v@.len() as int) =~= v@);
    }
    *v = out;
}

/// Whether a keyword occurs in the list, compared by contents.
#[verifier::loop_isolation(false)]
fn keyword_in(v: &Vec<String>, x: &String) -> (r: bool)
    ensures
        r == v.deep_view().contains(x@),
{
    let mut i: usize = 0;
    while i < v.len()
        invariant
            i <= v@.len(),
            forall|j: int| 0 <= j < i ==> v@[j]@ != x@,
        decreases v@.len() - i,
    {
        if v[i].eq(x) {
            proof {
                assert(v.deep_view()[i as int] == v@[i as int]@);
            }
            return true;
        }
        i = i + 1;
    }
    proof {
        assert forall|j: int| 0 <= j < v.deep_view().len() implies v.deep_view()[j] != x@ by {
            assert(v.deep_view()[j] == v@[j]@);
        }
    }
    false
}

/// Remove every occurrence of a keyword, compared by contents.
#[verifier::loop_isolation(false)]
fn remove_keyword(v: &mut Vec<String>, x: &String)
    ensures
        final(v).deep_view() == old(v).deep_view().filter(|y: Seq<char>| y != x@),
{
    let ghost p = |y: Seq<char>| y != x@;
    let ghost dv = old(v).deep_view();
    let mut out: Vec<String> = Vec::new();
    proof {
        assert(dv.subrange(0, 0) =~= Seq::<Seq<char>>::empty());
        dv.subrange(0, 0).lemma_all_neg_filter_empty(p);
        assert(out.deep_view() =~= dv.subrange(0, 0).filter(p));
    }
    let mut i: usize = 0;
    while i < v.len()
        invariant
            i <= v@.len(),
            v@ == old(v)@,
            dv == v.deep_view(),
            dv.len() == v@.len(),
            forall|j: int| 0 <= j < v@.len() ==> dv[j] == v@[j]@,
            out.deep_view() == dv.subrange(0, i as int).filter(p),
            p == (|y: Seq<char>| y != x@),
        decreases v@.len() - i,
    {
        proof {
            assert(dv.subrange(0, i as int + 1) =~= dv.subrange(0, i as int).push(dv[i as int]));
            dv.subrange(0, i as int).lemma_filter_push(dv[i as int], p);
        }
        if !v[i].eq(x) {
            let ghost before = out.deep_view();
            out.push(v[i].clone());
            proof {
                assert(out.deep_view() =~= before.push(v@[i as int]@));
            }
        }
        i = i + 1;
    }
    proof {
        assert(dv.subrange(0, dv.len() as int) =~= dv);
    }
    *v = out;
}

/// Evaluate one item's properties, exactly as `eval_props` says.
#[verifier::loop_isolation(false)]
pub fn eval_create_item(item: CreateItem) -> (r: Result<
    (Vec<u32>, Vec<String>, Option<u64>),
    SetError,
>)
    ensures
        r is Ok <==> eval_props(item.properties@) is Ok,
        r matches Ok((mailboxes, keywords, received_at)) ==> {
            let st = eval_props(item.properties@)->Ok_0;
            &&& mailboxes@ == st.mailboxes
            &&& keywords.deep_view() == st.keywords
            &&& received_at == st.received_at
        },
        r matches Err(e) ==> eval_props(item.properties@) == Err::<EvalState, SetError>(e),
{
    let CreateItem { mut properties } = item;
    let ghost props0 = properties@;
    let mut mailboxes: Vec<u32> = Vec::new();
    let mut keywords: Vec<String> = Vec::new();
    let mut received_at: Option<u64> = None;
    proof {
        assert(mailboxes@ =~= Seq::<u32>::empty());
        assert(keywords.deep_view() =~= Seq::<Seq<char>>::empty());
    }
    while properties.len() > 0
        invariant
            eval_props(props0) == eval_from(
                EvalState {
                    mailboxes: mailboxes@,
                    keywords: keywords.deep_view(),
                    received_at,
                },
                properties@,
            ),
        decreases properties@.len(),
    {
        proof {
            assert(properties@.drop_first() =~= properties@.remove(0));
        }
        let (property, value) = properties.remove(0);
        let ghost st_before = EvalState {
            mailboxes: mailboxes@,
            keywords: keywords.deep_view(),
            received_at,
        };
        match (property, value) {
            (Property::MailboxIds, SetValue::IdList(ids)) => {
                let mut m: Vec<u32> = Vec::new();
                let mut i: usize = 0;
                while i < ids.len()
                    invariant
                        i <= ids@.len(),
                        m@ == ids@.subrange(0, i as int).map_values(|id: Id| id.spec_document_id()),
                    decreases ids@.len() - i,
                {
                    proof {
                        assert(ids@.subrange(0, i as int + 1) =~= ids@.subrange(0, i as int).push(
                            ids@[i as int],
                        ));
                        ids@.subrange(0, i as int).lemma_push_map_commute(
                            |id: Id| id.spec_document_id(),
                            ids@[i as int],
                        );
                    }
                    m.push(ids[i].document_id());
                    i = i + 1;
                }
                proof {
                    assert(ids@.subrange(0, ids@.len() as int) =~= ids@);
                }
                mailboxes = m;
            },
            (Property::MailboxIds, SetValue::IdPatch(id, set)) => {
                let d = id.document_id();
                if set {
                    push_id_if_absent(&mut mailboxes, d);
                } else {
                    remove_id(&mut mailboxes, d);
                }
            },
            (Property::Keywords, SetValue::KeywordList(ks)) => {
                keywords = ks;
            },
            (Property::Keywords, SetValue::KeywordPatch(k, set)) => {
                if set {
                    if !keyword_in(&keywords, &k) {
                        let ghost before = keywords.deep_view();
                        keywords.push(k);
                        proof {
                            assert(keywords.deep_view() =~= before.push(keywords@.last()@));
                        }
                    }
                } else {
                    remove_keyword(&mut keywords, &k);
                }
            },
            (Property::ReceivedAt, SetValue::Date(d)) => {
                received_at = Some(d);
            },
            (p, _) => {
                return Err(SetError::InvalidProperties(p));
            },
        }
    }
    Ok((mailboxes, keywords, received_at))
}

/// Whether the source message's metadata or full-text payload is absent.
pub open spec fn copy_source_missing(store: Store, fa: u32, fm: u32) -> bool {
    metadata_of(store.messages@, fa, fm) is None || !store.search_index@.contains(
        SearchRecord { account: fa, document: fm },
    )
}

/// Whether copying `size` more bytes would exceed the target account's
/// configured quota (zero: unlimited).
pub open spec fn copy_over_quota(store: Store, account: u32, quota: i64, size: u64) -> bool {
    quota > 0 && size + used_of(store.quotas@, account) > quota
}

/// The source message's reference tokens.
pub open spec fn copy_refs_of(store: Store, fa: u32, fm: u32) -> Seq<Seq<u8>> {
    metadata_of(store.messages@, fa, fm)->0.references.deep_view()
}

/// Whether the pipeline cannot finish against this store: an id space is
/// exhausted, the source blob is gone, or the collaborator is failing.
pub open spec fn copy_pipeline_blocked(store: Store, fa: u32, fm: u32, account: u32) -> bool {
    ||| doc_next_of(store.doc_counters@, account, Collection::Email) == u32::MAX
    ||| store.fail_commits
    ||| blob_of(
        store.blobs@,
        BlobKind::LinkedMaildir { account_id: fa, document_id: fm },
    ) is None
    ||| counter_of(store.change_counters@, account) == u64::MAX
    ||| (resolve_thread(store.thread_index@, account, copy_refs_of(store, fa, fm)) is None
        && doc_next_of(store.doc_counters@, account, Collection::Thread) == u32::MAX)
}

/// The change-log records one successful copy commits, in order: the
/// thread (inserted when new, child-updated when joined), the new message,
/// and a child update per target mailbox — all sharing one change id.
pub open spec fn copy_change_records(
    account: u32,
    change_id: u64,
    thread: u32,
    new_thread: bool,
    email_id: u64,
    mailboxes: Seq<u32>,
) -> Seq<LogRecord> {
    seq![
        LogRecord {
            account,
            change_id,
            collection: Collection::Thread,
            document: thread as u64,
            kind: if new_thread {
                ChangeKind::Insert
            } else {
                ChangeKind::ChildUpdate
            },
        },
        LogRecord {
            account,
            change_id,
            collection: Collection::Email,
            document: email_id,
            kind: ChangeKind::Insert,
        },
    ] + mailboxes.map_values(
        |m: u32| LogRecord {
            account,
            change_id,
            collection: Collection::Mailbox,
            document: m as u64,
            kind: ChangeKind::ChildUpdate,
        },
    )
}

/// The keys of `keys` at positions where `picks` holds `want`, in order.
pub open spec fn keys_where(keys: Seq<Id>, picks: Seq<bool>, want: bool) -> Seq<Id>
    decreases keys.len(),
{
    if keys.len() == 0 || picks.len() == 0 {
        Seq::empty()
    } else {
        let rest = keys_where(keys.drop_first(), picks.drop_first(), want);
        if picks[0] == want {
            seq![keys[0]] + rest
        } else {
            rest
        }
    }
}

/// Appending one (key, pick) pair extends the selection at its end.
pub proof fn lemma_keys_where_push(keys: Seq<Id>, picks: Seq<bool>, k: Id, b: bool, want: bool)
    requires
        keys.len() == picks.len(),
    ensures
        keys_where(keys.push(k), picks.push(b), want) == keys_where(keys, picks, want) + (
        if b == want {
            seq![k]
        } else {
            Seq::<Id>::empty()
        }),
    decreases keys.len(),
{
    let tail: Seq<Id> = if b == want {
        seq![k]
    } else {
        Seq::empty()
    };
    if keys.len() == 0 {
        assert(keys.push(k).drop_first() =~= Seq::<Id>::empty());
        assert(picks.push(b).drop_first() =~= Seq::<bool>::empty());
        assert(keys_where(keys.push(k).drop_first(), picks.push(b).drop_first(), want)
            == Seq::<Id>::empty());
        assert(keys_where(keys.push(k), picks.push(b), want) =~= keys_where(keys, picks, want)
            + tail);
    } else {
        assert(keys.push(k).drop_first() =~= keys.drop_first().push(k));
        assert(picks.push(b).drop_first() =~= picks.drop_first().push(b));
        lemma_keys_where_push(keys.drop_first(), picks.drop_first(), k, b, want);
        if picks[0] == want {
            assert(seq![keys[0]] + (keys_where(keys.drop_first(), picks.drop_first(), want) + tail)
                =~= (seq![keys[0]] + keys_where(keys.drop_first(), picks.drop_first(), want))
                + tail);
        }
    }
}

impl JMAP {
    /// Copy one message into another account: fetch the source metadata
    /// and full-text payload, enforce the target quota, resolve the
    /// conversation thread, allocate ids, link the blob without copying
    /// bytes, and commit one atomic batch carrying the document, its
    /// indexed values, and the change log. Per-item failures (source
    /// absent, over quota) come back in the inner result; pipeline
    /// failures abort with a server error and leave nothing visible.
    #[verifier::loop_isolation(false)]
    #[verifier::rlimit(100)]
    pub fn copy_message(
        &mut self,
        from_account_id: u32,
        from_message_id: u32,
        account_id: u32,
        account_quota: i64,
        mailboxes: Vec<u32>,
        keywords: Vec<String>,
        received_at: Option<u64>,
    ) -> (r: Result<Result<IngestedEmail, SetError>, MethodError>)
        requires
            old(self).store.wf(),
        ensures
            final(self).store.wf(),
            final(self).in_flight == old(self).in_flight,
            final(self).config == old(self).config,
            final(self).account_quotas == old(self).account_quotas,
            final(self).store.fail_commits == old(self).store.fail_commits,
            copy_source_missing(old(self).store, from_account_id, from_message_id) ==> (r matches Ok(
                Err(SetError::NotFound),
            ) && final(self).store == old(self).store),
            !copy_source_missing(old(self).store, from_account_id, from_message_id)
                && copy_over_quota(
                old(self).store,
                account_id,
                account_quota,
                metadata_of(old(self).store.messages@, from_account_id, from_message_id)->0.size,
            ) ==> (r matches Ok(Err(SetError::OverQuota)) && final(self).store == old(self).store),
            !copy_source_missing(old(self).store, from_account_id, from_message_id)
                && !copy_over_quota(
                old(self).store,
                account_id,
                account_quota,
                metadata_of(old(self).store.messages@, from_account_id, from_message_id)->0.size,
            ) ==> (r is Err <==> copy_pipeline_blocked(
                old(self).store,
                from_account_id,
                from_message_id,
                account_id,
            )),
            !copy_source_missing(old(self).store, from_account_id, from_message_id)
                && !copy_over_quota(
                old(self).store,
                account_id,
                account_quota,
                metadata_of(old(self).store.messages@, from_account_id, from_message_id)->0.size,
            ) && !copy_pipeline_blocked(
                old(self).store,
                from_account_id,
                from_message_id,
                account_id,
            ) ==> r matches Ok(Ok(_)),
            r is Err ==> {
                &&& r == Err::<Result<IngestedEmail, SetError>, MethodError>(
                    MethodError::ServerPartialFail,
                )
                &&& final(self).store.docs == old(self).store.docs
                &&& final(self).store.values == old(self).store.values
                &&& final(self).store.messages == old(self).store.messages
                &&& final(self).store.change_log == old(self).store.change_log
                &&& final(self).store.search_index == old(self).store.search_index
                &&& final(self).store.thread_index == old(self).store.thread_index
                &&& final(self).store.quotas == old(self).store.quotas
            },
            r matches Ok(Ok(email)) ==> {
                let pre = old(self).store;
                let meta = metadata_of(pre.messages@, from_account_id, from_message_id)->0;
                let refs = copy_refs_of(pre, from_account_id, from_message_id);
                let resolved = resolve_thread(pre.thread_index@, account_id, refs);
                let cid = (counter_of(pre.change_counters@, account_id) + 1) as u64;
                let email_next = doc_next_of(pre.doc_counters@, account_id, Collection::Email);
                let thread_next = doc_next_of(pre.doc_counters@, account_id, Collection::Thread);
                let t = if resolved is Some {
                    resolved->0
                } else {
                    thread_next
                };
                let src = BlobKind::LinkedMaildir {
                    account_id: from_account_id,
                    document_id: from_message_id,
                };
                &&& email.change_id == cid
                &&& email.size == meta.size
                &&& email.id.spec_document_id() == email_next
                &&& email.id.spec_prefix_id() == t
                &&& email.blob_id.kind == (BlobKind::LinkedMaildir {
                    account_id,
                    document_id: email_next,
                })
                &&& final(self).store.change_log@ == pre.change_log@ + copy_change_records(
                    account_id,
                    cid,
                    t,
                    resolved is None,
                    email.id.id,
                    mailboxes@,
                )
                &&& (resolved is Some ==> final(self).store.docs@ == pre.docs@.push(
                    DocRecord {
                        account: account_id,
                        collection: Collection::Email,
                        document: email_next,
                    },
                ))
                &&& (resolved is None ==> final(self).store.docs@ == pre.docs@.push(
                    DocRecord {
                        account: account_id,
                        collection: Collection::Thread,
                        document: thread_next,
                    },
                ).push(
                    DocRecord {
                        account: account_id,
                        collection: Collection::Email,
                        document: email_next,
                    },
                ))
                &&& final(self).store.blobs@ == pre.blobs@.push(
                    BlobRecord {
                        kind: BlobKind::LinkedMaildir { account_id, document_id: email_next },
                        entry: BlobEntry::Linked { src },
                    },
                )
                &&& final(self).store.search_index@ == pre.search_index@ + seq![
                    SearchRecord { account: account_id, document: email_next },
                ]
                &&& final(self).store.thread_index@.len() == pre.thread_index@.len() + refs.len()
                &&& forall|i: int|
                    0 <= i < pre.thread_index@.len() ==> final(self).store.thread_index@[i]
                        == pre.thread_index@[i]
                &&& forall|i: int|
                    0 <= i < refs.len() ==> {
                        let e = #[trigger] final(self).store.thread_index@[pre.thread_index@.len() as int
                            + i];
                        e.account == account_id && e.thread == t && e.token@ == refs[i]
                    }
                &&& final(self).store.messages@.len() == pre.messages@.len() + 1
                &&& forall|i: int|
                    0 <= i < pre.messages@.len() ==> final(self).store.messages@[i]
                        == pre.messages@[i]
                &&& {
                    let m = final(self).store.messages@.last();
                    &&& m.account == account_id
                    &&& m.document == email_next
                    &&& m.metadata.size == meta.size
                    &&& m.metadata.subject@ == meta.subject@
                    &&& m.metadata.references.deep_view() == refs
                    &&& m.metadata.received_at == if received_at is Some {
                        received_at
                    } else {
                        meta.received_at
                    }
                }
                &&& final(self).store.values@.len() == pre.values@.len() + 4
                &&& forall|i: int|
                    0 <= i < pre.values@.len() ==> final(self).store.values@[i] == pre.values@[i]
                &&& {
                    let v0 = final(self).store.values@[pre.values@.len() as int];
                    let v1 = final(self).store.values@[pre.values@.len() as int + 1];
                    let v2 = final(self).store.values@[pre.values@.len() as int + 2];
                    let v3 = final(self).store.values@[pre.values@.len() as int + 3];
                    &&& v0.account == account_id && v0.collection == Collection::Email
                        && v0.document == email_next && v0.property == Property::ThreadId
                        && v0.value == PropValue::U32(t) && v0.families == (F_VALUE | F_BITMAP)
                    &&& v1.account == account_id && v1.collection == Collection::Email
                        && v1.document == email_next && v1.property == Property::MailboxIds
                        && v1.families == (F_VALUE | F_BITMAP) && (v1.value matches
                    PropValue::U32List(ms) && ms@ == mailboxes@)
                    &&& v2.account == account_id && v2.collection == Collection::Email
                        && v2.document == email_next && v2.property == Property::Keywords
                        && v2.families == (F_VALUE | F_BITMAP) && (v2.value matches
                    PropValue::Keywords(ks) && ks.deep_view() == keywords.deep_view())
                    &&& v3.account == account_id && v3.collection == Collection::Email
                        && v3.document == email_next && v3.property == Property::Cid && v3.value
                        == PropValue::U64(cid) && v3.families == F_VALUE
                }
                &&& used_of(final(self).store.quotas@, account_id) == cap_u64(
                    used_of(pre.quotas@, account_id) + meta.size,
                )
                &&& forall|a: u32|
                    a != account_id ==> used_of(final(self).store.quotas@, a) == used_of(
                        pre.quotas@,
                        a,
                    )
                &&& counter_of(final(self).store.change_counters@, account_id) == cid
                &&& doc_next_of(final(self).store.doc_counters@, account_id, Collection::Email)
                    == email_next + 1
                &&& (resolved is Some ==> doc_next_of(
                    final(self).store.doc_counters@,
                    account_id,
                    Collection::Thread,
                ) == thread_next)
                &&& (resolved is None ==> doc_next_of(
                    final(self).store.doc_counters@,
                    account_id,
                    Collection::Thread,
                ) == thread_next + 1)
            },
    {
        // Fetch source metadata and full-text payload.
        let meta_opt = self.store.get_message_metadata(from_account_id, from_message_id);
        let has_index = self.store.has_search_index(from_account_id, from_message_id);
        let mut metadata = match meta_opt {
            None => {
                return Ok(Err(SetError::NotFound));
            },
            Some(m) => m,
        };
        if !has_index {
            return Ok(Err(SetError::NotFound));
        }

        // Enforce the target account's quota.
        let used = self.store.get_used_quota(account_id);
        if account_quota > 0 && (metadata.size as i128) + (used as i128) > (account_quota as i128) {
            return Ok(Err(SetError::OverQuota));
        }

        // Apply the received-date override.
        if received_at.is_some() {
            metadata.received_at = received_at;
        }

        // Resolve the conversation thread by reference tokens, with the
        // normalized subject along for context.
        let subject = crate::thread::thread_name_normalized(metadata.subject.as_str());
        let resolved = self.store.find_or_merge_thread(
            account_id,
            subject.as_str(),
            &metadata.references,
        );

        // Allocate the new message's document id.
        let message_id = match self.store.assign_document_id(account_id, Collection::Email) {
            Ok(d) => d,
            Err(_) => {
                return Err(MethodError::ServerPartialFail);
            },
        };

        // Link the blob: the new descriptor shares the source's bytes.
        let src_kind = BlobKind::LinkedMaildir {
            account_id: from_account_id,
            document_id: from_message_id,
        };
        let dst_kind = BlobKind::LinkedMaildir { account_id, document_id: message_id };
        if self.store.copy_blob(src_kind, dst_kind).is_err() {
            return Err(MethodError::ServerPartialFail);
        }

        // Build the change log.
        let mut changes = match self.store.begin_changes(account_id) {
            Ok(c) => c,
            Err(_) => {
                return Err(MethodError::ServerPartialFail);
            },
        };
        let mut ops: Vec<DocumentOp> = Vec::new();
        let new_thread: bool;
        let thread_id: u32;
        match resolved {
            Some(t) => {
                changes.log_child_update(Collection::Thread, t as u64);
                thread_id = t;
                new_thread = false;
            },
            None => {
                let t = match self.store.assign_document_id(account_id, Collection::Thread) {
                    Ok(d) => d,
                    Err(_) => {
                        return Err(MethodError::ServerPartialFail);
                    },
                };
                ops.push(DocumentOp::Create { collection: Collection::Thread, document: t });
                changes.log_insert(Collection::Thread, t as u64);
                thread_id = t;
                new_thread = true;
            },
        }
        let id = Id::from_parts(thread_id, message_id);
        let change_id = changes.change_id;
        changes.log_insert(Collection::Email, id.id);
        let ghost base_entries = changes.entries@;
        let ghost fm_entry = |m: u32| ChangeEntry {
            collection: Collection::Mailbox,
            document: m as u64,
            kind: ChangeKind::ChildUpdate,
        };
        let mut mi: usize = 0;
        proof {
            assert(mailboxes@.subrange(0, 0).map_values(fm_entry) =~= Seq::<ChangeEntry>::empty());
            assert(changes.entries@ =~= base_entries + mailboxes@.subrange(0, 0).map_values(
                fm_entry,
            ));
        }
        while mi < mailboxes.len()
            invariant
                mi <= mailboxes@.len(),
                changes.entries@ == base_entries + mailboxes@.subrange(0, mi as int).map_values(
                    fm_entry,
                ),
                changes.account_id == account_id,
                changes.change_id == change_id,
            decreases mailboxes@.len() - mi,
        {
            proof {
                assert(mailboxes@.subrange(0, mi as int + 1) =~= mailboxes@.subrange(
                    0,
                    mi as int,
                ).push(mailboxes@[mi as int]));
                mailboxes@.subrange(0, mi as int).lemma_push_map_commute(
                    fm_entry,
                    mailboxes@[mi as int],
                );
                assert((base_entries + mailboxes@.subrange(0, mi as int).map_values(
                    fm_entry,
                )).push(fm_entry(mailboxes@[mi as int])) =~= base_entries + mailboxes@.subrange(
                    0,
                    mi as int,
                ).map_values(fm_entry).push(fm_entry(mailboxes@[mi as int])));
            }
            changes.log_child_update(Collection::Mailbox, mailboxes[mi] as u64);
            mi = mi + 1;
        }
        proof {
            assert(mailboxes@.subrange(0, mailboxes@.len() as int) =~= mailboxes@);
        }

        // Assemble the batch: document, indexed values, metadata,
        // full-text payload, thread tokens, change log.
        ops.push(DocumentOp::Create { collection: Collection::Email, document: message_id });
        let size = metadata.size;
        let tokens = copy_token_list(&metadata.references);
        let mut values: Vec<BatchValue> = Vec::new();
        values.push(
            BatchValue {
                collection: Collection::Email,
                document: message_id,
                property: Property::ThreadId,
                value: PropValue::U32(thread_id),
                families: F_VALUE | F_BITMAP,
            },
        );
        values.push(
            BatchValue {
                collection: Collection::Email,
                document: message_id,
                property: Property::MailboxIds,
                value: PropValue::U32List(mailboxes),
                families: F_VALUE | F_BITMAP,
            },
        );
        values.push(
            BatchValue {
                collection: Collection::Email,
                document: message_id,
                property: Property::Keywords,
                value: PropValue::Keywords(keywords),
                families: F_VALUE | F_BITMAP,
            },
        );
        values.push(
            BatchValue {
                collection: Collection::Email,
                document: message_id,
                property: Property::Cid,
                value: PropValue::U64(change_id),
                families: F_VALUE,
            },
        );
        let batch = Batch {
            account_id,
            ops,
            values,
            changes: Some(changes),
            email_index: Some(EmailIndexPayload { document: message_id, metadata }),
            search_index: Some(message_id),
            thread_tokens: Some(ThreadTokens { thread: thread_id, tokens }),
        };
        let ghost gbatch = batch;
        let ghost gtokens = gbatch.thread_tokens->0.tokens;
        match self.store.commit(batch) {
            Err(_) => Err(MethodError::ServerPartialFail),
            Ok(_) => {
                proof {
                    let pre = old(self).store;
                    let refs = copy_refs_of(pre, from_account_id, from_message_id);
                    let expected = copy_change_records(
                        account_id,
                        change_id,
                        thread_id,
                        new_thread,
                        id.id,
                        mailboxes@,
                    );
                    assert forall|i: int|
                        0 <= i < expected.len() implies crate::store::change_records_of(gbatch)[i]
                        == expected[i] by {
                        if i >= 2 {
                            assert(gbatch.changes->0.entries@[i] == fm_entry(mailboxes@[i - 2]));
                        }
                    }
                    assert(crate::store::change_records_of(gbatch) =~= expected);
                    assert forall|k: int|
                        pre.change_log@.len() <= k < self.store.change_log@.len() implies (
                    #[trigger] self.store.change_log@[k]).account == account_id
                        && self.store.change_log@[k].change_id == change_id by {
                        let off = k - pre.change_log@.len();
                        assert(self.store.change_log@[k] == expected[off]);
                        if off >= 2 {
                            assert(expected[off] == mailboxes@.map_values(
                                |m: u32| crate::store::LogRecord {
                                    account: account_id,
                                    change_id,
                                    collection: Collection::Mailbox,
                                    document: m as u64,
                                    kind: ChangeKind::ChildUpdate,
                                },
                            )[off - 2]);
                        }
                    }
                    assert(self.store.change_log@[pre.change_log@.len() as int + 1] == expected[1]);
                    let cre = DocumentOp::Create {
                        collection: Collection::Email,
                        document: message_id,
                    };
                    let email_doc = DocRecord {
                        account: account_id,
                        collection: Collection::Email,
                        document: message_id,
                    };
                    if new_thread {
                        let crt = DocumentOp::Create {
                            collection: Collection::Thread,
                            document: thread_id,
                        };
                        let thread_doc = DocRecord {
                            account: account_id,
                            collection: Collection::Thread,
                            document: thread_id,
                        };
                        assert(gbatch.ops@ =~= seq![crt, cre]);
                        assert(crate::store::apply_doc_ops(
                            pre.docs@,
                            account_id,
                            Seq::<DocumentOp>::empty(),
                        ) == pre.docs@);
                        assert(seq![crt].drop_last() == Seq::<DocumentOp>::empty() && seq![
                            crt,
                        ].last() == crt) by {
                            assert(seq![crt].drop_last() =~= Seq::<DocumentOp>::empty());
                        }
                        assert(crate::store::apply_doc_ops(pre.docs@, account_id, seq![crt])
                            == pre.docs@.push(thread_doc));
                        assert(seq![crt, cre].drop_last() == seq![crt] && seq![crt, cre].last()
                            == cre) by {
                            assert(seq![crt, cre].drop_last() =~= seq![crt]);
                        }
                        assert(self.store.docs@ == pre.docs@.push(thread_doc).push(email_doc));
                    } else {
                        assert(gbatch.ops@ =~= seq![cre]);
                        assert(crate::store::apply_doc_ops(
                            pre.docs@,
                            account_id,
                            Seq::<DocumentOp>::empty(),
                        ) == pre.docs@);
                        assert(seq![cre].drop_last() == Seq::<DocumentOp>::empty() && seq![
                            cre,
                        ].last() == cre) by {
                            assert(seq![cre].drop_last() =~= Seq::<DocumentOp>::empty());
                        }
                        assert(self.store.docs@ == pre.docs@.push(email_doc));
                    }
                    assert forall|i: int| 0 <= i < refs.len() implies {
                        let e = #[trigger] self.store.thread_index@[pre.thread_index@.len() as int
                            + i];
                        e.account == account_id && e.thread == thread_id && e.token@ == refs[i]
                    } by {
                        assert(self.store.thread_index@[pre.thread_index@.len() as int + i]
                            == crate::store::thread_entries_of(gbatch)[i]);
                        assert(crate::store::thread_entries_of(gbatch)[i].token == gtokens@[i]);
                        assert(gtokens.deep_view()[i] == gtokens@[i]@);
                    }
                    assert(self.store.messages@.last() == crate::store::email_records_of(
                        gbatch,
                    )[0]);
                    assert forall|i: int| 0 <= i < 4 implies self.store.values@[pre.values@.len()
                        as int + i] == crate::store::record_of_value(
                        account_id,
                        gbatch.values@[i],
                    ) by {
                        assert(self.store.values@[pre.values@.len() as int + i]
                            == gbatch.values@.map_values(
                            |bv: BatchValue| crate::store::record_of_value(account_id, bv),
                        )[i]);
                    }
                }
                Ok(
                    Ok(
                        IngestedEmail {
                            id,
                            change_id,
                            blob_id: BlobId { kind: dst_kind },
                            size,
                        },
                    ),
                )
            },
        }
    }

    /// Copy messages between two accounts, as one method call. The whole
    /// call is rejected when source and target account are the same
    /// (nothing is written then) or when the client's "if-in-state"
    /// precondition does not match the target's current state. Items fail
    /// and succeed individually, in request order; when at least one
    /// succeeded the response reports the state reached and a state-change
    /// notification for the message, mailbox and thread types; when the
    /// caller asked to destroy the sources, a follow-up destroy call
    /// scoped to exactly the successfully copied ids is queued.
    #[verifier::loop_isolation(false)]
    pub fn email_copy(
        &mut self,
        request: CopyRequest,
        access_token: &crate::jmap::AccessToken,
        next_call: &mut Option<Call>,
    ) -> (r: Result<CopyResponse, MethodError>)
        requires
            old(self).store.wf(),
        ensures
            final(self).store.wf(),
            final(self).in_flight == old(self).in_flight,
            final(self).config == old(self).config,
            final(self).account_quotas == old(self).account_quotas,
            request.account_id.spec_document_id() == request.from_account_id.spec_document_id()
                ==> (r == Err::<CopyResponse, MethodError>(MethodError::InvalidArguments)
                && *final(self) == *old(self) && *final(next_call) == *old(next_call)),
            (request.account_id.spec_document_id() != request.from_account_id.spec_document_id()
                && (request.if_in_state matches Some(s) && s != state_of(
                old(self).store.change_log@,
                request.account_id.spec_document_id(),
                Collection::Email,
            ))) ==> (r == Err::<CopyResponse, MethodError>(MethodError::StateMismatch)
                && *final(self) == *old(self) && *final(next_call) == *old(next_call)),
            r is Err ==> *final(next_call) == *old(next_call),
            old(self).store.change_log@.is_prefix_of(final(self).store.change_log@),
            r matches Ok(resp) ==> resp.new_state.rank() >= resp.old_state.rank(),
            r matches Ok(resp) ==> (resp.created@.len() > 0 ==> resp.new_state.rank()
                > resp.old_state.rank()),
            r matches Ok(resp) ==> exists|picks: Seq<bool>|
                {
                    &&& #[trigger] picks.len() == request.create@.len()
                    &&& resp.created@.map_values(|p: (Id, IngestedEmail)| p.0) == keys_where(
                        request.create@.map_values(|q: (Id, CreateItem)| q.0),
                        picks,
                        true,
                    )
                    &&& resp.not_created@.map_values(|p: (Id, SetError)| p.0) == keys_where(
                        request.create@.map_values(|q: (Id, CreateItem)| q.0),
                        picks,
                        false,
                    )
                },
            r matches Ok(resp) ==> {
                let a = request.account_id.spec_document_id();
                &&& resp.account_id == request.account_id
                &&& resp.from_account_id == request.from_account_id
                &&& resp.old_state == state_of(old(self).store.change_log@, a, Collection::Email)
                &&& resp.created@.len() + resp.not_created@.len() == request.create@.len()
                &&& (resp.created@.len() == 0 ==> resp.new_state == resp.old_state
                    && resp.state_change is None)
                &&& (resp.created@.len() > 0 ==> resp.new_state == state_of(
                    final(self).store.change_log@,
                    a,
                    Collection::Email,
                ))
                &&& (resp.state_change matches Some(sc) ==> {
                    &&& resp.created@.len() > 0
                    &&& resp.new_state == State::Exact(sc.types@[0].1)
                    &&& sc.account_id == a
                    &&& sc.types@ == seq![
                        (TypeState::Email, sc.types@[0].1),
                        (TypeState::Mailbox, sc.types@[0].1),
                        (TypeState::Thread, sc.types@[0].1),
                    ]
                })
                &&& (resp.created@.len() > 0 && resp.new_state is Exact
                    ==> resp.state_change is Some)
                &&& (request.on_success_destroy_original == Some(true) && resp.created@.len() > 0
                    ==> ((*final(next_call)) matches Some(c) && c.method.account_id
                    == request.from_account_id && c.method.if_in_state
                    == request.destroy_from_if_in_state && c.method.destroy@
                    == resp.created@.map_values(|p: (Id, IngestedEmail)| p.0)))
                &&& (!(request.on_success_destroy_original == Some(true) && resp.created@.len()
                    > 0) ==> *final(next_call) == *old(next_call))
            },
    {
        let account_id = request.account_id.document_id();
        let from_account_id = request.from_account_id.document_id();

        // A copy within one account is contradictory input; nothing is
        // written.
        if account_id == from_account_id {
            return Err(MethodError::InvalidArguments);
        }

        // Validate the client's "if-in-state" precondition against the
        // target's current state.
        let old_state = self.store.get_state(account_id, Collection::Email);
        if let Some(s) = request.if_in_state {
            if !(s == old_state) {
                return Err(MethodError::StateMismatch);
            }
        }

        let mut response = CopyResponse {
            from_account_id: request.from_account_id,
            account_id: request.account_id,
            old_state,
            new_state: old_state,
            created: Vec::new(),
            not_created: Vec::new(),
            state_change: None,
        };
        let on_success_delete = match request.on_success_destroy_original {
            Some(b) => b,
            None => false,
        };
        let mut destroy_ids: Vec<Id> = Vec::new();
        let account_quota = self.get_quota(account_id);
        let shared = access_token.is_shared(account_id);
        let mut create = request.create;
        let ghost total = create@.len();
        let ghost reqkeys = request.create@.map_values(|q: (Id, CreateItem)| q.0);
        let ghost mut picks: Seq<bool> = Seq::empty();
        proof {
            assert(request.create@.subrange(0, total as int) =~= request.create@);
            assert(reqkeys.subrange(0, 0) =~= Seq::<Id>::empty());
            assert(response.created@.map_values(|p: (Id, IngestedEmail)| p.0) =~= keys_where(
                reqkeys.subrange(0, 0),
                picks,
                true,
            ));
            assert(response.not_created@.map_values(|p: (Id, SetError)| p.0) =~= keys_where(
                reqkeys.subrange(0, 0),
                picks,
                false,
            ));
        }

        while create.len() > 0
            invariant
                self.store.wf(),
                self.in_flight == old(self).in_flight,
                self.config == old(self).config,
                self.account_quotas == old(self).account_quotas,
                response.created@.len() + response.not_created@.len() + create@.len() == total,
                total == request.create@.len(),
                response.account_id == request.account_id,
                response.from_account_id == request.from_account_id,
                response.old_state == old_state,
                response.new_state == old_state,
                response.state_change is None,
                account_id == request.account_id.spec_document_id(),
                old_state == state_of(
                    old(self).store.change_log@,
                    request.account_id.spec_document_id(),
                    Collection::Email,
                ),
                old(self).store.change_log@.is_prefix_of(self.store.change_log@),
                state_of(self.store.change_log@, account_id, Collection::Email).rank()
                    >= old_state.rank(),
                response.created@.len() > 0 ==> state_of(
                    self.store.change_log@,
                    account_id,
                    Collection::Email,
                ).rank() > old_state.rank(),
                picks.len() == response.created@.len() + response.not_created@.len(),
                reqkeys == request.create@.map_values(|q: (Id, CreateItem)| q.0),
                create@ == request.create@.subrange(picks.len() as int, total as int),
                response.created@.map_values(|p: (Id, IngestedEmail)| p.0) == keys_where(
                    reqkeys.subrange(0, picks.len() as int),
                    picks,
                    true,
                ),
                response.not_created@.map_values(|p: (Id, SetError)| p.0) == keys_where(
                    reqkeys.subrange(0, picks.len() as int),
                    picks,
                    false,
                ),
                on_success_delete ==> destroy_ids@ == response.created@.map_values(
                    |p: (Id, IngestedEmail)| p.0,
                ),
                !on_success_delete ==> destroy_ids@.len() == 0,
                *next_call == *old(next_call),
            decreases create@.len(),
        {
            let ghost kk = picks.len() as int;
            proof {
                assert(create@[0] == request.create@.subrange(kk, total as int)[0]);
            }
            let (id, create_item) = create.remove(0);
            proof {
                assert(request.create@.subrange(kk + 1, total as int) =~= create@);
                assert(reqkeys[kk] == id);
                assert(reqkeys.subrange(0, kk + 1) =~= reqkeys.subrange(0, kk).push(id));
            }
            let from_message_id = id.document_id();

            // Decide this item: check the source, evaluate properties,
            // check the mailboxes, then copy. Pipeline failures abort the
            // whole call; everything else lands in this item's slot.
            let item_outcome: Result<IngestedEmail, SetError>;
            let ghost pre_store = self.store;
            if !(self.store.doc_exists(from_account_id, Collection::Email, from_message_id)
                && access_token.can_read_message(from_account_id, from_message_id)) {
                // The source must exist and be readable by the caller.
                item_outcome = Err(SetError::NotFound);
            } else {
                match eval_create_item(create_item) {
                    Err(e) => {
                        item_outcome = Err(e);
                    },
                    Ok((mailboxes, keywords, received_at)) => {
                        if mailboxes.len() == 0 {
                            // The message has to belong to at least one
                            // mailbox.
                            item_outcome = Err(
                                SetError::InvalidProperties(Property::MailboxIds),
                            );
                        } else {
                            // Every target mailbox must exist, and be
                            // writable by the caller when the account is
                            // shared with it.
                            let mut ok: bool = true;
                            let mut item_err: SetError = SetError::NotFound;
                            let mut mb: usize = 0;
                            while mb < mailboxes.len() && ok
                                invariant
                                    mb <= mailboxes@.len(),
                                decreases mailboxes@.len() - mb + (if ok {
                                    1int
                                } else {
                                    0int
                                }),
                            {
                                if !self.store.doc_exists(
                                    account_id,
                                    Collection::Mailbox,
                                    mailboxes[mb],
                                ) {
                                    ok = false;
                                    item_err = SetError::InvalidProperties(Property::MailboxIds);
                                } else if shared && !access_token.can_add_to_mailbox(
                                    account_id,
                                    mailboxes[mb],
                                ) {
                                    ok = false;
                                    item_err = SetError::Forbidden;
                                } else {
                                    mb = mb + 1;
                                }
                            }
                            if !ok {
                                item_outcome = Err(item_err);
                            } else {
                                match self.copy_message(
                                    from_account_id,
                                    from_message_id,
                                    account_id,
                                    account_quota,
                                    mailboxes,
                                    keywords,
                                    received_at,
                                ) {
                                    Ok(inner) => {
                                        item_outcome = inner;
                                    },
                                    Err(e) => {
                                        return Err(e);
                                    },
                                }
                            }
                        }
                    },
                }
            }

            proof {
                // The change log only ever grows, and a successful copy
                // commits records strictly newer than any state observed
                // before it.
                let pre_log = pre_store.change_log@;
                if self.store.change_log@ != pre_log {
                    let extra = self.store.change_log@.subrange(
                        pre_log.len() as int,
                        self.store.change_log@.len() as int,
                    );
                    assert(self.store.change_log@ =~= pre_log + extra);
                    let cid = (crate::store::counter_of(pre_store.change_counters@, account_id)
                        + 1) as u64;
                    crate::store::lemma_state_of_from_log(pre_log, account_id, Collection::Email);
                    assert forall|ii: int|
                        0 <= ii < extra.len() && (#[trigger] extra[ii]).account == account_id
                            && extra[ii].collection == Collection::Email implies state_of(
                        pre_log,
                        account_id,
                        Collection::Email,
                    ).rank() < extra[ii].change_id by {
                        assert(extra[ii] == self.store.change_log@[pre_log.len() as int + ii]);
                        let st = state_of(pre_log, account_id, Collection::Email);
                        if st is Exact {
                            let c = st->Exact_0;
                            let wi = choose|wi: int|
                                0 <= wi < pre_log.len() && (#[trigger] pre_log[wi]).account
                                    == account_id && pre_log[wi].collection == Collection::Email
                                    && pre_log[wi].change_id == c;
                            assert(pre_log[wi].change_id <= crate::store::counter_of(
                                pre_store.change_counters@,
                                account_id,
                            ));
                        }
                    }
                    assert(extra[1] == self.store.change_log@[pre_log.len() as int + 1]);
                    assert(extra[1].account == account_id && extra[1].collection
                        == Collection::Email);
                    crate::store::lemma_state_monotonic(
                        pre_log,
                        extra,
                        account_id,
                        Collection::Email,
                    );
                    assert(self.store.change_log@.subrange(
                        0,
                        old(self).store.change_log@.len() as int,
                    ) =~= pre_log.subrange(0, old(self).store.change_log@.len() as int));
                }
            }

            let ghost created_before = response.created@;
            let ghost not_created_before = response.not_created@;
            match item_outcome {
                Ok(email) => {
                    response.created.push((id, email));
                    if on_success_delete {
                        destroy_ids.push(id);
                    }
                    proof {
                        created_before.lemma_push_map_commute(
                            |p: (Id, IngestedEmail)| p.0,
                            response.created@.last(),
                        );
                        assert(response.created@.map_values(|p: (Id, IngestedEmail)| p.0)
                            =~= created_before.map_values(|p: (Id, IngestedEmail)| p.0).push(id));
                        if on_success_delete {
                            assert(destroy_ids@ =~= response.created@.map_values(
                                |p: (Id, IngestedEmail)| p.0,
                            ));
                        }
                        lemma_keys_where_push(reqkeys.subrange(0, kk), picks, id, true, true);
                        lemma_keys_where_push(reqkeys.subrange(0, kk), picks, id, true, false);
                        picks = picks.push(true);
                        assert(response.created@.map_values(|p: (Id, IngestedEmail)| p.0)
                            =~= keys_where(reqkeys.subrange(0, kk + 1), picks, true));
                        assert(response.not_created@.map_values(|p: (Id, SetError)| p.0)
                            =~= keys_where(reqkeys.subrange(0, kk + 1), picks, false));
                    }
                },
                Err(e) => {
                    response.not_created.push((id, e));
                    proof {
                        not_created_before.lemma_push_map_commute(
                            |p: (Id, SetError)| p.0,
                            response.not_created@.last(),
                        );
                        assert(response.not_created@.map_values(|p: (Id, SetError)| p.0)
                            =~= not_created_before.map_values(|p: (Id, SetError)| p.0).push(id));
                        lemma_keys_where_push(reqkeys.subrange(0, kk), picks, id, false, true);
                        lemma_keys_where_push(reqkeys.subrange(0, kk), picks, id, false, false);
                        picks = picks.push(false);
                        assert(response.created@.map_values(|p: (Id, IngestedEmail)| p.0)
                            =~= keys_where(reqkeys.subrange(0, kk + 1), picks, true));
                        assert(response.not_created@.map_values(|p: (Id, SetError)| p.0)
                            =~= keys_where(reqkeys.subrange(0, kk + 1), picks, false));
                    }
                },
            }
        }
        proof {
            assert(reqkeys.subrange(0, picks.len() as int) =~= reqkeys);
        }

        // When anything was created, report the state reached and notify
        // subscribed clients of the new change id.
        if response.created.len() > 0 {
            response.new_state = self.store.get_state(account_id, Collection::Email);
            if let State::Exact(cid) = response.new_state {
                let sc = StateChange::new(account_id).with_change(TypeState::Email, cid)
                    .with_change(TypeState::Mailbox, cid).with_change(TypeState::Thread, cid);
                proof {
                    assert(sc.types@ =~= seq![
                        (TypeState::Email, cid),
                        (TypeState::Mailbox, cid),
                        (TypeState::Thread, cid),
                    ]);
                }
                response.state_change = Some(sc);
            }
        }

        // Queue the follow-up destroy against the source account, scoped
        // to exactly the successfully copied ids.
        if on_success_delete && destroy_ids.len() > 0 {
            *next_call = Some(
                Call {
                    id: String::new(),
                    method: SetRequest {
                        account_id: request.from_account_id,
                        if_in_state: request.destroy_from_if_in_state,
                        destroy: destroy_ids,
                    },
                },
            );
        }
        Ok(response)
    }
}

} // verus!
