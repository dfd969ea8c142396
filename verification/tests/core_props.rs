use mailsync::copy::{Call, CopyRequest, CreateItem, SetValue};
use mailsync::jmap::{AccessToken, Config, DocGrant, JMAP};
use mailsync::store::{
    Batch, BlobEntry, BlobRecord, Changes, DocRecord, DocumentOp, MessageMetadata, MessageRecord,
    SearchRecord, Store, ThreadEntry,
};
use mailsync::types::{BlobKind, Collection, Id, MethodError, Property, SetError, State};

fn empty_jmap() -> JMAP {
    JMAP {
        store: Store::new(),
        config: Config {
            upload_tmp_quota_size: 0,
            upload_tmp_quota_amount: 0,
            upload_tmp_ttl: 3600,
            max_concurrent_uploads: 4,
        },
        in_flight: Vec::new(),
        account_quotas: Vec::new(),
    }
}

fn token_for(account: u32) -> AccessToken {
    AccessToken {
        primary_id: account,
        super_user: false,
        shared_accounts: Vec::new(),
        readable_messages: Vec::new(),
        writable_mailboxes: Vec::new(),
    }
}

/// Seed a source message in account 1 and a target mailbox in account 2.
fn seed_copy_fixture(store: &mut Store) {
    store.docs.push(DocRecord { account: 1, collection: Collection::Email, document: 0 });
    store.messages.push(MessageRecord {
        account: 1,
        document: 0,
        metadata: MessageMetadata {
            size: 10,
            subject: String::from("Re: Hello"),
            references: vec![b"<a@example.com>".to_vec()],
            received_at: None,
        },
    });
    store.search_index.push(SearchRecord { account: 1, document: 0 });
    store.blobs.push(BlobRecord {
        kind: BlobKind::LinkedMaildir { account_id: 1, document_id: 0 },
        entry: BlobEntry::Stored { data: b"message body".to_vec() },
    });
    // Target mailbox 7 in account 2.
    store.docs.push(DocRecord { account: 2, collection: Collection::Mailbox, document: 7 });
}

fn copy_request(create: Vec<(Id, CreateItem)>) -> CopyRequest {
    CopyRequest {
        from_account_id: Id::from_document_id(1),
        account_id: Id::from_document_id(2),
        if_in_state: None,
        create,
        on_success_destroy_original: None,
        destroy_from_if_in_state: None,
    }
}

fn mailbox_item(mailbox: u32) -> CreateItem {
    CreateItem {
        properties: vec![(
            Property::MailboxIds,
            SetValue::IdList(vec![Id::from_document_id(mailbox)]),
        )],
    }
}

#[test]
fn state_monotonic_across_commits() {
    let mut store = Store::new();
    assert_eq!(store.get_state(1, Collection::Email), State::Initial);
    for expected in 1..4u64 {
        let mut changes = store.begin_changes(1).unwrap();
        changes.log_insert(Collection::Email, expected);
        let batch = Batch {
            account_id: 1,
            ops: Vec::new(),
            values: Vec::new(),
            changes: Some(changes),
            email_index: None,
            search_index: None,
            thread_tokens: None,
        };
        store.commit(batch).unwrap();
        let s = store.get_state(1, Collection::Email);
        assert_eq!(s, State::Exact(expected));
    }
}

#[test]
fn failed_commit_is_all_or_nothing() {
    let mut store = Store::new();
    let mut changes = store.begin_changes(1).unwrap();
    changes.log_insert(Collection::Email, 5);
    let batch = Batch {
        account_id: 1,
        ops: vec![DocumentOp::Create { collection: Collection::Email, document: 5 }],
        values: Vec::new(),
        changes: Some(changes),
        email_index: None,
        search_index: None,
        thread_tokens: None,
    };
    store.fail_commits = true;
    assert!(store.commit(batch).is_err());
    // None of the batch's documents is visible, no change was logged.
    assert!(!store.doc_exists(1, Collection::Email, 5));
    assert_eq!(store.get_state(1, Collection::Email), State::Initial);
}

#[test]
fn quota_admission_boundary() {
    let mut jmap = empty_jmap();
    jmap.config.upload_tmp_quota_size = 100;
    let token = token_for(1);
    let account = Id::from_document_id(1);
    // A pending usage of 80 bytes.
    let pending = [0u8; 80];
    jmap.blob_upload(account, "application/octet-stream", &pending, &token).unwrap();
    // 25 more bytes would exceed max_bytes = 100: rejected.
    let too_big = [0u8; 25];
    let err = jmap.blob_upload(account, "application/octet-stream", &too_big, &token);
    assert!(err.is_err());
    let e = err.err().unwrap();
    assert_eq!(e.status, 400);
    assert!(e.detail.contains("100"));
    // 20 bytes fit exactly: admitted.
    let fits = [0u8; 20];
    let ok = jmap.blob_upload(account, "application/octet-stream", &fits, &token).unwrap();
    assert_eq!(ok.size, 20);
}

#[test]
fn quota_file_count_and_super_user_bypass() {
    let mut jmap = empty_jmap();
    jmap.config.upload_tmp_quota_amount = 1;
    let token = token_for(1);
    let account = Id::from_document_id(1);
    jmap.blob_upload(account, "text/plain", b"x", &token).unwrap();
    assert!(jmap.blob_upload(account, "text/plain", b"y", &token).is_err());
    let mut root = token_for(1);
    root.super_user = true;
    assert!(jmap.blob_upload(account, "text/plain", b"z", &root).is_ok());
}

#[test]
fn concurrency_gate_released_after_error() {
    let mut jmap = empty_jmap();
    jmap.config.max_concurrent_uploads = 1;
    let token = token_for(1);
    let account = Id::from_document_id(1);
    // Storage failure: the upload errors, but the slot must be free again.
    jmap.store.fail_commits = true;
    assert!(jmap.blob_upload(account, "text/plain", b"x", &token).is_err());
    jmap.store.fail_commits = false;
    // A subsequent admission observes the slot free.
    assert!(jmap.blob_upload(account, "text/plain", b"x", &token).is_ok());
}

#[test]
fn concurrency_gate_blocks_while_held() {
    let mut jmap = empty_jmap();
    jmap.config.max_concurrent_uploads = 1;
    let token = token_for(1);
    jmap.acquire_upload_slot(&token).unwrap();
    assert!(jmap.acquire_upload_slot(&token).is_err());
    jmap.release_upload_slot(&token);
    assert!(jmap.acquire_upload_slot(&token).is_ok());
}

#[test]
fn thread_resolution_smallest_id_and_idempotent() {
    let mut store = Store::new();
    store.thread_index.push(ThreadEntry { account: 2, token: b"<a@x>".to_vec(), thread: 9 });
    store.thread_index.push(ThreadEntry { account: 2, token: b"<b@x>".to_vec(), thread: 4 });
    store.thread_index.push(ThreadEntry { account: 3, token: b"<a@x>".to_vec(), thread: 1 });
    let refs: Vec<Vec<u8>> = vec![b"<a@x>".to_vec(), b"<b@x>".to_vec()];
    // Smallest matching thread id of the account wins; other accounts'
    // entries do not take part.
    let t = store.find_or_merge_thread(2, "subject", &refs);
    assert_eq!(t, Some(4));
    // Merging the same references under the chosen thread keeps the
    // resolution stable.
    for r in &refs {
        store.thread_index.push(ThreadEntry { account: 2, token: r.clone(), thread: 4 });
    }
    assert_eq!(store.find_or_merge_thread(2, "subject", &refs), Some(4));
    // No match at all asks the caller to allocate a new thread.
    let other: Vec<Vec<u8>> = vec![b"<zz@x>".to_vec()];
    assert_eq!(store.find_or_merge_thread(2, "subject", &other), None);
}

#[test]
fn subject_normalization_strips_reply_prefix() {
    let n = mailsync::thread::thread_name_normalized("Re: Hello world");
    assert_eq!(n.as_str(), "Hello world");
    let fwd = mailsync::thread::thread_name_normalized("Fwd: Re: Budget");
    assert_eq!(fwd.as_str(), "Budget");
}

#[test]
fn copy_into_existing_thread() {
    let mut jmap = empty_jmap();
    seed_copy_fixture(&mut jmap.store);
    // Account 2 already has a thread holding that conversation token.
    jmap.store.thread_index.push(ThreadEntry {
        account: 2,
        token: b"<a@example.com>".to_vec(),
        thread: 5,
    });
    let token = token_for(1);
    let mut next_call: Option<Call> = None;
    let request = copy_request(vec![(Id::from_document_id(0), mailbox_item(7))]);
    let response = jmap.email_copy(request, &token, &mut next_call).unwrap();
    assert_eq!(response.created.len(), 1);
    assert_eq!(response.not_created.len(), 0);
    let (_, email) = &response.created[0];
    // The new message joined thread 5.
    assert_eq!(email.id.prefix_id(), 5);
    assert_eq!(email.size, 10);
    // A child-update change for thread 5 was committed.
    assert!(jmap.store.change_log.iter().any(|r| {
        r.account == 2
            && r.collection == Collection::Thread
            && r.document == 5
            && r.kind == mailsync::types::ChangeKind::ChildUpdate
    }));
    // The blob was linked, not copied: no second byte store exists.
    let stored = jmap
        .store
        .blobs
        .iter()
        .filter(|b| matches!(b.entry, BlobEntry::Stored { .. }))
        .count();
    assert_eq!(stored, 1);
    assert!(jmap.store.blobs.iter().any(|b| matches!(b.entry, BlobEntry::Linked { .. })));
    // The state moved and a notification covers the three object types.
    assert_ne!(response.new_state, response.old_state);
    let sc = response.state_change.expect("state change");
    assert_eq!(sc.account_id, 2);
    assert_eq!(sc.types.len(), 3);
}

#[test]
fn copy_without_match_allocates_new_thread() {
    let mut jmap = empty_jmap();
    seed_copy_fixture(&mut jmap.store);
    let token = token_for(1);
    let mut next_call: Option<Call> = None;
    let request = copy_request(vec![(Id::from_document_id(0), mailbox_item(7))]);
    let response = jmap.email_copy(request, &token, &mut next_call).unwrap();
    assert_eq!(response.created.len(), 1);
    // A fresh thread document was created in the target account.
    assert!(jmap.store.docs.iter().any(|d| d.account == 2 && d.collection == Collection::Thread));
}

#[test]
fn copy_same_account_rejected_without_writes() {
    let mut jmap = empty_jmap();
    seed_copy_fixture(&mut jmap.store);
    let token = token_for(1);
    let mut next_call: Option<Call> = None;
    let docs_before = jmap.store.docs.len();
    let blobs_before = jmap.store.blobs.len();
    let log_before = jmap.store.change_log.len();
    let request = CopyRequest {
        from_account_id: Id::from_document_id(2),
        account_id: Id::from_document_id(2),
        if_in_state: None,
        create: vec![(Id::from_document_id(0), mailbox_item(7))],
        on_success_destroy_original: None,
        destroy_from_if_in_state: None,
    };
    let r = jmap.email_copy(request, &token, &mut next_call);
    assert_eq!(r.err().unwrap(), MethodError::InvalidArguments);
    // Zero storage writes happened.
    assert_eq!(jmap.store.docs.len(), docs_before);
    assert_eq!(jmap.store.blobs.len(), blobs_before);
    assert_eq!(jmap.store.change_log.len(), log_before);
    assert!(next_call.is_none());
}

#[test]
fn copy_state_precondition_mismatch() {
    let mut jmap = empty_jmap();
    seed_copy_fixture(&mut jmap.store);
    let token = token_for(1);
    let mut next_call: Option<Call> = None;
    let mut request = copy_request(vec![(Id::from_document_id(0), mailbox_item(7))]);
    request.if_in_state = Some(State::Exact(99));
    let r = jmap.email_copy(request, &token, &mut next_call);
    assert_eq!(r.err().unwrap(), MethodError::StateMismatch);
}

#[test]
fn copy_missing_source_not_found() {
    let mut jmap = empty_jmap();
    seed_copy_fixture(&mut jmap.store);
    let token = token_for(1);
    let mut next_call: Option<Call> = None;
    let request = copy_request(vec![(Id::from_document_id(42), mailbox_item(7))]);
    let response = jmap.email_copy(request, &token, &mut next_call).unwrap();
    assert_eq!(response.created.len(), 0);
    assert_eq!(response.not_created.len(), 1);
    assert_eq!(response.not_created[0].1, SetError::NotFound);
    assert_eq!(response.new_state, response.old_state);
    assert!(response.state_change.is_none());
}

#[test]
fn copy_unknown_mailbox_invalid_properties() {
    let mut jmap = empty_jmap();
    seed_copy_fixture(&mut jmap.store);
    let token = token_for(1);
    let mut next_call: Option<Call> = None;
    let request = copy_request(vec![(Id::from_document_id(0), mailbox_item(12345))]);
    let response = jmap.email_copy(request, &token, &mut next_call).unwrap();
    assert_eq!(response.not_created[0].1, SetError::InvalidProperties(Property::MailboxIds));
}

#[test]
fn copy_no_mailbox_invalid_properties() {
    let mut jmap = empty_jmap();
    seed_copy_fixture(&mut jmap.store);
    let token = token_for(1);
    let mut next_call: Option<Call> = None;
    let request = copy_request(vec![(
        Id::from_document_id(0),
        CreateItem { properties: Vec::new() },
    )]);
    let response = jmap.email_copy(request, &token, &mut next_call).unwrap();
    assert_eq!(response.not_created[0].1, SetError::InvalidProperties(Property::MailboxIds));
}

#[test]
fn copy_over_account_quota() {
    let mut jmap = empty_jmap();
    seed_copy_fixture(&mut jmap.store);
    jmap.account_quotas.push(mailsync::jmap::AccountQuota { account: 2, quota: 5 });
    let token = token_for(1);
    let mut next_call: Option<Call> = None;
    let request = copy_request(vec![(Id::from_document_id(0), mailbox_item(7))]);
    let response = jmap.email_copy(request, &token, &mut next_call).unwrap();
    assert_eq!(response.not_created[0].1, SetError::OverQuota);
}

#[test]
fn copy_destroy_follow_up_scoped_to_created() {
    let mut jmap = empty_jmap();
    seed_copy_fixture(&mut jmap.store);
    let token = token_for(1);
    let mut next_call: Option<Call> = None;
    let mut request = copy_request(vec![
        (Id::from_document_id(0), mailbox_item(7)),
        (Id::from_document_id(42), mailbox_item(7)),
    ]);
    request.on_success_destroy_original = Some(true);
    request.destroy_from_if_in_state = Some(State::Initial);
    let response = jmap.email_copy(request, &token, &mut next_call).unwrap();
    assert_eq!(response.created.len(), 1);
    assert_eq!(response.not_created.len(), 1);
    let call = next_call.expect("follow-up destroy call");
    assert_eq!(call.method.account_id, Id::from_document_id(1));
    assert_eq!(call.method.if_in_state, Some(State::Initial));
    // Scoped to exactly the successfully copied source ids.
    assert_eq!(call.method.destroy, vec![Id::from_document_id(0)]);
}

#[test]
fn copy_forbidden_shared_mailbox() {
    let mut jmap = empty_jmap();
    seed_copy_fixture(&mut jmap.store);
    // The caller reaches account 2 only through sharing, with no write
    // grant on mailbox 7.
    let mut token = token_for(1);
    token.shared_accounts.push(2);
    let mut next_call: Option<Call> = None;
    let request = copy_request(vec![(Id::from_document_id(0), mailbox_item(7))]);
    let response = jmap.email_copy(request, &token, &mut next_call).unwrap();
    assert_eq!(response.not_created[0].1, SetError::Forbidden);
    // With a grant the copy goes through.
    let mut jmap2 = empty_jmap();
    seed_copy_fixture(&mut jmap2.store);
    let mut token2 = token_for(1);
    token2.shared_accounts.push(2);
    token2.writable_mailboxes.push(DocGrant { account: 2, document: 7 });
    let request2 = copy_request(vec![(Id::from_document_id(0), mailbox_item(7))]);
    let response2 = jmap2.email_copy(request2, &token2, &mut next_call).unwrap();
    assert_eq!(response2.created.len(), 1);
}

#[test]
fn copy_received_at_override_and_patches() {
    let mut jmap = empty_jmap();
    seed_copy_fixture(&mut jmap.store);
    jmap.store.docs.push(DocRecord { account: 2, collection: Collection::Mailbox, document: 8 });
    let token = token_for(1);
    let mut next_call: Option<Call> = None;
    let item = CreateItem {
        properties: vec![
            (
                Property::MailboxIds,
                SetValue::IdList(vec![Id::from_document_id(7), Id::from_document_id(8)]),
            ),
            (Property::MailboxIds, SetValue::IdPatch(Id::from_document_id(8), false)),
            (Property::Keywords, SetValue::KeywordPatch(String::from("$seen"), true)),
            (Property::ReceivedAt, SetValue::Date(1700000000)),
        ],
    };
    let request = copy_request(vec![(Id::from_document_id(0), item)]);
    let response = jmap.email_copy(request, &token, &mut next_call).unwrap();
    assert_eq!(response.created.len(), 1);
    let stored = jmap.store.messages.last().unwrap();
    assert_eq!(stored.account, 2);
    assert_eq!(stored.metadata.received_at, Some(1700000000));
    // Mailbox 8 was patched away again: only mailbox 7 is indexed.
    let mb = jmap
        .store
        .values
        .iter()
        .find(|v| v.property == Property::MailboxIds)
        .expect("mailbox value");
    match &mb.value {
        mailsync::store::PropValue::U32List(ids) => assert_eq!(ids, &vec![7u32]),
        other => panic!("unexpected value {:?}", other),
    }
}

#[test]
fn eval_item_invalid_property() {
    let item = CreateItem {
        properties: vec![(Property::Subject, SetValue::Invalid)],
    };
    let r = mailsync::copy::eval_create_item(item);
    assert_eq!(r.err().unwrap(), SetError::InvalidProperties(Property::Subject));
}

#[test]
fn eval_item_keyword_patch_remove() {
    let item = CreateItem {
        properties: vec![
            (
                Property::Keywords,
                SetValue::KeywordList(vec![String::from("a"), String::from("b")]),
            ),
            (Property::Keywords, SetValue::KeywordPatch(String::from("a"), false)),
            (Property::Keywords, SetValue::KeywordPatch(String::from("b"), true)),
        ],
    };
    let (_, keywords, _) = mailsync::copy::eval_create_item(item).unwrap();
    assert_eq!(keywords, vec![String::from("b")]);
}

#[test]
fn put_and_delete_blob() {
    let mut jmap = empty_jmap();
    let kind = BlobKind::Temporary { account_id: 1, seq: 0 };
    jmap.put_blob(&kind, b"abc").unwrap();
    assert_eq!(jmap.delete_blob(&kind).unwrap(), true);
    assert_eq!(jmap.delete_blob(&kind).unwrap(), false);
}

#[test]
fn id_parts_round_trip() {
    let id = Id::from_parts(5, 17);
    assert_eq!(id.prefix_id(), 5);
    assert_eq!(id.document_id(), 17);
    let plain = Id::from_document_id(9);
    assert_eq!(plain.prefix_id(), 0);
    assert_eq!(plain.document_id(), 9);
}

#[test]
fn copy_twice_joins_same_thread() {
    // The first copy finds no thread and allocates one; copying a second
    // message with the same references joins exactly that thread.
    let mut jmap = empty_jmap();
    seed_copy_fixture(&mut jmap.store);
    // A second source message sharing the conversation references.
    jmap.store.docs.push(DocRecord { account: 1, collection: Collection::Email, document: 1 });
    jmap.store.messages.push(MessageRecord {
        account: 1,
        document: 1,
        metadata: MessageMetadata {
            size: 12,
            subject: String::from("Re: Re: Hello"),
            references: vec![b"<a@example.com>".to_vec(), b"<b@example.com>".to_vec()],
            received_at: None,
        },
    });
    jmap.store.search_index.push(SearchRecord { account: 1, document: 1 });
    jmap.store.blobs.push(BlobRecord {
        kind: BlobKind::LinkedMaildir { account_id: 1, document_id: 1 },
        entry: BlobEntry::Stored { data: b"second body".to_vec() },
    });
    let token = token_for(1);
    let mut next_call: Option<Call> = None;
    let first = jmap
        .email_copy(
            copy_request(vec![(Id::from_document_id(0), mailbox_item(7))]),
            &token,
            &mut next_call,
        )
        .unwrap();
    let second = jmap
        .email_copy(
            copy_request(vec![(Id::from_document_id(1), mailbox_item(7))]),
            &token,
            &mut next_call,
        )
        .unwrap();
    let t1 = first.created[0].1.id.prefix_id();
    let t2 = second.created[0].1.id.prefix_id();
    assert_eq!(t1, t2);
    // And the states moved strictly forward between the two commits.
    match (first.new_state, second.new_state) {
        (State::Exact(a), State::Exact(b)) => assert!(b > a),
        other => panic!("unexpected states {:?}", other),
    }
}

#[test]
fn used_quota_charged_per_copy() {
    let mut jmap = empty_jmap();
    seed_copy_fixture(&mut jmap.store);
    assert_eq!(jmap.store.get_used_quota(2), 0);
    let token = token_for(1);
    let mut next_call: Option<Call> = None;
    jmap.email_copy(
        copy_request(vec![(Id::from_document_id(0), mailbox_item(7))]),
        &token,
        &mut next_call,
    )
    .unwrap();
    assert_eq!(jmap.store.get_used_quota(2), 10);
}

#[test]
fn tmp_blob_usage_recomputed_per_attempt() {
    let mut jmap = empty_jmap();
    let token = token_for(1);
    let account = Id::from_document_id(1);
    jmap.blob_upload(account, "text/plain", b"12345", &token).unwrap();
    jmap.blob_upload(account, "text/plain", b"678", &token).unwrap();
    let (files, bytes) = jmap.store.get_tmp_blob_usage(1);
    assert_eq!(files, 2);
    assert_eq!(bytes, 8);
    // Another account's usage stays untouched.
    assert_eq!(jmap.store.get_tmp_blob_usage(2), (0, 0));
}

#[test]
fn batch_delete_removes_document() {
    let mut store = Store::new();
    let make_batch = |op: DocumentOp, changes: Option<Changes>| Batch {
        account_id: 1,
        ops: vec![op],
        values: Vec::new(),
        changes,
        email_index: None,
        search_index: None,
        thread_tokens: None,
    };
    store
        .commit(make_batch(
            DocumentOp::Create { collection: Collection::Mailbox, document: 3 },
            None,
        ))
        .unwrap();
    assert!(store.doc_exists(1, Collection::Mailbox, 3));
    store
        .commit(make_batch(
            DocumentOp::Delete { collection: Collection::Mailbox, document: 3 },
            None,
        ))
        .unwrap();
    assert!(!store.doc_exists(1, Collection::Mailbox, 3));
}
