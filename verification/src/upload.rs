use vstd::prelude::*;

use crate::jmap::{in_flight_of, upload_quota_exceeded, AccessToken, JMAP};
use crate::store::{blob_of, cap_u64, tmp_bytes_of, tmp_count_of, BlobEntry};
use crate::types::{
    BlobId, BlobKind, Id, MethodError, RequestError, RequestErrorType, RequestLimitError,
};

verus! {

/// What a successful upload reports back: where the temporary blob lives,
/// its declared content type, and its size.
#[derive(Clone, Debug)]
pub struct UploadResponse {
    pub account_id: Id,
    pub blob_id: BlobId,
    pub c_type: String,
    pub size: usize,
}

impl JMAP {
    /// Whether an upload of `len` bytes into the account must be refused
    /// by the size/count gate, given the store's current temporary usage.
    /// A super-user is never refused here.
    pub open spec fn upload_quota_rejected(&self, account: u32, len: int, token: AccessToken) -> bool {
        !token.super_user && upload_quota_exceeded(
            self.config.upload_tmp_quota_amount,
            self.config.upload_tmp_quota_size,
            tmp_count_of(self.store.blobs@, account),
            cap_u64(tmp_bytes_of(self.store.blobs@, account)) as int,
            len,
        )
    }

    /// Admit and perform one blob upload: acquire a concurrency slot,
    /// recompute the account's temporary usage freshly, enforce the
    /// size/count quota, store the bytes as a temporary blob, and release
    /// the slot — on every exit path, success or failure, so a subsequent
    /// admission check observes the slot free again.
    pub fn blob_upload(
        &mut self,
        account_id: Id,
        content_type: &str,
        data: &[u8],
        access_token: &AccessToken,
    ) -> (r: Result<UploadResponse, RequestError>)
        ensures
            forall|p: u32|
                in_flight_of(final(self).in_flight@, p) == in_flight_of(old(self).in_flight@, p),
            r is Err <==> old(self).concurrency_rejected(*access_token) || old(
                self,
            ).upload_quota_rejected(account_id.document_id(), data@.len() as int, *access_token)
                || old(self).store.fail_commits,
            r is Err ==> final(self).store == old(self).store,
            old(self).concurrency_rejected(*access_token) ==> (r matches Err(e) && e.p_type
                == RequestErrorType::Limit && e.limit == Some(RequestLimitError::ConcurrentUpload)
                && e.status == 400 && e.detail@ == crate::types::limit_detail(
                RequestLimitError::ConcurrentUpload,
            )),
            !old(self).concurrency_rejected(*access_token) && old(self).upload_quota_rejected(
                account_id.document_id(),
                data@.len() as int,
                *access_token,
            ) ==> (r matches Err(e) && e.p_type == RequestErrorType::OverBlobQuota && e.limit
                is None && e.status == 400 && e.detail@ == "Quota exceeded: maximum of "@
                + crate::text::dec_of(old(self).config.upload_tmp_quota_amount as int)
                + " files and "@ + crate::text::dec_of(
                old(self).config.upload_tmp_quota_size as int,
            ) + " bytes."@),
            !old(self).concurrency_rejected(*access_token) && !old(self).upload_quota_rejected(
                account_id.document_id(),
                data@.len() as int,
                *access_token,
            ) && old(self).store.fail_commits ==> (r matches Err(e) && e.p_type
                == RequestErrorType::Internal && e.limit is None && e.status == 500 && e.detail@
                == "Internal server error."@),
            r matches Ok(resp) ==> {
                &&& resp.account_id == account_id
                &&& resp.blob_id.kind == (BlobKind::Temporary {
                    account_id: account_id.document_id(),
                    seq: old(self).store.tmp_blob_seq,
                })
                &&& resp.size == data@.len()
                &&& resp.c_type@ == content_type@
                &&& tmp_count_of(final(self).store.blobs@, account_id.document_id())
                    == tmp_count_of(old(self).store.blobs@, account_id.document_id()) + 1
                &&& tmp_bytes_of(final(self).store.blobs@, account_id.document_id())
                    == tmp_bytes_of(old(self).store.blobs@, account_id.document_id())
                    + data@.len()
                &&& blob_of(final(self).store.blobs@, resp.blob_id.kind) matches Some(
                    BlobEntry::Stored { data: d },
                ) && d@ == data@
                &&& final(self).store.tmp_blob_seq == (if old(self).store.tmp_blob_seq
                    == u32::MAX {
                    0u32
                } else {
                    (old(self).store.tmp_blob_seq + 1) as u32
                })
            },
            final(self).store.docs == old(self).store.docs,
            final(self).store.values == old(self).store.values,
            final(self).store.messages == old(self).store.messages,
            final(self).store.change_log == old(self).store.change_log,
            final(self).store.change_counters == old(self).store.change_counters,
            final(self).store.doc_counters == old(self).store.doc_counters,
            final(self).store.quotas == old(self).store.quotas,
            final(self).store.thread_index == old(self).store.thread_index,
            final(self).store.search_index == old(self).store.search_index,
            final(self).store.fail_commits == old(self).store.fail_commits,
            final(self).config == old(self).config,
            final(self).account_quotas == old(self).account_quotas,
    {
        // Limit concurrent uploads; the slot is held for the rest of the
        // operation and given back on every path out of it.
        let acquired = self.acquire_upload_slot(access_token);
        if let Err(e) = acquired {
            return Err(e);
        }
        let account = account_id.document_id();

        // Enforce quota against usage recomputed now, not cached.
        let usage = self.store.get_tmp_blob_usage(account);
        let total_files = usage.0;
        let total_bytes = usage.1;
        let exceeded: bool = (self.config.upload_tmp_quota_size > 0 && (total_bytes as u128)
            + (data.len() as u128) > (self.config.upload_tmp_quota_size as u128)) || (
        self.config.upload_tmp_quota_amount > 0 && total_files as u128 + 1
            > self.config.upload_tmp_quota_amount as u128);
        if exceeded && !access_token.is_super_user() {
            self.release_upload_slot(access_token);
            return Err(RequestError::over_blob_quota(
                self.config.upload_tmp_quota_amount,
                self.config.upload_tmp_quota_size,
            ));
        }

        let seq = self.store.tmp_blob_seq;
        let kind = BlobKind::Temporary { account_id: account, seq };
        match self.store.put_blob(kind, data) {
            Ok(_) => {
                self.store.tmp_blob_seq = if seq == u32::MAX {
                    0
                } else {
                    seq + 1
                };
                self.release_upload_slot(access_token);
                Ok(
                    UploadResponse {
                        account_id,
                        blob_id: BlobId { kind },
                        c_type: content_type.to_owned(),
                        size: data.len(),
                    },
                )
            },
            Err(_) => {
                self.release_upload_slot(access_token);
                Err(RequestError::internal_server_error())
            },
        }
    }

    /// Store bytes under a blob descriptor; storage failure surfaces only
    /// as a generic server error.
    pub fn put_blob(&mut self, kind: &BlobKind, data: &[u8]) -> (r: Result<(), MethodError>)
        ensures
            r is Err <==> old(self).store.fail_commits,
            r is Err ==> r == Err::<(), MethodError>(MethodError::ServerPartialFail) && *final(self)
                == *old(self),
            r is Ok ==> {
                &&& final(self).store.blobs@.len() == old(self).store.blobs@.len() + 1
                &&& blob_of(final(self).store.blobs@, *kind) matches Some(BlobEntry::Stored {
                    data: d,
                }) && d@ == data@
                &&& forall|k: BlobKind|
                    k != *kind ==> blob_of(final(self).store.blobs@, k) == blob_of(
                        old(self).store.blobs@,
                        k,
                    )
            },
            final(self).store.docs == old(self).store.docs,
            final(self).store.values == old(self).store.values,
            final(self).store.messages == old(self).store.messages,
            final(self).store.change_log == old(self).store.change_log,
            final(self).store.change_counters == old(self).store.change_counters,
            final(self).store.doc_counters == old(self).store.doc_counters,
            final(self).store.quotas == old(self).store.quotas,
            final(self).store.thread_index == old(self).store.thread_index,
            final(self).store.search_index == old(self).store.search_index,
            final(self).store.tmp_blob_seq == old(self).store.tmp_blob_seq,
            final(self).store.fail_commits == old(self).store.fail_commits,
            final(self).in_flight == old(self).in_flight,
            final(self).config == old(self).config,
            final(self).account_quotas == old(self).account_quotas,
    {
        match self.store.put_blob(*kind, data) {
            Ok(_) => Ok(()),
            Err(_) => Err(MethodError::ServerPartialFail),
        }
    }

    /// Delete a blob; reports whether one existed. Storage failure
    /// surfaces only as a generic server error.
    pub fn delete_blob(&mut self, kind: &BlobKind) -> (r: Result<bool, MethodError>)
        ensures
            r is Err <==> old(self).store.fail_commits,
            r is Err ==> r == Err::<bool, MethodError>(MethodError::ServerPartialFail)
                && *final(self) == *old(self),
            r matches Ok(existed) ==> {
                &&& existed == (blob_of(old(self).store.blobs@, *kind) is Some)
                &&& final(self).store.blobs@ == old(self).store.blobs@.filter(
                    |b: crate::store::BlobRecord| b.kind != *kind,
                )
            },
            final(self).store.docs == old(self).store.docs,
            final(self).store.values == old(self).store.values,
            final(self).store.messages == old(self).store.messages,
            final(self).store.change_log == old(self).store.change_log,
            final(self).store.change_counters == old(self).store.change_counters,
            final(self).store.doc_counters == old(self).store.doc_counters,
            final(self).store.quotas == old(self).store.quotas,
            final(self).store.thread_index == old(self).store.thread_index,
            final(self).store.search_index == old(self).store.search_index,
            final(self).store.tmp_blob_seq == old(self).store.tmp_blob_seq,
            final(self).store.fail_commits == old(self).store.fail_commits,
            final(self).in_flight == old(self).in_flight,
            final(self).config == old(self).config,
            final(self).account_quotas == old(self).account_quotas,
    {
        match self.store.delete_blob(*kind) {
            Ok(existed) => Ok(existed),
            Err(_) => Err(MethodError::ServerPartialFail),
        }
    }
}

/// Law: the concurrency-gate guard is released on every exit path. After a
/// guarded operation whose contract restores every principal's in-flight
/// count — as `blob_upload` does on success, rejection, and storage
/// failure alike — a subsequent admission check decides exactly as it
/// would have before the operation: the slot is observed free.
pub proof fn lemma_gate_observed_free(pre: JMAP, post: JMAP, token: AccessToken)
    requires
        forall|p: u32| in_flight_of(post.in_flight@, p) == in_flight_of(pre.in_flight@, p),
        post.config == pre.config,
    ensures
        post.concurrency_rejected(token) == pre.concurrency_rejected(token),
{
}

} // verus!
