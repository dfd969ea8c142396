use vstd::prelude::*;

verus! {

/// Kinds of objects that own a change log and a document-id space.
#[derive(Clone, Copy, Debug, PartialEq, Eq, Structural)]
pub enum Collection {
    Email,
    Mailbox,
    Thread,
}

/// Object types reported to push-subscribed clients.
#[derive(Clone, Copy, Debug, PartialEq, Eq, Structural)]
pub enum TypeState {
    Email,
    Mailbox,
    Thread,
    EmailDelivery,
}

/// A change-log record is tagged with how the referenced document changed.
#[derive(Clone, Copy, Debug, PartialEq, Eq, Structural)]
pub enum ChangeKind {
    Insert,
    Update,
    ChildUpdate,
}

/// Per-account synchronization state of one collection: `Initial` before any
/// commit, otherwise the change id of the latest committed change.
#[derive(Clone, Copy, Debug, PartialEq, Eq, Structural)]
pub enum State {
    Initial,
    Exact(u64),
}

impl State {
    /// Rank used to compare states: `Initial` sorts below every change id.
    pub open spec fn rank(self) -> int {
        match self {
            State::Initial => -1,
            State::Exact(c) => c as int,
        }
    }
}

/// Document properties that carry indexed values or appear in copy requests.
#[derive(Clone, Copy, Debug, PartialEq, Eq, Structural)]
pub enum Property {
    MailboxIds,
    Keywords,
    ReceivedAt,
    ThreadId,
    Cid,
    Size,
    Subject,
}

/// An object id: the high 32 bits name a prefix (for messages, the thread),
/// the low 32 bits the document within its collection.
#[derive(Clone, Copy, Debug, PartialEq, Eq, Structural)]
pub struct Id {
    pub id: u64,
}

impl Id {
    pub open spec fn spec_document_id(&self) -> u32 {
        (self.id & 0xffff_ffff) as u32
    }

    pub open spec fn spec_prefix_id(&self) -> u32 {
        (self.id >> 32) as u32
    }

    /// Combine a prefix id and a document id into one object id.
    pub fn from_parts(prefix_id: u32, document_id: u32) -> (r: Id)
        ensures
            r.spec_document_id() == document_id,
            r.spec_prefix_id() == prefix_id,
    {
        let id: u64 = ((prefix_id as u64) << 32u64) | (document_id as u64);
        proof {
            let p = prefix_id;
            let d = document_id;
            assert((((p as u64) << 32u64) | (d as u64)) & 0xffff_ffff == d as u64) by (bit_vector);
            assert((((p as u64) << 32u64) | (d as u64)) >> 32u64 == p as u64) by (bit_vector);
        }
        Id { id }
    }

    /// An id for a lone document, with no prefix.
    pub fn from_document_id(document_id: u32) -> (r: Id)
        ensures
            r.spec_document_id() == document_id,
            r.spec_prefix_id() == 0,
    {
        proof {
            let d = document_id;
            assert((d as u64) & 0xffff_ffff == d as u64) by (bit_vector);
            assert((d as u64) >> 32u64 == 0u64) by (bit_vector);
        }
        Id { id: document_id as u64 }
    }

    #[verifier::when_used_as_spec(spec_document_id)]
    pub fn document_id(&self) -> (r: u32)
        ensures
            r == self.spec_document_id(),
    {
        (self.id & 0xffff_ffff) as u32
    }

    #[verifier::when_used_as_spec(spec_prefix_id)]
    pub fn prefix_id(&self) -> (r: u32)
        ensures
            r == self.spec_prefix_id(),
    {
        (self.id >> 32u64) as u32
    }
}

/// Where a message body lives: a temporary upload, or a link into an
/// account's message store.
#[derive(Clone, Copy, Debug, PartialEq, Eq, Structural)]
pub enum BlobKind {
    Temporary { account_id: u32, seq: u32 },
    LinkedMaildir { account_id: u32, document_id: u32 },
}

/// A blob descriptor.
#[derive(Clone, Copy, Debug, PartialEq, Eq, Structural)]
pub struct BlobId {
    pub kind: BlobKind,
}

/// Failure of one item inside a batched mutation; siblings keep going.
#[derive(Clone, Copy, Debug, PartialEq, Eq, Structural)]
pub enum SetError {
    NotFound,
    Forbidden,
    InvalidProperties(Property),
    OverQuota,
}

/// Failure of a whole method call.
#[derive(Clone, Debug, PartialEq, Eq, Structural)]
pub enum MethodError {
    InvalidArguments,
    StateMismatch,
    ServerPartialFail,
}

/// Failure of whole-request handling, serialized to clients as a structured
/// error object.
#[derive(Clone, Copy, Debug, PartialEq, Eq, Structural)]
pub enum RequestErrorType {
    Limit,
    NotRequest,
    NotJson,
    OverBlobQuota,
    Internal,
}

/// Which configured ceiling a `Limit` error ran into.
#[derive(Clone, Copy, Debug, PartialEq, Eq, Structural)]
pub enum RequestLimitError {
    SizeRequest,
    CallsIn,
    ConcurrentUpload,
}

/// The fixed human-readable detail of each limit error.
pub open spec fn limit_detail(kind: RequestLimitError) -> Seq<char> {
    match kind {
        RequestLimitError::SizeRequest => "Request size exceeds maximum allowed."@,
        RequestLimitError::CallsIn => "Request contains too many method calls."@,
        RequestLimitError::ConcurrentUpload => "Too many concurrent uploads."@,
    }
}

/// The structured error a failed request is reported with: an HTTP-style
/// status, an error-type tag, an optional limit-kind tag, and a detail
/// string.
#[derive(Clone, Debug)]
pub struct RequestError {
    pub p_type: RequestErrorType,
    pub limit: Option<RequestLimitError>,
    pub status: u16,
    pub detail: String,
}

impl RequestError {
    /// The message could not be understood as a request.
    pub fn not_request(detail: &str) -> (r: RequestError)
        ensures
            r.p_type == RequestErrorType::NotRequest,
            r.limit is None,
            r.status == 400,
            r.detail@ == detail@,
    {
        RequestError {
            p_type: RequestErrorType::NotRequest,
            limit: None,
            status: 400,
            detail: detail.to_owned(),
        }
    }

    /// A configured ceiling was hit.
    pub fn limit(kind: RequestLimitError) -> (r: RequestError)
        ensures
            r.p_type == RequestErrorType::Limit,
            r.limit == Some(kind),
            r.status == 400,
            r.detail@ == limit_detail(kind),
    {
        let detail: &str = match kind {
            RequestLimitError::SizeRequest => "Request size exceeds maximum allowed.",
            RequestLimitError::CallsIn => "Request contains too many method calls.",
            RequestLimitError::ConcurrentUpload => "Too many concurrent uploads.",
        };
        RequestError {
            p_type: RequestErrorType::Limit,
            limit: Some(kind),
            status: 400,
            detail: detail.to_owned(),
        }
    }

    /// The message is not well-formed JSON.
    pub fn not_json(detail: &str) -> (r: RequestError)
        ensures
            r.p_type == RequestErrorType::NotJson,
            r.limit is None,
            r.status == 400,
            r.detail@ == detail@,
    {
        RequestError {
            p_type: RequestErrorType::NotJson,
            limit: None,
            status: 400,
            detail: detail.to_owned(),
        }
    }

    /// The server failed; no internal detail is surfaced.
    pub fn internal_server_error() -> (r: RequestError)
        ensures
            r.p_type == RequestErrorType::Internal,
            r.limit is None,
            r.status == 500,
            r.detail@ == "Internal server error."@,
    {
        RequestError {
            p_type: RequestErrorType::Internal,
            limit: None,
            status: 500,
            detail: "Internal server error.".to_owned(),
        }
    }

    /// The upload would exceed the account's temporary-blob ceilings; the
    /// detail carries both configured ceiling values.
    pub fn over_blob_quota(max_files: u64, max_bytes: u64) -> (r: RequestError)
        ensures
            r.p_type == RequestErrorType::OverBlobQuota,
            r.limit is None,
            r.status == 400,
            r.detail@ == "Quota exceeded: maximum of "@ + crate::text::dec_of(max_files as int)
                + " files and "@ + crate::text::dec_of(max_bytes as int) + " bytes."@,
    {
        let mut detail: String = String::new();
        detail.append("Quota exceeded: maximum of ");
        crate::text::append_u64_dec(&mut detail, max_files);
        detail.append(" files and ");
        crate::text::append_u64_dec(&mut detail, max_bytes);
        detail.append(" bytes.");
        RequestError {
            p_type: RequestErrorType::OverBlobQuota,
            limit: None,
            status: 400,
            detail,
        }
    }
}

} // verus!
