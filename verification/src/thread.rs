use vstd::prelude::*;

use crate::store::{bytes_eq, Store, ThreadEntry};
use vstd::string::StrSliceExecFns;

verus! {

/// Whether a thread-index entry belongs to the account and matches one of
/// the reference tokens.
pub open spec fn entry_matches(e: ThreadEntry, account: u32, refs: Seq<Seq<u8>>) -> bool {
    e.account == account && refs.contains(e.token@)
}

/// The thread the resolver picks: the numerically smallest thread id among
/// all index entries matching any reference token (an arbitrary but
/// deterministic tie-break), or `None` when no entry matches.
pub open spec fn resolve_thread(index: Seq<ThreadEntry>, account: u32, refs: Seq<Seq<u8>>) -> Option<
    u32,
>
    decreases index.len(),
{
    if index.len() == 0 {
        None
    } else {
        let rest = resolve_thread(index.drop_last(), account, refs);
        if entry_matches(index.last(), account, refs) {
            match rest {
                None => Some(index.last().thread),
                Some(t) => if index.last().thread < t {
                    Some(index.last().thread)
                } else {
                    Some(t)
                },
            }
        } else {
            rest
        }
    }
}

/// Whether a token occurs among the reference tokens.
fn token_in(refs: &Vec<Vec<u8>>, t: &Vec<u8>) -> (r: bool)
    ensures
        r == refs.deep_view().contains(t@),
{
    let mut i: usize = 0;
    while i < refs.len()
        invariant
            i <= refs@.len(),
            forall|j: int| 0 <= j < i ==> refs@[j]@ != t@,
        decreases refs@.len() - i,
    {
        if bytes_eq(&refs[i], t) {
            proof {
                assert(refs.deep_view()[i as int] == refs@[i as int]@);
            }
            return true;
        }
        i = i + 1;
    }
    proof {
        assert forall|j: int| 0 <= j < refs.deep_view().len() implies refs.deep_view()[j] != t@ by {
            assert(refs.deep_view()[j] == refs@[j]@);
        }
    }
    false
}

impl Store {
    /// Decide which existing thread (if any) a new message with these
    /// reference tokens joins: the smallest matching thread id of the
    /// account's token index. `None` tells the caller to allocate a new
    /// thread document. The normalized subject rides along as context but
    /// does not take part in matching; existing threads are never merged
    /// into each other here.
    #[allow(unused_variables)]
    #[verifier::loop_isolation(false)]
    pub fn find_or_merge_thread(&self, account_id: u32, subject: &str, references: &Vec<Vec<u8>>) -> (r:
        Option<u32>)
        ensures
            r == resolve_thread(self.thread_index@, account_id, references.deep_view()),
    {
        let ghost refs = references.deep_view();
        let mut best: Option<u32> = None;
        let mut i: usize = 0;
        proof {
            assert(self.thread_index@.subrange(0, 0) =~= Seq::<ThreadEntry>::empty());
        }
        while i < self.thread_index.len()
            invariant
                i <= self.thread_index@.len(),
                best == resolve_thread(self.thread_index@.subrange(0, i as int), account_id, refs),
            decreases self.thread_index@.len() - i,
        {
            proof {
                assert(self.thread_index@.subrange(0, i as int + 1).drop_last()
                    =~= self.thread_index@.subrange(0, i as int));
                assert(self.thread_index@.subrange(0, i as int + 1).last()
                    == self.thread_index@[i as int]);
            }
            let e = &self.thread_index[i];
            if e.account == account_id && token_in(references, &e.token) {
                best = match best {
                    None => Some(e.thread),
                    Some(t) => if e.thread < t {
                        Some(e.thread)
                    } else {
                        Some(t)
                    },
                };
            }
            i = i + 1;
        }
        proof {
            assert(self.thread_index@.subrange(0, self.thread_index@.len() as int)
                =~= self.thread_index@);
        }
        best
    }
}

/// Longest normalized subject kept for sorting and thread grouping.
pub const MAX_SORT_FIELD_LENGTH: usize = 255;

/// What remains of a subject once its reply/forward markers are stripped.
pub uninterp spec fn thread_name_of(s: Seq<char>) -> Seq<char>;

/// A sequence cut to at most `n` of its leading elements.
pub open spec fn trimmed(s: Seq<char>, n: int) -> Seq<char> {
    if s.len() <= n {
        s
    } else {
        s.subrange(0, n)
    }
}

/// Relies on mail_parser's `thread_name`: strips reply/forward prefixes
/// and bracketed markers from a subject line; the result depends on the
/// subject's characters alone.
#[verifier::external_body]
fn thread_name_raw(s: &str) -> (r: String)
    ensures
        r@ == thread_name_of(s@),
{
    mail_parser::parsers::fields::thread::thread_name(s).to_owned()
}

/// Normalize a subject for thread grouping: strip reply/forward markers,
/// then keep at most `MAX_SORT_FIELD_LENGTH` characters.
pub fn thread_name_normalized(s: &str) -> (r: String)
    ensures
        r@ == trimmed(thread_name_of(s@), MAX_SORT_FIELD_LENGTH as int),
{
    let t = thread_name_raw(s);
    if t.as_str().unicode_len() <= MAX_SORT_FIELD_LENGTH {
        t
    } else {
        t.as_str().substring_char(0, MAX_SORT_FIELD_LENGTH).to_owned()
    }
}

/// Law: thread resolution is idempotent and order-independent across its
/// own merge. When a message's references resolve to thread `t` (or to no
/// thread, and a fresh `t` is allocated), and the commit then indexes those
/// references under `t`, resolving the same references again yields `t`.
pub proof fn lemma_resolve_idempotent(
    index: Seq<ThreadEntry>,
    added: Seq<ThreadEntry>,
    account: u32,
    refs: Seq<Seq<u8>>,
    t: u32,
)
    requires
        added.len() > 0,
        forall|i: int|
            0 <= i < added.len() ==> (#[trigger] added[i]).account == account && added[i].thread
                == t && refs.contains(added[i].token@),
        resolve_thread(index, account, refs) is Some ==> resolve_thread(index, account, refs)
            == Some(t),
    ensures
        resolve_thread(index + added, account, refs) == Some(t),
    decreases added.len(),
{
    let e = added.last();
    assert((index + added).drop_last() =~= index + added.drop_last());
    assert((index + added).last() == e);
    assert(entry_matches(e, account, refs));
    if added.len() == 1 {
        assert(index + added.drop_last() =~= index);
    } else {
        lemma_resolve_idempotent(index, added.drop_last(), account, refs, t);
    }
}

/// Law: across one successful copy, thread resolution is stable. A copy
/// that resolved its references to thread `t` — found, or freshly
/// allocated — extends the index with exactly those references under `t`
/// (as `JMAP::copy_message` ensures); resolving the same references
/// against the extended index yields `t` again.
pub proof fn lemma_copy_resolution_stable(
    pre: Seq<ThreadEntry>,
    post: Seq<ThreadEntry>,
    account: u32,
    refs: Seq<Seq<u8>>,
    t: u32,
)
    requires
        refs.len() > 0,
        post.len() == pre.len() + refs.len(),
        forall|i: int| 0 <= i < pre.len() ==> post[i] == pre[i],
        forall|i: int|
            0 <= i < refs.len() ==> {
                let e = #[trigger] post[pre.len() + i];
                e.account == account && e.thread == t && e.token@ == refs[i]
            },
        resolve_thread(pre, account, refs) is Some ==> resolve_thread(pre, account, refs) == Some(
            t,
        ),
    ensures
        resolve_thread(post, account, refs) == Some(t),
{
    let added = post.subrange(pre.len() as int, post.len() as int);
    assert(post =~= pre + added);
    assert forall|i: int|
        0 <= i < added.len() implies (#[trigger] added[i]).account == account && added[i].thread
        == t && refs.contains(added[i].token@) by {
        assert(added[i] == post[pre.len() + i]);
        assert(added[i].token@ == refs[i]);
        assert(refs.contains(refs[i]));
    }
    lemma_resolve_idempotent(pre, added, account, refs, t);
}

} // verus!
