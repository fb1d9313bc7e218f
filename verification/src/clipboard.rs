//! The stored value and what requests do to it.
//!
//! The store knows nothing of locks. A server that shares it between
//! connections puts it behind one and holds the lock for one call of
//! `handle`, `replace` or `snapshot`: the calls then happen one after
//! another, in some order, and what is proved here of every order holds of
//! that one.

use crate::frame::{RequestFrame, RequestView, ResponseFrame, ResponseView};
use vstd::prelude::*;

verus! {

/// The one value that all clients share.
pub struct Clipboard {
    content: Vec<u8>,
}

impl View for Clipboard {
    type V = Seq<u8>;

    closed spec fn view(&self) -> Seq<u8> {
        self.content@
    }
}

/// What a request does to the stored value, and the answer it gets: a push
/// replaces the value whole, a pull leaves it and is answered with it.
pub open spec fn apply(stored: Seq<u8>, request: RequestView) -> (Seq<u8>, ResponseView) {
    match request {
        RequestView::Push(bytes) => (bytes, ResponseView::PushOk),
        RequestView::Pull => (stored, ResponseView::PullOk(stored)),
    }
}

/// The stored value after `requests` were handled one after another.
pub open spec fn apply_all(stored: Seq<u8>, requests: Seq<RequestView>) -> Seq<u8>
    decreases requests.len(),
{
    if requests.len() == 0 {
        stored
    } else {
        apply(apply_all(stored, requests.drop_last()), requests.last()).0
    }
}

/// Whether some request among `requests` is a push.
pub open spec fn has_push(requests: Seq<RequestView>) -> bool {
    exists|i: int| 0 <= i < requests.len() && #[trigger] requests[i] is Push
}

/// The position of the last push among `requests`.
pub open spec fn last_push(requests: Seq<RequestView>) -> int
    recommends
        has_push(requests),
    decreases requests.len(),
{
    if requests.len() == 0 {
        -1
    } else if requests.last() is Push {
        requests.len() - 1
    } else {
        last_push(requests.drop_last())
    }
}

impl Clipboard {
    /// An empty clipboard.
    pub fn new() -> (clipboard: Self)
        ensures
            clipboard@ == Seq::<u8>::empty(),
    {
        Clipboard { content: Vec::with_capacity(4096) }
    }

    /// Puts `content` in place of the stored value.
    pub fn replace(&mut self, content: Vec<u8>)
        ensures
            final(self)@ == content@,
    {
        self.content = content;
    }

    /// A copy of the stored value.
    pub fn snapshot(&self) -> (copy: Vec<u8>)
        ensures
            copy@ == self@,
    {
        self.content.clone()
    }

    /// Handles one request and gives the answer to send.
    pub fn handle(&mut self, request: RequestFrame) -> (response: ResponseFrame)
        ensures
            (final(self)@, response@) == apply(old(self)@, request@),
    {
        match request {
            RequestFrame::Push(bytes) => {
                self.replace(bytes);
                ResponseFrame::PushOk
            },
            RequestFrame::Pull => ResponseFrame::PullOk(self.snapshot()),
        }
    }
}

/// A pull that follows a push is answered with what was pushed.
pub proof fn lemma_pull_after_push(stored: Seq<u8>, pushed: Seq<u8>)
    ensures
        apply(apply(stored, RequestView::Push(pushed)).0, RequestView::Pull).1
            == ResponseView::PullOk(pushed),
{
}

/// A pull changes nothing: the next pull is answered alike.
pub proof fn lemma_pull_changes_nothing(stored: Seq<u8>)
    ensures
        apply(stored, RequestView::Pull).0 == stored,
{
}

/// The last writer wins. After any requests, handled in any order one after
/// another, the stored value is the payload of the push handled last, whole
/// and unmixed; and it is the value from before if none was a push.
pub proof fn lemma_last_push_wins(stored: Seq<u8>, requests: Seq<RequestView>)
    ensures
        has_push(requests) ==> {
            &&& 0 <= last_push(requests) < requests.len()
            &&& requests[last_push(requests)] == RequestView::Push(apply_all(stored, requests))
        },
        !has_push(requests) ==> apply_all(stored, requests) == stored,
    decreases requests.len(),
{
    if requests.len() > 0 {
        let earlier = requests.drop_last();
        lemma_last_push_wins(stored, earlier);
        if !(requests.last() is Push) {
            if has_push(requests) {
                let i = choose|i: int| 0 <= i < requests.len() && #[trigger] requests[i] is Push;
                assert(earlier[i] is Push);
            } else {
                assert forall|i: int| 0 <= i < earlier.len() implies !(#[trigger] earlier[i]
                    is Push) by {
                    assert(earlier[i] == requests[i]);
                }
            }
        }
    }
}

/// After pushes only, at least one of them, a pull is answered with the
/// payload of exactly one of the pushes.
pub proof fn lemma_single_winner(stored: Seq<u8>, requests: Seq<RequestView>)
    requires
        requests.len() > 0,
        forall|i: int| 0 <= i < requests.len() ==> #[trigger] requests[i] is Push,
    ensures
        exists|i: int|
            0 <= i < requests.len() && #[trigger] requests[i] == RequestView::Push(
                apply_all(stored, requests),
            ),
        apply(apply_all(stored, requests), RequestView::Pull).1 == ResponseView::PullOk(
            apply_all(stored, requests),
        ),
{
    lemma_last_push_wins(stored, requests);
}

} // verus!
