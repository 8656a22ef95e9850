//! An upload in conversation with a tracker that behaves: what it sends, and
//! where it stands when a document is done.

use vstd::prelude::*;
use crate::issues::{after_candidate, requests_for, HelperView, IssueReqView, IssueView};
use crate::sarif::{issues_of, SarifView};
use crate::tracker::{
    answer, batch, calls, carried, exchange, is_known, lemma_candidate_settled, listing_calls,
    taken_up, tracker_reply, Mint,
};
use crate::upload::{advance, after_event, next_file, ActionView, EventView, Stage, UploadView};

verus! {

/// An upload, the action it asked for last, and the issues the tracker
/// holds.
pub struct Session {
    pub upload: UploadView,
    pub action: ActionView,
    pub remote: Seq<IssueView>,
}

/// One request of the upload sent and answered. Where the last action was
/// no request, nothing happens.
pub open spec fn served(s: Session, mint: Mint) -> Session {
    if s.action is Send {
        let (reply, remote) = tracker_reply(s.remote, s.upload.helper, mint);
        let (upload, action) = after_event(s.upload, EventView::Reply(reply));
        Session { upload, action, remote }
    } else {
        s
    }
}

/// The session after `n` requests were sent and answered.
pub open spec fn session(s: Session, mint: Mint, n: nat) -> Session
    decreases n,
{
    if n == 0 {
        s
    } else {
        served(session(s, mint, (n - 1) as nat), mint)
    }
}

/// The session that begins when the upload takes up its queue.
pub open spec fn queue_taken_up(u: UploadView, remote: Seq<IssueView>) -> Session {
    Session { upload: advance(u).0, action: advance(u).1, remote }
}

/// The upload once its queue is done: the reconciler is where the batch left
/// it, and the next file is asked for, or the upload has ended in success.
pub open spec fn queue_done(
    u: UploadView,
    mint: Mint,
    remote: Seq<IssueView>,
) -> Session {
    let b = batch(u.helper, u.queue, remote, mint);
    let emptied = UploadView { queue: Seq::empty(), helper: b.helper, ..u };
    Session { upload: next_file(emptied).0, action: next_file(emptied).1, remote: b.remote }
}

proof fn lemma_session_joined(s: Session, mint: Mint, n: nat, m: nat)
    ensures
        session(s, mint, n + m) == session(session(s, mint, n), mint, m),
    decreases m,
{
    if m > 0 {
        lemma_session_joined(s, mint, n, (m - 1) as nat);
        assert(session(s, mint, n + m) == served(session(s, mint, (n + m - 1) as nat), mint));
    }
}

proof fn lemma_advance_any_stage(u: UploadView, stage: Stage)
    ensures
        advance(UploadView { stage, ..u }) == advance(u),
    decreases u.queue.len(),
{
    if u.queue.len() > 0 {
        let (helper, step) = after_candidate(u.helper, u.queue[0]);
        let rest = UploadView { queue: u.queue.drop_first(), helper, ..u };
        lemma_advance_any_stage(rest, stage);
        let staged = UploadView { stage, ..u };
        assert(UploadView { queue: staged.queue.drop_first(), helper, ..staged } == (UploadView {
            stage,
            ..rest
        }));
    }
}

/// A batch is its first candidate carried through, then the batch of the
/// others.
proof fn lemma_batch_front(
    h: HelperView,
    reqs: Seq<IssueReqView>,
    remote: Seq<IssueView>,
    mint: Mint,
)
    requires
        reqs.len() > 0,
    ensures
        ({
            let c = carried(h, reqs[0], remote, mint);
            let whole = batch(h, reqs, remote, mint);
            let rest = batch(c.helper, reqs.drop_first(), c.remote, mint);
            &&& whole.helper == rest.helper
            &&& whole.remote == rest.remote
            &&& whole.requests == calls(h, reqs[0], remote) + rest.requests
        }),
    decreases reqs.len(),
{
    let c = carried(h, reqs[0], remote, mint);
    if reqs.len() == 1 {
        assert(reqs.drop_last() =~= Seq::<IssueReqView>::empty());
        assert(reqs.drop_first() =~= Seq::<IssueReqView>::empty());
        assert(reqs.last() == reqs[0]);
        assert(batch(h, reqs.drop_last(), remote, mint).helper == h);
    } else {
        let front = reqs.drop_last();
        lemma_batch_front(h, front, remote, mint);
        assert(front[0] == reqs[0]);
        assert(reqs.drop_first().drop_last() =~= front.drop_first());
        assert(reqs.drop_first().last() == reqs.last());
    }
}

/// While a candidate's requests are answered, the upload holds the
/// reconciler of the exchange and asks for the request of its last step.
proof fn lemma_session_follows_exchange(
    u: UploadView,
    remote: Seq<IssueView>,
    mint: Mint,
    k: nat,
)
    requires
        u.queue.len() > 0,
        k < calls(u.helper, u.queue[0], remote),
    ensures
        ({
            let x = exchange(taken_up(u.helper, u.queue[0], remote), mint, k);
            &&& x.step is Send
            &&& session(queue_taken_up(u, remote), mint, k) == (Session {
                upload: UploadView {
                    queue: u.queue.drop_first(),
                    helper: x.helper,
                    stage: Stage::AwaitingReply,
                    ..u
                },
                action: ActionView::Send(x.step->Send_0),
                remote: x.remote,
            })
        }),
    decreases k,
{
    let h = u.helper;
    let req = u.queue[0];
    lemma_candidate_settled(h, req, remote, mint);
    let begun = taken_up(h, req, remote);
    let x = exchange(begun, mint, k);
    assert(x.step is Send) by {
        if k < listing_calls(h, remote) {
        } else {
            assert(!is_known(h, req, remote));
            assert(k == listing_calls(h, remote));
        }
    }
    if k > 0 {
        let j = (k - 1) as nat;
        lemma_session_follows_exchange(u, remote, mint, j);
        let before = exchange(begun, mint, j);
        assert(x == answer(before, mint));
    }
}

/// The upload's queue, carried through.
///
/// Taking up the queue costs exactly the requests of the batch. When they
/// are answered the upload has turned to the next file, or ended in
/// success, and reconciler and tracker stand where the batch leaves them.
pub proof fn lemma_queue_carried(u: UploadView, remote: Seq<IssueView>, mint: Mint)
    ensures
        forall|k: nat|
            k < batch(u.helper, u.queue, remote, mint).requests ==> (#[trigger] session(
                queue_taken_up(u, remote),
                mint,
                k,
            )).action is Send,
        session(
            queue_taken_up(u, remote),
            mint,
            batch(u.helper, u.queue, remote, mint).requests,
        ) == queue_done(u, mint, remote),
    decreases u.queue.len(),
{
    let begun = queue_taken_up(u, remote);
    if u.queue.len() == 0 {
        assert(u.queue =~= Seq::<IssueReqView>::empty());
        assert(UploadView { queue: Seq::empty(), helper: u.helper, ..u } == u);
    } else {
        let h = u.helper;
        let req = u.queue[0];
        let first = calls(h, req, remote);
        let c = carried(h, req, remote, mint);
        lemma_candidate_settled(h, req, remote, mint);
        lemma_batch_front(h, u.queue, remote, mint);
        let rest = UploadView { queue: u.queue.drop_first(), helper: c.helper, ..u };
        let others = batch(c.helper, rest.queue, c.remote, mint).requests;
        lemma_queue_carried(rest, c.remote, mint);
        assert(queue_done(rest, mint, c.remote) == queue_done(u, mint, remote));
        // Once the first candidate is settled the upload takes up the others.
        assert(session(begun, mint, first) == queue_taken_up(rest, c.remote)) by {
            if first == 0 {
                assert(c == taken_up(h, req, remote));
            } else {
                let j = (first - 1) as nat;
                lemma_session_follows_exchange(u, remote, mint, j);
                let x = exchange(taken_up(h, req, remote), mint, j);
                assert(c == answer(x, mint));
                lemma_advance_any_stage(rest, Stage::AwaitingReply);
                assert(session(begun, mint, first) == served(session(begun, mint, j), mint));
            }
        }
        lemma_session_joined(begun, mint, first, others);
        assert forall|k: nat| k < first + others implies (#[trigger] session(
            begun,
            mint,
            k,
        )).action is Send by {
            if k < first {
                lemma_session_follows_exchange(u, remote, mint, k);
            } else {
                let m = (k - first) as nat;
                lemma_session_joined(begun, mint, first, m);
                assert(session(queue_taken_up(rest, c.remote), mint, m).action is Send);
            }
        }
    }
}

/// A document, carried through.
///
/// An upload that is handed a document sends exactly the requests that the
/// batch of its candidates costs. Once they are answered, the tracker holds
/// what the batch leaves it with, and the upload asks for the next file or
/// has ended in success.
pub proof fn lemma_document_carried(
    u: UploadView,
    document: SarifView,
    remote: Seq<IssueView>,
    mint: Mint,
)
    requires
        u.stage is AwaitingFile,
    ensures
        ({
            let queued = UploadView { queue: requests_for(issues_of(document.runs)), ..u };
            let begun = Session {
                upload: after_event(u, EventView::Document(document)).0,
                action: after_event(u, EventView::Document(document)).1,
                remote,
            };
            let b = batch(u.helper, queued.queue, remote, mint);
            &&& forall|k: nat| k < b.requests ==> (#[trigger] session(begun, mint, k)).action is Send
            &&& session(begun, mint, b.requests) == queue_done(queued, mint, remote)
        }),
{
    let queued = UploadView { queue: requests_for(issues_of(document.runs)), ..u };
    lemma_queue_carried(queued, remote, mint);
}

} // verus!
