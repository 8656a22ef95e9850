//! What holds of the reconciler when the tracker behaves: a model of such a
//! tracker, and the laws proved against it.
//!
//! The tracker of the model keeps the issues of the repository in the order
//! they were filed. It lists them [`PER_PAGE`] to a page, and files a
//! candidate under the title it was sent.

use vstd::prelude::*;
use crate::issues::{
    after_candidate, after_reply, creation_request, index_by_title, listing_request, settle,
    HelperView, IssueReqView, IssueView, PhaseView, ReplyView, StepView, PER_PAGE,
};

verus! {

/// How the tracker makes an issue of a candidate, given the issues it holds.
pub type Mint = spec_fn(Seq<IssueView>, IssueReqView) -> IssueView;

/// The tracker files a candidate under the title it was sent.
pub open spec fn keeps_titles(mint: Mint) -> bool {
    forall|remote: Seq<IssueView>, req: IssueReqView| #[trigger] mint(remote, req).title == req.title
}

/// Page `page` of a listing of `remote`, counting from 1: the next
/// [`PER_PAGE`] issues, fewer where fewer are left, none past the end.
pub open spec fn page_of(remote: Seq<IssueView>, page: nat) -> Seq<IssueView> {
    let from = if (page - 1) * PER_PAGE <= remote.len() {
        (page - 1) * PER_PAGE
    } else {
        remote.len() as int
    };
    let to = if page * PER_PAGE <= remote.len() {
        page * PER_PAGE
    } else {
        remote.len() as int
    };
    remote.subrange(from, to)
}

/// How many pages hold `count` issues.
pub open spec fn page_count(count: nat) -> nat {
    ((count + PER_PAGE - 1) / (PER_PAGE as int)) as nat
}

/// A reconciler, the step it returned last, and the issues the tracker
/// holds.
pub struct Exchange {
    pub helper: HelperView,
    pub step: StepView,
    pub remote: Seq<IssueView>,
}

/// The reply of the tracker to the request that is outstanding, and the
/// issues it holds afterwards.
pub open spec fn tracker_reply(remote: Seq<IssueView>, h: HelperView, mint: Mint) -> (
    ReplyView,
    Seq<IssueView>,
) {
    match h.phase {
        PhaseView::Listing { page, .. } => (
            ReplyView::Issues { status: 200, issues: page_of(remote, page) },
            remote,
        ),
        PhaseView::Creating { pending } => (
            ReplyView::Issue { status: 201, issue: mint(remote, pending) },
            remote.push(mint(remote, pending)),
        ),
        PhaseView::Idle => (ReplyView::Unreachable, remote),
    }
}

/// One request sent and answered. Where the last step asked for no request,
/// nothing happens.
pub open spec fn answer(x: Exchange, mint: Mint) -> Exchange {
    if x.step is Send {
        let (reply, remote) = tracker_reply(x.remote, x.helper, mint);
        let (helper, step) = after_reply(x.helper, reply);
        Exchange { helper, step, remote }
    } else {
        x
    }
}

/// The exchange after `n` requests were sent and answered.
pub open spec fn exchange(x: Exchange, mint: Mint, n: nat) -> Exchange
    decreases n,
{
    if n == 0 {
        x
    } else {
        answer(exchange(x, mint, (n - 1) as nat), mint)
    }
}

/// The issues known once the store is filled: with an empty store the
/// repository is listed and its issues entered, otherwise the store stays.
pub open spec fn filled(h: HelperView, remote: Seq<IssueView>) -> Map<Seq<char>, IssueView> {
    if h.store.is_empty() {
        index_by_title(h.store, remote)
    } else {
        h.store
    }
}

/// How many listing requests a candidate costs: none with a store that
/// holds issues, else one for each page of the repository and one more, for
/// the empty page that ends the listing.
pub open spec fn listing_calls(h: HelperView, remote: Seq<IssueView>) -> nat {
    if h.store.is_empty() {
        page_count(remote.len()) + 1
    } else {
        0
    }
}

/// Whether the candidate is passed over: an issue of its title is known
/// once the store is filled.
pub open spec fn is_known(h: HelperView, req: IssueReqView, remote: Seq<IssueView>) -> bool {
    filled(h, remote).contains_key(req.title)
}

/// How many requests a candidate costs in all: the listing calls, and one
/// more to file it unless it is passed over.
pub open spec fn calls(h: HelperView, req: IssueReqView, remote: Seq<IssueView>) -> nat {
    if is_known(h, req, remote) {
        listing_calls(h, remote)
    } else {
        listing_calls(h, remote) + 1
    }
}

/// The exchange that begins when the reconciler is handed a candidate.
pub open spec fn taken_up(h: HelperView, req: IssueReqView, remote: Seq<IssueView>) -> Exchange {
    Exchange {
        helper: after_candidate(h, req).0,
        step: after_candidate(h, req).1,
        remote,
    }
}

/// While the listing runs, request `k + 1` asks for page `k + 1`, and the
/// issues of the `k` pages before it are kept, in order.
pub proof fn lemma_listing_progress(
    h: HelperView,
    req: IssueReqView,
    remote: Seq<IssueView>,
    mint: Mint,
    k: nat,
)
    requires
        h.store.is_empty(),
        k <= page_count(remote.len()),
    ensures
        exchange(taken_up(h, req, remote), mint, k) == (Exchange {
            helper: HelperView {
                phase: PhaseView::Listing {
                    page: k + 1,
                    found: remote.take(
                        if k * PER_PAGE <= remote.len() {
                            k * PER_PAGE
                        } else {
                            remote.len() as int
                        },
                    ),
                    pending: req,
                },
                ..h
            },
            step: StepView::Send(listing_request(h, k + 1)),
            remote,
        }),
    decreases k,
{
    if k == 0 {
        assert(remote.take(0) =~= Seq::<IssueView>::empty());
    } else {
        let j = (k - 1) as nat;
        lemma_listing_progress(h, req, remote, mint, j);
        let before = exchange(taken_up(h, req, remote), mint, j);
        let kept = remote.take(j * PER_PAGE);
        assert(j * PER_PAGE < remote.len());
        assert(before.helper.phase == PhaseView::Listing { page: j + 1, found: kept, pending: req });
        let page = page_of(remote, j + 1);
        assert(page.len() > 0);
        let upto = if k * PER_PAGE <= remote.len() {
            k * PER_PAGE
        } else {
            remote.len() as int
        };
        assert(kept + page =~= remote.take(upto));
        let after = answer(before, mint);
        assert(after.helper.phase == PhaseView::Listing {
            page: k + 1,
            found: remote.take(upto),
            pending: req,
        });
        assert(listing_request(before.helper, k + 1) == listing_request(h, k + 1));
    }
}

/// Whether the repository holds an issue of this title.
pub open spec fn has_title(remote: Seq<IssueView>, title: Seq<char>) -> bool {
    exists|i: int| 0 <= i < remote.len() && (#[trigger] remote[i]).title == title
}

/// The store knows exactly the titles that the repository holds.
pub open spec fn in_step(store: Map<Seq<char>, IssueView>, remote: Seq<IssueView>) -> bool {
    forall|title: Seq<char>| store.contains_key(title) <==> has_title(remote, title)
}

/// A candidate carried through: the exchange once all its requests were
/// answered.
pub open spec fn carried(
    h: HelperView,
    req: IssueReqView,
    remote: Seq<IssueView>,
    mint: Mint,
) -> Exchange {
    exchange(taken_up(h, req, remote), mint, calls(h, req, remote))
}

/// Where a batch of candidates has led.
pub struct Batch {
    /// The reconciler after the last candidate.
    pub helper: HelperView,
    /// The issues that the tracker holds by then.
    pub remote: Seq<IssueView>,
    /// Positions in the batch of the candidates that were filed, in the
    /// order of filing.
    pub filed: Seq<int>,
    /// Number of requests sent.
    pub requests: nat,
}

/// A batch of candidates carried through one after the other, each to its
/// end before the next is taken up.
pub open spec fn batch(
    h: HelperView,
    reqs: Seq<IssueReqView>,
    remote: Seq<IssueView>,
    mint: Mint,
) -> Batch
    decreases reqs.len(),
{
    if reqs.len() == 0 {
        Batch { helper: h, remote, filed: Seq::empty(), requests: 0 }
    } else {
        let before = batch(h, reqs.drop_last(), remote, mint);
        let last = carried(before.helper, reqs.last(), before.remote, mint);
        Batch {
            helper: last.helper,
            remote: last.remote,
            filed: if last.step is Created {
                before.filed.push(reqs.len() - 1)
            } else {
                before.filed
            },
            requests: before.requests + calls(before.helper, reqs.last(), before.remote),
        }
    }
}

/// Entering issues in a store adds their titles to those it knows.
pub proof fn lemma_index_by_title_domain(
    store: Map<Seq<char>, IssueView>,
    found: Seq<IssueView>,
    title: Seq<char>,
)
    ensures
        index_by_title(store, found).contains_key(title) <==> store.contains_key(title)
            || has_title(found, title),
    decreases found.len(),
{
    if found.len() > 0 {
        let front = found.drop_last();
        lemma_index_by_title_domain(store, front, title);
        if found.last().title == title {
            assert(found[found.len() - 1].title == title);
        } else if has_title(front, title) {
            let i = choose|i: int| 0 <= i < front.len() && (#[trigger] front[i]).title == title;
            assert(found[i].title == title);
        } else {
            assert forall|i: int| 0 <= i < found.len() implies (#[trigger] found[i]).title
                != title by {
                if i < front.len() {
                    assert(front[i].title != title);
                }
            }
        }
    }
}

/// A store filled from the repository is in step with it.
proof fn lemma_filled_in_step(h: HelperView, remote: Seq<IssueView>)
    requires
        h.store.is_empty() || in_step(h.store, remote),
    ensures
        in_step(filled(h, remote), remote),
{
    if h.store.is_empty() {
        assert forall|title: Seq<char>|
            filled(h, remote).contains_key(title) <==> has_title(remote, title) by {
            lemma_index_by_title_domain(h.store, remote, title);
        }
    }
}

/// A title is among the issues after one more was filed if it was there
/// before or is the title of the new issue.
proof fn lemma_has_title_push(remote: Seq<IssueView>, issue: IssueView, title: Seq<char>)
    ensures
        has_title(remote.push(issue), title) <==> has_title(remote, title) || issue.title == title,
{
    let more = remote.push(issue);
    if has_title(remote, title) {
        let i = choose|i: int| 0 <= i < remote.len() && (#[trigger] remote[i]).title == title;
        assert(more[i].title == title);
    }
    if issue.title == title {
        assert(more[remote.len() as int].title == title);
    }
    if has_title(more, title) {
        let i = choose|i: int| 0 <= i < more.len() && (#[trigger] more[i]).title == title;
        if i < remote.len() {
            assert(remote[i].title == title);
        }
    }
}

/// What a batch leaves behind, for a reconciler that starts with an empty
/// store or in step with the repository.
///
/// Afterwards the store is in step with the repository, which holds what it
/// held before and, behind that, one issue for each candidate filed. Every
/// candidate's title is then among the issues. A candidate was filed only
/// if no issue before it bore its title, and candidates were filed in the
/// order of the batch.
pub proof fn lemma_batch(
    h: HelperView,
    reqs: Seq<IssueReqView>,
    remote: Seq<IssueView>,
    mint: Mint,
)
    requires
        keeps_titles(mint),
        h.store.is_empty() || in_step(h.store, remote),
    ensures
        ({
            let b = batch(h, reqs, remote, mint);
            &&& reqs.len() > 0 ==> in_step(b.helper.store, b.remote) && !b.helper.store.is_empty()
            &&& reqs.len() > 0 ==> b.helper == (HelperView {
                store: b.helper.store,
                phase: PhaseView::Idle,
                ..h
            })
            &&& b.remote.len() == remote.len() + b.filed.len()
            &&& b.remote.take(remote.len() as int) == remote
            &&& forall|i: int|
                0 <= i < reqs.len() ==> has_title(b.remote, (#[trigger] reqs[i]).title)
            &&& forall|k: int|
                0 <= k < b.filed.len() ==> {
                    &&& 0 <= (#[trigger] b.filed[k]) < reqs.len()
                    &&& b.remote[remote.len() + k].title == reqs[b.filed[k]].title
                    &&& !has_title(b.remote.take(remote.len() + k), reqs[b.filed[k]].title)
                }
            &&& forall|j: int, k: int| 0 <= j < k < b.filed.len() ==> b.filed[j] < b.filed[k]
        }),
    decreases reqs.len(),
{
    let b = batch(h, reqs, remote, mint);
    if reqs.len() == 0 {
        assert(b.remote.take(remote.len() as int) =~= remote);
    } else {
        let front = reqs.drop_last();
        let req = reqs.last();
        lemma_batch(h, front, remote, mint);
        let a = batch(h, front, remote, mint);
        assert(a.helper.store.is_empty() || in_step(a.helper.store, a.remote));
        lemma_candidate_settled(a.helper, req, a.remote, mint);
        lemma_filled_in_step(a.helper, a.remote);
        let store = filled(a.helper, a.remote);
        assert(store.contains_key(req.title) <==> has_title(a.remote, req.title));
        if is_known(a.helper, req, a.remote) {
            assert(b.remote == a.remote);
            assert(b.filed == a.filed);
            assert(b.helper.store == store);
            assert forall|i: int| 0 <= i < reqs.len() implies has_title(
                b.remote,
                (#[trigger] reqs[i]).title,
            ) by {
                if i < front.len() {
                    assert(front[i] == reqs[i]);
                }
            }
            assert forall|k: int| 0 <= k < b.filed.len() implies {
                &&& 0 <= (#[trigger] b.filed[k]) < reqs.len()
                &&& b.remote[remote.len() + k].title == reqs[b.filed[k]].title
                &&& !has_title(b.remote.take(remote.len() + k), reqs[b.filed[k]].title)
            } by {
                assert(front[a.filed[k]] == reqs[a.filed[k]]);
            }
        } else {
            let issue = mint(a.remote, req);
            assert(issue.title == req.title);
            assert(b.remote == a.remote.push(issue));
            assert(b.filed == a.filed.push(reqs.len() - 1));
            assert(b.helper.store == store.insert(issue.title, issue));
            assert forall|title: Seq<char>|
                b.helper.store.contains_key(title) <==> has_title(b.remote, title) by {
                lemma_has_title_push(a.remote, issue, title);
            }
            assert(b.helper.store.contains_key(issue.title));
            assert(b.remote.take(remote.len() as int) =~= a.remote.take(remote.len() as int));
            assert forall|i: int| 0 <= i < reqs.len() implies has_title(
                b.remote,
                (#[trigger] reqs[i]).title,
            ) by {
                lemma_has_title_push(a.remote, issue, reqs[i].title);
                if i < front.len() {
                    assert(front[i] == reqs[i]);
                }
            }
            assert forall|k: int| 0 <= k < b.filed.len() implies {
                &&& 0 <= (#[trigger] b.filed[k]) < reqs.len()
                &&& b.remote[remote.len() + k].title == reqs[b.filed[k]].title
                &&& !has_title(b.remote.take(remote.len() + k), reqs[b.filed[k]].title)
            } by {
                if k < a.filed.len() {
                    assert(front[a.filed[k]] == reqs[a.filed[k]]);
                    assert(b.remote.take(remote.len() + k) =~= a.remote.take(remote.len() + k));
                } else {
                    assert(b.remote.take(remote.len() + k) =~= a.remote);
                }
            }
        }
    }
}

/// One candidate, carried through.
///
/// Taking up a candidate costs exactly [`calls`] requests: first the listing
/// requests, for page 1, 2 and so on, then the request that files the
/// candidate, unless an issue of its title is known by then. A known title
/// is skipped and changes nothing at the tracker; any other is created, and
/// the issue that the tracker made of it is entered in the store.
pub proof fn lemma_candidate_settled(
    h: HelperView,
    req: IssueReqView,
    remote: Seq<IssueView>,
    mint: Mint,
)
    ensures
        forall|k: nat|
            k < listing_calls(h, remote) ==> (#[trigger] exchange(
                taken_up(h, req, remote),
                mint,
                k,
            )).step == StepView::Send(listing_request(h, k + 1)),
        !is_known(h, req, remote) ==> exchange(
            taken_up(h, req, remote),
            mint,
            listing_calls(h, remote),
        ).step == StepView::Send(creation_request(h, req)),
        is_known(h, req, remote) ==> exchange(
            taken_up(h, req, remote),
            mint,
            calls(h, req, remote),
        ) == (Exchange {
            helper: HelperView { store: filled(h, remote), phase: PhaseView::Idle, ..h },
            step: StepView::Skipped,
            remote,
        }),
        !is_known(h, req, remote) ==> exchange(
            taken_up(h, req, remote),
            mint,
            calls(h, req, remote),
        ) == (Exchange {
            helper: HelperView {
                store: filled(h, remote).insert(mint(remote, req).title, mint(remote, req)),
                phase: PhaseView::Idle,
                ..h
            },
            step: StepView::Created(mint(remote, req)),
            remote: remote.push(mint(remote, req)),
        }),
{
    let begun = taken_up(h, req, remote);
    let lists = listing_calls(h, remote);
    let store = filled(h, remote);
    if h.store.is_empty() {
        let pages = page_count(remote.len());
        assert forall|k: nat| k < lists implies (#[trigger] exchange(begun, mint, k)).step
            == StepView::Send(listing_request(h, k + 1)) by {
            lemma_listing_progress(h, req, remote, mint, k);
        }
        lemma_listing_progress(h, req, remote, mint, pages);
        let last = exchange(begun, mint, pages);
        assert(remote.take(remote.len() as int) =~= remote);
        assert(last.helper.phase == PhaseView::Listing {
            page: pages + 1,
            found: remote,
            pending: req,
        });
        assert(page_of(remote, pages + 1).len() == 0);
        let listed = exchange(begun, mint, lists);
        assert(listed == answer(last, mint));
        assert(listed.helper == settle(last.helper, store, req).0);
        assert(listed.step == settle(last.helper, store, req).1);
        assert(creation_request(last.helper, req) == creation_request(h, req));
        if !is_known(h, req, remote) {
            assert(exchange(begun, mint, lists + 1) == answer(listed, mint));
        }
    } else {
        assert(exchange(begun, mint, 0) == begun);
        if !is_known(h, req, remote) {
            assert(exchange(begun, mint, 1) == answer(begun, mint));
        }
    }
}

/// A batch whose titles the repository already holds files nothing: the
/// repository stays as it is, and the only requests are those of the
/// listing that fills an empty store.
pub proof fn lemma_known_batch(
    h: HelperView,
    reqs: Seq<IssueReqView>,
    remote: Seq<IssueView>,
    mint: Mint,
)
    requires
        h.store.is_empty() || in_step(h.store, remote),
        forall|i: int| 0 <= i < reqs.len() ==> has_title(remote, (#[trigger] reqs[i]).title),
    ensures
        batch(h, reqs, remote, mint).filed.len() == 0,
        batch(h, reqs, remote, mint).remote == remote,
        batch(h, reqs, remote, mint).requests == if reqs.len() == 0 {
            0
        } else {
            listing_calls(h, remote)
        },
        reqs.len() > 0 ==> in_step(batch(h, reqs, remote, mint).helper.store, remote) && !batch(
            h,
            reqs,
            remote,
            mint,
        ).helper.store.is_empty(),
    decreases reqs.len(),
{
    if reqs.len() > 0 {
        let front = reqs.drop_last();
        let req = reqs.last();
        assert forall|i: int| 0 <= i < front.len() implies has_title(
            remote,
            (#[trigger] front[i]).title,
        ) by {
            assert(front[i] == reqs[i]);
        }
        lemma_known_batch(h, front, remote, mint);
        let a = batch(h, front, remote, mint);
        lemma_candidate_settled(a.helper, req, remote, mint);
        lemma_filled_in_step(a.helper, remote);
        assert(has_title(remote, reqs[reqs.len() - 1].title));
        assert(is_known(a.helper, req, remote));
    }
}

/// Running a batch twice files each title at most once.
///
/// Two reconcilers that start with an empty store take the same batch, one
/// after the other, against a tracker that lists what it holds and files
/// candidates under their own titles. In the first run no two candidates
/// that are filed share a title, and none bears a title that the repository
/// held. The second run files nothing and leaves the repository as the
/// first left it; all it sends is the listing.
pub proof fn lemma_idempotent(
    first: HelperView,
    second: HelperView,
    reqs: Seq<IssueReqView>,
    remote: Seq<IssueView>,
    mint: Mint,
)
    requires
        keeps_titles(mint),
        first.store.is_empty(),
        second.store.is_empty(),
    ensures
        ({
            let once = batch(first, reqs, remote, mint);
            let twice = batch(second, reqs, once.remote, mint);
            &&& forall|j: int, k: int|
                0 <= j < k < once.filed.len() ==> reqs[once.filed[j]].title
                    != reqs[once.filed[k]].title
            &&& forall|k: int|
                0 <= k < once.filed.len() ==> !has_title(remote, reqs[#[trigger] once.filed[k]].title)
            &&& twice.filed.len() == 0
            &&& twice.remote == once.remote
            &&& twice.requests == if reqs.len() == 0 {
                0
            } else {
                page_count(once.remote.len()) + 1
            }
        }),
{
    let once = batch(first, reqs, remote, mint);
    lemma_batch(first, reqs, remote, mint);
    lemma_known_batch(second, reqs, once.remote, mint);
    assert forall|j: int, k: int| 0 <= j < k < once.filed.len() implies reqs[once.filed[j]].title
        != reqs[once.filed[k]].title by {
        let earlier = once.remote.take(remote.len() + k);
        assert(0 <= once.filed[j] < reqs.len());
        assert(0 <= once.filed[k] < reqs.len());
        assert(earlier[remote.len() + j].title == reqs[once.filed[j]].title);
    }
    assert forall|k: int| 0 <= k < once.filed.len() implies !has_title(
        remote,
        reqs[#[trigger] once.filed[k]].title,
    ) by {
        let title = reqs[once.filed[k]].title;
        let earlier = once.remote.take(remote.len() + k);
        if has_title(remote, title) {
            let i = choose|i: int| 0 <= i < remote.len() && (#[trigger] remote[i]).title == title;
            assert(once.remote.take(remote.len() as int)[i] == once.remote[i]);
            assert(earlier[i].title == title);
        }
    }
}

/// Candidates are filed in the order of the batch: of two that are filed,
/// the one filed first stands first in the batch, and the issues that the
/// tracker gains bear their titles in that order.
pub proof fn lemma_filed_in_order(
    h: HelperView,
    reqs: Seq<IssueReqView>,
    remote: Seq<IssueView>,
    mint: Mint,
)
    requires
        keeps_titles(mint),
        h.store.is_empty() || in_step(h.store, remote),
    ensures
        ({
            let b = batch(h, reqs, remote, mint);
            &&& b.remote.len() == remote.len() + b.filed.len()
            &&& forall|j: int, k: int| 0 <= j < k < b.filed.len() ==> b.filed[j] < b.filed[k]
            &&& forall|k: int|
                0 <= k < b.filed.len() ==> 0 <= (#[trigger] b.filed[k]) < reqs.len()
                    && b.remote[remote.len() + k].title == reqs[b.filed[k]].title
        }),
{
    lemma_batch(h, reqs, remote, mint);
}

/// A candidate whose title is known is skipped at once: no request is
/// sent, and the store stays as it is.
pub proof fn lemma_known_title_skipped(h: HelperView, req: IssueReqView)
    requires
        h.store.contains_key(req.title),
    ensures
        after_candidate(h, req) == (
            HelperView { phase: PhaseView::Idle, ..h },
            StepView::Skipped,
        ),
{
    assert(!h.store.is_empty());
}

} // verus!
