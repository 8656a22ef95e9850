//! The upload of a batch of findings documents, file by file.

use vstd::prelude::*;
use crate::issues::{
    after_candidate, after_reply, requests_for, HelperView, HttpRequest, HttpRequestView,
    IssueHelper, IssueReq, IssueReqView, PhaseView, RemoteError, Reply, ReplyView, Step, StepView,
};
use crate::sarif::{issues_of, Sarif, SarifView};

verus! {

/// Why an upload ended early.
#[derive(Debug, Clone, Copy, PartialEq, Eq)]
pub enum UploadError {
    /// A file could not be read.
    Io,
    /// A file does not hold a findings document.
    MalformedInput,
    /// An exchange with the tracker failed.
    Remote(RemoteError),
    /// An event came that answers no action of the upload.
    OutOfTurn,
}

/// What the upload waits for.
#[derive(Debug, Clone, Copy, PartialEq, Eq)]
pub enum Stage {
    /// The contents of the file it asked for.
    AwaitingFile,
    /// The reply to the request it asked to send.
    AwaitingReply,
    /// Nothing: it has ended, with this verdict.
    Done(Result<(), UploadError>),
}

/// What happened to the action that the upload asked for.
#[derive(Debug)]
pub enum Event {
    /// The file was read and holds this document.
    Document(Sarif),
    /// The file could not be read.
    Unreadable,
    /// The file was read and holds no findings document.
    Malformed,
    /// The request was sent, with this outcome.
    Reply(Reply),
}

/// What the upload asks for next.
#[derive(Debug, PartialEq, Eq)]
pub enum Action {
    /// Read the file at this path and decode it as a findings document.
    ReadFile(String),
    /// Send this request.
    Send(HttpRequest),
    /// Nothing more: the upload has ended, with this verdict.
    Finished(Result<(), UploadError>),
}

pub enum EventView {
    Document(SarifView),
    Unreadable,
    Malformed,
    Reply(ReplyView),
}

pub enum ActionView {
    ReadFile(Seq<char>),
    Send(HttpRequestView),
    Finished(Result<(), UploadError>),
}

impl View for Event {
    type V = EventView;

    open spec fn view(&self) -> EventView {
        match self {
            Event::Document(document) => EventView::Document(document@),
            Event::Unreadable => EventView::Unreadable,
            Event::Malformed => EventView::Malformed,
            Event::Reply(reply) => EventView::Reply(reply@),
        }
    }
}

impl View for Action {
    type V = ActionView;

    open spec fn view(&self) -> ActionView {
        match self {
            Action::ReadFile(path) => ActionView::ReadFile(path@),
            Action::Send(request) => ActionView::Send(request@),
            Action::Finished(verdict) => ActionView::Finished(*verdict),
        }
    }
}

/// The upload as a value.
pub struct UploadView {
    /// Paths of the files not asked for yet, in order.
    pub files: Seq<Seq<char>>,
    /// Candidates of the current document not taken up yet, in order.
    pub queue: Seq<IssueReqView>,
    /// The reconciler that all candidates go through.
    pub helper: HelperView,
    pub stage: Stage,
}

/// The upload when it ends with `verdict`.
pub open spec fn finish(u: UploadView, verdict: Result<(), UploadError>) -> (
    UploadView,
    ActionView,
) {
    (UploadView { stage: Stage::Done(verdict), ..u }, ActionView::Finished(verdict))
}

/// Turns to the next file, or ends the upload in success where none is left.
pub open spec fn next_file(u: UploadView) -> (UploadView, ActionView) {
    if u.files.len() == 0 {
        finish(u, Ok(()))
    } else {
        (
            UploadView { files: u.files.drop_first(), stage: Stage::AwaitingFile, ..u },
            ActionView::ReadFile(u.files[0]),
        )
    }
}

/// Takes up the queued candidates in order until one needs a request sent.
/// A candidate whose title is known is passed over without a request. With
/// the queue empty the upload turns to the next file.
pub open spec fn advance(u: UploadView) -> (UploadView, ActionView)
    decreases u.queue.len(),
{
    if u.queue.len() == 0 {
        next_file(u)
    } else {
        let (helper, step) = after_candidate(u.helper, u.queue[0]);
        let rest = UploadView { queue: u.queue.drop_first(), helper, ..u };
        match step {
            StepView::Send(request) => (
                UploadView { stage: Stage::AwaitingReply, ..rest },
                ActionView::Send(request),
            ),
            StepView::Failed(error) => finish(rest, Err(UploadError::Remote(error))),
            _ => advance(rest),
        }
    }
}

/// The upload after an event, and what it asks for next.
///
/// A document's candidates are queued and taken up in order. An unreadable
/// or malformed file, or a failed exchange, ends the upload at once: no later
/// candidate or file is touched. An upload that has ended repeats its
/// verdict.
pub open spec fn after_event(u: UploadView, event: EventView) -> (UploadView, ActionView) {
    match u.stage {
        Stage::Done(verdict) => (u, ActionView::Finished(verdict)),
        Stage::AwaitingFile => match event {
            EventView::Document(document) => advance(
                UploadView { queue: requests_for(issues_of(document.runs)), ..u },
            ),
            EventView::Unreadable => finish(u, Err(UploadError::Io)),
            EventView::Malformed => finish(u, Err(UploadError::MalformedInput)),
            EventView::Reply(_) => finish(u, Err(UploadError::OutOfTurn)),
        },
        Stage::AwaitingReply => match event {
            EventView::Reply(reply) => {
                let (helper, step) = after_reply(u.helper, reply);
                let told = UploadView { helper, ..u };
                match step {
                    StepView::Send(request) => (told, ActionView::Send(request)),
                    StepView::Failed(error) => finish(told, Err(UploadError::Remote(error))),
                    _ => advance(told),
                }
            },
            _ => finish(u, Err(UploadError::OutOfTurn)),
        },
    }
}

/// The upload of `files` at its start, and its first action.
pub open spec fn start(
    files: Seq<Seq<char>>,
    token: Seq<char>,
    owner: Seq<char>,
    repo: Seq<char>,
) -> (UploadView, ActionView) {
    next_file(
        UploadView {
            files,
            queue: Seq::empty(),
            helper: HelperView {
                token,
                owner,
                repo,
                store: Map::empty(),
                phase: PhaseView::Idle,
            },
            stage: Stage::AwaitingFile,
        },
    )
}

/// A document without runs gives no candidate and costs no request: the
/// upload turns to the next file at once, or ends in success, and the
/// reconciler stays as it is.
pub proof fn lemma_empty_document_sends_nothing(u: UploadView, document: SarifView)
    requires
        u.stage is AwaitingFile,
        document.runs.len() == 0,
    ensures
        after_event(u, EventView::Document(document)) == next_file(
            UploadView { queue: Seq::empty(), ..u },
        ),
        !(after_event(u, EventView::Document(document)).1 is Send),
        after_event(u, EventView::Document(document)).0.helper == u.helper,
{
    assert(requests_for(issues_of(document.runs)) =~= Seq::<IssueReqView>::empty());
}

/// Files one issue per finding of a batch of documents, each title once.
///
/// The upload performs nothing itself. It names the next action, a file to
/// read or a request to send, and is told the outcome through
/// [`Upload::step`], until it says that it has finished.
pub struct Upload {
    // Both are kept last first, so that the next one is taken from the end.
    files: Vec<String>,
    queue: Vec<IssueReq>,
    helper: IssueHelper,
    stage: Stage,
}

impl View for Upload {
    type V = UploadView;

    closed spec fn view(&self) -> UploadView {
        UploadView {
            files: self.files.deep_view().reverse(),
            queue: self.queue.deep_view().reverse(),
            helper: self.helper@,
            stage: self.stage,
        }
    }
}

fn reversed_paths(mut paths: Vec<String>) -> (turned: Vec<String>)
    ensures
        turned.deep_view() == paths.deep_view().reverse(),
{
    let ghost all = paths.deep_view();
    let mut turned: Vec<String> = Vec::new();
    while paths.len() > 0
        invariant
            paths.len() <= all.len(),
            paths.deep_view() =~= all.take(paths.len() as int),
            turned.len() == all.len() - paths.len(),
            forall|k: int| 0 <= k < turned.len() ==> turned[k]@ == all[all.len() - 1 - k],
        decreases paths.len(),
    {
        let ghost before = paths.deep_view();
        let path = paths.pop().unwrap();
        assert(paths.deep_view() =~= before.drop_last());
        assert(path@ == before.last());
        turned.push(path);
    }
    assert(turned.deep_view() =~= all.reverse());
    turned
}

fn reversed_candidates(mut reqs: Vec<IssueReq>) -> (turned: Vec<IssueReq>)
    ensures
        turned.deep_view() == reqs.deep_view().reverse(),
{
    let ghost all = reqs.deep_view();
    let mut turned: Vec<IssueReq> = Vec::new();
    while reqs.len() > 0
        invariant
            reqs.len() <= all.len(),
            reqs.deep_view() =~= all.take(reqs.len() as int),
            turned.len() == all.len() - reqs.len(),
            forall|k: int| 0 <= k < turned.len() ==> turned[k]@ == all[all.len() - 1 - k],
        decreases reqs.len(),
    {
        let ghost before = reqs.deep_view();
        let req = reqs.pop().unwrap();
        assert(reqs.deep_view() =~= before.drop_last());
        assert(req@ == before.last());
        turned.push(req);
    }
    assert(turned.deep_view() =~= all.reverse());
    turned
}

impl Upload {
    /// An upload of the documents at `files`, in that order, to the
    /// repository `owner`/`repo`, with its first action.
    pub fn new(files: Vec<String>, token: &str, owner: &str, repo: &str) -> (begun: (
        Upload,
        Action,
    ))
        ensures
            begun.0@ == start(files.deep_view(), token@, owner@, repo@).0,
            begun.1@ == start(files.deep_view(), token@, owner@, repo@).1,
    {
        let ghost paths = files.deep_view();
        let mut upload = Upload {
            files: reversed_paths(files),
            queue: Vec::new(),
            helper: IssueHelper::new(token, owner, repo),
            stage: Stage::AwaitingFile,
        };
        proof {
            assert(upload.files.deep_view().reverse() =~= paths);
            assert(upload.queue.deep_view().reverse() =~= Seq::<IssueReqView>::empty());
        }
        let action = upload.next_file();
        (upload, action)
    }

    /// What the upload waits for.
    pub fn stage(&self) -> (stage: Stage)
        ensures
            stage == self@.stage,
    {
        self.stage
    }

    fn finish(&mut self, verdict: Result<(), UploadError>) -> (action: Action)
        ensures
            final(self)@ == finish(old(self)@, verdict).0,
            action@ == finish(old(self)@, verdict).1,
    {
        self.stage = Stage::Done(verdict);
        Action::Finished(verdict)
    }

    fn next_file(&mut self) -> (action: Action)
        ensures
            final(self)@ == next_file(old(self)@).0,
            action@ == next_file(old(self)@).1,
    {
        let ghost before = self.files.deep_view();
        match self.files.pop() {
            Some(path) => {
                self.stage = Stage::AwaitingFile;
                proof {
                    assert(self.files.deep_view() =~= before.drop_last());
                    assert(before.drop_last().reverse() =~= before.reverse().drop_first());
                    assert(path@ == before.reverse()[0]);
                }
                Action::ReadFile(path)
            },
            None => {
                assert(before.reverse().len() == 0);
                self.finish(Ok(()))
            },
        }
    }

    fn advance(&mut self) -> (action: Action)
        ensures
            final(self)@ == advance(old(self)@).0,
            action@ == advance(old(self)@).1,
    {
        while self.queue.len() > 0
            invariant
                advance(self@) == advance(old(self)@),
            decreases self.queue.len(),
        {
            let ghost before = self.queue.deep_view();
            let ghost now = self@;
            let req = self.queue.pop().unwrap();
            proof {
                assert(self.queue.deep_view() =~= before.drop_last());
                assert(before.drop_last().reverse() =~= before.reverse().drop_first());
                assert(req@ == now.queue[0]);
            }
            match self.helper.create_issue_unique(req) {
                Step::Send(request) => {
                    self.stage = Stage::AwaitingReply;
                    return Action::Send(request);
                },
                Step::Failed(error) => {
                    return self.finish(Err(UploadError::Remote(error)));
                },
                _ => {},
            }
        }
        assert(self@.queue.len() == 0);
        self.next_file()
    }

    /// Tells the upload the outcome of the action it asked for, and takes
    /// its next action.
    pub fn step(&mut self, event: Event) -> (action: Action)
        ensures
            final(self)@ == after_event(old(self)@, event@).0,
            action@ == after_event(old(self)@, event@).1,
    {
        match self.stage {
            Stage::Done(verdict) => Action::Finished(verdict),
            Stage::AwaitingFile => match event {
                Event::Document(document) => {
                    let records = document.parse_sarif_issue();
                    self.queue = reversed_candidates(IssueReq::for_findings(&records));
                    proof {
                        assert(self.queue.deep_view().reverse() =~= requests_for(
                            issues_of(document@.runs),
                        ));
                    }
                    self.advance()
                },
                Event::Unreadable => self.finish(Err(UploadError::Io)),
                Event::Malformed => self.finish(Err(UploadError::MalformedInput)),
                Event::Reply(_) => self.finish(Err(UploadError::OutOfTurn)),
            },
            Stage::AwaitingReply => match event {
                Event::Reply(reply) => match self.helper.resume(reply) {
                    Step::Send(request) => Action::Send(request),
                    Step::Failed(error) => self.finish(Err(UploadError::Remote(error))),
                    _ => self.advance(),
                },
                _ => self.finish(Err(UploadError::OutOfTurn)),
            },
        }
    }
}

} // verus!
