//! Issues of a tracker, requests to file them, and the reconciler that files
//! each title at most once.

use vstd::prelude::*;
use vstd::hash_map::StringHashMap;
use vstd::string::StringExecFns;
use crate::sarif::{render_body, SarifIssue, SarifIssueView};
use crate::text::{decimal, to_decimal};

verus! {

/// How many issues one page of a listing holds at most.
pub const PER_PAGE: u64 = 50;

/// An issue as the tracker reports it.
#[derive(Debug, PartialEq, Eq)]
pub struct Issue {
    pub id: u64,
    pub number: u64,
    pub title: String,
    pub state: String,
    pub url: String,
}

/// What is sent to the tracker to have an issue filed.
#[derive(Debug, PartialEq, Eq)]
pub struct IssueReq {
    pub title: String,
    pub body: String,
    pub assignees: Vec<String>,
    pub milestone: Option<String>,
    pub labels: Vec<String>,
}

/// One request to the tracker, as plain values: the transport turns it into
/// a call and sends `payload`, where there is one, as the JSON body.
#[derive(Debug, PartialEq, Eq)]
pub struct HttpRequest {
    pub method: String,
    pub url: String,
    pub headers: Vec<(String, String)>,
    pub payload: Option<IssueReq>,
}

/// Why an exchange with the tracker failed.
#[derive(Debug, Clone, Copy, PartialEq, Eq)]
pub enum RemoteError {
    /// The transport could not complete the request.
    Transport,
    /// The tracker answered with a status outside 200..=299.
    Status(u16),
    /// The body of the answer was not what the request asks for.
    MalformedBody,
    /// An answer came while no request was outstanding.
    Unsolicited,
}

/// What came back for a request.
#[derive(Debug, PartialEq, Eq)]
pub enum Reply {
    /// The transport could not complete the request.
    Unreachable,
    /// An answer whose body is an array of issues.
    Issues { status: u16, issues: Vec<Issue> },
    /// An answer whose body is one issue.
    Issue { status: u16, issue: Issue },
    /// An answer whose body is neither.
    Unreadable { status: u16 },
}

/// Where the reconciler stands after a call.
#[derive(Debug, PartialEq, Eq)]
pub enum Step {
    /// This request is to be sent, and its reply handed to
    /// [`IssueHelper::resume`].
    Send(HttpRequest),
    /// The candidate's title is already known; nothing is sent.
    Skipped,
    /// The tracker filed the candidate as this issue.
    Created(Issue),
    /// The exchange failed; the candidate was not filed.
    Failed(RemoteError),
}

pub struct IssueView {
    pub id: u64,
    pub number: u64,
    pub title: Seq<char>,
    pub state: Seq<char>,
    pub url: Seq<char>,
}

pub struct IssueReqView {
    pub title: Seq<char>,
    pub body: Seq<char>,
    pub assignees: Seq<Seq<char>>,
    pub milestone: Option<Seq<char>>,
    pub labels: Seq<Seq<char>>,
}

pub struct HttpRequestView {
    pub method: Seq<char>,
    pub url: Seq<char>,
    pub headers: Seq<(Seq<char>, Seq<char>)>,
    pub payload: Option<IssueReqView>,
}

pub enum ReplyView {
    Unreachable,
    Issues { status: u16, issues: Seq<IssueView> },
    Issue { status: u16, issue: IssueView },
    Unreadable { status: u16 },
}

pub enum StepView {
    Send(HttpRequestView),
    Skipped,
    Created(IssueView),
    Failed(RemoteError),
}

impl View for Issue {
    type V = IssueView;

    open spec fn view(&self) -> IssueView {
        IssueView {
            id: self.id,
            number: self.number,
            title: self.title@,
            state: self.state@,
            url: self.url@,
        }
    }
}

impl DeepView for Issue {
    type V = IssueView;

    open spec fn deep_view(&self) -> IssueView {
        self@
    }
}

impl View for IssueReq {
    type V = IssueReqView;

    open spec fn view(&self) -> IssueReqView {
        IssueReqView {
            title: self.title@,
            body: self.body@,
            assignees: self.assignees.deep_view(),
            milestone: self.milestone.deep_view(),
            labels: self.labels.deep_view(),
        }
    }
}

impl DeepView for IssueReq {
    type V = IssueReqView;

    open spec fn deep_view(&self) -> IssueReqView {
        self@
    }
}

impl View for HttpRequest {
    type V = HttpRequestView;

    open spec fn view(&self) -> HttpRequestView {
        HttpRequestView {
            method: self.method@,
            url: self.url@,
            headers: self.headers.deep_view(),
            payload: self.payload.deep_view(),
        }
    }
}

impl View for Reply {
    type V = ReplyView;

    open spec fn view(&self) -> ReplyView {
        match self {
            Reply::Unreachable => ReplyView::Unreachable,
            Reply::Issues { status, issues } => ReplyView::Issues {
                status: *status,
                issues: issues.deep_view(),
            },
            Reply::Issue { status, issue } => ReplyView::Issue { status: *status, issue: issue@ },
            Reply::Unreadable { status } => ReplyView::Unreadable { status: *status },
        }
    }
}

impl View for Step {
    type V = StepView;

    open spec fn view(&self) -> StepView {
        match self {
            Step::Send(request) => StepView::Send(request@),
            Step::Skipped => StepView::Skipped,
            Step::Created(issue) => StepView::Created(issue@),
            Step::Failed(error) => StepView::Failed(*error),
        }
    }
}

impl Default for Issue {
    /// An issue with every field zero or empty.
    fn default() -> (issue: Self)
        ensures
            issue@ == (IssueView {
                id: 0,
                number: 0,
                title: Seq::empty(),
                state: Seq::empty(),
                url: Seq::empty(),
            }),
    {
        Issue { id: 0, number: 0, title: String::new(), state: String::new(), url: String::new() }
    }
}

impl Default for IssueReq {
    /// A request with empty texts, nobody assigned, no milestone and no
    /// label.
    fn default() -> (req: Self)
        ensures
            req@ == (IssueReqView {
                title: Seq::empty(),
                body: Seq::empty(),
                assignees: Seq::empty(),
                milestone: None,
                labels: Seq::empty(),
            }),
    {
        let req = IssueReq {
            title: String::new(),
            body: String::new(),
            assignees: Vec::new(),
            milestone: None,
            labels: Vec::new(),
        };
        assert(req.assignees.deep_view() =~= Seq::empty());
        assert(req.labels.deep_view() =~= Seq::empty());
        req
    }
}

impl Clone for Issue {
    fn clone(&self) -> (copy: Self)
        ensures
            copy == *self,
    {
        Issue {
            id: self.id,
            number: self.number,
            title: self.title.clone(),
            state: self.state.clone(),
            url: self.url.clone(),
        }
    }
}

fn copy_texts(texts: &Vec<String>) -> (copy: Vec<String>)
    ensures
        copy.deep_view() == texts.deep_view(),
{
    let mut copy: Vec<String> = Vec::new();
    let mut i: usize = 0;
    while i < texts.len()
        invariant
            i <= texts.len(),
            copy.len() == i,
            forall|k: int| 0 <= k < i ==> copy[k]@ == texts[k]@,
        decreases texts.len() - i,
    {
        copy.push(texts[i].clone());
        i += 1;
    }
    assert(copy.deep_view() =~= texts.deep_view());
    copy
}

impl Clone for IssueReq {
    fn clone(&self) -> (copy: Self)
        ensures
            copy@ == self@,
    {
        let milestone = match &self.milestone {
            Some(text) => Some(text.clone()),
            None => None,
        };
        IssueReq {
            title: self.title.clone(),
            body: self.body.clone(),
            assignees: copy_texts(&self.assignees),
            milestone,
            labels: copy_texts(&self.labels),
        }
    }
}

/// The candidate issue for a finding: titled with the rule identifier, with
/// the rendered body, the fixed assignee and label, and no milestone.
pub open spec fn request_for(issue: SarifIssueView) -> IssueReqView {
    IssueReqView {
        title: issue.rule_id,
        body: render_body(issue),
        assignees: seq!["smartcat999"@],
        milestone: None,
        labels: seq!["bug"@],
    }
}

/// The candidates for a sequence of records, one each, in order.
pub open spec fn requests_for(issues: Seq<SarifIssueView>) -> Seq<IssueReqView> {
    Seq::new(issues.len(), |i: int| request_for(issues[i]))
}

impl IssueReq {
    /// Builds the candidate issue for a finding.
    pub fn for_finding(issue: &SarifIssue) -> (req: IssueReq)
        ensures
            req@ == request_for(issue@),
    {
        let mut assignees: Vec<String> = Vec::new();
        assignees.push(String::from_str("smartcat999"));
        let mut labels: Vec<String> = Vec::new();
        labels.push(String::from_str("bug"));
        let req = IssueReq {
            title: issue.rule_id.clone(),
            body: issue.body(),
            assignees,
            milestone: None,
            labels,
        };
        assert(req.assignees.deep_view() =~= seq!["smartcat999"@]);
        assert(req.labels.deep_view() =~= seq!["bug"@]);
        req
    }

    /// Builds the candidates for the records of a document, in order.
    pub fn for_findings(issues: &Vec<SarifIssue>) -> (reqs: Vec<IssueReq>)
        ensures
            reqs.deep_view() == requests_for(issues.deep_view()),
            reqs.len() == issues.len(),
    {
        let mut reqs: Vec<IssueReq> = Vec::new();
        let mut i: usize = 0;
        while i < issues.len()
            invariant
                i <= issues.len(),
                reqs.len() == i,
                forall|k: int| 0 <= k < i ==> reqs[k]@ == request_for(issues[k]@),
            decreases issues.len() - i,
        {
            reqs.push(IssueReq::for_finding(&issues[i]));
            i += 1;
        }
        assert(reqs.deep_view() =~= requests_for(issues.deep_view()));
        reqs
    }
}

/// What the reconciler waits for.
pub enum PhaseView {
    /// No request is outstanding.
    Idle,
    /// Page `page` of the listing was asked for. `found` holds the issues of
    /// the pages before it, and `pending` is the candidate to settle once the
    /// listing is complete.
    Listing { page: nat, found: Seq<IssueView>, pending: IssueReqView },
    /// The tracker was asked to file `pending`.
    Creating { pending: IssueReqView },
}

/// The reconciler as a value: its target, the issues it knows by title, and
/// what it waits for.
pub struct HelperView {
    pub token: Seq<char>,
    pub owner: Seq<char>,
    pub repo: Seq<char>,
    pub store: Map<Seq<char>, IssueView>,
    pub phase: PhaseView,
}

/// Address of the issues of a repository.
pub open spec fn issues_url(owner: Seq<char>, repo: Seq<char>) -> Seq<char> {
    "https://api.github.com/repos/"@ + owner + "/"@ + repo + "/issues"@
}

/// The headers every request carries.
pub open spec fn headers_for(token: Seq<char>) -> Seq<(Seq<char>, Seq<char>)> {
    seq![
        ("Accept"@, "application/vnd.github+json"@),
        ("Authorization"@, "Bearer "@ + token),
        ("X-GitHub-Api-Version"@, "2022-11-28"@),
    ]
}

/// The request for one page of the repository's issues. Pages count from 1.
pub open spec fn listing_request(h: HelperView, page: nat) -> HttpRequestView {
    HttpRequestView {
        method: "GET"@,
        url: issues_url(h.owner, h.repo) + "?per_page="@ + decimal(PER_PAGE as nat) + "&page="@
            + decimal(page),
        headers: headers_for(h.token),
        payload: None,
    }
}

/// The request that files a candidate.
pub open spec fn creation_request(h: HelperView, req: IssueReqView) -> HttpRequestView {
    HttpRequestView {
        method: "POST"@,
        url: issues_url(h.owner, h.repo),
        headers: headers_for(h.token),
        payload: Some(req),
    }
}

/// A status that reports success.
pub open spec fn is_success(status: u16) -> bool {
    200 <= status <= 299
}

/// The store after the issues of a listing were entered in order, each under
/// its title. Of two issues with one title the later stays.
pub open spec fn index_by_title(
    store: Map<Seq<char>, IssueView>,
    found: Seq<IssueView>,
) -> Map<Seq<char>, IssueView>
    decreases found.len(),
{
    if found.len() == 0 {
        store
    } else {
        index_by_title(store, found.drop_last()).insert(found.last().title, found.last())
    }
}

/// Settles a candidate against a store: a known title is skipped without a
/// request, any other is sent to the tracker.
pub open spec fn settle(
    h: HelperView,
    store: Map<Seq<char>, IssueView>,
    pending: IssueReqView,
) -> (HelperView, StepView) {
    if store.contains_key(pending.title) {
        (HelperView { store, phase: PhaseView::Idle, ..h }, StepView::Skipped)
    } else {
        (
            HelperView { store, phase: PhaseView::Creating { pending }, ..h },
            StepView::Send(creation_request(h, pending)),
        )
    }
}

/// The reconciler after it was handed a candidate, and what it asks for.
/// With an empty store it first lists the repository, from page 1; otherwise
/// it settles the candidate at once.
pub open spec fn after_candidate(h: HelperView, req: IssueReqView) -> (HelperView, StepView) {
    if h.store.is_empty() {
        (
            HelperView {
                phase: PhaseView::Listing { page: 1, found: Seq::empty(), pending: req },
                ..h
            },
            StepView::Send(listing_request(h, 1)),
        )
    } else {
        settle(h, h.store, req)
    }
}

/// The error that a reply amounts to by itself, if any: no answer at all, or
/// an answer whose status does not report success.
pub open spec fn reply_failure(reply: ReplyView) -> Option<RemoteError> {
    match reply {
        ReplyView::Unreachable => Some(RemoteError::Transport),
        ReplyView::Issues { status, .. } | ReplyView::Issue { status, .. } | ReplyView::Unreadable {
            status,
        } => if is_success(status) {
            None
        } else {
            Some(RemoteError::Status(status))
        },
    }
}

/// The reconciler after a reply, and what it asks for next.
///
/// While listing, a page with issues is kept and the next page asked for; an
/// empty page ends the listing, the issues found are entered in the store and
/// the candidate is settled. While creating, the issue that the tracker filed
/// is entered in the store under its title. Any failure ends the exchange and
/// leaves the store as it was.
pub open spec fn after_reply(h: HelperView, reply: ReplyView) -> (HelperView, StepView) {
    let idle = HelperView { phase: PhaseView::Idle, ..h };
    match h.phase {
        PhaseView::Idle => (h, StepView::Failed(RemoteError::Unsolicited)),
        PhaseView::Listing { page, found, pending } => match reply_failure(reply) {
            Some(error) => (idle, StepView::Failed(error)),
            None => match reply {
                ReplyView::Issues { issues, .. } => if issues.len() == 0 {
                    settle(h, index_by_title(h.store, found), pending)
                } else {
                    (
                        HelperView {
                            phase: PhaseView::Listing {
                                page: page + 1,
                                found: found + issues,
                                pending,
                            },
                            ..h
                        },
                        StepView::Send(listing_request(h, page + 1)),
                    )
                },
                _ => (idle, StepView::Failed(RemoteError::MalformedBody)),
            },
        },
        PhaseView::Creating { pending } => match reply_failure(reply) {
            Some(error) => (idle, StepView::Failed(error)),
            None => match reply {
                ReplyView::Issue { issue, .. } => (
                    HelperView {
                        store: h.store.insert(issue.title, issue),
                        phase: PhaseView::Idle,
                        ..h
                    },
                    StepView::Created(issue),
                ),
                _ => (idle, StepView::Failed(RemoteError::MalformedBody)),
            },
        },
    }
}

enum Waiting {
    Nothing,
    Page,
    Creation,
}

/// The reconciler: it files a candidate unless the repository already has an
/// issue of that title.
///
/// It keeps the issues it knows by title. The store starts empty and is
/// filled by listing the repository when the first candidate arrives; every
/// issue filed afterwards is entered too.
pub struct IssueHelper {
    token: String,
    owner: String,
    repo: String,
    issue_store: StringHashMap<Issue>,
    waiting: Waiting,
    pages: Vec<Vec<Issue>>,
    pending: IssueReq,
}

/// The issues of a sequence of pages, in order.
spec fn concat(pages: Seq<Seq<IssueView>>) -> Seq<IssueView>
    decreases pages.len(),
{
    if pages.len() == 0 {
        Seq::empty()
    } else {
        concat(pages.drop_last()) + pages.last()
    }
}

spec fn store_view(store: Map<Seq<char>, Issue>) -> Map<Seq<char>, IssueView> {
    store.map_values(|issue: Issue| issue@)
}

impl View for IssueHelper {
    type V = HelperView;

    closed spec fn view(&self) -> HelperView {
        HelperView {
            token: self.token@,
            owner: self.owner@,
            repo: self.repo@,
            store: store_view(self.issue_store@),
            phase: match self.waiting {
                Waiting::Nothing => PhaseView::Idle,
                Waiting::Page => PhaseView::Listing {
                    page: self.pages.len() as nat + 1,
                    found: concat(self.pages.deep_view()),
                    pending: self.pending@,
                },
                Waiting::Creation => PhaseView::Creating { pending: self.pending@ },
            },
        }
    }
}

fn auth_headers(token: &str) -> (headers: Vec<(String, String)>)
    ensures
        headers.deep_view() == headers_for(token@),
{
    let mut headers: Vec<(String, String)> = Vec::new();
    headers.push((String::from_str("Accept"), String::from_str("application/vnd.github+json")));
    let mut bearer = String::from_str("Bearer ");
    bearer.append(token);
    headers.push((String::from_str("Authorization"), bearer));
    headers.push((String::from_str("X-GitHub-Api-Version"), String::from_str("2022-11-28")));
    assert(headers.deep_view() =~= headers_for(token@));
    headers
}

fn issues_endpoint(owner: &str, repo: &str) -> (url: String)
    ensures
        url@ == issues_url(owner@, repo@),
{
    let mut url = String::from_str("https://api.github.com/repos/");
    url.append(owner);
    url.append("/");
    url.append(repo);
    url.append("/issues");
    url
}

fn failure_of(reply: &Reply) -> (failure: Option<RemoteError>)
    ensures
        failure == reply_failure(reply@),
{
    match reply {
        Reply::Unreachable => Some(RemoteError::Transport),
        Reply::Issues { status, .. } | Reply::Issue { status, .. } | Reply::Unreadable { status } => {
            if 200 <= *status && *status <= 299 {
                None
            } else {
                Some(RemoteError::Status(*status))
            }
        },
    }
}

fn enter_all(store: &mut StringHashMap<Issue>, found: &Vec<Issue>)
    ensures
        store_view(final(store)@) == index_by_title(store_view(old(store)@), found.deep_view()),
{
    let ghost start = store_view(store@);
    let ghost all = found.deep_view();
    let mut i: usize = 0;
    while i < found.len()
        invariant
            i <= found.len(),
            all == found.deep_view(),
            store_view(store@) =~= index_by_title(start, all.take(i as int)),
        decreases found.len() - i,
    {
        let ghost before = store@;
        let issue = found[i].clone();
        proof {
            assert(all.take(i + 1).drop_last() =~= all.take(i as int));
            assert(all.take(i + 1).last() == issue@);
        }
        store.insert(issue.title.clone(), issue);
        proof {
            assert(store_view(store@) =~= store_view(before).insert(issue@.title, issue@));
        }
        i += 1;
    }
    proof {
        assert(all.take(found.len() as int) =~= all);
    }
}

/// Entering two runs of issues one after the other is entering them joined.
proof fn lemma_index_by_title_joined(
    store: Map<Seq<char>, IssueView>,
    first: Seq<IssueView>,
    second: Seq<IssueView>,
)
    ensures
        index_by_title(store, first + second) == index_by_title(
            index_by_title(store, first),
            second,
        ),
    decreases second.len(),
{
    if second.len() == 0 {
        assert(first + second =~= first);
    } else {
        lemma_index_by_title_joined(store, first, second.drop_last());
        assert((first + second).drop_last() =~= first + second.drop_last());
    }
}

fn enter_pages(store: &mut StringHashMap<Issue>, pages: &Vec<Vec<Issue>>)
    ensures
        store_view(final(store)@) == index_by_title(
            store_view(old(store)@),
            concat(pages.deep_view()),
        ),
{
    let ghost start = store_view(store@);
    let ghost all = pages.deep_view();
    let mut k: usize = 0;
    while k < pages.len()
        invariant
            k <= pages.len(),
            all == pages.deep_view(),
            store_view(store@) == index_by_title(start, concat(all.take(k as int))),
        decreases pages.len() - k,
    {
        proof {
            assert(all.take(k + 1).drop_last() =~= all.take(k as int));
            assert(all.take(k + 1).last() == pages[k as int].deep_view());
            lemma_index_by_title_joined(start, concat(all.take(k as int)), all[k as int]);
        }
        enter_all(store, &pages[k]);
        k += 1;
    }
    proof {
        assert(all.take(pages.len() as int) =~= all);
    }
}

impl IssueHelper {
    /// A reconciler for the repository `owner`/`repo`, opened by `token`. It
    /// knows no issue yet.
    pub fn new(token: &str, owner: &str, repo: &str) -> (helper: IssueHelper)
        ensures
            helper@ == (HelperView {
                token: token@,
                owner: owner@,
                repo: repo@,
                store: Map::empty(),
                phase: PhaseView::Idle,
            }),
    {
        let helper = IssueHelper {
            token: String::from_str(token),
            owner: String::from_str(owner),
            repo: String::from_str(repo),
            issue_store: StringHashMap::new(),
            waiting: Waiting::Nothing,
            pages: Vec::new(),
            pending: IssueReq::default(),
        };
        assert(helper@.store =~= Map::empty());
        helper
    }

    /// The request for page `page` of the repository's issues.
    pub fn list_repo_issues(&self, page: u128) -> (request: HttpRequest)
        ensures
            request@ == listing_request(self@, page as nat),
    {
        let mut url = issues_endpoint(self.owner.as_str(), self.repo.as_str());
        url.append("?per_page=");
        url.append(to_decimal(PER_PAGE as u128).as_str());
        url.append("&page=");
        url.append(to_decimal(page).as_str());
        HttpRequest {
            method: String::from_str("GET"),
            url,
            headers: auth_headers(self.token.as_str()),
            payload: None,
        }
    }

    /// The request that files `req` in the repository.
    pub fn create_issue(&self, req: &IssueReq) -> (request: HttpRequest)
        ensures
            request@ == creation_request(self@, req@),
    {
        HttpRequest {
            method: String::from_str("POST"),
            url: issues_endpoint(self.owner.as_str(), self.repo.as_str()),
            headers: auth_headers(self.token.as_str()),
            payload: Some(req.clone()),
        }
    }

    /// Settles the candidate that is pending against the store.
    fn settle_pending(&mut self) -> (step: Step)
        requires
            old(self).waiting is Nothing,
        ensures
            final(self)@ == settle(old(self)@, old(self)@.store, old(self).pending@).0,
            step@ == settle(old(self)@, old(self)@.store, old(self).pending@).1,
    {
        let ghost before = self@;
        if self.issue_store.contains_key(self.pending.title.as_str()) {
            Step::Skipped
        } else {
            let request = self.create_issue(&self.pending);
            self.waiting = Waiting::Creation;
            assert(self@.store =~= before.store);
            Step::Send(request)
        }
    }

    /// Takes up a candidate: files it unless an issue of its title is known.
    ///
    /// With an empty store the repository is listed first. The step returned
    /// says what to do: send a request and hand its reply to
    /// [`IssueHelper::resume`], or nothing more because the title is known.
    /// An exchange left unfinished is given up.
    pub fn create_issue_unique(&mut self, req: IssueReq) -> (step: Step)
        ensures
            final(self)@ == after_candidate(old(self)@, req@).0,
            step@ == after_candidate(old(self)@, req@).1,
    {
        let ghost before = self@;
        let empty = self.knows_none();
        self.waiting = Waiting::Nothing;
        self.pages = Vec::new();
        self.pending = req;
        assert(self@.store =~= before.store);
        if empty {
            self.waiting = Waiting::Page;
            assert(self.pages.deep_view() =~= Seq::empty());
            assert(self@.store =~= before.store);
            Step::Send(self.list_repo_issues(1))
        } else {
            self.settle_pending()
        }
    }

    /// Takes the reply to the request that was sent last, and says what to
    /// do next.
    pub fn resume(&mut self, reply: Reply) -> (step: Step)
        ensures
            final(self)@ == after_reply(old(self)@, reply@).0,
            step@ == after_reply(old(self)@, reply@).1,
    {
        let ghost before = self@;
        match self.waiting {
            Waiting::Nothing => Step::Failed(RemoteError::Unsolicited),
            Waiting::Page => {
                self.waiting = Waiting::Nothing;
                match failure_of(&reply) {
                    Some(error) => {
                        assert(self@.store =~= before.store);
                        Step::Failed(error)
                    },
                    None => match reply {
                        Reply::Issues { issues, .. } => {
                            if issues.len() == 0 {
                                enter_pages(&mut self.issue_store, &self.pages);
                                self.pages = Vec::new();
                                self.settle_pending()
                            } else {
                                let ghost kept = self.pages.deep_view();
                                let ghost fresh = issues.deep_view();
                                self.pages.push(issues);
                                self.waiting = Waiting::Page;
                                proof {
                                    assert(self.pages.deep_view() =~= kept.push(fresh));
                                    assert(self.pages.deep_view().drop_last() =~= kept);
                                    assert(self@.store =~= before.store);
                                }
                                let page: u128 = self.pages.len() as u128 + 1;
                                Step::Send(self.list_repo_issues(page))
                            }
                        },
                        _ => {
                            assert(self@.store =~= before.store);
                            Step::Failed(RemoteError::MalformedBody)
                        },
                    },
                }
            },
            Waiting::Creation => {
                self.waiting = Waiting::Nothing;
                match failure_of(&reply) {
                    Some(error) => {
                        assert(self@.store =~= before.store);
                        Step::Failed(error)
                    },
                    None => match reply {
                        Reply::Issue { issue, .. } => {
                            self.issue_store.insert(issue.title.clone(), issue.clone());
                            assert(self@.store =~= before.store.insert(issue@.title, issue@));
                            Step::Created(issue)
                        },
                        _ => {
                            assert(self@.store =~= before.store);
                            Step::Failed(RemoteError::MalformedBody)
                        },
                    },
                }
            },
        }
    }

    /// Whether an issue of this title is known.
    pub fn knows(&self, title: &str) -> (known: bool)
        ensures
            known == self@.store.contains_key(title@),
    {
        self.issue_store.contains_key(title)
    }

    /// The issue known under this title, if there is one.
    pub fn issue(&self, title: &str) -> (found: Option<Issue>)
        ensures
            found.deep_view() == if self@.store.contains_key(title@) {
                Some(self@.store[title@])
            } else {
                None
            },
    {
        match self.issue_store.get(title) {
            Some(issue) => Some(issue.clone()),
            None => None,
        }
    }

    /// How many issues are known.
    pub fn known_issues(&self) -> (count: usize)
        ensures
            count == self@.store.len(),
    {
        let count = self.issue_store.len();
        assert(store_view(self.issue_store@).dom() =~= self.issue_store@.dom());
        count
    }

    /// Whether no issue is known.
    pub fn knows_none(&self) -> (none: bool)
        ensures
            none == self@.store.is_empty(),
    {
        let none = self.issue_store.is_empty();
        assert(store_view(self.issue_store@).dom() =~= self.issue_store@.dom());
        none
    }
}

} // verus!
