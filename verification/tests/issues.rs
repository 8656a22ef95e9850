use github_helper::issues::{HttpRequest, Issue, IssueHelper, IssueReq, RemoteError, Reply, Step};

const TOKEN: &str = "*****";
const OWNER: &str = "smartcat999";
const REPO: &str = "issue_auto_report";

fn candidate(title: &str) -> IssueReq {
    IssueReq {
        title: title.to_string(),
        body: String::new(),
        assignees: vec![String::from("smartcat999")],
        milestone: None,
        labels: vec![String::from("bug")],
    }
}

fn issue(number: u64, title: &str) -> Issue {
    Issue {
        id: 1000 + number,
        number,
        title: title.to_string(),
        state: String::from("open"),
        url: format!("https://api.github.com/repos/smartcat999/issue_auto_report/issues/{}", number),
    }
}

fn issues(from: u64, count: u64) -> Vec<Issue> {
    (from..from + count).map(|n| issue(n, &format!("CVE-2023-{}", n))).collect()
}

fn headers() -> Vec<(String, String)> {
    vec![
        (String::from("Accept"), String::from("application/vnd.github+json")),
        (String::from("Authorization"), String::from("Bearer *****")),
        (String::from("X-GitHub-Api-Version"), String::from("2022-11-28")),
    ]
}

fn listing(page: u64) -> HttpRequest {
    HttpRequest {
        method: String::from("GET"),
        url: format!(
            "https://api.github.com/repos/smartcat999/issue_auto_report/issues?per_page=50&page={}",
            page
        ),
        headers: headers(),
        payload: None,
    }
}

fn creation(req: IssueReq) -> HttpRequest {
    HttpRequest {
        method: String::from("POST"),
        url: String::from("https://api.github.com/repos/smartcat999/issue_auto_report/issues"),
        headers: headers(),
        payload: Some(req),
    }
}

fn page(issues: Vec<Issue>) -> Reply {
    Reply::Issues { status: 200, issues }
}

/// A reconciler that has listed a repository holding `known`.
fn seeded(known: Vec<Issue>, first: &str) -> (IssueHelper, Step) {
    let mut helper = IssueHelper::new(TOKEN, OWNER, REPO);
    assert_eq!(helper.create_issue_unique(candidate(first)), Step::Send(listing(1)));
    if !known.is_empty() {
        assert_eq!(helper.resume(page(known)), Step::Send(listing(2)));
    }
    let step = helper.resume(page(vec![]));
    (helper, step)
}

#[test]
fn test_create_issue() {
    let issue_helper = IssueHelper::new(TOKEN, OWNER, REPO);
    let issue = candidate("CVE-2023-25173");
    let request = issue_helper.create_issue(&issue);
    assert_eq!(request.method, "POST");
    assert_eq!(request.url, "https://api.github.com/repos/smartcat999/issue_auto_report/issues");
    assert_eq!(request.headers, headers());
    assert_eq!(request.payload, Some(candidate("CVE-2023-25173")));
}

#[test]
fn test_list_repo_issues() {
    let issue_helper = IssueHelper::new(TOKEN, OWNER, REPO);
    let request = issue_helper.list_repo_issues(1);
    assert_eq!(request.method, "GET");
    assert_eq!(
        request.url,
        "https://api.github.com/repos/smartcat999/issue_auto_report/issues?per_page=50&page=1"
    );
    assert_eq!(request.headers, headers());
    assert_eq!(request.payload, None);
}

#[test]
fn listing_request_names_the_page() {
    let helper = IssueHelper::new("t0ken", "octo", "cat");
    let request = helper.list_repo_issues(1207);
    assert_eq!(request.url, "https://api.github.com/repos/octo/cat/issues?per_page=50&page=1207");
    assert_eq!(request.headers[1], (String::from("Authorization"), String::from("Bearer t0ken")));
}

#[test]
fn new_reconciler_knows_nothing() {
    let helper = IssueHelper::new(TOKEN, OWNER, REPO);
    assert!(helper.knows_none());
    assert_eq!(helper.known_issues(), 0);
    assert!(!helper.knows("CVE-2023-25173"));
    assert_eq!(helper.issue("CVE-2023-25173"), None);
}

#[test]
fn first_candidate_lists_then_creates() {
    let mut helper = IssueHelper::new(TOKEN, OWNER, REPO);
    let step = helper.create_issue_unique(candidate("CVE-2023-25173"));
    assert_eq!(step, Step::Send(listing(1)));
    let step = helper.resume(page(vec![]));
    assert_eq!(step, Step::Send(creation(candidate("CVE-2023-25173"))));
    assert!(helper.knows_none());
    let filed = issue(7, "CVE-2023-25173");
    let step = helper.resume(Reply::Issue { status: 201, issue: filed.clone() });
    assert_eq!(step, Step::Created(issue(7, "CVE-2023-25173")));
    assert!(helper.knows("CVE-2023-25173"));
    assert_eq!(helper.issue("CVE-2023-25173"), Some(filed));
    assert_eq!(helper.known_issues(), 1);
}

#[test]
fn pagination_ends_on_the_empty_page() {
    let mut helper = IssueHelper::new(TOKEN, OWNER, REPO);
    let mut sent = vec![];
    let mut step = helper.create_issue_unique(candidate("CVE-2023-7"));
    for reply in [issues(0, 50), issues(50, 50), issues(100, 12), vec![]] {
        match step {
            Step::Send(request) => sent.push(request),
            other => panic!("expected a listing request, got {:?}", other),
        }
        step = helper.resume(page(reply));
    }
    assert_eq!(sent, vec![listing(1), listing(2), listing(3), listing(4)]);
    assert_eq!(helper.known_issues(), 112);
    assert_eq!(step, Step::Skipped);
    assert!(helper.knows("CVE-2023-0"));
    assert!(helper.knows("CVE-2023-111"));
    assert!(!helper.knows("CVE-2023-112"));
}

#[test]
fn a_full_last_page_is_followed_by_one_more_request() {
    let mut helper = IssueHelper::new(TOKEN, OWNER, REPO);
    assert_eq!(helper.create_issue_unique(candidate("new")), Step::Send(listing(1)));
    assert_eq!(helper.resume(page(issues(0, 50))), Step::Send(listing(2)));
    assert_eq!(helper.resume(page(vec![])), Step::Send(creation(candidate("new"))));
    assert_eq!(helper.known_issues(), 50);
}

#[test]
fn known_title_is_skipped_without_a_request() {
    let (mut helper, step) = seeded(vec![issue(3, "CVE-2023-25173")], "CVE-2023-0001");
    assert_eq!(step, Step::Send(creation(candidate("CVE-2023-0001"))));
    assert_eq!(
        helper.resume(Reply::Issue { status: 201, issue: issue(4, "CVE-2023-0001") }),
        Step::Created(issue(4, "CVE-2023-0001"))
    );
    let step = helper.create_issue_unique(candidate("CVE-2023-25173"));
    assert_eq!(step, Step::Skipped);
    assert_eq!(helper.known_issues(), 2);
    assert_eq!(helper.resume(page(vec![])), Step::Failed(RemoteError::Unsolicited));
}

#[test]
fn title_found_by_the_listing_is_skipped() {
    let (helper, step) = seeded(vec![issue(3, "CVE-2023-25173")], "CVE-2023-25173");
    assert_eq!(step, Step::Skipped);
    assert_eq!(helper.known_issues(), 1);
}

#[test]
fn created_title_is_skipped_afterwards() {
    let (mut helper, step) = seeded(vec![], "CVE-1");
    assert_eq!(step, Step::Send(creation(candidate("CVE-1"))));
    helper.resume(Reply::Issue { status: 201, issue: issue(1, "CVE-1") });
    assert_eq!(helper.create_issue_unique(candidate("CVE-1")), Step::Skipped);
    assert_eq!(helper.create_issue_unique(candidate("CVE-2")), Step::Send(creation(candidate("CVE-2"))));
}

#[test]
fn listing_is_made_once() {
    let (mut helper, _) = seeded(vec![issue(1, "A")], "A");
    assert_eq!(helper.create_issue_unique(candidate("B")), Step::Send(creation(candidate("B"))));
    helper.resume(Reply::Issue { status: 201, issue: issue(2, "B") });
    assert_eq!(helper.create_issue_unique(candidate("C")), Step::Send(creation(candidate("C"))));
}

#[test]
fn later_issue_of_a_title_stays() {
    let (helper, _) = seeded(vec![issue(1, "same"), issue(2, "other"), issue(3, "same")], "x");
    assert_eq!(helper.known_issues(), 2);
    assert_eq!(helper.issue("same"), Some(issue(3, "same")));
    assert_eq!(helper.issue("other"), Some(issue(2, "other")));
}

#[test]
fn created_issue_is_kept_under_the_title_it_came_with() {
    let (mut helper, _) = seeded(vec![], "asked");
    let step = helper.resume(Reply::Issue { status: 201, issue: issue(9, "answered") });
    assert_eq!(step, Step::Created(issue(9, "answered")));
    assert!(helper.knows("answered"));
    assert!(!helper.knows("asked"));
}

#[test]
fn transport_failure_fails_the_exchange() {
    let mut helper = IssueHelper::new(TOKEN, OWNER, REPO);
    helper.create_issue_unique(candidate("A"));
    assert_eq!(helper.resume(Reply::Unreachable), Step::Failed(RemoteError::Transport));
    assert!(helper.knows_none());
    assert_eq!(helper.resume(page(vec![])), Step::Failed(RemoteError::Unsolicited));
}

#[test]
fn status_outside_success_fails_the_exchange() {
    for status in [0u16, 199, 300, 401, 404, 500, u16::MAX] {
        let mut helper = IssueHelper::new(TOKEN, OWNER, REPO);
        helper.create_issue_unique(candidate("A"));
        assert_eq!(
            helper.resume(Reply::Issues { status, issues: issues(0, 2) }),
            Step::Failed(RemoteError::Status(status))
        );
        assert!(helper.knows_none());
    }
    let (mut helper, _) = seeded(vec![], "A");
    assert_eq!(
        helper.resume(Reply::Issue { status: 422, issue: issue(1, "A") }),
        Step::Failed(RemoteError::Status(422))
    );
    assert!(!helper.knows("A"));
    let (mut helper, _) = seeded(vec![], "A");
    assert_eq!(
        helper.resume(Reply::Unreadable { status: 403 }),
        Step::Failed(RemoteError::Status(403))
    );
}

#[test]
fn every_success_status_is_accepted() {
    for status in [200u16, 201, 204, 299] {
        let (mut helper, _) = seeded(vec![], "A");
        assert_eq!(
            helper.resume(Reply::Issue { status, issue: issue(1, "A") }),
            Step::Created(issue(1, "A"))
        );
    }
}

#[test]
fn body_of_the_wrong_shape_fails_the_exchange() {
    let mut helper = IssueHelper::new(TOKEN, OWNER, REPO);
    helper.create_issue_unique(candidate("A"));
    assert_eq!(
        helper.resume(Reply::Issue { status: 200, issue: issue(1, "A") }),
        Step::Failed(RemoteError::MalformedBody)
    );
    let mut helper = IssueHelper::new(TOKEN, OWNER, REPO);
    helper.create_issue_unique(candidate("A"));
    assert_eq!(
        helper.resume(Reply::Unreadable { status: 200 }),
        Step::Failed(RemoteError::MalformedBody)
    );
    let (mut helper, _) = seeded(vec![], "A");
    assert_eq!(helper.resume(page(issues(0, 1))), Step::Failed(RemoteError::MalformedBody));
    let (mut helper, _) = seeded(vec![], "A");
    assert_eq!(
        helper.resume(Reply::Unreadable { status: 201 }),
        Step::Failed(RemoteError::MalformedBody)
    );
    assert!(helper.knows_none());
}

#[test]
fn failed_listing_keeps_nothing_of_its_pages() {
    let mut helper = IssueHelper::new(TOKEN, OWNER, REPO);
    helper.create_issue_unique(candidate("A"));
    assert_eq!(helper.resume(page(issues(0, 50))), Step::Send(listing(2)));
    assert_eq!(helper.resume(Reply::Unreachable), Step::Failed(RemoteError::Transport));
    assert!(helper.knows_none());
    assert_eq!(helper.create_issue_unique(candidate("A")), Step::Send(listing(1)));
    assert_eq!(helper.resume(page(vec![])), Step::Send(creation(candidate("A"))));
    assert!(helper.knows_none());
}

#[test]
fn reply_without_a_request_is_unsolicited() {
    let mut helper = IssueHelper::new(TOKEN, OWNER, REPO);
    assert_eq!(helper.resume(page(vec![])), Step::Failed(RemoteError::Unsolicited));
    assert_eq!(helper.resume(Reply::Unreachable), Step::Failed(RemoteError::Unsolicited));
    assert_eq!(
        helper.resume(Reply::Issue { status: 201, issue: issue(1, "A") }),
        Step::Failed(RemoteError::Unsolicited)
    );
    assert!(helper.knows_none());
}

#[test]
fn new_candidate_gives_up_an_unfinished_exchange() {
    let mut helper = IssueHelper::new(TOKEN, OWNER, REPO);
    helper.create_issue_unique(candidate("A"));
    assert_eq!(helper.resume(page(issues(0, 3))), Step::Send(listing(2)));
    assert_eq!(helper.create_issue_unique(candidate("B")), Step::Send(listing(1)));
    assert_eq!(helper.resume(page(vec![])), Step::Send(creation(candidate("B"))));
    assert!(helper.knows_none());
}

#[test]
fn copies_equal_their_originals() {
    let req = IssueReq {
        title: String::from("t"),
        body: String::from("b"),
        assignees: vec![String::from("a1"), String::from("a2")],
        milestone: Some(String::from("m")),
        labels: vec![],
    };
    assert_eq!(req.clone(), req);
    let found = issue(5, "t");
    assert_eq!(found.clone(), found);
}

#[test]
fn default_issue_is_blank() {
    assert_eq!(
        Issue::default(),
        Issue { id: 0, number: 0, title: String::new(), state: String::new(), url: String::new() }
    );
}
