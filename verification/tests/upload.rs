use github_helper::issues::{HttpRequest, Issue, IssueHelper, IssueReq, RemoteError, Reply};
use github_helper::sarif::{Occurrence, Rule, Run, Sarif};
use github_helper::upload::{Action, Event, Stage, Upload, UploadError};

const TOKEN: &str = "*****";
const OWNER: &str = "smartcat999";
const REPO: &str = "issue_auto_report";

fn findings(driver: &str, ids: &[&str]) -> Sarif {
    Sarif {
        version: String::from("2.1.0"),
        schema: String::from("https://json.schemastore.org/sarif-2.1.0-rtm.5.json"),
        runs: vec![Run {
            driver: driver.to_string(),
            rules: ids
                .iter()
                .map(|id| Rule {
                    id: id.to_string(),
                    name: String::from("OsPackageVulnerability"),
                    help: format!("see {}", id),
                })
                .collect(),
            results: ids
                .iter()
                .map(|id| Occurrence {
                    rule_id: id.to_string(),
                    message: format!("found {}", id),
                    locations: vec![String::from("usr/local/bin/containerd")],
                })
                .collect(),
        }],
    }
}

fn no_runs() -> Sarif {
    Sarif { version: String::from("2.1.0"), schema: String::new(), runs: vec![] }
}

fn paths(names: &[&str]) -> Vec<String> {
    names.iter().map(|name| name.to_string()).collect()
}

/// A tracker that lists what it holds, fifty a page, and files what it is
/// sent under the title it came with.
struct Tracker {
    issues: Vec<Issue>,
    listings: Vec<u64>,
    created: Vec<String>,
}

impl Tracker {
    fn holding(titles: &[&str]) -> Tracker {
        let mut tracker = Tracker { issues: vec![], listings: vec![], created: vec![] };
        for title in titles {
            tracker.file(title);
        }
        tracker
    }

    fn file(&mut self, title: &str) -> Issue {
        let number = self.issues.len() as u64 + 1;
        let issue = Issue {
            id: 5000 + number,
            number,
            title: title.to_string(),
            state: String::from("open"),
            url: format!("https://api.github.com/repos/smartcat999/issue_auto_report/issues/{}", number),
        };
        self.issues.push(issue.clone());
        issue
    }

    fn answer(&mut self, request: &HttpRequest) -> Reply {
        let issues_url = "https://api.github.com/repos/smartcat999/issue_auto_report/issues";
        assert_eq!(request.headers[1].1, "Bearer *****");
        match &request.payload {
            Some(req) => {
                assert_eq!(request.method, "POST");
                assert_eq!(request.url, issues_url);
                self.created.push(req.title.clone());
                Reply::Issue { status: 201, issue: self.file(&req.title) }
            }
            None => {
                assert_eq!(request.method, "GET");
                let query = request.url.strip_prefix(issues_url).unwrap();
                let page: u64 = query.strip_prefix("?per_page=50&page=").unwrap().parse().unwrap();
                self.listings.push(page);
                let from = ((page as usize - 1) * 50).min(self.issues.len());
                let to = (page as usize * 50).min(self.issues.len());
                Reply::Issues { status: 200, issues: self.issues[from..to].to_vec() }
            }
        }
    }
}

/// Runs an upload to its end. Each file holds the document that `read`
/// gives for its path.
fn run(
    files: &[&str],
    read: fn(&str) -> Event,
    tracker: &mut Tracker,
) -> (Result<(), UploadError>, Vec<String>) {
    let (mut upload, mut action) = Upload::new(paths(files), TOKEN, OWNER, REPO);
    let mut opened = vec![];
    loop {
        let event = match action {
            Action::ReadFile(path) => {
                assert_eq!(upload.stage(), Stage::AwaitingFile);
                opened.push(path.clone());
                read(&path)
            }
            Action::Send(request) => {
                assert_eq!(upload.stage(), Stage::AwaitingReply);
                Event::Reply(tracker.answer(&request))
            }
            Action::Finished(verdict) => {
                assert_eq!(upload.stage(), Stage::Done(verdict));
                return (verdict, opened);
            }
        };
        action = upload.step(event);
    }
}

fn results_file(path: &str) -> Event {
    match path {
        "./results.sarif" => {
            Event::Document(findings("Trivy", &["CVE-2023-25173", "CVE-2023-25153", "CVE-2023-25173"]))
        }
        "./result.sarif" => Event::Document(findings("Trivy", &["CVE-2022-1", "CVE-2023-25153"])),
        "./empty.sarif" => Event::Document(no_runs()),
        "./broken.sarif" => Event::Malformed,
        _ => Event::Unreadable,
    }
}

#[test]
fn test_create_unique_sarif_issue() {
    let mut tracker = Tracker::holding(&[]);
    let (verdict, opened) = run(&["./results.sarif"], results_file, &mut tracker);
    assert_eq!(verdict, Ok(()));
    assert_eq!(opened, ["./results.sarif"]);
    assert_eq!(tracker.listings, [1]);
    assert_eq!(tracker.created, ["CVE-2023-25173", "CVE-2023-25153"]);
}

#[test]
fn test_create_sarif_issue() {
    let issue_helper = IssueHelper::new(TOKEN, OWNER, REPO);
    let sarif = findings("Trivy", &["CVE-2023-25173"]);
    let sarif_issues = sarif.parse_sarif_issue();

    let issue = IssueReq {
        title: sarif_issues[0].rule_id.clone(),
        body: sarif_issues[0].body(),
        assignees: vec![String::from("smartcat999")],
        milestone: None,
        labels: vec![String::from("bug")],
    };
    assert_eq!(issue, IssueReq::for_finding(&sarif_issues[0]));

    let request = issue_helper.create_issue(&issue);
    assert_eq!(request.method, "POST");
    assert_eq!(request.url, "https://api.github.com/repos/smartcat999/issue_auto_report/issues");
    let sent = request.payload.unwrap();
    assert_eq!(sent.title, "CVE-2023-25173");
    assert_eq!(
        sent.body,
        "CVE-2023-25173\n | Tool | Location |\n| --- | --- |\n|Trivy|usr/local/bin/containerd|\n\n\
         found CVE-2023-25173\n\nsee CVE-2023-25173\n"
    );
    assert_eq!(sent.labels, ["bug"]);
}

#[test]
fn second_run_creates_nothing() {
    let mut tracker = Tracker::holding(&["CVE-2019-9"]);
    let files = ["./results.sarif", "./result.sarif"];
    assert_eq!(run(&files, results_file, &mut tracker).0, Ok(()));
    assert_eq!(tracker.created, ["CVE-2023-25173", "CVE-2023-25153", "CVE-2022-1"]);
    assert_eq!(tracker.listings, [1, 2]);
    let held = tracker.issues.len();
    tracker.created.clear();
    tracker.listings.clear();

    assert_eq!(run(&files, results_file, &mut tracker).0, Ok(()));
    assert!(tracker.created.is_empty());
    assert_eq!(tracker.listings, [1, 2]);
    assert_eq!(tracker.issues.len(), held);
}

#[test]
fn creation_follows_the_order_of_the_findings() {
    fn read(_path: &str) -> Event {
        Event::Document(findings("scanner", &["O1", "known", "O2", "O1", "O3"]))
    }
    let mut tracker = Tracker::holding(&["known"]);
    assert_eq!(run(&["a.sarif"], read, &mut tracker).0, Ok(()));
    assert_eq!(tracker.created, ["O1", "O2", "O3"]);
}

#[test]
fn files_are_read_in_the_order_given() {
    let mut tracker = Tracker::holding(&[]);
    let files = ["./result.sarif", "./empty.sarif", "./results.sarif"];
    let (verdict, opened) = run(&files, results_file, &mut tracker);
    assert_eq!(verdict, Ok(()));
    assert_eq!(opened, files);
    assert_eq!(tracker.created, ["CVE-2022-1", "CVE-2023-25153", "CVE-2023-25173"]);
    assert_eq!(tracker.listings, [1]);
}

#[test]
fn listing_walks_every_page_of_a_large_repository() {
    let titles: Vec<String> = (0..112).map(|n| format!("OLD-{}", n)).collect();
    let held: Vec<&str> = titles.iter().map(|title| title.as_str()).collect();
    let mut tracker = Tracker::holding(&held);
    assert_eq!(run(&["./results.sarif"], results_file, &mut tracker).0, Ok(()));
    assert_eq!(tracker.listings, [1, 2, 3, 4]);
    assert_eq!(tracker.created, ["CVE-2023-25173", "CVE-2023-25153"]);
}

#[test]
fn document_without_runs_sends_nothing() {
    let mut tracker = Tracker::holding(&["CVE-2019-9"]);
    let (verdict, opened) = run(&["./empty.sarif"], results_file, &mut tracker);
    assert_eq!(verdict, Ok(()));
    assert_eq!(opened, ["./empty.sarif"]);
    assert!(tracker.listings.is_empty());
    assert!(tracker.created.is_empty());

    let (mut upload, action) = Upload::new(paths(&["a", "b"]), TOKEN, OWNER, REPO);
    assert_eq!(action, Action::ReadFile(String::from("a")));
    assert_eq!(upload.step(Event::Document(no_runs())), Action::ReadFile(String::from("b")));
    assert_eq!(upload.step(Event::Document(no_runs())), Action::Finished(Ok(())));
}

#[test]
fn upload_of_no_file_ends_at_once() {
    let (mut upload, action) = Upload::new(vec![], TOKEN, OWNER, REPO);
    assert_eq!(action, Action::Finished(Ok(())));
    assert_eq!(upload.stage(), Stage::Done(Ok(())));
    assert_eq!(upload.step(Event::Unreadable), Action::Finished(Ok(())));
}

#[test]
fn unreadable_file_ends_the_upload() {
    let mut tracker = Tracker::holding(&[]);
    let files = ["./result.sarif", "./missing.sarif", "./results.sarif"];
    let (verdict, opened) = run(&files, results_file, &mut tracker);
    assert_eq!(verdict, Err(UploadError::Io));
    assert_eq!(opened, ["./result.sarif", "./missing.sarif"]);
    assert_eq!(tracker.created, ["CVE-2022-1", "CVE-2023-25153"]);
}

#[test]
fn malformed_file_ends_the_upload() {
    let mut tracker = Tracker::holding(&[]);
    let (verdict, opened) = run(&["./broken.sarif", "./results.sarif"], results_file, &mut tracker);
    assert_eq!(verdict, Err(UploadError::MalformedInput));
    assert_eq!(opened, ["./broken.sarif"]);
    assert!(tracker.listings.is_empty());
    assert!(tracker.created.is_empty());
}

#[test]
fn failed_exchange_ends_the_upload() {
    let (mut upload, action) = Upload::new(paths(&["a", "b"]), TOKEN, OWNER, REPO);
    assert_eq!(action, Action::ReadFile(String::from("a")));
    let action = upload.step(Event::Document(findings("scanner", &["X", "Y"])));
    assert!(matches!(action, Action::Send(ref request) if request.method == "GET"));
    let action = upload.step(Event::Reply(Reply::Issues { status: 200, issues: vec![] }));
    assert!(matches!(action, Action::Send(ref request) if request.method == "POST"));
    let action = upload.step(Event::Reply(Reply::Unreadable { status: 502 }));
    assert_eq!(action, Action::Finished(Err(UploadError::Remote(RemoteError::Status(502)))));
    assert_eq!(upload.stage(), Stage::Done(Err(UploadError::Remote(RemoteError::Status(502)))));
}

#[test]
fn failed_listing_ends_the_upload() {
    let (mut upload, _) = Upload::new(paths(&["a"]), TOKEN, OWNER, REPO);
    upload.step(Event::Document(findings("scanner", &["X"])));
    assert_eq!(
        upload.step(Event::Reply(Reply::Unreachable)),
        Action::Finished(Err(UploadError::Remote(RemoteError::Transport)))
    );
    let (mut upload, _) = Upload::new(paths(&["a"]), TOKEN, OWNER, REPO);
    upload.step(Event::Document(findings("scanner", &["X"])));
    assert_eq!(
        upload.step(Event::Reply(Reply::Unreadable { status: 200 })),
        Action::Finished(Err(UploadError::Remote(RemoteError::MalformedBody)))
    );
}

#[test]
fn event_out_of_turn_ends_the_upload() {
    let (mut upload, _) = Upload::new(paths(&["a"]), TOKEN, OWNER, REPO);
    assert_eq!(
        upload.step(Event::Reply(Reply::Unreachable)),
        Action::Finished(Err(UploadError::OutOfTurn))
    );

    let (mut upload, _) = Upload::new(paths(&["a", "b"]), TOKEN, OWNER, REPO);
    upload.step(Event::Document(findings("scanner", &["X"])));
    assert_eq!(upload.stage(), Stage::AwaitingReply);
    assert_eq!(
        upload.step(Event::Document(no_runs())),
        Action::Finished(Err(UploadError::OutOfTurn))
    );
}

#[test]
fn finished_upload_repeats_its_verdict() {
    let (mut upload, _) = Upload::new(paths(&["a", "b"]), TOKEN, OWNER, REPO);
    assert_eq!(upload.step(Event::Malformed), Action::Finished(Err(UploadError::MalformedInput)));
    assert_eq!(
        upload.step(Event::Document(findings("scanner", &["X"]))),
        Action::Finished(Err(UploadError::MalformedInput))
    );
    assert_eq!(
        upload.step(Event::Reply(Reply::Unreachable)),
        Action::Finished(Err(UploadError::MalformedInput))
    );
    assert_eq!(upload.stage(), Stage::Done(Err(UploadError::MalformedInput)));
}
