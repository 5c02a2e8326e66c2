use sglaz::browse::{CreateAction, Listing};
use sglaz::config::{Binding, Config, DeployRecord};
use sglaz::deploy::DeploySpec;
use sglaz::envfile::EnvVar;
use sglaz::poll::Poll;
use sglaz::tasks::{
    opening_tasks, plan_tasks, Action, Agent, Event, Notice, Outcome, PollError, Task,
};
use sglaz::wire::{
    BindingJob, BrowseEntryOut, BrowseReq, BrowseResultOut, DeployJobIn, DeployReport,
    DeploymentJobIn, Job, LogReqIn, LogResultOut, PollReq, PollResp, SnapshotReport, Upgrade,
};

fn env(key: &str, value: &str) -> EnvVar {
    EnvVar { key: key.to_string(), value: value.to_string() }
}

fn agent(linux: bool) -> Agent {
    Agent { version: "1.0".to_string(), arch: "x86_64".to_string(), linux, windows: false }
}

fn config() -> Config {
    Config {
        server_url: "http://s".to_string(),
        token: "tok".to_string(),
        client_id: "cid".to_string(),
        poll_interval_secs: 15,
        bindings: vec![
            Binding {
                binding_id: "b1".to_string(),
                app_name: "api".to_string(),
                file_path: "/api/.env".to_string(),
            },
            Binding {
                binding_id: "b2".to_string(),
                app_name: "new".to_string(),
                file_path: String::new(),
            },
        ],
        deployments: vec![DeployRecord {
            deployment_id: "d1".to_string(),
            unit_name: "u1".to_string(),
            version: "v1".to_string(),
        }],
    }
}

fn bare_config() -> Config {
    Config { bindings: vec![], deployments: vec![], ..config() }
}

fn empty_reply() -> PollResp {
    PollResp {
        poll_interval_secs: 15,
        bindings: vec![],
        deployments: vec![],
        logs: None,
        server_url: String::new(),
        upgrade: None,
        browse: None,
    }
}

fn write_job(path: &str, binding_path: &str) -> BindingJob {
    BindingJob {
        binding_id: "b1".to_string(),
        app_name: "api".to_string(),
        file_path: binding_path.to_string(),
        job: Some(Job {
            job_type: "write".to_string(),
            file_path: path.to_string(),
            values: vec![env("A", "x y")],
        }),
    }
}

fn deploy_job(id: &str, action: &str, version: &str) -> DeploymentJobIn {
    DeploymentJobIn {
        deployment_id: id.to_string(),
        unit_name: format!("unit-{}", id),
        job: Some(DeployJobIn {
            action: action.to_string(),
            version: version.to_string(),
            signed_url: "https://dl".to_string(),
            kind: "binary".to_string(),
            run_cmd: "./app".to_string(),
            prepare_cmd: String::new(),
            deploy_root: "/srv".to_string(),
            unit_name: "job-unit".to_string(),
            env_file: String::new(),
            env_values: vec![],
        }),
    }
}

fn ok_status() -> Event {
    Event::Status { code: 200, text: "200 OK".to_string() }
}

/// A poll of a bare configuration that has just taken `reply`.
fn served(reply: PollResp) -> (Poll, Action) {
    let (p, a) = Poll::start(bare_config(), agent(true));
    assert!(matches!(a, Action::Post { .. }));
    let (p, a) = p.step(ok_status());
    assert_eq!(a, Action::ReadReply);
    p.step(Event::Reply(reply))
}

#[test]
fn the_report_covers_files_and_deployments() {
    let (p, a) = Poll::start(config(), agent(true));
    assert_eq!(a, Action::ReadFile("/api/.env".to_string()));
    let (p, a) = p.step(Event::Content(Some("A=1\n# c\n".to_string())));
    assert_eq!(a, Action::QueryUnit("u1".to_string()));
    let (_, a) = p.step(Event::UnitOutput(Some("active\n".to_string())));
    assert_eq!(
        a,
        Action::Post {
            url: "http://s/api/client/poll".to_string(),
            token: "tok".to_string(),
            body: PollReq {
                version: "1.0".to_string(),
                arch: "x86_64".to_string(),
                server_url: "http://s".to_string(),
                snapshots: vec![SnapshotReport {
                    binding_id: "b1".to_string(),
                    snapshot: vec![env("A", "1")],
                }],
                deployments: vec![DeployReport {
                    deployment_id: "d1".to_string(),
                    state: "running".to_string(),
                    version: "v1".to_string(),
                    error: String::new(),
                }],
            },
        }
    );
}

#[test]
fn an_absent_file_and_another_host_are_reported_too() {
    let (p, _) = Poll::start(config(), agent(false));
    let (_, a) = p.step(Event::Content(None));
    match a {
        Action::Post { body, .. } => {
            assert_eq!(body.snapshots[0].snapshot, vec![]);
            assert_eq!(body.deployments[0].state, "unknown");
        }
        other => panic!("{:?}", other),
    }
}

#[test]
fn a_rejected_token_ends_the_poll() {
    let (p, _) = Poll::start(bare_config(), agent(true));
    let (p, a) = p.step(Event::Status { code: 401, text: "401 Unauthorized".to_string() });
    assert_eq!(a, Action::Finish(Outcome::Failed(PollError::Unauthorized)));
    assert_eq!(p.cfg, bare_config());
    assert_eq!(
        PollError::Unauthorized.message(),
        "server rejected token \u{2014} re-enroll with `sglaz -connect <code>`"
    );
}

#[test]
fn another_status_ends_the_poll() {
    let (p, _) = Poll::start(bare_config(), agent(true));
    let (_, a) = p.step(Event::Status { code: 500, text: "500 Oops".to_string() });
    let e = PollError::Status("500 Oops".to_string());
    assert_eq!(e.message(), "poll returned status 500 Oops");
    assert_eq!(a, Action::Finish(Outcome::Failed(e)));
}

#[test]
fn a_request_that_fails_ends_the_poll() {
    let (p, _) = Poll::start(bare_config(), agent(true));
    let (p, a) = p.step(Event::Failed("refused".to_string()));
    let e = PollError::Request("refused".to_string());
    assert_eq!(e.message(), "poll request failed: refused");
    assert_eq!(a, Action::Finish(Outcome::Failed(e)));
    assert_eq!(p.cfg, bare_config());
}

#[test]
fn a_bad_reply_ends_the_poll() {
    let (p, _) = Poll::start(bare_config(), agent(true));
    let (p, _) = p.step(ok_status());
    let (p, a) = p.step(Event::Failed("eof".to_string()));
    let e = PollError::Reply("eof".to_string());
    assert_eq!(e.message(), "unexpected poll response: eof");
    assert_eq!(a, Action::Finish(Outcome::Failed(e.clone())));
    let (_, again) = p.step(Event::Done);
    assert_eq!(again, Action::Finish(Outcome::Failed(e)));
}

#[test]
fn an_empty_reply_changes_nothing() {
    let (p, a) = served(empty_reply());
    assert_eq!(a, Action::Finish(Outcome::Done(15)));
    assert_eq!(p.cfg, bare_config());
}

#[test]
fn a_write_job_writes_and_is_kept() {
    let mut reply = empty_reply();
    reply.bindings = vec![write_job("/own/.env", "/api/.env")];
    let (p, a) = served(reply);
    assert_eq!(
        a,
        Action::WriteFile {
            app_name: "api".to_string(),
            count: 1,
            path: "/own/.env".to_string(),
            contents: "A='x y'\n".to_string(),
        }
    );
    let (p, a) = p.step(Event::Done);
    let mut want = bare_config();
    want.bindings = vec![config().bindings[0].clone()];
    assert_eq!(a, Action::Save(want.clone()));
    let (p, a) = p.step(Event::Done);
    assert_eq!(a, Action::Finish(Outcome::Done(15)));
    assert_eq!(p.cfg, want);
}

#[test]
fn a_write_job_without_its_own_path_goes_to_the_bindings() {
    let mut reply = empty_reply();
    reply.bindings = vec![write_job("", "/api/.env"), write_job("", "")];
    let (p, a) = served(reply);
    assert!(matches!(&a, Action::WriteFile { path, .. } if path == "/api/.env"), "{:?}", a);
    let (_, a) = p.step(Event::Done);
    assert_eq!(a, Action::Tell(Notice::NoFilePath { app_name: "api".to_string() }));
}

#[test]
fn other_job_types_are_ignored() {
    let mut job = write_job("/x", "/y");
    if let Some(j) = &mut job.job {
        j.job_type = "read".to_string();
    }
    let mut reply = empty_reply();
    reply.bindings = vec![job];
    let (_, a) = served(reply);
    assert!(matches!(a, Action::Save(_)));
}

#[test]
fn a_renamed_app_is_kept_under_its_new_name() {
    let mut cfg = config();
    cfg.deployments = vec![];
    cfg.bindings.truncate(1);
    let mut job = write_job("", "/api/.env");
    job.app_name = "api-2".to_string();
    job.job = None;
    let mut reply = empty_reply();
    reply.bindings = vec![job];
    let (p, _) = Poll::start(cfg.clone(), agent(true));
    let (p, _) = p.step(Event::Content(None));
    let (p, _) = p.step(ok_status());
    let (p, a) = p.step(Event::Reply(reply));
    cfg.bindings[0].app_name = "api-2".to_string();
    assert_eq!(a, Action::Save(cfg.clone()));
    let (p, a) = p.step(Event::Done);
    assert_eq!(a, Action::Finish(Outcome::Done(15)));
    assert_eq!(p.cfg, cfg);
}

#[test]
fn a_failed_write_ends_the_poll() {
    let mut reply = empty_reply();
    reply.bindings = vec![write_job("/own/.env", "")];
    reply.deployments = vec![deploy_job("d", "deploy", "v2")];
    let (p, _) = served(reply);
    let (p, a) = p.step(Event::Failed("disk full".to_string()));
    let e = PollError::Write { path: "/own/.env".to_string(), cause: "disk full".to_string() };
    assert_eq!(e.message(), "writing /own/.env: disk full");
    assert_eq!(a, Action::Finish(Outcome::Failed(e)));
    assert_eq!(p.cfg, bare_config());
}

#[test]
fn a_deployment_that_succeeds_is_recorded() {
    let mut reply = empty_reply();
    reply.deployments = vec![
        deploy_job("d1", "deploy", "v2"),
        deploy_job("d2", "deploy", "v3"),
        deploy_job("d3", "restart", ""),
        deploy_job("d4", "stop", ""),
        deploy_job("d5", "explode", ""),
    ];
    let (p, a) = served(reply);
    match a {
        Action::Deploy { deployment_id, spec } => {
            assert_eq!(deployment_id, "d1");
            assert_eq!(
                spec,
                DeploySpec {
                    version: "v2".to_string(),
                    signed_url: "https://dl".to_string(),
                    kind: "binary".to_string(),
                    run_cmd: "./app".to_string(),
                    prepare_cmd: String::new(),
                    deploy_root: "/srv".to_string(),
                    unit_name: "job-unit".to_string(),
                    env_file: String::new(),
                    env_values: vec![],
                }
            );
        }
        other => panic!("{:?}", other),
    }
    let (p, a) = p.step(Event::Done);
    assert!(matches!(a, Action::Deploy { .. }));
    let (p, a) = p.step(Event::Failed("no space".to_string()));
    let unit_name = "job-unit".to_string();
    assert_eq!(
        a,
        Action::Restart { deployment_id: "d3".to_string(), unit_name: unit_name.clone() }
    );
    let (p, a) = p.step(Event::Failed("no unit".to_string()));
    assert_eq!(a, Action::Stop { deployment_id: "d4".to_string(), unit_name });
    let (p, a) = p.step(Event::Done);
    assert_eq!(a, Action::Tell(Notice::UnknownAction { action: "explode".to_string() }));
    let (p, a) = p.step(Event::Done);
    assert!(matches!(a, Action::Save(_)));
    let versions: Vec<(&str, &str, &str)> = p
        .cfg
        .deployments
        .iter()
        .map(|d| (d.deployment_id.as_str(), d.unit_name.as_str(), d.version.as_str()))
        .collect();
    assert_eq!(
        versions,
        vec![
            ("d1", "unit-d1", "v2"),
            ("d2", "unit-d2", ""),
            ("d3", "unit-d3", ""),
            ("d4", "unit-d4", ""),
            ("d5", "unit-d5", ""),
        ]
    );
    let (_, a) = p.step(Event::Failed("read-only".to_string()));
    assert_eq!(a, Action::Finish(Outcome::Done(15)));
}

#[test]
fn a_log_request_is_answered() {
    let mut reply = empty_reply();
    reply.logs = Some(LogReqIn {
        request_id: "r".to_string(),
        unit_name: "u".to_string(),
        lines: 0,
    });
    let answer = |ev: Event, text: &str, error: &str| {
        let (p, a) = served(reply.clone());
        assert_eq!(a, Action::FetchLogs { unit_name: "u".to_string(), lines: 200 });
        let (p, a) = p.step(ev);
        assert_eq!(
            a,
            Action::SendLogs {
                url: "http://s/api/client/log-result".to_string(),
                token: "tok".to_string(),
                body: LogResultOut {
                    request_id: "r".to_string(),
                    text: text.to_string(),
                    error: error.to_string(),
                },
            }
        );
        let (_, a) = p.step(Event::Failed("unreachable".to_string()));
        assert_eq!(a, Action::Finish(Outcome::Done(15)));
    };
    answer(Event::Journal("line\n".to_string()), "line\n", "");
    answer(Event::Failed("no journal".to_string()), "", "no journal");
}

fn browse_of(action: Option<&str>, name: Option<&str>) -> PollResp {
    let mut reply = empty_reply();
    reply.browse = Some(BrowseReq {
        request_id: "r".to_string(),
        path: "/srv".to_string(),
        action: action.map(|a| a.to_string()),
        name: name.map(|n| n.to_string()),
    });
    reply
}

fn listed() -> Event {
    Event::Listed {
        canonical: Some("/srv".to_string()),
        windows_parent: None,
        listing: Listing::Entries(vec![BrowseEntryOut {
            name: "x".to_string(),
            dir: true,
            path: "/srv/x".to_string(),
        }]),
    }
}

fn sent_listing(a: Action) -> BrowseResultOut {
    match a {
        Action::SendListing { url, token, body } => {
            assert_eq!(url, "http://s/api/client/browse-result");
            assert_eq!(token, "tok");
            body
        }
        other => panic!("{:?}", other),
    }
}

#[test]
fn a_browse_request_is_answered() {
    let (p, a) = served(browse_of(None, Some("ignored")));
    assert_eq!(a, Action::ListDir("/srv".to_string()));
    let (p, a) = p.step(listed());
    let body = sent_listing(a);
    assert_eq!(body.request_id, "r");
    assert_eq!(body.path, "/srv");
    assert_eq!(body.parent, "/");
    assert_eq!(body.entries.len(), 1);
    assert_eq!(body.error, "");
    let (_, a) = p.step(Event::Done);
    assert_eq!(a, Action::Finish(Outcome::Done(15)));
}

#[test]
fn a_browse_request_may_create_first() {
    let (p, a) = served(browse_of(Some("touch"), Some(".env")));
    assert_eq!(
        a,
        Action::Create(CreateAction::Touch { dir: "/srv".to_string(), name: ".env".to_string() })
    );
    let (p, a) = p.step(Event::Failed("denied".to_string()));
    assert_eq!(a, Action::ListDir("/srv".to_string()));
    let (_, a) = p.step(listed());
    assert_eq!(sent_listing(a).error, "denied");
}

#[test]
fn the_listing_error_comes_first() {
    let (p, _) = served(browse_of(Some("mkdir"), Some("d")));
    let (p, _) = p.step(Event::Failed("denied".to_string()));
    let gone = Event::Listed {
        canonical: None,
        windows_parent: None,
        listing: Listing::Failed("not found".to_string()),
    };
    let (_, a) = p.step(gone);
    assert_eq!(sent_listing(a).error, "not found");
}

#[test]
fn an_unknown_browse_action_is_told() {
    let (p, a) = served(browse_of(Some("rm"), Some("d")));
    assert_eq!(a, Action::ListDir("/srv".to_string()));
    let (_, a) = p.step(listed());
    assert_eq!(sent_listing(a).error, "unknown action: rm");
}

#[test]
fn windows_lists_drives_for_the_root() {
    let mut reply = browse_of(None, None);
    if let Some(b) = &mut reply.browse {
        b.path = String::new();
    }
    let windows = Agent { linux: false, windows: true, ..agent(false) };
    let (p, _) = Poll::start(bare_config(), windows);
    let (p, _) = p.step(ok_status());
    let (p, a) = p.step(Event::Reply(reply));
    assert_eq!(a, Action::ListDrives);
    let mut present = vec![false; 26];
    present[2] = true;
    let (_, a) = p.step(Event::Listed {
        canonical: None,
        windows_parent: None,
        listing: Listing::Drives(present),
    });
    let body = sent_listing(a);
    assert_eq!(body.path, "/");
    assert_eq!(body.entries[0].path, "C:\\");
}

#[test]
fn a_pushed_url_and_interval_are_kept() {
    let mut reply = empty_reply();
    reply.server_url = " http://t/ ".to_string();
    reply.poll_interval_secs = 1;
    let (p, a) = served(reply);
    let moved = Config { server_url: "http://t".to_string(), ..bare_config() };
    assert_eq!(a, Action::Save(moved.clone()));
    let (p, a) = p.step(Event::Done);
    let synced = Config { poll_interval_secs: 3, ..moved };
    assert_eq!(a, Action::Save(synced.clone()));
    let (p, a) = p.step(Event::Done);
    assert_eq!(a, Action::Finish(Outcome::Done(1)));
    assert_eq!(p.cfg, synced);
}

#[test]
fn an_upgrade_comes_last() {
    let mut reply = empty_reply();
    reply.poll_interval_secs = 20;
    reply.upgrade = Some(Upgrade { version: "2.0".to_string(), url: "https://new".to_string() });
    let (p, a) = served(reply);
    assert!(matches!(a, Action::Save(_)));
    let (p, a) = p.step(Event::Done);
    assert_eq!(
        a,
        Action::Upgrade { url: "https://new".to_string(), version: "2.0".to_string() }
    );
    let (_, a) = p.step(Event::Failed("download failed".to_string()));
    let e = PollError::Upgrade("download failed".to_string());
    assert_eq!(e.message(), "download failed");
    assert_eq!(a, Action::Finish(Outcome::Failed(e)));
}

#[test]
fn the_same_version_is_no_upgrade() {
    let mut reply = empty_reply();
    reply.upgrade = Some(Upgrade { version: "1.0".to_string(), url: "https://same".to_string() });
    let (_, a) = served(reply);
    assert_eq!(a, Action::Finish(Outcome::Done(15)));
}

#[test]
fn tasks_are_planned_in_order() {
    assert_eq!(
        opening_tasks(&bare_config()),
        vec![Task::Post]
    );
    assert_eq!(opening_tasks(&config()).len(), 3);
    let mut reply = browse_of(None, None);
    reply.bindings = vec![write_job("/a", "")];
    reply.deployments = vec![deploy_job("d", "stop", "")];
    reply.logs = Some(LogReqIn {
        request_id: "l".to_string(),
        unit_name: "u".to_string(),
        lines: 7,
    });
    reply.upgrade = Some(Upgrade { version: "2.0".to_string(), url: "x".to_string() });
    let plan = plan_tasks(&reply, "1.0");
    assert_eq!(plan.len(), 8);
    assert!(matches!(plan[0], Task::Write { .. }));
    assert!(matches!(plan[1], Task::Stop { .. }));
    assert!(matches!(plan[2], Task::FetchLogs { lines: 7, .. }));
    assert!(matches!(plan[3], Task::List { .. }));
    assert!(matches!(plan[4], Task::Reconcile { .. }));
    assert!(matches!(plan[5], Task::SwitchUrl(_)));
    assert!(matches!(plan[6], Task::SyncInterval(15)));
    assert!(matches!(plan[7], Task::Upgrade { .. }));
}
