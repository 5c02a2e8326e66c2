//! One poll: report each attached app's file and each deployment's state, then do
//! what the server asks for, one thing at a time.
//!
//! A [`Poll`] is a list of tasks and a position in it. [`Poll::step`] takes what
//! came of the current task and gives the next [`Action`] to carry out, until the
//! action is [`Action::Finish`].
use crate::browse;
use crate::browse::Listing;
use crate::config;
use crate::config::Config;
use crate::deploy;
use crate::envfile;
use crate::reconcile;
use crate::tasks;
use crate::tasks::{Action, Agent, Event, Outcome, PollError, Task};
use crate::wire;
use crate::wire::{DeployReport, LogResultOut, PollReq, SnapshotReport};
use vstd::prelude::*;

verus! {

/// A poll under way: awaiting what came of the task at `at`.
#[derive(Debug, PartialEq, Eq)]
pub struct Poll {
    pub cfg: Config,
    pub agent: Agent,
    pub tasks: Vec<Task>,
    pub at: usize,
    /// The report so far: file contents.
    pub snapshots: Vec<SnapshotReport>,
    /// The report so far: deployment states.
    pub reports: Vec<DeployReport>,
    /// What was deployed in this poll: ids and versions.
    pub deployed: Vec<(String, String)>,
    /// The interval that the server asked for.
    pub interval: u64,
    /// How the poll ended, if it did.
    pub outcome: Option<Outcome>,
}

/// What a [`Poll`] holds.
#[verifier::ext_equal]
pub struct PollView {
    pub cfg: config::ConfigView,
    pub agent: tasks::AgentView,
    pub tasks: Seq<tasks::TaskView>,
    pub at: int,
    pub snapshots: Seq<wire::SnapshotReportView>,
    pub reports: Seq<wire::DeployReportView>,
    pub deployed: Seq<(Seq<char>, Seq<char>)>,
    pub interval: u64,
    pub outcome: Option<tasks::OutcomeView>,
}

impl DeepView for Poll {
    type V = PollView;

    open spec fn deep_view(&self) -> PollView {
        PollView {
            cfg: self.cfg.deep_view(),
            agent: self.agent.deep_view(),
            tasks: self.tasks.deep_view(),
            at: self.at as int,
            snapshots: self.snapshots.deep_view(),
            reports: self.reports.deep_view(),
            deployed: self.deployed.deep_view(),
            interval: self.interval,
            outcome: self.outcome.deep_view(),
        }
    }
}

/// The report on one deployment.
pub open spec fn report_of(
    deployment_id: Seq<char>,
    version: Seq<char>,
    linux: bool,
    output: Option<Seq<char>>,
) -> wire::DeployReportView {
    wire::DeployReportView {
        deployment_id,
        state: deploy::unit_state(linux, output),
        version,
        error: seq![],
    }
}

/// Beginning the task `t`: what it does to the poll right away, and the action it
/// needs, if any.
pub open spec fn issued(p: PollView, t: tasks::TaskView) -> (PollView, Option<tasks::ActionView>) {
    match t {
        tasks::TaskView::Snapshot { binding_id: _, path } => (
            p,
            Some(tasks::ActionView::ReadFile(path)),
        ),
        tasks::TaskView::Probe { deployment_id, unit_name, version } => if p.agent.linux {
            (p, Some(tasks::ActionView::QueryUnit(unit_name)))
        } else {
            (
                PollView {
                    reports: p.reports.push(report_of(deployment_id, version, false, None)),
                    ..p
                },
                None,
            )
        },
        tasks::TaskView::Post => (
            PollView { snapshots: seq![], reports: seq![], ..p },
            Some(
                tasks::ActionView::Post {
                    url: p.cfg.server_url + "/api/client/poll"@,
                    token: p.cfg.token,
                    body: wire::PollReqView {
                        version: p.agent.version,
                        arch: p.agent.arch,
                        server_url: p.cfg.server_url,
                        snapshots: p.snapshots,
                        deployments: p.reports,
                    },
                },
            ),
        ),
        tasks::TaskView::Receive => (p, Some(tasks::ActionView::ReadReply)),
        tasks::TaskView::Write { app_name, path, values } => (
            p,
            Some(
                tasks::ActionView::WriteFile {
                    app_name,
                    count: values.len(),
                    path,
                    contents: envfile::rendered(values),
                },
            ),
        ),
        tasks::TaskView::Tell(n) => (p, Some(tasks::ActionView::Tell(n))),
        tasks::TaskView::Deploy { deployment_id, spec } => (
            p,
            Some(tasks::ActionView::Deploy { deployment_id, spec }),
        ),
        tasks::TaskView::Restart { deployment_id, unit_name } => (
            p,
            Some(tasks::ActionView::Restart { deployment_id, unit_name }),
        ),
        tasks::TaskView::Stop { deployment_id, unit_name } => (
            p,
            Some(tasks::ActionView::Stop { deployment_id, unit_name }),
        ),
        tasks::TaskView::FetchLogs { request_id: _, unit_name, lines } => (
            p,
            Some(tasks::ActionView::FetchLogs { unit_name, lines }),
        ),
        tasks::TaskView::SendLogs(body) => (
            p,
            Some(
                tasks::ActionView::SendLogs {
                    url: p.cfg.server_url + "/api/client/log-result"@,
                    token: p.cfg.token,
                    body,
                },
            ),
        ),
        tasks::TaskView::Create { path: _, request_id: _, action } => (
            p,
            Some(tasks::ActionView::Create(action)),
        ),
        tasks::TaskView::List { path, request_id: _, error: _ } => {
            let listed = browse::listed_path(path);
            if browse::wants_drives(listed, p.agent.windows) {
                (p, Some(tasks::ActionView::ListDrives))
            } else {
                (p, Some(tasks::ActionView::ListDir(listed)))
            }
        },
        tasks::TaskView::SendListing(body) => (
            p,
            Some(
                tasks::ActionView::SendListing {
                    url: p.cfg.server_url + "/api/client/browse-result"@,
                    token: p.cfg.token,
                    body,
                },
            ),
        ),
        tasks::TaskView::Reconcile { bindings, units } => {
            let cfg = reconcile::reconciled(p.cfg, bindings, units, p.deployed);
            (
                PollView { cfg, ..p },
                if reconcile::outdated(p.cfg, bindings, units, p.deployed) {
                    Some(tasks::ActionView::Save(cfg))
                } else {
                    None
                },
            )
        },
        tasks::TaskView::SwitchUrl(pushed) => match reconcile::new_url(p.cfg.server_url, pushed) {
            Some(url) => {
                let cfg = config::ConfigView { server_url: url, ..p.cfg };
                (PollView { cfg, ..p }, Some(tasks::ActionView::Save(cfg)))
            },
            None => (p, None),
        },
        tasks::TaskView::SyncInterval(secs) => {
            let kept = config::kept_interval(secs);
            if kept != p.cfg.poll_interval_secs {
                let cfg = config::ConfigView { poll_interval_secs: kept, ..p.cfg };
                (PollView { cfg, ..p }, Some(tasks::ActionView::Save(cfg)))
            } else {
                (p, None)
            }
        },
        tasks::TaskView::Upgrade { url, version } => (
            p,
            Some(tasks::ActionView::Upgrade { url, version }),
        ),
    }
}

/// The poll, ended with `o`.
pub open spec fn ended(p: PollView, o: tasks::OutcomeView) -> (PollView, tasks::ActionView) {
    (PollView { outcome: Some(o), ..p }, tasks::ActionView::Finish(o))
}

/// Beginning the tasks from the current one on, up to the first that needs an
/// action; the poll is done when there is none.
pub open spec fn advanced(p: PollView) -> (PollView, tasks::ActionView)
    decreases p.tasks.len() - p.at,
{
    if p.at < 0 || p.at >= p.tasks.len() {
        ended(p, tasks::OutcomeView::Done(p.interval))
    } else {
        let (q, action) = issued(p, p.tasks[p.at]);
        match action {
            Some(a) => (q, a),
            None => advanced(PollView { at: p.at + 1, tasks: p.tasks, ..q }),
        }
    }
}

/// What follows when something came of a task.
#[verifier::ext_equal]
pub enum After {
    /// The task is done.
    Next(PollView),
    /// The task goes on as another one.
    Again(PollView, tasks::TaskView),
    /// The poll is given up.
    Stop(PollView, tasks::PollErrorView),
}

/// The first error, or the second if there is none.
pub open spec fn first_error(a: Seq<char>, b: Seq<char>) -> Seq<char> {
    if a.len() == 0 {
        b
    } else {
        a
    }
}

/// The answer to a request to list `path`, from what came of listing it.
pub open spec fn listing_answer(
    path: Seq<char>,
    request_id: Seq<char>,
    windows: bool,
    ev: tasks::EventView,
) -> wire::BrowseResultOutView {
    match ev {
        tasks::EventView::Listed { canonical, windows_parent, listing } => browse::browse_result(
            path,
            request_id,
            windows,
            canonical,
            windows_parent,
            listing,
        ),
        tasks::EventView::Failed(m) => browse::browse_result(
            path,
            request_id,
            windows,
            None,
            None,
            browse::ListingView::Failed(m),
        ),
        _ => browse::browse_result(
            path,
            request_id,
            windows,
            None,
            None,
            browse::ListingView::Failed(seq![]),
        ),
    }
}

/// What came of the task `t`, taken into account.
pub open spec fn absorbed(p: PollView, t: tasks::TaskView, ev: tasks::EventView) -> After {
    match t {
        tasks::TaskView::Snapshot { binding_id, path: _ } => After::Next(
            PollView {
                snapshots: p.snapshots.push(
                    wire::SnapshotReportView {
                        binding_id,
                        snapshot: match ev {
                            tasks::EventView::Content(Some(c)) => envfile::parsed(c),
                            _ => seq![],
                        },
                    },
                ),
                ..p
            },
        ),
        tasks::TaskView::Probe { deployment_id, unit_name: _, version } => After::Next(
            PollView {
                reports: p.reports.push(
                    report_of(
                        deployment_id,
                        version,
                        p.agent.linux,
                        match ev {
                            tasks::EventView::UnitOutput(o) => o,
                            _ => None,
                        },
                    ),
                ),
                ..p
            },
        ),
        tasks::TaskView::Post => match ev {
            tasks::EventView::Status { code, text } => if code == 401 {
                After::Stop(p, tasks::PollErrorView::Unauthorized)
            } else if !wire::success_code(code) {
                After::Stop(p, tasks::PollErrorView::Status(text))
            } else {
                After::Again(p, tasks::TaskView::Receive)
            },
            tasks::EventView::Failed(m) => After::Stop(p, tasks::PollErrorView::Request(m)),
            _ => After::Stop(p, tasks::PollErrorView::Request(seq![])),
        },
        tasks::TaskView::Receive => match ev {
            tasks::EventView::Reply(r) => After::Next(
                PollView {
                    tasks: p.tasks + tasks::plan(r, p.agent.version),
                    interval: r.poll_interval_secs,
                    ..p
                },
            ),
            tasks::EventView::Failed(m) => After::Stop(p, tasks::PollErrorView::Reply(m)),
            _ => After::Stop(p, tasks::PollErrorView::Reply(seq![])),
        },
        tasks::TaskView::Write { app_name: _, path, values: _ } => match ev {
            tasks::EventView::Failed(m) => After::Stop(
                p,
                tasks::PollErrorView::Write { path, cause: m },
            ),
            _ => After::Next(p),
        },
        tasks::TaskView::Deploy { deployment_id, spec } => match ev {
            tasks::EventView::Done => After::Next(
                PollView { deployed: p.deployed.push((deployment_id, spec.version)), ..p },
            ),
            _ => After::Next(p),
        },
        tasks::TaskView::FetchLogs { request_id, unit_name: _, lines: _ } => After::Again(
            p,
            tasks::TaskView::SendLogs(
                wire::LogResultOutView {
                    request_id,
                    text: match ev {
                        tasks::EventView::Journal(t) => t,
                        _ => seq![],
                    },
                    error: match ev {
                        tasks::EventView::Failed(m) => m,
                        _ => seq![],
                    },
                },
            ),
        ),
        tasks::TaskView::Create { path, request_id, action: _ } => After::Again(
            p,
            tasks::TaskView::List {
                path,
                request_id,
                error: match ev {
                    tasks::EventView::Failed(m) => m,
                    _ => seq![],
                },
            },
        ),
        tasks::TaskView::List { path, request_id, error } => {
            let out = listing_answer(path, request_id, p.agent.windows, ev);
            After::Again(
                p,
                tasks::TaskView::SendListing(
                    wire::BrowseResultOutView { error: first_error(out.error, error), ..out },
                ),
            )
        },
        tasks::TaskView::Upgrade { url: _, version: _ } => match ev {
            tasks::EventView::Failed(m) => After::Stop(p, tasks::PollErrorView::Upgrade(m)),
            _ => After::Next(p),
        },
        _ => After::Next(p),
    }
}

/// A poll with the configuration `cfg`, begun.
pub open spec fn started(cfg: config::ConfigView, agent: tasks::AgentView) -> (
    PollView,
    tasks::ActionView,
) {
    advanced(
        PollView {
            cfg,
            agent,
            tasks: tasks::opening(cfg),
            at: 0,
            snapshots: seq![],
            reports: seq![],
            deployed: seq![],
            interval: cfg.poll_interval_secs,
            outcome: None,
        },
    )
}

/// A poll after one more event, and the action that comes next.
pub open spec fn stepped(p: PollView, ev: tasks::EventView) -> (PollView, tasks::ActionView) {
    match p.outcome {
        Some(o) => (p, tasks::ActionView::Finish(o)),
        None => if p.at < 0 || p.at >= p.tasks.len() {
            advanced(p)
        } else {
            match absorbed(p, p.tasks[p.at], ev) {
                After::Next(q) => advanced(PollView { at: q.at + 1, ..q }),
                After::Again(q, t) => advanced(PollView { tasks: q.tasks.update(q.at, t), ..q }),
                After::Stop(q, e) => ended(q, tasks::OutcomeView::Failed(e)),
            }
        },
    }
}

/// Builds `base` + `path`.
fn endpoint(base: &String, path: &str) -> (r: String)
    ensures
        r@ == base@ + path@,
{
    let mut out = base.clone();
    out.append(path);
    out
}

fn report(deployment_id: &String, version: &String, linux: bool, output: Option<&str>) -> (r:
    DeployReport)
    ensures
        r.deep_view() == report_of(deployment_id@, version@, linux, output.deep_view()),
{
    DeployReport {
        deployment_id: deployment_id.clone(),
        state: deploy::state(linux, output),
        version: version.clone(),
        error: String::new(),
    }
}

/// What follows when something came of a task.
enum Verdict {
    Next,
    Again(Task),
    Stop(PollError),
}

spec fn after_of(p: Poll, v: Verdict) -> After {
    match v {
        Verdict::Next => After::Next(p.deep_view()),
        Verdict::Again(t) => After::Again(p.deep_view(), t.deep_view()),
        Verdict::Stop(e) => After::Stop(p.deep_view(), e.deep_view()),
    }
}

impl Poll {
    /// Begins the current task.
    fn issue(self) -> (r: (Poll, Option<Action>))
        requires
            self.at < self.tasks@.len(),
        ensures
            r.0.deep_view() == issued(
                self.deep_view(),
                self.deep_view().tasks[self.at as int],
            ).0,
            r.1.deep_view() == issued(
                self.deep_view(),
                self.deep_view().tasks[self.at as int],
            ).1,
            r.0.tasks == self.tasks,
            r.0.at == self.at,
    {
        let mut p = self;
        let ghost v = p.deep_view();
        match &p.tasks[p.at] {
            Task::Snapshot { binding_id: _, path } => {
                let action = Action::ReadFile(path.clone());
                (p, Some(action))
            },
            Task::Probe { deployment_id, unit_name, version } => {
                if p.agent.linux {
                    let action = Action::QueryUnit(unit_name.clone());
                    (p, Some(action))
                } else {
                    let rep = report(deployment_id, version, false, None);
                    p.reports.push(rep);
                    assert(p.reports.deep_view() == v.reports.push(rep.deep_view()));
                    (p, None)
                }
            },
            Task::Post => {
                let mut snapshots: Vec<SnapshotReport> = Vec::new();
                let mut reports: Vec<DeployReport> = Vec::new();
                std::mem::swap(&mut snapshots, &mut p.snapshots);
                std::mem::swap(&mut reports, &mut p.reports);
                assert(p.snapshots.deep_view() == Seq::<wire::SnapshotReportView>::empty());
                assert(p.reports.deep_view() == Seq::<wire::DeployReportView>::empty());
                let action = Action::Post {
                    url: endpoint(&p.cfg.server_url, "/api/client/poll"),
                    token: p.cfg.token.clone(),
                    body: PollReq {
                        version: p.agent.version.clone(),
                        arch: p.agent.arch.clone(),
                        server_url: p.cfg.server_url.clone(),
                        snapshots,
                        deployments: reports,
                    },
                };
                (p, Some(action))
            },
            Task::Receive => (p, Some(Action::ReadReply)),
            Task::Write { app_name, path, values } => {
                assert(values@.map_values(|x: envfile::EnvVar| x.deep_view())
                    == values.deep_view());
                let action = Action::WriteFile {
                    app_name: app_name.clone(),
                    count: values.len(),
                    path: path.clone(),
                    contents: envfile::write(values.as_slice()),
                };
                (p, Some(action))
            },
            Task::Tell(n) => {
                let action = Action::Tell(n.clone());
                (p, Some(action))
            },
            Task::Deploy { deployment_id, spec } => {
                let action = Action::Deploy {
                    deployment_id: deployment_id.clone(),
                    spec: spec.clone(),
                };
                (p, Some(action))
            },
            Task::Restart { deployment_id, unit_name } => {
                let action = Action::Restart {
                    deployment_id: deployment_id.clone(),
                    unit_name: unit_name.clone(),
                };
                (p, Some(action))
            },
            Task::Stop { deployment_id, unit_name } => {
                let action = Action::Stop {
                    deployment_id: deployment_id.clone(),
                    unit_name: unit_name.clone(),
                };
                (p, Some(action))
            },
            Task::FetchLogs { request_id: _, unit_name, lines } => {
                let action = Action::FetchLogs { unit_name: unit_name.clone(), lines: *lines };
                (p, Some(action))
            },
            Task::SendLogs(body) => {
                let action = Action::SendLogs {
                    url: endpoint(&p.cfg.server_url, "/api/client/log-result"),
                    token: p.cfg.token.clone(),
                    body: body.clone(),
                };
                (p, Some(action))
            },
            Task::Create { path: _, request_id: _, action } => {
                let action = Action::Create(action.clone());
                (p, Some(action))
            },
            Task::List { path, request_id: _, error: _ } => {
                let listed = browse::browse_path(path.as_str());
                if browse::is_drive_chooser(listed.as_str(), p.agent.windows) {
                    (p, Some(Action::ListDrives))
                } else {
                    (p, Some(Action::ListDir(listed)))
                }
            },
            Task::SendListing(body) => {
                let action = Action::SendListing {
                    url: endpoint(&p.cfg.server_url, "/api/client/browse-result"),
                    token: p.cfg.token.clone(),
                    body: body.clone(),
                };
                (p, Some(action))
            },
            Task::Reconcile { bindings, units } => {
                let (cfg, changed) = reconcile::reconcile(
                    p.cfg,
                    bindings.clone(),
                    units,
                    &p.deployed,
                );
                let action = if changed {
                    Some(Action::Save(cfg.clone()))
                } else {
                    None
                };
                p.cfg = cfg;
                (p, action)
            },
            Task::SwitchUrl(pushed) => {
                match reconcile::switched_url(p.cfg.server_url.as_str(), pushed.as_str()) {
                    Some(url) => {
                        p.cfg.server_url = url;
                        let action = Action::Save(p.cfg.clone());
                        (p, Some(action))
                    },
                    None => (p, None),
                }
            },
            Task::SyncInterval(secs) => {
                let kept: u64 = config::clamp_interval(*secs);
                if kept != p.cfg.poll_interval_secs {
                    p.cfg.poll_interval_secs = kept;
                    let action = Action::Save(p.cfg.clone());
                    (p, Some(action))
                } else {
                    (p, None)
                }
            },
            Task::Upgrade { url, version } => {
                let action = Action::Upgrade { url: url.clone(), version: version.clone() };
                (p, Some(action))
            },
        }
    }

    fn end(self, o: Outcome) -> (r: (Poll, Action))
        ensures
            (r.0.deep_view(), r.1.deep_view()) == ended(self.deep_view(), o.deep_view()),
    {
        let mut p = self;
        p.outcome = Some(o.clone());
        (p, Action::Finish(o))
    }

    /// Begins tasks from the current one on, up to the first that needs an action.
    fn advance(self) -> (r: (Poll, Action))
        ensures
            (r.0.deep_view(), r.1.deep_view()) == advanced(self.deep_view()),
    {
        let mut p = self;
        while p.at < p.tasks.len()
            invariant
                advanced(self.deep_view()) == advanced(p.deep_view()),
            decreases p.tasks@.len() - p.at,
        {
            assert(p.deep_view().tasks.len() == p.tasks@.len());
            let (q, action) = p.issue();
            p = q;
            if let Some(a) = action {
                return (p, a);
            }
            p.at = p.at + 1;
        }
        let interval: u64 = p.interval;
        p.end(Outcome::Done(interval))
    }

    /// Takes what came of the current task into account.
    fn absorb(self, ev: Event) -> (r: (Poll, Verdict))
        requires
            self.at < self.tasks@.len(),
        ensures
            after_of(r.0, r.1) == absorbed(
                self.deep_view(),
                self.deep_view().tasks[self.at as int],
                ev.deep_view(),
            ),
            r.0.at == self.at,
            r.0.tasks@.len() >= self.tasks@.len(),
    {
        let mut p = self;
        let ghost v = p.deep_view();
        match &p.tasks[p.at] {
            Task::Snapshot { binding_id, path: _ } => {
                let snapshot = match &ev {
                    Event::Content(Some(c)) => envfile::read(Some(c.as_str())),
                    _ => envfile::read(None),
                };
                let s = SnapshotReport { binding_id: binding_id.clone(), snapshot };
                p.snapshots.push(s);
                assert(p.snapshots.deep_view() == v.snapshots.push(s.deep_view()));
                (p, Verdict::Next)
            },
            Task::Probe { deployment_id, unit_name: _, version } => {
                let rep = match &ev {
                    Event::UnitOutput(Some(o)) => report(
                        deployment_id,
                        version,
                        p.agent.linux,
                        Some(o.as_str()),
                    ),
                    _ => report(deployment_id, version, p.agent.linux, None),
                };
                p.reports.push(rep);
                assert(p.reports.deep_view() == v.reports.push(rep.deep_view()));
                (p, Verdict::Next)
            },
            Task::Post => match ev {
                Event::Status { code, text } => {
                    if code == 401 {
                        (p, Verdict::Stop(PollError::Unauthorized))
                    } else if !wire::is_success(code) {
                        (p, Verdict::Stop(PollError::Status(text)))
                    } else {
                        (p, Verdict::Again(Task::Receive))
                    }
                },
                Event::Failed(m) => (p, Verdict::Stop(PollError::Request(m))),
                _ => (p, Verdict::Stop(PollError::Request(String::new()))),
            },
            Task::Receive => match ev {
                Event::Reply(r) => {
                    let mut more = tasks::plan_tasks(&r, p.agent.version.as_str());
                    let ghost added = more.deep_view();
                    p.tasks.append(&mut more);
                    assert(p.tasks.deep_view() == v.tasks + added);
                    p.interval = r.poll_interval_secs;
                    (p, Verdict::Next)
                },
                Event::Failed(m) => (p, Verdict::Stop(PollError::Reply(m))),
                _ => (p, Verdict::Stop(PollError::Reply(String::new()))),
            },
            Task::Write { app_name: _, path, values: _ } => match ev {
                Event::Failed(m) => {
                    let e = PollError::Write { path: path.clone(), cause: m };
                    (p, Verdict::Stop(e))
                },
                _ => (p, Verdict::Next),
            },
            Task::Deploy { deployment_id, spec } => match ev {
                Event::Done => {
                    let d = (deployment_id.clone(), spec.version.clone());
                    p.deployed.push(d);
                    assert(p.deployed.deep_view() == v.deployed.push(d.deep_view()));
                    (p, Verdict::Next)
                },
                _ => (p, Verdict::Next),
            },
            Task::FetchLogs { request_id, unit_name: _, lines: _ } => {
                let request_id = request_id.clone();
                let out = match ev {
                    Event::Journal(text) => LogResultOut { request_id, text, error: String::new() },
                    Event::Failed(error) => LogResultOut { request_id, text: String::new(), error },
                    _ => LogResultOut { request_id, text: String::new(), error: String::new() },
                };
                (p, Verdict::Again(Task::SendLogs(out)))
            },
            Task::Create { path, request_id, action: _ } => {
                let path = path.clone();
                let request_id = request_id.clone();
                let error = match ev {
                    Event::Failed(m) => m,
                    _ => String::new(),
                };
                (p, Verdict::Again(Task::List { path, request_id, error }))
            },
            Task::List { path, request_id, error } => {
                let windows = p.agent.windows;
                let mut out = match ev {
                    Event::Listed { canonical, windows_parent, listing } => browse::list_dir(
                        path.as_str(),
                        request_id.as_str(),
                        windows,
                        canonical,
                        windows_parent,
                        listing,
                    ),
                    Event::Failed(m) => browse::list_dir(
                        path.as_str(),
                        request_id.as_str(),
                        windows,
                        None,
                        None,
                        Listing::Failed(m),
                    ),
                    _ => browse::list_dir(
                        path.as_str(),
                        request_id.as_str(),
                        windows,
                        None,
                        None,
                        Listing::Failed(String::new()),
                    ),
                };
                if out.error.as_str().is_empty() {
                    out.error = error.clone();
                }
                (p, Verdict::Again(Task::SendListing(out)))
            },
            Task::Upgrade { url: _, version: _ } => match ev {
                Event::Failed(m) => (p, Verdict::Stop(PollError::Upgrade(m))),
                _ => (p, Verdict::Next),
            },
            _ => (p, Verdict::Next),
        }
    }

    /// Begins a poll: the poll itself, and the first action to carry out.
    pub fn start(cfg: Config, agent: Agent) -> (r: (Poll, Action))
        ensures
            (r.0.deep_view(), r.1.deep_view()) == started(cfg.deep_view(), agent.deep_view()),
    {
        let tasks = tasks::opening_tasks(&cfg);
        let interval: u64 = cfg.poll_interval_secs;
        let p = Poll {
            cfg,
            agent,
            tasks,
            at: 0,
            snapshots: Vec::new(),
            reports: Vec::new(),
            deployed: Vec::new(),
            interval,
            outcome: None,
        };
        assert(p.snapshots.deep_view() == Seq::<wire::SnapshotReportView>::empty());
        assert(p.reports.deep_view() == Seq::<wire::DeployReportView>::empty());
        assert(p.deployed.deep_view() == Seq::<(Seq<char>, Seq<char>)>::empty());
        p.advance()
    }

    /// Takes what came of the last action, and gives the next one.
    pub fn step(self, ev: Event) -> (r: (Poll, Action))
        ensures
            (r.0.deep_view(), r.1.deep_view()) == stepped(self.deep_view(), ev.deep_view()),
    {
        if let Some(o) = &self.outcome {
            let action = Action::Finish(o.clone());
            return (self, action);
        }
        assert(self.deep_view().tasks.len() == self.tasks@.len());
        if self.at >= self.tasks.len() {
            return self.advance();
        }
        let (mut p, verdict) = self.absorb(ev);
        let ghost q = p.deep_view();
        match verdict {
            Verdict::Next => {
                p.at = p.at + 1;
                p.advance()
            },
            Verdict::Again(t) => {
                let at: usize = p.at;
                let ghost tv = t.deep_view();
                p.tasks.set(at, t);
                assert(p.tasks.deep_view() == q.tasks.update(at as int, tv));
                p.advance()
            },
            Verdict::Stop(e) => p.end(Outcome::Failed(e)),
        }
    }
}

} // verus!
