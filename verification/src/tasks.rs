//! What a poll has to do, as a list of tasks: those that gather the report, and
//! those that the server's answer asks for.
use crate::browse;
use crate::browse::{CreateAction, Listing};
use crate::config;
use crate::config::{Binding, Config};
use crate::deploy;
use crate::deploy::DeploySpec;
use crate::envfile;
use crate::envfile::EnvVar;
use crate::text;
use crate::wire;
use crate::wire::{
    BindingJob, BrowseReq, BrowseResultOut, DeployJobIn, DeploymentJobIn, LogReqIn, LogResultOut,
    PollReq, PollResp,
};
use vstd::prelude::*;

verus! {

/// What the agent knows of itself and of its host.
#[derive(Debug, PartialEq, Eq)]
pub struct Agent {
    pub version: String,
    pub arch: String,
    pub linux: bool,
    pub windows: bool,
}

/// What an [`Agent`] holds.
#[verifier::ext_equal]
pub struct AgentView {
    pub version: Seq<char>,
    pub arch: Seq<char>,
    pub linux: bool,
    pub windows: bool,
}

impl DeepView for Agent {
    type V = AgentView;

    open spec fn deep_view(&self) -> AgentView {
        AgentView {
            version: self.version@,
            arch: self.arch@,
            linux: self.linux,
            windows: self.windows,
        }
    }
}

impl Clone for Agent {
    fn clone(&self) -> (r: Self)
        ensures
            r.deep_view() == self.deep_view(),
    {
        Agent {
            version: self.version.clone(),
            arch: self.arch.clone(),
            linux: self.linux,
            windows: self.windows,
        }
    }
}

/// Why a poll was given up.
#[derive(Debug, PartialEq, Eq)]
pub enum PollError {
    /// The request could not be sent.
    Request(String),
    /// The server does not know this agent's token.
    Unauthorized,
    /// The server answered with this status.
    Status(String),
    /// The answer could not be understood.
    Reply(String),
    /// An env file could not be written.
    Write { path: String, cause: String },
    /// The agent could not be upgraded.
    Upgrade(String),
}

/// What a [`PollError`] holds.
#[verifier::ext_equal]
pub enum PollErrorView {
    Request(Seq<char>),
    Unauthorized,
    Status(Seq<char>),
    Reply(Seq<char>),
    Write { path: Seq<char>, cause: Seq<char> },
    Upgrade(Seq<char>),
}

impl DeepView for PollError {
    type V = PollErrorView;

    open spec fn deep_view(&self) -> PollErrorView {
        match *self {
            PollError::Request(x) => PollErrorView::Request(x@),
            PollError::Unauthorized => PollErrorView::Unauthorized,
            PollError::Status(x) => PollErrorView::Status(x@),
            PollError::Reply(x) => PollErrorView::Reply(x@),
            PollError::Write { path, cause } => PollErrorView::Write {
                path: path@,
                cause: cause@,
            },
            PollError::Upgrade(x) => PollErrorView::Upgrade(x@),
        }
    }
}

/// Something the server asked for that cannot be done.
#[derive(Debug, PartialEq, Eq)]
pub enum Notice {
    /// A write job without a file path, for this app.
    NoFilePath { app_name: String },
    /// A deployment action that is not known.
    UnknownAction { action: String },
}

/// What a [`Notice`] holds.
#[verifier::ext_equal]
pub enum NoticeView {
    NoFilePath { app_name: Seq<char> },
    UnknownAction { action: Seq<char> },
}

impl DeepView for Notice {
    type V = NoticeView;

    open spec fn deep_view(&self) -> NoticeView {
        match *self {
            Notice::NoFilePath { app_name } => NoticeView::NoFilePath {
                app_name: app_name@,
            },
            Notice::UnknownAction { action } => NoticeView::UnknownAction {
                action: action@,
            },
        }
    }
}

/// One thing that a poll has to do.
#[derive(Debug, PartialEq, Eq)]
pub enum Task {
    /// Read a binding's file for the report.
    Snapshot { binding_id: String, path: String },
    /// Look up a deployment's state for the report.
    Probe { deployment_id: String, unit_name: String, version: String },
    /// Send the report.
    Post,
    /// Read what the server answered.
    Receive,
    /// Write an app's env file.
    Write { app_name: String, path: String, values: Vec<EnvVar> },
    /// Tell the user something.
    Tell(Notice),
    /// Deploy a release.
    Deploy { deployment_id: String, spec: DeploySpec },
    /// Restart a unit.
    Restart { deployment_id: String, unit_name: String },
    /// Stop a unit.
    Stop { deployment_id: String, unit_name: String },
    /// Fetch the tail of a unit's journal.
    FetchLogs { request_id: String, unit_name: String, lines: u32 },
    /// Send the journal to the server.
    SendLogs(LogResultOut),
    /// Create something, then list the directory.
    Create { path: String, request_id: String, action: CreateAction },
    /// List a directory. `error` is what went wrong before.
    List { path: String, request_id: String, error: String },
    /// Send the listing to the server.
    SendListing(BrowseResultOut),
    /// Bring bindings and deployment records in line with the server's lists.
    Reconcile { bindings: Vec<Binding>, units: Vec<(String, String)> },
    /// Adopt a base URL that the server pushed.
    SwitchUrl(String),
    /// Keep the interval that the server asked for.
    SyncInterval(u64),
    /// Replace this agent.
    Upgrade { url: String, version: String },
}

/// What a [`Task`] holds.
#[verifier::ext_equal]
pub enum TaskView {
    Snapshot { binding_id: Seq<char>, path: Seq<char> },
    Probe { deployment_id: Seq<char>, unit_name: Seq<char>, version: Seq<char> },
    Post,
    Receive,
    Write { app_name: Seq<char>, path: Seq<char>, values: Seq<envfile::EnvVarView> },
    Tell(NoticeView),
    Deploy { deployment_id: Seq<char>, spec: deploy::DeploySpecView },
    Restart { deployment_id: Seq<char>, unit_name: Seq<char> },
    Stop { deployment_id: Seq<char>, unit_name: Seq<char> },
    FetchLogs { request_id: Seq<char>, unit_name: Seq<char>, lines: u32 },
    SendLogs(wire::LogResultOutView),
    Create { path: Seq<char>, request_id: Seq<char>, action: browse::CreateActionView },
    List { path: Seq<char>, request_id: Seq<char>, error: Seq<char> },
    SendListing(wire::BrowseResultOutView),
    Reconcile { bindings: Seq<config::BindingView>, units: Seq<(Seq<char>, Seq<char>)> },
    SwitchUrl(Seq<char>),
    SyncInterval(u64),
    Upgrade { url: Seq<char>, version: Seq<char> },
}

impl DeepView for Task {
    type V = TaskView;

    open spec fn deep_view(&self) -> TaskView {
        match *self {
            Task::Snapshot { binding_id, path } => TaskView::Snapshot {
                binding_id: binding_id@,
                path: path@,
            },
            Task::Probe { deployment_id, unit_name, version } => TaskView::Probe {
                deployment_id: deployment_id@,
                unit_name: unit_name@,
                version: version@,
            },
            Task::Post => TaskView::Post,
            Task::Receive => TaskView::Receive,
            Task::Write { app_name, path, values } => TaskView::Write {
                app_name: app_name@,
                path: path@,
                values: values.deep_view(),
            },
            Task::Tell(x) => TaskView::Tell(x.deep_view()),
            Task::Deploy { deployment_id, spec } => TaskView::Deploy {
                deployment_id: deployment_id@,
                spec: spec.deep_view(),
            },
            Task::Restart { deployment_id, unit_name } => TaskView::Restart {
                deployment_id: deployment_id@,
                unit_name: unit_name@,
            },
            Task::Stop { deployment_id, unit_name } => TaskView::Stop {
                deployment_id: deployment_id@,
                unit_name: unit_name@,
            },
            Task::FetchLogs { request_id, unit_name, lines } => TaskView::FetchLogs {
                request_id: request_id@,
                unit_name: unit_name@,
                lines,
            },
            Task::SendLogs(x) => TaskView::SendLogs(x.deep_view()),
            Task::Create { path, request_id, action } => TaskView::Create {
                path: path@,
                request_id: request_id@,
                action: action.deep_view(),
            },
            Task::List { path, request_id, error } => TaskView::List {
                path: path@,
                request_id: request_id@,
                error: error@,
            },
            Task::SendListing(x) => TaskView::SendListing(x.deep_view()),
            Task::Reconcile { bindings, units } => TaskView::Reconcile {
                bindings: bindings.deep_view(),
                units: units.deep_view(),
            },
            Task::SwitchUrl(x) => TaskView::SwitchUrl(x@),
            Task::SyncInterval(x) => TaskView::SyncInterval(x),
            Task::Upgrade { url, version } => TaskView::Upgrade {
                url: url@,
                version: version@,
            },
        }
    }
}

/// How a poll ended.
#[derive(Debug, PartialEq, Eq)]
pub enum Outcome {
    /// All went well; the server wants the next poll after this many seconds.
    Done(u64),
    /// The poll was given up.
    Failed(PollError),
}

/// What an [`Outcome`] holds.
#[verifier::ext_equal]
pub enum OutcomeView {
    Done(u64),
    Failed(PollErrorView),
}

impl DeepView for Outcome {
    type V = OutcomeView;

    open spec fn deep_view(&self) -> OutcomeView {
        match *self {
            Outcome::Done(x) => OutcomeView::Done(x),
            Outcome::Failed(x) => OutcomeView::Failed(x.deep_view()),
        }
    }
}

/// What is to be carried out next.
#[allow(inconsistent_fields)]
#[derive(Debug, PartialEq, Eq)]
pub enum Action {
    /// Read this file; answer with [`Event::Content`].
    ReadFile(String),
    /// Run `systemctl is-active` on this unit; answer with [`Event::UnitOutput`].
    QueryUnit(String),
    /// Send the report; answer with [`Event::Status`] or [`Event::Failed`].
    Post { url: String, token: String, body: PollReq },
    /// Read the body of the answer; answer with [`Event::Reply`] or [`Event::Failed`].
    ReadReply,
    /// Write this file, creating parent directories as needed.
    WriteFile { app_name: String, count: usize, path: String, contents: String },
    /// Tell the user.
    Tell(Notice),
    /// Carry out a deployment.
    Deploy { deployment_id: String, spec: DeploySpec },
    /// Restart this unit.
    Restart { deployment_id: String, unit_name: String },
    /// Stop this unit.
    Stop { deployment_id: String, unit_name: String },
    /// Fetch a journal; answer with [`Event::Journal`] or [`Event::Failed`].
    FetchLogs { unit_name: String, lines: u32 },
    /// Send a journal.
    SendLogs { url: String, token: String, body: LogResultOut },
    /// Create something.
    Create(CreateAction),
    /// List this directory; answer with [`Event::Listed`].
    ListDir(String),
    /// Find out which drives exist; answer with [`Event::Listed`].
    ListDrives,
    /// Send a listing.
    SendListing { url: String, token: String, body: BrowseResultOut },
    /// Persist this configuration.
    Save(Config),
    /// Replace this agent and restart.
    Upgrade { url: String, version: String },
    /// The poll is over.
    Finish(Outcome),
}

/// What an [`Action`] holds.
#[allow(inconsistent_fields)]
#[verifier::ext_equal]
pub enum ActionView {
    ReadFile(Seq<char>),
    QueryUnit(Seq<char>),
    Post { url: Seq<char>, token: Seq<char>, body: wire::PollReqView },
    ReadReply,
    WriteFile { app_name: Seq<char>, count: nat, path: Seq<char>, contents: Seq<char> },
    Tell(NoticeView),
    Deploy { deployment_id: Seq<char>, spec: deploy::DeploySpecView },
    Restart { deployment_id: Seq<char>, unit_name: Seq<char> },
    Stop { deployment_id: Seq<char>, unit_name: Seq<char> },
    FetchLogs { unit_name: Seq<char>, lines: u32 },
    SendLogs { url: Seq<char>, token: Seq<char>, body: wire::LogResultOutView },
    Create(browse::CreateActionView),
    ListDir(Seq<char>),
    ListDrives,
    SendListing { url: Seq<char>, token: Seq<char>, body: wire::BrowseResultOutView },
    Save(config::ConfigView),
    Upgrade { url: Seq<char>, version: Seq<char> },
    Finish(OutcomeView),
}

impl DeepView for Action {
    type V = ActionView;

    open spec fn deep_view(&self) -> ActionView {
        match *self {
            Action::ReadFile(x) => ActionView::ReadFile(x@),
            Action::QueryUnit(x) => ActionView::QueryUnit(x@),
            Action::Post { url, token, body } => ActionView::Post {
                url: url@,
                token: token@,
                body: body.deep_view(),
            },
            Action::ReadReply => ActionView::ReadReply,
            Action::WriteFile { app_name, count, path, contents } => ActionView::WriteFile {
                app_name: app_name@,
                count: count as nat,
                path: path@,
                contents: contents@,
            },
            Action::Tell(x) => ActionView::Tell(x.deep_view()),
            Action::Deploy { deployment_id, spec } => ActionView::Deploy {
                deployment_id: deployment_id@,
                spec: spec.deep_view(),
            },
            Action::Restart { deployment_id, unit_name } => ActionView::Restart {
                deployment_id: deployment_id@,
                unit_name: unit_name@,
            },
            Action::Stop { deployment_id, unit_name } => ActionView::Stop {
                deployment_id: deployment_id@,
                unit_name: unit_name@,
            },
            Action::FetchLogs { unit_name, lines } => ActionView::FetchLogs {
                unit_name: unit_name@,
                lines,
            },
            Action::SendLogs { url, token, body } => ActionView::SendLogs {
                url: url@,
                token: token@,
                body: body.deep_view(),
            },
            Action::Create(x) => ActionView::Create(x.deep_view()),
            Action::ListDir(x) => ActionView::ListDir(x@),
            Action::ListDrives => ActionView::ListDrives,
            Action::SendListing { url, token, body } => ActionView::SendListing {
                url: url@,
                token: token@,
                body: body.deep_view(),
            },
            Action::Save(x) => ActionView::Save(x.deep_view()),
            Action::Upgrade { url, version } => ActionView::Upgrade {
                url: url@,
                version: version@,
            },
            Action::Finish(x) => ActionView::Finish(x.deep_view()),
        }
    }
}

/// What came of an [`Action`].
#[derive(Debug, PartialEq, Eq)]
pub enum Event {
    /// It was carried out.
    Done,
    /// It failed, and this is why.
    Failed(String),
    /// The contents of a file (`None` if it could not be read).
    Content(Option<String>),
    /// What systemctl printed (`None` if it could not be run).
    UnitOutput(Option<String>),
    /// The status of the server's answer, as a number and as text.
    Status { code: u16, text: String },
    /// The server's answer.
    Reply(PollResp),
    /// The text of a journal.
    Journal(String),
    /// What came of a listing, with the canonical form of the path, if it has one,
    /// and on Windows with the parent of that.
    Listed { canonical: Option<String>, windows_parent: Option<String>, listing: Listing },
}

/// What an [`Event`] holds.
#[verifier::ext_equal]
pub enum EventView {
    Done,
    Failed(Seq<char>),
    Content(Option<Seq<char>>),
    UnitOutput(Option<Seq<char>>),
    Status { code: u16, text: Seq<char> },
    Reply(wire::PollRespView),
    Journal(Seq<char>),
    Listed {
        canonical: Option<Seq<char>>,
        windows_parent: Option<Seq<char>>,
        listing: browse::ListingView,
    },
}

impl DeepView for Event {
    type V = EventView;

    open spec fn deep_view(&self) -> EventView {
        match *self {
            Event::Done => EventView::Done,
            Event::Failed(x) => EventView::Failed(x@),
            Event::Content(x) => EventView::Content(x.deep_view()),
            Event::UnitOutput(x) => EventView::UnitOutput(x.deep_view()),
            Event::Status { code, text } => EventView::Status {
                code,
                text: text@,
            },
            Event::Reply(x) => EventView::Reply(x.deep_view()),
            Event::Journal(x) => EventView::Journal(x@),
            Event::Listed { canonical, windows_parent, listing } => EventView::Listed {
                canonical: canonical.deep_view(),
                windows_parent: windows_parent.deep_view(),
                listing: listing.deep_view(),
            },
        }
    }
}

/// What an error says.
pub open spec fn error_message(e: PollErrorView) -> Seq<char> {
    match e {
        PollErrorView::Request(cause) => "poll request failed: "@ + cause,
        PollErrorView::Unauthorized => {
            "server rejected token \u{2014} re-enroll with `sglaz -connect <code>`"@
        },
        PollErrorView::Status(status) => "poll returned status "@ + status,
        PollErrorView::Reply(cause) => "unexpected poll response: "@ + cause,
        PollErrorView::Write { path, cause } => "writing "@ + path + ": "@ + cause,
        PollErrorView::Upgrade(message) => message,
    }
}

fn with_lead(lead: &str, rest: &String) -> (r: String)
    ensures
        r@ == lead@ + rest@,
{
    let mut out = lead.to_owned();
    out.append(rest.as_str());
    out
}

impl PollError {
    /// What the error says.
    pub fn message(&self) -> (r: String)
        ensures
            r@ == error_message(self.deep_view()),
    {
        match self {
            PollError::Request(cause) => with_lead("poll request failed: ", cause),
            PollError::Unauthorized => {
                "server rejected token \u{2014} re-enroll with `sglaz -connect <code>`".to_owned()
            },
            PollError::Status(status) => with_lead("poll returned status ", status),
            PollError::Reply(cause) => with_lead("unexpected poll response: ", cause),
            PollError::Write { path, cause } => {
                let mut out = with_lead("writing ", path);
                out.append(": ");
                out.append(cause.as_str());
                out
            },
            PollError::Upgrade(message) => message.clone(),
        }
    }
}

impl Clone for PollError {
    fn clone(&self) -> (r: Self)
        ensures
            r.deep_view() == self.deep_view(),
    {
        match self {
            PollError::Request(m) => PollError::Request(m.clone()),
            PollError::Unauthorized => PollError::Unauthorized,
            PollError::Status(m) => PollError::Status(m.clone()),
            PollError::Reply(m) => PollError::Reply(m.clone()),
            PollError::Write { path, cause } => PollError::Write {
                path: path.clone(),
                cause: cause.clone(),
            },
            PollError::Upgrade(m) => PollError::Upgrade(m.clone()),
        }
    }
}

impl Clone for Notice {
    fn clone(&self) -> (r: Self)
        ensures
            r.deep_view() == self.deep_view(),
    {
        match self {
            Notice::NoFilePath { app_name } => Notice::NoFilePath { app_name: app_name.clone() },
            Notice::UnknownAction { action } => Notice::UnknownAction { action: action.clone() },
        }
    }
}

impl Clone for Outcome {
    fn clone(&self) -> (r: Self)
        ensures
            r.deep_view() == self.deep_view(),
    {
        match self {
            Outcome::Done(secs) => Outcome::Done(*secs),
            Outcome::Failed(e) => Outcome::Failed(e.clone()),
        }
    }
}

/// The results of `f` on the elements of `s`, one behind the other.
pub open spec fn collect<A, B>(s: Seq<A>, f: spec_fn(A) -> Seq<B>) -> Seq<B>
    decreases s.len(),
{
    if s.len() == 0 {
        seq![]
    } else {
        collect(s.drop_last(), f) + f(s.last())
    }
}

/// One more element adds its own results at the end.
pub proof fn lemma_collect_step<A, B>(s: Seq<A>, f: spec_fn(A) -> Seq<B>, i: int)
    requires
        0 <= i < s.len(),
    ensures
        collect(s.take(i + 1), f) == collect(s.take(i), f) + f(s[i]),
{
    assert(s.take(i + 1).drop_last() == s.take(i));
}

/// Every collected result comes from some element.
pub proof fn lemma_collect_member<A, B>(s: Seq<A>, f: spec_fn(A) -> Seq<B>, i: int) -> (r: (
    int,
    int,
))
    requires
        0 <= i < collect(s, f).len(),
    ensures
        0 <= r.0 < s.len(),
        0 <= r.1 < f(s[r.0]).len(),
        collect(s, f)[i] == f(s[r.0])[r.1],
    decreases s.len(),
{
    let d = collect(s.drop_last(), f);
    if i < d.len() {
        let r = lemma_collect_member(s.drop_last(), f, i);
        assert(s.drop_last()[r.0] == s[r.0]);
        r
    } else {
        (s.len() - 1, i - d.len())
    }
}

/// Every result of an element is collected.
pub proof fn lemma_collect_has<A, B>(s: Seq<A>, f: spec_fn(A) -> Seq<B>, i: int, j: int) -> (r: int)
    requires
        0 <= i < s.len(),
        0 <= j < f(s[i]).len(),
    ensures
        0 <= r < collect(s, f).len(),
        collect(s, f)[r] == f(s[i])[j],
    decreases s.len(),
{
    let d = collect(s.drop_last(), f);
    if i < s.len() - 1 {
        assert(s.drop_last()[i] == s[i]);
        lemma_collect_has(s.drop_last(), f, i, j)
    } else {
        d.len() + j
    }
}

/// Report a binding's file, if it has one.
pub open spec fn snapshot_tasks(b: config::BindingView) -> Seq<TaskView> {
    if b.file_path.len() > 0 {
        seq![TaskView::Snapshot { binding_id: b.binding_id, path: b.file_path }]
    } else {
        seq![]
    }
}

/// Report a deployment's live state and running version.
pub open spec fn probe_tasks(d: config::DeployRecordView) -> Seq<TaskView> {
    seq![
        TaskView::Probe {
            deployment_id: d.deployment_id,
            unit_name: d.unit_name,
            version: d.version,
        },
    ]
}

/// What a poll begins with: gather the report and send it.
pub open spec fn opening(cfg: config::ConfigView) -> Seq<TaskView> {
    collect(cfg.bindings, |b: config::BindingView| snapshot_tasks(b)) + collect(
        cfg.deployments,
        |d: config::DeployRecordView| probe_tasks(d),
    ) + seq![TaskView::Post]
}

/// What a binding's job asks for: a write job goes to the job's own path, or else
/// to the binding's.
pub open spec fn write_tasks(b: wire::BindingJobView) -> Seq<TaskView> {
    match b.job {
        Some(job) if job.job_type == "write"@ => {
            let path = if job.file_path.len() == 0 {
                b.file_path
            } else {
                job.file_path
            };
            if path.len() == 0 {
                seq![TaskView::Tell(NoticeView::NoFilePath { app_name: b.app_name })]
            } else {
                seq![TaskView::Write { app_name: b.app_name, path, values: job.values }]
            }
        },
        _ => seq![],
    }
}

/// The deployment that a deploy job describes.
pub open spec fn spec_of(job: wire::DeployJobInView) -> deploy::DeploySpecView {
    deploy::DeploySpecView {
        version: job.version,
        signed_url: job.signed_url,
        kind: job.kind,
        run_cmd: job.run_cmd,
        prepare_cmd: job.prepare_cmd,
        deploy_root: job.deploy_root,
        unit_name: job.unit_name,
        env_file: job.env_file,
        env_values: job.env_values,
    }
}

/// What a deployment's job asks for.
pub open spec fn deploy_tasks(d: wire::DeploymentJobInView) -> Seq<TaskView> {
    match d.job {
        None => seq![],
        Some(job) => seq![
            if job.action == "deploy"@ {
                TaskView::Deploy { deployment_id: d.deployment_id, spec: spec_of(job) }
            } else if job.action == "restart"@ {
                TaskView::Restart { deployment_id: d.deployment_id, unit_name: job.unit_name }
            } else if job.action == "stop"@ {
                TaskView::Stop { deployment_id: d.deployment_id, unit_name: job.unit_name }
            } else {
                TaskView::Tell(NoticeView::UnknownAction { action: job.action })
            },
        ],
    }
}

/// How many lines of a journal are fetched if the server does not say.
pub const DEFAULT_LOG_LINES: u32 = 200;

/// What a log request asks for.
pub open spec fn log_tasks(logs: Option<wire::LogReqInView>) -> Seq<TaskView> {
    match logs {
        None => seq![],
        Some(l) => seq![
            TaskView::FetchLogs {
                request_id: l.request_id,
                unit_name: l.unit_name,
                lines: if l.lines == 0 {
                    DEFAULT_LOG_LINES
                } else {
                    l.lines
                },
            },
        ],
    }
}

/// What a browse request asks for. It may first ask to create a folder or an
/// empty file, then to list the (now-updated) directory.
pub open spec fn browse_tasks(browse: Option<wire::BrowseReqView>) -> Seq<TaskView> {
    match browse {
        None => seq![],
        Some(b) => seq![
            match (b.action, b.name) {
                (Some(action), Some(name)) => match browse::creation(b.path, action, name) {
                    Some(create) => TaskView::Create {
                        path: b.path,
                        request_id: b.request_id,
                        action: create,
                    },
                    None => TaskView::List {
                        path: b.path,
                        request_id: b.request_id,
                        error: browse::unknown_action(action),
                    },
                },
                _ => TaskView::List { path: b.path, request_id: b.request_id, error: seq![] },
            },
        ],
    }
}

/// The bindings that the server lists.
pub open spec fn bindings_of(reply: wire::PollRespView) -> Seq<config::BindingView> {
    reply.bindings.map_values(
        |b: wire::BindingJobView|
            config::BindingView {
                binding_id: b.binding_id,
                app_name: b.app_name,
                file_path: b.file_path,
            },
    )
}

/// The deployments that the server lists: their ids and unit names.
pub open spec fn units_of(reply: wire::PollRespView) -> Seq<(Seq<char>, Seq<char>)> {
    reply.deployments.map_values(
        |d: wire::DeploymentJobInView| (d.deployment_id, d.unit_name),
    )
}

/// Keep what the server said for the next time.
pub open spec fn keep_tasks(reply: wire::PollRespView) -> Seq<TaskView> {
    seq![
        TaskView::Reconcile { bindings: bindings_of(reply), units: units_of(reply) },
        TaskView::SwitchUrl(reply.server_url),
        TaskView::SyncInterval(reply.poll_interval_secs),
    ]
}

/// Replace the agent, if the server offers another version than `version`.
pub open spec fn upgrade_tasks(
    upgrade: Option<wire::UpgradeView>,
    version: Seq<char>,
) -> Seq<TaskView> {
    match upgrade {
        Some(up) if up.version != version => seq![
            TaskView::Upgrade { url: up.url, version: up.version },
        ],
        _ => seq![],
    }
}

/// What the answer asks for: write files, act on deployments, answer the log and
/// browse requests, keep what was said, and upgrade last of all.
pub open spec fn plan(reply: wire::PollRespView, version: Seq<char>) -> Seq<TaskView> {
    collect(reply.bindings, |b: wire::BindingJobView| write_tasks(b)) + collect(
        reply.deployments,
        |d: wire::DeploymentJobInView| deploy_tasks(d),
    ) + log_tasks(reply.logs) + browse_tasks(reply.browse) + keep_tasks(reply) + upgrade_tasks(
        reply.upgrade,
        version,
    )
}

/// The tasks that a poll begins with.
pub fn opening_tasks(cfg: &Config) -> (r: Vec<Task>)
    ensures
        r.deep_view() == opening(cfg.deep_view()),
{
    let ghost bs = cfg.bindings.deep_view();
    let ghost ds = cfg.deployments.deep_view();
    let ghost fb = |b: config::BindingView| snapshot_tasks(b);
    let ghost fd = |d: config::DeployRecordView| probe_tasks(d);
    let mut out: Vec<Task> = Vec::new();
    let mut i: usize = 0;
    assert(out.deep_view() == collect(bs.take(0), fb));
    while i < cfg.bindings.len()
        invariant
            i <= cfg.bindings.len(),
            bs == cfg.bindings.deep_view(),
            fb == (|b: config::BindingView| snapshot_tasks(b)),
            out.deep_view() == collect(bs.take(i as int), fb),
        decreases cfg.bindings.len() - i,
    {
        let ghost before = out.deep_view();
        let b = &cfg.bindings[i];
        proof {
            lemma_collect_step(bs, fb, i as int);
        }
        if !b.file_path.as_str().is_empty() {
            out.push(
                Task::Snapshot { binding_id: b.binding_id.clone(), path: b.file_path.clone() },
            );
        }
        assert(out.deep_view() == before + snapshot_tasks(b.deep_view()));
        i = i + 1;
    }
    assert(bs.take(i as int) == bs);
    let ghost snapshots = out.deep_view();
    let mut k: usize = 0;
    assert(snapshots + collect(ds.take(0), fd) == snapshots);
    while k < cfg.deployments.len()
        invariant
            k <= cfg.deployments.len(),
            ds == cfg.deployments.deep_view(),
            fd == (|d: config::DeployRecordView| probe_tasks(d)),
            out.deep_view() == snapshots + collect(ds.take(k as int), fd),
        decreases cfg.deployments.len() - k,
    {
        let ghost before = out.deep_view();
        let d = &cfg.deployments[k];
        proof {
            lemma_collect_step(ds, fd, k as int);
        }
        out.push(
            Task::Probe {
                deployment_id: d.deployment_id.clone(),
                unit_name: d.unit_name.clone(),
                version: d.version.clone(),
            },
        );
        assert(out.deep_view() == before + probe_tasks(d.deep_view()));
        k = k + 1;
    }
    assert(ds.take(k as int) == ds);
    out.push(Task::Post);
    assert(out.deep_view() == opening(cfg.deep_view()));
    out
}

fn push_write_task(out: &mut Vec<Task>, b: &BindingJob)
    ensures
        final(out).deep_view() == old(out).deep_view() + write_tasks(b.deep_view()),
{
    let ghost before = out.deep_view();
    if let Some(job) = &b.job {
        if text::same(job.job_type.as_str(), "write") {
            let path = if job.file_path.as_str().is_empty() {
                b.file_path.clone()
            } else {
                job.file_path.clone()
            };
            if path.as_str().is_empty() {
                out.push(Task::Tell(Notice::NoFilePath { app_name: b.app_name.clone() }));
            } else {
                out.push(
                    Task::Write { app_name: b.app_name.clone(), path, values: job.values.clone() },
                );
            }
        }
    }
    assert(out.deep_view() == before + write_tasks(b.deep_view()));
}

fn deploy_spec(job: &DeployJobIn) -> (r: DeploySpec)
    ensures
        r.deep_view() == spec_of(job.deep_view()),
{
    DeploySpec {
        version: job.version.clone(),
        signed_url: job.signed_url.clone(),
        kind: job.kind.clone(),
        run_cmd: job.run_cmd.clone(),
        prepare_cmd: job.prepare_cmd.clone(),
        deploy_root: job.deploy_root.clone(),
        unit_name: job.unit_name.clone(),
        env_file: job.env_file.clone(),
        env_values: job.env_values.clone(),
    }
}

fn push_deploy_task(out: &mut Vec<Task>, d: &DeploymentJobIn)
    ensures
        final(out).deep_view() == old(out).deep_view() + deploy_tasks(d.deep_view()),
{
    let ghost before = out.deep_view();
    if let Some(job) = &d.job {
        let deployment_id = d.deployment_id.clone();
        if text::same(job.action.as_str(), "deploy") {
            out.push(Task::Deploy { deployment_id, spec: deploy_spec(job) });
        } else if text::same(job.action.as_str(), "restart") {
            out.push(Task::Restart { deployment_id, unit_name: job.unit_name.clone() });
        } else if text::same(job.action.as_str(), "stop") {
            out.push(Task::Stop { deployment_id, unit_name: job.unit_name.clone() });
        } else {
            out.push(Task::Tell(Notice::UnknownAction { action: job.action.clone() }));
        }
    }
    assert(out.deep_view() == before + deploy_tasks(d.deep_view()));
}

fn push_log_task(out: &mut Vec<Task>, logs: &Option<LogReqIn>)
    ensures
        final(out).deep_view() == old(out).deep_view() + log_tasks(logs.deep_view()),
{
    let ghost before = out.deep_view();
    if let Some(l) = logs {
        let lines: u32 = if l.lines == 0 {
            DEFAULT_LOG_LINES
        } else {
            l.lines
        };
        out.push(
            Task::FetchLogs {
                request_id: l.request_id.clone(),
                unit_name: l.unit_name.clone(),
                lines,
            },
        );
    }
    assert(out.deep_view() == before + log_tasks(logs.deep_view()));
}

fn browse_task(b: &BrowseReq) -> (r: Task)
    ensures
        seq![r.deep_view()] == browse_tasks(Some(b.deep_view())),
{
    let path = b.path.clone();
    let request_id = b.request_id.clone();
    match (&b.action, &b.name) {
        (Some(action), Some(name)) => {
            match browse::create_item(path.as_str(), action.as_str(), name.as_str()) {
                Ok(action) => Task::Create { path, request_id, action },
                Err(error) => Task::List { path, request_id, error },
            }
        },
        _ => Task::List { path, request_id, error: String::new() },
    }
}

fn listed_bindings(reply: &PollResp) -> (r: Vec<Binding>)
    ensures
        r.deep_view() == bindings_of(reply.deep_view()),
{
    let ghost want = bindings_of(reply.deep_view());
    let mut out: Vec<Binding> = Vec::new();
    let mut i: usize = 0;
    while i < reply.bindings.len()
        invariant
            i <= reply.bindings.len(),
            want == bindings_of(reply.deep_view()),
            out.deep_view() == want.take(i as int),
        decreases reply.bindings.len() - i,
    {
        let ghost before = out.deep_view();
        let b = &reply.bindings[i];
        let e = Binding {
            binding_id: b.binding_id.clone(),
            app_name: b.app_name.clone(),
            file_path: b.file_path.clone(),
        };
        assert(reply.deep_view().bindings[i as int] == b.deep_view());
        assert(e.deep_view() == want[i as int]);
        out.push(e);
        assert(out.deep_view() == before.push(e.deep_view()));
        i = i + 1;
    }
    assert(want.take(i as int) == want);
    out
}

fn listed_units(reply: &PollResp) -> (r: Vec<(String, String)>)
    ensures
        r.deep_view() == units_of(reply.deep_view()),
{
    let ghost want = units_of(reply.deep_view());
    let mut out: Vec<(String, String)> = Vec::new();
    let mut i: usize = 0;
    while i < reply.deployments.len()
        invariant
            i <= reply.deployments.len(),
            want == units_of(reply.deep_view()),
            out.deep_view() == want.take(i as int),
        decreases reply.deployments.len() - i,
    {
        let ghost before = out.deep_view();
        let d = &reply.deployments[i];
        let e = (d.deployment_id.clone(), d.unit_name.clone());
        assert(reply.deep_view().deployments[i as int] == d.deep_view());
        assert(e.deep_view() == want[i as int]);
        out.push(e);
        assert(out.deep_view() == before.push(e.deep_view()));
        i = i + 1;
    }
    assert(want.take(i as int) == want);
    out
}

/// The tasks that the server's answer asks for, given this agent's version.
pub fn plan_tasks(reply: &PollResp, version: &str) -> (r: Vec<Task>)
    ensures
        r.deep_view() == plan(reply.deep_view(), version@),
{
    let ghost v = reply.deep_view();
    let ghost fb = |b: wire::BindingJobView| write_tasks(b);
    let ghost fd = |d: wire::DeploymentJobInView| deploy_tasks(d);
    let mut out: Vec<Task> = Vec::new();
    let mut i: usize = 0;
    assert(out.deep_view() == collect(v.bindings.take(0), fb));
    while i < reply.bindings.len()
        invariant
            i <= reply.bindings.len(),
            v == reply.deep_view(),
            fb == (|b: wire::BindingJobView| write_tasks(b)),
            out.deep_view() == collect(v.bindings.take(i as int), fb),
        decreases reply.bindings.len() - i,
    {
        proof {
            lemma_collect_step(v.bindings, fb, i as int);
        }
        push_write_task(&mut out, &reply.bindings[i]);
        i = i + 1;
    }
    assert(v.bindings.take(i as int) == v.bindings);
    let ghost writes = out.deep_view();
    let mut k: usize = 0;
    assert(writes + collect(v.deployments.take(0), fd) == writes);
    while k < reply.deployments.len()
        invariant
            k <= reply.deployments.len(),
            v == reply.deep_view(),
            fd == (|d: wire::DeploymentJobInView| deploy_tasks(d)),
            out.deep_view() == writes + collect(v.deployments.take(k as int), fd),
        decreases reply.deployments.len() - k,
    {
        let ghost before = collect(v.deployments.take(k as int), fd);
        proof {
            lemma_collect_step(v.deployments, fd, k as int);
        }
        push_deploy_task(&mut out, &reply.deployments[k]);
        assert(writes + before + deploy_tasks(v.deployments[k as int]) == writes + (before
            + deploy_tasks(v.deployments[k as int])));
        k = k + 1;
    }
    assert(v.deployments.take(k as int) == v.deployments);
    push_log_task(&mut out, &reply.logs);
    let ghost before_browse = out.deep_view();
    if let Some(b) = &reply.browse {
        out.push(browse_task(b));
    }
    assert(out.deep_view() == before_browse + browse_tasks(v.browse));
    let ghost before_keep = out.deep_view();
    out.push(Task::Reconcile { bindings: listed_bindings(reply), units: listed_units(reply) });
    out.push(Task::SwitchUrl(reply.server_url.clone()));
    out.push(Task::SyncInterval(reply.poll_interval_secs));
    assert(out.deep_view() == before_keep + keep_tasks(v));
    let ghost before_upgrade = out.deep_view();
    if let Some(up) = &reply.upgrade {
        if !text::same(up.version.as_str(), version) {
            out.push(Task::Upgrade { url: up.url.clone(), version: up.version.clone() });
        }
    }
    assert(out.deep_view() == before_upgrade + upgrade_tasks(v.upgrade, version@));
    out
}

/// Where each element gives one result or none, those that give one are the ones
/// that are collected.
pub proof fn lemma_collect_filter<A, B>(
    s: Seq<A>,
    f: spec_fn(A) -> Seq<B>,
    keep: spec_fn(A) -> bool,
    g: spec_fn(A) -> B,
)
    requires
        forall|x: A| #[trigger]
            f(x) == (if keep(x) {
                seq![g(x)]
            } else {
                seq![]
            }),
    ensures
        collect(s, f) == s.filter(keep).map_values(g),
    decreases s.len(),
{
    reveal(Seq::filter);
    if s.len() > 0 {
        let front = s.drop_last();
        lemma_collect_filter(front, f, keep, g);
        assert(collect(s, f) == collect(front, f) + f(s.last()));
        if keep(s.last()) {
            assert(s.filter(keep) == front.filter(keep).push(s.last()));
        }
    }
    assert(collect(s, f) == s.filter(keep).map_values(g));
}

/// What an answer asks for, all of it and nothing else, in this order: one task for
/// each binding with a write job, one for each deployment with a job, one for the log
/// request and one for the browse request, the three that keep what the server said,
/// and one for an upgrade to another version.
pub proof fn law_plan(r: wire::PollRespView, version: Seq<char>)
    ensures
        ({
            let pl = plan(r, version);
            let writes = r.bindings.filter(
                |b: wire::BindingJobView| b.job is Some && b.job->0.job_type == "write"@,
            );
            let jobs = r.deployments.filter(|d: wire::DeploymentJobInView| d.job is Some);
            let w = writes.len() as int;
            let d = w + jobs.len();
            let l = d + (if r.logs is Some {
                1int
            } else {
                0
            });
            let k = l + (if r.browse is Some {
                1int
            } else {
                0
            });
            let up = r.upgrade is Some && r.upgrade->0.version != version;
            &&& pl.len() == k + (if up {
                4int
            } else {
                3
            })
            &&& forall|i: int|
                0 <= i < w ==> #[trigger] pl[i] == (if writes[i].job->0.file_path.len() > 0 {
                    TaskView::Write {
                        app_name: writes[i].app_name,
                        path: writes[i].job->0.file_path,
                        values: writes[i].job->0.values,
                    }
                } else if writes[i].file_path.len() > 0 {
                    TaskView::Write {
                        app_name: writes[i].app_name,
                        path: writes[i].file_path,
                        values: writes[i].job->0.values,
                    }
                } else {
                    TaskView::Tell(NoticeView::NoFilePath { app_name: writes[i].app_name })
                })
            &&& forall|i: int|
                w <= i < d ==> {
                    let id = jobs[i - w].deployment_id;
                    let job = jobs[i - w].job->0;
                    &&& job.action == "deploy"@ ==> #[trigger] pl[i] == (TaskView::Deploy {
                        deployment_id: id,
                        spec: deploy::DeploySpecView {
                            version: job.version,
                            signed_url: job.signed_url,
                            kind: job.kind,
                            run_cmd: job.run_cmd,
                            prepare_cmd: job.prepare_cmd,
                            deploy_root: job.deploy_root,
                            unit_name: job.unit_name,
                            env_file: job.env_file,
                            env_values: job.env_values,
                        },
                    })
                    &&& job.action == "restart"@ ==> pl[i] == (TaskView::Restart {
                        deployment_id: id,
                        unit_name: job.unit_name,
                    })
                    &&& job.action == "stop"@ ==> pl[i] == (TaskView::Stop {
                        deployment_id: id,
                        unit_name: job.unit_name,
                    })
                    &&& job.action != "deploy"@ && job.action != "restart"@ && job.action
                        != "stop"@ ==> pl[i] == TaskView::Tell(
                        NoticeView::UnknownAction { action: job.action },
                    )
                }
            &&& r.logs matches Some(q) ==> pl[d] == (TaskView::FetchLogs {
                request_id: q.request_id,
                unit_name: q.unit_name,
                lines: if q.lines > 0 {
                    q.lines
                } else {
                    200
                },
            })
            &&& r.browse matches Some(q) ==> {
                let create = if q.action is Some && q.name is Some {
                    browse::creation(q.path, q.action->0, q.name->0)
                } else {
                    None
                };
                &&& create matches Some(action) ==> pl[l] == (TaskView::Create {
                    path: q.path,
                    request_id: q.request_id,
                    action,
                })
                &&& create is None ==> pl[l] == (TaskView::List {
                    path: q.path,
                    request_id: q.request_id,
                    error: if q.action is Some && q.name is Some {
                        browse::unknown_action(q.action->0)
                    } else {
                        seq![]
                    },
                })
            }
            &&& pl[k] == (TaskView::Reconcile {
                bindings: Seq::new(
                    r.bindings.len(),
                    |i: int|
                        config::BindingView {
                            binding_id: r.bindings[i].binding_id,
                            app_name: r.bindings[i].app_name,
                            file_path: r.bindings[i].file_path,
                        },
                ),
                units: Seq::new(
                    r.deployments.len(),
                    |i: int| (r.deployments[i].deployment_id, r.deployments[i].unit_name),
                ),
            })
            &&& pl[k + 1] == TaskView::SwitchUrl(r.server_url)
            &&& pl[k + 2] == TaskView::SyncInterval(r.poll_interval_secs)
            &&& up ==> pl[k + 3] == (TaskView::Upgrade {
                url: r.upgrade->0.url,
                version: r.upgrade->0.version,
            })
        }),
{
    reveal_strlit("deploy");
    reveal_strlit("restart");
    reveal_strlit("stop");
    assert("deploy"@[0] == 'd' && "restart"@[0] == 'r' && "stop"@[0] == 's');
    let fb = |b: wire::BindingJobView| write_tasks(b);
    let keep = |b: wire::BindingJobView| b.job is Some && b.job->0.job_type == "write"@;
    lemma_collect_filter(
        r.bindings,
        fb,
        keep,
        |b: wire::BindingJobView| write_tasks(b)[0],
    );
    let fd = |d: wire::DeploymentJobInView| deploy_tasks(d);
    let has_job = |d: wire::DeploymentJobInView| d.job is Some;
    lemma_collect_filter(
        r.deployments,
        fd,
        has_job,
        |d: wire::DeploymentJobInView| deploy_tasks(d)[0],
    );
    let pl = plan(r, version);
    let writes = r.bindings.filter(keep);
    let jobs = r.deployments.filter(has_job);
    let w = writes.len() as int;
    let d = w + jobs.len();
    let l = d + log_tasks(r.logs).len();
    let k = l + browse_tasks(r.browse).len();
    assert forall|i: int| 0 <= i < w implies pl[i] == write_tasks(writes[i])[0] && keep(
        #[trigger] writes[i],
    ) by {
        r.bindings.lemma_filter_pred(keep, i);
    }
    assert forall|i: int| 0 <= i < jobs.len() implies pl[w + i] == deploy_tasks(jobs[i])[0]
        && has_job(#[trigger] jobs[i]) by {
        r.deployments.lemma_filter_pred(has_job, i);
    }
    assert forall|i: int| w <= i < d implies #[trigger] pl[i] == deploy_tasks(jobs[i - w])[0]
        && has_job(jobs[i - w]) by {
        assert(pl[w + (i - w)] == deploy_tasks(jobs[i - w])[0]);
    }
    if r.logs is Some {
        assert(pl[d] == log_tasks(r.logs)[0]);
    }
    if r.browse is Some {
        assert(pl[l] == browse_tasks(r.browse)[0]);
    }
    assert(bindings_of(r) == Seq::new(
        r.bindings.len(),
        |i: int|
            config::BindingView {
                binding_id: r.bindings[i].binding_id,
                app_name: r.bindings[i].app_name,
                file_path: r.bindings[i].file_path,
            },
    ));
    assert(units_of(r) == Seq::new(
        r.deployments.len(),
        |i: int| (r.deployments[i].deployment_id, r.deployments[i].unit_name),
    ));
    assert(pl[k] == keep_tasks(r)[0]);
    assert(pl[k + 1] == keep_tasks(r)[1]);
    assert(pl[k + 2] == keep_tasks(r)[2]);
    if r.upgrade is Some && r.upgrade->0.version != version {
        assert(pl[k + 3] == upgrade_tasks(r.upgrade, version)[0]);
    }
}

/// What a poll begins with: it reads the file of each binding that has one, looks up
/// each deployment, in order, and sends the report.
pub proof fn law_opening(cfg: config::ConfigView)
    ensures
        ({
            let o = opening(cfg);
            let files = cfg.bindings.filter(|b: config::BindingView| b.file_path.len() > 0);
            let n = files.len() as int;
            &&& o.len() == n + cfg.deployments.len() + 1
            &&& forall|i: int|
                0 <= i < n ==> #[trigger] o[i] == (TaskView::Snapshot {
                    binding_id: files[i].binding_id,
                    path: files[i].file_path,
                })
            &&& forall|i: int|
                n <= i < o.len() - 1 ==> #[trigger] o[i] == (TaskView::Probe {
                    deployment_id: cfg.deployments[i - n].deployment_id,
                    unit_name: cfg.deployments[i - n].unit_name,
                    version: cfg.deployments[i - n].version,
                })
            &&& o.last() == TaskView::Post
        }),
{
    let keep = |b: config::BindingView| b.file_path.len() > 0;
    lemma_collect_filter(
        cfg.bindings,
        |b: config::BindingView| snapshot_tasks(b),
        keep,
        |b: config::BindingView|
            TaskView::Snapshot { binding_id: b.binding_id, path: b.file_path },
    );
    let fd = |d: config::DeployRecordView| probe_tasks(d);
    lemma_collect_all(cfg.deployments, fd, |d: config::DeployRecordView| probe_tasks(d)[0]);
    let files = cfg.bindings.filter(keep);
    let n = files.len() as int;
    let o = opening(cfg);
    assert forall|i: int| n <= i < o.len() - 1 implies #[trigger] o[i] == probe_tasks(
        cfg.deployments[i - n],
    )[0] by {}
}

/// Where each element gives one result, these are the ones that are collected.
proof fn lemma_collect_all<A, B>(s: Seq<A>, f: spec_fn(A) -> Seq<B>, g: spec_fn(A) -> B)
    requires
        forall|x: A| #[trigger] f(x) == seq![g(x)],
    ensures
        collect(s, f) == s.map_values(g),
    decreases s.len(),
{
    if s.len() > 0 {
        lemma_collect_all(s.drop_last(), f, g);
    }
    assert(collect(s, f) == s.map_values(g));
}

/// An error says what went wrong, with the words of whoever reported it.
pub proof fn law_error_messages(a: Seq<char>, b: Seq<char>)
    ensures
        error_message(PollErrorView::Request(a)) == "poll request failed: "@ + a,
        error_message(PollErrorView::Unauthorized)
            == "server rejected token \u{2014} re-enroll with `sglaz -connect <code>`"@,
        error_message(PollErrorView::Status(a)) == "poll returned status "@ + a,
        error_message(PollErrorView::Reply(a)) == "unexpected poll response: "@ + a,
        error_message(PollErrorView::Write { path: a, cause: b }) == "writing "@ + (a + (": "@
            + b)),
        error_message(PollErrorView::Upgrade(a)) == a,
{
}

} // verus!
