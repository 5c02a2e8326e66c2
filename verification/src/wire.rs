//! The messages that the agent and the server exchange, as plain values.
use crate::envfile::EnvVar;
use vstd::prelude::*;

verus! {

/// Whether an HTTP status code stands for success.
pub open spec fn success_code(code: u16) -> bool {
    200 <= code < 300
}

/// The codes from 200 to 299 stand for success, and no others.
pub proof fn law_success_codes(code: u16)
    ensures
        success_code(code) <==> 200 <= code <= 299,
{
}

/// Whether an HTTP status code stands for success.
pub fn is_success(code: u16) -> (r: bool)
    ensures
        r == success_code(code),
{
    200 <= code && code < 300
}

/// What a machine says of itself when it enrolls.
#[derive(Debug, PartialEq, Eq)]
pub struct EnrollReq {
    pub code: String,
    pub hostname: String,
    pub os: String,
    pub arch: String,
    pub version: String,
}

/// What a [`EnrollReq`] holds.
#[verifier::ext_equal]
pub struct EnrollReqView {
    pub code: Seq<char>,
    pub hostname: Seq<char>,
    pub os: Seq<char>,
    pub arch: Seq<char>,
    pub version: Seq<char>,
}

impl DeepView for EnrollReq {
    type V = EnrollReqView;

    open spec fn deep_view(&self) -> EnrollReqView {
        EnrollReqView {
            code: self.code@,
            hostname: self.hostname@,
            os: self.os@,
            arch: self.arch@,
            version: self.version@,
        }
    }
}

impl Clone for EnrollReq {
    fn clone(&self) -> (r: Self)
        ensures
            r.deep_view() == self.deep_view(),
    {
        EnrollReq {
            code: self.code.clone(),
            hostname: self.hostname.clone(),
            os: self.os.clone(),
            arch: self.arch.clone(),
            version: self.version.clone(),
        }
    }
}

/// The identity that the server hands out in return.
#[derive(Debug, PartialEq, Eq)]
pub struct EnrollResp {
    pub token: String,
    pub client_id: String,
    pub name: String,
    pub poll_interval_secs: u64,
}

/// What a [`EnrollResp`] holds.
#[verifier::ext_equal]
pub struct EnrollRespView {
    pub token: Seq<char>,
    pub client_id: Seq<char>,
    pub name: Seq<char>,
    pub poll_interval_secs: u64,
}

impl DeepView for EnrollResp {
    type V = EnrollRespView;

    open spec fn deep_view(&self) -> EnrollRespView {
        EnrollRespView {
            token: self.token@,
            client_id: self.client_id@,
            name: self.name@,
            poll_interval_secs: self.poll_interval_secs,
        }
    }
}

impl Clone for EnrollResp {
    fn clone(&self) -> (r: Self)
        ensures
            r.deep_view() == self.deep_view(),
    {
        EnrollResp {
            token: self.token.clone(),
            client_id: self.client_id.clone(),
            name: self.name.clone(),
            poll_interval_secs: self.poll_interval_secs,
        }
    }
}

/// The current contents of one binding's file.
#[derive(Debug, PartialEq, Eq)]
pub struct SnapshotReport {
    pub binding_id: String,
    pub snapshot: Vec<EnvVar>,
}

/// What a [`SnapshotReport`] holds.
#[verifier::ext_equal]
pub struct SnapshotReportView {
    pub binding_id: Seq<char>,
    pub snapshot: Seq<crate::envfile::EnvVarView>,
}

impl DeepView for SnapshotReport {
    type V = SnapshotReportView;

    open spec fn deep_view(&self) -> SnapshotReportView {
        SnapshotReportView {
            binding_id: self.binding_id@,
            snapshot: self.snapshot.deep_view(),
        }
    }
}

impl Clone for SnapshotReport {
    fn clone(&self) -> (r: Self)
        ensures
            r.deep_view() == self.deep_view(),
    {
        SnapshotReport {
            binding_id: self.binding_id.clone(),
            snapshot: self.snapshot.clone(),
        }
    }
}

/// The live state and running version of one deployment.
#[derive(Debug, PartialEq, Eq)]
pub struct DeployReport {
    pub deployment_id: String,
    pub state: String,
    pub version: String,
    pub error: String,
}

/// What a [`DeployReport`] holds.
#[verifier::ext_equal]
pub struct DeployReportView {
    pub deployment_id: Seq<char>,
    pub state: Seq<char>,
    pub version: Seq<char>,
    pub error: Seq<char>,
}

impl DeepView for DeployReport {
    type V = DeployReportView;

    open spec fn deep_view(&self) -> DeployReportView {
        DeployReportView {
            deployment_id: self.deployment_id@,
            state: self.state@,
            version: self.version@,
            error: self.error@,
        }
    }
}

impl Clone for DeployReport {
    fn clone(&self) -> (r: Self)
        ensures
            r.deep_view() == self.deep_view(),
    {
        DeployReport {
            deployment_id: self.deployment_id.clone(),
            state: self.state.clone(),
            version: self.version.clone(),
            error: self.error.clone(),
        }
    }
}

/// The report that opens a poll.
#[derive(Debug, PartialEq, Eq)]
pub struct PollReq {
    pub version: String,
    pub arch: String,
    pub server_url: String,
    pub snapshots: Vec<SnapshotReport>,
    pub deployments: Vec<DeployReport>,
}

/// What a [`PollReq`] holds.
#[verifier::ext_equal]
pub struct PollReqView {
    pub version: Seq<char>,
    pub arch: Seq<char>,
    pub server_url: Seq<char>,
    pub snapshots: Seq<SnapshotReportView>,
    pub deployments: Seq<DeployReportView>,
}

impl DeepView for PollReq {
    type V = PollReqView;

    open spec fn deep_view(&self) -> PollReqView {
        PollReqView {
            version: self.version@,
            arch: self.arch@,
            server_url: self.server_url@,
            snapshots: self.snapshots.deep_view(),
            deployments: self.deployments.deep_view(),
        }
    }
}

impl Clone for PollReq {
    fn clone(&self) -> (r: Self)
        ensures
            r.deep_view() == self.deep_view(),
    {
        PollReq {
            version: self.version.clone(),
            arch: self.arch.clone(),
            server_url: self.server_url.clone(),
            snapshots: self.snapshots.clone(),
            deployments: self.deployments.clone(),
        }
    }
}

/// A queued sync for one binding.
#[derive(Debug, PartialEq, Eq)]
pub struct Job {
    pub job_type: String,
    pub file_path: String,
    pub values: Vec<EnvVar>,
}

/// What a [`Job`] holds.
#[verifier::ext_equal]
pub struct JobView {
    pub job_type: Seq<char>,
    pub file_path: Seq<char>,
    pub values: Seq<crate::envfile::EnvVarView>,
}

impl DeepView for Job {
    type V = JobView;

    open spec fn deep_view(&self) -> JobView {
        JobView {
            job_type: self.job_type@,
            file_path: self.file_path@,
            values: self.values.deep_view(),
        }
    }
}

impl Clone for Job {
    fn clone(&self) -> (r: Self)
        ensures
            r.deep_view() == self.deep_view(),
    {
        Job {
            job_type: self.job_type.clone(),
            file_path: self.file_path.clone(),
            values: self.values.clone(),
        }
    }
}

/// One binding of this agent, with the job queued for it, if any.
#[derive(Debug, PartialEq, Eq)]
pub struct BindingJob {
    pub binding_id: String,
    pub app_name: String,
    pub file_path: String,
    pub job: Option<Job>,
}

/// What a [`BindingJob`] holds.
#[verifier::ext_equal]
pub struct BindingJobView {
    pub binding_id: Seq<char>,
    pub app_name: Seq<char>,
    pub file_path: Seq<char>,
    pub job: Option<JobView>,
}

impl DeepView for BindingJob {
    type V = BindingJobView;

    open spec fn deep_view(&self) -> BindingJobView {
        BindingJobView {
            binding_id: self.binding_id@,
            app_name: self.app_name@,
            file_path: self.file_path@,
            job: self.job.deep_view(),
        }
    }
}

impl Clone for BindingJob {
    fn clone(&self) -> (r: Self)
        ensures
            r.deep_view() == self.deep_view(),
    {
        BindingJob {
            binding_id: self.binding_id.clone(),
            app_name: self.app_name.clone(),
            file_path: self.file_path.clone(),
            job: self.job.clone(),
        }
    }
}

/// A version of the agent to switch to, and where to get it.
#[derive(Debug, PartialEq, Eq)]
pub struct Upgrade {
    pub version: String,
    pub url: String,
}

/// What a [`Upgrade`] holds.
#[verifier::ext_equal]
pub struct UpgradeView {
    pub version: Seq<char>,
    pub url: Seq<char>,
}

impl DeepView for Upgrade {
    type V = UpgradeView;

    open spec fn deep_view(&self) -> UpgradeView {
        UpgradeView {
            version: self.version@,
            url: self.url@,
        }
    }
}

impl Clone for Upgrade {
    fn clone(&self) -> (r: Self)
        ensures
            r.deep_view() == self.deep_view(),
    {
        Upgrade {
            version: self.version.clone(),
            url: self.url.clone(),
        }
    }
}

/// A queued action for one deployment.
#[derive(Debug, PartialEq, Eq)]
pub struct DeployJobIn {
    pub action: String,
    pub version: String,
    pub signed_url: String,
    pub kind: String,
    pub run_cmd: String,
    pub prepare_cmd: String,
    pub deploy_root: String,
    pub unit_name: String,
    pub env_file: String,
    pub env_values: Vec<EnvVar>,
}

/// What a [`DeployJobIn`] holds.
#[verifier::ext_equal]
pub struct DeployJobInView {
    pub action: Seq<char>,
    pub version: Seq<char>,
    pub signed_url: Seq<char>,
    pub kind: Seq<char>,
    pub run_cmd: Seq<char>,
    pub prepare_cmd: Seq<char>,
    pub deploy_root: Seq<char>,
    pub unit_name: Seq<char>,
    pub env_file: Seq<char>,
    pub env_values: Seq<crate::envfile::EnvVarView>,
}

impl DeepView for DeployJobIn {
    type V = DeployJobInView;

    open spec fn deep_view(&self) -> DeployJobInView {
        DeployJobInView {
            action: self.action@,
            version: self.version@,
            signed_url: self.signed_url@,
            kind: self.kind@,
            run_cmd: self.run_cmd@,
            prepare_cmd: self.prepare_cmd@,
            deploy_root: self.deploy_root@,
            unit_name: self.unit_name@,
            env_file: self.env_file@,
            env_values: self.env_values.deep_view(),
        }
    }
}

impl Clone for DeployJobIn {
    fn clone(&self) -> (r: Self)
        ensures
            r.deep_view() == self.deep_view(),
    {
        DeployJobIn {
            action: self.action.clone(),
            version: self.version.clone(),
            signed_url: self.signed_url.clone(),
            kind: self.kind.clone(),
            run_cmd: self.run_cmd.clone(),
            prepare_cmd: self.prepare_cmd.clone(),
            deploy_root: self.deploy_root.clone(),
            unit_name: self.unit_name.clone(),
            env_file: self.env_file.clone(),
            env_values: self.env_values.clone(),
        }
    }
}

/// One deployment of this agent, with the action queued for it, if any.
#[derive(Debug, PartialEq, Eq)]
pub struct DeploymentJobIn {
    pub deployment_id: String,
    pub unit_name: String,
    pub job: Option<DeployJobIn>,
}

/// What a [`DeploymentJobIn`] holds.
#[verifier::ext_equal]
pub struct DeploymentJobInView {
    pub deployment_id: Seq<char>,
    pub unit_name: Seq<char>,
    pub job: Option<DeployJobInView>,
}

impl DeepView for DeploymentJobIn {
    type V = DeploymentJobInView;

    open spec fn deep_view(&self) -> DeploymentJobInView {
        DeploymentJobInView {
            deployment_id: self.deployment_id@,
            unit_name: self.unit_name@,
            job: self.job.deep_view(),
        }
    }
}

impl Clone for DeploymentJobIn {
    fn clone(&self) -> (r: Self)
        ensures
            r.deep_view() == self.deep_view(),
    {
        DeploymentJobIn {
            deployment_id: self.deployment_id.clone(),
            unit_name: self.unit_name.clone(),
            job: self.job.clone(),
        }
    }
}

/// A request for the tail of a unit's journal.
#[derive(Debug, PartialEq, Eq)]
pub struct LogReqIn {
    pub request_id: String,
    pub unit_name: String,
    pub lines: u32,
}

/// What a [`LogReqIn`] holds.
#[verifier::ext_equal]
pub struct LogReqInView {
    pub request_id: Seq<char>,
    pub unit_name: Seq<char>,
    pub lines: u32,
}

impl DeepView for LogReqIn {
    type V = LogReqInView;

    open spec fn deep_view(&self) -> LogReqInView {
        LogReqInView {
            request_id: self.request_id@,
            unit_name: self.unit_name@,
            lines: self.lines,
        }
    }
}

impl Clone for LogReqIn {
    fn clone(&self) -> (r: Self)
        ensures
            r.deep_view() == self.deep_view(),
    {
        LogReqIn {
            request_id: self.request_id.clone(),
            unit_name: self.unit_name.clone(),
            lines: self.lines,
        }
    }
}

/// The answer to a [`LogReqIn`].
#[derive(Debug, PartialEq, Eq)]
pub struct LogResultOut {
    pub request_id: String,
    pub text: String,
    pub error: String,
}

/// What a [`LogResultOut`] holds.
#[verifier::ext_equal]
pub struct LogResultOutView {
    pub request_id: Seq<char>,
    pub text: Seq<char>,
    pub error: Seq<char>,
}

impl DeepView for LogResultOut {
    type V = LogResultOutView;

    open spec fn deep_view(&self) -> LogResultOutView {
        LogResultOutView {
            request_id: self.request_id@,
            text: self.text@,
            error: self.error@,
        }
    }
}

impl Clone for LogResultOut {
    fn clone(&self) -> (r: Self)
        ensures
            r.deep_view() == self.deep_view(),
    {
        LogResultOut {
            request_id: self.request_id.clone(),
            text: self.text.clone(),
            error: self.error.clone(),
        }
    }
}

/// A request to list a directory.
#[derive(Debug, PartialEq, Eq)]
pub struct BrowseReq {
    pub request_id: String,
    pub path: String,
    /// Optional create-then-list action: "mkdir" or "touch".
    pub action: Option<String>,
    /// Bare name of the folder/file to create (no path separators).
    pub name: Option<String>,
}

/// What a [`BrowseReq`] holds.
#[verifier::ext_equal]
pub struct BrowseReqView {
    pub request_id: Seq<char>,
    pub path: Seq<char>,
    pub action: Option<Seq<char>>,
    pub name: Option<Seq<char>>,
}

impl DeepView for BrowseReq {
    type V = BrowseReqView;

    open spec fn deep_view(&self) -> BrowseReqView {
        BrowseReqView {
            request_id: self.request_id@,
            path: self.path@,
            action: self.action.deep_view(),
            name: self.name.deep_view(),
        }
    }
}

impl Clone for BrowseReq {
    fn clone(&self) -> (r: Self)
        ensures
            r.deep_view() == self.deep_view(),
    {
        BrowseReq {
            request_id: self.request_id.clone(),
            path: self.path.clone(),
            action: self.action.clone(),
            name: self.name.clone(),
        }
    }
}

/// One entry of a listed directory.
#[derive(Debug, PartialEq, Eq)]
pub struct BrowseEntryOut {
    pub name: String,
    pub dir: bool,
    pub path: String,
}

/// What a [`BrowseEntryOut`] holds.
#[verifier::ext_equal]
pub struct BrowseEntryOutView {
    pub name: Seq<char>,
    pub dir: bool,
    pub path: Seq<char>,
}

impl DeepView for BrowseEntryOut {
    type V = BrowseEntryOutView;

    open spec fn deep_view(&self) -> BrowseEntryOutView {
        BrowseEntryOutView {
            name: self.name@,
            dir: self.dir,
            path: self.path@,
        }
    }
}

impl Clone for BrowseEntryOut {
    fn clone(&self) -> (r: Self)
        ensures
            r.deep_view() == self.deep_view(),
    {
        BrowseEntryOut {
            name: self.name.clone(),
            dir: self.dir,
            path: self.path.clone(),
        }
    }
}

/// The answer to a [`BrowseReq`].
#[derive(Debug, PartialEq, Eq)]
pub struct BrowseResultOut {
    pub request_id: String,
    pub path: String,
    pub parent: String,
    pub entries: Vec<BrowseEntryOut>,
    pub error: String,
}

/// What a [`BrowseResultOut`] holds.
#[verifier::ext_equal]
pub struct BrowseResultOutView {
    pub request_id: Seq<char>,
    pub path: Seq<char>,
    pub parent: Seq<char>,
    pub entries: Seq<BrowseEntryOutView>,
    pub error: Seq<char>,
}

impl DeepView for BrowseResultOut {
    type V = BrowseResultOutView;

    open spec fn deep_view(&self) -> BrowseResultOutView {
        BrowseResultOutView {
            request_id: self.request_id@,
            path: self.path@,
            parent: self.parent@,
            entries: self.entries.deep_view(),
            error: self.error@,
        }
    }
}

impl Clone for BrowseResultOut {
    fn clone(&self) -> (r: Self)
        ensures
            r.deep_view() == self.deep_view(),
    {
        BrowseResultOut {
            request_id: self.request_id.clone(),
            path: self.path.clone(),
            parent: self.parent.clone(),
            entries: self.entries.clone(),
            error: self.error.clone(),
        }
    }
}

/// Everything the server wants of this agent, and when to ask again.
#[derive(Debug, PartialEq, Eq)]
pub struct PollResp {
    pub poll_interval_secs: u64,
    pub bindings: Vec<BindingJob>,
    pub deployments: Vec<DeploymentJobIn>,
    pub logs: Option<LogReqIn>,
    pub server_url: String,
    pub upgrade: Option<Upgrade>,
    pub browse: Option<BrowseReq>,
}

/// What a [`PollResp`] holds.
#[verifier::ext_equal]
pub struct PollRespView {
    pub poll_interval_secs: u64,
    pub bindings: Seq<BindingJobView>,
    pub deployments: Seq<DeploymentJobInView>,
    pub logs: Option<LogReqInView>,
    pub server_url: Seq<char>,
    pub upgrade: Option<UpgradeView>,
    pub browse: Option<BrowseReqView>,
}

impl DeepView for PollResp {
    type V = PollRespView;

    open spec fn deep_view(&self) -> PollRespView {
        PollRespView {
            poll_interval_secs: self.poll_interval_secs,
            bindings: self.bindings.deep_view(),
            deployments: self.deployments.deep_view(),
            logs: self.logs.deep_view(),
            server_url: self.server_url@,
            upgrade: self.upgrade.deep_view(),
            browse: self.browse.deep_view(),
        }
    }
}

impl Clone for PollResp {
    fn clone(&self) -> (r: Self)
        ensures
            r.deep_view() == self.deep_view(),
    {
        PollResp {
            poll_interval_secs: self.poll_interval_secs,
            bindings: self.bindings.clone(),
            deployments: self.deployments.clone(),
            logs: self.logs.clone(),
            server_url: self.server_url.clone(),
            upgrade: self.upgrade.clone(),
            browse: self.browse.clone(),
        }
    }
}

} // verus!
