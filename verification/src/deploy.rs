//! Deployment: download a release artifact into a versioned directory, keep the
//! env in `<root>/shared`, point `<root>/current` at the release, and run it as a
//! supervised systemd service. Stop and restart just drive systemctl.
//!
//! Layout maintained on the machine:
//!
//! ```text
//! <root>/releases/<version>/   the downloaded (and, for archives, extracted) build
//! <root>/shared/<env>          the .env, written by the normal env sync
//! <root>/current -> releases/<version>
//! ```
//!
//! This module decides what is to be done; every step is carried out by the caller.
use crate::archive;
use crate::envfile;
use crate::envfile::EnvVar;
use crate::paths;
use crate::text;
use crate::wire;
use vstd::prelude::*;

verus! {

/// A fully-resolved deploy action from the server.
#[derive(Debug, PartialEq, Eq)]
pub struct DeploySpec {
    pub version: String,
    pub signed_url: String,
    /// "binary" or "archive".
    pub kind: String,
    pub run_cmd: String,
    pub prepare_cmd: String,
    pub deploy_root: String,
    pub unit_name: String,
    /// Absolute path; systemd loads it into the process.
    pub env_file: String,
    pub env_values: Vec<EnvVar>,
}

/// What a [`DeploySpec`] holds.
#[verifier::ext_equal]
pub struct DeploySpecView {
    pub version: Seq<char>,
    pub signed_url: Seq<char>,
    pub kind: Seq<char>,
    pub run_cmd: Seq<char>,
    pub prepare_cmd: Seq<char>,
    pub deploy_root: Seq<char>,
    pub unit_name: Seq<char>,
    pub env_file: Seq<char>,
    pub env_values: Seq<envfile::EnvVarView>,
}

impl DeepView for DeploySpec {
    type V = DeploySpecView;

    open spec fn deep_view(&self) -> DeploySpecView {
        DeploySpecView {
            version: self.version@,
            signed_url: self.signed_url@,
            kind: self.kind@,
            run_cmd: self.run_cmd@,
            prepare_cmd: self.prepare_cmd@,
            deploy_root: self.deploy_root@,
            unit_name: self.unit_name@,
            env_file: self.env_file@,
            env_values: self.env_values.deep_view(),
        }
    }
}

impl Clone for DeploySpec {
    fn clone(&self) -> (r: Self)
        ensures
            r.deep_view() == self.deep_view(),
    {
        DeploySpec {
            version: self.version.clone(),
            signed_url: self.signed_url.clone(),
            kind: self.kind.clone(),
            run_cmd: self.run_cmd.clone(),
            prepare_cmd: self.prepare_cmd.clone(),
            deploy_root: self.deploy_root.clone(),
            unit_name: self.unit_name.clone(),
            env_file: self.env_file.clone(),
            env_values: self.env_values.clone(),
        }
    }
}

/// Why a deployment action was given up.
#[derive(Debug, PartialEq, Eq)]
pub enum DeployError {
    /// The host does not run systemd.
    NotLinux,
    /// The download was answered with this status.
    DownloadStatus(String),
    /// systemctl, called with these arguments, failed and said this.
    Systemctl { args: Vec<String>, stderr: String },
    /// The prepare command failed with this output.
    Command { stdout: String, stderr: String },
}

/// The text that Rust's `Debug` formatting gives a list of strings.
pub uninterp spec fn debug_list(items: Seq<Seq<char>>) -> Seq<char>;

/// `format!("{:?}", ..)` of a list of strings. The contract names the result: the
/// escaping that `Debug` applies to each string is not spelled out.
#[verifier::external_body]
fn debug_text(items: &Vec<String>) -> (r: String)
    ensures
        r@ == debug_list(items.deep_view()),
{
    format!("{:?}", items)
}

/// The message for the failure of a systemctl call, given its arguments as text.
pub open spec fn systemctl_message(args_text: Seq<char>, stderr: Seq<char>) -> Seq<char> {
    "systemctl "@ + args_text + " failed: "@ + text::trimmed(stderr)
}

/// What an error says.
pub open spec fn error_message(e: DeployError) -> Seq<char> {
    match e {
        DeployError::NotLinux => "deployments are supported only on systemd Linux hosts"@,
        DeployError::DownloadStatus(status) => "download returned status "@ + status@,
        DeployError::Systemctl { args, stderr } => systemctl_message(
            debug_list(args.deep_view()),
            stderr@,
        ),
        DeployError::Command { stdout, stderr } => "command exited non-zero: "@ + text::trimmed(
            stdout@,
        ) + text::trimmed(stderr@),
    }
}

/// The message for the failure of a systemctl call.
pub fn systemctl_failure(args_text: &str, stderr: &str) -> (r: String)
    ensures
        r@ == systemctl_message(args_text@, stderr@),
{
    let mut out = "systemctl ".to_owned();
    out.append(args_text);
    out.append(" failed: ");
    let err = text::trim_str(stderr);
    out.append(err.as_str());
    out
}

impl DeployError {
    /// What the error says.
    pub fn message(&self) -> (r: String)
        ensures
            r@ == error_message(*self),
    {
        match self {
            DeployError::NotLinux => {
                "deployments are supported only on systemd Linux hosts".to_owned()
            },
            DeployError::DownloadStatus(status) => {
                let mut out = "download returned status ".to_owned();
                out.append(status.as_str());
                out
            },
            DeployError::Systemctl { args, stderr } => {
                let args_text = debug_text(args);
                systemctl_failure(args_text.as_str(), stderr.as_str())
            },
            DeployError::Command { stdout, stderr } => {
                let mut out = "command exited non-zero: ".to_owned();
                let so = text::trim_str(stdout.as_str());
                let err = text::trim_str(stderr.as_str());
                out.append(so.as_str());
                out.append(err.as_str());
                out
            },
        }
    }
}

/// Deployments are supported only on systemd Linux hosts.
pub fn require_linux(linux: bool) -> (r: Result<(), DeployError>)
    ensures
        r == (if linux {
            Ok(())
        } else {
            Err(DeployError::NotLinux)
        }),
{
    if !linux {
        return Err(DeployError::NotLinux);
    }
    Ok(())
}

/// Judges the answer to a download by its status.
pub fn check_download(code: u16, status: String) -> (r: Result<(), DeployError>)
    ensures
        r == (if wire::success_code(code) {
            Ok(())
        } else {
            Err(DeployError::DownloadStatus(status))
        }),
{
    if wire::is_success(code) {
        Ok(())
    } else {
        Err(DeployError::DownloadStatus(status))
    }
}

/// Judges a systemctl call by how it ended.
pub fn systemctl(args: Vec<String>, success: bool, stderr: String) -> (r: Result<(), DeployError>)
    ensures
        r == (if success {
            Ok(())
        } else {
            Err(DeployError::Systemctl { args, stderr })
        }),
{
    if success {
        Ok(())
    } else {
        Err(DeployError::Systemctl { args, stderr })
    }
}

/// Judges a prepare command by how it ended.
pub fn run_in(success: bool, stdout: String, stderr: String) -> (r: Result<(), DeployError>)
    ensures
        r == (if success {
            Ok(())
        } else {
            Err(DeployError::Command { stdout, stderr })
        }),
{
    if success {
        Ok(())
    } else {
        Err(DeployError::Command { stdout, stderr })
    }
}

fn two(a: &str, b: &str) -> (r: Vec<String>)
    ensures
        r.deep_view() == seq![a@, b@],
{
    let mut out: Vec<String> = Vec::new();
    out.push(a.to_owned());
    out.push(b.to_owned());
    assert(out.deep_view() == seq![a@, b@]);
    out
}

/// Stop (kill) a deployment's service: the arguments for systemctl.
pub fn stop(unit: &str, linux: bool) -> (r: Result<Vec<String>, DeployError>)
    ensures
        r is Ok <==> linux,
        r matches Ok(args) ==> args.deep_view() == seq!["stop"@, unit@],
        r matches Err(e) ==> e == DeployError::NotLinux,
{
    match require_linux(linux) {
        Ok(_) => Ok(two("stop", unit)),
        Err(e) => Err(e),
    }
}

/// Restart a deployment's service: the arguments for systemctl.
pub fn restart(unit: &str, linux: bool) -> (r: Result<Vec<String>, DeployError>)
    ensures
        r is Ok <==> linux,
        r matches Ok(args) ==> args.deep_view() == seq!["restart"@, unit@],
        r matches Err(e) ==> e == DeployError::NotLinux,
{
    match require_linux(linux) {
        Ok(_) => Ok(two("restart", unit)),
        Err(e) => Err(e),
    }
}

/// A unit's state, from what `systemctl is-active` printed (`None` if it could
/// not be run).
pub open spec fn unit_state(linux: bool, output: Option<Seq<char>>) -> Seq<char> {
    match output {
        Some(o) if linux => {
            let word = text::trimmed(o);
            if word == "active"@ || word == "activating"@ {
                "running"@
            } else if word == "failed"@ {
                "crashed"@
            } else if word == "inactive"@ || word == "deactivating"@ {
                "stopped"@
            } else {
                "unknown"@
            }
        },
        _ => "unknown"@,
    }
}

/// Report a unit's state as one of running|stopped|crashed|unknown.
pub fn state(linux: bool, output: Option<&str>) -> (r: String)
    ensures
        r@ == unit_state(linux, output.deep_view()),
{
    if !linux {
        return "unknown".to_owned();
    }
    match output {
        Some(o) => {
            let word = text::trim_str(o);
            if text::same(word.as_str(), "active") || text::same(word.as_str(), "activating") {
                "running".to_owned()
            } else if text::same(word.as_str(), "failed") {
                "crashed".to_owned()
            } else if text::same(word.as_str(), "inactive") || text::same(
                word.as_str(),
                "deactivating",
            ) {
                "stopped".to_owned()
            } else {
                "unknown".to_owned()
            }
        },
        None => "unknown".to_owned(),
    }
}

/// A reported state is always one of the four that the server knows.
pub proof fn law_state_is_known(linux: bool, output: Option<Seq<char>>)
    ensures
        ({
            let s = unit_state(linux, output);
            s == "running"@ || s == "stopped"@ || s == "crashed"@ || s == "unknown"@
        }),
{
}

/// The arguments for journalctl that fetch the last `lines` lines of `unit`.
pub open spec fn journal_args(unit: Seq<char>, lines: u32) -> Seq<Seq<char>> {
    seq![
        "-u"@,
        unit,
        "-n"@,
        text::decimal(lines as nat),
        "--no-pager"@,
        "--output=short-iso"@,
    ]
}

/// Fetch the last `lines` of a unit's journal: the arguments for journalctl.
pub fn logs(unit: &str, lines: u32, linux: bool) -> (r: Result<Vec<String>, DeployError>)
    ensures
        r is Ok <==> linux,
        r matches Ok(args) ==> args.deep_view() == journal_args(unit@, lines),
        r matches Err(e) ==> e == DeployError::NotLinux,
{
    match require_linux(linux) {
        Ok(_) => {
            let mut out: Vec<String> = Vec::new();
            out.push("-u".to_owned());
            out.push(unit.to_owned());
            out.push("-n".to_owned());
            out.push(text::decimal_of(lines));
            out.push("--no-pager".to_owned());
            out.push("--output=short-iso".to_owned());
            assert(out.deep_view() == journal_args(unit@, lines));
            Ok(out)
        },
        Err(e) => Err(e),
    }
}

/// What is shown for a journal: what journalctl printed, and its complaint if it
/// failed with one.
pub open spec fn journal(stdout: Seq<char>, success: bool, stderr: Seq<char>) -> Seq<char> {
    if success || text::trimmed(stderr).len() == 0 {
        stdout
    } else {
        stdout + "\n[journalctl] "@ + text::trimmed(stderr)
    }
}

/// The text to show for a journal, from how journalctl ended.
pub fn journal_text(stdout: String, success: bool, stderr: &str) -> (r: String)
    ensures
        r@ == journal(stdout@, success, stderr@),
{
    let mut out = stdout;
    if !success {
        let err = text::trim_str(stderr);
        if !err.as_str().is_empty() {
            out.append("\n[journalctl] ");
            out.append(err.as_str());
        }
    }
    out
}

/// A character that a version keeps when it becomes a directory name.
pub open spec fn safe_char(c: char) -> bool {
    ||| 'a' <= c <= 'z'
    ||| 'A' <= c <= 'Z'
    ||| '0' <= c <= '9'
    ||| c == '.'
    ||| c == '-'
    ||| c == '_'
}

/// `version` with every other character replaced by `_`.
pub open spec fn replaced(version: Seq<char>) -> Seq<char> {
    version.map_values(
        |c: char|
            if safe_char(c) {
                c
            } else {
                '_'
            },
    )
}

/// The directory name for a version: unsafe characters become `_`, and so do the
/// dots of a name that would stand for a directory elsewhere.
pub open spec fn sanitized(version: Seq<char>) -> Seq<char> {
    if version == seq!['.'] {
        seq!['_']
    } else if version == seq!['.', '.'] {
        seq!['_', '_']
    } else {
        replaced(version)
    }
}

/// Guard against path traversal / odd characters in a version string used as a
/// directory name.
pub fn sanitize(version: &str) -> (r: String)
    ensures
        r@ == sanitized(version@),
        r@ != seq!['.'],
        r@ != seq!['.', '.'],
{
    let cs = text::chars_of(version);
    let mut out = String::new();
    proof {
        lemma_not_elsewhere(version@);
    }
    if cs.len() == 1 && cs[0] == '.' {
        assert(version@ == seq!['.']);
        out.push('_');
        assert(out@ == seq!['_']);
        return out;
    }
    if cs.len() == 2 && cs[0] == '.' && cs[1] == '.' {
        assert(version@ == seq!['.', '.']);
        out.push('_');
        out.push('_');
        assert(out@ == seq!['_', '_']);
        return out;
    }
    let mut i: usize = 0;
    while i < cs.len()
        invariant
            i <= cs.len(),
            cs@ == version@,
            out@ == replaced(version@).take(i as int),
        decreases cs.len() - i,
    {
        let c = cs[i];
        if ('a' <= c && c <= 'z') || ('A' <= c && c <= 'Z') || ('0' <= c && c <= '9') || c == '.'
            || c == '-' || c == '_' {
            out.push(c);
        } else {
            out.push('_');
        }
        i = i + 1;
    }
    assert(replaced(version@).take(i as int) == replaced(version@));
    out
}

proof fn lemma_not_elsewhere(version: Seq<char>)
    ensures
        sanitized(version) != seq!['.'],
        sanitized(version) != seq!['.', '.'],
{
    let r = replaced(version);
    let s = sanitized(version);
    if s == seq!['.'] {
        assert(s[0] == '.');
        assert(version =~= seq!['.']);
    }
    if s == seq!['.', '.'] {
        assert(s[0] == '.' && s[1] == '.');
        assert(version =~= seq!['.', '.']);
    }
}

/// A sanitized version holds only safe characters, so no separator among them, is
/// none of the names that stand for a directory elsewhere, and sanitizing it again
/// changes nothing.
pub proof fn law_sanitized_is_safe(version: Seq<char>)
    ensures
        forall|i: int| 0 <= i < sanitized(version).len() ==> safe_char(#[trigger] sanitized(version)[i]),
        !sanitized(version).contains('/'),
        sanitized(version) != seq!['.'],
        sanitized(version) != seq!['.', '.'],
        sanitized(sanitized(version)) == sanitized(version),
{
    let s = sanitized(version);
    assert forall|i: int| 0 <= i < s.len() implies safe_char(#[trigger] s[i]) by {}
    if s.contains('/') {
        let i = choose|i: int| 0 <= i < s.len() && s[i] == '/';
        assert(safe_char(s[i]));
    }
    lemma_not_elsewhere(version);
    assert(replaced(s) == s);
}

/// The directory that a release of `version` lives in.
pub open spec fn release_dir(root: Seq<char>, version: Seq<char>) -> Seq<char> {
    paths::joined(paths::joined(root, "releases"@), sanitized(version))
}

/// A release directory is a direct child of `<root>/releases`, whatever the
/// server calls the version, if only it calls it something.
pub proof fn law_release_dir_is_child(root: Seq<char>, version: Seq<char>)
    requires
        version.len() > 0,
    ensures
        paths::plain_name(sanitized(version)),
        paths::parent_of(release_dir(root, version)) == Some(paths::joined(root, "releases"@)),
{
    reveal_strlit("releases");
    law_sanitized_is_safe(version);
    let d = paths::joined(root, "releases"@);
    paths::law_parent_of_child(d, sanitized(version));
    assert(d.last() == 's');
    assert(paths::tidy(d) == d);
}

/// The contents of a deployment's systemd unit file. `EnvironmentFile` makes
/// systemd load the env file into the process before `ExecStart`.
pub open spec fn unit_text(
    name: Seq<char>,
    working_dir: Seq<char>,
    env_file: Seq<char>,
    run_cmd: Seq<char>,
) -> Seq<char> {
    "[Unit]\nDescription=sglaz deployment "@ + name
        + "\nAfter=network-online.target\nWants=network-online.target\n\n[Service]\nWorkingDirectory="@
        + working_dir + "\nEnvironmentFile=-"@ + env_file + "\nExecStart=/bin/sh -lc 'exec "@
        + run_cmd
        + "'\nRestart=always\nRestartSec=5\n\n[Install]\nWantedBy=multi-user.target\n"@
}

/// Where systemd looks for the unit `name`.
pub open spec fn unit_path(name: Seq<char>) -> Seq<char> {
    "/etc/systemd/system/"@ + name + ".service"@
}

/// A file to be written: where, and what.
#[derive(Debug, PartialEq, Eq)]
pub struct TextFile {
    pub path: String,
    pub contents: String,
}

/// The systemd unit file for a deployment that runs in `current`.
pub fn install_unit(spec: &DeploySpec, current: &str) -> (r: TextFile)
    ensures
        r.path@ == unit_path(spec.unit_name@),
        r.contents@ == unit_text(spec.unit_name@, current@, spec.env_file@, spec.run_cmd@),
{
    let mut contents = "[Unit]\nDescription=sglaz deployment ".to_owned();
    contents.append(spec.unit_name.as_str());
    contents.append(
        "\nAfter=network-online.target\nWants=network-online.target\n\n[Service]\nWorkingDirectory=",
    );
    contents.append(current);
    contents.append("\nEnvironmentFile=-");
    contents.append(spec.env_file.as_str());
    contents.append("\nExecStart=/bin/sh -lc 'exec ");
    contents.append(spec.run_cmd.as_str());
    contents.append("'\nRestart=always\nRestartSec=5\n\n[Install]\nWantedBy=multi-user.target\n");
    let mut path = "/etc/systemd/system/".to_owned();
    path.append(spec.unit_name.as_str());
    path.append(".service");
    TextFile { path, contents }
}

/// One step of a deployment. [`progress`] says which one comes next.
#[derive(Debug, PartialEq, Eq)]
pub enum DeployStep {
    /// Create a directory and its parents. A failure matters only if `required`.
    MakeDir { path: String, required: bool },
    /// Download the artifact, into memory.
    Download { url: String },
    /// Extract the downloaded archive into a directory.
    Extract { dir: String },
    /// Write the downloaded bytes to a file and make it executable.
    PlaceBinary { path: String },
    /// Write the env file, creating parent directories as needed.
    WriteEnv { path: String, contents: String },
    /// Run the prepare command in a directory.
    Prepare { dir: String, command: String },
    /// Repoint `link` at `target`: drop any stale `tmp`, link `tmp` to `target`,
    /// and rename it over `link`.
    Link { target: String, tmp: String, link: String },
    /// Write the unit file.
    InstallUnit { path: String, contents: String },
    /// Call systemctl.
    Systemctl { args: Vec<String> },
}

/// What a [`DeployStep`] holds.
pub enum DeployStepView {
    MakeDir { path: Seq<char>, required: bool },
    Download { url: Seq<char> },
    Extract { dir: Seq<char> },
    PlaceBinary { path: Seq<char> },
    WriteEnv { path: Seq<char>, contents: Seq<char> },
    Prepare { dir: Seq<char>, command: Seq<char> },
    Link { target: Seq<char>, tmp: Seq<char>, link: Seq<char> },
    InstallUnit { path: Seq<char>, contents: Seq<char> },
    Systemctl { args: Seq<Seq<char>> },
}

impl DeepView for DeployStep {
    type V = DeployStepView;

    open spec fn deep_view(&self) -> DeployStepView {
        match *self {
            DeployStep::MakeDir { path, required } => DeployStepView::MakeDir {
                path: path@,
                required,
            },
            DeployStep::Download { url } => DeployStepView::Download { url: url@ },
            DeployStep::Extract { dir } => DeployStepView::Extract { dir: dir@ },
            DeployStep::PlaceBinary { path } => DeployStepView::PlaceBinary { path: path@ },
            DeployStep::WriteEnv { path, contents } => DeployStepView::WriteEnv {
                path: path@,
                contents: contents@,
            },
            DeployStep::Prepare { dir, command } => DeployStepView::Prepare {
                dir: dir@,
                command: command@,
            },
            DeployStep::Link { target, tmp, link } => DeployStepView::Link {
                target: target@,
                tmp: tmp@,
                link: link@,
            },
            DeployStep::InstallUnit { path, contents } => DeployStepView::InstallUnit {
                path: path@,
                contents: contents@,
            },
            DeployStep::Systemctl { args } => DeployStepView::Systemctl { args: args.deep_view() },
        }
    }
}

/// Whether the deployment goes on even if this step fails.
pub open spec fn tolerated(step: DeployStepView) -> bool {
    step matches DeployStepView::MakeDir { path: _, required } && !required
}

impl DeployStep {
    /// Whether the deployment goes on even if this step fails.
    pub fn may_fail(&self) -> (r: bool)
        ensures
            r == tolerated(self.deep_view()),
    {
        match self {
            DeployStep::MakeDir { path: _, required } => !*required,
            _ => false,
        }
    }
}

/// How far a deployment has got.
#[derive(Debug, PartialEq, Eq, Structural, Clone, Copy)]
pub enum Progress {
    /// The step with this number is to be carried out.
    Next(usize),
    /// All steps were carried out.
    Done,
    /// The deployment ended with the failure of the step with this number.
    Failed(usize),
}

/// Whether the step `i`, of which `ok` says how it went, ends the deployment.
pub open spec fn ends_it(plan: Seq<DeployStepView>, ok: Seq<bool>, i: int) -> bool {
    !ok[i] && !tolerated(plan[i])
}

/// The step `i` is the first that ends the deployment.
pub open spec fn ended_at(plan: Seq<DeployStepView>, ok: Seq<bool>, i: int) -> bool {
    &&& 0 <= i < ok.len()
    &&& i < plan.len()
    &&& ends_it(plan, ok, i)
    &&& forall|j: int| 0 <= j < i ==> !#[trigger] ends_it(plan, ok, j)
}

/// Which step comes next, when `ok` tells of each step carried out so far whether it
/// went well: the steps are carried out in order, up to the first that fails and may
/// not.
pub fn progress(steps: &Vec<DeployStep>, ok: &Vec<bool>) -> (r: Progress)
    ensures
        match r {
            Progress::Failed(i) => ended_at(steps.deep_view(), ok@, i as int),
            Progress::Done => ok@.len() >= steps@.len() && forall|i: int|
                0 <= i < steps@.len() ==> !#[trigger] ends_it(steps.deep_view(), ok@, i),
            Progress::Next(n) => n == ok@.len() && n < steps@.len() && forall|i: int|
                0 <= i < n ==> !#[trigger] ends_it(steps.deep_view(), ok@, i),
        },
{
    let ghost plan = steps.deep_view();
    let mut i: usize = 0;
    while i < ok.len() && i < steps.len()
        invariant
            i <= ok.len(),
            i <= steps.len(),
            plan == steps.deep_view(),
            forall|j: int| 0 <= j < i ==> !#[trigger] ends_it(plan, ok@, j),
        decreases ok.len() - i,
    {
        assert(plan[i as int] == steps@[i as int].deep_view());
        if !ok[i] && !steps[i].may_fail() {
            assert(ends_it(plan, ok@, i as int));
            return Progress::Failed(i);
        }
        i = i + 1;
    }
    if i < steps.len() {
        Progress::Next(i)
    } else {
        Progress::Done
    }
}

/// The step that puts the downloaded artifact into its release directory.
pub open spec fn place_step(spec: DeploySpecView) -> DeployStepView {
    let dir = release_dir(spec.deploy_root, spec.version);
    if spec.kind == "archive"@ {
        DeployStepView::Extract { dir }
    } else {
        DeployStepView::PlaceBinary { path: paths::joined(dir, "app"@) }
    }
}

/// The step that writes the env file: only when the server sent values and a
/// place for them.
pub open spec fn env_steps(spec: DeploySpecView) -> Seq<DeployStepView> {
    if spec.env_values.len() > 0 && text::trimmed(spec.env_file).len() > 0 {
        seq![
            DeployStepView::WriteEnv {
                path: spec.env_file,
                contents: envfile::rendered(spec.env_values),
            },
        ]
    } else {
        seq![]
    }
}

/// The step that prepares the release, if there is a command for it.
pub open spec fn prepare_steps(spec: DeploySpecView) -> Seq<DeployStepView> {
    if text::trimmed(spec.prepare_cmd).len() > 0 {
        seq![
            DeployStepView::Prepare {
                dir: release_dir(spec.deploy_root, spec.version),
                command: spec.prepare_cmd,
            },
        ]
    } else {
        seq![]
    }
}

/// The steps that make the release the running one.
pub open spec fn activate_steps(spec: DeploySpecView) -> Seq<DeployStepView> {
    let current = paths::joined(spec.deploy_root, "current"@);
    seq![
        DeployStepView::Link {
            target: release_dir(spec.deploy_root, spec.version),
            tmp: paths::with_extension(current, "new"@),
            link: current,
        },
        DeployStepView::InstallUnit {
            path: unit_path(spec.unit_name),
            contents: unit_text(spec.unit_name, current, spec.env_file, spec.run_cmd),
        },
        DeployStepView::Systemctl { args: seq!["daemon-reload"@] },
        DeployStepView::Systemctl { args: seq!["enable"@, spec.unit_name] },
        DeployStepView::Systemctl { args: seq!["restart"@, spec.unit_name] },
    ]
}

/// All the steps of a deployment: fetch and place the release, bring its env and
/// its dependencies up to date, and only then make it the running one.
pub open spec fn deploy_plan(spec: DeploySpecView) -> Seq<DeployStepView> {
    seq![
        DeployStepView::MakeDir {
            path: release_dir(spec.deploy_root, spec.version),
            required: true,
        },
        DeployStepView::MakeDir {
            path: paths::joined(spec.deploy_root, "shared"@),
            required: false,
        },
        DeployStepView::Download { url: spec.signed_url },
        place_step(spec),
    ] + env_steps(spec) + prepare_steps(spec) + activate_steps(spec)
}

/// How to repoint `link` at `target` atomically: through a temporary symlink
/// beside it, since a rename within one directory is atomic.
pub fn symlink_swap(target: String, link: String) -> (r: DeployStep)
    ensures
        r.deep_view() == (DeployStepView::Link {
            target: target@,
            tmp: paths::with_extension(link@, "new"@),
            link: link@,
        }),
{
    let tmp = paths::change_extension(link.as_str(), "new");
    DeployStep::Link { target, tmp, link }
}

/// Download, place, and (re)start a release: the steps to take.
pub fn deploy(spec: &DeploySpec, linux: bool) -> (r: Result<Vec<DeployStep>, DeployError>)
    ensures
        r is Ok <==> linux,
        r matches Ok(steps) ==> steps.deep_view() == deploy_plan(spec.deep_view()),
        r matches Err(e) ==> e == DeployError::NotLinux,
{
    match require_linux(linux) {
        Ok(_) => {},
        Err(e) => {
            return Err(e);
        },
    }
    let ghost v = spec.deep_view();
    let root = spec.deploy_root.as_str();
    let releases = paths::join(root, "releases");
    let version = sanitize(spec.version.as_str());
    let dir = paths::join(releases.as_str(), version.as_str());
    let current = paths::join(root, "current");
    let unit = install_unit(spec, current.as_str());

    let mut steps: Vec<DeployStep> = Vec::new();
    steps.push(DeployStep::MakeDir { path: dir.clone(), required: true });
    steps.push(DeployStep::MakeDir { path: paths::join(root, "shared"), required: false });
    steps.push(DeployStep::Download { url: spec.signed_url.clone() });
    if text::same(spec.kind.as_str(), "archive") {
        steps.push(DeployStep::Extract { dir: dir.clone() });
    } else {
        // Binary: the asset itself is the executable.
        steps.push(DeployStep::PlaceBinary { path: paths::join(dir.as_str(), "app") });
    }
    let ghost placed = steps.deep_view();
    assert(placed == deploy_plan(v).take(4));
    // An empty list leaves any existing env file untouched.
    let env_file = text::trim_str(spec.env_file.as_str());
    if spec.env_values.len() > 0 && !env_file.as_str().is_empty() {
        let contents = envfile::write(spec.env_values.as_slice());
        assert(spec.env_values@.map_values(|v: EnvVar| v.deep_view()) == v.env_values);
        steps.push(DeployStep::WriteEnv { path: spec.env_file.clone(), contents });
    }
    assert(steps.deep_view() == placed + env_steps(v));
    let prepare = text::trim_str(spec.prepare_cmd.as_str());
    if !prepare.as_str().is_empty() {
        steps.push(DeployStep::Prepare { dir: dir.clone(), command: spec.prepare_cmd.clone() });
    }
    assert(steps.deep_view() == placed + env_steps(v) + prepare_steps(v));
    let ghost prepared = steps.deep_view();
    steps.push(symlink_swap(dir, current));
    steps.push(DeployStep::InstallUnit { path: unit.path, contents: unit.contents });
    let mut reload: Vec<String> = Vec::new();
    reload.push("daemon-reload".to_owned());
    assert(reload.deep_view() == seq!["daemon-reload"@]);
    steps.push(DeployStep::Systemctl { args: reload });
    steps.push(DeployStep::Systemctl { args: two("enable", spec.unit_name.as_str()) });
    steps.push(DeployStep::Systemctl { args: two("restart", spec.unit_name.as_str()) });
    assert(steps.deep_view() == prepared + activate_steps(v));
    Ok(steps)
}

/// The release becomes the running one only at the very end: every step before
/// the last five leaves `current`, the unit file and the service alone, and the
/// restart is the last step of all.
pub proof fn law_switch_comes_last(spec: DeploySpecView)
    ensures
        ({
            let plan = deploy_plan(spec);
            let n = plan.len();
            &&& n >= 9
            &&& plan[n - 5] is Link
            &&& plan[n - 4] is InstallUnit
            &&& plan.last() == (DeployStepView::Systemctl { args: seq!["restart"@, spec.unit_name] })
            &&& forall|i: int|
                0 <= i < n - 5 ==> !((#[trigger] plan[i]) is Link) && !(plan[i] is InstallUnit) && !(
                plan[i] is Systemctl)
        }),
{
}

/// A deployment that fails before its last five steps leaves what runs alone: once
/// a step that may not fail has failed, no further step is carried out, so that
/// neither the link nor the unit file nor the service has been touched.
pub proof fn law_failure_touches_nothing(spec: DeploySpecView, ok: Seq<bool>, i: int)
    requires
        ended_at(deploy_plan(spec), ok, i),
        i < deploy_plan(spec).len() - 5,
    ensures
        forall|j: int|
            0 <= j <= i ==> !((#[trigger] deploy_plan(spec)[j]) is Link) && !(deploy_plan(
                spec,
            )[j] is InstallUnit) && !(deploy_plan(spec)[j] is Systemctl),
        forall|more: Seq<bool>|
            ok.len() <= more.len() && more.take(ok.len() as int) == ok ==> #[trigger] ended_at(
                deploy_plan(spec),
                more,
                i,
            ),
{
    let plan = deploy_plan(spec);
    law_switch_comes_last(spec);
    assert forall|more: Seq<bool>|
        ok.len() <= more.len() && more.take(ok.len() as int) == ok implies #[trigger] ended_at(
        plan,
        more,
        i,
    ) by {
        assert forall|j: int| 0 <= j <= i implies #[trigger] ends_it(plan, more, j) == ends_it(
            plan,
            ok,
            j,
        ) by {
            assert(more.take(ok.len() as int)[j] == more[j]);
        }
    }
}

/// A deployment without env values leaves any existing env file untouched.
pub proof fn law_no_values_no_env_write(spec: DeploySpecView)
    requires
        spec.env_values.len() == 0,
    ensures
        forall|i: int| 0 <= i < deploy_plan(spec).len() ==> !((#[trigger] deploy_plan(spec)[i]) is WriteEnv),
{
}

/// What becomes of one entry of a release archive.
#[derive(Debug, PartialEq, Eq)]
pub enum EntryTarget {
    /// Nothing is left of its path without the leading component.
    Skip,
    /// Unpack it at this path below the release directory.
    Unpack(Vec<u8>),
    /// The archive is broken here: extraction fails with the error found there.
    Unreadable,
    /// The entry claims more bytes than an archive can hold: extraction fails, and
    /// the entry is not read.
    Impossible,
}

/// What an [`EntryTarget`] holds.
pub enum EntryTargetView {
    Skip,
    Unpack(Seq<u8>),
    Unreadable,
    Impossible,
}

impl DeepView for EntryTarget {
    type V = EntryTargetView;

    open spec fn deep_view(&self) -> EntryTargetView {
        match *self {
            EntryTarget::Skip => EntryTargetView::Skip,
            EntryTarget::Unpack(p) => EntryTargetView::Unpack(p@),
            EntryTarget::Unreadable => EntryTargetView::Unreadable,
            EntryTarget::Impossible => EntryTargetView::Impossible,
        }
    }
}

/// Where an entry goes: to its path without the leading component.
pub open spec fn target_of(path: Option<Seq<u8>>) -> EntryTargetView {
    match path {
        None => EntryTargetView::Unreadable,
        Some(p) => {
            let rest = paths::without_first(p);
            if rest.len() == 0 {
                EntryTargetView::Skip
            } else {
                EntryTargetView::Unpack(rest)
            }
        },
    }
}

/// Where each of the entries goes.
pub open spec fn targets_of(entries: Seq<Option<Seq<u8>>>) -> Seq<EntryTargetView> {
    entries.map_values(|p: Option<Seq<u8>>| target_of(p))
}

/// Where each of the entries with these paths goes.
pub fn entry_targets(entries: &Vec<Option<Vec<u8>>>) -> (r: Vec<EntryTarget>)
    ensures
        r.deep_view() == targets_of(entries.deep_view()),
{
    let mut out: Vec<EntryTarget> = Vec::new();
    let mut i: usize = 0;
    while i < entries.len()
        invariant
            i <= entries.len(),
            out.deep_view() == targets_of(entries.deep_view()).take(i as int),
        decreases entries.len() - i,
    {
        let ghost before = out.deep_view();
        let target = match &entries[i] {
            None => EntryTarget::Unreadable,
            Some(p) => {
                assert(p.deep_view() == p@);
                let rest = paths::strip_first(p.as_slice());
                if rest.len() == 0 {
                    EntryTarget::Skip
                } else {
                    EntryTarget::Unpack(rest)
                }
            },
        };
        assert(target.deep_view() == target_of(entries.deep_view()[i as int]));
        out.push(target);
        assert(out.deep_view() == before.push(target.deep_view()));
        i = i + 1;
    }
    assert(targets_of(entries.deep_view()).take(i as int) == targets_of(entries.deep_view()));
    out
}

/// Where everything that an archive lists goes.
pub open spec fn extraction(contents: archive::ContentsView) -> Seq<EntryTargetView> {
    if contents.cut_off {
        targets_of(contents.paths).push(EntryTargetView::Impossible)
    } else {
        targets_of(contents.paths)
    }
}

/// Extract a .tar.gz, stripping the single top-level directory that GitHub source
/// tarballs wrap everything in (like `tar --strip-components=1`): where each of
/// its entries goes, in order.
pub fn extract_tar_gz(bytes: &[u8]) -> (r: Vec<EntryTarget>)
    ensures
        r.deep_view() == extraction(archive::contents_of(bytes@)),
        forall|i: int|
            0 <= i < r@.len() - 1 ==> !((#[trigger] r@[i]) is Unreadable) && !(r@[i] is Impossible),
{
    let contents = archive::entry_paths(bytes);
    let ghost paths = contents.paths.deep_view();
    let mut out = entry_targets(&contents.paths);
    let ghost listed = out.deep_view();
    assert(listed.len() == paths.len());
    assert forall|i: int| 0 <= i < listed.len() && paths[i] is Some implies !((
    #[trigger] out@[i]) is Unreadable) && !(out@[i] is Impossible) by {
        assert(listed[i] == out@[i].deep_view());
    }
    assert forall|i: int| 0 <= i < paths.len() implies (contents.paths@[i] is Some) == (
    #[trigger] paths[i] is Some) by {}
    if contents.cut_off {
        out.push(EntryTarget::Impossible);
        assert(out.deep_view() == listed.push(EntryTargetView::Impossible));
    }
    out
}

/// Nothing is unpacked at the release directory itself or at an absolute path.
pub proof fn law_targets_are_relative(entries: Seq<Option<Seq<u8>>>)
    ensures
        forall|i: int|
            0 <= i < targets_of(entries).len() ==> ((#[trigger] targets_of(entries)[i]) matches
                EntryTargetView::Unpack(p) ==> p.len() > 0 && p.first() != paths::SEPARATOR),
{
    assert forall|i: int| 0 <= i < targets_of(entries).len() implies ((#[trigger] targets_of(
        entries,
    )[i]) matches EntryTargetView::Unpack(p) ==> p.len() > 0 && p.first() != paths::SEPARATOR) by {
        if let Some(p) = entries[i] {
            paths::law_stripped_is_relative(p);
        }
    }
}

/// Whenever the server sent values and a place for them, the env file is written
/// with all of them, once, before the release becomes the running one, and whatever
/// kind of release it is. It is written in no other case.
pub proof fn law_env_is_written(spec: DeploySpecView)
    ensures
        ({
            let plan = deploy_plan(spec);
            let sent = spec.env_values.len() > 0 && exists|k: int|
                0 <= k < spec.env_file.len() && !text::is_white(#[trigger] spec.env_file[k]);
            &&& sent ==> exists|i: int|
                0 <= i < plan.len() && #[trigger] plan[i] == (DeployStepView::WriteEnv {
                    path: spec.env_file,
                    contents: envfile::rendered(spec.env_values),
                })
            &&& forall|i: int| 0 <= i < plan.len() && (#[trigger] plan[i]) is WriteEnv ==> sent
            &&& forall|i: int, j: int|
                0 <= i < plan.len() && 0 <= j < plan.len() && (#[trigger] plan[i]) is WriteEnv && (
                #[trigger] plan[j]) is WriteEnv ==> i == j
            &&& forall|i: int, j: int|
                0 <= i < plan.len() && 0 <= j < plan.len() && (#[trigger] plan[i]) is WriteEnv && (
                #[trigger] plan[j]) is Link ==> i < j
        }),
{
    text::law_blank(spec.env_file);
    let plan = deploy_plan(spec);
    if spec.env_values.len() > 0 && text::trimmed(spec.env_file).len() > 0 {
        assert(plan[4] == (DeployStepView::WriteEnv {
            path: spec.env_file,
            contents: envfile::rendered(spec.env_values),
        }));
    }
}

/// The release is downloaded from where the server says, once its directory is there,
/// and then put into it: an archive is extracted, and anything else is the program
/// itself.
pub proof fn law_release_is_fetched_and_placed(spec: DeploySpecView)
    ensures
        ({
            let plan = deploy_plan(spec);
            let dir = paths::joined(
                paths::joined(spec.deploy_root, "releases"@),
                sanitized(spec.version),
            );
            &&& plan.len() >= 4
            &&& plan[0] == (DeployStepView::MakeDir { path: dir, required: true })
            &&& plan[1] == (DeployStepView::MakeDir {
                path: paths::joined(spec.deploy_root, "shared"@),
                required: false,
            })
            &&& plan[2] == (DeployStepView::Download { url: spec.signed_url })
            &&& spec.kind == "archive"@ ==> plan[3] == (DeployStepView::Extract { dir })
            &&& spec.kind != "archive"@ ==> plan[3] == (DeployStepView::PlaceBinary {
                path: paths::joined(dir, "app"@),
            })
            &&& forall|i: int|
                0 <= i < plan.len() && ((#[trigger] plan[i]) is MakeDir || plan[i] is Download
                    || plan[i] is Extract || plan[i] is PlaceBinary) ==> i < 4
        }),
{
}

/// A prepare command that is not blank runs once, as the server wrote it, in the
/// release directory: with the release and its env in place, and before the release
/// becomes the running one. A blank one does not run.
pub proof fn law_release_is_prepared(spec: DeploySpecView)
    ensures
        ({
            let plan = deploy_plan(spec);
            let sent = exists|k: int|
                0 <= k < spec.prepare_cmd.len() && !text::is_white(#[trigger] spec.prepare_cmd[k]);
            &&& sent ==> plan[plan.len() - 6] == (DeployStepView::Prepare {
                dir: paths::joined(
                    paths::joined(spec.deploy_root, "releases"@),
                    sanitized(spec.version),
                ),
                command: spec.prepare_cmd,
            })
            &&& forall|i: int|
                0 <= i < plan.len() && (#[trigger] plan[i]) is Prepare ==> sent && 4 <= i
                    && i == plan.len() - 6
        }),
{
    text::law_blank(spec.prepare_cmd);
}

/// The release becomes the running one in five steps: the link, the unit file that
/// runs what the link points to, and the three calls that make systemd take it up.
pub proof fn law_release_is_activated(spec: DeploySpecView)
    ensures
        ({
            let plan = deploy_plan(spec);
            let n = plan.len();
            let current = paths::joined(spec.deploy_root, "current"@);
            &&& plan[n - 5] == (DeployStepView::Link {
                target: paths::joined(
                    paths::joined(spec.deploy_root, "releases"@),
                    sanitized(spec.version),
                ),
                tmp: paths::with_extension(current, "new"@),
                link: current,
            })
            &&& plan[n - 4] == (DeployStepView::InstallUnit {
                path: unit_path(spec.unit_name),
                contents: unit_text(spec.unit_name, current, spec.env_file, spec.run_cmd),
            })
            &&& plan[n - 3] == (DeployStepView::Systemctl { args: seq!["daemon-reload"@] })
            &&& plan[n - 2] == (DeployStepView::Systemctl { args: seq!["enable"@, spec.unit_name] })
            &&& plan[n - 1] == (DeployStepView::Systemctl { args: seq!["restart"@, spec.unit_name] })
        }),
{
}

/// A deployment has nine steps, one more where an env file is written, and one more
/// where there is something to prepare.
pub proof fn law_plan_length(spec: DeploySpecView)
    ensures
        ({
            let plan = deploy_plan(spec);
            let env: int = if exists|i: int| 0 <= i < plan.len() && (#[trigger] plan[i]) is WriteEnv {
                1
            } else {
                0
            };
            let prepare: int = if exists|i: int|
                0 <= i < plan.len() && (#[trigger] plan[i]) is Prepare {
                1
            } else {
                0
            };
            plan.len() == 9 + env + prepare
        }),
{
    let plan = deploy_plan(spec);
    if env_steps(spec).len() > 0 {
        assert(plan[4] is WriteEnv);
    }
    if prepare_steps(spec).len() > 0 {
        assert(plan[plan.len() - 6] is Prepare);
    }
}

/// Of all the steps of a deployment only the second, which makes the directory for
/// the env file, may fail: the failure of any other ends the deployment there.
pub proof fn law_only_the_shared_directory_may_fail(spec: DeploySpecView, ok: Seq<bool>, i: int)
    requires
        0 <= i < deploy_plan(spec).len(),
        i < ok.len(),
    ensures
        ends_it(deploy_plan(spec), ok, i) <==> !ok[i] && i != 1,
{
}

/// The paths that a deployment with an ordinary root uses.
pub proof fn law_layout(root: Seq<char>, version: Seq<char>)
    requires
        root.len() > 0,
        root.last() != '/',
    ensures
        release_dir(root, version) == root + "/releases/"@ + sanitized(version),
        paths::joined(root, "current"@) == root + "/current"@,
        paths::joined(root, "shared"@) == root + "/shared"@,
        paths::with_extension(paths::joined(root, "current"@), "new"@) == root + "/current.new"@,
{
    reveal_strlit("releases");
    reveal_strlit("/releases/");
    reveal_strlit("current");
    reveal_strlit("/current");
    reveal_strlit("shared");
    reveal_strlit("/shared");
    reveal_strlit("new");
    reveal_strlit("/current.new");
    law_sanitized_is_safe(version);
    let v = sanitized(version);
    if v.len() > 0 {
        assert(v.contains(v[0]));
    }
    assert(release_dir(root, version) == root + "/releases/"@ + v);
    assert(paths::joined(root, "current"@) == root + "/current"@);
    assert(paths::joined(root, "shared"@) == root + "/shared"@);
    let d = root.push('/');
    assert(paths::joined(root, "current"@) == d + "current"@);
    paths::law_extension_is_added(d, "current"@, "new"@);
    assert(d + "current"@ + seq!['.'] + "new"@ == root + "/current.new"@);
}

/// A version's directory name has as many characters as the version. A letter, a
/// digit, a dot, a hyphen and an underscore stand for themselves, and everything else
/// becomes an underscore. Only a version that is one dot or two has these replaced.
pub proof fn law_sanitized_by_character(version: Seq<char>, i: int)
    requires
        0 <= i < version.len(),
    ensures
        sanitized(version).len() == version.len(),
        version != seq!['.'] && version != seq!['.', '.'] ==> sanitized(version)[i] == (if 'a'
            <= version[i] <= 'z' || 'A' <= version[i] <= 'Z' || '0' <= version[i] <= '9'
            || version[i] == '.' || version[i] == '-' || version[i] == '_' {
            version[i]
        } else {
            '_'
        }),
        version == seq!['.'] || version == seq!['.', '.'] ==> sanitized(version)[i] == '_',
{
}

/// The unit file, line by line: it is the one that systemd knows the deployment by,
/// it names the directory, the env file and the command, and none of them is changed.
pub proof fn law_unit_line_by_line(
    name: Seq<char>,
    working_dir: Seq<char>,
    env_file: Seq<char>,
    run_cmd: Seq<char>,
)
    ensures
        unit_path(name) == "/etc/systemd/system/"@ + (name + ".service"@),
        unit_text(name, working_dir, env_file, run_cmd) == "[Unit]\n"@ + (
        "Description=sglaz deployment "@ + name + "\n"@) + "After=network-online.target\n"@
            + "Wants=network-online.target\n"@ + "\n"@ + "[Service]\n"@ + ("WorkingDirectory="@
            + working_dir + "\n"@) + ("EnvironmentFile=-"@ + env_file + "\n"@) + (
        "ExecStart=/bin/sh -lc 'exec "@ + run_cmd + "'\n"@) + "Restart=always\n"@
            + "RestartSec=5\n"@ + "\n"@ + "[Install]\n"@ + "WantedBy=multi-user.target\n"@,
{
    reveal_strlit("[Unit]\n");
    reveal_strlit("Description=sglaz deployment ");
    reveal_strlit("[Unit]\nDescription=sglaz deployment ");
    reveal_strlit("\n");
    reveal_strlit("After=network-online.target\n");
    reveal_strlit("Wants=network-online.target\n");
    reveal_strlit("[Service]\n");
    reveal_strlit("WorkingDirectory=");
    reveal_strlit(
        "\nAfter=network-online.target\nWants=network-online.target\n\n[Service]\nWorkingDirectory=",
    );
    reveal_strlit("EnvironmentFile=-");
    reveal_strlit("\nEnvironmentFile=-");
    reveal_strlit("ExecStart=/bin/sh -lc 'exec ");
    reveal_strlit("\nExecStart=/bin/sh -lc 'exec ");
    reveal_strlit("'\n");
    reveal_strlit("Restart=always\n");
    reveal_strlit("RestartSec=5\n");
    reveal_strlit("[Install]\n");
    reveal_strlit("WantedBy=multi-user.target\n");
    reveal_strlit("'\nRestart=always\nRestartSec=5\n\n[Install]\nWantedBy=multi-user.target\n");
    assert("[Unit]\nDescription=sglaz deployment "@ == "[Unit]\n"@
        + "Description=sglaz deployment "@);
    assert("\nAfter=network-online.target\nWants=network-online.target\n\n[Service]\nWorkingDirectory="@
        == "\n"@ + "After=network-online.target\n"@ + "Wants=network-online.target\n"@ + "\n"@
        + "[Service]\n"@ + "WorkingDirectory="@);
    assert("\nEnvironmentFile=-"@ == "\n"@ + "EnvironmentFile=-"@);
    assert("\nExecStart=/bin/sh -lc 'exec "@ == "\n"@ + "ExecStart=/bin/sh -lc 'exec "@);
    assert("'\nRestart=always\nRestartSec=5\n\n[Install]\nWantedBy=multi-user.target\n"@ == "'\n"@
        + "Restart=always\n"@ + "RestartSec=5\n"@ + "\n"@ + "[Install]\n"@
        + "WantedBy=multi-user.target\n"@);
}

/// The state goes by the word that systemctl printed, and by nothing around it. Only
/// the five words that it knows mean anything, and only on a host that runs systemd.
pub proof fn law_state_goes_by_the_word(a: Seq<char>, word: Seq<char>, b: Seq<char>)
    requires
        forall|i: int| 0 <= i < a.len() ==> text::is_white(#[trigger] a[i]),
        forall|i: int| 0 <= i < b.len() ==> text::is_white(#[trigger] b[i]),
        word.len() > 0 ==> !text::is_white(word.first()) && !text::is_white(word.last()),
    ensures
        ({
            let s = unit_state(true, Some(a + word + b));
            &&& s == "running"@ <==> word == "active"@ || word == "activating"@
            &&& s == "crashed"@ <==> word == "failed"@
            &&& s == "stopped"@ <==> word == "inactive"@ || word == "deactivating"@
        }),
        unit_state(true, None) == "unknown"@,
        unit_state(false, Some(a + word + b)) == "unknown"@,
        unit_state(false, None) == "unknown"@,
{
    text::law_trimming_takes_white_space_off(a, word, b);
    reveal_strlit("running");
    reveal_strlit("crashed");
    reveal_strlit("stopped");
    reveal_strlit("unknown");
    reveal_strlit("active");
    reveal_strlit("activating");
    reveal_strlit("failed");
    reveal_strlit("inactive");
    reveal_strlit("deactivating");
    assert("running"@.len() == 7 && "crashed"@.len() == 7 && "stopped"@.len() == 7);
    assert("running"@[0] == 'r' && "crashed"@[0] == 'c' && "stopped"@[0] == 's' && "unknown"@[0]
        == 'u');
    assert("active"@.len() == 6 && "failed"@.len() == 6 && "inactive"@.len() == 8
        && "activating"@.len() == 10 && "deactivating"@.len() == 12);
    assert("active"@[0] == 'a' && "failed"@[0] == 'f');
}

/// journalctl is asked for that unit, for exactly so many lines, in the short ISO
/// format and without a pager.
pub proof fn law_journal_is_asked_for(unit: Seq<char>, lines: u32)
    ensures
        journal_args(unit, lines).len() == 6,
        journal_args(unit, lines)[0] == "-u"@,
        journal_args(unit, lines)[1] == unit,
        journal_args(unit, lines)[2] == "-n"@,
        text::number(journal_args(unit, lines)[3]) == lines,
        journal_args(unit, lines)[4] == "--no-pager"@,
        journal_args(unit, lines)[5] == "--output=short-iso"@,
{
    text::law_decimal_stands_for_number(lines as nat);
}

/// What journalctl printed is always shown, all of it and first. Its complaint follows
/// exactly if it failed and complained.
pub proof fn law_journal_is_shown(stdout: Seq<char>, stderr: Seq<char>)
    ensures
        journal(stdout, true, stderr) == stdout,
        (forall|i: int| 0 <= i < stderr.len() ==> text::is_white(#[trigger] stderr[i])) ==> journal(
            stdout,
            false,
            stderr,
        ) == stdout,
        !(forall|i: int| 0 <= i < stderr.len() ==> text::is_white(#[trigger] stderr[i]))
            ==> journal(stdout, false, stderr) == stdout + ("\n[journalctl] "@ + text::trimmed(stderr)),
{
    text::law_blank(stderr);
}

/// An error says what went wrong, with the words of whoever reported it.
pub proof fn law_error_messages(status: String, args: Vec<String>, stdout: String, stderr: String)
    ensures
        error_message(DeployError::NotLinux)
            == "deployments are supported only on systemd Linux hosts"@,
        error_message(DeployError::DownloadStatus(status)) == "download returned status "@ + status@,
        error_message(DeployError::Systemctl { args, stderr }) == "systemctl "@ + (debug_list(
            args.deep_view(),
        ) + (" failed: "@ + text::trimmed(stderr@))),
        error_message(DeployError::Command { stdout, stderr }) == "command exited non-zero: "@ + (
        text::trimmed(stdout@) + text::trimmed(stderr@)),
{
}

/// An entry is skipped exactly if its path has no component behind the first. Every
/// other entry is unpacked at the path that all the components behind the first make
/// up.
pub proof fn law_entry_loses_its_first_component(first: Seq<u8>, rest: Seq<u8>)
    requires
        !first.contains(0x2f),
    ensures
        target_of(Some(first + seq![0x2fu8] + rest)) is Skip <==> paths::components(rest).len() == 0,
        paths::components(rest).len() > 0 ==> target_of(Some(first + seq![0x2fu8] + rest)) == (
        EntryTargetView::Unpack(paths::path_of(paths::components(rest)))),
        target_of(Some(first)) == EntryTargetView::Skip,
        target_of(None) == EntryTargetView::Unreadable,
{
    paths::law_first_component_goes(first, rest);
    paths::lemma_path_of_components(rest);
}

/// An entry whose path is made of names is unpacked at the names behind the first one,
/// whatever they are called, each as it is and in order.
pub proof fn law_entry_keeps_its_names(first: Seq<u8>, names: Seq<Seq<u8>>)
    requires
        !first.contains(0x2f),
        names.len() > 0,
        forall|i: int| 0 <= i < names.len() ==> paths::nameable(#[trigger] names[i]),
    ensures
        target_of(Some(first + paths::slashed(names))) == EntryTargetView::Unpack(
            paths::slashed(names).skip(1),
        ),
{
    paths::law_all_but_the_first_are_left(first, names);
}

/// Every entry of an archive has its target, in the order of the archive, whatever
/// stands before and behind it. One that an archive cannot hold ends the list.
pub proof fn law_every_entry_has_its_target(contents: archive::ContentsView)
    ensures
        extraction(contents).len() == contents.paths.len() + (if contents.cut_off {
            1int
        } else {
            0
        }),
        forall|i: int|
            0 <= i < contents.paths.len() ==> #[trigger] extraction(contents)[i] == target_of(
                contents.paths[i],
            ),
        contents.cut_off ==> extraction(contents).last() == EntryTargetView::Impossible,
        targets_of(contents.paths).len() == contents.paths.len(),
        forall|i: int|
            0 <= i < contents.paths.len() ==> #[trigger] targets_of(contents.paths)[i] == target_of(
                contents.paths[i],
            ),
{
}

} // verus!
