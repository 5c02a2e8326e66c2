//! The agent's persistent configuration.
use crate::text;
use vstd::prelude::*;

verus! {

/// One app this agent syncs, as told by the server. `binding_id` is the server's
/// id; `file_path` is where this app's .env lives on this machine.
#[derive(Debug, Default, PartialEq, Eq)]
pub struct Binding {
    pub binding_id: String,
    pub app_name: String,
    pub file_path: String,
}

/// What a [`Binding`] holds.
#[verifier::ext_equal]
pub struct BindingView {
    pub binding_id: Seq<char>,
    pub app_name: Seq<char>,
    pub file_path: Seq<char>,
}

impl DeepView for Binding {
    type V = BindingView;

    open spec fn deep_view(&self) -> BindingView {
        BindingView {
            binding_id: self.binding_id@,
            app_name: self.app_name@,
            file_path: self.file_path@,
        }
    }
}

impl Clone for Binding {
    fn clone(&self) -> (r: Self)
        ensures
            r.deep_view() == self.deep_view(),
    {
        Binding {
            binding_id: self.binding_id.clone(),
            app_name: self.app_name.clone(),
            file_path: self.file_path.clone(),
        }
    }
}

/// One deployment (runnable service) this agent supervises. Persisted so the
/// agent can report each service's state, and the version it last deployed,
/// on every poll, even straight after a restart.
#[derive(Debug, Default, PartialEq, Eq)]
pub struct DeployRecord {
    pub deployment_id: String,
    pub unit_name: String,
    pub version: String,
}

/// What a [`DeployRecord`] holds.
#[verifier::ext_equal]
pub struct DeployRecordView {
    pub deployment_id: Seq<char>,
    pub unit_name: Seq<char>,
    pub version: Seq<char>,
}

impl DeepView for DeployRecord {
    type V = DeployRecordView;

    open spec fn deep_view(&self) -> DeployRecordView {
        DeployRecordView {
            deployment_id: self.deployment_id@,
            unit_name: self.unit_name@,
            version: self.version@,
        }
    }
}

impl Clone for DeployRecord {
    fn clone(&self) -> (r: Self)
        ensures
            r.deep_view() == self.deep_view(),
    {
        DeployRecord {
            deployment_id: self.deployment_id.clone(),
            unit_name: self.unit_name.clone(),
            version: self.version.clone(),
        }
    }
}

/// Persistent client configuration. One identity (token) per machine; the
/// server drives the list of app bindings.
#[derive(Debug, Default, PartialEq, Eq)]
pub struct Config {
    pub server_url: String,
    pub token: String,
    pub client_id: String,
    pub poll_interval_secs: u64,
    pub bindings: Vec<Binding>,
    pub deployments: Vec<DeployRecord>,
}

/// What a [`Config`] holds.
#[verifier::ext_equal]
pub struct ConfigView {
    pub server_url: Seq<char>,
    pub token: Seq<char>,
    pub client_id: Seq<char>,
    pub poll_interval_secs: u64,
    pub bindings: Seq<BindingView>,
    pub deployments: Seq<DeployRecordView>,
}

impl DeepView for Config {
    type V = ConfigView;

    open spec fn deep_view(&self) -> ConfigView {
        ConfigView {
            server_url: self.server_url@,
            token: self.token@,
            client_id: self.client_id@,
            poll_interval_secs: self.poll_interval_secs,
            bindings: self.bindings.deep_view(),
            deployments: self.deployments.deep_view(),
        }
    }
}

impl Clone for Config {
    fn clone(&self) -> (r: Self)
        ensures
            r.deep_view() == self.deep_view(),
    {
        Config {
            server_url: self.server_url.clone(),
            token: self.token.clone(),
            client_id: self.client_id.clone(),
            poll_interval_secs: self.poll_interval_secs,
            bindings: self.bindings.clone(),
            deployments: self.deployments.clone(),
        }
    }
}

/// How often to poll, in seconds, until the server says otherwise.
pub fn default_interval() -> (r: u64)
    ensures
        r == 15,
{
    15
}

/// The shortest interval between polls, in seconds.
pub const MIN_INTERVAL: u64 = 3;

/// The interval that is kept when the server asks for `secs`.
pub open spec fn kept_interval(secs: u64) -> u64 {
    if secs < MIN_INTERVAL {
        MIN_INTERVAL
    } else {
        secs
    }
}

/// The interval to keep when the server asks for `secs`.
pub fn clamp_interval(secs: u64) -> (r: u64)
    ensures
        r == kept_interval(secs),
{
    if secs < MIN_INTERVAL {
        MIN_INTERVAL
    } else {
        secs
    }
}

/// An interval is never shorter than the shortest one, and one that is long enough
/// is kept as it is.
pub proof fn law_interval_is_never_short(secs: u64)
    ensures
        kept_interval(secs) >= MIN_INTERVAL,
        secs >= MIN_INTERVAL ==> kept_interval(secs) == secs,
{
}

/// How long the daemon waits before its first poll has spoken.
pub fn initial_interval(cfg: &Config) -> (r: u64)
    ensures
        r == kept_interval(cfg.poll_interval_secs),
{
    clamp_interval(cfg.poll_interval_secs)
}

/// How long the daemon waits after a poll: as long as the server asked for, or as
/// before if the poll failed.
pub fn next_interval(current: u64, asked: Option<u64>) -> (r: u64)
    ensures
        r == (match asked {
            Some(secs) => kept_interval(secs),
            None => current,
        }),
{
    match asked {
        Some(secs) => clamp_interval(secs),
        None => current,
    }
}

/// Where config.yaml lives.
#[derive(Debug, PartialEq, Eq)]
pub enum ConfigPath {
    /// At this path.
    At(String),
    /// Under this name, in the standard config directory of the OS.
    InProjectDir(String),
}

/// What a [`ConfigPath`] holds.
pub enum ConfigPathView {
    At(Seq<char>),
    InProjectDir(Seq<char>),
}

impl DeepView for ConfigPath {
    type V = ConfigPathView;

    open spec fn deep_view(&self) -> ConfigPathView {
        match *self {
            ConfigPath::At(p) => ConfigPathView::At(p@),
            ConfigPath::InProjectDir(n) => ConfigPathView::InProjectDir(n@),
        }
    }
}

/// Where config.yaml lives: where `SGLAZ_CONFIG` says, or else in the standard
/// per-OS config dir (Linux: ~/.config/sglaz, macOS: ~/Library/Application
/// Support/sglaz, Windows: %APPDATA%\sglaz\config), if there is one.
pub fn config_path(sglaz_config: Option<String>, has_project_dir: bool) -> (r: Result<
    ConfigPath,
    String,
>)
    ensures
        r is Ok <==> sglaz_config is Some || has_project_dir,
        r matches Ok(p) ==> p.deep_view() == (match sglaz_config {
            Some(given) => ConfigPathView::At(given@),
            None => ConfigPathView::InProjectDir("config.yaml"@),
        }),
        r matches Err(m) ==> m@ == "could not determine a config directory for this OS"@,
{
    match sglaz_config {
        Some(given) => Ok(ConfigPath::At(given)),
        None => {
            if has_project_dir {
                Ok(ConfigPath::InProjectDir("config.yaml".to_owned()))
            } else {
                Err("could not determine a config directory for this OS".to_owned())
            }
        },
    }
}

/// What to tell a user whose machine has no config at `path` yet.
pub fn missing_config_message(path: &str) -> (r: String)
    ensures
        r@ == "no config at "@ + path@ + " \u{2014} run `sglaz -connect <code>` first"@,
{
    let mut out = "no config at ".to_owned();
    out.append(path);
    out.append(" \u{2014} run `sglaz -connect <code>` first");
    out
}

/// The server URL as it is kept: without the slashes at its end.
pub open spec fn base_url(url: Seq<char>) -> Seq<char> {
    text::strip_tail(url, '/')
}

/// A kept URL never ends with a slash, so that paths can be appended to it, and
/// keeping it again changes nothing.
pub proof fn law_base_url_has_no_slash(url: Seq<char>)
    ensures
        base_url(url).len() > 0 ==> base_url(url).last() != '/',
        base_url(base_url(url)) == base_url(url),
    decreases url.len(),
{
    if url.len() > 0 && url.last() == '/' {
        law_base_url_has_no_slash(url.drop_last());
    }
}

/// Intervals of three seconds and more are kept, and shorter ones become three
/// seconds.
pub proof fn law_kept_interval(secs: u64)
    ensures
        secs >= 3 ==> kept_interval(secs) == secs,
        secs < 3 ==> kept_interval(secs) == 3,
{
}

/// The slashes at the end of a URL go, however many there are, and nothing else.
pub proof fn law_only_slashes_go(url: Seq<char>, n: nat)
    requires
        url.len() > 0 ==> url.last() != '/',
    ensures
        base_url(url + Seq::new(n, |i: int| '/')) == url,
{
    text::law_tail_goes(url, n, '/');
}

} // verus!
