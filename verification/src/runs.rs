//! What holds of every run of a poll, whatever comes of its actions.
use crate::browse;
use crate::config;
use crate::deploy;
use crate::envfile;
use crate::poll;
use crate::reconcile;
use crate::tasks;
use crate::wire;
use vstd::prelude::*;

verus! {

/// A poll after the events `evs`, and the action that it waits for.
pub open spec fn after(
    cfg: config::ConfigView,
    agent: tasks::AgentView,
    evs: Seq<tasks::EventView>,
) -> (poll::PollView, tasks::ActionView)
    decreases evs.len(),
{
    if evs.len() == 0 {
        poll::started(cfg, agent)
    } else {
        poll::stepped(after(cfg, agent, evs.drop_last()).0, evs.last())
    }
}

/// The answer of the server that the poll took, if it got that far.
pub open spec fn accepted(
    cfg: config::ConfigView,
    agent: tasks::AgentView,
    evs: Seq<tasks::EventView>,
) -> Option<wire::PollRespView>
    decreases evs.len(),
{
    if evs.len() == 0 {
        None
    } else {
        match accepted(cfg, agent, evs.drop_last()) {
            Some(r) => Some(r),
            None => match evs.last() {
                tasks::EventView::Reply(r) if after(cfg, agent, evs.drop_last()).1
                    is ReadReply => Some(r),
                _ => None,
            },
        }
    }
}

/// The configuration in line with the answer `r`: its bindings, deployments, base
/// URL and interval.
pub open spec fn kept(
    cfg: config::ConfigView,
    r: wire::PollRespView,
    deployed: Seq<(Seq<char>, Seq<char>)>,
) -> config::ConfigView {
    config::ConfigView {
        poll_interval_secs: config::kept_interval(r.poll_interval_secs),
        ..adopted(cfg, r, deployed)
    }
}

/// The configuration with the bindings, deployments and base URL of `r`.
pub open spec fn adopted(
    cfg: config::ConfigView,
    r: wire::PollRespView,
    deployed: Seq<(Seq<char>, Seq<char>)>,
) -> config::ConfigView {
    let c = listed(cfg, r, deployed);
    match reconcile::new_url(c.server_url, r.server_url) {
        Some(url) => config::ConfigView { server_url: url, ..c },
        None => c,
    }
}

/// The configuration with the bindings and deployments of `r`.
pub open spec fn listed(
    cfg: config::ConfigView,
    r: wire::PollRespView,
    deployed: Seq<(Seq<char>, Seq<char>)>,
) -> config::ConfigView {
    reconcile::reconciled(cfg, tasks::bindings_of(r), tasks::units_of(r), deployed)
}

/// The configuration when `n` of the tasks that keep what `r` says have begun.
spec fn stage(
    cfg: config::ConfigView,
    r: wire::PollRespView,
    deployed: Seq<(Seq<char>, Seq<char>)>,
    n: int,
) -> config::ConfigView {
    if n <= 0 {
        cfg
    } else if n == 1 {
        listed(cfg, r, deployed)
    } else if n == 2 {
        adopted(cfg, r, deployed)
    } else {
        kept(cfg, r, deployed)
    }
}

/// The action `a` is one that the task `t` needs.
pub open spec fn fits(agent: tasks::AgentView, t: tasks::TaskView, a: tasks::ActionView) -> bool {
    match t {
        tasks::TaskView::Snapshot { binding_id: _, path } => a == tasks::ActionView::ReadFile(path),
        tasks::TaskView::Probe { deployment_id: _, unit_name, version: _ } => a
            == tasks::ActionView::QueryUnit(unit_name),
        tasks::TaskView::Post => a is Post,
        tasks::TaskView::Receive => a is ReadReply,
        tasks::TaskView::Write { app_name, path, values } => a == (tasks::ActionView::WriteFile {
            app_name,
            count: values.len(),
            path,
            contents: envfile::rendered(values),
        }),
        tasks::TaskView::Tell(n) => a == tasks::ActionView::Tell(n),
        tasks::TaskView::Deploy { deployment_id, spec } => a == (tasks::ActionView::Deploy {
            deployment_id,
            spec,
        }),
        tasks::TaskView::Restart { deployment_id, unit_name } => a == (tasks::ActionView::Restart {
            deployment_id,
            unit_name,
        }),
        tasks::TaskView::Stop { deployment_id, unit_name } => a == (tasks::ActionView::Stop {
            deployment_id,
            unit_name,
        }),
        tasks::TaskView::FetchLogs { request_id: _, unit_name, lines } => a == (
        tasks::ActionView::FetchLogs { unit_name, lines }),
        tasks::TaskView::SendLogs(_) => a is SendLogs,
        tasks::TaskView::Create { path: _, request_id: _, action } => a
            == tasks::ActionView::Create(action),
        tasks::TaskView::List { path, request_id: _, error: _ } => a == (
        if browse::wants_drives(browse::listed_path(path), agent.windows) {
            tasks::ActionView::ListDrives
        } else {
            tasks::ActionView::ListDir(browse::listed_path(path))
        }),
        tasks::TaskView::SendListing(_) => a is SendListing,
        tasks::TaskView::Reconcile { .. } => a is Save,
        tasks::TaskView::SwitchUrl(_) => a is Save,
        tasks::TaskView::SyncInterval(_) => a is Save,
        tasks::TaskView::Upgrade { url, version } => a == (tasks::ActionView::Upgrade {
            url,
            version,
        }),
    }
}

/// The tasks of a poll, the current one of them or its end, and the action belong
/// together.
spec fn in_step(s: (poll::PollView, tasks::ActionView)) -> bool {
    match s.0.outcome {
        Some(o) => s.1 == tasks::ActionView::Finish(o),
        None => 0 <= s.0.at < s.0.tasks.len() && fits(s.0.agent, s.0.tasks[s.0.at], s.1),
    }
}

/// The tasks before the last of an opening only gather the report.
proof fn lemma_opening(cfg: config::ConfigView)
    ensures
        tasks::opening(cfg).len() > 0,
        tasks::opening(cfg).last() == tasks::TaskView::Post,
        forall|i: int|
            0 <= i < tasks::opening(cfg).len() - 1 ==> (#[trigger] tasks::opening(cfg)[i]) is Snapshot
                || tasks::opening(cfg)[i] is Probe,
{
    let fb = |b: config::BindingView| tasks::snapshot_tasks(b);
    let fd = |d: config::DeployRecordView| tasks::probe_tasks(d);
    let snapshots = tasks::collect(cfg.bindings, fb);
    let probes = tasks::collect(cfg.deployments, fd);
    let o = tasks::opening(cfg);
    assert forall|i: int| 0 <= i < o.len() - 1 implies (#[trigger] o[i]) is Snapshot
        || o[i] is Probe by {
        if i < snapshots.len() {
            let m = tasks::lemma_collect_member(cfg.bindings, fb, i);
            assert(o[i] == fb(cfg.bindings[m.0])[m.1]);
        } else {
            let m = tasks::lemma_collect_member(cfg.deployments, fd, i - snapshots.len());
            assert(o[i] == fd(cfg.deployments[m.0])[m.1]);
        }
    }
}

/// How many of the planned tasks write files, or complain that they cannot.
spec fn writes_len(r: wire::PollRespView) -> int {
    tasks::collect(r.bindings, |b: wire::BindingJobView| tasks::write_tasks(b)).len() as int
}

/// How many tasks are planned before those that keep what `r` says.
spec fn front_len(r: wire::PollRespView) -> int {
    writes_len(r) + tasks::collect(
        r.deployments,
        |d: wire::DeploymentJobInView| tasks::deploy_tasks(d),
    ).len() + tasks::log_tasks(r.logs).len() + tasks::browse_tasks(r.browse).len()
}

/// The tasks of a plan, in the order of its parts.
proof fn lemma_plan(r: wire::PollRespView, version: Seq<char>)
    ensures
        ({
            let pl = tasks::plan(r, version);
            let k = front_len(r);
            &&& 0 <= writes_len(r) <= k
            &&& pl.len() == k + 3 + tasks::upgrade_tasks(r.upgrade, version).len()
            &&& pl.skip(k) == tasks::keep_tasks(r) + tasks::upgrade_tasks(r.upgrade, version)
            &&& pl[k] == (tasks::TaskView::Reconcile {
                bindings: tasks::bindings_of(r),
                units: tasks::units_of(r),
            })
            &&& pl[k + 1] == tasks::TaskView::SwitchUrl(r.server_url)
            &&& pl[k + 2] == tasks::TaskView::SyncInterval(r.poll_interval_secs)
            &&& forall|i: int| k + 3 <= i < pl.len() ==> (#[trigger] pl[i]) is Upgrade
            &&& forall|i: int| 0 <= i < writes_len(r) ==> (#[trigger] pl[i]) is Write || pl[i] is Tell
            &&& forall|i: int|
                writes_len(r) <= i < k ==> (#[trigger] pl[i]) is Tell || pl[i] is Deploy
                    || pl[i] is Restart || pl[i] is Stop || pl[i] is FetchLogs || pl[i] is Create
                    || pl[i] is List
            &&& forall|i: int|
                writes_len(r) <= i < k && (#[trigger] pl[i]) is FetchLogs ==> tasks::log_tasks(
                    r.logs,
                ) == seq![pl[i]]
            &&& forall|i: int|
                writes_len(r) <= i < k && ((#[trigger] pl[i]) is Create || pl[i] is List)
                    ==> tasks::browse_tasks(r.browse) == seq![pl[i]]
        }),
{
    let fb = |b: wire::BindingJobView| tasks::write_tasks(b);
    let fd = |d: wire::DeploymentJobInView| tasks::deploy_tasks(d);
    let pl = tasks::plan(r, version);
    let k = front_len(r);
    let w = writes_len(r);
    let d = tasks::collect(r.deployments, fd).len() as int;
    assert(pl.skip(k) == tasks::keep_tasks(r) + tasks::upgrade_tasks(r.upgrade, version));
    assert forall|i: int| k <= i < pl.len() implies #[trigger] pl[i] == pl.skip(k)[i - k] by {}
    assert(pl[k] == pl.skip(k)[0]);
    assert(pl[k + 1] == pl.skip(k)[1]);
    assert(pl[k + 2] == pl.skip(k)[2]);
    assert forall|i: int| 0 <= i < w implies (#[trigger] pl[i]) is Write || pl[i] is Tell by {
        let m = tasks::lemma_collect_member(r.bindings, fb, i);
        assert(pl[i] == fb(r.bindings[m.0])[m.1]);
    }
    assert forall|i: int| w <= i < k implies ((#[trigger] pl[i]) is Tell || pl[i] is Deploy
        || pl[i] is Restart || pl[i] is Stop || pl[i] is FetchLogs || pl[i] is Create
        || pl[i] is List) && (pl[i] is FetchLogs ==> tasks::log_tasks(r.logs) == seq![pl[i]]) && (
    pl[i] is Create || pl[i] is List ==> tasks::browse_tasks(r.browse) == seq![pl[i]]) by {
        if i < w + d {
            let m = tasks::lemma_collect_member(r.deployments, fd, i - w);
            assert(pl[i] == fd(r.deployments[m.0])[m.1]);
        } else if i < w + d + tasks::log_tasks(r.logs).len() {
            assert(pl[i] == tasks::log_tasks(r.logs)[i - w - d]);
        } else {
            let l = tasks::log_tasks(r.logs).len();
            assert(pl[i] == tasks::browse_tasks(r.browse)[i - w - d - l]);
        }
    }
}

/// A poll that has not taken an answer yet: it gathers the report, or awaits what
/// the server says to it, or was given up for that.
spec fn asking(
    s: (poll::PollView, tasks::ActionView),
    cfg: config::ConfigView,
    agent: tasks::AgentView,
) -> bool {
    let p = s.0;
    let o = tasks::opening(cfg);
    &&& in_step(s)
    &&& p.cfg == cfg
    &&& p.agent == agent
    &&& p.deployed == Seq::<(Seq<char>, Seq<char>)>::empty()
    &&& p.tasks.len() == o.len()
    &&& 0 <= p.at < o.len()
    &&& forall|i: int| 0 <= i < o.len() - 1 ==> #[trigger] p.tasks[i] == o[i]
    &&& p.tasks.last() is Post || p.tasks.last() is Receive
    &&& p.outcome matches Some(e) ==> e is Failed
}

proof fn lemma_advanced_asking(
    p: poll::PollView,
    cfg: config::ConfigView,
    agent: tasks::AgentView,
)
    requires
        p.outcome is None,
        p.cfg == cfg,
        p.agent == agent,
        p.deployed == Seq::<(Seq<char>, Seq<char>)>::empty(),
        p.tasks.len() == tasks::opening(cfg).len(),
        0 <= p.at < tasks::opening(cfg).len(),
        forall|i: int|
            0 <= i < tasks::opening(cfg).len() - 1 ==> #[trigger] p.tasks[i] == tasks::opening(
                cfg,
            )[i],
        p.tasks.last() is Post || p.tasks.last() is Receive,
    ensures
        asking(poll::advanced(p), cfg, agent),
        poll::advanced(p).0.outcome is None,
    decreases p.tasks.len() - p.at,
{
    lemma_opening(cfg);
    let (q, a) = poll::issued(p, p.tasks[p.at]);
    if p.at < p.tasks.len() - 1 && a is None {
        lemma_advanced_asking(poll::PollView { at: p.at + 1, tasks: p.tasks, ..q }, cfg, agent);
    }
}

/// A poll that has taken the answer `r` and does what it asks for, or has ended
/// since.
spec fn serving(
    s: (poll::PollView, tasks::ActionView),
    cfg: config::ConfigView,
    agent: tasks::AgentView,
    r: wire::PollRespView,
) -> bool {
    let p = s.0;
    let base = tasks::opening(cfg).len();
    let pl = tasks::plan(r, agent.version);
    &&& in_step(s)
    &&& p.agent == agent
    &&& p.interval == r.poll_interval_secs
    &&& p.tasks.len() == base + pl.len()
    &&& base <= p.at <= p.tasks.len()
    &&& forall|i: int| p.at < i < p.tasks.len() ==> #[trigger] p.tasks[i] == pl[i - base]
    &&& p.at < p.tasks.len() ==> current_task(p, base as int, pl)
    &&& p.cfg == stage(cfg, r, p.deployed, p.at - base - front_len(r) + 1)
    &&& p.at < base + writes_len(r) ==> p.deployed.len() == 0
    &&& p.outcome is None ==> p.at < p.tasks.len()
    &&& p.outcome matches Some(tasks::OutcomeView::Done(n)) ==> n == p.interval && p.at
        == p.tasks.len()
}

/// The current task is the planned one, or what an earlier request goes on as.
spec fn current_task(p: poll::PollView, base: int, pl: Seq<tasks::TaskView>) -> bool {
    let planned = pl[p.at - base];
    match p.tasks[p.at] {
        tasks::TaskView::SendLogs(_) => planned is FetchLogs,
        tasks::TaskView::SendListing(_) => planned is Create || planned is List,
        tasks::TaskView::List { path, request_id, error } => match planned {
            tasks::TaskView::Create { path: p0, request_id: r0, action: _ } => path == p0
                && request_id == r0,
            _ => p.tasks[p.at] == planned,
        },
        _ => p.tasks[p.at] == planned,
    }
}

proof fn lemma_advanced_serving(
    p: poll::PollView,
    cfg: config::ConfigView,
    agent: tasks::AgentView,
    r: wire::PollRespView,
)
    requires
        p.outcome is None,
        p.agent == agent,
        p.interval == r.poll_interval_secs,
        p.tasks.len() == tasks::opening(cfg).len() + tasks::plan(r, agent.version).len(),
        tasks::opening(cfg).len() <= p.at <= p.tasks.len(),
        forall|i: int|
            p.at < i < p.tasks.len() ==> #[trigger] p.tasks[i] == tasks::plan(
                r,
                agent.version,
            )[i - tasks::opening(cfg).len()],
        p.at < p.tasks.len() ==> current_task(
            p,
            tasks::opening(cfg).len() as int,
            tasks::plan(r, agent.version),
        ),
        p.cfg == stage(cfg, r, p.deployed, p.at - tasks::opening(cfg).len() - front_len(r)),
        p.at < tasks::opening(cfg).len() + writes_len(r) ==> p.deployed.len() == 0,
    ensures
        serving(poll::advanced(p), cfg, agent, r),
    decreases p.tasks.len() - p.at,
{
    let base = tasks::opening(cfg).len();
    let pl = tasks::plan(r, agent.version);
    lemma_plan(r, agent.version);
    if p.at < p.tasks.len() {
        let (q, a) = poll::issued(p, p.tasks[p.at]);
        assert(q.cfg == stage(cfg, r, q.deployed, p.at - base - front_len(r) + 1));
        if a is None {
            lemma_advanced_serving(
                poll::PollView { at: p.at + 1, tasks: p.tasks, ..q },
                cfg,
                agent,
                r,
            );
        }
    }
}

/// Every run either has no answer yet or serves the one it took.
proof fn lemma_after(
    cfg: config::ConfigView,
    agent: tasks::AgentView,
    evs: Seq<tasks::EventView>,
)
    ensures
        match accepted(cfg, agent, evs) {
            None => asking(after(cfg, agent, evs), cfg, agent),
            Some(r) => serving(after(cfg, agent, evs), cfg, agent, r),
        },
    decreases evs.len(),
{
    lemma_opening(cfg);
    if evs.len() == 0 {
        lemma_advanced_asking(
            poll::PollView {
                cfg,
                agent,
                tasks: tasks::opening(cfg),
                at: 0,
                snapshots: seq![],
                reports: seq![],
                deployed: seq![],
                interval: cfg.poll_interval_secs,
                outcome: None,
            },
            cfg,
            agent,
        );
    } else {
        lemma_after(cfg, agent, evs.drop_last());
        let s = after(cfg, agent, evs.drop_last());
        let p = s.0;
        let ev = evs.last();
        match accepted(cfg, agent, evs.drop_last()) {
            None => lemma_stepped_asking(s, cfg, agent, ev),
            Some(r) => lemma_stepped_serving(s, cfg, agent, r, ev),
        }
    }
}

proof fn lemma_stepped_asking(
    s: (poll::PollView, tasks::ActionView),
    cfg: config::ConfigView,
    agent: tasks::AgentView,
    ev: tasks::EventView,
)
    requires
        asking(s, cfg, agent),
    ensures
        match ev {
            tasks::EventView::Reply(r) if s.1 is ReadReply => serving(
                poll::stepped(s.0, ev),
                cfg,
                agent,
                r,
            ),
            _ => asking(poll::stepped(s.0, ev), cfg, agent),
        },
{
    lemma_opening(cfg);
    let p = s.0;
    if p.outcome is None {
        match poll::absorbed(p, p.tasks[p.at], ev) {
            poll::After::Next(q) => {
                let next = poll::PollView { at: q.at + 1, ..q };
                if p.tasks[p.at] is Receive {
                    let r = ev->Reply_0;
                    lemma_plan(r, agent.version);
                    assert(next.tasks[next.at] == tasks::plan(r, agent.version)[0]);
                    lemma_advanced_serving(next, cfg, agent, r);
                } else {
                    lemma_advanced_asking(next, cfg, agent);
                }
            },
            poll::After::Again(q, t) => {
                let next = poll::PollView { tasks: q.tasks.update(q.at, t), ..q };
                lemma_advanced_asking(next, cfg, agent);
            },
            poll::After::Stop(q, e) => {},
        }
    }
}

proof fn lemma_stepped_serving(
    s: (poll::PollView, tasks::ActionView),
    cfg: config::ConfigView,
    agent: tasks::AgentView,
    r: wire::PollRespView,
    ev: tasks::EventView,
)
    requires
        serving(s, cfg, agent, r),
    ensures
        serving(poll::stepped(s.0, ev), cfg, agent, r),
{
    let p = s.0;
    let base = tasks::opening(cfg).len();
    lemma_plan(r, agent.version);
    if p.outcome is None {
        match poll::absorbed(p, p.tasks[p.at], ev) {
            poll::After::Next(q) => {
                let next = poll::PollView { at: q.at + 1, ..q };
                lemma_advanced_serving(next, cfg, agent, r);
            },
            poll::After::Again(q, t) => {
                let next = poll::PollView { tasks: q.tasks.update(q.at, t), ..q };
                lemma_advanced_serving(next, cfg, agent, r);
            },
            poll::After::Stop(q, e) => {},
        }
    }
}

/// Until the server has answered, a poll only looks: the configuration stays as it
/// was, nothing is deployed, and no action writes, deploys, creates or saves
/// anything. If it ends without an answer, it ends with an error.
pub proof fn law_no_answer_no_change(
    cfg: config::ConfigView,
    agent: tasks::AgentView,
    evs: Seq<tasks::EventView>,
)
    requires
        accepted(cfg, agent, evs) is None,
    ensures
        after(cfg, agent, evs).0.cfg == cfg,
        after(cfg, agent, evs).0.deployed.len() == 0,
        match after(cfg, agent, evs).1 {
            tasks::ActionView::ReadFile(_)
            | tasks::ActionView::QueryUnit(_)
            | tasks::ActionView::Post { .. }
            | tasks::ActionView::ReadReply => true,
            tasks::ActionView::Finish(o) => o is Failed,
            _ => false,
        },
{
    lemma_after(cfg, agent, evs);
    lemma_opening(cfg);
}

/// What the server says to the report decides at once: a rejected token, another
/// status than success and a request that did not get through each end the poll
/// with their own error and leave the configuration as it was, and success goes on
/// to read the answer.
pub proof fn law_refused_report_ends_poll(
    cfg: config::ConfigView,
    agent: tasks::AgentView,
    evs: Seq<tasks::EventView>,
    code: u16,
    status: Seq<char>,
    cause: Seq<char>,
)
    requires
        after(cfg, agent, evs).1 is Post,
    ensures
        ({
            let p = after(cfg, agent, evs).0;
            let told = poll::stepped(p, tasks::EventView::Status { code, text: status });
            let failed = poll::stepped(p, tasks::EventView::Failed(cause));
            &&& told.0.cfg == cfg
            &&& failed.0.cfg == cfg
            &&& failed.1 == finish(tasks::PollErrorView::Request(cause))
            &&& code == 401 ==> told.1 == finish(tasks::PollErrorView::Unauthorized)
            &&& code != 401 && !(200 <= code < 300) ==> told.1 == finish(
                tasks::PollErrorView::Status(status),
            )
            &&& 200 <= code < 300 ==> told.1 is ReadReply
        }),
{
    lemma_after(cfg, agent, evs);
    lemma_opening(cfg);
    match accepted(cfg, agent, evs) {
        None => {
            lemma_stepped_asking(
                after(cfg, agent, evs),
                cfg,
                agent,
                tasks::EventView::Status { code, text: status },
            );
        },
        Some(r) => {
            lemma_plan(r, agent.version);
        },
    }
}

/// An answer that cannot be understood ends the poll and leaves the configuration
/// as it was.
pub proof fn law_bad_answer_ends_poll(
    cfg: config::ConfigView,
    agent: tasks::AgentView,
    evs: Seq<tasks::EventView>,
    cause: Seq<char>,
)
    requires
        after(cfg, agent, evs).1 is ReadReply,
    ensures
        ({
            let next = poll::stepped(
                after(cfg, agent, evs).0,
                tasks::EventView::Failed(cause),
            );
            &&& next.0.cfg == cfg
            &&& next.1 == finish(tasks::PollErrorView::Reply(cause))
        }),
{
    lemma_after(cfg, agent, evs);
    lemma_opening(cfg);
    if let Some(r) = accepted(cfg, agent, evs) {
        lemma_plan(r, agent.version);
    }
}

/// The action that gives a poll up.
pub open spec fn finish(e: tasks::PollErrorView) -> tasks::ActionView {
    tasks::ActionView::Finish(tasks::OutcomeView::Failed(e))
}

/// A poll that ran to its end leaves the configuration in line with the answer it
/// took: the server's bindings and deployments, each deployment with the version
/// known to run, the base URL and the interval that the server wants. The token
/// and the identity stay.
pub proof fn law_done_poll_follows_server(
    cfg: config::ConfigView,
    agent: tasks::AgentView,
    evs: Seq<tasks::EventView>,
    secs: u64,
)
    requires
        after(cfg, agent, evs).1 == tasks::ActionView::Finish(tasks::OutcomeView::Done(secs)),
    ensures
        accepted(cfg, agent, evs) is Some,
        ({
            let r = accepted(cfg, agent, evs)->0;
            let p = after(cfg, agent, evs).0;
            &&& secs == r.poll_interval_secs
            &&& p.cfg == kept(cfg, r, p.deployed)
            &&& p.cfg.bindings == tasks::bindings_of(r)
            &&& p.cfg.deployments == reconcile::new_records(
                cfg.deployments,
                p.deployed,
                tasks::units_of(r),
            )
            &&& p.cfg.poll_interval_secs == config::kept_interval(secs)
            &&& p.cfg.server_url == (match reconcile::new_url(cfg.server_url, r.server_url) {
                Some(url) => url,
                None => cfg.server_url,
            })
        }),
{
    lemma_after(cfg, agent, evs);
    lemma_opening(cfg);
    if let Some(r) = accepted(cfg, agent, evs) {
        lemma_plan(r, agent.version);
    }
}

/// The identity of the agent is the same throughout every poll.
pub proof fn law_identity_is_kept(
    cfg: config::ConfigView,
    agent: tasks::AgentView,
    evs: Seq<tasks::EventView>,
)
    ensures
        after(cfg, agent, evs).0.cfg.token == cfg.token,
        after(cfg, agent, evs).0.cfg.client_id == cfg.client_id,
{
    lemma_after(cfg, agent, evs);
}

/// Env files are written only as the server asked: for a binding of the answer
/// with a write job, at the job's path or else the binding's, which is not empty,
/// and with the job's values.
pub proof fn law_writes_are_asked_for(
    cfg: config::ConfigView,
    agent: tasks::AgentView,
    evs: Seq<tasks::EventView>,
)
    requires
        after(cfg, agent, evs).1 is WriteFile,
    ensures
        accepted(cfg, agent, evs) is Some,
        exists|i: int|
            0 <= i < accepted(cfg, agent, evs)->0.bindings.len() && #[trigger] asks_for_write(
                accepted(cfg, agent, evs)->0.bindings[i],
                after(cfg, agent, evs).1,
            ),
{
    lemma_after(cfg, agent, evs);
    lemma_opening(cfg);
    if let Some(r) = accepted(cfg, agent, evs) {
        lemma_plan(r, agent.version);
        let (p, a) = after(cfg, agent, evs);
        let i = p.at - tasks::opening(cfg).len();
        let fb = |b: wire::BindingJobView| tasks::write_tasks(b);
        assert(tasks::plan(r, agent.version)[i] is Write);
        assert(0 <= i < writes_len(r));
        let m = tasks::lemma_collect_member(r.bindings, fb, i);
        assert(tasks::plan(r, agent.version)[i] == tasks::collect(r.bindings, fb)[i]);
        assert(asks_for_write(r.bindings[m.0], a));
    }
}

/// The binding `b` has a write job that asks for the action `a`.
pub open spec fn asks_for_write(b: wire::BindingJobView, a: tasks::ActionView) -> bool {
    match (b.job, a) {
        (
            Some(job),
            tasks::ActionView::WriteFile { app_name, count, path, contents },
        ) => {
            &&& job.job_type == "write"@
            &&& app_name == b.app_name
            &&& path.len() > 0
            &&& path == (if job.file_path.len() > 0 {
                job.file_path
            } else {
                b.file_path
            })
            &&& count == job.values.len()
            &&& contents == envfile::rendered(job.values)
        },
        _ => false,
    }
}

/// An env file that cannot be written ends the poll before anything was deployed
/// or kept.
pub proof fn law_failed_write_ends_poll(
    cfg: config::ConfigView,
    agent: tasks::AgentView,
    evs: Seq<tasks::EventView>,
    cause: Seq<char>,
)
    requires
        after(cfg, agent, evs).1 is WriteFile,
    ensures
        ({
            let next = poll::stepped(
                after(cfg, agent, evs).0,
                tasks::EventView::Failed(cause),
            );
            &&& next.0.cfg == cfg
            &&& next.0.deployed.len() == 0
            &&& next.1 == finish(
                tasks::PollErrorView::Write {
                    path: after(cfg, agent, evs).1->WriteFile_path,
                    cause,
                },
            )
        }),
{
    lemma_after(cfg, agent, evs);
    lemma_opening(cfg);
    if let Some(r) = accepted(cfg, agent, evs) {
        lemma_plan(r, agent.version);
        let p = after(cfg, agent, evs).0;
        assert(tasks::plan(r, agent.version)[p.at - tasks::opening(cfg).len()] is Write);
    }
}

/// What advancing does to a poll, whatever its tasks are.
proof fn lemma_advanced(p: poll::PollView)
    requires
        p.outcome is None,
    ensures
        ({
            let (q, a) = poll::advanced(p);
            &&& q.deployed == p.deployed
            &&& q.cfg != p.cfg ==> a == tasks::ActionView::Save(q.cfg)
            &&& a matches tasks::ActionView::Save(c) ==> c == q.cfg
            &&& match q.outcome {
                Some(o) => o == tasks::OutcomeView::Done(p.interval) && a
                    == tasks::ActionView::Finish(o),
                None => !(a is Finish),
            }
        }),
    decreases p.tasks.len() - p.at,
{
    if 0 <= p.at < p.tasks.len() {
        let (q, a) = poll::issued(p, p.tasks[p.at]);
        if a is None {
            lemma_advanced(poll::PollView { at: p.at + 1, tasks: p.tasks, ..q });
        }
    }
}

/// Whatever a step changes in the configuration is saved at once, and what is
/// saved is the configuration in use.
pub proof fn law_changes_are_saved(p: poll::PollView, ev: tasks::EventView)
    ensures
        ({
            let (q, a) = poll::stepped(p, ev);
            &&& q.cfg != p.cfg ==> a == tasks::ActionView::Save(q.cfg)
            &&& a matches tasks::ActionView::Save(c) ==> c == q.cfg
        }),
{
    if p.outcome is None {
        if 0 <= p.at < p.tasks.len() {
            match poll::absorbed(p, p.tasks[p.at], ev) {
                poll::After::Next(q) => lemma_advanced(poll::PollView { at: q.at + 1, ..q }),
                poll::After::Again(q, t) => lemma_advanced(
                    poll::PollView { tasks: q.tasks.update(q.at, t), ..q },
                ),
                poll::After::Stop(q, e) => {},
            }
        } else {
            lemma_advanced(p);
        }
    }
}

/// A poll that has ended stays as it is.
pub proof fn law_ended_poll_stays(p: poll::PollView, ev: tasks::EventView)
    requires
        p.outcome is Some,
    ensures
        poll::stepped(p, ev) == (p, tasks::ActionView::Finish(p.outcome->0)),
{
}

/// A deployment is noted exactly when it succeeded, and neither way is the poll
/// given up.
pub proof fn law_deployments_are_noted(
    cfg: config::ConfigView,
    agent: tasks::AgentView,
    evs: Seq<tasks::EventView>,
    cause: Seq<char>,
)
    requires
        after(cfg, agent, evs).1 is Deploy,
    ensures
        ({
            let (p, a) = after(cfg, agent, evs);
            let done = poll::stepped(p, tasks::EventView::Done);
            let failed = poll::stepped(p, tasks::EventView::Failed(cause));
            &&& done.0.deployed == p.deployed.push(
                (a->Deploy_deployment_id, a->Deploy_spec.version),
            )
            &&& failed.0.deployed == p.deployed
            &&& done.1 matches tasks::ActionView::Finish(o) ==> o is Done
            &&& failed.1 matches tasks::ActionView::Finish(o) ==> o is Done
        }),
{
    lemma_after(cfg, agent, evs);
    lemma_opening(cfg);
    if let Some(r) = accepted(cfg, agent, evs) {
        lemma_plan(r, agent.version);
        let (p, a) = after(cfg, agent, evs);
        let noted = p.deployed.push((a->Deploy_deployment_id, a->Deploy_spec.version));
        lemma_advanced(poll::PollView { at: p.at + 1, deployed: noted, ..p });
        lemma_advanced(poll::PollView { at: p.at + 1, ..p });
    }
}

/// An upgrade comes last of all, when the configuration is already in line with
/// the server, and only for the version that the server offers, which is another
/// than the agent's own. If it fails, that is how the poll ends.
pub proof fn law_upgrade_comes_last(
    cfg: config::ConfigView,
    agent: tasks::AgentView,
    evs: Seq<tasks::EventView>,
    ev: tasks::EventView,
)
    requires
        after(cfg, agent, evs).1 is Upgrade,
    ensures
        accepted(cfg, agent, evs) is Some,
        ({
            let r = accepted(cfg, agent, evs)->0;
            let (p, a) = after(cfg, agent, evs);
            &&& a->Upgrade_version != agent.version
            &&& r.upgrade == Some(
                wire::UpgradeView { version: a->Upgrade_version, url: a->Upgrade_url },
            )
            &&& p.cfg == kept(cfg, r, p.deployed)
            &&& poll::stepped(p, ev).1 == (match ev {
                tasks::EventView::Failed(cause) => finish(tasks::PollErrorView::Upgrade(cause)),
                _ => tasks::ActionView::Finish(tasks::OutcomeView::Done(r.poll_interval_secs)),
            })
        }),
{
    lemma_after(cfg, agent, evs);
    lemma_opening(cfg);
    if let Some(r) = accepted(cfg, agent, evs) {
        lemma_plan(r, agent.version);
        let p = after(cfg, agent, evs).0;
        let pl = tasks::plan(r, agent.version);
        let i = p.at - tasks::opening(cfg).len();
        assert(pl[i] is Upgrade);
        assert(i >= front_len(r) + 3);
        assert(pl[i] == pl.skip(front_len(r))[i - front_len(r)]);
    }
}

/// The bindings that have a file.
pub open spec fn filed(cfg: config::ConfigView) -> Seq<config::BindingView> {
    cfg.bindings.filter(|b: config::BindingView| b.file_path.len() > 0)
}

/// What is reported of the files, when `evs` came of reading them.
pub open spec fn snapshots_from(
    cfg: config::ConfigView,
    evs: Seq<tasks::EventView>,
) -> Seq<wire::SnapshotReportView> {
    Seq::new(
        filed(cfg).len(),
        |i: int|
            wire::SnapshotReportView {
                binding_id: filed(cfg)[i].binding_id,
                snapshot: match evs[i] {
                    tasks::EventView::Content(Some(c)) => envfile::parsed(c),
                    _ => seq![],
                },
            },
    )
}

/// What is reported of the deployments, when `evs` came of reading the files and,
/// on Linux, of asking for the state of each unit.
pub open spec fn reports_from(
    cfg: config::ConfigView,
    agent: tasks::AgentView,
    evs: Seq<tasks::EventView>,
) -> Seq<wire::DeployReportView> {
    Seq::new(
        cfg.deployments.len(),
        |i: int|
            poll::report_of(
                cfg.deployments[i].deployment_id,
                cfg.deployments[i].version,
                agent.linux,
                match evs[filed(cfg).len() + i] {
                    tasks::EventView::UnitOutput(o) if agent.linux => o,
                    _ => None,
                },
            ),
    )
}

/// How many events come before the report is complete.
pub open spec fn report_len(cfg: config::ConfigView, agent: tasks::AgentView) -> nat {
    if agent.linux {
        filed(cfg).len() + cfg.deployments.len()
    } else {
        filed(cfg).len()
    }
}

proof fn lemma_filed(bindings: Seq<config::BindingView>)
    ensures
        tasks::collect(bindings, |b: config::BindingView| tasks::snapshot_tasks(b))
            == bindings.filter(|b: config::BindingView| b.file_path.len() > 0).map_values(
            |b: config::BindingView|
                tasks::TaskView::Snapshot { binding_id: b.binding_id, path: b.file_path },
        ),
    decreases bindings.len(),
{
    reveal(Seq::filter);
    let has_file = |b: config::BindingView| b.file_path.len() > 0;
    let snapshot = |b: config::BindingView|
        tasks::TaskView::Snapshot { binding_id: b.binding_id, path: b.file_path };
    let f = |b: config::BindingView| tasks::snapshot_tasks(b);
    if bindings.len() > 0 {
        let front = bindings.drop_last();
        lemma_filed(front);
        assert(tasks::collect(bindings, f) == tasks::collect(front, f) + f(bindings.last()));
        if has_file(bindings.last()) {
            assert(bindings.filter(has_file) == front.filter(has_file).push(bindings.last()));
        }
    }
    assert(tasks::collect(bindings, f) == bindings.filter(has_file).map_values(snapshot));
}

proof fn lemma_probes(records: Seq<config::DeployRecordView>)
    ensures
        tasks::collect(records, |d: config::DeployRecordView| tasks::probe_tasks(d))
            == records.map_values(
            |d: config::DeployRecordView|
                tasks::TaskView::Probe {
                    deployment_id: d.deployment_id,
                    unit_name: d.unit_name,
                    version: d.version,
                },
        ),
    decreases records.len(),
{
    if records.len() > 0 {
        lemma_probes(records.drop_last());
    }
    assert(tasks::collect(records, |d: config::DeployRecordView| tasks::probe_tasks(d))
        =~= records.map_values(
        |d: config::DeployRecordView|
            tasks::TaskView::Probe {
                deployment_id: d.deployment_id,
                unit_name: d.unit_name,
                version: d.version,
            },
    ));
}

/// A poll that gathers the report and has taken the first `n` events into account.
spec fn gathering(
    p: poll::PollView,
    cfg: config::ConfigView,
    agent: tasks::AgentView,
    evs: Seq<tasks::EventView>,
    at: int,
) -> bool {
    let s = filed(cfg).len();
    &&& p.cfg == cfg
    &&& p.agent == agent
    &&& p.tasks == tasks::opening(cfg)
    &&& p.outcome is None
    &&& p.at == at
    &&& p.snapshots == snapshots_from(cfg, evs).take(if at < s {
        at
    } else {
        s as int
    })
    &&& p.reports == reports_from(cfg, agent, evs).take(if at < s {
        0
    } else {
        at - s
    })
}

/// The action that comes after the events `evs`, up to the sending of the report.
pub open spec fn report_action(
    cfg: config::ConfigView,
    agent: tasks::AgentView,
    evs: Seq<tasks::EventView>,
) -> tasks::ActionView {
    let s = filed(cfg).len();
    if evs.len() < s {
        tasks::ActionView::ReadFile(filed(cfg)[evs.len() as int].file_path)
    } else if evs.len() < report_len(cfg, agent) {
        tasks::ActionView::QueryUnit(cfg.deployments[evs.len() - s].unit_name)
    } else {
        tasks::ActionView::Post {
            url: cfg.server_url + "/api/client/poll"@,
            token: cfg.token,
            body: wire::PollReqView {
                version: agent.version,
                arch: agent.arch,
                server_url: cfg.server_url,
                snapshots: snapshots_from(cfg, evs),
                deployments: reports_from(cfg, agent, evs),
            },
        }
    }
}

proof fn lemma_gathering_advanced(
    p: poll::PollView,
    cfg: config::ConfigView,
    agent: tasks::AgentView,
    evs: Seq<tasks::EventView>,
    at: int,
)
    requires
        gathering(p, cfg, agent, evs, at),
        evs.len() <= report_len(cfg, agent),
        evs.len() <= at <= filed(cfg).len() + cfg.deployments.len(),
        agent.linux || evs.len() < filed(cfg).len() ==> at == evs.len(),
    ensures
        poll::advanced(p).1 == report_action(cfg, agent, evs),
        evs.len() < report_len(cfg, agent) ==> poll::advanced(p).0 == p,
    decreases tasks::opening(cfg).len() - at,
{
    lemma_filed(cfg.bindings);
    lemma_probes(cfg.deployments);
    let s = filed(cfg).len();
    let d = cfg.deployments.len();
    assert(tasks::opening(cfg).len() == s + d + 1);
    if at == s + d {
        assert(snapshots_from(cfg, evs).take(s as int) == snapshots_from(cfg, evs));
        assert(reports_from(cfg, agent, evs).take(d as int) == reports_from(cfg, agent, evs));
    } else if at >= s && !agent.linux {
        let q = poll::issued(p, p.tasks[at]).0;
        let next = poll::PollView { at: at + 1, tasks: p.tasks, ..q };
        let reports = reports_from(cfg, agent, evs);
        assert(q.reports == p.reports.push(reports[at - s]));
        assert(next.reports == reports.take(at + 1 - s));
        lemma_gathering_advanced(next, cfg, agent, evs, at + 1);
    }
}

proof fn lemma_gathering(
    cfg: config::ConfigView,
    agent: tasks::AgentView,
    evs: Seq<tasks::EventView>,
)
    requires
        evs.len() <= report_len(cfg, agent),
    ensures
        after(cfg, agent, evs).1 == report_action(cfg, agent, evs),
        evs.len() < report_len(cfg, agent) ==> gathering(
            after(cfg, agent, evs).0,
            cfg,
            agent,
            evs,
            evs.len() as int,
        ),
    decreases evs.len(),
{
    lemma_filed(cfg.bindings);
    lemma_probes(cfg.deployments);
    let s = filed(cfg).len();
    if evs.len() == 0 {
        let p = poll::PollView {
            cfg,
            agent,
            tasks: tasks::opening(cfg),
            at: 0,
            snapshots: seq![],
            reports: seq![],
            deployed: seq![],
            interval: cfg.poll_interval_secs,
            outcome: None,
        };
        assert(p.snapshots == snapshots_from(cfg, evs).take(0));
        assert(p.reports == reports_from(cfg, agent, evs).take(0));
        lemma_gathering_advanced(p, cfg, agent, evs, 0);
    } else {
        let front = evs.drop_last();
        let n = front.len() as int;
        lemma_gathering(cfg, agent, front);
        let p = after(cfg, agent, front).0;
        let next = match poll::absorbed(p, p.tasks[p.at], evs.last()) {
            poll::After::Next(q) => poll::PollView { at: q.at + 1, ..q },
            _ => p,
        };
        assert(next.at == n + 1);
        if n < s {
            let snapshots = snapshots_from(cfg, evs);
            assert(snapshots_from(cfg, front).take(n) == snapshots.take(n));
            assert(next.snapshots == snapshots.take(n).push(snapshots[n]));
            assert(next.snapshots == snapshots.take(n + 1));
            assert(reports_from(cfg, agent, front).take(0) == reports_from(cfg, agent, evs).take(
                0,
            ));
        } else {
            let reports = reports_from(cfg, agent, evs);
            assert(snapshots_from(cfg, front).take(s as int) == snapshots_from(cfg, evs).take(
                s as int,
            ));
            assert(reports_from(cfg, agent, front).take(n - s) == reports.take(n - s));
            assert(next.reports == reports.take(n - s).push(reports[n - s]));
            assert(next.reports == reports.take(n + 1 - s));
        }
        assert(gathering(next, cfg, agent, evs, n + 1));
        lemma_gathering_advanced(next, cfg, agent, evs, n + 1);
    }
}

/// A poll reads the file of every binding that has one, in order, asks for the
/// state of every deployment, in order, and then reports all of it in one request:
/// the parsed contents of each file (nothing for one that could not be read), and
/// each deployment with its state and the version on record.
pub proof fn law_report_is_complete(
    cfg: config::ConfigView,
    agent: tasks::AgentView,
    evs: Seq<tasks::EventView>,
)
    requires
        evs.len() <= report_len(cfg, agent),
    ensures
        after(cfg, agent, evs).1 == report_action(cfg, agent, evs),
{
    lemma_gathering(cfg, agent, evs);
}

/// How many events a task takes at most, with the tasks that it goes on as.
pub open spec fn weight(t: tasks::TaskView) -> nat {
    match t {
        tasks::TaskView::Create { .. } => 3,
        tasks::TaskView::List { .. } => 2,
        tasks::TaskView::FetchLogs { .. } => 2,
        tasks::TaskView::Post => 2,
        _ => 1,
    }
}

/// How many events the tasks take at most.
pub open spec fn load(ts: Seq<tasks::TaskView>) -> nat
    decreases ts.len(),
{
    if ts.len() == 0 {
        0
    } else {
        weight(ts.first()) + load(ts.drop_first())
    }
}

/// How many events a poll takes at most from here on.
spec fn pending(p: poll::PollView) -> nat {
    if p.outcome is Some {
        0
    } else {
        load(p.tasks.skip(p.at))
    }
}

proof fn lemma_load_from(ts: Seq<tasks::TaskView>, at: int)
    requires
        0 <= at < ts.len(),
    ensures
        load(ts.skip(at)) == weight(ts[at]) + load(ts.skip(at + 1)),
{
    assert(ts.skip(at).drop_first() == ts.skip(at + 1));
}

proof fn lemma_pending_advanced(p: poll::PollView)
    requires
        p.outcome is None,
        0 <= p.at <= p.tasks.len(),
    ensures
        pending(poll::advanced(p).0) <= load(p.tasks.skip(p.at)),
    decreases p.tasks.len() - p.at,
{
    if p.at < p.tasks.len() {
        lemma_load_from(p.tasks, p.at);
        let (q, a) = poll::issued(p, p.tasks[p.at]);
        if a is None {
            lemma_pending_advanced(poll::PollView { at: p.at + 1, tasks: p.tasks, ..q });
        }
    }
}

proof fn lemma_pending_stepped(p: poll::PollView, ev: tasks::EventView)
    requires
        p.outcome is None,
        0 <= p.at < p.tasks.len(),
        p.tasks[p.at] is Receive ==> p.at == p.tasks.len() - 1,
    ensures
        pending(p) > 0,
        match (p.tasks[p.at], ev) {
            (tasks::TaskView::Receive, tasks::EventView::Reply(r)) => pending(
                poll::stepped(p, ev).0,
            ) <= load(tasks::plan(r, p.agent.version)),
            _ => pending(poll::stepped(p, ev).0) < pending(p),
        },
{
    lemma_load_from(p.tasks, p.at);
    match poll::absorbed(p, p.tasks[p.at], ev) {
        poll::After::Next(q) => {
            let next = poll::PollView { at: q.at + 1, ..q };
            lemma_pending_advanced(next);
            if p.tasks[p.at] is Receive {
                let r = ev->Reply_0;
                assert(next.tasks.skip(next.at) == tasks::plan(r, p.agent.version));
            }
        },
        poll::After::Again(q, t) => {
            let next = poll::PollView { tasks: q.tasks.update(q.at, t), ..q };
            lemma_pending_advanced(next);
            lemma_load_from(next.tasks, next.at);
            assert(next.tasks.skip(next.at + 1) == p.tasks.skip(p.at + 1));
        },
        poll::After::Stop(q, e) => {},
    }
}

/// How many events a poll takes at most, with the answer `reply` if it has one.
pub open spec fn most_events(
    cfg: config::ConfigView,
    agent: tasks::AgentView,
    reply: Option<wire::PollRespView>,
) -> nat {
    load(tasks::opening(cfg)) + match reply {
        Some(r) => load(tasks::plan(r, agent.version)),
        None => 0,
    }
}

proof fn lemma_pending(
    cfg: config::ConfigView,
    agent: tasks::AgentView,
    evs: Seq<tasks::EventView>,
)
    ensures
        after(cfg, agent, evs).0.outcome is None ==> pending(after(cfg, agent, evs).0) > 0
            && pending(after(cfg, agent, evs).0) + evs.len() <= most_events(
            cfg,
            agent,
            accepted(cfg, agent, evs),
        ),
    decreases evs.len(),
{
    lemma_opening(cfg);
    lemma_after(cfg, agent, evs);
    let s = after(cfg, agent, evs);
    if s.0.outcome is None {
        lemma_load_from(s.0.tasks, s.0.at);
        if evs.len() == 0 {
            assert(tasks::opening(cfg).skip(0) == tasks::opening(cfg));
            lemma_pending_advanced(
                poll::PollView {
                    cfg,
                    agent,
                    tasks: tasks::opening(cfg),
                    at: 0,
                    snapshots: seq![],
                    reports: seq![],
                    deployed: seq![],
                    interval: cfg.poll_interval_secs,
                    outcome: None,
                },
            );
        } else {
            let front = evs.drop_last();
            lemma_pending(cfg, agent, front);
            lemma_after(cfg, agent, front);
            let p = after(cfg, agent, front).0;
            if let Some(r) = accepted(cfg, agent, front) {
                lemma_plan(r, agent.version);
            }
            lemma_pending_stepped(p, evs.last());
        }
    }
}

/// Every poll ends: there is a bound, given by the configuration and the answer, on
/// how many events it takes.
pub proof fn law_poll_ends(
    cfg: config::ConfigView,
    agent: tasks::AgentView,
    evs: Seq<tasks::EventView>,
)
    requires
        evs.len() >= most_events(cfg, agent, accepted(cfg, agent, evs)),
    ensures
        after(cfg, agent, evs).1 is Finish,
{
    lemma_pending(cfg, agent, evs);
    lemma_after(cfg, agent, evs);
}

/// A log request is always answered, with the journal or with the reason why there
/// is none.
pub proof fn law_log_request_is_answered(
    cfg: config::ConfigView,
    agent: tasks::AgentView,
    evs: Seq<tasks::EventView>,
    ev: tasks::EventView,
)
    requires
        after(cfg, agent, evs).1 is FetchLogs,
    ensures
        accepted(cfg, agent, evs) is Some,
        accepted(cfg, agent, evs)->0.logs is Some,
        ({
            let l = accepted(cfg, agent, evs)->0.logs->0;
            let (p, a) = after(cfg, agent, evs);
            &&& a == (tasks::ActionView::FetchLogs {
                unit_name: l.unit_name,
                lines: if l.lines == 0 {
                    tasks::DEFAULT_LOG_LINES
                } else {
                    l.lines
                },
            })
            &&& poll::stepped(p, ev).1 == (tasks::ActionView::SendLogs {
                url: cfg.server_url + "/api/client/log-result"@,
                token: cfg.token,
                body: wire::LogResultOutView {
                    request_id: l.request_id,
                    text: match ev {
                        tasks::EventView::Journal(t) => t,
                        _ => seq![],
                    },
                    error: match ev {
                        tasks::EventView::Failed(m) => m,
                        _ => seq![],
                    },
                },
            })
        }),
{
    lemma_after(cfg, agent, evs);
    lemma_opening(cfg);
    if let Some(r) = accepted(cfg, agent, evs) {
        lemma_plan(r, agent.version);
        let p = after(cfg, agent, evs).0;
        let planned = tasks::plan(r, agent.version)[p.at - tasks::opening(cfg).len()];
        assert(planned is FetchLogs);
        assert(tasks::log_tasks(r.logs)[0] == planned);
    }
}

/// What is told to have gone wrong before the listing that a browse request asks
/// for, when `last` is what came just before it: why the thing to create could not
/// be created, or that the request asks for something that is not known.
pub open spec fn error_before_listing(
    b: wire::BrowseReqView,
    last: tasks::EventView,
) -> Seq<char> {
    match (b.action, b.name) {
        (Some(action), Some(name)) => match browse::creation(b.path, action, name) {
            Some(_) => match last {
                tasks::EventView::Failed(m) => m,
                _ => seq![],
            },
            None => browse::unknown_action(action),
        },
        _ => seq![],
    }
}

/// A listing that is not the planned task follows what came of creating something.
proof fn lemma_listing_follows_creation(
    cfg: config::ConfigView,
    agent: tasks::AgentView,
    evs: Seq<tasks::EventView>,
)
    requires
        accepted(cfg, agent, evs) is Some,
        ({
            let p = after(cfg, agent, evs).0;
            let planned = tasks::plan(accepted(cfg, agent, evs)->0, agent.version)[p.at
                - tasks::opening(cfg).len()];
            &&& p.outcome is None
            &&& p.tasks[p.at] is List
            &&& planned is Create
        }),
    ensures
        evs.len() > 0,
        after(cfg, agent, evs).0.tasks[after(cfg, agent, evs).0.at]->List_error == (
        match evs.last() {
            tasks::EventView::Failed(m) => m,
            _ => seq![],
        }),
{
    let r = accepted(cfg, agent, evs)->0;
    let front = evs.drop_last();
    let base = tasks::opening(cfg).len();
    let pl = tasks::plan(r, agent.version);
    let s0 = after(cfg, agent, front);
    let p0 = s0.0;
    let p = after(cfg, agent, evs).0;
    lemma_after(cfg, agent, front);
    lemma_after(cfg, agent, evs);
    lemma_opening(cfg);
    lemma_plan(r, agent.version);
    if accepted(cfg, agent, front) is Some {
        if p0.outcome is None {
            match poll::absorbed(p0, p0.tasks[p0.at], evs.last()) {
                poll::After::Next(q) => {
                    let next = poll::PollView { at: q.at + 1, ..q };
                    lemma_advanced_keeps(next);
                    assert(p.tasks[p.at] == pl[p.at - base]);
                },
                poll::After::Again(q, t) => {
                    let next = poll::PollView { tasks: q.tasks.update(q.at, t), ..q };
                    assert(poll::issued(next, t).1 is Some);
                },
                poll::After::Stop(q, e) => {},
            }
        }
    } else {
        match poll::absorbed(p0, p0.tasks[p0.at], evs.last()) {
            poll::After::Next(q) => {
                let next = poll::PollView { at: q.at + 1, ..q };
                lemma_advanced_keeps(next);
                assert(p.tasks[p.at] == pl[p.at - base]);
            },
            _ => {},
        }
    }
}

/// Advancing changes no task and does not go back.
proof fn lemma_advanced_keeps(p: poll::PollView)
    ensures
        poll::advanced(p).0.tasks == p.tasks,
        poll::advanced(p).0.at >= p.at,
    decreases p.tasks.len() - p.at,
{
    if 0 <= p.at < p.tasks.len() {
        let (q, a) = poll::issued(p, p.tasks[p.at]);
        if a is None {
            lemma_advanced_keeps(poll::PollView { at: p.at + 1, tasks: p.tasks, ..q });
        }
    }
}

/// A browse request is always answered: with the listing of the path it names or
/// the reason why there is none, and with what went wrong before, if the listing
/// itself went well.
pub proof fn law_browse_request_is_answered(
    cfg: config::ConfigView,
    agent: tasks::AgentView,
    evs: Seq<tasks::EventView>,
    ev: tasks::EventView,
)
    requires
        after(cfg, agent, evs).1 is ListDir || after(cfg, agent, evs).1 is ListDrives,
    ensures
        accepted(cfg, agent, evs) is Some,
        accepted(cfg, agent, evs)->0.browse is Some,
        evs.len() > 0,
        ({
            let b = accepted(cfg, agent, evs)->0.browse->0;
            let (p, a) = after(cfg, agent, evs);
            let listed = browse::listed_path(b.path);
            let out = poll::listing_answer(b.path, b.request_id, agent.windows, ev);
            &&& a == (if browse::wants_drives(listed, agent.windows) {
                tasks::ActionView::ListDrives
            } else {
                tasks::ActionView::ListDir(listed)
            })
            &&& poll::stepped(p, ev).1 == (tasks::ActionView::SendListing {
                url: cfg.server_url + "/api/client/browse-result"@,
                token: cfg.token,
                body: wire::BrowseResultOutView {
                    error: poll::first_error(out.error, error_before_listing(b, evs.last())),
                    ..out
                },
            })
        }),
{
    lemma_after(cfg, agent, evs);
    lemma_opening(cfg);
    if let Some(r) = accepted(cfg, agent, evs) {
        lemma_plan(r, agent.version);
        let p = after(cfg, agent, evs).0;
        let planned = tasks::plan(r, agent.version)[p.at - tasks::opening(cfg).len()];
        assert(planned is Create || planned is List);
        assert(tasks::browse_tasks(r.browse)[0] == planned);
        if planned is Create {
            lemma_listing_follows_creation(cfg, agent, evs);
        }
    }
}

/// Whether a task may be over without any action.
pub open spec fn quiet(t: tasks::TaskView) -> bool {
    t is Probe || t is Reconcile || t is SwitchUrl || t is SyncInterval
}

/// Advancing never passes over a task that needs an action.
proof fn lemma_advanced_stops(p: poll::PollView, i: int)
    requires
        0 <= p.at <= i < p.tasks.len(),
        !quiet(p.tasks[i]),
        p.outcome is None,
    ensures
        poll::advanced(p).0.at <= i,
        poll::advanced(p).0.outcome is None,
        poll::advanced(p).0.tasks == p.tasks,
    decreases p.tasks.len() - p.at,
{
    let (q, a) = poll::issued(p, p.tasks[p.at]);
    if a is None {
        lemma_advanced_stops(poll::PollView { at: p.at + 1, tasks: p.tasks, ..q }, i);
    }
}

/// After the first `k` of the events, the task `t` has just been begun.
pub open spec fn begun_at(
    cfg: config::ConfigView,
    agent: tasks::AgentView,
    evs: Seq<tasks::EventView>,
    t: tasks::TaskView,
    k: int,
) -> bool {
    0 <= k <= evs.len() && fits(agent, t, after(cfg, agent, evs.take(k)).1)
}

/// A step that gets to a planned task begins it.
proof fn lemma_serving_arrives(
    s: (poll::PollView, tasks::ActionView),
    cfg: config::ConfigView,
    agent: tasks::AgentView,
    r: wire::PollRespView,
    ev: tasks::EventView,
    i: int,
)
    requires
        serving(s, cfg, agent, r),
        s.0.at < i < s.0.tasks.len(),
        !quiet(tasks::plan(r, agent.version)[i - tasks::opening(cfg).len()]),
        poll::stepped(s.0, ev).0.at >= i,
    ensures
        fits(
            agent,
            tasks::plan(r, agent.version)[i - tasks::opening(cfg).len()],
            poll::stepped(s.0, ev).1,
        ),
{
    let p = s.0;
    let t = tasks::plan(r, agent.version)[i - tasks::opening(cfg).len()];
    lemma_stepped_serving(s, cfg, agent, r, ev);
    if p.outcome is None {
        assert(p.tasks[i] == t);
        match poll::absorbed(p, p.tasks[p.at], ev) {
            poll::After::Next(q) => {
                lemma_plan(r, agent.version);
                assert(q.tasks == p.tasks);
                lemma_advanced_stops(poll::PollView { at: q.at + 1, ..q }, i);
            },
            poll::After::Again(q, t) => {
                let next = poll::PollView { tasks: q.tasks.update(q.at, t), ..q };
                assert(next.tasks[i] == p.tasks[i]);
                lemma_advanced_stops(next, i);
            },
            poll::After::Stop(q, e) => {},
        }
    }
}

/// Taking the answer begins the first planned task.
proof fn lemma_asking_arrives(
    s: (poll::PollView, tasks::ActionView),
    cfg: config::ConfigView,
    agent: tasks::AgentView,
    r: wire::PollRespView,
    i: int,
)
    requires
        asking(s, cfg, agent),
        s.1 is ReadReply,
        0 <= i - tasks::opening(cfg).len() < tasks::plan(r, agent.version).len(),
        !quiet(tasks::plan(r, agent.version)[i - tasks::opening(cfg).len()]),
        poll::stepped(s.0, tasks::EventView::Reply(r)).0.at >= i,
    ensures
        fits(
            agent,
            tasks::plan(r, agent.version)[i - tasks::opening(cfg).len()],
            poll::stepped(s.0, tasks::EventView::Reply(r)).1,
        ),
{
    let p = s.0;
    let ev = tasks::EventView::Reply(r);
    lemma_opening(cfg);
    lemma_stepped_asking(s, cfg, agent, ev);
    match poll::absorbed(p, p.tasks[p.at], ev) {
        poll::After::Next(q) => {
            let next = poll::PollView { at: q.at + 1, ..q };
            assert(next.tasks[i] == tasks::plan(r, agent.version)[i - tasks::opening(cfg).len()]);
            lemma_advanced_stops(next, i);
        },
        _ => {},
    }
}

proof fn lemma_begun(
    cfg: config::ConfigView,
    agent: tasks::AgentView,
    evs: Seq<tasks::EventView>,
    j: int,
)
    requires
        accepted(cfg, agent, evs) is Some,
        0 <= j < tasks::plan(accepted(cfg, agent, evs)->0, agent.version).len(),
        j <= after(cfg, agent, evs).0.at - tasks::opening(cfg).len(),
        !quiet(tasks::plan(accepted(cfg, agent, evs)->0, agent.version)[j]),
    ensures
        exists|k: int|
            begun_at(
                cfg,
                agent,
                evs,
                tasks::plan(accepted(cfg, agent, evs)->0, agent.version)[j],
                k,
            ),
    decreases evs.len(),
{
    let r = accepted(cfg, agent, evs)->0;
    let base = tasks::opening(cfg).len();
    let pl = tasks::plan(r, agent.version);
    let i = base + j;
    let front = evs.drop_last();
    lemma_after(cfg, agent, front);
    let s0 = after(cfg, agent, front);
    if accepted(cfg, agent, front) is Some && i <= s0.0.at {
        lemma_begun(cfg, agent, front, j);
        let k = choose|k: int| begun_at(cfg, agent, front, pl[j], k);
        assert(front.take(k) == evs.take(k));
        assert(begun_at(cfg, agent, evs, pl[j], k));
    } else {
        if accepted(cfg, agent, front) is Some {
            lemma_serving_arrives(s0, cfg, agent, r, evs.last(), i);
        } else {
            lemma_asking_arrives(s0, cfg, agent, r, i);
        }
        assert(evs.take(evs.len() as int) == evs);
        assert(begun_at(cfg, agent, evs, pl[j], evs.len() as int));
    }
}

/// A poll that ran to its end has begun every task that the answer asks for,
/// except where keeping what the server said needed no action.
pub proof fn law_every_task_is_begun(
    cfg: config::ConfigView,
    agent: tasks::AgentView,
    evs: Seq<tasks::EventView>,
    secs: u64,
    j: int,
)
    requires
        after(cfg, agent, evs).1 == tasks::ActionView::Finish(tasks::OutcomeView::Done(secs)),
        0 <= j < tasks::plan(accepted(cfg, agent, evs)->0, agent.version).len(),
        !quiet(tasks::plan(accepted(cfg, agent, evs)->0, agent.version)[j]),
    ensures
        exists|k: int|
            begun_at(
                cfg,
                agent,
                evs,
                tasks::plan(accepted(cfg, agent, evs)->0, agent.version)[j],
                k,
            ),
{
    law_done_poll_follows_server(cfg, agent, evs, secs);
    lemma_after(cfg, agent, evs);
    lemma_begun(cfg, agent, evs, j);
}

/// A poll that ran to its end has written the env file of every binding whose
/// write job names a path, or that names one itself.
pub proof fn law_every_write_is_made(
    cfg: config::ConfigView,
    agent: tasks::AgentView,
    evs: Seq<tasks::EventView>,
    secs: u64,
    i: int,
)
    requires
        after(cfg, agent, evs).1 == tasks::ActionView::Finish(tasks::OutcomeView::Done(secs)),
        0 <= i < accepted(cfg, agent, evs)->0.bindings.len(),
        ({
            let b = accepted(cfg, agent, evs)->0.bindings[i];
            &&& b.job matches Some(job)
            &&& job.job_type == "write"@
            &&& job.file_path.len() > 0 || b.file_path.len() > 0
        }),
    ensures
        exists|k: int|
            0 <= k <= evs.len() && asks_for_write(
                accepted(cfg, agent, evs)->0.bindings[i],
                (#[trigger] after(cfg, agent, evs.take(k))).1,
            ),
{
    let r = accepted(cfg, agent, evs)->0;
    let fb = |b: wire::BindingJobView| tasks::write_tasks(b);
    let j = tasks::lemma_collect_has(r.bindings, fb, i, 0);
    let pl = tasks::plan(r, agent.version);
    lemma_plan(r, agent.version);
    assert(pl[j] == tasks::collect(r.bindings, fb)[j]);
    law_every_task_is_begun(cfg, agent, evs, secs, j);
    let k = choose|k: int| begun_at(cfg, agent, evs, pl[j], k);
    assert(asks_for_write(r.bindings[i], after(cfg, agent, evs.take(k)).1));
}

/// A poll that ran to its end leaves a configuration that holds what the answer lists,
/// and that alone: one record for each deployment, in order, with its id and its unit
/// name, whether or not it had a job, and one binding for each binding, in order. The
/// interval is the one that the server asked for, if that is long enough.
pub proof fn law_done_poll_keeps_what_is_listed(
    cfg: config::ConfigView,
    agent: tasks::AgentView,
    evs: Seq<tasks::EventView>,
    secs: u64,
)
    requires
        after(cfg, agent, evs).1 == tasks::ActionView::Finish(tasks::OutcomeView::Done(secs)),
    ensures
        accepted(cfg, agent, evs) is Some,
        ({
            let r = accepted(cfg, agent, evs)->0;
            let p = after(cfg, agent, evs).0;
            &&& p.cfg.deployments.len() == r.deployments.len()
            &&& forall|i: int|
                #![trigger p.cfg.deployments[i]]
                #![trigger r.deployments[i]]
                0 <= i < r.deployments.len() ==> p.cfg.deployments[i].deployment_id
                    == r.deployments[i].deployment_id && p.cfg.deployments[i].unit_name
                    == r.deployments[i].unit_name && p.cfg.deployments[i].version
                    == reconcile::running_version(
                    cfg.deployments,
                    p.deployed,
                    r.deployments[i].deployment_id,
                )
            &&& p.cfg.bindings.len() == r.bindings.len()
            &&& forall|i: int|
                #![trigger p.cfg.bindings[i]]
                #![trigger r.bindings[i]]
                0 <= i < r.bindings.len() ==> p.cfg.bindings[i].binding_id
                    == r.bindings[i].binding_id && p.cfg.bindings[i].app_name
                    == r.bindings[i].app_name && p.cfg.bindings[i].file_path
                    == r.bindings[i].file_path
            &&& secs == r.poll_interval_secs
            &&& secs >= 3 ==> p.cfg.poll_interval_secs == secs
            &&& secs < 3 ==> p.cfg.poll_interval_secs == 3
        }),
{
    law_done_poll_follows_server(cfg, agent, evs, secs);
}

/// A poll that ran to its end has begun the upgrade that the server offers exactly if
/// that is another version than the agent's own: with the version and the URL of the
/// offer.
pub proof fn law_offered_upgrade_is_begun(
    cfg: config::ConfigView,
    agent: tasks::AgentView,
    evs: Seq<tasks::EventView>,
    secs: u64,
)
    requires
        after(cfg, agent, evs).1 == tasks::ActionView::Finish(tasks::OutcomeView::Done(secs)),
    ensures
        accepted(cfg, agent, evs) is Some,
        (exists|k: int|
            0 <= k <= evs.len() && (#[trigger] after(cfg, agent, evs.take(k))).1 is Upgrade) <==> (
        accepted(cfg, agent, evs)->0.upgrade matches Some(up) && up.version != agent.version),
        accepted(cfg, agent, evs)->0.upgrade matches Some(up) ==> up.version != agent.version
            ==> exists|k: int|
            0 <= k <= evs.len() && (#[trigger] after(cfg, agent, evs.take(k))).1 == (
            tasks::ActionView::Upgrade { url: up.url, version: up.version }),
{
    law_done_poll_follows_server(cfg, agent, evs, secs);
    let r = accepted(cfg, agent, evs)->0;
    let pl = tasks::plan(r, agent.version);
    tasks::law_plan(r, agent.version);
    if let Some(up) = r.upgrade {
        if up.version != agent.version {
            let j = pl.len() - 1;
            assert(pl[j] == (tasks::TaskView::Upgrade { url: up.url, version: up.version }));
            law_every_task_is_begun(cfg, agent, evs, secs, j);
            let k = choose|k: int| begun_at(cfg, agent, evs, pl[j], k);
            assert(after(cfg, agent, evs.take(k)).1 == (tasks::ActionView::Upgrade {
                url: up.url,
                version: up.version,
            }));
        }
    }
    assert forall|k: int|
        0 <= k <= evs.len() && (#[trigger] after(cfg, agent, evs.take(k))).1 is Upgrade implies (
    r.upgrade matches Some(up) && up.version != agent.version) by {
        law_upgrade_comes_last(cfg, agent, evs.take(k), tasks::EventView::Done);
        lemma_accepted_stays(cfg, agent, evs, k);
    }
}

/// The answer that was taken stays the same.
proof fn lemma_accepted_stays(
    cfg: config::ConfigView,
    agent: tasks::AgentView,
    evs: Seq<tasks::EventView>,
    k: int,
)
    requires
        0 <= k <= evs.len(),
        accepted(cfg, agent, evs.take(k)) is Some,
    ensures
        accepted(cfg, agent, evs) == accepted(cfg, agent, evs.take(k)),
    decreases evs.len(),
{
    if k < evs.len() {
        assert(evs.drop_last().take(k) == evs.take(k));
        lemma_accepted_stays(cfg, agent, evs.drop_last(), k);
    } else {
        assert(evs.take(k) == evs);
    }
}

/// A planned task in a poll that ran to its end was begun.
proof fn lemma_planned(
    cfg: config::ConfigView,
    agent: tasks::AgentView,
    evs: Seq<tasks::EventView>,
    secs: u64,
    j: int,
) -> (k: int)
    requires
        after(cfg, agent, evs).1 == tasks::ActionView::Finish(tasks::OutcomeView::Done(secs)),
        0 <= j < tasks::plan(accepted(cfg, agent, evs)->0, agent.version).len(),
        !quiet(tasks::plan(accepted(cfg, agent, evs)->0, agent.version)[j]),
    ensures
        0 <= k <= evs.len(),
        fits(
            agent,
            tasks::plan(accepted(cfg, agent, evs)->0, agent.version)[j],
            after(cfg, agent, evs.take(k)).1,
        ),
{
    law_every_task_is_begun(cfg, agent, evs, secs, j);
    choose|k: int|
        begun_at(
            cfg,
            agent,
            evs,
            tasks::plan(accepted(cfg, agent, evs)->0, agent.version)[j],
            k,
        )
}

/// A poll that ran to its end has done what each write job of the answer asks for: the
/// values are written to the job's path, or else to the binding's, and where neither
/// has one the user is told.
pub proof fn law_every_write_job_is_done(
    cfg: config::ConfigView,
    agent: tasks::AgentView,
    evs: Seq<tasks::EventView>,
    secs: u64,
    i: int,
    job: wire::JobView,
)
    requires
        after(cfg, agent, evs).1 == tasks::ActionView::Finish(tasks::OutcomeView::Done(secs)),
        0 <= i < accepted(cfg, agent, evs)->0.bindings.len(),
        accepted(cfg, agent, evs)->0.bindings[i].job == Some(job),
        job.job_type == "write"@,
    ensures
        ({
            let b = accepted(cfg, agent, evs)->0.bindings[i];
            let path = if job.file_path.len() > 0 {
                job.file_path
            } else {
                b.file_path
            };
            exists|k: int|
                0 <= k <= evs.len() && (#[trigger] after(cfg, agent, evs.take(k))).1 == (
                if path.len() > 0 {
                    tasks::ActionView::WriteFile {
                        app_name: b.app_name,
                        count: job.values.len(),
                        path,
                        contents: envfile::rendered(job.values),
                    }
                } else {
                    tasks::ActionView::Tell(
                        tasks::NoticeView::NoFilePath { app_name: b.app_name },
                    )
                })
        }),
{
    let r = accepted(cfg, agent, evs)->0;
    let fb = |b: wire::BindingJobView| tasks::write_tasks(b);
    let j = tasks::lemma_collect_has(r.bindings, fb, i, 0);
    let pl = tasks::plan(r, agent.version);
    lemma_plan(r, agent.version);
    assert(pl[j] == tasks::collect(r.bindings, fb)[j]);
    let k = lemma_planned(cfg, agent, evs, secs, j);
    assert(fits(agent, pl[j], after(cfg, agent, evs.take(k)).1));
}

/// Env files are written only for a write job of the answer, with its values and where
/// it says.
pub proof fn law_no_other_write(
    cfg: config::ConfigView,
    agent: tasks::AgentView,
    evs: Seq<tasks::EventView>,
)
    requires
        after(cfg, agent, evs).1 is WriteFile,
    ensures
        accepted(cfg, agent, evs) is Some,
        ({
            let r = accepted(cfg, agent, evs)->0;
            exists|i: int|
                0 <= i < r.bindings.len() && (#[trigger] r.bindings[i]).job is Some
                    && r.bindings[i].job->0.job_type == "write"@ && after(cfg, agent, evs).1 == (
                tasks::ActionView::WriteFile {
                    app_name: r.bindings[i].app_name,
                    count: r.bindings[i].job->0.values.len(),
                    path: if r.bindings[i].job->0.file_path.len() > 0 {
                        r.bindings[i].job->0.file_path
                    } else {
                        r.bindings[i].file_path
                    },
                    contents: envfile::rendered(r.bindings[i].job->0.values),
                })
        }),
{
    law_writes_are_asked_for(cfg, agent, evs);
    let r = accepted(cfg, agent, evs)->0;
    let i = choose|i: int|
        0 <= i < r.bindings.len() && #[trigger] asks_for_write(
            r.bindings[i],
            after(cfg, agent, evs).1,
        );
    assert(r.bindings[i].job is Some);
}

/// What the job of a deployment asks for, with the fields of the job as they are.
pub open spec fn asked_of(id: Seq<char>, job: wire::DeployJobInView) -> tasks::ActionView {
    if job.action == "deploy"@ {
        tasks::ActionView::Deploy {
            deployment_id: id,
            spec: deploy::DeploySpecView {
                version: job.version,
                signed_url: job.signed_url,
                kind: job.kind,
                run_cmd: job.run_cmd,
                prepare_cmd: job.prepare_cmd,
                deploy_root: job.deploy_root,
                unit_name: job.unit_name,
                env_file: job.env_file,
                env_values: job.env_values,
            },
        }
    } else if job.action == "restart"@ {
        tasks::ActionView::Restart { deployment_id: id, unit_name: job.unit_name }
    } else if job.action == "stop"@ {
        tasks::ActionView::Stop { deployment_id: id, unit_name: job.unit_name }
    } else {
        tasks::ActionView::Tell(tasks::NoticeView::UnknownAction { action: job.action })
    }
}

/// A poll that ran to its end has begun what the job of each deployment asks for, and
/// told the user of each job that asks for something unknown.
pub proof fn law_every_deployment_job_is_begun(
    cfg: config::ConfigView,
    agent: tasks::AgentView,
    evs: Seq<tasks::EventView>,
    secs: u64,
    i: int,
)
    requires
        after(cfg, agent, evs).1 == tasks::ActionView::Finish(tasks::OutcomeView::Done(secs)),
        0 <= i < accepted(cfg, agent, evs)->0.deployments.len(),
        accepted(cfg, agent, evs)->0.deployments[i].job is Some,
    ensures
        ({
            let d = accepted(cfg, agent, evs)->0.deployments[i];
            exists|k: int|
                0 <= k <= evs.len() && (#[trigger] after(cfg, agent, evs.take(k))).1 == asked_of(
                    d.deployment_id,
                    d.job->0,
                )
        }),
{
    let r = accepted(cfg, agent, evs)->0;
    let fb = |b: wire::BindingJobView| tasks::write_tasks(b);
    let fd = |d: wire::DeploymentJobInView| tasks::deploy_tasks(d);
    let j = tasks::lemma_collect_has(r.deployments, fd, i, 0);
    let pl = tasks::plan(r, agent.version);
    let w = tasks::collect(r.bindings, fb).len();
    lemma_plan(r, agent.version);
    assert(pl[w + j] == tasks::collect(r.deployments, fd)[j]);
    let k = lemma_planned(cfg, agent, evs, secs, w + j);
    assert(fits(agent, pl[w + j], after(cfg, agent, evs.take(k)).1));
}

/// Deployments are acted on only as the answer asks: for a deployment with a job, and
/// as the job says.
pub proof fn law_no_other_deployment_action(
    cfg: config::ConfigView,
    agent: tasks::AgentView,
    evs: Seq<tasks::EventView>,
)
    requires
        after(cfg, agent, evs).1 is Deploy || after(cfg, agent, evs).1 is Restart || after(
            cfg,
            agent,
            evs,
        ).1 is Stop,
    ensures
        accepted(cfg, agent, evs) is Some,
        ({
            let r = accepted(cfg, agent, evs)->0;
            exists|i: int|
                0 <= i < r.deployments.len() && (#[trigger] r.deployments[i]).job is Some && after(
                    cfg,
                    agent,
                    evs,
                ).1 == asked_of(r.deployments[i].deployment_id, r.deployments[i].job->0)
        }),
{
    lemma_after(cfg, agent, evs);
    lemma_opening(cfg);
    if let Some(r) = accepted(cfg, agent, evs) {
        lemma_plan(r, agent.version);
        let (p, a) = after(cfg, agent, evs);
        let fb = |b: wire::BindingJobView| tasks::write_tasks(b);
        let fd = |d: wire::DeploymentJobInView| tasks::deploy_tasks(d);
        let i = p.at - tasks::opening(cfg).len();
        let pl = tasks::plan(r, agent.version);
        let w = tasks::collect(r.bindings, fb).len();
        let d = tasks::collect(r.deployments, fd).len();
        assert(pl[i] is Deploy || pl[i] is Restart || pl[i] is Stop);
        assert(w <= i);
        if i >= w + d {
            let l = tasks::log_tasks(r.logs).len();
            if i < w + d + l {
                assert(pl[i] == tasks::log_tasks(r.logs)[i - w - d]);
            } else if i < front_len(r) {
                assert(pl[i] == tasks::browse_tasks(r.browse)[i - w - d - l]);
            }
            assert(false);
        }
        let m = tasks::lemma_collect_member(r.deployments, fd, i - w);
        assert(pl[i] == tasks::collect(r.deployments, fd)[i - w]);
        assert(r.deployments[m.0].job is Some);
    }
}

/// A poll that ran to its end has fetched the journal that the answer asks for: of the
/// unit that it names, and as many lines as it wants, or two hundred if it does not say.
pub proof fn law_log_request_is_begun(
    cfg: config::ConfigView,
    agent: tasks::AgentView,
    evs: Seq<tasks::EventView>,
    secs: u64,
    l: wire::LogReqInView,
)
    requires
        after(cfg, agent, evs).1 == tasks::ActionView::Finish(tasks::OutcomeView::Done(secs)),
        accepted(cfg, agent, evs)->0.logs == Some(l),
    ensures
        exists|k: int|
            0 <= k <= evs.len() && (#[trigger] after(cfg, agent, evs.take(k))).1 == (
            tasks::ActionView::FetchLogs {
                unit_name: l.unit_name,
                lines: if l.lines > 0 {
                    l.lines
                } else {
                    200
                },
            }),
{
    let r = accepted(cfg, agent, evs)->0;
    let pl = tasks::plan(r, agent.version);
    let j = r.bindings.filter(
        |b: wire::BindingJobView| b.job is Some && b.job->0.job_type == "write"@,
    ).len() + r.deployments.filter(|d: wire::DeploymentJobInView| d.job is Some).len();
    tasks::law_plan(r, agent.version);
    assert(pl[j as int] is FetchLogs);
    let k = lemma_planned(cfg, agent, evs, secs, j as int);
    assert(fits(agent, pl[j as int], after(cfg, agent, evs.take(k)).1));
}

/// A poll that ran to its end has sent what a listing gave, if the answer asks for one.
pub proof fn law_browse_request_is_begun(
    cfg: config::ConfigView,
    agent: tasks::AgentView,
    evs: Seq<tasks::EventView>,
    secs: u64,
    b: wire::BrowseReqView,
)
    requires
        after(cfg, agent, evs).1 == tasks::ActionView::Finish(tasks::OutcomeView::Done(secs)),
        accepted(cfg, agent, evs)->0.browse == Some(b),
    ensures
        ({
            let create = if b.action is Some && b.name is Some {
                browse::creation(b.path, b.action->0, b.name->0)
            } else {
                None
            };
            let path = browse::listed_path(b.path);
            exists|k: int|
                0 <= k <= evs.len() && (#[trigger] after(cfg, agent, evs.take(k))).1 == (
                if create is Some {
                    tasks::ActionView::Create(create->0)
                } else if browse::wants_drives(path, agent.windows) {
                    tasks::ActionView::ListDrives
                } else {
                    tasks::ActionView::ListDir(path)
                })
        }),
{
    let r = accepted(cfg, agent, evs)->0;
    let pl = tasks::plan(r, agent.version);
    let j = r.bindings.filter(
        |b: wire::BindingJobView| b.job is Some && b.job->0.job_type == "write"@,
    ).len() + r.deployments.filter(|d: wire::DeploymentJobInView| d.job is Some).len() + (
    if r.logs is Some {
        1int
    } else {
        0
    });
    tasks::law_plan(r, agent.version);
    assert(pl[j] is Create || pl[j] is List);
    let k = lemma_planned(cfg, agent, evs, secs, j);
    assert(fits(agent, pl[j], after(cfg, agent, evs.take(k)).1));
}

/// Whatever came of creating something, the directory is listed next, and the listing
/// is asked for at once where there is nothing to create.
pub proof fn law_listing_follows_creation(
    cfg: config::ConfigView,
    agent: tasks::AgentView,
    evs: Seq<tasks::EventView>,
    ev: tasks::EventView,
)
    requires
        after(cfg, agent, evs).1 is Create,
    ensures
        accepted(cfg, agent, evs) is Some,
        accepted(cfg, agent, evs)->0.browse matches Some(b) && b.action is Some && b.name is Some
            && browse::creation(b.path, b.action->0, b.name->0) == Some(
            after(cfg, agent, evs).1->Create_0,
        ) && poll::stepped(after(cfg, agent, evs).0, ev).1 == (if browse::wants_drives(
            browse::listed_path(b.path),
            agent.windows,
        ) {
            tasks::ActionView::ListDrives
        } else {
            tasks::ActionView::ListDir(browse::listed_path(b.path))
        }),
{
    lemma_after(cfg, agent, evs);
    lemma_opening(cfg);
    if let Some(r) = accepted(cfg, agent, evs) {
        lemma_plan(r, agent.version);
        let p = after(cfg, agent, evs).0;
        let planned = tasks::plan(r, agent.version)[p.at - tasks::opening(cfg).len()];
        assert(planned is Create);
        assert(tasks::browse_tasks(r.browse)[0] == planned);
    }
}

/// A poll is given up only for one of four reasons: the report was not accepted, the
/// answer was not one, an env file could not be written, or the upgrade failed. The
/// error tells which, in the words of whoever reported it. Nothing else that fails
/// ends a poll.
pub proof fn law_only_four_failures_end_a_poll(
    cfg: config::ConfigView,
    agent: tasks::AgentView,
    evs: Seq<tasks::EventView>,
    ev: tasks::EventView,
    e: tasks::PollErrorView,
)
    requires
        !(after(cfg, agent, evs).1 is Finish),
        poll::stepped(after(cfg, agent, evs).0, ev).1 == tasks::ActionView::Finish(
            tasks::OutcomeView::Failed(e),
        ),
    ensures
        match after(cfg, agent, evs).1 {
            tasks::ActionView::Post { .. } => match ev {
                tasks::EventView::Status { code, text } => !(200 <= code < 300) && e == (if code
                    == 401 {
                    tasks::PollErrorView::Unauthorized
                } else {
                    tasks::PollErrorView::Status(text)
                }),
                tasks::EventView::Failed(m) => e == tasks::PollErrorView::Request(m),
                _ => e == tasks::PollErrorView::Request(seq![]),
            },
            tasks::ActionView::ReadReply => match ev {
                tasks::EventView::Reply(_) => false,
                tasks::EventView::Failed(m) => e == tasks::PollErrorView::Reply(m),
                _ => e == tasks::PollErrorView::Reply(seq![]),
            },
            tasks::ActionView::WriteFile { app_name: _, count: _, path, contents: _ } => ev matches
                tasks::EventView::Failed(m) && e == (tasks::PollErrorView::Write {
                path,
                cause: m,
            }),
            tasks::ActionView::Upgrade { .. } => ev matches tasks::EventView::Failed(m) && e
                == tasks::PollErrorView::Upgrade(m),
            _ => false,
        },
{
    lemma_after(cfg, agent, evs);
    let p = after(cfg, agent, evs).0;
    match poll::absorbed(p, p.tasks[p.at], ev) {
        poll::After::Next(q) => lemma_advanced(poll::PollView { at: q.at + 1, ..q }),
        poll::After::Again(q, t) => lemma_advanced(
            poll::PollView { tasks: q.tasks.update(q.at, t), ..q },
        ),
        poll::After::Stop(q, e) => {},
    }
}

/// Only a deployment that was carried out is noted: with the id and the version that
/// it was asked for with.
pub proof fn law_nothing_else_is_noted(
    cfg: config::ConfigView,
    agent: tasks::AgentView,
    evs: Seq<tasks::EventView>,
    ev: tasks::EventView,
)
    ensures
        ({
            let (p, a) = after(cfg, agent, evs);
            let noted = poll::stepped(p, ev).0.deployed;
            match a {
                tasks::ActionView::Deploy { deployment_id, spec } if ev is Done => noted
                    == p.deployed.push((deployment_id, spec.version)),
                _ => noted == p.deployed,
            }
        }),
        after(cfg, agent, seq![]).0.deployed.len() == 0,
{
    lemma_after(cfg, agent, evs);
    let none: Seq<tasks::EventView> = seq![];
    lemma_after(cfg, agent, none);
    let p = after(cfg, agent, evs).0;
    if p.outcome is None {
        match poll::absorbed(p, p.tasks[p.at], ev) {
            poll::After::Next(q) => lemma_advanced(poll::PollView { at: q.at + 1, ..q }),
            poll::After::Again(q, t) => lemma_advanced(
                poll::PollView { tasks: q.tasks.update(q.at, t), ..q },
            ),
            poll::After::Stop(q, e) => {},
        }
    }
}

/// What a poll reports, item by item: for each binding with a file, in order, what the
/// file holds, or nothing if it could not be read, and each deployment on record, in
/// order, with its version and its state.
pub proof fn law_report_item_by_item(
    cfg: config::ConfigView,
    agent: tasks::AgentView,
    evs: Seq<tasks::EventView>,
)
    requires
        evs.len() <= cfg.bindings.filter(|b: config::BindingView| b.file_path.len() > 0).len() + (
        if agent.linux {
            cfg.deployments.len()
        } else {
            0
        }),
    ensures
        ({
            let files = cfg.bindings.filter(|b: config::BindingView| b.file_path.len() > 0);
            let s = files.len();
            let n = s + (if agent.linux {
                cfg.deployments.len()
            } else {
                0
            });
            let a = after(cfg, agent, evs).1;
            &&& evs.len() < s ==> a == tasks::ActionView::ReadFile(
                files[evs.len() as int].file_path,
            )
            &&& s <= evs.len() < n ==> a == tasks::ActionView::QueryUnit(
                cfg.deployments[evs.len() - s].unit_name,
            )
            &&& evs.len() == n ==> a is Post && {
                let body = a->Post_body;
                &&& a->Post_url == cfg.server_url + "/api/client/poll"@
                &&& a->Post_token == cfg.token
                &&& body.version == agent.version
                &&& body.arch == agent.arch
                &&& body.server_url == cfg.server_url
                &&& body.snapshots.len() == s
                &&& forall|i: int|
                    0 <= i < s ==> (#[trigger] body.snapshots[i]).binding_id == files[i].binding_id
                        && (match evs[i] {
                        tasks::EventView::Content(Some(c)) => body.snapshots[i].snapshot
                            == envfile::parsed(c),
                        _ => body.snapshots[i].snapshot.len() == 0,
                    })
                &&& body.deployments.len() == cfg.deployments.len()
                &&& forall|i: int|
                    0 <= i < cfg.deployments.len() ==> (#[trigger] body.deployments[i]).deployment_id
                        == cfg.deployments[i].deployment_id && body.deployments[i].version
                        == cfg.deployments[i].version && body.deployments[i].error.len() == 0
                        && body.deployments[i].state == (if agent.linux {
                        deploy::unit_state(
                            true,
                            match evs[s + i] {
                                tasks::EventView::UnitOutput(o) => o,
                                _ => None,
                            },
                        )
                    } else {
                        "unknown"@
                    })
            }
        }),
{
    law_report_is_complete(cfg, agent, evs);
}

/// The answer to a browse request, as it is sent: under the request's id, what the
/// listing gave for the path that the request names, with the error of the listing, or
/// else with what went wrong before it.
pub proof fn law_listing_is_sent(
    cfg: config::ConfigView,
    agent: tasks::AgentView,
    evs: Seq<tasks::EventView>,
    canonical: Option<Seq<char>>,
    windows_parent: Option<Seq<char>>,
    listing: browse::ListingView,
    cause: Seq<char>,
)
    requires
        after(cfg, agent, evs).1 is ListDir || after(cfg, agent, evs).1 is ListDrives,
    ensures
        accepted(cfg, agent, evs) is Some,
        accepted(cfg, agent, evs)->0.browse is Some,
        evs.len() > 0,
        ({
            let b = accepted(cfg, agent, evs)->0.browse->0;
            let p = after(cfg, agent, evs).0;
            let listed = poll::stepped(
                p,
                tasks::EventView::Listed { canonical, windows_parent, listing },
            ).1;
            let failed = poll::stepped(p, tasks::EventView::Failed(cause)).1;
            let out = browse::browse_result(
                b.path,
                b.request_id,
                agent.windows,
                canonical,
                windows_parent,
                listing,
            );
            let none = browse::browse_result(
                b.path,
                b.request_id,
                agent.windows,
                None,
                None,
                browse::ListingView::Failed(cause),
            );
            let before = if b.action is Some && b.name is Some {
                if browse::creation(b.path, b.action->0, b.name->0) is None {
                    browse::unknown_action(b.action->0)
                } else {
                    match evs.last() {
                        tasks::EventView::Failed(m) => m,
                        _ => seq![],
                    }
                }
            } else {
                seq![]
            };
            &&& listed == (tasks::ActionView::SendListing {
                url: cfg.server_url + "/api/client/browse-result"@,
                token: cfg.token,
                body: wire::BrowseResultOutView {
                    request_id: b.request_id,
                    path: out.path,
                    parent: out.parent,
                    entries: out.entries,
                    error: if out.error.len() > 0 {
                        out.error
                    } else {
                        before
                    },
                },
            })
            &&& failed == (tasks::ActionView::SendListing {
                url: cfg.server_url + "/api/client/browse-result"@,
                token: cfg.token,
                body: wire::BrowseResultOutView {
                    request_id: b.request_id,
                    path: none.path,
                    parent: none.parent,
                    entries: none.entries,
                    error: if cause.len() > 0 {
                        cause
                    } else {
                        before
                    },
                },
            })
        }),
{
    law_browse_request_is_answered(
        cfg,
        agent,
        evs,
        tasks::EventView::Listed { canonical, windows_parent, listing },
    );
    law_browse_request_is_answered(cfg, agent, evs, tasks::EventView::Failed(cause));
}

} // verus!
