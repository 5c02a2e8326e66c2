//! Bringing the persisted configuration in line with what the server says.
use crate::config;
use crate::config::{Binding, Config, DeployRecord};
use crate::text;
use vstd::prelude::*;

verus! {

/// Whether two lists of bindings name the same bindings with the same files. The
/// names of the apps do not matter.
pub open spec fn same_bindings(
    a: Seq<config::BindingView>,
    b: Seq<config::BindingView>,
) -> bool {
    &&& a.len() == b.len()
    &&& forall|i: int|
        0 <= i < a.len() ==> (#[trigger] a[i]).binding_id == (#[trigger] b[i]).binding_id
            && a[i].file_path == b[i].file_path
}

/// Whether other bindings are attached, or the same ones with other files.
pub fn bindings_differ(a: &[Binding], b: &[Binding]) -> (r: bool)
    ensures
        r == !same_bindings(
            a@.map_values(|x: Binding| x.deep_view()),
            b@.map_values(|x: Binding| x.deep_view()),
        ),
{
    let ghost va = a@.map_values(|x: Binding| x.deep_view());
    let ghost vb = b@.map_values(|x: Binding| x.deep_view());
    if a.len() != b.len() {
        return true;
    }
    let mut i: usize = 0;
    while i < a.len()
        invariant
            i <= a.len(),
            a.len() == b.len(),
            va == a@.map_values(|x: Binding| x.deep_view()),
            vb == b@.map_values(|x: Binding| x.deep_view()),
            forall|j: int|
                0 <= j < i ==> (#[trigger] va[j]).binding_id == (#[trigger] vb[j]).binding_id
                    && va[j].file_path == vb[j].file_path,
        decreases a.len() - i,
    {
        let x = &a[i];
        let y = &b[i];
        assert(va[i as int] == x.deep_view() && vb[i as int] == y.deep_view());
        if x.binding_id != y.binding_id || x.file_path != y.file_path {
            return true;
        }
        i = i + 1;
    }
    false
}

/// Whether any app has another name in the second list, which is as long as the
/// first.
fn names_differ(a: &[Binding], b: &[Binding]) -> (r: bool)
    requires
        a@.len() == b@.len(),
    ensures
        r == exists|i: int| 0 <= i < a@.len() && (#[trigger] a@[i]).app_name@ != b@[i].app_name@,
{
    let mut i: usize = 0;
    while i < a.len()
        invariant
            i <= a.len(),
            a.len() == b.len(),
            forall|j: int| 0 <= j < i ==> (#[trigger] a@[j]).app_name@ == b@[j].app_name@,
        decreases a.len() - i,
    {
        if a[i].app_name != b[i].app_name {
            return true;
        }
        i = i + 1;
    }
    false
}

/// Whether the deployment records changed at all.
pub fn deployments_differ(a: &[DeployRecord], b: &[DeployRecord]) -> (r: bool)
    ensures
        r == (a@.map_values(|x: DeployRecord| x.deep_view()) != b@.map_values(
            |x: DeployRecord| x.deep_view(),
        )),
{
    let ghost va = a@.map_values(|x: DeployRecord| x.deep_view());
    let ghost vb = b@.map_values(|x: DeployRecord| x.deep_view());
    if a.len() != b.len() {
        assert(va.len() != vb.len());
        return true;
    }
    let mut i: usize = 0;
    while i < a.len()
        invariant
            i <= a.len(),
            a.len() == b.len(),
            va == a@.map_values(|x: DeployRecord| x.deep_view()),
            vb == b@.map_values(|x: DeployRecord| x.deep_view()),
            forall|j: int| 0 <= j < i ==> #[trigger] va[j] == #[trigger] vb[j],
        decreases a.len() - i,
    {
        let x = &a[i];
        let y = &b[i];
        assert(va[i as int] == x.deep_view() && vb[i as int] == y.deep_view());
        if x.deployment_id != y.deployment_id || x.unit_name != y.unit_name || x.version
            != y.version {
            return true;
        }
        assert(va[i as int] == vb[i as int]);
        i = i + 1;
    }
    assert(va == vb);
    false
}

/// The last value recorded under `key`.
pub open spec fn last_value(pairs: Seq<(Seq<char>, Seq<char>)>, key: Seq<char>) -> Option<Seq<char>>
    decreases pairs.len(),
{
    if pairs.len() == 0 {
        None
    } else if pairs.last().0 == key {
        Some(pairs.last().1)
    } else {
        last_value(pairs.drop_last(), key)
    }
}

/// The version that the last record of the deployment `id` holds.
pub open spec fn recorded_version(records: Seq<config::DeployRecordView>, id: Seq<char>) -> Option<
    Seq<char>,
>
    decreases records.len(),
{
    if records.len() == 0 {
        None
    } else if records.last().deployment_id == id {
        Some(records.last().version)
    } else {
        recorded_version(records.drop_last(), id)
    }
}

/// The version of the deployment `id` that is known to run: the one just deployed,
/// else the one on record, else none (an empty text).
pub open spec fn running_version(
    records: Seq<config::DeployRecordView>,
    deployed: Seq<(Seq<char>, Seq<char>)>,
    id: Seq<char>,
) -> Seq<char> {
    match last_value(deployed, id) {
        Some(v) => v,
        None => match recorded_version(records, id) {
            Some(v) => v,
            None => seq![],
        },
    }
}

fn version_of(records: &Vec<DeployRecord>, deployed: &Vec<(String, String)>, id: &String) -> (r:
    String)
    ensures
        r@ == running_version(records.deep_view(), deployed.deep_view(), id@),
{
    let mut i: usize = deployed.len();
    let ghost d = deployed.deep_view();
    assert(d.take(i as int) == d);
    while i > 0
        invariant
            i <= deployed.len(),
            d == deployed.deep_view(),
            last_value(d, id@) == last_value(d.take(i as int), id@),
        decreases i,
    {
        assert(d.take(i as int).last() == deployed@[i - 1].deep_view());
        assert(d.take(i as int).drop_last() == d.take(i - 1));
        if deployed[i - 1].0 == *id {
            return deployed[i - 1].1.clone();
        }
        i = i - 1;
    }
    let mut k: usize = records.len();
    let ghost s = records.deep_view();
    assert(s.take(k as int) == s);
    while k > 0
        invariant
            k <= records.len(),
            s == records.deep_view(),
            recorded_version(s, id@) == recorded_version(s.take(k as int), id@),
            d == deployed.deep_view(),
            last_value(d, id@) is None,
        decreases k,
    {
        assert(s.take(k as int).last() == records@[k - 1].deep_view());
        assert(s.take(k as int).drop_last() == s.take(k - 1));
        if records[k - 1].deployment_id == *id {
            return records[k - 1].version.clone();
        }
        k = k - 1;
    }
    String::new()
}

/// The records for the deployments `units` (each an id and a unit name) that the
/// server lists.
pub open spec fn new_records(
    records: Seq<config::DeployRecordView>,
    deployed: Seq<(Seq<char>, Seq<char>)>,
    units: Seq<(Seq<char>, Seq<char>)>,
) -> Seq<config::DeployRecordView> {
    units.map_values(
        |u: (Seq<char>, Seq<char>)|
            config::DeployRecordView {
                deployment_id: u.0,
                unit_name: u.1,
                version: running_version(records, deployed, u.0),
            },
    )
}

/// Rebuilds the deployment records from the server's list, carrying over each
/// one's known running version (or the just-deployed version).
pub fn rebuild_records(
    records: &Vec<DeployRecord>,
    deployed: &Vec<(String, String)>,
    units: &Vec<(String, String)>,
) -> (r: Vec<DeployRecord>)
    ensures
        r.deep_view() == new_records(
            records.deep_view(),
            deployed.deep_view(),
            units.deep_view(),
        ),
{
    let ghost want = new_records(records.deep_view(), deployed.deep_view(), units.deep_view());
    let mut out: Vec<DeployRecord> = Vec::new();
    let mut i: usize = 0;
    while i < units.len()
        invariant
            i <= units.len(),
            want == new_records(records.deep_view(), deployed.deep_view(), units.deep_view()),
            out.deep_view() == want.take(i as int),
        decreases units.len() - i,
    {
        let ghost before = out.deep_view();
        let u = &units[i];
        let rec = DeployRecord {
            deployment_id: u.0.clone(),
            unit_name: u.1.clone(),
            version: version_of(records, deployed, &u.0),
        };
        assert(units.deep_view()[i as int] == u.deep_view());
        assert(rec.deep_view() == want[i as int]);
        out.push(rec);
        assert(out.deep_view() == before.push(rec.deep_view()));
        i = i + 1;
    }
    assert(want.take(i as int) == want);
    out
}

/// Whether anything changed that has to be persisted.
pub open spec fn outdated(
    cfg: config::ConfigView,
    bindings: Seq<config::BindingView>,
    units: Seq<(Seq<char>, Seq<char>)>,
    deployed: Seq<(Seq<char>, Seq<char>)>,
) -> bool {
    ||| cfg.bindings != bindings
    ||| cfg.deployments != new_records(cfg.deployments, deployed, units)
    ||| deployed.len() > 0
}

/// The configuration in line with the server's lists: rebuilt if anything changed,
/// and else as it was.
pub open spec fn reconciled(
    cfg: config::ConfigView,
    bindings: Seq<config::BindingView>,
    units: Seq<(Seq<char>, Seq<char>)>,
    deployed: Seq<(Seq<char>, Seq<char>)>,
) -> config::ConfigView {
    if outdated(cfg, bindings, units, deployed) {
        config::ConfigView {
            bindings,
            deployments: new_records(cfg.deployments, deployed, units),
            ..cfg
        }
    } else {
        cfg
    }
}

/// Brings the bindings and deployment records of `cfg` in line with the server's
/// lists, and tells whether that changed anything that has to be persisted.
pub fn reconcile(
    cfg: Config,
    bindings: Vec<Binding>,
    units: &Vec<(String, String)>,
    deployed: &Vec<(String, String)>,
) -> (r: (Config, bool))
    ensures
        r.0.deep_view() == reconciled(
            cfg.deep_view(),
            bindings.deep_view(),
            units.deep_view(),
            deployed.deep_view(),
        ),
        r.1 == outdated(
            cfg.deep_view(),
            bindings.deep_view(),
            units.deep_view(),
            deployed.deep_view(),
        ),
{
    let records = rebuild_records(&cfg.deployments, deployed, units);
    assert(cfg.bindings@.map_values(|x: Binding| x.deep_view()) == cfg.bindings.deep_view());
    assert(bindings@.map_values(|x: Binding| x.deep_view()) == bindings.deep_view());
    assert(cfg.deployments@.map_values(|x: DeployRecord| x.deep_view())
        == cfg.deployments.deep_view());
    assert(records@.map_values(|x: DeployRecord| x.deep_view()) == records.deep_view());
    assert(deployed.deep_view().len() == deployed@.len());
    let attached = bindings_differ(cfg.bindings.as_slice(), bindings.as_slice());
    let renamed = !attached && names_differ(cfg.bindings.as_slice(), bindings.as_slice());
    proof {
        let old = cfg.bindings.deep_view();
        let new = bindings.deep_view();
        if !attached && !renamed {
            assert forall|i: int| 0 <= i < old.len() implies old[i] == #[trigger] new[i] by {
                assert(old[i] == cfg.bindings@[i].deep_view());
                assert(cfg.bindings@[i].app_name@ == bindings@[i].app_name@);
            }
            assert(old == new);
        }
        if renamed {
            let i = choose|i: int|
                0 <= i < cfg.bindings@.len() && (#[trigger] cfg.bindings@[i]).app_name@
                    != bindings@[i].app_name@;
            assert(old[i] != new[i]);
        }
    }
    let changed = attached || renamed || deployments_differ(
        cfg.deployments.as_slice(),
        records.as_slice(),
    ) || deployed.len() > 0;
    if changed {
        let mut cfg = cfg;
        cfg.bindings = bindings;
        cfg.deployments = records;
        (cfg, true)
    } else {
        (cfg, false)
    }
}

/// After a poll the configuration has exactly the server's bindings, and its records
/// are the rebuilt ones, whether or not anything had to be persisted. Nothing else of
/// it changed.
pub proof fn law_reconciled_follows_server(
    cfg: config::ConfigView,
    bindings: Seq<config::BindingView>,
    units: Seq<(Seq<char>, Seq<char>)>,
    deployed: Seq<(Seq<char>, Seq<char>)>,
)
    ensures
        ({
            let after = reconciled(cfg, bindings, units, deployed);
            &&& after.bindings == bindings
            &&& after.deployments == new_records(cfg.deployments, deployed, units)
            &&& after.server_url == cfg.server_url
            &&& after.token == cfg.token
            &&& after.client_id == cfg.client_id
            &&& after.poll_interval_secs == cfg.poll_interval_secs
        }),
{
}

proof fn lemma_recorded(
    records: Seq<config::DeployRecordView>,
    deployed: Seq<(Seq<char>, Seq<char>)>,
    units: Seq<(Seq<char>, Seq<char>)>,
    i: int,
)
    requires
        0 <= i < units.len(),
    ensures
        recorded_version(new_records(records, deployed, units), units[i].0) == Some(
            running_version(records, deployed, units[i].0),
        ),
    decreases units.len(),
{
    let n = new_records(records, deployed, units);
    assert(n.last().deployment_id == units.last().0);
    if units.last().0 != units[i].0 {
        assert(units.drop_last()[i] == units[i]);
        lemma_recorded(records, deployed, units.drop_last(), i);
        assert(n.drop_last() == new_records(records, deployed, units.drop_last()));
    }
}

/// Reconciling is settled after one round: with the same lists and no further
/// deployment there is nothing left to persist.
pub proof fn law_reconcile_settles(
    cfg: config::ConfigView,
    bindings: Seq<config::BindingView>,
    units: Seq<(Seq<char>, Seq<char>)>,
    deployed: Seq<(Seq<char>, Seq<char>)>,
)
    ensures
        !outdated(reconciled(cfg, bindings, units, deployed), bindings, units, seq![]),
{
    let after = reconciled(cfg, bindings, units, deployed);
    let none: Seq<(Seq<char>, Seq<char>)> = seq![];
    let again = new_records(after.deployments, none, units);
    assert forall|i: int| 0 <= i < units.len() implies again[i] == #[trigger] after.deployments[i] by {
        lemma_recorded(cfg.deployments, deployed, units, i);
    }
    assert(again == after.deployments);
}

/// A deployment that succeeded in this round is on record with the version that
/// was deployed last.
pub proof fn law_deployed_version_is_recorded(
    cfg: config::ConfigView,
    bindings: Seq<config::BindingView>,
    units: Seq<(Seq<char>, Seq<char>)>,
    deployed: Seq<(Seq<char>, Seq<char>)>,
    i: int,
)
    requires
        0 <= i < units.len(),
        last_value(deployed, units[i].0) is Some,
    ensures
        reconciled(cfg, bindings, units, deployed).deployments[i].version == last_value(
            deployed,
            units[i].0,
        )->0,
{
}

/// Where the next poll goes when the server pushes `pushed` (`None`: where it
/// went before).
pub open spec fn new_url(current: Seq<char>, pushed: Seq<char>) -> Option<Seq<char>> {
    let url = config::base_url(text::trimmed(pushed));
    if url.len() > 0 && url != current {
        Some(url)
    } else {
        None
    }
}

/// Whether the server pushed a base URL to switch to.
pub fn switched_url(current: &str, pushed: &str) -> (r: Option<String>)
    ensures
        r.deep_view() == new_url(current@, pushed@),
{
    let cs = text::chars_of(pushed);
    let url = text::string_of(text::trim_tail(text::trim(cs.as_slice()), '/'));
    if !url.as_str().is_empty() && !text::same(url.as_str(), current) {
        Some(url)
    } else {
        None
    }
}

/// Bindings are the same as long as their ids and files are: another id, another file,
/// one more or one less makes them differ, and another name of the app does not.
pub proof fn law_what_makes_bindings_differ(
    a: Seq<config::BindingView>,
    i: int,
    x: config::BindingView,
)
    requires
        0 <= i < a.len(),
    ensures
        same_bindings(a, a),
        same_bindings(a, a.update(i, x)) <==> x.binding_id == a[i].binding_id && x.file_path
            == a[i].file_path,
        !same_bindings(a, a.push(x)),
        !same_bindings(a.push(x), a),
{
    let b = a.update(i, x);
    assert(b[i] == x);
    if x.binding_id == a[i].binding_id && x.file_path == a[i].file_path {
        assert forall|j: int| 0 <= j < a.len() implies (#[trigger] a[j]).binding_id == (
        #[trigger] b[j]).binding_id && a[j].file_path == b[j].file_path by {}
    }
}

/// The version known to run is the one deployed last in this round, or else the one in
/// the last record, or else none. What is known of other deployments does not matter.
pub proof fn law_running_version(
    records: Seq<config::DeployRecordView>,
    deployed: Seq<(Seq<char>, Seq<char>)>,
    record: config::DeployRecordView,
    made: (Seq<char>, Seq<char>),
    id: Seq<char>,
)
    ensures
        running_version(records, deployed.push(made), id) == (if made.0 == id {
            made.1
        } else {
            running_version(records, deployed, id)
        }),
        running_version(records.push(record), seq![], id) == (if record.deployment_id == id {
            record.version
        } else {
            running_version(records, seq![], id)
        }),
        running_version(seq![], seq![], id) == Seq::<char>::empty(),
        last_value(deployed.push(made), id) == (if made.0 == id {
            Some(made.1)
        } else {
            last_value(deployed, id)
        }),
        last_value(seq![], id) is None,
{
    assert(deployed.push(made).drop_last() == deployed);
    assert(records.push(record).drop_last() == records);
}

/// There is one record for each deployment that the server lists, in its order, with
/// its id and its unit name, and no other.
pub proof fn law_records_follow_the_list(
    records: Seq<config::DeployRecordView>,
    deployed: Seq<(Seq<char>, Seq<char>)>,
    units: Seq<(Seq<char>, Seq<char>)>,
)
    ensures
        new_records(records, deployed, units).len() == units.len(),
        forall|i: int|
            0 <= i < units.len() ==> (#[trigger] new_records(
                records,
                deployed,
                units,
            )[i]).deployment_id == units[i].0 && new_records(records, deployed, units)[i].unit_name
                == units[i].1 && new_records(records, deployed, units)[i].version
                == running_version(records, deployed, units[i].0),
{
}

/// There is something to persist exactly if the configuration changes or something
/// was deployed.
pub proof fn law_what_is_persisted(
    cfg: config::ConfigView,
    bindings: Seq<config::BindingView>,
    units: Seq<(Seq<char>, Seq<char>)>,
    deployed: Seq<(Seq<char>, Seq<char>)>,
)
    ensures
        outdated(cfg, bindings, units, deployed) <==> reconciled(cfg, bindings, units, deployed)
            != cfg || deployed.len() > 0,
{
}

/// A pushed URL is taken without the white space around it and without slashes at its
/// end. It is switched to exactly if something is left and that is another than the
/// current one.
pub proof fn law_pushed_url(
    current: Seq<char>,
    a: Seq<char>,
    url: Seq<char>,
    n: nat,
    b: Seq<char>,
)
    requires
        forall|i: int| 0 <= i < a.len() ==> text::is_white(#[trigger] a[i]),
        forall|i: int| 0 <= i < b.len() ==> text::is_white(#[trigger] b[i]),
        url.len() > 0 ==> !text::is_white(url.first()) && !text::is_white(url.last()) && url.last()
            != '/',
    ensures
        new_url(current, a + (url + Seq::new(n, |i: int| '/')) + b) == (if url.len() > 0 && url
            != current {
            Some(url)
        } else {
            None
        }),
{
    let tail = Seq::new(n, |i: int| '/');
    let m = url + tail;
    if m.len() > 0 {
        if url.len() > 0 {
            assert(m.first() == url.first());
        } else {
            assert(m.first() == '/');
        }
        if n > 0 {
            assert(m.last() == '/');
        } else {
            assert(m == url);
        }
    }
    text::law_trimming_takes_white_space_off(a, m, b);
    text::law_tail_goes(url, n, '/');
}

} // verus!
