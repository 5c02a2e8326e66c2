//! Self-upgrade: download a new binary, put it in the place of this executable,
//! and exit so that the new version takes over.
use vstd::prelude::*;

verus! {

/// A place for a binary, next to the running executable (on the same filesystem,
/// so that renames are atomic).
#[derive(Debug, PartialEq, Eq, Structural, Clone, Copy)]
pub enum Place {
    /// The executable itself.
    Current,
    /// Where the download is staged.
    Staged,
    /// Where the running executable is moved aside to.
    Aside,
}

/// The file extension that stands for a place.
pub open spec fn extension_of(place: Place) -> Option<Seq<char>> {
    match place {
        Place::Current => None,
        Place::Staged => Some("new"@),
        Place::Aside => Some("old"@),
    }
}

impl Place {
    /// The extension that the executable's path gets for this place, if another
    /// than its own.
    pub fn extension(self) -> (r: Option<String>)
        ensures
            r.deep_view() == extension_of(self),
    {
        match self {
            Place::Current => None,
            Place::Staged => Some("new".to_owned()),
            Place::Aside => Some("old".to_owned()),
        }
    }
}

/// One step of an upgrade. The steps are carried out in order, and the first that
/// fails ends the upgrade, unless it [may fail](UpgradeStep::may_fail).
#[derive(Debug, PartialEq, Eq, Structural, Clone, Copy)]
pub enum UpgradeStep {
    /// Download the new binary, into memory.
    Download,
    /// Write the downloaded bytes to a place.
    Write(Place),
    /// Make a file executable.
    MakeExecutable(Place),
    /// Remove a file that may be left over.
    Discard(Place),
    /// Move a file, replacing what is there.
    Move { from: Place, to: Place },
    /// Start the binary at a place as a process of its own.
    Launch(Place),
    /// Exit this process.
    Exit,
}

impl UpgradeStep {
    /// Whether the upgrade goes on even if this step fails.
    pub fn may_fail(&self) -> (r: bool)
        ensures
            r == (*self is Discard),
    {
        match self {
            UpgradeStep::Discard(_) => true,
            _ => false,
        }
    }
}

/// How the staged binary takes the place of the running one. On Unix a running
/// binary can be replaced by a rename. Windows can't overwrite a running exe, so
/// it is moved aside first; and as there is no service manager to restart the
/// agent there, the new binary is launched before this process exits.
pub open spec fn replace_steps(unix: bool, windows: bool) -> Seq<UpgradeStep> {
    (if unix {
        seq![
            UpgradeStep::MakeExecutable(Place::Staged),
            UpgradeStep::Move { from: Place::Staged, to: Place::Current },
        ]
    } else {
        seq![]
    }) + (if windows {
        seq![
            UpgradeStep::Discard(Place::Aside),
            UpgradeStep::Move { from: Place::Current, to: Place::Aside },
            UpgradeStep::Move { from: Place::Staged, to: Place::Current },
            UpgradeStep::Launch(Place::Current),
        ]
    } else {
        seq![]
    })
}

/// All the steps of an upgrade.
pub open spec fn upgrade_plan(unix: bool, windows: bool) -> Seq<UpgradeStep> {
    seq![UpgradeStep::Download, UpgradeStep::Write(Place::Staged)] + replace_steps(unix, windows)
        + seq![UpgradeStep::Exit]
}

/// Download a new binary, replace this executable in place, and exit: the steps to
/// take on a host of this family.
pub fn self_upgrade(unix: bool, windows: bool) -> (r: Vec<UpgradeStep>)
    ensures
        r@ == upgrade_plan(unix, windows),
{
    let mut steps: Vec<UpgradeStep> = Vec::new();
    steps.push(UpgradeStep::Download);
    steps.push(UpgradeStep::Write(Place::Staged));
    if unix {
        steps.push(UpgradeStep::MakeExecutable(Place::Staged));
        steps.push(UpgradeStep::Move { from: Place::Staged, to: Place::Current });
    }
    if windows {
        steps.push(UpgradeStep::Discard(Place::Aside));
        steps.push(UpgradeStep::Move { from: Place::Current, to: Place::Aside });
        steps.push(UpgradeStep::Move { from: Place::Staged, to: Place::Current });
        steps.push(UpgradeStep::Launch(Place::Current));
    }
    steps.push(UpgradeStep::Exit);
    assert(steps@ == upgrade_plan(unix, windows));
    steps
}

/// Which binary lies at each place: `Some(true)` the downloaded one, `Some(false)`
/// another, `None` nothing.
pub struct Places {
    pub current: Option<bool>,
    pub staged: Option<bool>,
    pub aside: Option<bool>,
}

/// What lies at a place.
pub open spec fn at(p: Places, place: Place) -> Option<bool> {
    match place {
        Place::Current => p.current,
        Place::Staged => p.staged,
        Place::Aside => p.aside,
    }
}

/// The places with something put at one of them.
pub open spec fn put(p: Places, place: Place, b: Option<bool>) -> Places {
    match place {
        Place::Current => Places { current: b, ..p },
        Place::Staged => Places { staged: b, ..p },
        Place::Aside => Places { aside: b, ..p },
    }
}

/// The places after a step that succeeded.
pub open spec fn done(p: Places, step: UpgradeStep) -> Places {
    match step {
        UpgradeStep::Write(place) => put(p, place, Some(true)),
        UpgradeStep::Discard(place) => put(p, place, None),
        UpgradeStep::Move { from, to } => put(put(p, from, None), to, at(p, from)),
        _ => p,
    }
}

/// The places after all of `steps` succeeded.
pub open spec fn all_done(p: Places, steps: Seq<UpgradeStep>) -> Places
    decreases steps.len(),
{
    if steps.len() == 0 {
        p
    } else {
        done(all_done(p, steps.drop_last()), steps.last())
    }
}

proof fn lemma_next_done(p: Places, steps: Seq<UpgradeStep>, n: int)
    requires
        0 <= n < steps.len(),
    ensures
        all_done(p, steps.take(n + 1)) == done(all_done(p, steps.take(n)), steps[n]),
{
    assert(steps.take(n + 1).drop_last() == steps.take(n));
}

proof fn lemma_places(unix: bool, windows: bool, p: Places, n: int)
    requires
        unix != windows,
        p.current is Some,
        0 <= n <= upgrade_plan(unix, windows).len(),
    ensures
        ({
            let q = all_done(p, upgrade_plan(unix, windows).take(n));
            if unix {
                &&& q.current == (if n < 4 {
                    p.current
                } else {
                    Some(true)
                })
                &&& 2 <= n < 4 ==> q.staged == Some(true)
            } else {
                &&& q.current == (if n < 4 {
                    p.current
                } else if n == 4 {
                    None
                } else {
                    Some(true)
                })
                &&& 2 <= n < 5 ==> q.staged == Some(true)
                &&& n >= 4 ==> q.aside == p.current
            }
        }),
    decreases n,
{
    if n > 0 {
        lemma_places(unix, windows, p, n - 1);
        lemma_next_done(p, upgrade_plan(unix, windows), n - 1);
    }
}

/// An upgrade can stop after any of its steps without losing the agent: on Unix
/// there is a binary in place all the time, and on Windows, where the running one
/// is moved aside, it is there until the new one has taken its place.
pub proof fn law_agent_is_never_lost(unix: bool, windows: bool, p: Places, n: int)
    requires
        unix != windows,
        p.current is Some,
        0 <= n <= upgrade_plan(unix, windows).len(),
    ensures
        ({
            let q = all_done(p, upgrade_plan(unix, windows).take(n));
            &&& q.current is Some || q.aside == p.current
            &&& unix ==> q.current is Some
        }),
{
    lemma_places(unix, windows, p, n);
}

/// After an upgrade the new binary is in place, and exiting is the last step and
/// no other.
pub proof fn law_upgrade_installs_then_exits(unix: bool, windows: bool, p: Places)
    requires
        unix != windows,
        p.current is Some,
    ensures
        all_done(p, upgrade_plan(unix, windows)).current == Some(true),
        upgrade_plan(unix, windows).last() is Exit,
        forall|i: int|
            0 <= i < upgrade_plan(unix, windows).len() - 1 ==> !((#[trigger] upgrade_plan(
                unix,
                windows,
            )[i]) is Exit),
{
    let plan = upgrade_plan(unix, windows);
    lemma_places(unix, windows, p, plan.len() as int);
    assert(plan.take(plan.len() as int) == plan);
}

/// An upgrade downloads the new binary and stages it before anything else. On Unix it
/// is made executable before it takes the place of the running one. On Windows what was
/// moved aside earlier goes, the running binary is moved aside, and the new one, once in
/// its place, is launched just before this process exits.
pub proof fn law_upgrade_steps(unix: bool, windows: bool)
    ensures
        ({
            let plan = upgrade_plan(unix, windows);
            let n = plan.len();
            let w: int = if unix {
                4
            } else {
                2
            };
            &&& n == w + (if windows {
                5int
            } else {
                1
            })
            &&& plan[0] == UpgradeStep::Download
            &&& plan[1] == UpgradeStep::Write(Place::Staged)
            &&& unix ==> plan[2] == UpgradeStep::MakeExecutable(Place::Staged)
            &&& unix ==> plan[3] == (UpgradeStep::Move { from: Place::Staged, to: Place::Current })
            &&& windows ==> plan[w] == UpgradeStep::Discard(Place::Aside)
            &&& windows ==> plan[w + 1] == (UpgradeStep::Move {
                from: Place::Current,
                to: Place::Aside,
            })
            &&& windows ==> plan[w + 2] == (UpgradeStep::Move {
                from: Place::Staged,
                to: Place::Current,
            })
            &&& windows ==> plan[w + 3] == UpgradeStep::Launch(Place::Current)
            &&& plan[n - 1] == UpgradeStep::Exit
        }),
{
}

/// The executable keeps its name, the download has the extension `new`, and what is
/// moved aside has the extension `old`, so that no two places are the same.
pub proof fn law_places_have_their_names(a: Place, b: Place)
    ensures
        extension_of(Place::Current) is None,
        extension_of(Place::Staged) == Some("new"@),
        extension_of(Place::Aside) == Some("old"@),
        extension_of(a) == extension_of(b) ==> a == b,
{
    reveal_strlit("new");
    reveal_strlit("old");
    assert("new"@[0] == 'n' && "old"@[0] == 'o');
}

} // verus!
