//! The command line.
use crate::text;
use vstd::prelude::*;

verus! {

/// The server, if none is given by `--server` or `SGLAZ_SERVER`.
pub const DEFAULT_SERVER: &'static str = "http://localhost:17823";

/// The value that follows the first of `names` among the arguments, if one does.
pub open spec fn flag(args: Seq<Seq<char>>, names: Seq<Seq<char>>) -> Option<Seq<char>>
    decreases args.len(),
{
    if args.len() == 0 {
        None
    } else if names.contains(args.first()) {
        if args.len() > 1 {
            Some(args[1])
        } else {
            None
        }
    } else {
        flag(args.drop_first(), names)
    }
}

fn is_one_of(arg: &str, names: &[&str]) -> (r: bool)
    ensures
        r == names@.map_values(|n: &str| n@).contains(arg@),
{
    let ghost ns = names@.map_values(|n: &str| n@);
    let mut i: usize = 0;
    while i < names.len()
        invariant
            i <= names.len(),
            ns == names@.map_values(|n: &str| n@),
            forall|j: int| 0 <= j < i ==> ns[j] != arg@,
        decreases names.len() - i,
    {
        assert(ns[i as int] == names@[i as int]@);
        if text::same(arg, names[i]) {
            return true;
        }
        i = i + 1;
    }
    false
}

/// Find the value following any of `names` in the argument list.
pub fn flag_value(args: &[String], names: &[&str]) -> (r: Option<String>)
    ensures
        r.deep_view() == flag(
            args@.map_values(|a: String| a@),
            names@.map_values(|n: &str| n@),
        ),
{
    let ghost av = args@.map_values(|a: String| a@);
    let ghost ns = names@.map_values(|n: &str| n@);
    let mut i: usize = 0;
    assert(av.skip(0) == av);
    while i < args.len()
        invariant
            i <= args.len(),
            av == args@.map_values(|a: String| a@),
            ns == names@.map_values(|n: &str| n@),
            flag(av, ns) == flag(av.skip(i as int), ns),
        decreases args.len() - i,
    {
        assert(av.skip(i as int).first() == args@[i as int]@);
        assert(av.skip(i as int).drop_first() == av.skip(i + 1));
        if is_one_of(args[i].as_str(), names) {
            if i + 1 < args.len() {
                assert(av.skip(i as int)[1] == args@[i + 1]@);
                return Some(args[i + 1].clone());
            }
            return None;
        }
        i = i + 1;
    }
    None
}

/// What the agent is asked to do.
#[derive(Debug, PartialEq, Eq)]
pub enum Command {
    /// Show the help.
    Help,
    /// Enroll this machine at `server` with a one-time code.
    Enroll { server: String, code: String },
    /// Run the sync daemon.
    Daemon,
}

/// What a [`Command`] holds.
pub enum CommandView {
    Help,
    Enroll { server: Seq<char>, code: Seq<char> },
    Daemon,
}

impl DeepView for Command {
    type V = CommandView;

    open spec fn deep_view(&self) -> CommandView {
        match *self {
            Command::Help => CommandView::Help,
            Command::Enroll { server, code } => CommandView::Enroll {
                server: server@,
                code: code@,
            },
            Command::Daemon => CommandView::Daemon,
        }
    }
}

/// Whether the arguments ask for help.
pub open spec fn asks_for_help(args: Seq<Seq<char>>) -> bool {
    args.contains("-h"@) || args.contains("--help"@)
}

/// The server to enroll at: the flag, else the environment's, else the default.
pub open spec fn server_for(args: Seq<Seq<char>>, env_server: Option<Seq<char>>) -> Seq<char> {
    match flag(args, seq!["-server"@, "--server"@]) {
        Some(server) => server,
        None => match env_server {
            Some(server) => server,
            None => DEFAULT_SERVER@,
        },
    }
}

/// What the arguments ask for, when `SGLAZ_SERVER` is `env_server`.
pub open spec fn asked(args: Seq<Seq<char>>, env_server: Option<Seq<char>>) -> CommandView {
    if asks_for_help(args) {
        CommandView::Help
    } else {
        match flag(args, seq!["-connect"@, "--connect"@]) {
            Some(code) => CommandView::Enroll { server: server_for(args, env_server), code },
            None => CommandView::Daemon,
        }
    }
}

fn has_help_flag(args: &[String]) -> (r: bool)
    ensures
        r == asks_for_help(args@.map_values(|a: String| a@)),
{
    let ghost av = args@.map_values(|a: String| a@);
    let mut i: usize = 0;
    while i < args.len()
        invariant
            i <= args.len(),
            av == args@.map_values(|a: String| a@),
            forall|j: int| 0 <= j < i ==> av[j] != "-h"@ && av[j] != "--help"@,
        decreases args.len() - i,
    {
        assert(av[i as int] == args@[i as int]@);
        if text::same(args[i].as_str(), "-h") || text::same(args[i].as_str(), "--help") {
            assert(av.contains(av[i as int]));
            return true;
        }
        i = i + 1;
    }
    false
}

/// What the arguments ask for. `env_server` is what `SGLAZ_SERVER` says.
pub fn command(args: &[String], env_server: Option<String>) -> (r: Command)
    ensures
        r.deep_view() == asked(args@.map_values(|a: String| a@), env_server.deep_view()),
{
    if has_help_flag(args) {
        return Command::Help;
    }
    let connect: [&str; 2] = ["-connect", "--connect"];
    let server: [&str; 2] = ["-server", "--server"];
    proof {
        assert(connect@.map_values(|n: &str| n@) == seq!["-connect"@, "--connect"@]);
        assert(server@.map_values(|n: &str| n@) == seq!["-server"@, "--server"@]);
    }
    match flag_value(args, connect.as_slice()) {
        Some(code) => {
            let server = match flag_value(args, server.as_slice()) {
                Some(given) => given,
                None => match env_server {
                    Some(given) => given,
                    None => DEFAULT_SERVER.to_owned(),
                },
            };
            Command::Enroll { server, code }
        },
        None => Command::Daemon,
    }
}

/// The help text around the default server.
pub open spec fn help(default_server: Seq<char>) -> Seq<char> {
    "sglaz client agent

USAGE:
    sglaz -connect <CODE> [--server <URL>]   Enroll this machine with the server
    sglaz                                    Run the sync daemon (after enrolling)

OPTIONS:
    --server <URL>   Server base URL for enrollment (default: "@ + default_server + ",
                     or set SGLAZ_SERVER). Saved after enrolling.
    -h, --help       Show this help

CONFIG:
    Stored at the OS config dir, override with SGLAZ_CONFIG."@
}

/// The help text.
pub fn help_text() -> (r: String)
    ensures
        r@ == help(DEFAULT_SERVER@),
{
    let mut out = "sglaz client agent

USAGE:
    sglaz -connect <CODE> [--server <URL>]   Enroll this machine with the server
    sglaz                                    Run the sync daemon (after enrolling)

OPTIONS:
    --server <URL>   Server base URL for enrollment (default: ".to_owned();
    out.append(DEFAULT_SERVER);
    out.append(
        ",
                     or set SGLAZ_SERVER). Saved after enrolling.
    -h, --help       Show this help

CONFIG:
    Stored at the OS config dir, override with SGLAZ_CONFIG.",
    );
    out
}

/// A flag has the value that stands behind its first occurrence, whatever comes
/// before or after.
pub proof fn law_first_flag_counts(
    before: Seq<Seq<char>>,
    name: Seq<char>,
    value: Seq<char>,
    rest: Seq<Seq<char>>,
    names: Seq<Seq<char>>,
)
    requires
        names.contains(name),
        forall|i: int| 0 <= i < before.len() ==> !names.contains(#[trigger] before[i]),
    ensures
        flag(before + seq![name, value] + rest, names) == Some(value),
    decreases before.len(),
{
    let args = before + seq![name, value] + rest;
    if before.len() > 0 {
        let front = before.drop_first();
        assert(args.first() == before[0]);
        assert forall|i: int| 0 <= i < front.len() implies !names.contains(#[trigger] front[i]) by {
            assert(front[i] == before[i + 1]);
        }
        assert(args.drop_first() == front + seq![name, value] + rest);
        law_first_flag_counts(front, name, value, rest, names);
    } else {
        assert(args[0] == name);
        assert(args[1] == value);
    }
}

/// The server flag takes precedence over the environment, and the environment over
/// the default.
pub proof fn law_server_precedence(args: Seq<Seq<char>>, env_server: Option<Seq<char>>)
    ensures
        flag(args, seq!["-server"@, "--server"@]) matches Some(s) ==> server_for(args, env_server)
            == s,
        flag(args, seq!["-server"@, "--server"@]) is None && env_server is Some ==> server_for(
            args,
            env_server,
        ) == env_server->0,
        flag(args, seq!["-server"@, "--server"@]) is None && env_server is None ==> server_for(
            args,
            env_server,
        ) == DEFAULT_SERVER@,
{
}

/// A flag that is not there, or that nothing follows, has no value.
pub proof fn law_flag_without_a_value(
    before: Seq<Seq<char>>,
    name: Seq<char>,
    names: Seq<Seq<char>>,
)
    requires
        names.contains(name),
        forall|i: int| 0 <= i < before.len() ==> !names.contains(#[trigger] before[i]),
    ensures
        flag(before, names) is None,
        flag(before.push(name), names) is None,
    decreases before.len(),
{
    let args = before.push(name);
    if before.len() > 0 {
        let front = before.drop_first();
        assert(args.first() == before[0]);
        assert forall|i: int| 0 <= i < front.len() implies !names.contains(#[trigger] front[i]) by {
            assert(front[i] == before[i + 1]);
        }
        assert(args.drop_first() == front.push(name));
        law_flag_without_a_value(front, name, names);
    } else {
        assert(args[0] == name);
    }
}

/// Help comes first, wherever it is asked for. Without it, a code to connect with means
/// to enroll, with that code and at the server given by the flag, by the environment or
/// by default, in this order. Nothing else is asked for by any other arguments.
pub proof fn law_what_is_asked(args: Seq<Seq<char>>, env_server: Option<Seq<char>>)
    ensures
        asked(args, env_server) is Help <==> args.contains("-h"@) || args.contains("--help"@),
        !args.contains("-h"@) && !args.contains("--help"@) ==> (match flag(
            args,
            seq!["-connect"@, "--connect"@],
        ) {
            None => asked(args, env_server) is Daemon,
            Some(code) => asked(args, env_server) == (CommandView::Enroll {
                server: if flag(args, seq!["-server"@, "--server"@]) is Some {
                    flag(args, seq!["-server"@, "--server"@])->0
                } else if env_server is Some {
                    env_server->0
                } else {
                    "http://localhost:17823"@
                },
                code,
            }),
        }),
{
}

} // verus!
