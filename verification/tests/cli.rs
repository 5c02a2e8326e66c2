use sglaz::cli::{command, flag_value, help_text, Command, DEFAULT_SERVER};

fn argv(words: &[&str]) -> Vec<String> {
    words.iter().map(|w| w.to_string()).collect()
}

fn enroll_at(server: &str, code: &str) -> Command {
    Command::Enroll { server: server.to_string(), code: code.to_string() }
}

#[test]
fn flag_value_takes_the_next_argument() {
    let args = argv(&["sglaz", "-connect", "ABC", "--server", "http://s"]);
    assert_eq!(flag_value(&args, &["-connect", "--connect"]), Some("ABC".to_string()));
    assert_eq!(flag_value(&args, &["-server", "--server"]), Some("http://s".to_string()));
    assert_eq!(flag_value(&args, &["--missing"]), None);
    assert_eq!(flag_value(&args, &[]), None);
}

#[test]
fn flag_value_stops_at_the_first_occurrence() {
    let args = argv(&["sglaz", "--connect", "A", "-connect", "B"]);
    assert_eq!(flag_value(&args, &["-connect", "--connect"]), Some("A".to_string()));
}

#[test]
fn a_flag_at_the_end_has_no_value() {
    assert_eq!(flag_value(&argv(&["sglaz", "-connect"]), &["-connect"]), None);
    assert_eq!(flag_value(&[], &["-connect"]), None);
}

#[test]
fn no_arguments_run_the_daemon() {
    assert_eq!(command(&argv(&["sglaz"]), None), Command::Daemon);
    assert_eq!(command(&argv(&["sglaz", "-connect"]), None), Command::Daemon);
    assert_eq!(command(&[], None), Command::Daemon);
}

#[test]
fn help_wins_over_everything() {
    assert_eq!(command(&argv(&["sglaz", "-h"]), None), Command::Help);
    assert_eq!(command(&argv(&["sglaz", "-connect", "A", "--help"]), None), Command::Help);
}

#[test]
fn the_server_flag_comes_first_then_the_environment() {
    let env = Some("http://env".to_string());
    let with_flag = argv(&["sglaz", "-connect", "A", "--server", "http://flag"]);
    assert_eq!(command(&with_flag, env.clone()), enroll_at("http://flag", "A"));
    let without = argv(&["sglaz", "--connect", "A"]);
    assert_eq!(command(&without, env), enroll_at("http://env", "A"));
    assert_eq!(command(&without, None), enroll_at("http://localhost:17823", "A"));
    assert_eq!(DEFAULT_SERVER, "http://localhost:17823");
}

#[test]
fn the_help_names_the_default_server() {
    assert_eq!(
        help_text(),
        "sglaz client agent\n\
         \n\
         USAGE:\n\
         \x20   sglaz -connect <CODE> [--server <URL>]   Enroll this machine with the server\n\
         \x20   sglaz                                    Run the sync daemon (after enrolling)\n\
         \n\
         OPTIONS:\n\
         \x20   --server <URL>   Server base URL for enrollment (default: http://localhost:17823,\n\
         \x20                    or set SGLAZ_SERVER). Saved after enrolling.\n\
         \x20   -h, --help       Show this help\n\
         \n\
         CONFIG:\n\
         \x20   Stored at the OS config dir, override with SGLAZ_CONFIG."
    );
}
