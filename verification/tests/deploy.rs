use sglaz::deploy::{
    check_download, deploy, entry_targets, extract_tar_gz, install_unit, journal_text, logs,
    progress, require_linux, restart, run_in, sanitize, state, stop, symlink_swap, systemctl,
    systemctl_failure, DeployError, DeploySpec, DeployStep, EntryTarget, Progress,
};
use sglaz::envfile::EnvVar;
use std::io::Write;

fn words(ws: &[&str]) -> Vec<String> {
    ws.iter().map(|w| w.to_string()).collect()
}

fn release(kind: &str) -> DeploySpec {
    DeploySpec {
        version: "v1/2".to_string(),
        signed_url: "https://dl/x".to_string(),
        kind: kind.to_string(),
        run_cmd: "./app --port 80".to_string(),
        prepare_cmd: String::new(),
        deploy_root: "/srv/api".to_string(),
        unit_name: "api".to_string(),
        env_file: "/srv/api/shared/.env".to_string(),
        env_values: vec![],
    }
}

fn gzipped(tar_bytes: &[u8]) -> Vec<u8> {
    let mut enc = flate2::write::GzEncoder::new(Vec::new(), flate2::Compression::default());
    enc.write_all(tar_bytes).unwrap();
    enc.finish().unwrap()
}

fn tarball(paths: &[&str]) -> Vec<u8> {
    let mut builder = tar::Builder::new(Vec::new());
    for p in paths {
        let mut header = tar::Header::new_gnu();
        header.set_size(2);
        header.set_mode(0o644);
        header.set_cksum();
        builder.append_data(&mut header, p, &b"ok"[..]).unwrap();
    }
    builder.into_inner().unwrap()
}

#[test]
fn deployments_need_linux() {
    assert_eq!(require_linux(true), Ok(()));
    assert_eq!(require_linux(false), Err(DeployError::NotLinux));
    assert_eq!(deploy(&release("binary"), false), Err(DeployError::NotLinux));
    assert_eq!(stop("u", false), Err(DeployError::NotLinux));
    assert_eq!(restart("u", false), Err(DeployError::NotLinux));
    assert_eq!(logs("u", 5, false), Err(DeployError::NotLinux));
    assert_eq!(
        DeployError::NotLinux.message(),
        "deployments are supported only on systemd Linux hosts"
    );
}

#[test]
fn stop_and_restart_drive_systemctl() {
    assert_eq!(stop("api", true), Ok(words(&["stop", "api"])));
    assert_eq!(restart("api", true), Ok(words(&["restart", "api"])));
}

#[test]
fn logs_ask_the_journal() {
    assert_eq!(
        logs("api", 200, true),
        Ok(words(&["-u", "api", "-n", "200", "--no-pager", "--output=short-iso"]))
    );
}

#[test]
fn states_are_told_apart() {
    assert_eq!(state(true, Some("active\n")), "running");
    assert_eq!(state(true, Some("activating\n")), "running");
    assert_eq!(state(true, Some("failed\n")), "crashed");
    assert_eq!(state(true, Some("inactive\n")), "stopped");
    assert_eq!(state(true, Some("deactivating\n")), "stopped");
    assert_eq!(state(true, Some("reloading\n")), "unknown");
    assert_eq!(state(true, Some("")), "unknown");
    assert_eq!(state(true, None), "unknown");
    assert_eq!(state(false, Some("active")), "unknown");
}

#[test]
fn a_download_needs_a_success_status() {
    assert_eq!(check_download(200, "200 OK".to_string()), Ok(()));
    assert_eq!(check_download(299, String::new()), Ok(()));
    let e = check_download(404, "404 Not Found".to_string()).unwrap_err();
    assert_eq!(e, DeployError::DownloadStatus("404 Not Found".to_string()));
    assert_eq!(e.message(), "download returned status 404 Not Found");
    assert!(check_download(300, String::new()).is_err());
    assert!(check_download(199, String::new()).is_err());
}

#[test]
fn a_failed_systemctl_shows_its_arguments() {
    assert_eq!(systemctl(words(&["enable", "api"]), true, "noise".to_string()), Ok(()));
    let e = systemctl(words(&["enable", "a\"b"]), false, " no such unit\n".to_string());
    assert_eq!(
        e.unwrap_err().message(),
        "systemctl [\"enable\", \"a\\\"b\"] failed: no such unit"
    );
    assert_eq!(systemctl_failure("[]", "x"), "systemctl [] failed: x");
}

#[test]
fn a_failed_prepare_shows_its_output() {
    assert_eq!(run_in(true, "out".to_string(), "err".to_string()), Ok(()));
    let e = run_in(false, " out \n".to_string(), "\terr".to_string()).unwrap_err();
    assert_eq!(e.message(), "command exited non-zero: outerr");
}

#[test]
fn a_journal_ends_with_the_complaint() {
    assert_eq!(journal_text("log\n".to_string(), true, "warn"), "log\n");
    assert_eq!(journal_text("log".to_string(), false, " \n"), "log");
    assert_eq!(journal_text("log".to_string(), false, "no unit\n"), "log\n[journalctl] no unit");
}

#[test]
fn versions_become_safe_names() {
    assert_eq!(sanitize("v1.2-rc_3"), "v1.2-rc_3");
    assert_eq!(sanitize("../../etc"), ".._.._etc");
    assert_eq!(sanitize("a b\u{e9}/\\:"), "a_b____");
    assert_eq!(sanitize(""), "");
    assert_eq!(sanitize("."), "_");
    assert_eq!(sanitize(".."), "__");
    assert_eq!(sanitize("..."), "...");
    assert_eq!(sanitize("/"), "_");
}

#[test]
fn the_unit_file_is_complete() {
    let unit = install_unit(&release("binary"), "/srv/api/current");
    assert_eq!(unit.path, "/etc/systemd/system/api.service");
    assert_eq!(
        unit.contents,
        "[Unit]\n\
         Description=sglaz deployment api\n\
         After=network-online.target\n\
         Wants=network-online.target\n\
         \n\
         [Service]\n\
         WorkingDirectory=/srv/api/current\n\
         EnvironmentFile=-/srv/api/shared/.env\n\
         ExecStart=/bin/sh -lc 'exec ./app --port 80'\n\
         Restart=always\n\
         RestartSec=5\n\
         \n\
         [Install]\n\
         WantedBy=multi-user.target\n"
    );
}

#[test]
fn a_binary_is_placed_and_then_switched_to() {
    let steps = deploy(&release("binary"), true).unwrap();
    let unit = install_unit(&release("binary"), "/srv/api/current");
    assert_eq!(
        steps,
        vec![
            DeployStep::MakeDir { path: "/srv/api/releases/v1_2".to_string(), required: true },
            DeployStep::MakeDir { path: "/srv/api/shared".to_string(), required: false },
            DeployStep::Download { url: "https://dl/x".to_string() },
            DeployStep::PlaceBinary { path: "/srv/api/releases/v1_2/app".to_string() },
            DeployStep::Link {
                target: "/srv/api/releases/v1_2".to_string(),
                tmp: "/srv/api/current.new".to_string(),
                link: "/srv/api/current".to_string(),
            },
            DeployStep::InstallUnit { path: unit.path, contents: unit.contents },
            DeployStep::Systemctl { args: words(&["daemon-reload"]) },
            DeployStep::Systemctl { args: words(&["enable", "api"]) },
            DeployStep::Systemctl { args: words(&["restart", "api"]) },
        ]
    );
}

#[test]
fn an_archive_is_extracted_and_prepared() {
    let mut spec = release("archive");
    spec.prepare_cmd = " make ".to_string();
    spec.env_values = vec![EnvVar { key: "A".to_string(), value: "x y".to_string() }];
    let steps = deploy(&spec, true).unwrap();
    let dir = "/srv/api/releases/v1_2".to_string();
    assert_eq!(steps[3], DeployStep::Extract { dir: dir.clone() });
    assert_eq!(
        steps[4],
        DeployStep::WriteEnv {
            path: "/srv/api/shared/.env".to_string(),
            contents: "A='x y'\n".to_string(),
        }
    );
    assert_eq!(steps[5], DeployStep::Prepare { dir, command: " make ".to_string() });
    assert_eq!(steps.len(), 11);
}

#[test]
fn env_values_need_a_file() {
    let mut spec = release("binary");
    spec.env_values = vec![EnvVar { key: "A".to_string(), value: "1".to_string() }];
    spec.env_file = "  ".to_string();
    spec.prepare_cmd = " \n".to_string();
    let steps = deploy(&spec, true).unwrap();
    assert_eq!(steps.len(), 9);
    assert!(!steps.iter().any(|s| matches!(s, DeployStep::WriteEnv { .. })));
}

#[test]
fn only_the_shared_directory_may_fail() {
    let steps = deploy(&release("binary"), true).unwrap();
    let tolerated: Vec<bool> = steps.iter().map(|s| s.may_fail()).collect();
    assert_eq!(
        tolerated,
        vec![false, true, false, false, false, false, false, false, false]
    );
}

#[test]
fn a_link_is_swapped_through_a_neighbour() {
    assert_eq!(
        symlink_swap("/r/1".to_string(), "/current".to_string()),
        DeployStep::Link {
            target: "/r/1".to_string(),
            tmp: "/current.new".to_string(),
            link: "/current".to_string(),
        }
    );
    for (link, want) in [("/r/a.b", "/r/a.new"), ("/r/current/", "/r/current.new")] {
        match symlink_swap(String::new(), link.to_string()) {
            DeployStep::Link { tmp, .. } => assert_eq!(tmp, want),
            other => panic!("{:?}", other),
        }
    }
}

#[test]
fn a_release_stays_below_its_root() {
    let mut spec = release("binary");
    spec.version = "..".to_string();
    assert_eq!(
        deploy(&spec, true).unwrap()[0],
        DeployStep::MakeDir { path: "/srv/api/releases/__".to_string(), required: true }
    );
}

#[test]
fn an_archive_loses_its_top_level_directory() {
    let bytes = gzipped(&tarball(&["repo-1", "repo-1/a.txt", "repo-1/src/b.txt"]));
    assert_eq!(
        extract_tar_gz(&bytes),
        vec![
            EntryTarget::Skip,
            EntryTarget::Unpack(b"a.txt".to_vec()),
            EntryTarget::Unpack(b"src/b.txt".to_vec()),
        ]
    );
}

#[test]
fn an_empty_archive_has_no_targets() {
    assert_eq!(extract_tar_gz(&gzipped(&tarball(&[]))), vec![]);
}

#[test]
fn a_broken_archive_is_unreadable() {
    assert_eq!(extract_tar_gz(b"not gzip"), vec![EntryTarget::Unreadable]);
    let whole = tarball(&["repo/a", "repo/b"]);
    let cut = gzipped(&whole[..1100]);
    let targets = extract_tar_gz(&cut);
    assert_eq!(targets.first(), Some(&EntryTarget::Unpack(b"a".to_vec())));
    assert_eq!(targets.last(), Some(&EntryTarget::Unreadable));
    assert_eq!(targets.iter().filter(|t| **t == EntryTarget::Unreadable).count(), 1);
}

#[test]
fn targets_follow_the_paths() {
    let entries = vec![
        Some(b"top/x".to_vec()),
        Some(b"top".to_vec()),
        Some(b"/abs/y".to_vec()),
        None,
    ];
    assert_eq!(
        entry_targets(&entries),
        vec![
            EntryTarget::Unpack(b"x".to_vec()),
            EntryTarget::Skip,
            EntryTarget::Unpack(b"abs/y".to_vec()),
            EntryTarget::Unreadable,
        ]
    );
}

#[test]
fn an_entry_without_end_is_not_unpacked() {
    let mut header = tar::Header::new_gnu();
    header.set_path("repo/s").unwrap();
    header.set_size(0xffff_ffff_ffff_f800);
    header.set_entry_type(tar::EntryType::GNUSparse);
    header.as_gnu_mut().unwrap().set_is_extended(true);
    header.set_cksum();
    let mut tar_bytes = tarball(&["repo/a"]);
    tar_bytes.truncate(1024);
    tar_bytes.extend(header.as_bytes());
    tar_bytes.resize(4096, 0);
    assert_eq!(
        extract_tar_gz(&gzipped(&tar_bytes)),
        vec![EntryTarget::Unpack(b"a".to_vec()), EntryTarget::Impossible]
    );
}

#[test]
fn the_first_failure_that_matters_ends_a_deployment() {
    let steps = deploy(&release("binary"), true).unwrap();
    assert_eq!(progress(&steps, &vec![]), Progress::Next(0));
    assert_eq!(progress(&steps, &vec![false]), Progress::Failed(0));
    assert_eq!(progress(&steps, &vec![true, false]), Progress::Next(2));
    assert_eq!(progress(&steps, &vec![true, false, true, false]), Progress::Failed(3));
    assert_eq!(progress(&steps, &vec![true, true, false, true, true]), Progress::Failed(2));
    assert_eq!(progress(&steps, &vec![true; 8]), Progress::Next(8));
    assert_eq!(progress(&steps, &vec![true; 9]), Progress::Done);
    assert_eq!(progress(&vec![], &vec![]), Progress::Done);
}
