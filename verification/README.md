# sglaz

The agent half of **sglaz**: it runs on a machine, polls the sglaz server, keeps
`.env` files in sync with environments defined there, and runs deployments as
systemd services.

- `src/` is the agent's decision core, a library verified with
  [Verus](https://github.com/verus-lang/verus). It does no I/O.
- `app/` is the agent itself: it carries out what the library decides.
- `tests/` runs the library on concrete inputs.

## The library

| module      | what it decides                                                     |
|-------------|---------------------------------------------------------------------|
| `cli`       | what the command line asks for                                      |
| `config`    | the persisted configuration, where it lives, poll intervals         |
| `enroll`    | trading a one-time code for a token                                 |
| `envfile`   | reading and writing `.env` contents                                 |
| `wire`      | the messages exchanged with the server                              |
| `tasks`     | what a poll has to do, as a list of tasks                           |
| `poll`      | one poll, as a state machine from events to actions                 |
| `runs`      | what holds of every run of a poll                                   |
| `reconcile` | bringing the configuration in line with the server                  |
| `deploy`    | the steps of a deployment, unit files, service states               |
| `archive`   | which entries a release archive holds                               |
| `browse`    | the file picker                                                     |
| `upgrade`   | replacing the agent's own binary                                    |
| `tray`      | the tray icon on Windows                                            |
| `paths`     | Unix paths                                                          |
| `text`      | text as sequences of characters                                     |

A poll is driven like this: `Poll::start` gives a first action, the caller carries
it out and hands what came of it to `Poll::step`, which gives the next one, until
the action is `Finish`.

What the proofs rest on besides Verus: `String::push`, `str::to_lowercase`,
`str::to_uppercase`, the `Debug` format of a list of strings, and the headers,
pax records and entry paths that `tar` and `flate2` find in a `.tar.gz`.

## Windows

The tray icon in `app/tray.rs` is compiled on Windows only, and needs the crates
`tray-icon` (0.19) and `windows` (0.58, with the features `Win32_Foundation`,
`Win32_System_Console` and `Win32_UI_WindowsAndMessaging`) as dependencies of a
Windows build.
