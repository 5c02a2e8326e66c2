//! Enrollment: trading a one-time code for a permanent token.
use crate::config;
use crate::config::Config;
use crate::text;
use crate::wire;
use crate::wire::{EnrollReq, EnrollResp};
use vstd::prelude::*;

verus! {

/// `s` in upper case, by Unicode's rules.
pub uninterp spec fn uppercased(s: Seq<char>) -> Seq<char>;

/// `str::to_uppercase`. The contract names the result: Unicode's case tables are
/// not spelled out.
#[verifier::external_body]
fn uppercase(s: &str) -> (r: String)
    ensures
        r@ == uppercased(s@),
{
    s.to_uppercase()
}

/// What this machine tells the server about itself.
#[derive(Debug, PartialEq, Eq)]
pub struct Machine {
    pub hostname: String,
    pub os: String,
    pub arch: String,
    pub version: String,
}

/// The request that enrolls a machine: what is posted, and where.
#[derive(Debug, PartialEq, Eq)]
pub struct EnrollCall {
    /// The server's base URL, as it is kept.
    pub server: String,
    pub url: String,
    pub body: EnrollReq,
}

/// The enrollment of `machine` at `server` with the code `sent`.
pub open spec fn is_call(
    call: EnrollCall,
    server: Seq<char>,
    sent: Seq<char>,
    machine: Machine,
) -> bool {
    &&& call.server@ == config::base_url(server)
    &&& call.url@ == config::base_url(server) + "/api/client/enroll"@
    &&& call.body.deep_view() == (wire::EnrollReqView {
        code: sent,
        hostname: machine.hostname@,
        os: machine.os@,
        arch: machine.arch@,
        version: machine.version@,
    })
}

/// The request that enrolls `machine` at `server`, with the code as it is sent.
pub fn enroll_call(server: &str, sent: String, machine: Machine) -> (r: EnrollCall)
    ensures
        is_call(r, server@, sent@, machine),
{
    let cs = text::chars_of(server);
    let server = text::string_of(text::trim_tail(cs.as_slice(), '/'));
    let mut url = server.clone();
    url.append("/api/client/enroll");
    EnrollCall {
        server,
        url,
        body: EnrollReq {
            code: sent,
            hostname: machine.hostname,
            os: machine.os,
            arch: machine.arch,
            version: machine.version,
        },
    }
}

/// Enroll with the server using a one-time code: the request to send. The code is
/// sent without white space around it and in upper case.
pub fn enroll(server: &str, code: &str, machine: Machine) -> (r: EnrollCall)
    ensures
        is_call(r, server@, uppercased(text::trimmed(code@)), machine),
{
    let code = text::trim_str(code);
    enroll_call(server, uppercase(code.as_str()), machine)
}

/// Why an enrollment failed.
#[derive(Debug, PartialEq, Eq)]
pub enum EnrollError {
    /// The server could not be reached.
    Unreachable { server: String, cause: String },
    /// The server answered with this status and text.
    Rejected { status: String, body: String },
    /// The answer could not be understood.
    Response { cause: String },
}

/// What an error says.
pub open spec fn error_message(e: EnrollError) -> Seq<char> {
    match e {
        EnrollError::Unreachable { server, cause } => "could not reach server at "@ + server@
            + ": "@ + cause@,
        EnrollError::Rejected { status, body } => "enrollment rejected ("@ + status@ + "): "@
            + text::trimmed(body@),
        EnrollError::Response { cause } => "unexpected enroll response: "@ + cause@,
    }
}

impl EnrollError {
    /// What the error says.
    pub fn message(&self) -> (r: String)
        ensures
            r@ == error_message(*self),
    {
        match self {
            EnrollError::Unreachable { server, cause } => {
                let mut out = "could not reach server at ".to_owned();
                out.append(server.as_str());
                out.append(": ");
                out.append(cause.as_str());
                out
            },
            EnrollError::Rejected { status, body } => {
                let body = text::trim_str(body.as_str());
                let mut out = "enrollment rejected (".to_owned();
                out.append(status.as_str());
                out.append("): ");
                out.append(body.as_str());
                out
            },
            EnrollError::Response { cause } => {
                let mut out = "unexpected enroll response: ".to_owned();
                out.append(cause.as_str());
                out
            },
        }
    }
}

/// The configuration of a machine that was just enrolled at `server`.
pub open spec fn first_config(server: Seq<char>, resp: wire::EnrollRespView) -> config::ConfigView {
    config::ConfigView {
        server_url: server,
        token: resp.token,
        client_id: resp.client_id,
        poll_interval_secs: config::kept_interval(resp.poll_interval_secs),
        bindings: seq![],
        deployments: seq![],
    }
}

/// What to persist once the server has answered. There is one identity per
/// machine, so this replaces any earlier configuration; bindings are learned from
/// the server.
pub fn enrolled(server: String, resp: EnrollResp) -> (r: Config)
    ensures
        r.deep_view() == first_config(server@, resp.deep_view()),
{
    let cfg = Config {
        server_url: server,
        token: resp.token,
        client_id: resp.client_id,
        poll_interval_secs: config::clamp_interval(resp.poll_interval_secs),
        bindings: Vec::new(),
        deployments: Vec::new(),
    };
    assert(cfg.bindings.deep_view() == Seq::<config::BindingView>::empty());
    assert(cfg.deployments.deep_view() == Seq::<config::DeployRecordView>::empty());
    cfg
}

/// Judges the server's answer by its status.
pub fn enroll_answer(code: u16, status: String, body: String) -> (r: Result<(), EnrollError>)
    ensures
        r == (if wire::success_code(code) {
            Ok(())
        } else {
            Err(EnrollError::Rejected { status, body })
        }),
{
    if wire::is_success(code) {
        Ok(())
    } else {
        Err(EnrollError::Rejected { status, body })
    }
}

/// What came of the request.
#[derive(Debug, PartialEq, Eq)]
pub enum EnrollReply {
    /// It did not get through.
    Unsent { cause: String },
    /// The server answered: with a status, and with a body, as text and as what it
    /// says (or why it cannot be understood).
    Answered { code: u16, status: String, body: String, answer: Result<EnrollResp, String> },
}

/// What comes of an enrollment at `server` (its base URL, as it is kept): a
/// configuration to persist, exactly if the server answered with success and can be
/// understood. There is nothing to persist otherwise.
pub fn finish_enrollment(server: String, reply: EnrollReply) -> (r: Result<Config, EnrollError>)
    ensures
        match reply {
            EnrollReply::Unsent { cause } => r == Err::<Config, EnrollError>(
                EnrollError::Unreachable { server, cause },
            ),
            EnrollReply::Answered { code, status, body, answer } => if !wire::success_code(code) {
                r == Err::<Config, EnrollError>(EnrollError::Rejected { status, body })
            } else {
                match answer {
                    Ok(resp) => r is Ok && r->Ok_0.deep_view() == first_config(
                        server@,
                        resp.deep_view(),
                    ),
                    Err(cause) => r == Err::<Config, EnrollError>(EnrollError::Response { cause }),
                }
            },
        },
{
    match reply {
        EnrollReply::Unsent { cause } => Err(EnrollError::Unreachable { server, cause }),
        EnrollReply::Answered { code, status, body, answer } => {
            match enroll_answer(code, status, body) {
                Ok(_) => match answer {
                    Ok(resp) => Ok(enrolled(server, resp)),
                    Err(cause) => Err(EnrollError::Response { cause }),
                },
                Err(e) => Err(e),
            }
        },
    }
}

/// The request goes to the enrollment endpoint of the server, however many slashes its
/// URL ends with, and holds the code and what the machine says of itself.
pub proof fn law_enrollment_request(
    call: EnrollCall,
    url: Seq<char>,
    n: nat,
    sent: Seq<char>,
    machine: Machine,
)
    requires
        url.len() > 0 ==> url.last() != '/',
        is_call(call, url + Seq::new(n, |i: int| '/'), sent, machine),
    ensures
        call.server@ == url,
        call.url@ == url + "/api/client/enroll"@,
        call.body.code@ == sent,
        call.body.hostname@ == machine.hostname@,
        call.body.os@ == machine.os@,
        call.body.arch@ == machine.arch@,
        call.body.version@ == machine.version@,
{
    config::law_only_slashes_go(url, n);
}

/// A machine that was just enrolled has the identity that the server gave it and polls
/// the server it enrolled at, as often as that asked for. Nothing is attached to it.
pub proof fn law_first_config(server: Seq<char>, resp: wire::EnrollRespView)
    ensures
        ({
            let c = first_config(server, resp);
            &&& c.server_url == server
            &&& c.token == resp.token
            &&& c.client_id == resp.client_id
            &&& resp.poll_interval_secs >= 3 ==> c.poll_interval_secs == resp.poll_interval_secs
            &&& resp.poll_interval_secs < 3 ==> c.poll_interval_secs == 3
            &&& c.bindings.len() == 0
            &&& c.deployments.len() == 0
        }),
{
}

/// An error says what went wrong, with the words of whoever reported it.
pub proof fn law_error_messages(a: String, b: String)
    ensures
        error_message(EnrollError::Unreachable { server: a, cause: b })
            == "could not reach server at "@ + (a@ + (": "@ + b@)),
        error_message(EnrollError::Rejected { status: a, body: b }) == "enrollment rejected ("@ + (a@
            + ("): "@ + text::trimmed(b@))),
        error_message(EnrollError::Response { cause: a }) == "unexpected enroll response: "@ + a@,
{
}

} // verus!
