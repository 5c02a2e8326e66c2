use sglaz::config::Config;
use sglaz::enroll::{
    enroll, enroll_answer, enroll_call, enrolled, finish_enrollment, EnrollError, EnrollReply,
    Machine,
};
use sglaz::wire::{EnrollReq, EnrollResp};

fn machine() -> Machine {
    Machine {
        hostname: "box".to_string(),
        os: "linux".to_string(),
        arch: "x86_64".to_string(),
        version: "0.1.0".to_string(),
    }
}

#[test]
fn the_code_is_trimmed_and_upper_cased() {
    let call = enroll("https://s.example//", " ab\u{df}12 \n", machine());
    assert_eq!(call.server, "https://s.example");
    assert_eq!(call.url, "https://s.example/api/client/enroll");
    assert_eq!(
        call.body,
        EnrollReq {
            code: "ABSS12".to_string(),
            hostname: "box".to_string(),
            os: "linux".to_string(),
            arch: "x86_64".to_string(),
            version: "0.1.0".to_string(),
        }
    );
}

#[test]
fn a_given_code_is_sent_as_it_is() {
    let call = enroll_call("http://s", "Abc".to_string(), machine());
    assert_eq!(call.url, "http://s/api/client/enroll");
    assert_eq!(call.body.code, "Abc");
}

#[test]
fn enrolling_starts_a_fresh_config() {
    let resp = EnrollResp {
        token: "t".to_string(),
        client_id: "c".to_string(),
        name: "n".to_string(),
        poll_interval_secs: 1,
    };
    let cfg = enrolled("http://s".to_string(), resp.clone());
    assert_eq!(
        cfg,
        Config {
            server_url: "http://s".to_string(),
            token: "t".to_string(),
            client_id: "c".to_string(),
            poll_interval_secs: 3,
            bindings: vec![],
            deployments: vec![],
        }
    );
    let slow = EnrollResp { poll_interval_secs: 15, ..resp };
    assert_eq!(enrolled(String::new(), slow).poll_interval_secs, 15);
}

#[test]
fn enroll_errors_speak() {
    let unreachable = EnrollError::Unreachable {
        server: "http://s".to_string(),
        cause: "refused".to_string(),
    };
    assert_eq!(unreachable.message(), "could not reach server at http://s: refused");
    let rejected = EnrollError::Rejected {
        status: "403 Forbidden".to_string(),
        body: " code used up\n".to_string(),
    };
    assert_eq!(rejected.message(), "enrollment rejected (403 Forbidden): code used up");
    let response = EnrollError::Response { cause: "eof".to_string() };
    assert_eq!(response.message(), "unexpected enroll response: eof");
}

fn resp() -> EnrollResp {
    EnrollResp {
        token: "t".to_string(),
        client_id: "c".to_string(),
        name: "n".to_string(),
        poll_interval_secs: 15,
    }
}

fn answered(code: u16, answer: Result<EnrollResp, String>) -> EnrollReply {
    EnrollReply::Answered {
        code,
        status: "the status".to_string(),
        body: " the body ".to_string(),
        answer,
    }
}

#[test]
fn only_success_is_an_answer() {
    assert_eq!(enroll_answer(200, String::new(), String::new()), Ok(()));
    assert_eq!(enroll_answer(299, String::new(), String::new()), Ok(()));
    for code in [199, 300, 403, 500] {
        assert_eq!(
            enroll_answer(code, "s".to_string(), "b".to_string()),
            Err(EnrollError::Rejected { status: "s".to_string(), body: "b".to_string() })
        );
    }
}

#[test]
fn an_enrollment_ends_in_a_config_or_an_error() {
    let server = "http://s".to_string();
    assert_eq!(
        finish_enrollment(server.clone(), answered(201, Ok(resp()))),
        Ok(enrolled(server.clone(), resp()))
    );
    let e = finish_enrollment(server.clone(), answered(403, Ok(resp()))).unwrap_err();
    assert_eq!(e.message(), "enrollment rejected (the status): the body");
    let e = finish_enrollment(server.clone(), answered(200, Err("eof".to_string()))).unwrap_err();
    assert_eq!(e, EnrollError::Response { cause: "eof".to_string() });
    let unsent = EnrollReply::Unsent { cause: "refused".to_string() };
    let e = finish_enrollment(server, unsent).unwrap_err();
    assert_eq!(e.message(), "could not reach server at http://s: refused");
}
