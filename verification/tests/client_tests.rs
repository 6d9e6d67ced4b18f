use sven::client::DaemonClient;
use sven::error::SvenError;
use sven::protocol::{encode_response, DaemonResponse};

fn client() -> DaemonClient {
    DaemonClient::new().expect("a client can always be built")
}

#[test]
fn client_knows_the_endpoint_path() {
    let c = client();
    assert!(c.socket_path().ends_with("/sven.sock"));
}

#[test]
fn client_liveness_judgment_matches_the_daemon() {
    assert_eq!(DaemonClient::is_daemon_running(None, true), Ok(false));
    assert_eq!(DaemonClient::is_daemon_running(Some("77"), false), Ok(false));
    assert_eq!(DaemonClient::is_daemon_running(Some("77"), true), Ok(true));
    assert_eq!(DaemonClient::is_daemon_running(Some("junk"), true), Ok(false));
}

#[test]
fn sending_needs_the_endpoint_file() {
    let c = client();
    assert_eq!(c.require_endpoint(true), Ok(()));
    assert_eq!(
        c.require_endpoint(false),
        Err(SvenError::ConfigError("Daemon is not running".to_string()))
    );
}

#[test]
fn request_lines_are_the_encoded_commands() {
    let c = client();
    assert_eq!(c.get_secrets_request("fish"), "G fish");
    assert_eq!(c.list_secrets_request(), "L");
    assert_eq!(c.add_secret_request("FOO", "two words"), "A FOO two\\swords");
    assert_eq!(c.remove_secret_request("FOO"), "R FOO");
    assert_eq!(c.shutdown_request(), "D");
}

#[test]
fn get_secrets_reads_every_reply_kind() {
    let c = client();
    let reply = encode_response(&DaemonResponse::Secrets(vec![(
        "FOO".to_string(),
        "bar".to_string(),
    )]));
    assert_eq!(
        c.get_secrets(&reply),
        Ok(vec![("FOO".to_string(), "bar".to_string())])
    );
    let reply = encode_response(&DaemonResponse::Error("nope".to_string()));
    assert_eq!(
        c.get_secrets(&reply),
        Err(SvenError::ConfigError("nope".to_string()))
    );
    let reply = encode_response(&DaemonResponse::KeyList(vec![]));
    assert_eq!(
        c.get_secrets(&reply),
        Err(SvenError::ConfigError(
            "Unexpected response from daemon".to_string()
        ))
    );
    assert_eq!(
        c.get_secrets("not a reply at all \\"),
        Err(SvenError::ConfigError(
            "Invalid response from daemon".to_string()
        ))
    );
}

#[test]
fn list_secrets_reads_the_key_list() {
    let c = client();
    let reply = encode_response(&DaemonResponse::KeyList(vec!["A".to_string(), "B".to_string()]));
    assert_eq!(c.list_secrets(&reply), Ok(vec!["A".to_string(), "B".to_string()]));
    let reply = encode_response(&DaemonResponse::Success("odd".to_string()));
    assert_eq!(
        c.list_secrets(&reply),
        Err(SvenError::ConfigError(
            "Unexpected response from daemon".to_string()
        ))
    );
}

#[test]
fn mutation_replies_carry_the_confirmation() {
    let c = client();
    let reply = encode_response(&DaemonResponse::Success("Added secret: FOO".to_string()));
    assert_eq!(c.add_secret(&reply), Ok("Added secret: FOO".to_string()));
    let reply = encode_response(&DaemonResponse::Success("Removed secret: FOO".to_string()));
    assert_eq!(c.remove_secret(&reply), Ok("Removed secret: FOO".to_string()));
    let reply = encode_response(&DaemonResponse::Success("Daemon shutting down".to_string()));
    assert_eq!(c.shutdown_daemon(&reply), Ok("Daemon shutting down".to_string()));
    let reply = encode_response(&DaemonResponse::Error("boom".to_string()));
    assert_eq!(
        c.add_secret(&reply),
        Err(SvenError::ConfigError("boom".to_string()))
    );
}
