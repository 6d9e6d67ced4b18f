//! The client side of the protocol: where the daemon lives, the exact
//! request line each operation sends, and the exact meaning of every
//! reply line. The one-line exchange itself is transport work and is left
//! to the process around the library.

use vstd::prelude::*;
use vstd::string::StringExecFns;

use crate::daemon::{ends_with, Daemon};
use crate::error::{ErrorView, SvenError};
use crate::protocol::{
    decode_response, decode_response_sp, encode_command, encode_command_sp, CommandView,
    DaemonCommand, DaemonResponse, ResponseView,
};

verus! {

/// A client of a running daemon, bound to its rendezvous endpoint path.
pub struct DaemonClient {
    socket_path: String,
}

impl View for DaemonClient {
    type V = Seq<char>;

    closed spec fn view(&self) -> Seq<char> {
        self.socket_path@
    }
}

impl DaemonClient {
    /// A client for the well-known endpoint of this user.
    pub fn new() -> (r: Result<DaemonClient, SvenError>)
        ensures
            r matches Ok(c) && ends_with(c@, "/sven.sock"@),
    {
        match Daemon::get_socket_path() {
            Ok(p) => Ok(DaemonClient { socket_path: p }),
            Err(e) => Err(e),
        }
    }

    /// The endpoint path this client connects to.
    pub fn socket_path(&self) -> (r: &String)
        ensures
            r@ == self@,
    {
        &self.socket_path
    }

    /// Whether a daemon instance is judged alive, from the marker file's
    /// text and the existence of the process it names; the same judgment
    /// the daemon itself makes, so a stale or corrupt marker counts as not
    /// running.
    pub fn is_daemon_running(marker: Option<&str>, pid_alive: bool) -> (r: Result<bool, SvenError>)
        ensures
            marker is None ==> r == Ok::<bool, SvenError>(false),
            marker matches Some(c) ==> match crate::daemon::marker_pid_sp(c@) {
                Some(_) => r == Ok::<bool, SvenError>(pid_alive),
                None => r == Ok::<bool, SvenError>(false),
            },
    {
        Daemon::is_daemon_running(marker, pid_alive)
    }

    /// Whether a request can be sent at all: where the endpoint file does
    /// not exist, no daemon is listening and the send is refused with the
    /// not-running error.
    pub fn require_endpoint(&self, endpoint_exists: bool) -> (r: Result<(), SvenError>)
        ensures
            endpoint_exists ==> r is Ok,
            !endpoint_exists ==> (r matches Err(e) && e@ == ErrorView::ConfigError(
                "Daemon is not running"@,
            )),
    {
        if endpoint_exists {
            Ok(())
        } else {
            Err(SvenError::ConfigError(String::from_str("Daemon is not running")))
        }
    }

    /// The request line asking for every secret.
    pub fn get_secrets_request(&self, shell: &str) -> (r: String)
        ensures
            r@ == encode_command_sp((CommandView::GetSecrets { shell: shell@ })),
    {
        encode_command(&DaemonCommand::GetSecrets { shell: String::from_str(shell) })
    }

    /// The request line asking for the key list.
    pub fn list_secrets_request(&self) -> (r: String)
        ensures
            r@ == encode_command_sp(CommandView::ListSecrets),
    {
        encode_command(&DaemonCommand::ListSecrets)
    }

    /// The request line adding one secret.
    pub fn add_secret_request(&self, key: &str, value: &str) -> (r: String)
        ensures
            r@ == encode_command_sp((CommandView::AddSecret { key: key@, value: value@ })),
    {
        encode_command(
            &DaemonCommand::AddSecret {
                key: String::from_str(key),
                value: String::from_str(value),
            },
        )
    }

    /// The request line removing one secret.
    pub fn remove_secret_request(&self, key: &str) -> (r: String)
        ensures
            r@ == encode_command_sp((CommandView::RemoveSecret { key: key@ })),
    {
        encode_command(&DaemonCommand::RemoveSecret { key: String::from_str(key) })
    }

    /// The request line asking the daemon to shut down.
    pub fn shutdown_request(&self) -> (r: String)
        ensures
            r@ == encode_command_sp(CommandView::Shutdown),
    {
        encode_command(&DaemonCommand::Shutdown)
    }

    /// Reads a `GetSecrets` reply line: the secrets on a listing reply,
    /// the daemon's error as an error, and a config error on any reply no
    /// response encodes to or of an unexpected kind.
    pub fn get_secrets(&self, reply_line: &str) -> (r: Result<Vec<(String, String)>, SvenError>)
        ensures
            match decode_response_sp(reply_line@) {
                Some(rv) => match rv {
                    ResponseView::Secrets(ps) => (r matches Ok(v) && v.deep_view() == ps),
                    ResponseView::Error(m) => (r matches Err(e) && e@ == ErrorView::ConfigError(m)),
                    _ => (r matches Err(e) && e@ == ErrorView::ConfigError(
                        "Unexpected response from daemon"@,
                    )),
                },
                None => (r matches Err(e) && e@ == ErrorView::ConfigError(
                    "Invalid response from daemon"@,
                )),
            },
    {
        match decode_response(reply_line) {
            None => Err(
                SvenError::ConfigError(String::from_str("Invalid response from daemon")),
            ),
            Some(resp) => match resp {
                DaemonResponse::Secrets(v) => Ok(v),
                DaemonResponse::Error(m) => Err(SvenError::ConfigError(m)),
                _ => Err(
                    SvenError::ConfigError(String::from_str("Unexpected response from daemon")),
                ),
            },
        }
    }

    /// Reads a `ListSecrets` reply line: the keys on a key-list reply,
    /// the daemon's error as an error, and a config error otherwise.
    pub fn list_secrets(&self, reply_line: &str) -> (r: Result<Vec<String>, SvenError>)
        ensures
            match decode_response_sp(reply_line@) {
                Some(rv) => match rv {
                    ResponseView::KeyList(ks) => (r matches Ok(v) && v.deep_view() == ks),
                    ResponseView::Error(m) => (r matches Err(e) && e@ == ErrorView::ConfigError(m)),
                    _ => (r matches Err(e) && e@ == ErrorView::ConfigError(
                        "Unexpected response from daemon"@,
                    )),
                },
                None => (r matches Err(e) && e@ == ErrorView::ConfigError(
                    "Invalid response from daemon"@,
                )),
            },
    {
        match decode_response(reply_line) {
            None => Err(
                SvenError::ConfigError(String::from_str("Invalid response from daemon")),
            ),
            Some(resp) => match resp {
                DaemonResponse::KeyList(v) => Ok(v),
                DaemonResponse::Error(m) => Err(SvenError::ConfigError(m)),
                _ => Err(
                    SvenError::ConfigError(String::from_str("Unexpected response from daemon")),
                ),
            },
        }
    }

    /// Reads an `AddSecret` reply line: the confirmation message on
    /// success, the daemon's error as an error, and a config error
    /// otherwise.
    pub fn add_secret(&self, reply_line: &str) -> (r: Result<String, SvenError>)
        ensures
            success_reply_ok(reply_line@, r),
    {
        Self::success_reply(reply_line)
    }

    /// Reads a `RemoveSecret` reply line, as `add_secret` does.
    pub fn remove_secret(&self, reply_line: &str) -> (r: Result<String, SvenError>)
        ensures
            success_reply_ok(reply_line@, r),
    {
        Self::success_reply(reply_line)
    }

    /// Reads a `Shutdown` reply line, as `add_secret` does.
    pub fn shutdown_daemon(&self, reply_line: &str) -> (r: Result<String, SvenError>)
        ensures
            success_reply_ok(reply_line@, r),
    {
        Self::success_reply(reply_line)
    }

    fn success_reply(reply_line: &str) -> (r: Result<String, SvenError>)
        ensures
            success_reply_ok(reply_line@, r),
    {
        match decode_response(reply_line) {
            None => Err(
                SvenError::ConfigError(String::from_str("Invalid response from daemon")),
            ),
            Some(resp) => match resp {
                DaemonResponse::Success(m) => Ok(m),
                DaemonResponse::Error(m) => Err(SvenError::ConfigError(m)),
                _ => Err(
                    SvenError::ConfigError(String::from_str("Unexpected response from daemon")),
                ),
            },
        }
    }
}

/// The meaning of a reply to a mutating or shutdown request: the
/// confirmation message of a success reply, the daemon's error as an
/// error, and a config error on any other or undecodable reply.
pub open spec fn success_reply_ok(line: Seq<char>, r: Result<String, SvenError>) -> bool {
    match decode_response_sp(line) {
        Some(rv) => match rv {
            ResponseView::Success(m) => (r matches Ok(msg) && msg@ == m),
            ResponseView::Error(m) => (r matches Err(e) && e@ == ErrorView::ConfigError(m)),
            _ => (r matches Err(e) && e@ == ErrorView::ConfigError(
                "Unexpected response from daemon"@,
            )),
        },
        None => (r matches Err(e) && e@ == ErrorView::ConfigError("Invalid response from daemon"@)),
    }
}

} // verus!
