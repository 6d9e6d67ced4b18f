use sven::daemon::{worker_reply, Daemon, DaemonCore, HandlerStep, WorkerRequest};
use sven::error::SvenError;
use sven::protocol::{DaemonCommand, DaemonResponse};

#[test]
fn marker_pid_parses_plain_and_trimmed_text() {
    assert_eq!(Daemon::parse_marker_pid("1234"), Ok(1234));
    assert_eq!(Daemon::parse_marker_pid("1234\n"), Ok(1234));
    // only the first line counts
    assert_eq!(Daemon::parse_marker_pid("123\njunk"), Ok(123));
    assert_eq!(Daemon::parse_marker_pid("  42 \nmore\nlines"), Ok(42));
    assert_eq!(Daemon::parse_marker_pid("  \t+42 \r\n"), Ok(42));
    assert_eq!(Daemon::parse_marker_pid("0007"), Ok(7));
    assert_eq!(Daemon::parse_marker_pid("4294967295"), Ok(4294967295));
}

#[test]
fn marker_pid_rejects_bad_text() {
    let invalid = SvenError::ConfigError("Invalid PID in PID file".to_string());
    assert_eq!(Daemon::parse_marker_pid(""), Err(invalid.clone()));
    assert_eq!(Daemon::parse_marker_pid("   \n"), Err(invalid.clone()));
    assert_eq!(Daemon::parse_marker_pid("abc"), Err(invalid.clone()));
    assert_eq!(Daemon::parse_marker_pid("12a4"), Err(invalid.clone()));
    assert_eq!(Daemon::parse_marker_pid("-5"), Err(invalid.clone()));
    assert_eq!(Daemon::parse_marker_pid("+"), Err(invalid.clone()));
    assert_eq!(Daemon::parse_marker_pid("4294967296"), Err(invalid.clone()));
    assert_eq!(
        Daemon::parse_marker_pid("99999999999999999999999999"),
        Err(invalid)
    );
}

#[test]
fn liveness_judgment() {
    assert_eq!(Daemon::is_daemon_running(None, true), Ok(false));
    assert_eq!(Daemon::is_daemon_running(Some("1234"), true), Ok(true));
    assert_eq!(Daemon::is_daemon_running(Some("123\njunk"), true), Ok(true));
}

#[test]
fn corrupt_marker_counts_as_not_running() {
    // a marker whose text names no process id blocks nothing
    assert_eq!(Daemon::is_daemon_running(Some("not a pid"), true), Ok(false));
    assert_eq!(Daemon::is_daemon_running(Some(""), true), Ok(false));
    // a start attempt may then proceed and overwrite it
    assert!(Daemon::plan_start(false, false).is_ok());
}

#[test]
fn rendezvous_path_is_the_drawn_directory_plus_the_name() {
    assert_eq!(
        Daemon::path_in(Some("/run/user/1000".to_string()), "/sven.sock"),
        "/run/user/1000/sven.sock"
    );
    assert_eq!(Daemon::path_in(None, "/sven.pid"), "/tmp/sven.pid");
}

#[test]
fn stale_marker_counts_as_not_running() {
    // a marker naming a process that no longer exists
    assert_eq!(Daemon::is_daemon_running(Some("1234\n"), false), Ok(false));
    // and a start attempt may then proceed and overwrite it
    let plan = Daemon::plan_start(false, true).expect("start must be allowed");
    assert!(plan.remove_stale_socket);
}

#[test]
fn duplicate_start_is_rejected() {
    let already = SvenError::ConfigError("Daemon is already running".to_string());
    assert_eq!(Daemon::plan_start(true, false), Err(already.clone()));
    assert_eq!(Daemon::plan_start(true, true), Err(already));
    let plan = Daemon::plan_start(false, false).expect("start must be allowed");
    assert!(!plan.remove_stale_socket);
}

#[test]
fn rendezvous_paths_have_their_well_known_names() {
    let socket = Daemon::get_socket_path().expect("a socket path exists");
    assert!(socket.ends_with("/sven.sock"));
    let pid = Daemon::get_pid_file_path().expect("a pid file path exists");
    assert!(pid.ends_with("/sven.pid"));
}

#[test]
fn worker_confirms_and_passes_errors_through() {
    let add = WorkerRequest::AddSecret {
        key: "FOO".to_string(),
        value: "bar".to_string(),
    };
    assert_eq!(worker_reply(&add, Ok(())), Ok("Added secret: FOO".to_string()));
    let remove = WorkerRequest::RemoveSecret { key: "FOO".to_string() };
    assert_eq!(worker_reply(&remove, Ok(())), Ok("Removed secret: FOO".to_string()));
    let boom = SvenError::DbError("boom".to_string());
    assert_eq!(worker_reply(&add, Err(boom.clone())), Err(boom));
}

#[test]
fn error_messages() {
    assert_eq!(
        SvenError::ConfigError("x".to_string()).message(),
        "Config error: x"
    );
    assert_eq!(
        SvenError::DbError("boom".to_string()).message(),
        "Database error: boom"
    );
    assert_eq!(
        SvenError::NoGpgKeys.message(),
        "No GPG keys with ultimate trust found"
    );
    assert_eq!(SvenError::NoKeySelected.message(), "GPG key not selected");
}

#[test]
fn channel_failure_is_reported() {
    let resp = sven::daemon::channel_failure_response("worker is gone");
    assert_eq!(
        resp,
        DaemonResponse::Error(
            "Failed to communicate with database thread: worker is gone".to_string()
        )
    );
}

fn run_mutation(core: &mut DaemonCore, cmd: DaemonCommand) -> DaemonResponse {
    match core.dispatch(cmd) {
        HandlerStep::Mutate(req) => {
            // the store accepts the mutation
            let reply = worker_reply(&req, Ok(()));
            core.apply_mutation(req, reply)
        }
        _ => panic!("a mutation command must go to the worker"),
    }
}

#[test]
fn end_to_end_daemon_core_scenario() {
    // start with an empty store
    let mut core = DaemonCore::init(&Vec::new());

    // AddSecret("FOO", "bar") succeeds
    let resp = run_mutation(
        &mut core,
        DaemonCommand::AddSecret {
            key: "FOO".to_string(),
            value: "bar".to_string(),
        },
    );
    assert_eq!(resp, DaemonResponse::Success("Added secret: FOO".to_string()));

    // GetSecrets returns [("FOO", "bar")]
    match core.dispatch(DaemonCommand::GetSecrets { shell: "fish".to_string() }) {
        HandlerStep::Reply(DaemonResponse::Secrets(pairs)) => {
            assert_eq!(pairs, vec![("FOO".to_string(), "bar".to_string())]);
        }
        _ => panic!("GetSecrets must be answered from the cache"),
    }

    // RemoveSecret("FOO") succeeds
    let resp = run_mutation(&mut core, DaemonCommand::RemoveSecret { key: "FOO".to_string() });
    assert_eq!(resp, DaemonResponse::Success("Removed secret: FOO".to_string()));

    // ListSecrets returns []
    match core.dispatch(DaemonCommand::ListSecrets) {
        HandlerStep::Reply(DaemonResponse::KeyList(keys)) => {
            assert_eq!(keys, Vec::<String>::new());
        }
        _ => panic!("ListSecrets must be answered from the cache"),
    }

    // Shutdown is acknowledged and begins the shutdown
    match core.dispatch(DaemonCommand::Shutdown) {
        HandlerStep::BeginShutdown(resp) => {
            assert_eq!(resp, DaemonResponse::Success("Daemon shutting down".to_string()));
        }
        _ => panic!("Shutdown must signal the lifecycle controller"),
    }
}

#[test]
fn failed_mutation_leaves_the_cache_untouched() {
    let mut core = DaemonCore::init(&vec![("KEEP".to_string(), "me".to_string())]);
    let step = core.dispatch(DaemonCommand::AddSecret {
        key: "FOO".to_string(),
        value: "bar".to_string(),
    });
    let resp = match step {
        HandlerStep::Mutate(req) => {
            let reply = worker_reply(&req, Err(SvenError::DbError("boom".to_string())));
            core.apply_mutation(req, reply)
        }
        _ => panic!("a mutation command must go to the worker"),
    };
    assert_eq!(
        resp,
        DaemonResponse::Error("Failed to add secret: Database error: boom".to_string())
    );
    match core.dispatch(DaemonCommand::ListSecrets) {
        HandlerStep::Reply(DaemonResponse::KeyList(keys)) => {
            assert_eq!(keys, vec!["KEEP".to_string()]);
        }
        _ => panic!("ListSecrets must be answered from the cache"),
    }
}

#[test]
fn overwrite_leaves_exactly_one_record() {
    let mut core = DaemonCore::init(&Vec::new());
    run_mutation(
        &mut core,
        DaemonCommand::AddSecret { key: "K".to_string(), value: "v1".to_string() },
    );
    run_mutation(
        &mut core,
        DaemonCommand::AddSecret { key: "K".to_string(), value: "v2".to_string() },
    );
    match core.dispatch(DaemonCommand::GetSecrets { shell: "bash".to_string() }) {
        HandlerStep::Reply(DaemonResponse::Secrets(pairs)) => {
            assert_eq!(pairs, vec![("K".to_string(), "v2".to_string())]);
        }
        _ => panic!("GetSecrets must be answered from the cache"),
    }
}

#[test]
fn idempotent_removal_succeeds_on_absent_key() {
    let mut core = DaemonCore::init(&Vec::new());
    let resp = run_mutation(&mut core, DaemonCommand::RemoveSecret { key: "NONE".to_string() });
    assert_eq!(resp, DaemonResponse::Success("Removed secret: NONE".to_string()));
    match core.dispatch(DaemonCommand::ListSecrets) {
        HandlerStep::Reply(DaemonResponse::KeyList(keys)) => {
            assert_eq!(keys, Vec::<String>::new());
        }
        _ => panic!("ListSecrets must be answered from the cache"),
    }
}

#[test]
fn distinct_adds_are_all_kept() {
    // the persistence worker serializes mutations; in whatever order the
    // concurrent requests arrived, every distinct key must be present
    let mut core = DaemonCore::init(&Vec::new());
    let names = ["E", "B", "D", "A", "C"];
    for n in names {
        run_mutation(
            &mut core,
            DaemonCommand::AddSecret { key: n.to_string(), value: format!("v-{}", n) },
        );
    }
    match core.dispatch(DaemonCommand::ListSecrets) {
        HandlerStep::Reply(DaemonResponse::KeyList(mut keys)) => {
            keys.sort();
            assert_eq!(
                keys,
                vec![
                    "A".to_string(),
                    "B".to_string(),
                    "C".to_string(),
                    "D".to_string(),
                    "E".to_string(),
                ]
            );
        }
        _ => panic!("ListSecrets must be answered from the cache"),
    }
}
