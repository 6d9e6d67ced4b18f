use sven::protocol::{decode_command, decode_response, encode_command, encode_response};
use sven::protocol::{DaemonCommand, DaemonResponse};

fn command_round_trip(cmd: DaemonCommand) {
    let line = encode_command(&cmd);
    let back = decode_command(&line).expect("an encoded command must decode");
    assert_eq!(back, cmd);
}

fn response_round_trip(resp: DaemonResponse) {
    let line = encode_response(&resp);
    let back = decode_response(&line).expect("an encoded response must decode");
    assert_eq!(back, resp);
}

#[test]
fn round_trip_every_command_variant() {
    command_round_trip(DaemonCommand::GetSecrets { shell: "fish".to_string() });
    command_round_trip(DaemonCommand::AddSecret {
        key: "FOO".to_string(),
        value: "bar".to_string(),
    });
    command_round_trip(DaemonCommand::RemoveSecret { key: "FOO".to_string() });
    command_round_trip(DaemonCommand::ListSecrets);
    command_round_trip(DaemonCommand::Shutdown);
}

#[test]
fn round_trip_every_response_variant() {
    response_round_trip(DaemonResponse::Secrets(vec![
        ("FOO".to_string(), "bar".to_string()),
        ("BAZ".to_string(), "qux".to_string()),
    ]));
    response_round_trip(DaemonResponse::Secrets(vec![]));
    response_round_trip(DaemonResponse::KeyList(vec![
        "FOO".to_string(),
        "BAZ".to_string(),
    ]));
    response_round_trip(DaemonResponse::KeyList(vec![]));
    response_round_trip(DaemonResponse::Success("Added secret: FOO".to_string()));
    response_round_trip(DaemonResponse::Error("Failed to add secret: boom".to_string()));
}

#[test]
fn round_trip_awkward_text() {
    command_round_trip(DaemonCommand::AddSecret {
        key: "with space".to_string(),
        value: "line\nbreak \\ backslash  two  spaces".to_string(),
    });
    command_round_trip(DaemonCommand::AddSecret {
        key: "".to_string(),
        value: "".to_string(),
    });
    command_round_trip(DaemonCommand::GetSecrets { shell: "\\n \\s \\\\".to_string() });
    response_round_trip(DaemonResponse::Secrets(vec![(
        "k e y".to_string(),
        "v\na\nl".to_string(),
    )]));
}

#[test]
fn exact_wire_forms() {
    assert_eq!(
        encode_command(&DaemonCommand::AddSecret {
            key: "FOO".to_string(),
            value: "bar".to_string(),
        }),
        "A FOO bar"
    );
    assert_eq!(
        encode_command(&DaemonCommand::GetSecrets { shell: "fish".to_string() }),
        "G fish"
    );
    assert_eq!(
        encode_command(&DaemonCommand::RemoveSecret { key: "FOO".to_string() }),
        "R FOO"
    );
    assert_eq!(encode_command(&DaemonCommand::ListSecrets), "L");
    assert_eq!(encode_command(&DaemonCommand::Shutdown), "D");
    assert_eq!(
        encode_command(&DaemonCommand::AddSecret {
            key: "K".to_string(),
            value: "a b\n\\".to_string(),
        }),
        "A K a\\sb\\n\\\\"
    );
    assert_eq!(
        encode_response(&DaemonResponse::Secrets(vec![(
            "FOO".to_string(),
            "bar".to_string()
        )])),
        "S FOO bar"
    );
    assert_eq!(
        encode_response(&DaemonResponse::Success("ok".to_string())),
        "O ok"
    );
}

#[test]
fn undecodable_lines_are_rejected() {
    assert_eq!(decode_command(""), None);
    assert_eq!(decode_command("?? what"), None);
    assert_eq!(decode_command("A only-one-field"), None);
    assert_eq!(decode_command("L extra"), None);
    assert_eq!(decode_command("G a b"), None);
    assert_eq!(decode_command("A a \\"), None);
    assert_eq!(decode_command("A a \\x"), None);
    assert_eq!(decode_response(""), None);
    assert_eq!(decode_response("S odd"), None);
    assert_eq!(decode_response("O one two"), None);
    assert_eq!(decode_response("Z zzz"), None);
}

#[test]
fn encoded_lines_hold_no_newline() {
    let line = encode_command(&DaemonCommand::AddSecret {
        key: "a\nb".to_string(),
        value: "c\nd".to_string(),
    });
    assert!(!line.contains('\n'));
    let line = encode_response(&DaemonResponse::Error("x\ny".to_string()));
    assert!(!line.contains('\n'));
}
