use registry_util::errors::CargoError;
use registry_util::process::{exec, ProcessOutput};

fn ran(success: bool, output: &str, error: &str) -> Option<ProcessOutput> {
    Some(ProcessOutput {
        success,
        output: output.as_bytes().to_vec(),
        error: error.as_bytes().to_vec(),
    })
}

fn internal_of(result: Result<ProcessOutput, CargoError>) -> (String, Option<String>) {
    match result {
        Err(CargoError::Internal { description, detail }) => (description, detail),
        _ => panic!("an internal error was expected"),
    }
}

#[test]
fn a_failing_command_with_stderr_alone() {
    let (description, detail) = internal_of(exec("\"git\" \"fetch\"", ran(false, "", "fatal: no remote\n")));
    assert_eq!(description, "failed to run command `\"git\" \"fetch\"`");
    let detail = detail.unwrap();
    assert_eq!(detail, "--- stderr\nfatal: no remote\n");
    assert!(detail.contains("--- stderr"));
    assert!(!detail.contains("--- stdout"));
}

#[test]
fn a_failing_command_with_stdout_alone() {
    let (_, detail) = internal_of(exec("make", ran(false, "building\n", "")));
    assert_eq!(detail.unwrap(), "--- stdout\nbuilding\n");
}

#[test]
fn a_failing_command_with_both_streams() {
    let (_, detail) = internal_of(exec("make", ran(false, "out", "err")));
    assert_eq!(detail.unwrap(), "--- stdout\nout--- stderr\nerr");
}

#[test]
fn a_failing_command_that_wrote_nothing() {
    let (description, detail) = internal_of(exec("false", ran(false, "", "")));
    assert_eq!(description, "failed to run command `false`");
    assert_eq!(detail, Some(String::new()));
}

#[test]
fn a_command_that_could_not_be_started() {
    let (description, detail) = internal_of(exec("no-such-command", None));
    assert_eq!(description, "failed to run command `no-such-command`");
    assert_eq!(detail, None);
}

#[test]
fn a_successful_command_gives_its_output() {
    match exec("echo", ran(true, "hello\n", "warning\n")) {
        Ok(out) => {
            assert!(out.success);
            assert_eq!(out.output, b"hello\n");
            assert_eq!(out.error, b"warning\n");
        }
        Err(_) => panic!("the command succeeded"),
    }
}

#[test]
fn the_detail_holds_text_beyond_ascii() {
    let (_, detail) = internal_of(exec("x", ran(false, "", "caf\u{e9} \u{1f980}")));
    assert_eq!(detail.unwrap(), "--- stderr\ncaf\u{e9} \u{1f980}");
}

#[test]
fn a_failing_command_that_wrote_no_utf8() {
    let broken = Some(ProcessOutput { success: false, output: vec![b'a', 0xff, b'b'], error: vec![0xe2, 0x82] });
    let (description, detail) = internal_of(exec("tool --x", broken));
    assert_eq!(description, "failed to run command `tool --x`");
    assert_eq!(detail.unwrap(), "--- stdout\na\u{fffd}b--- stderr\n\u{fffd}");
    let one_broken = Some(ProcessOutput { success: false, output: Vec::new(), error: vec![0xff] });
    let (_, detail) = internal_of(exec("tool", one_broken));
    assert_eq!(detail.unwrap(), "--- stderr\n\u{fffd}");
}

#[test]
fn what_the_streams_hold_does_not_decide() {
    let fine = Some(ProcessOutput { success: true, output: vec![0xff, 0xfe], error: vec![0xff] });
    match exec("tool", fine) {
        Ok(out) => {
            assert_eq!(out.output, vec![0xff, 0xfe]);
            assert_eq!(out.error, vec![0xff]);
        }
        Err(_) => panic!("the command succeeded"),
    }
    assert!(exec("tool", ran(true, "", "")).is_ok());
    assert!(exec("tool", ran(true, "error: failed", "panic")).is_ok());
    assert!(exec("tool", ran(false, "ok", "")).is_err());
    assert!(exec("tool", None).is_err());
}
