use json_formatter::filter::{filter_result, FilterRun};

#[test]
fn a_run_that_succeeds_gives_the_output() {
    let run = FilterRun::Exited {
        success: true,
        output: "[1]\n".to_string(),
        errors: "warning".to_string(),
    };
    assert_eq!(filter_result(run), Ok("[1]\n".to_string()));
}

#[test]
fn a_run_that_fails_gives_the_error_stream() {
    let run = FilterRun::Exited {
        success: false,
        output: "partial".to_string(),
        errors: "jq: error: syntax error\n".to_string(),
    };
    assert_eq!(filter_result(run), Err("jq: error: syntax error\n".to_string()));
}

#[test]
fn a_tool_that_does_not_start_is_named() {
    let run = FilterRun::SpawnFailed { cause: "No such file or directory (os error 2)".to_string() };
    assert_eq!(
        filter_result(run),
        Err("Failed to spawn jq process. Is jq installed and in PATH? No such file or directory (os error 2)"
            .to_string())
    );
}

#[test]
fn a_failed_write_and_a_failed_wait_are_named() {
    assert_eq!(
        filter_result(FilterRun::WriteFailed { cause: "Broken pipe".to_string() }),
        Err("Failed to write to jq stdin: Broken pipe".to_string())
    );
    assert_eq!(
        filter_result(FilterRun::WaitFailed { cause: "interrupted".to_string() }),
        Err("Failed to wait for jq process: interrupted".to_string())
    );
}
