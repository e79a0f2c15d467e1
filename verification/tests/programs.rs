use webdav_wasi::cli::{check_smoke_response, parse_args, Args, ArgsError, SmokeFailure};
use webdav_wasi::guest::{drops_content_length, response_status_has_no_body, select_fs_root};

fn strings(items: &[&str]) -> Vec<String> {
    items.iter().map(|s| s.to_string()).collect()
}

fn parse(items: &[&str]) -> Result<Args, ArgsError> {
    let args = strings(items);
    // Which arguments parse as socket addresses, as the program finds out.
    let ok: Vec<bool> = args.iter().map(|a| a == "0.0.0.0:9000" || a == "127.0.0.1:1").collect();
    parse_args(&args, &ok)
}

#[test]
fn parse_args_defaults() {
    let a = parse(&[]).unwrap();
    assert_eq!(a, Args { addr: "127.0.0.1:8080".to_string(), smoke_test: false, fs_root: None });
}

#[test]
fn parse_args_reads_every_option() {
    let a = parse(&["--smoke-test", "--addr", "0.0.0.0:9000", "--fs-root", "./data"]).unwrap();
    assert_eq!(
        a,
        Args { addr: "0.0.0.0:9000".to_string(), smoke_test: true, fs_root: Some("./data".to_string()) }
    );
}

#[test]
fn parse_args_later_options_win() {
    let a = parse(&["--fs-root", "a", "--fs-root", "b"]).unwrap();
    assert_eq!(a.fs_root, Some("b".to_string()));
}

#[test]
fn parse_args_errors() {
    assert_eq!(parse(&["--addr"]), Err(ArgsError::MissingAddress));
    assert_eq!(parse(&["--addr", "nowhere"]), Err(ArgsError::InvalidAddress));
    assert_eq!(parse(&["--fs-root"]), Err(ArgsError::MissingFsRoot));
    assert_eq!(
        parse(&["--verbose"]),
        Err(ArgsError::UnknownArgument { argument: "--verbose".to_string() })
    );
    assert_eq!(parse(&["--addr", "bad", "--bogus"]), Err(ArgsError::InvalidAddress));
}

#[test]
fn smoke_response_checks() {
    let ok = "HTTP/1.1 200 OK\r\ncontent-length: 23\r\n\r\nhello from webdav-wasi\n";
    assert_eq!(check_smoke_response(ok), Ok(()));
    assert_eq!(
        check_smoke_response("HTTP/1.1 404 Not Found\r\n\r\n"),
        Err(SmokeFailure::UnexpectedStatus)
    );
    assert_eq!(
        check_smoke_response("HTTP/1.1 200 OK\r\n\r\nsomething else"),
        Err(SmokeFailure::UnexpectedBody)
    );
}

#[test]
fn fs_root_prefers_the_trimmed_setting() {
    assert_eq!(select_fs_root(Some("  shared \n"), true), Some("shared".to_string()));
    assert_eq!(select_fs_root(Some("\u{3000}x\u{2028}"), false), Some("x".to_string()));
}

#[test]
fn fs_root_falls_back_to_data_then_memory() {
    assert_eq!(select_fs_root(Some("   "), true), Some("data".to_string()));
    assert_eq!(select_fs_root(None, true), Some("data".to_string()));
    assert_eq!(select_fs_root(Some(""), false), None);
    assert_eq!(select_fs_root(None, false), None);
}

#[test]
fn statuses_without_a_body() {
    for s in [100u16, 101, 199, 204, 205, 304] {
        assert!(response_status_has_no_body(s), "{s}");
    }
    for s in [200u16, 201, 206, 207, 301, 404, 500, 99] {
        assert!(!response_status_has_no_body(s), "{s}");
    }
}

#[test]
fn head_requests_lose_content_length() {
    assert!(drops_content_length(true, 200));
    assert!(drops_content_length(false, 204));
    assert!(!drops_content_length(false, 200));
}
