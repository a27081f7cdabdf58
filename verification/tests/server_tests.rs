use async_bash_mcp::server::check_poll_request;

#[test]
fn poll_request_wait_must_be_positive() {
    let msg = Err("Wait time must be greater than 0 milliseconds".to_string());
    assert_eq!(check_poll_request(1, 0), msg);
    assert_eq!(check_poll_request(1, -1), msg);
    assert_eq!(check_poll_request(1, 1000), Ok((1, 1000)));
}

#[test]
fn poll_request_identifier_out_of_range_is_not_found() {
    assert_eq!(check_poll_request(-1, 5), Err("Process -1 not found".to_string()));
    assert_eq!(check_poll_request(4294967297, 5), Err("Process 4294967297 not found".to_string()));
    assert_eq!(check_poll_request(-4294967295, 5), Err("Process -4294967295 not found".to_string()));
    assert_eq!(check_poll_request(i64::MIN, 5), Err("Process -9223372036854775808 not found".to_string()));
    assert_eq!(check_poll_request(4294967295, 5), Ok((u32::MAX, 5)));
    assert_eq!(check_poll_request(0, 5), Ok((0, 5)));
    // The wait is checked first.
    assert_eq!(
        check_poll_request(-1, 0),
        Err("Wait time must be greater than 0 milliseconds".to_string())
    );
}
