use sandbox::process::{
    check_kill_request, child_stdio, process_status, stdio_or_rid_from_value, CagePool, KillError,
    ProcessStatus, RunRoute, Stdio, StdioError, StdioOrRid, StdioValue,
};

#[test]
fn stdio_from_strings() {
    let v = |s: &str| stdio_or_rid_from_value(&StdioValue::String(s.to_string()));
    assert_eq!(v("inherit").unwrap(), StdioOrRid::Stdio(Stdio::Inherit));
    assert_eq!(v("piped").unwrap(), StdioOrRid::Stdio(Stdio::Piped));
    assert_eq!(v("null").unwrap(), StdioOrRid::Stdio(Stdio::Null));
    match v("Inherit") {
        Err(StdioError::UnknownVariant(s)) => assert_eq!(s, "Inherit"),
        other => panic!("unexpected {:?}", other),
    }
}

#[test]
fn stdio_from_numbers() {
    assert_eq!(
        stdio_or_rid_from_value(&StdioValue::Number(Some(7))).unwrap(),
        StdioOrRid::Rid(7)
    );
    assert_eq!(
        stdio_or_rid_from_value(&StdioValue::Number(Some(u32::MAX as u64))).unwrap(),
        StdioOrRid::Rid(u32::MAX)
    );
    assert!(matches!(
        stdio_or_rid_from_value(&StdioValue::Number(Some(u32::MAX as u64 + 1))),
        Err(StdioError::ExpectedPositiveInteger)
    ));
    assert!(matches!(
        stdio_or_rid_from_value(&StdioValue::Number(None)),
        Err(StdioError::ExpectedPositiveInteger)
    ));
    assert!(matches!(
        stdio_or_rid_from_value(&StdioValue::Other),
        Err(StdioError::ExpectedResourceId)
    ));
}

#[test]
fn inherited_output_goes_to_parent_stream() {
    assert_eq!(child_stdio(StdioOrRid::Stdio(Stdio::Inherit), 1), StdioOrRid::Rid(1));
    assert_eq!(child_stdio(StdioOrRid::Stdio(Stdio::Inherit), 2), StdioOrRid::Rid(2));
    assert_eq!(child_stdio(StdioOrRid::Stdio(Stdio::Piped), 1), StdioOrRid::Stdio(Stdio::Piped));
    assert_eq!(child_stdio(StdioOrRid::Rid(5), 1), StdioOrRid::Rid(5));
}

#[test]
fn status_of_exit_and_signal() {
    assert_eq!(
        process_status(Some(3), None),
        ProcessStatus { got_signal: false, exit_code: 3, exit_signal: -1 }
    );
    assert_eq!(
        process_status(None, Some(9)),
        ProcessStatus { got_signal: true, exit_code: -1, exit_signal: 9 }
    );
}

#[test]
fn kill_request_checks() {
    assert!(check_kill_request(42, &"SIGKILL".to_string()).is_ok());
    assert!(check_kill_request(42, &"SIGTERM".to_string()).is_ok());
    match check_kill_request(42, &"SIGHUP".to_string()) {
        Err(KillError::InvalidSignal(s)) => assert_eq!(s, "SIGHUP"),
        other => panic!("unexpected {:?}", other),
    }
    assert!(matches!(check_kill_request(0, &"SIGTERM".to_string()), Err(KillError::InvalidPid)));
    // The signal is checked first.
    assert!(matches!(check_kill_request(-1, &"SIGINT".to_string()), Err(KillError::InvalidSignal(_))));
}

#[test]
fn cage_is_made_once_per_command() {
    let mut pool = CagePool::new();
    let cmd = "/usr/bin/tar".to_string();
    let name = "tar".to_string();
    assert_eq!(pool.route(&cmd, &name), RunRoute::CreateCage);
    pool.record_cage(&cmd, &name, true);
    assert_eq!(pool.route(&cmd, &name), RunRoute::InCage);
    let ls = "/bin/ls".to_string();
    let ls_name = "ls".to_string();
    assert_eq!(pool.route(&ls, &ls_name), RunRoute::CreateCage);
    pool.record_cage(&ls, &ls_name, false);
    assert_eq!(pool.route(&ls, &ls_name), RunRoute::Direct);
    // Another path with the same file name also runs unboxed.
    assert_eq!(pool.route(&"/usr/local/bin/ls".to_string(), &ls_name), RunRoute::Direct);
}
