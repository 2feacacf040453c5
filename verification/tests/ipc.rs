use blit_server::ipc_unix::{
    default_ipc_path, from_systemd_fd, holder_pid, lock_path, recv_fd, BindAction, BindEvent,
    BindState, RecvFdResult, RecvReport, LOCK_RETRIES,
};
use blit_server::ipc_windows::{
    default_ipc_path as default_pipe, default_ipc_path_for, quit_frame, ClaimEvent, ClaimState,
    REPLACE_ATTEMPTS,
};

#[test]
fn the_socket_lies_where_the_environment_says() {
    assert_eq!(default_ipc_path(Some("/t"), Some("/r"), Some("u")), "/t/blit.sock");
    assert_eq!(default_ipc_path(None, Some("/r"), Some("u")), "/r/blit.sock");
    assert_eq!(default_ipc_path(None, None, Some("u")), "/tmp/blit-u.sock");
    assert_eq!(default_ipc_path(None, None, None), "/tmp/blit.sock");
    assert_eq!(lock_path("/t/blit.sock"), "/t/blit.sock.lock");
    assert_eq!(default_ipc_path_for(Some("u"), "x"), "\\\\.\\pipe\\blit-u-x");
    assert_eq!(default_pipe(None, "main"), "\\\\.\\pipe\\blit-main");
}

#[test]
fn a_held_lock_is_tried_again_until_given_up() {
    let mut s = BindState::Start;
    assert_eq!(s.action(), BindAction::TryLock);
    assert_eq!(s.next(BindEvent::Lock(true)).action(), BindAction::Bind);
    s = s.next(BindEvent::Lock(false));
    assert_eq!(s.action(), BindAction::ReadHolder);
    s = s.next(BindEvent::HolderDone);
    for _ in 0..LOCK_RETRIES {
        assert_eq!(s.action(), BindAction::WaitThenTryLock);
        assert_eq!(s.next(BindEvent::Lock(true)), BindState::Locked);
        s = s.next(BindEvent::Lock(false));
    }
    assert_eq!(s.action(), BindAction::GiveUp);
}

#[test]
fn the_holder_is_read_from_its_lock() {
    assert_eq!(holder_pid(" 123\n"), Some(123));
    assert_eq!(holder_pid("-2147483648"), Some(i32::MIN));
    assert_eq!(holder_pid("2147483648"), None);
    assert_eq!(holder_pid("+7"), Some(7));
    assert_eq!(holder_pid("-"), None);
    assert_eq!(holder_pid(""), None);
    assert_eq!(holder_pid("12x"), None);
}

#[test]
fn one_handed_over_socket_is_ours() {
    assert!(from_systemd_fd(Some(" 1\n"), Some("42"), "42"));
    assert!(!from_systemd_fd(Some("2"), Some("42"), "42"));
    assert!(!from_systemd_fd(Some("1"), Some("43"), "42"));
    assert!(!from_systemd_fd(None, Some("42"), "42"));
    assert!(!from_systemd_fd(Some("1"), None, "42"));
}

#[test]
fn descriptors_come_with_rights_only() {
    assert_eq!(
        recv_fd(RecvReport::Received { bytes: 1, rights: Some(5) }),
        RecvFdResult::Fd(5)
    );
    assert_eq!(
        recv_fd(RecvReport::Received { bytes: 0, rights: Some(5) }),
        RecvFdResult::Closed
    );
    assert_eq!(recv_fd(RecvReport::Received { bytes: 1, rights: None }), RecvFdResult::Closed);
    assert_eq!(
        recv_fd(RecvReport::Failed { would_block: false, interrupted: true }),
        RecvFdResult::WouldBlock
    );
    assert_eq!(
        recv_fd(RecvReport::Failed { would_block: false, interrupted: false }),
        RecvFdResult::Closed
    );
}

#[test]
fn a_pipe_in_use_is_asked_for_once() {
    let mut s = ClaimState::Trying { attempt: 0, asked: false };
    s = s.next(ClaimEvent::InUse);
    assert_eq!(s, ClaimState::Asking { attempt: 0 });
    s = s.next(ClaimEvent::Asked(true));
    for attempt in 1..REPLACE_ATTEMPTS {
        assert_eq!(s, ClaimState::Trying { attempt, asked: true });
        s = s.next(ClaimEvent::InUse);
    }
    assert_eq!(s.next(ClaimEvent::Created), ClaimState::Claimed);
    assert_eq!(s.next(ClaimEvent::InUse), ClaimState::Failed);
    assert_eq!(s.next(ClaimEvent::OtherError), ClaimState::Failed);
    let unheard = ClaimState::Asking { attempt: 3 }.next(ClaimEvent::Asked(false));
    assert_eq!(unheard, ClaimState::Trying { attempt: 4, asked: false });
    assert_eq!(quit_frame(9), vec![1, 0, 0, 0, 9]);
}
