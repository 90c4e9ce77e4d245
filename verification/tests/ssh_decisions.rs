use hydra::ssh::{
    call_step, get_key_paths, known_hosts_addition, known_hosts_fingerprint, public_key_paths,
    session_start, session_step, ChannelEvent, SessionAction, SessionEvent, SessionPhase,
};

#[test]
fn key_paths_under_home() {
    assert_eq!(
        get_key_paths("/home/alice"),
        vec!["/home/alice/.ssh/id_rsa".to_string(), "/home/alice/.ssh/id_ed25519".to_string()]
    );
    assert_eq!(
        public_key_paths("/root"),
        vec!["/root/.ssh/id_rsa.pub".to_string(), "/root/.ssh/id_ed25519.pub".to_string()]
    );
}

#[test]
fn fingerprint_line_format() {
    assert_eq!(
        known_hosts_fingerprint("10.0.0.5", "ssh-ed25519", "AAAAC3Nza"),
        "10.0.0.5 ssh-ed25519 AAAAC3Nza"
    );
}

#[test]
fn known_hosts_addition_is_idempotent() {
    let fp = "10.0.0.5 ssh-ed25519 AAAAC3Nza";
    let mut contents = "other host key\n".to_string();
    let line = known_hosts_addition(&contents, fp).expect("not yet known");
    assert_eq!(line, format!("{fp}\n"));
    contents.push_str(&line);
    assert_eq!(known_hosts_addition(&contents, fp), None);
    assert_eq!(known_hosts_addition("", ""), None);
}

#[test]
fn known_hosts_compares_whole_lines() {
    let fp = "10.0.0.2 ssh-ed25519 K";
    assert_eq!(
        known_hosts_addition("110.0.0.2 ssh-ed25519 K\n", fp),
        Some(format!("{fp}\n"))
    );
    assert_eq!(
        known_hosts_addition("10.0.0.2 ssh-ed25519 KEY\n", fp),
        Some(format!("{fp}\n"))
    );
    assert_eq!(known_hosts_addition("a\n10.0.0.2 ssh-ed25519 K\nb\n", fp), None);
    assert_eq!(known_hosts_addition("a\n10.0.0.2 ssh-ed25519 K", fp), None);
    assert_eq!(known_hosts_addition("10.0.0.2 ssh-ed25519 K", fp), None);
}

#[test]
fn session_retries_until_established() {
    let (mut phase, mut action) = session_start();
    assert_eq!((phase, action), (SessionPhase::Connecting, SessionAction::Connect));
    let events = [
        SessionEvent::ConnectFailed,
        SessionEvent::Connected,
        SessionEvent::Authenticated(false),
        SessionEvent::Connected,
        SessionEvent::Authenticated(true),
        SessionEvent::ChannelFailed,
        SessionEvent::Connected,
        SessionEvent::Authenticated(true),
        SessionEvent::ChannelOpened,
    ];
    let expected = [
        SessionAction::Connect,
        SessionAction::Authenticate,
        SessionAction::Connect,
        SessionAction::Authenticate,
        SessionAction::OpenChannel,
        SessionAction::Connect,
        SessionAction::Authenticate,
        SessionAction::OpenChannel,
        SessionAction::UseChannel,
    ];
    for (event, want) in events.iter().zip(expected.iter()) {
        (phase, action) = session_step(phase, *event);
        assert_eq!(action, *want);
    }
    assert_eq!(phase, SessionPhase::Established);
}

#[test]
fn call_keeps_last_exit_status_and_forwards_output() {
    let (code, out) = call_step(None, ChannelEvent::Data(vec![104, 105]));
    assert_eq!(code, None);
    assert_eq!(out, Some(vec![104, 105]));
    let (code, out) = call_step(code, ChannelEvent::ExitStatus(3));
    assert_eq!((code, out), (Some(3), None));
    let (code, out) = call_step(code, ChannelEvent::Data(vec![1]));
    assert_eq!((code, out), (Some(3), Some(vec![1])));
    let (code, _) = call_step(code, ChannelEvent::ExitStatus(0));
    let (code, out) = call_step(code, ChannelEvent::Other);
    assert_eq!((code, out), (Some(0), None));
}

