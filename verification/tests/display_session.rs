use dank_gallery::session::{
    frame_request, Action, Event, Phase, Session, CONNECT_TIMEOUT_SECS, FRAME_PAUSE_MS,
    RETRY_PAUSE_MS, SERVER_IP, SERVER_PORT,
};

#[test]
fn request_is_http_get() {
    assert_eq!(frame_request(), b"GET / HTTP/1.0\r\n\r\n".to_vec());
}

#[test]
fn full_cycle() {
    let (mut s, a) = Session::start();
    assert_eq!(a, Action::Resolve);
    assert_eq!(
        s.on_event(Event::Resolved),
        Some(Action::Connect { ip: [192, 168, 178, 105], port: 8080, timeout_secs: 10 })
    );
    assert_eq!(s.on_event(Event::Connected), Some(Action::Send));
    assert_eq!(s.on_event(Event::Sent), Some(Action::Receive));
    assert_eq!(s.on_event(Event::Received), Some(Action::Draw));
    assert_eq!(s.on_event(Event::Drawn), Some(Action::Sleep { ms: 60000 }));
    assert_eq!(s.on_event(Event::Slept), Some(Action::Resolve));
    assert_eq!(s.phase, Phase::Resolving);
    assert_eq!((SERVER_IP, SERVER_PORT, CONNECT_TIMEOUT_SECS, FRAME_PAUSE_MS), ([192, 168, 178, 105], 8080, 10, 60000));
}

#[test]
fn refused_connection_is_retried_after_pause() {
    let (mut s, _) = Session::start();
    s.on_event(Event::Resolved);
    assert_eq!(s.on_event(Event::ConnectFailed), Some(Action::Sleep { ms: RETRY_PAUSE_MS }));
    assert_eq!(RETRY_PAUSE_MS, 5000);
    assert_eq!(s.on_event(Event::Slept), Some(Action::Resolve));
}

#[test]
fn unexpected_events_change_nothing() {
    let (mut s, _) = Session::start();
    assert_eq!(s.on_event(Event::Drawn), None);
    assert_eq!(s.on_event(Event::Slept), None);
    assert_eq!(s.phase, Phase::Resolving);
}
