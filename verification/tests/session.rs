use spectrum_cast::config::AnalyzerConfig;
use spectrum_cast::frame::SpectrumFrame;
use spectrum_cast::session::{Session, SessionAction, SessionEvent};

fn sent_bytes(action: SessionAction) -> Option<Vec<u8>> {
    match action {
        SessionAction::Send(frame) => Some(frame.as_bytes().to_vec()),
        _ => None,
    }
}

fn open_session() -> Session {
    Session::open(&AnalyzerConfig::standard()).0
}

#[test]
fn session_opens_with_the_config_message() {
    let (session, message) = Session::open(&AnalyzerConfig::standard());
    assert!(session.is_open());
    assert_eq!(message.kind, "config");
    assert_eq!(message.mode, "fft");
    assert_eq!(message.bins, 80);
    assert_eq!(message.fps, 120);
}

#[test]
fn frames_are_forwarded_as_they_come() {
    let mut session = open_session();
    let first = SpectrumFrame::from_bytes(vec![1, 2, 3], 3).unwrap();
    let second = SpectrumFrame::from_bytes(vec![4, 5, 6], 3).unwrap();
    assert_eq!(sent_bytes(session.on_event(SessionEvent::Frame(first))), Some(vec![1, 2, 3]));
    assert_eq!(sent_bytes(session.on_event(SessionEvent::Frame(second))), Some(vec![4, 5, 6]));
    assert!(session.is_open());
}

#[test]
fn client_data_is_passed_over() {
    let mut session = open_session();
    assert!(matches!(session.on_event(SessionEvent::ClientData), SessionAction::Wait));
    assert!(session.is_open());
    let frame = SpectrumFrame::from_bytes(vec![9], 1).unwrap();
    assert_eq!(sent_bytes(session.on_event(SessionEvent::Frame(frame))), Some(vec![9]));
}

#[test]
fn closed_connection_ends_the_session() {
    let mut session = open_session();
    assert!(matches!(session.on_event(SessionEvent::ClientGone), SessionAction::Close));
    assert!(!session.is_open());
}

#[test]
fn failed_send_ends_the_session() {
    let mut session = open_session();
    assert!(matches!(session.on_event(SessionEvent::SendFailed), SessionAction::Close));
    assert!(!session.is_open());
}

#[test]
fn closed_feed_ends_the_session() {
    let mut session = open_session();
    assert!(matches!(session.on_event(SessionEvent::FeedClosed), SessionAction::Close));
    assert!(!session.is_open());
}

#[test]
fn closed_session_sends_nothing_more() {
    let mut session = open_session();
    session.on_event(SessionEvent::ClientGone);
    let frame = SpectrumFrame::from_bytes(vec![1], 1).unwrap();
    assert!(matches!(session.on_event(SessionEvent::Frame(frame)), SessionAction::Close));
    assert!(matches!(session.on_event(SessionEvent::ClientData), SessionAction::Close));
    assert!(!session.is_open());
}
