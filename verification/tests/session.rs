use insight::response::HeaderScan;
use insight::session::RtspSession;
use insight::MediaType;

fn session() -> RtspSession {
    RtspSession::new(String::from("rtsp://127.0.0.1:8554/live"))
}

#[test]
fn requests_are_numbered_from_one() {
    let mut s = session();
    assert_eq!(s.cseq(), 1);
    assert_eq!(
        s.options_request(),
        "OPTIONS rtsp://127.0.0.1:8554/live RTSP/1.0\r\nCSeq: 1\r\n\r\n"
    );
    assert_eq!(
        s.describe_request(),
        "DESCRIBE rtsp://127.0.0.1:8554/live RTSP/1.0\r\nCSeq: 2\r\nAccept: application/sdp\r\n\r\n"
    );
    assert_eq!(s.cseq(), 3);
}

#[test]
fn setup_and_play_requests() {
    let mut s = session();
    assert_eq!(
        s.setup_request("trackID=1"),
        "SETUP rtsp://127.0.0.1:8554/live/trackID=1 RTSP/1.0\r\nCSeq: 1\r\nUser-Agent: insight\r\nTransport: RTP/AVP;unicast;interleaved=0-1\r\n\r\n"
    );
    assert_eq!(
        s.play_request(),
        "PLAY rtsp://127.0.0.1:8554/live RTSP/1.0\r\nCSeq: 2\r\nUser-Agent: insight\r\nSession: \r\nRange: npt=0.000-\r\n\r\n"
    );
}

#[test]
fn describe_reply_gives_session_and_tracks() {
    let mut s = session();
    let mut scan = HeaderScan::new();
    let lines = [
        "RTSP/1.0 200 OK\r\n",
        "Session: ABC123;timeout=60\r\n",
        "Content-Length: 120\r\n",
        "m=video 0 RTP/AVP 96\r\n",
        "a=control:trackID=0\r\n",
        "m=audio 0 RTP/AVP 97\r\n",
        "a=control:trackID=1\r\n",
        "a=control:*\r\n",
    ];
    for line in lines {
        assert!(RtspSession::check_describe_line(&scan, line));
        s.take_describe_line(&mut scan, line);
    }
    assert_eq!(s.get_session(), "ABC123");
    assert_eq!(scan.content_length, 120);
    assert!(scan.audio_section);
    let tracks = s.setup_tracks(MediaType::All);
    // the track is the value up to the next `:`, line end included; `*\r\n` is not `*`
    assert_eq!(tracks, vec![String::from("trackID=0\r\n"), String::from("*\r\n")]);
    assert_eq!(s.setup_tracks(MediaType::Video), vec![String::from("trackID=0\r\n")]);
    assert_eq!(s.setup_tracks(MediaType::Audio), vec![String::from("*\r\n")]);
    let play = s.play_request();
    assert!(play.contains("Session: ABC123\r\n"));
}

#[test]
fn bare_star_control_names_no_track() {
    let mut s = session();
    let mut scan = HeaderScan::new();
    s.take_describe_line(&mut scan, "a=control:*");
    assert_eq!(s.setup_tracks(MediaType::Video), vec![String::new()]);
    s.take_describe_line(&mut scan, "a=control:rtsp://h/t");
    assert_eq!(s.setup_tracks(MediaType::Video), vec![String::from("rtsp")]);
}

#[test]
fn describe_lines_that_cannot_be_read() {
    let scan = HeaderScan::new();
    assert!(!RtspSession::check_describe_line(&scan, "Session 1\r\n"));
    assert!(!RtspSession::check_describe_line(&scan, "a=control\r\n"));
    assert!(!RtspSession::check_describe_line(&scan, "Content-Length: x\r\n"));
    assert!(RtspSession::check_describe_line(&scan, "Session: 1\r\n"));
}

#[test]
fn session_text_drops_leading_space_only() {
    let mut s = session();
    let mut scan = HeaderScan::new();
    s.take_describe_line(&mut scan, "Session:   77 \r\n");
    assert_eq!(s.get_session(), "77 \r\n");
}

#[test]
fn cseq_and_session_over_a_handshake() {
    let mut s = session();
    assert!(s.options_request().contains("CSeq: 1\r\n"));
    assert!(s.describe_request().contains("CSeq: 2\r\n"));
    let mut scan = HeaderScan::new();
    for line in ["RTSP/1.0 200 OK\r\n", "Session: S1;timeout=60\r\n"] {
        s.take_describe_line(&mut scan, line);
    }
    let mut n = 3;
    for track in s.setup_tracks(MediaType::All) {
        assert!(s.setup_request(&track).contains(&format!("CSeq: {}\r\n", n)));
        n += 1;
    }
    assert_eq!(s.get_session(), "S1");
    let mut scan = HeaderScan::new();
    s.take_describe_line(&mut scan, "CSeq: 5\r\n");
    assert_eq!(s.get_session(), "S1");
    assert!(s.play_request().contains("CSeq: 5\r\nUser-Agent: insight\r\nSession: S1\r\n"));
    assert_eq!(s.cseq(), 6);
}
