use insight::response::{
    content_length_value, ends_header, Describe, HeaderScan, Options, Play, Response, Setup,
};

#[test]
fn header_block_ends_at_the_empty_line() {
    assert!(ends_header("\r\n"));
    assert!(!ends_header(""));
    assert!(!ends_header("\n"));
    assert!(!ends_header("CSeq: 1\r\n"));
}

#[test]
fn describe_reads_session_and_length() {
    let mut reply = Describe::new();
    assert_eq!(reply.get_session(), 0);
    let mut scan = HeaderScan::new();
    let lines = [
        "RTSP/1.0 200 OK\r\n",
        "CSeq: 2\r\n",
        "Content-Type: application/sdp\r\n",
        "Session: 12345678;timeout=60\r\n",
        "Content-Length: 460\r\n",
    ];
    for line in lines {
        assert!(reply.check_line(&scan, line));
        reply.take_line(&mut scan, line);
    }
    assert_eq!(reply.get_session(), 12345678);
    assert_eq!(scan.content_length, 460);
    assert!(scan.session_parsed);
    assert!(scan.content_length_parsed);
}

#[test]
fn describe_keeps_the_first_session() {
    let mut reply = Describe::new();
    let mut scan = HeaderScan::new();
    reply.take_line(&mut scan, "Session: 5;timeout=60\r\n");
    reply.take_line(&mut scan, "Session: 6;timeout=60\r\n");
    reply.take_line(&mut scan, "Content-Length:  10 \r\n");
    reply.take_line(&mut scan, "Content-Length: 20\r\n");
    assert_eq!(reply.get_session(), 5);
    assert_eq!(scan.content_length, 10);
}

#[test]
fn describe_refuses_what_it_cannot_read() {
    let reply = Describe::new();
    let scan = HeaderScan::new();
    // without a `;` the line end stays in the session text
    assert!(!reply.check_line(&scan, "Session: 1234\r\n"));
    assert!(!reply.check_line(&scan, "Session 1234;x\r\n"));
    assert!(!reply.check_line(&scan, "Content-Length: many\r\n"));
    assert!(reply.check_line(&scan, "Session: 1234;timeout=60\r\n"));
    let mut taken = scan;
    taken.session_parsed = true;
    assert!(reply.check_line(&taken, "Session: anything\r\n"));
}

#[test]
fn other_replies_take_any_line() {
    let mut scan = HeaderScan::new();
    let line = "Content-Length: 3\r\n";
    assert!(Options.check_line(&scan, line));
    Options.take_line(&mut scan, line);
    Setup.take_line(&mut scan, line);
    Play.take_line(&mut scan, line);
    assert_eq!(scan.content_length, 0);
    assert!(!scan.content_length_parsed);
}

#[test]
fn content_length_values() {
    assert_eq!(content_length_value("Content-Length: 460\r\n"), Some(460));
    assert_eq!(content_length_value("Content-Length:460"), Some(460));
    assert_eq!(content_length_value("Content-Length 460"), None);
    assert_eq!(content_length_value("Content-Length: -1\r\n"), None);
}

#[test]
fn describe_session_follows_the_latest_reply_with_one() {
    let mut reply = Describe::new();
    let replies: [&[&str]; 3] = [
        &["RTSP/1.0 200 OK\r\n", "Session: 11;timeout=60\r\n"],
        &["RTSP/1.0 200 OK\r\n", "CSeq: 3\r\n"],
        &["Session: 22;timeout=60\r\n", "Session: 33;timeout=60\r\n"],
    ];
    let mut seen = Vec::new();
    for lines in replies {
        let mut scan = HeaderScan::new();
        for line in lines {
            assert!(reply.check_line(&scan, line));
            reply.take_line(&mut scan, line);
        }
        seen.push(reply.get_session());
    }
    assert_eq!(seen, vec![11, 11, 22]);
}
