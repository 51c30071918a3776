//! The client side of one RTSP session: the requests it sends, numbered by `CSeq`, and
//! what it learns from the DESCRIBE reply (session id, audio and video tracks).
use vstd::prelude::*;
use vstd::string::*;
use crate::MediaType;
use crate::text::{
    contains, contains_str, has_piece, parse_unsigned, piece, push_i32, signed_decimal,
    split_piece, trim, trim_start,
};
use crate::response::{
    content_length_value, header_value, length_readable, scan_after, scan_header_line,
    session_text, session_text_of, takes_length, takes_session, first_mention, fresh_scan,
    HeaderScan,
};

verus! {

/// The state of an RTSP session as a client keeps it.
#[derive(Debug)]
pub struct RtspSession {
    url: String,
    cseq: i32,
    session: String,
    audio_track: String,
    video_track: String,
}

/// An `RtspSession` seen as texts and a number.
pub struct SessionView {
    /// The URL that requests name.
    pub url: Seq<char>,
    /// The `CSeq` number of the next request.
    pub cseq: i32,
    /// The session id that the DESCRIBE reply gave (empty before).
    pub session: Seq<char>,
    /// The control name of the audio track (empty until one is read).
    pub audio_track: Seq<char>,
    /// The control name of the video track (empty until one is read).
    pub video_track: Seq<char>,
}

impl View for RtspSession {
    type V = SessionView;

    closed spec fn view(&self) -> SessionView {
        SessionView {
            url: self.url@,
            cseq: self.cseq,
            session: self.session@,
            audio_track: self.audio_track@,
            video_track: self.video_track@,
        }
    }
}

/// The session `s` after one more request: only the `CSeq` number moves on.
pub open spec fn next_cseq(s: SessionView) -> SessionView {
    SessionView { cseq: (s.cseq + 1) as i32, ..s }
}

/// The OPTIONS request.
pub open spec fn options_text(url: Seq<char>, cseq: i32) -> Seq<char> {
    "OPTIONS "@ + url + " RTSP/1.0\r\nCSeq: "@ + signed_decimal(cseq as int) + "\r\n\r\n"@
}

/// The DESCRIBE request, asking for an SDP description.
pub open spec fn describe_text(url: Seq<char>, cseq: i32) -> Seq<char> {
    "DESCRIBE "@ + url + " RTSP/1.0\r\nCSeq: "@ + signed_decimal(cseq as int)
        + "\r\nAccept: application/sdp\r\n\r\n"@
}

/// The SETUP request for the track `track`, asking for RTP interleaved on channels 0 and 1.
pub open spec fn setup_text(url: Seq<char>, track: Seq<char>, cseq: i32) -> Seq<char> {
    "SETUP "@ + url + "/"@ + track + " RTSP/1.0\r\nCSeq: "@ + signed_decimal(cseq as int)
        + "\r\nUser-Agent: insight\r\nTransport: RTP/AVP;unicast;interleaved=0-1\r\n\r\n"@
}

/// The PLAY request for the session `session`, from the start.
pub open spec fn play_text(url: Seq<char>, cseq: i32, session: Seq<char>) -> Seq<char> {
    "PLAY "@ + url + " RTSP/1.0\r\nCSeq: "@ + signed_decimal(cseq as int)
        + "\r\nUser-Agent: insight\r\nSession: "@ + session + "\r\nRange: npt=0.000-\r\n\r\n"@
}

/// The tracks that a SETUP for `media` sets up, in order: the video track, the audio
/// track, or the video track and then the audio track.
pub open spec fn setup_track_list(s: SessionView, media: MediaType) -> Seq<Seq<char>> {
    match media {
        MediaType::Video => seq![s.video_track],
        MediaType::Audio => seq![s.audio_track],
        MediaType::All => seq![s.video_track, s.audio_track],
    }
}


/// Whether `t` ends with an empty line, `\r\n\r\n`, which closes an RTSP request.
pub open spec fn ends_with_blank_line(t: Seq<char>) -> bool {
    t.len() >= 4 && t.skip(t.len() - 4) == seq!['\r', '\n', '\r', '\n']
}

proof fn lemma_suffix_ends(a: Seq<char>, b: Seq<char>)
    requires
        ends_with_blank_line(b),
    ensures
        ends_with_blank_line(a + b),
{
    assert((a + b).skip((a + b).len() - 4) =~= b.skip(b.len() - 4));
}

/// Every request ends with the empty line that closes an RTSP request; without it a
/// server does not see the request as complete.
pub proof fn lemma_requests_end_with_blank_line(
    url: Seq<char>,
    track: Seq<char>,
    session: Seq<char>,
    cseq: i32,
)
    ensures
        ends_with_blank_line(options_text(url, cseq)),
        ends_with_blank_line(describe_text(url, cseq)),
        ends_with_blank_line(setup_text(url, track, cseq)),
        ends_with_blank_line(play_text(url, cseq, session)),
{
    reveal_strlit("\r\n\r\n");
    reveal_strlit("\r\nAccept: application/sdp\r\n\r\n");
    reveal_strlit("\r\nUser-Agent: insight\r\nTransport: RTP/AVP;unicast;interleaved=0-1\r\n\r\n");
    reveal_strlit("\r\nRange: npt=0.000-\r\n\r\n");
    let e1 = "\r\n\r\n"@;
    let e2 = "\r\nAccept: application/sdp\r\n\r\n"@;
    let e3 = "\r\nUser-Agent: insight\r\nTransport: RTP/AVP;unicast;interleaved=0-1\r\n\r\n"@;
    let e4 = "\r\nRange: npt=0.000-\r\n\r\n"@;
    assert(e1.skip(e1.len() - 4) =~= seq!['\r', '\n', '\r', '\n']);
    assert(e2.skip(e2.len() - 4) =~= seq!['\r', '\n', '\r', '\n']);
    assert(e3.skip(e3.len() - 4) =~= seq!['\r', '\n', '\r', '\n']);
    assert(e4.skip(e4.len() - 4) =~= seq!['\r', '\n', '\r', '\n']);
    lemma_suffix_ends(
        "OPTIONS "@ + url + " RTSP/1.0\r\nCSeq: "@ + signed_decimal(cseq as int),
        e1,
    );
    lemma_suffix_ends(
        "DESCRIBE "@ + url + " RTSP/1.0\r\nCSeq: "@ + signed_decimal(cseq as int),
        e2,
    );
    lemma_suffix_ends(
        "SETUP "@ + url + "/"@ + track + " RTSP/1.0\r\nCSeq: "@ + signed_decimal(cseq as int),
        e3,
    );
    lemma_suffix_ends(
        "PLAY "@ + url + " RTSP/1.0\r\nCSeq: "@ + signed_decimal(cseq as int)
            + "\r\nUser-Agent: insight\r\nSession: "@ + session,
        e4,
    );
}

/// Whether the header line `line` of the DESCRIBE reply can be taken in the state `scan`:
/// the first `Session` line and every `a=control` line must have a value, and the first
/// `Content-Length` line a length that fits a `usize`.
pub open spec fn describe_line_ok(scan: HeaderScan, line: Seq<char>) -> bool {
    &&& takes_session(scan, line) ==> has_piece(line, ':', 1)
    &&& takes_length(scan, line) ==> length_readable(line)
    &&& contains(line, "a=control"@) ==> has_piece(line, ':', 1)
}

/// Whether the media section is audio after `line`: an `m=video` line ends it, an
/// `m=audio` line (and no `m=video` on it) starts it.
pub open spec fn audio_after(scan: HeaderScan, line: Seq<char>) -> bool {
    if contains(line, "m=video"@) {
        false
    } else if contains(line, "m=audio"@) {
        true
    } else {
        scan.audio_section
    }
}

/// Whether `line` names a track: an `a=control` line whose value is not `*`.
pub open spec fn names_track(line: Seq<char>) -> bool {
    contains(line, "a=control"@) && header_value(line) != seq!['*']
}

/// The session and scan state after the DESCRIBE reply's header line `line`: the first
/// `Session` line gives the session id, and an `a=control` line names the track of the
/// media section it stands in.
pub open spec fn describe_line_after(s: SessionView, scan: HeaderScan, line: Seq<char>) -> (
    SessionView,
    HeaderScan,
) {
    let audio = audio_after(scan, line);
    (
        SessionView {
            session: if takes_session(scan, line) {
                session_text(line)
            } else {
                s.session
            },
            audio_track: if names_track(line) && audio {
                header_value(line)
            } else {
                s.audio_track
            },
            video_track: if names_track(line) && !audio {
                header_value(line)
            } else {
                s.video_track
            },
            ..s
        },
        HeaderScan { audio_section: audio, ..scan_after(scan, line) },
    )
}

impl RtspSession {
    /// A session for `url`, before any request: `CSeq` 1, no session id, no tracks.
    pub fn new(url: String) -> (s: RtspSession)
        ensures
            s@ == (SessionView {
                url: url@,
                cseq: 1,
                session: Seq::empty(),
                audio_track: Seq::empty(),
                video_track: Seq::empty(),
            }),
    {
        RtspSession {
            url,
            cseq: 1,
            session: String::new(),
            audio_track: String::new(),
            video_track: String::new(),
        }
    }

    /// The `CSeq` number of the next request.
    pub fn cseq(&self) -> (c: i32)
        ensures
            c == self@.cseq,
    {
        self.cseq
    }

    /// The session id that the DESCRIBE reply gave.
    pub fn get_session(&self) -> (s: &str)
        ensures
            s@ == self@.session,
    {
        self.session.as_str()
    }

    /// The OPTIONS request to send next.
    pub fn options_request(&mut self) -> (req: String)
        requires
            old(self)@.cseq < i32::MAX,
        ensures
            req@ == options_text(old(self)@.url, old(self)@.cseq),
            final(self)@ == next_cseq(old(self)@),
    {
        let mut req = String::from_str("OPTIONS ");
        req.append(self.url.as_str());
        req.append(" RTSP/1.0\r\nCSeq: ");
        push_i32(&mut req, self.cseq);
        req.append("\r\n\r\n");
        self.cseq = self.cseq + 1;
        req
    }

    /// The DESCRIBE request to send next.
    pub fn describe_request(&mut self) -> (req: String)
        requires
            old(self)@.cseq < i32::MAX,
        ensures
            req@ == describe_text(old(self)@.url, old(self)@.cseq),
            final(self)@ == next_cseq(old(self)@),
    {
        let mut req = String::from_str("DESCRIBE ");
        req.append(self.url.as_str());
        req.append(" RTSP/1.0\r\nCSeq: ");
        push_i32(&mut req, self.cseq);
        req.append("\r\nAccept: application/sdp\r\n\r\n");
        self.cseq = self.cseq + 1;
        req
    }

    /// The tracks to set up for `media`, in the order their SETUP requests go out.
    pub fn setup_tracks(&self, media: MediaType) -> (tracks: Vec<String>)
        ensures
            tracks@.map_values(|t: String| t@) == setup_track_list(self@, media),
    {
        let mut tracks: Vec<String> = Vec::new();
        match media {
            MediaType::Video => {
                tracks.push(self.video_track.clone());
            },
            MediaType::Audio => {
                tracks.push(self.audio_track.clone());
            },
            MediaType::All => {
                tracks.push(self.video_track.clone());
                tracks.push(self.audio_track.clone());
            },
        }
        assert(tracks@.map_values(|t: String| t@) =~= setup_track_list(self@, media));
        tracks
    }

    /// The SETUP request for `track` to send next.
    pub fn setup_request(&mut self, track: &str) -> (req: String)
        requires
            old(self)@.cseq < i32::MAX,
        ensures
            req@ == setup_text(old(self)@.url, track@, old(self)@.cseq),
            final(self)@ == next_cseq(old(self)@),
    {
        let mut req = String::from_str("SETUP ");
        req.append(self.url.as_str());
        req.append("/");
        req.append(track);
        req.append(" RTSP/1.0\r\nCSeq: ");
        push_i32(&mut req, self.cseq);
        req.append(
            "\r\nUser-Agent: insight\r\nTransport: RTP/AVP;unicast;interleaved=0-1\r\n\r\n",
        );
        self.cseq = self.cseq + 1;
        req
    }

    /// The PLAY request to send next, for the session id read from the DESCRIBE reply.
    pub fn play_request(&mut self) -> (req: String)
        requires
            old(self)@.cseq < i32::MAX,
        ensures
            req@ == play_text(old(self)@.url, old(self)@.cseq, old(self)@.session),
            final(self)@ == next_cseq(old(self)@),
    {
        let mut req = String::from_str("PLAY ");
        req.append(self.url.as_str());
        req.append(" RTSP/1.0\r\nCSeq: ");
        push_i32(&mut req, self.cseq);
        req.append("\r\nUser-Agent: insight\r\nSession: ");
        req.append(self.session.as_str());
        req.append("\r\nRange: npt=0.000-\r\n\r\n");
        self.cseq = self.cseq + 1;
        req
    }

    /// Whether the DESCRIBE reply's header line `line` can be taken in the state `scan`.
    pub fn check_describe_line(scan: &HeaderScan, line: &str) -> (ok: bool)
        ensures
            ok == describe_line_ok(*scan, line@),
    {
        let has_value = split_piece(line, ':', 1).is_some();
        let session_ok = !(!scan.session_parsed && contains_str(line, "Session")) || has_value;
        let length_ok = if !scan.content_length_parsed && contains_str(line, "Content-Length") {
            content_length_value(line).is_some()
        } else {
            true
        };
        let control_ok = !contains_str(line, "a=control") || has_value;
        session_ok && length_ok && control_ok
    }

    /// Takes one header line of the DESCRIBE reply.
    pub fn take_describe_line(&mut self, scan: &mut HeaderScan, line: &str)
        requires
            describe_line_ok(*old(scan), line@),
        ensures
            (final(self)@, *final(scan)) == describe_line_after(old(self)@, *old(scan), line@),
    {
        if !scan.session_parsed && contains_str(line, "Session") {
            match session_text_of(line) {
                Some(t) => {
                    self.session = String::from_str(t);
                },
                None => {},
            }
        }
        let audio = scan.audio_section;
        scan_header_line(scan, line);
        let mut audio = audio;
        if contains_str(line, "m=audio") {
            audio = true;
        }
        if contains_str(line, "m=video") {
            audio = false;
        }
        scan.audio_section = audio;
        if contains_str(line, "a=control") {
            match split_piece(line, ':', 1) {
                Some(track) => {
                    let is_star = track.unicode_len() == 1 && track.get_char(0) == '*';
                    proof {
                        if track@.len() == 1 && track@[0] == '*' {
                            assert(track@ =~= seq!['*']);
                        }
                    }
                    if !is_star {
                        if audio {
                            self.audio_track = String::from_str(track);
                        } else {
                            self.video_track = String::from_str(track);
                        }
                    }
                },
                None => {},
            }
        }
    }
}

/// Only the first `Session` and the first `Content-Length` line of the DESCRIBE reply
/// count: once read, later header lines leave the session id and the body length as they are.
pub proof fn lemma_describe_line_reads_once(s: SessionView, scan: HeaderScan, line: Seq<char>)
    ensures
        scan.session_parsed ==> describe_line_after(s, scan, line).0.session == s.session
            && describe_line_after(s, scan, line).1.session_parsed,
        scan.content_length_parsed ==> describe_line_after(s, scan, line).1.content_length
            == scan.content_length && describe_line_after(s, scan, line).1.content_length_parsed,
        describe_line_after(s, scan, line).0.url == s.url,
        describe_line_after(s, scan, line).0.cseq == s.cseq,
{
}

/// The session and scan state after the DESCRIBE reply's header lines `lines`, in order.
pub open spec fn describe_lines_after(s: SessionView, scan: HeaderScan, lines: Seq<Seq<char>>) -> (
    SessionView,
    HeaderScan,
)
    decreases lines.len(),
{
    if lines.len() == 0 {
        (s, scan)
    } else {
        let next = describe_line_after(s, scan, lines[0]);
        describe_lines_after(next.0, next.1, lines.drop_first())
    }
}

/// The session id after one DESCRIBE reply with header lines `lines`: the session text of
/// the first line that mentions `Session`, or `session` when no line does.
pub open spec fn reply_session_text(session: Seq<char>, lines: Seq<Seq<char>>) -> Seq<char> {
    let i = first_mention(lines, "Session"@);
    if i < 0 {
        session
    } else {
        session_text(lines[i])
    }
}

proof fn lemma_first_mention_bounds(lines: Seq<Seq<char>>, pat: Seq<char>)
    ensures
        -1 <= first_mention(lines, pat) < lines.len(),
    decreases lines.len(),
{
    if lines.len() > 0 && !contains(lines[0], pat) {
        lemma_first_mention_bounds(lines.drop_first(), pat);
    }
}

proof fn lemma_describe_lines_after(s: SessionView, scan: HeaderScan, lines: Seq<Seq<char>>)
    ensures
        describe_lines_after(s, scan, lines).0.url == s.url,
        describe_lines_after(s, scan, lines).0.cseq == s.cseq,
        scan.session_parsed ==> describe_lines_after(s, scan, lines).0.session == s.session,
        !scan.session_parsed ==> describe_lines_after(s, scan, lines).0.session
            == reply_session_text(s.session, lines),
    decreases lines.len(),
{
    if lines.len() > 0 {
        let next = describe_line_after(s, scan, lines[0]);
        let rest = lines.drop_first();
        lemma_describe_lines_after(next.0, next.1, rest);
        lemma_first_mention_bounds(rest, "Session"@);
        if !contains(lines[0], "Session"@) {
            let i = first_mention(rest, "Session"@);
            if i >= 0 {
                assert(lines[i + 1] == rest[i]);
            }
            assert(reply_session_text(s.session, lines) == reply_session_text(s.session, rest));
        }
    }
}

/// Reading one DESCRIBE reply, header line by header line from a fresh scan, leaves the
/// session id of the first line that mentions `Session` (or the one held before, when no
/// line does), and keeps the URL and the `CSeq` number.
pub proof fn lemma_reply_session_text(s: SessionView, lines: Seq<Seq<char>>)
    ensures
        describe_lines_after(s, fresh_scan(), lines).0.session == reply_session_text(
            s.session,
            lines,
        ),
        describe_lines_after(s, fresh_scan(), lines).0.url == s.url,
        describe_lines_after(s, fresh_scan(), lines).0.cseq == s.cseq,
{
    lemma_describe_lines_after(s, fresh_scan(), lines);
}

/// What happens to a session: a request goes out, or a DESCRIBE reply with the given
/// header lines is read.
pub enum SessionEvent {
    Request,
    Reply(Seq<Seq<char>>),
}

/// The session after the events `events`, in order: a request moves the `CSeq` number on,
/// a DESCRIBE reply is read from a fresh scan.
pub open spec fn run_session(s: SessionView, events: Seq<SessionEvent>) -> SessionView
    decreases events.len(),
{
    if events.len() == 0 {
        s
    } else {
        let prev = run_session(s, events.drop_last());
        match events.last() {
            SessionEvent::Request => next_cseq(prev),
            SessionEvent::Reply(lines) => describe_lines_after(prev, fresh_scan(), lines).0,
        }
    }
}

/// The number of requests among `events`.
pub open spec fn request_count(events: Seq<SessionEvent>) -> nat
    decreases events.len(),
{
    if events.len() == 0 {
        0
    } else {
        request_count(events.drop_last()) + if events.last() is Request {
            1nat
        } else {
            0nat
        }
    }
}

/// The session id that the most recent reply among `events` with a `Session` line gave,
/// or `session` when none had one.
pub open spec fn last_session_text(session: Seq<char>, events: Seq<SessionEvent>) -> Seq<char>
    decreases events.len(),
{
    if events.len() == 0 {
        session
    } else {
        match events.last() {
            SessionEvent::Reply(lines) => if first_mention(lines, "Session"@) >= 0 {
                reply_session_text(session, lines)
            } else {
                last_session_text(session, events.drop_last())
            },
            SessionEvent::Request => last_session_text(session, events.drop_last()),
        }
    }
}

/// Over any sequence of requests and DESCRIBE replies, the `CSeq` number has moved on by
/// the number of requests, the URL is kept, and the session id is the one that the most
/// recent reply with a `Session` line gave (empty, for a new session, when none had one).
pub proof fn lemma_run_session(s: SessionView, events: Seq<SessionEvent>)
    requires
        s.cseq + request_count(events) <= i32::MAX,
    ensures
        run_session(s, events).cseq == s.cseq + request_count(events),
        run_session(s, events).url == s.url,
        run_session(s, events).session == last_session_text(s.session, events),
    decreases events.len(),
{
    if events.len() > 0 {
        let init = events.drop_last();
        lemma_run_session(s, init);
        let prev = run_session(s, init);
        match events.last() {
            SessionEvent::Request => {},
            SessionEvent::Reply(lines) => {
                lemma_reply_session_text(prev, lines);
                if first_mention(lines, "Session"@) >= 0 {
                    assert(reply_session_text(prev.session, lines) == reply_session_text(
                        s.session,
                        lines,
                    ));
                }
            },
        }
    }
}

proof fn lemma_request_count_prefix(events: Seq<SessionEvent>, j: int)
    requires
        0 <= j <= events.len(),
    ensures
        request_count(events.take(j)) <= request_count(events),
    decreases events.len(),
{
    if j < events.len() {
        assert(events.drop_last().take(j) =~= events.take(j));
        lemma_request_count_prefix(events.drop_last(), j);
    } else {
        assert(events.take(j) =~= events);
    }
}

/// Requests are numbered one after the other: the request that goes out as event `j`
/// carries the `CSeq` number the session started with plus the number of requests before
/// it, and the one after it carries the next number, with no gap and no repeat.
pub proof fn lemma_requests_numbered(s: SessionView, events: Seq<SessionEvent>, j: int)
    requires
        s.cseq + request_count(events) <= i32::MAX,
        0 <= j < events.len(),
        events[j] is Request,
    ensures
        run_session(s, events.take(j)).cseq == s.cseq + request_count(events.take(j)),
        request_count(events.take(j + 1)) == request_count(events.take(j)) + 1,
{
    lemma_request_count_prefix(events, j);
    lemma_run_session(s, events.take(j));
    assert(events.take(j + 1).drop_last() =~= events.take(j));
}

/// What one header line of the DESCRIBE reply does to the session, in terms of the line's
/// text. A line that mentions `m=video` ends the audio section, one that mentions only
/// `m=audio` starts it, and other lines keep it. A line that mentions `a=control` with a
/// value other than `*` names the track of the section it stands in (the audio track in
/// the audio section, the video track otherwise) and leaves the other track; no other
/// line changes a track. The first `Session` line gives the session id (its text between
/// `:` and `;`, leading white space dropped) and the first `Content-Length` line the body
/// length; the URL and the `CSeq` number are kept.
pub proof fn lemma_describe_line_effect(s: SessionView, scan: HeaderScan, line: Seq<char>)
    ensures
        contains(line, "m=video"@) ==> !describe_line_after(s, scan, line).1.audio_section,
        contains(line, "m=audio"@) && !contains(line, "m=video"@) ==> describe_line_after(
            s,
            scan,
            line,
        ).1.audio_section,
        !contains(line, "m=audio"@) && !contains(line, "m=video"@) ==> describe_line_after(
            s,
            scan,
            line,
        ).1.audio_section == scan.audio_section,
        contains(line, "a=control"@) && piece(line, ':', 1) != seq!['*'] ==> if describe_line_after(
            s,
            scan,
            line,
        ).1.audio_section {
            &&& describe_line_after(s, scan, line).0.audio_track == piece(line, ':', 1)
            &&& describe_line_after(s, scan, line).0.video_track == s.video_track
        } else {
            &&& describe_line_after(s, scan, line).0.video_track == piece(line, ':', 1)
            &&& describe_line_after(s, scan, line).0.audio_track == s.audio_track
        },
        !contains(line, "a=control"@) || piece(line, ':', 1) == seq!['*'] ==> {
            &&& describe_line_after(s, scan, line).0.video_track == s.video_track
            &&& describe_line_after(s, scan, line).0.audio_track == s.audio_track
        },
        !scan.session_parsed && contains(line, "Session"@) ==> describe_line_after(
            s,
            scan,
            line,
        ).0.session == trim_start(piece(piece(line, ':', 1), ';', 0)),
        scan.session_parsed || !contains(line, "Session"@) ==> describe_line_after(
            s,
            scan,
            line,
        ).0.session == s.session,
        !scan.content_length_parsed && contains(line, "Content-Length"@) ==> describe_line_after(
            s,
            scan,
            line,
        ).1.content_length == parse_unsigned(trim(piece(line, ':', 1))).unwrap() as usize,
        scan.content_length_parsed || !contains(line, "Content-Length"@) ==> describe_line_after(
            s,
            scan,
            line,
        ).1.content_length == scan.content_length,
        describe_line_after(s, scan, line).0.url == s.url,
        describe_line_after(s, scan, line).0.cseq == s.cseq,
{
}

} // verus!
