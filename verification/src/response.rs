//! RTSP replies: reading the header block of a reply line by line. A reply's header
//! block ends at its first empty line (`\r\n`); the DESCRIBE reply also gives the session
//! id and the length of the body that follows.
use vstd::prelude::*;
use crate::text::{
    contains, contains_str, has_piece, parse_u64, parse_unsigned, parse_usize, piece,
    split_piece, trim, trim_start, trim_start_str, trim_str,
};

verus! {

/// What a reader has learnt so far from the header lines of one reply.
#[derive(Clone, Copy, Debug)]
pub struct HeaderScan {
    /// Length of the body that follows the header block (0 until a `Content-Length`
    /// line is read).
    pub content_length: usize,
    /// Whether a `Session` line was read.
    pub session_parsed: bool,
    /// Whether a `Content-Length` line was read.
    pub content_length_parsed: bool,
    /// Whether the last media line read was `m=audio` (rather than `m=video`).
    pub audio_section: bool,
}

/// The scan state before the first header line of a reply.
pub open spec fn fresh_scan() -> HeaderScan {
    HeaderScan {
        content_length: 0,
        session_parsed: false,
        content_length_parsed: false,
        audio_section: false,
    }
}

impl HeaderScan {
    /// The state before the first header line of a reply.
    pub fn new() -> (s: HeaderScan)
        ensures
            s == fresh_scan(),
    {
        HeaderScan {
            content_length: 0,
            session_parsed: false,
            content_length_parsed: false,
            audio_section: false,
        }
    }
}

/// Whether `line` is the empty line that ends a reply's header block.
pub open spec fn is_header_end(line: Seq<char>) -> bool {
    line == seq!['\r', '\n']
}

/// Whether `line` is the empty line that ends a reply's header block.
pub fn ends_header(line: &str) -> (r: bool)
    ensures
        r == is_header_end(line@),
{
    let n = line.unicode_len();
    let r = n == 2 && line.get_char(0) == '\r' && line.get_char(1) == '\n';
    proof {
        if n == 2 && line@[0] == '\r' && line@[1] == '\n' {
            assert(line@ =~= seq!['\r', '\n']);
        }
    }
    r
}

/// The value of a header line as it is read here: the text between its first `:` and
/// the next `:` (or the end of the line).
pub open spec fn header_value(line: Seq<char>) -> Seq<char> {
    piece(line, ':', 1)
}

/// The session id text of a `Session` line: its value up to the first `;`, without
/// leading white space.
pub open spec fn session_text(line: Seq<char>) -> Seq<char> {
    trim_start(piece(header_value(line), ';', 0))
}

/// The length text of a `Content-Length` line: its value without white space at either end.
pub open spec fn length_text(line: Seq<char>) -> Seq<char> {
    trim(header_value(line))
}

/// Whether `line` gives the session of the reply: it is the first line to mention `Session`.
pub open spec fn takes_session(scan: HeaderScan, line: Seq<char>) -> bool {
    !scan.session_parsed && contains(line, "Session"@)
}

/// Whether `line` gives the body length of the reply: it is the first line to mention
/// `Content-Length`.
pub open spec fn takes_length(scan: HeaderScan, line: Seq<char>) -> bool {
    !scan.content_length_parsed && contains(line, "Content-Length"@)
}

/// Whether `line` has a value whose length text reads as a `usize`.
pub open spec fn length_readable(line: Seq<char>) -> bool {
    &&& has_piece(line, ':', 1)
    &&& parse_unsigned(length_text(line)) matches Some(v) && v <= usize::MAX
}

/// The scan state after `line`, as far as the body length goes; the media section is kept.
pub open spec fn scan_after(scan: HeaderScan, line: Seq<char>) -> HeaderScan {
    HeaderScan {
        content_length: if takes_length(scan, line) {
            parse_unsigned(length_text(line)).unwrap() as usize
        } else {
            scan.content_length
        },
        session_parsed: scan.session_parsed || contains(line, "Session"@),
        content_length_parsed: scan.content_length_parsed || contains(line, "Content-Length"@),
        audio_section: scan.audio_section,
    }
}

/// The length that a `Content-Length` line gives, if its length text reads as a `usize`.
pub fn content_length_value(line: &str) -> (r: Option<usize>)
    ensures
        r is Some <==> length_readable(line@),
        r matches Some(v) ==> v == parse_unsigned(length_text(line@)).unwrap(),
{
    match split_piece(line, ':', 1) {
        Some(v) => parse_usize(trim_str(v)),
        None => None,
    }
}

/// Takes from a header line what every reply reader takes: the body length where it is the
/// first `Content-Length` line, and whether the session and the length have been given.
pub fn scan_header_line(scan: &mut HeaderScan, line: &str)
    requires
        takes_length(*old(scan), line@) ==> length_readable(line@),
    ensures
        *final(scan) == scan_after(*old(scan), line@),
{
    let mentions_session = contains_str(line, "Session");
    if !scan.content_length_parsed && contains_str(line, "Content-Length") {
        match content_length_value(line) {
            Some(v) => {
                scan.content_length = v;
            },
            None => {},
        }
        scan.content_length_parsed = true;
    }
    if mentions_session {
        scan.session_parsed = true;
    }
}

/// The session id text of `line`, if the line has a value.
pub fn session_text_of<'a>(line: &'a str) -> (r: Option<&'a str>)
    ensures
        r is Some <==> has_piece(line@, ':', 1),
        r matches Some(t) ==> t@ == session_text(line@),
{
    match split_piece(line, ':', 1) {
        Some(v) => match split_piece(v, ';', 0) {
            Some(w) => Some(trim_start_str(w)),
            None => None,
        },
        None => None,
    }
}

/// A reply to an RTSP request, read one header line at a time. The reader of a reply
/// hands each line of the header block to `take_line` (after `check_line` has accepted
/// it) and stops at the empty line; it then reads `content_length` bytes of body.
pub trait Response: Sized + View {
    /// Whether `line` can be taken in the state `scan`.
    spec fn accepts_line(&self, scan: HeaderScan, line: Seq<char>) -> bool;

    /// The reply and the scan state after taking `line`.
    spec fn after_line(&self, scan: HeaderScan, line: Seq<char>) -> (Self::V, HeaderScan);

    /// Whether `line` can be taken in the state `scan`.
    fn check_line(&self, scan: &HeaderScan, line: &str) -> (ok: bool)
        ensures
            ok == self.accepts_line(*scan, line@),
    ;

    /// Takes one header line of the reply.
    fn take_line(&mut self, scan: &mut HeaderScan, line: &str)
        requires
            old(self).accepts_line(*old(scan), line@),
        ensures
            (final(self)@, *final(scan)) == old(self).after_line(*old(scan), line@),
    ;
}

/// The reply to OPTIONS: its header lines are kept as they come.
pub struct Options;

/// The reply to SETUP: its header lines are kept as they come.
pub struct Setup;

/// The reply to PLAY: its header lines are kept as they come.
pub struct Play;

impl View for Options {
    type V = ();

    open spec fn view(&self) -> () {
        ()
    }
}

impl View for Setup {
    type V = ();

    open spec fn view(&self) -> () {
        ()
    }
}

impl View for Play {
    type V = ();

    open spec fn view(&self) -> () {
        ()
    }
}

impl Response for Options {
    open spec fn accepts_line(&self, scan: HeaderScan, line: Seq<char>) -> bool {
        true
    }

    open spec fn after_line(&self, scan: HeaderScan, line: Seq<char>) -> ((), HeaderScan) {
        ((), scan)
    }

    fn check_line(&self, scan: &HeaderScan, line: &str) -> (ok: bool) {
        true
    }

    fn take_line(&mut self, scan: &mut HeaderScan, line: &str) {
    }
}

impl Response for Setup {
    open spec fn accepts_line(&self, scan: HeaderScan, line: Seq<char>) -> bool {
        true
    }

    open spec fn after_line(&self, scan: HeaderScan, line: Seq<char>) -> ((), HeaderScan) {
        ((), scan)
    }

    fn check_line(&self, scan: &HeaderScan, line: &str) -> (ok: bool) {
        true
    }

    fn take_line(&mut self, scan: &mut HeaderScan, line: &str) {
    }
}

impl Response for Play {
    open spec fn accepts_line(&self, scan: HeaderScan, line: Seq<char>) -> bool {
        true
    }

    open spec fn after_line(&self, scan: HeaderScan, line: Seq<char>) -> ((), HeaderScan) {
        ((), scan)
    }

    fn check_line(&self, scan: &HeaderScan, line: &str) -> (ok: bool) {
        true
    }

    fn take_line(&mut self, scan: &mut HeaderScan, line: &str) {
    }
}

/// The reply to DESCRIBE: it carries the numeric session id and the length of the
/// session description that follows the header block.
pub struct Describe {
    session: u64,
}

impl View for Describe {
    type V = u64;

    /// The session id read so far.
    closed spec fn view(&self) -> u64 {
        self.session
    }
}

/// Whether the session text of `line` reads as a `u64`.
pub open spec fn session_readable(line: Seq<char>) -> bool {
    &&& has_piece(line, ':', 1)
    &&& parse_unsigned(session_text(line)) matches Some(v) && v <= u64::MAX
}

/// The session number a `Session` line gives.
pub open spec fn session_number(line: Seq<char>) -> u64 {
    parse_unsigned(session_text(line)).unwrap() as u64
}

/// The DESCRIBE reply's session and the scan state after the header line `line`, from
/// the session `session`: the first `Session` line gives the session.
pub open spec fn describe_step(session: u64, scan: HeaderScan, line: Seq<char>) -> (
    u64,
    HeaderScan,
) {
    (
        if takes_session(scan, line) {
            session_number(line)
        } else {
            session
        },
        scan_after(scan, line),
    )
}

impl Describe {
    /// A DESCRIBE reply with no session read yet (session 0).
    pub fn new() -> (d: Describe)
        ensures
            d@ == 0,
    {
        Describe { session: 0 }
    }

    /// The session id read from the reply (0 until one is read).
    pub fn get_session(&self) -> (s: u64)
        ensures
            s == self@,
    {
        self.session
    }
}

impl Response for Describe {
    /// The first `Session` line must give a number that fits a `u64`, and the first
    /// `Content-Length` line one that fits a `usize`.
    open spec fn accepts_line(&self, scan: HeaderScan, line: Seq<char>) -> bool {
        &&& takes_session(scan, line) ==> session_readable(line)
        &&& takes_length(scan, line) ==> length_readable(line)
    }

    open spec fn after_line(&self, scan: HeaderScan, line: Seq<char>) -> (u64, HeaderScan) {
        describe_step(self@, scan, line)
    }

    fn check_line(&self, scan: &HeaderScan, line: &str) -> (ok: bool) {
        let session_ok = if !scan.session_parsed && contains_str(line, "Session") {
            match session_text_of(line) {
                Some(t) => parse_u64(t).is_some(),
                None => false,
            }
        } else {
            true
        };
        let length_ok = if !scan.content_length_parsed && contains_str(line, "Content-Length") {
            content_length_value(line).is_some()
        } else {
            true
        };
        session_ok && length_ok
    }

    fn take_line(&mut self, scan: &mut HeaderScan, line: &str) {
        if !scan.session_parsed && contains_str(line, "Session") {
            match session_text_of(line) {
                Some(t) => match parse_u64(t) {
                    Some(v) => {
                        self.session = v;
                    },
                    None => {},
                },
                None => {},
            }
        }
        scan_header_line(scan, line);
    }
}

/// Only the first `Session` and the first `Content-Length` line count: once a reply's
/// session (or body length) has been read, later header lines leave it as it is.
pub proof fn lemma_describe_reads_once(d: Describe, scan: HeaderScan, line: Seq<char>)
    ensures
        scan.session_parsed ==> d.after_line(scan, line).0 == d@ && d.after_line(
            scan,
            line,
        ).1.session_parsed,
        scan.content_length_parsed ==> d.after_line(scan, line).1.content_length
            == scan.content_length && d.after_line(scan, line).1.content_length_parsed,
{
}

/// Index of the first of `lines` that mentions `pat`, or -1 when none does.
pub open spec fn first_mention(lines: Seq<Seq<char>>, pat: Seq<char>) -> int
    decreases lines.len(),
{
    if lines.len() == 0 {
        -1
    } else if contains(lines[0], pat) {
        0
    } else {
        let r = first_mention(lines.drop_first(), pat);
        if r < 0 {
            -1
        } else {
            r + 1
        }
    }
}

pub proof fn lemma_first_mention(lines: Seq<Seq<char>>, pat: Seq<char>)
    ensures
        -1 <= first_mention(lines, pat) < lines.len(),
        first_mention(lines, pat) >= 0 ==> contains(lines[first_mention(lines, pat)], pat),
    decreases lines.len(),
{
    if lines.len() > 0 && !contains(lines[0], pat) {
        lemma_first_mention(lines.drop_first(), pat);
    }
}

/// The DESCRIBE reply's session and scan state after the header lines `lines`, in order.
pub open spec fn describe_lines(session: u64, scan: HeaderScan, lines: Seq<Seq<char>>) -> (
    u64,
    HeaderScan,
)
    decreases lines.len(),
{
    if lines.len() == 0 {
        (session, scan)
    } else {
        let next = describe_step(session, scan, lines[0]);
        describe_lines(next.0, next.1, lines.drop_first())
    }
}

/// The session after reading one DESCRIBE reply whose header lines are `lines`, from the
/// session `session`: the number on the first line that mentions `Session`, or `session`
/// when no line does.
pub open spec fn reply_session(session: u64, lines: Seq<Seq<char>>) -> u64 {
    let i = first_mention(lines, "Session"@);
    if i < 0 {
        session
    } else {
        session_number(lines[i])
    }
}

proof fn lemma_describe_lines(session: u64, scan: HeaderScan, lines: Seq<Seq<char>>)
    ensures
        scan.session_parsed ==> describe_lines(session, scan, lines).0 == session,
        !scan.session_parsed ==> describe_lines(session, scan, lines).0 == reply_session(
            session,
            lines,
        ),
    decreases lines.len(),
{
    if lines.len() > 0 {
        let next = describe_step(session, scan, lines[0]);
        let rest = lines.drop_first();
        lemma_describe_lines(next.0, next.1, rest);
        lemma_first_mention(rest, "Session"@);
        if !contains(lines[0], "Session"@) {
            let i = first_mention(rest, "Session"@);
            if i >= 0 {
                assert(lines[i + 1] == rest[i]);
            }
            assert(reply_session(session, lines) == reply_session(session, rest));
        }
    }
}

/// Reading one DESCRIBE reply, header line by header line from a fresh scan, leaves the
/// session that the first line mentioning `Session` gives, or the session as it was when
/// no line mentions it.
pub proof fn lemma_reply_session(session: u64, lines: Seq<Seq<char>>)
    ensures
        describe_lines(session, fresh_scan(), lines).0 == reply_session(session, lines),
{
    lemma_describe_lines(session, fresh_scan(), lines);
}

/// The session after reading the DESCRIBE replies `replies` one after the other, each
/// from a fresh scan.
pub open spec fn describe_replies(session: u64, replies: Seq<Seq<Seq<char>>>) -> u64
    decreases replies.len(),
{
    if replies.len() == 0 {
        session
    } else {
        describe_lines(describe_replies(session, replies.drop_last()), fresh_scan(), replies.last()).0
    }
}

/// The session that the last of `replies` with a `Session` line gives, or `session` when
/// none has one.
pub open spec fn last_reply_session(session: u64, replies: Seq<Seq<Seq<char>>>) -> u64
    decreases replies.len(),
{
    if replies.len() == 0 {
        session
    } else if first_mention(replies.last(), "Session"@) >= 0 {
        reply_session(session, replies.last())
    } else {
        last_reply_session(session, replies.drop_last())
    }
}

/// Over any number of DESCRIBE replies read into one `Describe`, its session is the one
/// that the most recent reply with a `Session` line gave, or what it held before (0 for
/// `Describe::new`) when no reply had one.
pub proof fn lemma_replies_session(session: u64, replies: Seq<Seq<Seq<char>>>)
    ensures
        describe_replies(session, replies) == last_reply_session(session, replies),
    decreases replies.len(),
{
    if replies.len() > 0 {
        lemma_replies_session(session, replies.drop_last());
        lemma_reply_session(describe_replies(session, replies.drop_last()), replies.last());
    }
}

/// The plain replies (to OPTIONS, SETUP and PLAY) take every header line, whatever it
/// holds, and learn nothing from it: their reader keeps all lines up to the empty one.
pub proof fn lemma_plain_replies_take_every_line(scan: HeaderScan, line: Seq<char>)
    ensures
        Options.accepts_line(scan, line),
        Setup.accepts_line(scan, line),
        Play.accepts_line(scan, line),
        Options.after_line(scan, line) == ((), scan),
        Setup.after_line(scan, line) == ((), scan),
        Play.after_line(scan, line) == ((), scan),
{
}

/// What one header line does to a DESCRIBE reply, in terms of the line's text: the first
/// line that mentions `Content-Length` sets the body length to the number after its `:`
/// (white space trimmed), whether or not a `Session` line came before; the first line that
/// mentions `Session` sets the session to the number between its `:` and the next `;`
/// (leading white space dropped); other lines change neither.
pub proof fn lemma_describe_line_effect(d: Describe, scan: HeaderScan, line: Seq<char>)
    ensures
        !scan.content_length_parsed && contains(line, "Content-Length"@) ==> {
            &&& d.after_line(scan, line).1.content_length == parse_unsigned(
                trim(piece(line, ':', 1)),
            ).unwrap() as usize
            &&& d.after_line(scan, line).1.content_length_parsed
        },
        scan.content_length_parsed || !contains(line, "Content-Length"@) ==> {
            &&& d.after_line(scan, line).1.content_length == scan.content_length
            &&& d.after_line(scan, line).1.content_length_parsed == scan.content_length_parsed
        },
        !scan.session_parsed && contains(line, "Session"@) ==> {
            &&& d.after_line(scan, line).0 == parse_unsigned(
                trim_start(piece(piece(line, ':', 1), ';', 0)),
            ).unwrap() as u64
            &&& d.after_line(scan, line).1.session_parsed
        },
        scan.session_parsed || !contains(line, "Session"@) ==> {
            &&& d.after_line(scan, line).0 == d@
            &&& d.after_line(scan, line).1.session_parsed == scan.session_parsed
        },
{
}

/// The body length after the header lines `lines` from the scan state `scan`.
proof fn lemma_describe_lines_length(session: u64, scan: HeaderScan, lines: Seq<Seq<char>>)
    ensures
        scan.content_length_parsed ==> describe_lines(session, scan, lines).1.content_length
            == scan.content_length,
        !scan.content_length_parsed && first_mention(lines, "Content-Length"@) < 0
            ==> describe_lines(session, scan, lines).1.content_length == scan.content_length,
        !scan.content_length_parsed && first_mention(lines, "Content-Length"@) >= 0
            ==> describe_lines(session, scan, lines).1.content_length == parse_unsigned(
            trim(piece(lines[first_mention(lines, "Content-Length"@)], ':', 1)),
        ).unwrap() as usize,
    decreases lines.len(),
{
    if lines.len() > 0 {
        let next = describe_step(session, scan, lines[0]);
        let rest = lines.drop_first();
        lemma_describe_lines_length(next.0, next.1, rest);
        lemma_first_mention(rest, "Content-Length"@);
        if !contains(lines[0], "Content-Length"@) {
            let i = first_mention(rest, "Content-Length"@);
            if i >= 0 {
                assert(lines[i + 1] == rest[i]);
            }
        }
    }
}

/// Reading one DESCRIBE reply from a fresh scan, the body length is the number on the
/// first header line that mentions `Content-Length`, or 0 when no line does; `Session`
/// lines, before or after it, do not change it.
pub proof fn lemma_reply_body_length(session: u64, lines: Seq<Seq<char>>)
    ensures
        first_mention(lines, "Content-Length"@) >= 0 ==> describe_lines(
            session,
            fresh_scan(),
            lines,
        ).1.content_length == parse_unsigned(
            trim(piece(lines[first_mention(lines, "Content-Length"@)], ':', 1)),
        ).unwrap() as usize,
        first_mention(lines, "Content-Length"@) < 0 ==> describe_lines(
            session,
            fresh_scan(),
            lines,
        ).1.content_length == 0,
{
    lemma_describe_lines_length(session, fresh_scan(), lines);
}

} // verus!
