//! A small RTSP client library: request building, reply header scanning and
//! RTP packet framing, with the network plumbing kept outside.
use vstd::prelude::*;

pub mod text;
pub mod utils;
pub mod rtp_packet;
pub mod response;
pub mod session;

verus! {

/// Which media streams a SETUP request asks for.
#[derive(Clone, Copy, Debug)]
pub enum MediaType {
    Video,
    Audio,
    All,
}

} // verus!
