//! RTP packets (RFC 3550): reading one from the bytes of an interleaved frame, and
//! writing one out.
use vstd::prelude::*;

verus! {

/// An RTP packet: the fixed header, the contributing sources and the payload.
#[derive(Debug, Clone)]
pub struct RTPPacket {
    pub version: u8,
    pub padding: bool,
    pub extension: bool,
    /// Number of contributing sources.
    pub cc: u8,
    pub marker: bool,
    pub payload_type: u8,
    pub seq_num: u16,
    pub timestamp: u32,
    /// Synchronization source identifier.
    pub ssrc: u32,
    /// Contributing source identifiers.
    pub csrcs: Option<Vec<u32>>,
    pub profile_specific_ext_hdr_id: Option<u16>,
    pub ext_hdr_len: Option<u16>,
    pub payload: Vec<u8>,
}

/// An `RTPPacket` with its vectors seen as sequences.
pub struct RtpPacketView {
    pub version: u8,
    pub padding: bool,
    pub extension: bool,
    pub cc: u8,
    pub marker: bool,
    pub payload_type: u8,
    pub seq_num: u16,
    pub timestamp: u32,
    pub ssrc: u32,
    pub csrcs: Option<Seq<u32>>,
    pub profile_specific_ext_hdr_id: Option<u16>,
    pub ext_hdr_len: Option<u16>,
    pub payload: Seq<u8>,
}

impl View for RTPPacket {
    type V = RtpPacketView;

    open spec fn view(&self) -> RtpPacketView {
        RtpPacketView {
            version: self.version,
            padding: self.padding,
            extension: self.extension,
            cc: self.cc,
            marker: self.marker,
            payload_type: self.payload_type,
            seq_num: self.seq_num,
            timestamp: self.timestamp,
            ssrc: self.ssrc,
            csrcs: match self.csrcs {
                Some(v) => Some(v@),
                None => None,
            },
            profile_specific_ext_hdr_id: self.profile_specific_ext_hdr_id,
            ext_hdr_len: self.ext_hdr_len,
            payload: self.payload@,
        }
    }
}

/// The 16-bit number whose big-endian bytes are `hi`, `lo`.
pub open spec fn be_u16(hi: u8, lo: u8) -> u16 {
    (hi as int * 0x100 + lo as int) as u16
}

/// The 32-bit number whose big-endian bytes stand in `data` at `at`.
pub open spec fn be_u32_at(data: Seq<u8>, at: int) -> u32 {
    (data[at] as int * 0x1000000 + data[at + 1] as int * 0x10000 + data[at + 2] as int * 0x100
        + data[at + 3] as int) as u32
}

/// Number of contributing sources that the first header byte announces.
pub open spec fn csrc_count(data: Seq<u8>) -> u8 {
    data[0] & 0x0F
}

/// Length of the header that `data` announces: the fixed 12 bytes and 4 per contributing source.
pub open spec fn header_len(data: Seq<u8>) -> int {
    12 + 4 * csrc_count(data)
}

/// Whether `data` holds the whole header that it announces.
pub open spec fn is_complete(data: Seq<u8>) -> bool {
    data.len() >= 12 && data.len() >= header_len(data)
}

/// The packet that `data` holds. The version reads 2 when the top bit is set and 1
/// otherwise; the header extension is not read, and all that follows the contributing
/// sources is payload.
pub open spec fn parse_view(data: Seq<u8>) -> RtpPacketView {
    let cc = csrc_count(data);
    RtpPacketView {
        version: if data[0] & 0x80 != 0 { 2 } else { 1 },
        padding: data[0] & 0x20 > 0,
        extension: data[0] & 0x10 > 0,
        cc: cc,
        marker: data[1] & 0x80 > 0,
        payload_type: data[1] & 0x7F,
        seq_num: be_u16(data[2], data[3]),
        timestamp: be_u32_at(data, 4),
        ssrc: be_u32_at(data, 8),
        csrcs: if cc > 0 {
            Some(Seq::new(cc as nat, |k: int| be_u32_at(data, 12 + 4 * k)))
        } else {
            None
        },
        profile_specific_ext_hdr_id: None,
        ext_hdr_len: None,
        payload: data.skip(header_len(data)),
    }
}

/// The big-endian bytes of `x`.
pub open spec fn be16_bytes(x: u16) -> Seq<u8> {
    seq![(x / 0x100) as u8, (x % 0x100) as u8]
}

/// The big-endian bytes of `x`.
pub open spec fn be32_bytes(x: u32) -> Seq<u8> {
    seq![
        (x / 0x1000000) as u8,
        (x / 0x10000 % 0x100) as u8,
        (x / 0x100 % 0x100) as u8,
        (x % 0x100) as u8,
    ]
}

/// The contributing sources, each in 4 big-endian bytes.
pub open spec fn csrc_bytes(c: Seq<u32>) -> Seq<u8>
    decreases c.len(),
{
    if c.len() == 0 {
        Seq::empty()
    } else {
        csrc_bytes(c.drop_last()) + be32_bytes(c.last())
    }
}

/// The bytes of an optional 16-bit field: none when it is absent.
pub open spec fn opt16_bytes(o: Option<u16>) -> Seq<u8> {
    match o {
        Some(x) => be16_bytes(x),
        None => Seq::empty(),
    }
}

/// First header byte as written: version 2, then padding, extension and the `cc` field.
pub open spec fn first_byte(p: RtpPacketView) -> u8 {
    0x80u8 | (if p.padding { 0x20u8 } else { 0u8 }) | (if p.extension { 0x10u8 } else { 0u8 })
        | p.cc
}

/// Second header byte as written: the marker bit and the payload type.
pub open spec fn second_byte(p: RtpPacketView) -> u8 {
    (if p.marker { 0x80u8 } else { 0u8 }) | p.payload_type
}

/// The bytes of `p` on the wire. The version field always reads 2, whatever `p.version`
/// holds; the contributing sources written are those in `p.csrcs`, whatever `p.cc` says.
pub open spec fn serialize_view(p: RtpPacketView) -> Seq<u8> {
    seq![first_byte(p), second_byte(p)] + be16_bytes(p.seq_num) + be32_bytes(p.timestamp)
        + be32_bytes(p.ssrc) + match p.csrcs {
        Some(c) => csrc_bytes(c),
        None => Seq::empty(),
    } + opt16_bytes(p.profile_specific_ext_hdr_id) + opt16_bytes(p.ext_hdr_len) + p.payload
}

/// The 32-bit number whose big-endian bytes stand in `data` at `at`.
fn read_u32_be(data: &[u8], at: usize) -> (r: u32)
    requires
        at + 4 <= data@.len(),
    ensures
        r == be_u32_at(data@, at as int),
{
    (data[at] as u32) * 0x1000000 + (data[at + 1] as u32) * 0x10000 + (data[at + 2] as u32)
        * 0x100 + (data[at + 3] as u32)
}

/// Appends the big-endian bytes of `x`.
fn push_u16_be(out: &mut Vec<u8>, x: u16)
    ensures
        final(out)@ == old(out)@ + be16_bytes(x),
{
    out.push((x / 0x100) as u8);
    out.push((x % 0x100) as u8);
    assert(out@ =~= old(out)@ + be16_bytes(x));
}

/// Appends the big-endian bytes of `x`.
fn push_u32_be(out: &mut Vec<u8>, x: u32)
    ensures
        final(out)@ == old(out)@ + be32_bytes(x),
{
    out.push((x / 0x1000000) as u8);
    out.push((x / 0x10000 % 0x100) as u8);
    out.push((x / 0x100 % 0x100) as u8);
    out.push((x % 0x100) as u8);
    assert(out@ =~= old(out)@ + be32_bytes(x));
}

impl RTPPacket {
    /// Whether `data` holds the whole header that it announces, so that `from_bytes`
    /// can read it.
    pub fn is_complete(data: &[u8]) -> (r: bool)
        ensures
            r == is_complete(data@),
    {
        data.len() >= 12 && data.len() >= 12 + 4 * ((data[0] & 0x0F) as usize)
    }

    /// Reads the packet that `data` holds (see `parse_view`).
    pub fn from_bytes(data: &[u8]) -> (p: RTPPacket)
        requires
            is_complete(data@),
        ensures
            p@ == parse_view(data@),
    {
        let version = if data[0] & 0x80 != 0 {
            2
        } else {
            1
        };
        let padding = (data[0] & 0x20) > 0;
        let extension = (data[0] & 0x10) > 0;
        let cc = data[0] & 0x0F;
        let marker = (data[1] & 0x80) > 0;
        let payload_type = data[1] & 0x7F;
        let seq_num = (data[2] as u16) * 0x100 + (data[3] as u16);
        let timestamp = read_u32_be(data, 4);
        let ssrc = read_u32_be(data, 8);
        let mut i: usize = 12;
        let mut csrcs: Vec<u32> = Vec::new();
        let mut k: u8 = 0;
        while k < cc
            invariant
                cc == csrc_count(data@),
                is_complete(data@),
                k <= cc,
                i == 12 + 4 * k,
                csrcs@ =~= Seq::new(k as nat, |j: int| be_u32_at(data@, 12 + 4 * j)),
            decreases cc - k,
        {
            let csrc = read_u32_be(data, i);
            csrcs.push(csrc);
            i = i + 4;
            k = k + 1;
        }
        let n = data.len();
        let mut payload: Vec<u8> = Vec::new();
        let mut j: usize = i;
        while j < n
            invariant
                i <= j <= n,
                n == data@.len(),
                payload@ =~= data@.subrange(i as int, j as int),
            decreases n - j,
        {
            payload.push(data[j]);
            j = j + 1;
        }
        let p = RTPPacket {
            version,
            padding,
            extension,
            cc,
            marker,
            payload_type,
            seq_num,
            timestamp,
            ssrc,
            csrcs: if cc > 0 {
                Some(csrcs)
            } else {
                None
            },
            profile_specific_ext_hdr_id: None,
            ext_hdr_len: None,
            payload,
        };
        assert(p@.payload =~= parse_view(data@).payload);
        p
    }

    /// The bytes of the packet on the wire (see `serialize_view`).
    pub fn into_bytes(self) -> (bytes: Vec<u8>)
        ensures
            bytes@ == serialize_view(self@),
    {
        let ghost p = self@;
        let mut bytes: Vec<u8> = Vec::new();
        let header_byte: u8 = 0x80 | if self.padding {
            0x20
        } else {
            0
        } | if self.extension {
            0x10
        } else {
            0
        } | self.cc;
        bytes.push(header_byte);
        bytes.push(
            if self.marker {
                0x80
            } else {
                0
            } | self.payload_type,
        );
        push_u16_be(&mut bytes, self.seq_num);
        push_u32_be(&mut bytes, self.timestamp);
        push_u32_be(&mut bytes, self.ssrc);
        let ghost fixed = bytes@;
        assert(fixed =~= seq![first_byte(p), second_byte(p)] + be16_bytes(p.seq_num) + be32_bytes(
            p.timestamp,
        ) + be32_bytes(p.ssrc));
        match &self.csrcs {
            Some(c) => {
                let mut q: usize = 0;
                while q < c.len()
                    invariant
                        q <= c@.len(),
                        bytes@ =~= fixed + csrc_bytes(c@.take(q as int)),
                    decreases c@.len() - q,
                {
                    proof {
                        assert(c@.take(q + 1).drop_last() =~= c@.take(q as int));
                    }
                    push_u32_be(&mut bytes, c[q]);
                    q = q + 1;
                }
                assert(c@.take(c@.len() as int) =~= c@);
            },
            None => {},
        }
        match self.profile_specific_ext_hdr_id {
            Some(x) => push_u16_be(&mut bytes, x),
            None => {},
        }
        match self.ext_hdr_len {
            Some(x) => push_u16_be(&mut bytes, x),
            None => {},
        }
        let mut payload = self.payload;
        bytes.append(&mut payload);
        bytes
    }
}

impl From<RTPPacket> for Vec<u8> {
    /// The bytes of the packet on the wire (see `serialize_view`).
    fn from(packet: RTPPacket) -> (bytes: Vec<u8>)
        ensures
            bytes@ == serialize_view(packet@),
    {
        packet.into_bytes()
    }
}

/// A `Vec` is known to spec code through its view alone, so `from_spec` names no value
/// and `obeys_from_spec` is false; the `ensures` of `from` states the bytes' view.
impl vstd::std_specs::convert::FromSpecImpl<RTPPacket> for Vec<u8> {
    open spec fn obeys_from_spec() -> bool {
        false
    }

    open spec fn from_spec(v: RTPPacket) -> Vec<u8> {
        vstd::pervasive::arbitrary()
    }
}

/// A packet that the wire format carries unchanged: version 2, a `cc` and a payload type
/// that fit their bits, a source list that agrees with `cc` (none when it is 0), and no
/// header extension fields, which reading does not pick out.
pub open spec fn is_wire_form(p: RtpPacketView) -> bool {
    &&& p.version == 2
    &&& p.cc < 16
    &&& p.payload_type < 128
    &&& match p.csrcs {
        Some(c) => p.cc > 0 && c.len() == p.cc,
        None => p.cc == 0,
    }
    &&& p.profile_specific_ext_hdr_id is None
    &&& p.ext_hdr_len is None
}

proof fn lemma_be16_roundtrip(x: u16)
    ensures
        be_u16(be16_bytes(x)[0], be16_bytes(x)[1]) == x,
        be16_bytes(x).len() == 2,
{
    let hi = (x / 0x100) as u8;
    let lo = (x % 0x100) as u8;
    assert(hi as int * 0x100 + lo as int == x) by (bit_vector)
        requires
            hi == (x / 0x100) as u8,
            lo == (x % 0x100) as u8,
    ;
}

proof fn lemma_be16_of_bytes(hi: u8, lo: u8)
    ensures
        be16_bytes(be_u16(hi, lo)) == seq![hi, lo],
{
    let x = be_u16(hi, lo);
    assert(x == hi as int * 0x100 + lo as int);
    assert(x / 0x100 == hi && x % 0x100 == lo) by (nonlinear_arith)
        requires
            x == hi as int * 0x100 + lo as int,
            lo < 0x100,
    ;
    assert(be16_bytes(x) =~= seq![hi, lo]);
}

proof fn lemma_be32_roundtrip(x: u32)
    ensures
        be_u32_at(be32_bytes(x), 0) == x,
        be32_bytes(x).len() == 4,
{
    let b = be32_bytes(x);
    let b0 = b[0];
    let b1 = b[1];
    let b2 = b[2];
    let b3 = b[3];
    assert(b0 as int * 0x1000000 + b1 as int * 0x10000 + b2 as int * 0x100 + b3 as int == x)
        by (nonlinear_arith)
        requires
            b0 == (x / 0x1000000) as u8,
            b1 == (x / 0x10000 % 0x100) as u8,
            b2 == (x / 0x100 % 0x100) as u8,
            b3 == (x % 0x100) as u8,
    ;
}

proof fn lemma_be32_of_bytes(data: Seq<u8>, at: int)
    requires
        0 <= at,
        at + 4 <= data.len(),
    ensures
        be32_bytes(be_u32_at(data, at)) == data.subrange(at, at + 4),
{
    let b0 = data[at];
    let b1 = data[at + 1];
    let b2 = data[at + 2];
    let b3 = data[at + 3];
    let x = be_u32_at(data, at);
    assert(x == b0 as int * 0x1000000 + b1 as int * 0x10000 + b2 as int * 0x100 + b3 as int)
        by (bit_vector)
        requires
            x == (b0 as int * 0x1000000 + b1 as int * 0x10000 + b2 as int * 0x100
                + b3 as int) as u32,
    ;
    assert((x / 0x1000000) as u8 == b0 && (x / 0x10000 % 0x100) as u8 == b1 && (x / 0x100
        % 0x100) as u8 == b2 && (x % 0x100) as u8 == b3) by (bit_vector)
        requires
            x == b0 as int * 0x1000000 + b1 as int * 0x10000 + b2 as int * 0x100 + b3 as int,
    ;
    assert(be32_bytes(x) =~= data.subrange(at, at + 4));
}

/// Each source stands in its own 4 bytes of `csrc_bytes`.
proof fn lemma_csrc_bytes(c: Seq<u32>)
    ensures
        csrc_bytes(c).len() == 4 * c.len(),
        forall|k: int|
            #![trigger c[k]]
            0 <= k < c.len() ==> csrc_bytes(c).subrange(4 * k, 4 * k + 4) == be32_bytes(c[k]),
    decreases c.len(),
{
    if c.len() > 0 {
        let init = c.drop_last();
        lemma_csrc_bytes(init);
        lemma_be32_roundtrip(c.last());
        assert forall|k: int|
            #![trigger c[k]]
            0 <= k < c.len() implies csrc_bytes(c).subrange(4 * k, 4 * k + 4) == be32_bytes(
                c[k],
            ) by {
            if k < c.len() - 1 {
                assert(init[k] == c[k]);
                assert(csrc_bytes(c).subrange(4 * k, 4 * k + 4) =~= csrc_bytes(init).subrange(
                    4 * k,
                    4 * k + 4,
                ));
            } else {
                assert(csrc_bytes(c).subrange(4 * k, 4 * k + 4) =~= be32_bytes(c.last()));
            }
        }
    }
}

/// Two byte sequences of one length that agree on every 4-byte group are equal.
proof fn lemma_csrc_bytes_of(data: Seq<u8>, cc: nat)
    requires
        12 + 4 * cc <= data.len(),
    ensures
        csrc_bytes(Seq::new(cc, |k: int| be_u32_at(data, 12 + 4 * k))) == data.subrange(
            12,
            12 + 4 * cc as int,
        ),
    decreases cc,
{
    let c = Seq::new(cc, |k: int| be_u32_at(data, 12 + 4 * k));
    if cc > 0 {
        lemma_csrc_bytes_of(data, (cc - 1) as nat);
        assert(c.drop_last() =~= Seq::new((cc - 1) as nat, |k: int| be_u32_at(data, 12 + 4 * k)));
        lemma_be32_of_bytes(data, 12 + 4 * (cc - 1));
        assert(data.subrange(12, 12 + 4 * cc as int) =~= data.subrange(12, 12 + 4 * (cc - 1))
            + data.subrange(12 + 4 * (cc - 1), 12 + 4 * cc as int));
    } else {
        assert(data.subrange(12, 12) =~= Seq::<u8>::empty());
    }
}

/// Reading back what was written gives the packet again, for every packet that the wire
/// format carries unchanged.
pub proof fn lemma_parse_serialize(p: RtpPacketView)
    requires
        is_wire_form(p),
    ensures
        is_complete(serialize_view(p)),
        parse_view(serialize_view(p)) == p,
{
    let b = serialize_view(p);
    let c = match p.csrcs {
        Some(c) => c,
        None => Seq::empty(),
    };
    lemma_csrc_bytes(c);
    lemma_be16_roundtrip(p.seq_num);
    lemma_be32_roundtrip(p.timestamp);
    lemma_be32_roundtrip(p.ssrc);
    let fixed = seq![first_byte(p), second_byte(p)] + be16_bytes(p.seq_num) + be32_bytes(
        p.timestamp,
    ) + be32_bytes(p.ssrc);
    assert(b =~= fixed + csrc_bytes(c) + p.payload);
    let b0 = first_byte(p);
    let b1 = second_byte(p);
    let pad: u8 = if p.padding { 0x20u8 } else { 0u8 };
    let ext: u8 = if p.extension { 0x10u8 } else { 0u8 };
    let mk: u8 = if p.marker { 0x80u8 } else { 0u8 };
    let cc = p.cc;
    let pt = p.payload_type;
    assert(b0 & 0x80 != 0 && (b0 & 0x20 > 0) == (pad == 0x20) && (b0 & 0x10 > 0) == (ext == 0x10)
        && b0 & 0x0F == cc) by (bit_vector)
        requires
            b0 == 0x80u8 | pad | ext | cc,
            pad == 0x20 || pad == 0,
            ext == 0x10 || ext == 0,
            cc < 16,
    ;
    assert((b1 & 0x80 > 0) == (mk == 0x80) && b1 & 0x7F == pt) by (bit_vector)
        requires
            b1 == mk | pt,
            mk == 0x80 || mk == 0,
            pt < 128,
    ;
    assert(b[0] == b0 && b[1] == b1);
    assert(csrc_count(b) == cc);
    assert(b.subrange(4, 8) =~= be32_bytes(p.timestamp));
    assert(b.subrange(8, 12) =~= be32_bytes(p.ssrc));
    assert(be_u32_at(b, 4) == be_u32_at(be32_bytes(p.timestamp), 0));
    assert(be_u32_at(b, 8) == be_u32_at(be32_bytes(p.ssrc), 0));
    assert(b[2] == be16_bytes(p.seq_num)[0] && b[3] == be16_bytes(p.seq_num)[1]);
    let q = parse_view(b);
    if cc > 0 {
        assert forall|k: int| 0 <= k < cc implies #[trigger] be_u32_at(b, 12 + 4 * k) == c[k] by {
            assert(csrc_bytes(c).subrange(4 * k, 4 * k + 4) == be32_bytes(c[k]));
            assert(b.subrange(12 + 4 * k, 12 + 4 * k + 4) =~= csrc_bytes(c).subrange(
                4 * k,
                4 * k + 4,
            ));
            assert(be_u32_at(b, 12 + 4 * k) == be_u32_at(be32_bytes(c[k]), 0));
            lemma_be32_roundtrip(c[k]);
        }
        assert(q.csrcs.unwrap() =~= c);
    }
    assert(q.payload =~= p.payload);
}

/// Writing out what was read gives the bytes again, for every complete packet whose first
/// byte has the version 2 bits (`10` in its top two bits).
pub proof fn lemma_serialize_parse(data: Seq<u8>)
    requires
        is_complete(data),
        data[0] & 0xC0 == 0x80,
    ensures
        serialize_view(parse_view(data)) == data,
{
    let p = parse_view(data);
    let d0 = data[0];
    let d1 = data[1];
    let cc = csrc_count(data);
    assert((0x80u8 | (if d0 & 0x20 > 0 { 0x20u8 } else { 0u8 }) | (if d0 & 0x10 > 0 {
        0x10u8
    } else {
        0u8
    }) | (d0 & 0x0F)) == d0) by (bit_vector)
        requires
            d0 & 0xC0 == 0x80,
    ;
    assert(((if d1 & 0x80 > 0 { 0x80u8 } else { 0u8 }) | (d1 & 0x7F)) == d1) by (bit_vector);
    lemma_be16_of_bytes(data[2], data[3]);
    lemma_be32_of_bytes(data, 4);
    lemma_be32_of_bytes(data, 8);
    lemma_csrc_bytes_of(data, cc as nat);
    let cb = match p.csrcs {
        Some(c) => csrc_bytes(c),
        None => Seq::empty(),
    };
    assert(cb =~= data.subrange(12, 12 + 4 * cc));
    assert(serialize_view(p) =~= data);
}

/// The number of bytes a serialized packet takes: the fixed 12, 4 per listed source,
/// 2 per extension field present, and the payload.
pub proof fn lemma_serialized_len(p: RtpPacketView)
    ensures
        serialize_view(p).len() == 12 + 4 * match p.csrcs {
            Some(c) => c.len(),
            None => 0,
        } + (if p.profile_specific_ext_hdr_id is Some { 2int } else { 0 }) + (if p.ext_hdr_len is Some {
            2int
        } else {
            0
        }) + p.payload.len(),
{
    match p.csrcs {
        Some(c) => lemma_csrc_bytes(c),
        None => {},
    }
}

/// Length of the RTP packet that an interleaved frame header announces: a frame starts
/// with `$` (0x24), a channel byte, and the packet length in 2 big-endian bytes. `None`
/// when the 4 bytes do not start a frame.
pub fn interleaved_frame_len(header: &[u8; 4]) -> (r: Option<u16>)
    ensures
        header@[0] == 0x24 ==> r == Some(be_u16(header@[2], header@[3])),
        header@[0] != 0x24 ==> r is None,
{
    if header[0] == 0x24 {
        Some((header[2] as u16) * 0x100 + (header[3] as u16))
    } else {
        None
    }
}

} // verus!
