use vstd::prelude::*;
use crate::checksums::{crc16_ibm_sdlc, checksum_x25};

verus! {

/// Number of bytes before the payload (the sync header).
pub const HEADER_LEN: usize = 4;

/// Number of bytes after the payload (the little-endian CRC-16).
pub const CRC_LEN: usize = 2;

/// The sync header `AA 55 AA 55` that starts every packet.
pub open spec fn packet_header() -> Seq<u8> {
    seq![0xAAu8, 0x55u8, 0xAAu8, 0x55u8]
}

/// A 16-bit value as two bytes, least significant first.
pub open spec fn u16_le(v: u16) -> Seq<u8> {
    seq![(v % 0x100) as u8, (v / 0x100) as u8]
}

/// The wire image of a packet carrying `payload`: header, payload, then the
/// CRC-16/IBM-SDLC of the payload in little-endian order.
pub open spec fn packet_frame(payload: Seq<u8>) -> Seq<u8> {
    packet_header() + payload + u16_le(crc16_ibm_sdlc(payload))
}

/// The payload part of a packet image with `payload_len` payload bytes.
pub open spec fn payload_of(bytes: Seq<u8>, payload_len: nat) -> Seq<u8> {
    bytes.subrange(HEADER_LEN as int, HEADER_LEN + payload_len)
}

/// The CRC part of a packet image with `payload_len` payload bytes.
pub open spec fn crc_of(bytes: Seq<u8>, payload_len: nat) -> Seq<u8> {
    bytes.subrange(HEADER_LEN + payload_len, HEADER_LEN + payload_len + CRC_LEN)
}

/// The stored CRC matches the payload.
pub open spec fn packet_intact(bytes: Seq<u8>, payload_len: nat) -> bool {
    crc_of(bytes, payload_len) == u16_le(crc16_ibm_sdlc(payload_of(bytes, payload_len)))
}

/// A framed packet: `[header: 4][payload][crc: 2]`, kept as raw bytes ready
/// to send over a UART.
pub struct Packet {
    bytes: Vec<u8>,
    payload_len: usize,
}

impl View for Packet {
    type V = Seq<u8>;

    closed spec fn view(&self) -> Seq<u8> {
        self.bytes@
    }
}

impl Packet {
    /// The byte image is exactly header, payload and CRC long.
    pub closed spec fn wf(&self) -> bool {
        &&& self.bytes@.len() == HEADER_LEN + self.payload_len + CRC_LEN
        &&& HEADER_LEN + self.payload_len + CRC_LEN <= usize::MAX
    }

    /// Number of payload bytes the packet carries.
    pub closed spec fn spec_payload_len(&self) -> nat {
        self.payload_len as nat
    }

    fn crc_bytes_of(crc: u16) -> (r: (u8, u8))
        ensures
            seq![r.0, r.1] == u16_le(crc),
    {
        ((crc % 0x100) as u8, (crc / 0x100) as u8)
    }

    /// Builds a packet around `info`, writing the header and the CRC.
    pub fn new(info: &[u8]) -> (r: Packet)
        requires
            info@.len() + HEADER_LEN + CRC_LEN <= usize::MAX,
        ensures
            r.wf(),
            r@ == packet_frame(info@),
            r.spec_payload_len() == info@.len(),
    {
        let n = info.len();
        let mut bytes: Vec<u8> = Vec::with_capacity(n + 6);
        bytes.push(0xAA);
        bytes.push(0x55);
        bytes.push(0xAA);
        bytes.push(0x55);
        let mut i: usize = 0;
        while i < n
            invariant
                n == info@.len(),
                i <= n,
                bytes@ =~= packet_header() + info@.take(i as int),
            decreases n - i,
        {
            bytes.push(info[i]);
            i += 1;
        }
        let crc = checksum_x25(info);
        let (lo, hi) = Self::crc_bytes_of(crc);
        bytes.push(lo);
        bytes.push(hi);
        assert(info@.take(n as int) =~= info@);
        assert(bytes@ =~= packet_frame(info@));
        Packet { bytes, payload_len: n }
    }

    /// Reuses the packet's storage: every byte, header included, becomes zero.
    pub fn into(self) -> (r: Packet)
        requires
            self.wf(),
        ensures
            r.wf(),
            r@ == Seq::new(self@.len(), |i: int| 0u8),
            r.spec_payload_len() == self.spec_payload_len(),
    {
        let mut bytes = self.bytes;
        let n = bytes.len();
        let mut i: usize = 0;
        while i < n
            invariant
                n == bytes@.len(),
                i <= n,
                forall|j: int| 0 <= j < i ==> bytes@[j] == 0u8,
            decreases n - i,
        {
            bytes.set(i, 0);
            i += 1;
        }
        assert(bytes@ =~= Seq::new(self@.len(), |i: int| 0u8));
        Packet { bytes, payload_len: self.payload_len }
    }

    /// Replaces the payload with `info` and recomputes the CRC; the header is
    /// left as it is.
    pub fn copy_bytes_into(&mut self, info: &[u8])
        requires
            old(self).wf(),
            info@.len() == old(self).spec_payload_len(),
        ensures
            final(self).wf(),
            final(self).spec_payload_len() == old(self).spec_payload_len(),
            final(self)@ == old(self)@.subrange(0, HEADER_LEN as int) + info@ + u16_le(
                crc16_ibm_sdlc(info@),
            ),
    {
        let n = self.payload_len;
        let ghost start = self.bytes@;
        let bytes = &mut self.bytes;
        let mut i: usize = 0;
        while i < n
            invariant
                n == info@.len(),
                bytes@.len() == n + 6,
                start.len() == n + 6,
                n + 6 <= usize::MAX,
                i <= n,
                bytes@.subrange(0, 4) == start.subrange(0, 4),
                forall|j: int| 0 <= j < i ==> bytes@[4 + j] == info@[j],
            decreases n - i,
        {
            bytes.set(4 + i, info[i]);
            i += 1;
            assert(bytes@.subrange(0, 4) =~= start.subrange(0, 4));
        }
        let crc = checksum_x25(info);
        let (lo, hi) = Self::crc_bytes_of(crc);
        bytes.set(4 + n, lo);
        bytes.set(5 + n, hi);
        assert(bytes@ =~= start.subrange(0, 4) + info@ + u16_le(crc16_ibm_sdlc(info@)));
    }

    /// Takes over a received byte buffer as a packet with `payload_len`
    /// payload bytes; `None` unless its length is exactly header, payload and
    /// CRC together.
    pub fn from_bytes(bytes: Vec<u8>, payload_len: usize) -> (r: Option<Packet>)
        ensures
            r is Some <==> bytes@.len() == HEADER_LEN + payload_len + CRC_LEN,
            r matches Some(p) ==> p.wf() && p@ == bytes@ && p.spec_payload_len() == payload_len,
    {
        let blen = bytes.len();
        if payload_len > usize::MAX - 6 || blen != payload_len + 6 {
            None
        } else {
            Some(Packet { bytes, payload_len })
        }
    }

    /// The four header bytes.
    pub fn header(&self) -> (r: [u8; 4])
        requires
            self.wf(),
        ensures
            r@ == self@.subrange(0, HEADER_LEN as int),
    {
        let r = [self.bytes[0], self.bytes[1], self.bytes[2], self.bytes[3]];
        assert(r@ =~= self@.subrange(0, 4));
        r
    }

    /// The two CRC bytes that follow the payload.
    pub fn crc(&self) -> (r: [u8; 2])
        requires
            self.wf(),
        ensures
            r@ == crc_of(self@, self.spec_payload_len()),
    {
        let n = self.payload_len;
        let r = [self.bytes[4 + n], self.bytes[5 + n]];
        assert(r@ =~= crc_of(self@, self.spec_payload_len()));
        r
    }

    /// Whether the stored CRC matches the payload.
    pub fn verify(&self) -> (r: bool)
        requires
            self.wf(),
        ensures
            r == packet_intact(self@, self.spec_payload_len()),
    {
        let payload = self.payload_bytes();
        let expected = checksum_x25(payload);
        let (lo, hi) = Self::crc_bytes_of(expected);
        let stored = self.crc();
        let r = lo == stored[0] && hi == stored[1];
        assert(r == (stored@ =~= seq![lo, hi]));
        r
    }

    /// The whole packet, ready to send as-is.
    pub fn as_bytes(&self) -> (r: &[u8])
        ensures
            r@ == self@,
    {
        self.bytes.as_slice()
    }

    /// Overwrites byte `i` of the packet image in place (header, payload or
    /// CRC alike); nothing is recomputed.
    pub fn set_byte(&mut self, i: usize, b: u8)
        requires
            old(self).wf(),
            i < old(self)@.len(),
        ensures
            final(self).wf(),
            final(self)@ == old(self)@.update(i as int, b),
            final(self).spec_payload_len() == old(self).spec_payload_len(),
    {
        self.bytes.set(i, b);
    }

    /// The payload bytes.
    pub fn payload_bytes(&self) -> (r: &[u8])
        requires
            self.wf(),
        ensures
            r@ == payload_of(self@, self.spec_payload_len()),
    {
        vstd::slice::slice_subrange(self.bytes.as_slice(), 4, 4 + self.payload_len)
    }

    /// Number of payload bytes.
    pub fn payload_len(&self) -> (r: usize)
        requires
            self.wf(),
        ensures
            r == self.spec_payload_len(),
            self@.len() == HEADER_LEN + r + CRC_LEN,
    {
        self.payload_len
    }
}

/// A freshly built packet starts with the header, carries exactly the given
/// payload and passes its own CRC check.
pub proof fn lemma_new_packet_is_intact(payload: Seq<u8>)
    ensures
        packet_frame(payload).subrange(0, HEADER_LEN as int) == packet_header(),
        payload_of(packet_frame(payload), payload.len()) == payload,
        packet_intact(packet_frame(payload), payload.len()),
{
    let f = packet_frame(payload);
    assert(f.subrange(0, 4) =~= packet_header());
    assert(payload_of(f, payload.len()) =~= payload);
    assert(crc_of(f, payload.len()) =~= u16_le(crc16_ibm_sdlc(payload)));
}

/// Refilling a packet's payload leaves it intact and carrying the new payload.
pub proof fn lemma_refill_is_intact(old_bytes: Seq<u8>, info: Seq<u8>)
    requires
        old_bytes.len() == HEADER_LEN + info.len() + CRC_LEN,
    ensures
        ({
            let b = old_bytes.subrange(0, HEADER_LEN as int) + info + u16_le(crc16_ibm_sdlc(info));
            payload_of(b, info.len()) == info && packet_intact(b, info.len())
        }),
{
    let b = old_bytes.subrange(0, 4) + info + u16_le(crc16_ibm_sdlc(info));
    assert(payload_of(b, info.len()) =~= info);
    assert(crc_of(b, info.len()) =~= u16_le(crc16_ibm_sdlc(info)));
}

/// A packet image is intact exactly when its two bytes after the payload are
/// the payload's CRC-16, low byte first and high byte second.
pub proof fn lemma_intact_iff_crc_bytes(bytes: Seq<u8>, payload_len: nat)
    requires
        bytes.len() == HEADER_LEN + payload_len + CRC_LEN,
    ensures
        packet_intact(bytes, payload_len) <==> ({
            let c = crc16_ibm_sdlc(bytes.subrange(4, 4 + payload_len as int));
            &&& bytes[4 + payload_len as int] as int == c as int % 256
            &&& bytes[5 + payload_len as int] as int == c as int / 256
        }),
{
    let c = crc16_ibm_sdlc(bytes.subrange(4, 4 + payload_len as int));
    let stored = crc_of(bytes, payload_len);
    assert(stored[0] == bytes[4 + payload_len as int]);
    assert(stored[1] == bytes[5 + payload_len as int]);
    if bytes[4 + payload_len as int] as int == c as int % 256 && bytes[5 + payload_len as int] as int == c as int / 256 {
        assert(stored =~= u16_le(c));
    }
}

/// Changing either CRC byte of an intact packet makes it fail its check: a
/// packet with one corrupted CRC byte is never accepted.
pub proof fn lemma_corrupted_crc_byte_fails(bytes: Seq<u8>, payload_len: nat, i: int, b: u8)
    requires
        bytes.len() == HEADER_LEN + payload_len + CRC_LEN,
        packet_intact(bytes, payload_len),
        i == HEADER_LEN + payload_len || i == HEADER_LEN + payload_len + 1,
        b != bytes[i],
    ensures
        !packet_intact(bytes.update(i, b), payload_len),
{
    let nb = bytes.update(i, b);
    lemma_intact_iff_crc_bytes(bytes, payload_len);
    lemma_intact_iff_crc_bytes(nb, payload_len);
    assert(nb.subrange(4, 4 + payload_len as int) =~= bytes.subrange(4, 4 + payload_len as int));
}

} // verus!
