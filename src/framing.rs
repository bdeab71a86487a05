//! Ledger-style HID transport framing: application messages (APDUs) are split
//! into fixed-size packets carrying a channel, a tag and a sequence index, and
//! reassembled from them.
use vstd::prelude::*;

verus! {

/// Channel identifier of every packet.
pub const LEDGER_HID_CHANNEL: u16 = 0x0101;

/// Tag marking HID-transport framing.
pub const LEDGER_HID_TAG: u8 = 0x05;

/// Size of one HID packet.
pub const LEDGER_PACKET_SIZE: usize = 64;

/// Channel (2 bytes), tag (1 byte) and sequence index (2 bytes).
pub const HEADER_LEN: usize = 5;

/// Bytes of the length-prefixed message carried by one packet.
pub const CHUNK_LEN: usize = 59;

/// Largest message whose length fits the two-byte length field.
pub const MAX_FRAMED_LEN: usize = 0xffff;

/// A two-byte big-endian number.
pub open spec fn be16(hi: u8, lo: u8) -> nat {
    hi as nat * 256 + lo as nat
}

/// The two big-endian bytes of `n` (for `n < 65536`).
pub open spec fn be16_bytes(n: nat) -> Seq<u8> {
    seq![(n / 256) as u8, (n % 256) as u8]
}

/// The message with its length in front, as two big-endian bytes.
pub open spec fn framed(m: Seq<u8>) -> Seq<u8> {
    be16_bytes(m.len()) + m
}

/// Number of packets that carry a message of `len` bytes: the length prefix
/// and the message, in chunks of `CHUNK_LEN` bytes.
pub open spec fn packet_count(len: nat) -> nat {
    ((len + 2 + 58) / 59) as nat
}

/// Channel, tag and sequence index of packet `idx`.
pub open spec fn header(idx: nat) -> Seq<u8> {
    be16_bytes(0x0101) + seq![0x05u8] + be16_bytes(idx)
}

/// Chunk `i` of the length-prefixed message, padded with zeros.
pub open spec fn chunk(m: Seq<u8>, i: nat) -> Seq<u8> {
    Seq::new(
        59,
        |j: int| if 59 * i + j < framed(m).len() { framed(m)[59 * i + j] } else { 0u8 },
    )
}

/// Packet `i` of the encoding of `m`.
pub open spec fn packet(m: Seq<u8>, i: nat) -> Seq<u8> {
    header(i) + chunk(m, i)
}

/// The packets that carry `m`, in order.
pub open spec fn encoding(m: Seq<u8>) -> Seq<Seq<u8>> {
    Seq::new(packet_count(m.len()), |i: int| packet(m, i as nat))
}

/// The contents of each packet.
pub open spec fn views(ps: Seq<Vec<u8>>) -> Seq<Seq<u8>> {
    ps.map_values(|p: Vec<u8>| p@)
}

/// Splits `apdu` into HID packets of `LEDGER_PACKET_SIZE` bytes each.
pub fn encode_apdu(apdu: &[u8]) -> (packets: Vec<Vec<u8>>)
    requires
        apdu@.len() <= MAX_FRAMED_LEN,
    ensures
        views(packets@) == encoding(apdu@),
        packets@.len() == packet_count(apdu@.len()),
        packets@.len() >= 1,
        forall|i: int| 0 <= i < packets@.len() ==> packets@[i]@.len() == LEDGER_PACKET_SIZE,
{
    let len = apdu.len();
    let mut prefixed: Vec<u8> = Vec::with_capacity(len + 2);
    prefixed.push((len / 256) as u8);
    prefixed.push((len % 256) as u8);
    let mut k: usize = 0;
    while k < len
        invariant
            k <= len,
            len == apdu@.len(),
            prefixed@ == be16_bytes(len as nat) + apdu@.take(k as int),
        decreases len - k,
    {
        prefixed.push(apdu[k]);
        k += 1;
        assert(apdu@.take(k as int) =~= apdu@.take(k - 1) + seq![apdu@[k - 1]]);
    }
    assert(apdu@.take(len as int) =~= apdu@);
    assert(prefixed@ == framed(apdu@));
    let count: usize = (len + 2 + 58) / 59;
    let mut packets: Vec<Vec<u8>> = Vec::new();
    let mut i: usize = 0;
    while i < count
        invariant
            i <= count,
            count == packet_count(apdu@.len()),
            count <= 1112,
            prefixed@ == framed(apdu@),
            packets@.len() == i,
            forall|q: int| 0 <= q < i ==> packets@[q]@ == packet(apdu@, q as nat),
        decreases count - i,
    {
        let mut p: Vec<u8> = Vec::with_capacity(LEDGER_PACKET_SIZE);
        p.push((LEDGER_HID_CHANNEL / 256) as u8);
        p.push((LEDGER_HID_CHANNEL % 256) as u8);
        p.push(LEDGER_HID_TAG);
        p.push((i / 256) as u8);
        p.push((i % 256) as u8);
        assert(p@ =~= header(i as nat));
        let mut j: usize = 0;
        while j < CHUNK_LEN
            invariant
                j <= CHUNK_LEN,
                i < count,
                count <= 1112,
                prefixed@ == framed(apdu@),
                p@ == header(i as nat) + chunk(apdu@, i as nat).take(j as int),
            decreases CHUNK_LEN - j,
        {
            let at: usize = CHUNK_LEN * i + j;
            if at < prefixed.len() {
                p.push(prefixed[at]);
            } else {
                p.push(0);
            }
            j += 1;
            assert(chunk(apdu@, i as nat).take(j as int) =~= chunk(apdu@, i as nat).take(j - 1)
                + seq![chunk(apdu@, i as nat)[j - 1]]);
        }
        assert(chunk(apdu@, i as nat).take(59) =~= chunk(apdu@, i as nat));
        packets.push(p);
        i += 1;
    }
    assert(views(packets@) =~= encoding(apdu@));
    packets
}


/// Why a packet ended an assembly.
#[derive(Clone, Copy, Debug, PartialEq, Eq, Structural)]
pub enum FrameError {
    /// Too short for its header (or for the length field of the first packet).
    Truncated,
    /// The channel is not `LEDGER_HID_CHANNEL`.
    WrongChannel,
    /// The tag is not `LEDGER_HID_TAG`.
    WrongTag,
    /// The sequence index is not the one expected next.
    OutOfSequence,
    /// The sequence index would pass the largest two-byte value.
    TooManyPackets,
}

/// What one packet did to an assembly.
#[derive(Debug, PartialEq, Eq)]
pub enum Feed {
    /// More packets are needed.
    Incomplete,
    /// The message is complete.
    Complete(Vec<u8>),
    /// The packet broke the framing; the assembly was abandoned.
    Rejected(FrameError),
}

/// `Feed` with the message as a sequence of bytes.
pub ghost enum FeedView {
    Incomplete,
    Complete(Seq<u8>),
    Rejected(FrameError),
}

impl View for Feed {
    type V = FeedView;

    open spec fn view(&self) -> FeedView {
        match self {
            Feed::Incomplete => FeedView::Incomplete,
            Feed::Complete(m) => FeedView::Complete(m@),
            Feed::Rejected(e) => FeedView::Rejected(*e),
        }
    }
}

/// The state of one assembly: the announced length, the sequence index
/// expected next and the bytes gathered so far.
pub ghost struct DecoderState {
    pub expected: nat,
    pub next_seq: nat,
    pub buffer: Seq<u8>,
}

/// The state before the first packet of a message.
pub open spec fn fresh_state() -> DecoderState {
    DecoderState { expected: 0, next_seq: 0, buffer: Seq::empty() }
}

pub open spec fn packet_channel(p: Seq<u8>) -> nat {
    be16(p[0], p[1])
}

pub open spec fn packet_tag(p: Seq<u8>) -> u8 {
    p[2]
}

pub open spec fn packet_seq(p: Seq<u8>) -> nat {
    be16(p[3], p[4])
}

/// Where the payload of a packet starts: after the length field on the first
/// packet, after the header on the others.
pub open spec fn payload_start(first: bool) -> int {
    if first { 7 } else { 5 }
}

/// One packet fed to an assembly in state `d`: the next state and the outcome.
/// A rejected or completed assembly leaves the fresh state behind.
pub open spec fn feed_spec(d: DecoderState, p: Seq<u8>) -> (DecoderState, FeedView) {
    if p.len() < 5 {
        (fresh_state(), FeedView::Rejected(FrameError::Truncated))
    } else if packet_channel(p) != 0x0101 {
        (fresh_state(), FeedView::Rejected(FrameError::WrongChannel))
    } else if packet_tag(p) != 0x05 {
        (fresh_state(), FeedView::Rejected(FrameError::WrongTag))
    } else if packet_seq(p) != d.next_seq {
        (fresh_state(), FeedView::Rejected(FrameError::OutOfSequence))
    } else if d.next_seq == 0 && p.len() < 7 {
        (fresh_state(), FeedView::Rejected(FrameError::Truncated))
    } else {
        let first = d.next_seq == 0;
        let expected = if first { be16(p[5], p[6]) } else { d.expected };
        let payload = p.subrange(payload_start(first), p.len() as int);
        let needed = expected - d.buffer.len();
        let take = if payload.len() < needed { payload.len() as int } else { needed };
        let buffer = d.buffer + payload.take(take);
        if buffer.len() >= expected {
            (fresh_state(), FeedView::Complete(buffer))
        } else if d.next_seq >= 0xffff {
            (fresh_state(), FeedView::Rejected(FrameError::TooManyPackets))
        } else {
            (DecoderState { expected, next_seq: d.next_seq + 1, buffer }, FeedView::Incomplete)
        }
    }
}

/// Reassembles one message from HID packets fed one at a time.
pub struct ApduDecoder {
    expected_len: usize,
    next_seq: u16,
    buffer: Vec<u8>,
}

impl View for ApduDecoder {
    type V = DecoderState;

    closed spec fn view(&self) -> DecoderState {
        DecoderState {
            expected: self.expected_len as nat,
            next_seq: self.next_seq as nat,
            buffer: self.buffer@,
        }
    }
}

/// A state that some run of packets from the fresh state can reach: nothing
/// gathered before the first packet, and less than announced after it.
pub open spec fn state_wf(d: DecoderState) -> bool {
    &&& d.next_seq <= 0xffff
    &&& d.expected <= 0xffff
    &&& d.next_seq == 0 ==> d.buffer.len() == 0 && d.expected == 0
    &&& d.next_seq > 0 ==> d.buffer.len() < d.expected
}

impl ApduDecoder {
    pub open spec fn wf(&self) -> bool {
        state_wf(self@)
    }

    /// An assembly that expects the first packet of a message.
    pub fn new() -> (d: ApduDecoder)
        ensures
            d@ == fresh_state(),
            d.wf(),
    {
        let d = ApduDecoder { expected_len: 0, next_seq: 0, buffer: Vec::new() };
        assert(d@.buffer =~= Seq::<u8>::empty());
        d
    }

    /// Feeds one packet: checks its channel, tag and sequence index, gathers
    /// its payload, and reports whether the message is complete.
    pub fn feed(&mut self, packet: &[u8]) -> (r: Feed)
        requires
            old(self).wf(),
        ensures
            final(self).wf(),
            (final(self)@, r@) == feed_spec(old(self)@, packet@),
    {
        let plen = packet.len();
        if plen < HEADER_LEN {
            *self = ApduDecoder::new();
            return Feed::Rejected(FrameError::Truncated);
        }
        let chan: u16 = packet[0] as u16 * 256 + packet[1] as u16;
        let tag: u8 = packet[2];
        let seq_idx: u16 = packet[3] as u16 * 256 + packet[4] as u16;
        if chan != LEDGER_HID_CHANNEL {
            *self = ApduDecoder::new();
            return Feed::Rejected(FrameError::WrongChannel);
        }
        if tag != LEDGER_HID_TAG {
            *self = ApduDecoder::new();
            return Feed::Rejected(FrameError::WrongTag);
        }
        if seq_idx != self.next_seq {
            *self = ApduDecoder::new();
            return Feed::Rejected(FrameError::OutOfSequence);
        }
        let first = seq_idx == 0;
        let mut start: usize = HEADER_LEN;
        if first {
            if plen < HEADER_LEN + 2 {
                *self = ApduDecoder::new();
                return Feed::Rejected(FrameError::Truncated);
            }
            self.expected_len = packet[5] as usize * 256 + packet[6] as usize;
            start = HEADER_LEN + 2;
        }
        let ghost payload = packet@.subrange(start as int, plen as int);
        let ghost old_buf = self.buffer@;
        let ghost exp = self.expected_len;
        assert(exp as nat == if first { be16(packet@[5], packet@[6]) } else { old(self)@.expected });
        assert(old_buf == old(self)@.buffer);
        let available: usize = plen - start;
        let needed: usize = self.expected_len - self.buffer.len();
        let take: usize = if available < needed { available } else { needed };
        let mut k: usize = 0;
        while k < take
            invariant
                k <= take,
                take <= available,
                available == plen - start,
                plen == packet@.len(),
                start <= plen,
                payload == packet@.subrange(start as int, plen as int),
                self.buffer@ == old_buf + payload.take(k as int),
                self.expected_len == exp,
                self.next_seq == old(self).next_seq,
                old_buf.len() + take <= self.expected_len,
                self.expected_len <= 0xffff,
            decreases take - k,
        {
            self.buffer.push(packet[start + k]);
            k += 1;
            assert(payload.take(k as int) =~= payload.take(k - 1) + seq![payload[k - 1]]);
        }
        assert(payload.len() == available);
        if self.buffer.len() >= self.expected_len {
            let mut msg: Vec<u8> = Vec::new();
            std::mem::swap(&mut msg, &mut self.buffer);
            *self = ApduDecoder::new();
            return Feed::Complete(msg);
        }
        if self.next_seq == 0xffff {
            *self = ApduDecoder::new();
            return Feed::Rejected(FrameError::TooManyPackets);
        }
        self.next_seq = self.next_seq + 1;
        Feed::Incomplete
    }
}


/// The outcome of feeding `ps` in order from state `d`: that of the first
/// packet that completes or breaks the assembly, or `Incomplete` when none does.
pub open spec fn decode_from(d: DecoderState, ps: Seq<Seq<u8>>) -> FeedView
    decreases ps.len(),
{
    if ps.len() == 0 {
        FeedView::Incomplete
    } else {
        let (d1, o) = feed_spec(d, ps[0]);
        match o {
            FeedView::Incomplete => decode_from(d1, ps.drop_first()),
            _ => o,
        }
    }
}

/// Reassembles one message from `packets`, fed in order to a fresh assembly.
/// Stops at the first packet that completes or breaks it; packets after that
/// one are not read.
pub fn decode_packets(packets: &Vec<Vec<u8>>) -> (r: Feed)
    ensures
        r@ == decode_from(fresh_state(), views(packets@)),
{
    let mut d = ApduDecoder::new();
    let mut i: usize = 0;
    let ghost all = views(packets@);
    assert(all.skip(0) =~= all);
    while i < packets.len()
        invariant
            i <= packets@.len(),
            all == views(packets@),
            d.wf(),
            decode_from(fresh_state(), all) == decode_from(d@, all.skip(i as int)),
        decreases packets@.len() - i,
    {
        assert(all.skip(i as int)[0] == packets@[i as int]@);
        assert(all.skip(i as int).drop_first() =~= all.skip(i + 1));
        let r = d.feed(packets[i].as_slice());
        match r {
            Feed::Incomplete => {},
            _ => {
                return r;
            },
        }
        i += 1;
    }
    Feed::Incomplete
}

proof fn lemma_be16_round_trip(n: nat)
    requires
        n < 65536,
    ensures
        be16(be16_bytes(n)[0], be16_bytes(n)[1]) == n,
{
    assert(n / 256 < 256) by (nonlinear_arith)
        requires
            n < 65536,
    ;
    assert((n / 256) * 256 + n % 256 == n) by (nonlinear_arith);
}

/// Facts on the number of packets: `59 * (count - 1) < len + 2 <= 59 * count`.
proof fn lemma_packet_count(len: nat)
    requires
        len <= 0xffff,
    ensures
        packet_count(len) >= 1,
        packet_count(len) <= 1112,
        59 * (packet_count(len) - 1) < len + 2,
        len + 2 <= 59 * packet_count(len),
{
    let n = packet_count(len);
    assert(n == (len + 60) / 59);
    assert(59 * ((len + 60) / 59) <= len + 60 < 59 * ((len + 60) / 59) + 59) by (nonlinear_arith);
}

/// The state of the assembly after packets `0 .. k` of the encoding of `m`.
pub open spec fn state_after(m: Seq<u8>, k: nat) -> DecoderState {
    DecoderState { expected: m.len(), next_seq: k, buffer: m.take(59 * k - 2) }
}

proof fn lemma_header(m: Seq<u8>, k: nat)
    requires
        m.len() <= 0xffff,
        k < packet_count(m.len()),
    ensures
        packet(m, k).len() == 64,
        packet_channel(packet(m, k)) == 0x0101,
        packet_tag(packet(m, k)) == 0x05,
        packet_seq(packet(m, k)) == k,
{
    lemma_packet_count(m.len());
    lemma_be16_round_trip(0x0101);
    lemma_be16_round_trip(k);
    let p = packet(m, k);
    assert(p[0] == be16_bytes(0x0101)[0]);
    assert(p[1] == be16_bytes(0x0101)[1]);
    assert(p[3] == be16_bytes(k)[0]);
    assert(p[4] == be16_bytes(k)[1]);
}

/// The first packet of the encoding of `m`.
proof fn lemma_feed_first(m: Seq<u8>)
    requires
        m.len() <= 0xffff,
    ensures
        packet_count(m.len()) == 1 ==> feed_spec(fresh_state(), packet(m, 0)) == (
        fresh_state(),
        FeedView::Complete(m),
        ),
        packet_count(m.len()) > 1 ==> feed_spec(fresh_state(), packet(m, 0)) == (
        state_after(m, 1),
        FeedView::Incomplete,
        ),
{
    let len = m.len();
    let p = packet(m, 0);
    lemma_packet_count(len);
    lemma_header(m, 0);
    lemma_be16_round_trip(len);
    assert(p[5] == framed(m)[0]);
    assert(p[6] == framed(m)[1]);
    let payload = p.subrange(7, 64);
    let take: int = if 57 < len { 57 } else { len as int };
    assert forall|j: int| 0 <= j < take implies payload[j] == m[j] by {
        assert(payload[j] == p[7 + j]);
        assert(p[7 + j] == chunk(m, 0)[2 + j]);
        assert(framed(m)[2 + j] == m[j]);
    }
    let buffer = Seq::<u8>::empty() + payload.take(take);
    assert(buffer =~= m.take(take));
    if len <= 57 {
        assert(m.take(take) =~= m);
    } else {
        assert(take == 59 * 1 - 2);
    }
}

/// Packet `k > 0` of the encoding of `m`, fed after packets `0 .. k`.
proof fn lemma_feed_next(m: Seq<u8>, k: nat)
    requires
        m.len() <= 0xffff,
        1 <= k < packet_count(m.len()),
    ensures
        k + 1 == packet_count(m.len()) ==> feed_spec(state_after(m, k), packet(m, k)) == (
        fresh_state(),
        FeedView::Complete(m),
        ),
        k + 1 < packet_count(m.len()) ==> feed_spec(state_after(m, k), packet(m, k)) == (
        state_after(m, k + 1),
        FeedView::Incomplete,
        ),
{
    let len = m.len();
    let n = packet_count(len);
    let p = packet(m, k);
    let d = state_after(m, k);
    lemma_packet_count(len);
    lemma_header(m, k);
    assert(59 * k - 2 < len) by (nonlinear_arith)
        requires
            59 * (n - 1) < len + 2,
            k <= n - 1,
    ;
    assert(d.buffer.len() == 59 * k - 2);
    let payload = p.subrange(5, 64);
    let needed: int = len - (59 * k - 2);
    let take: int = if 59 < needed { 59 } else { needed };
    assert forall|j: int| 0 <= j < take implies payload[j] == m[59 * k - 2 + j] by {
        assert(payload[j] == p[5 + j]);
        assert(p[5 + j] == chunk(m, k)[j]);
        assert(framed(m)[59 * k + j] == m[59 * k + j - 2]);
    }
    let buffer = d.buffer + payload.take(take);
    assert(buffer =~= m.take(59 * k - 2 + take));
    if k + 1 == n {
        assert(needed <= 59) by (nonlinear_arith)
            requires
                len + 2 <= 59 * n,
                k + 1 == n,
                needed == len - (59 * k - 2),
        ;
        assert(m.take(59 * k - 2 + take) =~= m);
    } else {
        assert(needed > 59) by (nonlinear_arith)
            requires
                59 * (n - 1) < len + 2,
                k + 1 < n,
                needed == len - (59 * k - 2),
        ;
        assert(59 * k - 2 + 59 == 59 * (k + 1) - 2);
    }
}

proof fn lemma_decode_rest(m: Seq<u8>, k: nat)
    requires
        m.len() <= 0xffff,
        1 <= k < packet_count(m.len()),
    ensures
        decode_from(state_after(m, k), encoding(m).skip(k as int)) == FeedView::Complete(m),
    decreases packet_count(m.len()) - k,
{
    let rest = encoding(m).skip(k as int);
    assert(rest[0] == packet(m, k));
    lemma_feed_next(m, k);
    if k + 1 < packet_count(m.len()) {
        assert(rest.drop_first() =~= encoding(m).skip((k + 1) as int));
        lemma_decode_rest(m, k + 1);
    }
}

/// Decoding the encoding of a message gives the message back: every packet
/// but the last leaves the assembly incomplete, and the last completes it.
pub proof fn lemma_round_trip(m: Seq<u8>)
    requires
        m.len() <= MAX_FRAMED_LEN,
    ensures
        decode_from(fresh_state(), encoding(m)) == FeedView::Complete(m),
{
    let e = encoding(m);
    lemma_packet_count(m.len());
    assert(e[0] == packet(m, 0));
    lemma_feed_first(m);
    if packet_count(m.len()) > 1 {
        assert(e.drop_first() =~= e.skip(1));
        lemma_decode_rest(m, 1);
    }
}


/// A packet with another channel or tag is rejected, whatever its sequence
/// index, and the assembly starts over.
pub proof fn lemma_wrong_channel_or_tag_rejected(d: DecoderState, p: Seq<u8>)
    requires
        p.len() >= HEADER_LEN,
        packet_channel(p) != LEDGER_HID_CHANNEL || packet_tag(p) != LEDGER_HID_TAG,
    ensures
        feed_spec(d, p) == (
        fresh_state(),
        FeedView::Rejected(
            if packet_channel(p) != LEDGER_HID_CHANNEL {
                FrameError::WrongChannel
            } else {
                FrameError::WrongTag
            },
        ),
        ),
{
}

/// A packet whose sequence index is not the one expected next is rejected,
/// and the assembly starts over.
pub proof fn lemma_out_of_sequence_rejected(d: DecoderState, p: Seq<u8>)
    requires
        p.len() >= HEADER_LEN,
        packet_seq(p) != d.next_seq,
    ensures
        feed_spec(d, p).0 == fresh_state(),
        feed_spec(d, p).1 is Rejected,
{
}

/// When the first packet of a message that needs more than one packet is
/// followed by a packet with any index but 1, decoding fails: no partial
/// message comes out.
pub proof fn lemma_skipped_index_fails(m: Seq<u8>, p: Seq<u8>)
    requires
        m.len() <= MAX_FRAMED_LEN,
        packet_count(m.len()) > 1,
        p.len() >= HEADER_LEN,
        packet_seq(p) != 1,
    ensures
        decode_from(fresh_state(), seq![packet(m, 0), p]) is Rejected,
{
    let ps = seq![packet(m, 0), p];
    lemma_feed_first(m);
    assert(ps.drop_first() =~= seq![p]);
    assert(seq![p].drop_first() =~= Seq::<Seq<u8>>::empty());
    assert(ps[0] == packet(m, 0));
    assert(seq![p][0] == p);
    assert(feed_spec(state_after(m, 1), p).1 is Rejected);
    assert(decode_from(state_after(m, 1), seq![p]) is Rejected);
}

} // verus!
