//! GSM 07.10 basic-option frame multiplexer: CRC-8 frame check sequence and
//! frame assembly for a multiplexed serial channel.

use vstd::prelude::*;

verus! {

/// One bit round of the reflected CRC-8 with polynomial x^8 + x^2 + x + 1
/// (reversed representation 0xE0), the checksum of GSM 07.10 frames.
pub open spec fn crc8_round(x: u8) -> u8 {
    if x & 1 == 1 {
        (x >> 1) ^ 0xE0
    } else {
        x >> 1
    }
}

/// `n` bit rounds applied to `x`.
pub open spec fn crc8_rounds(x: u8, n: nat) -> u8
    decreases n,
{
    if n == 0 {
        x
    } else {
        crc8_round(crc8_rounds(x, (n - 1) as nat))
    }
}

/// Folding one input byte into the running value; equals the classic table
/// lookup `table[c ^ b]`.
pub open spec fn crc8_update(c: u8, b: u8) -> u8 {
    crc8_rounds(c ^ b, 8)
}

/// CRC-8 over a byte sequence, seeded at 0xFF.
pub open spec fn crc8(data: Seq<u8>) -> u8
    decreases data.len(),
{
    if data.len() == 0 {
        0xFF
    } else {
        crc8_update(crc8(data.drop_last()), data.last())
    }
}

/// The frame check sequence: the bitwise complement of the CRC.
pub open spec fn spec_fcs(data: Seq<u8>) -> u8 {
    !crc8(data)
}

fn crc_byte(c: u8, b: u8) -> (r: u8)
    ensures
        r == crc8_update(c, b),
{
    let mut x: u8 = c ^ b;
    let mut j: usize = 0;
    while j < 8
        invariant
            j <= 8,
            x == crc8_rounds((c ^ b) as u8, j as nat),
        decreases 8 - j,
    {
        if x & 1 == 1 {
            x = (x >> 1) ^ 0xE0;
        } else {
            x = x >> 1;
        }
        j += 1;
    }
    x
}

/// CRC-8 of `data`, computed a byte at a time.
pub fn crc(data: &[u8]) -> (r: u8)
    ensures
        r == crc8(data@),
{
    let mut c: u8 = 0xff;
    let mut i: usize = 0;
    while i < data.len()
        invariant
            i <= data@.len(),
            c == crc8(data@.take(i as int)),
        decreases data@.len() - i,
    {
        let b = data[i];
        proof {
            assert(data@.take(i + 1).drop_last() =~= data@.take(i as int));
            assert(data@.take(i + 1).last() == data@[i as int]);
        }
        c = crc_byte(c, b);
        i += 1;
    }
    proof {
        assert(data@.take(data@.len() as int) =~= data@);
    }
    c
}

/// Frame check sequence of `data`: `!crc(data)`.
pub fn fcs(data: &[u8]) -> (r: u8)
    ensures
        r == spec_fcs(data@),
{
    !crc(data)
}

proof fn lemma_crc8_rounds_ff()
    ensures
        crc8_rounds(0xFF, 8) == 0xCF,
{
    assert((0xFFu8 & 1) == 1 && ((0xFFu8 >> 1) ^ 0xE0) == 0x9F && (0x9Fu8 & 1) == 1 && ((0x9Fu8
        >> 1) ^ 0xE0) == 0xAF && (0xAFu8 & 1) == 1 && ((0xAFu8 >> 1) ^ 0xE0) == 0xB7 && (0xB7u8
        & 1) == 1 && ((0xB7u8 >> 1) ^ 0xE0) == 0xBB && (0xBBu8 & 1) == 1 && ((0xBBu8 >> 1)
        ^ 0xE0) == 0xBD && (0xBDu8 & 1) == 1 && ((0xBDu8 >> 1) ^ 0xE0) == 0xBE && (0xBEu8 & 1)
        == 0 && (0xBEu8 >> 1) == 0x5F && (0x5Fu8 & 1) == 1 && ((0x5Fu8 >> 1) ^ 0xE0) == 0xCF)
        by (bit_vector);
    assert(crc8_rounds(0xFF, 0) == 0xFF);
    assert(crc8_rounds(0xFF, 1) == 0x9F);
    assert(crc8_rounds(0xFF, 2) == 0xAF);
    assert(crc8_rounds(0xFF, 3) == 0xB7);
    assert(crc8_rounds(0xFF, 4) == 0xBB);
    assert(crc8_rounds(0xFF, 5) == 0xBD);
    assert(crc8_rounds(0xFF, 6) == 0xBE);
    assert(crc8_rounds(0xFF, 7) == 0x5F);
    assert(crc8_rounds(0xFF, 8) == 0xCF);
}

/// Law: recomputing the CRC over the checked bytes followed by their FCS
/// always yields the fixed residue 0xCF, whatever the bytes are. This is the
/// standard CRC self-check a receiver uses to validate a frame header.
pub proof fn lemma_fcs_residue(header: Seq<u8>)
    ensures
        crc8(header.push(spec_fcs(header))) == 0xCF,
{
    let c = crc8(header);
    let f = spec_fcs(header);
    assert(header.push(f).drop_last() =~= header);
    assert(header.push(f).last() == f);
    assert(c ^ !c == 0xFF) by (bit_vector);
    lemma_crc8_rounds_ff();
}

/// The command/response bit is set when this endpoint asserts a command as
/// the initiator, or answers as the non-initiator.
pub open spec fn spec_cr_bit(initiator: bool, cmd: bool) -> bool {
    initiator && cmd || !initiator && !cmd
}

/// The address octet: channel number above the extension bit, with the
/// command/response bit when asserted.
pub open spec fn spec_address_byte(channel: u8, cr: bool) -> u8 {
    if cr {
        ((channel << 2) | 1) | 2
    } else {
        (channel << 2) | 1
    }
}

/// The length field: one octet with the extension bit set when the payload
/// fits seven bits, else two octets carrying the low seven bits (extension
/// bit clear) and the remaining bits.
pub open spec fn spec_length_field(len: nat) -> Seq<u8>
    recommends
        len < 32768,
{
    if len <= 127 {
        seq![((len as u8) << 1) | 1]
    } else {
        seq![((len % 128) as u8) << 1, (len / 128) as u8]
    }
}

/// The checked header: address, control and length octets.
pub open spec fn spec_frame_header(channel: u8, control: u8, cr: bool, len: nat) -> Seq<u8> {
    seq![spec_address_byte(channel, cr), control] + spec_length_field(len)
}

/// A whole basic-option frame: flag, header, payload, FCS over the header,
/// closing flag.
pub open spec fn spec_frame(channel: u8, control: u8, cr: bool, data: Seq<u8>) -> Seq<u8> {
    seq![249u8] + spec_frame_header(channel, control, cr, data.len()) + data + seq![
        spec_fcs(spec_frame_header(channel, control, cr, data.len())),
        249u8,
    ]
}

/// Law: the one-octet length form is used exactly up to 127 bytes of
/// payload, extension bit set and the length above it; from 128 the
/// two-octet form carries the low seven bits in the first octet with the
/// extension bit clear and the remaining bits in the second.
pub proof fn lemma_length_field_forms(len: nat)
    requires
        len < 32768,
    ensures
        len <= 127 ==> spec_length_field(len).len() == 1 && spec_length_field(len)[0] & 1 == 1
            && spec_length_field(len)[0] >> 1 == len,
        len > 127 ==> spec_length_field(len).len() == 2 && spec_length_field(len)[0] & 1 == 0
            && (spec_length_field(len)[0] >> 1) + 128 * spec_length_field(len)[1] == len,
{
    if len <= 127 {
        let x = len as u8;
        assert(x <= 127 ==> ((x << 1) | 1) & 1 == 1 && ((x << 1) | 1) >> 1 == x) by (bit_vector);
    } else {
        let y = (len % 128) as u8;
        let z = (len / 128) as u8;
        assert(y <= 127 ==> (y << 1) & 1 == 0 && (y << 1) >> 1 == y) by (bit_vector);
        assert(len % 128 + 128 * (len / 128) == len) by (nonlinear_arith);
        assert(len / 128 < 256) by (nonlinear_arith)
            requires
                len < 32768,
        ;
    }
}

/// Law: the self-check holds of every frame header this multiplexer can
/// emit: the CRC over address, control and length octets followed by the
/// frame's FCS is the fixed residue.
pub proof fn lemma_frame_self_check(channel: u8, control: u8, cr: bool, data: Seq<u8>)
    ensures
        crc8(
            spec_frame_header(channel, control, cr, data.len()).push(
                spec_fcs(spec_frame_header(channel, control, cr, data.len())),
            ),
        ) == 0xCF,
{
    lemma_fcs_residue(spec_frame_header(channel, control, cr, data.len()));
}

/// The multiplexer's end of the link: its data channel and whether it
/// opened the link.
pub struct Muxer {
    pub channel: isize,
    pub initiator: bool,
}

impl Muxer {
    /// A multiplexer on data channel 1 that opened the link.
    pub fn new() -> (r: Muxer)
        ensures
            r.channel == 1,
            r.initiator,
    {
        Muxer { channel: 1, initiator: true }
    }

    /// Builds one basic-option frame carrying `data` on `channel` with the
    /// given control octet; `cmd` says whether this frame asserts a command.
    pub fn frame(&self, channel: u8, control: u8, cmd: bool, data: &[u8]) -> (r: Vec<u8>)
        requires
            channel < 64,
            data@.len() < 32768,
        ensures
            r@ == spec_frame(channel, control, spec_cr_bit(self.initiator, cmd), data@),
    {
        let ghost cr = spec_cr_bit(self.initiator, cmd);
        let mut header: Vec<u8> = Vec::new();
        let mut addr: u8 = (channel << 2) | 1;
        if self.initiator && cmd || !self.initiator && !cmd {
            addr = addr | 2;
        }
        proof {
            assert(addr == spec_address_byte(channel, cr));
        }
        header.push(addr);
        header.push(control);
        if data.len() <= 127 {
            header.push(((data.len() as u8) << 1) | 1);
        } else {
            header.push(((data.len() % 128) as u8) << 1);
            header.push((data.len() / 128) as u8);
        }
        proof {
            assert(header@ =~= spec_frame_header(channel, control, cr, data@.len()));
        }
        let f = fcs(header.as_slice());
        let mut out: Vec<u8> = Vec::new();
        out.push(249);
        crate::bytes::push_all(&mut out, header.as_slice());
        crate::bytes::push_all(&mut out, data);
        out.push(f);
        out.push(249);
        proof {
            assert(out@ =~= spec_frame(channel, control, cr, data@));
        }
        out
    }
}

} // verus!
