//! The packet codec: length-prefixed frames, the datagram header and the
//! compression envelope.

use vstd::prelude::*;

use crate::error::ServerError;
use crate::text::{ascii, has_prefix, push_bytes, push_str, starts_with, to_vec, views};

verus! {

/// Payloads longer than this many bytes travel compressed.
pub const COMPRESS_ABOVE: usize = 400;

/// The room given to one compressed or decompressed payload.
pub const STREAM_LIMIT: usize = 100000;

/// The largest datagram payload.
pub const MAX_DATAGRAM: usize = 4096;

/// The four bytes of `n` as a little-endian 32-bit number.
pub open spec fn le32(n: nat) -> Seq<u8> {
    seq![
        (n % 256) as u8,
        (n / 256 % 256) as u8,
        (n / 65536 % 256) as u8,
        (n / 16777216 % 256) as u8,
    ]
}

/// The number that the first four bytes of `b` write in little-endian order.
pub open spec fn le32_value(b: Seq<u8>) -> nat {
    (b[0] + b[1] * 256 + b[2] * 65536 + b[3] * 16777216) as nat
}

/// A payload behind its length prefix.
pub open spec fn framed(payload: Seq<u8>) -> Seq<u8> {
    le32(payload.len()) + payload
}

/// The byte stream of a sequence of packets, each behind its length prefix.
pub open spec fn stream_of(packets: Seq<Seq<u8>>) -> Seq<u8>
    decreases packets.len(),
{
    if packets.len() == 0 {
        Seq::empty()
    } else {
        framed(packets[0]) + stream_of(packets.skip(1))
    }
}

/// Whether `stream` begins with one whole frame.
pub open spec fn has_frame(stream: Seq<u8>) -> bool {
    stream.len() >= 4 && stream.len() - 4 >= le32_value(stream)
}

/// The length of the whole frame at the start of `stream`, prefix included.
pub open spec fn frame_len(stream: Seq<u8>) -> int {
    4 + le32_value(stream) as int
}

/// The payloads of the whole frames at the start of `stream`, in order.
pub open spec fn frames_of(stream: Seq<u8>) -> Seq<Seq<u8>>
    decreases stream.len(),
{
    if has_frame(stream) {
        seq![stream.subrange(4, frame_len(stream))] + frames_of(stream.skip(frame_len(stream)))
    } else {
        Seq::empty()
    }
}

/// How many bytes the whole frames at the start of `stream` take.
pub open spec fn frames_len(stream: Seq<u8>) -> int
    decreases stream.len(),
{
    if has_frame(stream) {
        frame_len(stream) + frames_len(stream.skip(frame_len(stream)))
    } else {
        0
    }
}

/// A length prefix reads back as the length it was written from.
pub proof fn le32_round_trip(n: nat)
    requires
        n <= u32::MAX,
    ensures
        le32(n).len() == 4,
        le32_value(le32(n)) == n,
{
}

/// A frame at the start of a stream is found again: the stream begins with a
/// whole frame, that frame holds the payload, and what follows it is the
/// rest.
#[verifier::rlimit(50)]
pub proof fn first_frame(payload: Seq<u8>, rest: Seq<u8>)
    requires
        payload.len() <= u32::MAX,
    ensures
        has_frame(framed(payload) + rest),
        frame_len(framed(payload) + rest) == 4 + payload.len(),
        (framed(payload) + rest).subrange(4, 4 + payload.len() as int) == payload,
        (framed(payload) + rest).skip(4 + payload.len() as int) == rest,
{
    let prefix = le32(payload.len());
    let stream = framed(payload) + rest;
    le32_round_trip(payload.len());
    assert(stream.len() == 4 + payload.len() + rest.len());
    assert(stream[0] == prefix[0]);
    assert(stream[1] == prefix[1]);
    assert(stream[2] == prefix[2]);
    assert(stream[3] == prefix[3]);
    assert(le32_value(stream) == le32_value(prefix));
    assert(stream.subrange(4, 4 + payload.len() as int) =~= payload);
    assert(stream.skip(4 + payload.len() as int) =~= rest);
}

/// Length-prefix framing loses nothing: the stream of any sequence of packets
/// parses back into that sequence, and into nothing more.
#[verifier::rlimit(50)]
pub proof fn framing_round_trip(packets: Seq<Seq<u8>>)
    requires
        forall|i: int| 0 <= i < packets.len() ==> (#[trigger] packets[i]).len() <= u32::MAX,
    ensures
        frames_of(stream_of(packets)) == packets,
        frames_len(stream_of(packets)) == stream_of(packets).len(),
    decreases packets.len(),
{
    if packets.len() == 0 {
        assert(frames_of(stream_of(packets)) =~= packets);
    } else {
        let first = packets[0];
        let rest = packets.skip(1);
        assert forall|i: int| 0 <= i < rest.len() implies (#[trigger] rest[i]).len()
            <= u32::MAX by {
            assert(rest[i] == packets[i + 1]);
        }
        framing_round_trip(rest);
        first_frame(first, stream_of(rest));
        assert(seq![first] + rest =~= packets);
    }
}

/// Puts `payload` behind its length prefix. A payload too long for the prefix
/// has no frame.
pub fn frame(payload: &[u8]) -> (r: Option<Vec<u8>>)
    ensures
        match r {
            Some(bytes) => payload@.len() <= u32::MAX && bytes@ == framed(payload@),
            None => payload@.len() > u32::MAX,
        },
{
    if payload.len() > 0xffff_ffff {
        return None;
    }
    let n: usize = payload.len();
    let mut out: Vec<u8> = Vec::new();
    out.push((n % 256) as u8);
    out.push((n / 256 % 256) as u8);
    out.push((n / 65536 % 256) as u8);
    out.push((n / 16777216 % 256) as u8);
    assert(out@ =~= le32(n as nat));
    push_bytes(&mut out, payload);
    Some(out)
}

/// Reads the length prefix at the start of `stream`.
pub fn read_le32(stream: &[u8]) -> (n: u32)
    requires
        stream@.len() >= 4,
    ensures
        n == le32_value(stream@),
{
    let b0: u32 = stream[0] as u32;
    let b1: u32 = stream[1] as u32;
    let b2: u32 = stream[2] as u32;
    let b3: u32 = stream[3] as u32;
    b0 + b1 * 256 + b2 * 65536 + b3 * 16777216
}

/// Takes one whole frame from the start of `stream`: its payload and the
/// number of bytes it took. `None` while the frame is incomplete.
pub fn parse_frame(stream: &[u8]) -> (r: Option<(Vec<u8>, usize)>)
    ensures
        match r {
            Some((payload, used)) => has_frame(stream@) && used == frame_len(stream@)
                && payload@ == stream@.subrange(4, frame_len(stream@)),
            None => !has_frame(stream@),
        },
{
    if stream.len() < 4 {
        return None;
    }
    let n: u32 = read_le32(stream);
    if ((stream.len() - 4) as u64) < (n as u64) {
        return None;
    }
    let end: usize = 4 + n as usize;
    let payload = to_vec(&stream[4..end]);
    Some((payload, end))
}

/// Takes every whole frame from the start of `stream`: the payloads in order
/// and the number of bytes they took. What follows is an incomplete frame.
#[verifier::rlimit(50)]
pub fn parse_frames(stream: &[u8]) -> (r: (Vec<Vec<u8>>, usize))
    ensures
        views(r.0@) == frames_of(stream@),
        r.1 == frames_len(stream@),
        r.1 <= stream@.len(),
{
    let mut packets: Vec<Vec<u8>> = Vec::new();
    let mut at: usize = 0;
    assert(stream@.skip(0) =~= stream@);
    assert(views(packets@) =~= Seq::<Seq<u8>>::empty());
    loop
        invariant
            at <= stream@.len(),
            frames_of(stream@) == views(packets@) + frames_of(stream@.skip(at as int)),
            frames_len(stream@) == at + frames_len(stream@.skip(at as int)),
        ensures
            at <= stream@.len(),
            frames_of(stream@) == views(packets@),
            frames_len(stream@) == at,
        decreases stream@.len() - at,
    {
        let rest = &stream[at..stream.len()];
        assert(rest@ =~= stream@.skip(at as int));
        match parse_frame(rest) {
            Some((payload, used)) => {
                let ghost before = views(packets@);
                assert(rest@.skip(used as int) =~= stream@.skip(at + used));
                packets.push(payload);
                assert(views(packets@) =~= before.push(payload@));
                assert(before.push(payload@) + frames_of(rest@.skip(used as int)) =~= before + (
                seq![payload@] + frames_of(rest@.skip(used as int))));
                at = at + used;
            },
            None => {
                assert(views(packets@) + Seq::<Seq<u8>>::empty() =~= views(packets@));
                break ;
            },
        }
    }
    (packets, at)
}

/// The sender and the payload of a datagram: the first byte is the sender's id
/// plus one, the second a separator, the rest the payload.
pub open spec fn datagram_parts(datagram: Seq<u8>) -> Option<(u8, Seq<u8>)> {
    if datagram.len() >= 2 && datagram[0] >= 1 {
        Some(((datagram[0] - 1) as u8, datagram.skip(2)))
    } else {
        None
    }
}

/// Splits a datagram into its sender's id and its payload.
pub fn split_datagram(datagram: &[u8]) -> (r: Result<(u8, Vec<u8>), ServerError>)
    ensures
        match r {
            Ok((id, payload)) => datagram_parts(datagram@) == Some((id, payload@)),
            Err(e) => e == ServerError::BrokenPacket && datagram_parts(datagram@) is None,
        },
{
    if datagram.len() < 2 || datagram[0] < 1 {
        return Err(ServerError::BrokenPacket);
    }
    let payload = to_vec(&datagram[2..datagram.len()]);
    assert(payload@ =~= datagram@.skip(2));
    Ok((datagram[0] - 1, payload))
}

/// The four bytes that mark a compressed payload.
pub open spec fn marker() -> Seq<u8> {
    ascii("ABG:")
}

/// Whether a payload travels in the compression envelope.
pub open spec fn is_sealed(payload: Seq<u8>) -> bool {
    has_prefix(payload, marker())
}

/// What `flate2` makes of `data` when it compresses it as one zlib stream at
/// the best level, ended by a sync flush, into `limit` bytes of room: the
/// bytes written, or `None` where the compressor reports an error.
pub uninterp spec fn zlib_deflate(data: Seq<u8>, limit: usize) -> Option<Seq<u8>>;

/// What `flate2` makes of `data` when it decompresses it as one zlib stream,
/// all input at hand, into `limit` bytes of room: the bytes written, or `None`
/// where the stream is corrupt.
pub uninterp spec fn zlib_inflate(data: Seq<u8>, limit: usize) -> Option<Seq<u8>>;

/// `flate2::CompressError`, the error of the compressor. It is carried
/// through and never looked into.
#[verifier::external_type_specification]
#[verifier::external_body]
pub struct ExCompressError(flate2::CompressError);

/// `flate2::DecompressError`, the error of the decompressor. It is carried
/// through and never looked into.
#[verifier::external_type_specification]
#[verifier::external_body]
pub struct ExDecompressError(flate2::DecompressError);

/// Runs `flate2::Compress::compress` once on a fresh zlib compressor of the
/// best level, with a sync flush and a zeroed buffer of `limit` bytes, and
/// keeps the bytes that `total_out` counts. Nothing is claimed of those bytes
/// but that they depend on `data` and `limit` alone.
#[verifier::external_body]
fn deflate(data: &[u8], limit: usize) -> (r: Result<Vec<u8>, flate2::CompressError>)
    ensures
        zlib_deflate(data@, limit) == match r {
            Ok(bytes) => Some(bytes@),
            Err(_) => None::<Seq<u8>>,
        },
{
    let mut out = vec![0u8; limit];
    let mut stream = flate2::Compress::new(flate2::Compression::best(), true);
    stream.compress(data, &mut out, flate2::FlushCompress::Sync)?;
    out.truncate(stream.total_out() as usize);
    Ok(out)
}

/// Runs `flate2::Decompress::decompress` once on a fresh zlib decompressor,
/// with a finish flush and a zeroed buffer of `limit` bytes, and keeps the
/// bytes that `total_out` counts. Nothing is claimed of those bytes but that
/// they depend on `data` and `limit` alone.
#[verifier::external_body]
fn inflate(data: &[u8], limit: usize) -> (r: Result<Vec<u8>, flate2::DecompressError>)
    ensures
        zlib_inflate(data@, limit) == match r {
            Ok(bytes) => Some(bytes@),
            Err(_) => None::<Seq<u8>>,
        },
{
    let mut out = vec![0u8; limit];
    let mut stream = flate2::Decompress::new(true);
    stream.decompress(data, &mut out, flate2::FlushDecompress::Finish)?;
    out.truncate(stream.total_out() as usize);
    Ok(out)
}

/// Puts compressed bytes behind the marker.
pub fn envelope(compressed: &[u8]) -> (r: Vec<u8>)
    ensures
        r@ == marker() + compressed@,
{
    let mut out: Vec<u8> = Vec::new();
    push_str(&mut out, "ABG:");
    push_bytes(&mut out, compressed);
    assert(out@ =~= marker() + compressed@);
    out
}

/// A payload as it is transmitted: as it is up to 400 bytes, compressed behind
/// the marker above that. `None` where the compressor fails.
pub open spec fn sealed(payload: Seq<u8>) -> Option<Seq<u8>> {
    if payload.len() > COMPRESS_ABOVE {
        match zlib_deflate(payload, STREAM_LIMIT) {
            Some(compressed) => Some(marker() + compressed),
            None => None,
        }
    } else {
        Some(payload)
    }
}

/// A received payload as it is routed: decompressed where it came behind the
/// marker, as it is otherwise. `None` where the compressed stream is corrupt.
pub open spec fn opened(payload: Seq<u8>) -> Option<Seq<u8>> {
    if is_sealed(payload) {
        zlib_inflate(payload.skip(4), STREAM_LIMIT)
    } else {
        Some(payload)
    }
}

/// Prepares a payload for transmission. Every payload of more than 400 bytes
/// leaves behind the marker.
pub fn seal(payload: Vec<u8>) -> (r: Option<Vec<u8>>)
    ensures
        match r {
            Some(bytes) => sealed(payload@) == Some(bytes@),
            None => sealed(payload@) is None,
        },
        payload@.len() <= COMPRESS_ABOVE ==> r is Some,
        payload@.len() > COMPRESS_ABOVE && r is Some ==> is_sealed(r.unwrap()@),
{
    if payload.len() > COMPRESS_ABOVE {
        match deflate(payload.as_slice(), STREAM_LIMIT) {
            Ok(compressed) => {
                let out = envelope(compressed.as_slice());
                proof {
                    marker_is_four();
                    assert(out@.take(4) =~= marker());
                }
                Some(out)
            },
            Err(_) => None,
        }
    } else {
        Some(payload)
    }
}

/// The marker is four bytes long.
pub proof fn marker_is_four()
    ensures
        marker().len() == 4,
{
    reveal_strlit("ABG:");
    vstd::string::is_ascii_spec_bytes("ABG:");
}

/// Whether a payload travels in the compression envelope.
pub fn sealed_payload(payload: &[u8]) -> (r: bool)
    ensures
        r == is_sealed(payload@),
{
    let m = "ABG:".as_bytes();
    starts_with(payload, m)
}

/// Takes a received payload out of its envelope, where it has one. A corrupt
/// compressed stream is a broken packet.
pub fn unseal(payload: Vec<u8>) -> (r: Result<Vec<u8>, ServerError>)
    ensures
        match r {
            Ok(bytes) => opened(payload@) == Some(bytes@),
            Err(e) => e == ServerError::BrokenPacket && opened(payload@) is None,
        },
        !is_sealed(payload@) ==> r is Ok,
{
    if sealed_payload(payload.as_slice()) {
        proof {
            marker_is_four();
        }
        let body = &payload.as_slice()[4..payload.len()];
        assert(body@ =~= payload@.skip(4));
        match inflate(body, STREAM_LIMIT) {
            Ok(bytes) => Ok(bytes),
            Err(_) => Err(ServerError::BrokenPacket),
        }
    } else {
        Ok(payload)
    }
}

} // verus!
