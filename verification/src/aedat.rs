//! Decoder for the size-prefixed multi-stream container.
//!
//! On-disk layout:
//! - preamble: the four magic bytes `AEDT`, a version byte (`1`), and a
//!   stream-count byte;
//! - one 9-byte descriptor per stream: id (4 bytes, little endian),
//!   content-kind code (`0` events, `1` frame, `2` imus, `3` triggers),
//!   width and height (2 bytes each, little endian; both non-zero for
//!   pixel-addressed content, ignored otherwise);
//! - a sequence of blocks, each prefixed by the owning stream id
//!   (4 bytes) and its payload length (4 bytes).
//!
//! Block payloads hold an embedded table: a presence byte for the
//! `elements` field, and — when present — an element count (4 bytes)
//! followed by that many fixed-width records. A frame block instead
//! holds a single record whose pixel buffer carries its own presence
//! byte.

use vstd::prelude::*;

use crate::records::DecoderState;
use crate::records::DvsEvent;
use crate::records::Frame;
use crate::records::FrameFormat;
use crate::records::FrameModel;
use crate::records::HeaderError;
use crate::records::ImuSample;
use crate::records::Outcome;
use crate::records::PacketError;
use crate::records::Stream;
use crate::records::StreamContent;
use crate::records::TriggerEvent;
use crate::records::lemma_compose_empty;
use crate::records::lemma_compose_final;
use crate::records::lemma_compose_snoc;
use crate::records::lemma_swap_rb_len;
use crate::records::lemma_swap_rb_involution;
use crate::records::spec_compose;
use crate::records::spec_swap_rb;
use crate::records::spec_trigger_source_of_code;
use crate::records::swap_rb;
use crate::records::trigger_source_of_code;
use crate::wire::copy_range;
use crate::wire::i16_le;
use crate::wire::load_i16_le;
use crate::wire::load_u16_le;
use crate::wire::load_u32_le;
use crate::wire::load_u64_le;
use crate::wire::u16_le;
use crate::wire::u32_le;
use crate::wire::u64_le;

verus! {

/// The preamble starts with the bytes `AEDT`.
pub open spec fn spec_magic_ok(d: Seq<u8>) -> bool
    recommends
        d.len() >= 4,
{
    d[0] == 0x41 && d[1] == 0x45 && d[2] == 0x44 && d[3] == 0x54
}

/// The content kind named by a descriptor code below 4.
pub open spec fn spec_content_of_code(code: u8) -> StreamContent
    recommends
        code <= 3,
{
    if code == 0 {
        StreamContent::Events
    } else if code == 1 {
        StreamContent::Frame
    } else if code == 2 {
        StreamContent::Imus
    } else {
        StreamContent::Triggers
    }
}

/// The stream declared by the 9-byte descriptor at `base`.
pub open spec fn spec_parse_descriptor(d: Seq<u8>, base: int) -> Result<(u32, Stream), HeaderError>
    recommends
        0 <= base,
        base + 9 <= d.len(),
{
    let id = u32_le(d.subrange(base, base + 4));
    let code = d[base + 4];
    let width = u16_le(d.subrange(base + 5, base + 7));
    let height = u16_le(d.subrange(base + 7, base + 9));
    if code > 3 {
        Err(HeaderError::UnknownStreamContent)
    } else {
        let content = spec_content_of_code(code);
        if (content is Events || content is Frame) && (width == 0 || height == 0) {
            Err(HeaderError::MissingGeometry)
        } else {
            Ok((id, Stream { content, width, height }))
        }
    }
}

/// Whether some pair in the registry carries the given id.
pub open spec fn spec_contains_id(streams: Seq<(u32, Stream)>, id: u32) -> bool {
    exists|k: int| 0 <= k < streams.len() && streams[k].0 == id
}

/// The registry built from the first `n` descriptors, in file order.
pub open spec fn spec_parse_streams(d: Seq<u8>, n: nat) -> Result<
    Seq<(u32, Stream)>,
    HeaderError,
>
    recommends
        6 + 9 * n <= d.len(),
    decreases n,
{
    if n == 0 {
        Ok(Seq::empty())
    } else {
        match spec_parse_streams(d, (n - 1) as nat) {
            Ok(prefix) => match spec_parse_descriptor(d, 6 + 9 * (n - 1)) {
                Ok(p) => if spec_contains_id(prefix, p.0) {
                    Err(HeaderError::DuplicateStreamId)
                } else {
                    Ok(prefix.push(p))
                },
                Err(e) => Err(e),
            },
            Err(e) => Err(e),
        }
    }
}

/// An error among the first `m` descriptors decides the whole registry.
proof fn lemma_parse_streams_err(d: Seq<u8>, m: nat, n: nat)
    requires
        m <= n,
        spec_parse_streams(d, m) is Err,
    ensures
        spec_parse_streams(d, n) == spec_parse_streams(d, m),
    decreases n,
{
    if n > m {
        lemma_parse_streams_err(d, m, (n - 1) as nat);
    }
}

/// Every stream a valid header declares is well formed: descriptors of
/// pixel-addressed content are rejected unless both extents are
/// non-zero.
pub proof fn lemma_registry_streams_wf(d: Seq<u8>, n: nat, streams: Seq<(u32, Stream)>)
    requires
        spec_parse_streams(d, n) == Ok::<_, HeaderError>(streams),
    ensures
        forall|k: int| 0 <= k < streams.len() ==> (#[trigger] streams[k]).1.wf(),
    decreases n,
{
    if n > 0 {
        match spec_parse_streams(d, (n - 1) as nat) {
            Ok(prefix) => {
                lemma_registry_streams_wf(d, (n - 1) as nat, prefix);
                assert forall|k: int| 0 <= k < streams.len() implies (#[trigger] streams[k]).1.wf()
                    by {
                    if k < streams.len() - 1 {
                        assert(streams[k] == prefix[k]);
                    }
                }
            },
            Err(_) => {
            },
        }
    }
}

/// The registry and the header length (where the first block starts)
/// declared by the preamble, or the reason the preamble is rejected.
pub open spec fn spec_parse_header(d: Seq<u8>) -> Result<(Seq<(u32, Stream)>, int), HeaderError> {
    if d.len() < 4 {
        Err(HeaderError::Truncated)
    } else if !spec_magic_ok(d) {
        Err(HeaderError::BadMagic)
    } else if d.len() < 6 {
        Err(HeaderError::Truncated)
    } else if d[4] != 1 {
        Err(HeaderError::UnsupportedVersion)
    } else {
        let n = d[5] as nat;
        if d.len() < 6 + 9 * n {
            Err(HeaderError::Truncated)
        } else {
            match spec_parse_streams(d, n) {
                Ok(streams) => Ok((streams, 6 + 9 * (n as int))),
                Err(e) => Err(e),
            }
        }
    }
}

/// Whether the registry already carries `id`.
fn contains_id(streams: &Vec<(u32, Stream)>, id: u32) -> (r: bool)
    ensures
        r == spec_contains_id(streams@, id),
{
    let mut k: usize = 0;
    while k < streams.len()
        invariant
            k <= streams@.len(),
            forall|j: int| 0 <= j < k ==> streams@[j].0 != id,
        decreases streams@.len() - k,
    {
        if streams[k].0 == id {
            return true;
        }
        k = k + 1;
    }
    false
}

/// Parses the preamble and the stream descriptors.
pub fn parse_header(d: &Vec<u8>) -> (r: Result<(Vec<(u32, Stream)>, usize), HeaderError>)
    ensures
        match r {
            Ok(p) => spec_parse_header(d@) == Ok::<_, HeaderError>((p.0@, p.1 as int)),
            Err(e) => spec_parse_header(d@) == Err::<(Seq<(u32, Stream)>, int), _>(e),
        },
{
    if d.len() < 4 {
        return Err(HeaderError::Truncated);
    }
    if !(d[0] == 0x41 && d[1] == 0x45 && d[2] == 0x44 && d[3] == 0x54) {
        return Err(HeaderError::BadMagic);
    }
    if d.len() < 6 {
        return Err(HeaderError::Truncated);
    }
    if d[4] != 1 {
        return Err(HeaderError::UnsupportedVersion);
    }
    let n = d[5] as usize;
    if d.len() < 6 + 9 * n {
        return Err(HeaderError::Truncated);
    }
    let mut streams: Vec<(u32, Stream)> = Vec::new();
    let mut i: usize = 0;
    while i < n
        invariant
            i <= n,
            d@.len() >= 6,
            spec_magic_ok(d@),
            d@[4] == 1,
            n == d@[5] as int,
            d@.len() >= 6 + 9 * n,
            spec_parse_streams(d@, i as nat) == Ok::<_, HeaderError>(streams@),
        decreases n - i,
    {
        let base = 6 + 9 * i;
        let id = load_u32_le(d, base);
        let code = d[base + 4];
        let width = load_u16_le(d, base + 5);
        let height = load_u16_le(d, base + 7);
        if code > 3 {
            proof {
                assert(spec_parse_descriptor(d@, 6 + 9 * (i as int)) == Err::<
                    (u32, Stream),
                    HeaderError,
                >(HeaderError::UnknownStreamContent));
                assert(spec_parse_streams(d@, (i + 1) as nat) == Err::<
                    Seq<(u32, Stream)>,
                    HeaderError,
                >(HeaderError::UnknownStreamContent));
                lemma_parse_streams_err(d@, (i + 1) as nat, n as nat);
            }
            return Err(HeaderError::UnknownStreamContent);
        }
        let content = if code == 0 {
            StreamContent::Events
        } else if code == 1 {
            StreamContent::Frame
        } else if code == 2 {
            StreamContent::Imus
        } else {
            StreamContent::Triggers
        };
        let pixel_addressed = code == 0 || code == 1;
        if pixel_addressed && (width == 0 || height == 0) {
            proof {
                assert(spec_parse_descriptor(d@, 6 + 9 * (i as int)) == Err::<
                    (u32, Stream),
                    HeaderError,
                >(HeaderError::MissingGeometry));
                assert(spec_parse_streams(d@, (i + 1) as nat) == Err::<
                    Seq<(u32, Stream)>,
                    HeaderError,
                >(HeaderError::MissingGeometry));
                lemma_parse_streams_err(d@, (i + 1) as nat, n as nat);
            }
            return Err(HeaderError::MissingGeometry);
        }
        if contains_id(&streams, id) {
            proof {
                assert(spec_parse_descriptor(d@, 6 + 9 * (i as int)) == Ok::<
                    (u32, Stream),
                    HeaderError,
                >((id, Stream { content, width, height })));
                assert(spec_parse_streams(d@, (i + 1) as nat) == Err::<
                    Seq<(u32, Stream)>,
                    HeaderError,
                >(HeaderError::DuplicateStreamId));
                lemma_parse_streams_err(d@, (i + 1) as nat, n as nat);
            }
            return Err(HeaderError::DuplicateStreamId);
        }
        streams.push((id, Stream { content, width, height }));
        i = i + 1;
    }
    Ok((streams, 6 + 9 * n))
}

/// The next block at `pos`: clean end of file, or the owning stream id
/// with the payload's position and length, or a framing failure.
pub open spec fn spec_next_block(d: Seq<u8>, pos: int) -> Result<
    Option<(u32, int, int)>,
    PacketError,
>
    recommends
        0 <= pos <= d.len(),
{
    if pos == d.len() {
        Ok(None)
    } else if d.len() - pos < 8 {
        Err(PacketError::MissingSizePrefix)
    } else {
        let id = u32_le(d.subrange(pos, pos + 4));
        let size = u32_le(d.subrange(pos + 4, pos + 8)) as int;
        if size > d.len() - pos - 8 {
            Err(PacketError::MissingSizePrefix)
        } else {
            Ok(Some((id, pos + 8, size)))
        }
    }
}

/// A block whose length prefix is truncated, or whose declared length
/// exceeds the remaining bytes, is always a framing failure, whatever
/// content kind owns it.
pub proof fn lemma_oversized_block_fails(d: Seq<u8>, pos: int)
    requires
        0 <= pos < d.len(),
        d.len() - pos < 8 || u32_le(d.subrange(pos + 4, pos + 8)) as int > d.len() - pos - 8,
    ensures
        spec_next_block(d, pos) == Err::<Option<(u32, int, int)>, _>(
            PacketError::MissingSizePrefix,
        ),
{
}

/// The event record at `base`, validated against the stream geometry:
/// timestamp (8 bytes), signed x and y (2 bytes each), polarity byte.
pub open spec fn spec_decode_event_at(p: Seq<u8>, base: int, width: u16, height: u16) -> Result<
    DvsEvent,
    PacketError,
>
    recommends
        0 <= base,
        base + 13 <= p.len(),
{
    let t = u64_le(p.subrange(base, base + 8));
    let x = i16_le(p.subrange(base + 8, base + 10));
    let y = i16_le(p.subrange(base + 10, base + 12));
    let on = p[base + 12] != 0;
    if x < 0 || x as int >= width as int {
        Err(PacketError::XOverflow { x: x as i32, width })
    } else if y < 0 || y as int >= height as int {
        Err(PacketError::YOverflow { y: y as i32, height })
    } else {
        Ok(DvsEvent { t, x: x as u16, y: y as u16, on })
    }
}

/// The event records from index `i` up to `n`, each 13 bytes, starting
/// 5 bytes into the payload; the first invalid record aborts the batch.
pub open spec fn spec_decode_events_from(
    p: Seq<u8>,
    i: nat,
    n: nat,
    width: u16,
    height: u16,
) -> Result<Seq<DvsEvent>, PacketError>
    recommends
        i <= n,
        5 + 13 * n <= p.len(),
    decreases n - i,
{
    if i >= n {
        Ok(Seq::empty())
    } else {
        match spec_decode_event_at(p, 5 + 13 * (i as int), width, height) {
            Ok(ev) => spec_compose(seq![ev], spec_decode_events_from(p, i + 1, n, width, height)),
            Err(e) => Err(e),
        }
    }
}

/// An events payload: elements-presence byte, element count (4 bytes),
/// then exactly `count` event records.
pub open spec fn spec_decode_events_payload(p: Seq<u8>, width: u16, height: u16) -> Result<
    Seq<DvsEvent>,
    PacketError,
> {
    if p.len() < 1 {
        Err(PacketError::MissingSizePrefix)
    } else if p[0] == 0 {
        Err(PacketError::EmptyEventsPacket)
    } else if p[0] != 1 {
        Err(PacketError::MissingSizePrefix)
    } else if p.len() < 5 {
        Err(PacketError::MissingSizePrefix)
    } else {
        let n = u32_le(p.subrange(1, 5)) as nat;
        if p.len() != 5 + 13 * n {
            Err(PacketError::MissingSizePrefix)
        } else {
            spec_decode_events_from(p, 0, n, width, height)
        }
    }
}

/// Every decoded event lies within the stream geometry; a violating
/// record yields `XOverflow`/`YOverflow` and no partial batch.
pub proof fn lemma_decoded_events_in_bounds(
    p: Seq<u8>,
    width: u16,
    height: u16,
    evs: Seq<DvsEvent>,
)
    requires
        spec_decode_events_payload(p, width, height) == Ok::<_, PacketError>(evs),
    ensures
        forall|k: int|
            0 <= k < evs.len() ==> (#[trigger] evs[k]).x < width && evs[k].y < height,
{
    let n = u32_le(p.subrange(1, 5)) as nat;
    lemma_events_from_in_bounds(p, 0, n, width, height, evs);
}

proof fn lemma_events_from_in_bounds(
    p: Seq<u8>,
    i: nat,
    n: nat,
    width: u16,
    height: u16,
    evs: Seq<DvsEvent>,
)
    requires
        spec_decode_events_from(p, i, n, width, height) == Ok::<_, PacketError>(evs),
    ensures
        forall|k: int|
            0 <= k < evs.len() ==> (#[trigger] evs[k]).x < width && evs[k].y < height,
    decreases n - i,
{
    if i >= n {
    } else {
        match spec_decode_event_at(p, 5 + 13 * (i as int), width, height) {
            Ok(ev) => {
                match spec_decode_events_from(p, i + 1, n, width, height) {
                    Ok(rest) => {
                        lemma_events_from_in_bounds(p, i + 1, n, width, height, rest);
                        assert(evs == seq![ev] + rest);
                        assert(forall|k: int|
                            0 <= k < evs.len() ==> (#[trigger] evs[k]).x < width && evs[k].y
                                < height) by {
                            assert(evs[0] == ev);
                            assert(forall|k: int|
                                1 <= k < evs.len() ==> #[trigger] evs[k] == rest[k - 1]);
                        }
                    },
                    Err(_) => {
                    },
                }
            },
            Err(_) => {
            },
        }
    }
}

/// Decodes an events payload against the stream geometry.
pub fn decode_events(p: &Vec<u8>, width: u16, height: u16) -> (r: Result<
    Vec<DvsEvent>,
    PacketError,
>)
    ensures
        match r {
            Ok(v) => spec_decode_events_payload(p@, width, height) == Ok::<_, PacketError>(v@),
            Err(e) => spec_decode_events_payload(p@, width, height) == Err::<Seq<DvsEvent>, _>(e),
        },
{
    if p.len() < 1 {
        return Err(PacketError::MissingSizePrefix);
    }
    if p[0] == 0 {
        return Err(PacketError::EmptyEventsPacket);
    }
    if p[0] != 1 {
        return Err(PacketError::MissingSizePrefix);
    }
    if p.len() < 5 {
        return Err(PacketError::MissingSizePrefix);
    }
    let n32 = load_u32_le(p, 1);
    let n = n32 as usize;
    if !(p.len() as u64 == 5 + 13 * (n32 as u64)) {
        return Err(PacketError::MissingSizePrefix);
    }
    let mut out: Vec<DvsEvent> = Vec::new();
    let mut i: usize = 0;
    proof {
        lemma_compose_empty(spec_decode_events_from(p@, 0, n as nat, width, height));
        assert(p.len() <= usize::MAX);
    }
    while i < n
        invariant
            i <= n,
            n == n32 as int,
            p@.len() <= usize::MAX,
            p@.len() >= 5,
            p@[0] == 1,
            n32 == u32_le(p@.subrange(1, 5)),
            p@.len() == 5 + 13 * (n as int),
            spec_decode_events_from(p@, 0, n as nat, width, height) == spec_compose(
                out@,
                spec_decode_events_from(p@, i as nat, n as nat, width, height),
            ),
        decreases n - i,
    {
        let base = 5 + 13 * i;
        let t = load_u64_le(p, base);
        let x = load_i16_le(p, base + 8);
        let y = load_i16_le(p, base + 10);
        let on = p[base + 12] != 0;
        if x < 0 || x as i32 >= width as i32 {
            let e = PacketError::XOverflow { x: x as i32, width };
            proof {
                assert(spec_decode_event_at(p@, 5 + 13 * (i as int), width, height) == Err::<
                    DvsEvent,
                    PacketError,
                >(e));
            }
            return Err(e);
        }
        if y < 0 || y as i32 >= height as i32 {
            let e = PacketError::YOverflow { y: y as i32, height };
            proof {
                assert(spec_decode_event_at(p@, 5 + 13 * (i as int), width, height) == Err::<
                    DvsEvent,
                    PacketError,
                >(e));
            }
            return Err(e);
        }
        let ev = DvsEvent { t, x: x as u16, y: y as u16, on };
        proof {
            assert(spec_decode_event_at(p@, 5 + 13 * (i as int), width, height) == Ok::<
                _,
                PacketError,
            >(ev));
            lemma_compose_snoc(
                out@,
                ev,
                spec_decode_events_from(p@, (i + 1) as nat, n as nat, width, height),
            );
        }
        out.push(ev);
        i = i + 1;
    }
    proof {
        lemma_compose_final(out@);
    }
    Ok(out)
}

/// The pixel layout named by a format code below 3.
pub open spec fn spec_format_of_code(code: u8) -> FrameFormat
    recommends
        code <= 2,
{
    if code == 0 {
        FrameFormat::Gray
    } else if code == 1 {
        FrameFormat::Bgr
    } else {
        FrameFormat::Bgra
    }
}

fn format_of_code(code: u8) -> (r: FrameFormat)
    requires
        code <= 2,
    ensures
        r == spec_format_of_code(code),
{
    if code == 0 {
        FrameFormat::Gray
    } else if code == 1 {
        FrameFormat::Bgr
    } else {
        FrameFormat::Bgra
    }
}

/// A frame payload: five timestamps (8 bytes each), a format code, the
/// frame geometry (width, height, then signed x and y offsets, 2 bytes
/// each), a pixel-presence byte, and — when present — exactly
/// `width * height * channels` pixel bytes with the first and third
/// channel of every pixel in swapped (blue-first) order. An absent
/// pixel buffer decodes to a zero-filled canvas of the declared shape.
pub open spec fn spec_decode_frame_payload(p: Seq<u8>) -> Result<FrameModel, PacketError> {
    if p.len() < 50 {
        Err(PacketError::MissingSizePrefix)
    } else if p[40] > 2 {
        Err(PacketError::UnknownFrameFormat)
    } else {
        let format = spec_format_of_code(p[40]);
        let width = u16_le(p.subrange(41, 43));
        let height = u16_le(p.subrange(43, 45));
        let total = width as int * height as int * (format.spec_channels() as int);
        if p[49] == 0 {
            if p.len() != 50 || total > usize::MAX as int {
                Err(PacketError::MissingSizePrefix)
            } else {
                Ok(
                    FrameModel {
                        t: u64_le(p.subrange(0, 8)),
                        begin_t: u64_le(p.subrange(8, 16)),
                        end_t: u64_le(p.subrange(16, 24)),
                        exposure_begin_t: u64_le(p.subrange(24, 32)),
                        exposure_end_t: u64_le(p.subrange(32, 40)),
                        format,
                        width,
                        height,
                        offset_x: i16_le(p.subrange(45, 47)),
                        offset_y: i16_le(p.subrange(47, 49)),
                        pixels: Seq::new(total as nat, |k: int| 0u8),
                    },
                )
            }
        } else if p[49] == 1 {
            if p.len() != 50 + total {
                Err(PacketError::MissingSizePrefix)
            } else {
                let raw = p.subrange(50, 50 + total);
                Ok(
                    FrameModel {
                        t: u64_le(p.subrange(0, 8)),
                        begin_t: u64_le(p.subrange(8, 16)),
                        end_t: u64_le(p.subrange(16, 24)),
                        exposure_begin_t: u64_le(p.subrange(24, 32)),
                        exposure_end_t: u64_le(p.subrange(32, 40)),
                        format,
                        width,
                        height,
                        offset_x: i16_le(p.subrange(45, 47)),
                        offset_y: i16_le(p.subrange(47, 49)),
                        pixels: if format is Gray {
                            raw
                        } else {
                            spec_swap_rb(raw, format.spec_channels() as int)
                        },
                    },
                )
            }
        } else {
            Err(PacketError::MissingSizePrefix)
        }
    }
}

/// A decoded frame's pixel buffer always holds exactly
/// `width * height * channels` bytes, present or not.
pub proof fn lemma_frame_pixels_len(p: Seq<u8>, fm: FrameModel)
    requires
        spec_decode_frame_payload(p) == Ok::<_, PacketError>(fm),
    ensures
        fm.pixels.len() == fm.width as int * fm.height as int * (
        fm.format.spec_channels() as int),
{
    if p[49] == 1 && !(spec_format_of_code(p[40]) is Gray) {
        let format = spec_format_of_code(p[40]);
        let total = u16_le(p.subrange(41, 43)) as int * u16_le(p.subrange(43, 45)) as int * (
        format.spec_channels() as int);
        lemma_swap_rb_len(p.subrange(50, 50 + total), format.spec_channels() as int);
    }
}

/// A frame record lacking its pixel buffer decodes to a zero-filled
/// canvas of the declared shape, never to an absent buffer.
pub proof fn lemma_absent_pixels_zero_filled(p: Seq<u8>, fm: FrameModel)
    requires
        spec_decode_frame_payload(p) == Ok::<_, PacketError>(fm),
        p[49] == 0,
    ensures
        fm.pixels.len() == fm.width as int * fm.height as int * (
        fm.format.spec_channels() as int),
        forall|k: int| 0 <= k < fm.pixels.len() ==> fm.pixels[k] == 0,
{
}

/// Swapping the first and third channel of a decoded color frame's
/// buffer reproduces the on-disk byte order.
pub proof fn lemma_frame_pixels_round_trip(p: Seq<u8>, fm: FrameModel)
    requires
        spec_decode_frame_payload(p) == Ok::<_, PacketError>(fm),
        p[49] == 1,
        !(fm.format is Gray),
    ensures
        spec_swap_rb(fm.pixels, fm.format.spec_channels() as int) == p.subrange(50, p.len() as int),
{
    let format = spec_format_of_code(p[40]);
    let total = u16_le(p.subrange(41, 43)) as int * u16_le(p.subrange(43, 45)) as int * (
    format.spec_channels() as int);
    let raw = p.subrange(50, 50 + total);
    lemma_swap_rb_involution(raw, format.spec_channels() as int);
}

/// Decodes a frame payload.
pub fn decode_frame(p: &Vec<u8>) -> (r: Result<Frame, PacketError>)
    ensures
        match r {
            Ok(f) => spec_decode_frame_payload(p@) == Ok::<_, PacketError>(f@),
            Err(e) => spec_decode_frame_payload(p@) == Err::<FrameModel, _>(e),
        },
{
    if p.len() < 50 {
        return Err(PacketError::MissingSizePrefix);
    }
    let format_code = p[40];
    if format_code > 2 {
        return Err(PacketError::UnknownFrameFormat);
    }
    let format = format_of_code(format_code);
    let width = load_u16_le(p, 41);
    let height = load_u16_le(p, 43);
    let channels = format.channels();
    proof {
        assert((width as int) * (height as int) <= 0xffff * 0xffff) by (nonlinear_arith)
            requires
                width <= 0xffff,
                height <= 0xffff,
        ;
        assert((width as int) * (height as int) * (channels as int) <= 0xffff * 0xffff * 4)
            by (nonlinear_arith)
            requires
                0 <= (width as int) * (height as int) <= 0xffff * 0xffff,
                channels <= 4,
        ;
    }
    let total64 = (width as u64) * (height as u64) * (channels as u64);
    let t = load_u64_le(p, 0);
    let begin_t = load_u64_le(p, 8);
    let end_t = load_u64_le(p, 16);
    let exposure_begin_t = load_u64_le(p, 24);
    let exposure_end_t = load_u64_le(p, 32);
    let offset_x = load_i16_le(p, 45);
    let offset_y = load_i16_le(p, 47);
    let flag = p[49];
    if flag == 0 {
        if p.len() != 50 || total64 > usize::MAX as u64 {
            return Err(PacketError::MissingSizePrefix);
        }
        let total = total64 as usize;
        let mut pixels: Vec<u8> = Vec::new();
        let mut k: usize = 0;
        while k < total
            invariant
                k <= total,
                pixels@.len() == k,
                forall|j: int| 0 <= j < k ==> pixels@[j] == 0,
            decreases total - k,
        {
            pixels.push(0);
            k = k + 1;
        }
        proof {
            assert(pixels@ =~= Seq::new(total as nat, |j: int| 0u8));
        }
        return Ok(
            Frame {
                t,
                begin_t,
                end_t,
                exposure_begin_t,
                exposure_end_t,
                format,
                width,
                height,
                offset_x,
                offset_y,
                pixels,
            },
        );
    }
    if flag != 1 {
        return Err(PacketError::MissingSizePrefix);
    }
    if !(p.len() as u64 == 50 + total64) {
        return Err(PacketError::MissingSizePrefix);
    }
    let total = total64 as usize;
    let raw = copy_range(p, 50, total);
    let pixels = if channels == 1 {
        raw
    } else {
        swap_rb(&raw, channels)
    };
    Ok(
        Frame {
            t,
            begin_t,
            end_t,
            exposure_begin_t,
            exposure_end_t,
            format,
            width,
            height,
            offset_x,
            offset_y,
            pixels,
        },
    )
}

/// The 48-byte inertial-measurement record at `base`: a timestamp, then
/// ten 4-byte fields carried as raw bit patterns.
pub open spec fn spec_decode_imu_at(p: Seq<u8>, base: int) -> ImuSample
    recommends
        0 <= base,
        base + 48 <= p.len(),
{
    ImuSample {
        t: u64_le(p.subrange(base, base + 8)),
        temperature: u32_le(p.subrange(base + 8, base + 12)),
        accelerometer_x: u32_le(p.subrange(base + 12, base + 16)),
        accelerometer_y: u32_le(p.subrange(base + 16, base + 20)),
        accelerometer_z: u32_le(p.subrange(base + 20, base + 24)),
        gyroscope_x: u32_le(p.subrange(base + 24, base + 28)),
        gyroscope_y: u32_le(p.subrange(base + 28, base + 32)),
        gyroscope_z: u32_le(p.subrange(base + 32, base + 36)),
        magnetometer_x: u32_le(p.subrange(base + 36, base + 40)),
        magnetometer_y: u32_le(p.subrange(base + 40, base + 44)),
        magnetometer_z: u32_le(p.subrange(base + 44, base + 48)),
    }
}

/// The inertial-measurement records from index `i` up to `n`.
pub open spec fn spec_decode_imus_from(p: Seq<u8>, i: nat, n: nat) -> Seq<ImuSample>
    recommends
        i <= n,
        5 + 48 * n <= p.len(),
    decreases n - i,
{
    if i >= n {
        Seq::empty()
    } else {
        seq![spec_decode_imu_at(p, 5 + 48 * (i as int))] + spec_decode_imus_from(p, i + 1, n)
    }
}

/// An imus payload: elements-presence byte, element count, then exactly
/// `count` 48-byte records.
pub open spec fn spec_decode_imus_payload(p: Seq<u8>) -> Result<Seq<ImuSample>, PacketError> {
    if p.len() < 1 {
        Err(PacketError::MissingSizePrefix)
    } else if p[0] == 0 {
        Err(PacketError::EmptyEventsPacket)
    } else if p[0] != 1 {
        Err(PacketError::MissingSizePrefix)
    } else if p.len() < 5 {
        Err(PacketError::MissingSizePrefix)
    } else {
        let n = u32_le(p.subrange(1, 5)) as nat;
        if p.len() != 5 + 48 * n {
            Err(PacketError::MissingSizePrefix)
        } else {
            Ok(spec_decode_imus_from(p, 0, n))
        }
    }
}

/// Decodes an imus payload.
pub fn decode_imus(p: &Vec<u8>) -> (r: Result<Vec<ImuSample>, PacketError>)
    ensures
        match r {
            Ok(v) => spec_decode_imus_payload(p@) == Ok::<_, PacketError>(v@),
            Err(e) => spec_decode_imus_payload(p@) == Err::<Seq<ImuSample>, _>(e),
        },
{
    if p.len() < 1 {
        return Err(PacketError::MissingSizePrefix);
    }
    if p[0] == 0 {
        return Err(PacketError::EmptyEventsPacket);
    }
    if p[0] != 1 {
        return Err(PacketError::MissingSizePrefix);
    }
    if p.len() < 5 {
        return Err(PacketError::MissingSizePrefix);
    }
    let n32 = load_u32_le(p, 1);
    let n = n32 as usize;
    if !(p.len() as u64 == 5 + 48 * (n32 as u64)) {
        return Err(PacketError::MissingSizePrefix);
    }
    let mut out: Vec<ImuSample> = Vec::new();
    let mut i: usize = 0;
    proof {
        assert(out@ + spec_decode_imus_from(p@, 0, n as nat) =~= spec_decode_imus_from(
            p@,
            0,
            n as nat,
        ));
        assert(p.len() <= usize::MAX);
    }
    while i < n
        invariant
            i <= n,
            p@.len() <= usize::MAX,
            p@.len() == 5 + 48 * (n as int),
            spec_decode_imus_from(p@, 0, n as nat) == out@ + spec_decode_imus_from(
                p@,
                i as nat,
                n as nat,
            ),
        decreases n - i,
    {
        let base = 5 + 48 * i;
        let sample = ImuSample {
            t: load_u64_le(p, base),
            temperature: load_u32_le(p, base + 8),
            accelerometer_x: load_u32_le(p, base + 12),
            accelerometer_y: load_u32_le(p, base + 16),
            accelerometer_z: load_u32_le(p, base + 20),
            gyroscope_x: load_u32_le(p, base + 24),
            gyroscope_y: load_u32_le(p, base + 28),
            gyroscope_z: load_u32_le(p, base + 32),
            magnetometer_x: load_u32_le(p, base + 36),
            magnetometer_y: load_u32_le(p, base + 40),
            magnetometer_z: load_u32_le(p, base + 44),
        };
        proof {
            assert(sample == spec_decode_imu_at(p@, 5 + 48 * (i as int)));
            assert(out@.push(sample) + spec_decode_imus_from(p@, (i + 1) as nat, n as nat) =~= out@
                + (seq![sample] + spec_decode_imus_from(p@, (i + 1) as nat, n as nat)));
        }
        out.push(sample);
        i = i + 1;
    }
    proof {
        assert(out@ + spec_decode_imus_from(p@, n as nat, n as nat) =~= out@);
    }
    Ok(out)
}

/// The 9-byte trigger record at `base`: a timestamp and a source code,
/// which must be a member of the source enumeration.
pub open spec fn spec_decode_trigger_at(p: Seq<u8>, base: int) -> Result<
    TriggerEvent,
    PacketError,
>
    recommends
        0 <= base,
        base + 9 <= p.len(),
{
    match spec_trigger_source_of_code(p[base + 8]) {
        Some(source) => Ok(TriggerEvent { t: u64_le(p.subrange(base, base + 8)), source }),
        None => Err(PacketError::UnknownTriggerSource),
    }
}

/// The trigger records from index `i` up to `n`; the first record with
/// a source code outside the enumeration aborts the batch.
pub open spec fn spec_decode_triggers_from(p: Seq<u8>, i: nat, n: nat) -> Result<
    Seq<TriggerEvent>,
    PacketError,
>
    recommends
        i <= n,
        5 + 9 * n <= p.len(),
    decreases n - i,
{
    if i >= n {
        Ok(Seq::empty())
    } else {
        match spec_decode_trigger_at(p, 5 + 9 * (i as int)) {
            Ok(tr) => spec_compose(seq![tr], spec_decode_triggers_from(p, i + 1, n)),
            Err(e) => Err(e),
        }
    }
}

/// A triggers payload: elements-presence byte, element count, then
/// exactly `count` 9-byte records.
pub open spec fn spec_decode_triggers_payload(p: Seq<u8>) -> Result<
    Seq<TriggerEvent>,
    PacketError,
> {
    if p.len() < 1 {
        Err(PacketError::MissingSizePrefix)
    } else if p[0] == 0 {
        Err(PacketError::EmptyEventsPacket)
    } else if p[0] != 1 {
        Err(PacketError::MissingSizePrefix)
    } else if p.len() < 5 {
        Err(PacketError::MissingSizePrefix)
    } else {
        let n = u32_le(p.subrange(1, 5)) as nat;
        if p.len() != 5 + 9 * n {
            Err(PacketError::MissingSizePrefix)
        } else {
            spec_decode_triggers_from(p, 0, n)
        }
    }
}

/// Decodes a triggers payload.
pub fn decode_triggers(p: &Vec<u8>) -> (r: Result<Vec<TriggerEvent>, PacketError>)
    ensures
        match r {
            Ok(v) => spec_decode_triggers_payload(p@) == Ok::<_, PacketError>(v@),
            Err(e) => spec_decode_triggers_payload(p@) == Err::<Seq<TriggerEvent>, _>(e),
        },
{
    if p.len() < 1 {
        return Err(PacketError::MissingSizePrefix);
    }
    if p[0] == 0 {
        return Err(PacketError::EmptyEventsPacket);
    }
    if p[0] != 1 {
        return Err(PacketError::MissingSizePrefix);
    }
    if p.len() < 5 {
        return Err(PacketError::MissingSizePrefix);
    }
    let n32 = load_u32_le(p, 1);
    let n = n32 as usize;
    if !(p.len() as u64 == 5 + 9 * (n32 as u64)) {
        return Err(PacketError::MissingSizePrefix);
    }
    let mut out: Vec<TriggerEvent> = Vec::new();
    let mut i: usize = 0;
    proof {
        lemma_compose_empty(spec_decode_triggers_from(p@, 0, n as nat));
        assert(p.len() <= usize::MAX);
    }
    while i < n
        invariant
            i <= n,
            n == n32 as int,
            p@.len() <= usize::MAX,
            p@.len() >= 5,
            p@[0] == 1,
            n32 == u32_le(p@.subrange(1, 5)),
            p@.len() == 5 + 9 * (n as int),
            spec_decode_triggers_from(p@, 0, n as nat) == spec_compose(
                out@,
                spec_decode_triggers_from(p@, i as nat, n as nat),
            ),
        decreases n - i,
    {
        let base = 5 + 9 * i;
        let t = load_u64_le(p, base);
        let code = p[base + 8];
        match trigger_source_of_code(code) {
            Some(source) => {
                let tr = TriggerEvent { t, source };
                proof {
                    assert(spec_decode_trigger_at(p@, 5 + 9 * (i as int)) == Ok::<_, PacketError>(
                        tr,
                    ));
                    lemma_compose_snoc(
                        out@,
                        tr,
                        spec_decode_triggers_from(p@, (i + 1) as nat, n as nat),
                    );
                }
                out.push(tr);
            },
            None => {
                proof {
                    assert(spec_decode_trigger_at(p@, 5 + 9 * (i as int)) == Err::<
                        TriggerEvent,
                        PacketError,
                    >(PacketError::UnknownTriggerSource));
                }
                return Err(PacketError::UnknownTriggerSource);
            },
        }
        i = i + 1;
    }
    proof {
        lemma_compose_final(out@);
    }
    Ok(out)
}

/// Locates the next block.
pub fn read_block(d: &Vec<u8>, pos: usize) -> (r: Result<Option<(u32, usize, usize)>, PacketError>)
    requires
        pos <= d.len(),
    ensures
        match r {
            Ok(Some(b)) => spec_next_block(d@, pos as int) == Ok::<_, PacketError>(
                Some((b.0, b.1 as int, b.2 as int)),
            ) && b.1 == pos + 8 && b.1 + b.2 <= d@.len(),
            Ok(None) => spec_next_block(d@, pos as int) == Ok::<Option<(u32, int, int)>,
                PacketError,
            >(None),
            Err(e) => spec_next_block(d@, pos as int) == Err::<Option<(u32, int, int)>, _>(e),
        },
{
    if pos == d.len() {
        return Ok(None);
    }
    if d.len() - pos < 8 {
        return Err(PacketError::MissingSizePrefix);
    }
    let id = load_u32_le(d, pos);
    let size = load_u32_le(d, pos + 4);
    let remaining = d.len() - pos - 8;
    if size as u64 > remaining as u64 {
        return Err(PacketError::MissingSizePrefix);
    }
    Ok(Some((id, pos + 8, size as usize)))
}

/// One decoded batch, of the shape the owning stream declares.
pub enum PacketContent {
    Events(Vec<DvsEvent>),
    Frame(Frame),
    Imus(Vec<ImuSample>),
    Triggers(Vec<TriggerEvent>),
}

pub enum PacketContentModel {
    Events(Seq<DvsEvent>),
    Frame(FrameModel),
    Imus(Seq<ImuSample>),
    Triggers(Seq<TriggerEvent>),
}

impl View for PacketContent {
    type V = PacketContentModel;

    open spec fn view(&self) -> PacketContentModel {
        match self {
            PacketContent::Events(v) => PacketContentModel::Events(v@),
            PacketContent::Frame(f) => PacketContentModel::Frame(f@),
            PacketContent::Imus(v) => PacketContentModel::Imus(v@),
            PacketContent::Triggers(v) => PacketContentModel::Triggers(v@),
        }
    }
}

/// One decoded unit of data, yielded by one pull. A packet is owned by
/// the caller and carries a copy of the owning stream's descriptor.
pub struct Packet {
    pub stream_id: u32,
    pub stream: Stream,
    pub content: PacketContent,
}

pub struct PacketModel {
    pub stream_id: u32,
    pub stream: Stream,
    pub content: PacketContentModel,
}

impl View for Packet {
    type V = PacketModel;

    open spec fn view(&self) -> PacketModel {
        PacketModel { stream_id: self.stream_id, stream: self.stream, content: self.content@ }
    }
}

/// The first stream at or after index `i` that carries `id`.
pub open spec fn spec_find_from(streams: Seq<(u32, Stream)>, i: nat, id: u32) -> Option<Stream>
    decreases streams.len() - i,
{
    if i >= streams.len() {
        None
    } else if streams[i as int].0 == id {
        Some(streams[i as int].1)
    } else {
        spec_find_from(streams, i + 1, id)
    }
}

/// The stream the registry declares under `id`.
pub open spec fn spec_find_stream(streams: Seq<(u32, Stream)>, id: u32) -> Option<Stream> {
    spec_find_from(streams, 0, id)
}

/// Looks a stream up by id.
pub fn find_stream(streams: &Vec<(u32, Stream)>, id: u32) -> (r: Option<Stream>)
    ensures
        r == spec_find_stream(streams@, id),
{
    let mut k: usize = 0;
    while k < streams.len()
        invariant
            k <= streams@.len(),
            spec_find_from(streams@, 0, id) == spec_find_from(streams@, k as nat, id),
        decreases streams@.len() - k,
    {
        if streams[k].0 == id {
            return Some(streams[k].1);
        }
        k = k + 1;
    }
    None
}

/// What one pull at `pos` must produce: clean end of file, a packet and
/// the position after its block, or the first error met while framing,
/// dispatching, decoding or validating the block. After a framing
/// failure the cursor cannot trust any later boundary and is left at
/// the end of the data; after a record failure it is left at the next
/// block boundary.
pub open spec fn spec_next_outcome(d: Seq<u8>, pos: int, streams: Seq<(u32, Stream)>) -> Outcome<
    PacketModel,
>
    recommends
        0 <= pos <= d.len(),
{
    match spec_next_block(d, pos) {
        Ok(None) => Outcome::End,
        Err(e) => Outcome::Fail(e, d.len() as int),
        Ok(Some(b)) => {
            let (id, payload_start, payload_len) = b;
            let next_pos = payload_start + payload_len;
            match spec_find_stream(streams, id) {
                None => Outcome::Fail(PacketError::UnknownStreamId { id }, next_pos),
                Some(stream) => {
                    let payload = d.subrange(payload_start, payload_start + payload_len);
                    match stream.content {
                        StreamContent::Events => match spec_decode_events_payload(
                            payload,
                            stream.width,
                            stream.height,
                        ) {
                            Ok(evs) => Outcome::Emit(
                                PacketModel {
                                    stream_id: id,
                                    stream,
                                    content: PacketContentModel::Events(evs),
                                },
                                next_pos,
                            ),
                            Err(e) => Outcome::Fail(e, next_pos),
                        },
                        StreamContent::Frame => match spec_decode_frame_payload(payload) {
                            Ok(fm) => Outcome::Emit(
                                PacketModel {
                                    stream_id: id,
                                    stream,
                                    content: PacketContentModel::Frame(fm),
                                },
                                next_pos,
                            ),
                            Err(e) => Outcome::Fail(e, next_pos),
                        },
                        StreamContent::Imus => match spec_decode_imus_payload(payload) {
                            Ok(samples) => Outcome::Emit(
                                PacketModel {
                                    stream_id: id,
                                    stream,
                                    content: PacketContentModel::Imus(samples),
                                },
                                next_pos,
                            ),
                            Err(e) => Outcome::Fail(e, next_pos),
                        },
                        StreamContent::Triggers => match spec_decode_triggers_payload(payload) {
                            Ok(trs) => Outcome::Emit(
                                PacketModel {
                                    stream_id: id,
                                    stream,
                                    content: PacketContentModel::Triggers(trs),
                                },
                                next_pos,
                            ),
                            Err(e) => Outcome::Fail(e, next_pos),
                        },
                    }
                },
            }
        },
    }
}

/// A pull-based decoder over one in-memory recording. The registry is
/// built once at construction and never mutated; each pull frames the
/// next block, dispatches it by its owning stream's content kind,
/// decodes and validates it, and either yields a packet or moves to a
/// terminal state.
pub struct Decoder {
    pub data: Vec<u8>,
    pub position: usize,
    pub streams: Vec<(u32, Stream)>,
    pub state: DecoderState,
}

impl Decoder {
    /// The cursor always sits inside the data.
    pub open spec fn wf(self) -> bool {
        self.position <= self.data@.len()
    }

    /// Parses the header and builds the registry; the cursor becomes
    /// ready at the first block boundary only if the header is valid.
    pub fn new(data: Vec<u8>) -> (r: Result<Decoder, HeaderError>)
        ensures
            match r {
                Ok(dec) => {
                    &&& spec_parse_header(data@) == Ok::<_, HeaderError>(
                        (dec.streams@, dec.position as int),
                    )
                    &&& dec.data@ == data@
                    &&& dec.state is Ready
                    &&& dec.wf()
                },
                Err(e) => spec_parse_header(data@) == Err::<(Seq<(u32, Stream)>, int), _>(e),
            },
    {
        match parse_header(&data) {
            Ok((streams, header_len)) => {
                proof {
                    assert(header_len <= data@.len());
                }
                Ok(
                    Decoder {
                        data,
                        position: header_len,
                        streams,
                        state: DecoderState::Ready,
                    },
                )
            },
            Err(e) => Err(e),
        }
    }

    /// The registry, exposed read-only for introspection.
    pub fn id_to_stream(&self) -> (r: &Vec<(u32, Stream)>)
        ensures
            r@ == self.streams@,
    {
        &self.streams
    }

    /// Pulls the next packet. A ready cursor frames, dispatches,
    /// decodes and validates the next block; end of file and failure
    /// are terminal: an exhausted cursor keeps answering `Ok(None)`
    /// without re-reading anything, a failed cursor keeps answering
    /// the error that stopped it.
    pub fn next(&mut self) -> (r: Result<Option<Packet>, PacketError>)
        requires
            old(self).wf(),
        ensures
            final(self).wf(),
            final(self).data@ == old(self).data@,
            final(self).streams@ == old(self).streams@,
            old(self).state is Exhausted ==> r == Ok::<Option<Packet>, PacketError>(None)
                && *final(self) == *old(self),
            old(self).state matches DecoderState::Failed(e) ==> r == Err::<Option<Packet>,
                PacketError,
            >(e) && *final(self) == *old(self),
            old(self).state is Ready ==> match spec_next_outcome(
                old(self).data@,
                old(self).position as int,
                old(self).streams@,
            ) {
                Outcome::End => {
                    &&& r == Ok::<Option<Packet>, PacketError>(None)
                    &&& final(self).state is Exhausted
                    &&& final(self).position == old(self).position
                },
                Outcome::Emit(pm, next_pos) => {
                    &&& (match r {
                        Ok(Some(packet)) => packet@ == pm,
                        _ => false,
                    })
                    &&& final(self).position == next_pos
                    &&& final(self).state is Ready
                },
                Outcome::Fail(e, next_pos) => {
                    &&& r == Err::<Option<Packet>, PacketError>(e)
                    &&& final(self).position == next_pos
                    &&& final(self).state == DecoderState::Failed(e)
                },
            },
    {
        match self.state {
            DecoderState::Exhausted => {
                return Ok(None);
            },
            DecoderState::Failed(e) => {
                return Err(e);
            },
            DecoderState::Ready => {
            },
        }
        let pos = self.position;
        let (id, payload_start, payload_len) = match read_block(&self.data, pos) {
            Ok(None) => {
                self.state = DecoderState::Exhausted;
                return Ok(None);
            },
            Ok(Some(b)) => b,
            Err(e) => {
                self.state = DecoderState::Failed(e);
                self.position = self.data.len();
                return Err(e);
            },
        };
        proof {
            assert(self.data.len() <= usize::MAX);
        }
        let next_pos = payload_start + payload_len;
        let stream = match find_stream(&self.streams, id) {
            Some(stream) => stream,
            None => {
                let e = PacketError::UnknownStreamId { id };
                self.state = DecoderState::Failed(e);
                self.position = next_pos;
                return Err(e);
            },
        };
        let payload = copy_range(&self.data, payload_start, payload_len);
        self.position = next_pos;
        let decoded: Result<PacketContent, PacketError> = match stream.content {
            StreamContent::Events => match decode_events(&payload, stream.width, stream.height) {
                Ok(v) => Ok(PacketContent::Events(v)),
                Err(e) => Err(e),
            },
            StreamContent::Frame => match decode_frame(&payload) {
                Ok(f) => Ok(PacketContent::Frame(f)),
                Err(e) => Err(e),
            },
            StreamContent::Imus => match decode_imus(&payload) {
                Ok(v) => Ok(PacketContent::Imus(v)),
                Err(e) => Err(e),
            },
            StreamContent::Triggers => match decode_triggers(&payload) {
                Ok(v) => Ok(PacketContent::Triggers(v)),
                Err(e) => Err(e),
            },
        };
        match decoded {
            Ok(content) => Ok(Some(Packet { stream_id: id, stream, content })),
            Err(e) => {
                self.state = DecoderState::Failed(e);
                Err(e)
            },
        }
    }
}

} // verus!

