//! Decoder for the fixed-width single-stream container.
//!
//! On-disk layout:
//! - preamble: the four magic bytes `EVTS`, a version byte (`1`), and a
//!   file-wide event-kind code (`0` generic, `1` dvs, `2` atis,
//!   `3` color); for the pixel-addressed kinds the preamble ends with
//!   the sensor width and height (2 bytes each, little endian, both
//!   non-zero);
//! - a sequence of records with no outer frame. Dvs and atis records
//!   are 13 bytes, color records 15 bytes; a generic record holds a
//!   timestamp (8 bytes), a payload length (2 bytes) and that many
//!   payload bytes.
//!
//! The event kind is selected once at open time, not per packet. A pull
//! decodes every remaining record into one batch, in file order.

use vstd::prelude::*;

use crate::records::AtisEvent;
use crate::records::ColorEvent;
use crate::records::DecoderState;
use crate::records::DvsEvent;
use crate::records::GenericEvent;
use crate::records::GenericEventModel;
use crate::records::HeaderError;
use crate::records::Outcome;
use crate::records::PacketError;
use crate::records::lemma_compose_empty;
use crate::records::lemma_compose_final;
use crate::records::lemma_compose_snoc;
use crate::records::spec_compose;
use crate::wire::copy_range;
use crate::wire::load_u16_le;
use crate::wire::load_u64_le;
use crate::wire::u16_le;
use crate::wire::u64_le;

verus! {

/// The file-wide event kind, declared once in the preamble.
#[derive(Clone, Copy, PartialEq, Eq, Structural, Debug)]
pub enum EventStreamType {
    Generic,
    Dvs,
    Atis,
    Color,
}

/// The preamble starts with the bytes `EVTS`.
pub open spec fn spec_magic_ok(d: Seq<u8>) -> bool
    recommends
        d.len() >= 4,
{
    d[0] == 0x45 && d[1] == 0x56 && d[2] == 0x54 && d[3] == 0x53
}

/// The event kind named by a code below 4.
pub open spec fn spec_type_of_code(code: u8) -> EventStreamType
    recommends
        code <= 3,
{
    if code == 0 {
        EventStreamType::Generic
    } else if code == 1 {
        EventStreamType::Dvs
    } else if code == 2 {
        EventStreamType::Atis
    } else {
        EventStreamType::Color
    }
}

/// The event kind, geometry (zero for generic recordings, which carry
/// none) and header length declared by the preamble, or the reason the
/// preamble is rejected.
pub open spec fn spec_parse_header(d: Seq<u8>) -> Result<
    (EventStreamType, u16, u16, int),
    HeaderError,
> {
    if d.len() < 4 {
        Err(HeaderError::Truncated)
    } else if !spec_magic_ok(d) {
        Err(HeaderError::BadMagic)
    } else if d.len() < 6 {
        Err(HeaderError::Truncated)
    } else if d[4] != 1 {
        Err(HeaderError::UnsupportedVersion)
    } else if d[5] > 3 {
        Err(HeaderError::UnknownEventStreamType)
    } else if d[5] == 0 {
        Ok((EventStreamType::Generic, 0u16, 0u16, 6))
    } else if d.len() < 10 {
        Err(HeaderError::Truncated)
    } else {
        let width = u16_le(d.subrange(6, 8));
        let height = u16_le(d.subrange(8, 10));
        if width == 0 || height == 0 {
            Err(HeaderError::MissingGeometry)
        } else {
            Ok((spec_type_of_code(d[5]), width, height, 10))
        }
    }
}

/// Parses the preamble.
pub fn parse_header(d: &Vec<u8>) -> (r: Result<(EventStreamType, u16, u16, usize), HeaderError>)
    ensures
        match r {
            Ok(h) => spec_parse_header(d@) == Ok::<_, HeaderError>((h.0, h.1, h.2, h.3 as int)),
            Err(e) => spec_parse_header(d@) == Err::<(EventStreamType, u16, u16, int), _>(e),
        },
{
    if d.len() < 4 {
        return Err(HeaderError::Truncated);
    }
    if !(d[0] == 0x45 && d[1] == 0x56 && d[2] == 0x54 && d[3] == 0x53) {
        return Err(HeaderError::BadMagic);
    }
    if d.len() < 6 {
        return Err(HeaderError::Truncated);
    }
    if d[4] != 1 {
        return Err(HeaderError::UnsupportedVersion);
    }
    let code = d[5];
    if code > 3 {
        return Err(HeaderError::UnknownEventStreamType);
    }
    if code == 0 {
        return Ok((EventStreamType::Generic, 0, 0, 6));
    }
    if d.len() < 10 {
        return Err(HeaderError::Truncated);
    }
    let width = load_u16_le(d, 6);
    let height = load_u16_le(d, 8);
    if width == 0 || height == 0 {
        return Err(HeaderError::MissingGeometry);
    }
    let kind = if code == 1 {
        EventStreamType::Dvs
    } else if code == 2 {
        EventStreamType::Atis
    } else {
        EventStreamType::Color
    };
    Ok((kind, width, height, 10))
}

/// The 13-byte dvs record at `base`, validated against the geometry:
/// timestamp, unsigned x and y (2 bytes each), polarity byte.
pub open spec fn spec_dvs_at(d: Seq<u8>, base: int, width: u16, height: u16) -> Result<
    DvsEvent,
    PacketError,
>
    recommends
        0 <= base,
        base + 13 <= d.len(),
{
    let t = u64_le(d.subrange(base, base + 8));
    let x = u16_le(d.subrange(base + 8, base + 10));
    let y = u16_le(d.subrange(base + 10, base + 12));
    let on = d[base + 12] != 0;
    if x >= width {
        Err(PacketError::XOverflow { x: x as i32, width })
    } else if y >= height {
        Err(PacketError::YOverflow { y: y as i32, height })
    } else {
        Ok(DvsEvent { t, x, y, on })
    }
}

/// The dvs records from `pos` to the end of the data; the first invalid
/// or truncated record aborts the batch.
pub open spec fn spec_dvs_from(d: Seq<u8>, pos: int, width: u16, height: u16) -> Result<
    Seq<DvsEvent>,
    PacketError,
>
    recommends
        0 <= pos <= d.len(),
    decreases d.len() - pos,
{
    if pos >= d.len() {
        Ok(Seq::empty())
    } else if d.len() - pos < 13 {
        Err(PacketError::MissingSizePrefix)
    } else {
        match spec_dvs_at(d, pos, width, height) {
            Ok(ev) => spec_compose(seq![ev], spec_dvs_from(d, pos + 13, width, height)),
            Err(e) => Err(e),
        }
    }
}

/// Decodes every remaining dvs record.
pub fn decode_dvs(d: &Vec<u8>, start: usize, width: u16, height: u16) -> (r: Result<
    Vec<DvsEvent>,
    PacketError,
>)
    requires
        start <= d.len(),
    ensures
        match r {
            Ok(v) => spec_dvs_from(d@, start as int, width, height) == Ok::<_, PacketError>(v@),
            Err(e) => spec_dvs_from(d@, start as int, width, height) == Err::<Seq<DvsEvent>, _>(e),
        },
{
    let mut out: Vec<DvsEvent> = Vec::new();
    let mut pos = start;
    proof {
        lemma_compose_empty(spec_dvs_from(d@, start as int, width, height));
    }
    while pos < d.len()
        invariant
            start <= pos <= d@.len(),
            spec_dvs_from(d@, start as int, width, height) == spec_compose(
                out@,
                spec_dvs_from(d@, pos as int, width, height),
            ),
        decreases d@.len() - pos,
    {
        if d.len() - pos < 13 {
            return Err(PacketError::MissingSizePrefix);
        }
        let t = load_u64_le(d, pos);
        let x = load_u16_le(d, pos + 8);
        let y = load_u16_le(d, pos + 10);
        let on = d[pos + 12] != 0;
        if x >= width {
            let e = PacketError::XOverflow { x: x as i32, width };
            proof {
                assert(spec_dvs_at(d@, pos as int, width, height) == Err::<DvsEvent, PacketError>(
                    e,
                ));
            }
            return Err(e);
        }
        if y >= height {
            let e = PacketError::YOverflow { y: y as i32, height };
            proof {
                assert(spec_dvs_at(d@, pos as int, width, height) == Err::<DvsEvent, PacketError>(
                    e,
                ));
            }
            return Err(e);
        }
        let ev = DvsEvent { t, x, y, on };
        proof {
            assert(spec_dvs_at(d@, pos as int, width, height) == Ok::<_, PacketError>(ev));
            lemma_compose_snoc(out@, ev, spec_dvs_from(d@, pos as int + 13, width, height));
        }
        out.push(ev);
        pos = pos + 13;
    }
    proof {
        lemma_compose_final(out@);
    }
    Ok(out)
}

/// Every decoded dvs event lies within the recording geometry.
pub proof fn lemma_dvs_in_bounds(d: Seq<u8>, pos: int, width: u16, height: u16, evs: Seq<DvsEvent>)
    requires
        spec_dvs_from(d, pos, width, height) == Ok::<_, PacketError>(evs),
    ensures
        forall|k: int| 0 <= k < evs.len() ==> (#[trigger] evs[k]).x < width && evs[k].y < height,
    decreases d.len() - pos,
{
    if pos >= d.len() || d.len() - pos < 13 {
    } else {
        match spec_dvs_at(d, pos, width, height) {
            Ok(ev) => {
                match spec_dvs_from(d, pos + 13, width, height) {
                    Ok(rest) => {
                        lemma_dvs_in_bounds(d, pos + 13, width, height, rest);
                        assert(evs == seq![ev] + rest);
                        assert forall|k: int| 0 <= k < evs.len() implies (#[trigger] evs[k]).x
                            < width && evs[k].y < height by {
                            if k == 0 {
                                assert(evs[0] == ev);
                            } else {
                                assert(evs[k] == rest[k - 1]);
                            }
                        }
                    },
                    Err(_) => {
                    },
                }
            },
            Err(_) => {
            },
        }
    }
}

/// The 13-byte atis record at `base`: timestamp, unsigned x and y, and
/// a code byte whose lowest bit is the exposure flag and second-lowest
/// bit the polarity value.
pub open spec fn spec_atis_at(d: Seq<u8>, base: int, width: u16, height: u16) -> Result<
    AtisEvent,
    PacketError,
>
    recommends
        0 <= base,
        base + 13 <= d.len(),
{
    let t = u64_le(d.subrange(base, base + 8));
    let x = u16_le(d.subrange(base + 8, base + 10));
    let y = u16_le(d.subrange(base + 10, base + 12));
    let code = d[base + 12];
    if x >= width {
        Err(PacketError::XOverflow { x: x as i32, width })
    } else if y >= height {
        Err(PacketError::YOverflow { y: y as i32, height })
    } else {
        Ok(AtisEvent { t, x, y, exposure: code & 1 != 0, polarity: code & 2 != 0 })
    }
}

/// The atis records from `pos` to the end of the data.
pub open spec fn spec_atis_from(d: Seq<u8>, pos: int, width: u16, height: u16) -> Result<
    Seq<AtisEvent>,
    PacketError,
>
    recommends
        0 <= pos <= d.len(),
    decreases d.len() - pos,
{
    if pos >= d.len() {
        Ok(Seq::empty())
    } else if d.len() - pos < 13 {
        Err(PacketError::MissingSizePrefix)
    } else {
        match spec_atis_at(d, pos, width, height) {
            Ok(ev) => spec_compose(seq![ev], spec_atis_from(d, pos + 13, width, height)),
            Err(e) => Err(e),
        }
    }
}

/// Decodes every remaining atis record.
pub fn decode_atis(d: &Vec<u8>, start: usize, width: u16, height: u16) -> (r: Result<
    Vec<AtisEvent>,
    PacketError,
>)
    requires
        start <= d.len(),
    ensures
        match r {
            Ok(v) => spec_atis_from(d@, start as int, width, height) == Ok::<_, PacketError>(v@),
            Err(e) => spec_atis_from(d@, start as int, width, height) == Err::<
                Seq<AtisEvent>,
                _,
            >(e),
        },
{
    let mut out: Vec<AtisEvent> = Vec::new();
    let mut pos = start;
    proof {
        lemma_compose_empty(spec_atis_from(d@, start as int, width, height));
    }
    while pos < d.len()
        invariant
            start <= pos <= d@.len(),
            spec_atis_from(d@, start as int, width, height) == spec_compose(
                out@,
                spec_atis_from(d@, pos as int, width, height),
            ),
        decreases d@.len() - pos,
    {
        if d.len() - pos < 13 {
            return Err(PacketError::MissingSizePrefix);
        }
        let t = load_u64_le(d, pos);
        let x = load_u16_le(d, pos + 8);
        let y = load_u16_le(d, pos + 10);
        let code = d[pos + 12];
        if x >= width {
            let e = PacketError::XOverflow { x: x as i32, width };
            proof {
                assert(spec_atis_at(d@, pos as int, width, height) == Err::<AtisEvent, PacketError>(
                    e,
                ));
            }
            return Err(e);
        }
        if y >= height {
            let e = PacketError::YOverflow { y: y as i32, height };
            proof {
                assert(spec_atis_at(d@, pos as int, width, height) == Err::<AtisEvent, PacketError>(
                    e,
                ));
            }
            return Err(e);
        }
        let ev = AtisEvent { t, x, y, exposure: code & 1 != 0, polarity: code & 2 != 0 };
        proof {
            assert(spec_atis_at(d@, pos as int, width, height) == Ok::<_, PacketError>(ev));
            lemma_compose_snoc(out@, ev, spec_atis_from(d@, pos as int + 13, width, height));
        }
        out.push(ev);
        pos = pos + 13;
    }
    proof {
        lemma_compose_final(out@);
    }
    Ok(out)
}

/// Every decoded atis event lies within the recording geometry.
pub proof fn lemma_atis_in_bounds(
    d: Seq<u8>,
    pos: int,
    width: u16,
    height: u16,
    evs: Seq<AtisEvent>,
)
    requires
        spec_atis_from(d, pos, width, height) == Ok::<_, PacketError>(evs),
    ensures
        forall|k: int| 0 <= k < evs.len() ==> (#[trigger] evs[k]).x < width && evs[k].y < height,
    decreases d.len() - pos,
{
    if pos >= d.len() || d.len() - pos < 13 {
    } else {
        match spec_atis_at(d, pos, width, height) {
            Ok(ev) => {
                match spec_atis_from(d, pos + 13, width, height) {
                    Ok(rest) => {
                        lemma_atis_in_bounds(d, pos + 13, width, height, rest);
                        assert(evs == seq![ev] + rest);
                        assert forall|k: int| 0 <= k < evs.len() implies (#[trigger] evs[k]).x
                            < width && evs[k].y < height by {
                            if k == 0 {
                                assert(evs[0] == ev);
                            } else {
                                assert(evs[k] == rest[k - 1]);
                            }
                        }
                    },
                    Err(_) => {
                    },
                }
            },
            Err(_) => {
            },
        }
    }
}

/// The 15-byte color record at `base`: timestamp, unsigned x and y,
/// then one byte per color channel.
pub open spec fn spec_color_at(d: Seq<u8>, base: int, width: u16, height: u16) -> Result<
    ColorEvent,
    PacketError,
>
    recommends
        0 <= base,
        base + 15 <= d.len(),
{
    let t = u64_le(d.subrange(base, base + 8));
    let x = u16_le(d.subrange(base + 8, base + 10));
    let y = u16_le(d.subrange(base + 10, base + 12));
    if x >= width {
        Err(PacketError::XOverflow { x: x as i32, width })
    } else if y >= height {
        Err(PacketError::YOverflow { y: y as i32, height })
    } else {
        Ok(ColorEvent { t, x, y, r: d[base + 12], g: d[base + 13], b: d[base + 14] })
    }
}

/// The color records from `pos` to the end of the data.
pub open spec fn spec_color_from(d: Seq<u8>, pos: int, width: u16, height: u16) -> Result<
    Seq<ColorEvent>,
    PacketError,
>
    recommends
        0 <= pos <= d.len(),
    decreases d.len() - pos,
{
    if pos >= d.len() {
        Ok(Seq::empty())
    } else if d.len() - pos < 15 {
        Err(PacketError::MissingSizePrefix)
    } else {
        match spec_color_at(d, pos, width, height) {
            Ok(ev) => spec_compose(seq![ev], spec_color_from(d, pos + 15, width, height)),
            Err(e) => Err(e),
        }
    }
}

/// Decodes every remaining color record.
pub fn decode_color(d: &Vec<u8>, start: usize, width: u16, height: u16) -> (r: Result<
    Vec<ColorEvent>,
    PacketError,
>)
    requires
        start <= d.len(),
    ensures
        match r {
            Ok(v) => spec_color_from(d@, start as int, width, height) == Ok::<_, PacketError>(v@),
            Err(e) => spec_color_from(d@, start as int, width, height) == Err::<
                Seq<ColorEvent>,
                _,
            >(e),
        },
{
    let mut out: Vec<ColorEvent> = Vec::new();
    let mut pos = start;
    proof {
        lemma_compose_empty(spec_color_from(d@, start as int, width, height));
    }
    while pos < d.len()
        invariant
            start <= pos <= d@.len(),
            spec_color_from(d@, start as int, width, height) == spec_compose(
                out@,
                spec_color_from(d@, pos as int, width, height),
            ),
        decreases d@.len() - pos,
    {
        if d.len() - pos < 15 {
            return Err(PacketError::MissingSizePrefix);
        }
        let t = load_u64_le(d, pos);
        let x = load_u16_le(d, pos + 8);
        let y = load_u16_le(d, pos + 10);
        if x >= width {
            let e = PacketError::XOverflow { x: x as i32, width };
            proof {
                assert(spec_color_at(d@, pos as int, width, height) == Err::<
                    ColorEvent,
                    PacketError,
                >(e));
            }
            return Err(e);
        }
        if y >= height {
            let e = PacketError::YOverflow { y: y as i32, height };
            proof {
                assert(spec_color_at(d@, pos as int, width, height) == Err::<
                    ColorEvent,
                    PacketError,
                >(e));
            }
            return Err(e);
        }
        let ev = ColorEvent { t, x, y, r: d[pos + 12], g: d[pos + 13], b: d[pos + 14] };
        proof {
            assert(spec_color_at(d@, pos as int, width, height) == Ok::<_, PacketError>(ev));
            lemma_compose_snoc(out@, ev, spec_color_from(d@, pos as int + 15, width, height));
        }
        out.push(ev);
        pos = pos + 15;
    }
    proof {
        lemma_compose_final(out@);
    }
    Ok(out)
}

/// Every decoded color event lies within the recording geometry.
pub proof fn lemma_color_in_bounds(
    d: Seq<u8>,
    pos: int,
    width: u16,
    height: u16,
    evs: Seq<ColorEvent>,
)
    requires
        spec_color_from(d, pos, width, height) == Ok::<_, PacketError>(evs),
    ensures
        forall|k: int| 0 <= k < evs.len() ==> (#[trigger] evs[k]).x < width && evs[k].y < height,
    decreases d.len() - pos,
{
    if pos >= d.len() || d.len() - pos < 15 {
    } else {
        match spec_color_at(d, pos, width, height) {
            Ok(ev) => {
                match spec_color_from(d, pos + 15, width, height) {
                    Ok(rest) => {
                        lemma_color_in_bounds(d, pos + 15, width, height, rest);
                        assert(evs == seq![ev] + rest);
                        assert forall|k: int| 0 <= k < evs.len() implies (#[trigger] evs[k]).x
                            < width && evs[k].y < height by {
                            if k == 0 {
                                assert(evs[0] == ev);
                            } else {
                                assert(evs[k] == rest[k - 1]);
                            }
                        }
                    },
                    Err(_) => {
                    },
                }
            },
            Err(_) => {
            },
        }
    }
}

/// The generic records from `pos` to the end of the data. Each record
/// carries its own payload length; a record whose declared length
/// exceeds the remaining bytes aborts the batch.
pub open spec fn spec_generic_from(d: Seq<u8>, pos: int) -> Result<
    Seq<GenericEventModel>,
    PacketError,
>
    recommends
        0 <= pos <= d.len(),
    decreases d.len() - pos,
{
    if pos >= d.len() {
        Ok(Seq::empty())
    } else if d.len() - pos < 10 {
        Err(PacketError::MissingSizePrefix)
    } else {
        let t = u64_le(d.subrange(pos, pos + 8));
        let len = u16_le(d.subrange(pos + 8, pos + 10)) as int;
        if d.len() - pos - 10 < len {
            Err(PacketError::MissingSizePrefix)
        } else {
            let ev = GenericEventModel { t, payload: d.subrange(pos + 10, pos + 10 + len) };
            spec_compose(seq![ev], spec_generic_from(d, pos + 10 + len))
        }
    }
}

/// A generic record whose length field is truncated, or whose declared
/// payload length exceeds the remaining bytes, always aborts the batch.
pub proof fn lemma_generic_oversized_fails(d: Seq<u8>, pos: int)
    requires
        0 <= pos < d.len(),
        d.len() - pos < 10 || u16_le(d.subrange(pos + 8, pos + 10)) as int > d.len() - pos - 10,
    ensures
        spec_generic_from(d, pos) == Err::<Seq<GenericEventModel>, _>(
            PacketError::MissingSizePrefix,
        ),
{
}

/// Decodes every remaining generic record.
pub fn decode_generic(d: &Vec<u8>, start: usize) -> (r: Result<Vec<GenericEvent>, PacketError>)
    requires
        start <= d.len(),
    ensures
        match r {
            Ok(v) => spec_generic_from(d@, start as int) == Ok::<_, PacketError>(
                v@.map_values(|e: GenericEvent| e@),
            ),
            Err(e) => spec_generic_from(d@, start as int) == Err::<Seq<GenericEventModel>, _>(e),
        },
{
    let mut out: Vec<GenericEvent> = Vec::new();
    let mut pos = start;
    proof {
        lemma_compose_empty(spec_generic_from(d@, start as int));
        assert(out@.map_values(|e: GenericEvent| e@) =~= Seq::<GenericEventModel>::empty());
    }
    while pos < d.len()
        invariant
            start <= pos <= d@.len(),
            spec_generic_from(d@, start as int) == spec_compose(
                out@.map_values(|e: GenericEvent| e@),
                spec_generic_from(d@, pos as int),
            ),
        decreases d@.len() - pos,
    {
        if d.len() - pos < 10 {
            return Err(PacketError::MissingSizePrefix);
        }
        let t = load_u64_le(d, pos);
        let len = load_u16_le(d, pos + 8) as usize;
        if d.len() - pos - 10 < len {
            return Err(PacketError::MissingSizePrefix);
        }
        let payload = copy_range(d, pos + 10, len);
        let ev = GenericEvent { t, payload };
        proof {
            let models = out@.map_values(|e: GenericEvent| e@);
            lemma_compose_snoc(models, ev@, spec_generic_from(d@, pos as int + 10 + len as int));
            assert(out@.push(ev).map_values(|e: GenericEvent| e@) =~= models.push(ev@));
        }
        out.push(ev);
        pos = pos + 10 + len;
    }
    proof {
        lemma_compose_final(out@.map_values(|e: GenericEvent| e@));
    }
    Ok(out)
}

/// One decoded batch of the file-wide event kind.
pub enum Packet {
    Generic(Vec<GenericEvent>),
    Dvs(Vec<DvsEvent>),
    Atis(Vec<AtisEvent>),
    Color(Vec<ColorEvent>),
}

pub enum PacketModel {
    Generic(Seq<GenericEventModel>),
    Dvs(Seq<DvsEvent>),
    Atis(Seq<AtisEvent>),
    Color(Seq<ColorEvent>),
}

impl View for Packet {
    type V = PacketModel;

    open spec fn view(&self) -> PacketModel {
        match self {
            Packet::Generic(v) => PacketModel::Generic(v@.map_values(|e: GenericEvent| e@)),
            Packet::Dvs(v) => PacketModel::Dvs(v@),
            Packet::Atis(v) => PacketModel::Atis(v@),
            Packet::Color(v) => PacketModel::Color(v@),
        }
    }
}

/// What one pull at `pos` must produce: clean end of file, one batch of
/// every remaining record together with the end position, or the first
/// error met while decoding or validating them.
pub open spec fn spec_next_outcome(
    d: Seq<u8>,
    pos: int,
    kind: EventStreamType,
    width: u16,
    height: u16,
) -> Outcome<PacketModel>
    recommends
        0 <= pos <= d.len(),
{
    if pos == d.len() {
        Outcome::End
    } else {
        match kind {
            EventStreamType::Generic => match spec_generic_from(d, pos) {
                Ok(evs) => Outcome::Emit(PacketModel::Generic(evs), d.len() as int),
                Err(e) => Outcome::Fail(e, d.len() as int),
            },
            EventStreamType::Dvs => match spec_dvs_from(d, pos, width, height) {
                Ok(evs) => Outcome::Emit(PacketModel::Dvs(evs), d.len() as int),
                Err(e) => Outcome::Fail(e, d.len() as int),
            },
            EventStreamType::Atis => match spec_atis_from(d, pos, width, height) {
                Ok(evs) => Outcome::Emit(PacketModel::Atis(evs), d.len() as int),
                Err(e) => Outcome::Fail(e, d.len() as int),
            },
            EventStreamType::Color => match spec_color_from(d, pos, width, height) {
                Ok(evs) => Outcome::Emit(PacketModel::Color(evs), d.len() as int),
                Err(e) => Outcome::Fail(e, d.len() as int),
            },
        }
    }
}

/// A pull-based decoder over one in-memory recording whose event kind
/// is fixed at open time.
pub struct Decoder {
    pub data: Vec<u8>,
    pub position: usize,
    pub event_stream_type: EventStreamType,
    pub width: u16,
    pub height: u16,
    pub state: DecoderState,
}

impl Decoder {
    /// The cursor always sits inside the data.
    pub open spec fn wf(self) -> bool {
        self.position <= self.data@.len()
    }

    /// Parses the preamble; the cursor becomes ready at the first
    /// record only if the preamble is valid.
    pub fn new(data: Vec<u8>) -> (r: Result<Decoder, HeaderError>)
        ensures
            match r {
                Ok(dec) => {
                    &&& spec_parse_header(data@) == Ok::<_, HeaderError>(
                        (dec.event_stream_type, dec.width, dec.height, dec.position as int),
                    )
                    &&& dec.data@ == data@
                    &&& dec.state is Ready
                    &&& dec.wf()
                },
                Err(e) => spec_parse_header(data@) == Err::<(EventStreamType, u16, u16, int), _>(
                    e,
                ),
            },
    {
        match parse_header(&data) {
            Ok((kind, width, height, header_len)) => {
                proof {
                    assert(header_len <= data@.len());
                }
                Ok(
                    Decoder {
                        data,
                        position: header_len,
                        event_stream_type: kind,
                        width,
                        height,
                        state: DecoderState::Ready,
                    },
                )
            },
            Err(e) => Err(e),
        }
    }

    /// The file-wide event kind.
    pub fn event_stream_type(&self) -> (r: EventStreamType)
        ensures
            r == self.event_stream_type,
    {
        self.event_stream_type
    }

    /// The sensor width; generic recordings carry none.
    pub fn width(&self) -> (r: Option<u16>)
        ensures
            r == if self.event_stream_type is Generic {
                None::<u16>
            } else {
                Some(self.width)
            },
    {
        match self.event_stream_type {
            EventStreamType::Generic => None,
            _ => Some(self.width),
        }
    }

    /// The sensor height; generic recordings carry none.
    pub fn height(&self) -> (r: Option<u16>)
        ensures
            r == if self.event_stream_type is Generic {
                None::<u16>
            } else {
                Some(self.height)
            },
    {
        match self.event_stream_type {
            EventStreamType::Generic => None,
            _ => Some(self.height),
        }
    }

    /// Pulls the next packet: one batch of every remaining record, in
    /// file order. End of file and failure are terminal: an exhausted
    /// cursor keeps answering `Ok(None)` without re-reading anything,
    /// a failed cursor keeps answering the error that stopped it.
    pub fn next(&mut self) -> (r: Result<Option<Packet>, PacketError>)
        requires
            old(self).wf(),
        ensures
            final(self).wf(),
            final(self).data@ == old(self).data@,
            final(self).event_stream_type == old(self).event_stream_type,
            final(self).width == old(self).width,
            final(self).height == old(self).height,
            old(self).state is Exhausted ==> r == Ok::<Option<Packet>, PacketError>(None)
                && *final(self) == *old(self),
            old(self).state matches DecoderState::Failed(e) ==> r == Err::<Option<Packet>,
                PacketError,
            >(e) && *final(self) == *old(self),
            old(self).state is Ready ==> match spec_next_outcome(
                old(self).data@,
                old(self).position as int,
                old(self).event_stream_type,
                old(self).width,
                old(self).height,
            ) {
                Outcome::End => {
                    &&& r == Ok::<Option<Packet>, PacketError>(None)
                    &&& final(self).state is Exhausted
                    &&& final(self).position == old(self).position
                },
                Outcome::Emit(pm, next_pos) => {
                    &&& (match r {
                        Ok(Some(packet)) => packet@ == pm,
                        _ => false,
                    })
                    &&& final(self).position == next_pos
                    &&& final(self).state is Ready
                },
                Outcome::Fail(e, next_pos) => {
                    &&& r == Err::<Option<Packet>, PacketError>(e)
                    &&& final(self).position == next_pos
                    &&& final(self).state == DecoderState::Failed(e)
                },
            },
    {
        match self.state {
            DecoderState::Exhausted => {
                return Ok(None);
            },
            DecoderState::Failed(e) => {
                return Err(e);
            },
            DecoderState::Ready => {
            },
        }
        if self.position == self.data.len() {
            self.state = DecoderState::Exhausted;
            return Ok(None);
        }
        let start = self.position;
        self.position = self.data.len();
        let decoded: Result<Packet, PacketError> = match self.event_stream_type {
            EventStreamType::Generic => match decode_generic(&self.data, start) {
                Ok(v) => Ok(Packet::Generic(v)),
                Err(e) => Err(e),
            },
            EventStreamType::Dvs => match decode_dvs(&self.data, start, self.width, self.height) {
                Ok(v) => Ok(Packet::Dvs(v)),
                Err(e) => Err(e),
            },
            EventStreamType::Atis => match decode_atis(
                &self.data,
                start,
                self.width,
                self.height,
            ) {
                Ok(v) => Ok(Packet::Atis(v)),
                Err(e) => Err(e),
            },
            EventStreamType::Color => match decode_color(
                &self.data,
                start,
                self.width,
                self.height,
            ) {
                Ok(v) => Ok(Packet::Color(v)),
                Err(e) => Err(e),
            },
        };
        match decoded {
            Ok(packet) => Ok(Some(packet)),
            Err(e) => {
                self.state = DecoderState::Failed(e);
                Err(e)
            },
        }
    }
}

} // verus!
