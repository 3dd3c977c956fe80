//! Record types shared by the container decoders, their mathematical
//! models, and the error taxonomy.

use vstd::prelude::*;

verus! {

/// The shape of records a stream carries.
#[derive(Clone, Copy, PartialEq, Eq, Structural, Debug)]
pub enum StreamContent {
    Events,
    Frame,
    Imus,
    Triggers,
}

/// One logical stream of a recording: its content kind and, for
/// pixel-addressed content, the sensor geometry.
#[derive(Clone, Copy, PartialEq, Eq, Structural, Debug)]
pub struct Stream {
    pub content: StreamContent,
    pub width: u16,
    pub height: u16,
}

impl Stream {
    /// Pixel-addressed content carries a non-degenerate geometry.
    pub open spec fn wf(self) -> bool {
        (self.content is Events || self.content is Frame) ==> (self.width > 0 && self.height > 0)
    }
}

/// A pixel-change event: timestamp, coordinates, polarity.
#[derive(Clone, Copy, PartialEq, Eq, Structural, Debug)]
pub struct DvsEvent {
    pub t: u64,
    pub x: u16,
    pub y: u16,
    pub on: bool,
}

/// A pixel-change event with an exposure-measurement flag.
#[derive(Clone, Copy, PartialEq, Eq, Structural, Debug)]
pub struct AtisEvent {
    pub t: u64,
    pub x: u16,
    pub y: u16,
    pub exposure: bool,
    pub polarity: bool,
}

/// A color-change event.
#[derive(Clone, Copy, PartialEq, Eq, Structural, Debug)]
pub struct ColorEvent {
    pub t: u64,
    pub x: u16,
    pub y: u16,
    pub r: u8,
    pub g: u8,
    pub b: u8,
}

/// A timestamped opaque payload.
#[derive(Clone, PartialEq, Eq, Debug)]
pub struct GenericEvent {
    pub t: u64,
    pub payload: Vec<u8>,
}

pub struct GenericEventModel {
    pub t: u64,
    pub payload: Seq<u8>,
}

impl View for GenericEvent {
    type V = GenericEventModel;

    open spec fn view(&self) -> GenericEventModel {
        GenericEventModel { t: self.t, payload: self.payload@ }
    }
}

/// Pixel layout of a frame record. The exposed pixel buffer always uses
/// red-first channel order; `Bgr` and `Bgra` name the on-disk order.
#[derive(Clone, Copy, PartialEq, Eq, Structural, Debug)]
pub enum FrameFormat {
    Gray,
    Bgr,
    Bgra,
}

impl FrameFormat {
    /// Bytes per pixel.
    pub open spec fn spec_channels(self) -> u8 {
        match self {
            FrameFormat::Gray => 1,
            FrameFormat::Bgr => 3,
            FrameFormat::Bgra => 4,
        }
    }

    /// Bytes per pixel.
    pub fn channels(self) -> (r: u8)
        ensures
            r == self.spec_channels(),
    {
        match self {
            FrameFormat::Gray => 1,
            FrameFormat::Bgr => 3,
            FrameFormat::Bgra => 4,
        }
    }
}

/// One conventional image frame. `pixels` is a row-major buffer of
/// exactly `width * height * channels` bytes in red-first channel order.
#[derive(Clone, PartialEq, Eq, Debug)]
pub struct Frame {
    pub t: u64,
    pub begin_t: u64,
    pub end_t: u64,
    pub exposure_begin_t: u64,
    pub exposure_end_t: u64,
    pub format: FrameFormat,
    pub width: u16,
    pub height: u16,
    pub offset_x: i16,
    pub offset_y: i16,
    pub pixels: Vec<u8>,
}

pub struct FrameModel {
    pub t: u64,
    pub begin_t: u64,
    pub end_t: u64,
    pub exposure_begin_t: u64,
    pub exposure_end_t: u64,
    pub format: FrameFormat,
    pub width: u16,
    pub height: u16,
    pub offset_x: i16,
    pub offset_y: i16,
    pub pixels: Seq<u8>,
}

impl View for Frame {
    type V = FrameModel;

    open spec fn view(&self) -> FrameModel {
        FrameModel {
            t: self.t,
            begin_t: self.begin_t,
            end_t: self.end_t,
            exposure_begin_t: self.exposure_begin_t,
            exposure_end_t: self.exposure_end_t,
            format: self.format,
            width: self.width,
            height: self.height,
            offset_x: self.offset_x,
            offset_y: self.offset_y,
            pixels: self.pixels@,
        }
    }
}

/// One inertial-measurement sample. The floating-point quantities are
/// carried as raw little-endian IEEE-754 single-precision bit patterns;
/// reinterpreting them is left to the consumer.
#[derive(Clone, Copy, PartialEq, Eq, Structural, Debug)]
pub struct ImuSample {
    pub t: u64,
    pub temperature: u32,
    pub accelerometer_x: u32,
    pub accelerometer_y: u32,
    pub accelerometer_z: u32,
    pub gyroscope_x: u32,
    pub gyroscope_y: u32,
    pub gyroscope_z: u32,
    pub magnetometer_x: u32,
    pub magnetometer_y: u32,
    pub magnetometer_z: u32,
}

/// The cause of a trigger event.
#[derive(Clone, Copy, PartialEq, Eq, Structural, Debug)]
pub enum TriggerSource {
    TimestampReset,
    ExternalSignalRisingEdge,
    ExternalSignalFallingEdge,
    ExternalSignalPulse,
    ExternalGeneratorRisingEdge,
    ExternalGeneratorFallingEdge,
    FrameBegin,
    FrameEnd,
    ExposureBegin,
    ExposureEnd,
}

/// The wire code of each trigger source.
pub open spec fn spec_trigger_source_code(s: TriggerSource) -> u8 {
    match s {
        TriggerSource::TimestampReset => 0,
        TriggerSource::ExternalSignalRisingEdge => 1,
        TriggerSource::ExternalSignalFallingEdge => 2,
        TriggerSource::ExternalSignalPulse => 3,
        TriggerSource::ExternalGeneratorRisingEdge => 4,
        TriggerSource::ExternalGeneratorFallingEdge => 5,
        TriggerSource::FrameBegin => 6,
        TriggerSource::FrameEnd => 7,
        TriggerSource::ExposureBegin => 8,
        TriggerSource::ExposureEnd => 9,
    }
}

/// The trigger source named by a wire code, if the code is a member of
/// the enumeration.
pub open spec fn spec_trigger_source_of_code(code: u8) -> Option<TriggerSource> {
    if code == 0 {
        Some(TriggerSource::TimestampReset)
    } else if code == 1 {
        Some(TriggerSource::ExternalSignalRisingEdge)
    } else if code == 2 {
        Some(TriggerSource::ExternalSignalFallingEdge)
    } else if code == 3 {
        Some(TriggerSource::ExternalSignalPulse)
    } else if code == 4 {
        Some(TriggerSource::ExternalGeneratorRisingEdge)
    } else if code == 5 {
        Some(TriggerSource::ExternalGeneratorFallingEdge)
    } else if code == 6 {
        Some(TriggerSource::FrameBegin)
    } else if code == 7 {
        Some(TriggerSource::FrameEnd)
    } else if code == 8 {
        Some(TriggerSource::ExposureBegin)
    } else if code == 9 {
        Some(TriggerSource::ExposureEnd)
    } else {
        None
    }
}

pub fn trigger_source_of_code(code: u8) -> (r: Option<TriggerSource>)
    ensures
        r == spec_trigger_source_of_code(code),
        r is Some <==> code <= 9,
{
    if code == 0 {
        Some(TriggerSource::TimestampReset)
    } else if code == 1 {
        Some(TriggerSource::ExternalSignalRisingEdge)
    } else if code == 2 {
        Some(TriggerSource::ExternalSignalFallingEdge)
    } else if code == 3 {
        Some(TriggerSource::ExternalSignalPulse)
    } else if code == 4 {
        Some(TriggerSource::ExternalGeneratorRisingEdge)
    } else if code == 5 {
        Some(TriggerSource::ExternalGeneratorFallingEdge)
    } else if code == 6 {
        Some(TriggerSource::FrameBegin)
    } else if code == 7 {
        Some(TriggerSource::FrameEnd)
    } else if code == 8 {
        Some(TriggerSource::ExposureBegin)
    } else if code == 9 {
        Some(TriggerSource::ExposureEnd)
    } else {
        None
    }
}

/// The wire code of a trigger source.
pub fn trigger_source_code(s: TriggerSource) -> (r: u8)
    ensures
        r == spec_trigger_source_code(s),
{
    match s {
        TriggerSource::TimestampReset => 0,
        TriggerSource::ExternalSignalRisingEdge => 1,
        TriggerSource::ExternalSignalFallingEdge => 2,
        TriggerSource::ExternalSignalPulse => 3,
        TriggerSource::ExternalGeneratorRisingEdge => 4,
        TriggerSource::ExternalGeneratorFallingEdge => 5,
        TriggerSource::FrameBegin => 6,
        TriggerSource::FrameEnd => 7,
        TriggerSource::ExposureBegin => 8,
        TriggerSource::ExposureEnd => 9,
    }
}

/// Wire codes and trigger sources name each other uniquely.
pub proof fn lemma_trigger_source_code_round_trip(s: TriggerSource, code: u8)
    ensures
        spec_trigger_source_of_code(spec_trigger_source_code(s)) == Some(s),
        spec_trigger_source_of_code(code) matches Some(r) ==> spec_trigger_source_code(r)
            == code,
{
}

/// One discrete trigger event.
#[derive(Clone, Copy, PartialEq, Eq, Structural, Debug)]
pub struct TriggerEvent {
    pub t: u64,
    pub source: TriggerSource,
}

/// A failure while opening a recording: the header could not be parsed.
#[derive(Clone, Copy, PartialEq, Eq, Structural, Debug)]
pub enum HeaderError {
    /// The preamble ends before the declared descriptors do.
    Truncated,
    /// The magic tag is absent.
    BadMagic,
    /// The version tag names a layout this decoder does not know.
    UnsupportedVersion,
    /// A stream descriptor names a content kind outside the enumeration.
    UnknownStreamContent,
    /// A pixel-addressed stream descriptor lacks its geometry.
    MissingGeometry,
    /// Two stream descriptors carry the same id.
    DuplicateStreamId,
    /// The file-wide event kind is outside the enumeration.
    UnknownEventStreamType,
}

/// A failure while pulling the next packet. Every variant is terminal
/// for the decoder that returned it.
#[derive(Clone, Copy, PartialEq, Eq, Structural, Debug)]
pub enum PacketError {
    /// A block's size prefix is truncated, its declared length exceeds
    /// the remaining bytes, or an embedded record overruns its block.
    MissingSizePrefix,
    /// A block names a stream id the header did not declare.
    UnknownStreamId { id: u32 },
    /// An events, imus or triggers block lacks its elements field
    /// altogether (as opposed to carrying an empty list).
    EmptyEventsPacket,
    /// A frame record's format code is outside the enumeration.
    UnknownFrameFormat,
    /// A trigger record's source code is outside the enumeration.
    UnknownTriggerSource,
    /// An event's horizontal coordinate falls outside the stream geometry.
    XOverflow { x: i32, width: u16 },
    /// An event's vertical coordinate falls outside the stream geometry.
    YOverflow { y: i32, height: u16 },
}

/// The phase of a decoder's pull protocol. `Exhausted` and `Failed` are
/// terminal.
#[derive(Clone, Copy, PartialEq, Eq, Structural, Debug)]
pub enum DecoderState {
    Ready,
    Exhausted,
    Failed(PacketError),
}

/// What one pull must produce: clean end of stream, a packet together
/// with the byte position after its block, or an error together with the
/// position the cursor is left at.
pub enum Outcome<P> {
    End,
    Emit(P, int),
    Fail(PacketError, int),
}

/// A batch decode that produced `prefix` so far and continues as `rest`.
pub open spec fn spec_compose<T>(prefix: Seq<T>, rest: Result<Seq<T>, PacketError>) -> Result<
    Seq<T>,
    PacketError,
> {
    match rest {
        Ok(r) => Ok(prefix + r),
        Err(e) => Err(e),
    }
}

pub proof fn lemma_compose_empty<T>(rest: Result<Seq<T>, PacketError>)
    ensures
        spec_compose(Seq::<T>::empty(), rest) == rest,
{
    match rest {
        Ok(r) => {
            assert(Seq::<T>::empty() + r =~= r);
        },
        Err(_) => {
        },
    }
}

pub proof fn lemma_compose_snoc<T>(prefix: Seq<T>, x: T, rest: Result<Seq<T>, PacketError>)
    ensures
        spec_compose(prefix, spec_compose(seq![x], rest)) == spec_compose(prefix.push(x), rest),
{
    match rest {
        Ok(r) => {
            assert(prefix + (seq![x] + r) =~= prefix.push(x) + r);
        },
        Err(_) => {
        },
    }
}

pub proof fn lemma_compose_final<T>(prefix: Seq<T>)
    ensures
        spec_compose(prefix, Ok::<Seq<T>, PacketError>(Seq::<T>::empty())) == Ok::<
            Seq<T>,
            PacketError,
        >(prefix),
{
    assert(prefix + Seq::<T>::empty() =~= prefix);
}

/// The pixel buffer with the first and third channel of every pixel
/// exchanged; the layout of `Bgr`/`Bgra` buffers on disk differs from
/// the exposed red-first order exactly by this exchange.
pub open spec fn spec_swap_rb(s: Seq<u8>, channels: int) -> Seq<u8>
    recommends
        channels == 3 || channels == 4,
    decreases s.len(),
{
    if channels < 3 || s.len() < channels {
        s
    } else {
        (if channels == 3 {
            seq![s[2], s[1], s[0]]
        } else {
            seq![s[2], s[1], s[0], s[3]]
        }) + spec_swap_rb(s.skip(channels), channels)
    }
}

/// Exchanging the first and third channel twice restores the buffer, so
/// swapping the channels of a decoded buffer reproduces the on-disk
/// bytes.
pub proof fn lemma_swap_rb_involution(s: Seq<u8>, channels: int)
    requires
        channels == 3 || channels == 4,
    ensures
        spec_swap_rb(spec_swap_rb(s, channels), channels) == s,
    decreases s.len(),
{
    if s.len() < channels {
    } else {
        let head = if channels == 3 {
            seq![s[2], s[1], s[0]]
        } else {
            seq![s[2], s[1], s[0], s[3]]
        };
        let tail = spec_swap_rb(s.skip(channels), channels);
        assert((head + tail).len() >= channels);
        assert((head + tail).skip(channels) =~= tail);
        lemma_swap_rb_involution(s.skip(channels), channels);
        assert(spec_swap_rb(head + tail, channels) =~= s);
    }
}

/// Swapped buffers keep their length.
pub proof fn lemma_swap_rb_len(s: Seq<u8>, channels: int)
    requires
        channels == 3 || channels == 4,
    ensures
        spec_swap_rb(s, channels).len() == s.len(),
    decreases s.len(),
{
    if s.len() < channels {
    } else {
        lemma_swap_rb_len(s.skip(channels), channels);
    }
}

/// Exchanges the first and third channel of every complete pixel group.
pub fn swap_rb(s: &Vec<u8>, channels: u8) -> (r: Vec<u8>)
    requires
        channels == 3 || channels == 4,
    ensures
        r@ == spec_swap_rb(s@, channels as int),
{
    let ch = channels as usize;
    let n = s.len();
    let mut r: Vec<u8> = Vec::new();
    let mut i: usize = 0;
    proof {
        assert(s@.skip(0) =~= s@);
        assert(r@ + spec_swap_rb(s@, channels as int) =~= spec_swap_rb(s@, channels as int));
    }
    while ch <= n - i && i < n
        invariant
            channels == 3 || channels == 4,
            ch == channels as usize,
            n == s@.len(),
            i <= s@.len(),
            spec_swap_rb(s@, channels as int) == r@ + spec_swap_rb(
                s@.skip(i as int),
                channels as int,
            ),
        decreases s@.len() - i,
    {
        let ghost rest = s@.skip(i as int);
        let ghost r0 = r@;
        r.push(s[i + 2]);
        r.push(s[i + 1]);
        r.push(s[i]);
        if ch == 4 {
            r.push(s[i + 3]);
        }
        proof {
            let head = if channels as int == 3 {
                seq![rest[2], rest[1], rest[0]]
            } else {
                seq![rest[2], rest[1], rest[0], rest[3]]
            };
            assert(spec_swap_rb(rest, channels as int) == head + spec_swap_rb(
                rest.skip(channels as int),
                channels as int,
            ));
            assert(rest.skip(channels as int) =~= s@.skip(i + ch as int));
            assert(r@ =~= r0 + head) by {
                assert(rest[0] == s@[i as int]);
                assert(rest[1] == s@[i + 1]);
                assert(rest[2] == s@[i + 2]);
                if channels as int == 4 {
                    assert(rest[3] == s@[i + 3]);
                }
            }
            assert(r@ + spec_swap_rb(s@.skip(i + ch as int), channels as int) =~= r0 + (head
                + spec_swap_rb(rest.skip(channels as int), channels as int)));
        }
        i = i + ch;
    }
    proof {
        assert(s@.skip(i as int).len() < channels as int);
        assert(spec_swap_rb(s@.skip(i as int), channels as int) == s@.skip(i as int));
    }
    let mut j: usize = i;
    while j < n
        invariant
            channels == 3 || channels == 4,
            n == s@.len(),
            i <= j <= s@.len(),
            spec_swap_rb(s@, channels as int) == r@ + s@.skip(j as int),
        decreases s@.len() - j,
    {
        let ghost r0 = r@;
        r.push(s[j]);
        proof {
            assert(r0 + s@.skip(j as int) =~= r@ + s@.skip(j + 1));
        }
        j = j + 1;
    }
    proof {
        assert(r@ + s@.skip(j as int) =~= r@);
    }
    r
}

} // verus!
