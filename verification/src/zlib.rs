//! Raw DEFLATE streams, as the `flate2` crate compresses and expands them.
//!
//! A compressor and an expander are each described by what went in and what
//! came out since they were started. `inflated` names what a raw DEFLATE stream
//! expands to.

use flate2::{Compress, Compression, Decompress, FlushCompress, FlushDecompress, Status};
use vstd::prelude::*;
use vstd::string::*;

verus! {

/// The compressor of `flate2`.
#[verifier::external_type_specification]
#[verifier::external_body]
pub struct ExCompress(Compress);

/// The expander of `flate2`.
#[verifier::external_type_specification]
#[verifier::external_body]
pub struct ExDecompress(Decompress);

/// The state of a compressor or an expander since it was started.
#[verifier::ext_equal]
pub struct StreamState {
    /// The base-2 logarithm of the window size.
    pub window_bits: u8,
    /// Bytes from before the stream that back-references may reach.
    pub history: Seq<u8>,
    /// The bytes taken in.
    pub input: Seq<u8>,
    /// The bytes given out.
    pub output: Seq<u8>,
    /// Whether a compressor was told to finish.
    pub finished: bool,
}

/// The state of a compressor.
pub uninterp spec fn deflater(c: Compress) -> StreamState;

/// The level at which a compressor compresses, from 0, not at all, to 9, best.
pub uninterp spec fn deflater_level(c: Compress) -> u32;

/// The state of an expander.
pub uninterp spec fn inflater(d: Decompress) -> StreamState;

/// Where a raw DEFLATE stream stands.
pub enum StreamPoint {
    /// Within a block, or within the byte in which a block ended.
    Inside,
    /// Between two blocks, the next of which begins with the next byte.
    Boundary,
    /// Behind its last block, which ended within so many bytes. What follows
    /// those is no part of the stream.
    End(nat),
}

/// What a raw DEFLATE stream is.
pub enum Inflated {
    /// Valid: what it expands to, and where it stands behind that.
    Valid(Seq<u8>, StreamPoint),
    /// Not valid.
    Invalid,
}

/// What a raw DEFLATE stream is, with the given window and history.
pub uninterp spec fn inflated(window_bits: u8, history: Seq<u8>, stream: Seq<u8>) -> Inflated;

/// Whether a stream stands between two blocks, and expands to `output`.
pub open spec fn stands(
    window_bits: u8,
    history: Seq<u8>,
    stream: Seq<u8>,
    output: Seq<u8>,
) -> bool {
    inflated(window_bits, history, stream) == Inflated::Valid(output, StreamPoint::Boundary)
}

/// Whether what a compressor gave out expands to what it took in also behind any
/// other stream that stands between two blocks.
pub open spec fn continues(state: StreamState) -> bool {
    forall|front: Seq<u8>, output: Seq<u8>|
        stands(state.window_bits, state.history, front, output) ==> #[trigger] stands(
            state.window_bits,
            state.history,
            front + state.output,
            output + state.input,
        )
}

/// Whether a compressor has given out all that it took in: what it gave out ends
/// with the flush trailer, stands between two blocks, and expands to what it took
/// in.
///
/// Where no history precedes its stream, back-references reach nothing from
/// before it, so that it may also follow another stream.
pub open spec fn is_flushed(state: StreamState) -> bool {
    &&& stands(state.window_bits, state.history, state.output, state.input)
    &&& state.history.len() == 0 ==> continues(state)
    &&& state.output.len() >= 4
    &&& state.output.skip(state.output.len() - 4) == flush_trailer()
}

/// How a step of a compressor or an expander ended.
#[derive(Debug, Clone, Copy, PartialEq, Eq, Structural)]
pub enum StepStatus {
    /// Progress was made.
    Progress,
    /// No progress was possible.
    BufError,
    /// The stream has ended.
    StreamEnd,
}

/// The four bytes that end a flushed stream.
pub open spec fn flush_trailer() -> Seq<u8> {
    seq![0x00u8, 0x00u8, 0xffu8, 0xffu8]
}

/// Starts a raw compressor with `Compress::new_with_window_bits`, which panics
/// for a window outside 9 to 15 and for a level above 9.
#[verifier::external_body]
pub(crate) fn new_compressor(level: u32, window_bits: u8) -> (r: Compress)
    requires
        9 <= window_bits <= 15,
        level <= 9,
    ensures
        deflater_level(r) == level,
        deflater(r) == (StreamState {
            window_bits,
            history: Seq::empty(),
            input: Seq::empty(),
            output: Seq::empty(),
            finished: false,
        }),
{
    Compress::new_with_window_bits(Compression::new(level), false, window_bits)
}

/// `Compress::reset` starts a new stream with the same window, at the same level.
#[verifier::external_body]
pub(crate) fn reset_compressor(c: &mut Compress)
    ensures
        deflater_level(*final(c)) == deflater_level(*old(c)),
        deflater(*final(c)) == (StreamState {
            window_bits: deflater(*old(c)).window_bits,
            history: Seq::empty(),
            input: Seq::empty(),
            output: Seq::empty(),
            finished: false,
        }),
{
    c.reset()
}

/// `Compress::total_in` counts the bytes taken in since the start.
#[verifier::external_body]
pub(crate) fn compressor_total_in(c: &Compress) -> (r: u64)
    ensures
        r == deflater(*c).input.len(),
{
    c.total_in()
}

/// `Compress::total_out` counts the bytes given out since the start.
#[verifier::external_body]
pub(crate) fn compressor_total_out(c: &Compress) -> (r: u64)
    ensures
        r == deflater(*c).output.len(),
{
    c.total_out()
}

/// What one step does to the state: it takes in a part of `input` and writes to
/// the front of `buffer`.
pub open spec fn advances(
    before: StreamState,
    after: StreamState,
    input: Seq<u8>,
    buffer: Seq<u8>,
) -> bool {
    let taken = after.input.len() - before.input.len();
    let given = after.output.len() - before.output.len();
    &&& after.window_bits == before.window_bits
    &&& after.history == before.history
    &&& after.finished == before.finished
    &&& 0 <= taken <= input.len()
    &&& 0 <= given <= buffer.len()
    &&& after.input == before.input + input.take(taken)
    &&& after.output == before.output + buffer.take(given)
}

/// Compresses with `Compress::compress` and a sync flush, into a buffer of
/// `room` bytes.
///
/// The call fails only for a compressor that was told to finish. It compresses
/// as much as possible: it stops when the input is taken in or the buffer is
/// full, and never reports the end of the stream. Where the buffer was not
/// filled, the flush is complete: either this step has written the empty block
/// that ends with the flush trailer, or there was nothing to flush, since an
/// earlier step had. The level stays as it was.
#[verifier::external_body]
pub(crate) fn compress_step(c: &mut Compress, input: &[u8], room: usize) -> (r: (
    Result<StepStatus, String>,
    Vec<u8>,
))
    requires
        room <= isize::MAX,
    ensures
        r.1.len() == room,
        deflater_level(*final(c)) == deflater_level(*old(c)),
        !deflater(*old(c)).finished ==> r.0 is Ok,
        r.0 is Ok ==> advances(deflater(*old(c)), deflater(*final(c)), input@, r.1@),
        r.0 matches Ok(s) ==> s != StepStatus::StreamEnd,
        ({
            let before = deflater(*old(c));
            let after = deflater(*final(c));
            let given = after.output.len() - before.output.len();
            r.0 is Ok && input.len() <= u32::MAX && room <= u32::MAX && given < room ==> {
                &&& after.input == before.input + input@
                &&& inflated(after.window_bits, after.history, after.output) == Inflated::Valid(
                    after.input,
                    StreamPoint::Boundary,
                )
                &&& after.history.len() == 0 ==> continues(after)
                &&& after.output.len() >= 4
                &&& after.output.skip(after.output.len() - 4) == flush_trailer()
                &&& 0 < input.len() ==> given >= 4
            }
        }),
{
    let mut out = vec![0u8; room];
    let status = match c.compress(input, &mut out, FlushCompress::Sync) {
        Ok(Status::Ok) => Ok(StepStatus::Progress),
        Ok(Status::BufError) => Ok(StepStatus::BufError),
        Ok(Status::StreamEnd) => Ok(StepStatus::StreamEnd),
        Err(e) => Err(e.to_string()),
    };
    (status, out)
}

/// Starts a raw expander with `Decompress::new_with_window_bits`, which panics
/// for a window outside 9 to 15.
#[verifier::external_body]
pub(crate) fn new_expander(window_bits: u8) -> (r: Decompress)
    requires
        9 <= window_bits <= 15,
    ensures
        inflater(r) == (StreamState {
            window_bits,
            history: Seq::empty(),
            input: Seq::empty(),
            output: Seq::empty(),
            finished: false,
        }),
{
    Decompress::new_with_window_bits(false, window_bits)
}

/// `Decompress::set_dictionary` gives a raw expander that has not started yet
/// the bytes that its stream may refer back to. It reports an error only for
/// streams with a zlib header.
#[verifier::external_body]
pub(crate) fn set_history(d: &mut Decompress, history: &[u8])
    requires
        inflater(*old(d)).input.len() == 0,
        inflater(*old(d)).history.len() == 0,
    ensures
        inflater(*final(d)) == (StreamState { history: history@, ..inflater(*old(d)) }),
{
    let _ = d.set_dictionary(history);
}

/// `Decompress::total_in` counts the bytes taken in since the start.
#[verifier::external_body]
pub(crate) fn expander_total_in(d: &Decompress) -> (r: u64)
    ensures
        r == inflater(*d).input.len(),
{
    d.total_in()
}

/// `Decompress::total_out` counts the bytes given out since the start.
#[verifier::external_body]
pub(crate) fn expander_total_out(d: &Decompress) -> (r: u64)
    ensures
        r == inflater(*d).output.len(),
{
    d.total_out()
}

/// What a step of an expander does with `input`, where `more` will follow it.
///
/// Where the stream so far, `input` and `more` are together valid, expanding to
/// some `whole`, the step succeeds and gives out nothing but the next bytes of
/// `whole`. Unless it fills the buffer, it takes in all of `input`, and gives out
/// all of `whole` where nothing follows. Where the stream ends, and no earlier
/// than behind the bytes taken in before, the step takes in nothing beyond its
/// end; it reports the end only there, with all of `whole` given out, and does so
/// unless it fills the buffer first. Where the stream is not valid, the step
/// reports no end, and it fails unless it fills the buffer first, or what is wrong
/// comes only with `more`.
pub open spec fn expands_with(
    before: StreamState,
    after: StreamState,
    input: Seq<u8>,
    more: Seq<u8>,
    room: int,
    r: Result<StepStatus, ()>,
) -> bool {
    let given = after.output.len() - before.output.len();
    let all_taken = after.input == before.input + input;
    match inflated(before.window_bits, before.history, before.input + (input + more)) {
        Inflated::Valid(whole, StreamPoint::End(len)) => before.output.is_prefix_of(whole)
            && before.input.len() <= len ==> {
            &&& r is Ok
            &&& after.output.is_prefix_of(whole)
            &&& after.input.len() <= len
            &&& r == Ok::<StepStatus, ()>(StepStatus::StreamEnd) ==> after.input.len() == len
                && after.output == whole
            &&& given < room ==> if len <= before.input.len() + input.len() {
                r == Ok::<StepStatus, ()>(StepStatus::StreamEnd)
            } else {
                all_taken
            }
        },
        Inflated::Valid(whole, _) => before.output.is_prefix_of(whole) ==> {
            &&& r matches Ok(s) && s != StepStatus::StreamEnd
            &&& after.output.is_prefix_of(whole)
            &&& given < room ==> all_taken && (more.len() == 0 ==> after.output == whole)
        },
        Inflated::Invalid => r matches Ok(s) ==> s != StepStatus::StreamEnd && (given < room
            ==> all_taken && more.len() > 0),
    }
}

/// What a step of an expander does with `input`, whatever follows it.
pub open spec fn expands(
    before: StreamState,
    after: StreamState,
    input: Seq<u8>,
    room: int,
    r: Result<StepStatus, ()>,
) -> bool {
    forall|more: Seq<u8>| #[trigger] expands_with(before, after, input, more, room, r)
}

/// Expands with `Decompress::decompress` and a sync flush, into a buffer of
/// `room` bytes.
///
/// The call takes in a part of the input and writes to the front of the buffer;
/// a stream only ends behind at least one byte. What it does with the stream is
/// what `expands_with` says, whatever follows the input. That the data is not
/// valid is the one failure of a raw stream. The window holds 32 KiB whatever its
/// nominal size, as far back as a stream can refer, so that it makes no difference
/// into which steps a stream is cut.
#[verifier::external_body]
pub(crate) fn expand_step(d: &mut Decompress, input: &[u8], room: usize) -> (r: (
    Result<StepStatus, ()>,
    Vec<u8>,
))
    requires
        0 < room <= isize::MAX,
    ensures
        r.1.len() == room,
        r.0 is Ok ==> advances(inflater(*old(d)), inflater(*final(d)), input@, r.1@),
        r.0 == Ok::<StepStatus, ()>(StepStatus::StreamEnd) ==> inflater(*final(d)).input.len()
            > 0,
        input.len() <= u32::MAX && room <= u32::MAX ==> expands(
            inflater(*old(d)),
            inflater(*final(d)),
            input@,
            room as int,
            r.0,
        ),
{
    let mut out = vec![0u8; room];
    let status = match d.decompress(input, &mut out, FlushDecompress::Sync) {
        Ok(Status::Ok) => Ok(StepStatus::Progress),
        Ok(Status::BufError) => Ok(StepStatus::BufError),
        Ok(Status::StreamEnd) => Ok(StepStatus::StreamEnd),
        Err(_) => Err(()),
    };
    (status, out)
}

} // verus!
