//! Streaming preview of one object: decompression transforms, and the line
//! index over the decompressed bytes.
//!
//! A preview performs no I/O. Each chunk that arrives is decompressed and
//! indexed here; the bytes to append to the scratch file are handed back to
//! the caller, and lines are read from the bytes that the caller has mapped.

use vstd::prelude::*;
use crate::text::{
    append_bytes, chars_of, decimal, ends_with, push_decimal, push_text, text_of, to_lowercase,
    unicode_lowercase,
};

verus! {

/// The size of the first range of an object that is fetched before the user
/// asks for the rest.
pub const PREFETCH_BYTES: u64 = 65536;

/// How far a streaming preview has come.
#[derive(PartialEq, Debug)]
pub enum StreamingStatus {
    /// The first range is being fetched.
    Prefetching,
    /// The first range has arrived; the rest can be requested.
    PrefetchReady,
    /// The rest is being fetched.
    Downloading,
    /// Everything has arrived.
    Complete,
    /// The preview has failed, for good.
    Error(String),
}

/// The mathematical value of a [`StreamingStatus`].
pub ghost enum StatusView {
    Prefetching,
    PrefetchReady,
    Downloading,
    Complete,
    Error(Seq<char>),
}

impl View for StreamingStatus {
    type V = StatusView;

    open spec fn view(&self) -> StatusView {
        match self {
            StreamingStatus::Prefetching => StatusView::Prefetching,
            StreamingStatus::PrefetchReady => StatusView::PrefetchReady,
            StreamingStatus::Downloading => StatusView::Downloading,
            StreamingStatus::Complete => StatusView::Complete,
            StreamingStatus::Error(message) => StatusView::Error(message@),
        }
    }
}

impl Clone for StreamingStatus {
    fn clone(&self) -> (r: Self)
        ensures
            r@ == self@,
    {
        match self {
            StreamingStatus::Prefetching => StreamingStatus::Prefetching,
            StreamingStatus::PrefetchReady => StreamingStatus::PrefetchReady,
            StreamingStatus::Downloading => StreamingStatus::Downloading,
            StreamingStatus::Complete => StreamingStatus::Complete,
            StreamingStatus::Error(message) => StreamingStatus::Error(message.clone()),
        }
    }
}

/// The compression of an object, told from its name.
#[derive(Clone, Copy, PartialEq, Eq, Structural, Debug)]
pub enum Compression {
    Uncompressed,
    Gzip,
    Zstd,
}

/// The compression that a key's extension names: gzip for `.gz` and `.gzip`,
/// zstd for `.zst` and `.zstd`, in any case of letters.
pub open spec fn compression_of(key: Seq<char>) -> Compression {
    let lower = unicode_lowercase(key);
    if ".gz"@.is_suffix_of(lower) || ".gzip"@.is_suffix_of(lower) {
        Compression::Gzip
    } else if ".zst"@.is_suffix_of(lower) || ".zstd"@.is_suffix_of(lower) {
        Compression::Zstd
    } else {
        Compression::Uncompressed
    }
}

/// Tells the compression from a lowercased key.
pub fn compression_of_lowercase(lower: &str) -> (r: Compression)
    ensures
        r == if ".gz"@.is_suffix_of(lower@) || ".gzip"@.is_suffix_of(lower@) {
            Compression::Gzip
        } else if ".zst"@.is_suffix_of(lower@) || ".zstd"@.is_suffix_of(lower@) {
            Compression::Zstd
        } else {
            Compression::Uncompressed
        },
{
    let l = chars_of(lower);
    if ends_with(l.as_slice(), ".gz") || ends_with(l.as_slice(), ".gzip") {
        Compression::Gzip
    } else if ends_with(l.as_slice(), ".zst") || ends_with(l.as_slice(), ".zstd") {
        Compression::Zstd
    } else {
        Compression::Uncompressed
    }
}

impl Compression {
    /// Detects the compression from the extension of a key.
    pub fn from_filename(key: &str) -> (r: Self)
        ensures
            r == compression_of(key@),
    {
        let lower = to_lowercase(key);
        compression_of_lowercase(lower.as_str())
    }
}

/// A decompression transform: takes the raw bytes of an object in order and
/// appends the decompressed bytes to `output`.
pub trait Transform {
    /// Processes one chunk of input.
    fn process(&mut self, input: &[u8], output: &mut Vec<u8>) -> Result<(), String>;

    /// Flushes what is left at the end of the input.
    fn finish(&mut self, output: &mut Vec<u8>) -> Result<(), String>;
}

/// The transform for uncompressed objects: passes its input through.
#[derive(Debug)]
pub struct IdentityTransform;

impl Transform for IdentityTransform {
    fn process(&mut self, input: &[u8], output: &mut Vec<u8>) -> (r: Result<(), String>)
        ensures
            r is Ok,
            final(output)@ == old(output)@ + input@,
    {
        append_bytes(output, input);
        Ok(())
    }

    fn finish(&mut self, output: &mut Vec<u8>) -> (r: Result<(), String>)
        ensures
            r is Ok,
            final(output)@ == old(output)@,
    {
        Ok(())
    }
}

/// What `flate2`'s gzip reader yields for the given compressed bytes when it
/// is read to its end: the bytes decompressed before it stopped, and the
/// message of the error that stopped it unless that was the end of the input.
pub uninterp spec fn gunzip(data: Seq<u8>) -> (Seq<u8>, Option<Seq<char>>);

/// Reads `flate2::read::GzDecoder` over `data` to its end. An input that
/// breaks off early is no error: more of it may follow.
#[verifier::external_body]
fn gzip_decompress_all(data: &[u8]) -> (r: (Vec<u8>, Option<String>))
    ensures
        (r.0@, r.1.deep_view()) == gunzip(data@),
{
    let mut out = Vec::new();
    let mut decoder = flate2::read::GzDecoder::new(data);
    let error = match std::io::Read::read_to_end(&mut decoder, &mut out) {
        Ok(_) => None,
        Err(e) if e.kind() == std::io::ErrorKind::UnexpectedEof => None,
        Err(e) => Some(format!("gzip decompress error: {}", e)),
    };
    (out, error)
}

/// The raw streaming decoder of the `zstd` crate.
#[verifier::external_type_specification]
#[verifier::external_body]
pub struct ExZstdDecoder<'a>(zstd::stream::raw::Decoder<'a>);

/// Calls `zstd::stream::raw::Decoder::new`.
#[verifier::external_body]
fn zstd_decoder_new() -> (r: Result<zstd::stream::raw::Decoder<'static>, String>) {
    zstd::stream::raw::Decoder::new().map_err(|e| format!("zstd init error: {}", e))
}

/// Calls the decoder's `run` once on `input[from..]`, with `scratch` as the
/// room for output. Returns how many bytes of input it consumed and how many
/// bytes it wrote to the front of `scratch`: neither exceeds what was
/// offered. Of the bytes written nothing is claimed.
#[verifier::external_body]
fn zstd_run(
    decoder: &mut zstd::stream::raw::Decoder<'static>,
    input: &[u8],
    from: usize,
    scratch: &mut Vec<u8>,
) -> (r: Result<(usize, usize), String>)
    requires
        from <= input@.len(),
    ensures
        final(scratch)@.len() == old(scratch)@.len(),
        r matches Ok((consumed, produced)) ==> consumed <= input@.len() - from && produced <= old(
            scratch,
        )@.len(),
{
    let mut source = zstd::stream::raw::InBuffer::around(&input[from..]);
    let mut target = zstd::stream::raw::OutBuffer::around(scratch.as_mut_slice());
    match zstd::stream::raw::Operation::run(decoder, &mut source, &mut target) {
        Ok(_) => Ok((source.pos(), target.pos())),
        Err(e) => Err(format!("zstd decompress error: {}", e)),
    }
}

/// Calls the decoder's `flush` once, with `scratch` as the room for output.
/// Returns what the decoder tells of the bytes still to be flushed, and how
/// many bytes it wrote to the front of `scratch`. The decoder tells 0 where
/// it has not filled the room, and 1 where it has and more may follow.
#[verifier::external_body]
fn zstd_flush(decoder: &mut zstd::stream::raw::Decoder<'static>, scratch: &mut Vec<u8>) -> (r:
    Result<(usize, usize), String>)
    ensures
        final(scratch)@.len() == old(scratch)@.len(),
        r matches Ok((left, produced)) ==> produced <= old(scratch)@.len() && left == (if produced
            < old(scratch)@.len() {
            0usize
        } else {
            1usize
        }),
{
    let mut target = zstd::stream::raw::OutBuffer::around(scratch.as_mut_slice());
    match zstd::stream::raw::Operation::flush(decoder, &mut target) {
        Ok(left) => Ok((left, target.pos())),
        Err(e) => Err(format!("zstd finish error: {}", e)),
    }
}

/// Appends `source[..count]` to `out`.
fn append_front(out: &mut Vec<u8>, source: &[u8], count: usize)
    requires
        count <= source@.len(),
    ensures
        final(out)@ == old(out)@ + source@.take(count as int),
{
    let part = vstd::slice::slice_subrange(source, 0, count);
    append_bytes(out, part);
}

/// What a step of the zstd decoder came to: the count of bytes of input
/// that it consumed and the count of bytes that it wrote to the front of the
/// room it was given, or the message of its failure. For a flush, the first
/// count is the decoder's word on what is still to be flushed.
pub type DecoderStep = Result<(usize, usize), String>;

/// The message for a decoder that has stopped consuming its input.
pub open spec fn no_progress_message() -> Seq<char> {
    "zstd decompress error: decoder made no progress"@
}

/// The output and the position in the input after a step of the decoder at
/// `pos`: what the decoder wrote to the room joins the output and the
/// position moves on by what it consumed; a failure leaves the output as it
/// is and comes out with its message.
pub open spec fn after_run(out: Seq<u8>, room: Seq<u8>, pos: usize, step: DecoderStep) -> (
    Seq<u8>,
    Result<usize, Seq<char>>,
) {
    match step {
        Ok((consumed, produced)) => (
            out + room.take(produced as int),
            Ok((pos + consumed) as usize),
        ),
        Err(message) => (out, Err(message@)),
    }
}

/// Takes in a step of the decoder on `input[pos..]`, where `len` is the
/// length of the input and `room` is where the decoder wrote: appends what
/// it wrote to `output` and returns the position behind what it consumed,
/// or hands on its failure.
pub fn take_run(output: &mut Vec<u8>, room: &[u8], pos: usize, len: usize, step: DecoderStep) -> (r:
    Result<usize, String>)
    requires
        pos <= len,
        step matches Ok((consumed, produced)) ==> consumed <= len - pos && produced <= room@.len(),
    ensures
        final(output)@ == after_run(old(output)@, room@, pos, step).0,
        match after_run(old(output)@, room@, pos, step).1 {
            Ok(next) => r == Ok::<usize, String>(next) && pos <= next <= len,
            Err(message) => r matches Err(m) && m@ == message,
        },
{
    match step {
        Ok((consumed, produced)) => {
            append_front(output, room, produced);
            Ok(pos + consumed)
        },
        Err(message) => Err(message),
    }
}

/// The verdict on a run over an input of length `len` that has ended at
/// `pos`: success where all input is consumed, else the failure of a decoder
/// that made no progress.
pub fn run_verdict(pos: usize, len: usize) -> (r: Result<(), String>)
    ensures
        pos >= len ==> r is Ok,
        pos < len ==> (r matches Err(m) && m@ == no_progress_message()),
{
    if pos < len {
        Err(text_of("zstd decompress error: decoder made no progress"))
    } else {
        Ok(())
    }
}

/// The output after a flush of the decoder, and whether another flush is
/// due: what the decoder wrote to the room joins the output, and another
/// flush is due where the decoder tells that something is left; a failure
/// leaves the output as it is and comes out with its message.
pub open spec fn after_flush(out: Seq<u8>, room: Seq<u8>, step: DecoderStep) -> (
    Seq<u8>,
    Result<bool, Seq<char>>,
) {
    match step {
        Ok((left, produced)) => (out + room.take(produced as int), Ok(left != 0)),
        Err(message) => (out, Err(message@)),
    }
}

/// Takes in a flush of the decoder, where `room` is where the decoder
/// wrote: appends what it wrote to `output` and returns whether another
/// flush is due, or hands on its failure.
pub fn take_flush(output: &mut Vec<u8>, room: &[u8], step: DecoderStep) -> (r: Result<bool, String>)
    requires
        step matches Ok((left, produced)) ==> produced <= room@.len(),
    ensures
        final(output)@ == after_flush(old(output)@, room@, step).0,
        match after_flush(old(output)@, room@, step).1 {
            Ok(more) => r == Ok::<bool, String>(more),
            Err(message) => r matches Err(m) && m@ == message,
        },
{
    match step {
        Ok((left, produced)) => {
            append_front(output, room, produced);
            Ok(left != 0)
        },
        Err(message) => Err(message),
    }
}

/// The state of a gzip transform: the compressed bytes taken in so far, the
/// count of decompressed bytes handed out, and whether the stream has failed.
pub ghost struct GzipState {
    pub buffer: Seq<u8>,
    pub emitted: nat,
    pub error: bool,
}

/// The result of decompressing the whole buffer anew: the bytes beyond those
/// handed out before, or the failure of the stream.
pub open spec fn gzip_decode(s: GzipState) -> (GzipState, Result<Seq<u8>, Seq<char>>) {
    let (all, error) = gunzip(s.buffer);
    match error {
        Some(message) => (GzipState { error: true, ..s }, Err(message)),
        None => if all.len() > s.emitted {
            (GzipState { emitted: all.len(), ..s }, Ok(all.skip(s.emitted as int)))
        } else {
            (s, Ok(Seq::empty()))
        },
    }
}

/// A gzip transform's step on a chunk of input: nothing once it has failed
/// and nothing for an empty chunk; else the chunk joins the buffer, which is
/// decompressed anew.
pub open spec fn gzip_process(s: GzipState, input: Seq<u8>) -> (GzipState, Result<
    Seq<u8>,
    Seq<char>,
>) {
    if s.error || input.len() == 0 {
        (s, Ok(Seq::empty()))
    } else {
        gzip_decode(GzipState { buffer: s.buffer + input, ..s })
    }
}

/// A gzip transform's step at the end of the input.
pub open spec fn gzip_finish(s: GzipState) -> (GzipState, Result<Seq<u8>, Seq<char>>) {
    if s.error {
        (s, Ok(Seq::empty()))
    } else {
        gzip_decode(s)
    }
}

/// The gzip transform: keeps all compressed bytes, decompresses them from the
/// start on every step, and hands out only what lies beyond the bytes handed
/// out before. Chunks may split the stream anywhere.
#[derive(Debug)]
pub struct GzipTransform {
    buffer: Vec<u8>,
    emitted: usize,
    error: bool,
}

impl View for GzipTransform {
    type V = GzipState;

    closed spec fn view(&self) -> GzipState {
        GzipState { buffer: self.buffer@, emitted: self.emitted as nat, error: self.error }
    }
}

impl GzipTransform {
    /// A transform that has seen no input.
    pub fn new() -> (r: Self)
        ensures
            r@ == (GzipState { buffer: Seq::empty(), emitted: 0, error: false }),
    {
        GzipTransform { buffer: Vec::new(), emitted: 0, error: false }
    }

    /// Whether the stream has failed.
    pub fn has_error(&self) -> (r: bool)
        ensures
            r == self@.error,
    {
        self.error
    }

    /// Decompresses the buffer and appends what is new to `output`.
    fn decode(&mut self, output: &mut Vec<u8>) -> (r: Result<(), String>)
        ensures
            final(self)@ == gzip_decode(old(self)@).0,
            match gzip_decode(old(self)@).1 {
                Ok(bytes) => r is Ok && final(output)@ == old(output)@ + bytes,
                Err(message) => r matches Err(m) && m@ == message && final(output)@ == old(
                    output,
                )@,
            },
    {
        let (all, error) = gzip_decompress_all(self.buffer.as_slice());
        match error {
            Some(message) => {
                self.error = true;
                Err(message)
            },
            None => {
                if all.len() > self.emitted {
                    let fresh = vstd::slice::slice_subrange(
                        all.as_slice(),
                        self.emitted,
                        all.len(),
                    );
                    append_bytes(output, fresh);
                    self.emitted = all.len();
                    proof {
                        assert(fresh@ == all@.skip(old(self).emitted as int));
                    }
                } else {
                    assert(output@ + Seq::<u8>::empty() =~= output@);
                }
                Ok(())
            },
        }
    }
}

impl Transform for GzipTransform {
    fn process(&mut self, input: &[u8], output: &mut Vec<u8>) -> (r: Result<(), String>)
        ensures
            final(self)@ == gzip_process(old(self)@, input@).0,
            match gzip_process(old(self)@, input@).1 {
                Ok(bytes) => r is Ok && final(output)@ == old(output)@ + bytes,
                Err(message) => r matches Err(m) && m@ == message && final(output)@ == old(
                    output,
                )@,
            },
    {
        if self.error || input.len() == 0 {
            assert(output@ + Seq::<u8>::empty() =~= output@);
            return Ok(());
        }
        append_bytes(&mut self.buffer, input);
        self.decode(output)
    }

    fn finish(&mut self, output: &mut Vec<u8>) -> (r: Result<(), String>)
        ensures
            final(self)@ == gzip_finish(old(self)@).0,
            match gzip_finish(old(self)@).1 {
                Ok(bytes) => r is Ok && final(output)@ == old(output)@ + bytes,
                Err(message) => r matches Err(m) && m@ == message && final(output)@ == old(
                    output,
                )@,
            },
    {
        if self.error {
            assert(output@ + Seq::<u8>::empty() =~= output@);
            return Ok(());
        }
        self.decode(output)
    }
}

/// The size of the room that the zstd decoder is offered for each step.
pub const ZSTD_SCRATCH_BYTES: usize = 65536;

/// The zstd transform: an incremental decoder, flushed at the end.
pub struct ZstdTransform {
    decoder: zstd::stream::raw::Decoder<'static>,
    scratch: Vec<u8>,
    taken: Ghost<Seq<u8>>,
}

/// The mathematical value of a zstd transform: the compressed bytes that
/// the decoder has taken in so far, by its own account of what it consumed.
/// What the decoder makes of them is its own business.
pub ghost struct ZstdState {
    pub taken: Seq<u8>,
}

impl View for ZstdTransform {
    type V = ZstdState;

    closed spec fn view(&self) -> ZstdState {
        ZstdState { taken: self.taken@ }
    }
}

impl ZstdTransform {
    /// Creates a decoder that has taken in nothing. Fails where the `zstd`
    /// library cannot set one up.
    pub fn new() -> (r: Result<Self, String>)
        ensures
            r matches Ok(t) ==> t@.taken == Seq::<u8>::empty(),
    {
        match zstd_decoder_new() {
            Ok(decoder) => {
                let mut scratch: Vec<u8> = Vec::new();
                scratch.resize(ZSTD_SCRATCH_BYTES, 0u8);
                Ok(ZstdTransform { decoder, scratch, taken: Ghost(Seq::empty()) })
            },
            Err(message) => Err(message),
        }
    }
}

impl Transform for ZstdTransform {
    /// Runs the decoder until it has consumed `input`, appending what it
    /// writes to `output`. What was in `output` stays in front.
    ///
    /// For an empty input the decoder is not asked, and nothing changes.
    /// Otherwise the decoder decides: on success it has taken in all of
    /// `input`, piece by piece in order, behind what it had taken in before.
    fn process(&mut self, input: &[u8], output: &mut Vec<u8>) -> (r: Result<(), String>)
        ensures
            old(output)@.is_prefix_of(final(output)@),
            input@.len() == 0 ==> r is Ok && final(output)@ == old(output)@,
            r is Ok ==> final(self)@.taken == old(self)@.taken + input@,
    {
        let mut pos: usize = 0;
        let mut fuel: u64 = u64::MAX;
        proof {
            assert(self@.taken + input@.take(0) =~= self@.taken);
        }
        while pos < input.len() && fuel > 0
            invariant
                pos <= input@.len(),
                old(output)@.is_prefix_of(output@),
                input@.len() == 0 ==> output@ == old(output)@,
                self@.taken == old(self)@.taken + input@.take(pos as int),
            decreases fuel,
        {
            let step = zstd_run(&mut self.decoder, input, pos, &mut self.scratch);
            match take_run(output, self.scratch.as_slice(), pos, input.len(), step) {
                Ok(next) => {
                    proof {
                        let piece = input@.subrange(pos as int, next as int);
                        assert(input@.take(pos as int) + piece =~= input@.take(next as int));
                        assert(old(self)@.taken + input@.take(pos as int) + piece =~= old(
                            self,
                        )@.taken + input@.take(next as int));
                        self.taken@ = self.taken@ + piece;
                    }
                    pos = next;
                },
                Err(message) => {
                    return Err(message);
                },
            }
            fuel = fuel - 1;
        }
        proof {
            assert(pos == input@.len() ==> input@.take(pos as int) =~= input@);
        }
        run_verdict(pos, input.len())
    }

    /// Flushes the decoder until nothing is left, appending what it writes
    /// to `output`. What was in `output` stays in front.
    fn finish(&mut self, output: &mut Vec<u8>) -> (r: Result<(), String>)
        ensures
            old(output)@.is_prefix_of(final(output)@),
    {
        let mut fuel: u64 = u64::MAX;
        let mut more = true;
        while more && fuel > 0
            invariant
                old(output)@.is_prefix_of(output@),
            decreases fuel,
        {
            let step = zstd_flush(&mut self.decoder, &mut self.scratch);
            match take_flush(output, self.scratch.as_slice(), step) {
                Ok(again) => {
                    more = again;
                },
                Err(message) => {
                    return Err(message);
                },
            }
            fuel = fuel - 1;
        }
        Ok(())
    }
}

/// One of the three transforms.
pub enum AnyTransform {
    Identity(IdentityTransform),
    Gzip(GzipTransform),
    Zstd(ZstdTransform),
}

/// The mathematical value of a transform. Of a zstd decoder's state nothing
/// is known.
pub ghost enum TransformState {
    Identity,
    Gzip(GzipState),
    Zstd,
}

impl View for AnyTransform {
    type V = TransformState;

    open spec fn view(&self) -> TransformState {
        match self {
            AnyTransform::Identity(_) => TransformState::Identity,
            AnyTransform::Gzip(g) => TransformState::Gzip(g@),
            AnyTransform::Zstd(_) => TransformState::Zstd,
        }
    }
}

/// What a transform hands out for a chunk of input, and its state after
/// that. Of zstd it tells nothing: what that decoder hands out is known only
/// when it has run.
pub open spec fn transform_process(t: TransformState, input: Seq<u8>) -> (TransformState, Result<
    Seq<u8>,
    Seq<char>,
>) {
    match t {
        TransformState::Identity => (t, Ok(input)),
        TransformState::Gzip(g) => (
            TransformState::Gzip(gzip_process(g, input).0),
            gzip_process(g, input).1,
        ),
        TransformState::Zstd => (t, Ok(Seq::empty())),
    }
}

/// What a transform hands out at the end of the input, and its state after
/// that. Of zstd it tells nothing.
pub open spec fn transform_finish(t: TransformState) -> (TransformState, Result<
    Seq<u8>,
    Seq<char>,
>) {
    match t {
        TransformState::Identity => (t, Ok(Seq::empty())),
        TransformState::Gzip(g) => (TransformState::Gzip(gzip_finish(g).0), gzip_finish(g).1),
        TransformState::Zstd => (t, Ok(Seq::empty())),
    }
}

impl Transform for AnyTransform {
    fn process(&mut self, input: &[u8], output: &mut Vec<u8>) -> (r: Result<(), String>)
        ensures
            old(output)@.is_prefix_of(final(output)@),
            final(self)@ is Zstd <==> old(self)@ is Zstd,
            !(old(self)@ is Zstd) ==> {
                &&& final(self)@ == transform_process(old(self)@, input@).0
                &&& match transform_process(old(self)@, input@).1 {
                    Ok(bytes) => r is Ok && final(output)@ == old(output)@ + bytes,
                    Err(message) => r matches Err(m) && m@ == message && final(output)@ == old(
                        output,
                    )@,
                }
            },
    {
        match self {
            AnyTransform::Identity(t) => t.process(input, output),
            AnyTransform::Gzip(t) => t.process(input, output),
            AnyTransform::Zstd(t) => t.process(input, output),
        }
    }

    fn finish(&mut self, output: &mut Vec<u8>) -> (r: Result<(), String>)
        ensures
            old(output)@.is_prefix_of(final(output)@),
            final(self)@ is Zstd <==> old(self)@ is Zstd,
            !(old(self)@ is Zstd) ==> {
                &&& final(self)@ == transform_finish(old(self)@).0
                &&& match transform_finish(old(self)@).1 {
                    Ok(bytes) => r is Ok && final(output)@ == old(output)@ + bytes,
                    Err(message) => r matches Err(m) && m@ == message && final(output)@ == old(
                        output,
                    )@,
                }
            },
    {
        match self {
            AnyTransform::Identity(t) => t.finish(output),
            AnyTransform::Gzip(t) => t.finish(output),
            AnyTransform::Zstd(t) => t.finish(output),
        }
    }
}

/// The transform for a compression in its initial state.
pub open spec fn initial_transform(compression: Compression) -> TransformState {
    match compression {
        Compression::Uncompressed => TransformState::Identity,
        Compression::Gzip => TransformState::Gzip(
            GzipState { buffer: Seq::empty(), emitted: 0, error: false },
        ),
        Compression::Zstd => TransformState::Zstd,
    }
}

/// Creates the transform for a compression. Fails only for zstd, where the
/// decoder cannot be set up.
pub fn create_transform(compression: Compression) -> (r: Result<AnyTransform, String>)
    ensures
        compression != Compression::Zstd ==> r is Ok,
        r matches Ok(t) ==> t@ == initial_transform(compression),
{
    match compression {
        Compression::Uncompressed => Ok(AnyTransform::Identity(IdentityTransform)),
        Compression::Gzip => Ok(AnyTransform::Gzip(GzipTransform::new())),
        Compression::Zstd => match ZstdTransform::new() {
            Ok(t) => Ok(AnyTransform::Zstd(t)),
            Err(message) => Err(message),
        },
    }
}

/// The offsets at which the lines of `content` begin: zero, and the offset
/// behind each newline, in increasing order.
pub open spec fn line_starts(content: Seq<u8>) -> Seq<nat>
    decreases content.len(),
{
    if content.len() == 0 {
        seq![0nat]
    } else if content.last() == 10 {
        line_starts(content.drop_last()).push(content.len())
    } else {
        line_starts(content.drop_last())
    }
}

/// The line index begins with zero, is strictly increasing, and ends at or
/// before the end of the content.
pub proof fn lemma_line_starts(content: Seq<u8>)
    ensures
        line_starts(content).len() >= 1,
        line_starts(content)[0] == 0,
        forall|i: int| 0 <= i < line_starts(content).len() ==> line_starts(content)[i]
            <= content.len(),
        forall|i: int, j: int|
            0 <= i < j < line_starts(content).len() ==> line_starts(content)[i] < line_starts(
                content,
            )[j],
        forall|i: int|
            1 <= i < line_starts(content).len() ==> content[line_starts(content)[i] - 1] == 10,
    decreases content.len(),
{
    if content.len() > 0 {
        lemma_line_starts(content.drop_last());
        let prev = line_starts(content.drop_last());
        assert forall|i: int| 1 <= i < prev.len() implies content[prev[i] - 1] == 10 by {
            assert(content.drop_last()[prev[i] - 1] == content[prev[i] - 1]);
        }
    }
}

/// The longest line that is read in one piece.
pub const MAX_LINE_BYTES: usize = 10485760;

/// `s` without the carriage returns and newlines at its end.
pub open spec fn strip_line_end(s: Seq<u8>) -> Seq<u8>
    decreases s.len(),
{
    if s.len() > 0 && (s.last() == 10 || s.last() == 13) {
        strip_line_end(s.drop_last())
    } else {
        s
    }
}

/// Where line `i` lies: from its start to the byte before the next line's
/// start, or to the end of what is written for the last line.
pub open spec fn line_bounds(starts: Seq<nat>, written: nat, i: int) -> (nat, nat) {
    let start = starts[i];
    let next = if i + 1 < starts.len() {
        if starts[i + 1] >= 1 {
            (starts[i + 1] - 1) as nat
        } else {
            0
        }
    } else {
        written
    };
    (
        start,
        if next <= written {
            next
        } else {
            written
        },
    )
}

/// Line `i` as it is read from the mapped bytes of the scratch file: the
/// bytes within its bounds, at most `MAX_LINE_BYTES` of them and no more than
/// are mapped, without the line end. Empty for a line that does not exist.
pub open spec fn line_of(mapped: Seq<u8>, starts: Seq<nat>, written: nat, i: int) -> Seq<u8> {
    if i < 0 || i >= starts.len() {
        Seq::empty()
    } else {
        let (start, end) = line_bounds(starts, written, i);
        if start >= end || start >= mapped.len() {
            Seq::empty()
        } else {
            let len = if end - start <= MAX_LINE_BYTES {
                end - start
            } else {
                MAX_LINE_BYTES as int
            };
            let stop = if start + len <= mapped.len() {
                start + len
            } else {
                mapped.len() as int
            };
            strip_line_end(mapped.subrange(start as int, stop))
        }
    }
}

/// The mathematical value of a streaming preview.
pub ghost struct PreviewState {
    /// The decompressed bytes handed out for writing so far.
    pub content: Seq<u8>,
    /// The count of raw bytes taken in.
    pub source_bytes: nat,
    /// The size of the object.
    pub total_source_size: nat,
    /// How far the preview has come.
    pub status: StatusView,
    /// The state of the decompression.
    pub transform: TransformState,
}

/// What appending a chunk came to.
#[derive(Debug)]
pub enum AppendOutcome {
    /// The chunk was taken in: these bytes are to be written to the scratch
    /// file, behind what was written before.
    Written(Vec<u8>),
    /// The chunk does not begin where the last one ended: nothing changed.
    Rejected,
    /// The preview has failed, now or earlier, with this message.
    Failed(String),
}

/// The mathematical value of an [`AppendOutcome`].
pub ghost enum AppendResult {
    Written(Seq<u8>),
    Rejected,
    Failed(Seq<char>),
}

impl View for AppendOutcome {
    type V = AppendResult;

    open spec fn view(&self) -> AppendResult {
        match self {
            AppendOutcome::Written(bytes) => AppendResult::Written(bytes@),
            AppendOutcome::Rejected => AppendResult::Rejected,
            AppendOutcome::Failed(message) => AppendResult::Failed(message@),
        }
    }
}

/// The state of a preview that has failed with `message`.
pub open spec fn failed(s: PreviewState, transform: TransformState, message: Seq<char>) -> (
    PreviewState,
    AppendResult,
) {
    (
        PreviewState { status: StatusView::Error(message), transform, ..s },
        AppendResult::Failed(message),
    )
}

/// The state after the transform has handed out `out` for `taken` raw bytes,
/// `done` telling whether the object is complete with them.
pub open spec fn written(
    s: PreviewState,
    transform: TransformState,
    taken: nat,
    out: Seq<u8>,
    done: bool,
) -> (PreviewState, AppendResult) {
    if s.content.len() + out.len() > usize::MAX {
        failed(s, transform, "preview too large"@)
    } else {
        (
            PreviewState {
                content: s.content + out,
                source_bytes: s.source_bytes + taken,
                status: if done {
                    StatusView::Complete
                } else {
                    s.status
                },
                transform,
                ..s
            },
            AppendResult::Written(out),
        )
    }
}

/// Whether the raw bytes taken in with `taken` more complete the object for
/// the first time.
pub open spec fn completes(s: PreviewState, taken: nat) -> bool {
    s.source_bytes + taken >= s.total_source_size && !(s.status is Complete)
}

/// What a transform made of one step: its state afterwards, and what it
/// handed out or the message of its failure.
pub type TransformStep = (TransformState, Result<Seq<u8>, Seq<char>>);

/// A step of the zstd decoder that came to `result`.
pub open spec fn zstd_step(result: Result<Seq<u8>, Seq<char>>) -> TransformStep {
    (TransformState::Zstd, result)
}

/// A preview's step on a chunk of `taken` raw bytes that claims to begin at
/// `offset` of the object, where the transform made `processed` of the chunk
/// and `finished` of the end of the input. A failed preview stays as it is; a
/// chunk out of order is rejected; else the chunk is processed, and the
/// transform finishes where the chunk completes the object; what it hands
/// out joins the content. A failure of the transform fails the preview, and
/// nothing is handed out.
pub open spec fn append_with(
    s: PreviewState,
    taken: nat,
    offset: nat,
    processed: TransformStep,
    finished: TransformStep,
) -> (PreviewState, AppendResult) {
    if let StatusView::Error(message) = s.status {
        (s, AppendResult::Failed(message))
    } else if offset != s.source_bytes {
        (s, AppendResult::Rejected)
    } else if s.source_bytes + taken > usize::MAX {
        failed(s, s.transform, "preview too large"@)
    } else {
        match processed.1 {
            Err(message) => failed(s, processed.0, message),
            Ok(first) => {
                if completes(s, taken) {
                    match finished.1 {
                        Err(message) => failed(s, finished.0, message),
                        Ok(last) => written(s, finished.0, taken, first + last, true),
                    }
                } else {
                    written(s, processed.0, taken, first, false)
                }
            },
        }
    }
}

/// A preview's step on a chunk of raw bytes that claims to begin at `offset`
/// of the object, for a transform whose steps are known: all but zstd.
pub open spec fn append_step(s: PreviewState, data: Seq<u8>, offset: nat) -> (
    PreviewState,
    AppendResult,
) {
    let processed = transform_process(s.transform, data);
    append_with(s, data.len(), offset, processed, transform_finish(processed.0))
}

/// What the zstd decoder made of a chunk: what it handed out for the chunk
/// (or why it failed), and what at the end of the input, if it was asked to
/// finish.
pub ghost struct Decoded {
    pub first: Result<Seq<u8>, Seq<char>>,
    pub last: Result<Seq<u8>, Seq<char>>,
}

/// A decoder that hands out nothing.
pub open spec fn quiet() -> Decoded {
    Decoded { first: Ok(Seq::empty()), last: Ok(Seq::empty()) }
}

/// A preview's step on a chunk of raw bytes that claims to begin at `offset`
/// of the object. Where the preview decodes zstd, `decoded` tells what the
/// decoder made of the chunk; otherwise it is not looked at.
pub open spec fn append_as(s: PreviewState, data: Seq<u8>, offset: nat, decoded: Decoded) -> (
    PreviewState,
    AppendResult,
) {
    if s.transform is Zstd {
        append_with(s, data.len(), offset, zstd_step(decoded.first), zstd_step(decoded.last))
    } else {
        append_step(s, data, offset)
    }
}

/// A preview's step at the explicit end of the stream, where the transform
/// made `finished` of it: what it hands out joins the content.
pub open spec fn finish_with(s: PreviewState, finished: TransformStep) -> (
    PreviewState,
    AppendResult,
) {
    if let StatusView::Error(message) = s.status {
        (s, AppendResult::Failed(message))
    } else {
        match finished.1 {
            Err(message) => failed(s, finished.0, message),
            Ok(last) => written(s, finished.0, 0, last, false),
        }
    }
}

/// A preview's step at the explicit end of the stream, for a transform whose
/// steps are known: all but zstd.
pub open spec fn finish_step(s: PreviewState) -> (PreviewState, AppendResult) {
    finish_with(s, transform_finish(s.transform))
}

/// A preview's step at the explicit end of the stream. Where the preview
/// decodes zstd, `decoded.last` tells what the decoder made of it.
pub open spec fn finish_as(s: PreviewState, decoded: Decoded) -> (PreviewState, AppendResult) {
    if s.transform is Zstd {
        finish_with(s, zstd_step(decoded.last))
    } else {
        finish_step(s)
    }
}

/// The streaming preview of one object: how much of it has arrived, the
/// state of its decompression, and the index of its lines.
pub struct StreamingFilePreview {
    bucket: String,
    key: String,
    compression: Compression,
    total_source_size: usize,
    source_bytes: usize,
    bytes_written: usize,
    line_offsets: Vec<usize>,
    status: StreamingStatus,
    transform: AnyTransform,
    content: Ghost<Seq<u8>>,
}

impl View for StreamingFilePreview {
    type V = PreviewState;

    closed spec fn view(&self) -> PreviewState {
        PreviewState {
            content: self.content@,
            source_bytes: self.source_bytes as nat,
            total_source_size: self.total_source_size as nat,
            status: self.status@,
            transform: self.transform@,
        }
    }
}

/// Appends to `offsets` the line starts that `data`, written at `base`, adds.
fn index_newlines(data: &[u8], base: usize, offsets: &mut Vec<usize>, Ghost(content): Ghost<
    Seq<u8>,
>)
    requires
        base == content.len(),
        base + data@.len() <= usize::MAX,
        Seq::new(old(offsets)@.len(), |i: int| old(offsets)@[i] as nat) == line_starts(content),
    ensures
        Seq::new(final(offsets)@.len(), |i: int| final(offsets)@[i] as nat) == line_starts(
            content + data@,
        ),
{
    let mut i: usize = 0;
    proof {
        assert(content + data@.take(0) =~= content);
    }
    while i < data.len()
        invariant
            i <= data@.len(),
            base == content.len(),
            base + data@.len() <= usize::MAX,
            Seq::new(offsets@.len(), |k: int| offsets@[k] as nat) == line_starts(
                content + data@.take(i as int),
            ),
        decreases data@.len() - i,
    {
        proof {
            let next = content + data@.take(i + 1);
            assert(next.drop_last() =~= content + data@.take(i as int));
            assert(next.last() == data@[i as int]);
        }
        if data[i] == 10u8 {
            let ghost before = Seq::new(offsets@.len(), |k: int| offsets@[k] as nat);
            offsets.push(base + i + 1);
            proof {
                assert(Seq::new(offsets@.len(), |k: int| offsets@[k] as nat) =~= before.push(
                    (base + i + 1) as nat,
                ));
            }
        }
        i += 1;
    }
    proof {
        assert(data@.take(i as int) =~= data@);
    }
}

impl StreamingFilePreview {
    /// The counters and the line index agree with the content.
    pub closed spec fn wf(&self) -> bool {
        &&& self.bytes_written == self.content@.len()
        &&& Seq::new(self.line_offsets@.len(), |i: int| self.line_offsets@[i] as nat)
            == line_starts(self.content@)
    }

    /// The bucket of the object.
    pub closed spec fn spec_bucket(&self) -> Seq<char> {
        self.bucket@
    }

    /// The key of the object.
    pub closed spec fn spec_key(&self) -> Seq<char> {
        self.key@
    }

    /// The compression the preview was made for.
    pub closed spec fn spec_compression(&self) -> Compression {
        self.compression
    }

    /// Creates the preview of an object of `total_file_size` raw bytes, of
    /// which nothing has arrived. Fails only for zstd, where the decoder
    /// cannot be set up.
    pub fn new(bucket: String, key: String, total_file_size: usize, compression: Compression) -> (r:
        Result<Self, String>)
        ensures
            compression != Compression::Zstd ==> r is Ok,
            r matches Ok(p) ==> {
                &&& p.wf()
                &&& p.spec_bucket() == bucket@
                &&& p.spec_key() == key@
                &&& p.spec_compression() == compression
                &&& p@ == (PreviewState {
                    content: Seq::empty(),
                    source_bytes: 0,
                    total_source_size: total_file_size as nat,
                    status: StatusView::Prefetching,
                    transform: initial_transform(compression),
                })
            },
    {
        let transform = match create_transform(compression) {
            Ok(t) => t,
            Err(message) => {
                return Err(message);
            },
        };
        let mut line_offsets: Vec<usize> = Vec::new();
        line_offsets.push(0);
        let p = StreamingFilePreview {
            bucket,
            key,
            compression,
            total_source_size: total_file_size,
            source_bytes: 0,
            bytes_written: 0,
            line_offsets,
            status: StreamingStatus::Prefetching,
            transform,
            content: Ghost(Seq::empty()),
        };
        proof {
            assert(Seq::new(p.line_offsets@.len(), |i: int| p.line_offsets@[i] as nat) =~= seq![
                0nat,
            ]);
        }
        Ok(p)
    }

    /// Returns the bucket of the object.
    pub fn bucket(&self) -> (r: &str)
        ensures
            r@ == self.spec_bucket(),
    {
        self.bucket.as_str()
    }

    /// Returns the key of the object.
    pub fn key(&self) -> (r: &str)
        ensures
            r@ == self.spec_key(),
    {
        self.key.as_str()
    }

    /// Returns the compression the preview was made for.
    pub fn compression(&self) -> (r: Compression)
        ensures
            r == self.spec_compression(),
    {
        self.compression
    }

    /// Sets the size of the object, once it is known.
    pub fn set_total_source_size(&mut self, size: usize)
        requires
            old(self).wf(),
        ensures
            final(self).wf(),
            final(self)@ == (PreviewState { total_source_size: size as nat, ..old(self)@ }),
            final(self).spec_bucket() == old(self).spec_bucket(),
            final(self).spec_key() == old(self).spec_key(),
    {
        self.total_source_size = size;
    }

    /// Returns the size of the object where it is known: a size of zero
    /// counts as unknown.
    pub fn total_source_size(&self) -> (r: Option<usize>)
        ensures
            r == if self@.total_source_size > 0 {
                Some(self@.total_source_size as usize)
            } else {
                None
            },
    {
        if self.total_source_size > 0 {
            Some(self.total_source_size)
        } else {
            None
        }
    }

    /// Returns the size of the object.
    pub fn total_source_bytes(&self) -> (r: usize)
        ensures
            r == self@.total_source_size,
    {
        self.total_source_size
    }

    /// Returns the count of decompressed bytes handed out for writing.
    pub fn bytes_written(&self) -> (r: usize)
        requires
            self.wf(),
        ensures
            r == self@.content.len(),
    {
        self.bytes_written
    }

    /// Returns the count of raw bytes taken in.
    pub fn source_bytes(&self) -> (r: usize)
        ensures
            r == self@.source_bytes,
    {
        self.source_bytes
    }

    /// Returns the count of raw bytes taken in.
    pub fn bytes_downloaded(&self) -> (r: usize)
        ensures
            r == self@.source_bytes,
    {
        self.source_bytes
    }

    /// Returns the offset in the object of the next chunk to append.
    pub fn next_byte_needed(&self) -> (r: usize)
        ensures
            r == self@.source_bytes,
    {
        self.source_bytes
    }

    /// Returns the number of lines indexed: one more than there are newlines.
    pub fn line_count(&self) -> (r: usize)
        requires
            self.wf(),
        ensures
            r == line_starts(self@.content).len(),
    {
        self.line_offsets.len()
    }

    /// Returns the offsets at which the lines begin.
    pub fn line_offsets(&self) -> (r: Vec<usize>)
        requires
            self.wf(),
        ensures
            Seq::new(r@.len(), |i: int| r@[i] as nat) == line_starts(self@.content),
    {
        let r = self.line_offsets.clone();
        proof {
            assert(r@ =~= self.line_offsets@);
        }
        r
    }

    /// Returns how far the preview has come.
    pub fn status(&self) -> (r: StreamingStatus)
        ensures
            r@ == self@.status,
    {
        self.status.clone()
    }

    /// Whether everything has arrived.
    pub fn is_complete(&self) -> (r: bool)
        ensures
            r == (self@.status is Complete),
    {
        match self.status {
            StreamingStatus::Complete => true,
            _ => false,
        }
    }

    /// Whether the preview has failed.
    pub fn is_failed(&self) -> (r: bool)
        ensures
            r == (self@.status is Error),
    {
        match self.status {
            StreamingStatus::Error(_) => true,
            _ => false,
        }
    }

    /// Sets the status. A failed preview stays failed.
    pub fn set_status(&mut self, status: StreamingStatus)
        requires
            old(self).wf(),
        ensures
            final(self).wf(),
            final(self)@ == (PreviewState {
                status: if old(self)@.status is Error {
                    old(self)@.status
                } else {
                    status@
                },
                ..old(self)@
            }),
            final(self).spec_bucket() == old(self).spec_bucket(),
            final(self).spec_key() == old(self).spec_key(),
    {
        if !self.is_failed() {
            self.status = status;
        }
    }

    /// Marks the first range as arrived, where it was being fetched.
    pub fn set_prefetch_ready(&mut self)
        requires
            old(self).wf(),
        ensures
            final(self).wf(),
            final(self)@ == (PreviewState {
                status: if old(self)@.status is Prefetching {
                    StatusView::PrefetchReady
                } else {
                    old(self)@.status
                },
                ..old(self)@
            }),
            final(self).spec_bucket() == old(self).spec_bucket(),
            final(self).spec_key() == old(self).spec_key(),
    {
        let prefetching = match self.status {
            StreamingStatus::Prefetching => true,
            _ => false,
        };
        if prefetching {
            self.status = StreamingStatus::PrefetchReady;
        }
    }

    /// Marks the rest as being fetched, where the preview stood at or before
    /// the end of the first range.
    pub fn set_downloading(&mut self)
        requires
            old(self).wf(),
        ensures
            final(self).wf(),
            final(self)@ == (PreviewState {
                status: if old(self)@.status is Prefetching || old(self)@.status
                    is PrefetchReady {
                    StatusView::Downloading
                } else {
                    old(self)@.status
                },
                ..old(self)@
            }),
            final(self).spec_bucket() == old(self).spec_bucket(),
            final(self).spec_key() == old(self).spec_key(),
    {
        let early = match self.status {
            StreamingStatus::Prefetching => true,
            StreamingStatus::PrefetchReady => true,
            _ => false,
        };
        if early {
            self.status = StreamingStatus::Downloading;
        }
    }

    /// Marks the preview as complete, unless it has failed.
    pub fn set_complete(&mut self)
        requires
            old(self).wf(),
        ensures
            final(self).wf(),
            final(self)@ == (PreviewState {
                status: if old(self)@.status is Error {
                    old(self)@.status
                } else {
                    StatusView::Complete
                },
                ..old(self)@
            }),
            final(self).spec_bucket() == old(self).spec_bucket(),
            final(self).spec_key() == old(self).spec_key(),
    {
        if !self.is_failed() {
            self.status = StreamingStatus::Complete;
        }
    }

    /// Fails the preview with `message`, for good. A preview that has failed
    /// keeps its first message.
    pub fn fail(&mut self, message: String)
        requires
            old(self).wf(),
        ensures
            final(self).wf(),
            final(self)@ == (PreviewState {
                status: if old(self)@.status is Error {
                    old(self)@.status
                } else {
                    StatusView::Error(message@)
                },
                ..old(self)@
            }),
            final(self).spec_bucket() == old(self).spec_bucket(),
            final(self).spec_key() == old(self).spec_key(),
    {
        if !self.is_failed() {
            self.status = StreamingStatus::Error(message);
        }
    }

    /// Takes in what the transform handed out: indexes its lines and counts
    /// its bytes.
    fn take_output(&mut self, out: Vec<u8>, taken: usize, done: bool) -> (r: AppendOutcome)
        requires
            old(self).wf(),
            old(self).source_bytes + taken <= usize::MAX,
            !(old(self)@.status is Error),
        ensures
            final(self).wf(),
            final(self).transform == old(self).transform,
            final(self).spec_bucket() == old(self).spec_bucket(),
            final(self).spec_key() == old(self).spec_key(),
            final(self).spec_compression() == old(self).spec_compression(),
            (final(self)@, r@) == written(
                old(self)@,
                old(self)@.transform,
                taken as nat,
                out@,
                done,
            ),
    {
        if out.len() > usize::MAX - self.bytes_written {
            let message = text_of("preview too large");
            self.status = StreamingStatus::Error(message.clone());
            return AppendOutcome::Failed(message);
        }
        index_newlines(out.as_slice(), self.bytes_written, &mut self.line_offsets, self.content);
        self.bytes_written = self.bytes_written + out.len();
        self.source_bytes = self.source_bytes + taken;
        proof {
            self.content@ = self.content@ + out@;
        }
        if done {
            self.status = StreamingStatus::Complete;
        }
        AppendOutcome::Written(out)
    }

    /// Appends a chunk of raw bytes that begins at `offset` of the object.
    ///
    /// Chunks are taken in order only. The bytes handed back are to be
    /// written to the scratch file behind those handed back before.
    pub fn append_chunk(&mut self, data: &[u8], offset: usize) -> (r: AppendOutcome)
        requires
            old(self).wf(),
        ensures
            final(self).wf(),
            final(self).spec_bucket() == old(self).spec_bucket(),
            final(self).spec_key() == old(self).spec_key(),
            final(self).spec_compression() == old(self).spec_compression(),
            final(self)@.total_source_size == old(self)@.total_source_size,
            final(self)@.transform is Zstd <==> old(self)@.transform is Zstd,
            old(self)@.content.is_prefix_of(final(self)@.content),
            r matches AppendOutcome::Written(bytes) ==> final(self)@.content == old(self)@.content
                + bytes@,
            !(r is Written) ==> final(self)@.content == old(self)@.content,
            !(old(self)@.transform is Zstd) ==> (final(self)@, r@) == append_step(
                old(self)@,
                data@,
                offset as nat,
            ),
            exists|decoded: Decoded|
                (final(self)@, r@) == #[trigger] append_as(
                    old(self)@,
                    data@,
                    offset as nat,
                    decoded,
                ),
    {
        let ghost nothing: Result<Seq<u8>, Seq<char>> = Ok(Seq::empty());
        let ghost start = self@;
        match &self.status {
            StreamingStatus::Error(message) => {
                proof {
                    assert((self@, AppendResult::Failed(message@)) == append_as(
                        start,
                        data@,
                        offset as nat,
                        Decoded { first: nothing, last: nothing },
                    ));
                }
                return AppendOutcome::Failed(message.clone());
            },
            _ => {},
        }
        if offset != self.source_bytes {
            proof {
                assert((self@, AppendResult::Rejected) == append_as(
                    start,
                    data@,
                    offset as nat,
                    Decoded { first: nothing, last: nothing },
                ));
            }
            return AppendOutcome::Rejected;
        }
        if data.len() > usize::MAX - self.source_bytes {
            let message = text_of("preview too large");
            self.status = StreamingStatus::Error(message.clone());
            proof {
                assert((self@, AppendResult::Failed(message@)) == append_as(
                    start,
                    data@,
                    offset as nat,
                    Decoded { first: nothing, last: nothing },
                ));
            }
            return AppendOutcome::Failed(message);
        }
        let mut out: Vec<u8> = Vec::new();
        match self.transform.process(data, &mut out) {
            Err(message) => {
                self.status = StreamingStatus::Error(message.clone());
                proof {
                    assert((self@, AppendResult::Failed(message@)) == append_as(
                        start,
                        data@,
                        offset as nat,
                        Decoded { first: Err(message@), last: nothing },
                    ));
                }
                return AppendOutcome::Failed(message);
            },
            Ok(()) => {},
        }
        let ghost first = out@;
        let done = self.source_bytes + data.len() >= self.total_source_size && !self.is_complete();
        if done {
            match self.transform.finish(&mut out) {
                Err(message) => {
                    self.status = StreamingStatus::Error(message.clone());
                    proof {
                        assert((self@, AppendResult::Failed(message@)) == append_as(
                            start,
                            data@,
                            offset as nat,
                            Decoded { first: Ok(first), last: Err(message@) },
                        ));
                    }
                    return AppendOutcome::Failed(message);
                },
                Ok(()) => {},
            }
        }
        let ghost last = out@.skip(first.len() as int);
        proof {
            assert(Seq::<u8>::empty() + first =~= first);
            assert(out@ =~= first + last);
            if !done {
                assert(last =~= Seq::<u8>::empty());
            }
        }
        let r = self.take_output(out, data.len(), done);
        proof {
            assert(first + Seq::<u8>::empty() =~= first);
            assert((self@, r@) == append_as(
                start,
                data@,
                offset as nat,
                Decoded { first: Ok(first), last: Ok(last) },
            ));
        }
        r
    }

    /// Finishes the stream: flushes what the transform still holds. The
    /// bytes handed back are to be written to the scratch file.
    pub fn finish_stream(&mut self) -> (r: AppendOutcome)
        requires
            old(self).wf(),
        ensures
            final(self).wf(),
            final(self).spec_bucket() == old(self).spec_bucket(),
            final(self).spec_key() == old(self).spec_key(),
            final(self).spec_compression() == old(self).spec_compression(),
            final(self)@.total_source_size == old(self)@.total_source_size,
            final(self)@.transform is Zstd <==> old(self)@.transform is Zstd,
            old(self)@.content.is_prefix_of(final(self)@.content),
            r matches AppendOutcome::Written(bytes) ==> final(self)@.content == old(self)@.content
                + bytes@,
            !(r is Written) ==> final(self)@.content == old(self)@.content,
            !(old(self)@.transform is Zstd) ==> (final(self)@, r@) == finish_step(old(self)@),
            exists|decoded: Decoded|
                (final(self)@, r@) == #[trigger] finish_as(old(self)@, decoded),
    {
        let ghost nothing: Result<Seq<u8>, Seq<char>> = Ok(Seq::empty());
        let ghost start = self@;
        match &self.status {
            StreamingStatus::Error(message) => {
                proof {
                    assert((self@, AppendResult::Failed(message@)) == finish_as(start, quiet()));
                }
                return AppendOutcome::Failed(message.clone());
            },
            _ => {},
        }
        let mut out: Vec<u8> = Vec::new();
        match self.transform.finish(&mut out) {
            Err(message) => {
                self.status = StreamingStatus::Error(message.clone());
                proof {
                    assert((self@, AppendResult::Failed(message@)) == finish_as(
                        start,
                        Decoded { first: nothing, last: Err(message@) },
                    ));
                }
                return AppendOutcome::Failed(message);
            },
            Ok(()) => {},
        }
        let ghost last = out@;
        proof {
            assert(Seq::<u8>::empty() + out@ =~= out@);
        }
        let r = self.take_output(out, 0, false);
        proof {
            assert((self@, r@) == finish_as(start, Decoded { first: nothing, last: Ok(last) }));
        }
        r
    }

    /// Whether line `line_index` is known to be whole: a later line has
    /// begun, or the preview is complete.
    pub fn is_line_complete(&self, line_index: usize) -> (r: bool)
        requires
            self.wf(),
        ensures
            r == (line_index < line_starts(self@.content).len() && (line_index + 1 < line_starts(
                self@.content,
            ).len() || self@.status is Complete)),
    {
        let n = self.line_offsets.len();
        if line_index >= n {
            return false;
        }
        if line_index + 1 < n {
            return true;
        }
        self.is_complete()
    }

    /// Reads line `line_index` from the mapped bytes of the scratch file,
    /// without its line end. Empty for a line that does not exist or is not
    /// mapped yet.
    pub fn get_line(&self, mapped: &[u8], line_index: usize) -> (r: Vec<u8>)
        requires
            self.wf(),
        ensures
            r@ == line_of(
                mapped@,
                line_starts(self@.content),
                self@.content.len(),
                line_index as int,
            ),
    {
        let n = self.line_offsets.len();
        let ghost starts = line_starts(self@.content);
        if line_index >= n {
            return Vec::new();
        }
        proof {
            lemma_line_starts(self@.content);
            assert(starts[line_index as int] == self.line_offsets@[line_index as int] as nat);
            if line_index + 1 < n {
                assert(starts[line_index + 1] == self.line_offsets@[line_index + 1] as nat);
            }
        }
        let start = self.line_offsets[line_index];
        let next = if line_index + 1 < n {
            let following = self.line_offsets[line_index + 1];
            if following >= 1 {
                following - 1
            } else {
                0
            }
        } else {
            self.bytes_written
        };
        let end = if next <= self.bytes_written {
            next
        } else {
            self.bytes_written
        };
        if start >= end || start >= mapped.len() {
            return Vec::new();
        }
        let len = if end - start <= MAX_LINE_BYTES {
            end - start
        } else {
            MAX_LINE_BYTES
        };
        let stop = if len <= mapped.len() - start {
            start + len
        } else {
            mapped.len()
        };
        let mut cut = stop;
        while cut > start && (mapped[cut - 1] == 10u8 || mapped[cut - 1] == 13u8)
            invariant
                start <= cut <= stop <= mapped@.len(),
                strip_line_end(mapped@.subrange(start as int, stop as int)) == strip_line_end(
                    mapped@.subrange(start as int, cut as int),
                ),
            decreases cut,
        {
            proof {
                let w = mapped@.subrange(start as int, cut as int);
                assert(w.last() == mapped@[cut - 1]);
                assert(w.drop_last() =~= mapped@.subrange(start as int, cut - 1));
            }
            cut -= 1;
        }
        proof {
            let w = mapped@.subrange(start as int, cut as int);
            if cut > start {
                assert(w.last() == mapped@[cut - 1]);
            }
        }
        crate::text::bytes_of(vstd::slice::slice_subrange(mapped, start, cut))
    }

    /// Reads up to `count` lines from `start_line` on from the mapped bytes
    /// of the scratch file.
    pub fn read_lines(&self, mapped: &[u8], start_line: usize, count: usize) -> (r: Vec<Vec<u8>>)
        requires
            self.wf(),
        ensures
            r@.len() == if start_line >= line_starts(self@.content).len() {
                0
            } else if count <= line_starts(self@.content).len() - start_line {
                count as int
            } else {
                line_starts(self@.content).len() - start_line
            },
            forall|i: int|
                0 <= i < r@.len() ==> (#[trigger] r@[i])@ == line_of(
                    mapped@,
                    line_starts(self@.content),
                    self@.content.len(),
                    start_line + i,
                ),
    {
        let n = self.line_offsets.len();
        let mut lines: Vec<Vec<u8>> = Vec::new();
        if start_line >= n {
            return lines;
        }
        let end_line = if count <= n - start_line {
            start_line + count
        } else {
            n
        };
        let mut i: usize = start_line;
        while i < end_line
            invariant
                self.wf(),
                start_line <= i <= end_line <= n,
                n == line_starts(self@.content).len(),
                lines@.len() == i - start_line,
                forall|k: int|
                    0 <= k < lines@.len() ==> (#[trigger] lines@[k])@ == line_of(
                        mapped@,
                        line_starts(self@.content),
                        self@.content.len(),
                        start_line + k,
                    ),
            decreases end_line - i,
        {
            lines.push(self.get_line(mapped, i));
            i += 1;
        }
        lines
    }

    /// Returns what is written so far from the mapped bytes of the scratch
    /// file.
    pub fn get_all_content(&self, mapped: &[u8]) -> (r: Vec<u8>)
        requires
            self.wf(),
        ensures
            r@ == mapped@.take(
                if self@.content.len() <= mapped@.len() {
                    self@.content.len() as int
                } else {
                    mapped@.len() as int
                },
            ),
    {
        let end = if self.bytes_written <= mapped.len() {
            self.bytes_written
        } else {
            mapped.len()
        };
        crate::text::bytes_of(vstd::slice::slice_subrange(mapped, 0, end))
    }

    /// Whether the viewer has to map the scratch file anew: more is written
    /// than it has mapped.
    pub fn needs_remap(&self, mapped_size: usize) -> (r: bool)
        requires
            self.wf(),
        ensures
            r == (self@.content.len() > mapped_size),
    {
        self.bytes_written > mapped_size
    }
}

/// The name of the scratch file of a preview: `preview-`, the process
/// identifier, a dash and the preview's number.
pub open spec fn scratch_name(pid: u32, counter: u64) -> Seq<char> {
    "preview-"@ + decimal(pid as nat) + seq!['-'] + decimal(counter as nat)
}

/// Builds the name of a preview's scratch file from the process identifier
/// and a counter that never repeats within the process.
pub fn scratch_file_name(pid: u32, counter: u64) -> (r: String)
    ensures
        r@ == scratch_name(pid, counter),
{
    let mut name = String::new();
    push_text(&mut name, "preview-");
    push_decimal(&mut name, pid as u64);
    name.push('-');
    push_decimal(&mut name, counter);
    proof {
        assert(name@ =~= scratch_name(pid, counter));
    }
    name
}

} // verus!
