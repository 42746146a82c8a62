use crate::error::{error_detail, protocol, SandboxError};
use crate::text::{chars_of, decimal, decimal_chars, string_from_chars, trim, trim_chars};
use vstd::prelude::*;

verus! {

/// The protocol version this supervisor speaks.
pub const PROTOCOL_VERSION: u32 = 1;

/// The largest frame either side may send: one mebibyte.
pub const MAX_FRAME_BYTES: usize = 1048576;

/// A request frame may be decoded only when it is within the frame bound.
pub fn check_frame_size(len: usize) -> (out: Result<(), SandboxError>)
    ensures
        match out {
            Ok(()) => len <= MAX_FRAME_BYTES,
            Err(e) => len > MAX_FRAME_BYTES && e is Protocol && error_detail(&e)
                == "frame exceeds 1 MiB"@,
        },
{
    if len > MAX_FRAME_BYTES {
        return Err(protocol("frame exceeds 1 MiB"));
    }
    Ok(())
}

/// The message that refuses a request of another protocol version.
pub open spec fn version_message(version: u32) -> Seq<char> {
    "unsupported version "@ + decimal(version as nat)
}

/// A decoded request is served only in this protocol version and with a
/// non-empty type.
pub fn validate_request_header(version: u32, kind: &str) -> (out: Result<(), SandboxError>)
    ensures
        match out {
            Ok(()) => version == PROTOCOL_VERSION && kind@.len() > 0,
            Err(e) => e is Protocol && if version != PROTOCOL_VERSION {
                error_detail(&e) == version_message(version)
            } else {
                kind@.len() == 0 && error_detail(&e) == "request type is empty"@
            },
        },
{
    if version != PROTOCOL_VERSION {
        let mut message = chars_of("unsupported version ");
        let mut digits = decimal_chars(version as u64);
        message.append(&mut digits);
        return Err(SandboxError::Protocol(string_from_chars(&message)));
    }
    if kind.is_empty() {
        return Err(protocol("request type is empty"));
    }
    Ok(())
}

/// Frames an encoded response: refuses one beyond the frame bound, else
/// appends the newline that ends it.
pub fn frame_response(encoded: Vec<u8>) -> (out: Result<Vec<u8>, SandboxError>)
    ensures
        match out {
            Ok(framed) => encoded@.len() <= MAX_FRAME_BYTES && framed@ == encoded@.push(10u8),
            Err(e) => encoded@.len() > MAX_FRAME_BYTES && e is Protocol && error_detail(&e)
                == "response exceeds 1 MiB"@,
        },
{
    if encoded.len() > MAX_FRAME_BYTES {
        return Err(protocol("response exceeds 1 MiB"));
    }
    let mut framed = encoded;
    framed.push(10u8);
    Ok(framed)
}

/// A launcher's result is accepted only within the frame bound.
pub fn bounded_json(bytes: &[u8]) -> (out: Result<&[u8], SandboxError>)
    ensures
        match out {
            Ok(b) => bytes@.len() <= MAX_FRAME_BYTES && b@ == bytes@,
            Err(e) => bytes@.len() > MAX_FRAME_BYTES && e is Protocol && error_detail(&e)
                == "launcher result exceeds 1 MiB"@,
        },
{
    if bytes.len() > MAX_FRAME_BYTES {
        return Err(protocol("launcher result exceeds 1 MiB"));
    }
    Ok(bytes)
}

/// The text that lossy UTF-8 decoding makes of `bytes`.
pub uninterp spec fn utf8_lossy(bytes: Seq<u8>) -> Seq<char>;

/// `String::from_utf8_lossy`, owned.
#[verifier::external_body]
fn lossy_text(bytes: &[u8]) -> (text: String)
    ensures
        text@ == utf8_lossy(bytes@),
{
    String::from_utf8_lossy(bytes).into_owned()
}

/// The most bytes of a launcher's diagnostics that are reported.
pub const MAX_DIAGNOSTIC_BYTES: usize = 65536;

/// The last 64 KiB of `bytes`, decoded lossily and trimmed.
pub open spec fn diagnostic_text(bytes: Seq<u8>) -> Seq<char> {
    let start = if bytes.len() > MAX_DIAGNOSTIC_BYTES {
        bytes.len() - MAX_DIAGNOSTIC_BYTES
    } else {
        0
    };
    trim(utf8_lossy(bytes.skip(start)))
}

pub fn bounded_text(bytes: &[u8]) -> (text: String)
    ensures
        text@ == diagnostic_text(bytes@),
{
    let start = bytes.len().saturating_sub(MAX_DIAGNOSTIC_BYTES);
    let tail = crate::text::slice_bytes(bytes, start);
    let decoded = lossy_text(tail.as_slice());
    let chars = chars_of(decoded.as_str());
    let trimmed = trim_chars(&chars);
    string_from_chars(&trimmed)
}

/// The outcome of reading one chunk of input into a frame.
#[derive(Debug, Clone, Copy, PartialEq, Eq, Structural)]
pub struct FrameProgress {
    /// Bytes of the chunk used, its newline included.
    pub consumed: usize,
    /// The chunk held the newline that ends the frame.
    pub complete: bool,
}

/// Where the current frame's bytes in `chunk` end: at its first newline, or
/// at its end when it holds none.
pub open spec fn line_end(chunk: Seq<u8>) -> int {
    if chunk.contains(10u8) {
        choose|i: int| 0 <= i < chunk.len() && chunk[i] == 10u8 && forall|j: int|
            0 <= j < i ==> chunk[j] != 10u8
    } else {
        chunk.len() as int
    }
}

/// What one side frames, the other reads back: a body without a newline
/// and within the frame bound, once framed, is read from an empty frame as
/// one complete frame holding exactly that body, newline consumed.
pub proof fn lemma_framed_body_reads_back(body: Seq<u8>)
    requires
        body.len() <= MAX_FRAME_BYTES,
        !body.contains(10u8),
    ensures
        body.push(10u8).contains(10u8),
        line_end(body.push(10u8)) == body.len(),
        Seq::<u8>::empty().len() + line_end(body.push(10u8)) <= MAX_FRAME_BYTES,
        Seq::<u8>::empty() + body.push(10u8).take(line_end(body.push(10u8))) == body,
{
    let framed = body.push(10u8);
    assert(framed[body.len() as int] == 10u8);
    assert(framed.contains(10u8));
    let k = choose|i: int|
        0 <= i < framed.len() && framed[i] == 10u8 && forall|j: int| 0 <= j < i ==> framed[j] != 10u8;
    assert(forall|j: int| 0 <= j < body.len() ==> framed[j] == body[j]);
    assert(0 <= k < framed.len() && framed[k] == 10u8 && forall|j: int|
        0 <= j < k ==> framed[j] != 10u8);
    assert(k == body.len()) by {
        if k < body.len() {
            assert(body[k] == 10u8);
            assert(body.contains(10u8));
        }
        if k > body.len() {
            assert(framed[body.len() as int] != 10u8);
        }
    }
    assert(Seq::<u8>::empty() + framed.take(body.len() as int) =~= body);
}

/// Adds the bytes of `chunk` up to its first newline to `frame`. The frame
/// never grows beyond the frame bound and never holds a newline.
pub fn read_frame_chunk(frame: &mut Vec<u8>, chunk: &[u8]) -> (out: Result<FrameProgress, SandboxError>)
    requires
        old(frame)@.len() <= MAX_FRAME_BYTES,
        !old(frame)@.contains(10u8),
    ensures
        match out {
            Ok(p) => {
                let take = if p.complete {
                    p.consumed - 1
                } else {
                    p.consumed as int
                };
                &&& 0 <= take <= chunk@.len()
                &&& final(frame)@ == old(frame)@ + chunk@.take(take)
                &&& final(frame)@.len() <= MAX_FRAME_BYTES
                &&& !final(frame)@.contains(10u8)
                &&& (p.complete ==> chunk@[take] == 10u8)
                &&& (!p.complete ==> p.consumed == chunk@.len())
            },
            Err(e) => e is Protocol && error_detail(&e) == "frame exceeds 1 MiB"@,
        },
        out is Err <==> old(frame)@.len() + line_end(chunk@) > MAX_FRAME_BYTES,
        out is Err ==> final(frame)@ == old(frame)@,
        out is Ok ==> (out->Ok_0.complete <==> chunk@.contains(10u8)),
        out is Ok ==> final(frame)@ == old(frame)@ + chunk@.take(line_end(chunk@)),
{
    let mut take: usize = 0;
    while take < chunk.len() && chunk[take] != 10u8
        invariant
            take <= chunk.len(),
            forall|j: int| 0 <= j < take ==> chunk@[j] != 10u8,
        decreases chunk.len() - take,
    {
        take += 1;
    }
    let complete = take < chunk.len();
    proof {
        if complete {
            assert(chunk@[take as int] == 10u8);
            assert(chunk@.contains(10u8));
            let k = choose|i: int| 0 <= i < chunk@.len() && chunk@[i] == 10u8 && forall|j: int|
                0 <= j < i ==> chunk@[j] != 10u8;
            assert(0 <= k < chunk@.len() && chunk@[k] == 10u8 && forall|j: int|
                0 <= j < k ==> chunk@[j] != 10u8);
            assert(k == take) by {
                if k < take {
                    assert(chunk@[k] != 10u8);
                }
                if k > take {
                    assert(chunk@[take as int] != 10u8);
                }
            }
        } else {
            assert(!chunk@.contains(10u8));
        }
        assert(line_end(chunk@) == take);
    }
    if take > MAX_FRAME_BYTES - frame.len() {
        return Err(protocol("frame exceeds 1 MiB"));
    }
    let ghost before = frame@;
    let mut i: usize = 0;
    while i < take
        invariant
            i <= take <= chunk.len(),
            frame@ == before + chunk@.take(i as int),
        decreases take - i,
    {
        frame.push(chunk[i]);
        assert(chunk@.take(i + 1) =~= chunk@.take(i as int).push(chunk@[i as int]));
        assert(frame@ =~= before + chunk@.take(i + 1));
        i += 1;
    }
    assert forall|j: int| 0 <= j < frame@.len() implies frame@[j] != 10u8 by {
        if j < before.len() {
            assert(frame@[j] == before[j]);
        } else {
            assert(frame@[j] == chunk@[j - before.len()]);
        }
    }
    let consumed = if complete {
        take + 1
    } else {
        take
    };
    Ok(FrameProgress { consumed, complete })
}

/// A stream of frames as bytes: each frame followed by its newline.
pub open spec fn terminated(frames: Seq<Seq<u8>>) -> Seq<u8>
    decreases frames.len(),
{
    if frames.len() == 0 {
        seq![]
    } else {
        terminated(frames.drop_last()) + frames.last().push(10u8)
    }
}

/// A frame as the protocol allows it: within the bound and without a newline.
pub open spec fn frame_ok(frame: Seq<u8>) -> bool {
    frame.len() <= MAX_FRAME_BYTES && !frame.contains(10u8)
}

/// Cuts an input stream, delivered in chunks of any size, into frames.
pub struct FrameReader {
    frame: Vec<u8>,
    read: Ghost<Seq<u8>>,
    frames: Ghost<Seq<Seq<u8>>>,
}

impl FrameReader {
    /// The bytes of the input taken so far.
    pub closed spec fn bytes_read(&self) -> Seq<u8> {
        self.read@
    }

    /// The complete frames handed out so far, in order.
    pub closed spec fn frames_read(&self) -> Seq<Seq<u8>> {
        self.frames@
    }

    /// The start of the frame being read.
    pub closed spec fn pending(&self) -> Seq<u8> {
        self.frame@
    }

    /// What was read is the frames handed out, each with its newline, then
    /// the pending frame; every frame is within the bound.
    pub closed spec fn well_formed(&self) -> bool {
        &&& self.read@ == terminated(self.frames@) + self.frame@
        &&& frame_ok(self.frame@)
        &&& forall|i: int| 0 <= i < self.frames@.len() ==> frame_ok(#[trigger] self.frames@[i])
    }

    pub fn new() -> (r: Self)
        ensures
            r.well_formed(),
            r.bytes_read() == Seq::<u8>::empty(),
            r.frames_read() == Seq::<Seq<u8>>::empty(),
            r.pending() == Seq::<u8>::empty(),
    {
        let r = FrameReader { frame: Vec::new(), read: Ghost(Seq::empty()), frames: Ghost(Seq::empty()) };
        assert(r.read@ =~= terminated(r.frames@) + r.frame@);
        r
    }

    /// Takes bytes of `chunk` up to and including its first newline, and
    /// gives how many it took and the frame that newline completes. Refuses a
    /// frame that would grow beyond the frame bound.
    pub fn feed(&mut self, chunk: &[u8]) -> (out: Result<(usize, Option<Vec<u8>>), SandboxError>)
        requires
            old(self).well_formed(),
        ensures
            final(self).well_formed(),
            out is Err <==> old(self).pending().len() + line_end(chunk@) > MAX_FRAME_BYTES,
            match out {
                Ok((taken, done)) => {
                    &&& taken <= chunk@.len()
                    &&& final(self).bytes_read() == old(self).bytes_read() + chunk@.take(taken as int)
                    &&& match done {
                        Some(frame) => {
                            &&& chunk@.contains(10u8)
                            &&& frame@ == old(self).pending() + chunk@.take(line_end(chunk@))
                            &&& final(self).frames_read() == old(self).frames_read().push(frame@)
                            &&& final(self).pending() == Seq::<u8>::empty()
                        },
                        None => {
                            &&& !chunk@.contains(10u8)
                            &&& taken == chunk@.len()
                            &&& final(self).frames_read() == old(self).frames_read()
                        },
                    }
                },
                Err(e) => e is Protocol && error_detail(&e) == "frame exceeds 1 MiB"@
                    && final(self).bytes_read() == old(self).bytes_read()
                    && final(self).frames_read() == old(self).frames_read()
                    && final(self).pending() == old(self).pending(),
            },
    {
        let ghost before = self.frame@;
        let mut frame = Vec::new();
        std::mem::swap(&mut frame, &mut self.frame);
        let progress = match read_frame_chunk(&mut frame, chunk) {
            Ok(p) => p,
            Err(e) => {
                std::mem::swap(&mut frame, &mut self.frame);
                return Err(e);
            },
        };
        let ghost take = line_end(chunk@);
        if progress.complete {
            proof {
                let t = progress.consumed - 1;
                assert(frame@ == before + chunk@.take(t));
                assert forall|j: int| 0 <= j < t implies chunk@[j] != 10u8 by {
                    assert(frame@[before.len() + j] == chunk@[j]);
                    if chunk@[j] == 10u8 {
                        assert(frame@.contains(10u8));
                    }
                }
                assert(chunk@.contains(10u8));
                let k = choose|i: int|
                    0 <= i < chunk@.len() && chunk@[i] == 10u8 && forall|j: int|
                        0 <= j < i ==> chunk@[j] != 10u8;
                assert(0 <= k < chunk@.len() && chunk@[k] == 10u8 && forall|j: int|
                    0 <= j < k ==> chunk@[j] != 10u8);
                assert(k == t) by {
                    if k < t {
                        assert(chunk@[k] != 10u8);
                    }
                    if k > t {
                        assert(chunk@[t] != 10u8);
                    }
                }
                assert(frame@ == before + chunk@.take(take));
                assert(frame@.len() == before.len() + t);
                assert(t == take);
                assert(chunk@[t] == 10u8);
                assert(chunk@.take(progress.consumed as int) =~= chunk@.take(take).push(10u8));
                let fs = self.frames@.push(frame@);
                assert(fs.drop_last() =~= self.frames@);
                assert(terminated(fs) == terminated(self.frames@) + frame@.push(10u8));
                assert(terminated(fs) =~= terminated(self.frames@) + before + chunk@.take(
                    progress.consumed as int,
                ));
            }
            self.read = Ghost(self.read@ + chunk@.take(progress.consumed as int));
            self.frames = Ghost(self.frames@.push(frame@));
            proof {
                assert(self.read@ =~= terminated(self.frames@) + self.frame@);
            }
            Ok((progress.consumed, Some(frame)))
        } else {
            proof {
                assert(!chunk@.contains(10u8));
                assert(take == chunk@.len());
                assert(progress.consumed == chunk@.len());
                assert(chunk@.take(progress.consumed as int) =~= chunk@.take(take));
            }
            self.read = Ghost(self.read@ + chunk@.take(progress.consumed as int));
            std::mem::swap(&mut frame, &mut self.frame);
            proof {
                assert(self.read@ =~= terminated(self.frames@) + self.frame@);
            }
            Ok((progress.consumed, None))
        }
    }

    /// The input ended: the pending frame, if it holds anything, is the last
    /// one, unterminated.
    pub fn end_of_input(self) -> (last: Option<Vec<u8>>)
        requires
            self.well_formed(),
        ensures
            match last {
                Some(frame) => frame@ == self.pending() && frame@.len() > 0,
                None => self.pending().len() == 0,
            },
    {
        if self.frame.len() == 0 {
            None
        } else {
            Some(self.frame)
        }
    }
}

/// Whatever chunks the input came in, what a reader took of it is exactly
/// the frames it handed out, each followed by a newline, and then the
/// pending frame; no frame holds a newline or exceeds the frame bound. At
/// the end of the input the pending frame, if any, is the last frame.
pub proof fn lemma_stream_reads_back(reader: &FrameReader)
    requires
        reader.well_formed(),
    ensures
        reader.bytes_read() == terminated(reader.frames_read()) + reader.pending(),
        frame_ok(reader.pending()),
        forall|i: int|
            0 <= i < reader.frames_read().len() ==> frame_ok(#[trigger] reader.frames_read()[i]),
{
}

} // verus!
