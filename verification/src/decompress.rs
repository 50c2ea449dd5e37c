//! Decoding a compressed source: which algorithm, and how far the
//! decoding has come.
//!
//! The decoder itself is the caller's. The reader here says when to run
//! it and takes what it reports, so that output is handed on only while
//! the decoding is sound: once it has failed, nothing more comes out.

use crate::error::{Error, ErrorView};
use crate::observe::{pull_view, PullView};
use vstd::prelude::*;
use vstd::slice::slice_subrange;
use vstd::string::*;
use vstd::utf8::encode_utf8_decode_utf8;

verus! {

/// The compression algorithms that a source can be encoded with.
#[derive(Debug, Clone, Copy, PartialEq, Eq, Structural)]
pub enum CompressAlgorithm {
    Bz2,
    Brotli,
    Deflate,
    Gzip,
    Lzma,
    Xz,
    Zlib,
    Zstd,
}

/// The algorithm that a tag names, if it names one.
pub open spec fn algorithm_of(tag: Seq<char>) -> Option<CompressAlgorithm> {
    if tag == "bz2"@ {
        Some(CompressAlgorithm::Bz2)
    } else if tag == "br"@ {
        Some(CompressAlgorithm::Brotli)
    } else if tag == "deflate"@ {
        Some(CompressAlgorithm::Deflate)
    } else if tag == "gz"@ {
        Some(CompressAlgorithm::Gzip)
    } else if tag == "lzma"@ {
        Some(CompressAlgorithm::Lzma)
    } else if tag == "xz"@ {
        Some(CompressAlgorithm::Xz)
    } else if tag == "zl"@ {
        Some(CompressAlgorithm::Zlib)
    } else if tag == "zst"@ {
        Some(CompressAlgorithm::Zstd)
    } else {
        None
    }
}

/// Whether `bytes` starts with `magic`.
pub open spec fn starts_with(bytes: Seq<u8>, magic: Seq<u8>) -> bool {
    magic.len() <= bytes.len() && bytes.subrange(0, magic.len() as int) == magic
}

/// The algorithm that the leading bytes of an encoded source give away.
/// Brotli and raw deflate have no signature and are never detected.
pub open spec fn detected(bytes: Seq<u8>) -> Option<CompressAlgorithm> {
    if starts_with(bytes, seq![0x1fu8, 0x8bu8]) {
        Some(CompressAlgorithm::Gzip)
    } else if starts_with(bytes, seq![0x28u8, 0xb5u8, 0x2fu8, 0xfdu8]) {
        Some(CompressAlgorithm::Zstd)
    } else if starts_with(bytes, seq![0x42u8, 0x5au8, 0x68u8]) {
        Some(CompressAlgorithm::Bz2)
    } else if starts_with(bytes, seq![0xfdu8, 0x37u8, 0x7au8, 0x58u8, 0x5au8, 0x00u8]) {
        Some(CompressAlgorithm::Xz)
    } else if starts_with(bytes, seq![0x5du8, 0x00u8, 0x00u8]) {
        Some(CompressAlgorithm::Lzma)
    } else if starts_with(bytes, seq![0x78u8, 0x01u8]) || starts_with(bytes, seq![0x78u8, 0x5eu8])
        || starts_with(bytes, seq![0x78u8, 0x9cu8]) || starts_with(bytes, seq![0x78u8, 0xdau8]) {
        Some(CompressAlgorithm::Zlib)
    } else {
        None
    }
}

fn same_bytes(a: &[u8], b: &[u8]) -> (same: bool)
    ensures
        same == (a@ == b@),
{
    if a.len() != b.len() {
        return false;
    }
    let mut i: usize = 0;
    while i < a.len()
        invariant
            i <= a@.len(),
            a@.len() == b@.len(),
            a@.take(i as int) == b@.take(i as int),
        decreases a@.len() - i,
    {
        if a[i] != b[i] {
            return false;
        }
        proof {
            assert(a@.take(i + 1) =~= a@.take(i as int).push(a@[i as int]));
            assert(b@.take(i + 1) =~= b@.take(i as int).push(b@[i as int]));
        }
        i = i + 1;
    }
    proof {
        assert(a@.take(i as int) =~= a@);
        assert(b@.take(i as int) =~= b@);
    }
    true
}

fn same_text(a: &str, b: &str) -> (same: bool)
    ensures
        same == (a@ == b@),
{
    proof {
        encode_utf8_decode_utf8(a@);
        encode_utf8_decode_utf8(b@);
    }
    same_bytes(a.as_bytes(), b.as_bytes())
}

fn has_magic(bytes: &[u8], magic: &[u8]) -> (has: bool)
    ensures
        has == starts_with(bytes@, magic@),
{
    if magic.len() > bytes.len() {
        return false;
    }
    same_bytes(slice_subrange(bytes, 0, magic.len()), magic)
}

impl CompressAlgorithm {
    /// The algorithm that `tag` names. A tag that names none is refused.
    pub fn from_tag(tag: &str) -> (r: Result<CompressAlgorithm, Error>)
        ensures
            match algorithm_of(tag@) {
                Some(algorithm) => r == Ok::<CompressAlgorithm, Error>(algorithm),
                None => r is Err && r->Err_0@ == (ErrorView::UnknownAlgorithm { tag: tag@ }),
            },
    {
        if same_text(tag, "bz2") {
            Ok(CompressAlgorithm::Bz2)
        } else if same_text(tag, "br") {
            Ok(CompressAlgorithm::Brotli)
        } else if same_text(tag, "deflate") {
            Ok(CompressAlgorithm::Deflate)
        } else if same_text(tag, "gz") {
            Ok(CompressAlgorithm::Gzip)
        } else if same_text(tag, "lzma") {
            Ok(CompressAlgorithm::Lzma)
        } else if same_text(tag, "xz") {
            Ok(CompressAlgorithm::Xz)
        } else if same_text(tag, "zl") {
            Ok(CompressAlgorithm::Zlib)
        } else if same_text(tag, "zst") {
            Ok(CompressAlgorithm::Zstd)
        } else {
            Err(Error::UnknownAlgorithm { tag: String::from_str(tag) })
        }
    }

    /// The algorithm that the leading bytes of an encoded source give
    /// away, if any.
    pub fn detect(leading: &[u8]) -> (r: Option<CompressAlgorithm>)
        ensures
            r == detected(leading@),
    {
        let gzip: [u8; 2] = [0x1f, 0x8b];
        let zstd: [u8; 4] = [0x28, 0xb5, 0x2f, 0xfd];
        let bz2: [u8; 3] = [0x42, 0x5a, 0x68];
        let xz: [u8; 6] = [0xfd, 0x37, 0x7a, 0x58, 0x5a, 0x00];
        let lzma: [u8; 3] = [0x5d, 0x00, 0x00];
        let zlib_a: [u8; 2] = [0x78, 0x01];
        let zlib_b: [u8; 2] = [0x78, 0x5e];
        let zlib_c: [u8; 2] = [0x78, 0x9c];
        let zlib_d: [u8; 2] = [0x78, 0xda];
        proof {
            assert(gzip@ =~= seq![0x1fu8, 0x8bu8]);
            assert(zstd@ =~= seq![0x28u8, 0xb5u8, 0x2fu8, 0xfdu8]);
            assert(bz2@ =~= seq![0x42u8, 0x5au8, 0x68u8]);
            assert(xz@ =~= seq![0xfdu8, 0x37u8, 0x7au8, 0x58u8, 0x5au8, 0x00u8]);
            assert(lzma@ =~= seq![0x5du8, 0x00u8, 0x00u8]);
            assert(zlib_a@ =~= seq![0x78u8, 0x01u8]);
            assert(zlib_b@ =~= seq![0x78u8, 0x5eu8]);
            assert(zlib_c@ =~= seq![0x78u8, 0x9cu8]);
            assert(zlib_d@ =~= seq![0x78u8, 0xdau8]);
        }
        if has_magic(leading, gzip.as_slice()) {
            Some(CompressAlgorithm::Gzip)
        } else if has_magic(leading, zstd.as_slice()) {
            Some(CompressAlgorithm::Zstd)
        } else if has_magic(leading, bz2.as_slice()) {
            Some(CompressAlgorithm::Bz2)
        } else if has_magic(leading, xz.as_slice()) {
            Some(CompressAlgorithm::Xz)
        } else if has_magic(leading, lzma.as_slice()) {
            Some(CompressAlgorithm::Lzma)
        } else if has_magic(leading, zlib_a.as_slice()) || has_magic(leading, zlib_b.as_slice())
            || has_magic(leading, zlib_c.as_slice()) || has_magic(leading, zlib_d.as_slice()) {
            Some(CompressAlgorithm::Zlib)
        } else {
            None
        }
    }
}

/// How far the decoding of a source has come.
#[derive(Debug, Clone, Copy, PartialEq, Eq, Structural)]
pub enum DecompressState {
    /// Nothing was asked for yet.
    Idle,
    /// The decoder runs; it has not reported the end.
    Decoding,
    /// The decoder reported the end of the encoded stream.
    Finished,
    /// The decoder failed. Nothing more comes out.
    Failed,
}

/// What the decoder reports for one run.
#[derive(Debug, Clone, PartialEq, Eq)]
pub enum Decoded {
    /// Decoded bytes; more may follow.
    Output(Vec<u8>),
    /// The encoded stream has come to its end.
    EndOfStream,
    /// The encoded data cannot be decoded.
    Failed(String),
}

/// Mathematical model of a [`Decoded`].
pub enum DecodedView {
    Output(Seq<u8>),
    EndOfStream,
    Failed(Seq<char>),
}

impl View for Decoded {
    type V = DecodedView;

    open spec fn view(&self) -> DecodedView {
        match *self {
            Decoded::Output(bytes) => DecodedView::Output(bytes@),
            Decoded::EndOfStream => DecodedView::EndOfStream,
            Decoded::Failed(message) => DecodedView::Failed(message@),
        }
    }
}

/// What a pull from a decoding reader leads to.
#[derive(Debug, Clone, Copy, PartialEq, Eq, Structural)]
pub enum DecodeStep {
    /// Run the decoder and hand over what it reports.
    Decode,
    /// The decoded stream has ended.
    End,
    /// The decoding failed before.
    Failed,
}

/// The state after a pull, and what the pull leads to. The first pull
/// starts the decoding; a pull after the end or after a failure changes
/// nothing and runs no decoder.
pub open spec fn decode_pull(state: DecompressState) -> (DecompressState, DecodeStep) {
    match state {
        DecompressState::Idle => (DecompressState::Decoding, DecodeStep::Decode),
        DecompressState::Decoding => (DecompressState::Decoding, DecodeStep::Decode),
        DecompressState::Finished => (DecompressState::Finished, DecodeStep::End),
        DecompressState::Failed => (DecompressState::Failed, DecodeStep::Failed),
    }
}

/// The state after a report of the decoder, and the segment that the
/// report gives. While decoding, output is handed on, the end of the
/// stream ends the decoding, and a failure fails it for good. In any
/// other state the report was not asked for: it is refused and the state
/// stays.
pub open spec fn decode_report(state: DecompressState, report: DecodedView) -> (
    DecompressState,
    PullView,
) {
    match state {
        DecompressState::Decoding => match report {
            DecodedView::Output(bytes) => (DecompressState::Decoding, PullView::Segment(bytes)),
            DecodedView::EndOfStream => (DecompressState::Finished, PullView::End),
            DecodedView::Failed(message) => (
                DecompressState::Failed,
                PullView::Failed(ErrorView::Decode { message }),
            ),
        },
        _ => (state, PullView::Failed(ErrorView::UnexpectedEvent)),
    }
}

/// A decoded source over an encoded one.
pub struct DecompressReader {
    algorithm: CompressAlgorithm,
    state: DecompressState,
}

impl DecompressReader {
    /// The algorithm that the source is decoded with.
    pub closed spec fn algorithm(&self) -> CompressAlgorithm {
        self.algorithm
    }

    /// How far the decoding has come.
    pub closed spec fn state(&self) -> DecompressState {
        self.state
    }

    /// A reader for a source that is encoded with `algorithm`.
    pub fn new(algorithm: CompressAlgorithm) -> (r: Self)
        ensures
            r.algorithm() == algorithm,
            r.state() == DecompressState::Idle,
    {
        DecompressReader { algorithm, state: DecompressState::Idle }
    }

    /// A reader for a source that is encoded with the algorithm that
    /// `tag` names. A tag that names none is refused, before anything is
    /// decoded.
    pub fn from_tag(tag: &str) -> (r: Result<Self, Error>)
        ensures
            match algorithm_of(tag@) {
                Some(algorithm) => r is Ok && r->Ok_0.algorithm() == algorithm && r->Ok_0.state()
                    == DecompressState::Idle,
                None => r is Err && r->Err_0@ == (ErrorView::UnknownAlgorithm { tag: tag@ }),
            },
    {
        match CompressAlgorithm::from_tag(tag) {
            Ok(algorithm) => Ok(DecompressReader::new(algorithm)),
            Err(error) => Err(error),
        }
    }

    /// A reader for a source whose leading bytes give its algorithm
    /// away; none where they do not.
    pub fn detect(leading: &[u8]) -> (r: Option<Self>)
        ensures
            match detected(leading@) {
                Some(algorithm) => r is Some && r->Some_0.algorithm() == algorithm
                    && r->Some_0.state() == DecompressState::Idle,
                None => r is None,
            },
    {
        match CompressAlgorithm::detect(leading) {
            Some(algorithm) => Some(DecompressReader::new(algorithm)),
            None => None,
        }
    }

    /// The algorithm that the source is decoded with.
    pub fn get_algorithm(&self) -> (a: CompressAlgorithm)
        ensures
            a == self.algorithm(),
    {
        self.algorithm
    }

    /// How far the decoding has come.
    pub fn get_state(&self) -> (s: DecompressState)
        ensures
            s == self.state(),
    {
        self.state
    }

    /// Asks for the next decoded segment.
    pub fn pull(&mut self) -> (step: DecodeStep)
        ensures
            final(self).algorithm() == old(self).algorithm(),
            final(self).state() == decode_pull(old(self).state()).0,
            step == decode_pull(old(self).state()).1,
    {
        match self.state {
            DecompressState::Idle => {
                self.state = DecompressState::Decoding;
                DecodeStep::Decode
            },
            DecompressState::Decoding => DecodeStep::Decode,
            DecompressState::Finished => DecodeStep::End,
            DecompressState::Failed => DecodeStep::Failed,
        }
    }

    /// Takes what the decoder reported and gives the decoded segment.
    pub fn decoded(&mut self, report: Decoded) -> (segment: Result<Option<Vec<u8>>, Error>)
        ensures
            final(self).algorithm() == old(self).algorithm(),
            final(self).state() == decode_report(old(self).state(), report@).0,
            pull_view(segment) == decode_report(old(self).state(), report@).1,
    {
        match self.state {
            DecompressState::Decoding => match report {
                Decoded::Output(bytes) => Ok(Some(bytes)),
                Decoded::EndOfStream => {
                    self.state = DecompressState::Finished;
                    Ok(None)
                },
                Decoded::Failed(message) => {
                    self.state = DecompressState::Failed;
                    Err(Error::Decode { message })
                },
            },
            _ => Err(Error::UnexpectedEvent),
        }
    }
}

/// The state after a sequence of reports, each asked for by a pull.
pub open spec fn decode_all(state: DecompressState, reports: Seq<DecodedView>) -> DecompressState
    decreases reports.len(),
{
    if reports.len() == 0 {
        state
    } else {
        let before = decode_all(state, reports.drop_last());
        decode_report(decode_pull(before).0, reports.last()).0
    }
}

/// A failure is final: once the decoding has failed, whatever the decoder
/// reports afterwards, the state stays failed, no pull runs the decoder
/// and no report gives a segment. The end is final in the same way.
pub proof fn lemma_decode_terminal(state: DecompressState, reports: Seq<DecodedView>)
    requires
        state == DecompressState::Failed || state == DecompressState::Finished,
    ensures
        decode_all(state, reports) == state,
        decode_pull(state).0 == state,
        decode_pull(state).1 != DecodeStep::Decode,
        forall|report: DecodedView|
            !(#[trigger] decode_report(state, report).1 is Segment) && decode_report(
                state,
                report,
            ).0 == state,
    decreases reports.len(),
{
    if reports.len() > 0 {
        lemma_decode_terminal(state, reports.drop_last());
    }
}

} // verus!
