use upload_engine::decompress::{
    CompressAlgorithm, DecodeStep, Decoded, DecompressReader, DecompressState,
};
use upload_engine::error::{Error, ErrorKind};

#[test]
fn every_tag_names_its_algorithm() {
    assert_eq!(CompressAlgorithm::from_tag("bz2"), Ok(CompressAlgorithm::Bz2));
    assert_eq!(CompressAlgorithm::from_tag("br"), Ok(CompressAlgorithm::Brotli));
    assert_eq!(CompressAlgorithm::from_tag("deflate"), Ok(CompressAlgorithm::Deflate));
    assert_eq!(CompressAlgorithm::from_tag("gz"), Ok(CompressAlgorithm::Gzip));
    assert_eq!(CompressAlgorithm::from_tag("lzma"), Ok(CompressAlgorithm::Lzma));
    assert_eq!(CompressAlgorithm::from_tag("xz"), Ok(CompressAlgorithm::Xz));
    assert_eq!(CompressAlgorithm::from_tag("zl"), Ok(CompressAlgorithm::Zlib));
    assert_eq!(CompressAlgorithm::from_tag("zst"), Ok(CompressAlgorithm::Zstd));
}

#[test]
fn unknown_tag_is_a_configuration_error() {
    for tag in ["", "zip", "GZ", "gz ", "gzip"] {
        let e = CompressAlgorithm::from_tag(tag).unwrap_err();
        assert_eq!(e, Error::UnknownAlgorithm { tag: String::from(tag) });
        assert_eq!(e.kind(), ErrorKind::Configuration);
        assert!(DecompressReader::from_tag(tag).is_err());
    }
}

#[test]
fn leading_bytes_give_the_algorithm_away() {
    assert_eq!(CompressAlgorithm::detect(&[0x1f, 0x8b, 0x08]), Some(CompressAlgorithm::Gzip));
    assert_eq!(
        CompressAlgorithm::detect(&[0x28, 0xb5, 0x2f, 0xfd, 0x00]),
        Some(CompressAlgorithm::Zstd)
    );
    assert_eq!(CompressAlgorithm::detect(b"BZh91AY"), Some(CompressAlgorithm::Bz2));
    assert_eq!(
        CompressAlgorithm::detect(&[0xfd, 0x37, 0x7a, 0x58, 0x5a, 0x00]),
        Some(CompressAlgorithm::Xz)
    );
    assert_eq!(CompressAlgorithm::detect(&[0x5d, 0x00, 0x00, 0x80]), Some(CompressAlgorithm::Lzma));
    assert_eq!(CompressAlgorithm::detect(&[0x78, 0x9c, 0x01]), Some(CompressAlgorithm::Zlib));
    assert_eq!(CompressAlgorithm::detect(&[0x78, 0x01]), Some(CompressAlgorithm::Zlib));
    assert_eq!(CompressAlgorithm::detect(&[0x78, 0x5e]), Some(CompressAlgorithm::Zlib));
    assert_eq!(CompressAlgorithm::detect(&[0x78, 0xda]), Some(CompressAlgorithm::Zlib));
}

#[test]
fn other_leading_bytes_give_nothing_away() {
    assert_eq!(CompressAlgorithm::detect(&[]), None);
    assert_eq!(CompressAlgorithm::detect(&[0x1f]), None);
    assert_eq!(CompressAlgorithm::detect(&[0x78, 0x02]), None);
    assert_eq!(CompressAlgorithm::detect(b"plain text"), None);
    assert_eq!(CompressAlgorithm::detect(&[0xfd, 0x37, 0x7a, 0x58, 0x5a]), None);
    assert!(DecompressReader::detect(b"plain text").is_none());
}

#[test]
fn decoding_runs_from_idle_to_finished() {
    let mut r = DecompressReader::from_tag("gz").unwrap();
    assert_eq!(r.get_algorithm(), CompressAlgorithm::Gzip);
    assert_eq!(r.get_state(), DecompressState::Idle);
    assert_eq!(r.pull(), DecodeStep::Decode);
    assert_eq!(r.get_state(), DecompressState::Decoding);
    assert_eq!(r.decoded(Decoded::Output(vec![1, 2])), Ok(Some(vec![1, 2])));
    assert_eq!(r.get_state(), DecompressState::Decoding);
    assert_eq!(r.pull(), DecodeStep::Decode);
    assert_eq!(r.decoded(Decoded::Output(Vec::new())), Ok(Some(Vec::new())));
    assert_eq!(r.pull(), DecodeStep::Decode);
    assert_eq!(r.decoded(Decoded::EndOfStream), Ok(None));
    assert_eq!(r.get_state(), DecompressState::Finished);
    assert_eq!(r.pull(), DecodeStep::End);
    assert_eq!(r.get_state(), DecompressState::Finished);
}

#[test]
fn decode_error_is_terminal() {
    let mut r = DecompressReader::detect(&[0x28, 0xb5, 0x2f, 0xfd]).unwrap();
    assert_eq!(r.get_algorithm(), CompressAlgorithm::Zstd);
    assert_eq!(r.pull(), DecodeStep::Decode);
    let e = r.decoded(Decoded::Failed(String::from("bad frame"))).unwrap_err();
    assert_eq!(e, Error::Decode { message: String::from("bad frame") });
    assert_eq!(e.kind(), ErrorKind::Io);
    assert_eq!(r.get_state(), DecompressState::Failed);
    assert_eq!(r.pull(), DecodeStep::Failed);
    assert_eq!(r.decoded(Decoded::Output(vec![1])), Err(Error::UnexpectedEvent));
    assert_eq!(r.get_state(), DecompressState::Failed);
}

#[test]
fn report_that_was_not_asked_for_is_refused() {
    let mut r = DecompressReader::new(CompressAlgorithm::Xz);
    assert_eq!(r.decoded(Decoded::Output(vec![1])), Err(Error::UnexpectedEvent));
    assert_eq!(r.get_state(), DecompressState::Idle);
}
