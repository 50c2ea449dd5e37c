use bytes::Bytes;
use upload_engine::chunk::Chunk;
use upload_engine::error::{Error, ErrorKind};
use upload_engine::session::{
    Item, OneDriveUploadSessionCreationRequestBody, OneDriveUploadSessionCreationResponseBody,
};
use upload_engine::writer::{
    Action, Event, OneDriveWriter, OpWrite, CHUNK_SIZE_FACTOR, MAX_SIMPLE_SIZE,
};

fn pattern(len: usize) -> Bytes {
    let mut v: Vec<u8> = Vec::with_capacity(len);
    let mut i: usize = 0;
    while i < len {
        v.push((i % 253) as u8);
        i += 1;
    }
    Bytes::from(v)
}

fn session() -> OneDriveUploadSessionCreationResponseBody {
    OneDriveUploadSessionCreationResponseBody {
        upload_url: String::from("https://upload.example/session/1"),
        expiration_date_time: String::from("2030-01-01T00:00:00Z"),
    }
}

fn ok(status: u16) -> Event {
    Event::Response { status, body: Vec::new() }
}

/// Drives a write to its end, answering with `status_for(request number)`,
/// and returns every request action together with the final result.
fn drive(
    w: &mut OneDriveWriter,
    data: Bytes,
    status_for: &dyn Fn(usize) -> u16,
) -> (Vec<Action>, Result<(), Error>) {
    let mut requests: Vec<Action> = Vec::new();
    let mut action = w.write(data);
    loop {
        let event = match &action {
            Action::Finish(r) => return (requests, r.clone()),
            Action::DecodeSession { .. } => Event::SessionDecoded(session()),
            _ => Event::Response { status: status_for(requests.len()), body: b"answer".to_vec() },
        };
        match action {
            Action::DecodeSession { .. } => {}
            other => requests.push(other),
        }
        action = w.advance(event);
    }
}

#[test]
fn new_writer_has_default_limits() {
    let w = OneDriveWriter::new(OpWrite::new(), String::from("/dir/file.bin"));
    assert_eq!(w.max_simple_size(), 4 * 1024 * 1024);
    assert_eq!(w.chunk_size_factor(), 327_680);
    assert_eq!(MAX_SIMPLE_SIZE, 4 * 1024 * 1024);
    assert_eq!(CHUNK_SIZE_FACTOR, 327_680);
    assert_eq!(w.path(), "/dir/file.bin");
    assert!(w.is_idle());
}

#[test]
fn zero_chunk_size_is_refused() {
    let r = OneDriveWriter::with_limits(OpWrite::new(), String::from("/a"), 10, 0);
    match r {
        Err(e) => {
            assert_eq!(e, Error::InvalidChunkSize);
            assert_eq!(e.kind(), ErrorKind::Configuration);
        }
        Ok(_) => panic!("a zero chunk size must be refused"),
    }
}

#[test]
fn small_payload_goes_out_in_one_put() {
    let op = OpWrite::new().with_content_type("text/plain");
    let mut w = OneDriveWriter::new(op, String::from("/notes/a.txt"));
    let data = Bytes::from_static(b"hello world");
    let action = w.write(data.clone());
    assert_eq!(
        action,
        Action::Put {
            path: String::from("/notes/a.txt"),
            size: 11,
            content_type: Some(String::from("text/plain")),
            body: data,
        }
    );
    assert!(!w.is_idle());
    assert_eq!(w.advance(ok(201)), Action::Finish(Ok(())));
    assert!(w.is_idle());
}

#[test]
fn put_accepts_created_and_ok_only() {
    for (status, good) in [(200u16, true), (201, true), (202, false), (204, false), (500, false)] {
        let mut w = OneDriveWriter::new(OpWrite::new(), String::from("/a"));
        let _ = w.write(Bytes::from_static(b"x"));
        let got = w.advance(Event::Response { status, body: b"why".to_vec() });
        if good {
            assert_eq!(got, Action::Finish(Ok(())));
        } else {
            assert_eq!(
                got,
                Action::Finish(Err(Error::Backend { status, body: b"why".to_vec() }))
            );
        }
        assert!(w.is_idle());
    }
}

#[test]
fn threshold_is_inclusive() {
    let mut w = OneDriveWriter::new(OpWrite::new(), String::from("/big.bin"));
    let at = pattern(4 * 1024 * 1024);
    match w.write(at) {
        Action::Put { size, .. } => assert_eq!(size, 4 * 1024 * 1024),
        other => panic!("expected a single upload, got {:?}", other),
    }

    let mut w = OneDriveWriter::new(OpWrite::new(), String::from("/big.bin"));
    let over = pattern(4 * 1024 * 1024 + 1);
    match w.write(over) {
        Action::CreateSession { .. } => {}
        other => panic!("expected a session request, got {:?}", other),
    }
}

#[test]
fn session_request_names_the_file() {
    let mut w = OneDriveWriter::with_limits(OpWrite::new(), String::from("/my docs/ré.bin"), 4, 3)
        .unwrap();
    let action = w.write(Bytes::from_static(b"0123456789"));
    assert_eq!(
        action,
        Action::CreateSession {
            url: String::from(
                "https://graph.microsoft.com/v1.0/me/drive/root:/my%20docs/r%C3%A9.bin:/createUploadSession"
            ),
            body: OneDriveUploadSessionCreationRequestBody {
                item: Item {
                    odata_type: String::from("microsoft.graph.driveItemUploadableProperties"),
                    microsoft_graph_conflict_behavior: String::from("replace"),
                    name: String::from("ré.bin"),
                },
            },
        }
    );
}

#[test]
fn request_body_new_sets_the_fixed_fields() {
    let body = OneDriveUploadSessionCreationRequestBody::new(String::from("report.pdf"));
    assert_eq!(body.item.odata_type, "microsoft.graph.driveItemUploadableProperties");
    assert_eq!(body.item.microsoft_graph_conflict_behavior, "replace");
    assert_eq!(body.item.name, "report.pdf");
}

#[test]
fn chunked_write_sends_every_chunk_in_order() {
    let mut w =
        OneDriveWriter::with_limits(OpWrite::new(), String::from("/d/f"), 4, 4).unwrap();
    let data = Bytes::from_static(b"0123456789");
    let (requests, result) =
        drive(&mut w, data.clone(), &|n| if n == 0 { 200 } else { 202 });
    assert_eq!(result, Ok(()));
    assert_eq!(requests.len(), 4);
    assert!(matches!(requests[0], Action::CreateSession { .. }));
    let url = String::from("https://upload.example/session/1");
    assert_eq!(
        requests[1],
        Action::UploadChunk {
            url: url.clone(),
            chunk: Chunk { start: 0, end: 3, total: 10, payload: Bytes::from_static(b"0123") },
        }
    );
    assert_eq!(
        requests[2],
        Action::UploadChunk {
            url: url.clone(),
            chunk: Chunk { start: 4, end: 7, total: 10, payload: Bytes::from_static(b"4567") },
        }
    );
    assert_eq!(
        requests[3],
        Action::UploadChunk {
            url,
            chunk: Chunk { start: 8, end: 9, total: 10, payload: Bytes::from_static(b"89") },
        }
    );
    assert!(w.is_idle());
}

#[test]
fn chunk_payloads_join_to_the_payload() {
    let mut w =
        OneDriveWriter::with_limits(OpWrite::new(), String::from("/d/f"), 100, 64).unwrap();
    let data = pattern(1000);
    let (requests, result) = drive(&mut w, data.clone(), &|_| 200);
    assert_eq!(result, Ok(()));
    let mut joined: Vec<u8> = Vec::new();
    let mut chunks = 0;
    for r in requests.iter() {
        if let Action::UploadChunk { chunk, .. } = r {
            assert_eq!(chunk.start, chunks * 64);
            joined.extend_from_slice(&chunk.payload);
            chunks += 1;
        }
    }
    assert_eq!(chunks, 16);
    assert_eq!(&joined[..], &data[..]);
}

#[test]
fn default_limits_cut_five_mib_into_sixteen_chunks() {
    let mut w = OneDriveWriter::new(OpWrite::new(), String::from("/five.bin"));
    let data = pattern(5 * 1024 * 1024);
    let (requests, result) = drive(&mut w, data, &|n| if n == 0 { 200 } else { 202 });
    assert_eq!(result, Ok(()));
    // one session request, then ceil(5 MiB / 320 KiB) = 16 chunks
    assert_eq!(requests.len(), 17);
    match &requests[16] {
        Action::UploadChunk { chunk, .. } => {
            assert_eq!(chunk.start, 15 * 327_680);
            assert_eq!(chunk.end, 5 * 1024 * 1024 - 1);
            assert_eq!(chunk.total, 5 * 1024 * 1024);
        }
        other => panic!("expected a chunk, got {:?}", other),
    }
}

#[test]
fn refused_session_sends_no_chunk() {
    let mut w =
        OneDriveWriter::with_limits(OpWrite::new(), String::from("/d/f"), 4, 4).unwrap();
    let (requests, result) = drive(&mut w, Bytes::from_static(b"0123456789"), &|_| 201);
    assert_eq!(requests.len(), 1);
    assert_eq!(result, Err(Error::Backend { status: 201, body: b"answer".to_vec() }));
    assert!(w.is_idle());
}

#[test]
fn refused_chunk_stops_the_write() {
    let mut w =
        OneDriveWriter::with_limits(OpWrite::new(), String::from("/d/f"), 4, 4).unwrap();
    // request 0 is the session, request 1 the first chunk, request 2 the second
    let (requests, result) =
        drive(&mut w, Bytes::from_static(b"0123456789"), &|n| if n == 2 { 416 } else { 200 });
    assert_eq!(requests.len(), 3);
    match result {
        Err(e) => {
            assert_eq!(e.kind(), ErrorKind::Backend);
            assert_eq!(e, Error::Backend { status: 416, body: b"answer".to_vec() });
        }
        Ok(()) => panic!("the write must fail"),
    }
    assert!(w.is_idle());
    assert_eq!(w.advance(ok(200)), Action::Finish(Err(Error::UnexpectedEvent)));
}

#[test]
fn path_without_file_name_fails_before_any_request() {
    for path in ["", "/", "/dir/"] {
        let mut w =
            OneDriveWriter::with_limits(OpWrite::new(), String::from(path), 4, 4).unwrap();
        let action = w.write(Bytes::from_static(b"0123456789"));
        assert_eq!(action, Action::Finish(Err(Error::MalformedPath)));
        assert_eq!(Error::MalformedPath.kind(), ErrorKind::Configuration);
        assert!(w.is_idle());
    }
}

#[test]
fn transport_failure_is_handed_on() {
    let mut w =
        OneDriveWriter::with_limits(OpWrite::new(), String::from("/d/f"), 4, 4).unwrap();
    let _ = w.write(Bytes::from_static(b"0123456789"));
    let failure = Error::Io { message: String::from("connection reset") };
    assert_eq!(failure.kind(), ErrorKind::Io);
    assert_eq!(w.advance(Event::Failed(failure.clone())), Action::Finish(Err(failure)));
    assert!(w.is_idle());
}

#[test]
fn event_out_of_turn_is_a_protocol_error() {
    let mut w =
        OneDriveWriter::with_limits(OpWrite::new(), String::from("/d/f"), 4, 4).unwrap();
    assert_eq!(w.advance(ok(200)), Action::Finish(Err(Error::UnexpectedEvent)));
    assert_eq!(Error::UnexpectedEvent.kind(), ErrorKind::Protocol);

    let _ = w.write(Bytes::from_static(b"0123456789"));
    assert_eq!(
        w.advance(Event::SessionDecoded(session())),
        Action::Finish(Err(Error::UnexpectedEvent))
    );
    assert!(w.is_idle());
}

#[test]
fn second_write_while_busy_is_refused() {
    let mut w =
        OneDriveWriter::with_limits(OpWrite::new(), String::from("/d/f"), 4, 4).unwrap();
    let _ = w.write(Bytes::from_static(b"0123456789"));
    assert_eq!(
        w.write(Bytes::from_static(b"x")),
        Action::Finish(Err(Error::UnexpectedEvent))
    );
    // the first write goes on
    assert_eq!(w.advance(ok(200)), Action::DecodeSession { body: Vec::new() });
}

#[test]
fn abort_and_close_change_nothing() {
    let mut w =
        OneDriveWriter::with_limits(OpWrite::new(), String::from("/d/f"), 4, 4).unwrap();
    assert_eq!(w.abort(), Ok(()));
    assert_eq!(w.close(), Ok(()));
    let _ = w.write(Bytes::from_static(b"0123456789"));
    assert_eq!(w.abort(), Ok(()));
    assert_eq!(w.close(), Ok(()));
    assert_eq!(w.advance(ok(200)), Action::DecodeSession { body: Vec::new() });
}

#[test]
fn writer_can_be_used_again() {
    let mut w =
        OneDriveWriter::with_limits(OpWrite::new(), String::from("/d/f"), 4, 4).unwrap();
    let (_, first) = drive(&mut w, Bytes::from_static(b"0123456789"), &|_| 500);
    assert!(first.is_err());
    let (requests, second) = drive(&mut w, Bytes::from_static(b"abcdef"), &|_| 200);
    assert_eq!(second, Ok(()));
    assert_eq!(requests.len(), 3);
}

#[test]
fn empty_payload_goes_out_in_one_put() {
    let mut w = OneDriveWriter::new(OpWrite::new().with_size(0), String::from("/empty"));
    let action = w.write(Bytes::new());
    assert_eq!(
        action,
        Action::Put {
            path: String::from("/empty"),
            size: 0,
            content_type: None,
            body: Bytes::new(),
        }
    );
    assert_eq!(w.advance(ok(200)), Action::Finish(Ok(())));
}

#[test]
fn threshold_of_zero_sends_every_byte_through_a_session() {
    let mut w = OneDriveWriter::with_limits(OpWrite::new(), String::from("/one"), 0, 8).unwrap();
    let (requests, result) = drive(&mut w, Bytes::from_static(b"x"), &|_| 200);
    assert_eq!(result, Ok(()));
    assert_eq!(requests.len(), 2);
    assert_eq!(
        requests[1],
        Action::UploadChunk {
            url: String::from("https://upload.example/session/1"),
            chunk: Chunk { start: 0, end: 0, total: 1, payload: Bytes::from_static(b"x") },
        }
    );
}

#[test]
fn path_without_file_name_fails_on_the_single_shot_path_too() {
    for path in ["", "/", "/dir/"] {
        for data in [Bytes::new(), Bytes::from_static(b"abc")] {
            let mut w = OneDriveWriter::new(OpWrite::new(), String::from(path));
            let action = w.write(data);
            match action {
                Action::Finish(Err(e)) => {
                    assert_eq!(e, Error::MalformedPath);
                    assert_eq!(e.kind(), ErrorKind::Configuration);
                }
                other => panic!("expected a failure before any request, got {:?}", other),
            }
            assert!(w.is_idle());
            assert_eq!(w.advance(ok(200)), Action::Finish(Err(Error::UnexpectedEvent)));
        }
    }
}

#[test]
fn malformed_path_sends_no_request_whatever_the_size() {
    for len in [0usize, 1, 4, 5, 100] {
        let mut w =
            OneDriveWriter::with_limits(OpWrite::new(), String::from(""), 4, 4).unwrap();
        let (requests, result) = drive(&mut w, pattern(len), &|_| 200);
        assert_eq!(requests.len(), 0);
        assert_eq!(result, Err(Error::MalformedPath));
    }
}

#[test]
fn failed_write_sends_one_session_request_at_most() {
    // whichever request is refused, there is one session request and no put
    for refused in 0usize..4 {
        let mut w =
            OneDriveWriter::with_limits(OpWrite::new(), String::from("/d/f"), 4, 4).unwrap();
        let (requests, result) = drive(
            &mut w,
            Bytes::from_static(b"0123456789"),
            &|n| if n == refused { 503 } else { 200 },
        );
        assert_eq!(result, Err(Error::Backend { status: 503, body: b"answer".to_vec() }));
        assert_eq!(requests.len(), refused + 1);
        let sessions =
            requests.iter().filter(|r| matches!(r, Action::CreateSession { .. })).count();
        let puts = requests.iter().filter(|r| matches!(r, Action::Put { .. })).count();
        let chunks =
            requests.iter().filter(|r| matches!(r, Action::UploadChunk { .. })).count();
        assert_eq!(sessions, 1);
        assert_eq!(puts, 0);
        assert_eq!(chunks, refused);
        assert!(chunks <= 3);
    }
}

#[test]
fn op_write_keeps_what_was_declared() {
    let op = OpWrite::new().with_content_type("image/png").with_size(7);
    assert_eq!(op.content_type(), Some("image/png"));
    assert_eq!(op.size, Some(7));
    assert_eq!(OpWrite::new().content_type(), None);
}

#[test]
fn million_bytes_go_out_as_four_chunks() {
    let mut w =
        OneDriveWriter::with_limits(OpWrite::new(), String::from("/m.bin"), 1000, 327_680)
            .unwrap();
    let (requests, result) = drive(&mut w, pattern(1_000_000), &|_| 200);
    assert_eq!(result, Ok(()));
    let ranges: Vec<(usize, usize, usize)> = requests
        .iter()
        .filter_map(|r| match r {
            Action::UploadChunk { chunk, .. } => {
                Some((chunk.start, chunk.end, chunk.payload.len()))
            }
            _ => None,
        })
        .collect();
    assert_eq!(
        ranges,
        vec![
            (0, 327679, 327680),
            (327680, 655359, 327680),
            (655360, 983039, 327680),
            (983040, 999999, 16960)
        ]
    );
}
