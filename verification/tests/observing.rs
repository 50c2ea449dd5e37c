use upload_engine::error::Error;
use upload_engine::observe::{observe_read, observe_write, TransferEvent};

#[test]
fn pulled_segment_is_reported_with_its_length() {
    let outcome: Result<Option<Vec<u8>>, Error> = Ok(Some(vec![1, 2, 3]));
    assert_eq!(observe_read(&outcome), Some(TransferEvent { bytes: 3 }));
    // the outcome itself is untouched
    assert_eq!(outcome, Ok(Some(vec![1, 2, 3])));
}

#[test]
fn empty_segment_is_reported_as_zero_bytes() {
    let outcome: Result<Option<Vec<u8>>, Error> = Ok(Some(Vec::new()));
    assert_eq!(observe_read(&outcome), Some(TransferEvent { bytes: 0 }));
}

#[test]
fn end_of_data_and_failure_are_not_reported() {
    let end: Result<Option<Vec<u8>>, Error> = Ok(None);
    assert_eq!(observe_read(&end), None);
    let failed: Result<Option<Vec<u8>>, Error> =
        Err(Error::Io { message: String::from("broken pipe") });
    assert_eq!(observe_read(&failed), None);
}

#[test]
fn accepted_push_is_reported_with_its_length() {
    assert_eq!(observe_write(42, &Ok(())), Some(TransferEvent { bytes: 42 }));
    assert_eq!(observe_write(0, &Ok(())), Some(TransferEvent { bytes: 0 }));
}

#[test]
fn failed_push_is_not_reported() {
    let failed: Result<(), Error> = Err(Error::Io { message: String::from("disk full") });
    assert_eq!(observe_write(42, &failed), None);
}

#[test]
fn reported_bytes_add_up_to_the_bytes_pulled() {
    let outcomes: Vec<Result<Option<Vec<u8>>, Error>> = vec![
        Ok(Some(vec![0; 10])),
        Err(Error::Io { message: String::from("again") }),
        Ok(Some(vec![0; 5])),
        Ok(Some(Vec::new())),
        Ok(None),
    ];
    let mut reported: usize = 0;
    let mut events: usize = 0;
    let mut pulled: usize = 0;
    for o in outcomes.iter() {
        if let Some(e) = observe_read(o) {
            reported += e.bytes;
            events += 1;
        }
        if let Ok(Some(segment)) = o {
            pulled += segment.len();
        }
    }
    assert_eq!(reported, 15);
    assert_eq!(reported, pulled);
    assert_eq!(events, 3);
}

#[test]
fn reported_bytes_add_up_to_the_bytes_pushed() {
    let pushes: Vec<(usize, Result<(), Error>)> = vec![
        (7, Ok(())),
        (9, Err(Error::Io { message: String::from("refused") })),
        (1, Ok(())),
    ];
    let mut reported: usize = 0;
    for (len, outcome) in pushes.iter() {
        if let Some(e) = observe_write(*len, outcome) {
            reported += e.bytes;
        }
    }
    assert_eq!(reported, 8);
}
