use chrono::{TimeZone, Utc};
use lbs::error::LBSError;
use lbs::stream::Reader;
use lbs::timestamp::{timestamp_from, Timestamp};
use lbs::{LBSRead, LBSWrite};

fn bytes_of(timestamp: Timestamp) -> Result<Vec<u8>, LBSError> {
    let mut buf = Vec::new();
    timestamp.lbs_write(&mut buf)?;
    Ok(buf)
}

#[test]
fn a_timestamp_is_seconds_then_nanoseconds() {
    let timestamp = Timestamp { secs: 1431648000, nanos: 7 };
    let bytes = bytes_of(timestamp).unwrap();
    let mut expected = 1431648000i64.to_le_bytes().to_vec();
    expected.extend_from_slice(&[7, 0, 0, 0]);
    assert_eq!(bytes, expected);
    assert_eq!(Timestamp::lbs_read(&mut Reader::new(&bytes)).unwrap(), timestamp);
    assert!(timestamp.lbs_must_write());
}

#[test]
fn a_timestamp_before_the_epoch() {
    let timestamp = Timestamp { secs: -1, nanos: 999_999_999 };
    let bytes = bytes_of(timestamp).unwrap();
    assert_eq!(&bytes[..8], &[0xFF; 8]);
    assert_eq!(Timestamp::lbs_read(&mut Reader::new(&bytes)).unwrap(), timestamp);
}

#[test]
fn the_calendar_decides_what_a_timestamp_is() {
    for (secs, nanos) in [
        (0i64, 0u32),
        (0, 999_999_999),
        (0, 1_000_000_000),
        (59, 1_999_999_999),
        (59, 2_000_000_000),
        (-62_167_219_200, 0),
        (i64::MAX, 0),
        (i64::MIN, 0),
        (8_210_266_876_799, 0),
        (8_210_266_876_800, 0),
    ] {
        let timestamp = Timestamp { secs, nanos };
        let known = Utc.timestamp_opt(secs, nanos).single().is_some();
        assert_eq!(timestamp.is_valid(), known, "{:?}", timestamp);
        let mut bytes = secs.to_le_bytes().to_vec();
        bytes.extend_from_slice(&nanos.to_le_bytes());
        let mut reader = Reader::new(&bytes);
        let read = Timestamp::lbs_read(&mut reader);
        assert!(reader.is_empty());
        let mut buf = vec![9];
        let written = timestamp.lbs_write(&mut buf);
        if known {
            assert_eq!(read.unwrap(), timestamp);
            written.unwrap();
            assert_eq!(&buf[1..], &bytes[..]);
        } else {
            assert!(matches!(read, Err(LBSError::InvalidTimestamp)));
            assert!(matches!(written, Err(LBSError::InvalidTimestamp)));
            assert_eq!(buf, vec![9]);
        }
    }
    assert!(Timestamp { secs: 0, nanos: 0 }.is_valid());
    assert!(!Timestamp { secs: 0, nanos: 2_000_000_000 }.is_valid());
    assert!(!Timestamp { secs: i64::MAX, nanos: 0 }.is_valid());
}

#[test]
fn a_timestamp_is_what_the_calendar_accepted() {
    assert_eq!(timestamp_from(5, 6, true).unwrap(), Timestamp { secs: 5, nanos: 6 });
    assert!(matches!(timestamp_from(5, 6, false), Err(LBSError::InvalidTimestamp)));
}

#[test]
fn a_truncated_timestamp_is_an_unexpected_end() {
    let bytes = bytes_of(Timestamp { secs: 1, nanos: 1 }).unwrap();
    assert!(Timestamp::lbs_read(&mut Reader::new(&bytes[..11])).unwrap_err().is_eof());
    assert!(Timestamp::lbs_read(&mut Reader::new(&bytes[..7])).unwrap_err().is_eof());
}
