use sowback::frame_reader::FrameReader;
use sowback::protocol::{Frame, Message};

fn heartbeat_frame(ts: u64) -> Vec<u8> {
    Frame::new(Message::Heartbeat { timestamp: ts }).serialize().unwrap()
}

#[test]
fn whole_frame_in_one_feed() {
    let mut reader = FrameReader::new();
    reader.feed_data(&heartbeat_frame(42));
    let frame = reader.try_read_frame().unwrap().expect("one frame");
    match frame.message {
        Message::Heartbeat { timestamp } => assert_eq!(timestamp, 42),
        other => panic!("wrong variant: {:?}", other),
    }
    assert!(reader.try_read_frame().unwrap().is_none());
}

#[test]
fn one_byte_at_a_time_yields_one_frame_after_the_last() {
    let bytes = heartbeat_frame(7);
    let mut reader = FrameReader::new();
    for (i, b) in bytes.iter().enumerate() {
        reader.feed_data(&[*b]);
        let got = reader.try_read_frame().unwrap();
        if i + 1 < bytes.len() {
            assert!(got.is_none(), "no frame before byte {}", i);
        } else {
            let frame = got.expect("frame after final byte");
            match frame.message {
                Message::Heartbeat { timestamp } => assert_eq!(timestamp, 7),
                other => panic!("wrong variant: {:?}", other),
            }
        }
    }
}

#[test]
fn chunking_does_not_change_the_frames() {
    // two frames and a leftover half-header
    let mut stream = heartbeat_frame(1);
    stream.extend_from_slice(&heartbeat_frame(2));
    stream.extend_from_slice(&[0, 0]);

    let collect = |chunks: &[&[u8]]| -> Vec<u64> {
        let mut reader = FrameReader::new();
        let mut out = Vec::new();
        for chunk in chunks {
            reader.feed_data(chunk);
            while let Some(frame) = reader.try_read_frame().unwrap() {
                match frame.message {
                    Message::Heartbeat { timestamp } => out.push(timestamp),
                    other => panic!("wrong variant: {:?}", other),
                }
            }
        }
        out
    };

    let all_at_once = collect(&[&stream]);
    let (a, b) = stream.split_at(5);
    let in_two = collect(&[a, b]);
    let mut singles: Vec<&[u8]> = Vec::new();
    for i in 0..stream.len() {
        singles.push(&stream[i..i + 1]);
    }
    let byte_wise = collect(&singles);

    assert_eq!(all_at_once, vec![1, 2]);
    assert_eq!(in_two, vec![1, 2]);
    assert_eq!(byte_wise, vec![1, 2]);
}

#[test]
fn bad_payload_is_an_error_and_buffer_is_kept() {
    let mut reader = FrameReader::new();
    // length 1, then an unknown discriminant
    reader.feed_data(&[0, 0, 0, 1, 99]);
    assert!(reader.try_read_frame().is_err());
    // still there: the same error comes again
    assert!(reader.try_read_frame().is_err());
    reader.clear();
    assert!(reader.try_read_frame().unwrap().is_none());
}

#[test]
fn incomplete_header_or_payload_waits() {
    let mut reader = FrameReader::new();
    reader.feed_data(&[0, 0]);
    assert!(reader.try_read_frame().unwrap().is_none());
    reader.feed_data(&[0, 9]);
    assert!(reader.try_read_frame().unwrap().is_none());
}
