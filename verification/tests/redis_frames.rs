use bytes::BytesMut;
use rust_study::read_buffer::{ReadBuffer, ReadStep};
use rust_study::redis::{decimal, frame_bytes, write_decimal, RespFrame};
use rust_study::frame_scan::frame_input_acceptable;
use rust_study::redis_server::{new_store, parse_frame, parse_frame_guarded, process_frame, respond, Cmd};
use rust_study::web_demo::keep_message;

#[test]
fn decimal_digits() {
    assert_eq!(decimal(0), b"0".to_vec());
    assert_eq!(decimal(7), b"7".to_vec());
    assert_eq!(decimal(1234567890), b"1234567890".to_vec());
    assert_eq!(decimal(u64::MAX), b"18446744073709551615".to_vec());
    assert_eq!(write_decimal(42), b"42\r\n".to_vec());
}

#[test]
fn frames_on_the_wire() {
    assert_eq!(frame_bytes(&RespFrame::Simple("OK".to_string())), b"+OK\r\n".to_vec());
    assert_eq!(frame_bytes(&RespFrame::Error("unimplemented".to_string())), b"-unimplemented\r\n".to_vec());
    assert_eq!(frame_bytes(&RespFrame::Integer(1000)), b":1000\r\n".to_vec());
    assert_eq!(frame_bytes(&RespFrame::Bulk(b"hello".to_vec())), b"$5\r\nhello\r\n".to_vec());
    assert_eq!(frame_bytes(&RespFrame::Bulk(Vec::new())), b"$0\r\n\r\n".to_vec());
    assert_eq!(frame_bytes(&RespFrame::Null), b"$-1\r\n".to_vec());
    assert_eq!(frame_bytes(&RespFrame::Simple("é".to_string())), "+é\r\n".as_bytes().to_vec());
}

#[test]
fn set_then_get_returns_the_value() {
    let mut db = new_store();
    let r = respond(&mut db, Cmd::SetKey("hello".to_string(), b"world".to_vec()));
    assert!(matches!(r, RespFrame::Simple(ref s) if s == "OK"));
    let r = respond(&mut db, Cmd::GetKey("hello".to_string()));
    assert!(matches!(r, RespFrame::Bulk(ref b) if b == b"world"));
    let r = respond(&mut db, Cmd::GetKey("other".to_string()));
    assert!(matches!(r, RespFrame::Error(ref s) if s == "unimplemented"));
    let r = respond(&mut db, Cmd::Unsupported);
    assert!(matches!(r, RespFrame::Error(ref s) if s == "unimplemented"));
    let _ = respond(&mut db, Cmd::SetKey("hello".to_string(), b"again".to_vec()));
    assert_eq!(db.len(), 1);
    assert_eq!(db.get("hello"), Some(&b"again".to_vec()));
}

#[test]
fn frames_are_cut_from_the_buffer() {
    let mut buf = BytesMut::from(&b"*3\r\n$3\r\nset\r\n$5\r\nhello\r\n$5\r\nworld\r\n*2\r\n$3\r\nget\r\n$5\r\nhello\r\n"[..]);
    let first = parse_frame(&mut buf).unwrap().expect("a complete frame");
    assert_eq!(&buf[..], &b"*2\r\n$3\r\nget\r\n$5\r\nhello\r\n"[..]);
    let mut db = new_store();
    let r = process_frame(&mut db, first).unwrap();
    assert!(matches!(r, RespFrame::Simple(ref s) if s == "OK"));
    let second = parse_frame(&mut buf).unwrap().expect("a complete frame");
    assert!(buf.is_empty());
    let r = process_frame(&mut db, second).unwrap();
    assert_eq!(frame_bytes(&r), b"$5\r\nworld\r\n".to_vec());
}

#[test]
fn incomplete_and_invalid_frames() {
    let mut buf = BytesMut::from(&b"*2\r\n$3\r\nget\r\n$5\r\nhel"[..]);
    assert!(parse_frame(&mut buf).unwrap().is_none());
    assert_eq!(buf.len(), 20);
    let mut bad = BytesMut::from(&b"?what\r\n"[..]);
    assert!(parse_frame(&mut bad).is_err());
    assert_eq!(&bad[..], &b"?what\r\n"[..]);
    let mut empty = BytesMut::new();
    assert!(parse_frame(&mut empty).unwrap().is_none());
}

#[test]
fn guard_refuses_long_numbers() {
    assert!(frame_input_acceptable(b"$123456789012345678901234567890\r\n"));
    assert!(frame_input_acceptable(b"$18446744073709551613\r\n"));
    assert!(!frame_input_acceptable(b"$18446744073709551614\r\n"));
    assert!(!frame_input_acceptable(b"*1\r\n$018446744073709551615\r\n"));
    let mut huge = BytesMut::from(&b"$18446744073709551615\r\n"[..]);
    assert!(parse_frame_guarded(&mut huge).is_err());
    assert_eq!(huge.len(), 23);
}

#[test]
fn guard_bounds_nesting() {
    let mut deep = "*1\r\n".repeat(1024).into_bytes();
    deep.extend_from_slice(b":1\r\n");
    assert!(frame_input_acceptable(&deep));
    let mut deeper = "*1\r\n".repeat(1025).into_bytes();
    deeper.extend_from_slice(b":1\r\n");
    assert!(!frame_input_acceptable(&deeper));
    let stars = vec![b'*'; 2000];
    assert!(frame_input_acceptable(&stars));
}

#[test]
fn guard_lets_large_numbers_in_values_through() {
    let mut buf = BytesMut::from(&b"*3\r\n$3\r\nSET\r\n$1\r\nk\r\n$20\r\n18446744073709551615\r\n"[..]);
    let frame = parse_frame_guarded(&mut buf).unwrap().expect("a complete frame");
    assert!(buf.is_empty());
    let mut db = new_store();
    let r = process_frame(&mut db, frame).unwrap();
    assert!(matches!(r, RespFrame::Simple(ref s) if s == "OK"));
    assert_eq!(db.get("k"), Some(&b"18446744073709551615".to_vec()));

    let mut value = b"*3\r\n$3\r\nset\r\n$1\r\nv\r\n$2000\r\n".to_vec();
    value.extend_from_slice(&vec![b'*'; 2000]);
    value.extend_from_slice(b"\r\n*2\r\n$3\r\nGET\r\n$1\r\nv\r\n");
    let mut value = BytesMut::from(&value[..]);
    let first = parse_frame_guarded(&mut value).unwrap().expect("a complete frame");
    let _ = process_frame(&mut db, first).unwrap();
    let second = parse_frame_guarded(&mut value).unwrap().expect("a complete frame");
    assert!(value.is_empty());
    let r = process_frame(&mut db, second).unwrap();
    assert!(matches!(r, RespFrame::Bulk(ref b) if b.len() == 2000));
}

#[test]
fn parsed_frames_keep_their_parts() {
    let mut buf = BytesMut::from(&b"*2\r\n$3\r\nget\r\n:42\r\n+hi\r\n"[..]);
    let frame = parse_frame(&mut buf).unwrap().expect("a complete frame");
    match frame {
        RespFrame::Array(items) => {
            assert_eq!(items.len(), 2);
            assert!(matches!(items[0], RespFrame::Bulk(ref b) if b == b"get"));
            assert!(matches!(items[1], RespFrame::Integer(42)));
        }
        _ => panic!("an array frame"),
    }
    assert_eq!(&buf[..], &b"+hi\r\n"[..]);
    let mut db = new_store();
    let not_a_command = parse_frame(&mut buf).unwrap().expect("a complete frame");
    assert!(process_frame(&mut db, not_a_command).is_err());
    assert_eq!(db.len(), 0);
}

#[test]
fn read_buffer_steps() {
    let mut rb = ReadBuffer::new();
    assert_eq!(rb.spare(), 4096);
    assert_eq!(rb.take_read(&[]), ReadStep::Closed);
    assert_eq!(rb.take_read(b"abc"), ReadStep::Continue);
    assert_eq!(rb.spare(), 4093);
    assert_eq!(rb.take_read(&[]), ReadStep::Reset);
    let big = vec![1u8; 4093];
    assert_eq!(rb.take_read(&big), ReadStep::Continue);
    assert_eq!(rb.spare(), 0);
    rb.grow_if_full();
    assert_eq!(rb.spare(), 4096);
    rb.grow_if_full();
    assert_eq!(rb.spare(), 4096);
}

#[test]
fn subscriber_keeps_one_byte_messages() {
    assert!(keep_message(b"1"));
    assert!(!keep_message(b"two"));
    assert!(!keep_message(b""));
}

fn nested_command_frame(levels: usize) -> Vec<u8> {
    let mut b = "*1\r\n".repeat(levels).into_bytes();
    b.extend_from_slice(b":1\r\n");
    b
}

fn read_and_answer(levels: usize) -> bool {
    let mut buf = BytesMut::from(&nested_command_frame(levels)[..]);
    match parse_frame_guarded(&mut buf) {
        Ok(Some(frame)) => {
            let shown = format!("{:?}", frame);
            assert!(shown.len() > levels);
            let mut db = new_store();
            assert!(process_frame(&mut db, frame).is_err());
            true
        }
        _ => false,
    }
}

#[test]
fn deepest_frame_fits_a_worker_stack() {
    let rt = tokio::runtime::Builder::new_multi_thread()
        .worker_threads(1)
        .thread_stack_size(2 * 1024 * 1024)
        .build()
        .unwrap();
    let read = rt.block_on(async { tokio::spawn(async { read_and_answer(1024) }).await.unwrap() });
    assert!(read);
    let refused = rt.block_on(async { tokio::spawn(async { read_and_answer(1025) }).await.unwrap() });
    assert!(!refused);
}
