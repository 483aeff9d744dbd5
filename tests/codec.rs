use wl_mitm::args::{encode_payload, parse_payload, WlArg, WlArgType};
use wl_mitm::codec::{DecoderOutcome, WlDecoder, WlRawMsg};
use wl_mitm::duplex::WlWriteQueue;
use wl_mitm::proto::build_message;
use wl_mitm::wire::Endian;

fn frame_bytes(obj: u32, opcode: u16, payload: &[u8]) -> Vec<u8> {
    let mut v = Vec::new();
    v.extend_from_slice(&obj.to_le_bytes());
    let word = (((payload.len() + 8) as u32) << 16) | opcode as u32;
    v.extend_from_slice(&word.to_le_bytes());
    v.extend_from_slice(payload);
    v
}

fn decoded(o: DecoderOutcome<i32>) -> WlRawMsg<i32> {
    match o {
        DecoderOutcome::Decoded(m) => m,
        _ => panic!("expected a frame"),
    }
}

fn typed(ts: &[WlArgType]) -> Vec<(String, WlArgType)> {
    ts.iter()
        .enumerate()
        .map(|(i, t)| {
            let t = match t {
                WlArgType::Int => WlArgType::Int,
                WlArgType::Uint => WlArgType::Uint,
                WlArgType::Fixed => WlArgType::Fixed,
                WlArgType::Object => WlArgType::Object,
                WlArgType::NewId(x) => WlArgType::NewId(x.clone()),
                WlArgType::String => WlArgType::String,
                WlArgType::Array => WlArgType::Array,
                WlArgType::Fd => WlArgType::Fd,
                WlArgType::Enum => WlArgType::Enum,
            };
            (format!("a{}", i), t)
        })
        .collect()
}

#[test]
fn string_hello_takes_twelve_bytes() {
    let mut out = Vec::new();
    encode_payload(Endian::Little, &vec![WlArg::Str("hello".to_string())], &mut out);
    assert_eq!(out, vec![6, 0, 0, 0, b'h', b'e', b'l', b'l', b'o', 0, 0, 0]);
    let args = parse_payload(Endian::Little, &typed(&[WlArgType::String]), &out, 0).unwrap();
    assert_eq!(args.len(), 1);
    assert!(matches!(&args[0], WlArg::Str(s) if s == "hello"));
}

#[test]
fn big_endian_words() {
    let mut out = Vec::new();
    encode_payload(Endian::Big, &vec![WlArg::Uint(0x01020304), WlArg::Int(-2)], &mut out);
    assert_eq!(out, vec![1, 2, 3, 4, 0xff, 0xff, 0xff, 0xfe]);
}

#[test]
fn arguments_round_trip() {
    let ts = typed(&[
        WlArgType::Int,
        WlArgType::Uint,
        WlArgType::Fixed,
        WlArgType::Object,
        WlArgType::NewId(None),
        WlArgType::String,
        WlArgType::String,
        WlArgType::String,
        WlArgType::String,
        WlArgType::Array,
        WlArgType::Array,
        WlArgType::Fd,
        WlArgType::Enum,
        WlArgType::Fd,
    ]);
    let texts = ["", "a", "ab", "abc"];
    let mut args = vec![
        WlArg::Int(-7),
        WlArg::Uint(7),
        WlArg::Fixed(256 * 3 + 128),
        WlArg::Object(9),
        WlArg::NewId(10),
    ];
    for t in texts.iter() {
        args.push(WlArg::Str(t.to_string()));
    }
    args.push(WlArg::Array(vec![]));
    args.push(WlArg::Array(vec![1, 2, 3, 4, 5]));
    args.push(WlArg::Fd(0));
    args.push(WlArg::Enum(2));
    args.push(WlArg::Fd(1));
    let mut out = Vec::new();
    encode_payload(Endian::Little, &args, &mut out);
    assert_eq!(out.len() % 4, 0);
    let back = parse_payload(Endian::Little, &ts, &out, 2).unwrap();
    assert_eq!(format!("{:?}", back), format!("{:?}", args));
}

#[test]
fn missing_descriptor_is_malformed() {
    let ts = typed(&[WlArgType::Fd]);
    assert!(parse_payload(Endian::Little, &ts, &[], 0).is_none());
    assert!(parse_payload(Endian::Little, &ts, &[], 1).is_some());
}

#[test]
fn invalid_utf8_is_malformed() {
    let payload = vec![3, 0, 0, 0, 0xff, 0xfe, 0, 0];
    assert!(parse_payload(Endian::Little, &typed(&[WlArgType::String]), &payload, 0).is_none());
}

#[test]
fn overlong_string_is_malformed() {
    let payload = vec![9, 0, 0, 0, b'a', b'b', 0, 0];
    assert!(parse_payload(Endian::Little, &typed(&[WlArgType::String]), &payload, 0).is_none());
}

#[test]
fn empty_array_keeps_alignment() {
    let payload = vec![0, 0, 0, 0, 5, 0, 0, 0];
    let ts = typed(&[WlArgType::Array, WlArgType::Uint]);
    let args = parse_payload(Endian::Little, &ts, &payload, 0).unwrap();
    assert!(matches!(&args[0], WlArg::Array(v) if v.is_empty()));
    assert!(matches!(args[1], WlArg::Uint(5)));
}

#[test]
fn build_writes_header() {
    let m: WlRawMsg<i32> = WlRawMsg::build(Endian::Little, 3, 2, &[1, 0, 0, 0], vec![]);
    assert_eq!(m.len, 12);
    assert_eq!(&m.msg_buf[..], &frame_bytes(3, 2, &[1, 0, 0, 0])[..]);
    assert_eq!(m.payload(), &[1, 0, 0, 0]);
}

#[test]
fn build_message_frames_arguments() {
    let m: WlRawMsg<i32> =
        build_message(Endian::Little, 2, 1, &vec![WlArg::Uint(5)], vec![]).unwrap();
    assert_eq!(&m.msg_buf[..], &frame_bytes(2, 1, &[5, 0, 0, 0])[..]);
}

#[test]
fn decoder_splits_frames_in_order() {
    let mut d: WlDecoder<i32> = WlDecoder::new(Endian::Little);
    let mut stream = frame_bytes(1, 1, &[2, 0, 0, 0]);
    stream.extend(frame_bytes(2, 0, &[]));
    let m = decoded(d.decode_after_read(&stream, vec![]));
    assert_eq!((m.obj_id, m.opcode, m.len), (1, 1, 12));
    let m = decoded(d.decode_buf().unwrap());
    assert_eq!((m.obj_id, m.opcode, m.len), (2, 0, 8));
    assert!(d.decode_buf().is_none());
}

#[test]
fn decoder_any_chunking() {
    let mut stream = frame_bytes(1, 1, &[2, 0, 0, 0]);
    stream.extend(frame_bytes(7, 3, &[1, 2, 3, 4, 5, 6, 7, 8]));
    stream.extend(frame_bytes(2, 0, &[]));
    for size in 1..stream.len() + 1 {
        let mut d: WlDecoder<i32> = WlDecoder::new(Endian::Little);
        let mut seen = Vec::new();
        for chunk in stream.chunks(size) {
            let mut o = d.decode_after_read(chunk, vec![]);
            loop {
                match o {
                    DecoderOutcome::Decoded(m) => seen.push((m.obj_id, m.opcode, m.payload().to_vec())),
                    DecoderOutcome::Incomplete => break,
                    _ => panic!("unexpected outcome"),
                }
                match d.decode_buf() {
                    Some(next) => o = next,
                    None => break,
                }
            }
        }
        assert_eq!(
            seen,
            vec![
                (1, 1, vec![2, 0, 0, 0]),
                (7, 3, vec![1, 2, 3, 4, 5, 6, 7, 8]),
                (2, 0, vec![])
            ]
        );
    }
}

#[test]
fn decoder_incomplete_then_eof() {
    let mut d: WlDecoder<i32> = WlDecoder::new(Endian::Little);
    let stream = frame_bytes(1, 1, &[2, 0, 0, 0]);
    assert!(matches!(d.decode_after_read(&stream[..5], vec![]), DecoderOutcome::Incomplete));
    assert!(matches!(d.decode_after_read(&[], vec![]), DecoderOutcome::UnexpectedEof));
    let m = decoded(d.decode_after_read(&stream[5..], vec![]));
    assert_eq!(m.obj_id, 1);
    assert!(matches!(d.decode_after_read(&[], vec![]), DecoderOutcome::Eof));
}

#[test]
fn end_of_stream_with_leftover_descriptor_is_unexpected() {
    let mut d: WlDecoder<i32> = WlDecoder::new(Endian::Little);
    assert!(matches!(d.decode_after_read(&[], vec![]), DecoderOutcome::Eof));
    assert!(matches!(d.decode_after_read(&[], vec![7]), DecoderOutcome::UnexpectedEof));
}

#[test]
fn decoder_rejects_bad_length() {
    let mut d: WlDecoder<i32> = WlDecoder::new(Endian::Little);
    let mut bad = Vec::new();
    bad.extend_from_slice(&1u32.to_le_bytes());
    bad.extend_from_slice(&((4u32 << 16) | 1).to_le_bytes());
    assert!(matches!(d.decode_after_read(&bad, vec![]), DecoderOutcome::Malformed));
    let mut odd = Vec::new();
    odd.extend_from_slice(&1u32.to_le_bytes());
    odd.extend_from_slice(&((10u32 << 16) | 1).to_le_bytes());
    let mut d2: WlDecoder<i32> = WlDecoder::new(Endian::Little);
    assert!(matches!(d2.decode_after_read(&odd, vec![]), DecoderOutcome::Malformed));
}

#[test]
fn frame_takes_all_queued_fds_and_returns_surplus() {
    let mut d: WlDecoder<i32> = WlDecoder::new(Endian::Little);
    let mut stream = frame_bytes(1, 0, &[]);
    stream.extend(frame_bytes(1, 0, &[]));
    let mut m = decoded(d.decode_after_read(&stream, vec![10, 11, 12]));
    assert_eq!(m.fds, vec![10, 11, 12]);
    d.return_unused_fds(&mut m, 1);
    assert_eq!(m.fds, vec![10]);
    let m2 = decoded(d.decode_buf().unwrap());
    assert_eq!(m2.fds, vec![11, 12]);
}

#[test]
fn return_more_than_held_keeps_all() {
    let mut d: WlDecoder<i32> = WlDecoder::new(Endian::Little);
    let mut m = decoded(d.decode_after_read(&frame_bytes(1, 0, &[]), vec![4]));
    d.return_unused_fds(&mut m, 5);
    assert_eq!(m.fds, vec![4]);
}

#[test]
fn write_queue_is_fifo_with_partial_writes() {
    let mut q: WlWriteQueue<i32> = WlWriteQueue::new();
    assert!(!q.can_write());
    q.queue_write(WlRawMsg::build(Endian::Little, 1, 0, &[], vec![3]));
    q.queue_write(WlRawMsg::build(Endian::Little, 2, 0, &[], vec![]));
    assert!(q.can_write());
    q.start_next();
    assert_eq!(q.unsent_bytes(), &frame_bytes(1, 0, &[])[..]);
    assert_eq!(q.take_fds(), vec![3]);
    assert!(q.take_fds().is_empty());
    q.advance(3);
    assert_eq!(q.unsent_bytes(), &frame_bytes(1, 0, &[])[3..]);
    q.start_next();
    assert_eq!(q.unsent_bytes(), &frame_bytes(1, 0, &[])[3..]);
    q.advance(5);
    assert!(q.unsent_bytes().is_empty());
    q.start_next();
    assert_eq!(q.unsent_bytes(), &frame_bytes(2, 0, &[])[..]);
    q.advance(8);
    q.start_next();
    assert!(!q.can_write());
}

#[test]
fn failed_write_keeps_descriptors_for_retry() {
    let mut q: WlWriteQueue<i32> = WlWriteQueue::new();
    q.queue_write(WlRawMsg::build(Endian::Little, 1, 0, &[], vec![5, 6]));
    q.start_next();
    let fds = q.take_fds();
    assert_eq!(fds, vec![5, 6]);
    q.restore_fds(fds);
    assert_eq!(q.take_fds(), vec![5, 6]);
    q.advance(8);
    q.restore_fds(vec![9]);
    q.start_next();
    assert!(!q.can_write());
}
