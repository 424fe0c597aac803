use rgit::codec::{decode_frame, encode_frame, FrameError, ObjectKind};
use rgit::objects::Blob;

#[test]
fn frame_of_a_blob() {
    let framed = encode_frame(ObjectKind::Blob, b"hello\nworld");
    assert_eq!(framed, b"blob 11\0hello\nworld".to_vec());
}

#[test]
fn frame_round_trip_for_each_kind() {
    for kind in [ObjectKind::Blob, ObjectKind::Commit, ObjectKind::Tree, ObjectKind::Tag] {
        let payload = vec![0u8, 32, 255, 10, 0, 48];
        let framed = encode_frame(kind, &payload);
        assert_eq!(decode_frame(&framed), Ok((kind, payload)));
    }
}

#[test]
fn trailing_bytes_past_the_size_are_ignored() {
    assert_eq!(decode_frame(b"blob 3\0abcdef"), Ok((ObjectKind::Blob, b"abc".to_vec())));
}

#[test]
fn unknown_kind_is_refused() {
    assert_eq!(decode_frame(b"blub 3\0abc"), Err(FrameError::UnrecognizedObjectKind));
}

#[test]
fn malformed_framing_is_refused() {
    assert_eq!(decode_frame(b"blob3abc"), Err(FrameError::MalformedFraming));
    assert_eq!(decode_frame(b"blob 3abc"), Err(FrameError::MalformedFraming));
    assert_eq!(decode_frame(b"blob x\0abc"), Err(FrameError::MalformedFraming));
    assert_eq!(decode_frame(b"blob 4\0abc"), Err(FrameError::MalformedFraming));
    assert_eq!(decode_frame(b"blob \0abc"), Err(FrameError::MalformedFraming));
}

#[test]
fn hash_of_hello_world_blob() {
    let blob = Blob::from_bytes(b"hello\nworld".to_vec());
    assert_eq!(blob.serialize(), b"blob 11\0hello\nworld".to_vec());
    assert_eq!(blob.hash(), "9db7df02b6026626607ed9643ea24af9dc09c2c9");
    assert_eq!(blob.hash(), blob.hash());
}
