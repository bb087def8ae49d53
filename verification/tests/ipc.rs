use rift_bus::ipc::{encode_frame, frame_body_len, IpcError, MAX_FRAME_BYTES};

#[test]
fn frame_is_length_then_body() {
    let f = encode_frame(b"{\"a\":1}").unwrap();
    assert_eq!(&f[..4], &[7, 0, 0, 0]);
    assert_eq!(&f[4..], b"{\"a\":1}");
    let empty = encode_frame(b"").unwrap();
    assert_eq!(empty, vec![0, 0, 0, 0]);
}

#[test]
fn frame_round_trip() {
    let body = vec![7u8; 70000];
    let f = encode_frame(&body).unwrap();
    let prefix = [f[0], f[1], f[2], f[3]];
    assert_eq!(frame_body_len(prefix).unwrap(), 70000);
    assert_eq!(&f[4..], &body[..]);
}

#[test]
fn frame_too_large_error_does_not_panic() {
    let body = vec![0u8; MAX_FRAME_BYTES as usize + 1];
    assert!(matches!(encode_frame(&body), Err(IpcError::FrameTooLarge(n)) if n == MAX_FRAME_BYTES + 1));
    assert!(matches!(frame_body_len([0xff, 0xff, 0xff, 0xff]), Err(IpcError::FrameTooLarge(n)) if n == u32::MAX));
    assert_eq!(frame_body_len([0, 0, 0, 1]).unwrap(), MAX_FRAME_BYTES);
    assert!(matches!(frame_body_len([1, 0, 0, 1]), Err(IpcError::FrameTooLarge(_))));
}
