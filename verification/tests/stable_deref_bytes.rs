use std::hint::black_box;

use bytes::{Bytes, BytesMut};
use quickwit::stable_deref_bytes::{into_owned_bytes, OwnedBytes, StableDerefBytes};

/// Moves the handle around, and checks that the payload stays where it is.
fn assert_deref_survives_moves(bytes: Bytes) {
    let stable_deref_bytes = StableDerefBytes(bytes);
    let address = stable_deref_bytes.deref().as_ptr();

    // Pass it by value. The compiler is free to leave it in the same stack slot, so this
    // step proves the least of the three; `black_box` only keeps it from being optimized
    // away entirely.
    let stable_deref_bytes = black_box(stable_deref_bytes);
    assert_eq!(stable_deref_bytes.deref().as_ptr(), address);

    // Move it onto the heap, then back off it. This one really does relocate the handle.
    let boxed = Box::new(stable_deref_bytes);
    assert_eq!(boxed.deref().as_ptr(), address);
    let stable_deref_bytes = *boxed;

    // Push past the vec's capacity so it reallocates and memcpies the handle elsewhere.
    let mut relocating = vec![stable_deref_bytes];
    for _ in 0..16 {
        relocating.push(StableDerefBytes(Bytes::new()));
    }
    assert_eq!(relocating[0].deref().as_ptr(), address);
}

#[test]
fn test_stable_deref_bytes_address_survives_moves() {
    assert_deref_survives_moves(Bytes::from_static(b"a static payload"));
    assert_deref_survives_moves(Bytes::from(b"a heap allocated payload".to_vec()));
    // How the segments of a response body reach us.
    assert_deref_survives_moves(BytesMut::from(&b"a downloaded segment"[..]).freeze());
    // A short payload, the one an inline representation would store in the handle.
    assert_deref_survives_moves(Bytes::from(b"ab".to_vec()));
    // A view into a larger buffer, and an empty payload.
    assert_deref_survives_moves(Bytes::from(b"a sliced payload".to_vec()).slice(2..8));
    assert_deref_survives_moves(Bytes::new());
}

#[test]
fn test_into_owned_bytes_preserves_the_payload() {
    let owned_bytes = into_owned_bytes(Bytes::from_static(b"a downloaded payload"));
    assert_eq!(owned_bytes.as_slice(), b"a downloaded payload");
}

#[test]
fn test_owned_bytes_are_shared() {
    let owned_bytes = OwnedBytes::new(b"payload".to_vec());
    let copy = owned_bytes.clone();
    assert_eq!(copy.len(), 7);
    assert_eq!(copy.as_slice().as_ptr(), owned_bytes.as_slice().as_ptr());
}
