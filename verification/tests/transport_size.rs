use motatool::report::transport_line;
use motatool::transport::{deflate_transport_size, DeflateTransportSize};

#[test]
fn selects_independent_smaller_streams_and_counts_171_byte_packets() {
    let mut payload = vec![0u8; 2048];
    // The short final block cannot benefit from DEFLATE, so this also checks
    // that raw fallback is included in wire bytes and gets its own packet.
    payload.extend_from_slice(b"short");

    let size = deflate_transport_size(&payload, 2048).unwrap();
    assert_eq!(size.payload_bytes, 2053);
    assert_eq!(size.block_count, 2);
    assert_eq!(size.deflate_blocks, 1);
    assert!(size.deflate_bytes < 2048);
    assert_eq!(size.wire_bytes, size.deflate_bytes + 5);
    assert_eq!(size.data_packets, size.deflate_bytes.div_ceil(171) + 1);
}

#[test]
fn rejects_sizes_no_manifest_can_encode() {
    for block_size in [0, 1, 3, 1000, 1025, 2047, 2049, 4096] {
        assert_eq!(
            deflate_transport_size(b"payload", block_size).unwrap_err(),
            "block size must be a power of two between 2 and 2048 bytes",
            "unexpected result for block size {block_size}"
        );
    }
    assert_eq!(
        deflate_transport_size(&[], 2048).unwrap_err(),
        "payload is empty"
    );
}

#[test]
fn incompressible_blocks_fall_back_without_cross_block_coalescing() {
    // A short block always expands because a raw stream still needs framing.
    let size = deflate_transport_size(b"abcdefgh", 4).unwrap();
    assert_eq!(size.block_count, 2);
    assert_eq!(size.deflate_blocks, 0);
    assert_eq!(size.deflate_bytes, 0);
    assert_eq!(size.wire_bytes, 8);
    assert_eq!(size.data_packets, 2);
}

fn empty_size() -> DeflateTransportSize {
    DeflateTransportSize {
        payload_bytes: 0,
        block_size: 1024,
        block_count: 0,
        wire_bytes: 0,
        deflate_bytes: 0,
        deflate_blocks: 0,
        data_packets: 0,
    }
}

#[test]
fn blocks_add_up_by_the_shorter_form() {
    let mut size = empty_size();
    assert_eq!(size.add_block(1024, &[0u8; 172]), Ok(()));
    assert_eq!(size.wire_bytes, 172);
    assert_eq!(size.deflate_bytes, 172);
    assert_eq!(size.deflate_blocks, 1);
    assert_eq!(size.data_packets, 2);
    assert_eq!(size.add_block(171, &[0u8; 171]), Ok(()));
    assert_eq!(size.wire_bytes, 343);
    assert_eq!(size.deflate_blocks, 1);
    assert_eq!(size.data_packets, 3);
    assert_eq!(size.add_block(5, &[]), Ok(()));
    assert_eq!(size.wire_bytes, 348);
    assert_eq!(size.data_packets, 4);
    let mut full = empty_size();
    full.wire_bytes = usize::MAX;
    assert_eq!(full.add_block(1, &[]), Err("transport size overflow"));
    assert_eq!(full.wire_bytes, usize::MAX);
}

#[test]
fn sizes_are_reported_as_json() {
    let mut payload = vec![0u8; 2048];
    payload.extend_from_slice(b"short");
    let size = deflate_transport_size(&payload, 2048).unwrap();
    let expected = format!(
        "{{\"schema\":1,\"payload_bytes\":2053,\"block_size\":2048,\"block_count\":2,\"wire_bytes\":{},\"deflate_bytes\":{},\"deflate_blocks\":1,\"data_packets\":{}}}",
        size.wire_bytes, size.deflate_bytes, size.data_packets
    );
    assert_eq!(transport_line(&size), expected);
}

#[test]
fn full_blocks_measure_the_same_whatever_follows() {
    let mut payload = vec![7u8; 4096];
    let alone = deflate_transport_size(&payload, 2048).unwrap();
    payload.extend_from_slice(&[1, 2, 3]);
    let longer = deflate_transport_size(&payload, 2048).unwrap();
    assert_eq!(longer.deflate_bytes, alone.deflate_bytes);
    assert_eq!(longer.wire_bytes, alone.wire_bytes + 3);
    assert!(alone.wire_bytes <= alone.payload_bytes);
}

#[test]
fn sizes_add_up_at_a_block_boundary() {
    let a = vec![3u8; 2048];
    let b: Vec<u8> = (0..700u32).map(|i| (i * i % 251) as u8).collect();
    let mut both = a.clone();
    both.extend_from_slice(&b);
    let x = deflate_transport_size(&a, 1024).unwrap();
    let y = deflate_transport_size(&b, 1024).unwrap();
    let z = deflate_transport_size(&both, 1024).unwrap();
    assert_eq!(z.block_count, x.block_count + y.block_count);
    assert_eq!(z.wire_bytes, x.wire_bytes + y.wire_bytes);
    assert_eq!(z.deflate_bytes, x.deflate_bytes + y.deflate_bytes);
    assert_eq!(z.deflate_blocks, x.deflate_blocks + y.deflate_blocks);
    assert_eq!(z.data_packets, x.data_packets + y.data_packets);
    for size in [&x, &y, &z] {
        assert!(size.block_count <= size.data_packets);
        assert_eq!(size.wire_bytes < size.payload_bytes, size.deflate_blocks > 0);
        assert_eq!(size.deflate_blocks == 0, size.deflate_bytes == 0);
    }
}
