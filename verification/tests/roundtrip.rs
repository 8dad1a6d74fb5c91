//! End-to-end checks that a built container verifies, round-trips, and catches tampering.

use ed25519_dalek::SigningKey;
use motatool::container::ContainerError;
use motatool::endf::ensure_endf;
use motatool::format::{off, FwIdent, DEFAULT_BLOCK_SIZE, HEADER_LEN, MFL};
use motatool::{build, plan_build, verify, BuildOpts, Codec, Manifest, PatchType};

fn synthetic_fw(n: usize) -> Vec<u8> {
    (0..n)
        .map(|i| (i.wrapping_mul(7).wrapping_add(3)) as u8)
        .collect()
}

fn opts(fw: Vec<u8>) -> BuildOpts {
    BuildOpts {
        fw,
        base: None,
        patch_type: PatchType::Sequential,
        inplace_memory: None,
        segment_size: 0,
        target_id: Some(0x04D4_13FD),
        fw_version: Some(0x0111_0000),
        hw_id: Some("RAK4631".into()),
        sign_seed: None,
        block_size: DEFAULT_BLOCK_SIZE,
        force: false,
    }
}

#[test]
fn full_build_verifies_and_roundtrips() {
    let built = build(&opts(synthetic_fw(2500)), &[]).unwrap();
    assert!(
        verify(&built.bytes).is_empty(),
        "a freshly built container must verify"
    );

    let m = Manifest::parse(&built.bytes).unwrap();
    assert!(m.is_full() && !m.is_signed());
    assert_eq!(m.target_id, 0x04D4_13FD);
    assert_eq!(m.fw_version, 0x0111_0000);
    assert_eq!(m.hw_id_str(), "RAK4631");
    assert_eq!(m.block_size(), 2048);
    assert_eq!(m.block_count, 2); // 2500 + 56-byte EndF = 2556 → ceil(/2048) = 2
    assert!(built
        .suggested_name
        .starts_with("RAK4631_04D413FD_v1.17.0_full_"));
    assert!(built.suggested_name.ends_with(".mota"));
}

#[test]
fn built_manifest_is_the_parsed_one() {
    let built = build(&opts(synthetic_fw(5000)), &[]).unwrap();
    assert_eq!(Manifest::parse(&built.bytes).unwrap(), built.manifest);
    assert_eq!(&built.bytes[..4], b"mOTA");
    assert_eq!(built.manifest.leaves_off(), 205);
    assert_eq!(built.manifest.payload_off(), 205 + 4 * 3);
    assert_eq!(built.bytes.len(), 205 + 4 * 3 + 5056 + 5);
    assert_eq!(built.manifest.codec(), Some(Codec::Full));
    assert!(!built.manifest.is_approved());
    let payload = &built.bytes[217..217 + 5056];
    assert_eq!(&payload[..5000], &synthetic_fw(5000)[..]);
    let name = hex::encode_upper(built.manifest.merkle_root);
    assert_eq!(
        built.suggested_name,
        format!("RAK4631_04D413FD_v1.17.0_full_{name}.mota")
    );
}

#[test]
fn signed_build_verifies_with_embedded_key() {
    let seed = [7u8; 32];
    let mut o = opts(synthetic_fw(1500));
    o.sign_seed = Some(seed);
    let built = build(&o, &[]).unwrap();

    assert!(verify(&built.bytes).is_empty());
    let m = Manifest::parse(&built.bytes).unwrap();
    assert!(m.is_signed());
    assert_eq!(
        m.signer,
        SigningKey::from_bytes(&seed).verifying_key().to_bytes()
    );
    let mut forged = built.bytes.clone();
    forged[HEADER_LEN + off::FW_VERSION] ^= 1;
    assert!(verify(&forged)
        .iter()
        .any(|p| p.contains("signature INVALID")));
}

#[test]
fn building_twice_gives_the_same_bytes() {
    let mut o = opts(synthetic_fw(1500));
    o.sign_seed = Some([8u8; 32]);
    let first = build(&o, &[]).unwrap();
    let second = build(&o, &[]).unwrap();
    assert_eq!(first.bytes, second.bytes);
    assert_eq!(first.suggested_name, second.suggested_name);
}

#[test]
fn payload_tamper_is_detected() {
    let built = build(&opts(synthetic_fw(2500)), &[]).unwrap();
    let mut bad = built.bytes.clone();
    let payload_off = Manifest::parse(&bad).unwrap().payload_off();
    bad[payload_off] ^= 0xFF;
    let problems = verify(&bad);
    assert!(
        problems.iter().any(|p| p.contains("leaves")),
        "tamper must be caught: {problems:?}"
    );
}

#[test]
fn each_tampered_part_is_reported() {
    let built = build(&opts(synthetic_fw(2500)), &[]).unwrap();
    let mut root = built.bytes.clone();
    root[HEADER_LEN + off::MERKLE_ROOT] ^= 1;
    assert_eq!(verify(&root), ["merkle_root does not match the payload"]);
    let mut leaf = built.bytes.clone();
    leaf[HEADER_LEN + MFL] ^= 1;
    assert_eq!(verify(&leaf), ["payload does not match its Merkle leaves"]);
    let mut size = built.bytes.clone();
    size[HEADER_LEN + off::IMAGE_SIZE] ^= 1;
    assert_eq!(verify(&size), ["image_size does not match the full payload"]);
    let mut hash = built.bytes.clone();
    hash[HEADER_LEN + off::IMAGE_HASH + 31] ^= 1;
    assert_eq!(verify(&hash), ["image_hash does not match the full payload"]);
    let mut approval = built.bytes.clone();
    approval[HEADER_LEN + off::APPROVAL] = 0;
    assert_eq!(verify(&approval), ["approval is not erased or approved"]);
    let mut approved = built.bytes.clone();
    approved[HEADER_LEN + off::APPROVAL..HEADER_LEN + off::APPROVAL + 4].copy_from_slice(b"APRV");
    assert!(verify(&approved).is_empty());
    assert!(Manifest::parse(&approved).unwrap().is_approved());
}

#[test]
fn each_malformed_container_has_its_error() {
    let built = build(&opts(synthetic_fw(2500)), &[]).unwrap();
    let good = built.bytes;
    assert_eq!(Manifest::parse(&good[..209]), Err(ContainerError::TooShort));
    let mut magic = good.clone();
    magic[0] = 0;
    assert_eq!(Manifest::parse(&magic), Err(ContainerError::Magic));
    assert_eq!(
        Manifest::parse(&good[..good.len() - 1]),
        Err(ContainerError::Length(good.len() as u32, good.len() - 1))
    );
    let mut trailer = good.clone();
    let last = trailer.len() - 1;
    trailer[last] = 0;
    assert_eq!(Manifest::parse(&trailer), Err(ContainerError::Trailer));
    let cases = [
        (off::FORMAT_VER, 4u8, ContainerError::FormatVer(4)),
        (off::FLAGS, 0x09, ContainerError::AppFlags(0x09)),
        (off::HASH_ALGO, 0x13, ContainerError::HashAlgo(0x13)),
        (off::BLOCK_SIZE_LOG2, 0, ContainerError::BlockSizeMin),
        (off::BLOCK_SIZE_LOG2, 10, ContainerError::Geometry),
        (off::PAYLOAD_SIZE + 3, 0xFF, ContainerError::BlockCount(0x1FE002)),
    ];
    for (at, value, error) in cases {
        let mut bad = good.clone();
        bad[HEADER_LEN + at] = value;
        assert_eq!(Manifest::parse(&bad), Err(error));
        assert_eq!(verify(&bad), [error.to_string()]);
    }
    let mut empty = good.clone();
    empty[HEADER_LEN + off::PAYLOAD_SIZE..HEADER_LEN + off::PAYLOAD_SIZE + 4].fill(0);
    assert_eq!(Manifest::parse(&empty), Err(ContainerError::EmptyPayload));
}

#[test]
fn delta_base_without_endf_is_rejected() {
    // A delta must be built against the device's real running image, which carries an EndF trailer.
    // A raw base with no trailer is refused rather than producing a patch that could never apply.
    let mut o = opts(synthetic_fw(2500));
    o.base = Some(synthetic_fw(2400)); // no EndF trailer
    let err = build(&o, b"patch").err().expect("delta must error").to_string();
    assert!(
        err.contains("EndF"),
        "expected an EndF-base error, got: {err}"
    );
}

fn delta_opts(hw: &str) -> BuildOpts {
    let ident = FwIdent {
        fw_version: 0x0110_0000,
        target_id: 0x04D4_13FD,
        hw_id: hw.into(),
    };
    let mut o = opts(synthetic_fw(2500));
    o.base = Some(ensure_endf(&synthetic_fw(2400), &ident).0);
    o.segment_size = 4096;
    o.inplace_memory = Some(0x8000);
    o
}

#[test]
fn delta_manifest_pins_its_base() {
    let o = delta_opts("RAK4631");
    let base_hash = ensure_endf(o.base.as_ref().unwrap(), &FwIdent::default()).1;
    let built = build(&o, b"a detools patch").unwrap();
    assert!(verify(&built.bytes).is_empty());
    let m = Manifest::parse(&built.bytes).unwrap();
    assert!(!m.is_full());
    assert_eq!(m.codec(), Some(Codec::DetoolsSequential));
    assert_eq!(m.base_hash, base_hash);
    assert_eq!(m.image_size, 2556);
    assert_eq!(m.payload_size, 15);
    assert_eq!(&built.bytes[m.payload_off()..m.payload_off() + 15], b"a detools patch");
    let empty = build(&o, &[]).err().unwrap().to_string();
    assert_eq!(empty, "payload yields an invalid block count (0)");
}

#[test]
fn delta_suggested_name_tags_the_codec() {
    let seq = build(&delta_opts("RAK4631"), b"patch").unwrap();
    assert!(
        seq.suggested_name.contains("_seqdelta_"),
        "{}",
        seq.suggested_name
    );
    let mut o = delta_opts("RAK4631");
    o.patch_type = PatchType::InPlace;
    let ip = build(&o, b"patch").unwrap();
    assert!(
        ip.suggested_name.contains("_ipdelta_"),
        "{}",
        ip.suggested_name
    );
    assert_eq!(ip.inplace_memory, Some(0x8000));
}

#[test]
fn cross_hardware_delta_needs_force() {
    let mut o = delta_opts("Heltec_v3");
    let err = build(&o, b"patch").err().unwrap().to_string();
    assert_eq!(
        err,
        "base hardware \"Heltec_v3\" != target hardware \"RAK4631\"; a cross-hardware delta will not apply (use --force to override)"
    );
    o.force = true;
    let plan = plan_build(&o).unwrap();
    assert_eq!(plan.ident.hw_id, "RAK4631");
    assert_eq!(plan.image.len(), 2556);
    assert!(build(&o, b"patch").is_ok());
}

#[test]
fn firmware_identity_is_inherited_unless_overridden() {
    let ident = FwIdent {
        fw_version: 0x0102_0300,
        target_id: 0x0A0B_0C0D,
        hw_id: "OWN".into(),
    };
    let (fw, _) = ensure_endf(&synthetic_fw(64), &ident);
    let mut o = opts(fw.clone());
    o.target_id = None;
    o.fw_version = None;
    o.hw_id = None;
    let m = build(&o, &[]).unwrap().manifest;
    assert_eq!((m.target_id, m.fw_version, m.image_size), (0x0A0B_0C0D, 0x0102_0300, 120));
    assert_eq!(m.hw_id_str(), "OWN");
    o.hw_id = Some(String::new());
    let built = build(&o, &[]).unwrap();
    assert!(built.suggested_name.starts_with("fw_0A0B0C0D_v1.2.3_full_"));
}

#[test]
fn application_build_rejects_invalid_block_geometry() {
    for (block_size, reason) in [
        (0, "zero"),
        (1, "below the application minimum"),
        (3, "non-power-of-two"),
        (4096, "above the application maximum"),
    ] {
        let mut o = opts(synthetic_fw(64));
        o.block_size = block_size;
        let err = build(&o, &[]).err().expect(reason).to_string();
        assert!(
            err.contains("power of two between 2 and 2048"),
            "unexpected {reason} error: {err}"
        );
    }
}

#[test]
fn format_2_parser_rejects_blocks_above_2k() {
    let built = build(&opts(synthetic_fw(2500)), &[]).unwrap();
    let mut bad = built.bytes;
    bad[HEADER_LEN + off::BLOCK_SIZE_LOG2] = 12;
    let err = Manifest::parse(&bad).unwrap_err().to_string();
    assert!(
        err.contains("v2 application block size must be at most 2048 bytes"),
        "unexpected error: {err}"
    );
}
