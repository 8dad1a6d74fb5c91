use ed25519_dalek::SigningKey;
use motatool::crypto::keypair_texts;
use motatool::format::DEFAULT_BLOCK_SIZE;
use motatool::manifest::Codec;
use motatool::merkle::{leaf_hashes, root};
use motatool::numbers::{
    load_key32, parse_hex_key, parse_u32_auto, parse_unsigned, split_address, trim,
};
use motatool::report::{
    built_report, fail_line, file_report, inspect, kind_label, ok_line, package_target_label,
    package_version_str, seed_line, served_line, signer_problem, verify_file,
};
use motatool::{build, verify, BuildOpts, Built, Manifest, PatchType};
use sha2::{Digest, Sha256};

fn built(seed: Option<[u8; 32]>) -> Built {
    build(
        &BuildOpts {
            fw: vec![0x5A; 3000],
            base: None,
            patch_type: PatchType::Sequential,
            inplace_memory: None,
            segment_size: 0,
            target_id: Some(0x04D4_13FD),
            fw_version: Some(0x0111_0000),
            hw_id: Some("RAK4631".into()),
            sign_seed: seed,
            block_size: DEFAULT_BLOCK_SIZE,
            force: false,
        },
        &[],
    )
    .unwrap_or_else(|e| panic!("{}", e.to_string()))
}

#[test]
fn sound_and_unsound_files_are_reported() {
    let b = built(None);
    let parsed = Manifest::parse(&b.bytes).ok();
    let (ok, line) = file_report("a.mota", &b.bytes, verify(&b.bytes), &parsed, &None, "RAK_4631");
    assert!(ok);
    assert_eq!(
        line,
        "OK    a.mota : full target=04D413FD [RAK_4631] v1.17.0 hw=RAK4631 unsigned blocks=2 size=3274"
    );
    assert_eq!(ok_line("a.mota", &b.manifest, "RAK_4631", 3274), line);
    let (ok, line) = file_report(
        "a.mota",
        &b.bytes,
        verify(&b.bytes),
        &parsed,
        &Some([1; 32]),
        "RAK_4631",
    );
    assert!(!ok);
    assert_eq!(line, "FAIL  a.mota : [not signed (but --pub was given)]");
    let s = built(Some([9; 32]));
    assert_eq!(
        signer_problem(&s.manifest, &[1; 32]),
        Some("signed by a different key than --pub")
    );
    assert_eq!(signer_problem(&s.manifest, &s.manifest.signer), None);
    let (ok, line) = file_report("x", b"junk", verify(b"junk"), &None, &Some([0; 32]), "?");
    assert!(!ok);
    assert_eq!(line, "FAIL  x : [container is shorter than its fixed parts]");
    assert_eq!(fail_line("x", &vec!["a".into(), "b".into()]), "FAIL  x : [a] [b]");
}

#[test]
fn files_are_verified_from_their_bytes() {
    let b = built(Some([9; 32]));
    let key = b.manifest.signer;
    let (ok, line) = verify_file("a.mota", &b.bytes, &Some(key), "RAK_4631");
    assert!(ok);
    assert_eq!(
        line,
        "OK    a.mota : full target=04D413FD [RAK_4631] v1.17.0 hw=RAK4631 signed blocks=2 size=3274"
    );
    assert!(verify_file("a.mota", &b.bytes, &None, "").0);
    let (ok, line) = verify_file("a.mota", &b.bytes, &Some([1; 32]), "");
    assert!(!ok);
    assert_eq!(line, "FAIL  a.mota : [signed by a different key than --pub]");
    let mut bad = b.bytes.clone();
    bad[300] ^= 1;
    let (ok, line) = verify_file("a.mota", &bad, &Some([1; 32]), "");
    assert!(!ok);
    assert_eq!(
        line,
        "FAIL  a.mota : [payload does not match its Merkle leaves] [merkle_root does not match the payload] [image_hash does not match the full payload] [signed by a different key than --pub]"
    );
    let (ok, line) = verify_file("x", b"junk", &Some([0; 32]), "?");
    assert!(!ok);
    assert_eq!(line, "FAIL  x : [container is shorter than its fixed parts]");
}

#[test]
fn keys_and_seeds_are_written_out() {
    let seed = [0xABu8; 32];
    let public = SigningKey::from_bytes(&seed).verifying_key().to_bytes();
    assert_eq!(
        keypair_texts(&seed),
        ("AB".repeat(32), hex::encode_upper(public))
    );
    let b = built(None);
    let mid = hex::encode_upper(b.manifest.merkle_root);
    assert_eq!(
        seed_line("s.mota", &b.manifest),
        format!("seed: s.mota mid={mid} blocks=2 payload=3056 (staged into each capture for `ota pull … validate`)")
    );
}

#[test]
fn kinds_and_labels() {
    let b = built(None);
    let mut m = b.manifest;
    assert_eq!(kind_label(&m), "full");
    m.codec_id = 77;
    assert_eq!(kind_label(&m), "full");
    m.codec_id = 2;
    assert_eq!(kind_label(&m), "in-place delta");
    m.flags = 0;
    m.codec_id = 1;
    assert_eq!(kind_label(&m), "sequential delta");
    m.codec_id = 0;
    assert_eq!(kind_label(&m), "sequential delta");
    m.flags = 7;
    assert_eq!(kind_label(&m), "bootloader");
    m.fw_version = 0x0102_0304;
    assert_eq!(package_version_str(&m), "1.2.3-preview.4");
    assert_eq!(package_target_label(&m, &b.bytes, "app"), "unsupported bootloader");
    assert_eq!(package_target_label(&m, &b.bytes[..100], "app"), "unsupported bootloader");
    assert_eq!(package_target_label(&b.manifest, &b.bytes, "app"), "app");
    assert_eq!(
        (Codec::Full.id(), Codec::DetoolsSequential.id(), Codec::DetoolsInplace.id()),
        (0, 1, 2)
    );
    assert_eq!(Codec::from_id(3), None);
    let name = hex::encode_upper(b.manifest.merkle_root);
    assert_eq!(
        served_line("a.mota", &b.manifest, "app", 3274),
        format!("  - a.mota : mid={name} target=04D413FD [app] v1.17.0 full unsigned blocks=2 size=3274")
    );
    assert_eq!(
        built_report(&b.manifest, 3274, Some(0x98000), 4096),
        [
            "  full  target=04D413FD  v1.17.0  hw=RAK4631  unsigned",
            "  image=3056B  payload=3056B  blocks=2  total=3274B",
            "  in-place memory=0x98000  segment=4096B",
        ]
    );
}

#[test]
fn every_field_is_inspected() {
    let b = built(Some([9; 32]));
    let lines = inspect(&b.bytes, "RAK_4631").unwrap();
    assert_eq!(lines.len(), 18);
    assert_eq!(lines[0], "total_size     : 3274");
    assert_eq!(lines[1], "package_kind   : full");
    assert_eq!(lines[3], "flags          : 0x03  FULL=true SIGNED=true BOOTLOADER=false");
    assert_eq!(lines[4], "hash_algo      : 0x12 (sha2-256)");
    assert_eq!(lines[5], "target_id      : 0x04d413fd  (RAK_4631)");
    assert_eq!(lines[6], "fw_version     : 1.17.0  (0x01110000)");
    assert_eq!(lines[9], "block_size     : 2048  (log2=11)  block_count=2");
    assert_eq!(lines[13], "hw_id          : RAK4631");
    assert_eq!(
        lines[14],
        format!("signer_pubkey  : {}", hex::encode_upper(b.manifest.signer))
    );
    assert_eq!(lines[16], "approval       : FFFFFFFF  (not approved)");
    assert_eq!(lines[17], "leaves[]       : 2 x 4 bytes");
    assert!(inspect(b"junk", "").is_err());
}

#[test]
fn leaves_and_root_are_truncated_digests() {
    let payload: Vec<u8> = (0..11u8).collect();
    let leaves = leaf_hashes(&payload, 4);
    assert_eq!(leaves.len(), 3);
    assert_eq!(leaves[0], Sha256::digest([0, 1, 2, 3])[..4]);
    assert_eq!(leaves[2], Sha256::digest([8, 9, 10])[..4]);
    assert_eq!(root(&leaves[..1]), leaves[0]);
    let join = |a: [u8; 4], b: [u8; 4]| -> [u8; 4] {
        let mut pair = a.to_vec();
        pair.extend_from_slice(&b);
        Sha256::digest(&pair)[..4].try_into().unwrap()
    };
    let left = join(leaves[0], leaves[1]);
    assert_eq!(root(&leaves[..2]), left);
    assert_eq!(root(&leaves), join(left, leaves[2]));
    assert_eq!(root(&[]), [0; 4]);
}

#[test]
fn numbers_are_read_from_text() {
    assert_eq!(parse_u32_auto(" 0x04D413fd\n").unwrap(), 0x04D4_13FD);
    assert_eq!(parse_u32_auto("0XFFFFFFFF").unwrap(), u32::MAX);
    assert_eq!(parse_u32_auto("4096").unwrap(), 4096);
    assert_eq!(parse_u32_auto("+7").unwrap(), 7);
    for bad in ["", "0x", "0x1_0", "4294967296", "-1", "++1", "+", "12a", "0x100000000"] {
        assert!(parse_u32_auto(bad).is_err(), "{bad}");
    }
    assert_eq!(
        parse_u32_auto(" 1\t2 ").unwrap_err().to_string(),
        "not a valid number: \"1\\t2\""
    );
    assert_eq!(trim("\u{3000} a b\u{85}"), "a b");
    assert_eq!(trim(" \n"), "");
    assert_eq!(parse_unsigned("ff", 16, 255), Some(255));
    assert_eq!(parse_unsigned("100", 16, 255), None);
}

#[test]
fn addresses_split_at_the_last_colon() {
    assert_eq!(split_address("node"), Some(("node".to_string(), 5001)));
    assert_eq!(split_address("node:80"), Some(("node".to_string(), 80)));
    assert_eq!(split_address("::1:9"), Some(("::1".to_string(), 9)));
    assert_eq!(split_address("node:"), None);
    assert_eq!(split_address("node:65536"), None);
}

#[test]
fn keys_are_raw_or_hexadecimal() {
    let key = [0x42u8; 32];
    assert_eq!(load_key32(&key), Some(key));
    let text = format!(" {}\n", hex::encode_upper(key));
    assert_eq!(load_key32(text.as_bytes()), Some(key));
    let spaced = format!("\u{a0}{}", hex::encode_upper(key));
    assert_eq!(load_key32(spaced.as_bytes()), None);
    assert_eq!(parse_hex_key(&hex::encode(key)), Some(key));
    assert_eq!(parse_hex_key(&"g0".repeat(32)), None);
    assert_eq!(parse_hex_key("42"), None);
    assert_eq!(load_key32(&[0; 31]), None);
    assert_eq!(load_key32(&[0xA0; 65]), None);
}
