use motatool::endf::{build_nrf52_layout, ensure_endf, Nrf52Layout};
use motatool::format::{
    FwIdent, NRF52_APP_BASE_S140_V6, NRF52_APP_BASE_S140_V7, NRF52_APP_END, NRF52_EXTRAFS_START,
    NRF52_INPLACE_SEGMENT, NRF52_LAYOUT_FLAG_BOOTLOADER_SCRATCH, NRF52_LAYOUT_FLAG_QSPI,
    NRF52_QSPI_LINKED_APP_END,
};
use motatool::plan::{plan_inplace, PlanError};
use motatool::{build, plan_build, BuildOpts, PatchType};

fn ident() -> FwIdent {
    FwIdent {
        fw_version: 0x0111_0100,
        target_id: 0x9841_1AC6,
        hw_id: "Heltec_t096".into(),
    }
}

fn image_with_layout(len: usize, layout: Nrf52Layout, salt: u8) -> Vec<u8> {
    let mut body: Vec<u8> = (0..len)
        .map(|i| (i as u8).wrapping_mul(29).wrapping_add(salt))
        .collect();
    body.extend_from_slice(&build_nrf52_layout(layout).unwrap());
    ensure_endf(&body, &ident()).0
}

fn opts(fw: Vec<u8>, base: Vec<u8>) -> BuildOpts {
    BuildOpts {
        fw,
        base: Some(base),
        patch_type: PatchType::InPlace,
        inplace_memory: None,
        segment_size: NRF52_INPLACE_SEGMENT,
        target_id: None,
        fw_version: None,
        hw_id: None,
        sign_seed: None,
        block_size: 1024,
        force: false,
    }
}

#[test]
fn layout_auto_sizes_from_complete_base_plus_two_pages() {
    let layout = Nrf52Layout {
        app_base: NRF52_APP_BASE_S140_V6,
        linked_app_end: NRF52_APP_END,
        stage_ceiling: NRF52_APP_END,
        flags: 0,
    };
    let base = image_with_layout(0x2500, layout, 3);
    let target = image_with_layout(0x2600, layout, 3);
    let expected: u32 = (((base.len() as u32 + 0xFFF) & !0xFFF) + 0x2000)
        .max((target.len() as u32 + 0xFFF) & !0xFFF);

    let options = opts(target, base);
    let plan = plan_build(&options).expect("layout-aware in-place plan");
    assert_eq!(plan.delta.unwrap().inplace.unwrap().memory, expected);
    let built = build(&options, b"patch").expect("layout-aware in-place build");
    assert_eq!(built.inplace_memory, Some(expected));
}

#[test]
fn legacy_default_fails_early_when_images_need_more_than_0x98000() {
    // No mOTALay1 records: the tool may not infer extra flash from the hardware name.  The EndF-trailed
    // base is large enough that base + detools' mandatory two-page shift exceeds the legacy window.
    let (base, _) = ensure_endf(&vec![0x11; 0x96000], &ident());
    let (target, _) = ensure_endf(&vec![0x22; 0x96020], &ident());
    let err = build(&opts(target, base), b"patch")
        .err()
        .expect("oversized legacy build must fail")
        .to_string();
    assert!(
        err.contains("legacy default memory"),
        "unexpected error: {err}"
    );
    assert!(err.contains("at least 0x99000"), "unexpected error: {err}");
}

#[test]
fn layout_auto_sizing_rejects_cross_softdevice_app_addresses() {
    let v6 = Nrf52Layout {
        app_base: NRF52_APP_BASE_S140_V6,
        linked_app_end: NRF52_APP_END,
        stage_ceiling: NRF52_APP_END,
        flags: 0,
    };
    let v7 = Nrf52Layout {
        app_base: NRF52_APP_BASE_S140_V7,
        ..v6
    };
    let base = image_with_layout(4096, v6, 7);
    let target = image_with_layout(4096, v7, 7);
    let err = build(&opts(target, base), b"patch")
        .err()
        .expect("cross-layout build must fail")
        .to_string();
    assert!(err.contains("cross-SoftDevice"), "unexpected error: {err}");
}

fn qspi_layout(linked_app_end: u32) -> Nrf52Layout {
    let scratch: u8 = if linked_app_end == NRF52_QSPI_LINKED_APP_END {
        NRF52_LAYOUT_FLAG_BOOTLOADER_SCRATCH
    } else {
        0
    };
    Nrf52Layout {
        app_base: NRF52_APP_BASE_S140_V7,
        linked_app_end,
        stage_ceiling: NRF52_APP_END,
        flags: NRF52_LAYOUT_FLAG_QSPI | scratch,
    }
}

#[test]
fn a_pair_of_qspi_layouts_is_sized_by_the_images_alone() {
    for linked_end in [NRF52_APP_END, NRF52_QSPI_LINKED_APP_END, NRF52_EXTRAFS_START] {
        let layout = qspi_layout(linked_end);
        let base = image_with_layout(0x2500, layout, 3);
        let target = image_with_layout(0x2600, layout, 3);
        let plan = plan_inplace(NRF52_INPLACE_SEGMENT, None, &base, &target).unwrap();
        assert_eq!(plan.memory, 0x5000);
        assert_eq!(plan.base_layout, Some(layout));
        assert!(!plan.legacy_auto);

        // The container is staged on the QSPI flash, so it takes nothing of the workspace.
        let built = build(&opts(target, base), &vec![7; 1_000_000]).unwrap();
        assert_eq!(built.inplace_memory, Some(0x5000));
        assert!(built.bytes.len() > 1_000_000);
    }
    assert_eq!(qspi_layout(NRF52_QSPI_LINKED_APP_END).flags, 0x0C);
}

#[test]
fn a_pair_of_qspi_layouts_is_bounded_by_the_scratch_area() {
    let span: u32 = NRF52_QSPI_LINKED_APP_END - NRF52_APP_BASE_S140_V7;
    let layout = qspi_layout(NRF52_QSPI_LINKED_APP_END);
    let target = image_with_layout(0x1000, layout, 5);
    let plan = |body: u32| {
        let base = image_with_layout(body as usize, layout, 5);
        plan_inplace(NRF52_INPLACE_SEGMENT, None, &base, &target).map(|plan| plan.memory)
    };
    assert_eq!(plan(span - 0x2800), Ok(span));
    assert_eq!(
        plan(span - 0x1800),
        Err(PlanError::WorkspaceExceeded(span + 0x1000, span))
    );
    // Without the scratch area the same images have the room up to the end of the application.
    let layout = qspi_layout(NRF52_APP_END);
    let base = image_with_layout((span - 0x1800) as usize, layout, 5);
    let target = image_with_layout(0x1000, layout, 5);
    let plan = plan_inplace(NRF52_INPLACE_SEGMENT, None, &base, &target).unwrap();
    assert_eq!(plan.memory, span + 0x1000);
}
