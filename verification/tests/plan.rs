use motatool::endf::{LayoutError, Nrf52Layout};
use motatool::format::{
    NRF52_APP_BASE_S140_V6, NRF52_APP_BASE_S140_V7, NRF52_APP_END, NRF52_FALLBACK_FLASH_SPAN,
    NRF52_HYBRID_RAM_SIZE, NRF52_LAYOUT_FLAG_HYBRID_RAM, NRF52_LAYOUT_FLAG_QSPI,
};
use motatool::plan::{
    minimum_inplace_memory, plan_inplace, validate_staging_fit, InplacePlan, PlanError,
};

#[test]
fn minimum_memory_reserves_two_segments_after_rounded_base() {
    assert_eq!(
        minimum_inplace_memory(707_348, 707_396, 4096).unwrap(),
        0xAF000
    );
    assert_eq!(minimum_inplace_memory(1, 0x6001, 4096).unwrap(), 0x7000);
}

#[test]
fn internal_layout_accounts_for_page_rounded_container() {
    let layout = Nrf52Layout {
        app_base: NRF52_APP_BASE_S140_V6,
        linked_app_end: NRF52_APP_END,
        stage_ceiling: NRF52_APP_END,
        flags: 0,
    };
    let span: u32 = layout.stage_ceiling - layout.app_base;
    let plan = InplacePlan {
        memory: span - 0x1000,
        base_layout: Some(layout),
        legacy_auto: false,
    };
    assert!(validate_staging_fit(plan, 4096).is_ok());
    let err = validate_staging_fit(plan, 4097).unwrap_err().to_string();
    assert!(err.contains("page-rounded"), "unexpected error: {err}");
}

#[test]
fn external_layout_does_not_charge_container_against_internal_workspace() {
    let layout = Nrf52Layout {
        app_base: NRF52_APP_BASE_S140_V7,
        linked_app_end: NRF52_APP_END,
        stage_ceiling: NRF52_APP_END,
        flags: NRF52_LAYOUT_FLAG_QSPI,
    };
    let plan = InplacePlan {
        memory: layout.application_ceiling() - layout.app_base,
        base_layout: Some(layout),
        legacy_auto: false,
    };
    assert!(validate_staging_fit(plan, 1_000_000).is_ok());
}

#[test]
fn hybrid_layout_charges_only_deterministic_flash_prefix() {
    let layout = Nrf52Layout {
        app_base: NRF52_APP_BASE_S140_V6,
        linked_app_end: NRF52_APP_END,
        stage_ceiling: NRF52_APP_END,
        flags: NRF52_LAYOUT_FLAG_HYBRID_RAM,
    };
    let span: u32 = layout.stage_ceiling - layout.app_base;
    let plan = InplacePlan {
        memory: span - 0x2000,
        base_layout: Some(layout),
        legacy_auto: false,
    };

    // An overflow just beyond one page needs a two-page flash prefix.
    assert!(validate_staging_fit(plan, NRF52_HYBRID_RAM_SIZE as usize + 0x1001).is_ok());
    // One byte beyond that two-page band charges a third page and no
    // longer fits beside the selected detools workspace.
    let err = validate_staging_fit(plan, NRF52_HYBRID_RAM_SIZE as usize + 0x2001)
        .unwrap_err()
        .to_string();
    assert!(err.contains("page-rounded"), "unexpected error: {err}");
}

#[test]
fn hybrid_layout_keeps_small_pure_flash_packages_buildable() {
    let layout = Nrf52Layout {
        app_base: NRF52_APP_BASE_S140_V6,
        linked_app_end: NRF52_APP_END,
        stage_ceiling: NRF52_APP_END,
        flags: NRF52_LAYOUT_FLAG_HYBRID_RAM,
    };
    let plan = InplacePlan {
        memory: layout.stage_ceiling - layout.app_base - 0x1000,
        base_layout: Some(layout),
        legacy_auto: false,
    };
    assert!(validate_staging_fit(plan, 0x1000).is_ok());
}

#[test]
fn memory_limits_have_their_errors() {
    assert_eq!(
        minimum_inplace_memory(1, 1, 0),
        Err(PlanError::SegmentZero)
    );
    assert_eq!(
        minimum_inplace_memory(usize::MAX, 1, 4096),
        Err(PlanError::MemoryOverflow)
    );
    assert_eq!(
        minimum_inplace_memory(usize::MAX - 4095, 1, 4096),
        Err(PlanError::ShiftOverflow)
    );
    assert_eq!(
        minimum_inplace_memory(1, 0xFFFF_F001, 4096),
        Err(PlanError::MemoryTooWide)
    );
    assert_eq!(minimum_inplace_memory(0, 0, 4096), Ok(0x2000));
}

#[test]
fn plans_without_layouts() {
    let plan = plan_inplace(4096, Some(0x8000), &[1; 100], &[2; 200]).unwrap();
    assert_eq!(
        plan,
        InplacePlan { memory: 0x8000, base_layout: None, legacy_auto: false }
    );
    let auto = plan_inplace(4096, None, &[1; 100], &[2; 200]).unwrap();
    assert_eq!(
        auto,
        InplacePlan { memory: 0x98000, base_layout: None, legacy_auto: true }
    );
    assert_eq!(
        plan_inplace(0, None, &[], &[]),
        Err(PlanError::SegmentZero)
    );
    assert_eq!(
        plan_inplace(4096, Some(0x8001), &[], &[]).unwrap_err().to_string(),
        "in-place: --inplace-memory (32769) must be a non-zero multiple of --segment-size (4096)"
    );
    assert_eq!(
        plan_inplace(4096, Some(0x2000), &[1; 1], &[]),
        Err(PlanError::TooSmall(0x2000, 0x3000, 1, 0))
    );
    assert_eq!(
        plan_inplace(0x8000, None, &[], &[]).unwrap_err(),
        PlanError::LegacySegment
    );
    assert!(validate_staging_fit(auto, (NRF52_FALLBACK_FLASH_SPAN - 0x98000) as usize).is_ok());
    assert_eq!(
        validate_staging_fit(auto, (NRF52_FALLBACK_FLASH_SPAN - 0x98000 + 1) as usize),
        Err(PlanError::StagingFull(0x98000, 0x15001, 0x16000, 0xAD000))
    );
    assert!(validate_staging_fit(plan, usize::MAX).is_ok());
    assert_eq!(
        validate_staging_fit(auto, usize::MAX),
        Err(PlanError::StagedOverflow)
    );
    assert_eq!(
        PlanError::BaseLayout(LayoutError::SdAndQspi).to_string(),
        "base nRF52 layout record"
    );
}
