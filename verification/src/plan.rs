//! Sizing the in-place apply window of a delta and the flash that it is staged in.
use vstd::arithmetic::div_mod::{lemma_fundamental_div_mod, lemma_fundamental_div_mod_converse};
use vstd::prelude::*;
use vstd::string::*;

use crate::endf::{
    image_layout, law_layout_record_decides, law_layout_rules, parse_nrf52_layout, LayoutError,
    Nrf52Layout,
};
use crate::format::{
    NRF52_FALLBACK_FLASH_SPAN, NRF52_FALLBACK_INPLACE_MEMORY, NRF52_HYBRID_RAM_SIZE,
    NRF52_INPLACE_SEGMENT, NRF52_LAYOUT_FLAG_HYBRID_RAM,
};
use crate::text::{dec, hex_upper, push_dec, push_hex};

verus! {

/// How an in-place delta is applied.
#[derive(Clone, Copy, Debug, PartialEq, Eq, Structural)]
pub struct InplacePlan {
    pub memory: u32,
    /// The running firmware determines where the update is staged and applied.
    pub base_layout: Option<Nrf52Layout>,
    /// Neither an authenticated layout pair nor an explicit memory was available.
    pub legacy_auto: bool,
}

/// Why an in-place delta cannot be planned or staged.
#[derive(Clone, Copy, Debug, PartialEq, Eq, Structural)]
pub enum PlanError {
    SegmentZero,
    BaseLayout(LayoutError),
    TargetLayout(LayoutError),
    /// The base image's length, and what its layout permits.
    BaseTooLarge(usize, u32),
    /// The target image's length, and what its layout permits.
    TargetTooLarge(usize, u32),
    AppBase(u32, u32),
    LayoutSegment,
    MemoryOverflow,
    ShiftOverflow,
    MemoryTooWide,
    MemoryMultiple(u32, u32),
    /// Memory, required memory, and the lengths of base and target.
    LegacyTooSmall(u32, u32, usize, usize),
    /// Memory, required memory, and the lengths of base and target.
    TooSmall(u32, u32, usize, usize),
    LegacySegment,
    WorkspaceExceeded(u32, u32),
    TargetWorkspace(usize, u32),
    StagingSpan,
    StagedOverflow,
    WorkspaceOverflow,
    /// Memory, container length, page-rounded length, and the span that should hold them.
    StagingFull(u32, u64, u64, u32),
}

impl PlanError {
    /// The message of the error.
    pub open spec fn message(self) -> Seq<char> {
        match self {
            PlanError::SegmentZero => "in-place: --segment-size must be non-zero"@,
            PlanError::BaseLayout(_) => "base nRF52 layout record"@,
            PlanError::TargetLayout(_) => "target nRF52 layout record"@,
            PlanError::BaseTooLarge(len, capacity) => "base image is "@ + dec(len as int)
                + " bytes but its authenticated nRF52 layout permits only "@ + dec(capacity as int)
                + " bytes"@,
            PlanError::TargetTooLarge(len, capacity) => "target image is "@ + dec(len as int)
                + " bytes but its authenticated nRF52 layout permits only "@ + dec(capacity as int)
                + " bytes"@,
            PlanError::AppBase(base, target) => "in-place: base app address 0x"@ + hex_upper(
                base as int,
            ) + " != target app address 0x"@ + hex_upper(target as int)
                + "; refusing a cross-SoftDevice layout"@,
            PlanError::LayoutSegment =>
                "in-place: an authenticated nRF52 base layout requires --segment-size 4096"@,
            PlanError::MemoryOverflow => "in-place memory calculation overflow"@,
            PlanError::ShiftOverflow => "in-place base/shift memory calculation overflow"@,
            PlanError::MemoryTooWide => "required in-place memory exceeds 32 bits"@,
            PlanError::MemoryMultiple(memory, segment) => "in-place: --inplace-memory ("@ + dec(
                memory as int,
            ) + ") must be a non-zero multiple of --segment-size ("@ + dec(segment as int) + ")"@,
            PlanError::LegacyTooSmall(memory, minimum, base, target) =>
                "in-place: legacy default memory 0x"@ + hex_upper(memory as int)
                + " is too small for base="@ + dec(base as int) + "B target="@ + dec(target as int)
                + "B; at least 0x"@ + hex_upper(minimum as int)
                + " is required. Build both images with an authenticated mOTALay1 record for automatic sizing, or pass --inplace-memory 0x"@
                + hex_upper(minimum as int)
                + " only after verifying the installed bootloader/storage ceiling"@,
            PlanError::TooSmall(memory, minimum, base, target) => "in-place: --inplace-memory 0x"@
                + hex_upper(memory as int) + " is too small for base="@ + dec(base as int)
                + "B target="@ + dec(target as int) + "B; at least 0x"@ + hex_upper(minimum as int)
                + " is required"@,
            PlanError::LegacySegment =>
                "in-place: legacy automatic sizing requires --segment-size 4096; use an explicit --inplace-memory only for a separately verified custom layout"@,
            PlanError::WorkspaceExceeded(memory, span) => "in-place: memory 0x"@ + hex_upper(
                memory as int,
            ) + " exceeds authenticated nRF52 workspace 0x"@ + hex_upper(span as int),
            PlanError::TargetWorkspace(len, span) => "in-place: target image is "@ + dec(
                len as int,
            ) + " bytes but the running layout's application workspace is "@ + dec(span as int)
                + " bytes"@,
            PlanError::StagingSpan => "invalid nRF52 staging span"@,
            PlanError::StagedOverflow => "staged container size overflow"@,
            PlanError::WorkspaceOverflow => "in-place workspace calculation overflow"@,
            PlanError::StagingFull(memory, total, staged, span) => "in-place: memory 0x"@
                + hex_upper(memory as int) + " plus the "@ + dec(total as int)
                + "-byte container ("@ + dec(staged as int)
                + " bytes page-rounded) exceeds the authenticated staging span 0x"@ + hex_upper(
                span as int,
            ),
        }
    }

    /// Writes the error's message.
    pub fn to_string(&self) -> (s: String)
        ensures
            s@ == self.message(),
    {
        match self {
            PlanError::SegmentZero => String::from_str("in-place: --segment-size must be non-zero"),
            PlanError::BaseLayout(_) => String::from_str("base nRF52 layout record"),
            PlanError::TargetLayout(_) => String::from_str("target nRF52 layout record"),
            PlanError::BaseTooLarge(len, capacity) => {
                let mut s = String::from_str("base image is ");
                push_dec(&mut s, *len as u64);
                s.append(" bytes but its authenticated nRF52 layout permits only ");
                push_dec(&mut s, *capacity as u64);
                s.append(" bytes");
                s
            },
            PlanError::TargetTooLarge(len, capacity) => {
                let mut s = String::from_str("target image is ");
                push_dec(&mut s, *len as u64);
                s.append(" bytes but its authenticated nRF52 layout permits only ");
                push_dec(&mut s, *capacity as u64);
                s.append(" bytes");
                s
            },
            PlanError::AppBase(base, target) => {
                let mut s = String::from_str("in-place: base app address 0x");
                push_hex(&mut s, *base as u64);
                s.append(" != target app address 0x");
                push_hex(&mut s, *target as u64);
                s.append("; refusing a cross-SoftDevice layout");
                s
            },
            PlanError::LayoutSegment => String::from_str(
                "in-place: an authenticated nRF52 base layout requires --segment-size 4096",
            ),
            PlanError::MemoryOverflow => String::from_str("in-place memory calculation overflow"),
            PlanError::ShiftOverflow => String::from_str(
                "in-place base/shift memory calculation overflow",
            ),
            PlanError::MemoryTooWide => String::from_str(
                "required in-place memory exceeds 32 bits",
            ),
            PlanError::MemoryMultiple(memory, segment) => {
                let mut s = String::from_str("in-place: --inplace-memory (");
                push_dec(&mut s, *memory as u64);
                s.append(") must be a non-zero multiple of --segment-size (");
                push_dec(&mut s, *segment as u64);
                s.append(")");
                s
            },
            PlanError::LegacyTooSmall(memory, minimum, base, target) => {
                let mut s = String::from_str("in-place: legacy default memory 0x");
                push_hex(&mut s, *memory as u64);
                s.append(" is too small for base=");
                push_dec(&mut s, *base as u64);
                s.append("B target=");
                push_dec(&mut s, *target as u64);
                s.append("B; at least 0x");
                push_hex(&mut s, *minimum as u64);
                s.append(
                    " is required. Build both images with an authenticated mOTALay1 record for automatic sizing, or pass --inplace-memory 0x",
                );
                push_hex(&mut s, *minimum as u64);
                s.append(" only after verifying the installed bootloader/storage ceiling");
                s
            },
            PlanError::TooSmall(memory, minimum, base, target) => {
                let mut s = String::from_str("in-place: --inplace-memory 0x");
                push_hex(&mut s, *memory as u64);
                s.append(" is too small for base=");
                push_dec(&mut s, *base as u64);
                s.append("B target=");
                push_dec(&mut s, *target as u64);
                s.append("B; at least 0x");
                push_hex(&mut s, *minimum as u64);
                s.append(" is required");
                s
            },
            PlanError::LegacySegment => String::from_str(
                "in-place: legacy automatic sizing requires --segment-size 4096; use an explicit --inplace-memory only for a separately verified custom layout",
            ),
            PlanError::WorkspaceExceeded(memory, span) => {
                let mut s = String::from_str("in-place: memory 0x");
                push_hex(&mut s, *memory as u64);
                s.append(" exceeds authenticated nRF52 workspace 0x");
                push_hex(&mut s, *span as u64);
                s
            },
            PlanError::TargetWorkspace(len, span) => {
                let mut s = String::from_str("in-place: target image is ");
                push_dec(&mut s, *len as u64);
                s.append(" bytes but the running layout's application workspace is ");
                push_dec(&mut s, *span as u64);
                s.append(" bytes");
                s
            },
            PlanError::StagingSpan => String::from_str("invalid nRF52 staging span"),
            PlanError::StagedOverflow => String::from_str("staged container size overflow"),
            PlanError::WorkspaceOverflow => String::from_str(
                "in-place workspace calculation overflow",
            ),
            PlanError::StagingFull(memory, total, staged, span) => {
                let mut s = String::from_str("in-place: memory 0x");
                push_hex(&mut s, *memory as u64);
                s.append(" plus the ");
                push_dec(&mut s, *total);
                s.append("-byte container (");
                push_dec(&mut s, *staged);
                s.append(" bytes page-rounded) exceeds the authenticated staging span 0x");
                push_hex(&mut s, *span as u64);
                s
            },
        }
    }
}

/// The least multiple of `unit` that is at least `n`.
pub open spec fn round_up(n: int, unit: int) -> int {
    (n + unit - 1) / unit * unit
}

/// The memory that an in-place delta needs: the target, or the base behind a shift of two segments,
/// each rounded up to whole segments.
pub open spec fn needed_memory(base_len: int, target_len: int, segment: int) -> int {
    let base = round_up(base_len, segment) + 2 * segment;
    let target = round_up(target_len, segment);
    if base >= target {
        base
    } else {
        target
    }
}

/// The minimum memory, where the computation fits its machine words.
pub open spec fn minimum_memory(base_len: int, target_len: int, segment: u32) -> Result<
    u32,
    PlanError,
> {
    if segment == 0 {
        Err(PlanError::SegmentZero)
    } else if base_len + segment - 1 > u64::MAX {
        Err(PlanError::MemoryOverflow)
    } else if round_up(base_len, segment as int) + 2 * segment > u64::MAX {
        Err(PlanError::ShiftOverflow)
    } else if target_len + segment - 1 > u64::MAX {
        Err(PlanError::MemoryOverflow)
    } else if needed_memory(base_len, target_len, segment as int) > u32::MAX {
        Err(PlanError::MemoryTooWide)
    } else {
        Ok(needed_memory(base_len, target_len, segment as int) as u32)
    }
}

/// A number rounded up to a multiple of a positive unit is the least multiple not below it.
pub proof fn lemma_round_up(n: int, unit: int)
    requires
        unit > 0,
        n >= 0,
    ensures
        n <= round_up(n, unit) < n + unit,
        round_up(n, unit) <= n + unit - 1,
        round_up(n, unit) % unit == 0,
{
    let x = n + unit - 1;
    let q = x / unit;
    lemma_fundamental_div_mod(x, unit);
    assert(q * unit == unit * q) by (nonlinear_arith);
    lemma_fundamental_div_mod_converse(q * unit, unit, q, 0);
}

fn align_up(n: u64, unit: u64) -> (r: Option<u64>)
    requires
        unit > 0,
    ensures
        match r {
            Some(v) => n + unit - 1 <= u64::MAX && v == round_up(n as int, unit as int),
            None => n + unit - 1 > u64::MAX,
        },
{
    proof {
        lemma_round_up(n as int, unit as int);
    }
    match n.checked_add(unit - 1) {
        None => None,
        Some(v) => {
            assert(0 <= v / unit * unit <= v) by (nonlinear_arith)
                requires
                    unit > 0,
                    v >= 0,
            ;
            Some(v / unit * unit)
        },
    }
}

/// The smallest window that satisfies the decoder's destructive-write geometry: the complete target
/// fits in it, and the complete base fits below it with a shift of at least two segments.
pub fn minimum_inplace_memory(base_len: usize, target_len: usize, segment: u32) -> (r: Result<
    u32,
    PlanError,
>)
    ensures
        r == minimum_memory(base_len as int, target_len as int, segment),
{
    if segment == 0 {
        return Err(PlanError::SegmentZero);
    }
    let seg: u64 = segment as u64;
    let base: u64 = match align_up(base_len as u64, seg) {
        None => {
            return Err(PlanError::MemoryOverflow);
        },
        Some(v) => match v.checked_add(2 * seg) {
            None => {
                return Err(PlanError::ShiftOverflow);
            },
            Some(v) => v,
        },
    };
    let target: u64 = match align_up(target_len as u64, seg) {
        None => {
            return Err(PlanError::MemoryOverflow);
        },
        Some(v) => v,
    };
    let needed: u64 = if base >= target {
        base
    } else {
        target
    };
    if needed > u32::MAX as u64 {
        return Err(PlanError::MemoryTooWide);
    }
    Ok(needed as u32)
}

/// What an image with a valid layout may measure.
pub open spec fn layout_capacity(layout: Nrf52Layout) -> int {
    (if layout.linked_app_end <= layout.stage_ceiling {
        layout.linked_app_end
    } else {
        layout.stage_ceiling
    }) - layout.app_base
}

fn capacity_of(layout: Nrf52Layout) -> (r: u32)
    requires
        layout.fault() is None,
    ensures
        r == layout_capacity(layout),
{
    let ceiling: u32 = if layout.linked_app_end <= layout.stage_ceiling {
        layout.linked_app_end
    } else {
        layout.stage_ceiling
    };
    ceiling - layout.app_base
}

/// The application flash that the running firmware may use while it applies an update.
pub open spec fn apply_span(layout: Nrf52Layout) -> int {
    layout.workspace_end() - layout.app_base
}

/// The flash that the in-place window must fit in: all of the application's where the update is
/// staged elsewhere, else what lies below the staging ceiling.
pub open spec fn workspace_span(layout: Nrf52Layout) -> int {
    if layout.stages_externally() {
        apply_span(layout)
    } else {
        layout.stage_ceiling - layout.app_base
    }
}

/// The plan for a pair of images with the given lengths and valid layouts.
pub open spec fn layout_plan(
    segment: u32,
    explicit: Option<u32>,
    base_len: usize,
    base_layout: Option<Nrf52Layout>,
    target_len: usize,
    target_layout: Option<Nrf52Layout>,
) -> Result<InplacePlan, PlanError> {
    let legacy_auto = explicit is None && (base_layout is None || target_layout is None);
    if base_layout matches Some(layout) && base_len > layout_capacity(layout) {
        Err(PlanError::BaseTooLarge(base_len, layout_capacity(base_layout->0) as u32))
    } else if target_layout matches Some(layout) && target_len > layout_capacity(layout) {
        Err(PlanError::TargetTooLarge(target_len, layout_capacity(target_layout->0) as u32))
    } else if base_layout is Some && target_layout is Some && base_layout->0.app_base
        != target_layout->0.app_base {
        Err(PlanError::AppBase(base_layout->0.app_base, target_layout->0.app_base))
    } else if base_layout is Some && segment != NRF52_INPLACE_SEGMENT {
        Err(PlanError::LayoutSegment)
    } else {
        match minimum_memory(base_len as int, target_len as int, segment) {
            Err(e) => Err(e),
            Ok(minimum) => {
                let memory = if explicit is Some {
                    explicit->0
                } else if legacy_auto {
                    NRF52_FALLBACK_INPLACE_MEMORY
                } else {
                    minimum
                };
                if memory == 0 || memory % segment != 0 {
                    Err(PlanError::MemoryMultiple(memory, segment))
                } else if memory < minimum && legacy_auto {
                    Err(PlanError::LegacyTooSmall(memory, minimum, base_len, target_len))
                } else if memory < minimum {
                    Err(PlanError::TooSmall(memory, minimum, base_len, target_len))
                } else if legacy_auto && segment != NRF52_INPLACE_SEGMENT {
                    Err(PlanError::LegacySegment)
                } else if base_layout matches Some(layout) && memory > workspace_span(layout) {
                    Err(
                        PlanError::WorkspaceExceeded(
                            memory,
                            workspace_span(base_layout->0) as u32,
                        ),
                    )
                } else if base_layout matches Some(layout) && target_len > apply_span(layout) {
                    Err(PlanError::TargetWorkspace(target_len, apply_span(base_layout->0) as u32))
                } else {
                    Ok(InplacePlan { memory, base_layout, legacy_auto })
                }
            },
        }
    }
}

/// The plan for a base and a target image.
pub open spec fn inplace_plan(
    segment: u32,
    explicit: Option<u32>,
    base: Seq<u8>,
    target: Seq<u8>,
) -> Result<InplacePlan, PlanError> {
    if segment == 0 {
        Err(PlanError::SegmentZero)
    } else {
        match image_layout(base) {
            Err(e) => Err(PlanError::BaseLayout(e)),
            Ok(base_layout) => match image_layout(target) {
                Err(e) => Err(PlanError::TargetLayout(e)),
                Ok(target_layout) => layout_plan(
                    segment,
                    explicit,
                    base.len() as usize,
                    base_layout,
                    target.len() as usize,
                    target_layout,
                ),
            },
        }
    }
}

/// Plans how a delta from `base_image` to `target_image` is applied in place. `explicit` memory wins
/// over authenticated layout records, and those over the conservative default.
pub fn plan_inplace(
    segment_size: u32,
    explicit: Option<u32>,
    base_image: &[u8],
    target_image: &[u8],
) -> (r: Result<InplacePlan, PlanError>)
    ensures
        r == inplace_plan(segment_size, explicit, base_image@, target_image@),
{
    if segment_size == 0 {
        return Err(PlanError::SegmentZero);
    }
    let base_layout = match parse_nrf52_layout(base_image) {
        Err(e) => {
            return Err(PlanError::BaseLayout(e));
        },
        Ok(layout) => layout,
    };
    let target_layout = match parse_nrf52_layout(target_image) {
        Err(e) => {
            return Err(PlanError::TargetLayout(e));
        },
        Ok(layout) => layout,
    };
    let base_len: usize = base_image.len();
    let target_len: usize = target_image.len();
    if let Some(layout) = base_layout {
        let capacity: u32 = capacity_of(layout);
        if base_len > capacity as usize {
            return Err(PlanError::BaseTooLarge(base_len, capacity));
        }
    }
    if let Some(layout) = target_layout {
        let capacity: u32 = capacity_of(layout);
        if target_len > capacity as usize {
            return Err(PlanError::TargetTooLarge(target_len, capacity));
        }
    }
    if let (Some(base), Some(target)) = (base_layout, target_layout) {
        if base.app_base != target.app_base {
            return Err(PlanError::AppBase(base.app_base, target.app_base));
        }
    }
    if base_layout.is_some() && segment_size != NRF52_INPLACE_SEGMENT {
        return Err(PlanError::LayoutSegment);
    }
    let minimum: u32 = match minimum_inplace_memory(base_len, target_len, segment_size) {
        Err(e) => {
            return Err(e);
        },
        Ok(v) => v,
    };
    let layout_auto = base_layout.is_some() && target_layout.is_some();
    let (memory, legacy_auto): (u32, bool) = match explicit {
        Some(memory) => (memory, false),
        None => if layout_auto {
            (minimum, false)
        } else {
            (NRF52_FALLBACK_INPLACE_MEMORY, true)
        },
    };
    if memory == 0 || memory % segment_size != 0 {
        return Err(PlanError::MemoryMultiple(memory, segment_size));
    }
    if memory < minimum {
        if legacy_auto {
            return Err(PlanError::LegacyTooSmall(memory, minimum, base_len, target_len));
        }
        return Err(PlanError::TooSmall(memory, minimum, base_len, target_len));
    }
    if legacy_auto && segment_size != NRF52_INPLACE_SEGMENT {
        return Err(PlanError::LegacySegment);
    }
    if let Some(layout) = base_layout {
        let apply: u32 = layout.application_ceiling() - layout.app_base;
        let workspace: u32 = if layout.external_backed() {
            apply
        } else {
            layout.stage_ceiling - layout.app_base
        };
        if memory > workspace {
            return Err(PlanError::WorkspaceExceeded(memory, workspace));
        }
        if target_len > apply as usize {
            return Err(PlanError::TargetWorkspace(target_len, apply));
        }
    }
    Ok(InplacePlan { memory, base_layout, legacy_auto })
}

/// The flash that a container of `total` bytes takes: whole pages, and of a hybrid layout only the
/// part that reset-retained RAM does not hold, but never less than one page.
pub open spec fn staged_len(hybrid: bool, total: int) -> int {
    if hybrid {
        let overflow = if total > NRF52_HYBRID_RAM_SIZE {
            total - NRF52_HYBRID_RAM_SIZE
        } else {
            0
        };
        let charge = round_up(overflow, NRF52_INPLACE_SEGMENT as int);
        if charge > NRF52_INPLACE_SEGMENT {
            charge
        } else {
            NRF52_INPLACE_SEGMENT as int
        }
    } else {
        round_up(total, NRF52_INPLACE_SEGMENT as int)
    }
}

/// The flash span that window and staged container share; nothing where none is known to be shared.
pub open spec fn staging_span(plan: InplacePlan) -> Option<int> {
    match plan.base_layout {
        Some(layout) => if layout.stages_externally() {
            None
        } else {
            Some(layout.stage_ceiling - layout.app_base)
        },
        None => if plan.legacy_auto {
            Some(NRF52_FALLBACK_FLASH_SPAN as int)
        } else {
            None
        },
    }
}

/// What keeps a container of `total` bytes from being staged beside the plan's window.
pub open spec fn staging_fault(plan: InplacePlan, total: int) -> Option<PlanError> {
    let hybrid = plan.base_layout matches Some(layout) && layout.has_flag(
        NRF52_LAYOUT_FLAG_HYBRID_RAM,
    );
    let charged = if !hybrid {
        total
    } else if total > NRF52_HYBRID_RAM_SIZE {
        total - NRF52_HYBRID_RAM_SIZE
    } else {
        0
    };
    let staged = staged_len(hybrid, total);
    match staging_span(plan) {
        None => None,
        Some(span) => if span < 0 {
            Some(PlanError::StagingSpan)
        } else if charged + NRF52_INPLACE_SEGMENT - 1 > u64::MAX {
            Some(PlanError::StagedOverflow)
        } else if plan.memory + staged > u64::MAX {
            Some(PlanError::WorkspaceOverflow)
        } else if plan.memory + staged > span {
            Some(PlanError::StagingFull(plan.memory, total as u64, staged as u64, span as u32))
        } else {
            None
        },
    }
}

/// Checks that a container of `total` bytes can be staged beside the window that applies it.
pub fn validate_staging_fit(plan: InplacePlan, total: usize) -> (r: Result<(), PlanError>)
    ensures
        match r {
            Ok(_) => staging_fault(plan, total as int) is None,
            Err(e) => staging_fault(plan, total as int) == Some(e),
        },
{
    let mut hybrid = false;
    let span: u32 = match plan.base_layout {
        Some(layout) => {
            if layout.external_backed() {
                return Ok(());
            }
            hybrid = layout.hybrid_ram();
            match layout.stage_ceiling.checked_sub(layout.app_base) {
                None => {
                    return Err(PlanError::StagingSpan);
                },
                Some(span) => span,
            }
        },
        None => {
            if !plan.legacy_auto {
                return Ok(());
            }
            NRF52_FALLBACK_FLASH_SPAN
        },
    };
    let page: u64 = NRF52_INPLACE_SEGMENT as u64;
    let total: u64 = total as u64;
    let charged: u64 = if hybrid {
        total.saturating_sub(NRF52_HYBRID_RAM_SIZE as u64)
    } else {
        total
    };
    let rounded: u64 = match align_up(charged, page) {
        None => {
            return Err(PlanError::StagedOverflow);
        },
        Some(v) => v,
    };
    // The first page holds header, manifest and approval, and always stays in flash.
    let staged: u64 = if hybrid && rounded < page {
        page
    } else {
        rounded
    };
    let used: u64 = match (plan.memory as u64).checked_add(staged) {
        None => {
            return Err(PlanError::WorkspaceOverflow);
        },
        Some(v) => v,
    };
    if used > span as u64 {
        return Err(PlanError::StagingFull(plan.memory, total, staged, span));
    }
    Ok(())
}

/// The minimum memory is the least that meets the decoder's needs: it holds the target, it holds the
/// base below a shift of two segments, and every whole number of segments that does both is at least
/// as large.
pub proof fn law_minimum_memory_is_least(
    base_len: int,
    target_len: int,
    segment: int,
    other: int,
)
    requires
        0 <= base_len,
        0 <= target_len,
        0 < segment,
    ensures
        ({
            let m = needed_memory(base_len, target_len, segment);
            &&& m % segment == 0
            &&& target_len <= m
            &&& base_len + 2 * segment <= m
            &&& (other % segment == 0 && target_len <= other && base_len + 2 * segment <= other
                ==> m <= other)
        }),
{
    lemma_round_up(base_len, segment);
    lemma_round_up(target_len, segment);
    let base = round_up(base_len, segment);
    let target = round_up(target_len, segment);
    lemma_fundamental_div_mod(base, segment);
    lemma_fundamental_div_mod(target, segment);
    let qb = base / segment;
    let qt = target / segment;
    assert(base + 2 * segment == segment * (qb + 2)) by (nonlinear_arith)
        requires
            base == segment * qb,
    ;
    lemma_fundamental_div_mod_converse(base + 2 * segment, segment, qb + 2, 0);
    if other % segment == 0 && target_len <= other && base_len + 2 * segment <= other {
        lemma_fundamental_div_mod(other, segment);
        let q = other / segment;
        if base + 2 * segment > other {
            assert(q <= qb + 1) by (nonlinear_arith)
                requires
                    segment * (qb + 2) > segment * q,
                    segment > 0,
            ;
            assert(segment * q <= segment * (qb + 1)) by (nonlinear_arith)
                requires
                    q <= qb + 1,
                    segment > 0,
            ;
            assert(segment * (qb + 1) == segment * qb + segment) by (nonlinear_arith);
        }
        if target > other {
            assert(q <= qt - 1) by (nonlinear_arith)
                requires
                    segment * qt > segment * q,
                    segment > 0,
            ;
            assert(segment * q <= segment * (qt - 1)) by (nonlinear_arith)
                requires
                    q <= qt - 1,
                    segment > 0,
            ;
            assert(segment * (qt - 1) == segment * qt - segment) by (nonlinear_arith);
        }
    }
}

/// A hybrid layout never leaves more to RAM than it has, and keeps at least one page in flash.
pub proof fn law_hybrid_ram_suffices(total: int)
    requires
        0 <= total,
    ensures
        total - staged_len(true, total) <= NRF52_HYBRID_RAM_SIZE,
        staged_len(true, total) >= NRF52_INPLACE_SEGMENT,
        staged_len(true, total) % (NRF52_INPLACE_SEGMENT as int) == 0,
{
    if total > NRF52_HYBRID_RAM_SIZE {
        lemma_round_up(total - NRF52_HYBRID_RAM_SIZE, NRF52_INPLACE_SEGMENT as int);
    } else {
        lemma_round_up(0, NRF52_INPLACE_SEGMENT as int);
    }
}

/// A plan's window is a whole number of segments that the decoder can work in, and where the running
/// layout is known it fits the application workspace.
pub proof fn law_plan_is_sound(segment: u32, explicit: Option<u32>, base: Seq<u8>, target: Seq<u8>)
    requires
        base.len() <= usize::MAX,
        target.len() <= usize::MAX,
        inplace_plan(segment, explicit, base, target) is Ok,
    ensures
        ({
            let plan = inplace_plan(segment, explicit, base, target)->Ok_0;
            &&& segment > 0
            &&& plan.memory > 0
            &&& plan.memory % segment == 0
            &&& target.len() <= plan.memory
            &&& base.len() + 2 * segment <= plan.memory
            &&& explicit matches Some(memory) ==> plan.memory == memory
            &&& plan.base_layout matches Some(layout) ==> layout.fault() is None && plan.memory
                <= workspace_span(layout) && target.len() <= apply_span(layout)
                && base.len() <= layout_capacity(layout)
        }),
{
    law_minimum_memory_is_least(base.len() as int, target.len() as int, segment as int, 0);
}

/// A container that may be staged fits beside the window: rounded up to whole flash pages, it lies
/// above the window and below the running layout's staging ceiling.
pub proof fn law_staged_container_fits(plan: InplacePlan, total: int)
    requires
        0 <= total,
        plan.base_layout is Some,
        plan.base_layout->0.fault() is None,
        !plan.base_layout->0.stages_externally(),
        staging_fault(plan, total) is None,
    ensures
        ({
            let layout = plan.base_layout->0;
            let staged = staged_len(layout.has_flag(NRF52_LAYOUT_FLAG_HYBRID_RAM), total);
            &&& layout.app_base + plan.memory + staged <= layout.stage_ceiling
            &&& staged % (NRF52_INPLACE_SEGMENT as int) == 0
            &&& !layout.has_flag(NRF52_LAYOUT_FLAG_HYBRID_RAM) ==> total <= staged
        }),
{
    lemma_round_up(total, NRF52_INPLACE_SEGMENT as int);
    law_hybrid_ram_suffices(total);
}

/// How the window is chosen. Explicit memory is taken as it is. Without it, the window is the
/// conservative 0x98000 bytes wherever either image carries no layout record. Where both carry one,
/// it is the least whole number of segments that holds the target, and the base below a shift of two
/// segments. The plan keeps the running image's layout and tells whether it fell back.
pub proof fn law_window_choice(
    segment: u32,
    explicit: Option<u32>,
    base: Seq<u8>,
    target: Seq<u8>,
    other: int,
)
    requires
        base.len() <= usize::MAX,
        target.len() <= usize::MAX,
        inplace_plan(segment, explicit, base, target) is Ok,
    ensures
        ({
            let plan = inplace_plan(segment, explicit, base, target)->Ok_0;
            let base_layout = image_layout(base);
            let target_layout = image_layout(target);
            &&& base_layout is Ok && target_layout is Ok
            &&& plan.base_layout == base_layout->Ok_0
            &&& explicit matches Some(memory) ==> plan.memory == memory && !plan.legacy_auto
            &&& explicit is None && (base_layout->Ok_0 is None || target_layout->Ok_0 is None)
                ==> plan.memory == 0x98000 && plan.legacy_auto
            &&& explicit is None && base_layout->Ok_0 is Some && target_layout->Ok_0 is Some ==> {
                &&& !plan.legacy_auto
                &&& plan.memory as int % segment as int == 0
                &&& target.len() <= plan.memory
                &&& base.len() + 2 * segment <= plan.memory
                &&& (other % (segment as int) == 0 && target.len() <= other && base.len() + 2
                    * segment <= other ==> plan.memory <= other)
            }
        }),
{
    law_minimum_memory_is_least(base.len() as int, target.len() as int, segment as int, other);
}

/// When a plan exists. Both layout records must be readable. An image with a layout must fit between
/// its application base and the lower of its linked end and its staging ceiling. Two layouts must
/// agree on the application base. The segment is 4096 wherever the base has a layout, and wherever
/// the window is the fallback. The window is a positive whole number of segments that holds the
/// target and the base behind two segments. And where the base has a layout, window and target fit
/// its workspace: up to its linked end with the scratch bit and else up to 0xED000, or for the window
/// of an internally staged update up to the staging ceiling.
pub proof fn law_plan_exists(segment: u32, explicit: Option<u32>, base: Seq<u8>, target: Seq<u8>)
    requires
        base.len() <= usize::MAX,
        target.len() <= usize::MAX,
    ensures
        inplace_plan(segment, explicit, base, target) is Ok <==> {
            let running = image_layout(base)->Ok_0;
            let coming = image_layout(target)->Ok_0;
            let fallback = explicit is None && (running is None || coming is None);
            let given = if explicit is Some {
                explicit->0
            } else {
                0x98000u32
            };
            &&& segment > 0
            &&& image_layout(base) is Ok && image_layout(target) is Ok
            &&& running matches Some(l) ==> l.app_base + base.len() <= l.linked_app_end
                && l.app_base + base.len() <= l.stage_ceiling
            &&& coming matches Some(l) ==> l.app_base + target.len() <= l.linked_app_end
                && l.app_base + target.len() <= l.stage_ceiling
            &&& running is Some && coming is Some ==> running->0.app_base == coming->0.app_base
            &&& running is Some || fallback ==> segment == 4096
            &&& explicit is Some || fallback ==> given > 0 && given as int % segment as int == 0
                && target.len() <= given && base.len() + 2 * segment <= given
            &&& running matches Some(l) ==> {
                let apply_end = if l.flags & 0x08 != 0 {
                    l.linked_app_end
                } else {
                    0xED000u32
                };
                let window_end = if l.flags & 0x01 != 0 || l.flags & 0x04 != 0 {
                    apply_end
                } else {
                    l.stage_ceiling
                };
                &&& l.app_base + target.len() <= apply_end
                &&& explicit is Some || fallback ==> l.app_base + given <= window_end
                &&& explicit is None && !fallback ==> l.app_base + base.len() + 0x2000
                    <= window_end && l.app_base + target.len() <= window_end
            }
        },
{
    if segment > 0 {
        let needed = needed_memory(base.len() as int, target.len() as int, segment as int);
        law_minimum_memory_is_least(
            base.len() as int,
            target.len() as int,
            segment as int,
            explicit->0 as int,
        );
        law_minimum_memory_is_least(
            base.len() as int,
            target.len() as int,
            segment as int,
            0x98000,
        );
        lemma_round_up(base.len() as int, segment as int);
        lemma_round_up(target.len() as int, segment as int);
        if let Ok(Some(l)) = image_layout(base) {
            law_layout_record_decides(base);
            law_layout_rules(l);
            law_minimum_memory_is_least(
                base.len() as int,
                target.len() as int,
                segment as int,
                workspace_span(l),
            );
        }
        if let Ok(Some(l)) = image_layout(target) {
            law_layout_record_decides(target);
            law_layout_rules(l);
        }
    }
}

/// When a container may be staged beside the window: where the whole 4096-byte pages that it takes
/// fit above the window. They end at the staging ceiling of the running layout, or 0xAD000 bytes
/// above the start where the window was the fallback and the running image has no layout. With the
/// hybrid bit 64 KiB of it need no pages, but one page is always used. What is staged outside the
/// internal flash needs none, and with explicit memory and no layout nothing is known to be shared.
pub proof fn law_staging_needs_room(plan: InplacePlan, total: int)
    requires
        0 <= total <= usize::MAX,
        plan.base_layout matches Some(l) ==> l.fault() is None,
    ensures
        ({
            let fits = staging_fault(plan, total) is None;
            let pages = (total + 4095) / 4096;
            match plan.base_layout {
                None => if plan.legacy_auto {
                    fits <==> plan.memory + pages * 4096 <= 0xAD000
                } else {
                    fits
                },
                Some(l) => if l.flags & 0x01 != 0 || l.flags & 0x04 != 0 {
                    fits
                } else if l.flags & 0x10 != 0 {
                    fits <==> l.app_base + plan.memory + (if pages > 17 {
                        (pages - 16) * 4096
                    } else {
                        4096
                    }) <= l.stage_ceiling
                } else {
                    fits <==> l.app_base + plan.memory + pages * 4096 <= l.stage_ceiling
                },
            }
        }),
{
    if let Some(l) = plan.base_layout {
        law_layout_rules(l);
    }
}

/// The minimum window on its own: it exists where the segment is positive and the least whole number
/// of segments that holds the target, and the base behind two segments, fits 32 bits; and it is that
/// number.
pub proof fn law_minimum_window(base_len: usize, target_len: usize, segment: u32, other: int)
    ensures
        ({
            let r = minimum_memory(base_len as int, target_len as int, segment);
            let seg = segment as int;
            let enough = |w: int| w % seg == 0 && target_len <= w && base_len + 2 * seg <= w;
            &&& segment == 0 ==> r == Err::<u32, PlanError>(PlanError::SegmentZero)
            &&& segment > 0 && r is Ok ==> enough(r->Ok_0 as int) && (enough(other) ==> r->Ok_0
                <= other)
            &&& segment > 0 && r is Err ==> (enough(other) ==> other > u32::MAX)
        }),
{
    if segment > 0 {
        law_minimum_memory_is_least(
            base_len as int,
            target_len as int,
            segment as int,
            other,
        );
        lemma_round_up(base_len as int, segment as int);
        lemma_round_up(target_len as int, segment as int);
    }
}

/// Why a plan is refused: a layout record that cannot be read is told with the image that holds it,
/// images for different application bases are told with both, and where the fallback window is too
/// small it is told as the fallback with the window that is needed.
pub proof fn law_plan_refusals(segment: u32, base: Seq<u8>, target: Seq<u8>)
    requires
        segment > 0,
        base.len() <= usize::MAX,
        target.len() <= usize::MAX,
    ensures
        ({
            let r = inplace_plan(segment, None, base, target);
            let (running, coming) = (image_layout(base), image_layout(target));
            &&& running matches Err(e) ==> r == Err::<InplacePlan, PlanError>(
                PlanError::BaseLayout(e),
            )
            &&& running is Ok && coming is Err ==> r == Err::<InplacePlan, PlanError>(
                PlanError::TargetLayout(coming->Err_0),
            )
            &&& r matches Err(PlanError::AppBase(a, b)) ==> running is Ok && coming is Ok
                && running->Ok_0 is Some && coming->Ok_0 is Some && a == running->Ok_0->0.app_base
                && b == coming->Ok_0->0.app_base && a != b
            &&& r matches Err(PlanError::LegacyTooSmall(memory, needed, b, t)) ==> memory == 0x98000
                && needed > 0x98000 && b == base.len() && t == target.len()
            &&& r !is Err || !(r->Err_0 is TooSmall)
        }),
{
}

} // verus!
