//! The boards that are qualified for bootloader packages.
use vstd::prelude::*;
use vstd::string::*;

use crate::bootloader::{
    bootloader_hw_id, bootloader_target_id, hw_id_of, hw_id_text, hw_text, platform_of,
    storage_allowed, target_id_of, usable_name, APP_BASE_S140_V6, APP_BASE_S140_V7, FAMILY_S140,
    LAYOUT_ABI, S140_V6_FWID, S140_V7_FWID, STORAGE_INTERNAL_UPDATE, STORAGE_QSPI_UPDATE,
    STORAGE_SD_UPDATE,
};
use crate::text::str_eq;

verus! {

/// A qualified board.
#[derive(Clone, Copy, Debug, PartialEq, Eq, Structural)]
pub enum BootloaderBoard {
    XiaoNrf52840Ble,
    XiaoNrf52840BleSense,
    HeltecMeshTowerV2,
    HeltecMeshPocket,
    HeltecT096,
    HeltecT1,
    HeltecT114,
    KeepteenLt1,
    MinewsemiMx25le01,
    PromicroNrf52840,
    T1000E,
    ThinknodeM3,
    WiscoreRak3401,
    WiscoreRak4631Board,
    WismeshTag,
    Gat562,
}

/// Every qualified board.
pub const BOOTLOADER_BOARDS: [BootloaderBoard; 16] = [
    BootloaderBoard::XiaoNrf52840Ble,
    BootloaderBoard::XiaoNrf52840BleSense,
    BootloaderBoard::HeltecMeshTowerV2,
    BootloaderBoard::HeltecMeshPocket,
    BootloaderBoard::HeltecT096,
    BootloaderBoard::HeltecT1,
    BootloaderBoard::HeltecT114,
    BootloaderBoard::KeepteenLt1,
    BootloaderBoard::MinewsemiMx25le01,
    BootloaderBoard::PromicroNrf52840,
    BootloaderBoard::T1000E,
    BootloaderBoard::ThinknodeM3,
    BootloaderBoard::WiscoreRak3401,
    BootloaderBoard::WiscoreRak4631Board,
    BootloaderBoard::WismeshTag,
    BootloaderBoard::Gat562,
];

/// The platform that a board's bootloader must be built for.
#[derive(Clone, Copy, Debug, PartialEq, Eq, Structural)]
pub struct BootloaderCompatibility {
    pub softdevice_family: u16,
    pub softdevice_fwid: u16,
    pub app_base: u32,
    pub layout_abi: u16,
}

impl BootloaderBoard {
    /// The name by which a board is selected.
    pub open spec fn spec_name(self) -> Seq<char> {
        match self {
            BootloaderBoard::XiaoNrf52840Ble => "xiao_nrf52840_ble"@,
            BootloaderBoard::XiaoNrf52840BleSense => "xiao_nrf52840_ble_sense"@,
            BootloaderBoard::HeltecMeshTowerV2 => "heltec_mesh_tower_v2"@,
            BootloaderBoard::HeltecMeshPocket => "heltec_mesh_pocket"@,
            BootloaderBoard::HeltecT096 => "heltec_t096"@,
            BootloaderBoard::HeltecT1 => "heltec_t1"@,
            BootloaderBoard::HeltecT114 => "heltec_t114"@,
            BootloaderBoard::KeepteenLt1 => "keepteen_lt1"@,
            BootloaderBoard::MinewsemiMx25le01 => "minewsemi_mx25le01"@,
            BootloaderBoard::PromicroNrf52840 => "promicro_nrf52840"@,
            BootloaderBoard::T1000E => "t1000_e"@,
            BootloaderBoard::ThinknodeM3 => "thinknode_m3"@,
            BootloaderBoard::WiscoreRak3401 => "wiscore_rak3401"@,
            BootloaderBoard::WiscoreRak4631Board => "wiscore_rak4631_board"@,
            BootloaderBoard::WismeshTag => "wismesh_tag"@,
            BootloaderBoard::Gat562 => "gat562"@,
        }
    }

    /// The name by which the board is selected.
    pub fn name(self) -> (r: &'static str)
        ensures
            r@ == self.spec_name(),
    {
        match self {
            BootloaderBoard::XiaoNrf52840Ble => "xiao_nrf52840_ble",
            BootloaderBoard::XiaoNrf52840BleSense => "xiao_nrf52840_ble_sense",
            BootloaderBoard::HeltecMeshTowerV2 => "heltec_mesh_tower_v2",
            BootloaderBoard::HeltecMeshPocket => "heltec_mesh_pocket",
            BootloaderBoard::HeltecT096 => "heltec_t096",
            BootloaderBoard::HeltecT1 => "heltec_t1",
            BootloaderBoard::HeltecT114 => "heltec_t114",
            BootloaderBoard::KeepteenLt1 => "keepteen_lt1",
            BootloaderBoard::MinewsemiMx25le01 => "minewsemi_mx25le01",
            BootloaderBoard::PromicroNrf52840 => "promicro_nrf52840",
            BootloaderBoard::T1000E => "t1000_e",
            BootloaderBoard::ThinknodeM3 => "thinknode_m3",
            BootloaderBoard::WiscoreRak3401 => "wiscore_rak3401",
            BootloaderBoard::WiscoreRak4631Board => "wiscore_rak4631_board",
            BootloaderBoard::WismeshTag => "wismesh_tag",
            BootloaderBoard::Gat562 => "gat562",
        }
    }

    pub open spec fn spec_board_id(self) -> u32 {
        match self {
            BootloaderBoard::XiaoNrf52840Ble => 0x2886_0044,
            BootloaderBoard::XiaoNrf52840BleSense => 0x2886_0045,
            BootloaderBoard::HeltecMeshTowerV2 => 0x239A_0071,
            BootloaderBoard::HeltecMeshPocket => 0x239A_0071,
            BootloaderBoard::HeltecT096 => 0x239A_0071,
            BootloaderBoard::HeltecT1 => 0x239A_0071,
            BootloaderBoard::HeltecT114 => 0x239A_0071,
            BootloaderBoard::KeepteenLt1 => 0x239A_00B3,
            BootloaderBoard::MinewsemiMx25le01 => 0x239A_0029,
            BootloaderBoard::PromicroNrf52840 => 0x239A_00B3,
            BootloaderBoard::T1000E => 0x2886_0057,
            BootloaderBoard::ThinknodeM3 => 0x239A_00DA,
            BootloaderBoard::WiscoreRak3401 => 0x239A_0029,
            BootloaderBoard::WiscoreRak4631Board => 0x239A_0029,
            BootloaderBoard::WismeshTag => 0x239A_0029,
            BootloaderBoard::Gat562 => 0x239A_0029,
        }
    }

    /// The board id that the board's bootloader embeds.
    pub fn board_id(self) -> (r: u32)
        ensures
            r == self.spec_board_id(),
    {
        match self {
            BootloaderBoard::XiaoNrf52840Ble => 0x2886_0044,
            BootloaderBoard::XiaoNrf52840BleSense => 0x2886_0045,
            BootloaderBoard::HeltecMeshTowerV2 => 0x239A_0071,
            BootloaderBoard::HeltecMeshPocket => 0x239A_0071,
            BootloaderBoard::HeltecT096 => 0x239A_0071,
            BootloaderBoard::HeltecT1 => 0x239A_0071,
            BootloaderBoard::HeltecT114 => 0x239A_0071,
            BootloaderBoard::KeepteenLt1 => 0x239A_00B3,
            BootloaderBoard::MinewsemiMx25le01 => 0x239A_0029,
            BootloaderBoard::PromicroNrf52840 => 0x239A_00B3,
            BootloaderBoard::T1000E => 0x2886_0057,
            BootloaderBoard::ThinknodeM3 => 0x239A_00DA,
            BootloaderBoard::WiscoreRak3401 => 0x239A_0029,
            BootloaderBoard::WiscoreRak4631Board => 0x239A_0029,
            BootloaderBoard::WismeshTag => 0x239A_0029,
            BootloaderBoard::Gat562 => 0x239A_0029,
        }
    }

    pub open spec fn spec_device_name(self) -> Seq<char> {
        match self {
            BootloaderBoard::XiaoNrf52840Ble => "XIAO_DFU"@,
            BootloaderBoard::XiaoNrf52840BleSense => "XIAO_DFU"@,
            BootloaderBoard::HeltecMeshTowerV2 => "TOWER_V2_OTA"@,
            BootloaderBoard::HeltecMeshPocket => "MESH_POCKET_OTA"@,
            BootloaderBoard::HeltecT096 => "T096_DFU"@,
            BootloaderBoard::HeltecT1 => "T1_DFU"@,
            BootloaderBoard::HeltecT114 => "T114_DFU"@,
            BootloaderBoard::KeepteenLt1 => "KeepteenLT1_OTA"@,
            BootloaderBoard::MinewsemiMx25le01 => "MX25_DFU"@,
            BootloaderBoard::PromicroNrf52840 => "PROM_DFU"@,
            BootloaderBoard::T1000E => "T1KE_DFU"@,
            BootloaderBoard::ThinknodeM3 => "TNM3_DFU"@,
            BootloaderBoard::WiscoreRak3401 => "3401_DFU"@,
            BootloaderBoard::WiscoreRak4631Board => "4631_DFU"@,
            BootloaderBoard::WismeshTag => "RTAG_DFU"@,
            BootloaderBoard::Gat562 => "GAT562_DFU"@,
        }
    }

    /// The device name that the board's bootloader embeds.
    pub fn device_name(self) -> (r: &'static str)
        ensures
            r@ == self.spec_device_name(),
    {
        match self {
            BootloaderBoard::XiaoNrf52840Ble => "XIAO_DFU",
            BootloaderBoard::XiaoNrf52840BleSense => "XIAO_DFU",
            BootloaderBoard::HeltecMeshTowerV2 => "TOWER_V2_OTA",
            BootloaderBoard::HeltecMeshPocket => "MESH_POCKET_OTA",
            BootloaderBoard::HeltecT096 => "T096_DFU",
            BootloaderBoard::HeltecT1 => "T1_DFU",
            BootloaderBoard::HeltecT114 => "T114_DFU",
            BootloaderBoard::KeepteenLt1 => "KeepteenLT1_OTA",
            BootloaderBoard::MinewsemiMx25le01 => "MX25_DFU",
            BootloaderBoard::PromicroNrf52840 => "PROM_DFU",
            BootloaderBoard::T1000E => "T1KE_DFU",
            BootloaderBoard::ThinknodeM3 => "TNM3_DFU",
            BootloaderBoard::WiscoreRak3401 => "3401_DFU",
            BootloaderBoard::WiscoreRak4631Board => "4631_DFU",
            BootloaderBoard::WismeshTag => "RTAG_DFU",
            BootloaderBoard::Gat562 => "GAT562_DFU",
        }
    }

    pub open spec fn spec_compatibility(self) -> BootloaderCompatibility {
        match self {
            BootloaderBoard::XiaoNrf52840Ble
            | BootloaderBoard::XiaoNrf52840BleSense
            | BootloaderBoard::MinewsemiMx25le01
            | BootloaderBoard::T1000E => BootloaderCompatibility {
                softdevice_family: FAMILY_S140,
                softdevice_fwid: S140_V7_FWID,
                app_base: APP_BASE_S140_V7,
                layout_abi: LAYOUT_ABI,
            },
            _ => BootloaderCompatibility {
                softdevice_family: FAMILY_S140,
                softdevice_fwid: S140_V6_FWID,
                app_base: APP_BASE_S140_V6,
                layout_abi: LAYOUT_ABI,
            },
        }
    }

    /// The platform that the board's bootloader must be built for.
    pub fn compatibility(self) -> (r: BootloaderCompatibility)
        ensures
            r == self.spec_compatibility(),
    {
        match self {
            BootloaderBoard::XiaoNrf52840Ble
            | BootloaderBoard::XiaoNrf52840BleSense
            | BootloaderBoard::MinewsemiMx25le01
            | BootloaderBoard::T1000E => BootloaderCompatibility {
                softdevice_family: FAMILY_S140,
                softdevice_fwid: S140_V7_FWID,
                app_base: APP_BASE_S140_V7,
                layout_abi: LAYOUT_ABI,
            },
            _ => BootloaderCompatibility {
                softdevice_family: FAMILY_S140,
                softdevice_fwid: S140_V6_FWID,
                app_base: APP_BASE_S140_V6,
                layout_abi: LAYOUT_ABI,
            },
        }
    }

    pub open spec fn spec_storage_profile(self) -> u8 {
        match self {
            BootloaderBoard::XiaoNrf52840Ble | BootloaderBoard::XiaoNrf52840BleSense =>
                STORAGE_QSPI_UPDATE,
            _ => STORAGE_INTERNAL_UPDATE,
        }
    }

    /// The storage profile of the board's standard build.
    pub fn storage_profile(self) -> (r: u8)
        ensures
            r == self.spec_storage_profile(),
    {
        match self {
            BootloaderBoard::XiaoNrf52840Ble | BootloaderBoard::XiaoNrf52840BleSense =>
                STORAGE_QSPI_UPDATE,
            _ => STORAGE_INTERNAL_UPDATE,
        }
    }

    pub open spec fn spec_profile_name(self, storage: u8) -> Option<Seq<char>> {
        if storage == self.spec_storage_profile() {
            Some(self.spec_name())
        } else if self == BootloaderBoard::HeltecMeshTowerV2 && storage == STORAGE_SD_UPDATE {
            Some("heltec_mesh_tower_v2_sdcard"@)
        } else {
            None
        }
    }

    /// The name by which the board is selected with a storage profile, if it has that profile.
    pub fn profile_name(self, storage: u8) -> (r: Option<&'static str>)
        ensures
            match r {
                Some(name) => self.spec_profile_name(storage) == Some(name@),
                None => self.spec_profile_name(storage) is None,
            },
    {
        if storage == self.storage_profile() {
            Some(self.name())
        } else if self == BootloaderBoard::HeltecMeshTowerV2 && storage == STORAGE_SD_UPDATE {
            Some("heltec_mesh_tower_v2_sdcard")
        } else {
            None
        }
    }

    /// The board's hardware id.
    pub fn hw_id(self) -> (r: [u8; 32])
        ensures
            r@ == hw_id_of(self.spec_board_id(), self.spec_device_name()),
    {
        proof {
            law_board_is_qualified(self);
        }
        match bootloader_hw_id(self.board_id(), self.device_name()) {
            Ok(hw) => hw,
            Err(_) => [0u8; 32],
        }
    }

    /// The board's hardware id as text.
    pub fn hw_id_str(self) -> (r: String)
        ensures
            r@ == hw_id_text(self.spec_board_id(), self.spec_device_name()),
    {
        hw_text(self.board_id(), self.device_name())
    }

    /// The target id under which the board's bootloader packages are offered.
    pub fn target_id(self) -> (r: u32)
        ensures
            r == target_id_of(self.spec_board_id(), self.spec_device_name()),
    {
        proof {
            law_board_is_qualified(self);
        }
        match bootloader_target_id(self.board_id(), self.device_name()) {
            Ok(id) => id,
            Err(_) => 0,
        }
    }

    /// The qualified board with an embedded identity, if there is one.
    pub fn from_identity(board_id: u32, device_name: &str) -> (r: Option<BootloaderBoard>)
        ensures
            match r {
                Some(b) => b.spec_board_id() == board_id && b.spec_device_name() == device_name@,
                None => forall|b: BootloaderBoard| #[trigger]
                    b.spec_board_id() == board_id ==> b.spec_device_name() != device_name@,
            },
    {
        if board_id == 0x2886_0044 && str_eq(device_name, "XIAO_DFU") {
            return Some(BootloaderBoard::XiaoNrf52840Ble);
        }
        if board_id == 0x2886_0045 && str_eq(device_name, "XIAO_DFU") {
            return Some(BootloaderBoard::XiaoNrf52840BleSense);
        }
        if board_id == 0x239A_0071 && str_eq(device_name, "TOWER_V2_OTA") {
            return Some(BootloaderBoard::HeltecMeshTowerV2);
        }
        if board_id == 0x239A_0071 && str_eq(device_name, "MESH_POCKET_OTA") {
            return Some(BootloaderBoard::HeltecMeshPocket);
        }
        if board_id == 0x239A_0071 && str_eq(device_name, "T096_DFU") {
            return Some(BootloaderBoard::HeltecT096);
        }
        if board_id == 0x239A_0071 && str_eq(device_name, "T1_DFU") {
            return Some(BootloaderBoard::HeltecT1);
        }
        if board_id == 0x239A_0071 && str_eq(device_name, "T114_DFU") {
            return Some(BootloaderBoard::HeltecT114);
        }
        if board_id == 0x239A_00B3 && str_eq(device_name, "KeepteenLT1_OTA") {
            return Some(BootloaderBoard::KeepteenLt1);
        }
        if board_id == 0x239A_0029 && str_eq(device_name, "MX25_DFU") {
            return Some(BootloaderBoard::MinewsemiMx25le01);
        }
        if board_id == 0x239A_00B3 && str_eq(device_name, "PROM_DFU") {
            return Some(BootloaderBoard::PromicroNrf52840);
        }
        if board_id == 0x2886_0057 && str_eq(device_name, "T1KE_DFU") {
            return Some(BootloaderBoard::T1000E);
        }
        if board_id == 0x239A_00DA && str_eq(device_name, "TNM3_DFU") {
            return Some(BootloaderBoard::ThinknodeM3);
        }
        if board_id == 0x239A_0029 && str_eq(device_name, "3401_DFU") {
            return Some(BootloaderBoard::WiscoreRak3401);
        }
        if board_id == 0x239A_0029 && str_eq(device_name, "4631_DFU") {
            return Some(BootloaderBoard::WiscoreRak4631Board);
        }
        if board_id == 0x239A_0029 && str_eq(device_name, "RTAG_DFU") {
            return Some(BootloaderBoard::WismeshTag);
        }
        if board_id == 0x239A_0029 && str_eq(device_name, "GAT562_DFU") {
            return Some(BootloaderBoard::Gat562);
        }
        None
    }

    /// The board whose packages are offered under a target id, if there is one.
    pub fn from_target_id(target_id: u32) -> (r: Option<BootloaderBoard>)
        ensures
            match r {
                Some(b) => target_id_of(b.spec_board_id(), b.spec_device_name()) == target_id,
                None => forall|b: BootloaderBoard|
                    target_id_of(#[trigger] b.spec_board_id(), b.spec_device_name()) != target_id,
            },
    {
        let boards = BOOTLOADER_BOARDS;
        let mut i: usize = 0;
        while i < 16
            invariant
                i <= 16,
                boards == BOOTLOADER_BOARDS,
                forall|k: int|
                    0 <= k < i ==> target_id_of(
                        (#[trigger] BOOTLOADER_BOARDS@[k]).spec_board_id(),
                        BOOTLOADER_BOARDS@[k].spec_device_name(),
                    ) != target_id,
            decreases 16 - i,
        {
            let b = boards[i];
            if b.target_id() == target_id {
                return Some(b);
            }
            i += 1;
        }
        proof {
            assert forall|b: BootloaderBoard|
                target_id_of(#[trigger] b.spec_board_id(), b.spec_device_name()) != target_id by {
                lemma_inventory_is_complete(b);
                let k = choose|k: int| 0 <= k < 16 && #[trigger] BOOTLOADER_BOARDS@[k] == b;
                assert(BOOTLOADER_BOARDS@[k] == b);
            }
        }
        None
    }

    /// The board and storage profile of a selector, if it names one.
    pub fn from_selector(selector: &str) -> (r: Option<(BootloaderBoard, u8)>)
        ensures
            match r {
                Some((b, storage)) => b.spec_profile_name(storage) == Some(selector@),
                None => forall|b: BootloaderBoard, storage: u8|
                    #[trigger] b.spec_profile_name(storage) != Some(selector@),
            },
    {
        if str_eq(selector, "xiao_nrf52840_ble") {
            return Some((BootloaderBoard::XiaoNrf52840Ble, STORAGE_QSPI_UPDATE));
        }
        if str_eq(selector, "xiao_nrf52840_ble_sense") {
            return Some((BootloaderBoard::XiaoNrf52840BleSense, STORAGE_QSPI_UPDATE));
        }
        if str_eq(selector, "heltec_mesh_tower_v2") {
            return Some((BootloaderBoard::HeltecMeshTowerV2, STORAGE_INTERNAL_UPDATE));
        }
        if str_eq(selector, "heltec_mesh_pocket") {
            return Some((BootloaderBoard::HeltecMeshPocket, STORAGE_INTERNAL_UPDATE));
        }
        if str_eq(selector, "heltec_t096") {
            return Some((BootloaderBoard::HeltecT096, STORAGE_INTERNAL_UPDATE));
        }
        if str_eq(selector, "heltec_t1") {
            return Some((BootloaderBoard::HeltecT1, STORAGE_INTERNAL_UPDATE));
        }
        if str_eq(selector, "heltec_t114") {
            return Some((BootloaderBoard::HeltecT114, STORAGE_INTERNAL_UPDATE));
        }
        if str_eq(selector, "keepteen_lt1") {
            return Some((BootloaderBoard::KeepteenLt1, STORAGE_INTERNAL_UPDATE));
        }
        if str_eq(selector, "minewsemi_mx25le01") {
            return Some((BootloaderBoard::MinewsemiMx25le01, STORAGE_INTERNAL_UPDATE));
        }
        if str_eq(selector, "promicro_nrf52840") {
            return Some((BootloaderBoard::PromicroNrf52840, STORAGE_INTERNAL_UPDATE));
        }
        if str_eq(selector, "t1000_e") {
            return Some((BootloaderBoard::T1000E, STORAGE_INTERNAL_UPDATE));
        }
        if str_eq(selector, "thinknode_m3") {
            return Some((BootloaderBoard::ThinknodeM3, STORAGE_INTERNAL_UPDATE));
        }
        if str_eq(selector, "wiscore_rak3401") {
            return Some((BootloaderBoard::WiscoreRak3401, STORAGE_INTERNAL_UPDATE));
        }
        if str_eq(selector, "wiscore_rak4631_board") {
            return Some((BootloaderBoard::WiscoreRak4631Board, STORAGE_INTERNAL_UPDATE));
        }
        if str_eq(selector, "wismesh_tag") {
            return Some((BootloaderBoard::WismeshTag, STORAGE_INTERNAL_UPDATE));
        }
        if str_eq(selector, "gat562") {
            return Some((BootloaderBoard::Gat562, STORAGE_INTERNAL_UPDATE));
        }
        if str_eq(selector, "heltec_mesh_tower_v2_sdcard") {
            return Some((BootloaderBoard::HeltecMeshTowerV2, STORAGE_SD_UPDATE));
        }
        None
    }
}

/// Every board of the inventory has a usable identity, a storage profile that the identity may use,
/// and the platform that the identity must have.
pub proof fn law_board_is_qualified(b: BootloaderBoard)
    ensures
        usable_name(b.spec_board_id(), b.spec_device_name()),
        storage_allowed(b.spec_board_id(), b.spec_device_name(), b.spec_storage_profile()),
        ({
            let c = b.spec_compatibility();
            platform_of(b.spec_board_id(), b.spec_device_name()) == Some(
                (c.softdevice_family, c.softdevice_fwid, c.app_base, c.layout_abi),
            )
        }),
{
    lemma_device_names();
}

/// Two boards of the inventory with the same embedded identity are the same board.
pub proof fn law_identities_are_distinct(a: BootloaderBoard, b: BootloaderBoard)
    requires
        a.spec_board_id() == b.spec_board_id(),
        a.spec_device_name() == b.spec_device_name(),
    ensures
        a == b,
{
    lemma_device_names();
}

proof fn lemma_inventory_is_complete(b: BootloaderBoard)
    ensures
        exists|k: int| 0 <= k < 16 && #[trigger] BOOTLOADER_BOARDS@[k] == b,
{
    assert(BOOTLOADER_BOARDS@[0] == BootloaderBoard::XiaoNrf52840Ble);
    assert(BOOTLOADER_BOARDS@[1] == BootloaderBoard::XiaoNrf52840BleSense);
    assert(BOOTLOADER_BOARDS@[2] == BootloaderBoard::HeltecMeshTowerV2);
    assert(BOOTLOADER_BOARDS@[3] == BootloaderBoard::HeltecMeshPocket);
    assert(BOOTLOADER_BOARDS@[4] == BootloaderBoard::HeltecT096);
    assert(BOOTLOADER_BOARDS@[5] == BootloaderBoard::HeltecT1);
    assert(BOOTLOADER_BOARDS@[6] == BootloaderBoard::HeltecT114);
    assert(BOOTLOADER_BOARDS@[7] == BootloaderBoard::KeepteenLt1);
    assert(BOOTLOADER_BOARDS@[8] == BootloaderBoard::MinewsemiMx25le01);
    assert(BOOTLOADER_BOARDS@[9] == BootloaderBoard::PromicroNrf52840);
    assert(BOOTLOADER_BOARDS@[10] == BootloaderBoard::T1000E);
    assert(BOOTLOADER_BOARDS@[11] == BootloaderBoard::ThinknodeM3);
    assert(BOOTLOADER_BOARDS@[12] == BootloaderBoard::WiscoreRak3401);
    assert(BOOTLOADER_BOARDS@[13] == BootloaderBoard::WiscoreRak4631Board);
    assert(BOOTLOADER_BOARDS@[14] == BootloaderBoard::WismeshTag);
    assert(BOOTLOADER_BOARDS@[15] == BootloaderBoard::Gat562);
}

proof fn lemma_device_names()
    ensures
        "3401_DFU"@ == seq!['3', '4', '0', '1', '_', 'D', 'F', 'U'],
        "4631_DFU"@ == seq!['4', '6', '3', '1', '_', 'D', 'F', 'U'],
        "GAT562_DFU"@ == seq!['G', 'A', 'T', '5', '6', '2', '_', 'D', 'F', 'U'],
        "KeepteenLT1_OTA"@ == seq![
            'K', 'e', 'e', 'p', 't', 'e', 'e', 'n', 'L', 'T', '1', '_', 'O', 'T', 'A',
        ],
        "MESH_POCKET_OTA"@ == seq![
            'M', 'E', 'S', 'H', '_', 'P', 'O', 'C', 'K', 'E', 'T', '_', 'O', 'T', 'A',
        ],
        "MX25_DFU"@ == seq!['M', 'X', '2', '5', '_', 'D', 'F', 'U'],
        "PROM_DFU"@ == seq!['P', 'R', 'O', 'M', '_', 'D', 'F', 'U'],
        "RTAG_DFU"@ == seq!['R', 'T', 'A', 'G', '_', 'D', 'F', 'U'],
        "T096_DFU"@ == seq!['T', '0', '9', '6', '_', 'D', 'F', 'U'],
        "T114_DFU"@ == seq!['T', '1', '1', '4', '_', 'D', 'F', 'U'],
        "T1KE_DFU"@ == seq!['T', '1', 'K', 'E', '_', 'D', 'F', 'U'],
        "T1_DFU"@ == seq!['T', '1', '_', 'D', 'F', 'U'],
        "TNM3_DFU"@ == seq!['T', 'N', 'M', '3', '_', 'D', 'F', 'U'],
        "TOWER_V2_OTA"@ == seq!['T', 'O', 'W', 'E', 'R', '_', 'V', '2', '_', 'O', 'T', 'A'],
        "XIAO_DFU"@ == seq!['X', 'I', 'A', 'O', '_', 'D', 'F', 'U'],
{
    reveal_strlit("3401_DFU");
    reveal_strlit("4631_DFU");
    reveal_strlit("GAT562_DFU");
    reveal_strlit("KeepteenLT1_OTA");
    reveal_strlit("MESH_POCKET_OTA");
    reveal_strlit("MX25_DFU");
    reveal_strlit("PROM_DFU");
    reveal_strlit("RTAG_DFU");
    reveal_strlit("T096_DFU");
    reveal_strlit("T114_DFU");
    reveal_strlit("T1KE_DFU");
    reveal_strlit("T1_DFU");
    reveal_strlit("TNM3_DFU");
    reveal_strlit("TOWER_V2_OTA");
    reveal_strlit("XIAO_DFU");
    assert("3401_DFU"@ =~= seq!['3', '4', '0', '1', '_', 'D', 'F', 'U']);
    assert("4631_DFU"@ =~= seq!['4', '6', '3', '1', '_', 'D', 'F', 'U']);
    assert("GAT562_DFU"@ =~= seq!['G', 'A', 'T', '5', '6', '2', '_', 'D', 'F', 'U']);
    assert("KeepteenLT1_OTA"@ =~= seq![
        'K', 'e', 'e', 'p', 't', 'e', 'e', 'n', 'L', 'T', '1', '_', 'O', 'T', 'A',
    ]);
    assert("MESH_POCKET_OTA"@ =~= seq![
        'M', 'E', 'S', 'H', '_', 'P', 'O', 'C', 'K', 'E', 'T', '_', 'O', 'T', 'A',
    ]);
    assert("MX25_DFU"@ =~= seq!['M', 'X', '2', '5', '_', 'D', 'F', 'U']);
    assert("PROM_DFU"@ =~= seq!['P', 'R', 'O', 'M', '_', 'D', 'F', 'U']);
    assert("RTAG_DFU"@ =~= seq!['R', 'T', 'A', 'G', '_', 'D', 'F', 'U']);
    assert("T096_DFU"@ =~= seq!['T', '0', '9', '6', '_', 'D', 'F', 'U']);
    assert("T114_DFU"@ =~= seq!['T', '1', '1', '4', '_', 'D', 'F', 'U']);
    assert("T1KE_DFU"@ =~= seq!['T', '1', 'K', 'E', '_', 'D', 'F', 'U']);
    assert("T1_DFU"@ =~= seq!['T', '1', '_', 'D', 'F', 'U']);
    assert("TNM3_DFU"@ =~= seq!['T', 'N', 'M', '3', '_', 'D', 'F', 'U']);
    assert("TOWER_V2_OTA"@ =~= seq!['T', 'O', 'W', 'E', 'R', '_', 'V', '2', '_', 'O', 'T', 'A']);
    assert("XIAO_DFU"@ =~= seq!['X', 'I', 'A', 'O', '_', 'D', 'F', 'U']);
}

/// The storage profiles of the boards: the XIAO boards have QSPI (0x0E), every other board internal
/// staging (0x0A), and the MeshTower V2 also the SD card (0x09), under a name of its own.
pub proof fn law_board_profiles(b: BootloaderBoard, storage: u8)
    ensures
        ({
            let xiao = b == BootloaderBoard::XiaoNrf52840Ble || b
                == BootloaderBoard::XiaoNrf52840BleSense;
            let tower = b == BootloaderBoard::HeltecMeshTowerV2;
            &&& b.spec_storage_profile() == if xiao {
                0x0Eu8
            } else {
                0x0Au8
            }
            &&& b.spec_profile_name(storage) == if xiao && storage == 0x0E || !xiao && storage
                == 0x0A {
                Some(b.spec_name())
            } else if tower && storage == 0x09 {
                Some("heltec_mesh_tower_v2_sdcard"@)
            } else {
                None
            }
            &&& b.spec_profile_name(storage) is Some <==> storage_allowed(
                b.spec_board_id(),
                b.spec_device_name(),
                storage,
            )
        }),
{
    lemma_device_names();
}

} // verus!
