//! Building, checking and serving `.mota` firmware-update containers.
//!
//! A `.mota` is a self-verifying package that radio nodes fetch block by block. `format`, `off` and
//! `seeder` hold the wire's vocabulary; `endf`, `version`, `bootloader`, `boards` and `ihex` read
//! firmware images; `plan`, `package`, `bootpack` and `assemble` build containers; `container`,
//! `merkle` and `verify` check them; `serve`, `order`, `capture`, `stream`, `attach` and `transport`
//! serve them to a node; `report` and `numbers` are the command line's text.
#![allow(unused_imports)]

use vstd::prelude::*;

pub mod assemble;
pub mod attach;
pub mod boards;
pub mod bootloader;
pub mod bootpack;
pub mod bytes;
pub mod capture;
pub mod container;
pub mod crypto;
pub mod endf;
pub mod format;
pub mod ihex;
pub mod manifest;
pub mod merkle;
pub mod numbers;
pub mod off;
pub mod order;
pub mod package;
pub mod plan;
pub mod report;
pub mod seeder;
pub mod serve;
pub mod stream;
pub mod text;
pub mod transport;
pub mod verify;
pub mod version;

pub use crate::bootpack::{
    bootloader_version_str, build_bootloader, validate_bootloader_image_for_profile,
    validate_bootloader_inventory, BootloaderBuildOpts,
};
pub use crate::boards::{BootloaderBoard, BootloaderCompatibility, BOOTLOADER_BOARDS};
pub use crate::format::FwIdent;
pub use crate::manifest::{Codec, Manifest};
pub use crate::package::{build, plan_build, BuildOpts, Built, PatchType};
pub use crate::verify::verify;

verus! {

} // verus!
