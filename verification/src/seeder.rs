//! The request and response vocabulary of the seeder link.
use vstd::prelude::*;

verus! {

/// `MS`
pub const REQ_MAGIC: [u8; 2] = [0x4D, 0x53];

/// `SM`
pub const RSP_MAGIC: [u8; 2] = [0x53, 0x4D];

pub const OP_COUNT: u8 = 0x01;

pub const OP_DESCRIBE: u8 = 0x02;

pub const OP_READ: u8 = 0x03;

pub const OP_STAT: u8 = 0x04;

pub const OP_BEGIN: u8 = 0x05;

pub const OP_WRITE: u8 = 0x06;

pub const OP_SREAD: u8 = 0x07;

pub const OP_FIN: u8 = 0x08;

pub const OP_DEFLATE_BLOCK: u8 = 0x09;

pub const STATUS_OK: u8 = 0x00;

pub const STATUS_ERR: u8 = 0x01;

/// The length of a described container on the wire.
pub const DESC_WIRE: usize = 38;

/// The most data bytes that one WRITE request carries.
pub const WRITE_MAX: usize = 256;

/// The most bytes of a compressed block that one request may ask for.
pub const DEFLATE_READ_MAX: usize = 192;

/// The source capability bit for compressed blocks.
pub const SOURCE_CAP_DEFLATE_BLOCK: u8 = 0x01;

/// The length of a request's fixed header, for each known operation.
pub open spec fn header_len(op: u8) -> Option<usize> {
    if op == OP_COUNT {
        Some(0)
    } else if op == OP_DESCRIBE {
        Some(1)
    } else if op == OP_READ || op == OP_DEFLATE_BLOCK {
        Some(7)
    } else if op == OP_STAT || op == OP_FIN {
        Some(4)
    } else if op == OP_BEGIN {
        Some(8)
    } else if op == OP_WRITE || op == OP_SREAD {
        Some(10)
    } else {
        None
    }
}

/// The length of the fixed header of a request, or nothing for an unknown operation.
pub fn request_header_len(op: u8) -> (r: Option<usize>)
    ensures
        r == header_len(op),
{
    if op == OP_COUNT {
        Some(0)
    } else if op == OP_DESCRIBE {
        Some(1)
    } else if op == OP_READ || op == OP_DEFLATE_BLOCK {
        Some(7)
    } else if op == OP_STAT || op == OP_FIN {
        Some(4)
    } else if op == OP_BEGIN {
        Some(8)
    } else if op == OP_WRITE || op == OP_SREAD {
        Some(10)
    } else {
        None
    }
}

} // verus!
