# motatool

Builds, verifies, inspects and serves `.mota` firmware-update containers: self-verifying packages
that radio nodes fetch block by block. The library is written in Verus: its functions are verified
against their contracts, all but the few small ones, listed below, that call other crates or the
standard library. The command line in `app/` does the input and output around it.

| Module | What it holds |
|---|---|
| `format`, `off`, `seeder`, `manifest` | the wire's constants, the manifest's fields, the request vocabulary |
| `bytes`, `text`, `numbers`, `crypto` | little-endian fields, number formatting and parsing, digests and signatures |
| `endf`, `version` | the firmware identity trailer, the flash layout record, packed versions |
| `bootloader`, `boards`, `bootpack`, `ihex` | the format-3 bootloader profile, the qualified boards, their packages, Intel HEX |
| `plan`, `package`, `assemble` | sizing an in-place delta, building a container, writing it |
| `container`, `merkle`, `verify` | parsing a container, its Merkle tree, everything that can be wrong with it |
| `serve`, `order`, `capture`, `stream`, `attach`, `transport` | answering a node's requests, the order of a served folder, what a capture holds, the shared byte stream, the handshake, block sizes |
| `report` | the lines that the commands print |

Properties that span several functions are public proof functions named `law_…`: that a trailer, a
layout, a manifest and a container read back as they were written, that what is built verifies, that
building is deterministic, that console text passes through the stream unharmed and requests are
received as they were sent, that text is never sent into binary framing, that a capture gives back
what was written to it, that a folder's order does not depend on how its files were found, that a
corrupted bootloader image is refused, and others.

What is believed and not proved stands behind small functions with stated contracts: of other crates
the calls into `sha2`, `ed25519-dalek`, `flate2` and `hex`; of the standard library
`String::from_utf8_lossy`, the `Debug` form of `str`, `String::push`, and `PathBuf` as an opaque type.
