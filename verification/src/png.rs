//! PNG signature and IHDR header parsing.
//!
//! A PNG file starts with a fixed 8-byte signature, followed by the IHDR
//! chunk: a 4-byte length, the 4-byte chunk type `IHDR`, then the payload
//! whose first eight bytes are the big-endian width and height. Exactly the
//! first 24 bytes of the file are inspected; nothing else is validated.

use vstd::prelude::*;
use crate::errors::FileError;

verus! {

/// Pixel dimensions read from a PNG IHDR chunk.
#[derive(Clone, Copy, Debug, PartialEq, Eq, Structural)]
pub struct Dimensions {
    pub width: u32,
    pub height: u32,
}

/// The fixed 8-byte PNG file signature.
pub open spec fn png_signature() -> Seq<u8> {
    seq![0x89u8, 0x50u8, 0x4eu8, 0x47u8, 0x0du8, 0x0au8, 0x1au8, 0x0au8]
}

/// Whether the bytes begin with the PNG signature.
pub open spec fn has_png_signature(b: Seq<u8>) -> bool {
    b.len() >= 8 && b.subrange(0, 8) == png_signature()
}

/// The chunk type `IHDR` as its four ASCII bytes.
pub open spec fn ihdr_type() -> Seq<u8> {
    seq![0x49u8, 0x48u8, 0x44u8, 0x52u8]
}

/// The value of four bytes read as one big-endian 32-bit integer.
pub open spec fn be_u32(b0: u8, b1: u8, b2: u8, b3: u8) -> nat {
    (b0 as nat) * 0x1000000 + (b1 as nat) * 0x10000 + (b2 as nat) * 0x100 + (b3 as nat)
}

/// A well-formed start of a PNG file: at least 24 bytes, the signature,
/// and an IHDR chunk type right after the 4-byte chunk length.
pub open spec fn png_header_ok(b: Seq<u8>) -> bool {
    &&& b.len() >= 24
    &&& has_png_signature(b)
    &&& b.subrange(12, 16) == ihdr_type()
}

/// The width stored in a well-formed PNG header.
pub open spec fn png_width(b: Seq<u8>) -> nat {
    be_u32(b[16], b[17], b[18], b[19])
}

/// The height stored in a well-formed PNG header.
pub open spec fn png_height(b: Seq<u8>) -> nat {
    be_u32(b[20], b[21], b[22], b[23])
}

/// Four bytes combined into one big-endian 32-bit integer.
pub fn be_u32_exec(b0: u8, b1: u8, b2: u8, b3: u8) -> (r: u32)
    ensures
        r as nat == be_u32(b0, b1, b2, b3),
{
    (b0 as u32) * 0x1000000 + (b1 as u32) * 0x10000 + (b2 as u32) * 0x100 + (b3 as u32)
}

/// Whether the bytes begin with the PNG signature.
pub fn check_png_signature(bytes: &Vec<u8>) -> (r: bool)
    ensures
        r == has_png_signature(bytes@),
{
    if bytes.len() < 8 {
        return false;
    }
    let sig_ok = bytes[0] == 0x89 && bytes[1] == 0x50 && bytes[2] == 0x4e && bytes[3] == 0x47
        && bytes[4] == 0x0d && bytes[5] == 0x0a && bytes[6] == 0x1a && bytes[7] == 0x0a;
    proof {
        if sig_ok {
            assert(bytes@.subrange(0, 8) =~= png_signature());
        } else {
            assert(!has_png_signature(bytes@)) by {
                if has_png_signature(bytes@) {
                    assert(forall|i: int|
                        0 <= i < 8 ==> bytes@.subrange(0, 8)[i] == bytes@[i]);
                    assert(bytes@[0] == 0x89u8 && bytes@[1] == 0x50u8 && bytes@[2] == 0x4eu8
                        && bytes@[3] == 0x47u8 && bytes@[4] == 0x0du8 && bytes@[5] == 0x0au8
                        && bytes@[6] == 0x1au8 && bytes@[7] == 0x0au8);
                }
            }
        }
    }
    sig_ok
}

/// Reads the pixel dimensions out of the first 24 bytes of a PNG file.
///
/// Fails with `FormatError` when fewer than 24 bytes are given, when the
/// signature does not match, or when the chunk type is not `IHDR`; there is
/// no partial result.
pub fn read_dimensions(bytes: &Vec<u8>) -> (r: Result<Dimensions, FileError>)
    ensures
        r is Ok <==> png_header_ok(bytes@),
        r matches Ok(d) ==> d.width as nat == png_width(bytes@) && d.height as nat == png_height(
            bytes@,
        ),
        r is Err ==> r == Err::<Dimensions, FileError>(FileError::FormatError),
{
    if bytes.len() < 24 {
        return Err(FileError::FormatError);
    }
    if !check_png_signature(bytes) {
        return Err(FileError::FormatError);
    }
    let type_ok = bytes[12] == 0x49 && bytes[13] == 0x48 && bytes[14] == 0x44 && bytes[15] == 0x52;
    if !type_ok {
        proof {
            assert(bytes@.subrange(12, 16) != ihdr_type()) by {
                if bytes@.subrange(12, 16) == ihdr_type() {
                    assert(forall|i: int|
                        0 <= i < 4 ==> bytes@.subrange(12, 16)[i] == bytes@[12 + i]);
                    assert(bytes@[12] == 0x49u8 && bytes@[13] == 0x48u8 && bytes@[14] == 0x44u8
                        && bytes@[15] == 0x52u8);
                }
            }
        }
        return Err(FileError::FormatError);
    }
    proof {
        assert(bytes@.subrange(12, 16) =~= ihdr_type());
    }
    let width = be_u32_exec(bytes[16], bytes[17], bytes[18], bytes[19]);
    let height = be_u32_exec(bytes[20], bytes[21], bytes[22], bytes[23]);
    Ok(Dimensions { width, height })
}

} // verus!
