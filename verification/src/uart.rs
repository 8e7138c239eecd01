//! One request frame per radio-side opcode, and the reading of what the
//! radio answers.
//!
//! Every request is a fixed-length frame that ends in its checksum. The
//! radio answers a write or an erase with one acknowledgement byte, and a
//! read with a block of 132 bytes that carries 128 bytes of payload.

use crate::frame::{checksum, lemma_seal_verifies, seal, sealed, verify};
use crate::spi::SpiRange;
use vstd::prelude::*;

verus! {

/// Speed of the serial link in baud. The link runs 8 data bits, no parity,
/// one stop bit and no flow control.
pub const BAUD_RATE: u32 = 115_200;

/// Seconds to wait for an answer before a read is given up: long enough for
/// the slowest write to be acknowledged.
pub const READ_TIMEOUT_SECS: u64 = 20;

/// Payload bytes carried by one frame.
pub const CHUNK_LENGTH: usize = 128;

/// Length of a frame that carries a payload: opcode, two offset bytes,
/// payload, checksum.
pub const BLOCK_LENGTH: usize = 132;

/// Length of the radio's answer to an erase or a write.
pub const ACK_LENGTH: usize = 1;

/// The acknowledgement byte that means success.
pub const ACK: u8 = 0x06;

/// Opcode that erases the MCU flash.
pub const OP_ERASE_FLASH: u8 = 0x39;

/// Opcode that writes one chunk of MCU flash.
pub const OP_WRITE_FLASH: u8 = 0x57;

/// Opcode that reads one chunk of SPI flash.
pub const OP_READ_SPI: u8 = 0x52;

/// Second lowest byte of `offset`: what goes on the wire as "offset hi".
pub open spec fn offset_hi(offset: int) -> u8 {
    ((offset / 256) % 256) as u8
}

/// Lowest byte of `offset`: what goes on the wire as "offset lo".
pub open spec fn offset_lo(offset: int) -> u8 {
    (offset % 256) as u8
}

/// The frame that asks the radio to erase its MCU flash.
pub open spec fn erase_frame() -> Seq<u8> {
    seal(seq![OP_ERASE_FLASH, 0u8, 0u8, 0x55u8])
}

/// A frame that carries a payload: opcode, the low 16 bits of `offset`, the
/// payload, and the checksum of all of these.
pub open spec fn chunk_frame(opcode: u8, offset: int, payload: Seq<u8>) -> Seq<u8> {
    seal(seq![opcode, offset_hi(offset), offset_lo(offset)] + payload)
}

/// The 128 bytes of `image` that start at `offset`.
pub open spec fn chunk_at(image: Seq<u8>, offset: int) -> Seq<u8> {
    image.subrange(offset, offset + CHUNK_LENGTH)
}

/// The frame that writes the chunk of `fw` at byte offset `offset` to MCU flash.
pub open spec fn write_flash_frame(offset: int, fw: Seq<u8>) -> Seq<u8> {
    chunk_frame(OP_WRITE_FLASH, offset, chunk_at(fw, offset))
}

/// The frame that asks for chunk number `index` of the SPI flash.
pub open spec fn read_spi_frame(index: u16) -> Seq<u8> {
    seal(seq![OP_READ_SPI, offset_hi(index as int), offset_lo(index as int)])
}

/// The frame that writes the chunk of `spi` at byte offset `offset` to SPI
/// flash, under the opcode of the region it lies in.
pub open spec fn write_spi_frame(opcode: u8, offset: int, spi: Seq<u8>) -> Seq<u8> {
    chunk_frame(opcode, offset, chunk_at(spi, offset))
}

/// The radio accepted a request: it answered with the single byte 0x06.
pub open spec fn acknowledged(response: Seq<u8>) -> bool {
    response.len() == ACK_LENGTH && response[0] == ACK
}

/// The payload of a block read from SPI flash: bytes 3 to 130 of a block of
/// 132 bytes whose checksum holds, and nothing for any other block.
pub open spec fn block_payload(block: Seq<u8>) -> Option<Seq<u8>> {
    if block.len() == BLOCK_LENGTH && sealed(block) {
        Some(block.subrange(3, 131))
    } else {
        None
    }
}

/// The two bytes that carry an offset on the wire: bits 8 to 15, then bits 0
/// to 7. Higher bits are dropped.
fn offset_bytes(offset: usize) -> (bytes: (u8, u8))
    ensures
        bytes.0 == offset_hi(offset as int),
        bytes.1 == offset_lo(offset as int),
{
    let hi: usize = (offset >> 8) & 0xFF;
    let lo: usize = offset & 0xFF;
    assert(hi == (offset / 256) % 256) by (bit_vector)
        requires
            hi == (offset >> 8) & 0xFF,
    ;
    assert(lo == offset % 256) by (bit_vector)
        requires
            lo == offset & 0xFF,
    ;
    (hi as u8, lo as u8)
}

/// Builds a sealed frame from an opcode, an offset and the chunk of `image`
/// at `start`.
fn build_chunk_frame(opcode: u8, offset: usize, image: &[u8], start: usize) -> (frame: Vec<u8>)
    requires
        start + CHUNK_LENGTH <= image.len(),
    ensures
        frame@ == chunk_frame(opcode, offset as int, chunk_at(image@, start as int)),
        frame@.len() == BLOCK_LENGTH,
{
    let mut command: Vec<u8> = Vec::with_capacity(BLOCK_LENGTH);
    command.push(opcode);
    let (hi, lo) = offset_bytes(offset);
    command.push(hi);
    command.push(lo);
    let mut i: usize = 0;
    while i < CHUNK_LENGTH
        invariant
            i <= CHUNK_LENGTH,
            start + CHUNK_LENGTH <= image.len() == image@.len(),
            command@ == seq![opcode, offset_hi(offset as int), offset_lo(offset as int)]
                + image@.subrange(start as int, start + i),
        decreases CHUNK_LENGTH - i,
    {
        command.push(image[start + i]);
        i += 1;
        assert(command@ =~= seq![opcode, offset_hi(offset as int), offset_lo(offset as int)]
            + image@.subrange(start as int, start + i));
    }
    command.push(0);
    let ghost body = command@.drop_last();
    assert(body =~= seq![opcode, offset_hi(offset as int), offset_lo(offset as int)] + chunk_at(
        image@,
        start as int,
    ));
    checksum(command.as_mut_slice());
    proof {
        lemma_seal_verifies(body);
    }
    command
}

/// The request that erases the MCU flash. The radio answers with one
/// acknowledgement byte.
pub fn command_eraseflash() -> (frame: Vec<u8>)
    ensures
        frame@ == erase_frame(),
        frame@.len() == 5,
{
    let mut command: Vec<u8> = vec![0u8, 0u8, 0u8, 0u8, 0u8];
    command[0] = OP_ERASE_FLASH;
    command[3] = 0x55;
    let ghost body = command@.drop_last();
    assert(body =~= seq![OP_ERASE_FLASH, 0u8, 0u8, 0x55u8]);
    checksum(command.as_mut_slice());
    proof {
        lemma_seal_verifies(body);
    }
    command
}

/// The request that writes the 128 bytes of `fw` at byte offset `offset` to
/// MCU flash. Only the low 16 bits of the offset go on the wire. The radio
/// answers with one acknowledgement byte.
pub fn command_writeflash(offset: usize, fw: &[u8]) -> (frame: Vec<u8>)
    requires
        offset + CHUNK_LENGTH <= fw.len(),
    ensures
        frame@ == write_flash_frame(offset as int, fw@),
        frame@.len() == BLOCK_LENGTH,
{
    build_chunk_frame(OP_WRITE_FLASH, offset, fw, offset)
}

/// The request that reads chunk number `offset` of the SPI flash. The radio
/// answers with a block of 132 bytes.
pub fn command_readspiflash(offset: u16) -> (frame: Vec<u8>)
    ensures
        frame@ == read_spi_frame(offset),
        frame@.len() == 4,
{
    let mut command: Vec<u8> = vec![0u8, 0u8, 0u8, 0u8];
    command[0] = OP_READ_SPI;
    let (hi, lo) = offset_bytes(offset as usize);
    command[1] = hi;
    command[2] = lo;
    let ghost body = command@.drop_last();
    assert(body =~= seq![
        OP_READ_SPI,
        offset_hi(offset as int),
        offset_lo(offset as int),
    ]);
    checksum(command.as_mut_slice());
    proof {
        lemma_seal_verifies(body);
    }
    command
}

/// The request that writes the 128 bytes of `spi` at byte offset `offset` to
/// SPI flash, under the opcode of `range`. Only the low 16 bits of the offset
/// go on the wire. The radio answers with one acknowledgement byte.
pub fn command_writespiflash(range: &SpiRange, offset: usize, spi: &[u8]) -> (frame: Vec<u8>)
    requires
        offset + CHUNK_LENGTH <= spi.len(),
    ensures
        frame@ == write_spi_frame(range.cmd, offset as int, spi@),
        frame@.len() == BLOCK_LENGTH,
{
    build_chunk_frame(range.cmd, offset, spi, offset)
}

/// Reads the radio's answer to an erase or a write: true for the single byte
/// 0x06, false for anything else.
pub fn is_acknowledged(response: &[u8]) -> (ok: bool)
    ensures
        ok == acknowledged(response@),
{
    response.len() == ACK_LENGTH && response[0] == ACK
}

/// Reads a block that the radio sent in answer to a read request: the 128
/// payload bytes where the block has 132 bytes and its checksum holds,
/// nothing otherwise.
pub fn read_block(block: &[u8]) -> (payload: Option<Vec<u8>>)
    ensures
        payload is Some == block_payload(block@) is Some,
        payload is Some ==> payload->0@ == block_payload(block@)->0,
        payload is Some ==> payload->0@.len() == CHUNK_LENGTH,
{
    if block.len() != BLOCK_LENGTH || !verify(block) {
        return None;
    }
    let mut data: Vec<u8> = Vec::with_capacity(CHUNK_LENGTH);
    let mut i: usize = 0;
    while i < CHUNK_LENGTH
        invariant
            i <= CHUNK_LENGTH,
            block@.len() == BLOCK_LENGTH,
            data@ == block@.subrange(3, 3 + i),
        decreases CHUNK_LENGTH - i,
    {
        data.push(block[3 + i]);
        i += 1;
        assert(data@ =~= block@.subrange(3, 3 + i));
    }
    Some(data)
}

} // verus!
