//! The layout of the external SPI flash as the radio's restore commands see it.

use crate::uart::CHUNK_LENGTH;
use vstd::prelude::*;
use vstd::set_lib::{lemma_int_range, lemma_set_disjoint_lens, set_int_range};

verus! {

/// Size of the MCU firmware image in bytes.
pub const FIRMWARE_SIZE: usize = 60_416;

/// Size of the external SPI flash in bytes (4 MiB).
pub const SPI_FLASH_SIZE: usize = 4_194_304;

/// A region of the SPI flash that one restore opcode writes.
#[derive(Clone, Copy, Debug, PartialEq, Eq, Structural)]
pub struct SpiRange {
    /// Opcode of the write command for this region.
    pub cmd: u8,
    /// Byte offset of the region in the SPI image.
    pub offset: usize,
    /// Length of the region in bytes.
    pub size: usize,
}

impl SpiRange {
    /// A region is a whole number of chunks and lies inside the SPI flash.
    pub open spec fn wf(&self) -> bool {
        self.size % CHUNK_LENGTH == 0 && self.offset + self.size <= SPI_FLASH_SIZE
    }

    /// Number of chunks in the region.
    pub open spec fn chunks(&self) -> nat {
        (self.size / CHUNK_LENGTH) as nat
    }

    /// Two regions share no byte.
    pub open spec fn disjoint(&self, other: SpiRange) -> bool {
        self.offset + self.size <= other.offset || other.offset + other.size <= self.offset
    }
}

/// The regions of a full restore, in the order in which they are written.
pub open spec fn full_restore_table() -> Seq<SpiRange> {
    seq![
        SpiRange { cmd: 0x40, offset: 0, size: 2_949_120 },
        SpiRange { cmd: 0x41, offset: 2_949_120, size: 163_840 },
        SpiRange { cmd: 0x42, offset: 3_112_960, size: 139_264 },
        SpiRange { cmd: 0x43, offset: 3_252_224, size: 8_192 },
        SpiRange { cmd: 0x47, offset: 3_887_104, size: 40_960 },
        SpiRange { cmd: 0x48, offset: 3_928_064, size: 4_096 },
        SpiRange { cmd: 0x49, offset: 3_936_256, size: 40_960 },
        SpiRange { cmd: 0x4b, offset: 4_030_464, size: 40_960 },
        SpiRange { cmd: 0x4c, offset: 3_260_416, size: 626_688 },
    ]
}

/// The one region of a calibration-only restore: 4 KiB at 0x3BF000.
pub open spec fn calibration_table() -> Seq<SpiRange> {
    seq![SpiRange { cmd: 0x48, offset: 3_928_064, size: 4_096 }]
}

/// The regions that a restore writes.
pub open spec fn restore_table(calib_only: bool) -> Seq<SpiRange> {
    if calib_only {
        calibration_table()
    } else {
        full_restore_table()
    }
}

/// Total size in bytes of the first `n` regions of `table`.
pub open spec fn size_before(table: Seq<SpiRange>, n: nat) -> nat
    decreases n,
{
    if n == 0 {
        0
    } else {
        size_before(table, (n - 1) as nat) + table[n - 1].size as nat
    }
}

/// Total size in bytes of the regions of `table`.
pub open spec fn total_size(table: Seq<SpiRange>) -> nat {
    size_before(table, table.len())
}

/// Every region of `table` is a whole number of chunks inside the SPI flash,
/// and no two regions share a byte.
pub open spec fn table_wf(table: Seq<SpiRange>) -> bool {
    &&& forall|i: int| 0 <= i < table.len() ==> (#[trigger] table[i]).wf()
    &&& forall|i: int, j: int|
        0 <= i < j < table.len() ==> (#[trigger] table[i]).disjoint(#[trigger] table[j])
}

/// The regions of a full restore are whole numbers of chunks inside the SPI
/// flash and share no byte, so that together they cover 4,014,080 bytes of it.
pub proof fn lemma_full_table_coverage()
    ensures
        table_wf(full_restore_table()),
        total_size(full_restore_table()) == 4_014_080,
{
    reveal_with_fuel(size_before, 10);
}

/// The byte offsets of the SPI flash that lie in some region of `table`.
pub open spec fn covered(table: Seq<SpiRange>) -> Set<int> {
    Set::new(
        |b: int|
            exists|i: int|
                0 <= i < table.len() && (#[trigger] table[i]).offset <= b < table[i].offset
                    + table[i].size,
    )
}

/// The regions of a full restore cover 4,014,080 bytes of the SPI flash:
/// everything below 0x3C0000, and 40,960 bytes each from 0x3C1000 and from
/// 0x3D8000.
pub proof fn lemma_full_table_measure()
    ensures
        covered(full_restore_table()) == set_int_range(0, 0x3C_0000) + set_int_range(
            0x3C_1000,
            0x3C_B000,
        ) + set_int_range(0x3D_8000, 0x3E_2000),
        covered(full_restore_table()).finite(),
        covered(full_restore_table()).len() == 4_014_080,
{
    let table = full_restore_table();
    let low = set_int_range(0, 0x3C_0000);
    let mid = set_int_range(0x3C_1000, 0x3C_B000);
    let high = set_int_range(0x3D_8000, 0x3E_2000);
    assert forall|b: int| covered(table).contains(b) == (low + mid + high).contains(b) by {
        if (low + mid + high).contains(b) {
            let i: int = if b < 2_949_120 {
                0
            } else if b < 3_112_960 {
                1
            } else if b < 3_252_224 {
                2
            } else if b < 3_260_416 {
                3
            } else if b < 3_887_104 {
                8
            } else if b < 3_928_064 {
                4
            } else if b < 3_932_160 {
                5
            } else if b < 3_977_216 {
                6
            } else {
                7
            };
            assert(table[i].offset <= b < table[i].offset + table[i].size);
        }
    }
    assert(covered(table) =~= low + mid + high);
    lemma_int_range(0, 0x3C_0000);
    lemma_int_range(0x3C_1000, 0x3C_B000);
    lemma_int_range(0x3D_8000, 0x3E_2000);
    assert(low.disjoint(mid));
    lemma_set_disjoint_lens(low, mid);
    assert((low + mid).disjoint(high));
    lemma_set_disjoint_lens(low + mid, high);
}

/// The region of a calibration-only restore is a whole number of chunks
/// inside the SPI flash, 4,096 bytes long, and one of the regions of a full
/// restore.
pub proof fn lemma_calibration_table_coverage()
    ensures
        table_wf(calibration_table()),
        total_size(calibration_table()) == 4_096,
        calibration_table()[0] == full_restore_table()[5],
{
    reveal_with_fuel(size_before, 2);
}

/// The regions that a restore writes, in the order in which it writes them.
pub fn restore_ranges(calib_only: bool) -> (ranges: Vec<SpiRange>)
    ensures
        ranges@ == restore_table(calib_only),
{
    let ranges = if calib_only {
        vec![SpiRange { cmd: 0x48, offset: 3_928_064, size: 4_096 }]
    } else {
        vec![
            SpiRange { cmd: 0x40, offset: 0, size: 2_949_120 },
            SpiRange { cmd: 0x41, offset: 2_949_120, size: 163_840 },
            SpiRange { cmd: 0x42, offset: 3_112_960, size: 139_264 },
            SpiRange { cmd: 0x43, offset: 3_252_224, size: 8_192 },
            SpiRange { cmd: 0x47, offset: 3_887_104, size: 40_960 },
            SpiRange { cmd: 0x48, offset: 3_928_064, size: 4_096 },
            SpiRange { cmd: 0x49, offset: 3_936_256, size: 40_960 },
            SpiRange { cmd: 0x4b, offset: 4_030_464, size: 40_960 },
            SpiRange { cmd: 0x4c, offset: 3_260_416, size: 626_688 },
        ]
    };
    assert(ranges@ =~= restore_table(calib_only));
    ranges
}

} // verus!
