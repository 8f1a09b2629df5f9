//! The exFAT volume reader: boot-sector search, volume geometry, and
//! directory enumeration.
//!
//! On-disk references: the boot sector carries an 8-byte filesystem-name
//! signature at offset 3, a 2-byte boot signature in its final two bytes, and
//! the volume geometry fields at fixed little-endian offsets. Directories are
//! arrays of 32-byte entries; a primary file entry governs a counted run of
//! secondary entries (stream extension, name fragments) that may cross into
//! the following sector, so enumeration keeps a two-sector lookahead window.

use vstd::bytes::spec_u16_from_le_bytes;
use vstd::bytes::spec_u32_from_le_bytes;
use vstd::bytes::spec_u64_from_le_bytes;
use vstd::prelude::*;

use crate::binary_helpers::bit_on;
use crate::block_device::BlockDevice;
use crate::bytes::le_u16_at;
use crate::bytes::le_u32_at;
use crate::bytes::le_u64_at;
use crate::BLOCK_SIZE;

verus! {

/// Sector size assumed throughout: one storage block.
pub const SECTOR_SIZE: usize = BLOCK_SIZE;

/// Bytes in one directory entry record.
pub const DIRECTORY_ENTRY_BYTES: usize = 32;

/// Directory entries held by one sector.
pub const DIRECTORY_ENTRIES_PER_SECTOR: usize = SECTOR_SIZE / DIRECTORY_ENTRY_BYTES;

/// Cap on how many records one directory listing returns; longer directories
/// are truncated, which is not an error.
pub const DIR_LENGTH_LIMIT: usize = 205;

/// Cap on the encoded byte length of one file name.
pub const MAX_FILE_NAME_LENGTH: usize = 255;

/// Whether a listed file record is a file or a directory.
#[derive(PartialEq, Eq, Structural, Debug, Clone, Copy)]
pub enum FileType {
    Directory,
    File,
}

/// Errors of the volume reader.
#[derive(PartialEq, Eq, Structural, Debug, Clone, Copy)]
pub enum FsError {
    /// No candidate sector carried the filesystem-name signature.
    NoBootSector,
    /// The filesystem name matched but the trailing boot signature did not.
    InvalidBootSignature,
    /// The storage device failed a read.
    ReadFail,
    /// A file name could not be decoded, or would exceed its bound.
    ErrorDecodingName,
}

/// One file or folder record produced by directory enumeration.
///
/// The name is kept as decoded characters; its encoded length is bounded by
/// [`MAX_FILE_NAME_LENGTH`] bytes.
#[derive(Debug)]
pub struct FsEntry {
    pub name: Vec<char>,
    pub file_type: FileType,
    /// First cluster of the file's cluster chain.
    pub first_cluster: u32,
    /// Actual length of the file in bytes.
    pub valid_data_length: u64,
    /// Total size of the file in bytes.
    pub data_length: u64,
}

/// Mathematical model of an [`FsEntry`]: the name as its sequence of Unicode
/// scalar values.
#[verifier::ext_equal]
pub struct FsEntrySpec {
    pub name: Seq<u32>,
    pub file_type: FileType,
    pub first_cluster: u32,
    pub valid_data_length: u64,
    pub data_length: u64,
}

impl View for FsEntry {
    type V = FsEntrySpec;

    open spec fn view(&self) -> FsEntrySpec {
        FsEntrySpec {
            name: self.name@.map_values(|c: char| c as u32),
            file_type: self.file_type,
            first_cluster: self.first_cluster,
            valid_data_length: self.valid_data_length,
            data_length: self.data_length,
        }
    }
}

impl FsEntry {
    /// A blank record, before any secondary entry has filled it in.
    fn new() -> (r: FsEntry)
        ensures
            r@.name == Seq::<u32>::empty(),
            r@.file_type == FileType::Directory,
            r@.first_cluster == 0u32,
            r@.valid_data_length == 0u64,
            r@.data_length == 0u64,
    {
        FsEntry {
            name: Vec::new(),
            file_type: FileType::Directory,
            first_cluster: 0,
            valid_data_length: 0,
            data_length: 0,
        }
    }
}

/// The sector addresses tried when searching for the boot sector, covering
/// common partition-alignment conventions.
pub open spec fn boot_candidates() -> Seq<u32> {
    seq![0u32, 65536u32, 32768u32, 2048u32]
}

/// The 8-byte filesystem-name signature expected at offset 3 of the boot
/// sector.
pub open spec fn filesystem_name() -> Seq<u8> {
    seq![0x45u8, 0x58u8, 0x46u8, 0x41u8, 0x54u8, 0x20u8, 0x20u8, 0x20u8]
}

/// The filesystem-name signature is present in sector `s`.
pub open spec fn name_matches(s: Seq<u8>) -> bool {
    s.len() == SECTOR_SIZE && s.subrange(0x003, 0x00b) == filesystem_name()
}

/// The 2-byte boot signature closes sector `s`.
pub open spec fn sig_matches(s: Seq<u8>) -> bool {
    s.len() == SECTOR_SIZE && s[0x1fe] == 0x55u8 && s[0x1ff] == 0xaau8
}

/// Candidate `i` is the first whose sector carries the filesystem name.
pub open spec fn found_at<T: BlockDevice>(d: T, i: int) -> bool {
    &&& 0 <= i < boot_candidates().len()
    &&& name_matches(d.block_at(boot_candidates()[i]))
    &&& forall|j: int| 0 <= j < i ==> !name_matches(d.block_at(boot_candidates()[j]))
}

/// The boot sector the candidate search would settle on encodes the sector
/// size this reader was built for. A mismatched shift is a fatal
/// configuration error, not a recoverable one, so volume opening excludes
/// it by precondition; a caller that cannot rule it out must search with
/// [`get_boot_sector`] first and halt on a mismatch.
pub open spec fn boot_sector_size_supported<T: BlockDevice>(d: T) -> bool {
    forall|i: int|
        found_at(d, i) && sig_matches(#[trigger] d.block_at(boot_candidates()[i])) ==> (1u64 << (
        d.block_at(boot_candidates()[i])[0x06c] as u64)) == SECTOR_SIZE as u64
}

/// Checks the filesystem-name signature of a sector.
fn is_boot_name(b: &[u8; BLOCK_SIZE]) -> (r: bool)
    ensures
        r <==> name_matches(b@),
{
    let r = b[3] == 0x45 && b[4] == 0x58 && b[5] == 0x46 && b[6] == 0x41 && b[7] == 0x54 && b[8]
        == 0x20 && b[9] == 0x20 && b[10] == 0x20;
    proof {
        if r {
            assert(b@.subrange(0x003, 0x00b) =~= filesystem_name());
        } else {
            assert(b@.subrange(0x003, 0x00b) != filesystem_name()) by {
                if b@.subrange(0x003, 0x00b) == filesystem_name() {
                    assert(forall|k: int|
                        0 <= k < 8 ==> b@[3 + k] == #[trigger] filesystem_name()[k]);
                }
            }
        }
    }
    r
}

/// Checks the trailing boot signature of a sector.
fn has_boot_signature(b: &[u8; BLOCK_SIZE]) -> (r: bool)
    ensures
        r <==> sig_matches(b@),
{
    b[0x1fe] == 0x55 && b[0x1ff] == 0xaa
}

/// Searches the candidate addresses for the exFAT boot sector.
///
/// The first candidate whose sector carries the filesystem name decides the
/// outcome: its sector is returned when the boot signature is also present,
/// and `InvalidBootSignature` is reported when it is not. When no candidate
/// carries the name the search fails with `NoBootSector`, and any failed read
/// aborts it with `ReadFail`.
pub fn get_boot_sector<T: BlockDevice>(block_device: &mut T) -> (r: Result<
    [u8; BLOCK_SIZE],
    FsError,
>)
    ensures
        forall|a: u32| #[trigger]
            final(block_device).block_at(a) == old(block_device).block_at(a),
        r matches Ok(s) ==> exists|i: int|
            #![auto]
            found_at(*old(block_device), i) && sig_matches(
                old(block_device).block_at(boot_candidates()[i]),
            ) && s@ == old(block_device).block_at(boot_candidates()[i]),
        r == Err::<[u8; BLOCK_SIZE], FsError>(FsError::InvalidBootSignature) ==> exists|i: int|
            #![auto]
            found_at(*old(block_device), i) && !sig_matches(
                old(block_device).block_at(boot_candidates()[i]),
            ),
        r == Err::<[u8; BLOCK_SIZE], FsError>(FsError::NoBootSector) ==> forall|i: int|
            0 <= i < boot_candidates().len() ==> !name_matches(
                #[trigger] old(block_device).block_at(boot_candidates()[i]),
            ),
        r is Err ==> (r == Err::<[u8; BLOCK_SIZE], FsError>(FsError::NoBootSector) || r
            == Err::<[u8; BLOCK_SIZE], FsError>(FsError::InvalidBootSignature) || r
            == Err::<[u8; BLOCK_SIZE], FsError>(FsError::ReadFail)),
{
    let candidates: [u32; 4] = [0, 65536, 32768, 2048];
    proof {
        assert(candidates@ =~= boot_candidates());
    }
    let mut k: usize = 0;
    while k < 4
        invariant
            k <= 4,
            candidates@ =~= boot_candidates(),
            forall|a: u32| #[trigger]
                block_device.block_at(a) == old(block_device).block_at(a),
            forall|j: int|
                0 <= j < k ==> !name_matches(
                    #[trigger] old(block_device).block_at(boot_candidates()[j]),
                ),
        decreases 4 - k,
    {
        let addr = candidates[k];
        match block_device.read_block(addr) {
            Ok(sector) => {
                if is_boot_name(&sector) {
                    proof {
                        assert(sector@ == old(block_device).block_at(boot_candidates()[k as int]));
                        assert(found_at(*old(block_device), k as int));
                    }
                    if has_boot_signature(&sector) {
                        return Ok(sector);
                    } else {
                        return Err(FsError::InvalidBootSignature);
                    }
                }
            },
            Err(()) => {
                return Err(FsError::ReadFail);
            },
        }
        k += 1;
    }
    Err(FsError::NoBootSector)
}

/// An opened exFAT volume: the storage device together with the geometry
/// parsed from its boot sector.
pub struct ExFat<T: BlockDevice> {
    pub block_device: T,
    /// Sector offset where the exFAT volume begins.
    pub partition_offset: u64,
    /// Total number of sectors in the volume.
    pub volume_length: u64,
    /// Sector offset of the file allocation table.
    pub fat_offset: u32,
    /// Length of the file allocation table in sectors.
    pub fat_length: u32,
    /// Sector offset of the start of the cluster heap.
    pub cluster_heap_offset: u32,
    /// Total number of clusters.
    pub cluster_count: u32,
    /// Cluster index of the root directory.
    pub first_cluster_of_root_directory: u32,
    /// Unique volume id.
    pub volume_serial_number: u32,
    /// Flags related to allocation and FAT mirroring.
    pub volume_flags: u16,
    /// Shift value giving bytes per sector.
    pub bytes_per_sector_shift: u8,
    /// Shift value giving sectors per cluster.
    pub sectors_per_cluster_shift: u8,
    /// Number of FATs on the volume.
    pub number_of_fats: u8,
    /// Extended boot-sector drive-select field.
    pub drive_select: u8,
    /// Approximate percentage of clusters in use.
    pub percent_in_use: u8,
}

impl<T: BlockDevice> ExFat<T> {
    /// The geometry fields equal the little-endian fields of boot sector `s`.
    pub open spec fn geometry_parsed(self, s: Seq<u8>) -> bool {
        &&& self.partition_offset == spec_u64_from_le_bytes(s.subrange(0x040, 0x048))
        &&& self.volume_length == spec_u64_from_le_bytes(s.subrange(0x048, 0x050))
        &&& self.fat_offset == spec_u32_from_le_bytes(s.subrange(0x050, 0x054))
        &&& self.fat_length == spec_u32_from_le_bytes(s.subrange(0x054, 0x058))
        &&& self.cluster_heap_offset == spec_u32_from_le_bytes(s.subrange(0x058, 0x05c))
        &&& self.cluster_count == spec_u32_from_le_bytes(s.subrange(0x05c, 0x060))
        &&& self.first_cluster_of_root_directory == spec_u32_from_le_bytes(
            s.subrange(0x060, 0x064),
        )
        &&& self.volume_serial_number == spec_u32_from_le_bytes(s.subrange(0x064, 0x068))
        &&& self.volume_flags == spec_u16_from_le_bytes(s.subrange(0x06a, 0x06c))
        &&& self.bytes_per_sector_shift == s[0x06c]
        &&& self.sectors_per_cluster_shift == s[0x06d]
        &&& self.number_of_fats == s[0x06e]
        &&& self.drive_select == s[0x06f]
        &&& self.percent_in_use == s[0x070]
    }

    /// The geometry fields of `self` and `other` agree.
    pub open spec fn same_geometry(self, other: Self) -> bool {
        &&& self.partition_offset == other.partition_offset
        &&& self.volume_length == other.volume_length
        &&& self.fat_offset == other.fat_offset
        &&& self.fat_length == other.fat_length
        &&& self.cluster_heap_offset == other.cluster_heap_offset
        &&& self.cluster_count == other.cluster_count
        &&& self.first_cluster_of_root_directory == other.first_cluster_of_root_directory
        &&& self.volume_serial_number == other.volume_serial_number
        &&& self.volume_flags == other.volume_flags
        &&& self.bytes_per_sector_shift == other.bytes_per_sector_shift
        &&& self.sectors_per_cluster_shift == other.sectors_per_cluster_shift
        &&& self.number_of_fats == other.number_of_fats
        &&& self.drive_select == other.drive_select
        &&& self.percent_in_use == other.percent_in_use
    }

    /// Opens the volume on `block_device`: finds the boot sector and parses
    /// every geometry field from it. The search's errors are the only ones
    /// it returns; the fatal sector-size configuration check is a
    /// precondition, not a recoverable error.
    pub fn new(mut block_device: T) -> (r: Result<Self, FsError>)
        requires
            boot_sector_size_supported(block_device),
        ensures
            r matches Ok(fs) ==> (forall|a: u32| #[trigger]
                fs.block_device.block_at(a) == block_device.block_at(a)) && exists|i: int|
                #![trigger block_device.block_at(boot_candidates()[i])]
                {
                    let s = block_device.block_at(boot_candidates()[i]);
                    found_at(block_device, i) && sig_matches(s) && fs.geometry_parsed(s) && (1u64
                        << fs.bytes_per_sector_shift as u64) == SECTOR_SIZE as u64
                },
            r == Err::<Self, FsError>(FsError::NoBootSector) ==> forall|i: int|
                0 <= i < boot_candidates().len() ==> !name_matches(
                    #[trigger] block_device.block_at(boot_candidates()[i]),
                ),
            r == Err::<Self, FsError>(FsError::InvalidBootSignature) ==> exists|i: int|
                #![trigger block_device.block_at(boot_candidates()[i])]
                found_at(block_device, i) && !sig_matches(
                    block_device.block_at(boot_candidates()[i]),
                ),
            r is Err ==> (r == Err::<Self, FsError>(FsError::NoBootSector) || r == Err::<
                Self,
                FsError,
            >(FsError::InvalidBootSignature) || r == Err::<Self, FsError>(FsError::ReadFail)),
    {
        let boot_sector = match get_boot_sector(&mut block_device) {
            Ok(s) => s,
            Err(e) => { return Err(e) },
        };
        let s = boot_sector.as_slice();
        let bytes_per_sector_shift = boot_sector[0x06c];
        proof {
            let i = choose|i: int|
                #![trigger block_device.block_at(boot_candidates()[i])]
                found_at(block_device, i) && sig_matches(
                    block_device.block_at(boot_candidates()[i]),
                ) && boot_sector@ == block_device.block_at(boot_candidates()[i]);
            assert((1u64 << (boot_sector@[0x06c] as u64)) == SECTOR_SIZE as u64);
        }
        Ok(
            ExFat {
                block_device,
                partition_offset: le_u64_at(s, 0x040),
                volume_length: le_u64_at(s, 0x048),
                fat_offset: le_u32_at(s, 0x050),
                fat_length: le_u32_at(s, 0x054),
                cluster_heap_offset: le_u32_at(s, 0x058),
                cluster_count: le_u32_at(s, 0x05c),
                first_cluster_of_root_directory: le_u32_at(s, 0x060),
                volume_serial_number: le_u32_at(s, 0x064),
                volume_flags: le_u16_at(s, 0x06a),
                bytes_per_sector_shift,
                sectors_per_cluster_shift: boot_sector[0x06d],
                number_of_fats: boot_sector[0x06e],
                drive_select: boot_sector[0x06f],
                percent_in_use: boot_sector[0x070],
            },
        )
    }

    /// Reads one sector, reporting a device fault as `ReadFail`.
    pub fn read_sector(&mut self, sector_addr: u32) -> (r: Result<[u8; BLOCK_SIZE], FsError>)
        ensures
            forall|a: u32| #[trigger]
                final(self).block_device.block_at(a) == old(self).block_device.block_at(a),
            old(self).same_geometry(*final(self)),
            r matches Ok(s) ==> s@ == old(self).block_device.block_at(sector_addr),
            r is Err ==> r == Err::<[u8; BLOCK_SIZE], FsError>(FsError::ReadFail),
    {
        match self.block_device.read_block(sector_addr) {
            Ok(sector) => Ok(sector),
            Err(()) => Err(FsError::ReadFail),
        }
    }

    /// Sectors per cluster, from the boot sector's shift encoding.
    pub open spec fn spec_sectors_per_cluster(self) -> u32 {
        1u32 << self.sectors_per_cluster_shift as u32
    }

    /// The first sector of cluster `cluster`. Clusters are numbered from 2;
    /// cluster 2 maps to the first sector of the cluster heap.
    pub open spec fn spec_cluster_sector(self, cluster: u32) -> int {
        self.partition_offset + self.cluster_heap_offset + (cluster - 2)
            * self.spec_sectors_per_cluster()
    }

    /// The cluster-to-sector computation stays within a 32-bit sector
    /// address for `cluster`.
    pub open spec fn cluster_in_range(self, cluster: u32) -> bool {
        &&& 2 <= cluster
        &&& self.sectors_per_cluster_shift < 32
        &&& self.spec_cluster_sector(cluster) <= u32::MAX
    }

    /// Converts the start of cluster `cluster` to its absolute sector
    /// address.
    pub fn calc_cluster_sector(&self, cluster: u32) -> (r: u32)
        requires
            self.cluster_in_range(cluster),
        ensures
            r == self.spec_cluster_sector(cluster),
    {
        let spc: u32 = 1u32 << (self.sectors_per_cluster_shift as u32);
        proof {
            assert((cluster - 2) * spc >= 0) by (nonlinear_arith)
                requires
                    cluster >= 2,
                    spc >= 0,
            ;
        }
        let span: u32 = (cluster - 2) * spc;
        self.partition_offset as u32 + self.cluster_heap_offset + span
    }
}

/// `cluster_to_sector` is strictly increasing in the cluster number.
pub proof fn lemma_cluster_sector_strictly_increasing<T: BlockDevice>(
    fs: ExFat<T>,
    c1: u32,
    c2: u32,
)
    requires
        fs.cluster_in_range(c1),
        fs.cluster_in_range(c2),
        c1 < c2,
    ensures
        fs.spec_cluster_sector(c1) < fs.spec_cluster_sector(c2),
{
    let spc = fs.spec_sectors_per_cluster();
    assert(spc >= 1) by {
        let sh = fs.sectors_per_cluster_shift;
        assert(sh < 32 ==> (1u32 << sh as u32) >= 1) by (bit_vector);
    }
    assert((c1 - 2) * spc < (c2 - 2) * spc) by (nonlinear_arith)
        requires
            2 <= c1 < c2,
            spc >= 1,
    ;
}

/// Cluster 2 maps exactly to the start of the cluster heap.
pub proof fn lemma_cluster_sector_base<T: BlockDevice>(fs: ExFat<T>)
    ensures
        fs.spec_cluster_sector(2) == fs.partition_offset + fs.cluster_heap_offset,
{
    assert((2u32 - 2) * fs.spec_sectors_per_cluster() == 0);
}


// ---------------------------------------------------------------------------
// Directory enumeration
// ---------------------------------------------------------------------------
// A directory is scanned sector by sector. Because a primary entry's counted
// run of secondary entries may cross into the following sector, every group
// is parsed against a two-sector window; the model below is phrased over that
// window so that a record depends only on the flattened entry bytes, not on
// where the sector boundary falls.

/// Directory-entry type code for a primary file or folder entry.
pub const FILE_DIRECTORY_ENTRY: u8 = 0x85;

/// Directory-entry type code for a stream-extension entry.
pub const STREAM_EXTENSION_ENTRY: u8 = 0xC0;

/// Directory-entry type code for a filename-fragment entry.
pub const FILE_NAME_ENTRY: u8 = 0xC1;

/// The 32 bytes of entry `k` of window `w`.
pub open spec fn entry_bytes(w: Seq<u8>, k: int) -> Seq<u8> {
    w.subrange(32 * k, 32 * k + 32)
}

/// Encoded (UTF-8) length of one Unicode scalar value.
pub open spec fn char_utf8_len(v: u32) -> int {
    if v < 0x80 {
        1
    } else if v < 0x800 {
        2
    } else if v < 0x10000 {
        3
    } else {
        4
    }
}

/// Encoded (UTF-8) length of a whole name.
pub open spec fn name_utf8_len(name: Seq<u32>) -> int
    decreases name.len(),
{
    if name.len() == 0 {
        0
    } else {
        char_utf8_len(name[0]) + name_utf8_len(name.drop_first())
    }
}

proof fn lemma_name_utf8_len_nonneg(name: Seq<u32>)
    ensures
        name_utf8_len(name) >= 0,
    decreases name.len(),
{
    if name.len() > 0 {
        lemma_name_utf8_len_nonneg(name.drop_first());
    }
}

proof fn lemma_name_utf8_len_push(name: Seq<u32>, v: u32)
    ensures
        name_utf8_len(name.push(v)) == name_utf8_len(name) + char_utf8_len(v),
    decreases name.len(),
{
    assert(name.push(v).len() == name.len() + 1);
    assert(name_utf8_len(name.push(v)) == char_utf8_len(name.push(v)[0]) + name_utf8_len(
        name.push(v).drop_first(),
    ));
    if name.len() == 0 {
        assert(name.push(v)[0] == v);
        assert(name.push(v).drop_first() =~= Seq::<u32>::empty());
        assert(name_utf8_len(Seq::<u32>::empty()) == 0);
    } else {
        assert(name.push(v)[0] == name[0]);
        assert(name.push(v).drop_first() =~= name.drop_first().push(v));
        lemma_name_utf8_len_push(name.drop_first(), v);
    }
}

proof fn lemma_name_utf8_len_add(a: Seq<u32>, b: Seq<u32>)
    ensures
        name_utf8_len(a + b) == name_utf8_len(a) + name_utf8_len(b),
    decreases b.len(),
{
    if b.len() == 0 {
        assert(a + b =~= a);
    } else {
        let b0 = b.drop_last();
        assert(b =~= b0.push(b.last()));
        assert(a + b =~= (a + b0).push(b.last()));
        lemma_name_utf8_len_add(a, b0);
        lemma_name_utf8_len_push(a + b0, b.last());
        lemma_name_utf8_len_push(b0, b.last());
    }
}

/// The non-zero name units of a filename-fragment entry, from unit `j` on.
/// Unit 0 carries the entry type and is never part of the name; zero units
/// are padding and are dropped.
pub open spec fn name_units(e: Seq<u8>, j: int) -> Seq<u16>
    decreases 16 - j,
{
    if j < 0 || j >= 16 {
        Seq::empty()
    } else {
        let u = spec_u16_from_le_bytes(e.subrange(2 * j, 2 * j + 2));
        let rest = name_units(e, j + 1);
        if u == 0 {
            rest
        } else {
            seq![u] + rest
        }
    }
}

/// UTF-16 decoding of a unit sequence into Unicode scalar values; `None` on
/// an unpaired surrogate.
pub open spec fn utf16_decode(units: Seq<u16>) -> Option<Seq<u32>>
    decreases units.len(),
{
    if units.len() == 0 {
        Some(Seq::empty())
    } else {
        let u0 = units[0];
        if u0 < 0xD800 || u0 >= 0xE000 {
            match utf16_decode(units.drop_first()) {
                Some(rest) => Some(seq![u0 as u32] + rest),
                None => None,
            }
        } else if u0 < 0xDC00 {
            if units.len() >= 2 && 0xDC00 <= units[1] < 0xE000 {
                let v = 0x10000 + (u0 - 0xD800) * 0x400 + (units[1] - 0xDC00);
                match utf16_decode(units.skip(2)) {
                    Some(rest) => Some(seq![v as u32] + rest),
                    None => None,
                }
            } else {
                None
            }
        } else {
            None
        }
    }
}

/// A record's name respects the byte bound and contains no padding units.
pub open spec fn entry_name_wf(r: FsEntrySpec) -> bool {
    &&& name_utf8_len(r.name) <= MAX_FILE_NAME_LENGTH
    &&& forall|j: int| 0 <= j < r.name.len() ==> r.name[j] != 0u32
}

/// Relies on char::from_u32: it returns `Some` exactly for the Unicode
/// scalar values (everything except the surrogate range and values past
/// 0x10FFFF), and the returned character converts back to the same value.
#[verifier::external_body]
fn char_from_u32(v: u32) -> (r: Option<char>)
    ensures
        r is Some <==> (v < 0xD800 || (0xE000 <= v && v <= 0x10FFFF)),
        r matches Some(c) ==> c as u32 == v,
{
    char::from_u32(v)
}

/// Copies entry `k` out of the two-sector window `cur` / `next`.
fn copy_entry(cur: &[u8; BLOCK_SIZE], next: &[u8; BLOCK_SIZE], k: usize) -> (ent: Vec<u8>)
    requires
        k < 32,
    ensures
        ent@ == entry_bytes(cur@ + next@, k as int),
{
    let mut ent: Vec<u8> = Vec::new();
    let base: usize = DIRECTORY_ENTRY_BYTES * k;
    let mut i: usize = 0;
    while i < DIRECTORY_ENTRY_BYTES
        invariant
            k < 32,
            base == 32 * k,
            i <= 32,
            ent@.len() == i,
            forall|m: int| 0 <= m < i ==> ent@[m] == (cur@ + next@)[32 * k + m],
        decreases 32 - i,
    {
        let idx = base + i;
        let b = if idx < BLOCK_SIZE {
            cur[idx]
        } else {
            next[idx - BLOCK_SIZE]
        };
        ent.push(b);
        i += 1;
    }
    proof {
        assert(ent@ =~= entry_bytes(cur@ + next@, k as int));
    }
    ent
}

/// Collects the non-zero name units of a filename-fragment entry.
fn collect_name_units(ent: &Vec<u8>) -> (units: Vec<u16>)
    requires
        ent@.len() == 32,
    ensures
        units@ == name_units(ent@, 1),
        forall|j: int| 0 <= j < units@.len() ==> units@[j] != 0u16,
{
    let mut units: Vec<u16> = Vec::new();
    let mut j: usize = 1;
    while j < 16
        invariant
            1 <= j <= 16,
            ent@.len() == 32,
            units@ + name_units(ent@, j as int) =~= name_units(ent@, 1),
            forall|m: int| 0 <= m < units@.len() ==> units@[m] != 0u16,
        decreases 16 - j,
    {
        let u = le_u16_at(ent.as_slice(), 2 * j);
        proof {
            if u == 0 {
                assert(units@ + name_units(ent@, j + 1) =~= units@ + name_units(ent@, j as int));
            } else {
                assert(units@.push(u) + name_units(ent@, j + 1) =~= units@ + name_units(
                    ent@,
                    j as int,
                ));
            }
        }
        if u != 0 {
            units.push(u);
        }
        j += 1;
    }
    proof {
        assert(name_units(ent@, 16) =~= Seq::<u16>::empty());
        assert(units@ =~= units@ + name_units(ent@, 16));
    }
    units
}


/// Decodes `units` and appends the resulting characters to the record's
/// name, keeping the encoded-length bound. Returns false when the units hold
/// an unpaired surrogate or the name would exceed its bound.
fn append_decoded_name(rec: &mut FsEntry, name_bytes: &mut usize, units: &Vec<u16>) -> (ok: bool)
    requires
        *old(name_bytes) == name_utf8_len(old(rec)@.name),
        *old(name_bytes) <= MAX_FILE_NAME_LENGTH,
        forall|j: int| 0 <= j < old(rec)@.name.len() ==> old(rec)@.name[j] != 0u32,
        forall|j: int| 0 <= j < units@.len() ==> units@[j] != 0u16,
    ensures
        ok ==> (utf16_decode(units@) matches Some(vs) && final(rec)@.name == old(rec)@.name + vs),
        ok ==> *final(name_bytes) == name_utf8_len(final(rec)@.name) && *final(name_bytes)
            <= MAX_FILE_NAME_LENGTH,
        ok ==> forall|j: int|
            0 <= j < final(rec)@.name.len() ==> final(rec)@.name[j] != 0u32,
        final(rec).file_type == old(rec).file_type,
        final(rec).first_cluster == old(rec).first_cluster,
        final(rec).valid_data_length == old(rec).valid_data_length,
        final(rec).data_length == old(rec).data_length,
        !ok ==> (utf16_decode(units@) is None || (utf16_decode(units@) matches Some(vs)
            && name_utf8_len(old(rec)@.name + vs) > MAX_FILE_NAME_LENGTH)),
{
    let ghost name0 = old(rec)@.name;
    let ghost mut decoded: Seq<u32> = Seq::empty();
    let n = units.len();
    let mut i: usize = 0;
    proof {
        assert(name0 + decoded =~= name0);
        assert(units@.skip(0) =~= units@);
    }
    while i < n
        invariant
            n == units@.len(),
            i <= n,
            name0 == old(rec)@.name,
            forall|j: int| 0 <= j < units@.len() ==> units@[j] != 0u16,
            rec@.name == name0 + decoded,
            name_utf8_len(name0) <= MAX_FILE_NAME_LENGTH,
            forall|j: int| 0 <= j < name0.len() ==> name0[j] != 0u32,
            rec.file_type == old(rec).file_type,
            rec.first_cluster == old(rec).first_cluster,
            rec.valid_data_length == old(rec).valid_data_length,
            rec.data_length == old(rec).data_length,
            *name_bytes == name_utf8_len(rec@.name),
            *name_bytes <= MAX_FILE_NAME_LENGTH,
            forall|j: int| 0 <= j < rec@.name.len() ==> rec@.name[j] != 0u32,
            utf16_decode(units@) == (match utf16_decode(units@.skip(i as int)) {
                Some(rest) => Some(decoded + rest),
                None => None::<Seq<u32>>,
            }),
        decreases n - i,
    {
        let ghost tail = units@.skip(i as int);
        let u = units[i];
        proof {
            assert(tail[0] == units@[i as int]);
        }
        let v: u32;
        let consumed: usize;
        if u < 0xD800 || u >= 0xE000 {
            v = u as u32;
            consumed = 1;
            proof {
                assert(tail.drop_first() =~= units@.skip(i + 1));
            }
        } else if u < 0xDC00 {
            if i + 1 < n {
                let u2 = units[i + 1];
                proof {
                    assert(tail[1] == units@[i + 1]);
                }
                if 0xDC00 <= u2 && u2 < 0xE000 {
                    v = 0x10000u32 + ((u - 0xD800) as u32) * 0x400 + ((u2 - 0xDC00) as u32);
                    consumed = 2;
                    proof {
                        assert(tail.skip(2) =~= units@.skip(i + 2));
                        assert(v as int == 0x10000 + (tail[0] - 0xD800) * 0x400 + (tail[1]
                            - 0xDC00));
                    }
                } else {
                    // unpaired high surrogate
                    return false;
                }
            } else {
                // high surrogate at the end of the fragment
                return false;
            }
        } else {
            // unpaired low surrogate
            return false;
        }
        let ghost rest2 = match utf16_decode(units@.skip(i + consumed)) {
            Some(r) => r,
            None => Seq::empty(),
        };
        proof {
            if utf16_decode(units@.skip(i + consumed)) is Some {
                assert(utf16_decode(tail) == Some(seq![v] + rest2));
            } else {
                assert(utf16_decode(tail) is None);
            }
        }
        let cl: usize = if v < 0x80 {
            1
        } else if v < 0x800 {
            2
        } else if v < 0x10000 {
            3
        } else {
            4
        };
        if *name_bytes + cl > MAX_FILE_NAME_LENGTH {
            proof {
                match utf16_decode(units@) {
                    Some(vs) => {
                        assert(utf16_decode(tail) is Some);
                        assert(vs == decoded + (seq![v] + rest2));
                        assert(name0 + vs =~= rec@.name + (seq![v] + rest2));
                        lemma_name_utf8_len_add(rec@.name, seq![v] + rest2);
                        assert((seq![v] + rest2).drop_first() =~= rest2);
                        lemma_name_utf8_len_nonneg(rest2);
                        assert(name_utf8_len(seq![v] + rest2) == char_utf8_len(v)
                            + name_utf8_len(rest2));
                        assert(cl == char_utf8_len(v));
                        assert(name_utf8_len(name0 + vs) == *name_bytes + name_utf8_len(
                            seq![v] + rest2,
                        ));
                    },
                    None => {},
                }
                assert(utf16_decode(units@) is None || (utf16_decode(units@) matches Some(vs)
                    && name_utf8_len(name0 + vs) > MAX_FILE_NAME_LENGTH));
            }
            return false;
        }
        let c = match char_from_u32(v) {
            Some(c) => c,
            None => {
                proof {
                    assert(false);
                }
                return false;
            },
        };
        let ghost name_before = rec@.name;
        rec.name.push(c);
        *name_bytes = *name_bytes + cl;
        proof {
            let decoded_old = decoded;
            decoded = decoded.push(v);
            assert(rec@.name =~= name_before.push(v));
            lemma_name_utf8_len_push(name_before, v);
            assert(rec@.name =~= name0 + decoded);
            match utf16_decode(units@.skip(i + consumed)) {
                Some(rest) => {
                    assert(decoded + rest =~= decoded_old + (seq![v] + rest));
                },
                None => {},
            }
        }
        i += consumed;
    }
    proof {
        assert(units@.skip(n as int) =~= Seq::<u16>::empty());
        assert(utf16_decode(units@) == Some(decoded));
        assert(name0 + decoded == rec@.name);
    }
    true
}

/// The effect of one secondary entry on the record under construction: a
/// stream-extension entry supplies the cluster and length fields, a
/// filename-fragment entry appends decoded name characters, and any other
/// entry type is ignored. `None` marks a name-decoding failure.
pub open spec fn apply_secondary(rec: FsEntrySpec, e: Seq<u8>) -> Option<FsEntrySpec> {
    let t = e[0];
    if t == STREAM_EXTENSION_ENTRY {
        Some(
            FsEntrySpec {
                name: rec.name,
                file_type: rec.file_type,
                first_cluster: spec_u32_from_le_bytes(e.subrange(20, 24)),
                valid_data_length: spec_u64_from_le_bytes(e.subrange(8, 16)),
                data_length: spec_u64_from_le_bytes(e.subrange(24, 32)),
            },
        )
    } else if t == FILE_NAME_ENTRY {
        match utf16_decode(name_units(e, 1)) {
            Some(vs) => {
                if name_utf8_len(rec.name + vs) <= MAX_FILE_NAME_LENGTH {
                    Some(
                        FsEntrySpec {
                            name: rec.name + vs,
                            file_type: rec.file_type,
                            first_cluster: rec.first_cluster,
                            valid_data_length: rec.valid_data_length,
                            data_length: rec.data_length,
                        },
                    )
                } else {
                    None
                }
            },
            None => None,
        }
    } else {
        Some(rec)
    }
}

/// Folds the secondary entries `k .. end` of window `w` into `rec`.
pub open spec fn fold_secondaries(rec: FsEntrySpec, w: Seq<u8>, k: int, end: int) -> Option<
    FsEntrySpec,
>
    decreases end - k,
{
    if k >= end {
        Some(rec)
    } else {
        match apply_secondary(rec, entry_bytes(w, k)) {
            Some(r2) => fold_secondaries(r2, w, k + 1, end),
            None => None,
        }
    }
}

/// The blank record a primary entry starts: bit 4 of its attribute word
/// decides file against directory.
pub open spec fn init_record(e: Seq<u8>) -> FsEntrySpec {
    FsEntrySpec {
        name: Seq::empty(),
        file_type: if (spec_u16_from_le_bytes(e.subrange(4, 6)) >> 4u16) & 1u16 == 1u16 {
            FileType::Directory
        } else {
            FileType::File
        },
        first_cluster: 0,
        valid_data_length: 0,
        data_length: 0,
    }
}

/// Index one past the last lookahead entry of the group whose primary entry
/// stands at `e`: the entry's own secondary count plus one further entry,
/// clipped to the two-sector window.
pub open spec fn group_end(e: int, count: u8) -> int {
    if e + 2 + count <= 32 {
        e + 2 + count
    } else {
        32
    }
}

/// The record denoted by the primary entry at index `e` of window `w`, or
/// `None` when its name cannot be decoded within bounds.
pub open spec fn parse_group(w: Seq<u8>, e: int) -> Option<FsEntrySpec> {
    fold_secondaries(
        init_record(entry_bytes(w, e)),
        w,
        e + 1,
        group_end(e, entry_bytes(w, e)[1]),
    )
}


/// Applies one secondary entry to the record under construction, mirroring
/// [`apply_secondary`]. `name_bytes` tracks the encoded length of the name.
fn apply_secondary_exec(rec: &mut FsEntry, name_bytes: &mut usize, ent: &Vec<u8>) -> (ok: bool)
    requires
        ent@.len() == 32,
        *old(name_bytes) == name_utf8_len(old(rec)@.name),
        *old(name_bytes) <= MAX_FILE_NAME_LENGTH,
        forall|j: int| 0 <= j < old(rec)@.name.len() ==> old(rec)@.name[j] != 0u32,
    ensures
        ok ==> apply_secondary(old(rec)@, ent@) == Some(final(rec)@),
        ok ==> *final(name_bytes) == name_utf8_len(final(rec)@.name) && *final(name_bytes)
            <= MAX_FILE_NAME_LENGTH,
        ok ==> forall|j: int|
            0 <= j < final(rec)@.name.len() ==> final(rec)@.name[j] != 0u32,
        !ok ==> apply_secondary(old(rec)@, ent@) is None,
{
    let t = ent[0];
    if t == STREAM_EXTENSION_ENTRY {
        rec.valid_data_length = le_u64_at(ent.as_slice(), 8);
        rec.data_length = le_u64_at(ent.as_slice(), 24);
        rec.first_cluster = le_u32_at(ent.as_slice(), 20);
        proof {
            assert(apply_secondary(old(rec)@, ent@) == Some(rec@));
        }
        true
    } else if t == FILE_NAME_ENTRY {
        let units = collect_name_units(ent);
        append_decoded_name(rec, name_bytes, &units)
    } else {
        true
    }
}

/// Parses the whole entry group whose primary entry stands at index `e` of
/// the two-sector window `cur` / `next`.
fn parse_group_exec(cur: &[u8; BLOCK_SIZE], next: &[u8; BLOCK_SIZE], e: usize) -> (r: Result<
    FsEntry,
    (),
>)
    requires
        e < 16,
    ensures
        r matches Ok(rec) ==> parse_group(cur@ + next@, e as int) == Some(rec@) && entry_name_wf(
            rec@,
        ),
        r is Err ==> parse_group(cur@ + next@, e as int) is None,
{
    let ghost w = cur@ + next@;
    let pent = copy_entry(cur, next, e);
    let count = pent[1];
    let attr = le_u16_at(pent.as_slice(), 4);
    let file_type = if bit_on(attr as u64, 4) {
        FileType::Directory
    } else {
        FileType::File
    };
    proof {
        let a = spec_u16_from_le_bytes(entry_bytes(w, e as int).subrange(4, 6));
        assert(((a as u64 >> 4u64) & 1 == 1) <==> ((a >> 4u16) & 1u16 == 1u16)) by (bit_vector);
    }
    let mut rec = FsEntry::new();
    rec.file_type = file_type;
    let mut name_bytes: usize = 0;
    let sum = e + 2 + count as usize;
    let end: usize = if sum > 32 {
        32
    } else {
        sum
    };
    proof {
        assert(rec@ == init_record(entry_bytes(w, e as int)));
        assert(end as int == group_end(e as int, count));
        assert(rec@.name =~= Seq::<u32>::empty());
        assert(name_utf8_len(rec@.name) == 0);
    }
    let mut k = e + 1;
    while k < end
        invariant
            e < 16,
            e + 1 <= k <= end <= 32,
            w == cur@ + next@,
            fold_secondaries(rec@, w, k as int, end as int) == parse_group(w, e as int),
            name_bytes == name_utf8_len(rec@.name),
            name_bytes <= MAX_FILE_NAME_LENGTH,
            forall|j: int| 0 <= j < rec@.name.len() ==> rec@.name[j] != 0u32,
        decreases end - k,
    {
        let ent = copy_entry(cur, next, k);
        let ok = apply_secondary_exec(&mut rec, &mut name_bytes, &ent);
        if !ok {
            return Err(());
        }
        k += 1;
    }
    Ok(rec)
}

/// Outcome of one directory sector: the scan either saw the end-of-directory
/// marker (or the output cap), continues into the next sector, or failed.
pub enum ScanResult {
    Done(Seq<FsEntrySpec>),
    More(Seq<FsEntrySpec>),
    Fail,
}

/// The records of a directory listing, as their models.
pub open spec fn dir_views(s: Seq<FsEntry>) -> Seq<FsEntrySpec> {
    s.map_values(|x: FsEntry| x@)
}

/// Scans the 16 entries of the sector opening window `w`, from entry `e` on,
/// with `acc` the records already listed. A primary entry contributes the
/// record of its group; the scan ends at a zero type byte or once `acc`
/// reaches the output cap.
pub open spec fn scan_sector(w: Seq<u8>, e: int, acc: Seq<FsEntrySpec>) -> ScanResult
    decreases 16 - e,
{
    if e < 0 || e >= 16 {
        ScanResult::More(acc)
    } else {
        let t = w[32 * e];
        if t == 0u8 {
            ScanResult::Done(acc)
        } else if t == FILE_DIRECTORY_ENTRY {
            if acc.len() >= DIR_LENGTH_LIMIT {
                ScanResult::Done(acc)
            } else {
                match parse_group(w, e) {
                    Some(rec) => scan_sector(w, e + 1, acc.push(rec)),
                    None => ScanResult::Fail,
                }
            }
        } else {
            scan_sector(w, e + 1, acc)
        }
    }
}

/// The two-sector lookahead window starting at sector `addr`.
pub open spec fn window_of<T: BlockDevice>(d: T, addr: u32) -> Seq<u8> {
    d.block_at(addr) + d.block_at((addr + 1) as u32)
}

/// The directory walk after `n` sectors: sector after sector, each scanned
/// against its lookahead window, until a scan ends the listing or fails.
pub open spec fn walk<T: BlockDevice>(d: T, base: u32, n: nat) -> ScanResult
    decreases n,
{
    if n == 0 {
        ScanResult::More(Seq::empty())
    } else {
        match walk(d, base, (n - 1) as nat) {
            ScanResult::More(acc) => {
                if base + n - 1 <= u32::MAX {
                    scan_sector(window_of(d, (base + n - 1) as u32), 0, acc)
                } else {
                    ScanResult::More(acc)
                }
            },
            other => other,
        }
    }
}


/// Exec-side outcome of scanning one directory sector.
enum ScanStep {
    Terminated,
    Continue,
    NameError,
    DeviceError,
}

/// Scans one directory sector, appending its records to `out`. The sector's
/// bytes are `cur`; the following sector is fetched lazily, once the first
/// primary entry shows up, so that its group can cross the boundary.
fn scan_sector_exec<T: BlockDevice>(
    dev: &mut T,
    sector_addr: u32,
    cur: &[u8; BLOCK_SIZE],
    out: &mut Vec<FsEntry>,
) -> (res: ScanStep)
    requires
        cur@ == old(dev).block_at(sector_addr),
        old(out)@.len() <= DIR_LENGTH_LIMIT,
        forall|i: int| 0 <= i < old(out)@.len() ==> entry_name_wf(#[trigger] old(out)@[i]@),
    ensures
        forall|a: u32| #[trigger] final(dev).block_at(a) == old(dev).block_at(a),
        final(out)@.len() <= DIR_LENGTH_LIMIT,
        forall|i: int| 0 <= i < final(out)@.len() ==> entry_name_wf(#[trigger] final(out)@[i]@),
        res matches ScanStep::Terminated ==> scan_sector(
            window_of(*old(dev), sector_addr),
            0,
            dir_views(old(out)@),
        ) == ScanResult::Done(dir_views(final(out)@)),
        res matches ScanStep::Continue ==> scan_sector(
            window_of(*old(dev), sector_addr),
            0,
            dir_views(old(out)@),
        ) == ScanResult::More(dir_views(final(out)@)),
        res matches ScanStep::NameError ==> scan_sector(
            window_of(*old(dev), sector_addr),
            0,
            dir_views(old(out)@),
        ) == ScanResult::Fail,
{
    let ghost d0: T = *dev;
    let ghost w: Seq<u8> = window_of(d0, sector_addr);
    let mut next_arr: [u8; BLOCK_SIZE] = [0; BLOCK_SIZE];
    let mut have_next = false;
    let mut e: usize = 0;
    while e < DIRECTORY_ENTRIES_PER_SECTOR
        invariant
            e <= 16,
            d0 == *old(dev),
            w == window_of(d0, sector_addr),
            cur@ == d0.block_at(sector_addr),
            forall|a: u32| #[trigger] dev.block_at(a) == d0.block_at(a),
            have_next ==> sector_addr < u32::MAX && next_arr@ == d0.block_at(
                (sector_addr + 1) as u32,
            ),
            out@.len() <= DIR_LENGTH_LIMIT,
            forall|i: int| 0 <= i < out@.len() ==> entry_name_wf(#[trigger] out@[i]@),
            scan_sector(w, 0, dir_views(old(out)@)) == scan_sector(w, e as int, dir_views(out@)),
        decreases 16 - e,
    {
        let t = cur[DIRECTORY_ENTRY_BYTES * e];
        proof {
            assert(w[32 * (e as int)] == cur@[32 * (e as int)]);
        }
        if t == 0 {
            return ScanStep::Terminated;
        } else if t == FILE_DIRECTORY_ENTRY {
            if out.len() == DIR_LENGTH_LIMIT {
                return ScanStep::Terminated;
            }
            if !have_next {
                if sector_addr == u32::MAX {
                    return ScanStep::DeviceError;
                }
                match dev.read_block(sector_addr + 1) {
                    Ok(b) => {
                        next_arr = b;
                        have_next = true;
                    },
                    Err(()) => {
                        return ScanStep::DeviceError;
                    },
                }
            }
            match parse_group_exec(cur, &next_arr, e) {
                Ok(rec) => {
                    proof {
                        assert(cur@ + next_arr@ == w);
                        assert(dir_views(out@.push(rec)) =~= dir_views(out@).push(rec@));
                    }
                    out.push(rec);
                },
                Err(()) => {
                    return ScanStep::NameError;
                },
            }
        }
        e += 1;
    }
    ScanStep::Continue
}

impl<T: BlockDevice> ExFat<T> {
    /// Lists the directory that starts at cluster `first_cluster`.
    ///
    /// Sectors are read sequentially from the cluster's start sector and
    /// reinterpreted as 32-byte entries; each primary entry yields one
    /// record, built from its counted run of secondary entries against the
    /// two-sector lookahead window. The listing ends at the first zero type
    /// byte, or silently once [`DIR_LENGTH_LIMIT`] records are collected. A
    /// name that cannot be decoded, or that would exceed its bound, fails
    /// the whole listing with `ErrorDecodingName`; no partial directory is
    /// returned.
    ///
    /// Every returned record's name stays within [`MAX_FILE_NAME_LENGTH`]
    /// encoded bytes and contains no padding (zero) units.
    pub fn list_directory(&mut self, first_cluster: u32) -> (r: Result<Vec<FsEntry>, FsError>)
        requires
            old(self).cluster_in_range(first_cluster),
        ensures
            forall|a: u32| #[trigger]
                final(self).block_device.block_at(a) == old(self).block_device.block_at(a),
            old(self).same_geometry(*final(self)),
            r matches Ok(v) ==> exists|n: nat|
                #[trigger] walk(
                    old(self).block_device,
                    old(self).spec_cluster_sector(first_cluster) as u32,
                    n,
                ) == ScanResult::Done(dir_views(v@)),
            r matches Ok(v) ==> v@.len() <= DIR_LENGTH_LIMIT && forall|i: int|
                0 <= i < v@.len() ==> entry_name_wf(#[trigger] v@[i]@),
            r == Err::<Vec<FsEntry>, FsError>(FsError::ErrorDecodingName) ==> exists|n: nat|
                #[trigger] walk(
                    old(self).block_device,
                    old(self).spec_cluster_sector(first_cluster) as u32,
                    n,
                ) == ScanResult::Fail,
            r is Err ==> (r == Err::<Vec<FsEntry>, FsError>(FsError::ReadFail) || r == Err::<
                Vec<FsEntry>,
                FsError,
            >(FsError::ErrorDecodingName)),
    {
        let ghost d = old(self).block_device;
        let base = self.calc_cluster_sector(first_cluster);
        let mut out: Vec<FsEntry> = Vec::new();
        let mut k: u32 = 0;
        proof {
            assert(dir_views(out@) =~= Seq::<FsEntrySpec>::empty());
        }
        loop
            invariant
                d == old(self).block_device,
                base == old(self).spec_cluster_sector(first_cluster),
                forall|a: u32| #[trigger]
                    self.block_device.block_at(a) == old(self).block_device.block_at(a),
                old(self).same_geometry(*self),
                out@.len() <= DIR_LENGTH_LIMIT,
                forall|i: int| 0 <= i < out@.len() ==> entry_name_wf(#[trigger] out@[i]@),
                walk(d, base, k as nat) == ScanResult::More(dir_views(out@)),
            decreases u32::MAX - k,
        {
            if u32::MAX - base < k {
                return Err(FsError::ReadFail);
            }
            let sector_addr = base + k;
            let cur = match self.read_sector(sector_addr) {
                Ok(s) => s,
                Err(_) => { return Err(FsError::ReadFail) },
            };
            let res = scan_sector_exec(&mut self.block_device, sector_addr, &cur, &mut out);
            proof {
                assert(old(self).spec_cluster_sector(first_cluster) as u32 == base);
                assert((k + 1) as nat - 1 == k as nat);
                assert(walk(d, base, (k + 1) as nat) == (match walk(d, base, k as nat) {
                    ScanResult::More(acc) => scan_sector(window_of(d, sector_addr), 0, acc),
                    other => other,
                }));
            }
            match res {
                ScanStep::Terminated => {
                    proof {
                        assert(walk(
                            old(self).block_device,
                            old(self).spec_cluster_sector(first_cluster) as u32,
                            (k + 1) as nat,
                        ) == ScanResult::Done(dir_views(out@)));
                    }
                    return Ok(out);
                },
                ScanStep::Continue => {
                    if k == u32::MAX {
                        return Err(FsError::ReadFail);
                    }
                    proof {
                        assert(walk(d, base, (k + 1) as nat) == ScanResult::More(dir_views(out@)));
                    }
                    k = k + 1;
                },
                ScanStep::NameError => {
                    proof {
                        assert(walk(
                            old(self).block_device,
                            old(self).spec_cluster_sector(first_cluster) as u32,
                            (k + 1) as nat,
                        ) == ScanResult::Fail);
                    }
                    return Err(FsError::ErrorDecodingName);
                },
                ScanStep::DeviceError => {
                    return Err(FsError::ReadFail);
                },
            }
        }
    }
}

/// Boundary-crossing lookahead is lossless: a record depends only on the
/// flattened bytes of its own entry group, not on where the sector boundary
/// falls within them. Two windows that agree on the bytes of a group that
/// fits the lookahead yield the identical record, wherever the group starts
/// in each window.
pub proof fn lemma_group_window_independent(w1: Seq<u8>, e1: int, w2: Seq<u8>, e2: int)
    requires
        0 <= e1 < 16,
        0 <= e2 < 16,
        e1 + 2 + entry_bytes(w1, e1)[1] <= 32,
        e2 + 2 + entry_bytes(w2, e2)[1] <= 32,
        forall|x: int|
            32 * e1 <= x < 32 * (e1 + 2 + entry_bytes(w1, e1)[1]) ==> #[trigger] w1[x]
                == w2[x - 32 * e1 + 32 * e2],
        w1.len() >= 32 * (e1 + 2 + entry_bytes(w1, e1)[1]),
        w2.len() >= 32 * (e2 + 2 + entry_bytes(w2, e2)[1]),
    ensures
        parse_group(w1, e1) == parse_group(w2, e2),
{
    let count = entry_bytes(w1, e1)[1];
    let end1 = group_end(e1, count);
    assert forall|b: int| 0 <= b < 32 implies #[trigger] entry_bytes(w1, e1)[b] == entry_bytes(
        w2,
        e2,
    )[b] by {
        let x = 32 * e1 + b;
        assert(32 * e1 <= x < 32 * (e1 + 2 + count));
        assert(w1[x] == w2[x - 32 * e1 + 32 * e2]);
        assert(x - 32 * e1 + 32 * e2 == 32 * e2 + b);
    }
    assert(entry_bytes(w1, e1) =~= entry_bytes(w2, e2));
    assert(end1 == e1 + 2 + count);
    assert(group_end(e2, count) == e2 + 2 + count);
    lemma_fold_window_independent(
        init_record(entry_bytes(w1, e1)),
        w1,
        e1,
        e1 + 1,
        w2,
        e2,
        e2 + 1,
        end1,
    );
}

proof fn lemma_fold_window_independent(
    rec: FsEntrySpec,
    w1: Seq<u8>,
    e1: int,
    k1: int,
    w2: Seq<u8>,
    e2: int,
    k2: int,
    end1: int,
)
    requires
        0 <= e1 < k1 <= end1,
        0 <= e2 < k2,
        k1 - e1 == k2 - e2,
        forall|x: int|
            32 * e1 <= x < 32 * end1 ==> #[trigger] w1[x] == w2[x - 32 * e1 + 32 * e2],
        w1.len() >= 32 * end1,
        w2.len() >= 32 * (end1 - e1 + e2),
    ensures
        fold_secondaries(rec, w1, k1, end1) == fold_secondaries(rec, w2, k2, end1 - e1 + e2),
    decreases end1 - k1,
{
    if k1 >= end1 {
    } else {
        assert forall|b: int| 0 <= b < 32 implies #[trigger] entry_bytes(w1, k1)[b]
            == entry_bytes(w2, k2)[b] by {
            let x = 32 * k1 + b;
            assert(32 * e1 <= x < 32 * end1);
            assert(w1[x] == w2[x - 32 * e1 + 32 * e2]);
            assert(x - 32 * e1 + 32 * e2 == 32 * k2 + b);
        }
        assert(entry_bytes(w1, k1) =~= entry_bytes(w2, k2));
        match apply_secondary(rec, entry_bytes(w1, k1)) {
            Some(r2) => {
                lemma_fold_window_independent(r2, w1, e1, k1 + 1, w2, e2, k2 + 1, end1);
            },
            None => {},
        }
    }
}


/// Record `r` is the parsed group of some primary entry of window `w`.
pub open spec fn record_in_window(w: Seq<u8>, r: FsEntrySpec) -> bool {
    exists|e2: int|
        0 <= e2 < 16 && #[trigger] w[32 * e2] == FILE_DIRECTORY_ENTRY && parse_group(w, e2)
            == Some(r)
}

/// Record `k` of `res` is the parsed group of the primary entry at index
/// `e` of the two-sector window opening at sector `base + s` of `d`.
pub open spec fn record_from_group<T: BlockDevice>(
    d: T,
    base: u32,
    n: nat,
    res: Seq<FsEntrySpec>,
    k: int,
) -> bool {
    exists|s: int, e: int|
        {
            &&& 0 <= s < n
            &&& base + s <= u32::MAX
            &&& 0 <= e < 16
            &&& #[trigger] window_of(d, (base + s) as u32)[32 * e] == FILE_DIRECTORY_ENTRY
            &&& parse_group(window_of(d, (base + s) as u32), e) == Some(res[k])
        }
}

proof fn lemma_scan_records_from_groups(w: Seq<u8>, e: int, acc: Seq<FsEntrySpec>)
    ensures
        match scan_sector(w, e, acc) {
            ScanResult::Done(res) => acc.len() <= res.len() && res.subrange(0, acc.len() as int)
                == acc && forall|k: int|
                acc.len() <= k < res.len() ==> #[trigger] record_in_window(w, res[k]),
            ScanResult::More(res) => acc.len() <= res.len() && res.subrange(0, acc.len() as int)
                == acc && forall|k: int|
                acc.len() <= k < res.len() ==> #[trigger] record_in_window(w, res[k]),
            ScanResult::Fail => true,
        },
    decreases 16 - e,
{
    if e < 0 || e >= 16 {
        assert(acc.subrange(0, acc.len() as int) =~= acc);
    } else {
        let t = w[32 * e];
        if t == 0u8 {
            assert(acc.subrange(0, acc.len() as int) =~= acc);
        } else if t == FILE_DIRECTORY_ENTRY {
            if acc.len() >= DIR_LENGTH_LIMIT {
                assert(acc.subrange(0, acc.len() as int) =~= acc);
            } else {
                match parse_group(w, e) {
                    Some(rec) => {
                        lemma_scan_records_from_groups(w, e + 1, acc.push(rec));
                        let m = acc.len() as int;
                        match scan_sector(w, e + 1, acc.push(rec)) {
                            ScanResult::Done(res) => {
                                assert(res.subrange(0, m + 1) == acc.push(rec));
                                assert(res.subrange(0, m) =~= res.subrange(0, m + 1).subrange(
                                    0,
                                    m,
                                ));
                                assert(acc.push(rec).subrange(0, m) =~= acc);
                                assert(res[m] == res.subrange(0, m + 1)[m]);
                                assert(res[m] == rec);
                                assert(record_in_window(w, res[m]));
                            },
                            ScanResult::More(res) => {
                                assert(res.subrange(0, m + 1) == acc.push(rec));
                                assert(res.subrange(0, m) =~= res.subrange(0, m + 1).subrange(
                                    0,
                                    m,
                                ));
                                assert(acc.push(rec).subrange(0, m) =~= acc);
                                assert(res[m] == res.subrange(0, m + 1)[m]);
                                assert(res[m] == rec);
                                assert(record_in_window(w, res[m]));
                            },
                            ScanResult::Fail => {},
                        }
                    },
                    None => {},
                }
            }
        } else {
            lemma_scan_records_from_groups(w, e + 1, acc);
        }
    }
}


proof fn lemma_record_from_group_widen<T: BlockDevice>(
    d: T,
    base: u32,
    n1: nat,
    n2: nat,
    res1: Seq<FsEntrySpec>,
    res2: Seq<FsEntrySpec>,
    k1: int,
    k2: int,
)
    requires
        n1 <= n2,
        record_from_group(d, base, n1, res1, k1),
        res1[k1] == res2[k2],
    ensures
        record_from_group(d, base, n2, res2, k2),
{
    let (s, e) = choose|s: int, e: int|
        {
            &&& 0 <= s < n1
            &&& base + s <= u32::MAX
            &&& 0 <= e < 16
            &&& #[trigger] window_of(d, (base + s) as u32)[32 * e] == FILE_DIRECTORY_ENTRY
            &&& parse_group(window_of(d, (base + s) as u32), e) == Some(res1[k1])
        };
    assert(window_of(d, (base + s) as u32)[32 * e] == FILE_DIRECTORY_ENTRY);
    assert(parse_group(window_of(d, (base + s) as u32), e) == Some(res2[k2]));
}

/// Every record of a directory walk is the parsed group of a primary entry
/// in one of the scanned two-sector windows. Together with
/// [`lemma_group_window_independent`] this makes boundary-crossing lookahead
/// lossless across whole listings: two walks whose corresponding groups
/// carry the same flattened entry bytes produce identical records, wherever
/// each group sits relative to its sector boundary.
pub proof fn lemma_walk_records_from_groups<T: BlockDevice>(d: T, base: u32, n: nat)
    ensures
        match walk(d, base, n) {
            ScanResult::Done(res) => forall|k: int|
                0 <= k < res.len() ==> #[trigger] record_from_group(d, base, n, res, k),
            ScanResult::More(res) => forall|k: int|
                0 <= k < res.len() ==> #[trigger] record_from_group(d, base, n, res, k),
            ScanResult::Fail => true,
        },
    decreases n,
{
    if n == 0 {
    } else {
        let n1 = (n - 1) as nat;
        lemma_walk_records_from_groups(d, base, n1);
        match walk(d, base, n1) {
            ScanResult::More(acc) => {
                if base + n - 1 <= u32::MAX {
                    let w = window_of(d, (base + n - 1) as u32);
                    lemma_scan_records_from_groups(w, 0, acc);
                    match scan_sector(w, 0, acc) {
                        ScanResult::Done(res) => {
                            lemma_walk_step_records(d, base, n, acc, res);
                        },
                        ScanResult::More(res) => {
                            lemma_walk_step_records(d, base, n, acc, res);
                        },
                        ScanResult::Fail => {},
                    }
                } else {
                    assert forall|k: int|
                        0 <= k < acc.len() implies #[trigger] record_from_group(
                        d,
                        base,
                        n,
                        acc,
                        k,
                    ) by {
                        lemma_record_from_group_widen(d, base, n1, n, acc, acc, k, k);
                    }
                }
            },
            ScanResult::Done(res) => {
                assert forall|k: int|
                    0 <= k < res.len() implies #[trigger] record_from_group(d, base, n, res, k) by {
                    lemma_record_from_group_widen(d, base, n1, n, res, res, k, k);
                }
            },
            ScanResult::Fail => {},
        }
    }
}

proof fn lemma_walk_step_records<T: BlockDevice>(
    d: T,
    base: u32,
    n: nat,
    acc: Seq<FsEntrySpec>,
    res: Seq<FsEntrySpec>,
)
    requires
        n >= 1,
        base + n - 1 <= u32::MAX,
        forall|k: int|
            0 <= k < acc.len() ==> #[trigger] record_from_group(d, base, (n - 1) as nat, acc, k),
        acc.len() <= res.len(),
        res.subrange(0, acc.len() as int) == acc,
        forall|k: int|
            acc.len() <= k < res.len() ==> #[trigger] record_in_window(
                window_of(d, (base + n - 1) as u32),
                res[k],
            ),
    ensures
        forall|k: int| 0 <= k < res.len() ==> #[trigger] record_from_group(d, base, n, res, k),
{
    let m = acc.len() as int;
    let w = window_of(d, (base + n - 1) as u32);
    assert forall|k: int| 0 <= k < res.len() implies #[trigger] record_from_group(
        d,
        base,
        n,
        res,
        k,
    ) by {
        if k < m {
            assert(res.subrange(0, m)[k] == res[k]);
            assert(acc[k] == res[k]);
            lemma_record_from_group_widen(d, base, (n - 1) as nat, n, acc, res, k, k);
        } else {
            assert(record_in_window(w, res[k]));
            let e = choose|e2: int|
                0 <= e2 < 16 && #[trigger] w[32 * e2] == FILE_DIRECTORY_ENTRY && parse_group(
                    w,
                    e2,
                ) == Some(res[k]);
            let s = n - 1;
            assert((base + s) as u32 == (base + n - 1) as u32);
            assert(window_of(d, (base + s) as u32)[32 * e] == FILE_DIRECTORY_ENTRY);
            assert(parse_group(window_of(d, (base + s) as u32), e) == Some(res[k]));
        }
    }
}

} // verus!
