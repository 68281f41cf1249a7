//! The disc image. Two files of its filesystem hold the game data:
//! - `SLUS_014.11`, the executable, with the names
//! - `DATA/WA_MRG.MRG`, with the duelists' decks and drops
//!
//! The image is a run of CD-ROM/XA Form 1 sectors, laid out as:
//! - 12 bytes sync pattern
//! - 3 bytes address
//! - 1 byte mode
//! - 8 bytes subheader
//! - 2048 bytes data
//! - 4 bytes error detection
//! - 276 bytes error correction
//!
//! Reading keeps the data of each sector. Writing replaces the data and
//! the error detection code of a sector and leaves the rest of it alone;
//! the error correction bytes are not recomputed.

use vstd::prelude::*;

verus! {

/// The size of a sector.
pub const SECTOR_SIZE_BYTES: usize = 2352;

/// Where the subheader starts in a sector.
pub const SUBHEADER_OFFSET_BYTES: usize = 16;

/// Where the data starts in a sector.
pub const DATA_OFFSET_BYTES: usize = 24;

/// The size of the data of a sector.
pub const DATA_SIZE_BYTES: usize = 2048;

/// Where the error detection code starts in a sector.
pub const CRC_OFFSET_BYTES: usize = 2072;

/// The size of the error detection code.
pub const CRC_SIZE_BYTES: usize = 4;

/// The sector at which `SLUS_014.11` starts.
pub const SLUS_OFFSET_SECTORS: usize = 24;

/// The number of sectors of `SLUS_014.11`.
pub const SLUS_SIZE_SECTORS: usize = 929;

/// The sector at which `WA_MRG.MRG` starts.
pub const WA_MRG_OFFSET_SECTORS: usize = 10102;

/// The number of sectors of `WA_MRG.MRG`.
pub const WA_MRG_SIZE_SECTORS: usize = 18432;

/// The generator polynomial of the error detection code.
pub const EDC_POLY: u32 = 0x8001801b;

/// Why a run of sectors could not be read or written.
#[derive(Debug, Clone, Copy, PartialEq, Eq, Structural)]
pub enum ImageError {
    /// The run of sectors is not made of whole sectors.
    PartialSector,
    /// The data needs more sectors than the run has.
    DataTooLarge,
    /// The image ends before the file does.
    ImageTooSmall,
    /// The data does not have the size of the file it is written to.
    WrongFileSize,
}

/// What the `crc` crate computes over `data` for a 32-bit algorithm
/// with the given width, polynomial, initial value, input and output
/// reflection, and final xor.
pub uninterp spec fn crc32_digest(
    width: u8,
    poly: u32,
    init: u32,
    refin: bool,
    refout: bool,
    xorout: u32,
    data: Seq<u8>,
) -> u32;

/// The error detection code of a sector, over its subheader and data.
pub open spec fn edc(data: Seq<u8>) -> u32 {
    crc32_digest(32, EDC_POLY, 0, true, true, 0, data)
}

/// The four bytes of `value`, least significant first.
pub open spec fn le_bytes(value: u32) -> Seq<u8> {
    seq![
        (value % 0x100) as u8,
        (value / 0x100 % 0x100) as u8,
        (value / 0x1_0000 % 0x100) as u8,
        (value / 0x100_0000) as u8,
    ]
}

/// `data`, cut or filled with zeros to `len` bytes.
pub open spec fn zero_padded(data: Seq<u8>, len: int) -> Seq<u8> {
    Seq::new(len as nat, |k: int| if k < data.len() { data[k] } else { 0u8 })
}

/// The data of a sector.
pub open spec fn sector_data(sector: Seq<u8>) -> Seq<u8> {
    sector.subrange(DATA_OFFSET_BYTES as int, DATA_OFFSET_BYTES + DATA_SIZE_BYTES)
}

/// The sector once `data` is written to it: the data, filled up with
/// zeros, the error detection code of subheader and data behind it, and
/// everything else as it was.
pub open spec fn written_sector(data: Seq<u8>, sector: Seq<u8>) -> Seq<u8> {
    let filled = zero_padded(data, DATA_SIZE_BYTES as int);
    let subheader = sector.subrange(SUBHEADER_OFFSET_BYTES as int, DATA_OFFSET_BYTES as int);
    sector.subrange(0, DATA_OFFSET_BYTES as int) + filled + le_bytes(edc(subheader + filled))
        + sector.subrange(CRC_OFFSET_BYTES + CRC_SIZE_BYTES, SECTOR_SIZE_BYTES as int)
}

/// Compute the error detection code with `Crc::new`, `Crc::digest`,
/// `Digest::update` and `Digest::finalize` of the `crc` crate: the
/// 32-bit CRC of `raw_data` with polynomial `EDC_POLY`, input and
/// output reflected, starting from zero, with no final xor.
#[verifier::external_body]
fn calculate_crc(raw_data: &[u8]) -> (crc: u32)
    requires
        raw_data.len() == DATA_SIZE_BYTES + 8,
    ensures
        crc == crc32_digest(32, EDC_POLY, 0, true, true, 0, raw_data@),
{
    let crc = crc::Crc::<u32>::new(
        &crc::Algorithm {
            width: 32,
            poly: EDC_POLY,
            init: 0,
            refin: true,
            refout: true,
            xorout: 0,
            check: 0,
            residue: 0,
        },
    );
    let mut digest = crc.digest();
    digest.update(raw_data);
    digest.finalize()
}

/// The bytes of `crc`, least significant first, are those of shifts
/// and masks.
proof fn lemma_le_bytes_by_shift(crc: u32)
    ensures
        (crc & 0xff) < 0x100,
        ((crc >> 8) & 0xff) < 0x100,
        ((crc >> 16) & 0xff) < 0x100,
        ((crc >> 24) & 0xff) < 0x100,
        le_bytes(crc) == seq![
            (crc & 0xff) as u8,
            ((crc >> 8) & 0xff) as u8,
            ((crc >> 16) & 0xff) as u8,
            ((crc >> 24) & 0xff) as u8,
        ],
{
    assert((crc & 0xff) == crc % 0x100) by (bit_vector);
    assert(((crc >> 8) & 0xff) == crc / 0x100 % 0x100) by (bit_vector);
    assert(((crc >> 16) & 0xff) == crc / 0x1_0000 % 0x100) by (bit_vector);
    assert(((crc >> 24) & 0xff) == crc / 0x100_0000) by (bit_vector);
}

/// Get the raw data from a single sector.
fn read_data_from_sector(sector: &[u8]) -> (data: &[u8])
    requires
        sector.len() == SECTOR_SIZE_BYTES,
    ensures
        data@ == sector_data(sector@),
{
    &sector[DATA_OFFSET_BYTES..DATA_OFFSET_BYTES + DATA_SIZE_BYTES]
}

/// Write the raw data into a single sector, and the error detection
/// code that goes with it. Raw data shorter than the sector's data is
/// filled up with zeros.
fn write_data_to_sector(raw_data: &[u8], sector: &mut [u8])
    requires
        raw_data.len() <= DATA_SIZE_BYTES,
        old(sector).len() == SECTOR_SIZE_BYTES,
    ensures
        final(sector)@ == written_sector(raw_data@, old(sector)@),
{
    let mut k: usize = 0;
    while k < DATA_SIZE_BYTES
        invariant
            k <= DATA_SIZE_BYTES,
            raw_data.len() <= DATA_SIZE_BYTES,
            sector.len() == SECTOR_SIZE_BYTES,
            forall|j: int|
                0 <= j < SECTOR_SIZE_BYTES && !(DATA_OFFSET_BYTES <= j < DATA_OFFSET_BYTES + k)
                    ==> sector@[j] == old(sector)@[j],
            forall|j: int|
                0 <= j < k ==> sector@[DATA_OFFSET_BYTES + j] == zero_padded(
                    raw_data@,
                    DATA_SIZE_BYTES as int,
                )[j],
        decreases DATA_SIZE_BYTES - k,
    {
        let byte: u8 = if k < raw_data.len() {
            raw_data[k]
        } else {
            0
        };
        sector[DATA_OFFSET_BYTES + k] = byte;
        k += 1;
    }
    let crc = calculate_crc(&sector[SUBHEADER_OFFSET_BYTES..DATA_OFFSET_BYTES + DATA_SIZE_BYTES]);
    proof {
        let filled = zero_padded(raw_data@, DATA_SIZE_BYTES as int);
        let subheader = old(sector)@.subrange(
            SUBHEADER_OFFSET_BYTES as int,
            DATA_OFFSET_BYTES as int,
        );
        assert(sector@.subrange(
            SUBHEADER_OFFSET_BYTES as int,
            DATA_OFFSET_BYTES + DATA_SIZE_BYTES,
        ) =~= subheader + filled);
        lemma_le_bytes_by_shift(crc);
    }
    sector[CRC_OFFSET_BYTES] = (crc & 0xff) as u8;
    sector[CRC_OFFSET_BYTES + 1] = ((crc >> 8) & 0xff) as u8;
    sector[CRC_OFFSET_BYTES + 2] = ((crc >> 16) & 0xff) as u8;
    sector[CRC_OFFSET_BYTES + 3] = ((crc >> 24) & 0xff) as u8;
    assert(sector@ =~= written_sector(raw_data@, old(sector)@));
}

/// The number of sectors that `len` bytes of data fill, the last one
/// perhaps only in part.
pub open spec fn chunk_count(len: int) -> int {
    (len + DATA_SIZE_BYTES - 1) / (DATA_SIZE_BYTES as int)
}

/// Sector `i` of a run of sectors.
pub open spec fn sector_at(cdxa: Seq<u8>, i: int) -> Seq<u8> {
    cdxa.subrange(i * SECTOR_SIZE_BYTES, (i + 1) * SECTOR_SIZE_BYTES)
}

/// The part of `raw` that goes to sector `i`: 2048 bytes, or what is
/// left of `raw` in the last sector that it reaches.
pub open spec fn data_chunk(raw: Seq<u8>, i: int) -> Seq<u8> {
    let end = if (i + 1) * DATA_SIZE_BYTES <= raw.len() {
        (i + 1) * DATA_SIZE_BYTES
    } else {
        raw.len() as int
    };
    raw.subrange(i * DATA_SIZE_BYTES, end)
}

/// The data of a run of whole sectors: the data of each sector, in the
/// order of the sectors.
pub open spec fn cdxa_raw_data(cdxa: Seq<u8>) -> Seq<u8> {
    Seq::new(
        (cdxa.len() / SECTOR_SIZE_BYTES as nat * DATA_SIZE_BYTES) as nat,
        |k: int|
            cdxa[k / (DATA_SIZE_BYTES as int) * SECTOR_SIZE_BYTES + DATA_OFFSET_BYTES + k % (
            DATA_SIZE_BYTES as int)],
    )
}

/// The run of sectors once `raw` is written to it: each sector that
/// `raw` reaches holds its part of `raw`, the others are as they were.
pub open spec fn with_raw_data(raw: Seq<u8>, cdxa: Seq<u8>) -> Seq<u8> {
    Seq::new(
        cdxa.len(),
        |k: int|
            {
                let i = k / (SECTOR_SIZE_BYTES as int);
                if i < chunk_count(raw.len() as int) {
                    written_sector(data_chunk(raw, i), sector_at(cdxa, i))[k % (
                    SECTOR_SIZE_BYTES as int)]
                } else {
                    cdxa[k]
                }
            },
    )
}

/// The data of the first `i + 1` sectors is the data of the first `i`,
/// then that of sector `i`.
proof fn lemma_raw_data_next(cdxa: Seq<u8>, i: int)
    requires
        0 <= i,
        (i + 1) * SECTOR_SIZE_BYTES <= cdxa.len(),
    ensures
        cdxa_raw_data(cdxa.take((i + 1) * SECTOR_SIZE_BYTES)) == cdxa_raw_data(
            cdxa.take(i * SECTOR_SIZE_BYTES),
        ) + sector_data(sector_at(cdxa, i)),
{
    let whole = cdxa_raw_data(cdxa.take((i + 1) * SECTOR_SIZE_BYTES));
    let front = cdxa_raw_data(cdxa.take(i * SECTOR_SIZE_BYTES));
    let last = sector_data(sector_at(cdxa, i));
    assert(whole =~= front + last);
}

/// Extract and concatenate the raw data from a run of sectors.
///
/// Fails where `cdxa_data` is not made of whole sectors, that is where
/// its size is not a multiple of 2352 bytes.
pub fn cdxa_form1_to_raw_data(cdxa_data: &[u8]) -> (result: Result<Vec<u8>, ImageError>)
    ensures
        match result {
            Ok(raw) => cdxa_data.len() % SECTOR_SIZE_BYTES == 0 && raw@ == cdxa_raw_data(cdxa_data@),
            Err(e) => cdxa_data.len() % SECTOR_SIZE_BYTES != 0 && e == ImageError::PartialSector,
        },
{
    if cdxa_data.len() % SECTOR_SIZE_BYTES != 0 {
        return Err(ImageError::PartialSector);
    }
    let sectors = cdxa_data.len() / SECTOR_SIZE_BYTES;
    let mut raw: Vec<u8> = Vec::new();
    let mut i: usize = 0;
    while i < sectors
        invariant
            i <= sectors,
            sectors * SECTOR_SIZE_BYTES == cdxa_data.len(),
            raw@ == cdxa_raw_data(cdxa_data@.take(i * SECTOR_SIZE_BYTES)),
        decreases sectors - i,
    {
        let start = i * SECTOR_SIZE_BYTES;
        let end = start + SECTOR_SIZE_BYTES;
        let sector = &cdxa_data[start..end];
        raw.extend_from_slice(read_data_from_sector(sector));
        proof {
            lemma_raw_data_next(cdxa_data@, i as int);
        }
        i += 1;
    }
    assert(cdxa_data@.take(i * SECTOR_SIZE_BYTES) == cdxa_data@);
    Ok(raw)
}

/// Write raw data into a run of sectors. Each sector takes 2048 bytes
/// of it, the last one that it reaches what is left, filled up with
/// zeros. The sectors behind stay as they are.
///
/// Fails, and leaves `cdxa_data` as it is, where `cdxa_data` is not
/// made of whole sectors, or has fewer sectors than the raw data needs.
pub fn raw_data_to_cdxa_form1(raw_data: &[u8], cdxa_data: &mut [u8]) -> (result: Result<
    (),
    ImageError,
>)
    ensures
        match result {
            Ok(()) => {
                &&& old(cdxa_data).len() % SECTOR_SIZE_BYTES == 0
                &&& chunk_count(raw_data.len() as int) <= old(cdxa_data).len() / SECTOR_SIZE_BYTES
                &&& final(cdxa_data)@ == with_raw_data(raw_data@, old(cdxa_data)@)
            },
            Err(e) => {
                &&& final(cdxa_data)@ == old(cdxa_data)@
                &&& if old(cdxa_data).len() % SECTOR_SIZE_BYTES != 0 {
                    e == ImageError::PartialSector
                } else {
                    &&& e == ImageError::DataTooLarge
                    &&& chunk_count(raw_data.len() as int) > old(cdxa_data).len()
                        / SECTOR_SIZE_BYTES
                }
            },
        },
{
    if cdxa_data.len() % SECTOR_SIZE_BYTES != 0 {
        return Err(ImageError::PartialSector);
    }
    let sectors = cdxa_data.len() / SECTOR_SIZE_BYTES;
    let full_chunks = raw_data.len() / DATA_SIZE_BYTES;
    let chunks = if raw_data.len() % DATA_SIZE_BYTES == 0 {
        full_chunks
    } else {
        full_chunks + 1
    };
    if chunks > sectors {
        return Err(ImageError::DataTooLarge);
    }
    let ghost target = with_raw_data(raw_data@, old(cdxa_data)@);
    let ghost outcome = final(cdxa_data)@;
    let mut rest: &mut [u8] = cdxa_data;
    let mut i: usize = 0;
    while i < chunks
        invariant
            i <= chunks <= sectors,
            chunks == chunk_count(raw_data.len() as int),
            sectors * SECTOR_SIZE_BYTES == old(cdxa_data).len(),
            target == with_raw_data(raw_data@, old(cdxa_data)@),
            rest@ == old(cdxa_data)@.skip(i * SECTOR_SIZE_BYTES),
            outcome == target.take(i * SECTOR_SIZE_BYTES) + final(rest)@,
        decreases chunks - i,
    {
        let (sector, tail) = rest.split_at_mut(SECTOR_SIZE_BYTES);
        let start = i * DATA_SIZE_BYTES;
        let end = if raw_data.len() - start < DATA_SIZE_BYTES {
            raw_data.len()
        } else {
            start + DATA_SIZE_BYTES
        };
        write_data_to_sector(&raw_data[start..end], sector);
        proof {
            assert(old(cdxa_data)@.skip(i * SECTOR_SIZE_BYTES).subrange(
                0,
                SECTOR_SIZE_BYTES as int,
            ) =~= sector_at(old(cdxa_data)@, i as int));
            assert(tail@ =~= old(cdxa_data)@.skip((i + 1) * SECTOR_SIZE_BYTES));
            assert(target.take((i + 1) * SECTOR_SIZE_BYTES) =~= target.take(
                i * SECTOR_SIZE_BYTES,
            ) + written_sector(data_chunk(raw_data@, i as int), sector_at(old(cdxa_data)@, i as int)));
        }
        rest = tail;
        i += 1;
    }
    assert(outcome =~= target);
    Ok(())
}

/// Reading a run of sectors after writing `raw` to it gives `raw`
/// again, filled up with zeros to the end of the last sector that it
/// reaches, and behind that the data that the run held before.
pub proof fn lemma_read_after_write(raw: Seq<u8>, cdxa: Seq<u8>)
    requires
        cdxa.len() % (SECTOR_SIZE_BYTES as nat) == 0,
        chunk_count(raw.len() as int) <= cdxa.len() / (SECTOR_SIZE_BYTES as nat),
    ensures
        cdxa_raw_data(with_raw_data(raw, cdxa)) == zero_padded(
            raw,
            chunk_count(raw.len() as int) * DATA_SIZE_BYTES,
        ) + cdxa_raw_data(cdxa).skip(chunk_count(raw.len() as int) * DATA_SIZE_BYTES),
{
    let chunks = chunk_count(raw.len() as int);
    let written = with_raw_data(raw, cdxa);
    let read = cdxa_raw_data(written);
    let expected = zero_padded(raw, chunks * DATA_SIZE_BYTES) + cdxa_raw_data(cdxa).skip(
        chunks * DATA_SIZE_BYTES,
    );
    assert(read.len() == expected.len());
    assert forall|k: int| 0 <= k < read.len() implies read[k] == expected[k] by {
        let i = k / (DATA_SIZE_BYTES as int);
        let at = i * SECTOR_SIZE_BYTES + DATA_OFFSET_BYTES + k % (DATA_SIZE_BYTES as int);
        assert(at / (SECTOR_SIZE_BYTES as int) == i);
        assert(at % (SECTOR_SIZE_BYTES as int) == DATA_OFFSET_BYTES + k % (DATA_SIZE_BYTES as int));
        assert(read[k] == written[at]);
        if i < chunks {
            let chunk = data_chunk(raw, i);
            let filled = zero_padded(chunk, DATA_SIZE_BYTES as int);
            assert(written[at] == written_sector(chunk, sector_at(cdxa, i))[at % (
            SECTOR_SIZE_BYTES as int)]);
            assert(written[at] == filled[k % (DATA_SIZE_BYTES as int)]);
        }
    }
    assert(read =~= expected);
}

/// Reading a run of sectors after writing `raw` to it gives `raw`
/// again, filled up with zeros to the size of the run's data, where
/// `raw` reaches every sector of the run or the data of the sectors
/// behind it was zero before.
pub proof fn lemma_read_after_write_zero_padded(raw: Seq<u8>, cdxa: Seq<u8>)
    requires
        cdxa.len() % (SECTOR_SIZE_BYTES as nat) == 0,
        chunk_count(raw.len() as int) <= cdxa.len() / (SECTOR_SIZE_BYTES as nat),
        forall|k: int|
            chunk_count(raw.len() as int) * DATA_SIZE_BYTES <= k < cdxa_raw_data(cdxa).len()
                ==> cdxa_raw_data(cdxa)[k] == 0,
    ensures
        cdxa_raw_data(with_raw_data(raw, cdxa)) == zero_padded(
            raw,
            cdxa.len() / (SECTOR_SIZE_BYTES as nat) * DATA_SIZE_BYTES,
        ),
{
    lemma_read_after_write(raw, cdxa);
    assert(cdxa_raw_data(with_raw_data(raw, cdxa)) =~= zero_padded(
        raw,
        cdxa.len() / (SECTOR_SIZE_BYTES as nat) * DATA_SIZE_BYTES,
    ));
}

/// Writing back the data that was read from a run of sectors changes
/// nothing but the error detection codes.
pub proof fn lemma_write_after_read(cdxa: Seq<u8>)
    requires
        cdxa.len() % (SECTOR_SIZE_BYTES as nat) == 0,
    ensures
        with_raw_data(cdxa_raw_data(cdxa), cdxa).len() == cdxa.len(),
        forall|k: int|
            0 <= k < cdxa.len() && !(CRC_OFFSET_BYTES <= k % (SECTOR_SIZE_BYTES as int)
                < CRC_OFFSET_BYTES + CRC_SIZE_BYTES) ==> with_raw_data(cdxa_raw_data(cdxa), cdxa)[k]
                == cdxa[k],
{
    let raw = cdxa_raw_data(cdxa);
    let written = with_raw_data(raw, cdxa);
    assert forall|k: int|
        0 <= k < cdxa.len() && !(CRC_OFFSET_BYTES <= k % (SECTOR_SIZE_BYTES as int)
            < CRC_OFFSET_BYTES + CRC_SIZE_BYTES) implies written[k] == cdxa[k] by {
        let i = k / (SECTOR_SIZE_BYTES as int);
        let at = k % (SECTOR_SIZE_BYTES as int);
        assert(i < chunk_count(raw.len() as int));
        let chunk = data_chunk(raw, i);
        assert(chunk.len() == DATA_SIZE_BYTES);
        assert(written[k] == written_sector(chunk, sector_at(cdxa, i))[at]);
        if DATA_OFFSET_BYTES <= at < CRC_OFFSET_BYTES {
            let j = i * DATA_SIZE_BYTES + at - DATA_OFFSET_BYTES;
            assert(j / (DATA_SIZE_BYTES as int) == i);
            assert(j % (DATA_SIZE_BYTES as int) == at - DATA_OFFSET_BYTES);
            assert(chunk[at - DATA_OFFSET_BYTES] == raw[j]);
        }
    }
}

/// The sectors of a file that starts at sector `offset_sectors` of the
/// image and is `size_sectors` long.
pub open spec fn file_sectors(rom: Seq<u8>, offset_sectors: int, size_sectors: int) -> Seq<u8> {
    rom.subrange(
        offset_sectors * SECTOR_SIZE_BYTES,
        (offset_sectors + size_sectors) * SECTOR_SIZE_BYTES,
    )
}

/// The image once `data` is written to the file that starts at sector
/// `offset_sectors` and is `size_sectors` long: the sectors of the file
/// take the data, the image before and behind them stays as it was.
pub open spec fn with_file(rom: Seq<u8>, offset_sectors: int, size_sectors: int, data: Seq<u8>) -> Seq<
    u8,
> {
    rom.take(offset_sectors * SECTOR_SIZE_BYTES) + with_raw_data(
        data,
        file_sectors(rom, offset_sectors, size_sectors),
    ) + rom.skip((offset_sectors + size_sectors) * SECTOR_SIZE_BYTES)
}

/// `SLUS_014.11` as the image holds it.
pub open spec fn slus_of(rom: Seq<u8>) -> Seq<u8> {
    cdxa_raw_data(file_sectors(rom, SLUS_OFFSET_SECTORS as int, SLUS_SIZE_SECTORS as int))
}

/// `WA_MRG.MRG` as the image holds it.
pub open spec fn wa_mrg_of(rom: Seq<u8>) -> Seq<u8> {
    cdxa_raw_data(file_sectors(rom, WA_MRG_OFFSET_SECTORS as int, WA_MRG_SIZE_SECTORS as int))
}

/// Extract the file at the given sectors from the image.
fn read_file_from_bin(rom_file: &Vec<u8>, offset_sectors: usize, size_sectors: usize) -> (result:
    Result<Vec<u8>, ImageError>)
    requires
        (offset_sectors + size_sectors) * SECTOR_SIZE_BYTES <= u32::MAX,
    ensures
        match result {
            Ok(data) => {
                &&& (offset_sectors + size_sectors) * SECTOR_SIZE_BYTES <= rom_file.len()
                &&& data@ == cdxa_raw_data(
                    file_sectors(rom_file@, offset_sectors as int, size_sectors as int),
                )
            },
            Err(e) => {
                &&& (offset_sectors + size_sectors) * SECTOR_SIZE_BYTES > rom_file.len()
                &&& e == ImageError::ImageTooSmall
            },
        },
{
    let start = offset_sectors * SECTOR_SIZE_BYTES;
    let end = start + size_sectors * SECTOR_SIZE_BYTES;
    if rom_file.len() < end {
        return Err(ImageError::ImageTooSmall);
    }
    cdxa_form1_to_raw_data(&rom_file[start..end])
}

/// Write a file into the image, at the given sectors.
fn write_file_to_bin(
    rom_file: &mut Vec<u8>,
    offset_sectors: usize,
    size_sectors: usize,
    data: &[u8],
) -> (result: Result<(), ImageError>)
    requires
        (offset_sectors + size_sectors) * SECTOR_SIZE_BYTES <= u32::MAX,
    ensures
        match result {
            Ok(()) => {
                &&& data.len() == size_sectors * DATA_SIZE_BYTES
                &&& (offset_sectors + size_sectors) * SECTOR_SIZE_BYTES <= old(rom_file).len()
                &&& final(rom_file)@ == with_file(
                    old(rom_file)@,
                    offset_sectors as int,
                    size_sectors as int,
                    data@,
                )
            },
            Err(e) => {
                &&& final(rom_file)@ == old(rom_file)@
                &&& if data.len() != size_sectors * DATA_SIZE_BYTES {
                    e == ImageError::WrongFileSize
                } else {
                    &&& e == ImageError::ImageTooSmall
                    &&& (offset_sectors + size_sectors) * SECTOR_SIZE_BYTES > old(rom_file).len()
                }
            },
        },
{
    if data.len() != size_sectors * DATA_SIZE_BYTES {
        return Err(ImageError::WrongFileSize);
    }
    let start = offset_sectors * SECTOR_SIZE_BYTES;
    let size = size_sectors * SECTOR_SIZE_BYTES;
    if rom_file.len() < start + size {
        return Err(ImageError::ImageTooSmall);
    }
    let (_, behind) = rom_file.as_mut_slice().split_at_mut(start);
    let (sectors, _) = behind.split_at_mut(size);
    proof {
        assert(sectors@ =~= file_sectors(
            old(rom_file)@,
            offset_sectors as int,
            size_sectors as int,
        ));
    }
    let written = raw_data_to_cdxa_form1(data, sectors);
    proof {
        assert(old(rom_file)@.skip(start as int).skip(size as int) =~= old(rom_file)@.skip(
            start + size,
        ));
    }
    written
}

/// Extract `SLUS_014.11` from the image: the raw data of its sectors,
/// without what CD-ROM/XA puts around it.
///
/// Fails where the image ends before the file does.
pub fn read_slus_from_bin(rom_file: &Vec<u8>) -> (result: Result<Vec<u8>, ImageError>)
    ensures
        match result {
            Ok(slus) => {
                &&& (SLUS_OFFSET_SECTORS + SLUS_SIZE_SECTORS) * SECTOR_SIZE_BYTES <= rom_file.len()
                &&& slus@ == slus_of(rom_file@)
            },
            Err(e) => {
                &&& (SLUS_OFFSET_SECTORS + SLUS_SIZE_SECTORS) * SECTOR_SIZE_BYTES > rom_file.len()
                &&& e == ImageError::ImageTooSmall
            },
        },
{
    read_file_from_bin(rom_file, SLUS_OFFSET_SECTORS, SLUS_SIZE_SECTORS)
}

/// Write `SLUS_014.11` into the image. The sync pattern, address, mode,
/// subheader and error correction of its sectors stay as they are.
///
/// Fails, and leaves the image as it is, where `slus` does not have the
/// size of the file, or the image ends before the file does.
pub fn write_slus_to_bin(rom_file: &mut Vec<u8>, slus: &[u8]) -> (result: Result<(), ImageError>)
    ensures
        match result {
            Ok(()) => {
                &&& slus.len() == SLUS_SIZE_SECTORS * DATA_SIZE_BYTES
                &&& (SLUS_OFFSET_SECTORS + SLUS_SIZE_SECTORS) * SECTOR_SIZE_BYTES <= old(
                    rom_file,
                ).len()
                &&& final(rom_file)@ == with_file(
                    old(rom_file)@,
                    SLUS_OFFSET_SECTORS as int,
                    SLUS_SIZE_SECTORS as int,
                    slus@,
                )
            },
            Err(e) => {
                &&& final(rom_file)@ == old(rom_file)@
                &&& if slus.len() != SLUS_SIZE_SECTORS * DATA_SIZE_BYTES {
                    e == ImageError::WrongFileSize
                } else {
                    &&& e == ImageError::ImageTooSmall
                    &&& (SLUS_OFFSET_SECTORS + SLUS_SIZE_SECTORS) * SECTOR_SIZE_BYTES > old(
                        rom_file,
                    ).len()
                }
            },
        },
{
    write_file_to_bin(rom_file, SLUS_OFFSET_SECTORS, SLUS_SIZE_SECTORS, slus)
}

/// Extract `WA_MRG.MRG` from the image: the raw data of its sectors,
/// without what CD-ROM/XA puts around it.
///
/// Fails where the image ends before the file does.
pub fn read_wa_mrg_from_bin(rom_file: &Vec<u8>) -> (result: Result<Vec<u8>, ImageError>)
    ensures
        match result {
            Ok(wa_mrg) => {
                &&& (WA_MRG_OFFSET_SECTORS + WA_MRG_SIZE_SECTORS) * SECTOR_SIZE_BYTES
                    <= rom_file.len()
                &&& wa_mrg@ == wa_mrg_of(rom_file@)
            },
            Err(e) => {
                &&& (WA_MRG_OFFSET_SECTORS + WA_MRG_SIZE_SECTORS) * SECTOR_SIZE_BYTES
                    > rom_file.len()
                &&& e == ImageError::ImageTooSmall
            },
        },
{
    read_file_from_bin(rom_file, WA_MRG_OFFSET_SECTORS, WA_MRG_SIZE_SECTORS)
}

/// Write `WA_MRG.MRG` into the image. The sync pattern, address, mode,
/// subheader and error correction of its sectors stay as they are.
///
/// Fails, and leaves the image as it is, where `wa_mrg` does not have
/// the size of the file, or the image ends before the file does.
pub fn write_wa_mrg_to_bin(rom_file: &mut Vec<u8>, wa_mrg: &[u8]) -> (result: Result<
    (),
    ImageError,
>)
    ensures
        match result {
            Ok(()) => {
                &&& wa_mrg.len() == WA_MRG_SIZE_SECTORS * DATA_SIZE_BYTES
                &&& (WA_MRG_OFFSET_SECTORS + WA_MRG_SIZE_SECTORS) * SECTOR_SIZE_BYTES <= old(
                    rom_file,
                ).len()
                &&& final(rom_file)@ == with_file(
                    old(rom_file)@,
                    WA_MRG_OFFSET_SECTORS as int,
                    WA_MRG_SIZE_SECTORS as int,
                    wa_mrg@,
                )
            },
            Err(e) => {
                &&& final(rom_file)@ == old(rom_file)@
                &&& if wa_mrg.len() != WA_MRG_SIZE_SECTORS * DATA_SIZE_BYTES {
                    e == ImageError::WrongFileSize
                } else {
                    &&& e == ImageError::ImageTooSmall
                    &&& (WA_MRG_OFFSET_SECTORS + WA_MRG_SIZE_SECTORS) * SECTOR_SIZE_BYTES > old(
                        rom_file,
                    ).len()
                }
            },
        },
{
    write_file_to_bin(rom_file, WA_MRG_OFFSET_SECTORS, WA_MRG_SIZE_SECTORS, wa_mrg)
}

} // verus!
