//! The whole way through the image and back: what is read from it is
//! written into it again.

use vstd::prelude::*;

use crate::duelist::{
    duelist_views,
    duelists_at,
    lemma_write_duelists_after_read,
    read_all_duelists,
    write_all_duelists,
    DataError,
    DuelistView,
    NUMBER_OF_DUELISTS,
};
use crate::GameDataError;
use crate::image::{
    file_sectors,
    lemma_write_after_read,
    read_slus_from_bin,
    read_wa_mrg_from_bin,
    slus_of,
    wa_mrg_of,
    with_file,
    write_slus_to_bin,
    write_wa_mrg_to_bin,
    ImageError,
    CRC_OFFSET_BYTES,
    CRC_SIZE_BYTES,
    SECTOR_SIZE_BYTES,
    SLUS_OFFSET_SECTORS,
    SLUS_SIZE_SECTORS,
    WA_MRG_OFFSET_SECTORS,
    WA_MRG_SIZE_SECTORS,
};

verus! {

/// The image once the game data is passed through it: both files
/// written back as they were read, which renews the error detection
/// codes of their sectors. Fails where the image ends before
/// `WA_MRG.MRG` does, where the duelists cannot be read, and where a
/// card list of some duelist is not valid.
pub open spec fn passed_through(rom: Seq<u8>) -> Result<Seq<u8>, GameDataError> {
    if rom.len() < (WA_MRG_OFFSET_SECTORS + WA_MRG_SIZE_SECTORS) * SECTOR_SIZE_BYTES {
        Err(GameDataError::Image(ImageError::ImageTooSmall))
    } else {
        match duelists_at(slus_of(rom), wa_mrg_of(rom), NUMBER_OF_DUELISTS as nat) {
            Err(e) => Err(GameDataError::Data(e)),
            Ok(duelists) => if exists|i: int|
                0 <= i < duelists.len() && !(#[trigger] duelists[i]).valid() {
                Err(GameDataError::Data(DataError::InvalidCardList))
            } else {
                Ok(
                    with_file(
                        with_file(
                            rom,
                            SLUS_OFFSET_SECTORS as int,
                            SLUS_SIZE_SECTORS as int,
                            slus_of(rom),
                        ),
                        WA_MRG_OFFSET_SECTORS as int,
                        WA_MRG_SIZE_SECTORS as int,
                        wa_mrg_of(rom),
                    ),
                )
            },
        }
    }
}

/// Passing the game data through keeps the size of the image and every
/// byte of it but the error detection codes of the sectors of the two
/// files.
pub proof fn lemma_passed_through_keeps_all_but_edc(rom: Seq<u8>)
    requires
        passed_through(rom) is Ok,
    ensures
        passed_through(rom)->Ok_0.len() == rom.len(),
        forall|k: int|
            0 <= k < rom.len() && !(CRC_OFFSET_BYTES <= k % (SECTOR_SIZE_BYTES as int)
                < CRC_OFFSET_BYTES + CRC_SIZE_BYTES) ==> passed_through(rom)->Ok_0[k] == rom[k],
{
    let slus_sectors = file_sectors(rom, SLUS_OFFSET_SECTORS as int, SLUS_SIZE_SECTORS as int);
    let with_slus = with_file(
        rom,
        SLUS_OFFSET_SECTORS as int,
        SLUS_SIZE_SECTORS as int,
        slus_of(rom),
    );
    let wa_mrg_sectors = file_sectors(
        rom,
        WA_MRG_OFFSET_SECTORS as int,
        WA_MRG_SIZE_SECTORS as int,
    );
    lemma_write_after_read(slus_sectors);
    lemma_write_after_read(wa_mrg_sectors);
    assert(file_sectors(with_slus, WA_MRG_OFFSET_SECTORS as int, WA_MRG_SIZE_SECTORS as int)
        =~= wa_mrg_sectors);
    let passed = passed_through(rom)->Ok_0;
    assert forall|k: int|
        0 <= k < rom.len() && !(CRC_OFFSET_BYTES <= k % (SECTOR_SIZE_BYTES as int)
            < CRC_OFFSET_BYTES + CRC_SIZE_BYTES) implies passed[k] == rom[k] by {
        let slus_start = SLUS_OFFSET_SECTORS * SECTOR_SIZE_BYTES;
        let wa_mrg_start = WA_MRG_OFFSET_SECTORS * SECTOR_SIZE_BYTES;
        if slus_start <= k < slus_start + slus_sectors.len() {
            assert((k - slus_start) % (SECTOR_SIZE_BYTES as int) == k % (SECTOR_SIZE_BYTES as int));
            assert(slus_sectors[k - slus_start] == rom[k]);
        }
        if wa_mrg_start <= k < wa_mrg_start + wa_mrg_sectors.len() {
            assert((k - wa_mrg_start) % (SECTOR_SIZE_BYTES as int) == k % (
            SECTOR_SIZE_BYTES as int));
            assert(wa_mrg_sectors[k - wa_mrg_start] == rom[k]);
        }
    }
}

/// Does a simple passthrough of the game data to verify that we can
/// read & write the image without errors and without accidentally
/// changing something. The image that comes out should be the same as
/// the one that went in.
///
/// Fails as `passed_through` says, and then leaves the image as it is.
pub fn passthrough_test(rom_file: &mut Vec<u8>) -> (result: Result<(), GameDataError>)
    ensures
        match result {
            Ok(()) => passed_through(old(rom_file)@) == Ok::<Seq<u8>, GameDataError>(
                final(rom_file)@,
            ),
            Err(e) => {
                &&& passed_through(old(rom_file)@) == Err::<Seq<u8>, GameDataError>(e)
                &&& final(rom_file)@ == old(rom_file)@
            },
        },
{
    let slus = match read_slus_from_bin(rom_file) {
        Ok(slus) => slus,
        Err(e) => {
            return Err(GameDataError::Image(e));
        },
    };
    let mut wa_mrg = match read_wa_mrg_from_bin(rom_file) {
        Ok(wa_mrg) => wa_mrg,
        Err(e) => {
            return Err(GameDataError::Image(e));
        },
    };
    let duelist_info = match read_all_duelists(&slus, &wa_mrg) {
        Ok(duelist_info) => duelist_info,
        Err(e) => {
            return Err(GameDataError::Data(e));
        },
    };
    let ghost read = duelist_views(duelist_info@);
    proof {
        lemma_write_duelists_after_read(
            slus@,
            wa_mrg@,
            NUMBER_OF_DUELISTS as nat,
            NUMBER_OF_DUELISTS as nat,
        );
    }
    match write_all_duelists(&mut wa_mrg, duelist_info.as_slice()) {
        Ok(()) => {
            assert forall|i: int| 0 <= i < read.len() implies (#[trigger] read[i]).valid() by {
                assert(duelist_info@[i].valid());
            }
        },
        Err(e) => {
            proof {
                let i = choose|i: int|
                    0 <= i < duelist_info@.len() && !(#[trigger] duelist_info@[i]).valid();
                assert(!read[i].valid());
            }
            return Err(GameDataError::Data(e));
        },
    }
    match write_slus_to_bin(rom_file, slus.as_slice()) {
        Ok(()) => {},
        Err(e) => {
            return Err(GameDataError::Image(e));
        },
    }
    match write_wa_mrg_to_bin(rom_file, wa_mrg.as_slice()) {
        Ok(()) => {},
        Err(e) => {
            return Err(GameDataError::Image(e));
        },
    }
    Ok(())
}

} // verus!
