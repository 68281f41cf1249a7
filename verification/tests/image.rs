use fmde::image::{
    cdxa_form1_to_raw_data, raw_data_to_cdxa_form1, read_slus_from_bin, read_wa_mrg_from_bin,
    write_slus_to_bin, write_wa_mrg_to_bin, ImageError, DATA_SIZE_BYTES, SECTOR_SIZE_BYTES,
    SLUS_OFFSET_SECTORS, SLUS_SIZE_SECTORS, WA_MRG_OFFSET_SECTORS, WA_MRG_SIZE_SECTORS,
};

/// A run of sectors in which every byte tells where it stands.
fn numbered_sectors(sectors: usize) -> Vec<u8> {
    (0..sectors * SECTOR_SIZE_BYTES).map(|k| (k % 251) as u8).collect()
}

fn edc_of(sector: &[u8]) -> u32 {
    u32::from_le_bytes([sector[2072], sector[2073], sector[2074], sector[2075]])
}

#[test]
fn layout_constants() {
    assert_eq!(SECTOR_SIZE_BYTES, 2352);
    assert_eq!(DATA_SIZE_BYTES, 2048);
    assert_eq!(SLUS_OFFSET_SECTORS, 24);
    assert_eq!(SLUS_SIZE_SECTORS, 929);
    assert_eq!(WA_MRG_OFFSET_SECTORS, 10102);
    assert_eq!(WA_MRG_SIZE_SECTORS, 18432);
}

#[test]
fn reading_takes_the_data_of_each_sector() {
    let cdxa = numbered_sectors(3);
    let raw = cdxa_form1_to_raw_data(&cdxa).unwrap();
    assert_eq!(raw.len(), 3 * 2048);
    for sector in 0..3 {
        let from = sector * 2352 + 24;
        assert_eq!(raw[sector * 2048..(sector + 1) * 2048], cdxa[from..from + 2048]);
    }
}

#[test]
fn reading_no_sectors_gives_no_data() {
    assert_eq!(cdxa_form1_to_raw_data(&[]), Ok(vec![]));
}

#[test]
fn reading_a_partial_sector_fails() {
    assert_eq!(cdxa_form1_to_raw_data(&[0u8; 2351]), Err(ImageError::PartialSector));
    assert_eq!(cdxa_form1_to_raw_data(&[0u8; 2353]), Err(ImageError::PartialSector));
    assert_eq!(cdxa_form1_to_raw_data(&[0u8; 1]), Err(ImageError::PartialSector));
}

#[test]
fn writing_replaces_data_and_error_detection_only() {
    let before = numbered_sectors(2);
    let mut cdxa = before.clone();
    let raw: Vec<u8> = (0..2 * 2048).map(|k| (k % 7) as u8).collect();
    assert_eq!(raw_data_to_cdxa_form1(&raw, &mut cdxa), Ok(()));
    for sector in 0..2 {
        let base = sector * 2352;
        assert_eq!(cdxa[base..base + 24], before[base..base + 24]);
        assert_eq!(cdxa[base + 24..base + 2072], raw[sector * 2048..(sector + 1) * 2048]);
        assert_eq!(cdxa[base + 2076..base + 2352], before[base + 2076..base + 2352]);
    }
}

#[test]
fn error_detection_code_of_a_known_sector() {
    let mut cdxa = vec![0u8; 2352];
    assert_eq!(raw_data_to_cdxa_form1(b"123456789", &mut cdxa), Ok(()));
    assert_eq!(edc_of(&cdxa), 0x4dd10117);
    assert_eq!(cdxa[2072..2076], [0x17, 0x01, 0xd1, 0x4d]);
}

#[test]
fn error_detection_code_covers_the_subheader() {
    let mut cdxa = vec![0u8; 2352];
    cdxa[16..24].copy_from_slice(&[0, 0, 8, 0, 0, 0, 8, 0]);
    let raw: Vec<u8> = (0..2048).map(|k| (k % 256) as u8).collect();
    assert_eq!(raw_data_to_cdxa_form1(&raw, &mut cdxa), Ok(()));
    assert_eq!(edc_of(&cdxa), 0x59d00ce9);

    let mut cdxa = vec![0u8; 2352];
    cdxa[16..24].copy_from_slice(&[0, 0, 8, 0, 0, 0, 8, 0]);
    assert_eq!(raw_data_to_cdxa_form1(&[0xAB; 5], &mut cdxa), Ok(()));
    assert_eq!(edc_of(&cdxa), 0x596a9214);
}

#[test]
fn error_detection_code_is_the_cd_rom_edc() {
    let mut cdxa = numbered_sectors(4);
    let raw: Vec<u8> = (0..4 * 2048).map(|k| (k * 31 % 256) as u8).collect();
    assert_eq!(raw_data_to_cdxa_form1(&raw, &mut cdxa), Ok(()));
    let edc = crc::Crc::<u32>::new(&crc::CRC_32_CD_ROM_EDC);
    for sector in cdxa.chunks(2352) {
        assert_eq!(edc_of(sector), edc.checksum(&sector[16..2072]));
    }
}

#[test]
fn sync_pattern_is_outside_the_error_detection_code() {
    let raw = [5u8; 2048];
    let mut plain = vec![0u8; 2352];
    let mut synced = vec![0u8; 2352];
    synced[..16].copy_from_slice(&[0, 255, 255, 255, 255, 255, 255, 255, 255, 255, 255, 0, 1, 2, 3, 2]);
    assert_eq!(raw_data_to_cdxa_form1(&raw, &mut plain), Ok(()));
    assert_eq!(raw_data_to_cdxa_form1(&raw, &mut synced), Ok(()));
    assert_eq!(edc_of(&plain), edc_of(&synced));
}

#[test]
fn short_last_chunk_is_filled_with_zeros() {
    let before = numbered_sectors(2);
    let mut cdxa = before.clone();
    let raw = vec![0x11u8; 2048 + 100];
    assert_eq!(raw_data_to_cdxa_form1(&raw, &mut cdxa), Ok(()));
    assert_eq!(cdxa[24..2072], [0x11u8; 2048]);
    assert_eq!(cdxa[2352 + 24..2352 + 124], [0x11u8; 100]);
    assert_eq!(cdxa[2352 + 124..2352 + 2072], [0u8; 1948]);
}

#[test]
fn sectors_behind_the_data_stay() {
    let before = numbered_sectors(3);
    let mut cdxa = before.clone();
    assert_eq!(raw_data_to_cdxa_form1(&[9u8; 10], &mut cdxa), Ok(()));
    assert_eq!(cdxa[2352..], before[2352..]);
}

#[test]
fn writing_no_data_changes_nothing() {
    let before = numbered_sectors(2);
    let mut cdxa = before.clone();
    assert_eq!(raw_data_to_cdxa_form1(&[], &mut cdxa), Ok(()));
    assert_eq!(cdxa, before);
}

#[test]
fn writing_to_a_partial_sector_fails() {
    let mut cdxa = vec![3u8; 2352 + 1];
    assert_eq!(raw_data_to_cdxa_form1(&[1, 2, 3], &mut cdxa), Err(ImageError::PartialSector));
    assert_eq!(cdxa, vec![3u8; 2352 + 1]);
}

#[test]
fn writing_too_much_data_fails() {
    let before = numbered_sectors(2);
    let mut cdxa = before.clone();
    // one byte more than two sectors take
    let raw = vec![1u8; 2 * 2048 + 1];
    assert_eq!(raw_data_to_cdxa_form1(&raw, &mut cdxa), Err(ImageError::DataTooLarge));
    assert_eq!(cdxa, before);
    let mut none: Vec<u8> = vec![];
    assert_eq!(raw_data_to_cdxa_form1(&[1], &mut none), Err(ImageError::DataTooLarge));
}

#[test]
fn data_that_just_fits_is_written() {
    let mut cdxa = numbered_sectors(2);
    let raw = vec![1u8; 2 * 2048];
    assert_eq!(raw_data_to_cdxa_form1(&raw, &mut cdxa), Ok(()));
    assert_eq!(cdxa_form1_to_raw_data(&cdxa), Ok(raw));
}

#[test]
fn reading_after_writing_gives_the_data() {
    let mut cdxa = numbered_sectors(5);
    let raw: Vec<u8> = (0..5 * 2048).map(|k| (k * 13 % 256) as u8).collect();
    assert_eq!(raw_data_to_cdxa_form1(&raw, &mut cdxa), Ok(()));
    assert_eq!(cdxa_form1_to_raw_data(&cdxa), Ok(raw));
}

#[test]
fn reading_after_writing_short_data_gives_it_zero_padded() {
    let mut cdxa = vec![0u8; 3 * 2352];
    let raw: Vec<u8> = (0..2048 + 700).map(|k| (k % 255 + 1) as u8).collect();
    assert_eq!(raw_data_to_cdxa_form1(&raw, &mut cdxa), Ok(()));
    let mut expected = raw.clone();
    expected.resize(3 * 2048, 0);
    assert_eq!(cdxa_form1_to_raw_data(&cdxa), Ok(expected));
}

#[test]
fn reading_after_writing_short_data_keeps_later_sectors() {
    let before = numbered_sectors(2);
    let mut cdxa = before.clone();
    assert_eq!(raw_data_to_cdxa_form1(&[7u8], &mut cdxa), Ok(()));
    let read = cdxa_form1_to_raw_data(&cdxa).unwrap();
    assert_eq!(read[0], 7);
    assert_eq!(read[1..2048], [0u8; 2047]);
    // the sector that the data does not reach is not zeroed
    assert_eq!(read[2048..], before[2352 + 24..2352 + 2072]);
}

#[test]
fn writing_back_what_was_read_renews_only_the_codes() {
    let before = numbered_sectors(3);
    let mut cdxa = before.clone();
    let raw = cdxa_form1_to_raw_data(&cdxa).unwrap();
    assert_eq!(raw_data_to_cdxa_form1(&raw, &mut cdxa), Ok(()));
    for k in 0..cdxa.len() {
        if !(2072..2076).contains(&(k % 2352)) {
            assert_eq!(cdxa[k], before[k]);
        }
    }
    let mut again = cdxa.clone();
    assert_eq!(raw_data_to_cdxa_form1(&raw, &mut again), Ok(()));
    assert_eq!(again, cdxa);
}

fn image_with(len: usize) -> Vec<u8> {
    let mut rom = vec![0u8; len];
    for (k, byte) in rom.iter_mut().enumerate() {
        *byte = (k % 253) as u8;
    }
    rom
}

const SLUS_START: usize = 24 * 2352;
const SLUS_END: usize = (24 + 929) * 2352;
const WA_MRG_START: usize = 10102 * 2352;
const WA_MRG_END: usize = (10102 + 18432) * 2352;

#[test]
fn slus_is_read_from_its_sectors() {
    let rom = image_with(SLUS_END);
    let slus = read_slus_from_bin(&rom).unwrap();
    assert_eq!(slus.len(), 929 * 2048);
    assert_eq!(slus, cdxa_form1_to_raw_data(&rom[SLUS_START..SLUS_END]).unwrap());
    assert_eq!(slus[0], rom[SLUS_START + 24]);
    assert_eq!(slus[2048], rom[SLUS_START + 2352 + 24]);
}

#[test]
fn slus_needs_the_whole_file() {
    let rom = image_with(SLUS_END - 1);
    assert_eq!(read_slus_from_bin(&rom), Err(ImageError::ImageTooSmall));
    assert_eq!(read_slus_from_bin(&vec![]), Err(ImageError::ImageTooSmall));
}

#[test]
fn slus_is_written_to_its_sectors() {
    let before = image_with(SLUS_END + 5000);
    let mut rom = before.clone();
    let slus: Vec<u8> = (0..929 * 2048).map(|k| (k % 199) as u8).collect();
    assert_eq!(write_slus_to_bin(&mut rom, &slus), Ok(()));
    assert_eq!(rom.len(), before.len());
    assert_eq!(rom[..SLUS_START], before[..SLUS_START]);
    assert_eq!(rom[SLUS_END..], before[SLUS_END..]);
    assert_eq!(read_slus_from_bin(&rom), Ok(slus));
    assert_eq!(rom[SLUS_START..SLUS_START + 24], before[SLUS_START..SLUS_START + 24]);
}

#[test]
fn slus_of_another_size_is_not_written() {
    let before = image_with(SLUS_END);
    let mut rom = before.clone();
    let short = vec![0u8; 929 * 2048 - 1];
    assert_eq!(write_slus_to_bin(&mut rom, &short), Err(ImageError::WrongFileSize));
    let long = vec![0u8; 929 * 2048 + 1];
    assert_eq!(write_slus_to_bin(&mut rom, &long), Err(ImageError::WrongFileSize));
    assert_eq!(rom, before);
}

#[test]
fn slus_is_not_written_to_a_small_image() {
    let before = image_with(SLUS_END - 1);
    let mut rom = before.clone();
    let slus = vec![0u8; 929 * 2048];
    assert_eq!(write_slus_to_bin(&mut rom, &slus), Err(ImageError::ImageTooSmall));
    assert_eq!(rom, before);
}

#[test]
fn wa_mrg_is_read_and_written_at_its_sectors() {
    let before = image_with(WA_MRG_END);
    let mut rom = before.clone();
    let read = read_wa_mrg_from_bin(&rom).unwrap();
    assert_eq!(read.len(), 18432 * 2048);
    assert_eq!(read[0], before[WA_MRG_START + 24]);
    let wa_mrg: Vec<u8> = (0..18432 * 2048).map(|k| (k % 211) as u8).collect();
    assert_eq!(write_wa_mrg_to_bin(&mut rom, &wa_mrg), Ok(()));
    assert_eq!(rom[..WA_MRG_START], before[..WA_MRG_START]);
    assert_eq!(read_wa_mrg_from_bin(&rom), Ok(wa_mrg));
}

#[test]
fn wa_mrg_needs_the_whole_file() {
    let before = image_with(WA_MRG_END - 1);
    let mut rom = before.clone();
    assert_eq!(read_wa_mrg_from_bin(&rom), Err(ImageError::ImageTooSmall));
    let wa_mrg = vec![0u8; 18432 * 2048];
    assert_eq!(write_wa_mrg_to_bin(&mut rom, &wa_mrg), Err(ImageError::ImageTooSmall));
    assert_eq!(write_wa_mrg_to_bin(&mut rom, &[1, 2, 3]), Err(ImageError::WrongFileSize));
    assert_eq!(rom, before);
}
