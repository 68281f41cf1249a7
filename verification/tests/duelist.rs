use fmde::duelist::{
    get_card_names, read_all_duelists, read_card_list, read_duelist, write_all_duelists,
    write_card_list_to_slice, write_duelist, CardList, DataError, Duelist, CARDLIST_SIZE,
    NUMBER_OF_CARDS, NUMBER_OF_DUELISTS,
};

const SLUS_SIZE: usize = 929 * 2048;
const WA_MRG_SIZE: usize = 18432 * 2048;
const CARD_INDICES: usize = 0x1C6002;
const DUELIST_INDICES: usize = 0x1C6652;
const NAMES: usize = 0x1C0800;
const DUELISTS: usize = 0xE9B000;

/// A card list with the given rates, by index, and `0` elsewhere.
fn card_list(rates: &[(usize, u16)]) -> CardList {
    let mut list = CardList::new();
    for (index, rate) in rates {
        list.card_rate[*index] = *rate;
    }
    list
}

/// `SLUS_014.11` where the name of card `i` is "A", `i % 5` times "B",
/// and the name of duelist `i` is "D", `i % 3` times "E".
fn slus() -> Vec<u8> {
    let mut slus = vec![0u8; SLUS_SIZE];
    let mut at = 0usize;
    for card in 0..722 {
        slus[CARD_INDICES + 2 * card] = (at & 0xff) as u8;
        slus[CARD_INDICES + 2 * card + 1] = (at >> 8) as u8;
        slus[NAMES + at] = 0x18;
        at += 1;
        for _ in 0..card % 5 {
            slus[NAMES + at] = 0x2D;
            at += 1;
        }
        slus[NAMES + at] = 0xFF;
        at += 1;
    }
    // behind the index arrays
    at = 0x6000;
    for duelist in 0..39 {
        slus[DUELIST_INDICES + 2 * duelist] = (at & 0xff) as u8;
        slus[DUELIST_INDICES + 2 * duelist + 1] = (at >> 8) as u8;
        slus[NAMES + at] = 0x20;
        at += 1;
        for _ in 0..duelist % 3 {
            slus[NAMES + at] = 0x25;
            at += 1;
        }
        slus[NAMES + at] = 0xFF;
        at += 1;
    }
    slus
}

fn card_name(card: usize) -> String {
    format!("A{}", "B".repeat(card % 5))
}

fn duelist_name(duelist: usize) -> String {
    format!("D{}", "E".repeat(duelist % 3))
}

/// The duelist with the number `id`, with four different valid card
/// lists.
fn duelist(id: usize) -> Duelist {
    Duelist {
        name: duelist_name(id),
        deck: card_list(&[(id, 2000), (700, 48)]),
        drops_sa_pow: card_list(&[(0, 1), (id + 1, 2047)]),
        drops_bcd: card_list(&[(721, 1024), (id + 2, 1024)]),
        drops_sa_tec: card_list(&[(5, 300), (6, 700), (id + 100, 1048)]),
    }
}

fn all_duelists() -> Vec<Duelist> {
    (0..39).map(duelist).collect()
}

#[test]
fn sizes() {
    assert_eq!(NUMBER_OF_CARDS, 722);
    assert_eq!(NUMBER_OF_DUELISTS, 39);
    assert_eq!(CARDLIST_SIZE, 1444);
}

#[test]
fn new_card_list_is_all_zero() {
    let list = CardList::new();
    assert_eq!(list.card_rate.len(), 722);
    assert!(list.card_rate.iter().all(|rate| *rate == 0));
    assert!(!list.is_valid());
}

#[test]
fn new_duelist_is_empty() {
    let duelist = Duelist::new();
    assert_eq!(duelist.name, "");
    assert_eq!(duelist.deck, CardList::new());
    assert_eq!(duelist.drops_sa_pow, CardList::new());
    assert_eq!(duelist.drops_sa_tec, CardList::new());
    assert_eq!(duelist.drops_bcd, CardList::new());
}

#[test]
fn rates_that_add_up_to_2048_are_valid() {
    assert!(card_list(&[(0, 2048)]).is_valid());
    assert!(card_list(&[(721, 2048)]).is_valid());
    assert!(card_list(&[(0, 1), (721, 2047)]).is_valid());
    let mut even = CardList::new();
    for index in 0..512 {
        even.card_rate[index] = 4;
    }
    assert!(even.is_valid());
}

#[test]
fn rates_that_add_up_to_2047_or_2049_are_not_valid() {
    assert!(!card_list(&[(0, 2047)]).is_valid());
    assert!(!card_list(&[(0, 2049)]).is_valid());
    assert!(!card_list(&[(0, 2048), (1, 1)]).is_valid());
    assert!(!card_list(&[(3, 1000), (4, 1047)]).is_valid());
}

#[test]
fn sum_is_not_taken_in_sixteen_bits() {
    // 33 * 2048 is 2048 more than sixteen bits hold
    let mut list = CardList::new();
    for index in 0..33 {
        list.card_rate[index] = 2048;
    }
    assert!(!list.is_valid());
    let mut full = CardList::new();
    for index in 0..722 {
        full.card_rate[index] = u16::MAX;
    }
    assert!(!full.is_valid());
}

#[test]
fn card_list_is_read_low_byte_first() {
    let mut bytes = vec![0u8; 1444];
    bytes[0] = 0x34;
    bytes[1] = 0x12;
    bytes[2] = 0xFF;
    bytes[1442] = 0x00;
    bytes[1443] = 0x08;
    let list = read_card_list(&bytes).unwrap();
    assert_eq!(list.card_rate[0], 0x1234);
    assert_eq!(list.card_rate[1], 0x00FF);
    assert_eq!(list.card_rate[2], 0);
    assert_eq!(list.card_rate[721], 0x0800);
}

#[test]
fn card_list_of_another_size_is_not_read() {
    assert_eq!(read_card_list(&[0u8; 1443]), Err(DataError::WrongCardListSize));
    assert_eq!(read_card_list(&[0u8; 1445]), Err(DataError::WrongCardListSize));
    assert_eq!(read_card_list(&[]), Err(DataError::WrongCardListSize));
}

#[test]
fn card_list_is_written_low_byte_first() {
    let list = card_list(&[(0, 0x0123), (1, 0x0400), (721, 0x02DD)]);
    assert!(list.is_valid());
    let mut bytes = vec![0xEEu8; 1444];
    assert_eq!(write_card_list_to_slice(&list, &mut bytes), Ok(()));
    assert_eq!(bytes[0..4], [0x23, 0x01, 0x00, 0x04]);
    assert_eq!(bytes[1442..1444], [0xDD, 0x02]);
    assert!(bytes[4..1442].iter().all(|byte| *byte == 0));
}

#[test]
fn card_list_that_is_not_valid_is_not_written() {
    let mut bytes = vec![0xEEu8; 1444];
    for list in [
        card_list(&[(0, 2047)]),
        card_list(&[(0, 2049)]),
        CardList::new(),
        card_list(&[(0, 2048), (1, 2048)]),
    ] {
        assert_eq!(write_card_list_to_slice(&list, &mut bytes), Err(DataError::InvalidCardList));
        assert_eq!(bytes, vec![0xEEu8; 1444]);
    }
}

#[test]
fn card_list_is_not_written_to_another_size() {
    let list = card_list(&[(0, 2048)]);
    let mut short = vec![0xEEu8; 1443];
    assert_eq!(write_card_list_to_slice(&list, &mut short), Err(DataError::WrongCardListSize));
    assert_eq!(short, vec![0xEEu8; 1443]);
    let mut long = vec![0xEEu8; 1445];
    assert_eq!(write_card_list_to_slice(&list, &mut long), Err(DataError::WrongCardListSize));
    // the size is looked at first
    let invalid = CardList::new();
    assert_eq!(write_card_list_to_slice(&invalid, &mut long), Err(DataError::WrongCardListSize));
    assert_eq!(long, vec![0xEEu8; 1445]);
}

#[test]
fn reading_a_written_card_list_gives_it_back() {
    let list = card_list(&[(0, 1), (1, 255), (2, 256), (3, 1), (400, 1535)]);
    let mut bytes = vec![0u8; 1444];
    assert_eq!(write_card_list_to_slice(&list, &mut bytes), Ok(()));
    assert_eq!(read_card_list(&bytes), Ok(list));
}

#[test]
fn writing_a_read_card_list_gives_the_bytes_back() {
    let mut bytes = vec![0u8; 1444];
    bytes[10] = 0x00;
    bytes[11] = 0x07;
    bytes[500] = 0xFF;
    bytes[700] = 0x01;
    let list = read_card_list(&bytes).unwrap();
    assert!(list.is_valid());
    let mut written = vec![0x55u8; 1444];
    assert_eq!(write_card_list_to_slice(&list, &mut written), Ok(()));
    assert_eq!(written, bytes);
}

#[test]
fn card_names_come_in_the_order_of_the_cards() {
    let names = get_card_names(&slus()).unwrap();
    assert_eq!(names.len(), 722);
    assert_eq!(names[0], "A");
    assert_eq!(names[1], "AB");
    assert_eq!(names[4], "ABBBB");
    assert_eq!(names[5], "A");
    for card in 0..722 {
        assert_eq!(names[card], card_name(card));
    }
}

#[test]
fn card_name_offsets_are_low_byte_first() {
    let mut slus = slus();
    // card 7 takes the name at 0x0102
    slus[CARD_INDICES + 14] = 0x02;
    slus[CARD_INDICES + 15] = 0x01;
    slus[NAMES + 0x0102..NAMES + 0x0106].copy_from_slice(&[0x2B, 0x20, 0x25, 0xFF]);
    let names = get_card_names(&slus).unwrap();
    assert_eq!(names[7], "CDE");
    assert_eq!(names[6], card_name(6));
    assert_eq!(names[8], card_name(8));
}

#[test]
fn card_names_need_the_index_array() {
    let slus = slus();
    assert_eq!(get_card_names(&vec![]), Err(DataError::OutOfBounds));
    assert_eq!(get_card_names(&slus[..CARD_INDICES].to_vec()), Err(DataError::OutOfBounds));
    assert_eq!(get_card_names(&slus[..CARD_INDICES + 1].to_vec()), Err(DataError::OutOfBounds));
    // the last entry is cut in two
    assert_eq!(
        get_card_names(&slus[..CARD_INDICES + 1443].to_vec()),
        Err(DataError::OutOfBounds)
    );
    assert!(get_card_names(&slus[..CARD_INDICES + 1444].to_vec()).is_ok());
}

#[test]
fn card_name_without_terminator_fails() {
    let mut slus = slus();
    // card 3 takes the last three bytes of the file
    let at = SLUS_SIZE - 3 - NAMES;
    slus[CARD_INDICES + 6] = (at & 0xff) as u8;
    slus[CARD_INDICES + 7] = (at >> 8) as u8;
    slus[SLUS_SIZE - 3..].copy_from_slice(&[0x18, 0x2D, 0x2B]);
    assert_eq!(get_card_names(&slus), Err(DataError::MissingTerminator));
    slus[SLUS_SIZE - 1] = 0xFF;
    assert_eq!(get_card_names(&slus).unwrap()[3], "AB");
}

#[test]
fn card_name_beyond_the_file_fails() {
    let mut slus = slus();
    slus.truncate(NAMES + 0x7000);
    slus[CARD_INDICES + 6] = 0x01;
    slus[CARD_INDICES + 7] = 0x70;
    assert_eq!(get_card_names(&slus), Err(DataError::OutOfBounds));
    // a name that starts where the file ends has no terminator
    slus[CARD_INDICES + 6] = 0x00;
    assert_eq!(get_card_names(&slus), Err(DataError::MissingTerminator));
}

fn wa_mrg_with(duelists: &[Duelist]) -> Vec<u8> {
    let mut wa_mrg = vec![0u8; WA_MRG_SIZE];
    for (k, byte) in wa_mrg.iter_mut().enumerate() {
        *byte = (k % 241) as u8;
    }
    assert_eq!(write_all_duelists(&mut wa_mrg, duelists), Ok(()));
    wa_mrg
}

#[test]
fn duelist_is_read_from_its_place() {
    let mut wa_mrg = vec![0u8; WA_MRG_SIZE];
    let base = DUELISTS + 2 * 0x1800;
    // deck: card 1 at 2048
    wa_mrg[base + 1] = 0x08;
    // SA-POW drops: card 2 at 2048
    wa_mrg[base + 0x5B4 + 2 + 1] = 0x08;
    // BCD drops: card 3 at 2048
    wa_mrg[base + 0xB68 + 4 + 1] = 0x08;
    // SA-TEC drops: card 722 at 2048
    wa_mrg[base + 0x111C + 1442 + 1] = 0x08;
    let read = read_duelist(&slus(), &wa_mrg, 2).unwrap();
    assert_eq!(read.name, "DEE");
    assert_eq!(read.deck, card_list(&[(0, 2048)]));
    assert_eq!(read.drops_sa_pow, card_list(&[(1, 2048)]));
    assert_eq!(read.drops_bcd, card_list(&[(2, 2048)]));
    assert_eq!(read.drops_sa_tec, card_list(&[(721, 2048)]));
    let other = read_duelist(&slus(), &wa_mrg, 1).unwrap();
    assert_eq!(other.name, "DE");
    assert_eq!(other.deck, CardList::new());
}

#[test]
fn there_are_39_duelists() {
    let wa_mrg = vec![0u8; WA_MRG_SIZE];
    assert!(read_duelist(&slus(), &wa_mrg, 38).is_ok());
    assert_eq!(read_duelist(&slus(), &wa_mrg, 39), Err(DataError::NoSuchDuelist));
    assert_eq!(read_duelist(&slus(), &wa_mrg, usize::MAX), Err(DataError::NoSuchDuelist));
}

#[test]
fn duelist_needs_its_data() {
    let end = DUELISTS + 0x111C + 1444;
    let wa_mrg = vec![0u8; end];
    assert!(read_duelist(&slus(), &wa_mrg, 0).is_ok());
    assert_eq!(read_duelist(&slus(), &wa_mrg[..end - 1].to_vec(), 0), Err(DataError::OutOfBounds));
    assert_eq!(read_duelist(&slus(), &wa_mrg, 1), Err(DataError::OutOfBounds));
    assert_eq!(read_duelist(&slus(), &vec![], 0), Err(DataError::OutOfBounds));
}

#[test]
fn duelist_needs_its_name() {
    let wa_mrg = vec![0u8; WA_MRG_SIZE];
    let slus = slus();
    assert_eq!(
        read_duelist(&slus[..DUELIST_INDICES + 1].to_vec(), &wa_mrg, 0),
        Err(DataError::OutOfBounds)
    );
    let mut unterminated = slus.clone();
    let at = SLUS_SIZE - 1 - NAMES;
    unterminated[DUELIST_INDICES + 8] = (at & 0xff) as u8;
    unterminated[DUELIST_INDICES + 9] = (at >> 8) as u8;
    unterminated[SLUS_SIZE - 1] = 0x18;
    assert_eq!(read_duelist(&unterminated, &wa_mrg, 4), Err(DataError::MissingTerminator));
    assert!(read_duelist(&unterminated, &wa_mrg, 3).is_ok());
    // the name is looked at before the data
    assert_eq!(read_duelist(&unterminated, &vec![], 4), Err(DataError::MissingTerminator));
}

#[test]
fn all_duelists_are_read_in_order() {
    let written = all_duelists();
    let wa_mrg = wa_mrg_with(&written);
    let read = read_all_duelists(&slus(), &wa_mrg).unwrap();
    assert_eq!(read.len(), 39);
    assert_eq!(read, written);
    assert_eq!(read[0].name, "D");
    assert_eq!(read[38].name, "DEE");
}

#[test]
fn reading_all_duelists_fails_as_the_first_bad_one_does() {
    let wa_mrg = wa_mrg_with(&all_duelists());
    let short = wa_mrg[..DUELISTS + 38 * 0x1800 + 0x111C + 1443].to_vec();
    assert_eq!(read_all_duelists(&slus(), &short), Err(DataError::OutOfBounds));
    let mut unterminated = slus();
    let at = SLUS_SIZE - 1 - NAMES;
    unterminated[DUELIST_INDICES + 20] = (at & 0xff) as u8;
    unterminated[DUELIST_INDICES + 21] = (at >> 8) as u8;
    unterminated[SLUS_SIZE - 1] = 0x18;
    assert_eq!(read_all_duelists(&unterminated, &short), Err(DataError::MissingTerminator));
}

#[test]
fn duelist_is_written_to_its_place() {
    let before = vec![0x77u8; WA_MRG_SIZE];
    let mut wa_mrg = before.clone();
    let written = duelist(4);
    assert_eq!(write_duelist(&mut wa_mrg, 4, &written), Ok(()));
    let base = DUELISTS + 4 * 0x1800;
    assert_eq!(wa_mrg[..base], before[..base]);
    assert_eq!(read_card_list(&wa_mrg[base..base + 1444]), Ok(written.deck));
    assert_eq!(read_card_list(&wa_mrg[base + 0x5B4..base + 0x5B4 + 1444]), Ok(written.drops_sa_pow));
    assert_eq!(read_card_list(&wa_mrg[base + 0xB68..base + 0xB68 + 1444]), Ok(written.drops_bcd));
    assert_eq!(read_card_list(&wa_mrg[base + 0x111C..base + 0x111C + 1444]), Ok(written.drops_sa_tec));
    // between the card lists and behind them nothing changes
    assert_eq!(wa_mrg[base + 1444..base + 0x5B4], before[base + 1444..base + 0x5B4]);
    assert_eq!(wa_mrg[base + 0x111C + 1444..], before[base + 0x111C + 1444..]);
    let read = read_duelist(&slus(), &wa_mrg, 4).unwrap();
    assert_eq!(read, written);
}

#[test]
fn duelist_that_is_not_valid_is_not_written() {
    let before = vec![0x77u8; WA_MRG_SIZE];
    let mut wa_mrg = before.clone();
    let mut invalid = duelist(0);
    invalid.drops_sa_tec.card_rate[9] = 1;
    assert_eq!(write_duelist(&mut wa_mrg, 0, &invalid), Err(DataError::InvalidCardList));
    assert_eq!(write_duelist(&mut wa_mrg, 0, &Duelist::new()), Err(DataError::InvalidCardList));
    assert_eq!(write_duelist(&mut wa_mrg, 39, &duelist(0)), Err(DataError::NoSuchDuelist));
    assert_eq!(wa_mrg, before);
    let mut short = vec![0u8; DUELISTS + 0x111C + 1443];
    assert_eq!(write_duelist(&mut short, 0, &duelist(0)), Err(DataError::OutOfBounds));
    assert_eq!(short, vec![0u8; DUELISTS + 0x111C + 1443]);
}

#[test]
fn all_duelists_are_written() {
    let before = vec![0x77u8; WA_MRG_SIZE];
    let mut wa_mrg = before.clone();
    let written = all_duelists();
    assert_eq!(write_all_duelists(&mut wa_mrg, &written), Ok(()));
    assert_eq!(wa_mrg[..DUELISTS], before[..DUELISTS]);
    let end = DUELISTS + 38 * 0x1800 + 0x111C + 1444;
    assert_eq!(wa_mrg[end..], before[end..]);
    for id in 0..39 {
        assert_eq!(read_duelist(&slus(), &wa_mrg, id).unwrap(), written[id]);
    }
}

#[test]
fn names_are_not_written() {
    let mut renamed = all_duelists();
    renamed[0].name = String::from("Somebody else");
    let wa_mrg = wa_mrg_with(&renamed);
    assert_eq!(wa_mrg, wa_mrg_with(&all_duelists()));
}

#[test]
fn other_than_39_duelists_are_not_written() {
    let before = vec![0x77u8; WA_MRG_SIZE];
    let mut wa_mrg = before.clone();
    let mut duelists = all_duelists();
    duelists.pop();
    assert_eq!(write_all_duelists(&mut wa_mrg, &duelists), Err(DataError::WrongDuelistCount));
    duelists.push(duelist(0));
    duelists.push(duelist(0));
    assert_eq!(write_all_duelists(&mut wa_mrg, &duelists), Err(DataError::WrongDuelistCount));
    assert_eq!(write_all_duelists(&mut wa_mrg, &[]), Err(DataError::WrongDuelistCount));
    assert_eq!(wa_mrg, before);
}

#[test]
fn no_duelist_is_written_where_one_is_not_valid() {
    let before = vec![0x77u8; WA_MRG_SIZE];
    let mut wa_mrg = before.clone();
    let mut duelists = all_duelists();
    duelists[38].drops_bcd.card_rate[0] = 1;
    assert_eq!(write_all_duelists(&mut wa_mrg, &duelists), Err(DataError::InvalidCardList));
    assert_eq!(wa_mrg, before);
    let mut short = vec![0u8; DUELISTS + 38 * 0x1800 + 0x111C + 1443];
    assert_eq!(write_all_duelists(&mut short, &all_duelists()), Err(DataError::OutOfBounds));
    assert!(short.iter().all(|byte| *byte == 0));
}

#[test]
fn writing_back_what_was_read_changes_nothing() {
    let before = wa_mrg_with(&all_duelists());
    let read = read_all_duelists(&slus(), &before).unwrap();
    let mut wa_mrg = before.clone();
    assert_eq!(write_all_duelists(&mut wa_mrg, &read), Ok(()));
    assert_eq!(wa_mrg, before);
}
