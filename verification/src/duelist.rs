//! The duelists: their names, decks and drops.
//!
//! The function names follow this convention:
//! - read/write for the game's files
//! - load/dump for csv files

use vstd::prelude::*;
use vstd::string::*;

use crate::csv_table::{
    csv_records,
    dump_cardlist_csv,
    load_cardlist_csv,
    rates_of_table,
    table_text,
    DumpError,
    LoadError,
    LoadFailure,
};
use crate::decimal::{decimal_digits, decimal_string};
use crate::text::{decode_terminated, read_terminated_string};

verus! {

/// The number of cards. Nothing in the game's files says where its
/// arrays end, so their sizes are fixed here.
pub const NUMBER_OF_CARDS: usize = 722;

/// The number of duelists.
pub const NUMBER_OF_DUELISTS: usize = 39;

/// Card rates are stored as 2 bytes.
pub const CARDLIST_SIZE: usize = 2 * NUMBER_OF_CARDS;

/// What the rates of a card list add up to.
pub const RATE_TOTAL: u16 = 2048;

/// Where the index array of the card names starts in `SLUS_014.11`.
pub const CARD_NAME_INDICES_OFFSET: usize = 0x1C6002;

/// From where in `SLUS_014.11` the entries of the index arrays count.
pub const NAME_OFFSET: usize = 0x1C0800;

/// Where the data of the first duelist starts in `WA_MRG.MRG`.
pub const DUELIST_DATA_OFFSET: usize = 0xE9B000;

/// Where the index array of the duelists' names starts in
/// `SLUS_014.11`.
pub const DUELIST_NAME_INDICES_OFFSET: usize = 0x1C6652;

/// The size of the data of one duelist.
pub const DUELIST_DATA_SIZE: usize = 0x1800;

/// Where the deck starts in a duelist's data.
pub const DUELIST_DECK_RELATIVE_OFFSET: usize = 0x0;

/// Where the drops for an SA-POW rank start in a duelist's data.
pub const DUELIST_SAPOW_OFFSET: usize = 0x5B4;

/// Where the drops for a BCD rank start in a duelist's data.
pub const DUELIST_BCD_OFFSET: usize = 0xB68;

/// Where the drops for an SA-TEC rank start in a duelist's data.
pub const DUELIST_SATEC_OFFSET: usize = 0x111C;

/// Why game data could not be read or written.
#[derive(Debug, Clone, Copy, PartialEq, Eq, Structural)]
pub enum DataError {
    /// The file ends before the data does.
    OutOfBounds,
    /// A name runs to the end of the file without a terminator.
    MissingTerminator,
    /// The bytes of a card list are not exactly 1444 (2 per card).
    WrongCardListSize,
    /// The rates of a card list do not add up to 2048.
    InvalidCardList,
    /// There are not exactly 39 duelists.
    WrongDuelistCount,
    /// The duelist's number is not below 39.
    NoSuchDuelist,
}

/// The sum of a run of rates.
pub open spec fn rate_sum(rates: Seq<u16>) -> int
    decreases rates.len(),
{
    if rates.len() == 0 {
        0
    } else {
        rate_sum(rates.drop_last()) + rates.last()
    }
}

/// The number that two bytes stand for, the low byte first.
pub open spec fn le_u16(low: u8, high: u8) -> int {
    low + 0x100 * high
}

/// The card list that 1444 bytes of `WA_MRG.MRG` hold: one rate per
/// card, two bytes each, the low byte first.
pub open spec fn rates_of_bytes(bytes: Seq<u8>) -> Seq<u16> {
    Seq::new(NUMBER_OF_CARDS as nat, |i: int| le_u16(bytes[2 * i], bytes[2 * i + 1]) as u16)
}

/// The 1444 bytes that hold a card list in `WA_MRG.MRG`.
pub open spec fn bytes_of_rates(rates: Seq<u16>) -> Seq<u8> {
    Seq::new(
        CARDLIST_SIZE as nat,
        |k: int|
            if k % 2 == 0 {
                (rates[k / 2] % 0x100) as u8
            } else {
                (rates[k / 2] / 0x100) as u8
            },
    )
}

/// The line that lists the rate of the card at `index`.
pub open spec fn rate_line(index: int, rate: u16) -> Seq<char> {
    decimal_digits(index as nat) + seq![':', ' '] + decimal_digits(rate as nat)
}

/// The lines that list the first `count` cards: one for each card with
/// a rate other than `0`, in the order of the cards.
pub open spec fn rate_lines(rates: Seq<u16>, count: nat) -> Seq<Seq<char>>
    decreases count,
{
    if count == 0 {
        Seq::empty()
    } else if rates[count - 1] != 0 {
        rate_lines(rates, (count - 1) as nat).push(rate_line(count - 1, rates[count - 1]))
    } else {
        rate_lines(rates, (count - 1) as nat)
    }
}

/// A list of weights, one for each card. These are used to:
/// - generate the duelist's deck
/// - determine the card dropped at the end of a victory
#[derive(Debug, Clone, Copy, PartialEq, Eq)]
pub struct CardList {
    pub card_rate: [u16; NUMBER_OF_CARDS],
}

impl View for CardList {
    type V = Seq<u16>;

    open spec fn view(&self) -> Seq<u16> {
        self.card_rate@
    }
}

impl CardList {
    /// The rates add up to 2048.
    pub open spec fn valid(&self) -> bool {
        rate_sum(self@) == RATE_TOTAL
    }

    /// Create a card list where all weights are `0`. The game cannot
    /// use such a list: it has to be filled before it is written.
    pub fn new() -> (card_list: CardList)
        ensures
            card_list@ == Seq::new(NUMBER_OF_CARDS as nat, |i: int| 0u16),
    {
        let card_list = CardList { card_rate: [0;NUMBER_OF_CARDS] };
        assert(card_list@ =~= Seq::new(NUMBER_OF_CARDS as nat, |i: int| 0u16));
        card_list
    }

    /// Check that a card list is valid. This means that all weights
    /// add up to 2048.
    pub fn is_valid(&self) -> (valid: bool)
        ensures
            valid == self.valid(),
    {
        let mut sum: u32 = 0;
        let mut i: usize = 0;
        while i < NUMBER_OF_CARDS
            invariant
                i <= NUMBER_OF_CARDS,
                sum == rate_sum(self@.take(i as int)),
                sum <= i * 0xffff,
            decreases NUMBER_OF_CARDS - i,
        {
            assert(self@.take(i + 1).drop_last() =~= self@.take(i as int));
            sum += self.card_rate[i] as u32;
            i += 1;
        }
        assert(self@.take(i as int) =~= self@);
        sum == RATE_TOTAL as u32
    }

    /// The lines that list the card list: one for each card with a
    /// rate other than `0`, with the index of the card and the rate.
    pub fn print(&self) -> (lines: Vec<String>)
        ensures
            lines.deep_view() == rate_lines(self@, NUMBER_OF_CARDS as nat),
    {
        let mut lines: Vec<String> = Vec::new();
        assert(lines.deep_view() =~= Seq::<Seq<char>>::empty());
        let mut id: usize = 0;
        while id < NUMBER_OF_CARDS
            invariant
                id <= NUMBER_OF_CARDS,
                lines.deep_view() == rate_lines(self@, id as nat),
            decreases NUMBER_OF_CARDS - id,
        {
            let cr = self.card_rate[id];
            if cr != 0 {
                let ghost before = lines.deep_view();
                let mut line = decimal_string(id as u64);
                line.push(':');
                line.push(' ');
                line.append(decimal_string(cr as u64).as_str());
                assert(line@ =~= rate_line(id as int, cr));
                lines.push(line);
                assert(lines.deep_view() =~= before.push(rate_line(id as int, cr)));
            }
            id += 1;
        }
        lines
    }
}

/// Reading the bytes that hold a card list gives the card list.
pub proof fn lemma_rates_of_bytes_of_rates(rates: Seq<u16>)
    requires
        rates.len() == NUMBER_OF_CARDS,
    ensures
        rates_of_bytes(bytes_of_rates(rates)) == rates,
{
    assert(rates_of_bytes(bytes_of_rates(rates)) =~= rates);
}

/// The bytes that hold the card list read from 1444 bytes are those
/// bytes.
pub proof fn lemma_bytes_of_rates_of_bytes(bytes: Seq<u8>)
    requires
        bytes.len() == CARDLIST_SIZE,
    ensures
        bytes_of_rates(rates_of_bytes(bytes)) == bytes,
{
    assert(bytes_of_rates(rates_of_bytes(bytes)) =~= bytes);
}

/// Shifts put the two bytes of a rate together and take them apart.
proof fn lemma_rate_by_shift(low: u8, high: u8, rate: u16)
    ensures
        ((high as u16) << 8) + (low as u16) == le_u16(low, high),
        (rate & 0xff) == rate % 0x100,
        (rate >> 8) == rate / 0x100,
        (rate & 0xff) < 0x100,
        (rate >> 8) < 0x100,
{
    assert(((high as u16) << 8) == 0x100 * (high as u16)) by (bit_vector);
    assert((rate & 0xff) == rate % 0x100) by (bit_vector);
    assert((rate >> 8) == rate / 0x100) by (bit_vector);
}

/// The card list that 1444 bytes hold.
fn card_list_of_bytes(card_list_data: &[u8]) -> (card_list: CardList)
    requires
        card_list_data.len() == CARDLIST_SIZE,
    ensures
        card_list@ == rates_of_bytes(card_list_data@),
{
    let mut card_list = CardList::new();
    let mut i: usize = 0;
    while i < NUMBER_OF_CARDS
        invariant
            i <= NUMBER_OF_CARDS,
            card_list_data.len() == CARDLIST_SIZE,
            forall|j: int|
                0 <= j < i ==> card_list@[j] == le_u16(
                    card_list_data@[2 * j],
                    card_list_data@[2 * j + 1],
                ),
        decreases NUMBER_OF_CARDS - i,
    {
        let low_byte: u16 = card_list_data[2 * i] as u16;
        let high_byte: u16 = card_list_data[2 * i + 1] as u16;
        proof {
            lemma_rate_by_shift(card_list_data@[2 * i], card_list_data@[2 * i + 1], 0);
        }
        let ghost before = card_list@;
        card_list.card_rate[i] = (high_byte << 8) + low_byte;
        assert(card_list@ == before.update(i as int, ((high_byte << 8) + low_byte) as u16));
        i += 1;
    }
    assert(card_list@ =~= rates_of_bytes(card_list_data@));
    card_list
}

/// Read a card list from the format used in `WA_MRG.MRG`.
///
/// Fails where `card_list_data` is not exactly 1444 bytes long.
pub fn read_card_list(card_list_data: &[u8]) -> (result: Result<CardList, DataError>)
    ensures
        match result {
            Ok(card_list) => {
                &&& card_list_data.len() == CARDLIST_SIZE
                &&& card_list@ == rates_of_bytes(card_list_data@)
            },
            Err(e) => card_list_data.len() != CARDLIST_SIZE && e == DataError::WrongCardListSize,
        },
{
    if card_list_data.len() != CARDLIST_SIZE {
        return Err(DataError::WrongCardListSize);
    }
    Ok(card_list_of_bytes(card_list_data))
}

/// Fill 1444 bytes with a card list.
fn card_list_to_bytes(card_list: &CardList, target: &mut [u8])
    requires
        old(target).len() == CARDLIST_SIZE,
    ensures
        final(target)@ == bytes_of_rates(card_list@),
{
    let mut i: usize = 0;
    while i < NUMBER_OF_CARDS
        invariant
            i <= NUMBER_OF_CARDS,
            target.len() == CARDLIST_SIZE,
            forall|k: int| 0 <= k < 2 * i ==> target@[k] == bytes_of_rates(card_list@)[k],
        decreases NUMBER_OF_CARDS - i,
    {
        let rate = card_list.card_rate[i];
        proof {
            lemma_rate_by_shift(0, 0, rate);
        }
        let low_byte = (rate & 0xff) as u8;
        let high_byte = (rate >> 8) as u8;
        target[2 * i] = low_byte;
        target[2 * i + 1] = high_byte;
        i += 1;
    }
    assert(target@ =~= bytes_of_rates(card_list@));
}

/// Write a card list into the given slice, in the format used in
/// `WA_MRG.MRG`.
///
/// Fails, and leaves `target` as it is, where `target` is not exactly
/// 1444 bytes long or the card list is not valid.
pub fn write_card_list_to_slice(card_list: &CardList, target: &mut [u8]) -> (result: Result<
    (),
    DataError,
>)
    ensures
        match result {
            Ok(()) => {
                &&& old(target).len() == CARDLIST_SIZE
                &&& card_list.valid()
                &&& final(target)@ == bytes_of_rates(card_list@)
            },
            Err(e) => {
                &&& final(target)@ == old(target)@
                &&& if old(target).len() != CARDLIST_SIZE {
                    e == DataError::WrongCardListSize
                } else {
                    !card_list.valid() && e == DataError::InvalidCardList
                }
            },
        },
{
    if target.len() != CARDLIST_SIZE {
        return Err(DataError::WrongCardListSize);
    }
    if !card_list.is_valid() {
        return Err(DataError::InvalidCardList);
    }
    card_list_to_bytes(card_list, target);
    Ok(())
}

/// A duelist: the name, the deck, and the cards dropped after a duel,
/// by the rank of the victory.
#[derive(Debug, Clone, PartialEq, Eq)]
pub struct Duelist {
    pub name: String,
    pub deck: CardList,
    pub drops_sa_pow: CardList,
    pub drops_sa_tec: CardList,
    pub drops_bcd: CardList,
}

/// What a duelist holds.
pub ghost struct DuelistView {
    pub name: Seq<char>,
    pub deck: Seq<u16>,
    pub drops_sa_pow: Seq<u16>,
    pub drops_sa_tec: Seq<u16>,
    pub drops_bcd: Seq<u16>,
}

impl View for Duelist {
    type V = DuelistView;

    open spec fn view(&self) -> DuelistView {
        DuelistView {
            name: self.name@,
            deck: self.deck@,
            drops_sa_pow: self.drops_sa_pow@,
            drops_sa_tec: self.drops_sa_tec@,
            drops_bcd: self.drops_bcd@,
        }
    }
}

impl DuelistView {
    /// The rates of each of the four card lists add up to 2048.
    pub open spec fn valid(self) -> bool {
        &&& rate_sum(self.deck) == RATE_TOTAL
        &&& rate_sum(self.drops_sa_pow) == RATE_TOTAL
        &&& rate_sum(self.drops_bcd) == RATE_TOTAL
        &&& rate_sum(self.drops_sa_tec) == RATE_TOTAL
    }
}

impl Duelist {
    /// All four card lists of the duelist are valid.
    pub open spec fn valid(&self) -> bool {
        self@.valid()
    }

    /// A duelist without a name, whose card lists are all zero.
    pub fn new() -> (duelist: Duelist)
        ensures
            duelist@ == (DuelistView {
                name: Seq::empty(),
                deck: Seq::new(NUMBER_OF_CARDS as nat, |i: int| 0u16),
                drops_sa_pow: Seq::new(NUMBER_OF_CARDS as nat, |i: int| 0u16),
                drops_sa_tec: Seq::new(NUMBER_OF_CARDS as nat, |i: int| 0u16),
                drops_bcd: Seq::new(NUMBER_OF_CARDS as nat, |i: int| 0u16),
            }),
    {
        Duelist {
            name: String::new(),
            deck: CardList::new(),
            drops_sa_pow: CardList::new(),
            drops_bcd: CardList::new(),
            drops_sa_tec: CardList::new(),
        }
    }
}

/// The name behind the entry at `entry` of an index array of
/// `SLUS_014.11`. The entry is two bytes, the low byte first: where the
/// name starts, counted from `NAME_OFFSET`. The name ends at the
/// first terminator.
pub open spec fn name_at(slus: Seq<u8>, entry: int) -> Result<Seq<char>, DataError> {
    if entry + 2 > slus.len() {
        Err(DataError::OutOfBounds)
    } else {
        let start = NAME_OFFSET + le_u16(slus[entry], slus[entry + 1]);
        if start > slus.len() {
            Err(DataError::OutOfBounds)
        } else {
            match decode_terminated(slus.skip(start)) {
                Some(name) => Ok(name),
                None => Err(DataError::MissingTerminator),
            }
        }
    }
}

/// The first `count` names of the index array at `indices`, or what
/// stands in the way of the first of them that cannot be read.
pub open spec fn names_at(slus: Seq<u8>, indices: int, count: nat) -> Result<
    Seq<Seq<char>>,
    DataError,
>
    decreases count,
{
    if count == 0 {
        Ok(Seq::empty())
    } else {
        match names_at(slus, indices, (count - 1) as nat) {
            Err(e) => Err(e),
            Ok(names) => match name_at(slus, indices + 2 * (count - 1)) {
                Err(e) => Err(e),
                Ok(name) => Ok(names.push(name)),
            },
        }
    }
}

/// The names of all cards, by card: the card with the number `i + 1`
/// comes at index `i`.
pub open spec fn card_names(slus: Seq<u8>) -> Result<Seq<Seq<char>>, DataError> {
    names_at(slus, CARD_NAME_INDICES_OFFSET as int, NUMBER_OF_CARDS as nat)
}

/// Read the name behind the entry at `entry` of an index array.
fn read_name(slus: &Vec<u8>, entry: usize) -> (result: Result<String, DataError>)
    requires
        entry <= 0x1000_0000,
    ensures
        match result {
            Ok(name) => name_at(slus@, entry as int) == Ok::<Seq<char>, DataError>(name@),
            Err(e) => name_at(slus@, entry as int) == Err::<Seq<char>, DataError>(e),
        },
{
    if slus.len() < 2 || entry > slus.len() - 2 {
        return Err(DataError::OutOfBounds);
    }
    // The game stores a relative offset starting from NAME_OFFSET
    let low_byte: usize = slus[entry] as usize;
    let high_byte: usize = slus[entry + 1] as usize;
    assert(high_byte << 8 == 0x100 * high_byte) by (bit_vector)
        requires
            high_byte < 0x100,
    ;
    let name_relative_offset: usize = (high_byte << 8) + low_byte;
    let name_absolute_offset = NAME_OFFSET + name_relative_offset;
    if name_absolute_offset > slus.len() {
        return Err(DataError::OutOfBounds);
    }
    let rest = &slus.as_slice()[name_absolute_offset..slus.len()];
    assert(rest@ =~= slus@.skip(name_absolute_offset as int));
    match read_terminated_string(rest) {
        Some(name) => Ok(name),
        None => Err(DataError::MissingTerminator),
    }
}

/// Read all the card names from `SLUS_014.11`.
///
/// Fails at the first name that cannot be read: where the file ends
/// before the name's entry or before the name, or where the name has no
/// terminator.
pub fn get_card_names(slus: &Vec<u8>) -> (result: Result<Vec<String>, DataError>)
    ensures
        match result {
            Ok(names) => {
                &&& names.len() == NUMBER_OF_CARDS
                &&& card_names(slus@) == Ok::<Seq<Seq<char>>, DataError>(names.deep_view())
            },
            Err(e) => card_names(slus@) == Err::<Seq<Seq<char>>, DataError>(e),
        },
{
    let mut names: Vec<String> = Vec::new();
    assert(names.deep_view() =~= Seq::<Seq<char>>::empty());
    let mut i: usize = 0;
    while i < NUMBER_OF_CARDS
        invariant
            i <= NUMBER_OF_CARDS,
            names.len() == i,
            names_at(slus@, CARD_NAME_INDICES_OFFSET as int, i as nat) == Ok::<
                Seq<Seq<char>>,
                DataError,
            >(names.deep_view()),
        decreases NUMBER_OF_CARDS - i,
    {
        let ghost before = names.deep_view();
        match read_name(slus, CARD_NAME_INDICES_OFFSET + 2 * i) {
            Ok(name) => {
                names.push(name);
                assert(names.deep_view() =~= before.push(name@));
            },
            Err(e) => {
                proof {
                    lemma_names_at_fails(
                        slus@,
                        CARD_NAME_INDICES_OFFSET as int,
                        i as nat,
                        NUMBER_OF_CARDS as nat,
                    );
                }
                return Err(e);
            },
        }
        i += 1;
    }
    Ok(names)
}

/// Where the names cannot all be read up to some entry, they cannot be
/// read beyond it either, and for the same reason.
proof fn lemma_names_at_fails(slus: Seq<u8>, indices: int, failed: nat, count: nat)
    requires
        failed < count,
        names_at(slus, indices, (failed + 1) as nat) is Err,
    ensures
        names_at(slus, indices, count) == names_at(slus, indices, (failed + 1) as nat),
    decreases count,
{
    if count > failed + 1 {
        lemma_names_at_fails(slus, indices, failed, (count - 1) as nat);
    }
}

/// Where the data of duelist `id` starts in `WA_MRG.MRG`.
pub open spec fn duelist_offset(id: int) -> int {
    DUELIST_DATA_OFFSET + DUELIST_DATA_SIZE * id
}

/// Where the last card list of duelist `id` ends in `WA_MRG.MRG`.
pub open spec fn duelist_end(id: int) -> int {
    duelist_offset(id) + DUELIST_SATEC_OFFSET + CARDLIST_SIZE
}

/// The card list that `WA_MRG.MRG` holds at `offset`.
pub open spec fn rates_at(wa_mrg: Seq<u8>, offset: int) -> Seq<u16> {
    rates_of_bytes(wa_mrg.subrange(offset, offset + CARDLIST_SIZE))
}

/// `WA_MRG.MRG` with the card list at `offset` replaced.
pub open spec fn with_rates(wa_mrg: Seq<u8>, offset: int, rates: Seq<u16>) -> Seq<u8> {
    wa_mrg.take(offset) + bytes_of_rates(rates) + wa_mrg.skip(offset + CARDLIST_SIZE)
}

/// Duelist `id` as the two files hold it: the name behind entry `id` of
/// the index array of duelist names, and the four card lists of the
/// duelist's data.
pub open spec fn duelist_at(slus: Seq<u8>, wa_mrg: Seq<u8>, id: int) -> Result<
    DuelistView,
    DataError,
> {
    match name_at(slus, DUELIST_NAME_INDICES_OFFSET + 2 * id) {
        Err(e) => Err(e),
        Ok(name) => if duelist_end(id) > wa_mrg.len() {
            Err(DataError::OutOfBounds)
        } else {
            Ok(
                DuelistView {
                    name,
                    deck: rates_at(wa_mrg, duelist_offset(id) + DUELIST_DECK_RELATIVE_OFFSET),
                    drops_sa_pow: rates_at(wa_mrg, duelist_offset(id) + DUELIST_SAPOW_OFFSET),
                    drops_sa_tec: rates_at(wa_mrg, duelist_offset(id) + DUELIST_SATEC_OFFSET),
                    drops_bcd: rates_at(wa_mrg, duelist_offset(id) + DUELIST_BCD_OFFSET),
                },
            )
        },
    }
}

/// The first `count` duelists, or what stands in the way of the first
/// of them that cannot be read.
pub open spec fn duelists_at(slus: Seq<u8>, wa_mrg: Seq<u8>, count: nat) -> Result<
    Seq<DuelistView>,
    DataError,
>
    decreases count,
{
    if count == 0 {
        Ok(Seq::empty())
    } else {
        match duelists_at(slus, wa_mrg, (count - 1) as nat) {
            Err(e) => Err(e),
            Ok(duelists) => match duelist_at(slus, wa_mrg, count - 1) {
                Err(e) => Err(e),
                Ok(duelist) => Ok(duelists.push(duelist)),
            },
        }
    }
}

/// `WA_MRG.MRG` with the four card lists of duelist `id` replaced by
/// those of `duelist`.
pub open spec fn with_duelist(wa_mrg: Seq<u8>, id: int, duelist: DuelistView) -> Seq<u8> {
    let deck = with_rates(wa_mrg, duelist_offset(id) + DUELIST_DECK_RELATIVE_OFFSET, duelist.deck);
    let sa_pow = with_rates(deck, duelist_offset(id) + DUELIST_SAPOW_OFFSET, duelist.drops_sa_pow);
    let bcd = with_rates(sa_pow, duelist_offset(id) + DUELIST_BCD_OFFSET, duelist.drops_bcd);
    with_rates(bcd, duelist_offset(id) + DUELIST_SATEC_OFFSET, duelist.drops_sa_tec)
}

/// `WA_MRG.MRG` with the card lists of the first `count` duelists
/// replaced by those of `duelists`.
pub open spec fn with_duelists(wa_mrg: Seq<u8>, duelists: Seq<DuelistView>, count: nat) -> Seq<u8>
    decreases count,
{
    if count == 0 {
        wa_mrg
    } else {
        with_duelist(
            with_duelists(wa_mrg, duelists, (count - 1) as nat),
            count - 1,
            duelists[count - 1],
        )
    }
}

/// What each of a run of duelists holds.
pub open spec fn duelist_views(duelists: Seq<Duelist>) -> Seq<DuelistView> {
    Seq::new(duelists.len(), |i: int| duelists[i]@)
}

/// Read the card list at `offset` of `WA_MRG.MRG`.
fn read_card_list_at(wa_mrg: &Vec<u8>, offset: usize) -> (card_list: CardList)
    requires
        offset + CARDLIST_SIZE <= wa_mrg.len(),
    ensures
        card_list@ == rates_at(wa_mrg@, offset as int),
{
    card_list_of_bytes(&wa_mrg.as_slice()[offset..offset + CARDLIST_SIZE])
}

/// Write a card list at `offset` of `WA_MRG.MRG`.
fn write_card_list_at(wa_mrg: &mut Vec<u8>, offset: usize, card_list: &CardList)
    requires
        offset + CARDLIST_SIZE <= old(wa_mrg).len(),
    ensures
        final(wa_mrg)@ == with_rates(old(wa_mrg)@, offset as int, card_list@),
{
    let (_, behind) = wa_mrg.as_mut_slice().split_at_mut(offset);
    let (target, _) = behind.split_at_mut(CARDLIST_SIZE);
    card_list_to_bytes(card_list, target);
    assert(old(wa_mrg)@.skip(offset as int).skip(CARDLIST_SIZE as int) =~= old(wa_mrg)@.skip(
        offset + CARDLIST_SIZE,
    ));
    assert(old(wa_mrg)@.subrange(0, offset as int) =~= old(wa_mrg)@.take(offset as int));
}

/// Read a single duelist's data: the name from `SLUS_014.11`, the card
/// lists from `WA_MRG.MRG`.
///
/// Fails where there is no duelist of that number, where the name
/// cannot be read, and where `WA_MRG.MRG` ends before the duelist's
/// data does.
pub fn read_duelist(slus: &Vec<u8>, wa_mrg: &Vec<u8>, duelist_id: usize) -> (result: Result<
    Duelist,
    DataError,
>)
    ensures
        match result {
            Ok(duelist) => {
                &&& duelist_id < NUMBER_OF_DUELISTS
                &&& duelist_at(slus@, wa_mrg@, duelist_id as int) == Ok::<DuelistView, DataError>(
                    duelist@,
                )
            },
            Err(e) => if duelist_id >= NUMBER_OF_DUELISTS {
                e == DataError::NoSuchDuelist
            } else {
                duelist_at(slus@, wa_mrg@, duelist_id as int) == Err::<DuelistView, DataError>(e)
            },
        },
{
    if duelist_id >= NUMBER_OF_DUELISTS {
        return Err(DataError::NoSuchDuelist);
    }
    let name = match read_name(slus, DUELIST_NAME_INDICES_OFFSET + 2 * duelist_id) {
        Ok(name) => name,
        Err(e) => {
            return Err(e);
        },
    };
    // Relative offset from the start of the duelist data array.
    let current_duelist_offset = DUELIST_DATA_OFFSET + (DUELIST_DATA_SIZE * duelist_id);
    if wa_mrg.len() < current_duelist_offset + DUELIST_SATEC_OFFSET + CARDLIST_SIZE {
        return Err(DataError::OutOfBounds);
    }
    let deck_offset = current_duelist_offset + DUELIST_DECK_RELATIVE_OFFSET;
    let drops_sa_pow_offset = current_duelist_offset + DUELIST_SAPOW_OFFSET;
    let drops_bcd_offset = current_duelist_offset + DUELIST_BCD_OFFSET;
    let drops_sa_tec_offset = current_duelist_offset + DUELIST_SATEC_OFFSET;

    Ok(
        Duelist {
            name,
            deck: read_card_list_at(wa_mrg, deck_offset),
            drops_sa_pow: read_card_list_at(wa_mrg, drops_sa_pow_offset),
            drops_bcd: read_card_list_at(wa_mrg, drops_bcd_offset),
            drops_sa_tec: read_card_list_at(wa_mrg, drops_sa_tec_offset),
        },
    )
}

/// Whether all four card lists of the duelist are valid.
fn duelist_is_valid(duelist: &Duelist) -> (valid: bool)
    ensures
        valid == duelist.valid(),
{
    duelist.deck.is_valid() && duelist.drops_sa_pow.is_valid() && duelist.drops_bcd.is_valid()
        && duelist.drops_sa_tec.is_valid()
}

/// Write a single duelist's card lists into `WA_MRG.MRG`. The name is
/// not written.
///
/// Fails, and leaves `wa_mrg` as it is, where there is no duelist of
/// that number, where `wa_mrg` ends before the duelist's data does, and
/// where one of the card lists is not valid.
pub fn write_duelist(wa_mrg: &mut Vec<u8>, duelist_id: usize, duelist_info: &Duelist) -> (result:
    Result<(), DataError>)
    ensures
        match result {
            Ok(()) => {
                &&& duelist_id < NUMBER_OF_DUELISTS
                &&& duelist_end(duelist_id as int) <= old(wa_mrg).len()
                &&& duelist_info.valid()
                &&& final(wa_mrg)@ == with_duelist(old(wa_mrg)@, duelist_id as int, duelist_info@)
            },
            Err(e) => {
                &&& final(wa_mrg)@ == old(wa_mrg)@
                &&& if duelist_id >= NUMBER_OF_DUELISTS {
                    e == DataError::NoSuchDuelist
                } else if duelist_end(duelist_id as int) > old(wa_mrg).len() {
                    e == DataError::OutOfBounds
                } else {
                    !duelist_info.valid() && e == DataError::InvalidCardList
                }
            },
        },
{
    if duelist_id >= NUMBER_OF_DUELISTS {
        return Err(DataError::NoSuchDuelist);
    }
    // Relative offset from the start of the duelist data array.
    let current_duelist_offset = DUELIST_DATA_OFFSET + (DUELIST_DATA_SIZE * duelist_id);
    if wa_mrg.len() < current_duelist_offset + DUELIST_SATEC_OFFSET + CARDLIST_SIZE {
        return Err(DataError::OutOfBounds);
    }
    if !duelist_is_valid(duelist_info) {
        return Err(DataError::InvalidCardList);
    }
    let deck_offset = current_duelist_offset + DUELIST_DECK_RELATIVE_OFFSET;
    let drops_sa_pow_offset = current_duelist_offset + DUELIST_SAPOW_OFFSET;
    let drops_bcd_offset = current_duelist_offset + DUELIST_BCD_OFFSET;
    let drops_sa_tec_offset = current_duelist_offset + DUELIST_SATEC_OFFSET;

    write_card_list_at(wa_mrg, deck_offset, &duelist_info.deck);
    write_card_list_at(wa_mrg, drops_sa_pow_offset, &duelist_info.drops_sa_pow);
    write_card_list_at(wa_mrg, drops_bcd_offset, &duelist_info.drops_bcd);
    write_card_list_at(wa_mrg, drops_sa_tec_offset, &duelist_info.drops_sa_tec);
    Ok(())
}

/// Read all the duelists from `SLUS_014.11` and `WA_MRG.MRG`, in the
/// order of their numbers.
///
/// Fails at the first duelist that cannot be read.
pub fn read_all_duelists(slus: &Vec<u8>, wa_mrg: &Vec<u8>) -> (result: Result<
    Vec<Duelist>,
    DataError,
>)
    ensures
        match result {
            Ok(duelists) => {
                &&& duelists.len() == NUMBER_OF_DUELISTS
                &&& duelists_at(slus@, wa_mrg@, NUMBER_OF_DUELISTS as nat) == Ok::<
                    Seq<DuelistView>,
                    DataError,
                >(duelist_views(duelists@))
            },
            Err(e) => duelists_at(slus@, wa_mrg@, NUMBER_OF_DUELISTS as nat) == Err::<
                Seq<DuelistView>,
                DataError,
            >(e),
        },
{
    let mut duelists: Vec<Duelist> = Vec::new();
    assert(duelist_views(duelists@) =~= Seq::<DuelistView>::empty());
    let mut duelist_id: usize = 0;
    while duelist_id < NUMBER_OF_DUELISTS
        invariant
            duelist_id <= NUMBER_OF_DUELISTS,
            duelists.len() == duelist_id,
            duelists_at(slus@, wa_mrg@, duelist_id as nat) == Ok::<Seq<DuelistView>, DataError>(
                duelist_views(duelists@),
            ),
        decreases NUMBER_OF_DUELISTS - duelist_id,
    {
        let ghost before = duelist_views(duelists@);
        match read_duelist(slus, wa_mrg, duelist_id) {
            Ok(duelist_info) => {
                let ghost view = duelist_info@;
                duelists.push(duelist_info);
                assert(duelist_views(duelists@) =~= before.push(view));
            },
            Err(e) => {
                proof {
                    lemma_duelists_at_fails(
                        slus@,
                        wa_mrg@,
                        duelist_id as nat,
                        NUMBER_OF_DUELISTS as nat,
                    );
                }
                return Err(e);
            },
        }
        duelist_id += 1;
    }
    Ok(duelists)
}

/// Where the duelists cannot all be read up to some number, they
/// cannot be read beyond it either, and for the same reason.
proof fn lemma_duelists_at_fails(slus: Seq<u8>, wa_mrg: Seq<u8>, failed: nat, count: nat)
    requires
        failed < count,
        duelists_at(slus, wa_mrg, (failed + 1) as nat) is Err,
    ensures
        duelists_at(slus, wa_mrg, count) == duelists_at(slus, wa_mrg, (failed + 1) as nat),
    decreases count,
{
    if count > failed + 1 {
        lemma_duelists_at_fails(slus, wa_mrg, failed, (count - 1) as nat);
    }
}

/// Replacing card lists keeps the size of `WA_MRG.MRG`.
proof fn lemma_with_duelists_len(wa_mrg: Seq<u8>, duelists: Seq<DuelistView>, count: nat)
    requires
        count <= NUMBER_OF_DUELISTS,
        duelist_end(NUMBER_OF_DUELISTS - 1) <= wa_mrg.len(),
    ensures
        with_duelists(wa_mrg, duelists, count).len() == wa_mrg.len(),
    decreases count,
{
    if count > 0 {
        lemma_with_duelists_len(wa_mrg, duelists, (count - 1) as nat);
    }
}

/// The duelists that were read, one by one.
proof fn lemma_duelists_at_each(slus: Seq<u8>, wa_mrg: Seq<u8>, count: nat)
    requires
        duelists_at(slus, wa_mrg, count) is Ok,
    ensures
        duelists_at(slus, wa_mrg, count)->Ok_0.len() == count,
        forall|i: int|
            0 <= i < count ==> #[trigger] duelist_at(slus, wa_mrg, i) == Ok::<
                DuelistView,
                DataError,
            >(duelists_at(slus, wa_mrg, count)->Ok_0[i]),
    decreases count,
{
    if count > 0 {
        lemma_duelists_at_each(slus, wa_mrg, (count - 1) as nat);
    }
}

/// Writing a card list where it was read from changes nothing.
proof fn lemma_with_rates_at(wa_mrg: Seq<u8>, offset: int)
    requires
        0 <= offset,
        offset + CARDLIST_SIZE <= wa_mrg.len(),
    ensures
        with_rates(wa_mrg, offset, rates_at(wa_mrg, offset)) == wa_mrg,
{
    lemma_bytes_of_rates_of_bytes(wa_mrg.subrange(offset, offset + CARDLIST_SIZE));
    assert(with_rates(wa_mrg, offset, rates_at(wa_mrg, offset)) =~= wa_mrg);
}

/// Writing back the duelists that were read from `WA_MRG.MRG` leaves
/// the file as it is.
pub proof fn lemma_write_duelists_after_read(
    slus: Seq<u8>,
    wa_mrg: Seq<u8>,
    total: nat,
    count: nat,
)
    requires
        count <= total,
        duelists_at(slus, wa_mrg, total) is Ok,
    ensures
        duelists_at(slus, wa_mrg, total)->Ok_0.len() == total,
        with_duelists(wa_mrg, duelists_at(slus, wa_mrg, total)->Ok_0, count) == wa_mrg,
    decreases count,
{
    lemma_duelists_at_each(slus, wa_mrg, total);
    if count > 0 {
        lemma_write_duelists_after_read(slus, wa_mrg, total, (count - 1) as nat);
        let id = count - 1;
        let duelists = duelists_at(slus, wa_mrg, total)->Ok_0;
        assert(duelist_at(slus, wa_mrg, id) == Ok::<DuelistView, DataError>(duelists[id]));
        lemma_with_rates_at(wa_mrg, duelist_offset(id) + DUELIST_DECK_RELATIVE_OFFSET);
        lemma_with_rates_at(wa_mrg, duelist_offset(id) + DUELIST_SAPOW_OFFSET);
        lemma_with_rates_at(wa_mrg, duelist_offset(id) + DUELIST_BCD_OFFSET);
        lemma_with_rates_at(wa_mrg, duelist_offset(id) + DUELIST_SATEC_OFFSET);
    }
}

/// Reading a card list where it was written gives the card list.
pub proof fn lemma_read_after_write_rates(wa_mrg: Seq<u8>, offset: int, rates: Seq<u16>)
    requires
        0 <= offset,
        offset + CARDLIST_SIZE <= wa_mrg.len(),
        rates.len() == NUMBER_OF_CARDS,
    ensures
        rates_at(with_rates(wa_mrg, offset, rates), offset) == rates,
{
    lemma_rates_of_bytes_of_rates(rates);
    assert(with_rates(wa_mrg, offset, rates).subrange(offset, offset + CARDLIST_SIZE)
        =~= bytes_of_rates(rates));
}

/// Write the card lists of all duelists into `WA_MRG.MRG`. The names
/// are not written: changing them is not supported, so `SLUS_014.11`
/// stays out of this.
///
/// Fails, and leaves `wa_mrg` as it is, where there are not exactly 39
/// duelists, where `wa_mrg` ends before the duelists' data does, and
/// where a card list of some duelist is not valid.
pub fn write_all_duelists(wa_mrg: &mut Vec<u8>, duelists: &[Duelist]) -> (result: Result<
    (),
    DataError,
>)
    ensures
        match result {
            Ok(()) => {
                &&& duelists.len() == NUMBER_OF_DUELISTS
                &&& duelist_end(NUMBER_OF_DUELISTS - 1) <= old(wa_mrg).len()
                &&& forall|i: int| 0 <= i < duelists.len() ==> (#[trigger] duelists[i]).valid()
                &&& final(wa_mrg)@ == with_duelists(
                    old(wa_mrg)@,
                    duelist_views(duelists@),
                    NUMBER_OF_DUELISTS as nat,
                )
            },
            Err(e) => {
                &&& final(wa_mrg)@ == old(wa_mrg)@
                &&& if duelists.len() != NUMBER_OF_DUELISTS {
                    e == DataError::WrongDuelistCount
                } else if duelist_end(NUMBER_OF_DUELISTS - 1) > old(wa_mrg).len() {
                    e == DataError::OutOfBounds
                } else {
                    &&& e == DataError::InvalidCardList
                    &&& exists|i: int| 0 <= i < duelists.len() && !(#[trigger] duelists[i]).valid()
                }
            },
        },
{
    if duelists.len() != NUMBER_OF_DUELISTS {
        return Err(DataError::WrongDuelistCount);
    }
    if wa_mrg.len() < DUELIST_DATA_OFFSET + DUELIST_DATA_SIZE * (NUMBER_OF_DUELISTS - 1)
        + DUELIST_SATEC_OFFSET + CARDLIST_SIZE {
        return Err(DataError::OutOfBounds);
    }
    let mut checked: usize = 0;
    while checked < NUMBER_OF_DUELISTS
        invariant
            checked <= NUMBER_OF_DUELISTS,
            duelists.len() == NUMBER_OF_DUELISTS,
            duelist_end(NUMBER_OF_DUELISTS - 1) <= old(wa_mrg).len(),
            wa_mrg@ == old(wa_mrg)@,
            forall|i: int| 0 <= i < checked ==> (#[trigger] duelists[i]).valid(),
        decreases NUMBER_OF_DUELISTS - checked,
    {
        if !duelist_is_valid(&duelists[checked]) {
            return Err(DataError::InvalidCardList);
        }
        checked += 1;
    }
    let mut duelist_id: usize = 0;
    while duelist_id < NUMBER_OF_DUELISTS
        invariant
            duelist_id <= NUMBER_OF_DUELISTS,
            duelists.len() == NUMBER_OF_DUELISTS,
            duelist_end(NUMBER_OF_DUELISTS - 1) <= old(wa_mrg).len(),
            forall|i: int| 0 <= i < duelists.len() ==> (#[trigger] duelists[i]).valid(),
            wa_mrg@ == with_duelists(old(wa_mrg)@, duelist_views(duelists@), duelist_id as nat),
        decreases NUMBER_OF_DUELISTS - duelist_id,
    {
        proof {
            lemma_with_duelists_len(
                old(wa_mrg)@,
                duelist_views(duelists@),
                duelist_id as nat,
            );
        }
        let written = write_duelist(wa_mrg, duelist_id, &duelists[duelist_id]);
        assert(written is Ok);
        duelist_id += 1;
    }
    Ok(())
}

/// The name of the file that holds a duelist's deck.
pub const DECK_FILE_NAME: &'static str = "deck.csv";

/// The name of the file that holds a duelist's drops for a BCD rank.
pub const DROPS_BCD_FILE_NAME: &'static str = "drops-bcd.csv";

/// The name of the file that holds a duelist's drops for an SA-POW
/// rank.
pub const DROPS_SA_POW_FILE_NAME: &'static str = "drops-sa-pow.csv";

/// The name of the file that holds a duelist's drops for an SA-TEC
/// rank.
pub const DROPS_SA_TEC_FILE_NAME: &'static str = "drops-sa-tec.csv";

/// The text of the csv tables of one duelist, each under the name of
/// its file. A table that is not there is `None`.
#[derive(Debug, Clone, PartialEq, Eq)]
pub struct DuelistTables {
    pub deck: Option<Vec<u8>>,
    pub drops_bcd: Option<Vec<u8>>,
    pub drops_sa_pow: Option<Vec<u8>>,
    pub drops_sa_tec: Option<Vec<u8>>,
}

/// What a set of tables holds.
pub ghost struct DuelistTablesView {
    pub deck: Option<Seq<u8>>,
    pub drops_bcd: Option<Seq<u8>>,
    pub drops_sa_pow: Option<Seq<u8>>,
    pub drops_sa_tec: Option<Seq<u8>>,
}

/// What a text that may be missing holds.
pub open spec fn text_view(text: Option<Vec<u8>>) -> Option<Seq<u8>> {
    match text {
        Some(text) => Some(text@),
        None => None,
    }
}

impl View for DuelistTables {
    type V = DuelistTablesView;

    open spec fn view(&self) -> DuelistTablesView {
        DuelistTablesView {
            deck: text_view(self.deck),
            drops_bcd: text_view(self.drops_bcd),
            drops_sa_pow: text_view(self.drops_sa_pow),
            drops_sa_tec: text_view(self.drops_sa_tec),
        }
    }
}

/// The tables of one duelist, and the name of the directory that they
/// go to.
#[derive(Debug, Clone, PartialEq, Eq)]
pub struct DuelistDump {
    pub dir_name: String,
    pub tables: DuelistTables,
}

/// What a duelist's dump holds.
pub ghost struct DuelistDumpView {
    pub dir_name: Seq<char>,
    pub tables: DuelistTablesView,
}

impl View for DuelistDump {
    type V = DuelistDumpView;

    open spec fn view(&self) -> DuelistDumpView {
        DuelistDumpView { dir_name: self.dir_name@, tables: self.tables@ }
    }
}

/// The name of the directory of the duelist at index `id`: the
/// duelist's number, which starts at 1, a dot and the duelist's name.
pub open spec fn dir_name_of(id: int, name: Seq<char>) -> Seq<char> {
    decimal_digits((id + 1) as nat) + seq!['.'] + name
}

/// The four tables of a duelist, or why the first of them that cannot
/// be dumped cannot: the deck, then the drops for BCD, SA-POW and
/// SA-TEC.
pub open spec fn tables_of_duelist(duelist: DuelistView, names: Seq<Seq<char>>) -> Result<
    DuelistTablesView,
    DumpError,
> {
    match table_text(duelist.deck, names) {
        Err(e) => Err(e),
        Ok(deck) => match table_text(duelist.drops_bcd, names) {
            Err(e) => Err(e),
            Ok(drops_bcd) => match table_text(duelist.drops_sa_pow, names) {
                Err(e) => Err(e),
                Ok(drops_sa_pow) => match table_text(duelist.drops_sa_tec, names) {
                    Err(e) => Err(e),
                    Ok(drops_sa_tec) => Ok(
                        DuelistTablesView {
                            deck: Some(deck),
                            drops_bcd: Some(drops_bcd),
                            drops_sa_pow: Some(drops_sa_pow),
                            drops_sa_tec: Some(drops_sa_tec),
                        },
                    ),
                },
            },
        },
    }
}

/// The dumps of the first `count` duelists, or why the first of them
/// that cannot be dumped cannot.
pub open spec fn dumps_of_duelists(
    duelists: Seq<DuelistView>,
    names: Seq<Seq<char>>,
    count: nat,
) -> Result<Seq<DuelistDumpView>, DumpError>
    decreases count,
{
    if count == 0 {
        Ok(Seq::empty())
    } else {
        match dumps_of_duelists(duelists, names, (count - 1) as nat) {
            Err(e) => Err(e),
            Ok(dumps) => match tables_of_duelist(duelists[count - 1], names) {
                Err(e) => Err(e),
                Ok(tables) => Ok(
                    dumps.push(
                        DuelistDumpView {
                            dir_name: dir_name_of(count - 1, duelists[count - 1].name),
                            tables,
                        },
                    ),
                ),
            },
        }
    }
}

/// What each of a run of dumps holds.
pub open spec fn dump_views(dumps: Seq<DuelistDump>) -> Seq<DuelistDumpView> {
    Seq::new(dumps.len(), |i: int| dumps[i]@)
}

/// The name of the directory that holds the tables of the duelist at
/// index `duelist_id`.
pub fn duelist_dir_name(duelist_id: usize, name: &str) -> (dir_name: String)
    requires
        duelist_id < usize::MAX,
    ensures
        dir_name@ == dir_name_of(duelist_id as int, name@),
{
    let mut dir_name = decimal_string((duelist_id + 1) as u64);
    dir_name.push('.');
    dir_name.append(name);
    assert(dir_name@ =~= dir_name_of(duelist_id as int, name@));
    dir_name
}

/// Dump a single duelist's card lists as csv tables: the deck, and the
/// drops for BCD, SA-POW and SA-TEC.
///
/// Fails where one of them cannot be dumped.
pub fn dump_duelist_csv(duelist: &Duelist, card_names: &[String]) -> (result: Result<
    DuelistTables,
    DumpError,
>)
    ensures
        match result {
            Ok(tables) => tables_of_duelist(duelist@, card_names.deep_view()) == Ok::<
                DuelistTablesView,
                DumpError,
            >(tables@),
            Err(e) => tables_of_duelist(duelist@, card_names.deep_view()) == Err::<
                DuelistTablesView,
                DumpError,
            >(e),
        },
{
    let deck = match dump_cardlist_csv(&duelist.deck, card_names) {
        Ok(text) => text,
        Err(e) => {
            return Err(e);
        },
    };
    let drops_bcd = match dump_cardlist_csv(&duelist.drops_bcd, card_names) {
        Ok(text) => text,
        Err(e) => {
            return Err(e);
        },
    };
    let drops_sa_pow = match dump_cardlist_csv(&duelist.drops_sa_pow, card_names) {
        Ok(text) => text,
        Err(e) => {
            return Err(e);
        },
    };
    let drops_sa_tec = match dump_cardlist_csv(&duelist.drops_sa_tec, card_names) {
        Ok(text) => text,
        Err(e) => {
            return Err(e);
        },
    };
    Ok(
        DuelistTables {
            deck: Some(deck),
            drops_bcd: Some(drops_bcd),
            drops_sa_pow: Some(drops_sa_pow),
            drops_sa_tec: Some(drops_sa_tec),
        },
    )
}

/// Where the duelists cannot all be dumped up to some number, they
/// cannot be dumped beyond it either, and for the same reason.
proof fn lemma_dumps_of_duelists_fails(
    duelists: Seq<DuelistView>,
    names: Seq<Seq<char>>,
    failed: nat,
    count: nat,
)
    requires
        failed < count,
        dumps_of_duelists(duelists, names, (failed + 1) as nat) is Err,
    ensures
        dumps_of_duelists(duelists, names, count) == dumps_of_duelists(
            duelists,
            names,
            (failed + 1) as nat,
        ),
    decreases count,
{
    if count > failed + 1 {
        lemma_dumps_of_duelists_fails(duelists, names, failed, (count - 1) as nat);
    }
}

/// Dump all of the card lists, both decks and drops, as csv tables:
/// for each duelist a directory name and the tables that go there.
///
/// Fails at the first duelist that cannot be dumped.
pub fn dump_all_duelists_csv(duelists: &[Duelist], card_names: &[String]) -> (result: Result<
    Vec<DuelistDump>,
    DumpError,
>)
    ensures
        match result {
            Ok(dumps) => dumps_of_duelists(
                duelist_views(duelists@),
                card_names.deep_view(),
                duelists@.len(),
            ) == Ok::<Seq<DuelistDumpView>, DumpError>(dump_views(dumps@)),
            Err(e) => dumps_of_duelists(
                duelist_views(duelists@),
                card_names.deep_view(),
                duelists@.len(),
            ) == Err::<Seq<DuelistDumpView>, DumpError>(e),
        },
{
    let mut dumps: Vec<DuelistDump> = Vec::new();
    assert(dump_views(dumps@) =~= Seq::<DuelistDumpView>::empty());
    let mut duelist_id: usize = 0;
    while duelist_id < duelists.len()
        invariant
            duelist_id <= duelists.len(),
            dumps_of_duelists(
                duelist_views(duelists@),
                card_names.deep_view(),
                duelist_id as nat,
            ) == Ok::<Seq<DuelistDumpView>, DumpError>(dump_views(dumps@)),
        decreases duelists.len() - duelist_id,
    {
        let duelist = &duelists[duelist_id];
        let ghost before = dump_views(dumps@);
        match dump_duelist_csv(duelist, card_names) {
            Ok(tables) => {
                let dump = DuelistDump {
                    dir_name: duelist_dir_name(duelist_id, duelist.name.as_str()),
                    tables,
                };
                let ghost view = dump@;
                dumps.push(dump);
                assert(dump_views(dumps@) =~= before.push(view));
            },
            Err(e) => {
                proof {
                    lemma_dumps_of_duelists_fails(
                        duelist_views(duelists@),
                        card_names.deep_view(),
                        duelist_id as nat,
                        duelists@.len(),
                    );
                }
                return Err(e);
            },
        }
        duelist_id += 1;
    }
    Ok(dumps)
}

/// The card list that a duelist has once a table is loaded over
/// `current`: that of the table, or `current` where the table is not
/// there.
pub open spec fn overlaid_rates(text: Option<Seq<u8>>, current: Seq<u16>) -> Result<
    Seq<u16>,
    LoadFailure,
> {
    match text {
        None => Ok(current),
        Some(text) => rates_of_table(csv_records(text)),
    }
}

/// The duelist once the tables that are there are loaded over it, or
/// why the first of them that cannot be loaded cannot: the deck, then
/// the drops for BCD, SA-POW and SA-TEC. The name stays.
pub open spec fn overlaid_duelist(tables: DuelistTablesView, duelist: DuelistView) -> Result<
    DuelistView,
    LoadFailure,
> {
    match overlaid_rates(tables.deck, duelist.deck) {
        Err(e) => Err(e),
        Ok(deck) => match overlaid_rates(tables.drops_bcd, duelist.drops_bcd) {
            Err(e) => Err(e),
            Ok(drops_bcd) => match overlaid_rates(tables.drops_sa_pow, duelist.drops_sa_pow) {
                Err(e) => Err(e),
                Ok(drops_sa_pow) => match overlaid_rates(
                    tables.drops_sa_tec,
                    duelist.drops_sa_tec,
                ) {
                    Err(e) => Err(e),
                    Ok(drops_sa_tec) => Ok(
                        DuelistView {
                            name: duelist.name,
                            deck,
                            drops_sa_pow,
                            drops_sa_tec,
                            drops_bcd,
                        },
                    ),
                },
            },
        },
    }
}

/// The first `count` duelists once their tables are loaded over them,
/// or why the first table that cannot be loaded cannot.
pub open spec fn overlaid_duelists(
    tables: Seq<DuelistTablesView>,
    duelists: Seq<DuelistView>,
    count: nat,
) -> Result<Seq<DuelistView>, LoadFailure>
    decreases count,
{
    if count == 0 {
        Ok(Seq::empty())
    } else {
        match overlaid_duelists(tables, duelists, (count - 1) as nat) {
            Err(e) => Err(e),
            Ok(front) => match overlaid_duelist(tables[count - 1], duelists[count - 1]) {
                Err(e) => Err(e),
                Ok(duelist) => Ok(front.push(duelist)),
            },
        }
    }
}

/// What each of a run of sets of tables holds.
pub open spec fn tables_views(tables: Seq<DuelistTables>) -> Seq<DuelistTablesView> {
    Seq::new(tables.len(), |i: int| tables[i]@)
}

/// The card lists loaded from the tables of one duelist that are
/// there.
#[derive(Clone, Copy)]
struct LoadedTables {
    deck: Option<CardList>,
    drops_bcd: Option<CardList>,
    drops_sa_pow: Option<CardList>,
    drops_sa_tec: Option<CardList>,
}

/// A loaded card list in place of `current`, where there is one.
spec fn replaced(loaded: Option<CardList>, current: Seq<u16>) -> Seq<u16> {
    match loaded {
        Some(card_list) => card_list@,
        None => current,
    }
}

impl LoadedTables {
    /// The duelist with the loaded card lists in place of its own.
    spec fn over(self, duelist: DuelistView) -> DuelistView {
        DuelistView {
            name: duelist.name,
            deck: replaced(self.deck, duelist.deck),
            drops_sa_pow: replaced(self.drops_sa_pow, duelist.drops_sa_pow),
            drops_sa_tec: replaced(self.drops_sa_tec, duelist.drops_sa_tec),
            drops_bcd: replaced(self.drops_bcd, duelist.drops_bcd),
        }
    }
}

/// Load a table if it is there.
fn load_table(text: &Option<Vec<u8>>) -> (result: Result<Option<CardList>, LoadError>)
    ensures
        forall|current: Seq<u16>|
            match result {
                Ok(loaded) => #[trigger] overlaid_rates(text_view(*text), current) == Ok::<
                    Seq<u16>,
                    LoadFailure,
                >(replaced(loaded, current)),
                Err(e) => #[trigger] overlaid_rates(text_view(*text), current) == Err::<
                    Seq<u16>,
                    LoadFailure,
                >(e@),
            },
{
    match text {
        None => Ok(None),
        Some(text) => match load_cardlist_csv(text.as_slice()) {
            Ok(card_list) => Ok(Some(card_list)),
            Err(e) => Err(e),
        },
    }
}

/// Load the tables of one duelist that are there.
fn load_tables(tables: &DuelistTables) -> (result: Result<LoadedTables, LoadError>)
    ensures
        forall|duelist: DuelistView|
            match result {
                Ok(loaded) => #[trigger] overlaid_duelist(tables@, duelist) == Ok::<
                    DuelistView,
                    LoadFailure,
                >(loaded.over(duelist)),
                Err(e) => #[trigger] overlaid_duelist(tables@, duelist) == Err::<
                    DuelistView,
                    LoadFailure,
                >(e@),
            },
{
    let deck = match load_table(&tables.deck) {
        Ok(loaded) => loaded,
        Err(e) => {
            return Err(e);
        },
    };
    let drops_bcd = match load_table(&tables.drops_bcd) {
        Ok(loaded) => loaded,
        Err(e) => {
            return Err(e);
        },
    };
    let drops_sa_pow = match load_table(&tables.drops_sa_pow) {
        Ok(loaded) => loaded,
        Err(e) => {
            return Err(e);
        },
    };
    let drops_sa_tec = match load_table(&tables.drops_sa_tec) {
        Ok(loaded) => loaded,
        Err(e) => {
            return Err(e);
        },
    };
    Ok(LoadedTables { deck, drops_bcd, drops_sa_pow, drops_sa_tec })
}

/// Put the loaded card lists in place of the duelist's own.
fn apply_tables(loaded: &LoadedTables, duelist: &mut Duelist)
    ensures
        final(duelist)@ == loaded.over(old(duelist)@),
{
    if let Some(card_list) = loaded.deck {
        duelist.deck = card_list;
    }
    if let Some(card_list) = loaded.drops_bcd {
        duelist.drops_bcd = card_list;
    }
    if let Some(card_list) = loaded.drops_sa_pow {
        duelist.drops_sa_pow = card_list;
    }
    if let Some(card_list) = loaded.drops_sa_tec {
        duelist.drops_sa_tec = card_list;
    }
}

/// Load a duelist's card lists from csv tables. Any and all tables
/// might be missing: only the parts of the duelist change for which a
/// table is there. So the duelist that comes in has to be a whole one,
/// as reading the game's files gives it.
///
/// Fails, and leaves the duelist as it is, where a table that is there
/// cannot be loaded.
pub fn load_duelist_csv(tables: &DuelistTables, duelist: &mut Duelist) -> (result: Result<
    (),
    LoadError,
>)
    ensures
        match result {
            Ok(()) => overlaid_duelist(tables@, old(duelist)@) == Ok::<DuelistView, LoadFailure>(
                final(duelist)@,
            ),
            Err(e) => {
                &&& overlaid_duelist(tables@, old(duelist)@) == Err::<DuelistView, LoadFailure>(
                    e@,
                )
                &&& final(duelist)@ == old(duelist)@
            },
        },
{
    match load_tables(tables) {
        Ok(loaded) => {
            apply_tables(&loaded, duelist);
            Ok(())
        },
        Err(e) => Err(e),
    }
}

/// Where the tables cannot all be loaded up to some duelist, they
/// cannot be loaded beyond it either, and for the same reason.
proof fn lemma_overlaid_duelists_fails(
    tables: Seq<DuelistTablesView>,
    duelists: Seq<DuelistView>,
    failed: nat,
    count: nat,
)
    requires
        failed < count,
        overlaid_duelists(tables, duelists, (failed + 1) as nat) is Err,
    ensures
        overlaid_duelists(tables, duelists, count) == overlaid_duelists(
            tables,
            duelists,
            (failed + 1) as nat,
        ),
    decreases count,
{
    if count > failed + 1 {
        lemma_overlaid_duelists_fails(tables, duelists, failed, (count - 1) as nat);
    }
}

/// The duelists, each with the card lists loaded for it in place of
/// its own.
spec fn all_over(loaded: Seq<LoadedTables>, duelists: Seq<DuelistView>, count: nat) -> Seq<
    DuelistView,
> {
    Seq::new(
        duelists.len(),
        |i: int|
            if i < count {
                loaded[i].over(duelists[i])
            } else {
                duelists[i]
            },
    )
}

/// Load all the duelists' card lists from csv tables, one set of tables
/// for each duelist, in the order of the duelists. Only the card lists
/// change for which a table is there.
///
/// Fails, and leaves the duelists as they are, where there are not as
/// many sets of tables as duelists, and where a table that is there
/// cannot be loaded.
pub fn load_all_duelists_csv(tables: &Vec<DuelistTables>, duelists: &mut Vec<Duelist>) -> (result:
    Result<(), LoadError>)
    ensures
        match result {
            Ok(()) => {
                &&& tables.len() == old(duelists).len()
                &&& overlaid_duelists(
                    tables_views(tables@),
                    duelist_views(old(duelists)@),
                    tables@.len(),
                ) == Ok::<Seq<DuelistView>, LoadFailure>(duelist_views(final(duelists)@))
            },
            Err(e) => {
                &&& final(duelists)@ == old(duelists)@
                &&& if tables.len() != old(duelists).len() {
                    e@ == LoadFailure::WrongDuelistCount
                } else {
                    overlaid_duelists(
                        tables_views(tables@),
                        duelist_views(old(duelists)@),
                        tables@.len(),
                    ) == Err::<Seq<DuelistView>, LoadFailure>(e@)
                }
            },
        },
{
    if tables.len() != duelists.len() {
        return Err(LoadError::WrongDuelistCount);
    }
    let ghost before = duelist_views(duelists@);
    let mut loaded: Vec<LoadedTables> = Vec::new();
    assert(all_over(loaded@, before, 0).take(0) =~= Seq::<DuelistView>::empty());
    let mut duelist_id: usize = 0;
    while duelist_id < tables.len()
        invariant
            duelist_id <= tables.len(),
            tables.len() == duelists.len(),
            duelists@ == old(duelists)@,
            before == duelist_views(duelists@),
            loaded.len() == duelist_id,
            overlaid_duelists(tables_views(tables@), before, duelist_id as nat) == Ok::<
                Seq<DuelistView>,
                LoadFailure,
            >(all_over(loaded@, before, duelist_id as nat).take(duelist_id as int)),
        decreases tables.len() - duelist_id,
    {
        let ghost front = all_over(loaded@, before, duelist_id as nat).take(duelist_id as int);
        match load_tables(&tables[duelist_id]) {
            Ok(next) => {
                loaded.push(next);
                assert(all_over(loaded@, before, (duelist_id + 1) as nat).take(duelist_id + 1)
                    =~= front.push(next.over(before[duelist_id as int])));
            },
            Err(e) => {
                proof {
                    lemma_overlaid_duelists_fails(
                        tables_views(tables@),
                        before,
                        duelist_id as nat,
                        tables@.len(),
                    );
                }
                return Err(e);
            },
        }
        duelist_id += 1;
    }
    let mut duelist_id: usize = 0;
    while duelist_id < duelists.len()
        invariant
            duelist_id <= duelists.len(),
            duelists.len() == loaded.len(),
            before.len() == duelists.len(),
            duelist_views(duelists@) == all_over(loaded@, before, duelist_id as nat),
        decreases duelists.len() - duelist_id,
    {
        let ghost earlier = duelists@;
        apply_tables(&loaded[duelist_id], &mut duelists[duelist_id]);
        proof {
            assert forall|i: int| 0 <= i < duelists.len() implies duelist_views(duelists@)[i]
                == all_over(loaded@, before, (duelist_id + 1) as nat)[i] by {
                assert(duelist_views(earlier)[i] == earlier[i]@);
            }
            assert(duelist_views(duelists@) =~= all_over(
                loaded@,
                before,
                (duelist_id + 1) as nat,
            ));
        }
        duelist_id += 1;
    }
    assert(all_over(loaded@, before, duelist_id as nat).take(duelist_id as int) =~= all_over(
        loaded@,
        before,
        duelist_id as nat,
    ));
    Ok(())
}

} // verus!
