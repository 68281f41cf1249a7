//! Card lists as csv tables. A table has no header and one record for
//! each card with a rate other than `0`:
//!
//! card_id,rate,card_name
//!
//! The card ids start at 1, as the official numbers do. The game's data
//! has entries for the cards with rate `0` too, but tables that list
//! all 722 cards would be too tedious to work with. The name is there
//! for the reader: loading a table ignores it.

use vstd::prelude::*;

use crate::decimal::{
    decimal_digits,
    decimal_string,
    decimal_value,
    lemma_decimal_round_trip,
    parse_decimal,
    Numeral,
};
use crate::duelist::{rate_sum, CardList, NUMBER_OF_CARDS, RATE_TOTAL};

verus! {

/// The error type of the `csv` crate.
#[verifier::external_type_specification]
#[verifier::external_body]
pub struct ExCsvError(csv::Error);

/// The records that the `csv` crate reads from `data`, as a table
/// without header whose records all have as many fields as the first;
/// `None` where it reports an error.
pub uninterp spec fn csv_records(data: Seq<u8>) -> Option<Seq<Seq<Seq<char>>>>;

/// The text that the `csv` crate writes for `records`; `None` where it
/// reports an error.
pub uninterp spec fn csv_text(records: Seq<Seq<Seq<char>>>) -> Option<Seq<u8>>;

/// Read all records of a table with `ReaderBuilder::has_headers`,
/// `ReaderBuilder::from_reader` and `Reader::records` of the `csv`
/// crate, up to the first error. What comes back depends on `data`
/// alone.
#[verifier::external_body]
fn read_csv(data: &[u8]) -> (result: Result<Vec<Vec<String>>, csv::Error>)
    ensures
        csv_records(data@) == match result {
            Ok(records) => Some(records.deep_view()),
            Err(_) => None,
        },
{
    let mut reader = csv::ReaderBuilder::new().has_headers(false).from_reader(data);
    let mut records: Vec<Vec<String>> = Vec::new();
    for record in reader.records() {
        records.push(record?.iter().map(String::from).collect());
    }
    Ok(records)
}

/// Write records as a table with `Writer::from_writer`,
/// `Writer::write_record` and `Writer::into_inner` of the `csv` crate,
/// into memory. What comes back depends on `records` alone.
#[verifier::external_body]
fn write_csv(records: &Vec<Vec<String>>) -> (result: Result<Vec<u8>, csv::Error>)
    ensures
        csv_text(records.deep_view()) == match result {
            Ok(data) => Some(data@),
            Err(_) => None,
        },
{
    let mut writer = csv::Writer::from_writer(Vec::new());
    for record in records {
        writer.write_record(record)?;
    }
    writer.into_inner().map_err(|e| csv::Error::from(e.into_error()))
}

/// Why a record of a table gives no rate.
#[derive(Debug, Clone, Copy, PartialEq, Eq, Structural)]
pub enum RecordError {
    /// The record has no first field.
    MissingId,
    /// The first field is no numeral.
    InvalidId,
    /// The record has no second field.
    MissingRate,
    /// The second field is no numeral.
    InvalidRate,
    /// The card id is not one of 1 to 722.
    IdOutOfRange,
    /// The rate is not below 2048.
    RateOutOfRange,
}

/// Why a table could not be loaded.
#[derive(Debug, Clone, Copy, PartialEq, Eq)]
pub enum LoadError {
    /// The text is not a csv table.
    Csv,
    /// Some record gives no rate.
    Record(RecordError),
    /// The rates of the table do not add up to 2048. This is the card
    /// list that the table gives.
    InvalidCardList(CardList),
    /// There are not as many sets of tables as duelists.
    WrongDuelistCount,
}

/// What a `LoadError` holds.
pub ghost enum LoadFailure {
    Csv,
    Record(RecordError),
    InvalidCardList(Seq<u16>),
    WrongDuelistCount,
}

impl View for LoadError {
    type V = LoadFailure;

    open spec fn view(&self) -> LoadFailure {
        match self {
            LoadError::Csv => LoadFailure::Csv,
            LoadError::Record(e) => LoadFailure::Record(*e),
            LoadError::InvalidCardList(card_list) => LoadFailure::InvalidCardList(card_list@),
            LoadError::WrongDuelistCount => LoadFailure::WrongDuelistCount,
        }
    }
}

/// Why a table could not be dumped.
#[derive(Debug, Clone, Copy, PartialEq, Eq, Structural)]
pub enum DumpError {
    /// A card with a rate other than `0` has no name.
    MissingName,
    /// The records could not be written.
    Csv,
}

/// The record of a card: the card id, which is the index of the card
/// and one more, the rate, and the name.
pub open spec fn record_of(index: int, rate: u16, name: Seq<char>) -> Seq<Seq<char>> {
    seq![decimal_digits((index + 1) as nat), decimal_digits(rate as nat), name]
}

/// The records of the first `count` cards: one for each card with a
/// rate other than `0`, in the order of the cards.
pub open spec fn records_of_rates(rates: Seq<u16>, names: Seq<Seq<char>>, count: nat) -> Seq<
    Seq<Seq<char>>,
>
    decreases count,
{
    if count == 0 {
        Seq::empty()
    } else {
        let before = records_of_rates(rates, names, (count - 1) as nat);
        if rates[count - 1] != 0 {
            before.push(record_of(count - 1, rates[count - 1], names[count - 1]))
        } else {
            before
        }
    }
}

/// Every one of the first `count` cards with a rate other than `0` has
/// a name.
pub open spec fn names_cover(rates: Seq<u16>, names_len: nat, count: nat) -> bool {
    forall|i: int| 0 <= i < count && rates[i] != 0 ==> i < names_len
}

/// What a record says: the index of a card, which is the card id less
/// one, and its rate. Both fields are read before either is held to its
/// range; fields behind the second are ignored.
pub open spec fn entry_of_record(record: Seq<Seq<char>>) -> Result<(int, u16), RecordError> {
    if record.len() < 1 {
        Err(RecordError::MissingId)
    } else if decimal_value(record[0]) is None {
        Err(RecordError::InvalidId)
    } else if record.len() < 2 {
        Err(RecordError::MissingRate)
    } else if decimal_value(record[1]) is None {
        Err(RecordError::InvalidRate)
    } else {
        let id = decimal_value(record[0])->0;
        let rate = decimal_value(record[1])->0;
        if id < 1 || id > NUMBER_OF_CARDS {
            Err(RecordError::IdOutOfRange)
        } else if rate >= RATE_TOTAL {
            Err(RecordError::RateOutOfRange)
        } else {
            Ok((id - 1, rate as u16))
        }
    }
}

/// The rates that a run of records gives: all are `0` but those of the
/// cards that the records name, and of two records for one card the
/// later one counts. Fails as the first record that gives no rate does.
pub open spec fn rates_of_records(records: Seq<Seq<Seq<char>>>) -> Result<Seq<u16>, RecordError>
    decreases records.len(),
{
    if records.len() == 0 {
        Ok(Seq::new(NUMBER_OF_CARDS as nat, |i: int| 0u16))
    } else {
        match rates_of_records(records.drop_last()) {
            Err(e) => Err(e),
            Ok(rates) => match entry_of_record(records.last()) {
                Err(e) => Err(e),
                Ok((index, rate)) => Ok(rates.update(index, rate)),
            },
        }
    }
}

/// Where a run of records gives no rates, a longer run gives none
/// either, and for the same reason.
proof fn lemma_rates_of_records_fails(records: Seq<Seq<Seq<char>>>, failed: int)
    requires
        0 <= failed <= records.len(),
        rates_of_records(records.take(failed)) is Err,
    ensures
        rates_of_records(records) == rates_of_records(records.take(failed)),
    decreases records.len(),
{
    if failed < records.len() {
        assert(records.drop_last().take(failed) =~= records.take(failed));
        lemma_rates_of_records_fails(records.drop_last(), failed);
    } else {
        assert(records.take(failed) =~= records);
    }
}

/// Read the index of a card and its rate from a record.
fn load_record(record: &Vec<String>) -> (result: Result<(usize, u16), RecordError>)
    ensures
        match result {
            Ok((index, rate)) => entry_of_record(record.deep_view()) == Ok::<
                (int, u16),
                RecordError,
            >((index as int, rate)),
            Err(e) => entry_of_record(record.deep_view()) == Err::<(int, u16), RecordError>(e),
        },
{
    assert(forall|i: int| 0 <= i < record.len() ==> record.deep_view()[i] == record@[i]@);
    if record.len() < 1 {
        return Err(RecordError::MissingId);
    }
    let card_id = parse_decimal(record[0].as_str(), NUMBER_OF_CARDS as u32);
    if let Numeral::Malformed = card_id {
        return Err(RecordError::InvalidId);
    }
    if record.len() < 2 {
        return Err(RecordError::MissingRate);
    }
    let card_rate = parse_decimal(record[1].as_str(), (RATE_TOTAL - 1) as u32);
    if let Numeral::Malformed = card_rate {
        return Err(RecordError::InvalidRate);
    }
    match (card_id, card_rate) {
        (Numeral::Value(id), Numeral::Value(rate)) => {
            if id < 1 {
                Err(RecordError::IdOutOfRange)
            } else {
                // Shift the card id by 1: the official numbers start at 1.
                Ok(((id - 1) as usize, rate as u16))
            }
        },
        (Numeral::Value(id), _) => {
            if id < 1 {
                Err(RecordError::IdOutOfRange)
            } else {
                Err(RecordError::RateOutOfRange)
            }
        },
        _ => Err(RecordError::IdOutOfRange),
    }
}

/// The card list of a table whose records are `records`, or of a text
/// that is no csv table where `records` is `None`: the rates that the
/// records give, where they add up to 2048.
pub open spec fn rates_of_table(records: Option<Seq<Seq<Seq<char>>>>) -> Result<
    Seq<u16>,
    LoadFailure,
> {
    match records {
        None => Err(LoadFailure::Csv),
        Some(records) => match rates_of_records(records) {
            Err(e) => Err(LoadFailure::Record(e)),
            Ok(rates) => if rate_sum(rates) == RATE_TOTAL {
                Ok(rates)
            } else {
                Err(LoadFailure::InvalidCardList(rates))
            },
        },
    }
}

/// `result` holds what `expected` does.
pub open spec fn loaded(result: Result<CardList, LoadError>, expected: Result<
    Seq<u16>,
    LoadFailure,
>) -> bool {
    match result {
        Ok(card_list) => expected == Ok::<Seq<u16>, LoadFailure>(card_list@),
        Err(e) => expected == Err::<Seq<u16>, LoadFailure>(e@),
    }
}

/// Load a card list from the records of a table.
///
/// Fails where a record gives no rate: where it lacks the card id or
/// the rate, where one of them is no numeral, where the card id is not
/// one of 1 to 722, and where the rate is not below 2048. Fails as
/// well where the rates do not add up to 2048.
pub fn load_cardlist_records(records: &Vec<Vec<String>>) -> (result: Result<CardList, LoadError>)
    ensures
        loaded(result, rates_of_table(Some(records.deep_view()))),
{
    let ghost all = records.deep_view();
    let mut card_list = CardList::new();
    let mut i: usize = 0;
    while i < records.len()
        invariant
            i <= records.len(),
            all == records.deep_view(),
            rates_of_records(all.take(i as int)) == Ok::<Seq<u16>, RecordError>(card_list@),
        decreases records.len() - i,
    {
        proof {
            assert(all.take(i + 1).drop_last() =~= all.take(i as int));
            assert(all.take(i + 1).last() == records@[i as int].deep_view());
        }
        match load_record(&records[i]) {
            Ok((card_id, card_rate)) => {
                let ghost before = card_list@;
                card_list.card_rate[card_id] = card_rate;
                assert(card_list@ == before.update(card_id as int, card_rate));
            },
            Err(e) => {
                proof {
                    lemma_rates_of_records_fails(all, i + 1);
                }
                return Err(LoadError::Record(e));
            },
        }
        i += 1;
    }
    assert(all.take(i as int) =~= all);
    if !card_list.is_valid() {
        return Err(LoadError::InvalidCardList(card_list));
    }
    Ok(card_list)
}

/// Load a card list from the text of a csv table.
///
/// Fails where the text is not a csv table, and where
/// `load_cardlist_records` fails on its records.
pub fn load_cardlist_csv(data: &[u8]) -> (result: Result<CardList, LoadError>)
    ensures
        loaded(result, rates_of_table(csv_records(data@))),
{
    match read_csv(data) {
        Ok(records) => load_cardlist_records(&records),
        Err(_) => Err(LoadError::Csv),
    }
}

/// The records of a card list: one for each card with a rate other
/// than `0`, with the card id, the rate and the card's name.
///
/// Fails where a card with a rate other than `0` has no name.
pub fn dump_cardlist_records(cardlist: &CardList, card_names: &[String]) -> (result: Result<
    Vec<Vec<String>>,
    DumpError,
>)
    ensures
        match result {
            Ok(records) => {
                &&& names_cover(cardlist@, card_names@.len(), NUMBER_OF_CARDS as nat)
                &&& records.deep_view() == records_of_rates(
                    cardlist@,
                    card_names.deep_view(),
                    NUMBER_OF_CARDS as nat,
                )
            },
            Err(e) => {
                &&& !names_cover(cardlist@, card_names@.len(), NUMBER_OF_CARDS as nat)
                &&& e == DumpError::MissingName
            },
        },
{
    let mut records: Vec<Vec<String>> = Vec::new();
    assert(records.deep_view() =~= Seq::<Seq<Seq<char>>>::empty());
    let mut card_id: usize = 0;
    while card_id < NUMBER_OF_CARDS
        invariant
            card_id <= NUMBER_OF_CARDS,
            names_cover(cardlist@, card_names@.len(), card_id as nat),
            records.deep_view() == records_of_rates(
                cardlist@,
                card_names.deep_view(),
                card_id as nat,
            ),
        decreases NUMBER_OF_CARDS - card_id,
    {
        let card_rate = cardlist.card_rate[card_id];
        if card_rate != 0 {
            if card_id >= card_names.len() {
                return Err(DumpError::MissingName);
            }
            let ghost before = records.deep_view();
            let mut record: Vec<String> = Vec::new();
            // Shift card_id by 1 to match the official number which
            // starts at 1.
            record.push(decimal_string((card_id + 1) as u64));
            record.push(decimal_string(card_rate as u64));
            record.push(card_names[card_id].clone());
            assert(record.deep_view() =~= record_of(
                card_id as int,
                card_rate,
                card_names.deep_view()[card_id as int],
            ));
            records.push(record);
            assert(records.deep_view() =~= before.push(record.deep_view()));
        }
        card_id += 1;
    }
    Ok(records)
}

/// The text of the table of a card list.
pub open spec fn table_text(rates: Seq<u16>, names: Seq<Seq<char>>) -> Result<Seq<u8>, DumpError> {
    if !names_cover(rates, names.len(), NUMBER_OF_CARDS as nat) {
        Err(DumpError::MissingName)
    } else {
        match csv_text(records_of_rates(rates, names, NUMBER_OF_CARDS as nat)) {
            Some(text) => Ok(text),
            None => Err(DumpError::Csv),
        }
    }
}

/// Dump a card list as the text of a csv table.
///
/// Fails where a card with a rate other than `0` has no name, and
/// where the `csv` crate reports an error.
pub fn dump_cardlist_csv(cardlist: &CardList, card_names: &[String]) -> (result: Result<
    Vec<u8>,
    DumpError,
>)
    ensures
        match result {
            Ok(text) => table_text(cardlist@, card_names.deep_view()) == Ok::<Seq<u8>, DumpError>(
                text@,
            ),
            Err(e) => table_text(cardlist@, card_names.deep_view()) == Err::<Seq<u8>, DumpError>(e),
        },
{
    let records = match dump_cardlist_records(cardlist, card_names) {
        Ok(records) => records,
        Err(e) => {
            return Err(e);
        },
    };
    match write_csv(&records) {
        Ok(text) => Ok(text),
        Err(_) => Err(DumpError::Csv),
    }
}

/// Card ids start at 1: the record of the card at index `index` reads
/// as that index again, whatever the name, for every rate that a table
/// can hold.
pub proof fn lemma_entry_of_record_of(index: int, rate: u16, name: Seq<char>)
    requires
        0 <= index < NUMBER_OF_CARDS,
        rate < RATE_TOTAL,
    ensures
        record_of(index, rate, name)[0] == decimal_digits((index + 1) as nat),
        entry_of_record(record_of(index, rate, name)) == Ok::<(int, u16), RecordError>(
            (index, rate),
        ),
{
    lemma_decimal_round_trip((index + 1) as nat);
    lemma_decimal_round_trip(rate as nat);
}

/// A record with a card id of `0`, or of 723 and more, gives no rate.
pub proof fn lemma_card_id_out_of_range(record: Seq<Seq<char>>, id: nat)
    requires
        record.len() >= 2,
        decimal_value(record[0]) == Some(id),
        id == 0 || id > NUMBER_OF_CARDS,
    ensures
        entry_of_record(record) is Err,
        decimal_value(record[1]) is Some ==> entry_of_record(record) == Err::<
            (int, u16),
            RecordError,
        >(RecordError::IdOutOfRange),
{
}

/// The rates that the records of the first `count` cards give are
/// the rates of those cards, and `0` for the cards behind them.
proof fn lemma_rates_of_dumped_records(rates: Seq<u16>, names: Seq<Seq<char>>, count: nat)
    requires
        rates.len() == NUMBER_OF_CARDS,
        count <= NUMBER_OF_CARDS,
        forall|i: int| 0 <= i < rates.len() ==> rates[i] < RATE_TOTAL,
    ensures
        rates_of_records(records_of_rates(rates, names, count)) == Ok::<Seq<u16>, RecordError>(
            Seq::new(
                NUMBER_OF_CARDS as nat,
                |i: int|
                    if i < count {
                        rates[i]
                    } else {
                        0u16
                    },
            ),
        ),
    decreases count,
{
    let expected = Seq::new(
        NUMBER_OF_CARDS as nat,
        |i: int|
            if i < count {
                rates[i]
            } else {
                0u16
            },
    );
    if count == 0 {
        assert(expected =~= Seq::new(NUMBER_OF_CARDS as nat, |i: int| 0u16));
    } else {
        lemma_rates_of_dumped_records(rates, names, (count - 1) as nat);
        let before = records_of_rates(rates, names, (count - 1) as nat);
        let front = Seq::new(
            NUMBER_OF_CARDS as nat,
            |i: int|
                if i < count - 1 {
                    rates[i]
                } else {
                    0u16
                },
        );
        if rates[count - 1] != 0 {
            let record = record_of(count - 1, rates[count - 1], names[count - 1]);
            let records = before.push(record);
            assert(records.drop_last() =~= before);
            lemma_entry_of_record_of(count - 1, rates[count - 1], names[count - 1]);
            assert(front.update(count - 1, rates[count - 1]) =~= expected);
        } else {
            assert(front =~= expected);
        }
    }
}

/// Loading the records that a card list was dumped to gives the card
/// list back, whatever the names are: for every valid card list but
/// one with a single rate of 2048, which no table can hold.
pub proof fn lemma_load_dumped_records(
    rates: Seq<u16>,
    names: Seq<Seq<char>>,
    result: Result<CardList, LoadError>,
)
    requires
        rates.len() == NUMBER_OF_CARDS,
        rate_sum(rates) == RATE_TOTAL,
        forall|i: int| 0 <= i < rates.len() ==> rates[i] < RATE_TOTAL,
        loaded(result, rates_of_table(Some(records_of_rates(rates, names, NUMBER_OF_CARDS as nat)))),
    ensures
        result is Ok,
        result->Ok_0@ == rates,
{
    lemma_rates_of_dumped_records(rates, names, NUMBER_OF_CARDS as nat);
    let all = Seq::new(
        NUMBER_OF_CARDS as nat,
        |i: int|
            if i < NUMBER_OF_CARDS {
                rates[i]
            } else {
                0u16
            },
    );
    assert(all =~= rates);
}

} // verus!
