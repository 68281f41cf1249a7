//! Reading and rewriting the game data of a Yu-Gi-Oh! Forbidden Memories
//! disc image (US release, SLUS-01411): the CD-ROM/XA sector codec, the
//! game's text encoding, the duelists' decks and drop tables, and their
//! editable csv form.

use vstd::prelude::*;
use vstd::string::*;

pub mod csv_table;
pub mod decimal;
pub mod duelist;
pub mod image;
pub mod testing;
pub mod text;

use crate::decimal::{padded_decimal_string, padded_digits};
use crate::duelist::{
    card_names,
    duelist_views,
    duelists_at,
    get_card_names,
    read_all_duelists,
    CardList,
    DataError,
    Duelist,
    DuelistView,
    NUMBER_OF_CARDS,
    NUMBER_OF_DUELISTS,
};
use crate::image::{
    read_slus_from_bin,
    read_wa_mrg_from_bin,
    slus_of,
    wa_mrg_of,
    ImageError,
    SECTOR_SIZE_BYTES,
    WA_MRG_OFFSET_SECTORS,
    WA_MRG_SIZE_SECTORS,
};

verus! {

/// Why the game data could not be taken from the image or put into it.
#[derive(Debug, Clone, Copy, PartialEq, Eq, Structural)]
pub enum GameDataError {
    /// A file could not be taken from the image or put into it.
    Image(ImageError),
    /// The names or the duelists could not be read or written.
    Data(DataError),
}

/// The line of a card in a listing: the rate in four digits or more,
/// and the name.
pub open spec fn card_line(rate: u16, name: Seq<char>) -> Seq<char> {
    seq![' ', ' '] + padded_digits(rate as nat, 4) + seq![':', ' '] + name
}

/// The lines of the first `count` cards of a card list: one for each
/// card with a rate other than `0`, in the order of the cards.
pub open spec fn card_list_lines(rates: Seq<u16>, names: Seq<Seq<char>>, count: nat) -> Seq<
    Seq<char>,
>
    decreases count,
{
    if count == 0 {
        Seq::empty()
    } else if rates[count - 1] != 0 {
        card_list_lines(rates, names, (count - 1) as nat).push(
            card_line(rates[count - 1], names[count - 1]),
        )
    } else {
        card_list_lines(rates, names, (count - 1) as nat)
    }
}

/// The lines of a duelist: the name, a rule, the four card lists, each
/// under its heading, and an empty line.
pub open spec fn duelist_lines(duelist: DuelistView, names: Seq<Seq<char>>) -> Seq<Seq<char>> {
    seq![duelist.name, "================"@, "Deck:"@] + card_list_lines(
        duelist.deck,
        names,
        NUMBER_OF_CARDS as nat,
    ) + seq!["SA-POW:"@] + card_list_lines(duelist.drops_sa_pow, names, NUMBER_OF_CARDS as nat)
        + seq!["BCD:"@] + card_list_lines(duelist.drops_bcd, names, NUMBER_OF_CARDS as nat)
        + seq!["SA-TEC:"@] + card_list_lines(duelist.drops_sa_tec, names, NUMBER_OF_CARDS as nat)
        + seq![Seq::<char>::empty()]
}

/// The lines of the first `count` duelists.
pub open spec fn duelists_lines(duelists: Seq<DuelistView>, names: Seq<Seq<char>>, count: nat) -> Seq<
    Seq<char>,
>
    decreases count,
{
    if count == 0 {
        Seq::empty()
    } else {
        duelists_lines(duelists, names, (count - 1) as nat) + duelist_lines(
            duelists[count - 1],
            names,
        )
    }
}

/// The listing of the game data of an image: the lines of all
/// duelists. Fails where the image ends before `WA_MRG.MRG` does, and
/// where the duelists or the card names cannot be read.
pub open spec fn game_data_lines(rom: Seq<u8>) -> Result<Seq<Seq<char>>, GameDataError> {
    if rom.len() < (WA_MRG_OFFSET_SECTORS + WA_MRG_SIZE_SECTORS) * SECTOR_SIZE_BYTES {
        Err(GameDataError::Image(ImageError::ImageTooSmall))
    } else {
        match duelists_at(slus_of(rom), wa_mrg_of(rom), NUMBER_OF_DUELISTS as nat) {
            Err(e) => Err(GameDataError::Data(e)),
            Ok(duelists) => match card_names(slus_of(rom)) {
                Err(e) => Err(GameDataError::Data(e)),
                Ok(names) => Ok(duelists_lines(duelists, names, NUMBER_OF_DUELISTS as nat)),
            },
        }
    }
}

/// Add a line to a listing.
fn push_line(lines: &mut Vec<String>, line: String)
    ensures
        final(lines).deep_view() == old(lines).deep_view().push(line@),
{
    lines.push(line);
    assert(lines.deep_view() =~= old(lines).deep_view().push(line@));
}

/// Add the lines of a card list to a listing.
fn print_card_list(card_list: &CardList, card_names: &[String], lines: &mut Vec<String>)
    requires
        card_names.len() == NUMBER_OF_CARDS,
    ensures
        final(lines).deep_view() == old(lines).deep_view() + card_list_lines(
            card_list@,
            card_names.deep_view(),
            NUMBER_OF_CARDS as nat,
        ),
{
    let ghost before = lines.deep_view();
    assert(before + Seq::<Seq<char>>::empty() =~= before);
    let mut i: usize = 0;
    while i < NUMBER_OF_CARDS
        invariant
            i <= NUMBER_OF_CARDS,
            card_names.len() == NUMBER_OF_CARDS,
            lines.deep_view() == before + card_list_lines(
                card_list@,
                card_names.deep_view(),
                i as nat,
            ),
        decreases NUMBER_OF_CARDS - i,
    {
        let rate = card_list.card_rate[i];
        if rate != 0 {
            let mut line = String::new();
            line.push(' ');
            line.push(' ');
            line.append(padded_decimal_string(rate as u64, 4).as_str());
            line.push(':');
            line.push(' ');
            line.append(card_names[i].as_str());
            assert(line@ =~= card_line(rate, card_names.deep_view()[i as int]));
            let ghost listed = card_list_lines(card_list@, card_names.deep_view(), i as nat);
            push_line(lines, line);
            assert(lines.deep_view() =~= before + listed.push(line@));
        }
        i += 1;
    }
}

/// Add the lines of a duelist to a listing.
fn print_duelist(duelist: &Duelist, card_names: &[String], lines: &mut Vec<String>)
    requires
        card_names.len() == NUMBER_OF_CARDS,
    ensures
        final(lines).deep_view() == old(lines).deep_view() + duelist_lines(
            duelist@,
            card_names.deep_view(),
        ),
{
    push_line(lines, duelist.name.clone());
    push_line(lines, String::from_str("================"));
    push_line(lines, String::from_str("Deck:"));
    print_card_list(&duelist.deck, card_names, lines);
    push_line(lines, String::from_str("SA-POW:"));
    print_card_list(&duelist.drops_sa_pow, card_names, lines);
    push_line(lines, String::from_str("BCD:"));
    print_card_list(&duelist.drops_bcd, card_names, lines);
    push_line(lines, String::from_str("SA-TEC:"));
    print_card_list(&duelist.drops_sa_tec, card_names, lines);
    push_line(lines, String::new());
    assert(lines.deep_view() =~= old(lines).deep_view() + duelist_lines(
        duelist@,
        card_names.deep_view(),
    ));
}

/// List the game data of an image: for each duelist the name, the deck
/// and the drops, the cards by name.
///
/// Fails where the image ends before `WA_MRG.MRG` does, and where the
/// duelists or the card names cannot be read.
pub fn print_game_data(rom_file: &Vec<u8>) -> (result: Result<Vec<String>, GameDataError>)
    ensures
        match result {
            Ok(lines) => game_data_lines(rom_file@) == Ok::<Seq<Seq<char>>, GameDataError>(
                lines.deep_view(),
            ),
            Err(e) => game_data_lines(rom_file@) == Err::<Seq<Seq<char>>, GameDataError>(e),
        },
{
    let slus = match read_slus_from_bin(rom_file) {
        Ok(slus) => slus,
        Err(e) => {
            return Err(GameDataError::Image(e));
        },
    };
    let wa_mrg = match read_wa_mrg_from_bin(rom_file) {
        Ok(wa_mrg) => wa_mrg,
        Err(e) => {
            return Err(GameDataError::Image(e));
        },
    };
    let duelist_info = match read_all_duelists(&slus, &wa_mrg) {
        Ok(duelist_info) => duelist_info,
        Err(e) => {
            return Err(GameDataError::Data(e));
        },
    };
    let card_names = match get_card_names(&slus) {
        Ok(card_names) => card_names,
        Err(e) => {
            return Err(GameDataError::Data(e));
        },
    };
    let ghost names = card_names.deep_view();
    let ghost duelists = duelist_views(duelist_info@);
    let mut lines: Vec<String> = Vec::new();
    assert(lines.deep_view() =~= Seq::<Seq<char>>::empty());
    let mut i: usize = 0;
    while i < NUMBER_OF_DUELISTS
        invariant
            i <= NUMBER_OF_DUELISTS,
            duelist_info.len() == NUMBER_OF_DUELISTS,
            card_names.len() == NUMBER_OF_CARDS,
            names == card_names.deep_view(),
            duelists == duelist_views(duelist_info@),
            lines.deep_view() == duelists_lines(duelists, names, i as nat),
        decreases NUMBER_OF_DUELISTS - i,
    {
        print_duelist(&duelist_info[i], card_names.as_slice(), &mut lines);
        i += 1;
    }
    Ok(lines)
}

} // verus!
