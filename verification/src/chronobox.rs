//! Where a Chronobox channel sits: the final ODB lists, board by board, the
//! names of the channels, and a channel is addressed by its board and its
//! position on the board.

use crate::odb::Json;
use crate::text::str_eq;
use vstd::prelude::*;

verus! {

/// The number of Chronobox boards.
pub const BOARD_COUNT: usize = 4;

/// The names of the Chronobox boards, in the order in which they are searched.
pub open spec fn board_names() -> Seq<Seq<char>> {
    seq!["cb01"@, "cb02"@, "cb03"@, "cb04"@]
}

/// The name of the board at `index`.
pub fn board_name(index: usize) -> (name: &'static str)
    requires
        index < BOARD_COUNT,
    ensures
        name@ == board_names()[index as int],
{
    if index == 0 {
        "cb01"
    } else if index == 1 {
        "cb02"
    } else if index == 2 {
        "cb03"
    } else {
        "cb04"
    }
}

/// The board and the position of a channel.
#[derive(Debug)]
pub struct ChronoboxChannel {
    pub board_name: String,
    pub channel_number: u8,
}

/// Why a channel name could not be turned into a board and a position.
#[derive(Debug)]
pub enum ResolveError {
    /// The ODB holds no array of channel names for this board.
    NamesMissing { board: String },
    /// The array of channel names of this board holds an item that is no
    /// string.
    NamesMalformed { board: String },
    /// No board has a channel of this name.
    Absent { channel: String },
    /// More than one channel has this name.
    Ambiguous { channel: String },
    /// The channel stands at a position that is no channel number: the
    /// numbers end at [`LAST_CHANNEL`].
    OutOfRange { channel: String },
}

impl ResolveError {
    /// What the failure says of itself.
    pub open spec fn spec_message(self) -> Seq<char> {
        match self {
            ResolveError::NamesMissing { board } => "failed to find chronobox names array of `"@
                + board@ + "` in the ODB"@,
            ResolveError::NamesMalformed { board } => "failed to read chronobox names array of `"@
                + board@ + "` in the ODB"@,
            ResolveError::Absent { channel } => "failed to find a channel with name `"@
                + channel@ + "` in the ODB"@,
            ResolveError::OutOfRange { channel } => "failed to number the channel with name `"@
                + channel@ + "` in the ODB"@,
            ResolveError::Ambiguous { channel } => "failed to find a unique channel with name `"@
                + channel@ + "` in the ODB"@,
        }
    }

    /// What the failure says of itself.
    pub fn message(&self) -> (message: String)
        ensures
            message@ == self.spec_message(),
    {
        match self {
            ResolveError::NamesMissing { board } => {
                let mut message = String::from_str("failed to find chronobox names array of `");
                message.append(board.as_str());
                message.append("` in the ODB");
                message
            },
            ResolveError::NamesMalformed { board } => {
                let mut message = String::from_str("failed to read chronobox names array of `");
                message.append(board.as_str());
                message.append("` in the ODB");
                message
            },
            ResolveError::Absent { channel } => {
                let mut message = String::from_str("failed to find a channel with name `");
                message.append(channel.as_str());
                message.append("` in the ODB");
                message
            },
            ResolveError::OutOfRange { channel } => {
                let mut message = String::from_str("failed to number the channel with name `");
                message.append(channel.as_str());
                message.append("` in the ODB");
                message
            },
            ResolveError::Ambiguous { channel } => {
                let mut message = String::from_str("failed to find a unique channel with name `");
                message.append(channel.as_str());
                message.append("` in the ODB");
                message
            },
        }
    }
}

/// What a resolution gives: the board's name and the channel's number, or the
/// reason why there is none.
pub ghost enum Resolution {
    Found { board: Seq<char>, channel_number: u8 },
    NamesMissing { board: Seq<char> },
    NamesMalformed { board: Seq<char> },
    Absent { channel: Seq<char> },
    Ambiguous { channel: Seq<char> },
    OutOfRange { channel: Seq<char> },
}

/// The path from the root of the ODB to the channel names of a board.
pub open spec fn names_path(board: Seq<char>) -> Seq<Seq<char>> {
    seq!["Equipment"@, board, "Settings"@, "names"@]
}

/// The largest channel number: a channel is numbered by its position on its
/// board, and the data handler takes the number in eight bits.
pub const LAST_CHANNEL: usize = 255;

/// Whether every item of an array is a string.
pub open spec fn all_texts(items: Seq<Json>) -> bool {
    forall|i: int| 0 <= i < items.len() ==> (#[trigger] items[i]).spec_text() is Some
}

/// The strings that the items of an array are, item by item.
pub open spec fn texts_of(items: Seq<Json>) -> Seq<Seq<char>> {
    Seq::new(items.len(), |i: int| items[i].spec_text()->Some_0)
}

/// The array that the ODB holds under the settings of a board as the names of
/// its channels, if it holds one.
pub open spec fn board_array(odb: Json, board: Seq<char>) -> Option<Seq<Json>> {
    match odb.spec_lookup(names_path(board)) {
        Some(value) => value.spec_items(),
        None => None,
    }
}

/// The channel names of a board, each at the position that it has in the
/// array of the ODB. There are none where the ODB has no such array, and none
/// where an item of the array is no string.
pub open spec fn board_channels(odb: Json, board: Seq<char>) -> Option<Seq<Seq<char>>> {
    match board_array(odb, board) {
        Some(items) => if all_texts(items) {
            Some(texts_of(items))
        } else {
            None
        },
        None => None,
    }
}

/// The positions at which `channel` stands in `names`, ascending.
pub open spec fn positions_of(names: Seq<Seq<char>>, channel: Seq<char>) -> Seq<int>
    decreases names.len(),
{
    if names.len() == 0 {
        Seq::empty()
    } else {
        let before = positions_of(names.drop_last(), channel);
        if names.last() == channel {
            before.push(names.len() - 1)
        } else {
            before
        }
    }
}

/// The first of the first `boards` boards for which the ODB has no channel
/// names, or `boards` where it has them for all.
pub open spec fn first_board_without_names(odb: Json, boards: int) -> int
    decreases boards,
{
    if boards <= 0 {
        0
    } else {
        let before = first_board_without_names(odb, boards - 1);
        if before < boards - 1 {
            before
        } else if board_channels(odb, board_names()[boards - 1]) is Some {
            boards
        } else {
            boards - 1
        }
    }
}

/// Every place where `channel` stands on the first `boards` boards, as board
/// index and position, board by board.
pub open spec fn channel_places(odb: Json, channel: Seq<char>, boards: int) -> Seq<(int, int)>
    decreases boards,
{
    if boards <= 0 {
        Seq::empty()
    } else {
        let before = channel_places(odb, channel, boards - 1);
        match board_channels(odb, board_names()[boards - 1]) {
            Some(names) => before + positions_of(names, channel).map_values(
                |position: int| (boards - 1, position),
            ),
            None => before,
        }
    }
}

/// Where `channel` sits according to the ODB. The boards are tried in their
/// order; the first one whose channel names are missing or malformed ends the
/// search. Otherwise the channel must stand at exactly one place on all
/// boards together. Its number is its position on its board; a position
/// beyond [`LAST_CHANNEL`] is no number and makes the resolution fail.
pub open spec fn resolution(odb: Json, channel: Seq<char>) -> Resolution {
    let missing = first_board_without_names(odb, BOARD_COUNT as int);
    let places = channel_places(odb, channel, BOARD_COUNT as int);
    if missing < BOARD_COUNT {
        if board_array(odb, board_names()[missing]) is Some {
            Resolution::NamesMalformed { board: board_names()[missing] }
        } else {
            Resolution::NamesMissing { board: board_names()[missing] }
        }
    } else if places.len() == 0 {
        Resolution::Absent { channel }
    } else if places.len() == 1 {
        if places[0].1 <= LAST_CHANNEL {
            Resolution::Found {
                board: board_names()[places[0].0],
                channel_number: places[0].1 as u8,
            }
        } else {
            Resolution::OutOfRange { channel }
        }
    } else {
        Resolution::Ambiguous { channel }
    }
}

/// What the outcome of a resolution says.
pub open spec fn resolution_of(outcome: Result<ChronoboxChannel, ResolveError>) -> Resolution {
    match outcome {
        Ok(found) => Resolution::Found {
            board: found.board_name@,
            channel_number: found.channel_number,
        },
        Err(ResolveError::NamesMissing { board }) => Resolution::NamesMissing { board: board@ },
        Err(ResolveError::NamesMalformed { board }) => Resolution::NamesMalformed {
            board: board@,
        },
        Err(ResolveError::Absent { channel }) => Resolution::Absent { channel: channel@ },
        Err(ResolveError::Ambiguous { channel }) => Resolution::Ambiguous { channel: channel@ },
        Err(ResolveError::OutOfRange { channel }) => Resolution::OutOfRange { channel: channel@ },
    }
}

/// Whether the ODB has channel names for each of the first `boards` boards.
pub open spec fn has_names(odb: Json, boards: int) -> bool {
    forall|board: int| 0 <= board < boards ==> board_channels(odb, #[trigger] board_names()[board]) is Some
}

/// Whether `channel` stands at `position` on the board at index `board`.
pub open spec fn is_place(odb: Json, channel: Seq<char>, board: int, position: int) -> bool {
    &&& 0 <= board < BOARD_COUNT
    &&& board_channels(odb, board_names()[board]) matches Some(names)
    &&& 0 <= position < names.len()
    &&& names[position] == channel
}

/// [`positions_of`] lists exactly the positions at which the channel stands,
/// each once and in ascending order.
pub proof fn lemma_positions_of(names: Seq<Seq<char>>, channel: Seq<char>)
    ensures
        forall|i: int|
            0 <= i < positions_of(names, channel).len() ==> 0 <= (#[trigger] positions_of(
                names,
                channel,
            )[i]) < names.len() && names[positions_of(names, channel)[i]] == channel,
        forall|i: int, j: int|
            0 <= i < j < positions_of(names, channel).len() ==> (#[trigger] positions_of(
                names,
                channel,
            )[i]) < (#[trigger] positions_of(names, channel)[j]),
        forall|position: int|
            0 <= position < names.len() && names[position] == channel ==> #[trigger] positions_of(
                names,
                channel,
            ).contains(position),
    decreases names.len(),
{
    if names.len() > 0 {
        let before = positions_of(names.drop_last(), channel);
        let all = positions_of(names, channel);
        lemma_positions_of(names.drop_last(), channel);
        assert forall|position: int|
            0 <= position < names.len() && names[position] == channel implies #[trigger] all.contains(
            position,
        ) by {
            if position < names.len() - 1 {
                assert(names.drop_last()[position] == channel);
                assert(before.contains(position));
                let i = choose|i: int| 0 <= i < before.len() && before[i] == position;
                assert(all[i] == position);
            } else {
                assert(all[all.len() - 1] == position);
            }
        }
    }
}

/// [`first_board_without_names`] is the number of boards exactly when the ODB
/// has the channel names of them all.
pub proof fn lemma_all_boards_have_names(odb: Json, boards: int)
    requires
        0 <= boards,
    ensures
        0 <= first_board_without_names(odb, boards) <= boards,
        first_board_without_names(odb, boards) == boards <==> has_names(odb, boards),
        first_board_without_names(odb, boards) < boards ==> board_channels(
            odb,
            board_names()[first_board_without_names(odb, boards)],
        ) is None,
    decreases boards,
{
    if boards > 0 {
        lemma_all_boards_have_names(odb, boards - 1);
        if has_names(odb, boards) {
            assert(has_names(odb, boards - 1));
            assert(board_channels(odb, board_names()[boards - 1]) is Some);
        }
    }
}

/// [`channel_places`] lists exactly the places at which the channel stands on
/// the first `boards` boards, each once.
pub proof fn lemma_channel_places(odb: Json, channel: Seq<char>, boards: int)
    requires
        0 <= boards <= BOARD_COUNT,
    ensures
        forall|k: int|
            0 <= k < channel_places(odb, channel, boards).len() ==> (#[trigger] channel_places(
                odb,
                channel,
                boards,
            )[k]).0 < boards && is_place(
                odb,
                channel,
                channel_places(odb, channel, boards)[k].0,
                channel_places(odb, channel, boards)[k].1,
            ),
        forall|i: int, j: int|
            0 <= i < j < channel_places(odb, channel, boards).len() ==> (#[trigger] channel_places(
                odb,
                channel,
                boards,
            )[i]) != (#[trigger] channel_places(odb, channel, boards)[j]),
        forall|board: int, position: int|
            board < boards && is_place(odb, channel, board, position) ==> channel_places(
                odb,
                channel,
                boards,
            ).contains((board, position)),
    decreases boards,
{
    if boards > 0 {
        let before = channel_places(odb, channel, boards - 1);
        let all = channel_places(odb, channel, boards);
        lemma_channel_places(odb, channel, boards - 1);
        match board_channels(odb, board_names()[boards - 1]) {
            Some(names) => {
                let positions = positions_of(names, channel);
                let here = positions.map_values(|position: int| (boards - 1, position));
                lemma_positions_of(names, channel);
                assert(all == before + here);
                assert forall|k: int| 0 <= k < all.len() implies (#[trigger] all[k]).0 < boards
                    && is_place(odb, channel, all[k].0, all[k].1) by {
                    if k < before.len() {
                        assert(all[k] == before[k]);
                    } else {
                        assert(all[k] == here[k - before.len()]);
                        assert(here[k - before.len()] == (boards - 1, positions[k - before.len()]));
                    }
                }
                assert forall|i: int, j: int| 0 <= i < j < all.len() implies (#[trigger] all[i]) != (
                #[trigger] all[j]) by {
                    if j < before.len() {
                        assert(all[i] == before[i] && all[j] == before[j]);
                    } else if i < before.len() {
                        assert(all[i] == before[i]);
                        assert(all[j] == here[j - before.len()]);
                        assert(before[i].0 < boards - 1);
                    } else {
                        assert(all[i] == here[i - before.len()]);
                        assert(all[j] == here[j - before.len()]);
                        assert(positions[i - before.len()] < positions[j - before.len()]);
                    }
                }
                assert forall|board: int, position: int|
                    board < boards && is_place(odb, channel, board, position) implies all.contains(
                    (board, position),
                ) by {
                    if board < boards - 1 {
                        assert(before.contains((board, position)));
                        let k = choose|k: int| 0 <= k < before.len() && before[k] == (board, position);
                        assert(all[k] == (board, position));
                    } else {
                        assert(positions.contains(position));
                        let k = choose|k: int| 0 <= k < positions.len() && positions[k] == position;
                        assert(here[k] == (board, position));
                        assert(all[before.len() + k] == (board, position));
                    }
                }
            },
            None => {
                assert forall|board: int, position: int|
                    board < boards && is_place(odb, channel, board, position) implies all.contains(
                    (board, position),
                ) by {
                    assert(board < boards - 1);
                    assert(before.contains((board, position)));
                }
            },
        }
    }
}

/// A channel name that stands at one place only resolves to that place: where
/// the ODB has the channel names of every board and the name stands at
/// `position` on `board` and nowhere else, the resolution gives that board
/// and that position. A position that is no channel number is never turned
/// into one: the resolution fails instead.
pub proof fn lemma_single_place_resolves(odb: Json, channel: Seq<char>, board: int, position: int)
    requires
        has_names(odb, BOARD_COUNT as int),
        is_place(odb, channel, board, position),
        forall|other_board: int, other_position: int| #[trigger]
            is_place(odb, channel, other_board, other_position) ==> other_board == board
                && other_position == position,
    ensures
        position <= LAST_CHANNEL ==> resolution(odb, channel) == (Resolution::Found {
            board: board_names()[board],
            channel_number: position as u8,
        }),
        position > LAST_CHANNEL ==> resolution(odb, channel) == (Resolution::OutOfRange {
            channel,
        }),
{
    let places = channel_places(odb, channel, BOARD_COUNT as int);
    lemma_all_boards_have_names(odb, BOARD_COUNT as int);
    lemma_channel_places(odb, channel, BOARD_COUNT as int);
    assert(places.contains((board, position)));
    if places.len() >= 2 {
        assert(is_place(odb, channel, places[0].0, places[0].1));
        assert(is_place(odb, channel, places[1].0, places[1].1));
        assert(places[0] != places[1]);
    }
    assert(is_place(odb, channel, places[0].0, places[0].1));
}

/// A channel name that stands nowhere does not resolve: where the ODB has the
/// channel names of every board and none of them is the name, the resolution
/// says that the channel is absent.
pub proof fn lemma_no_place_is_absent(odb: Json, channel: Seq<char>)
    requires
        has_names(odb, BOARD_COUNT as int),
        forall|board: int, position: int| !#[trigger] is_place(odb, channel, board, position),
    ensures
        resolution(odb, channel) == (Resolution::Absent { channel }),
{
    let places = channel_places(odb, channel, BOARD_COUNT as int);
    lemma_all_boards_have_names(odb, BOARD_COUNT as int);
    lemma_channel_places(odb, channel, BOARD_COUNT as int);
    if places.len() > 0 {
        assert(is_place(odb, channel, places[0].0, places[0].1));
    }
}

/// A channel name that stands at two places does not resolve, be they on one
/// board or on two: the resolution says that the name is ambiguous.
pub proof fn lemma_two_places_are_ambiguous(
    odb: Json,
    channel: Seq<char>,
    board: int,
    position: int,
    other_board: int,
    other_position: int,
)
    requires
        has_names(odb, BOARD_COUNT as int),
        is_place(odb, channel, board, position),
        is_place(odb, channel, other_board, other_position),
        board != other_board || position != other_position,
    ensures
        resolution(odb, channel) == (Resolution::Ambiguous { channel }),
{
    let places = channel_places(odb, channel, BOARD_COUNT as int);
    lemma_all_boards_have_names(odb, BOARD_COUNT as int);
    lemma_channel_places(odb, channel, BOARD_COUNT as int);
    assert(places.contains((board, position)));
    assert(places.contains((other_board, other_position)));
}

/// The board that a resolution blames, if it blames one.
pub open spec fn blamed_board(outcome: Resolution) -> Option<Seq<char>> {
    match outcome {
        Resolution::NamesMissing { board } => Some(board),
        Resolution::NamesMalformed { board } => Some(board),
        _ => None,
    }
}

/// Without the channel names of a board nothing resolves: the resolution names
/// the first board whose names are missing or malformed, whatever the
/// channel, and says which of the two it is.
pub proof fn lemma_missing_names_fail(odb: Json, channel: Seq<char>)
    requires
        !has_names(odb, BOARD_COUNT as int),
    ensures
        blamed_board(resolution(odb, channel)) matches Some(board) && exists|index: int|
            0 <= index < BOARD_COUNT && board == #[trigger] board_names()[index] && board_channels(
                odb,
                board,
            ) is None && has_names(odb, index),
        resolution(odb, channel) is NamesMalformed <==> board_array(
            odb,
            blamed_board(resolution(odb, channel))->Some_0,
        ) is Some,
{
    lemma_all_boards_have_names(odb, BOARD_COUNT as int);
    let missing = first_board_without_names(odb, BOARD_COUNT as int);
    lemma_first_board_prefix(odb, missing, BOARD_COUNT as int);
    lemma_all_boards_have_names(odb, missing);
}

/// The first board without names among the first `boards` boards is also the
/// first one among the boards up to and including itself.
proof fn lemma_first_board_prefix(odb: Json, missing: int, boards: int)
    requires
        0 <= missing < boards,
        first_board_without_names(odb, boards) == missing,
    ensures
        first_board_without_names(odb, missing) == missing,
    decreases boards,
{
    lemma_all_boards_have_names(odb, boards - 1);
    if boards - 1 > missing {
        lemma_first_board_prefix(odb, missing, boards - 1);
    }
}

/// A list of strings alone is a list of names: no item is passed over, and
/// each name stands at the position of its item.
pub proof fn lemma_texts_of(items: Seq<Json>)
    requires
        items.len() > 0,
        all_texts(items),
    ensures
        all_texts(items.drop_last()),
        texts_of(items) == texts_of(items.drop_last()).push(items.last().spec_text()->Some_0),
{
    assert forall|i: int| 0 <= i < items.drop_last().len() implies (#[trigger] items.drop_last()[i]).spec_text() is Some by {
        assert(items.drop_last()[i] == items[i]);
    }
    assert(texts_of(items) =~= texts_of(items.drop_last()).push(
        items.last().spec_text()->Some_0,
    ));
}

/// The array that the ODB holds as the channel names of a board.
pub fn channel_names<'a>(odb: &'a Json, board: &str) -> (items: Option<&'a Vec<Json>>)
    ensures
        match items {
            Some(found) => board_array(*odb, board@) == Some(found@),
            None => board_array(*odb, board@) is None,
        },
{
    let path: [&str; 4] = ["Equipment", board, "Settings", "names"];
    assert(crate::odb::names_of(path@) =~= names_path(board@));
    match odb.lookup(path.as_slice()) {
        Some(value) => value.as_array(),
        None => None,
    }
}

/// The places found once the first `board` boards and then `items`, the
/// leading items of the next board's array, have been searched.
pub open spec fn places_through(odb: Json, channel: Seq<char>, board: int, items: Seq<Json>) -> Seq<
    (int, int),
> {
    channel_places(odb, channel, board) + positions_of(texts_of(items), channel).map_values(
        |position: int| (board, position),
    )
}

/// Searching one more name adds a place exactly when the name is the
/// channel; the place is the position of the name.
proof fn lemma_places_through_step(odb: Json, channel: Seq<char>, board: int, items: Seq<Json>)
    requires
        items.len() > 0,
        all_texts(items),
    ensures
        places_through(odb, channel, board, items) == if items.last().spec_text() == Some(
            channel,
        ) {
            places_through(odb, channel, board, items.drop_last()).push(
                (board, items.len() - 1),
            )
        } else {
            places_through(odb, channel, board, items.drop_last())
        },
{
    lemma_texts_of(items);
    let before = texts_of(items.drop_last());
    let text = items.last().spec_text()->Some_0;
    let names = before.push(text);
    assert(names.drop_last() =~= before);
    if text == channel {
        let positions = positions_of(before, channel);
        let place = |position: int| (board, position);
        assert(positions.push(before.len() as int).map_values(place) =~= positions.map_values(
            place,
        ).push((board, before.len() as int)));
        assert(places_through(odb, channel, board, items) =~= places_through(
            odb,
            channel,
            board,
            items.drop_last(),
        ).push((board, before.len() as int)));
    }
}

/// A board that lacks its channel names stays the first such board however
/// many boards follow it.
proof fn lemma_first_board_without_names(odb: Json, missing: int, boards: int)
    requires
        0 <= missing < boards,
        first_board_without_names(odb, missing) == missing,
        board_channels(odb, board_names()[missing]) is None,
    ensures
        first_board_without_names(odb, boards) == missing,
    decreases boards,
{
    if boards > missing + 1 {
        lemma_first_board_without_names(odb, missing, boards - 1);
    }
}

/// Finds the board and the position of the channel called `channel_name`.
///
/// The search fails where the channel names of a board are missing from the
/// ODB or hold an item that is no string, where the name stands at no place
/// or at more than one on all boards together, and where its position is no
/// channel number.
pub fn find_chronobox_channel(channel_name: &str, odb: &Json) -> (outcome: Result<
    ChronoboxChannel,
    ResolveError,
>)
    ensures
        resolution_of(outcome) == resolution(*odb, channel_name@),
{
    let mut count: u8 = 0;
    let mut first: (usize, usize) = (0, 0);
    let mut board: usize = 0;
    while board < BOARD_COUNT
        invariant
            board <= BOARD_COUNT,
            first_board_without_names(*odb, board as int) == board,
            count <= 2,
            count < 2 ==> channel_places(*odb, channel_name@, board as int).len() == count,
            count == 2 ==> channel_places(*odb, channel_name@, board as int).len() >= 2,
            count >= 1 ==> channel_places(*odb, channel_name@, board as int)[0] == (
                first.0 as int,
                first.1 as int,
            ),
            count >= 1 ==> first.0 < BOARD_COUNT,
        decreases BOARD_COUNT - board,
    {
        let items = match channel_names(odb, board_name(board)) {
            Some(items) => items,
            None => {
                proof {
                    lemma_first_board_without_names(*odb, board as int, BOARD_COUNT as int);
                }
                return Err(ResolveError::NamesMissing { board: String::from_str(board_name(board)) });
            },
        };
        let mut i: usize = 0;
        assert(items@.take(0) =~= Seq::<Json>::empty());
        assert(places_through(*odb, channel_name@, board as int, items@.take(0))
            =~= channel_places(*odb, channel_name@, board as int));
        while i < items.len()
            invariant
                i <= items.len(),
                board < BOARD_COUNT,
                board_array(*odb, board_names()[board as int]) == Some(items@),
                first_board_without_names(*odb, board as int) == board,
                all_texts(items@.take(i as int)),
                count <= 2,
                count < 2 ==> places_through(
                    *odb,
                    channel_name@,
                    board as int,
                    items@.take(i as int),
                ).len() == count,
                count == 2 ==> places_through(
                    *odb,
                    channel_name@,
                    board as int,
                    items@.take(i as int),
                ).len() >= 2,
                count >= 1 ==> places_through(
                    *odb,
                    channel_name@,
                    board as int,
                    items@.take(i as int),
                )[0] == (first.0 as int, first.1 as int),
                count >= 1 ==> first.0 < BOARD_COUNT,
            decreases items.len() - i,
        {
            let ghost next = items@.take(i + 1);
            proof {
                assert(next.drop_last() =~= items@.take(i as int));
                assert(next.last() == items@[i as int]);
            }
            match items[i].as_str() {
                Some(name) => {
                    proof {
                        assert forall|k: int| 0 <= k < next.len() implies (#[trigger] next[k]).spec_text() is Some by {
                            if k < i {
                                assert(next[k] == items@.take(i as int)[k]);
                            }
                        }
                        lemma_places_through_step(*odb, channel_name@, board as int, next);
                    }
                    if str_eq(name, channel_name) {
                        if count == 0 {
                            first = (board, i);
                        }
                        if count < 2 {
                            count += 1;
                        }
                    }
                },
                None => {
                    proof {
                        assert(!all_texts(items@));
                        lemma_first_board_without_names(*odb, board as int, BOARD_COUNT as int);
                    }
                    return Err(
                        ResolveError::NamesMalformed { board: String::from_str(board_name(board)) },
                    );
                },
            }
            i += 1;
        }
        assert(items@.take(i as int) =~= items@);
        board += 1;
    }
    if count == 0 {
        Err(ResolveError::Absent { channel: String::from_str(channel_name) })
    } else if count == 1 {
        if first.1 <= LAST_CHANNEL {
            Ok(
                ChronoboxChannel {
                    board_name: String::from_str(board_name(first.0)),
                    channel_number: first.1 as u8,
                },
            )
        } else {
            Err(ResolveError::OutOfRange { channel: String::from_str(channel_name) })
        }
    } else {
        Err(ResolveError::Ambiguous { channel: String::from_str(channel_name) })
    }
}

} // verus!
