//! Loot notifications: the text of one notification and the drop it reports.

use crate::text::{
    all_digits, before, before_first, chars_of, find, first_index_of, is_all_digits,
    lemma_first_index_of, line_pieces, lines, matches_at, occurs_at, parse_u32, parsed_u32,
    starts_with, string_of, views,
};
use vstd::prelude::*;

verus! {

/// The longest user name that a notification may carry, in characters.
pub const MAX_USER_CHARS: usize = 15;

/// A drop as a notification reports it: who got it, from what, and which
/// items in which quantities.
#[derive(Debug, Clone)]
pub struct DinkDrop {
    pub user: String,
    pub source: String,
    pub loots: Vec<(String, u32)>,
}

/// What a `DinkDrop` stands for.
pub ghost struct DropEvent {
    pub user: Seq<char>,
    pub source: Seq<char>,
    pub loots: Seq<(Seq<char>, u32)>,
}

impl View for DinkDrop {
    type V = DropEvent;

    open spec fn view(&self) -> DropEvent {
        DropEvent { user: self.user@, source: self.source@, loots: self.loots.deep_view() }
    }
}

/// Why a text is no loot notification.
#[derive(Debug, Clone, Copy, PartialEq, Eq, Structural)]
pub enum ParseError {
    /// The text does not say who looted.
    NoUser,
    /// The user name has more than `MAX_USER_CHARS` characters.
    UsernameTooLong,
    /// The text reports no item.
    NoItems,
}

impl DinkDrop {
    /// The drop of `loots` that `user` got from `source`.
    pub fn new(user: String, source: String, loots: Vec<(String, u32)>) -> (drop: Self)
        ensures
            drop.user == user,
            drop.source == source,
            drop.loots == loots,
    {
        Self { user, source, loots }
    }
}

/// What follows the user name in a notification.
pub open spec fn looted_marker() -> Seq<char> {
    " has looted:"@
}

/// What stands between the quantity and the name of an item.
pub open spec fn item_marker() -> Seq<char> {
    " x ["@
}

/// What ends the name of an item or of a source.
pub open spec fn link_marker() -> Seq<char> {
    "]("@
}

/// What the line that names the source begins with.
pub open spec fn source_marker() -> Seq<char> {
    "From: ["@
}

/// The quantity that the digits `digits` write, or 0 where they write no
/// number that fits in 32 bits.
pub open spec fn quantity_of(digits: Seq<char>) -> u32 {
    match parsed_u32(digits) {
        Some(q) => q,
        None => 0,
    }
}

/// The item that a line reports, if it reports one. A line reports an item
/// where it has the shape of digits, the item marker, a name and the link
/// marker: one digit or more stand before the first item marker and nothing
/// else, and the link marker stands behind it. The name is what stands
/// between the two markers, the quantity what the digits write.
pub open spec fn loot_of_line(line: Seq<char>) -> Option<(Seq<char>, u32)> {
    match first_index_of(line, item_marker()) {
        Some(i) => {
            let digits = line.take(i);
            let rest = line.skip(i + item_marker().len());
            match first_index_of(rest, link_marker()) {
                Some(j) => if digits.len() > 0 && all_digits(digits) {
                    Some((rest.take(j), quantity_of(digits)))
                } else {
                    None
                },
                None => None,
            }
        },
        None => None,
    }
}

/// The source that a line names, if it names one: the line begins with the
/// source marker, and the source is what follows it up to the link marker,
/// or up to the end of the line where there is no link marker.
pub open spec fn source_of_line(line: Seq<char>) -> Option<Seq<char>> {
    if starts_with(line, source_marker()) {
        Some(before_first(line.skip(source_marker().len() as int), link_marker()))
    } else {
        None
    }
}

/// The items that `lines` report, in order.
pub open spec fn loots_of(lines: Seq<Seq<char>>) -> Seq<(Seq<char>, u32)>
    decreases lines.len(),
{
    if lines.len() == 0 {
        Seq::empty()
    } else {
        match loot_of_line(lines.last()) {
            Some(loot) => loots_of(lines.drop_last()).push(loot),
            None => loots_of(lines.drop_last()),
        }
    }
}

/// The source that `lines` name: that of the last line that names one, and
/// the empty text where none does.
pub open spec fn source_of(lines: Seq<Seq<char>>) -> Seq<char>
    decreases lines.len(),
{
    if lines.len() == 0 {
        Seq::empty()
    } else {
        match source_of_line(lines.last()) {
            Some(source) => source,
            None => source_of(lines.drop_last()),
        }
    }
}

/// The drop that the notification `text` reports, or why it reports none.
///
/// The user is all that stands before the first `looted_marker`. Every line
/// is read for an item and for the source.
pub open spec fn parsed_loot(text: Seq<char>) -> Result<DropEvent, ParseError> {
    match first_index_of(text, looted_marker()) {
        None => Err(ParseError::NoUser),
        Some(i) => {
            let user = text.take(i);
            let lines = line_pieces(text);
            if user.len() > MAX_USER_CHARS {
                Err(ParseError::UsernameTooLong)
            } else if loots_of(lines).len() == 0 {
                Err(ParseError::NoItems)
            } else {
                Ok(DropEvent { user, source: source_of(lines), loots: loots_of(lines) })
            }
        },
    }
}

/// Whether `result` is what reading the notification `text` gives.
pub open spec fn reads_as(text: Seq<char>, result: Result<DinkDrop, ParseError>) -> bool {
    match result {
        Ok(drop) => parsed_loot(text) == Ok::<DropEvent, ParseError>(drop@),
        Err(e) => parsed_loot(text) == Err::<DropEvent, ParseError>(e),
    }
}

/// Reading is a function of the text: two readings of one text report the
/// same drop, or fail for the same reason.
pub proof fn law_reading_is_a_function(
    text: Seq<char>,
    first: Result<DinkDrop, ParseError>,
    second: Result<DinkDrop, ParseError>,
)
    requires
        reads_as(text, first),
        reads_as(text, second),
    ensures
        match (first, second) {
            (Ok(a), Ok(b)) => a@ == b@,
            (Err(a), Err(b)) => a == b,
            _ => false,
        },
{
}

/// The item that the line `line` reports, if it reports one.
pub fn loot_in_line(line: &[char]) -> (r: Option<(String, u32)>)
    ensures
        r.deep_view() == loot_of_line(line@),
{
    let marker = chars_of(" x [");
    let link = chars_of("](");
    let at = match find(line, marker.as_slice()) {
        Some(at) => at,
        None => {
            return None;
        },
    };
    proof {
        lemma_first_index_of(line@, marker@);
        assert(occurs_at(line@, marker@, at as int));
    }
    let end = line.len();
    let digits = &line[0..at];
    let rest = &line[at + marker.len()..end];
    assert(digits@ =~= line@.take(at as int));
    assert(rest@ =~= line@.skip(at + item_marker().len()));
    let upto = match find(rest, link.as_slice()) {
        Some(upto) => upto,
        None => {
            return None;
        },
    };
    proof {
        lemma_first_index_of(rest@, link@);
    }
    if digits.len() == 0 || !is_all_digits(digits) {
        return None;
    }
    let quantity = match parse_u32(digits) {
        Some(q) => q,
        None => 0,
    };
    assert(rest@.subrange(0, upto as int) =~= rest@.take(upto as int));
    Some((string_of(&rest[0..upto]), quantity))
}

/// The source that the line `line` names, if it names one.
pub fn source_in_line(line: &[char]) -> (r: Option<String>)
    ensures
        r.deep_view() == source_of_line(line@),
{
    let marker = chars_of("From: [");
    let link = chars_of("](");
    if matches_at(line, marker.as_slice(), 0) {
        let end = line.len();
        let rest = &line[marker.len()..end];
        assert(rest@ =~= line@.skip(source_marker().len() as int));
        Some(string_of(before(rest, link.as_slice())))
    } else {
        None
    }
}

/// Reads the loot notification `text`.
///
/// The result is a function of the characters of `text` alone: the drop that
/// `parsed_loot` describes, or the reason it gives.
pub fn parse_loot_text(text: &str) -> (r: Result<DinkDrop, ParseError>)
    ensures
        reads_as(text@, r),
{
    let chars = chars_of(text);
    let s = chars.as_slice();
    let marker = chars_of(" has looted:");
    let at = match find(s, marker.as_slice()) {
        Some(i) => i,
        None => {
            return Err(ParseError::NoUser);
        },
    };
    proof {
        lemma_first_index_of(s@, marker@);
    }
    let user = &s[0..at];
    if user.len() > MAX_USER_CHARS {
        return Err(ParseError::UsernameTooLong);
    }
    let pieces = lines(s);
    let mut loots: Vec<(String, u32)> = Vec::new();
    let mut source = String::new();
    let mut k: usize = 0;
    assert(views(pieces@).take(0) =~= Seq::<Seq<char>>::empty());
    assert(loots.deep_view() =~= Seq::<(Seq<char>, u32)>::empty());
    while k < pieces.len()
        invariant
            k <= pieces.len(),
            loots.deep_view() == loots_of(views(pieces@).take(k as int)),
            source@ == source_of(views(pieces@).take(k as int)),
        decreases pieces.len() - k,
    {
        let line = pieces[k];
        proof {
            let upto = views(pieces@).take(k + 1);
            assert(upto.drop_last() =~= views(pieces@).take(k as int));
            assert(upto.last() == pieces@[k as int]@);
        }
        match loot_in_line(line) {
            Some(loot) => {
                let ghost before_push = loots.deep_view();
                let ghost pushed = loot.deep_view();
                loots.push(loot);
                assert(loots.deep_view() =~= before_push.push(pushed));
            },
            None => {},
        }
        match source_in_line(line) {
            Some(named) => {
                source = named;
            },
            None => {},
        }
        k += 1;
    }
    assert(views(pieces@).take(pieces@.len() as int) =~= views(pieces@));
    if loots.len() == 0 {
        return Err(ParseError::NoItems);
    }
    Ok(DinkDrop::new(string_of(user), source, loots))
}

} // verus!
