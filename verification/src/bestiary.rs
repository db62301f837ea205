//! The bestiary: the combat level of each monster, and the slayer level
//! that some of them ask for.

use crate::strmap::StrMap;
use crate::text::{
    chars_of, contains, find, first_index_of, has, lemma_first_index_of, line_pieces, lines,
    lowercase, parse_u32, parsed_u32, same, split, split_on, string_of, to_lowercase, trim,
    trimmed, views,
};
use vstd::prelude::*;

verus! {

/// The monsters and their levels.
pub struct Bestiary {
    /// The combat level of each monster.
    pub monster_levels: StrMap<u32>,
    /// The slayer level that a monster asks for; superior and alternative
    /// forms of a monster have the level of the monster itself.
    pub monster_slayer_levels: StrMap<u32>,
}

// ---------------------------------------------------------------------------
// The two lists as texts
// ---------------------------------------------------------------------------

/// The lines of `text` after the first, which holds the headings.
pub open spec fn data_lines(text: Seq<char>) -> Seq<Seq<char>> {
    let all = line_pieces(text);
    if all.len() > 0 {
        all.subrange(1, all.len() as int)
    } else {
        all
    }
}

/// The name of a monster without what follows a ` - ` or, where there is
/// none, a ` (`.
pub open spec fn clean_monster_name(raw: Seq<char>) -> Seq<char> {
    match first_index_of(raw, " - "@) {
        Some(i) => trimmed(raw.take(i)),
        None => match first_index_of(raw, " ("@) {
            Some(i) => trimmed(raw.take(i)),
            None => raw,
        },
    }
}

/// The monster that a line of the bestiary lists: the line has four cells
/// or more between tabs, the first holds the name and the fourth the combat
/// level.
pub open spec fn monster_of_line(line: Seq<char>) -> Option<(Seq<char>, u32)> {
    let cells = split_on(line, '\t');
    if cells.len() >= 4 {
        match parsed_u32(trimmed(cells[3])) {
            Some(level) => Some((clean_monster_name(trimmed(cells[0])), level)),
            None => None,
        }
    } else {
        None
    }
}

/// `levels` with the monsters that `lines` list; of two lines for one
/// monster the first counts.
pub open spec fn with_monsters(levels: Map<Seq<char>, u32>, lines: Seq<Seq<char>>) -> Map<
    Seq<char>,
    u32,
>
    decreases lines.len(),
{
    if lines.len() == 0 {
        levels
    } else {
        let before = with_monsters(levels, lines.drop_last());
        match monster_of_line(lines.last()) {
            Some((name, level)) => if before.contains_key(name) {
                before
            } else {
                before.insert(name, level)
            },
            None => before,
        }
    }
}

/// Whether a cell names something: it is not empty and not `N/A`.
pub open spec fn names_something(cell: Seq<char>) -> bool {
    cell.len() > 0 && cell != "N/A"@
}

/// The names among `pieces`, each without white space at its ends.
pub open spec fn named(pieces: Seq<Seq<char>>) -> Seq<Seq<char>>
    decreases pieces.len(),
{
    if pieces.len() == 0 {
        Seq::empty()
    } else if names_something(trimmed(pieces.last())) {
        named(pieces.drop_last()).push(trimmed(pieces.last()))
    } else {
        named(pieces.drop_last())
    }
}

/// The names that a cell of forms lists, between commas.
pub open spec fn forms_of(cell: Seq<char>) -> Seq<Seq<char>> {
    if names_something(trimmed(cell)) {
        named(split_on(trimmed(cell), ','))
    } else {
        Seq::empty()
    }
}

/// `name` without one `s` at its end.
pub open spec fn singular(name: Seq<char>) -> Seq<char> {
    if name.len() > 0 && name.last() == 's' {
        name.drop_last()
    } else {
        name
    }
}

/// The cells of a line of the slayer list: between bars where the line has
/// one, else between tabs.
pub open spec fn slayer_cells(line: Seq<char>) -> Seq<Seq<char>> {
    if contains(line, seq!['|']) {
        split_on(line, '|')
    } else {
        split_on(line, '\t')
    }
}

/// The slayer level that a line of the slayer list states, if it states one
/// above 1: the line has three cells or more, and the first is the level.
pub open spec fn slayer_level_of_line(line: Seq<char>) -> Option<u32> {
    let cells = slayer_cells(line);
    if cells.len() >= 3 {
        match parsed_u32(trimmed(cells[0])) {
            Some(level) => if level > 1 {
                Some(level)
            } else {
                None
            },
            None => None,
        }
    } else {
        None
    }
}

/// The monsters that a line of the slayer list names: the monster of the
/// second cell, in the singular, then the superior forms of the seventh cell
/// and the alternative forms of the eighth.
pub open spec fn slayer_names_of_line(line: Seq<char>) -> Seq<Seq<char>> {
    let cells = slayer_cells(line);
    seq![singular(trimmed(cells[1]))] + (if cells.len() >= 7 {
        forms_of(cells[6])
    } else {
        Seq::empty()
    }) + (if cells.len() >= 8 {
        forms_of(cells[7])
    } else {
        Seq::empty()
    })
}

/// `levels` with `level` for each of `names`.
pub open spec fn with_level(levels: Map<Seq<char>, u32>, names: Seq<Seq<char>>, level: u32) -> Map<
    Seq<char>,
    u32,
>
    decreases names.len(),
{
    if names.len() == 0 {
        levels
    } else {
        with_level(levels, names.drop_last(), level).insert(names.last(), level)
    }
}

/// `levels` with the slayer levels that `lines` state; of two lines for one
/// monster the last counts.
pub open spec fn with_slayer_levels(levels: Map<Seq<char>, u32>, lines: Seq<Seq<char>>) -> Map<
    Seq<char>,
    u32,
>
    decreases lines.len(),
{
    if lines.len() == 0 {
        levels
    } else {
        let before = with_slayer_levels(levels, lines.drop_last());
        match slayer_level_of_line(lines.last()) {
            Some(level) => with_level(before, slayer_names_of_line(lines.last()), level),
            None => before,
        }
    }
}

/// The entries of `entries` with a level from `min` to `max`, in order.
pub open spec fn in_level_range(entries: Seq<(Seq<char>, u32)>, min: u32, max: u32) -> Seq<
    (Seq<char>, u32),
>
    decreases entries.len(),
{
    if entries.len() == 0 {
        Seq::empty()
    } else if min <= entries.last().1 <= max {
        in_level_range(entries.drop_last(), min, max).push(entries.last())
    } else {
        in_level_range(entries.drop_last(), min, max)
    }
}

/// The entries of `entries` whose name, in lower case, holds `search`, in
/// order.
pub open spec fn with_name_holding(entries: Seq<(Seq<char>, u32)>, search: Seq<char>) -> Seq<
    (Seq<char>, u32),
>
    decreases entries.len(),
{
    if entries.len() == 0 {
        Seq::empty()
    } else if contains(lowercase(entries.last().0), search) {
        with_name_holding(entries.drop_last(), search).push(entries.last())
    } else {
        with_name_holding(entries.drop_last(), search)
    }
}

// ---------------------------------------------------------------------------
// Reading the lists
// ---------------------------------------------------------------------------

/// The name of a monster without what follows a ` - ` or a ` (`.
fn clean_name(raw: &[char]) -> (name: String)
    ensures
        name@ == clean_monster_name(raw@),
{
    let dash = chars_of(" - ");
    let paren = chars_of(" (");
    match find(raw, dash.as_slice()) {
        Some(i) => {
            proof {
                lemma_first_index_of(raw@, dash@);
            }
            string_of(trim(&raw[0..i]))
        },
        None => match find(raw, paren.as_slice()) {
            Some(i) => {
                proof {
                    lemma_first_index_of(raw@, paren@);
                }
                string_of(trim(&raw[0..i]))
            },
            None => string_of(raw),
        },
    }
}

/// The monster that the line `line` of the bestiary lists.
fn monster_in_line(line: &[char]) -> (r: Option<(String, u32)>)
    ensures
        r.deep_view() == monster_of_line(line@),
{
    let cells = split(line, '\t');
    if cells.len() >= 4 {
        assert(views(cells@)[0] == cells@[0]@);
        assert(views(cells@)[3] == cells@[3]@);
        match parse_u32(trim(cells[3])) {
            Some(level) => Some((clean_name(trim(cells[0])), level)),
            None => None,
        }
    } else {
        None
    }
}

/// Whether the cell `cell` names something.
fn cell_names_something(cell: &[char]) -> (r: bool)
    ensures
        r == names_something(cell@),
{
    let none = chars_of("N/A");
    cell.len() > 0 && !same(cell, none.as_slice())
}

/// Gives each form that the cell `cell` lists the level `level`.
fn insert_forms(levels: &mut StrMap<u32>, cell: &[char], level: u32)
    ensures
        final(levels)@ == with_level(old(levels)@, forms_of(cell@), level),
{
    let listed = trim(cell);
    if !cell_names_something(listed) {
        return ;
    }
    let pieces = split(listed, ',');
    let mut i: usize = 0;
    assert(views(pieces@).take(0) =~= Seq::<Seq<char>>::empty());
    while i < pieces.len()
        invariant
            i <= pieces.len(),
            levels@ == with_level(old(levels)@, named(views(pieces@).take(i as int)), level),
        decreases pieces.len() - i,
    {
        assert(views(pieces@).take(i + 1).drop_last() =~= views(pieces@).take(i as int));
        assert(views(pieces@).take(i + 1).last() == pieces@[i as int]@);
        let form = trim(pieces[i]);
        if cell_names_something(form) {
            let ghost so_far = named(views(pieces@).take(i as int));
            assert(so_far.push(form@).drop_last() =~= so_far);
            levels.insert(string_of(form), level);
        }
        i += 1;
    }
    assert(views(pieces@).take(pieces@.len() as int) =~= views(pieces@));
}

/// Takes in what the line `line` of the slayer list states.
fn insert_slayer_line(levels: &mut StrMap<u32>, line: &[char])
    ensures
        final(levels)@ == match slayer_level_of_line(line@) {
            Some(level) => with_level(old(levels)@, slayer_names_of_line(line@), level),
            None => old(levels)@,
        },
{
    let bar = chars_of("|");
    proof {
        reveal_strlit("|");
        assert(bar@ =~= seq!['|']);
    }
    let cells = if has(line, bar.as_slice()) {
        split(line, '|')
    } else {
        split(line, '\t')
    };
    assert(views(cells@) == slayer_cells(line@));
    if cells.len() < 3 {
        return ;
    }
    assert(views(cells@)[0] == cells@[0]@);
    assert(views(cells@)[1] == cells@[1]@);
    let level = match parse_u32(trim(cells[0])) {
        Some(level) => level,
        None => {
            return ;
        },
    };
    if level <= 1 {
        return ;
    }
    let plural = trim(cells[1]);
    let n = plural.len();
    let name = if n > 0 && plural[n - 1] == 's' {
        assert(plural@.subrange(0, n - 1) =~= plural@.drop_last());
        &plural[0..n - 1]
    } else {
        plural
    };
    let ghost main = seq![singular(trimmed(cells@[1]@))];
    assert(main.drop_last() =~= Seq::<Seq<char>>::empty());
    assert(main.last() == name@);
    assert(with_level(old(levels)@, main.drop_last(), level) == old(levels)@);
    levels.insert(string_of(name), level);
    assert(levels@ == with_level(old(levels)@, main, level));
    let ghost superior = if cells.len() >= 7 {
        forms_of(cells@[6]@)
    } else {
        Seq::empty()
    };
    if cells.len() >= 7 {
        assert(views(cells@)[6] == cells@[6]@);
        insert_forms(levels, cells[6], level);
    }
    proof {
        lemma_with_level_append(old(levels)@, main, superior, level);
    }
    let ghost alternative = if cells.len() >= 8 {
        forms_of(cells@[7]@)
    } else {
        Seq::empty()
    };
    if cells.len() >= 8 {
        assert(views(cells@)[7] == cells@[7]@);
        insert_forms(levels, cells[7], level);
    }
    proof {
        lemma_with_level_append(old(levels)@, main + superior, alternative, level);
    }
}

/// Giving a level to two lists of names in turn is giving it to the one list
/// of both.
pub proof fn lemma_with_level_append(
    levels: Map<Seq<char>, u32>,
    first: Seq<Seq<char>>,
    second: Seq<Seq<char>>,
    level: u32,
)
    ensures
        with_level(with_level(levels, first, level), second, level) == with_level(
            levels,
            first + second,
            level,
        ),
    decreases second.len(),
{
    if second.len() == 0 {
        assert(first + second =~= first);
    } else {
        lemma_with_level_append(levels, first, second.drop_last(), level);
        assert((first + second).drop_last() =~= first + second.drop_last());
        assert((first + second).last() == second.last());
    }
}

impl Bestiary {
    /// The bestiary without monsters.
    pub fn new() -> (bestiary: Self)
        ensures
            bestiary.monster_levels@ == Map::<Seq<char>, u32>::empty(),
            bestiary.monster_slayer_levels@ == Map::<Seq<char>, u32>::empty(),
    {
        Bestiary { monster_levels: StrMap::new(), monster_slayer_levels: StrMap::new() }
    }

    /// The bestiary that the two lists hold: `bestiary_text` lists the
    /// monsters with their combat levels, `slayer_text` the slayer levels.
    /// In both the first line holds the headings.
    pub fn load_from_text(bestiary_text: &str, slayer_text: &str) -> (bestiary: Self)
        ensures
            bestiary.monster_levels@ == with_monsters(Map::empty(), data_lines(bestiary_text@)),
            bestiary.monster_slayer_levels@ == with_slayer_levels(
                Map::empty(),
                data_lines(slayer_text@),
            ),
    {
        let mut bestiary = Bestiary::new();
        let chars = chars_of(bestiary_text);
        let rows = lines(chars.as_slice());
        let ghost data = data_lines(bestiary_text@);
        let mut i: usize = 1;
        assert(data.take(0) =~= Seq::<Seq<char>>::empty());
        while i < rows.len()
            invariant
                1 <= i,
                views(rows@) == line_pieces(bestiary_text@),
                data == data_lines(bestiary_text@),
                i <= rows.len() || rows.len() == 0,
                rows.len() > 0 ==> bestiary.monster_levels@ == with_monsters(
                    Map::empty(),
                    data.take(i - 1),
                ),
                rows.len() == 0 ==> bestiary.monster_levels@ == Map::<Seq<char>, u32>::empty(),
                bestiary.monster_slayer_levels@ == Map::<Seq<char>, u32>::empty(),
            decreases rows.len() - i,
        {
            assert(data.take(i as int).drop_last() =~= data.take(i - 1));
            assert(data.take(i as int).last() == rows@[i as int]@) by {
                assert(views(rows@)[i as int] == rows@[i as int]@);
            }
            match monster_in_line(rows[i]) {
                Some((name, level)) => {
                    if !bestiary.monster_levels.contains_key(name.as_str()) {
                        bestiary.monster_levels.insert(name, level);
                    }
                },
                None => {},
            }
            i += 1;
        }
        assert(rows.len() > 0 ==> data.take(rows.len() - 1) =~= data);
        assert(rows.len() == 0 ==> data =~= Seq::<Seq<char>>::empty());
        bestiary.load_slayer_data(slayer_text);
        bestiary
    }

    /// Takes in the slayer levels that `slayer_text` states, whose first line
    /// holds the headings.
    pub fn load_slayer_data(&mut self, slayer_text: &str)
        ensures
            final(self).monster_levels == old(self).monster_levels,
            final(self).monster_slayer_levels@ == with_slayer_levels(
                old(self).monster_slayer_levels@,
                data_lines(slayer_text@),
            ),
    {
        let chars = chars_of(slayer_text);
        let rows = lines(chars.as_slice());
        let ghost data = data_lines(slayer_text@);
        let mut i: usize = 1;
        assert(data.take(0) =~= Seq::<Seq<char>>::empty());
        while i < rows.len()
            invariant
                1 <= i,
                views(rows@) == line_pieces(slayer_text@),
                data == data_lines(slayer_text@),
                i <= rows.len() || rows.len() == 0,
                self.monster_levels == old(self).monster_levels,
                rows.len() > 0 ==> self.monster_slayer_levels@ == with_slayer_levels(
                    old(self).monster_slayer_levels@,
                    data.take(i - 1),
                ),
                rows.len() == 0 ==> self.monster_slayer_levels@ == old(
                    self,
                ).monster_slayer_levels@,
            decreases rows.len() - i,
        {
            assert(data.take(i as int).drop_last() =~= data.take(i - 1));
            assert(data.take(i as int).last() == rows@[i as int]@) by {
                assert(views(rows@)[i as int] == rows@[i as int]@);
            }
            insert_slayer_line(&mut self.monster_slayer_levels, rows[i]);
            i += 1;
        }
        assert(rows.len() > 0 ==> data.take(rows.len() - 1) =~= data);
        assert(rows.len() == 0 ==> data =~= Seq::<Seq<char>>::empty());
    }

    /// The combat level of the monster `monster_name`.
    pub fn get_combat_level(&self, monster_name: &str) -> (level: Option<u32>)
        ensures
            level == if self.monster_levels@.contains_key(monster_name@) {
                Some(self.monster_levels@[monster_name@])
            } else {
                None
            },
    {
        match self.monster_levels.get(monster_name) {
            Some(level) => Some(*level),
            None => None,
        }
    }

    /// The slayer level that the monster `monster_name` asks for.
    pub fn get_slayer_level(&self, monster_name: &str) -> (level: Option<u32>)
        ensures
            level == if self.monster_slayer_levels@.contains_key(monster_name@) {
                Some(self.monster_slayer_levels@[monster_name@])
            } else {
                None
            },
    {
        match self.monster_slayer_levels.get(monster_name) {
            Some(level) => Some(*level),
            None => None,
        }
    }

    /// The monsters with a combat level from `min_level` to `max_level`.
    pub fn get_monsters_in_level_range(&self, min_level: u32, max_level: u32) -> (found: Vec<
        (&String, u32),
    >)
        ensures
            found.deep_view() == in_level_range(
                self.monster_levels.entries(),
                min_level,
                max_level,
            ),
    {
        let mut found: Vec<(&String, u32)> = Vec::new();
        let n = self.monster_levels.len();
        let ghost entries = self.monster_levels.entries();
        let mut i: usize = 0;
        assert(entries.take(0) =~= Seq::<(Seq<char>, u32)>::empty());
        assert(found.deep_view() =~= Seq::<(Seq<char>, u32)>::empty());
        while i < n
            invariant
                i <= n,
                n == entries.len(),
                entries == self.monster_levels.entries(),
                found.deep_view() == in_level_range(entries.take(i as int), min_level, max_level),
            decreases n - i,
        {
            assert(entries.take(i + 1).drop_last() =~= entries.take(i as int));
            let level = *self.monster_levels.value_at(i);
            if min_level <= level && level <= max_level {
                let name = self.monster_levels.key_at(i);
                let ghost before = found.deep_view();
                found.push((name, level));
                assert(found.deep_view() =~= before.push((name@, level)));
            }
            i += 1;
        }
        assert(entries.take(n as int) =~= entries);
        found
    }

    /// The monsters that ask for exactly the slayer level `slayer_level`.
    pub fn get_monsters_by_slayer_level(&self, slayer_level: u32) -> (found: Vec<(&String, u32)>)
        ensures
            found.deep_view() == in_level_range(
                self.monster_slayer_levels.entries(),
                slayer_level,
                slayer_level,
            ),
    {
        let mut found: Vec<(&String, u32)> = Vec::new();
        let n = self.monster_slayer_levels.len();
        let ghost entries = self.monster_slayer_levels.entries();
        let mut i: usize = 0;
        assert(entries.take(0) =~= Seq::<(Seq<char>, u32)>::empty());
        assert(found.deep_view() =~= Seq::<(Seq<char>, u32)>::empty());
        while i < n
            invariant
                i <= n,
                n == entries.len(),
                entries == self.monster_slayer_levels.entries(),
                found.deep_view() == in_level_range(
                    entries.take(i as int),
                    slayer_level,
                    slayer_level,
                ),
            decreases n - i,
        {
            assert(entries.take(i + 1).drop_last() =~= entries.take(i as int));
            let level = *self.monster_slayer_levels.value_at(i);
            if level == slayer_level {
                let name = self.monster_slayer_levels.key_at(i);
                let ghost before = found.deep_view();
                found.push((name, level));
                assert(found.deep_view() =~= before.push((name@, level)));
            }
            i += 1;
        }
        assert(entries.take(n as int) =~= entries);
        found
    }

    /// The number of monsters with a combat level.
    pub fn count(&self) -> (n: usize)
        ensures
            n == self.monster_levels.entries().len(),
            n == self.monster_levels@.dom().len(),
    {
        self.monster_levels.len()
    }

    /// The monsters whose name holds `search`, whatever the case of the
    /// letters in either.
    pub fn search_monsters(&self, search: &str) -> (found: Vec<(&String, u32)>)
        ensures
            found.deep_view() == with_name_holding(
                self.monster_levels.entries(),
                lowercase(search@),
            ),
    {
        let wanted = to_lowercase(search);
        let wanted_chars = chars_of(wanted.as_str());
        let mut found: Vec<(&String, u32)> = Vec::new();
        let n = self.monster_levels.len();
        let ghost entries = self.monster_levels.entries();
        let mut i: usize = 0;
        assert(entries.take(0) =~= Seq::<(Seq<char>, u32)>::empty());
        assert(found.deep_view() =~= Seq::<(Seq<char>, u32)>::empty());
        while i < n
            invariant
                i <= n,
                n == entries.len(),
                entries == self.monster_levels.entries(),
                wanted_chars@ == lowercase(search@),
                found.deep_view() == with_name_holding(entries.take(i as int), lowercase(search@)),
            decreases n - i,
        {
            assert(entries.take(i + 1).drop_last() =~= entries.take(i as int));
            let name = self.monster_levels.key_at(i);
            let lower = to_lowercase(name.as_str());
            let lower_chars = chars_of(lower.as_str());
            if has(lower_chars.as_slice(), wanted_chars.as_slice()) {
                let level = *self.monster_levels.value_at(i);
                let ghost before = found.deep_view();
                found.push((name, level));
                assert(found.deep_view() =~= before.push((name@, level)));
            }
            i += 1;
        }
        assert(entries.take(n as int) =~= entries);
        found
    }
}

/// The bestiary that the two lists hold.
pub fn init_bestiary(bestiary_text: &str, slayer_text: &str) -> (bestiary: Bestiary)
    ensures
        bestiary.monster_levels@ == with_monsters(Map::empty(), data_lines(bestiary_text@)),
        bestiary.monster_slayer_levels@ == with_slayer_levels(
            Map::empty(),
            data_lines(slayer_text@),
        ),
{
    Bestiary::load_from_text(bestiary_text, slayer_text)
}

} // verus!
