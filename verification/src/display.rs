//! Words and marks for what is shown of teams, buildings and resources.

use crate::text::{
    chars_of, contains, decimal, decimal_chars, extend, extend_str, has, signed_decimal,
    signed_decimal_chars, str_eq, string_of,
};
use vstd::prelude::*;

verus! {

/// The name under which the category `category` is shown.
pub open spec fn category_title(category: Seq<char>) -> Seq<char> {
    if category == "mining"@ {
        "Mining Resources"@
    } else if category == "wood"@ {
        "Wood Resources"@
    } else if category == "fishing"@ {
        "Fishing Resources"@
    } else if category == "herb"@ {
        "Herblore Resources"@
    } else if category == "farming"@ {
        "Farming Resources"@
    } else if category == "currency"@ {
        "Coin Rewards"@
    } else if category == "rune"@ {
        "Rune Yields"@
    } else if category == "crafting"@ {
        "Crafting Materials"@
    } else if category == "hunting"@ {
        "Hunting Yields"@
    } else {
        category
    }
}

/// The name under which the category `category` is shown: a title for the
/// categories that have one, else the category itself.
pub fn resource_category_display(category: &str) -> (shown: &str)
    ensures
        shown@ == category_title(category@),
{
    if str_eq(category, "mining") {
        "Mining Resources"
    } else if str_eq(category, "wood") {
        "Wood Resources"
    } else if str_eq(category, "fishing") {
        "Fishing Resources"
    } else if str_eq(category, "herb") {
        "Herblore Resources"
    } else if str_eq(category, "farming") {
        "Farming Resources"
    } else if str_eq(category, "currency") {
        "Coin Rewards"
    } else if str_eq(category, "rune") {
        "Rune Yields"
    } else if str_eq(category, "crafting") {
        "Crafting Materials"
    } else if str_eq(category, "hunting") {
        "Hunting Yields"
    } else {
        category
    }
}

/// What the level `level` of the garrisons is said to open.
pub open spec fn raid_access_words(level: i64) -> Seq<char> {
    if level == 2 {
        "Access to: Colosseum"@
    } else if level == 3 {
        "Access to: Colosseum, ToA"@
    } else if level == 4 {
        "Access to: Colosseum, ToA and CoX"@
    } else if level == 5 {
        "Access to: Colosseum + all raids"@
    } else {
        "No special content access"@
    }
}

/// What the level `level` of the garrisons is said to open.
pub fn raid_access_text(level: i64) -> (words: &'static str)
    ensures
        words@ == raid_access_words(level),
{
    if level == 2 {
        "Access to: Colosseum"
    } else if level == 3 {
        "Access to: Colosseum, ToA"
    } else if level == 4 {
        "Access to: Colosseum, ToA and CoX"
    } else if level == 5 {
        "Access to: Colosseum + all raids"
    } else {
        "No special content access"
    }
}

/// How the level `level` of a building with the highest level `max_level`
/// is shown: as reached, or as a part of the highest.
pub open spec fn level_words(level: i64, max_level: u32) -> Seq<char> {
    if level >= max_level {
        "**MAX** ("@ + signed_decimal(level as int) + ")"@
    } else {
        signed_decimal(level as int) + "/"@ + decimal(max_level as nat)
    }
}

/// How the level `level` of a building with the highest level `max_level`
/// is shown.
pub fn level_display(level: i64, max_level: u32) -> (shown: String)
    ensures
        shown@ == level_words(level, max_level),
{
    let mut out: Vec<char> = Vec::new();
    let digits = signed_decimal_chars(level);
    if level >= max_level as i64 {
        extend_str(&mut out, "**MAX** (");
        extend(&mut out, digits.as_slice());
        extend_str(&mut out, ")");
        assert(out@ =~= "**MAX** ("@ + signed_decimal(level as int) + ")"@);
    } else {
        extend(&mut out, digits.as_slice());
        extend_str(&mut out, "/");
        let highest = decimal_chars(max_level as u64);
        extend(&mut out, highest.as_slice());
        assert(out@ =~= signed_decimal(level as int) + "/"@ + decimal(max_level as nat));
    }
    string_of(out.as_slice())
}

/// `s` followed by as many spaces as it takes to reach `width` characters.
pub open spec fn padded(s: Seq<char>, width: nat) -> Seq<char>
    decreases width - s.len(),
{
    if s.len() >= width {
        s
    } else {
        padded(s.push(' '), width)
    }
}

/// `s` followed by as many spaces as it takes to reach `width` characters.
pub fn pad_right(s: &str, width: usize) -> (shown: String)
    ensures
        shown@ == padded(s@, width as nat),
{
    let mut out = chars_of(s);
    while out.len() < width
        invariant
            padded(s@, width as nat) == padded(out@, width as nat),
        decreases width - out.len(),
    {
        out.push(' ');
    }
    string_of(out.as_slice())
}

/// The mark that stands for the resource `name`, given in lower case.
pub open spec fn resource_mark(name: Seq<char>) -> Seq<char> {
    if name == "coins"@ || name == "gp"@ {
        "\u{1F4B0}"@
    } else if name == "runes"@ {
        "\u{1F52E}"@
    } else if contains(name, "ore"@) {
        "\u{26CF}\u{FE0F}"@
    } else if contains(name, "log"@) {
        "\u{1FAB5}"@
    } else if contains(name, "fish"@) {
        "\u{1F41F}"@
    } else if contains(name, "gem"@) {
        "\u{1F48E}"@
    } else {
        "\u{1F4E6}"@
    }
}

/// Whether `name` holds `part`.
fn holds(name: &str, part: &str) -> (r: bool)
    ensures
        r == contains(name@, part@),
{
    let whole = chars_of(name);
    let wanted = chars_of(part);
    has(whole.as_slice(), wanted.as_slice())
}

/// The mark that stands for the resource `name`, given in lower case.
pub fn resource_emoji(name: &str) -> (mark: &'static str)
    ensures
        mark@ == resource_mark(name@),
{
    if str_eq(name, "coins") || str_eq(name, "gp") {
        "\u{1F4B0}"
    } else if str_eq(name, "runes") {
        "\u{1F52E}"
    } else if holds(name, "ore") {
        "\u{26CF}\u{FE0F}"
    } else if holds(name, "log") {
        "\u{1FAB5}"
    } else if holds(name, "fish") {
        "\u{1F41F}"
    } else if holds(name, "gem") {
        "\u{1F48E}"
    } else {
        "\u{1F4E6}"
    }
}

/// The mark that stands for the category `category`, given in lower case.
pub open spec fn category_mark(category: Seq<char>) -> Seq<char> {
    if category == "mining"@ {
        "\u{26CF}\u{FE0F}"@
    } else if category == "woodcutting"@ {
        "\u{1FA93}"@
    } else if category == "fishing"@ {
        "\u{1F3A3}"@
    } else if category == "farming"@ {
        "\u{1F33E}"@
    } else if category == "herblore"@ {
        "\u{1F33F}"@
    } else if category == "hunting"@ {
        "\u{1F3F9}"@
    } else if category == "crafting"@ {
        "\u{1F528}"@
    } else if category == "currency"@ {
        "\u{1F4B0}"@
    } else if category == "gems"@ {
        "\u{1F48E}"@
    } else if category == "runes"@ {
        "\u{1F52E}"@
    } else if category == "combat"@ {
        "\u{2694}\u{FE0F}"@
    } else {
        "\u{1F4E6}"@
    }
}

/// The mark that stands for the category `category`, given in lower case.
pub fn category_emoji(category: &str) -> (mark: &'static str)
    ensures
        mark@ == category_mark(category@),
{
    if str_eq(category, "mining") {
        "\u{26CF}\u{FE0F}"
    } else if str_eq(category, "woodcutting") {
        "\u{1FA93}"
    } else if str_eq(category, "fishing") {
        "\u{1F3A3}"
    } else if str_eq(category, "farming") {
        "\u{1F33E}"
    } else if str_eq(category, "herblore") {
        "\u{1F33F}"
    } else if str_eq(category, "hunting") {
        "\u{1F3F9}"
    } else if str_eq(category, "crafting") {
        "\u{1F528}"
    } else if str_eq(category, "currency") {
        "\u{1F4B0}"
    } else if str_eq(category, "gems") {
        "\u{1F48E}"
    } else if str_eq(category, "runes") {
        "\u{1F52E}"
    } else if str_eq(category, "combat") {
        "\u{2694}\u{FE0F}"
    } else {
        "\u{1F4E6}"
    }
}

/// What an embed of a team shows.
#[derive(Debug, Clone, Copy, PartialEq, Eq, Structural)]
pub enum TeamEmbedKind {
    Buildings,
    Resources,
    Unknown,
}

/// What an embed of the whole event shows.
#[derive(Debug, Clone, Copy, PartialEq, Eq, Structural)]
pub enum GlobalEmbedKind {
    TownhallRanking,
    /// A kind that is known but not shown.
    Unsupported,
    Unknown,
}

/// What the embed of a team with the variant `variant` shows.
pub fn team_embed_kind(variant: &str) -> (kind: TeamEmbedKind)
    ensures
        kind == if variant@ == "buildings"@ {
            TeamEmbedKind::Buildings
        } else if variant@ == "resources"@ {
            TeamEmbedKind::Resources
        } else {
            TeamEmbedKind::Unknown
        },
{
    if str_eq(variant, "buildings") {
        TeamEmbedKind::Buildings
    } else if str_eq(variant, "resources") {
        TeamEmbedKind::Resources
    } else {
        TeamEmbedKind::Unknown
    }
}

/// What the embed of the whole event with the variant `variant` shows.
pub fn global_embed_kind(variant: &str) -> (kind: GlobalEmbedKind)
    ensures
        kind == if variant@ == "townhall_ranking"@ {
            GlobalEmbedKind::TownhallRanking
        } else if variant@ == "team_leaderboard"@ || variant@ == "server_statistics"@ {
            GlobalEmbedKind::Unsupported
        } else {
            GlobalEmbedKind::Unknown
        },
{
    if str_eq(variant, "townhall_ranking") {
        GlobalEmbedKind::TownhallRanking
    } else if str_eq(variant, "team_leaderboard") || str_eq(variant, "server_statistics") {
        GlobalEmbedKind::Unsupported
    } else {
        GlobalEmbedKind::Unknown
    }
}

/// Whether the building type `building` is the town hall.
pub fn is_town_hall(building: &str) -> (r: bool)
    ensures
        r == (building@ == "townhall"@ || building@ == "town_hall"@),
{
    str_eq(building, "townhall") || str_eq(building, "town_hall")
}

/// Whether the error text `error` says that a message is gone.
pub fn message_is_gone(error: &str) -> (r: bool)
    ensures
        r == contains(error@, "Unknown Message"@),
{
    holds(error, "Unknown Message")
}

/// The longest team name that a ranking shows in full, in characters.
pub const RANKED_NAME_CHARS: usize = 17;

/// How many characters a ranking shows of a longer team name.
pub const CUT_NAME_CHARS: usize = 14;

/// How a ranking shows the team name `name`: in full, or cut and followed by
/// three dots.
pub open spec fn ranked_name(name: Seq<char>) -> Seq<char> {
    if name.len() > RANKED_NAME_CHARS {
        name.take(CUT_NAME_CHARS as int) + "..."@
    } else {
        name
    }
}

/// How a ranking shows the team name `name`.
pub fn name_display(name: &str) -> (shown: String)
    ensures
        shown@ == ranked_name(name@),
{
    let chars = chars_of(name);
    if chars.len() > RANKED_NAME_CHARS {
        let mut out: Vec<char> = Vec::new();
        let whole = chars.as_slice();
        extend(&mut out, &whole[0..CUT_NAME_CHARS]);
        extend_str(&mut out, "...");
        assert(out@ =~= name@.take(CUT_NAME_CHARS as int) + "..."@);
        string_of(out.as_slice())
    } else {
        string_of(chars.as_slice())
    }
}

/// How a ranking shows the rank `rank`: the first three with a medal.
pub open spec fn rank_words(rank: usize) -> Seq<char> {
    if rank == 1 {
        "#1\u{1F947}"@
    } else if rank == 2 {
        "#2\u{1F948}"@
    } else if rank == 3 {
        "#3\u{1F949}"@
    } else {
        "#"@ + decimal(rank as nat) + "     "@
    }
}

/// How a ranking shows the rank `rank`.
pub fn rank_display(rank: usize) -> (shown: String)
    ensures
        shown@ == rank_words(rank),
{
    let mut out: Vec<char> = Vec::new();
    if rank == 1 {
        extend_str(&mut out, "#1\u{1F947}");
    } else if rank == 2 {
        extend_str(&mut out, "#2\u{1F948}");
    } else if rank == 3 {
        extend_str(&mut out, "#3\u{1F949}");
    } else {
        extend_str(&mut out, "#");
        let digits = decimal_chars(rank as u64);
        extend(&mut out, digits.as_slice());
        extend_str(&mut out, "     ");
        assert(out@ =~= "#"@ + decimal(rank as nat) + "     "@);
    }
    string_of(out.as_slice())
}

} // verus!
