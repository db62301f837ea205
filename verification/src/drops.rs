//! Crediting a drop: the team of the player is found, the access gate is
//! asked, and each item that is a resource is booked on the team's ledger.

use crate::access::{check_access, team_access, Access, AccessTables, Denial};
use crate::bestiary::Bestiary;
use crate::dink::DinkDrop;
use crate::ledger::{holdable, names, quantity_in, with_quantity, Holding, Ledger, Row};
use crate::modifiers::{calculate_resource_total, resource_total, ModifierTable};
use crate::patterns::{
    category_of_matches, first_matching, is_resource, match_all, resource_category, PatternConfig,
};
use crate::strmap::StrMap;
use crate::team::Team;
use crate::text::{extend_str, lowercase, string_of, to_lowercase};
use vstd::prelude::*;

verus! {

/// The tables that the crediting of drops goes by.
pub struct Rules {
    pub bestiary: Bestiary,
    pub patterns: PatternConfig,
    pub access: AccessTables,
    pub modifiers: ModifierTable,
}

/// What became of a drop.
#[derive(Debug, Clone, Copy, PartialEq, Eq, Structural)]
pub enum DropOutcome {
    /// The player is in no team; nothing was booked.
    NotInTeam,
    /// The team has no access to the source; nothing was booked.
    Denied(Denial),
    /// Every item that is a resource was booked.
    Processed,
    /// The item at this position could not be booked, because the ledger
    /// cannot hold the quantity; the items before it were booked.
    LedgerLimit(usize),
}

/// What became of a resource that was to be put on a ledger by hand.
#[derive(Debug, Clone, Copy, PartialEq, Eq, Structural)]
pub enum InsertOutcome {
    /// The name matches no resource pattern; nothing was booked.
    NotAResource,
    /// The resource was booked.
    Inserted,
    /// The ledger cannot hold the quantity; nothing was booked.
    LedgerLimit,
}

/// What is to be booked for one item.
pub ghost struct Credit {
    pub name: Seq<char>,
    pub category: Seq<char>,
    pub amount: int,
}

/// What is to be booked for the item `loot` of a team with the building
/// levels `levels`, if anything: the item's name in lower case must match a
/// resource pattern, which gives the category; the quantity is scaled by what
/// the team's buildings give to that category.
pub open spec fn credit_of(rules: Rules, levels: Map<Seq<char>, u32>, loot: (Seq<char>, u32)) -> Option<
    Credit,
> {
    let name = lowercase(loot.0);
    let patterns = rules.patterns.resource_pattern@;
    if is_resource(name, patterns) {
        let category = resource_category(name, patterns);
        Some(
            Credit {
                name,
                category,
                amount: resource_total(rules.modifiers.rows@, loot.1, levels, category),
            },
        )
    } else {
        None
    }
}

/// `rows` with `credit` booked: added to the row of the resource where
/// there is one, whose category stays; else a new row at the end. Nothing
/// where a row cannot hold the new quantity.
pub open spec fn booked(rows: Seq<Row>, credit: Credit) -> Option<Seq<Row>> {
    match quantity_in(rows, credit.name) {
        Some(quantity) => if holdable(quantity + credit.amount) {
            Some(with_quantity(rows, names(rows).index_of(credit.name), quantity + credit.amount))
        } else {
            None
        },
        None => if holdable(credit.amount) {
            Some(
                rows.push(
                    Row { name: credit.name, category: credit.category, quantity: credit.amount },
                ),
            )
        } else {
            None
        },
    }
}

/// The ledger after the items `loots` are credited one after the other, and
/// the position of the item at which the crediting stopped, if it did. An
/// item that is no resource is passed over.
pub open spec fn after_loots(
    rules: Rules,
    levels: Map<Seq<char>, u32>,
    rows: Seq<Row>,
    loots: Seq<(Seq<char>, u32)>,
) -> (Seq<Row>, Option<int>)
    decreases loots.len(),
{
    if loots.len() == 0 {
        (rows, None)
    } else {
        let (so_far, stopped) = after_loots(rules, levels, rows, loots.drop_last());
        if stopped is Some {
            (so_far, stopped)
        } else {
            match credit_of(rules, levels, loots.last()) {
                Some(credit) => match booked(so_far, credit) {
                    Some(next) => (next, None),
                    None => (so_far, Some(loots.len() - 1)),
                },
                None => (so_far, None),
            }
        }
    }
}

/// The position in `teams` of the first team with the number `id`.
pub open spec fn first_with_id(teams: Seq<Team>, id: i32) -> Option<int>
    decreases teams.len(),
{
    if teams.len() == 0 {
        None
    } else {
        match first_with_id(teams.drop_last(), id) {
            Some(i) => Some(i),
            None => if teams.last().id == id {
                Some(teams.len() - 1)
            } else {
                None
            },
        }
    }
}

/// The position in `teams` of the team of the player `username`: the team
/// whose number `members` gives for that name.
pub open spec fn team_of_user(members: Map<Seq<char>, i32>, teams: Seq<Team>, username: Seq<char>) -> Option<
    int,
> {
    if members.contains_key(username) {
        first_with_id(teams, members[username])
    } else {
        None
    }
}

/// What becomes of a drop from `source` with the items `loots` for a team
/// with the building levels `levels` and the ledger `rows`: the outcome and
/// the ledger after it.
pub open spec fn team_drop(
    rules: Rules,
    levels: Map<Seq<char>, u32>,
    rows: Seq<Row>,
    source: Seq<char>,
    loots: Seq<(Seq<char>, u32)>,
) -> (DropOutcome, Seq<Row>) {
    match team_access(rules.access, rules.bestiary, levels, source) {
        Access::Denied(denial) => (DropOutcome::Denied(denial), rows),
        Access::Granted => {
            let (after, stopped) = after_loots(rules, levels, rows, loots);
            match stopped {
                Some(at) => (DropOutcome::LedgerLimit(at as usize), after),
                None => (DropOutcome::Processed, after),
            }
        },
    }
}

/// Where the crediting stopped, it stopped at one of the items.
pub proof fn lemma_after_loots_stop(
    rules: Rules,
    levels: Map<Seq<char>, u32>,
    rows: Seq<Row>,
    loots: Seq<(Seq<char>, u32)>,
)
    ensures
        after_loots(rules, levels, rows, loots).1 matches Some(at) ==> 0 <= at < loots.len(),
    decreases loots.len(),
{
    if loots.len() > 0 {
        lemma_after_loots_stop(rules, levels, rows, loots.drop_last());
    }
}

/// Books `amount` of the resource `name` in the category `category`, and
/// says whether the ledger could hold it.
pub fn book(ledger: &mut Ledger, name: &str, category: &str, amount: i128) -> (done: bool)
    ensures
        match booked(
            old(ledger)@,
            Credit { name: name@, category: category@, amount: amount as int },
        ) {
            Some(rows) => done && final(ledger)@ == rows,
            None => !done && final(ledger)@ == old(ledger)@,
        },
{
    match ledger.position(name) {
        Some(at) => {
            let holding = ledger.holding_at(at);
            let sum = match (holding.quantity as i128).checked_add(amount) {
                Some(sum) => sum,
                None => {
                    return false;
                },
            };
            if sum < i64::MIN as i128 || sum > i64::MAX as i128 {
                return false;
            }
            let kept = holding.category.clone();
            ledger.holdings.set_at(at, Holding { category: kept, quantity: sum as i64 });
            assert(ledger@ =~= with_quantity(old(ledger)@, at as int, sum as int));
            true
        },
        None => {
            if amount < i64::MIN as i128 || amount > i64::MAX as i128 {
                return false;
            }
            assert(!old(ledger).holdings@.contains_key(name@)) by {
                assert(names(old(ledger)@) =~= old(ledger).holdings.keys());
            }
            ledger.holdings.insert(
                name.to_owned(),
                Holding { category: category.to_owned(), quantity: amount as i64 },
            );
            assert(ledger@ =~= old(ledger)@.push(
                Row { name: name@, category: category@, quantity: amount as int },
            ));
            true
        },
    }
}

/// Credits the items `loots` to `team` one after the other, and gives the
/// position of the item at which it stopped, if it did.
pub fn credit_loots(rules: &Rules, team: &mut Team, loots: &Vec<(String, u32)>) -> (stopped: Option<
    usize,
>)
    ensures
        after_loots(*rules, old(team).buildings@, old(team).resources@, loots.deep_view()) == (
            final(team).resources@,
            match stopped {
                Some(at) => Some(at as int),
                None => None,
            },
        ),
        stopped matches Some(at) ==> at < loots.len(),
        final(team).buildings == old(team).buildings,
        final(team).id == old(team).id,
        final(team).name == old(team).name,
        final(team).handicap == old(team).handicap,
{
    proof {
        lemma_after_loots_stop(
            *rules,
            team.buildings@,
            team.resources@,
            loots.deep_view(),
        );
    }
    let mut stopped: Option<usize> = None;
    let mut i: usize = 0;
    assert(loots.deep_view().take(0) =~= Seq::<(Seq<char>, u32)>::empty());
    while i < loots.len()
        invariant
            i <= loots.len(),
            after_loots(
                *rules,
                old(team).buildings@,
                old(team).resources@,
                loots.deep_view().take(i as int),
            ) == (
                team.resources@,
                match stopped {
                    Some(at) => Some(at as int),
                    None => None,
                },
            ),
            team.buildings == old(team).buildings,
            team.id == old(team).id,
            team.name == old(team).name,
            team.handicap == old(team).handicap,
        decreases loots.len() - i,
    {
        let ghost upto = loots.deep_view().take(i + 1);
        assert(upto.drop_last() =~= loots.deep_view().take(i as int));
        assert(upto.last() == (loots[i as int].0@, loots[i as int].1));
        if stopped.is_none() {
            let name = to_lowercase(loots[i].0.as_str());
            let patterns = rules.patterns.resource_pattern.as_slice();
            let results = match_all(name.as_str(), patterns);
            if first_matching(&results).is_some() {
                let category = category_of_matches(&results, patterns);
                let amount = calculate_resource_total(
                    &rules.modifiers,
                    loots[i].1,
                    team,
                    category.as_str(),
                );
                if !book(&mut team.resources, name.as_str(), category.as_str(), amount) {
                    stopped = Some(i);
                }
            }
        }
        i += 1;
    }
    assert(loots.deep_view().take(loots.len() as int) =~= loots.deep_view());
    stopped
}

/// Puts `quantity` of the resource `resource_name` on the ledger of `team`,
/// as a drop of that item would, whatever the team has access to.
///
/// The name counts in lower case and must match a resource pattern; the
/// quantity is scaled by what the team's buildings give to its category.
pub fn force_insert_resource(
    rules: &Rules,
    team: &mut Team,
    resource_name: &str,
    quantity: u32,
) -> (outcome: InsertOutcome)
    ensures
        match credit_of(*rules, old(team).buildings@, (resource_name@, quantity)) {
            None => outcome == InsertOutcome::NotAResource && *final(team) == *old(team),
            Some(credit) => match booked(old(team).resources@, credit) {
                Some(rows) => outcome == InsertOutcome::Inserted && final(team).resources@ == rows,
                None => outcome == InsertOutcome::LedgerLimit && final(team).resources@ == old(
                    team,
                ).resources@,
            },
        },
        final(team).buildings == old(team).buildings,
        final(team).id == old(team).id,
        final(team).name == old(team).name,
        final(team).handicap == old(team).handicap,
{
    let name = to_lowercase(resource_name);
    let patterns = rules.patterns.resource_pattern.as_slice();
    let results = match_all(name.as_str(), patterns);
    if first_matching(&results).is_none() {
        return InsertOutcome::NotAResource;
    }
    let category = category_of_matches(&results, patterns);
    let amount = calculate_resource_total(&rules.modifiers, quantity, team, category.as_str());
    if book(&mut team.resources, name.as_str(), category.as_str(), amount) {
        InsertOutcome::Inserted
    } else {
        InsertOutcome::LedgerLimit
    }
}

/// Credits `drop` to `team`, if the team has access to its source.
///
/// A team without access stays exactly as it was. Else each item that is a
/// resource is booked, in order, until one cannot be.
pub fn process_team_drop(rules: &Rules, team: &mut Team, drop: &DinkDrop) -> (outcome: DropOutcome)
    ensures
        team_drop(
            *rules,
            old(team).buildings@,
            old(team).resources@,
            drop.source@,
            drop.loots.deep_view(),
        ) == (outcome, final(team).resources@),
        outcome is Denied ==> *final(team) == *old(team),
        outcome matches DropOutcome::LedgerLimit(at) ==> at < drop.loots.len(),
        final(team).buildings == old(team).buildings,
        final(team).id == old(team).id,
        final(team).name == old(team).name,
        final(team).handicap == old(team).handicap,
{
    match check_access(&rules.access, &rules.bestiary, team, drop.source.as_str()) {
        Access::Denied(denial) => DropOutcome::Denied(denial),
        Access::Granted => match credit_loots(rules, team, &drop.loots) {
            Some(at) => DropOutcome::LedgerLimit(at),
            None => DropOutcome::Processed,
        },
    }
}

/// The position in `teams` of the team of the player `username`, whose
/// name is given in lower case.
pub fn get_user_team(members: &StrMap<i32>, teams: &Vec<Team>, username: &str) -> (r: Option<
    usize,
>)
    ensures
        match r {
            Some(at) => team_of_user(members@, teams@, username@) == Some(at as int) && at
                < teams.len(),
            None => team_of_user(members@, teams@, username@) is None,
        },
{
    let id = match members.get(username) {
        Some(id) => *id,
        None => {
            return None;
        },
    };
    let mut found: Option<usize> = None;
    let mut i: usize = 0;
    assert(teams@.take(0) =~= Seq::<Team>::empty());
    while i < teams.len()
        invariant
            i <= teams.len(),
            match found {
                Some(at) => first_with_id(teams@.take(i as int), id) == Some(at as int) && at < i,
                None => first_with_id(teams@.take(i as int), id) is None,
            },
        decreases teams.len() - i,
    {
        assert(teams@.take(i + 1).drop_last() =~= teams@.take(i as int));
        if found.is_none() && teams[i].id == id {
            found = Some(i);
        }
        i += 1;
    }
    assert(teams@.take(teams@.len() as int) =~= teams@);
    found
}

/// Credits `drop` to the team of the player who got it.
///
/// The player is looked up under the name in lower case. The drop of a
/// player without a team changes nothing. Only the team of the player can
/// change, and only its ledger.
pub fn process_drop(
    rules: &Rules,
    members: &StrMap<i32>,
    teams: &mut Vec<Team>,
    drop: &DinkDrop,
) -> (outcome: DropOutcome)
    ensures
        final(teams).len() == old(teams).len(),
        match team_of_user(members@, old(teams)@, lowercase(drop.user@)) {
            None => outcome == DropOutcome::NotInTeam && final(teams)@ == old(teams)@,
            Some(at) => {
                &&& 0 <= at < old(teams).len()
                &&& team_drop(
                    *rules,
                    old(teams)[at].buildings@,
                    old(teams)[at].resources@,
                    drop.source@,
                    drop.loots.deep_view(),
                ) == (outcome, final(teams)[at].resources@)
                &&& final(teams)[at].buildings == old(teams)[at].buildings
                &&& final(teams)[at].id == old(teams)[at].id
                &&& final(teams)[at].name == old(teams)[at].name
                &&& final(teams)[at].handicap == old(teams)[at].handicap
                &&& forall|other: int|
                    0 <= other < old(teams).len() && other != at ==> final(teams)[other] == old(
                        teams,
                    )[other]
            },
        },
{
    let username = to_lowercase(drop.user.as_str());
    match get_user_team(members, teams, username.as_str()) {
        None => DropOutcome::NotInTeam,
        Some(at) => process_team_drop(rules, &mut teams[at], drop),
    }
}

impl DropOutcome {
    /// Whether the drop was credited in full.
    pub fn succeeded(&self) -> (r: bool)
        ensures
            r == (*self == DropOutcome::Processed),
    {
        match self {
            DropOutcome::Processed => true,
            _ => false,
        }
    }

    /// The outcome in words.
    pub fn message(&self) -> (text: &'static str)
        ensures
            text@ == match *self {
                DropOutcome::NotInTeam => "Not in any team"@,
                DropOutcome::Denied(denial) => denial.reason_text(),
                DropOutcome::Processed => "Drop processed successfully"@,
                DropOutcome::LedgerLimit(_) => "Ledger cannot hold the quantity"@,
            },
    {
        match self {
            DropOutcome::NotInTeam => "Not in any team",
            DropOutcome::Denied(denial) => denial.reason(),
            DropOutcome::Processed => "Drop processed successfully",
            DropOutcome::LedgerLimit(_) => "Ledger cannot hold the quantity",
        }
    }
}

/// The least number of seconds between two refreshes of what is shown of a
/// team.
pub const UPDATE_INTERVAL_SECS: u64 = 30;

/// Whether what is shown of a team is to be refreshed, `since_last` whole
/// seconds after the last refresh, or with no refresh so far.
pub fn should_update_team_embeds(since_last: Option<u64>) -> (r: bool)
    ensures
        r == match since_last {
            Some(seconds) => seconds >= UPDATE_INTERVAL_SECS,
            None => true,
        },
{
    match since_last {
        Some(seconds) => seconds >= UPDATE_INTERVAL_SECS,
        None => true,
    }
}

/// The text that reports a drop: the player, the source and a mark of
/// success; after the mark of a failure, the reason, if one is given.
pub open spec fn webhook_text(
    player_name: Seq<char>,
    status: bool,
    source: Seq<char>,
    optional_message: Option<Seq<char>>,
) -> Seq<char> {
    if status {
        player_name + " "@ + source + " "@ + "\u{2705}"@
    } else {
        player_name + " "@ + source + " "@ + "\u{274c}"@ + " "@ + match optional_message {
            Some(message) => message,
            None => Seq::empty(),
        }
    }
}

/// The text that reports a drop.
pub fn webhook_content(
    player_name: &str,
    status: bool,
    source: &str,
    optional_message: Option<&str>,
) -> (content: String)
    ensures
        content@ == webhook_text(
            player_name@,
            status,
            source@,
            match optional_message {
                Some(message) => Some(message@),
                None => None,
            },
        ),
{
    let mut out: Vec<char> = Vec::new();
    extend_str(&mut out, player_name);
    extend_str(&mut out, " ");
    extend_str(&mut out, source);
    extend_str(&mut out, " ");
    if status {
        extend_str(&mut out, "\u{2705}");
        assert(out@ =~= player_name@ + " "@ + source@ + " "@ + "\u{2705}"@);
    } else {
        extend_str(&mut out, "\u{274c}");
        extend_str(&mut out, " ");
        match optional_message {
            Some(message) => {
                extend_str(&mut out, message);
                assert(out@ =~= player_name@ + " "@ + source@ + " "@ + "\u{274c}"@ + " "@
                    + message@);
            },
            None => {
                assert(out@ =~= player_name@ + " "@ + source@ + " "@ + "\u{274c}"@ + " "@
                    + Seq::<char>::empty());
            },
        }
    }
    string_of(out.as_slice())
}

} // verus!
