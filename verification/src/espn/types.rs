//! League settings, injury statuses and rosters as the library reasons about them.

use crate::cli::types::position::{fills, player_positions, slot_of, Position, SLOT_BENCH, SLOT_IR};
use crate::text::{chars_equal, chars_of, concat_chars, parse_unsigned, parse_unsigned_chars,
    string_of, u64_to_decimal, decimal};
use std::collections::HashMap;
use vstd::prelude::*;

verus! {

/// Roster settings from the league configuration.
///
/// ESPN sends `lineupSlotCounts` and `positionLimits` as JSON objects keyed by decimal slot
/// ids; they are held here as (key, value) pairs in the order they were read.
#[derive(Debug, Clone)]
pub struct RosterSettings {
    pub lineup_slot_counts: Vec<(String, u32)>,
    pub position_limits: Vec<(String, i32)>,
}

/// Draft configuration from league settings.
#[derive(Debug, Clone)]
pub struct DraftSettings {
    /// `SNAKE`, `AUCTION`, ...
    pub draft_type: Option<String>,
    /// Scheduled draft time as milliseconds since the Unix epoch.
    pub date: Option<i64>,
    /// Team ids in first-round pick order.
    pub pick_order: Option<Vec<u32>>,
    pub auction_budget: Option<u32>,
    pub time_per_selection: Option<u32>,
    pub keeper_count: Option<u32>,
}

impl DraftSettings {
    /// No draft configuration.
    pub fn empty() -> (out: Self)
        ensures
            out.draft_type is None,
            out.date is None,
            out.pick_order is None,
            out.auction_budget is None,
            out.time_per_selection is None,
            out.keeper_count is None,
    {
        DraftSettings {
            draft_type: None,
            date: None,
            pick_order: None,
            auction_budget: None,
            time_per_selection: None,
            keeper_count: None,
        }
    }
}

/// The league settings the library's rules read: roster shape, draft configuration, size
/// and name.
#[derive(Debug, Clone)]
pub struct LeagueSettings {
    pub roster_settings: RosterSettings,
    pub draft_settings: DraftSettings,
    /// Number of teams in the league.
    pub size: Option<u32>,
    /// League display name.
    pub name: Option<String>,
}

/// The slot a `lineupSlotCounts` key names, if it is a decimal `u8`.
pub open spec fn entry_slot(key: Seq<char>) -> Option<nat> {
    parse_unsigned(key, 255)
}

/// The count the league configures for `slot`: the last positive count among the entries
/// whose key names that slot, or 0 if there is none.
pub open spec fn slot_count(entries: Seq<(String, u32)>, slot: int) -> u32
    decreases entries.len(),
{
    if entries.len() == 0 {
        0
    } else {
        let e = entries.last();
        if e.1 > 0 && entry_slot(e.0@) == Some(slot as nat) {
            e.1
        } else {
            slot_count(entries.drop_last(), slot)
        }
    }
}

/// The configured count of every slot id `0..256`.
pub open spec fn lineup_counts(entries: Seq<(String, u32)>) -> Seq<u32> {
    Seq::new(256, |s: int| slot_count(entries, s))
}

/// `out` lists, in increasing slot order, exactly the slots `s` with a positive count in
/// `counts` (and, when `starting_only`, that belong to a starting lineup), each paired
/// with its count.
pub open spec fn slot_table(out: Seq<(u8, u32)>, counts: Seq<u32>, starting_only: bool) -> bool {
    &&& forall|i: int, j: int| 0 <= i < j < out.len() ==> out[i].0 < out[j].0
    &&& forall|i: int|
        0 <= i < out.len() ==> {
            &&& #[trigger] out[i].1 == counts[out[i].0 as int]
            &&& out[i].1 > 0
            &&& (starting_only ==> is_starting_slot(out[i].0 as int))
        }
    &&& forall|s: int|
        0 <= s < 256 && #[trigger] counts[s] > 0 && (starting_only ==> is_starting_slot(s))
            ==> exists|i: int| 0 <= i < out.len() && out[i].0 == s
}

/// Whether a slot belongs to a starting lineup (bench and IR do not).
pub open spec fn is_starting_slot(s: int) -> bool {
    s != SLOT_BENCH as int && s != SLOT_IR as int
}

/// Whether `p` can start in this league: some starting slot with a positive count
/// accepts it.
pub open spec fn rosterable(entries: Seq<(String, u32)>, p: Position) -> bool {
    exists|s: int|
        0 <= s < 256 && is_starting_slot(s) && #[trigger] lineup_counts(entries)[s] > 0 && fills(
            p,
            s as u8,
        )
}

/// The starting lineup never lists the bench (slot 20) or injured reserve (slot 21), and
/// lists every other slot the league gives a positive count.
pub proof fn lemma_starting_slots_leave_out_bench_and_ir(out: Seq<(u8, u32)>, counts: Seq<u32>)
    requires
        slot_table(out, counts, true),
    ensures
        forall|i: int| 0 <= i < out.len() ==> (#[trigger] out[i]).0 != 20 && out[i].0 != 21 && out[i].1 > 0,
        forall|s: int| 0 <= s < 256 && s != 20 && s != 21 && #[trigger] counts[s] > 0
            ==> exists|i: int| 0 <= i < out.len() && out[i].0 == s,
{
    assert forall|i: int| 0 <= i < out.len() implies (#[trigger] out[i]).0 != 20 && out[i].0 != 21 && out[i].1 > 0 by {
        assert(out[i].1 == counts[out[i].0 as int]);
    }
}

/// Some slot other than the bench (20) and injured reserve (21) has a positive count in
/// the league and accepts `p`.
pub open spec fn fits_a_counted_lineup_slot(entries: Seq<(String, u32)>, p: Position) -> bool {
    exists|s: int| 0 <= s < 256 && s != 20 && s != 21 && #[trigger] lineup_counts(entries)[s] > 0 && fills(p, s as u8)
}

/// A position is rosterable exactly when some slot other than the bench (20) and injured
/// reserve (21) has a positive count and accepts it: a league without slots for
/// individual defensive players ranks none of them, though every position fits IR.
pub proof fn lemma_rosterable_means_a_starting_slot_takes_it(entries: Seq<(String, u32)>, out: Seq<Position>)
    requires
        out == player_positions().filter(|p: Position| rosterable(entries, p)),
    ensures
        forall|k: int| 0 <= k < out.len() ==> fits_a_counted_lineup_slot(entries, #[trigger] out[k]),
        forall|k: int| 0 <= k < player_positions().len() && fits_a_counted_lineup_slot(entries, #[trigger] player_positions()[k])
            ==> out.contains(player_positions()[k]),
{
    broadcast use vstd::seq_lib::group_filter_ensures;
    let pred = |p: Position| rosterable(entries, p);
    assert forall|k: int| 0 <= k < out.len() implies fits_a_counted_lineup_slot(entries, #[trigger] out[k]) by {
        player_positions().lemma_filter_pred(pred, k);
        assert(rosterable(entries, out[k]));
        let s = choose|s: int| 0 <= s < 256 && is_starting_slot(s) && #[trigger] lineup_counts(entries)[s] > 0
            && fills(out[k], s as u8);
        assert(lineup_counts(entries)[s] > 0);
    }
    assert forall|k: int| 0 <= k < player_positions().len() && fits_a_counted_lineup_slot(entries, #[trigger] player_positions()[k])
        implies out.contains(player_positions()[k]) by {
        let p = player_positions()[k];
        let s = choose|s: int| 0 <= s < 256 && s != 20 && s != 21 && #[trigger] lineup_counts(entries)[s] > 0 && fills(p, s as u8);
        assert(is_starting_slot(s));
        assert(rosterable(entries, p));
        player_positions().lemma_filter_contains(pred, k);
    }
}

impl LeagueSettings {
    /// The configured count of every lineup slot, indexed by slot id.
    fn slot_counts(&self) -> (counts: Vec<u32>)
        ensures
            counts@ == lineup_counts(self.roster_settings.lineup_slot_counts@),
    {
        let entries = &self.roster_settings.lineup_slot_counts;
        let mut counts: Vec<u32> = vec![0u32; 256];
        let mut i: usize = 0;
        while i < entries.len()
            invariant
                i <= entries@.len(),
                counts@.len() == 256,
                forall|s: int| 0 <= s < 256 ==> #[trigger] counts@[s] == slot_count(
                    entries@.take(i as int),
                    s,
                ),
            decreases entries@.len() - i,
        {
            let (key, count) = &entries[i];
            let ghost before = counts@;
            proof {
                assert(entries@.take(i + 1).drop_last() =~= entries@.take(i as int));
                assert(entries@.take(i + 1).last() == entries@[i as int]);
            }
            if *count > 0 {
                let key_chars = chars_of(key.as_str());
                match parse_unsigned_chars(&key_chars, 255) {
                    Some(slot) => {
                        counts.set(slot as usize, *count);
                    },
                    None => {},
                }
            }
            i = i + 1;
        }
        assert(entries@.take(i as int) =~= entries@);
        counts
    }

    /// Lineup slot ids this league actually rosters, with the number of each, in slot
    /// order.
    ///
    /// ESPN returns every slot id 0..=24 in `lineupSlotCounts` regardless of whether the
    /// league uses it, so slots with a zero count are dropped.
    pub fn active_lineup_slots(&self) -> (out: Vec<(u8, u32)>)
        ensures
            slot_table(out@, lineup_counts(self.roster_settings.lineup_slot_counts@), false),
    {
        let counts = self.slot_counts();
        slots_where(&counts, false)
    }

    /// Slots that make up a starting lineup, excluding bench and IR, in slot order.
    pub fn starting_lineup_slots(&self) -> (out: Vec<(u8, u32)>)
        ensures
            slot_table(out@, lineup_counts(self.roster_settings.lineup_slot_counts@), true),
            forall|i: int| 0 <= i < out@.len() ==> (#[trigger] out@[i]).0 != 20 && out@[i].0 != 21,
    {
        let counts = self.slot_counts();
        let out = slots_where(&counts, true);
        proof {
            lemma_starting_slots_leave_out_bench_and_ir(out@, lineup_counts(self.roster_settings.lineup_slot_counts@));
        }
        out
    }

    /// Positions that can occupy a starting slot in this league, in draft-board order.
    ///
    /// Used to drop players the league cannot start (individual defensive players,
    /// coaches) from rankings and analysis.
    pub fn rosterable_positions(&self) -> (out: Vec<Position>)
        ensures
            out@ == player_positions().filter(
                |p: Position| rosterable(self.roster_settings.lineup_slot_counts@, p),
            ),
            forall|k: int| 0 <= k < out@.len() ==> fits_a_counted_lineup_slot(
                self.roster_settings.lineup_slot_counts@,
                #[trigger] out@[k],
            ),
    {
        let starting = self.starting_lineup_slots();
        let ghost entries = self.roster_settings.lineup_slot_counts@;
        let ghost pred = |p: Position| rosterable(entries, p);
        let all: Vec<Position> = vec![
            Position::QB, Position::RB, Position::WR, Position::TE, Position::K, Position::DEF,
            Position::P, Position::DT, Position::DE, Position::LB, Position::DB, Position::S,
        ];
        assert(all@ == player_positions());
        let mut out: Vec<Position> = Vec::new();
        let mut i: usize = 0;
        while i < all.len()
            invariant
                i <= all@.len(),
                all@ == player_positions(),
                slot_table(starting@, lineup_counts(entries), true),
                entries == self.roster_settings.lineup_slot_counts@,
                pred == (|p: Position| rosterable(entries, p)),
                out@ == all@.take(i as int).filter(pred),
            decreases all@.len() - i,
        {
            let p = all[i];
            let mut found = false;
            let mut j: usize = 0;
            while j < starting.len()
                invariant
                    j <= starting@.len(),
                    found == exists|k: int| 0 <= k < j && fills(p, #[trigger] starting@[k].0),
                decreases starting@.len() - j,
            {
                if p.fills_slot(starting[j].0) {
                    found = true;
                }
                j = j + 1;
            }
            proof {
                if found {
                    let k = choose|k: int| 0 <= k < j && fills(p, #[trigger] starting@[k].0);
                    let s = starting@[k].0 as int;
                    assert(starting@[k].1 == lineup_counts(entries)[s]);
                    assert(lineup_counts(entries)[s] > 0);
                    assert(s as u8 == starting@[k].0);
                    assert(rosterable(entries, p));
                } else {
                    assert forall|s: int|
                        0 <= s < 256 && is_starting_slot(s) && #[trigger] lineup_counts(entries)[s]
                            > 0 implies !fills(p, s as u8) by {
                        let k = choose|k: int| 0 <= k < starting@.len() && starting@[k].0 == s;
                        assert(!fills(p, starting@[k].0));
                    }
                }
                assert(all@.take(i + 1).drop_last() =~= all@.take(i as int));
                reveal_with_fuel(Seq::filter, 1);
            }
            if found {
                out.push(p);
            }
            i = i + 1;
        }
        assert(all@.take(i as int) =~= all@);
        proof {
            lemma_rosterable_means_a_starting_slot_takes_it(entries, out@);
        }
        out
    }

    /// Lineup slot ids to request from ESPN when no explicit position filter is given:
    /// the slots of the positions this league can start, ascending and without repeats.
    pub fn rosterable_slot_ids(&self) -> (out: Vec<u8>)
        ensures
            forall|i: int, j: int| 0 <= i < j < out@.len() ==> out@[i] < out@[j],
            forall|s: u8| out@.contains(s) <==> exists|p: Position| #[trigger] slot_of(p) == s
                && player_positions().contains(p)
                && rosterable(self.roster_settings.lineup_slot_counts@, p),
    {
        let positions = self.rosterable_positions();
        let ghost entries = self.roster_settings.lineup_slot_counts@;
        let ghost pred = |q: Position| rosterable(entries, q);
        let ghost wanted = player_positions().filter(pred);
        let mut present: Vec<bool> = vec![false; 256];
        let mut i: usize = 0;
        while i < positions.len()
            invariant
                i <= positions@.len(),
                positions@ == wanted,
                present@.len() == 256,
                forall|s: int| 0 <= s < 256 ==> (#[trigger] present@[s] <==> exists|k: int|
                    0 <= k < i && slot_of(positions@[k]) == s),
            decreases positions@.len() - i,
        {
            let slots = positions[i].lineup_slot_ids();
            present.set(slots[0] as usize, true);
            i = i + 1;
        }
        let mut out: Vec<u8> = Vec::new();
        let mut s: usize = 0;
        while s < 256
            invariant
                s <= 256,
                present@.len() == 256,
                forall|a: int, b: int| 0 <= a < b < out@.len() ==> out@[a] < out@[b],
                forall|k: int| 0 <= k < out@.len() ==> out@[k] < s && present@[#[trigger] out@[k] as int],
                forall|t: int| 0 <= t < s && #[trigger] present@[t] ==> exists|k: int|
                    0 <= k < out@.len() && out@[k] == t,
            decreases 256 - s,
        {
            if present[s] {
                let ghost before = out@;
                out.push(s as u8);
                proof {
                    assert forall|t: int| 0 <= t < s + 1 && #[trigger] present@[t] implies exists|k: int|
                        0 <= k < out@.len() && out@[k] == t by {
                        if t < s {
                            let k = choose|k: int| 0 <= k < before.len() && before[k] == t;
                            assert(out@[k] == before[k]);
                        } else {
                            assert(out@[out@.len() - 1] == t);
                        }
                    }
                }
            }
            s = s + 1;
        }
        proof {
            assert forall|x: u8| out@.contains(x) <==> exists|p: Position| #[trigger] slot_of(p)
                == x && player_positions().contains(p) && rosterable(entries, p) by {
                if out@.contains(x) {
                    let k = choose|k: int| 0 <= k < out@.len() && out@[k] == x;
                    assert(present@[out@[k] as int]);
                    let m = choose|m: int| 0 <= m < positions@.len() && slot_of(positions@[m])
                        == x as int;
                    let p = positions@[m];
                    player_positions().lemma_filter_pred(pred, m);
                    player_positions().lemma_filter_contains_rev(pred, p);
                    assert(wanted.contains(p));
                    assert(slot_of(p) == x);
                }
                if exists|p: Position| #[trigger] slot_of(p) == x && player_positions().contains(p)
                    && rosterable(entries, p) {
                    let p = choose|p: Position| #[trigger] slot_of(p) == x
                        && player_positions().contains(p) && rosterable(entries, p);
                    let m = choose|m: int| 0 <= m < player_positions().len()
                        && player_positions()[m] == p;
                    player_positions().lemma_filter_contains(pred, m);
                    let n = choose|n: int| 0 <= n < wanted.len() && wanted[n] == p;
                    assert(slot_of(positions@[n]) == x as int);
                    assert(present@[x as int]);
                    let k = choose|k: int| 0 <= k < out@.len() && out@[k] == x as int;
                    assert(out@.contains(x));
                }
            }
        }
        out
    }
}

/// The slots with a positive count, optionally dropping bench and IR, in slot order.
fn slots_where(counts: &Vec<u32>, starting_only: bool) -> (out: Vec<(u8, u32)>)
    requires
        counts@.len() == 256,
    ensures
        slot_table(out@, counts@, starting_only),
{
    let mut out: Vec<(u8, u32)> = Vec::new();
    let mut s: usize = 0;
    while s < 256
        invariant
            s <= 256,
            counts@.len() == 256,
            forall|a: int, b: int| 0 <= a < b < out@.len() ==> out@[a].0 < out@[b].0,
            forall|k: int|
                0 <= k < out@.len() ==> {
                    &&& #[trigger] out@[k].1 == counts@[out@[k].0 as int]
                    &&& out@[k].1 > 0
                    &&& (starting_only ==> is_starting_slot(out@[k].0 as int))
                    &&& out@[k].0 < s
                },
            forall|t: int|
                0 <= t < s && #[trigger] counts@[t] > 0 && (starting_only ==> is_starting_slot(t))
                    ==> exists|k: int| 0 <= k < out@.len() && out@[k].0 == t,
        decreases 256 - s,
    {
        let keep = !starting_only || (s != SLOT_BENCH as usize && s != SLOT_IR as usize);
        if counts[s] > 0 && keep {
            let ghost before = out@;
            out.push((s as u8, counts[s]));
            proof {
                assert forall|t: int|
                    0 <= t < s + 1 && #[trigger] counts@[t] > 0 && (starting_only
                        ==> is_starting_slot(t)) implies exists|k: int|
                    0 <= k < out@.len() && out@[k].0 == t by {
                    if t < s {
                        let k = choose|k: int| 0 <= k < before.len() && before[k].0 == t;
                        assert(out@[k] == before[k]);
                    } else {
                        assert(out@[out@.len() - 1].0 == t);
                    }
                }
                assert forall|a: int, b: int| 0 <= a < b < out@.len() implies out@[a].0
                    < out@[b].0 by {
                    if b == out@.len() - 1 {
                        assert(before[a].1 == counts@[before[a].0 as int]);
                    } else {
                        assert(out@[a] == before[a] && out@[b] == before[b]);
                    }
                }
            }
        }
        s = s + 1;
    }
    out
}

/// One of ESPN's draft rankings for a player: the rank, and for auction leagues the
/// auction value.
#[derive(Debug, Clone, Copy, PartialEq, Eq, Structural)]
pub struct DraftRank {
    pub rank: i32,
    pub auction_value: Option<i32>,
}

/// Player injury status.
#[derive(Debug, Clone, Copy, PartialEq, Eq, Structural, Hash)]
pub enum InjuryStatus {
    Active,
    InjuryReserve,
    Out,
    Doubtful,
    Questionable,
    Probable,
    DayToDay,
    Unknown,
}

/// Canonical string form of an injury status, used for display and storage alike.
pub open spec fn injury_label(s: InjuryStatus) -> Seq<char> {
    match s {
        InjuryStatus::Active => seq!['A', 'c', 't', 'i', 'v', 'e'],
        InjuryStatus::InjuryReserve => seq!['I', 'R'],
        InjuryStatus::Out => seq!['O', 'u', 't'],
        InjuryStatus::Doubtful => seq!['D', 'o', 'u', 'b', 't', 'f', 'u', 'l'],
        InjuryStatus::Questionable => seq![
            'Q', 'u', 'e', 's', 't', 'i', 'o', 'n', 'a', 'b', 'l', 'e',
        ],
        InjuryStatus::Probable => seq!['P', 'r', 'o', 'b', 'a', 'b', 'l', 'e'],
        InjuryStatus::DayToDay => seq!['D', 'a', 'y', '-', 't', 'o', '-', 'D', 'a', 'y'],
        InjuryStatus::Unknown => seq!['U', 'n', 'k', 'n', 'o', 'w', 'n'],
    }
}

/// ESPN's wire spelling of an injury status.
pub open spec fn injury_wire(s: InjuryStatus) -> Seq<char> {
    match s {
        InjuryStatus::Active => seq!['A', 'C', 'T', 'I', 'V', 'E'],
        InjuryStatus::InjuryReserve => seq![
            'I', 'N', 'J', 'U', 'R', 'Y', '_', 'R', 'E', 'S', 'E', 'R', 'V', 'E',
        ],
        InjuryStatus::Out => seq!['O', 'U', 'T'],
        InjuryStatus::Doubtful => seq!['D', 'O', 'U', 'B', 'T', 'F', 'U', 'L'],
        InjuryStatus::Questionable => seq![
            'Q', 'U', 'E', 'S', 'T', 'I', 'O', 'N', 'A', 'B', 'L', 'E',
        ],
        InjuryStatus::Probable => seq!['P', 'R', 'O', 'B', 'A', 'B', 'L', 'E'],
        InjuryStatus::DayToDay => seq!['D', 'A', 'Y', '_', 'T', 'O', '_', 'D', 'A', 'Y'],
        InjuryStatus::Unknown => seq![],
    }
}

/// The status a stored or wire string denotes; anything unrecognised is `Unknown`.
pub open spec fn injury_parsed(t: Seq<char>) -> InjuryStatus {
    if t == injury_label(InjuryStatus::Active) || t == injury_wire(InjuryStatus::Active) {
        InjuryStatus::Active
    } else if t == injury_label(InjuryStatus::InjuryReserve) || t == injury_wire(
        InjuryStatus::InjuryReserve,
    ) {
        InjuryStatus::InjuryReserve
    } else if t == injury_label(InjuryStatus::Out) || t == injury_wire(InjuryStatus::Out) {
        InjuryStatus::Out
    } else if t == injury_label(InjuryStatus::Doubtful) || t == injury_wire(
        InjuryStatus::Doubtful,
    ) {
        InjuryStatus::Doubtful
    } else if t == injury_label(InjuryStatus::Questionable) || t == injury_wire(
        InjuryStatus::Questionable,
    ) {
        InjuryStatus::Questionable
    } else if t == injury_label(InjuryStatus::Probable) || t == injury_wire(
        InjuryStatus::Probable,
    ) {
        InjuryStatus::Probable
    } else if t == injury_label(InjuryStatus::DayToDay) || t == injury_wire(
        InjuryStatus::DayToDay,
    ) {
        InjuryStatus::DayToDay
    } else {
        InjuryStatus::Unknown
    }
}

fn injury_label_chars(s: InjuryStatus) -> (out: Vec<char>)
    ensures
        out@ == injury_label(s),
{
    match s {
        InjuryStatus::Active => vec!['A', 'c', 't', 'i', 'v', 'e'],
        InjuryStatus::InjuryReserve => vec!['I', 'R'],
        InjuryStatus::Out => vec!['O', 'u', 't'],
        InjuryStatus::Doubtful => vec!['D', 'o', 'u', 'b', 't', 'f', 'u', 'l'],
        InjuryStatus::Questionable => vec![
            'Q', 'u', 'e', 's', 't', 'i', 'o', 'n', 'a', 'b', 'l', 'e',
        ],
        InjuryStatus::Probable => vec!['P', 'r', 'o', 'b', 'a', 'b', 'l', 'e'],
        InjuryStatus::DayToDay => vec!['D', 'a', 'y', '-', 't', 'o', '-', 'D', 'a', 'y'],
        InjuryStatus::Unknown => vec!['U', 'n', 'k', 'n', 'o', 'w', 'n'],
    }
}

fn injury_wire_chars(s: InjuryStatus) -> (out: Vec<char>)
    ensures
        out@ == injury_wire(s),
{
    match s {
        InjuryStatus::Active => vec!['A', 'C', 'T', 'I', 'V', 'E'],
        InjuryStatus::InjuryReserve => vec![
            'I', 'N', 'J', 'U', 'R', 'Y', '_', 'R', 'E', 'S', 'E', 'R', 'V', 'E',
        ],
        InjuryStatus::Out => vec!['O', 'U', 'T'],
        InjuryStatus::Doubtful => vec!['D', 'O', 'U', 'B', 'T', 'F', 'U', 'L'],
        InjuryStatus::Questionable => vec![
            'Q', 'U', 'E', 'S', 'T', 'I', 'O', 'N', 'A', 'B', 'L', 'E',
        ],
        InjuryStatus::Probable => vec!['P', 'R', 'O', 'B', 'A', 'B', 'L', 'E'],
        InjuryStatus::DayToDay => vec!['D', 'A', 'Y', '_', 'T', 'O', '_', 'D', 'A', 'Y'],
        InjuryStatus::Unknown => vec![],
    }
}

impl InjuryStatus {
    /// Canonical string form, used both for display and for database persistence.
    pub fn as_str(&self) -> (out: String)
        ensures
            out@ == injury_label(*self),
    {
        string_of(&injury_label_chars(*self))
    }

    /// Parse the canonical form written by [`InjuryStatus::as_str`], or ESPN's own wire
    /// spelling; anything unrecognised becomes `Unknown`.
    pub fn from_str(s: &str) -> (out: InjuryStatus)
        ensures
            out == injury_parsed(s@),
    {
        let t = chars_of(s);
        if chars_equal(&t, &injury_label_chars(InjuryStatus::Active)) || chars_equal(
            &t,
            &injury_wire_chars(InjuryStatus::Active),
        ) {
            InjuryStatus::Active
        } else if chars_equal(&t, &injury_label_chars(InjuryStatus::InjuryReserve)) || chars_equal(
            &t,
            &injury_wire_chars(InjuryStatus::InjuryReserve),
        ) {
            InjuryStatus::InjuryReserve
        } else if chars_equal(&t, &injury_label_chars(InjuryStatus::Out)) || chars_equal(
            &t,
            &injury_wire_chars(InjuryStatus::Out),
        ) {
            InjuryStatus::Out
        } else if chars_equal(&t, &injury_label_chars(InjuryStatus::Doubtful)) || chars_equal(
            &t,
            &injury_wire_chars(InjuryStatus::Doubtful),
        ) {
            InjuryStatus::Doubtful
        } else if chars_equal(&t, &injury_label_chars(InjuryStatus::Questionable)) || chars_equal(
            &t,
            &injury_wire_chars(InjuryStatus::Questionable),
        ) {
            InjuryStatus::Questionable
        } else if chars_equal(&t, &injury_label_chars(InjuryStatus::Probable)) || chars_equal(
            &t,
            &injury_wire_chars(InjuryStatus::Probable),
        ) {
            InjuryStatus::Probable
        } else if chars_equal(&t, &injury_label_chars(InjuryStatus::DayToDay)) || chars_equal(
            &t,
            &injury_wire_chars(InjuryStatus::DayToDay),
        ) {
            InjuryStatus::DayToDay
        } else {
            InjuryStatus::Unknown
        }
    }
}

/// Every status reads back as itself from its stored form.
pub proof fn lemma_injury_status_round_trip(s: InjuryStatus)
    ensures
        injury_parsed(injury_label(s)) == s,
{
    let l = injury_label(s);
    match s {
        InjuryStatus::Unknown => {
            assert(l.len() == 7 && l[0] == 'U');
        },
        _ => {},
    }
    assert(l.len() > 0);
    if l.len() >= 2 {
        assert(l[0] != 'U' || s == InjuryStatus::Unknown);
    }
}

/// Roster entry from ESPN API.
#[derive(Debug, Clone)]
pub struct RosterEntry {
    pub player_id: i64,
    pub lineup_slot_id: u8,
    pub injury_status: Option<String>,
}

/// Team roster from ESPN API.
#[derive(Debug, Clone)]
pub struct TeamRoster {
    pub entries: Vec<RosterEntry>,
}

/// A fantasy team.
#[derive(Debug, Clone)]
pub struct Team {
    pub id: u32,
    pub name: Option<String>,
    pub abbrev: Option<String>,
    pub roster: Option<TeamRoster>,
    /// SWIDs of this team's owners.
    pub owners: Option<Vec<String>>,
}

/// `Team <id>`, the label for a team with neither a name nor an abbreviation.
pub open spec fn team_fallback_label(id: u32) -> Seq<char> {
    seq!['T', 'e', 'a', 'm', ' '] + decimal(id as nat)
}

/// Best available label for a team: its name, else its abbreviation, else `Team <id>`.
pub open spec fn team_label_of(t: Team) -> Seq<char> {
    match t.name {
        Some(n) => n@,
        None => match t.abbrev {
            Some(a) => a@,
            None => team_fallback_label(t.id),
        },
    }
}

/// `Team <id>`.
pub fn team_fallback(id: u32) -> (out: String)
    ensures
        out@ == team_fallback_label(id),
{
    let label = concat_chars(&vec!['T', 'e', 'a', 'm', ' '], &u64_to_decimal(id as u64));
    string_of(&label)
}

impl Team {
    /// Best available human-readable label for the team.
    pub fn display_name(&self) -> (out: String)
        ensures
            out@ == team_label_of(*self),
    {
        match &self.name {
            Some(n) => n.clone(),
            None => match &self.abbrev {
                Some(a) => a.clone(),
                None => team_fallback(self.id),
            },
        }
    }
}

/// Where a player sits in the league: team id, name and abbreviation.
#[derive(Debug, Clone)]
pub struct RosterPlacement {
    pub team_id: u32,
    pub team_name: Option<String>,
    pub team_abbrev: Option<String>,
}

/// League data with teams from ESPN API.
#[derive(Debug, Clone)]
pub struct LeagueData {
    pub teams: Vec<Team>,
}

/// Whether `t`'s roster lists `player`.
pub open spec fn team_lists(t: Team, player: i64) -> bool {
    match t.roster {
        Some(r) => exists|e: int| 0 <= e < r.entries@.len() && #[trigger] r.entries@[e].player_id == player,
        None => false,
    }
}

/// The index of the team that rosters `player`: the last team in order whose roster
/// lists the player.
pub open spec fn roster_team_index(teams: Seq<Team>, player: i64) -> Option<int>
    decreases teams.len(),
{
    if teams.len() == 0 {
        None
    } else if team_lists(teams.last(), player) {
        Some(teams.len() - 1)
    } else {
        roster_team_index(teams.drop_last(), player)
    }
}

/// The placement a team gives to the players on its roster.
pub open spec fn placement_of(t: Team) -> RosterPlacement {
    RosterPlacement { team_id: t.id, team_name: t.name, team_abbrev: t.abbrev }
}

fn clone_label(s: &Option<String>) -> (out: Option<String>)
    ensures
        out == *s,
{
    match s {
        Some(v) => Some(v.clone()),
        None => None,
    }
}

fn placement_for(team: &Team) -> (out: RosterPlacement)
    ensures
        out == placement_of(*team),
{
    RosterPlacement {
        team_id: team.id,
        team_name: clone_label(&team.name),
        team_abbrev: clone_label(&team.abbrev),
    }
}

proof fn lemma_roster_index_bounds(teams: Seq<Team>, player: i64)
    ensures
        roster_team_index(teams, player) matches Some(i) ==> 0 <= i < teams.len()
            && team_lists(teams[i], player),
    decreases teams.len(),
{
    if teams.len() > 0 && !team_lists(teams.last(), player) {
        lemma_roster_index_bounds(teams.drop_last(), player);
    }
}

impl LeagueData {
    /// Map from player id to the team that rosters the player; when several rosters list
    /// a player, the last team in order wins.
    pub fn create_player_roster_map(&self) -> (out: HashMap<i64, RosterPlacement>)
        ensures
            forall|player: i64| #[trigger] out@.contains_key(player) <==> roster_team_index(
                self.teams@,
                player,
            ) is Some,
            forall|player: i64| #[trigger] out@.contains_key(player) ==> out@[player]
                == placement_of(self.teams@[roster_team_index(self.teams@, player)->0]),
    {
        broadcast use vstd::std_specs::hash::group_hash_axioms;
        let mut map: HashMap<i64, RosterPlacement> = HashMap::new();
        let ghost teams = self.teams@;
        let mut t: usize = 0;
        while t < self.teams.len()
            invariant
                t <= teams.len(),
                teams == self.teams@,
                forall|player: i64| #[trigger] map@.contains_key(player) <==> roster_team_index(
                    teams.take(t as int),
                    player,
                ) is Some,
                forall|player: i64| #[trigger] map@.contains_key(player) ==> map@[player]
                    == placement_of(teams[roster_team_index(teams.take(t as int), player)->0]),
            decreases teams.len() - t,
        {
            let team = &self.teams[t];
            let ghost prev = teams.take(t as int);
            proof {
                assert(teams.take(t + 1).drop_last() =~= prev);
                assert(teams.take(t + 1).last() == teams[t as int]);
                assert forall|player: i64| #[trigger] roster_team_index(prev, player) is Some
                    implies 0 <= roster_team_index(prev, player)->0 < prev.len() by {
                    lemma_roster_index_bounds(prev, player);
                }
            }
            match &team.roster {
                Some(roster) => {
                    let mut e: usize = 0;
                    while e < roster.entries.len()
                        invariant
                            e <= roster.entries@.len(),
                            forall|player: i64| #[trigger] map@.contains_key(player) <==> (
                            roster_team_index(prev, player) is Some || exists|k: int|
                                0 <= k < e && roster.entries@[k].player_id == player),
                            forall|player: i64| #[trigger] map@.contains_key(player) ==> map@[player]
                                == if exists|k: int|
                                0 <= k < e && roster.entries@[k].player_id == player {
                                placement_of(*team)
                            } else {
                                placement_of(prev[roster_team_index(prev, player)->0])
                            },
                        decreases roster.entries@.len() - e,
                    {
                        map.insert(roster.entries[e].player_id, placement_for(team));
                        proof {
                            assert(roster.entries@[e as int].player_id
                                == roster.entries[e as int].player_id);
                        }
                        e = e + 1;
                    }
                },
                None => {},
            }
            t = t + 1;
        }
        assert(teams.take(t as int) =~= teams);
        map
    }
}

} // verus!
