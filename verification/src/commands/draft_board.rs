//! Draft board: rank the player pool by value over replacement in this league's scoring,
//! and follow a draft as it happens.
//!
//! ESPN's own draft room ranks players with generic, league-agnostic rankings. The board
//! measures each player's season projection against the replacement level implied by the
//! league's actual starting lineup, cross-references ESPN's average draft position to
//! surface players going later than their value warrants, and, during a draft, removes
//! the players already taken and reports what the drafting team still needs.
//!
//! Projections and replacement levels come in millionths of a point. Values are rounded
//! to tenths once, where the board shows them (a projection, a value over replacement, a
//! replacement level), halves away from zero; draft positions and margins are tenths.

use crate::cli::types::ids::{LeagueId, PlayerId};
use crate::cli::types::position::{
    fills, label_of, slot_of, Position, SLOT_BENCH, SLOT_FLEX, SLOT_IR, SLOT_OP, SLOT_RB_WR, SLOT_WR_TE,
};
use crate::cli::types::time::Season;
use crate::espn::draft::{DraftPick, DraftResponse};
use crate::espn::live_draft::{recover_prior_picks, recovered_picks, DraftEvent, PriorPick, LEFT_REASON_DISPLACED};
use crate::espn::types::{lineup_counts, slot_table, LeagueSettings};
use crate::text::{
    append_chars, char_views, chars_of, contains_chars, contains_seq, decimal, lowercase,
    lowercase_chars, signed_decimal, string_of, string_views, trim, trim_chars, u64_to_decimal, i64_to_decimal,
};
use base64::Engine;
use vstd::prelude::*;

verus! {

/// Default number of players to pull from ESPN for the board.
///
/// Deep enough to cover every draftable player plus the replacement tier behind them.
pub const DEFAULT_POOL_SIZE: u32 = 700;

/// Default number of rows to print.
pub const DEFAULT_TOP: usize = 40;

/// How many best-available suggestions to surface for the drafting team.
pub const RECOMMENDATION_COUNT: usize = 3;

/// Configuration for the draft board command.
#[derive(Debug, Clone)]
pub struct DraftBoardParams {
    pub league_id: Option<LeagueId>,
    pub season: Season,
    pub positions: Option<Vec<Position>>,
    pub top: Option<usize>,
    pub pool_size: u32,
    pub rank_type: String,
    pub as_json: bool,
    pub live: bool,
    /// Bypass the cached draft pool and refetch projections and ADP from ESPN.
    pub refresh: bool,
    pub team: Option<String>,
    pub team_id: Option<u32>,
    /// Local file of picks, used when ESPN publishes none.
    pub taken_file: Option<String>,
    pub debug: bool,
}

impl DraftBoardParams {
    /// Defaults for `season`: a 700-player PPR pool, no filters, a static board.
    pub fn new(season: Season) -> (out: Self)
        ensures
            out.league_id is None,
            out.season == season,
            out.positions is None,
            out.top is None,
            out.pool_size == DEFAULT_POOL_SIZE,
            out.rank_type@ == seq!['P', 'P', 'R'],
            !out.as_json && !out.live && !out.refresh && !out.debug,
            out.team is None,
            out.team_id is None,
            out.taken_file is None,
    {
        let rank: Vec<char> = vec!['P', 'P', 'R'];
        DraftBoardParams {
            league_id: None,
            season,
            positions: None,
            top: None,
            pool_size: DEFAULT_POOL_SIZE,
            rank_type: string_of(&rank),
            as_json: false,
            live: false,
            refresh: false,
            team: None,
            team_id: None,
            taken_file: None,
            debug: false,
        }
    }
}

/// How likely a player is to still be available at the team's next pick.
#[derive(Debug, Clone, Copy, PartialEq, Eq, Structural)]
pub enum Outlook {
    /// Usually drafted well before the team picks again.
    TakeNow,
    /// Typically drafted around the team's next pick.
    CoinFlip,
    /// Usually still on the board at the team's next pick.
    CanWait,
    /// No published ADP, or no next pick to measure against.
    Unknown,
}

/// Short label of an outlook.
pub open spec fn outlook_label(o: Outlook) -> Seq<char> {
    match o {
        Outlook::TakeNow => seq!['t', 'a', 'k', 'e', ' ', 'n', 'o', 'w'],
        Outlook::CoinFlip => seq!['c', 'o', 'i', 'n', ' ', 'f', 'l', 'i', 'p'],
        Outlook::CanWait => seq!['c', 'a', 'n', ' ', 'w', 'a', 'i', 't'],
        Outlook::Unknown => seq!['u', 'n', 'k', 'n', 'o', 'w', 'n'],
    }
}

impl Outlook {
    /// Short label for the board.
    pub fn label(self) -> (out: String)
        ensures
            out@ == outlook_label(self),
    {
        let text: Vec<char> = match self {
            Outlook::TakeNow => vec!['t', 'a', 'k', 'e', ' ', 'n', 'o', 'w'],
            Outlook::CoinFlip => vec!['c', 'o', 'i', 'n', ' ', 'f', 'l', 'i', 'p'],
            Outlook::CanWait => vec!['c', 'a', 'n', ' ', 'w', 'a', 'i', 't'],
            Outlook::Unknown => vec!['u', 'n', 'k', 'n', 'o', 'w', 'n'],
        };
        string_of(&text)
    }
}

/// The outlook for a survival margin (in tenths of a pick) in a league of `team_count`
/// teams: the band runs from a quarter round early to half a round late.
pub open spec fn outlook_for(margin: Option<i128>, team_count: int) -> Outlook {
    match margin {
        None => Outlook::Unknown,
        Some(m) => {
            let round = if team_count > 1 { team_count } else { 1 };
            if 2 * m < -5 * round {
                Outlook::TakeNow
            } else if m <= 5 * round {
                Outlook::CoinFlip
            } else {
                Outlook::CanWait
            }
        },
    }
}

/// How relaxed an outlook is: taking now is the most urgent, waiting the least.
pub open spec fn patience(o: Outlook) -> int {
    match o {
        Outlook::TakeNow => 0,
        Outlook::CoinFlip => 1,
        Outlook::CanWait => 2,
        Outlook::Unknown => 3,
    }
}

/// A later ADP relative to the team's next pick never makes the outlook more urgent; in
/// particular a player some distance before the pick never reads more relaxed than one the
/// same distance after it.
pub proof fn lemma_outlook_monotone(a: i128, b: i128, team_count: int)
    requires
        a <= b,
    ensures
        patience(outlook_for(Some(a), team_count)) <= patience(outlook_for(Some(b), team_count)),
{
}

/// Turn a survival margin into an outlook.
///
/// The band is measured in rounds, so the verdict scales with league size instead of
/// assuming twelve teams. It is deliberately asymmetric: a player whose ADP falls after the
/// team's next pick may still slide into reach, but one whose ADP falls before it rarely
/// comes back. Half a round of tolerance late, a quarter round early.
pub fn classify_outlook(survival_margin: Option<i128>, team_count: usize) -> (out: Outlook)
    ensures
        out == outlook_for(survival_margin, team_count as int),
{
    match survival_margin {
        None => Outlook::Unknown,
        Some(margin) => {
            let round: i128 = if team_count > 1 { team_count as i128 } else { 1 };
            let m = margin;
            let far: i128 = 0x1_0000_0000_0000_0000_0000_0000;
            if m <= -far {
                Outlook::TakeNow
            } else if m >= far {
                Outlook::CanWait
            } else if 2 * m < -5 * round {
                Outlook::TakeNow
            } else if m <= 5 * round {
                Outlook::CoinFlip
            } else {
                Outlook::CanWait
            }
        },
    }
}

/// Human-readable name of a lineup slot.
pub open spec fn slot_name(slot: u8) -> Seq<char> {
    if slot == 0 { seq!['Q', 'B'] }
    else if slot == 2 { seq!['R', 'B'] }
    else if slot == 3 { seq!['R', 'B', '/', 'W', 'R'] }
    else if slot == 4 { seq!['W', 'R'] }
    else if slot == 5 { seq!['W', 'R', '/', 'T', 'E'] }
    else if slot == 6 { seq!['T', 'E'] }
    else if slot == 7 { seq!['O', 'P'] }
    else if slot == 16 { seq!['D', '/', 'S', 'T'] }
    else if slot == 17 { seq!['K'] }
    else if slot == 20 { seq!['B', 'E'] }
    else if slot == 21 { seq!['I', 'R'] }
    else if slot == 23 { seq!['F', 'L', 'E', 'X'] }
    else { seq!['S', 'L', 'O', 'T'] + decimal(slot as nat) }
}

/// Human-readable name for a lineup slot id.
pub fn slot_label(slot: u8) -> (out: String)
    ensures
        out@ == slot_name(slot),
{
    let text: Vec<char> = if slot == 0 { vec!['Q', 'B'] }
    else if slot == 2 { vec!['R', 'B'] }
    else if slot == 3 { vec!['R', 'B', '/', 'W', 'R'] }
    else if slot == 4 { vec!['W', 'R'] }
    else if slot == 5 { vec!['W', 'R', '/', 'T', 'E'] }
    else if slot == 6 { vec!['T', 'E'] }
    else if slot == 7 { vec!['O', 'P'] }
    else if slot == 16 { vec!['D', '/', 'S', 'T'] }
    else if slot == 17 { vec!['K'] }
    else if slot == 20 { vec!['B', 'E'] }
    else if slot == 21 { vec!['I', 'R'] }
    else if slot == 23 { vec!['F', 'L', 'E', 'X'] }
    else {
        let mut t: Vec<char> = vec!['S', 'L', 'O', 'T'];
        append_chars(&mut t, &u64_to_decimal(slot as u64));
        t
    };
    string_of(&text)
}

/// The six positions a standard league starts, which decide how flexible a slot is.
pub open spec fn standard_positions() -> Seq<Position> {
    seq![Position::QB, Position::RB, Position::WR, Position::TE, Position::K, Position::DEF]
}

/// Whether a slot counts position `p` when slots are ordered by flexibility: the combined
/// slots count the positions they name (RB/WR, WR/TE, and OP any of QB/RB/WR/TE), every
/// other slot the positions that fill it.
pub open spec fn slot_takes(p: Position, slot: u8) -> bool {
    if slot == SLOT_RB_WR {
        p == Position::RB || p == Position::WR
    } else if slot == SLOT_WR_TE {
        p == Position::WR || p == Position::TE
    } else if slot == SLOT_OP {
        p == Position::QB || p == Position::RB || p == Position::WR || p == Position::TE
    } else {
        fills(p, slot)
    }
}

fn slot_takes_exec(p: Position, slot: u8) -> (b: bool)
    ensures
        b == slot_takes(p, slot),
{
    if slot == SLOT_RB_WR {
        p == Position::RB || p == Position::WR
    } else if slot == SLOT_WR_TE {
        p == Position::WR || p == Position::TE
    } else if slot == SLOT_OP {
        p == Position::QB || p == Position::RB || p == Position::WR || p == Position::TE
    } else {
        p.fills_slot(slot)
    }
}

/// How many of the standard positions a slot accepts.
pub open spec fn flexibility(slot: u8) -> nat {
    standard_positions().filter(|p: Position| slot_takes(p, slot)).len()
}

/// How many positions a slot accepts, so dedicated slots sort ahead of flex ones.
pub fn slot_flexibility(slot: u8) -> (out: usize)
    ensures
        out == flexibility(slot),
{
    let candidates: Vec<Position> = vec![
        Position::QB, Position::RB, Position::WR, Position::TE, Position::K, Position::DEF,
    ];
    assert(candidates@ == standard_positions());
    let ghost pred = |p: Position| slot_takes(p, slot);
    let mut count: usize = 0;
    let mut i: usize = 0;
    while i < candidates.len()
        invariant
            i <= candidates@.len(),
            candidates@ == standard_positions(),
            pred == (|p: Position| slot_takes(p, slot)),
            count == candidates@.take(i as int).filter(pred).len(),
        decreases candidates@.len() - i,
    {
        proof {
            assert(candidates@.take(i + 1).drop_last() =~= candidates@.take(i as int));
            reveal_with_fuel(Seq::filter, 1);
        }
        if slot_takes_exec(candidates[i], slot) {
            count = count + 1;
        }
        i = i + 1;
    }
    proof {
        assert(candidates@.take(i as int) =~= candidates@);
    }
    count
}

/// Whether a player at `position` passes a position filter, FLEX, bench and IR read as
/// the slots they name.
pub open spec fn position_passes(filter: Position, position: Position) -> bool {
    if filter == Position::FLEX || filter == Position::BE || filter == Position::IR {
        fills(position, slot_of(filter))
    } else {
        filter == position
    }
}

/// Match a position filter against a player's position, treating FLEX as slot-shaped.
pub fn slot_aware_match(filter: Position, position: Position) -> (b: bool)
    ensures
        b == position_passes(filter, position),
{
    match filter {
        Position::FLEX | Position::BE | Position::IR => {
            let slots = filter.lineup_slot_ids();
            position.fills_slot(slots[0])
        },
        _ => filter == position,
    }
}

/// The order slots are filled in: tightest first, then by slot id.
pub open spec fn slot_key(slot: u8) -> int {
    flexibility(slot) * 256 + slot
}

/// `x` placed after every slot of `s` whose key is not larger.
pub open spec fn insert_slot(s: Seq<u8>, x: u8) -> Seq<u8>
    decreases s.len(),
{
    if s.len() == 0 {
        seq![x]
    } else if slot_key(x) < slot_key(s.last()) {
        insert_slot(s.drop_last(), x).push(s.last())
    } else {
        s.push(x)
    }
}

/// `s` stably sorted by slot key.
pub open spec fn order_slots(s: Seq<u8>) -> Seq<u8>
    decreases s.len(),
{
    if s.len() == 0 {
        seq![]
    } else {
        insert_slot(order_slots(s.drop_last()), s.last())
    }
}

/// One entry per starting slot a team fills, in slot order.
pub open spec fn expand_slots(table: Seq<(u8, u32)>) -> Seq<u8>
    decreases table.len(),
{
    if table.len() == 0 {
        seq![]
    } else {
        expand_slots(table.drop_last()) + Seq::new(table.last().1 as nat, |i: int| table.last().0)
    }
}

/// The first roster spot not yet claimed whose position fills `slot`.
pub open spec fn first_filler(roster: Seq<Position>, claimed: Seq<bool>, slot: u8, from: int) -> Option<int>
    decreases roster.len() - from,
{
    if from < 0 || from >= roster.len() {
        None
    } else if !claimed[from] && fills(roster[from], slot) {
        Some(from)
    } else {
        first_filler(roster, claimed, slot, from + 1)
    }
}

/// The slots left open when each slot in turn claims the first unclaimed player who can
/// fill it.
pub open spec fn open_slots(slots: Seq<u8>, roster: Seq<Position>, claimed: Seq<bool>) -> Seq<u8>
    decreases slots.len(),
{
    if slots.len() == 0 {
        seq![]
    } else {
        match first_filler(roster, claimed, slots[0], 0) {
            Some(i) => open_slots(slots.drop_first(), roster, claimed.update(i, true)),
            None => seq![slots[0]] + open_slots(slots.drop_first(), roster, claimed),
        }
    }
}

/// No roster spot claimed yet.
pub open spec fn none_claimed(n: nat) -> Seq<bool> {
    Seq::new(n, |i: int| false)
}

/// The starting slots a team with `roster` still has to fill.
pub open spec fn needs_of(settings: LeagueSettings, table: Seq<(u8, u32)>, roster: Seq<Position>) -> Seq<u8> {
    open_slots(order_slots(expand_slots(table)), roster, none_claimed(roster.len()))
}

proof fn lemma_open_slots_without_players(slots: Seq<u8>)
    ensures
        open_slots(slots, seq![], seq![]) == slots,
    decreases slots.len(),
{
    if slots.len() > 0 {
        lemma_open_slots_without_players(slots.drop_first());
        assert(seq![slots[0]] + slots.drop_first() =~= slots);
    }
}

/// A team with nothing drafted still needs every one of its starting slots, tightest
/// first.
pub proof fn lemma_nothing_drafted_needs_every_slot(settings: LeagueSettings, table: Seq<(u8, u32)>)
    ensures
        needs_of(settings, table, seq![]) == order_slots(expand_slots(table)),
{
    lemma_open_slots_without_players(order_slots(expand_slots(table)));
    assert(none_claimed(0) =~= Seq::<bool>::empty());
}

proof fn lemma_insert_slot_at(s: Seq<u8>, x: u8, pos: int)
    requires
        0 <= pos <= s.len(),
        forall|k: int| pos <= k < s.len() ==> slot_key(x) < slot_key(#[trigger] s[k]),
        pos > 0 ==> slot_key(s[pos - 1]) <= slot_key(x),
    ensures
        insert_slot(s, x) == s.insert(pos, x),
    decreases s.len() - pos,
{
    if s.len() == 0 {
        assert(s.insert(pos, x) =~= seq![x]);
    } else if pos == s.len() {
        assert(s.insert(pos, x) =~= s.push(x));
    } else {
        lemma_insert_slot_at(s.drop_last(), x, pos);
        assert(s.insert(pos, x) =~= s.drop_last().insert(pos, x).push(s.last()));
    }
}

/// Every starting slot, one entry per player it starts, tightest slot first.
fn ordered_starting_slots(settings: &LeagueSettings) -> (out: Vec<u8>)
    ensures
        exists|table: Seq<(u8, u32)>| slot_table(table, lineup_counts(settings.roster_settings.lineup_slot_counts@), true)
            && out@ == order_slots(expand_slots(table)),
{
    let table = settings.starting_lineup_slots();
    let mut expanded: Vec<u8> = Vec::new();
    let mut t: usize = 0;
    while t < table.len()
        invariant
            t <= table@.len(),
            expanded@ == expand_slots(table@.take(t as int)),
        decreases table@.len() - t,
    {
        let (slot, count) = table[t];
        let ghost before = expanded@;
        let mut c: u32 = 0;
        while c < count
            invariant
                c <= count,
                expanded@ == before + Seq::new(c as nat, |i: int| slot),
            decreases count - c,
        {
            expanded.push(slot);
            c = c + 1;
            proof {
                assert(expanded@ =~= before + Seq::new(c as nat, |i: int| slot));
            }
        }
        proof {
            assert(table@.take(t + 1).drop_last() =~= table@.take(t as int));
            assert(table@.take(t + 1).last() == (slot, count));
        }
        t = t + 1;
    }
    proof {
        assert(table@.take(t as int) =~= table@);
    }
    let mut out: Vec<u8> = Vec::new();
    let mut i: usize = 0;
    while i < expanded.len()
        invariant
            i <= expanded@.len(),
            out@ == order_slots(expanded@.take(i as int)),
        decreases expanded@.len() - i,
    {
        let x = expanded[i];
        let kx = slot_flexibility(x) * 256 + x as usize;
        let mut pos: usize = out.len();
        while pos > 0 && kx < slot_flexibility(out[pos - 1]) * 256 + out[pos - 1] as usize
            invariant
                pos <= out@.len(),
                kx == slot_key(x),
                forall|k: int| pos <= k < out@.len() ==> slot_key(x) < slot_key(#[trigger] out@[k]),
            decreases pos,
        {
            pos = pos - 1;
        }
        proof {
            lemma_insert_slot_at(out@, x, pos as int);
            assert(expanded@.take(i + 1).drop_last() =~= expanded@.take(i as int));
        }
        out.insert(pos, x);
        i = i + 1;
    }
    proof {
        assert(expanded@.take(i as int) =~= expanded@);
    }
    out
}

/// No entry of `s` is the bench (20) or injured reserve (21).
pub open spec fn no_bench_or_ir(s: Seq<u8>) -> bool {
    forall|k: int| 0 <= k < s.len() ==> #[trigger] s[k] != 20 && s[k] != 21
}

proof fn lemma_expand_slots_no_bench_or_ir(table: Seq<(u8, u32)>)
    requires
        forall|i: int| 0 <= i < table.len() ==> (#[trigger] table[i]).0 != 20 && table[i].0 != 21,
    ensures
        no_bench_or_ir(expand_slots(table)),
    decreases table.len(),
{
    if table.len() > 0 {
        let d = table.drop_last();
        assert forall|i: int| 0 <= i < d.len() implies (#[trigger] d[i]).0 != 20 && d[i].0 != 21 by {
            assert(d[i] == table[i]);
        }
        lemma_expand_slots_no_bench_or_ir(d);
        let l = table[table.len() - 1];
        let tail = Seq::new(l.1 as nat, |i: int| l.0);
        let e = expand_slots(table);
        assert(e == expand_slots(d) + tail);
        assert forall|k: int| 0 <= k < e.len() implies #[trigger] e[k] != 20 && e[k] != 21 by {
            if k < expand_slots(d).len() {
                assert(e[k] == expand_slots(d)[k]);
            } else {
                assert(e[k] == tail[k - expand_slots(d).len()]);
            }
        }
    }
}

proof fn lemma_insert_slot_no_bench_or_ir(s: Seq<u8>, x: u8)
    requires
        no_bench_or_ir(s),
        x != 20 && x != 21,
    ensures
        no_bench_or_ir(insert_slot(s, x)),
    decreases s.len(),
{
    if s.len() > 0 && slot_key(x) < slot_key(s.last()) {
        let d = s.drop_last();
        assert forall|k: int| 0 <= k < d.len() implies #[trigger] d[k] != 20 && d[k] != 21 by {
            assert(d[k] == s[k]);
        }
        lemma_insert_slot_no_bench_or_ir(d, x);
        let r = insert_slot(s, x);
        let t = insert_slot(d, x);
        assert(r == t.push(s.last()));
        assert forall|k: int| 0 <= k < r.len() implies #[trigger] r[k] != 20 && r[k] != 21 by {
            if k < t.len() {
                assert(r[k] == t[k]);
            } else {
                assert(r[k] == s[s.len() - 1]);
            }
        }
    } else if s.len() > 0 {
        let r = s.push(x);
        assert forall|k: int| 0 <= k < r.len() implies #[trigger] r[k] != 20 && r[k] != 21 by {
            if k < s.len() {
                assert(r[k] == s[k]);
            }
        }
    } else {
        assert(insert_slot(s, x) =~= seq![x]);
    }
}

proof fn lemma_order_slots_no_bench_or_ir(s: Seq<u8>)
    requires
        no_bench_or_ir(s),
    ensures
        no_bench_or_ir(order_slots(s)),
    decreases s.len(),
{
    if s.len() > 0 {
        let d = s.drop_last();
        assert forall|k: int| 0 <= k < d.len() implies #[trigger] d[k] != 20 && d[k] != 21 by {
            assert(d[k] == s[k]);
        }
        lemma_order_slots_no_bench_or_ir(d);
        assert(s[s.len() - 1] != 20 && s[s.len() - 1] != 21);
        lemma_insert_slot_no_bench_or_ir(order_slots(d), s.last());
    }
}

proof fn lemma_open_slots_no_bench_or_ir(slots: Seq<u8>, roster: Seq<Position>, claimed: Seq<bool>)
    requires
        no_bench_or_ir(slots),
    ensures
        no_bench_or_ir(open_slots(slots, roster, claimed)),
    decreases slots.len(),
{
    if slots.len() > 0 {
        let d = slots.drop_first();
        assert forall|k: int| 0 <= k < d.len() implies #[trigger] d[k] != 20 && d[k] != 21 by {
            assert(d[k] == slots[k + 1]);
        }
        match first_filler(roster, claimed, slots[0], 0) {
            Some(i) => {
                lemma_open_slots_no_bench_or_ir(d, roster, claimed.update(i, true));
            },
            None => {
                lemma_open_slots_no_bench_or_ir(d, roster, claimed);
                let rest = open_slots(d, roster, claimed);
                let r = seq![slots[0]] + rest;
                assert(slots[0] != 20 && slots[0] != 21);
                assert forall|k: int| 0 <= k < r.len() implies #[trigger] r[k] != 20 && r[k] != 21 by {
                    if k > 0 {
                        assert(r[k] == rest[k - 1]);
                    }
                }
            },
        }
    }
}

/// A team's remaining needs are starting slots only: whatever it has drafted, no need is
/// the bench (20) or injured reserve (21).
pub proof fn lemma_needs_are_never_bench_or_ir(settings: LeagueSettings, table: Seq<(u8, u32)>, roster: Seq<Position>)
    requires
        slot_table(table, lineup_counts(settings.roster_settings.lineup_slot_counts@), true),
    ensures
        no_bench_or_ir(needs_of(settings, table, roster)),
{
    crate::espn::types::lemma_starting_slots_leave_out_bench_and_ir(table, lineup_counts(settings.roster_settings.lineup_slot_counts@));
    lemma_expand_slots_no_bench_or_ir(table);
    lemma_order_slots_no_bench_or_ir(expand_slots(table));
    lemma_open_slots_no_bench_or_ir(order_slots(expand_slots(table)), roster, none_claimed(roster.len()));
}

/// Starting slots the team has not yet filled.
///
/// Slots are filled tightest-first: a flex-eligible player claimed by the flex spot would
/// otherwise leave a dedicated RB or WR slot open that only he could have filled. Each
/// slot claims the first drafted player, in pick order, who can fill it and is not yet
/// claimed.
pub fn remaining_needs(settings: &LeagueSettings, roster: &[Position]) -> (out: Vec<u8>)
    ensures
        exists|table: Seq<(u8, u32)>| slot_table(table, lineup_counts(settings.roster_settings.lineup_slot_counts@), true)
            && out@ == needs_of(*settings, table, roster@),
        no_bench_or_ir(out@),
{
    let slots = ordered_starting_slots(settings);
    let mut claimed: Vec<bool> = Vec::new();
    let mut r: usize = 0;
    while r < roster.len()
        invariant
            r <= roster@.len(),
            claimed@ =~= none_claimed(r as nat),
        decreases roster@.len() - r,
    {
        claimed.push(false);
        r = r + 1;
    }
    let ghost all = slots@;
    let ghost table = choose|table: Seq<(u8, u32)>| slot_table(table, lineup_counts(settings.roster_settings.lineup_slot_counts@), true)
        && slots@ == order_slots(expand_slots(table));
    let mut needs: Vec<u8> = Vec::new();
    proof {
        assert(all.skip(0) =~= all);
        assert(needs@ + open_slots(all, roster@, claimed@) =~= open_slots(all, roster@, claimed@));
    }
    let mut s: usize = 0;
    while s < slots.len()
        invariant
            s <= slots@.len(),
            all == slots@,
            claimed@.len() == roster@.len(),
            open_slots(all, roster@, none_claimed(roster@.len())) == needs@ + open_slots(
                all.skip(s as int),
                roster@,
                claimed@,
            ),
        decreases slots@.len() - s,
    {
        let slot = slots[s];
        let ghost rest = all.skip(s as int);
        proof {
            assert(rest[0] == slot);
            assert(rest.drop_first() =~= all.skip(s + 1));
        }
        let mut i: usize = 0;
        while i < roster.len() && (claimed[i] || !roster[i].fills_slot(slot))
            invariant
                i <= roster@.len(),
                claimed@.len() == roster@.len(),
                first_filler(roster@, claimed@, slot, 0) == first_filler(roster@, claimed@, slot, i as int),
            decreases roster@.len() - i,
        {
            i = i + 1;
        }
        let ghost before = needs@;
        if i < roster.len() {
            claimed.set(i, true);
        } else {
            needs.push(slot);
            proof {
                assert(before + (seq![slot] + open_slots(all.skip(s + 1), roster@, claimed@)) =~= needs@
                    + open_slots(all.skip(s + 1), roster@, claimed@));
            }
        }
        s = s + 1;
    }
    proof {
        assert(all.skip(s as int) =~= Seq::<u8>::empty());
        assert(needs@ + Seq::<u8>::empty() =~= needs@);
        assert(needs@ == needs_of(*settings, table, roster@));
        lemma_needs_are_never_bench_or_ir(*settings, table, roster@);
    }
    needs
}

} // verus!

verus! {

/// A player of the pool, scored under the league's rules.
#[derive(Debug, Clone)]
pub struct ScoredPlayer {
    /// ESPN's player id.
    pub player_id: i64,
    pub full_name: Option<String>,
    pub position: Position,
    /// Season projection under this league's scoring, in millionths of a point.
    pub points: i64,
    /// Bye week, inferred from the gap in ESPN's weekly projections.
    pub bye_week: Option<u16>,
    /// ESPN's average draft position, in tenths, when published.
    pub average_draft_position: Option<i64>,
    /// Average auction value, in tenths, when published.
    pub auction_value: Option<i64>,
}

/// The index of the first pool entry for `id` at or after `from`.
pub open spec fn first_scored(scored: Seq<ScoredPlayer>, id: i64, from: int) -> Option<int>
    decreases scored.len() - from,
{
    if from < 0 || from >= scored.len() {
        None
    } else if scored[from].player_id == id {
        Some(from)
    } else {
        first_scored(scored, id, from + 1)
    }
}

/// `Player <id>`, the name of a player the pool has no name for.
pub open spec fn fallback_name(id: i64) -> Seq<char> {
    "Player "@ + signed_decimal(id as int)
}

/// The display name of a player: the name of the first pool entry with that id, else
/// `Player <id>`.
pub open spec fn name_of(scored: Seq<ScoredPlayer>, id: PlayerId) -> Seq<char> {
    match first_scored(scored, id.0, 0) {
        Some(i) => match scored[i].full_name {
            Some(n) => n@,
            None => fallback_name(id.0),
        },
        None => fallback_name(id.0),
    }
}

fn text(s: &str) -> (out: Vec<char>)
    ensures
        out@ == s@,
{
    chars_of(s)
}

/// Display name for a player id, for echoing picks back to the user.
pub fn player_name(scored: &[ScoredPlayer], id: PlayerId) -> (out: String)
    ensures
        out@ == name_of(scored@, id),
{
    let mut i: usize = 0;
    while i < scored.len() && scored[i].player_id != id.0
        invariant
            i <= scored@.len(),
            first_scored(scored@, id.0, 0) == first_scored(scored@, id.0, i as int),
        decreases scored@.len() - i,
    {
        i = i + 1;
    }
    if i < scored.len() {
        if let Some(n) = &scored[i].full_name {
            return n.clone();
        }
    }
    let mut name = text("Player ");
    append_chars(&mut name, &i64_to_decimal(id.0));
    string_of(&name)
}

/// Picks tracked outside ESPN's feed, from a file, typed in, or read off the live feed.
#[derive(Debug, Clone)]
pub struct FilePicks {
    /// Every drafted player in pick order, paired with whether it was the viewing team's.
    pub picks: Vec<(PlayerId, bool)>,
    /// Entries that matched no player, so they can be reported instead of silently ignored.
    pub unmatched: Vec<String>,
}

/// The players of a pick list, in pick order.
pub open spec fn picked(picks: Seq<(PlayerId, bool)>) -> Seq<PlayerId> {
    picks.map_values(|p: (PlayerId, bool)| p.0)
}

/// The viewing team's players of a pick list, in pick order.
pub open spec fn picked_mine(picks: Seq<(PlayerId, bool)>) -> Seq<PlayerId>
    decreases picks.len(),
{
    if picks.len() == 0 {
        seq![]
    } else if picks.last().1 {
        picked_mine(picks.drop_last()).push(picks.last().0)
    } else {
        picked_mine(picks.drop_last())
    }
}

impl FilePicks {
    /// No picks.
    pub fn new() -> (out: Self)
        ensures
            out.picks@.len() == 0,
            out.unmatched@.len() == 0,
    {
        FilePicks { picks: Vec::new(), unmatched: Vec::new() }
    }

    /// Every drafted player, in pick order.
    pub fn all(&self) -> (out: Vec<PlayerId>)
        ensures
            out@ == picked(self.picks@),
    {
        let mut out: Vec<PlayerId> = Vec::new();
        let mut i: usize = 0;
        while i < self.picks.len()
            invariant
                i <= self.picks@.len(),
                out@ =~= picked(self.picks@.take(i as int)),
            decreases self.picks@.len() - i,
        {
            out.push(self.picks[i].0);
            i = i + 1;
            proof {
                assert(picked(self.picks@.take(i as int)) =~= picked(self.picks@.take(i - 1)).push(
                    self.picks@[i - 1].0,
                ));
            }
        }
        proof {
            assert(self.picks@.take(i as int) =~= self.picks@);
        }
        out
    }

    /// The viewing team's players, in pick order.
    pub fn mine(&self) -> (out: Vec<PlayerId>)
        ensures
            out@ == picked_mine(self.picks@),
    {
        let mut out: Vec<PlayerId> = Vec::new();
        let mut i: usize = 0;
        while i < self.picks.len()
            invariant
                i <= self.picks@.len(),
                out@ == picked_mine(self.picks@.take(i as int)),
            decreases self.picks@.len() - i,
        {
            proof {
                assert(self.picks@.take(i + 1).drop_last() =~= self.picks@.take(i as int));
            }
            if self.picks[i].1 {
                out.push(self.picks[i].0);
            }
            i = i + 1;
        }
        proof {
            assert(self.picks@.take(i as int) =~= self.picks@);
        }
        out
    }

    /// How many picks are recorded.
    pub fn len(&self) -> (out: usize)
        ensures
            out == self.picks@.len(),
    {
        self.picks.len()
    }

    /// Whether `id` has been picked.
    pub fn contains(&self, id: PlayerId) -> (b: bool)
        ensures
            b == picked(self.picks@).contains(id),
    {
        let mut i: usize = 0;
        while i < self.picks.len()
            invariant
                i <= self.picks@.len(),
                forall|k: int| 0 <= k < i ==> #[trigger] self.picks@[k].0 != id,
            decreases self.picks@.len() - i,
        {
            if self.picks[i].0.0 == id.0 {
                proof {
                    assert(picked(self.picks@)[i as int] == id);
                }
                return true;
            }
            i = i + 1;
        }
        proof {
            if picked(self.picks@).contains(id) {
                let k = choose|k: int| 0 <= k < picked(self.picks@).len() && picked(self.picks@)[k] == id;
                assert(self.picks@[k].0 == id);
            }
        }
        false
    }
}

/// Whether the next unmade slot of the pick schedule, after `made` picks, belongs to
/// `team`: the first slot numbered `made + 1` is assigned to it.
pub open spec fn scheduled_turn(picks: Seq<DraftPick>, made: int, team: u32) -> bool {
    exists|i: int| 0 <= i < picks.len() && picks[i].overall_pick_number == made + 1
        && (forall|j: int| 0 <= j < i ==> #[trigger] picks[j].overall_pick_number != made + 1)
        && picks[i].team_id == Some(team)
}

/// Whether the next unmade slot in the pick schedule belongs to this team.
///
/// Snake drafts pre-assign every slot, so this is known the moment a pick lands. Auction
/// drafts have no order and always answer `false`; there the feed's clock is the only
/// signal. The count of recorded picks is taken as a `u32`, and the next pick number must
/// fit one.
pub fn my_turn_by_schedule(draft: &DraftResponse, picks: &FilePicks, my_team_id: u32) -> (b: bool)
    requires
        (picks.picks@.len() as u32) < 0xffff_ffff,
    ensures
        b == scheduled_turn(draft.draft_detail.picks@, (picks.picks@.len() as u32) as int, my_team_id),
{
    let made: u32 = picks.len() as u32;
    let next: u32 = made + 1;
    let schedule = &draft.draft_detail.picks;
    let mut i: usize = 0;
    while i < schedule.len()
        invariant
            i <= schedule@.len(),
            schedule@ == draft.draft_detail.picks@,
            next == (picks.picks@.len() as u32) + 1,
            forall|j: int| 0 <= j < i ==> #[trigger] schedule@[j].overall_pick_number != next,
        decreases schedule@.len() - i,
    {
        if schedule[i].overall_pick_number == next {
            let mine = schedule[i].team_id == Some(my_team_id);
            proof {
                if mine {
                    assert(scheduled_turn(schedule@, (picks.picks@.len() as u32) as int, my_team_id));
                } else {
                    assert forall|k: int| 0 <= k < schedule@.len() && schedule@[k].overall_pick_number == next
                        && (forall|j: int| 0 <= j < k ==> #[trigger] schedule@[j].overall_pick_number != next)
                        implies schedule@[k].team_id != Some(my_team_id) by {
                        if k > i {
                            assert(schedule@[i as int].overall_pick_number == next);
                        }
                    }
                    assert(!scheduled_turn(schedule@, (picks.picks@.len() as u32) as int, my_team_id));
                }
            }
            return mine;
        }
        i = i + 1;
    }
    false
}

/// An auction schedule, whose slots carry no team, never says it is a team's turn.
pub proof fn lemma_auction_schedule_names_no_turn(picks: Seq<DraftPick>, made: int, team: u32)
    requires
        forall|i: int| 0 <= i < picks.len() ==> (#[trigger] picks[i]).team_id is None,
    ensures
        !scheduled_turn(picks, made, team),
{
}

/// `s` up to its first `#`.
pub open spec fn before_hash(s: Seq<char>) -> Seq<char>
    decreases s.len(),
{
    if s.len() == 0 {
        seq![]
    } else if s[0] == '#' {
        seq![]
    } else {
        seq![s[0]] + before_hash(s.drop_first())
    }
}

/// What a pick line says: whether it is the viewing team's pick (a leading `*`) and the
/// player's name, once `#` comments and surrounding space are removed; `None` for a
/// line with no name.
pub open spec fn pick_line(line: Seq<char>) -> Option<(bool, Seq<char>)> {
    let t = trim(before_hash(line));
    if t.len() == 0 {
        None
    } else {
        let (mine, name) = if t[0] == '*' { (true, trim(t.drop_first())) } else { (false, t) };
        if name.len() == 0 { None } else { Some((mine, name)) }
    }
}

/// Split a pick line into its "is this mine" marker and the player name.
pub fn parse_pick_line(line: &str) -> (out: Option<(bool, String)>)
    ensures
        match pick_line(line@) {
            Some((mine, name)) => out matches Some((m, n)) && m == mine && n@ == name,
            None => out is None,
        },
{
    let chars = chars_of(line);
    let mut head: Vec<char> = Vec::new();
    let mut i: usize = 0;
    proof {
        assert(chars@.skip(0) =~= chars@);
        assert(head@ + before_hash(chars@) =~= before_hash(chars@));
    }
    while i < chars.len() && chars[i] != '#'
        invariant
            i <= chars@.len(),
            head@ == chars@.take(i as int),
            before_hash(line@) == head@ + before_hash(chars@.skip(i as int)),
        decreases chars@.len() - i,
    {
        proof {
            let rest = chars@.skip(i as int);
            assert(rest.drop_first() =~= chars@.skip(i + 1));
            assert(before_hash(rest) == seq![rest[0]] + before_hash(rest.drop_first()));
            assert(head@.push(chars@[i as int]) + before_hash(chars@.skip(i + 1)) =~= head@ + before_hash(rest));
        }
        head.push(chars[i]);
        i = i + 1;
        proof {
            assert(head@ =~= chars@.take(i as int));
        }
    }
    proof {
        assert(chars@.skip(0) =~= chars@);
        if i < chars@.len() {
            assert(chars@.skip(i as int)[0] == '#');
        } else {
            assert(chars@.skip(i as int) =~= Seq::<char>::empty());
        }
        assert(head@ + Seq::<char>::empty() =~= head@);
    }
    let t = trim_chars(&head);
    if t.len() == 0 {
        return None;
    }
    let (mine, name) = if t[0] == '*' {
        let mut rest: Vec<char> = Vec::new();
        let mut k: usize = 1;
        while k < t.len()
            invariant
                1 <= k <= t@.len(),
                rest@ =~= t@.subrange(1, k as int),
            decreases t@.len() - k,
        {
            rest.push(t[k]);
            k = k + 1;
        }
        proof {
            assert(t@.subrange(1, t@.len() as int) =~= t@.drop_first());
        }
        (true, trim_chars(&rest))
    } else {
        (false, t)
    };
    if name.len() == 0 {
        None
    } else {
        Some((mine, string_of(&name)))
    }
}

} // verus!

verus! {

/// Whether a pool entry's name contains `needle` (both lower-cased).
pub open spec fn name_matches(p: ScoredPlayer, needle: Seq<char>) -> bool {
    p.full_name matches Some(n) && contains_seq(lowercase(n@), needle)
}

/// The indices of the pool entries whose name contains `needle`, in pool order.
pub open spec fn name_hits(scored: Seq<ScoredPlayer>, needle: Seq<char>) -> Seq<int>
    decreases scored.len(),
{
    if scored.len() == 0 {
        seq![]
    } else if name_matches(scored.last(), needle) {
        name_hits(scored.drop_last(), needle).push(scored.len() - 1)
    } else {
        name_hits(scored.drop_last(), needle)
    }
}


/// What a typed name resolves to: the one player whose name contains it, or a message
/// saying that none or several do (naming up to four of them).
pub open spec fn resolution(name: Seq<char>, scored: Seq<ScoredPlayer>) -> Result<PlayerId, Seq<char>> {
    let hits = name_hits(scored, lowercase(name));
    if hits.len() == 1 {
        Ok(PlayerId(scored[hits[0]].player_id))
    } else if hits.len() == 0 {
        Err(name + " (no match)"@)
    } else {
        let shown = if hits.len() < 4 { hits.len() } else { 4 };
        Err(name + " (matches "@ + crate::text::join_with(
            Seq::new(shown as nat, |k: int| scored[hits[k]].full_name->0@),
            ", "@,
        ) + ")"@)
    }
}

proof fn lemma_name_hits_bounds(scored: Seq<ScoredPlayer>, needle: Seq<char>)
    ensures
        forall|k: int| 0 <= k < name_hits(scored, needle).len() ==> 0 <= #[trigger] name_hits(scored, needle)[k] < scored.len()
            && name_matches(scored[name_hits(scored, needle)[k]], needle),
        name_hits(scored, needle).len() <= scored.len(),
    decreases scored.len(),
{
    if scored.len() > 0 {
        lemma_name_hits_bounds(scored.drop_last(), needle);
        let prev = name_hits(scored.drop_last(), needle);
        assert forall|k: int| 0 <= k < prev.len() implies scored.drop_last()[prev[k]] == scored[prev[k]] by {}
    }
}

proof fn lemma_name_hits_none(scored: Seq<ScoredPlayer>, needle: Seq<char>)
    requires
        forall|j: int| 0 <= j < scored.len() ==> !name_matches(#[trigger] scored[j], needle),
    ensures
        name_hits(scored, needle).len() == 0,
    decreases scored.len(),
{
    if scored.len() > 0 {
        let d = scored.drop_last();
        assert forall|j: int| 0 <= j < d.len() implies !name_matches(#[trigger] d[j], needle) by {
            assert(d[j] == scored[j]);
        }
        lemma_name_hits_none(d, needle);
        assert(!name_matches(scored[scored.len() - 1], needle));
    }
}

proof fn lemma_name_hits_single(scored: Seq<ScoredPlayer>, needle: Seq<char>, i: int)
    requires
        0 <= i < scored.len(),
        name_matches(scored[i], needle),
        forall|j: int| 0 <= j < scored.len() && j != i ==> !name_matches(#[trigger] scored[j], needle),
    ensures
        name_hits(scored, needle) == seq![i],
    decreases scored.len(),
{
    let d = scored.drop_last();
    if i == scored.len() - 1 {
        assert forall|j: int| 0 <= j < d.len() implies !name_matches(#[trigger] d[j], needle) by {
            assert(d[j] == scored[j]);
        }
        lemma_name_hits_none(d, needle);
        assert(name_hits(scored, needle) =~= seq![i]);
    } else {
        assert(d[i] == scored[i]);
        assert forall|j: int| 0 <= j < d.len() && j != i implies !name_matches(#[trigger] d[j], needle) by {
            assert(d[j] == scored[j]);
        }
        lemma_name_hits_single(d, needle, i);
        assert(!name_matches(scored[scored.len() - 1], needle));
    }
}

/// Player `i` has a full name, and no other pool player's name contains it, letter case
/// aside.
pub open spec fn sole_name_holder(scored: Seq<ScoredPlayer>, i: int) -> bool {
    &&& scored[i].full_name is Some
    &&& forall|j: int| 0 <= j < scored.len() && j != i && (#[trigger] scored[j]).full_name is Some
        ==> !contains_seq(lowercase(scored[j].full_name->0@), lowercase(scored[i].full_name->0@))
}

/// A pool player's own full name, typed as it is written, resolves to that player
/// whenever no other player's name contains it, letter case aside.
pub proof fn lemma_full_name_resolves_to_its_player(scored: Seq<ScoredPlayer>, i: int)
    requires
        0 <= i < scored.len(),
        sole_name_holder(scored, i),
    ensures
        resolution(scored[i].full_name->0@, scored) == Ok::<PlayerId, Seq<char>>(PlayerId(scored[i].player_id)),
{
    let low = lowercase(scored[i].full_name->0@);
    assert(low.subrange(0, low.len() as int) =~= low);
    assert(crate::text::occurs_at(low, low, 0));
    assert(name_matches(scored[i], low));
    lemma_name_hits_single(scored, low, i);
}

/// Resolution ignores the letter case of the typed name: two names with the same
/// lower-case form both fail or both resolve, and to the same player.
pub proof fn lemma_resolution_ignores_case(a: Seq<char>, b: Seq<char>, scored: Seq<ScoredPlayer>)
    requires
        lowercase(a) == lowercase(b),
    ensures
        resolution(a, scored) is Ok <==> resolution(b, scored) is Ok,
        resolution(a, scored) is Ok ==> resolution(a, scored) == resolution(b, scored),
{
}

/// Indices of pool entries whose name contains `needle`.
fn hits_for(scored: &[ScoredPlayer], needle: &Vec<char>) -> (out: Vec<usize>)
    ensures
        out@.map_values(|i: usize| i as int) == name_hits(scored@, needle@),
{
    let mut out: Vec<usize> = Vec::new();
    let mut i: usize = 0;
    while i < scored.len()
        invariant
            i <= scored@.len(),
            out@.map_values(|i: usize| i as int) == name_hits(scored@.take(i as int), needle@),
        decreases scored@.len() - i,
    {
        proof {
            assert(scored@.take(i + 1).drop_last() =~= scored@.take(i as int));
            assert(scored@.take(i + 1).last() == scored@[i as int]);
        }
        let hit = match &scored[i].full_name {
            Some(n) => contains_chars(&lowercase_chars(&chars_of(n.as_str())), needle),
            None => false,
        };
        if hit {
            let ghost before = out@;
            out.push(i);
            proof {
                assert(out@.map_values(|i: usize| i as int) =~= before.map_values(|i: usize| i as int).push(i as int));
            }
        }
        i = i + 1;
    }
    proof {
        assert(scored@.take(i as int) =~= scored@);
    }
    out
}

/// Resolve one typed name to a single player in the pool.
///
/// Matching is case-insensitive on any substring, so "gibbs" is enough. An ambiguous name
/// is rejected rather than guessed: taking the wrong player off the board mid-draft is
/// worse than being asked to be more specific.
pub fn resolve_pick_name(name: &str, scored: &[ScoredPlayer]) -> (out: Result<PlayerId, String>)
    ensures
        match resolution(name@, scored@) {
            Ok(id) => out == Ok::<PlayerId, String>(id),
            Err(msg) => out matches Err(m) && m@ == msg,
        },
        forall|i: int| 0 <= i < scored@.len() && #[trigger] sole_name_holder(scored@, i)
            && scored@[i].full_name->0@ == name@ ==> out == Ok::<PlayerId, String>(PlayerId(scored@[i].player_id)),
{
    proof {
        assert forall|i: int| 0 <= i < scored@.len() && #[trigger] sole_name_holder(scored@, i)
            && scored@[i].full_name->0@ == name@ implies resolution(name@, scored@) == Ok::<PlayerId, Seq<char>>(
            PlayerId(scored@[i].player_id),
        ) by {
            lemma_full_name_resolves_to_its_player(scored@, i);
        }
    }
    let needle = lowercase_chars(&chars_of(name));
    let hits = hits_for(scored, &needle);
    proof {
        lemma_name_hits_bounds(scored@, needle@);
        assert forall|k: int| 0 <= k < hits@.len() implies hits@[k] as int == name_hits(scored@, needle@)[k] by {
            assert(hits@.map_values(|i: usize| i as int)[k] == hits@[k] as int);
        }
    }
    let mut msg = chars_of(name);
    if hits.len() == 1 {
        return Ok(PlayerId::new(scored[hits[0]].player_id));
    } else if hits.len() == 0 {
        append_chars(&mut msg, &text(" (no match)"));
        return Err(string_of(&msg));
    }
    let shown: usize = if hits.len() < 4 { hits.len() } else { 4 };
    let ghost names = Seq::new(shown as nat, |k: int| scored@[name_hits(scored@, needle@)[k]].full_name->0@);
    let mut parts: Vec<Vec<char>> = Vec::new();
    let mut k: usize = 0;
    while k < shown
        invariant
            k <= shown <= hits@.len(),
            shown == (if hits@.len() < 4 { hits@.len() } else { 4 }),
            forall|j: int| 0 <= j < hits@.len() ==> #[trigger] hits@[j] as int == name_hits(scored@, needle@)[j],
            forall|j: int| 0 <= j < hits@.len() ==> 0 <= #[trigger] name_hits(scored@, needle@)[j] < scored@.len()
                && name_matches(scored@[name_hits(scored@, needle@)[j]], needle@),
            names == Seq::new(shown as nat, |k: int| scored@[name_hits(scored@, needle@)[k]].full_name->0@),
            char_views(parts@) == names.take(k as int),
        decreases shown - k,
    {
        let idx = hits[k];
        let n = match &scored[idx].full_name {
            Some(n) => chars_of(n.as_str()),
            None => Vec::new(),
        };
        let ghost before = char_views(parts@);
        parts.push(n);
        proof {
            assert(char_views(parts@) =~= before.push(names[k as int]));
            assert(names.take(k + 1) =~= names.take(k as int).push(names[k as int]));
        }
        k = k + 1;
    }
    proof {
        assert(names.take(k as int) =~= names);
    }
    append_chars(&mut msg, &text(" (matches "));
    append_chars(&mut msg, &crate::text::join_chars(&parts, &text(", ")));
    append_chars(&mut msg, &text(")"));
    Err(string_of(&msg))
}

/// The picks and unresolved lines a pick file's lines give.
pub open spec fn taken_from_lines(lines: Seq<Seq<char>>, scored: Seq<ScoredPlayer>) -> (Seq<(PlayerId, bool)>, Seq<Seq<char>>)
    decreases lines.len(),
{
    if lines.len() == 0 {
        (seq![], seq![])
    } else {
        let (p, u) = taken_from_lines(lines.drop_last(), scored);
        match pick_line(lines.last()) {
            None => (p, u),
            Some((mine, name)) => match resolution(name, scored) {
                Ok(id) => (p.push((id, mine)), u),
                Err(msg) => (p, u.push(msg)),
            },
        }
    }
}

/// Parse a pick file into resolved picks.
///
/// One name per line in pick order; `#` comments and blank lines are skipped, and a
/// leading `*` marks the line as the viewing team's own pick.
pub fn parse_taken_file(contents: &str, scored: &[ScoredPlayer]) -> (out: FilePicks)
    ensures
        out.picks@ == taken_from_lines(crate::text::text_lines(contents@), scored@).0,
        string_views(out.unmatched@) == taken_from_lines(crate::text::text_lines(contents@), scored@).1,
{
    let lines = crate::text::lines_chars(&chars_of(contents));
    let ghost all = char_views(lines@);
    let mut picks = FilePicks::new();
    let mut i: usize = 0;
    while i < lines.len()
        invariant
            i <= lines@.len(),
            all == char_views(lines@),
            picks.picks@ == taken_from_lines(all.take(i as int), scored@).0,
            string_views(picks.unmatched@) == taken_from_lines(all.take(i as int), scored@).1,
        decreases lines@.len() - i,
    {
        proof {
            assert(all.take(i + 1).drop_last() =~= all.take(i as int));
            assert(all.take(i + 1).last() == lines@[i as int]@);
        }
        let line = string_of(&lines[i]);
        match parse_pick_line(line.as_str()) {
            Some((mine, name)) => match resolve_pick_name(name.as_str(), scored) {
                Ok(id) => {
                    picks.picks.push((id, mine));
                },
                Err(problem) => {
                    let ghost before = string_views(picks.unmatched@);
                    let ghost pv = problem@;
                    picks.unmatched.push(problem);
                    proof {
                        assert(string_views(picks.unmatched@) =~= before.push(pv));
                    }
                },
            },
            None => {},
        }
        i = i + 1;
    }
    proof {
        assert(all.take(i as int) =~= all);
    }
    picks
}

} // verus!

verus! {

/// The positions in a pick list whose player's name contains `needle` (lower-cased).
pub open spec fn pick_hits(picks: Seq<(PlayerId, bool)>, scored: Seq<ScoredPlayer>, needle: Seq<char>) -> Seq<int>
    decreases picks.len(),
{
    if picks.len() == 0 {
        seq![]
    } else if contains_seq(lowercase(name_of(scored, picks.last().0)), needle) {
        pick_hits(picks.drop_last(), scored, needle).push(picks.len() - 1)
    } else {
        pick_hits(picks.drop_last(), scored, needle)
    }
}

proof fn lemma_pick_hits_bounds(picks: Seq<(PlayerId, bool)>, scored: Seq<ScoredPlayer>, needle: Seq<char>)
    ensures
        forall|k: int| 0 <= k < pick_hits(picks, scored, needle).len() ==> 0 <= #[trigger] pick_hits(picks, scored, needle)[k] < picks.len(),
        pick_hits(picks, scored, needle).len() <= picks.len(),
    decreases picks.len(),
{
    if picks.len() > 0 {
        lemma_pick_hits_bounds(picks.drop_last(), scored, needle);
    }
}

/// What removing a pick by name does: the index of the one recorded pick whose player's
/// name contains the text, or the message explaining why nothing was removed.
pub open spec fn removal(picks: Seq<(PlayerId, bool)>, scored: Seq<ScoredPlayer>, name: Seq<char>) -> Result<int, Seq<char>> {
    if name.len() == 0 {
        Err("give a name, e.g. `undo mccaffrey`"@)
    } else {
        let hits = pick_hits(picks, scored, lowercase(name));
        if hits.len() == 1 {
            Ok(hits[0])
        } else if hits.len() == 0 {
            Err(name + " is not among the picks recorded"@)
        } else {
            Err(name + " matches "@ + crate::text::join_with(
                Seq::new(hits.len(), |k: int| name_of(scored, picks[hits[k]].0)),
                ", "@,
            ))
        }
    }
}

/// Remove one already-recorded pick by name, putting the player back on the board.
///
/// The name is matched against the picks made rather than the whole pool, so a shorthand
/// that would be hopelessly ambiguous across the pool usually resolves cleanly against
/// the few dozen drafted.
pub fn remove_pick_by_name(picks: &mut FilePicks, name: &str, scored: &[ScoredPlayer]) -> (out: Result<PlayerId, String>)
    ensures
        match removal(old(picks).picks@, scored@, name@) {
            Ok(i) => 0 <= i < old(picks).picks@.len() && out == Ok::<PlayerId, String>(old(picks).picks@[i].0)
                && final(picks).picks@ == old(picks).picks@.remove(i),
            Err(msg) => out matches Err(m) && m@ == msg && final(picks).picks@ == old(picks).picks@,
        },
        final(picks).unmatched@ == old(picks).unmatched@,
{
    let name_chars = chars_of(name);
    if name_chars.len() == 0 {
        return Err(string_of(&text("give a name, e.g. `undo mccaffrey`")));
    }
    let needle = lowercase_chars(&name_chars);
    let ghost all = picks.picks@;
    let mut hits: Vec<usize> = Vec::new();
    let mut i: usize = 0;
    while i < picks.picks.len()
        invariant
            i <= all.len(),
            all == picks.picks@,
            hits@.map_values(|i: usize| i as int) == pick_hits(all.take(i as int), scored@, needle@),
        decreases all.len() - i,
    {
        proof {
            assert(all.take(i + 1).drop_last() =~= all.take(i as int));
            assert(all.take(i + 1).last() == all[i as int]);
        }
        let pname = player_name(scored, picks.picks[i].0);
        if contains_chars(&lowercase_chars(&chars_of(pname.as_str())), &needle) {
            let ghost before = hits@;
            hits.push(i);
            proof {
                assert(hits@.map_values(|i: usize| i as int) =~= before.map_values(|i: usize| i as int).push(i as int));
            }
        }
        i = i + 1;
    }
    proof {
        assert(all.take(i as int) =~= all);
        lemma_pick_hits_bounds(all, scored@, needle@);
        assert forall|k: int| 0 <= k < hits@.len() implies hits@[k] as int == pick_hits(all, scored@, needle@)[k] by {
            assert(hits@.map_values(|i: usize| i as int)[k] == hits@[k] as int);
        }
    }
    if hits.len() == 1 {
        let removed = picks.picks.remove(hits[0]);
        return Ok(removed.0);
    }
    let mut msg = chars_of(name);
    if hits.len() == 0 {
        append_chars(&mut msg, &text(" is not among the picks recorded"));
        return Err(string_of(&msg));
    }
    let ghost names = Seq::new(hits@.len(), |k: int| name_of(scored@, all[pick_hits(all, scored@, needle@)[k]].0));
    let mut parts: Vec<Vec<char>> = Vec::new();
    let mut k: usize = 0;
    while k < hits.len()
        invariant
            k <= hits@.len(),
            all == picks.picks@,
            forall|j: int| 0 <= j < hits@.len() ==> #[trigger] hits@[j] as int == pick_hits(all, scored@, needle@)[j],
            forall|j: int| 0 <= j < hits@.len() ==> 0 <= #[trigger] pick_hits(all, scored@, needle@)[j] < all.len(),
            names == Seq::new(hits@.len(), |k: int| name_of(scored@, all[pick_hits(all, scored@, needle@)[k]].0)),
            char_views(parts@) == names.take(k as int),
        decreases hits@.len() - k,
    {
        let n = player_name(scored, picks.picks[hits[k]].0);
        let ghost before = char_views(parts@);
        parts.push(chars_of(n.as_str()));
        proof {
            assert(char_views(parts@) =~= before.push(names[k as int]));
            assert(names.take(k + 1) =~= names.take(k as int).push(names[k as int]));
        }
        k = k + 1;
    }
    proof {
        assert(names.take(k as int) =~= names);
    }
    append_chars(&mut msg, &text(" matches "));
    append_chars(&mut msg, &crate::text::join_chars(&parts, &text(", ")));
    Err(string_of(&msg))
}

/// One line per recorded pick: its number right-aligned in three columns, the player's
/// name, and a marker on the viewing team's own picks.
pub open spec fn pick_listing_line(k: int, pick: (PlayerId, bool), scored: Seq<ScoredPlayer>) -> Seq<char> {
    "  "@ + crate::text::pad_left(decimal((k + 1) as nat), 3) + ". "@ + name_of(scored, pick.0) + if pick.1 {
        "  <- yours"@
    } else {
        Seq::<char>::empty()
    }
}

/// The pick listing shown by `list`.
pub open spec fn pick_listing(picks: Seq<(PlayerId, bool)>, scored: Seq<ScoredPlayer>) -> Seq<char> {
    if picks.len() == 0 {
        "No picks recorded yet."@
    } else {
        crate::text::join_with(Seq::new(picks.len(), |k: int| pick_listing_line(k, picks[k], scored)), "\n"@)
    }
}

/// One line per pick taken so far.
pub fn describe_picks(picks: &FilePicks, scored: &[ScoredPlayer]) -> (out: String)
    requires
        picks.picks@.len() < u64::MAX,
    ensures
        out@ == pick_listing(picks.picks@, scored@),
{
    if picks.picks.len() == 0 {
        return string_of(&text("No picks recorded yet."));
    }
    let ghost lines = Seq::new(picks.picks@.len(), |k: int| pick_listing_line(k, picks.picks@[k], scored@));
    let mut parts: Vec<Vec<char>> = Vec::new();
    let mut k: usize = 0;
    while k < picks.picks.len()
        invariant
            k <= picks.picks@.len() < u64::MAX,
            lines == Seq::new(picks.picks@.len(), |k: int| pick_listing_line(k, picks.picks@[k], scored@)),
            char_views(parts@) == lines.take(k as int),
        decreases picks.picks@.len() - k,
    {
        let (id, mine) = picks.picks[k];
        let mut line = text("  ");
        append_chars(&mut line, &crate::text::pad_left_chars(&u64_to_decimal(k as u64 + 1), 3));
        append_chars(&mut line, &text(". "));
        append_chars(&mut line, &chars_of(player_name(scored, id).as_str()));
        if mine {
            append_chars(&mut line, &text("  <- yours"));
        }
        proof {
            assert(line@ =~= pick_listing_line(k as int, picks.picks@[k as int], scored@));
        }
        let ghost before = char_views(parts@);
        let ghost lv = line@;
        parts.push(line);
        proof {
            assert(char_views(parts@) =~= before.push(lv));
            assert(lines.take(k + 1) =~= lines.take(k as int).push(lines[k as int]));
        }
        k = k + 1;
    }
    proof {
        assert(lines.take(k as int) =~= lines);
    }
    string_of(&crate::text::join_chars(&parts, &text("\n")))
}

/// `Team <id>` unless the draft knows the team, in which case its display name; `None`
/// for a slot without a team.
pub open spec fn team_name_for(draft: DraftResponse, team_id: Option<u32>) -> Option<Seq<char>> {
    match team_id {
        None => None,
        Some(id) => Some(
            if exists|i: int| 0 <= i < draft.teams@.len() && #[trigger] draft.teams@[i].id == id {
                let i = choose|i: int| 0 <= i < draft.teams@.len() && #[trigger] draft.teams@[i].id == id
                    && forall|j: int| 0 <= j < i ==> #[trigger] draft.teams@[j].id != id;
                crate::espn::types::team_label_of(draft.teams@[i])
            } else {
                crate::espn::types::team_fallback_label(id)
            },
        ),
    }
}

/// Name for the team owning a pick slot, when ESPN has assigned one.
///
/// Auction drafts leave every unmade slot unassigned, so this is routinely `None`.
pub fn team_label(draft: &DraftResponse, team_id: Option<u32>) -> (out: Option<String>)
    ensures
        match team_name_for(*draft, team_id) {
            Some(n) => out matches Some(s) && s@ == n,
            None => out is None,
        },
{
    match team_id {
        None => None,
        Some(id) => match draft.team(id) {
            Some(t) => {
                proof {
                    let i = choose|i: int| 0 <= i < draft.teams@.len() && draft.teams@[i] == *t && draft.teams@[i].id == id
                        && forall|j: int| 0 <= j < i ==> #[trigger] draft.teams@[j].id != id;
                    let c = choose|c: int| 0 <= c < draft.teams@.len() && #[trigger] draft.teams@[c].id == id
                        && forall|j: int| 0 <= j < c ==> #[trigger] draft.teams@[j].id != id;
                    if c < i {
                        assert(draft.teams@[c].id != id);
                    } else if i < c {
                        assert(draft.teams@[i].id != id);
                    }
                }
                Some(t.display_name())
            },
            None => Some(crate::espn::types::team_fallback(id)),
        },
    }
}

/// A status message shortened to its first 60 characters.
pub open spec fn shortened(text: Seq<char>) -> Seq<char> {
    if text.len() > 60 { text.take(60) + "..."@ } else { text }
}

/// One-line form of an error message, for a status line.
pub fn short_reason(error_text: &str) -> (out: String)
    ensures
        out@ == shortened(error_text@),
{
    let chars = chars_of(error_text);
    if chars.len() > 60 {
        let mut cut: Vec<char> = Vec::new();
        let mut i: usize = 0;
        while i < 60
            invariant
                i <= 60 < chars@.len(),
                cut@ =~= chars@.take(i as int),
            decreases 60 - i,
        {
            cut.push(chars[i]);
            i = i + 1;
        }
        append_chars(&mut cut, &text("..."));
        string_of(&cut)
    } else {
        string_of(&chars)
    }
}

/// A screen frame that overwrites the previous one in place: the cursor is homed, each
/// line is followed by a clear-to-end-of-line, and rows the old frame used beyond this
/// one are dropped at the very end.
pub open spec fn repaint_text(screen: Seq<char>) -> Seq<char> {
    "\x1b[H"@ + crate::text::join_with(
        crate::text::text_lines(screen).map_values(|l: Seq<char>| l + "\x1b[K\n"@),
        Seq::<char>::empty(),
    ) + "\x1b[J"@
}

/// The bytes that redraw the screen in place, without a clear-then-draw flash.
pub fn repaint_frame(screen: &str) -> (out: String)
    ensures
        out@ == repaint_text(screen@),
{
    let lines = crate::text::lines_chars(&chars_of(screen));
    let ghost all = char_views(lines@);
    let ghost framed = all.map_values(|l: Seq<char>| l + "\x1b[K\n"@);
    let mut parts: Vec<Vec<char>> = Vec::new();
    let mut k: usize = 0;
    while k < lines.len()
        invariant
            k <= lines@.len(),
            all == char_views(lines@),
            framed == all.map_values(|l: Seq<char>| l + "\x1b[K\n"@),
            char_views(parts@) == framed.take(k as int),
        decreases lines@.len() - k,
    {
        let mut line = chars_of(string_of(&lines[k]).as_str());
        append_chars(&mut line, &text("\x1b[K\n"));
        let ghost before = char_views(parts@);
        let ghost lv = line@;
        parts.push(line);
        proof {
            assert(lv == framed[k as int]);
            assert(char_views(parts@) =~= before.push(lv));
            assert(framed.take(k + 1) =~= framed.take(k as int).push(framed[k as int]));
        }
        k = k + 1;
    }
    proof {
        assert(framed.take(k as int) =~= framed);
    }
    let mut out = text("\x1b[H");
    append_chars(&mut out, &crate::text::join_chars(&parts, &Vec::new()));
    append_chars(&mut out, &text("\x1b[J"));
    string_of(&out)
}

/// The bytes that paint `text` on the reserved top line without moving the cursor.
pub fn status_line_frame(line: &str) -> (out: String)
    ensures
        out@ == "\x1b[s\x1b[1;1H\x1b[K"@ + line@ + "\x1b[u"@,
{
    let mut out = text("\x1b[s\x1b[1;1H\x1b[K");
    append_chars(&mut out, &chars_of(line));
    append_chars(&mut out, &text("\x1b[u"));
    string_of(&out)
}

} // verus!

verus! {

/// The pick list after a feed event: a pick or sale of a player not yet recorded is
/// appended (as ours when our team made it), an undo drops the last pick, and nothing
/// else changes it.
pub open spec fn picks_after(event: DraftEvent, picks: Seq<(PlayerId, bool)>, my_team_id: u32) -> Seq<(PlayerId, bool)> {
    match event {
        DraftEvent::Selected { team_id, player_id, .. } => if picked(picks).contains(player_id) {
            picks
        } else {
            picks.push((player_id, team_id == my_team_id))
        },
        DraftEvent::Sold { team_id, player_id, .. } => if picked(picks).contains(player_id) {
            picks
        } else {
            picks.push((player_id, team_id == my_team_id))
        },
        DraftEvent::Undone { .. } => if picks.len() > 0 { picks.drop_last() } else { picks },
        _ => picks,
    }
}

/// The line shown for a pick recorded as number `n`.
pub open spec fn pick_note(n: nat, name: Seq<char>, mine: bool) -> Seq<char> {
    "Pick "@ + decimal(n) + ": "@ + name + if mine { "  <- YOURS"@ } else { Seq::<char>::empty() }
}

/// The line a feed event is worth showing, if any: a new pick, an undo, our own turn on
/// the clock (sent in milliseconds), our session being taken over, or a feed error.
pub open spec fn event_note(event: DraftEvent, picks: Seq<(PlayerId, bool)>, my_team_id: u32, scored: Seq<ScoredPlayer>) -> Option<Seq<char>> {
    match event {
        DraftEvent::Selected { team_id, player_id, .. } => if picked(picks).contains(player_id) {
            None
        } else {
            Some(pick_note((picks.len() + 1) as nat, name_of(scored, player_id), team_id == my_team_id))
        },
        DraftEvent::Sold { team_id, player_id, .. } => if picked(picks).contains(player_id) {
            None
        } else {
            Some(pick_note((picks.len() + 1) as nat, name_of(scored, player_id), team_id == my_team_id))
        },
        DraftEvent::Undone { .. } => if picks.len() > 0 {
            Some("Undone: "@ + name_of(scored, picks.last().0) + " is back on the board"@)
        } else {
            None
        },
        DraftEvent::Selecting { team_id, seconds } => if team_id == my_team_id {
            Some(">>> YOU ARE ON THE CLOCK — "@ + decimal((if seconds > 0 { seconds } else { 0 }) as nat / 1000) + "s <<<"@)
        } else {
            None
        },
        DraftEvent::Left { team_id, reason } => if team_id == my_team_id && reason == LEFT_REASON_DISPLACED {
            Some("!! Another client took over your draft session — picks are no longer being sent from here."@)
        } else {
            None
        },
        DraftEvent::Error { message } => Some("Feed error: "@ + message@),
        _ => None,
    }
}

/// Whether a feed event records a pick (a snake selection or an auction sale).
pub open spec fn is_pick_event(e: DraftEvent) -> bool {
    e is Selected || e is Sold
}

/// The player a pick event names.
pub open spec fn event_player(e: DraftEvent) -> PlayerId {
    match e {
        DraftEvent::Selected { player_id, .. } => player_id,
        DraftEvent::Sold { player_id, .. } => player_id,
        _ => PlayerId(0),
    }
}

/// Whether no player occurs twice in a pick list.
pub open spec fn no_repeats(picks: Seq<(PlayerId, bool)>) -> bool {
    forall|i: int, j: int| 0 <= i < j < picks.len() ==> #[trigger] picks[i].0 != #[trigger] picks[j].0
}

/// ESPN can repeat a message on reconnect: a pick event seen a second time changes nothing
/// and is not announced again.
pub proof fn lemma_repeated_pick_is_ignored(
    e: DraftEvent,
    picks: Seq<(PlayerId, bool)>,
    my_team_id: u32,
    scored: Seq<ScoredPlayer>,
)
    requires
        is_pick_event(e),
    ensures
        picks_after(e, picks_after(e, picks, my_team_id), my_team_id) == picks_after(e, picks, my_team_id),
        event_note(e, picks_after(e, picks, my_team_id), my_team_id, scored) is None,
{
    let after = picks_after(e, picks, my_team_id);
    let id = event_player(e);
    if !picked(picks).contains(id) {
        let mine = match e {
            DraftEvent::Selected { team_id, .. } => team_id == my_team_id,
            DraftEvent::Sold { team_id, .. } => team_id == my_team_id,
            _ => false,
        };
        assert(after == picks.push((id, mine)));
        assert(picked(after)[picks.len() as int] == id);
        assert(picked(after).contains(id));
    }
}

/// Undoing right after a new pick puts the board back as it was.
pub proof fn lemma_undo_reverses_a_new_pick(
    e: DraftEvent,
    undo: DraftEvent,
    picks: Seq<(PlayerId, bool)>,
    my_team_id: u32,
)
    requires
        is_pick_event(e),
        !picked(picks).contains(event_player(e)),
        undo is Undone,
    ensures
        picks_after(undo, picks_after(e, picks, my_team_id), my_team_id) == picks,
{
    let after = picks_after(e, picks, my_team_id);
    assert(after.len() == picks.len() + 1);
    assert(after.drop_last() =~= picks);
}

/// The feed never puts a player on the pick list twice: folding any event into a list
/// without repeats leaves a list without repeats.
pub proof fn lemma_live_events_keep_picks_distinct(
    e: DraftEvent,
    picks: Seq<(PlayerId, bool)>,
    my_team_id: u32,
)
    requires
        no_repeats(picks),
    ensures
        no_repeats(picks_after(e, picks, my_team_id)),
{
    let after = picks_after(e, picks, my_team_id);
    if is_pick_event(e) && !picked(picks).contains(event_player(e)) {
        let id = event_player(e);
        assert forall|i: int, j: int| 0 <= i < j < after.len() implies #[trigger] after[i].0 != #[trigger] after[j].0 by {
            if j == picks.len() {
                assert(after[i] == picks[i]);
                assert(picked(picks)[i] == picks[i].0);
                if after[i].0 == id {
                    assert(picked(picks).contains(id));
                }
            } else {
                assert(after[i] == picks[i] && after[j] == picks[j]);
            }
        }
    } else if undo_event(e) && picks.len() > 0 {
        assert forall|i: int, j: int| 0 <= i < j < after.len() implies #[trigger] after[i].0 != #[trigger] after[j].0 by {
            assert(after[i] == picks[i] && after[j] == picks[j]);
        }
    }
}

/// Whether a feed event takes back the last pick.
pub open spec fn undo_event(e: DraftEvent) -> bool {
    e is Undone
}

fn record_pick(picks: &mut FilePicks, team_id: u32, player_id: PlayerId, my_team_id: u32, scored: &[ScoredPlayer]) -> (out: Option<String>)
    requires
        old(picks).picks@.len() < usize::MAX,
    ensures
        final(picks).picks@ == (if picked(old(picks).picks@).contains(player_id) {
            old(picks).picks@
        } else {
            old(picks).picks@.push((player_id, team_id == my_team_id))
        }),
        final(picks).unmatched@ == old(picks).unmatched@,
        match out {
            Some(s) => !picked(old(picks).picks@).contains(player_id) && s@ == pick_note(
                (old(picks).picks@.len() + 1) as nat,
                name_of(scored@, player_id),
                team_id == my_team_id,
            ),
            None => picked(old(picks).picks@).contains(player_id),
        },
{
    if picks.contains(player_id) {
        return None;
    }
    let mine = team_id == my_team_id;
    picks.picks.push((player_id, mine));
    let mut note = text("Pick ");
    append_chars(&mut note, &u64_to_decimal(picks.picks.len() as u64));
    append_chars(&mut note, &text(": "));
    append_chars(&mut note, &chars_of(player_name(scored, player_id).as_str()));
    if mine {
        append_chars(&mut note, &text("  <- YOURS"));
    }
    Some(string_of(&note))
}

/// Fold one feed event into the pick list, returning a line to show when it is worth one.
pub fn apply_live_event(event: DraftEvent, picks: &mut FilePicks, my_team_id: u32, scored: &[ScoredPlayer]) -> (out: Option<String>)
    requires
        old(picks).picks@.len() < usize::MAX,
    ensures
        final(picks).picks@ == picks_after(event, old(picks).picks@, my_team_id),
        final(picks).unmatched@ == old(picks).unmatched@,
        match event_note(event, old(picks).picks@, my_team_id, scored@) {
            Some(n) => out matches Some(s) && s@ == n,
            None => out is None,
        },
{
    match event {
        DraftEvent::Selected { team_id, player_id, .. } => record_pick(picks, team_id, player_id, my_team_id, scored),
        DraftEvent::Sold { team_id, player_id, .. } => record_pick(picks, team_id, player_id, my_team_id, scored),
        DraftEvent::Undone { .. } => match picks.picks.pop() {
            Some((id, _)) => {
                let mut note = text("Undone: ");
                append_chars(&mut note, &chars_of(player_name(scored, id).as_str()));
                append_chars(&mut note, &text(" is back on the board"));
                Some(string_of(&note))
            },
            None => None,
        },
        DraftEvent::Selecting { team_id, seconds } => {
            if team_id == my_team_id {
                let shown: u64 = if seconds > 0 { seconds as u64 } else { 0 };
                let mut note = text(">>> YOU ARE ON THE CLOCK — ");
                append_chars(&mut note, &u64_to_decimal(shown / 1000));
                append_chars(&mut note, &text("s <<<"));
                Some(string_of(&note))
            } else {
                None
            }
        },
        DraftEvent::Left { team_id, reason } => {
            if team_id == my_team_id && reason == LEFT_REASON_DISPLACED {
                Some(string_of(&text("!! Another client took over your draft session — picks are no longer being sent from here.")))
            } else {
                None
            }
        },
        DraftEvent::Error { message } => {
            let mut note = text("Feed error: ");
            append_chars(&mut note, &chars_of(message.as_str()));
            Some(string_of(&note))
        },
        _ => None,
    }
}

/// The picks of `prior` made by `my_team_id`.
pub open spec fn mine_of(prior: Seq<PriorPick>, my_team_id: u32) -> Seq<PriorPick>
    decreases prior.len(),
{
    if prior.len() == 0 {
        seq![]
    } else if prior.last().team_id == my_team_id {
        mine_of(prior.drop_last(), my_team_id).push(prior.last())
    } else {
        mine_of(prior.drop_last(), my_team_id)
    }
}

/// The names of the viewing team's recovered players, comma separated.
pub open spec fn roster_text(prior: Seq<PriorPick>, my_team_id: u32, scored: Seq<ScoredPlayer>) -> Seq<char> {
    crate::text::join_with(
        mine_of(prior, my_team_id).map_values(|p: PriorPick| name_of(scored, p.player_id)),
        ", "@,
    )
}

/// Names of the viewing team's recovered players, for confirming the snapshot read
/// correctly.
pub fn describe_roster(prior: &[PriorPick], my_team_id: u32, scored: &[ScoredPlayer]) -> (out: String)
    ensures
        out@ == roster_text(prior@, my_team_id, scored@),
{
    let mut parts: Vec<Vec<char>> = Vec::new();
    let mut i: usize = 0;
    while i < prior.len()
        invariant
            i <= prior@.len(),
            char_views(parts@) == mine_of(prior@.take(i as int), my_team_id).map_values(
                |p: PriorPick| name_of(scored@, p.player_id),
            ),
        decreases prior@.len() - i,
    {
        proof {
            assert(prior@.take(i + 1).drop_last() =~= prior@.take(i as int));
            assert(prior@.take(i + 1).last() == prior@[i as int]);
        }
        if prior[i].team_id == my_team_id {
            let n = player_name(scored, prior[i].player_id);
            let ghost before = char_views(parts@);
            let ghost nv = n@;
            parts.push(chars_of(n.as_str()));
            proof {
                assert(char_views(parts@) =~= before.push(nv));
                let m = mine_of(prior@.take(i as int), my_team_id);
                assert(m.push(prior@[i as int]).map_values(|p: PriorPick| name_of(scored@, p.player_id))
                    =~= m.map_values(|p: PriorPick| name_of(scored@, p.player_id)).push(nv));
            }
        }
        i = i + 1;
    }
    proof {
        assert(prior@.take(i as int) =~= prior@);
    }
    string_of(&crate::text::join_chars(&parts, &text(", ")))
}

/// The pick list after recovering `prior` from a snapshot: each recovered pick not yet
/// recorded is appended, in ESPN's roster order.
pub open spec fn seeded(picks: Seq<(PlayerId, bool)>, prior: Seq<PriorPick>, my_team_id: u32) -> Seq<(PlayerId, bool)>
    decreases prior.len(),
{
    if prior.len() == 0 {
        picks
    } else {
        let before = seeded(picks, prior.drop_last(), my_team_id);
        let p = prior.last();
        if picked(before).contains(p.player_id) {
            before
        } else {
            before.push((p.player_id, p.team_id == my_team_id))
        }
    }
}

/// Seeding from the join snapshot never puts a player on the pick list twice, and keeps
/// every pick already recorded, in place.
pub proof fn lemma_seeding_keeps_picks_distinct(picks: Seq<(PlayerId, bool)>, prior: Seq<PriorPick>, my_team_id: u32)
    requires
        no_repeats(picks),
    ensures
        no_repeats(seeded(picks, prior, my_team_id)),
        seeded(picks, prior, my_team_id).len() >= picks.len(),
        forall|i: int| 0 <= i < picks.len() ==> #[trigger] seeded(picks, prior, my_team_id)[i] == picks[i],
    decreases prior.len(),
{
    if prior.len() > 0 {
        lemma_seeding_keeps_picks_distinct(picks, prior.drop_last(), my_team_id);
        let before = seeded(picks, prior.drop_last(), my_team_id);
        let p = prior.last();
        if !picked(before).contains(p.player_id) {
            let after = before.push((p.player_id, p.team_id == my_team_id));
            assert forall|i: int, j: int| 0 <= i < j < after.len() implies #[trigger] after[i].0 != #[trigger] after[j].0 by {
                if j == before.len() {
                    assert(picked(before)[i] == before[i].0);
                    if after[i].0 == p.player_id {
                        assert(picked(before).contains(p.player_id));
                    }
                } else {
                    assert(after[i] == before[i] && after[j] == before[j]);
                }
            }
            assert forall|i: int| 0 <= i < picks.len() implies #[trigger] after[i] == picks[i] by {
                assert(after[i] == before[i]);
            }
        }
    }
}

/// The message reporting a recovery of `prior`.
pub open spec fn recovery_note(prior: Seq<PriorPick>, my_team_id: u32, scored: Seq<ScoredPlayer>) -> Seq<char> {
    if prior.len() == 0 {
        "No prior picks found in the snapshot — treating this as the start of the draft."@
    } else {
        let mine = mine_of(prior, my_team_id).len();
        "Recovered "@ + decimal(prior.len()) + " picks already made ("@ + decimal(mine) + " yours)"@ + if mine > 0 {
            ": "@ + roster_text(prior, my_team_id, scored)
        } else {
            Seq::<char>::empty()
        }
    }
}

/// The message for a snapshot that could not be read.
pub open spec fn unreadable_snapshot_note() -> Seq<char> {
    "!! Could not read the draft snapshot; picks made before now are missing."@
}

proof fn lemma_mine_len(prior: Seq<PriorPick>, my_team_id: u32)
    ensures
        mine_of(prior, my_team_id).len() <= prior.len(),
    decreases prior.len(),
{
    if prior.len() > 0 {
        lemma_mine_len(prior.drop_last(), my_team_id);
    }
}

/// Seed the pick list from the decoded join snapshot.
///
/// Recovery is best-effort. A snapshot that cannot be read, or that yields nothing, is
/// reported rather than passed off as an empty draft.
pub fn seed_from_bytes(
    decoded: Option<Vec<u8>>,
    picks: &mut FilePicks,
    league_id: LeagueId,
    my_team_id: u32,
    scored: &[ScoredPlayer],
) -> (out: String)
    requires
        old(picks).picks@.len() + 64 < usize::MAX,
    ensures
        final(picks).unmatched@ == old(picks).unmatched@,
        match decoded {
            Some(bytes) => if bytes@.len() + 64 <= usize::MAX {
                &&& final(picks).picks@ == seeded(old(picks).picks@, recovered_picks(bytes@, league_id.0), my_team_id)
                &&& out@ == recovery_note(recovered_picks(bytes@, league_id.0), my_team_id, scored@)
            } else {
                final(picks).picks@ == old(picks).picks@ && out@ == unreadable_snapshot_note()
            },
            None => final(picks).picks@ == old(picks).picks@ && out@ == unreadable_snapshot_note(),
        },
{
    let bytes = match decoded {
        Some(b) => b,
        None => return string_of(&text("!! Could not read the draft snapshot; picks made before now are missing.")),
    };
    if bytes.len() > usize::MAX - 64 {
        return string_of(&text("!! Could not read the draft snapshot; picks made before now are missing."));
    }
    let prior = recover_prior_picks(&bytes, league_id.as_u32());
    if prior.len() == 0 {
        return string_of(&text("No prior picks found in the snapshot — treating this as the start of the draft."));
    }
    let ghost start = picks.picks@;
    let mut mine: u64 = 0;
    let mut i: usize = 0;
    while i < prior.len()
        invariant
            i <= prior@.len(),
            start.len() + 64 < usize::MAX,
            picks.picks@ == seeded(start, prior@.take(i as int), my_team_id),
            picks.picks@.len() <= start.len() + i,
            mine == mine_of(prior@.take(i as int), my_team_id).len(),
            mine <= i,
            picks.unmatched@ == old(picks).unmatched@,
        decreases prior@.len() - i,
    {
        proof {
            assert(prior@.take(i + 1).drop_last() =~= prior@.take(i as int));
            assert(prior@.take(i + 1).last() == prior@[i as int]);
        }
        let p = prior[i];
        if !picks.contains(p.player_id) {
            picks.picks.push((p.player_id, p.team_id == my_team_id));
        }
        if p.team_id == my_team_id {
            mine = mine + 1;
        }
        i = i + 1;
    }
    proof {
        assert(prior@.take(i as int) =~= prior@);
    }
    let mut note = text("Recovered ");
    append_chars(&mut note, &u64_to_decimal(prior.len() as u64));
    append_chars(&mut note, &text(" picks already made ("));
    append_chars(&mut note, &u64_to_decimal(mine));
    append_chars(&mut note, &text(" yours)"));
    if mine > 0 {
        append_chars(&mut note, &text(": "));
        append_chars(&mut note, &chars_of(describe_roster(&prior, my_team_id, scored).as_str()));
    }
    string_of(&note)
}

/// What a base64 text decodes to under the standard alphabet with padding, or `None`
/// when it is not valid base64.
pub uninterp spec fn base64_decoded(text: Seq<char>) -> Option<Seq<u8>>;

/// `base64::engine::general_purpose::STANDARD.decode`: the bytes a standard, padded base64
/// text encodes, or `None` when the text is not valid base64.
#[verifier::external_body]
fn decode_base64(text: &str) -> (out: Option<Vec<u8>>)
    ensures
        match base64_decoded(text@) {
            Some(b) => out matches Some(v) && v@ == b,
            None => out is None,
        },
{
    base64::engine::general_purpose::STANDARD.decode(text).ok()
}

/// Seed the board from the snapshot ESPN sends on join.
///
/// Without this, joining a draft already underway starts from an empty board and every
/// player taken before we connected stays on it.
pub fn seed_from_snapshot(
    blob: &str,
    picks: &mut FilePicks,
    league_id: LeagueId,
    my_team_id: u32,
    scored: &[ScoredPlayer],
) -> (out: String)
    requires
        old(picks).picks@.len() + 64 < usize::MAX,
    ensures
        final(picks).unmatched@ == old(picks).unmatched@,
        match base64_decoded(blob@) {
            Some(bytes) => if bytes.len() + 64 <= usize::MAX {
                &&& final(picks).picks@ == seeded(old(picks).picks@, recovered_picks(bytes, league_id.0), my_team_id)
                &&& out@ == recovery_note(recovered_picks(bytes, league_id.0), my_team_id, scored@)
            } else {
                final(picks).picks@ == old(picks).picks@ && out@ == unreadable_snapshot_note()
            },
            None => final(picks).picks@ == old(picks).picks@ && out@ == unreadable_snapshot_note(),
        },
{
    let decoded = decode_base64(blob);
    seed_from_bytes(decoded, picks, league_id, my_team_id, scored)
}

} // verus!

verus! {

/// One row of the draft board.
#[derive(Debug, Clone)]
pub struct DraftBoardEntry {
    pub player_id: PlayerId,
    pub name: String,
    pub position: Position,
    /// Season projection scored under this league's settings, in tenths.
    pub projected_points: i64,
    /// Tenths of a point above the replacement-level player at this position.
    pub value_over_replacement: i128,
    /// Rank by value over replacement, 1-based.
    pub value_rank: usize,
    /// ESPN's average draft position, in tenths, when published.
    pub average_draft_position: Option<i64>,
    /// Average auction value, in tenths, when published.
    pub auction_value: Option<i64>,
    /// `average_draft_position - value_rank`, in tenths. Positive means the player is
    /// typically drafted later than this board values them, i.e. a bargain.
    pub adp_delta: Option<i128>,
    /// Bye week, inferred from the gap in ESPN's weekly projections.
    pub bye_week: Option<u16>,
    /// True when the player has already been taken.
    pub drafted: bool,
    /// Fantasy team that drafted the player, when known.
    pub drafted_by: Option<String>,
}

/// A player's value over the replacement level at their position, rounded to tenths.
pub open spec fn vor_of(p: ScoredPlayer, levels: crate::espn::vor::ReplacementLevels) -> int {
    crate::text::tenths_of_millionths(p.points - match crate::espn::vor::entry_for(levels.replacement_points@, p.position) {
        Some(v) => v as int,
        None => 0,
    })
}

/// `x` (an index into `scored`) placed after every index whose value is not lower.
pub open spec fn insert_ranked(s: Seq<int>, x: int, scored: Seq<ScoredPlayer>, levels: crate::espn::vor::ReplacementLevels) -> Seq<int>
    decreases s.len(),
{
    if s.len() == 0 {
        seq![x]
    } else if vor_of(scored[x], levels) > vor_of(scored[s.last()], levels) {
        insert_ranked(s.drop_last(), x, scored, levels).push(s.last())
    } else {
        s.push(x)
    }
}

/// The first `n` pool indices, stably ordered by value over replacement, best first.
pub open spec fn rank_order(n: nat, scored: Seq<ScoredPlayer>, levels: crate::espn::vor::ReplacementLevels) -> Seq<int>
    decreases n,
{
    if n == 0 {
        seq![]
    } else {
        insert_ranked(rank_order((n - 1) as nat, scored, levels), n - 1, scored, levels)
    }
}

/// The team that drafted `id`, from the last completed pick that took the player and
/// carries a team.
pub open spec fn drafting_team(picks: Seq<DraftPick>, id: i64) -> Option<u32>
    decreases picks.len(),
{
    if picks.len() == 0 {
        None
    } else if crate::espn::draft::pick_made(picks.last()) && picks.last().player_id == id && picks.last().team_id is Some {
        picks.last().team_id
    } else {
        drafting_team(picks.drop_last(), id)
    }
}

/// The display name of the team that drafted `id`, for a live board.
pub open spec fn drafted_by_name(draft: Option<DraftResponse>, id: i64) -> Option<Seq<char>> {
    match draft {
        None => None,
        Some(d) => match drafting_team(crate::espn::draft::completed_order(d.draft_detail.picks@), id) {
            Some(t) => team_name_for(d, Some(t)),
            None => None,
        },
    }
}

/// The board row for pool entry `p` at `rank` (1-based).
pub open spec fn entry_matches(
    e: DraftBoardEntry,
    p: ScoredPlayer,
    rank: int,
    levels: crate::espn::vor::ReplacementLevels,
    taken: Seq<PlayerId>,
    draft: Option<DraftResponse>,
) -> bool {
    &&& e.player_id == PlayerId(p.player_id)
    &&& e.name@ == (match p.full_name { Some(n) => n@, None => fallback_name(p.player_id) })
    &&& e.position == p.position
    &&& e.projected_points == crate::text::tenths_of_millionths(p.points as int)
    &&& e.value_over_replacement == vor_of(p, levels)
    &&& e.value_rank == rank
    &&& e.average_draft_position == p.average_draft_position
    &&& e.auction_value == p.auction_value
    &&& e.adp_delta == (match p.average_draft_position {
        Some(a) => Some((a - rank * 10) as i128),
        None => None,
    })
    &&& e.bye_week == p.bye_week
    &&& e.drafted == taken.contains(PlayerId(p.player_id))
    &&& match drafted_by_name(draft, p.player_id) {
        Some(n) => e.drafted_by matches Some(s) && s@ == n,
        None => e.drafted_by is None,
    }
}

proof fn lemma_insert_ranked_at(
    s: Seq<int>,
    x: int,
    pos: int,
    scored: Seq<ScoredPlayer>,
    levels: crate::espn::vor::ReplacementLevels,
)
    requires
        0 <= pos <= s.len(),
        forall|k: int| pos <= k < s.len() ==> vor_of(scored[x], levels) > vor_of(scored[#[trigger] s[k]], levels),
        pos > 0 ==> vor_of(scored[s[pos - 1]], levels) >= vor_of(scored[x], levels),
    ensures
        insert_ranked(s, x, scored, levels) == s.insert(pos, x),
    decreases s.len() - pos,
{
    if s.len() == 0 {
        assert(s.insert(pos, x) =~= seq![x]);
    } else if pos == s.len() {
        assert(s.insert(pos, x) =~= s.push(x));
    } else {
        lemma_insert_ranked_at(s.drop_last(), x, pos, scored, levels);
        assert(s.insert(pos, x) =~= s.drop_last().insert(pos, x).push(s.last()));
    }
}

/// Pool index `a` ranks ahead of pool index `b`: a higher value over replacement, or the
/// same value and an earlier place in the pool.
pub open spec fn ranks_ahead(scored: Seq<ScoredPlayer>, levels: crate::espn::vor::ReplacementLevels, a: int, b: int) -> bool {
    ||| vor_of(scored[a], levels) > vor_of(scored[b], levels)
    ||| (vor_of(scored[a], levels) == vor_of(scored[b], levels) && a < b)
}

/// Every earlier index of `r` ranks ahead of every later one.
pub open spec fn ranked(r: Seq<int>, scored: Seq<ScoredPlayer>, levels: crate::espn::vor::ReplacementLevels) -> bool {
    forall|i: int, j: int| 0 <= i < j < r.len() ==> ranks_ahead(scored, levels, #[trigger] r[i], #[trigger] r[j])
}

proof fn lemma_insert_ranked_keeps_ranking(
    s: Seq<int>,
    x: int,
    scored: Seq<ScoredPlayer>,
    levels: crate::espn::vor::ReplacementLevels,
)
    requires
        ranked(s, scored, levels),
        forall|k: int| 0 <= k < s.len() ==> #[trigger] s[k] < x,
    ensures
        insert_ranked(s, x, scored, levels).len() == s.len() + 1,
        forall|e: int| #[trigger] insert_ranked(s, x, scored, levels).contains(e) <==> (e == x || s.contains(e)),
        ranked(insert_ranked(s, x, scored, levels), scored, levels),
    decreases s.len(),
{
    let r = insert_ranked(s, x, scored, levels);
    if s.len() == 0 {
        assert forall|e: int| #[trigger] r.contains(e) <==> (e == x || s.contains(e)) by {
            if r.contains(e) {
                let k = choose|k: int| 0 <= k < r.len() && r[k] == e;
                assert(k == 0);
            }
            if e == x {
                assert(r[0] == x);
            }
        }
    } else if vor_of(scored[x], levels) > vor_of(scored[s.last()], levels) {
        let d = s.drop_last();
        let l = s.last();
        assert(ranked(d, scored, levels)) by {
            assert forall|i: int, j: int| 0 <= i < j < d.len() implies ranks_ahead(scored, levels, #[trigger] d[i], #[trigger] d[j]) by {
                assert(d[i] == s[i] && d[j] == s[j]);
            }
        }
        assert forall|k: int| 0 <= k < d.len() implies #[trigger] d[k] < x by {
            assert(d[k] == s[k]);
        }
        lemma_insert_ranked_keeps_ranking(d, x, scored, levels);
        let t = insert_ranked(d, x, scored, levels);
        assert(r == t.push(l));
        assert forall|e: int| #[trigger] r.contains(e) <==> (e == x || s.contains(e)) by {
            if r.contains(e) {
                let k = choose|k: int| 0 <= k < r.len() && r[k] == e;
                if k < t.len() {
                    assert(t[k] == e);
                    assert(t.contains(e));
                    if e != x {
                        assert(d.contains(e));
                        let m = choose|m: int| 0 <= m < d.len() && d[m] == e;
                        assert(s[m] == e);
                    }
                } else {
                    assert(s[s.len() - 1] == e);
                }
            }
            if e == x {
                assert(t.contains(x));
                let k = choose|k: int| 0 <= k < t.len() && t[k] == x;
                assert(r[k] == x);
            } else if s.contains(e) {
                let m = choose|m: int| 0 <= m < s.len() && s[m] == e;
                if m < d.len() {
                    assert(d[m] == e);
                    assert(d.contains(e));
                    assert(t.contains(e));
                    let k = choose|k: int| 0 <= k < t.len() && t[k] == e;
                    assert(r[k] == e);
                } else {
                    assert(r[r.len() - 1] == e);
                }
            }
        }
        assert forall|i: int, j: int| 0 <= i < j < r.len() implies ranks_ahead(scored, levels, #[trigger] r[i], #[trigger] r[j]) by {
            if j < t.len() {
                assert(r[i] == t[i] && r[j] == t[j]);
            } else {
                assert(r[j] == l);
                assert(r[i] == t[i]);
                assert(t.contains(t[i]));
                if t[i] != x {
                    assert(d.contains(t[i]));
                    let m = choose|m: int| 0 <= m < d.len() && d[m] == t[i];
                    assert(s[m] == t[i]);
                    assert(s[s.len() - 1] == l);
                    assert(ranks_ahead(scored, levels, s[m], s[s.len() - 1]));
                }
            }
        }
    } else {
        assert(r == s.push(x));
        assert forall|e: int| #[trigger] r.contains(e) <==> (e == x || s.contains(e)) by {
            if r.contains(e) {
                let k = choose|k: int| 0 <= k < r.len() && r[k] == e;
                if k < s.len() {
                    assert(s[k] == e);
                }
            }
            if e == x {
                assert(r[s.len() as int] == x);
            } else if s.contains(e) {
                let m = choose|m: int| 0 <= m < s.len() && s[m] == e;
                assert(r[m] == e);
            }
        }
        assert forall|i: int, j: int| 0 <= i < j < r.len() implies ranks_ahead(scored, levels, #[trigger] r[i], #[trigger] r[j]) by {
            if j < s.len() {
                assert(r[i] == s[i] && r[j] == s[j]);
            } else {
                assert(r[j] == x);
                assert(r[i] == s[i]);
                assert(s[i] < x);
                if i < s.len() - 1 {
                    assert(ranks_ahead(scored, levels, s[i], s[s.len() - 1]));
                }
            }
        }
    }
}

proof fn lemma_rank_order_ranks(n: nat, scored: Seq<ScoredPlayer>, levels: crate::espn::vor::ReplacementLevels)
    ensures
        rank_order(n, scored, levels).len() == n,
        forall|e: int| #[trigger] rank_order(n, scored, levels).contains(e) <==> 0 <= e < n,
        ranked(rank_order(n, scored, levels), scored, levels),
    decreases n,
{
    if n > 0 {
        let m = (n - 1) as nat;
        lemma_rank_order_ranks(m, scored, levels);
        let s = rank_order(m, scored, levels);
        assert forall|k: int| 0 <= k < s.len() implies #[trigger] s[k] < n - 1 by {
            assert(s.contains(s[k]));
        }
        lemma_insert_ranked_keeps_ranking(s, n - 1, scored, levels);
    }
}

/// The board's ranking is a stable sort of the pool by value over replacement, best
/// first: it lists every pool index exactly once, a higher value always comes first, and
/// players of equal value keep their pool order.
pub proof fn lemma_ranking_is_stable_sort_by_value(scored: Seq<ScoredPlayer>, levels: crate::espn::vor::ReplacementLevels)
    ensures
        ({
            let r = rank_order(scored.len(), scored, levels);
            &&& r.len() == scored.len()
            &&& forall|e: int| #[trigger] r.contains(e) <==> 0 <= e < scored.len()
            &&& r.no_duplicates()
            &&& forall|i: int, j: int| 0 <= i < j < r.len()
                ==> vor_of(scored[#[trigger] r[i]], levels) >= vor_of(scored[#[trigger] r[j]], levels)
            &&& forall|i: int, j: int| 0 <= i < j < r.len() && vor_of(scored[r[i]], levels) == vor_of(scored[r[j]], levels)
                ==> #[trigger] r[i] < #[trigger] r[j]
        }),
{
    lemma_rank_order_ranks(scored.len(), scored, levels);
    let r = rank_order(scored.len(), scored, levels);
    assert forall|i: int, j: int| 0 <= i < r.len() && 0 <= j < r.len() && i != j implies r[i] != r[j] by {
        if i < j {
            assert(ranks_ahead(scored, levels, r[i], r[j]));
        } else {
            assert(ranks_ahead(scored, levels, r[j], r[i]));
        }
    }
    assert forall|i: int, j: int| 0 <= i < j < r.len()
        implies vor_of(scored[#[trigger] r[i]], levels) >= vor_of(scored[#[trigger] r[j]], levels) by {
        assert(ranks_ahead(scored, levels, r[i], r[j]));
    }
}

/// The board lists the whole pool best value first: row `k` holds rank `k + 1`, values
/// over replacement never rise down the board, and each row is the pool player the
/// stable ranking puts there.
pub proof fn lemma_board_rows_descend_by_value(
    out: Seq<DraftBoardEntry>,
    scored: Seq<ScoredPlayer>,
    levels: crate::espn::vor::ReplacementLevels,
    taken: Seq<PlayerId>,
    draft: Option<DraftResponse>,
)
    requires
        entries_spec(out, scored, levels, taken, draft),
    ensures
        out.len() == scored.len(),
        forall|k: int| 0 <= k < out.len() ==> #[trigger] out[k].value_rank == k + 1,
        forall|i: int, j: int| 0 <= i < j < out.len()
            ==> #[trigger] out[i].value_over_replacement >= #[trigger] out[j].value_over_replacement,
{
    lemma_ranking_is_stable_sort_by_value(scored, levels);
    let r = rank_order(scored.len(), scored, levels);
    assert forall|k: int| 0 <= k < out.len() implies #[trigger] out[k].value_rank == k + 1 by {
        assert(entry_matches(out[k], scored[r[k]], k + 1, levels, taken, draft));
    }
    assert forall|i: int, j: int| 0 <= i < j < out.len()
        implies #[trigger] out[i].value_over_replacement >= #[trigger] out[j].value_over_replacement by {
        assert(entry_matches(out[i], scored[r[i]], i + 1, levels, taken, draft));
        assert(entry_matches(out[j], scored[r[j]], j + 1, levels, taken, draft));
        assert(vor_of(scored[r[i]], levels) >= vor_of(scored[r[j]], levels));
    }
}

/// Pool indices ranked by value over replacement, best first (stable).
fn ranked_indices(scored: &[ScoredPlayer], levels: &crate::espn::vor::ReplacementLevels) -> (out: Vec<usize>)
    ensures
        out@.map_values(|i: usize| i as int) == rank_order(scored@.len(), scored@, *levels),
        forall|k: int| 0 <= k < out@.len() ==> #[trigger] out@[k] < scored@.len(),
        out@.len() == scored@.len(),
{
    let mut order: Vec<usize> = Vec::new();
    let mut values: Vec<i128> = Vec::new();
    let mut i: usize = 0;
    while i < scored.len()
        invariant
            i <= scored@.len(),
            order@.len() == i && values@.len() == i,
            order@.map_values(|i: usize| i as int) == rank_order(i as nat, scored@, *levels),
            forall|k: int| 0 <= k < i ==> #[trigger] order@[k] < i,
            forall|k: int| 0 <= k < i ==> #[trigger] values@[k] == vor_of(scored@[order@[k] as int], *levels),
        decreases scored@.len() - i,
    {
        let v = crate::text::round_to_tenths(levels.value_over_replacement(scored[i].position, scored[i].points));
        let mut pos: usize = order.len();
        while pos > 0 && v > values[pos - 1]
            invariant
                pos <= order@.len(),
                order@.len() == values@.len(),
                v == vor_of(scored@[i as int], *levels),
                forall|k: int| 0 <= k < order@.len() ==> #[trigger] values@[k] == vor_of(scored@[order@[k] as int], *levels),
                forall|k: int| pos <= k < order@.len() ==> v > #[trigger] values@[k],
            decreases pos,
        {
            pos = pos - 1;
        }
        let ghost before = order@.map_values(|i: usize| i as int);
        proof {
            assert forall|k: int| pos <= k < before.len() implies vor_of(scored@[i as int], *levels) > vor_of(
                scored@[#[trigger] before[k]],
                *levels,
            ) by {
                assert(before[k] == order@[k] as int);
                assert(values@[k] == vor_of(scored@[order@[k] as int], *levels));
                assert(v > values@[k]);
            }
            if pos > 0 {
                assert(before[pos - 1] == order@[pos - 1] as int);
                assert(values@[pos - 1] == vor_of(scored@[order@[pos - 1] as int], *levels));
                assert(!(v > values@[pos - 1]));
            }
            lemma_insert_ranked_at(before, i as int, pos as int, scored@, *levels);
        }
        order.insert(pos, i);
        values.insert(pos, v);
        proof {
            assert(order@.map_values(|i: usize| i as int) =~= before.insert(pos as int, i as int));
        }
        i = i + 1;
    }
    order
}

fn drafted_by_for(draft: Option<&DraftResponse>, id: i64) -> (out: Option<String>)
    ensures
        match drafted_by_name(match draft { Some(d) => Some(*d), None => None }, id) {
            Some(n) => out matches Some(s) && s@ == n,
            None => out is None,
        },
{
    match draft {
        None => None,
        Some(d) => {
            let completed = d.draft_detail.completed_picks();
            let ghost all = crate::espn::draft::deref_picks(completed@);
            let mut k: usize = completed.len();
            proof {
                assert(all.take(k as int) =~= all);
            }
            while k > 0
                invariant
                    k <= completed@.len(),
                    all == crate::espn::draft::deref_picks(completed@),
                    drafted_by_name(match draft { Some(dd) => Some(*dd), None => None }, id) == match drafting_team(all, id) {
                        Some(t) => team_name_for(*d, Some(t)),
                        None => None,
                    },
                    drafting_team(all, id) == drafting_team(all.take(k as int), id),
                decreases k,
            {
                let p = completed[k - 1];
                proof {
                    assert(all.take(k as int).drop_last() =~= all.take(k - 1));
                    assert(all.take(k as int).last() == *p);
                }
                if p.is_made() && p.player_id == id && p.team_id.is_some() {
                    assert(drafting_team(all.take(k as int), id) == p.team_id);
                    return team_label(d, p.team_id);
                }
                k = k - 1;
            }
            None
        },
    }
}

/// Rank scored players by value over replacement and attach draft market data.
///
/// Ranks are taken across the whole pool, before any position filter, so they stay
/// comparable when the board is narrowed to one position. Players with equal value keep
/// their pool order.
/// The board rows for a scored pool: one per player, in value order, each matching its
/// player at its rank.
pub open spec fn entries_spec(
    out: Seq<DraftBoardEntry>,
    scored: Seq<ScoredPlayer>,
    levels: crate::espn::vor::ReplacementLevels,
    taken: Seq<PlayerId>,
    draft: Option<DraftResponse>,
) -> bool {
    &&& out.len() == scored.len()
    &&& forall|k: int| 0 <= k < out.len() ==> entry_matches(
        #[trigger] out[k],
        scored[rank_order(scored.len(), scored, levels)[k]],
        k + 1,
        levels,
        taken,
        draft,
    )
}

pub fn build_entries(
    scored: &[ScoredPlayer],
    levels: &crate::espn::vor::ReplacementLevels,
    taken: &[PlayerId],
    draft: Option<&DraftResponse>,
) -> (out: Vec<DraftBoardEntry>)
    ensures
        entries_spec(out@, scored@, *levels, taken@, match draft { Some(d) => Some(*d), None => None }),
{
    let order = ranked_indices(scored, levels);
    let ghost ranks = rank_order(scored@.len(), scored@, *levels);
    let ghost dv = match draft { Some(d) => Some(*d), None => None };
    let mut out: Vec<DraftBoardEntry> = Vec::new();
    let mut k: usize = 0;
    while k < order.len()
        invariant
            k <= order@.len() == scored@.len(),
            order@.map_values(|i: usize| i as int) == ranks,
            forall|j: int| 0 <= j < order@.len() ==> #[trigger] order@[j] < scored@.len(),
            dv == match draft { Some(d) => Some(*d), None => None },
            out@.len() == k,
            forall|j: int| 0 <= j < k ==> entry_matches(#[trigger] out@[j], scored@[ranks[j]], j + 1, *levels, taken@, dv),
        decreases order@.len() - k,
    {
        let p = &scored[order[k]];
        proof {
            assert(ranks[k as int] == order@[k as int] as int);
        }
        let id = PlayerId::new(p.player_id);
        let name = match &p.full_name {
            Some(n) => n.clone(),
            None => {
                let mut t = text("Player ");
                append_chars(&mut t, &i64_to_decimal(p.player_id));
                string_of(&t)
            },
        };
        let rank: usize = k + 1;
        let mut drafted = false;
        let mut t: usize = 0;
        while t < taken.len()
            invariant
                t <= taken@.len(),
                drafted == exists|m: int| 0 <= m < t && taken@[m] == id,
            decreases taken@.len() - t,
        {
            if taken[t].0 == id.0 {
                drafted = true;
            }
            t = t + 1;
        }
        let adp_delta = match p.average_draft_position {
            Some(a) => Some(a as i128 - (rank as i128) * 10),
            None => None,
        };
        let entry = DraftBoardEntry {
            player_id: id,
            name,
            position: p.position,
            projected_points: crate::text::round_i64_to_tenths(p.points),
            value_over_replacement: crate::text::round_to_tenths(levels.value_over_replacement(p.position, p.points)),
            value_rank: rank,
            average_draft_position: p.average_draft_position,
            auction_value: p.auction_value,
            adp_delta,
            bye_week: p.bye_week,
            drafted,
            drafted_by: drafted_by_for(draft, p.player_id),
        };
        out.push(entry);
        k = k + 1;
    }
    out
}

/// The entries a position filter keeps: all of them without a filter or with an empty
/// one, else those some filter position matches.
pub open spec fn filter_keeps(filter: Option<Seq<Position>>, e: DraftBoardEntry) -> bool {
    match filter {
        None => true,
        Some(f) => f.len() == 0 || exists|i: int| 0 <= i < f.len() && position_passes(#[trigger] f[i], e.position),
    }
}

/// The filter predicate as a function.
pub open spec fn keeps_under(filter: Option<Seq<Position>>) -> spec_fn(DraftBoardEntry) -> bool {
    |e: DraftBoardEntry| filter_keeps(filter, e)
}

/// A position filter narrows which rows print but never changes the arithmetic: every row
/// it keeps is a row of the whole board, value and rank unchanged, and an absent or empty
/// filter keeps them all.
pub proof fn lemma_position_filter_keeps_rows_unchanged(entries: Seq<DraftBoardEntry>, filter: Option<Seq<Position>>)
    ensures
        forall|i: int| 0 <= i < entries.filter(keeps_under(filter)).len() ==> entries.contains(
            #[trigger] entries.filter(keeps_under(filter))[i],
        ),
        (filter is None || filter == Some(Seq::<Position>::empty())) ==> entries.filter(keeps_under(filter)) == entries,
    decreases entries.len(),
{
    reveal(Seq::filter);
    if entries.len() > 0 {
        let rest = entries.drop_last();
        lemma_position_filter_keeps_rows_unchanged(rest, filter);
        let sub = rest.filter(keeps_under(filter));
        let out = entries.filter(keeps_under(filter));
        assert forall|i: int| 0 <= i < out.len() implies entries.contains(#[trigger] out[i]) by {
            if i < sub.len() {
                assert(out[i] == sub[i]);
                assert(rest.contains(sub[i]));
                let k = choose|k: int| 0 <= k < rest.len() && rest[k] == sub[i];
                assert(entries[k] == rest[k]);
            } else {
                assert(out[i] == entries.last());
                assert(entries[entries.len() - 1] == entries.last());
            }
        }
        if filter is None || filter == Some(Seq::<Position>::empty()) {
            assert(rest.push(entries.last()) =~= entries);
        }
    }
}

/// Narrow the printed rows to the requested positions, leaving ranks untouched.
pub fn apply_position_filter(entries: &mut Vec<DraftBoardEntry>, filter: Option<&[Position]>)
    ensures
        final(entries)@ == old(entries)@.filter(keeps_under(match filter { Some(f) => Some(f@), None => None })),
{
    let ghost fv = match filter { Some(f) => Some(f@), None => None };
    let ghost keep = keeps_under(fv);
    let mut all: Vec<DraftBoardEntry> = Vec::new();
    std::mem::swap(entries, &mut all);
    let ghost original = all@;
    let total = all.len();
    assert(original.len() == total);
    let mut kept: Vec<DraftBoardEntry> = Vec::new();
    let mut i: usize = 0;
    proof {
        assert(original.skip(0) =~= original);
        assert(original.take(0).filter(keep) =~= Seq::<DraftBoardEntry>::empty()) by {
            reveal_with_fuel(Seq::filter, 1);
        }
    }
    while all.len() > 0
        invariant
            i + all@.len() == original.len(),
            original.len() <= usize::MAX,
            all@ == original.skip(i as int),
            keep == keeps_under(fv),
            fv == match filter { Some(f) => Some(f@), None => None },
            kept@ == original.take(i as int).filter(keep),
        decreases all@.len(),
    {
        let e = all.remove(0);
        proof {
            assert(original.take(i + 1).drop_last() =~= original.take(i as int));
            assert(original.take(i + 1).last() == e);
            reveal_with_fuel(Seq::filter, 1);
        }
        let passes = match filter {
            None => true,
            Some(f) => {
                if f.len() == 0 {
                    true
                } else {
                    let mut any = false;
                    let mut j: usize = 0;
                    while j < f.len()
                        invariant
                            j <= f@.len(),
                            any == exists|m: int| 0 <= m < j && position_passes(#[trigger] f@[m], e.position),
                        decreases f@.len() - j,
                    {
                        if slot_aware_match(f[j], e.position) {
                            any = true;
                        }
                        j = j + 1;
                    }
                    any
                }
            },
        };
        if passes {
            kept.push(e);
        }
        i = i + 1;
        proof {
            assert(all@ =~= original.skip(i as int));
        }
    }
    proof {
        assert(original.take(i as int) =~= original);
    }
    *entries = kept;
}

} // verus!

verus! {

/// Live draft context.
#[derive(Debug, Clone)]
pub struct LiveDraftState {
    pub drafted: bool,
    pub in_progress: bool,
    pub picks_made: usize,
    pub total_picks: usize,
    pub current_round: Option<u32>,
    pub current_overall_pick: Option<u32>,
    pub on_the_clock: Option<String>,
    /// The viewing team, when identified.
    pub my_team: Option<String>,
    pub my_team_id: Option<u32>,
    /// Positions the viewing team has drafted, in pick order.
    pub my_roster: Vec<String>,
    /// Starting slots the viewing team has yet to fill.
    pub my_needs: Vec<String>,
    /// The same unfilled slots as raw ids, for matching players against them.
    pub my_need_slots: Vec<u8>,
    /// Overall number of the viewing team's next pick.
    pub next_pick_overall: Option<u32>,
    /// Round of the viewing team's next pick.
    pub next_pick_round: Option<u32>,
}

/// The first team, from `from` on, satisfying `pred`.
pub open spec fn first_team_index(teams: Seq<crate::espn::types::Team>, pred: spec_fn(crate::espn::types::Team) -> bool, from: int) -> Option<int>
    decreases teams.len() - from,
{
    if from < 0 || from >= teams.len() {
        None
    } else if pred(teams[from]) {
        Some(from)
    } else {
        first_team_index(teams, pred, from + 1)
    }
}

proof fn lemma_first_team_index(teams: Seq<crate::espn::types::Team>, pred: spec_fn(crate::espn::types::Team) -> bool, from: int)
    requires
        0 <= from <= teams.len(),
    ensures
        match first_team_index(teams, pred, from) {
            Some(i) => from <= i < teams.len() && pred(teams[i]) && forall|j: int| from <= j < i ==> !pred(#[trigger] teams[j]),
            None => forall|j: int| from <= j < teams.len() ==> !pred(#[trigger] teams[j]),
        },
    decreases teams.len() - from,
{
    if from < teams.len() && !pred(teams[from]) {
        lemma_first_team_index(teams, pred, from + 1);
    }
}

pub open spec fn has_id(id: u32) -> spec_fn(crate::espn::types::Team) -> bool {
    |t: crate::espn::types::Team| t.id == id
}

pub open spec fn has_name(needle: Seq<char>) -> spec_fn(crate::espn::types::Team) -> bool {
    |t: crate::espn::types::Team| crate::espn::draft::name_matches(t, needle)
}

pub open spec fn has_owner(key: Seq<char>) -> spec_fn(crate::espn::types::Team) -> bool {
    |t: crate::espn::types::Team| crate::espn::draft::owned_by(t, key)
}

/// The view of an optional text.
pub open spec fn opt_view(s: Option<&str>) -> Option<Seq<char>> {
    match s {
        Some(t) => Some(t@),
        None => None,
    }
}

/// The viewing team: by explicit id, then by name, then by the owner's SWID.
pub open spec fn chosen_team(draft: DraftResponse, team_name: Option<Seq<char>>, team_id: Option<u32>, swid: Option<Seq<char>>) -> Option<int> {
    let ghost teams = draft.teams@;
    let by_id = match team_id { Some(id) => first_team_index(teams, has_id(id), 0), None => None };
    if by_id is Some {
        by_id
    } else {
        let by_name = match team_name { Some(n) => first_team_index(teams, has_name(n), 0), None => None };
        if by_name is Some {
            by_name
        } else {
            match swid { Some(s) => first_team_index(teams, has_owner(crate::espn::draft::swid_key(s)), 0), None => None }
        }
    }
}

fn find_team<'a>(draft: &'a DraftResponse, team_name: Option<&str>, team_id: Option<u32>, swid: Option<&str>) -> (out: Option<&'a crate::espn::types::Team>)
    ensures
        match chosen_team(*draft, opt_view(team_name), team_id, opt_view(swid)) {
            Some(i) => out matches Some(t) && 0 <= i < draft.teams@.len() && *t == draft.teams@[i],
            None => out is None,
        },
{
    let ghost teams = draft.teams@;
    proof {
        lemma_first_team_index(teams, has_id(team_id->0), 0);
        if team_name is Some {
            lemma_first_team_index(teams, has_name(team_name->0@), 0);
        }
        if swid is Some {
            lemma_first_team_index(teams, has_owner(crate::espn::draft::swid_key(swid->0@)), 0);
        }
    }
    let by_id = match team_id {
        Some(id) => {
            let found = draft.team(id);
            proof {
                match found {
                    Some(t) => {
                        let i = first_team_index(teams, has_id(id), 0)->0;
                        let k = choose|k: int| 0 <= k < teams.len() && teams[k] == *t && teams[k].id == id
                            && forall|j: int| 0 <= j < k ==> #[trigger] teams[j].id != id;
                        if k < i { assert(has_id(id)(teams[k])); }
                        if i < k { assert(teams[i].id == id); }
                    },
                    None => {
                        if first_team_index(teams, has_id(id), 0) is Some {
                            let i = first_team_index(teams, has_id(id), 0)->0;
                            assert(teams[i].id != id);
                        }
                    },
                }
            }
            found
        },
        None => None,
    };
    if by_id.is_some() {
        return by_id;
    }
    let by_name = match team_name {
        Some(n) => {
            let found = draft.team_by_name(n);
            proof {
                match found {
                    Some(t) => {
                        let i = first_team_index(teams, has_name(n@), 0)->0;
                        let k = choose|k: int| 0 <= k < teams.len() && teams[k] == *t && crate::espn::draft::name_matches(teams[k], n@)
                            && forall|j: int| 0 <= j < k ==> !crate::espn::draft::name_matches(#[trigger] teams[j], n@);
                        if k < i { assert(has_name(n@)(teams[k])); }
                        if i < k { assert(crate::espn::draft::name_matches(teams[i], n@)); }
                    },
                    None => {
                        if first_team_index(teams, has_name(n@), 0) is Some {
                            let i = first_team_index(teams, has_name(n@), 0)->0;
                            assert(!crate::espn::draft::name_matches(teams[i], n@));
                        }
                    },
                }
            }
            found
        },
        None => None,
    };
    if by_name.is_some() {
        return by_name;
    }
    match swid {
        Some(s) => {
            let found = draft.team_for_owner(s);
            proof {
                let key = crate::espn::draft::swid_key(s@);
                match found {
                    Some(t) => {
                        let i = first_team_index(teams, has_owner(key), 0)->0;
                        let k = choose|k: int| 0 <= k < teams.len() && teams[k] == *t && crate::espn::draft::owned_by(teams[k], key)
                            && forall|j: int| 0 <= j < k ==> !crate::espn::draft::owned_by(#[trigger] teams[j], key);
                        if k < i { assert(has_owner(key)(teams[k])); }
                        if i < k { assert(crate::espn::draft::owned_by(teams[i], key)); }
                    },
                    None => {
                        if first_team_index(teams, has_owner(key), 0) is Some {
                            let i = first_team_index(teams, has_owner(key), 0)->0;
                            assert(!crate::espn::draft::owned_by(teams[i], key));
                        }
                    },
                }
            }
            found
        },
        None => None,
    }
}

/// The position the pool records for a player (the last record wins).
pub open spec fn position_of_player(table: Seq<(PlayerId, Position)>, id: PlayerId) -> Option<Position>
    decreases table.len(),
{
    if table.len() == 0 {
        None
    } else if table.last().0 == id {
        Some(table.last().1)
    } else {
        position_of_player(table.drop_last(), id)
    }
}

/// The known positions of `ids`, in order (players the pool does not know are skipped).
pub open spec fn known_positions(ids: Seq<PlayerId>, table: Seq<(PlayerId, Position)>) -> Seq<Position>
    decreases ids.len(),
{
    if ids.len() == 0 {
        seq![]
    } else {
        let rest = known_positions(ids.drop_last(), table);
        match position_of_player(table, ids.last()) {
            Some(p) => rest.push(p),
            None => rest,
        }
    }
}

fn lookup_position(table: &[(PlayerId, Position)], id: PlayerId) -> (out: Option<Position>)
    ensures
        out == position_of_player(table@, id),
{
    let mut k: usize = table.len();
    proof {
        assert(table@.take(k as int) =~= table@);
    }
    while k > 0
        invariant
            k <= table@.len(),
            position_of_player(table@, id) == position_of_player(table@.take(k as int), id),
        decreases k,
    {
        proof {
            assert(table@.take(k as int).drop_last() =~= table@.take(k - 1));
        }
        if table[k - 1].0.0 == id.0 {
            return Some(table[k - 1].1);
        }
        k = k - 1;
    }
    None
}

fn positions_of(ids: &Vec<PlayerId>, table: &[(PlayerId, Position)]) -> (out: Vec<Position>)
    ensures
        out@ == known_positions(ids@, table@),
{
    let mut out: Vec<Position> = Vec::new();
    let mut i: usize = 0;
    while i < ids.len()
        invariant
            i <= ids@.len(),
            out@ == known_positions(ids@.take(i as int), table@),
        decreases ids@.len() - i,
    {
        proof {
            assert(ids@.take(i + 1).drop_last() =~= ids@.take(i as int));
            assert(ids@.take(i + 1).last() == ids@[i as int]);
        }
        match lookup_position(table, ids[i]) {
            Some(p) => out.push(p),
            None => {},
        }
        i = i + 1;
    }
    proof {
        assert(ids@.take(i as int) =~= ids@);
    }
    out
}

/// Whether a pick slot comes after the first `made` picks and, when `team` is given,
/// belongs to it.
pub open spec fn after_made(made: int, team: Option<u32>) -> spec_fn(DraftPick) -> bool {
    |p: DraftPick| p.overall_pick_number > made && match team {
        Some(t) => p.team_id == Some(t),
        None => true,
    }
}

/// `found` is the slot `pred` and the draft order pick out: the first of the slots with
/// the lowest overall number among those `pred` keeps, or none when it keeps none.
pub open spec fn lowest_slot(picks: Seq<DraftPick>, pred: spec_fn(DraftPick) -> bool, found: Option<DraftPick>) -> bool {
    match found {
        Some(p) => exists|i: int| crate::espn::draft::first_lowest(picks, pred, i) && picks[i] == p,
        None => forall|j: int| 0 <= j < picks.len() ==> !pred(#[trigger] picks[j]),
    }
}

fn lowest_after<'a>(picks: &'a Vec<DraftPick>, made: usize, team: Option<u32>) -> (out: Option<&'a DraftPick>)
    ensures
        lowest_slot(picks@, after_made(made as int, team), match out { Some(p) => Some(*p), None => None }),
{
    let ghost keep = after_made(made as int, team);
    let mut best: Option<usize> = None;
    let mut i: usize = 0;
    while i < picks.len()
        invariant
            i <= picks@.len(),
            keep == after_made(made as int, team),
            match best {
                Some(b) => b < i && crate::espn::draft::first_lowest(picks@.take(i as int), keep, b as int),
                None => forall|j: int| 0 <= j < i ==> !keep(#[trigger] picks@[j]),
            },
        decreases picks@.len() - i,
    {
        let p = &picks[i];
        let wanted = p.overall_pick_number as usize > made && match team {
            Some(t) => p.team_id == Some(t),
            None => true,
        };
        assert(wanted == keep(picks@[i as int]));
        proof {
            assert(picks@.take(i + 1).drop_last() =~= picks@.take(i as int));
            assert(picks@.take(i + 1)[i as int] == picks@[i as int]);
        }
        if wanted {
            match best {
                Some(b) => {
                    if p.overall_pick_number < picks[b].overall_pick_number {
                        best = Some(i);
                    }
                },
                None => {
                    best = Some(i);
                },
            }
        }
        proof {
            let t = picks@.take(i + 1);
            match best {
                Some(b) => {
                    assert forall|j: int| 0 <= j < t.len() && #[trigger] keep(t[j]) implies t[b as int].overall_pick_number <= t[j].overall_pick_number by {
                        assert(t[j] == picks@[j]);
                        if j < i {
                            assert(picks@.take(i as int)[j] == picks@[j]);
                        }
                    }
                    assert forall|j: int| 0 <= j < b && #[trigger] keep(t[j]) implies t[b as int].overall_pick_number < t[j].overall_pick_number by {
                        assert(t[j] == picks@[j]);
                        assert(picks@.take(i as int)[j] == picks@[j]);
                    }
                },
                None => {},
            }
        }
        i = i + 1;
    }
    proof {
        assert(picks@.take(i as int) =~= picks@);
    }
    match best {
        Some(b) => Some(&picks[b]),
        None => None,
    }
}

/// The state a board shows for a draft: `clock` and `next` are the slots on the clock and
/// the viewing team's next slot, `my` the viewing team, `roster` its drafted positions.
pub open spec fn live_state_matches(
    out: LiveDraftState,
    draft: DraftResponse,
    settings: LeagueSettings,
    my: Option<int>,
    roster: Seq<Position>,
    clock: Option<DraftPick>,
    next: Option<DraftPick>,
    drafted: bool,
    in_progress: bool,
    picks_made: int,
) -> bool {
    &&& out.drafted == drafted
    &&& out.in_progress == in_progress
    &&& out.picks_made == picks_made
    &&& out.total_picks == draft.draft_detail.picks@.len()
    &&& out.current_round == (match clock { Some(p) => Some(p.round_id), None => None })
    &&& out.current_overall_pick == (match clock { Some(p) => Some(p.overall_pick_number), None => None })
    &&& match (match clock { Some(p) => team_name_for(draft, p.team_id), None => None }) {
        Some(n) => out.on_the_clock matches Some(s) && s@ == n,
        None => out.on_the_clock is None,
    }
    &&& match my {
        Some(i) => out.my_team matches Some(s) && s@ == crate::espn::types::team_label_of(draft.teams@[i])
            && out.my_team_id == Some(draft.teams@[i].id),
        None => out.my_team is None && out.my_team_id is None,
    }
    &&& string_views(out.my_roster@) == roster.map_values(|p: Position| label_of(p))
    &&& string_views(out.my_needs@) == out.my_need_slots@.map_values(|s: u8| slot_name(s))
    &&& (my is Some ==> exists|table: Seq<(u8, u32)>| slot_table(table, lineup_counts(settings.roster_settings.lineup_slot_counts@), true)
            && out.my_need_slots@ == needs_of(settings, table, roster))
    &&& (my is None ==> out.my_need_slots@.len() == 0)
    &&& out.next_pick_overall == (match next { Some(p) => Some(p.overall_pick_number), None => None })
    &&& out.next_pick_round == (match next { Some(p) => Some(p.round_id), None => None })
}

fn labels_of_positions(roster: &Vec<Position>) -> (out: Vec<String>)
    ensures
        string_views(out@) == roster@.map_values(|p: Position| label_of(p)),
{
    let mut out: Vec<String> = Vec::new();
    let mut i: usize = 0;
    while i < roster.len()
        invariant
            i <= roster@.len(),
            string_views(out@) == roster@.take(i as int).map_values(|p: Position| label_of(p)),
        decreases roster@.len() - i,
    {
        let l = roster[i].to_string();
        let ghost before = string_views(out@);
        let ghost lv = l@;
        out.push(l);
        proof {
            assert(string_views(out@) =~= before.push(lv));
            assert(roster@.take(i + 1).map_values(|p: Position| label_of(p)) =~= roster@.take(i as int).map_values(|p: Position| label_of(p)).push(lv));
        }
        i = i + 1;
    }
    proof {
        assert(roster@.take(i as int) =~= roster@);
    }
    out
}

fn labels_of_slots(slots: &Vec<u8>) -> (out: Vec<String>)
    ensures
        string_views(out@) == slots@.map_values(|s: u8| slot_name(s)),
{
    let mut out: Vec<String> = Vec::new();
    let mut i: usize = 0;
    while i < slots.len()
        invariant
            i <= slots@.len(),
            string_views(out@) == slots@.take(i as int).map_values(|s: u8| slot_name(s)),
        decreases slots@.len() - i,
    {
        let l = slot_label(slots[i]);
        let ghost before = string_views(out@);
        let ghost lv = l@;
        out.push(l);
        proof {
            assert(string_views(out@) =~= before.push(lv));
            assert(slots@.take(i + 1).map_values(|s: u8| slot_name(s)) =~= slots@.take(i as int).map_values(|s: u8| slot_name(s)).push(lv));
        }
        i = i + 1;
    }
    proof {
        assert(slots@.take(i as int) =~= slots@);
    }
    out
}

fn assemble_live_state(
    draft: &DraftResponse,
    settings: &LeagueSettings,
    my_team: Option<&crate::espn::types::Team>,
    roster: Vec<Position>,
    clock: Option<&DraftPick>,
    next: Option<&DraftPick>,
    drafted: bool,
    in_progress: bool,
    picks_made: usize,
) -> (out: LiveDraftState)
    ensures
        out.drafted == drafted,
        out.in_progress == in_progress,
        out.picks_made == picks_made,
        out.total_picks == draft.draft_detail.picks@.len(),
        out.current_round == (match clock { Some(p) => Some(p.round_id), None => None }),
        out.current_overall_pick == (match clock { Some(p) => Some(p.overall_pick_number), None => None }),
        match (match clock { Some(p) => team_name_for(*draft, p.team_id), None => None }) {
            Some(n) => out.on_the_clock matches Some(s) && s@ == n,
            None => out.on_the_clock is None,
        },
        match my_team {
            Some(t) => out.my_team matches Some(s) && s@ == crate::espn::types::team_label_of(*t) && out.my_team_id == Some(t.id),
            None => out.my_team is None && out.my_team_id is None,
        },
        string_views(out.my_roster@) == roster@.map_values(|p: Position| label_of(p)),
        string_views(out.my_needs@) == out.my_need_slots@.map_values(|s: u8| slot_name(s)),
        my_team is Some ==> exists|table: Seq<(u8, u32)>| slot_table(table, lineup_counts(settings.roster_settings.lineup_slot_counts@), true)
            && out.my_need_slots@ == needs_of(*settings, table, roster@),
        my_team is None ==> out.my_need_slots@.len() == 0,
        out.next_pick_overall == (match next { Some(p) => Some(p.overall_pick_number), None => None }),
        out.next_pick_round == (match next { Some(p) => Some(p.round_id), None => None }),
{
    let need_slots = if my_team.is_some() { remaining_needs(settings, &roster) } else { Vec::new() };
    LiveDraftState {
        drafted,
        in_progress,
        picks_made,
        total_picks: draft.draft_detail.picks.len(),
        current_round: match clock { Some(p) => Some(p.round_id), None => None },
        current_overall_pick: match clock { Some(p) => Some(p.overall_pick_number), None => None },
        on_the_clock: match clock { Some(p) => team_label(draft, p.team_id), None => None },
        my_team: match my_team { Some(t) => Some(t.display_name()), None => None },
        my_team_id: match my_team { Some(t) => Some(t.id), None => None },
        my_roster: labels_of_positions(&roster),
        my_needs: labels_of_slots(&need_slots),
        my_need_slots: need_slots,
        next_pick_overall: match next { Some(p) => Some(p.overall_pick_number), None => None },
        next_pick_round: match next { Some(p) => Some(p.round_id), None => None },
    }
}

/// Whether a pick file has used up a non-empty schedule.
pub open spec fn draft_finished(made: int, total: int) -> bool {
    made >= total && total > 0
}

/// Summarise live draft state from a pick file, using ESPN's pick schedule for timing.
///
/// ESPN pre-allocates every pick slot before the draft starts, and that part of the feed
/// is reliable even when it publishes no completed picks, so the file supplies *who* is
/// gone while ESPN still supplies *when* the team picks next. The viewing team is found
/// by id, then by name, then by the owner's SWID.
/// The live state a pick list gives against ESPN's pick schedule: the picks made are the
/// list's length, the clock is on the lowest slot after them, the team picks next at its
/// lowest slot after them, and its roster is the positions of its own picks.
pub open spec fn file_live_spec(
    out: LiveDraftState,
    draft: DraftResponse,
    settings: LeagueSettings,
    position_by_player: Seq<(PlayerId, Position)>,
    picks: Seq<(PlayerId, bool)>,
    team_name: Option<Seq<char>>,
    team_id: Option<u32>,
    swid: Option<Seq<char>>,
) -> bool {
    let my = chosen_team(draft, team_name, team_id, swid);
    let made = picks.len() as int;
    let total = draft.draft_detail.picks@.len();
    exists|clock: Option<DraftPick>, next: Option<DraftPick>|
        lowest_slot(draft.draft_detail.picks@, after_made(made, None), clock)
        && (match my {
            Some(i) => lowest_slot(draft.draft_detail.picks@, after_made(made, Some(draft.teams@[i].id)), next),
            None => next is None,
        })
        && #[trigger] live_state_matches(out, draft, settings, my, known_positions(picked_mine(picks), position_by_player),
            clock, next, draft_finished(made, total as int), true, made)
}

pub fn build_file_live_state(
    draft: &DraftResponse,
    settings: &LeagueSettings,
    position_by_player: &[(PlayerId, Position)],
    picks: &FilePicks,
    team_name: Option<&str>,
    team_id: Option<u32>,
    swid: Option<&str>,
) -> (out: LiveDraftState)
    ensures
        file_live_spec(out, *draft, *settings, position_by_player@, picks.picks@, opt_view(team_name), team_id, opt_view(swid)),
        clock_after_picks(out, *draft, picks.picks@.len() as int),
{
    let my_team = find_team(draft, team_name, team_id, swid);
    let detail = &draft.draft_detail;
    let picks_made = picks.len();
    let next = match my_team {
        Some(team) => lowest_after(&detail.picks, picks_made, Some(team.id)),
        None => None,
    };
    let clock = lowest_after(&detail.picks, picks_made, None);
    let mine = picks.mine();
    let roster = positions_of(&mine, position_by_player);
    let drafted = picks_made >= detail.picks.len() && detail.picks.len() > 0;
    let out = assemble_live_state(draft, settings, my_team, roster, clock, next, drafted, true, picks_made);
    proof {
        let cv = match clock { Some(p) => Some(*p), None => None };
        let nv = match next { Some(p) => Some(*p), None => None };
        let my = chosen_team(*draft, opt_view(team_name), team_id, opt_view(swid));
        let made = picks.picks@.len() as int;
        assert(lowest_slot(draft.draft_detail.picks@, after_made(made, None), cv));
        match my {
            Some(i) => {
                assert(lowest_slot(draft.draft_detail.picks@, after_made(made, Some(draft.teams@[i].id)), nv));
            },
            None => {},
        }
        assert(live_state_matches(out, *draft, *settings,
            chosen_team(*draft, opt_view(team_name), team_id, opt_view(swid)),
            known_positions(picked_mine(picks.picks@), position_by_player@), cv, nv,
            draft_finished(picks.picks@.len() as int, draft.draft_detail.picks@.len() as int), true, picks.picks@.len() as int));
        lemma_file_clock_follows_the_picks_made(out, *draft, *settings, position_by_player@, picks.picks@,
            opt_view(team_name), team_id, opt_view(swid));
    }
    out
}

/// With `k` picks made, the clock is on the earliest slot numbered above `k`: every slot
/// numbered `k` or less is used up, so the clock shows a slot above `k`, no later-numbered
/// slot is chosen while a lower one above `k` exists, the slot numbered `k + 1` is on the
/// clock whenever the schedule has it, and the team shown on the clock owns that slot.
/// Likewise the viewing team's next pick is its earliest slot above `k`.
pub open spec fn clock_after_picks(out: LiveDraftState, draft: DraftResponse, k: int) -> bool {
    let sched = draft.draft_detail.picks@;
    &&& match out.current_overall_pick {
        Some(n) => {
            &&& n > k
            &&& exists|i: int| 0 <= i < sched.len() && #[trigger] sched[i].overall_pick_number == n
                && match team_name_for(draft, sched[i].team_id) {
                    Some(name) => out.on_the_clock matches Some(c) && c@ == name,
                    None => out.on_the_clock is None,
                }
            &&& forall|j: int| 0 <= j < sched.len() && #[trigger] sched[j].overall_pick_number > k
                ==> n <= sched[j].overall_pick_number
        },
        None => forall|j: int| 0 <= j < sched.len() ==> #[trigger] sched[j].overall_pick_number <= k,
    }
    &&& forall|i: int| 0 <= i < sched.len() && #[trigger] sched[i].overall_pick_number == k + 1
        ==> out.current_overall_pick == Some(sched[i].overall_pick_number)
    &&& match out.my_team_id {
        Some(t) => match out.next_pick_overall {
            Some(n) => {
                &&& n > k
                &&& exists|i: int| 0 <= i < sched.len() && #[trigger] sched[i].overall_pick_number == n
                    && sched[i].team_id == Some(t)
                &&& forall|j: int| 0 <= j < sched.len() && #[trigger] sched[j].overall_pick_number > k
                    && sched[j].team_id == Some(t) ==> n <= sched[j].overall_pick_number
            },
            None => forall|j: int| 0 <= j < sched.len() && #[trigger] sched[j].team_id == Some(t)
                ==> sched[j].overall_pick_number <= k,
        },
        None => out.next_pick_overall is None,
    }
}

/// With `k` picks in the file, the clock is on the earliest schedule slot numbered above
/// `k` (the slot numbered `k + 1` whenever the schedule has one), its owner is shown on
/// the clock, and the viewing team's next pick is its own earliest slot above `k`.
pub proof fn lemma_file_clock_follows_the_picks_made(
    out: LiveDraftState,
    draft: DraftResponse,
    settings: LeagueSettings,
    position_by_player: Seq<(PlayerId, Position)>,
    picks: Seq<(PlayerId, bool)>,
    team_name: Option<Seq<char>>,
    team_id: Option<u32>,
    swid: Option<Seq<char>>,
)
    requires
        file_live_spec(out, draft, settings, position_by_player, picks, team_name, team_id, swid),
    ensures
        clock_after_picks(out, draft, picks.len() as int),
{
    let sched = draft.draft_detail.picks@;
    let k = picks.len() as int;
    let my = chosen_team(draft, team_name, team_id, swid);
    let total = sched.len();
    let (clock, next) = choose|clock: Option<DraftPick>, next: Option<DraftPick>|
        lowest_slot(sched, after_made(k, None), clock)
        && (match my {
            Some(i) => lowest_slot(sched, after_made(k, Some(draft.teams@[i].id)), next),
            None => next is None,
        })
        && #[trigger] live_state_matches(out, draft, settings, my, known_positions(picked_mine(picks), position_by_player),
            clock, next, draft_finished(k, total as int), true, k);
    let keep = after_made(k, None);
    match clock {
        Some(p) => {
            let i = choose|i: int| crate::espn::draft::first_lowest(sched, keep, i) && sched[i] == p;
            assert(keep(sched[i]));
            assert forall|j: int| 0 <= j < sched.len() && #[trigger] sched[j].overall_pick_number > k
                implies p.overall_pick_number <= sched[j].overall_pick_number by {
                assert(keep(sched[j]));
            }
            assert forall|j: int| 0 <= j < sched.len() && #[trigger] sched[j].overall_pick_number == k + 1
                implies out.current_overall_pick == Some(sched[j].overall_pick_number) by {
                assert(keep(sched[j]));
                assert(keep(sched[i]));
            }
        },
        None => {
            assert forall|j: int| 0 <= j < sched.len() implies #[trigger] sched[j].overall_pick_number <= k by {
                assert(!keep(sched[j]));
            }
            assert forall|j: int| 0 <= j < sched.len() && #[trigger] sched[j].overall_pick_number == k + 1
                implies out.current_overall_pick == Some(sched[j].overall_pick_number) by {
                assert(!keep(sched[j]));
            }
        },
    }
    match my {
        Some(ti) => {
            let t = draft.teams@[ti].id;
            let mine = after_made(k, Some(t));
            match next {
                Some(p) => {
                    let i = choose|i: int| crate::espn::draft::first_lowest(sched, mine, i) && sched[i] == p;
                    assert(mine(sched[i]));
                    assert forall|j: int| 0 <= j < sched.len() && #[trigger] sched[j].overall_pick_number > k
                        && sched[j].team_id == Some(t) implies p.overall_pick_number <= sched[j].overall_pick_number by {
                        assert(mine(sched[j]));
                    }
                },
                None => {
                    assert forall|j: int| 0 <= j < sched.len() && #[trigger] sched[j].team_id == Some(t)
                        implies sched[j].overall_pick_number <= k by {
                        assert(!mine(sched[j]));
                    }
                },
            }
        },
        None => {},
    }
}

/// The positions the viewing team has drafted, read from ESPN's completed picks.
pub open spec fn live_roster(draft: DraftResponse, my: Option<int>, table: Seq<(PlayerId, Position)>) -> Seq<Position> {
    match my {
        Some(i) => known_positions(
            drafted_ids(crate::espn::draft::completed_order(draft.draft_detail.picks@).filter(
                crate::espn::draft::of_team(draft.teams@[i].id),
            )),
            table,
        ),
        None => Seq::<Position>::empty(),
    }
}

/// The drafted players of a list of completed picks, in order.
pub open spec fn drafted_ids(picks: Seq<DraftPick>) -> Seq<PlayerId> {
    picks.map_values(|p: DraftPick| PlayerId(p.player_id))
}

/// Summarise live draft state from ESPN's own picks, including the viewing team's roster
/// and remaining needs.
///
/// The roster is read from the drafted players' positions rather than the pick's
/// `lineupSlotId`, which describes where the pick landed, not what it can start.
/// The live state ESPN's draft detail gives: the clock is on the lowest open slot, the team
/// picks next at its lowest open slot, and its roster is the positions of its made picks.
pub open spec fn feed_live_spec(
    out: LiveDraftState,
    draft: DraftResponse,
    settings: LeagueSettings,
    position_by_player: Seq<(PlayerId, Position)>,
    team_name: Option<Seq<char>>,
    team_id: Option<u32>,
    swid: Option<Seq<char>>,
) -> bool {
    let my = chosen_team(draft, team_name, team_id, swid);
    let picks = draft.draft_detail.picks@;
    let done = crate::espn::draft::completed_order(picks);
    exists|clock: Option<DraftPick>, next: Option<DraftPick>|
        lowest_slot(picks, crate::espn::draft::open_slot(None), clock)
        && (match my {
            Some(i) => lowest_slot(picks, crate::espn::draft::open_slot(Some(draft.teams@[i].id)), next),
            None => next is None,
        })
        && #[trigger] live_state_matches(out, draft, settings, my, live_roster(draft, my, position_by_player),
            clock, next, draft.draft_detail.drafted, draft.draft_detail.in_progress, done.len() as int)
}

pub fn build_live_state(
    draft: &DraftResponse,
    settings: &LeagueSettings,
    position_by_player: &[(PlayerId, Position)],
    team_name: Option<&str>,
    team_id: Option<u32>,
    swid: Option<&str>,
) -> (out: LiveDraftState)
    ensures
        feed_live_spec(out, *draft, *settings, position_by_player@, opt_view(team_name), team_id, opt_view(swid)),
{
    let my_team = find_team(draft, team_name, team_id, swid);
    let detail = &draft.draft_detail;
    let clock = detail.on_the_clock();
    let roster = match my_team {
        Some(team) => {
            let team_picks = detail.picks_for_team(team.id);
            let mut ids: Vec<PlayerId> = Vec::new();
            let mut k: usize = 0;
            while k < team_picks.len()
                invariant
                    k <= team_picks@.len(),
                    ids@ == drafted_ids(crate::espn::draft::deref_picks(team_picks@).take(k as int)),
                decreases team_picks@.len() - k,
            {
                ids.push(PlayerId::new(team_picks[k].player_id));
                proof {
                    let d = crate::espn::draft::deref_picks(team_picks@);
                    assert(drafted_ids(d.take(k + 1)) =~= drafted_ids(d.take(k as int)).push(PlayerId(d[k as int].player_id)));
                }
                k = k + 1;
            }
            proof {
                assert(crate::espn::draft::deref_picks(team_picks@).take(k as int) =~= crate::espn::draft::deref_picks(team_picks@));
            }
            positions_of(&ids, position_by_player)
        },
        None => Vec::new(),
    };
    let next = match my_team {
        Some(team) => detail.next_pick_for_team(team.id),
        None => None,
    };
    let made = detail.completed_picks().len();
    let out = assemble_live_state(draft, settings, my_team, roster, clock, next, detail.drafted, detail.in_progress, made);
    proof {
        let cv = match clock { Some(p) => Some(*p), None => None };
        let nv = match next { Some(p) => Some(*p), None => None };
        let my = chosen_team(*draft, opt_view(team_name), team_id, opt_view(swid));
        assert(lowest_slot(detail.picks@, crate::espn::draft::open_slot(None), cv));
        match my {
            Some(i) => {
                assert(lowest_slot(detail.picks@, crate::espn::draft::open_slot(Some(draft.teams@[i].id)), nv));
                assert(roster@ == live_roster(*draft, my, position_by_player@));
            },
            None => {
                assert(roster@ =~= live_roster(*draft, my, position_by_player@));
            },
        }
        assert(live_state_matches(out, *draft, *settings, my, live_roster(*draft, my, position_by_player@),
            cv, nv, draft.draft_detail.drafted, draft.draft_detail.in_progress,
            crate::espn::draft::completed_order(draft.draft_detail.picks@).len() as int));
    }
    out
}

} // verus!

verus! {

/// A player worth taking: best available at a slot the team still has to fill.
#[derive(Debug, Clone)]
pub struct Recommendation {
    pub player_id: PlayerId,
    pub name: String,
    pub position: Position,
    pub value_over_replacement: i128,
    pub value_rank: usize,
    pub average_draft_position: Option<i64>,
    pub bye_week: Option<u16>,
    /// Label of a starting slot this player would fill.
    pub fills_need: String,
    /// `average_draft_position` minus the team's next overall pick, in tenths. Negative
    /// means he is usually gone before the team picks again.
    pub survival_margin: Option<i128>,
    pub outlook: Outlook,
}

/// The first of `slots`, from `from` on, that a player at `position` can fill.
pub open spec fn first_need(slots: Seq<u8>, position: Position, from: int) -> Option<int>
    decreases slots.len() - from,
{
    if from < 0 || from >= slots.len() {
        None
    } else if fills(position, slots[from]) {
        Some(from)
    } else {
        first_need(slots, position, from + 1)
    }
}

/// The slot label an entry would be recommended for: the bench once starters are full,
/// else the first open slot its position fills; `None` when it fills none.
pub open spec fn need_for(e: DraftBoardEntry, live: LiveDraftState) -> Option<Seq<char>> {
    if live.my_need_slots@.len() == 0 {
        Some("BE"@)
    } else {
        match first_need(live.my_need_slots@, e.position, 0) {
            Some(k) => Some(slot_name(live.my_need_slots@[k])),
            None => None,
        }
    }
}

/// Whether an entry can be recommended: still available and filling a need.
pub open spec fn recommendable(e: DraftBoardEntry, live: LiveDraftState) -> bool {
    !e.drafted && need_for(e, live) is Some
}

/// The indices of the recommendable entries, in board order.
pub open spec fn recommendable_indices(entries: Seq<DraftBoardEntry>, live: LiveDraftState) -> Seq<int>
    decreases entries.len(),
{
    if entries.len() == 0 {
        seq![]
    } else if recommendable(entries.last(), live) {
        recommendable_indices(entries.drop_last(), live).push(entries.len() - 1)
    } else {
        recommendable_indices(entries.drop_last(), live)
    }
}

/// The survival margin of an entry: its ADP minus the team's next overall pick.
pub open spec fn margin_for(e: DraftBoardEntry, live: LiveDraftState) -> Option<i128> {
    match (live.next_pick_overall, e.average_draft_position) {
        (Some(pick), Some(adp)) => Some((adp - pick * 10) as i128),
        _ => None,
    }
}

/// The recommendation made for entry `e`.
pub open spec fn recommendation_matches(r: Recommendation, e: DraftBoardEntry, live: LiveDraftState, team_count: int) -> bool {
    &&& r.player_id == e.player_id
    &&& r.name@ == e.name@
    &&& r.position == e.position
    &&& r.value_over_replacement == e.value_over_replacement
    &&& r.value_rank == e.value_rank
    &&& r.average_draft_position == e.average_draft_position
    &&& r.bye_week == e.bye_week
    &&& need_for(e, live) == Some(r.fills_need@)
    &&& r.survival_margin == margin_for(e, live)
    &&& r.outlook == outlook_for(margin_for(e, live), team_count)
}

proof fn lemma_recommendable_bounds(entries: Seq<DraftBoardEntry>, live: LiveDraftState)
    ensures
        recommendable_indices(entries, live).len() <= entries.len(),
        forall|k: int| 0 <= k < recommendable_indices(entries, live).len() ==> 0 <= #[trigger] recommendable_indices(entries, live)[k] < entries.len()
            && recommendable(entries[recommendable_indices(entries, live)[k]], live),
    decreases entries.len(),
{
    if entries.len() > 0 {
        lemma_recommendable_bounds(entries.drop_last(), live);
        let prev = recommendable_indices(entries.drop_last(), live);
        assert forall|k: int| 0 <= k < prev.len() implies entries.drop_last()[prev[k]] == entries[prev[k]] by {}
    }
}

fn need_label(e: &DraftBoardEntry, live: &LiveDraftState) -> (out: Option<String>)
    ensures
        match need_for(*e, *live) {
            Some(n) => out matches Some(s) && s@ == n,
            None => out is None,
        },
{
    if live.my_need_slots.len() == 0 {
        return Some(string_of(&text("BE")));
    }
    let mut k: usize = 0;
    while k < live.my_need_slots.len()
        invariant
            k <= live.my_need_slots@.len(),
            first_need(live.my_need_slots@, e.position, 0) == first_need(live.my_need_slots@, e.position, k as int),
        decreases live.my_need_slots@.len() - k,
    {
        if e.position.fills_slot(live.my_need_slots[k]) {
            return Some(slot_label(live.my_need_slots[k]));
        }
        k = k + 1;
    }
    None
}

/// Best available players at slots the team still has to fill.
///
/// Ranked by value over replacement, which is already the board's ordering, then
/// annotated with whether each player is likely to survive until the team's next pick.
/// A team whose starting lineup is already full falls back to best available overall,
/// since the remaining picks are bench depth. Without an identified team, or once the
/// draft is over, there is nothing to recommend.
/// The recommendations for a board: none without an identified team or after the draft;
/// otherwise the first `limit` recommendable rows in board order, each matched to its row.
pub open spec fn recommendations_spec(
    out: Seq<Recommendation>,
    entries: Seq<DraftBoardEntry>,
    live: LiveDraftState,
    team_count: int,
    limit: int,
) -> bool {
    &&& live.my_team is None || live.drafted ==> out.len() == 0
    &&& !(live.my_team is None || live.drafted) ==> {
        let idx = recommendable_indices(entries, live);
        &&& out.len() == (if idx.len() < limit { idx.len() as int } else { limit })
        &&& forall|k: int| 0 <= k < out.len() ==> recommendation_matches(
            #[trigger] out[k],
            entries[idx[k]],
            live,
            team_count,
        )
    }
}

pub fn build_recommendations(
    entries: &[DraftBoardEntry],
    live: &LiveDraftState,
    team_count: usize,
    limit: usize,
) -> (out: Vec<Recommendation>)
    ensures
        recommendations_spec(out@, entries@, *live, team_count as int, limit as int),
{
    let mut out: Vec<Recommendation> = Vec::new();
    if live.my_team.is_none() || live.drafted {
        return out;
    }
    let ghost idx = recommendable_indices(entries@, *live);
    proof {
        lemma_recommendable_bounds(entries@, *live);
    }
    let mut i: usize = 0;
    while i < entries.len() && out.len() < limit
        invariant
            i <= entries@.len(),
            idx == recommendable_indices(entries@, *live),
            out@.len() <= limit,
            out@ .len() == recommendable_indices(entries@.take(i as int), *live).len(),
            recommendable_indices(entries@.take(i as int), *live) == idx.take(out@.len() as int),
            out@.len() <= idx.len(),
            forall|k: int| 0 <= k < out@.len() ==> recommendation_matches(#[trigger] out@[k], entries@[idx[k]], *live, team_count as int),
        decreases entries@.len() - i,
    {
        let e = &entries[i];
        proof {
            assert(entries@.take(i + 1).drop_last() =~= entries@.take(i as int));
            assert(entries@.take(i + 1).last() == entries@[i as int]);
            lemma_prefix_indices(entries@, *live, i as int);
        }
        let ghost before_len = out@.len();
        if !e.drafted {
            match need_label(e, live) {
                Some(need) => {
                    let margin = match (live.next_pick_overall, e.average_draft_position) {
                        (Some(pick), Some(adp)) => Some(adp as i128 - (pick as i128) * 10),
                        _ => None,
                    };
                    let rec = Recommendation {
                        player_id: e.player_id,
                        name: e.name.clone(),
                        position: e.position,
                        value_over_replacement: e.value_over_replacement,
                        value_rank: e.value_rank,
                        average_draft_position: e.average_draft_position,
                        bye_week: e.bye_week,
                        fills_need: need,
                        survival_margin: margin,
                        outlook: classify_outlook(margin, team_count),
                    };
                    out.push(rec);
                    proof {
                        let t = recommendable_indices(entries@.take(i + 1), *live);
                        assert(recommendable(entries@[i as int], *live));
                        assert(t.last() == i as int);
                        assert(t == idx.take(t.len() as int));
                        assert(idx[before_len as int] == i as int);
                        assert(t =~= idx.take(out@.len() as int));
                    }
                },
                None => {},
            }
        }
        i = i + 1;
    }
    proof {
        if out@.len() < limit {
            assert(entries@.take(i as int) =~= entries@);
        }
    }
    out
}

/// The recommendable indices of a prefix are a prefix of the recommendable indices.
proof fn lemma_prefix_indices(entries: Seq<DraftBoardEntry>, live: LiveDraftState, i: int)
    requires
        0 <= i < entries.len(),
    ensures
        recommendable_indices(entries.take(i + 1), live) == (if recommendable(entries[i], live) {
            recommendable_indices(entries.take(i), live).push(i)
        } else {
            recommendable_indices(entries.take(i), live)
        }),
        recommendable_indices(entries, live).len() >= recommendable_indices(entries.take(i + 1), live).len(),
        recommendable_indices(entries.take(i + 1), live) == recommendable_indices(entries, live).take(
            recommendable_indices(entries.take(i + 1), live).len() as int,
        ),
{
    assert(entries.take(i + 1).drop_last() =~= entries.take(i));
    lemma_prefix_extends(entries, live, i + 1);
}

/// The recommendable indices of `entries.take(n)` are a prefix of those of `entries`.
proof fn lemma_prefix_extends(entries: Seq<DraftBoardEntry>, live: LiveDraftState, n: int)
    requires
        0 <= n <= entries.len(),
    ensures
        recommendable_indices(entries, live).len() >= recommendable_indices(entries.take(n), live).len(),
        recommendable_indices(entries.take(n), live) == recommendable_indices(entries, live).take(
            recommendable_indices(entries.take(n), live).len() as int,
        ),
    decreases entries.len() - n,
{
    if n == entries.len() {
        assert(entries.take(n) =~= entries);
        assert(recommendable_indices(entries, live).take(recommendable_indices(entries, live).len() as int)
            =~= recommendable_indices(entries, live));
    } else {
        lemma_prefix_extends(entries, live, n + 1);
        assert(entries.take(n + 1).drop_last() =~= entries.take(n));
        let a = recommendable_indices(entries.take(n), live);
        let b = recommendable_indices(entries.take(n + 1), live);
        let all = recommendable_indices(entries, live);
        assert(a =~= b.take(a.len() as int)) by {
            if recommendable(entries[n], live) {
                assert(b == a.push(n));
            }
        }
        assert(a =~= all.take(a.len() as int));
    }
}

} // verus!

verus! {

/// The live-draft status line.
pub open spec fn live_status_line(live: LiveDraftState) -> Seq<char> {
    if live.drafted {
        "Draft complete · "@ + decimal(live.picks_made as nat) + " picks made\n"@
    } else {
        match (live.current_round, live.current_overall_pick) {
            (Some(round), Some(overall)) => "Round "@ + decimal(round as nat) + " · pick "@ + decimal(overall as nat) + " of "@
                + decimal(live.total_picks as nat) + " · ON THE CLOCK: "@ + match live.on_the_clock {
                Some(s) => s@,
                None => "unknown"@,
            } + "\n"@,
            _ => "Draft not started · "@ + decimal(live.total_picks as nat) + " picks scheduled\n"@,
        }
    }
}

/// The viewing team's lines of the live banner.
pub open spec fn live_team_lines(live: LiveDraftState) -> Seq<char> {
    match live.my_team {
        Some(team) => "You: "@ + team@ + "\n"@ + (if live.my_roster@.len() == 0 {
            "Your roster: (empty)\n"@
        } else {
            "Your roster: "@ + crate::text::join_with(string_views(live.my_roster@), " "@) + "\n"@
        }) + (if live.my_needs@.len() == 0 {
            "Still need: (starters full)\n"@
        } else {
            "Still need: "@ + crate::text::join_with(string_views(live.my_needs@), " "@) + "\n"@
        }),
        None => Seq::<char>::empty(),
    }
}

/// The live-draft banner shown above the board.
pub open spec fn live_header(live: LiveDraftState) -> Seq<char> {
    "\n"@ + live_status_line(live) + live_team_lines(live)
}

fn string_chars_list(items: &Vec<String>) -> (out: Vec<Vec<char>>)
    ensures
        char_views(out@) == string_views(items@),
{
    let mut out: Vec<Vec<char>> = Vec::new();
    let mut i: usize = 0;
    while i < items.len()
        invariant
            i <= items@.len(),
            char_views(out@) == string_views(items@.take(i as int)),
        decreases items@.len() - i,
    {
        let c = chars_of(items[i].as_str());
        let ghost before = char_views(out@);
        let ghost cv = c@;
        out.push(c);
        proof {
            assert(char_views(out@) =~= before.push(cv));
            assert(string_views(items@.take(i + 1)) =~= string_views(items@.take(i as int)).push(cv));
        }
        i = i + 1;
    }
    proof {
        assert(items@.take(i as int) =~= items@);
    }
    out
}

fn live_status_chars(live: &LiveDraftState) -> (out: Vec<char>)
    ensures
        out@ == live_status_line(*live),
{
    let mut out: Vec<char> = Vec::new();
    if live.drafted {
        append_chars(&mut out, &text("Draft complete · "));
        append_chars(&mut out, &u64_to_decimal(live.picks_made as u64));
        append_chars(&mut out, &text(" picks made\n"));
    } else {
        match (live.current_round, live.current_overall_pick) {
            (Some(round), Some(overall)) => {
                append_chars(&mut out, &text("Round "));
                append_chars(&mut out, &u64_to_decimal(round as u64));
                append_chars(&mut out, &text(" · pick "));
                append_chars(&mut out, &u64_to_decimal(overall as u64));
                append_chars(&mut out, &text(" of "));
                append_chars(&mut out, &u64_to_decimal(live.total_picks as u64));
                append_chars(&mut out, &text(" · ON THE CLOCK: "));
                match &live.on_the_clock {
                    Some(s) => append_chars(&mut out, &chars_of(s.as_str())),
                    None => append_chars(&mut out, &text("unknown")),
                }
                append_chars(&mut out, &text("\n"));
            },
            _ => {
                append_chars(&mut out, &text("Draft not started · "));
                append_chars(&mut out, &u64_to_decimal(live.total_picks as u64));
                append_chars(&mut out, &text(" picks scheduled\n"));
            },
        }
    }
    proof {
        assert(out@ =~= live_status_line(*live));
    }
    out
}

fn listed_line(label: &str, items: &Vec<String>, empty: &str) -> (out: Vec<char>)
    ensures
        out@ == (if items@.len() == 0 {
            empty@
        } else {
            label@ + crate::text::join_with(string_views(items@), " "@) + "\n"@
        }),
{
    if items.len() == 0 {
        return text(empty);
    }
    let mut out = text(label);
    append_chars(&mut out, &crate::text::join_chars(&string_chars_list(items), &text(" ")));
    append_chars(&mut out, &text("\n"));
    out
}

fn live_team_chars(live: &LiveDraftState) -> (out: Vec<char>)
    ensures
        out@ == live_team_lines(*live),
{
    match &live.my_team {
        Some(team) => {
            let mut out = text("You: ");
            append_chars(&mut out, &chars_of(team.as_str()));
            append_chars(&mut out, &text("\n"));
            append_chars(&mut out, &listed_line("Your roster: ", &live.my_roster, "Your roster: (empty)\n"));
            append_chars(&mut out, &listed_line("Still need: ", &live.my_needs, "Still need: (starters full)\n"));
            proof {
                assert(out@ =~= live_team_lines(*live));
            }
            out
        },
        None => Vec::new(),
    }
}

/// The live-draft banner shown above the board.
pub fn live_header_text(live: &LiveDraftState) -> (out: String)
    ensures
        out@ == live_header(*live),
{
    let mut out = text("\n");
    append_chars(&mut out, &live_status_chars(live));
    append_chars(&mut out, &live_team_chars(live));
    proof {
        assert(out@ =~= live_header(*live));
    }
    string_of(&out)
}

/// A draft position in tenths, or `--` when unpublished.
pub open spec fn adp_text(adp: Option<i64>) -> Seq<char> {
    match adp {
        Some(v) => crate::text::tenths_text(v as int),
        None => "--"@,
    }
}

/// One row of the recommendations block.
pub open spec fn recommendation_line(i: int, r: Recommendation) -> Seq<char> {
    "  "@ + decimal((i + 1) as nat) + "  "@ + crate::text::pad_right(crate::text::first_chars(r.name@, 24), 24) + " "@
        + crate::text::pad_right(label_of(r.position), 4) + " "@ + crate::text::pad_right("["@ + r.fills_need@ + "]"@, 7)
        + " VOR "@ + crate::text::pad_left(crate::text::tenths_text(r.value_over_replacement as int), 6) + "   ADP "@
        + crate::text::pad_left(adp_text(r.average_draft_position), 5) + "   "@ + crate::text::pad_right(
        match r.bye_week {
            Some(b) => "bye "@ + decimal(b as nat),
            None => "bye --"@,
        },
        7,
    ) + "  "@ + outlook_label(r.outlook) + "\n"@
}

/// The best available players at the team's unfilled slots.
pub open spec fn recommendations_block(recs: Seq<Recommendation>, next_pick: Option<u32>) -> Seq<char> {
    "\n"@ + match next_pick {
        Some(pick) => "Best available for your needs (your next pick: "@ + decimal(pick as nat) + "):\n"@,
        None => "Best available for your needs:\n"@,
    } + crate::text::join_with(Seq::new(recs.len(), |i: int| recommendation_line(i, recs[i])), Seq::<char>::empty())
}

fn adp_chars(adp: Option<i64>) -> (out: Vec<char>)
    ensures
        out@ == adp_text(adp),
{
    match adp {
        Some(v) => crate::text::tenths_chars(v),
        None => text("--"),
    }
}

fn recommendation_row(i: usize, r: &Recommendation) -> (out: Vec<char>)
    requires
        i < u64::MAX,
    ensures
        out@ == recommendation_line(i as int, *r),
{
    let mut line = text("  ");
    append_chars(&mut line, &u64_to_decimal(i as u64 + 1));
    append_chars(&mut line, &text("  "));
    append_chars(&mut line, &crate::text::pad_right_chars(&crate::text::first_chars_of(&chars_of(r.name.as_str()), 24), 24));
    append_chars(&mut line, &text(" "));
    append_chars(&mut line, &crate::text::pad_right_chars(&crate::cli::types::position::label_chars(r.position), 4));
    append_chars(&mut line, &text(" "));
    let mut need = text("[");
    append_chars(&mut need, &chars_of(r.fills_need.as_str()));
    append_chars(&mut need, &text("]"));
    append_chars(&mut line, &crate::text::pad_right_chars(&need, 7));
    append_chars(&mut line, &text(" VOR "));
    append_chars(&mut line, &crate::text::pad_left_chars(&crate::text::tenths_wide_chars(r.value_over_replacement), 6));
    append_chars(&mut line, &text("   ADP "));
    append_chars(&mut line, &crate::text::pad_left_chars(&adp_chars(r.average_draft_position), 5));
    append_chars(&mut line, &text("   "));
    let bye = match r.bye_week {
        Some(b) => {
            let mut t = text("bye ");
            append_chars(&mut t, &u64_to_decimal(b as u64));
            t
        },
        None => text("bye --"),
    };
    append_chars(&mut line, &crate::text::pad_right_chars(&bye, 7));
    append_chars(&mut line, &text("  "));
    append_chars(&mut line, &chars_of(r.outlook.label().as_str()));
    append_chars(&mut line, &text("\n"));
    proof {
        assert(line@ =~= recommendation_line(i as int, *r));
    }
    line
}

/// The best available players at the team's unfilled slots, as text.
pub fn recommendations_text(recs: &[Recommendation], live: Option<&LiveDraftState>) -> (out: String)
    requires
        recs@.len() < u64::MAX,
    ensures
        out@ == recommendations_block(recs@, match live { Some(l) => l.next_pick_overall, None => None }),
{
    let next_pick = match live { Some(l) => l.next_pick_overall, None => None };
    let mut out = text("\n");
    match next_pick {
        Some(pick) => {
            append_chars(&mut out, &text("Best available for your needs (your next pick: "));
            append_chars(&mut out, &u64_to_decimal(pick as u64));
            append_chars(&mut out, &text("):\n"));
        },
        None => append_chars(&mut out, &text("Best available for your needs:\n")),
    }
    let ghost lines = Seq::new(recs@.len(), |i: int| recommendation_line(i, recs@[i]));
    let mut parts: Vec<Vec<char>> = Vec::new();
    let mut i: usize = 0;
    while i < recs.len()
        invariant
            i <= recs@.len() < u64::MAX,
            lines == Seq::new(recs@.len(), |i: int| recommendation_line(i, recs@[i])),
            char_views(parts@) == lines.take(i as int),
        decreases recs@.len() - i,
    {
        let row = recommendation_row(i, &recs[i]);
        let ghost before = char_views(parts@);
        let ghost rv = row@;
        parts.push(row);
        proof {
            assert(char_views(parts@) =~= before.push(rv));
            assert(lines.take(i + 1) =~= lines.take(i as int).push(lines[i as int]));
        }
        i = i + 1;
    }
    proof {
        assert(lines.take(i as int) =~= lines);
    }
    append_chars(&mut out, &crate::text::join_chars(&parts, &Vec::new()));
    string_of(&out)
}

} // verus!

verus! {

/// The board plus the context needed to interpret it.
#[derive(Debug, Clone)]
pub struct DraftBoard {
    pub league_name: Option<String>,
    pub season: u16,
    pub team_count: usize,
    /// The league's configured starting lineup, as slot label and count per team.
    pub starting_lineup: Vec<(String, u32)>,
    /// How many leaguewide starters each position ends up supplying once flex slots are
    /// allocated to whoever actually fills them, by position label.
    pub starters_by_position: Vec<(String, usize)>,
    /// Replacement-level points per position label, in tenths.
    pub replacement_points: Vec<(String, i64)>,
    pub entries: Vec<DraftBoardEntry>,
    /// Live-draft context, absent for a static board.
    pub live: Option<LiveDraftState>,
    /// Best available players at the viewing team's unfilled slots.
    pub recommendations: Vec<Recommendation>,
    /// Pick-file lines that matched no player, or matched several.
    pub unmatched_picks: Vec<String>,
}

/// The column headings of the board table.
pub open spec fn table_heading() -> Seq<char> {
    "   #  Name                     Pos       Proj      VOR     ADP       Δ  Bye\n"@
}

/// The indices of the entries still available, in board order.
pub open spec fn available_indices(entries: Seq<DraftBoardEntry>) -> Seq<int>
    decreases entries.len(),
{
    if entries.len() == 0 {
        seq![]
    } else if !entries.last().drafted {
        available_indices(entries.drop_last()).push(entries.len() - 1)
    } else {
        available_indices(entries.drop_last())
    }
}

/// The board's table shows exactly the entries not yet drafted, in board order: the
/// indices it lists increase, each names an undrafted entry, and every undrafted entry is
/// listed (the table then prints the first `top` of them).
pub proof fn lemma_board_lists_undrafted_in_order(entries: Seq<DraftBoardEntry>)
    ensures
        forall|i: int, j: int| 0 <= i < j < available_indices(entries).len() ==> #[trigger] available_indices(entries)[i]
            < #[trigger] available_indices(entries)[j],
        forall|k: int| 0 <= k < available_indices(entries).len() ==> 0 <= #[trigger] available_indices(entries)[k]
            < entries.len() && !entries[available_indices(entries)[k]].drafted,
        forall|i: int| 0 <= i < entries.len() && !#[trigger] entries[i].drafted ==> available_indices(entries).contains(i),
    decreases entries.len(),
{
    if entries.len() > 0 {
        let d = entries.drop_last();
        lemma_board_lists_undrafted_in_order(d);
        let rest = available_indices(d);
        let all = available_indices(entries);
        let last = entries.len() - 1;
        assert forall|k: int| 0 <= k < rest.len() implies 0 <= #[trigger] rest[k] < d.len() && !entries[rest[k]].drafted by {
            assert(entries[rest[k]] == d[rest[k]]);
        }
        assert forall|i: int| 0 <= i < entries.len() && !#[trigger] entries[i].drafted implies all.contains(i) by {
            if i < last {
                assert(d[i] == entries[i]);
                assert(rest.contains(i));
                let k = choose|k: int| 0 <= k < rest.len() && rest[k] == i;
                if !entries.last().drafted {
                    assert(all[k] == rest[k]);
                }
            } else {
                assert(all[all.len() - 1] == last);
            }
        }
        if !entries.last().drafted {
            assert forall|i: int, j: int| 0 <= i < j < all.len() implies #[trigger] all[i] < #[trigger] all[j] by {
                if j < rest.len() {
                    assert(all[i] == rest[i] && all[j] == rest[j]);
                } else {
                    assert(all[i] == rest[i]);
                }
            }
            assert forall|k: int| 0 <= k < all.len() implies 0 <= #[trigger] all[k] < entries.len() && !entries[all[k]].drafted by {
                if k < rest.len() {
                    assert(all[k] == rest[k]);
                }
            }
        }
    }
}

/// One row of the board table.
pub open spec fn board_row(e: DraftBoardEntry) -> Seq<char> {
    crate::text::pad_left(decimal(e.value_rank as nat), 4) + "  "@ + crate::text::pad_right(crate::text::first_chars(e.name@, 24), 24)
        + " "@ + crate::text::pad_right(label_of(e.position), 6) + " "@ + crate::text::pad_left(
        crate::text::tenths_text(e.projected_points as int),
        7,
    ) + " "@ + crate::text::pad_left(crate::text::tenths_text(e.value_over_replacement as int), 8) + " "@
        + crate::text::pad_left(adp_text(e.average_draft_position), 7) + " "@ + crate::text::pad_left(
        match e.adp_delta {
            Some(d) => crate::text::signed_whole_text(d as int),
            None => "--"@,
        },
        7,
    ) + " "@ + crate::text::pad_left(
        match e.bye_week {
            Some(b) => decimal(b as nat),
            None => "--"@,
        },
        4,
    ) + "\n"@
}

/// The table rows: the first `top` available entries.
pub open spec fn board_rows(entries: Seq<DraftBoardEntry>, top: int) -> Seq<char> {
    let shown = available_indices(entries);
    let n = if shown.len() < top { shown.len() as int } else { top };
    crate::text::join_with(Seq::new(n as nat, |k: int| board_row(entries[shown[k]])), Seq::<char>::empty())
}

/// The league title line.
pub open spec fn board_title(board: DraftBoard) -> Seq<char> {
    match board.league_name {
        Some(n) => n@ + " · "@ + decimal(board.season as nat) + " · "@ + decimal(board.team_count as nat) + " teams\n"@,
        None => Seq::<char>::empty(),
    }
}

/// The starting lineup line, `QB RB2 WR2 ...`.
pub open spec fn lineup_line(lineup: Seq<(String, u32)>) -> Seq<char> {
    if lineup.len() == 0 {
        Seq::<char>::empty()
    } else {
        "Starting lineup: "@ + crate::text::join_with(
            lineup.map_values(|e: (String, u32)| if e.1 > 1 { e.0@ + decimal(e.1 as nat) } else { e.0@ }),
            " "@,
        ) + "\n"@
    }
}

/// The leaguewide starter allocation line.
pub open spec fn allocation_line(alloc: Seq<(String, usize)>) -> Seq<char> {
    if alloc.len() == 0 {
        Seq::<char>::empty()
    } else {
        "Starters drafted leaguewide: "@ + crate::text::join_with(
            alloc.map_values(|e: (String, usize)| e.0@ + " "@ + decimal(e.1 as nat)),
            " · "@,
        ) + "\n"@
    }
}

/// The block listing pick-file lines that resolved to no single player.
pub open spec fn unmatched_block(lines: Seq<String>) -> Seq<char> {
    if lines.len() == 0 {
        Seq::<char>::empty()
    } else {
        "\n"@ + "!! Unresolved lines in the pick file (these players are STILL on the board):\n"@
            + crate::text::join_with(lines.map_values(|l: String| "     "@ + l@ + "\n"@), Seq::<char>::empty())
    }
}

/// The replacement-level footer.
pub open spec fn replacement_footer(points: Seq<(String, i64)>) -> Seq<char> {
    "Replacement level: "@ + crate::text::join_with(
        points.map_values(|e: (String, i64)| e.0@ + " "@ + crate::text::whole_text(e.1 as int)),
        " · "@,
    ) + "\n"@ + "Δ = ADP minus value rank; positive means the player usually goes later than this board rates them.\n"@
}

/// The whole board as text: context lines, live banner, unresolved pick lines,
/// recommendations, then up to `top` available players and the replacement levels.
pub open spec fn board_render(board: DraftBoard, top: int) -> Seq<char> {
    "\n"@ + board_title(board) + lineup_line(board.starting_lineup@) + allocation_line(board.starters_by_position@)
        + match board.live {
        Some(l) => live_header(l),
        None => Seq::<char>::empty(),
    } + unmatched_block(board.unmatched_picks@) + (if board.recommendations@.len() == 0 {
        Seq::<char>::empty()
    } else {
        recommendations_block(board.recommendations@, match board.live { Some(l) => l.next_pick_overall, None => None })
    }) + "\n"@ + table_heading() + Seq::new(76, |i: int| '-') + "\n"@ + board_rows(board.entries@, top) + "\n"@
        + replacement_footer(board.replacement_points@)
}

fn board_row_chars(e: &DraftBoardEntry) -> (out: Vec<char>)
    ensures
        out@ == board_row(*e),
{
    let mut line = crate::text::pad_left_chars(&u64_to_decimal(e.value_rank as u64), 4);
    append_chars(&mut line, &text("  "));
    append_chars(&mut line, &crate::text::pad_right_chars(&crate::text::first_chars_of(&chars_of(e.name.as_str()), 24), 24));
    append_chars(&mut line, &text(" "));
    append_chars(&mut line, &crate::text::pad_right_chars(&crate::cli::types::position::label_chars(e.position), 6));
    append_chars(&mut line, &text(" "));
    append_chars(&mut line, &crate::text::pad_left_chars(&crate::text::tenths_chars(e.projected_points), 7));
    append_chars(&mut line, &text(" "));
    append_chars(&mut line, &crate::text::pad_left_chars(&crate::text::tenths_wide_chars(e.value_over_replacement), 8));
    append_chars(&mut line, &text(" "));
    append_chars(&mut line, &crate::text::pad_left_chars(&adp_chars(e.average_draft_position), 7));
    append_chars(&mut line, &text(" "));
    let delta = match e.adp_delta {
        Some(d) => crate::text::signed_whole_chars(d),
        None => text("--"),
    };
    append_chars(&mut line, &crate::text::pad_left_chars(&delta, 7));
    append_chars(&mut line, &text(" "));
    let bye = match e.bye_week {
        Some(b) => u64_to_decimal(b as u64),
        None => text("--"),
    };
    append_chars(&mut line, &crate::text::pad_left_chars(&bye, 4));
    append_chars(&mut line, &text("\n"));
    proof {
        assert(line@ =~= board_row(*e));
    }
    line
}

proof fn lemma_available_prefix(entries: Seq<DraftBoardEntry>, n: int)
    requires
        0 <= n <= entries.len(),
    ensures
        available_indices(entries.take(n)) == available_indices(entries).take(available_indices(entries.take(n)).len() as int),
        available_indices(entries.take(n)).len() <= available_indices(entries).len(),
        forall|k: int| 0 <= k < available_indices(entries).len() ==> 0 <= #[trigger] available_indices(entries)[k] < entries.len(),
    decreases entries.len() - n,
{
    lemma_available_bounds(entries);
    if n == entries.len() {
        assert(entries.take(n) =~= entries);
        assert(available_indices(entries).take(available_indices(entries).len() as int) =~= available_indices(entries));
    } else {
        lemma_available_prefix(entries, n + 1);
        assert(entries.take(n + 1).drop_last() =~= entries.take(n));
        let a = available_indices(entries.take(n));
        let b = available_indices(entries.take(n + 1));
        assert(a =~= b.take(a.len() as int));
        assert(a =~= available_indices(entries).take(a.len() as int));
    }
}

proof fn lemma_available_bounds(entries: Seq<DraftBoardEntry>)
    ensures
        available_indices(entries).len() <= entries.len(),
        forall|k: int| 0 <= k < available_indices(entries).len() ==> 0 <= #[trigger] available_indices(entries)[k] < entries.len(),
    decreases entries.len(),
{
    if entries.len() > 0 {
        lemma_available_bounds(entries.drop_last());
    }
}

fn board_rows_chars(entries: &Vec<DraftBoardEntry>, top: usize) -> (out: Vec<char>)
    ensures
        out@ == board_rows(entries@, top as int),
{
    let ghost shown = available_indices(entries@);
    let ghost n = if shown.len() < top { shown.len() as int } else { top as int };
    let ghost rows = Seq::new(n as nat, |k: int| board_row(entries@[shown[k]]));
    proof {
        lemma_available_bounds(entries@);
    }
    let mut parts: Vec<Vec<char>> = Vec::new();
    let mut i: usize = 0;
    while i < entries.len() && parts.len() < top
        invariant
            i <= entries@.len(),
            shown == available_indices(entries@),
            n == (if shown.len() < top { shown.len() as int } else { top as int }),
            rows == Seq::new(n as nat, |k: int| board_row(entries@[shown[k]])),
            forall|k: int| 0 <= k < shown.len() ==> 0 <= #[trigger] shown[k] < entries@.len(),
            parts@.len() <= top,
            available_indices(entries@.take(i as int)) == shown.take(parts@.len() as int),
            parts@.len() == available_indices(entries@.take(i as int)).len(),
            parts@.len() <= shown.len(),
            char_views(parts@) == rows.take(parts@.len() as int),
        decreases entries@.len() - i,
    {
        proof {
            lemma_available_prefix(entries@, i + 1);
            assert(entries@.take(i + 1).drop_last() =~= entries@.take(i as int));
            assert(entries@.take(i + 1).last() == entries@[i as int]);
        }
        if !entries[i].drafted {
            let row = board_row_chars(&entries[i]);
            let ghost before = char_views(parts@);
            let ghost rv = row@;
            let ghost k = parts@.len() as int;
            parts.push(row);
            proof {
                let t = available_indices(entries@.take(i + 1));
                assert(t.last() == i as int);
                assert(shown[k] == i as int);
                assert(char_views(parts@) =~= before.push(rv));
                assert(rows.take(k + 1) =~= rows.take(k).push(rows[k]));
            }
        }
        i = i + 1;
    }
    proof {
        if parts@.len() < top {
            assert(entries@.take(i as int) =~= entries@);
        }
        assert(rows.take(parts@.len() as int) =~= rows);
    }
    crate::text::join_chars(&parts, &Vec::new())
}

fn lineup_chars(lineup: &Vec<(String, u32)>) -> (out: Vec<char>)
    ensures
        out@ == lineup_line(lineup@),
{
    if lineup.len() == 0 {
        return Vec::new();
    }
    let ghost items = lineup@.map_values(|e: (String, u32)| if e.1 > 1 { e.0@ + decimal(e.1 as nat) } else { e.0@ });
    let mut parts: Vec<Vec<char>> = Vec::new();
    let mut i: usize = 0;
    while i < lineup.len()
        invariant
            i <= lineup@.len(),
            items == lineup@.map_values(|e: (String, u32)| if e.1 > 1 { e.0@ + decimal(e.1 as nat) } else { e.0@ }),
            char_views(parts@) == items.take(i as int),
        decreases lineup@.len() - i,
    {
        let mut p = chars_of(lineup[i].0.as_str());
        if lineup[i].1 > 1 {
            append_chars(&mut p, &u64_to_decimal(lineup[i].1 as u64));
        }
        let ghost before = char_views(parts@);
        let ghost pv = p@;
        parts.push(p);
        proof {
            assert(pv == items[i as int]);
            assert(char_views(parts@) =~= before.push(pv));
            assert(items.take(i + 1) =~= items.take(i as int).push(items[i as int]));
        }
        i = i + 1;
    }
    proof {
        assert(items.take(i as int) =~= items);
    }
    let mut out = text("Starting lineup: ");
    append_chars(&mut out, &crate::text::join_chars(&parts, &text(" ")));
    append_chars(&mut out, &text("\n"));
    out
}

fn allocation_chars(alloc: &Vec<(String, usize)>) -> (out: Vec<char>)
    ensures
        out@ == allocation_line(alloc@),
{
    if alloc.len() == 0 {
        return Vec::new();
    }
    let ghost items = alloc@.map_values(|e: (String, usize)| e.0@ + " "@ + decimal(e.1 as nat));
    let mut parts: Vec<Vec<char>> = Vec::new();
    let mut i: usize = 0;
    while i < alloc.len()
        invariant
            i <= alloc@.len(),
            items == alloc@.map_values(|e: (String, usize)| e.0@ + " "@ + decimal(e.1 as nat)),
            char_views(parts@) == items.take(i as int),
        decreases alloc@.len() - i,
    {
        let mut p = chars_of(alloc[i].0.as_str());
        append_chars(&mut p, &text(" "));
        append_chars(&mut p, &u64_to_decimal(alloc[i].1 as u64));
        let ghost before = char_views(parts@);
        let ghost pv = p@;
        parts.push(p);
        proof {
            assert(pv == items[i as int]);
            assert(char_views(parts@) =~= before.push(pv));
            assert(items.take(i + 1) =~= items.take(i as int).push(items[i as int]));
        }
        i = i + 1;
    }
    proof {
        assert(items.take(i as int) =~= items);
    }
    let mut out = text("Starters drafted leaguewide: ");
    append_chars(&mut out, &crate::text::join_chars(&parts, &text(" · ")));
    append_chars(&mut out, &text("\n"));
    out
}

fn unmatched_chars(lines: &Vec<String>) -> (out: Vec<char>)
    ensures
        out@ == unmatched_block(lines@),
{
    if lines.len() == 0 {
        return Vec::new();
    }
    let ghost items = lines@.map_values(|l: String| "     "@ + l@ + "\n"@);
    let mut parts: Vec<Vec<char>> = Vec::new();
    let mut i: usize = 0;
    while i < lines.len()
        invariant
            i <= lines@.len(),
            items == lines@.map_values(|l: String| "     "@ + l@ + "\n"@),
            char_views(parts@) == items.take(i as int),
        decreases lines@.len() - i,
    {
        let mut p = text("     ");
        append_chars(&mut p, &chars_of(lines[i].as_str()));
        append_chars(&mut p, &text("\n"));
        let ghost before = char_views(parts@);
        let ghost pv = p@;
        parts.push(p);
        proof {
            assert(pv == items[i as int]);
            assert(char_views(parts@) =~= before.push(pv));
            assert(items.take(i + 1) =~= items.take(i as int).push(items[i as int]));
        }
        i = i + 1;
    }
    proof {
        assert(items.take(i as int) =~= items);
    }
    let mut out = text("\n");
    append_chars(&mut out, &text("!! Unresolved lines in the pick file (these players are STILL on the board):\n"));
    append_chars(&mut out, &crate::text::join_chars(&parts, &Vec::new()));
    out
}

fn replacement_chars(points: &Vec<(String, i64)>) -> (out: Vec<char>)
    ensures
        out@ == replacement_footer(points@),
{
    let ghost items = points@.map_values(|e: (String, i64)| e.0@ + " "@ + crate::text::whole_text(e.1 as int));
    let mut parts: Vec<Vec<char>> = Vec::new();
    let mut i: usize = 0;
    while i < points.len()
        invariant
            i <= points@.len(),
            items == points@.map_values(|e: (String, i64)| e.0@ + " "@ + crate::text::whole_text(e.1 as int)),
            char_views(parts@) == items.take(i as int),
        decreases points@.len() - i,
    {
        let mut p = chars_of(points[i].0.as_str());
        append_chars(&mut p, &text(" "));
        append_chars(&mut p, &crate::text::whole_chars(points[i].1 as i128));
        let ghost before = char_views(parts@);
        let ghost pv = p@;
        parts.push(p);
        proof {
            assert(pv == items[i as int]);
            assert(char_views(parts@) =~= before.push(pv));
            assert(items.take(i + 1) =~= items.take(i as int).push(items[i as int]));
        }
        i = i + 1;
    }
    proof {
        assert(items.take(i as int) =~= items);
    }
    let mut out = text("Replacement level: ");
    append_chars(&mut out, &crate::text::join_chars(&parts, &text(" · ")));
    append_chars(&mut out, &text("\n"));
    append_chars(&mut out, &text("Δ = ADP minus value rank; positive means the player usually goes later than this board rates them.\n"));
    out
}

/// Render the board to text.
///
/// Built as a string rather than printed directly so live mode can repaint it in place.
pub fn board_text(board: &DraftBoard, top: usize) -> (out: String)
    requires
        board.recommendations@.len() < u64::MAX,
    ensures
        out@ == board_render(*board, top as int),
{
    let mut out = text("\n");
    if let Some(name) = &board.league_name {
        append_chars(&mut out, &chars_of(name.as_str()));
        append_chars(&mut out, &text(" · "));
        append_chars(&mut out, &u64_to_decimal(board.season as u64));
        append_chars(&mut out, &text(" · "));
        append_chars(&mut out, &u64_to_decimal(board.team_count as u64));
        append_chars(&mut out, &text(" teams\n"));
    }
    let ghost head = out@;
    assert(head == "\n"@ + board_title(*board));
    append_chars(&mut out, &lineup_chars(&board.starting_lineup));
    append_chars(&mut out, &allocation_chars(&board.starters_by_position));
    if let Some(live) = &board.live {
        append_chars(&mut out, &chars_of(live_header_text(live).as_str()));
    }
    append_chars(&mut out, &unmatched_chars(&board.unmatched_picks));
    if board.recommendations.len() > 0 {
        let recs = recommendations_text(board.recommendations.as_slice(), board.live.as_ref());
        append_chars(&mut out, &chars_of(recs.as_str()));
    }
    append_chars(&mut out, &text("\n"));
    append_chars(&mut out, &text("   #  Name                     Pos       Proj      VOR     ADP       Δ  Bye\n"));
    append_chars(&mut out, &crate::text::repeat_char('-', 76));
    append_chars(&mut out, &text("\n"));
    append_chars(&mut out, &board_rows_chars(&board.entries, top));
    append_chars(&mut out, &text("\n"));
    append_chars(&mut out, &replacement_chars(&board.replacement_points));
    proof {
        assert(out@ =~= board_render(*board, top as int));
    }
    string_of(&out)
}

} // verus!

verus! {

/// Infer a player's bye week from the gap in ESPN's weekly projections.
///
/// ESPN emits a projection block for every week of the season but leaves it empty on the
/// bye, so the missing week in an otherwise complete run is the bye.
pub fn infer_bye_week(weeks: &[u16]) -> (out: Option<u16>)
    ensures
        match out {
            Some(w) => weeks@.len() > 0 && weeks@[0] <= w <= weeks@.last() && !weeks@.contains(w)
                && forall|v: u16| weeks@[0] <= v < w ==> weeks@.contains(v),
            None => weeks@.len() == 0 || forall|v: u16| weeks@[0] <= v <= weeks@.last() ==> weeks@.contains(v),
        },
{
    if weeks.len() == 0 {
        return None;
    }
    let first = weeks[0];
    let last = weeks[weeks.len() - 1];
    let mut w: u16 = first;
    while w <= last
        invariant
            weeks@.len() > 0,
            first == weeks@[0],
            last == weeks@.last(),
            first <= w,
            forall|v: u16| first <= v < w ==> weeks@.contains(v),
        decreases last as int + 1 - w as int,
    {
        let mut present = false;
        let mut k: usize = 0;
        while k < weeks.len()
            invariant
                k <= weeks@.len(),
                present == exists|m: int| 0 <= m < k && weeks@[m] == w,
            decreases weeks@.len() - k,
        {
            if weeks[k] == w {
                present = true;
            }
            k = k + 1;
        }
        if !present {
            proof {
                assert(!weeks@.contains(w));
            }
            return Some(w);
        }
        if w == u16::MAX {
            return None;
        }
        w = w + 1;
    }
    None
}

} // verus!
