//! Value over replacement for draft ranking.
//!
//! Raw projected points are not directly comparable across positions: a 300-point QB is
//! ordinary when every team can start a 280-point QB, while a 240-point TE is a large edge
//! when the twelfth-best TE scores 150. Value over replacement (VOR) removes that by
//! measuring each player against the worst starter their league will actually field.
//!
//! The replacement level is derived from the league's own roster settings rather than a
//! convention, so a league that starts two flex spots or a superflex gets different numbers.
//!
//! Points are fixed-point integers in whatever unit the caller scores in (tenths of a
//! point, say); the rules below only compare and subtract them.

use crate::cli::types::position::{fills, player_positions, slot_of, Position, SLOT_FLEX};
use crate::espn::types::{lineup_counts, LeagueSettings};
use vstd::math::min;
use vstd::prelude::*;

verus! {

/// A player reduced to the fields VOR needs.
#[derive(Debug, Clone, Copy, PartialEq, Eq, Structural)]
pub struct Projected {
    pub position: Position,
    pub points: i64,
}

/// How many players at each position a league starts across all teams, and the points of
/// the replacement-level player at each of those positions.
///
/// Both tables list each position at most once, in draft-board order.
#[derive(Debug, Clone)]
pub struct ReplacementLevels {
    /// Number of starters leaguewide at each position, flex slots included.
    pub starter_counts: Vec<(Position, usize)>,
    /// Points scored by the first player after the last starter at each position.
    pub replacement_points: Vec<(Position, i64)>,
}

/// The value a keyed table holds for `p` (the last entry for `p` wins).
pub open spec fn entry_for<V>(s: Seq<(Position, V)>, p: Position) -> Option<V>
    decreases s.len(),
{
    if s.len() == 0 {
        None
    } else if s.last().0 == p {
        Some(s.last().1)
    } else {
        entry_for(s.drop_last(), p)
    }
}

/// `x` placed before the first element of `s` that it is not smaller than.
pub open spec fn insert_desc(s: Seq<i64>, x: i64) -> Seq<i64>
    decreases s.len(),
{
    if s.len() == 0 {
        seq![x]
    } else if x >= s[0] {
        seq![x] + s
    } else {
        seq![s[0]] + insert_desc(s.drop_first(), x)
    }
}

/// `s` sorted from best to worst.
pub open spec fn sort_desc(s: Seq<i64>) -> Seq<i64>
    decreases s.len(),
{
    if s.len() == 0 {
        seq![]
    } else {
        insert_desc(sort_desc(s.drop_last()), s.last())
    }
}

/// Whether `s` runs from best to worst.
pub open spec fn sorted_desc(s: Seq<i64>) -> bool {
    forall|i: int, j: int| 0 <= i <= j < s.len() ==> s[i] >= s[j]
}

/// The points of the pool's players at `p`, in pool order.
pub open spec fn points_at(pool: Seq<Projected>, p: Position) -> Seq<i64>
    decreases pool.len(),
{
    if pool.len() == 0 {
        seq![]
    } else if pool.last().position == p {
        points_at(pool.drop_last(), p).push(pool.last().points)
    } else {
        points_at(pool.drop_last(), p)
    }
}

/// The points at `p`, best first.
pub open spec fn ranked(pool: Seq<Projected>, p: Position) -> Seq<i64> {
    sort_desc(points_at(pool, p))
}

/// Whether the league has a dedicated starting slot for `p`.
pub open spec fn has_dedicated(settings: LeagueSettings, p: Position) -> bool {
    lineup_counts(settings.roster_settings.lineup_slot_counts@)[slot_of(p) as int] > 0
}

/// Leaguewide starters at `p` from its dedicated slot alone.
pub open spec fn dedicated(settings: LeagueSettings, team_count: int, p: Position) -> int {
    lineup_counts(settings.roster_settings.lineup_slot_counts@)[slot_of(p) as int] * team_count
}

/// Leaguewide flex slots.
pub open spec fn flex_total(settings: LeagueSettings, team_count: int) -> int {
    lineup_counts(settings.roster_settings.lineup_slot_counts@)[SLOT_FLEX as int] * team_count
}

/// Whether `p` is eligible for the flex slot.
pub open spec fn flex_eligible(p: Position) -> bool {
    fills(p, SLOT_FLEX)
}

/// The starters a table of levels assigns to `p` (0 when `p` has no entry).
pub open spec fn starters(levels: ReplacementLevels, p: Position) -> int {
    match entry_for(levels.starter_counts@, p) {
        Some(n) => n as int,
        None => 0,
    }
}

/// Flex starters beyond the dedicated ones that a table of levels gives `p`.
pub open spec fn flex_extra(levels: ReplacementLevels, settings: LeagueSettings, team_count: int, p: Position) -> int {
    starters(levels, p) - dedicated(settings, team_count, p)
}

/// How many more flex starters `p` could supply beyond its dedicated ones.
pub open spec fn flex_room(pool: Seq<Projected>, settings: LeagueSettings, team_count: int, p: Position) -> int {
    let room = ranked(pool, p).len() - dedicated(settings, team_count, p);
    if room > 0 { room } else { 0 }
}

/// The replacement points a table of levels gives `p`: the player after the last starter,
/// or the worst available when the pool is shallower than the starters.
pub open spec fn replacement_level(list: Seq<i64>, starters: int) -> i64 {
    if starters < list.len() { list[starters] } else { list.last() }
}

/// The levels `out` are those of `settings`, `pool` and `team_count`:
/// - a non-flex position has its dedicated starters, and an entry exactly when it has a
///   dedicated slot;
/// - flex slots go to the best players left after the dedicated starters: each flex
///   position keeps its dedicated starters and gains only players the pool has, the flex
///   positions together gain as many as there are flex slots or players to fill them,
///   and every player taken this way scores at least as much as every flex-eligible
///   player left over;
/// - a position with starters and players has as replacement level the player after its
///   last starter, or the worst player when the pool runs out first.
pub open spec fn levels_of(out: ReplacementLevels, settings: LeagueSettings, pool: Seq<Projected>, team_count: int) -> bool {
    let rb = Position::RB;
    let wr = Position::WR;
    let te = Position::TE;
    &&& forall|p: Position| #[trigger] player_positions().contains(p) && !flex_eligible(p) ==> entry_for(
        out.starter_counts@,
        p,
    ) == (if has_dedicated(settings, p) {
        Some(dedicated(settings, team_count, p) as usize)
    } else {
        None
    })
    &&& forall|p: Position| #[trigger] flex_eligible(p) ==> {
        &&& flex_extra(out, settings, team_count, p) >= 0
        &&& flex_extra(out, settings, team_count, p) > 0 ==> starters(out, p) <= ranked(pool, p).len()
        &&& (entry_for(out.starter_counts@, p) is Some <==> (has_dedicated(settings, p)
            || flex_extra(out, settings, team_count, p) > 0))
    }
    &&& flex_extra(out, settings, team_count, rb) + flex_extra(out, settings, team_count, wr)
        + flex_extra(out, settings, team_count, te) == min(
        flex_total(settings, team_count),
        flex_room(pool, settings, team_count, rb) + flex_room(pool, settings, team_count, wr)
            + flex_room(pool, settings, team_count, te),
    )
    &&& forall|p: Position, q: Position|
        #[trigger] flex_eligible(p) && #[trigger] flex_eligible(q) && flex_extra(out, settings, team_count, p) > 0
            && starters(out, q) < ranked(pool, q).len() ==> ranked(pool, p)[starters(out, p) - 1]
            >= ranked(pool, q)[starters(out, q)]
    &&& forall|p: Position| #[trigger] player_positions().contains(p) ==> entry_for(
        out.replacement_points@,
        p,
    ) == (if entry_for(out.starter_counts@, p) is Some && ranked(pool, p).len() > 0 {
        Some(replacement_level(ranked(pool, p), starters(out, p)))
    } else {
        None
    })
    &&& forall|p: Position| !player_positions().contains(p) ==> entry_for(out.starter_counts@, p) is None
        && entry_for(out.replacement_points@, p) is None
}

impl ReplacementLevels {
    /// Points the replacement-level player at this position scores.
    ///
    /// Positions the league does not start have no replacement level and yield 0, which
    /// makes their VOR equal to their raw projection.
    pub fn replacement_for(&self, position: Position) -> (out: i64)
        ensures
            out == match entry_for(self.replacement_points@, position) {
                Some(v) => v,
                None => 0,
            },
    {
        let mut i: usize = self.replacement_points.len();
        proof {
            assert(self.replacement_points@.take(i as int) =~= self.replacement_points@);
        }
        while i > 0
            invariant
                i <= self.replacement_points@.len(),
                entry_for(self.replacement_points@, position) == entry_for(
                    self.replacement_points@.take(i as int),
                    position,
                ),
            decreases i,
        {
            let ghost t = self.replacement_points@.take(i as int);
            proof {
                assert(t.drop_last() =~= self.replacement_points@.take(i - 1));
            }
            if self.replacement_points[i - 1].0 == position {
                return self.replacement_points[i - 1].1;
            }
            i = i - 1;
        }
        0
    }

    /// Value of a player over the replacement level at their position.
    pub fn value_over_replacement(&self, position: Position, points: i64) -> (out: i128)
        ensures
            out == points - match entry_for(self.replacement_points@, position) {
                Some(v) => v,
                None => 0,
            },
    {
        points as i128 - self.replacement_for(position) as i128
    }
}

proof fn lemma_insert_desc_at(s: Seq<i64>, x: i64, pos: int)
    requires
        0 <= pos <= s.len(),
        forall|k: int| 0 <= k < pos ==> #[trigger] s[k] > x,
        pos < s.len() ==> x >= s[pos],
    ensures
        insert_desc(s, x) == s.insert(pos, x),
    decreases pos,
{
    if s.len() == 0 {
        assert(s.insert(pos, x) =~= seq![x]);
    } else if pos == 0 {
        assert(s.insert(pos, x) =~= seq![x] + s);
    } else {
        let t = s.drop_first();
        assert forall|k: int| 0 <= k < pos - 1 implies #[trigger] t[k] > x by {
            assert(t[k] == s[k + 1]);
        }
        lemma_insert_desc_at(t, x, pos - 1);
        assert(s.insert(pos, x) =~= seq![s[0]] + t.insert(pos - 1, x));
    }
}

/// `points` from best to worst.
pub fn sort_points_desc(points: &Vec<i64>) -> (out: Vec<i64>)
    ensures
        out@ == sort_desc(points@),
        sorted_desc(out@),
        out@.len() == points@.len(),
{
    let mut out: Vec<i64> = Vec::new();
    let mut i: usize = 0;
    while i < points.len()
        invariant
            i <= points@.len(),
            out@ == sort_desc(points@.take(i as int)),
            sorted_desc(out@),
            out@.len() == i,
        decreases points@.len() - i,
    {
        let x = points[i];
        let mut pos: usize = 0;
        while pos < out.len() && out[pos] > x
            invariant
                pos <= out@.len(),
                forall|k: int| 0 <= k < pos ==> #[trigger] out@[k] > x,
            decreases out@.len() - pos,
        {
            pos = pos + 1;
        }
        let ghost before = out@;
        proof {
            lemma_insert_desc_at(before, x, pos as int);
            assert(points@.take(i + 1).drop_last() =~= points@.take(i as int));
            assert(points@.take(i + 1).last() == x);
        }
        out.insert(pos, x);
        proof {
            assert(out@ =~= before.insert(pos as int, x));
            assert forall|a: int, b: int| 0 <= a <= b < out@.len() implies out@[a] >= out@[b] by {
                if a < pos && b > pos {
                    assert(out@[a] == before[a] && out@[b] == before[b - 1]);
                } else if a < pos && b == pos {
                    assert(out@[a] == before[a]);
                } else if a == pos && b > pos {
                    assert(out@[b] == before[b - 1]);
                } else if a > pos {
                    assert(out@[a] == before[a - 1] && out@[b] == before[b - 1]);
                } else if b < pos {
                    assert(out@[a] == before[a] && out@[b] == before[b]);
                }
            }
        }
        i = i + 1;
    }
    proof {
        assert(points@.take(i as int) =~= points@);
    }
    out
}

/// The points of the pool's players at `position`, in pool order.
fn collect_points(pool: &[Projected], position: Position) -> (out: Vec<i64>)
    ensures
        out@ == points_at(pool@, position),
        out@.len() <= pool@.len(),
{
    let mut out: Vec<i64> = Vec::new();
    let mut i: usize = 0;
    while i < pool.len()
        invariant
            i <= pool@.len(),
            out@ == points_at(pool@.take(i as int), position),
            out@.len() <= i,
        decreases pool@.len() - i,
    {
        proof {
            assert(pool@.take(i + 1).drop_last() =~= pool@.take(i as int));
            assert(pool@.take(i + 1).last() == pool@[i as int]);
        }
        if pool[i].position == position {
            out.push(pool[i].points);
        }
        i = i + 1;
    }
    proof {
        assert(pool@.take(i as int) =~= pool@);
    }
    out
}

/// The count of a starting slot, or 0 when the league does not start it.
fn count_of_slot(starting: &Vec<(u8, u32)>, slot: u8, Ghost(counts): Ghost<Seq<u32>>) -> (out: u32)
    requires
        counts.len() == 256,
        forall|i: int| 0 <= i < starting@.len() ==> #[trigger] starting@[i].1 == counts[starting@[i].0 as int]
            && starting@[i].1 > 0,
        forall|s: int| 0 <= s < 256 && #[trigger] counts[s] > 0 && s != 20 && s != 21 ==> exists|i: int|
            0 <= i < starting@.len() && starting@[i].0 == s,
        slot != 20 && slot != 21,
    ensures
        out == counts[slot as int],
{
    let mut i: usize = 0;
    while i < starting.len()
        invariant
            i <= starting@.len(),
            counts.len() == 256,
            forall|i: int| 0 <= i < starting@.len() ==> #[trigger] starting@[i].1 == counts[starting@[i].0 as int]
                && starting@[i].1 > 0,
            forall|k: int| 0 <= k < i ==> #[trigger] starting@[k].0 != slot,
        decreases starting@.len() - i,
    {
        if starting[i].0 == slot {
            assert(starting@[i as int].1 == counts[slot as int]);
            return starting[i].1;
        }
        i = i + 1;
    }
    proof {
        if counts[slot as int] > 0 {
            let k = choose|k: int| 0 <= k < starting@.len() && starting@[k].0 == slot;
            assert(starting@[k].0 != slot);
        }
    }
    0
}

/// The twelve player positions, in draft-board order.
fn board_positions() -> (out: Vec<Position>)
    ensures
        out@ == player_positions(),
{
    let out: Vec<Position> = vec![
        Position::QB, Position::RB, Position::WR, Position::TE, Position::K, Position::DEF,
        Position::P, Position::DT, Position::DE, Position::LB, Position::DB, Position::S,
    ];
    assert(out@ == player_positions());
    out
}

proof fn lemma_no_dedicated(settings: LeagueSettings, team_count: int, p: Position)
    requires
        !has_dedicated(settings, p),
    ensures
        dedicated(settings, team_count, p) == 0,
{
    let c = lineup_counts(settings.roster_settings.lineup_slot_counts@)[slot_of(p) as int];
    assert(c == 0);
    assert(c * team_count == 0) by (nonlinear_arith)
        requires
            c == 0,
    ;
}

/// The tables built from per-position lists and counts satisfy [`levels_of`].
proof fn lemma_levels_hold(
    out: ReplacementLevels,
    settings: LeagueSettings,
    pool: Seq<Projected>,
    team_count: int,
    lists: Seq<Vec<i64>>,
    starter: Seq<usize>,
    present: Seq<bool>,
    taken_flex: Seq<bool>,
    dedicated_counts: Seq<usize>,
    given: int,
)
    requires
        lists.len() == 12 && starter.len() == 12 && present.len() == 12 && taken_flex.len() == 4,
        dedicated_counts.len() == 12,
        forall|j: int| 0 <= j < 12 ==> {
            &&& #[trigger] lists[j]@ == ranked(pool, player_positions()[j])
            &&& present[j] == has_dedicated(settings, player_positions()[j])
            &&& dedicated_counts[j] == dedicated(settings, team_count, player_positions()[j])
        },
        forall|j: int| 0 <= j < 12 && (j < 1 || j > 3) ==> #[trigger] starter[j] == dedicated_counts[j],
        forall|j: int| 1 <= j <= 3 ==> {
            &&& dedicated_counts[j] <= #[trigger] starter[j]
            &&& (starter[j] == dedicated_counts[j] || starter[j] <= lists[j]@.len())
            &&& (taken_flex[j] <==> starter[j] > dedicated_counts[j])
        },
        (starter[1] - dedicated_counts[1]) + (starter[2] - dedicated_counts[2]) + (starter[3]
            - dedicated_counts[3]) == given,
        given <= flex_total(settings, team_count),
        given < flex_total(settings, team_count) ==> forall|b: int| 1 <= b <= 3 ==> #[trigger] starter[b] >= lists[b]@.len(),
        forall|a: int, b: int|
            1 <= a <= 3 && 1 <= b <= 3 && #[trigger] starter[a] > dedicated_counts[a]
                && #[trigger] starter[b] < lists[b]@.len() ==> lists[a]@[starter[a] - 1]
                >= lists[b]@[starter[b] as int],
        forall|j: int| 0 <= j < 12 ==> entry_for(out.starter_counts@, #[trigger] player_positions()[j]) == (if present[j]
            || (1 <= j <= 3 && taken_flex[j]) {
            Some(starter[j])
        } else {
            None
        }),
        forall|j: int| 0 <= j < 12 ==> entry_for(out.replacement_points@, #[trigger] player_positions()[j]) == (if (
        present[j] || (1 <= j <= 3 && taken_flex[j])) && lists[j]@.len() > 0 {
            Some(replacement_level(lists[j]@, starter[j] as int))
        } else {
            None
        }),
        forall|p: Position| (forall|j: int| 0 <= j < 12 ==> player_positions()[j] != p) ==> entry_for(
            #[trigger] out.starter_counts@,
            p,
        ) is None && entry_for(out.replacement_points@, p) is None,
    ensures
        levels_of(out, settings, pool, team_count),
{
    let pp = player_positions();
    // Every flex-eligible position's table entry agrees with its working count.
    assert forall|j: int| 1 <= j <= 3 implies #[trigger] starters(out, pp[j]) == starter[j] by {
        if !present[j] && !taken_flex[j] {
            lemma_no_dedicated(settings, team_count, pp[j]);
        }
    }
    assert forall|j: int| 0 <= j < 12 implies #[trigger] flex_eligible(pp[j]) == (1 <= j <= 3) by {}
    assert(flex_eligible(Position::RB) && pp[1] == Position::RB);
    assert(flex_eligible(Position::WR) && pp[2] == Position::WR);
    assert(flex_eligible(Position::TE) && pp[3] == Position::TE);
    assert forall|p: Position| #[trigger] flex_eligible(p) implies p == pp[1] || p == pp[2] || p == pp[3] by {}
    assert forall|p: Position| #[trigger] player_positions().contains(p) && !flex_eligible(p) implies entry_for(
        out.starter_counts@,
        p,
    ) == (if has_dedicated(settings, p) {
        Some(dedicated(settings, team_count, p) as usize)
    } else {
        None
    }) by {
        let j = choose|j: int| 0 <= j < pp.len() && pp[j] == p;
        assert(!(1 <= j <= 3));
    }
    assert forall|p: Position| #[trigger] flex_eligible(p) implies {
        &&& flex_extra(out, settings, team_count, p) >= 0
        &&& flex_extra(out, settings, team_count, p) > 0 ==> starters(out, p) <= ranked(pool, p).len()
        &&& (entry_for(out.starter_counts@, p) is Some <==> (has_dedicated(settings, p)
            || flex_extra(out, settings, team_count, p) > 0))
    } by {
        let j = if p == pp[1] { 1int } else if p == pp[2] { 2int } else { 3int };
        assert(pp[j] == p);
        assert(starters(out, pp[j]) == starter[j]);
        if !present[j] {
            lemma_no_dedicated(settings, team_count, pp[j]);
        }
    }
    let rb = pp[1];
    let wr = pp[2];
    let te = pp[3];
    assert(starters(out, rb) == starter[1]);
    assert(starters(out, wr) == starter[2]);
    assert(starters(out, te) == starter[3]);
    assert forall|j: int| 1 <= j <= 3 implies flex_extra(out, settings, team_count, #[trigger] pp[j])
        <= flex_room(pool, settings, team_count, pp[j]) by {
        assert(starters(out, pp[j]) == starter[j]);
    }
    if given < flex_total(settings, team_count) {
        assert forall|j: int| 1 <= j <= 3 implies flex_extra(out, settings, team_count, #[trigger] pp[j])
            == flex_room(pool, settings, team_count, pp[j]) by {
            assert(starters(out, pp[j]) == starter[j]);
            assert(starter[j] >= lists[j]@.len());
        }
    }
    assert(flex_extra(out, settings, team_count, rb) <= flex_room(pool, settings, team_count, rb));
    assert(flex_extra(out, settings, team_count, wr) <= flex_room(pool, settings, team_count, wr));
    assert(flex_extra(out, settings, team_count, te) <= flex_room(pool, settings, team_count, te));
    assert forall|p: Position, q: Position|
        #[trigger] flex_eligible(p) && #[trigger] flex_eligible(q) && flex_extra(out, settings, team_count, p) > 0
            && starters(out, q) < ranked(pool, q).len() implies ranked(pool, p)[starters(out, p) - 1]
            >= ranked(pool, q)[starters(out, q)] by {
        let a = if p == pp[1] { 1int } else if p == pp[2] { 2int } else { 3int };
        let b = if q == pp[1] { 1int } else if q == pp[2] { 2int } else { 3int };
        assert(pp[a] == p && pp[b] == q);
        assert(starters(out, pp[a]) == starter[a]);
        assert(starters(out, pp[b]) == starter[b]);
        assert(starter[a] > dedicated_counts[a]);
        assert(starter[b] < lists[b]@.len());
    }
    assert forall|p: Position| #[trigger] player_positions().contains(p) implies entry_for(
        out.replacement_points@,
        p,
    ) == (if entry_for(out.starter_counts@, p) is Some && ranked(pool, p).len() > 0 {
        Some(replacement_level(ranked(pool, p), starters(out, p)))
    } else {
        None
    }) by {
        let j = choose|j: int| 0 <= j < pp.len() && pp[j] == p;
        if 1 <= j <= 3 {
            assert(starters(out, pp[j]) == starter[j]);
        }
    }
    assert forall|p: Position| !player_positions().contains(p) implies entry_for(out.starter_counts@, p) is None
        && entry_for(out.replacement_points@, p) is None by {
        assert forall|j: int| 0 <= j < 12 implies player_positions()[j] != p by {
            assert(player_positions()[j] == pp[j]);
        }
    }
}

proof fn lemma_insert_desc_parts(s: Seq<i64>, x: i64)
    ensures
        insert_desc(s, x).len() == s.len() + 1,
        forall|i: int| 0 <= i < insert_desc(s, x).len() ==> #[trigger] insert_desc(s, x)[i] == x
            || s.contains(insert_desc(s, x)[i]),
    decreases s.len(),
{
    if s.len() > 0 && x < s[0] {
        let t = s.drop_first();
        lemma_insert_desc_parts(t, x);
        let r = insert_desc(s, x);
        assert forall|i: int| 0 <= i < r.len() implies #[trigger] r[i] == x || s.contains(r[i]) by {
            if i == 0 {
                assert(s[0] == r[0]);
            } else {
                assert(r[i] == insert_desc(t, x)[i - 1]);
                if insert_desc(t, x)[i - 1] != x {
                    let k = choose|k: int| 0 <= k < t.len() && t[k] == r[i];
                    assert(s[k + 1] == r[i]);
                }
            }
        }
    }
}

proof fn lemma_insert_desc_sorted(s: Seq<i64>, x: i64)
    requires
        sorted_desc(s),
    ensures
        sorted_desc(insert_desc(s, x)),
    decreases s.len(),
{
    if s.len() > 0 && x < s[0] {
        let t = s.drop_first();
        assert(sorted_desc(t)) by {
            assert forall|i: int, j: int| 0 <= i <= j < t.len() implies t[i] >= t[j] by {
                assert(t[i] == s[i + 1] && t[j] == s[j + 1]);
            }
        }
        lemma_insert_desc_sorted(t, x);
        lemma_insert_desc_parts(t, x);
        let r = insert_desc(s, x);
        let u = insert_desc(t, x);
        assert forall|i: int, j: int| 0 <= i <= j < r.len() implies r[i] >= r[j] by {
            if i == 0 {
                assert(r[0] == s[0]);
                if j > 0 {
                    assert(r[j] == u[j - 1]);
                    if u[j - 1] != x {
                        let k = choose|k: int| 0 <= k < t.len() && t[k] == u[j - 1];
                        assert(t[k] == s[k + 1]);
                    }
                }
            } else {
                assert(r[i] == u[i - 1] && r[j] == u[j - 1]);
            }
        }
    } else if s.len() > 0 {
        let r = insert_desc(s, x);
        assert forall|i: int, j: int| 0 <= i <= j < r.len() implies r[i] >= r[j] by {
            if i > 0 {
                assert(r[i] == s[i - 1] && r[j] == s[j - 1]);
            } else if j > 0 {
                assert(r[j] == s[j - 1]);
            }
        }
    }
}

/// Sorting from best to worst puts every player ahead of those scoring less.
pub proof fn lemma_sort_desc_sorted(s: Seq<i64>)
    ensures
        sorted_desc(sort_desc(s)),
        sort_desc(s).len() == s.len(),
    decreases s.len(),
{
    if s.len() > 0 {
        lemma_sort_desc_sorted(s.drop_last());
        lemma_insert_desc_sorted(sort_desc(s.drop_last()), s.last());
        lemma_insert_desc_parts(sort_desc(s.drop_last()), s.last());
    }
}

/// Every starter at a position scores at least that position's replacement level, so no
/// starter has a negative value over replacement.
pub proof fn lemma_starters_at_least_replacement(
    out: ReplacementLevels,
    settings: LeagueSettings,
    pool: Seq<Projected>,
    team_count: int,
    p: Position,
    k: int,
)
    requires
        levels_of(out, settings, pool, team_count),
        player_positions().contains(p),
        entry_for(out.replacement_points@, p) is Some,
        0 <= k < starters(out, p),
        k < ranked(pool, p).len(),
    ensures
        ranked(pool, p)[k] >= entry_for(out.replacement_points@, p)->0,
{
    lemma_sort_desc_sorted(points_at(pool, p));
    let list = ranked(pool, p);
    assert(entry_for(out.replacement_points@, p) == Some(replacement_level(list, starters(out, p))));
    if starters(out, p) < list.len() {
        assert(list[k] >= list[starters(out, p)]);
    } else {
        assert(list[k] >= list[list.len() - 1]);
    }
}

proof fn lemma_entry_for_push<V>(s: Seq<(Position, V)>, x: (Position, V), p: Position)
    ensures
        entry_for(s.push(x), p) == (if x.0 == p { Some(x.1) } else { entry_for(s, p) }),
{
    assert(s.push(x).drop_last() =~= s);
}

/// The single player position a dedicated lineup slot selects, if any.
pub open spec fn dedicated_position(slot: u8) -> Option<Position> {
    if slot == 0 { Some(Position::QB) }
    else if slot == 2 { Some(Position::RB) }
    else if slot == 4 { Some(Position::WR) }
    else if slot == 6 { Some(Position::TE) }
    else if slot == 17 { Some(Position::K) }
    else if slot == 16 { Some(Position::DEF) }
    else if slot == 18 { Some(Position::P) }
    else if slot == 8 { Some(Position::DT) }
    else if slot == 9 { Some(Position::DE) }
    else if slot == 10 { Some(Position::LB) }
    else if slot == 12 { Some(Position::DB) }
    else if slot == 13 { Some(Position::S) }
    else { None }
}

/// The single position a dedicated lineup slot is filled by.
///
/// Returns `None` for slots no position selects and for multi-position slots, which are
/// handled as flex.
pub fn position_for_slot(slot: u8) -> (out: Option<Position>)
    ensures
        out == dedicated_position(slot),
{
    let candidates = board_positions();
    let mut first: Option<Position> = None;
    let mut matches: usize = 0;
    let mut i: usize = 0;
    while i < candidates.len()
        invariant
            i <= candidates@.len(),
            candidates@ == player_positions(),
            matches <= 1,
            matches == 0 <==> forall|k: int| 0 <= k < i ==> slot_of(#[trigger] candidates@[k]) != slot,
            matches == 0 <==> first is None,
            first matches Some(p) ==> slot_of(p) == slot && candidates@.contains(p),
        decreases candidates@.len() - i,
    {
        let p = candidates[i];
        if p.lineup_slot_ids()[0] == slot {
            proof {
                if matches == 1 {
                    let q = first->0;
                    let k = choose|k: int| 0 <= k < candidates@.len() && candidates@[k] == q;
                    assert(k != i);
                    assert(slot_of(candidates@[k]) == slot_of(candidates@[i as int]));
                }
            }
            if matches == 0 {
                first = Some(p);
            }
            matches = matches + 1;
        }
        i = i + 1;
    }
    if matches == 1 {
        first
    } else {
        proof {
            assert forall|k: int| 0 <= k < 12 implies slot_of(#[trigger] player_positions()[k]) != slot by {
                assert(candidates@[k] == player_positions()[k]);
            }
        }
        None
    }
}

/// Compute replacement levels for a league from its roster settings and a projection pool.
///
/// Dedicated slots are counted first: with 12 teams starting two RBs, the 24 best RBs are
/// starters and the 25th sets the RB replacement level. Flex slots are then handed, one at
/// a time, to the best player still unclaimed across the flex-eligible positions, which is
/// what actually happens in a draft — so a league where flex is usually filled by a WR
/// pushes the WR baseline deeper than the RB one.
#[verifier::rlimit(80)]
pub fn compute_replacement_levels(
    settings: &LeagueSettings,
    pool: &[Projected],
    team_count: usize,
) -> (out: ReplacementLevels)
    requires
        forall|s: int| 0 <= s < 256 ==> lineup_counts(settings.roster_settings.lineup_slot_counts@)[s]
            * team_count <= usize::MAX,
    ensures
        levels_of(out, *settings, pool@, team_count as int),
{
    let ghost counts = lineup_counts(settings.roster_settings.lineup_slot_counts@);
    let starting = settings.starting_lineup_slots();
    let positions = board_positions();

    // Group the pool by position, best first, and count dedicated starters.
    let mut lists: Vec<Vec<i64>> = Vec::new();
    let mut starter: Vec<usize> = Vec::new();
    let mut present: Vec<bool> = Vec::new();
    let mut k: usize = 0;
    while k < 12
        invariant
            k <= 12,
            positions@ == player_positions(),
            counts == lineup_counts(settings.roster_settings.lineup_slot_counts@),
            crate::espn::types::slot_table(starting@, counts, true),
            forall|s: int| 0 <= s < 256 ==> counts[s] * team_count <= usize::MAX,
            lists@.len() == k && starter@.len() == k && present@.len() == k,
            forall|j: int| 0 <= j < k ==> {
                &&& #[trigger] lists@[j]@ == ranked(pool@, player_positions()[j])
                &&& sorted_desc(lists@[j]@)
                &&& lists@[j]@.len() <= pool@.len()
                &&& present@[j] == has_dedicated(*settings, player_positions()[j])
                &&& starter@[j] == dedicated(*settings, team_count as int, player_positions()[j])
            },
        decreases 12 - k,
    {
        let p = positions[k];
        let raw = collect_points(pool, p);
        let sorted = sort_points_desc(&raw);
        let slot = p.lineup_slot_ids()[0];
        assert(slot == slot_of(p));
        assert(p == player_positions()[k as int]);
        let per_team = count_of_slot(&starting, slot, Ghost(counts));
        assert(per_team * team_count <= usize::MAX);
        let total: usize = (per_team as usize) * team_count;
        let ghost before_lists = lists@;
        let ghost before_starter = starter@;
        let ghost before_present = present@;
        assert(sorted@ == ranked(pool@, player_positions()[k as int]));
        lists.push(sorted);
        starter.push(total);
        present.push(per_team > 0);
        proof {
            assert forall|j: int| 0 <= j < k implies #[trigger] lists@[j] == before_lists[j] by {}
            assert forall|j: int| 0 <= j < k implies {
                &&& #[trigger] lists@[j]@ == ranked(pool@, player_positions()[j])
                &&& sorted_desc(lists@[j]@)
                &&& lists@[j]@.len() <= pool@.len()
                &&& present@[j] == has_dedicated(*settings, player_positions()[j])
                &&& starter@[j] == dedicated(*settings, team_count as int, player_positions()[j])
            } by {
                assert(lists@[j] == before_lists[j]);
                assert(starter@[j] == before_starter[j]);
                assert(present@[j] == before_present[j]);
            }
            assert(lists@[k as int]@ == ranked(pool@, player_positions()[k as int]));
            assert(sorted_desc(lists@[k as int]@));
            assert(lists@[k as int]@.len() <= pool@.len());
            assert(present@[k as int] == has_dedicated(*settings, player_positions()[k as int]));
            assert(starter@[k as int] == dedicated(*settings, team_count as int, player_positions()[k as int]));
        }
        k = k + 1;
    }

    // Hand flex slots to the best players not already claimed as dedicated starters.
    let flex_per_team = count_of_slot(&starting, SLOT_FLEX, Ghost(counts));
    let flex_slots: usize = (flex_per_team as usize) * team_count;
    let ghost dedicated_counts = starter@;
    let mut given: usize = 0;
    let mut taken_flex: Vec<bool> = vec![false, false, false, false];
    while given < flex_slots
        invariant_except_break
            given <= flex_slots,
        invariant
            lists@.len() == 12 && starter@.len() == 12 && present@.len() == 12,
            taken_flex@.len() == 4,
            dedicated_counts.len() == 12,
            forall|j: int| 0 <= j < 12 ==> {
                &&& #[trigger] lists@[j]@ == ranked(pool@, player_positions()[j])
                &&& present@[j] == has_dedicated(*settings, player_positions()[j])
                &&& dedicated_counts[j] == dedicated(*settings, team_count as int, player_positions()[j])
            },
            flex_slots == flex_total(*settings, team_count as int),
            forall|j: int| 0 <= j < 12 && (j < 1 || j > 3) ==> #[trigger] starter@[j] == dedicated_counts[j],
            forall|j: int| 0 <= j < 12 ==> #[trigger] sorted_desc(lists@[j]@),
            forall|j: int| 0 <= j < 12 ==> #[trigger] lists@[j]@.len() <= pool@.len(),
            forall|j: int| 1 <= j <= 3 ==> {
                &&& dedicated_counts[j] <= #[trigger] starter@[j]
                &&& (starter@[j] == dedicated_counts[j] || starter@[j] <= lists@[j]@.len())
                &&& (taken_flex@[j] <==> starter@[j] > dedicated_counts[j])
            },
            (starter@[1] - dedicated_counts[1]) + (starter@[2] - dedicated_counts[2]) + (starter@[3]
                - dedicated_counts[3]) == given,
            forall|a: int, b: int|
                1 <= a <= 3 && 1 <= b <= 3 && #[trigger] starter@[a] > dedicated_counts[a]
                    && #[trigger] starter@[b] < lists@[b]@.len() ==> lists@[a]@[starter@[a] - 1]
                    >= lists@[b]@[starter@[b] as int],
        ensures
            (starter@[1] - dedicated_counts[1]) + (starter@[2] - dedicated_counts[2]) + (starter@[3]
                - dedicated_counts[3]) == given,
            given <= flex_slots,
            given < flex_slots ==> forall|b: int| 1 <= b <= 3 ==> #[trigger] starter@[b] >= lists@[b]@.len(),
        decreases flex_slots - given,
    {
        // Pick whichever flex position offers the best remaining player.
        let mut best: usize = 0;
        let mut j: usize = 1;
        while j <= 3
            invariant
                1 <= j <= 4,
                lists@.len() == 12 && starter@.len() == 12,
                best == 0 || (1 <= best < j && starter@[best as int] < lists@[best as int]@.len()),
                best == 0 ==> forall|b: int| 1 <= b < j ==> #[trigger] starter@[b] >= lists@[b]@.len(),
                best != 0 ==> forall|b: int| 1 <= b < j && #[trigger] starter@[b] < lists@[b]@.len()
                    ==> lists@[best as int]@[starter@[best as int] as int] >= lists@[b]@[starter@[b] as int],
            decreases 4 - j,
        {
            if starter[j] < lists[j].len() {
                if best == 0 || lists[j][starter[j]] > lists[best][starter[best]] {
                    best = j;
                }
            }
            j = j + 1;
        }
        if best == 0 {
            break;
        }
        let ghost old_starter = starter@;
        assert(starter@[best as int] < lists@[best as int]@.len());
        assert(lists@[best as int]@.len() <= pool@.len());
        let pool_len = pool.len();
        assert(pool@.len() == pool_len);
        let next = starter[best] + 1;
        starter.set(best, next);
        taken_flex.set(best, true);
        proof {
            assert forall|a: int, b: int|
                1 <= a <= 3 && 1 <= b <= 3 && #[trigger] starter@[a] > dedicated_counts[a]
                    && #[trigger] starter@[b] < lists@[b]@.len() implies lists@[a]@[starter@[a] - 1]
                    >= lists@[b]@[starter@[b] as int] by {
                let la = lists@[a]@;
                let lb = lists@[b]@;
                assert(sorted_desc(la));
                assert(sorted_desc(lb));
                if a == best as int && b == best as int {
                    assert(la[old_starter[a] as int] >= la[old_starter[a] + 1]);
                } else if a == best as int {
                    assert(old_starter[b] == starter@[b]);
                } else if b == best as int {
                    assert(old_starter[a] == starter@[a]);
                    assert(lb[old_starter[b] as int] >= lb[old_starter[b] + 1]);
                } else {
                    assert(old_starter[a] == starter@[a] && old_starter[b] == starter@[b]);
                }
            }
        }
        given = given + 1;
    }

    // Assemble the tables in draft-board order.
    let mut starter_counts: Vec<(Position, usize)> = Vec::new();
    let mut replacement_points: Vec<(Position, i64)> = Vec::new();
    let mut m: usize = 0;
    while m < 12
        invariant
            m <= 12,
            positions@ == player_positions(),
            lists@.len() == 12 && starter@.len() == 12 && present@.len() == 12,
            taken_flex@.len() == 4,
            dedicated_counts.len() == 12,
            forall|j: int| 0 <= j < 12 ==> {
                &&& #[trigger] lists@[j]@ == ranked(pool@, player_positions()[j])
                &&& present@[j] == has_dedicated(*settings, player_positions()[j])
                &&& dedicated_counts[j] == dedicated(*settings, team_count as int, player_positions()[j])
            },
            forall|j: int| 0 <= j < 12 && (j < 1 || j > 3) ==> #[trigger] starter@[j] == dedicated_counts[j],
            forall|j: int| 1 <= j <= 3 ==> {
                &&& dedicated_counts[j] <= #[trigger] starter@[j]
                &&& (starter@[j] == dedicated_counts[j] || starter@[j] <= lists@[j]@.len())
                &&& (taken_flex@[j] <==> starter@[j] > dedicated_counts[j])
            },
            forall|j: int| 0 <= j < m ==> entry_for(starter_counts@, #[trigger] player_positions()[j]) == (if present@[j]
                || (1 <= j <= 3 && taken_flex@[j]) {
                Some(starter@[j])
            } else {
                None
            }),
            forall|j: int| 0 <= j < m ==> entry_for(replacement_points@, #[trigger] player_positions()[j]) == (if (
            present@[j] || (1 <= j <= 3 && taken_flex@[j])) && lists@[j]@.len() > 0 {
                Some(replacement_level(lists@[j]@, starter@[j] as int))
            } else {
                None
            }),
            forall|p: Position| (forall|j: int| 0 <= j < m ==> player_positions()[j] != p) ==> entry_for(
                #[trigger] starter_counts@,
                p,
            ) is None && entry_for(replacement_points@, p) is None,
        decreases 12 - m,
    {
        let p = positions[m];
        let counted = present[m] || (1 <= m && m <= 3 && taken_flex[m]);
        let ghost before_s = starter_counts@;
        let ghost before_r = replacement_points@;
        if counted {
            starter_counts.push((p, starter[m]));
            let list = &lists[m];
            if list.len() > 0 {
                let level = if starter[m] < list.len() { list[starter[m]] } else { list[list.len() - 1] };
                replacement_points.push((p, level));
            }
        }
        proof {
            assert forall|q: Position| true implies entry_for(starter_counts@, q) == (if counted && q == p {
                Some(starter@[m as int])
            } else {
                entry_for(before_s, q)
            }) by {
                if counted {
                    lemma_entry_for_push(before_s, (p, starter@[m as int]), q);
                }
            }
            assert forall|q: Position| true implies entry_for(replacement_points@, q) == (if counted && q == p
                && lists@[m as int]@.len() > 0 {
                Some(replacement_level(lists@[m as int]@, starter@[m as int] as int))
            } else {
                entry_for(before_r, q)
            }) by {
                if counted && lists@[m as int]@.len() > 0 {
                    let list = lists@[m as int]@;
                    let level = if starter@[m as int] < list.len() { list[starter@[m as int] as int] } else { list.last() };
                    lemma_entry_for_push(before_r, (p, level), q);
                }
            }
        }
        m = m + 1;
    }

    let out = ReplacementLevels { starter_counts, replacement_points };
    proof {
        lemma_levels_hold(out, *settings, pool@, team_count as int, lists@, starter@, present@,
            taken_flex@, dedicated_counts, given as int);
    }
    out
}

} // verus!
