//! Picking stat blocks out of a player's stats.
//!
//! A player object carries a list of stat blocks, each stamped with its season, scoring
//! period, source (0 actual, 1 projected) and split (1 weekly, 0 season total). The
//! selection rules below read those stamps; the stat values themselves are scored by the
//! program.

use vstd::prelude::*;

verus! {

/// The stamps of one stat block, as read from ESPN's JSON: each stamp is `None` when it
/// is missing or not an unsigned integer.
#[derive(Debug, Clone, Copy, PartialEq, Eq, Structural)]
pub struct StatBlockHeader {
    pub season_id: Option<u64>,
    pub scoring_period_id: Option<u64>,
    pub stat_source_id: Option<u64>,
    pub stat_split_type_id: Option<u64>,
    /// Whether the block has a `stats` member at all.
    pub has_stats: bool,
    /// Whether that member is a non-empty object.
    pub has_nonempty_stats: bool,
}

/// A stamp read the way the selection reads it, truncated to 16 bits.
pub open spec fn stamp16(v: u64) -> u16 {
    (v % 65536) as u16
}

/// A stamp truncated to 8 bits.
pub open spec fn stamp8(v: u64) -> u8 {
    (v % 256) as u8
}

/// Whether a block's stamps are all present and read as `season`, `period`, `source` and
/// `split`.
pub open spec fn stamped(b: StatBlockHeader, season: u16, period: u16, source: u8, split: u8) -> bool {
    &&& b.season_id matches Some(s) && stamp16(s) == season
    &&& b.scoring_period_id matches Some(p) && stamp16(p) == period
    &&& b.stat_source_id matches Some(src) && stamp8(src) == source
    &&& b.stat_split_type_id matches Some(sp) && stamp8(sp) == split
}

/// Index of the first block that has stats and is stamped as asked.
pub open spec fn first_stamped(blocks: Seq<StatBlockHeader>, season: u16, period: u16, source: u8, split: u8, from: int) -> Option<int>
    decreases blocks.len() - from,
{
    if from < 0 || from >= blocks.len() {
        None
    } else if blocks[from].has_stats && stamped(blocks[from], season, period, source, split) {
        Some(from)
    } else {
        first_stamped(blocks, season, period, source, split, from + 1)
    }
}

fn stamp_is16(v: Option<u64>, want: u16) -> (b: bool)
    ensures
        b == (v matches Some(s) && stamp16(s) == want),
{
    match v {
        Some(s) => (s % 65536) as u16 == want,
        None => false,
    }
}

fn stamp_is8(v: Option<u64>, want: u8) -> (b: bool)
    ensures
        b == (v matches Some(s) && stamp8(s) == want),
{
    match v {
        Some(s) => (s % 256) as u8 == want,
        None => false,
    }
}

fn find_block(blocks: &[StatBlockHeader], season: u16, period: u16, source: u8, split: u8) -> (out: Option<usize>)
    ensures
        match out {
            Some(i) => first_stamped(blocks@, season, period, source, split, 0) == Some(i as int),
            None => first_stamped(blocks@, season, period, source, split, 0) is None,
        },
{
    let mut i: usize = 0;
    while i < blocks.len()
        invariant
            i <= blocks@.len(),
            first_stamped(blocks@, season, period, source, split, 0) == first_stamped(blocks@, season, period, source, split, i as int),
        decreases blocks@.len() - i,
    {
        let b = blocks[i];
        if b.has_stats && stamp_is16(b.season_id, season) && stamp_is16(b.scoring_period_id, period)
            && stamp_is8(b.stat_source_id, source) && stamp_is8(b.stat_split_type_id, split) {
            return Some(i);
        }
        i = i + 1;
    }
    None
}

/// Select the weekly stat block for a season, week and source (0 actual, 1 projected):
/// the first block stamped with them and split 1 that carries stats.
pub fn select_weekly_stats(blocks: &[StatBlockHeader], season: u16, week: u16, stat_source_id: u8) -> (out: Option<usize>)
    ensures
        match out {
            Some(i) => first_stamped(blocks@, season, week, stat_source_id, 1, 0) == Some(i as int),
            None => first_stamped(blocks@, season, week, stat_source_id, 1, 0) is None,
        },
{
    find_block(blocks, season, week, stat_source_id, 1)
}

/// Select the whole-season stat block for a season and source: scoring period 0, split 0.
/// This is what carries a preseason projection, before any week has been played.
pub fn select_season_stats(blocks: &[StatBlockHeader], season: u16, stat_source_id: u8) -> (out: Option<usize>)
    ensures
        match out {
            Some(i) => first_stamped(blocks@, season, 0, stat_source_id, 0, 0) == Some(i as int),
            None => first_stamped(blocks@, season, 0, stat_source_id, 0, 0) is None,
        },
{
    find_block(blocks, season, 0, stat_source_id, 0)
}

/// Whether a block is a non-empty weekly projection for `season`, and for which week.
pub open spec fn projected_week_of(b: StatBlockHeader, season: u16) -> Option<u16> {
    if stamped(b, season, stamp16(b.scoring_period_id->0), 1, 1) && stamp16(b.scoring_period_id->0) > 0
        && b.has_nonempty_stats {
        Some(stamp16(b.scoring_period_id->0))
    } else {
        None
    }
}

/// Weeks in a season for which the player has a non-empty projected stat block, ascending
/// and without repeats.
///
/// ESPN emits a weekly projection block for every week but leaves it empty on a bye, so
/// the missing week numbers identify byes without a separate schedule lookup.
pub fn projected_weeks(blocks: &[StatBlockHeader], season: u16) -> (out: Vec<u16>)
    ensures
        forall|i: int, j: int| 0 <= i < j < out@.len() ==> out@[i] < out@[j],
        forall|w: u16| out@.contains(w) <==> exists|k: int| 0 <= k < blocks@.len() && #[trigger] projected_week_of(blocks@[k], season) == Some(w),
{
    let mut out: Vec<u16> = Vec::new();
    let mut i: usize = 0;
    while i < blocks.len()
        invariant
            i <= blocks@.len(),
            forall|a: int, b: int| 0 <= a < b < out@.len() ==> out@[a] < out@[b],
            forall|w: u16| out@.contains(w) <==> exists|k: int| 0 <= k < i && #[trigger] projected_week_of(blocks@[k], season) == Some(w),
        decreases blocks@.len() - i,
    {
        let b = blocks[i];
        let hit = stamp_is16(b.season_id, season) && match b.scoring_period_id {
            Some(p) => (p % 65536) as u16 > 0,
            None => false,
        } && stamp_is8(b.stat_source_id, 1) && stamp_is8(b.stat_split_type_id, 1) && b.has_nonempty_stats;
        if hit {
            let w: u16 = match b.scoring_period_id {
                Some(p) => (p % 65536) as u16,
                None => 0,
            };
            assert(projected_week_of(blocks@[i as int], season) == Some(w));
            let mut pos: usize = 0;
            while pos < out.len() && out[pos] < w
                invariant
                    pos <= out@.len(),
                    forall|k: int| 0 <= k < pos ==> #[trigger] out@[k] < w,
                decreases out@.len() - pos,
            {
                pos = pos + 1;
            }
            if pos < out.len() && out[pos] == w {
                proof {
                    assert forall|x: u16| out@.contains(x) <==> exists|k: int| 0 <= k < i + 1 && #[trigger] projected_week_of(blocks@[k], season) == Some(x) by {
                        if x == w {
                            assert(out@[pos as int] == w);
                        }
                        if exists|k: int| 0 <= k < i + 1 && #[trigger] projected_week_of(blocks@[k], season) == Some(x) {
                            let k = choose|k: int| 0 <= k < i + 1 && #[trigger] projected_week_of(blocks@[k], season) == Some(x);
                            if k == i {
                                assert(x == w);
                                assert(out@[pos as int] == w);
                            }
                        }
                    }
                }
            } else {
                let ghost before = out@;
                out.insert(pos, w);
                proof {
                    assert(out@ =~= before.insert(pos as int, w));
                    assert forall|a: int, c: int| 0 <= a < c < out@.len() implies out@[a] < out@[c] by {
                        if a < pos && c > pos {
                            assert(out@[a] == before[a] && out@[c] == before[c - 1]);
                        } else if a < pos && c == pos {
                            assert(out@[a] == before[a]);
                        } else if a == pos && c > pos {
                            assert(out@[c] == before[c - 1]);
                        } else if a > pos {
                            assert(out@[a] == before[a - 1] && out@[c] == before[c - 1]);
                        } else {
                            assert(out@[a] == before[a] && out@[c] == before[c]);
                        }
                    }
                    assert forall|x: u16| out@.contains(x) <==> exists|k: int| 0 <= k < i + 1 && #[trigger] projected_week_of(blocks@[k], season) == Some(x) by {
                        if out@.contains(x) {
                            let m = choose|m: int| 0 <= m < out@.len() && out@[m] == x;
                            if m < pos {
                                assert(before[m] == x);
                                assert(before.contains(x));
                            } else if m > pos {
                                assert(before[m - 1] == x);
                                assert(before.contains(x));
                            }
                        }
                        if exists|k: int| 0 <= k < i + 1 && #[trigger] projected_week_of(blocks@[k], season) == Some(x) {
                            let k = choose|k: int| 0 <= k < i + 1 && #[trigger] projected_week_of(blocks@[k], season) == Some(x);
                            if k == i {
                                assert(out@[pos as int] == w);
                            } else {
                                assert(before.contains(x));
                                let m = choose|m: int| 0 <= m < before.len() && before[m] == x;
                                if m < pos {
                                    assert(out@[m] == x);
                                } else {
                                    assert(out@[m + 1] == x);
                                }
                            }
                        }
                    }
                }
            }
        } else {
            proof {
                assert(projected_week_of(blocks@[i as int], season) is None);
            }
        }
        i = i + 1;
    }
    out
}

/// The id ESPN gives a stat source.
pub open spec fn source_id(source: crate::models::stat_source::StatSource) -> u64 {
    match source {
        crate::models::stat_source::StatSource::Actual => 0u64,
        crate::models::stat_source::StatSource::Projected => 1u64,
    }
}

/// The week a block stands for when it is of `season` and `source` and its scoring period,
/// read as a `u16`, is one of `weeks`.
pub open spec fn block_week(b: StatBlockHeader, season: u16, source: u64, weeks: Seq<u16>) -> Option<u16> {
    match b.scoring_period_id {
        Some(p) => if b.season_id == Some(season as u64) && b.stat_source_id == Some(source) && weeks.contains(
            stamp16(p),
        ) {
            Some(stamp16(p))
        } else {
            None
        },
        None => None,
    }
}

/// `x` placed into `s` after every entry whose week is not later, as a stable sort by week
/// places it.
pub open spec fn insert_by_week(s: Seq<(u16, usize)>, x: (u16, usize)) -> Seq<(u16, usize)>
    decreases s.len(),
{
    if s.len() == 0 {
        seq![x]
    } else if x.0 < s.last().0 {
        insert_by_week(s.drop_last(), x).push(s.last())
    } else {
        s.push(x)
    }
}

/// The (week, block index) of each of the first `n` blocks that stands for a requested
/// week, stably sorted by week.
pub open spec fn week_blocks_of(blocks: Seq<StatBlockHeader>, season: u16, source: u64, weeks: Seq<u16>, n: nat) -> Seq<(u16, usize)>
    decreases n,
{
    if n == 0 {
        seq![]
    } else {
        let rest = week_blocks_of(blocks, season, source, weeks, (n - 1) as nat);
        match block_week(blocks[n - 1], season, source, weeks) {
            Some(w) => insert_by_week(rest, (w, (n - 1) as usize)),
            None => rest,
        }
    }
}

proof fn lemma_insert_week_at(s: Seq<(u16, usize)>, x: (u16, usize), pos: int)
    requires
        0 <= pos <= s.len(),
        forall|k: int| pos <= k < s.len() ==> x.0 < #[trigger] s[k].0,
        pos > 0 ==> s[pos - 1].0 <= x.0,
    ensures
        insert_by_week(s, x) == s.insert(pos, x),
    decreases s.len() - pos,
{
    if s.len() == 0 {
        assert(s.insert(pos, x) =~= seq![x]);
    } else if pos == s.len() {
        assert(s.insert(pos, x) =~= s.push(x));
    } else {
        lemma_insert_week_at(s.drop_last(), x, pos);
        assert(s.insert(pos, x) =~= s.drop_last().insert(pos, x).push(s.last()));
    }
}

fn contains_week(weeks: &[u16], w: u16) -> (b: bool)
    ensures
        b == weeks@.contains(w),
{
    let mut i: usize = 0;
    while i < weeks.len()
        invariant
            i <= weeks@.len(),
            forall|k: int| 0 <= k < i ==> weeks@[k] != w,
        decreases weeks@.len() - i,
    {
        if weeks[i] == w {
            assert(weeks@[i as int] == w);
            return true;
        }
        i = i + 1;
    }
    false
}

/// Pick, for a player's stat blocks, those of `season` and `source` whose scoring period is
/// one of `weeks`, as (week, block index) pairs sorted by week (blocks of the same week
/// keep their order). The points of each block are read by the caller.
pub fn select_week_blocks(
    blocks: &[StatBlockHeader],
    season: u16,
    source: crate::models::stat_source::StatSource,
    weeks: &[u16],
) -> (out: Vec<(u16, usize)>)
    ensures
        out@ == week_blocks_of(blocks@, season, source_id(source), weeks@, blocks@.len()),
{
    let src = source.id();
    let mut out: Vec<(u16, usize)> = Vec::new();
    let mut i: usize = 0;
    while i < blocks.len()
        invariant
            i <= blocks@.len(),
            src == source_id(source),
            out@ == week_blocks_of(blocks@, season, src, weeks@, i as nat),
        decreases blocks@.len() - i,
    {
        let b = blocks[i];
        let hit: Option<u16> = match b.scoring_period_id {
            Some(p) => {
                let w = (p % 65536) as u16;
                if b.season_id == Some(season as u64) && b.stat_source_id == Some(src) && contains_week(weeks, w) {
                    Some(w)
                } else {
                    None
                }
            },
            None => None,
        };
        assert(hit == block_week(blocks@[i as int], season, src, weeks@));
        if let Some(w) = hit {
            let ghost before = out@;
            let mut pos: usize = out.len();
            while pos > 0 && w < out[pos - 1].0
                invariant
                    pos <= out@.len(),
                    before == out@,
                    forall|k: int| pos <= k < out@.len() ==> w < #[trigger] before[k].0,
                decreases pos,
            {
                pos = pos - 1;
            }
            proof {
                lemma_insert_week_at(before, (w, i), pos as int);
            }
            out.insert(pos, (w, i));
        }
        i = i + 1;
    }
    out
}

} // verus!
