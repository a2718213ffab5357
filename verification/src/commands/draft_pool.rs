//! The scored player pool behind a draft board, and the board built from it and the draft
//! state in hand.
//!
//! The pool is scored once; every redraw combines it with the pick schedule and the picks
//! known so far, without another round trip to ESPN.

use crate::cli::types::ids::{LeagueId, PlayerId};
use crate::cli::types::position::{label_of, position_of_default_id, Position};
use crate::commands::draft_board::{
    apply_position_filter, build_entries, build_file_live_state, build_live_state,
    build_recommendations, entries_spec, feed_live_spec, file_live_spec, keeps_under, opt_view,
    picked, recommendations_spec, slot_label, slot_name, DraftBoard, DraftBoardEntry,
    DraftBoardParams, FilePicks, LiveDraftState, Recommendation, ScoredPlayer,
    RECOMMENDATION_COUNT,
};
use crate::espn::draft::{taken_ids, DraftResponse};
use crate::espn::types::{lineup_counts, slot_table, LeagueSettings};
use crate::espn::vor::ReplacementLevels;
use crate::text::{string_of, string_views};
use vstd::prelude::*;

verus! {

/// The player pool scored under league settings, plus what is derived from it that does not
/// depend on draft state.
pub struct ScoredPool {
    pub league_id: LeagueId,
    pub settings: LeagueSettings,
    pub team_count: usize,
    pub scored: Vec<ScoredPlayer>,
    pub levels: ReplacementLevels,
    /// Position of every scored player, for reading a team's roster off the draft picks.
    pub position_by_player: Vec<(PlayerId, Position)>,
}

/// The position a pool player is scored at: the one its `defaultPositionId` names, when the
/// league can start it.
pub open spec fn pool_position_of(default_position_id: i8, rosterable: Seq<Position>) -> Option<Position> {
    let id: u8 = if default_position_id >= 0 { default_position_id as u8 } else { 255 };
    match position_of_default_id(id) {
        Some(p) => if rosterable.contains(p) { Some(p) } else { None },
        None => None,
    }
}

/// Decide whether a pool player is scored, and at which position: players whose position
/// id names no position, or a position the league cannot start, are left out.
pub fn pool_position(default_position_id: i8, rosterable: &[Position]) -> (out: Option<Position>)
    ensures
        out == pool_position_of(default_position_id, rosterable@),
{
    let id: u8 = if default_position_id >= 0 { default_position_id as u8 } else { 255 };
    match Position::from_default_position_id(id) {
        Ok(p) => {
            let mut i: usize = 0;
            while i < rosterable.len()
                invariant
                    i <= rosterable@.len(),
                    position_of_default_id(id) == Some(p),
                    id == (if default_position_id >= 0 { default_position_id as u8 } else { 255u8 }),
                    forall|k: int| 0 <= k < i ==> rosterable@[k] != p,
                decreases rosterable@.len() - i,
            {
                if rosterable[i] == p {
                    assert(rosterable@[i as int] == p);
                    return Some(p);
                }
                i = i + 1;
            }
            None
        },
        Err(_) => None,
    }
}

/// The position of every scored player, keyed by player id, in pool order.
pub open spec fn positions_by_player(scored: Seq<ScoredPlayer>) -> Seq<(PlayerId, Position)> {
    scored.map_values(|p: ScoredPlayer| (PlayerId(p.player_id), p.position))
}

/// Key each scored player's position by its id.
pub fn player_positions(scored: &[ScoredPlayer]) -> (out: Vec<(PlayerId, Position)>)
    ensures
        out@ == positions_by_player(scored@),
{
    let mut out: Vec<(PlayerId, Position)> = Vec::new();
    let mut i: usize = 0;
    while i < scored.len()
        invariant
            i <= scored@.len(),
            out@ == positions_by_player(scored@.take(i as int)),
        decreases scored@.len() - i,
    {
        out.push((PlayerId::new(scored[i].player_id), scored[i].position));
        i = i + 1;
        assert(positions_by_player(scored@.take(i as int)) =~= positions_by_player(scored@.take(i - 1)).push(
            (PlayerId(scored@[i - 1].player_id), scored@[i - 1].position),
        ));
    }
    assert(scored@.take(i as int) =~= scored@);
    out
}

/// Whether a player counts as taken on the board: drafted according to ESPN, or recorded
/// in the pick list.
pub open spec fn taken_on_board(draft: Option<DraftResponse>, picks: Option<Seq<(PlayerId, bool)>>, id: PlayerId) -> bool {
    (match draft {
        Some(d) => taken_ids(d.draft_detail.picks@).contains(id.0),
        None => false,
    }) || (match picks {
        Some(p) => picked(p).contains(id),
        None => false,
    })
}

/// The live state a board carries: none without a draft; otherwise read from the pick list
/// when one is given, from ESPN's draft detail when not.
pub open spec fn live_spec(
    live: Option<LiveDraftState>,
    pool: ScoredPool,
    draft: Option<DraftResponse>,
    picks: Option<Seq<(PlayerId, bool)>>,
    team_name: Option<Seq<char>>,
    team_id: Option<u32>,
    swid: Option<Seq<char>>,
) -> bool {
    match draft {
        None => live is None,
        Some(d) => live matches Some(l) && match picks {
            Some(p) => file_live_spec(l, d, pool.settings, pool.position_by_player@, p, team_name, team_id, swid),
            None => feed_live_spec(l, d, pool.settings, pool.position_by_player@, team_name, team_id, swid),
        },
    }
}

/// Label and count of each starting slot.
pub open spec fn lineup_labels(table: Seq<(u8, u32)>) -> Seq<(Seq<char>, u32)> {
    table.map_values(|e: (u8, u32)| (slot_name(e.0), e.1))
}

/// Label and value of each position entry.
pub open spec fn position_labels<V>(entries: Seq<(Position, V)>) -> Seq<(Seq<char>, V)> {
    entries.map_values(|e: (Position, V)| (label_of(e.0), e.1))
}

/// The views of labelled entries.
pub open spec fn labelled_views<V>(entries: Seq<(String, V)>) -> Seq<(Seq<char>, V)> {
    entries.map_values(|e: (String, V)| (e.0@, e.1))
}

fn label_slots(table: &Vec<(u8, u32)>) -> (out: Vec<(String, u32)>)
    ensures
        labelled_views(out@) == lineup_labels(table@),
{
    let mut out: Vec<(String, u32)> = Vec::new();
    let mut i: usize = 0;
    while i < table.len()
        invariant
            i <= table@.len(),
            labelled_views(out@) == lineup_labels(table@.take(i as int)),
        decreases table@.len() - i,
    {
        let (slot, count) = table[i];
        let ghost before = labelled_views(out@);
        out.push((slot_label(slot), count));
        proof {
            assert(labelled_views(out@) =~= before.push((slot_name(slot), count)));
            assert(lineup_labels(table@.take(i + 1)) =~= lineup_labels(table@.take(i as int)).push((slot_name(slot), count)));
        }
        i = i + 1;
    }
    proof {
        assert(table@.take(i as int) =~= table@);
    }
    out
}

fn label_counts(entries: &Vec<(Position, usize)>) -> (out: Vec<(String, usize)>)
    ensures
        labelled_views(out@) == position_labels(entries@),
{
    let mut out: Vec<(String, usize)> = Vec::new();
    let mut i: usize = 0;
    while i < entries.len()
        invariant
            i <= entries@.len(),
            labelled_views(out@) == position_labels(entries@.take(i as int)),
        decreases entries@.len() - i,
    {
        let (p, n) = entries[i];
        let ghost before = labelled_views(out@);
        out.push((p.to_string(), n));
        proof {
            assert(labelled_views(out@) =~= before.push((label_of(p), n)));
            assert(position_labels(entries@.take(i + 1)) =~= position_labels(entries@.take(i as int)).push((label_of(p), n)));
        }
        i = i + 1;
    }
    proof {
        assert(entries@.take(i as int) =~= entries@);
    }
    out
}

/// Each position's points, given in millionths, rounded to tenths.
pub open spec fn points_in_tenths(entries: Seq<(Position, i64)>) -> Seq<(Position, i64)> {
    entries.map_values(|e: (Position, i64)| (e.0, crate::text::tenths_of_millionths(e.1 as int) as i64))
}

fn label_points(entries: &Vec<(Position, i64)>) -> (out: Vec<(String, i64)>)
    ensures
        labelled_views(out@) == position_labels(points_in_tenths(entries@)),
{
    let mut out: Vec<(String, i64)> = Vec::new();
    let mut i: usize = 0;
    while i < entries.len()
        invariant
            i <= entries@.len(),
            labelled_views(out@) == position_labels(points_in_tenths(entries@.take(i as int))),
        decreases entries@.len() - i,
    {
        let (p, v) = entries[i];
        let t = crate::text::round_i64_to_tenths(v);
        let ghost before = labelled_views(out@);
        out.push((p.to_string(), t));
        proof {
            assert(labelled_views(out@) =~= before.push((label_of(p), t)));
            assert(points_in_tenths(entries@.take(i + 1)) =~= points_in_tenths(entries@.take(i as int)).push((p, t)));
            assert(position_labels(points_in_tenths(entries@.take(i + 1))) =~= position_labels(points_in_tenths(entries@.take(i as int))).push((label_of(p), t)));
        }
        i = i + 1;
    }
    proof {
        assert(entries@.take(i as int) =~= entries@);
    }
    out
}

fn copy_strings(v: &Vec<String>) -> (out: Vec<String>)
    ensures
        out@ == v@,
{
    let mut out: Vec<String> = Vec::new();
    let mut i: usize = 0;
    while i < v.len()
        invariant
            i <= v@.len(),
            out@ == v@.take(i as int),
        decreases v@.len() - i,
    {
        out.push(v[i].clone());
        i = i + 1;
        assert(v@.take(i as int) =~= v@.take(i - 1).push(v@[i - 1]));
    }
    assert(v@.take(i as int) =~= v@);
    out
}

/// The draft in hand, if any.
pub open spec fn draft_view(draft: Option<&DraftResponse>) -> Option<DraftResponse> {
    match draft {
        Some(d) => Some(*d),
        None => None,
    }
}

/// The picks of a pick list in hand, if any.
pub open spec fn picks_view(file_picks: Option<&FilePicks>) -> Option<Seq<(PlayerId, bool)>> {
    match file_picks {
        Some(f) => Some(f.picks@),
        None => None,
    }
}

/// Whether a board's rows, live state and recommendations are those built from the pool
/// `all` (ranked with `taken` marked) and the draft state in hand.
pub open spec fn board_matches(
    out: DraftBoard,
    pool: ScoredPool,
    params: DraftBoardParams,
    d: Option<DraftResponse>,
    p: Option<Seq<(PlayerId, bool)>>,
    swid: Option<Seq<char>>,
    all: Seq<DraftBoardEntry>,
    taken: Seq<PlayerId>,
) -> bool {
    &&& forall|id: PlayerId| #[trigger] taken.contains(id) <==> taken_on_board(d, p, id)
    &&& entries_spec(all, pool.scored@, pool.levels, taken, d)
    &&& out.entries@ == all.filter(keeps_under(match params.positions { Some(f) => Some(f@), None => None }))
    &&& live_spec(out.live, pool, d, p, match params.team { Some(t) => Some(t@), None => None }, params.team_id, swid)
    &&& match out.live {
        Some(l) => recommendations_spec(out.recommendations@, all, l, pool.team_count as int, RECOMMENDATION_COUNT as int),
        None => out.recommendations@.len() == 0,
    }
}

impl ScoredPool {
    /// Build the board from the state in hand: the pool ranked by value over replacement
    /// (over the whole pool, so a position filter never changes the arithmetic), players
    /// taken by ESPN or by the pick list marked, the live state when there is a draft,
    /// recommendations from the unfiltered board, then the rows narrowed to the requested
    /// positions.
    pub fn render(
        &self,
        params: &DraftBoardParams,
        draft: Option<&DraftResponse>,
        file_picks: Option<&FilePicks>,
        swid: Option<&str>,
    ) -> (out: DraftBoard)
        ensures
            exists|all: Seq<DraftBoardEntry>, taken: Seq<PlayerId>| #[trigger] board_matches(
                out,
                *self,
                *params,
                draft_view(draft),
                picks_view(file_picks),
                opt_view(swid),
                all,
                taken,
            ),
            out.league_name == self.settings.name,
            out.season == params.season.0,
            out.team_count == self.team_count,
            exists|table: Seq<(u8, u32)>| slot_table(table, lineup_counts(self.settings.roster_settings.lineup_slot_counts@), true)
                && labelled_views(out.starting_lineup@) == lineup_labels(table),
            labelled_views(out.starters_by_position@) == position_labels(self.levels.starter_counts@),
            labelled_views(out.replacement_points@) == position_labels(points_in_tenths(self.levels.replacement_points@)),
            out.unmatched_picks@ == (match file_picks { Some(f) => f.unmatched@, None => Seq::<String>::empty() }),
    {
        let ghost d = match draft { Some(d) => Some(*d), None => None };
        let ghost p = match file_picks { Some(f) => Some(f.picks@), None => None };
        let mut taken: Vec<PlayerId> = match draft {
            Some(dr) => dr.draft_detail.taken_players(),
            None => Vec::new(),
        };
        let ghost from_draft = taken@;
        if let Some(fp) = file_picks {
            let mine = fp.all();
            let mut i: usize = 0;
            while i < mine.len()
                invariant
                    i <= mine@.len(),
                    mine@ == picked(fp.picks@),
                    taken@ == from_draft + mine@.take(i as int),
                decreases mine@.len() - i,
            {
                taken.push(mine[i]);
                i = i + 1;
                assert(mine@.take(i as int) =~= mine@.take(i - 1).push(mine@[i - 1]));
            }
            assert(mine@.take(i as int) =~= mine@);
        }
        proof {
            assert forall|id: PlayerId| #[trigger] taken@.contains(id) <==> taken_on_board(d, p, id) by {
                match file_picks {
                    Some(fp) => {
                        if taken@.contains(id) {
                            let k = choose|k: int| 0 <= k < taken@.len() && taken@[k] == id;
                            if k >= from_draft.len() {
                                assert(picked(fp.picks@)[k - from_draft.len()] == id);
                            } else {
                                assert(from_draft[k] == id);
                            }
                        }
                        if picked(fp.picks@).contains(id) {
                            let k = choose|k: int| 0 <= k < picked(fp.picks@).len() && picked(fp.picks@)[k] == id;
                            assert(taken@[from_draft.len() + k] == id);
                        }
                        if from_draft.contains(id) {
                            let k = choose|k: int| 0 <= k < from_draft.len() && from_draft[k] == id;
                            assert(taken@[k] == id);
                        }
                    },
                    None => {},
                }
                match draft {
                    Some(dr) => {
                        assert(from_draft.contains(id) <==> taken_ids(dr.draft_detail.picks@).contains(id.0));
                    },
                    None => {},
                }
            }
        }
        let mut entries = build_entries(&self.scored, &self.levels, &taken, draft);
        let ghost all = entries@;
        let team_name: Option<&str> = match &params.team {
            Some(t) => Some(t.as_str()),
            None => None,
        };
        let live: Option<LiveDraftState> = match draft {
            Some(dr) => match file_picks {
                Some(fp) => Some(build_file_live_state(dr, &self.settings, &self.position_by_player, fp, team_name, params.team_id, swid)),
                None => Some(build_live_state(dr, &self.settings, &self.position_by_player, team_name, params.team_id, swid)),
            },
            None => None,
        };
        let recommendations: Vec<Recommendation> = match &live {
            Some(l) => build_recommendations(&entries, l, self.team_count, RECOMMENDATION_COUNT),
            None => Vec::new(),
        };
        let positions: Option<&[Position]> = match &params.positions {
            Some(ps) => Some(ps.as_slice()),
            None => None,
        };
        apply_position_filter(&mut entries, positions);
        let unmatched = match file_picks {
            Some(fp) => copy_strings(&fp.unmatched),
            None => Vec::new(),
        };
        let league_name = match &self.settings.name {
            Some(n) => Some(n.clone()),
            None => None,
        };
        let table = self.settings.starting_lineup_slots();
        let board = DraftBoard {
            league_name,
            season: params.season.as_u16(),
            team_count: self.team_count,
            starting_lineup: label_slots(&table),
            starters_by_position: label_counts(&self.levels.starter_counts),
            replacement_points: label_points(&self.levels.replacement_points),
            entries,
            live,
            recommendations,
            unmatched_picks: unmatched,
        };
        proof {
            assert(board_matches(board, *self, *params, draft_view(draft), picks_view(file_picks), opt_view(swid), all, taken@));
        }
        board
    }
}

/// The refresh interval of watch mode, in seconds: at least one.
pub fn watch_interval(interval_secs: u64) -> (out: u64)
    ensures
        out == (if interval_secs > 1 { interval_secs } else { 1 }),
{
    if interval_secs > 1 { interval_secs } else { 1 }
}

/// Whether watch mode stops on a board: once the draft it shows has finished.
pub open spec fn watch_done(board: DraftBoard) -> bool {
    board.live matches Some(l) && l.drafted
}

/// One frame of watch mode: the board, followed by the refresh notice unless the draft has
/// finished, and whether to stop.
pub fn watch_frame(board: &DraftBoard, top: usize, interval_secs: u64) -> (out: (String, bool))
    requires
        board.recommendations@.len() < u64::MAX,
    ensures
        out.1 == watch_done(*board),
        out.0@ == crate::commands::draft_board::board_render(*board, top as int) + (if watch_done(*board) {
            Seq::<char>::empty()
        } else {
            "\nRefreshing every "@ + crate::text::decimal(interval_secs as nat) + "s · Ctrl-C to stop\n"@
        }),
{
    let text = crate::commands::draft_board::board_text(board, top);
    let done = match &board.live {
        Some(l) => l.drafted,
        None => false,
    };
    if done {
        return (text, true);
    }
    let mut screen = crate::text::chars_of(text.as_str());
    crate::text::append_chars(&mut screen, &crate::text::chars_of("\nRefreshing every "));
    crate::text::append_chars(&mut screen, &crate::text::u64_to_decimal(interval_secs));
    crate::text::append_chars(&mut screen, &crate::text::chars_of("s · Ctrl-C to stop\n"));
    (string_of(&screen), false)
}

} // verus!
