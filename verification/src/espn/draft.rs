//! Draft state from ESPN's `mDraftDetail` view.
//!
//! ESPN pre-allocates every pick slot before a draft starts and fills in `playerId` as picks
//! are made, so the same endpoint serves both "what is the pick order" before the draft and
//! "who is off the board" during it.

use crate::cli::types::ids::PlayerId;
use crate::espn::types::Team;
use crate::text::{
    ascii_lower, ascii_lowercase_chars, chars_equal, chars_of, contains_chars, contains_seq,
    lowercase, lowercase_chars, strip_braces, strip_braces_chars, strip_end, strip_end_chars,
    string_of, trim, trim_chars,
};
use vstd::prelude::*;

verus! {

/// Sentinel ESPN uses for a pick slot that has not been made yet.
pub const UNDRAFTED_PLAYER_ID: i64 = -1;

/// A single draft pick slot.
#[derive(Debug, Clone)]
pub struct DraftPick {
    /// Player taken, or [`UNDRAFTED_PLAYER_ID`] if the slot is still open.
    pub player_id: i64,
    /// Team the slot belongs to; auction drafts leave unmade slots unassigned.
    pub team_id: Option<u32>,
    pub overall_pick_number: u32,
    pub round_id: u32,
    pub round_pick_number: u32,
    pub lineup_slot_id: Option<u8>,
    pub bid_amount: Option<u32>,
    pub keeper: bool,
    /// Owner who made the pick; matches a team's `owners` entry.
    pub member_id: Option<String>,
}

/// Whether a pick slot has been used.
pub open spec fn pick_made(p: DraftPick) -> bool {
    p.player_id != UNDRAFTED_PLAYER_ID
}

impl DraftPick {
    /// Whether this slot has actually been used.
    pub fn is_made(&self) -> (b: bool)
        ensures
            b == pick_made(*self),
    {
        self.player_id != UNDRAFTED_PLAYER_ID
    }

    /// The player taken, if the pick has been made.
    pub fn drafted_player(&self) -> (out: Option<PlayerId>)
        ensures
            out == (if pick_made(*self) { Some(PlayerId(self.player_id)) } else { None::<PlayerId> }),
    {
        if self.is_made() {
            Some(PlayerId::new(self.player_id))
        } else {
            None
        }
    }
}

/// The `draftDetail` object.
#[derive(Debug, Clone)]
pub struct DraftDetail {
    pub drafted: bool,
    pub in_progress: bool,
    pub picks: Vec<DraftPick>,
}

/// The picks behind a sequence of references.
pub open spec fn deref_picks(s: Seq<&DraftPick>) -> Seq<DraftPick> {
    s.map_values(|p: &DraftPick| *p)
}

/// `x` placed into `s` after every pick whose overall number is not larger, as a stable
/// sort by overall pick number places it.
pub open spec fn insert_by_pick(s: Seq<DraftPick>, x: DraftPick) -> Seq<DraftPick>
    decreases s.len(),
{
    if s.len() == 0 {
        seq![x]
    } else if x.overall_pick_number < s.last().overall_pick_number {
        insert_by_pick(s.drop_last(), x).push(s.last())
    } else {
        s.push(x)
    }
}

/// `s` stably sorted by overall pick number.
pub open spec fn order_by_pick(s: Seq<DraftPick>) -> Seq<DraftPick>
    decreases s.len(),
{
    if s.len() == 0 {
        seq![]
    } else {
        insert_by_pick(order_by_pick(s.drop_last()), s.last())
    }
}

/// The picks made so far, in draft order.
pub open spec fn completed_order(picks: Seq<DraftPick>) -> Seq<DraftPick> {
    order_by_pick(picks.filter(|p: DraftPick| pick_made(p)))
}

/// Whether picks come in nondecreasing overall pick number.
pub open spec fn by_pick_order(s: Seq<DraftPick>) -> bool {
    forall|i: int, j: int| 0 <= i <= j < s.len() ==> #[trigger] s[i].overall_pick_number <= #[trigger] s[j].overall_pick_number
}

proof fn lemma_insert_by_pick(s: Seq<DraftPick>, x: DraftPick)
    requires
        by_pick_order(s),
    ensures
        by_pick_order(insert_by_pick(s, x)),
        insert_by_pick(s, x).to_multiset() == s.to_multiset().insert(x),
    decreases s.len(),
{
    broadcast use vstd::seq_lib::group_to_multiset_ensures;
    if s.len() == 0 {
        assert(seq![x] =~= Seq::<DraftPick>::empty().push(x));
    } else if x.overall_pick_number < s.last().overall_pick_number {
        let d = s.drop_last();
        assert(by_pick_order(d)) by {
            assert forall|i: int, j: int| 0 <= i <= j < d.len() implies #[trigger] d[i].overall_pick_number <= #[trigger] d[j].overall_pick_number by {
                assert(d[i] == s[i] && d[j] == s[j]);
            }
        }
        lemma_insert_by_pick(d, x);
        let r = insert_by_pick(d, x);
        assert(s =~= d.push(s.last()));
        assert forall|k: int| 0 <= k < r.len() implies #[trigger] r[k].overall_pick_number <= s.last().overall_pick_number by {
            assert(r.contains(r[k]));
            assert(r.to_multiset().count(r[k]) > 0);
            if r[k] != x {
                assert(d.to_multiset().count(r[k]) > 0);
                assert(d.contains(r[k]));
                let m = choose|m: int| 0 <= m < d.len() && d[m] == r[k];
                assert(s[m] == d[m]);
                assert(s[m].overall_pick_number <= s[s.len() - 1].overall_pick_number);
            }
        }
        let out = r.push(s.last());
        assert forall|i: int, j: int| 0 <= i <= j < out.len() implies #[trigger] out[i].overall_pick_number <= #[trigger] out[j].overall_pick_number by {
            if j == out.len() - 1 {
                if i < out.len() - 1 {
                    assert(out[i] == r[i]);
                }
            } else {
                assert(out[i] == r[i] && out[j] == r[j]);
            }
        }
        assert(out.to_multiset() =~= r.to_multiset().insert(s.last()));
        assert(s.to_multiset() =~= d.to_multiset().insert(s.last()));
    } else {
        let out = s.push(x);
        assert forall|i: int, j: int| 0 <= i <= j < out.len() implies #[trigger] out[i].overall_pick_number <= #[trigger] out[j].overall_pick_number by {
            if j == out.len() - 1 {
                if i < out.len() - 1 {
                    assert(out[i] == s[i]);
                    assert(s[i].overall_pick_number <= s[s.len() - 1].overall_pick_number);
                }
            } else {
                assert(out[i] == s[i] && out[j] == s[j]);
            }
        }
    }
}

proof fn lemma_order_by_pick(s: Seq<DraftPick>)
    ensures
        by_pick_order(order_by_pick(s)),
        order_by_pick(s).to_multiset() == s.to_multiset(),
    decreases s.len(),
{
    broadcast use vstd::seq_lib::group_to_multiset_ensures;
    if s.len() == 0 {
        assert(order_by_pick(s) =~= s);
    } else {
        lemma_order_by_pick(s.drop_last());
        lemma_insert_by_pick(order_by_pick(s.drop_last()), s.last());
        assert(s =~= s.drop_last().push(s.last()));
    }
}

/// The picks made so far, in draft order, are exactly the made picks, each as often as it
/// occurs, sorted by overall pick number.
pub proof fn lemma_completed_picks_sort_the_made_picks(picks: Seq<DraftPick>)
    ensures
        by_pick_order(completed_order(picks)),
        completed_order(picks).to_multiset() == picks.filter(|p: DraftPick| pick_made(p)).to_multiset(),
{
    lemma_order_by_pick(picks.filter(|p: DraftPick| pick_made(p)));
}

proof fn lemma_filter_keeps_pick_order(s: Seq<DraftPick>, keep: spec_fn(DraftPick) -> bool)
    requires
        by_pick_order(s),
    ensures
        by_pick_order(s.filter(keep)),
        forall|k: int| 0 <= k < s.filter(keep).len() ==> s.contains(#[trigger] s.filter(keep)[k]),
    decreases s.len(),
{
    reveal(Seq::filter);
    if s.len() > 0 {
        let d = s.drop_last();
        let l = s.last();
        assert(by_pick_order(d)) by {
            assert forall|i: int, j: int| 0 <= i <= j < d.len() implies #[trigger] d[i].overall_pick_number
                <= #[trigger] d[j].overall_pick_number by {
                assert(d[i] == s[i] && d[j] == s[j]);
            }
        }
        lemma_filter_keeps_pick_order(d, keep);
        let sub = d.filter(keep);
        let r = s.filter(keep);
        assert forall|k: int| 0 <= k < sub.len() implies s.contains(#[trigger] sub[k]) && sub[k].overall_pick_number
            <= l.overall_pick_number by {
            assert(d.contains(sub[k]));
            let m = choose|m: int| 0 <= m < d.len() && d[m] == sub[k];
            assert(s[m] == sub[k]);
            assert(s[s.len() - 1] == l);
        }
        if keep(l) {
            assert(r == sub.push(l));
            assert forall|k: int| 0 <= k < r.len() implies s.contains(#[trigger] r[k]) by {
                if k < sub.len() {
                    assert(r[k] == sub[k]);
                } else {
                    assert(s[s.len() - 1] == r[k]);
                }
            }
            assert forall|i: int, j: int| 0 <= i <= j < r.len() implies #[trigger] r[i].overall_pick_number
                <= #[trigger] r[j].overall_pick_number by {
                if j < sub.len() {
                    assert(r[i] == sub[i] && r[j] == sub[j]);
                } else if i < sub.len() {
                    assert(r[i] == sub[i] && r[j] == l);
                }
            }
        } else {
            assert(r == sub);
            assert forall|k: int| 0 <= k < r.len() implies s.contains(#[trigger] r[k]) by {
                assert(r[k] == sub[k]);
            }
        }
    }
}

/// A team's picks are its made picks in draft order: each is made and the team's, they
/// come by overall pick number, and every made pick of the team is among them.
pub proof fn lemma_team_picks_are_its_made_picks_in_order(picks: Seq<DraftPick>, team_id: u32)
    ensures
        ({
            let r = completed_order(picks).filter(of_team(team_id));
            &&& by_pick_order(r)
            &&& forall|k: int| 0 <= k < r.len() ==> pick_made(#[trigger] r[k]) && r[k].team_id == Some(team_id)
            &&& forall|i: int| 0 <= i < picks.len() && pick_made(#[trigger] picks[i]) && picks[i].team_id == Some(team_id)
                ==> r.contains(picks[i])
        }),
{
    broadcast use vstd::seq_lib::group_filter_ensures;
    let made = |p: DraftPick| pick_made(p);
    let c = completed_order(picks);
    let r = c.filter(of_team(team_id));
    lemma_completed_picks_sort_the_made_picks(picks);
    lemma_filter_keeps_pick_order(c, of_team(team_id));
    assert forall|k: int| 0 <= k < r.len() implies pick_made(#[trigger] r[k]) && r[k].team_id == Some(team_id) by {
        c.lemma_filter_pred(of_team(team_id), k);
        assert(c.contains(r[k]));
        c.to_multiset_ensures();
        picks.filter(made).to_multiset_ensures();
        assert(picks.filter(made).to_multiset().count(r[k]) > 0);
        assert(picks.filter(made).contains(r[k]));
        let m = choose|m: int| 0 <= m < picks.filter(made).len() && picks.filter(made)[m] == r[k];
        picks.lemma_filter_pred(made, m);
    }
    assert forall|i: int| 0 <= i < picks.len() && pick_made(#[trigger] picks[i]) && picks[i].team_id == Some(team_id)
        implies r.contains(picks[i]) by {
        picks.lemma_filter_contains(made, i);
        assert(picks.filter(made).contains(picks[i]));
        picks.filter(made).to_multiset_ensures();
        c.to_multiset_ensures();
        assert(picks.filter(made).to_multiset().count(picks[i]) > 0);
        assert(c.to_multiset().count(picks[i]) > 0);
        assert(c.contains(picks[i]));
        let j = choose|j: int| 0 <= j < c.len() && c[j] == picks[i];
        c.lemma_filter_contains(of_team(team_id), j);
    }
}

/// Whether `picks[i]` is the first of the picks satisfying `keep` with the smallest overall
/// pick number (what `min_by_key` over those picks returns).
pub open spec fn first_lowest(picks: Seq<DraftPick>, keep: spec_fn(DraftPick) -> bool, i: int) -> bool {
    &&& 0 <= i < picks.len()
    &&& keep(picks[i])
    &&& forall|j: int|
        0 <= j < picks.len() && #[trigger] keep(picks[j]) ==> picks[i].overall_pick_number
            <= picks[j].overall_pick_number
    &&& forall|j: int|
        0 <= j < i && #[trigger] keep(picks[j]) ==> picks[i].overall_pick_number
            < picks[j].overall_pick_number
}

proof fn lemma_insert_at(s: Seq<DraftPick>, x: DraftPick, pos: int)
    requires
        0 <= pos <= s.len(),
        forall|k: int| pos <= k < s.len() ==> x.overall_pick_number < #[trigger] s[k].overall_pick_number,
        pos > 0 ==> s[pos - 1].overall_pick_number <= x.overall_pick_number,
    ensures
        insert_by_pick(s, x) == s.insert(pos, x),
    decreases s.len() - pos,
{
    if s.len() == 0 {
        assert(s.insert(pos, x) =~= seq![x]);
    } else if pos == s.len() {
        assert(s.insert(pos, x) =~= s.push(x));
    } else {
        lemma_insert_at(s.drop_last(), x, pos);
        assert(s.insert(pos, x) =~= s.drop_last().insert(pos, x).push(s.last()));
    }
}

/// Index of the first pick satisfying `keep` with the lowest overall number, if any.
fn first_lowest_index(picks: &Vec<DraftPick>, team: Option<u32>) -> (out: Option<usize>)
    ensures
        match out {
            Some(i) => first_lowest(picks@, open_slot(team), i as int),
            None => forall|j: int| 0 <= j < picks@.len() ==> !open_for(#[trigger] picks@[j], team),
        },
{
    let ghost keep = open_slot(team);
    let mut best: Option<usize> = None;
    let mut i: usize = 0;
    while i < picks.len()
        invariant
            i <= picks@.len(),
            keep == (open_slot(team)),
            match best {
                Some(b) => b < i && first_lowest(picks@.take(i as int), keep, b as int),
                None => forall|j: int| 0 <= j < i ==> !open_for(#[trigger] picks@[j], team),
            },
        decreases picks@.len() - i,
    {
        let p = &picks[i];
        let wanted = p.player_id == UNDRAFTED_PLAYER_ID && match team {
            Some(t) => p.team_id == Some(t),
            None => true,
        };
        proof {
            assert(picks@.take(i + 1).drop_last() =~= picks@.take(i as int));
            assert(picks@.take(i + 1)[i as int] == picks@[i as int]);
        }
        if wanted {
            match best {
                Some(b) => {
                    if p.overall_pick_number < picks[b].overall_pick_number {
                        best = Some(i);
                    }
                },
                None => {
                    best = Some(i);
                },
            }
        }
        proof {
            let t = picks@.take(i + 1);
            match best {
                Some(b) => {
                    assert forall|j: int| 0 <= j < t.len() && #[trigger] keep(t[j]) implies t[b as int].overall_pick_number <= t[j].overall_pick_number by {
                        assert(t[j] == picks@[j]);
                        if j < i {
                            assert(picks@.take(i as int)[j] == picks@[j]);
                        }
                    }
                    assert forall|j: int| 0 <= j < b && #[trigger] keep(t[j]) implies t[b as int].overall_pick_number < t[j].overall_pick_number by {
                        assert(t[j] == picks@[j]);
                        assert(picks@.take(i as int)[j] == picks@[j]);
                    }
                },
                None => {},
            }
        }
        i = i + 1;
    }
    proof {
        assert(picks@.take(i as int) =~= picks@);
    }
    best
}

/// The open-slot test as a function.
pub open spec fn open_slot(team: Option<u32>) -> spec_fn(DraftPick) -> bool {
    |p: DraftPick| open_for(p, team)
}

/// Whether a pick belongs to `team_id`, as a function.
pub open spec fn of_team(team_id: u32) -> spec_fn(DraftPick) -> bool {
    |p: DraftPick| p.team_id == Some(team_id)
}

/// Whether a pick slot is still open and, when `team` is given, belongs to that team.
pub open spec fn open_for(p: DraftPick, team: Option<u32>) -> bool {
    &&& !pick_made(p)
    &&& match team {
        Some(t) => p.team_id == Some(t),
        None => true,
    }
}

/// The distinct players taken, in the order of their first pick.
pub open spec fn taken_ids(picks: Seq<DraftPick>) -> Set<i64> {
    Set::new(|id: i64| exists|i: int| 0 <= i < picks.len() && pick_made(picks[i]) && #[trigger] picks[i].player_id == id)
}

impl DraftDetail {
    /// Player ids already taken, each once, in the order they were first picked.
    pub fn taken_players(&self) -> (out: Vec<PlayerId>)
        ensures
            forall|a: int, b: int| 0 <= a < b < out@.len() ==> out@[a] != out@[b],
            forall|id: i64| #[trigger] out@.contains(PlayerId(id)) <==> taken_ids(self.picks@).contains(id),
    {
        let mut out: Vec<PlayerId> = Vec::new();
        let mut i: usize = 0;
        while i < self.picks.len()
            invariant
                i <= self.picks@.len(),
                forall|a: int, b: int| 0 <= a < b < out@.len() ==> out@[a] != out@[b],
                forall|id: i64| #[trigger] out@.contains(PlayerId(id)) <==> exists|k: int|
                    0 <= k < i && pick_made(self.picks@[k]) && self.picks@[k].player_id == id,
            decreases self.picks@.len() - i,
        {
            let p = &self.picks[i];
            if p.is_made() {
                let id = PlayerId::new(p.player_id);
                let mut seen = false;
                let mut j: usize = 0;
                while j < out.len()
                    invariant
                        j <= out@.len(),
                        seen == exists|k: int| 0 <= k < j && out@[k] == id,
                    decreases out@.len() - j,
                {
                    if out[j].0 == id.0 {
                        seen = true;
                    }
                    j = j + 1;
                }
                if !seen {
                    let ghost before = out@;
                    out.push(id);
                    proof {
                        assert forall|a: int, b: int| 0 <= a < b < out@.len() implies out@[a] != out@[b] by {
                            if b == out@.len() - 1 {
                                assert(out@[a] == before[a]);
                            }
                        }
                        assert forall|x: i64| #[trigger] out@.contains(PlayerId(x)) <==> exists|k: int|
                            0 <= k < i + 1 && pick_made(self.picks@[k]) && self.picks@[k].player_id == x by {
                            if out@.contains(PlayerId(x)) {
                                let m = choose|m: int| 0 <= m < out@.len() && out@[m] == PlayerId(x);
                                if m < before.len() {
                                    assert(before[m] == PlayerId(x));
                                    assert(before.contains(PlayerId(x)));
                                }
                            }
                            if exists|k: int| 0 <= k < i + 1 && pick_made(self.picks@[k]) && self.picks@[k].player_id == x {
                                let k = choose|k: int| 0 <= k < i + 1 && pick_made(self.picks@[k]) && self.picks@[k].player_id == x;
                                if k < i {
                                    assert(before.contains(PlayerId(x)));
                                    let m = choose|m: int| 0 <= m < before.len() && before[m] == PlayerId(x);
                                    assert(out@[m] == PlayerId(x));
                                } else {
                                    assert(out@[out@.len() - 1] == PlayerId(x));
                                }
                            }
                        }
                    }
                } else {
                    proof {
                        let m = choose|m: int| 0 <= m < j && out@[m] == id;
                        assert(out@.contains(id));
                    }
                }
            }
            i = i + 1;
        }
        proof {
            assert forall|id: i64| #[trigger] out@.contains(PlayerId(id)) <==> taken_ids(self.picks@).contains(id) by {
                if out@.contains(PlayerId(id)) {
                    let k = choose|k: int| 0 <= k < i && pick_made(self.picks@[k]) && self.picks@[k].player_id == id;
                    assert(self.picks@[k].player_id == id);
                }
                if taken_ids(self.picks@).contains(id) {
                    let k = choose|k: int| 0 <= k < self.picks@.len() && pick_made(self.picks@[k]) && #[trigger] self.picks@[k].player_id == id;
                    assert(exists|k2: int| 0 <= k2 < i && pick_made(self.picks@[k2]) && self.picks@[k2].player_id == id);
                }
            }
        }
        out
    }

    /// Picks made so far, in draft order (stable by overall pick number).
    pub fn completed_picks(&self) -> (out: Vec<&DraftPick>)
        ensures
            deref_picks(out@) == completed_order(self.picks@),
    {
        let ghost made = |p: DraftPick| pick_made(p);
        let mut out: Vec<&DraftPick> = Vec::new();
        let mut i: usize = 0;
        while i < self.picks.len()
            invariant
                i <= self.picks@.len(),
                made == (|p: DraftPick| pick_made(p)),
                deref_picks(out@) == order_by_pick(self.picks@.take(i as int).filter(made)),
            decreases self.picks@.len() - i,
        {
            let p = &self.picks[i];
            let ghost prefix = self.picks@.take(i as int);
            proof {
                assert(self.picks@.take(i + 1).drop_last() =~= prefix);
                assert(self.picks@.take(i + 1).last() == self.picks@[i as int]);
                reveal_with_fuel(Seq::filter, 1);
            }
            if p.is_made() {
                let ghost before = deref_picks(out@);
                let mut pos: usize = out.len();
                while pos > 0 && p.overall_pick_number < out[pos - 1].overall_pick_number
                    invariant
                        pos <= out@.len(),
                        before == deref_picks(out@),
                        forall|k: int| pos <= k < out@.len() ==> p.overall_pick_number < #[trigger] before[k].overall_pick_number,
                    decreases pos,
                {
                    pos = pos - 1;
                }
                proof {
                    lemma_insert_at(before, *p, pos as int);
                    assert(self.picks@.take(i + 1).filter(made) == prefix.filter(made).push(*p));
                    assert(prefix.filter(made).push(*p).drop_last() =~= prefix.filter(made));
                }
                out.insert(pos, p);
                proof {
                    assert(deref_picks(out@) =~= before.insert(pos as int, *p));
                }
            } else {
                proof {
                    assert(self.picks@.take(i + 1).filter(made) == prefix.filter(made));
                }
            }
            i = i + 1;
        }
        proof {
            assert(self.picks@.take(i as int) =~= self.picks@);
        }
        out
    }

    /// Players taken by one team, in the order they were drafted.
    pub fn picks_for_team(&self, team_id: u32) -> (out: Vec<&DraftPick>)
        ensures
            deref_picks(out@) == completed_order(self.picks@).filter(of_team(team_id)),
    {
        let all = self.completed_picks();
        let ghost keep = of_team(team_id);
        let mut out: Vec<&DraftPick> = Vec::new();
        let mut i: usize = 0;
        while i < all.len()
            invariant
                i <= all@.len(),
                keep == of_team(team_id),
                deref_picks(out@) == deref_picks(all@).take(i as int).filter(keep),
            decreases all@.len() - i,
        {
            let p = all[i];
            proof {
                let d = deref_picks(all@);
                assert(d.take(i + 1).drop_last() =~= d.take(i as int));
                assert(d.take(i + 1).last() == *p);
                reveal_with_fuel(Seq::filter, 1);
            }
            if p.team_id == Some(team_id) {
                let ghost before = out@;
                out.push(p);
                proof {
                    assert(deref_picks(out@) =~= deref_picks(before).push(*p));
                }
            }
            i = i + 1;
        }
        proof {
            assert(deref_picks(all@).take(i as int) =~= deref_picks(all@));
        }
        out
    }

    /// The next pick slot still waiting to be made: the open slot with the lowest overall
    /// number (the first such slot when several share it).
    pub fn on_the_clock(&self) -> (out: Option<&DraftPick>)
        ensures
            match out {
                Some(p) => exists|i: int| first_lowest(self.picks@, open_slot(None), i) && self.picks@[i] == *p,
                None => forall|j: int| 0 <= j < self.picks@.len() ==> pick_made(#[trigger] self.picks@[j]),
            },
    {
        match first_lowest_index(&self.picks, None) {
            Some(i) => Some(&self.picks[i]),
            None => None,
        }
    }

    /// The team's next open pick slot: its open slot with the lowest overall number.
    pub fn next_pick_for_team(&self, team_id: u32) -> (out: Option<&DraftPick>)
        ensures
            match out {
                Some(p) => exists|i: int| first_lowest(self.picks@, open_slot(Some(team_id)), i) && self.picks@[i] == *p,
                None => forall|j: int| 0 <= j < self.picks@.len() ==> !open_for(#[trigger] self.picks@[j], Some(team_id)),
            },
    {
        match first_lowest_index(&self.picks, Some(team_id)) {
            Some(i) => Some(&self.picks[i]),
            None => None,
        }
    }

    /// Total number of rounds the draft is configured for: the largest round id, or 0
    /// without picks.
    pub fn total_rounds(&self) -> (out: u32)
        ensures
            forall|j: int| 0 <= j < self.picks@.len() ==> #[trigger] self.picks@[j].round_id <= out,
            self.picks@.len() == 0 ==> out == 0,
            self.picks@.len() > 0 ==> exists|j: int| 0 <= j < self.picks@.len() && #[trigger] self.picks@[j].round_id == out,
    {
        let mut best: u32 = 0;
        let mut i: usize = 0;
        while i < self.picks.len()
            invariant
                i <= self.picks@.len(),
                forall|j: int| 0 <= j < i ==> #[trigger] self.picks@[j].round_id <= best,
                i == 0 ==> best == 0,
                i > 0 ==> exists|j: int| 0 <= j < i && #[trigger] self.picks@[j].round_id == best,
            decreases self.picks@.len() - i,
        {
            if i == 0 || self.picks[i].round_id > best {
                best = self.picks[i].round_id;
            }
            i = i + 1;
        }
        best
    }
}

/// League response carrying both draft state and teams.
#[derive(Debug, Clone)]
pub struct DraftResponse {
    pub draft_detail: DraftDetail,
    pub teams: Vec<Team>,
}

/// A SWID with surrounding white space, trailing `:` separators and enclosing braces
/// removed, and ASCII letters lower-cased, so two spellings of one id compare equal.
pub open spec fn swid_key(swid: Seq<char>) -> Seq<char> {
    ascii_lower(strip_braces(strip_end(trim(swid), ':')))
}

/// Whether one of `t`'s owners has the SWID whose key is `wanted`.
pub open spec fn owned_by(t: Team, wanted: Seq<char>) -> bool {
    match t.owners {
        Some(owners) => exists|k: int| 0 <= k < owners@.len() && swid_key(#[trigger] owners@[k]@) == wanted,
        None => false,
    }
}

/// Whether `t`'s name or abbreviation contains `needle` (both lower-cased).
pub open spec fn name_matches(t: Team, needle: Seq<char>) -> bool {
    ||| (t.name matches Some(n) && contains_seq(lowercase(n@), lowercase(needle)))
    ||| (t.abbrev matches Some(a) && contains_seq(lowercase(a@), lowercase(needle)))
}

/// `out` is the first team with id `id`, or `None` when there is none.
pub open spec fn first_with_id(teams: Seq<Team>, id: u32, out: Option<&Team>) -> bool {
    match out {
        Some(t) => exists|i: int| 0 <= i < teams.len() && teams[i] == *t && teams[i].id == id
            && forall|j: int| 0 <= j < i ==> #[trigger] teams[j].id != id,
        None => forall|j: int| 0 <= j < teams.len() ==> #[trigger] teams[j].id != id,
    }
}

/// `out` is the first team one of whose owners has SWID key `key`, or `None`.
pub open spec fn first_owned_by(teams: Seq<Team>, key: Seq<char>, out: Option<&Team>) -> bool {
    match out {
        Some(t) => exists|i: int| 0 <= i < teams.len() && teams[i] == *t && owned_by(teams[i], key)
            && forall|j: int| 0 <= j < i ==> !owned_by(#[trigger] teams[j], key),
        None => forall|j: int| 0 <= j < teams.len() ==> !owned_by(#[trigger] teams[j], key),
    }
}

/// `out` is the first team whose name or abbreviation contains `needle`, or `None`.
pub open spec fn first_named(teams: Seq<Team>, needle: Seq<char>, out: Option<&Team>) -> bool {
    match out {
        Some(t) => exists|i: int| 0 <= i < teams.len() && teams[i] == *t && name_matches(teams[i], needle)
            && forall|j: int| 0 <= j < i ==> !name_matches(#[trigger] teams[j], needle),
        None => forall|j: int| 0 <= j < teams.len() ==> !name_matches(#[trigger] teams[j], needle),
    }
}

/// Strip braces, case and stray separators from a SWID so two spellings compare equal.
pub fn normalize_swid(swid: &str) -> (out: String)
    ensures
        out@ == swid_key(swid@),
{
    let raw = chars_of(swid);
    let trimmed = trim_chars(&raw);
    let no_sep = strip_end_chars(&trimmed, ':');
    let bare = strip_braces_chars(&no_sep);
    string_of(&ascii_lowercase_chars(&bare))
}

fn owners_match(team: &Team, wanted: &Vec<char>) -> (b: bool)
    ensures
        b == owned_by(*team, wanted@),
{
    match &team.owners {
        Some(owners) => {
            let mut i: usize = 0;
            while i < owners.len()
                invariant
                    i <= owners@.len(),
                    team.owners == Some(*owners),
                    forall|k: int| 0 <= k < i ==> swid_key(#[trigger] owners@[k]@) != wanted@,
                decreases owners@.len() - i,
            {
                let key = normalize_swid(owners[i].as_str());
                let key_chars = chars_of(key.as_str());
                if chars_equal(&key_chars, wanted) {
                    proof {
                        let k = i as int;
                        assert(0 <= k < owners@.len() && swid_key(owners@[k]@) == wanted@);
                        let os = team.owners->0;
                        assert(os@[k] == owners@[k]);
                        assert(owned_by(*team, wanted@));
                    }
                    return true;
                }
                i = i + 1;
            }
            false
        },
        None => false,
    }
}

fn label_contains(label: &Option<String>, needle: &Vec<char>) -> (b: bool)
    ensures
        b == (label matches Some(n) && contains_seq(lowercase(n@), needle@)),
{
    match label {
        Some(n) => {
            let lowered = lowercase_chars(&chars_of(n.as_str()));
            contains_chars(&lowered, needle)
        },
        None => false,
    }
}

impl DraftResponse {
    /// Find the team owned by the given SWID.
    ///
    /// ESPN wraps the SWID in braces and the environment variable is sometimes stored with
    /// a trailing separator, so both sides are normalised before comparing.
    pub fn team_for_owner(&self, swid: &str) -> (out: Option<&Team>)
        ensures
            first_owned_by(self.teams@, swid_key(swid@), out),
    {
        let wanted = chars_of(normalize_swid(swid).as_str());
        let mut i: usize = 0;
        while i < self.teams.len()
            invariant
                i <= self.teams@.len(),
                wanted@ == swid_key(swid@),
                forall|j: int| 0 <= j < i ==> !owned_by(#[trigger] self.teams@[j], swid_key(swid@)),
            decreases self.teams@.len() - i,
        {
            if owners_match(&self.teams[i], &wanted) {
                return Some(&self.teams[i]);
            }
            i = i + 1;
        }
        None
    }

    /// Look up a team by id.
    pub fn team(&self, team_id: u32) -> (out: Option<&Team>)
        ensures
            first_with_id(self.teams@, team_id, out),
    {
        let mut i: usize = 0;
        while i < self.teams.len()
            invariant
                i <= self.teams@.len(),
                forall|j: int| 0 <= j < i ==> #[trigger] self.teams@[j].id != team_id,
            decreases self.teams@.len() - i,
        {
            if self.teams[i].id == team_id {
                return Some(&self.teams[i]);
            }
            i = i + 1;
        }
        None
    }

    /// Find a team whose name or abbreviation contains the given text, case-insensitively.
    pub fn team_by_name(&self, needle: &str) -> (out: Option<&Team>)
        ensures
            first_named(self.teams@, needle@, out),
    {
        let lowered = lowercase_chars(&chars_of(needle));
        let mut i: usize = 0;
        while i < self.teams.len()
            invariant
                i <= self.teams@.len(),
                lowered@ == lowercase(needle@),
                forall|j: int| 0 <= j < i ==> !name_matches(#[trigger] self.teams@[j], needle@),
            decreases self.teams@.len() - i,
        {
            let t = &self.teams[i];
            if label_contains(&t.name, &lowered) || label_contains(&t.abbrev, &lowered) {
                return Some(t);
            }
            i = i + 1;
        }
        None
    }
}

} // verus!
