//! Live draft feed: the line protocol of ESPN's draft rooms, and recovery of the picks
//! already made from the snapshot a room sends on join.
//!
//! The draft room speaks a line-oriented text protocol: a verb followed by
//! space-delimited positional fields. This module reads those lines into events and
//! reads the binary join snapshot; the network session lives with the program.
//!
//! # One session per team
//!
//! The service allows a team exactly one connection. Joining **evicts** whatever client
//! held it: the displaced client receives `LEFT {teamId} {ownerId} 2` and its stream
//! closes.

use crate::cli::types::ids::PlayerId;
use crate::text::{
    char_views, chars_equal, chars_of, join_spaced, parse_i64_chars, parse_i64_spec,
    parse_unsigned, parse_unsigned_chars, plus_to_space, split_whitespace_chars, strip_braces,
    strip_braces_chars, strip_end, strip_end_chars, string_of, trim, trim_chars, words,
};
use vstd::prelude::*;

verus! {

/// Reason code delivered in `LEFT` when another session takes over the team.
pub const LEFT_REASON_DISPLACED: i64 = 2;

/// Something that happened in the draft room.
#[derive(Debug, Clone, PartialEq)]
pub enum DraftEvent {
    /// A pick was made. The event that matters in a snake draft.
    Selected { team_id: u32, player_id: PlayerId, slot_id: i64 },
    /// A team is on the clock.
    Selecting { team_id: u32, seconds: i64 },
    /// A player was won at auction.
    Sold { team_id: u32, player_id: PlayerId, slot_id: i64, bid: i64 },
    /// A pick was rolled back.
    Undone { pick_number: u32 },
    /// Clock tick: phase, remaining time, and who/what it refers to.
    Clock { phase: i64, time: i64, team_id: i64, player_id: i64, amount: i64 },
    Joined { team_id: u32 },
    /// A client disconnected. `reason == LEFT_REASON_DISPLACED` for our own team means we
    /// were kicked by another session.
    Left { team_id: u32, reason: i64 },
    /// The server rejected something. Arrives in-band on an HTTP 200 stream.
    Error { message: String },
    /// The state snapshot sent on join, as base64. See [`recover_prior_picks`].
    Init { blob: String },
    /// Anything not modelled: chat, bids, nominations, state, pings.
    Other { verb: String, raw: String },
}

/// Field `i` of a message read as an `i64`, if present and numeric.
pub open spec fn field_num(rest: Seq<Seq<char>>, i: int) -> Option<int> {
    if 0 <= i < rest.len() {
        parse_i64_spec(rest[i])
    } else {
        None
    }
}

/// Field `i` of a message read as a `u32` team id, if present and numeric.
pub open spec fn field_team(rest: Seq<Seq<char>>, i: int) -> Option<nat> {
    if 0 <= i < rest.len() {
        parse_unsigned(rest[i], 0xffff_ffff)
    } else {
        None
    }
}

/// Field `i` as an `i64`, or `default` when absent or not numeric.
pub open spec fn field_or(rest: Seq<Seq<char>>, i: int, default: int) -> i64 {
    match field_num(rest, i) {
        Some(v) => v as i64,
        None => default as i64,
    }
}

pub open spec fn verb_selected() -> Seq<char> { seq!['S', 'E', 'L', 'E', 'C', 'T', 'E', 'D'] }
pub open spec fn verb_selecting() -> Seq<char> { seq!['S', 'E', 'L', 'E', 'C', 'T', 'I', 'N', 'G'] }
pub open spec fn verb_sold() -> Seq<char> { seq!['S', 'O', 'L', 'D'] }
pub open spec fn verb_undone() -> Seq<char> { seq!['U', 'N', 'D', 'O', 'N', 'E'] }
pub open spec fn verb_clock() -> Seq<char> { seq!['C', 'L', 'O', 'C', 'K'] }
pub open spec fn verb_joined() -> Seq<char> { seq!['J', 'O', 'I', 'N', 'E', 'D'] }
pub open spec fn verb_left() -> Seq<char> { seq!['L', 'E', 'F', 'T'] }
pub open spec fn verb_init() -> Seq<char> { seq!['I', 'N', 'I', 'T'] }
pub open spec fn verb_error() -> Seq<char> { seq!['E', 'R', 'R', 'O', 'R'] }

/// `out` is what one protocol message denotes: `None` for a message without a verb or
/// whose required fields are missing or malformed, otherwise the event its verb and
/// positional fields describe.
pub open spec fn event_of(message: Seq<char>, out: Option<DraftEvent>) -> bool {
    let ws = words(message);
    if ws.len() == 0 {
        out is None
    } else {
        let verb = ws[0];
        let rest = ws.drop_first();
        if verb == verb_selected() {
            match (field_team(rest, 0), field_num(rest, 1)) {
                (Some(t), Some(p)) => out == Some(DraftEvent::Selected {
                    team_id: t as u32,
                    player_id: PlayerId(p as i64),
                    slot_id: field_or(rest, 2, -1),
                }),
                _ => out is None,
            }
        } else if verb == verb_selecting() {
            match field_team(rest, 0) {
                Some(t) => out == Some(DraftEvent::Selecting { team_id: t as u32, seconds: field_or(rest, 1, -1) }),
                None => out is None,
            }
        } else if verb == verb_sold() {
            match (field_team(rest, 0), field_num(rest, 1)) {
                (Some(t), Some(p)) => out == Some(DraftEvent::Sold {
                    team_id: t as u32,
                    player_id: PlayerId(p as i64),
                    slot_id: field_or(rest, 2, -1),
                    bid: field_or(rest, 3, 0),
                }),
                _ => out is None,
            }
        } else if verb == verb_undone() {
            match field_num(rest, 0) {
                Some(n) => if 0 <= n <= 0xffff_ffff {
                    out == Some(DraftEvent::Undone { pick_number: n as u32 })
                } else {
                    out is None
                },
                None => out is None,
            }
        } else if verb == verb_clock() {
            out == Some(DraftEvent::Clock {
                phase: field_or(rest, 0, -1),
                time: field_or(rest, 1, -1),
                team_id: field_or(rest, 2, -1),
                player_id: field_or(rest, 3, -1),
                amount: field_or(rest, 4, -1),
            })
        } else if verb == verb_joined() {
            match field_team(rest, 0) {
                Some(t) => out == Some(DraftEvent::Joined { team_id: t as u32 }),
                None => out is None,
            }
        } else if verb == verb_left() {
            match field_team(rest, 0) {
                Some(t) => out == Some(DraftEvent::Left { team_id: t as u32, reason: field_or(rest, 2, -1) }),
                None => out is None,
            }
        } else if verb == verb_init() {
            out matches Some(DraftEvent::Init { blob }) && blob@ == (if rest.len() > 0 {
                rest[0]
            } else {
                Seq::<char>::empty()
            })
        } else if verb == verb_error() {
            // ESPN URL-encodes free text and uses `+` for spaces.
            out matches Some(DraftEvent::Error { message: text }) && text@ == plus_to_space(
                join_spaced(rest),
            )
        } else {
            out matches Some(DraftEvent::Other { verb: v, raw }) && v@ == verb && raw@ == message
        }
    }
}

fn selected_chars() -> (out: Vec<char>)
    ensures
        out@ == verb_selected(),
{
    let out: Vec<char> = vec!['S', 'E', 'L', 'E', 'C', 'T', 'E', 'D'];
    assert(out@ == verb_selected());
    out
}

fn selecting_chars() -> (out: Vec<char>)
    ensures
        out@ == verb_selecting(),
{
    let out: Vec<char> = vec!['S', 'E', 'L', 'E', 'C', 'T', 'I', 'N', 'G'];
    assert(out@ == verb_selecting());
    out
}

fn sold_chars() -> (out: Vec<char>)
    ensures
        out@ == verb_sold(),
{
    let out: Vec<char> = vec!['S', 'O', 'L', 'D'];
    assert(out@ == verb_sold());
    out
}

fn undone_chars() -> (out: Vec<char>)
    ensures
        out@ == verb_undone(),
{
    let out: Vec<char> = vec!['U', 'N', 'D', 'O', 'N', 'E'];
    assert(out@ == verb_undone());
    out
}

fn clock_chars() -> (out: Vec<char>)
    ensures
        out@ == verb_clock(),
{
    let out: Vec<char> = vec!['C', 'L', 'O', 'C', 'K'];
    assert(out@ == verb_clock());
    out
}

fn joined_chars() -> (out: Vec<char>)
    ensures
        out@ == verb_joined(),
{
    let out: Vec<char> = vec!['J', 'O', 'I', 'N', 'E', 'D'];
    assert(out@ == verb_joined());
    out
}

fn left_chars() -> (out: Vec<char>)
    ensures
        out@ == verb_left(),
{
    let out: Vec<char> = vec!['L', 'E', 'F', 'T'];
    assert(out@ == verb_left());
    out
}

fn init_chars() -> (out: Vec<char>)
    ensures
        out@ == verb_init(),
{
    let out: Vec<char> = vec!['I', 'N', 'I', 'T'];
    assert(out@ == verb_init());
    out
}

fn error_chars() -> (out: Vec<char>)
    ensures
        out@ == verb_error(),
{
    let out: Vec<char> = vec!['E', 'R', 'R', 'O', 'R'];
    assert(out@ == verb_error());
    out
}

fn field_num_of(rest: &Vec<Vec<char>>, i: usize, start: usize) -> (out: Option<i64>)
    requires
        start <= rest@.len(),
    ensures
        match field_num(char_views(rest@).skip(start as int), i as int) {
            Some(v) => out == Some(v as i64),
            None => out is None,
        },
{
    let ghost r = char_views(rest@).skip(start as int);
    if i < rest.len() - start {
        assert(r[i as int] == rest@[start + i]@);
        parse_i64_chars(&rest[start + i])
    } else {
        None
    }
}

fn field_team_of(rest: &Vec<Vec<char>>, i: usize, start: usize) -> (out: Option<u32>)
    requires
        start <= rest@.len(),
    ensures
        match field_team(char_views(rest@).skip(start as int), i as int) {
            Some(v) => out == Some(v as u32),
            None => out is None,
        },
{
    let ghost r = char_views(rest@).skip(start as int);
    if i < rest.len() - start {
        assert(r[i as int] == rest@[start + i]@);
        match parse_unsigned_chars(&rest[start + i], 0xffff_ffff) {
            Some(v) => Some(v as u32),
            None => None,
        }
    } else {
        None
    }
}

fn field_or_of(rest: &Vec<Vec<char>>, i: usize, start: usize, default: i64) -> (out: i64)
    requires
        start <= rest@.len(),
    ensures
        out == field_or(char_views(rest@).skip(start as int), i as int, default as int),
{
    match field_num_of(rest, i, start) {
        Some(v) => v,
        None => default,
    }
}

/// The words from `start` on, joined by single spaces, with `+` read as a space.
fn error_text(ws: &Vec<Vec<char>>, start: usize) -> (out: Vec<char>)
    requires
        start <= ws@.len(),
    ensures
        out@ == plus_to_space(join_spaced(char_views(ws@).skip(start as int))),
{
    let ghost all = char_views(ws@);
    let mut joined: Vec<char> = Vec::new();
    let mut k: usize = start;
    while k < ws.len()
        invariant
            start <= k <= ws@.len(),
            all == char_views(ws@),
            joined@ == plus_to_space(join_spaced(all.subrange(start as int, k as int))),
        decreases ws@.len() - k,
    {
        let ghost before = joined@;
        let ghost part = all.subrange(start as int, k + 1);
        proof {
            assert(part.drop_last() =~= all.subrange(start as int, k as int));
            assert(part.last() == ws@[k as int]@);
        }
        if k > start {
            joined.push(' ');
        }
        let w = &ws[k];
        let mut j: usize = 0;
        let ghost mid = joined@;
        while j < w.len()
            invariant
                j <= w@.len(),
                joined@ == mid + plus_to_space(w@.take(j as int)),
            decreases w@.len() - j,
        {
            let c = w[j];
            joined.push(if c == '+' { ' ' } else { c });
            proof {
                assert(plus_to_space(w@.take(j + 1)) =~= plus_to_space(w@.take(j as int)).push(if c == '+' { ' ' } else { c }));
            }
            j = j + 1;
        }
        proof {
            assert(w@.take(j as int) =~= w@);
            if k > start {
                assert(part.len() >= 2);
                assert(join_spaced(part) == join_spaced(part.drop_last()) + seq![' '] + part.last());
                assert(plus_to_space(join_spaced(part)) =~= before + seq![' '] + plus_to_space(w@));
            } else {
                assert(part.len() == 1);
                assert(join_spaced(part) == part[0]);
            }
        }
        k = k + 1;
    }
    proof {
        assert(all.subrange(start as int, k as int) =~= all.skip(start as int));
    }
    joined
}

/// Parse one protocol message: a verb followed by space-delimited positional fields.
pub fn parse_event(message: &str) -> (out: Option<DraftEvent>)
    ensures
        event_of(message@, out),
{
    let text = chars_of(message);
    let ws = split_whitespace_chars(&text);
    if ws.len() == 0 {
        return None;
    }
    let ghost rest = words(message@).drop_first();
    proof {
        assert(char_views(ws@).skip(1) =~= rest);
        assert(char_views(ws@)[0] == ws@[0]@);
    }
    let verb = &ws[0];
    assert(words(message@)[0] == verb@);
    let r = if chars_equal(verb, &selected_chars()) {
        assert(verb@ == verb_selected());
        let t0 = field_team_of(&ws, 0, 1);
        let p1 = field_num_of(&ws, 1, 1);
        match (t0, p1) {
            (Some(t), Some(p)) => Some(DraftEvent::Selected {
                team_id: t,
                player_id: PlayerId::new(p),
                slot_id: field_or_of(&ws, 2, 1, -1),
            }),
            _ => None,
        }
    } else if chars_equal(verb, &selecting_chars()) {
        assert(verb@ == verb_selecting());
        match field_team_of(&ws, 0, 1) {
            Some(t) => Some(DraftEvent::Selecting { team_id: t, seconds: field_or_of(&ws, 1, 1, -1) }),
            None => None,
        }
    } else if chars_equal(verb, &sold_chars()) {
        assert(verb@ == verb_sold());
        let t0 = field_team_of(&ws, 0, 1);
        let p1 = field_num_of(&ws, 1, 1);
        match (t0, p1) {
            (Some(t), Some(p)) => Some(DraftEvent::Sold {
                team_id: t,
                player_id: PlayerId::new(p),
                slot_id: field_or_of(&ws, 2, 1, -1),
                bid: field_or_of(&ws, 3, 1, 0),
            }),
            _ => None,
        }
    } else if chars_equal(verb, &undone_chars()) {
        assert(verb@ == verb_undone());
        match field_num_of(&ws, 0, 1) {
            Some(n) => {
                if 0 <= n && n <= 0xffff_ffff {
                    Some(DraftEvent::Undone { pick_number: n as u32 })
                } else {
                    None
                }
            },
            None => None,
        }
    } else if chars_equal(verb, &clock_chars()) {
        assert(verb@ == verb_clock());
        Some(DraftEvent::Clock {
            phase: field_or_of(&ws, 0, 1, -1),
            time: field_or_of(&ws, 1, 1, -1),
            team_id: field_or_of(&ws, 2, 1, -1),
            player_id: field_or_of(&ws, 3, 1, -1),
            amount: field_or_of(&ws, 4, 1, -1),
        })
    } else if chars_equal(verb, &joined_chars()) {
        assert(verb@ == verb_joined());
        match field_team_of(&ws, 0, 1) {
            Some(t) => Some(DraftEvent::Joined { team_id: t }),
            None => None,
        }
    } else if chars_equal(verb, &left_chars()) {
        assert(verb@ == verb_left());
        match field_team_of(&ws, 0, 1) {
            Some(t) => Some(DraftEvent::Left { team_id: t, reason: field_or_of(&ws, 2, 1, -1) }),
            None => None,
        }
    } else if chars_equal(verb, &init_chars()) {
        assert(verb@ == verb_init());
        let blob = if ws.len() > 1 {
            string_of(&ws[1])
        } else {
            string_of(&Vec::new())
        };
        proof {
            if ws@.len() > 1 {
                assert(rest[0] == ws@[1]@);
            }
        }
        Some(DraftEvent::Init { blob })
    } else if chars_equal(verb, &error_chars()) {
        assert(verb@ == verb_error());
        let text = error_text(&ws, 1);
        Some(DraftEvent::Error { message: string_of(&text) })
    } else {
        assert(verb@ != verb_selected());
        assert(verb@ != verb_selecting());
        assert(verb@ != verb_sold());
        assert(verb@ != verb_undone());
        assert(verb@ != verb_clock());
        assert(verb@ != verb_joined());
        assert(verb@ != verb_left());
        assert(verb@ != verb_init());
        assert(verb@ != verb_error());
        let v = string_of(verb);
        let raw = string_of(&text);
        assert(v@ == words(message@)[0]);
        assert(raw@ == message@);
        Some(DraftEvent::Other { verb: v, raw })
    };
    r
}

/// The SWID in the form the draft service expects: surrounding white space and trailing
/// `:` separators removed, enclosed in exactly one pair of braces.
pub open spec fn draft_swid(raw: Seq<char>) -> Seq<char> {
    seq!['{'] + strip_braces(trim(strip_end(trim(raw), ':'))) + seq!['}']
}

/// The SWID in the form the draft service expects: braces kept, trailing separator removed.
///
/// The security token is colon-delimited, so an `ESPN_SWID` stored as `{GUID}:` would
/// inject an empty field; here the braces are part of the value.
pub fn swid_for_draft(raw: &str) -> (out: String)
    ensures
        out@ == draft_swid(raw@),
{
    let chars = chars_of(raw);
    let trimmed = trim_chars(&chars);
    let no_sep = strip_end_chars(&trimmed, ':');
    let retrimmed = trim_chars(&no_sep);
    let bare = strip_braces_chars(&retrimmed);
    let mut out: Vec<char> = Vec::new();
    out.push('{');
    let mut i: usize = 0;
    while i < bare.len()
        invariant
            i <= bare@.len(),
            out@ =~= seq!['{'] + bare@.take(i as int),
        decreases bare@.len() - i,
    {
        out.push(bare[i]);
        i = i + 1;
    }
    out.push('}');
    proof {
        assert(bare@.take(i as int) =~= bare@);
        assert(out@ =~= seq!['{'] + bare@ + seq!['}']);
    }
    string_of(&out)
}

/// The `espn_s2` value as the draft service takes it: surrounding white space and any
/// trailing separators removed.
pub open spec fn draft_s2(raw: Seq<char>) -> Seq<char> {
    crate::text::strip_end(crate::text::trim(raw), ':')
}

/// The cookie that signs the draft-room session in: the draft form of the SWID and of the
/// `espn_s2` value, or the header error when the cookie cannot stand in a header.
pub fn draft_cookie(raw_swid: &str, raw_s2: &str) -> (out: Result<String, crate::error::EspnError>)
    ensures
        if crate::espn::http::header_text_ok(crate::espn::http::cookie_text(draft_swid(raw_swid@), draft_s2(raw_s2@))) {
            out matches Ok(c) && c@ == crate::espn::http::cookie_text(draft_swid(raw_swid@), draft_s2(raw_s2@))
        } else {
            out matches Err(crate::error::EspnError::InvalidHeader { message }) && message@ == "failed to parse header value"@
        },
{
    let swid = swid_for_draft(raw_swid);
    let s2 = string_of(&strip_end_chars(&trim_chars(&chars_of(raw_s2)), ':'));
    match crate::espn::http::espn_cookie(Some(swid.as_str()), Some(s2.as_str())) {
        Ok(Some(c)) => Ok(c),
        Ok(None) => Err(crate::error::EspnError::InvalidHeader { message: string_of(&chars_of("failed to parse header value")) }),
        Err(e) => Err(e),
    }
}

/// One roster slot recovered from the join snapshot.
#[derive(Debug, Clone, Copy, PartialEq, Eq, Structural)]
pub struct PriorPick {
    pub team_id: u32,
    pub slot_id: u32,
    pub player_id: PlayerId,
}

/// ESPN's empty-roster-slot sentinel, `-1` read as unsigned.
pub const EMPTY_SLOT: u32 = 0xffff_ffff;

/// Size of an encoded `DraftOwner`: five ints and three booleans.
pub const OWNER_RECORD_LEN: usize = 23;

/// Size of an encoded `DraftRosterItem`: six ints and one boolean.
pub const ROSTER_RECORD_LEN: usize = 25;

/// The big-endian `u32` at byte offset `at`, if four bytes are there.
pub open spec fn word_at(blob: Seq<u8>, at: int) -> Option<u32> {
    if 0 <= at && at + 4 <= blob.len() {
        Some((blob[at] as int * 16777216 + blob[at + 1] as int * 65536 + blob[at + 2] as int * 256
            + blob[at + 3] as int) as u32)
    } else {
        None
    }
}

/// A record of this league at version 1 begins at `at`.
pub open spec fn record_ok(blob: Seq<u8>, at: int, league: u32) -> bool {
    &&& word_at(blob, at) == Some(1u32)
    &&& word_at(blob, at + 4) == Some(1u32)
    &&& word_at(blob, at + 8) == Some(league)
}

/// The `DraftTeam` marker `1, 2, league` begins at `at`.
pub open spec fn team_marker(blob: Seq<u8>, at: int, league: u32) -> bool {
    &&& word_at(blob, at) == Some(1u32)
    &&& word_at(blob, at + 4) == Some(2u32)
    &&& word_at(blob, at + 8) == Some(league)
}

/// `n` well-formed owner records of this league follow one another from `at`.
pub open spec fn owners_ok(blob: Seq<u8>, at: int, league: u32, n: nat) -> bool
    decreases n,
{
    n == 0 || (record_ok(blob, at, league) && owners_ok(blob, at + 23, league, (n - 1) as nat))
}

/// The picks in `n` roster records from `at` (empty slots skipped), or `None` if any of
/// them is malformed, belongs to another league or team, or is cut short.
pub open spec fn roster_from(blob: Seq<u8>, at: int, league: u32, team: u32, n: nat) -> Option<Seq<PriorPick>>
    decreases n,
{
    if n == 0 {
        Some(seq![])
    } else if record_ok(blob, at, league) && word_at(blob, at + 12) == Some(team) && word_at(blob, at + 16) is Some
        && word_at(blob, at + 20) is Some {
        let slot = word_at(blob, at + 16)->0;
        let player = word_at(blob, at + 20)->0;
        match roster_from(blob, at + 25, league, team, (n - 1) as nat) {
            Some(rest) => Some(if player != EMPTY_SLOT {
                seq![PriorPick { team_id: team, slot_id: slot, player_id: PlayerId(player as i64) }] + rest
            } else {
                rest
            }),
            None => None,
        }
    } else {
        None
    }
}

/// The picks of the team record that begins at `start`, if a well-formed one does.
pub open spec fn team_at(blob: Seq<u8>, start: int, league: u32) -> Option<Seq<PriorPick>> {
    if !team_marker(blob, start, league) {
        None
    } else {
        match (word_at(blob, start + 12), word_at(blob, start + 28)) {
            (Some(team), Some(owners)) => {
                let roster_at = start + 32 + 23 * owners;
                if owners_ok(blob, start + 32, league, owners as nat) {
                    match word_at(blob, roster_at) {
                        Some(count) => roster_from(blob, roster_at + 4, league, team, count as nat),
                        None => None,
                    }
                } else {
                    None
                }
            },
            _ => None,
        }
    }
}

/// The picks of the well-formed team records starting before byte `n`, in order.
pub open spec fn recovered_before(blob: Seq<u8>, league: u32, n: nat) -> Seq<PriorPick>
    decreases n,
{
    if n == 0 {
        seq![]
    } else {
        recovered_before(blob, league, (n - 1) as nat) + match team_at(blob, n - 1, league) {
            Some(p) => p,
            None => seq![],
        }
    }
}

/// All the picks a snapshot records for a league: every well-formed team record, in the
/// order they appear, with empty slots skipped.
pub open spec fn recovered_picks(blob: Seq<u8>, league: u32) -> Seq<PriorPick> {
    recovered_before(blob, league, if blob.len() > 12 { (blob.len() - 12) as nat } else { 0 })
}

/// Whether a recovered pick names a real player: the roster slot was not empty.
pub open spec fn real_pick(p: PriorPick) -> bool {
    0 <= p.player_id.0 < EMPTY_SLOT as int
}

proof fn lemma_roster_from_real(blob: Seq<u8>, at: int, league: u32, team: u32, n: nat)
    ensures
        roster_from(blob, at, league, team, n) matches Some(ps) ==> forall|i: int| 0 <= i < ps.len() ==> #[trigger] real_pick(ps[i]) && ps[i].team_id == team,
    decreases n,
{
    if n > 0 {
        lemma_roster_from_real(blob, at + 25, league, team, (n - 1) as nat);
        if record_ok(blob, at, league) && word_at(blob, at + 12) == Some(team) && word_at(blob, at + 16) is Some
            && word_at(blob, at + 20) is Some {
            let slot = word_at(blob, at + 16)->0;
            let player = word_at(blob, at + 20)->0;
            if let Some(rest) = roster_from(blob, at + 25, league, team, (n - 1) as nat) {
                if player != EMPTY_SLOT {
                    let first = PriorPick { team_id: team, slot_id: slot, player_id: PlayerId(player as i64) };
                    let ps = seq![first] + rest;
                    assert(real_pick(first));
                    assert forall|i: int| 0 <= i < ps.len() implies #[trigger] real_pick(ps[i]) && ps[i].team_id == team by {
                        if i > 0 {
                            assert(ps[i] == rest[i - 1]);
                        }
                    }
                }
            }
        }
    }
}

proof fn lemma_recovered_before_real(blob: Seq<u8>, league: u32, n: nat)
    ensures
        forall|i: int| 0 <= i < recovered_before(blob, league, n).len() ==> #[trigger] real_pick(recovered_before(blob, league, n)[i]),
    decreases n,
{
    if n > 0 {
        lemma_recovered_before_real(blob, league, (n - 1) as nat);
        let before = recovered_before(blob, league, (n - 1) as nat);
        let more = match team_at(blob, n - 1, league) {
            Some(p) => p,
            None => seq![],
        };
        let start = n - 1;
        if team_marker(blob, start, league) {
            if let (Some(team), Some(owners)) = (word_at(blob, start + 12), word_at(blob, start + 28)) {
                let roster_at = start + 32 + 23 * owners;
                if let Some(count) = word_at(blob, roster_at) {
                    lemma_roster_from_real(blob, roster_at + 4, league, team, count as nat);
                }
            }
        }
        assert forall|i: int| 0 <= i < (before + more).len() implies #[trigger] real_pick((before + more)[i]) by {
            if i >= before.len() {
                assert((before + more)[i] == more[i - before.len()]);
            }
        }
    }
}

/// Recovering picks from a snapshot never invents a pick from an empty roster slot: every
/// recovered pick names a player id below the empty-slot sentinel.
pub proof fn lemma_recovered_picks_are_real(blob: Seq<u8>, league: u32)
    ensures
        forall|i: int| 0 <= i < recovered_picks(blob, league).len() ==> #[trigger] real_pick(recovered_picks(blob, league)[i]),
{
    lemma_recovered_before_real(blob, league, if blob.len() > 12 { (blob.len() - 12) as nat } else { 0 });
}

proof fn lemma_recovered_before_empty(blob: Seq<u8>, league: u32, n: nat)
    requires
        forall|i: int| 0 <= i < n ==> !#[trigger] team_marker(blob, i, league),
    ensures
        recovered_before(blob, league, n).len() == 0,
    decreases n,
{
    if n > 0 {
        assert(!team_marker(blob, n - 1, league));
        lemma_recovered_before_empty(blob, league, (n - 1) as nat);
    }
}

/// A snapshot with no `DraftTeam` marker of this league (records of another league, or
/// none at all) yields no picks.
pub proof fn lemma_no_team_marker_no_picks(blob: Seq<u8>, league: u32)
    requires
        forall|i: int| 0 <= i < blob.len() ==> !#[trigger] team_marker(blob, i, league),
    ensures
        recovered_picks(blob, league).len() == 0,
{
    lemma_recovered_before_empty(blob, league, if blob.len() > 12 { (blob.len() - 12) as nat } else { 0 });
}

/// Pick `p` is one of the roster entries of a well-formed team record of this league that
/// starts at byte `start`: its marker is there, its owner and roster records all validate,
/// the pick carries that team's id and names a real player. (Opaque: `reveal` it to read
/// the definition.)
#[verifier::opaque]
pub open spec fn picked_from(blob: Seq<u8>, league: u32, start: int, p: PriorPick) -> bool {
    &&& 0 <= start
    &&& team_marker(blob, start, league)
    &&& team_at(blob, start, league) matches Some(ps) && ps.contains(p)
    &&& word_at(blob, start + 12) == Some(p.team_id)
    &&& real_pick(p)
}

proof fn lemma_team_at_picks(blob: Seq<u8>, start: int, league: u32)
    ensures
        team_at(blob, start, league) matches Some(ps) ==> forall|i: int| 0 <= i < ps.len()
            ==> #[trigger] real_pick(ps[i]) && word_at(blob, start + 12) == Some(ps[i].team_id),
{
    let ta = team_at(blob, start, league);
    if ta is Some {
        let ps = ta->0;
        assert(team_marker(blob, start, league));
        let team = word_at(blob, start + 12)->0;
        let owners = word_at(blob, start + 28)->0;
        let roster_at = start + 32 + 23 * owners;
        let count = word_at(blob, roster_at)->0;
        assert(Some(ps) == roster_from(blob, roster_at + 4, league, team, count as nat));
        lemma_roster_from_real(blob, roster_at + 4, league, team, count as nat);
        assert forall|i: int| 0 <= i < ps.len() implies #[trigger] real_pick(ps[i]) && word_at(blob, start + 12) == Some(ps[i].team_id) by {
            assert(real_pick(ps[i]) && ps[i].team_id == team);
        }
    }
}

proof fn lemma_pick_of_team(blob: Seq<u8>, league: u32, start: int, m: int)
    requires
        0 <= start,
        team_at(blob, start, league) matches Some(ps) && 0 <= m < ps.len(),
    ensures
        picked_from(blob, league, start, team_at(blob, start, league)->0[m]),
{
    reveal(picked_from);
    lemma_team_at_picks(blob, start, league);
    let ps = team_at(blob, start, league)->0;
    assert(ps.contains(ps[m]));
    assert(real_pick(ps[m]));
}

/// `len` copies of `v`.
pub open spec fn repeated(v: int, len: nat) -> Seq<int> {
    Seq::new(len, |_i: int| v)
}

/// `origin` places each of `picks` at a team record starting before byte `n`, in order.
pub open spec fn origin_good(blob: Seq<u8>, league: u32, origin: Seq<int>, picks: Seq<PriorPick>, n: int) -> bool {
    &&& origin.len() == picks.len()
    &&& forall|k: int| #![trigger origin[k]] 0 <= k < origin.len() ==> origin[k] < n
    &&& forall|k: int| #![trigger picked_from(blob, league, origin[k], picks[k])] 0 <= k < origin.len()
        ==> picked_from(blob, league, origin[k], picks[k])
    &&& forall|k1: int, k2: int| 0 <= k1 <= k2 < origin.len() ==> #[trigger] origin[k1] <= #[trigger] origin[k2]
}

proof fn lemma_origin_old(blob: Seq<u8>, league: u32, o: Seq<int>, before: Seq<PriorPick>, n: int, k: int)
    requires
        origin_good(blob, league, o, before, n),
        0 <= k < before.len(),
    ensures
        o[k] < n,
        picked_from(blob, league, o[k], before[k]),
{
}

proof fn lemma_origin_extend(blob: Seq<u8>, league: u32, o: Seq<int>, before: Seq<PriorPick>, more: Seq<PriorPick>, n: int)
    requires
        origin_good(blob, league, o, before, n - 1),
        forall|m: int| 0 <= m < more.len() ==> #[trigger] picked_from(blob, league, n - 1, more[m]),
    ensures
        origin_good(blob, league, o + repeated(n - 1, more.len()), before + more, n),
{
    let res = o + repeated(n - 1, more.len());
    let all = before + more;
    assert(repeated(n - 1, more.len()).len() == more.len());
    assert(res.len() == all.len());
    assert forall|k: int| 0 <= k < res.len() implies res[k] < n && #[trigger] picked_from(blob, league, res[k], all[k]) by {
        if k < before.len() {
            lemma_origin_old(blob, league, o, before, n - 1, k);
            assert(res[k] == o[k]);
            assert(all[k] == before[k]);
        } else {
            assert(res[k] == n - 1);
            assert(all[k] == more[k - before.len()]);
            assert(picked_from(blob, league, n - 1, more[k - before.len()]));
        }
    }
    assert forall|k1: int, k2: int| 0 <= k1 <= k2 < res.len() implies #[trigger] res[k1] <= #[trigger] res[k2] by {
        if k2 < before.len() {
            assert(res[k1] == o[k1] && res[k2] == o[k2]);
            assert(o[k1] <= o[k2]);
        } else if k1 < before.len() {
            assert(res[k1] == o[k1]);
            lemma_origin_old(blob, league, o, before, n - 1, k1);
            assert(res[k2] == n - 1);
        } else {
            assert(res[k1] == n - 1 && res[k2] == n - 1);
        }
    }
}

proof fn lemma_recovered_before_origin(blob: Seq<u8>, league: u32, n: nat) -> (origin: Seq<int>)
    ensures
        origin_good(blob, league, origin, recovered_before(blob, league, n), n as int),
    decreases n,
{
    if n == 0 {
        seq![]
    } else {
        let o = lemma_recovered_before_origin(blob, league, (n - 1) as nat);
        let before = recovered_before(blob, league, (n - 1) as nat);
        let ta = team_at(blob, n - 1, league);
        let more = if ta is Some { ta->0 } else { seq![] };
        assert forall|m: int| 0 <= m < more.len() implies #[trigger] picked_from(blob, league, n - 1, more[m]) by {
            lemma_pick_of_team(blob, league, n - 1, m);
        }
        lemma_origin_extend(blob, league, o, before, more, n as int);
        assert(recovered_before(blob, league, n) == before + more);
        o + repeated(n - 1, more.len())
    }
}

/// `origin` gives, for each recovered pick, the byte where its team record starts: each
/// pick comes from the record there (see [`picked_from`]) and the starts never go back.
pub open spec fn origins_ok(blob: Seq<u8>, league: u32, origin: Seq<int>) -> bool {
    &&& origin.len() == recovered_picks(blob, league).len()
    &&& forall|k: int| 0 <= k < origin.len() ==> #[trigger] picked_from(
        blob,
        league,
        origin[k],
        recovered_picks(blob, league)[k],
    )
    &&& forall|k1: int, k2: int| 0 <= k1 <= k2 < origin.len() ==> #[trigger] origin[k1] <= #[trigger] origin[k2]
}

/// Every recovered pick comes from a well-formed team record of this league in the
/// snapshot, and the picks come in the order their team records appear.
pub proof fn lemma_recovered_picks_come_from_teams_in_order(blob: Seq<u8>, league: u32)
    ensures
        exists|origin: Seq<int>| #[trigger] origins_ok(blob, league, origin),
{
    let n: nat = if blob.len() > 12 { (blob.len() - 12) as nat } else { 0 };
    let origin = lemma_recovered_before_origin(blob, league, n);
    assert(origins_ok(blob, league, origin));
}

fn read_word(blob: &[u8], at: usize) -> (out: Option<u32>)
    ensures
        out == word_at(blob@, at as int),
{
    if at <= blob.len() && blob.len() - at >= 4 {
        let v: u32 = (blob[at] as u32) * 16777216 + (blob[at + 1] as u32) * 65536 + (blob[at + 2] as u32)
            * 256 + (blob[at + 3] as u32);
        Some(v)
    } else {
        None
    }
}

fn record_at(blob: &[u8], at: usize, league_id: u32) -> (b: bool)
    ensures
        b == record_ok(blob@, at as int, league_id),
{
    if at > blob.len() {
        return false;
    }
    read_word(blob, at) == Some(1u32) && read_word(blob, at + 4) == Some(1u32) && read_word(
        blob,
        at + 8,
    ) == Some(league_id)
}

/// The picks of the team record at `start`, if it is well formed.
fn team_record(blob: &[u8], start: usize, league_id: u32) -> (out: Option<Vec<PriorPick>>)
    requires
        start + 12 < blob@.len(),
        blob@.len() + 64 <= usize::MAX,
    ensures
        match team_at(blob@, start as int, league_id) {
            Some(p) => out matches Some(v) && v@ == p,
            None => out is None,
        },
{
    if !(read_word(blob, start) == Some(1u32) && read_word(blob, start + 4) == Some(2u32)
        && read_word(blob, start + 8) == Some(league_id)) {
        return None;
    }
    let team_id = match read_word(blob, start + 12) {
        Some(t) => t,
        None => return None,
    };
    let owner_count = match read_word(blob, start + 28) {
        Some(n) => n,
        None => return None,
    };
    let mut at: usize = start + 32;
    let mut k: u32 = 0;
    while k < owner_count
        invariant
            k <= owner_count,
            start + 12 < blob@.len(),
            team_marker(blob@, start as int, league_id),
            word_at(blob@, start + 12) == Some(team_id),
            word_at(blob@, start + 28) == Some(owner_count),
            blob@.len() + 64 <= usize::MAX,
            at == start + 32 + 23 * k,
            at <= blob@.len() + 32,
            owners_ok(blob@, start + 32, league_id, owner_count as nat) == owners_ok(
                blob@,
                at as int,
                league_id,
                (owner_count - k) as nat,
            ),
        decreases owner_count - k,
    {
        if !record_at(blob, at, league_id) {
            return None;
        }
        at = at + OWNER_RECORD_LEN;
        k = k + 1;
    }
    proof {
        assert(owners_ok(blob@, at as int, league_id, 0));
    }
    let roster_count = match read_word(blob, at) {
        Some(n) => n,
        None => return None,
    };
    at = at + 4;
    let ghost roster_at = at as int;
    let mut picks: Vec<PriorPick> = Vec::new();
    let mut r: u32 = 0;
    while r < roster_count
        invariant
            r <= roster_count,
            start + 12 < blob@.len(),
            team_marker(blob@, start as int, league_id),
            word_at(blob@, start + 12) == Some(team_id),
            word_at(blob@, start + 28) == Some(owner_count),
            owners_ok(blob@, start + 32, league_id, owner_count as nat),
            roster_at == start + 32 + 23 * owner_count + 4,
            word_at(blob@, roster_at - 4) == Some(roster_count),
            blob@.len() + 64 <= usize::MAX,
            at <= blob@.len() + 36,
            at == roster_at + 25 * r,
            roster_from(blob@, roster_at, league_id, team_id, roster_count as nat) == match roster_from(
                blob@,
                at as int,
                league_id,
                team_id,
                (roster_count - r) as nat,
            ) {
                Some(rest) => Some(picks@ + rest),
                None => None,
            },
        decreases roster_count - r,
    {
        if !record_at(blob, at, league_id) || read_word(blob, at + 12) != Some(team_id) {
            return None;
        }
        let slot_id = match read_word(blob, at + 16) {
            Some(s) => s,
            None => return None,
        };
        let player_id = match read_word(blob, at + 20) {
            Some(p) => p,
            None => return None,
        };
        let ghost before = picks@;
        if player_id != EMPTY_SLOT {
            picks.push(PriorPick { team_id, slot_id, player_id: PlayerId::new(player_id as i64) });
        }
        proof {
            let tail = roster_from(blob@, at + 25, league_id, team_id, (roster_count - r - 1) as nat);
            match tail {
                Some(rest) => {
                    if player_id != EMPTY_SLOT {
                        assert(before + (seq![PriorPick { team_id, slot_id, player_id: PlayerId(player_id as i64) }] + rest)
                            =~= picks@ + rest);
                    }
                },
                None => {},
            }
        }
        at = at + ROSTER_RECORD_LEN;
        r = r + 1;
    }
    proof {
        assert(picks@ + Seq::<PriorPick>::empty() =~= picks@);
    }
    Some(picks)
}

/// Recover the picks already made from the `INIT` snapshot.
///
/// The snapshot is a nested binary format. Rather than walking it from the root, this
/// anchors on the one node that is distinguishable on sight: every node begins
/// `1, version, leagueId`, and `DraftTeam` is the only one at version 2. From each hit the
/// walk is local and self-checking: owner and roster counts say exactly how many
/// fixed-size records follow, and every record must carry the same marker and league id,
/// so a false anchor desyncs immediately and is discarded rather than yielding junk. Half
/// a team is worse than none: a team whose walk desyncs contributes nothing.
///
/// Empty roster slots are `-1` and are skipped, so the result is the players actually
/// taken.
pub fn recover_prior_picks(blob: &[u8], league_id: u32) -> (out: Vec<PriorPick>)
    requires
        blob@.len() + 64 <= usize::MAX,
    ensures
        out@ == recovered_picks(blob@, league_id),
{
    let mut picks: Vec<PriorPick> = Vec::new();
    let n: usize = if blob.len() > 12 { blob.len() - 12 } else { 0 };
    let mut start: usize = 0;
    while start < n
        invariant
            start <= n,
            n == (if blob@.len() > 12 { (blob@.len() - 12) as nat } else { 0 }),
            blob@.len() + 64 <= usize::MAX,
            picks@ == recovered_before(blob@, league_id, start as nat),
        decreases n - start,
    {
        match team_record(blob, start, league_id) {
            Some(found) => {
                let ghost before = picks@;
                let mut j: usize = 0;
                while j < found.len()
                    invariant
                        j <= found@.len(),
                        picks@ == before + found@.take(j as int),
                    decreases found@.len() - j,
                {
                    picks.push(found[j]);
                    proof {
                        assert(found@.take(j + 1) =~= found@.take(j as int).push(found@[j as int]));
                        assert(before + found@.take(j + 1) =~= (before + found@.take(j as int)).push(found@[j as int]));
                    }
                    j = j + 1;
                }
                proof {
                    assert(found@.take(j as int) =~= found@);
                }
            },
            None => {
                proof {
                    assert(picks@ + Seq::<PriorPick>::empty() =~= picks@);
                }
            },
        }
        start = start + 1;
    }
    picks
}

} // verus!
