//! The decisions of the two draft-room loops, one input at a time.
//!
//! The interactive tracker takes picks typed at a prompt; the live session also follows
//! ESPN's draft feed and sends picks to it. Reading input, painting the screen, writing the
//! pick file and talking to ESPN are left to the caller, which hands each input to a step
//! function here and carries out the action it returns.

use crate::cli::types::ids::{LeagueId, PlayerId};
use crate::commands::draft_board::{
    apply_live_event, describe_picks, event_note, my_turn_by_schedule, name_of, pick_line,
    pick_listing, picked, picks_after, player_name, removal, remove_pick_by_name,
    resolution, resolve_pick_name, scheduled_turn, seed_from_snapshot, seeded, FilePicks,
    ScoredPlayer, parse_pick_line, recovery_note, unreadable_snapshot_note, base64_decoded,
};
use crate::espn::draft::DraftResponse;
use crate::espn::live_draft::{recovered_picks, DraftEvent};
use crate::text::{
    append_chars, chars_equal, chars_of, char_is_whitespace, decimal, is_whitespace, string_of,
    trim, trim_chars, u64_to_decimal,
};
use vstd::prelude::*;

verus! {

/// How the pick file changes after a prompt line.
#[derive(Debug, Clone, PartialEq, Eq)]
pub enum FileUpdate {
    /// Leave it as it is.
    Unchanged,
    /// Append this line.
    Append(String),
    /// Rewrite it from the picks now recorded.
    Rewrite,
}

/// What the caller does after one prompt line.
#[derive(Debug, Clone)]
pub struct PromptOutcome {
    /// Stop the tracker.
    pub quit: bool,
    /// The line to show under the board on the next redraw.
    pub message: Option<String>,
    pub file: FileUpdate,
}

/// The index of the first white-space character of `s`.
pub open spec fn first_space(s: Seq<char>) -> Option<int>
    decreases s.len(),
{
    if s.len() == 0 {
        None
    } else if is_whitespace(s[0]) {
        Some(0)
    } else {
        match first_space(s.drop_first()) {
            Some(i) => Some(i + 1),
            None => None,
        }
    }
}

proof fn lemma_first_space_bound(s: Seq<char>)
    ensures
        first_space(s) matches Some(i) ==> 0 <= i < s.len() && is_whitespace(s[i]),
    decreases s.len(),
{
    if s.len() > 0 && !is_whitespace(s[0]) {
        lemma_first_space_bound(s.drop_first());
        if let Some(i) = first_space(s.drop_first()) {
            assert(s.drop_first()[i] == s[i + 1]);
        }
    }
}

/// The name an `undo <name>` or `drop <name>` command removes: the text after the first
/// white space, trimmed.
pub open spec fn undo_target(c: Seq<char>) -> Option<Seq<char>> {
    match first_space(c) {
        Some(i) => if c.take(i) == "undo"@ || c.take(i) == "drop"@ {
            Some(trim(c.skip(i + 1)))
        } else {
            None
        },
        None => None,
    }
}

/// Whether a trimmed command asks to stop.
pub open spec fn is_quit(c: Seq<char>) -> bool {
    c == "quit"@ || c == "exit"@ || c == "q"@
}

/// The line shown for a pick typed at the prompt, recorded as number `n`.
pub open spec fn typed_pick_note(n: nat, name: Seq<char>, mine: bool) -> Seq<char> {
    "Pick "@ + decimal(n) + ": "@ + name + if mine { "  <- yours"@ } else { Seq::<char>::empty() }
}

/// What a prompt line does to the picks `p` and what the caller is told: the new picks,
/// whether to stop, the message, and how the pick file changes (`None`: unchanged,
/// `Some(None)`: rewritten, `Some(Some(l))`: `l` appended).
pub open spec fn prompt_effect(
    line: Seq<char>,
    p: Seq<(PlayerId, bool)>,
    s: Seq<ScoredPlayer>,
) -> (Seq<(PlayerId, bool)>, bool, Option<Seq<char>>, Option<Option<Seq<char>>>) {
    let c = trim(line);
    if c.len() == 0 {
        (p, false, None, None)
    } else if is_quit(c) {
        (p, true, None, None)
    } else if c == "list"@ {
        (p, false, Some(pick_listing(p, s)), None)
    } else if c == "undo"@ {
        if p.len() > 0 {
            (p.drop_last(), false, Some("Undid: "@ + name_of(s, p.last().0)), Some(None))
        } else {
            (p, false, Some("Nothing to undo."@), None)
        }
    } else if undo_target(c) is Some {
        let name = undo_target(c)->0;
        match removal(p, s, name) {
            Ok(i) => (
                p.remove(i),
                false,
                Some("Undid: "@ + name_of(s, p[i].0) + " — back on the board ("@ + decimal((p.len() - 1) as nat)
                    + " picks remain)"@),
                Some(None),
            ),
            Err(m) => (p, false, Some("Not undone — "@ + m), None),
        }
    } else {
        match pick_line(c) {
            None => (p, false, None, None),
            Some((mine, name)) => match resolution(name, s) {
                Ok(id) => if picked(p).contains(id) {
                    (p, false, Some("Already drafted: "@ + name_of(s, id)), None)
                } else {
                    (p.push((id, mine)), false, Some(typed_pick_note((p.len() + 1) as nat, name_of(s, id), mine)), Some(Some(c)))
                },
                Err(m) => (p, false, Some("Not recorded — "@ + m), None),
            },
        }
    }
}

/// Typing `undo` right after a pick was recorded at the prompt takes exactly that pick
/// back, leaving the picks as they were before it.
pub proof fn lemma_undo_takes_back_a_typed_pick(
    line: Seq<char>,
    undo_line: Seq<char>,
    picks: Seq<(PlayerId, bool)>,
    scored: Seq<ScoredPlayer>,
)
    requires
        prompt_effect(line, picks, scored).3 matches Some(Some(_)),
        trim(undo_line) == "undo"@,
    ensures
        prompt_effect(undo_line, prompt_effect(line, picks, scored).0, scored).0 == picks,
{
    reveal_strlit("undo");
    reveal_strlit("quit");
    reveal_strlit("exit");
    reveal_strlit("q");
    reveal_strlit("list");
    let after = prompt_effect(line, picks, scored).0;
    assert(after.len() == picks.len() + 1 && after.drop_last() =~= picks);
    assert("undo"@[0] == 'u' && "quit"@[0] == 'q' && "exit"@[0] == 'e' && "list"@[0] == 'l');
    assert("undo"@ != "quit"@ && "undo"@ != "exit"@ && "undo"@ != "q"@ && "undo"@ != "list"@);
}

/// The view of a message.
pub open spec fn message_view(m: Option<String>) -> Option<Seq<char>> {
    match m {
        Some(s) => Some(s@),
        None => None,
    }
}

/// The view of a file update, as in [`prompt_effect`].
pub open spec fn file_view(f: FileUpdate) -> Option<Option<Seq<char>>> {
    match f {
        FileUpdate::Unchanged => None,
        FileUpdate::Rewrite => Some(None),
        FileUpdate::Append(l) => Some(Some(l@)),
    }
}

fn literal(s: &str) -> (out: Vec<char>)
    ensures
        out@ == s@,
{
    chars_of(s)
}

fn first_space_index(s: &Vec<char>) -> (out: Option<usize>)
    ensures
        match first_space(s@) {
            Some(i) => out matches Some(j) && j as int == i && j < s@.len(),
            None => out is None,
        },
{
    proof {
        lemma_first_space_bound(s@);
    }
    let mut i: usize = 0;
    assert(s@.skip(0) =~= s@);
    while i < s.len()
        invariant
            i <= s@.len(),
            first_space(s@) == match first_space(s@.skip(i as int)) {
                Some(k) => Some(k + i),
                None => None::<int>,
            },
        decreases s@.len() - i,
    {
        if char_is_whitespace(s[i]) {
            proof {
                assert(s@.skip(i as int)[0] == s@[i as int]);
            }
            return Some(i);
        }
        proof {
            assert(s@.skip(i as int).drop_first() =~= s@.skip(i + 1));
        }
        i = i + 1;
    }
    proof {
        assert(s@.skip(i as int) =~= Seq::<char>::empty());
    }
    None
}

fn undo_target_chars(c: &Vec<char>) -> (out: Option<Vec<char>>)
    ensures
        match undo_target(c@) {
            Some(n) => out matches Some(v) && v@ == n,
            None => out is None,
        },
{
    let n = c.len();
    match first_space_index(c) {
        Some(i) => {
            assert(i < n);
            let mut verb: Vec<char> = Vec::new();
            let mut k: usize = 0;
            while k < i
                invariant
                    k <= i < c@.len(),
                    verb@ == c@.take(k as int),
                decreases i - k,
            {
                verb.push(c[k]);
                k = k + 1;
                assert(c@.take(k as int) =~= c@.take(k - 1).push(c@[k - 1]));
            }
            if chars_equal(&verb, &literal("undo")) || chars_equal(&verb, &literal("drop")) {
                let mut rest: Vec<char> = Vec::new();
                let mut j: usize = i + 1;
                while j < c.len()
                    invariant
                        i + 1 <= j <= c@.len(),
                        rest@ == c@.subrange(i + 1, j as int),
                    decreases c@.len() - j,
                {
                    rest.push(c[j]);
                    j = j + 1;
                    assert(c@.subrange(i + 1, j as int) =~= c@.subrange(i + 1, j - 1).push(c@[j - 1]));
                }
                assert(c@.subrange(i + 1, j as int) =~= c@.skip(i + 1));
                Some(trim_chars(&rest))
            } else {
                None
            }
        },
        None => None,
    }
}

/// Apply one line typed at the interactive tracker's prompt.
///
/// `quit`, `exit` or `q` stop; `list` lists the picks; `undo` takes back the last pick and
/// `undo <name>` (or `drop <name>`) the pick of that name; anything else is a pick (a
/// leading `*` marks it as the viewing team's), recorded when the name resolves to one
/// player not yet drafted, and then appended to the pick file.
pub fn prompt_step(picks: &mut FilePicks, line: &str, scored: &[ScoredPlayer]) -> (out: PromptOutcome)
    requires
        old(picks).picks@.len() + 1 < u64::MAX,
        old(picks).picks@.len() + 1 < usize::MAX,
    ensures
        final(picks).unmatched@ == old(picks).unmatched@,
        (final(picks).picks@, out.quit, message_view(out.message), file_view(out.file))
            == prompt_effect(line@, old(picks).picks@, scored@),
{
    let c = trim_chars(&chars_of(line));
    let ghost p = picks.picks@;
    if c.len() == 0 {
        return PromptOutcome { quit: false, message: None, file: FileUpdate::Unchanged };
    }
    if chars_equal(&c, &literal("quit")) || chars_equal(&c, &literal("exit")) || chars_equal(&c, &literal("q")) {
        return PromptOutcome { quit: true, message: None, file: FileUpdate::Unchanged };
    }
    if chars_equal(&c, &literal("list")) {
        let listing = describe_picks(picks, scored);
        return PromptOutcome { quit: false, message: Some(listing), file: FileUpdate::Unchanged };
    }
    if chars_equal(&c, &literal("undo")) {
        match picks.picks.pop() {
            Some((id, _)) => {
                let mut m = literal("Undid: ");
                append_chars(&mut m, &chars_of(player_name(scored, id).as_str()));
                return PromptOutcome { quit: false, message: Some(string_of(&m)), file: FileUpdate::Rewrite };
            },
            None => {
                return PromptOutcome {
                    quit: false,
                    message: Some(string_of(&literal("Nothing to undo."))),
                    file: FileUpdate::Unchanged,
                };
            },
        }
    }
    if let Some(name) = undo_target_chars(&c) {
        let name_text = string_of(&name);
        match remove_pick_by_name(picks, name_text.as_str(), scored) {
            Ok(id) => {
                let mut m = literal("Undid: ");
                append_chars(&mut m, &chars_of(player_name(scored, id).as_str()));
                append_chars(&mut m, &literal(" — back on the board ("));
                append_chars(&mut m, &u64_to_decimal(picks.picks.len() as u64));
                append_chars(&mut m, &literal(" picks remain)"));
                return PromptOutcome { quit: false, message: Some(string_of(&m)), file: FileUpdate::Rewrite };
            },
            Err(problem) => {
                let mut m = literal("Not undone — ");
                append_chars(&mut m, &chars_of(problem.as_str()));
                return PromptOutcome { quit: false, message: Some(string_of(&m)), file: FileUpdate::Unchanged };
            },
        }
    }
    let command = string_of(&c);
    match parse_pick_line(command.as_str()) {
        None => PromptOutcome { quit: false, message: None, file: FileUpdate::Unchanged },
        Some((mine, name)) => match resolve_pick_name(name.as_str(), scored) {
            Ok(id) => {
                if picks.contains(id) {
                    let mut m = literal("Already drafted: ");
                    append_chars(&mut m, &chars_of(player_name(scored, id).as_str()));
                    PromptOutcome { quit: false, message: Some(string_of(&m)), file: FileUpdate::Unchanged }
                } else {
                    picks.picks.push((id, mine));
                    let mut m = literal("Pick ");
                    append_chars(&mut m, &u64_to_decimal(picks.picks.len() as u64));
                    append_chars(&mut m, &literal(": "));
                    append_chars(&mut m, &chars_of(player_name(scored, id).as_str()));
                    if mine {
                        append_chars(&mut m, &literal("  <- yours"));
                    }
                    PromptOutcome { quit: false, message: Some(string_of(&m)), file: FileUpdate::Append(command) }
                }
            },
            Err(problem) => {
                let mut m = literal("Not recorded — ");
                append_chars(&mut m, &chars_of(problem.as_str()));
                PromptOutcome { quit: false, message: Some(string_of(&m)), file: FileUpdate::Unchanged }
            },
        },
    }
}

/// The pick file's text for a list of picks: one line per pick, the viewing team's marked
/// with a leading `* `.
pub open spec fn pick_file_text(p: Seq<(PlayerId, bool)>, s: Seq<ScoredPlayer>) -> Seq<char>
    decreases p.len(),
{
    if p.len() == 0 {
        seq![]
    } else {
        pick_file_text(p.drop_last(), s) + (if p.last().1 { "* "@ } else { Seq::<char>::empty() })
            + name_of(s, p.last().0) + "\n"@
    }
}

/// The pick file's contents after an undo, so it stays in step with the picks in memory.
pub fn pick_file_body(picks: &FilePicks, scored: &[ScoredPlayer]) -> (out: String)
    ensures
        out@ == pick_file_text(picks.picks@, scored@),
{
    let mut out: Vec<char> = Vec::new();
    let mut i: usize = 0;
    while i < picks.picks.len()
        invariant
            i <= picks.picks@.len(),
            out@ == pick_file_text(picks.picks@.take(i as int), scored@),
        decreases picks.picks@.len() - i,
    {
        let (id, mine) = picks.picks[i];
        proof {
            assert(picks.picks@.take(i + 1).drop_last() =~= picks.picks@.take(i as int));
        }
        if mine {
            append_chars(&mut out, &literal("* "));
        }
        append_chars(&mut out, &chars_of(player_name(scored, id).as_str()));
        append_chars(&mut out, &literal("\n"));
        i = i + 1;
    }
    proof {
        assert(picks.picks@.take(i as int) =~= picks.picks@);
    }
    string_of(&out)
}

/// The tracker's screen: the board, the pending message, and the command help.
pub open spec fn prompt_screen_text(board: Seq<char>, message: Option<Seq<char>>) -> Seq<char> {
    board + (match message {
        Some(m) => "\n"@ + m + "\n"@,
        None => Seq::<char>::empty(),
    }) + "\nType a player to mark drafted · prefix * for your own pick · `undo` (last) · `undo <name>` · `list` · `quit`\n"@
}

/// Compose the interactive tracker's screen.
pub fn prompt_screen(board: &str, message: Option<&str>) -> (out: String)
    ensures
        out@ == prompt_screen_text(board@, match message { Some(m) => Some(m@), None => None }),
{
    let mut out = chars_of(board);
    if let Some(m) = message {
        append_chars(&mut out, &literal("\n"));
        append_chars(&mut out, &chars_of(m));
        append_chars(&mut out, &literal("\n"));
    }
    append_chars(
        &mut out,
        &literal("\nType a player to mark drafted · prefix * for your own pick · `undo` (last) · `undo <name>` · `list` · `quit`\n"),
    );
    string_of(&out)
}

/// What the live session remembers between inputs.
#[derive(Debug, Clone)]
pub struct LiveLoop {
    /// Picks seen on the feed, in order, each with whether it was the viewing team's.
    pub picks: FilePicks,
    /// A pick sent but not yet confirmed by the feed: the player and its name.
    pub pending: Option<(PlayerId, String)>,
    /// Whether the viewing team is on the clock, as far as the feed has said.
    pub on_clock: bool,
    /// Whether the join snapshot has been read.
    pub snapshot_seen: bool,
    /// The line to show under the board on the next redraw.
    pub message: Option<String>,
    /// Whether the board needs redrawing.
    pub dirty: bool,
}

impl LiveLoop {
    /// The state on joining: nothing seen yet, a redraw due.
    pub fn new() -> (out: Self)
        ensures
            out.picks.picks@.len() == 0,
            out.picks.unmatched@.len() == 0,
            out.pending is None,
            !out.on_clock,
            !out.snapshot_seen,
            out.message is None,
            out.dirty,
    {
        LiveLoop {
            picks: FilePicks::new(),
            pending: None,
            on_clock: false,
            snapshot_seen: false,
            message: None,
            dirty: true,
        }
    }
}

/// One input to the live session.
#[derive(Debug, Clone)]
pub enum LiveInput {
    /// A message from the draft feed.
    Feed(DraftEvent),
    /// The feed ended.
    FeedClosed,
    /// A line typed at the prompt.
    Line(String),
    /// What became of sending a pick for `player`: accepted (`None`), or the error's text.
    Sent { player: PlayerId, error: Option<String> },
}

/// What the caller does after one input.
#[derive(Debug, Clone, PartialEq, Eq)]
pub enum LiveAction {
    /// Nothing outside; redraw when the state is dirty.
    Continue,
    /// Paint this on the reserved status line, leaving the cursor alone.
    PaintStatus(String),
    /// Send a pick for this player, and hand back what became of it.
    Select(PlayerId),
    /// Leave the draft room and stop.
    Leave,
    /// Print this and stop.
    Stop(String),
}

/// The view of a pending pick.
pub open spec fn pending_view(p: Option<(PlayerId, String)>) -> Option<(PlayerId, Seq<char>)> {
    match p {
        Some((id, name)) => Some((id, name@)),
        None => None,
    }
}

/// Whether an action is the one described by `kind` (0 continue, 1 paint, 2 select,
/// 3 leave, 4 stop), `text` (for paint and stop) and `player` (for select).
pub open spec fn action_is(a: LiveAction, kind: nat, text: Seq<char>, player: PlayerId) -> bool {
    match a {
        LiveAction::Continue => kind == 0,
        LiveAction::PaintStatus(s) => kind == 1 && s@ == text,
        LiveAction::Select(id) => kind == 2 && id == player,
        LiveAction::Leave => kind == 3,
        LiveAction::Stop(s) => kind == 4 && s@ == text,
    }
}

/// The picks after reading the join snapshot `blob`.
pub open spec fn snapshot_picks(blob: Seq<char>, p: Seq<(PlayerId, bool)>, league_id: LeagueId, my: u32) -> Seq<(PlayerId, bool)> {
    match base64_decoded(blob) {
        Some(bytes) => if bytes.len() + 64 <= usize::MAX {
            seeded(p, recovered_picks(bytes, league_id.0), my)
        } else {
            p
        },
        None => p,
    }
}

/// The message after reading the join snapshot `blob`.
pub open spec fn snapshot_message(blob: Seq<char>, league_id: LeagueId, my: u32, s: Seq<ScoredPlayer>) -> Seq<char> {
    match base64_decoded(blob) {
        Some(bytes) => if bytes.len() + 64 <= usize::MAX {
            recovery_note(recovered_picks(bytes, league_id.0), my, s)
        } else {
            unreadable_snapshot_note()
        },
        None => unreadable_snapshot_note(),
    }
}

/// The countdown painted on the status line while the viewing team is on the clock.
pub open spec fn clock_line(time: i64) -> Seq<char> {
    ">>> ON THE CLOCK — "@ + decimal((if time > 0 { time } else { 0 }) as nat / 1000) + "s <<<"@
}

/// What a feed event does to a pending pick: a pick of the pending player confirms it; a
/// pick for the viewing team of someone else means it did not go through; a feed error
/// means it failed. Gives the new pending pick and the verdict to show.
pub open spec fn pending_after(
    event: DraftEvent,
    pending: Option<(PlayerId, Seq<char>)>,
    my: u32,
    s: Seq<ScoredPlayer>,
) -> (Option<(PlayerId, Seq<char>)>, Option<Seq<char>>) {
    match event {
        DraftEvent::Selected { team_id, player_id, .. } => landed(team_id, player_id, pending, my, s),
        DraftEvent::Sold { team_id, player_id, .. } => landed(team_id, player_id, pending, my, s),
        DraftEvent::Error { message } => match pending {
            Some((_, name)) => (None, Some("Pick FAILED for "@ + name + ": "@ + message@)),
            None => (None, None),
        },
        _ => (pending, None),
    }
}

/// What a pick landing on the feed does to a pending pick.
pub open spec fn landed(
    team_id: u32,
    player_id: PlayerId,
    pending: Option<(PlayerId, Seq<char>)>,
    my: u32,
    s: Seq<ScoredPlayer>,
) -> (Option<(PlayerId, Seq<char>)>, Option<Seq<char>>) {
    match pending {
        Some((id, name)) => if id == player_id {
            (None, Some("Pick confirmed: "@ + name))
        } else if team_id == my {
            (None, Some(name + " did NOT go through — "@ + name_of(s, player_id) + " was taken for you instead"@))
        } else {
            (pending, None)
        },
        None => (None, None),
    }
}

/// Whether the viewing team is on the clock after a feed event (other than the clock tick).
pub open spec fn on_clock_after(event: DraftEvent, on_clock: bool, my: u32) -> bool {
    match event {
        DraftEvent::Selecting { team_id, .. } => team_id == my,
        _ => on_clock,
    }
}

/// The first of two optional messages that is present, else the old one.
pub open spec fn first_message(a: Option<Seq<char>>, b: Option<Seq<char>>, old: Option<Seq<char>>) -> Option<Seq<char>> {
    match a {
        Some(m) => Some(m),
        None => match b {
            Some(m) => Some(m),
            None => old,
        },
    }
}

/// A typed line with an optional `draft ` prefix removed.
pub open spec fn without_draft_prefix(c: Seq<char>) -> Seq<char> {
    if c.len() >= 6 && c.take(6) == "draft "@ { c.skip(6) } else { c }
}

/// The message after sending a pick for the player named `name` was accepted.
pub open spec fn sent_message(name: Seq<char>, on_turn: bool) -> Seq<char> {
    if on_turn {
        "Sent "@ + name + " — awaiting confirmation..."@
    } else {
        "Sent "@ + name + ", but you are NOT on the clock — ESPN usually ignores this"@
    }
}

fn feed_verdict(
    event: &DraftEvent,
    pending: &mut Option<(PlayerId, String)>,
    my_team_id: u32,
    scored: &[ScoredPlayer],
) -> (out: Option<String>)
    ensures
        (pending_view(*final(pending)), message_view(out)) == pending_after(*event, pending_view(*old(pending)), my_team_id, scored@),
{
    let (team_id, player_id) = match event {
        DraftEvent::Selected { team_id, player_id, .. } => (*team_id, *player_id),
        DraftEvent::Sold { team_id, player_id, .. } => (*team_id, *player_id),
        DraftEvent::Error { message } => {
            return match pending.take() {
                Some((_, name)) => {
                    let mut m = literal("Pick FAILED for ");
                    append_chars(&mut m, &chars_of(name.as_str()));
                    append_chars(&mut m, &literal(": "));
                    append_chars(&mut m, &chars_of(message.as_str()));
                    Some(string_of(&m))
                },
                None => None,
            };
        },
        _ => {
            return None;
        },
    };
    let matches_pending = match pending {
        Some((id, _)) => id.0 == player_id.0,
        None => false,
    };
    if matches_pending {
        match pending.take() {
            Some((_, name)) => {
                let mut m = literal("Pick confirmed: ");
                append_chars(&mut m, &chars_of(name.as_str()));
                Some(string_of(&m))
            },
            None => None,
        }
    } else if team_id == my_team_id {
        match pending.take() {
            Some((_, name)) => {
                let mut m = chars_of(name.as_str());
                append_chars(&mut m, &literal(" did NOT go through — "));
                append_chars(&mut m, &chars_of(player_name(scored, player_id).as_str()));
                append_chars(&mut m, &literal(" was taken for you instead"));
                Some(string_of(&m))
            },
            None => None,
        }
    } else {
        None
    }
}

fn strip_draft_prefix(c: &Vec<char>) -> (out: Vec<char>)
    ensures
        out@ == without_draft_prefix(c@),
{
    let prefix = literal("draft ");
    if c.len() >= 6 {
        let mut head: Vec<char> = Vec::new();
        let mut k: usize = 0;
        while k < 6
            invariant
                k <= 6 <= c@.len(),
                head@ == c@.take(k as int),
            decreases 6 - k,
        {
            head.push(c[k]);
            k = k + 1;
            assert(c@.take(k as int) =~= c@.take(k - 1).push(c@[k - 1]));
        }
        if chars_equal(&head, &prefix) {
            let mut rest: Vec<char> = Vec::new();
            let mut j: usize = 6;
            while j < c.len()
                invariant
                    6 <= j <= c@.len(),
                    rest@ == c@.subrange(6, j as int),
                decreases c@.len() - j,
            {
                rest.push(c[j]);
                j = j + 1;
                assert(c@.subrange(6, j as int) =~= c@.subrange(6, j - 1).push(c@[j - 1]));
            }
            assert(c@.subrange(6, j as int) =~= c@.skip(6));
            return rest;
        }
    }
    let mut same: Vec<char> = Vec::new();
    append_chars(&mut same, c);
    same
}

/// Whether a transition leaves the picks, pending pick, clock flag and snapshot flag as
/// they were.
pub open spec fn same_tracking(o: LiveLoop, n: LiveLoop) -> bool {
    &&& n.picks.picks@ == o.picks.picks@
    &&& pending_view(n.pending) == pending_view(o.pending)
    &&& n.on_clock == o.on_clock
    &&& n.snapshot_seen == o.snapshot_seen
}

/// What one input does to the live session `o`, giving `n` and the action `out`.
///
/// The join snapshot seeds the picks; a clock tick only updates whether the viewing team is
/// on the clock and, when it is, paints the countdown; any other feed event is folded into
/// the picks, settles a pending pick, and ends the session once every scheduled pick is
/// made. A typed line quits, lists the picks, or names a player to send (refused when
/// unresolved or already drafted). The outcome of a send records it as pending and says
/// whether the viewing team was on the clock.
pub open spec fn live_transition(
    o: LiveLoop,
    n: LiveLoop,
    input: LiveInput,
    out: LiveAction,
    league_id: LeagueId,
    my: u32,
    s: Seq<ScoredPlayer>,
    schedule: Seq<crate::espn::draft::DraftPick>,
) -> bool {
    let p = o.picks.picks@;
    match input {
        LiveInput::Feed(DraftEvent::Init { blob }) => {
            &&& n.picks.picks@ == snapshot_picks(blob@, p, league_id, my)
            &&& message_view(n.message) == Some(snapshot_message(blob@, league_id, my, s))
            &&& n.snapshot_seen
            &&& n.dirty
            &&& pending_view(n.pending) == pending_view(o.pending)
            &&& n.on_clock == o.on_clock
            &&& action_is(out, 0, seq![], PlayerId(0))
        },
        LiveInput::Feed(DraftEvent::Clock { team_id, time, .. }) => {
            &&& n.on_clock == (team_id == my)
            &&& n.picks.picks@ == p
            &&& pending_view(n.pending) == pending_view(o.pending)
            &&& n.snapshot_seen == o.snapshot_seen
            &&& message_view(n.message) == message_view(o.message)
            &&& n.dirty == o.dirty
            &&& if team_id == my {
                action_is(out, 1, clock_line(time), PlayerId(0))
            } else {
                action_is(out, 0, seq![], PlayerId(0))
            }
        },
        LiveInput::Feed(event) => {
            let verdict = pending_after(event, pending_view(o.pending), my, s).1;
            let note = event_note(event, p, my, s);
            let p2 = picks_after(event, p, my);
            &&& n.picks.picks@ == p2
            &&& pending_view(n.pending) == pending_after(event, pending_view(o.pending), my, s).0
            &&& n.on_clock == on_clock_after(event, o.on_clock, my)
            &&& n.snapshot_seen == o.snapshot_seen
            &&& message_view(n.message) == first_message(verdict, note, message_view(o.message))
            &&& n.dirty == (o.dirty || verdict is Some || note is Some)
            &&& if p2.len() >= schedule.len() && schedule.len() > 0 {
                action_is(out, 4, "\n\nDraft complete."@, PlayerId(0))
            } else {
                action_is(out, 0, seq![], PlayerId(0))
            }
        },
        LiveInput::FeedClosed => {
            &&& same_tracking(o, n)
            &&& message_view(n.message) == message_view(o.message)
            &&& n.dirty == o.dirty
            &&& action_is(out, 4, "\n\nDraft feed closed by ESPN."@, PlayerId(0))
        },
        LiveInput::Line(line) => {
            let c = trim(line@);
            let name = trim(without_draft_prefix(c));
            &&& same_tracking(o, n)
            &&& n.dirty == (c.len() != 0)
            &&& if c.len() == 0 {
                message_view(n.message) == message_view(o.message) && action_is(out, 0, seq![], PlayerId(0))
            } else if is_quit(c) {
                message_view(n.message) == message_view(o.message) && action_is(out, 3, seq![], PlayerId(0))
            } else if c == "list"@ {
                message_view(n.message) == Some(pick_listing(p, s)) && action_is(out, 0, seq![], PlayerId(0))
            } else {
                match resolution(name, s) {
                    Ok(id) => if picked(p).contains(id) {
                        message_view(n.message) == Some("Already drafted: "@ + name_of(s, id))
                            && action_is(out, 0, seq![], PlayerId(0))
                    } else {
                        message_view(n.message) == message_view(o.message) && action_is(out, 2, seq![], id)
                    },
                    Err(m) => message_view(n.message) == Some("Not sent — "@ + m) && action_is(out, 0, seq![], PlayerId(0)),
                }
            }
        },
        LiveInput::Sent { player, error } => {
            &&& n.picks.picks@ == p
            &&& n.on_clock == o.on_clock
            &&& n.snapshot_seen == o.snapshot_seen
            &&& n.dirty
            &&& action_is(out, 0, seq![], PlayerId(0))
            &&& match error {
                None => {
                    &&& pending_view(n.pending) == Some((player, name_of(s, player)))
                    &&& message_view(n.message) == Some(sent_message(
                        name_of(s, player),
                        o.on_clock || scheduled_turn(schedule, (p.len() as u32) as int, my),
                    ))
                },
                Some(e) => {
                    &&& pending_view(n.pending) == pending_view(o.pending)
                    &&& message_view(n.message) == Some("Pick rejected — "@ + e@)
                },
            }
        },
    }
}

/// Handle one input to the live draft session.
pub fn live_step(
    state: &mut LiveLoop,
    input: LiveInput,
    league_id: LeagueId,
    my_team_id: u32,
    scored: &[ScoredPlayer],
    draft: &DraftResponse,
) -> (out: LiveAction)
    requires
        old(state).picks.picks@.len() + 64 < usize::MAX,
        input matches LiveInput::Sent { error: None, .. } && !old(state).on_clock
            ==> (old(state).picks.picks@.len() as u32) < 0xffff_ffff,
    ensures
        final(state).picks.unmatched@ == old(state).picks.unmatched@,
        live_transition(*old(state), *final(state), input, out, league_id, my_team_id, scored@,
            draft.draft_detail.picks@),
{
    match input {
        LiveInput::Feed(event) => {
            if let DraftEvent::Init { blob } = &event {
                let note = seed_from_snapshot(blob.as_str(), &mut state.picks, league_id, my_team_id, scored);
                state.message = Some(note);
                state.snapshot_seen = true;
                state.dirty = true;
                return LiveAction::Continue;
            }
            if let DraftEvent::Clock { team_id, time, .. } = &event {
                let mine = 0 <= *team_id && *team_id <= 0xffff_ffff && *team_id == my_team_id as i64;
                state.on_clock = mine;
                if mine {
                    let shown: u64 = if *time > 0 { *time as u64 } else { 0 };
                    let mut line = literal(">>> ON THE CLOCK — ");
                    append_chars(&mut line, &u64_to_decimal(shown / 1000));
                    append_chars(&mut line, &literal("s <<<"));
                    return LiveAction::PaintStatus(string_of(&line));
                }
                return LiveAction::Continue;
            }
            let verdict = feed_verdict(&event, &mut state.pending, my_team_id, scored);
            if let DraftEvent::Selecting { team_id, .. } = &event {
                state.on_clock = *team_id == my_team_id;
            }
            let note = apply_live_event(event, &mut state.picks, my_team_id, scored);
            if let Some(n) = note {
                state.message = Some(n);
                state.dirty = true;
            }
            if let Some(v) = verdict {
                state.message = Some(v);
                state.dirty = true;
            }
            if state.picks.picks.len() >= draft.draft_detail.picks.len() && draft.draft_detail.picks.len() > 0 {
                return LiveAction::Stop(string_of(&literal("\n\nDraft complete.")));
            }
            LiveAction::Continue
        },
        LiveInput::FeedClosed => LiveAction::Stop(string_of(&literal("\n\nDraft feed closed by ESPN."))),
        LiveInput::Line(line) => {
            let c = trim_chars(&chars_of(line.as_str()));
            if c.len() == 0 {
                state.dirty = false;
                return LiveAction::Continue;
            }
            state.dirty = true;
            if chars_equal(&c, &literal("quit")) || chars_equal(&c, &literal("exit")) || chars_equal(&c, &literal("q")) {
                return LiveAction::Leave;
            }
            if chars_equal(&c, &literal("list")) {
                state.message = Some(describe_picks(&state.picks, scored));
                return LiveAction::Continue;
            }
            let name = trim_chars(&strip_draft_prefix(&c));
            let name_text = string_of(&name);
            match resolve_pick_name(name_text.as_str(), scored) {
                Ok(id) => {
                    if state.picks.contains(id) {
                        let mut m = literal("Already drafted: ");
                        append_chars(&mut m, &chars_of(player_name(scored, id).as_str()));
                        state.message = Some(string_of(&m));
                        LiveAction::Continue
                    } else {
                        LiveAction::Select(id)
                    }
                },
                Err(problem) => {
                    let mut m = literal("Not sent — ");
                    append_chars(&mut m, &chars_of(problem.as_str()));
                    state.message = Some(string_of(&m));
                    LiveAction::Continue
                },
            }
        },
        LiveInput::Sent { player, error } => {
            state.dirty = true;
            match error {
                None => {
                    let name = player_name(scored, player);
                    let on_turn = state.on_clock || my_turn_by_schedule(draft, &state.picks, my_team_id);
                    let mut m = literal("Sent ");
                    append_chars(&mut m, &chars_of(name.as_str()));
                    if on_turn {
                        append_chars(&mut m, &literal(" — awaiting confirmation..."));
                    } else {
                        append_chars(&mut m, &literal(", but you are NOT on the clock — ESPN usually ignores this"));
                    }
                    state.pending = Some((player, name));
                    state.message = Some(string_of(&m));
                },
                Some(e) => {
                    let mut m = literal("Pick rejected — ");
                    append_chars(&mut m, &chars_of(e.as_str()));
                    state.message = Some(string_of(&m));
                },
            }
            LiveAction::Continue
        },
    }
}

/// The live session's screen: the board, who we are connected as and whether the snapshot
/// has been read, the pending message, and the command help.
pub open spec fn live_screen_text(board: Seq<char>, team: Seq<char>, snapshot_seen: bool, message: Option<Seq<char>>) -> Seq<char> {
    board + "\nLIVE · connected as "@ + team + " · "@ + (if snapshot_seen {
        "picks arrive automatically"@
    } else {
        "awaiting state snapshot, board may be incomplete"@
    }) + "\n"@ + (match message {
        Some(m) => m + "\n"@,
        None => Seq::<char>::empty(),
    }) + "type a player to pick · `list` · `quit`\n"@
}

/// Compose the live session's screen.
pub fn live_screen(board: &str, team: &str, snapshot_seen: bool, message: Option<&str>) -> (out: String)
    ensures
        out@ == live_screen_text(board@, team@, snapshot_seen, match message { Some(m) => Some(m@), None => None }),
{
    let mut out = chars_of(board);
    append_chars(&mut out, &literal("\nLIVE · connected as "));
    append_chars(&mut out, &chars_of(team));
    append_chars(&mut out, &literal(" · "));
    if snapshot_seen {
        append_chars(&mut out, &literal("picks arrive automatically"));
    } else {
        append_chars(&mut out, &literal("awaiting state snapshot, board may be incomplete"));
    }
    append_chars(&mut out, &literal("\n"));
    if let Some(m) = message {
        append_chars(&mut out, &chars_of(m));
        append_chars(&mut out, &literal("\n"));
    }
    append_chars(&mut out, &literal("type a player to pick · `list` · `quit`\n"));
    string_of(&out)
}

} // verus!
