use espn_ffl::cli::types::ids::{LeagueId, PlayerId};
use espn_ffl::cli::types::position::Position;
use espn_ffl::commands::draft_board::{FilePicks, ScoredPlayer};
use espn_ffl::commands::draft_prompt::{
    live_screen, live_step, pick_file_body, prompt_screen, prompt_step, FileUpdate, LiveAction,
    LiveInput, LiveLoop,
};
use espn_ffl::espn::draft::{DraftDetail, DraftPick, DraftResponse};
use espn_ffl::espn::live_draft::DraftEvent;

fn pool() -> Vec<ScoredPlayer> {
    let p = |id: i64, name: &str, position: Position| ScoredPlayer {
        player_id: id,
        full_name: Some(name.to_string()),
        position,
        points: 100_000_000,
        bye_week: None,
        average_draft_position: None,
        auction_value: None,
    };
    vec![
        p(1, "Christian McCaffrey", Position::RB),
        p(2, "Justin Jefferson", Position::WR),
        p(3, "Justin Fields", Position::QB),
    ]
}

fn schedule(slots: u32, teams: &[u32]) -> DraftResponse {
    let picks = (1..=slots)
        .map(|n| DraftPick {
            player_id: -1,
            team_id: Some(teams[((n - 1) as usize) % teams.len()]),
            overall_pick_number: n,
            round_id: 1,
            round_pick_number: n,
            lineup_slot_id: None,
            bid_amount: None,
            keeper: false,
            member_id: None,
        })
        .collect();
    DraftResponse {
        draft_detail: DraftDetail { drafted: false, in_progress: true, picks },
        teams: vec![],
    }
}

#[test]
fn typed_picks_are_recorded_and_appended() {
    let scored = pool();
    let mut picks = FilePicks::new();
    let out = prompt_step(&mut picks, "  * mccaffrey ", &scored);
    assert!(!out.quit);
    assert_eq!(out.message.as_deref(), Some("Pick 1: Christian McCaffrey  <- yours"));
    assert_eq!(out.file, FileUpdate::Append("* mccaffrey".to_string()));
    assert_eq!(picks.picks, vec![(PlayerId::new(1), true)]);

    let again = prompt_step(&mut picks, "mccaffrey", &scored);
    assert_eq!(again.message.as_deref(), Some("Already drafted: Christian McCaffrey"));
    assert_eq!(again.file, FileUpdate::Unchanged);

    let ambiguous = prompt_step(&mut picks, "justin", &scored);
    assert_eq!(
        ambiguous.message.as_deref(),
        Some("Not recorded — justin (matches Justin Jefferson, Justin Fields)")
    );
    assert_eq!(picks.len(), 1);
}

#[test]
fn undo_and_drop_take_picks_back() {
    let scored = pool();
    let mut picks = FilePicks::new();
    prompt_step(&mut picks, "mccaffrey", &scored);
    prompt_step(&mut picks, "jefferson", &scored);
    prompt_step(&mut picks, "* fields", &scored);

    let dropped = prompt_step(&mut picks, "drop  jefferson", &scored);
    assert_eq!(
        dropped.message.as_deref(),
        Some("Undid: Justin Jefferson — back on the board (2 picks remain)")
    );
    assert_eq!(dropped.file, FileUpdate::Rewrite);
    assert_eq!(pick_file_body(&picks, &scored), "Christian McCaffrey\n* Justin Fields\n");

    let last = prompt_step(&mut picks, "undo", &scored);
    assert_eq!(last.message.as_deref(), Some("Undid: Justin Fields"));
    let missing = prompt_step(&mut picks, "undo fields", &scored);
    assert_eq!(
        missing.message.as_deref(),
        Some("Not undone — fields is not among the picks recorded")
    );
    prompt_step(&mut picks, "undo", &scored);
    let nothing = prompt_step(&mut picks, "undo", &scored);
    assert_eq!(nothing.message.as_deref(), Some("Nothing to undo."));
}

#[test]
fn list_blank_and_quit() {
    let scored = pool();
    let mut picks = FilePicks::new();
    assert_eq!(
        prompt_step(&mut picks, "list", &scored).message.as_deref(),
        Some("No picks recorded yet.")
    );
    let blank = prompt_step(&mut picks, "   ", &scored);
    assert!(!blank.quit && blank.message.is_none());
    assert!(prompt_step(&mut picks, "q", &scored).quit);
    assert!(prompt_step(&mut picks, "exit", &scored).quit);
    assert!(prompt_step(&mut picks, "# just a comment", &scored).message.is_none());
}

#[test]
fn screens_are_composed_around_the_board() {
    assert_eq!(
        prompt_screen("BOARD", Some("hi")),
        "BOARD\nhi\n\nType a player to mark drafted · prefix * for your own pick · `undo` (last) · `undo <name>` · `list` · `quit`\n"
    );
    assert_eq!(
        live_screen("B", "Team", false, None),
        "B\nLIVE · connected as Team · awaiting state snapshot, board may be incomplete\ntype a player to pick · `list` · `quit`\n"
    );
}

#[test]
fn a_sent_pick_is_confirmed_by_the_feed() {
    let scored = pool();
    let draft = schedule(4, &[7, 9]);
    let mut state = LiveLoop::new();
    let league = LeagueId::new(1);

    let action = live_step(&mut state, LiveInput::Line("draft mccaffrey".to_string()), league, 7, &scored, &draft);
    assert_eq!(action, LiveAction::Select(PlayerId::new(1)));

    live_step(&mut state, LiveInput::Sent { player: PlayerId::new(1), error: None }, league, 7, &scored, &draft);
    assert_eq!(
        state.message.as_deref(),
        Some("Sent Christian McCaffrey — awaiting confirmation...")
    );
    assert!(state.pending.is_some());

    let landed = DraftEvent::Selected { team_id: 7, player_id: PlayerId::new(1), slot_id: 2 };
    assert_eq!(live_step(&mut state, LiveInput::Feed(landed), league, 7, &scored, &draft), LiveAction::Continue);
    assert_eq!(state.message.as_deref(), Some("Pick confirmed: Christian McCaffrey"));
    assert!(state.pending.is_none());
    assert_eq!(state.picks.picks, vec![(PlayerId::new(1), true)]);
}

#[test]
fn an_autodrafted_slot_means_the_pending_pick_did_not_go_through() {
    let scored = pool();
    let draft = schedule(4, &[9, 7]);
    let mut state = LiveLoop::new();
    let league = LeagueId::new(1);

    live_step(&mut state, LiveInput::Sent { player: PlayerId::new(2), error: None }, league, 7, &scored, &draft);
    assert_eq!(
        state.message.as_deref(),
        Some("Sent Justin Jefferson, but you are NOT on the clock — ESPN usually ignores this")
    );
    let other = DraftEvent::Selected { team_id: 7, player_id: PlayerId::new(3), slot_id: 0 };
    live_step(&mut state, LiveInput::Feed(other), league, 7, &scored, &draft);
    assert_eq!(
        state.message.as_deref(),
        Some("Justin Jefferson did NOT go through — Justin Fields was taken for you instead")
    );
    assert!(state.pending.is_none());

    live_step(&mut state, LiveInput::Sent { player: PlayerId::new(2), error: None }, league, 7, &scored, &draft);
    let error = DraftEvent::Error { message: "1 Invalid arguments".to_string() };
    live_step(&mut state, LiveInput::Feed(error), league, 7, &scored, &draft);
    assert_eq!(
        state.message.as_deref(),
        Some("Pick FAILED for Justin Jefferson: 1 Invalid arguments")
    );
}

#[test]
fn the_clock_is_painted_in_place_and_the_draft_ends_when_every_slot_is_filled() {
    let scored = pool();
    let draft = schedule(2, &[7, 9]);
    let mut state = LiveLoop::new();
    state.dirty = false;
    let league = LeagueId::new(1);

    let tick = DraftEvent::Clock { phase: 2, time: 45_500, team_id: 7, player_id: 0, amount: 0 };
    assert_eq!(
        live_step(&mut state, LiveInput::Feed(tick), league, 7, &scored, &draft),
        LiveAction::PaintStatus(">>> ON THE CLOCK — 45s <<<".to_string())
    );
    assert!(state.on_clock && !state.dirty);

    let theirs = DraftEvent::Clock { phase: 2, time: 45_500, team_id: 9, player_id: 0, amount: 0 };
    assert_eq!(live_step(&mut state, LiveInput::Feed(theirs), league, 7, &scored, &draft), LiveAction::Continue);
    assert!(!state.on_clock);

    let first = DraftEvent::Selected { team_id: 7, player_id: PlayerId::new(1), slot_id: 2 };
    assert_eq!(live_step(&mut state, LiveInput::Feed(first), league, 7, &scored, &draft), LiveAction::Continue);
    let second = DraftEvent::Sold { team_id: 9, player_id: PlayerId::new(2), slot_id: 4, bid: 3 };
    assert_eq!(
        live_step(&mut state, LiveInput::Feed(second), league, 7, &scored, &draft),
        LiveAction::Stop("\n\nDraft complete.".to_string())
    );
}

#[test]
fn typed_commands_in_the_live_room() {
    let scored = pool();
    let draft = schedule(4, &[7, 9]);
    let mut state = LiveLoop::new();
    let league = LeagueId::new(1);

    assert_eq!(live_step(&mut state, LiveInput::Line("quit".to_string()), league, 7, &scored, &draft), LiveAction::Leave);
    live_step(&mut state, LiveInput::Line("nobody".to_string()), league, 7, &scored, &draft);
    assert_eq!(state.message.as_deref(), Some("Not sent — nobody (no match)"));
    live_step(&mut state, LiveInput::Sent { player: PlayerId::new(3), error: Some("HTTP 500".to_string()) }, league, 7, &scored, &draft);
    assert_eq!(state.message.as_deref(), Some("Pick rejected — HTTP 500"));
    live_step(&mut state, LiveInput::Line("".to_string()), league, 7, &scored, &draft);
    assert!(!state.dirty);
    assert_eq!(
        live_step(&mut state, LiveInput::FeedClosed, league, 7, &scored, &draft),
        LiveAction::Stop("\n\nDraft feed closed by ESPN.".to_string())
    );
}

#[test]
fn an_unreadable_snapshot_is_reported_rather_than_assumed_empty() {
    let scored = pool();
    let draft = schedule(4, &[7, 9]);
    let mut state = LiveLoop::new();
    let league = LeagueId::new(1);
    live_step(&mut state, LiveInput::Feed(DraftEvent::Init { blob: "!!!".to_string() }), league, 7, &scored, &draft);
    assert_eq!(
        state.message.as_deref(),
        Some("!! Could not read the draft snapshot; picks made before now are missing.")
    );
    assert!(state.snapshot_seen);
    live_step(&mut state, LiveInput::Feed(DraftEvent::Init { blob: "AAAAAQ==".to_string() }), league, 7, &scored, &draft);
    assert_eq!(
        state.message.as_deref(),
        Some("No prior picks found in the snapshot — treating this as the start of the draft.")
    );
}
