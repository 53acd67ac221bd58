use jampgame_proxy::sdk::{CON_DISCONNECTED, TEAM_BLUE, TEAM_RED, TEAM_SPECTATOR};
use jampgame_proxy::teamlock::{
    ascii_eq_ignore_case, auto_join_blocked, blocked_join, locked_message, requested_spectator,
    requested_team, snapshot_caps, team_count, RosterSlot, TeamLock,
};

#[test]
fn snapshot_locks_only_even_rosters_of_at_least_two() {
    assert_eq!(snapshot_caps(3, 3), (3, 3));
    assert_eq!(snapshot_caps(2, 2), (2, 2));
    assert_eq!(snapshot_caps(8, 8), (8, 8));
    // Uneven rosters are never locked, even when both are populated.
    assert_eq!(snapshot_caps(2, 3), (-1, -1));
    assert_eq!(snapshot_caps(3, 2), (-1, -1));
    // A team below two players cannot be locked.
    assert_eq!(snapshot_caps(1, 1), (-1, -1));
    assert_eq!(snapshot_caps(1, 0), (-1, -1));
    assert_eq!(snapshot_caps(0, 0), (-1, -1));
}

#[test]
fn requested_team_parses_red_blue_aliases() {
    assert_eq!(requested_team(req(b"red")), Some(TEAM_RED));
    assert_eq!(requested_team(req(b"r")), Some(TEAM_RED));
    assert_eq!(requested_team(req(b"RED")), Some(TEAM_RED));
    assert_eq!(requested_team(req(b"R")), Some(TEAM_RED));
    assert_eq!(requested_team(req(b"blue")), Some(TEAM_BLUE));
    assert_eq!(requested_team(req(b"b")), Some(TEAM_BLUE));
    assert_eq!(requested_team(req(b"Blue")), Some(TEAM_BLUE));
    // Everything else is not a direct team join.
    assert_eq!(requested_team(req(b"spectator")), None);
    assert_eq!(requested_team(req(b"s")), None);
    assert_eq!(requested_team(req(b"")), None);
    assert_eq!(requested_team(None), None);
}

#[test]
fn auto_join_is_blocked_only_when_every_team_is_full() {
    // 2 vs 2 locked: an auto pick (`team free`) lands on a full team.
    assert!(auto_join_blocked(2, 2, 2, 2));
    assert!(auto_join_blocked(2, 2, 3, 2));
    // A freed reservation stays open: one team below cap lets the pick in.
    assert!(!auto_join_blocked(2, 2, 2, 1));
    assert!(!auto_join_blocked(2, 2, 1, 2));
    assert!(!auto_join_blocked(2, 2, 0, 0));
    // No lock at all: nothing is refused.
    assert!(!auto_join_blocked(-1, -1, 2, 2));
}

#[test]
fn requested_spectator_matches_set_team_arms() {
    let yes: [&[u8]; 6] = [b"spectator", b"s", b"score", b"scoreboard", b"follow1", b"follow2"];
    for request in yes {
        assert!(requested_spectator(req(request)));
    }
    // Auto picks and explicit joins are not spectator requests.
    let no: [&[u8]; 4] = [b"free", b"", b"red", b"blue"];
    for request in no {
        assert!(!requested_spectator(req(request)));
    }
    assert!(!requested_spectator(None));
}

#[test]
fn ascii_eq_ignore_case_is_exact_length() {
    assert!(ascii_eq_ignore_case(b"Red", b"red"));
    assert!(ascii_eq_ignore_case(b"", b""));
    assert!(!ascii_eq_ignore_case(b"red", b"reds"));
    assert!(!ascii_eq_ignore_case(b"red", b"blu"));
}

fn slot(has_client: bool, connected: i32, team: i32) -> RosterSlot {
    RosterSlot { has_client, connected, session_team: team }
}

#[test]
fn team_count_skips_empty_and_disconnected_slots() {
    let roster = [
        slot(true, 2, TEAM_RED),
        slot(true, CON_DISCONNECTED, TEAM_RED),
        slot(false, 2, TEAM_RED),
        slot(true, 1, TEAM_BLUE),
        slot(true, 2, TEAM_RED),
        slot(true, 2, TEAM_SPECTATOR),
    ];
    assert_eq!(team_count(&roster, TEAM_RED), 2);
    assert_eq!(team_count(&roster, TEAM_BLUE), 1);
    assert_eq!(team_count(&roster, TEAM_SPECTATOR), 1);
    assert_eq!(team_count(&[], TEAM_RED), 0);
}

#[test]
fn lock_snapshot_follows_the_reconnect_burst() {
    let mut lock = TeamLock::new();
    // No reconnect yet: the frame does nothing.
    assert!(!lock.on_run_frame(true, 2, 2));
    assert_eq!((lock.red_max, lock.blue_max), (-1, -1));
    // A late join does not arm the snapshot.
    lock.on_client_connect(true);
    assert!(!lock.snapshot_due());
    lock.on_client_connect(false);
    assert!(lock.snapshot_due());
    assert!(lock.on_run_frame(true, 3, 3));
    assert_eq!((lock.red_max, lock.blue_max), (3, 3));
    assert!(!lock.pending);
    // Later frames keep the caps.
    assert!(!lock.on_run_frame(true, 1, 5));
    assert_eq!((lock.red_max, lock.blue_max), (3, 3));
    // A new round re-arms and releases.
    lock.on_game_init();
    assert_eq!((lock.red_max, lock.blue_max), (-1, -1));
    lock.on_client_connect(false);
    assert!(lock.on_run_frame(false, 4, 4));
    assert_eq!((lock.red_max, lock.blue_max), (-1, -1));
}

#[test]
fn blocked_join_applies_the_caps() {
    let lock = TeamLock { pending: false, saw_reconnect: true, red_max: 2, blue_max: 2 };
    // Explicit join to a full team.
    assert_eq!(blocked_join(true, req(b"red"), Some(TEAM_SPECTATOR), &lock, true, 2, 1), Some(TEAM_RED));
    // A freed slot stays open for its own team.
    assert_eq!(blocked_join(true, req(b"blue"), Some(TEAM_SPECTATOR), &lock, true, 2, 1), None);
    // Same-team request is left to the game.
    assert_eq!(blocked_join(true, req(b"red"), Some(TEAM_RED), &lock, true, 2, 2), None);
    // Auto pick with both teams full names the smaller team.
    assert_eq!(blocked_join(true, req(b"free"), Some(TEAM_SPECTATOR), &lock, true, 3, 2), Some(TEAM_BLUE));
    assert_eq!(blocked_join(true, req(b""), Some(TEAM_SPECTATOR), &lock, true, 2, 2), Some(TEAM_RED));
    // Spectator requests, no client, gate off, wrong gametype: pass.
    assert_eq!(blocked_join(true, req(b"spectator"), Some(TEAM_RED), &lock, true, 2, 2), None);
    assert_eq!(blocked_join(true, req(b"red"), None, &lock, true, 2, 2), None);
    assert_eq!(blocked_join(false, req(b"red"), Some(TEAM_SPECTATOR), &lock, true, 2, 2), None);
    assert_eq!(blocked_join(true, req(b"red"), Some(TEAM_SPECTATOR), &lock, false, 2, 2), None);
    let open = TeamLock { pending: false, saw_reconnect: true, red_max: -1, blue_max: -1 };
    assert_eq!(blocked_join(true, req(b"red"), Some(TEAM_SPECTATOR), &open, true, 9, 9), None);
}

#[test]
fn locked_message_names_team_and_sizes() {
    assert_eq!(
        locked_message(TEAM_RED, 3, 3),
        b"print \"You cannot join the ^1Red^7 team: teams are locked for ^33 vs 3^7.\n\"".to_vec()
    );
    assert_eq!(
        locked_message(TEAM_BLUE, 2, 2),
        b"print \"You cannot join the ^4Blue^7 team: teams are locked for ^32 vs 2^7.\n\"".to_vec()
    );
}

fn req(b: &[u8]) -> Option<&[u8]> {
    Some(b)
}
