use jampgame_proxy::sdk::{ENTITYNUM_NONE, ENTITYNUM_WORLD, MAX_CLIENTS, MAX_NETNAME};
use jampgame_proxy::tffa::{
    adopt_as_main, announce_name, arg_i32, client_match, collect_finished, create_match,
    created_text, damage_blocked, effective_match, entity_visible, filter_scores, fraglimit_hit,
    info_pairs, info_set, info_value, is_kill_limit_print, join_match, join_text, leave_match,
    list_text, mark_viewer_refreshed, match_end_text, match_members, match_size, max_group_size,
    max_matches, member_name, member_team, move_match_to_main, name_list, new_main_candidate,
    new_main_text, note_scores_sent, on_add_score, on_client_connect, on_client_disconnect,
    on_frame_start, prefix_for, prefixed_name, reset_round, rewrite_cs_players_for_viewer,
    rewrite_scores_for_viewer, scores_numbers, tffa_command, EndKind, Finished, JoinOutcome,
    MatchSlot, TffaCommand, TffaState, MAIN_MATCH, SCORES_UNSENT, SCORE_ENTRY_SCORE,
};

fn text(v: Option<Vec<u8>>) -> Option<String> {
    v.map(|b| String::from_utf8(b).unwrap())
}

fn s(v: Vec<u8>) -> String {
    String::from_utf8(v).unwrap()
}

#[test]
fn damage_blocked_unless_same_match() {
    assert!(!damage_blocked(1, 1));
    assert!(damage_blocked(1, 2));
    // Main vs created, and vice versa.
    assert!(damage_blocked(MAIN_MATCH, 1));
    assert!(damage_blocked(1, MAIN_MATCH));
    // Main fights itself.
    assert!(!damage_blocked(MAIN_MATCH, MAIN_MATCH));
}

#[test]
fn entity_visible_only_same_match() {
    assert!(entity_visible(1, 1));
    assert!(!entity_visible(1, 2));
    assert!(!entity_visible(MAIN_MATCH, 1));
    assert!(entity_visible(MAIN_MATCH, MAIN_MATCH));
}

#[test]
fn fraglimit_hit_shared_value() {
    assert!(fraglimit_hit(10, 3, 10));
    assert!(fraglimit_hit(3, 10, 10));
    assert!(!fraglimit_hit(9, 9, 10));
    assert!(!fraglimit_hit(10, 10, 0));
}

fn sample_entry(client: i32, score: i32) -> Vec<i32> {
    vec![client, score, 50, 1, 0, 0, 0, 0, 0, 0, 0, 0, 0, 0]
}

#[test]
fn filter_scores_unified_roster_with_per_player_scores() {
    let mut entries = sample_entry(0, 5);
    entries.extend(sample_entry(1, 7));
    entries.extend(sample_entry(4, 9));
    let pscores = [3; MAX_CLIENTS];
    let out = s(filter_scores(11, 22, &pscores, &entries));
    let nums: Vec<i32> = out
        .strip_prefix("scores ")
        .unwrap()
        .split_whitespace()
        .map(|t| t.parse().unwrap())
        .collect();
    assert_eq!(&nums[..3], &[3, 11, 22]);
    assert_eq!(nums.len(), 3 + 3 * 14);
    assert_eq!(nums[3], 0);
    assert_eq!(nums[3 + SCORE_ENTRY_SCORE], 3);
    assert_eq!(nums[3 + 14], 1);
    assert_eq!(nums[3 + 14 + SCORE_ENTRY_SCORE], 3);
    assert_eq!(nums[3 + 28], 4);
    assert_eq!(nums[3 + 28 + SCORE_ENTRY_SCORE], 3);
}

#[test]
fn info_value_and_set_round_trip() {
    let base = b"n\\Bob\\t\\1\\model\\kyle";
    assert_eq!(text(info_value(base, b"n")).as_deref(), Some("Bob"));
    assert_eq!(text(info_value(base, b"t")).as_deref(), Some("1"));
    assert_eq!(info_value(base, b"missing"), None);
    let out = info_set(base, b"n", b"(TFFA 1) Bob");
    assert_eq!(text(info_value(&out, b"n")).as_deref(), Some("(TFFA 1) Bob"));
    assert_eq!(text(info_value(&out, b"t")).as_deref(), Some("1"));
    // Appends missing keys, keeps leading-backslash style.
    let out2 = info_set(b"\\n\\Bob", b"t", b"3");
    assert_eq!(text(info_value(&out2, b"t")).as_deref(), Some("3"));
}

#[test]
fn kill_limit_prints_match_ed_ref_shapes_only() {
    assert!(is_kill_limit_print("print \"Red @@@HIT_THE_KILL_LIMIT\n\""));
    assert!(is_kill_limit_print("print \"Blue @@@HIT_THE_KILL_LIMIT\n\""));
    assert!(is_kill_limit_print("print \"^6^^0TuA^7 @@@HIT_THE_KILL_LIMIT.\n\""));
    assert!(!is_kill_limit_print("print \"Red hit the kill limit\n\""));
    assert!(!is_kill_limit_print("chat \"HIT_THE_KILL_LIMIT\""));
    assert!(!is_kill_limit_print("scores 2 1 0"));
    assert!(!is_kill_limit_print("print \"hello\"\n"));
}

#[test]
fn prefixed_name_fits_max_netname() {
    let long = "A".repeat(100);
    let out = prefixed_name(long.as_bytes(), 1);
    assert!(out.len() < MAX_NETNAME);
    assert!(out.starts_with(b"(TFFA 1) "));
    assert_eq!(s(prefixed_name(b"Bob", 0)), "(TFFA 0) Bob");
}

#[test]
fn rewrite_cs_players_prefixes_only_playing_outsiders() {
    // Own match: untouched.
    assert_eq!(rewrite_cs_players_for_viewer(b"n\\Bob\\t\\1", 1, 1), None);
    // Real spectator: untouched even across matches.
    assert_eq!(rewrite_cs_players_for_viewer(b"n\\Spec\\t\\3", 0, 1), None);
    // Playing outsider: prefixed + forced to spectator.
    let out = rewrite_cs_players_for_viewer(b"n\\Bob\\t\\1", 1, 0).expect("outsider rewritten");
    assert_eq!(text(info_value(&out, b"n")).as_deref(), Some("(TFFA 1) Bob"));
    assert_eq!(text(info_value(&out, b"t")).as_deref(), Some("3"));
    // Empty base: no change.
    assert_eq!(rewrite_cs_players_for_viewer(b"", 1, 0), None);
}

#[test]
fn entitynum_constants_match_sdk() {
    assert_eq!(ENTITYNUM_NONE, 1023);
    assert_eq!(ENTITYNUM_WORLD, 1022);
}

// ---------------------------------------------------------------------------

#[test]
fn info_pairs_drop_leading_backslash_and_odd_tail() {
    let pairs = info_pairs(b"\\a\\1\\b\\2\\c");
    assert_eq!(pairs, vec![(b"a".to_vec(), b"1".to_vec()), (b"b".to_vec(), b"2".to_vec())]);
    assert!(info_pairs(b"").is_empty());
    assert_eq!(s(info_set(b"a\\1\\b\\2", b"b", b"9")), "a\\1\\b\\9");
    assert_eq!(s(info_set(b"\\a\\1", b"c", b"3")), "\\a\\1\\c\\3");
    assert_eq!(s(info_set(b"", b"k", b"v")), "k\\v");
}

#[test]
fn prefixed_name_cuts_on_char_boundary_and_bare_caret() {
    // 26 bytes fit after the 9-byte prefix.
    let name = "B".repeat(25) + "^1x";
    let out = s(prefixed_name(name.as_bytes(), 2));
    assert_eq!(out, format!("(TFFA 2) {}", "B".repeat(25)));
    // A two-byte character straddling the budget is dropped whole.
    let name = "C".repeat(25) + "é";
    let out = s(prefixed_name(name.as_bytes(), 3));
    assert_eq!(out, format!("(TFFA 3) {}", "C".repeat(25)));
    assert_eq!(s(prefix_for(8)), "(TFFA 8) ");
}

#[test]
fn scores_command_is_rewritten_per_viewer() {
    let mut st = TffaState::new();
    st.matches[1] = MatchSlot { red: 4, blue: 6, active: true };
    st.player_score[2] = 9;
    let cmd = "scores 1 0 0 2 15 50 1 0 0 0 0 0 0 0 0 0 0";
    assert_eq!(
        text(rewrite_scores_for_viewer(&st, cmd, 1)).as_deref(),
        Some("scores 1 4 6 2 9 50 1 0 0 0 0 0 0 0 0 0 0")
    );
    assert_eq!(rewrite_scores_for_viewer(&st, "scores 1 2", 1), None);
    assert_eq!(rewrite_scores_for_viewer(&st, "scores 1 2 x", 1), None);
    assert_eq!(rewrite_scores_for_viewer(&st, "print \"hi\"", 1), None);
    assert_eq!(scores_numbers("scores  1\t2 3 "), Some(vec![1, 2, 3]));
    assert_eq!(scores_numbers("scores 1 2 3 4"), None);
}

#[test]
fn matches_are_created_joined_and_left() {
    let mut st = TffaState::new();
    assert_eq!(create_match(&mut st, 0, max_matches(8)), 1);
    assert_eq!(client_match(&st, 0), 1);
    assert!(st.matches[1].active);
    // Slot 1 is taken; the next creator gets slot 2.
    assert_eq!(create_match(&mut st, 1, 8), 2);
    // Slots below the configured maximum only.
    assert_eq!(create_match(&mut st, 2, 2), 0);
    assert_eq!(client_match(&st, 2), MAIN_MATCH);
    assert_eq!(join_match(&mut st, 3, 1, 8, 2), JoinOutcome::Joined { moved: true });
    assert_eq!(client_match(&st, 3), 1);
    // The size check comes first, even for a member asking again.
    assert_eq!(join_match(&mut st, 3, 1, 8, 2), JoinOutcome::Full);
    assert_eq!(join_match(&mut st, 3, 1, 8, 3), JoinOutcome::Joined { moved: false });
    assert_eq!(join_match(&mut st, 4, 1, 8, 2), JoinOutcome::Full);
    assert_eq!(join_match(&mut st, 4, 5, 8, 2), JoinOutcome::Inactive);
    assert_eq!(join_match(&mut st, 4, 9, 8, 2), JoinOutcome::Usage);
    assert_eq!(join_match(&mut st, 4, 3, 2, 2), JoinOutcome::Usage);
    assert_eq!(match_size(&st, 1), 2);
    leave_match(&mut st, 3);
    assert_eq!(client_match(&st, 3), MAIN_MATCH);
    assert_eq!(match_size(&st, MAIN_MATCH), MAX_CLIENTS - 2);
    assert_eq!(client_match(&st, -1), MAIN_MATCH);
    assert_eq!(client_match(&st, 32), MAIN_MATCH);
    assert_eq!(effective_match(&st, 5, Some(0)), 1);
    assert_eq!(effective_match(&st, 0, None), 1);
    assert_eq!(effective_match(&st, 40, Some(0)), MAIN_MATCH);
}

#[test]
fn limits_are_clamped() {
    assert_eq!(max_matches(0), 1);
    assert_eq!(max_matches(3), 3);
    assert_eq!(max_matches(20), 8);
    assert_eq!(max_matches(-1), 8);
    assert_eq!(max_group_size(1), 2);
    assert_eq!(max_group_size(10), 10);
    assert_eq!(max_group_size(99), 32);
    assert_eq!(max_group_size(-5), 32);
}

#[test]
fn scores_count_in_the_scorers_match_only() {
    let mut st = TffaState::new();
    create_match(&mut st, 3, 8);
    assert!(on_add_score(&mut st, true, false, 3, 1, 2));
    assert_eq!(st.matches[1].red, 2);
    assert_eq!(st.matches[0].red, 0);
    assert_eq!(st.player_score[3], 2);
    assert!(on_add_score(&mut st, true, false, 7, 2, 1));
    assert_eq!(st.matches[0].blue, 1);
    assert!(!on_add_score(&mut st, true, false, 7, 3, 1));
    assert!(!on_add_score(&mut st, true, true, 7, 1, 1));
    assert!(!on_add_score(&mut st, false, false, 7, 1, 1));
    assert!(!on_add_score(&mut st, true, false, 7, 1, 0));
    assert_eq!(st.matches[0].red, 0);
}

#[test]
fn round_reset_and_client_lifecycle() {
    let mut st = TffaState::new();
    create_match(&mut st, 4, 8);
    on_add_score(&mut st, true, false, 4, 1, 5);
    st.intermission = true;
    reset_round(&mut st);
    assert_eq!(st.matches[1], MatchSlot { red: 0, blue: 0, active: false });
    assert!(st.matches[0].active);
    assert_eq!(client_match(&st, 4), 1);
    assert_eq!(st.player_score[4], 0);
    assert!(!st.intermission);
    assert_eq!(st.cs_scores_sent[4], SCORES_UNSENT);
    st.cs_players_base[4] = b"n\\x".to_vec();
    on_client_connect(&mut st, 4, false);
    assert_eq!(client_match(&st, 4), 1);
    on_client_connect(&mut st, 4, true);
    assert_eq!(client_match(&st, 4), MAIN_MATCH);
    assert!(st.cs_players_base[4].is_empty());
    assert!(on_client_disconnect(&mut st, 4));
    assert!(!on_client_disconnect(&mut st, 99));
    let stamp = st.frame_stamp;
    on_frame_start(&mut st);
    assert_eq!(st.frame_stamp, stamp.wrapping_add(1));
    st.frame_stamp = u32::MAX;
    on_frame_start(&mut st);
    assert_eq!(st.frame_stamp, 0);
}

#[test]
fn hud_scores_are_deduplicated() {
    let mut st = TffaState::new();
    assert!(note_scores_sent(&mut st, 2, 1, 0));
    assert!(!note_scores_sent(&mut st, 2, 1, 0));
    assert!(note_scores_sent(&mut st, 2, 2, 0));
    assert!(!note_scores_sent(&mut st, 40, 2, 0));
    st.matches[0].red = 7;
    assert_eq!(mark_viewer_refreshed(&mut st, 2, 0), (7, 0));
    assert_eq!(st.cs_scores_sent[2], (7, 0));
}

#[test]
fn finished_matches_are_closed_and_main_is_handed_over() {
    let mut st = TffaState::new();
    let connected = [true; MAX_CLIENTS];
    create_match(&mut st, 1, 8);
    create_match(&mut st, 2, 8);
    st.matches[0].red = 10;
    st.matches[1].blue = 12;
    st.matches[2].red = 3;
    let fin = collect_finished(&mut st, 10);
    assert_eq!(
        fin,
        vec![
            Finished { id: 0, red: 10, blue: 0 },
            Finished { id: 1, red: 0, blue: 12 }
        ]
    );
    assert_eq!(st.matches[0].red, 10);
    assert_eq!(st.matches[1], MatchSlot { red: 0, blue: 0, active: false });
    assert_eq!(match_members(&st, 1, &connected), vec![1]);
    assert_eq!(move_match_to_main(&mut st, 1, &connected), vec![1]);
    assert_eq!(client_match(&st, 1), MAIN_MATCH);
    assert_eq!(new_main_candidate(&st, &connected, 8), Some(2));
    assert!(move_match_to_main(&mut st, MAIN_MATCH, &connected).is_empty());
    assert_eq!(adopt_as_main(&mut st, 2, &connected), vec![2]);
    assert_eq!(st.matches[0], MatchSlot { red: 3, blue: 0, active: true });
    assert!(!st.matches[2].active);
    assert_eq!(client_match(&st, 2), MAIN_MATCH);
    assert_eq!(new_main_candidate(&st, &connected, 8), None);
    assert!(collect_finished(&mut st, 0).is_empty());
    st.intermission = true;
    st.matches[0].red = 50;
    assert!(collect_finished(&mut st, 10).is_empty());
}

#[test]
fn announcement_texts() {
    assert_eq!(s(announce_name(b"^1Bo\"b\n")), "Bo'b ");
    assert_eq!(s(announce_name("ééééééééééééééééééééxyz".as_bytes())), "é".repeat(20));
    assert_eq!(s(name_list(&[])), "-");
    assert_eq!(s(name_list(&[b"a".to_vec(), b"b".to_vec()])), "a, b");
    assert_eq!(member_team(b"n\\x\\t\\2"), Some(2));
    assert_eq!(member_team(b""), None);
    assert_eq!(s(member_name(b"", 7)), "player7");
    assert_eq!(s(member_name(b"t\\1", 7)), "player7");
    assert_eq!(s(member_name(b"n\\^2Zed\\t\\1", 7)), "Zed");
    let f = Finished { id: 3, red: 10, blue: 4 };
    assert_eq!(
        s(match_end_text(f, b"a, b", b"-", EndKind::Returned)),
        "print \"TFFA 3 ended: RED 10 - BLUE 4. RED: a, b | BLUE: -. Players returned to main as spectator.\n\""
    );
    let m = Finished { id: 0, red: 1, blue: 10 };
    assert_eq!(
        s(match_end_text(m, b"-", b"c", EndKind::FinalScoreboard)),
        "print \"main (TFFA 0) ended: RED 1 - BLUE 10. RED: - | BLUE: c. Final scoreboard incoming.\n\""
    );
    assert_eq!(s(new_main_text(2, 3, 4)), "print \"TFFA 2 becomes the new main (RED 3 - BLUE 4).\n\"");
}

#[test]
fn command_parsing_and_replies() {
    assert_eq!(tffa_command(b"tffa_create"), Some(TffaCommand::Create));
    assert_eq!(tffa_command(b"tffa_join"), Some(TffaCommand::Join));
    assert_eq!(tffa_command(b"tffa_leave"), Some(TffaCommand::Leave));
    assert_eq!(tffa_command(b"tffa_list"), Some(TffaCommand::List));
    assert_eq!(tffa_command(b"tffa"), Some(TffaCommand::List));
    assert_eq!(tffa_command(b"tffa_other"), None);
    assert_eq!(tffa_command(b"say"), None);
    assert_eq!(arg_i32(b" 3 "), 3);
    assert_eq!(arg_i32(b"x"), 0);
    assert_eq!(arg_i32(b""), 0);
    assert_eq!(s(created_text(2)), "print \"Created match 2. Team up with /team red|blue, invite others with tffa_join 2.\n\"");
    assert_eq!(s(join_text(JoinOutcome::Joined { moved: true }, 4)), "print \"Joined match 4.\n\"");
    assert_eq!(s(join_text(JoinOutcome::Full, 4)), "print \"That match is full.\n\"");
    let mut st = TffaState::new();
    create_match(&mut st, 0, 8);
    st.matches[1].red = 2;
    assert_eq!(
        s(list_text(&st, 8)),
        "print \"Matches:\n0 (main): 31 players, 0-0^7\n1: 1 players, 2-0^7\n\""
    );
}
