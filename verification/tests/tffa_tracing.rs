use jampgame_proxy::sdk::{MAX_CLIENTS, SPECTATOR_FOLLOW, TEAM_SPECTATOR};
use jampgame_proxy::state::{default_clients, GameStats};
use jampgame_proxy::tffa::{
    plan_finishes, team_name_lists, MainEnd, follow_target, request_match, reset_slot_stats, store_cs_players_base, trace_flips_entity,
    view_of_slot, TffaState, MAIN_MATCH,
};

fn zero() -> GameStats {
    GameStats { killed: 0, killed_by: 0, damages_given: 0, damages_taken: 0 }
}

#[test]
fn view_of_slot_prefixes_outsiders_and_copies_the_rest() {
    let base = b"n\\Bob\\t\\1";
    assert_eq!(view_of_slot(base, 1, 1), base.to_vec());
    assert_eq!(view_of_slot(b"", 2, 0), Vec::<u8>::new());
    let other = String::from_utf8(view_of_slot(base, 1, 0)).unwrap();
    assert_eq!(other, "n\\(TFFA 1) Bob\\t\\3");
}

#[test]
fn store_cs_players_base_only_for_client_slots() {
    let mut st = TffaState::new();
    assert!(store_cs_players_base(&mut st, 5, b"n\\Ann"));
    assert_eq!(st.cs_players_base[5], b"n\\Ann".to_vec());
    assert!(!store_cs_players_base(&mut st, MAX_CLIENTS as i32, b"x"));
    assert!(!store_cs_players_base(&mut st, -1, b"x"));
    assert!(st.cs_players_base[4].is_empty());
}

#[test]
fn follow_target_needs_spectator_in_follow_mode() {
    assert_eq!(follow_target(Some(TEAM_SPECTATOR), SPECTATOR_FOLLOW, 7, true), Some(7));
    assert_eq!(follow_target(Some(1), SPECTATOR_FOLLOW, 7, true), None);
    assert_eq!(follow_target(None, SPECTATOR_FOLLOW, 7, true), None);
    assert_eq!(follow_target(Some(TEAM_SPECTATOR), 0, 7, true), None);
    assert_eq!(follow_target(Some(TEAM_SPECTATOR), SPECTATOR_FOLLOW, 7, false), None);
    assert_eq!(follow_target(Some(TEAM_SPECTATOR), SPECTATOR_FOLLOW, MAX_CLIENTS as i32, true), None);
}

#[test]
fn request_match_uses_entity_then_owner() {
    let mut st = TffaState::new();
    st.client_match[3] = 2;
    st.client_match[9] = 4;
    assert_eq!(request_match(&st, 3, true, 9, true), Some(2));
    assert_eq!(request_match(&st, 100, false, 9, true), Some(4));
    assert_eq!(request_match(&st, 100, false, 9, false), None);
    assert_eq!(request_match(&st, 1023, false, -1, false), None);
    assert_eq!(request_match(&st, 1024, false, 9, true), None);
    assert_eq!(request_match(&st, 0, true, 9, true), Some(MAIN_MATCH));
}

#[test]
fn trace_flips_only_solid_live_outsiders() {
    assert!(trace_flips_entity(1, 0, true, 1));
    assert!(!trace_flips_entity(1, 1, true, 1));
    assert!(!trace_flips_entity(1, 0, false, 1));
    assert!(!trace_flips_entity(1, 0, true, 0));
}

#[test]
fn reset_slot_stats_clears_row_and_column() {
    let mut clients = default_clients();
    let one = GameStats { killed: 1, killed_by: 2, damages_given: 3, damages_taken: 4 };
    for i in 0..MAX_CLIENTS {
        for j in 0..MAX_CLIENTS {
            clients[i].game_stats[j] = one;
        }
        clients[i].team_kills = 5;
    }
    reset_slot_stats(&mut clients, 2);
    assert_eq!(clients[2].game_stats[7], zero());
    assert_eq!(clients[7].game_stats[2], zero());
    assert_eq!(clients[7].game_stats[3], one);
    assert_eq!(clients[2].team_kills, 0);
    assert_eq!(clients[3].team_kills, 5);
    let before = clients[0].game_stats[1];
    reset_slot_stats(&mut clients, 99);
    assert_eq!(clients[0].game_stats[1], before);
}

#[test]
fn empty_main_lead_is_dropped_and_nothing_else_moves() {
    let mut st = TffaState::new();
    st.matches[0].red = 7;
    st.matches[0].blue = 3;
    st.matches[2].red = 4;
    st.client_match[5] = 2;
    jampgame_proxy::tffa::drop_empty_main_lead(&mut st);
    assert_eq!((st.matches[0].red, st.matches[0].blue, st.matches[0].active), (0, 0, true));
    assert_eq!(st.matches[2].red, 4);
    assert_eq!(st.client_match[5], 2);
}

fn finished(id: u8, red: i32, blue: i32) -> jampgame_proxy::tffa::Finished {
    jampgame_proxy::tffa::Finished { id, red, blue }
}

#[test]
fn finish_plan_promotes_first_created_match_in_play() {
    let mut st = TffaState::new();
    st.matches[1].active = true;
    st.matches[2].active = true;
    st.matches[2].red = 5;
    st.matches[2].blue = 2;
    st.matches[3].active = true;
    st.client_match[4] = 1;
    st.client_match[6] = 2;
    st.client_match[7] = 3;
    st.client_match[8] = 3;
    let mut connected = vec![false; MAX_CLIENTS];
    for c in [0usize, 4, 6, 7, 8] {
        connected[c] = true;
    }
    // Main and match 3 finished (match 3 already closed by the frame).
    st.matches[3].active = false;
    let plan = plan_finishes(&st, &[finished(0, 10, 8), finished(3, 10, 1)], &connected, 8);
    assert_eq!(plan.created.len(), 1);
    assert_eq!(plan.created[0].result, finished(3, 10, 1));
    assert_eq!(plan.created[0].members, vec![7, 8]);
    let main = plan.main.expect("main finished");
    assert_eq!(main.members, vec![0]);
    assert_eq!(plan.main_end, MainEnd::Promote { id: 1, red: 0, blue: 0 });
    // With max 0 no created match can take over: the map ends.
    let plan = plan_finishes(&st, &[finished(0, 10, 8)], &connected, 0);
    assert_eq!(plan.main_end, MainEnd::EndMap);
}

#[test]
fn finish_plan_drops_empty_main_and_skips_empty_created() {
    let st = TffaState::new();
    let connected = vec![false; MAX_CLIENTS];
    let plan = plan_finishes(&st, &[finished(0, 3, 1), finished(2, 3, 0)], &connected, 8);
    assert!(plan.created.is_empty());
    assert_eq!(plan.main.map(|m| m.members.len()), Some(0));
    assert_eq!(plan.main_end, MainEnd::DropLead);
    let plan = plan_finishes(&st, &[], &connected, 8);
    assert!(plan.main.is_none());
    assert_eq!(plan.main_end, MainEnd::Continues);
}

#[test]
fn team_name_lists_split_members_by_stored_team() {
    let bases = vec![
        b"n\\^1Ann\\t\\1".to_vec(),
        b"n\\Bob\\t\\2".to_vec(),
        b"n\\Cid\\t\\3".to_vec(),
        Vec::new(),
        b"n\\Dee\\t\\1".to_vec(),
    ];
    let (red, blue) = team_name_lists(&bases, &[0, 1, 2, 3, 4]);
    assert_eq!(String::from_utf8(red).unwrap(), "Ann, Dee");
    assert_eq!(String::from_utf8(blue).unwrap(), "Bob");
    let (red, blue) = team_name_lists(&bases, &[2, 3]);
    assert_eq!(red, b"-".to_vec());
    assert_eq!(blue, b"-".to_vec());
}
