use jampgame_proxy::hooks::game::{
    account_damage, account_kill, best_line, damage_dealt, damage_totals, is_same_team, jump_step,
    pain_parm, printf_str, BestKind, BestPlayers, EV_PAIN,
};
use jampgame_proxy::sdk::{TEAM_BLUE, TEAM_FREE, TEAM_RED, TEAM_SPECTATOR};
use jampgame_proxy::state::default_clients;

fn s(v: Vec<u8>) -> String {
    String::from_utf8(v).unwrap()
}

#[test]
fn printf_str_reproduces_strncpyz_then_field() {
    // Q_strncpyz(dst, src, size) + `%<width>.<width>s`.
    assert_eq!(s(printf_str(b"abc", 36, 15)), "            abc");
    assert_eq!(
        s(printf_str(b"abcdefghijklmnopqrstuvwxyz0123456789ABCDEF", 36, 15)),
        "abcdefghijklmno"
    );
    // kd: Q_strncpyz size 28 (max 27) then %28.28s.
    assert_eq!(printf_str(b"12/3(^3+9^7) [^54.00^7]", 28, 28).len(), 28);
    // tk: Com_sprintf size 9 (max 8) then %9.9s -> 6 spaces + "2/1".
    assert_eq!(s(printf_str(b"2/1", 9, 9)), "      2/1");
}

#[test]
fn team_pairs_and_pain_quantisation() {
    assert!(is_same_team(TEAM_RED, TEAM_RED));
    assert!(is_same_team(TEAM_BLUE, TEAM_BLUE));
    assert!(!is_same_team(TEAM_RED, TEAM_BLUE));
    assert!(!is_same_team(TEAM_FREE, TEAM_FREE));
    assert!(!is_same_team(TEAM_SPECTATOR, TEAM_SPECTATOR));
    assert_eq!(pain_parm(EV_PAIN, 3, true), 24);
    assert_eq!(pain_parm(EV_PAIN, 25, true), 49);
    assert_eq!(pain_parm(EV_PAIN, 74, true), 74);
    assert_eq!(pain_parm(EV_PAIN, 99, true), 100);
    assert_eq!(pain_parm(EV_PAIN, 33, false), 33);
    assert_eq!(pain_parm(EV_PAIN + 1, 33, true), 33);
}

#[test]
fn damage_and_kills_are_accounted_per_pair() {
    assert_eq!(damage_dealt(50, 100, 20, 90), 40);
    assert_eq!(damage_dealt(0, 30, -5, -10), 30);
    let mut c = default_clients();
    account_damage(&mut c, 1, 2, 40, true);
    assert_eq!(c[1].game_stats[2].damages_given, 40);
    assert_eq!(c[2].game_stats[1].damages_taken, 40);
    assert_eq!(c[1].team_damages_given, 40);
    assert_eq!(c[2].team_damages_taken, 40);
    account_damage(&mut c, 3, 3, 10, false);
    assert_eq!(c[3].game_stats[3].damages_given, 10);
    assert_eq!(c[3].game_stats[3].damages_taken, 10);
    assert_eq!(c[3].team_damages_given, 0);
    account_kill(&mut c, 1, 2, false);
    assert_eq!(c[1].game_stats[2].killed, 1);
    assert_eq!(c[2].game_stats[1].killed_by, 1);
    assert_eq!(c[1].team_kills, 0);
    account_kill(&mut c, 1, 2, true);
    assert_eq!(c[1].team_kills, 1);
    assert_eq!(c[2].team_killed, 1);
    assert_eq!(damage_totals(&c[1]), (40, 0));
    assert_eq!(damage_totals(&c[2]), (0, 40));
}

#[test]
fn minimum_jump_time_holds_the_key() {
    // Off: nothing changes.
    assert_eq!(jump_step(0, 100, 127, false, 0), (0, false));
    // First jump frame records the start and holds.
    assert_eq!(jump_step(0, 100, 127, false, 300), (100, true));
    // Still pressed: no change.
    assert_eq!(jump_step(100, 150, 127, false, 300), (100, false));
    // Released early: held on.
    assert_eq!(jump_step(100, 200, 0, false, 300), (100, true));
    // Released after the minimum: timer resets.
    assert_eq!(jump_step(100, 400, 0, false, 300), (0, false));
    // Spectators never start a jump.
    assert_eq!(jump_step(0, 100, 127, true, 300), (0, false));
}

#[test]
fn best_players_and_lines() {
    let mut b = BestPlayers::new();
    b.note(3, 10, 50, 2);
    b.note(4, 10, 60, -1);
    assert_eq!((b.best_dmg_client, b.best_dmg_diff), (3, 10));
    assert_eq!((b.highest_dmg_client, b.highest_dmg), (4, 60));
    assert_eq!((b.best_frag_client, b.best_frag_diff), (3, 2));
    assert_eq!(s(best_line(BestKind::Mvp, b"Bob", 10)), "print \"MVP: Bob (^3+10^7)\n\"");
    assert_eq!(
        s(best_line(BestKind::BestFragger, b"Al", -2)),
        "print \"Best fragger: Al (^3-2^7)\n\""
    );
    assert_eq!(
        s(best_line(BestKind::HighestDamage, b"Cy", 0)),
        "print \"Highest damage dealer: Cy (^3+0^7)\n\""
    );
}
