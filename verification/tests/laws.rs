use jampgame_proxy::hooks::netstatus::{net_status_commands, NET_STATUS_CHUNK};
use jampgame_proxy::sdk::MAX_CLIENTS;
use jampgame_proxy::utils::{c_strlen, strip_color};
use jampgame_proxy::tffa::{
    create_match, info_set, info_value, join_match, match_size, JoinOutcome, TffaState,
};

#[test]
fn net_status_chunks_spell_the_table() {
    for len in [1usize, 1010, 1011, 1012, 2022, 2500] {
        let table: Vec<u8> = (0..len).map(|i| b'a' + (i % 26) as u8).collect();
        let cmds = net_status_commands(&table);
        assert_eq!(cmds.len(), len.div_ceil(NET_STATUS_CHUNK));
        let mut joined = Vec::new();
        for c in &cmds {
            assert!(c.starts_with(b"print \""));
            assert!(c.len() <= 8 + NET_STATUS_CHUNK);
            joined.extend_from_slice(&c[7..]);
        }
        let mut want = table.clone();
        if len % NET_STATUS_CHUNK != 0 {
            want.push(b'\n');
        }
        assert_eq!(joined, want);
    }
}

#[test]
fn info_set_reads_back_and_keeps_other_keys() {
    for info in [&b""[..], b"\\n\\Bob\\t\\1", b"n\\Bob\\t\\1\\odd", b"\\\\x\\y", b"abc"] {
        let out = info_set(info, b"t", b"3");
        assert_eq!(info_value(&out, b"t"), Some(b"3".to_vec()));
        assert_eq!(info_value(&out, b"n"), info_value(info, b"n"));
        assert_eq!(info_value(&out, b""), info_value(info, b""));
    }
}

#[test]
fn joins_never_overfill_a_match() {
    let mut st = TffaState::new();
    let id = create_match(&mut st, 0, 8);
    assert_eq!(id, 1);
    let group = 3usize;
    let mut accepted = 1;
    for c in 1..MAX_CLIENTS as i32 {
        match join_match(&mut st, c, 1, 8, group) {
            JoinOutcome::Joined { moved: true } => accepted += 1,
            JoinOutcome::Full => {}
            other => panic!("unexpected {other:?}"),
        }
        assert!(match_size(&st, 1) <= group);
    }
    assert_eq!(accepted, group);
}

#[test]
fn stripped_names_hold_no_escape_and_strip_again_is_a_no_op() {
    for raw in [&b"^^12Bo^b^7\0tail"[..], b"^^^123x", b"plain", b"^", b"^9^8^7"] {
        let mut once = raw.to_vec();
        strip_color(&mut once);
        let n = c_strlen(&once);
        assert!(once[..n].windows(2).all(|w| !(w[0] == b'^' && w[1].is_ascii_digit())));
        let mut twice = once.clone();
        strip_color(&mut twice);
        assert_eq!(twice, once);
    }
}

#[test]
fn global_row_nets_team_damage_and_skips_idle_clients() {
    let mut clients = jampgame_proxy::state::default_clients();
    assert_eq!(jampgame_proxy::hooks::game::global_row(&clients[0], 3, 1), None);
    clients[0].game_stats[1].damages_given = 100;
    clients[0].game_stats[2].damages_given = 50;
    clients[0].game_stats[1].damages_taken = 30;
    clients[0].team_damages_given = 20;
    let row = jampgame_proxy::hooks::game::global_row(&clients[0], 3, 1).expect("row shown");
    assert_eq!(row.damages_given, 130);
    assert_eq!(row.damages_taken, 30);
    assert_eq!(row.damages_diff, 100);
    assert_eq!(row.kills_diff, 2);
    let cell = clients[0].game_stats[1];
    assert!(jampgame_proxy::hooks::game::personal_row_shown(&cell));
    assert!(!jampgame_proxy::hooks::game::personal_row_shown(&clients[0].game_stats[3]));
}

#[test]
fn stripped_text_keeps_its_bytes_in_order() {
    fn is_subsequence(a: &[u8], b: &[u8]) -> bool {
        let mut it = b.iter();
        a.iter().all(|x| it.any(|y| y == x))
    }
    for raw in [&b"^^12Bo^b^7\0tail"[..], b"^^11", b"a^1b^2c", b"plain"] {
        let before = raw[..c_strlen(raw)].to_vec();
        let mut text = raw.to_vec();
        strip_color(&mut text);
        let after = &text[..c_strlen(&text)];
        assert!(is_subsequence(after, &before));
    }
    let mut t = b"^^11\0".to_vec();
    strip_color(&mut t);
    assert_eq!(c_strlen(&t), 0);
}
