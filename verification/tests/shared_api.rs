use jampgame_proxy::sdk::Usercmd;
use jampgame_proxy::shared_api::{
    cheat_model, cheater_chat, client_begin, client_command, client_disconnect,
    force_powers_valid, locate_game_data, model_is_bad, sanitize_force_powers, sanitize_usercmd,
    welcome_message, CommandVerdict,
};
use jampgame_proxy::state::{LocatedGameData, ProxyState};

fn verdict(cmd: &[u8], a1: &[u8], a2: &[u8], args: &[u8]) -> CommandVerdict {
    client_command(3, true, cmd, a1, a2, args, 16, false, 60)
}

#[test]
fn client_commands_are_filtered() {
    assert_eq!(client_command(40, false, b"say", b"", b"", b"", 16, false, 60), CommandVerdict::Pass);
    assert_eq!(client_command(3, false, b"say", b"", b"", b"", 16, false, 60), CommandVerdict::Block);
    assert_eq!(verdict(b"jkaDST_aim", b"", b"", b""), CommandVerdict::KickCheater);
    assert_eq!(verdict(b"say", b"hi", b"", b"hi"), CommandVerdict::Pass);
    assert_eq!(verdict(b"say", b"", b"", &[b'a'; 257]), CommandVerdict::Block);
    assert_eq!(verdict(b"say", b"", b"", b"a;b"), CommandVerdict::Pass);
    assert_eq!(verdict(b"give", b"", b"", b"a;b"), CommandVerdict::Block);
    assert_eq!(verdict(b"say", b"", b"", b"a\nb"), CommandVerdict::Block);
    assert_eq!(verdict(b"gc", b"16", b"", b"16"), CommandVerdict::Block);
    assert_eq!(verdict(b"gc", b"15", b"", b"15"), CommandVerdict::Pass);
    assert_eq!(verdict(b"npc", b"spawn", b"Ragnos", b""), CommandVerdict::Block);
    assert_eq!(verdict(b"npc", b"spawn", b"saber_droid_x", b""), CommandVerdict::Block);
    assert_eq!(verdict(b"npc", b"spawn", b"stormtrooper", b""), CommandVerdict::Pass);
    assert_eq!(verdict(b"team", b"follow1", b"", b""), CommandVerdict::Block);
    assert_eq!(verdict(b"team", b"red", b"", b""), CommandVerdict::Pass);
    assert_eq!(verdict(b"callteamvote", b"", b"", b""), CommandVerdict::Block);
    assert_eq!(verdict(b"kill", b"", b"", b""), CommandVerdict::Pass);
    assert_eq!(client_command(3, true, b"kill", b"", b"", b"", 16, true, 60), CommandVerdict::Block);
    assert_eq!(verdict(b"callvote", b"timelimit", b"35791", b""), CommandVerdict::Block);
    assert_eq!(verdict(b"callvote", b"timelimit", b"30", b""), CommandVerdict::Pass);
    assert_eq!(verdict(b"callvote", b"map_restart", b"61", b""), CommandVerdict::Block);
    assert_eq!(verdict(b"callvote", b"g_doWarmup", b"2", b""), CommandVerdict::Block);
    assert_eq!(verdict(b"callvote", b"fraglimit", b"-1", b""), CommandVerdict::Block);
    assert_eq!(verdict(b"callvote", b"map", b"mp/ffa1", b""), CommandVerdict::Pass);
    assert_eq!(verdict(b"callvote", b"map", &[b'x'; 256], b""), CommandVerdict::Block);
}

#[test]
fn userinfo_checks() {
    assert!(cheat_model(b"darkside"));
    assert!(cheat_model(b""));
    assert!(!cheat_model(b"kyle"));
    assert!(model_is_bad(b"jedi_/red", 64));
    assert!(model_is_bad(b"JEDI_", 64));
    assert!(!model_is_bad(b"jedi_hm/default", 64));
    assert!(model_is_bad(b"rancor", 64));
    assert!(model_is_bad(b"wamp", 64));
    assert!(model_is_bad(b"kyle\x7f", 64));
    assert!(model_is_bad(&[b'k'; 64], 64));
    assert!(!model_is_bad(b"kyle/default", 64));
    assert!(force_powers_valid(b"7-1-030000000000003332"));
    assert!(!force_powers_valid(b"7-1-03000000000000333x"));
    assert!(!force_powers_valid(b"7--1030000000000003332"));
    assert!(!force_powers_valid(b"7-1-0300-0000000003332"));
    assert!(!force_powers_valid(b"7-1030000000000003332"));
    assert_eq!(sanitize_force_powers(b"5-2-333000000000000333"), b"5-2-333000000000000333".to_vec());
    assert_eq!(sanitize_force_powers(b"junk"), b"7-1-030000000000003332".to_vec());
    assert_eq!(
        cheater_chat(b"Bob"),
        b"chat \"^3(Anti-Cheat system) ^7Bob^3 got kicked cause of cheating^7\"".to_vec()
    );
}

#[test]
fn usercmd_and_client_lifecycle() {
    let mut cmd = Usercmd {
        server_time: 5, angles: [1, 2, 3], buttons: 0, weapon: 0, forcesel: 1, invensel: 0,
        generic_cmd: 0, forwardmove: 0, rightmove: 0, upmove: 0,
    };
    sanitize_usercmd(&mut cmd);
    assert_eq!(cmd.forcesel, 0xff);
    assert_eq!(cmd.angles, [1, 2, 0]);
    cmd.forcesel = 3;
    sanitize_usercmd(&mut cmd);
    assert_eq!(cmd.forcesel, 3);
    cmd.forcesel = 18;
    sanitize_usercmd(&mut cmd);
    assert_eq!(cmd.forcesel, 0xff);
    assert_eq!(welcome_message(true, false), Some(b"print \"^5jampgame_proxy (^70.0.7^5)^7\n\"".to_vec()));
    assert_eq!(welcome_message(true, true), None);
    assert_eq!(welcome_message(false, false), None);
    let mut st = ProxyState::new();
    locate_game_data(&mut st, 0x1000, 1024, 1516, 0x2000, 7232);
    assert_eq!(
        st.located_game_data,
        LocatedGameData { g_entities: 0x1000, num_entities: 1024, g_entity_size: 1516, g_clients: 0x2000, g_client_size: 7232 }
    );
    client_begin(&mut st, 4);
    assert!(st.clients[4].is_connected);
    st.clients[4].timenudge = 9;
    client_disconnect(&mut st, 4);
    assert!(!st.clients[4].is_connected);
    assert_eq!(st.clients[4].timenudge, 0);
    client_begin(&mut st, 99);
    client_disconnect(&mut st, -1);
}
