use jampgame_proxy::sdk::{CMD_MASK, MAX_CLIENTS, MAX_NETNAME};
use jampgame_proxy::state::{
    default_clients, is_initialised, proxy_enabled, set_proxy_enabled, set_svs_time, ClientEntry,
    GameStats, LocatedGameData, ProxyState, TimenudgeData, UcmdStat, CVAR_ENABLE,
    CVAR_ENABLE_END_GAME_STATS, CVAR_ENABLE_NET_STATUS, CVAR_ENABLE_RCON_CMD_COOLDOWN,
    CVAR_MAX_CALLVOTE_MAPRESTART, CVAR_MODEL_PATH_LENGTH, PROXY_CVARS,
};

#[test]
fn cvar_table_has_distinct_names() {
    let mut names: Vec<_> = PROXY_CVARS.iter().map(|(n, _)| n.as_bytes()).collect();
    names.sort_unstable();
    names.dedup();
    assert_eq!(names.len(), PROXY_CVARS.len());
}

#[test]
fn default_cvar_values_match_proxy() {
    assert_eq!(PROXY_CVARS[CVAR_MAX_CALLVOTE_MAPRESTART].1.as_bytes(), b"60");
    assert_eq!(PROXY_CVARS[CVAR_MODEL_PATH_LENGTH].1.as_bytes(), b"64");
    assert_eq!(PROXY_CVARS[CVAR_ENABLE_NET_STATUS].1.as_bytes(), b"0");
    assert_eq!(PROXY_CVARS[CVAR_ENABLE_RCON_CMD_COOLDOWN].1.as_bytes(), b"0");
    assert_eq!(PROXY_CVARS[CVAR_ENABLE_END_GAME_STATS].1.as_bytes(), b"1");
    assert_eq!(PROXY_CVARS[CVAR_ENABLE].1.as_bytes(), b"1");
}

#[test]
fn dropped_cvars_are_gone() {
    for (name, _) in PROXY_CVARS {
        let n = name.as_bytes();
        assert!(
            !n.starts_with(b"proxy_sv_pingFix")
                && !n.starts_with(b"proxy_sv_antiWallHack")
                && !n.starts_with(b"proxy_sv_disableKillCmd")
                && !n.starts_with(b"proxy_sv_sabersFps"),
            "dropped cvar still registered: {}",
            String::from_utf8_lossy(n)
        );
    }
}

#[test]
fn state_starts_fresh_and_records_time() {
    let mut slot: Option<ProxyState> = None;
    assert!(!is_initialised(&slot));
    slot = Some(ProxyState::new());
    assert!(is_initialised(&slot));
    let state = slot.as_mut().unwrap();
    assert!(proxy_enabled(state));
    assert_eq!(state.svs_time, 0);
    assert_eq!(state.located_game_data, LocatedGameData::default());
    set_svs_time(state, 42);
    assert_eq!(state.svs_time, 42);
    set_proxy_enabled(state, false);
    assert!(!proxy_enabled(state));
    set_proxy_enabled(state, true);
    assert!(proxy_enabled(state));
    assert_eq!(state.svs_time, 42);
}

#[test]
fn fresh_client_entries_are_zeroed() {
    let clients = default_clients();
    assert_eq!(clients.len(), MAX_CLIENTS);
    for c in &clients {
        assert!(!c.is_connected);
        assert_eq!(c.clean_name, vec![0u8; MAX_NETNAME]);
        assert_eq!(c.cmd_stats.len(), CMD_MASK);
        assert!(c.cmd_stats.iter().all(|s| *s == UcmdStat::default()));
        assert_eq!(c.game_stats, vec![GameStats::default(); MAX_CLIENTS]);
        assert_eq!(c.timenudge_data, TimenudgeData::default());
        assert_eq!((c.timenudge, c.cmd_index, c.packet_counter), (0, 0, 0));
    }
    let one = ClientEntry::default();
    assert_eq!(one.team_kills + one.team_killed + one.team_damages_given + one.team_damages_taken, 0);
}

#[test]
fn state_initialises_once() {
    let mut holder: Option<ProxyState> = None;
    assert!(!is_initialised(&holder));
    let s = holder.get_or_insert_with(ProxyState::new);
    set_svs_time(s, 42);
    assert!(is_initialised(&holder));
    assert_eq!(holder.as_ref().map(|s| s.svs_time), Some(42));
}
