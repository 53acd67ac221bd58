use jampgame_proxy::hooks::engine_sv::{
    follow_master_switch, set_attached, set_detached, HookAction, HookFlags,
};
use jampgame_proxy::hooks::game::tally_text;
use jampgame_proxy::sdk::{CS_PLAYERS, CS_SCORES1};
use jampgame_proxy::syscall::{server_command_fits, MAX_SERVER_COMMAND};
use jampgame_proxy::shared_api::net_status_requested;
use jampgame_proxy::tffa::{
    command_refusal, cs_command, cs_int_command, server_command_kind, ServerCommandKind, TffaCommand,
};

#[test]
fn server_commands_longer_than_a_slot_are_not_sent() {
    assert_eq!(MAX_SERVER_COMMAND, 1022);
    assert!(server_command_fits(&vec![b'a'; 1022]));
    assert!(!server_command_fits(&vec![b'a'; 1023]));
    assert!(server_command_fits(b""));
}

#[test]
fn configstring_commands_use_the_engine_format() {
    assert_eq!(cs_command(CS_PLAYERS + 3, b"n\\Bob\\t\\1"), b"cs 1134 \"n\\Bob\\t\\1\"\n".to_vec());
    assert_eq!(cs_command(5, b""), b"cs 5 \"\"\n".to_vec());
    assert_eq!(cs_int_command(CS_SCORES1, -4), b"cs 6 \"-4\"\n".to_vec());
}

#[test]
fn tally_columns_read_a_slash_b() {
    assert_eq!(tally_text(3, 0), b"3/0".to_vec());
    assert_eq!(tally_text(-1, 250), b"-1/250".to_vec());
}

#[test]
fn master_switch_attaches_and_detaches_once() {
    for (attached, enabled, want) in [
        (false, true, HookAction::Attach),
        (true, false, HookAction::Detach),
        (true, true, HookAction::Keep),
        (false, false, HookAction::Keep),
    ] {
        let mut flags = HookFlags { attached };
        let action = follow_master_switch(&flags, enabled);
        assert_eq!(action, want);
        match action {
            HookAction::Attach => set_attached(&mut flags),
            HookAction::Detach => set_detached(&mut flags),
            HookAction::Keep => {}
        }
        assert_eq!(flags.attached, enabled);
        assert_eq!(follow_master_switch(&flags, enabled), HookAction::Keep);
    }
}

#[test]
fn tffa_travel_refusals_and_server_command_kinds() {
    let off = b"print \"TFFA matches are not enabled on this server (GT_TEAM only).\n\"".to_vec();
    let spec = b"print \"You must be spectator to travel between TFFA matches (use /team spectator first).\n\"".to_vec();
    assert_eq!(command_refusal(TffaCommand::List, false, false), None);
    assert_eq!(command_refusal(TffaCommand::Create, false, true), Some(off.clone()));
    assert_eq!(command_refusal(TffaCommand::Join, true, false), Some(spec.clone()));
    assert_eq!(command_refusal(TffaCommand::Join, true, true), None);
    // Leaving works with the feature off, from the spectator team.
    assert_eq!(command_refusal(TffaCommand::Leave, false, true), None);
    assert_eq!(command_refusal(TffaCommand::Leave, false, false), Some(spec));
    assert_eq!(server_command_kind("print \"Red @@@HIT_THE_KILL_LIMIT\n\""), ServerCommandKind::KillLimitPrint);
    assert_eq!(server_command_kind("scores 1 0 0 3 5 0 0 0 0 0 0 0 0 0 0 0 0"), ServerCommandKind::Scores);
    assert_eq!(server_command_kind("scoresx"), ServerCommandKind::Other);
    assert_eq!(server_command_kind("chat \"hi\""), ServerCommandKind::Other);
}

#[test]
fn net_status_commands_are_taken_only_when_enabled() {
    assert!(net_status_requested(true, b"netStatus"));
    assert!(net_status_requested(true, b"SHOWNET"));
    assert!(net_status_requested(true, b"netstatusx"));
    assert!(!net_status_requested(false, b"netStatus"));
    assert!(!net_status_requested(true, b"netStat"));
    assert!(!net_status_requested(true, b"say hi"));
}
