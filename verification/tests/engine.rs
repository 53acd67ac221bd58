use jampgame_proxy::engine::{
    calls, cvar_slot_addresses, cvar_slots, functions, in_rw_range, in_text_range, memory_layer,
    patches, vars, CMD_TOKENIZED_BASE, ENGINE_RW_HI, ENGINE_RW_LO, ENGINE_TEXT_HI, ENGINE_TEXT_LO,
};

#[test]
fn engine_function_addresses_are_in_text_range() {
    for (name, addr) in [
        ("COM_PRINTF", functions::COM_PRINTF),
        ("SV_CALCPINGS", functions::SV_CALCPINGS),
        ("SV_CONNECTIONLESS_PACKET", functions::SV_CONNECTIONLESS_PACKET),
        ("SVC_STATUS", functions::SVC_STATUS),
        ("SVC_INFO", functions::SVC_INFO),
        ("SVC_REMOTE_COMMAND", functions::SVC_REMOTE_COMMAND),
        ("NAVIGATOR_LOAD", functions::NAVIGATOR_LOAD),
        ("COM_END_REDIRECT", functions::COM_END_REDIRECT),
    ] {
        assert!(
            (ENGINE_TEXT_LO..ENGINE_TEXT_HI).contains(&addr),
            "{name}: 0x{addr:x} outside engine .text"
        );
        assert!(in_text_range(addr));
    }
}

#[test]
fn engine_var_and_cvar_addresses_are_in_rw_range() {
    for (name, addr) in [
        ("SVS", vars::SVS),
        ("SV", vars::SV),
        ("RD_BUFFER", vars::RD_BUFFER),
        ("CMD_ARGC", vars::CMD_ARGC),
        ("SV_FPS", cvar_slots::SV_FPS),
        ("SV_MAXCLIENTS", cvar_slots::SV_MAXCLIENTS),
        ("COM_DEDICATED", cvar_slots::COM_DEDICATED),
        ("FS_GAMEDIRVAR", cvar_slots::FS_GAMEDIRVAR),
    ] {
        assert!(
            (ENGINE_RW_LO..ENGINE_RW_HI).contains(&addr),
            "{name}: 0x{addr:x} outside engine RW LOAD"
        );
        assert!(in_rw_range(addr));
    }
}

#[test]
fn inline_patch_sites_are_in_text_range() {
    assert!((ENGINE_TEXT_LO..ENGINE_TEXT_HI).contains(&patches::SVC_REMOTE_COMMAND_TIMER_NOP_ADDR));
    assert!((ENGINE_TEXT_LO..ENGINE_TEXT_HI).contains(&patches::SVC_REMOTE_COMMAND_REDIRECT_LEN_ADDR));
    assert!((ENGINE_TEXT_LO..ENGINE_TEXT_HI).contains(&calls::CALL_SV_ADD_ENT_TO_SNAPSHOT_FOR_PLAYERS));
    assert_eq!(patches::SVC_REMOTE_COMMAND_TIMER_NOP_LEN, 25);
}

#[test]
fn memory_layer_records_slots_in_order() {
    let slots = cvar_slot_addresses();
    assert_eq!(slots[0], cvar_slots::SV_FPS);
    assert_eq!(slots[16], cvar_slots::FS_GAMEDIRVAR);
    assert!(slots.iter().all(|a| in_rw_range(*a)));
    let mut ptrs = [0usize; 17];
    ptrs[4] = 0x1234;
    let layer = memory_layer(ptrs);
    assert_eq!(layer.svs, vars::SVS);
    assert_eq!(layer.sv, vars::SV);
    assert_eq!(layer.cvar_ptrs[4], 0x1234);
    assert_eq!(layer.common_vars, [vars::RD_BUFFER, vars::RD_BUFFERSIZE, vars::RD_FLUSH, vars::LOGFILE, vars::CMD_ARGC, vars::CMD_ARGV]);
    assert_eq!(CMD_TOKENIZED_BASE, vars::CMD_TOKENIZED);
    assert!(!in_text_range(ENGINE_TEXT_HI));
    assert!(!in_rw_range(ENGINE_RW_LO - 1));
}
