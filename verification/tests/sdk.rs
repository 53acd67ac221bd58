use jampgame_proxy::sdk::{
    CON_DISCONNECTED, ENTITYNUM_NONE, ENTITYNUM_WORLD, GAME_CLIENT_BEGIN, GAME_CLIENT_COMMAND, GAME_CLIENT_CONNECT, GAME_CLIENT_DISCONNECT, GAME_CLIENT_USERINFO_CHANGED, GAME_INIT, GAME_RUN_FRAME, GAME_SHUTDOWN, GT_CTF, GT_TEAM, G_ARGV, G_CVAR_REGISTER, G_CVAR_SET, G_CVAR_UPDATE, G_CVAR_VARIABLE_INTEGER_VALUE, G_CVAR_VARIABLE_STRING_BUFFER, G_DROP_CLIENT, G_G2TRACE, G_GET_CONFIGSTRING, G_GET_USERCMD, G_GET_USERINFO, G_LOCATE_GAME_DATA, G_SEND_SERVER_COMMAND, G_SET_CONFIGSTRING, G_SET_USERINFO, G_TRACE, G_TRACECAPSULE, OFFSET_CLIENT_DOWNLOAD, OFFSET_CLIENT_DOWNLOAD_NAME, OFFSET_CLIENT_FRAMES, OFFSET_CLIENT_GAMESTATE_MESSAGE_NUM, OFFSET_CLIENT_GENTITY, OFFSET_CLIENT_LAST_CLIENT_COMMAND, OFFSET_CLIENT_MESSAGE_ACKNOWLEDGE, OFFSET_CLIENT_NETCHAN, OFFSET_CLIENT_PING, OFFSET_CLIENT_RELIABLE_ACKNOWLEDGE, OFFSET_CLIENT_RELIABLE_SEQUENCE, OFFSET_CLIENT_SNAPSHOT_MSEC, OFFSET_CLIENT_USERINFO, OFFSET_GCLIENT_PERS, OFFSET_GCLIENT_SESS, OFFSET_GENTITY_CLIENT, OFFSET_GENTITY_DAMAGE_REDIRECT, OFFSET_GENTITY_R_CONTENTS, OFFSET_GENTITY_R_LINKED, OFFSET_GENTITY_R_OWNER, OFFSET_GENTITY_S_OTHER_ENTITY_NUM, OFFSET_GENTITY_S_OTHER_ENTITY_NUM2, OFFSET_GENTITY_S_OWNER, OFFSET_LEVEL_FRAMENUM, OFFSET_LEVEL_TEAM_SCORES, OFFSET_LEVEL_TEAM_SCORES_BLUE, OFFSET_LEVEL_TEAM_SCORES_RED, OFFSET_LEVEL_TIME, OFFSET_MSG_CURSIZE, OFFSET_MSG_DATA, OFFSET_NETCHAN_QPORT, OFFSET_NETCHAN_REMOTE_ADDRESS, OFFSET_NETCHAN_UNSENT_FRAGMENTS, OFFSET_PERS_CMD, OFFSET_PERS_CONNECTED, OFFSET_PERS_NETNAME, OFFSET_SESS_SESSION_TEAM, OFFSET_SHARED_SVFLAGS, OFFSET_SNAPSHOT_ENUMS_LIST, OFFSET_SNAPSHOT_FRAME_PS_CLIENT_NUM, OFFSET_SVS_CLIENTS, OFFSET_SV_GENTITIES, OFFSET_SV_GENTITY_SIZE, OFFSET_SV_SV_ENTITIES, OFFSET_USERCMD_ANGLES, OFFSET_USERCMD_FORCESEL, ORIGINAL_ENGINE_VERSION, SIZEOF_USERCMD, SVF_BOT, Usercmd,
};

#[test]
fn usercmd_layout_matches_sdk() {
    assert_eq!(std::mem::size_of::<Usercmd>(), SIZEOF_USERCMD);
    assert_eq!(std::mem::align_of::<Usercmd>(), 4);
    assert_eq!(OFFSET_USERCMD_ANGLES, 4);
    assert_eq!(OFFSET_USERCMD_FORCESEL, 21);
}

#[test]
fn trap_ordinals_match_sdk() {
    assert_eq!(G_CVAR_REGISTER, 5);
    assert_eq!(G_CVAR_UPDATE, 6);
    assert_eq!(G_CVAR_SET, 7);
    assert_eq!(G_CVAR_VARIABLE_INTEGER_VALUE, 8);
    assert_eq!(G_CVAR_VARIABLE_STRING_BUFFER, 9);
    assert_eq!(G_ARGV, 11);
    assert_eq!(G_LOCATE_GAME_DATA, 17);
    assert_eq!(G_DROP_CLIENT, 18);
    assert_eq!(G_SEND_SERVER_COMMAND, 19);
    assert_eq!(G_SET_CONFIGSTRING, 20);
    assert_eq!(G_GET_CONFIGSTRING, 21);
    assert_eq!(G_GET_USERINFO, 22);
    assert_eq!(G_SET_USERINFO, 23);
    assert_eq!(G_GET_USERCMD, 40);
    assert_eq!(G_TRACE, 27);
    assert_eq!(G_G2TRACE, 28);
    assert_eq!(G_TRACECAPSULE, 49);
}

#[test]
fn vm_main_commands_match_sdk() {
    assert_eq!(GAME_INIT, 0);
    assert_eq!(GAME_SHUTDOWN, 1);
    assert_eq!(GAME_CLIENT_CONNECT, 2);
    assert_eq!(GAME_CLIENT_BEGIN, 3);
    assert_eq!(GAME_CLIENT_USERINFO_CHANGED, 4);
    assert_eq!(GAME_CLIENT_DISCONNECT, 5);
    assert_eq!(GAME_CLIENT_COMMAND, 6);
    assert_eq!(GAME_RUN_FRAME, 8);
}

#[test]
fn engine_version_gate_string_is_ascii() {
    assert!(ORIGINAL_ENGINE_VERSION.is_ascii());
    assert_eq!(ORIGINAL_ENGINE_VERSION.as_bytes(), b"JAmp: v1.0.1.1 linux-i386 Nov 10 2003");
}

#[test]
fn team_mode_and_pers_connected_constants_match_sdk() {
    assert_eq!(GT_TEAM, 6);
    assert_eq!(GT_CTF, 8);
    assert_eq!(CON_DISCONNECTED, 0);
    assert_eq!(OFFSET_PERS_CONNECTED, 0);
}

#[test]
fn engine_struct_offsets_match_layout_oracle() {
    assert_eq!(OFFSET_CLIENT_USERINFO, 4);
    assert_eq!(OFFSET_CLIENT_RELIABLE_SEQUENCE, 132104);
    assert_eq!(OFFSET_CLIENT_RELIABLE_ACKNOWLEDGE, 132108);
    assert_eq!(OFFSET_CLIENT_MESSAGE_ACKNOWLEDGE, 132116);
    assert_eq!(OFFSET_CLIENT_GAMESTATE_MESSAGE_NUM, 132120);
    assert_eq!(OFFSET_CLIENT_LAST_CLIENT_COMMAND, 132164);
    assert_eq!(OFFSET_CLIENT_GENTITY, 133188);
    assert_eq!(OFFSET_CLIENT_DOWNLOAD_NAME, 133224);
    assert_eq!(OFFSET_CLIENT_DOWNLOAD, 133288);
    assert_eq!(OFFSET_CLIENT_FRAMES, 133412);
    assert_eq!(OFFSET_CLIENT_PING, 234532);
    assert_eq!(OFFSET_CLIENT_SNAPSHOT_MSEC, 234540);
    assert_eq!(OFFSET_CLIENT_NETCHAN, 234548);
    assert_eq!(OFFSET_SV_SV_ENTITIES, 8880);
    assert_eq!(OFFSET_SV_GENTITIES, 647860);
    assert_eq!(OFFSET_SV_GENTITY_SIZE, 647864);
    assert_eq!(OFFSET_SVS_CLIENTS, 12);
    assert_eq!(OFFSET_SHARED_SVFLAGS, 0x238);
    assert_eq!(SVF_BOT, 8);
    assert_eq!(OFFSET_GENTITY_CLIENT, 864);
    assert_eq!(OFFSET_GENTITY_DAMAGE_REDIRECT, 1488);
    assert_eq!(OFFSET_GCLIENT_PERS, 1552);
    assert_eq!(OFFSET_GCLIENT_SESS, 1708);
    assert_eq!(OFFSET_PERS_CMD, 4);
    assert_eq!(OFFSET_PERS_NETNAME, 48);
    assert_eq!(OFFSET_SESS_SESSION_TEAM, 0);
    assert_eq!(OFFSET_LEVEL_TIME, 32);
    assert_eq!(OFFSET_LEVEL_FRAMENUM, 28);
    assert_eq!(OFFSET_LEVEL_TEAM_SCORES, 44);
    assert_eq!(OFFSET_LEVEL_TEAM_SCORES_RED, 48);
    assert_eq!(OFFSET_LEVEL_TEAM_SCORES_BLUE, 52);
    assert_eq!(OFFSET_GENTITY_S_OTHER_ENTITY_NUM, 188);
    assert_eq!(OFFSET_GENTITY_S_OTHER_ENTITY_NUM2, 192);
    assert_eq!(OFFSET_GENTITY_S_OWNER, 280);
    assert_eq!(OFFSET_GENTITY_R_OWNER, 660);
    assert_eq!(OFFSET_GENTITY_R_CONTENTS, 604);
    assert_eq!(OFFSET_GENTITY_R_LINKED, 560);
    assert_eq!(OFFSET_SNAPSHOT_FRAME_PS_CLIENT_NUM, 208);
    assert_eq!(OFFSET_SNAPSHOT_ENUMS_LIST, 4);
    assert_eq!(ENTITYNUM_NONE, 1023);
    assert_eq!(ENTITYNUM_WORLD, 1022);
    assert_eq!(OFFSET_MSG_DATA, 12);
    assert_eq!(OFFSET_MSG_CURSIZE, 20);
    assert_eq!(OFFSET_NETCHAN_REMOTE_ADDRESS, 234556);
    assert_eq!(OFFSET_NETCHAN_QPORT, 28);
    assert_eq!(OFFSET_NETCHAN_UNSENT_FRAGMENTS, 49200);
}
