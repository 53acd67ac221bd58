use jampgame_proxy::hooks::engine_sv::{
    attached, begin_download_blocked, caseless_eq_upto_exec, carries_usercmds,
    download_command_blocked, download_verdict, empty_userinfo_blocked, message_gate,
    model_needs_reset, query_arg_too_long, rcon_cooldown_blocks, refusal_message, set_attached,
    set_detached, state_after_gamestate, sventity_address, writeconfig_blocked, DownloadVerdict,
    HookFlags, MessageGate,
};
use jampgame_proxy::sdk::{CS_ACTIVE, CS_CONNECTED, CS_PRIMED};

#[test]
fn hook_flag_follows_attach_and_detach() {
    let mut f = HookFlags { attached: false };
    assert!(!attached(&f));
    set_attached(&mut f);
    assert!(attached(&f));
    set_detached(&mut f);
    assert!(!attached(&f));
}

#[test]
fn rcon_guards() {
    assert!(rcon_cooldown_blocks(true, 1200, 1000));
    assert!(!rcon_cooldown_blocks(true, 1500, 1000));
    assert!(!rcon_cooldown_blocks(false, 1200, 1000));
    assert!(writeconfig_blocked(b"writeconfig", b"evil.txt"));
    assert!(writeconfig_blocked(b"WriteConfig", b"x.exe"));
    assert!(!writeconfig_blocked(b"writeconfig", b"server.CFG"));
    assert!(!writeconfig_blocked(b"writeconfig", b"noext"));
    assert!(!writeconfig_blocked(b"writeconfig", b"a.so"));
    assert!(!writeconfig_blocked(b"status", b"evil.txt"));
    assert!(caseless_eq_upto_exec(b"abcX", b"ABCy", 3));
    assert!(caseless_eq_upto_exec(b"ab", b"AB", 10));
    assert!(!caseless_eq_upto_exec(b"ab", b"abc", 10));
    assert!(query_arg_too_long(&[b'a'; 129]));
    assert!(!query_arg_too_long(&[b'a'; 128]));
}

#[test]
fn userinfo_and_download_guards() {
    assert!(model_needs_reset(b"kyle\x01", 64));
    assert!(model_needs_reset(&[b'm'; 64], 64));
    assert!(!model_needs_reset(b"kyle/default", 64));
    assert!(!model_needs_reset(&[b'm'; 64], -1));
    assert!(download_command_blocked(CS_ACTIVE));
    assert!(!download_command_blocked(CS_CONNECTED));
    assert!(!begin_download_blocked(CS_CONNECTED, b"maps.PK3"));
    assert!(begin_download_blocked(CS_ACTIVE, b"maps.pk3"));
    assert!(begin_download_blocked(CS_CONNECTED, b"../x.pk3"));
    assert!(begin_download_blocked(CS_CONNECTED, b".pk3"));
    assert!(begin_download_blocked(CS_CONNECTED, b"maps.cfg"));
    assert!(empty_userinfo_blocked(b""));
    assert!(!empty_userinfo_blocked(b"\\name\\x"));
}

#[test]
fn download_writer_serves_only_referenced_paks() {
    let paks = b"base/assets0 base/mymap \"base/other\"";
    assert_eq!(download_verdict(b"", 0, paks), DownloadVerdict::Idle);
    assert_eq!(download_verdict(b"base/anything.pk3", 5, paks), DownloadVerdict::Serve);
    assert_eq!(download_verdict(b"base/MyMap.PK3", 0, paks), DownloadVerdict::Serve);
    assert_eq!(download_verdict(b"base\\mymap.pk3", 0, paks), DownloadVerdict::Serve);
    assert_eq!(download_verdict(b"base/secret.pk3", 0, paks), DownloadVerdict::Refuse);
    assert_eq!(download_verdict(b"base/mymap.cfg", 0, paks), DownloadVerdict::Refuse);
    assert_eq!(download_verdict(b"noextension", 0, paks), DownloadVerdict::Refuse);
    assert_eq!(
        refusal_message(b"x.pk3"),
        b"File \"x.pk3\" is not referenced and cannot be downloaded.".to_vec()
    );
    assert_eq!(refusal_message(&[b'a'; 2000]).len(), 1023);
}

#[test]
fn entity_index_and_gamestate_state() {
    assert_eq!(sventity_address(1000, 0, 5, 0, 10), None);
    assert_eq!(sventity_address(1000, 2000, -1, 0, 10), None);
    assert_eq!(sventity_address(1000, 2000, 1024, 0, 10), None);
    assert_eq!(sventity_address(1000, 2030, 3, 2000, 10), Some(1000 + 8880 + 3 * 624));
    assert_eq!(state_after_gamestate(CS_CONNECTED, CS_PRIMED), CS_PRIMED);
    assert_eq!(state_after_gamestate(CS_ACTIVE, CS_PRIMED), CS_ACTIVE);
}

#[test]
fn client_message_gate() {
    assert_eq!(message_gate(7, 7, 5, false, b"", CS_ACTIVE, 0, 0), MessageGate::Pass);
    assert_eq!(message_gate(6, 7, 5, false, b"", CS_ACTIVE, 0, 0), MessageGate::Ignore);
    assert_eq!(message_gate(3, 7, 5, false, b"", CS_CONNECTED, 10, 2), MessageGate::Resend);
    assert_eq!(message_gate(3, 7, 5, false, b"", CS_ACTIVE, 10, 2), MessageGate::Drop);
    assert_eq!(message_gate(3, 7, 5, false, b"nextdl 2", CS_ACTIVE, 0, 0), MessageGate::Pass);
    assert_eq!(message_gate(3, 7, 5, true, b"nextdl 2", CS_ACTIVE, 0, 0), MessageGate::Drop);
    assert!(carries_usercmds(2));
    assert!(carries_usercmds(3));
    assert!(!carries_usercmds(4));
}
