use jampgame_proxy::jampgame::{
    game_address, in_game_text, FN_BEGIN_INTERMISSION, FN_CLIENT_THINK_REAL, FN_COM_ERROR,
    FN_COM_SPRINTF, FN_CONCAT_ARGS, FN_G_ADD_EVENT, FN_G_DAMAGE, FN_INFO_SET_VALUE_FOR_KEY,
    FN_INFO_VALUE_FOR_KEY, FN_PLAYER_DIE, FN_Q_STRICMP, FN_Q_STRICMPN, FN_SET_TEAM, FN_ADD_SCORE,
};

#[test]
fn q_stricmp_binding_uses_correct_address() {
    assert_eq!(FN_Q_STRICMP, 0x001a_5304);
    assert_ne!(FN_Q_STRICMPN, FN_Q_STRICMP);
}

#[test]
fn offsets_are_in_game_text_range() {
    let text_lo = 0x0008_5564usize;
    let text_hi = 0x001a_66c4usize;
    for off in [
        FN_Q_STRICMPN,
        FN_Q_STRICMP,
        FN_COM_SPRINTF,
        FN_INFO_VALUE_FOR_KEY,
        FN_INFO_SET_VALUE_FOR_KEY,
        FN_CONCAT_ARGS,
        FN_G_DAMAGE,
        FN_PLAYER_DIE,
        FN_BEGIN_INTERMISSION,
        FN_G_ADD_EVENT,
        FN_CLIENT_THINK_REAL,
        FN_SET_TEAM,
    ] {
        assert!(off >= text_lo && off < text_hi, "0x{off:x} out of .text");
        assert!(in_game_text(off));
    }
    assert!(in_game_text(FN_COM_ERROR));
    assert_eq!(game_address(0x1000_0000, FN_SET_TEAM), 0x1012_ada4);
}

#[test]
fn add_score_offset_is_in_game_text() {
    assert_eq!(FN_ADD_SCORE, 0x0013_13a4);
    assert!(in_game_text(FN_ADD_SCORE));
    assert_eq!(game_address(0x1000_0000, FN_ADD_SCORE), 0x1013_13a4);
}
