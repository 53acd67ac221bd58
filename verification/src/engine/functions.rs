//! Engine function entry points (absolute, version-locked addresses).

use vstd::prelude::*;

verus! {

pub const COM_PRINTF: usize = 0x0807_2ca4;

pub const SV_CALCPINGS: usize = 0x0805_7204;

pub const SV_SEND_MESSAGE_TO_CLIENT: usize = 0x0805_8c84;

pub const SV_SEND_CLIENT_GAME_STATE: usize = 0x0804_cee4;

pub const SV_SVENTITY_FOR_GENTITY: usize = 0x0804_ffb4;

pub const SV_CONNECTIONLESS_PACKET: usize = 0x0805_6d64;

pub const SVC_STATUS: usize = 0x0805_6574;

pub const SVC_INFO: usize = 0x0805_6784;

pub const SVC_REMOTE_COMMAND: usize = 0x0805_6b14;

pub const CMD_TOKENIZE_STRING: usize = 0x0812_c454;

pub const SV_USERINFO_CHANGED: usize = 0x0804_e144;

pub const SV_EXECUTE_CLIENT_MESSAGE: usize = 0x0804_e8c4;

pub const SV_PACKET_EVENT: usize = 0x0805_7024;

pub const SV_EXECUTE_CLIENT_COMMAND: usize = 0x0804_e3d4;

pub const SV_BEGIN_DOWNLOAD_F: usize = 0x0804_d714;

pub const SV_DONE_DOWNLOAD_F: usize = 0x0804_eaa4;

pub const SV_WRITE_DOWNLOAD_TO_CLIENT: usize = 0x0804_d764;

pub const SV_ADD_ENTITIES_VISIBLE_FROM_POINT: usize = 0x0805_8404;

pub const SV_SEND_CLIENT_SNAPSHOT: usize = 0x0805_8e04;

pub const SV_NEXT_DOWNLOAD_F: usize = 0x0804_d614;

pub const SV_STOP_DOWNLOAD_F: usize = 0x0804_d5b4;

pub const SV_UPDATE_USERINFO_F: usize = 0x0804_e314;

pub const NAVIGATOR_LOAD: usize = 0x0812_4ff4;

pub const SV_CLIENT_ENTER_WORLD: usize = 0x0804_d444;

pub const SV_CLIENT_THINK: usize = 0x0804_e634;

pub const SV_DROP_CLIENT: usize = 0x0804_cb84;

pub const SV_NETCHAN_TRANSMIT: usize = 0x0805_7db4;

pub const SV_FLUSH_REDIRECT: usize = 0x0805_7b44;

pub const SV_UPDATE_SERVER_COMMANDS_TO_CLIENT: usize = 0x0805_82c4;

pub const SV_GET_CHALLENGE: usize = 0x0804_b9a4;

pub const SV_DIRECT_CONNECT: usize = 0x0804_c014;

pub const SV_NETCHAN_PROCESS: usize = 0x0805_7e14;

pub const SV_SEND_SERVER_COMMAND: usize = 0x0805_6214;

pub const SV_ADD_ENT_TO_SNAPSHOT: usize = 0x0805_83b4;

pub const COM_DPRINTF: usize = 0x0807_2ed4;

pub const COM_HASH_KEY: usize = 0x0807_3b14;

pub const COM_BEGIN_REDIRECT: usize = 0x0807_2c34;

pub const COM_END_REDIRECT: usize = 0x0807_2c74;

pub const CVAR_VARIABLE_STRING: usize = 0x0807_56f4;

pub const CVAR_VARIABLE_VALUE: usize = 0x0807_5694;

pub const FS_FOPEN_FILE_WRITE: usize = 0x0812_d2a4;

pub const FS_FORCE_FLUSH: usize = 0x0812_c8a4;

pub const FS_INITIALIZED: usize = 0x0812_b754;

pub const FS_WRITE: usize = 0x0812_e074;

pub const FS_FILE_IS_IN_PAK: usize = 0x0812_e354;

pub const FS_LOADED_PAK_PURE_CHECKSUMS: usize = 0x0813_0d44;

pub const FS_REFERENCED_PAK_NAMES: usize = 0x0813_1024;

pub const FS_SV_FOPEN_FILE_READ: usize = 0x0812_cd74;

pub const FS_READ: usize = 0x0812_df44;

pub const FS_FCLOSE_FILE: usize = 0x0812_d1b4;

pub const NETCHAN_TRANSMIT_NEXT_FRAGMENT: usize = 0x0807_ab74;

pub const NET_ADR_TO_STRING: usize = 0x0807_b314;

pub const NET_OUT_OF_BAND_PRINT: usize = 0x0807_b744;

pub const NET_COMPARE_BASE_ADR: usize = 0x0807_b284;

pub const MSG_INIT: usize = 0x0807_74a4;

pub const MSG_READ_BYTE: usize = 0x0807_7df4;

pub const MSG_READ_DELTA_USERCMD_KEY: usize = 0x0807_8b34;

pub const MSG_READ_SHORT: usize = 0x0807_7e34;

pub const MSG_READ_LONG: usize = 0x0807_7e74;

pub const MSG_READ_STRING: usize = 0x0807_7ee4;

pub const MSG_READ_STRING_LINE: usize = 0x0807_7ff4;

pub const MSG_BITSTREAM: usize = 0x0807_75d4;

pub const MSG_BEGIN_READING_OOB: usize = 0x0807_7614;

pub const MSG_WRITE_BIG_STRING: usize = 0x0807_7c04;

pub const MSG_WRITE_BYTE: usize = 0x0807_7a24;

pub const MSG_WRITE_DELTA_ENTITY: usize = 0x0807_8d74;

pub const MSG_WRITE_LONG: usize = 0x0807_7ad4;

pub const MSG_WRITE_SHORT: usize = 0x0807_7aa4;

pub const MSG_WRITE_STRING: usize = 0x0807_7b34;

pub const MSG_WRITE_DATA: usize = 0x0807_7a54;

pub const SYS_IS_LAN_ADDRESS: usize = 0x080c_5f84;

pub const SYS_PRINT: usize = 0x080c_57a4;

pub const CMD_ARGV: usize = 0x0812_c264;

pub const CMD_EXECUTE_STRING: usize = 0x0812_4144;

pub const HUFF_DECOMPRESS: usize = 0x0807_c224;

pub const Z_FREE: usize = 0x0808_0474;

pub const Z_MALLOC: usize = 0x0808_00f4;

pub const CM_BOX_TRACE: usize = 0x0807_2bc4;

pub const SV_TRACE: usize = 0x0805_a4c4;

pub const SV_CLIENT_COMMAND: usize = 0x0804_e4b4;

pub const SV_GAME_CLIENT_NUM: usize = 0x0805_4754;

pub const SV_RATE_MSEC: usize = 0x0805_8c04;

} // verus!
