use jampgame_proxy::patch::{
    entry_patch, instr_len, is_jcc_rel32, jcc_to_jmp_bytes, rel32_bytes, rel32_target, steal_len,
    steal_len_ok, trampoline_code, Hook,
};

struct Site {
    name: &'static str,
    bytes: &'static [u8],
    want: usize,
}

const ENGINE_SITES: &[Site] = &[
    Site {
        name: "SVC_RemoteCommand",
        bytes: b"\x55\x8b\xec\x81\xec\x20\xc5\x00\x00",
        want: 9,
    },
    Site {
        name: "SVC_Status",
        bytes: b"\x55\x8b\xec\x81\xec\x30\xcd\x00\x00",
        want: 9,
    },
    Site {
        name: "SVC_Info",
        bytes: b"\x55\x8b\xec\x81\xec\x18\x04\x00\x00",
        want: 9,
    },
    Site {
        name: "SV_UserinfoChanged",
        bytes: b"\x55\x8b\xec\x83\xec\x20",
        want: 6,
    },
    Site {
        name: "SV_BeginDownload_f",
        bytes: b"\x55\x8b\xec\x83\xec\x18",
        want: 6,
    },
    Site {
        name: "SV_NextDownload_f",
        bytes: b"\x55\x8b\xec\x83\xec\x20",
        want: 6,
    },
    Site {
        name: "SV_StopDownload_f",
        bytes: b"\x55\x8b\xec\x83\xec\x18",
        want: 6,
    },
    Site {
        name: "SV_DoneDownload_f",
        bytes: b"\x55\x8b\xec\x83\xec\x10",
        want: 6,
    },
    Site {
        name: "SV_UpdateUserinfo_f",
        bytes: b"\x55\x8b\xec\x83\xec\x18",
        want: 6,
    },
    Site {
        name: "SV_WriteDownloadToClient",
        bytes: b"\x55\x8b\xec\x81\xec\x20\x04\x00\x00",
        want: 9,
    },
    Site {
        name: "SV_SvEntityForGentity",
        bytes: b"\x55\x8b\xec\x83\xec\x10",
        want: 6,
    },
    Site {
        name: "Navigator_Load",
        bytes: b"\x55\x8b\xec\x83\xec\x40",
        want: 6,
    },
    Site {
        name: "SV_SendClientGameState",
        bytes: b"\x55\x8b\xec\x81\xec\x18\xfe\x00\x00",
        want: 9,
    },
    Site {
        name: "SV_ExecuteClientMessage",
        bytes: b"\x55\x8b\xec\x83\xec\x20",
        want: 6,
    },
    Site {
        name: "Com_Printf",
        bytes: b"\x55\x8b\xec\x81\xec\x20\x11\x00\x00",
        want: 9,
    },
];

const GAME_SITES: &[Site] = &[
    Site {
        name: "G_Damage",
        bytes: b"\x55\x8b\xec\x81\xec\x48\x01\x00\x00",
        want: 9,
    },
    Site {
        name: "player_die",
        bytes: b"\x55\x8b\xec\x83\xec\x60",
        want: 6,
    },
    Site {
        name: "BeginIntermission",
        bytes: b"\x55\x8b\xec\x83\xec\x18",
        want: 6,
    },
    Site {
        name: "G_AddEvent",
        bytes: b"\x55\x8b\xec\x83\xec\x18",
        want: 6,
    },
    Site {
        name: "ClientThink_real",
        bytes: b"\x55\x8b\xec\x81\xec\x10\x03\x00\x00",
        want: 9,
    },
];

#[test]
fn decoder_matches_sweep_steal_lengths() {
    let mut total = 0;
    for site in ENGINE_SITES.iter().chain(GAME_SITES) {
        let mut off = 0usize;
        let mut sum = 0usize;
        while sum < 5 {
            let l = instr_len(&site.bytes[off..]);
            assert!(l > 0, "{}: undecodable at {off}", site.name);
            sum += l;
            off += l;
        }
        assert_eq!(sum, site.want, "{}: steal length", site.name);
        assert_eq!(site.bytes[0], 0x55, "{}: prologue push %ebp", site.name);
        total += 1;
    }
    assert_eq!(total, ENGINE_SITES.len() + GAME_SITES.len());
}

#[test]
fn jcc_to_jmp_is_idempotent_across_map_change() {
    let pristine = [0x0f, 0x84, 0x6a, 0x02, 0x00, 0x00]; // je 0x804d3a1
    assert!(is_jcc_rel32(&pristine));
    let flipped = jcc_to_jmp_bytes(&pristine);
    assert_eq!(flipped, [0xe9, 0x6b, 0x02, 0x00, 0x00, 0x90]);
    assert!(
        !is_jcc_rel32(&flipped),
        "already-flipped site must be skipped on re-apply"
    );
}

#[test]
fn jcc_to_jmp_preserves_target() {
    let site = [0x0f, 0x84, 0x6a, 0x02, 0x00, 0x00];
    let patched = jcc_to_jmp_bytes(&site);
    assert_eq!(patched, [0xe9, 0x6b, 0x02, 0x00, 0x00, 0x90]);
    let old_target = 6usize + i32::from_le_bytes([site[2], site[3], site[4], site[5]]) as usize;
    let new_target =
        5usize + i32::from_le_bytes([patched[1], patched[2], patched[3], patched[4]]) as usize;
    assert_eq!(old_target, new_target);
    let neg = [0x0f, 0x84, 0xf6, 0xff, 0xff, 0xff]; // rel = -10
    let neg_patched = jcc_to_jmp_bytes(&neg);
    assert_eq!(
        i32::from_le_bytes([
            neg_patched[1],
            neg_patched[2],
            neg_patched[3],
            neg_patched[4]
        ]),
        -9
    );
}

#[test]
fn decoder_handles_common_prologue_forms() {
    assert_eq!(instr_len(b"\x55"), 1);
    assert_eq!(instr_len(b"\x8b\xec"), 2);
    assert_eq!(instr_len(b"\x83\xec\x20"), 3);
    assert_eq!(instr_len(b"\x81\xec\x20\xc5\x00\x00"), 6);
    assert_eq!(instr_len(b"\xc7\x06\x03\x00\x00\x00"), 6);
    assert_eq!(instr_len(b"\xa1\x3c\x23\x00\x00"), 5);
    assert_eq!(instr_len(b"\xe8\x19\x6e\xfd\xff"), 5);
    assert_eq!(instr_len(b"\xeb\xcc"), 2);
    assert_eq!(instr_len(b"\x0f\x84\x6a\x02\x00\x00"), 6);
    assert_eq!(instr_len(b"\x89\x7d\xf8"), 3);
    assert_eq!(instr_len(b"\x8b\x75\x08"), 3);
    assert_eq!(instr_len(b"\x8d\x85\xf0\xee\xff\xff"), 6);
}

#[test]
fn steal_length_covers_five_bytes_on_whole_instructions() {
    assert_eq!(steal_len(b"\x55\x8b\xec\x83\xec\x20"), 6);
    assert_eq!(steal_len(b"\x55\x8b\xec\x81\xec\x20\xc5\x00\x00"), 9);
    // push ebp; mov eax, imm32.
    assert_eq!(steal_len(b"\x55\xb8\x01\x00\x00\x00"), 6);
    // An opcode the decoder does not know stops the steal.
    assert_eq!(steal_len(b"\x55\xd6\x90\x90\x90\x90"), 0);
    assert_eq!(instr_len(b""), 0);
}

fn le(b: &[u8]) -> i32 {
    i32::from_le_bytes([b[0], b[1], b[2], b[3]])
}

#[test]
fn detour_jumps_land_on_their_targets() {
    let target = 0x0805_6b14usize;
    let wrapper = 0x0804_0000usize;
    let patch = entry_patch(9, target, wrapper);
    assert_eq!(patch.len(), 9);
    assert_eq!(patch[0], 0xe9);
    assert_eq!((target as i64 + 5 + le(&patch[1..5]) as i64) as usize, wrapper);
    assert!(patch[5..].iter().all(|b| *b == 0x90));
    let stolen = b"\x55\x8b\xec\x83\xec\x20";
    let tramp = 0x4000_0000usize;
    let code = trampoline_code(stolen, tramp, target);
    assert_eq!(&code[..6], stolen);
    assert_eq!(code[6], 0xe9);
    assert_eq!((tramp as i64 + 6 + 5 + le(&code[7..11]) as i64) as usize, target + 6);
    assert_eq!(rel32_bytes(10, 5), [0xfb, 0xff, 0xff, 0xff]);
    assert!(steal_len_ok(5));
    assert!(steal_len_ok(16));
    assert!(!steal_len_ok(4));
    assert!(!steal_len_ok(17));
}

#[test]
fn decoder_gives_real_lengths_of_immediate_forms() {
    // push imm8 / push imm32
    assert_eq!(instr_len(b"\x6a\x05"), 2);
    assert_eq!(instr_len(b"\x68\x01\x02\x03\x04"), 5);
    // add al, imm8 / add eax, imm32 / test al, imm8 / test eax, imm32
    assert_eq!(instr_len(b"\x04\x01"), 2);
    assert_eq!(instr_len(b"\x05\x01\x00\x00\x00"), 5);
    assert_eq!(instr_len(b"\x3c\x7f"), 2);
    assert_eq!(instr_len(b"\xa8\x01"), 2);
    assert_eq!(instr_len(b"\xa9\x01\x00\x00\x00"), 5);
    // string ops and in/out without operands
    assert_eq!(instr_len(b"\xa4"), 1);
    assert_eq!(instr_len(b"\xab"), 1);
    assert_eq!(instr_len(b"\x6c"), 1);
    // ret imm16, retf imm16, enter imm16, imm8
    assert_eq!(instr_len(b"\xc2\x08\x00"), 3);
    assert_eq!(instr_len(b"\xca\x08\x00"), 3);
    assert_eq!(instr_len(b"\xc8\x10\x00\x00"), 4);
    // loop / jecxz rel8
    assert_eq!(instr_len(b"\xe2\xfe"), 2);
    assert_eq!(instr_len(b"\xe3\x10"), 2);
    // far call ptr16:32
    assert_eq!(instr_len(b"\x9a\x00\x00\x00\x00\x08\x00"), 7);
    // test r/m8, imm8 (F6 /0) versus not r/m8 (F6 /2)
    assert_eq!(instr_len(b"\xf6\x45\x08\x01"), 4);
    assert_eq!(instr_len(b"\xf6\xd0"), 2);
    // test r/m32, imm32 (F7 /0)
    assert_eq!(instr_len(b"\xf7\xc1\x00\x01\x00\x00"), 6);
    // nopl 0x0(%eax,%eax,1); shld with imm8; cmpxchg8b (no immediate)
    assert_eq!(instr_len(b"\x0f\x1f\x44\x00\x00"), 5);
    assert_eq!(instr_len(b"\x0f\xa4\xc2\x04"), 4);
    assert_eq!(instr_len(b"\x0f\xc7\x0e"), 3);
}

#[test]
fn decoder_refuses_what_it_cannot_size() {
    // operand-size override on an operand-sized immediate
    assert_eq!(instr_len(b"\x66\x81\xec\x20\x00"), 0);
    assert_eq!(instr_len(b"\x66\x68\x01\x00"), 0);
    // the override does not touch byte immediates
    assert_eq!(instr_len(b"\x66\x83\xec\x20"), 4);
    assert_eq!(instr_len(b"\x66\x90"), 2);
    // address-size override
    assert_eq!(instr_len(b"\x67\x8b\x07"), 0);
    // undefined and unhandled forms
    assert_eq!(instr_len(b"\xd6"), 0);
    assert_eq!(instr_len(b"\x0f\x0b"), 0);
    assert_eq!(instr_len(b"\x62\x00"), 0);
    // longer than fifteen bytes
    let mut long = vec![0x2eu8; 15];
    long.push(0x90);
    assert_eq!(instr_len(&long), 0);
    let mut ok = vec![0x2eu8; 14];
    ok.push(0x90);
    assert_eq!(instr_len(&ok), 15);
}

#[test]
fn hook_holds_a_trampoline_exactly_while_attached() {
    let mut h = Hook::new("G_Damage", 0x1234, true);
    assert!(!h.attached());
    assert_eq!(h.original(), 0);
    assert_eq!(h.name(), "G_Damage");
    assert_eq!(h.runtime_address(0x1000), 0x2234);
    h.mark_attached(0x4000_0000, 6);
    assert!(h.attached());
    assert_eq!(h.original(), 0x4000_0000);
    assert_eq!(h.stolen_len(), 6);
    h.mark_detached();
    assert!(!h.attached());
    assert_eq!(h.original(), 0);
    assert_eq!(h.stolen_len(), 0);
}

#[test]
fn retargeted_call_targets_read_back() {
    // call rel32 at 0x0804e891 with operand -0x1f (0xffffffe1)
    assert_eq!(rel32_target(0x0804_e896, [0xe1, 0xff, 0xff, 0xff]), 0x0804_e877);
    assert_eq!(rel32_target(0x10, [0x05, 0, 0, 0]), 0x15);
    let from_end = 0x0807_2ccf;
    let to = 0x0806_0000;
    assert_eq!(rel32_target(from_end, rel32_bytes(from_end, to)), to);
}
