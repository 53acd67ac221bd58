use jampgame_proxy::hooks::netstatus::{
    calc_packets_and_fps, get_timenudge_magic_offset, mark_packet_start, ms_per_frame,
    net_status_commands, net_status_due, push_net_status_header, push_net_status_row,
    record_timenudge_sample, restart_timenudge_sample, snaps, update_ucmd_stats, NetStatusRow,
};
use jampgame_proxy::sdk::{Usercmd, CMD_MASK};
use jampgame_proxy::state::{ClientEntry, TimenudgeData, UcmdStat};

fn cmd(server_time: i32) -> Usercmd {
    Usercmd {
        server_time,
        angles: [0; 3],
        buttons: 0,
        weapon: 0,
        forcesel: 0,
        invensel: 0,
        generic_cmd: 0,
        forwardmove: 0,
        rightmove: 0,
        upmove: 0,
    }
}

#[test]
fn ucmd_ring_records_time_and_packet() {
    let mut e = ClientEntry::default();
    update_ucmd_stats(&mut e, &cmd(100), 7);
    assert_eq!(e.cmd_index, 1);
    assert_eq!(e.cmd_stats[1], UcmdStat { server_time: 100, packet_index: 7 });
    e.cmd_index = CMD_MASK - 1;
    update_ucmd_stats(&mut e, &cmd(200), 8);
    assert_eq!(e.cmd_stats[0], UcmdStat { server_time: 200, packet_index: 8 });
    e.cmd_index = usize::MAX;
    update_ucmd_stats(&mut e, &cmd(300), 9);
    assert_eq!(e.cmd_index, 0);
    assert_eq!(e.cmd_stats[0].server_time, 300);
    mark_packet_start(&mut e);
    assert_eq!(e.packet_counter, 1);
}

#[test]
fn packets_and_fps_count_the_last_second() {
    let mut e = ClientEntry::default();
    // Three commands in one packet, two in the next, all recent.
    for (t, p) in [(5000, 1), (5010, 1), (5020, 1), (5030, 2), (5040, 2)] {
        update_ucmd_stats(&mut e, &cmd(t), p);
    }
    let (mut packets, mut fps) = (0, 0);
    calc_packets_and_fps(&e, &mut packets, &mut fps);
    // The other slots are at time 0: more than a second old.
    assert_eq!(fps, 5);
    assert_eq!(packets, 2);
}

#[test]
fn magic_offsets_follow_the_table() {
    assert_eq!(get_timenudge_magic_offset(10), 0);
    assert_eq!(get_timenudge_magic_offset(20), 18);
    assert_eq!(get_timenudge_magic_offset(30), 10);
    assert_eq!(get_timenudge_magic_offset(35), -21);
    assert_eq!(get_timenudge_magic_offset(80), -27);
    assert_eq!(get_timenudge_magic_offset(1000), -27);
    assert_eq!(ms_per_frame(20), 50);
    assert_eq!(ms_per_frame(0), 0);
}

#[test]
fn timenudge_sample_is_due_after_1500_ms() {
    let mut d = TimenudgeData::default();
    assert!(!record_timenudge_sample(&mut d, 1010, 1000, 50, 1000));
    assert_eq!((d.delay_count, d.delay_sum, d.ping_sum), (1, 10, 50));
    assert!(record_timenudge_sample(&mut d, 1020, 1000, 40, 1500));
    assert_eq!((d.delay_count, d.delay_sum, d.ping_sum), (2, 30, 90));
    restart_timenudge_sample(&mut d, 1500);
    assert_eq!(d, TimenudgeData { delay_count: 0, delay_sum: 0, ping_sum: 0, last_time_nudge_calculation: 1500 });
    assert!(net_status_due(0, 500));
    assert!(!net_status_due(100, 500));
    assert_eq!(snaps(50, 40), 20);
    assert_eq!(snaps(10, 40), 40);
    assert_eq!(snaps(0, 40), 0);
}

#[test]
fn table_rows_and_chunks() {
    let mut out = Vec::new();
    push_net_status_header(&mut out);
    let row = NetStatusRow {
        score: 3, state: 4, ping: 45, rate: 25000, fps: 30, packets: 30, timenudge: -12, snaps: 20,
        client_num: 1,
    };
    push_net_status_row(&mut out, &row, b"Bob");
    let text = String::from_utf8(out.clone()).unwrap();
    assert!(text.ends_with("    3   45  25000   30      30       -12    20  1 Bob^7\n"));
    let con = NetStatusRow { state: 2, ..row };
    let mut o2 = Vec::new();
    push_net_status_row(&mut o2, &con, b"x");
    assert!(String::from_utf8(o2).unwrap().starts_with("    3 CON   25000"));
    let cmds = net_status_commands(&out);
    assert_eq!(cmds.len(), 1);
    assert!(cmds[0].starts_with(b"print \"score"));
    assert!(cmds[0].ends_with(b"^7\n\n"));
    let big = vec![b'a'; 1011 * 2 + 5];
    let cmds = net_status_commands(&big);
    assert_eq!(cmds.len(), 3);
    assert_eq!(cmds[0].len(), 7 + 1011);
    assert_eq!(cmds[2].len(), 7 + 5 + 1);
    assert!(net_status_commands(b"").is_empty());
}
