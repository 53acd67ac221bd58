//! Players' net status: the per-usercmd statistics ring, the packets/fps
//! estimate, the timenudge sampling and the `netstatus` table sent to a
//! client.

use vstd::prelude::*;
use vstd::string::StringSliceAdditionalSpecFns;

use crate::sdk::{CMD_MASK, CS_CONNECTED, CS_ZOMBIE, Usercmd};
use crate::state::{client_entry_wf, ClientEntry, TimenudgeData, UcmdStat};
use crate::text::{push_bytes, push_i32_padded, push_str, spec_i32_padded};

verus! {

/// Ring slot of a usercmd counter value.
pub open spec fn ring_slot(index: usize) -> int {
    (index % (CMD_MASK as usize)) as int
}

/// Record one usercmd in the client's statistics ring: the counter moves
/// on (wrapping) and the slot it lands on takes the command's server time
/// and the identity of the packet that carried it.
pub fn update_ucmd_stats(entry: &mut ClientEntry, cmd: &Usercmd, packet_index: usize)
    requires
        client_entry_wf(*old(entry)),
    ensures
        client_entry_wf(*final(entry)),
        final(entry).cmd_index == old(entry).cmd_index.wrapping_add(1),
        final(entry).cmd_stats@ == old(entry).cmd_stats@.update(
            ring_slot(final(entry).cmd_index),
            UcmdStat { server_time: cmd.server_time, packet_index },
        ),
        final(entry).is_connected == old(entry).is_connected,
        final(entry).timenudge_data == old(entry).timenudge_data,
        final(entry).packet_counter == old(entry).packet_counter,
        final(entry).game_stats@ == old(entry).game_stats@,
        final(entry).clean_name@ == old(entry).clean_name@,
{
    entry.cmd_index = entry.cmd_index.wrapping_add(1);
    let x = entry.cmd_index;
    let idx = x & (CMD_MASK - 1);
    assert(x & 1023 == x % 1024) by (bit_vector);
    entry.cmd_stats.set(idx, UcmdStat { server_time: cmd.server_time, packet_index });
}

/// A new usercmd-carrying message from the client: the packet identity
/// moves on (wrapping).
pub fn mark_packet_start(entry: &mut ClientEntry)
    requires
        client_entry_wf(*old(entry)),
    ensures
        client_entry_wf(*final(entry)),
        final(entry).packet_counter == old(entry).packet_counter.wrapping_add(1),
        final(entry).cmd_stats@ == old(entry).cmd_stats@,
        final(entry).cmd_index == old(entry).cmd_index,
{
    entry.packet_counter = entry.packet_counter.wrapping_add(1);
}

/// The scan of the ring behind the packets/fps estimate, over its first
/// `n` slots: slots at most one second older than the latest command count
/// as frames, and each change of packet identity among them as a packet.
/// Returns (frames, packets, last packet identity).
pub open spec fn ring_scan(stats: Seq<UcmdStat>, last: i32, n: int) -> (int, int, usize)
    decreases n,
{
    if n <= 0 {
        (0, 0, 0)
    } else {
        let (f, p, lp) = ring_scan(stats, last, n - 1);
        let s = stats[n - 1];
        if s.server_time.wrapping_add(1000) >= last {
            if lp != s.packet_index {
                (f + 1, p + 1, s.packet_index)
            } else {
                (f + 1, p, lp)
            }
        } else {
            (f, p, lp)
        }
    }
}

proof fn lemma_ring_scan_bounds(stats: Seq<UcmdStat>, last: i32, n: int)
    requires
        n >= 0,
    ensures
        0 <= ring_scan(stats, last, n).0 <= n,
        0 <= ring_scan(stats, last, n).1 <= n,
    decreases n,
{
    if n > 0 {
        lemma_ring_scan_bounds(stats, last, n - 1);
    }
}

/// The latest command's server time.
pub open spec fn latest_time(entry: ClientEntry) -> i32 {
    entry.cmd_stats@[ring_slot(entry.cmd_index)].server_time
}

/// Add the client's frames and packets over the last second to `fps` and
/// `packets`.
pub fn calc_packets_and_fps(entry: &ClientEntry, packets: &mut i32, fps: &mut i32)
    requires
        client_entry_wf(*entry),
        *old(packets) + CMD_MASK <= i32::MAX,
        *old(fps) + CMD_MASK <= i32::MAX,
    ensures
        *final(fps) == *old(fps) + ring_scan(entry.cmd_stats@, latest_time(*entry), CMD_MASK as int).0,
        *final(packets) == *old(packets) + ring_scan(
            entry.cmd_stats@,
            latest_time(*entry),
            CMD_MASK as int,
        ).1,
{
    let x = entry.cmd_index;
    assert(x & 1023 == x % 1024) by (bit_vector);
    let last = entry.cmd_stats[x & (CMD_MASK - 1)].server_time;
    let ghost f0 = *fps;
    let ghost p0 = *packets;
    let mut last_packet_index: usize = 0;
    let mut i: usize = 0;
    while i < CMD_MASK
        invariant
            client_entry_wf(*entry),
            last == latest_time(*entry),
            i <= CMD_MASK,
            f0 + CMD_MASK <= i32::MAX,
            p0 + CMD_MASK <= i32::MAX,
            ({
                let r = ring_scan(entry.cmd_stats@, last, i as int);
                *fps == f0 + r.0 && *packets == p0 + r.1 && last_packet_index == r.2
            }),
        decreases CMD_MASK - i,
    {
        proof {
            lemma_ring_scan_bounds(entry.cmd_stats@, last, i as int);
        }
        let stat = entry.cmd_stats[i];
        if stat.server_time.wrapping_add(1000) >= last {
            *fps += 1;
            if last_packet_index != stat.packet_index {
                last_packet_index = stat.packet_index;
                *packets += 1;
            }
        }
        i += 1;
    }
}

/// The engine's timenudge correction per `sv_fps`, for 20 to 80 fps (the
/// last value beyond).
pub open spec fn magic_offsets() -> Seq<i32> {
    seq![
        18i32, 15i32, 15i32, 13i32, 14i32, 14i32, 11i32, 10i32, 9i32, 10i32,
        10i32, 0i32, 0i32, 0i32, 0i32, -21i32, -21i32, -21i32, -21i32, -19i32,
        -19i32, 0i32, 0i32, 0i32, 0i32, -19i32, -17i32, -17i32, -16i32, -17i32,
        -17i32, -17i32, -17i32, -17i32, -17i32, -17i32, -16i32, -15i32, -15i32, 0i32,
        0i32, 0i32, 0i32, -30i32, -30i32, -30i32, -30i32, -28i32, -28i32, -28i32,
        -28i32, -28i32, -28i32, -28i32, -28i32, -28i32, -27i32, -26i32, -26i32, -27i32,
        -27i32,
    ]
}

pub open spec fn spec_magic_offset(sv_fps: i32) -> i32 {
    if sv_fps < 20 {
        0
    } else if sv_fps >= 81 {
        magic_offsets()[60]
    } else {
        magic_offsets()[sv_fps - 20]
    }
}

/// The timenudge correction for a server frame rate (0 below 20 fps).
pub fn get_timenudge_magic_offset(sv_fps: i32) -> (r: i32)
    ensures
        r == spec_magic_offset(sv_fps),
{
    let table: [i32; 61] = [
        18, 15, 15, 13, 14, 14, 11, 10, 9, 10,
        10, 0, 0, 0, 0, -21, -21, -21, -21, -19,
        -19, 0, 0, 0, 0, -19, -17, -17, -16, -17,
        -17, -17, -17, -17, -17, -17, -16, -15, -15, 0,
        0, 0, 0, -30, -30, -30, -30, -28, -28, -28,
        -28, -28, -28, -28, -28, -28, -27, -26, -26, -27,
        -27,
    ];
    assert(table@ =~= magic_offsets());
    let table_size: i32 = 61;
    let mut magic_offset: i32 = 0;
    if sv_fps >= 20 {
        let mut index = sv_fps - 20;
        if sv_fps >= table_size + 20 {
            index = table_size - 1;
        }
        magic_offset = table[index as usize];
    }
    magic_offset
}

/// Milliseconds per server frame (0 for a non-positive `sv_fps`).
pub fn ms_per_frame(sv_fps: i32) -> (r: i32)
    ensures
        r == (if sv_fps > 0 {
            1000i32 / sv_fps
        } else {
            0
        }),
{
    if sv_fps > 0 {
        1000 / sv_fps
    } else {
        0
    }
}

/// Add one usercmd to the timenudge sample (its lead over the server
/// time and the client's ping; wrapping like the engine's ints). Returns
/// whether 1.5 s have passed since the last estimate, i.e. a new one is
/// due.
pub fn record_timenudge_sample(
    data: &mut TimenudgeData,
    cmd_server_time: i32,
    now: i32,
    ping: i32,
    milliseconds: i32,
) -> (due: bool)
    ensures
        final(data).delay_count == old(data).delay_count.wrapping_add(1),
        final(data).delay_sum == old(data).delay_sum.wrapping_add(cmd_server_time.wrapping_sub(now)),
        final(data).ping_sum == old(data).ping_sum.wrapping_add(ping),
        final(data).last_time_nudge_calculation == old(data).last_time_nudge_calculation,
        due == !(milliseconds < old(data).last_time_nudge_calculation.wrapping_add(1500)),
{
    data.delay_count = data.delay_count.wrapping_add(1);
    data.delay_sum = data.delay_sum.wrapping_add(cmd_server_time.wrapping_sub(now));
    data.ping_sum = data.ping_sum.wrapping_add(ping);
    !(milliseconds < data.last_time_nudge_calculation.wrapping_add(1500))
}

/// An estimate was taken at `milliseconds`: start a new sample.
pub fn restart_timenudge_sample(data: &mut TimenudgeData, milliseconds: i32)
    ensures
        *final(data) == (TimenudgeData {
            delay_count: 0,
            delay_sum: 0,
            ping_sum: 0,
            last_time_nudge_calculation: milliseconds,
        }),
{
    data.delay_count = 0;
    data.delay_sum = 0;
    data.ping_sum = 0;
    data.last_time_nudge_calculation = milliseconds;
}

/// The table may be sent again: 500 ms of server time passed since the
/// last one (wrapping like the engine's ints).
pub fn net_status_due(last: i32, svs_time: i32) -> (r: bool)
    ensures
        r == !(last.wrapping_add(500) > svs_time),
{
    !(last.wrapping_add(500) > svs_time)
}

/// Snapshots per second a client gets: `1000 / snapshotMsec`, at most the
/// server's frame rate, 0 without a snapshot interval.
pub open spec fn spec_snaps(snapshot_msec: i32, sv_fps: i32) -> i32 {
    if snapshot_msec > 0 && 1000i32 / snapshot_msec > sv_fps {
        sv_fps
    } else if snapshot_msec > 0 {
        (1000i32 / snapshot_msec) as i32
    } else {
        0
    }
}

pub fn snaps(snapshot_msec: i32, sv_fps: i32) -> (r: i32)
    ensures
        r == spec_snaps(snapshot_msec, sv_fps),
{
    if snapshot_msec > 0 && 1000 / snapshot_msec > sv_fps {
        sv_fps
    } else if snapshot_msec > 0 {
        1000 / snapshot_msec
    } else {
        0
    }
}

/// The two header lines of the table.
pub open spec fn net_status_header() -> Seq<u8> {
    "score ping rate   fps  packets timeNudge snaps id name \n".spec_bytes()
        + "----- ---- ------ ---- ------- --------- ----- -- ---------------\n".spec_bytes()
}

pub fn push_net_status_header(out: &mut Vec<u8>)
    ensures
        final(out)@ == old(out)@ + net_status_header(),
{
    push_str(out, "score ping rate   fps  packets timeNudge snaps id name \n");
    push_str(out, "----- ---- ------ ---- ------- --------- ----- -- ---------------\n");
    assert(final(out)@ =~= old(out)@ + net_status_header());
}

/// One client's row of the table, as the numbers stand.
#[derive(Debug, Clone, Copy, PartialEq, Eq, Structural)]
pub struct NetStatusRow {
    pub score: i32,
    /// The engine's client state (`CS_*`).
    pub state: i32,
    pub ping: i32,
    pub rate: i32,
    pub fps: i32,
    pub packets: i32,
    pub timenudge: i32,
    pub snaps: i32,
    pub client_num: i32,
}

/// The state column: `CON `, `ZMB ` or the ping (at most 9999) in four
/// columns.
pub open spec fn state_column(state: i32, ping: i32) -> Seq<u8> {
    if state == CS_CONNECTED {
        "CON ".spec_bytes()
    } else if state == CS_ZOMBIE {
        "ZMB ".spec_bytes()
    } else {
        spec_i32_padded(
            if ping < 9999 {
                ping as int
            } else {
                9999
            },
            4,
        )
    }
}

/// `{score:5} {state} {rate:6} {fps:4} {packets:7} {timenudge:9} {snaps:5} {id:2} <name>^7\n`
pub open spec fn spec_net_status_row(row: NetStatusRow, name: Seq<u8>) -> Seq<u8> {
    spec_i32_padded(row.score as int, 5) + seq![32u8] + state_column(row.state, row.ping) + seq![
        32u8,
    ] + spec_i32_padded(row.rate as int, 6) + seq![32u8] + spec_i32_padded(row.fps as int, 4)
        + seq![32u8] + spec_i32_padded(row.packets as int, 7) + seq![32u8] + spec_i32_padded(
        row.timenudge as int,
        9,
    ) + seq![32u8] + spec_i32_padded(row.snaps as int, 5) + seq![32u8] + spec_i32_padded(
        row.client_num as int,
        2,
    ) + seq![32u8] + name + seq![94u8, 55, 10]
}

pub fn push_net_status_row(out: &mut Vec<u8>, row: &NetStatusRow, name: &[u8])
    ensures
        final(out)@ == old(out)@ + spec_net_status_row(*row, name@),
{
    let ghost base = out@;
    push_i32_padded(out, row.score, 5);
    out.push(32);
    if row.state == CS_CONNECTED {
        push_str(out, "CON ");
    } else if row.state == CS_ZOMBIE {
        push_str(out, "ZMB ");
    } else {
        let ping = if row.ping < 9999 {
            row.ping
        } else {
            9999
        };
        push_i32_padded(out, ping, 4);
    }
    let ghost p1 = spec_i32_padded(row.score as int, 5) + seq![32u8] + state_column(
        row.state,
        row.ping,
    );
    assert(out@ =~= base + p1);
    out.push(32);
    push_i32_padded(out, row.rate, 6);
    out.push(32);
    push_i32_padded(out, row.fps, 4);
    let ghost p2 = p1 + seq![32u8] + spec_i32_padded(row.rate as int, 6) + seq![32u8]
        + spec_i32_padded(row.fps as int, 4);
    assert(out@ =~= base + p2);
    out.push(32);
    push_i32_padded(out, row.packets, 7);
    out.push(32);
    push_i32_padded(out, row.timenudge, 9);
    let ghost p3 = p2 + seq![32u8] + spec_i32_padded(row.packets as int, 7) + seq![32u8]
        + spec_i32_padded(row.timenudge as int, 9);
    assert(out@ =~= base + p3);
    out.push(32);
    push_i32_padded(out, row.snaps, 5);
    out.push(32);
    push_i32_padded(out, row.client_num, 2);
    let ghost p4 = p3 + seq![32u8] + spec_i32_padded(row.snaps as int, 5) + seq![32u8]
        + spec_i32_padded(row.client_num as int, 2);
    assert(out@ =~= base + p4);
    out.push(32);
    push_bytes(out, name);
    out.push(94);
    out.push(55);
    out.push(10);
    assert(out@ =~= base + (p4 + seq![32u8] + name@ + seq![94u8, 55, 10]));
    assert(p4 + seq![32u8] + name@ + seq![94u8, 55, 10] =~= spec_net_status_row(*row, name@));
}

/// Longest piece of the table one `print` command carries.
pub const NET_STATUS_CHUNK: usize = 1011;

/// The `print` commands carrying the table: `print "` and the next 1011
/// bytes, a shorter last piece closed by a newline.
pub open spec fn spec_chunks(status: Seq<u8>) -> Seq<Seq<u8>>
    decreases status.len(),
{
    if status.len() == 0 {
        Seq::empty()
    } else if status.len() < NET_STATUS_CHUNK {
        seq!["print \"".spec_bytes() + status + seq![10u8]]
    } else {
        seq!["print \"".spec_bytes() + status.subrange(0, NET_STATUS_CHUNK as int)] + spec_chunks(
            status.subrange(NET_STATUS_CHUNK as int, status.len() as int),
        )
    }
}

pub open spec fn chunks_view(v: Seq<Vec<u8>>) -> Seq<Seq<u8>> {
    v.map_values(|c: Vec<u8>| c@)
}

/// Split the table into the `print` commands that carry it.
pub fn net_status_commands(status: &[u8]) -> (r: Vec<Vec<u8>>)
    ensures
        chunks_view(r@) == spec_chunks(status@),
{
    let mut out: Vec<Vec<u8>> = Vec::new();
    let mut progress: usize = 0;
    assert(status@.subrange(0, status@.len() as int) =~= status@);
    assert(chunks_view(out@) + spec_chunks(status@) =~= spec_chunks(status@));
    while progress < status.len()
        invariant
            progress <= status@.len(),
            spec_chunks(status@) == chunks_view(out@) + spec_chunks(
                status@.subrange(progress as int, status@.len() as int),
            ),
        decreases status@.len() - progress,
    {
        let ghost rest = status@.subrange(progress as int, status@.len() as int);
        let remaining = status.len() - progress;
        let chunk_len = if remaining < NET_STATUS_CHUNK {
            remaining
        } else {
            NET_STATUS_CHUNK
        };
        let mut cmd: Vec<u8> = Vec::new();
        push_str(&mut cmd, "print \"");
        push_bytes(&mut cmd, vstd::slice::slice_subrange(status, progress, progress + chunk_len));
        let ghost before = chunks_view(out@);
        if chunk_len < NET_STATUS_CHUNK {
            cmd.push(10);
            assert(rest =~= status@.subrange(progress as int, (progress + chunk_len) as int));
            assert(spec_chunks(rest) == seq!["print \"".spec_bytes() + rest + seq![10u8]]);
            assert(cmd@ == "print \"".spec_bytes() + rest + seq![10u8]);
            out.push(cmd);
            assert(chunks_view(out@) =~= before.push(cmd@));
            assert(spec_chunks(status@.subrange(status@.len() as int, status@.len() as int))
                =~= Seq::<Seq<u8>>::empty()) by {
                assert(status@.subrange(status@.len() as int, status@.len() as int).len() == 0);
            }
            progress = status.len();
            assert(before + spec_chunks(rest) =~= chunks_view(out@) + spec_chunks(
                status@.subrange(progress as int, status@.len() as int),
            ));
        } else {
            assert(rest.subrange(0, NET_STATUS_CHUNK as int) =~= status@.subrange(
                progress as int,
                progress + NET_STATUS_CHUNK,
            ));
            assert(rest.subrange(NET_STATUS_CHUNK as int, rest.len() as int) =~= status@.subrange(
                progress + NET_STATUS_CHUNK,
                status@.len() as int,
            ));
            out.push(cmd);
            assert(chunks_view(out@) =~= before.push(cmd@));
            progress = progress + chunk_len;
            assert(before + spec_chunks(rest) =~= chunks_view(out@) + spec_chunks(
                status@.subrange(progress as int, status@.len() as int),
            ));
        }
    }
    assert(status@.subrange(progress as int, status@.len() as int).len() == 0);
    assert(chunks_view(out@) + Seq::<Seq<u8>>::empty() =~= chunks_view(out@));
    out
}


/// The table bytes the commands carry, in order: each command without its
/// `print "` head.
pub open spec fn joined_payloads(cmds: Seq<Seq<u8>>) -> Seq<u8>
    decreases cmds.len(),
{
    if cmds.len() == 0 {
        Seq::empty()
    } else {
        cmds[0].subrange(7, cmds[0].len() as int) + joined_payloads(cmds.drop_first())
    }
}

/// Every command of the net-status table starts with `print "` and carries
/// at most `NET_STATUS_CHUNK` table bytes (and the closing newline); the
/// carried bytes, in order, are the table followed by a newline, the
/// newline left out when the table length is a multiple of the chunk size.
pub proof fn law_net_status_chunks_reassemble(status: Seq<u8>)
    ensures
        forall|k: int|
            0 <= k < spec_chunks(status).len() ==> (#[trigger] spec_chunks(status)[k]).subrange(0, 7)
                == "print \"".spec_bytes() && 7 <= spec_chunks(status)[k].len() <= 8
                + NET_STATUS_CHUNK,
        joined_payloads(spec_chunks(status)) == status + (if status.len() % NET_STATUS_CHUNK as nat
            == 0 {
            Seq::<u8>::empty()
        } else {
            seq![10u8]
        }),
    decreases status.len(),
{
    reveal_strlit("print \"");
    assert(vstd::string::is_ascii("print \""));
    vstd::string::is_ascii_spec_bytes("print \"");
    let head = "print \"".spec_bytes();
    assert(head.len() == 7);
    let cmds = spec_chunks(status);
    if status.len() == 0 {
        assert(joined_payloads(cmds) =~= status);
    } else if status.len() < NET_STATUS_CHUNK {
        let c = head + status + seq![10u8];
        assert(cmds == seq![c]);
        assert(c.subrange(0, 7) =~= head);
        assert(c.subrange(7, c.len() as int) =~= status + seq![10u8]);
        assert(cmds.drop_first() =~= Seq::<Seq<u8>>::empty());
        assert(joined_payloads(cmds.drop_first()) =~= Seq::<u8>::empty());
        assert(status.len() % NET_STATUS_CHUNK as nat != 0);
        assert(joined_payloads(cmds) =~= status + seq![10u8]);
    } else {
        let n = NET_STATUS_CHUNK as int;
        let rest = status.subrange(n, status.len() as int);
        let c = head + status.subrange(0, n);
        law_net_status_chunks_reassemble(rest);
        assert(cmds == seq![c] + spec_chunks(rest));
        assert(cmds.drop_first() =~= spec_chunks(rest));
        assert(c.subrange(0, 7) =~= head);
        assert(c.subrange(7, c.len() as int) =~= status.subrange(0, n));
        assert(rest.len() % NET_STATUS_CHUNK as nat == status.len() % NET_STATUS_CHUNK as nat);
        let tail = if status.len() % NET_STATUS_CHUNK as nat == 0 {
            Seq::<u8>::empty()
        } else {
            seq![10u8]
        };
        assert(status.subrange(0, n) + (rest + tail) =~= status + tail);
        assert forall|k: int| 0 <= k < cmds.len() implies (#[trigger] cmds[k]).subrange(0, 7) == head
            && 7 <= cmds[k].len() <= 8 + NET_STATUS_CHUNK by {
            if k > 0 {
                assert(cmds[k] == spec_chunks(rest)[k - 1]);
            }
        }
    }
}

} // verus!
