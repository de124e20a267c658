//! The control actor's decisions: which map slot each request writes and with
//! what value, and how per-CPU counters are aggregated into statistics.
use vstd::prelude::*;
use crate::classify::{mask_of, net_of};
use crate::rewriter::{counted, frame_action, PacketCounters, RouterConfig, XDP_TX};
use crate::wire::ip_src;
use crate::classify::in_net;

verus! {

/// A snapshot of the three packet counters, each summed over all CPUs.
#[derive(Clone, Copy, Debug, PartialEq, Eq, Structural)]
pub struct RouterStatistics {
    pub total_packets: u64,
    pub client_to_server_packets: u64,
    pub server_to_client_packets: u64,
}

/// A request to the control actor. The reply to `GetStats` travels on a
/// channel that the caller holds beside the request.
#[derive(Clone, Copy, Debug, PartialEq, Eq, Structural)]
pub enum BpfActorMessage {
    GetStats,
    SetLocalNetAndMask { net: u32, mask: u32 },
    SetBackendNetAndMask { net: u32, mask: u32 },
    SetGatewayMacAddress { mac: u64 },
}

/// One of the three single-slot configuration maps.
#[derive(Clone, Copy, Debug, PartialEq, Eq, Structural)]
pub enum ConfigSlot {
    LocalNetAndMask,
    BackendNetAndMask,
    GatewayMacAddress,
}

/// What the actor does for one request.
#[derive(Clone, Copy, Debug, PartialEq, Eq, Structural)]
pub enum ActorAction {
    /// Read the three per-CPU counters and reply with their sums.
    ReadStats,
    /// Write `value` into `slot`, in one 8-byte store.
    WriteConfig { slot: ConfigSlot, value: u64 },
}

/// `network` and `mask` packed into one slot value: `(network << 32) | mask`.
pub open spec fn packed(net: u32, mask: u32) -> u64 {
    (net as int * 0x1_0000_0000 + mask as int) as u64
}

/// The action that answers `msg`.
pub open spec fn action_of(msg: BpfActorMessage) -> ActorAction {
    match msg {
        BpfActorMessage::GetStats => ActorAction::ReadStats,
        BpfActorMessage::SetLocalNetAndMask { net, mask } => ActorAction::WriteConfig {
            slot: ConfigSlot::LocalNetAndMask,
            value: packed(net, mask),
        },
        BpfActorMessage::SetBackendNetAndMask { net, mask } => ActorAction::WriteConfig {
            slot: ConfigSlot::BackendNetAndMask,
            value: packed(net, mask),
        },
        BpfActorMessage::SetGatewayMacAddress { mac } => ActorAction::WriteConfig {
            slot: ConfigSlot::GatewayMacAddress,
            value: mac,
        },
    }
}

/// The configuration after `action`: a write overwrites its slot whole.
pub open spec fn apply_action(cfg: RouterConfig, action: ActorAction) -> RouterConfig {
    match action {
        ActorAction::ReadStats => cfg,
        ActorAction::WriteConfig { slot, value } => match slot {
            ConfigSlot::LocalNetAndMask => RouterConfig { local_net_and_mask: value, ..cfg },
            ConfigSlot::BackendNetAndMask => RouterConfig { backend_net_and_mask: value, ..cfg },
            ConfigSlot::GatewayMacAddress => RouterConfig { gateway_mac_address: value, ..cfg },
        },
    }
}

/// The configuration after the actor handled `msgs` in order.
pub open spec fn config_after(cfg: RouterConfig, msgs: Seq<BpfActorMessage>) -> RouterConfig
    decreases msgs.len(),
{
    if msgs.len() == 0 {
        cfg
    } else {
        apply_action(config_after(cfg, msgs.drop_last()), action_of(msgs.last()))
    }
}

/// The value that `slot` holds in `cfg`.
pub open spec fn slot_value(cfg: RouterConfig, slot: ConfigSlot) -> u64 {
    match slot {
        ConfigSlot::LocalNetAndMask => cfg.local_net_and_mask,
        ConfigSlot::BackendNetAndMask => cfg.backend_net_and_mask,
        ConfigSlot::GatewayMacAddress => cfg.gateway_mac_address,
    }
}

/// The value that handling `msg` writes into `slot`, if it writes there.
pub open spec fn written(msg: BpfActorMessage, slot: ConfigSlot) -> Option<u64> {
    match action_of(msg) {
        ActorAction::WriteConfig { slot: s, value } => if s == slot {
            Some(value)
        } else {
            None
        },
        ActorAction::ReadStats => None,
    }
}

/// The sum of `values`.
pub open spec fn seq_sum(values: Seq<u64>) -> int
    decreases values.len(),
{
    if values.len() == 0 {
        0
    } else {
        seq_sum(values.drop_last()) + values.last()
    }
}

/// The sum of `values`, held at `u64::MAX` where it does not fit.
pub open spec fn capped_sum(values: Seq<u64>) -> u64 {
    if seq_sum(values) < u64::MAX {
        seq_sum(values) as u64
    } else {
        u64::MAX
    }
}

/// A sum of counters is never negative.
pub proof fn lemma_seq_sum_nonneg(values: Seq<u64>)
    ensures
        seq_sum(values) >= 0,
    decreases values.len(),
{
    if values.len() > 0 {
        lemma_seq_sum_nonneg(values.drop_last());
    }
}

/// Packs a network and its mask into one slot value.
pub fn pack_net_and_mask(net: u32, mask: u32) -> (r: u64)
    ensures
        r == packed(net, mask),
        net_of(r) == net,
        mask_of(r) == mask,
{
    let r = ((net as u64) << 32) | (mask as u64);
    assert(r == (net as int * 0x1_0000_0000 + mask as int) as u64 && (r >> 32) as u32 == net && (r
        & 0xffff_ffff) as u32 == mask) by (bit_vector)
        requires
            r == ((net as u64) << 32u64) | (mask as u64),
    ;
    r
}

/// Decides what the actor does for `msg`.
pub fn handle_message(msg: &BpfActorMessage) -> (r: ActorAction)
    ensures
        r == action_of(*msg),
{
    match *msg {
        BpfActorMessage::GetStats => ActorAction::ReadStats,
        BpfActorMessage::SetLocalNetAndMask { net, mask } => ActorAction::WriteConfig {
            slot: ConfigSlot::LocalNetAndMask,
            value: pack_net_and_mask(net, mask),
        },
        BpfActorMessage::SetBackendNetAndMask { net, mask } => ActorAction::WriteConfig {
            slot: ConfigSlot::BackendNetAndMask,
            value: pack_net_and_mask(net, mask),
        },
        BpfActorMessage::SetGatewayMacAddress { mac } => ActorAction::WriteConfig {
            slot: ConfigSlot::GatewayMacAddress,
            value: mac,
        },
    }
}

/// Sums one counter's per-CPU values, holding the sum at `u64::MAX`.
pub fn read_metric(values: &Vec<u64>) -> (r: u64)
    ensures
        r == capped_sum(values@),
{
    let mut total: u64 = 0;
    let mut i: usize = 0;
    while i < values.len()
        invariant
            i <= values@.len(),
            total == capped_sum(values@.take(i as int)),
        decreases values@.len() - i,
    {
        proof {
            assert(values@.take(i as int + 1).drop_last() =~= values@.take(i as int));
            assert(seq_sum(values@.take(i as int + 1)) == seq_sum(values@.take(i as int))
                + values@[i as int]);
        }
        let v = values[i];
        proof {
            lemma_seq_sum_nonneg(values@.take(i as int));
        }
        if total > u64::MAX - v {
            total = u64::MAX;
        } else {
            total = total + v;
        }
        i = i + 1;
    }
    assert(values@.take(values@.len() as int) =~= values@);
    total
}

/// The statistics reply: each counter's per-CPU values summed.
pub fn get_stats(total_packets: &Vec<u64>, client_to_server_packets: &Vec<u64>, server_to_client_packets: &Vec<u64>) -> (r: RouterStatistics)
    ensures
        r.total_packets == capped_sum(total_packets@),
        r.client_to_server_packets == capped_sum(client_to_server_packets@),
        r.server_to_client_packets == capped_sum(server_to_client_packets@),
{
    RouterStatistics {
        total_packets: read_metric(total_packets),
        client_to_server_packets: read_metric(client_to_server_packets),
        server_to_client_packets: read_metric(server_to_client_packets),
    }
}

/// Requests handled one at a time never mix: after a sequence of requests each
/// configuration slot holds what it held before, if no request wrote it, or else
/// exactly the value of one request, the last that wrote it.
pub proof fn lemma_config_slot_last_write(cfg: RouterConfig, msgs: Seq<BpfActorMessage>, slot: ConfigSlot)
    ensures
        (forall|i: int| 0 <= i < msgs.len() ==> #[trigger] written(msgs[i], slot) is None)
            ==> slot_value(config_after(cfg, msgs), slot) == slot_value(cfg, slot),
        !(forall|i: int| 0 <= i < msgs.len() ==> #[trigger] written(msgs[i], slot) is None)
            ==> exists|i: int|
            0 <= i < msgs.len() && #[trigger] written(msgs[i], slot) == Some(
                slot_value(config_after(cfg, msgs), slot),
            ) && forall|j: int| i < j < msgs.len() ==> #[trigger] written(msgs[j], slot) is None,
    decreases msgs.len(),
{
    if msgs.len() > 0 {
        let init = msgs.drop_last();
        let n = msgs.len() - 1;
        lemma_config_slot_last_write(cfg, init, slot);
        assert(forall|i: int| 0 <= i < n ==> init[i] == msgs[i]);
        let after = config_after(cfg, msgs);
        if written(msgs[n], slot) is Some {
            assert(written(msgs[n], slot) == Some(slot_value(after, slot)));
        } else {
            assert(slot_value(after, slot) == slot_value(config_after(cfg, init), slot));
            if !(forall|i: int| 0 <= i < init.len() ==> #[trigger] written(init[i], slot) is None) {
                let i = choose|i: int|
                    0 <= i < init.len() && #[trigger] written(init[i], slot) == Some(
                        slot_value(config_after(cfg, init), slot),
                    ) && forall|j: int| i < j < init.len() ==> #[trigger] written(init[j], slot) is None;
                assert(written(msgs[i], slot) == Some(slot_value(after, slot)));
                assert forall|j: int| i < j < msgs.len() implies #[trigger] written(msgs[j], slot) is None by {
                    if j < n {
                        assert(written(init[j], slot) is None);
                    }
                }
            } else {
                assert forall|i: int| 0 <= i < msgs.len() implies #[trigger] written(msgs[i], slot) is None by {
                    if i < n {
                        assert(written(init[i], slot) is None);
                    }
                }
            }
        }
    }
}

/// Counters that only grow give sums that only grow: statistics read later
/// never show a counter lower than one read earlier.
pub proof fn lemma_capped_sum_monotone(earlier: Seq<u64>, later: Seq<u64>)
    requires
        earlier.len() == later.len(),
        forall|i: int| 0 <= i < earlier.len() ==> earlier[i] <= later[i],
    ensures
        seq_sum(earlier) <= seq_sum(later),
        capped_sum(earlier) <= capped_sum(later),
    decreases earlier.len(),
{
    if earlier.len() > 0 {
        let a = earlier.drop_last();
        let b = later.drop_last();
        assert forall|i: int| 0 <= i < a.len() implies a[i] <= b[i] by {
            assert(a[i] == earlier[i] && b[i] == later[i]);
        }
        lemma_capped_sum_monotone(a, b);
    }
    lemma_seq_sum_nonneg(earlier);
    lemma_seq_sum_nonneg(later);
}

/// One CPU's counters after it handled `frames` in order.
pub open spec fn counted_all(c: PacketCounters, frames: Seq<Seq<u8>>, cfg: RouterConfig) -> PacketCounters
    decreases frames.len(),
{
    if frames.len() == 0 {
        c
    } else {
        counted(counted_all(c, frames.drop_last(), cfg), frames.last(), cfg)
    }
}

/// Counters that have counted nothing yet.
pub open spec fn zero_counters() -> PacketCounters {
    PacketCounters { total_packets: 0, client_to_server_packets: 0, server_to_client_packets: 0 }
}

/// `frame` is forwarded under `cfg` and comes from a client, not a backend.
pub open spec fn is_client_request(frame: Seq<u8>, cfg: RouterConfig) -> bool {
    frame_action(frame, cfg) == XDP_TX && !in_net(ip_src(frame), cfg.backend_net_and_mask)
}

/// The number of frames over all CPUs.
pub open spec fn frames_count(per_cpu: Seq<Seq<Seq<u8>>>) -> int
    decreases per_cpu.len(),
{
    if per_cpu.len() == 0 {
        0
    } else {
        frames_count(per_cpu.drop_last()) + per_cpu.last().len()
    }
}

/// Each CPU's counters after it handled its own frames, from zero.
pub open spec fn counters_per_cpu(per_cpu: Seq<Seq<Seq<u8>>>, cfg: RouterConfig) -> Seq<PacketCounters> {
    Seq::new(per_cpu.len(), |i: int| counted_all(zero_counters(), per_cpu[i], cfg))
}

/// The per-CPU values of the total counter.
pub open spec fn totals_of(cs: Seq<PacketCounters>) -> Seq<u64> {
    Seq::new(cs.len(), |i: int| cs[i].total_packets)
}

/// The per-CPU values of the client-to-server counter.
pub open spec fn client_to_server_of(cs: Seq<PacketCounters>) -> Seq<u64> {
    Seq::new(cs.len(), |i: int| cs[i].client_to_server_packets)
}

/// The per-CPU values of the server-to-client counter.
pub open spec fn server_to_client_of(cs: Seq<PacketCounters>) -> Seq<u64> {
    Seq::new(cs.len(), |i: int| cs[i].server_to_client_packets)
}

/// A CPU that handles only client requests counts each of them both in the
/// total and as client-to-server, and none as server-to-client.
pub proof fn lemma_client_requests_counted(frames: Seq<Seq<u8>>, cfg: RouterConfig)
    requires
        frames.len() < u64::MAX,
        forall|j: int| 0 <= j < frames.len() ==> is_client_request(#[trigger] frames[j], cfg),
    ensures
        counted_all(zero_counters(), frames, cfg).total_packets == frames.len(),
        counted_all(zero_counters(), frames, cfg).client_to_server_packets == frames.len(),
        counted_all(zero_counters(), frames, cfg).server_to_client_packets == 0,
    decreases frames.len(),
{
    if frames.len() > 0 {
        let init = frames.drop_last();
        assert forall|j: int| 0 <= j < init.len() implies is_client_request(#[trigger] init[j], cfg) by {
            assert(init[j] == frames[j]);
        }
        lemma_client_requests_counted(init, cfg);
        assert(is_client_request(frames[frames.len() - 1], cfg));
    }
}

/// A sum of zeros is zero.
proof fn lemma_seq_sum_zero(values: Seq<u64>)
    requires
        forall|i: int| 0 <= i < values.len() ==> values[i] == 0,
    ensures
        seq_sum(values) == 0,
    decreases values.len(),
{
    if values.len() > 0 {
        let init = values.drop_last();
        assert forall|i: int| 0 <= i < init.len() implies init[i] == 0 by {
            assert(init[i] == values[i]);
        }
        lemma_seq_sum_zero(init);
    }
}

/// Per-CPU values that count each CPU's frames sum to the number of frames.
proof fn lemma_seq_sum_frames(values: Seq<u64>, per_cpu: Seq<Seq<Seq<u8>>>)
    requires
        values.len() == per_cpu.len(),
        forall|i: int| 0 <= i < values.len() ==> values[i] == per_cpu[i].len(),
    ensures
        seq_sum(values) == frames_count(per_cpu),
    decreases values.len(),
{
    if values.len() > 0 {
        let vi = values.drop_last();
        let pi = per_cpu.drop_last();
        assert forall|i: int| 0 <= i < vi.len() implies vi[i] == pi[i].len() by {
            assert(vi[i] == values[i] && pi[i] == per_cpu[i]);
        }
        lemma_seq_sum_frames(vi, pi);
    }
}

/// Traffic of client requests alone, spread in any way over the CPUs, shows in
/// the statistics as that many packets in all, every one client-to-server, and
/// none server-to-client.
pub proof fn lemma_client_traffic_stats(per_cpu: Seq<Seq<Seq<u8>>>, cfg: RouterConfig)
    requires
        forall|i: int| 0 <= i < per_cpu.len() ==> (#[trigger] per_cpu[i]).len() < u64::MAX,
        forall|i: int, j: int|
            0 <= i < per_cpu.len() && 0 <= j < per_cpu[i].len() ==> is_client_request(
                #[trigger] per_cpu[i][j],
                cfg,
            ),
    ensures
        seq_sum(totals_of(counters_per_cpu(per_cpu, cfg))) == frames_count(per_cpu),
        capped_sum(client_to_server_of(counters_per_cpu(per_cpu, cfg))) == capped_sum(
            totals_of(counters_per_cpu(per_cpu, cfg)),
        ),
        capped_sum(server_to_client_of(counters_per_cpu(per_cpu, cfg))) == 0,
{
    let cs = counters_per_cpu(per_cpu, cfg);
    assert forall|i: int| 0 <= i < per_cpu.len() implies #[trigger] cs[i].total_packets
        == per_cpu[i].len() && cs[i].client_to_server_packets == per_cpu[i].len()
        && cs[i].server_to_client_packets == 0 by {
        assert forall|j: int| 0 <= j < per_cpu[i].len() implies is_client_request(
            #[trigger] per_cpu[i][j],
            cfg,
        ) by {}
        lemma_client_requests_counted(per_cpu[i], cfg);
    }
    lemma_seq_sum_frames(totals_of(cs), per_cpu);
    assert(client_to_server_of(cs) =~= totals_of(cs));
    assert(cs.len() == per_cpu.len());
    assert forall|i: int| 0 <= i < cs.len() implies server_to_client_of(cs)[i] == 0 by {
        assert(cs[i].total_packets == per_cpu[i].len());
    }
    lemma_seq_sum_zero(server_to_client_of(cs));
}

} // verus!
