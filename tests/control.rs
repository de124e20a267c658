use udp_router::attach::{attach_attempt, is_forced, AttachMode, AttachOptions};
use udp_router::control::{
    get_stats, handle_message, pack_net_and_mask, read_metric, ActorAction, BpfActorMessage,
    ConfigSlot,
};
use udp_router::rewriter::RouterConfig;

fn apply(cfg: &mut RouterConfig, action: ActorAction) {
    if let ActorAction::WriteConfig { slot, value } = action {
        match slot {
            ConfigSlot::LocalNetAndMask => cfg.local_net_and_mask = value,
            ConfigSlot::BackendNetAndMask => cfg.backend_net_and_mask = value,
            ConfigSlot::GatewayMacAddress => cfg.gateway_mac_address = value,
        }
    }
}

#[test]
fn packs_network_and_mask() {
    assert_eq!(pack_net_and_mask(0x0a00_0000, 0xff00_0000), 0x0a00_0000_ff00_0000);
    assert_eq!(pack_net_and_mask(0xffff_ffff, 0xffff_ffff), u64::MAX);
    assert_eq!(pack_net_and_mask(0, 0), 0);
}

#[test]
fn messages_become_actions() {
    assert_eq!(handle_message(&BpfActorMessage::GetStats), ActorAction::ReadStats);
    assert_eq!(
        handle_message(&BpfActorMessage::SetLocalNetAndMask { net: 0x0a00_0000, mask: 0xff00_0000 }),
        ActorAction::WriteConfig { slot: ConfigSlot::LocalNetAndMask, value: 0x0a00_0000_ff00_0000 }
    );
    assert_eq!(
        handle_message(&BpfActorMessage::SetBackendNetAndMask { net: 0xc000_0200, mask: 0xffff_ff00 }),
        ActorAction::WriteConfig { slot: ConfigSlot::BackendNetAndMask, value: 0xc000_0200_ffff_ff00 }
    );
    assert_eq!(
        handle_message(&BpfActorMessage::SetGatewayMacAddress { mac: 0xcccc_cccc_cccc }),
        ActorAction::WriteConfig { slot: ConfigSlot::GatewayMacAddress, value: 0xcccc_cccc_cccc }
    );
}

#[test]
fn last_write_wins_per_slot() {
    let msgs = [
        BpfActorMessage::SetLocalNetAndMask { net: 1, mask: 2 },
        BpfActorMessage::GetStats,
        BpfActorMessage::SetGatewayMacAddress { mac: 7 },
        BpfActorMessage::SetLocalNetAndMask { net: 3, mask: 4 },
        BpfActorMessage::GetStats,
    ];
    let mut cfg = RouterConfig { local_net_and_mask: 0, backend_net_and_mask: 9, gateway_mac_address: 0 };
    for m in msgs.iter() {
        apply(&mut cfg, handle_message(m));
    }
    assert_eq!(cfg.local_net_and_mask, (3u64 << 32) | 4);
    assert_eq!(cfg.backend_net_and_mask, 9);
    assert_eq!(cfg.gateway_mac_address, 7);
}

#[test]
fn metric_sums_cpus() {
    assert_eq!(read_metric(&vec![]), 0);
    assert_eq!(read_metric(&vec![1, 2, 3, 4]), 10);
    assert_eq!(read_metric(&vec![u64::MAX - 1, 1]), u64::MAX);
    assert_eq!(read_metric(&vec![u64::MAX, 5, 0]), u64::MAX);
}

#[test]
fn stats_never_decrease() {
    let first = get_stats(&vec![3, 4], &vec![1, 1], &vec![0, 2]);
    let second = get_stats(&vec![5, 4], &vec![2, 1], &vec![0, 2]);
    assert_eq!(first.total_packets, 7);
    assert_eq!(first.client_to_server_packets, 2);
    assert_eq!(first.server_to_client_packets, 2);
    assert!(second.total_packets >= first.total_packets);
    assert!(second.client_to_server_packets >= first.client_to_server_packets);
    assert!(second.server_to_client_packets >= first.server_to_client_packets);
}

fn options(skb: bool, hw: bool, drv: bool, allow: bool) -> AttachOptions {
    AttachOptions { force_skb_mode: skb, force_hw_mode: hw, force_drv_mode: drv, allow_skb_mode: allow }
}

#[test]
fn attach_fallback_order() {
    let o = options(false, false, false, false);
    assert_eq!(attach_attempt(&o, 0), Some(AttachMode::Hw));
    assert_eq!(attach_attempt(&o, 1), Some(AttachMode::Drv));
    assert_eq!(attach_attempt(&o, 2), None);
    let o = options(false, false, false, true);
    assert_eq!(attach_attempt(&o, 2), Some(AttachMode::Skb));
    assert_eq!(attach_attempt(&o, 3), None);
    assert!(!is_forced(&o));
}

#[test]
fn attach_forced_mode_only() {
    let o = options(false, true, false, true);
    assert!(is_forced(&o));
    assert_eq!(attach_attempt(&o, 0), Some(AttachMode::Hw));
    assert_eq!(attach_attempt(&o, 1), None);
    assert_eq!(attach_attempt(&options(true, true, false, false), 0), Some(AttachMode::Skb));
    assert_eq!(attach_attempt(&options(false, false, true, false), 0), Some(AttachMode::Drv));
}
