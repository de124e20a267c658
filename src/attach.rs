//! The order in which the control plane tries to attach the rewriter to an
//! interface.
use vstd::prelude::*;

verus! {

/// Where the rewriter runs.
#[derive(Clone, Copy, Debug, PartialEq, Eq, Structural)]
pub enum AttachMode {
    /// Offloaded to the NIC.
    Hw,
    /// In the native driver hook.
    Drv,
    /// In the generic hook, the slowest.
    Skb,
}

/// The attach flags of the control plane.
#[derive(Clone, Copy, Debug, PartialEq, Eq, Structural)]
pub struct AttachOptions {
    pub force_skb_mode: bool,
    pub force_hw_mode: bool,
    pub force_drv_mode: bool,
    pub allow_skb_mode: bool,
}

/// The modes to try, in order: a forced mode alone; else HW, then DRV, then SKB
/// where it is allowed.
pub open spec fn attach_plan(opt: AttachOptions) -> Seq<AttachMode> {
    if opt.force_skb_mode {
        seq![AttachMode::Skb]
    } else if opt.force_hw_mode {
        seq![AttachMode::Hw]
    } else if opt.force_drv_mode {
        seq![AttachMode::Drv]
    } else if opt.allow_skb_mode {
        seq![AttachMode::Hw, AttachMode::Drv, AttachMode::Skb]
    } else {
        seq![AttachMode::Hw, AttachMode::Drv]
    }
}

/// The mode to try after `failed` attempts have failed, or `None` where no mode
/// is left and starting up fails.
pub fn attach_attempt(opt: &AttachOptions, failed: usize) -> (r: Option<AttachMode>)
    ensures
        failed < attach_plan(*opt).len() ==> r == Some(attach_plan(*opt)[failed as int]),
        failed >= attach_plan(*opt).len() ==> r is None,
{
    if opt.force_skb_mode {
        if failed == 0 { Some(AttachMode::Skb) } else { None }
    } else if opt.force_hw_mode {
        if failed == 0 { Some(AttachMode::Hw) } else { None }
    } else if opt.force_drv_mode {
        if failed == 0 { Some(AttachMode::Drv) } else { None }
    } else if failed == 0 {
        Some(AttachMode::Hw)
    } else if failed == 1 {
        Some(AttachMode::Drv)
    } else if failed == 2 && opt.allow_skb_mode {
        Some(AttachMode::Skb)
    } else {
        None
    }
}

/// Whether the attach options force one mode, so that its failure is reported
/// as such.
pub fn is_forced(opt: &AttachOptions) -> (r: bool)
    ensures
        r == (opt.force_skb_mode || opt.force_hw_mode || opt.force_drv_mode),
        r ==> attach_plan(*opt).len() == 1,
{
    opt.force_skb_mode || opt.force_hw_mode || opt.force_drv_mode
}

} // verus!
