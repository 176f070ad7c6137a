//! How an incoming plan is routed: the slide-deck bypass, the
//! device-probe rewrite, or ordinary execution.

use vstd::prelude::*;
use crate::device::is_avfoundation_record;
use crate::device::is_device_list_spec;
use crate::device::is_list_avfoundation_devices;
use crate::device::is_record_spec;
use crate::model::TaskCommand;
use crate::slides::parse_ppt_generator_args;
use crate::slides::ppt_args_spec;
use crate::text::starts_with_seq;
use crate::text::starts_with_str;
use crate::text::trim_left_spec;
use crate::text::trim_start_str;

verus! {

/// How the engine treats a plan.
pub enum PlanMode {
    /// The first action is a recognized `ppt-generator` command: skip
    /// execution, generate markup directly.
    SlideDeck { title: String, content: String },
    /// The plan opens with a device-list probe followed by a recording
    /// action: run the probe first and rewrite the recording command.
    DeviceProbe,
    Ordinary,
}

/// The plan opens with a recognized slide-deck command.
pub open spec fn is_slide_plan(plan: Seq<TaskCommand>) -> bool {
    plan.len() >= 1 && starts_with_seq(trim_left_spec(plan[0].command@), "ppt-generator "@)
        && ppt_args_spec(plan[0].command@) is Some
}

/// The plan opens with a capture-device probe followed by a recording.
pub open spec fn is_probe_plan(plan: Seq<TaskCommand>) -> bool {
    !is_slide_plan(plan) && plan.len() >= 2 && is_device_list_spec(plan[0].command@)
        && is_record_spec(plan[1].command@)
}

/// Classifies a plan: the slide-deck bypass wins, then the device
/// probe, and everything else runs ordinarily.
pub fn plan_mode(plan: &Vec<TaskCommand>) -> (m: PlanMode)
    ensures
        match m {
            PlanMode::SlideDeck { title, content } => is_slide_plan(plan@) && ppt_args_spec(
                plan@[0].command@,
            ) == Some((title@, content@)),
            PlanMode::DeviceProbe => is_probe_plan(plan@),
            PlanMode::Ordinary => !is_slide_plan(plan@) && !is_probe_plan(plan@),
        },
{
    if plan.len() >= 1 {
        let c0 = plan[0].command.as_str();
        if starts_with_str(trim_start_str(c0), "ppt-generator ") {
            match parse_ppt_generator_args(c0) {
                Some((title, content)) => {
                    return PlanMode::SlideDeck { title, content };
                },
                None => {},
            }
        }
        if plan.len() >= 2 && is_list_avfoundation_devices(c0) && is_avfoundation_record(
            plan[1].command.as_str(),
        ) {
            return PlanMode::DeviceProbe;
        }
    }
    PlanMode::Ordinary
}

} // verus!
