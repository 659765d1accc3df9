//! Building the command sequence that applies a profile: both sides are
//! resolved before any command is issued, then defaults are switched, then
//! volumes are set.

use vstd::prelude::*;

use crate::config::ProfileConfig;
use crate::resolve::resolve_id;
use crate::resolve::spec_resolve;
use crate::text::spec_lines;
use crate::wpctl::resolve_id_by_node_name_in_status;
use crate::wpctl::spec_resolve_node_id;

verus! {

/// The device a volume command addresses: a concrete identifier, or the
/// role sentinel for the current default sink or source.
#[derive(Clone, Copy, PartialEq, Eq, Structural, Debug)]
pub enum VolumeTarget {
    Device(i32),
    DefaultSink,
    DefaultSource,
}

/// One step of an apply sequence, to be issued in plan order; a failed step
/// aborts the remainder, and issued steps are not rolled back.
#[derive(Clone, PartialEq, Eq, Debug)]
pub enum WpctlCommand {
    /// Make the device the default for its role.
    SetDefault(i32),
    /// Sleep this many milliseconds.
    Wait(u64),
    /// Set the target's volume to this plain decimal text.
    SetVolume(VolumeTarget, String),
}

/// The settling delay between switching defaults and setting volumes, in
/// milliseconds: an empirically chosen workaround, kept as a constant, for
/// the audio daemon not accepting an immediate volume change on a newly
/// defaulted device.
pub const SETTLE_DELAY_MS: u64 = 1000;

/// A command with its volume text as characters.
pub enum CommandModel {
    SetDefault(i32),
    Wait(u64),
    SetVolume(VolumeTarget, Seq<char>),
}

pub open spec fn command_model(c: WpctlCommand) -> CommandModel {
    match c {
        WpctlCommand::SetDefault(id) => CommandModel::SetDefault(id),
        WpctlCommand::Wait(ms) => CommandModel::Wait(ms),
        WpctlCommand::SetVolume(t, v) => CommandModel::SetVolume(t, v@),
    }
}

pub open spec fn plan_model(s: Seq<WpctlCommand>) -> Seq<CommandModel> {
    s.map_values(|c: WpctlCommand| command_model(c))
}

/// The sequence the identifier/label strategy issues once both sides have
/// resolved: both defaults, the settling delay, then both volumes.
pub open spec fn resolving_plan(
    sink_id: i32,
    source_id: i32,
    sink_volume: Seq<char>,
    source_volume: Seq<char>,
) -> Seq<CommandModel> {
    seq![
        CommandModel::SetDefault(sink_id),
        CommandModel::SetDefault(source_id),
        CommandModel::Wait(SETTLE_DELAY_MS),
        CommandModel::SetVolume(VolumeTarget::Device(sink_id), sink_volume),
        CommandModel::SetVolume(VolumeTarget::Device(source_id), source_volume),
    ]
}

/// Plan the identifier/label strategy against freshly parsed live lists.
/// When either side fails to resolve, no command at all is planned and the
/// error names that side and its saved label; the sink is checked first.
pub fn plan_profile_resolving_ids(
    p: &ProfileConfig,
    sinks: &Vec<(i32, String)>,
    sources: &Vec<(i32, String)>,
) -> (r: Result<Vec<WpctlCommand>, String>)
    ensures
        match r {
            Ok(plan) => match (
                spec_resolve(p.sink_id, p.sink_label@, sinks@),
                spec_resolve(p.source_id, p.source_label@, sources@),
            ) {
                (Some(si), Some(so)) => plan_model(plan@) == resolving_plan(
                    si,
                    so,
                    p.sink_volume@,
                    p.source_volume@,
                ),
                _ => false,
            },
            Err(e) => {
                ||| (spec_resolve(p.sink_id, p.sink_label@, sinks@) is None && e@
                    == "Could not resolve sink '"@ + p.sink_label@ + "'"@)
                ||| (spec_resolve(p.sink_id, p.sink_label@, sinks@) is Some && spec_resolve(
                    p.source_id,
                    p.source_label@,
                    sources@,
                ) is None && e@ == "Could not resolve source '"@ + p.source_label@ + "'"@)
            },
        },
{
    let sink_live = match resolve_id(p.sink_id, p.sink_label.as_str(), sinks) {
        Some(id) => id,
        None => {
            return Err(
                String::from_str("Could not resolve sink '").concat(
                    p.sink_label.as_str(),
                ).concat("'"),
            );
        },
    };
    let source_live = match resolve_id(p.source_id, p.source_label.as_str(), sources) {
        Some(id) => id,
        None => {
            return Err(
                String::from_str("Could not resolve source '").concat(
                    p.source_label.as_str(),
                ).concat("'"),
            );
        },
    };
    let mut plan: Vec<WpctlCommand> = Vec::new();
    plan.push(WpctlCommand::SetDefault(sink_live));
    plan.push(WpctlCommand::SetDefault(source_live));
    plan.push(WpctlCommand::Wait(SETTLE_DELAY_MS));
    plan.push(WpctlCommand::SetVolume(VolumeTarget::Device(sink_live), p.sink_volume.clone()));
    plan.push(
        WpctlCommand::SetVolume(VolumeTarget::Device(source_live), p.source_volume.clone()),
    );
    proof {
        assert(plan_model(plan@) =~= resolving_plan(
            sink_live,
            source_live,
            p.sink_volume@,
            p.source_volume@,
        ));
    }
    Ok(plan)
}

/// The sequence the node-name strategy issues: both defaults, then both
/// volumes on the default-role handles, with no settling delay.
pub open spec fn node_name_plan(
    sink_id: i32,
    source_id: i32,
    sink_volume: Seq<char>,
    source_volume: Seq<char>,
) -> Seq<CommandModel> {
    seq![
        CommandModel::SetDefault(sink_id),
        CommandModel::SetDefault(source_id),
        CommandModel::SetVolume(VolumeTarget::DefaultSink, sink_volume),
        CommandModel::SetVolume(VolumeTarget::DefaultSource, source_volume),
    ]
}

/// The identifier one side of the node-name strategy settles on: the saved
/// identifier, unresolved, when no node name is stored; otherwise the
/// identifier the name-mode status report (`status`: its text, or the
/// transport error that fetching it produced) gives that node name, the
/// transport error passed through unchanged, and a node name with no row
/// reported with `prefix` before the name.
pub open spec fn spec_side_id(
    node_name: Option<String>,
    saved_id: i32,
    status: Result<String, String>,
    prefix: Seq<char>,
) -> Result<i32, Seq<char>> {
    match node_name {
        None => Ok(saved_id),
        Some(n) => match status {
            Err(e) => Err(e@),
            Ok(text) => match spec_resolve_node_id(spec_lines(text@), n@) {
                Some(id) => Ok(id),
                None => Err(prefix + n@),
            },
        },
    }
}

/// Plan the node-name strategy. Each side with a stored node name must
/// resolve through its name-mode status report or the whole operation
/// fails, the sink checked first; a side without one falls back to the
/// saved identifier.
pub fn plan_profile_using_node_names(
    p: &ProfileConfig,
    sink_status: &Result<String, String>,
    source_status: &Result<String, String>,
) -> (r: Result<Vec<WpctlCommand>, String>)
    ensures
        match r {
            Ok(plan) => match (
                spec_side_id(p.sink_node_name, p.sink_id, *sink_status, "Sink node not found: "@),
                spec_side_id(
                    p.source_node_name,
                    p.source_id,
                    *source_status,
                    "Source node not found: "@,
                ),
            ) {
                (Ok(si), Ok(so)) => plan_model(plan@) == node_name_plan(
                    si,
                    so,
                    p.sink_volume@,
                    p.source_volume@,
                ),
                _ => false,
            },
            Err(e) => {
                ||| spec_side_id(
                    p.sink_node_name,
                    p.sink_id,
                    *sink_status,
                    "Sink node not found: "@,
                ) == Err::<i32, Seq<char>>(e@)
                ||| (spec_side_id(
                    p.sink_node_name,
                    p.sink_id,
                    *sink_status,
                    "Sink node not found: "@,
                ) is Ok && spec_side_id(
                    p.source_node_name,
                    p.source_id,
                    *source_status,
                    "Source node not found: "@,
                ) == Err::<i32, Seq<char>>(e@))
            },
        },
{
    let sink_id = match &p.sink_node_name {
        None => p.sink_id,
        Some(n) => match sink_status {
            Err(e) => {
                return Err(e.clone());
            },
            Ok(text) => match resolve_id_by_node_name_in_status(text.as_str(), n.as_str()) {
                Some(id) => id,
                None => {
                    return Err(String::from_str("Sink node not found: ").concat(n.as_str()));
                },
            },
        },
    };
    let source_id = match &p.source_node_name {
        None => p.source_id,
        Some(n) => match source_status {
            Err(e) => {
                return Err(e.clone());
            },
            Ok(text) => match resolve_id_by_node_name_in_status(text.as_str(), n.as_str()) {
                Some(id) => id,
                None => {
                    return Err(String::from_str("Source node not found: ").concat(n.as_str()));
                },
            },
        },
    };
    let mut plan: Vec<WpctlCommand> = Vec::new();
    plan.push(WpctlCommand::SetDefault(sink_id));
    plan.push(WpctlCommand::SetDefault(source_id));
    plan.push(WpctlCommand::SetVolume(VolumeTarget::DefaultSink, p.sink_volume.clone()));
    plan.push(WpctlCommand::SetVolume(VolumeTarget::DefaultSource, p.source_volume.clone()));
    proof {
        assert(plan_model(plan@) =~= node_name_plan(
            sink_id,
            source_id,
            p.sink_volume@,
            p.source_volume@,
        ));
    }
    Ok(plan)
}

} // verus!
