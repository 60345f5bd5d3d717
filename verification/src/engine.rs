use vstd::prelude::*;

use crate::note_labels::{
    NOTE_BUCKET_MAX_MIDI,
    NOTE_BUCKET_MIN_MIDI,
};
use crate::sample_rate::SampleRate;
use crate::text::{
    chars_of,
    opt_view,
    starts_with,
    starts_with_chars,
};

verus! {

/// A request from the UI to the audio thread. (The note of a test tone travels beside
/// the command; the plan only says whether to play it.)
pub enum EngineCommand {
    SwitchInput(Option<String>),
    SetMonitorEnabled(bool),
    PlayTestNote,
    StartDrone,
    StopDrone,
    StartReplay(String),
    StopReplay,
}

/// Where a capture is built from.
#[derive(Debug, PartialEq, Eq)]
pub enum CaptureSource {
    /// A live input: the route id asked for, or the default input for `None`.
    Input(Option<String>),
    /// The live input the user last selected (replay leaves that choice alone).
    SelectedInput,
    /// A recorded take, played into the same rings.
    Replay(String),
}

/// What the audio thread does for one command, in this order: store the monitor flag,
/// play the test tone, shut the running capture down, build a new one, start or stop
/// the drone, and mark replay idle.
#[derive(Debug, PartialEq, Eq)]
pub struct CommandPlan {
    pub store_monitor_enabled: Option<bool>,
    pub play_test_note: bool,
    pub shutdown_capture: bool,
    pub build: Option<CaptureSource>,
    pub start_drone: bool,
    pub stop_drone: bool,
    pub publish_replay_idle: bool,
}

/// The plain content of a [`CaptureSource`].
pub enum SourceView {
    Input(Option<Seq<char>>),
    SelectedInput,
    Replay(Seq<char>),
}

pub open spec fn source_view(s: CaptureSource) -> SourceView {
    match s {
        CaptureSource::Input(id) => SourceView::Input(opt_view(id)),
        CaptureSource::SelectedInput => SourceView::SelectedInput,
        CaptureSource::Replay(path) => SourceView::Replay(path@),
    }
}

/// The plain content of a [`CommandPlan`].
pub struct PlanView {
    pub store_monitor_enabled: Option<bool>,
    pub play_test_note: bool,
    pub shutdown_capture: bool,
    pub build: Option<SourceView>,
    pub start_drone: bool,
    pub stop_drone: bool,
    pub publish_replay_idle: bool,
}

pub open spec fn plan_view(p: CommandPlan) -> PlanView {
    PlanView {
        store_monitor_enabled: p.store_monitor_enabled,
        play_test_note: p.play_test_note,
        shutdown_capture: p.shutdown_capture,
        build: match p.build {
            Some(s) => Some(source_view(s)),
            None => None,
        },
        start_drone: p.start_drone,
        stop_drone: p.stop_drone,
        publish_replay_idle: p.publish_replay_idle,
    }
}

/// A plan that does nothing.
pub open spec fn idle_plan() -> PlanView {
    PlanView {
        store_monitor_enabled: None,
        play_test_note: false,
        shutdown_capture: false,
        build: None,
        start_drone: false,
        stop_drone: false,
        publish_replay_idle: false,
    }
}

/// The plan for `command`, given whether a capture runs (and the input it was opened
/// for) and whether the drone is sounding:
/// - switching input replaces the capture with one on the input asked for;
/// - toggling the monitor stores the flag and, if a capture runs, rebuilds it on the
///   same input so the output stream is tied to the new ring;
/// - starting the drone is a no-op while it sounds, stopping it always silences it;
/// - starting a replay replaces the capture with the take, and stopping one marks replay
///   idle and returns to the selected input.
pub open spec fn command_plan(
    has_capture: bool,
    capture_input: Option<Seq<char>>,
    drone_running: bool,
    command: EngineCommand,
) -> PlanView {
    match command {
        EngineCommand::SwitchInput(id) => PlanView {
            shutdown_capture: has_capture,
            build: Some(SourceView::Input(opt_view(id))),
            ..idle_plan()
        },
        EngineCommand::SetMonitorEnabled(on) => PlanView {
            store_monitor_enabled: Some(on),
            shutdown_capture: has_capture,
            build: if has_capture {
                Some(SourceView::Input(capture_input))
            } else {
                None
            },
            ..idle_plan()
        },
        EngineCommand::PlayTestNote => PlanView { play_test_note: true, ..idle_plan() },
        EngineCommand::StartDrone => PlanView { start_drone: !drone_running, ..idle_plan() },
        EngineCommand::StopDrone => PlanView { stop_drone: true, ..idle_plan() },
        EngineCommand::StartReplay(path) => PlanView {
            shutdown_capture: has_capture,
            build: Some(SourceView::Replay(path@)),
            ..idle_plan()
        },
        EngineCommand::StopReplay => PlanView {
            shutdown_capture: has_capture,
            build: Some(SourceView::SelectedInput),
            publish_replay_idle: true,
            ..idle_plan()
        },
    }
}

/// Decides what the audio thread does for `command`. `capture_input` is the input the
/// running capture was opened for (meaningful only when `has_capture`).
pub fn plan_command(
    has_capture: bool,
    capture_input: &Option<String>,
    drone_running: bool,
    command: EngineCommand,
) -> (plan: CommandPlan)
    ensures
        plan_view(plan) == command_plan(
            has_capture,
            opt_view(*capture_input),
            drone_running,
            command,
        ),
        plan.build is Some && has_capture ==> plan.shutdown_capture,
        match command {
            EngineCommand::SwitchInput(id) => plan.build == Some(CaptureSource::Input(id))
                && plan.shutdown_capture == has_capture,
            EngineCommand::SetMonitorEnabled(on) => {
                &&& plan.store_monitor_enabled == Some(on)
                &&& plan.shutdown_capture == has_capture
                &&& (has_capture <==> plan.build is Some)
                &&& (has_capture ==> (plan.build matches Some(CaptureSource::Input(i)) && opt_view(
                    i,
                ) == opt_view(*capture_input)))
            },
            EngineCommand::PlayTestNote => plan.play_test_note && plan.build is None
                && !plan.shutdown_capture,
            EngineCommand::StartDrone => plan.start_drone == !drone_running && !plan.stop_drone
                && plan.build is None,
            EngineCommand::StopDrone => plan.stop_drone && !plan.start_drone && plan.build is None,
            EngineCommand::StartReplay(path) => plan.build == Some(CaptureSource::Replay(path))
                && plan.shutdown_capture == has_capture,
            EngineCommand::StopReplay => plan.build == Some(CaptureSource::SelectedInput)
                && plan.publish_replay_idle && plan.shutdown_capture == has_capture,
        },
{
    let idle = CommandPlan {
        store_monitor_enabled: None,
        play_test_note: false,
        shutdown_capture: false,
        build: None,
        start_drone: false,
        stop_drone: false,
        publish_replay_idle: false,
    };
    match command {
        EngineCommand::SwitchInput(id) => CommandPlan {
            shutdown_capture: has_capture,
            build: Some(CaptureSource::Input(id)),
            ..idle
        },
        EngineCommand::SetMonitorEnabled(on) => {
            let build = if has_capture {
                let id = match capture_input {
                    Some(s) => Some(s.clone()),
                    None => None,
                };
                Some(CaptureSource::Input(id))
            } else {
                None
            };
            CommandPlan {
                store_monitor_enabled: Some(on),
                shutdown_capture: has_capture,
                build,
                ..idle
            }
        },
        EngineCommand::PlayTestNote => CommandPlan { play_test_note: true, ..idle },
        EngineCommand::StartDrone => CommandPlan { start_drone: !drone_running, ..idle },
        EngineCommand::StopDrone => CommandPlan { stop_drone: true, ..idle },
        EngineCommand::StartReplay(path) => CommandPlan {
            shutdown_capture: has_capture,
            build: Some(CaptureSource::Replay(path)),
            ..idle
        },
        EngineCommand::StopReplay => CommandPlan {
            shutdown_capture: has_capture,
            build: Some(CaptureSource::SelectedInput),
            publish_replay_idle: true,
            ..idle
        },
    }
}

/// Each command's plan does what the command names: switching input builds a capture on
/// exactly the input asked for (the default input only when none is named), a replay
/// builds one on exactly the take asked for, stopping a replay returns to the selected
/// input, toggling the monitor rebuilds the running capture on the same input, and the
/// drone and test-tone commands touch no capture.
pub proof fn lemma_commands_build_what_they_name(
    has_capture: bool,
    capture_input: Option<Seq<char>>,
    drone_running: bool,
    id: Option<String>,
    path: String,
    on: bool,
)
    ensures
        command_plan(has_capture, capture_input, drone_running, EngineCommand::SwitchInput(id)).build
            == Some(SourceView::Input(opt_view(id))),
        command_plan(has_capture, capture_input, drone_running, EngineCommand::SwitchInput(id)).shutdown_capture
            == has_capture,
        command_plan(has_capture, capture_input, drone_running, EngineCommand::StartReplay(path)).build
            == Some(SourceView::Replay(path@)),
        command_plan(has_capture, capture_input, drone_running, EngineCommand::StopReplay).build
            == Some(SourceView::SelectedInput),
        command_plan(has_capture, capture_input, drone_running, EngineCommand::StopReplay).publish_replay_idle,
        command_plan(has_capture, capture_input, drone_running, EngineCommand::SetMonitorEnabled(on)).build
            == if has_capture {
            Some(SourceView::Input(capture_input))
        } else {
            None
        },
        command_plan(has_capture, capture_input, drone_running, EngineCommand::SetMonitorEnabled(on)).store_monitor_enabled
            == Some(on),
        command_plan(has_capture, capture_input, drone_running, EngineCommand::StartDrone).build is None,
        command_plan(has_capture, capture_input, drone_running, EngineCommand::StartDrone).start_drone
            == !drone_running,
        command_plan(has_capture, capture_input, drone_running, EngineCommand::StopDrone).stop_drone,
        command_plan(has_capture, capture_input, drone_running, EngineCommand::PlayTestNote).play_test_note,
        command_plan(has_capture, capture_input, drone_running, EngineCommand::PlayTestNote).build is None,
        !command_plan(has_capture, capture_input, drone_running, EngineCommand::PlayTestNote).shutdown_capture,
{
}

/// What to do when building a capture failed.
#[derive(Debug, PartialEq, Eq)]
pub struct FailurePlan {
    /// Report the failure in the replay status (the UI waits for the verdict there)
    /// rather than as the engine's error.
    pub report_in_replay_status: bool,
    /// A capture to build instead.
    pub fallback: Option<CaptureSource>,
}

/// A take that fails to open is reported in the replay status and the live input comes
/// back, so a failed click never leaves the engine without an input; a live input that
/// fails is reported as the engine's error.
pub fn plan_build_failure(source: &CaptureSource) -> (plan: FailurePlan)
    ensures
        *source is Replay ==> plan == (FailurePlan {
            report_in_replay_status: true,
            fallback: Some(CaptureSource::SelectedInput),
        }),
        !(*source is Replay) ==> plan == (FailurePlan {
            report_in_replay_status: false,
            fallback: None,
        }),
{
    match source {
        CaptureSource::Replay(_) => FailurePlan {
            report_in_replay_status: true,
            fallback: Some(CaptureSource::SelectedInput),
        },
        _ => FailurePlan { report_in_replay_status: false, fallback: None },
    }
}


/// A requested input goes through Pulse when its route id carries the `pulse::`
/// prefix; anything else (including the default, `None`) goes through cpal.
pub fn is_pulse_route(id: &Option<String>) -> (pulse: bool)
    ensures
        pulse == match opt_view(*id) {
            Some(i) => starts_with(i, "pulse::"@),
            None => false,
        },
{
    match id {
        Some(requested) => {
            let chars = chars_of(requested.as_str());
            let prefix = chars_of("pulse::");
            starts_with_chars(&chars, &prefix)
        },
        None => false,
    }
}

/// The test tone is kept inside the note buckets' range.
pub fn test_tone_note(midi: u8) -> (note: u8)
    ensures
        note == if midi < NOTE_BUCKET_MIN_MIDI {
            NOTE_BUCKET_MIN_MIDI as u8
        } else if midi > NOTE_BUCKET_MAX_MIDI {
            NOTE_BUCKET_MAX_MIDI as u8
        } else {
            midi
        },
{
    if (midi as usize) < NOTE_BUCKET_MIN_MIDI {
        NOTE_BUCKET_MIN_MIDI as u8
    } else if (midi as usize) > NOTE_BUCKET_MAX_MIDI {
        NOTE_BUCKET_MAX_MIDI as u8
    } else {
        midi
    }
}

/// How the shared atomic holds the monitor's output rate: the rate, or `0` for no
/// monitor.
pub open spec fn encoded_monitor_rate(rate: Option<u32>) -> u32 {
    match rate {
        Some(r) => r,
        None => 0,
    }
}

/// The monitor's output rate read back from the atomic: `0` means no monitor.
pub open spec fn decoded_monitor_rate(raw: u32) -> Option<u32> {
    if raw == 0 {
        None
    } else {
        Some(raw)
    }
}

/// The monitor's output rate as the shared atomic holds it.
pub fn encode_monitor_rate(rate: Option<SampleRate>) -> (raw: u32)
    ensures
        raw == encoded_monitor_rate(
            match rate {
                Some(r) => Some(r.0),
                None => None,
            },
        ),
{
    match rate {
        Some(r) => r.0,
        None => 0,
    }
}

/// The monitor's output rate read back from the shared atomic.
pub fn monitor_output_sample_rate(raw: u32) -> (rate: Option<u32>)
    ensures
        rate == decoded_monitor_rate(raw),
{
    if raw == 0 {
        None
    } else {
        Some(raw)
    }
}

/// Reading the atomic back gives the rate that was stored, and "no monitor" for none;
/// a rate of 0 Hz would read back as no monitor, so it is left out.
pub proof fn lemma_monitor_rate_round_trip(rate: Option<u32>)
    requires
        rate != Some(0u32),
    ensures
        decoded_monitor_rate(encoded_monitor_rate(rate)) == rate,
{
}

/// The drone plays at 48 kHz when the device allows it, else at the nearest rate it
/// supports.
pub fn drone_output_rate(min_rate: u32, max_rate: u32) -> (rate: u32)
    requires
        min_rate <= max_rate,
    ensures
        rate == if 48_000 < min_rate {
            min_rate
        } else if 48_000 > max_rate {
            max_rate
        } else {
            48_000
        },
{
    if 48_000 < min_rate {
        min_rate
    } else if 48_000 > max_rate {
        max_rate
    } else {
        48_000
    }
}

} // verus!
