//! The hardware encoder: its settings, the order in which it is set up, and how
//! samples are fed to it and taken from it.
use vstd::prelude::*;

use crate::media_type::pack_u64;
use crate::nal::{has_key_unit, is_keyframe};
use crate::ring::EncodedFrame;

verus! {

/// H.264 profile High.
pub const PROFILE_HIGH: u32 = 100;

/// H.264 level 4.2.
pub const LEVEL_4_2: u32 = 42;

/// Rate control with a constant bitrate.
pub const RATE_CONTROL_CBR: u32 = 0;

/// How many seconds lie between keyframes.
pub const GOP_SECONDS: u32 = 2;

/// How many of its input formats an encoder is asked for.
pub const MAX_INPUT_TYPES: u32 = 20;

/// How often an encoder is drained at the end of a session.
pub const MAX_FLUSH_ROUNDS: u32 = 100;

/// The settings of an encoder.
#[derive(Debug, Clone, Copy, PartialEq, Eq, Structural)]
pub struct EncoderSettings {
    /// Width and height, packed.
    pub frame_size: u64,
    /// Numerator and denominator, packed.
    pub frame_rate: u64,
    /// Numerator and denominator, packed.
    pub pixel_aspect_ratio: u64,
    pub profile: u32,
    pub level: u32,
    pub rate_control_mode: u32,
    /// In bits per second.
    pub mean_bitrate: u32,
    /// In bits.
    pub vbv_buffer_size: u32,
    pub low_latency: bool,
    /// In frames.
    pub gop_size: u32,
}

/// The settings for video of the given size, frame rate and bitrate: constant
/// bitrate with a buffer of two seconds, and a keyframe every two seconds.
pub fn encoder_settings(width: u32, height: u32, fps: u32, bitrate_kbps: u32) -> (settings:
    EncoderSettings)
    requires
        bitrate_kbps * 2000 <= u32::MAX,
    ensures
        settings.frame_size == width * 0x1_0000_0000 + height,
        settings.frame_rate == fps * 0x1_0000_0000 + 1,
        settings.pixel_aspect_ratio == 0x1_0000_0000 + 1,
        settings.profile == PROFILE_HIGH,
        settings.level == LEVEL_4_2,
        settings.rate_control_mode == RATE_CONTROL_CBR,
        settings.mean_bitrate == bitrate_kbps * 1000,
        settings.vbv_buffer_size == 2 * settings.mean_bitrate,
        settings.low_latency,
        settings.gop_size == if fps * GOP_SECONDS <= u32::MAX {
            fps * GOP_SECONDS
        } else {
            u32::MAX as int
        },
{
    EncoderSettings {
        frame_size: pack_u64(width, height),
        frame_rate: pack_u64(fps, 1),
        pixel_aspect_ratio: pack_u64(1, 1),
        profile: PROFILE_HIGH,
        level: LEVEL_4_2,
        rate_control_mode: RATE_CONTROL_CBR,
        mean_bitrate: bitrate_kbps * 1000,
        vbv_buffer_size: bitrate_kbps * 1000 * 2,
        low_latency: true,
        gop_size: if fps <= u32::MAX / GOP_SECONDS {
            fps * GOP_SECONDS
        } else {
            u32::MAX
        },
    }
}

/// Why an encoder could not be set up.
#[derive(Debug, Clone, Copy, PartialEq, Eq, Structural)]
pub enum SetupError {
    /// There is no H.264 encoder, in hardware or software.
    NoEncoder,
    /// The encoder takes no NV12 pictures.
    NoNv12Input,
    /// A call that has to succeed failed.
    CallFailed,
}

/// What has to be done next to set up an encoder.
#[derive(Debug, Clone, Copy, PartialEq, Eq, Structural)]
pub enum SetupStep {
    /// Look for encoders in hardware.
    FindHardware,
    /// Look for encoders in software.
    FindSoftware,
    /// Activate the first encoder that was found.
    Activate,
    /// Allow synchronous calls on an asynchronous encoder.
    UnlockAsync,
    /// Set the type of the encoded stream.
    SetOutputType,
    /// Hand over the graphics device.
    SetDeviceManager,
    /// Set rate control, buffer, latency and keyframe distance.
    SetRateControl,
    /// Set the type of the pictures.
    SetInputType,
    /// Ask for an input type that the encoder prefers.
    AskInputType(u32),
    /// Set that type.
    UseInputType(u32),
    /// Announce the stream. Pictures are handed over in memory where
    /// `cpu_input` holds, else on the graphics device.
    BeginStreaming { cpu_input: bool },
    /// Announce the first picture.
    StartOfStream { cpu_input: bool },
    /// The encoder is ready.
    Ready { cpu_input: bool },
    /// The encoder cannot be used.
    Failed(SetupError),
}

/// How a step went.
#[derive(Debug, Clone, Copy, PartialEq, Eq, Structural)]
pub enum SetupEvent {
    /// So many encoders were found.
    Found(u32),
    /// The encoder named an input type.
    InputType { nv12: bool },
    /// The call succeeded.
    Done,
    /// The call failed, or the encoder refused what it was handed.
    Refused,
    /// There is no manager for the graphics device to hand over.
    NoManager,
}

/// The step that follows `step` once it went as `event` says. An event that
/// does not answer the step counts as its failure.
pub open spec fn setup_after(step: SetupStep, event: SetupEvent) -> SetupStep {
    match step {
        SetupStep::FindHardware => match event {
            SetupEvent::Found(n) => if n == 0 {
                SetupStep::FindSoftware
            } else {
                SetupStep::Activate
            },
            _ => SetupStep::Failed(SetupError::CallFailed),
        },
        SetupStep::FindSoftware => match event {
            SetupEvent::Found(n) => if n == 0 {
                SetupStep::Failed(SetupError::NoEncoder)
            } else {
                SetupStep::Activate
            },
            _ => SetupStep::Failed(SetupError::CallFailed),
        },
        SetupStep::Activate => if event == SetupEvent::Done {
            SetupStep::UnlockAsync
        } else {
            SetupStep::Failed(SetupError::CallFailed)
        },
        SetupStep::UnlockAsync => SetupStep::SetOutputType,
        SetupStep::SetOutputType => if event == SetupEvent::Done {
            SetupStep::SetDeviceManager
        } else {
            SetupStep::Failed(SetupError::CallFailed)
        },
        SetupStep::SetDeviceManager => if event == SetupEvent::NoManager {
            SetupStep::Failed(SetupError::CallFailed)
        } else {
            SetupStep::SetRateControl
        },
        SetupStep::SetRateControl => SetupStep::SetInputType,
        SetupStep::SetInputType => if event == SetupEvent::Done {
            SetupStep::BeginStreaming { cpu_input: false }
        } else {
            SetupStep::AskInputType(0)
        },
        SetupStep::AskInputType(i) => match event {
            SetupEvent::InputType { nv12 } => if nv12 {
                SetupStep::UseInputType(i)
            } else if i + 1 < MAX_INPUT_TYPES {
                SetupStep::AskInputType((i + 1) as u32)
            } else {
                SetupStep::Failed(SetupError::NoNv12Input)
            },
            _ => SetupStep::Failed(SetupError::NoNv12Input),
        },
        SetupStep::UseInputType(_) => if event == SetupEvent::Done {
            SetupStep::BeginStreaming { cpu_input: true }
        } else {
            SetupStep::Failed(SetupError::CallFailed)
        },
        SetupStep::BeginStreaming { cpu_input } => if event == SetupEvent::Done {
            SetupStep::StartOfStream { cpu_input }
        } else {
            SetupStep::Failed(SetupError::CallFailed)
        },
        SetupStep::StartOfStream { cpu_input } => if event == SetupEvent::Done {
            SetupStep::Ready { cpu_input }
        } else {
            SetupStep::Failed(SetupError::CallFailed)
        },
        SetupStep::Ready { cpu_input } => SetupStep::Ready { cpu_input },
        SetupStep::Failed(error) => SetupStep::Failed(error),
    }
}

/// The step that follows `step` once it went as `event` says.
pub fn next_setup_step(step: SetupStep, event: SetupEvent) -> (next: SetupStep)
    ensures
        next == setup_after(step, event),
{
    let done: bool = event == SetupEvent::Done;
    let failed: SetupStep = SetupStep::Failed(SetupError::CallFailed);
    match step {
        SetupStep::FindHardware => match event {
            SetupEvent::Found(0) => SetupStep::FindSoftware,
            SetupEvent::Found(_) => SetupStep::Activate,
            _ => failed,
        },
        SetupStep::FindSoftware => match event {
            SetupEvent::Found(0) => SetupStep::Failed(SetupError::NoEncoder),
            SetupEvent::Found(_) => SetupStep::Activate,
            _ => failed,
        },
        SetupStep::Activate => if done {
            SetupStep::UnlockAsync
        } else {
            failed
        },
        SetupStep::UnlockAsync => SetupStep::SetOutputType,
        SetupStep::SetOutputType => if done {
            SetupStep::SetDeviceManager
        } else {
            failed
        },
        SetupStep::SetDeviceManager => if event == SetupEvent::NoManager {
            failed
        } else {
            SetupStep::SetRateControl
        },
        SetupStep::SetRateControl => SetupStep::SetInputType,
        SetupStep::SetInputType => if done {
            SetupStep::BeginStreaming { cpu_input: false }
        } else {
            SetupStep::AskInputType(0)
        },
        SetupStep::AskInputType(i) => match event {
            SetupEvent::InputType { nv12 } => if nv12 {
                SetupStep::UseInputType(i)
            } else if i < MAX_INPUT_TYPES - 1 {
                SetupStep::AskInputType(i + 1)
            } else {
                SetupStep::Failed(SetupError::NoNv12Input)
            },
            _ => SetupStep::Failed(SetupError::NoNv12Input),
        },
        SetupStep::UseInputType(_) => if done {
            SetupStep::BeginStreaming { cpu_input: true }
        } else {
            failed
        },
        SetupStep::BeginStreaming { cpu_input } => if done {
            SetupStep::StartOfStream { cpu_input }
        } else {
            failed
        },
        SetupStep::StartOfStream { cpu_input } => if done {
            SetupStep::Ready { cpu_input }
        } else {
            failed
        },
        SetupStep::Ready { cpu_input } => SetupStep::Ready { cpu_input },
        SetupStep::Failed(error) => SetupStep::Failed(error),
    }
}

/// The device is handed over right after the output type was set, and rate
/// control is set right after that: never before the output type.
pub proof fn rate_control_follows_the_output_type(step: SetupStep, event: SetupEvent)
    ensures
        setup_after(step, event) == SetupStep::SetDeviceManager ==> step == SetupStep::SetOutputType
            && event == SetupEvent::Done,
        setup_after(step, event) == SetupStep::SetRateControl ==> step
            == SetupStep::SetDeviceManager,
        setup_after(step, event) == SetupStep::SetInputType ==> step == SetupStep::SetRateControl,
{
}

/// An encoder that does not take the device, the rate control or the synchronous
/// calls is set up all the same. Only where there is no manager for the device to
/// hand over, the setup fails.
pub proof fn optional_steps_never_fail(step: SetupStep, event: SetupEvent)
    requires
        step == SetupStep::UnlockAsync || step == SetupStep::SetDeviceManager || step
            == SetupStep::SetRateControl,
    ensures
        if step == SetupStep::SetDeviceManager && event == SetupEvent::NoManager {
            setup_after(step, event) == SetupStep::Failed(SetupError::CallFailed)
        } else {
            &&& !(setup_after(step, event) is Failed)
            &&& setup_after(step, event) == setup_after(step, SetupEvent::Done)
        },
{
}

/// How many steps the setup can still take at most.
pub open spec fn steps_left(step: SetupStep) -> nat {
    match step {
        SetupStep::FindHardware => 40,
        SetupStep::FindSoftware => 39,
        SetupStep::Activate => 38,
        SetupStep::UnlockAsync => 37,
        SetupStep::SetOutputType => 36,
        SetupStep::SetDeviceManager => 35,
        SetupStep::SetRateControl => 34,
        SetupStep::SetInputType => 33,
        SetupStep::AskInputType(i) => if i < MAX_INPUT_TYPES {
            (4 + MAX_INPUT_TYPES - i) as nat
        } else {
            4
        },
        SetupStep::UseInputType(_) => 3,
        SetupStep::BeginStreaming { .. } => 2,
        SetupStep::StartOfStream { .. } => 1,
        SetupStep::Ready { .. } => 0,
        SetupStep::Failed(_) => 0,
    }
}

/// Every setup ends: each step leads nearer to an encoder that is ready or has
/// failed.
pub proof fn setup_ends(step: SetupStep, event: SetupEvent)
    ensures
        steps_left(step) > 0 ==> steps_left(setup_after(step, event)) < steps_left(step),
        steps_left(step) == 0 <==> step is Ready || step is Failed,
{
}

/// The encoded frame in a sample. A sample without time or duration has 0.
pub fn encoded_frame(
    data: Vec<u8>,
    pts_100ns: Option<i64>,
    duration_100ns: Option<i64>,
    clean_point: bool,
) -> (frame: EncodedFrame)
    ensures
        frame.data@ == data@,
        frame.pts_100ns == pts_100ns.unwrap_or(0),
        frame.duration_100ns == duration_100ns.unwrap_or(0),
        frame.is_keyframe == (has_key_unit(data@) || clean_point),
{
    let key: bool = is_keyframe(data.as_slice(), clean_point);
    EncodedFrame {
        data,
        pts_100ns: pts_100ns.unwrap_or(0),
        duration_100ns: duration_100ns.unwrap_or(0),
        is_keyframe: key,
    }
}

/// What has to be done next to encode a picture.
#[derive(Debug, Clone, Copy, PartialEq, Eq, Structural)]
pub enum EncodeStep {
    /// Hand the picture to the encoder.
    Submit,
    /// Take out the frames that are ready, to make room.
    DrainFirst,
    /// Hand the picture to the encoder once more.
    Resubmit,
    /// Take out the frames that are ready.
    Drain,
    /// The picture was encoded.
    Done,
    /// The picture is lost.
    Failed,
}

/// The step that follows `step`, given whether it succeeded. A picture that the
/// encoder does not accept is handed over once more after the encoder was
/// drained.
pub open spec fn encode_after(step: EncodeStep, ok: bool) -> EncodeStep {
    match step {
        EncodeStep::Submit => if ok {
            EncodeStep::Drain
        } else {
            EncodeStep::DrainFirst
        },
        EncodeStep::DrainFirst => if ok {
            EncodeStep::Resubmit
        } else {
            EncodeStep::Failed
        },
        EncodeStep::Resubmit => if ok {
            EncodeStep::Drain
        } else {
            EncodeStep::Failed
        },
        EncodeStep::Drain => if ok {
            EncodeStep::Done
        } else {
            EncodeStep::Failed
        },
        EncodeStep::Done => EncodeStep::Done,
        EncodeStep::Failed => EncodeStep::Failed,
    }
}

/// The step that follows `step`, given whether it succeeded.
pub fn next_encode_step(step: EncodeStep, ok: bool) -> (next: EncodeStep)
    ensures
        next == encode_after(step, ok),
{
    match (step, ok) {
        (EncodeStep::Submit, true) => EncodeStep::Drain,
        (EncodeStep::Submit, false) => EncodeStep::DrainFirst,
        (EncodeStep::DrainFirst, true) => EncodeStep::Resubmit,
        (EncodeStep::Resubmit, true) => EncodeStep::Drain,
        (EncodeStep::Drain, true) => EncodeStep::Done,
        (EncodeStep::Done, _) => EncodeStep::Done,
        _ => EncodeStep::Failed,
    }
}

/// An encoder is drained after it has accepted a picture, whether at once or
/// after room was made: a picture counts as encoded only after that.
pub proof fn accepted_pictures_are_drained(step: EncodeStep, ok: bool)
    ensures
        encode_after(step, ok) == EncodeStep::Done && step != EncodeStep::Done ==> step
            == EncodeStep::Drain && ok,
        encode_after(step, ok) == EncodeStep::Drain ==> (step == EncodeStep::Submit || step
            == EncodeStep::Resubmit) && ok,
{
}

/// The flag of an output stream for which the encoder provides the samples.
pub const PROVIDES_SAMPLES: u32 = 256;

/// Whether a sample has to be handed to the encoder for its output, given the
/// flags of its output stream.
pub fn needs_output_sample(flags: u32) -> (needed: bool)
    ensures
        needed == (flags & PROVIDES_SAMPLES == 0),
{
    flags & PROVIDES_SAMPLES == 0
}

/// Whether the encoder is drained again at the end of a session, after `rounds`
/// rounds of which the last gave `last_batch` frames.
pub fn flush_continues(rounds: u32, last_batch: usize) -> (again: bool)
    ensures
        again == (rounds < MAX_FLUSH_ROUNDS && last_batch > 0),
{
    rounds < MAX_FLUSH_ROUNDS && last_batch > 0
}

/// What an encoder has to do is tried once: a call that fails ends the setup, and a
/// call that succeeds leads to the next, from the first encoder that is found to one
/// that is ready.
pub proof fn required_calls_must_succeed(step: SetupStep, event: SetupEvent)
    requires
        step == SetupStep::Activate || step == SetupStep::SetOutputType || step is UseInputType
            || step is BeginStreaming || step is StartOfStream,
    ensures
        event != SetupEvent::Done <==> setup_after(step, event) == SetupStep::Failed(
            SetupError::CallFailed,
        ),
        step is BeginStreaming && event == SetupEvent::Done ==> setup_after(step, event)
            is StartOfStream,
        step is StartOfStream && event == SetupEvent::Done ==> setup_after(step, event) is Ready,
{
}

/// Hardware goes before software, and any encoder will do: only where neither has
/// one there is none.
pub proof fn hardware_goes_before_software(count: u32)
    ensures
        setup_after(SetupStep::FindHardware, SetupEvent::Found(count)) == if count > 0 {
            SetupStep::Activate
        } else {
            SetupStep::FindSoftware
        },
        setup_after(SetupStep::FindSoftware, SetupEvent::Found(count)) == if count > 0 {
            SetupStep::Activate
        } else {
            SetupStep::Failed(SetupError::NoEncoder)
        },
        forall|step: SetupStep, event: SetupEvent| #[trigger]
            setup_after(step, event) == SetupStep::Failed(SetupError::NoEncoder) && step !is Failed
                ==> step == SetupStep::FindSoftware && event == SetupEvent::Found(0),
{
}

/// Pictures are handed over in memory if and only if the encoder has refused those
/// on the device, and takes a type of its own in their place. It is asked for twenty
/// types, in turn, until one is NV12; that one is used.
pub proof fn pictures_stay_on_the_device_where_they_can(
    step: SetupStep,
    event: SetupEvent,
    asked: u32,
)
    ensures
        setup_after(SetupStep::SetInputType, SetupEvent::Done) == (SetupStep::BeginStreaming {
            cpu_input: false,
        }),
        event != SetupEvent::Done ==> setup_after(SetupStep::SetInputType, event)
            == SetupStep::AskInputType(0),
        setup_after(SetupStep::AskInputType(asked), SetupEvent::InputType { nv12: true })
            == SetupStep::UseInputType(asked),
        setup_after(SetupStep::AskInputType(asked), SetupEvent::InputType { nv12: false })
            == if asked + 1 < 20 {
            SetupStep::AskInputType((asked + 1) as u32)
        } else {
            SetupStep::Failed(SetupError::NoNv12Input)
        },
        setup_after(SetupStep::UseInputType(asked), SetupEvent::Done)
            == (SetupStep::BeginStreaming { cpu_input: true }),
        setup_after(step, event) matches SetupStep::StartOfStream { cpu_input } ==> step
            == (SetupStep::BeginStreaming { cpu_input }),
        setup_after(step, event) matches SetupStep::Ready { cpu_input } ==> step
            == (SetupStep::StartOfStream { cpu_input }) || step == (SetupStep::Ready { cpu_input }),
{
}

/// The steps of a setup in which nothing is refused, with so many encoders in
/// hardware.
pub open spec fn smooth_setup(count: u32, steps: nat) -> SetupStep
    decreases steps,
{
    if steps == 0 {
        SetupStep::FindHardware
    } else {
        let event = if steps == 1 {
            SetupEvent::Found(count)
        } else {
            SetupEvent::Done
        };
        setup_after(smooth_setup(count, (steps - 1) as nat), event)
    }
}

/// A setup in which nothing is refused leads in nine steps to an encoder that is
/// ready for pictures on the device, through each step in its turn.
pub proof fn smooth_setups_are_ready(count: u32)
    requires
        count > 0,
    ensures
        smooth_setup(count, 3) == SetupStep::SetOutputType,
        smooth_setup(count, 5) == SetupStep::SetRateControl,
        smooth_setup(count, 9) == (SetupStep::Ready { cpu_input: false }),
{
    reveal_with_fuel(smooth_setup, 10);
}

/// A picture that the encoder does not accept is offered once more, after room was
/// made, and no more often; one that is accepted is never offered again.
pub proof fn pictures_are_offered_twice_at_most(step: EncodeStep, ok: bool)
    ensures
        encode_after(EncodeStep::Submit, false) == EncodeStep::DrainFirst,
        encode_after(EncodeStep::DrainFirst, true) == EncodeStep::Resubmit,
        encode_after(EncodeStep::Resubmit, false) == EncodeStep::Failed,
        encode_after(EncodeStep::Submit, true) == EncodeStep::Drain,
        encode_after(EncodeStep::Resubmit, true) == EncodeStep::Drain,
        encode_after(EncodeStep::Drain, true) == EncodeStep::Done,
        encode_after(step, ok) == EncodeStep::Resubmit ==> step == EncodeStep::DrainFirst && ok,
        encode_after(step, ok) != EncodeStep::Submit,
        encode_after(step, false) == EncodeStep::Failed || step == EncodeStep::Submit || step
            == EncodeStep::Done,
{
}

/// Video is encoded in the profile High at level 4.2, at a constant bitrate, with a
/// keyframe every two seconds.
pub proof fn video_has_the_usual_format()
    ensures
        PROFILE_HIGH == 100,
        LEVEL_4_2 == 42,
        RATE_CONTROL_CBR == 0,
        GOP_SECONDS == 2,
{
}

} // verus!
