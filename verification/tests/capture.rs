use clipsta::clock::{elapsed_ticks, AudioClock, FrameClock};
use clipsta::encoder::{
    encoded_frame, encoder_settings, flush_continues, needs_output_sample, next_encode_step,
    next_setup_step, EncodeStep, SetupError, SetupEvent, SetupStep,
};
use clipsta::media_type::{pack_u64, unpack_u64};
use clipsta::nal::{is_keyframe, is_nalu_keyframe};
use clipsta::nv12::{fill_black, pack_planes};
use clipsta::pcm::pcm_bytes;
use clipsta::pipeline::{
    converter_plan, driver_type, find_adapter_for_monitor, get_screen_size, is_resized,
    ready_info, update_source_size, DriverType, Size,
};
use clipsta::recording::CaptureOptions;

#[test]
fn two_numbers_pack_and_unpack() {
    assert_eq!(pack_u64(1920, 1088), 0x0000_0780_0000_0440);
    assert_eq!(unpack_u64(0x0000_0780_0000_0440), (1920, 1088));
    assert_eq!(unpack_u64(pack_u64(u32::MAX, 0)), (u32::MAX, 0));
}

#[test]
fn keyframes_are_told_by_their_units() {
    assert!(is_nalu_keyframe(&[0, 0, 0, 1, 0x65]));
    assert!(is_nalu_keyframe(&[0, 0, 0, 1, 0x67]));
    assert!(is_nalu_keyframe(&[0, 0, 1, 0x25, 9]));
    assert!(!is_nalu_keyframe(&[0, 0, 0, 1, 0x41]));
    assert!(is_nalu_keyframe(&[0, 0, 0, 1, 0x09, 0x10, 0, 0, 0, 1, 0x67, 1]));
    assert!(!is_nalu_keyframe(&[9, 9, 9, 9, 9, 9]));
}

#[test]
fn a_start_code_near_the_end_does_not_count() {
    assert!(!is_nalu_keyframe(&[]));
    assert!(!is_nalu_keyframe(&[0, 0, 1, 0x65]));
    assert!(!is_nalu_keyframe(&[9, 0, 0, 1, 0x65]));
    assert!(is_nalu_keyframe(&[9, 0, 0, 1, 0x65, 0]));
}

#[test]
fn a_marked_sample_is_a_keyframe() {
    assert!(is_keyframe(&[0, 0, 0, 1, 0x41], true));
    assert!(!is_keyframe(&[0, 0, 0, 1, 0x41], false));
    assert!(is_keyframe(&[0, 0, 0, 1, 0x65], false));
    let frame = encoded_frame(vec![0, 0, 0, 1, 0x65], Some(7), None, false);
    assert!(frame.is_keyframe);
    assert_eq!(frame.pts_100ns, 7);
    assert_eq!(frame.duration_100ns, 0);
}

#[test]
fn pictures_are_filled_with_black() {
    let mut picture = vec![9u8; 4 * 6];
    fill_black(&mut picture, 4, 2, 4);
    assert_eq!(
        picture,
        vec![
            16, 16, 9, 9, 16, 16, 9, 9, 16, 16, 9, 9, 16, 16, 9, 9, 128, 128, 9, 9, 128, 128, 9, 9
        ]
    );
}

#[test]
fn planes_are_packed_without_padding() {
    let source: Vec<u8> = vec![1, 2, 0, 3, 4, 0, 5, 6, 0];
    assert_eq!(pack_planes(&source, 3, 2, 2), vec![1, 2, 3, 4, 5, 6]);
}

#[test]
fn samples_become_little_endian_bytes() {
    assert_eq!(pcm_bytes(&[0x1234, -1, 0, i16::MIN]), vec![0x34, 0x12, 255, 255, 0, 0, 0, 0x80]);
}

#[test]
fn frames_are_stamped_by_the_wall_clock() {
    let mut clock = FrameClock::new(60);
    let first = clock.stamp(0);
    assert_eq!(first.timing.pts_100ns, 0);
    assert_eq!(first.timing.duration_100ns, 166_666);
    assert_eq!(first.picture, 0);
    let second = clock.stamp(170_000);
    assert_eq!(second.timing.pts_100ns, 170_000);
    assert_eq!(second.timing.duration_100ns, 166_667);
    assert_eq!(second.picture, 1);
    clock.stamp(3);
    clock.stamp(4);
    assert_eq!(clock.stamp(5).picture, 0);
}

#[test]
fn frame_durations_add_up() {
    let mut clock = FrameClock::new(60);
    let total: i64 = (0..60).map(|i| clock.stamp(i).timing.duration_100ns).sum();
    assert_eq!(total, 10_000_000);
}

#[test]
fn audio_is_stamped_by_its_samples() {
    let mut clock = AudioClock::new();
    let first = clock.stamp(960);
    assert_eq!(first.pts_100ns, 0);
    assert_eq!(first.duration_100ns, 100_000);
    let second = clock.stamp(961);
    assert_eq!(second.pts_100ns, 100_000);
    assert_eq!(clock.samples, 960);
    assert_eq!(clock.stamp(2).pts_100ns, 200_000);
    let limit = i64::MAX as u64 / 10_000_000;
    let mut late = AudioClock { samples: limit };
    assert_eq!(late.stamp(960).duration_100ns, 100_000);
    assert_eq!(late.samples, limit + 480);
}

#[test]
fn elapsed_time_is_counted_in_ticks() {
    assert_eq!(elapsed_ticks(2, 500_000_099), 25_000_000);
}

#[test]
fn settings_of_the_encoder() {
    let settings = encoder_settings(1920, 1088, 60, 8000);
    assert_eq!(settings.mean_bitrate, 8_000_000);
    assert_eq!(settings.vbv_buffer_size, 16_000_000);
    assert_eq!(settings.rate_control_mode, 0);
    assert_eq!(settings.gop_size, 120);
    assert_eq!(settings.profile, 100);
    assert_eq!(settings.level, 42);
    assert!(settings.low_latency);
    assert_eq!(settings.frame_size, pack_u64(1920, 1088));
}

#[test]
fn setup_of_a_hardware_encoder() {
    let mut step = SetupStep::FindHardware;
    let mut steps = vec![];
    for event in [
        SetupEvent::Found(2),
        SetupEvent::Done,
        SetupEvent::Refused,
        SetupEvent::Done,
        SetupEvent::Refused,
        SetupEvent::Refused,
        SetupEvent::Done,
        SetupEvent::Done,
        SetupEvent::Done,
    ] {
        step = next_setup_step(step, event);
        steps.push(step);
    }
    assert_eq!(
        steps,
        vec![
            SetupStep::Activate,
            SetupStep::UnlockAsync,
            SetupStep::SetOutputType,
            SetupStep::SetDeviceManager,
            SetupStep::SetRateControl,
            SetupStep::SetInputType,
            SetupStep::BeginStreaming { cpu_input: false },
            SetupStep::StartOfStream { cpu_input: false },
            SetupStep::Ready { cpu_input: false },
        ]
    );
}

#[test]
fn setup_falls_back_to_software_and_memory() {
    assert_eq!(
        next_setup_step(SetupStep::FindHardware, SetupEvent::Found(0)),
        SetupStep::FindSoftware
    );
    assert_eq!(
        next_setup_step(SetupStep::SetInputType, SetupEvent::Refused),
        SetupStep::AskInputType(0)
    );
    assert_eq!(
        next_setup_step(SetupStep::AskInputType(0), SetupEvent::InputType { nv12: false }),
        SetupStep::AskInputType(1)
    );
    assert_eq!(
        next_setup_step(SetupStep::AskInputType(1), SetupEvent::InputType { nv12: true }),
        SetupStep::UseInputType(1)
    );
    assert_eq!(
        next_setup_step(SetupStep::UseInputType(1), SetupEvent::Done),
        SetupStep::BeginStreaming { cpu_input: true }
    );
}

#[test]
fn setup_errors() {
    assert_eq!(
        next_setup_step(SetupStep::FindSoftware, SetupEvent::Found(0)),
        SetupStep::Failed(SetupError::NoEncoder)
    );
    assert_eq!(
        next_setup_step(SetupStep::AskInputType(19), SetupEvent::InputType { nv12: false }),
        SetupStep::Failed(SetupError::NoNv12Input)
    );
    assert_eq!(
        next_setup_step(SetupStep::AskInputType(3), SetupEvent::Refused),
        SetupStep::Failed(SetupError::NoNv12Input)
    );
    assert_eq!(
        next_setup_step(SetupStep::SetDeviceManager, SetupEvent::NoManager),
        SetupStep::Failed(SetupError::CallFailed)
    );
    assert_eq!(
        next_setup_step(SetupStep::SetOutputType, SetupEvent::Refused),
        SetupStep::Failed(SetupError::CallFailed)
    );
}

#[test]
fn a_picture_that_is_not_accepted_is_handed_over_again() {
    let mut step = EncodeStep::Submit;
    let mut steps = vec![];
    for ok in [false, true, true, true] {
        step = next_encode_step(step, ok);
        steps.push(step);
    }
    assert_eq!(
        steps,
        vec![EncodeStep::DrainFirst, EncodeStep::Resubmit, EncodeStep::Drain, EncodeStep::Done]
    );
    assert_eq!(next_encode_step(EncodeStep::Submit, true), EncodeStep::Drain);
    assert_eq!(next_encode_step(EncodeStep::Resubmit, false), EncodeStep::Failed);
}

#[test]
fn an_encoder_is_flushed_until_it_is_empty() {
    assert!(flush_continues(1, 3));
    assert!(!flush_continues(1, 0));
    assert!(!flush_continues(100, 3));
    assert!(needs_output_sample(0));
    assert!(!needs_output_sample(256 | 1));
}

#[test]
fn the_adapter_of_a_monitor() {
    let adapters = vec![vec![None, Some(1)], vec![], vec![Some(2)], vec![Some(2)]];
    assert_eq!(find_adapter_for_monitor(&adapters, 2), Some(2));
    assert_eq!(find_adapter_for_monitor(&adapters, 1), Some(0));
    assert_eq!(find_adapter_for_monitor(&adapters, 9), None);
    assert_eq!(driver_type(true), DriverType::Unknown);
    assert_eq!(driver_type(false), DriverType::Hardware);
}

#[test]
fn resizing_of_the_captured_window() {
    let size = Size { width: 800, height: 600 };
    assert!(is_resized(size, Size { width: 801, height: 600 }));
    assert!(is_resized(size, Size { width: 0, height: 601 }));
    assert!(!is_resized(size, Size { width: 0, height: 0 }));
    assert!(!is_resized(size, size));
    assert_eq!(update_source_size(size, size), None);
    let new = Size { width: 1, height: 2 };
    assert_eq!(update_source_size(size, new), Some(new));
    assert_eq!(get_screen_size(0, 5), Size { width: 1920, height: 1080 });
    assert_eq!(get_screen_size(2560, 1440), Size { width: 2560, height: 1440 });
}

#[test]
fn pictures_are_converted_as_a_whole() {
    let plan = converter_plan(Size { width: 2560, height: 1440 });
    assert_eq!((plan.source.right, plan.source.bottom), (2560, 1440));
    assert_eq!((plan.dest.right, plan.dest.bottom), (1920, 1088));
    assert_eq!((plan.source.left, plan.dest.top), (0, 0));
    assert_eq!(plan.frame_rate, 60);
    let info = ready_info(&CaptureOptions {
        source_id: None,
        fps: 30,
        no_audio: false,
        no_mic: false,
        mic_device: None,
        loopback_device: None,
        target_width: Some(5),
        target_height: None,
        bitrate_kbps: 1,
        segment_duration: 3,
        buffer_duration: 30,
        segment_dir: "dir".to_string(),
    });
    assert_eq!((info.width, info.height, info.fps), (1920, 1088, 30));
    assert_eq!(info.segment_dir, "dir");
}
