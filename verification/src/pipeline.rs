//! Decisions of the capture pipeline: which adapter it runs on, what size it
//! delivers, and when the captured window was resized.
use vstd::prelude::*;

use crate::recording::{CaptureOptions, CaptureReadyInfo};
use crate::source::Rect;

verus! {

/// Width of the recorded video.
pub const OUTPUT_WIDTH: u32 = 1920;

/// Height of the recorded video: 1080, rounded up to the blocks of the encoder.
pub const OUTPUT_HEIGHT: u32 = 1088;

/// Edge of the blocks that hardware encoders work on.
pub const BLOCK: u32 = 16;

/// The recorded video consists of whole blocks.
pub proof fn output_is_aligned()
    ensures
        OUTPUT_WIDTH % BLOCK == 0,
        OUTPUT_HEIGHT % BLOCK == 0,
{
}

/// Whether an adapter drives a monitor. An output whose monitor is not known
/// is `None`.
pub open spec fn drives(outputs: Seq<Option<usize>>, monitor: usize) -> bool {
    outputs.contains(Some(monitor))
}

/// Whether an adapter drives a monitor.
fn has_monitor(outputs: &Vec<Option<usize>>, monitor: usize) -> (found: bool)
    ensures
        found == drives(outputs@, monitor),
{
    let mut i: usize = 0;
    while i < outputs.len()
        invariant
            i <= outputs@.len(),
            forall|j: int| 0 <= j < i ==> outputs@[j] != Some(monitor),
        decreases outputs@.len() - i,
    {
        if let Some(m) = outputs[i] {
            if m == monitor {
                assert(outputs@[i as int] == Some(monitor));
                return true;
            }
        }
        i += 1;
    }
    false
}

/// The first adapter that drives `monitor`. For each adapter, `adapters` has
/// the monitors of its outputs.
pub fn find_adapter_for_monitor(adapters: &Vec<Vec<Option<usize>>>, monitor: usize) -> (found:
    Option<usize>)
    ensures
        match found {
            Some(i) => {
                &&& i < adapters@.len()
                &&& drives(adapters@[i as int]@, monitor)
                &&& forall|j: int| 0 <= j < i ==> !drives((#[trigger] adapters@[j])@, monitor)
            },
            None => forall|j: int|
                0 <= j < adapters@.len() ==> !drives((#[trigger] adapters@[j])@, monitor),
        },
{
    let mut i: usize = 0;
    while i < adapters.len()
        invariant
            i <= adapters@.len(),
            forall|j: int| 0 <= j < i ==> !drives((#[trigger] adapters@[j])@, monitor),
        decreases adapters@.len() - i,
    {
        if has_monitor(&adapters[i], monitor) {
            return Some(i);
        }
        i += 1;
    }
    None
}

/// How a device is created.
#[derive(Debug, Clone, Copy, PartialEq, Eq, Structural)]
pub enum DriverType {
    /// On the adapter that was chosen, whatever its type.
    Unknown,
    /// On the default hardware adapter.
    Hardware,
}

/// How the device is created, given whether an adapter was found.
pub fn driver_type(adapter_found: bool) -> (driver: DriverType)
    ensures
        driver == if adapter_found {
            DriverType::Unknown
        } else {
            DriverType::Hardware
        },
{
    if adapter_found {
        DriverType::Unknown
    } else {
        DriverType::Hardware
    }
}

/// The size of a picture.
#[derive(Debug, Clone, Copy, PartialEq, Eq, Structural)]
pub struct Size {
    pub width: u32,
    pub height: u32,
}

/// Whether content of size `new` asks for new frames in place of frames of size
/// `current`. An extent of 0, that of a minimised window, is no change.
pub fn is_resized(current: Size, new: Size) -> (resized: bool)
    ensures
        resized == ((new.width != current.width && new.width > 0) || (new.height != current.height
            && new.height > 0)),
{
    (new.width != current.width && new.width > 0) || (new.height != current.height && new.height
        > 0)
}

/// The size that the converter goes on with, where it has to be made anew for
/// content of size `new`.
pub fn update_source_size(current: Size, new: Size) -> (recreate: Option<Size>)
    ensures
        recreate == if new == current {
            None
        } else {
            Some(new)
        },
{
    if new.width == current.width && new.height == current.height {
        None
    } else {
        Some(new)
    }
}

/// How pictures are converted: their size before and after, and the rectangles
/// that are pinned so that no driver crops them.
#[derive(Debug, Clone, Copy, PartialEq, Eq, Structural)]
pub struct ConverterPlan {
    pub input: Size,
    pub output: Size,
    pub source: Rect,
    pub dest: Rect,
    /// Frames per second.
    pub frame_rate: u32,
}

/// The frame rate that pictures are converted at.
pub const CONVERTER_RATE: u32 = 60;

/// The rectangle of a whole picture.
pub open spec fn whole(size: Size) -> Rect {
    Rect { left: 0, top: 0, right: size.width as i32, bottom: size.height as i32 }
}

/// How pictures of the given size are converted: all of them to all of the
/// recorded picture.
pub fn converter_plan(input: Size) -> (plan: ConverterPlan)
    requires
        input.width <= i32::MAX,
        input.height <= i32::MAX,
    ensures
        plan.input == input,
        plan.output == (Size { width: OUTPUT_WIDTH, height: OUTPUT_HEIGHT }),
        plan.source == whole(plan.input),
        plan.dest == whole(plan.output),
        plan.frame_rate == CONVERTER_RATE,
{
    ConverterPlan {
        input,
        output: Size { width: OUTPUT_WIDTH, height: OUTPUT_HEIGHT },
        source: Rect { left: 0, top: 0, right: input.width as i32, bottom: input.height as i32 },
        dest: Rect {
            left: 0,
            top: 0,
            right: OUTPUT_WIDTH as i32,
            bottom: OUTPUT_HEIGHT as i32,
        },
        frame_rate: CONVERTER_RATE,
    }
}

/// What a capture reports once its pipeline runs.
pub fn ready_info(options: &CaptureOptions) -> (info: CaptureReadyInfo)
    ensures
        info.width == OUTPUT_WIDTH,
        info.height == OUTPUT_HEIGHT,
        info.fps == options.fps,
        info.segment_dir@ == options.segment_dir@,
{
    CaptureReadyInfo {
        width: OUTPUT_WIDTH,
        height: OUTPUT_HEIGHT,
        fps: options.fps,
        segment_dir: options.segment_dir.clone(),
    }
}

/// The size of the primary screen, as the system reports it. Where it reports
/// none, 1920 by 1080.
pub fn get_screen_size(width: u32, height: u32) -> (size: Size)
    ensures
        size == if width > 0 && height > 0 {
            Size { width, height }
        } else {
            Size { width: 1920, height: 1080 }
        },
{
    if width > 0 && height > 0 {
        Size { width, height }
    } else {
        Size { width: 1920, height: 1080 }
    }
}

/// A whole picture starts at its upper left corner and is as wide and as high as it
/// is. The recorded picture is 1920 by 1088.
pub proof fn whole_pictures_are_converted(size: Size)
    requires
        size.width <= i32::MAX,
        size.height <= i32::MAX,
    ensures
        whole(size).left == 0,
        whole(size).top == 0,
        whole(size).right == size.width,
        whole(size).bottom == size.height,
        OUTPUT_WIDTH == 1920,
        OUTPUT_HEIGHT == 1088,
{
}

/// An adapter drives a monitor if and only if one of its outputs is that monitor.
pub proof fn adapters_drive_the_monitors_of_their_outputs(
    outputs: Seq<Option<usize>>,
    monitor: usize,
)
    ensures
        drives(outputs, monitor) <==> exists|i: int|
            0 <= i < outputs.len() && #[trigger] outputs[i] == Some(monitor),
{
}

} // verus!
