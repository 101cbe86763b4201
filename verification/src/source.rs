//! The monitors and windows that can be captured, and the names by which they
//! are asked for.
use vstd::prelude::*;

use crate::number::{decimal, decimal_reads_back, parse_number, parsed, push_decimal, NumberError};
use crate::text::{begins_with, parts_stand_between_texts, trim, trimmed, without_prefix};

verus! {

/// Windows that are narrower or lower than this cannot be captured.
pub const MIN_WINDOW_EXTENT: i32 = 150;

/// A monitor or window that can be captured.
#[derive(Debug, Clone)]
pub struct SourceInfo {
    pub id: String,
    pub name: String,
    pub source_type: String,
    pub width: i32,
    pub height: i32,
}

/// A rectangle on the screen.
#[derive(Debug, Clone, Copy, PartialEq, Eq, Structural)]
pub struct Rect {
    pub left: i32,
    pub top: i32,
    pub right: i32,
    pub bottom: i32,
}

impl Rect {
    /// The extent of the rectangle is in range.
    pub open spec fn fits(self) -> bool {
        &&& i32::MIN <= self.right - self.left <= i32::MAX
        &&& i32::MIN <= self.bottom - self.top <= i32::MAX
    }

    /// Whether the extent of the rectangle is in range.
    pub fn is_in_range(&self) -> (fits: bool)
        ensures
            fits == self.fits(),
    {
        let width: i64 = self.right as i64 - self.left as i64;
        let height: i64 = self.bottom as i64 - self.top as i64;
        i32::MIN as i64 <= width && width <= i32::MAX as i64 && i32::MIN as i64 <= height && height
            <= i32::MAX as i64
    }
}

/// The id of a source: its kind, and its handle as a number.
pub open spec fn source_id(kind: Seq<char>, handle: usize) -> Seq<char> {
    kind + decimal(handle as nat)
}

/// The id of a source.
fn make_id(kind: &str, handle: usize) -> (id: String)
    ensures
        id@ == source_id(kind@, handle),
{
    let mut id = kind.to_owned();
    push_decimal(&mut id, handle as u64);
    id
}

/// The source that a monitor is.
pub fn monitor_source(handle: usize, device: &str, area: Rect) -> (source: SourceInfo)
    requires
        area.fits(),
    ensures
        source.id@ == source_id("monitor:"@, handle),
        source.name@ == "Display "@ + trimmed(device@),
        source.source_type@ == "monitor"@,
        source.width == area.right - area.left,
        source.height == area.bottom - area.top,
{
    let mut name = "Display ".to_owned();
    name.append(trim(device).as_str());
    SourceInfo {
        id: make_id("monitor:", handle),
        name,
        source_type: "monitor".to_owned(),
        width: area.right - area.left,
        height: area.bottom - area.top,
    }
}

/// The source that a window is. Windows that are hidden, have no title or are
/// too small are none.
pub fn window_source(handle: usize, visible: bool, title: &str, area: Rect) -> (source: Option<
    SourceInfo,
>)
    requires
        visible && title@.len() > 0 ==> area.fits(),
    ensures
        source is Some <==> visible && title@.len() > 0 && area.right - area.left
            >= MIN_WINDOW_EXTENT && area.bottom - area.top >= MIN_WINDOW_EXTENT,
        source matches Some(s) ==> {
            &&& s.id@ == source_id("hwnd:"@, handle)
            &&& s.name@ == title@
            &&& s.source_type@ == "window"@
            &&& s.width == area.right - area.left
            &&& s.height == area.bottom - area.top
        },
{
    if !visible || title.is_empty() {
        return None;
    }
    let width: i32 = area.right - area.left;
    let height: i32 = area.bottom - area.top;
    if width < MIN_WINDOW_EXTENT || height < MIN_WINDOW_EXTENT {
        return None;
    }
    Some(
        SourceInfo {
            id: make_id("hwnd:", handle),
            name: title.to_owned(),
            source_type: "window".to_owned(),
            width,
            height,
        },
    )
}

/// What a [`SourceInfo`] says.
#[verifier::ext_equal]
pub struct Source {
    pub id: Seq<char>,
    pub name: Seq<char>,
    pub source_type: Seq<char>,
    pub width: int,
    pub height: int,
}

impl View for SourceInfo {
    type V = Source;

    open spec fn view(&self) -> Source {
        Source {
            id: self.id@,
            name: self.name@,
            source_type: self.source_type@,
            width: self.width as int,
            height: self.height as int,
        }
    }
}

/// What a list of sources says.
pub open spec fn sources(list: Seq<SourceInfo>) -> Seq<Source> {
    list.map_values(|s: SourceInfo| s@)
}

/// A monitor, as the system reports it.
#[derive(Debug, Clone)]
pub struct MonitorFacts {
    pub handle: usize,
    pub device: String,
    pub area: Rect,
}

/// A window, as the system reports it. A window without a title has an empty
/// one.
#[derive(Debug, Clone)]
pub struct WindowFacts {
    pub handle: usize,
    pub visible: bool,
    pub title: String,
    pub area: Rect,
}

/// The source that a monitor is.
pub open spec fn source_of_monitor(monitor: MonitorFacts) -> Source {
    Source {
        id: source_id("monitor:"@, monitor.handle),
        name: "Display "@ + trimmed(monitor.device@),
        source_type: "monitor"@,
        width: monitor.area.right - monitor.area.left,
        height: monitor.area.bottom - monitor.area.top,
    }
}

/// Whether a window can be captured.
pub open spec fn is_capturable(window: WindowFacts) -> bool {
    &&& window.visible
    &&& window.title@.len() > 0
    &&& window.area.right - window.area.left >= MIN_WINDOW_EXTENT
    &&& window.area.bottom - window.area.top >= MIN_WINDOW_EXTENT
}

/// The source that a window is.
pub open spec fn source_of_window(window: WindowFacts) -> Source {
    Source {
        id: source_id("hwnd:"@, window.handle),
        name: window.title@,
        source_type: "window"@,
        width: window.area.right - window.area.left,
        height: window.area.bottom - window.area.top,
    }
}

/// The sources that monitors are.
pub open spec fn monitor_sources(monitors: Seq<MonitorFacts>) -> Seq<Source> {
    monitors.map_values(|m: MonitorFacts| source_of_monitor(m))
}

/// The sources that windows are, as far as they can be captured.
pub open spec fn window_sources(windows: Seq<WindowFacts>) -> Seq<Source>
    decreases windows.len(),
{
    if windows.len() == 0 {
        Seq::empty()
    } else {
        let front = window_sources(windows.drop_last());
        if is_capturable(windows.last()) {
            front.push(source_of_window(windows.last()))
        } else {
            front
        }
    }
}

/// What can be captured: all monitors, then the windows, each in the order in
/// which the system reports them.
pub fn list_sources(monitors: &Vec<MonitorFacts>, windows: &Vec<WindowFacts>) -> (list: Vec<
    SourceInfo,
>)
    requires
        forall|i: int| 0 <= i < monitors@.len() ==> (#[trigger] monitors@[i]).area.fits(),
        forall|i: int|
            0 <= i < windows@.len() && (#[trigger] windows@[i]).visible && windows@[i].title@.len()
                > 0 ==> windows@[i].area.fits(),
    ensures
        sources(list@) == monitor_sources(monitors@) + window_sources(windows@),
{
    let ghost first = monitor_sources(monitors@);
    let mut list: Vec<SourceInfo> = Vec::new();
    let mut i: usize = 0;
    assert(sources(list@) =~= first.take(0));
    while i < monitors.len()
        invariant
            first == monitor_sources(monitors@),
            i <= monitors@.len(),
            forall|i: int| 0 <= i < monitors@.len() ==> (#[trigger] monitors@[i]).area.fits(),
            sources(list@) == first.take(i as int),
        decreases monitors@.len() - i,
    {
        let ghost before = sources(list@);
        let monitor = &monitors[i];
        list.push(monitor_source(monitor.handle, monitor.device.as_str(), monitor.area));
        assert(sources(list@) =~= before.push(list@.last()@));
        i += 1;
        assert(first.take(i as int) =~= first.take(i - 1).push(source_of_monitor(*monitor)));
    }
    assert(first.take(i as int) =~= first);
    let mut j: usize = 0;
    assert(first + window_sources(windows@.take(0)) =~= first);
    while j < windows.len()
        invariant
            j <= windows@.len(),
            forall|i: int|
                0 <= i < windows@.len() && (#[trigger] windows@[i]).visible
                    && windows@[i].title@.len() > 0 ==> windows@[i].area.fits(),
            sources(list@) == first + window_sources(windows@.take(j as int)),
        decreases windows@.len() - j,
    {
        let ghost before = sources(list@);
        let window = &windows[j];
        assert(windows@.take(j + 1).drop_last() =~= windows@.take(j as int));
        if let Some(source) = window_source(
            window.handle,
            window.visible,
            window.title.as_str(),
            window.area,
        ) {
            list.push(source);
            assert(sources(list@) =~= before.push(source_of_window(*window)));
        }
        j += 1;
        assert(sources(list@) =~= first + window_sources(windows@.take(j as int)));
    }
    assert(windows@.take(windows@.len() as int) =~= windows@);
    list
}

/// What is captured.
#[derive(Debug, Clone, Copy, PartialEq, Eq, Structural)]
pub enum CaptureTarget {
    /// The window with this handle.
    Window(usize),
    /// The monitor with this handle.
    Monitor(usize),
    /// The primary monitor.
    Primary,
}

/// Why an id names no target.
#[derive(Debug, Clone, Copy, PartialEq, Eq, Structural)]
pub enum TargetError {
    BadWindow(NumberError),
    BadMonitor(NumberError),
}

impl TargetError {
    /// What the error says.
    pub open spec fn says(self) -> Seq<char> {
        match self {
            TargetError::BadWindow(e) => "bad hwnd: "@ + e.says(),
            TargetError::BadMonitor(e) => "bad monitor: "@ + e.says(),
        }
    }

    /// What the error says.
    pub fn message(&self) -> (text: String)
        ensures
            text@ == self.says(),
    {
        match self {
            TargetError::BadWindow(e) => {
                let mut text = "bad hwnd: ".to_owned();
                text.append(e.message().as_str());
                text
            },
            TargetError::BadMonitor(e) => {
                let mut text = "bad monitor: ".to_owned();
                text.append(e.message().as_str());
                text
            },
        }
    }
}

/// The target that an id names. An id of no known kind, or none, names the
/// primary monitor.
pub open spec fn target_of(id: Option<Seq<char>>) -> Result<CaptureTarget, TargetError> {
    match id {
        None => Ok(CaptureTarget::Primary),
        Some(id) => if begins_with(id, "hwnd:"@) {
            match parsed(id.skip("hwnd:"@.len() as int), usize::MAX as int) {
                Ok(handle) => Ok(CaptureTarget::Window(handle as usize)),
                Err(e) => Err(TargetError::BadWindow(e)),
            }
        } else if begins_with(id, "monitor:"@) {
            match parsed(id.skip("monitor:"@.len() as int), usize::MAX as int) {
                Ok(handle) => Ok(CaptureTarget::Monitor(handle as usize)),
                Err(e) => Err(TargetError::BadMonitor(e)),
            }
        } else {
            Ok(CaptureTarget::Primary)
        },
    }
}

/// The target that an id names.
pub fn resolve_target(id: Option<&str>) -> (target: Result<CaptureTarget, TargetError>)
    ensures
        target == target_of(
            match id {
                Some(id) => Some(id@),
                None => None,
            },
        ),
{
    match id {
        None => Ok(CaptureTarget::Primary),
        Some(id) => if let Some(number) = without_prefix(id, "hwnd:") {
            match parse_number(number.as_str(), usize::MAX as u64) {
                Ok(handle) => Ok(CaptureTarget::Window(handle as usize)),
                Err(e) => Err(TargetError::BadWindow(e)),
            }
        } else if let Some(number) = without_prefix(id, "monitor:") {
            match parse_number(number.as_str(), usize::MAX as u64) {
                Ok(handle) => Ok(CaptureTarget::Monitor(handle as usize)),
                Err(e) => Err(TargetError::BadMonitor(e)),
            }
        } else {
            Ok(CaptureTarget::Primary)
        },
    }
}

/// Asking for the id of a listed window or monitor captures that window or
/// monitor.
pub proof fn listed_sources_can_be_captured(handle: usize)
    ensures
        target_of(Some(source_id("hwnd:"@, handle))) == Ok::<CaptureTarget, TargetError>(
            CaptureTarget::Window(handle),
        ),
        target_of(Some(source_id("monitor:"@, handle))) == Ok::<CaptureTarget, TargetError>(
            CaptureTarget::Monitor(handle),
        ),
{
    reveal_strlit("hwnd:");
    reveal_strlit("monitor:");
    let number = decimal(handle as nat);
    decimal_reads_back(handle as nat, usize::MAX as int);
    let window = source_id("hwnd:"@, handle);
    assert(window.subrange(0, 5) =~= "hwnd:"@);
    assert(window.skip(5) =~= number);
    let monitor = source_id("monitor:"@, handle);
    assert(monitor.subrange(0, 8) =~= "monitor:"@);
    assert(monitor.skip(8) =~= number);
    assert(!begins_with(monitor, "hwnd:"@)) by {
        assert(monitor.subrange(0, 5)[0] == 'm');
        assert("hwnd:"@[0] == 'h');
    }
}

/// A window is listed if and only if it is visible, has a title, and is at least
/// 150 pixels wide and high.
pub proof fn windows_are_listed_if_they_can_be_seen(window: WindowFacts)
    ensures
        is_capturable(window) <==> window.visible && window.title@.len() > 0 && window.area.right
            - window.area.left >= 150 && window.area.bottom - window.area.top >= 150,
{
}

/// What is listed of windows comes window by window: of one more window it is what
/// was listed before and then that window, where it can be captured, by its title
/// and with its extent. Asking for its id captures it.
pub proof fn windows_are_listed_in_turn(windows: Seq<WindowFacts>, window: WindowFacts)
    ensures
        window_sources(Seq::empty()).len() == 0,
        !is_capturable(window) ==> window_sources(windows.push(window)) == window_sources(windows),
        is_capturable(window) ==> {
            let list = window_sources(windows.push(window));
            &&& list.drop_last() == window_sources(windows)
            &&& list.len() == window_sources(windows).len() + 1
            &&& list.last().name == window.title@
            &&& list.last().width == window.area.right - window.area.left
            &&& list.last().height == window.area.bottom - window.area.top
            &&& target_of(Some(list.last().id)) == Ok::<CaptureTarget, TargetError>(
                CaptureTarget::Window(window.handle),
            )
        },
{
    assert(windows.push(window).drop_last() =~= windows);
    listed_sources_can_be_captured(window.handle);
    if is_capturable(window) {
        assert(window_sources(windows.push(window)).drop_last() =~= window_sources(windows));
    }
}

/// Every monitor is listed, in its place, with its extent; asking for its id
/// captures it.
pub proof fn monitors_are_all_listed(monitors: Seq<MonitorFacts>, i: int)
    requires
        0 <= i < monitors.len(),
    ensures
        monitor_sources(monitors).len() == monitors.len(),
        ({
            let source = monitor_sources(monitors)[i];
            let area = monitors[i].area;
            &&& source.name == "Display "@ + trimmed(monitors[i].device@)
            &&& source.width == area.right - area.left
            &&& source.height == area.bottom - area.top
            &&& target_of(Some(source.id)) == Ok::<CaptureTarget, TargetError>(
                CaptureTarget::Monitor(monitors[i].handle),
            )
        }),
{
    listed_sources_can_be_captured(monitors[i].handle);
}

/// Without an id, or with one of no known kind, the primary monitor is captured.
pub proof fn other_ids_name_the_primary_monitor(id: Seq<char>)
    requires
        forall|rest: Seq<char>| id != #[trigger] ("hwnd:"@ + rest),
        forall|rest: Seq<char>| id != #[trigger] ("monitor:"@ + rest),
    ensures
        target_of(None) == Ok::<CaptureTarget, TargetError>(CaptureTarget::Primary),
        target_of(Some(id)) == Ok::<CaptureTarget, TargetError>(CaptureTarget::Primary),
{
    parts_stand_between_texts(id, "hwnd:"@);
    parts_stand_between_texts(id, "monitor:"@);
}

/// A list of sources says what its sources say.
pub proof fn lists_say_what_their_sources_say(list: Seq<SourceInfo>, i: int)
    requires
        0 <= i < list.len(),
    ensures
        sources(list).len() == list.len(),
        sources(list)[i].id == list[i].id@,
        sources(list)[i].name == list[i].name@,
        sources(list)[i].source_type == list[i].source_type@,
        sources(list)[i].width == list[i].width,
        sources(list)[i].height == list[i].height,
{
}

} // verus!
