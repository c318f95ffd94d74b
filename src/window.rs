//! The window runtime's decisions: what each window event leads to, and how a
//! finished canvas is handed to the window surface.
use vstd::prelude::*;

verus! {

/// A canvas pixel read as a little-endian word (red in the low byte) turned
/// into the surface's 0x00RRGGBB form; alpha is dropped.
pub open spec fn surface_pixel(px: u32) -> u32 {
    ((px % 0x100) * 0x10000 + ((px / 0x100) % 0x100) * 0x100 + (px / 0x10000) % 0x100) as u32
}

/// Converts one canvas pixel for the window surface.
pub fn to_surface_pixel(px: u32) -> (r: u32)
    ensures
        r == surface_pixel(px),
{
    let r = px % 0x100;
    let g = (px / 0x100) % 0x100;
    let b = (px / 0x10000) % 0x100;
    r * 0x10000 + g * 0x100 + b
}

/// Converts the first `n` canvas pixels into the surface buffer; the rest of
/// the surface is left alone.
pub fn convert_frame(src: &[u32], dst: &mut [u32], n: usize)
    requires
        n <= src@.len(),
        n <= old(dst)@.len(),
    ensures
        final(dst)@.len() == old(dst)@.len(),
        forall|i: int| 0 <= i < n ==> #[trigger] final(dst)@[i] == surface_pixel(src@[i]),
        forall|i: int| n <= i < old(dst)@.len() ==> #[trigger] final(dst)@[i] == old(dst)@[i],
{
    let mut i: usize = 0;
    while i < n
        invariant
            i <= n,
            n <= src@.len(),
            n <= old(dst)@.len(),
            dst@.len() == old(dst)@.len(),
            forall|k: int| 0 <= k < i ==> #[trigger] dst@[k] == surface_pixel(src@[k]),
            forall|k: int| n <= k < old(dst)@.len() ==> #[trigger] dst@[k] == old(dst)@[k],
        decreases n - i,
    {
        dst[i] = to_surface_pixel(src[i]);
        i += 1;
    }
}

/// The phase of a touch point.
#[derive(PartialEq, Eq, Structural, Clone, Copy, Debug)]
pub enum TouchStage {
    Started,
    Ended,
    Moved,
    Cancelled,
}

/// An event that the runtime received for one window.
#[derive(PartialEq, Eq, Structural, Clone, Copy, Debug)]
pub enum WindowInput {
    CloseRequested,
    /// A key went down or up; `escape` tells whether it is the Escape key.
    Key { escape: bool, pressed: bool },
    /// A frame is due; the sizes are the canvas dimensions the caller sees.
    RedrawRequested { width: u32, height: u32 },
    Resized { width: u32, height: u32 },
    CursorMoved,
    MouseButton { left: bool, pressed: bool },
    CursorLeft,
    Touch(TouchStage),
}

/// Which position a pointer report carries.
#[derive(PartialEq, Eq, Structural, Clone, Copy, Debug)]
pub enum PointerAt {
    /// The position that came with the event (a cursor move or a touch).
    Event,
    /// The last known cursor position.
    Cursor,
    /// The origin.
    Origin,
}

/// What the runtime does in answer to a window event.
#[derive(PartialEq, Eq, Structural, Clone, Copy, Debug)]
pub enum WindowAction {
    Close,
    /// Run the render callback and, if it does not ask to close, present.
    Render,
    /// Resize the surface and the caller's canvas dimensions, then redraw.
    Resize { width: u32, height: u32 },
    /// Report to the caller's event callback: `kind` 0 down, 1 up, 2 move,
    /// 3 leave or cancel.
    Pointer { kind: i32, at: PointerAt },
    Ignore,
}

/// A surface extent: never zero.
pub open spec fn extent(v: u32) -> u32 {
    if v == 0 { 1 } else { v }
}

/// The code reported for a touch phase.
pub open spec fn touch_kind(t: TouchStage) -> i32 {
    match t {
        TouchStage::Started => 0,
        TouchStage::Ended => 1,
        TouchStage::Moved => 2,
        TouchStage::Cancelled => 3,
    }
}

/// The answer to each window event: close on a close request or on Escape
/// pressed, render when a nonempty frame is due, resize to at least one pixel
/// each way, and report left-button, cursor and touch activity.
pub open spec fn window_action(input: WindowInput) -> WindowAction {
    match input {
        WindowInput::CloseRequested => WindowAction::Close,
        WindowInput::Key { escape, pressed } => if escape && pressed {
            WindowAction::Close
        } else {
            WindowAction::Ignore
        },
        WindowInput::RedrawRequested { width, height } => if width == 0 || height == 0 {
            WindowAction::Ignore
        } else {
            WindowAction::Render
        },
        WindowInput::Resized { width, height } => WindowAction::Resize {
            width: extent(width),
            height: extent(height),
        },
        WindowInput::CursorMoved => WindowAction::Pointer { kind: 2, at: PointerAt::Event },
        WindowInput::MouseButton { left, pressed } => if left {
            WindowAction::Pointer { kind: if pressed { 0 } else { 1 }, at: PointerAt::Cursor }
        } else {
            WindowAction::Ignore
        },
        WindowInput::CursorLeft => WindowAction::Pointer { kind: 3, at: PointerAt::Origin },
        WindowInput::Touch(t) => WindowAction::Pointer { kind: touch_kind(t), at: PointerAt::Event },
    }
}

/// A surface extent of at least one pixel.
pub fn surface_extent(v: u32) -> (r: u32)
    ensures
        r == extent(v),
{
    if v == 0 {
        1
    } else {
        v
    }
}

/// Decides what a window event leads to.
pub fn window_step(input: WindowInput) -> (r: WindowAction)
    ensures
        r == window_action(input),
{
    match input {
        WindowInput::CloseRequested => WindowAction::Close,
        WindowInput::Key { escape, pressed } => {
            if escape && pressed {
                WindowAction::Close
            } else {
                WindowAction::Ignore
            }
        },
        WindowInput::RedrawRequested { width, height } => {
            if width == 0 || height == 0 {
                WindowAction::Ignore
            } else {
                WindowAction::Render
            }
        },
        WindowInput::Resized { width, height } => WindowAction::Resize {
            width: surface_extent(width),
            height: surface_extent(height),
        },
        WindowInput::CursorMoved => WindowAction::Pointer { kind: 2, at: PointerAt::Event },
        WindowInput::MouseButton { left, pressed } => {
            if left {
                WindowAction::Pointer { kind: if pressed { 0 } else { 1 }, at: PointerAt::Cursor }
            } else {
                WindowAction::Ignore
            }
        },
        WindowInput::CursorLeft => WindowAction::Pointer { kind: 3, at: PointerAt::Origin },
        WindowInput::Touch(t) => {
            let kind = match t {
                TouchStage::Started => 0,
                TouchStage::Ended => 1,
                TouchStage::Moved => 2,
                TouchStage::Cancelled => 3,
            };
            WindowAction::Pointer { kind, at: PointerAt::Event }
        },
    }
}

/// Whether the render callback's answer closes the window: any nonzero value.
pub fn render_closes(signal: i32) -> (r: bool)
    ensures
        r == (signal != 0),
{
    signal != 0
}

} // verus!
