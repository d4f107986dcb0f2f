//! Hand-off of decoded frames to the window: the bounded queue between the
//! receiver and the renderer, and the fitting of a frame to the window.

use vstd::prelude::*;

verus! {

/// A frame ready for the window: one packed ARGB pixel for each pixel, row by
/// row.
#[derive(Debug)]
pub struct FrameBuffer {
    pub data: Vec<u32>,
    pub width: u32,
    pub height: u32,
}

/// A [`FrameBuffer`] as a mathematical value.
pub struct FrameView {
    pub data: Seq<u32>,
    pub width: u32,
    pub height: u32,
}

impl View for FrameBuffer {
    type V = FrameView;

    open spec fn view(&self) -> FrameView {
        FrameView { data: self.data@, width: self.width, height: self.height }
    }
}

/// Pixel `d` of a window of `dst_w` by `dst_h` pixels once `frame` is drawn
/// over what the window showed, `shown`.
///
/// A frame with as many pixels as the window is copied as it is. Any other
/// is fitted by taking for each pixel of the window the nearest pixel of the
/// frame above and to the left; a pixel of the window for which the frame
/// has none keeps what it showed.
pub open spec fn drawn_pixel(frame: FrameView, shown: Seq<u32>, dst_w: int, dst_h: int, d: int) -> u32 {
    if frame.data.len() == shown.len() {
        frame.data[d]
    } else if 0 <= d < dst_w * dst_h {
        let x = d % dst_w;
        let y = d / dst_w;
        let src = (y * frame.height / dst_h) * frame.width + x * frame.width / dst_w;
        if src < frame.data.len() {
            frame.data[src]
        } else {
            shown[d]
        }
    } else {
        shown[d]
    }
}

/// The window once `frame` is drawn over what it showed.
pub open spec fn drawn(frame: FrameView, shown: Seq<u32>, dst_w: int, dst_h: int) -> Seq<u32> {
    Seq::new(shown.len(), |d: int| drawn_pixel(frame, shown, dst_w, dst_h, d))
}

/// Draws a frame into the pixels of a window `dst_w` wide and `dst_h` high.
pub fn draw_frame(frame: &FrameBuffer, window: &mut Vec<u32>, dst_w: u32, dst_h: u32)
    ensures
        final(window)@ == drawn(frame@, old(window)@, dst_w as int, dst_h as int),
{
    let len: usize = window.len();
    let ghost shown = window@;
    if frame.data.len() == len {
        let mut d: usize = 0;
        while d < len
            invariant
                d <= len,
                len == window.len(),
                len == frame.data.len(),
                len == shown.len(),
                forall|k: int| 0 <= k < d ==> window@[k] == frame.data@[k],
            decreases len - d,
        {
            window.set(d, frame.data[d]);
            d = d + 1;
        }
        assert(window@ =~= drawn(frame@, shown, dst_w as int, dst_h as int));
        return ;
    }
    if dst_w == 0 || dst_h == 0 {
        assert(dst_w * dst_h == 0) by (nonlinear_arith)
            requires
                dst_w == 0 || dst_h == 0,
        ;
        assert(window@ =~= drawn(frame@, shown, dst_w as int, dst_h as int));
        return ;
    }
    assert(0 <= dst_w * dst_h <= u64::MAX) by (nonlinear_arith)
        requires
            0 <= dst_w <= u32::MAX,
            0 <= dst_h <= u32::MAX,
    ;
    let pixels: u64 = dst_w as u64 * dst_h as u64;
    let end: usize = if pixels < len as u64 {
        pixels as usize
    } else {
        len
    };
    let src_w: u64 = frame.width as u64;
    let src_h: u64 = frame.height as u64;
    let held: usize = frame.data.len();
    let mut d: usize = 0;
    while d < end
        invariant
            d <= end <= len,
            end <= dst_w * dst_h,
            len == window.len(),
            len == shown.len(),
            held == frame.data.len(),
            held != len,
            dst_w > 0,
            dst_h > 0,
            src_w == frame.width,
            src_h == frame.height,
            forall|k: int|
                0 <= k < d ==> window@[k] == drawn_pixel(
                    frame@,
                    shown,
                    dst_w as int,
                    dst_h as int,
                    k,
                ),
            forall|k: int| d <= k < len ==> window@[k] == shown[k],
        decreases end - d,
    {
        let x: u64 = d as u64 % dst_w as u64;
        let y: u64 = d as u64 / dst_w as u64;
        assert(y < dst_h) by (nonlinear_arith)
            requires
                y == (d as int) / (dst_w as int),
                d < dst_w * dst_h,
                dst_w > 0,
        ;
        assert(x * src_w <= u64::MAX && y * src_h <= u64::MAX) by (nonlinear_arith)
            requires
                0 <= x <= u32::MAX,
                0 <= y <= u32::MAX,
                0 <= src_w <= u32::MAX,
                0 <= src_h <= u32::MAX,
        ;
        let src_x: u64 = x * src_w / dst_w as u64;
        let src_y: u64 = y * src_h / dst_h as u64;
        assert(src_y * src_w + src_x <= u64::MAX) by (nonlinear_arith)
            requires
                src_y == (y * src_h) / (dst_h as int),
                src_x == (x * src_w) / (dst_w as int),
                0 <= x < dst_w,
                0 <= y < dst_h,
                0 <= src_w <= u32::MAX,
                0 <= src_h <= u32::MAX,
                0 < dst_w <= u32::MAX,
                0 < dst_h <= u32::MAX,
        ;
        let src: u64 = src_y * src_w + src_x;
        if src < held as u64 {
            window.set(d, frame.data[src as usize]);
        }
        d = d + 1;
    }
    assert(window@ =~= drawn(frame@, shown, dst_w as int, dst_h as int));
}

/// Most frames that wait for the window at one time.
pub const RENDER_QUEUE_CAPACITY: usize = 2;

/// The frames that wait for the window, oldest first. It holds two frames
/// at most: a third pushes the oldest out, so that the window never lags by
/// more than two frames.
pub struct RenderQueue {
    frames: Vec<FrameBuffer>,
}

/// The views of a list of frames.
pub open spec fn frame_views(frames: Seq<FrameBuffer>) -> Seq<FrameView> {
    Seq::new(frames.len(), |i: int| frames[i]@)
}

/// The view of a frame, if one is given.
pub open spec fn optional_frame(frame: Option<FrameBuffer>) -> Option<FrameView> {
    match frame {
        Some(f) => Some(f@),
        None => None,
    }
}

impl View for RenderQueue {
    type V = Seq<FrameView>;

    closed spec fn view(&self) -> Seq<FrameView> {
        frame_views(self.frames@)
    }
}

impl RenderQueue {
    /// The queue holds no more than its capacity.
    pub open spec fn wf(&self) -> bool {
        self@.len() <= 2
    }

    pub fn new() -> (queue: Self)
        ensures
            queue@.len() == 0,
            queue.wf(),
    {
        RenderQueue { frames: Vec::new() }
    }

    pub fn len(&self) -> (len: usize)
        ensures
            len == self@.len(),
    {
        self.frames.len()
    }

    /// Puts a frame at the end. Where the queue is full the oldest frame
    /// leaves it and is handed back.
    pub fn push(&mut self, frame: FrameBuffer) -> (dropped: Option<FrameBuffer>)
        requires
            old(self).wf(),
        ensures
            final(self).wf(),
            old(self)@.len() < 2 ==> dropped is None && final(self)@ == old(self)@.push(frame@),
            old(self)@.len() == 2 ==> optional_frame(dropped) == Some(old(self)@[0])
                && final(self)@ == seq![old(self)@[1], frame@],
    {
        let ghost before = self@;
        let dropped: Option<FrameBuffer> = if self.frames.len() >= RENDER_QUEUE_CAPACITY {
            Some(self.frames.remove(0))
        } else {
            None
        };
        self.frames.push(frame);
        proof {
            if before.len() < 2 {
                assert(self@ =~= before.push(frame@));
            } else {
                assert(self@ =~= seq![before[1], frame@]);
            }
        }
        dropped
    }

    /// Empties the queue and hands out the newest frame, if there was one:
    /// frames that waited behind it are stale and dropped.
    pub fn take_latest(&mut self) -> (latest: Option<FrameBuffer>)
        ensures
            final(self)@.len() == 0,
            final(self).wf(),
            optional_frame(latest) == if old(self)@.len() > 0 {
                Some(old(self)@.last())
            } else {
                None
            },
    {
        let latest: Option<FrameBuffer> = self.frames.pop();
        self.frames.clear();
        latest
    }
}

} // verus!
