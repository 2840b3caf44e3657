//! Pixels on their way to the screen.
use crate::window::device::{is_landscape, DeviceOrientation};
use vstd::prelude::*;

verus! {

/// A picture of 4 bytes per pixel, in rows from the top.
pub struct Frame {
    pub pixels: Vec<u8>,
    pub w: usize,
    pub h: usize,
}

/// The size of the picture that a `w` by `h` frame is presented as.
pub open spec fn presented_size(orientation: DeviceOrientation, w: int, h: int) -> (int, int) {
    if orientation.is_landscape() {
        (h, w)
    } else {
        (w, h)
    }
}

/// The index of the pixel of a `w` by `h` frame that is presented at (`x`, `y`).
///
/// A frame comes with its bottom row first, so it is flipped vertically. In
/// landscape it is also rotated by a right angle, counter-clockwise. Upside down
/// it is rotated by two right angles, which with the flip comes to a horizontal
/// one.
pub open spec fn presented_from(orientation: DeviceOrientation, w: int, h: int, x: int, y: int) -> int {
    if orientation.is_landscape() {
        (h - 1 - x) * w + (w - 1 - y)
    } else if orientation is PortraitUpsideDown {
        y * w + (w - 1 - x)
    } else {
        (h - 1 - y) * w + x
    }
}

/// The index of the byte of a `w` by `h` frame that is presented as the byte `i`.
pub open spec fn presented_byte(orientation: DeviceOrientation, w: int, h: int, i: int) -> int {
    let out_w = presented_size(orientation, w, h).0;
    let p = i / 4;
    presented_from(orientation, w, h, p % out_w, p / out_w) * 4 + i % 4
}

/// Whether `out` is a `w` by `h` frame as it is presented.
pub open spec fn is_presented(
    orientation: DeviceOrientation,
    pixels: Seq<u8>,
    w: int,
    h: int,
    out: Seq<u8>,
) -> bool {
    &&& out.len() == w * h * 4
    &&& forall|i: int|
        0 <= i < out.len() ==> #[trigger] out[i] == pixels[presented_byte(orientation, w, h, i)]
}

/// The place of a pixel tells its column and its row.
proof fn lemma_column_and_row(w: int, x: int, y: int)
    requires
        0 <= x < w,
    ensures
        (y * w + x) % w == x,
        (y * w + x) / w == y,
{
    vstd::arithmetic::div_mod::lemma_fundamental_div_mod_converse(y * w + x, w, y, x);
}

/// A column and a row are the place of a pixel.
proof fn lemma_place(w: int, h: int, x: int, y: int)
    requires
        0 <= x < w,
        0 <= y < h,
    ensures
        0 <= y * w + x < w * h,
{
    assert(0 <= y * w + x < w * h) by (nonlinear_arith)
        requires
            0 <= x < w,
            0 <= y < h,
    ;
}

/// Turns a composited RGBA8 frame (origin bottom-left, as produced by
/// glReadPixels) into the picture to present. There is none where the frame is
/// empty or has too few pixels.
pub fn present_frame_to_calayer(
    orientation: DeviceOrientation,
    pixels: &Vec<u8>,
    w: u32,
    h: u32,
) -> (r: Option<Frame>)
    requires
        w * h * 4 <= usize::MAX,
    ensures
        match r {
            None => w * h == 0 || pixels@.len() < w * h * 4,
            Some(frame) => {
                &&& w * h > 0
                &&& pixels@.len() >= w * h * 4
                &&& (frame.w as int, frame.h as int) == presented_size(
                    orientation,
                    w as int,
                    h as int,
                )
                &&& is_presented(orientation, pixels@, w as int, h as int, frame.pixels@)
            },
        },
{
    let (w, h) = (w as usize, h as usize);
    proof {
        assert(w * h <= w * h * 4 && 0 <= w * h) by (nonlinear_arith)
            requires
                w >= 0,
                h >= 0,
        ;
    }
    let n: usize = w * h * 4;
    if n == 0 || pixels.len() < n {
        return None;
    }
    proof {
        assert(w > 0 && h > 0) by (nonlinear_arith)
            requires
                w * h > 0,
                w >= 0,
                h >= 0,
        ;
        assert(h * w == w * h) by (nonlinear_arith);
    }
    let landscape: bool = is_landscape(orientation);
    let upside_down: bool = match orientation {
        DeviceOrientation::PortraitUpsideDown => true,
        _ => false,
    };
    let (out_w, out_h): (usize, usize) = if landscape {
        (h, w)
    } else {
        (w, h)
    };
    let mut out: Vec<u8> = Vec::new();
    // The pixel that comes next is at (x, y).
    let mut x: usize = 0;
    let mut y: usize = 0;
    while y < out_h
        invariant
            0 < out_w,
            x < out_w,
            y <= out_h,
            y == out_h ==> x == 0,
            (out_w as int, out_h as int) == presented_size(orientation, w as int, h as int),
            landscape == orientation.is_landscape(),
            upside_down == (orientation is PortraitUpsideDown),
            w * h == out_w * out_h,
            n == w * h * 4,
            n <= usize::MAX,
            pixels@.len() >= n,
            out@.len() == (y * out_w + x) * 4,
            forall|i: int|
                0 <= i < out@.len() ==> #[trigger] out@[i] == pixels@[presented_byte(
                    orientation,
                    w as int,
                    h as int,
                    i,
                )],
        decreases out_h - y, out_w - x,
    {
        let (row, column): (usize, usize) = if landscape {
            (h - 1 - x, w - 1 - y)
        } else if upside_down {
            (y, w - 1 - x)
        } else {
            (h - 1 - y, x)
        };
        let ghost p = y * out_w + x;
        proof {
            lemma_place(w as int, h as int, column as int, row as int);
            lemma_column_and_row(out_w as int, x as int, y as int);
            assert(row * w >= 0) by (nonlinear_arith);
        }
        let src: usize = (row * w + column) * 4;
        let ghost before = out@;
        out.push(pixels[src]);
        out.push(pixels[src + 1]);
        out.push(pixels[src + 2]);
        out.push(pixels[src + 3]);
        proof {
            assert(src == presented_from(orientation, w as int, h as int, x as int, y as int) * 4);
            assert forall|i: int| 0 <= i < out@.len() implies #[trigger] out@[i]
                == pixels@[presented_byte(orientation, w as int, h as int, i)] by {
                if i < before.len() {
                    assert(out@[i] == before[i]);
                } else {
                    assert(i / 4 == p);
                }
            }
        }
        x += 1;
        if x == out_w {
            assert((y + 1) * out_w == y * out_w + out_w) by (nonlinear_arith);
            x = 0;
            y += 1;
        }
    }
    Some(Frame { pixels: out, w: out_w, h: out_h })
}

/// Presenting a picture that was presented, as if it were a frame, gives the
/// frame: no pixel is lost, and none is shown twice.
pub proof fn law_present_twice(
    orientation: DeviceOrientation,
    frame: Seq<u8>,
    w: int,
    h: int,
    once: Seq<u8>,
    twice: Seq<u8>,
)
    requires
        w > 0,
        h > 0,
        frame.len() == w * h * 4,
        is_presented(orientation, frame, w, h, once),
        ({
            let (out_w, out_h) = presented_size(orientation, w, h);
            is_presented(orientation, once, out_w, out_h, twice)
        }),
    ensures
        twice == frame,
{
    let (out_w, out_h) = presented_size(orientation, w, h);
    assert(h * w == w * h) by (nonlinear_arith);
    assert forall|i: int| 0 <= i < frame.len() implies twice[i] == frame[i] by {
        let c = i % 4;
        let p = i / 4;
        let x = p % w;
        let y = p / w;
        assert(p == y * w + x && 0 <= x < w && 0 <= y < h) by (nonlinear_arith)
            requires
                x == p % w,
                y == p / w,
                w > 0,
                0 <= p < w * h,
        ;
        // The pixel comes from (u, v) of the first presentation.
        let (u, v) = if orientation.is_landscape() {
            (h - 1 - y, w - 1 - x)
        } else if orientation is PortraitUpsideDown {
            (w - 1 - x, y)
        } else {
            (x, h - 1 - y)
        };
        let q = v * out_w + u;
        assert(presented_from(orientation, out_w, out_h, x, y) == q);
        lemma_place(out_w, out_h, u, v);
        lemma_column_and_row(out_w, u, v);
        let j = presented_byte(orientation, out_w, out_h, i);
        assert(j == q * 4 + c);
        assert(j / 4 == q && j % 4 == c);
        assert(twice[i] == once[j]);
        assert(once[j] == frame[presented_byte(orientation, w, h, j)]);
        assert(presented_byte(orientation, w, h, j) == i);
    }
    assert(twice =~= frame);
}

/// Where the pixel of a `w` by `h` picture that is `x` from the left and `y` from
/// the bottom is once the picture was turned by `quarters` right angles,
/// counter-clockwise.
pub open spec fn turned_place(quarters: int, w: int, h: int, x: int, y: int) -> (int, int)
    decreases quarters,
{
    if quarters <= 0 {
        (x, y)
    } else {
        // A right angle takes the left side to the bottom, and the bottom to the
        // right side.
        turned_place(quarters - 1, h, w, h - 1 - y, x)
    }
}

/// A presented picture is the frame, turned by just the right angle that the
/// device is held at: each pixel of the frame, which comes with its bottom row
/// first, is where it was, counted from the left and from the bottom, once the
/// picture is turned counter-clockwise by no right angle in portrait, by one in
/// landscape, and by two upside down.
pub proof fn law_presented_picture(
    orientation: DeviceOrientation,
    frame: Seq<u8>,
    w: int,
    h: int,
    out: Seq<u8>,
    x: int,
    y: int,
    c: int,
)
    requires
        0 <= x < w,
        0 <= y < h,
        0 <= c < 4,
        frame.len() >= w * h * 4,
        is_presented(orientation, frame, w, h, out),
    ensures
        ({
            let quarters: int = match orientation {
                DeviceOrientation::Portrait => 0,
                DeviceOrientation::PortraitUpsideDown => 2,
                DeviceOrientation::LandscapeLeft => 1,
                DeviceOrientation::LandscapeRight => 1,
            };
            let (to_x, to_y) = turned_place(quarters, w, h, x, y);
            let (out_w, out_h) = presented_size(orientation, w, h);
            &&& (out_w, out_h) == if quarters == 1 {
                (h, w)
            } else {
                (w, h)
            }
            &&& 0 <= to_x < out_w
            &&& 0 <= to_y < out_h
            &&& out[((out_h - 1 - to_y) * out_w + to_x) * 4 + c] == frame[(y * w + x) * 4 + c]
        }),
{
    reveal_with_fuel(turned_place, 3);
    let (out_w, out_h) = presented_size(orientation, w, h);
    let (to_x, to_y) = if orientation.is_landscape() {
        (h - 1 - y, x)
    } else if orientation is PortraitUpsideDown {
        (w - 1 - x, h - 1 - y)
    } else {
        (x, y)
    };
    let row = out_h - 1 - to_y;
    assert(h * w == w * h) by (nonlinear_arith);
    lemma_place(out_w, out_h, to_x, row);
    lemma_column_and_row(out_w, to_x, row);
    let i = (row * out_w + to_x) * 4 + c;
    assert(i / 4 == row * out_w + to_x && i % 4 == c);
    assert(out[i] == frame[presented_byte(orientation, w, h, i)]);
}

/// Copies an image of `width` by `height` pixels to a surface whose rows are
/// `pitch` bytes apart. What lies between the rows stays as it is.
pub fn copy_to_surface(
    src: &Vec<u8>,
    width: usize,
    height: usize,
    pitch: usize,
    dst: &mut Vec<u8>,
)
    requires
        width * 4 <= pitch,
        pitch * height <= old(dst)@.len(),
        width * height * 4 <= src@.len(),
    ensures
        final(dst)@.len() == old(dst)@.len(),
        forall|i: int|
            0 <= i < old(dst)@.len() ==> #[trigger] final(dst)@[i] == surface_byte(
                src@,
                width as int,
                height as int,
                pitch as int,
                old(dst)@,
                i,
            ),
{
    let ghost first = dst@;
    let src_len: usize = src.len();
    let dst_len: usize = dst.len();
    if pitch == 0 {
        assert forall|i: int| 0 <= i < first.len() implies #[trigger] dst@[i] == surface_byte(
            src@,
            width as int,
            height as int,
            pitch as int,
            first,
            i,
        ) by {}
        return;
    }
    let row: usize = width * 4;
    let mut y: usize = 0;
    while y < height
        invariant
            pitch > 0,
            row == width * 4,
            row <= pitch,
            y <= height,
            dst@.len() == first.len() == dst_len,
            src@.len() == src_len,
            pitch * height <= dst_len,
            width * height * 4 <= src_len,
            forall|i: int|
                0 <= i < first.len() ==> #[trigger] dst@[i] == surface_byte(
                    src@,
                    width as int,
                    y as int,
                    pitch as int,
                    first,
                    i,
                ),
        decreases height - y,
    {
        assert(y * pitch + pitch <= pitch * height) by (nonlinear_arith)
            requires
                y + 1 <= height,
                pitch > 0,
        ;
        assert(y * row + row <= width * height * 4) by (nonlinear_arith)
            requires
                y + 1 <= height,
                row == width * 4,
        ;
        assert(y * row >= 0 && y * pitch >= 0) by (nonlinear_arith);
        let from: usize = y * row;
        let to: usize = y * pitch;
        let mut k: usize = 0;
        let ghost before = dst@;
        while k < row
            invariant
                k <= row <= pitch,
                from + row <= src_len == src@.len(),
                to + row <= dst_len == dst@.len() == first.len() == before.len(),
                forall|i: int|
                    0 <= i < first.len() ==> #[trigger] dst@[i] == if to <= i < to + k {
                        src@[from + (i - to)]
                    } else {
                        before[i]
                    },
            decreases row - k,
        {
            dst.set(to + k, src[from + k]);
            k += 1;
        }
        assert forall|i: int| 0 <= i < first.len() implies #[trigger] dst@[i] == surface_byte(
            src@,
            width as int,
            y + 1,
            pitch as int,
            first,
            i,
        ) by {
            lemma_row_of(i, pitch as int, y as int);
        }
        y += 1;
    }
}

/// The byte at `i` of a surface after the first `rows` rows of an image were
/// copied to it.
pub open spec fn surface_byte(
    src: Seq<u8>,
    width: int,
    rows: int,
    pitch: int,
    before: Seq<u8>,
    i: int,
) -> u8 {
    if pitch > 0 && i / pitch < rows && i % pitch < width * 4 {
        src[i / pitch * (width * 4) + i % pitch]
    } else {
        before[i]
    }
}

proof fn lemma_row_of(i: int, pitch: int, y: int)
    requires
        pitch > 0,
        i >= 0,
    ensures
        i / pitch == y <==> y * pitch <= i < y * pitch + pitch,
        i / pitch == y ==> i % pitch == i - y * pitch,
{
    vstd::arithmetic::div_mod::lemma_fundamental_div_mod(i, pitch);
    let q = i / pitch;
    assert(q == y <==> y * pitch <= i < y * pitch + pitch) by (nonlinear_arith)
        requires
            i == pitch * q + i % pitch,
            0 <= i % pitch < pitch,
    ;
    assert(pitch * q == q * pitch) by (nonlinear_arith);
}

/// Each row of the image is on the surface, byte for byte, at the start of a row
/// of the surface; whatever is behind it in that row, and below the image, stays.
pub proof fn law_rows_are_copied(
    src: Seq<u8>,
    width: int,
    height: int,
    pitch: int,
    before: Seq<u8>,
    y: int,
    k: int,
)
    requires
        0 < pitch,
        0 <= width * 4 <= pitch,
        0 <= y,
        0 <= k < pitch,
    ensures
        surface_byte(src, width, height, pitch, before, y * pitch + k) == if y < height && k < width
            * 4 {
            src[y * (width * 4) + k]
        } else {
            before[y * pitch + k]
        },
{
    lemma_column_and_row(pitch, k, y);
}

/// There is a picture to present exactly where there is a whole frame, and each of its
/// pixels is the one that the device's turn takes there.
pub proof fn law_frame_is_presented_turned(
    orientation: DeviceOrientation,
    pixels: Vec<u8>,
    w: u32,
    h: u32,
    r: Option<Frame>,
    x: int,
    y: int,
    c: int,
)
    requires
        call_ensures(present_frame_to_calayer, (orientation, &pixels, w, h), r),
        0 <= x < w,
        0 <= y < h,
        0 <= c < 4,
    ensures
        r is Some <==> pixels@.len() >= w * h * 4,
        r matches Some(frame) ==> {
            let quarters: int = match orientation {
                DeviceOrientation::Portrait => 0,
                DeviceOrientation::PortraitUpsideDown => 2,
                DeviceOrientation::LandscapeLeft => 1,
                DeviceOrientation::LandscapeRight => 1,
            };
            let (to_x, to_y) = turned_place(quarters, w as int, h as int, x, y);
            frame.pixels@[((frame.h - 1 - to_y) * frame.w + to_x) * 4 + c] == pixels@[(y * w + x)
                * 4 + c]
        },
{
    assert(w * h > 0) by (nonlinear_arith)
        requires
            w > 0,
            h > 0,
    ;
    if let Some(frame) = r {
        law_presented_picture(
            orientation,
            pixels@,
            w as int,
            h as int,
            frame.pixels@,
            x,
            y,
            c,
        );
    }
}

} // verus!
