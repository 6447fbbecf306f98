//! Video as ASCII art in a terminal.
use vstd::arithmetic::div_mod::lemma_fundamental_div_mod;
use vstd::prelude::*;

use crate::display::{FirstFrame, FramePoll};
use crate::video::VideoFrame;

verus! {

/// The characters of the gradient, from darkest to lightest.
pub open spec fn gradient() -> Seq<char> {
    seq![' ', '.', ',', ':', ';', '+', '*', '?', '%', '#', '@']
}

/// The position in the gradient of a luma between 16 and 235; darker and
/// lighter values go to its ends.
pub open spec fn shade(y: int) -> int {
    if y <= 16 {
        0
    } else if (y - 16) * 10 / 219 > 10 {
        10
    } else {
        (y - 16) * 10 / 219
    }
}

/// How many of `n` characters are drawn, when at most `limit` fit.
pub open spec fn capped(n: int, limit: int) -> int {
    if n < limit {
        n
    } else {
        limit
    }
}

/// Number of rows that may be drawn: the bottom one stays free, so that status
/// text or the shell prompt is not overwritten.
pub open spec fn free_rows(rows: u16) -> int {
    if rows == 0 {
        0
    } else {
        rows - 1
    }
}

/// The source coordinate, out of `source`, that character `i` of `shown` samples:
/// the nearest one to the middle of the character.
pub open spec fn nearest(i: int, source: int, shown: int) -> int {
    capped((i * source + source / 2) / shown, source - 1)
}

/// The character at `row` and `col` of a picture that is shown `disp_w`
/// characters wide and `disp_h` high.
pub open spec fn shown_char(
    frame: VideoFrame,
    disp_w: int,
    disp_h: int,
    row: int,
    col: int,
) -> char {
    let x = nearest(col, frame.width as int, disp_w);
    let y = nearest(row, frame.height as int, disp_h);
    gradient()[shade(frame.data@[y * frame.width + x] as int)]
}

/// One line of the picture, with `pad` blanks before it.
pub open spec fn shown_line(
    frame: VideoFrame,
    pad: int,
    disp_w: int,
    disp_h: int,
    row: int,
) -> Seq<char> {
    (Seq::new(pad as nat, |i: int| ' ') + Seq::new(
        disp_w as nat,
        |col: int| shown_char(frame, disp_w, disp_h, row, col),
    )).push('\n')
}

/// The first `count` lines of the picture.
pub open spec fn shown_lines(
    frame: VideoFrame,
    pad: int,
    disp_w: int,
    disp_h: int,
    count: int,
) -> Seq<char>
    decreases count,
{
    if count <= 0 {
        Seq::empty()
    } else {
        shown_lines(frame, pad, disp_w, disp_h, count - 1) + shown_line(
            frame,
            pad,
            disp_w,
            disp_h,
            count - 1,
        )
    }
}

/// The text that shows `frame` in a terminal of `cols` by `rows` characters,
/// when its scaled size is `scaled` characters.
pub open spec fn ascii_art(frame: VideoFrame, cols: u16, rows: u16, scaled: (usize, usize)) -> Seq<
    char,
> {
    let disp_w = capped(scaled.0 as int, cols as int);
    let disp_h = capped(scaled.1 as int, free_rows(rows));
    shown_lines(frame, (cols - disp_w) / 2, disp_w, disp_h, disp_h)
}

/// The character for a luma.
fn luma_char(y: u8) -> (c: char)
    ensures
        c == gradient()[shade(y as int)],
{
    let chars: [char; 11] = [' ', '.', ',', ':', ';', '+', '*', '?', '%', '#', '@'];
    let above: usize = if y < 16 {
        0
    } else {
        y as usize - 16
    };
    let n: usize = above * 10 / 219;
    let n: usize = if n < 10 {
        n
    } else {
        10
    };
    assert(n == shade(y as int));
    chars[n]
}

/// Computes [`nearest`].
fn nearest_index(i: usize, source: u32, shown: usize) -> (index: usize)
    requires
        i < shown <= u16::MAX,
        source > 0,
    ensures
        index == nearest(i as int, source as int, shown as int),
        index < source,
{
    let ii: u64 = i as u64;
    let s: u64 = source as u64;
    proof {
        assert(0 <= i * source <= 0xffff * 0xffff_ffff) by (nonlinear_arith)
            requires
                0 <= i <= 0xffff,
                0 <= source <= 0xffff_ffff,
        ;
    }
    let middle: u64 = (ii * s + s / 2) / shown as u64;
    let index: u64 = if middle < s - 1 {
        middle
    } else {
        s - 1
    };
    index as usize
}

/// Convert an I420 [`VideoFrame`] to a block of ASCII text sized to fit `cols` by `rows`.
///
/// Uses the luma (Y) plane only; colour information is discarded. `scaled` is the
/// size in characters that keeps the proportions of the frame; what exceeds the
/// terminal is cut off, and the image is centred horizontally.
pub fn frame_to_ascii(frame: &VideoFrame, cols: u16, rows: u16, scaled: (usize, usize)) -> (text:
    String)
    requires
        frame.data@.len() >= frame.width * frame.height,
        scaled.0 > 0 && cols > 0 && scaled.1 > 0 && rows > 1 ==> frame.width > 0 && frame.height
            > 0,
    ensures
        text@ == ascii_art(*frame, cols, rows, scaled),
{
    let disp_w: usize = if scaled.0 < cols as usize {
        scaled.0
    } else {
        cols as usize
    };
    let last_row: usize = if rows == 0 {
        0
    } else {
        rows as usize - 1
    };
    let disp_h: usize = if scaled.1 < last_row {
        scaled.1
    } else {
        last_row
    };
    let left_pad: usize = (cols as usize - disp_w) / 2;
    let ghost dw = disp_w as int;
    let ghost dh = disp_h as int;
    let ghost pad = left_pad as int;
    let mut out: String = String::new();
    for row in 0..disp_h
        invariant
            dw == disp_w,
            dh == disp_h,
            pad == left_pad,
            disp_w <= u16::MAX,
            disp_h <= u16::MAX,
            frame.data@.len() >= frame.width * frame.height,
            disp_w > 0 && disp_h > 0 ==> frame.width > 0 && frame.height > 0,
            out@ == shown_lines(*frame, pad, dw, dh, row as int),
    {
        let ghost before = out@;
        for i in 0..left_pad
            invariant
                out@ == before + Seq::new(i as nat, |k: int| ' '),
        {
            out.push(' ');
            assert(out@ =~= before + Seq::new((i + 1) as nat, |k: int| ' '));
        }
        let ghost indented = out@;
        for col in 0..disp_w
            invariant
                dw == disp_w,
                dh == disp_h,
                row < disp_h,
                disp_w <= u16::MAX,
                disp_h <= u16::MAX,
                frame.data@.len() >= frame.width * frame.height,
                disp_w > 0 && disp_h > 0 ==> frame.width > 0 && frame.height > 0,
                out@ == indented + Seq::new(
                    col as nat,
                    |k: int| shown_char(*frame, dw, dh, row as int, k),
                ),
        {
            let src_x: usize = nearest_index(col, frame.width, disp_w);
            let src_y: usize = nearest_index(row, frame.height, disp_h);
            proof {
                let w = frame.width as int;
                let h = frame.height as int;
                assert(frame.data.len() == frame.data@.len());
                assert(src_y * w + w <= w * h) by (nonlinear_arith)
                    requires
                        src_y + 1 <= h,
                        0 <= w,
                ;
                assert(0 <= src_y * w) by (nonlinear_arith)
                    requires
                        0 <= w,
                ;
            }
            let y: u8 = frame.data[src_y * frame.width as usize + src_x];
            out.push(luma_char(y));
            assert(out@ =~= indented + Seq::new(
                (col + 1) as nat,
                |k: int| shown_char(*frame, dw, dh, row as int, k),
            ));
        }
        out.push('\n');
        assert(out@ =~= before + shown_line(*frame, pad, dw, dh, row as int));
    }
    out
}

/// What the terminal loop does next.
#[derive(Debug, Clone, Copy, PartialEq, Eq, Structural)]
pub enum AsciiStep {
    /// Render the current frame, then rest for one refresh interval.
    Render,
    /// Look for a waiting frame.
    Poll,
    /// Leave the terminal.
    Stop,
}

/// The state of the terminal loop: the frame that is rendered.
pub struct AsciiVideo {
    pub current: VideoFrame,
}

/// What follows a look for a waiting frame.
pub open spec fn after_poll(polled: FramePoll) -> AsciiStep {
    match polled {
        FramePoll::Frame(_) => AsciiStep::Poll,
        FramePoll::Empty => AsciiStep::Render,
        FramePoll::Disconnected => AsciiStep::Stop,
    }
}

impl AsciiVideo {
    /// Start with rendering the first frame; without one there is nothing to render.
    pub fn start(first: FirstFrame) -> (video: Option<(Self, AsciiStep)>)
        ensures
            video == match first {
                FirstFrame::Frame(frame) => Some(
                    (AsciiVideo { current: frame }, AsciiStep::Render),
                ),
                _ => None,
            },
    {
        match first {
            FirstFrame::Frame(frame) => Some((AsciiVideo { current: frame }, AsciiStep::Render)),
            FirstFrame::Timeout => None,
            FirstFrame::Disconnected => None,
        }
    }

    /// Look for newer frames once the current one was rendered.
    pub fn on_rendered() -> (step: AsciiStep)
        ensures
            step == AsciiStep::Poll,
    {
        AsciiStep::Poll
    }

    /// Collect the waiting frames; the newest is rendered, once no more are
    /// waiting. The loop ends when no more can arrive.
    pub fn on_poll(&mut self, polled: FramePoll) -> (step: AsciiStep)
        ensures
            step == after_poll(polled),
            final(self).current == match polled {
                FramePoll::Frame(frame) => frame,
                _ => old(self).current,
            },
    {
        match polled {
            FramePoll::Frame(frame) => {
                self.current = frame;
                AsciiStep::Poll
            },
            FramePoll::Empty => AsciiStep::Render,
            FramePoll::Disconnected => AsciiStep::Stop,
        }
    }
}

/// The frame that is current after a run of looks.
pub open spec fn current_after(first: VideoFrame, polls: Seq<FramePoll>) -> VideoFrame
    decreases polls.len(),
{
    if polls.len() == 0 {
        first
    } else {
        match polls.last() {
            FramePoll::Frame(frame) => frame,
            _ => current_after(first, polls.drop_last()),
        }
    }
}

/// The frames that are rendered in the course of a run of looks: the first one,
/// and the current one whenever a look asks for it.
pub open spec fn rendered(first: VideoFrame, polls: Seq<FramePoll>) -> Seq<VideoFrame>
    decreases polls.len(),
{
    if polls.len() == 0 {
        seq![first]
    } else {
        let before = rendered(first, polls.drop_last());
        if after_poll(polls.last()) == AsciiStep::Render {
            before.push(current_after(first, polls))
        } else {
            before
        }
    }
}

/// Frames that are drained together with the end are not rendered: until a look
/// finds no frame waiting, the first frame is rendered once and nothing else.
pub proof fn law_first_frame_once(first: VideoFrame, polls: Seq<FramePoll>)
    requires
        forall|i: int| 0 <= i < polls.len() ==> !(#[trigger] polls[i] is Empty),
    ensures
        rendered(first, polls) == seq![first],
    decreases polls.len(),
{
    if polls.len() > 0 {
        let before = polls.drop_last();
        assert forall|i: int| 0 <= i < before.len() implies !(#[trigger] before[i] is Empty) by {
            assert(before[i] == polls[i]);
        }
        assert(!(polls[polls.len() - 1] is Empty));
        law_first_frame_once(first, before);
    }
}

/// A lighter pixel never gets a darker character.
pub proof fn law_lighter_is_not_darker(y1: int, y2: int)
    requires
        0 <= y1 <= y2 <= 255,
    ensures
        0 <= shade(y1) <= shade(y2) < gradient().len(),
{
}

/// Black is blank, white is the lightest character.
pub proof fn law_gradient_ends()
    ensures
        gradient()[shade(16)] == ' ',
        gradient()[shade(235)] == '@',
{
}

/// The picture fits the terminal: it leaves the bottom row free, no line is
/// longer than the terminal is wide, and every line has the same length.
pub proof fn law_art_fits(
    frame: VideoFrame,
    cols: u16,
    rows: u16,
    scaled: (usize, usize),
    row: int,
)
    requires
        0 <= row < capped(scaled.1 as int, free_rows(rows)),
    ensures
        ({
            let art = ascii_art(frame, cols, rows, scaled);
            let disp_w = capped(scaled.0 as int, cols as int);
            let disp_h = capped(scaled.1 as int, free_rows(rows));
            let pad = (cols - disp_w) / 2;
            let line = pad + disp_w + 1;
            &&& disp_h < rows
            &&& pad + disp_w <= cols
            &&& art.len() == disp_h * line
            &&& 0 <= row * line
            &&& (row + 1) * line <= art.len()
            &&& art.subrange(row * line, (row + 1) * line) == shown_line(
                frame,
                pad,
                disp_w,
                disp_h,
                row,
            )
        }),
{
    let disp_w = capped(scaled.0 as int, cols as int);
    let disp_h = capped(scaled.1 as int, free_rows(rows));
    let pad = (cols - disp_w) / 2;
    lemma_line_of(frame, pad, disp_w, disp_h, disp_h, row);
}

/// Where line `row` stands among the first `count` lines.
proof fn lemma_line_of(
    frame: VideoFrame,
    pad: int,
    disp_w: int,
    disp_h: int,
    count: int,
    row: int,
)
    requires
        0 <= pad,
        0 <= disp_w,
        0 <= row < count,
    ensures
        ({
            let lines = shown_lines(frame, pad, disp_w, disp_h, count);
            let line = pad + disp_w + 1;
            &&& lines.len() == count * line
            &&& 0 <= row * line
            &&& (row + 1) * line <= lines.len()
            &&& lines.subrange(row * line, (row + 1) * line) == shown_line(
                frame,
                pad,
                disp_w,
                disp_h,
                row,
            )
        }),
    decreases count,
{
    let line = pad + disp_w + 1;
    let lines = shown_lines(frame, pad, disp_w, disp_h, count);
    let before = shown_lines(frame, pad, disp_w, disp_h, count - 1);
    assert(count * line == (count - 1) * line + line) by (nonlinear_arith);
    assert((row + 1) * line == row * line + line) by (nonlinear_arith);
    assert(0 <= row * line) by (nonlinear_arith)
        requires
            0 <= row,
            0 <= line,
    ;
    if count - 1 > 0 {
        lemma_line_of(
            frame,
            pad,
            disp_w,
            disp_h,
            count - 1,
            if row < count - 1 {
                row
            } else {
                0
            },
        );
    } else {
        assert(0 * line == 0) by (nonlinear_arith);
    }
    if row < count - 1 {
        assert((row + 1) * line <= (count - 1) * line) by (nonlinear_arith)
            requires
                row + 1 <= count - 1,
                0 <= line,
        ;
        assert(lines.subrange(row * line, (row + 1) * line) =~= before.subrange(
            row * line,
            (row + 1) * line,
        ));
    } else {
        assert(lines.subrange(row * line, (row + 1) * line) =~= shown_line(
            frame,
            pad,
            disp_w,
            disp_h,
            row,
        ));
    }
}

/// The pixel that a character samples is the one under its middle: of `source`
/// pixels over `shown` characters, the middle of character `i` lies at
/// `i * source + source / 2`, counted in parts of which a pixel has `shown`.
pub proof fn law_samples_the_middle(i: int, source: int, shown: int)
    requires
        0 <= i < shown,
        source > 0,
    ensures
        0 <= nearest(i, source, shown) < source,
        nearest(i, source, shown) * shown <= i * source + source / 2,
        i * source + source / 2 < (nearest(i, source, shown) + 1) * shown,
{
    let s = nearest(i, source, shown);
    let x = i * source + source / 2;
    assert(0 <= i * source) by (nonlinear_arith)
        requires
            0 <= i,
            source > 0,
    ;
    assert(i * source + source <= shown * source) by (nonlinear_arith)
        requires
            i + 1 <= shown,
            source > 0,
    ;
    let q = x / shown;
    lemma_fundamental_div_mod(x, shown);
    assert(q * shown == shown * q) by (nonlinear_arith);
    assert((q + 1) * shown == q * shown + shown) by (nonlinear_arith);
    assert(q < source) by (nonlinear_arith)
        requires
            q * shown <= x,
            x < shown * source,
            shown > 0,
    ;
    assert(0 <= q) by (nonlinear_arith)
        requires
            x < (q + 1) * shown,
            0 <= x,
            shown > 0,
    ;
    assert(s == q);
}

/// The characters cover the whole picture: each samples a pixel in or next to the
/// part of the source that it covers, the first at its beginning, the last at its end.
pub proof fn law_covers_the_picture(i: int, source: int, shown: int)
    requires
        0 <= i < shown <= source,
    ensures
        i * source <= nearest(i, source, shown) * shown + shown,
        nearest(i, source, shown) * shown <= (i + 1) * source,
{
    law_samples_the_middle(i, source, shown);
    let s = nearest(i, source, shown);
    assert((s + 1) * shown == s * shown + shown) by (nonlinear_arith);
    assert((i + 1) * source == i * source + source) by (nonlinear_arith);
}

/// A character further on samples no pixel further back.
pub proof fn law_samples_in_order(i: int, j: int, source: int, shown: int)
    requires
        0 <= i <= j < shown,
        source > 0,
    ensures
        nearest(i, source, shown) <= nearest(j, source, shown),
{
    law_samples_the_middle(i, source, shown);
    law_samples_the_middle(j, source, shown);
    let a = nearest(i, source, shown);
    let b = nearest(j, source, shown);
    assert(i * source <= j * source) by (nonlinear_arith)
        requires
            i <= j,
            source > 0,
    ;
    assert(a <= b) by (nonlinear_arith)
        requires
            a * shown < (b + 1) * shown,
            shown > 0,
    ;
}

/// The gradient is spread evenly over the limited range of luma, and its eleven
/// characters are these.
pub proof fn law_even_gradient(y: int)
    requires
        0 <= y <= 255,
    ensures
        y <= 16 ==> shade(y) == 0,
        y >= 16 ==> 219 * shade(y) <= 10 * (y - 16) < 219 * (shade(y) + 1),
        gradient() == " .,:;+*?%#@"@,
{
    reveal_strlit(" .,:;+*?%#@");
    assert(gradient() =~= " .,:;+*?%#@"@);
}

/// The text of a picture, character by character: as many lines as fit above the
/// bottom row, each with the blanks that centre it, then a character for each
/// column, then a line end. A character stands for the luma of one pixel, the one
/// under the middle of the character both ways.
pub proof fn law_art_characters(
    frame: VideoFrame,
    cols: u16,
    rows: u16,
    scaled: (usize, usize),
    row: int,
    col: int,
)
    requires
        rows > 0,
        0 <= row < scaled.1,
        row < rows - 1,
    ensures
        ({
            let art = ascii_art(frame, cols, rows, scaled);
            let width = if scaled.0 < cols {
                scaled.0 as int
            } else {
                cols as int
            };
            let height = if scaled.1 < rows - 1 {
                scaled.1 as int
            } else {
                rows - 1
            };
            let pad = (cols - width) / 2;
            let start = row * (pad + width + 1);
            &&& art.len() == height * (pad + width + 1)
            &&& 0 <= start
            &&& start + pad + width < art.len()
            &&& art[start + pad + width] == '\n'
            &&& 0 <= col < pad ==> art[start + col] == ' '
            &&& 0 <= col < width && frame.width > 0 && frame.height > 0 ==> exists|x: int, y: int|
                {
                    &&& 0 <= x < frame.width
                    &&& 0 <= y < frame.height
                    &&& x * width <= col * frame.width + frame.width / 2 < (x + 1) * width
                    &&& y * height <= row * frame.height + frame.height / 2 < (y + 1) * height
                    &&& art[start + pad + col] == gradient()[shade(
                        #[trigger] frame.data@[y * frame.width + x] as int,
                    )]
                }
        }),
{
    law_art_fits(frame, cols, rows, scaled, row);
    let art = ascii_art(frame, cols, rows, scaled);
    let width = capped(scaled.0 as int, cols as int);
    let height = capped(scaled.1 as int, free_rows(rows));
    let pad = (cols - width) / 2;
    let line = pad + width + 1;
    let start = row * line;
    let shown = shown_line(frame, pad, width, height, row);
    assert((row + 1) * line == row * line + line) by (nonlinear_arith);
    assert(art.subrange(start, start + line) == shown);
    assert(art[start + pad + width] == shown[pad + width]);
    if 0 <= col < pad {
        assert(art[start + col] == shown[col]);
    }
    if 0 <= col < width && frame.width > 0 && frame.height > 0 {
        assert(art[start + pad + col] == shown[pad + col]);
        law_samples_the_middle(col, frame.width as int, width);
        law_samples_the_middle(row, frame.height as int, height);
        let x = nearest(col, frame.width as int, width);
        let y = nearest(row, frame.height as int, height);
        assert(shown[pad + col] == gradient()[shade(frame.data@[y * frame.width + x] as int)]);
    }
}

/// After a frame the terminal looks for a newer one, and only when none is waiting
/// it renders: the newest of those that came since the last rendering. It stops when
/// no more can come.
pub proof fn law_newest_is_rendered(first: VideoFrame, polls: Seq<FramePoll>, newest: VideoFrame)
    ensures
        after_poll(FramePoll::Frame(newest)) == AsciiStep::Poll,
        after_poll(FramePoll::Empty) == AsciiStep::Render,
        after_poll(FramePoll::Disconnected) == AsciiStep::Stop,
        ({
            let run = polls.push(FramePoll::Frame(newest)).push(FramePoll::Empty);
            &&& rendered(first, run) == rendered(first, polls).push(newest)
            &&& rendered(first, run.push(FramePoll::Empty)) == rendered(first, polls).push(
                newest,
            ).push(newest)
            &&& rendered(first, run.push(FramePoll::Disconnected)) == rendered(first, run)
        }),
{
    let a = polls.push(FramePoll::Frame(newest));
    let b = a.push(FramePoll::Empty);
    let c = b.push(FramePoll::Empty);
    let d = b.push(FramePoll::Disconnected);
    assert(a.drop_last() =~= polls);
    assert(b.drop_last() =~= a);
    assert(c.drop_last() =~= b);
    assert(d.drop_last() =~= b);
    assert(current_after(first, a) == newest);
    assert(current_after(first, b) == newest);
    assert(current_after(first, c) == newest);
    assert(rendered(first, a) == rendered(first, polls));
}

} // verus!
