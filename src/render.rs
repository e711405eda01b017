use vstd::prelude::*;
use crate::glyph::{glyph_char, ramp_glyph};
use crate::rle::{same_color, RleFrame, RleRun};
use crate::text::{
    chars_of, decimal, duration_text, push_decimal, push_duration, push_repeat, push_str,
    repeat_char, string_from_chars,
};

verus! {

/// The escape sequence that resets the colour.
pub open spec fn reset_code() -> Seq<char> {
    seq!['\x1b', '[', '0', 'm']
}

/// The escape sequence that selects a 24-bit foreground colour.
pub open spec fn color_code(c: [u8; 3]) -> Seq<char> {
    seq!['\x1b', '[', '3', '8', ';', '2', ';'] + decimal(c[0] as nat) + seq![';'] + decimal(
        c[1] as nat,
    ) + seq![';'] + decimal(c[2] as nat) + seq!['m']
}

/// `count` copies of `ch` written from column `col` of rows `width` wide,
/// with a line break after the last column of each row.
pub open spec fn glyph_cells(ch: char, count: nat, col: nat, width: nat) -> Seq<char>
    decreases count,
{
    if count == 0 {
        Seq::empty()
    } else if col + 1 >= width {
        seq![ch, '\n'] + glyph_cells(ch, (count - 1) as nat, 0, width)
    } else {
        seq![ch] + glyph_cells(ch, (count - 1) as nat, col + 1, width)
    }
}

/// The column reached after writing `count` cells from column `col`.
pub open spec fn col_after(count: nat, col: nat, width: nat) -> nat
    decreases count,
{
    if count == 0 {
        col
    } else if col + 1 >= width {
        col_after((count - 1) as nat, 0, width)
    } else {
        col_after((count - 1) as nat, col + 1, width)
    }
}

/// The text of `runs`, written from column `col` with `color` selected: a
/// colour change (after a reset, if a colour was selected) wherever a run's
/// colour differs from the current one, then the run's glyphs; at the end
/// the colour is reset.
pub open spec fn render_runs(runs: Seq<RleRun>, color: Option<[u8; 3]>, col: nat, width: nat) -> Seq<
    char,
>
    decreases runs.len(),
{
    if runs.len() == 0 {
        if color is Some {
            reset_code()
        } else {
            Seq::empty()
        }
    } else {
        let r = runs[0];
        let switch = if color != Some(r.color) {
            (if color is Some {
                reset_code()
            } else {
                Seq::empty()
            }) + color_code(r.color)
        } else {
            Seq::empty()
        };
        switch + glyph_cells(ramp_glyph(r.ascii_idx), r.count as nat, col, width) + render_runs(
            runs.drop_first(),
            Some(r.color),
            col_after(r.count as nat, col, width),
            width,
        )
    }
}

/// The drawable text of a frame: its rows of coloured glyphs, one line per
/// row, without a final line break; empty for a frame without width or runs.
pub open spec fn frame_text(frame: RleFrame) -> Seq<char> {
    if frame.width == 0 || frame.runs@.len() == 0 {
        Seq::empty()
    } else {
        let t = render_runs(frame.runs@, None, 0, frame.width as nat);
        if t.len() > 0 && t.last() == '\n' {
            t.drop_last()
        } else {
            t
        }
    }
}

fn push_color_code(out: &mut Vec<char>, c: [u8; 3])
    ensures
        final(out)@ == old(out)@ + color_code(c),
{
    out.push('\x1b');
    out.push('[');
    out.push('3');
    out.push('8');
    out.push(';');
    out.push('2');
    out.push(';');
    push_decimal(out, c[0] as u64);
    out.push(';');
    push_decimal(out, c[1] as u64);
    out.push(';');
    push_decimal(out, c[2] as u64);
    out.push('m');
    assert(final(out)@ =~= old(out)@ + color_code(c));
}

fn push_reset(out: &mut Vec<char>)
    ensures
        final(out)@ == old(out)@ + reset_code(),
{
    out.push('\x1b');
    out.push('[');
    out.push('0');
    out.push('m');
    assert(final(out)@ =~= old(out)@ + reset_code());
}

proof fn lemma_render_step(runs: Seq<RleRun>, i: int)
    requires
        0 <= i < runs.len(),
    ensures
        runs.subrange(i, runs.len() as int)[0] == runs[i],
        runs.subrange(i, runs.len() as int).drop_first() == runs.subrange(i + 1, runs.len() as int),
{
    assert(runs.subrange(i, runs.len() as int).drop_first() =~= runs.subrange(
        i + 1,
        runs.len() as int,
    ));
}

/// Builds the drawable text of a frame from its runs.
pub fn reconstruct_frame_string(frame: &RleFrame) -> (s: String)
    ensures
        s@ == frame_text(*frame),
{
    if frame.width == 0 || frame.runs.len() == 0 {
        let empty: Vec<char> = Vec::new();
        return string_from_chars(&empty);
    }
    let width: u32 = frame.width as u32;
    let ghost runs = frame.runs@;
    let mut out: Vec<char> = Vec::new();
    let mut col: u32 = 0;
    let mut color: Option<[u8; 3]> = None;
    let mut i: usize = 0;
    assert(runs.subrange(0, runs.len() as int) =~= runs);
    assert(out@ + render_runs(runs, None, 0, width as nat) =~= render_runs(runs, None, 0, width as nat));
    while i < frame.runs.len()
        invariant
            runs == frame.runs@,
            width == frame.width,
            width > 0,
            i <= runs.len(),
            col < width,
            out@ + render_runs(runs.subrange(i as int, runs.len() as int), color, col as nat, width as nat)
                == render_runs(runs, None, 0, width as nat),
        decreases runs.len() - i,
    {
        proof {
            lemma_render_step(runs, i as int);
        }
        let ghost before = out@;
        let ghost rest = runs.subrange(i as int, runs.len() as int);
        let ghost old_color = color;
        let run = frame.runs[i];
        let changes = match color {
            Some(c) => !same_color(c, run.color),
            None => true,
        };
        if changes {
            if color.is_some() {
                push_reset(&mut out);
            }
            push_color_code(&mut out, run.color);
            color = Some(run.color);
        }
        let ghost mid = out@;
        assert(mid =~= before + (if old_color != Some(run.color) {
            (if old_color is Some {
                reset_code()
            } else {
                Seq::empty()
            }) + color_code(run.color)
        } else {
            Seq::empty()
        }));
        let ch = glyph_char(run.ascii_idx);
        let ghost col0 = col as nat;
        let mut k: u16 = 0;
        while k < run.count
            invariant
                width > 0,
                col < width,
                k <= run.count,
                mid + glyph_cells(ch, run.count as nat, col0, width as nat) == out@ + glyph_cells(
                    ch,
                    (run.count - k) as nat,
                    col as nat,
                    width as nat,
                ),
                col_after(run.count as nat, col0, width as nat) == col_after(
                    (run.count - k) as nat,
                    col as nat,
                    width as nat,
                ),
            decreases run.count - k,
        {
            let ghost o = out@;
            let ghost c = col as nat;
            out.push(ch);
            col = col + 1;
            if col >= width {
                out.push('\n');
                col = 0;
                assert(o + glyph_cells(ch, (run.count - k) as nat, c, width as nat) =~= out@
                    + glyph_cells(ch, (run.count - k - 1) as nat, col as nat, width as nat));
            } else {
                assert(o + glyph_cells(ch, (run.count - k) as nat, c, width as nat) =~= out@
                    + glyph_cells(ch, (run.count - k - 1) as nat, col as nat, width as nat));
            }
            k = k + 1;
        }
        proof {
            assert(glyph_cells(ch, 0, col as nat, width as nat) =~= Seq::<char>::empty());
            assert(out@ =~= mid + glyph_cells(ch, run.count as nat, col0, width as nat));
            assert(rest[0] == run);
            assert(before + render_runs(rest, old_color, col0, width as nat) =~= out@ + render_runs(
                rest.drop_first(),
                color,
                col as nat,
                width as nat,
            ));
        }
        i = i + 1;
    }
    assert(runs.subrange(i as int, runs.len() as int).len() == 0);
    if color.is_some() {
        push_reset(&mut out);
    }
    assert(out@ =~= render_runs(runs, None, 0, width as nat));
    let n = out.len();
    if n > 0 && out[n - 1] == '\n' {
        out.pop();
    }
    string_from_chars(&out)
}

} // verus!

verus! {

/// The status line: elapsed and total time, the 1-based frame number out of
/// the frame count, the frames drawn in the last second, and the resource
/// metrics, in brackets.
pub open spec fn status_text(
    elapsed_s: nat,
    total_s: nat,
    frame_no: nat,
    frame_count: nat,
    fps: nat,
    metrics: Seq<char>,
) -> Seq<char> {
    "[Time: "@ + duration_text(elapsed_s) + " / "@ + duration_text(total_s) + " | Frame: "@
        + decimal(frame_no) + " / "@ + decimal(frame_count) + " | FPS: "@ + decimal(fps) + ".0 | "@
        + metrics + "]"@
}

/// A status line sized to `cols` columns: cut to its first `cols`
/// characters where longer, else centred and padded with `=` on both sides,
/// the left side taking the smaller half of the padding.
pub open spec fn centered_text(status: Seq<char>, cols: nat) -> Seq<char> {
    let bar = if status.len() < cols {
        status.len()
    } else {
        cols
    };
    let pad = (cols - bar) as nat;
    let left = pad / 2;
    repeat_char('=', left) + status.take(bar as int) + repeat_char('=', (pad - left) as nat)
}

/// Builds the status line.
pub fn status_line(
    elapsed_s: u64,
    total_s: u64,
    frame_no: u64,
    frame_count: u64,
    fps: u64,
    metrics: &str,
) -> (s: String)
    ensures
        s@ == status_text(
            elapsed_s as nat,
            total_s as nat,
            frame_no as nat,
            frame_count as nat,
            fps as nat,
            metrics@,
        ),
{
    let mut out: Vec<char> = Vec::new();
    push_str(&mut out, "[Time: ");
    push_duration(&mut out, elapsed_s);
    push_str(&mut out, " / ");
    push_duration(&mut out, total_s);
    push_str(&mut out, " | Frame: ");
    push_decimal(&mut out, frame_no);
    push_str(&mut out, " / ");
    push_decimal(&mut out, frame_count);
    push_str(&mut out, " | FPS: ");
    push_decimal(&mut out, fps);
    push_str(&mut out, ".0 | ");
    push_str(&mut out, metrics);
    push_str(&mut out, "]");
    assert(out@ =~= status_text(
        elapsed_s as nat,
        total_s as nat,
        frame_no as nat,
        frame_count as nat,
        fps as nat,
        metrics@,
    ));
    string_from_chars(&out)
}

/// Sizes a status line to `cols` columns: cuts it, or centres it padded
/// with `=`.
pub fn center_status(status: &str, cols: u16) -> (s: String)
    ensures
        s@ == centered_text(status@, cols as nat),
{
    let chars = chars_of(status);
    let len = chars.len();
    let bar: usize = if len < cols as usize {
        len
    } else {
        cols as usize
    };
    let pad: usize = cols as usize - bar;
    let left = pad / 2;
    let mut out: Vec<char> = Vec::new();
    push_repeat(&mut out, '=', left);
    let mut i: usize = 0;
    let ghost start = out@;
    while i < bar
        invariant
            bar <= chars@.len(),
            i <= bar,
            out@ == start + chars@.take(i as int),
        decreases bar - i,
    {
        out.push(chars[i]);
        i = i + 1;
        assert(out@ =~= start + chars@.take(i as int));
    }
    push_repeat(&mut out, '=', pad - left);
    string_from_chars(&out)
}

/// What the terminal shows for one frame: the frame's text directly
/// followed by its centred status line.
pub open spec fn screen_text(frame: RleFrame, status: Seq<char>, cols: nat) -> Seq<char> {
    frame_text(frame) + centered_text(status, cols)
}

/// Composes the screen for one frame.
pub fn compose_screen(frame: &RleFrame, status: &str, cols: u16) -> (s: String)
    ensures
        s@ == screen_text(*frame, status@, cols as nat),
{
    let text = reconstruct_frame_string(frame);
    let bar = center_status(status, cols);
    let mut out = chars_of(text.as_str());
    push_str(&mut out, bar.as_str());
    string_from_chars(&out)
}

} // verus!
