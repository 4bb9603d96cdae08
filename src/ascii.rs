use vstd::prelude::*;

use crate::frame::{lemma_unpack_pack, nibble_of, packed_frame, unpack_nibbles, unpacked, HEIGHT, WIDTH};
use crate::text::{char_lines_view, lines, lines_of, push_char, same_chars};

verus! {

/// The 16-glyph ramp, darkest first.
pub open spec fn ramp() -> Seq<char> {
    seq![' ', '.', '^', '=', '~', '-', ',', ':', ';', '+', '*', '?', '%', 'S', '#', '@']
}

/// Number of glyphs in the ramp.
pub const RAMP_LEN: usize = 16;

/// Position in the ramp of the glyph for a 4-bit sample.
pub open spec fn glyph_index(v: int) -> int {
    v * (RAMP_LEN - 1) / 15
}

/// `round(y * (HEIGHT - 1) / height)`, clamped to the frame.
pub open spec fn source_row(y: int, height: int) -> int {
    let r = (2 * y * (HEIGHT - 1) + height) / (2 * height);
    if r > HEIGHT - 1 {
        HEIGHT - 1
    } else {
        r
    }
}

/// `round(x * WIDTH / width)`, clamped to the frame.
pub open spec fn source_col(x: int, width: int) -> int {
    let c = (2 * x * WIDTH + width) / (2 * width);
    if c > WIDTH - 1 {
        WIDTH - 1
    } else {
        c
    }
}

/// A sample of the grid, or 0 where the buffer is too short.
pub open spec fn sample_at(gray: Seq<u8>, i: int) -> u8 {
    if 0 <= i < gray.len() {
        gray[i]
    } else {
        0
    }
}

/// The glyph drawn at column `x` of row `y` of a `width` by `height` view.
pub open spec fn ascii_char(gray: Seq<u8>, width: int, height: int, y: int, x: int) -> char {
    ramp()[glyph_index(
        sample_at(gray, source_row(y, height) * WIDTH + source_col(x, width)) as int,
    )]
}

/// Row `y` of the view, with its line break.
pub open spec fn ascii_row(gray: Seq<u8>, width: int, height: int, y: int) -> Seq<char> {
    Seq::new(width as nat, |x: int| ascii_char(gray, width, height, y, x)).push('\n')
}

/// The first `n` rows of the view.
pub open spec fn ascii_rows(gray: Seq<u8>, width: int, height: int, n: nat) -> Seq<char>
    decreases n,
{
    if n == 0 {
        seq![]
    } else {
        ascii_rows(gray, width, height, (n - 1) as nat) + ascii_row(gray, width, height, n - 1)
    }
}

/// A packed frame drawn as `height` lines of `width` glyphs, nearest-neighbour sampled.
pub open spec fn ascii_art(packed: Seq<u8>, width: int, height: int) -> Seq<char> {
    ascii_rows(unpacked(packed), width, height, height as nat)
}

/// A full-size grid, packed and then drawn at its own size, shows at column `x`
/// of line `y` the glyph of the mirrored pixel of the sampled row: the packed
/// frame of a camera picture is seen as the picture mirrored.
pub proof fn lemma_full_size_view(g: Seq<u8>, y: int, x: int)
    requires
        g.len() == WIDTH * HEIGHT,
        0 <= y < HEIGHT,
        0 <= x < WIDTH,
    ensures
        ascii_char(unpacked(packed_frame(g, WIDTH as int, HEIGHT as int)), WIDTH as int, HEIGHT as int, y, x)
            == ramp()[nibble_of(g[source_row(y, HEIGHT as int) * WIDTH + (WIDTH - 1 - x)]) as int],
{
    let w = WIDTH as int;
    let h = HEIGHT as int;
    lemma_unpack_pack(g, w, h);
    assert(source_col(x, w) == x) by (nonlinear_arith)
        requires
            0 <= x < 92,
            w == 92,
            source_col(x, w) == (if (2 * x * 92 + w) / (2 * w) > 91 {
                91
            } else {
                (2 * x * 92 + w) / (2 * w)
            }),
    ;
    let sy = source_row(y, h);
    assert(0 <= sy <= 27);
    assert(sy * 92 + x < 92 * 28) by (nonlinear_arith)
        requires
            0 <= sy <= 27,
            0 <= x < 92,
    ;
    let v = nibble_of(g[sy * w + (w - 1 - x)]);
    assert(v <= 15);
    assert(glyph_index(v as int) == v) by (nonlinear_arith)
        requires
            0 <= v <= 15,
    ;
}

proof fn lemma_ascii_rows_index(gray: Seq<u8>, w: int, h: int, n: nat, y: int, x: int)
    requires
        w >= 0,
        0 <= y < n,
        0 <= x <= w,
    ensures
        ascii_rows(gray, w, h, n).len() == n * (w + 1),
        ascii_rows(gray, w, h, n)[y * (w + 1) + x] == if x < w {
            ascii_char(gray, w, h, y, x)
        } else {
            '\n'
        },
    decreases n,
{
    lemma_ascii_rows_len(gray, w, h, n);
    let prev = ascii_rows(gray, w, h, (n - 1) as nat);
    lemma_ascii_rows_len(gray, w, h, (n - 1) as nat);
    if y < n - 1 {
        lemma_ascii_rows_index(gray, w, h, (n - 1) as nat, y, x);
        assert(y * (w + 1) + x < (n - 1) * (w + 1)) by (nonlinear_arith)
            requires
                0 <= y < n - 1,
                0 <= x <= w,
        ;
    } else {
        assert(y * (w + 1) + x == prev.len() + x) by (nonlinear_arith)
            requires
                y == n - 1,
                prev.len() == (n - 1) * (w + 1),
        ;
    }
}

proof fn lemma_ascii_rows_len(gray: Seq<u8>, w: int, h: int, n: nat)
    requires
        w >= 0,
    ensures
        ascii_rows(gray, w, h, n).len() == n * (w + 1),
    decreases n,
{
    if n > 0 {
        lemma_ascii_rows_len(gray, w, h, (n - 1) as nat);
        assert(ascii_row(gray, w, h, n - 1).len() == w + 1);
        assert((n - 1) * (w + 1) + (w + 1) == n * (w + 1)) by (nonlinear_arith);
    } else {
        assert(n * (w + 1) == 0) by (nonlinear_arith)
            requires
                n == 0,
        ;
    }
}

/// The full-size drawing of a packed 92 by 28 grid, as `nibbles_to_ascii`
/// returns it for the output of `pack_gray`: 28 lines of 92 glyphs, each ended
/// by a line feed, where column `x` of line `y` is the glyph of the mirrored
/// pixel of the sampled row.
pub proof fn lemma_full_size_drawing(g: Seq<u8>, y: int, x: int)
    requires
        g.len() == WIDTH * HEIGHT,
        0 <= y < HEIGHT,
        0 <= x < WIDTH,
    ensures
        ({
            let art = ascii_art(packed_frame(g, WIDTH as int, HEIGHT as int), WIDTH as int, HEIGHT as int);
            &&& art.len() == HEIGHT * (WIDTH + 1)
            &&& art[y * (WIDTH + 1) + x] == ramp()[nibble_of(
                g[source_row(y, HEIGHT as int) * WIDTH + (WIDTH - 1 - x)],
            ) as int]
            &&& art[y * (WIDTH + 1) + WIDTH] == '\n'
        }),
{
    let gray = unpacked(packed_frame(g, WIDTH as int, HEIGHT as int));
    lemma_ascii_rows_index(gray, WIDTH as int, HEIGHT as int, HEIGHT as nat, y, x);
    lemma_ascii_rows_index(gray, WIDTH as int, HEIGHT as int, HEIGHT as nat, y, WIDTH as int);
    lemma_full_size_view(g, y, x);
}

fn glyph(v: u8) -> (c: char)
    requires
        v <= 15,
    ensures
        c == ramp()[glyph_index(v as int)],
{
    assert(glyph_index(v as int) == v) by (nonlinear_arith)
        requires
            0 <= v <= 15,
    ;
    match v {
        0 => ' ',
        1 => '.',
        2 => '^',
        3 => '=',
        4 => '~',
        5 => '-',
        6 => ',',
        7 => ':',
        8 => ';',
        9 => '+',
        10 => '*',
        11 => '?',
        12 => '%',
        13 => 'S',
        14 => '#',
        _ => '@',
    }
}

/// One step of drawing on the terminal.
#[derive(Debug, Clone, PartialEq, Eq)]
pub enum TerminalOp {
    /// Clear the whole screen and put the cursor at the top left.
    ClearScreen,
    /// Put the cursor at the start of a line, counted from 1.
    MoveTo(usize),
    /// Clear the cursor's line.
    ClearLine,
    /// Print text at the cursor.
    Print(String),
    /// Clear the rest of the cursor's line, then go to the next line.
    ClearLineBreak,
    /// Flush what was printed.
    Flush,
}

/// The content of a drawing step.
pub enum TerminalOpView {
    ClearScreen,
    MoveTo(nat),
    ClearLine,
    Print(Seq<char>),
    ClearLineBreak,
    Flush,
}

impl View for TerminalOp {
    type V = TerminalOpView;

    open spec fn view(&self) -> TerminalOpView {
        match self {
            TerminalOp::ClearScreen => TerminalOpView::ClearScreen,
            TerminalOp::MoveTo(n) => TerminalOpView::MoveTo(*n as nat),
            TerminalOp::ClearLine => TerminalOpView::ClearLine,
            TerminalOp::Print(s) => TerminalOpView::Print(s@),
            TerminalOp::ClearLineBreak => TerminalOpView::ClearLineBreak,
            TerminalOp::Flush => TerminalOpView::Flush,
        }
    }
}

/// The steps of a list of drawing steps.
pub open spec fn ops_view(v: Seq<TerminalOp>) -> Seq<TerminalOpView> {
    v.map_values(|o: TerminalOp| o@)
}

/// Redraws, among the first `n` lines, each line whose text changed.
pub open spec fn changed_line_ops(a: Seq<Seq<char>>, b: Seq<Seq<char>>, n: nat) -> Seq<
    TerminalOpView,
>
    decreases n,
{
    if n == 0 {
        seq![]
    } else {
        changed_line_ops(a, b, (n - 1) as nat) + if a[n - 1] != b[n - 1] {
            seq![
                TerminalOpView::MoveTo(n),
                TerminalOpView::ClearLine,
                TerminalOpView::Print(b[n - 1]),
            ]
        } else {
            seq![]
        }
    }
}

/// Clears lines `from + 1` to `to`.
pub open spec fn cleared_line_ops(from: nat, to: nat) -> Seq<TerminalOpView>
    decreases to,
{
    if to <= from {
        seq![]
    } else {
        cleared_line_ops(from, (to - 1) as nat) + seq![
            TerminalOpView::MoveTo(to),
            TerminalOpView::ClearLine,
        ]
    }
}

/// Most lines by which two texts may differ in count and still be redrawn line
/// by line.
pub const MAX_LINE_COUNT_CHANGE: usize = 5;

/// How to turn the screen showing `old` into one showing `new` line by line:
/// none when their line counts differ by more than five; else the changed lines
/// redrawn, the lines past the end of `new` cleared, and a flush if anything
/// was drawn.
pub open spec fn differential_plan(old: Seq<char>, new: Seq<char>) -> Option<Seq<TerminalOpView>> {
    let a = lines_of(old);
    let b = lines_of(new);
    if a.len() > b.len() + MAX_LINE_COUNT_CHANGE || b.len() > a.len() + MAX_LINE_COUNT_CHANGE {
        None
    } else {
        let common: nat = if a.len() <= b.len() {
            a.len()
        } else {
            b.len()
        };
        let core = changed_line_ops(a, b, common) + if a.len() > b.len() {
            cleared_line_ops(b.len(), a.len())
        } else {
            seq![]
        };
        Some(
            if core.len() > 0 {
                core.push(TerminalOpView::Flush)
            } else {
                core
            },
        )
    }
}

/// The steps that draw `new` from the top left over what `old` left on screen
/// (nothing, when `old` is none): the text, the leftover lines cleared, a flush.
pub open spec fn full_redraw(old: Option<Seq<char>>, new: Seq<char>) -> Seq<TerminalOpView> {
    let leftover: int = match old {
        Some(o) => lines_of(o).len() - lines_of(new).len(),
        None => 0,
    };
    seq![TerminalOpView::MoveTo(1), TerminalOpView::Print(new)] + Seq::new(
        if leftover > 0 {
            leftover as nat
        } else {
            0
        },
        |i: int| TerminalOpView::ClearLineBreak,
    ) + seq![TerminalOpView::Flush]
}

/// The steps that show `new` on a `width` by `height` terminal, given the size
/// and text last shown: a new size clears the screen first and forgets the
/// text; a known text is updated line by line where the plan allows it.
pub open spec fn update_plan(
    size: Option<(u16, u16)>,
    last: Option<Seq<char>>,
    new: Seq<char>,
    width: u16,
    height: u16,
) -> Seq<TerminalOpView> {
    let resized = size != Some((width, height));
    let start: Seq<TerminalOpView> = if resized {
        seq![TerminalOpView::ClearScreen]
    } else {
        seq![]
    };
    let known = if resized {
        None
    } else {
        last
    };
    match known {
        Some(o) => match differential_plan(o, new) {
            Some(ops) => start + ops,
            None => start + full_redraw(known, new),
        },
        None => start + full_redraw(known, new),
    }
}

fn push_op(out: &mut Vec<TerminalOp>, op: TerminalOp)
    ensures
        ops_view(final(out)@) == ops_view(old(out)@).push(op@),
{
    let ghost before = out@;
    out.push(op);
    assert(ops_view(out@) =~= ops_view(before).push(op@));
}

fn string_of_chars(cs: &Vec<char>) -> (r: String)
    ensures
        r@ == cs@,
{
    let mut s = String::new();
    crate::text::push_chars(&mut s, cs);
    s
}

/// The line-by-line plan for turning the screen showing `old_content` into one
/// showing `new_content`; none when the line counts differ by more than five.
pub fn try_differential_update(old_content: &str, new_content: &str) -> (r: Option<
    Vec<TerminalOp>,
>)
    ensures
        match r {
            Some(ops) => differential_plan(old_content@, new_content@) == Some(ops_view(ops@)),
            None => differential_plan(old_content@, new_content@) is None,
        },
{
    let old_lines = lines(old_content);
    let new_lines = lines(new_content);
    let ghost a = char_lines_view(old_lines@);
    let ghost b = char_lines_view(new_lines@);
    let old_count = old_lines.len();
    let new_count = new_lines.len();
    if (old_count > new_count && old_count - new_count > MAX_LINE_COUNT_CHANGE) || (new_count
        > old_count && new_count - old_count > MAX_LINE_COUNT_CHANGE) {
        return None;
    }
    let common = if old_lines.len() <= new_lines.len() {
        old_lines.len()
    } else {
        new_lines.len()
    };
    let mut ops: Vec<TerminalOp> = Vec::new();
    let mut i: usize = 0;
    while i < common
        invariant
            i <= common,
            common <= old_lines@.len(),
            common <= new_lines@.len(),
            a == char_lines_view(old_lines@),
            b == char_lines_view(new_lines@),
            ops_view(ops@) == changed_line_ops(a, b, i as nat),
        decreases common - i,
    {
        assert(a[i as int] == old_lines@[i as int]@);
        assert(b[i as int] == new_lines@[i as int]@);
        if !same_chars(&old_lines[i], &new_lines[i]) {
            push_op(&mut ops, TerminalOp::MoveTo(i + 1));
            push_op(&mut ops, TerminalOp::ClearLine);
            push_op(&mut ops, TerminalOp::Print(string_of_chars(&new_lines[i])));
        }
        i = i + 1;
        assert(ops_view(ops@) =~= changed_line_ops(a, b, i as nat));
    }
    let ghost changed = ops_view(ops@);
    if old_lines.len() > new_lines.len() {
        let mut j: usize = new_lines.len();
        while j < old_lines.len()
            invariant
                new_lines@.len() <= j <= old_lines@.len(),
                ops_view(ops@) == changed + cleared_line_ops(
                    new_lines@.len() as nat,
                    j as nat,
                ),
            decreases old_lines@.len() - j,
        {
            push_op(&mut ops, TerminalOp::MoveTo(j + 1));
            push_op(&mut ops, TerminalOp::ClearLine);
            j = j + 1;
            assert(ops_view(ops@) =~= changed + cleared_line_ops(
                new_lines@.len() as nat,
                j as nat,
            ));
        }
    } else {
        assert(ops_view(ops@) =~= changed + seq![]);
    }
    if ops.len() > 0 {
        push_op(&mut ops, TerminalOp::Flush);
    }
    Some(ops)
}

/// Terminal-side drawing state: the last buffer shown and the size it was shown at.
pub struct AsciiConverter {
    last_frame: Option<String>,
    terminal_size: Option<(u16, u16)>,
}

impl AsciiConverter {
    pub fn new() -> (r: Self)
        ensures
            r.last_frame() is None,
            r.terminal_size() is None,
    {
        AsciiConverter { last_frame: None, terminal_size: None }
    }

    pub closed spec fn last_frame(&self) -> Option<String> {
        self.last_frame
    }

    pub closed spec fn terminal_size(&self) -> Option<(u16, u16)> {
        self.terminal_size
    }

    /// The steps that show `new_content` on a `terminal_width` by
    /// `terminal_height` terminal; remembers the size and the text shown.
    pub fn update_terminal_smooth(&mut self, new_content: &str, terminal_width: u16, terminal_height: u16) -> (r: Vec<TerminalOp>)
        ensures
            ops_view(r@) == update_plan(
                old(self).terminal_size(),
                match old(self).last_frame() {
                    Some(f) => Some(f@),
                    None => None,
                },
                new_content@,
                terminal_width,
                terminal_height,
            ),
            final(self).terminal_size() == Some((terminal_width, terminal_height)),
            final(self).last_frame() matches Some(f) && f@ == new_content@,
    {
        let mut ops: Vec<TerminalOp> = Vec::new();
        let resized = match self.terminal_size {
            Some((w, h)) => w != terminal_width || h != terminal_height,
            None => true,
        };
        if resized {
            push_op(&mut ops, TerminalOp::ClearScreen);
            self.terminal_size = Some((terminal_width, terminal_height));
            self.last_frame = None;
        }
        let ghost start = ops_view(ops@);
        let ghost known = match &self.last_frame {
            Some(f) => Some(f@),
            None => None,
        };
        if let Some(last) = &self.last_frame {
            if let Some(mut diff) = try_differential_update(last.as_str(), new_content) {
                let ghost steps = ops_view(diff@);
                ops.append(&mut diff);
                assert(ops_view(ops@) =~= start + steps);
                self.last_frame = Some(String::from_str(new_content));
                return ops;
            }
        }
        push_op(&mut ops, TerminalOp::MoveTo(1));
        push_op(&mut ops, TerminalOp::Print(String::from_str(new_content)));
        let ghost with_text = ops_view(ops@);
        let mut extra: usize = 0;
        if let Some(last) = &self.last_frame {
            let new_count = lines(new_content).len();
            let old_count = lines(last.as_str()).len();
            if old_count > new_count {
                extra = old_count - new_count;
            }
        }
        let mut k: usize = 0;
        while k < extra
            invariant
                k <= extra,
                ops_view(ops@) == with_text + Seq::new(k as nat, |i: int| TerminalOpView::ClearLineBreak),
            decreases extra - k,
        {
            push_op(&mut ops, TerminalOp::ClearLineBreak);
            k = k + 1;
            assert(ops_view(ops@) =~= with_text + Seq::new(k as nat, |i: int| TerminalOpView::ClearLineBreak));
        }
        push_op(&mut ops, TerminalOp::Flush);
        assert(ops_view(ops@) =~= start + full_redraw(known, new_content@));
        self.last_frame = Some(String::from_str(new_content));
        ops
    }

    /// Draws a packed frame as `height` lines of `width` glyphs each.
    pub fn nibbles_to_ascii(nibbles: &[u8], width: u16, height: u16) -> (r: String)
        ensures
            r@ == ascii_art(nibbles@, width as int, height as int),
    {
        let gray = unpack_nibbles(nibbles);
        let ghost g = gray@;
        let ghost w = width as int;
        let ghost h = height as int;
        let mut art = String::new();
        let mut y: u16 = 0;
        while y < height
            invariant
                g == gray@,
                g == unpacked(nibbles@),
                w == width,
                h == height,
                y <= height,
                art@ == ascii_rows(g, w, h, y as nat),
            decreases height - y,
        {
            let r: u64 = ((y as u64) * 54 + height as u64) / (2 * height as u64);
            let sy: u64 = if r > (HEIGHT - 1) as u64 {
                (HEIGHT - 1) as u64
            } else {
                r
            };
            assert(sy == source_row(y as int, h));
            let ghost before = art@;
            let mut x: u16 = 0;
            while x < width
                invariant
                    g == gray@,
                    g == unpacked(nibbles@),
                    w == width,
                    h == height,
                    y < height,
                    x <= width,
                    sy == source_row(y as int, h),
                    sy <= HEIGHT - 1,
                    before == ascii_rows(g, w, h, y as nat),
                    art@ == before + Seq::new(
                        x as nat,
                        |i: int| ascii_char(g, w, h, y as int, i),
                    ),
                decreases width - x,
            {
                let c: u64 = ((x as u64) * 184 + width as u64) / (2 * width as u64);
                let sx: u64 = if c > (WIDTH - 1) as u64 {
                    (WIDTH - 1) as u64
                } else {
                    c
                };
                assert(sx == source_col(x as int, w));
                assert(sy * 92 <= 27 * 92) by (nonlinear_arith)
                    requires
                        sy <= 27,
                ;
                let idx: u64 = sy * 92 + sx;
                let pixel: u8 = if idx < gray.len() as u64 {
                    gray[idx as usize]
                } else {
                    0
                };
                assert(pixel == sample_at(g, idx as int));
                assert(pixel <= 15) by {
                    if idx < gray.len() {
                        let k = idx as int;
                        assert(g[k] == (if k % 2 == 0 {
                            nibbles@[k / 2] / 16
                        } else {
                            nibbles@[k / 2] % 16
                        }));
                    }
                }
                push_char(&mut art, glyph(pixel));
                assert(art@ =~= before + Seq::new(
                    (x + 1) as nat,
                    |i: int| ascii_char(g, w, h, y as int, i),
                ));
                x = x + 1;
            }
            push_char(&mut art, '\n');
            assert(art@ =~= ascii_rows(g, w, h, (y + 1) as nat));
            y = y + 1;
        }
        art
    }
}

} // verus!
