use vstd::prelude::*;

use crate::ascii::{ascii_art, AsciiConverter};
use crate::text::{char_lines_view, lines, lines_of, push_char, push_chars};

verus! {

/// Line `i` of a list of lines, or an empty line past its end.
pub open spec fn line_or_empty(ls: Seq<Seq<char>>, i: int) -> Seq<char> {
    if 0 <= i < ls.len() {
        ls[i]
    } else {
        seq![]
    }
}

/// The first `n` rows of two texts set side by side: line `i` of the first,
/// two spaces, line `i` of the second; rows joined by line feeds.
pub open spec fn side_by_side_rows(a: Seq<Seq<char>>, b: Seq<Seq<char>>, n: nat) -> Seq<char>
    decreases n,
{
    if n == 0 {
        seq![]
    } else {
        side_by_side_rows(a, b, (n - 1) as nat) + (if n > 1 {
            seq!['\n']
        } else {
            seq![]
        }) + line_or_empty(a, n - 1) + seq![' ', ' '] + line_or_empty(b, n - 1)
    }
}

/// Two texts side by side, as many rows as the longer has lines.
pub open spec fn side_by_side(f1: Seq<char>, f2: Seq<char>) -> Seq<char> {
    let a = lines_of(f1);
    let b = lines_of(f2);
    side_by_side_rows(a, b, if a.len() >= b.len() {
        a.len()
    } else {
        b.len()
    })
}

/// `a - b`, or 0 when `b` is larger.
pub open spec fn sat_sub(a: int, b: int) -> int {
    if a >= b {
        a - b
    } else {
        0
    }
}

/// Whether two frames are stacked rather than set side by side: the terminal
/// is narrow, `width * 0.38 < height`.
pub open spec fn stacked(width: int, height: int) -> bool {
    width * 38 < height * 100
}

/// The rows of a grid of drawn frames, two to a row, the first `n` rows, rows
/// separated by an empty line.
pub open spec fn grid_rows(arts: Seq<Seq<char>>, n: nat) -> Seq<char>
    decreases n,
{
    if n == 0 {
        seq![]
    } else {
        let row = if 2 * (n - 1) + 1 < arts.len() {
            side_by_side(arts[2 * (n - 1)], arts[2 * (n - 1) + 1])
        } else {
            arts[2 * (n - 1)]
        };
        grid_rows(arts, (n - 1) as nat) + (if n > 1 {
            seq!['\n', '\n']
        } else {
            seq![]
        }) + row
    }
}

/// The whole view for `width` by `height` characters: one frame fills it; two
/// are stacked on a narrow terminal and side by side on a wide one; more make a
/// grid of two columns and `ceil(n / 2)` rows.
pub open spec fn composed(frames: Seq<Seq<u8>>, width: int, height: int) -> Seq<char> {
    let n = frames.len();
    if n == 0 {
        seq![]
    } else if n == 1 {
        ascii_art(frames[0], width, height)
    } else if n == 2 {
        if stacked(width, height) {
            let h = sat_sub(height, 1) / 2;
            ascii_art(frames[0], width, h) + seq!['\n'] + ascii_art(frames[1], width, h)
        } else {
            let w = sat_sub(width, 1) / 2;
            side_by_side(ascii_art(frames[0], w, height), ascii_art(frames[1], w, height))
        }
    } else {
        let rows = (n + 1) as int / 2;
        let h = sat_sub(height + 1, rows) / rows;
        let w = sat_sub(width, 2) / 2;
        grid_rows(Seq::new(n, |i: int| ascii_art(frames[i], w, h)), rows as nat)
    }
}

fn side_by_side_chars(a: &Vec<Vec<char>>, b: &Vec<Vec<char>>) -> (r: String)
    ensures
        r@ == side_by_side_rows(
            char_lines_view(a@),
            char_lines_view(b@),
            if a@.len() >= b@.len() {
                a@.len()
            } else {
                b@.len()
            },
        ),
{
    let ghost la = char_lines_view(a@);
    let ghost lb = char_lines_view(b@);
    let n = if a.len() >= b.len() {
        a.len()
    } else {
        b.len()
    };
    let empty: Vec<char> = Vec::new();
    let mut result = String::new();
    let mut i: usize = 0;
    while i < n
        invariant
            i <= n,
            la == char_lines_view(a@),
            lb == char_lines_view(b@),
            empty@.len() == 0,
            result@ == side_by_side_rows(la, lb, i as nat),
        decreases n - i,
    {
        if i > 0 {
            push_char(&mut result, '\n');
        }
        let line1 = if i < a.len() {
            &a[i]
        } else {
            &empty
        };
        let line2 = if i < b.len() {
            &b[i]
        } else {
            &empty
        };
        assert(line1@ =~= line_or_empty(la, i as int));
        assert(line2@ =~= line_or_empty(lb, i as int));
        push_chars(&mut result, line1);
        push_char(&mut result, ' ');
        push_char(&mut result, ' ');
        push_chars(&mut result, line2);
        i = i + 1;
        assert(result@ =~= side_by_side_rows(la, lb, i as nat));
    }
    result
}

/// Two texts side by side: line `i` of the first, two spaces, line `i` of the
/// second, for as many rows as the longer has lines.
pub fn frames_side_by_side_to_string(frame1: &str, frame2: &str) -> (r: String)
    ensures
        r@ == side_by_side(frame1@, frame2@),
{
    let a = lines(frame1);
    let b = lines(frame2);
    side_by_side_chars(&a, &b)
}

fn side_by_side_strings(frame1: &String, frame2: &String) -> (r: String)
    ensures
        r@ == side_by_side(frame1@, frame2@),
{
    frames_side_by_side_to_string(frame1.as_str(), frame2.as_str())
}

/// Composes the frames of a call into one view of `width` by `height`
/// characters: the first frame is the caller's own.
pub fn render_frames_to_string(frames: Vec<Vec<u8>>, width: u16, height: u16) -> (r: String)
    ensures
        r@ == composed(frames@.map_values(|f: Vec<u8>| f@), width as int, height as int),
{
    let ghost fs = frames@.map_values(|f: Vec<u8>| f@);
    let n = frames.len();
    assert(fs.len() == n);
    if n == 0 {
        return String::new();
    }
    if n == 1 {
        return AsciiConverter::nibbles_to_ascii(frames[0].as_slice(), width, height);
    }
    if n == 2 {
        if (width as u32) * 38 < (height as u32) * 100 {
            let h = if height >= 1 {
                (height - 1) / 2
            } else {
                0
            };
            let mut view = AsciiConverter::nibbles_to_ascii(frames[0].as_slice(), width, h);
            push_char(&mut view, '\n');
            let second = AsciiConverter::nibbles_to_ascii(frames[1].as_slice(), width, h);
            view.append(second.as_str());
            return view;
        } else {
            let w = if width >= 1 {
                (width - 1) / 2
            } else {
                0
            };
            let first = AsciiConverter::nibbles_to_ascii(frames[0].as_slice(), w, height);
            let second = AsciiConverter::nibbles_to_ascii(frames[1].as_slice(), w, height);
            return side_by_side_strings(&first, &second);
        }
    }
    let rows: usize = n / 2 + n % 2;
    assert(rows == (n + 1) / 2);
    let h: u16 = if (height as usize) + 1 >= rows {
        (((height as usize) + 1 - rows) / rows) as u16
    } else {
        0
    };
    let w: u16 = if width >= 2 {
        (width - 2) / 2
    } else {
        0
    };
    let ghost arts_spec = Seq::new(fs.len(), |i: int| ascii_art(fs[i], w as int, h as int));
    let mut arts: Vec<String> = Vec::new();
    let mut i: usize = 0;
    while i < n
        invariant
            n == frames@.len(),
            fs == frames@.map_values(|f: Vec<u8>| f@),
            i <= n,
            arts_spec == Seq::new(fs.len(), |i: int| ascii_art(fs[i], w as int, h as int)),
            arts@.len() == i,
            forall|a: int| 0 <= a < i ==> (#[trigger] arts@[a])@ == arts_spec[a],
        decreases n - i,
    {
        assert(fs[i as int] == frames@[i as int]@);
        arts.push(AsciiConverter::nibbles_to_ascii(frames[i].as_slice(), w, h));
        i = i + 1;
    }
    let mut result = String::new();
    let mut p: usize = 0;
    while p < rows
        invariant
            rows == (n + 1) / 2,
            n == arts@.len(),
            n == arts_spec.len(),
            p <= rows,
            forall|a: int| 0 <= a < n ==> (#[trigger] arts@[a])@ == arts_spec[a],
            result@ == grid_rows(arts_spec, p as nat),
        decreases rows - p,
    {
        if p > 0 {
            push_char(&mut result, '\n');
            push_char(&mut result, '\n');
        }
        if 2 * p + 1 < n {
            let pair = side_by_side_strings(&arts[2 * p], &arts[2 * p + 1]);
            result.append(pair.as_str());
        } else {
            result.append(arts[2 * p].as_str());
        }
        p = p + 1;
        assert(result@ =~= grid_rows(arts_spec, p as nat));
    }
    result
}

} // verus!
