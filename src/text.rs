use vstd::prelude::*;

verus! {

/// Relies on `String::push`: appends one character at the end.
#[verifier::external_body]
pub(crate) fn push_char(s: &mut String, c: char)
    ensures
        final(s)@ == old(s)@.push(c),
{
    s.push(c);
}

/// The characters of a string, in order.
pub fn chars_of(s: &str) -> (r: Vec<char>)
    ensures
        r@ == s@,
{
    let mut out: Vec<char> = Vec::new();
    for c in it: s.chars()
        invariant
            out@ == it.seq().take(it.index() as int),
    {
        out.push(c);
    }
    out
}

/// `prefix`, then `name`, then `suffix`.
pub fn framed_name(prefix: &str, name: &str, suffix: &str) -> (r: String)
    ensures
        r@ == prefix@ + name@ + suffix@,
{
    let mut s = String::from_str(prefix);
    s.append(name);
    s.append(suffix);
    s
}

/// Appends the characters of `cs` to `s`.
pub fn push_chars(s: &mut String, cs: &Vec<char>)
    ensures
        final(s)@ == old(s)@ + cs@,
{
    let mut i: usize = 0;
    while i < cs.len()
        invariant
            i <= cs@.len(),
            s@ == old(s)@ + cs@.take(i as int),
        decreases cs@.len() - i,
    {
        push_char(s, cs[i]);
        i = i + 1;
        assert(s@ =~= old(s)@ + cs@.take(i as int));
    }
    assert(cs@.take(i as int) =~= cs@);
}

/// The pieces of `s` between line breaks; there is always at least one.
pub open spec fn pieces(s: Seq<char>) -> Seq<Seq<char>>
    decreases s.len(),
{
    if s.len() == 0 {
        seq![seq![]]
    } else {
        let p = pieces(s.drop_last());
        if s.last() == '\n' {
            p.push(seq![])
        } else {
            p.update(p.len() - 1, p.last().push(s.last()))
        }
    }
}

proof fn lemma_pieces_nonempty(s: Seq<char>)
    ensures
        pieces(s).len() >= 1,
    decreases s.len(),
{
    if s.len() > 0 {
        lemma_pieces_nonempty(s.drop_last());
    }
}

/// A line without the carriage return that may end it.
pub open spec fn strip_cr(l: Seq<char>) -> Seq<char> {
    if l.len() > 0 && l.last() == '\r' {
        l.drop_last()
    } else {
        l
    }
}

/// The lines of `s`, as `str::lines` yields them: split at each line feed; a
/// piece that a line feed ended loses a carriage return before it; the final
/// piece, which no line feed ended, is kept as it is, and dropped when empty.
pub open spec fn lines_of(s: Seq<char>) -> Seq<Seq<char>> {
    let p = pieces(s);
    let ended = p.drop_last().map_values(|l: Seq<char>| strip_cr(l));
    if p.len() > 0 && p.last().len() > 0 {
        ended.push(p.last())
    } else {
        ended
    }
}

/// The character sequences of a list of character vectors.
pub open spec fn char_lines_view(v: Seq<Vec<char>>) -> Seq<Seq<char>> {
    v.map_values(|l: Vec<char>| l@)
}

fn strip_cr_exec(mut l: Vec<char>) -> (r: Vec<char>)
    ensures
        r@ == strip_cr(l@),
{
    if l.len() > 0 && l[l.len() - 1] == '\r' {
        l.pop();
    }
    l
}

/// The lines of a string, as `str::lines` yields them.
pub fn lines(s: &str) -> (r: Vec<Vec<char>>)
    ensures
        char_lines_view(r@) == lines_of(s@),
{
    let chars = chars_of(s);
    let mut done: Vec<Vec<char>> = Vec::new();
    let mut cur: Vec<char> = Vec::new();
    let mut i: usize = 0;
    while i < chars.len()
        invariant
            i <= chars@.len(),
            chars@ == s@,
            char_lines_view(done@).push(cur@) == pieces(chars@.take(i as int)),
        decreases chars@.len() - i,
    {
        let c = chars[i];
        let ghost before = chars@.take(i as int);
        assert(chars@.take(i + 1).drop_last() =~= before);
        if c == '\n' {
            done.push(cur);
            cur = Vec::new();
            assert(char_lines_view(done@).push(cur@) =~= pieces(chars@.take(i + 1)));
        } else {
            cur.push(c);
            proof {
                lemma_pieces_nonempty(before);
            }
            assert(char_lines_view(done@).push(cur@) =~= pieces(chars@.take(i + 1)));
        }
        i = i + 1;
    }
    assert(chars@.take(i as int) =~= s@);
    let ghost p = pieces(s@);
    proof {
        lemma_pieces_nonempty(s@);
    }
    let ghost q = char_lines_view(done@);
    assert(q =~= p.drop_last());
    let mut out: Vec<Vec<char>> = Vec::new();
    let mut j: usize = 0;
    let n = done.len();
    while j < n
        invariant
            j <= n,
            n == q.len(),
            done@.len() == n - j,
            forall|a: int| 0 <= a < n - j ==> (#[trigger] done@[a])@ == q[a + j],
            out@.len() == j,
            forall|a: int| 0 <= a < j ==> (#[trigger] out@[a])@ == strip_cr(q[a]),
        decreases n - j,
    {
        let line = done.remove(0);
        out.push(strip_cr_exec(line));
        j = j + 1;
    }
    let ghost ended = q.map_values(|l: Seq<char>| strip_cr(l));
    assert(char_lines_view(out@) =~= ended);
    if cur.len() > 0 {
        out.push(cur);
        assert(char_lines_view(out@) =~= ended.push(p.last()));
    }
    out
}

/// Whether two character vectors hold the same characters.
pub fn same_chars(t: &Vec<char>, p: &Vec<char>) -> (r: bool)
    ensures
        r == (t@ == p@),
{
    if t.len() != p.len() {
        return false;
    }
    let mut i: usize = 0;
    while i < t.len()
        invariant
            t@.len() == p@.len(),
            i <= t@.len(),
            forall|j: int| 0 <= j < i ==> t@[j] == p@[j],
        decreases t@.len() - i,
    {
        if t[i] != p[i] {
            return false;
        }
        i = i + 1;
    }
    assert(t@ =~= p@);
    true
}

} // verus!
