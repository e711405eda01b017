use vstd::prelude::*;
use crate::text::{chars_of, lemma_split_fields_nonempty, split_chars, split_fields, string_from_chars};

verus! {

/// A line without the carriage return of a `\r\n` ending.
pub open spec fn strip_cr(l: Seq<char>) -> Seq<char> {
    if l.len() > 0 && l.last() == '\r' {
        l.drop_last()
    } else {
        l
    }
}

/// The lines of a text, as `str::lines` gives them: the text split at each
/// `\n`, a `\r` just before a `\n` dropped, and no empty line after a
/// final `\n`.
pub open spec fn lines_of(s: Seq<char>) -> Seq<Seq<char>> {
    let f = split_fields(s, '\n');
    let ended = Seq::new((f.len() - 1) as nat, |i: int| strip_cr(f[i]));
    if f.last().len() > 0 {
        ended.push(f.last())
    } else {
        ended
    }
}

/// Splits a text into its lines.
pub fn split_lines(s: &str) -> (r: Vec<String>)
    ensures
        lines_view(r@) == lines_of(s@),
{
    let cs = chars_of(s);
    let fields = split_chars(&cs, '\n');
    let ghost f = split_fields(s@, '\n');
    proof {
        lemma_split_fields_nonempty(s@, '\n');
    }
    assert(fields@.map_values(|v: Vec<char>| v@) == f);
    let n = fields.len() - 1;
    let mut out: Vec<String> = Vec::new();
    let mut i: usize = 0;
    while i < n
        invariant
            n == f.len() - 1,
            i <= n,
            out@.len() == i,
            fields@.map_values(|v: Vec<char>| v@) == f,
            lines_view(out@) == Seq::new(i as nat, |k: int| strip_cr(f[k])),
        decreases n - i,
    {
        let mut line = fields[i].clone();
        assert(line@ == f[i as int]);
        let len = line.len();
        if len > 0 && line[len - 1] == '\r' {
            line.pop();
        }
        assert(line@ == strip_cr(f[i as int]));
        let st = string_from_chars(&line);
        let ghost prev = out@;
        out.push(st);
        assert forall|k: int| 0 <= k < i + 1 implies #[trigger] lines_view(out@)[k]
            == strip_cr(f[k]) by {
            if k < i {
                assert(out@[k] == prev[k]);
                assert(lines_view(prev)[k] == strip_cr(f[k]));
            }
        }
        i = i + 1;
        assert(lines_view(out@) =~= Seq::new(i as nat, |k: int| strip_cr(f[k])));
    }
    assert(fields@[n as int]@ == f.last());
    if fields[n].len() > 0 {
        out.push(string_from_chars(&fields[n]));
    }
    assert(lines_view(out@) =~= lines_of(s@));
    out
}

/// The rows to rewrite when `new` replaces `old` on screen, among the first
/// `n`: each row that `old` does not have or holds differently, with its new
/// text.
pub open spec fn changed_rows(old: Seq<Seq<char>>, new: Seq<Seq<char>>, n: nat) -> Seq<
    (nat, Seq<char>),
>
    decreases n,
{
    if n == 0 {
        Seq::empty()
    } else {
        let y = (n - 1) as nat;
        let prev = changed_rows(old, new, y);
        if y >= old.len() || old[y as int] != new[y as int] {
            prev.push((y, new[y as int]))
        } else {
            prev
        }
    }
}

/// The terminal writes for one redraw: rewrite each row in `writes`, in
/// order, then clear the rows `clear_from .. clear_to`, which the previous
/// screen had and the new one has not.
pub struct DrawPlan {
    pub writes: Vec<(usize, String)>,
    pub clear_from: usize,
    pub clear_to: usize,
}

pub open spec fn writes_view(w: Seq<(usize, String)>) -> Seq<(nat, Seq<char>)> {
    w.map_values(|e: (usize, String)| (e.0 as nat, e.1@))
}

/// The screen state kept between redraws: the lines currently drawn.
pub struct TerminalManager {
    pub previous_lines: Vec<String>,
}

pub open spec fn lines_view(l: Seq<String>) -> Seq<Seq<char>> {
    l.map_values(|s: String| s@)
}

impl TerminalManager {
    pub fn new() -> (t: TerminalManager)
        ensures
            t.previous_lines@.len() == 0,
    {
        TerminalManager { previous_lines: Vec::new() }
    }

    /// Forgets what was drawn, so that the next redraw writes every line.
    pub fn reset(&mut self)
        ensures
            final(self).previous_lines@.len() == 0,
    {
        self.previous_lines = Vec::new();
    }

    /// Plans the redraw of `content`: only the lines that differ from those
    /// drawn before are written, and lines left over from a longer previous
    /// screen are cleared. `content` becomes what is drawn.
    pub fn draw(&mut self, content: &str) -> (plan: DrawPlan)
        ensures
            lines_view(final(self).previous_lines@) == lines_of(content@),
            writes_view(plan.writes@) == changed_rows(
                lines_view(old(self).previous_lines@),
                lines_of(content@),
                lines_of(content@).len(),
            ),
            plan.clear_from == lines_of(content@).len(),
            plan.clear_to == if lines_of(content@).len() < old(self).previous_lines@.len() {
                old(self).previous_lines@.len()
            } else {
                lines_of(content@).len()
            },
    {
        let new_lines = split_lines(content);
        let ghost old_v = lines_view(self.previous_lines@);
        let ghost new_v = lines_view(new_lines@);
        assert(new_v =~= lines_of(content@));
        let mut writes: Vec<(usize, String)> = Vec::new();
        let mut y: usize = 0;
        while y < new_lines.len()
            invariant
                y <= new_lines@.len(),
                old_v == lines_view(self.previous_lines@),
                new_v == lines_view(new_lines@),
                writes_view(writes@) == changed_rows(old_v, new_v, y as nat),
            decreases new_lines@.len() - y,
        {
            let changed = if y >= self.previous_lines.len() {
                true
            } else {
                !(self.previous_lines[y] == new_lines[y])
            };
            if changed {
                writes.push((y, new_lines[y].clone()));
            }
            assert(writes_view(writes@) =~= changed_rows(old_v, new_v, (y + 1) as nat));
            y = y + 1;
        }
        let n_new = new_lines.len();
        let n_old = self.previous_lines.len();
        self.previous_lines = new_lines;
        DrawPlan {
            writes,
            clear_from: n_new,
            clear_to: if n_new < n_old {
                n_old
            } else {
                n_new
            },
        }
    }
}

/// A key press, as far as playback tells keys apart.
#[derive(Clone, Copy, Debug, PartialEq, Eq, Structural)]
pub enum KeyPress {
    Escape,
    /// A character key, and whether Control was held.
    Char(char, bool),
    Other,
}

/// Whether a key press asks playback to stop: Escape, or Control+C.
pub fn is_exit_key(key: KeyPress) -> (r: bool)
    ensures
        r == (key == KeyPress::Escape || key == KeyPress::Char('c', true)),
{
    match key {
        KeyPress::Escape => true,
        KeyPress::Char(c, ctrl) => c == 'c' && ctrl,
        KeyPress::Other => false,
    }
}

} // verus!
