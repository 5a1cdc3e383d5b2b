//! The progress block on stderr: the last few tool calls plus a live status
//! line, redrawn in place. The block decides what to paint; the caller
//! paints it on the terminal.

use vstd::prelude::*;

use crate::text::{char_is_control, is_control, strings_view, to_chars};

verus! {

/// The display width `console::measure_text_width` gives a text.
pub uninterp spec fn text_width(s: Seq<char>) -> usize;

pub open spec fn printable_ascii(s: Seq<char>) -> bool {
    forall|i: int| 0 <= i < s.len() ==> ' ' <= #[trigger] s[i] <= '~'
}

/// Calls `console::measure_text_width` on one character. With the crate's
/// default features a text of printable ASCII measures its length, so such
/// a character is one column wide; other widths come from `unicode-width`
/// and are not written out.
#[verifier::external_body]
fn char_width(c: char) -> (r: usize)
    ensures
        r == text_width(seq![c]),
        printable_ascii(seq![c]) ==> r == 1,
{
    console::measure_text_width(&c.to_string())
}

/// The columns one character takes: one for printable ASCII, otherwise what
/// `console::measure_text_width` gives it.
pub open spec fn char_columns(c: char) -> usize {
    if ' ' <= c <= '~' {
        1
    } else {
        text_width(seq![c])
    }
}

/// Characters that would not corrupt the terminal: line breaks and tabs,
/// and everything that is not a control character.
pub open spec fn keeps(c: char) -> bool {
    c == '\n' || c == '\t' || !char_is_control(c)
}

pub open spec fn printable_text(s: Seq<char>) -> Seq<char> {
    s.filter(|c: char| keeps(c))
}

/// Drop control characters that would corrupt the terminal.
pub fn printable(text: &str) -> (r: String)
    ensures
        r@ == printable_text(text@),
{
    let c = to_chars(text);
    let ghost pred = |c: char| keeps(c);
    let mut out = String::new();
    for i in 0..c.len()
        invariant
            c@ == text@,
            pred == (|c: char| keeps(c)),
            out@ == text@.take(i as int).filter(pred),
    {
        proof {
            crate::text::lemma_filter_map_step(text@, i as int, pred, |c: char| c);
            assert(text@.take(i as int).filter(pred).map_values(|c: char| c) =~= text@.take(
                i as int,
            ).filter(pred));
            assert(text@.take(i + 1).filter(pred).map_values(|c: char| c) =~= text@.take(
                i + 1,
            ).filter(pred));
        }
        let ch = c[i];
        if ch == '\n' || ch == '\t' || !is_control(ch) {
            out.push(ch);
        }
    }
    assert(text@.take(c.len() as int) =~= text@);
    out
}

/// What one character of a command looks like in the announcement.
pub open spec fn shown_char(c: char) -> char {
    if c == '\n' {
        '⏎'
    } else if c == '\t' {
        ' '
    } else {
        c
    }
}

/// The announced command: printable, one line.
pub open spec fn shown_command(command: Seq<char>) -> Seq<char> {
    printable_text(command).map_values(|c: char| shown_char(c))
}

/// What the caller paints on the terminal.
#[derive(Debug)]
pub enum Paint {
    /// A line of text outside the block.
    Line(String),
    /// Redraw the block in place: move the cursor up `up` lines, then
    /// clear and write `total` rows, the first ones from `rows`, the
    /// rest blank.
    Block { up: usize, rows: Vec<String>, total: usize },
    /// Erase the last `count` lines and park the cursor on the first of them.
    Erase { count: usize },
}

/// The progress block's state.
pub struct Ui {
    pub tty: bool,
    /// Wrap width for rendered note output (may exceed the terminal).
    pub width: usize,
    /// Physical room for the progress block: never more than the terminal.
    pub block_width: usize,
    pub max_lines: usize,
    /// The shown tool lines, oldest first.
    pub lines: Vec<String>,
    pub clouds: usize,
    pub frame: usize,
    /// How many rows the block occupies on the terminal.
    pub drawn: usize,
}

pub open spec fn frame_char(k: int) -> char {
    if k == 0 {
        '⠋'
    } else if k == 1 {
        '⠙'
    } else if k == 2 {
        '⠹'
    } else if k == 3 {
        '⠸'
    } else if k == 4 {
        '⠼'
    } else if k == 5 {
        '⠴'
    } else if k == 6 {
        '⠦'
    } else if k == 7 {
        '⠧'
    } else if k == 8 {
        '⠇'
    } else {
        '⠏'
    }
}

fn frame_at(k: usize) -> (r: char)
    ensures
        r == frame_char(k as int),
{
    if k == 0 {
        '⠋'
    } else if k == 1 {
        '⠙'
    } else if k == 2 {
        '⠹'
    } else if k == 3 {
        '⠸'
    } else if k == 4 {
        '⠼'
    } else if k == 5 {
        '⠴'
    } else if k == 6 {
        '⠦'
    } else if k == 7 {
        '⠧'
    } else if k == 8 {
        '⠇'
    } else {
        '⠏'
    }
}

/// `n` copies of a character.
pub open spec fn repeated(c: char, n: nat) -> Seq<char> {
    Seq::new(n, |i: int| c)
}

fn repeat_char(c: char, n: usize) -> (r: String)
    ensures
        r@ == repeated(c, n as nat),
{
    let mut out = String::new();
    for i in 0..n
        invariant
            out@ == repeated(c, i as nat),
    {
        out.push(c);
        assert(out@ =~= repeated(c, (i + 1) as nat));
    }
    out
}

/// The status line: one cloud per thinking block since the last tool call,
/// as many as fit, then the spinner.
pub open spec fn status_text(ui: Ui) -> Seq<char> {
    let room: int = if ui.block_width >= 2 { (ui.block_width - 2) / 2 } else { 0 };
    let clouds: int = if ui.clouds < room { ui.clouds as int } else { room };
    repeated('💭', clouds as nat).push(frame_char((ui.frame % 10) as int))
}

/// Width that a clipped line may fill before the ellipsis.
pub open spec fn clip_limit(block_width: int) -> int {
    if block_width >= 2 { block_width - 1 } else { 1 }
}

/// The characters that fit in `limit` columns after `used` are taken, with
/// an ellipsis where the first one that does not fit would be.
pub open spec fn clip_rest(t: Seq<char>, used: int, limit: int) -> Seq<char>
    decreases t.len(),
{
    if t.len() == 0 {
        Seq::empty()
    } else {
        let w = char_columns(t[0]) as int;
        if used + w > limit {
            seq!['…']
        } else {
            seq![t[0]] + clip_rest(t.drop_first(), used + w, limit)
        }
    }
}

pub open spec fn clipped(text: Seq<char>, block_width: int) -> Seq<char> {
    clip_rest(printable_text(text), 0, clip_limit(block_width))
}

/// The tool line before clipping.
pub open spec fn tool_text(name: Seq<char>, summary: Seq<char>) -> Seq<char> {
    if summary.len() == 0 {
        seq!['🔧'] + name
    } else {
        seq!['🔧'] + name + ": "@ + summary
    }
}

pub open spec fn announce_text(command: Seq<char>, tty: bool) -> Seq<char> {
    if tty {
        "⚡ \u{1b}[1m"@ + shown_command(command) + "\u{1b}[0m"@
    } else {
        "⚡ "@ + shown_command(command)
    }
}

impl Ui {
    pub open spec fn wf(&self) -> bool {
        &&& self.max_lines >= 1
        &&& self.lines@.len() <= self.max_lines
        &&& self.frame < 10
    }

    /// The block's widths from the configured width, the terminal's width if
    /// stderr is a terminal of known size, and at least 20 columns.
    pub fn new(max_lines: usize, width: Option<usize>, tty: bool, physical: Option<usize>) -> (r: Ui)
        ensures
            r.wf(),
            r.tty == tty,
            r.width == ({
                let w: int = match width {
                    Some(w) => w as int,
                    None => match physical {
                        Some(p) => p as int,
                        None => 80,
                    },
                };
                if w < 20 { 20 } else { w }
            }),
            r.block_width == match physical {
                Some(p) => if p < r.width { p } else { r.width },
                None => r.width,
            },
            r.max_lines == if max_lines < 1 { 1 } else { max_lines },
            r.lines@.len() == 0,
            r.clouds == 0,
            r.frame == 0,
            r.drawn == 0,
    {
        let w = match width {
            Some(w) => w,
            None => match physical {
                Some(p) => p,
                None => 80,
            },
        };
        let width = if w < 20 { 20 } else { w };
        let block_width = match physical {
            Some(p) => if p < width { p } else { width },
            None => width,
        };
        Ui {
            tty,
            width,
            block_width,
            max_lines: if max_lines < 1 { 1 } else { max_lines },
            lines: Vec::new(),
            clouds: 0,
            frame: 0,
            drawn: 0,
        }
    }

    pub fn width(&self) -> (r: usize)
        ensures
            r == self.width,
    {
        self.width
    }

    pub fn is_tty(&self) -> (r: bool)
        ensures
            r == self.tty,
    {
        self.tty
    }

    pub fn status(&self) -> (r: String)
        ensures
            r@ == status_text(*self),
    {
        let room = if self.block_width >= 2 { (self.block_width - 2) / 2 } else { 0 };
        let clouds = if self.clouds < room { self.clouds } else { room };
        let mut s = repeat_char('💭', clouds);
        s.push(frame_at(self.frame % 10));
        s
    }

    /// Clip a line to the block's width, ending it with an ellipsis when it
    /// does not fit.
    pub fn clip(&self, text: &str) -> (r: String)
        ensures
            r@ == clipped(text@, self.block_width as int),
    {
        let shown = printable(text);
        let t = to_chars(shown.as_str());
        let limit: usize = if self.block_width >= 2 { self.block_width - 1 } else { 1 };
        let mut out = String::new();
        let mut used: usize = 0;
        assert(t@.skip(0) =~= t@);
        assert(out@ + t@ =~= t@);
        assert(out@ + clip_rest(t@.skip(0), 0, limit as int) =~= clip_rest(t@, 0, limit as int));
        for i in 0..t.len()
            invariant
                t@ == printable_text(text@),
                used <= limit,
                limit == clip_limit(self.block_width as int),
                out@ + clip_rest(t@.skip(i as int), used as int, limit as int) == clip_rest(
                    t@,
                    0,
                    limit as int,
                ),
        {
            assert(t@.skip(i as int)[0] == t@[i as int]);
            assert(t@.skip(i as int).drop_first() =~= t@.skip(i + 1));
            let size = char_width(t[i]);
            proof {
                if ' ' <= t[i as int] <= '~' {
                    assert(seq![t[i as int]][0] == t[i as int]);
                    assert(printable_ascii(seq![t[i as int]]));
                }
            }
            assert(size == char_columns(t[i as int]));
            if size > limit - used {
                out.push('…');
                assert(clip_rest(t@.skip(i as int), used as int, limit as int) =~= seq!['…']);
                return out;
            }
            let ghost before = out@;
            out.push(t[i]);
            assert(before + clip_rest(t@.skip(i as int), used as int, limit as int) =~= out@
                + clip_rest(t@.skip(i + 1), used + size, limit as int));
            used = used + size;
        }
        assert(t@.skip(t.len() as int) =~= Seq::<char>::empty());
        assert(out@ + Seq::<char>::empty() =~= out@);
        out
    }

    /// Everything but the rows drawn is left alone.
    pub open spec fn same_block(&self, other: Ui) -> bool {
        &&& self.lines == other.lines
        &&& self.clouds == other.clouds
        &&& self.frame == other.frame
        &&& self.tty == other.tty
        &&& self.max_lines == other.max_lines
        &&& self.block_width == other.block_width
        &&& self.width == other.width
    }

    /// How many rows a redraw leaves on the terminal: the rows it had, or
    /// the tool lines and the status line if they are more.
    pub open spec fn drawn_after(&self) -> int {
        if self.drawn > self.lines@.len() + 1 {
            self.drawn as int
        } else {
            self.lines@.len() + 1int
        }
    }

    /// The rows of the block: the tool lines, then the status line.
    pub open spec fn rows(&self) -> Seq<Seq<char>> {
        strings_view(self.lines@).push(status_text(*self))
    }

    /// A redraw of this block in place.
    pub open spec fn redraw(&self, p: Paint) -> bool {
        p matches Paint::Block { up, rows, total } && up == self.drawn && total == self.drawn_after()
            && strings_view(rows@) == self.rows()
    }

    /// Redraw the block: the tool lines, then the status line.
    fn draw(&mut self, paints: &mut Vec<Paint>)
        requires
            old(self).wf(),
        ensures
            final(self).wf(),
            final(self).same_block(*old(self)),
            !old(self).tty ==> final(paints)@ == old(paints)@,
            !old(self).tty ==> final(self).drawn == old(self).drawn,
            old(self).tty ==> final(paints)@.len() == old(paints)@.len() + 1,
            old(self).tty ==> final(paints)@.drop_last() == old(paints)@,
            old(self).tty ==> final(self).drawn == old(self).drawn_after(),
            old(self).tty ==> old(self).redraw(final(paints)@.last()),
    {
        if !self.tty {
            return;
        }
        let mut rows: Vec<String> = Vec::new();
        for i in 0..self.lines.len()
            invariant
                strings_view(rows@) == strings_view(self.lines@).take(i as int),
        {
            let ghost before = rows@;
            let line = self.lines[i].clone();
            assert(line@ == self.lines@[i as int]@);
            rows.push(line);
            assert(strings_view(rows@) =~= strings_view(before).push(line@));
            assert(strings_view(rows@) =~= strings_view(self.lines@).take(i + 1));
        }
        assert(strings_view(self.lines@).take(self.lines.len() as int) =~= strings_view(self.lines@));
        let ghost before = rows@;
        rows.push(self.status());
        assert(strings_view(rows@) =~= self.rows());
        let n = rows.len();
        let total = if self.drawn > n { self.drawn } else { n };
        paints.push(Paint::Block { up: self.drawn, rows, total });
        self.drawn = total;
    }

    /// Erase the block and park the cursor on its first line.
    pub fn clear(&mut self) -> (r: Vec<Paint>)
        requires
            old(self).wf(),
        ensures
            final(self).wf(),
            final(self).drawn == if old(self).tty { 0 } else { old(self).drawn },
            old(self).tty && old(self).drawn > 0 ==> r@.len() == 1 && r@[0] == (Paint::Erase {
                count: old(self).drawn,
            }),
            !(old(self).tty && old(self).drawn > 0) ==> r@.len() == 0,
            final(self).lines == old(self).lines,
            final(self).clouds == old(self).clouds,
            final(self).frame == old(self).frame,
            final(self).tty == old(self).tty,
            final(self).max_lines == old(self).max_lines,
            final(self).block_width == old(self).block_width,
            final(self).width == old(self).width,
    {
        let mut paints: Vec<Paint> = Vec::new();
        if self.tty && self.drawn > 0 {
            paints.push(Paint::Erase { count: self.drawn });
            self.drawn = 0;
        }
        paints
    }
}

impl Ui {
    /// Show a tool call: the clipped `🔧name: summary` line joins the
    /// rolling window of the last `max_lines` calls (on a terminal), or is
    /// written as a plain line (otherwise), and the clouds start over.
    pub fn tool(&mut self, name: &str, summary: &str) -> (r: Vec<Paint>)
        requires
            old(self).wf(),
        ensures
            final(self).wf(),
            final(self).clouds == 0,
            final(self).frame == old(self).frame,
            final(self).tty == old(self).tty,
            final(self).max_lines == old(self).max_lines,
            final(self).block_width == old(self).block_width,
            final(self).width == old(self).width,
            ({
                let line = clipped(tool_text(name@, summary@), old(self).block_width as int);
                let kept = if old(self).lines@.len() == old(self).max_lines {
                    strings_view(old(self).lines@).drop_first()
                } else {
                    strings_view(old(self).lines@)
                };
                if old(self).tty {
                    &&& strings_view(final(self).lines@) == kept.push(line)
                    &&& r@.len() == 1
                    &&& final(self).drawn == final(self).drawn_after()
                    &&& (Ui { drawn: old(self).drawn, ..*final(self) }).redraw(r@[0])
                } else {
                    &&& strings_view(final(self).lines@) == kept
                    &&& final(self).drawn == old(self).drawn
                    &&& r@.len() == 1
                    &&& r@[0] matches Paint::Line(l) && l@ == line
                }
            }),
    {
        self.clouds = 0;
        let mut text = String::new();
        text.push('🔧');
        text.append(name);
        if to_chars(summary).len() > 0 {
            text.append(": ");
            text.append(summary);
        }
        assert(text@ =~= tool_text(name@, summary@));
        let line = self.clip(text.as_str());
        if self.lines.len() == self.max_lines {
            let ghost before = self.lines@;
            self.lines.remove(0);
            assert(strings_view(self.lines@) =~= strings_view(before).drop_first());
        }
        let mut paints: Vec<Paint> = Vec::new();
        if self.tty {
            let ghost before = self.lines@;
            self.lines.push(line);
            assert(strings_view(self.lines@) =~= strings_view(before).push(line@));
            self.draw(&mut paints);
        } else {
            paints.push(Paint::Line(line));
        }
        paints
    }

    /// Count a thinking block (saturating) and redraw.
    pub fn think(&mut self) -> (r: Vec<Paint>)
        requires
            old(self).wf(),
        ensures
            final(self).wf(),
            final(self).clouds == if old(self).clouds < usize::MAX {
                old(self).clouds + 1
            } else {
                old(self).clouds as int
            },
            final(self).lines == old(self).lines,
            final(self).frame == old(self).frame,
            final(self).tty == old(self).tty,
            old(self).tty ==> r@.len() == 1 && final(self).drawn == final(self).drawn_after() && (Ui {
                drawn: old(self).drawn,
                ..*final(self)
            }).redraw(r@[0]),
            !old(self).tty ==> r@.len() == 0 && final(self).drawn == old(self).drawn,
    {
        if self.clouds < usize::MAX {
            self.clouds = self.clouds + 1;
        }
        let mut paints: Vec<Paint> = Vec::new();
        self.draw(&mut paints);
        paints
    }

    /// Advance the spinner and redraw.
    pub fn tick(&mut self) -> (r: Vec<Paint>)
        requires
            old(self).wf(),
        ensures
            final(self).wf(),
            final(self).frame == (old(self).frame + 1) % 10,
            final(self).lines == old(self).lines,
            final(self).clouds == old(self).clouds,
            final(self).tty == old(self).tty,
            old(self).tty ==> r@.len() == 1 && final(self).drawn == final(self).drawn_after() && (Ui {
                drawn: old(self).drawn,
                ..*final(self)
            }).redraw(r@[0]),
            !old(self).tty ==> r@.len() == 0 && final(self).drawn == old(self).drawn,
    {
        self.frame = (self.frame + 1) % 10;
        let mut paints: Vec<Paint> = Vec::new();
        self.draw(&mut paints);
        paints
    }

    /// Write a line outside the block, erasing the block first.
    pub fn line(&mut self, text: &str) -> (r: Vec<Paint>)
        requires
            old(self).wf(),
        ensures
            final(self).wf(),
            final(self).same_block(*old(self)),
            final(self).drawn == if old(self).tty { 0 } else { old(self).drawn },
            r@.len() >= 1,
            r@.last() matches Paint::Line(l) && l@ == text@,
            r@.len() == if old(self).tty && old(self).drawn > 0 { 2int } else { 1 },
            r@.len() == 2 ==> r@[0] == (Paint::Erase { count: old(self).drawn }),
    {
        let mut paints = self.clear();
        paints.push(Paint::Line(text.to_owned()));
        paints
    }

    /// A rule across the block's width.
    pub fn rule(&mut self) -> (r: Vec<Paint>)
        requires
            old(self).wf(),
        ensures
            final(self).wf(),
            final(self).same_block(*old(self)),
            r@.len() >= 1,
            r@.last() matches Paint::Line(l) && l@ == repeated('─', old(self).block_width as nat),
    {
        let rule = repeat_char('─', self.block_width);
        self.line(rule.as_str())
    }

    /// Announce the command that is about to run: `⚡` and the command on
    /// one line, in bold on a terminal.
    pub fn announce(&mut self, command: &str) -> (r: Vec<Paint>)
        requires
            old(self).wf(),
        ensures
            final(self).wf(),
            final(self).same_block(*old(self)),
            r@.len() >= 1,
            r@.last() matches Paint::Line(l) && l@ == announce_text(command@, old(self).tty),
    {
        let shown = printable(command);
        let c = to_chars(shown.as_str());
        let mut text = if self.tty { "⚡ \u{1b}[1m".to_owned() } else { "⚡ ".to_owned() };
        let ghost head = text@;
        let ghost f = |c: char| shown_char(c);
        for i in 0..c.len()
            invariant
                c@ == printable_text(command@),
                f == (|c: char| shown_char(c)),
                text@ == head + c@.take(i as int).map_values(f),
        {
            let ch = c[i];
            let out = if ch == '\n' { '⏎' } else if ch == '\t' { ' ' } else { ch };
            text.push(out);
            assert(text@ =~= head + c@.take(i + 1).map_values(f));
        }
        assert(c@.take(c.len() as int) =~= c@);
        if self.tty {
            text.append("\u{1b}[0m");
        }
        let mut paints = self.clear();
        paints.push(Paint::Line(text));
        paints
    }
}

/// The columns a text takes, character by character.
pub open spec fn widths(s: Seq<char>) -> int
    decreases s.len(),
{
    if s.len() == 0 {
        0
    } else {
        char_columns(s[0]) as int + widths(s.drop_first())
    }
}

/// Only characters that cannot corrupt the terminal survive, and every
/// one of them does, in order.
pub proof fn lemma_printable_keeps(s: Seq<char>)
    ensures
        forall|i: int| 0 <= i < printable_text(s).len() ==> keeps(#[trigger] printable_text(s)[i]),
        forall|i: int| 0 <= i < s.len() && keeps(s[i]) ==> printable_text(s).contains(#[trigger] s[i]),
        printable_text(s).len() <= s.len(),
{
    broadcast use vstd::seq_lib::group_filter_ensures;

}

/// A clipped line fits: it is a prefix of the text whose characters take
/// no more than the room left, either the whole text or followed by an
/// ellipsis.
pub proof fn lemma_clip_fits(t: Seq<char>, used: int, limit: int)
    requires
        0 <= used <= limit,
    ensures
        exists|k: int|
            0 <= k <= t.len() && used + widths(#[trigger] t.take(k)) <= limit && ((k == t.len()
                && clip_rest(t, used, limit) == t.take(k)) || clip_rest(t, used, limit) == t.take(
                k,
            ).push('…')),
    decreases t.len(),
{
    if t.len() == 0 {
        assert(t.take(0) =~= t);
        assert(widths(t.take(0)) == 0);
    } else {
        let w = char_columns(t[0]) as int;
        if used + w > limit {
            assert(t.take(0) =~= Seq::<char>::empty());
            assert(widths(t.take(0)) == 0);
            assert(clip_rest(t, used, limit) =~= t.take(0).push('…'));
        } else {
            let rest = t.drop_first();
            lemma_clip_fits(rest, used + w, limit);
            let k = choose|k: int|
                0 <= k <= rest.len() && used + w + widths(#[trigger] rest.take(k)) <= limit && ((k
                    == rest.len() && clip_rest(rest, used + w, limit) == rest.take(k)) || clip_rest(
                    rest,
                    used + w,
                    limit,
                ) == rest.take(k).push('…'));
            assert(t.take(k + 1) =~= seq![t[0]] + rest.take(k));
            assert(t.take(k + 1)[0] == t[0]);
            assert(t.take(k + 1).drop_first() =~= rest.take(k));
            assert(widths(t.take(k + 1)) == w + widths(rest.take(k)));
            if k == rest.len() && clip_rest(rest, used + w, limit) == rest.take(k) {
                assert(clip_rest(t, used, limit) =~= t.take(k + 1));
            } else {
                assert(clip_rest(t, used, limit) =~= t.take(k + 1).push('…'));
            }
        }
    }
}

} // verus!
