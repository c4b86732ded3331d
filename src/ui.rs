//! The render/input state machine: it owns the prompt, the pattern, the selection and
//! the window, takes one key at a time, and answers with the text to draw.
use vstd::prelude::*;

pub mod ansi;
pub mod window;

use crate::selector::{Match, Selector, Span, matches_view, spans_fit, texts_view};
use crate::sliding_window::{clamped_offset, shown_len, SlidingWindow};
use ansi::{erase_line, erase_line_sequence};
use ansi::control_sequence::{csi, push_char};
use ansi::cursor::{move_down, move_down_n, restore_position, save_position};
use ansi::style::{Color, Style, reset_sequence, style_sequence, style_wf, styles_wf};

verus! {

broadcast use vstd::std_specs::vec::group_vec_axioms;

/// Move to the start of the next line.
pub open spec fn next_line_sequence() -> Seq<char> {
    csi(seq![1nat], 'E')
}

/// Save the cursor position.
pub open spec fn save_sequence() -> Seq<char> {
    csi(Seq::empty(), 's')
}

/// Restore the saved cursor position.
pub open spec fn restore_sequence() -> Seq<char> {
    csi(Seq::empty(), 'u')
}

/// A run of an item's text: unstyled when neither highlighted nor selected, else the
/// highlight style, then the selection style (so that it is applied last), the text
/// and a reset. An empty run draws nothing.
pub open spec fn segment(
    text: Seq<char>,
    highlighted: bool,
    selected: bool,
    hl: Seq<char>,
    sel: Seq<char>,
) -> Seq<char> {
    if text.len() == 0 {
        Seq::empty()
    } else if !highlighted && !selected {
        text
    } else {
        (if highlighted { hl } else { Seq::empty() }) + (if selected { sel } else { Seq::empty() })
            + text + reset_sequence()
    }
}

/// The runs of `item` from character `from` on: plain text up to each span, the span
/// highlighted, and the plain rest after the last span.
pub open spec fn line_body(
    item: Seq<char>,
    spans: Seq<Span>,
    from: int,
    selected: bool,
    hl: Seq<char>,
    sel: Seq<char>,
) -> Seq<char>
    decreases spans.len(),
{
    if spans.len() == 0 {
        segment(item.subrange(from, item.len() as int), false, selected, hl, sel)
    } else {
        segment(item.subrange(from, spans[0].0 as int), false, selected, hl, sel)
            + segment(item.subrange(spans[0].0 as int, spans[0].1 as int), true, selected, hl, sel)
            + line_body(item, spans.drop_first(), spans[0].1 as int, selected, hl, sel)
    }
}

/// One match drawn over the current line.
pub open spec fn match_line(
    item: Seq<char>,
    spans: Seq<Span>,
    selected: bool,
    hl: Seq<char>,
    sel: Seq<char>,
) -> Seq<char> {
    erase_line_sequence() + line_body(item, spans, 0, selected, hl, sel)
}

/// Appends one run of text.
fn push_segment(out: &mut String, text: &str, highlighted: bool, selected: bool, hl: &String, sel: &String)
    ensures
        final(out)@ == old(out)@ + segment(text@, highlighted, selected, hl@, sel@),
{
    let n = text.unicode_len();
    if n == 0 {
        assert(old(out)@ + Seq::<char>::empty() =~= old(out)@);
        return;
    }
    if !highlighted && !selected {
        out.append(text);
        return;
    }
    let ghost start = out@;
    if highlighted {
        out.append(hl.as_str());
    }
    if selected {
        out.append(sel.as_str());
    }
    out.append(text);
    let reset = Style::reset_all();
    out.append(reset.as_str());
    assert(out@ =~= start + segment(text@, highlighted, selected, hl@, sel@));
}

/// Draws `item` with its highlight spans, given the highlight and selection sequences.
fn render_line(item: &str, spans: &Vec<Span>, selected: bool, hl: &String, sel: &String) -> (r: String)
    requires
        spans_fit(spans@, 0, item@.len() as int),
    ensures
        r@ == match_line(item@, spans@, selected, hl@, sel@),
{
    let len = item.unicode_len();
    let mut out = erase_line();
    let mut last: usize = 0;
    let mut k: usize = 0;
    assert(spans@.skip(0) =~= spans@);
    while k < spans.len()
        invariant
            len == item@.len(),
            k <= spans@.len(),
            spans_fit(spans@.skip(k as int), last as int, len as int),
            out@ + line_body(item@, spans@.skip(k as int), last as int, selected, hl@, sel@)
                == match_line(item@, spans@, selected, hl@, sel@),
        decreases spans@.len() - k,
    {
        let ghost rest = spans@.skip(k as int);
        let ghost before = out@;
        let (start, end) = spans[k];
        assert(rest[0] == (start, end));
        assert(rest.drop_first() =~= spans@.skip(k + 1));
        let plain = item.substring_char(last, start);
        push_segment(&mut out, plain, false, selected, hl, sel);
        let marked = item.substring_char(start, end);
        push_segment(&mut out, marked, true, selected, hl, sel);
        assert(out@ + line_body(item@, spans@.skip(k + 1), end as int, selected, hl@, sel@)
            =~= before + line_body(item@, rest, last as int, selected, hl@, sel@));
        last = end;
        k += 1;
    }
    assert(spans@.skip(k as int) =~= Seq::<Span>::empty());
    let tail = item.substring_char(last, len);
    let ghost before = out@;
    push_segment(&mut out, tail, false, selected, hl, sel);
    assert(out@ =~= before + line_body(item@, spans@.skip(k as int), last as int, selected, hl@, sel@));
    out
}


/// The lines of the visible matches, each followed by a move to the next line.
pub open spec fn lines_frame(
    items: Seq<Seq<char>>,
    visible: Seq<(usize, Seq<Span>)>,
    selected: int,
    hl: Seq<char>,
    sel: Seq<char>,
) -> Seq<char>
    decreases visible.len(),
{
    if visible.len() == 0 {
        Seq::empty()
    } else {
        let last = visible.len() - 1;
        lines_frame(items, visible.drop_last(), selected, hl, sel)
            + match_line(items[visible[last].0 as int], visible[last].1, last == selected, hl, sel)
            + next_line_sequence()
    }
}

/// `n` lines erased, moving down after each.
pub open spec fn blank_lines(n: nat) -> Seq<char>
    decreases n,
{
    if n == 0 {
        Seq::empty()
    } else {
        blank_lines((n - 1) as nat) + erase_line_sequence() + next_line_sequence()
    }
}

/// A full redraw of the match list below the prompt: the visible matches, then the
/// erasure of the `stale` lines left from a longer list, the cursor back on the prompt.
pub open spec fn items_frame(
    items: Seq<Seq<char>>,
    visible: Seq<(usize, Seq<Span>)>,
    selected: int,
    stale: nat,
    hl: Seq<char>,
    sel: Seq<char>,
) -> Seq<char> {
    save_sequence() + next_line_sequence() + lines_frame(items, visible, selected, hl, sel)
        + blank_lines(stale) + restore_sequence()
}

/// The selection after the visible list has `n` entries: kept if it is still inside,
/// else the last entry (or 0 when there is none).
pub open spec fn clamp_selection(selected: nat, n: nat) -> nat {
    if selected < n {
        selected
    } else if n == 0 {
        0
    } else {
        (n - 1) as nat
    }
}

/// One visible match redrawn in place on its row (row 0 is the first line below the
/// prompt), the cursor back on the prompt.
pub open spec fn line_redraw(
    items: Seq<Seq<char>>,
    m: (usize, Seq<Span>),
    row: nat,
    selected: bool,
    hl: Seq<char>,
    sel: Seq<char>,
) -> Seq<char> {
    save_sequence() + csi(seq![row + 1], 'E') + match_line(items[m.0 as int], m.1, selected, hl, sel)
        + restore_sequence()
}

/// `n` lines below the current one erased.
pub open spec fn cleared_lines(n: nat) -> Seq<char>
    decreases n,
{
    if n == 0 {
        Seq::empty()
    } else {
        cleared_lines((n - 1) as nat) + next_line_sequence() + erase_line_sequence()
    }
}

/// What is drawn when the session ends: the prompt line and the `n` match lines
/// below it erased, the cursor at the start of the prompt line.
pub open spec fn exit_frame(n: nat) -> Seq<char> {
    erase_line_sequence() + save_sequence() + cleared_lines(n) + restore_sequence()
}

/// A key, decoded from the terminal's input.
#[derive(Debug, Clone, Copy, PartialEq, Eq, Structural)]
pub enum Key {
    /// Ctrl-C
    Interrupt,
    Enter,
    Escape,
    Backspace,
    Up,
    Down,
    Char(char),
    /// Any other key; it is ignored.
    Other,
}

/// A character that the pattern takes: printable ASCII.
pub open spec fn is_printable(c: char) -> bool {
    ' ' <= c && c <= '~'
}

/// What the caller does after a key.
#[derive(Debug)]
pub enum Action {
    /// Write this to the drawing channel, flush, and read the next key.
    Draw(String),
    /// The session is over: release raw mode, write `cleanup` to the drawing channel,
    /// then write the committed item, if any, as one line to the primary output.
    Exit { cleanup: String, committed: Option<String> },
}

/// The view of an optional text.
pub open spec fn text_view(t: Option<String>) -> Option<Seq<char>> {
    match t {
        Some(s) => Some(s@),
        None => None,
    }
}

/// `r` asks to draw `f`.
pub open spec fn draws(r: Action, f: Seq<char>) -> bool {
    match r {
        Action::Draw(s) => s@ == f,
        _ => false,
    }
}

/// `r` ends the session, erasing `n` match lines and committing `c`.
pub open spec fn exits(r: Action, n: nat, c: Option<Seq<char>>) -> bool {
    match r {
        Action::Exit { cleanup, committed } => cleanup@ == exit_frame(n) && text_view(committed) == c,
        _ => false,
    }
}

/// Relies on `String::pop`: removes the last character, if there is one.
#[verifier::external_body]
fn pop_char(s: &mut String)
    ensures
        final(s)@ == if old(s)@.len() > 0 { old(s)@.drop_last() } else { old(s)@ },
{
    s.pop();
}

/// The user interface of one selection session.
pub struct UI {
    prompt: String,
    selector: Selector,
    /// The number of match lines drawn by the last redraw
    match_amount: usize,
    /// The selected line, an index into the visible matches
    selected: usize,
    window: SlidingWindow,
    pattern: String,
    selected_style: Style,
    highlight_style: Style,
}

/// The number of rows of matches, given how many rows are below the prompt:
/// at least 2 and at most 20.
pub open spec fn window_size_for(below: nat) -> nat {
    if below < 2 {
        2
    } else if below > 20 {
        20
    } else {
        below
    }
}

/// From the cursor's row and the terminal's height: the window size, and how many
/// lines the prompt moves up to make room for it.
pub fn calculate_window_size(row: u16, height: u16) -> (r: (usize, usize))
    ensures
        ({
            let below: nat = if height as int > row as int + 1 { (height - row - 1) as nat } else { 0 };
            &&& r.0 == window_size_for(below)
            &&& r.1 == if below < 2 { 2 - below } else { 0 }
        }),
{
    let below: usize = if height as usize > row as usize + 1 { (height - row - 1) as usize } else { 0 };
    let size = if below < 2 { 2 } else if below > 20 { 20 } else { below };
    let up = if below < 2 { 2 - below } else { 0 };
    (size, up)
}

impl UI {
    pub closed spec fn spec_prompt(&self) -> Seq<char> {
        self.prompt@
    }

    pub closed spec fn spec_selector(&self) -> Selector {
        self.selector
    }

    pub closed spec fn spec_match_amount(&self) -> nat {
        self.match_amount as nat
    }

    pub closed spec fn spec_selected(&self) -> nat {
        self.selected as nat
    }

    pub closed spec fn spec_window(&self) -> SlidingWindow {
        self.window
    }

    pub closed spec fn spec_pattern(&self) -> Seq<char> {
        self.pattern@
    }

    /// The sequence that starts a highlighted run.
    pub closed spec fn highlight_sequence(&self) -> Seq<char> {
        style_sequence(self.highlight_style)
    }

    /// The sequence that starts a run of the selected line.
    pub closed spec fn selected_sequence(&self) -> Seq<char> {
        style_sequence(self.selected_style)
    }

    /// The whole match list.
    pub open spec fn all_matches(&self) -> Seq<(usize, Seq<Span>)> {
        self.spec_selector().spec_matches()
    }

    /// The matches inside the window, as last drawn.
    pub open spec fn visible(&self) -> Seq<(usize, Seq<Span>)> {
        let off = self.spec_window().spec_offset() as int;
        self.all_matches().subrange(off, off + self.spec_match_amount())
    }

    /// A full redraw of the current visible matches.
    pub open spec fn redraw(&self, stale: nat) -> Seq<char> {
        items_frame(
            self.spec_selector().spec_items(),
            self.visible(),
            self.spec_selected() as int,
            stale,
            self.highlight_sequence(),
            self.selected_sequence(),
        )
    }

    /// The invariant that holds between steps: the matches are those of the pattern.
    pub open spec fn wf(&self) -> bool {
        &&& self.spec_selector().wf()
        &&& self.spec_selector().spec_pattern() == self.spec_pattern()
        &&& self.styles_wf()
    }

    /// The colors of both styles lie in their ranges.
    pub closed spec fn styles_wf(&self) -> bool {
        &&& style_wf(self.selected_style)
        &&& style_wf(self.highlight_style)
    }

    /// The window and the selection are those of the last redraw.
    pub open spec fn drawn(&self) -> bool {
        let len = self.all_matches().len();
        let w = self.spec_window();
        &&& self.spec_match_amount() == shown_len(w.spec_size(), len)
        &&& w.spec_offset() + self.spec_match_amount() <= len
        &&& self.spec_selected() == clamp_selection(self.spec_selected(), self.spec_match_amount())
    }

    /// A session over the selector's items with an empty pattern, showing at most
    /// `window_size` matches.
    pub fn new(selector: Selector, window_size: usize) -> (r: Self)
        requires
            selector.wf(),
        ensures
            r.wf(),
            r.spec_prompt() == "> "@,
            r.spec_pattern() == Seq::<char>::empty(),
            r.spec_selector().spec_items() == selector.spec_items(),
            r.spec_selector().spec_mode() == selector.spec_mode(),
            r.spec_selected() == 0,
            r.spec_match_amount() == 0,
            r.spec_window().spec_size() == window_size,
            r.spec_window().spec_offset() == 0,
    {
        let mut selector = selector;
        selector.set_pattern("");
        let selected_style = Style::Background(Color::Standard(1));
        let mut highlight: Vec<Style> = Vec::new();
        highlight.push(Style::Bold);
        highlight.push(Style::Underlined);
        let highlight_style = Style::Compound(highlight);
        assert(style_wf(highlight_style)) by {
            assert(highlight@.len() == 2);
            assert(highlight@[0] == Style::Bold);
            assert(style_wf(highlight@[0]));
            assert(styles_wf(highlight, 0));
            assert(styles_wf(highlight, 1));
            assert(highlight@[1] == Style::Underlined);
            assert(style_wf(highlight@[1]));
            assert(styles_wf(highlight, 2));
        }
        proof {
            reveal_strlit("");
        }
        assert(""@ =~= Seq::<char>::empty());
        assert(style_wf(selected_style));
        UI {
            prompt: String::from_str("> "),
            selector,
            match_amount: 0,
            selected: 0,
            window: SlidingWindow::new(window_size),
            pattern: String::new(),
            selected_style,
            highlight_style,
        }
    }

    /// The other parts of the state are as in `old`.
    pub open spec fn same_setup(&self, old: &UI) -> bool {
        &&& self.spec_prompt() == old.spec_prompt()
        &&& self.highlight_sequence() == old.highlight_sequence()
        &&& self.selected_sequence() == old.selected_sequence()
        &&& self.spec_window().spec_size() == old.spec_window().spec_size()
    }

    /// Draw one match on the current line.
    fn print_match(&self, selected: bool, m: &Match, hl: &String, sel: &String) -> (r: String)
        requires
            self.wf(),
            hl@ == self.highlight_sequence(),
            sel@ == self.selected_sequence(),
            m@.0 < self.spec_selector().spec_items().len(),
            spans_fit(m@.1, 0, self.spec_selector().spec_items()[m@.0 as int].len() as int),
        ensures
            r@ == match_line(self.spec_selector().spec_items()[m@.0 as int], m@.1, selected, hl@, sel@),
    {
        let items = self.selector.items();
        assert(items@[m.index as int]@ == texts_view(items@)[m.index as int]);
        render_line(items[m.index].as_str(), &m.highlight, selected, hl, sel)
    }

    /// Redraw the visible matches below the prompt, clamping the window and the
    /// selection to the current match list, and erasing the lines left over from the
    /// last redraw; the cursor ends where it started.
    fn print_items(&mut self) -> (r: String)
        requires
            old(self).wf(),
        ensures
            final(self).wf(),
            final(self).same_setup(old(self)),
            final(self).spec_selector() == old(self).spec_selector(),
            final(self).spec_pattern() == old(self).spec_pattern(),
            final(self).spec_window().spec_offset() == clamped_offset(
                old(self).spec_window().spec_size(),
                old(self).spec_window().spec_offset(),
                old(self).all_matches().len(),
            ),
            final(self).spec_match_amount() == shown_len(
                old(self).spec_window().spec_size(),
                old(self).all_matches().len(),
            ),
            final(self).spec_selected() == clamp_selection(
                old(self).spec_selected(),
                final(self).spec_match_amount(),
            ),
            final(self).drawn(),
            r@ == final(self).redraw(
                if old(self).spec_match_amount() > final(self).spec_match_amount() {
                    (old(self).spec_match_amount() - final(self).spec_match_amount()) as nat
                } else {
                    0
                },
            ),
    {
        let mut out = save_position();
        let nl = move_down();
        out.append(nl.as_str());
        let hl = self.highlight_style.apply();
        let sel = self.selected_style.apply();
        let matches = self.window.apply(self.selector.matches());
        let n = matches.len();
        if self.selected >= n {
            self.selected = if n == 0 { 0 } else { n - 1 };
        }
        let ghost items = self.selector.spec_items();
        let ghost off = self.window.spec_offset() as int;
        let ghost visible = self.selector.spec_matches().subrange(off, off + n);
        assert(matches_view(matches@) =~= visible);
        let ghost head = out@;
        let mut i: usize = 0;
        while i < n
            invariant
                self.wf(),
                i <= n,
                n == matches@.len(),
                items == self.selector.spec_items(),
                hl@ == self.highlight_sequence(),
                sel@ == self.selected_sequence(),
                nl@ == next_line_sequence(),
                matches_view(matches@) == visible,
                visible == self.selector.spec_matches().subrange(off, off + n),
                0 <= off,
                off + n <= self.selector.spec_matches().len(),
                out@ == head + lines_frame(items, visible.take(i as int), self.selected as int, hl@, sel@),
            decreases n - i,
        {
            let ghost before = out@;
            let m = &matches[i];
            assert(m@ == visible[i as int]);
            assert(visible[i as int] == self.selector.spec_matches()[off + i]);
            let line = self.print_match(i == self.selected, m, &hl, &sel);
            out.append(line.as_str());
            out.append(nl.as_str());
            assert(visible.take(i + 1).drop_last() =~= visible.take(i as int));
            assert(out@ =~= head + lines_frame(items, visible.take(i + 1), self.selected as int, hl@, sel@));
            i += 1;
        }
        assert(visible.take(n as int) =~= visible);
        let stale: usize = if self.match_amount > n { self.match_amount - n } else { 0 };
        let ghost body = out@;
        let mut j: usize = 0;
        while j < stale
            invariant
                j <= stale,
                nl@ == next_line_sequence(),
                out@ == body + blank_lines(j as nat),
            decreases stale - j,
        {
            let el = erase_line();
            out.append(el.as_str());
            out.append(nl.as_str());
            assert(out@ =~= body + blank_lines((j + 1) as nat));
            j += 1;
        }
        self.match_amount = n;
        let rp = restore_position();
        out.append(rp.as_str());
        assert(out@ =~= self.redraw(stale as nat));
        out
    }

    /// `self` is `old` with its pattern set to `p` and the match list redrawn.
    pub open spec fn retyped(&self, old: &UI, p: Seq<char>) -> bool {
        let size = old.spec_window().spec_size();
        let len = self.all_matches().len();
        &&& self.spec_pattern() == p
        &&& self.spec_selector().spec_items() == old.spec_selector().spec_items()
        &&& self.spec_selector().spec_mode() == old.spec_selector().spec_mode()
        &&& self.spec_window().spec_offset() == clamped_offset(size, old.spec_window().spec_offset(), len)
        &&& self.spec_match_amount() == shown_len(size, len)
        &&& self.spec_selected() == clamp_selection(old.spec_selected(), self.spec_match_amount())
    }

    /// `self` is `old` with the window at `offset` and the selection at `selected`.
    pub open spec fn moved(&self, old: &UI, offset: nat, selected: nat) -> bool {
        &&& self.spec_selector() == old.spec_selector()
        &&& self.spec_pattern() == old.spec_pattern()
        &&& self.spec_match_amount() == old.spec_match_amount()
        &&& self.spec_window().spec_offset() == offset
        &&& self.spec_selected() == selected
    }

    /// The effect of `key`, answered by `r`, from `old` to `self`.
    pub open spec fn key_effect(&self, old: &UI, key: Key, r: Action) -> bool {
        let n = old.spec_match_amount();
        let sel = old.spec_selected();
        let off = old.spec_window().spec_offset();
        let items = old.spec_selector().spec_items();
        let line = |i: nat, s: bool|
            line_redraw(items, old.visible()[i as int], i, s, old.highlight_sequence(), old.selected_sequence());
        let stale = |new: &UI| if n > new.spec_match_amount() { (n - new.spec_match_amount()) as nat } else { 0 };
        match key {
            Key::Interrupt | Key::Escape => *self == *old && exits(r, n, None),
            Key::Enter => *self == *old && exits(
                r,
                n,
                if n > 0 { Some(items[old.visible()[sel as int].0 as int]) } else { None },
            ),
            Key::Backspace => {
                let p = if old.spec_pattern().len() > 0 { old.spec_pattern().drop_last() } else { old.spec_pattern() };
                &&& self.retyped(old, p)
                &&& draws(r, erase_line_sequence() + old.spec_prompt() + p + self.redraw(stale(self)))
            },
            Key::Char(c) => if is_printable(c) {
                &&& self.retyped(old, old.spec_pattern().push(c))
                &&& draws(r, seq![c] + self.redraw(stale(self)))
            } else {
                *self == *old && draws(r, Seq::empty())
            },
            Key::Up => if n == 0 {
                *self == *old && draws(r, Seq::empty())
            } else if sel == 0 {
                &&& self.moved(old, if off == 0 { 0 } else { (off - 1) as nat }, 0)
                &&& draws(r, self.redraw(0))
            } else {
                &&& self.moved(old, off, (sel - 1) as nat)
                &&& draws(r, line(sel, false) + line((sel - 1) as nat, true))
            },
            Key::Down => if n == 0 {
                *self == *old && draws(r, Seq::empty())
            } else if sel == n - 1 {
                &&& self.moved(old, clamped_offset(old.spec_window().spec_size(), off + 1, old.all_matches().len()), sel)
                &&& draws(r, self.redraw(0))
            } else {
                &&& self.moved(old, off, sel + 1)
                &&& draws(r, line(sel, false) + line(sel + 1, true))
            },
            Key::Other => *self == *old && draws(r, Seq::empty()),
        }
    }

    /// Redraw visible match `i` in place.
    fn redraw_line(&self, visible: &[Match], i: usize, selected: bool, hl: &String, sel: &String) -> (r: String)
        requires
            self.wf(),
            self.drawn(),
            matches_view(visible@) == self.visible(),
            i < visible@.len(),
            hl@ == self.highlight_sequence(),
            sel@ == self.selected_sequence(),
        ensures
            r@ == line_redraw(self.spec_selector().spec_items(), self.visible()[i as int], i as nat, selected, hl@, sel@),
    {
        let mut out = save_position();
        assert(matches_view(visible@).len() == visible@.len());
        assert(i + 1 <= visible.len());
        let down = move_down_n(i + 1);
        out.append(down.as_str());
        let ghost off = self.window.spec_offset() as int;
        assert(matches_view(visible@)[i as int] == visible@[i as int]@);
        assert(self.visible()[i as int] == self.all_matches()[off + i]);
        let line = self.print_match(selected, &visible[i], hl, sel);
        out.append(line.as_str());
        let rp = restore_position();
        out.append(rp.as_str());
        out
    }

    /// The erasure of the prompt line and of the drawn match lines.
    fn clear_screen(&self) -> (r: String)
        ensures
            r@ == exit_frame(self.spec_match_amount()),
    {
        let mut out = erase_line();
        let sp = save_position();
        out.append(sp.as_str());
        let nl = move_down();
        let ghost head = out@;
        let mut j: usize = 0;
        while j < self.match_amount
            invariant
                j <= self.match_amount,
                nl@ == next_line_sequence(),
                out@ == head + cleared_lines(j as nat),
            decreases self.match_amount - j,
        {
            out.append(nl.as_str());
            let el = erase_line();
            out.append(el.as_str());
            assert(out@ =~= head + cleared_lines((j + 1) as nat));
            j += 1;
        }
        let rp = restore_position();
        out.append(rp.as_str());
        out
    }

    /// Take one key: edit the pattern, move the selection or scroll, or end the
    /// session; answer with what to draw or with the outcome.
    pub fn handle_key(&mut self, key: Key) -> (r: Action)
        requires
            old(self).wf(),
            old(self).drawn(),
        ensures
            final(self).wf(),
            final(self).drawn(),
            final(self).same_setup(old(self)),
            final(self).key_effect(old(self), key, r),
    {
        let ghost old_ui = *self;
        match key {
            Key::Interrupt | Key::Escape => {
                Action::Exit { cleanup: self.clear_screen(), committed: None }
            },
            Key::Enter => {
                let committed = if self.match_amount > 0 {
                    let off = self.window.offset();
                    let all = self.selector.matches();
                        assert(matches_view(all@).len() == all@.len());
                proof {
                    self.selector.lemma_matches_len();
                }
                    proof {
                        self.selector.lemma_matches_len();
                    }
                    let visible = &all[off..off + self.match_amount];
                    assert(matches_view(visible@) =~= self.visible());
                    assert(matches_view(visible@).len() == visible@.len());
                    let m = &visible[self.selected];
                    let items = self.selector.items();
                    proof {
                        let off = self.window.spec_offset() as int;
                        assert(matches_view(visible@)[self.selected as int] == m@);
                        assert(self.visible()[self.selected as int] == self.all_matches()[off + self.selected]);
                        assert(texts_view(items@).len() == items@.len());
                        assert(m@.0 < items@.len());
                        assert(items@[m.index as int]@ == texts_view(items@)[m.index as int]);
                    }
                    Some(items[m.index].clone())
                } else {
                    None
                };
                assert(*self == old_ui);
                Action::Exit { cleanup: self.clear_screen(), committed }
            },
            Key::Backspace => {
                pop_char(&mut self.pattern);
                self.selector.set_pattern(self.pattern.as_str());
                let mut out = erase_line();
                out.append(self.prompt.as_str());
                out.append(self.pattern.as_str());
                let items = self.print_items();
                out.append(items.as_str());
                Action::Draw(out)
            },
            Key::Char(c) => {
                if ' ' <= c && c <= '~' {
                    push_char(&mut self.pattern, c);
                    self.selector.set_pattern(self.pattern.as_str());
                    let mut out = String::new();
                    push_char(&mut out, c);
                    let items = self.print_items();
                    out.append(items.as_str());
                    Action::Draw(out)
                } else {
                    Action::Draw(String::new())
                }
            },
            Key::Up => {
                if self.match_amount == 0 {
                    return Action::Draw(String::new());
                }
                if self.selected == 0 {
                    self.window.scroll_up();
                    let frame = self.print_items();
                    return Action::Draw(frame);
                }
                let hl = self.highlight_style.apply();
                let sel = self.selected_style.apply();
                let off = self.window.offset();
                let all = self.selector.matches();
                assert(matches_view(all@).len() == all@.len());
                proof {
                    self.selector.lemma_matches_len();
                }
                let visible = &all[off..off + self.match_amount];
                assert(matches_view(visible@) =~= self.visible());
                let mut out = self.redraw_line(visible, self.selected, false, &hl, &sel);
                let next = self.redraw_line(visible, self.selected - 1, true, &hl, &sel);
                out.append(next.as_str());
                self.selected = self.selected - 1;
                Action::Draw(out)
            },
            Key::Down => {
                if self.match_amount == 0 {
                    return Action::Draw(String::new());
                }
                if self.selected == self.match_amount - 1 {
                    proof {
                        self.selector.lemma_matches_len();
                    }
                    self.window.scroll_down();
                    let frame = self.print_items();
                    return Action::Draw(frame);
                }
                let hl = self.highlight_style.apply();
                let sel = self.selected_style.apply();
                let off = self.window.offset();
                let all = self.selector.matches();
                assert(matches_view(all@).len() == all@.len());
                proof {
                    self.selector.lemma_matches_len();
                }
                let visible = &all[off..off + self.match_amount];
                assert(matches_view(visible@) =~= self.visible());
                let mut out = self.redraw_line(visible, self.selected, false, &hl, &sel);
                let next = self.redraw_line(visible, self.selected + 1, true, &hl, &sel);
                out.append(next.as_str());
                self.selected = self.selected + 1;
                Action::Draw(out)
            },
            Key::Other => Action::Draw(String::new()),
        }
    }

    /// The matches on screen.
    pub fn visible_matches(&self) -> (r: &[Match])
        requires
            self.wf(),
            self.drawn(),
        ensures
            matches_view(r@) == self.visible(),
    {
        let all = self.selector.matches();
        let off = self.window.offset();
        assert(matches_view(all@).len() == all@.len());
        proof {
            self.selector.lemma_matches_len();
        }
        let r = &all[off..off + self.match_amount];
        assert(matches_view(r@) =~= self.visible());
        r
    }

    /// The selected line among the visible matches.
    pub fn selected(&self) -> (r: usize)
        ensures
            r == self.spec_selected(),
    {
        self.selected
    }

    /// The pattern typed so far.
    pub fn pattern(&self) -> (r: &str)
        ensures
            r@ == self.spec_pattern(),
    {
        self.pattern.as_str()
    }

    /// The selector, with its items and current matches.
    pub fn selector(&self) -> (r: &Selector)
        ensures
            *r == self.spec_selector(),
    {
        &self.selector
    }

    /// The first draw of a session: the prompt and the pattern, then the matches.
    pub fn start(&mut self) -> (r: String)
        requires
            old(self).wf(),
        ensures
            final(self).wf(),
            final(self).drawn(),
            final(self).same_setup(old(self)),
            final(self).spec_selector() == old(self).spec_selector(),
            final(self).spec_pattern() == old(self).spec_pattern(),
            r@ == old(self).spec_prompt() + old(self).spec_pattern() + final(self).redraw(
                if old(self).spec_match_amount() > final(self).spec_match_amount() {
                    (old(self).spec_match_amount() - final(self).spec_match_amount()) as nat
                } else {
                    0
                },
            ),
    {
        let mut out = self.prompt.clone();
        out.append(self.pattern.as_str());
        let items = self.print_items();
        out.append(items.as_str());
        out
    }
}

} // verus!
