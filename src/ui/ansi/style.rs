//! Wrapper around SGR (select graphic rendition) control sequences.
use vstd::prelude::*;

use super::control_sequence::{csi, params_view, print};

verus! {

broadcast use vstd::std_specs::vec::group_vec_axioms;

/// The final character of an SGR sequence.
pub const SGR_FINAL_BYTE: char = 'm';

/// A color that can be applied via a SGR CSI sequence
#[derive(Debug, Clone, Copy, PartialEq, Eq, Structural)]
pub enum Color {
    /// Standard 4-bit color in range 0..8
    Standard(u8),
    /// High-intensity 4-bit color in range 8..15, given as 0..8
    Bold(u8),
    /// Color in 6x6x6 cube
    /// Formula: 16 + 36 × r + 6 × g + b
    /// With each component in range 0..6
    Cube(u8, u8, u8),
    /// Grayscale color in range 232..255 (24 steps), given as 0..24
    Grayscale(u8),
    /// True 24-bit color
    True(u8, u8, u8),
}

impl Color {
    /// Each component lies in its range.
    pub open spec fn wf(self) -> bool {
        match self {
            Color::Standard(n) => n <= 7,
            Color::Bold(n) => n <= 7,
            Color::Cube(r, g, b) => r <= 5 && g <= 5 && b <= 5,
            Color::Grayscale(n) => n <= 23,
            Color::True(_, _, _) => true,
        }
    }

    /// The SGR parameters that select this color, after the foreground/background byte.
    pub open spec fn params(self) -> Seq<nat> {
        match self {
            Color::Standard(n) => seq![5nat, n as nat],
            Color::Bold(n) => seq![5nat, n as nat + 8],
            Color::Cube(r, g, b) => seq![5nat, 16 + 36 * r as nat + 6 * g as nat + b as nat],
            Color::Grayscale(n) => seq![5nat, n as nat + 232],
            Color::True(r, g, b) => seq![2nat, r as nat, g as nat, b as nat],
        }
    }

    /// The sequence `ESC [ first_byte ; params m`.
    pub fn print(self, first_byte: usize) -> (r: String)
        requires
            self.wf(),
        ensures
            r@ == csi(seq![first_byte as nat] + self.params(), SGR_FINAL_BYTE),
    {
        let params: Vec<usize> = match self {
            Color::Standard(n) => vec![first_byte, 5, n as usize],
            Color::Bold(n) => vec![first_byte, 5, n as usize + 8],
            Color::Cube(r, g, b) => vec![first_byte, 5, 16 + 36 * r as usize + 6 * g as usize + b as usize],
            Color::Grayscale(n) => vec![first_byte, 5, n as usize + 232],
            Color::True(r, g, b) => vec![first_byte, 2, r as usize, g as usize, b as usize],
        };
        let r = print(params.as_slice(), SGR_FINAL_BYTE);
        assert(params_view(params@) =~= seq![first_byte as nat] + self.params());
        r
    }

    /// The sequence that sets this as the foreground color.
    pub fn set_foreground(self) -> (r: String)
        requires
            self.wf(),
        ensures
            r@ == csi(seq![38nat] + self.params(), SGR_FINAL_BYTE),
    {
        self.print(38)
    }

    /// The sequence that sets this as the background color.
    pub fn set_background(self) -> (r: String)
        requires
            self.wf(),
        ensures
            r@ == csi(seq![48nat] + self.params(), SGR_FINAL_BYTE),
    {
        self.print(48)
    }
}

/// A text style
#[derive(Debug)]
pub enum Style {
    Foreground(Color),
    Background(Color),
    Bold,
    Underlined,
    /// The styles applied one after the other
    Compound(Vec<Style>),
}

/// Every color in the style lies in its range.
pub open spec fn style_wf(s: Style) -> bool
    decreases s, 0nat,
{
    match s {
        Style::Foreground(c) => c.wf(),
        Style::Background(c) => c.wf(),
        Style::Bold => true,
        Style::Underlined => true,
        Style::Compound(v) => styles_wf(v, v@.len() as int),
    }
}

/// The first `n` styles of `v` are well formed.
pub open spec fn styles_wf(v: Vec<Style>, n: int) -> bool
    decreases v, n,
{
    if n <= 0 || n > v@.len() {
        true
    } else {
        styles_wf(v, n - 1) && style_wf(v@[n - 1])
    }
}

/// The SGR sequences that apply the style.
pub open spec fn style_sequence(s: Style) -> Seq<char>
    decreases s, 0nat,
{
    match s {
        Style::Foreground(c) => csi(seq![38nat] + c.params(), SGR_FINAL_BYTE),
        Style::Background(c) => csi(seq![48nat] + c.params(), SGR_FINAL_BYTE),
        Style::Bold => csi(seq![1nat], SGR_FINAL_BYTE),
        Style::Underlined => csi(seq![4nat], SGR_FINAL_BYTE),
        Style::Compound(v) => styles_sequence(v, v@.len() as int),
    }
}

/// The sequences of the first `n` styles of `v`, in order.
pub open spec fn styles_sequence(v: Vec<Style>, n: int) -> Seq<char>
    decreases v, n,
{
    if n <= 0 || n > v@.len() {
        Seq::empty()
    } else {
        styles_sequence(v, n - 1) + style_sequence(v@[n - 1])
    }
}

/// The sequence that resets every attribute.
pub open spec fn reset_sequence() -> Seq<char> {
    csi(seq![0nat], SGR_FINAL_BYTE)
}

impl Style {
    /// The sequences that apply this style to the following text
    pub fn apply(&self) -> (r: String)
        requires
            style_wf(*self),
        ensures
            r@ == style_sequence(*self),
        decreases *self,
    {
        match self {
            Style::Foreground(color) => color.set_foreground(),
            Style::Background(color) => color.set_background(),
            Style::Bold => {
                let r = print(&[1], SGR_FINAL_BYTE);
                assert(params_view(seq![1usize]) =~= seq![1nat]);
                r
            },
            Style::Underlined => {
                let r = print(&[4], SGR_FINAL_BYTE);
                assert(params_view(seq![4usize]) =~= seq![4nat]);
                r
            },
            Style::Compound(styles) => {
                let mut r = String::new();
                let mut i: usize = 0;
                while i < styles.len()
                    invariant
                        i <= styles@.len(),
                        *self == Style::Compound(*styles),
                        styles_wf(*styles, styles@.len() as int),
                        r@ == styles_sequence(*styles, i as int),
                    decreases styles@.len() - i,
                {
                    proof {
                        lemma_styles_wf_prefix(*styles, styles@.len() as int, i + 1);
                        assert(decreases_to!(*styles => styles[i as int]));
                        assert(decreases_to!(*self => self->Compound_0));
                        assert(decreases_to!(*self => styles[i as int]));
                    }
                    let s = styles[i].apply();
                    r.append(s.as_str());
                    i += 1;
                }
                r
            },
        }
    }

    /// The sequence that resets every attribute
    pub fn reset_all() -> (r: String)
        ensures
            r@ == reset_sequence(),
    {
        let r = print(&[0], SGR_FINAL_BYTE);
        assert(params_view(seq![0usize]) =~= seq![0nat]);
        r
    }
}

proof fn lemma_styles_wf_prefix(v: Vec<Style>, n: int, m: int)
    requires
        styles_wf(v, n),
        0 < m <= n <= v@.len(),
    ensures
        styles_wf(v, m) && style_wf(v@[m - 1]),
    decreases n - m,
{
    if m < n {
        lemma_styles_wf_prefix(v, n - 1, m);
    }
}

} // verus!
