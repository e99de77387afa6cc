//! Colours of the turtle's pen and their `rgb(r, g, b)` text form.

use vstd::prelude::*;
use crate::text::{
    chars_of, close_run, decimal, is_ascii_digit, is_numeric_char, lemma_decimal_digits,
    lemma_runs_numeric_prefix, lemma_runs_separators, numeric_runs, parse_byte, parse_byte_run,
    push_char, push_decimal, runs_from, split_numeric_runs,
};

verus! {

/// A colour given by its red, green and blue components.
#[derive(Debug, Clone, PartialEq, Eq, Structural)]
pub struct Color {
    r: u8,
    g: u8,
    b: u8,
}

impl View for Color {
    type V = (u8, u8, u8);

    closed spec fn view(&self) -> (u8, u8, u8) {
        (self.r, self.g, self.b)
    }
}

/// The text `rgb(r<sep>g<sep>b)` of a colour, with its components in
/// decimal.
pub open spec fn rgb_text_with(c: (u8, u8, u8), sep: Seq<char>) -> Seq<char> {
    seq!['r', 'g', 'b', '('] + decimal(c.0 as nat) + sep + decimal(c.1 as nat) + sep + decimal(
        c.2 as nat,
    ) + seq![')']
}

/// The text `rgb(r, g, b)` of a colour, with its components in decimal.
pub open spec fn rgb_text(c: (u8, u8, u8)) -> Seq<char> {
    rgb_text_with(c, seq![',', ' '])
}

/// The colour that a text names: its runs of numeric characters are read as
/// bytes; there must be at least three of them, every one of them must be a
/// byte in decimal, and the first three give red, green and blue.
pub open spec fn parse_color(s: Seq<char>) -> Option<(u8, u8, u8)> {
    let runs = numeric_runs(s);
    if runs.len() >= 3 && forall|i: int| 0 <= i < runs.len() ==> (#[trigger] parse_byte(runs[i])) is Some {
        Some((parse_byte(runs[0])->0, parse_byte(runs[1])->0, parse_byte(runs[2])->0))
    } else {
        None
    }
}

proof fn lemma_decimal_numeric(n: nat)
    ensures
        decimal(n).len() > 0,
        forall|i: int| 0 <= i < decimal(n).len() ==> is_numeric_char(#[trigger] decimal(n)[i]),
        parse_byte(decimal(n)) == (if n <= 255 { Some(n as u8) } else { None::<u8> }),
{
    lemma_decimal_digits(n);
    assert forall|i: int| 0 <= i < decimal(n).len() implies is_numeric_char(#[trigger] decimal(n)[i]) by {
        assert(is_ascii_digit(decimal(n)[i]));
    }
}

/// Reading back `rgb(r<sep>g<sep>b)` gives the colour, whatever separator
/// without numeric characters stands between the components.
pub proof fn lemma_parse_rgb_text_with(c: (u8, u8, u8), sep: Seq<char>)
    requires
        sep.len() > 0,
        forall|i: int| 0 <= i < sep.len() ==> !is_numeric_char(#[trigger] sep[i]),
    ensures
        parse_color(rgb_text_with(c, sep)) == Some(c),
{
    let d1 = decimal(c.0 as nat);
    let d2 = decimal(c.1 as nat);
    let d3 = decimal(c.2 as nat);
    lemma_decimal_numeric(c.0 as nat);
    lemma_decimal_numeric(c.1 as nat);
    lemma_decimal_numeric(c.2 as nat);
    let e: Seq<char> = seq![];
    let open = seq!['r', 'g', 'b', '('];
    let close = seq![')'];
    let t3 = d3 + close;
    let t2 = d2 + (sep + t3);
    let t1 = d1 + (sep + t2);
    assert(rgb_text_with(c, sep) =~= open + t1);
    assert(close_run(e) =~= Seq::<Seq<char>>::empty());
    assert forall|i: int| 0 <= i < open.len() implies !is_numeric_char(#[trigger] open[i]) by {}
    lemma_runs_separators(open, t1, e);
    lemma_runs_numeric_prefix(d1, sep + t2, e);
    assert(e + d1 =~= d1);
    lemma_runs_separators(sep, t2, d1);
    lemma_runs_numeric_prefix(d2, sep + t3, e);
    assert(e + d2 =~= d2);
    lemma_runs_separators(sep, t3, d2);
    lemma_runs_numeric_prefix(d3, close, e);
    assert(e + d3 =~= d3);
    assert forall|i: int| 0 <= i < close.len() implies !is_numeric_char(#[trigger] close[i]) by {}
    lemma_runs_separators(close, e, d3);
    assert(close + e =~= close);
    assert(runs_from(e, e) =~= Seq::<Seq<char>>::empty());
    let runs = numeric_runs(rgb_text_with(c, sep));
    assert(runs =~= seq![d1, d2, d3]);
    assert forall|i: int| 0 <= i < runs.len() implies (#[trigger] parse_byte(runs[i])) is Some by {
        if i == 0 {
        } else if i == 1 {
        } else {
        }
    }
}

/// Reading back the text of a colour gives the colour.
pub proof fn lemma_parse_rgb_text(c: (u8, u8, u8))
    ensures
        parse_color(rgb_text(c)) == Some(c),
{
    let sep = seq![',', ' '];
    assert forall|i: int| 0 <= i < sep.len() implies !is_numeric_char(#[trigger] sep[i]) by {}
    lemma_parse_rgb_text_with(c, sep);
}

impl Color {
    /// Red, `rgb(255, 0, 0)`.
    pub fn red() -> (c: Color)
        ensures
            c@ == (255u8, 0u8, 0u8),
    {
        Color { r: 255, g: 0, b: 0 }
    }

    /// Green, `rgb(0, 255, 0)`.
    pub fn green() -> (c: Color)
        ensures
            c@ == (0u8, 255u8, 0u8),
    {
        Color { r: 0, g: 255, b: 0 }
    }

    /// Blue, `rgb(0, 0, 255)`.
    pub fn blue() -> (c: Color)
        ensures
            c@ == (0u8, 0u8, 255u8),
    {
        Color { r: 0, g: 0, b: 255 }
    }

    /// Black, `rgb(0, 0, 0)`.
    pub fn black() -> (c: Color)
        ensures
            c@ == (0u8, 0u8, 0u8),
    {
        Color { r: 0, g: 0, b: 0 }
    }

    /// White, `rgb(255, 255, 255)`.
    pub fn white() -> (c: Color)
        ensures
            c@ == (255u8, 255u8, 255u8),
    {
        Color { r: 255, g: 255, b: 255 }
    }

    /// The colour with the given components.
    pub fn new(r: u8, g: u8, b: u8) -> (c: Self)
        ensures
            c@ == (r, g, b),
    {
        Color { r, g, b }
    }

    /// Replaces all three components.
    pub fn set_color(&mut self, r: u8, g: u8, b: u8)
        ensures
            final(self)@ == (r, g, b),
    {
        self.r = r;
        self.g = g;
        self.b = b;
    }

    /// The text `rgb(r, g, b)` of this colour, as the turtle writes it into
    /// an SVG `stroke` or `fill` attribute.
    pub fn to_rgb_string(&self) -> (s: String)
        ensures
            s@ == rgb_text(self@),
    {
        self.rgb_string(true)
    }

    /// The text `rgb(r, g, b)` of this colour, or `rgb(r,g,b)` when
    /// `spaced` is false.
    pub(crate) fn rgb_string(&self, spaced: bool) -> (s: String)
        ensures
            s@ == rgb_text_with(self@, if spaced { seq![',', ' '] } else { seq![','] }),
    {
        let mut s = String::new();
        push_char(&mut s, 'r');
        push_char(&mut s, 'g');
        push_char(&mut s, 'b');
        push_char(&mut s, '(');
        push_decimal(&mut s, self.r as u64);
        push_char(&mut s, ',');
        if spaced {
            push_char(&mut s, ' ');
        }
        push_decimal(&mut s, self.g as u64);
        push_char(&mut s, ',');
        if spaced {
            push_char(&mut s, ' ');
        }
        push_decimal(&mut s, self.b as u64);
        push_char(&mut s, ')');
        s
    }

    /// Reads a colour from a text such as `rgb(255, 127, 0)`; `None` where
    /// the text names no colour (see `parse_color`).
    pub fn parse(s: &str) -> (res: Option<Color>)
        ensures
            match res {
                Some(c) => parse_color(s@) == Some(c@),
                None => parse_color(s@) is None,
            },
    {
        let chars = chars_of(s);
        let runs = split_numeric_runs(&chars);
        let ghost spec_runs = runs@.map_values(|r: Vec<char>| r@);
        let mut values: Vec<u8> = Vec::new();
        let mut i: usize = 0;
        while i < runs.len()
            invariant
                0 <= i <= runs.len(),
                spec_runs == runs@.map_values(|r: Vec<char>| r@),
                spec_runs == numeric_runs(s@),
                values.len() == i,
                forall|j: int| 0 <= j < i ==> parse_byte(#[trigger] spec_runs[j]) == Some(values@[j]),
            decreases runs.len() - i,
        {
            assert(spec_runs[i as int] == runs@[i as int]@);
            match parse_byte_run(&runs[i]) {
                Some(v) => values.push(v),
                None => return None,
            }
            i = i + 1;
        }
        if values.len() < 3 {
            return None;
        }
        Some(Color { r: values[0], g: values[1], b: values[2] })
    }

    /// The colour that `s` names; `s` must name one (see `parse`, which
    /// checks it).
    pub fn from(s: String) -> (c: Color)
        requires
            parse_color(s@) is Some,
        ensures
            parse_color(s@) == Some(c@),
    {
        match Color::parse(s.as_str()) {
            Some(c) => c,
            None => Color { r: 0, g: 0, b: 0 },
        }
    }
}

} // verus!
