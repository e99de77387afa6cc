//! The picture that the Mandelbrot generator fills, and its text in the
//! plain PPM format.

use vstd::prelude::*;
use crate::text::{decimal, push_char, push_decimal};

verus! {

/// A picture of `width` by `height` pixels, each a red, green and blue
/// triple; it starts black.
pub struct Image {
    width: usize,
    height: usize,
    data: Vec<(u8, u8, u8)>,
}

impl View for Image {
    /// The width, the height and the pixels row by row, top row first.
    type V = (nat, nat, Seq<(u8, u8, u8)>);

    closed spec fn view(&self) -> (nat, nat, Seq<(u8, u8, u8)>) {
        (self.width as nat, self.height as nat, self.data@)
    }
}

/// A picture `v.0` wide and `v.1` high holds one pixel for each position.
pub open spec fn holds_all_pixels(v: (nat, nat, Seq<(u8, u8, u8)>)) -> bool {
    v.2.len() == v.0 * v.1
}

/// The position of pixel `(x, y)` among the pixels of a picture `width`
/// wide, row by row.
pub open spec fn pixel_index(width: nat, x: nat, y: nat) -> nat {
    y * width + x
}

/// The line of a pixel in a PPM file: its three components in decimal.
pub open spec fn pixel_line(p: (u8, u8, u8)) -> Seq<char> {
    decimal(p.0 as nat) + seq![' '] + decimal(p.1 as nat) + seq![' '] + decimal(p.2 as nat) + seq![
        '\n',
    ]
}

/// The lines of the given pixels, in order.
pub open spec fn pixel_lines(pixels: Seq<(u8, u8, u8)>) -> Seq<char>
    decreases pixels.len(),
{
    if pixels.len() == 0 {
        seq![]
    } else {
        pixel_lines(pixels.drop_last()) + pixel_line(pixels.last())
    }
}

/// The header of a plain PPM file for a picture of the given size, as the
/// generator writes it.
pub open spec fn ppm_header(width: nat, height: nat) -> Seq<char> {
    seq!['P', '3', '\n', ' '] + decimal(width) + seq![' '] + decimal(height) + seq![
        ' ',
        '\n',
        ' ',
        '2',
        '5',
        '5',
        '\n',
    ]
}

/// Pixels are numbered row by row, each row from left to right: the first
/// pixel is the top left one, the pixel to the right of a pixel comes right
/// after it, and a row starts right after the last pixel of the row above.
pub proof fn lemma_row_by_row(width: nat)
    ensures
        pixel_index(width, 0, 0) == 0,
        forall|x: nat, y: nat|
            x + 1 < width ==> #[trigger] pixel_index(width, x + 1, y) == pixel_index(width, x, y)
                + 1,
        forall|y: nat|
            width > 0 ==> #[trigger] pixel_index(width, 0, y + 1) == pixel_index(
                width,
                (width - 1) as nat,
                y,
            ) + 1,
{
    assert forall|y: nat| width > 0 implies #[trigger] pixel_index(width, 0, y + 1) == pixel_index(
        width,
        (width - 1) as nat,
        y,
    ) + 1 by {
        assert((y + 1) * width == y * width + width) by (nonlinear_arith);
    }
}

/// The text of a list of pixels is the text of its first part followed by
/// the text of the rest.
pub proof fn lemma_pixel_lines_concat(a: Seq<(u8, u8, u8)>, b: Seq<(u8, u8, u8)>)
    ensures
        pixel_lines(a + b) == pixel_lines(a) + pixel_lines(b),
    decreases b.len(),
{
    if b.len() == 0 {
        assert(a + b == a);
        assert(pixel_lines(a) + Seq::<char>::empty() == pixel_lines(a));
    } else {
        assert((a + b).drop_last() == a + b.drop_last());
        assert((a + b).last() == b.last());
        lemma_pixel_lines_concat(a, b.drop_last());
    }
}

/// In the text of a list of pixels, pixel `k` has the line that follows the
/// lines of the `k` pixels before it.
pub proof fn lemma_pixel_line_at(p: Seq<(u8, u8, u8)>, k: int)
    requires
        0 <= k < p.len(),
    ensures
        pixel_lines(p) == pixel_lines(p.take(k)) + pixel_line(p[k]) + pixel_lines(p.skip(k + 1)),
{
    assert(p == p.take(k) + (seq![p[k]] + p.skip(k + 1)));
    lemma_pixel_lines_concat(p.take(k), seq![p[k]] + p.skip(k + 1));
    lemma_pixel_lines_concat(seq![p[k]], p.skip(k + 1));
    let one = seq![p[k]];
    assert(one.drop_last() =~= Seq::<(u8, u8, u8)>::empty());
    assert(one.last() == p[k]);
    assert(pixel_lines(Seq::<(u8, u8, u8)>::empty()) == Seq::<char>::empty());
    assert(Seq::<char>::empty() + pixel_line(p[k]) =~= pixel_line(p[k]));
    assert(pixel_lines(one) == pixel_line(p[k]));
}

proof fn lemma_index_in_bounds(width: nat, height: nat, x: nat, y: nat)
    requires
        x < width,
        y < height,
    ensures
        pixel_index(width, x, y) < width * height,
{
    assert(y * width + x < width * height) by (nonlinear_arith)
        requires
            x < width,
            y < height,
    ;
}

/// Painting one pixel of a picture gives that pixel the new colour and
/// leaves every other pixel as it was.
pub proof fn lemma_paint_one_pixel(
    width: nat,
    height: nat,
    pixels: Seq<(u8, u8, u8)>,
    x: nat,
    y: nat,
    color: (u8, u8, u8),
    x2: nat,
    y2: nat,
)
    requires
        pixels.len() == width * height,
        x < width,
        y < height,
        x2 < width,
        y2 < height,
    ensures
        pixels.update(pixel_index(width, x, y) as int, color)[pixel_index(width, x2, y2) as int]
            == if x2 == x && y2 == y {
            color
        } else {
            pixels[pixel_index(width, x2, y2) as int]
        },
{
    lemma_index_in_bounds(width, height, x, y);
    lemma_index_in_bounds(width, height, x2, y2);
    if x2 != x || y2 != y {
        assert(y * width + x != y2 * width + x2) by (nonlinear_arith)
            requires
                x < width,
                x2 < width,
                x2 != x || y2 != y,
        {
            if y == y2 {
            } else if y < y2 {
                assert(y * width + width <= y2 * width);
            } else {
                assert(y2 * width + width <= y * width);
            }
        }
    }
}

impl Image {
    #[verifier::type_invariant]
    spec fn well_formed(&self) -> bool {
        self.data@.len() == self.width * self.height
    }

    /// A black picture of the given size.
    pub fn new(width: usize, height: usize) -> (img: Self)
        requires
            width * height <= usize::MAX,
        ensures
            img@.0 == width,
            img@.1 == height,
            img@.2 == Seq::new((width * height) as nat, |i: int| (0u8, 0u8, 0u8)),
            holds_all_pixels(img@),
    {
        let n: usize = width * height;
        let mut data: Vec<(u8, u8, u8)> = Vec::new();
        while data.len() < n
            invariant
                data.len() <= n,
                data@ == Seq::new(data.len() as nat, |i: int| (0u8, 0u8, 0u8)),
            decreases n - data.len(),
        {
            data.push((0, 0, 0));
        }
        Image { width, height, data }
    }

    /// The width in pixels.
    pub fn width(&self) -> (w: usize)
        ensures
            w == self@.0,
            holds_all_pixels(self@),
    {
        proof {
            use_type_invariant(self);
        }
        self.width
    }

    /// The height in pixels.
    pub fn height(&self) -> (h: usize)
        ensures
            h == self@.1,
            holds_all_pixels(self@),
    {
        proof {
            use_type_invariant(self);
        }
        self.height
    }

    /// Paints pixel `(x, y)` when it lies in the picture and tells whether
    /// it did; outside the picture nothing changes.
    pub fn set_pixel(&mut self, x: usize, y: usize, color: (u8, u8, u8)) -> (inside: bool)
        ensures
            inside == (x < old(self)@.0 && y < old(self)@.1),
            final(self)@.0 == old(self)@.0,
            final(self)@.1 == old(self)@.1,
            inside ==> final(self)@.2 == old(self)@.2.update(
                pixel_index(old(self)@.0, x as nat, y as nat) as int,
                color,
            ),
            !inside ==> final(self)@.2 == old(self)@.2,
            holds_all_pixels(old(self)@),
            holds_all_pixels(final(self)@),
            inside ==> forall|x2: nat, y2: nat|
                x2 < old(self)@.0 && y2 < old(self)@.1 ==> #[trigger] final(self)@.2[pixel_index(
                    old(self)@.0,
                    x2,
                    y2,
                ) as int] == if x2 == x && y2 == y {
                    color
                } else {
                    old(self)@.2[pixel_index(old(self)@.0, x2, y2) as int]
                },
    {
        proof {
            use_type_invariant(&*self);
        }
        let n = self.data.len();
        if x < self.width && y < self.height {
            proof {
                lemma_index_in_bounds(self.width as nat, self.height as nat, x as nat, y as nat);
            }
            assert(y * self.width + x < n);
            let i = y * self.width + x;
            proof {
                let w = self.width as nat;
                let h = self.height as nat;
                let px = self.data@;
                assert forall|x2: nat, y2: nat| x2 < w && y2 < h implies #[trigger] px.update(
                    pixel_index(w, x as nat, y as nat) as int,
                    color,
                )[pixel_index(w, x2, y2) as int] == if x2 == x && y2 == y {
                    color
                } else {
                    px[pixel_index(w, x2, y2) as int]
                } by {
                    lemma_paint_one_pixel(w, h, px, x as nat, y as nat, color, x2, y2);
                }
            }
            let mut taken = Image { width: 0, height: 0, data: Vec::new() };
            std::mem::swap(self, &mut taken);
            let Image { width, height, mut data } = taken;
            data.set(i, color);
            *self = Image { width, height, data };
            true
        } else {
            false
        }
    }

    /// The pixel at `(x, y)`.
    pub fn pixel(&self, x: usize, y: usize) -> (p: (u8, u8, u8))
        requires
            x < self@.0,
            y < self@.1,
        ensures
            p == self@.2[pixel_index(self@.0, x as nat, y as nat) as int],
            holds_all_pixels(self@),
    {
        proof {
            use_type_invariant(self);
            lemma_index_in_bounds(self.width as nat, self.height as nat, x as nat, y as nat);
        }
        let n = self.data.len();
        assert(y * self.width + x < n);
        self.data[y * self.width + x]
    }

    /// The text of the picture as a plain PPM file: the header, then one
    /// line per pixel, row by row.
    pub fn to_ppm(&self) -> (s: String)
        ensures
            s@ == ppm_header(self@.0, self@.1) + pixel_lines(self@.2),
            holds_all_pixels(self@),
    {
        proof {
            use_type_invariant(self);
        }
        let mut s = String::new();
        push_char(&mut s, 'P');
        push_char(&mut s, '3');
        push_char(&mut s, '\n');
        push_char(&mut s, ' ');
        push_decimal(&mut s, self.width as u64);
        push_char(&mut s, ' ');
        push_decimal(&mut s, self.height as u64);
        push_char(&mut s, ' ');
        push_char(&mut s, '\n');
        push_char(&mut s, ' ');
        push_char(&mut s, '2');
        push_char(&mut s, '5');
        push_char(&mut s, '5');
        push_char(&mut s, '\n');
        let ghost head = s@;
        let mut i: usize = 0;
        while i < self.data.len()
            invariant
                0 <= i <= self.data.len(),
                s@ == head + pixel_lines(self.data@.take(i as int)),
            decreases self.data.len() - i,
        {
            let (r, g, b) = self.data[i];
            assert(self.data@.take(i + 1).drop_last() == self.data@.take(i as int));
            push_decimal(&mut s, r as u64);
            push_char(&mut s, ' ');
            push_decimal(&mut s, g as u64);
            push_char(&mut s, ' ');
            push_decimal(&mut s, b as u64);
            push_char(&mut s, '\n');
            i = i + 1;
        }
        assert(self.data@.take(self.data.len() as int) == self.data@);
        s
    }
}

} // verus!
