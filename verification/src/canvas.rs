use vstd::prelude::*;

verus! {

/// The Canvas represents the area we are going to be drawing images onto: a
/// `width` by `height` grid of pixels stored row by row.
pub struct Canvas<P> {
    width: u32,
    height: u32,
    pixels: Vec<P>,
}

impl<P> Canvas<P> {
    /// The canvas holds one pixel per position.
    pub closed spec fn wf(&self) -> bool {
        self.pixels@.len() == self.width * self.height
    }

    /// The width in pixels.
    pub closed spec fn width_spec(&self) -> nat {
        self.width as nat
    }

    /// The height in pixels.
    pub closed spec fn height_spec(&self) -> nat {
        self.height as nat
    }

    /// The pixels, row by row.
    pub closed spec fn pixels_spec(&self) -> Seq<P> {
        self.pixels@
    }

    /// The position of pixel `(x, y)` in row by row order.
    pub open spec fn index_of(&self, x: int, y: int) -> int {
        y * self.width_spec() + x
    }

    /// The width in pixels.
    pub fn width(&self) -> (r: u32)
        ensures
            r == self.width_spec(),
    {
        self.width
    }

    /// The height in pixels.
    pub fn height(&self) -> (r: u32)
        ensures
            r == self.height_spec(),
    {
        self.height
    }

    /// Create a `Canvas` from an existing Vec of pixels, row by row.
    pub fn with_vec(width: u32, height: u32, pixels: Vec<P>) -> (r: Canvas<P>)
        requires
            width * height <= u32::MAX,
            pixels@.len() == width * height,
        ensures
            r.wf(),
            r.width_spec() == width,
            r.height_spec() == height,
            r.pixels_spec() == pixels@,
    {
        Canvas { width, height, pixels }
    }

    /// Replaces the pixel at column `x` of row `y`.
    pub fn write_pixel(&mut self, x: usize, y: usize, colour: P)
        requires
            old(self).wf(),
            y * old(self).width_spec() + x < old(self).pixels_spec().len(),
        ensures
            final(self).wf(),
            final(self).width_spec() == old(self).width_spec(),
            final(self).height_spec() == old(self).height_spec(),
            final(self).pixels_spec() == old(self).pixels_spec().update(
                old(self).index_of(x as int, y as int),
                colour,
            ),
    {
        let w = self.width as usize;
        let len = self.pixels.len();
        assert(y * w + x < len);
        let index = y * w + x;
        self.pixels.set(index, colour);
    }
}

impl<P: Copy> Canvas<P> {
    /// A `width` by `height` canvas whose every pixel is `background`.
    pub fn new(width: u32, height: u32, background: P) -> (r: Canvas<P>)
        requires
            width * height <= u32::MAX,
        ensures
            r.wf(),
            r.width_spec() == width,
            r.height_spec() == height,
            r.pixels_spec() == Seq::new((width * height) as nat, |i: int| background),
    {
        let count = (width * height) as usize;
        let mut pixels: Vec<P> = Vec::new();
        let mut i: usize = 0;
        while i < count
            invariant
                i <= count,
                pixels@ == Seq::new(i as nat, |j: int| background),
            decreases count - i,
        {
            pixels.push(background);
            i = i + 1;
            assert(pixels@ =~= Seq::new(i as nat, |j: int| background));
        }
        Canvas { width, height, pixels }
    }

    /// The pixel at column `x` of row `y`.
    pub fn get_pixel(&self, x: usize, y: usize) -> (r: P)
        requires
            self.wf(),
            y * self.width_spec() + x < self.pixels_spec().len(),
        ensures
            r == self.pixels_spec()[self.index_of(x as int, y as int)],
    {
        let w = self.width as usize;
        let len = self.pixels.len();
        assert(y * w + x < len);
        self.pixels[y * w + x]
    }
}

/// Positions inside a row of width `w` have distinct indices: the index of
/// a pixel determines its column and row.
pub proof fn lemma_index_injective(w: nat, x1: nat, y1: nat, x2: nat, y2: nat)
    requires
        x1 < w,
        x2 < w,
        y1 * w + x1 == y2 * w + x2,
    ensures
        x1 == x2,
        y1 == y2,
{
    if y1 < y2 {
        assert(y1 * w + x1 < y2 * w + x2) by (nonlinear_arith)
            requires
                y1 < y2,
                x1 < w,
        ;
    } else if y2 < y1 {
        assert(y2 * w + x2 < y1 * w + x1) by (nonlinear_arith)
            requires
                y2 < y1,
                x2 < w,
        ;
    }
}

/// Reading a pixel after writing one: the written position gives the
/// written pixel, every other position inside the rows keeps its pixel.
pub proof fn lemma_read_after_write<P>(
    pixels: Seq<P>,
    w: nat,
    x: nat,
    y: nat,
    colour: P,
    x2: nat,
    y2: nat,
)
    requires
        x < w,
        x2 < w,
        y * w + x < pixels.len(),
        y2 * w + x2 < pixels.len(),
    ensures
        pixels.update((y * w + x) as int, colour)[(y2 * w + x2) as int] == if x2 == x && y2 == y {
            colour
        } else {
            pixels[(y2 * w + x2) as int]
        },
{
    if y * w + x == y2 * w + x2 {
        lemma_index_injective(w, x, y, x2, y2);
    }
}

/// The character of the decimal digit `d`.
pub open spec fn digit_char(d: int) -> char {
    ('0' as int + d) as char
}

/// The decimal representation of `n`, without leading zeros.
pub open spec fn decimal(n: nat) -> Seq<char>
    decreases n,
{
    if n < 10 {
        seq![digit_char(n as int)]
    } else {
        decimal(n / 10).push(digit_char((n % 10) as int))
    }
}

/// Appends the decimal representation of `n`.
fn push_decimal(out: &mut Vec<char>, n: u32)
    ensures
        final(out)@ == old(out)@ + decimal(n as nat),
    decreases n,
{
    if n >= 10 {
        push_decimal(out, n / 10);
    }
    let d = n % 10;
    let c = char_of_digit(d);
    let ghost before = out@;
    out.push(c);
    proof {
        if n < 10 {
            assert(before + decimal(n as nat) == before.push(c));
        } else {
            assert(before == old(out)@ + decimal((n / 10) as nat));
            assert(decimal(n as nat) == decimal((n / 10) as nat).push(c));
            assert(old(out)@ + decimal(n as nat) == before.push(c));
        }
    }
}

/// The character of a decimal digit.
fn char_of_digit(d: u32) -> (c: char)
    requires
        d < 10,
    ensures
        c == digit_char(d as int),
{
    match d {
        0 => '0',
        1 => '1',
        2 => '2',
        3 => '3',
        4 => '4',
        5 => '5',
        6 => '6',
        7 => '7',
        8 => '8',
        _ => '9',
    }
}

/// The PPM text of one pixel: `red green blue` and a line break.
pub open spec fn pixel_line(p: (u8, u8, u8)) -> Seq<char> {
    decimal(p.0 as nat) + seq![' '] + decimal(p.1 as nat) + seq![' '] + decimal(p.2 as nat) + seq!['\n']
}

/// The PPM text of the pixels, one per line.
pub open spec fn pixel_lines(pixels: Seq<(u8, u8, u8)>) -> Seq<char>
    decreases pixels.len(),
{
    if pixels.len() == 0 {
        Seq::empty()
    } else {
        pixel_lines(pixels.drop_last()) + pixel_line(pixels.last())
    }
}

/// The plain PPM (`P3`) text of a `width` by `height` image: the header,
/// then one `red green blue` line per pixel.
pub open spec fn ppm_spec(width: u32, height: u32, pixels: Seq<(u8, u8, u8)>) -> Seq<char> {
    seq!['P', '3', '\n'] + decimal(width as nat) + seq![' '] + decimal(height as nat) + seq![
        '\n',
        '2',
        '5',
        '5',
        '\n',
    ] + pixel_lines(pixels)
}

/// The number that a string of decimal digits spells, most significant
/// digit first.
pub open spec fn digits_value(s: Seq<char>) -> int
    decreases s.len(),
{
    if s.len() == 0 {
        0
    } else {
        digits_value(s.drop_last()) * 10 + (s.last() as int - '0' as int)
    }
}

/// `s` writes a number in decimal: one or more digits, and no leading zero
/// unless the number is zero itself.
pub open spec fn is_decimal_text(s: Seq<char>) -> bool {
    &&& s.len() >= 1
    &&& forall|i: int| 0 <= i < s.len() ==> '0' <= #[trigger] s[i] <= '9'
    &&& (s[0] == '0' ==> s.len() == 1)
}

proof fn lemma_digit_char_value(d: int)
    requires
        0 <= d < 10,
    ensures
        digit_char(d) as int == '0' as int + d,
        '0' <= digit_char(d) <= '9',
{
    assert(digit_char(d) as int == '0' as int + d);
}

/// The decimal text of `n` is a proper decimal numeral that reads back as
/// `n`.
pub proof fn lemma_decimal_reads_back(n: nat)
    ensures
        is_decimal_text(decimal(n)),
        digits_value(decimal(n)) == n,
    decreases n,
{
    if n >= 10 {
        let q = (n / 10) as nat;
        lemma_decimal_reads_back(q);
        lemma_digit_char_value((n % 10) as int);
        let d = decimal(q);
        let t = decimal(n);
        assert(t == d.push(digit_char((n % 10) as int)));
        assert(t.drop_last() == d);
        assert(t.last() == digit_char((n % 10) as int));
        assert(digits_value(t) == q * 10 + n % 10);
        assert(q * 10 + n % 10 == n);
        assert(t[0] == d[0]);
        if d[0] == '0' {
            assert(d.len() == 1);
            assert(d.drop_last().len() == 0);
            assert(d.last() == d[0]);
            assert(digits_value(d.drop_last()) == 0);
            assert(digits_value(d) == 0);
        }
        assert forall|i: int| 0 <= i < t.len() implies '0' <= #[trigger] t[i] <= '9' by {
            if i < d.len() {
                assert(t[i] == d[i]);
            }
        }
    } else {
        lemma_digit_char_value(n as int);
        let t = decimal(n);
        assert(t.drop_last().len() == 0);
        assert(digits_value(t.drop_last()) == 0);
        assert(t.last() == digit_char(n as int));
    }
}

/// Each pixel's line is its red, green and blue values written in decimal,
/// separated by single spaces and ended by a line break.
pub proof fn lemma_pixel_line_reads_back(p: (u8, u8, u8))
    ensures
        exists|r: Seq<char>, g: Seq<char>, b: Seq<char>|
            #![trigger digits_value(r), digits_value(g), digits_value(b)]
            {
                &&& is_decimal_text(r) && digits_value(r) == p.0
                &&& is_decimal_text(g) && digits_value(g) == p.1
                &&& is_decimal_text(b) && digits_value(b) == p.2
                &&& pixel_line(p) == r + seq![' '] + g + seq![' '] + b + seq!['\n']
            },
{
    lemma_decimal_reads_back(p.0 as nat);
    lemma_decimal_reads_back(p.1 as nat);
    lemma_decimal_reads_back(p.2 as nat);
    let r = decimal(p.0 as nat);
    let g = decimal(p.1 as nat);
    let b = decimal(p.2 as nat);
    assert(digits_value(r) == p.0 && digits_value(g) == p.1 && digits_value(b) == p.2);
}

proof fn lemma_pixel_lines_append(a: Seq<(u8, u8, u8)>, b: Seq<(u8, u8, u8)>)
    ensures
        pixel_lines(a + b) == pixel_lines(a) + pixel_lines(b),
    decreases b.len(),
{
    if b.len() == 0 {
        assert(a + b == a);
    } else {
        lemma_pixel_lines_append(a, b.drop_last());
        assert((a + b).drop_last() == a + b.drop_last());
        assert((a + b).last() == b.last());
    }
}

/// The pixels' lines come in the pixels' order: the line of pixel `k` stands
/// after the lines of the pixels before it and before those of the pixels
/// after it.
pub proof fn lemma_pixel_lines_in_order(pixels: Seq<(u8, u8, u8)>, k: int)
    requires
        0 <= k < pixels.len(),
    ensures
        pixel_lines(pixels) == pixel_lines(pixels.take(k)) + pixel_line(pixels[k]) + pixel_lines(
            pixels.skip(k + 1),
        ),
{
    let front = pixels.take(k).push(pixels[k]);
    assert(pixels == front + pixels.skip(k + 1));
    lemma_pixel_lines_append(front, pixels.skip(k + 1));
    assert(front.drop_last() == pixels.take(k));
}

/// The PPM text starts with `P3`, the width and the height in decimal, and
/// the largest channel value 255, each header line ended by a line break;
/// the pixels' lines follow.
pub proof fn lemma_ppm_header_reads_back(width: u32, height: u32, pixels: Seq<(u8, u8, u8)>)
    ensures
        exists|w: Seq<char>, h: Seq<char>|
            #![trigger digits_value(w), digits_value(h)]
            {
                &&& is_decimal_text(w) && digits_value(w) == width
                &&& is_decimal_text(h) && digits_value(h) == height
                &&& ppm_spec(width, height, pixels) == seq!['P', '3', '\n'] + w + seq![' '] + h
                    + seq!['\n', '2', '5', '5', '\n'] + pixel_lines(pixels)
            },
{
    lemma_decimal_reads_back(width as nat);
    lemma_decimal_reads_back(height as nat);
    let w = decimal(width as nat);
    let h = decimal(height as nat);
    assert(digits_value(w) == width && digits_value(h) == height);
}

/// Collects characters into a `String` with `String::from_iter`.
#[verifier::external_body]
fn string_from_chars(chars: &Vec<char>) -> (s: String)
    ensures
        s@ == chars@,
{
    String::from_iter(chars)
}

/// The plain PPM text of a `width` by `height` image whose pixels, row by
/// row, have the given red, green and blue values.
pub fn ppm_from_rgb(width: u32, height: u32, pixels: &Vec<(u8, u8, u8)>) -> (s: String)
    ensures
        s@ == ppm_spec(width, height, pixels@),
{
    let mut out: Vec<char> = Vec::new();
    out.push('P');
    out.push('3');
    out.push('\n');
    push_decimal(&mut out, width);
    out.push(' ');
    push_decimal(&mut out, height);
    out.push('\n');
    out.push('2');
    out.push('5');
    out.push('5');
    out.push('\n');
    let ghost header = out@;
    assert(header == ppm_spec(width, height, Seq::empty()));
    let mut i: usize = 0;
    assert(pixels@.subrange(0, 0) == Seq::<(u8, u8, u8)>::empty());
    while i < pixels.len()
        invariant
            i <= pixels@.len(),
            header == ppm_spec(width, height, Seq::empty()),
            out@ == header + pixel_lines(pixels@.subrange(0, i as int)),
        decreases pixels@.len() - i,
    {
        let (r, g, b) = pixels[i];
        let ghost before = out@;
        push_decimal(&mut out, r as u32);
        out.push(' ');
        push_decimal(&mut out, g as u32);
        out.push(' ');
        push_decimal(&mut out, b as u32);
        out.push('\n');
        proof {
            let next = pixels@.subrange(0, i + 1);
            assert(next.drop_last() == pixels@.subrange(0, i as int));
            assert(next.last() == (r, g, b));
            assert(out@ == before + pixel_line((r, g, b)));
        }
        i = i + 1;
    }
    assert(pixels@.subrange(0, pixels@.len() as int) == pixels@);
    string_from_chars(&out)
}

} // verus!
