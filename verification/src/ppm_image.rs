//! A pixel buffer and its serialisation as a portable pixmap.

use vstd::prelude::*;

verus! {

/// The two flavours of the portable pixmap format.
#[derive(Copy, Clone, Debug, PartialEq, Eq, Structural)]
pub enum PpmImageType {
    RawPpm,
    PlainPpm,
}

/// One pixel: red, green and blue, each from 0 to 255.
pub type Pixel = (u8, u8, u8);

/// The mathematical content of a [`PpmImage`].
pub struct PpmImageView {
    pub width: nat,
    pub height: nat,
    pub image_type: PpmImageType,
    /// Row-major, `width * height` entries.
    pub pixels: Seq<Pixel>,
}

/// An image of `width` by `height` pixels, stored row after row.
pub struct PpmImage {
    width: usize,
    height: usize,
    image_type: PpmImageType,
    pixels: Vec<Pixel>,
}

impl View for PpmImage {
    type V = PpmImageView;

    closed spec fn view(&self) -> PpmImageView {
        PpmImageView {
            width: self.width as nat,
            height: self.height as nat,
            image_type: self.image_type,
            pixels: self.pixels@,
        }
    }
}

/// The two characters that open a file of the given flavour.
pub open spec fn magic_text(ppm_type: PpmImageType) -> Seq<char> {
    match ppm_type {
        PpmImageType::RawPpm => seq!['P', '6'],
        PpmImageType::PlainPpm => seq!['P', '3'],
    }
}

/// The magic number that identifies a pixmap flavour: `P6` for the raw one,
/// `P3` for the plain one.
pub fn magic_number(ppm_type: PpmImageType) -> (magic: &'static str)
    ensures
        magic@ == magic_text(ppm_type),
{
    match ppm_type {
        PpmImageType::RawPpm => {
            proof {
                reveal_strlit("P6");
            }
            "P6"
        },
        PpmImageType::PlainPpm => {
            proof {
                reveal_strlit("P3");
            }
            "P3"
        },
    }
}

/// The decimal digits of `n` as ASCII bytes, most significant first, without
/// leading zeros; `0` is the single digit `0`.
pub open spec fn decimal(n: nat) -> Seq<u8>
    decreases n,
{
    if n < 10 {
        seq![(48 + n) as u8]
    } else {
        decimal(n / 10).push((48 + n % 10) as u8)
    }
}

/// The number that a row of decimal digits stands for.
pub open spec fn decimal_value(digits: Seq<u8>) -> nat
    decreases digits.len(),
{
    if digits.len() == 0 {
        0
    } else {
        decimal_value(digits.drop_last()) * 10 + (digits.last() - 48) as nat
    }
}

/// The decimal form of a number is a row of digits that reads back as that
/// number, and it starts with a zero only where the number is zero.
pub proof fn lemma_decimal_reads_back(n: nat)
    ensures
        decimal(n).len() >= 1,
        forall|i: int| 0 <= i < decimal(n).len() ==> 48 <= #[trigger] decimal(n)[i] <= 57,
        decimal(n)[0] == 48 <==> n == 0,
        decimal_value(decimal(n)) == n,
    decreases n,
{
    if n < 10 {
        assert(decimal_value(decimal(n).drop_last()) == 0);
    } else {
        lemma_decimal_reads_back(n / 10);
        assert(decimal(n).drop_last() =~= decimal(n / 10));
    }
}

/// The bytes of a text made of ASCII characters.
pub open spec fn ascii_bytes(text: Seq<char>) -> Seq<u8> {
    Seq::new(text.len(), |i: int| text[i] as u8)
}

/// The header of a pixmap file: the magic number, the width and the height
/// separated by a space, and the largest channel value, `255`, each on a line
/// of its own.
pub open spec fn header_text(ppm_type: PpmImageType, width: nat, height: nat) -> Seq<u8> {
    ascii_bytes(magic_text(ppm_type)) + seq![10u8] + decimal(width) + seq![32u8] + decimal(height)
        + seq![10u8] + decimal(255) + seq![10u8]
}

/// One line of the body of a plain pixmap: the three channels in decimal,
/// separated by single spaces, and a line feed.
pub open spec fn pixel_text(pixel: Pixel) -> Seq<u8> {
    decimal(pixel.0 as nat) + seq![32u8] + decimal(pixel.1 as nat) + seq![32u8] + decimal(
        pixel.2 as nat,
    ) + seq![10u8]
}

/// The body of a plain pixmap: the lines of all pixels, in buffer order.
pub open spec fn body_text(pixels: Seq<Pixel>) -> Seq<u8>
    decreases pixels.len(),
{
    if pixels.len() == 0 {
        Seq::empty()
    } else {
        body_text(pixels.drop_last()) + pixel_text(pixels.last())
    }
}

/// The whole file for an image: header, then body.
pub open spec fn ppm_text(image: PpmImageView) -> Seq<u8> {
    header_text(image.image_type, image.width, image.height) + body_text(image.pixels)
}

/// Appends the decimal digits of `n` to `out`.
fn push_decimal(out: &mut Vec<u8>, n: usize)
    ensures
        final(out)@ == old(out)@ + decimal(n as nat),
    decreases n,
{
    if n >= 10 {
        push_decimal(out, n / 10);
    }
    let digit: u8 = (n % 10) as u8;
    out.push(48u8 + digit);
}

/// Appends the bytes of an ASCII text to `out`.
fn push_ascii(out: &mut Vec<u8>, text: &str)
    requires
        text.is_ascii(),
    ensures
        final(out)@ == old(out)@ + ascii_bytes(text@),
{
    broadcast use vstd::string::is_ascii_spec_bytes;

    let bytes = text.as_bytes();
    let mut i: usize = 0;
    while i < bytes.len()
        invariant
            i <= bytes@.len(),
            bytes@ == ascii_bytes(text@),
            out@ == old(out)@ + bytes@.take(i as int),
        decreases bytes@.len() - i,
    {
        out.push(bytes[i]);
        i = i + 1;
    }
}

/// Appends the line of one pixel to `out`.
fn push_pixel(out: &mut Vec<u8>, pixel: Pixel)
    ensures
        final(out)@ == old(out)@ + pixel_text(pixel),
{
    push_decimal(out, pixel.0 as usize);
    out.push(32u8);
    push_decimal(out, pixel.1 as usize);
    out.push(32u8);
    push_decimal(out, pixel.2 as usize);
    out.push(10u8);
}

/// The header of a pixmap file of the given flavour and size.
pub fn encode_header(ppm_type: PpmImageType, width: usize, height: usize) -> (bytes: Vec<u8>)
    ensures
        bytes@ == header_text(ppm_type, width as nat, height as nat),
{
    let mut bytes: Vec<u8> = Vec::new();
    push_ascii(&mut bytes, magic_number(ppm_type));
    bytes.push(10u8);
    push_decimal(&mut bytes, width);
    bytes.push(32u8);
    push_decimal(&mut bytes, height);
    bytes.push(10u8);
    push_decimal(&mut bytes, 255);
    bytes.push(10u8);
    bytes
}

/// The line of one pixel in the body of a plain pixmap.
pub fn encode_pixel(pixel: Pixel) -> (bytes: Vec<u8>)
    ensures
        bytes@ == pixel_text(pixel),
{
    let mut bytes: Vec<u8> = Vec::new();
    push_pixel(&mut bytes, pixel);
    bytes
}

impl PpmImage {
    /// Every image is plain, and holds exactly one pixel per position.
    #[verifier::type_invariant]
    spec fn well_formed(self) -> bool {
        &&& self.image_type == PpmImageType::PlainPpm
        &&& self.pixels@.len() == self.width * self.height
    }

    /// A black image of the given size. Only the plain flavour is supported.
    pub fn new(width: usize, height: usize, image_type: PpmImageType) -> (image: Self)
        requires
            image_type == PpmImageType::PlainPpm,
            width * height <= usize::MAX,
        ensures
            image@.width == width,
            image@.height == height,
            image@.image_type == image_type,
            image@.pixels == Seq::new((width * height) as nat, |i: int| (0u8, 0u8, 0u8)),
    {
        let count: usize = width * height;
        let mut pixels: Vec<Pixel> = Vec::new();
        let mut filled: usize = 0;
        while filled < count
            invariant
                filled <= count,
                pixels@ == Seq::new(filled as nat, |i: int| (0u8, 0u8, 0u8)),
            decreases count - filled,
        {
            pixels.push((0u8, 0u8, 0u8));
            filled = filled + 1;
        }
        PpmImage { width, height, image_type, pixels }
    }

    /// Replaces the pixel at position `idx` of the row-major buffer.
    pub fn set_value(&mut self, idx: usize, color: Pixel)
        requires
            idx < old(self)@.pixels.len(),
        ensures
            final(self)@ == (PpmImageView {
                pixels: old(self)@.pixels.update(idx as int, color),
                ..old(self)@
            }),
    {
        proof {
            use_type_invariant(&*self);
        }
        self.pixels[idx] = color;
    }

    /// The number of pixels in a row.
    pub fn width(&self) -> (w: usize)
        ensures
            w == self@.width,
    {
        self.width
    }

    /// The number of rows.
    pub fn height(&self) -> (h: usize)
        ensures
            h == self@.height,
    {
        self.height
    }

    /// The flavour of the image, which is always the plain one.
    pub fn image_type(&self) -> (ppm_type: PpmImageType)
        ensures
            ppm_type == self@.image_type,
            ppm_type == PpmImageType::PlainPpm,
    {
        proof {
            use_type_invariant(self);
        }
        self.image_type
    }

    /// The pixels, row after row.
    pub fn pixels(&self) -> (pixels: &Vec<Pixel>)
        ensures
            pixels@ == self@.pixels,
            pixels@.len() == self@.width * self@.height,
    {
        proof {
            use_type_invariant(self);
        }
        &self.pixels
    }

    /// Stores the finished values of a render, which come in buffer order: the
    /// pixel at each position becomes what `tone` makes of the value for it.
    /// Pixels beyond the values stay as they are.
    pub fn write_colors<T, F: FnMut(T) -> Pixel>(&mut self, values: Vec<T>, tone: F)
        requires
            values@.len() <= old(self)@.pixels.len(),
            forall|value: T| call_requires(tone, (value,)),
        ensures
            final(self)@.width == old(self)@.width,
            final(self)@.height == old(self)@.height,
            final(self)@.image_type == old(self)@.image_type,
            final(self)@.pixels.len() == old(self)@.pixels.len(),
            forall|idx: int|
                0 <= idx < values@.len() ==> call_ensures(
                    tone,
                    (values@[idx],),
                    #[trigger] final(self)@.pixels[idx],
                ),
            forall|idx: int|
                values@.len() <= idx < old(self)@.pixels.len()
                    ==> #[trigger] final(self)@.pixels[idx] == old(self)@.pixels[idx],
    {
        let mut toner = tone;
        let count = values.len();
        let mut idx: usize = 0;
        for value in it: values.into_iter()
            invariant
                toner == tone,
                values@.len() == count,
                forall|value: T| call_requires(tone, (value,)),
                it.seq() == values@,
                idx == it.index(),
                values@.len() <= old(self)@.pixels.len(),
                self@.width == old(self)@.width,
                self@.height == old(self)@.height,
                self@.image_type == old(self)@.image_type,
                self@.pixels.len() == old(self)@.pixels.len(),
                forall|k: int|
                    0 <= k < idx ==> call_ensures(tone, (values@[k],), #[trigger] self@.pixels[k]),
                forall|k: int|
                    idx <= k < old(self)@.pixels.len()
                        ==> #[trigger] self@.pixels[k] == old(self)@.pixels[k],
        {
            assert(idx < values@.len());
            let pixel = toner(value);
            self.set_value(idx, pixel);
            idx = idx + 1;
        }
    }

    /// The bytes of the pixmap file for this image: the header, then one line
    /// per pixel in buffer order.
    pub fn encode(&self) -> (bytes: Vec<u8>)
        ensures
            bytes@ == ppm_text(self@),
    {
        let mut bytes = encode_header(self.image_type, self.width, self.height);
        let ghost header = bytes@;
        let mut i: usize = 0;
        while i < self.pixels.len()
            invariant
                i <= self.pixels@.len(),
                header == header_text(self@.image_type, self@.width, self@.height),
                bytes@ == header + body_text(self.pixels@.take(i as int)),
            decreases self.pixels@.len() - i,
        {
            assert(self.pixels@.take(i + 1).drop_last() =~= self.pixels@.take(i as int));
            push_pixel(&mut bytes, self.pixels[i]);
            i = i + 1;
        }
        assert(self.pixels@.take(i as int) =~= self.pixels@);
        bytes
    }
}

} // verus!
