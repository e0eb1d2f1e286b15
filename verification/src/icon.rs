use image::codecs::png::PngDecoder;
use image::ImageDecoder;
use std::io::Cursor;
use vstd::prelude::*;
use vstd::slice::{slice_subrange, slice_to_vec};

verus! {

/// The error of the image library.
#[verifier::external_type_specification]
#[verifier::external_body]
pub struct ExImageError(image::ImageError);

/// What the header of an image says.
#[derive(Debug, Clone, Copy, PartialEq, Eq, Structural)]
pub struct PngLayout {
    pub width: u32,
    pub height: u32,
    /// How many values a pixel has.
    pub channels: u8,
    /// How many bytes the pixels take.
    pub total_bytes: u64,
}

/// The width, the height, the channels and the size in bytes of the PNG image
/// in `png`; none where there is none that a machine of 64 bits can decode.
pub uninterp spec fn png_layout(png: Seq<u8>) -> Option<(u32, u32, u8, u64)>;

/// The pixels of the PNG image in `png`, values of two bytes with the most
/// significant one first; none where a machine of 64 bits cannot decode them.
pub uninterp spec fn png_pixels(png: Seq<u8>) -> Option<Seq<u8>>;

/// The layout as one value.
pub open spec fn layout_of(png: Seq<u8>) -> Option<PngLayout> {
    match png_layout(png) {
        Some((width, height, channels, total_bytes)) => Some(
            PngLayout { width, height, channels, total_bytes },
        ),
        None => None,
    }
}

/// Whether each value of a pixel is one byte.
pub open spec fn has_byte_channels(layout: PngLayout) -> bool {
    layout.total_bytes == layout.width * layout.height * layout.channels
}

/// `bytes` with each two of them swapped.
pub open spec fn pairs_swapped(bytes: Seq<u8>) -> Seq<u8> {
    Seq::new(
        bytes.len(),
        |i: int|
            if i % 2 == 0 {
                bytes[i + 1]
            } else {
                bytes[i - 1]
            },
    )
}

/// Whether `buffer` has these pixels: values of one byte as they are, values of
/// two bytes in either byte order.
pub open spec fn has_pixels(layout: PngLayout, buffer: Seq<u8>, pixels: Seq<u8>) -> bool {
    buffer == pixels || (!has_byte_channels(layout) && buffer == pairs_swapped(pixels))
}

/// An image as a window icon takes it.
#[derive(Debug)]
pub struct IconImage {
    pub rgba: Vec<u8>,
    pub width: u32,
    pub height: u32,
}

/// Why there is no icon.
#[derive(Debug)]
pub enum IconError {
    /// The image cannot be decoded.
    Png(image::ImageError),
    /// The pixels take more bytes than a buffer can have.
    TooLarge { total_bytes: u64 },
    /// The pixels can be decoded, but the palette ends within a colour.
    BrokenPalette,
}

/// The number in the four bytes from `at` on, the most significant first.
pub open spec fn be_u32(bytes: Seq<u8>, at: int) -> int {
    0x100_0000 * bytes[at] + 0x1_0000 * bytes[at + 1] + 0x100 * bytes[at + 2] + bytes[at + 3]
}

/// Whether the chunk that starts at `at` is of the type with these four letters.
pub open spec fn chunk_is(png: Seq<u8>, at: int, letters: Seq<u8>) -> bool {
    png.subrange(at + 4, at + 8) == letters
}

/// The letters `IDAT`: a chunk with pixels.
pub open spec fn idat() -> Seq<u8> {
    seq![73u8, 68, 65, 84]
}

/// The letters `PLTE`: a chunk with a palette, of three bytes for each colour.
pub open spec fn plte() -> Seq<u8> {
    seq![80u8, 76, 84, 69]
}

/// Where the first palette that ends within a colour is, in the chunks from `at`
/// on before the first one with pixels. A chunk is a length of four bytes, a
/// type of four letters, as many bytes as the length says, and a checksum of
/// four bytes.
pub open spec fn broken_palette(png: Seq<u8>, at: int) -> Option<int>
    decreases png.len() - at,
{
    if at < 0 || at + 8 > png.len() || chunk_is(png, at, idat()) || at + 12 + be_u32(png, at)
        > png.len() {
        None
    } else if chunk_is(png, at, plte()) && be_u32(png, at) % 3 != 0 {
        Some(at)
    } else {
        broken_palette(png, at + 12 + be_u32(png, at))
    }
}

/// Whether the header, which is the first chunk, says that pixels are indices of
/// a palette.
pub open spec fn is_indexed(png: Seq<u8>) -> bool {
    png.len() > 25 && png[25] == 3
}

/// Whether the palette has whole colours, where the pixels need one. The chunks
/// start behind a signature of eight bytes.
pub open spec fn palette_whole(png: Seq<u8>) -> bool {
    is_indexed(png) ==> broken_palette(png, 8) is None
}

/// A chunk with a palette of one colour, black.
pub open spec fn black_palette() -> Seq<u8> {
    seq![0u8, 0, 0, 3, 80, 76, 84, 69, 0, 0, 0, 167, 122, 61, 218]
}

/// The image with the palette of one colour in place of the broken one.
pub open spec fn repaired(png: Seq<u8>) -> Seq<u8> {
    match broken_palette(png, 8) {
        Some(at) => png.take(at) + black_palette() + png.skip(at + 12 + be_u32(png, at)),
        None => png,
    }
}

/// Whether there is no image, or one whose pixels cannot be decoded although
/// they fit and its palette is whole.
pub open spec fn undecodable(png: Seq<u8>) -> bool {
    match layout_of(png) {
        Some(layout) => {
            &&& layout.total_bytes <= isize::MAX
            &&& palette_whole(png)
            &&& png_pixels(png) is None
        },
        None => true,
    }
}

fn has_letters(png: &[u8], at: usize, a: u8, b: u8, c: u8, d: u8) -> (r: bool)
    requires
        at + 8 <= png@.len(),
    ensures
        r == chunk_is(png@, at as int, seq![a, b, c, d]),
{
    let n: usize = png.len();
    assert(at + 8 <= n);
    let r: bool = png[at + 4] == a && png[at + 5] == b && png[at + 6] == c && png[at + 7] == d;
    proof {
        let letters = png@.subrange(at + 4, at + 8);
        assert(letters[0] == png@[at + 4] && letters[1] == png@[at + 5] && letters[2] == png@[at
            + 6] && letters[3] == png@[at + 7]);
        if r {
            assert(letters =~= seq![a, b, c, d]);
        }
    }
    r
}

fn read_be(bytes: &[u8], at: usize) -> (n: u64)
    requires
        at + 4 <= bytes@.len(),
    ensures
        n == be_u32(bytes@, at as int),
        n < 0x1_0000_0000,
{
    let n: usize = bytes.len();
    assert(at + 4 <= n);
    0x100_0000 * bytes[at] as u64 + 0x1_0000 * bytes[at + 1] as u64 + 0x100 * bytes[at + 2] as u64
        + bytes[at + 3] as u64
}

/// Where the palette that the pixels need ends within a colour.
fn find_broken_palette(png: &[u8]) -> (r: Option<usize>)
    ensures
        match r {
            Some(at) => {
                &&& is_indexed(png@)
                &&& broken_palette(png@, 8) == Some(at as int)
                &&& at + 12 + be_u32(png@, at as int) <= png@.len()
            },
            None => palette_whole(png@),
        },
{
    let n: usize = png.len();
    if n <= 25 || png[25] != 3 {
        return None;
    }
    let mut at: usize = 8;
    while n - at >= 8
        invariant
            n == png@.len(),
            8 <= at <= n,
            is_indexed(png@),
            broken_palette(png@, 8) == broken_palette(png@, at as int),
        decreases n - at,
    {
        if has_letters(png, at, 73, 68, 65, 84) {
            return None;
        }
        let len: u64 = read_be(png, at);
        let left: usize = n - at;
        if left < 12 || len > (left - 12) as u64 {
            return None;
        }
        if has_letters(png, at, 80, 76, 84, 69) && len % 3 != 0 {
            return Some(at);
        }
        at = at + 12 + len as usize;
    }
    None
}

/// The image with the palette of one colour in place of the broken one at `at`.
fn repair_palette(png: &[u8], at: usize) -> (r: Vec<u8>)
    requires
        broken_palette(png@, 8) == Some(at as int),
        at + 12 + be_u32(png@, at as int) <= png@.len(),
    ensures
        r@ == repaired(png@),
{
    let n: usize = png.len();
    let palette: [u8; 15] = [0, 0, 0, 3, 80, 76, 84, 69, 0, 0, 0, 167, 122, 61, 218];
    let end: usize = at + 12 + read_be(png, at) as usize;
    let mut r: Vec<u8> = slice_to_vec(slice_subrange(png, 0, at));
    r.extend_from_slice(palette.as_slice());
    r.extend_from_slice(slice_subrange(png, end, n));
    assert(palette@ =~= black_palette());
    assert(r@ =~= repaired(png@));
    r
}

/// Whether addresses have 64 bits.
pub open spec fn is_wide() -> bool {
    usize::BITS == 64
}

/// `PngDecoder::new` on the bytes, with the `dimensions`, the `color_type` and
/// the `total_bytes` of the decoder: the bytes alone decide what the header
/// says, and on a machine of 64 bits whether there is one. A narrower machine
/// also refuses images that do not fit its addresses, and nothing is said of
/// which.
#[verifier::external_body]
fn read_layout(png: &[u8]) -> (r: Result<PngLayout, image::ImageError>)
    ensures
        match r {
            Ok(layout) => png_layout(png@) == Some(
                (layout.width, layout.height, layout.channels, layout.total_bytes),
            ),
            Err(_) => is_wide() ==> png_layout(png@) is None,
        },
{
    let decoder = PngDecoder::new(Cursor::new(png))?;
    let (width, height) = decoder.dimensions();
    let channels = decoder.color_type().channel_count();
    Ok(PngLayout { width, height, channels, total_bytes: decoder.total_bytes() })
}

/// `PngDecoder::new` on the bytes and `read_image` into a buffer of the size
/// that the layout has: on a machine of 64 bits the bytes alone decide whether
/// the pixels can be decoded, and on any machine what they are. Values of two
/// bytes are in the byte order of the machine, and which one that is, is not
/// said. The decoder takes a palette apart three bytes at a time, and panics
/// where fewer are left.
#[verifier::external_body]
fn read_pixels(png: &[u8], buffer: &mut Vec<u8>) -> (r: Result<(), image::ImageError>)
    requires
        layout_of(png@) matches Some(layout) && layout.total_bytes == old(buffer)@.len(),
        palette_whole(png@),
    ensures
        final(buffer)@.len() == old(buffer)@.len(),
        r is Ok ==> {
            &&& png_pixels(png@) matches Some(pixels)
            &&& has_pixels(layout_of(png@)->0, final(buffer)@, pixels)
        },
        r is Err && is_wide() ==> png_pixels(png@) is None,
{
    PngDecoder::new(Cursor::new(png))?.read_image(buffer)
}

/// Decodes the pixels of an image whose layout is known.
pub fn read_icon(png: &[u8], layout: PngLayout) -> (r: Result<IconImage, IconError>)
    requires
        layout_of(png@) == Some(layout),
        layout.total_bytes <= isize::MAX,
        palette_whole(png@),
    ensures
        match r {
            Ok(icon) => {
                &&& icon.width == layout.width
                &&& icon.height == layout.height
                &&& icon.rgba@.len() == layout.total_bytes
                &&& png_pixels(png@) matches Some(pixels)
                &&& has_pixels(layout, icon.rgba@, pixels)
            },
            Err(IconError::Png(_)) => is_wide() ==> png_pixels(png@) is None,
            Err(_) => false,
        },
{
    let mut rgba: Vec<u8> = vec![0u8; layout.total_bytes as usize];
    match read_pixels(png, &mut rgba) {
        Ok(()) => Ok(IconImage { rgba, width: layout.width, height: layout.height }),
        Err(err) => Err(IconError::Png(err)),
    }
}

/// The error with which an image cannot be decoded.
fn try_pixels(png: &[u8]) -> (r: Result<(), image::ImageError>)
    ensures
        r is Ok ==> !undecodable(png@),
        r is Err && is_wide() ==> undecodable(png@),
{
    let layout: PngLayout = read_layout(png)?;
    if layout.total_bytes > isize::MAX as u64 || find_broken_palette(png).is_some() {
        return Ok(());
    }
    let mut buffer: Vec<u8> = vec![0u8; layout.total_bytes as usize];
    read_pixels(png, &mut buffer)
}

/// Decodes the image of the window icon. The decoder comes to the palette only
/// after pixels, so an image whose pixels cannot be decoded is refused for that
/// even where its palette is broken too.
pub fn load_window_icon(png: &[u8]) -> (r: Result<IconImage, IconError>)
    ensures
        match r {
            Ok(icon) => {
                &&& layout_of(png@) matches Some(layout)
                &&& layout.total_bytes <= isize::MAX
                &&& palette_whole(png@)
                &&& icon.width == layout.width
                &&& icon.height == layout.height
                &&& icon.rgba@.len() == layout.total_bytes
                &&& png_pixels(png@) matches Some(pixels)
                &&& has_pixels(layout, icon.rgba@, pixels)
            },
            Err(IconError::TooLarge { total_bytes }) => {
                &&& layout_of(png@) matches Some(layout)
                &&& total_bytes == layout.total_bytes
                &&& total_bytes > isize::MAX
            },
            Err(IconError::BrokenPalette) => {
                &&& layout_of(png@) matches Some(layout)
                &&& layout.total_bytes <= isize::MAX
                &&& !palette_whole(png@)
                &&& !undecodable(repaired(png@))
            },
            Err(IconError::Png(_)) => is_wide() ==> match layout_of(png@) {
                Some(layout) => {
                    &&& layout.total_bytes <= isize::MAX
                    &&& undecodable(
                        if palette_whole(png@) {
                            png@
                        } else {
                            repaired(png@)
                        },
                    )
                },
                None => true,
            },
        },
{
    let layout: PngLayout = match read_layout(png) {
        Ok(layout) => layout,
        Err(err) => return Err(IconError::Png(err)),
    };
    if layout.total_bytes > isize::MAX as u64 {
        return Err(IconError::TooLarge { total_bytes: layout.total_bytes });
    }
    if let Some(at) = find_broken_palette(png) {
        return match try_pixels(repair_palette(png, at).as_slice()) {
            Ok(()) => Err(IconError::BrokenPalette),
            Err(err) => Err(IconError::Png(err)),
        };
    }
    read_icon(png, layout)
}

/// Where the chunks of an image start: the first one behind the signature, and
/// each one behind the one before it, which is complete and has no pixels.
pub open spec fn are_chunks(png: Seq<u8>, starts: Seq<int>) -> bool {
    &&& starts.len() > 0
    &&& starts[0] == 8
    &&& forall|k: int|
        0 <= k < starts.len() - 1 ==> {
            let at = #[trigger] starts[k];
            &&& at + 12 <= png.len()
            &&& png.subrange(at + 4, at + 8) != seq![73u8, 68, 65, 84]
            &&& starts[k + 1] == at + 12 + be_u32(png, at)
            &&& starts[k + 1] <= png.len()
        }
}

/// Whether a palette that ends within a colour starts at `at`.
pub open spec fn breaks_at(png: Seq<u8>, at: int) -> bool {
    &&& at + 12 + be_u32(png, at) <= png.len()
    &&& png.subrange(at + 4, at + 8) == seq![80u8, 76, 84, 69]
    &&& be_u32(png, at) % 3 != 0
}

proof fn lemma_chunks(png: Seq<u8>, starts: Seq<int>)
    requires
        are_chunks(png, starts),
        forall|k: int| 0 <= k < starts.len() - 1 ==> !breaks_at(png, #[trigger] starts[k]),
    ensures
        starts.last() >= 8,
        broken_palette(png, 8) == broken_palette(png, starts.last()),
    decreases starts.len(),
{
    if starts.len() > 1 {
        let init = starts.drop_last();
        assert forall|k: int| 0 <= k < init.len() - 1 implies {
            let at = #[trigger] init[k];
            &&& at + 12 <= png.len()
            &&& png.subrange(at + 4, at + 8) != seq![73u8, 68, 65, 84]
            &&& init[k + 1] == at + 12 + be_u32(png, at)
            &&& init[k + 1] <= png.len()
        } by {
            assert(starts[k] == init[k]);
            assert(starts[k + 1] == init[k + 1]);
        }
        assert forall|k: int| 0 <= k < init.len() - 1 implies !breaks_at(
            png,
            #[trigger] init[k],
        ) by {
            assert(starts[k] == init[k]);
        }
        lemma_chunks(png, init);
        let k = starts.len() - 2;
        assert(!breaks_at(png, starts[k]));
        assert(starts[k + 1] == starts[k] + 12 + be_u32(png, starts[k]));
        assert(init.last() == starts[k]);
    }
}

/// A palette that ends within a colour, before any pixels, is found in an image
/// whose pixels need one.
pub proof fn a_broken_palette_is_found(png: Seq<u8>, starts: Seq<int>)
    requires
        png.len() > 25,
        png[25] == 3,
        are_chunks(png, starts),
        forall|k: int| 0 <= k < starts.len() - 1 ==> !breaks_at(png, #[trigger] starts[k]),
        breaks_at(png, starts.last()),
    ensures
        !palette_whole(png),
        broken_palette(png, 8) == Some(starts.last()),
{
    lemma_chunks(png, starts);
    let letters = png.subrange(starts.last() + 4, starts.last() + 8);
    assert(letters[0] == 80);
    assert(idat()[0] == 73);
}

/// No palette is broken where the pixels need none, or where each one before the
/// pixels has whole colours.
pub proof fn whole_palettes_are_whole(png: Seq<u8>, starts: Seq<int>)
    requires
        (png.len() <= 25 || png[25] != 3) || {
            &&& are_chunks(png, starts)
            &&& forall|k: int| 0 <= k < starts.len() - 1 ==> !breaks_at(png, #[trigger] starts[k])
            &&& starts.last() + 8 <= png.len()
            &&& png.subrange(starts.last() + 4, starts.last() + 8) == seq![73u8, 68, 65, 84]
        },
    ensures
        palette_whole(png),
{
    if png.len() > 25 && png[25] == 3 {
        lemma_chunks(png, starts);
    }
}

/// A length is read from its most significant byte on.
pub proof fn lengths_go_from_the_most_significant_byte_on(a: u8, b: u8, c: u8, d: u8)
    ensures
        be_u32(seq![a, b, c, d], 0) == 256 * (256 * (256 * a + b) + c) + d,
{
}

/// An image that is tried without its palette has one black colour in place of
/// it, and is the same before and behind that.
pub proof fn only_the_palette_is_replaced(png: Seq<u8>, at: int)
    requires
        broken_palette(png, 8) == Some(at),
        0 <= at,
        at + 12 + be_u32(png, at) <= png.len(),
    ensures
        repaired(png).take(at) == png.take(at),
        repaired(png).subrange(at, at + 15) == seq![
            0u8,
            0,
            0,
            3,
            80,
            76,
            84,
            69,
            0,
            0,
            0,
            167,
            122,
            61,
            218,
        ],
        repaired(png).skip(at + 15) == png.skip(at + 12 + be_u32(png, at)),
{
    assert(repaired(png).take(at) =~= png.take(at));
    assert(repaired(png).subrange(at, at + 15) =~= black_palette());
    assert(repaired(png).skip(at + 15) =~= png.skip(at + 12 + be_u32(png, at)));
}

/// Values of one byte are as they are decoded; of two bytes, each is there with
/// its bytes in one order or the other, the same for all.
pub proof fn pixels_keep_their_values(layout: PngLayout, buffer: Seq<u8>, pixels: Seq<u8>)
    requires
        has_pixels(layout, buffer, pixels),
        pixels.len() % 2 == 0,
    ensures
        buffer.len() == pixels.len(),
        layout.total_bytes == layout.width * layout.height * layout.channels ==> buffer == pixels,
        (forall|i: int| 0 <= i < pixels.len() ==> #[trigger] buffer[i] == pixels[i]) || (forall|
            i: int,
        |
            0 <= i < pixels.len() / 2 ==> #[trigger] buffer[2 * i] == pixels[2 * i + 1]
                && buffer[2 * i + 1] == pixels[2 * i]),
{
    if buffer != pixels {
        assert forall|i: int| 0 <= i < pixels.len() / 2 implies #[trigger] buffer[2 * i]
            == pixels[2 * i + 1] && buffer[2 * i + 1] == pixels[2 * i] by {
            assert((2 * i) % 2 == 0);
            assert((2 * i + 1) % 2 == 1);
        }
    }
}

/// A layout has what the decoder says, each in its place.
pub proof fn a_layout_has_what_the_decoder_says(png: Seq<u8>)
    ensures
        match png_layout(png) {
            Some((width, height, channels, total_bytes)) => layout_of(png) == Some(
                PngLayout { width, height, channels, total_bytes },
            ),
            None => layout_of(png) is None,
        },
{
}

/// What cannot be decoded has no layout, or no pixels that fit a buffer and have
/// a whole palette.
pub proof fn what_cannot_be_decoded(png: Seq<u8>)
    ensures
        undecodable(png) <==> png_layout(png) is None || ((png_layout(png)->0).3 <= isize::MAX
            && palette_whole(png) && png_pixels(png) is None),
        is_wide() <==> usize::BITS == 64,
{
}

} // verus!
