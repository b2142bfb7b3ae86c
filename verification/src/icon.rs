//! The icon of the window.

use vstd::prelude::*;

verus! {

/// An image for an icon, as its picture data and its size.
pub struct IconImage {
    pub rgba: Vec<u8>,
    pub width: u32,
    pub height: u32,
}

/// How many bytes the picture data of a PNG takes, by `Reader::output_buffer_size` of png; none
/// where `Decoder::read_info` refuses the PNG for another reason than that this number is too
/// large for a `usize`.
pub uninterp spec fn png_size(data: Seq<u8>) -> Option<nat>;

/// `Decoder::read_info` of png and, on what it returns, `Reader::output_buffer_size`: both depend
/// on the data alone, but for the largest `usize`. Which data is a PNG is left unsaid.
#[verifier::external_body]
fn read_png_size(data: &[u8]) -> (r: Option<usize>)
    ensures
        match r {
            Some(n) => png_size(data@) == Some(n as nat),
            None => png_size(data@) is None || png_size(data@)->0 > usize::MAX,
        },
{
    png::Decoder::new(data).read_info().ok().map(|reader| reader.output_buffer_size())
}

/// The picture data of the first frame of a PNG, and the width and height in its header, by
/// `Reader::next_frame` and `Reader::info` of png; none where there is an error.
pub uninterp spec fn png_picture(data: Seq<u8>) -> Option<(Seq<u8>, u32, u32)>;

/// `Reader::next_frame` of png, into a buffer of the size that the reader asks for, and
/// `Reader::info`: the picture depends on the data alone, and takes as many bytes as the reader
/// asked for. What it shows is left unsaid. A buffer can have at most `isize::MAX` bytes.
#[verifier::external_body]
fn read_png_picture(data: &[u8]) -> (r: Option<(Vec<u8>, u32, u32)>)
    requires
        png_size(data@) is Some ==> png_size(data@)->0 <= isize::MAX,
    ensures
        match r {
            Some(p) => png_picture(data@) == Some((p.0@, p.1, p.2)) && png_size(data@) == Some(
                p.0@.len(),
            ),
            None => png_picture(data@) is None,
        },
{
    let mut reader = png::Decoder::new(data).read_info().ok()?;
    let mut buf = vec![0u8; reader.output_buffer_size()];
    reader.next_frame(&mut buf).ok()?;
    let info = reader.info();
    Some((buf, info.width, info.height))
}

/// An optional image as a mathematical value.
pub open spec fn opt_image(o: Option<IconImage>) -> Option<(Seq<u8>, u32, u32)> {
    match o {
        Some(i) => Some((i.rgba@, i.width, i.height)),
        None => None,
    }
}

/// Reads the icon of the window from a PNG whose picture fits into memory.
pub fn load_window_icon(data: &[u8]) -> (r: Option<IconImage>)
    requires
        png_size(data@) is Some ==> png_size(data@)->0 <= isize::MAX,
    ensures
        opt_image(r) == png_picture(data@),
        r is Some ==> png_size(data@) == Some(r->0.rgba@.len()),
{
    match read_png_picture(data) {
        Some(p) => Some(IconImage { rgba: p.0, width: p.1, height: p.2 }),
        None => None,
    }
}

/// Reads the icon of the window from a PNG; none where its picture does not fit into memory.
pub fn load_icon(data: &[u8]) -> (r: Option<IconImage>)
    ensures
        opt_image(r) == (match png_size(data@) {
            Some(n) => if n <= isize::MAX {
                png_picture(data@)
            } else {
                None
            },
            None => None,
        }),
{
    match read_png_size(data) {
        Some(n) => if n <= isize::MAX as usize {
            load_window_icon(data)
        } else {
            None
        },
        None => None,
    }
}

} // verus!
