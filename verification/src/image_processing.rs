//! The per-image record: a source path, an ordered list of crop boxes, and
//! the extraction of each box from the decoded pixels.
//!
//! Decoded images are held as plain data: a [`PixelBuffer`] of RGBA bytes in
//! row-major order, four bytes per pixel. Decoding a byte string is the one
//! step done by the `image` crate, behind a trusted wrapper; every crop is
//! computed and proved here, byte for byte.
//!
//! Extraction validates every crop box against the decoded dimensions before
//! cropping: a box that exceeds them fails the whole call with a
//! [`ValidationError`] naming the box's index, rather than clamping.

use vstd::prelude::*;

use crate::paths::file_name_of;

verus! {

/// An axis-aligned crop region in source-image pixel coordinates, origin at
/// the image's top-left corner.
#[derive(Clone, Copy, Debug, PartialEq, Eq, Structural)]
pub struct CropBox {
    pub x: u32,
    pub y: u32,
    pub height: u32,
    pub width: u32,
}

/// Does the crop region lie inside an image of the given dimensions?
pub open spec fn crop_box_within(cb: CropBox, width: u32, height: u32) -> bool {
    cb.x + cb.width <= width && cb.y + cb.height <= height
}

/// A decoded image as plain data: RGBA bytes in row-major order, four bytes
/// per pixel.
#[derive(Clone, Debug, PartialEq, Eq)]
pub struct PixelBuffer {
    pub width: u32,
    pub height: u32,
    pub pixels: Vec<u8>,
}

impl PixelBuffer {
    /// Well-formed: exactly four bytes for each of `width * height` pixels.
    pub open spec fn wf(self) -> bool {
        self.pixels@.len() == self.width as nat * self.height as nat * 4
    }
}

/// The bytes of one cropped row: columns `x ..= x + w - 1` of row `row` of
/// an image `img_width` pixels wide.
pub open spec fn row_bytes(pix: Seq<u8>, img_width: nat, row: nat, x: nat, w: nat) -> Seq<u8> {
    pix.subrange(((row * img_width + x) * 4) as int, ((row * img_width + x + w) * 4) as int)
}

/// The bytes of the cropped region with origin `(x, y)`, width `w` and
/// height `h`: its rows, top to bottom.
pub open spec fn crop_bytes(pix: Seq<u8>, img_width: nat, x: nat, y: nat, w: nat, h: nat) -> Seq<
    u8,
>
    decreases h,
{
    if h == 0 {
        Seq::empty()
    } else {
        crop_bytes(pix, img_width, x, y, w, (h - 1) as nat) + row_bytes(
            pix,
            img_width,
            (y + h - 1) as nat,
            x,
            w,
        )
    }
}

/// Is `out` exactly the crop of box `cb` out of an image with bytes `pix`
/// and width `img_width`?
pub open spec fn is_crop_of(out: PixelBuffer, pix: Seq<u8>, img_width: u32, cb: CropBox) -> bool {
    &&& out.width == cb.width
    &&& out.height == cb.height
    &&& out.wf()
    &&& out.pixels@ == crop_bytes(
        pix,
        img_width as nat,
        cb.x as nat,
        cb.y as nat,
        cb.width as nat,
        cb.height as nat,
    )
}

proof fn lemma_row_segment_in_bounds(
    img_width: nat,
    img_height: nat,
    x: nat,
    y: nat,
    w: nat,
    row: nat,
)
    requires
        x + w <= img_width,
        y + row < img_height,
    ensures
        ((y + row) * img_width + x) * 4 + w * 4 <= img_width * img_height * 4,
{
    assert(((y + row) * img_width + x) * 4 + w * 4 <= img_width * img_height * 4) by (nonlinear_arith)
        requires
            x + w <= img_width,
            y + row < img_height,
    ;
}

/// Copies the region of `cb` out of `buf`, row by row.
#[verifier::loop_isolation(false)]
pub fn crop_pixel_buffer(buf: &PixelBuffer, cb: &CropBox) -> (r: PixelBuffer)
    requires
        buf.wf(),
        crop_box_within(*cb, buf.width, buf.height),
    ensures
        is_crop_of(r, buf.pixels@, buf.width, *cb),
{
    let w = cb.width;
    let h = cb.height;
    let total = buf.pixels.len();
    let mut pixels: Vec<u8> = Vec::new();
    let mut row: u32 = 0;
    while row < h
        invariant
            0 <= row <= h,
            pixels@ == crop_bytes(
                buf.pixels@,
                buf.width as nat,
                cb.x as nat,
                cb.y as nat,
                w as nat,
                row as nat,
            ),
            pixels@.len() == row as nat * w as nat * 4,
        decreases h - row,
    {
        proof {
            lemma_row_segment_in_bounds(
                buf.width as nat,
                buf.height as nat,
                cb.x as nat,
                cb.y as nat,
                w as nat,
                row as nat,
            );
        }
        let start: usize = ((cb.y as usize + row as usize) * (buf.width as usize) + cb.x as usize)
            * 4;
        let row_len: usize = (w as usize) * 4;
        let ghost seg_base: int = (((cb.y + row) * buf.width + cb.x) * 4) as int;
        assert(start == seg_base);
        assert(start + row_len <= total);
        let mut c: usize = 0;
        while c < row_len
            invariant
                0 <= c <= row_len,
                pixels@ == crop_bytes(
                    buf.pixels@,
                    buf.width as nat,
                    cb.x as nat,
                    cb.y as nat,
                    w as nat,
                    row as nat,
                ) + buf.pixels@.subrange(start as int, start + c),
                pixels@.len() == row as nat * w as nat * 4 + c,
            decreases row_len - c,
        {
            let b = buf.pixels[start + c];
            pixels.push(b);
            proof {
                assert(buf.pixels@.subrange(start as int, start + c + 1) =~= buf.pixels@.subrange(
                    start as int,
                    start + c,
                ).push(b));
            }
            c = c + 1;
        }
        proof {
            assert(buf.pixels@.subrange(start as int, start + row_len) == row_bytes(
                buf.pixels@,
                buf.width as nat,
                (cb.y + row) as nat,
                cb.x as nat,
                w as nat,
            ));
            assert(pixels@ == crop_bytes(
                buf.pixels@,
                buf.width as nat,
                cb.x as nat,
                cb.y as nat,
                w as nat,
                (row + 1) as nat,
            ));
            assert(row as nat * w as nat * 4 + w as nat * 4 == (row + 1) as nat * w as nat * 4)
                by (nonlinear_arith);
        }
        row = row + 1;
    }
    proof {
        assert(h as nat * w as nat * 4 == w as nat * h as nat * 4) by (nonlinear_arith);
    }
    PixelBuffer { width: w, height: h, pixels }
}

proof fn lemma_full_crop_prefix(pix: Seq<u8>, img_width: nat, h: nat)
    requires
        img_width * h * 4 <= pix.len(),
    ensures
        crop_bytes(pix, img_width, 0, 0, img_width, h) == pix.subrange(0, (img_width * h * 4) as int),
    decreases h,
{
    if h == 0 {
        assert(img_width * h * 4 == 0) by (nonlinear_arith)
            requires h == 0,
        ;
        assert(crop_bytes(pix, img_width, 0, 0, img_width, h) =~= pix.subrange(0, 0));
    } else {
        assert(img_width * (h - 1) * 4 <= img_width * h * 4) by (nonlinear_arith)
            requires h >= 1,
        ;
        lemma_full_crop_prefix(pix, img_width, (h - 1) as nat);
        assert(((h - 1) * img_width + 0) * 4 == img_width * (h - 1) * 4) by (nonlinear_arith);
        assert(((h - 1) * img_width + 0 + img_width) * 4 == img_width * h * 4) by (nonlinear_arith);
        let m = (img_width * (h - 1) * 4) as int;
        let n = (img_width * h * 4) as int;
        let prev = crop_bytes(pix, img_width, 0, 0, img_width, (h - 1) as nat);
        let rb = row_bytes(pix, img_width, (h - 1) as nat, 0, img_width);
        assert(crop_bytes(pix, img_width, 0, 0, img_width, h) == prev + rb);
        assert(rb == pix.subrange(m, n));
        assert(prev + rb =~= pix.subrange(0, n));
    }
}

/// A file whose bytes could not be decoded as an image: the record's path
/// and the decoder's message.
#[derive(Clone, Debug, PartialEq, Eq)]
pub struct DecodeError {
    pub path: String,
    pub message: String,
}

/// A crop box that exceeds the decoded image's dimensions: the box's index
/// in insertion order, the box itself, and the actual dimensions.
#[derive(Clone, Copy, Debug, PartialEq, Eq, Structural)]
pub struct ValidationError {
    pub index: usize,
    pub crop_box: CropBox,
    pub image_width: u32,
    pub image_height: u32,
}

/// Why a batch extraction failed: the source did not decode, or one of the
/// crop boxes was out of bounds.
#[derive(Clone, Debug, PartialEq, Eq)]
pub enum CropError {
    Decode(DecodeError),
    Validation(ValidationError),
}

/// What decoding a byte string yields when it is a supported image
/// encoding: the image's width, height, and RGBA bytes, four per pixel in
/// row-major order; `None` when the bytes are no such encoding. Decoding
/// depends on the bytes alone.
pub uninterp spec fn decoded_image(bytes: Seq<u8>) -> Option<(u32, u32, Seq<u8>)>;

/// Relies on image::load_from_memory: decoding is a pure function of the
/// byte string, returning an image or an error; and on
/// image::DynamicImage::to_rgba8 with ImageBuffer::into_raw, which hand the
/// pixels out as exactly width * height * 4 RGBA bytes in row-major order.
#[verifier::external_body]
fn decode_rgba(bytes: &[u8]) -> (r: Result<(u32, u32, Vec<u8>), String>)
    ensures
        match r {
            Ok(t) => decoded_image(bytes@) == Some((t.0, t.1, t.2@)) && t.2@.len() == t.0 as nat
                * t.1 as nat * 4,
            Err(_) => decoded_image(bytes@) is None,
        },
{
    match image::load_from_memory(bytes) {
        Ok(img) => {
            let rgba = img.to_rgba8();
            let (w, h) = (rgba.width(), rgba.height());
            Ok((w, h, rgba.into_raw()))
        },
        Err(e) => Err(format!("{}", e)),
    }
}

/// The name shown for a path: its final component, or the literal `"None"`
/// when the path has no final component.
pub open spec fn display_name_of(path: Seq<char>) -> Seq<char> {
    if file_name_of(path).len() == 0 {
        "None"@
    } else {
        file_name_of(path)
    }
}

/// One source image: its filesystem path and the ordered crop boxes defined
/// on it. Boxes are only appended; their insertion order fixes the order of
/// the extracted buffers.
pub struct Image {
    path: String,
    crop_boxes: Vec<CropBox>,
}

impl Image {
    /// The record's path.
    pub closed spec fn spec_path(self) -> Seq<char> {
        self.path@
    }

    /// The record's crop boxes, in insertion order.
    pub closed spec fn spec_crop_boxes(self) -> Seq<CropBox> {
        self.crop_boxes@
    }

    /// A fresh record for the file at `path`, with no crop boxes yet.
    pub fn new(path: String) -> (r: Image)
        ensures
            r.spec_path() == path@,
            r.spec_crop_boxes() == Seq::<CropBox>::empty(),
    {
        let crop_boxes: Vec<CropBox> = vec![];
        Image { path, crop_boxes }
    }

    /// Appends `crop_box` after the boxes already defined.
    pub fn add_crop_box(&mut self, crop_box: CropBox)
        ensures
            final(self).spec_path() == old(self).spec_path(),
            final(self).spec_crop_boxes() == old(self).spec_crop_boxes().push(crop_box),
    {
        self.crop_boxes.push(crop_box);
    }

    /// The record's name for display: the path's final component, or the
    /// literal `"None"` when the path has none.
    pub fn get_image_name(&self) -> (r: String)
        ensures
            r@ == display_name_of(self.spec_path()),
    {
        let name = crate::paths::file_name_component(self.path.as_str());
        if name.as_str().unicode_len() == 0 {
            "None".to_owned()
        } else {
            name
        }
    }

    /// Decodes `bytes`, the contents of the file at this record's path,
    /// into a pixel buffer. Fails with a [`DecodeError`] carrying the path
    /// exactly when the bytes are no supported image encoding.
    pub fn get_image_data(&self, bytes: &[u8]) -> (r: Result<PixelBuffer, DecodeError>)
        ensures
            match r {
                Ok(buf) => decoded_image(bytes@) == Some((buf.width, buf.height, buf.pixels@))
                    && buf.wf(),
                Err(e) => decoded_image(bytes@) is None && e.path@ == self.spec_path(),
            },
    {
        match decode_rgba(bytes) {
            Ok((width, height, pixels)) => Ok(PixelBuffer { width, height, pixels }),
            Err(message) => Err(DecodeError { path: self.path.clone(), message }),
        }
    }

    /// Crops every box of this record out of an already decoded buffer, in
    /// insertion order: one output buffer per box, each exactly the box's
    /// region. If any box exceeds the buffer's dimensions, the first such
    /// box fails the whole call with a [`ValidationError`] naming its
    /// index, and no buffers are returned.
    #[verifier::loop_isolation(false)]
    pub fn crop_all_in_buffer(&self, buf: &PixelBuffer) -> (r: Result<
        Vec<PixelBuffer>,
        ValidationError,
    >)
        requires
            buf.wf(),
        ensures
            match r {
                Ok(crops) => {
                    &&& crops@.len() == self.spec_crop_boxes().len()
                    &&& forall|i: int|
                        0 <= i < crops@.len() ==> crop_box_within(
                            #[trigger] self.spec_crop_boxes()[i],
                            buf.width,
                            buf.height,
                        ) && is_crop_of(crops@[i], buf.pixels@, buf.width, self.spec_crop_boxes()[i])
                },
                Err(e) => {
                    &&& 0 <= e.index < self.spec_crop_boxes().len()
                    &&& e.crop_box == self.spec_crop_boxes()[e.index as int]
                    &&& !crop_box_within(e.crop_box, buf.width, buf.height)
                    &&& forall|j: int|
                        0 <= j < e.index ==> crop_box_within(
                            #[trigger] self.spec_crop_boxes()[j],
                            buf.width,
                            buf.height,
                        )
                    &&& e.image_width == buf.width
                    &&& e.image_height == buf.height
                },
            },
    {
        let mut crops: Vec<PixelBuffer> = Vec::new();
        let mut i: usize = 0;
        while i < self.crop_boxes.len()
            invariant
                0 <= i <= self.crop_boxes.len(),
                crops@.len() == i,
                forall|j: int|
                    0 <= j < i ==> crop_box_within(
                        #[trigger] self.crop_boxes@[j],
                        buf.width,
                        buf.height,
                    ) && is_crop_of(crops@[j], buf.pixels@, buf.width, self.crop_boxes@[j]),
            decreases self.crop_boxes.len() - i,
        {
            let cb = self.crop_boxes[i];
            let within = (cb.x as u64 + cb.width as u64 <= buf.width as u64) && (cb.y as u64
                + cb.height as u64 <= buf.height as u64);
            if !within {
                return Err(
                    ValidationError {
                        index: i,
                        crop_box: cb,
                        image_width: buf.width,
                        image_height: buf.height,
                    },
                );
            }
            let cropped = crop_pixel_buffer(buf, &cb);
            crops.push(cropped);
            i = i + 1;
        }
        Ok(crops)
    }

    /// Decodes `bytes` once and then crops every box in insertion order.
    /// Fails with [`CropError::Decode`] when the bytes do not decode, and
    /// with [`CropError::Validation`] naming the first out-of-bounds box
    /// when one exceeds the decoded dimensions; only then is no buffer
    /// returned.
    pub fn crop_all_boxes(&self, bytes: &[u8]) -> (r: Result<Vec<PixelBuffer>, CropError>)
        ensures
            match r {
                Ok(crops) => match decoded_image(bytes@) {
                    Some(t) => {
                        &&& crops@.len() == self.spec_crop_boxes().len()
                        &&& forall|i: int|
                            0 <= i < crops@.len() ==> crop_box_within(
                                #[trigger] self.spec_crop_boxes()[i],
                                t.0,
                                t.1,
                            ) && is_crop_of(crops@[i], t.2, t.0, self.spec_crop_boxes()[i])
                    },
                    None => false,
                },
                Err(CropError::Decode(e)) => decoded_image(bytes@) is None && e.path@
                    == self.spec_path(),
                Err(CropError::Validation(e)) => match decoded_image(bytes@) {
                    Some(t) => {
                        &&& 0 <= e.index < self.spec_crop_boxes().len()
                        &&& e.crop_box == self.spec_crop_boxes()[e.index as int]
                        &&& !crop_box_within(e.crop_box, t.0, t.1)
                        &&& forall|j: int|
                            0 <= j < e.index ==> crop_box_within(
                                #[trigger] self.spec_crop_boxes()[j],
                                t.0,
                                t.1,
                            )
                        &&& e.image_width == t.0
                        &&& e.image_height == t.1
                    },
                    None => false,
                },
            },
    {
        let buf = match self.get_image_data(bytes) {
            Ok(buf) => buf,
            Err(e) => {
                return Err(CropError::Decode(e));
            },
        };
        match self.crop_all_in_buffer(&buf) {
            Ok(crops) => Ok(crops),
            Err(e) => Err(CropError::Validation(e)),
        }
    }
}

/// Law: cropping the rectangle equal to the full image bounds yields bytes
/// identical to the decoded source's own: the crop of `(0, 0, width,
/// height)` out of a well-formed buffer is the buffer's byte string.
pub proof fn lemma_full_crop_is_identity(buf: PixelBuffer)
    requires
        buf.wf(),
        crop_box_within(
            CropBox { x: 0, y: 0, height: buf.height, width: buf.width },
            buf.width,
            buf.height,
        ),
    ensures
        crop_bytes(
            buf.pixels@,
            buf.width as nat,
            0,
            0,
            buf.width as nat,
            buf.height as nat,
        ) == buf.pixels@,
{
    lemma_full_crop_prefix(buf.pixels@, buf.width as nat, buf.height as nat);
    assert(buf.pixels@.subrange(0, (buf.width as nat * buf.height as nat * 4) as int)
        =~= buf.pixels@);
}

} // verus!
