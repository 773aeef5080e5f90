use vstd::prelude::*;

use crate::channel::{acked, send_ack, ChannelMessage};
use crate::text::{decimal, push_wide_decimal};

verus! {

/// Pixel layout of image data sent by the server.
#[derive(PartialEq, Eq, Structural, Clone, Copy, Debug)]
pub enum ImageType {
    Color,
    ColorAlpha,
    Gray,
    GrayAlpha,
}

impl ImageType {
    pub open spec fn spec_bytes_per_pixel(self) -> nat {
        match self {
            ImageType::Color => 3,
            ImageType::ColorAlpha => 4,
            ImageType::Gray => 1,
            ImageType::GrayAlpha => 2,
        }
    }

    /// Bytes of one pixel in this layout.
    pub fn bytes_per_pixel(&self) -> (n: usize)
        ensures
            n == self.spec_bytes_per_pixel(),
    {
        match self {
            ImageType::Color => 3,
            ImageType::ColorAlpha => 4,
            ImageType::Gray => 1,
            ImageType::GrayAlpha => 2,
        }
    }
}

/// A whole-image transfer, possibly split into batches of pixels.
#[derive(Clone, Copy, Debug)]
pub enum ImageSetMessage {
    /// the whole image of this size
    All([u32; 2]),
    /// image size and the pixel count of the first batch
    Start([u32; 2], u32),
    /// pixel count of a middle batch
    Batch(u32),
    /// pixel count of the last batch
    End(u32),
}

/// An image message for the client.
#[derive(Clone, Copy, Debug)]
pub enum ImageMessage {
    SetImage(ImageSetMessage, ImageType),
    /// rectangle (x, y, width, height) to overwrite
    Update([u32; 4], ImageType),
    /// size and colour to fill the image with
    Fill([u32; 2], [u8; 4]),
}

impl ImageMessage {
    /// The messages that complete an image change; these are the ones that
    /// are acknowledged.
    pub open spec fn spec_requires_ack(self) -> bool {
        match self {
            ImageMessage::SetImage(s, _) => s is All || s is End,
            ImageMessage::Update(..) => true,
            ImageMessage::Fill(..) => true,
        }
    }

    /// Returns whether the message completes an image change.
    pub fn requires_ack(&self) -> (res: bool)
        ensures
            res == self.spec_requires_ack(),
    {
        match self {
            ImageMessage::SetImage(ImageSetMessage::All(..), _) | ImageMessage::SetImage(ImageSetMessage::End(..), _) => true,
            ImageMessage::SetImage(..) => false,
            ImageMessage::Update(..) | ImageMessage::Fill(..) => true,
        }
    }
}

/// Byte `c` (0 red, 1 green, 2 blue, 3 alpha) of pixel `p` of `data` in
/// layout `t`, as RGBA: grey is spread over the colour channels and a missing
/// alpha is opaque.
pub open spec fn pixel_byte(t: ImageType, data: Seq<u8>, p: int, c: int) -> u8 {
    match t {
        ImageType::Color => if c < 3 {
            data[p * 3 + c]
        } else {
            255
        },
        ImageType::ColorAlpha => data[p * 4 + c],
        ImageType::Gray => if c < 3 {
            data[p]
        } else {
            255
        },
        ImageType::GrayAlpha => if c < 3 {
            data[p * 2]
        } else {
            data[p * 2 + 1]
        },
    }
}

/// The RGBA bytes of the first `n` pixels of `data` in layout `t`.
pub open spec fn to_rgba(t: ImageType, data: Seq<u8>, n: nat) -> Seq<u8> {
    Seq::new(4 * n, |j: int| pixel_byte(t, data, j / 4, j % 4))
}

/// Pixels are converted one by one from their own bytes, `bpp` of them per
/// pixel: the colour channels come from the pixel's colour bytes in order
/// (a grey pixel gives its one grey byte to all three), and the alpha
/// channel from the pixel's last byte in the layouts that carry one (an
/// even number of bytes per pixel) and is opaque (255) in the others.
/// Raw RGBA data is kept as it is.
pub proof fn lemma_pixels_from_own_bytes(t: ImageType, data: Seq<u8>, n: nat)
    requires
        n * t.spec_bytes_per_pixel() <= data.len(),
    ensures
        ({
            let bpp = t.spec_bytes_per_pixel() as int;
            let rgba = to_rgba(t, data, n);
            &&& rgba.len() == 4 * n
            &&& forall|p: int, c: int|
                0 <= p < n && 0 <= c < 3 ==> #[trigger] rgba[4 * p + c] == data[p * bpp + if bpp < 3 {
                    0
                } else {
                    c
                }]
            &&& forall|p: int|
                0 <= p < n ==> #[trigger] rgba[4 * p + 3] == if bpp % 2 == 0 {
                    data[p * bpp + bpp - 1]
                } else {
                    255
                }
            &&& t is ColorAlpha ==> rgba == data.subrange(0, 4 * n as int)
        }),
{
    let bpp = t.spec_bytes_per_pixel() as int;
    let rgba = to_rgba(t, data, n);
    assert forall|p: int, c: int|
        0 <= p < n && 0 <= c < 3 implies #[trigger] rgba[4 * p + c] == data[p * bpp + if bpp < 3 {
            0
        } else {
            c
        }] by {
        vstd::arithmetic::div_mod::lemma_fundamental_div_mod_converse(4 * p + c, 4, p, c);
        assert(4 * p + c < 4 * n);
    }
    assert forall|p: int|
        0 <= p < n implies #[trigger] rgba[4 * p + 3] == if bpp % 2 == 0 {
            data[p * bpp + bpp - 1]
        } else {
            255
        } by {
        vstd::arithmetic::div_mod::lemma_fundamental_div_mod_converse(4 * p + 3, 4, p, 3);
        assert(4 * p + 3 < 4 * n);
    }
    if t is ColorAlpha {
        assert forall|j: int| 0 <= j < 4 * n implies rgba[j] == data[j] by {
            vstd::arithmetic::div_mod::lemma_fundamental_div_mod(j, 4);
        }
        assert(rgba =~= data.subrange(0, 4 * n as int));
    }
}

/// Converts `pixels` pixels of `data` to RGBA bytes.
pub fn convert_pixels(t: ImageType, data: &[u8], pixels: usize) -> (res: Vec<u8>)
    requires
        pixels * t.spec_bytes_per_pixel() <= data@.len(),
    ensures
        res@ == to_rgba(t, data@, pixels as nat),
{
    let len = data.len();
    let mut res: Vec<u8> = Vec::new();
    let mut i: usize = 0;
    while i < pixels
        invariant
            i <= pixels,
            data@.len() == len,
            pixels * t.spec_bytes_per_pixel() <= data@.len(),
            res@ =~= to_rgba(t, data@, i as nat),
        decreases pixels - i,
    {
        let ghost before = res@;
        let (r, g, b, a) = match t {
            ImageType::Color => (data[i * 3], data[i * 3 + 1], data[i * 3 + 2], 255u8),
            ImageType::ColorAlpha => (data[i * 4], data[i * 4 + 1], data[i * 4 + 2], data[i * 4 + 3]),
            ImageType::Gray => (data[i], data[i], data[i], 255u8),
            ImageType::GrayAlpha => (data[i * 2], data[i * 2], data[i * 2], data[i * 2 + 1]),
        };
        res.push(r);
        res.push(g);
        res.push(b);
        res.push(a);
        proof {
            assert forall|j: int| 0 <= j < 4 * (i + 1) implies #[trigger] res@[j] == pixel_byte(t, data@, j / 4, j % 4) by {
                if j < 4 * i {
                    assert(res@[j] == before[j]);
                }
            }
        }
        i += 1;
    }
    res
}

/// How the texture shown on screen changes.
#[derive(Debug)]
pub enum TextureUpdate {
    /// replace the whole texture with an RGBA image of this width and height
    Full(Vec<u8>, [usize; 2]),
    /// overwrite the part at this origin with an RGBA image of this size
    Partial([usize; 2], Vec<u8>, [usize; 2]),
}

/// RGBA bytes of `n` opaque white pixels.
pub open spec fn white(n: nat) -> Seq<u8> {
    Seq::new(4 * n, |j: int| 255u8)
}

/// RGBA bytes of an image of `w` by `h` pixels filled with one colour.
pub open spec fn filled(w: nat, h: nat, rgba: [u8; 4]) -> Seq<u8> {
    Seq::new(4 * (w * h), |j: int| rgba[j % 4])
}

/// `buf` (RGBA bytes) with the pixels from `start` on replaced by `rgba`.
pub open spec fn overwrite(buf: Seq<u8>, start: nat, rgba: Seq<u8>) -> Seq<u8> {
    buf.subrange(0, (4 * start) as int) + rgba + buf.subrange((4 * start + rgba.len()) as int, buf.len() as int)
}

fn fill_pixels(count: usize, rgba: [u8; 4]) -> (res: Vec<u8>)
    ensures
        res@ == Seq::new(4 * count as nat, |j: int| rgba[j % 4]),
{
    let mut res: Vec<u8> = Vec::new();
    let mut i: usize = 0;
    while i < count
        invariant
            i <= count,
            res@ =~= Seq::new(4 * i as nat, |j: int| rgba[j % 4]),
        decreases count - i,
    {
        let ghost before = res@;
        res.push(rgba[0]);
        res.push(rgba[1]);
        res.push(rgba[2]);
        res.push(rgba[3]);
        proof {
            assert forall|j: int| 0 <= j < 4 * (i + 1) implies #[trigger] res@[j] == rgba[j % 4] by {
                if j < 4 * i {
                    assert(res@[j] == before[j]);
                }
            }
        }
        i += 1;
    }
    res
}

/// Overwrites pixels `start .. start + pixels` of the RGBA buffer `buf` with
/// the first `pixels` pixels of `data`.
fn write_pixels(buf: &mut Vec<u8>, start: usize, t: ImageType, data: &[u8], pixels: usize)
    requires
        4 * (start + pixels) <= old(buf)@.len(),
        pixels * t.spec_bytes_per_pixel() <= data@.len(),
    ensures
        final(buf)@ == overwrite(old(buf)@, start as nat, to_rgba(t, data@, pixels as nat)),
{
    let ghost orig = buf@;
    let buf_len = buf.len();
    let data_len = data.len();
    let mut i: usize = 0;
    while i < pixels
        invariant
            i <= pixels,
            orig.len() == buf_len,
            data@.len() == data_len,
            4 * (start + pixels) <= orig.len(),
            pixels * t.spec_bytes_per_pixel() <= data@.len(),
            buf@.len() == orig.len(),
            forall|j: int| 0 <= j < 4 * start ==> #[trigger] buf@[j] == orig[j],
            forall|j: int| 4 * (start + i) <= j < orig.len() ==> #[trigger] buf@[j] == orig[j],
            forall|j: int|
                4 * start <= j < 4 * (start + i) ==> #[trigger] buf@[j] == pixel_byte(
                    t,
                    data@,
                    (j - 4 * start) / 4,
                    (j - 4 * start) % 4,
                ),
        decreases pixels - i,
    {
        let ghost before = buf@;
        let (r, g, b, a) = match t {
            ImageType::Color => (data[i * 3], data[i * 3 + 1], data[i * 3 + 2], 255u8),
            ImageType::ColorAlpha => (data[i * 4], data[i * 4 + 1], data[i * 4 + 2], data[i * 4 + 3]),
            ImageType::Gray => (data[i], data[i], data[i], 255u8),
            ImageType::GrayAlpha => (data[i * 2], data[i * 2], data[i * 2], data[i * 2 + 1]),
        };
        let k = 4 * (start + i);
        buf.set(k, r);
        buf.set(k + 1, g);
        buf.set(k + 2, b);
        buf.set(k + 3, a);
        proof {
            assert forall|j: int| 4 * start <= j < 4 * (start + i + 1) implies #[trigger] buf@[j]
                == pixel_byte(t, data@, (j - 4 * start) / 4, (j - 4 * start) % 4) by {
                if j < 4 * (start + i) {
                    assert(buf@[j] == before[j]);
                }
            }
            assert forall|j: int| 4 * (start + i + 1) <= j < orig.len() implies #[trigger] buf@[j]
                == orig[j] by {
                assert(buf@[j] == before[j]);
            }
        }
        i += 1;
    }
    proof {
        let rgba = to_rgba(t, data@, pixels as nat);
        assert(buf@ =~= overwrite(orig, start as nat, rgba));
    }
}

/// Whether `len` bytes hold exactly `pixels` pixels in layout `t`.
fn data_matches(t: ImageType, len: usize, pixels: usize) -> (res: bool)
    ensures
        res == (len == t.spec_bytes_per_pixel() * pixels),
{
    match t.bytes_per_pixel().checked_mul(pixels) {
        Some(m) => m == len,
        None => false,
    }
}

/// The error of a complete image whose data is not `data_len` bytes long.
fn length_error(data_len: usize) -> (e: String)
    ensures
        e@ == "Data length does not match expected size: "@ + decimal(data_len as nat),
{
    let mut e = String::from_str("Data length does not match expected size: ");
    push_wide_decimal(&mut e, data_len as u128);
    e
}

fn image_error(first: &str, name: &String) -> (e: String)
    ensures
        e@ == first@ + name@,
{
    let mut e = String::from_str(first);
    e.append(name.as_str());
    e
}

/// An image shown by the client: the size of its texture once created, and
/// the image assembled from batches.
pub struct ImageState {
    name: String,
    id: u64,
    texture_size: Option<[usize; 2]>,
    buffer: Option<(Vec<u8>, [usize; 2], usize)>,
}

impl ImageState {
    pub closed spec fn spec_id(&self) -> u64 {
        self.id
    }

    /// The name the image's errors give.
    pub closed spec fn spec_name(&self) -> Seq<char> {
        self.name@
    }

    /// The id of this state.
    pub fn id(&self) -> (r: u64)
        ensures
            r == self.spec_id(),
    {
        self.id
    }

    /// Width and height of the texture, once it exists.
    pub closed spec fn spec_texture_size(&self) -> Option<[usize; 2]> {
        self.texture_size
    }

    /// The image being assembled: RGBA bytes, size and pixels written so far.
    pub closed spec fn spec_buffer(&self) -> Option<(Seq<u8>, [usize; 2], nat)> {
        match self.buffer {
            Some((b, s, n)) => Some((b@, s, n as nat)),
            None => None,
        }
    }

    /// An image being assembled has exactly its pixels' bytes and no more
    /// written pixels than it holds.
    pub closed spec fn wf(&self) -> bool {
        match self.buffer {
            Some((b, s, n)) => b@.len() == 4 * (s[0] * s[1]) && n <= s[0] * s[1],
            None => true,
        }
    }

    /// Creates an image without a texture.
    pub fn new(name: String, id: u64) -> (s: Self)
        ensures
            s.wf(),
            s.spec_id() == id,
            s.spec_name() == name@,
            s.spec_texture_size() is None,
            s.spec_buffer() is None,
    {
        ImageState { name, id, texture_size: None, buffer: None }
    }

    /// The texture's size, once it exists.
    pub fn get_size(&self) -> (res: Option<[usize; 2]>)
        ensures
            res == self.spec_texture_size(),
    {
        self.texture_size
    }

    /// Records that the texture was created with this size, unless it
    /// already exists.
    pub fn initialize(&mut self, size: [usize; 2])
        requires
            old(self).wf(),
        ensures
            final(self).wf(),
            final(self).spec_id() == old(self).spec_id(),
            final(self).spec_name() == old(self).spec_name(),
            final(self).spec_buffer() == old(self).spec_buffer(),
            final(self).spec_texture_size() == match old(self).spec_texture_size() {
                Some(s) => Some(s),
                None => Some(size),
            },
    {
        if self.texture_size.is_none() {
            self.texture_size = Some(size);
        }
    }
}


/// The state of an image being assembled: RGBA bytes, width and height, and
/// the number of pixels written so far.
pub type Assembly = (Seq<u8>, [usize; 2], nat);

/// The image started by a `Start` message of this size carrying the first
/// `pixels` pixels: those pixels, then white. `None` when the message is
/// refused.
pub open spec fn start_result(size: [u32; 2], pixels: nat, t: ImageType, data: Seq<u8>) -> Option<Assembly> {
    let total = size[0] * size[1];
    if total <= usize::MAX && pixels <= total && data.len() == t.spec_bytes_per_pixel() * pixels {
        Some((to_rgba(t, data, pixels) + white((total - pixels) as nat), [size[0] as usize, size[1] as usize], pixels))
    } else {
        None
    }
}

/// The image after a `Batch` message with `pixels` more pixels; `None` when
/// the message is refused (no image being assembled, the batch reaching the
/// image's end, or data of the wrong length).
pub open spec fn batch_result(buffer: Option<Assembly>, pixels: nat, t: ImageType, data: Seq<u8>) -> Option<Assembly> {
    match buffer {
        Some((b, s, n)) => if n + pixels < s[0] * s[1] && data.len() == t.spec_bytes_per_pixel() * pixels {
            Some((overwrite(b, n, to_rgba(t, data, pixels)), s, n + pixels))
        } else {
            None
        },
        None => None,
    }
}

/// The finished image (RGBA bytes and size) after an `End` message that
/// counts the last `pixels` pixels; `None` when the message is refused. The
/// last pixels are checked against the data but not drawn: the image shown
/// is the one assembled so far, white where they would go.
pub open spec fn end_result(buffer: Option<Assembly>, pixels: nat, t: ImageType, data: Seq<u8>) -> Option<(Seq<u8>, [usize; 2])> {
    match buffer {
        Some((b, s, n)) => if n + pixels == s[0] * s[1] && data.len() == t.spec_bytes_per_pixel() * pixels {
            Some((b, s))
        } else {
            None
        },
        None => None,
    }
}

/// A finished image of `size` with RGBA bytes `rgba` replaces the texture
/// when there is one (which then takes that size); without a texture nothing
/// is shown.
pub open spec fn shows_full(
    res: Option<TextureUpdate>,
    old_texture: Option<[usize; 2]>,
    new_texture: Option<[usize; 2]>,
    image: (Seq<u8>, [usize; 2]),
) -> bool {
    match old_texture {
        Some(_) => (res matches Some(TextureUpdate::Full(r, s)) && r@ == image.0 && s == image.1) && new_texture == Some(
            image.1,
        ),
        None => res is None && new_texture is None,
    }
}

/// The error of a refused whole-image transfer message carrying `data_len`
/// bytes, for the image named `name`.
pub open spec fn set_image_error(buffer: Option<Assembly>, message: ImageSetMessage, name: Seq<char>, data_len: nat) -> Seq<
    char,
> {
    match message {
        ImageSetMessage::All(_) => "Data length does not match expected size: "@ + decimal(data_len),
        ImageSetMessage::End(pixels) => match buffer {
            Some((_, s, n)) => if n + pixels != s[0] * s[1] {
                "Pixels do not match expected size in "@ + name + ": "@ + decimal((n + pixels) as nat) + " vs "@
                    + decimal((s[0] * s[1]) as nat)
            } else {
                "Data length does not match expected size in "@ + name
            },
            None => "No image buffer found for image: "@ + name,
        },
        _ => set_image_problem(buffer, message) + name,
    }
}

/// How the error of a refused `Start` or `Batch` message begins; the image's
/// name follows.
pub open spec fn set_image_problem(buffer: Option<Assembly>, message: ImageSetMessage) -> Seq<char> {
    match message {
        ImageSetMessage::All(_) => "Data length does not match expected size in "@,
        ImageSetMessage::Start(size, pixels) => if size[0] * size[1] > usize::MAX {
            "Image size is too large in "@
        } else if pixels > size[0] * size[1] {
            "Pixels exceed image size in "@
        } else {
            "Data length does not match expected size in "@
        },
        ImageSetMessage::Batch(pixels) => match buffer {
            Some((_, s, n)) => if n + pixels >= s[0] * s[1] {
                "Pixels exceed image size in "@
            } else {
                "Data length does not match expected size in "@
            },
            None => "No image buffer found for image: "@,
        },
        ImageSetMessage::End(pixels) => match buffer {
            Some((_, s, n)) => if n + pixels != s[0] * s[1] {
                "Pixels do not match expected size in "@
            } else {
                "Data length does not match expected size in "@
            },
            None => "No image buffer found for image: "@,
        },
    }
}

/// What a whole-image transfer message does to an image (`before` to
/// `after`) and what it returns.
pub open spec fn set_image_post(
    before: ImageState,
    after: ImageState,
    message: ImageSetMessage,
    image_type: ImageType,
    data: Seq<u8>,
    res: Result<Option<TextureUpdate>, String>,
) -> bool {
    &&& (res matches Err(e) ==> e@ == set_image_error(before.spec_buffer(), message, before.spec_name(), data.len()))
    &&& after.spec_name() == before.spec_name()
    &&& match message {
        ImageSetMessage::All(size) => {
            let w = size[0] as nat;
            let h = size[1] as nat;
            &&& res is Ok <==> data.len() == image_type.spec_bytes_per_pixel() * (w * h)
            &&& after.spec_buffer() == before.spec_buffer()
            &&& res is Ok ==> shows_full(res->Ok_0, before.spec_texture_size(), after.spec_texture_size(),
                (to_rgba(image_type, data, w * h), [size[0] as usize, size[1] as usize]))
            &&& res is Err ==> after.spec_texture_size() == before.spec_texture_size()
        },
        ImageSetMessage::Start(size, pixels) => {
            let r = start_result(size, pixels as nat, image_type, data);
            &&& res is Ok <==> r is Some
            &&& after.spec_texture_size() == before.spec_texture_size()
            &&& res is Ok ==> res->Ok_0 is None && after.spec_buffer() == r
            &&& res is Err ==> after.spec_buffer() == before.spec_buffer()
        },
        ImageSetMessage::Batch(pixels) => {
            let r = batch_result(before.spec_buffer(), pixels as nat, image_type, data);
            &&& res is Ok <==> r is Some
            &&& after.spec_texture_size() == before.spec_texture_size()
            &&& res is Ok ==> res->Ok_0 is None && after.spec_buffer() == r
            &&& res is Err ==> after.spec_buffer() == before.spec_buffer()
        },
        ImageSetMessage::End(pixels) => {
            let r = end_result(before.spec_buffer(), pixels as nat, image_type, data);
            &&& res is Ok <==> r is Some
            &&& after.spec_buffer() is None
            &&& res is Ok ==> shows_full(res->Ok_0, before.spec_texture_size(), after.spec_texture_size(),
                r.unwrap())
            &&& res is Err ==> after.spec_texture_size() == before.spec_texture_size()
        },
    }
}

impl ImageState {
    /// Applies a whole-image transfer message. The messages that complete
    /// a transfer (`All`, `End`) are acknowledged whatever their outcome.
    /// Returns the texture change to make, if the texture exists.
    pub fn set_image(
        &mut self,
        message: ImageSetMessage,
        image_type: ImageType,
        data: &[u8],
        out: &mut Vec<ChannelMessage>,
    ) -> (res: Result<Option<TextureUpdate>, String>)
        requires
            old(self).wf(),
        ensures
            final(self).wf(),
            final(self).spec_id() == old(self).spec_id(),
            final(out)@ == if message is All || message is End {
                old(out)@.push(ChannelMessage::Ack(old(self).spec_id()))
            } else {
                old(out)@
            },
            set_image_post(*old(self), *final(self), message, image_type, data@, res),
    {
        match message {
            ImageSetMessage::All(size) => {
                send_ack(out, self.id);
                self.set_all(size, image_type, data)
            },
            ImageSetMessage::Start(size, pixels) => self.start_batch(size, pixels, image_type, data),
            ImageSetMessage::Batch(pixels) => self.add_batch(pixels, image_type, data),
            ImageSetMessage::End(pixels) => {
                send_ack(out, self.id);
                self.end_batch(pixels, image_type, data)
            },
        }
    }

    fn set_all(&mut self, size: [u32; 2], image_type: ImageType, data: &[u8]) -> (res: Result<
        Option<TextureUpdate>,
        String,
    >)
        requires
            old(self).wf(),
        ensures
            final(self).wf(),
            final(self).spec_id() == old(self).spec_id(),
            res is Ok <==> data@.len() == image_type.spec_bytes_per_pixel() * (size[0] * size[1]),
            final(self).spec_buffer() == old(self).spec_buffer(),
            res is Ok ==> shows_full(res->Ok_0, old(self).spec_texture_size(), final(self).spec_texture_size(),
                (to_rgba(image_type, data@, (size[0] * size[1]) as nat), [size[0] as usize, size[1] as usize])),
            res is Err ==> final(self).spec_texture_size() == old(self).spec_texture_size(),
            res matches Err(e) ==> e@ == set_image_error(
                old(self).spec_buffer(),
                ImageSetMessage::All(size),
                old(self).spec_name(),
                data@.len(),
            ),
            final(self).spec_name() == old(self).spec_name(),
    {
        let w = size[0] as usize;
        let h = size[1] as usize;
        let ghost bpp = image_type.spec_bytes_per_pixel();
        let data_len = data.len();
        let count = match w.checked_mul(h) {
            Some(c) => c,
            None => {
                proof {
                    assert(bpp * (w * h) > data_len) by (nonlinear_arith)
                        requires
                            bpp >= 1,
                            w * h > usize::MAX,
                            data_len <= usize::MAX,
                    ;
                }
                return Err(length_error(data.len()));
            },
        };
        if !data_matches(image_type, data.len(), count) {
            return Err(length_error(data.len()));
        }
        proof {
            assert(count * bpp == bpp * count) by (nonlinear_arith);
        }
        let rgba = convert_pixels(image_type, data, count);
        if self.texture_size.is_some() {
            self.texture_size = Some([w, h]);
            Ok(Some(TextureUpdate::Full(rgba, [w, h])))
        } else {
            Ok(None)
        }
    }

    fn start_batch(&mut self, size: [u32; 2], pixels: u32, image_type: ImageType, data: &[u8]) -> (res:
        Result<Option<TextureUpdate>, String>)
        requires
            old(self).wf(),
        ensures
            final(self).wf(),
            final(self).spec_id() == old(self).spec_id(),
            final(self).spec_texture_size() == old(self).spec_texture_size(),
            res is Ok <==> start_result(size, pixels as nat, image_type, data@) is Some,
            res is Ok ==> res->Ok_0 is None && final(self).spec_buffer() == start_result(size, pixels as nat, image_type, data@),
            res is Err ==> final(self).spec_buffer() == old(self).spec_buffer(),
            res matches Err(e) ==> e@ == set_image_problem(old(self).spec_buffer(), ImageSetMessage::Start(size, pixels))
                + old(self).spec_name(),
            final(self).spec_name() == old(self).spec_name(),
    {
        let w = size[0] as usize;
        let h = size[1] as usize;
        let total = match w.checked_mul(h) {
            Some(c) => c,
            None => {
                return Err(image_error("Image size is too large in ", &self.name));
            },
        };
        let p = pixels as usize;
        if p > total {
            return Err(image_error("Pixels exceed image size in ", &self.name));
        }
        if !data_matches(image_type, data.len(), p) {
            return Err(image_error("Data length does not match expected size in ", &self.name));
        }
        proof {
            let bpp = image_type.spec_bytes_per_pixel();
            assert(p * bpp == bpp * p) by (nonlinear_arith);
        }
        let mut b = convert_pixels(image_type, data, p);
        let mut rest = fill_pixels(total - p, [255u8, 255u8, 255u8, 255u8]);
        proof {
            assert(rest@ =~= white((total - p) as nat));
        }
        b.append(&mut rest);
        self.buffer = Some((b, [w, h], p));
        Ok(None)
    }

    fn add_batch(&mut self, pixels: u32, image_type: ImageType, data: &[u8]) -> (res: Result<
        Option<TextureUpdate>,
        String,
    >)
        requires
            old(self).wf(),
        ensures
            final(self).wf(),
            final(self).spec_id() == old(self).spec_id(),
            final(self).spec_texture_size() == old(self).spec_texture_size(),
            res is Ok <==> batch_result(old(self).spec_buffer(), pixels as nat, image_type, data@) is Some,
            res is Ok ==> res->Ok_0 is None && final(self).spec_buffer() == batch_result(old(self).spec_buffer(), pixels as nat, image_type, data@),
            res is Err ==> final(self).spec_buffer() == old(self).spec_buffer(),
            res matches Err(e) ==> e@ == set_image_problem(old(self).spec_buffer(), ImageSetMessage::Batch(pixels))
                + old(self).spec_name(),
            final(self).spec_name() == old(self).spec_name(),
    {
        let p = pixels as usize;
        let mut buffer = None;
        std::mem::swap(&mut buffer, &mut self.buffer);
        match buffer {
            Some((mut b, s, n)) => {
                let total = b.len() / 4;
                if p >= total - n {
                    self.buffer = Some((b, s, n));
                    return Err(image_error("Pixels exceed image size in ", &self.name));
                }
                if !data_matches(image_type, data.len(), p) {
                    self.buffer = Some((b, s, n));
                    return Err(image_error("Data length does not match expected size in ", &self.name));
                }
                proof {
                    let bpp = image_type.spec_bytes_per_pixel();
                    assert(p * bpp == bpp * p) by (nonlinear_arith);
                }
                write_pixels(&mut b, n, image_type, data, p);
                self.buffer = Some((b, s, n + p));
                Ok(None)
            },
            None => Err(image_error("No image buffer found for image: ", &self.name)),
        }
    }

    fn end_batch(&mut self, pixels: u32, image_type: ImageType, data: &[u8]) -> (res: Result<
        Option<TextureUpdate>,
        String,
    >)
        requires
            old(self).wf(),
        ensures
            final(self).wf(),
            final(self).spec_id() == old(self).spec_id(),
            final(self).spec_buffer() is None,
            res is Ok <==> end_result(old(self).spec_buffer(), pixels as nat, image_type, data@) is Some,
            res is Ok ==> shows_full(res->Ok_0, old(self).spec_texture_size(), final(self).spec_texture_size(),
                end_result(old(self).spec_buffer(), pixels as nat, image_type, data@).unwrap()),
            res is Err ==> final(self).spec_texture_size() == old(self).spec_texture_size(),
            res matches Err(e) ==> e@ == set_image_error(
                old(self).spec_buffer(),
                ImageSetMessage::End(pixels),
                old(self).spec_name(),
                data@.len(),
            ),
            final(self).spec_name() == old(self).spec_name(),
    {
        let p = pixels as usize;
        let mut buffer = None;
        std::mem::swap(&mut buffer, &mut self.buffer);
        match buffer {
            Some((mut b, s, n)) => {
                let total = b.len() / 4;
                if p != total - n {
                    let mut e = image_error("Pixels do not match expected size in ", &self.name);
                    e.append(": ");
                    push_wide_decimal(&mut e, n as u128 + p as u128);
                    e.append(" vs ");
                    push_wide_decimal(&mut e, total as u128);
                    return Err(e);
                }
                if !data_matches(image_type, data.len(), p) {
                    return Err(image_error("Data length does not match expected size in ", &self.name));
                }
                proof {
                    let bpp = image_type.spec_bytes_per_pixel();
                    assert(p * bpp == bpp * p) by (nonlinear_arith);
                }
                if self.texture_size.is_some() {
                    self.texture_size = Some(s);
                    Ok(Some(TextureUpdate::Full(b, s)))
                } else {
                    Ok(None)
                }
            },
            None => Err(image_error("No image buffer found for image: ", &self.name)),
        }
    }
}

/// Whether a rectangle (x, y, width, height) of new pixels can be drawn on a
/// texture: it is the whole texture, or it lies inside it.
pub open spec fn update_fits(rect: [u32; 4], texture: Option<[usize; 2]>) -> bool {
    match texture {
        Some(ts) => (ts[0] == rect[2] && ts[1] == rect[3] && rect[0] == 0 && rect[1] == 0) || (rect[0]
            + rect[2] <= ts[0] && rect[1] + rect[3] <= ts[1]),
        None => true,
    }
}

/// The texture change that draws `rgba` at the rectangle `rect`: the whole
/// texture when the rectangle covers it exactly, otherwise a part of it;
/// nothing without a texture.
pub open spec fn shows_rect(res: Option<TextureUpdate>, texture: Option<[usize; 2]>, rect: [u32; 4], rgba: Seq<u8>) -> bool {
    match texture {
        Some(ts) => if ts[0] == rect[2] && ts[1] == rect[3] && rect[0] == 0 && rect[1] == 0 {
            res matches Some(TextureUpdate::Full(r, s)) && r@ == rgba && s == ts
        } else {
            res matches Some(TextureUpdate::Partial(o, r, s)) && o[0] == rect[0] && o[1] == rect[1] && r@
                == rgba && s[0] == rect[2] && s[1] == rect[3]
        },
        None => res is None,
    }
}

impl ImageState {
    /// Applies new pixels for the rectangle `rect` (x, y, width, height) of
    /// the image. The message is acknowledged whatever its outcome.
    pub fn update_image(&self, rect: [u32; 4], image_type: ImageType, data: &[u8], out: &mut Vec<ChannelMessage>) -> (res:
        Result<Option<TextureUpdate>, String>)
        ensures
            final(out)@ == old(out)@.push(ChannelMessage::Ack(self.spec_id())),
            update_image_post(*self, rect, image_type, data@, res),
    {
        send_ack(out, self.id);
        let w = rect[2] as usize;
        let h = rect[3] as usize;
        let ghost bpp = image_type.spec_bytes_per_pixel();
        let data_len = data.len();
        let count = match w.checked_mul(h) {
            Some(c) => c,
            None => {
                proof {
                    assert(bpp * (w * h) > data_len) by (nonlinear_arith)
                        requires
                            bpp >= 1,
                            w * h > usize::MAX,
                            data_len <= usize::MAX,
                    ;
                }
                return Err(image_error("Data length does not match expected size: ", &self.name));
            },
        };
        if !data_matches(image_type, data.len(), count) {
            return Err(image_error("Data length does not match expected size: ", &self.name));
        }
        proof {
            assert(count * bpp == bpp * count) by (nonlinear_arith);
        }
        let rgba = convert_pixels(image_type, data, count);
        match self.texture_size {
            Some(ts) => {
                if ts[0] == w && ts[1] == h && rect[0] == 0 && rect[1] == 0 {
                    Ok(Some(TextureUpdate::Full(rgba, ts)))
                } else if rect[0] as u64 + rect[2] as u64 > ts[0] as u64 || rect[1] as u64 + rect[3] as u64
                    > ts[1] as u64 {
                    Err(image_error("Image is larger than the texture for image: ", &self.name))
                } else {
                    Ok(Some(TextureUpdate::Partial([rect[0] as usize, rect[1] as usize], rgba, [w, h])))
                }
            },
            None => Ok(None),
        }
    }

    /// Fills the image with one colour at a new size. The message is
    /// acknowledged whatever its outcome.
    pub fn fill_image(&mut self, size: [u32; 2], rgba: [u8; 4], out: &mut Vec<ChannelMessage>) -> (res: Result<
        Option<TextureUpdate>,
        String,
    >)
        requires
            old(self).wf(),
        ensures
            final(self).wf(),
            final(self).spec_id() == old(self).spec_id(),
            final(self).spec_buffer() == old(self).spec_buffer(),
            final(out)@ == old(out)@.push(ChannelMessage::Ack(old(self).spec_id())),
            fill_image_post(*old(self), *final(self), size, rgba, res),
    {
        send_ack(out, self.id);
        let w = size[0] as usize;
        let h = size[1] as usize;
        let count = match w.checked_mul(h) {
            Some(c) => c,
            None => {
                return Err(image_error("Image size is too large in ", &self.name));
            },
        };
        let bytes = fill_pixels(count, rgba);
        if self.texture_size.is_some() {
            self.texture_size = Some([w, h]);
            Ok(Some(TextureUpdate::Full(bytes, [w, h])))
        } else {
            Ok(None)
        }
    }
}

/// What new pixels for the rectangle `rect` of an image return (the image
/// itself does not change).
pub open spec fn update_image_post(
    image: ImageState,
    rect: [u32; 4],
    image_type: ImageType,
    data: Seq<u8>,
    res: Result<Option<TextureUpdate>, String>,
) -> bool {
    &&& res is Ok <==> data.len() == image_type.spec_bytes_per_pixel() * (rect[2] * rect[3]) && update_fits(
        rect,
        image.spec_texture_size(),
    )
    &&& res is Ok ==> shows_rect(
        res->Ok_0,
        image.spec_texture_size(),
        rect,
        to_rgba(image_type, data, (rect[2] * rect[3]) as nat),
    )
    &&& (res matches Err(e) ==> e@ == (if data.len() != image_type.spec_bytes_per_pixel() * (rect[2] * rect[3]) {
        "Data length does not match expected size: "@
    } else {
        "Image is larger than the texture for image: "@
    }) + image.spec_name())
}

/// What filling an image with one colour at a new size does to it (`before`
/// to `after`) and what it returns.
pub open spec fn fill_image_post(
    before: ImageState,
    after: ImageState,
    size: [u32; 2],
    rgba: [u8; 4],
    res: Result<Option<TextureUpdate>, String>,
) -> bool {
    &&& after.spec_buffer() == before.spec_buffer()
    &&& after.spec_name() == before.spec_name()
    &&& (res matches Err(e) ==> e@ == "Image size is too large in "@ + before.spec_name())
    &&& res is Ok <==> size[0] * size[1] <= usize::MAX
    &&& res is Ok ==> shows_full(
        res->Ok_0,
        before.spec_texture_size(),
        after.spec_texture_size(),
        (filled(size[0] as nat, size[1] as nat, rgba), [size[0] as usize, size[1] as usize]),
    )
    &&& res is Err ==> after.spec_texture_size() == before.spec_texture_size()
}

/// What any image message does to an image (`before` to `after`) and what it
/// returns.
pub open spec fn image_apply_post(
    before: ImageState,
    after: ImageState,
    message: ImageMessage,
    data: Seq<u8>,
    res: Result<Option<TextureUpdate>, String>,
) -> bool {
    &&& after.wf()
    &&& after.spec_id() == before.spec_id()
    &&& match message {
        ImageMessage::SetImage(m, t) => set_image_post(before, after, m, t, data, res),
        ImageMessage::Update(rect, t) => after == before && update_image_post(before, rect, t, data, res),
        ImageMessage::Fill(size, rgba) => fill_image_post(before, after, size, rgba, res),
    }
}

impl ImageState {
    /// Applies an image message from the server. Messages that complete an
    /// image change are acknowledged whatever their outcome.
    pub fn apply(&mut self, message: ImageMessage, data: &[u8], out: &mut Vec<ChannelMessage>) -> (res: Result<
        Option<TextureUpdate>,
        String,
    >)
        requires
            old(self).wf(),
        ensures
            final(out)@ == acked(old(out)@, message.spec_requires_ack(), old(self).spec_id()),
            image_apply_post(*old(self), *final(self), message, data@, res),
    {
        match message {
            ImageMessage::SetImage(m, t) => self.set_image(m, t, data, out),
            ImageMessage::Update(rect, t) => self.update_image(rect, t, data, out),
            ImageMessage::Fill(size, rgba) => self.fill_image(size, rgba, out),
        }
    }
}

/// Converting two runs of pixels one after the other gives the conversion
/// of the two runs joined.
proof fn lemma_to_rgba_concat(t: ImageType, a: Seq<u8>, pa: nat, b: Seq<u8>, pb: nat)
    requires
        a.len() == t.spec_bytes_per_pixel() * pa,
        b.len() >= t.spec_bytes_per_pixel() * pb,
    ensures
        to_rgba(t, a, pa) + to_rgba(t, b, pb) == to_rgba(t, a + b, pa + pb),
{
    let lhs = to_rgba(t, a, pa) + to_rgba(t, b, pb);
    let rhs = to_rgba(t, a + b, pa + pb);
    assert forall|j: int| 0 <= j < 4 * (pa + pb) implies #[trigger] lhs[j] == rhs[j] by {
        let p = j / 4;
        let c = j % 4;
        if j < 4 * pa {
            assert(p < pa);
            assert(lhs[j] == pixel_byte(t, a, p, c));
        } else {
            let k = j - 4 * pa;
            assert(k / 4 == p - pa && k % 4 == c) by {
                vstd::arithmetic::div_mod::lemma_fundamental_div_mod(j, 4);
                vstd::arithmetic::div_mod::lemma_fundamental_div_mod(k, 4);
                vstd::arithmetic::div_mod::lemma_hoist_over_denominator(k, pa as int, 4);
            }
            assert(lhs[j] == pixel_byte(t, b, p - pa, c));
            assert(p >= pa);
        }
    }
    assert(lhs =~= rhs);
}

/// Sending an image in batches (a first batch, one in the middle and the
/// last) shows the pixels of the first two batches as sending them at once
/// would, followed by white where the last batch's pixels go.
pub proof fn lemma_image_batches_as_whole(
    size: [u32; 2],
    t: ImageType,
    first: Seq<u8>,
    p1: nat,
    middle: Seq<u8>,
    p2: nat,
    last: Seq<u8>,
    p3: nat,
)
    requires
        size[0] * size[1] <= usize::MAX,
        p1 + p2 < size[0] * size[1],
        p1 + p2 + p3 == size[0] * size[1],
        first.len() == t.spec_bytes_per_pixel() * p1,
        middle.len() == t.spec_bytes_per_pixel() * p2,
        last.len() == t.spec_bytes_per_pixel() * p3,
    ensures
        end_result(batch_result(start_result(size, p1, t, first), p2, t, middle), p3, t, last) == Some(
            (to_rgba(t, first + middle, p1 + p2) + white(p3), [size[0] as usize, size[1] as usize]),
        ),
{
    let total = (size[0] * size[1]) as nat;
    let r1 = to_rgba(t, first, p1);
    let r2 = to_rgba(t, middle, p2);
    let r3 = to_rgba(t, last, p3);
    let b1 = r1 + white((total - p1) as nat);
    assert(start_result(size, p1, t, first) == Some((b1, [size[0] as usize, size[1] as usize], p1)));
    let b2 = overwrite(b1, p1, r2);
    assert(b2 =~= r1 + r2 + white(p3));
    lemma_to_rgba_concat(t, first, p1, middle, p2);
}

} // verus!
