//! Per-pixel hit masks decoded from sprite PNGs: the cursor only counts as
//! over a deskling where its sprite is opaque enough.
use vstd::prelude::*;
use vstd::hash_map::StringHashMap;
use crate::text::{decimal, u32_to_decimal, u64_to_decimal};

verus! {

/// Alpha values above this count as opaque.
pub const ALPHA_THRESHOLD: u8 = 64;

/// A `png::Reader` over an in-memory image. Verus cannot take
/// `png::Reader` as a declared type (its parameter is bounded by `std::io`
/// traits), so the reader is held here, opaque.
#[verifier::external_body]
pub struct PngReader {
    reader: png::Reader<std::io::Cursor<Vec<u8>>>,
}

/// A PNG decoder positioned after the header of an in-memory image, with
/// the bytes it reads.
pub struct PngStream {
    reader: PngReader,
    source: Ghost<Seq<u8>>,
}

impl PngStream {
    /// The bytes the decoder reads.
    pub closed spec fn source(&self) -> Seq<u8> {
        self.source@
    }
}

/// What the decoder reports of one decoded frame. The colour type and the
/// bit depth are the `u8` discriminants of `png::ColorType` (Grayscale 0,
/// Rgb 2, Indexed 3, GrayscaleAlpha 4, Rgba 6) and `png::BitDepth` (the
/// number of bits: 1, 2, 4, 8 or 16).
#[derive(Clone, Copy, Debug)]
pub struct PngFrame {
    pub width: u32,
    pub height: u32,
    pub color_type: u8,
    pub bit_depth: u8,
}

pub open spec fn valid_color_type(c: u8) -> bool {
    c == 0 || c == 2 || c == 3 || c == 4 || c == 6
}

pub open spec fn valid_bit_depth(d: u8) -> bool {
    d == 1 || d == 2 || d == 4 || d == 8 || d == 16
}

/// What `png::Decoder::new(..).read_info()` makes of `bytes`: `None` when it
/// accepts the header and metadata, else the `Display` text of its error.
pub uninterp spec fn png_info_error(bytes: Seq<u8>) -> Option<Seq<char>>;

/// Builds a `png::Decoder` over the bytes and calls `Decoder::read_info`,
/// which reads everything up to the first image data. Claimed: it fails
/// exactly when `png_info_error(bytes@)` is `Some`, with that text, a result
/// that depends on the bytes alone; the decoder it returns reads `bytes`.
#[verifier::external_body]
fn png_read_info(bytes: &[u8]) -> (r: Result<PngStream, String>)
    ensures
        (r is Err) == (png_info_error(bytes@) is Some),
        r matches Err(e) ==> png_info_error(bytes@) == Some(e@),
        r matches Ok(s) ==> s.source() == bytes@,
{
    match png::Decoder::new(std::io::Cursor::new(bytes.to_vec())).read_info() {
        Ok(reader) => Ok(PngStream { reader: PngReader { reader }, source: Ghost(bytes@) }),
        Err(e) => Err(e.to_string()),
    }
}

/// What `png::Reader::output_buffer_size` gives right after `read_info` on
/// `bytes`: the bytes one decoded frame needs, or `None` where that does not
/// fit the address space.
pub uninterp spec fn png_buffer_size(bytes: Seq<u8>) -> Option<usize>;

/// `png::Reader::output_buffer_size` on a decoder fresh from `read_info`.
/// Claimed: the result is `png_buffer_size` of the bytes it reads (its state
/// then depends on them alone), and a size is at most `isize::MAX`, as its
/// documentation says.
#[verifier::external_body]
fn png_output_buffer_size(stream: &PngStream) -> (n: Option<usize>)
    ensures
        n == png_buffer_size(stream.source()),
        n matches Some(k) ==> k <= isize::MAX,
{
    stream.reader.reader.output_buffer_size()
}

/// What the first `png::Reader::next_frame` after `read_info` on `bytes`
/// gives when it writes into a buffer holding `buf`: the frame's width,
/// height, colour type and bit depth codes, or the `Display` text of its
/// error; and the buffer's content afterwards.
pub uninterp spec fn png_first_frame(bytes: Seq<u8>, buf: Seq<u8>) -> (
    Result<(u32, u32, u8, u8), Seq<char>>,
    Seq<u8>,
);

/// `png::Reader::next_frame`, called once on a decoder fresh from
/// `read_info` (the decoder is used up): decodes the first frame into `buf`.
/// Claimed: the report and the buffer afterwards are `png_first_frame` of
/// the bytes read and the buffer before, which they depend on alone; the
/// buffer keeps its length; the reported codes are among the enums'
/// discriminants (`ColorType` and `BitDepth` are `repr(u8)`).
#[verifier::external_body]
fn png_next_frame(stream: PngStream, buf: &mut Vec<u8>) -> (r: Result<PngFrame, String>)
    ensures
        final(buf)@ == png_first_frame(stream.source(), old(buf)@).1,
        final(buf)@.len() == old(buf)@.len(),
        match r {
            Ok(f) => png_first_frame(stream.source(), old(buf)@).0 == Ok::<
                (u32, u32, u8, u8),
                Seq<char>,
            >((f.width, f.height, f.color_type, f.bit_depth)) && valid_color_type(f.color_type)
                && valid_bit_depth(f.bit_depth),
            Err(e) => png_first_frame(stream.source(), old(buf)@).0 == Err::<
                (u32, u32, u8, u8),
                Seq<char>,
            >(e@),
        },
{
    let mut stream = stream;
    match stream.reader.reader.next_frame(buf.as_mut_slice()) {
        Ok(info) => Ok(
            PngFrame {
                width: info.width,
                height: info.height,
                color_type: info.color_type as u8,
                bit_depth: info.bit_depth as u8,
            },
        ),
        Err(e) => Err(e.to_string()),
    }
}

/// The abstract content of a mask: its size and one alpha value per pixel,
/// row by row.
pub struct MaskView {
    pub width: u32,
    pub height: u32,
    pub alpha: Seq<u8>,
}

/// The alpha values of a decoded sprite.
#[derive(Debug)]
pub struct HitMask {
    width: u32,
    height: u32,
    alpha: Vec<u8>,
}

impl View for HitMask {
    type V = MaskView;

    closed spec fn view(&self) -> MaskView {
        MaskView { width: self.width, height: self.height, alpha: self.alpha@ }
    }
}

/// The byte at `offset` of each whole `stride`-byte chunk of `buf`, in order.
pub open spec fn every_nth(buf: Seq<u8>, stride: nat, offset: nat) -> Seq<u8> {
    Seq::new(buf.len() / stride, |i: int| buf[i * stride + offset])
}

/// `Debug` name of a bit depth code.
pub open spec fn depth_name(d: u8) -> Seq<char> {
    if d == 1 {
        "One"@
    } else if d == 2 {
        "Two"@
    } else if d == 4 {
        "Four"@
    } else if d == 8 {
        "Eight"@
    } else if d == 16 {
        "Sixteen"@
    } else {
        decimal(d as nat)
    }
}

/// `Debug` name of a colour type code.
pub open spec fn color_name(c: u8) -> Seq<char> {
    if c == 0 {
        "Grayscale"@
    } else if c == 2 {
        "Rgb"@
    } else if c == 3 {
        "Indexed"@
    } else if c == 4 {
        "GrayscaleAlpha"@
    } else if c == 6 {
        "Rgba"@
    } else {
        decimal(c as nat)
    }
}

/// The alpha plane a frame of colour type `c` yields from the decoded
/// bytes: every fourth byte for RGBA, every second for grey with alpha,
/// fully opaque for colour types without alpha, and nothing for the others.
pub open spec fn alpha_plane(c: u8, buf: Seq<u8>, pixels: nat) -> Option<Seq<u8>> {
    if c == 6 {
        Some(every_nth(buf, 4, 3))
    } else if c == 4 {
        Some(every_nth(buf, 2, 1))
    } else if c == 0 || c == 2 {
        Some(Seq::new(pixels, |i: int| 255u8))
    } else {
        None
    }
}

/// What a decoded frame becomes: a mask, or the message that says why not.
pub open spec fn frame_outcome(f: PngFrame, buf: Seq<u8>, label: Seq<char>) -> Result<
    MaskView,
    Seq<char>,
> {
    let pixels = f.width * f.height;
    if f.bit_depth != 8 {
        Err(label + ": only 8-bit PNGs are supported (got "@ + depth_name(f.bit_depth) + ")"@)
    } else if pixels > usize::MAX {
        Err(label + ": dimensions overflow"@)
    } else {
        match alpha_plane(f.color_type, buf, pixels as nat) {
            None => Err(label + ": unsupported color type "@ + color_name(f.color_type)),
            Some(a) => if a.len() != pixels {
                Err(label + ": decoded alpha length "@ + decimal(a.len()) + " != "@ + decimal(
                    f.width as nat,
                ) + "x"@ + decimal(f.height as nat) + "="@ + decimal(pixels as nat))
            } else {
                Ok(MaskView { width: f.width, height: f.height, alpha: a })
            },
        }
    }
}

/// A decoding result seen through the views of its parts.
pub open spec fn mask_outcome(r: Result<HitMask, String>) -> Result<MaskView, Seq<char>> {
    match r {
        Ok(m) => Ok(m@),
        Err(e) => Err(e@),
    }
}

pub open spec fn header_failure(label: Seq<char>, e: Seq<char>) -> Seq<char> {
    "png header "@ + label + ": "@ + e
}

pub open spec fn frame_failure(label: Seq<char>, e: Seq<char>) -> Seq<char> {
    "png frame "@ + label + ": "@ + e
}

/// What decoding `bytes` as a sprite PNG gives: the header the decoder
/// refuses, the frame it fails on, or the mask made from the first frame
/// decoded into a zeroed buffer of the size the decoder asks for.
pub open spec fn png_load_outcome(bytes: Seq<u8>, label: Seq<char>) -> Result<MaskView, Seq<char>> {
    match png_info_error(bytes) {
        Some(e) => Err(header_failure(label, e)),
        None => {
            let size: nat = match png_buffer_size(bytes) {
                Some(n) => n as nat,
                None => 0,
            };
            let decoded = png_first_frame(bytes, Seq::new(size, |i: int| 0u8));
            match decoded.0 {
                Err(e) => Err(frame_failure(label, e)),
                Ok(h) => frame_outcome(
                    PngFrame { width: h.0, height: h.1, color_type: h.2, bit_depth: h.3 },
                    decoded.1,
                    label,
                ),
            }
        },
    }
}

/// A 32-bit two's complement reading of `w`, as `w as i32` gives it.
pub open spec fn wrap_i32(w: u32) -> int {
    if w <= i32::MAX {
        w as int
    } else {
        w - 0x1_0000_0000
    }
}

/// Whether the pixel at (`px`, `py`) is opaque, mirrored horizontally when
/// `flipped`; pixels outside the sprite never are.
pub open spec fn opaque_at(m: MaskView, px: int, py: int, flipped: bool) -> bool {
    let w = wrap_i32(m.width);
    let h = wrap_i32(m.height);
    if px < 0 || py < 0 || px >= w || py >= h {
        false
    } else {
        let src_x = if flipped {
            w - 1 - px
        } else {
            px
        };
        let idx = py * m.width + src_x;
        idx < m.alpha.len() && m.alpha[idx] > ALPHA_THRESHOLD
    }
}

/// Reading a flipped sprite at column `px` reads the unflipped sprite at
/// the mirrored column.
pub proof fn lemma_flip_mirrors(m: MaskView, px: int, py: int)
    requires
        0 <= px < wrap_i32(m.width),
    ensures
        opaque_at(m, px, py, true) == opaque_at(m, wrap_i32(m.width) - 1 - px, py, false),
{
}

/// The mask is read row by row, each row `width` pixels long: inside the
/// sprite, pixel (`px`, `py`) is opaque exactly when alpha value
/// `py * width + px` exceeds the threshold, and mirrored reading takes
/// column `width - 1 - px` of the same row.
pub proof fn lemma_opaque_reads_row_major(m: MaskView, px: int, py: int)
    requires
        m.width <= i32::MAX,
        m.height <= i32::MAX,
        m.alpha.len() == m.width * m.height,
        0 <= px < m.width,
        0 <= py < m.height,
    ensures
        py * m.width + px < m.alpha.len(),
        opaque_at(m, px, py, false) == (m.alpha[py * m.width + px] > ALPHA_THRESHOLD),
        opaque_at(m, px, py, true) == (m.alpha[py * m.width + (m.width - 1 - px)] > ALPHA_THRESHOLD),
{
    let w = m.width as int;
    let h = m.height as int;
    assert(py * w + px < w * h) by (nonlinear_arith)
        requires
            0 <= px < w,
            0 <= py < h,
    ;
    assert(py * w + (w - 1 - px) < w * h) by (nonlinear_arith)
        requires
            0 <= px < w,
            0 <= py < h,
    ;
}

impl HitMask {
    /// Builds a mask from a decoded frame and its pixel bytes; `label` names
    /// the sprite in error messages.
    pub fn from_frame(frame: &PngFrame, buf: &Vec<u8>, label: &str) -> (r: Result<HitMask, String>)
        ensures
            mask_outcome(r) == frame_outcome(*frame, buf@, label@),
    {
        proof {
            reveal_strlit(": only 8-bit PNGs are supported (got ");
            reveal_strlit(")");
            reveal_strlit(": dimensions overflow");
            reveal_strlit(": unsupported color type ");
            reveal_strlit(": decoded alpha length ");
            reveal_strlit(" != ");
            reveal_strlit("x");
            reveal_strlit("=");
        }
        if frame.bit_depth != 8 {
            let mut msg = label.to_owned();
            msg.append(": only 8-bit PNGs are supported (got ");
            msg.append(depth_label(frame.bit_depth).as_str());
            msg.append(")");
            return Err(msg);
        }
        let pixels = match (frame.width as usize).checked_mul(frame.height as usize) {
            Some(p) => p,
            None => {
                let mut msg = label.to_owned();
                msg.append(": dimensions overflow");
                return Err(msg);
            },
        };
        let alpha: Vec<u8> = if frame.color_type == 6 {
            pick_every(buf, 4, 3)
        } else if frame.color_type == 4 {
            pick_every(buf, 2, 1)
        } else if frame.color_type == 0 || frame.color_type == 2 {
            let v = vec![255u8; pixels];
            assert(v@ =~= Seq::new(pixels as nat, |i: int| 255u8));
            v
        } else {
            let mut msg = label.to_owned();
            msg.append(": unsupported color type ");
            msg.append(color_label(frame.color_type).as_str());
            return Err(msg);
        };
        if alpha.len() != pixels {
            let mut msg = label.to_owned();
            msg.append(": decoded alpha length ");
            msg.append(u64_to_decimal(alpha.len() as u64).as_str());
            msg.append(" != ");
            msg.append(u32_to_decimal(frame.width).as_str());
            msg.append("x");
            msg.append(u32_to_decimal(frame.height).as_str());
            msg.append("=");
            msg.append(u64_to_decimal(pixels as u64).as_str());
            return Err(msg);
        }
        Ok(HitMask { width: frame.width, height: frame.height, alpha })
    }

    /// Decodes a sprite PNG held in `bytes`. A header the decoder refuses
    /// gives its message after `png header {label}: `; past the header, the
    /// first frame either fails with the decoder's message after
    /// `png frame {label}: `, or is turned into a mask by `from_frame`.
    pub fn load(bytes: &[u8], label: &str) -> (r: Result<HitMask, String>)
        ensures
            mask_outcome(r) == png_load_outcome(bytes@, label@),
    {
        proof {
            reveal_strlit("png header ");
            reveal_strlit("png frame ");
            reveal_strlit(": ");
        }
        let stream = match png_read_info(bytes) {
            Ok(stream) => stream,
            Err(e) => {
                let mut msg = "png header ".to_owned();
                msg.append(label);
                msg.append(": ");
                msg.append(e.as_str());
                return Err(msg);
            },
        };
        let size = match png_output_buffer_size(&stream) {
            Some(n) => n,
            None => 0,
        };
        let mut buf = vec![0u8; size];
        assert(buf@ =~= Seq::new(size as nat, |i: int| 0u8));
        match png_next_frame(stream, &mut buf) {
            Ok(frame) => {
                let r = HitMask::from_frame(&frame, &buf, label);
                assert(mask_outcome(r) == frame_outcome(frame, buf@, label@));
                r
            },
            Err(e) => {
                let mut msg = "png frame ".to_owned();
                msg.append(label);
                msg.append(": ");
                msg.append(e.as_str());
                assert(msg@ == frame_failure(label@, e@));
                Err(msg)
            },
        }
    }

    /// Width and height of the sprite, in pixels.
    pub fn dimensions(&self) -> (r: (u32, u32))
        ensures
            r == (self@.width, self@.height),
    {
        (self.width, self.height)
    }

    /// Whether the sprite pixel at (`px`, `py`) is opaque, reading the
    /// sprite mirrored when `flipped`.
    pub fn is_opaque_at(&self, px: i32, py: i32, flipped: bool) -> (r: bool)
        ensures
            r == opaque_at(self@, px as int, py as int, flipped),
    {
        if px < 0 || py < 0 {
            return false;
        }
        let width: u32 = self.width;
        let height: u32 = self.height;
        let w: i32 = #[verifier::truncate] (width as i32);
        let h: i32 = #[verifier::truncate] (height as i32);
        assert(w == wrap_i32(width)) by (bit_vector)
            requires
                w == width as i32,
        ;
        assert(h == wrap_i32(height)) by (bit_vector)
            requires
                h == height as i32,
        ;
        if px >= w || py >= h {
            return false;
        }
        let src_x: i32 = if flipped {
            w - 1 - px
        } else {
            px
        };
        assert(width <= i32::MAX);
        assert((py as u64) * (width as u64) <= 0x7fff_ffff * 0x7fff_ffff) by (nonlinear_arith)
            requires
                0 <= py <= 0x7fff_ffff,
                width <= 0x7fff_ffff,
        ;
        let idx: u64 = (py as u64) * (width as u64) + (src_x as u64);
        if idx < self.alpha.len() as u64 {
            self.alpha[idx as usize] > ALPHA_THRESHOLD
        } else {
            false
        }
    }
}

/// `Debug` name of a bit depth code.
fn depth_label(d: u8) -> (s: String)
    ensures
        s@ == depth_name(d),
{
    proof {
        reveal_strlit("One");
        reveal_strlit("Two");
        reveal_strlit("Four");
        reveal_strlit("Eight");
        reveal_strlit("Sixteen");
    }
    if d == 1 {
        "One".to_owned()
    } else if d == 2 {
        "Two".to_owned()
    } else if d == 4 {
        "Four".to_owned()
    } else if d == 8 {
        "Eight".to_owned()
    } else if d == 16 {
        "Sixteen".to_owned()
    } else {
        u32_to_decimal(d as u32)
    }
}

/// `Debug` name of a colour type code.
fn color_label(c: u8) -> (s: String)
    ensures
        s@ == color_name(c),
{
    proof {
        reveal_strlit("Grayscale");
        reveal_strlit("Rgb");
        reveal_strlit("Indexed");
        reveal_strlit("GrayscaleAlpha");
        reveal_strlit("Rgba");
    }
    if c == 0 {
        "Grayscale".to_owned()
    } else if c == 2 {
        "Rgb".to_owned()
    } else if c == 3 {
        "Indexed".to_owned()
    } else if c == 4 {
        "GrayscaleAlpha".to_owned()
    } else if c == 6 {
        "Rgba".to_owned()
    } else {
        u32_to_decimal(c as u32)
    }
}

/// The byte at `offset` of each whole `stride`-byte chunk of `buf`.
fn pick_every(buf: &Vec<u8>, stride: usize, offset: usize) -> (out: Vec<u8>)
    requires
        0 < stride,
        offset < stride,
    ensures
        out@ == every_nth(buf@, stride as nat, offset as nat),
{
    let n = buf.len() / stride;
    let mut out: Vec<u8> = Vec::with_capacity(n);
    let mut i: usize = 0;
    while i < n
        invariant
            0 < stride,
            offset < stride,
            n == buf.len() / stride,
            i <= n,
            out@ =~= every_nth(buf@, stride as nat, offset as nat).subrange(0, i as int),
        decreases n - i,
    {
        assert(i * stride + offset < buf.len()) by (nonlinear_arith)
            requires
                i < n,
                n == buf.len() / stride,
                offset < stride,
                0 < stride,
        ;
        out.push(buf[i * stride + offset]);
        i += 1;
    }
    out
}

/// What reading a sprite file gives: its decoding, or the read error.
pub open spec fn file_outcome(file: Result<Vec<u8>, String>, label: Seq<char>) -> Result<
    MaskView,
    Seq<char>,
> {
    match file {
        Ok(bytes) => png_load_outcome(bytes@, label),
        Err(e) => Err(e@),
    }
}

/// `after` is `before` with `outcome` recorded for `f`: the mask where
/// decoding succeeded, `None` and the message where it failed.
pub open spec fn records(
    before: Map<Seq<char>, Option<HitMask>>,
    after: Map<Seq<char>, Option<HitMask>>,
    f: Seq<char>,
    outcome: Result<MaskView, Seq<char>>,
    err: Option<String>,
) -> bool {
    &&& after.contains_key(f)
    &&& after.remove(f) == before.remove(f)
    &&& match outcome {
        Ok(v) => (after[f] matches Some(m) && m@ == v) && err is None,
        Err(e) => after[f] is None && (err matches Some(x) && x@ == e),
    }
}

/// Hit masks of the sprites of one deskling, decoded at most once each; a
/// sprite whose decoding failed is remembered as `None`.
pub struct HitMaskCache {
    sprites_dir: String,
    masks: StringHashMap<Option<HitMask>>,
}

impl HitMaskCache {
    /// The directory the sprites are read from.
    pub closed spec fn dir(&self) -> Seq<char> {
        self.sprites_dir@
    }

    /// What has been recorded so far, by sprite file name.
    pub closed spec fn recorded(&self) -> Map<Seq<char>, Option<HitMask>> {
        self.masks@
    }

    pub fn new(sprites_dir: String) -> (c: Self)
        ensures
            c.dir() == sprites_dir@,
            c.recorded() == Map::<Seq<char>, Option<HitMask>>::empty(),
    {
        HitMaskCache { sprites_dir, masks: StringHashMap::new() }
    }

    pub fn sprites_dir(&self) -> (d: &str)
        ensures
            d@ == self.dir(),
    {
        self.sprites_dir.as_str()
    }

    /// Forgets every recorded mask, so that sprites are read again.
    pub fn invalidate(&mut self)
        ensures
            final(self).dir() == old(self).dir(),
            final(self).recorded() == Map::<Seq<char>, Option<HitMask>>::empty(),
    {
        self.masks.clear();
    }

    /// Whether loading `filename` has been recorded, successful or not.
    pub fn is_cached(&self, filename: &str) -> (b: bool)
        ensures
            b == self.recorded().contains_key(filename@),
    {
        self.masks.contains_key(filename)
    }

    /// Records what loading `filename` gave.
    pub fn insert(&mut self, filename: &str, loaded: Option<HitMask>)
        ensures
            final(self).dir() == old(self).dir(),
            final(self).recorded() == old(self).recorded().insert(filename@, loaded),
    {
        self.masks.insert(filename.to_owned(), loaded);
    }

    /// Loads `filename` unless loading it has been recorded already: then
    /// nothing is read and nothing changes. Otherwise `read` supplies the
    /// file's bytes (or why they could not be read), they are decoded as
    /// `HitMask::load` does, labelled `label`, and the mask, or `None` on
    /// failure, is recorded; the failure's message is returned.
    pub fn load_missing<F: FnOnce() -> Result<Vec<u8>, String>>(
        &mut self,
        filename: &str,
        label: &str,
        read: F,
    ) -> (err: Option<String>)
        requires
            read.requires(()),
        ensures
            final(self).dir() == old(self).dir(),
            old(self).recorded().contains_key(filename@) ==> final(self).recorded() == old(
                self,
            ).recorded() && err is None,
            !old(self).recorded().contains_key(filename@) ==> exists|
                file: Result<Vec<u8>, String>,
            |
                #[trigger] read.ensures((), file) && records(
                    old(self).recorded(),
                    final(self).recorded(),
                    filename@,
                    file_outcome(file, label@),
                    err,
                ),
    {
        if self.masks.contains_key(filename) {
            return None;
        }
        let file = read();
        let outcome = match &file {
            Ok(bytes) => HitMask::load(bytes.as_slice(), label),
            Err(e) => Err(e.clone()),
        };
        let ghost before = self.masks@;
        match outcome {
            Ok(m) => {
                self.masks.insert(filename.to_owned(), Some(m));
                assert(self.masks@.remove(filename@) =~= before.remove(filename@));
                None
            },
            Err(e) => {
                self.masks.insert(filename.to_owned(), None);
                assert(self.masks@.remove(filename@) =~= before.remove(filename@));
                Some(e)
            },
        }
    }

    /// The recorded mask of `filename`, if one was recorded and decoding
    /// succeeded.
    pub fn get(&self, filename: &str) -> (r: Option<&HitMask>)
        ensures
            r matches Some(m) ==> self.recorded().contains_key(filename@)
                && self.recorded()[filename@] == Some(*m),
            r is None ==> !self.recorded().contains_key(filename@)
                || self.recorded()[filename@] is None,
    {
        match self.masks.get(filename) {
            Some(entry) => match entry {
                Some(m) => Some(m),
                None => None,
            },
            None => None,
        }
    }
}

impl Default for HitMaskCache {
    fn default() -> (c: Self)
        ensures
            c.dir() == Seq::<char>::empty(),
            c.recorded() == Map::<Seq<char>, Option<HitMask>>::empty(),
    {
        HitMaskCache { sprites_dir: String::new(), masks: StringHashMap::new() }
    }
}

} // verus!
