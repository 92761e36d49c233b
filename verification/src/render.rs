//! Frame handling around headless rendering: which fragment source a render
//! uses, the layout of the GPU readback buffer, removal of its row padding,
//! PNG encoding of the frame, and pixel access.

use vstd::prelude::*;

use crate::compile::{
    detect_language, spec_detect_language, spec_wrap_shadertoy_fragment, wrap_shadertoy_fragment,
    ShaderLang,
};
use crate::image_io::{encode_png_rgba8, png_signature, spec_png_rgba8};
use crate::text::push_str_chars;

verus! {

broadcast use vstd::string::group_string_axioms;

/// A rendered frame.
pub struct RenderOutput {
    pub width: u32,
    pub height: u32,
    /// The frame as a PNG file.
    pub png: Vec<u8>,
    /// width*height*4 bytes, row-major, top-left origin.
    pub rgba: Vec<u8>,
    /// The graphics backend that produced the frame.
    pub backend: String,
}

/// Why a render failed.
pub enum RenderError {
    /// No graphics adapter (hardware or software) is available.
    NoAdapter,
    /// The shader could not be turned into a fragment module.
    ShaderCompile(String),
    /// The graphics device or the frame encoding failed.
    Gpu(String),
}

/// The byte offset of pixel `(x, y)` in a row-major RGBA buffer of the given width.
pub open spec fn pixel_offset(width: u32, x: u32, y: u32) -> int {
    (y * width + x) * 4
}

impl RenderOutput {
    /// The pixel buffer holds exactly `width * height` RGBA pixels.
    pub open spec fn is_well_formed(&self) -> bool {
        self.rgba@.len() == self.width * self.height * 4
    }

    /// RGBA of pixel (x,y), origin top-left.
    pub fn pixel(&self, x: u32, y: u32) -> (px: [u8; 4])
        requires
            pixel_offset(self.width, x, y) <= u32::MAX,
            pixel_offset(self.width, x, y) + 4 <= self.rgba@.len(),
        ensures
            px@ == self.rgba@.subrange(
                pixel_offset(self.width, x, y),
                pixel_offset(self.width, x, y) + 4,
            ),
    {
        proof {
            assert(y * self.width <= (y * self.width + x) * 4) by (nonlinear_arith)
                requires
                    (y * self.width + x) * 4 <= u32::MAX,
            ;
        }
        let i = ((y * self.width + x) * 4) as usize;
        let px = [self.rgba[i], self.rgba[i + 1], self.rgba[i + 2], self.rgba[i + 3]];
        assert(px@ =~= self.rgba@.subrange(i as int, i + 4));
        px
    }
}

/// In a well-formed frame whose byte size fits in `u32`, every pixel inside the
/// frame can be read.
pub proof fn lemma_pixel_readable(out: RenderOutput, x: u32, y: u32)
    requires
        out.is_well_formed(),
        out.width * out.height * 4 <= u32::MAX,
        x < out.width,
        y < out.height,
    ensures
        pixel_offset(out.width, x, y) <= u32::MAX,
        pixel_offset(out.width, x, y) + 4 <= out.rgba@.len(),
{
    assert((y * out.width + x) * 4 + 4 <= out.width * out.height * 4) by (nonlinear_arith)
        requires
            x < out.width,
            y < out.height,
    ;
}

/// The language a render uses: the one given, else the detected one.
pub open spec fn spec_render_lang(lang: Option<ShaderLang>, source: Seq<char>) -> ShaderLang {
    match lang {
        Some(l) => l,
        None => spec_detect_language(source),
    }
}

/// The language a render uses: the one given, else the detected one.
pub fn resolve_lang(lang: Option<ShaderLang>, source: &str) -> (l: ShaderLang)
    ensures
        l == spec_render_lang(lang, source@),
{
    match lang {
        Some(l) => l,
        None => detect_language(source),
    }
}

/// The source of a fragment module, in the language the graphics device reads.
pub enum FragmentSource {
    /// WGSL text, handed over unchanged.
    Wgsl(String),
    /// A complete GLSL fragment shader.
    Glsl(String),
}

/// The name that a language's `Debug` form prints.
pub open spec fn lang_debug_name(lang: ShaderLang) -> Seq<char> {
    match lang {
        ShaderLang::Glsl => "Glsl"@,
        ShaderLang::Wgsl => "Wgsl"@,
        ShaderLang::Hlsl => "Hlsl"@,
        ShaderLang::SpirV => "SpirV"@,
    }
}

/// The fragment module source for a render in language `lang`: WGSL as given,
/// GLSL wrapped into a complete shader; HLSL and SPIR-V are refused with
/// `ShaderCompile("unsupported render language <Lang>")`.
pub fn fragment_source(lang: ShaderLang, source: &str) -> (r: Result<FragmentSource, RenderError>)
    ensures
        match lang {
            ShaderLang::Wgsl => r matches Ok(FragmentSource::Wgsl(s)) && s@ == source@,
            ShaderLang::Glsl => r matches Ok(FragmentSource::Glsl(s)) && s@
                == spec_wrap_shadertoy_fragment(source@),
            _ => r matches Err(RenderError::ShaderCompile(m)) && m@
                == "unsupported render language "@ + lang_debug_name(lang),
        },
{
    match lang {
        ShaderLang::Wgsl => {
            let mut s = String::new();
            push_str_chars(&mut s, source);
            Ok(FragmentSource::Wgsl(s))
        },
        ShaderLang::Glsl => Ok(FragmentSource::Glsl(wrap_shadertoy_fragment(source))),
        ShaderLang::Hlsl => {
            let mut m = String::new();
            push_str_chars(&mut m, "unsupported render language ");
            push_str_chars(&mut m, "Hlsl");
            Err(RenderError::ShaderCompile(m))
        },
        ShaderLang::SpirV => {
            let mut m = String::new();
            push_str_chars(&mut m, "unsupported render language ");
            push_str_chars(&mut m, "SpirV");
            Err(RenderError::ShaderCompile(m))
        },
    }
}

/// The smallest multiple of 256 that is at least `n`.
pub open spec fn round_up_256(n: int) -> int {
    if n % 256 == 0 {
        n
    } else {
        n + (256 - n % 256)
    }
}

/// Bytes per row of the readback buffer: a row of RGBA pixels rounded up to
/// the 256-byte alignment that texture copies demand.
pub fn padded_bytes_per_row(width: u32) -> (bpr: u32)
    requires
        round_up_256(width * 4) <= u32::MAX,
    ensures
        bpr == round_up_256(width * 4),
        bpr % 256 == 0,
        width * 4 <= bpr < width * 4 + 256,
{
    let n = width * 4;
    if n % 256 == 0 {
        n
    } else {
        n + (256 - n % 256)
    }
}

/// Size in bytes of a readback buffer of `height` rows of `bpr` bytes.
pub fn readback_size(bpr: u32, height: u32) -> (size: u64)
    requires
        bpr * height <= u32::MAX,
    ensures
        size == bpr * height,
{
    (bpr * height) as u64
}

/// The first `rows` rows of a padded buffer, each cut to its `row_bytes` bytes of
/// pixels, one after another.
pub open spec fn unpadded_rows(data: Seq<u8>, row_bytes: int, bpr: int, rows: int) -> Seq<u8>
    decreases rows,
{
    if rows <= 0 {
        Seq::empty()
    } else {
        unpadded_rows(data, row_bytes, bpr, rows - 1) + data.subrange(
            (rows - 1) * bpr,
            (rows - 1) * bpr + row_bytes,
        )
    }
}

/// Every row of the padded buffer lies within it, and row offsets fit in `u32`.
pub open spec fn readback_fits(data_len: int, width: u32, height: u32, bpr: u32) -> bool {
    &&& width * 4 <= u32::MAX
    &&& height > 0 ==> (height - 1) * bpr <= u32::MAX
    &&& height > 0 ==> (height - 1) * bpr + width * 4 <= data_len
}

proof fn lemma_row_offset(row: int, height: int, bpr: int, row_bytes: int)
    requires
        0 <= row < height,
        0 <= bpr,
        0 <= row_bytes,
    ensures
        row * bpr <= (height - 1) * bpr,
        row * bpr + row_bytes <= (height - 1) * bpr + row_bytes,
{
    assert(row * bpr <= (height - 1) * bpr) by (nonlinear_arith)
        requires
            0 <= row <= height - 1,
            0 <= bpr,
    ;
}

proof fn lemma_unpadded_len(data: Seq<u8>, row_bytes: int, bpr: int, rows: int)
    requires
        0 <= rows,
        0 <= row_bytes,
        0 <= bpr,
        rows > 0 ==> (rows - 1) * bpr + row_bytes <= data.len(),
    ensures
        unpadded_rows(data, row_bytes, bpr, rows).len() == rows * row_bytes,
    decreases rows,
{
    if rows > 0 {
        assert(0 <= (rows - 1) * bpr) by (nonlinear_arith)
            requires
                rows >= 1,
                bpr >= 0,
        ;
        if rows > 1 {
            assert((rows - 2) * bpr <= (rows - 1) * bpr) by (nonlinear_arith)
                requires
                    bpr >= 0,
            ;
        }
        lemma_unpadded_len(data, row_bytes, bpr, rows - 1);
        let piece = data.subrange((rows - 1) * bpr, (rows - 1) * bpr + row_bytes);
        assert(piece.len() == row_bytes);
        assert(unpadded_rows(data, row_bytes, bpr, rows) == unpadded_rows(data, row_bytes, bpr, rows - 1) + piece);
        assert((rows - 1) * row_bytes + row_bytes == rows * row_bytes) by (nonlinear_arith);
    } else {
        assert(rows * row_bytes == 0) by (nonlinear_arith)
            requires
                rows == 0,
        ;
    }
}

/// Copy the pixel bytes of each row out of a readback buffer whose rows are
/// `bpr` bytes apart, dropping the padding at the end of each row.
pub fn unpad_rows(data: &[u8], width: u32, height: u32, bpr: u32) -> (rgba: Vec<u8>)
    requires
        readback_fits(data@.len() as int, width, height, bpr),
    ensures
        rgba@ == unpadded_rows(data@, width * 4, bpr as int, height as int),
        rgba@.len() == width * 4 * height,
{
    let row_bytes = width * 4;
    let mut rgba: Vec<u8> = Vec::new();
    let mut row: u32 = 0;
    let dlen = data.len();
    while row < height
        invariant
            row <= height,
            row_bytes == width * 4,
            dlen == data@.len(),
            readback_fits(data@.len() as int, width, height, bpr),
            rgba@ == unpadded_rows(data@, row_bytes as int, bpr as int, row as int),
        decreases height - row,
    {
        proof {
            lemma_row_offset(row as int, height as int, bpr as int, row_bytes as int);
        }
        let start = (row * bpr) as usize;
        let end = start + row_bytes as usize;
        let ghost before = rgba@;
        let mut k = start;
        while k < end
            invariant
                start <= k <= end,
                end <= dlen,
                dlen == data@.len(),
                rgba@ == before + data@.subrange(start as int, k as int),
            decreases end - k,
        {
            rgba.push(data[k]);
            assert(before + data@.subrange(start as int, k as int).push(data@[k as int]) =~= before
                + data@.subrange(start as int, k + 1));
            k += 1;
        }
        row += 1;
    }
    proof {
        lemma_unpadded_len(data@, row_bytes as int, bpr as int, height as int);
        assert(width * 4 * height == height * (width * 4)) by (nonlinear_arith);
    }
    rgba
}

/// Without padding the unpadded rows are the buffer's first `rows * row_bytes` bytes.
pub proof fn lemma_unpad_without_padding(data: Seq<u8>, row_bytes: int, rows: int)
    requires
        0 <= rows,
        0 <= row_bytes,
        rows * row_bytes <= data.len(),
    ensures
        unpadded_rows(data, row_bytes, row_bytes, rows) == data.take(rows * row_bytes),
    decreases rows,
{
    if rows > 0 {
        assert((rows - 1) * row_bytes + row_bytes == rows * row_bytes) by (nonlinear_arith);
        assert((rows - 1) * row_bytes >= 0) by (nonlinear_arith)
            requires
                rows >= 1,
                row_bytes >= 0,
        ;
        assert((rows - 1) * row_bytes <= rows * row_bytes) by (nonlinear_arith)
            requires
                row_bytes >= 0,
        ;
        lemma_unpad_without_padding(data, row_bytes, rows - 1);
        assert(data.take((rows - 1) * row_bytes) + data.subrange(
            (rows - 1) * row_bytes,
            rows * row_bytes,
        ) =~= data.take(rows * row_bytes));
    } else {
        assert(rows * row_bytes == 0) by (nonlinear_arith)
            requires
                rows == 0,
        ;
        assert(data.take(0) =~= Seq::<u8>::empty());
    }
}

/// Each byte of the unpadded frame comes from its row and column in the padded
/// buffer: byte `c` of row `r` is byte `r * bpr + c` of the buffer.
pub proof fn lemma_unpadded_byte(data: Seq<u8>, row_bytes: int, bpr: int, rows: int, r: int, c: int)
    requires
        0 <= r < rows,
        0 <= c < row_bytes,
        0 <= bpr,
        (rows - 1) * bpr + row_bytes <= data.len(),
    ensures
        unpadded_rows(data, row_bytes, bpr, rows)[r * row_bytes + c] == data[r * bpr + c],
    decreases rows,
{
    assert((rows - 2) * bpr <= (rows - 1) * bpr) by (nonlinear_arith)
        requires
            bpr >= 0,
    ;
    lemma_unpadded_len(data, row_bytes, bpr, rows - 1);
    assert(0 <= (rows - 1) * bpr) by (nonlinear_arith)
        requires
            bpr >= 0,
            rows >= 1,
    ;
    if r < rows - 1 {
        lemma_unpadded_byte(data, row_bytes, bpr, rows - 1, r, c);
        assert(r * row_bytes + c < (rows - 1) * row_bytes) by (nonlinear_arith)
            requires
                0 <= r < rows - 1,
                0 <= c < row_bytes,
        ;
    } else {
        assert(r * row_bytes + c - (rows - 1) * row_bytes == c) by (nonlinear_arith)
            requires
                r == rows - 1,
        ;
    }
}

/// The frame with its PNG encoding: a buffer shorter than `width * height * 4`
/// bytes is `Gpu("buffer size mismatch")`, an encoding failure is `Gpu` with the
/// encoder's message.
pub fn encode_frame(width: u32, height: u32, rgba: Vec<u8>, backend: String) -> (r: Result<
    RenderOutput,
    RenderError,
>)
    requires
        rgba@.len() <= width * height * 4,
    ensures
        rgba@.len() < width * height * 4 ==> (r matches Err(RenderError::Gpu(m)) && m@
            == "buffer size mismatch"@),
        rgba@.len() == width * height * 4 ==> match spec_png_rgba8(width, height, rgba@) {
            Ok(png) => r matches Ok(out) && out.width == width && out.height == height && out.png@
                == png && out.rgba@ == rgba@ && out.backend == backend && out.is_well_formed(),
            Err(msg) => r matches Err(RenderError::Gpu(m)) && m@ == msg,
        },
        rgba@.len() == width * height * 4 && width > 0 && height > 0 ==> r is Ok,
        r matches Ok(out) ==> out.png@.len() >= 8 && out.png@.take(8) == png_signature(),
{
    proof {
        assert((width as int) * (height as int) <= 0xFFFF_FFFFint * 0xFFFF_FFFFint)
            by (nonlinear_arith)
            requires
                width <= 0xFFFF_FFFFint,
                height <= 0xFFFF_FFFFint,
                width >= 0,
                height >= 0,
        ;
    }
    let n = rgba.len();
    let wh: u64 = width as u64 * height as u64;
    let enough = match wh.checked_mul(4) {
        Some(expected) => n as u64 >= expected,
        None => false,
    };
    if !enough {
        let mut m = String::new();
        push_str_chars(&mut m, "buffer size mismatch");
        return Err(RenderError::Gpu(m));
    }
    let copy = rgba.clone();
    match encode_png_rgba8(width, height, copy) {
        Ok(png) => Ok(RenderOutput { width, height, png, rgba, backend }),
        Err(msg) => Err(RenderError::Gpu(msg)),
    }
}

/// The RGBA buffer of a `cw` x `ch` canvas after a `tw` x `th` tile is laid over it
/// at `(x, y)` by `image::imageops::overlay`, which blends each tile pixel onto the
/// canvas pixel beneath it.
pub uninterp spec fn spec_overlay_rgba(
    canvas: Seq<u8>,
    cw: u32,
    ch: u32,
    tile: Seq<u8>,
    tw: u32,
    th: u32,
    x: i64,
    y: i64,
) -> Seq<u8>;

/// The index of channel `c` of pixel `(px, py)` in a row-major RGBA buffer of
/// rows `w` pixels wide.
pub open spec fn byte_at(w: int, px: int, py: int, c: int) -> int {
    (py * w + px) * 4 + c
}

/// What overlaying keeps and what it copies, pixel by pixel: a canvas pixel
/// outside the tile's rectangle, or under a fully transparent tile pixel, is
/// unchanged; under a fully opaque tile pixel it becomes that tile pixel.
pub open spec fn overlay_keeps_and_copies(
    canvas: Seq<u8>,
    cw: int,
    ch: int,
    tile: Seq<u8>,
    tw: int,
    th: int,
    x: int,
    y: int,
    r: Seq<u8>,
) -> bool {
    forall|px: int, py: int, c: int|
        #![trigger r[byte_at(cw, px, py, c)]]
        0 <= px < cw && 0 <= py < ch && 0 <= c < 4 ==> {
            let inside = x <= px < x + tw && y <= py < y + th;
            let a = tile[byte_at(tw, px - x, py - y, 3)];
            &&& (!inside || a == 0) ==> r[byte_at(cw, px, py, c)] == canvas[byte_at(cw, px, py, c)]
            &&& (inside && a == 255) ==> r[byte_at(cw, px, py, c)] == tile[byte_at(
                tw,
                px - x,
                py - y,
                c,
            )]
        }
}

/// Lays a tile over a canvas with `image::imageops::overlay`, both taken as
/// `image::RgbaImage`s through `from_raw` and the canvas given back through
/// `into_raw`. Claimed: the result is `spec_overlay_rgba` of the arguments and
/// has the canvas's length (`overlay` writes the canvas in place); `overlay`
/// visits exactly the canvas pixels covered by the tile, each pixel's `blend`
/// leaves it as it was under a tile pixel of alpha 0 and replaces it by the tile
/// pixel under alpha 255 (`overlay_keeps_and_copies`). Partly transparent
/// blending, computed in floats, is not spelled out.
#[verifier::external_body]
fn overlay_rgba(
    canvas: Vec<u8>,
    cw: u32,
    ch: u32,
    tile: Vec<u8>,
    tw: u32,
    th: u32,
    x: i64,
    y: i64,
) -> (r: Vec<u8>)
    requires
        canvas@.len() == cw * ch * 4,
        tile@.len() >= tw * th * 4,
    ensures
        r@ == spec_overlay_rgba(canvas@, cw, ch, tile@, tw, th, x, y),
        r@.len() == canvas@.len(),
        overlay_keeps_and_copies(
            canvas@,
            cw as int,
            ch as int,
            tile@,
            tw as int,
            th as int,
            x as int,
            y as int,
            r@,
        ),
{
    let mut c = image::RgbaImage::from_raw(cw, ch, canvas).expect("canvas of cw*ch*4 bytes");
    let t = image::RgbaImage::from_raw(tw, th, tile).expect("tile of at least tw*th*4 bytes");
    image::imageops::overlay(&mut c, &t, x, y);
    c.into_raw()
}

/// The pixel buffers of a list of frames.
pub open spec fn frame_buffers(tiles: Seq<Vec<u8>>) -> Seq<Seq<u8>> {
    tiles.map_values(|t: Vec<u8>| t@)
}

/// The montage canvas after the first `k` of `n` frames of `fw` x `fh` pixels are
/// laid left to right, frame `i` at x = `i * fw`, over a blank (all-zero) canvas
/// of `fw * n` x `fh` pixels.
pub open spec fn montage_canvas(fw: u32, fh: u32, n: int, tiles: Seq<Seq<u8>>, k: int) -> Seq<u8>
    decreases k,
{
    if k <= 0 {
        Seq::new((fw * n * fh * 4) as nat, |i: int| 0u8)
    } else {
        spec_overlay_rgba(
            montage_canvas(fw, fh, n, tiles, k - 1),
            (fw * n) as u32,
            fh,
            tiles[k - 1],
            fw,
            fh,
            ((k - 1) * fw) as i64,
            0,
        )
    }
}

/// The index in a montage of `n` frames of `fw` pixels' width of channel `c` of
/// pixel `(tx, ty)` of frame `i`.
pub open spec fn montage_byte(fw: int, n: int, i: int, tx: int, ty: int, c: int) -> int {
    byte_at(fw * n, i * fw + tx, ty, c)
}

/// Frames `0..k` landed in the montage `canvas`: each opaque frame pixel is found
/// unchanged at its place in the frame's column, and each fully transparent one
/// left the blank canvas blank.
pub open spec fn frames_landed(
    canvas: Seq<u8>,
    fw: int,
    fh: int,
    n: int,
    tiles: Seq<Seq<u8>>,
    k: int,
) -> bool {
    forall|i: int, tx: int, ty: int, c: int|
        #![trigger canvas[montage_byte(fw, n, i, tx, ty, c)]]
        0 <= i < k && 0 <= tx < fw && 0 <= ty < fh && 0 <= c < 4 ==> {
            let a = tiles[i][byte_at(fw, tx, ty, 3)];
            &&& a == 255 ==> canvas[montage_byte(fw, n, i, tx, ty, c)] == tiles[i][byte_at(
                fw,
                tx,
                ty,
                c,
            )]
            &&& a == 0 ==> canvas[montage_byte(fw, n, i, tx, ty, c)] == 0
        }
}

/// Every byte of the pixels of `canvas` (rows `w` wide, `h` high) from column
/// `from` on is zero.
pub open spec fn blank_from(canvas: Seq<u8>, w: int, h: int, from: int) -> bool {
    forall|px: int, py: int, c: int|
        #![trigger canvas[byte_at(w, px, py, c)]]
        from <= px < w && 0 <= py < h && 0 <= c < 4 ==> canvas[byte_at(w, px, py, c)] == 0
}

proof fn lemma_byte_at_in_range(w: int, h: int, px: int, py: int, c: int)
    requires
        0 <= px < w,
        0 <= py < h,
        0 <= c < 4,
    ensures
        0 <= byte_at(w, px, py, c) < w * h * 4,
{
    assert(0 <= (py * w + px) * 4 + c < w * h * 4) by (nonlinear_arith)
        requires
            0 <= px < w,
            0 <= py < h,
            0 <= c < 4,
    ;
}

proof fn lemma_column_order(i: int, j: int, fw: int, tx: int)
    requires
        0 <= i,
        i < j,
        0 <= tx < fw,
    ensures
        i * fw + tx < j * fw,
{
    assert(i * fw + tx < j * fw) by (nonlinear_arith)
        requires
            0 <= i < j,
            0 <= tx < fw,
    ;
}

/// Lay equally sized frames left to right onto one blank canvas, frame `i` at
/// x = `i * frame_width`.
pub fn montage(frame_width: u32, frame_height: u32, tiles: &Vec<Vec<u8>>) -> (rgba: Vec<u8>)
    requires
        1 <= tiles@.len() <= u32::MAX,
        forall|i: int| 0 <= i < tiles@.len() ==> #[trigger] tiles@[i]@.len() >= frame_width * frame_height * 4,
        frame_width * tiles@.len() <= u32::MAX,
        frame_width * tiles@.len() * frame_height * 4 <= usize::MAX,
    ensures
        rgba@ == montage_canvas(
            frame_width,
            frame_height,
            tiles@.len() as int,
            frame_buffers(tiles@),
            tiles@.len() as int,
        ),
        rgba@.len() == frame_width * tiles@.len() * frame_height * 4,
        frames_landed(
            rgba@,
            frame_width as int,
            frame_height as int,
            tiles@.len() as int,
            frame_buffers(tiles@),
            tiles@.len() as int,
        ),
{
    let n = tiles.len();
    let ghost views = frame_buffers(tiles@);
    let ghost fw = frame_width as int;
    let ghost fh = frame_height as int;
    let total_w: u32 = frame_width * (n as u32);
    proof {
        assert((total_w as int) * fh <= (total_w as int) * fh * 4) by (nonlinear_arith)
            requires
                total_w >= 0,
                fh >= 0,
        ;
    }
    let size: usize = (total_w as usize) * (frame_height as usize) * 4;
    let mut canvas: Vec<u8> = Vec::new();
    let mut k: usize = 0;
    while k < size
        invariant
            k <= size,
            canvas@.len() == k,
            forall|j: int| 0 <= j < k ==> canvas@[j] == 0u8,
        decreases size - k,
    {
        canvas.push(0);
        k += 1;
    }
    assert(canvas@ =~= montage_canvas(frame_width, frame_height, n as int, views, 0));
    assert forall|px: int, py: int, c: int|
        0 <= px < total_w && 0 <= py < fh && 0 <= c < 4 implies canvas@[byte_at(
        total_w as int,
        px,
        py,
        c,
    )] == 0 by {
        lemma_byte_at_in_range(total_w as int, fh, px, py, c);
    }
    let mut i: usize = 0;
    while i < n
        invariant
            n == tiles@.len(),
            i <= n,
            fw == frame_width,
            fh == frame_height,
            total_w == frame_width * n,
            n <= u32::MAX,
            frame_width * n <= u32::MAX,
            views == frame_buffers(tiles@),
            forall|j: int| 0 <= j < tiles@.len() ==> #[trigger] tiles@[j]@.len() >= frame_width * frame_height * 4,
            canvas@ == montage_canvas(frame_width, frame_height, n as int, views, i as int),
            canvas@.len() == total_w * frame_height * 4,
            frames_landed(canvas@, fw, fh, n as int, views, i as int),
            blank_from(canvas@, total_w as int, fh, i * fw),
        decreases n - i,
    {
        proof {
            assert((i as int) * fw + fw <= fw * n) by (nonlinear_arith)
                requires
                    i < n,
                    fw >= 0,
            ;
        }
        let x: u32 = (i as u32) * frame_width;
        let tile = tiles[i].clone();
        assert(tile@ == views[i as int]);
        let ghost old_canvas = canvas@;
        canvas = overlay_rgba(canvas, total_w, frame_height, tile, frame_width, frame_height, x as i64, 0);
        proof {
            let w = total_w as int;
            let xi = x as int;
            assert(xi == i * fw);
            assert(((i + 1) as int) * fw == i * fw + fw) by (nonlinear_arith);
            assert forall|px: int, py: int, c: int|
                i * fw + fw <= px < w && 0 <= py < fh && 0 <= c < 4 implies canvas@[byte_at(
                w,
                px,
                py,
                c,
            )] == 0 by {
                assert(canvas@[byte_at(w, px, py, c)] == old_canvas[byte_at(w, px, py, c)]);
                assert(old_canvas[byte_at(w, px, py, c)] == 0);
            }
            let nn = n as int;
            assert forall|j: int, tx: int, ty: int, c: int|
                #![trigger canvas@[montage_byte(fw, nn, j, tx, ty, c)]]
                0 <= j < i + 1 && 0 <= tx < fw && 0 <= ty < fh && 0 <= c < 4 implies {
                let a = views[j][byte_at(fw, tx, ty, 3)];
                &&& a == 255 ==> canvas@[montage_byte(fw, n as int, j, tx, ty, c)]
                    == views[j][byte_at(fw, tx, ty, c)]
                &&& a == 0 ==> canvas@[montage_byte(fw, n as int, j, tx, ty, c)] == 0
            } by {
                let px = j * fw + tx;
                assert(montage_byte(fw, n as int, j, tx, ty, c) == byte_at(w, px, ty, c));
                if j < i {
                    lemma_column_order(j, i as int, fw, tx);
                    assert(canvas@[byte_at(w, px, ty, c)] == old_canvas[byte_at(w, px, ty, c)]);
                    assert(old_canvas[montage_byte(fw, n as int, j, tx, ty, c)]
                        == old_canvas[byte_at(w, px, ty, c)]);
                } else {
                    assert(j == i);
                    assert(px - xi == tx);
                    assert(old_canvas[byte_at(w, px, ty, c)] == 0);
                    let g = canvas@[byte_at(w, px, ty, c)];
                    assert(g == canvas@[byte_at(w, px, ty, c)]);
                }
            }
        }
        i += 1;
    }
    canvas
}

/// The number of frames an animation renders: at least one.
pub fn animation_frame_count(frames: u32) -> (n: u32)
    ensures
        n == if frames >= 1 {
            frames
        } else {
            1
        },
{
    if frames >= 1 {
        frames
    } else {
        1
    }
}

/// The pixel buffers of rendered frames.
pub open spec fn frame_pixels(frames: Seq<RenderOutput>) -> Seq<Seq<u8>> {
    frames.map_values(|f: RenderOutput| f.rgba@)
}

/// The animation montage of rendered frames of `frame_width` x `frame_height`:
/// the frames laid left to right, encoded as PNG, with the first frame's backend.
/// It is encoded whenever the frames have pixels.
pub fn animation_output(frame_width: u32, frame_height: u32, frames: Vec<RenderOutput>) -> (r: Result<
    RenderOutput,
    RenderError,
>)
    requires
        1 <= frames@.len() <= u32::MAX,
        forall|i: int| 0 <= i < frames@.len() ==> #[trigger] frames@[i].rgba@.len() >= frame_width * frame_height * 4,
        frame_width * frames@.len() <= u32::MAX,
        frame_width * frames@.len() * frame_height * 4 <= usize::MAX,
    ensures
        ({
            let n = frames@.len() as int;
            let canvas = montage_canvas(frame_width, frame_height, n, frame_pixels(frames@), n);
            match spec_png_rgba8((frame_width * n) as u32, frame_height, canvas) {
                Ok(png) => r matches Ok(out) && out.width == frame_width * n && out.height
                    == frame_height && out.rgba@ == canvas && out.png@ == png && out.backend
                    == frames@[0].backend,
                Err(msg) => r matches Err(RenderError::Gpu(m)) && m@ == msg,
            }
        }),
        frame_width > 0 && frame_height > 0 ==> r is Ok,
        r matches Ok(out) ==> {
            &&& out.rgba@.len() == out.width * out.height * 4
            &&& frames_landed(
                out.rgba@,
                frame_width as int,
                frame_height as int,
                frames@.len() as int,
                frame_pixels(frames@),
                frames@.len() as int,
            )
            &&& out.png@.len() >= 8 && out.png@.take(8) == png_signature()
        },
{
    let n = frames.len();
    let mut buffers: Vec<Vec<u8>> = Vec::new();
    let mut i: usize = 0;
    while i < n
        invariant
            n == frames@.len(),
            i <= n,
            buffers@.len() == i,
            forall|j: int| 0 <= j < i ==> #[trigger] buffers@[j]@ == frames@[j].rgba@,
        decreases n - i,
    {
        buffers.push(frames[i].rgba.clone());
        i += 1;
    }
    assert(frame_buffers(buffers@) =~= frame_pixels(frames@));
    let rgba = montage(frame_width, frame_height, &buffers);
    let total_w: u32 = frame_width * (n as u32);
    proof {
        if frame_width > 0 {
            assert(total_w > 0) by (nonlinear_arith)
                requires
                    total_w == frame_width * n,
                    frame_width > 0,
                    n >= 1,
            ;
        }
    }
    let backend = frames[0].backend.clone();
    encode_frame(total_w, frame_height, rgba, backend)
}

} // verus!
