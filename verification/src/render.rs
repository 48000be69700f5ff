//! Presenting of frames: the seam that a renderer fills, and what is uploaded for a frame.
use vstd::prelude::*;
use vstd::string::*;

use crate::bytes::push_slice;
use crate::decode::frame::{
    half_up, law_valid_frame_rows, planes_of, ColorSpace, PixelFormat, VideoFrame,
};
use crate::text::copy_str;

verus! {

/// Why a frame was not presented.
#[derive(Debug, Clone, PartialEq, Eq)]
pub enum RenderError {
    NoBackend,
    Failed(String),
}

/// The text that describes an error.
pub open spec fn render_error_text(e: RenderError) -> Seq<char> {
    match e {
        RenderError::NoBackend => "no renderer backend available for this platform yet"@,
        RenderError::Failed(why) => "present failed: "@ + why@,
    }
}

impl RenderError {
    /// The text that describes this error.
    pub fn message(&self) -> (r: String)
        ensures
            r@ == render_error_text(*self),
    {
        match self {
            RenderError::NoBackend => copy_str(
                "no renderer backend available for this platform yet",
            ),
            RenderError::Failed(why) => {
                let mut s: String = copy_str("present failed: ");
                s.append(why.as_str());
                s
            },
        }
    }
}

/// The colour pipeline of a display.
#[derive(Debug, Clone, Copy, PartialEq, Eq, Structural)]
pub enum ColorMode {
    Bt709Sdr,
    Hdr10Bt2020Pq,
}

/// A display for decoded frames.
pub trait Renderer {
    fn set_color_mode(&mut self, mode: ColorMode);

    /// Present one frame; it has been submitted when this returns.
    fn present(&mut self, frame: &VideoFrame) -> Result<(), RenderError>;
}

/// Row `y` of a plane: `row` bytes, `stride` bytes from one row to the next.
pub open spec fn row_of(src: Seq<u8>, stride: int, row: int, y: int) -> Seq<u8> {
    src.subrange(y * stride, y * stride + row)
}

/// The first `n` rows of a plane without what pads them.
pub open spec fn packed_rows(src: Seq<u8>, stride: int, row: int, n: nat) -> Seq<u8>
    decreases n,
{
    if n == 0 {
        Seq::empty()
    } else {
        packed_rows(src, stride, row, (n - 1) as nat) + row_of(src, stride, row, n - 1)
    }
}

/// Whether `rows` rows of `row` bytes, `stride` bytes apart, lie within `len` bytes.
pub open spec fn rows_fit(len: nat, stride: int, row: int, rows: nat) -> bool {
    rows == 0 || (rows - 1) * stride + row <= len
}

/// Take what pads the rows of a plane out: `rows` rows of `row` bytes, `stride` bytes apart.
pub fn pack_rows(src: &[u8], stride: usize, row: usize, rows: usize) -> (r: Vec<u8>)
    requires
        rows_fit(src@.len(), stride as int, row as int, rows as nat),
    ensures
        r@ == packed_rows(src@, stride as int, row as int, rows as nat),
{
    let mut out: Vec<u8> = Vec::new();
    let mut i: usize = 0;
    while i < rows
        invariant
            i <= rows,
            rows_fit(src@.len(), stride as int, row as int, rows as nat),
            out@ == packed_rows(src@, stride as int, row as int, i as nat),
        decreases rows - i,
    {
        assert(0 <= i * stride <= (rows - 1) * stride) by (nonlinear_arith)
            requires
                0 <= i <= rows - 1,
                0 <= stride,
        ;
        assert(src@.len() == src.len());
        let start: usize = i * stride;
        push_slice(&mut out, vstd::slice::slice_subrange(src, start, start + row));
        i += 1;
    }
    out
}

/// A texture: its size in texels, the bytes of a texel, and its rows without padding.
#[derive(Debug, PartialEq, Eq)]
pub struct Texture {
    pub width: u32,
    pub height: u32,
    /// One for a single channel, two for interleaved chroma.
    pub bytes_per_texel: u32,
    pub data: Vec<u8>,
}

/// What is uploaded for a frame: the textures that the shader reads, and how it reads them.
#[derive(Debug, PartialEq, Eq)]
pub struct Upload {
    /// Luma, then chroma: interleaved and a filler, or one texture for each channel.
    pub textures: Vec<Texture>,
    /// Zero for interleaved chroma, one for chroma in separate planes.
    pub format: u32,
    /// Zero for samples of limited range, one for full range.
    pub full_range: u32,
}

/// Whether `t` is plane `index` of `f` as a texture.
pub open spec fn shows_plane(t: Texture, f: VideoFrame, index: int) -> bool {
    &&& t.width == f.plane_extent(index, f.width)
    &&& t.height == f.plane_extent(index, f.height)
    &&& t.bytes_per_texel == if f.format == PixelFormat::Nv12 && index == 1 {
        2u32
    } else {
        1u32
    }
    &&& t.data@ == packed_rows(
        f.planes@[index].data@,
        f.planes@[index].stride as int,
        f.row_bytes(index) as int,
        f.plane_extent(index, f.height),
    )
}

/// Whether `t` is the texture that fills a place that the shader does not read.
pub open spec fn is_filler(t: Texture) -> bool {
    t.width == 1 && t.height == 1 && t.bytes_per_texel == 1 && t.data@ == seq![128u8]
}

/// Whether `u` is what is uploaded for `f`.
pub open spec fn uploads(u: Upload, f: VideoFrame) -> bool {
    &&& u.textures@.len() == 3
    &&& forall|i: int|
        0 <= i < planes_of(f.format) ==> shows_plane(#[trigger] u.textures@[i], f, i)
    &&& f.format == PixelFormat::Nv12 ==> is_filler(u.textures@[2])
    &&& u.format == match f.format {
        PixelFormat::Nv12 => 0u32,
        PixelFormat::I420 => 1u32,
    }
    &&& u.full_range == if f.color_space == ColorSpace::Bt709Full {
        1u32
    } else {
        0u32
    }
}

/// Plan the upload of a frame. A frame that is not valid is refused.
pub fn plan_upload(frame: &VideoFrame) -> (r: Result<Upload, RenderError>)
    requires
        2 * half_up(frame.width) <= usize::MAX,
        frame.height <= usize::MAX,
    ensures
        match frame.problem() {
            Some(why) => r matches Err(RenderError::Failed(s)) && s@ == "invalid frame: "@ + why,
            None => r matches Ok(u) && uploads(u, *frame),
        },
{
    match frame.validate() {
        Ok(()) => {},
        Err(why) => {
            let mut s: String = copy_str("invalid frame: ");
            s.append(why.as_str());
            return Err(RenderError::Failed(s));
        },
    }
    let count: usize = VideoFrame::plane_count(frame.format);
    let mut textures: Vec<Texture> = Vec::with_capacity(3);
    let mut i: usize = 0;
    while i < count
        invariant
            i <= count,
            count == planes_of(frame.format),
            frame.problem() is None,
            2 * half_up(frame.width) <= usize::MAX,
            frame.height <= usize::MAX,
            textures@.len() == i,
            forall|j: int| 0 <= j < i ==> shows_plane(#[trigger] textures@[j], *frame, j),
        decreases count - i,
    {
        let rows: u32 = frame.plane_rows(i);
        let row: usize = frame.plane_min_stride(i);
        let interleaved = match frame.format {
            PixelFormat::Nv12 => i == 1,
            PixelFormat::I420 => false,
        };
        proof {
            lemma_plane_present(*frame);
            if rows > 0 {
                law_valid_frame_rows(*frame, i as int, rows - 1);
            }
        }
        let plane = &frame.planes[i];
        let data: Vec<u8> = pack_rows(&plane.data, plane.stride, row, rows as usize);
        textures.push(
            Texture {
                width: frame.plane_sample_width(i),
                height: rows,
                bytes_per_texel: if interleaved {
                    2
                } else {
                    1
                },
                data,
            },
        );
        i += 1;
    }
    let format: u32 = match frame.format {
        PixelFormat::Nv12 => 0,
        PixelFormat::I420 => 1,
    };
    if format == 0 {
        let mut grey: Vec<u8> = Vec::with_capacity(1);
        grey.push(128);
        assert(grey@ =~= seq![128u8]);
        textures.push(Texture { width: 1, height: 1, bytes_per_texel: 1, data: grey });
    }
    let full_range: u32 = match frame.color_space {
        ColorSpace::Bt709Full => 1,
        _ => 0,
    };
    Ok(Upload { textures, format, full_range })
}

/// The bytes that pad the rows of a plane do not show: planes with the same rows give the same
/// texture, whatever their strides.
pub proof fn law_padding_does_not_show(
    a: Seq<u8>,
    stride_a: int,
    b: Seq<u8>,
    stride_b: int,
    row: nat,
    rows: nat,
)
    requires
        rows_fit(a.len(), stride_a, row as int, rows),
        rows_fit(b.len(), stride_b, row as int, rows),
        row <= stride_a,
        row <= stride_b,
        forall|y: int|
            0 <= y < rows ==> #[trigger] row_of(a, stride_a, row as int, y) == row_of(
                b,
                stride_b,
                row as int,
                y,
            ),
    ensures
        packed_rows(a, stride_a, row as int, rows) == packed_rows(b, stride_b, row as int, rows),
    decreases rows,
{
    if rows > 0 {
        let m = (rows - 1) as nat;
        assert(row_of(a, stride_a, row as int, m as int) == row_of(
            b,
            stride_b,
            row as int,
            m as int,
        ));
        if m > 0 {
            assert((m - 1) * stride_a + row <= m * stride_a + row && (m - 1) * stride_b + row <= m
                * stride_b + row) by (nonlinear_arith)
                requires
                    stride_a >= 0,
                    stride_b >= 0,
                    m > 0,
            ;
        }
        law_padding_does_not_show(a, stride_a, b, stride_b, row, m);
    }
}

/// A valid frame has every plane of its format.
proof fn lemma_plane_present(f: VideoFrame)
    requires
        f.problem() is None,
    ensures
        f.planes@.len() == planes_of(f.format),
{
}

/// The bytes from one row to the next where rows start at multiples of `align`.
pub fn padded_row(row: usize, align: usize) -> (r: Option<usize>)
    requires
        align > 0,
    ensures
        ({
            let n = (row + align - 1) / (align as int) * align;
            r == if n <= usize::MAX {
                Some(n as usize)
            } else {
                None
            }
        }),
{
    let n: u128 = (row as u128 + align as u128 - 1) / align as u128;
    assert(n * align <= row + align - 1) by (nonlinear_arith)
        requires
            align > 0,
            n == (row + align - 1) / (align as int),
    ;
    let bytes: u128 = n * align as u128;
    if bytes > usize::MAX as u128 {
        None
    } else {
        Some(bytes as usize)
    }
}

/// A texture shows the samples of its plane: the byte at `x` of row `y` is that at `x` of row `y` of
/// the plane, whatever the distance from one row to the next there.
pub proof fn law_texture(src: Seq<u8>, stride: nat, row: nat, rows: nat, x: int, y: int)
    requires
        rows_fit(src.len(), stride as int, row as int, rows),
        row <= stride,
        0 <= x < row,
        0 <= y < rows,
    ensures
        packed_rows(src, stride as int, row as int, rows).len() == rows * row,
        packed_rows(src, stride as int, row as int, rows)[y * row + x] == src[y * stride + x],
{
    lemma_packed(src, stride, row, rows);
    lemma_packed_at(src, stride, row, rows, x, y);
}

proof fn lemma_packed(src: Seq<u8>, stride: nat, row: nat, rows: nat)
    requires
        rows_fit(src.len(), stride as int, row as int, rows),
        row <= stride,
    ensures
        packed_rows(src, stride as int, row as int, rows).len() == rows * row,
    decreases rows,
{
    if rows > 0 {
        let m = (rows - 1) as nat;
        lemma_rows_before(src.len(), stride, row, rows);
        lemma_packed(src, stride, row, m);
        assert(m * row + row == rows * row) by (nonlinear_arith)
            requires
                m == rows - 1,
        ;
    } else {
        assert(0 * row == 0);
    }
}

proof fn lemma_rows_before(len: nat, stride: nat, row: nat, rows: nat)
    requires
        rows > 0,
        rows_fit(len, stride as int, row as int, rows),
        row <= stride,
    ensures
        rows_fit(len, stride as int, row as int, (rows - 1) as nat),
        0 <= (rows - 1) * stride,
        (rows - 1) * stride + row <= len,
{
    assert(0 <= (rows - 1) * stride) by (nonlinear_arith)
        requires
            rows > 0,
    ;
    if rows > 1 {
        assert((rows - 2) * stride + row <= (rows - 1) * stride + row) by (nonlinear_arith)
            requires
                rows > 1,
        ;
    }
}

proof fn lemma_packed_at(src: Seq<u8>, stride: nat, row: nat, rows: nat, x: int, y: int)
    requires
        rows_fit(src.len(), stride as int, row as int, rows),
        row <= stride,
        0 <= x < row,
        0 <= y < rows,
    ensures
        packed_rows(src, stride as int, row as int, rows)[y * row + x] == src[y * stride + x],
    decreases rows,
{
    let m = (rows - 1) as nat;
    lemma_rows_before(src.len(), stride, row, rows);
    lemma_packed(src, stride, row, m);
    if y < m {
        lemma_packed_at(src, stride, row, m, x, y);
        assert(0 <= y * row && y * row + x < m * row) by (nonlinear_arith)
            requires
                0 <= y < m,
                0 <= x < row,
        ;
    }
}

/// Rows that start at multiples of a number are the least distance apart that holds a row.
pub proof fn law_padded_row(row: nat, align: nat)
    requires
        align > 0,
    ensures
        ({
            let n = (row + align - 1) / (align as int) * align;
            n % (align as int) == 0 && row <= n < row + align
        }),
{
    let q = (row + align - 1) / (align as int);
    assert(q * align % (align as int) == 0 && row <= q * align < row + align) by (nonlinear_arith)
        requires
            align > 0,
            q == (row + align - 1) / (align as int),
    ;
}

} // verus!
