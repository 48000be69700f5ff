//! Decoded frames in memory: planar YUV with strides.
use vstd::prelude::*;
use vstd::string::*;

use crate::text::{copy_str, decimal, decimal_string, decimal_wide};

verus! {

/// The layout of the planes of a frame. Chroma has half the resolution in both directions.
#[derive(Debug, Clone, Copy, PartialEq, Eq, Structural)]
pub enum PixelFormat {
    /// Two planes: luma, then both chroma channels interleaved.
    Nv12,
    /// Three planes: luma, then one for each chroma channel.
    I420,
}

/// The colour matrix and range of a frame.
#[derive(Debug, Clone, Copy, PartialEq, Eq, Structural)]
pub enum ColorSpace {
    Bt709Limited,
    Bt709Full,
    Bt601Limited,
}

impl ColorSpace {
    /// What a stream has unless it says otherwise.
    pub const DEFAULT: ColorSpace = ColorSpace::Bt709Limited;
}

/// A plane: its bytes, and the number of bytes from one row to the next.
#[derive(Debug, Clone, PartialEq, Eq)]
pub struct Plane {
    pub data: Vec<u8>,
    pub stride: usize,
}

impl Plane {
    /// A plane of the given bytes.
    pub fn new(data: Vec<u8>, stride: usize) -> (r: Self)
        ensures
            r.data == data,
            r.stride == stride,
    {
        Plane { data, stride }
    }
}

/// A decoded frame.
#[derive(Debug, Clone, PartialEq, Eq)]
pub struct VideoFrame {
    /// Width in luma samples.
    pub width: u32,
    /// Height in luma samples.
    pub height: u32,
    pub format: PixelFormat,
    pub color_space: ColorSpace,
    /// Presentation timestamp, in the unit of the producer.
    pub pts: i64,
    pub planes: Vec<Plane>,
}

/// The number of planes of a format.
pub open spec fn planes_of(format: PixelFormat) -> nat {
    match format {
        PixelFormat::Nv12 => 2,
        PixelFormat::I420 => 3,
    }
}

/// Half of `n`, rounded up.
pub open spec fn half_up(n: u32) -> nat {
    ((n + 1) / 2) as nat
}

/// The name of a format.
pub open spec fn format_name(format: PixelFormat) -> Seq<char> {
    match format {
        PixelFormat::Nv12 => "Nv12"@,
        PixelFormat::I420 => "I420"@,
    }
}

impl VideoFrame {
    /// What a plane has of a dimension of the frame: luma all of it, chroma half of it rounded
    /// up, and a plane that the format does not have nothing.
    pub open spec fn plane_extent(self, index: int, full: u32) -> nat {
        if index == 0 {
            full as nat
        } else if 0 < index < planes_of(self.format) {
            half_up(full)
        } else {
            0
        }
    }

    /// The bytes that a row of a plane needs.
    pub open spec fn row_bytes(self, index: int) -> nat {
        if self.format == PixelFormat::Nv12 && index == 1 {
            2 * self.plane_extent(index, self.width)
        } else {
            self.plane_extent(index, self.width)
        }
    }

    /// What is wrong with plane `index`.
    pub open spec fn plane_problem(self, index: int) -> Option<Seq<char>> {
        let plane = self.planes@[index];
        let rows = self.plane_extent(index, self.height);
        if plane.stride < self.row_bytes(index) {
            Some(
                "plane "@ + decimal(index as nat) + " stride "@ + decimal(plane.stride as nat)
                    + " < minimum "@ + decimal(self.row_bytes(index)),
            )
        } else if plane.data@.len() < plane.stride * rows {
            Some(
                "plane "@ + decimal(index as nat) + " buffer "@ + decimal(plane.data@.len())
                    + " < required "@ + decimal(plane.stride as nat * rows) + " (stride "@
                    + decimal(plane.stride as nat) + " * rows "@ + decimal(rows) + ")"@,
            )
        } else {
            None
        }
    }

    /// The first problem among the first `n` planes.
    pub open spec fn problem_below(self, n: nat) -> Option<Seq<char>>
        decreases n,
    {
        if n == 0 {
            None
        } else {
            match self.problem_below((n - 1) as nat) {
                Some(t) => Some(t),
                None => self.plane_problem(n - 1),
            }
        }
    }

    /// What is wrong with the frame: the number of its planes, or the first plane that is too
    /// small.
    pub open spec fn problem(self) -> Option<Seq<char>> {
        if self.planes@.len() != planes_of(self.format) {
            Some(
                format_name(self.format) + " needs "@ + decimal(planes_of(self.format))
                    + " planes, got "@ + decimal(self.planes@.len()),
            )
        } else {
            self.problem_below(self.planes@.len())
        }
    }

    /// The number of planes of a format.
    pub fn plane_count(format: PixelFormat) -> (r: usize)
        ensures
            r == planes_of(format),
    {
        match format {
            PixelFormat::Nv12 => 2,
            PixelFormat::I420 => 3,
        }
    }

    /// Rows of a plane.
    pub fn plane_rows(&self, index: usize) -> (r: u32)
        ensures
            r == self.plane_extent(index as int, self.height),
    {
        if index == 0 {
            self.height
        } else if index < VideoFrame::plane_count(self.format) {
            self.height / 2 + self.height % 2
        } else {
            0
        }
    }

    /// Samples in a row of a plane; of interleaved chroma, pairs of samples.
    pub fn plane_sample_width(&self, index: usize) -> (r: u32)
        ensures
            r == self.plane_extent(index as int, self.width),
    {
        if index == 0 {
            self.width
        } else if index < VideoFrame::plane_count(self.format) {
            self.width / 2 + self.width % 2
        } else {
            0
        }
    }

    /// Bytes that a row of a plane needs.
    pub fn plane_min_stride(&self, index: usize) -> (r: usize)
        requires
            self.row_bytes(index as int) <= usize::MAX,
        ensures
            r == self.row_bytes(index as int),
    {
        let samples: usize = self.plane_sample_width(index) as usize;
        match self.format {
            PixelFormat::Nv12 => if index == 1 {
                samples * 2
            } else {
                samples
            },
            PixelFormat::I420 => samples,
        }
    }

    /// Check the number of planes and their sizes; the text says what is wrong.
    pub fn validate(&self) -> (r: Result<(), String>)
        ensures
            match self.problem() {
                None => r is Ok,
                Some(t) => r matches Err(s) && s@ == t,
            },
    {
        let expected: usize = VideoFrame::plane_count(self.format);
        if self.planes.len() != expected {
            let mut s: String = copy_str(
                match self.format {
                    PixelFormat::Nv12 => "Nv12",
                    PixelFormat::I420 => "I420",
                },
            );
            s.append(" needs ");
            s.append(decimal_string(expected as u64).as_str());
            s.append(" planes, got ");
            s.append(decimal_string(self.planes.len() as u64).as_str());
            return Err(s);
        }
        let mut i: usize = 0;
        while i < self.planes.len()
            invariant
                i <= self.planes.len(),
                self.planes@.len() == planes_of(self.format),
                self.problem_below(i as nat) is None,
            decreases self.planes.len() - i,
        {
            let plane = &self.planes[i];
            let samples: u64 = self.plane_sample_width(i) as u64;
            let min_stride: u64 = match self.format {
                PixelFormat::Nv12 => if i == 1 {
                    samples * 2
                } else {
                    samples
                },
                PixelFormat::I420 => samples,
            };
            assert(min_stride == self.row_bytes(i as int));
            let rows: u32 = self.plane_rows(i);
            if (plane.stride as u64) < min_stride {
                proof {
                    self.lemma_first_problem(i as nat, self.planes@.len());
                }
                let mut s: String = copy_str("plane ");
                s.append(decimal_string(i as u64).as_str());
                s.append(" stride ");
                s.append(decimal_string(plane.stride as u64).as_str());
                s.append(" < minimum ");
                s.append(decimal_string(min_stride).as_str());
                return Err(s);
            }
            let ghost stride = plane.stride as int;
            assert(stride * rows <= 0xffff_ffff_ffff_ffff * 0xffff_ffff) by (nonlinear_arith)
                requires
                    0 <= stride <= 0xffff_ffff_ffff_ffff,
                    0 <= rows <= 0xffff_ffff,
            ;
            let need: u128 = plane.stride as u128 * rows as u128;
            if (plane.data.len() as u128) < need {
                proof {
                    self.lemma_first_problem(i as nat, self.planes@.len());
                }
                let mut s: String = copy_str("plane ");
                s.append(decimal_string(i as u64).as_str());
                s.append(" buffer ");
                s.append(decimal_string(plane.data.len() as u64).as_str());
                s.append(" < required ");
                s.append(decimal_wide(need).as_str());
                s.append(" (stride ");
                s.append(decimal_string(plane.stride as u64).as_str());
                s.append(" * rows ");
                s.append(decimal_string(rows as u64).as_str());
                s.append(")");
                return Err(s);
            }
            i += 1;
        }
        Ok(())
    }

    /// The first problem stays the first.
    proof fn lemma_first_problem(self, i: nat, n: nat)
        requires
            i < n,
            self.problem_below(i) is None,
            self.plane_problem(i as int) is Some,
        ensures
            self.problem_below(n) == self.plane_problem(i as int),
        decreases n,
    {
        if i < n - 1 {
            self.lemma_first_problem(i, (n - 1) as nat);
        }
    }
}

/// A frame with nothing wrong can be read in full: every row of every plane lies within its
/// bytes.
pub proof fn law_valid_frame_rows(f: VideoFrame, index: int, row: int)
    requires
        f.problem() is None,
        0 <= index < planes_of(f.format),
        0 <= row < f.plane_extent(index, f.height),
    ensures
        f.planes@.len() == planes_of(f.format),
        row * f.planes@[index].stride + f.row_bytes(index) <= f.planes@[index].data@.len(),
{
    lemma_no_problem(f, index, f.planes@.len());
    let stride = f.planes@[index].stride as int;
    let rows = f.plane_extent(index, f.height) as int;
    assert(row * stride + stride <= stride * rows) by (nonlinear_arith)
        requires
            0 <= row < rows,
            0 <= stride,
    ;
}

proof fn lemma_no_problem(f: VideoFrame, index: int, n: nat)
    requires
        0 <= index < n,
        f.problem_below(n) is None,
    ensures
        f.plane_problem(index) is None,
    decreases n,
{
    if index < n - 1 {
        lemma_no_problem(f, index, (n - 1) as nat);
    }
}

/// The planes of the formats: chroma has the least extent that covers the frame at half of its
/// resolution, and interleaved chroma takes two bytes of a row for each pair of samples.
pub proof fn law_plane_extents(f: VideoFrame, full: u32)
    ensures
        planes_of(PixelFormat::Nv12) == 2,
        planes_of(PixelFormat::I420) == 3,
        f.plane_extent(0, full) == full,
        full <= 2 * f.plane_extent(1, full) < full + 2,
        f.format == PixelFormat::I420 ==> f.plane_extent(2, full) == f.plane_extent(1, full),
        f.format == PixelFormat::Nv12 ==> f.plane_extent(2, full) == 0,
        f.row_bytes(0) == f.width,
        f.format == PixelFormat::Nv12 ==> f.row_bytes(1) % 2 == 0 && f.width <= f.row_bytes(1)
            < f.width + 2,
        f.format == PixelFormat::I420 ==> f.width <= 2 * f.row_bytes(1) < f.width + 2
            && f.row_bytes(2) == f.row_bytes(1),
{
}

/// A frame is in order exactly if it has the planes of its format, and each of them has rows long
/// enough and enough of them.
pub proof fn law_frame_in_order(f: VideoFrame)
    ensures
        f.problem() is None <==> f.planes@.len() == planes_of(f.format) && forall|i: int|
            0 <= i < f.planes@.len() ==> (#[trigger] f.planes@[i]).stride >= f.row_bytes(i)
                && f.planes@[i].data@.len() >= f.planes@[i].stride * f.plane_extent(i, f.height),
{
    let n = f.planes@.len();
    if f.problem() is None {
        assert forall|i: int| 0 <= i < n implies (#[trigger] f.planes@[i]).stride >= f.row_bytes(i)
            && f.planes@[i].data@.len() >= f.planes@[i].stride * f.plane_extent(i, f.height) by {
            lemma_no_problem(f, i, n);
        }
    }
    if n == planes_of(f.format) && f.problem_below(n) is Some {
        let i = lemma_some_problem(f, n);
        assert(f.planes@[i].stride < f.row_bytes(i) || f.planes@[i].data@.len() < f.planes@[i].stride
            * f.plane_extent(i, f.height));
    }
}

proof fn lemma_some_problem(f: VideoFrame, n: nat) -> (i: int)
    requires
        f.problem_below(n) is Some,
    ensures
        0 <= i < n,
        f.plane_problem(i) is Some,
    decreases n,
{
    if f.problem_below((n - 1) as nat) is Some {
        lemma_some_problem(f, (n - 1) as nat)
    } else {
        n - 1
    }
}

} // verus!
