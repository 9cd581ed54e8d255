use vstd::prelude::*;
use crate::geometry::{Direction, Geometry};

verus! {

/// A target aspect ratio `w`:`h`.
#[derive(Debug, Clone, Copy, PartialEq, Eq, Hash, Structural)]
pub struct AspectRatio {
    pub w: u32,
    pub h: u32,
}

/// A face bounding box as reported by the detector, in source pixels.
#[derive(Debug, Clone, Copy, PartialEq, Eq, Hash, Structural)]
pub struct Face {
    pub x: u32,
    pub y: u32,
    pub w: u32,
    pub h: u32,
}

impl AspectRatio {
    pub open spec fn wf(self) -> bool {
        self.w > 0 && self.h > 0
    }

    /// Two ratios denote the same proportion.
    pub open spec fn same(self, o: AspectRatio) -> bool {
        self.w * o.h == o.w * self.h
    }

    /// Builds a ratio; both terms must be positive.
    pub fn new(w: u32, h: u32) -> (r: Option<AspectRatio>)
        ensures
            (w > 0 && h > 0) <==> r.is_some(),
            r matches Some(a) ==> a.w == w && a.h == h,
    {
        if w > 0 && h > 0 {
            Some(AspectRatio { w, h })
        } else {
            None
        }
    }

    /// Whether two ratios denote the same proportion.
    pub fn same_as(&self, o: &AspectRatio) -> (r: bool)
        ensures
            r == self.same(*o),
    {
        proof {
            lemma_mul_u32(self.w as int, o.h as int);
            lemma_mul_u32(o.w as int, self.h as int);
        }
        (self.w as u64) * (o.h as u64) == (o.w as u64) * (self.h as u64)
    }
}

/// The product of two `u32` values fits in a `u64`.
pub(crate) proof fn lemma_mul_u32(a: int, b: int)
    requires
        0 <= a <= u32::MAX,
        0 <= b <= u32::MAX,
    ensures
        0 <= a * b <= u32::MAX * u32::MAX,
        u32::MAX * u32::MAX < u64::MAX,
{
    assert(0 <= a * b <= u32::MAX * u32::MAX) by (nonlinear_arith)
        requires
            0 <= a <= u32::MAX,
            0 <= b <= u32::MAX,
    ;
}

/// The start on an axis of a crop of length `len` whose doubled center is `c2`,
/// clipped to `[0, limit]`.
pub open spec fn clamp_start(c2: int, len: int, limit: int) -> int {
    if c2 < len {
        0
    } else if (c2 - len) / 2 > limit {
        limit
    } else {
        (c2 - len) / 2
    }
}

impl Face {
    /// The face's interval on an axis, as (start, end).
    pub open spec fn lo(self, d: Direction) -> int {
        match d {
            Direction::X => self.x as int,
            Direction::Y => self.y as int,
        }
    }

    pub open spec fn hi(self, d: Direction) -> int {
        match d {
            Direction::X => self.x + self.w,
            Direction::Y => self.y + self.h,
        }
    }
}

/// The smallest start of the faces on an axis (0 for no faces).
pub open spec fn faces_lo(faces: Seq<Face>, d: Direction) -> int
    decreases faces.len(),
{
    if faces.len() == 0 {
        0
    } else if faces.len() == 1 {
        faces[0].lo(d)
    } else {
        let rest = faces_lo(faces.drop_last(), d);
        if faces.last().lo(d) < rest {
            faces.last().lo(d)
        } else {
            rest
        }
    }
}

/// The largest end of the faces on an axis (0 for no faces).
pub open spec fn faces_hi(faces: Seq<Face>, d: Direction) -> int
    decreases faces.len(),
{
    if faces.len() == 0 {
        0
    } else {
        let rest = faces_hi(faces.drop_last(), d);
        if faces.last().hi(d) > rest {
            faces.last().hi(d)
        } else {
            rest
        }
    }
}

/// Computes crops for one image from its size and its faces.
#[derive(Debug, Clone)]
pub struct Cropper {
    pub faces: Vec<Face>,
    pub width: u32,
    pub height: u32,
}

/// The mathematical content of a [`Cropper`].
pub struct CropModel {
    pub faces: Seq<Face>,
    pub width: u32,
    pub height: u32,
}

impl View for Cropper {
    type V = CropModel;

    open spec fn view(&self) -> CropModel {
        CropModel { faces: self.faces@, width: self.width, height: self.height }
    }
}

impl CropModel {
    /// The axis the crop for `ratio` moves along: `X` when the image is at least
    /// as wide as the ratio (the crop takes the full height), else `Y`.
    pub open spec fn axis(self, ratio: AspectRatio) -> Direction {
        if self.width * ratio.h >= self.height * ratio.w {
            Direction::X
        } else {
            Direction::Y
        }
    }

    /// The largest size of the ratio that fits inside the image, as (w, h).
    pub open spec fn crop_size(self, ratio: AspectRatio) -> (int, int) {
        match self.axis(ratio) {
            Direction::X => ((self.height * ratio.w) / (ratio.h as int), self.height as int),
            Direction::Y => (self.width as int, (self.width * ratio.h) / (ratio.w as int)),
        }
    }

    /// The image's length along an axis.
    pub open spec fn dim(self, d: Direction) -> int {
        match d {
            Direction::X => self.width as int,
            Direction::Y => self.height as int,
        }
    }

    /// The crop's length along its axis.
    pub open spec fn crop_len(self, ratio: AspectRatio) -> int {
        match self.axis(ratio) {
            Direction::X => self.crop_size(ratio).0,
            Direction::Y => self.crop_size(ratio).1,
        }
    }

    /// The crop for `ratio` whose doubled center on the axis is `c2`, clipped to the image.
    pub open spec fn spec_clamp(self, c2: int, ratio: AspectRatio) -> Geometry {
        let (w, h) = self.crop_size(ratio);
        let d = self.axis(ratio);
        let start = clamp_start(c2, self.crop_len(ratio), self.dim(d) - self.crop_len(ratio));
        match d {
            Direction::X => Geometry { w: w as u32, h: h as u32, x: start as u32, y: 0 },
            Direction::Y => Geometry { w: w as u32, h: h as u32, x: 0, y: start as u32 },
        }
    }

    /// The candidate centered on the image.
    pub open spec fn center_candidate(self, ratio: AspectRatio) -> Geometry {
        self.spec_clamp(self.dim(self.axis(ratio)), ratio)
    }

    /// The candidate centered on one face.
    pub open spec fn face_candidate(self, f: Face, ratio: AspectRatio) -> Geometry {
        let d = self.axis(ratio);
        self.spec_clamp(f.lo(d) + f.hi(d), ratio)
    }

    /// The candidate centered on the box that holds every face.
    pub open spec fn all_faces_candidate(self, ratio: AspectRatio) -> Geometry {
        let d = self.axis(ratio);
        self.spec_clamp(faces_lo(self.faces, d) + faces_hi(self.faces, d), ratio)
    }

    /// The ranked candidates: the image center alone when there are no faces;
    /// else the box of all faces, then each face in order, then the image center.
    pub open spec fn candidates(self, ratio: AspectRatio) -> Seq<Geometry> {
        if self.faces.len() == 0 {
            seq![self.center_candidate(ratio)]
        } else {
            seq![self.all_faces_candidate(ratio)] + self.faces.map_values(
                |f: Face| self.face_candidate(f, ratio),
            ) + seq![self.center_candidate(ratio)]
        }
    }

    /// The crop size for `ratio` fits the image on both axes.
    pub proof fn lemma_crop_size_fits(self, ratio: AspectRatio)
        requires
            ratio.wf(),
        ensures
            0 <= self.crop_size(ratio).0 <= self.width,
            0 <= self.crop_size(ratio).1 <= self.height,
            0 <= self.crop_len(ratio) <= self.dim(self.axis(ratio)),
    {
        let (w, h) = (self.width as int, self.height as int);
        let (rw, rh) = (ratio.w as int, ratio.h as int);
        if self.axis(ratio) == Direction::X {
            assert(h * rw <= w * rh);
            assert((h * rw) / rh <= (w * rh) / rh) by (nonlinear_arith)
                requires h * rw <= w * rh, rh > 0;
            assert((w * rh) / rh == w) by (nonlinear_arith)
                requires rh > 0, w >= 0;
            assert(0 <= (h * rw) / rh) by (nonlinear_arith)
                requires rh > 0, w >= 0, h >= 0, rw >= 0;
        } else {
            assert(w * rh < h * rw);
            assert((w * rh) / rw <= (h * rw) / rw) by (nonlinear_arith)
                requires w * rh <= h * rw, rw > 0;
            assert((h * rw) / rw == h) by (nonlinear_arith)
                requires rw > 0, h >= 0;
            assert(0 <= (w * rh) / rw) by (nonlinear_arith)
                requires rw > 0, w >= 0, rh >= 0;
        }
    }

    /// Every clipped crop lies inside the image.
    pub proof fn lemma_clamp_fits(self, c2: int, ratio: AspectRatio)
        requires
            ratio.wf(),
        ensures
            self.spec_clamp(c2, ratio).fits(self.width as int, self.height as int),
    {
        self.lemma_crop_size_fits(ratio);
    }

}

/// Every candidate the cropper gives for an image of `m.width` x `m.height`, for
/// any ratio, lies inside the image.
pub proof fn lemma_candidates_in_bounds(m: CropModel, ratio: AspectRatio)
    requires
        ratio.wf(),
    ensures
        forall|i: int|
            0 <= i < m.candidates(ratio).len() ==> (#[trigger] m.candidates(ratio)[i]).fits(
                m.width as int,
                m.height as int,
            ),
{
    let c = m.candidates(ratio);
    assert forall|i: int| 0 <= i < c.len() implies (#[trigger] c[i]).fits(m.width as int, m.height as int) by {
        m.lemma_clamp_fits(m.dim(m.axis(ratio)), ratio);
        if m.faces.len() > 0 {
            let d = m.axis(ratio);
            m.lemma_clamp_fits(faces_lo(m.faces, d) + faces_hi(m.faces, d), ratio);
            if 1 <= i <= m.faces.len() {
                let f = m.faces[i - 1];
                m.lemma_clamp_fits(f.lo(d) + f.hi(d), ratio);
            }
        }
    }
}

impl Cropper {
    pub fn new(faces: &Vec<Face>, width: u32, height: u32) -> (r: Cropper)
        ensures
            r.faces@ == faces@,
            r.width == width,
            r.height == height,
    {
        Cropper { faces: faces.clone(), width, height }
    }

    /// The crop size for `ratio`, as (w, h), with the axis it moves along.
    pub fn crop_size_exec(&self, ratio: &AspectRatio) -> (r: (u32, u32, Direction))
        requires
            ratio.wf(),
        ensures
            r.0 == self@.crop_size(*ratio).0,
            r.1 == self@.crop_size(*ratio).1,
            r.2 == self@.axis(*ratio),
    {
        proof {
            self@.lemma_crop_size_fits(*ratio);
            lemma_mul_u32(self.width as int, ratio.h as int);
            lemma_mul_u32(self.height as int, ratio.w as int);
        }
        let w = self.width as u64;
        let h = self.height as u64;
        let rw = ratio.w as u64;
        let rh = ratio.h as u64;
        if w * rh >= h * rw {
            (((h * rw) / rh) as u32, self.height, Direction::X)
        } else {
            (self.width, ((w * rh) / rw) as u32, Direction::Y)
        }
    }

    /// The crop for `ratio` centered (doubled center `c2`) on its axis, clipped to
    /// `[0, image length - crop length]`.
    pub fn clamp(&self, c2: u64, ratio: &AspectRatio) -> (r: Geometry)
        requires
            ratio.wf(),
        ensures
            r == self@.spec_clamp(c2 as int, *ratio),
            r.fits(self.width as int, self.height as int),
    {
        proof {
            self@.lemma_crop_size_fits(*ratio);
            self@.lemma_clamp_fits(c2 as int, *ratio);
        }
        let (w, h, d) = self.crop_size_exec(ratio);
        let (len, dim) = match d {
            Direction::X => (w as u64, self.width as u64),
            Direction::Y => (h as u64, self.height as u64),
        };
        let limit = dim - len;
        let start: u64 = if c2 < len {
            0
        } else if (c2 - len) / 2 > limit {
            limit
        } else {
            (c2 - len) / 2
        };
        match d {
            Direction::X => Geometry { w, h, x: start as u32, y: 0 },
            Direction::Y => Geometry { w, h, x: 0, y: start as u32 },
        }
    }
}

impl Face {
    /// The face's start on an axis.
    pub fn lo_exec(&self, d: Direction) -> (r: u64)
        ensures
            r == self.lo(d),
    {
        match d {
            Direction::X => self.x as u64,
            Direction::Y => self.y as u64,
        }
    }

    /// The face's end on an axis.
    pub fn hi_exec(&self, d: Direction) -> (r: u64)
        ensures
            r == self.hi(d),
    {
        match d {
            Direction::X => self.x as u64 + self.w as u64,
            Direction::Y => self.y as u64 + self.h as u64,
        }
    }
}

/// Each face's start and end on an axis lie in `[0, 2 * u32::MAX]`, and so do
/// the bounds over all faces.
proof fn lemma_faces_bounds(faces: Seq<Face>, d: Direction)
    ensures
        0 <= faces_lo(faces, d) <= u32::MAX,
        0 <= faces_hi(faces, d) <= 2 * u32::MAX,
    decreases faces.len(),
{
    if faces.len() > 0 {
        lemma_faces_bounds(faces.drop_last(), d);
    }
}

impl Cropper {
    /// The doubled center of the box that holds every face, on an axis.
    fn faces_center2(&self, d: Direction) -> (r: u64)
        ensures
            r == faces_lo(self.faces@, d) + faces_hi(self.faces@, d),
    {
        let n = self.faces.len();
        if n == 0 {
            proof {
                lemma_faces_bounds(self.faces@, d);
            }
            return 0;
        }
        let mut lo = self.faces[0].lo_exec(d);
        let mut hi = self.faces[0].hi_exec(d);
        proof {
            assert(self.faces@.take(1).drop_last() =~= Seq::<Face>::empty());
            assert(self.faces@.take(1).last() == self.faces@[0]);
            assert(faces_hi(Seq::<Face>::empty(), d) == 0);
        }
        let mut i: usize = 1;
        while i < n
            invariant
                1 <= i <= n,
                n == self.faces@.len(),
                lo == faces_lo(self.faces@.take(i as int), d),
                hi == faces_hi(self.faces@.take(i as int), d),
            decreases n - i,
        {
            proof {
                assert(self.faces@.take(i + 1).drop_last() =~= self.faces@.take(i as int));
                lemma_faces_bounds(self.faces@.take(i as int), d);
            }
            let f_lo = self.faces[i].lo_exec(d);
            let f_hi = self.faces[i].hi_exec(d);
            if f_lo < lo {
                lo = f_lo;
            }
            if f_hi > hi {
                hi = f_hi;
            }
            i = i + 1;
        }
        proof {
            assert(self.faces@.take(n as int) =~= self.faces@);
            lemma_faces_bounds(self.faces@, d);
        }
        lo + hi
    }

    /// The ranked crop candidates for `ratio`. Every one lies inside the image.
    pub fn crop_candidates(&self, ratio: &AspectRatio) -> (r: Vec<Geometry>)
        requires
            ratio.wf(),
        ensures
            r@ == self@.candidates(*ratio),
            r@.len() >= 1,
            forall|i: int|
                0 <= i < r@.len() ==> (#[trigger] r@[i]).fits(
                    self.width as int,
                    self.height as int,
                ),
    {
        let (_, _, d) = self.crop_size_exec(ratio);
        let dim: u64 = match d {
            Direction::X => self.width as u64,
            Direction::Y => self.height as u64,
        };
        let center = self.clamp(dim, ratio);
        let mut out: Vec<Geometry> = Vec::new();
        if self.faces.len() == 0 {
            out.push(center);
            proof {
                assert(out@ =~= self@.candidates(*ratio));
            }
            return out;
        }
        let all = self.clamp(self.faces_center2(d), ratio);
        out.push(all);
        let n = self.faces.len();
        let mut i: usize = 0;
        while i < n
            invariant
                0 <= i <= n,
                n == self.faces@.len(),
                d == self@.axis(*ratio),
                ratio.wf(),
                out@ =~= seq![self@.all_faces_candidate(*ratio)] + self.faces@.take(
                    i as int,
                ).map_values(|f: Face| self@.face_candidate(f, *ratio)),
                forall|j: int|
                    0 <= j < out@.len() ==> (#[trigger] out@[j]).fits(
                        self.width as int,
                        self.height as int,
                    ),
            decreases n - i,
        {
            let f = self.faces[i];
            let g = self.clamp(f.lo_exec(d) + f.hi_exec(d), ratio);
            out.push(g);
            proof {
                assert(self.faces@.take(i + 1) =~= self.faces@.take(i as int).push(f));
            }
            i = i + 1;
        }
        proof {
            assert(self.faces@.take(n as int) =~= self.faces@);
        }
        out.push(center);
        out
    }

    /// The default crop for `ratio`: the first candidate.
    pub fn crop(&self, ratio: &AspectRatio) -> (r: Geometry)
        requires
            ratio.wf(),
        ensures
            r == self@.candidates(*ratio)[0],
            r.fits(self.width as int, self.height as int),
    {
        let c = self.crop_candidates(ratio);
        c[0]
    }
}

impl Cropper {
    /// The crop of `ratio`'s size at offset (`x`, `y`): how a stored `"{x}+{y}"`
    /// crop is read back.
    pub fn crop_at(&self, ratio: &AspectRatio, x: u32, y: u32) -> (r: Geometry)
        requires
            ratio.wf(),
        ensures
            r.w == self@.crop_size(*ratio).0,
            r.h == self@.crop_size(*ratio).1,
            r.x == x,
            r.y == y,
    {
        let (w, h, _) = self.crop_size_exec(ratio);
        Geometry { w, h, x, y }
    }
}

} // verus!
