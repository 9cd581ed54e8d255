use vstd::prelude::*;
use vstd::string::StringExecFns;

verus! {

/// Error raised when the textual form of a geometry cannot be read.
#[derive(Debug, Clone, Copy, PartialEq, Eq, Structural)]
pub enum GeometryError {
    InvalidFormat,
    InvalidCoordinate,
}

/// A crop rectangle in source-image pixels: size `w` x `h` at offset (`x`, `y`).
#[derive(Debug, Default, Clone, Copy, PartialEq, Eq, Hash, Structural)]
pub struct Geometry {
    pub w: u32,
    pub h: u32,
    pub x: u32,
    pub y: u32,
}

/// The axis along which a crop is narrower (`X`) or shorter (`Y`) than its image.
#[derive(Debug, Clone, Copy, PartialEq, Eq, Structural)]
pub enum Direction {
    X,
    Y,
}

/// One of the three alignment operations.
#[derive(Debug, Clone, Copy, PartialEq, Eq, Structural)]
pub enum Alignment {
    Start,
    Center,
    End,
}

impl Geometry {
    /// The rectangle lies inside an image of the given size.
    pub open spec fn fits(self, img_w: int, img_h: int) -> bool {
        self.x + self.w <= img_w && self.y + self.h <= img_h
    }

    /// The rectangle is no larger than an image of the given size.
    pub open spec fn size_fits(self, img_w: int, img_h: int) -> bool {
        self.w <= img_w && self.h <= img_h
    }

    pub open spec fn spec_align_start(self) -> Geometry {
        Geometry { x: 0, y: 0, ..self }
    }

    pub open spec fn spec_align_center(self, img_w: u32, img_h: u32) -> Geometry {
        if img_h == self.h {
            Geometry { x: ((img_w - self.w) / 2) as u32, y: 0, ..self }
        } else {
            Geometry { x: 0, y: ((img_h - self.h) / 2) as u32, ..self }
        }
    }

    pub open spec fn spec_align_end(self, img_w: u32, img_h: u32) -> Geometry {
        if img_h == self.h {
            Geometry { x: (img_w - self.w) as u32, y: 0, ..self }
        } else {
            Geometry { x: 0, y: (img_h - self.h) as u32, ..self }
        }
    }

    pub open spec fn spec_align(self, a: Alignment, img_w: u32, img_h: u32) -> Geometry {
        match a {
            Alignment::Start => self.spec_align_start(),
            Alignment::Center => self.spec_align_center(img_w, img_h),
            Alignment::End => self.spec_align_end(img_w, img_h),
        }
    }

    /// Applies the alignments in order, first to last.
    pub open spec fn spec_align_all(self, ops: Seq<Alignment>, img_w: u32, img_h: u32) -> Geometry
        decreases ops.len(),
    {
        if ops.len() == 0 {
            self
        } else {
            self.spec_align(ops[0], img_w, img_h).spec_align_all(ops.drop_first(), img_w, img_h)
        }
    }

    /// Moves the crop to the leading edge of both axes.
    pub fn align_start(&self, img_width: u32, img_height: u32) -> (r: Self)
        ensures
            r == self.spec_align_start(),
            self.size_fits(img_width as int, img_height as int) ==> r.fits(
                img_width as int,
                img_height as int,
            ),
    {
        Geometry { x: 0, y: 0, ..*self }
    }

    /// Centers the crop on its active axis: horizontally when it spans the full
    /// image height, vertically otherwise.
    pub fn align_center(&self, img_width: u32, img_height: u32) -> (r: Self)
        requires
            self.size_fits(img_width as int, img_height as int),
        ensures
            r == self.spec_align_center(img_width, img_height),
            r.fits(img_width as int, img_height as int),
            r.w == self.w && r.h == self.h,
    {
        if img_height == self.h {
            Geometry { x: (img_width - self.w) / 2, y: 0, ..*self }
        } else {
            Geometry { x: 0, y: (img_height - self.h) / 2, ..*self }
        }
    }

    /// Moves the crop to the trailing edge of its active axis.
    pub fn align_end(&self, img_width: u32, img_height: u32) -> (r: Self)
        requires
            self.size_fits(img_width as int, img_height as int),
        ensures
            r == self.spec_align_end(img_width, img_height),
            r.fits(img_width as int, img_height as int),
            r.w == self.w && r.h == self.h,
    {
        if img_height == self.h {
            Geometry { x: img_width - self.w, y: 0, ..*self }
        } else {
            Geometry { x: 0, y: img_height - self.h, ..*self }
        }
    }

    /// Applies one alignment.
    pub fn align(&self, a: Alignment, img_width: u32, img_height: u32) -> (r: Self)
        requires
            self.size_fits(img_width as int, img_height as int),
        ensures
            r == self.spec_align(a, img_width, img_height),
    {
        match a {
            Alignment::Start => self.align_start(img_width, img_height),
            Alignment::Center => self.align_center(img_width, img_height),
            Alignment::End => self.align_end(img_width, img_height),
        }
    }
}

/// The decimal digit for `d` in `0..10`.
pub open spec fn digit_char(d: nat) -> char {
    seq!['0', '1', '2', '3', '4', '5', '6', '7', '8', '9'][d as int]
}

/// The decimal form of `n`, without leading zeros.
pub open spec fn dec(n: nat) -> Seq<char>
    decreases n,
{
    if n < 10 {
        seq![digit_char(n)]
    } else {
        dec(n / 10).push(digit_char(n % 10))
    }
}

/// The text `"{w}x{h}+{x}+{y}"`.
pub open spec fn geometry_text(g: Geometry) -> Seq<char> {
    dec(g.w as nat) + seq!['x'] + dec(g.h as nat) + seq!['+'] + dec(g.x as nat) + seq!['+'] + dec(
        g.y as nat,
    )
}

/// The text `"{x}+{y}"`.
pub open spec fn offset_text(g: Geometry) -> Seq<char> {
    dec(g.x as nat) + seq!['+'] + dec(g.y as nat)
}

/// Relies on `ToString::to_string` on `u32`, through its `Display`: the number
/// in decimal, without leading zeros.
#[verifier::external_body]
fn decimal(n: u32) -> (r: String)
    ensures
        r@ == dec(n as nat),
{
    n.to_string()
}

impl Geometry {
    /// The full textual form, `"{w}x{h}+{x}+{y}"`.
    pub fn to_text(&self) -> (r: String)
        ensures
            r@ == geometry_text(*self),
    {
        let mut t = decimal(self.w);
        t.append("x");
        t.append(decimal(self.h).as_str());
        t.append("+");
        t.append(decimal(self.x).as_str());
        t.append("+");
        t.append(decimal(self.y).as_str());
        proof {
            reveal_strlit("x");
            reveal_strlit("+");
            assert(t@ =~= geometry_text(*self));
        }
        t
    }

    /// The persisted form, `"{x}+{y}"`. The size is not kept: a stored crop
    /// belongs to a ratio column, and its size is the largest of that ratio that
    /// fits the image.
    pub fn offset_text(&self) -> (r: String)
        ensures
            r@ == offset_text(*self),
    {
        let mut t = decimal(self.x);
        t.append("+");
        t.append(decimal(self.y).as_str());
        proof {
            reveal_strlit("+");
            assert(t@ =~= offset_text(*self));
        }
        t
    }
}

/// Any sequence of alignments, applied in any order, keeps a crop that is no
/// larger than its image inside the image, and keeps its width and height.
pub proof fn lemma_alignments_stay_in_bounds(
    g: Geometry,
    ops: Seq<Alignment>,
    img_w: u32,
    img_h: u32,
)
    requires
        g.size_fits(img_w as int, img_h as int),
    ensures
        ops.len() > 0 ==> g.spec_align_all(ops, img_w, img_h).fits(img_w as int, img_h as int),
        g.spec_align_all(ops, img_w, img_h).w == g.w,
        g.spec_align_all(ops, img_w, img_h).h == g.h,
    decreases ops.len(),
{
    if ops.len() > 0 {
        let next = g.spec_align(ops[0], img_w, img_h);
        lemma_alignments_stay_in_bounds(next, ops.drop_first(), img_w, img_h);
    }
}

} // verus!
