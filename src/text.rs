use vstd::prelude::*;
use vstd::string::StringSliceAdditionalSpecFns;
use crate::geometry::{Geometry, GeometryError};

verus! {

/// The byte of `x`.
pub const BYTE_X: u8 = 120;

/// The byte of `+`.
pub const BYTE_PLUS: u8 = 43;

/// The byte of `0`.
pub const BYTE_ZERO: u8 = 48;

/// A field separator: `+`, and `x` too when `with_x`.
pub open spec fn is_sep(b: u8, with_x: bool) -> bool {
    b == BYTE_PLUS || (with_x && b == BYTE_X)
}

/// The fields of `s` between separators (empty fields included).
pub open spec fn split_fields(s: Seq<u8>, with_x: bool) -> Seq<Seq<u8>>
    decreases s.len(),
{
    if s.len() == 0 {
        seq![Seq::empty()]
    } else {
        let p = split_fields(s.drop_last(), with_x);
        if is_sep(s.last(), with_x) {
            p.push(Seq::empty())
        } else {
            p.update(p.len() - 1, p.last().push(s.last()))
        }
    }
}

pub open spec fn is_digit(b: u8) -> bool {
    BYTE_ZERO <= b <= BYTE_ZERO + 9
}

pub open spec fn all_digits(f: Seq<u8>) -> bool {
    forall|i: int| 0 <= i < f.len() ==> is_digit(#[trigger] f[i])
}

/// The number that the decimal digits `f` write.
pub open spec fn digits_value(f: Seq<u8>) -> nat
    decreases f.len(),
{
    if f.len() == 0 {
        0
    } else {
        digits_value(f.drop_last()) * 10 + (f.last() - BYTE_ZERO) as nat
    }
}

/// The `u32` a field writes in decimal: one digit or more, and no larger than `u32::MAX`.
pub open spec fn field_value(f: Seq<u8>) -> Option<u32> {
    if f.len() > 0 && all_digits(f) && digits_value(f) <= u32::MAX {
        Some(digits_value(f) as u32)
    } else {
        None
    }
}

/// The geometry that the text `"{w}x{h}+{x}+{y}"` writes.
pub open spec fn parse_geometry(s: Seq<u8>) -> Result<Geometry, GeometryError> {
    let fs = split_fields(s, true);
    if fs.len() != 4 {
        Err(GeometryError::InvalidFormat)
    } else if field_value(fs[0]) is Some && field_value(fs[1]) is Some && field_value(fs[2]) is Some
        && field_value(fs[3]) is Some {
        Ok(
            Geometry {
                w: field_value(fs[0])->Some_0,
                h: field_value(fs[1])->Some_0,
                x: field_value(fs[2])->Some_0,
                y: field_value(fs[3])->Some_0,
            },
        )
    } else {
        Err(GeometryError::InvalidCoordinate)
    }
}

/// The offset that the text `"{x}+{y}"` writes.
pub open spec fn parse_offset(s: Seq<u8>) -> Result<(u32, u32), GeometryError> {
    let fs = split_fields(s, false);
    if fs.len() != 2 {
        Err(GeometryError::InvalidFormat)
    } else if field_value(fs[0]) is Some && field_value(fs[1]) is Some {
        Ok((field_value(fs[0])->Some_0, field_value(fs[1])->Some_0))
    } else {
        Err(GeometryError::InvalidCoordinate)
    }
}

pub open spec fn views(v: Seq<Vec<u8>>) -> Seq<Seq<u8>> {
    v.map_values(|x: Vec<u8>| x@)
}

/// Splits `b` at its separators.
fn split(b: &[u8], with_x: bool) -> (r: Vec<Vec<u8>>)
    ensures
        views(r@) == split_fields(b@, with_x),
{
    let mut done: Vec<Vec<u8>> = Vec::new();
    let mut cur: Vec<u8> = Vec::new();
    let mut i: usize = 0;
    proof {
        assert(b@.take(0) =~= Seq::<u8>::empty());
        assert(views(done@).push(cur@) =~= seq![Seq::<u8>::empty()]);
    }
    while i < b.len()
        invariant
            0 <= i <= b@.len(),
            views(done@).push(cur@) =~= split_fields(b@.take(i as int), with_x),
        decreases b@.len() - i,
    {
        proof {
            assert(b@.take(i + 1).drop_last() =~= b@.take(i as int));
            assert(b@.take(i + 1).last() == b@[i as int]);
        }
        let c = b[i];
        if c == BYTE_PLUS || (with_x && c == BYTE_X) {
            let ghost old_done = done@;
            done.push(cur);
            cur = Vec::new();
            proof {
                assert(views(done@) =~= views(old_done).push(views(done@).last()));
            }
        } else {
            cur.push(c);
        }
        i = i + 1;
    }
    proof {
        assert(b@.take(b@.len() as int) =~= b@);
    }
    let ghost old_done = done@;
    done.push(cur);
    proof {
        assert(views(done@) =~= views(old_done).push(views(done@).last()));
    }
    done
}

proof fn lemma_digits_value_prefix(f: Seq<u8>, k: int)
    requires
        all_digits(f),
        0 <= k <= f.len(),
    ensures
        digits_value(f.take(k)) <= digits_value(f),
    decreases f.len(),
{
    if k < f.len() {
        let g = f.drop_last();
        assert(g.take(k) =~= f.take(k));
        assert forall|i: int| 0 <= i < g.len() implies is_digit(#[trigger] g[i]) by {
            assert(g[i] == f[i]);
        }
        lemma_digits_value_prefix(g, k);
    } else {
        assert(f.take(k) =~= f);
    }
}

/// The `u32` that a field writes in decimal.
fn field_value_exec(f: &Vec<u8>) -> (r: Option<u32>)
    ensures
        r == field_value(f@),
{
    if f.len() == 0 {
        return None;
    }
    let mut acc: u64 = 0;
    let mut over = false;
    let mut i: usize = 0;
    proof {
        assert(f@.take(0) =~= Seq::<u8>::empty());
    }
    while i < f.len()
        invariant
            0 <= i <= f@.len(),
            all_digits(f@.take(i as int)),
            !over ==> acc == digits_value(f@.take(i as int)) && acc <= u32::MAX,
            over ==> digits_value(f@.take(i as int)) > u32::MAX,
        decreases f@.len() - i,
    {
        let c = f[i];
        if c < BYTE_ZERO || c > BYTE_ZERO + 9 {
            proof {
                assert(!is_digit(f@[i as int]));
            }
            return None;
        }
        proof {
            let t = f@.take(i + 1);
            assert(t.drop_last() =~= f@.take(i as int));
            assert(t.last() == c);
            assert forall|j: int| 0 <= j < t.len() implies is_digit(#[trigger] t[j]) by {
                if j < i {
                    assert(t[j] == f@.take(i as int)[j]);
                }
            }
        }
        if !over {
            let next = acc * 10 + (c - BYTE_ZERO) as u64;
            if next > 0xffff_ffff {
                over = true;
            } else {
                acc = next;
            }
        } else {
            proof {
                let t = f@.take(i + 1);
                lemma_digits_value_prefix(t, i as int);
                assert(t.take(i as int) =~= f@.take(i as int));
            }
        }
        i = i + 1;
    }
    proof {
        assert(f@.take(f@.len() as int) =~= f@);
    }
    if over {
        None
    } else {
        Some(acc as u32)
    }
}

impl Geometry {
    /// Reads the text `"{w}x{h}+{x}+{y}"`: anything but four fields is
    /// `InvalidFormat`, and a field that is not a `u32` in decimal is
    /// `InvalidCoordinate`.
    pub fn parse(s: &str) -> (r: Result<Geometry, GeometryError>)
        ensures
            r == parse_geometry(s.spec_bytes()),
    {
        let fs = split(s.as_bytes(), true);
        if fs.len() != 4 {
            return Err(GeometryError::InvalidFormat);
        }
        let w = field_value_exec(&fs[0]);
        let h = field_value_exec(&fs[1]);
        let x = field_value_exec(&fs[2]);
        let y = field_value_exec(&fs[3]);
        match (w, h, x, y) {
            (Some(w), Some(h), Some(x), Some(y)) => Ok(Geometry { w, h, x, y }),
            _ => Err(GeometryError::InvalidCoordinate),
        }
    }

    /// Reads the stored form `"{x}+{y}"` as (x, y), with the same errors as `parse`.
    pub fn parse_offset(s: &str) -> (r: Result<(u32, u32), GeometryError>)
        ensures
            r == parse_offset(s.spec_bytes()),
    {
        let fs = split(s.as_bytes(), false);
        if fs.len() != 2 {
            return Err(GeometryError::InvalidFormat);
        }
        let x = field_value_exec(&fs[0]);
        let y = field_value_exec(&fs[1]);
        match (x, y) {
            (Some(x), Some(y)) => Ok((x, y)),
            _ => Err(GeometryError::InvalidCoordinate),
        }
    }
}

} // verus!
