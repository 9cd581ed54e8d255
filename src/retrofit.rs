use vstd::prelude::*;
use crate::cropper::AspectRatio;
use crate::geometry::{Direction, Geometry};
use crate::wallpapers::{lookup, upsert, InfoView, WallInfo, WallpapersCsv};

verus! {

/// `v` with its crop recorded for `ratio` replaced by (or extended with) `geom`.
pub open spec fn with_geometry(v: InfoView, ratio: AspectRatio, geom: Geometry) -> InfoView {
    InfoView { geometries: upsert(v.geometries, ratio, geom), ..v }
}

/// The crop for `new_res` moved so that its center on the axis of `old_crop`
/// matches the center of `old_crop`, clipped to the image.
pub open spec fn spec_center_new_crop(v: InfoView, old_crop: Geometry, new_res: AspectRatio) -> Geometry {
    let c2 = match v.direction(old_crop) {
        Direction::X => 2 * old_crop.x + old_crop.w,
        Direction::Y => 2 * old_crop.y + old_crop.h,
    };
    v.crop_model().spec_clamp(c2, new_res)
}

/// Whether the crop for `new_res` is taken from the closest ratio's edited crop:
/// the image has no crop for `new_res` yet, the closest ratio's recorded crop is
/// not its default, and it runs along the same axis as the new default crop.
pub open spec fn recentered(v: InfoView, new_res: AspectRatio, closest: Option<AspectRatio>) -> bool {
    match closest {
        None => false,
        Some(c) => {
            &&& lookup(v.geometries, new_res) is None
            &&& v.geometry(c) != v.default_crop(c)
            &&& v.direction(v.geometry(c)) == v.direction(v.default_crop(new_res))
        },
    }
}

/// One image after the retrofit of `new_res`.
pub open spec fn retrofit_view(v: InfoView, new_res: AspectRatio, closest: Option<AspectRatio>) -> InfoView {
    if lookup(v.geometries, new_res) is Some {
        v
    } else if recentered(v, new_res, closest) {
        with_geometry(
            v,
            new_res,
            spec_center_new_crop(v, v.geometry(closest->Some_0), new_res),
        )
    } else {
        with_geometry(v, new_res, v.default_crop(new_res))
    }
}

/// The whole store after the retrofit of `new_res`.
pub open spec fn retrofit_store(
    s: Seq<InfoView>,
    new_res: AspectRatio,
    closest: Option<AspectRatio>,
) -> Seq<InfoView> {
    s.map_values(|v: InfoView| retrofit_view(v, new_res, closest))
}

/// The filenames of the images whose new crop was re-centered, in store order.
pub open spec fn recentered_names(
    s: Seq<InfoView>,
    new_res: AspectRatio,
    closest: Option<AspectRatio>,
) -> Seq<Seq<char>>
    decreases s.len(),
{
    if s.len() == 0 {
        Seq::empty()
    } else {
        let rest = recentered_names(s.drop_last(), new_res, closest);
        if recentered(s.last(), new_res, closest) {
            rest.push(s.last().filename)
        } else {
            rest
        }
    }
}

pub open spec fn views(infos: Seq<WallInfo>) -> Seq<InfoView> {
    infos.map_values(|i: WallInfo| i@)
}

/// After recording `g` for `ratio`, the crop for `ratio` is `g`.
pub proof fn lemma_lookup_upsert(geoms: Seq<(AspectRatio, Geometry)>, ratio: AspectRatio, g: Geometry)
    requires
        ratio.wf(),
    ensures
        lookup(upsert(geoms, ratio, g), ratio) == Some(g),
    decreases geoms.len(),
{
    if geoms.len() == 0 {
        assert(ratio.same(ratio));
    } else if !geoms[0].0.same(ratio) {
        lemma_lookup_upsert(geoms.drop_first(), ratio, g);
        assert((seq![geoms[0]] + upsert(geoms.drop_first(), ratio, g)).drop_first() =~= upsert(
            geoms.drop_first(),
            ratio,
            g,
        ));
    }
}

/// Retrofitting a ratio a second time changes nothing and re-centers nothing.
pub proof fn lemma_retrofit_twice(s: Seq<InfoView>, new_res: AspectRatio, closest: Option<AspectRatio>)
    requires
        new_res.wf(),
    ensures
        retrofit_store(retrofit_store(s, new_res, closest), new_res, closest) == retrofit_store(
            s,
            new_res,
            closest,
        ),
        recentered_names(retrofit_store(s, new_res, closest), new_res, closest).len() == 0,
{
    let once = retrofit_store(s, new_res, closest);
    assert forall|i: int| 0 <= i < s.len() implies lookup(
        (#[trigger] once[i]).geometries,
        new_res,
    ) is Some by {
        let v = s[i];
        if lookup(v.geometries, new_res) is None {
            if recentered(v, new_res, closest) {
                lemma_lookup_upsert(
                    v.geometries,
                    new_res,
                    spec_center_new_crop(v, v.geometry(closest->Some_0), new_res),
                );
            } else {
                lemma_lookup_upsert(v.geometries, new_res, v.default_crop(new_res));
            }
        }
    }
    assert(retrofit_store(once, new_res, closest) =~= once);
    lemma_none_recentered(once, new_res, closest);
}

proof fn lemma_none_recentered(s: Seq<InfoView>, new_res: AspectRatio, closest: Option<AspectRatio>)
    requires
        forall|i: int| 0 <= i < s.len() ==> lookup((#[trigger] s[i]).geometries, new_res) is Some,
    ensures
        recentered_names(s, new_res, closest).len() == 0,
    decreases s.len(),
{
    if s.len() > 0 {
        let t = s.drop_last();
        assert forall|i: int| 0 <= i < t.len() implies lookup((#[trigger] t[i]).geometries, new_res) is Some by {
            assert(t[i] == s[i]);
        }
        lemma_none_recentered(t, new_res, closest);
        assert(lookup(s[s.len() - 1].geometries, new_res) is Some);
    }
}

/// A copy of `info` with `geom` recorded as the crop for `ratio`.
pub fn add_geometry(info: &WallInfo, ratio: &AspectRatio, geom: Geometry) -> (r: WallInfo)
    requires
        ratio.wf(),
    ensures
        r@ == with_geometry(info@, *ratio, geom),
{
    let mut r = info.duplicate();
    r.set_geometry(ratio, &geom);
    r
}

/// The crop for `new_res` re-centered on `old_crop`: its center on the axis of
/// `old_crop` is moved to the center of `old_crop`, then clipped to the image.
pub fn center_new_crop(old_crop: &Geometry, info: &WallInfo, new_res: &AspectRatio) -> (r: Geometry)
    requires
        new_res.wf(),
    ensures
        r == spec_center_new_crop(info@, *old_crop, *new_res),
        r.fits(info.width as int, info.height as int),
{
    let c2: u64 = match info.direction(old_crop) {
        Direction::X => 2 * (old_crop.x as u64) + old_crop.w as u64,
        Direction::Y => 2 * (old_crop.y as u64) + old_crop.h as u64,
    };
    info.cropper().clamp(c2, new_res)
}

/// One image after the retrofit of `new_res`, and whether its crop was re-centered.
pub fn retrofit_info(info: &WallInfo, new_res: &AspectRatio, closest: &Option<AspectRatio>) -> (r: (
    WallInfo,
    bool,
))
    requires
        new_res.wf(),
        closest matches Some(c) ==> c.wf(),
    ensures
        r.0@ == retrofit_view(info@, *new_res, *closest),
        r.1 == recentered(info@, *new_res, *closest),
{
    if info.has_geometry(new_res) {
        return (info.duplicate(), false);
    }
    let cropper = info.cropper();
    let default_crop = cropper.crop(new_res);
    match closest {
        None => (add_geometry(info, new_res, default_crop), false),
        Some(c) => {
            let recorded = info.get_geometry(c);
            if recorded == cropper.crop(c) || info.direction(&recorded) != info.direction(
                &default_crop,
            ) {
                (add_geometry(info, new_res, default_crop), false)
            } else {
                let g = center_new_crop(&recorded, info, new_res);
                (add_geometry(info, new_res, g), true)
            }
        },
    }
}

/// Brings a new ratio onto every image of the store that has no crop for it yet:
/// the default crop, or, where the closest ratio's crop was edited and runs along
/// the same axis, the new crop re-centered on it. Returns the filenames of the
/// re-centered images, in store order.
pub fn retrofit(csv: &mut WallpapersCsv, new_res: &AspectRatio, closest: &Option<AspectRatio>) -> (r:
    Vec<String>)
    requires
        new_res.wf(),
        closest matches Some(c) ==> c.wf(),
    ensures
        views(final(csv).infos@) == retrofit_store(views(old(csv).infos@), *new_res, *closest),
        r@.map_values(|s: String| s@) == recentered_names(views(old(csv).infos@), *new_res, *closest),
        old(csv).wf() ==> final(csv).wf(),
{
    let mut infos: Vec<WallInfo> = Vec::new();
    let mut moved: Vec<String> = Vec::new();
    let ghost old_views = views(csv.infos@);
    let mut i: usize = 0;
    while i < csv.infos.len()
        invariant
            0 <= i <= csv.infos@.len(),
            old_views == views(csv.infos@),
            csv == old(csv),
            new_res.wf(),
            closest matches Some(c) ==> c.wf(),
            views(infos@) =~= retrofit_store(old_views.take(i as int), *new_res, *closest),
            moved@.map_values(|s: String| s@) =~= recentered_names(
                old_views.take(i as int),
                *new_res,
                *closest,
            ),
        decreases csv.infos@.len() - i,
    {
        let (info, was_moved) = retrofit_info(&csv.infos[i], new_res, closest);
        if was_moved {
            moved.push(csv.infos[i].filename.clone());
        }
        let ghost prev = infos@;
        infos.push(info);
        i = i + 1;
        proof {
            assert(views(infos@) =~= views(prev).push(infos@[i - 1]@));
            assert(retrofit_store(old_views.take(i as int), *new_res, *closest) =~= retrofit_store(
                old_views.take(i - 1),
                *new_res,
                *closest,
            ).push(retrofit_view(old_views[i - 1], *new_res, *closest)));
            assert(old_views.take(i as int).drop_last() =~= old_views.take(i - 1));
            assert(old_views.take(i as int).last() == csv.infos@[i - 1]@);
        }
    }
    proof {
        assert(old_views.take(csv.infos@.len() as int) =~= old_views);
        assert forall|a: int, b: int| 0 <= a < b < infos@.len() && old(csv).wf() implies (#[trigger] infos@[a]).filename@
            != (#[trigger] infos@[b]).filename@ by {
            assert(views(infos@)[a].filename == old_views[a].filename);
            assert(views(infos@)[b].filename == old_views[b].filename);
            assert(old(csv).infos@[a]@ == old_views[a]);
            assert(old(csv).infos@[b]@ == old_views[b]);
        }
    }
    csv.infos = infos;
    moved
}

/// The distance of `r` from `t` as a fraction: |r.w/r.h - t.w/t.h| is
/// `dist_num(r, t) / dist_den(r, t)`.
pub open spec fn dist_num(r: AspectRatio, t: AspectRatio) -> int {
    let d = r.w * t.h - t.w * r.h;
    if d < 0 {
        -d
    } else {
        d
    }
}

pub open spec fn dist_den(r: AspectRatio, t: AspectRatio) -> int {
    r.h * t.h
}

/// `a` is at most as far from `t` as `b`.
pub open spec fn no_farther(a: AspectRatio, b: AspectRatio, t: AspectRatio) -> bool {
    dist_num(a, t) * dist_den(b, t) <= dist_num(b, t) * dist_den(a, t)
}

fn dist_parts(r: &AspectRatio, t: &AspectRatio) -> (out: (u128, u128))
    ensures
        out.0 == dist_num(*r, *t),
        out.1 == dist_den(*r, *t),
        out.0 <= u32::MAX * u32::MAX,
        out.1 <= u32::MAX * u32::MAX,
{
    proof {
        crate::cropper::lemma_mul_u32(r.w as int, t.h as int);
        crate::cropper::lemma_mul_u32(t.w as int, r.h as int);
        crate::cropper::lemma_mul_u32(r.h as int, t.h as int);
    }
    let a = (r.w as u128) * (t.h as u128);
    let b = (t.w as u128) * (r.h as u128);
    let n = if a >= b { a - b } else { b - a };
    (n, (r.h as u128) * (t.h as u128))
}

/// The index of the configured ratio closest to `target` (the first of equally
/// close ones), or `None` when there is none.
pub fn closest_resolution(resolutions: &Vec<AspectRatio>, target: &AspectRatio) -> (r: Option<usize>)
    requires
        target.wf(),
        forall|j: int| 0 <= j < resolutions@.len() ==> (#[trigger] resolutions@[j]).wf(),
    ensures
        r is None <==> resolutions@.len() == 0,
        r matches Some(i) ==> i < resolutions@.len() && forall|j: int|
            0 <= j < resolutions@.len() ==> no_farther(
                resolutions@[i as int],
                #[trigger] resolutions@[j],
                *target,
            ),
{
    if resolutions.len() == 0 {
        return None;
    }
    let mut best: usize = 0;
    let (mut bn, mut bd) = dist_parts(&resolutions[0], target);
    let mut i: usize = 1;
    while i < resolutions.len()
        invariant
            0 <= best < i <= resolutions@.len(),
            bn == dist_num(resolutions@[best as int], *target),
            bd == dist_den(resolutions@[best as int], *target),
            bn <= u32::MAX * u32::MAX,
            target.wf(),
            forall|j: int| 0 <= j < resolutions@.len() ==> (#[trigger] resolutions@[j]).wf(),
            bd <= u32::MAX * u32::MAX,
            forall|j: int|
                0 <= j < i ==> no_farther(resolutions@[best as int], #[trigger] resolutions@[j], *target),
        decreases resolutions@.len() - i,
    {
        let (n, d) = dist_parts(&resolutions[i], target);
        proof {
            lemma_mul_bound(n as int, bd as int);
            lemma_mul_bound(bn as int, d as int);
        }
        if n * bd < bn * d {
            proof {
                let old_best = resolutions@[best as int];
                let new_best = resolutions@[i as int];
                assert forall|j: int| 0 <= j <= i implies no_farther(new_best, #[trigger] resolutions@[j], *target) by {
                    if j < i {
                        let c = resolutions@[j];
                        assert(old_best.wf() && c.wf() && new_best.wf());
                        assert(dist_den(old_best, *target) > 0) by (nonlinear_arith)
                            requires old_best.h > 0, target.h > 0, dist_den(old_best, *target) == old_best.h * target.h;
                        assert(dist_den(new_best, *target) >= 0) by (nonlinear_arith)
                            requires new_best.h > 0, target.h > 0, dist_den(new_best, *target) == new_best.h * target.h;
                        assert(dist_den(c, *target) >= 0) by (nonlinear_arith)
                            requires c.h > 0, target.h > 0, dist_den(c, *target) == c.h * target.h;
                        lemma_no_farther_trans(new_best, old_best, c, *target);
                    }
                }
            }
            best = i;
            bn = n;
            bd = d;
        }
        i = i + 1;
    }
    Some(best)
}

proof fn lemma_mul_bound(a: int, b: int)
    requires
        0 <= a <= u32::MAX * u32::MAX,
        0 <= b <= u32::MAX * u32::MAX,
    ensures
        0 <= a * b <= u128::MAX,
{
    assert(u32::MAX * u32::MAX * (u32::MAX * u32::MAX) <= u128::MAX);
    assert(0 <= a * b <= u32::MAX * u32::MAX * (u32::MAX * u32::MAX)) by (nonlinear_arith)
        requires
            0 <= a <= u32::MAX * u32::MAX,
            0 <= b <= u32::MAX * u32::MAX,
    ;
}

proof fn lemma_no_farther_trans(a: AspectRatio, b: AspectRatio, c: AspectRatio, t: AspectRatio)
    requires
        dist_num(a, t) * dist_den(b, t) < dist_num(b, t) * dist_den(a, t),
        no_farther(b, c, t),
        dist_den(a, t) >= 0,
        dist_den(b, t) > 0,
        dist_den(c, t) >= 0,
        dist_num(a, t) >= 0,
        dist_num(b, t) >= 0,
        dist_num(c, t) >= 0,
    ensures
        no_farther(a, c, t),
{
    let (na, da, nb, db, nc, dc) = (
        dist_num(a, t),
        dist_den(a, t),
        dist_num(b, t),
        dist_den(b, t),
        dist_num(c, t),
        dist_den(c, t),
    );
    assert(na * dc <= nc * da) by (nonlinear_arith)
        requires
            na * db < nb * da,
            nb * dc <= nc * db,
            da >= 0,
            db > 0,
            dc >= 0,
            na >= 0,
            nb >= 0,
            nc >= 0,
    ;
}

} // verus!
