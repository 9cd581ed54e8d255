use vstd::prelude::*;
use crate::cropper::{AspectRatio, CropModel, Cropper, Face};
use crate::geometry::{Direction, Geometry};

verus! {

/// The per-image record of the metadata store.
#[derive(Debug, Clone)]
pub struct WallInfo {
    pub filename: String,
    pub width: u32,
    pub height: u32,
    pub faces: Vec<Face>,
    /// One crop per aspect ratio, in the order the ratios were added.
    pub geometries: Vec<(AspectRatio, Geometry)>,
    /// An opaque theming token.
    pub wallust: String,
}

/// The mathematical content of a [`WallInfo`].
pub struct InfoView {
    pub filename: Seq<char>,
    pub width: u32,
    pub height: u32,
    pub faces: Seq<Face>,
    pub geometries: Seq<(AspectRatio, Geometry)>,
    pub wallust: Seq<char>,
}

impl View for WallInfo {
    type V = InfoView;

    open spec fn view(&self) -> InfoView {
        InfoView {
            filename: self.filename@,
            width: self.width,
            height: self.height,
            faces: self.faces@,
            geometries: self.geometries@,
            wallust: self.wallust@,
        }
    }
}

/// The crop recorded for `ratio`: the first entry whose ratio has the same proportion.
pub open spec fn lookup(geoms: Seq<(AspectRatio, Geometry)>, ratio: AspectRatio) -> Option<Geometry>
    decreases geoms.len(),
{
    if geoms.len() == 0 {
        None
    } else if geoms[0].0.same(ratio) {
        Some(geoms[0].1)
    } else {
        lookup(geoms.drop_first(), ratio)
    }
}

/// Records `g` for `ratio`: replaces the first entry of the same proportion, or
/// appends a new one.
pub open spec fn upsert(
    geoms: Seq<(AspectRatio, Geometry)>,
    ratio: AspectRatio,
    g: Geometry,
) -> Seq<(AspectRatio, Geometry)>
    decreases geoms.len(),
{
    if geoms.len() == 0 {
        seq![(ratio, g)]
    } else if geoms[0].0.same(ratio) {
        geoms.update(0, (geoms[0].0, g))
    } else {
        seq![geoms[0]] + upsert(geoms.drop_first(), ratio, g)
    }
}

/// `k` is the first entry whose ratio has the proportion of `ratio`.
pub open spec fn first_match(geoms: Seq<(AspectRatio, Geometry)>, ratio: AspectRatio, k: int) -> bool {
    0 <= k < geoms.len() && geoms[k].0.same(ratio) && forall|j: int|
        0 <= j < k ==> !(#[trigger] geoms[j]).0.same(ratio)
}

pub open spec fn no_match(geoms: Seq<(AspectRatio, Geometry)>, ratio: AspectRatio) -> bool {
    forall|j: int| 0 <= j < geoms.len() ==> !(#[trigger] geoms[j]).0.same(ratio)
}

proof fn lemma_lookup_first(geoms: Seq<(AspectRatio, Geometry)>, ratio: AspectRatio, k: int)
    requires
        first_match(geoms, ratio, k),
    ensures
        lookup(geoms, ratio) == Some(geoms[k].1),
        upsert(geoms, ratio, geoms[k].1) == geoms,
    decreases k,
{
    if k > 0 {
        assert(!geoms[0].0.same(ratio));
        let rest = geoms.drop_first();
        assert forall|j: int| 0 <= j < k - 1 implies !(#[trigger] rest[j]).0.same(ratio) by {
            assert(rest[j] == geoms[j + 1]);
        }
        lemma_lookup_first(rest, ratio, k - 1);
        assert(seq![geoms[0]] + rest =~= geoms);
    } else {
        assert(geoms.update(0, (geoms[0].0, geoms[0].1)) =~= geoms);
    }
}

proof fn lemma_upsert_first(
    geoms: Seq<(AspectRatio, Geometry)>,
    ratio: AspectRatio,
    g: Geometry,
    k: int,
)
    requires
        first_match(geoms, ratio, k),
    ensures
        upsert(geoms, ratio, g) == geoms.update(k, (geoms[k].0, g)),
        lookup(upsert(geoms, ratio, g), ratio) == Some(g),
    decreases k,
{
    if k > 0 {
        let rest = geoms.drop_first();
        assert forall|j: int| 0 <= j < k - 1 implies !(#[trigger] rest[j]).0.same(ratio) by {
            assert(rest[j] == geoms[j + 1]);
        }
        lemma_upsert_first(rest, ratio, g, k - 1);
        assert(seq![geoms[0]] + rest.update(k - 1, (rest[k - 1].0, g)) =~= geoms.update(
            k,
            (geoms[k].0, g),
        ));
        let u = upsert(geoms, ratio, g);
        assert(u.drop_first() =~= upsert(rest, ratio, g));
    }
}

proof fn lemma_no_match(geoms: Seq<(AspectRatio, Geometry)>, ratio: AspectRatio, g: Geometry)
    requires
        no_match(geoms, ratio),
        ratio.wf(),
    ensures
        lookup(geoms, ratio) == None::<Geometry>,
        upsert(geoms, ratio, g) == geoms.push((ratio, g)),
        lookup(geoms.push((ratio, g)), ratio) == Some(g),
    decreases geoms.len(),
{
    if geoms.len() > 0 {
        let rest = geoms.drop_first();
        assert forall|j: int| 0 <= j < rest.len() implies !(#[trigger] rest[j]).0.same(ratio) by {
            assert(rest[j] == geoms[j + 1]);
        }
        lemma_no_match(rest, ratio, g);
        assert(seq![geoms[0]] + rest.push((ratio, g)) =~= geoms.push((ratio, g)));
        assert(geoms.push((ratio, g)).drop_first() =~= rest.push((ratio, g)));
    } else {
        assert(ratio.same(ratio));
    }
}

/// Finds the first entry whose ratio has the proportion of `ratio`.
fn find_ratio(geoms: &Vec<(AspectRatio, Geometry)>, ratio: &AspectRatio) -> (r: Option<usize>)
    ensures
        r matches Some(k) ==> first_match(geoms@, *ratio, k as int),
        r is None ==> no_match(geoms@, *ratio),
{
    let mut i: usize = 0;
    while i < geoms.len()
        invariant
            0 <= i <= geoms@.len(),
            forall|j: int| 0 <= j < i ==> !(#[trigger] geoms@[j]).0.same(*ratio),
        decreases geoms@.len() - i,
    {
        if geoms[i].0.same_as(ratio) {
            return Some(i);
        }
        i = i + 1;
    }
    None
}

/// An element-by-element copy.
fn copy_geometries(v: &Vec<(AspectRatio, Geometry)>) -> (r: Vec<(AspectRatio, Geometry)>)
    ensures
        r@ == v@,
{
    let mut out: Vec<(AspectRatio, Geometry)> = Vec::new();
    let mut i: usize = 0;
    while i < v.len()
        invariant
            0 <= i <= v@.len(),
            out@ =~= v@.take(i as int),
        decreases v@.len() - i,
    {
        out.push(v[i]);
        i = i + 1;
        proof {
            assert(v@.take(i as int) =~= v@.take(i - 1).push(v@[i - 1]));
        }
    }
    proof {
        assert(v@.take(v@.len() as int) =~= v@);
    }
    out
}

impl InfoView {
    pub open spec fn crop_model(self) -> CropModel {
        CropModel { faces: self.faces, width: self.width, height: self.height }
    }

    /// The default crop for `ratio`.
    pub open spec fn default_crop(self, ratio: AspectRatio) -> Geometry {
        self.crop_model().candidates(ratio)[0]
    }

    /// The recorded crop for `ratio`, or the default crop when none is recorded.
    pub open spec fn geometry(self, ratio: AspectRatio) -> Geometry {
        match lookup(self.geometries, ratio) {
            Some(g) => g,
            None => self.default_crop(ratio),
        }
    }

    /// `X` when the crop is at most as wide, relative to its height, as the image.
    pub open spec fn direction(self, g: Geometry) -> Direction {
        if g.w * self.height <= self.width * g.h {
            Direction::X
        } else {
            Direction::Y
        }
    }

    /// Every listed ratio still uses its default crop.
    pub open spec fn is_default_crops(self, ratios: Seq<AspectRatio>) -> bool {
        forall|i: int|
            0 <= i < ratios.len() ==> self.geometry(#[trigger] ratios[i]) == self.default_crop(
                ratios[i],
            )
    }
}

impl WallInfo {
    /// A copy with the same content.
    pub fn duplicate(&self) -> (r: WallInfo)
        ensures
            r@ == self@,
    {
        let faces = self.faces.clone();
        let geometries = copy_geometries(&self.geometries);
        proof {
            assert(faces@ =~= self.faces@);
        }
        WallInfo {
            filename: self.filename.clone(),
            width: self.width,
            height: self.height,
            faces,
            geometries,
            wallust: self.wallust.clone(),
        }
    }

    pub fn image_dimensions(&self) -> (r: (u32, u32))
        ensures
            r == (self.width, self.height),
    {
        (self.width, self.height)
    }

    /// The cropper for this image.
    pub fn cropper(&self) -> (r: Cropper)
        ensures
            r@ == self@.crop_model(),
    {
        Cropper::new(&self.faces, self.width, self.height)
    }

    /// The crop for `ratio`: the recorded one, else the default crop.
    pub fn get_geometry(&self, ratio: &AspectRatio) -> (r: Geometry)
        requires
            ratio.wf(),
        ensures
            r == self@.geometry(*ratio),
    {
        match find_ratio(&self.geometries, ratio) {
            Some(k) => {
                proof {
                    lemma_lookup_first(self.geometries@, *ratio, k as int);
                }
                self.geometries[k].1
            },
            None => {
                proof {
                    lemma_no_match(self.geometries@, *ratio, Geometry { w: 0, h: 0, x: 0, y: 0 });
                }
                self.cropper().crop(ratio)
            },
        }
    }

    /// Whether a crop is recorded for `ratio`.
    pub fn has_geometry(&self, ratio: &AspectRatio) -> (r: bool)
        requires
            ratio.wf(),
        ensures
            r == lookup(self@.geometries, *ratio) is Some,
    {
        match find_ratio(&self.geometries, ratio) {
            Some(k) => {
                proof {
                    lemma_lookup_first(self.geometries@, *ratio, k as int);
                }
                true
            },
            None => {
                proof {
                    lemma_no_match(self.geometries@, *ratio, Geometry { w: 0, h: 0, x: 0, y: 0 });
                }
                false
            },
        }
    }

    /// Records `geom` as the crop for `ratio`.
    pub fn set_geometry(&mut self, ratio: &AspectRatio, geom: &Geometry)
        requires
            ratio.wf(),
        ensures
            final(self)@.geometries == upsert(old(self)@.geometries, *ratio, *geom),
            final(self)@.geometry(*ratio) == *geom,
            final(self)@.filename == old(self)@.filename,
            final(self)@.width == old(self)@.width,
            final(self)@.height == old(self)@.height,
            final(self)@.faces == old(self)@.faces,
            final(self)@.wallust == old(self)@.wallust,
    {
        match find_ratio(&self.geometries, ratio) {
            Some(k) => {
                proof {
                    lemma_upsert_first(self.geometries@, *ratio, *geom, k as int);
                }
                let old_ratio = self.geometries[k].0;
                self.geometries.set(k, (old_ratio, *geom));
            },
            None => {
                proof {
                    lemma_no_match(self.geometries@, *ratio, *geom);
                }
                self.geometries.push((*ratio, *geom));
            },
        }
    }

    /// The axis along which `geom` is narrower (`X`) or shorter (`Y`) than the image;
    /// a crop of the image's own proportion counts as `X`.
    pub fn direction(&self, geom: &Geometry) -> (r: Direction)
        ensures
            r == self@.direction(*geom),
    {
        proof {
            crate::cropper::lemma_mul_u32(geom.w as int, self.height as int);
            crate::cropper::lemma_mul_u32(self.width as int, geom.h as int);
        }
        if (geom.w as u64) * (self.height as u64) <= (self.width as u64) * (geom.h as u64) {
            Direction::X
        } else {
            Direction::Y
        }
    }

    /// Whether every listed ratio still uses its default crop.
    pub fn is_default_crops(&self, ratios: &Vec<AspectRatio>) -> (r: bool)
        requires
            forall|i: int| 0 <= i < ratios@.len() ==> (#[trigger] ratios@[i]).wf(),
        ensures
            r == self@.is_default_crops(ratios@),
    {
        let cropper = self.cropper();
        let mut i: usize = 0;
        while i < ratios.len()
            invariant
                0 <= i <= ratios@.len(),
                cropper@ == self@.crop_model(),
                forall|j: int| 0 <= j < ratios@.len() ==> (#[trigger] ratios@[j]).wf(),
                forall|j: int|
                    0 <= j < i ==> self@.geometry(#[trigger] ratios@[j]) == self@.default_crop(
                        ratios@[j],
                    ),
            decreases ratios@.len() - i,
        {
            if self.get_geometry(&ratios[i]) != cropper.crop(&ratios[i]) {
                return false;
            }
            i = i + 1;
        }
        true
    }
}

/// The metadata store: one record per filename, in insertion order.
#[derive(Debug, Clone, Default)]
pub struct WallpapersCsv {
    pub infos: Vec<WallInfo>,
}

impl WallpapersCsv {
    /// No two records share a filename.
    pub open spec fn wf(self) -> bool {
        forall|i: int, j: int|
            0 <= i < j < self.infos@.len() ==> (#[trigger] self.infos@[i]).filename@
                != (#[trigger] self.infos@[j]).filename@
    }

    /// The index of the record for `fname`, if any.
    pub open spec fn has_at(self, fname: Seq<char>, k: int) -> bool {
        0 <= k < self.infos@.len() && self.infos@[k].filename@ == fname
    }

    pub open spec fn contains(self, fname: Seq<char>) -> bool {
        exists|k: int| self.has_at(fname, k)
    }

    /// An empty store.
    pub fn new() -> (r: WallpapersCsv)
        ensures
            r.infos@.len() == 0,
            r.wf(),
    {
        WallpapersCsv { infos: Vec::new() }
    }

    pub fn len(&self) -> (r: usize)
        ensures
            r == self.infos@.len(),
    {
        self.infos.len()
    }

    /// The position of the record for `fname`.
    pub fn position(&self, fname: &String) -> (r: Option<usize>)
        ensures
            r matches Some(k) ==> self.has_at(fname@, k as int),
            r is None <==> !self.contains(fname@),
    {
        let mut i: usize = 0;
        while i < self.infos.len()
            invariant
                0 <= i <= self.infos@.len(),
                forall|j: int| 0 <= j < i ==> (#[trigger] self.infos@[j]).filename@ != fname@,
            decreases self.infos@.len() - i,
        {
            if self.infos[i].filename == *fname {
                proof {
                    assert(self.has_at(fname@, i as int));
                }
                return Some(i);
            }
            i = i + 1;
        }
        None
    }

    /// The record for `fname`.
    pub fn get(&self, fname: &String) -> (r: Option<&WallInfo>)
        ensures
            r is None <==> !self.contains(fname@),
            r matches Some(info) ==> exists|k: int| self.has_at(fname@, k) && *info == self.infos@[k],
    {
        match self.position(fname) {
            Some(k) => Some(&self.infos[k]),
            None => None,
        }
    }

    /// Adds `info`, replacing the record of the same filename if there is one.
    pub fn insert(&mut self, info: WallInfo)
        requires
            old(self).wf(),
        ensures
            final(self).wf(),
            old(self).contains(info.filename@) ==> exists|k: int|
                old(self).has_at(info.filename@, k) && final(self).infos@ == old(
                    self,
                ).infos@.update(k, info),
            !old(self).contains(info.filename@) ==> final(self).infos@ == old(self).infos@.push(
                info,
            ),
    {
        match self.position(&info.filename) {
            Some(k) => {
                self.infos.set(k, info);
                proof {
                    assert(old(self).has_at(self.infos@[k as int].filename@, k as int));
                    assert forall|i: int, j: int|
                        0 <= i < j < self.infos@.len() implies (#[trigger] self.infos@[i]).filename@
                        != (#[trigger] self.infos@[j]).filename@ by {
                        if i != k && j != k {
                            assert(old(self).infos@[i] == self.infos@[i]);
                            assert(old(self).infos@[j] == self.infos@[j]);
                        }
                    }
                }
            },
            None => {
                self.infos.push(info);
                proof {
                    assert forall|i: int, j: int|
                        0 <= i < j < self.infos@.len() implies (#[trigger] self.infos@[i]).filename@
                        != (#[trigger] self.infos@[j]).filename@ by {
                        if j == self.infos@.len() - 1 {
                            assert(!old(self).has_at(info.filename@, i));
                        } else {
                            assert(old(self).infos@[i] == self.infos@[i]);
                            assert(old(self).infos@[j] == self.infos@[j]);
                        }
                    }
                }
            },
        }
    }
}

/// One row of the persisted table.
#[derive(Debug, Clone)]
pub struct CsvRow {
    pub filename: String,
    pub width: u32,
    pub height: u32,
    pub faces: Vec<Face>,
    /// The crop of each resolution, in the order asked for, as `"{x}+{y}"`.
    pub crops: Vec<String>,
    pub wallust: String,
}

impl WallInfo {
    /// The row of this record, with one crop column per resolution in `resolutions`.
    pub fn to_row(&self, resolutions: &Vec<AspectRatio>) -> (r: CsvRow)
        requires
            forall|i: int| 0 <= i < resolutions@.len() ==> (#[trigger] resolutions@[i]).wf(),
        ensures
            r.filename@ == self.filename@,
            r.width == self.width,
            r.height == self.height,
            r.faces@ == self.faces@,
            r.wallust@ == self.wallust@,
            r.crops@.len() == resolutions@.len(),
            forall|j: int|
                0 <= j < resolutions@.len() ==> (#[trigger] r.crops@[j])@
                    == crate::geometry::offset_text(self@.geometry(resolutions@[j])),
    {
        let mut crops: Vec<String> = Vec::new();
        let mut j: usize = 0;
        while j < resolutions.len()
            invariant
                0 <= j <= resolutions@.len(),
                crops@.len() == j,
                forall|i: int| 0 <= i < resolutions@.len() ==> (#[trigger] resolutions@[i]).wf(),
                forall|i: int|
                    0 <= i < j ==> (#[trigger] crops@[i])@ == crate::geometry::offset_text(
                        self@.geometry(resolutions@[i]),
                    ),
            decreases resolutions@.len() - j,
        {
            let g = self.get_geometry(&resolutions[j]);
            crops.push(g.offset_text());
            j = j + 1;
        }
        let faces = self.faces.clone();
        proof {
            assert(faces@ =~= self.faces@);
        }
        CsvRow {
            filename: self.filename.clone(),
            width: self.width,
            height: self.height,
            faces,
            crops,
            wallust: self.wallust.clone(),
        }
    }
}

impl WallpapersCsv {
    /// The whole table, one row per record in store order, with one crop column
    /// per resolution in `resolutions`.
    pub fn rows(&self, resolutions: &Vec<AspectRatio>) -> (r: Vec<CsvRow>)
        requires
            forall|i: int| 0 <= i < resolutions@.len() ==> (#[trigger] resolutions@[i]).wf(),
        ensures
            r@.len() == self.infos@.len(),
            forall|k: int|
                0 <= k < r@.len() ==> {
                    &&& (#[trigger] r@[k]).filename@ == self.infos@[k].filename@
                    &&& r@[k].width == self.infos@[k].width
                    &&& r@[k].height == self.infos@[k].height
                    &&& r@[k].faces@ == self.infos@[k].faces@
                    &&& r@[k].wallust@ == self.infos@[k].wallust@
                    &&& r@[k].crops@.len() == resolutions@.len()
                    &&& forall|j: int|
                        0 <= j < resolutions@.len() ==> (#[trigger] r@[k].crops@[j])@
                            == crate::geometry::offset_text(
                            self.infos@[k]@.geometry(resolutions@[j]),
                        )
                },
    {
        let mut out: Vec<CsvRow> = Vec::new();
        let mut k: usize = 0;
        while k < self.infos.len()
            invariant
                0 <= k <= self.infos@.len(),
                out@.len() == k,
                forall|i: int| 0 <= i < resolutions@.len() ==> (#[trigger] resolutions@[i]).wf(),
                forall|m: int|
                    0 <= m < k ==> {
                        &&& (#[trigger] out@[m]).filename@ == self.infos@[m].filename@
                        &&& out@[m].width == self.infos@[m].width
                        &&& out@[m].height == self.infos@[m].height
                        &&& out@[m].faces@ == self.infos@[m].faces@
                        &&& out@[m].wallust@ == self.infos@[m].wallust@
                        &&& out@[m].crops@.len() == resolutions@.len()
                        &&& forall|j: int|
                            0 <= j < resolutions@.len() ==> (#[trigger] out@[m].crops@[j])@
                                == crate::geometry::offset_text(
                                self.infos@[m]@.geometry(resolutions@[j]),
                            )
                    },
            decreases self.infos@.len() - k,
        {
            out.push(self.infos[k].to_row(resolutions));
            k = k + 1;
        }
        out
    }
}

/// Records `a` and `b` (`a` before `b`) show the same image content.
pub open spec fn is_duplicate_pair(digests: Seq<u64>, a: int, b: int) -> bool {
    0 <= a < b < digests.len() && digests[a] == digests[b]
}

impl WallpapersCsv {
    /// The pairs of records whose images have the same content, as index pairs
    /// (earlier, later); `digests[k]` is a digest of record `k`'s image content.
    /// Reading only: the store does not change.
    pub fn find_duplicates(&self, digests: &Vec<u64>) -> (r: Vec<(usize, usize)>)
        requires
            digests@.len() == self.infos@.len(),
        ensures
            r@.no_duplicates(),
            forall|a: usize, b: usize|
                #[trigger] r@.contains((a, b)) <==> is_duplicate_pair(digests@, a as int, b as int),
    {
        let n = digests.len();
        let mut out: Vec<(usize, usize)> = Vec::new();
        let mut i: usize = 0;
        while i < n
            invariant
                0 <= i <= n,
                n == digests@.len(),
                out@.no_duplicates(),
                forall|a: usize, b: usize|
                    #[trigger] out@.contains((a, b)) <==> (is_duplicate_pair(digests@, a as int, b as int)
                        && a < i),
            decreases n - i,
        {
            let mut j: usize = i + 1;
            while j < n
                invariant
                    i < n,
                    i + 1 <= j <= n,
                    n == digests@.len(),
                    out@.no_duplicates(),
                    forall|a: usize, b: usize|
                        #[trigger] out@.contains((a, b)) <==> (is_duplicate_pair(digests@, a as int, b as int)
                            && (a < i || (a == i && b < j))),
                decreases n - j,
            {
                if digests[i] == digests[j] {
                    let ghost prev = out@;
                    out.push((i, j));
                    proof {
                        assert forall|a: usize, b: usize|
                            #[trigger] out@.contains((a, b)) <==> (prev.contains((a, b)) || (a == i && b == j)) by {
                            if out@.contains((a, b)) {
                                let k = choose|k: int| 0 <= k < out@.len() && out@[k] == (a, b);
                                if k < prev.len() {
                                    assert(prev[k] == (a, b));
                                }
                            }
                            if prev.contains((a, b)) {
                                let k = choose|k: int| 0 <= k < prev.len() && prev[k] == (a, b);
                                assert(out@[k] == (a, b));
                            }
                            if a == i && b == j {
                                assert(out@[prev.len() as int] == (a, b));
                            }
                        }
                        assert(!prev.contains((i, j)));
                        assert forall|k: int, l: int| 0 <= k < l < out@.len() implies out@[k] != out@[l] by {
                            if l == prev.len() {
                                assert(prev[k] == out@[k]);
                                assert(prev.contains(out@[k]));
                            } else {
                                assert(prev[k] == out@[k] && prev[l] == out@[l]);
                            }
                        }
                    }
                }
                j = j + 1;
            }
            i = i + 1;
        }
        out
    }
}

} // verus!
