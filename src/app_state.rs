use vstd::prelude::*;
use itertools::Itertools;
use crate::cropper::AspectRatio;
use crate::geometry::{Direction, Geometry};
use crate::wallpapers::{WallInfo, WallpapersCsv};

verus! {

/// Which view the editor shows.
#[derive(Debug, Clone, Copy, PartialEq, Eq, Structural)]
pub enum UiMode {
    Editor,
    FileList,
    Palette,
}

impl Default for UiMode {
    fn default() -> (r: Self)
        ensures
            r == UiMode::Editor,
    {
        UiMode::Editor
    }
}

/// How the crop preview reacts: free panning, or showing candidates (with the
/// candidate last hovered, if any).
#[derive(Debug, Clone, Copy, PartialEq, Eq, Structural)]
pub enum PreviewMode {
    Pan,
    Candidate(Option<Geometry>),
}

impl Default for PreviewMode {
    fn default() -> (r: Self)
        ensures
            r == PreviewMode::Candidate(None),
    {
        PreviewMode::Candidate(None)
    }
}

/// The editor's view state.
#[derive(Debug, Clone, Copy, PartialEq, Eq, Structural)]
pub struct UiState {
    pub mode: UiMode,
    pub preview_mode: PreviewMode,
    pub show_faces: bool,
    pub is_saving: bool,
}

impl UiState {
    /// Switches between the file list and the editor.
    pub fn toggle_filelist(&mut self)
        ensures
            final(self).mode == (if old(self).mode == UiMode::FileList {
                UiMode::Editor
            } else {
                UiMode::FileList
            }),
            final(self).preview_mode == old(self).preview_mode,
            final(self).show_faces == old(self).show_faces,
            final(self).is_saving == old(self).is_saving,
    {
        self.mode = match self.mode {
            UiMode::FileList => UiMode::Editor,
            _ => UiMode::FileList,
        };
    }

    /// Switches between the palette and the editor.
    pub fn toggle_palette(&mut self)
        ensures
            final(self).mode == (if old(self).mode == UiMode::Palette {
                UiMode::Editor
            } else {
                UiMode::Palette
            }),
            final(self).preview_mode == old(self).preview_mode,
            final(self).show_faces == old(self).show_faces,
            final(self).is_saving == old(self).is_saving,
    {
        self.mode = match self.mode {
            UiMode::Palette => UiMode::Editor,
            _ => UiMode::Palette,
        };
    }
}

/// The first occurrence of each value, in order.
pub open spec fn dedup_first(s: Seq<Geometry>) -> Seq<Geometry>
    decreases s.len(),
{
    if s.len() == 0 {
        Seq::empty()
    } else {
        let rest = dedup_first(s.drop_last());
        if rest.contains(s.last()) {
            rest
        } else {
            rest.push(s.last())
        }
    }
}

/// Relies on `Itertools::unique`: it yields each value the first time it is seen
/// and skips it afterwards, so the result holds the first occurrences in order.
#[verifier::external_body]
fn unique_geometries(v: Vec<Geometry>) -> (r: Vec<Geometry>)
    ensures
        r@ == dedup_first(v@),
{
    v.into_iter().unique().collect()
}

/// A first-occurrence deduplication holds no value twice and loses none.
pub proof fn lemma_dedup_first(s: Seq<Geometry>)
    ensures
        dedup_first(s).no_duplicates(),
        forall|g: Geometry| dedup_first(s).contains(g) <==> s.contains(g),
    decreases s.len(),
{
    if s.len() > 0 {
        let t = s.drop_last();
        lemma_dedup_first(t);
        assert forall|g: Geometry| s.contains(g) <==> (t.contains(g) || g == s.last()) by {
            if s.contains(g) {
                let i = choose|i: int| 0 <= i < s.len() && s[i] == g;
                if i < s.len() - 1 {
                    assert(t[i] == g);
                }
            }
            if t.contains(g) {
                let i = choose|i: int| 0 <= i < t.len() && t[i] == g;
                assert(s[i] == g);
            }
            if g == s.last() {
                assert(s[s.len() - 1] == g);
            }
        }
        let rest = dedup_first(t);
        if !rest.contains(s.last()) {
            assert forall|g: Geometry| rest.push(s.last()).contains(g) <==> (rest.contains(g) || g == s.last()) by {
                if rest.push(s.last()).contains(g) {
                    let i = choose|i: int| 0 <= i < rest.len() + 1 && rest.push(s.last())[i] == g;
                    if i < rest.len() {
                        assert(rest[i] == g);
                    }
                }
                if rest.contains(g) {
                    let i = choose|i: int| 0 <= i < rest.len() && rest[i] == g;
                    assert(rest.push(s.last())[i] == g);
                }
                if g == s.last() {
                    assert(rest.push(s.last())[rest.len() as int] == g);
                }
            }
        }
    }
}

/// An image file of the session: its path, and its file name, which keys the store.
#[derive(Debug, Clone)]
pub struct WallFile {
    pub path: String,
    pub name: String,
}

/// Why the editor could not move to an image.
#[derive(Debug, Clone, Copy, PartialEq, Eq, Structural)]
pub enum EditorError {
    /// The store holds no record for the image.
    MissingRecord,
    /// No file of the session has that name.
    MissingFile,
}

/// The index before `i` in a list of `len`, wrapping to the last.
pub open spec fn prev_index(i: int, len: int) -> int {
    if i == 0 {
        len - 1
    } else {
        i - 1
    }
}

/// The index after `i` in a list of `len`, wrapping to the first.
pub open spec fn next_index(i: int, len: int) -> int {
    if i == len - 1 {
        0
    } else {
        i + 1
    }
}

/// The editor's session: the image files, the record as loaded (`source`) and
/// as edited (`current`), and the ratio being edited.
#[derive(Debug, Clone)]
pub struct Wallpapers {
    pub files: Vec<WallFile>,
    pub source: WallInfo,
    pub current: WallInfo,
    pub index: usize,
    pub ratio: AspectRatio,
    /// The configured resolutions as (name, ratio).
    pub resolutions: Vec<(String, AspectRatio)>,
}

/// The offset after moving `by` pixels (`negative` for backwards) from `pos` on an
/// axis where the offset may not pass `limit`: never below 0, never above `limit`.
pub open spec fn moved(pos: int, by: int, negative: bool, limit: int) -> int {
    if negative {
        if pos >= by {
            pos - by
        } else {
            0
        }
    } else if pos + by <= limit {
        pos + by
    } else {
        limit
    }
}

/// The resolutions whose ratio differs from the image's own `width`:`height`
/// (an image of the same proportion has one possible crop), in order.
pub open spec fn ratios_to_show(res: Seq<(String, AspectRatio)>, width: u32, height: u32) -> Seq<
    (String, AspectRatio),
>
    decreases res.len(),
{
    if res.len() == 0 {
        Seq::empty()
    } else {
        let rest = ratios_to_show(res.drop_last(), width, height);
        if width * res.last().1.h == res.last().1.w * height {
            rest
        } else {
            rest.push(res.last())
        }
    }
}

/// How far a crop of length `len` can move on an axis of length `dim`; none when
/// it does not fit.
pub open spec fn room(dim: int, len: int) -> int {
    if dim >= len {
        dim - len
    } else {
        0
    }
}

impl Wallpapers {
    pub open spec fn wf(self) -> bool {
        self.ratio.wf()
    }

    /// The crop being edited.
    pub open spec fn geometry(self) -> Geometry {
        self.current@.geometry(self.ratio)
    }

    /// The crop for the current ratio.
    pub fn get_geometry(&self) -> (r: Geometry)
        requires
            self.wf(),
        ensures
            r == self.geometry(),
    {
        self.current.get_geometry(&self.ratio)
    }

    /// Records `geom` as the crop for the current ratio.
    pub fn set_geometry(&mut self, geom: &Geometry)
        requires
            old(self).wf(),
        ensures
            final(self).current@ == crate::retrofit::with_geometry(
                old(self).current@,
                old(self).ratio,
                *geom,
            ),
            final(self).geometry() == *geom,
            final(self).source == old(self).source,
            final(self).ratio == old(self).ratio,
            final(self).index == old(self).index,
            final(self).files == old(self).files,
            final(self).resolutions == old(self).resolutions,
    {
        self.current.set_geometry(&self.ratio, geom);
    }

    /// The ranked crop candidates for the current ratio.
    pub fn crop_candidates(&self) -> (r: Vec<Geometry>)
        requires
            self.wf(),
        ensures
            r@ == self.current@.crop_model().candidates(self.ratio),
    {
        self.current.cropper().crop_candidates(&self.ratio)
    }

    /// The crop candidates for the current ratio, each value once, in rank order.
    pub fn candidate_geometries(&self) -> (r: Vec<Geometry>)
        requires
            self.wf(),
        ensures
            r@ == dedup_first(self.current@.crop_model().candidates(self.ratio)),
            r@.no_duplicates(),
            forall|g: Geometry|
                r@.contains(g) <==> self.current@.crop_model().candidates(self.ratio).contains(g),
    {
        let r = unique_geometries(self.crop_candidates());
        proof {
            lemma_dedup_first(self.current@.crop_model().candidates(self.ratio));
        }
        r
    }

    /// The resolutions to offer for this image: those whose ratio differs from
    /// the image's own.
    pub fn image_ratios(&self) -> (r: Vec<(String, AspectRatio)>)
        ensures
            r@ == ratios_to_show(self.resolutions@, self.current.width, self.current.height),
    {
        let mut out: Vec<(String, AspectRatio)> = Vec::new();
        let w = self.current.width as u64;
        let h = self.current.height as u64;
        let mut i: usize = 0;
        while i < self.resolutions.len()
            invariant
                0 <= i <= self.resolutions@.len(),
                w == self.current.width,
                h == self.current.height,
                out@ == ratios_to_show(self.resolutions@.take(i as int), self.current.width, self.current.height),
            decreases self.resolutions@.len() - i,
        {
            proof {
                assert(self.resolutions@.take(i + 1).drop_last() =~= self.resolutions@.take(i as int));
            }
            let r = self.resolutions[i].1;
            proof {
                crate::cropper::lemma_mul_u32(w as int, r.h as int);
                crate::cropper::lemma_mul_u32(r.w as int, h as int);
            }
            if w * (r.h as u64) != (r.w as u64) * h {
                out.push((self.resolutions[i].0.clone(), r));
            }
            i = i + 1;
        }
        proof {
            assert(self.resolutions@.take(self.resolutions@.len() as int) =~= self.resolutions@);
        }
        out
    }

    /// Whether the crop for `ratio` was edited since the record was loaded.
    pub fn is_modified(&self, ratio: &AspectRatio) -> (r: bool)
        requires
            ratio.wf(),
        ensures
            r == (self.current@.geometry(*ratio) != self.source@.geometry(*ratio)),
    {
        self.current.get_geometry(ratio) != self.source.get_geometry(ratio)
    }

    /// Loads the record of file `i` as both the loaded and the edited record.
    fn load(&mut self, csv: &WallpapersCsv, i: usize) -> (r: Result<(), EditorError>)
        requires
            i < old(self).files@.len(),
            csv.wf(),
        ensures
            !csv.contains(old(self).files@[i as int].name@) ==> r == Err::<(), EditorError>(
                EditorError::MissingRecord,
            ) && *final(self) == *old(self),
            csv.contains(old(self).files@[i as int].name@) ==> r is Ok && exists|k: int|
                csv.has_at(old(self).files@[i as int].name@, k) && final(self).source@ == csv.infos@[k]@
                    && final(self).current@ == csv.infos@[k]@,
            r is Ok ==> final(self).index == i,
            final(self).files == old(self).files,
            final(self).ratio == old(self).ratio,
            final(self).resolutions == old(self).resolutions,
    {
        match csv.position(&self.files[i].name) {
            None => Err(EditorError::MissingRecord),
            Some(k) => {
                self.source = csv.infos[k].duplicate();
                self.current = csv.infos[k].duplicate();
                self.index = i;
                Ok(())
            },
        }
    }

    /// Moves to the previous image, wrapping to the last, and loads its record.
    /// Without a record nothing changes.
    pub fn prev_wall(&mut self, csv: &WallpapersCsv) -> (r: Result<(), EditorError>)
        requires
            old(self).index < old(self).files@.len(),
            csv.wf(),
        ensures
            ({
                let i = prev_index(old(self).index as int, old(self).files@.len() as int);
                &&& !csv.contains(old(self).files@[i].name@) ==> r == Err::<(), EditorError>(
                    EditorError::MissingRecord,
                ) && *final(self) == *old(self)
                &&& csv.contains(old(self).files@[i].name@) ==> r is Ok && final(self).index == i
                    && exists|k: int|
                    csv.has_at(old(self).files@[i].name@, k) && final(self).source@ == csv.infos@[k]@
                        && final(self).current@ == csv.infos@[k]@
            }),
            final(self).files == old(self).files,
            final(self).ratio == old(self).ratio,
            final(self).resolutions == old(self).resolutions,
    {
        let i = if self.index == 0 {
            self.files.len() - 1
        } else {
            self.index - 1
        };
        self.load(csv, i)
    }

    /// Moves to the next image, wrapping to the first, and loads its record.
    /// Without a record nothing changes.
    pub fn next_wall(&mut self, csv: &WallpapersCsv) -> (r: Result<(), EditorError>)
        requires
            old(self).index < old(self).files@.len(),
            csv.wf(),
        ensures
            ({
                let i = next_index(old(self).index as int, old(self).files@.len() as int);
                &&& !csv.contains(old(self).files@[i].name@) ==> r == Err::<(), EditorError>(
                    EditorError::MissingRecord,
                ) && *final(self) == *old(self)
                &&& csv.contains(old(self).files@[i].name@) ==> r is Ok && final(self).index == i
                    && exists|k: int|
                    csv.has_at(old(self).files@[i].name@, k) && final(self).source@ == csv.infos@[k]@
                        && final(self).current@ == csv.infos@[k]@
            }),
            final(self).files == old(self).files,
            final(self).ratio == old(self).ratio,
            final(self).resolutions == old(self).resolutions,
    {
        let i = if self.index == self.files.len() - 1 {
            0
        } else {
            self.index + 1
        };
        self.load(csv, i)
    }

    /// Drops the current image from the session and shows the one after it (the
    /// first, when it was the last). Without a record for that one nothing changes.
    pub fn remove(&mut self, csv: &WallpapersCsv) -> (r: Result<(), EditorError>)
        requires
            old(self).index < old(self).files@.len(),
            csv.wf(),
        ensures
            ({
                let n = next_index(old(self).index as int, old(self).files@.len() as int);
                &&& !csv.contains(old(self).files@[n].name@) ==> r == Err::<(), EditorError>(
                    EditorError::MissingRecord,
                ) && *final(self) == *old(self)
                &&& csv.contains(old(self).files@[n].name@) ==> {
                    &&& r is Ok
                    &&& final(self).files@ == old(self).files@.remove(old(self).index as int)
                    &&& old(self).index < final(self).files@.len() ==> final(self).index == old(self).index
                    &&& old(self).index >= final(self).files@.len() ==> final(self).index == 0
                    &&& exists|k: int|
                        csv.has_at(old(self).files@[n].name@, k) && final(self).current@ == csv.infos@[k]@
                            && final(self).source@ == csv.infos@[k]@
                }
            }),
    {
        let current_index = self.index;
        match self.next_wall(csv) {
            Err(e) => Err(e),
            Ok(()) => {
                self.files.remove(current_index);
                self.index = if current_index < self.files.len() {
                    current_index
                } else {
                    0
                };
                Ok(())
            },
        }
    }

    /// Shows the image named `fname`.
    pub fn set_from_filename(&mut self, csv: &WallpapersCsv, fname: &String) -> (r: Result<
        (),
        EditorError,
    >)
        requires
            csv.wf(),
        ensures
            !csv.contains(fname@) ==> r == Err::<(), EditorError>(EditorError::MissingRecord)
                && *final(self) == *old(self),
            csv.contains(fname@) && !(exists|i: int|
                0 <= i < old(self).files@.len() && (#[trigger] old(self).files@[i]).name@ == fname@)
                ==> r == Err::<(), EditorError>(EditorError::MissingFile) && *final(self) == *old(
                self,
            ),
            r is Ok ==> final(self).index < final(self).files@.len()
                && final(self).files@[final(self).index as int].name@ == fname@ && exists|k: int|
                csv.has_at(fname@, k) && final(self).source@ == csv.infos@[k]@
                    && final(self).current@ == csv.infos@[k]@,
            r is Ok <==> csv.contains(fname@) && exists|i: int|
                0 <= i < old(self).files@.len() && (#[trigger] old(self).files@[i]).name@ == fname@,
    {
        if csv.position(fname).is_none() {
            return Err(EditorError::MissingRecord);
        }
        let mut i: usize = 0;
        while i < self.files.len()
            invariant
                0 <= i <= self.files@.len(),
                csv.wf(),
                csv.contains(fname@),
                *self == *old(self),
                forall|j: int| 0 <= j < i ==> (#[trigger] self.files@[j]).name@ != fname@,
            decreases self.files@.len() - i,
        {
            if self.files[i].name == *fname {
                let r = self.load(csv, i);
                proof {
                    let k = choose|k: int| csv.has_at(fname@, k);
                    assert(csv.has_at(old(self).files@[i as int].name@, k));
                }
                return r;
            }
            i = i + 1;
        }
        Err(EditorError::MissingFile)
    }

    /// The crop moved by `delta` pixels along its axis: the offset never goes
    /// below 0, nor past the image's far edge (nor past 0 for a crop larger than
    /// the image).
    pub fn move_geometry_by(&self, delta: i32) -> (r: Geometry)
        requires
            self.wf(),
        ensures
            ({
                let g = self.geometry();
                let by = if delta < 0 { -(delta as int) } else { delta as int };
                match self.current@.direction(g) {
                    Direction::X => r == Geometry {
                        x: moved(g.x as int, by, delta < 0, room(self.current.width as int, g.w as int)) as u32,
                        ..g
                    },
                    Direction::Y => r == Geometry {
                        y: moved(g.y as int, by, delta < 0, room(self.current.height as int, g.h as int)) as u32,
                        ..g
                    },
                }
            }),
    {
        let g = self.get_geometry();
        let negative = delta < 0;
        let by: u64 = if negative { (-(delta as i64)) as u64 } else { delta as u64 };
        match self.current.direction(&g) {
            Direction::X => {
                let limit: u64 = if self.current.width >= g.w { (self.current.width - g.w) as u64 } else { 0 };
                let x: u64 = if negative {
                    if g.x as u64 >= by { g.x as u64 - by } else { 0 }
                } else if g.x as u64 + by <= limit {
                    g.x as u64 + by
                } else {
                    limit
                };
                Geometry { x: x as u32, ..g }
            },
            Direction::Y => {
                let limit: u64 = if self.current.height >= g.h { (self.current.height - g.h) as u64 } else { 0 };
                let y: u64 = if negative {
                    if g.y as u64 >= by { g.y as u64 - by } else { 0 }
                } else if g.y as u64 + by <= limit {
                    g.y as u64 + by
                } else {
                    limit
                };
                Geometry { y: y as u32, ..g }
            },
        }
    }
}

} // verus!
