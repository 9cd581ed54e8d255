use vstd::prelude::*;
use vstd::string::StringSliceAdditionalSpecFns;
use vstd::utf8::encode_utf8;
use crate::cropper::{lemma_mul_u32, AspectRatio, Face};
use crate::geometry::Geometry;
use crate::wallpapers::{CsvRow, InfoView, WallInfo, WallpapersCsv};

verus! {

/// Fatal conditions of an ingest run.
#[derive(Debug, Clone, Copy, PartialEq, Eq, Structural)]
pub enum PipelineError {
    /// No scale factor in `1..=4` brings the image up to the minimum size.
    ImageTooSmall { min_width: u32, min_height: u32 },
    /// The output extension names no known optimizer.
    UnsupportedFormat,
    /// A stage met an image that an earlier stage should have handled.
    UnprocessedImage,
    /// The face detector printed another number of lines than it was given paths.
    DetectorLineCount { expected: usize, got: usize },
    /// The image is too small to hold a crop of a configured ratio: the crop
    /// would have no width or no height.
    ImageTooSmallForRatio { filename_index: usize },
}

/// Both sides scaled by `f` reach the minimum.
pub open spec fn reaches(width: int, height: int, min_width: int, min_height: int, f: int) -> bool {
    width * f >= min_width && height * f >= min_height
}

/// The smallest factor in `1..=4` that brings both sides up to the minimum, if any.
pub open spec fn scale_factor(width: int, height: int, min_width: int, min_height: int) -> Option<u32> {
    if reaches(width, height, min_width, min_height, 1) {
        Some(1)
    } else if reaches(width, height, min_width, min_height, 2) {
        Some(2)
    } else if reaches(width, height, min_width, min_height, 3) {
        Some(3)
    } else if reaches(width, height, min_width, min_height, 4) {
        Some(4)
    } else {
        None
    }
}

/// The scale factor for an image of `width` x `height` and a minimum size of
/// `min_width` x `min_height`: the smallest in `1..=4` for which both scaled sides
/// reach the minimum. None in range is an error.
pub fn get_scale_factor(width: u32, height: u32, min_width: u32, min_height: u32) -> (r: Result<u32, PipelineError>)
    ensures
        scale_factor(width as int, height as int, min_width as int, min_height as int) matches Some(f)
            ==> r == Ok::<u32, PipelineError>(f),
        scale_factor(width as int, height as int, min_width as int, min_height as int) is None
            ==> r == Err::<u32, PipelineError>(PipelineError::ImageTooSmall { min_width, min_height }),
{
    let mut factor: u32 = 1;
    while factor <= 4
        invariant
            1 <= factor <= 5,
            forall|f: int|
                1 <= f < factor ==> !#[trigger] reaches(
                    width as int,
                    height as int,
                    min_width as int,
                    min_height as int,
                    f,
                ),
        decreases 5 - factor,
    {
        proof {
            lemma_mul_u32(width as int, factor as int);
            lemma_mul_u32(height as int, factor as int);
        }
        if (width as u64) * (factor as u64) >= min_width as u64 && (height as u64) * (
        factor as u64) >= min_height as u64 {
            return Ok(factor);
        }
        factor = factor + 1;
    }
    Err(PipelineError::ImageTooSmall { min_width, min_height })
}

/// The stage an image is in. Paths are plain strings.
#[derive(Debug, Clone)]
pub enum WallpaperInput {
    /// (source, scale factor)
    Upscale(String, u32),
    Optimize(String),
    Detect(String),
    Preview(String),
}

/// The three optimizers, chosen by output extension.
#[derive(Debug, Clone, Copy, PartialEq, Eq, Structural)]
pub enum Optimizer {
    Jpeg,
    Png,
    Webp,
}

pub open spec fn optimizer_of(ext: Seq<u8>) -> Option<Optimizer> {
    if ext == seq![CH_J, CH_P, CH_G] || ext == seq![CH_J, CH_P, CH_E, CH_G] {
        Some(Optimizer::Jpeg)
    } else if ext == seq![CH_P, CH_N, CH_G] {
        Some(Optimizer::Png)
    } else if ext == seq![CH_W, CH_E, CH_B, CH_P] {
        Some(Optimizer::Webp)
    } else {
        None
    }
}

pub const CH_B: u8 = 98;
pub const CH_E: u8 = 101;
pub const CH_G: u8 = 103;
pub const CH_J: u8 = 106;
pub const CH_N: u8 = 110;
pub const CH_P: u8 = 112;
pub const CH_W: u8 = 119;

pub const CH_DOT: u8 = 46;
pub const CH_SLASH: u8 = 47;

/// The optimizer for an extension given as bytes.
fn optimizer_of_bytes(b: &[u8]) -> (r: Result<Optimizer, PipelineError>)
    ensures
        optimizer_of(b@) matches Some(o) ==> r == Ok::<Optimizer, PipelineError>(o),
        optimizer_of(b@) is None ==> r == Err::<Optimizer, PipelineError>(
            PipelineError::UnsupportedFormat,
        ),
{
    let n = b.len();
    if n == 3 && b[0] == CH_J && b[1] == CH_P && b[2] == CH_G {
        proof {
            assert(b@ =~= seq![CH_J, CH_P, CH_G]);
        }
        Ok(Optimizer::Jpeg)
    } else if n == 4 && b[0] == CH_J && b[1] == CH_P && b[2] == CH_E && b[3] == CH_G {
        proof {
            assert(b@ =~= seq![CH_J, CH_P, CH_E, CH_G]);
        }
        Ok(Optimizer::Jpeg)
    } else if n == 3 && b[0] == CH_P && b[1] == CH_N && b[2] == CH_G {
        proof {
            assert(b@ =~= seq![CH_P, CH_N, CH_G]);
        }
        Ok(Optimizer::Png)
    } else if n == 4 && b[0] == CH_W && b[1] == CH_E && b[2] == CH_B && b[3] == CH_P {
        proof {
            assert(b@ =~= seq![CH_W, CH_E, CH_B, CH_P]);
        }
        Ok(Optimizer::Webp)
    } else {
        Err(PipelineError::UnsupportedFormat)
    }
}

/// The optimizer for an output extension (`jpg`, `jpeg`, `png`, `webp`); any other
/// extension is an error.
pub fn optimizer_for(ext: &str) -> (r: Result<Optimizer, PipelineError>)
    ensures
        optimizer_of(ext.spec_bytes()) matches Some(o) ==> r == Ok::<Optimizer, PipelineError>(o),
        optimizer_of(ext.spec_bytes()) is None ==> r == Err::<Optimizer, PipelineError>(
            PipelineError::UnsupportedFormat,
        ),
{
    optimizer_of_bytes(ext.as_bytes())
}

/// The extension of a path: what follows the last `.` of its last component,
/// when that `.` is not the component's first byte; `None` otherwise.
pub open spec fn path_ext(s: Seq<u8>) -> Option<Seq<u8>>
    decreases s.len(),
{
    if s.len() == 0 {
        None
    } else if s.last() == CH_SLASH {
        None
    } else if s.last() == CH_DOT {
        if s.len() >= 2 && s[s.len() - 2] != CH_SLASH {
            Some(Seq::empty())
        } else {
            None
        }
    } else {
        match path_ext(s.drop_last()) {
            Some(e) => Some(e.push(s.last())),
            None => None,
        }
    }
}

/// The optimizer for the output path `out` (as UTF-8 bytes), if its extension names one.
pub open spec fn path_optimizer(out: Seq<u8>) -> Option<Optimizer> {
    match path_ext(out) {
        Some(e) => optimizer_of(e),
        None => None,
    }
}

/// The extension of the path `b`.
fn extension_of(b: &[u8]) -> (r: Option<Vec<u8>>)
    ensures
        r matches Some(e) ==> path_ext(b@) == Some(e@),
        r is None ==> path_ext(b@) is None,
{
    let mut cur: Option<Vec<u8>> = None;
    let mut i: usize = 0;
    proof {
        assert(b@.take(0) =~= Seq::<u8>::empty());
    }
    while i < b.len()
        invariant
            0 <= i <= b@.len(),
            cur matches Some(e) ==> path_ext(b@.take(i as int)) == Some(e@),
            cur is None ==> path_ext(b@.take(i as int)) is None,
        decreases b@.len() - i,
    {
        let c = b[i];
        proof {
            let t = b@.take(i + 1);
            assert(t.drop_last() =~= b@.take(i as int));
            assert(t.last() == c);
            if i >= 1 {
                assert(t[t.len() - 2] == b@[i - 1]);
            }
        }
        if c == CH_SLASH {
            cur = None;
        } else if c == CH_DOT {
            if i >= 1 && b[i - 1] != CH_SLASH {
                cur = Some(Vec::new());
                proof {
                    assert(cur->Some_0@ =~= Seq::<u8>::empty());
                }
            } else {
                cur = None;
            }
        } else {
            match cur {
                Some(mut e) => {
                    e.push(c);
                    cur = Some(e);
                },
                None => {},
            }
        }
        i = i + 1;
    }
    proof {
        assert(b@.take(b@.len() as int) =~= b@);
    }
    cur
}

/// The optimizer for the output path `out`, chosen by its extension; a missing
/// or unknown extension is an error.
pub fn output_optimizer(out: &String) -> (r: Result<Optimizer, PipelineError>)
    ensures
        path_optimizer(encode_utf8(out@)) matches Some(o) ==> r == Ok::<Optimizer, PipelineError>(o),
        path_optimizer(encode_utf8(out@)) is None ==> r == Err::<Optimizer, PipelineError>(
            PipelineError::UnsupportedFormat,
        ),
{
    let b = out.as_str().as_bytes();
    match extension_of(b) {
        Some(e) => optimizer_of_bytes(e.as_slice()),
        None => Err(PipelineError::UnsupportedFormat),
    }
}

impl WallpaperInput {
    /// The stage after upscaling: a factor of 1 goes straight to optimizing the
    /// source; any other factor optimizes the upscaled copy at `dest`.
    pub open spec fn spec_upscale(self, dest: String) -> WallpaperInput {
        match self {
            WallpaperInput::Upscale(src, f) => if f == 1 {
                WallpaperInput::Optimize(src)
            } else {
                WallpaperInput::Optimize(dest)
            },
            _ => self,
        }
    }

    /// The stage after optimizing into `out`: an image still to upscale is an
    /// error, and so is an output whose extension names no optimizer.
    pub open spec fn spec_optimize(self, out: String) -> Result<WallpaperInput, PipelineError> {
        match self {
            WallpaperInput::Upscale(_, _) => Err(PipelineError::UnprocessedImage),
            WallpaperInput::Optimize(_) => if path_optimizer(encode_utf8(out@)) is Some {
                Ok(WallpaperInput::Detect(out))
            } else {
                Err(PipelineError::UnsupportedFormat)
            },
            _ => Ok(self),
        }
    }

    pub open spec fn is_preview(self) -> bool {
        self is Preview
    }

    /// A copy of the same value.
    pub fn duplicate(&self) -> (r: WallpaperInput)
        ensures
            r == *self,
    {
        match self {
            WallpaperInput::Upscale(src, f) => WallpaperInput::Upscale(src.clone(), *f),
            WallpaperInput::Optimize(p) => WallpaperInput::Optimize(p.clone()),
            WallpaperInput::Detect(p) => WallpaperInput::Detect(p.clone()),
            WallpaperInput::Preview(p) => WallpaperInput::Preview(p.clone()),
        }
    }

    /// The stage after upscaling, where `dest` is where the upscaler wrote its copy.
    pub fn upscale(&self, dest: &String) -> (r: WallpaperInput)
        ensures
            r == self.spec_upscale(*dest),
    {
        match self {
            WallpaperInput::Upscale(src, f) => {
                if *f == 1 {
                    WallpaperInput::Optimize(src.clone())
                } else {
                    WallpaperInput::Optimize(dest.clone())
                }
            },
            _ => self.duplicate(),
        }
    }

    /// The stage after optimizing into `out`. An image that was not upscaled yet
    /// is an error, and so is an output path whose extension is missing or is not
    /// `jpg`, `jpeg`, `png` or `webp`.
    pub fn optimize(&self, out: &String) -> (r: Result<WallpaperInput, PipelineError>)
        ensures
            r == self.spec_optimize(*out),
    {
        match self {
            WallpaperInput::Upscale(_, _) => Err(PipelineError::UnprocessedImage),
            WallpaperInput::Optimize(_) => match output_optimizer(out) {
                Ok(_) => Ok(WallpaperInput::Detect(out.clone())),
                Err(e) => Err(e),
            },
            _ => Ok(self.duplicate()),
        }
    }
}

/// What the ingest run needs to know of one image handed to the face detector.
#[derive(Debug, Clone)]
pub struct DetectedImage {
    pub filename: String,
    pub width: u32,
    pub height: u32,
    /// Where the image is previewed when its face count is not one.
    pub preview_path: String,
}

/// One ingest run: the images and their stages, the settings, and the store.
#[derive(Debug, Clone)]
pub struct WallpaperPipeline {
    pub images: Vec<WallpaperInput>,
    pub format: Option<String>,
    pub min_width: u32,
    pub min_height: u32,
    pub wall_dir: String,
    pub resolutions: Vec<AspectRatio>,
    pub wallpapers_csv: WallpapersCsv,
}

/// The images of a directory listing, given as (path, filename), that the store
/// does not know yet, queued for detection in listing order.
pub open spec fn unknown_images(csv: WallpapersCsv, dir: Seq<(String, String)>) -> Seq<WallpaperInput>
    decreases dir.len(),
{
    if dir.len() == 0 {
        Seq::empty()
    } else {
        let rest = unknown_images(csv, dir.drop_last());
        if csv.contains(dir.last().1@) {
            rest
        } else {
            rest.push(WallpaperInput::Detect(dir.last().0))
        }
    }
}

/// The paths of the images waiting for detection, in order.
pub open spec fn detect_paths_of(images: Seq<WallpaperInput>) -> Seq<String>
    decreases images.len(),
{
    if images.len() == 0 {
        Seq::empty()
    } else {
        let rest = detect_paths_of(images.drop_last());
        match images.last() {
            WallpaperInput::Detect(p) => rest.push(p),
            _ => rest,
        }
    }
}

/// The images waiting for preview, in order.
pub open spec fn previews_of(images: Seq<WallpaperInput>) -> Seq<WallpaperInput>
    decreases images.len(),
{
    if images.len() == 0 {
        Seq::empty()
    } else {
        let rest = previews_of(images.drop_last());
        if images.last() is Preview {
            rest.push(images.last())
        } else {
            rest
        }
    }
}

/// The paths of the images waiting for preview, in order.
pub open spec fn preview_paths_of(images: Seq<WallpaperInput>) -> Seq<String>
    decreases images.len(),
{
    if images.len() == 0 {
        Seq::empty()
    } else {
        let rest = preview_paths_of(images.drop_last());
        match images.last() {
            WallpaperInput::Preview(p) => rest.push(p),
            _ => rest,
        }
    }
}

/// Some image still waits for upscaling or optimizing.
pub open spec fn has_unprocessed(images: Seq<WallpaperInput>) -> bool {
    exists|i: int|
        0 <= i < images.len() && ((#[trigger] images[i]) is Upscale || images[i] is Optimize)
}

/// The detected images whose face count is not one, queued for preview.
pub open spec fn new_previews(detected: Seq<DetectedImage>, lines: Seq<Vec<Face>>) -> Seq<WallpaperInput>
    decreases detected.len(),
{
    if detected.len() == 0 {
        Seq::empty()
    } else {
        let rest = new_previews(detected.drop_last(), lines);
        if lines[detected.len() - 1]@.len() != 1 {
            rest.push(WallpaperInput::Preview(detected.last().preview_path))
        } else {
            rest
        }
    }
}

/// The default crop of every resolution, in resolution order.
pub open spec fn default_geometries(
    faces: Seq<Face>,
    width: u32,
    height: u32,
    resolutions: Seq<AspectRatio>,
) -> Seq<(AspectRatio, Geometry)> {
    resolutions.map_values(
        |r: AspectRatio|
            (r, (crate::cropper::CropModel { faces, width, height }).candidates(r)[0]),
    )
}

/// Every ratio gives every detected image a crop with some width and some height.
pub open spec fn all_crops_nonempty(detected: Seq<DetectedImage>, resolutions: Seq<AspectRatio>) -> bool {
    forall|j: int, i: int|
        0 <= j < detected.len() && 0 <= i < resolutions.len() ==> crop_nonempty(
            #[trigger] detected[j],
            #[trigger] resolutions[i],
        )
}

pub open spec fn crop_nonempty(d: DetectedImage, r: AspectRatio) -> bool {
    let m = crate::cropper::CropModel { faces: Seq::empty(), width: d.width, height: d.height };
    m.crop_size(r).0 > 0 && m.crop_size(r).1 > 0
}

/// `info` is the fresh record of a detected image with the given faces: its
/// size, those faces, and the default crop of every resolution.
pub open spec fn fresh_record(
    info: InfoView,
    d: DetectedImage,
    faces: Seq<Face>,
    resolutions: Seq<AspectRatio>,
) -> bool {
    &&& info.filename == d.filename@
    &&& info.width == d.width
    &&& info.height == d.height
    &&& info.faces == faces
    &&& info.geometries == default_geometries(faces, d.width, d.height, resolutions)
    &&& info.wallust.len() == 0
}

/// The store's record for `d`'s file is the fresh record built from `faces`.
pub open spec fn stored_fresh(
    csv: WallpapersCsv,
    d: DetectedImage,
    faces: Seq<Face>,
    resolutions: Seq<AspectRatio>,
) -> bool {
    exists|k: int| csv.has_at(d.filename@, k) && fresh_record(csv.infos@[k]@, d, faces, resolutions)
}

/// The store still holds `info` unchanged.
pub open spec fn kept(csv: WallpapersCsv, info: WallInfo) -> bool {
    exists|k: int| 0 <= k < csv.infos@.len() && csv.infos@[k] == info
}

/// No image of the batch before `j` after `i` has the file name of image `i`.
pub open spec fn last_before(detected: Seq<DetectedImage>, i: int, j: int) -> bool {
    forall|m: int| i < m < j ==> (#[trigger] detected[m]).filename@ != detected[i].filename@
}

/// Some image of the batch before `j` has the file name `f`.
pub open spec fn named_before(detected: Seq<DetectedImage>, f: Seq<char>, j: int) -> bool {
    exists|i: int| 0 <= i < j && (#[trigger] detected[i]).filename@ == f
}

/// A record of the store after a batch is the fresh record of one of the batch's
/// images, or a record that was there before.
pub open spec fn from_batch_or_kept(
    info: WallInfo,
    old_infos: Seq<WallInfo>,
    detected: Seq<DetectedImage>,
    lines: Seq<Vec<Face>>,
    resolutions: Seq<AspectRatio>,
) -> bool {
    ||| exists|j: int|
        0 <= j < detected.len() && fresh_record(info@, #[trigger] detected[j], lines[j]@, resolutions)
    ||| exists|m: int| 0 <= m < old_infos.len() && #[trigger] old_infos[m] == info
}

/// Every record of `infos` comes from the batch or was there before.
pub open spec fn records_from(
    infos: Seq<WallInfo>,
    old_infos: Seq<WallInfo>,
    detected: Seq<DetectedImage>,
    lines: Seq<Vec<Face>>,
    resolutions: Seq<AspectRatio>,
) -> bool {
    forall|k: int|
        0 <= k < infos.len() ==> #[trigger] from_batch_or_kept(
            infos[k],
            old_infos,
            detected,
            lines,
            resolutions,
        )
}

/// Two runs agree on everything but their images.
pub open spec fn same_settings(a: WallpaperPipeline, b: WallpaperPipeline) -> bool {
    &&& a.format == b.format
    &&& a.min_width == b.min_width
    &&& a.min_height == b.min_height
    &&& a.wall_dir == b.wall_dir
    &&& a.resolutions == b.resolutions
    &&& a.wallpapers_csv == b.wallpapers_csv
}

impl WallpaperPipeline {
    pub open spec fn wf(self) -> bool {
        &&& self.wallpapers_csv.wf()
        &&& forall|i: int|
            0 <= i < self.resolutions@.len() ==> (#[trigger] self.resolutions@[i]).wf()
    }

    /// The record of `fname`; meaningful when the store holds it.
    pub open spec fn record(self, fname: Seq<char>) -> WallInfo {
        self.wallpapers_csv.infos@[choose|k: int| self.wallpapers_csv.has_at(fname, k)]
    }

    /// The stage for an image at `img` of `width` x `height`, whose output would be
    /// `out_path` (file name `out_fname`): `Ok(None)` when it is fully processed.
    pub open spec fn classification(
        self,
        img: String,
        width: u32,
        height: u32,
        out_path: String,
        out_fname: String,
        out_exists: bool,
    ) -> Result<Option<WallpaperInput>, PipelineError> {
        let upscale = match scale_factor(
            width as int,
            height as int,
            self.min_width as int,
            self.min_height as int,
        ) {
            Some(f) => Ok(Some(WallpaperInput::Upscale(img, f))),
            None => Err(
                PipelineError::ImageTooSmall {
                    min_width: self.min_width,
                    min_height: self.min_height,
                },
            ),
        };
        if !out_exists {
            upscale
        } else if !self.wallpapers_csv.contains(out_fname@) {
            Ok(Some(WallpaperInput::Detect(out_path)))
        } else {
            let info = self.record(out_fname@);
            let default = info@.is_default_crops(self.resolutions@);
            if info.width / width != info.height / height {
                upscale
            } else if info.faces@.len() != 1 && default {
                Ok(Some(WallpaperInput::Preview(out_path)))
            } else if info.faces@.len() == 1 && !default {
                Ok(None)
            } else {
                upscale
            }
        }
    }

    /// Starts a run: every image of the directory listing `dir_images`, given as
    /// (path, filename), that the store does not know is queued for detection.
    pub fn new(
        wallpapers_csv: WallpapersCsv,
        dir_images: &Vec<(String, String)>,
        min_width: u32,
        min_height: u32,
        wall_dir: String,
        format: Option<String>,
        resolutions: Vec<AspectRatio>,
    ) -> (r: WallpaperPipeline)
        ensures
            r.images@ == unknown_images(wallpapers_csv, dir_images@),
            r.wallpapers_csv == wallpapers_csv,
            r.min_width == min_width,
            r.min_height == min_height,
            r.wall_dir == wall_dir,
            r.format == format,
            r.resolutions == resolutions,
    {
        let mut images: Vec<WallpaperInput> = Vec::new();
        let mut i: usize = 0;
        while i < dir_images.len()
            invariant
                0 <= i <= dir_images@.len(),
                images@ == unknown_images(wallpapers_csv, dir_images@.take(i as int)),
            decreases dir_images@.len() - i,
        {
            proof {
                assert(dir_images@.take(i + 1).drop_last() =~= dir_images@.take(i as int));
            }
            if wallpapers_csv.position(&dir_images[i].1).is_none() {
                images.push(WallpaperInput::Detect(dir_images[i].0.clone()));
            }
            i = i + 1;
        }
        proof {
            assert(dir_images@.take(dir_images@.len() as int) =~= dir_images@);
        }
        WallpaperPipeline {
            images,
            format,
            min_width,
            min_height,
            wall_dir,
            resolutions,
            wallpapers_csv,
        }
    }

    /// Queues an image at `img` of `width` x `height` by what the store knows of
    /// its output `out_path` (file name `out_fname`; `out_exists` tells whether the
    /// file is there): a new output is detected, one whose size changed or that is
    /// new on disk is upscaled, one with a face count other than one that still
    /// uses its default crops is previewed, and one with one face and edited crops
    /// is left alone.
    pub fn add_image(
        &mut self,
        img: String,
        width: u32,
        height: u32,
        out_path: String,
        out_fname: String,
        out_exists: bool,
    ) -> (r: Result<(), PipelineError>)
        requires
            old(self).wf(),
            width > 0,
            height > 0,
        ensures
            same_settings(*final(self), *old(self)),
            match old(self).classification(img, width, height, out_path, out_fname, out_exists) {
                Err(e) => r == Err::<(), PipelineError>(e) && final(self).images == old(
                    self,
                ).images,
                Ok(None) => r is Ok && final(self).images == old(self).images,
                Ok(Some(s)) => r is Ok && final(self).images@ == old(self).images@.push(s),
            },
    {
        let upscale = match get_scale_factor(width, height, self.min_width, self.min_height) {
            Ok(f) => Ok(WallpaperInput::Upscale(img, f)),
            Err(e) => Err(e),
        };
        if out_exists {
            match self.wallpapers_csv.position(&out_fname) {
                None => {
                    self.images.push(WallpaperInput::Detect(out_path));
                    return Ok(());
                },
                Some(k) => {
                    proof {
                        let c = choose|k: int| self.wallpapers_csv.has_at(out_fname@, k);
                        assert(self.wallpapers_csv.has_at(out_fname@, c));
                        assert(c == k as int);
                    }
                    let info = &self.wallpapers_csv.infos[k];
                    let default = info.is_default_crops(&self.resolutions);
                    if info.width / width != info.height / height {
                    } else if info.faces.len() != 1 && default {
                        self.images.push(WallpaperInput::Preview(out_path));
                        return Ok(());
                    } else if info.faces.len() == 1 && !default {
                        return Ok(());
                    }
                },
            }
        }
        match upscale {
            Ok(s) => {
                self.images.push(s);
                Ok(())
            },
            Err(e) => Err(e),
        }
    }

    /// Moves every image past the upscaler; `dests[i]` is where the upscaled copy
    /// of image `i` was written.
    pub fn upscale_images(&mut self, dests: &Vec<String>)
        requires
            dests@.len() == old(self).images@.len(),
        ensures
            final(self).images@.len() == old(self).images@.len(),
            forall|i: int|
                0 <= i < old(self).images@.len() ==> final(self).images@[i] == (#[trigger] old(
                    self,
                ).images@[i]).spec_upscale(dests@[i]),
            same_settings(*final(self), *old(self)),
    {
        let mut out: Vec<WallpaperInput> = Vec::new();
        let mut i: usize = 0;
        while i < self.images.len()
            invariant
                0 <= i <= self.images@.len(),
                dests@.len() == self.images@.len(),
                *self == *old(self),
                out@.len() == i,
                forall|j: int|
                    0 <= j < i ==> out@[j] == (#[trigger] self.images@[j]).spec_upscale(dests@[j]),
            decreases self.images@.len() - i,
        {
            out.push(self.images[i].upscale(&dests[i]));
            i = i + 1;
        }
        self.images = out;
    }

    /// Moves every image past the optimizer; `outs[i]` is the optimized output of
    /// image `i`. The first image that cannot move (one still waiting for
    /// upscaling, or an output with a missing or unsupported extension) gives the
    /// error, and then nothing changes.
    pub fn optimize_images(&mut self, outs: &Vec<String>) -> (r: Result<(), PipelineError>)
        requires
            outs@.len() == old(self).images@.len(),
        ensures
            same_settings(*final(self), *old(self)),
            r matches Err(e) ==> *final(self) == *old(self) && exists|i: int|
                0 <= i < old(self).images@.len() && (#[trigger] old(self).images@[i]).spec_optimize(
                    outs@[i],
                ) == Err::<WallpaperInput, PipelineError>(e) && forall|j: int|
                    0 <= j < i ==> (#[trigger] old(self).images@[j]).spec_optimize(outs@[j]) is Ok,
            r is Ok <==> forall|i: int|
                0 <= i < old(self).images@.len() ==> (#[trigger] old(self).images@[i]).spec_optimize(
                    outs@[i],
                ) is Ok,
            r is Ok ==> final(self).images@.len() == old(self).images@.len() && forall|i: int|
                0 <= i < old(self).images@.len() ==> Ok::<WallpaperInput, PipelineError>(
                    final(self).images@[i],
                ) == (#[trigger] old(self).images@[i]).spec_optimize(outs@[i]),
    {
        let mut out: Vec<WallpaperInput> = Vec::new();
        let mut i: usize = 0;
        while i < self.images.len()
            invariant
                0 <= i <= self.images@.len(),
                outs@.len() == self.images@.len(),
                *self == *old(self),
                out@.len() == i,
                forall|j: int|
                    0 <= j < i ==> Ok::<WallpaperInput, PipelineError>(out@[j]) == (#[trigger] self.images@[j]).spec_optimize(
                        outs@[j],
                    ),
            decreases self.images@.len() - i,
        {
            match self.images[i].optimize(&outs[i]) {
                Ok(n) => out.push(n),
                Err(e) => {
                    return Err(e);
                },
            }
            i = i + 1;
        }
        self.images = out;
        Ok(())
    }

    /// The paths waiting for detection, in order. An image still waiting for
    /// upscaling or optimizing is an error.
    pub fn detect_paths(&self) -> (r: Result<Vec<String>, PipelineError>)
        ensures
            has_unprocessed(self.images@) ==> r == Err::<Vec<String>, PipelineError>(
                PipelineError::UnprocessedImage,
            ),
            !has_unprocessed(self.images@) ==> (r matches Ok(v) && v@ == detect_paths_of(
                self.images@,
            )),
    {
        let mut out: Vec<String> = Vec::new();
        let mut i: usize = 0;
        while i < self.images.len()
            invariant
                0 <= i <= self.images@.len(),
                !has_unprocessed(self.images@.take(i as int)),
                out@ == detect_paths_of(self.images@.take(i as int)),
            decreases self.images@.len() - i,
        {
            proof {
                assert(self.images@.take(i + 1).drop_last() =~= self.images@.take(i as int));
            }
            match &self.images[i] {
                WallpaperInput::Detect(p) => out.push(p.clone()),
                WallpaperInput::Preview(_) => {},
                _ => {
                    proof {
                        assert(self.images@[i as int] is Upscale || self.images@[i as int] is Optimize);
                    }
                    return Err(PipelineError::UnprocessedImage);
                },
            }
            i = i + 1;
            proof {
                assert forall|j: int| 0 <= j < i implies !((#[trigger] self.images@.take(i as int)[j]) is Upscale
                    || self.images@.take(i as int)[j] is Optimize) by {
                    if j < i - 1 {
                        assert(self.images@.take(i as int)[j] == self.images@.take(i - 1)[j]);
                    }
                }
            }
        }
        proof {
            assert(self.images@.take(self.images@.len() as int) =~= self.images@);
        }
        Ok(out)
    }

    /// The record of a detected image: its faces and, for every resolution, the
    /// default crop.
    fn fresh_info(&self, d: &DetectedImage, faces: &Vec<Face>) -> (r: WallInfo)
        requires
            self.wf(),
        ensures
            fresh_record(r@, *d, faces@, self.resolutions@),
    {
        let cropper = crate::cropper::Cropper::new(faces, d.width, d.height);
        let mut geometries: Vec<(AspectRatio, Geometry)> = Vec::new();
        let mut i: usize = 0;
        while i < self.resolutions.len()
            invariant
                0 <= i <= self.resolutions@.len(),
                self.wf(),
                cropper@ == (crate::cropper::CropModel { faces: faces@, width: d.width, height: d.height }),
                geometries@ =~= default_geometries(
                    faces@,
                    d.width,
                    d.height,
                    self.resolutions@.take(i as int),
                ),
            decreases self.resolutions@.len() - i,
        {
            let r = self.resolutions[i];
            geometries.push((r, cropper.crop(&r)));
            i = i + 1;
            proof {
                assert(self.resolutions@.take(i as int) =~= self.resolutions@.take(i - 1).push(r));
            }
        }
        proof {
            assert(self.resolutions@.take(self.resolutions@.len() as int) =~= self.resolutions@);
        }
        WallInfo {
            filename: d.filename.clone(),
            width: d.width,
            height: d.height,
            faces: faces.clone(),
            geometries,
            wallust: String::new(),
        }
    }

    /// Takes in the detector's output: `lines[i]` holds the faces found in
    /// `detected[i]`, the i-th path that `detect_paths` gave. Nothing changes when
    /// an image still waits for upscaling or optimizing, when the line count is
    /// not the path count, or when an image is too small for a configured ratio.
    /// Otherwise each detected file's record becomes the fresh record built from
    /// its own line, the other records stay, and the images left are those
    /// already waiting for preview, then each detected image whose face count is
    /// not one.
    pub fn detect_faces(&mut self, detected: &Vec<DetectedImage>, lines: &Vec<Vec<Face>>) -> (r:
        Result<(), PipelineError>)
        requires
            old(self).wf(),
            detected@.len() == detect_paths_of(old(self).images@).len(),
        ensures
            final(self).wf(),
            final(self).resolutions == old(self).resolutions,
            has_unprocessed(old(self).images@) ==> r == Err::<(), PipelineError>(
                PipelineError::UnprocessedImage,
            ) && *final(self) == *old(self),
            !has_unprocessed(old(self).images@) && lines@.len() != detected@.len() ==> r == Err::<
                (),
                PipelineError,
            >(PipelineError::DetectorLineCount { expected: detected.len(), got: lines.len() })
                && *final(self) == *old(self),
            !has_unprocessed(old(self).images@) && lines@.len() == detected@.len()
                && !all_crops_nonempty(detected@, old(self).resolutions@) ==> *final(self) == *old(self)
                && (r matches Err(PipelineError::ImageTooSmallForRatio { filename_index }) && filename_index
                < detected@.len() && exists|i: int|
                0 <= i < old(self).resolutions@.len() && !crop_nonempty(
                    detected@[filename_index as int],
                    #[trigger] old(self).resolutions@[i],
                )),
            !has_unprocessed(old(self).images@) && lines@.len() == detected@.len()
                && all_crops_nonempty(detected@, old(self).resolutions@) ==> {
                &&& r is Ok
                &&& final(self).images@ == previews_of(old(self).images@) + new_previews(
                    detected@,
                    lines@,
                )
                &&& forall|i: int|
                    0 <= i < detected@.len() && last_before(detected@, i, detected@.len() as int)
                        ==> stored_fresh(
                        final(self).wallpapers_csv,
                        #[trigger] detected@[i],
                        lines@[i]@,
                        old(self).resolutions@,
                    )
                &&& forall|m: int|
                    0 <= m < old(self).wallpapers_csv.infos@.len() && !named_before(
                        detected@,
                        (#[trigger] old(self).wallpapers_csv.infos@[m]).filename@,
                        detected@.len() as int,
                    ) ==> kept(final(self).wallpapers_csv, old(self).wallpapers_csv.infos@[m])
                &&& records_from(
                    final(self).wallpapers_csv.infos@,
                    old(self).wallpapers_csv.infos@,
                    detected@,
                    lines@,
                    old(self).resolutions@,
                )
            },
    {
        let mut to_preview: Vec<WallpaperInput> = Vec::new();
        let mut i: usize = 0;
        while i < self.images.len()
            invariant
                0 <= i <= self.images@.len(),
                self.wf(),
                !has_unprocessed(self.images@.take(i as int)),
                to_preview@ == previews_of(self.images@.take(i as int)),
            decreases self.images@.len() - i,
        {
            proof {
                assert(self.images@.take(i + 1).drop_last() =~= self.images@.take(i as int));
            }
            match &self.images[i] {
                WallpaperInput::Preview(p) => to_preview.push(WallpaperInput::Preview(p.clone())),
                WallpaperInput::Detect(_) => {},
                _ => {
                    proof {
                        assert(self.images@[i as int] is Upscale || self.images@[i as int] is Optimize);
                    }
                    return Err(PipelineError::UnprocessedImage);
                },
            }
            i = i + 1;
            proof {
                assert forall|j: int| 0 <= j < i implies !((#[trigger] self.images@.take(i as int)[j]) is Upscale
                    || self.images@.take(i as int)[j] is Optimize) by {
                    if j < i - 1 {
                        assert(self.images@.take(i as int)[j] == self.images@.take(i - 1)[j]);
                    }
                }
            }
        }
        proof {
            assert(self.images@.take(self.images@.len() as int) =~= self.images@);
        }
        if lines.len() != detected.len() {
            return Err(
                PipelineError::DetectorLineCount { expected: detected.len(), got: lines.len() },
            );
        }
        let mut j: usize = 0;
        while j < detected.len()
            invariant
                0 <= j <= detected@.len(),
                self.wf(),
                *self == *old(self),
                !has_unprocessed(self.images@),
                lines@.len() == detected@.len(),
                forall|a: int, i: int|
                    0 <= a < j && 0 <= i < self.resolutions@.len() ==> crop_nonempty(
                        #[trigger] detected@[a],
                        #[trigger] self.resolutions@[i],
                    ),
            decreases detected@.len() - j,
        {
            let cropper = crate::cropper::Cropper::new(&Vec::new(), detected[j].width, detected[j].height);
            let mut i: usize = 0;
            while i < self.resolutions.len()
                invariant
                    0 <= i <= self.resolutions@.len(),
                    j < detected@.len(),
                    self.wf(),
                    *self == *old(self),
                    !has_unprocessed(self.images@),
                    lines@.len() == detected@.len(),
                    cropper@ == (crate::cropper::CropModel {
                        faces: Seq::empty(),
                        width: detected@[j as int].width,
                        height: detected@[j as int].height,
                    }),
                    forall|a: int, b: int|
                        0 <= a < j && 0 <= b < self.resolutions@.len() ==> crop_nonempty(
                            #[trigger] detected@[a],
                            #[trigger] self.resolutions@[b],
                        ),
                    forall|b: int|
                        0 <= b < i ==> crop_nonempty(detected@[j as int], #[trigger] self.resolutions@[b]),
                decreases self.resolutions@.len() - i,
            {
                let (w, h, _) = cropper.crop_size_exec(&self.resolutions[i]);
                if w == 0 || h == 0 {
                    proof {
                        assert(cropper@.faces =~= Seq::<Face>::empty());
                        assert(!crop_nonempty(detected@[j as int], self.resolutions@[i as int]));
                    }
                    return Err(PipelineError::ImageTooSmallForRatio { filename_index: j });
                }
                i = i + 1;
            }
            j = j + 1;
        }
        let ghost old_csv = self.wallpapers_csv;
        let ghost old_infos = self.wallpapers_csv.infos@;
        let ghost start = to_preview@;
        proof {
            assert forall|k: int| 0 <= k < self.wallpapers_csv.infos@.len() implies #[trigger] from_batch_or_kept(
                self.wallpapers_csv.infos@[k],
                old_infos,
                detected@,
                lines@,
                self.resolutions@,
            ) by {
                assert(old_infos[k] == self.wallpapers_csv.infos@[k]);
            }
            assert forall|m: int| 0 <= m < old_infos.len() implies kept(self.wallpapers_csv, #[trigger] old_infos[m]) by {
                assert(self.wallpapers_csv.infos@[m] == old_infos[m]);
            }
            assert(detected@.take(0) =~= Seq::<DetectedImage>::empty());
            assert(start + new_previews(detected@.take(0), lines@) =~= start);
        }
        let mut j: usize = 0;
        while j < detected.len()
            invariant
                0 <= j <= detected@.len(),
                lines@.len() == detected@.len(),
                self.wf(),
                self.resolutions == old(self).resolutions,
                old_infos == old(self).wallpapers_csv.infos@,
                to_preview@ == start + new_previews(detected@.take(j as int), lines@),
                forall|i: int|
                    0 <= i < j ==> self.wallpapers_csv.contains((#[trigger] detected@[i]).filename@),
                forall|i: int|
                    0 <= i < j && last_before(detected@, i, j as int) ==> stored_fresh(
                        self.wallpapers_csv,
                        #[trigger] detected@[i],
                        lines@[i]@,
                        self.resolutions@,
                    ),
                forall|m: int|
                    0 <= m < old_infos.len() && !named_before(
                        detected@,
                        (#[trigger] old_infos[m]).filename@,
                        j as int,
                    ) ==> kept(self.wallpapers_csv, old_infos[m]),
                records_from(
                    self.wallpapers_csv.infos@,
                    old_infos,
                    detected@,
                    lines@,
                    self.resolutions@,
                ),
            decreases detected@.len() - j,
        {
            let info = self.fresh_info(&detected[j], &lines[j]);
            let ghost before = self.wallpapers_csv;
            self.wallpapers_csv.insert(info);
            proof {
                let fname = detected@[j as int].filename@;
                let csv = self.wallpapers_csv;
                // where the new record went
                let pos: int = if before.contains(fname) {
                    choose|kk: int| before.has_at(fname, kk) && csv.infos@ == before.infos@.update(kk, info)
                } else {
                    before.infos@.len() as int
                };
                assert(csv.has_at(fname, pos) && csv.infos@[pos] == info);
                assert(forall|k: int| 0 <= k < before.infos@.len() && k != pos ==> csv.infos@[k] == before.infos@[k]);
                assert forall|i: int|
                    0 <= i <= j implies csv.contains((#[trigger] detected@[i]).filename@) by {
                    if i == j {
                        assert(csv.has_at(fname, pos));
                    } else {
                        let k = choose|k: int| before.has_at(detected@[i].filename@, k);
                        if k == pos {
                            assert(csv.has_at(fname, k));
                        }
                        assert(csv.has_at(detected@[i].filename@, k));
                    }
                }
                assert forall|i: int|
                    0 <= i <= j && last_before(detected@, i, j + 1) implies stored_fresh(
                    csv,
                    #[trigger] detected@[i],
                    lines@[i]@,
                    self.resolutions@,
                ) by {
                    if i == j {
                        assert(fresh_record(csv.infos@[pos]@, detected@[i], lines@[i]@, self.resolutions@));
                        assert(csv.has_at(detected@[i].filename@, pos));
                    } else {
                        assert(detected@[j as int].filename@ != detected@[i].filename@);
                        assert(last_before(detected@, i, j as int));
                        let k = choose|k: int| before.has_at(detected@[i].filename@, k) && fresh_record(
                            before.infos@[k]@, detected@[i], lines@[i]@, self.resolutions@);
                        assert(k != pos);
                        assert(csv.infos@[k] == before.infos@[k]);
                        assert(csv.has_at(detected@[i].filename@, k));
                    }
                }
                assert forall|m: int|
                    0 <= m < old_infos.len() && !named_before(
                        detected@,
                        (#[trigger] old_infos[m]).filename@,
                        j + 1,
                    ) implies kept(csv, old_infos[m]) by {
                    if !named_before(detected@, old_infos[m].filename@, j as int) {
                        let k = choose|k: int| 0 <= k < before.infos@.len() && before.infos@[k] == old_infos[m];
                        if k == pos {
                            assert(detected@[j as int].filename@ == old_infos[m].filename@);
                        }
                        assert(csv.infos@[k] == old_infos[m]);
                    } else {
                        let i = choose|i: int| 0 <= i < j && (#[trigger] detected@[i]).filename@ == old_infos[m].filename@;
                        assert(0 <= i < j + 1);
                    }
                }
                assert forall|k: int| 0 <= k < csv.infos@.len() implies #[trigger] from_batch_or_kept(
                    csv.infos@[k],
                    old_infos,
                    detected@,
                    lines@,
                    self.resolutions@,
                ) by {
                    if k == pos {
                        assert(fresh_record(csv.infos@[k]@, detected@[j as int], lines@[j as int]@, self.resolutions@));
                    } else {
                        assert(csv.infos@[k] == before.infos@[k]);
                        assert(from_batch_or_kept(before.infos@[k], old_infos, detected@, lines@, self.resolutions@));
                    }
                }
                assert(detected@.take(j + 1).drop_last() =~= detected@.take(j as int));
            }
            if lines[j].len() != 1 {
                to_preview.push(WallpaperInput::Preview(detected[j].preview_path.clone()));
            }
            j = j + 1;
            proof {
                assert(start + new_previews(detected@.take(j as int), lines@) =~= to_preview@);
            }
        }
        proof {
            assert(detected@.take(detected@.len() as int) =~= detected@);
        }
        self.images = to_preview;
        Ok(())
    }

    /// The table to write back: every record, with one crop column per configured
    /// resolution, in configuration order.
    pub fn save_csv(&self) -> (r: Vec<CsvRow>)
        requires
            self.wf(),
        ensures
            r@.len() == self.wallpapers_csv.infos@.len(),
            forall|k: int|
                0 <= k < r@.len() ==> {
                    &&& (#[trigger] r@[k]).filename@ == self.wallpapers_csv.infos@[k].filename@
                    &&& r@[k].width == self.wallpapers_csv.infos@[k].width
                    &&& r@[k].height == self.wallpapers_csv.infos@[k].height
                    &&& r@[k].faces@ == self.wallpapers_csv.infos@[k].faces@
                    &&& r@[k].wallust@ == self.wallpapers_csv.infos@[k].wallust@
                    &&& r@[k].crops@.len() == self.resolutions@.len()
                    &&& forall|j: int|
                        0 <= j < self.resolutions@.len() ==> (#[trigger] r@[k].crops@[j])@
                            == crate::geometry::offset_text(
                            self.wallpapers_csv.infos@[k]@.geometry(self.resolutions@[j]),
                        )
                },
    {
        self.wallpapers_csv.rows(&self.resolutions)
    }

    /// The paths of the images left for preview, in order; an empty list means
    /// there is nothing to hand to the editor.
    pub fn preview(self) -> (r: Vec<String>)
        ensures
            r@ == preview_paths_of(self.images@),
    {
        let mut out: Vec<String> = Vec::new();
        let mut i: usize = 0;
        while i < self.images.len()
            invariant
                0 <= i <= self.images@.len(),
                out@ == preview_paths_of(self.images@.take(i as int)),
            decreases self.images@.len() - i,
        {
            proof {
                assert(self.images@.take(i + 1).drop_last() =~= self.images@.take(i as int));
            }
            match &self.images[i] {
                WallpaperInput::Preview(p) => out.push(p.clone()),
                _ => {},
            }
            i = i + 1;
        }
        proof {
            assert(self.images@.take(self.images@.len() as int) =~= self.images@);
        }
        out
    }
}

} // verus!
