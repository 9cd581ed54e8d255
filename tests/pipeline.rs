use wallpaper_ui::cropper::{AspectRatio, Face};
use wallpaper_ui::geometry::Geometry;
use wallpaper_ui::pipeline::{
    get_scale_factor, optimizer_for, output_optimizer, DetectedImage, Optimizer, PipelineError, WallpaperInput, WallpaperPipeline,
};
use wallpaper_ui::wallpapers::{WallInfo, WallpapersCsv};

fn s(x: &str) -> String {
    x.to_string()
}

fn square() -> AspectRatio {
    AspectRatio::new(1, 1).unwrap()
}

fn pipeline(csv: WallpapersCsv, images: Vec<WallpaperInput>) -> WallpaperPipeline {
    let mut p = WallpaperPipeline::new(csv, &vec![], 1000, 900, s("/walls"), None, vec![square()]);
    p.images = images;
    p
}

fn info(name: &str, width: u32, height: u32, faces: Vec<Face>, geometries: Vec<(AspectRatio, Geometry)>) -> WallInfo {
    WallInfo { filename: s(name), width, height, faces, geometries, wallust: String::new() }
}

fn path_of(i: &WallpaperInput) -> String {
    match i {
        WallpaperInput::Upscale(p, f) => format!("upscale {} {}", p, f),
        WallpaperInput::Optimize(p) => format!("optimize {}", p),
        WallpaperInput::Detect(p) => format!("detect {}", p),
        WallpaperInput::Preview(p) => format!("preview {}", p),
    }
}

#[test]
fn scale_factor_smallest_that_reaches_minimum() {
    assert_eq!(get_scale_factor(500, 500, 1000, 900), Ok(2));
    assert_eq!(get_scale_factor(2000, 2000, 1000, 900), Ok(1));
    assert_eq!(get_scale_factor(500, 300, 1000, 900), Ok(3));
    assert_eq!(get_scale_factor(500, 500, 2000, 2000), Ok(4));
}

#[test]
fn scale_factor_unsatisfiable_is_error() {
    assert_eq!(
        get_scale_factor(500, 500, 2100, 2000),
        Err(PipelineError::ImageTooSmall { min_width: 2100, min_height: 2000 })
    );
}

#[test]
fn optimizer_by_extension() {
    assert_eq!(optimizer_for("jpg"), Ok(Optimizer::Jpeg));
    assert_eq!(optimizer_for("jpeg"), Ok(Optimizer::Jpeg));
    assert_eq!(optimizer_for("png"), Ok(Optimizer::Png));
    assert_eq!(optimizer_for("webp"), Ok(Optimizer::Webp));
    assert_eq!(optimizer_for("gif"), Err(PipelineError::UnsupportedFormat));
    assert_eq!(optimizer_for(""), Err(PipelineError::UnsupportedFormat));
    assert_eq!(optimizer_for("JPG"), Err(PipelineError::UnsupportedFormat));
}

#[test]
fn upscale_factor_one_skips_to_optimize() {
    let a = WallpaperInput::Upscale(s("/in/a.png"), 1);
    let b = WallpaperInput::Upscale(s("/in/b.png"), 2);
    let mut p = pipeline(WallpapersCsv::new(), vec![a, b, WallpaperInput::Preview(s("/walls/c.png"))]);
    p.upscale_images(&vec![s("/tmp/a.png"), s("/tmp/b.png"), s("/tmp/c.png")]);
    let got: Vec<String> = p.images.iter().map(path_of).collect();
    assert_eq!(got, vec![s("optimize /in/a.png"), s("optimize /tmp/b.png"), s("preview /walls/c.png")]);
}

#[test]
fn optimize_moves_to_detect_and_rejects_unprocessed() {
    let mut p = pipeline(WallpapersCsv::new(), vec![WallpaperInput::Optimize(s("/tmp/a.png"))]);
    assert_eq!(p.optimize_images(&vec![s("/walls/a.webp")]), Ok(()));
    assert_eq!(path_of(&p.images[0]), "detect /walls/a.webp");

    let mut q = pipeline(WallpapersCsv::new(), vec![WallpaperInput::Upscale(s("/in/a.png"), 2)]);
    assert_eq!(q.optimize_images(&vec![s("/walls/a.webp")]), Err(PipelineError::UnprocessedImage));
    assert_eq!(path_of(&q.images[0]), "upscale /in/a.png 2");
}

#[test]
fn new_queues_unknown_images_for_detection() {
    let mut csv = WallpapersCsv::new();
    csv.insert(info("known.png", 1920, 1080, vec![], vec![]));
    let dir = vec![(s("/walls/known.png"), s("known.png")), (s("/walls/new.png"), s("new.png"))];
    let p = WallpaperPipeline::new(csv, &dir, 1000, 900, s("/walls"), None, vec![square()]);
    let got: Vec<String> = p.images.iter().map(path_of).collect();
    assert_eq!(got, vec![s("detect /walls/new.png")]);
}

#[test]
fn detector_line_count_mismatch_is_error() {
    let images = vec![
        WallpaperInput::Detect(s("/walls/a.png")),
        WallpaperInput::Detect(s("/walls/b.png")),
        WallpaperInput::Detect(s("/walls/c.png")),
    ];
    let mut p = pipeline(WallpapersCsv::new(), images);
    let paths = p.detect_paths().unwrap();
    assert_eq!(paths, vec![s("/walls/a.png"), s("/walls/b.png"), s("/walls/c.png")]);
    let detected: Vec<DetectedImage> = ["a.png", "b.png", "c.png"]
        .iter()
        .map(|n| DetectedImage { filename: s(n), width: 1920, height: 1080, preview_path: format!("/walls/{}", n) })
        .collect();
    let lines = vec![vec![], vec![]];
    assert_eq!(
        p.detect_faces(&detected, &lines),
        Err(PipelineError::DetectorLineCount { expected: 3, got: 2 })
    );
    assert_eq!(p.wallpapers_csv.len(), 0);
    assert_eq!(p.images.len(), 3);
}

#[test]
fn detect_faces_records_defaults_and_queues_previews() {
    let images = vec![
        WallpaperInput::Preview(s("/walls/old.png")),
        WallpaperInput::Detect(s("/walls/a.png")),
        WallpaperInput::Detect(s("/walls/b.png")),
    ];
    let mut p = pipeline(WallpapersCsv::new(), images);
    let detected = vec![
        DetectedImage { filename: s("a.png"), width: 1920, height: 1080, preview_path: s("/walls/a.png") },
        DetectedImage { filename: s("b.png"), width: 1920, height: 1080, preview_path: s("/walls/b.png") },
    ];
    let face = Face { x: 800, y: 400, w: 100, h: 100 };
    assert_eq!(p.detect_faces(&detected, &vec![vec![face], vec![]]), Ok(()));
    let got: Vec<String> = p.images.iter().map(path_of).collect();
    assert_eq!(got, vec![s("preview /walls/old.png"), s("preview /walls/b.png")]);
    let a = p.wallpapers_csv.get(&s("a.png")).unwrap();
    assert_eq!(a.faces, vec![face]);
    assert_eq!(a.get_geometry(&square()), Geometry { w: 1080, h: 1080, x: 310, y: 0 });
    let b = p.wallpapers_csv.get(&s("b.png")).unwrap();
    assert_eq!(b.get_geometry(&square()), Geometry { w: 1080, h: 1080, x: 420, y: 0 });

    let rows = p.save_csv();
    assert_eq!(rows.len(), 2);
    assert_eq!(rows[0].filename, "a.png");
    assert_eq!(rows[0].crops, vec![s("310+0")]);
    assert_eq!(rows[1].crops, vec![s("420+0")]);
}

#[test]
fn detect_rejects_unprocessed_images() {
    let mut p = pipeline(WallpapersCsv::new(), vec![WallpaperInput::Optimize(s("/tmp/a.png"))]);
    assert_eq!(p.detect_paths(), Err(PipelineError::UnprocessedImage));
    assert_eq!(p.detect_faces(&vec![], &vec![]), Err(PipelineError::UnprocessedImage));
}

#[test]
fn add_image_classifies_by_store() {
    let mut csv = WallpapersCsv::new();
    let default_sq = Geometry { w: 1080, h: 1080, x: 420, y: 0 };
    let edited_sq = Geometry { w: 1080, h: 1080, x: 0, y: 0 };
    let face = Face { x: 800, y: 400, w: 100, h: 100 };
    csv.insert(info("nofaces.png", 1920, 1080, vec![], vec![(square(), default_sq)]));
    csv.insert(info("done.png", 1920, 1080, vec![face], vec![(square(), edited_sq)]));
    csv.insert(info("small.png", 3840, 2160, vec![], vec![(square(), default_sq)]));
    let mut p = pipeline(csv, vec![]);

    // output missing: upscale
    assert_eq!(p.add_image(s("/in/x.png"), 500, 500, s("/walls/x.png"), s("x.png"), false), Ok(()));
    // output present but unknown to the store: detect
    assert_eq!(p.add_image(s("/in/y.png"), 1920, 1080, s("/walls/y.png"), s("y.png"), true), Ok(()));
    // no faces, default crops: preview
    assert_eq!(p.add_image(s("/in/nofaces.png"), 1920, 1080, s("/walls/nofaces.png"), s("nofaces.png"), true), Ok(()));
    // one face, edited crops: fully processed
    assert_eq!(p.add_image(s("/in/done.png"), 1920, 1080, s("/walls/done.png"), s("done.png"), true), Ok(()));
    // stored size no longer matches the source proportion: re-upscale
    assert_eq!(p.add_image(s("/in/small.png"), 960, 600, s("/walls/small.png"), s("small.png"), true), Ok(()));

    let got: Vec<String> = p.images.iter().map(path_of).collect();
    assert_eq!(
        got,
        vec![
            s("upscale /in/x.png 2"),
            s("detect /walls/y.png"),
            s("preview /walls/nofaces.png"),
            s("upscale /in/small.png 2"),
        ]
    );
}

#[test]
fn add_image_too_small_is_error() {
    let mut p = pipeline(WallpapersCsv::new(), vec![]);
    assert_eq!(
        p.add_image(s("/in/t.png"), 100, 100, s("/walls/t.png"), s("t.png"), false),
        Err(PipelineError::ImageTooSmall { min_width: 1000, min_height: 900 })
    );
    assert!(p.images.is_empty());
}

#[test]
fn preview_lists_preview_paths_only() {
    let p = pipeline(
        WallpapersCsv::new(),
        vec![WallpaperInput::Preview(s("/walls/a.png")), WallpaperInput::Detect(s("/walls/b.png")), WallpaperInput::Preview(s("/walls/c.png"))],
    );
    assert_eq!(p.preview(), vec![s("/walls/a.png"), s("/walls/c.png")]);
    assert!(pipeline(WallpapersCsv::new(), vec![]).preview().is_empty());
}

#[test]
fn store_insert_replaces_same_filename() {
    let mut csv = WallpapersCsv::new();
    csv.insert(info("a.png", 10, 10, vec![], vec![]));
    csv.insert(info("b.png", 20, 20, vec![], vec![]));
    csv.insert(info("a.png", 30, 30, vec![], vec![]));
    assert_eq!(csv.len(), 2);
    assert_eq!(csv.get(&s("a.png")).unwrap().width, 30);
    assert!(csv.get(&s("c.png")).is_none());
}

#[test]
fn image_too_small_for_ratio_is_error() {
    let hd = AspectRatio::new(16, 9).unwrap();
    let mut p = WallpaperPipeline::new(WallpapersCsv::new(), &vec![], 1000, 900, s("/walls"), None, vec![hd]);
    p.images = vec![WallpaperInput::Detect(s("/walls/ok.png")), WallpaperInput::Detect(s("/walls/thin.png"))];
    let detected = vec![
        DetectedImage { filename: s("ok.png"), width: 1920, height: 1080, preview_path: s("/walls/ok.png") },
        // 1 pixel wide: a 16:9 crop would be 0 pixels high
        DetectedImage { filename: s("thin.png"), width: 1, height: 3, preview_path: s("/walls/thin.png") },
    ];
    assert_eq!(
        p.detect_faces(&detected, &vec![vec![], vec![]]),
        Err(PipelineError::ImageTooSmallForRatio { filename_index: 1 })
    );
    assert_eq!(p.wallpapers_csv.len(), 0);
}

#[test]
fn optimize_rejects_unsupported_extension() {
    let src = WallpaperInput::Optimize(s("/tmp/a.png"));
    assert_eq!(src.optimize(&s("/walls/a.bmp")).err(), Some(PipelineError::UnsupportedFormat));
    assert_eq!(src.optimize(&s("/walls/a")).err(), Some(PipelineError::UnsupportedFormat));
    assert_eq!(src.optimize(&s("/walls/.webp")).err(), Some(PipelineError::UnsupportedFormat));
    assert_eq!(src.optimize(&s("/walls/a.webp/b")).err(), Some(PipelineError::UnsupportedFormat));
    assert_eq!(path_of(&src.optimize(&s("/walls/x.tar.webp")).unwrap()), "detect /walls/x.tar.webp");
    // stages other than Optimize do not look at the output
    let p = WallpaperInput::Preview(s("/walls/a.png"));
    assert_eq!(path_of(&p.optimize(&s("")).unwrap()), "preview /walls/a.png");
}

#[test]
fn optimize_images_stops_at_first_failure() {
    let images = vec![WallpaperInput::Optimize(s("/tmp/a.png")), WallpaperInput::Optimize(s("/tmp/b.png"))];
    let mut p = pipeline(WallpapersCsv::new(), images);
    assert_eq!(
        p.optimize_images(&vec![s("/walls/a.png"), s("/walls/b.gif")]),
        Err(PipelineError::UnsupportedFormat)
    );
    let got: Vec<String> = p.images.iter().map(path_of).collect();
    assert_eq!(got, vec![s("optimize /tmp/a.png"), s("optimize /tmp/b.png")]);
}

#[test]
fn output_optimizer_by_path() {
    assert_eq!(output_optimizer(&s("/walls/a.jpeg")), Ok(Optimizer::Jpeg));
    assert_eq!(output_optimizer(&s("a.png")), Ok(Optimizer::Png));
    assert_eq!(output_optimizer(&s("/w/a.")), Err(PipelineError::UnsupportedFormat));
    assert_eq!(output_optimizer(&s("")), Err(PipelineError::UnsupportedFormat));
}

#[test]
fn detect_faces_replaces_stale_record_and_keeps_others() {
    let mut csv = WallpapersCsv::new();
    let stale = Geometry { w: 1080, h: 1080, x: 0, y: 0 };
    csv.insert(info("a.png", 1920, 1080, vec![], vec![(square(), stale)]));
    csv.insert(info("other.png", 1920, 1080, vec![], vec![(square(), stale)]));
    let mut p = pipeline(csv, vec![WallpaperInput::Detect(s("/walls/a.png"))]);
    let detected = vec![DetectedImage { filename: s("a.png"), width: 1920, height: 1080, preview_path: s("/walls/a.png") }];
    let face = Face { x: 800, y: 400, w: 100, h: 100 };
    assert_eq!(p.detect_faces(&detected, &vec![vec![face]]), Ok(()));
    assert_eq!(p.wallpapers_csv.len(), 2);
    let a = p.wallpapers_csv.get(&s("a.png")).unwrap();
    assert_eq!(a.faces, vec![face]);
    assert_eq!(a.geometries, vec![(square(), Geometry { w: 1080, h: 1080, x: 310, y: 0 })]);
    assert_eq!(p.wallpapers_csv.get(&s("other.png")).unwrap().geometries, vec![(square(), stale)]);
    assert!(p.images.is_empty());
}

#[test]
fn find_duplicates_lists_equal_content_pairs() {
    let mut csv = WallpapersCsv::new();
    for n in ["a.png", "b.png", "c.png", "d.png"] {
        csv.insert(info(n, 10, 10, vec![], vec![]));
    }
    let pairs = csv.find_duplicates(&vec![7, 3, 7, 7]);
    assert_eq!(pairs, vec![(0, 2), (0, 3), (2, 3)]);
    assert!(csv.find_duplicates(&vec![1, 2, 3, 4]).is_empty());
    assert_eq!(csv.len(), 4);
}
