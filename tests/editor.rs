use wallpaper_ui::app_state::{EditorError, PreviewMode, UiMode, UiState, WallFile, Wallpapers};
use wallpaper_ui::cropper::{AspectRatio, Face};
use wallpaper_ui::geometry::Geometry;
use wallpaper_ui::retrofit::{add_geometry, center_new_crop, closest_resolution, retrofit};
use wallpaper_ui::wallpapers::{WallInfo, WallpapersCsv};

fn s(x: &str) -> String {
    x.to_string()
}

fn ratio(w: u32, h: u32) -> AspectRatio {
    AspectRatio::new(w, h).unwrap()
}

fn info(name: &str, faces: Vec<Face>, geometries: Vec<(AspectRatio, Geometry)>) -> WallInfo {
    WallInfo { filename: s(name), width: 1920, height: 1080, faces, geometries, wallust: String::new() }
}

fn editor(current: WallInfo) -> Wallpapers {
    Wallpapers {
        files: vec![WallFile { path: s("/walls/a.png"), name: s("a.png") }],
        source: current.clone(),
        current,
        index: 0,
        ratio: ratio(1, 1),
        resolutions: vec![(s("HD"), ratio(16, 9)), (s("Square"), ratio(1, 1)), (s("Vertical"), ratio(9, 16))],
    }
}

#[test]
fn move_geometry_saturates_at_zero() {
    let g = Geometry { w: 1080, h: 1080, x: 10, y: 0 };
    let w = editor(info("a.png", vec![], vec![(ratio(1, 1), g)]));
    assert_eq!(w.move_geometry_by(-50), Geometry { x: 0, ..g });
    assert_eq!(w.move_geometry_by(-5), Geometry { x: 5, ..g });
}

#[test]
fn move_geometry_stops_at_far_edge() {
    let g = Geometry { w: 1080, h: 1080, x: 800, y: 0 };
    let w = editor(info("a.png", vec![], vec![(ratio(1, 1), g)]));
    assert_eq!(w.move_geometry_by(30), Geometry { x: 830, ..g });
    assert_eq!(w.move_geometry_by(100), Geometry { x: 840, ..g });
    assert_eq!(w.move_geometry_by(i32::MAX), Geometry { x: 840, ..g });
    assert_eq!(w.move_geometry_by(i32::MIN), Geometry { x: 0, ..g });
}

#[test]
fn move_geometry_vertical() {
    let mut w = editor(info("a.png", vec![], vec![]));
    w.ratio = ratio(21, 9);
    let g = w.get_geometry();
    assert_eq!(g, Geometry { w: 1920, h: 822, x: 0, y: 129 });
    assert_eq!(w.move_geometry_by(-200), Geometry { y: 0, ..g });
    assert_eq!(w.move_geometry_by(200), Geometry { y: 258, ..g });
}

#[test]
fn candidate_geometries_has_no_duplicates() {
    // both faces sit left of the first half-crop, so several candidates coincide
    let faces = vec![Face { x: 0, y: 0, w: 10, h: 10 }, Face { x: 20, y: 0, w: 10, h: 10 }];
    let w = editor(info("a.png", faces, vec![]));
    let all = w.crop_candidates();
    assert_eq!(all.len(), 4);
    let uniq = w.candidate_geometries();
    assert_eq!(uniq, vec![Geometry { w: 1080, h: 1080, x: 0, y: 0 }, Geometry { w: 1080, h: 1080, x: 420, y: 0 }]);
    for i in 0..uniq.len() {
        for j in 0..i {
            assert_ne!(uniq[i], uniq[j]);
        }
    }
}

#[test]
fn set_geometry_marks_modified() {
    let mut w = editor(info("a.png", vec![], vec![]));
    assert!(!w.is_modified(&ratio(1, 1)));
    let g = Geometry { w: 1080, h: 1080, x: 0, y: 0 };
    w.set_geometry(&g);
    assert_eq!(w.get_geometry(), g);
    assert!(w.is_modified(&ratio(1, 1)));
    assert!(!w.is_modified(&ratio(16, 9)));
}

#[test]
fn image_ratios_skip_the_image_proportion() {
    let w = editor(info("a.png", vec![], vec![]));
    let names: Vec<String> = w.image_ratios().into_iter().map(|(n, _)| n).collect();
    assert_eq!(names, vec![s("Square"), s("Vertical")]);
}

#[test]
fn ui_toggles() {
    let mut ui = UiState { mode: UiMode::default(), preview_mode: PreviewMode::default(), show_faces: false, is_saving: false };
    ui.toggle_filelist();
    assert_eq!(ui.mode, UiMode::FileList);
    ui.toggle_palette();
    assert_eq!(ui.mode, UiMode::Palette);
    ui.toggle_palette();
    assert_eq!(ui.mode, UiMode::Editor);
    ui.toggle_filelist();
    ui.toggle_filelist();
    assert_eq!(ui.mode, UiMode::Editor);
    assert_eq!(ui.preview_mode, PreviewMode::Candidate(None));
}

#[test]
fn retrofit_adds_defaults_and_recenters_edited() {
    let square = ratio(1, 1);
    let mut csv = WallpapersCsv::new();
    // default square crop: the new ratio gets its own default
    csv.insert(info("plain.png", vec![], vec![(square, Geometry { w: 1080, h: 1080, x: 420, y: 0 })]));
    // edited square crop at the left edge: the new crop follows its center
    csv.insert(info("edited.png", vec![], vec![(square, Geometry { w: 1080, h: 1080, x: 0, y: 0 })]));
    let new_res = ratio(4, 3);
    let moved = retrofit(&mut csv, &new_res, &Some(square));
    assert_eq!(moved, vec![s("edited.png")]);
    let plain = csv.get(&s("plain.png")).unwrap();
    assert_eq!(plain.get_geometry(&new_res), Geometry { w: 1440, h: 1080, x: 240, y: 0 });
    let edited = csv.get(&s("edited.png")).unwrap();
    // old center 540, new width 1440: start 540 - 720 < 0, clipped to 0
    assert_eq!(edited.get_geometry(&new_res), Geometry { w: 1440, h: 1080, x: 0, y: 0 });
}

#[test]
fn retrofit_twice_changes_nothing() {
    let square = ratio(1, 1);
    let mut csv = WallpapersCsv::new();
    csv.insert(info("edited.png", vec![], vec![(square, Geometry { w: 1080, h: 1080, x: 840, y: 0 })]));
    csv.insert(info("plain.png", vec![], vec![]));
    let new_res = ratio(4, 3);
    let first = retrofit(&mut csv, &new_res, &Some(square));
    assert_eq!(first, vec![s("edited.png")]);
    let after_once: Vec<Vec<(AspectRatio, Geometry)>> = csv.infos.iter().map(|i| i.geometries.clone()).collect();
    let second = retrofit(&mut csv, &new_res, &Some(square));
    assert!(second.is_empty());
    let after_twice: Vec<Vec<(AspectRatio, Geometry)>> = csv.infos.iter().map(|i| i.geometries.clone()).collect();
    assert_eq!(after_once, after_twice);
}

#[test]
fn retrofit_without_closest_uses_default() {
    let mut csv = WallpapersCsv::new();
    csv.insert(info("a.png", vec![], vec![]));
    let moved = retrofit(&mut csv, &ratio(1, 1), &None);
    assert!(moved.is_empty());
    assert_eq!(csv.infos[0].geometries, vec![(ratio(1, 1), Geometry { w: 1080, h: 1080, x: 420, y: 0 })]);
}

#[test]
fn center_and_add_geometry() {
    let i = info("a.png", vec![], vec![]);
    let old = Geometry { w: 1080, h: 1080, x: 700, y: 0 };
    // old center 1240; new width 1440 would start at 520, clipped to 480
    let g = center_new_crop(&old, &i, &ratio(4, 3));
    assert_eq!(g, Geometry { w: 1440, h: 1080, x: 480, y: 0 });
    let j = add_geometry(&i, &ratio(4, 3), g);
    assert_eq!(j.geometries, vec![(ratio(4, 3), g)]);
    assert!(i.geometries.is_empty());
}

#[test]
fn closest_resolution_picks_nearest_proportion() {
    let res = vec![ratio(16, 9), ratio(1, 1), ratio(9, 16)];
    assert_eq!(closest_resolution(&res, &ratio(4, 3)), Some(1));
    assert_eq!(closest_resolution(&res, &ratio(21, 9)), Some(0));
    assert_eq!(closest_resolution(&res, &ratio(1, 3)), Some(2));
    assert_eq!(closest_resolution(&vec![], &ratio(1, 1)), None);
}

fn session(csv: &WallpapersCsv, names: &[&str]) -> Wallpapers {
    let mut w = editor(csv.get(&s(names[0])).unwrap().clone());
    w.files = names.iter().map(|n| WallFile { path: format!("/walls/{}", n), name: s(n) }).collect();
    w
}

fn three() -> WallpapersCsv {
    let mut csv = WallpapersCsv::new();
    for n in ["a.png", "b.png", "c.png"] {
        csv.insert(info(n, vec![], vec![]));
    }
    csv
}

#[test]
fn prev_and_next_wrap_around() {
    let csv = three();
    let mut w = session(&csv, &["a.png", "b.png", "c.png"]);
    assert_eq!(w.prev_wall(&csv), Ok(()));
    assert_eq!(w.index, 2);
    assert_eq!(w.current.filename, "c.png");
    assert_eq!(w.next_wall(&csv), Ok(()));
    assert_eq!(w.index, 0);
    assert_eq!(w.source.filename, "a.png");
    assert_eq!(w.next_wall(&csv), Ok(()));
    assert_eq!(w.current.filename, "b.png");
}

#[test]
fn navigation_without_record_changes_nothing() {
    let csv = three();
    let mut w = session(&csv, &["a.png", "zzz.png"]);
    assert_eq!(w.next_wall(&csv), Err(EditorError::MissingRecord));
    assert_eq!(w.index, 0);
    assert_eq!(w.current.filename, "a.png");
}

#[test]
fn remove_drops_current_and_shows_next() {
    let csv = three();
    let mut w = session(&csv, &["a.png", "b.png", "c.png"]);
    assert_eq!(w.remove(&csv), Ok(()));
    assert_eq!(w.files.len(), 2);
    assert_eq!(w.index, 0);
    assert_eq!(w.current.filename, "b.png");
    w.index = 1;
    assert_eq!(w.remove(&csv), Ok(()));
    assert_eq!(w.files.len(), 1);
    assert_eq!(w.index, 0);
    assert_eq!(w.current.filename, "b.png");
}

#[test]
fn set_from_filename_finds_file() {
    let csv = three();
    let mut w = session(&csv, &["a.png", "b.png", "c.png"]);
    assert_eq!(w.set_from_filename(&csv, &s("c.png")), Ok(()));
    assert_eq!(w.index, 2);
    assert_eq!(w.current.filename, "c.png");
    assert_eq!(w.set_from_filename(&csv, &s("nope.png")), Err(EditorError::MissingRecord));
    let mut v = session(&csv, &["a.png", "b.png"]);
    assert_eq!(v.set_from_filename(&csv, &s("c.png")), Err(EditorError::MissingFile));
    assert_eq!(v.index, 0);
}

#[test]
fn move_geometry_of_oversized_crop_stays_at_zero() {
    // a stored crop wider than the image: it cannot move forward
    let g = Geometry { w: 2000, h: 1080, x: 0, y: 0 };
    let w = editor(info("a.png", vec![], vec![(ratio(1, 1), g)]));
    assert_eq!(w.move_geometry_by(50), g);
    assert_eq!(w.move_geometry_by(-50), g);
}
