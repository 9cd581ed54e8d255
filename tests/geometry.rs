use wallpaper_ui::cropper::{AspectRatio, Cropper, Face};
use wallpaper_ui::geometry::{Alignment, Geometry, GeometryError};

fn geom(w: u32, h: u32, x: u32, y: u32) -> Geometry {
    Geometry { w, h, x, y }
}

#[test]
fn align_start_zeroes_offsets() {
    let g = geom(1080, 1080, 300, 0);
    assert_eq!(g.align_start(1920, 1080), geom(1080, 1080, 0, 0));
}

#[test]
fn align_center_horizontal_and_vertical() {
    assert_eq!(geom(1080, 1080, 0, 0).align_center(1920, 1080), geom(1080, 1080, 420, 0));
    assert_eq!(geom(1000, 500, 0, 0).align_center(1000, 1001), geom(1000, 500, 0, 250));
}

#[test]
fn align_end_horizontal_and_vertical() {
    assert_eq!(geom(1080, 1080, 0, 0).align_end(1920, 1080), geom(1080, 1080, 840, 0));
    assert_eq!(geom(1000, 500, 0, 0).align_end(1000, 1001), geom(1000, 500, 0, 501));
}

#[test]
fn alignments_in_any_order_stay_in_bounds() {
    let orders = [
        [Alignment::Start, Alignment::Center, Alignment::End],
        [Alignment::End, Alignment::Start, Alignment::Center],
        [Alignment::Center, Alignment::End, Alignment::Start],
    ];
    for (img_w, img_h, g) in [(1920u32, 1080u32, geom(1080, 1080, 5, 0)), (1080, 1920, geom(1080, 607, 0, 3))] {
        for order in orders.iter() {
            let mut cur = g;
            for a in order.iter() {
                cur = cur.align(*a, img_w, img_h);
                assert_eq!((cur.w, cur.h), (g.w, g.h));
                assert!(cur.x + cur.w <= img_w && cur.y + cur.h <= img_h);
            }
        }
    }
}

#[test]
fn geometry_text_forms() {
    let g = geom(1080, 1920, 42, 7);
    assert_eq!(g.to_text(), "1080x1920+42+7");
    assert_eq!(g.offset_text(), "42+7");
    assert_eq!(geom(0, 0, 0, 0).offset_text(), "0+0");
}

#[test]
fn default_crop_without_faces_is_centered() {
    let c = Cropper::new(&vec![], 1920, 1080);
    let r = AspectRatio::new(1, 1).unwrap();
    assert_eq!(c.crop(&r), geom(1080, 1080, 420, 0));
    assert_eq!(c.crop_candidates(&r), vec![geom(1080, 1080, 420, 0)]);
}

#[test]
fn default_crop_covers_single_face() {
    let face = Face { x: 800, y: 400, w: 100, h: 100 };
    let c = Cropper::new(&vec![face], 1920, 1080);
    let g = c.crop(&AspectRatio::new(1, 1).unwrap());
    assert_eq!(g, geom(1080, 1080, 310, 0));
    assert!(g.x <= 800 && g.x + g.w >= 900);
}

#[test]
fn face_near_edge_clamps_crop() {
    let face = Face { x: 1800, y: 400, w: 100, h: 100 };
    let c = Cropper::new(&vec![face], 1920, 1080);
    let g = c.crop(&AspectRatio::new(1, 1).unwrap());
    assert_eq!(g, geom(1080, 1080, 840, 0));
}

#[test]
fn candidates_are_ranked() {
    let a = Face { x: 100, y: 0, w: 100, h: 100 };
    let b = Face { x: 1700, y: 0, w: 100, h: 100 };
    let c = Cropper::new(&vec![a, b], 1920, 1080);
    let cands = c.crop_candidates(&AspectRatio::new(1, 1).unwrap());
    // all faces: [100, 1800] centered at 950; face a: 0; face b: 840; image center: 420
    assert_eq!(
        cands,
        vec![geom(1080, 1080, 410, 0), geom(1080, 1080, 0, 0), geom(1080, 1080, 840, 0), geom(1080, 1080, 420, 0)]
    );
}

#[test]
fn vertical_axis_for_tall_ratio_on_tall_image() {
    let face = Face { x: 10, y: 1500, w: 200, h: 200 };
    let c = Cropper::new(&vec![face], 1080, 1920);
    let g = c.crop(&AspectRatio::new(16, 9).unwrap());
    assert_eq!(g, geom(1080, 607, 0, 1296));
}

#[test]
fn candidates_stay_in_bounds() {
    let faces = vec![
        Face { x: 0, y: 0, w: 5000, h: 5000 },
        Face { x: 4000, y: 4000, w: 10, h: 10 },
        Face { x: 3, y: 900, w: 1, h: 1 },
    ];
    for (w, h) in [(1920u32, 1080u32), (1080, 1920), (333, 777), (1, 1)] {
        let c = Cropper::new(&faces, w, h);
        for (rw, rh) in [(1u32, 1u32), (16, 9), (9, 16), (21, 9), (3, 1000)] {
            for g in c.crop_candidates(&AspectRatio::new(rw, rh).unwrap()) {
                assert!(g.x + g.w <= w && g.y + g.h <= h, "{:?} outside {}x{}", g, w, h);
            }
        }
    }
}

#[test]
fn aspect_ratio_rejects_zero_and_compares_by_proportion() {
    assert!(AspectRatio::new(0, 9).is_none());
    assert!(AspectRatio::new(16, 0).is_none());
    let a = AspectRatio::new(16, 9).unwrap();
    let b = AspectRatio::new(32, 18).unwrap();
    assert!(a.same_as(&b));
    assert!(!a.same_as(&AspectRatio::new(16, 10).unwrap()));
}

#[test]
fn parse_geometry_text() {
    assert_eq!(Geometry::parse("1080x1920+42+7"), Ok(geom(1080, 1920, 42, 7)));
    assert_eq!(Geometry::parse("0x0+0+0"), Ok(geom(0, 0, 0, 0)));
    assert_eq!(Geometry::parse("4294967295x1+2+3"), Ok(geom(u32::MAX, 1, 2, 3)));
    assert_eq!(Geometry::parse("4294967296x1+2+3"), Err(GeometryError::InvalidCoordinate));
    assert_eq!(Geometry::parse("1080x1920+42"), Err(GeometryError::InvalidFormat));
    assert_eq!(Geometry::parse("1080x1920+42+7+1"), Err(GeometryError::InvalidFormat));
    assert_eq!(Geometry::parse("10ax1920+42+7"), Err(GeometryError::InvalidCoordinate));
    assert_eq!(Geometry::parse("x1920+42+7"), Err(GeometryError::InvalidCoordinate));
    assert_eq!(Geometry::parse(""), Err(GeometryError::InvalidFormat));
}

#[test]
fn geometry_text_round_trip() {
    for g in [geom(1080, 1920, 42, 7), geom(0, 0, 0, 0), geom(u32::MAX, 1, 10, 100)] {
        assert_eq!(Geometry::parse(&g.to_text()), Ok(g));
        assert_eq!(Geometry::parse_offset(&g.offset_text()), Ok((g.x, g.y)));
    }
}

#[test]
fn parse_offset_text() {
    assert_eq!(Geometry::parse_offset("420+0"), Ok((420, 0)));
    assert_eq!(Geometry::parse_offset("420"), Err(GeometryError::InvalidFormat));
    assert_eq!(Geometry::parse_offset("1x2"), Err(GeometryError::InvalidFormat));
    assert_eq!(Geometry::parse_offset("-1+2"), Err(GeometryError::InvalidCoordinate));
}

#[test]
fn crop_at_uses_ratio_size() {
    let c = Cropper::new(&vec![], 1920, 1080);
    assert_eq!(c.crop_at(&AspectRatio::new(1, 1).unwrap(), 12, 0), geom(1080, 1080, 12, 0));
}
