use pdf_export::compress::deflate;
use pdf_export::content::{Canvas, Color, ColorSpace, Op, Stroke, TextItem};
use pdf_export::document::{image_objects, resolve_link, ImageObjects, ImageSource, LinkAction};
use pdf_export::font::{font_objects, names_serif, to_unicode_pairs, CidFontType, FaceInfo, FIXED_PITCH, ITALIC, SERIF, SMALL_CAP, SYMBOLIC};
use pdf_export::frame::{Destination, Element, Frame, Geometry, Location, PathElement, Shape};
use pdf_export::geom::{Point, Rect, Size, Transform};
use pdf_export::image::{encode_alpha, encode_image, Filter, ImageFormat, PixelKind, RasterImage};
use pdf_export::lang::{dominant, tally_add, tally_merge, Lang};
use pdf_export::page::{ellipse, PageWriter, Resources};
use pdf_export::refs::bump;
use pdf_export::remap::Remapper;
use pdf_export::table::{cell_backgrounds, decorate_region, points, table_lines, Celled, FieldValue, RowPiece, Sizing, TableNode};
use pdf_export::text::{encode_glyphs, Glyph};
use std::collections::HashSet;

#[test]
fn remapper_assigns_indices_in_first_insertion_order() {
    let mut r = Remapper::new();
    r.insert(30);
    r.insert(10);
    r.insert(30);
    r.insert(20);
    assert_eq!(r.len(), 3);
    assert_eq!(r.map(30), 0);
    assert_eq!(r.map(10), 1);
    assert_eq!(r.map(20), 2);
    assert_eq!(r.layout_indices(), vec![30, 10, 20]);
    assert_eq!(r.pdf_indices(&vec![7, 8, 9]), vec![(7, 0), (8, 1), (9, 2)]);
}

#[test]
fn bump_hands_out_consecutive_references() {
    let mut alloc = 1;
    assert_eq!(bump(&mut alloc), 1);
    assert_eq!(bump(&mut alloc), 2);
    assert_eq!(alloc, 3);
}

#[test]
fn deflate_round_trips() {
    let data = b"aaaaaaaaaaaaaaaaaaaaaaaaaaaaaaaaaaaaaaaaaaaaaaaaaaaaaaaaaaaaaaaaaaaabbbb".to_vec();
    let packed = deflate(&data);
    assert_ne!(packed, data);
    assert_eq!(miniz_oxide::inflate::decompress_to_vec_zlib(&packed).unwrap(), data);
}

#[test]
fn fill_cache_and_color_spaces() {
    let mut c = Canvas::new();
    c.set_fill(Color::Luma(10));
    c.set_fill(Color::Luma(10));
    c.set_fill(Color::Luma(20));
    c.set_fill(Color::Cmyk(1, 2, 3, 4));
    c.set_fill(Color::Rgba(1, 2, 3, 0));
    assert_eq!(
        c.content,
        vec![
            Op::SetFillColorSpace(ColorSpace::SrgbGray),
            Op::SetFillGray(10),
            Op::SetFillGray(20),
            Op::SetFillCmyk(1, 2, 3, 4),
            Op::SetFillColorSpace(ColorSpace::Srgb),
            Op::SetFillRgb(1, 2, 3),
        ]
    );
}

#[test]
fn stroke_cache_includes_thickness() {
    let mut c = Canvas::new();
    let s = Stroke { paint: Color::Rgba(9, 8, 7, 255), thickness: 500 };
    c.set_stroke(s);
    c.set_stroke(s);
    c.set_stroke(Stroke { paint: Color::Rgba(9, 8, 7, 255), thickness: 700 });
    assert_eq!(
        c.content,
        vec![
            Op::SetStrokeColorSpace(ColorSpace::Srgb),
            Op::SetStrokeRgb(9, 8, 7),
            Op::SetLineWidth(500),
            Op::SetStrokeRgb(9, 8, 7),
            Op::SetLineWidth(700),
        ]
    );
}

#[test]
fn restore_brings_back_the_cached_state() {
    let mut c = Canvas::new();
    let mut faces = Remapper::new();
    c.set_font(&mut faces, 5, 12000);
    c.save_state();
    c.set_font(&mut faces, 6, 12000);
    c.restore_state();
    c.set_font(&mut faces, 5, 12000);
    assert_eq!(
        c.content,
        vec![Op::SetFont(0, 12000), Op::SaveState, Op::SetFont(1, 12000), Op::RestoreState]
    );
    assert!(c.saves.is_empty());
}

#[test]
fn glyphs_with_adjustments() {
    let glyphs = vec![
        Glyph { id: 1, x_advance: 500, x_offset: 0 },
        Glyph { id: 0x0102, x_advance: 600, x_offset: 0 },
        Glyph { id: 3, x_advance: 400, x_offset: 50 },
    ];
    let advances = vec![0, 450, 0, 400];
    let items = encode_glyphs(&glyphs, &advances);
    assert_eq!(
        items,
        vec![
            TextItem::Show(vec![0, 1]),
            TextItem::Adjust(-50),
            TextItem::Show(vec![1, 2]),
            TextItem::Adjust(-50),
            TextItem::Show(vec![0, 3]),
        ]
    );
}

#[test]
fn glyph_ids_beyond_the_face_get_no_adjustment() {
    let glyphs = vec![Glyph { id: 9, x_advance: 100, x_offset: 0 }, Glyph { id: 9, x_advance: 100, x_offset: 0 }];
    assert_eq!(encode_glyphs(&glyphs, &vec![]), vec![TextItem::Show(vec![0, 9, 0, 9])]);
}

#[test]
fn transform_composition_and_application() {
    let flip = Transform { sx: 1000, ky: 0, kx: 0, sy: -1000, tx: 0, ty: 100000 };
    let shift = Transform::translate(10000, 20000);
    let t = flip.pre_concat(&shift);
    assert_eq!(t, Transform { sx: 1000, ky: 0, kx: 0, sy: -1000, tx: 10000, ty: 80000 });
    assert_eq!(t.apply(5000, 5000), (15000, 75000));
    let half = Transform { sx: 500, ky: 0, kx: 0, sy: 500, tx: 0, ty: 0 };
    assert_eq!(half.apply(-3, 3), (-2, 1));
}

#[test]
fn ellipse_arcs() {
    let e = ellipse(Size { w: 20000, h: 10000 });
    assert_eq!(e.len(), 5);
    assert_eq!(e[0], PathElement::MoveTo(Point { x: 0, y: 5000 }));
    assert_eq!(
        e[1],
        PathElement::CubicTo(Point { x: 0, y: 2242 }, Point { x: 4483, y: 0 }, Point { x: 10000, y: 0 })
    );
}

#[test]
fn link_rectangle_follows_the_transform() {
    let mut w = PageWriter::new();
    w.canvas.transform(Transform { sx: 1000, ky: 0, kx: 0, sy: -1000, tx: 0, ty: 100000 });
    let dest = Destination::Url("https://example.org".to_string());
    w.write_link(Point { x: 1000, y: 2000 }, &dest, Size { w: 3000, h: 4000 });
    assert_eq!(w.links[0].1, Rect { x1: 1000, y1: 98000, x2: 4000, y2: 94000 });
}

#[test]
fn shape_without_paint_writes_nothing() {
    let mut w = PageWriter::new();
    let shape = Shape { geometry: Geometry::Rect(Size { w: 10, h: 10 }), fill: None, stroke: None };
    w.write_shape(0, 0, &shape);
    assert!(w.canvas.content.is_empty());
}

#[test]
fn empty_rectangle_is_left_out_but_painted() {
    let mut w = PageWriter::new();
    let shape = Shape { geometry: Geometry::Rect(Size { w: 0, h: 10 }), fill: Some(Color::Luma(3)), stroke: None };
    w.write_shape(0, 0, &shape);
    assert_eq!(w.canvas.content, vec![Op::SetFillColorSpace(ColorSpace::SrgbGray), Op::SetFillGray(3), Op::FillNonzero]);
}

#[test]
fn path_is_moved_to_the_position() {
    let mut w = PageWriter::new();
    let path = vec![PathElement::MoveTo(Point { x: 1, y: 2 }), PathElement::LineTo(Point { x: 3, y: 4 }), PathElement::ClosePath];
    let shape = Shape { geometry: Geometry::Path(path), fill: None, stroke: Some(Stroke { paint: Color::Luma(0), thickness: 1 }) };
    w.write_shape(10, 20, &shape);
    assert_eq!(&w.canvas.content[0..3], &[Op::MoveTo(11, 22), Op::LineTo(13, 24), Op::ClosePath]);
    assert_eq!(w.canvas.content.last(), Some(&Op::Stroke));
}

#[test]
fn image_is_registered_once() {
    let mut w = PageWriter::new();
    let mut res = Resources::new();
    w.write_image(&mut res, 0, 0, 4, Size { w: 10, h: 10 });
    w.write_image(&mut res, 0, 0, 9, Size { w: 10, h: 10 });
    w.write_image(&mut res, 0, 0, 4, Size { w: 10, h: 10 });
    assert_eq!(res.images.layout_indices(), vec![4, 9]);
    assert_eq!(w.canvas.content[2], Op::XObject(0));
    assert_eq!(w.canvas.content[6], Op::XObject(1));
    assert_eq!(w.canvas.content[10], Op::XObject(0));
}

fn raster(format: ImageFormat, kind: PixelKind, w: u32, h: u32, pixels: Vec<u8>) -> RasterImage {
    RasterImage { format, kind, width: w, height: h, pixels }
}

#[test]
fn gray_png_is_compressed_luma() {
    let img = raster(ImageFormat::Png, PixelKind::Luma8, 2, 1, vec![5, 6]);
    let e = encode_image(&img).unwrap();
    assert_eq!(e.filter, Filter::FlateDecode);
    assert!(!e.has_color);
    assert_eq!(miniz_oxide::inflate::decompress_to_vec_zlib(&e.data).unwrap(), vec![5, 6]);
}

#[test]
fn gray_gif_becomes_rgb() {
    let img = raster(ImageFormat::Other, PixelKind::LumaA8, 2, 1, vec![5, 1, 6, 2]);
    let e = encode_image(&img).unwrap();
    assert!(e.has_color);
    assert_eq!(miniz_oxide::inflate::decompress_to_vec_zlib(&e.data).unwrap(), vec![5, 5, 5, 6, 6, 6]);
    let (alpha, filter) = encode_alpha(&img);
    assert_eq!(filter, Filter::FlateDecode);
    assert_eq!(miniz_oxide::inflate::decompress_to_vec_zlib(&alpha).unwrap(), vec![1, 2]);
}

#[test]
fn jpeg_stays_jpeg() {
    let img = raster(ImageFormat::Jpeg, PixelKind::Rgb8, 2, 2, vec![200; 12]);
    let e = encode_image(&img).unwrap();
    assert_eq!(e.filter, Filter::DctDecode);
    assert!(e.has_color);
    assert_eq!(&e.data[0..2], &[0xFF, 0xD8]);
    let gray = raster(ImageFormat::Jpeg, PixelKind::Luma8, 2, 2, vec![10; 4]);
    let e = encode_image(&gray).unwrap();
    assert_eq!(e.filter, Filter::DctDecode);
    assert!(!e.has_color);
}

#[test]
fn opaque_image_has_no_mask_and_svg_takes_its_objects() {
    let mut alloc = 5;
    let img = ImageSource::Raster(raster(ImageFormat::Png, PixelKind::Rgb8, 1, 1, vec![1, 2, 3]));
    match image_objects(&img, &mut alloc) {
        ImageObjects::Raster { image_ref, mask, .. } => {
            assert_eq!(image_ref, 5);
            assert!(mask.is_none());
        }
        _ => panic!("expected a raster image"),
    }
    assert_eq!(alloc, 6);
    match image_objects(&ImageSource::Svg(4), &mut alloc) {
        ImageObjects::Svg { image_ref } => assert_eq!(image_ref, 6),
        _ => panic!("expected an svg image"),
    }
    assert_eq!(alloc, 10);
}

#[test]
fn serif_in_postscript_name() {
    assert!(names_serif("NotoSerif-Regular"));
    assert!(names_serif("Serif"));
    assert!(!names_serif("NotoSans-Regular"));
    assert!(!names_serif("Seri"));
    assert!(!names_serif(""));
}

#[test]
fn to_unicode_keeps_the_last_codepoint() {
    let scan = vec![(65, 3), (66, 4), (0x391, 3), (67, 9)];
    let glyphs: HashSet<u16> = [3u16, 4].into_iter().collect();
    assert_eq!(to_unicode_pairs(&scan, &glyphs), vec![(3, 0x391), (4, 66)]);
}

#[test]
fn font_objects_of_a_face() {
    let info = FaceInfo {
        id: 1,
        advances: vec![250, 500],
        postscript_name: "DejaVuSerif-Italic".to_string(),
        has_cff: true,
        monospaced: true,
        italic: true,
        weight: 700,
        bbox: (-1, -2, 3, 4),
        cmap_scan: vec![(97, 1)],
        data: vec![1, 2, 3],
    };
    let glyphs: HashSet<u16> = [1u16].into_iter().collect();
    let mut alloc = 10;
    let o = font_objects(&info, &glyphs, &mut alloc);
    assert_eq!((o.type0_ref, o.cid_ref, o.descriptor_ref, o.cmap_ref, o.data_ref), (10, 11, 12, 13, 14));
    assert_eq!(alloc, 15);
    assert_eq!(o.subtype, CidFontType::Type0);
    assert_eq!(o.flags, SYMBOLIC | SMALL_CAP | SERIF | FIXED_PITCH | ITALIC);
    assert_eq!(o.widths, vec![250, 500]);
    assert_eq!(o.stem_v, 168600);
    assert_eq!(o.to_unicode, vec![(1, 97)]);
    assert_eq!(miniz_oxide::inflate::decompress_to_vec_zlib(&o.font_file).unwrap(), vec![1, 2, 3]);
}

#[test]
fn tally_and_dominant_language() {
    let en = Lang::two(b'e', b'n');
    let de = Lang::two(b'd', b'e');
    let mut t = vec![];
    tally_add(&mut t, en, 3);
    tally_add(&mut t, de, 5);
    tally_add(&mut t, en, 2);
    assert_eq!(t, vec![(en, 5), (de, 5)]);
    assert_eq!(dominant(&t), Some(en));
    let mut all = vec![];
    tally_merge(&mut all, &t);
    tally_merge(&mut all, &vec![(de, 1)]);
    assert_eq!(dominant(&all), Some(de));
    assert_eq!(dominant(&vec![]), None);
    assert!(Lang::two(b'h', b'e').is_rtl());
    assert!(!en.is_rtl());
}

#[test]
fn links_resolve() {
    let refs = vec![3, 4];
    let heights = vec![100000, 50000];
    let rect = Rect { x1: 0, y1: 1, x2: 2, y2: 0 };
    let url = resolve_link(&Destination::Url("x".to_string()), rect, &refs, &heights);
    assert_eq!(url.rect, rect);
    match url.action {
        LinkAction::Uri(u) => assert_eq!(u, "x"),
        _ => panic!("expected a URI"),
    }
    let inside = Destination::Internal(Location { page: 2, pos: Point { x: 1000, y: 20000 } });
    match resolve_link(&inside, rect, &refs, &heights).action {
        LinkAction::GoTo { page_ref, x, y } => assert_eq!((page_ref, x, y), (4, 1000, 30000)),
        _ => panic!("expected a go-to"),
    }
}

#[test]
fn link_to_missing_page_is_refused() {
    let link = Element::Link(Destination::Internal(Location { page: 3, pos: Point { x: 0, y: 0 } }), Size { w: 1, h: 1 });
    let f = Frame { size: Size { w: 1000, h: 1000 }, elements: vec![(Point { x: 0, y: 0 }, link)] };
    assert!(pdf_export::pdf(&vec![f], &vec![], &vec![]).is_none());
}

#[test]
fn points_are_running_offsets() {
    assert_eq!(points(&vec![10, 5]), vec![0, 10, 15]);
    assert_eq!(points(&vec![]), vec![0]);
}

#[test]
fn celled_value_and_function() {
    let v: Celled<i32> = Celled::Value(7);
    assert_eq!(v.resolve(|_, x, y| (x + y) as i32, 1, 2), 7);
    let f: Celled<i32> = Celled::Func(9);
    assert_eq!(f.resolve(|h, x, y| (h as usize + 10 * x + 100 * y) as i32, 1, 2), 219);
}

#[test]
fn table_construct_and_fields() {
    let t = TableNode::construct(
        Some(vec![Sizing::Auto, Sizing::Fr(1)]),
        None,
        Some(vec![Sizing::Rel(5000)]),
        None,
        Some(vec![Sizing::Rel(1000)]),
        vec![1, 2, 3],
    );
    assert_eq!(t.gutter.x, vec![Sizing::Rel(5000)]);
    assert_eq!(t.gutter.y, vec![Sizing::Rel(1000)]);
    assert!(t.tracks.y.is_empty());
    match t.field("columns") {
        Some(FieldValue::Sizings(v)) => assert_eq!(v, vec![Sizing::Auto, Sizing::Fr(1)]),
        _ => panic!("expected sizings"),
    }
    match t.field("cells") {
        Some(FieldValue::Cells(v)) => assert_eq!(v, vec![1, 2, 3]),
        _ => panic!("expected cells"),
    }
    assert!(t.field("stroke").is_none());
}

#[test]
fn table_lines_and_backgrounds() {
    let cols = vec![1000, 2000];
    let rows = vec![RowPiece { y: 0, height: 500 }, RowPiece { y: 1, height: 700 }];
    let s = Stroke { paint: Color::Luma(0), thickness: 100 };
    let lines = table_lines(Size { w: 3000, h: 1200 }, &cols, &rows, s);
    assert_eq!(lines.len(), 6);
    assert_eq!(lines[2].0, Point { x: -50, y: 1200 });
    assert_eq!(lines[5].0, Point { x: 3000, y: -50 });
    let fill: Celled<Option<Color>> = Celled::Func(0);
    let bgs = cell_backgrounds(&cols, &rows, &fill, &|_, x, y| if (x + y) % 2 == 0 { Some(Color::Luma(200)) } else { None });
    assert_eq!(bgs.len(), 2);
    assert_eq!(bgs[1].0, Point { x: 1000, y: 500 });
    let mut frame = Frame { size: Size { w: 3000, h: 1200 }, elements: vec![(Point { x: 0, y: 0 }, Element::Pin(1))] };
    decorate_region(&mut frame, &cols, &rows, Some(s), &Celled::Value(Some(Color::Luma(1))), &|_, _, _| None);
    assert_eq!(frame.elements.len(), 6 + 4 + 1);
    assert_eq!(frame.elements[0].0, Point { x: 1000, y: 500 });
    match frame.elements[10].1 {
        Element::Pin(1) => {}
        _ => panic!("the contents stay last"),
    }
}
