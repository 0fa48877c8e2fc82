use pdf_export::content::{Color, ColorSpace, Op, Stroke, TextItem};
use pdf_export::document::{pdf, ImageObjects, ImageSource, LinkAction};
use pdf_export::font::FaceInfo;
use pdf_export::frame::{Destination, Element, Frame, Geometry, Group, Location, Shape, Text};
use pdf_export::geom::{Point, Size, Transform};
use pdf_export::image::{Filter, ImageFormat, PixelKind, RasterImage};
use pdf_export::lang::Lang;
use pdf_export::text::Glyph;

fn pt(v: i32) -> i32 {
    v * 1000
}

fn flip(h: i32) -> Op {
    Op::Transform(Transform { sx: 1000, ky: 0, kx: 0, sy: -1000, tx: 0, ty: h as i64 })
}

fn times() -> FaceInfo {
    let mut advances = vec![500; 100];
    advances[43] = 722;
    advances[76] = 278;
    FaceInfo {
        id: 1,
        advances,
        postscript_name: "Times-Roman".to_string(),
        has_cff: false,
        monospaced: false,
        italic: false,
        weight: 400,
        bbox: (-168, -218, 1000, 898),
        cmap_scan: vec![(72, 43), (105, 76)],
        data: vec![0, 1, 0, 0],
    }
}

fn hi_text(lang: Lang) -> Text {
    Text {
        face: 1,
        size: pt(12),
        fill: Color::Luma(0),
        lang,
        glyphs: vec![
            Glyph { id: 43, x_advance: 722, x_offset: 0 },
            Glyph { id: 76, x_advance: 278, x_offset: 0 },
        ],
    }
}

fn en() -> Lang {
    Lang::two(b'e', b'n')
}

fn frame(w: i32, h: i32, elements: Vec<(Point, Element)>) -> Frame {
    Frame { size: Size { w: pt(w), h: pt(h) }, elements }
}

#[test]
fn empty_frame_gives_one_empty_page() {
    let doc = pdf(&vec![frame(100, 100, vec![])], &vec![], &vec![]).unwrap();
    assert_eq!(doc.structure.pages.len(), 1);
    let page = &doc.structure.pages[0];
    assert_eq!(page.size, Size { w: 100000, h: 100000 });
    assert_eq!(page.content, vec![flip(100000)]);
    assert!(doc.fonts.is_empty());
    assert!(doc.images.is_empty());
    assert!(doc.face_refs.is_empty());
    assert_eq!(doc.structure.lang, None);
    assert!(!doc.structure.rtl);
}

#[test]
fn text_run_selects_font_and_shows_glyph_codes() {
    let f = frame(100, 100, vec![(Point { x: pt(10), y: pt(20) }, Element::Text(hi_text(en())))]);
    let doc = pdf(&vec![f], &vec![times()], &vec![]).unwrap();
    assert_eq!(doc.faces, vec![1]);
    assert_eq!(doc.face_refs, vec![doc.fonts[0].type0_ref]);
    assert_eq!(doc.fonts[0].to_unicode, vec![(43, 72), (76, 105)]);
    assert_eq!(
        doc.structure.pages[0].content,
        vec![
            flip(100000),
            Op::BeginText,
            Op::SetFont(0, 12000),
            Op::SetFillColorSpace(ColorSpace::SrgbGray),
            Op::SetFillGray(0),
            Op::SetTextMatrix(10000, 20000),
            Op::ShowPositioned(vec![TextItem::Show(vec![0, 43, 0, 76])]),
            Op::EndText,
        ]
    );
    assert_eq!(doc.structure.lang, Some(en()));
}

#[test]
fn same_fill_is_set_once() {
    let red = Color::Rgba(255, 0, 0, 255);
    let rect = || Element::Shape(Shape { geometry: Geometry::Rect(Size { w: pt(10), h: pt(5) }), fill: Some(red), stroke: None });
    let f = frame(100, 100, vec![(Point { x: 0, y: 0 }, rect()), (Point { x: pt(20), y: 0 }, rect())]);
    let doc = pdf(&vec![f], &vec![], &vec![]).unwrap();
    assert_eq!(
        doc.structure.pages[0].content,
        vec![
            flip(100000),
            Op::Rect(0, 0, 10000, 5000),
            Op::SetFillColorSpace(ColorSpace::Srgb),
            Op::SetFillRgb(255, 0, 0),
            Op::FillNonzero,
            Op::Rect(20000, 0, 10000, 5000),
            Op::FillNonzero,
        ]
    );
}

#[test]
fn rgba_png_gets_soft_mask() {
    let (w, h) = (200u32, 150u32);
    let mut pixels = Vec::new();
    for i in 0..(w * h) {
        pixels.extend_from_slice(&[(i % 256) as u8, 10, 20, 128]);
    }
    let img = RasterImage { format: ImageFormat::Png, kind: PixelKind::Rgba8, width: w, height: h, pixels };
    let f = frame(200, 150, vec![(Point { x: 0, y: 0 }, Element::Image(7, Size { w: pt(200), h: pt(150) }))]);
    let doc = pdf(&vec![f], &vec![], &vec![(7, ImageSource::Raster(img))]).unwrap();
    assert_eq!(doc.image_ids, vec![7]);
    match &doc.images[0] {
        ImageObjects::Raster { image_ref, width, height, encoded, mask } => {
            assert_eq!((*width, *height), (200, 150));
            let e = encoded.as_ref().unwrap();
            assert_eq!(e.filter, Filter::FlateDecode);
            assert!(e.has_color);
            let rgb = miniz_oxide::inflate::decompress_to_vec_zlib(&e.data).unwrap();
            assert_eq!(rgb.len(), 3 * 200 * 150);
            assert_eq!(&rgb[3..6], &[1, 10, 20]);
            let (mask_ref, alpha) = mask.as_ref().unwrap();
            assert_eq!(*mask_ref, *image_ref + 1);
            let alpha = miniz_oxide::inflate::decompress_to_vec_zlib(alpha).unwrap();
            assert_eq!(alpha, vec![128; 200 * 150]);
            assert_eq!(doc.image_refs, vec![*image_ref]);
        }
        _ => panic!("expected a raster image"),
    }
    assert_eq!(
        doc.structure.pages[0].content,
        vec![
            flip(150000),
            Op::SaveState,
            Op::Transform(Transform { sx: 200000, ky: 0, kx: 0, sy: -150000, tx: 0, ty: 150000 }),
            Op::XObject(0),
            Op::RestoreState,
        ]
    );
}

#[test]
fn internal_link_resolves_to_target_page() {
    let link = Element::Link(
        Destination::Internal(Location { page: 3, pos: Point { x: pt(5), y: pt(30) } }),
        Size { w: pt(20), h: pt(12) },
    );
    let first = frame(100, 100, vec![
        (Point { x: pt(10), y: pt(20) }, Element::Text(hi_text(en()))),
        (Point { x: pt(10), y: pt(10) }, link),
    ]);
    let frames = vec![first, frame(100, 100, vec![]), frame(100, 100, vec![]), frame(100, 100, vec![])];
    let doc = pdf(&frames, &vec![times()], &vec![]).unwrap();
    let pages = &doc.structure.pages;
    assert_eq!(pages.len(), 4);
    let annotation = &pages[0].annotations[0];
    assert_eq!(annotation.rect.x1, 10000);
    assert_eq!(annotation.rect.x2, 30000);
    assert_eq!(annotation.rect.y1, 90000);
    assert_eq!(annotation.rect.y2, 78000);
    match annotation.action {
        LinkAction::GoTo { page_ref, x, y } => {
            assert_eq!(page_ref, pages[2].page_ref);
            assert_eq!((x, y), (5000, 70000));
        }
        _ => panic!("expected a go-to action"),
    }
}

#[test]
fn right_to_left_document_direction() {
    let ar = Lang::two(b'a', b'r');
    let mut arabic = hi_text(ar);
    arabic.glyphs.push(Glyph { id: 43, x_advance: 722, x_offset: 0 });
    let f = frame(100, 100, vec![
        (Point { x: 0, y: 0 }, Element::Text(hi_text(en()))),
        (Point { x: 0, y: pt(20) }, Element::Text(arabic)),
    ]);
    let doc = pdf(&vec![f], &vec![times()], &vec![]).unwrap();
    assert_eq!(doc.structure.lang, Some(ar));
    assert!(doc.structure.rtl);
}

#[test]
fn page_count_matches_frames() {
    let frames = vec![frame(10, 20, vec![]), frame(30, 40, vec![]), frame(50, 60, vec![])];
    let doc = pdf(&frames, &vec![], &vec![]).unwrap();
    assert_eq!(doc.structure.pages.len(), 3);
    let refs: Vec<i32> = doc.structure.pages.iter().map(|p| p.page_ref).collect();
    assert_eq!(refs, vec![doc.structure.page_tree_ref + 1, doc.structure.page_tree_ref + 2, doc.structure.page_tree_ref + 3]);
    assert_eq!(doc.structure.pages[1].size, Size { w: 30000, h: 40000 });
}

#[test]
fn group_saves_are_balanced() {
    let inner = frame(10, 10, vec![]);
    let group = Group { frame: inner, transform: Transform { sx: 1000, ky: 0, kx: 0, sy: 1000, tx: 0, ty: 0 }, clips: true };
    let f = frame(100, 100, vec![(Point { x: pt(5), y: pt(6) }, Element::Group(group))]);
    let doc = pdf(&vec![f], &vec![], &vec![]).unwrap();
    assert_eq!(
        doc.structure.pages[0].content,
        vec![
            flip(100000),
            Op::SaveState,
            Op::Transform(Transform { sx: 1000, ky: 0, kx: 0, sy: 1000, tx: 5000, ty: 6000 }),
            Op::MoveTo(0, 0),
            Op::LineTo(10000, 0),
            Op::LineTo(10000, 10000),
            Op::LineTo(0, 10000),
            Op::ClipNonzero,
            Op::EndPath,
            Op::RestoreState,
        ]
    );
}

#[test]
fn missing_face_is_refused() {
    let f = frame(100, 100, vec![(Point { x: 0, y: 0 }, Element::Text(hi_text(en())))]);
    assert!(pdf(&vec![f], &vec![], &vec![]).is_none());
}

#[test]
fn stroke_then_same_stroke_is_set_once() {
    let s = Stroke { paint: Color::Cmyk(0, 0, 0, 255), thickness: 1000 };
    let line = || Element::Shape(Shape { geometry: Geometry::Line(Point { x: pt(1), y: 0 }), fill: None, stroke: Some(s) });
    let f = frame(100, 100, vec![(Point { x: 0, y: 0 }, line()), (Point { x: 0, y: pt(1) }, line())]);
    let doc = pdf(&vec![f], &vec![], &vec![]).unwrap();
    assert_eq!(
        doc.structure.pages[0].content,
        vec![
            flip(100000),
            Op::MoveTo(0, 0),
            Op::LineTo(1000, 0),
            Op::SetStrokeCmyk(0, 0, 0, 255),
            Op::SetLineWidth(1000),
            Op::Stroke,
            Op::MoveTo(0, 1000),
            Op::LineTo(1000, 1000),
            Op::Stroke,
        ]
    );
}
