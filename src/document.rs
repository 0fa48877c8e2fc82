//! Assembly of the whole document: references, resources, pages, catalog.

use crate::font::{FaceInfo, FontObjects, find_face, font_objects, font_objects_spec, store_wf};
use crate::frame::{DestView, Destination, Frame, Location};
use crate::geom::{Rect, Size};
use crate::image::{Encoded, RasterImage, encode_alpha, encode_image, has_alpha};
use crate::lang::{Lang, dominant, is_rtl, tally_merge, tally_wf};
use crate::content::Op;
use crate::page::{Page, Resources, export_page, grows};
use crate::refs::{RefId, bump};
use vstd::prelude::*;

verus! {

/// An image of the store.
pub enum ImageSource {
    Raster(RasterImage),
    /// A vector image that the SVG converter writes, using this many
    /// consecutive references from the image's own on.
    Svg(u32),
}

/// The objects written for one image.
pub enum ImageObjects {
    /// A raster image; `encoded` is `None` where encoding failed and a 0×0
    /// placeholder stands in; `mask` holds the reference and compressed
    /// alpha of the soft mask.
    Raster {
        image_ref: RefId,
        width: u32,
        height: u32,
        encoded: Option<Encoded>,
        mask: Option<(RefId, Vec<u8>)>,
    },
    /// A vector image, written by the SVG converter from `image_ref` on.
    Svg { image_ref: RefId },
}

/// The action of a link annotation.
pub enum LinkAction {
    Uri(String),
    /// Go to a page, at `(x, y)` in its PDF coordinates.
    GoTo { page_ref: RefId, x: i64, y: i64 },
}

/// A link annotation.
pub struct Annotation {
    pub rect: Rect,
    pub action: LinkAction,
}

/// A page object with its content stream.
pub struct PageObject {
    pub page_ref: RefId,
    pub content_ref: RefId,
    pub size: Size,
    pub content: Vec<Op>,
    /// One annotation per link of the page, in order.
    pub annotations: Vec<Annotation>,
}

/// Everything the document's objects hold.
pub struct Document {
    /// The faces in PDF-index order: face `i` is the resource `F{i}`.
    pub faces: Vec<u64>,
    pub fonts: Vec<FontObjects>,
    /// The Type0 font reference of each face, by PDF index.
    pub face_refs: Vec<RefId>,
    /// The images in PDF-index order: image `i` is the resource `Im{i}`.
    pub image_ids: Vec<u64>,
    pub images: Vec<ImageObjects>,
    /// The reference of each image, by PDF index.
    pub image_refs: Vec<RefId>,
    pub structure: Structure,
}

/// The address of a URI action.
pub open spec fn uri_of(a: LinkAction) -> Option<Seq<char>> {
    match a {
        LinkAction::Uri(s) => Some(s@),
        _ => None,
    }
}


/// A link leads somewhere the document has: an internal destination names
/// one of its `n` pages, counted from one.
pub open spec fn link_valid(dest: DestView, n: nat) -> bool {
    dest matches DestView::Internal(loc) ==> 1 <= loc.page <= n
}

/// Resolves a link: a URI is kept; an internal destination goes to its
/// page, with the y-coordinate flipped by that page's height.
pub fn resolve_link(dest: &Destination, rect: Rect, page_refs: &Vec<RefId>, heights: &Vec<i32>) -> (r: Annotation)
    requires
        page_refs@.len() == heights@.len(),
        link_valid(dest.view(), page_refs@.len()),
    ensures
        resolves(r, dest.view(), rect, page_refs@, heights@),
{
    match dest {
        Destination::Url(uri) => Annotation { rect, action: LinkAction::Uri(uri.clone()) },
        Destination::Internal(loc) => {
            let index = loc.page - 1;
            Annotation {
                rect,
                action: LinkAction::GoTo {
                    page_ref: page_refs[index],
                    x: loc.pos.x as i64,
                    y: heights[index] as i64 - loc.pos.y as i64,
                },
            }
        },
    }
}

/// The facts of the face with identifier `id`, where the store has it.
pub open spec fn face_in(fonts: Seq<FaceInfo>, id: u64) -> Option<FaceInfo> {
    if exists|i: int| 0 <= i < fonts.len() && fonts[i].id == id {
        Some(fonts[choose|i: int| 0 <= i < fonts.len() && fonts[i].id == id])
    } else {
        None
    }
}

/// The references left to hand out.
pub open spec fn room(alloc: RefId) -> int {
    RefId::MAX - alloc
}

/// Writes the objects of every registered face, in PDF-index order, five
/// references each. `None` where the store lacks a face or the references
/// run out.
pub fn write_fonts(res: &Resources, fonts: &Vec<FaceInfo>, alloc: &mut RefId) -> (r: Option<(Vec<FontObjects>, Vec<RefId>)>)
    requires
        res.wf(),
        store_wf(fonts@),
        *old(alloc) > 0,
    ensures
        *final(alloc) >= *old(alloc),
        r matches Some((objs, refs)) ==> {
            &&& objs@.len() == res.faces@.len()
            &&& refs@.len() == res.faces@.len()
            &&& *final(alloc) == *old(alloc) + 5 * res.faces@.len()
            &&& forall|i: int| 0 <= i < refs@.len() ==> {
                &&& #[trigger] refs@[i] == *old(alloc) + 5 * i
                &&& objs@[i].type0_ref == refs@[i]
                &&& face_in(fonts@, res.faces@[i]) matches Some(info)
                &&& font_objects_spec(objs@[i], info, res.glyphs(i), refs@[i])
            }
        },
        r.is_none() ==> (exists|i: int| 0 <= i < res.faces@.len() && face_in(fonts@, #[trigger] res.faces@[i]).is_none())
            || room(*old(alloc)) <= 5 * res.faces@.len(),
{
    let ids = res.faces.layout_indices();
    let mut objs: Vec<FontObjects> = Vec::new();
    let mut refs: Vec<RefId> = Vec::new();
    let mut i: usize = 0;
    while i < ids.len()
        invariant
            res.wf(),
            store_wf(fonts@),
            ids@ == res.faces@,
            i <= ids@.len(),
            *alloc == *old(alloc) + 5 * i,
            *old(alloc) > 0,
            objs@.len() == i,
            refs@.len() == i,
            forall|j: int| 0 <= j < i ==> {
                &&& #[trigger] refs@[j] == *old(alloc) + 5 * j
                &&& objs@[j].type0_ref == refs@[j]
                &&& face_in(fonts@, res.faces@[j]) matches Some(info)
                &&& font_objects_spec(objs@[j], info, res.glyphs(j), refs@[j])
            },
        decreases ids@.len() - i,
    {
        if *alloc >= RefId::MAX - 5 {
            return None;
        }
        let found = find_face(fonts, ids[i]);
        match found {
            None => {
                assert(face_in(fonts@, res.faces@[i as int]).is_none());
                return None;
            },
            Some(k) => {
                proof {
                    let c = choose|j: int| 0 <= j < fonts@.len() && fonts@[j].id == ids@[i as int];
                    if c != k {
                        if c < k {
                            assert(fonts@[c].id != fonts@[k as int].id);
                        } else {
                            assert(fonts@[k as int].id != fonts@[c].id);
                        }
                    }
                }
                let first = *alloc;
                let o = font_objects(&fonts[k], &res.glyph_sets[i], alloc);
                refs.push(first);
                objs.push(o);
            },
        }
        i += 1;
    }
    Some((objs, refs))
}

/// The source of the image with identifier `id`, where the store has it.
pub open spec fn image_in(images: Seq<(u64, ImageSource)>, id: u64) -> Option<ImageSource> {
    if exists|i: int| 0 <= i < images.len() && images[i].0 == id {
        Some(images[choose|i: int| 0 <= i < images.len() && images[i].0 == id].1)
    } else {
        None
    }
}

/// A bound on the objects that one SVG image is written with.
pub const SVG_MAX_OBJECTS: u32 = 0x4000_0000;

/// No two images of a store share an identifier, and raster buffers hold
/// their pixels exactly.
pub open spec fn image_store_wf(images: Seq<(u64, ImageSource)>) -> bool {
    &&& forall|i: int, j: int| 0 <= i < j < images.len() ==> (#[trigger] images[i]).0 != (#[trigger] images[j]).0
    &&& forall|i: int| 0 <= i < images.len() ==> match (#[trigger] images[i]).1 {
        ImageSource::Raster(img) => img.wf(),
        ImageSource::Svg(n) => n < SVG_MAX_OBJECTS,
    }
}

/// The position of the image with identifier `id`, if the store has one.
fn find_image(images: &Vec<(u64, ImageSource)>, id: u64) -> (r: Option<usize>)
    ensures
        match r {
            Some(i) => i < images@.len() && images@[i as int].0 == id,
            None => forall|i: int| 0 <= i < images@.len() ==> images@[i].0 != id,
        },
{
    let mut i: usize = 0;
    while i < images.len()
        invariant
            i <= images@.len(),
            forall|j: int| 0 <= j < i ==> images@[j].0 != id,
        decreases images@.len() - i,
    {
        if images[i].0 == id {
            return Some(i);
        }
        i += 1;
    }
    None
}

/// The objects of one image: its reference comes first; a raster with
/// alpha that could be encoded takes the next one for its soft mask of the
/// same size; the SVG converter takes as many as it writes.
pub open spec fn image_objects_spec(o: ImageObjects, src: ImageSource, first: RefId, next: RefId) -> bool {
    match (o, src) {
        (ImageObjects::Raster { image_ref, width, height, encoded, mask }, ImageSource::Raster(img)) => {
            &&& image_ref == first
            &&& width == img.width
            &&& height == img.height
            &&& match encoded {
                Some(e) => crate::image::encoding_of(img, e.data@, e.filter, e.has_color),
                None => img.format == crate::image::ImageFormat::Jpeg,
            }
            &&& match mask {
                Some((mask_ref, data)) => encoded.is_some() && has_alpha(img.kind) && mask_ref == first + 1
                    && data@ == crate::compress::zlib_of(crate::image::alpha_bytes(img.kind, img.pixels@, img.count()), crate::compress::COMPRESSION_LEVEL)
                    && next == first + 2,
                None => !(encoded.is_some() && has_alpha(img.kind)) && next == first + 1,
            }
        },
        (ImageObjects::Svg { image_ref }, ImageSource::Svg(n)) => image_ref == first && next == first + if n == 0 { 1 } else { n as int },
        _ => false,
    }
}

/// Writes the objects of one image.
pub fn image_objects(src: &ImageSource, alloc: &mut RefId) -> (r: ImageObjects)
    requires
        *old(alloc) > 0,
        match src {
            ImageSource::Raster(img) => img.wf() && *old(alloc) + 2 < RefId::MAX,
            ImageSource::Svg(n) => *old(alloc) + 1 + *n < RefId::MAX,
        },
    ensures
        image_objects_spec(r, *src, *old(alloc), *final(alloc)),
        *final(alloc) > *old(alloc),
{
    let image_ref = bump(alloc);
    match src {
        ImageSource::Raster(img) => {
            match encode_image(img) {
                Ok(e) => {
                    let mask = if img.has_alpha() {
                        let (alpha, _) = encode_alpha(img);
                        let mask_ref = bump(alloc);
                        Some((mask_ref, alpha))
                    } else {
                        None
                    };
                    ImageObjects::Raster { image_ref, width: img.width, height: img.height, encoded: Some(e), mask }
                },
                Err(_) => ImageObjects::Raster { image_ref, width: img.width, height: img.height, encoded: None, mask: None },
            }
        },
        ImageSource::Svg(n) => {
            let used: RefId = if *n == 0 { 1 } else { *n as RefId };
            *alloc = image_ref + used;
            ImageObjects::Svg { image_ref }
        },
    }
}

/// The most references one image can take: two for a raster (the image
/// and its mask), one more than the converter's count for an SVG image.
pub open spec fn need(src: Option<ImageSource>) -> int {
    match src {
        Some(ImageSource::Raster(_)) => 2,
        Some(ImageSource::Svg(n)) => 1 + n,
        None => 0,
    }
}

/// The most references the first `k` images of `ids` can take.
pub open spec fn images_need(images: Seq<(u64, ImageSource)>, ids: Seq<u64>, k: int) -> int
    decreases k,
{
    if k <= 0 {
        0
    } else {
        images_need(images, ids, k - 1) + need(image_in(images, ids[k - 1]))
    }
}

proof fn lemma_images_need_grows(images: Seq<(u64, ImageSource)>, ids: Seq<u64>, k: int, n: int)
    requires
        0 <= k <= n,
    ensures
        images_need(images, ids, k) <= images_need(images, ids, n),
    decreases n - k,
{
    if k < n {
        lemma_images_need_grows(images, ids, k, n - 1);
        assert(need(image_in(images, ids[n - 1])) >= 0);
    }
}

/// The reference after the objects of entry `i`: the next entry's first
/// one, or the allocator's final value after the last entry.
pub open spec fn next_of(refs: Seq<RefId>, i: int, last: RefId) -> RefId {
    if i + 1 < refs.len() {
        refs[i + 1]
    } else {
        last
    }
}

/// Writes the objects of every registered image, in PDF-index order, the
/// references of each following those of the one before. `None` only where
/// the store lacks an image or the references might run out.
pub fn write_images(res: &Resources, images: &Vec<(u64, ImageSource)>, alloc: &mut RefId) -> (r: Option<(Vec<ImageObjects>, Vec<RefId>)>)
    requires
        res.wf(),
        image_store_wf(images@),
        *old(alloc) > 0,
    ensures
        *final(alloc) >= *old(alloc),
        r matches Some((objs, refs)) ==> {
            &&& objs@.len() == res.images@.len()
            &&& refs@.len() == res.images@.len()
            &&& *final(alloc) <= *old(alloc) + images_need(images@, res.images@, res.images@.len() as int)
            &&& refs@.len() == 0 ==> *final(alloc) == *old(alloc)
            &&& refs@.len() > 0 ==> refs@[0] == *old(alloc)
            &&& forall|i: int| 0 <= i < refs@.len() ==> {
                &&& image_in(images@, #[trigger] res.images@[i]) matches Some(src)
                &&& image_objects_spec(objs@[i], src, refs@[i], next_of(refs@, i, *final(alloc)))
            }
        },
        r.is_none() ==> (exists|i: int| 0 <= i < res.images@.len() && image_in(images@, #[trigger] res.images@[i]).is_none())
            || room(*old(alloc)) <= images_need(images@, res.images@, res.images@.len() as int),
{
    let ids = res.images.layout_indices();
    let mut objs: Vec<ImageObjects> = Vec::new();
    let mut refs: Vec<RefId> = Vec::new();
    let mut i: usize = 0;
    while i < ids.len()
        invariant
            res.wf(),
            image_store_wf(images@),
            ids@ == res.images@,
            i <= ids@.len(),
            *old(alloc) + i <= *alloc <= *old(alloc) + images_need(images@, ids@, i as int),
            *old(alloc) > 0,
            objs@.len() == i,
            refs@.len() == i,
            i == 0 ==> *alloc == *old(alloc),
            i > 0 ==> refs@[0] == *old(alloc),
            forall|j: int| 0 <= j < i ==> {
                &&& image_in(images@, #[trigger] res.images@[j]) matches Some(src)
                &&& image_objects_spec(objs@[j], src, refs@[j], next_of(refs@, j, *alloc))
            },
        decreases ids@.len() - i,
    {
        let found = find_image(images, ids[i]);
        match found {
            None => {
                assert(image_in(images@, res.images@[i as int]).is_none());
                return None;
            },
            Some(k) => {
                assert(images@[k as int].1 matches ImageSource::Svg(n) ==> n < SVG_MAX_OBJECTS);
                proof {
                    let c = choose|j: int| 0 <= j < images@.len() && images@[j].0 == ids@[i as int];
                    if c != k {
                        if c < k {
                            assert(images@[c].0 != images@[k as int].0);
                        } else {
                            assert(images@[k as int].0 != images@[c].0);
                        }
                    }
                    assert(image_in(images@, ids@[i as int]) == Some(images@[k as int].1));
                }
                let need_here: i64 = match &images[k].1 {
                    ImageSource::Raster(_) => 2,
                    ImageSource::Svg(n) => 1 + *n as i64,
                };
                if *alloc as i64 + need_here >= RefId::MAX as i64 {
                    proof {
                        lemma_images_need_grows(images@, ids@, i + 1, ids@.len() as int);
                    }
                    return None;
                }
                proof {
                    assert(images@[k as int].1 matches ImageSource::Raster(img) ==> img.wf());
                }
                let first = *alloc;
                let o = image_objects(&images[k].1, alloc);
                let ghost objs0 = objs@;
                let ghost refs0 = refs@;
                refs.push(first);
                objs.push(o);
                proof {
                    assert forall|j: int| 0 <= j < i + 1 implies {
                        &&& image_in(images@, #[trigger] res.images@[j]) matches Some(src)
                        &&& image_objects_spec(objs@[j], src, refs@[j], next_of(refs@, j, *alloc))
                    } by {
                        if j < i {
                            assert(objs@[j] == objs0[j]);
                            assert(refs@[j] == refs0[j]);
                            if j + 1 < i {
                                assert(next_of(refs@, j, *alloc) == next_of(refs0, j, first));
                            } else {
                                assert(next_of(refs@, j, *alloc) == first);
                            }
                        }
                    }
                }
            },
        }
        i += 1;
    }
    Some((objs, refs))
}

/// What a link of a page becomes, given the pages' references and heights.
pub open spec fn resolves(a: Annotation, dest: DestView, rect: Rect, page_refs: Seq<RefId>, heights: Seq<i32>) -> bool {
    &&& a.rect == rect
    &&& match dest {
        DestView::Url(u) => uri_of(a.action) == Some(u),
        DestView::Internal(loc) => a.action == (LinkAction::GoTo {
            page_ref: page_refs[loc.page - 1],
            x: loc.pos.x as i64,
            y: (heights[loc.page - 1] - loc.pos.y) as i64,
        }),
    }
}

/// The count of language `l` summed over the first `n` pages.
pub open spec fn pages_sum(pages: Seq<Page>, l: Lang, n: int) -> int
    decreases n,
{
    if n <= 0 {
        0
    } else {
        pages_sum(pages, l, n - 1) + crate::lang::entries_sum(pages[n - 1].languages@, l, pages[n - 1].languages@.len() as int)
    }
}

proof fn lemma_pages_sum_nonneg(pages: Seq<Page>, l: Lang, n: int)
    ensures
        pages_sum(pages, l, n) >= 0,
    decreases n,
{
    if n > 0 {
        lemma_pages_sum_nonneg(pages, l, n - 1);
        crate::lang::lemma_entries_nonneg(pages[n - 1].languages@, l, pages[n - 1].languages@.len() as int);
    }
}

/// The language with the largest count in the tally, the first among
/// equals; none for an empty tally.
pub open spec fn is_dominant(r: Option<Lang>, t: Seq<(Lang, u64)>) -> bool {
    &&& r.is_none() <==> t.len() == 0
    &&& r.is_some() ==> exists|i: int|
        0 <= i < t.len() && #[trigger] t[i].0 == r->Some_0 && (forall|j: int|
            0 <= j < t.len() ==> t[j].1 <= t[i].1) && (forall|j: int| 0 <= j < i ==> t[j].1 < t[i].1)
}

/// The page tree, the page objects and the catalog's contents.
pub struct Structure {
    pub page_tree_ref: RefId,
    pub pages: Vec<PageObject>,
    /// The glyph count of each language over all pages.
    pub languages: Vec<(Lang, u64)>,
    pub lang: Option<Lang>,
    pub rtl: bool,
    pub info_ref: RefId,
    pub catalog_ref: RefId,
}

/// Lays out the page tree: its reference first, then one reference per
/// page, then one per content stream, then the information dictionary and
/// the catalog. Links are resolved against the pages' references and
/// heights, and the language is the one with the most glyphs.
pub fn write_structure(pages: Vec<Page>, alloc: &mut RefId) -> (r: Structure)
    requires
        *old(alloc) > 0,
        *old(alloc) + 2 * pages@.len() + 3 < RefId::MAX,
        forall|i: int| 0 <= i < pages@.len() ==> crate::lang::tally_wf(#[trigger] pages@[i].languages@),
        forall|i: int, j: int| 0 <= i < pages@.len() && 0 <= j < pages@[i].links@.len() ==> link_valid(
            (#[trigger] pages@[i].links@[j]).0.view(), pages@.len()),
    ensures
        *final(alloc) == *old(alloc) + 2 * pages@.len() + 3,
        r.page_tree_ref == *old(alloc),
        r.pages@.len() == pages@.len(),
        forall|i: int| 0 <= i < pages@.len() ==> {
            let p = #[trigger] r.pages@[i];
            &&& p.page_ref == *old(alloc) + 1 + i
            &&& p.content_ref == *old(alloc) + 1 + pages@.len() + i
            &&& p.size == pages@[i].size
            &&& p.content@ == pages@[i].content@
            &&& p.annotations@.len() == pages@[i].links@.len()
            &&& forall|j: int| 0 <= j < p.annotations@.len() ==> resolves(
                #[trigger] p.annotations@[j],
                pages@[i].links@[j].0.view(),
                pages@[i].links@[j].1,
                Seq::new(pages@.len(), |k: int| (*old(alloc) + 1 + k) as RefId),
                Seq::new(pages@.len(), |k: int| pages@[k].size.h),
            )
        },
        crate::lang::tally_wf(r.languages@),
        forall|l: Lang| #[trigger] crate::lang::tally_count(r.languages@, l) == crate::lang::cap(pages_sum(pages@, l, pages@.len() as int)),
        is_dominant(r.lang, r.languages@),
        r.rtl == (r.lang matches Some(l) && is_rtl(l)),
        r.info_ref == *old(alloc) + 2 * pages@.len() + 1,
        r.catalog_ref == *old(alloc) + 2 * pages@.len() + 2,
{
    let ghost all = pages@;
    let ghost first = *alloc;
    let n = pages.len();
    let page_tree_ref = bump(alloc);
    let mut page_refs: Vec<RefId> = Vec::new();
    let mut heights: Vec<i32> = Vec::new();
    let mut i: usize = 0;
    while i < n
        invariant
            n == all.len(),
            pages@ == all,
            first + 2 * n + 3 < RefId::MAX,
            first > 0,
            i <= n,
            *alloc == first + 1 + i,
            page_refs@ == Seq::new(i as nat, |k: int| (first + 1 + k) as RefId),
            heights@ == Seq::new(i as nat, |k: int| all[k].size.h),
        decreases n - i,
    {
        let id = bump(alloc);
        page_refs.push(id);
        heights.push(pages[i].size.h);
        i += 1;
        assert(page_refs@ =~= Seq::new(i as nat, |k: int| (first + 1 + k) as RefId));
        assert(heights@ =~= Seq::new(i as nat, |k: int| all[k].size.h));
    }
    let mut rest = pages;
    let mut out: Vec<PageObject> = Vec::new();
    let mut languages: Vec<(Lang, u64)> = Vec::new();
    let mut i: usize = 0;
    while i < n
        invariant
            n == all.len(),
            first + 2 * n + 3 < RefId::MAX,
            first > 0,
            i <= n,
            rest@ == all.subrange(i as int, n as int),
            *alloc == first + 1 + n + i,
            page_refs@ == Seq::new(n as nat, |k: int| (first + 1 + k) as RefId),
            heights@ == Seq::new(n as nat, |k: int| all[k].size.h),
            forall|k: int| 0 <= k < n ==> crate::lang::tally_wf(#[trigger] all[k].languages@),
            forall|k: int, j: int| 0 <= k < n && 0 <= j < all[k].links@.len() ==> link_valid(
                (#[trigger] all[k].links@[j]).0.view(), n as nat),
            out@.len() == i,
            forall|k: int| 0 <= k < i ==> {
                let p = #[trigger] out@[k];
                &&& p.page_ref == first + 1 + k
                &&& p.content_ref == first + 1 + n + k
                &&& p.size == all[k].size
                &&& p.content@ == all[k].content@
                &&& p.annotations@.len() == all[k].links@.len()
                &&& forall|j: int| 0 <= j < p.annotations@.len() ==> resolves(
                    #[trigger] p.annotations@[j],
                    all[k].links@[j].0.view(),
                    all[k].links@[j].1,
                    page_refs@,
                    heights@,
                )
            },
            crate::lang::tally_wf(languages@),
            forall|l: Lang| #[trigger] crate::lang::tally_count(languages@, l) == crate::lang::cap(pages_sum(all, l, i as int)),
        decreases n - i,
    {
        let page = rest.remove(0);
        assert(page == all[i as int]);
        let content_ref = bump(alloc);
        let mut annotations: Vec<Annotation> = Vec::new();
        let mut j: usize = 0;
        while j < page.links.len()
            invariant
                page_refs@.len() == heights@.len(),
                page_refs@.len() == n,
                forall|q: int| 0 <= q < page.links@.len() ==> link_valid((#[trigger] page.links@[q]).0.view(), n as nat),
                j <= page.links@.len(),
                annotations@.len() == j,
                forall|q: int| 0 <= q < j ==> resolves(
                    #[trigger] annotations@[q],
                    page.links@[q].0.view(),
                    page.links@[q].1,
                    page_refs@,
                    heights@,
                ),
            decreases page.links@.len() - j,
        {
            let a = resolve_link(&page.links[j].0, page.links[j].1, &page_refs, &heights);
            annotations.push(a);
            j += 1;
        }
        let ghost before = languages@;
        tally_merge(&mut languages, &page.languages);
        proof {
            assert forall|l: Lang| #[trigger] crate::lang::tally_count(languages@, l) == crate::lang::cap(pages_sum(all, l, i + 1)) by {
                lemma_pages_sum_nonneg(all, l, i as int);
                crate::lang::lemma_entries_nonneg(all[i as int].languages@, l, all[i as int].languages@.len() as int);
                assert(crate::lang::tally_count(before, l) == crate::lang::cap(pages_sum(all, l, i as int)));
            }
            assert(rest@ =~= all.subrange(i + 1, n as int));
        }
        out.push(PageObject { page_ref: page_refs[i], content_ref, size: page.size, content: page.content, annotations });
        i += 1;
    }
    let lang = dominant(&languages);
    let rtl = match lang {
        Some(l) => l.is_rtl(),
        None => false,
    };
    let info_ref = bump(alloc);
    let catalog_ref = bump(alloc);
    Structure { page_tree_ref, pages: out, languages, lang, rtl, info_ref, catalog_ref }
}

/// An exporter for a whole document: the resources that its pages
/// register, the pages written so far and the reference allocator.
pub struct PdfExporter {
    pub res: Resources,
    pub pages: Vec<Page>,
    pub alloc: RefId,
}

/// Each page was written from its frame: same size, the stream opening with
/// the flip into document coordinates and every save restored.
pub open spec fn pages_from(pages: Seq<Page>, frames: Seq<Frame>) -> bool {
    &&& pages.len() == frames.len()
    &&& forall|i: int| 0 <= i < pages.len() ==> {
        let p = #[trigger] pages[i];
        &&& p.size == frames[i].size
        &&& p.content@.len() >= 1
        &&& p.content@[0] == Op::Transform(crate::page::flip(frames[i].size.h))
        &&& crate::content::depth(p.content@) == 0
        &&& crate::content::never_underflows(p.content@)
        &&& tally_wf(p.languages@)
    }
}

/// The pages were written from the frames in order, each from the faces and
/// images the pages before it registered, ending with `faces` and `images`.
pub open spec fn pages_built(fonts: Seq<FaceInfo>, frames: Seq<Frame>, pages: Seq<Page>, faces: Seq<u64>, images: Seq<u64>) -> bool {
    exists|st: Seq<(Seq<u64>, Seq<u64>)>| #![trigger st.len()]
        st.len() == frames.len() + 1 && st[0] == (Seq::<u64>::empty(), Seq::<u64>::empty())
        && st[frames.len() as int] == (faces, images)
        && forall|i: int| #![trigger st[i]] 0 <= i < frames.len() ==> crate::page::frame_written(
            fonts,
            frames[i],
            crate::page::page_start(frames[i].size.h, st[i].0, st[i].1),
            (pages[i].content@, crate::page::page_start(frames[i].size.h, st[i].0, st[i].1).1, st[i + 1].0, st[i + 1].1,
                crate::page::links_view(pages[i].links@), pages[i].languages@),
        )
}

/// Every internal link of the pages names one of them.
pub open spec fn links_valid(pages: Seq<Page>) -> bool {
    forall|i: int, j: int| 0 <= i < pages.len() && 0 <= j < pages[i].links@.len() ==> link_valid(
        (#[trigger] pages[i].links@[j]).0.view(), pages.len())
}

/// Whether every internal link of the pages names one of them.
pub fn check_links(pages: &Vec<Page>) -> (r: bool)
    ensures
        r == links_valid(pages@),
{
    let n = pages.len();
    let mut i: usize = 0;
    while i < n
        invariant
            n == pages@.len(),
            i <= n,
            forall|k: int, j: int| 0 <= k < i && 0 <= j < pages@[k].links@.len() ==> link_valid(
                (#[trigger] pages@[k].links@[j]).0.view(), n as nat),
        decreases n - i,
    {
        let mut j: usize = 0;
        while j < pages[i].links.len()
            invariant
                n == pages@.len(),
                i < n,
                j <= pages@[i as int].links@.len(),
                forall|k: int, q: int| 0 <= k < i && 0 <= q < pages@[k].links@.len() ==> link_valid(
                    (#[trigger] pages@[k].links@[q]).0.view(), n as nat),
                forall|q: int| 0 <= q < j ==> link_valid((#[trigger] pages@[i as int].links@[q]).0.view(), n as nat),
            decreases pages@[i as int].links@.len() - j,
        {
            match &pages[i].links[j].0 {
                Destination::Internal(loc) => {
                    if loc.page < 1 || loc.page > n {
                        assert(!link_valid(pages@[i as int].links@[j as int].0.view(), n as nat));
                        return false;
                    }
                },
                Destination::Url(_) => {},
            }
            j += 1;
        }
        i += 1;
    }
    true
}

impl PdfExporter {
    /// An exporter with nothing written; references start at one.
    pub fn new() -> (r: PdfExporter)
        ensures
            r.res.wf(),
            r.res.faces@.len() == 0,
            r.res.images@.len() == 0,
            r.pages@.len() == 0,
            r.alloc == 1,
    {
        PdfExporter { res: Resources::new(), pages: Vec::new(), alloc: 1 }
    }

    /// Writes every frame as a page, in order.
    pub fn build_pages(&mut self, fonts: &Vec<FaceInfo>, frames: &Vec<Frame>)
        requires
            old(self).res.wf(),
            old(self).res.faces@.len() == 0,
            old(self).res.images@.len() == 0,
            old(self).pages@.len() == 0,
            store_wf(fonts@),
        ensures
            final(self).res.wf(),
            grows(old(self).res, final(self).res),
            final(self).alloc == old(self).alloc,
            pages_from(final(self).pages@, frames@),
            pages_built(fonts@, frames@, final(self).pages@, final(self).res.faces@, final(self).res.images@),
    {
        let mut i: usize = 0;
        let ghost mut st: Seq<(Seq<u64>, Seq<u64>)> = seq![(self.res.faces@, self.res.images@)];
        assert(self.res.faces@ =~= Seq::<u64>::empty());
        assert(self.res.images@ =~= Seq::<u64>::empty());
        while i < frames.len()
            invariant
                self.res.wf(),
                store_wf(fonts@),
                grows(old(self).res, self.res),
                self.alloc == old(self).alloc,
                i <= frames@.len(),
                pages_from(self.pages@, frames@.take(i as int)),
                st.len() == i + 1,
                st[0] == (Seq::<u64>::empty(), Seq::<u64>::empty()),
                st[i as int] == (self.res.faces@, self.res.images@),
                forall|k: int| #![trigger st[k]] 0 <= k < i ==> crate::page::frame_written(
                    fonts@,
                    frames@[k],
                    crate::page::page_start(frames@[k].size.h, st[k].0, st[k].1),
                    (self.pages@[k].content@, crate::page::page_start(frames@[k].size.h, st[k].0, st[k].1).1, st[k + 1].0, st[k + 1].1,
                        crate::page::links_view(self.pages@[k].links@), self.pages@[k].languages@),
                ),
            decreases frames@.len() - i,
        {
            let ghost r0 = self.res;
            let ghost p0 = self.pages@;
            let page = export_page(&mut self.res, fonts, &frames[i]);
            self.pages.push(page);
            proof {
                let st0 = st;
                st = st.push((self.res.faces@, self.res.images@));
                assert forall|k: int| #![trigger st[k]] 0 <= k < i + 1 implies crate::page::frame_written(
                    fonts@,
                    frames@[k],
                    crate::page::page_start(frames@[k].size.h, st[k].0, st[k].1),
                    (self.pages@[k].content@, crate::page::page_start(frames@[k].size.h, st[k].0, st[k].1).1, st[k + 1].0, st[k + 1].1,
                        crate::page::links_view(self.pages@[k].links@), self.pages@[k].languages@),
                ) by {
                    assert(self.pages@[k] == if k < i { p0[k] } else { self.pages@[i as int] });
                    if k < i {
                        assert(st[k] == st0[k] && st[k + 1] == st0[k + 1]);
                    }
                }
                assert(old(self).res.faces@.is_prefix_of(self.res.faces@));
                assert(old(self).res.images@.is_prefix_of(self.res.images@));
                assert forall|k: int| 0 <= k < old(self).res.faces@.len() implies #[trigger] old(self).res.glyphs(k).subset_of(self.res.glyphs(k)) by {
                    assert(old(self).res.glyphs(k).subset_of(r0.glyphs(k)));
                    assert(r0.glyphs(k).subset_of(self.res.glyphs(k)));
                }
                assert(frames@.take(i + 1).len() == i + 1);
                assert forall|k: int| 0 <= k < i + 1 implies frames@.take(i + 1)[k] == frames@.take(i as int)[k] || k == i by {}
            }
            i += 1;
        }
        assert(frames@.take(frames@.len() as int) =~= frames@);
        assert(st.len() == frames@.len() + 1);
    }
}

/// The document written from pages built from the frames, with the faces
/// and images they registered: fonts, images and structure as their
/// writers lay them out, references counted from one.
pub open spec fn document_of(doc: Document, images: Seq<(u64, ImageSource)>, pages: Seq<Page>, faces: Seq<u64>, image_ids: Seq<u64>) -> bool {
    &&& doc.faces@ == faces
    &&& doc.image_ids@ == image_ids
    &&& doc.fonts@.len() == faces.len()
    &&& doc.face_refs@.len() == faces.len()
    &&& doc.images@.len() == image_ids.len()
    &&& doc.image_refs@.len() == image_ids.len()
    &&& forall|i: int| 0 <= i < faces.len() ==> {
        &&& #[trigger] doc.face_refs@[i] == 1 + 5 * i
        &&& doc.fonts@[i].type0_ref == doc.face_refs@[i]
    }
    &&& forall|i: int| 0 <= i < image_ids.len() ==> {
        &&& image_in(images, #[trigger] image_ids[i]) matches Some(src)
        &&& image_objects_spec(doc.images@[i], src, doc.image_refs@[i], next_of(doc.image_refs@, i, doc.structure.page_tree_ref))
    }
    &&& doc.structure.pages@.len() == pages.len()
    &&& forall|i: int| 0 <= i < pages.len() ==> {
        let p = #[trigger] doc.structure.pages@[i];
        &&& p.page_ref == doc.structure.page_tree_ref + 1 + i
        &&& p.content_ref == doc.structure.page_tree_ref + 1 + pages.len() + i
        &&& p.size == pages[i].size
        &&& p.content@ == pages[i].content@
        &&& p.annotations@.len() == pages[i].links@.len()
        &&& forall|j: int| 0 <= j < p.annotations@.len() ==> resolves(
            #[trigger] p.annotations@[j],
            pages[i].links@[j].0.view(),
            pages[i].links@[j].1,
            Seq::new(pages.len(), |k: int| (doc.structure.page_tree_ref + 1 + k) as RefId),
            Seq::new(pages.len(), |k: int| pages[k].size.h),
        )
    }
    &&& forall|l: Lang| #[trigger] crate::lang::tally_count(doc.structure.languages@, l) == crate::lang::cap(pages_sum(pages, l, pages.len() as int))
    &&& is_dominant(doc.structure.lang, doc.structure.languages@)
    &&& doc.structure.rtl == (doc.structure.lang matches Some(l) && is_rtl(l))
}

/// Why a document could not be written from its pages: a face or an image
/// missing from the stores, a link to a page it lacks, or more objects than
/// references can number.
pub open spec fn export_fails(fonts: Seq<FaceInfo>, images: Seq<(u64, ImageSource)>, pages: Seq<Page>, faces: Seq<u64>, image_ids: Seq<u64>) -> bool {
    ||| exists|i: int| 0 <= i < faces.len() && face_in(fonts, #[trigger] faces[i]).is_none()
    ||| exists|i: int| 0 <= i < image_ids.len() && image_in(images, #[trigger] image_ids[i]).is_none()
    ||| !links_valid(pages)
    ||| room(1) <= 5 * faces.len() + images_need(images, image_ids, image_ids.len() as int) + 2 * pages.len() + 3
}

/// Writes the fonts, images and structure of built pages.
#[verifier::rlimit(100)]
pub fn finish(res: &Resources, pages: Vec<Page>, fonts: &Vec<FaceInfo>, images: &Vec<(u64, ImageSource)>) -> (r: Option<Document>)
    requires
        res.wf(),
        store_wf(fonts@),
        image_store_wf(images@),
        forall|i: int| 0 <= i < pages@.len() ==> tally_wf(#[trigger] pages@[i].languages@),
    ensures
        match r {
            Some(doc) => document_of(doc, images@, pages@, res.faces@, res.images@),
            None => export_fails(fonts@, images@, pages@, res.faces@, res.images@),
        },
{
    proof {
        lemma_images_need_grows(images@, res.images@, 0, res.images@.len() as int);
    }
    let mut alloc: RefId = 1;
    let (font_objs, face_refs) = match write_fonts(res, fonts, &mut alloc) {
        Some(x) => x,
        None => return None,
    };
    let (image_objs, image_refs) = match write_images(res, images, &mut alloc) {
        Some(x) => x,
        None => return None,
    };
    if !check_links(&pages) {
        return None;
    }
    let n = pages.len();
    if n >= 0x4000_0000 || alloc >= RefId::MAX - 3 - 2 * (n as RefId) {
        return None;
    }
    let faces_v = res.faces.layout_indices();
    let image_ids_v = res.images.layout_indices();
    let structure = write_structure(pages, &mut alloc);
    Some(Document { faces: faces_v, fonts: font_objs, face_refs, image_ids: image_ids_v, images: image_objs, image_refs, structure })
}

/// Exports frames into a document: one page per frame, the fonts and
/// images that the pages use, and the page tree and catalog. It succeeds
/// unless the stores lack a face or an image that the frames use, a link
/// leads to a page the document does not have, or the document could need
/// more objects than references can number.
pub fn pdf(frames: &Vec<Frame>, fonts: &Vec<FaceInfo>, images: &Vec<(u64, ImageSource)>) -> (r: Option<Document>)
    requires
        store_wf(fonts@),
        image_store_wf(images@),
    ensures
        exists|pages: Seq<Page>, faces: Seq<u64>, image_ids: Seq<u64>|
            #![trigger pages_built(fonts@, frames@, pages, faces, image_ids)]
            pages_built(fonts@, frames@, pages, faces, image_ids) && pages_from(pages, frames@) && match r {
                Some(doc) => document_of(doc, images@, pages, faces, image_ids),
                None => export_fails(fonts@, images@, pages, faces, image_ids),
            },
{
    let mut exporter = PdfExporter::new();
    exporter.build_pages(fonts, frames);
    let ghost pages = exporter.pages@;
    let ghost faces = exporter.res.faces@;
    let ghost image_ids = exporter.res.images@;
    let r = finish(&exporter.res, exporter.pages, fonts, images);
    assert(pages_built(fonts@, frames@, pages, faces, image_ids));
    r
}

} // verus!
