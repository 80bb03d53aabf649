use mtg_proxy_creator::layout::{build_document, LayoutConfig, LayoutKind};
use mtg_proxy_creator::pixels::{ColorSpace, PixelBuffer};

fn tiny(v: u8) -> PixelBuffer {
    PixelBuffer { width: 1, height: 1, color: ColorSpace::Rgb, data: vec![v, v, v] }
}

fn images(n: usize) -> Vec<Option<PixelBuffer>> {
    (0..n).map(|i| Some(tiny(i as u8))).collect()
}

fn grid(padding_um: u64) -> LayoutConfig {
    LayoutConfig { kind: LayoutKind::Grid, padding_um }
}

fn single() -> LayoutConfig {
    LayoutConfig { kind: LayoutKind::SinglePerPage, padding_um: 0 }
}

#[test]
fn ten_images_fill_two_grid_pages() {
    let doc = build_document(images(10), &grid(0));
    assert_eq!(doc.pages.len(), 2);
    assert_eq!(doc.pages[0].placements.len(), 9);
    assert_eq!(doc.pages[1].placements.len(), 1);
}

#[test]
fn nine_images_fill_one_grid_page() {
    let doc = build_document(images(9), &grid(0));
    assert_eq!(doc.pages.len(), 1);
    assert_eq!(doc.pages[0].placements.len(), 9);
}

#[test]
fn single_layout_gives_one_page_per_image_centered() {
    let doc = build_document(images(3), &single());
    assert_eq!(doc.pages.len(), 3);
    for page in &doc.pages {
        assert_eq!(page.placements.len(), 1);
        // Centered: (210 - 63) / 2 mm and (297 - 88) / 2 mm, in nanometres.
        assert_eq!(page.placements[0].x_nm, 73_500_000);
        assert_eq!(page.placements[0].y_nm, 104_500_000);
    }
}

#[test]
fn grid_positions_without_padding() {
    let doc = build_document(images(5), &grid(0));
    let page = &doc.pages[0];
    // Column offsets: x = 10.5 mm + 63 mm * col; top row y = 192.5 mm.
    assert_eq!(page.placements[0].x_nm, 10_500_000);
    assert_eq!(page.placements[1].x_nm, 73_500_000);
    assert_eq!(page.placements[2].x_nm, 136_500_000);
    assert_eq!(page.placements[0].y_nm, 192_500_000);
    // Second row sits one card height lower.
    assert_eq!(page.placements[3].x_nm, 10_500_000);
    assert_eq!(page.placements[3].y_nm, 104_500_000);
}

#[test]
fn grid_positions_with_padding() {
    // 0.5 mm of padding: 500 micrometres.
    let doc = build_document(images(3), &grid(500));
    let page = &doc.pages[0];
    assert_eq!(page.placements[0].x_nm, 10_000_000);
    assert_eq!(page.placements[1].x_nm, 73_500_000);
    assert_eq!(page.placements[2].x_nm, 137_000_000);
    // y = 280.5 mm + 2.5 * pad - (88 mm + pad) * 1.
    assert_eq!(page.placements[0].y_nm, 193_250_000);
}

#[test]
fn failed_fetches_consume_no_slot() {
    let imgs = vec![Some(tiny(1)), None, Some(tiny(2))];
    let doc = build_document(imgs, &grid(0));
    assert_eq!(doc.pages.len(), 1);
    let page = &doc.pages[0];
    assert_eq!(page.placements.len(), 2);
    // The second surviving image takes the second slot, not the third.
    assert_eq!(page.placements[1].x_nm, 73_500_000);
    assert_eq!(page.placements[0].image.data, vec![1, 1, 1]);
    assert_eq!(page.placements[1].image.data, vec![2, 2, 2]);
}

#[test]
fn no_images_yield_a_document_with_zero_pages() {
    let doc = build_document(Vec::new(), &grid(0));
    assert_eq!(doc.pages.len(), 0);
    let doc = build_document(vec![None, None], &single());
    assert_eq!(doc.pages.len(), 0);
}
