//! Page layout and document assembly.
//!
//! Normalized card images are placed on A4 pages under one of two
//! policies: one card per page, centered; or a three-by-three grid with
//! a configurable padding between cards, the grid block centered on the
//! page.  Positions are held in whole nanometres, so every centering
//! division is exact; a renderer divides by a million to obtain
//! millimetres.

use crate::pixels::PixelBuffer;
use vstd::arithmetic::div_mod::{
    lemma_div_is_ordered, lemma_div_multiples_vanish, lemma_fundamental_div_mod,
    lemma_fundamental_div_mod_converse, lemma_mod_bound,
};
use vstd::prelude::*;

verus! {

/// Page width: 210 mm, the A4 short side.
pub const PAGE_WIDTH_NM: i64 = 210_000_000;

/// Page height: 297 mm, the A4 long side.
pub const PAGE_HEIGHT_NM: i64 = 297_000_000;

/// Card width: 63 mm.
pub const CARD_WIDTH_NM: i64 = 63_000_000;

/// Card height: 88 mm.
pub const CARD_HEIGHT_NM: i64 = 88_000_000;

/// Columns of the grid layout.
pub const GRID_COLS: usize = 3;

/// Rows of the grid layout.
pub const GRID_ROWS: usize = 3;

/// Cards per page under the grid layout.
pub const CARDS_PER_PAGE: usize = 9;

/// The largest accepted padding, in micrometres (one metre).
pub const MAX_PADDING_UM: u64 = 1_000_000;

/// Which of the two layout policies drives page assembly.
#[derive(Clone, Copy, Debug, PartialEq, Eq, Structural)]
pub enum LayoutKind {
    SinglePerPage,
    Grid,
}

/// The layout choice and the grid padding, in micrometres.
#[derive(Clone, Copy, Debug, PartialEq, Eq, Structural)]
pub struct LayoutConfig {
    pub kind: LayoutKind,
    pub padding_um: u64,
}

/// The padding stays below the cap, so that every position fits
/// comfortably in signed 64-bit nanometres.
pub open spec fn valid_config(cfg: LayoutConfig) -> bool {
    cfg.padding_um <= MAX_PADDING_UM
}

/// The grid padding in nanometres.
pub open spec fn pad_nm(cfg: LayoutConfig) -> int {
    1000 * cfg.padding_um
}

/// How many images a full page carries.
pub open spec fn per_page(kind: LayoutKind) -> int {
    match kind {
        LayoutKind::SinglePerPage => 1,
        LayoutKind::Grid => CARDS_PER_PAGE as int,
    }
}

/// How many pages `n` images need: none for none, else one page for
/// each opened multiple of the page capacity.
pub open spec fn pages_needed(n: int, kind: LayoutKind) -> int {
    if n <= 0 {
        0
    } else {
        (n - 1) / per_page(kind) + 1
    }
}

/// The width of the grid block: three cards and two gaps.
pub open spec fn grid_width_nm(cfg: LayoutConfig) -> int {
    3 * CARD_WIDTH_NM + 2 * pad_nm(cfg)
}

/// The height of the grid block.  The padding is counted once with
/// every row and again between rows; this asymmetry against the width
/// term is the established page geometry and is kept as it stands.
pub open spec fn grid_height_nm(cfg: LayoutConfig) -> int {
    3 * (CARD_HEIGHT_NM + pad_nm(cfg)) + 2 * pad_nm(cfg)
}

/// The column of the `k`-th placed image under the grid layout.
pub open spec fn grid_col(k: int) -> int {
    k % (GRID_COLS as int)
}

/// The row within its page of the `k`-th placed image.
pub open spec fn grid_row(k: int) -> int {
    (k / (GRID_COLS as int)) % (GRID_ROWS as int)
}

/// The horizontal position of the `k`-th placed image: centered for
/// single-per-page, else the centered grid block's column offset.
pub open spec fn slot_x(cfg: LayoutConfig, k: int) -> int {
    match cfg.kind {
        LayoutKind::SinglePerPage => (PAGE_WIDTH_NM - CARD_WIDTH_NM) / 2,
        LayoutKind::Grid => (PAGE_WIDTH_NM - grid_width_nm(cfg)) / 2 + (CARD_WIDTH_NM + pad_nm(
            cfg,
        )) * grid_col(k),
    }
}

/// The vertical position of the `k`-th placed image, measured from the
/// bottom of the page; grid rows are counted from the top.
pub open spec fn slot_y(cfg: LayoutConfig, k: int) -> int {
    match cfg.kind {
        LayoutKind::SinglePerPage => (PAGE_HEIGHT_NM - CARD_HEIGHT_NM) / 2,
        LayoutKind::Grid => PAGE_HEIGHT_NM - (PAGE_HEIGHT_NM - grid_height_nm(cfg)) / 2 - (
        CARD_HEIGHT_NM + pad_nm(cfg)) * (grid_row(k) + 1),
    }
}

/// The page that the `k`-th placed image lands on.
pub open spec fn page_index(kind: LayoutKind, k: int) -> int {
    k / per_page(kind)
}

/// One image placed at a position on some page.
pub struct Placement {
    pub image: PixelBuffer,
    pub x_nm: i64,
    pub y_nm: i64,
}

/// The ordered placements of one page.
pub struct Page {
    pub placements: Vec<Placement>,
}

/// The assembled document: its pages in order.
pub struct Document {
    pub pages: Vec<Page>,
}

/// The images that reached layout: fetch failures are skipped and
/// consume no slot.
pub open spec fn kept(images: Seq<Option<PixelBuffer>>) -> Seq<PixelBuffer>
    decreases images.len(),
{
    if images.len() == 0 {
        Seq::empty()
    } else {
        match images.last() {
            Option::Some(img) => kept(images.drop_last()).push(img),
            Option::None => kept(images.drop_last()),
        }
    }
}

/// Skipping failures distributes over concatenation.
pub proof fn lemma_kept_append(a: Seq<Option<PixelBuffer>>, b: Seq<Option<PixelBuffer>>)
    ensures
        kept(a + b) == kept(a) + kept(b),
    decreases b.len(),
{
    if b.len() == 0 {
        assert(a + b =~= a);
        assert(kept(a) + kept(b) =~= kept(a));
    } else {
        lemma_kept_append(a, b.drop_last());
        assert((a + b).drop_last() =~= a + b.drop_last());
        assert((a + b).last() == b.last());
        match b.last() {
            Option::Some(img) => {
                assert(kept(a) + kept(b) =~= (kept(a) + kept(b.drop_last())).push(img));
            },
            Option::None => {},
        }
    }
}

/// No more images survive than were submitted.
pub proof fn lemma_kept_len(images: Seq<Option<PixelBuffer>>)
    ensures
        kept(images).len() <= images.len(),
    decreases images.len(),
{
    if images.len() > 0 {
        lemma_kept_len(images.drop_last());
    }
}

/// Every image of `ks` stands in the document at its page and slot,
/// at its layout position.
pub open spec fn placed_at(doc: Document, cfg: LayoutConfig, ks: Seq<PixelBuffer>, k: int) -> bool {
    let p = page_index(cfg.kind, k);
    let j = k % per_page(cfg.kind);
    &&& 0 <= p < doc.pages@.len()
    &&& 0 <= j < doc.pages@[p].placements@.len()
    &&& doc.pages@[p].placements@[j].image == ks[k]
    &&& doc.pages@[p].placements@[j].x_nm == slot_x(cfg, k)
    &&& doc.pages@[p].placements@[j].y_nm == slot_y(cfg, k)
}

/// How many placements page `p` carries when `n` images are laid out.
pub open spec fn page_fill(n: int, kind: LayoutKind, p: int) -> int {
    if (p + 1) * per_page(kind) <= n {
        per_page(kind)
    } else {
        n - p * per_page(kind)
    }
}

/// Computes the position of the `k`-th placed image.
fn compute_position(cfg: &LayoutConfig, k: usize) -> (r: (i64, i64))
    requires
        valid_config(*cfg),
    ensures
        r.0 == slot_x(*cfg, k as int),
        r.1 == slot_y(*cfg, k as int),
{
    match cfg.kind {
        LayoutKind::SinglePerPage => (
            (PAGE_WIDTH_NM - CARD_WIDTH_NM) / 2,
            (PAGE_HEIGHT_NM - CARD_HEIGHT_NM) / 2,
        ),
        LayoutKind::Grid => {
            let pad: i64 = 1000 * (cfg.padding_um as i64);
            let x_off: i64 = 10_500_000 - pad;
            let y_off: i64 = 16_500_000 - 2500 * (cfg.padding_um as i64);
            proof {
                lemma_div_multiples_vanish(x_off as int, 2);
                assert(2 * x_off == PAGE_WIDTH_NM - grid_width_nm(*cfg));
                lemma_div_multiples_vanish(y_off as int, 2);
                assert(2 * y_off == PAGE_HEIGHT_NM - grid_height_nm(*cfg));
            }
            let col: i64 = (k % GRID_COLS) as i64;
            let row: i64 = ((k / GRID_COLS) % GRID_ROWS) as i64;
            let step_x: i64 = CARD_WIDTH_NM + pad;
            let step_y: i64 = CARD_HEIGHT_NM + pad;
            proof {
                assert(0 <= step_x * col <= step_x * 2 && 0 <= step_y * (row + 1) <= step_y * 3)
                    by (nonlinear_arith)
                    requires
                        0 <= step_x,
                        0 <= step_y,
                        0 <= col <= 2,
                        0 <= row <= 2,
                ;
            }
            let x: i64 = x_off + step_x * col;
            let y: i64 = PAGE_HEIGHT_NM - y_off - step_y * (row + 1);
            (x, y)
        },
    }
}

/// Lays the surviving images out and assembles the document: page
/// counts, slot order and positions all follow the layout policy, in
/// submission order.
pub fn build_document(images: Vec<Option<PixelBuffer>>, cfg: &LayoutConfig) -> (doc: Document)
    requires
        valid_config(*cfg),
    ensures
        doc.pages@.len() == pages_needed(kept(images@).len() as int, cfg.kind),
        forall|p: int|
            0 <= p < doc.pages@.len() ==> doc.pages@[p].placements@.len() == page_fill(
                kept(images@).len() as int,
                cfg.kind,
                p,
            ),
        forall|k: int| 0 <= k < kept(images@).len() ==> placed_at(doc, *cfg, kept(images@), k),
{
    let ghost all: Seq<Option<PixelBuffer>> = images@;
    let ghost ks: Seq<PixelBuffer> = kept(all);
    let per: usize = match cfg.kind {
        LayoutKind::SinglePerPage => 1,
        LayoutKind::Grid => CARDS_PER_PAGE,
    };
    let mut rest = images;
    let mut pages: Vec<Page> = Vec::new();
    let mut cur: Vec<Placement> = Vec::new();
    let mut k: usize = 0;
    let n_input: usize = rest.len();
    proof {
        assert(all.len() == n_input as int);
        lemma_kept_len(all);
        assert(all.subrange(0, 0) =~= Seq::<Option<PixelBuffer>>::empty());
        assert(all.subrange(0, all.len() as int) =~= all);
        assert(ks.subrange(0, ks.len() as int) =~= ks);
    }
    while rest.len() > 0
        invariant
            valid_config(*cfg),
            per == per_page(cfg.kind),
            ks == kept(all),
            rest@.len() <= all.len(),
            ks.len() <= all.len() <= usize::MAX,
            rest@ == all.subrange(all.len() - rest@.len(), all.len() as int),
            kept(all.subrange(0, all.len() - rest@.len())) == ks.subrange(0, k as int),
            k <= ks.len(),
            pages@.len() == (k as int) / (per as int),
            cur@.len() == (k as int) % (per as int),
            forall|p: int| 0 <= p < pages@.len() ==> pages@[p].placements@.len() == per as int,
            forall|kk: int|
                #![trigger pages@[kk / (per as int)].placements@[kk % (per as int)]]
                0 <= kk < k && kk / (per as int) < pages@.len() ==> {
                    let j = kk % (per as int);
                    &&& 0 <= j < pages@[kk / (per as int)].placements@.len()
                    &&& pages@[kk / (per as int)].placements@[j].image == ks[kk]
                    &&& pages@[kk / (per as int)].placements@[j].x_nm == slot_x(*cfg, kk)
                    &&& pages@[kk / (per as int)].placements@[j].y_nm == slot_y(*cfg, kk)
                },
            forall|kk: int|
                #![trigger cur@[kk % (per as int)]]
                0 <= kk < k && kk / (per as int) == pages@.len() ==> {
                    let j = kk % (per as int);
                    &&& 0 <= j < cur@.len()
                    &&& cur@[j].image == ks[kk]
                    &&& cur@[j].x_nm == slot_x(*cfg, kk)
                    &&& cur@[j].y_nm == slot_y(*cfg, kk)
                },
        decreases rest@.len(),
    {
        let ghost done: int = all.len() - rest@.len();
        let img_opt = rest.remove(0);
        proof {
            assert(rest@ =~= all.subrange(done + 1, all.len() as int));
            assert(all.subrange(0, done + 1).drop_last() =~= all.subrange(0, done));
            assert(all.subrange(0, done + 1).last() == img_opt);
            lemma_kept_append(all.subrange(0, done + 1), all.subrange(done + 1, all.len() as int));
            assert(all.subrange(0, done + 1) + all.subrange(done + 1, all.len() as int) =~= all);
        }
        match img_opt {
            Option::Some(image) => {
                proof {
                    assert(kept(all.subrange(0, done + 1)) == ks.subrange(0, k as int).push(image));
                    assert(ks.subrange(0, k as int).push(image).len() <= ks.len());
                    assert(ks.subrange(0, k + 1 as int) =~= ks.subrange(0, k as int).push(
                        ks[k as int],
                    ));
                    assert(ks[k as int] == image);
                }
                let (x, y) = compute_position(cfg, k);
                let ghost prev: Seq<Placement> = cur@;
                cur.push(Placement { image, x_nm: x, y_nm: y });
                proof {
                    lemma_fundamental_div_mod(k as int, per as int);
                    lemma_mod_bound(k as int, per as int);
                    lemma_fundamental_div_mod_converse(
                        k + 1,
                        per as int,
                        if cur@.len() == per as int {
                            pages@.len() + 1 as int
                        } else {
                            pages@.len() as int
                        },
                        if cur@.len() == per as int {
                            0
                        } else {
                            cur@.len() as int
                        },
                    );
                }
                k = k + 1;
                if cur.len() == per {
                    let full = cur;
                    cur = Vec::new();
                    pages.push(Page { placements: full });
                    proof {
                        lemma_fundamental_div_mod_converse(
                            k as int - 1,
                            per as int,
                            pages@.len() - 1 as int,
                            per as int - 1,
                        );
                        assert forall|kk: int| 0 <= kk < k implies #[trigger] (kk / (per as int))
                            < pages@.len() by {
                            lemma_div_is_ordered(kk, k as int - 1, per as int);
                        }
                        assert forall|kk: int|
                            #![trigger pages@[kk / (per as int)].placements@[kk % (per as int)]]
                            0 <= kk < k && kk / (per as int) == pages@.len() - 1 implies ({
                            let j = kk % (per as int);
                            &&& 0 <= j < pages@[kk / (per as int)].placements@.len()
                            &&& pages@[kk / (per as int)].placements@[j].image == ks[kk]
                            &&& pages@[kk / (per as int)].placements@[j].x_nm == slot_x(*cfg, kk)
                            &&& pages@[kk / (per as int)].placements@[j].y_nm == slot_y(*cfg, kk)
                        }) by {
                            lemma_mod_bound(kk, per as int);
                            lemma_fundamental_div_mod(kk, per as int);
                            let j = kk % (per as int);
                            assert(pages@[pages@.len() - 1].placements@[j] == prev.push(
                                Placement { image, x_nm: x, y_nm: y },
                            )[j]);
                            if kk < k - 1 {
                                assert(prev[j] == prev[kk % (per as int)]);
                            }
                        }
                    }
                }
            },
            Option::None => {
                proof {
                    assert(kept(all.subrange(0, done + 1)) == ks.subrange(0, k as int));
                }
            },
        }
    }
    proof {
        assert(all.subrange(0, all.len() as int) =~= all);
        assert(rest@.len() == 0);
        assert(ks.subrange(0, k as int) =~= ks);
        assert(k == ks.len());
    }
    if cur.len() > 0 {
        proof {
            lemma_fundamental_div_mod(k as int, per as int);
            lemma_mod_bound(k as int, per as int);
            lemma_fundamental_div_mod_converse(
                k as int - 1,
                per as int,
                pages@.len() as int,
                cur@.len() - 1,
            );
        }
        pages.push(Page { placements: cur });
        let doc = Document { pages };
        proof {
            assert forall|p: int|
                0 <= p < doc.pages@.len() implies doc.pages@[p].placements@.len() == page_fill(
                ks.len() as int,
                cfg.kind,
                p,
            ) by {
                if p < doc.pages@.len() - 1 {
                    assert((p + 1) * per as int <= (doc.pages@.len() - 1) * per as int)
                        by (nonlinear_arith)
                        requires
                            p + 1 <= doc.pages@.len() - 1,
                            0 < per as int,
                    ;
                } else {
                    assert(p * per as int == (doc.pages@.len() - 1) * per as int);
                }
            }
            assert forall|k2: int| 0 <= k2 < ks.len() implies placed_at(doc, *cfg, ks, k2) by {
                lemma_mod_bound(k2, per as int);
                lemma_fundamental_div_mod(k2, per as int);
                lemma_div_is_ordered(k2, ks.len() as int - 1, per as int);
            }
        }
        return doc;
    }
    let doc = Document { pages };
    proof {
        lemma_fundamental_div_mod(k as int, per as int);
        lemma_mod_bound(k as int, per as int);
        assert forall|p: int|
            0 <= p < doc.pages@.len() implies doc.pages@[p].placements@.len() == page_fill(
            ks.len() as int,
            cfg.kind,
            p,
        ) by {
            assert((p + 1) * per as int <= doc.pages@.len() * per as int) by (nonlinear_arith)
                requires
                    p + 1 <= doc.pages@.len(),
                    0 < per as int,
            ;
        }
        if ks.len() > 0 {
            lemma_fundamental_div_mod_converse(
                ks.len() as int - 1,
                per as int,
                pages@.len() as int - 1,
                per as int - 1,
            );
        }
        assert forall|k2: int| 0 <= k2 < ks.len() implies placed_at(doc, *cfg, ks, k2) by {
            lemma_mod_bound(k2, per as int);
            lemma_fundamental_div_mod(k2, per as int);
            lemma_div_is_ordered(k2, ks.len() as int - 1, per as int);
        }
    }
    doc
}

} // verus!
