use mtg_proxy_creator::layout::{build_document, LayoutConfig, LayoutKind};
use mtg_proxy_creator::pixels::{ColorSpace, PixelBuffer};
use mtg_proxy_creator::plan::{jobs_for_card, pdf_output_path, plan_fetches, FetchJob};
use mtg_proxy_creator::resolve::CardImageUrls;

fn urls(front: Option<&str>, back: Option<&str>) -> CardImageUrls {
    CardImageUrls {
        front: front.map(|s| s.as_bytes().to_vec()),
        back: back.map(|s| s.as_bytes().to_vec()),
    }
}

fn job_url(job: &FetchJob) -> Option<Vec<u8>> {
    match job {
        FetchJob::Url(v) => Some(v.clone()),
        FetchJob::Placeholder => None,
    }
}

fn tiny() -> PixelBuffer {
    PixelBuffer { width: 1, height: 1, color: ColorSpace::Rgb, data: vec![0, 0, 0] }
}

#[test]
fn grid_fetches_front_only() {
    let jobs = jobs_for_card(&urls(Some("f"), Some("b")), LayoutKind::Grid);
    assert_eq!(jobs.len(), 1);
    assert_eq!(job_url(&jobs[0]), Some(b"f".to_vec()));
}

#[test]
fn single_fetches_front_and_back_when_back_exists() {
    let jobs = jobs_for_card(&urls(Some("f"), Some("b")), LayoutKind::SinglePerPage);
    assert_eq!(jobs.len(), 2);
    assert_eq!(job_url(&jobs[0]), Some(b"f".to_vec()));
    assert_eq!(job_url(&jobs[1]), Some(b"b".to_vec()));

    let jobs = jobs_for_card(&urls(Some("f"), None), LayoutKind::SinglePerPage);
    assert_eq!(jobs.len(), 1);
}

#[test]
fn absent_front_becomes_placeholder() {
    let jobs = jobs_for_card(&urls(None, None), LayoutKind::Grid);
    assert_eq!(jobs.len(), 1);
    assert!(matches!(jobs[0], FetchJob::Placeholder));
}

#[test]
fn batch_keeps_submission_order() {
    let res = vec![
        Some(urls(Some("a"), None)),
        None,
        Some(urls(Some("b"), Some("c"))),
    ];
    let jobs = plan_fetches(&res, LayoutKind::SinglePerPage);
    let got: Vec<Option<Vec<u8>>> = jobs.iter().map(job_url).collect();
    assert_eq!(
        got,
        vec![Some(b"a".to_vec()), Some(b"b".to_vec()), Some(b"c".to_vec())]
    );
}

// One single-faced and one double-faced card: three pages one-per-page,
// one shared grid page.
#[test]
fn mixed_deck_page_counts() {
    let res = vec![
        Some(urls(Some("front1"), None)),
        Some(urls(Some("front2"), Some("back2"))),
    ];

    let jobs = plan_fetches(&res, LayoutKind::SinglePerPage);
    assert_eq!(jobs.len(), 3);
    let fetched: Vec<Option<PixelBuffer>> = jobs.iter().map(|_| Some(tiny())).collect();
    let cfg = LayoutConfig { kind: LayoutKind::SinglePerPage, padding_um: 0 };
    let doc = build_document(fetched, &cfg);
    assert_eq!(doc.pages.len(), 3);

    let jobs = plan_fetches(&res, LayoutKind::Grid);
    assert_eq!(jobs.len(), 2);
    let fetched: Vec<Option<PixelBuffer>> = jobs.iter().map(|_| Some(tiny())).collect();
    let cfg = LayoutConfig { kind: LayoutKind::Grid, padding_um: 0 };
    let doc = build_document(fetched, &cfg);
    assert_eq!(doc.pages.len(), 1);
    assert_eq!(doc.pages[0].placements.len(), 2);
}

// A resolution failure skips that card and the batch still completes.
#[test]
fn failed_resolution_is_isolated() {
    let res = vec![
        Some(urls(Some("a"), None)),
        None,
        Some(urls(Some("c"), None)),
    ];
    let jobs = plan_fetches(&res, LayoutKind::Grid);
    assert_eq!(jobs.len(), 2);
    assert!(jobs.len() < res.len());
    let fetched: Vec<Option<PixelBuffer>> = jobs.iter().map(|_| Some(tiny())).collect();
    let cfg = LayoutConfig { kind: LayoutKind::Grid, padding_um: 0 };
    let doc = build_document(fetched, &cfg);
    assert_eq!(doc.pages.len(), 1);
    assert_eq!(doc.pages[0].placements.len(), 2);
}

#[test]
fn empty_batch_yields_no_jobs_and_no_pages() {
    let jobs = plan_fetches(&Vec::new(), LayoutKind::Grid);
    assert_eq!(jobs.len(), 0);
    let cfg = LayoutConfig { kind: LayoutKind::Grid, padding_um: 0 };
    let doc = build_document(Vec::new(), &cfg);
    assert_eq!(doc.pages.len(), 0);
}

#[test]
fn output_path_replaces_the_final_extension() {
    let p = |s: &str| String::from_utf8(pdf_output_path(&s.as_bytes().to_vec())).unwrap();
    assert_eq!(p("deck.txt"), "deck.pdf");
    assert_eq!(p("a.b.txt"), "a.b.pdf");
    assert_eq!(p("noext"), "noext.pdf");
    assert_eq!(p("dir.d/file.txt"), "dir.d/file.pdf");
    assert_eq!(p("dir.d/noext"), "dir.d/noext.pdf");
    assert_eq!(p("C:\\cards\\deck.txt"), "C:\\cards\\deck.pdf");
}
