//! Orchestration decisions.
//!
//! The pipeline driver resolves each decklist entry in order, with a
//! pacing delay between lookups, and fans the image fetches out as
//! independent tasks.  The decisions themselves are made here: which
//! fetches a resolved card contributes under the active layout, how a
//! batch of resolution outcomes turns into an ordered job list, and
//! where the finished document is written.  A resolution failure is
//! logged by the driver and contributes no jobs; it never aborts the
//! batch.

use crate::layout::{pages_needed, LayoutKind};
use crate::parse::copy_range;
use crate::resolve::CardImageUrls;
use vstd::prelude::*;

verus! {

/// One unit of fetch work: download from a location, or use the
/// bundled card-back placeholder.
pub enum FetchJob {
    Url(Vec<u8>),
    Placeholder,
}

impl View for FetchJob {
    type V = Option<Seq<u8>>;

    open spec fn view(&self) -> Option<Seq<u8>> {
        match self {
            FetchJob::Url(v) => Option::Some(v@),
            FetchJob::Placeholder => Option::None,
        }
    }
}

/// The fetch jobs one resolved card contributes.  The grid layout has
/// no room for a dedicated back-face page, so only the front is
/// fetched; single-per-page fetches front and back when a back exists,
/// front before back.  An absent front is fetched as the placeholder.
pub open spec fn jobs_for_card_spec(
    urls: (Option<Seq<u8>>, Option<Seq<u8>>),
    kind: LayoutKind,
) -> Seq<Option<Seq<u8>>> {
    match kind {
        LayoutKind::Grid => seq![urls.0],
        LayoutKind::SinglePerPage => match urls.1 {
            Option::Some(b) => seq![urls.0, Option::Some(b)],
            Option::None => seq![urls.0],
        },
    }
}

/// The view of one resolution outcome.
pub open spec fn resolution_view(r: Option<CardImageUrls>) -> Option<
    (Option<Seq<u8>>, Option<Seq<u8>>),
> {
    match r {
        Option::Some(c) => Option::Some(c@),
        Option::None => Option::None,
    }
}

/// The ordered job list of a batch of resolution outcomes: entry order
/// first, front before back within an entry.  A failed resolution
/// contributes nothing.
pub open spec fn planned_jobs_spec(
    res: Seq<Option<(Option<Seq<u8>>, Option<Seq<u8>>)>>,
    kind: LayoutKind,
) -> Seq<Option<Seq<u8>>>
    decreases res.len(),
{
    if res.len() == 0 {
        Seq::empty()
    } else {
        planned_jobs_spec(res.drop_last(), kind) + (match res.last() {
            Option::Some(urls) => jobs_for_card_spec(urls, kind),
            Option::None => Seq::empty(),
        })
    }
}

/// How many of a batch's entries resolved.
pub open spec fn resolved_count(res: Seq<Option<(Option<Seq<u8>>, Option<Seq<u8>>)>>) -> int
    decreases res.len(),
{
    if res.len() == 0 {
        0
    } else {
        resolved_count(res.drop_last()) + (if res.last() is Some {
            1int
        } else {
            0int
        })
    }
}

/// Every resolved entry contributes at least one and at most two jobs;
/// under the grid layout, exactly one.
pub proof fn lemma_planned_jobs_len(
    res: Seq<Option<(Option<Seq<u8>>, Option<Seq<u8>>)>>,
    kind: LayoutKind,
)
    ensures
        0 <= resolved_count(res) <= res.len(),
        resolved_count(res) <= planned_jobs_spec(res, kind).len() <= 2 * resolved_count(res),
        kind == LayoutKind::Grid ==> planned_jobs_spec(res, kind).len() == resolved_count(res),
    decreases res.len(),
{
    if res.len() > 0 {
        lemma_planned_jobs_len(res.drop_last(), kind);
    }
}

/// A resolution failure is isolated: with one of `N` entries failed,
/// the batch still completes and yields strictly fewer images than `N`
/// under the grid layout, and at most `2 * (N - 1)` under
/// single-per-page, instead of aborting.
pub proof fn lemma_failure_isolated(
    res: Seq<Option<(Option<Seq<u8>>, Option<Seq<u8>>)>>,
    kind: LayoutKind,
    i: int,
)
    requires
        0 <= i < res.len(),
        res[i] is None,
    ensures
        resolved_count(res) <= res.len() - 1,
        planned_jobs_spec(res, LayoutKind::Grid).len() < res.len(),
        planned_jobs_spec(res, LayoutKind::SinglePerPage).len() <= 2 * (res.len() - 1),
    decreases res.len(),
{
    lemma_planned_jobs_len(res, LayoutKind::Grid);
    lemma_planned_jobs_len(res, LayoutKind::SinglePerPage);
    if i < res.len() - 1 {
        lemma_failure_isolated(res.drop_last(), kind, i);
        lemma_planned_jobs_len(res.drop_last(), LayoutKind::Grid);
    } else {
        lemma_planned_jobs_len(res.drop_last(), LayoutKind::Grid);
    }
}

/// An empty decklist runs to completion with nothing to do: no jobs,
/// and a document of zero pages.
pub proof fn lemma_empty_batch(kind: LayoutKind)
    ensures
        planned_jobs_spec(Seq::empty(), kind) =~= Seq::<Option<Seq<u8>>>::empty(),
        pages_needed(0, kind) == 0,
{
}

/// Under the single-per-page layout, `n` surviving images fill exactly
/// `n` pages, every image centered at the same position.
pub proof fn lemma_single_per_page_count(cfg: crate::layout::LayoutConfig, n: int)
    requires
        n >= 0,
        cfg.kind == LayoutKind::SinglePerPage,
    ensures
        pages_needed(n, LayoutKind::SinglePerPage) == n,
        forall|k: int|
            #![trigger crate::layout::slot_x(cfg, k)]
            crate::layout::slot_x(cfg, k) == (crate::layout::PAGE_WIDTH_NM
                - crate::layout::CARD_WIDTH_NM) / 2 && crate::layout::slot_y(cfg, k) == (
            crate::layout::PAGE_HEIGHT_NM - crate::layout::CARD_HEIGHT_NM) / 2,
        forall|k: int|
            #![trigger crate::layout::page_index(cfg.kind, k)]
            crate::layout::page_index(cfg.kind, k) == k,
{
}

fn clone_opt_bytes(v: &Option<Vec<u8>>) -> (r: Option<Vec<u8>>)
    ensures
        (match r {
            Option::Some(ref b) => Option::Some(b@),
            Option::None => Option::<Seq<u8>>::None,
        }) == (match v {
            Option::Some(ref b) => Option::Some(b@),
            Option::None => Option::<Seq<u8>>::None,
        }),
{
    match v {
        Option::Some(b) => {
            assert(b@.subrange(0, b@.len() as int) =~= b@);
            Some(copy_range(b, 0, b.len()))
        },
        Option::None => None,
    }
}

/// The fetch jobs one resolved card contributes, as
/// `jobs_for_card_spec` states them.
pub fn jobs_for_card(urls: &CardImageUrls, kind: LayoutKind) -> (r: Vec<FetchJob>)
    ensures
        r@.map_values(|j: FetchJob| j@) == jobs_for_card_spec(urls@, kind),
{
    let mut out: Vec<FetchJob> = Vec::new();
    let front = match clone_opt_bytes(&urls.front) {
        Option::Some(b) => FetchJob::Url(b),
        Option::None => FetchJob::Placeholder,
    };
    out.push(front);
    match kind {
        LayoutKind::Grid => {},
        LayoutKind::SinglePerPage => {
            match clone_opt_bytes(&urls.back) {
                Option::Some(b) => {
                    out.push(FetchJob::Url(b));
                },
                Option::None => {},
            }
        },
    }
    assert(out@.map_values(|j: FetchJob| j@) =~= jobs_for_card_spec(urls@, kind));
    out
}

/// Turns a batch of resolution outcomes into the ordered fetch job
/// list, as `planned_jobs_spec` states it.
pub fn plan_fetches(resolutions: &Vec<Option<CardImageUrls>>, kind: LayoutKind) -> (r: Vec<
    FetchJob,
>)
    ensures
        r@.map_values(|j: FetchJob| j@) == planned_jobs_spec(
            resolutions@.map_values(|o: Option<CardImageUrls>| resolution_view(o)),
            kind,
        ),
{
    let ghost rs: Seq<Option<(Option<Seq<u8>>, Option<Seq<u8>>)>> = resolutions@.map_values(
        |o: Option<CardImageUrls>| resolution_view(o),
    );
    let mut out: Vec<FetchJob> = Vec::new();
    let mut i: usize = 0;
    proof {
        assert(rs.subrange(0, 0) =~= Seq::<Option<(Option<Seq<u8>>, Option<Seq<u8>>)>>::empty());
        assert(out@.map_values(|j: FetchJob| j@) =~= planned_jobs_spec(rs.subrange(0, 0), kind));
    }
    while i < resolutions.len()
        invariant
            i <= resolutions@.len(),
            rs == resolutions@.map_values(|o: Option<CardImageUrls>| resolution_view(o)),
            out@.map_values(|j: FetchJob| j@) == planned_jobs_spec(rs.subrange(0, i as int), kind),
        decreases resolutions@.len() - i,
    {
        proof {
            assert(rs.subrange(0, i + 1 as int).drop_last() =~= rs.subrange(0, i as int));
            assert(rs.subrange(0, i + 1 as int).last() == rs[i as int]);
        }
        match &resolutions[i] {
            Option::Some(urls) => {
                let mut jobs = jobs_for_card(urls, kind);
                let ghost old_out: Seq<FetchJob> = out@;
                let ghost jobs_views: Seq<Option<Seq<u8>>> = jobs@.map_values(|j: FetchJob| j@);
                out.append(&mut jobs);
                proof {
                    assert(out@.map_values(|j: FetchJob| j@) =~= old_out.map_values(
                        |j: FetchJob| j@,
                    ) + jobs_views);
                    assert(out@.map_values(|j: FetchJob| j@) =~= planned_jobs_spec(
                        rs.subrange(0, i + 1 as int),
                        kind,
                    ));
                }
            },
            Option::None => {
                proof {
                    assert(planned_jobs_spec(rs.subrange(0, i + 1 as int), kind)
                        =~= planned_jobs_spec(rs.subrange(0, i as int), kind) + Seq::<
                        Option<Seq<u8>>,
                    >::empty());
                    assert(planned_jobs_spec(rs.subrange(0, i + 1 as int), kind)
                        =~= planned_jobs_spec(rs.subrange(0, i as int), kind));
                }
            },
        }
        i = i + 1;
    }
    proof {
        assert(rs.subrange(0, rs.len() as int) =~= rs);
    }
    out
}

/// The last position scanned backwards through `p[0..n]` where the
/// final path component's extension dot stands; the path's length when
/// a separator comes first or no dot exists.
pub open spec fn stem_end(p: Seq<u8>, n: int) -> int
    decreases n,
{
    if n <= 0 {
        p.len() as int
    } else if p[n - 1] == 46 {
        n - 1
    } else if p[n - 1] == 47 || p[n - 1] == 92 {
        p.len() as int
    } else {
        stem_end(p, n - 1)
    }
}

/// The bytes of the extension `".pdf"`.
pub open spec fn pdf_suffix() -> Seq<u8> {
    seq![46u8, 112u8, 100u8, 102u8]
}

/// Where the document is written: the input path with its final
/// extension replaced by `.pdf`, or with `.pdf` appended when the last
/// component has no extension.
pub open spec fn pdf_path_spec(p: Seq<u8>) -> Seq<u8> {
    p.subrange(0, stem_end(p, p.len() as int)) + pdf_suffix()
}

/// Derives the output document path beside the input decklist.
pub fn pdf_output_path(path: &Vec<u8>) -> (r: Vec<u8>)
    ensures
        r@ == pdf_path_spec(path@),
{
    let mut n: usize = path.len();
    let mut stem: usize = path.len();
    let mut done = false;
    while n > 0 && !done
        invariant
            n <= path@.len(),
            stem <= path@.len(),
            if done {
                stem as int == stem_end(path@, path@.len() as int)
            } else {
                stem == path@.len() && stem_end(path@, path@.len() as int) == stem_end(
                    path@,
                    n as int,
                )
            },
        decreases 2 * n + (if done { 0int } else { 1int }),
    {
        let b = path[n - 1];
        if b == 46 {
            stem = n - 1;
            done = true;
        } else if b == 47 || b == 92 {
            done = true;
        } else {
            n = n - 1;
        }
    }
    let mut out = copy_range(path, 0, stem);
    out.push(46);
    out.push(112);
    out.push(100);
    out.push(102);
    assert(out@ =~= pdf_path_spec(path@));
    out
}

} // verus!
