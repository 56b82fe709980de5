//! Text extraction from uploaded documents: the shared result types, the
//! per-format extractors, and the registry that picks an extractor for a
//! MIME type.

pub mod docx_extractor;
pub mod docx_parts;
pub mod html_extractor;
pub mod ooxml_media;
pub mod pdf_extractor;
pub mod pptx_extractor;
pub mod registry;
pub mod text_extractor;
pub mod youtube_extractor;

use vstd::prelude::*;

verus! {

/// Why a document could not be turned into text.
#[derive(Debug)]
pub enum DocumentExtractionError {
    /// No extractor handles this MIME type (the type is carried).
    UnsupportedFormat(String),
    /// The document was recognised but reading it failed.
    ExtractionFailed(String),
    /// The bytes are not a well-formed container of the expected kind.
    CorruptedFile(String),
}

/// Knobs for an extraction run.
#[derive(Debug, Clone, Copy)]
pub struct ExtractionOptions {
    /// Collect document metadata (title, author, ...) where the format has it.
    pub extract_metadata: bool,
    /// Only the first `max_pages` pages are read, when set.
    pub max_pages: Option<u32>,
}

impl Default for ExtractionOptions {
    fn default() -> (o: Self)
        ensures
            o.extract_metadata == false,
            o.max_pages is None,
    {
        ExtractionOptions { extract_metadata: false, max_pages: None }
    }
}

/// A binary asset found inside a document (an embedded image), not yet
/// stored anywhere.
#[derive(Debug, Clone)]
pub struct PendingAsset {
    pub content_type: String,
    pub bytes: Vec<u8>,
    pub page_number: Option<u32>,
    pub label: Option<String>,
}

/// Mathematical view of a [`PendingAsset`].
pub struct AssetView {
    pub content_type: Seq<char>,
    pub bytes: Seq<u8>,
    pub page_number: Option<u32>,
    pub label: Option<Seq<char>>,
}

pub open spec fn opt_view(o: Option<String>) -> Option<Seq<char>> {
    match o {
        Some(s) => Some(s@),
        None => None,
    }
}

impl View for PendingAsset {
    type V = AssetView;

    open spec fn view(&self) -> AssetView {
        AssetView {
            content_type: self.content_type@,
            bytes: self.bytes@,
            page_number: self.page_number,
            label: opt_view(self.label),
        }
    }
}

pub open spec fn asset_views(v: Seq<PendingAsset>) -> Seq<AssetView> {
    v.map_values(|a: PendingAsset| a@)
}

/// A copy of an asset.
pub fn copy_asset(a: &PendingAsset) -> (r: PendingAsset)
    ensures
        r@ == a@,
{
    let label = match &a.label {
        Some(l) => Some(l.clone()),
        None => None,
    };
    PendingAsset {
        content_type: a.content_type.clone(),
        bytes: a.bytes.clone(),
        page_number: a.page_number,
        label,
    }
}

/// The text of one page (or slide) and the assets found on it.
#[derive(Debug, Clone)]
pub struct PageContent {
    pub page_number: u32,
    pub text: String,
    pub pending_assets: Vec<PendingAsset>,
}

/// Mathematical view of a [`PageContent`].
pub struct PageView {
    pub page_number: u32,
    pub text: Seq<char>,
    pub assets: Seq<AssetView>,
}

impl View for PageContent {
    type V = PageView;

    open spec fn view(&self) -> PageView {
        PageView {
            page_number: self.page_number,
            text: self.text@,
            assets: asset_views(self.pending_assets@),
        }
    }
}

pub open spec fn page_views(v: Seq<PageContent>) -> Seq<PageView> {
    v.map_values(|p: PageContent| p@)
}

/// The outcome of extracting a document: its whole text, its pages, and
/// assets that belong to no particular page.
#[derive(Debug, Clone)]
pub struct ExtractedDocument {
    pub full_text: String,
    pub pages: Vec<PageContent>,
    pub pending_assets: Vec<PendingAsset>,
}

/// Mathematical view of an [`ExtractedDocument`].
pub struct DocView {
    pub full_text: Seq<char>,
    pub pages: Seq<PageView>,
    pub assets: Seq<AssetView>,
}

impl View for ExtractedDocument {
    type V = DocView;

    open spec fn view(&self) -> DocView {
        DocView {
            full_text: self.full_text@,
            pages: page_views(self.pages@),
            assets: asset_views(self.pending_assets@),
        }
    }
}

/// An asset as it is reported together with the page that holds it: the
/// page's number is filled in when the asset carries none.
pub open spec fn with_page(a: AssetView, page: u32) -> AssetView {
    AssetView {
        page_number: if a.page_number is Some { a.page_number } else { Some(page) },
        ..a
    }
}

/// All assets of a document: each page's assets in page order (tagged with
/// their page), then the document-level ones.
pub open spec fn all_assets(pages: Seq<PageView>, doc_level: Seq<AssetView>) -> Seq<AssetView>
    decreases pages.len(),
{
    if pages.len() == 0 {
        doc_level
    } else {
        pages[0].assets.map_values(|a: AssetView| with_page(a, pages[0].page_number)) + all_assets(
            pages.drop_first(),
            doc_level,
        )
    }
}

impl ExtractedDocument {
    /// Every asset of the document: each page's assets in page order, those
    /// without a page number given their page's number, then the
    /// document-level assets.
    pub fn into_all_pending_assets(self) -> (r: Vec<PendingAsset>)
        ensures
            asset_views(r@) == all_assets(self@.pages, self@.assets),
    {
        let ghost pv = self@.pages;
        let ghost dl = self@.assets;
        let mut out: Vec<PendingAsset> = Vec::new();
        let mut k: usize = 0;
        proof {
            assert(pv.skip(0) =~= pv);
            assert(asset_views(out@) + all_assets(pv.skip(0), dl) =~= all_assets(pv, dl));
        }
        while k < self.pages.len()
            invariant
                k <= self.pages@.len(),
                pv == page_views(self.pages@),
                dl == asset_views(self.pending_assets@),
                all_assets(pv, dl) == asset_views(out@) + all_assets(pv.skip(k as int), dl),
            decreases self.pages@.len() - k,
        {
            let page = &self.pages[k];
            let ghost before = asset_views(out@);
            let ghost pa = pv[k as int].assets.map_values(|a: AssetView| with_page(a, pv[k as int].page_number));
            proof {
                assert(pv.skip(k as int).drop_first() =~= pv.skip(k + 1));
                assert(pv.skip(k as int)[0] == pv[k as int]);
                assert(pv[k as int] == page@);
            }
            let mut j: usize = 0;
            while j < page.pending_assets.len()
                invariant
                    j <= page.pending_assets@.len(),
                    *page == self.pages@[k as int],
                    pv[k as int] == page@,
                    pa == pv[k as int].assets.map_values(|a: AssetView| with_page(a, pv[k as int].page_number)),
                    asset_views(out@) == before + pa.take(j as int),
                decreases page.pending_assets@.len() - j,
            {
                let mut a = copy_asset(&page.pending_assets[j]);
                if a.page_number.is_none() {
                    a.page_number = Some(page.page_number);
                }
                let ghost b2 = out@;
                out.push(a);
                proof {
                    assert(asset_views(out@) =~= asset_views(b2).push(a@));
                    assert(a@ == with_page(page.pending_assets@[j as int]@, page.page_number));
                    assert(pa.take(j + 1) =~= pa.take(j as int).push(pa[j as int]));
                }
                j = j + 1;
            }
            proof {
                assert(pa.take(pa.len() as int) =~= pa);
                assert(asset_views(out@) + all_assets(pv.skip(k + 1), dl) =~= before + (pa + all_assets(
                    pv.skip(k + 1),
                    dl,
                )));
            }
            k = k + 1;
        }
        let mut j: usize = 0;
        let ghost before = asset_views(out@);
        proof {
            assert(pv.skip(k as int) =~= Seq::<PageView>::empty());
        }
        while j < self.pending_assets.len()
            invariant
                j <= self.pending_assets@.len(),
                dl == asset_views(self.pending_assets@),
                asset_views(out@) == before + dl.take(j as int),
            decreases self.pending_assets@.len() - j,
        {
            let a = copy_asset(&self.pending_assets[j]);
            let ghost b2 = out@;
            out.push(a);
            proof {
                assert(asset_views(out@) =~= asset_views(b2).push(a@));
                assert(dl.take(j + 1) =~= dl.take(j as int).push(dl[j as int]));
            }
            j = j + 1;
        }
        proof {
            assert(dl.take(dl.len() as int) =~= dl);
        }
        out
    }

    /// A document that is only text: no pages, no assets.
    pub fn text_only(text: String) -> (d: Self)
        ensures
            d@.full_text == text@,
            d@.pages.len() == 0,
            d@.assets.len() == 0,
    {
        let d = ExtractedDocument { full_text: text, pages: Vec::new(), pending_assets: Vec::new() };
        proof {
            assert(d@.pages =~= Seq::<PageView>::empty());
            assert(d@.assets =~= Seq::<AssetView>::empty());
        }
        d
    }
}

} // verus!
