//! What the combine stage is asked to do, per deliverable.

use super::utils::{clone_headers, clone_option, headers_view, option_view, Language};
use crate::combiner::pdf::location::sum;
use vstd::prelude::*;

verus! {

/// One entry of the outline of an assembled PDF.
#[derive(Debug, Clone)]
pub struct Location {
    pub title: String,
    pub page: usize,
}

/// The mathematical value of an outline [`Location`].
pub struct OutlineEntry {
    pub title: Seq<char>,
    pub page: nat,
}

impl View for Location {
    type V = OutlineEntry;

    open spec fn view(&self) -> OutlineEntry {
        OutlineEntry { title: self.title@, page: self.page as nat }
    }
}

/// What the outline writer is asked to do.
#[derive(Debug, Clone)]
pub struct OutlineParam {
    pub target: String,
    pub locations: Vec<Location>,
}

/// The mathematical value of an [`OutlineParam`].
pub struct OutlineParamView {
    pub target: Seq<char>,
    pub locations: Seq<OutlineEntry>,
}

impl View for OutlineParam {
    type V = OutlineParamView;

    open spec fn view(&self) -> OutlineParamView {
        OutlineParamView {
            target: self.target@,
            locations: self.locations@.map_values(|l: Location| l@),
        }
    }
}

/// One converted source inside a PDF deliverable.
#[derive(Debug)]
pub struct PDFFile {
    /// The zero-based index of the file in its task.
    pub id: usize,
    pub title: String,
    pub filepath: String,
    /// The page number shown to the reader, starting at one.
    pub page_display: usize,
    /// The zero-based absolute page inside the assembled PDF.
    pub page_actual: usize,
}

/// The mathematical value of a [`PDFFile`].
pub struct PDFFileView {
    pub id: nat,
    pub title: Seq<char>,
    pub filepath: Seq<char>,
    pub page_display: nat,
    pub page_actual: nat,
}

impl View for PDFFile {
    type V = PDFFileView;

    open spec fn view(&self) -> PDFFileView {
        PDFFileView {
            id: self.id as nat,
            title: self.title@,
            filepath: self.filepath@,
            page_display: self.page_display as nat,
            page_actual: self.page_actual as nat,
        }
    }
}

/// The views of a sequence of files, entry by entry.
pub open spec fn pdf_file_views(s: Seq<PDFFile>) -> Seq<PDFFileView> {
    s.map_values(|f: PDFFile| f@)
}

/// One PDF deliverable to assemble.
#[derive(Debug)]
pub struct CombinePDFParam {
    pub workspace: String,
    pub language: Language,
    pub cover: Option<String>,
    pub toc: String,
    pub toc_start_pages: usize,
    pub files: Vec<PDFFile>,
    pub destination: String,
    pub toc_headers: (String, String, String, String),
}

/// The mathematical value of a [`CombinePDFParam`].
pub struct CombinePDFParamView {
    pub workspace: Seq<char>,
    pub language: Language,
    pub cover: Option<Seq<char>>,
    pub toc: Seq<char>,
    pub toc_start_pages: nat,
    pub files: Seq<PDFFileView>,
    pub destination: Seq<char>,
    pub toc_headers: (Seq<char>, Seq<char>, Seq<char>, Seq<char>),
}

impl View for CombinePDFParam {
    type V = CombinePDFParamView;

    open spec fn view(&self) -> CombinePDFParamView {
        CombinePDFParamView {
            workspace: self.workspace@,
            language: self.language,
            cover: option_view(self.cover),
            toc: self.toc@,
            toc_start_pages: self.toc_start_pages as nat,
            files: pdf_file_views(self.files@),
            destination: self.destination@,
            toc_headers: headers_view(self.toc_headers),
        }
    }
}

impl Clone for PDFFile {
    fn clone(&self) -> (r: Self)
        ensures
            r == *self,
    {
        PDFFile {
            id: self.id,
            title: self.title.clone(),
            filepath: self.filepath.clone(),
            page_display: self.page_display,
            page_actual: self.page_actual,
        }
    }
}

impl Clone for CombinePDFParam {
    fn clone(&self) -> (r: Self)
        ensures
            r@ == self@,
    {
        let mut files: Vec<PDFFile> = Vec::new();
        let n = self.files.len();
        let mut i: usize = 0;
        while i < n
            invariant
                n == self.files@.len(),
                i <= n,
                files@ == self.files@.take(i as int),
            decreases n - i,
        {
            files.push(self.files[i].clone());
            i = i + 1;
            assert(files@ =~= self.files@.take(i as int));
        }
        assert(self.files@.take(n as int) =~= self.files@);
        CombinePDFParam {
            workspace: self.workspace.clone(),
            language: self.language,
            cover: clone_option(&self.cover),
            toc: self.toc.clone(),
            toc_start_pages: self.toc_start_pages,
            files,
            destination: self.destination.clone(),
            toc_headers: clone_headers(&self.toc_headers),
        }
    }
}

/// One RTF deliverable to assemble.
#[derive(Debug, Clone)]
pub struct RTFCombineParam {
    pub destination: String,
    pub files: Vec<String>,
}

/// The mathematical value of an [`RTFCombineParam`].
pub struct RTFCombineParamView {
    pub destination: Seq<char>,
    pub files: Seq<Seq<char>>,
}

impl View for RTFCombineParam {
    type V = RTFCombineParamView;

    open spec fn view(&self) -> RTFCombineParamView {
        RTFCombineParamView {
            destination: self.destination@,
            files: self.files@.map_values(|f: String| f@),
        }
    }
}

/// Why page numbers could not be assigned.
#[derive(Debug, Clone, Copy, PartialEq, Eq, Structural)]
pub enum PageError {
    /// There is not one page count per file.
    CountMismatch,
    /// The pages do not fit the machine's numbers.
    TooManyPages,
}

/// The title of the table of contents.
pub open spec fn toc_title_of(lang: Language) -> Seq<char> {
    match lang {
        Language::CN => "目录"@,
        Language::EN => "Table of Content"@,
    }
}

/// The title of the cover.
pub open spec fn cover_title_of(lang: Language) -> Seq<char> {
    match lang {
        Language::CN => "封面"@,
        Language::EN => "Cover"@,
    }
}

/// The title of the table of contents in the language of the deliverable.
pub fn toc_title(lang: &Language) -> (r: String)
    ensures
        r@ == toc_title_of(*lang),
{
    match lang {
        Language::CN => String::from_str("目录"),
        Language::EN => String::from_str("Table of Content"),
    }
}

/// The title of the cover in the language of the deliverable.
pub fn cover_title(lang: &Language) -> (r: String)
    ensures
        r@ == cover_title_of(*lang),
{
    match lang {
        Language::CN => String::from_str("封面"),
        Language::EN => String::from_str("Cover"),
    }
}

/// Page counts as numbers without bound.
pub open spec fn counts(pages: Seq<usize>) -> Seq<nat> {
    pages.map_values(|p: usize| p as nat)
}

/// The pages that the cover takes: none where the deliverable has no cover.
pub open spec fn cover_share(p: CombinePDFParamView, cover_pages: nat) -> nat {
    if p.cover is Some {
        cover_pages
    } else {
        0
    }
}

/// File `i` numbered behind a front matter of `front` pages, the files
/// before it having the page counts `pages`.
pub open spec fn numbered(f: PDFFileView, i: int, front: nat, pages: Seq<nat>) -> PDFFileView {
    PDFFileView {
        id: i as nat,
        title: f.title,
        filepath: f.filepath,
        page_display: 1 + sum(pages.take(i)),
        page_actual: front + sum(pages.take(i)),
    }
}

/// The deliverable `p` with its pages assigned: the table of contents
/// starts behind the cover, the first file behind cover and table of
/// contents, each further file behind the one before it.
pub open spec fn with_pages(
    p: CombinePDFParamView,
    cover_pages: nat,
    toc_pages: nat,
    pages: Seq<nat>,
) -> CombinePDFParamView {
    CombinePDFParamView {
        toc_start_pages: cover_share(p, cover_pages),
        files: Seq::new(
            p.files.len(),
            |i: int| numbered(p.files[i], i, cover_share(p, cover_pages) + toc_pages, pages),
        ),
        ..p
    }
}

/// The outline of the deliverable `p`: the cover if there is one, the table
/// of contents, then every file, each at its absolute page.
pub open spec fn outline_of(p: CombinePDFParamView) -> OutlineParamView {
    OutlineParamView {
        target: p.destination,
        locations: (if p.cover is Some {
            seq![OutlineEntry { title: cover_title_of(p.language), page: 0 }]
        } else {
            Seq::<OutlineEntry>::empty()
        }) + seq![OutlineEntry { title: toc_title_of(p.language), page: p.toc_start_pages }]
            + p.files.map_values(
            |f: PDFFileView| OutlineEntry { title: f.title, page: f.page_actual },
        ),
    }
}

/// Adding one more page count adds it to the sum.
pub proof fn lemma_sum_take_next(pages: Seq<nat>, i: int)
    requires
        0 <= i < pages.len(),
    ensures
        sum(pages.take(i + 1)) == sum(pages.take(i)) + pages[i],
{
    assert(pages.take(i + 1).drop_last() =~= pages.take(i));
}

/// With its pages assigned, the first file of a deliverable starts behind
/// cover and table of contents, and each further file where the one before
/// it ends; for the reader the first file starts at page one.
pub proof fn lemma_pages_chain(
    p: CombinePDFParamView,
    cover_pages: nat,
    toc_pages: nat,
    pages: Seq<nat>,
)
    requires
        pages.len() == p.files.len(),
    ensures
        with_pages(p, cover_pages, toc_pages, pages).toc_start_pages == cover_share(p, cover_pages),
        p.files.len() > 0 ==> with_pages(p, cover_pages, toc_pages, pages).files[0].page_actual
            == cover_share(p, cover_pages) + toc_pages && with_pages(
            p,
            cover_pages,
            toc_pages,
            pages,
        ).files[0].page_display == 1,
        forall|i: int|
            0 < i < p.files.len() ==> (#[trigger] with_pages(
                p,
                cover_pages,
                toc_pages,
                pages,
            ).files[i]).page_actual == with_pages(p, cover_pages, toc_pages, pages).files[i
                - 1].page_actual + pages[i - 1] && with_pages(
                p,
                cover_pages,
                toc_pages,
                pages,
            ).files[i].page_display == with_pages(p, cover_pages, toc_pages, pages).files[i
                - 1].page_display + pages[i - 1],
        forall|i: int|
            0 <= i < p.files.len() ==> (#[trigger] with_pages(
                p,
                cover_pages,
                toc_pages,
                pages,
            ).files[i]).id == i,
{
    let q = with_pages(p, cover_pages, toc_pages, pages);
    if p.files.len() > 0 {
        assert(pages.take(0) =~= Seq::<nat>::empty());
    }
    assert forall|i: int| 0 < i < p.files.len() implies (#[trigger] q.files[i]).page_actual
        == q.files[i - 1].page_actual + pages[i - 1] && q.files[i].page_display == q.files[i
        - 1].page_display + pages[i - 1] by {
        lemma_sum_take_next(pages, i - 1);
    }
}

/// `start` and all of `pages` together, if that fits.
pub fn checked_total(start: usize, pages: &Vec<usize>) -> (r: Option<usize>)
    ensures
        match r {
            Some(t) => t == start + sum(counts(pages@)),
            None => start + sum(counts(pages@)) > usize::MAX,
        },
{
    let ghost all = counts(pages@);
    let mut total = start;
    let n = pages.len();
    let mut i: usize = 0;
    while i < n
        invariant
            n == pages@.len(),
            i <= n,
            all == counts(pages@),
            total == start + sum(all.take(i as int)),
        decreases n - i,
    {
        proof {
            lemma_sum_take_next(all, i as int);
            lemma_sum_grows(all, i + 1);
        }
        if pages[i] > usize::MAX - total {
            return None;
        }
        total = total + pages[i];
        i = i + 1;
    }
    assert(all.take(n as int) =~= all);
    Some(total)
}

/// A longer part of the page counts has no smaller sum.
pub proof fn lemma_sum_grows(pages: Seq<nat>, i: int)
    requires
        0 <= i <= pages.len(),
    ensures
        sum(pages.take(i)) <= sum(pages),
    decreases pages.len() - i,
{
    if i == pages.len() {
        assert(pages.take(i) =~= pages);
    } else {
        lemma_sum_take_next(pages, i);
        lemma_sum_grows(pages, i + 1);
    }
}

impl CombinePDFParam {
    /// A deliverable whose pages are not assigned yet.
    pub fn new(
        workspace: &str,
        language: &Language,
        cover: &Option<String>,
        toc: &str,
        files: Vec<PDFFile>,
        destination: &str,
        toc_headers: &(String, String, String, String),
    ) -> (r: CombinePDFParam)
        ensures
            r@ == (CombinePDFParamView {
                workspace: workspace@,
                language: *language,
                cover: option_view(*cover),
                toc: toc@,
                toc_start_pages: 0,
                files: pdf_file_views(files@),
                destination: destination@,
                toc_headers: headers_view(*toc_headers),
            }),
    {
        CombinePDFParam {
            workspace: String::from_str(workspace),
            language: *language,
            cover: clone_option(cover),
            toc: String::from_str(toc),
            toc_start_pages: 0,
            files,
            destination: String::from_str(destination),
            toc_headers: clone_headers(toc_headers),
        }
    }

    /// Assigns ids and pages to the files, given the page counts of the
    /// cover, of the table of contents and of each file. Fails, and changes
    /// nothing, unless there is one count per file and all pages fit.
    pub fn update_pages(&mut self, cover_pages: usize, toc_pages: usize, pages: &Vec<usize>) -> (r:
        Result<(), PageError>)
        ensures
            r is Ok <==> pages@.len() == old(self)@.files.len() && cover_share(
                old(self)@,
                cover_pages as nat,
            ) + toc_pages + 1 + sum(counts(pages@)) <= usize::MAX,
            r is Ok ==> final(self)@ == with_pages(
                old(self)@,
                cover_pages as nat,
                toc_pages as nat,
                counts(pages@),
            ),
            r is Err ==> *final(self) == *old(self),
            r == Err::<(), PageError>(PageError::CountMismatch) <==> pages@.len() != old(
                self,
            )@.files.len(),
    {
        let n = self.files.len();
        if pages.len() != n {
            return Err(PageError::CountMismatch);
        }
        let cover_pages = match &self.cover {
            Some(_) => cover_pages,
            None => 0,
        };
        if toc_pages > usize::MAX - cover_pages || cover_pages + toc_pages == usize::MAX {
            return Err(PageError::TooManyPages);
        }
        let front = cover_pages + toc_pages;
        if checked_total(front + 1, pages).is_none() {
            return Err(PageError::TooManyPages);
        }
        let ghost all = counts(pages@);
        self.toc_start_pages = cover_pages;
        let mut page_display: usize = 1;
        let mut page_actual: usize = front;
        let mut index: usize = 0;
        while index < n
            invariant
                n == self.files@.len(),
                n == pages@.len(),
                n == old(self).files@.len(),
                index <= n,
                all == counts(pages@),
                front + 1 + sum(all) <= usize::MAX,
                page_display == 1 + sum(all.take(index as int)),
                page_actual == front + sum(all.take(index as int)),
                forall|k: int|
                    0 <= k < index ==> (#[trigger] self.files@[k])@ == numbered(
                        old(self).files@[k]@,
                        k,
                        front as nat,
                        all,
                    ),
                forall|k: int| index <= k < n ==> #[trigger] self.files@[k] == old(self).files@[k],
                self.workspace == old(self).workspace,
                self.language == old(self).language,
                self.cover == old(self).cover,
                self.toc == old(self).toc,
                self.toc_start_pages == cover_pages,
                self.destination == old(self).destination,
                self.toc_headers == old(self).toc_headers,
            decreases n - index,
        {
            proof {
                lemma_sum_take_next(all, index as int);
                lemma_sum_grows(all, index + 1);
            }
            let page = pages[index];
            let file = &mut self.files[index];
            file.id = index;
            file.page_display = page_display;
            file.page_actual = page_actual;
            page_display = page_display + page;
            page_actual = page_actual + page;
            index = index + 1;
        }
        proof {
            assert(self@.files =~= with_pages(
                old(self)@,
                cover_pages as nat,
                toc_pages as nat,
                all,
            ).files);
        }
        Ok(())
    }

    /// What the outline writer is asked to do for this deliverable.
    pub fn to_outline_param(&self) -> (r: OutlineParam)
        ensures
            r@ == outline_of(self@),
    {
        let mut locations: Vec<Location> = Vec::new();
        if self.cover.is_some() {
            locations.push(Location { title: cover_title(&self.language), page: 0 });
        }
        locations.push(Location { title: toc_title(&self.language), page: self.toc_start_pages });
        let ghost front = locations@.map_values(|l: Location| l@);
        let ghost head = (if self@.cover is Some {
            seq![OutlineEntry { title: cover_title_of(self.language), page: 0 }]
        } else {
            Seq::<OutlineEntry>::empty()
        }) + seq![
            OutlineEntry { title: toc_title_of(self.language), page: self.toc_start_pages as nat },
        ];
        assert(front =~= head);
        let m = locations.len();
        let n = self.files.len();
        let mut i: usize = 0;
        while i < n
            invariant
                n == self.files@.len(),
                i <= n,
                m == front.len(),
                locations@.len() == m + i,
                forall|k: int| 0 <= k < m ==> (#[trigger] locations@[k])@ == front[k],
                forall|k: int|
                    0 <= k < i ==> (#[trigger] locations@[m + k])@ == (OutlineEntry {
                        title: self.files@[k].title@,
                        page: self.files@[k].page_actual as nat,
                    }),
            decreases n - i,
        {
            let f = &self.files[i];
            locations.push(Location { title: f.title.clone(), page: f.page_actual });
            i = i + 1;
        }
        let r = OutlineParam { target: self.destination.clone(), locations };
        proof {
            let want = outline_of(self@).locations;
            assert(want.len() == m + n);
            assert forall|j: int| 0 <= j < m + n implies r@.locations[j] == want[j] by {
                if j < m {
                    assert(r.locations@[j]@ == front[j]);
                } else {
                    assert(r.locations@[m + (j - m)]@ == (OutlineEntry {
                        title: self.files@[j - m].title@,
                        page: self.files@[j - m].page_actual as nat,
                    }));
                }
            }
            assert(r@.locations =~= want);
        }
        r
    }
}

} // verus!
