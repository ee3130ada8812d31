//! One PDF deliverable from start to end: its locations, its table of
//! contents, its assembly and the links of its table of contents.

use super::location::{
    location_views, page_of, shifted, sum, Location, LocationManager, LocationView,
};
use super::object::{key_dest, name_annot, name_of, name_xyz, Dictionary, Object, ObjectId};
use super::toc::render::{RenderData, RenderDataView, ValidSize};
use crate::config::combine::{
    checked_total, counts, cover_title, cover_title_of, lemma_sum_grows, lemma_sum_take_next,
    toc_title, toc_title_of, CombinePDFParam, CombinePDFParamView, PageError,
};
use crate::config::utils::{clone_headers, Language};
use crate::text::{decimal, join_path, parse_usize, parsed_number, path_join, to_decimal};
use vstd::prelude::*;

verus! {

/// What the assembling program is asked to do.
#[derive(Debug)]
pub struct CombineConfig {
    pub destination: String,
    pub language: Language,
    pub total: usize,
    pub files: Vec<Location>,
}

/// The mathematical value of a [`CombineConfig`].
pub struct CombineConfigView {
    pub destination: Seq<char>,
    pub language: Language,
    pub total: nat,
    pub files: Seq<LocationView>,
}

impl View for CombineConfig {
    type V = CombineConfigView;

    open spec fn view(&self) -> CombineConfigView {
        CombineConfigView {
            destination: self.destination@,
            language: self.language,
            total: self.total as nat,
            files: location_views(self.files@),
        }
    }
}

/// How far a unit has come.
#[derive(Debug, Clone, Copy, PartialEq, Eq, Structural)]
pub enum UnitStage {
    /// Before the locations are built. A unit is created with them.
    Init,
    LocationsBuilt,
    TocRendered,
    PdfAssembled,
    /// Passed through on the way to `Done`.
    LinksRewritten,
    Done,
    Failed,
}

/// What happened outside the unit.
#[derive(Debug)]
pub enum UnitEvent {
    /// The unit is to begin.
    Start,
    /// The table of contents was rendered. `toc_pages` is its page count,
    /// if its file is there; `cover_pages` that of the cover, if it is there.
    TocRendered { toc_pages: Option<usize>, cover_pages: Option<usize> },
    /// The assembling program ended well.
    Assembled,
    /// The links were rewritten and the deliverable was saved.
    LinksRewritten,
    /// The work asked for last has failed, for this reason.
    Failed(String),
}

/// What is to happen outside the unit next.
#[derive(Debug)]
pub enum UnitAction {
    /// Render the table of contents from these variables.
    RenderToc(RenderData),
    /// Write this configuration and run the assembling program on it.
    Assemble(CombineConfig),
    /// Rewrite the links of the deliverable and save it.
    RewriteLinks,
    /// Report success: send the one completion pulse.
    Finish,
    /// Report the failure with this reason; no pulse.
    Abort(String),
    /// The event was not expected at this stage and changes nothing.
    Nothing,
}

/// What becomes of a link of the table of contents.
#[derive(Debug, Clone, Copy, PartialEq, Eq, Structural)]
pub enum LinkTarget {
    /// It gets this absolute page as its destination.
    Page(i64),
    /// It is no link of the table of contents, or no location has its id.
    Keep,
    /// Its destination is a name that is no id.
    Malformed,
}

/// The locations of the files alone: file `i` starts where the files before
/// it end.
pub open spec fn file_locations(p: CombinePDFParamView, pages: Seq<nat>) -> Seq<LocationView> {
    Seq::new(
        p.files.len(),
        |i: int|
            LocationView {
                id: Some(p.files[i].id as usize),
                title: p.files[i].title,
                page: sum(pages.take(i)),
                path: p.files[i].filepath,
            },
    )
}

/// The locations with an entry of `pages` pages put in front.
pub open spec fn with_head(
    locations: Seq<LocationView>,
    title: Seq<char>,
    pages: nat,
    path: Seq<char>,
) -> Seq<LocationView> {
    seq![LocationView { id: None, title, page: 0, path }] + locations.map_values(
        |l: LocationView| shifted(l, pages),
    )
}

/// The locations with the table of contents put in front, if it is there.
pub open spec fn with_toc(
    locations: Seq<LocationView>,
    p: CombinePDFParamView,
    toc_pages: Option<usize>,
) -> Seq<LocationView> {
    match toc_pages {
        Some(pages) => with_head(locations, toc_title_of(p.language), pages as nat, p.toc),
        None => locations,
    }
}

/// The pages that the cover adds: those counted, where the deliverable has
/// a cover and it is there.
pub open spec fn cover_part(p: CombinePDFParamView, cover_pages: Option<usize>) -> Option<nat> {
    match (p.cover, cover_pages) {
        (Some(_), Some(pages)) => Some(pages as nat),
        _ => None,
    }
}

/// The locations with the front matter: first the table of contents is put
/// in front, then the cover, so that the cover comes first.
pub open spec fn with_front_matter(
    locations: Seq<LocationView>,
    p: CombinePDFParamView,
    toc_pages: Option<usize>,
    cover_pages: Option<usize>,
) -> Seq<LocationView> {
    match cover_part(p, cover_pages) {
        Some(pages) => with_head(
            with_toc(locations, p, toc_pages),
            cover_title_of(p.language),
            pages,
            p.cover->0,
        ),
        None => with_toc(locations, p, toc_pages),
    }
}

/// The pages that the front matter adds.
pub open spec fn front_pages(
    p: CombinePDFParamView,
    toc_pages: Option<usize>,
    cover_pages: Option<usize>,
) -> nat {
    (match toc_pages {
        Some(pages) => pages as nat,
        None => 0,
    }) + (match cover_part(p, cover_pages) {
        Some(pages) => pages,
        None => 0,
    })
}

/// Why a unit whose pages do not fit gives up.
pub open spec fn overflow_reason() -> Seq<char> {
    "the pages of the deliverable do not fit"@
}

/// The paper of the table of contents in the language of the deliverable.
pub open spec fn size_of(language: Language) -> ValidSize {
    match language {
        Language::CN => ValidSize::A4,
        Language::EN => ValidSize::LETTER,
    }
}

/// What becomes of the dictionary `dict` as a link: an annotation whose
/// destination is a name that reads as the id of a location gets the page
/// of that location.
pub open spec fn link_target(locations: Seq<LocationView>, dict: Dictionary) -> LinkTarget {
    if dict.declared_type() != Some(name_annot()) {
        LinkTarget::Keep
    } else {
        match name_of(dict.value(key_dest())) {
            None => LinkTarget::Keep,
            Some(name) => match parsed_number(name) {
                Some(id) => if id <= usize::MAX {
                    match page_of(locations, id as usize) {
                        Some(page) => LinkTarget::Page(page as i64),
                        None => LinkTarget::Keep,
                    }
                } else {
                    LinkTarget::Malformed
                },
                None => LinkTarget::Malformed,
            },
        }
    }
}

/// `value` is the destination of a link to `page`: the array of the page,
/// the name `XYZ`, three nulls, and a dictionary that gives `XYZ` an array
/// of three nulls.
pub open spec fn is_destination(value: Object, page: i64) -> bool {
    &&& value matches Object::Array(a)
    &&& a@.len() == 6
    &&& a@[0] == Object::Integer(page)
    &&& a@[1] matches Object::Name(n)
    &&& n@ == name_xyz()
    &&& a@[2] == Object::Null
    &&& a@[3] == Object::Null
    &&& a@[4] == Object::Null
    &&& a@[5] matches Object::Dictionary(d)
    &&& d.entries@.len() == 1
    &&& d.entries@[0].0@ == name_xyz()
    &&& d.entries@[0].1 matches Object::Array(nulls)
    &&& nulls@ == seq![Object::Null, Object::Null, Object::Null]
}

/// The destination of a link to `page`.
pub fn destination(page: i64) -> (r: Object)
    ensures
        is_destination(r, page),
{
    let xyz = vec![88u8, 89u8, 90u8];
    let xyz_key = vec![88u8, 89u8, 90u8];
    assert(xyz@ =~= name_xyz());
    assert(xyz_key@ =~= name_xyz());
    let nulls = vec![Object::Null, Object::Null, Object::Null];
    assert(nulls@ =~= seq![Object::Null, Object::Null, Object::Null]);
    let detail = Dictionary { entries: vec![(xyz_key, Object::Array(nulls))] };
    Object::Array(
        vec![
            Object::Integer(page),
            Object::Name(xyz),
            Object::Null,
            Object::Null,
            Object::Null,
            Object::Dictionary(detail),
        ],
    )
}

/// `after` is `before` with the destination replaced by one to `page`.
pub open spec fn dest_replaced(before: Dictionary, after: Dictionary, page: i64) -> bool {
    &&& after.value(key_dest()) matches Some(v)
    &&& is_destination(v, page)
    &&& forall|k: Seq<u8>| k != key_dest() ==> #[trigger] after.value(k) == before.value(k)
}

/// `after` is the object `before` with its link rewritten, if it is a link
/// of the table of contents to a known location, and `before` itself if not.
pub open spec fn relinked(
    locations: Seq<LocationView>,
    before: (ObjectId, Object),
    after: (ObjectId, Object),
) -> bool {
    &&& after.0 == before.0
    &&& match before.1 {
        Object::Dictionary(d) => match link_target(locations, d) {
            LinkTarget::Page(page) => after.1 matches Object::Dictionary(nd) && dest_replaced(
                d,
                nd,
                page,
            ),
            _ => after.1 == before.1,
        },
        _ => after.1 == before.1,
    }
}

/// The object is a link of the table of contents whose destination is no id.
pub open spec fn is_malformed_link(locations: Seq<LocationView>, entry: (ObjectId, Object)) -> bool {
    entry.1 matches Object::Dictionary(d) && link_target(locations, d) == LinkTarget::Malformed
}

/// The ids of the links whose destination is no id, in order.
pub open spec fn malformed_links(
    locations: Seq<LocationView>,
    objects: Seq<(ObjectId, Object)>,
) -> Seq<ObjectId>
    decreases objects.len(),
{
    if objects.len() == 0 {
        Seq::<ObjectId>::empty()
    } else if is_malformed_link(locations, objects.last()) {
        malformed_links(locations, objects.drop_last()).push(objects.last().0)
    } else {
        malformed_links(locations, objects.drop_last())
    }
}

/// The line logged for a link that was left as it is because its
/// destination is no id; the link is the object with the id `id` of the
/// deliverable named `name`.
pub open spec fn skipped_link_line(name: Seq<char>, id: ObjectId) -> Seq<char> {
    "[ERROR] "@ + name + " pdf combine skipped the link of object "@ + decimal(id.0 as nat) + " "@
        + decimal(id.1 as nat) + ", because: its destination is no id\n"@
}

/// The line to log for a link whose destination is no id.
pub fn skipped_link(name: &str, id: ObjectId) -> (r: String)
    ensures
        r@ == skipped_link_line(name@, id),
{
    let mut line = String::from_str("[ERROR] ");
    line.append(name);
    line.append(" pdf combine skipped the link of object ");
    line.append(to_decimal(id.0 as usize).as_str());
    line.append(" ");
    line.append(to_decimal(id.1 as usize).as_str());
    line.append(", because: its destination is no id\n");
    line
}

/// One PDF deliverable on its way.
#[derive(Debug)]
pub struct PDFCombiner {
    combine_bin: String,
    param: CombinePDFParam,
    location: LocationManager,
    total_pages: usize,
    stage: UnitStage,
}

impl PDFCombiner {
    /// The locations, in order.
    pub closed spec fn locations(&self) -> Seq<LocationView> {
        self.location@
    }

    /// The pages of all locations together.
    pub closed spec fn table_total(&self) -> nat {
        self.location.total()
    }

    /// The pages of the files together, without front matter.
    pub closed spec fn total(&self) -> nat {
        self.total_pages as nat
    }

    /// What the unit was asked to do.
    pub closed spec fn param(&self) -> CombinePDFParamView {
        self.param@
    }

    /// How far the unit has come.
    pub closed spec fn stage(&self) -> UnitStage {
        self.stage
    }

    /// The assembling program.
    pub closed spec fn binary(&self) -> Seq<char> {
        self.combine_bin@
    }

    /// The table of locations is well formed.
    pub closed spec fn wf(&self) -> bool {
        self.location.wf()
    }

    /// A unit for `param` with its locations built from the page counts of
    /// the files. Fails unless there is one count per file and the pages fit.
    pub fn new(param: &CombinePDFParam, combine_bin: &str, pages: &Vec<usize>) -> (r: Result<
        Self,
        PageError,
    >)
        ensures
            r is Ok <==> pages@.len() == param@.files.len() && sum(counts(pages@)) <= usize::MAX,
            r matches Err(e) ==> (e == PageError::CountMismatch <==> pages@.len()
                != param@.files.len()),
            r matches Ok(c) ==> {
                &&& c.wf()
                &&& c.stage() == UnitStage::LocationsBuilt
                &&& c.param() == param@
                &&& c.binary() == combine_bin@
                &&& c.locations() == file_locations(param@, counts(pages@))
                &&& c.total() == sum(counts(pages@))
                &&& c.table_total() == sum(counts(pages@))
            },
    {
        let n = param.files.len();
        if pages.len() != n {
            return Err(PageError::CountMismatch);
        }
        if checked_total(0, pages).is_none() {
            return Err(PageError::TooManyPages);
        }
        let ghost all = counts(pages@);
        let mut total_pages: usize = 0;
        let mut location = LocationManager::new();
        let mut i: usize = 0;
        while i < n
            invariant
                n == param.files@.len(),
                n == pages@.len(),
                i <= n,
                all == counts(pages@),
                sum(all) <= usize::MAX,
                location.wf(),
                location.total() == sum(all.take(i as int)),
                total_pages == sum(all.take(i as int)),
                location@.len() == i,
                forall|k: int| 0 <= k < i ==> #[trigger] location@[k] == file_locations(param@, all)[k],
            decreases n - i,
        {
            let file = &param.files[i];
            proof {
                lemma_sum_take_next(all, i as int);
                lemma_sum_grows(all, i + 1);
                assert(param@.files[i as int] == file@);
            }
            location.push(Some(file.id), file.title.as_str(), pages[i], file.filepath.as_str());
            total_pages = total_pages + pages[i];
            i = i + 1;
        }
        proof {
            assert(all.take(n as int) =~= all);
            assert(location@ =~= file_locations(param@, all));
        }
        Ok(
            PDFCombiner {
                combine_bin: String::from_str(combine_bin),
                param: param.clone(),
                location,
                total_pages,
                stage: UnitStage::LocationsBuilt,
            },
        )
    }

    /// The variables of the table of contents: its title and paper by the
    /// language, the headers of the deliverable and the locations so far.
    pub fn create_toc(&self) -> (r: RenderData)
        ensures
            r@ == (RenderDataView {
                items: self.locations(),
                content: toc_title_of(self.param().language),
                size: size_of(self.param().language),
                toc_headers: self.param().toc_headers,
            }),
    {
        RenderData {
            items: self.location.data(),
            content: toc_title(&self.param.language),
            size: match self.param.language {
                Language::CN => ValidSize::A4,
                Language::EN => ValidSize::LETTER,
            },
            toc_headers: clone_headers(&self.param.toc_headers),
        }
    }

    /// Puts the table of contents and then the cover in front of the
    /// locations, each where it is there, and returns what the assembling
    /// program is asked to do. Fails, and changes nothing, if the pages do
    /// not fit.
    pub fn combine_pdf(&mut self, toc_pages: Option<usize>, cover_pages: Option<usize>) -> (r:
        Result<CombineConfig, PageError>)
        requires
            old(self).wf(),
        ensures
            final(self).wf(),
            final(self).param() == old(self).param(),
            final(self).total() == old(self).total(),
            final(self).stage() == old(self).stage(),
            final(self).binary() == old(self).binary(),
            r is Ok <==> old(self).table_total() + front_pages(
                old(self).param(),
                toc_pages,
                cover_pages,
            ) <= usize::MAX,
            r matches Err(e) ==> e == PageError::TooManyPages && final(self).locations() == old(
                self,
            ).locations() && final(self).table_total() == old(self).table_total(),
            r matches Ok(config) ==> {
                &&& final(self).locations() == with_front_matter(
                    old(self).locations(),
                    old(self).param(),
                    toc_pages,
                    cover_pages,
                )
                &&& final(self).table_total() == old(self).table_total() + front_pages(
                    old(self).param(),
                    toc_pages,
                    cover_pages,
                )
                &&& config@ == (CombineConfigView {
                    destination: old(self).param().destination,
                    language: old(self).param().language,
                    total: old(self).total(),
                    files: final(self).locations(),
                })
            },
    {
        let toc: usize = match toc_pages {
            Some(pages) => pages,
            None => 0,
        };
        let cover: usize = match (&self.param.cover, cover_pages) {
            (Some(_), Some(pages)) => pages,
            _ => 0,
        };
        let total = self.location.total_pages();
        if toc > usize::MAX - total || cover > usize::MAX - total - toc {
            return Err(PageError::TooManyPages);
        }
        match toc_pages {
            Some(pages) => {
                let title = toc_title(&self.param.language);
                self.location.insert_head(None, title.as_str(), pages, self.param.toc.as_str());
            },
            None => {},
        }
        match &self.param.cover {
            Some(path) => {
                match cover_pages {
                    Some(pages) => {
                        let title = cover_title(&self.param.language);
                        self.location.insert_head(None, title.as_str(), pages, path.as_str());
                    },
                    None => {},
                }
            },
            None => {},
        }
        Ok(
            CombineConfig {
                destination: self.param.destination.clone(),
                language: self.param.language,
                total: self.total_pages,
                files: self.location.data(),
            },
        )
    }

    /// Takes the unit one step on: given what happened outside, says what
    /// is to happen next. The steps run in order — render the table of
    /// contents, assemble, rewrite the links — and `Finish` comes once, when
    /// the last of them is done. A failure at any step ends the unit with
    /// `Abort`; an event that the stage does not await changes nothing.
    pub fn combine(&mut self, event: UnitEvent) -> (action: UnitAction)
        requires
            old(self).wf(),
        ensures
            final(self).wf(),
            final(self).param() == old(self).param(),
            final(self).total() == old(self).total(),
            final(self).binary() == old(self).binary(),
            match (old(self).stage(), event) {
                (UnitStage::LocationsBuilt, UnitEvent::Start) => {
                    &&& final(self).stage() == UnitStage::LocationsBuilt
                    &&& final(self).locations() == old(self).locations()
                    &&& action matches UnitAction::RenderToc(data)
                    &&& data@ == (RenderDataView {
                        items: old(self).locations(),
                        content: toc_title_of(old(self).param().language),
                        size: size_of(old(self).param().language),
                        toc_headers: old(self).param().toc_headers,
                    })
                },
                (UnitStage::LocationsBuilt, UnitEvent::TocRendered { toc_pages, cover_pages }) => {
                    if old(self).table_total() + front_pages(
                        old(self).param(),
                        toc_pages,
                        cover_pages,
                    ) <= usize::MAX {
                        &&& final(self).stage() == UnitStage::TocRendered
                        &&& final(self).locations() == with_front_matter(
                            old(self).locations(),
                            old(self).param(),
                            toc_pages,
                            cover_pages,
                        )
                        &&& action matches UnitAction::Assemble(config)
                        &&& config@ == (CombineConfigView {
                            destination: old(self).param().destination,
                            language: old(self).param().language,
                            total: old(self).total(),
                            files: final(self).locations(),
                        })
                    } else {
                        &&& final(self).stage() == UnitStage::Failed
                        &&& final(self).locations() == old(self).locations()
                        &&& action matches UnitAction::Abort(why)
                        &&& why@ == overflow_reason()
                    }
                },
                (UnitStage::TocRendered, UnitEvent::Assembled) => {
                    &&& final(self).stage() == UnitStage::PdfAssembled
                    &&& final(self).locations() == old(self).locations()
                    &&& action is RewriteLinks
                },
                (UnitStage::PdfAssembled, UnitEvent::LinksRewritten) => {
                    &&& final(self).stage() == UnitStage::Done
                    &&& final(self).locations() == old(self).locations()
                    &&& action is Finish
                },
                (stage, UnitEvent::Failed(reason)) => {
                    &&& final(self).locations() == old(self).locations()
                    &&& if stage == UnitStage::Done || stage == UnitStage::Failed {
                        final(self).stage() == stage && action is Nothing
                    } else {
                        &&& final(self).stage() == UnitStage::Failed
                        &&& action matches UnitAction::Abort(why)
                        &&& why@ == reason@
                    }
                },
                (stage, _) => {
                    &&& final(self).stage() == stage
                    &&& final(self).locations() == old(self).locations()
                    &&& action is Nothing
                },
            },
    {
        match event {
            UnitEvent::Start => {
                match self.stage {
                    UnitStage::LocationsBuilt => UnitAction::RenderToc(self.create_toc()),
                    _ => UnitAction::Nothing,
                }
            },
            UnitEvent::TocRendered { toc_pages, cover_pages } => {
                match self.stage {
                    UnitStage::LocationsBuilt => {
                        match self.combine_pdf(toc_pages, cover_pages) {
                            Ok(config) => {
                                self.stage = UnitStage::TocRendered;
                                UnitAction::Assemble(config)
                            },
                            Err(_) => {
                                self.stage = UnitStage::Failed;
                                UnitAction::Abort(
                                    String::from_str("the pages of the deliverable do not fit"),
                                )
                            },
                        }
                    },
                    _ => UnitAction::Nothing,
                }
            },
            UnitEvent::Assembled => {
                match self.stage {
                    UnitStage::TocRendered => {
                        self.stage = UnitStage::PdfAssembled;
                        UnitAction::RewriteLinks
                    },
                    _ => UnitAction::Nothing,
                }
            },
            UnitEvent::LinksRewritten => {
                match self.stage {
                    UnitStage::PdfAssembled => {
                        self.stage = UnitStage::Done;
                        UnitAction::Finish
                    },
                    _ => UnitAction::Nothing,
                }
            },
            UnitEvent::Failed(reason) => {
                match self.stage {
                    UnitStage::Done | UnitStage::Failed => UnitAction::Nothing,
                    _ => {
                        self.stage = UnitStage::Failed;
                        UnitAction::Abort(reason)
                    },
                }
            },
        }
    }

    /// The file in the workspace of the unit to which what the assembling
    /// program is asked to do is written.
    pub fn config_path(&self) -> (r: String)
        ensures
            r@ == path_join(self.param().workspace, "config.json"@),
    {
        join_path(self.param.workspace.as_str(), "config.json")
    }

    /// The assembling program.
    pub fn combine_bin(&self) -> (r: &String)
        ensures
            r@ == self.binary(),
    {
        &self.combine_bin
    }

    /// How far the unit has come.
    pub fn current_stage(&self) -> (r: UnitStage)
        ensures
            r == self.stage(),
    {
        self.stage
    }

    /// The page of the location with the id `id`.
    pub fn link_page(&self, id: usize) -> (r: Option<usize>)
        ensures
            match r {
                Some(page) => page_of(self.locations(), id) == Some(page as nat),
                None => page_of(self.locations(), id) is None,
            },
    {
        self.location.find_page(id)
    }

    /// Rewrites the destination of `dict` if it is a link of the table of
    /// contents to a known location, and says what became of it.
    pub fn rewrite_annotation(&self, dict: &mut Dictionary) -> (r: LinkTarget)
        ensures
            r == link_target(self.locations(), *old(dict)),
            match r {
                LinkTarget::Page(page) => dest_replaced(*old(dict), *final(dict), page),
                _ => *final(dict) == *old(dict),
            },
    {
        let annot = vec![65u8, 110u8, 110u8, 111u8, 116u8];
        let dest = vec![68u8, 101u8, 115u8, 116u8];
        proof {
            assert(annot@ =~= name_annot());
            assert(dest@ =~= key_dest());
        }
        if !dict.type_is(annot.as_slice()) {
            return LinkTarget::Keep;
        }
        let id = match dict.get(dest.as_slice()) {
            Some(Object::Name(name)) => parse_usize(name.as_slice()),
            _ => {
                return LinkTarget::Keep;
            },
        };
        match id {
            None => LinkTarget::Malformed,
            Some(id) => match self.link_page(id) {
                None => LinkTarget::Keep,
                Some(page) => {
                    let page = #[verifier::truncate] (page as i64);
                    dict.set(dest, destination(page));
                    LinkTarget::Page(page)
                },
            },
        }
    }

    /// Rewrites the links of the table of contents among `objects`: the
    /// destination of each annotation that names the id of a location
    /// becomes the page of that location. Everything else stays as it is.
    /// Returns the ids of the annotations whose destination is no id.
    pub fn rebuild_toc_links(&self, objects: &mut Vec<(ObjectId, Object)>) -> (skipped: Vec<
        ObjectId,
    >)
        ensures
            final(objects)@.len() == old(objects)@.len(),
            forall|i: int|
                0 <= i < old(objects)@.len() ==> relinked(
                    self.locations(),
                    old(objects)@[i],
                    #[trigger] final(objects)@[i],
                ),
            skipped@ == malformed_links(self.locations(), old(objects)@),
    {
        let mut skipped: Vec<ObjectId> = Vec::new();
        let n = objects.len();
        let mut i: usize = 0;
        assert(old(objects)@.take(0) =~= Seq::<(ObjectId, Object)>::empty());
        while i < n
            invariant
                n == objects@.len(),
                n == old(objects)@.len(),
                i <= n,
                forall|k: int|
                    0 <= k < i ==> relinked(self.locations(), old(objects)@[k], #[trigger] objects@[k]),
                forall|k: int| i <= k < n ==> #[trigger] objects@[k] == old(objects)@[k],
                skipped@ == malformed_links(self.locations(), old(objects)@.take(i as int)),
            decreases n - i,
        {
            proof {
                assert(old(objects)@.take(i + 1).drop_last() =~= old(objects)@.take(i as int));
                assert(old(objects)@.take(i + 1).last() == old(objects)@[i as int]);
            }
            let entry = &mut objects[i];
            let id = entry.0;
            match &mut entry.1 {
                Object::Dictionary(dict) => {
                    match self.rewrite_annotation(dict) {
                        LinkTarget::Malformed => {
                            skipped.push(id);
                        },
                        _ => {},
                    }
                },
                _ => {},
            }
            i = i + 1;
        }
        assert(old(objects)@.take(n as int) =~= old(objects)@);
        skipped
    }
}

} // verus!
