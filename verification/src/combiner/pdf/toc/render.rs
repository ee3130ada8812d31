//! What the table of contents is rendered from.

use crate::combiner::pdf::location::{location_views, Location, LocationView};
use crate::config::utils::{clone_headers, headers_view};
use vstd::prelude::*;

verus! {

/// The paper sizes that a table of contents can be printed on.
#[derive(Debug, Clone, Copy, PartialEq, Eq, Structural)]
pub enum ValidSize {
    A4,
    LETTER,
}

impl Default for ValidSize {
    fn default() -> (r: Self)
        ensures
            r == ValidSize::A4,
    {
        ValidSize::A4
    }
}

/// The variables of the template of the table of contents.
#[derive(Debug)]
pub struct RenderData {
    pub items: Vec<Location>,
    pub content: String,
    pub size: ValidSize,
    pub toc_headers: (String, String, String, String),
}

/// The mathematical value of [`RenderData`].
pub struct RenderDataView {
    pub items: Seq<LocationView>,
    pub content: Seq<char>,
    pub size: ValidSize,
    pub toc_headers: (Seq<char>, Seq<char>, Seq<char>, Seq<char>),
}

impl View for RenderData {
    type V = RenderDataView;

    open spec fn view(&self) -> RenderDataView {
        RenderDataView {
            items: location_views(self.items@),
            content: self.content@,
            size: self.size,
            toc_headers: headers_view(self.toc_headers),
        }
    }
}

/// The settings of a table of contents.
#[derive(Debug)]
pub struct Render {
    content: String,
    company: String,
    study: String,
    purpose: String,
    toc_headers: (String, String, String, String),
    pub size: ValidSize,
}

/// The mathematical value of a [`Render`].
pub struct RenderView {
    pub content: Seq<char>,
    pub company: Seq<char>,
    pub study: Seq<char>,
    pub purpose: Seq<char>,
    pub toc_headers: (Seq<char>, Seq<char>, Seq<char>, Seq<char>),
    pub size: ValidSize,
}

impl View for Render {
    type V = RenderView;

    closed spec fn view(&self) -> RenderView {
        RenderView {
            content: self.content@,
            company: self.company@,
            study: self.study@,
            purpose: self.purpose@,
            toc_headers: headers_view(self.toc_headers),
            size: self.size,
        }
    }
}

impl Render {
    /// Settings with every text empty and the size A4.
    pub fn new() -> (r: Render)
        ensures
            r@ == (RenderView {
                content: Seq::<char>::empty(),
                company: Seq::<char>::empty(),
                study: Seq::<char>::empty(),
                purpose: Seq::<char>::empty(),
                toc_headers: (
                    Seq::<char>::empty(),
                    Seq::<char>::empty(),
                    Seq::<char>::empty(),
                    Seq::<char>::empty(),
                ),
                size: ValidSize::A4,
            }),
    {
        Render {
            content: String::new(),
            company: String::new(),
            study: String::new(),
            purpose: String::new(),
            toc_headers: (String::new(), String::new(), String::new(), String::new()),
            size: ValidSize::A4,
        }
    }

    pub fn size(&self) -> (r: ValidSize)
        ensures
            r == self@.size,
    {
        self.size
    }

    pub fn set_content(&mut self, content: &str) -> (r: &mut Self)
        ensures
            *final(self) == *final(r),
            r@ == (RenderView { content: content@, ..old(self)@ }),
    {
        self.content = String::from_str(content);
        self
    }

    pub fn set_study(&mut self, study: &str) -> (r: &mut Self)
        ensures
            *final(self) == *final(r),
            r@ == (RenderView { study: study@, ..old(self)@ }),
    {
        self.study = String::from_str(study);
        self
    }

    pub fn set_company(&mut self, company: &str) -> (r: &mut Self)
        ensures
            *final(self) == *final(r),
            r@ == (RenderView { company: company@, ..old(self)@ }),
    {
        self.company = String::from_str(company);
        self
    }

    pub fn set_purpose(&mut self, purpose: &str) -> (r: &mut Self)
        ensures
            *final(self) == *final(r),
            r@ == (RenderView { purpose: purpose@, ..old(self)@ }),
    {
        self.purpose = String::from_str(purpose);
        self
    }

    pub fn set_size(&mut self, size: &ValidSize) -> (r: &mut Self)
        ensures
            *final(self) == *final(r),
            r@ == (RenderView { size: *size, ..old(self)@ }),
    {
        self.size = *size;
        self
    }

    pub fn set_toc_headers(&mut self, toc_headers: &(String, String, String, String)) -> (r:
        &mut Self)
        ensures
            *final(self) == *final(r),
            r@ == (RenderView { toc_headers: headers_view(*toc_headers), ..old(self)@ }),
    {
        self.toc_headers = clone_headers(toc_headers);
        self
    }

    /// The variables of the template for the entries `items`.
    pub fn data(&self, items: Vec<Location>) -> (r: RenderData)
        ensures
            r@ == (RenderDataView {
                items: location_views(items@),
                content: self@.content,
                size: self@.size,
                toc_headers: self@.toc_headers,
            }),
    {
        RenderData {
            items,
            content: self.content.clone(),
            size: self.size,
            toc_headers: clone_headers(&self.toc_headers),
        }
    }
}

} // verus!
