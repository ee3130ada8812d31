//! The vocabulary of a manifest.

use crate::text::{parse_usize, parsed_number};
use vstd::prelude::*;
use vstd::string::StringSliceAdditionalSpecFns;

verus! {

/// The language of a deliverable.
#[derive(Debug, Clone, Copy, PartialEq, Eq, Structural)]
pub enum Language {
    CN,
    EN,
}

impl Default for Language {
    fn default() -> (r: Self)
        ensures
            r == Language::CN,
    {
        Language::CN
    }
}

/// The kind of deliverable of a task.
#[derive(Debug, Clone, Copy, PartialEq, Eq, Structural)]
pub enum FusionMode {
    PDF,
    RTF,
}

impl Default for FusionMode {
    fn default() -> (r: Self)
        ensures
            r == FusionMode::PDF,
    {
        FusionMode::PDF
    }
}

/// One source file of a task.
#[derive(Debug, Clone)]
pub struct File {
    pub filename: String,
    pub title: String,
    pub path: String,
    pub size: u64,
}

/// The mathematical value of a [`File`].
pub struct FileView {
    pub filename: Seq<char>,
    pub title: Seq<char>,
    pub path: Seq<char>,
    pub size: u64,
}

impl View for File {
    type V = FileView;

    open spec fn view(&self) -> FileView {
        FileView {
            filename: self.filename@,
            title: self.title@,
            path: self.path@,
            size: self.size,
        }
    }
}

/// The views of a sequence of files, entry by entry.
pub open spec fn file_views(s: Seq<File>) -> Seq<FileView> {
    s.map_values(|f: File| f@)
}

/// The view of an optional text.
pub open spec fn option_view(s: Option<String>) -> Option<Seq<char>> {
    match s {
        Some(t) => Some(t@),
        None => None,
    }
}

/// The views of four texts.
pub open spec fn headers_view(h: (String, String, String, String)) -> (
    Seq<char>,
    Seq<char>,
    Seq<char>,
    Seq<char>,
) {
    (h.0@, h.1@, h.2@, h.3@)
}

/// A copy of an optional text.
pub fn clone_option(s: &Option<String>) -> (r: Option<String>)
    ensures
        r == *s,
{
    match s {
        Some(t) => Some(t.clone()),
        None => None,
    }
}

/// A copy of four texts.
pub fn clone_headers(h: &(String, String, String, String)) -> (r: (String, String, String, String))
    ensures
        r == *h,
{
    (h.0.clone(), h.1.clone(), h.2.clone(), h.3.clone())
}

/// What was found on disk does not have the shape of what was asked about.
#[derive(Debug, Clone, Copy, PartialEq, Eq, Structural)]
pub struct ProbeMismatch;

/// The number of workers of a pool when none is configured.
pub const DEFAULT_WORKERS: usize = 5;

/// The number of workers that the setting asks for: the number it writes,
/// or the default where there is no setting or it writes no number.
pub open spec fn workers_of(setting: Option<Seq<u8>>) -> usize {
    match setting {
        Some(text) => match parsed_number(text) {
            Some(n) => if n <= usize::MAX {
                n as usize
            } else {
                DEFAULT_WORKERS
            },
            None => DEFAULT_WORKERS,
        },
        None => DEFAULT_WORKERS,
    }
}

/// The number of workers of each pool, given the setting of
/// `MK_WORD_WORKER`, if it is set.
pub fn worker_number(setting: Option<&str>) -> (r: usize)
    ensures
        r == workers_of(
            match setting {
                Some(text) => Some(text.spec_bytes()),
                None => None,
            },
        ),
{
    match setting {
        Some(text) => match parse_usize(text.as_bytes()) {
            Some(n) => n,
            None => DEFAULT_WORKERS,
        },
        None => DEFAULT_WORKERS,
    }
}

} // verus!
