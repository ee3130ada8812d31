//! One conversion of an RTF source into a PDF.

use vstd::prelude::*;

verus! {

/// One conversion to carry out.
#[derive(Debug, Clone)]
pub struct ConvertTask {
    pub source: String,
    pub destination: String,
    pub source_size: u64,
    /// The directory in which the converter writes its script.
    pub script: String,
}

/// The mathematical value of a [`ConvertTask`].
pub struct ConvertTaskView {
    pub source: Seq<char>,
    pub destination: Seq<char>,
    pub source_size: u64,
    pub script: Seq<char>,
}

impl View for ConvertTask {
    type V = ConvertTaskView;

    open spec fn view(&self) -> ConvertTaskView {
        ConvertTaskView {
            source: self.source@,
            destination: self.destination@,
            source_size: self.source_size,
            script: self.script@,
        }
    }
}

/// The views of a sequence of tasks, entry by entry.
pub open spec fn task_views(s: Seq<ConvertTask>) -> Seq<ConvertTaskView> {
    s.map_values(|t: ConvertTask| t@)
}

impl ConvertTask {
    /// A copy of the task.
    pub fn duplicate(&self) -> (r: Self)
        ensures
            r == *self,
    {
        ConvertTask {
            source: self.source.clone(),
            destination: self.destination.clone(),
            source_size: self.source_size,
            script: self.script.clone(),
        }
    }
}

} // verus!
