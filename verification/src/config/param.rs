//! The manifest of a run and the tasks derived from it.

use super::combine::{CombinePDFParam, CombinePDFParamView, PDFFile, PDFFileView, RTFCombineParam, RTFCombineParamView};
use super::convert::{task_views, ConvertTask, ConvertTaskView};
use super::utils::{
    file_views, headers_view, option_view, File, FileView, FusionMode, Language, ProbeMismatch,
};
use crate::text::{concat, decimal, join_path, path_join, replace_all, replaced, to_decimal};
use vstd::prelude::*;

verus! {

/// One deliverable to produce.
#[derive(Debug)]
pub struct FusionTask {
    pub name: String,
    pub language: Language,
    pub cover: Option<String>,
    pub destination: String,
    pub mode: FusionMode,
    pub files: Vec<File>,
    pub toc_headers: (String, String, String, String),
}

/// The mathematical value of a [`FusionTask`].
pub struct FusionTaskView {
    pub name: Seq<char>,
    pub language: Language,
    pub cover: Option<Seq<char>>,
    pub destination: Seq<char>,
    pub mode: FusionMode,
    pub files: Seq<FileView>,
    pub toc_headers: (Seq<char>, Seq<char>, Seq<char>, Seq<char>),
}

impl View for FusionTask {
    type V = FusionTaskView;

    open spec fn view(&self) -> FusionTaskView {
        FusionTaskView {
            name: self.name@,
            language: self.language,
            cover: option_view(self.cover),
            destination: self.destination@,
            mode: self.mode,
            files: file_views(self.files@),
            toc_headers: headers_view(self.toc_headers),
        }
    }
}

/// The manifest of a run.
#[derive(Debug)]
pub struct FusionParam {
    pub id: Option<String>,
    pub source: String,
    pub destination: String,
    pub top: String,
    pub tasks: Vec<FusionTask>,
}

/// The mathematical value of a [`FusionParam`].
pub struct FusionParamView {
    pub id: Option<Seq<char>>,
    pub source: Seq<char>,
    pub destination: Seq<char>,
    pub top: Seq<char>,
    pub tasks: Seq<FusionTaskView>,
}

/// The views of a sequence of tasks, entry by entry.
pub open spec fn fusion_task_views(s: Seq<FusionTask>) -> Seq<FusionTaskView> {
    s.map_values(|t: FusionTask| t@)
}

impl View for FusionParam {
    type V = FusionParamView;

    open spec fn view(&self) -> FusionParamView {
        FusionParamView {
            id: option_view(self.id),
            source: self.source@,
            destination: self.destination@,
            top: self.top@,
            tasks: fusion_task_views(self.tasks@),
        }
    }
}

/// The files of the PDF tasks, in manifest order.
pub open spec fn pdf_sources(tasks: Seq<FusionTaskView>) -> Seq<FileView>
    decreases tasks.len(),
{
    if tasks.len() == 0 {
        Seq::<FileView>::empty()
    } else {
        pdf_sources(tasks.drop_last()) + (if tasks.last().mode == FusionMode::PDF {
            tasks.last().files
        } else {
            Seq::<FileView>::empty()
        })
    }
}

/// A file before `files[i]` has the same file name.
pub open spec fn occurs_before(files: Seq<FileView>, i: int) -> bool {
    exists|k: int| 0 <= k < i && (#[trigger] files[k]).filename == files[i].filename
}

/// The files without those whose file name occurred before: of each file
/// name the first occurrence, in order.
pub open spec fn first_of_each_name(files: Seq<FileView>) -> Seq<FileView>
    decreases files.len(),
{
    if files.len() == 0 {
        Seq::<FileView>::empty()
    } else if occurs_before(files, files.len() - 1) {
        first_of_each_name(files.drop_last())
    } else {
        first_of_each_name(files.drop_last()).push(files.last())
    }
}

/// `file` is `files[i]`, and no file before it has its name.
pub open spec fn is_first_of_name(files: Seq<FileView>, i: int, file: FileView) -> bool {
    0 <= i < files.len() && files[i] == file && !occurs_before(files, i)
}

/// `file` is one of `files`, and the first of its name.
pub open spec fn is_first_somewhere(files: Seq<FileView>, file: FileView) -> bool {
    exists|i: int| is_first_of_name(files, i, file)
}

/// The name of the PDF that the source named `filename` is converted to.
pub open spec fn pdf_name(filename: Seq<char>) -> Seq<char> {
    replaced(filename, ".rtf"@, ".pdf"@)
}

/// Where the converted PDF of the source named `filename` lies.
pub open spec fn converted_path(workspace: Seq<char>, filename: Seq<char>) -> Seq<char> {
    path_join(path_join(workspace, "converted"@), pdf_name(filename))
}

/// The conversion of the file `f` in the workspace.
pub open spec fn convert_task_of(workspace: Seq<char>, f: FileView) -> ConvertTaskView {
    ConvertTaskView {
        source: f.path,
        destination: converted_path(workspace, f.filename),
        source_size: f.size,
        script: path_join(workspace, "scripts"@),
    }
}

/// The workspace of the PDF deliverable number `id`.
pub open spec fn combine_workspace(workspace: Seq<char>, id: nat) -> Seq<char> {
    path_join(path_join(workspace, "combine"@), decimal(id))
}

/// File `i` of a PDF deliverable, its pages not assigned yet.
pub open spec fn pdf_file_of(workspace: Seq<char>, i: int, f: FileView) -> PDFFileView {
    PDFFileView {
        id: i as nat,
        title: f.title,
        filepath: converted_path(workspace, f.filename),
        page_display: 0,
        page_actual: 0,
    }
}

/// What the combine stage is asked to do for the PDF task `task`, the
/// deliverable number `id` of the run.
pub open spec fn pdf_param_of(id: nat, task: FusionTaskView, workspace: Seq<char>) -> CombinePDFParamView {
    CombinePDFParamView {
        workspace: combine_workspace(workspace, id),
        language: task.language,
        cover: task.cover,
        toc: path_join(combine_workspace(workspace, id), "toc.pdf"@),
        toc_start_pages: 0,
        files: Seq::new(task.files.len(), |i: int| pdf_file_of(workspace, i, task.files[i])),
        destination: path_join(task.destination, task.name + ".pdf"@),
        toc_headers: task.toc_headers,
    }
}

/// What the combine stage is asked to do for the RTF task `task`.
pub open spec fn rtf_param_of(task: FusionTaskView) -> RTFCombineParamView {
    RTFCombineParamView {
        destination: path_join(task.destination, task.name + ".rtf"@),
        files: task.files.map_values(|f: FileView| f.path),
    }
}

/// The PDF deliverables of the tasks, numbered from zero in manifest order.
pub open spec fn pdf_params(tasks: Seq<FusionTaskView>, workspace: Seq<char>) -> Seq<
    CombinePDFParamView,
>
    decreases tasks.len(),
{
    if tasks.len() == 0 {
        Seq::<CombinePDFParamView>::empty()
    } else {
        let rest = pdf_params(tasks.drop_last(), workspace);
        if tasks.last().mode == FusionMode::PDF {
            rest.push(pdf_param_of(rest.len(), tasks.last(), workspace))
        } else {
            rest
        }
    }
}

/// The RTF deliverables of the tasks, in manifest order.
pub open spec fn rtf_params(tasks: Seq<FusionTaskView>) -> Seq<RTFCombineParamView>
    decreases tasks.len(),
{
    if tasks.len() == 0 {
        Seq::<RTFCombineParamView>::empty()
    } else {
        let rest = rtf_params(tasks.drop_last());
        if tasks.last().mode == FusionMode::RTF {
            rest.push(rtf_param_of(tasks.last()))
        } else {
            rest
        }
    }
}

/// The views of a sequence of PDF deliverables.
pub open spec fn pdf_param_views(s: Seq<CombinePDFParam>) -> Seq<CombinePDFParamView> {
    s.map_values(|p: CombinePDFParam| p@)
}

/// The views of a sequence of RTF deliverables.
pub open spec fn rtf_param_views(s: Seq<RTFCombineParam>) -> Seq<RTFCombineParamView> {
    s.map_values(|p: RTFCombineParam| p@)
}

/// What the combine stage is asked to do for a PDF task.
pub fn pdf_combine_task(id: usize, task: &FusionTask, workspace: &str) -> (r: CombinePDFParam)
    ensures
        r@ == pdf_param_of(id as nat, task@, workspace@),
{
    let combine_dir = join_path(workspace, "combine");
    let number = to_decimal(id);
    let combine_workspace = join_path(combine_dir.as_str(), number.as_str());
    let toc = join_path(combine_workspace.as_str(), "toc.pdf");
    let mut files: Vec<PDFFile> = Vec::new();
    let n = task.files.len();
    let mut i: usize = 0;
    while i < n
        invariant
            n == task.files@.len(),
            i <= n,
            files@.len() == i,
            forall|k: int|
                0 <= k < i ==> (#[trigger] files@[k])@ == pdf_file_of(
                    workspace@,
                    k,
                    task.files@[k]@,
                ),
        decreases n - i,
    {
        let file = &task.files[i];
        files.push(
            PDFFile {
                id: i,
                title: file.title.clone(),
                filepath: converted_file(workspace, &file.filename),
                page_display: 0,
                page_actual: 0,
            },
        );
        i = i + 1;
    }
    let name = concat(task.name.as_str(), ".pdf");
    let destination = join_path(task.destination.as_str(), name.as_str());
    let r = CombinePDFParam::new(
        combine_workspace.as_str(),
        &task.language,
        &task.cover,
        toc.as_str(),
        files,
        destination.as_str(),
        &task.toc_headers,
    );
    assert(r@.files =~= pdf_param_of(id as nat, task@, workspace@).files);
    r
}

/// What the combine stage is asked to do for an RTF task.
pub fn rtf_combine_task(task: &FusionTask) -> (r: RTFCombineParam)
    ensures
        r@ == rtf_param_of(task@),
{
    let mut files: Vec<String> = Vec::new();
    let n = task.files.len();
    let mut i: usize = 0;
    while i < n
        invariant
            n == task.files@.len(),
            i <= n,
            files@.len() == i,
            forall|k: int| 0 <= k < i ==> (#[trigger] files@[k])@ == task.files@[k].path@,
        decreases n - i,
    {
        files.push(task.files[i].path.clone());
        i = i + 1;
    }
    let name = concat(task.name.as_str(), ".rtf");
    let r = RTFCombineParam {
        destination: join_path(task.destination.as_str(), name.as_str()),
        files,
    };
    assert(r@.files =~= rtf_param_of(task@).files);
    r
}

/// What the file system says of the files of one task.
#[derive(Debug, Clone)]
pub struct TaskProbe {
    /// The cover of the task exists.
    pub cover_exists: bool,
    /// For each file of the task its size, or `None` if it does not exist.
    pub files: Vec<Option<u64>>,
}

/// There is one probe per task, with one entry per file.
pub open spec fn fits(tasks: Seq<FusionTaskView>, probes: Seq<TaskProbe>) -> bool {
    &&& probes.len() == tasks.len()
    &&& forall|i: int|
        0 <= i < tasks.len() ==> (#[trigger] probes[i]).files@.len() == tasks[i].files.len()
}

/// The files that exist, each with the size found.
pub open spec fn existing(files: Seq<FileView>, sizes: Seq<Option<u64>>) -> Seq<FileView>
    decreases files.len(),
{
    if files.len() == 0 || sizes.len() == 0 {
        Seq::<FileView>::empty()
    } else {
        let rest = existing(files.drop_last(), sizes.drop_last());
        match sizes.last() {
            Some(size) => rest.push(FileView { size, ..files.last() }),
            None => rest,
        }
    }
}

/// The task without what does not exist: the cover, if it is missing, and
/// the missing files.
pub open spec fn fixed_task(task: FusionTaskView, probe: TaskProbe) -> FusionTaskView {
    FusionTaskView {
        cover: if probe.cover_exists {
            task.cover
        } else {
            None
        },
        files: existing(task.files, probe.files@),
        ..task
    }
}

/// Whether there is one probe per task, with one entry per file.
fn probes_fit(tasks: &Vec<FusionTask>, probes: &Vec<TaskProbe>) -> (r: bool)
    ensures
        r == fits(fusion_task_views(tasks@), probes@),
{
    let n = tasks.len();
    if probes.len() != n {
        return false;
    }
    let mut i: usize = 0;
    while i < n
        invariant
            n == tasks@.len(),
            n == probes@.len(),
            i <= n,
            forall|k: int|
                0 <= k < i ==> (#[trigger] probes@[k]).files@.len() == tasks@[k]@.files.len(),
        decreases n - i,
    {
        if probes[i].files.len() != tasks[i].files.len() {
            assert(probes@[i as int].files@.len() != fusion_task_views(tasks@)[i as int].files.len());
            return false;
        }
        i = i + 1;
    }
    true
}

/// The files that exist, each with the size found.
fn existing_files(files: &Vec<File>, sizes: &Vec<Option<u64>>) -> (r: Vec<File>)
    requires
        files@.len() == sizes@.len(),
    ensures
        file_views(r@) == existing(file_views(files@), sizes@),
{
    let ghost all = file_views(files@);
    let mut kept: Vec<File> = Vec::new();
    let n = files.len();
    let mut i: usize = 0;
    assert(file_views(kept@) =~= existing(all.take(0), sizes@.take(0)));
    while i < n
        invariant
            n == files@.len(),
            n == sizes@.len(),
            i <= n,
            all == file_views(files@),
            file_views(kept@) == existing(all.take(i as int), sizes@.take(i as int)),
        decreases n - i,
    {
        let file = &files[i];
        let ghost old_kept = kept@;
        proof {
            assert(all.take(i + 1).drop_last() =~= all.take(i as int));
            assert(sizes@.take(i + 1).drop_last() =~= sizes@.take(i as int));
            assert(all.take(i + 1).last() == file@);
        }
        match sizes[i] {
            Some(size) => {
                kept.push(
                    File {
                        filename: file.filename.clone(),
                        title: file.title.clone(),
                        path: file.path.clone(),
                        size,
                    },
                );
                assert(file_views(kept@) =~= file_views(old_kept).push(
                    FileView { size, ..file@ },
                ));
            },
            None => {},
        }
        i = i + 1;
    }
    assert(all.take(n as int) =~= all);
    assert(sizes@.take(n as int) =~= sizes@);
    kept
}

/// A file of `files` is named `name`.
pub open spec fn names(files: Seq<FileView>, name: Seq<char>) -> bool {
    exists|j: int| 0 <= j < files.len() && (#[trigger] files[j]).filename == name
}

/// One of the texts `seen` is `name`.
pub open spec fn holds(seen: Seq<String>, name: Seq<char>) -> bool {
    exists|k: int| 0 <= k < seen.len() && (#[trigger] seen[k])@ == name
}

/// `seen` holds the file names of `files` and no other.
pub open spec fn tracks(seen: Seq<String>, files: Seq<FileView>) -> bool {
    &&& forall|k: int| 0 <= k < seen.len() ==> names(files, (#[trigger] seen[k])@)
    &&& forall|j: int| 0 <= j < files.len() ==> holds(seen, (#[trigger] files[j]).filename)
}

/// What is kept of `files` are files of `files`, each the first of its
/// name, in their order; so no two of them have the same name.
pub proof fn lemma_first_of_each_name(files: Seq<FileView>)
    ensures
        forall|k: int|
            0 <= k < first_of_each_name(files).len() ==> is_first_somewhere(
                files,
                #[trigger] first_of_each_name(files)[k],
            ),
        forall|a: int, b: int|
            0 <= a < b < first_of_each_name(files).len() ==> first_of_each_name(
                files,
            )[a].filename != first_of_each_name(files)[b].filename,
        forall|i: int|
            0 <= i < files.len() ==> names(first_of_each_name(files), (#[trigger] files[i]).filename),
    decreases files.len(),
{
    if files.len() > 0 {
        let rest = files.drop_last();
        let last = files.len() - 1;
        lemma_first_of_each_name(rest);
        let kept = first_of_each_name(files);
        let before = first_of_each_name(rest);
        assert forall|k: int| 0 <= k < kept.len() implies is_first_somewhere(
            files,
            #[trigger] kept[k],
        ) by {
            if k < before.len() {
                assert(kept[k] == before[k]);
                assert(is_first_somewhere(rest, before[k]));
                let i = choose|i: int| is_first_of_name(rest, i, before[k]);
                assert(rest[i] == files[i]);
                assert(!occurs_before(files, i)) by {
                    if occurs_before(files, i) {
                        let j = choose|j: int|
                            0 <= j < i && (#[trigger] files[j]).filename == files[i].filename;
                        assert(rest[j].filename == rest[i].filename);
                    }
                }
                assert(is_first_of_name(files, i, kept[k]));
            } else {
                assert(is_first_of_name(files, last, kept[k]));
            }
        }
        assert forall|a: int, b: int| 0 <= a < b < kept.len() implies kept[a].filename
            != kept[b].filename by {
            if b >= before.len() {
                // The last file was kept, so its name did not occur before it.
                assert(kept[a] == before[a]);
                assert(is_first_somewhere(rest, before[a]));
                let i = choose|i: int| is_first_of_name(rest, i, before[a]);
                assert(files[i] == rest[i]);
                if kept[a].filename == kept[b].filename {
                    assert(files[i].filename == files[last].filename);
                    assert(occurs_before(files, last));
                }
            }
        }
        assert forall|i: int| 0 <= i < files.len() implies names(
            kept,
            (#[trigger] files[i]).filename,
        ) by {
            if i < last {
                assert(files[i] == rest[i]);
                assert(names(before, rest[i].filename));
                let j = choose|j: int|
                    0 <= j < before.len() && (#[trigger] before[j]).filename == rest[i].filename;
                assert(kept[j] == before[j]);
            } else if occurs_before(files, last) {
                let j = choose|j: int|
                    0 <= j < last && (#[trigger] files[j]).filename == files[last].filename;
                assert(files[j] == rest[j]);
                assert(names(before, rest[j].filename));
                let m = choose|m: int|
                    0 <= m < before.len() && (#[trigger] before[m]).filename == rest[j].filename;
                assert(kept[m] == before[m]);
            } else {
                assert(kept[kept.len() - 1] == files[last]);
            }
        }
    }
}

/// Whether `name` is one of `seen`.
fn contains(seen: &Vec<String>, name: &String) -> (r: bool)
    ensures
        r == holds(seen@, name@),
{
    let n = seen.len();
    let mut i: usize = 0;
    while i < n
        invariant
            n == seen@.len(),
            i <= n,
            forall|k: int| 0 <= k < i ==> (#[trigger] seen@[k])@ != name@,
        decreases n - i,
    {
        if seen[i] == *name {
            return true;
        }
        i = i + 1;
    }
    false
}

/// Where the converted PDF of the source named `filename` lies.
fn converted_file(workspace: &str, filename: &String) -> (r: String)
    ensures
        r@ == converted_path(workspace@, filename@),
{
    proof {
        reveal_strlit(".rtf");
    }
    let dir = join_path(workspace, "converted");
    let name = replace_all(filename.as_str(), ".rtf", ".pdf");
    join_path(dir.as_str(), name.as_str())
}

/// With one more file, `seen` still tracks the files if the file's name was
/// added to it, or was in it already.
proof fn lemma_tracks_next(
    old_seen: Seq<String>,
    seen: Seq<String>,
    done: Seq<FileView>,
    f: FileView,
)
    requires
        tracks(old_seen, done),
        seen == old_seen || (seen.len() == old_seen.len() + 1 && seen.drop_last() == old_seen
            && seen.last()@ == f.filename),
        seen == old_seen ==> holds(old_seen, f.filename),
    ensures
        tracks(seen, done.push(f)),
{
    let next = done.push(f);
    assert forall|k: int| 0 <= k < seen.len() implies names(next, (#[trigger] seen[k])@) by {
        if k < old_seen.len() {
            assert(seen[k] == old_seen[k]);
            assert(names(done, old_seen[k]@));
            let j = choose|j: int|
                0 <= j < done.len() && (#[trigger] done[j]).filename == old_seen[k]@;
            assert(next[j].filename == seen[k]@);
        } else {
            assert(next[next.len() - 1].filename == seen[k]@);
        }
    }
    assert forall|j: int| 0 <= j < next.len() implies holds(
        seen,
        (#[trigger] next[j]).filename,
    ) by {
        if j < done.len() {
            assert(next[j] == done[j]);
            assert(holds(old_seen, done[j].filename));
            let k = choose|k: int|
                0 <= k < old_seen.len() && (#[trigger] old_seen[k])@ == done[j].filename;
            assert(seen[k]@ == next[j].filename);
        } else if seen == old_seen {
            assert(holds(seen, f.filename));
        } else {
            assert(seen[seen.len() - 1]@ == next[j].filename);
        }
    }
}

/// A file name occurs before the last file exactly if one of the files
/// before it has that name.
proof fn lemma_occurs_before_last(done: Seq<FileView>, f: FileView)
    ensures
        occurs_before(done.push(f), done.len() as int) <==> names(done, f.filename),
{
    let next = done.push(f);
    if occurs_before(next, done.len() as int) {
        let k = choose|k: int|
            0 <= k < done.len() && (#[trigger] next[k]).filename == next[done.len() as int].filename;
        assert(done[k].filename == f.filename);
    }
    if names(done, f.filename) {
        let j = choose|j: int| 0 <= j < done.len() && (#[trigger] done[j]).filename == f.filename;
        assert(next[j].filename == next[done.len() as int].filename);
    }
}

impl FusionParam {
    /// The files to convert: of the PDF tasks, each file name once, at its
    /// first occurrence.
    fn distinct_sources(&self) -> (r: Vec<&File>)
        ensures
            r@.map_values(|f: &File| f@) == first_of_each_name(pdf_sources(self@.tasks)),
    {
        let ghost tasks = self@.tasks;
        let mut seen: Vec<String> = Vec::new();
        let mut found: Vec<&File> = Vec::new();
        let n = self.tasks.len();
        let mut t: usize = 0;
        assert(found@.map_values(|f: &File| f@) =~= first_of_each_name(
            pdf_sources(tasks.take(0)),
        ));
        while t < n
            invariant
                n == self.tasks@.len(),
                t <= n,
                tasks == self@.tasks,
                found@.map_values(|f: &File| f@) == first_of_each_name(
                    pdf_sources(tasks.take(t as int)),
                ),
                tracks(seen@, pdf_sources(tasks.take(t as int))),
            decreases n - t,
        {
            let task = &self.tasks[t];
            let ghost before = pdf_sources(tasks.take(t as int));
            assert(tasks[t as int] == task@);
            assert(tasks.take(t + 1).drop_last() =~= tasks.take(t as int));
            assert(tasks.take(t + 1).last() == task@);
            if task.mode == FusionMode::PDF {
                let m = task.files.len();
                let mut i: usize = 0;
                assert(before + task@.files.take(0) =~= before);
                while i < m
                    invariant
                        m == task.files@.len(),
                        i <= m,
                        found@.map_values(|f: &File| f@) == first_of_each_name(
                            before + task@.files.take(i as int),
                        ),
                        tracks(seen@, before + task@.files.take(i as int)),
                    decreases m - i,
                {
                    let f = &task.files[i];
                    let ghost done = before + task@.files.take(i as int);
                    let ghost next = before + task@.files.take(i + 1);
                    let ghost old_found = found@;
                    let ghost old_seen = seen@;
                    proof {
                        assert(task@.files[i as int] == f@);
                        assert(next =~= done.push(f@));
                        assert(next.drop_last() =~= done);
                        lemma_occurs_before_last(done, f@);
                    }
                    let known = contains(&seen, &f.filename);
                    proof {
                        if known {
                            assert(names(done, f@.filename)) by {
                                let k = choose|k: int|
                                    0 <= k < seen@.len() && (#[trigger] seen@[k])@
                                        == f@.filename;
                                assert(names(done, seen@[k]@));
                            }
                        } else {
                            assert(!names(done, f@.filename)) by {
                                if names(done, f@.filename) {
                                    let j = choose|j: int|
                                        0 <= j < done.len() && (#[trigger] done[j]).filename
                                            == f@.filename;
                                    assert(holds(seen@, done[j].filename));
                                }
                            }
                        }
                    }
                    if !known {
                        found.push(f);
                        seen.push(f.filename.clone());
                        proof {
                            assert(found@.map_values(|f: &File| f@) =~= old_found.map_values(
                                |f: &File| f@,
                            ).push(f@));
                            assert(seen@.drop_last() =~= old_seen);
                        }
                    }
                    proof {
                        lemma_tracks_next(old_seen, seen@, done, f@);
                    }
                    i = i + 1;
                }
                assert(task@.files.take(m as int) =~= task@.files);
            } else {
                assert(pdf_sources(tasks.take(t + 1)) =~= before);
            }
            t = t + 1;
        }
        assert(tasks.take(n as int) =~= tasks);
        found
    }

    /// The conversions that the run needs: one per file name among the PDF
    /// tasks, for its first occurrence, in manifest order.
    pub fn to_convert_task(&self, workspace: &str) -> (r: Vec<ConvertTask>)
        ensures
            task_views(r@) == first_of_each_name(pdf_sources(self@.tasks)).map_values(
                |f: FileView| convert_task_of(workspace@, f),
            ),
    {
        let sources = self.distinct_sources();
        let ghost files = first_of_each_name(pdf_sources(self@.tasks));
        let mut tasks: Vec<ConvertTask> = Vec::new();
        let n = sources.len();
        let mut i: usize = 0;
        while i < n
            invariant
                n == sources@.len(),
                i <= n,
                files == sources@.map_values(|f: &File| f@),
                tasks@.len() == i,
                forall|k: int|
                    0 <= k < i ==> (#[trigger] tasks@[k])@ == convert_task_of(
                        workspace@,
                        files[k],
                    ),
            decreases n - i,
        {
            let f = sources[i];
            assert(files[i as int] == f@);
            tasks.push(
                ConvertTask {
                    source: f.path.clone(),
                    destination: converted_file(workspace, &f.filename),
                    source_size: f.size,
                    script: join_path(workspace, "scripts"),
                },
            );
            i = i + 1;
        }
        assert(task_views(tasks@) =~= files.map_values(
            |f: FileView| convert_task_of(workspace@, f),
        ));
        tasks
    }

    /// The number of conversions that the run needs.
    pub fn convert_task_numer(&self) -> (r: usize)
        ensures
            r == first_of_each_name(pdf_sources(self@.tasks)).len(),
    {
        let sources = self.distinct_sources();
        assert(sources@.map_values(|f: &File| f@).len() == sources@.len());
        sources.len()
    }

    /// What the combine stage is asked to do: the PDF deliverables and the
    /// RTF deliverables, each kind in manifest order.
    pub fn to_combine_param(&self, workspace: &str) -> (r: (
        Vec<CombinePDFParam>,
        Vec<RTFCombineParam>,
    ))
        ensures
            pdf_param_views(r.0@) == pdf_params(self@.tasks, workspace@),
            rtf_param_views(r.1@) == rtf_params(self@.tasks),
    {
        let ghost tasks = self@.tasks;
        let mut pdf_configs: Vec<CombinePDFParam> = Vec::new();
        let mut rtf_configs: Vec<RTFCombineParam> = Vec::new();
        let n = self.tasks.len();
        let mut t: usize = 0;
        assert(pdf_param_views(pdf_configs@) =~= pdf_params(tasks.take(0), workspace@));
        assert(rtf_param_views(rtf_configs@) =~= rtf_params(tasks.take(0)));
        while t < n
            invariant
                n == self.tasks@.len(),
                t <= n,
                tasks == self@.tasks,
                pdf_param_views(pdf_configs@) == pdf_params(tasks.take(t as int), workspace@),
                rtf_param_views(rtf_configs@) == rtf_params(tasks.take(t as int)),
            decreases n - t,
        {
            let task = &self.tasks[t];
            let ghost old_pdf = pdf_configs@;
            let ghost old_rtf = rtf_configs@;
            proof {
                assert(tasks[t as int] == task@);
                assert(tasks.take(t + 1).drop_last() =~= tasks.take(t as int));
                assert(tasks.take(t + 1).last() == task@);
                assert(pdf_param_views(old_pdf).len() == old_pdf.len());
            }
            match task.mode {
                FusionMode::PDF => {
                    let param = pdf_combine_task(pdf_configs.len(), task, workspace);
                    pdf_configs.push(param);
                    assert(pdf_param_views(pdf_configs@) =~= pdf_param_views(old_pdf).push(
                        param@,
                    ));
                },
                FusionMode::RTF => {
                    let param = rtf_combine_task(task);
                    rtf_configs.push(param);
                    assert(rtf_param_views(rtf_configs@) =~= rtf_param_views(old_rtf).push(
                        param@,
                    ));
                },
            }
            t = t + 1;
        }
        assert(tasks.take(n as int) =~= tasks);
        (pdf_configs, rtf_configs)
    }

    /// Drops what the file system does not hold: a cover that is missing and
    /// every missing file; the files that stay get the size found. Fails,
    /// and changes nothing, unless there is one probe per task with one
    /// entry per file.
    pub fn fix(&mut self, probes: &Vec<TaskProbe>) -> (r: Result<(), ProbeMismatch>)
        ensures
            r is Ok <==> fits(old(self)@.tasks, probes@),
            r is Ok ==> final(self)@ == (FusionParamView {
                tasks: Seq::new(
                    old(self)@.tasks.len(),
                    |i: int| fixed_task(old(self)@.tasks[i], probes@[i]),
                ),
                ..old(self)@
            }),
            r is Err ==> *final(self) == *old(self),
    {
        if !probes_fit(&self.tasks, probes) {
            return Err(ProbeMismatch);
        }
        let n = self.tasks.len();
        let mut index: usize = 0;
        while index < n
            invariant
                n == self.tasks@.len(),
                n == old(self).tasks@.len(),
                index <= n,
                fits(old(self)@.tasks, probes@),
                self.id == old(self).id,
                self.source == old(self).source,
                self.destination == old(self).destination,
                self.top == old(self).top,
                forall|k: int|
                    0 <= k < index ==> (#[trigger] self.tasks@[k])@ == fixed_task(
                        old(self).tasks@[k]@,
                        probes@[k],
                    ),
                forall|k: int| index <= k < n ==> #[trigger] self.tasks@[k] == old(self).tasks@[k],
            decreases n - index,
        {
            let probe = &probes[index];
            assert(probes@[index as int].files@.len() == old(self)@.tasks[index as int].files.len());
            let files = existing_files(&self.tasks[index].files, &probe.files);
            let task = &mut self.tasks[index];
            task.files = files;
            if !probe.cover_exists {
                task.cover = None;
            }
            index = index + 1;
        }
        proof {
            assert(self@.tasks =~= Seq::new(
                old(self)@.tasks.len(),
                |i: int| fixed_task(old(self)@.tasks[i], probes@[i]),
            ));
        }
        Ok(())
    }

    /// The number of deliverables of the run.
    pub fn combine_task_number(&self) -> (r: usize)
        ensures
            r == self@.tasks.len(),
    {
        self.tasks.len()
    }
}

} // verus!
