use fusion::config::combine::{cover_title, toc_title, CombinePDFParam, PDFFile, PageError};
use fusion::config::utils::{worker_number, Language};

fn pdf(title: &str, path: &str) -> PDFFile {
    PDFFile { id: 99, title: title.into(), filepath: path.into(), page_display: 0, page_actual: 0 }
}

fn param(cover: Option<&str>, language: Language) -> CombinePDFParam {
    CombinePDFParam::new(
        "ws",
        &language,
        &cover.map(|c| c.to_string()),
        "ws/toc.pdf",
        vec![pdf("A", "a.pdf"), pdf("B", "b.pdf"), pdf("C", "c.pdf")],
        "out/final.pdf",
        &("1".into(), "2".into(), "3".into(), "4".into()),
    )
}

#[test]
fn pages_follow_cover_and_table_of_contents() {
    let mut p = param(Some("cover.pdf"), Language::EN);
    assert_eq!(p.update_pages(1, 2, &vec![3, 4, 5]), Ok(()));
    assert_eq!(p.toc_start_pages, 1);
    let ids: Vec<usize> = p.files.iter().map(|f| f.id).collect();
    let display: Vec<usize> = p.files.iter().map(|f| f.page_display).collect();
    let actual: Vec<usize> = p.files.iter().map(|f| f.page_actual).collect();
    assert_eq!(ids, vec![0, 1, 2]);
    assert_eq!(display, vec![1, 4, 8]);
    assert_eq!(actual, vec![3, 6, 10]);
    assert_eq!(p.files[2].title, "C");
}

#[test]
fn without_a_cover_its_pages_do_not_count() {
    let mut p = param(None, Language::EN);
    assert_eq!(p.update_pages(7, 2, &vec![3, 4, 5]), Ok(()));
    assert_eq!(p.toc_start_pages, 0);
    let actual: Vec<usize> = p.files.iter().map(|f| f.page_actual).collect();
    assert_eq!(actual, vec![2, 5, 9]);
}

#[test]
fn one_page_count_per_file_is_needed() {
    let mut p = param(None, Language::EN);
    assert_eq!(p.update_pages(0, 0, &vec![3, 4]), Err(PageError::CountMismatch));
    assert_eq!(p.files[0].id, 99);
}

#[test]
fn pages_have_to_fit() {
    let mut p = param(None, Language::EN);
    assert_eq!(p.update_pages(0, 0, &vec![usize::MAX, 1, 1]), Err(PageError::TooManyPages));
    assert_eq!(p.update_pages(0, usize::MAX, &vec![0, 0, 0]), Err(PageError::TooManyPages));
    assert_eq!(p.files[0].id, 99);
}

#[test]
fn the_outline_lists_cover_contents_and_files() {
    let mut p = param(Some("cover.pdf"), Language::CN);
    p.update_pages(1, 2, &vec![3, 4, 5]).unwrap();
    let outline = p.to_outline_param();
    assert_eq!(outline.target, "out/final.pdf");
    let entries: Vec<(&str, usize)> =
        outline.locations.iter().map(|l| (l.title.as_str(), l.page)).collect();
    assert_eq!(entries, vec![("封面", 0), ("目录", 1), ("A", 3), ("B", 6), ("C", 10)]);
}

#[test]
fn the_outline_without_cover_starts_with_the_contents() {
    let mut p = param(None, Language::EN);
    p.update_pages(0, 1, &vec![1, 1, 1]).unwrap();
    let outline = p.to_outline_param();
    let entries: Vec<(&str, usize)> =
        outline.locations.iter().map(|l| (l.title.as_str(), l.page)).collect();
    assert_eq!(entries, vec![("Table of Content", 0), ("A", 1), ("B", 2), ("C", 3)]);
}

#[test]
fn titles_by_language() {
    assert_eq!(toc_title(&Language::CN), "目录");
    assert_eq!(toc_title(&Language::EN), "Table of Content");
    assert_eq!(cover_title(&Language::CN), "封面");
    assert_eq!(cover_title(&Language::EN), "Cover");
}

#[test]
fn a_copy_of_a_deliverable_holds_the_same() {
    let p = param(Some("cover.pdf"), Language::EN);
    let q = p.clone();
    assert_eq!(q.workspace, "ws");
    assert_eq!(q.cover, Some("cover.pdf".to_string()));
    assert_eq!(q.files.len(), 3);
    assert_eq!(q.files[1].filepath, "b.pdf");
    assert_eq!(q.toc_headers.3, "4");
}

#[test]
fn the_worker_number_is_the_setting_or_five() {
    assert_eq!(worker_number(None), 5);
    assert_eq!(worker_number(Some("3")), 3);
    assert_eq!(worker_number(Some("+12")), 12);
    assert_eq!(worker_number(Some("0")), 0);
    assert_eq!(worker_number(Some("")), 5);
    assert_eq!(worker_number(Some("three")), 5);
    assert_eq!(worker_number(Some("-1")), 5);
    assert_eq!(worker_number(Some(" 4")), 5);
    assert_eq!(worker_number(Some("99999999999999999999999999")), 5);
}
