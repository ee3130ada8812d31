use fusion::combiner::pdf::combiner::{
    destination, skipped_link, LinkTarget, PDFCombiner, UnitAction, UnitEvent, UnitStage,
};
use fusion::combiner::pdf::object::{Dictionary, Object};
use fusion::combiner::pdf::toc::render::{Render, ValidSize};
use fusion::config::combine::{CombinePDFParam, PDFFile, PageError};
use fusion::config::utils::Language;

fn pdf(id: usize, title: &str, path: &str) -> PDFFile {
    PDFFile { id, title: title.into(), filepath: path.into(), page_display: 0, page_actual: 0 }
}

fn param(cover: Option<&str>, language: Language) -> CombinePDFParam {
    CombinePDFParam::new(
        "ws",
        &language,
        &cover.map(|c| c.to_string()),
        "ws/toc.pdf",
        vec![pdf(0, "A", "a.pdf"), pdf(1, "B", "b.pdf")],
        "out/final.pdf",
        &("1".into(), "2".into(), "3".into(), "4".into()),
    )
}

fn name(text: &str) -> Object {
    Object::Name(text.as_bytes().to_vec())
}

fn dictionary(entries: Vec<(&str, Object)>) -> Dictionary {
    Dictionary { entries: entries.into_iter().map(|(k, v)| (k.as_bytes().to_vec(), v)).collect() }
}

fn expected_destination(page: i64) -> Object {
    Object::Array(vec![
        Object::Integer(page),
        name("XYZ"),
        Object::Null,
        Object::Null,
        Object::Null,
        Object::Dictionary(dictionary(vec![(
            "XYZ",
            Object::Array(vec![Object::Null, Object::Null, Object::Null]),
        )])),
    ])
}

#[test]
fn the_locations_of_a_unit_follow_the_page_counts() {
    let unit = PDFCombiner::new(&param(None, Language::EN), "bin", &vec![3, 4]).unwrap();
    assert_eq!(unit.current_stage(), UnitStage::LocationsBuilt);
    let data = unit.create_toc();
    assert_eq!(data.content, "Table of Content");
    assert_eq!(data.size, ValidSize::LETTER);
    assert_eq!(data.toc_headers.1, "2");
    let items: Vec<(Option<usize>, &str, usize, &str)> =
        data.items.iter().map(|l| (l.id, l.title.as_str(), l.page, l.path.as_str())).collect();
    assert_eq!(items, vec![(Some(0), "A", 0, "a.pdf"), (Some(1), "B", 3, "b.pdf")]);
}

#[test]
fn a_chinese_table_of_contents_is_on_a4() {
    let unit = PDFCombiner::new(&param(None, Language::CN), "bin", &vec![1, 1]).unwrap();
    let data = unit.create_toc();
    assert_eq!(data.content, "目录");
    assert_eq!(data.size, ValidSize::A4);
}

#[test]
fn a_unit_needs_one_page_count_per_file() {
    assert_eq!(
        PDFCombiner::new(&param(None, Language::EN), "bin", &vec![3]).err(),
        Some(PageError::CountMismatch)
    );
    assert_eq!(
        PDFCombiner::new(&param(None, Language::EN), "bin", &vec![usize::MAX, 1]).err(),
        Some(PageError::TooManyPages)
    );
}

#[test]
fn the_cover_comes_before_the_table_of_contents() {
    let mut unit =
        PDFCombiner::new(&param(Some("cover.pdf"), Language::EN), "bin", &vec![3, 4]).unwrap();
    let config = unit.combine_pdf(Some(2), Some(1)).unwrap();
    assert_eq!(config.destination, "out/final.pdf");
    assert_eq!(config.language, Language::EN);
    // The total counts the pages of the files alone.
    assert_eq!(config.total, 7);
    let files: Vec<(Option<usize>, &str, usize, &str)> =
        config.files.iter().map(|l| (l.id, l.title.as_str(), l.page, l.path.as_str())).collect();
    assert_eq!(
        files,
        vec![
            (None, "Cover", 0, "cover.pdf"),
            (None, "Table of Content", 1, "ws/toc.pdf"),
            (Some(0), "A", 3, "a.pdf"),
            (Some(1), "B", 6, "b.pdf"),
        ]
    );
}

#[test]
fn front_matter_that_is_not_there_is_left_out() {
    let mut unit = PDFCombiner::new(&param(None, Language::EN), "bin", &vec![3, 4]).unwrap();
    // The deliverable has no cover, so a page count for one does not count.
    let config = unit.combine_pdf(None, Some(5)).unwrap();
    let pages: Vec<usize> = config.files.iter().map(|l| l.page).collect();
    assert_eq!(pages, vec![0, 3]);
    let mut unit =
        PDFCombiner::new(&param(Some("cover.pdf"), Language::CN), "bin", &vec![3, 4]).unwrap();
    let config = unit.combine_pdf(Some(2), None).unwrap();
    let titles: Vec<&str> = config.files.iter().map(|l| l.title.as_str()).collect();
    assert_eq!(titles, vec!["目录", "A", "B"]);
    assert_eq!(unit.combine_pdf(Some(usize::MAX), None).err(), Some(PageError::TooManyPages));
}

#[test]
fn a_unit_goes_through_its_steps_and_finishes_once() {
    let mut unit =
        PDFCombiner::new(&param(Some("cover.pdf"), Language::EN), "bin", &vec![3, 4]).unwrap();
    assert!(matches!(unit.combine(UnitEvent::Assembled), UnitAction::Nothing));
    assert!(matches!(unit.combine(UnitEvent::Start), UnitAction::RenderToc(_)));
    assert_eq!(unit.current_stage(), UnitStage::LocationsBuilt);
    match unit.combine(UnitEvent::TocRendered { toc_pages: Some(2), cover_pages: Some(1) }) {
        UnitAction::Assemble(config) => {
            assert_eq!(config.files.len(), 4);
            assert_eq!(config.files[3].page, 6);
        }
        other => panic!("unexpected action {:?}", other),
    }
    assert_eq!(unit.current_stage(), UnitStage::TocRendered);
    assert!(matches!(unit.combine(UnitEvent::Assembled), UnitAction::RewriteLinks));
    assert_eq!(unit.current_stage(), UnitStage::PdfAssembled);
    assert!(matches!(unit.combine(UnitEvent::LinksRewritten), UnitAction::Finish));
    assert_eq!(unit.current_stage(), UnitStage::Done);
    assert!(matches!(unit.combine(UnitEvent::LinksRewritten), UnitAction::Nothing));
    assert!(matches!(unit.combine(UnitEvent::Failed("late".into())), UnitAction::Nothing));
    assert_eq!(unit.current_stage(), UnitStage::Done);
}

#[test]
fn a_failure_ends_the_unit() {
    let mut unit = PDFCombiner::new(&param(None, Language::EN), "bin", &vec![3, 4]).unwrap();
    unit.combine(UnitEvent::Start);
    unit.combine(UnitEvent::TocRendered { toc_pages: Some(2), cover_pages: None });
    match unit.combine(UnitEvent::Failed("exit status 1".into())) {
        UnitAction::Abort(reason) => assert_eq!(reason, "exit status 1"),
        other => panic!("unexpected action {:?}", other),
    }
    assert_eq!(unit.current_stage(), UnitStage::Failed);
    assert!(matches!(unit.combine(UnitEvent::Assembled), UnitAction::Nothing));
    assert!(matches!(unit.combine(UnitEvent::LinksRewritten), UnitAction::Nothing));
}

#[test]
fn a_link_to_a_location_gets_its_page() {
    let files: Vec<PDFFile> = (0..4).map(|i| pdf(i, "F", "f.pdf")).collect();
    let param = CombinePDFParam::new(
        "ws",
        &Language::EN,
        &None,
        "ws/toc.pdf",
        files,
        "out/final.pdf",
        &("".into(), "".into(), "".into(), "".into()),
    );
    // The file with the id 3 starts at page 10 + 12 + 20 = 42.
    let unit = PDFCombiner::new(&param, "bin", &vec![10, 12, 20, 1]).unwrap();
    assert_eq!(unit.link_page(3), Some(42));
    let mut annot = dictionary(vec![
        ("Type", name("Annot")),
        ("Subtype", name("Link")),
        ("Dest", name("3")),
    ]);
    assert_eq!(unit.rewrite_annotation(&mut annot), LinkTarget::Page(42));
    assert_eq!(annot.get(b"Dest"), Some(&expected_destination(42)));
    assert_eq!(annot.get(b"Subtype"), Some(&name("Link")));
    assert_eq!(destination(42), expected_destination(42));
}

#[test]
fn other_dictionaries_stay_as_they_are() {
    let unit = PDFCombiner::new(&param(None, Language::EN), "bin", &vec![3, 4]).unwrap();
    let cases = vec![
        (dictionary(vec![("Type", name("Annot")), ("Dest", name("7"))]), LinkTarget::Keep),
        (dictionary(vec![("Type", name("Annot")), ("Dest", name("x1"))]), LinkTarget::Malformed),
        (dictionary(vec![("Type", name("Annot")), ("Dest", name(""))]), LinkTarget::Malformed),
        (dictionary(vec![("Type", name("Annot"))]), LinkTarget::Keep),
        (dictionary(vec![("Type", name("Annot")), ("Dest", Object::Integer(1))]), LinkTarget::Keep),
        (dictionary(vec![("Type", name("Page")), ("Dest", name("1"))]), LinkTarget::Keep),
        (dictionary(vec![("Dest", name("1"))]), LinkTarget::Keep),
    ];
    for (mut dict, target) in cases {
        let before = format!("{:?}", dict);
        assert_eq!(unit.rewrite_annotation(&mut dict), target);
        assert_eq!(format!("{:?}", dict), before);
    }
}

#[test]
fn the_links_of_a_document_are_rewritten_in_place() {
    let unit = PDFCombiner::new(&param(None, Language::EN), "bin", &vec![3, 4]).unwrap();
    let mut objects = vec![
        ((1, 0), Object::Dictionary(dictionary(vec![("Type", name("Annot")), ("Dest", name("1"))]))),
        ((2, 0), Object::Integer(5)),
        ((3, 0), Object::Dictionary(dictionary(vec![("Type", name("Annot")), ("Dest", name("one"))]))),
        ((4, 0), Object::Dictionary(dictionary(vec![("Type", name("Annot")), ("Dest", name("0"))]))),
    ];
    let skipped = unit.rebuild_toc_links(&mut objects);
    assert_eq!(skipped, vec![(3, 0)]);
    assert_eq!(
        skipped_link("final", skipped[0]),
        "[ERROR] final pdf combine skipped the link of object 3 0, because: its destination is no id\n"
    );
    assert_eq!(objects.len(), 4);
    match &objects[0] {
        ((1, 0), Object::Dictionary(d)) => assert_eq!(d.get(b"Dest"), Some(&expected_destination(3))),
        other => panic!("unexpected object {:?}", other),
    }
    assert_eq!(objects[1], ((2, 0), Object::Integer(5)));
    match &objects[2] {
        ((3, 0), Object::Dictionary(d)) => assert_eq!(d.get(b"Dest"), Some(&name("one"))),
        other => panic!("unexpected object {:?}", other),
    }
    match &objects[3] {
        ((4, 0), Object::Dictionary(d)) => assert_eq!(d.get(b"Dest"), Some(&expected_destination(0))),
        other => panic!("unexpected object {:?}", other),
    }
}

#[test]
fn render_settings_are_set_one_by_one() {
    let mut render = Render::new();
    assert_eq!(render.size(), ValidSize::A4);
    render
        .set_content("Contents")
        .set_size(&ValidSize::LETTER)
        .set_toc_headers(&("a".into(), "b".into(), "c".into(), "d".into()))
        .set_company("company")
        .set_study("study")
        .set_purpose("purpose");
    assert_eq!(render.size(), ValidSize::LETTER);
    let unit = PDFCombiner::new(&param(None, Language::EN), "bin", &vec![3, 4]).unwrap();
    let data = render.data(unit.create_toc().items);
    assert_eq!(data.content, "Contents");
    assert_eq!(data.size, ValidSize::LETTER);
    assert_eq!(data.toc_headers.3, "d");
    assert_eq!(data.items.len(), 2);
    assert_eq!(data.items[1].page, 3);
}
