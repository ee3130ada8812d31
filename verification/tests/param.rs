use fusion::config::param::{FusionParam, FusionTask, TaskProbe};
use fusion::config::utils::{File, FusionMode, Language};

fn file(filename: &str, title: &str, path: &str) -> File {
    File { filename: filename.into(), title: title.into(), path: path.into(), size: 0 }
}

fn headers() -> (String, String, String, String) {
    ("".into(), "".into(), "".into(), "".into())
}

fn init() -> FusionParam {
    FusionParam {
        id: None,
        source: r"D:\Studies\ak112\303\stats\CSR\product\output".into(),
        destination: r"D:\Studies\ak112\303\stats\CSR\product\output\combined".into(),
        top: r"D:\Studies\ak112\303\stats\CSR\utility\top-ak112-303-CSR.xlsx".into(),
        tasks: vec![
            FusionTask {
                name: "listing 1".into(),
                language: Language::CN,
                cover: None,
                destination: r"D:/Studies/ak112/303/stats/CSR/product/output/combined".into(),
                mode: FusionMode::PDF,
                files: vec![
                    file(
                        "l-16-02-04-04-mh-fas.rtf",
                        "列表 16.2.4.4: 既往病史 - 全分析集",
                        r"D:/Studies/ak112/303/stats/CSR/product/output/l-16-02-04-04-mh-fas.rtf",
                    ),
                    file(
                        "l-16-02-04-05-pre-ex-fas.rtf",
                        "列表 16.2.4.5: 既往用药 - 全分析集",
                        r"D:/Studies/ak112/303/stats/CSR/product/output/l-16-02-04-05-pre-ex-fas.rtf",
                    ),
                    file(
                        "l-16-02-05-01-ex-sum-ss.rtf",
                        "列表 16.2.5.1: 研究药物暴露 - 安全性分析集",
                        r"D:/Studies/ak112/303/stats/CSR/product/output/l-16-02-05-01-ex-sum-ss.rtf",
                    ),
                ],
                toc_headers: headers(),
            },
            FusionTask {
                name: "listing 2".into(),
                language: Language::CN,
                cover: None,
                destination: r"D:/Studies/ak112/303/stats/CSR/product/output/combined".into(),
                mode: FusionMode::PDF,
                files: vec![
                    file(
                        "l-16-02-08-01-04-lb-thyrabn-ss.rtf",
                        "列表 16.2.8.1.4: 异常实验室检查 (甲状腺功能) - 安全性分析集",
                        r"D:/Studies/ak112/303/stats/CSR/product/output/combined/l-16-02-08-01-04-lb-thyrabn-ss.rtf",
                    ),
                    file(
                        "l-16-02-08-06-ecog-ss.rtf",
                        "列表 16.2.8.6: ECOG评分 - 安全性分析集",
                        r"D:/Studies/ak112/303/stats/CSR/product/output/combined/l-16-02-08-06-ecog-ss.rtf",
                    ),
                ],
                toc_headers: headers(),
            },
        ],
    }
}

#[test]
fn param_test_to_convert_task() {
    let workspace = r"D:\Users\yuqi01.chen\.temp\app\mobiuskit\fusion";
    let param = init();
    let tasks = param.to_convert_task(workspace);
    assert_eq!(tasks.len(), 5);
}

#[test]
fn param_to_combine_config() {
    let workspace = r"D:\Users\yuqi01.chen\.temp\app\mobiuskit\fusion";
    let param = init();
    let (pdf_config, rtf_config) = param.to_combine_param(workspace);
    assert_eq!(pdf_config.len(), 2);
    assert_eq!(pdf_config[0].files.len(), 3);
    assert_eq!(pdf_config[1].files.len(), 2);
    // Both tasks of this manifest are PDF tasks, so no RTF deliverable comes of it.
    assert_eq!(rtf_config.len(), 0);
}

#[test]
fn param_fix_test() {
    let mut param = init();
    assert_eq!(param.tasks.get(0).unwrap().files.len(), 3);
    let task: &mut FusionTask = param.tasks.get_mut(0).unwrap();
    task.files.get_mut(0).unwrap().path =
        r"D:/Studies/ak112/303/stats/CSR/product/output/combined/l-16-02-04-04-mh-xxx.rtf".into();
    // The first file of the first task is not on disk; the others are.
    let probes = vec![
        TaskProbe { cover_exists: false, files: vec![None, Some(10), Some(20)] },
        TaskProbe { cover_exists: false, files: vec![Some(30), Some(40)] },
    ];
    param.fix(&probes).unwrap();
    assert_eq!(param.tasks.get(0).unwrap().files.len(), 2);
}

fn join(parts: &[&str]) -> String {
    let mut path = std::path::PathBuf::from(parts[0]);
    for part in &parts[1..] {
        path = path.join(part);
    }
    path.to_string_lossy().into_owned()
}

fn task(name: &str, mode: FusionMode, files: Vec<File>) -> FusionTask {
    FusionTask {
        name: name.into(),
        language: Language::EN,
        cover: Some("cover.pdf".into()),
        destination: "out".into(),
        mode,
        files,
        toc_headers: ("h1".into(), "h2".into(), "h3".into(), "h4".into()),
    }
}

fn manifest(tasks: Vec<FusionTask>) -> FusionParam {
    FusionParam { id: None, source: "src".into(), destination: "out".into(), top: "top.xlsx".into(), tasks }
}

#[test]
fn each_file_name_is_converted_once() {
    let mut big = file("a.rtf", "A", "in/a.rtf");
    big.size = 30;
    let param = manifest(vec![
        task("one", FusionMode::PDF, vec![big, file("b.rtf", "B", "in/b.rtf")]),
        task("two", FusionMode::RTF, vec![file("c.rtf", "C", "in/c.rtf")]),
        task("three", FusionMode::PDF, vec![file("b.rtf", "B again", "other/b.rtf"), file("d.rtf", "D", "in/d.rtf")]),
    ]);
    let tasks = param.to_convert_task("ws");
    let sources: Vec<&str> = tasks.iter().map(|t| t.source.as_str()).collect();
    // "c.rtf" belongs to an RTF task; the second "b.rtf" was seen before.
    assert_eq!(sources, vec!["in/a.rtf", "in/b.rtf", "in/d.rtf"]);
    assert_eq!(tasks[0].destination, join(&["ws", "converted", "a.pdf"]));
    assert_eq!(tasks[0].source_size, 30);
    assert_eq!(tasks[0].script, join(&["ws", "scripts"]));
    assert_eq!(tasks[2].destination, join(&["ws", "converted", "d.pdf"]));
    assert_eq!(param.convert_task_numer(), 3);
    assert_eq!(param.combine_task_number(), 3);
}

#[test]
fn every_rtf_in_a_file_name_becomes_pdf() {
    let param = manifest(vec![task("one", FusionMode::PDF, vec![file("x.rtf.rtf", "X", "x")])]);
    let tasks = param.to_convert_task("ws");
    assert_eq!(tasks[0].destination, join(&["ws", "converted", "x.pdf.pdf"]));
}

#[test]
fn deliverables_are_split_by_mode() {
    let param = manifest(vec![
        task("one", FusionMode::PDF, vec![file("a.rtf", "A", "in/a.rtf")]),
        task("two", FusionMode::RTF, vec![file("c.rtf", "C", "in/c.rtf"), file("d.rtf", "D", "in/d.rtf")]),
        task("three", FusionMode::PDF, vec![file("b.rtf", "B", "in/b.rtf"), file("a.rtf", "A", "in/a.rtf")]),
    ]);
    let (pdf, rtf) = param.to_combine_param("ws");
    assert_eq!(pdf.len(), 2);
    assert_eq!(rtf.len(), 1);
    assert_eq!(rtf[0].destination, join(&["out", "two.rtf"]));
    assert_eq!(rtf[0].files, vec!["in/c.rtf".to_string(), "in/d.rtf".to_string()]);
    // PDF deliverables are numbered by themselves.
    assert_eq!(pdf[0].workspace, join(&["ws", "combine", "0"]));
    assert_eq!(pdf[1].workspace, join(&["ws", "combine", "1"]));
    assert_eq!(pdf[1].toc, join(&["ws", "combine", "1", "toc.pdf"]));
    assert_eq!(pdf[1].destination, join(&["out", "three.pdf"]));
    assert_eq!(pdf[1].language, Language::EN);
    assert_eq!(pdf[1].cover, Some("cover.pdf".to_string()));
    assert_eq!(pdf[1].toc_headers.2, "h3");
    assert_eq!(pdf[1].toc_start_pages, 0);
    assert_eq!(pdf[1].files.len(), 2);
    assert_eq!(pdf[1].files[1].id, 1);
    assert_eq!(pdf[1].files[1].title, "A");
    assert_eq!(pdf[1].files[1].filepath, join(&["ws", "converted", "a.pdf"]));
    assert_eq!(pdf[1].files[1].page_display, 0);
    assert_eq!(pdf[1].files[1].page_actual, 0);
}

#[test]
fn fix_drops_what_is_missing_and_takes_the_sizes() {
    let mut param = manifest(vec![
        task("one", FusionMode::PDF, vec![file("a.rtf", "A", "a"), file("b.rtf", "B", "b")]),
        task("two", FusionMode::RTF, vec![file("c.rtf", "C", "c")]),
    ]);
    let probes = vec![
        TaskProbe { cover_exists: true, files: vec![Some(7), None] },
        TaskProbe { cover_exists: false, files: vec![Some(9)] },
    ];
    assert!(param.fix(&probes).is_ok());
    assert_eq!(param.tasks[0].files.len(), 1);
    assert_eq!(param.tasks[0].files[0].filename, "a.rtf");
    assert_eq!(param.tasks[0].files[0].size, 7);
    assert_eq!(param.tasks[0].cover, Some("cover.pdf".to_string()));
    assert_eq!(param.tasks[1].files[0].size, 9);
    assert_eq!(param.tasks[1].cover, None);
}

#[test]
fn fix_wants_probes_of_the_shape_of_the_manifest() {
    let mut param = manifest(vec![task("one", FusionMode::PDF, vec![file("a.rtf", "A", "a")])]);
    assert!(param.fix(&vec![]).is_err());
    assert!(param.fix(&vec![TaskProbe { cover_exists: true, files: vec![] }]).is_err());
    assert_eq!(param.tasks[0].files.len(), 1);
}
