use fusion::top::{
    handle_unicode_declaration, title_line, title_prefix, top_entry, top_language,
    unicode_convert, ProjectLanguage,
};

#[test]
fn handle_unicode_declaration_test() {
    let source = "表 3.1.2.2.3: 整体治疗阶段的TEAE按SOC、PT总结（任意一组别PT发生率 ≥ 1~{unicode 0025}）（安全性分析集）";
    let dest = handle_unicode_declaration(source);
    assert_eq!(
        "表 3.1.2.2.3: 整体治疗阶段的TEAE按SOC、PT总结（任意一组别PT发生率 ≥ 1%）（安全性分析集）",
        dest
    )
}

#[test]
fn unicode_convert_test() {
    let source = "0025";
    assert_eq!(unicode_convert(source), "%")
}

#[test]
fn codes_that_are_no_character_give_nothing() {
    assert_eq!(unicode_convert(""), "");
    assert_eq!(unicode_convert("zz"), "");
    assert_eq!(unicode_convert("D800"), "");
    assert_eq!(unicode_convert("110000"), "");
    assert_eq!(unicode_convert("FFFFFFFFF"), "");
    assert_eq!(unicode_convert("-25"), "");
}

#[test]
fn codes_are_read_in_hexadecimal() {
    assert_eq!(unicode_convert("41"), "A");
    assert_eq!(unicode_convert("+41"), "A");
    assert_eq!(unicode_convert("00e9"), "é");
    assert_eq!(unicode_convert("4E2D"), "中");
    assert_eq!(unicode_convert("1F600"), "\u{1F600}");
}

#[test]
fn several_declarations_in_one_title() {
    let title = handle_unicode_declaration("a~{unicode 0025}b~{unicode 0041}c~{unicode 12}");
    assert_eq!(title, "a%bAc~{unicode 12}");
}

#[test]
fn the_prefix_of_a_title() {
    assert_eq!(title_prefix("T", &ProjectLanguage::EN), "Table");
    assert_eq!(title_prefix("T", &ProjectLanguage::CN), "表");
    assert_eq!(title_prefix("F", &ProjectLanguage::EN), "Figure");
    assert_eq!(title_prefix("F", &ProjectLanguage::CN), "图");
    assert_eq!(title_prefix("L", &ProjectLanguage::EN), "Listing");
    assert_eq!(title_prefix("L", &ProjectLanguage::CN), "列表");
    assert_eq!(title_prefix("X", &ProjectLanguage::EN), "");
    assert_eq!(title_prefix("", &ProjectLanguage::CN), "");
    assert_eq!(top_language("Adverse events"), ProjectLanguage::EN);
    assert_eq!(top_language("既往病史"), ProjectLanguage::CN);
    assert_eq!(top_language("rate ≥ 5"), ProjectLanguage::CN);
    assert_eq!(top_language(""), ProjectLanguage::EN);
}

#[test]
fn a_row_gives_file_name_and_full_title() {
    let top = top_entry("T-14-02-08", "14.2.8", "Rate of 5~{unicode 0025} ", "T");
    assert_eq!(top.filename, "t-14-02-08.rtf");
    assert_eq!(top.title, "Table 14.2.8: Rate of 5%");
    let top = top_entry("L-16-02", "16.2", "既往病史", "L");
    assert_eq!(top.filename, "l-16-02.rtf");
    assert_eq!(top.title, "列表 16.2: 既往病史");
    // An unknown kind has no word, and the space in its place is cut off.
    let top = top_entry("X", "1", "title", "?");
    assert_eq!(top.title, "1: title");
}

#[test]
fn the_line_of_a_title() {
    assert_eq!(title_line("14.2.8", "Rate ", "T"), "Table 14.2.8: Rate ");
    assert_eq!(title_line("1", "图表", "F"), "图 1: 图表");
    assert_eq!(title_line("1", "t", ""), " 1: t");
}
