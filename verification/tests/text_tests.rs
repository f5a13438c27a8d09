use slidedeck::document::{ConfigCard, ConfigData, ConfigKwds, ValueType};
use slidedeck::elements::decimal_string;
use slidedeck::latex::latex_file_contents;
use slidedeck::preprocess::{remove_comments, replace_bullet, replace_divs, replace_newline};
use slidedeck::render::{
    alignment_from_lowercase, alignment_from_name, match_value_strdata, valignment_from_lowercase,
    valignment_from_name, Alignment, VAlignment,
};

#[test]
fn comments_are_taken_out() {
    assert_eq!(remove_comments(String::from("a // c\n// x\nb")), "\na \n\nb");
}

#[test]
fn each_line_starts_with_a_line_break() {
    assert_eq!(remove_comments(String::from("x\ny\n")), "\nx\ny\n");
    assert_eq!(remove_comments(String::new()), "\n");
}

#[test]
fn removed_comments_leave_no_marks() {
    let out = remove_comments(String::from("a/\n/b // c\nhttp://x"));
    assert!(!out.contains("//"));
    assert_eq!(out, "\na/\n/b \nhttp:");
    assert_eq!(out.matches('\n').count(), 3);
}

#[test]
fn newline_marks_become_line_breaks() {
    assert_eq!(replace_newline(String::from("a #newline b#newline")), "a \n b\n");
    assert_eq!(replace_newline(String::from("#newlin")), "#newlin");
}

#[test]
fn bullets_start_a_paragraph() {
    assert_eq!(replace_bullet(String::from("x\n#bul one\n#bul two")), "x\n\n\u{2022} one\n\n\u{2022} two");
    assert_eq!(replace_bullet(String::from("#bul first")), "#bul first");
}

#[test]
fn half_slide_divs_are_written_out() {
    assert_eq!(
        replace_divs(String::from("\n#left_div{a}\n#right_div{b}")),
        "\n#div(position=[0.05, 0.8], width=0.4, align=\"left\"){a}\n#div(position=[0.505, 0.8], width=0.4, align=\"left\"){b}"
    );
}

#[test]
fn decimal_digits() {
    assert_eq!(decimal_string(0), "0");
    assert_eq!(decimal_string(7), "7");
    assert_eq!(decimal_string(1203), "1203");
    assert_eq!(decimal_string(18446744073709551615), "18446744073709551615");
}

#[test]
fn latex_file_with_body() {
    let s = latex_file_contents([255, 0, 10], Some(String::from("$x^2$")));
    assert!(s.starts_with("\\documentclass[32pt]{article}\n\\usepackage{lingmacros}"));
    assert!(s.contains("top=5mm,\n}\\definecolor{custom}{RGB}{ 255, 0, 10 }\\begin{document}\n\\color{custom}\n$x^2$\\end{document}"));
    assert!(s.ends_with("$x^2$\\end{document}"));
}

#[test]
fn latex_file_without_body() {
    let s = latex_file_contents([1, 1, 1], None);
    assert!(s.ends_with("{ 1, 1, 1 }\\begin{document}\n\\color{custom}\n\\section*{Notes for My Paper} \n some temp shit.\\end{document}"));
}

#[test]
fn string_setting_or_default() {
    assert_eq!(match_value_strdata("dflt", &ValueType::Str(String::from("x"))), "x");
    assert_eq!(match_value_strdata("dflt", &ValueType::Num(String::from("1"))), "dflt");
    assert_eq!(match_value_strdata("", &ValueType::Invalid), "");
}

#[test]
fn alignment_names_in_any_case() {
    assert_eq!(alignment_from_name("LEFT"), Some(Alignment::Left));
    assert_eq!(alignment_from_name("Right"), Some(Alignment::Right));
    assert_eq!(alignment_from_name("center"), Some(Alignment::Center));
    assert_eq!(alignment_from_name("centre"), None);
    assert_eq!(valignment_from_name("TOP"), Some(VAlignment::Top));
    assert_eq!(valignment_from_name("Bottom"), Some(VAlignment::Bottom));
    assert_eq!(valignment_from_name("middle"), None);
}

#[test]
fn lowercase_names_only() {
    assert_eq!(alignment_from_lowercase("LEFT"), None);
    assert_eq!(alignment_from_lowercase("left"), Some(Alignment::Left));
    assert_eq!(valignment_from_lowercase("center"), Some(VAlignment::Center));
}

#[test]
fn copies_are_equal() {
    let v = ValueType::Arr(vec![ValueType::Num(String::from("1")), ValueType::Str(String::from("a")), ValueType::Invalid]);
    assert_eq!(v.duplicate(), v);
    let c = ConfigCard { config_data: vec![ConfigData { kwd: ConfigKwds::font, data: v }] };
    assert_eq!(c.duplicate(), c);
}
