use vstd::prelude::*;

use crate::cursor::chars_of;
use crate::document::push_char;
use crate::elements::{decimal, decimal_string};

verus! {

broadcast use vstd::string::group_string_axioms;

/// The start of every LaTeX file: the document class and packages.
pub open spec fn latex_preamble() -> Seq<char> {
    "\\documentclass[32pt]{article}
\\usepackage{lingmacros}
\\usepackage{tree-dvips}
\\usepackage{xcolor}
\\pagestyle{empty}
\\usepackage{geometry}
 \\geometry{
      a4paper,
      total={170mm,257mm},
      left=5mm,
      top=5mm,
}"@
}

/// The colour definition for an RGB text colour.
pub open spec fn latex_color(rgb: [u32; 3]) -> Seq<char> {
    "\\definecolor{custom}{RGB}{ "@ + decimal(rgb[0] as nat) + ", "@ + decimal(rgb[1] as nat) + ", "@ + decimal(
        rgb[2] as nat,
    ) + " }"@
}

/// The body of the file: the given LaTeX, or a placeholder section.
pub open spec fn latex_body(tex_string: Option<Seq<char>>) -> Seq<char> {
    match tex_string {
        Some(s) => s,
        None => "\\section*{Notes for My Paper} \n some temp shit."@,
    }
}

/// A whole LaTeX file: preamble, colour, the start of the document in that
/// colour, the body, and the end of the document.
pub open spec fn latex_source(rgb: [u32; 3], tex_string: Option<Seq<char>>) -> Seq<char> {
    latex_preamble() + latex_color(rgb) + "\\begin{document}\n\\color{custom}\n"@ + latex_body(tex_string)
        + "\\end{document}"@
}

fn push_text(value: &mut String, s: &str)
    ensures
        final(value)@ == old(value)@ + s@,
{
    let chars = chars_of(s);
    let mut i: usize = 0;
    let ghost start = value@;
    while i < chars.len()
        invariant
            chars@ == s@,
            i <= chars.len(),
            value@ == start + s@.take(i as int),
        decreases chars.len() - i,
    {
        push_char(value, chars[i]);
        i += 1;
    }
}

/// The text of a LaTeX file that typesets `tex_string` in the colour
/// `font_color` (red, green, blue, each 0 to 255).
pub fn latex_file_contents(font_color: [u32; 3], tex_string: Option<String>) -> (r: String)
    ensures
        r@ == latex_source(font_color, match tex_string {
            Some(s) => Some(s@),
            None => None,
        }),
{
    let mut file_str = String::new();
    push_text(&mut file_str, "\\documentclass[32pt]{article}
\\usepackage{lingmacros}
\\usepackage{tree-dvips}
\\usepackage{xcolor}
\\pagestyle{empty}
\\usepackage{geometry}
 \\geometry{
      a4paper,
      total={170mm,257mm},
      left=5mm,
      top=5mm,
}");
    push_text(&mut file_str, "\\definecolor{custom}{RGB}{ ");
    let r = decimal_string(font_color[0] as usize);
    push_text(&mut file_str, r.as_str());
    push_text(&mut file_str, ", ");
    let g = decimal_string(font_color[1] as usize);
    push_text(&mut file_str, g.as_str());
    push_text(&mut file_str, ", ");
    let b = decimal_string(font_color[2] as usize);
    push_text(&mut file_str, b.as_str());
    push_text(&mut file_str, " }");
    push_text(&mut file_str, "\\begin{document}\n\\color{custom}\n");
    match &tex_string {
        None => push_text(&mut file_str, "\\section*{Notes for My Paper} \n some temp shit."),
        Some(s) => push_text(&mut file_str, s.as_str()),
    }
    push_text(&mut file_str, "\\end{document}");
    file_str
}

} // verus!
