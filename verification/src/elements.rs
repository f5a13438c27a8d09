use vstd::prelude::*;

use crate::cursor::{newlines_upto, step, step_char, ParserCursor, Spot};
use crate::document::{
    push_char, slide_seq_view, ConfigCard, ConfigData, ConfigDataV, ConfigKwds, LexType,
    ParseHalt, SlideData, SlideDataV, ValueType, ValueV,
};
use crate::lexer::{
    ends_ahead, gather, gather_value, is_keyword, keyword_at, lemma_gather_forward, lemma_scan_forward,
    lemma_slide_forward, moved, ok_spot,
};
use crate::parser::{config_outcome, gen_config, gen_config_func, lemma_gen_config_forward, table_view};

verus! {

broadcast use vstd::string::group_string_axioms;

/// The row of the document at spot `s`.
pub open spec fn row_at(t: Seq<char>, s: Spot) -> nat {
    newlines_upto(t, s.pos)
}

pub open spec fn digit_char(d: nat) -> char {
    seq!['0', '1', '2', '3', '4', '5', '6', '7', '8', '9'][d as int]
}

/// The decimal digits of `n`.
pub open spec fn decimal(n: nat) -> Seq<char>
    decreases n,
{
    if n < 10 {
        seq![digit_char(n)]
    } else {
        decimal(n / 10).push(digit_char(n % 10))
    }
}

/// The decimal digits of `n`, as a string.
pub fn decimal_string(n: usize) -> (r: String)
    ensures
        r@ == decimal(n as nat),
{
    let digits = ['0', '1', '2', '3', '4', '5', '6', '7', '8', '9'];
    let mut rev: Vec<char> = Vec::new();
    let mut m = n;
    while m >= 10
        invariant
            digits@ == seq!['0', '1', '2', '3', '4', '5', '6', '7', '8', '9'],
            decimal(n as nat) == decimal(m as nat) + rev@.reverse(),
        decreases m,
    {
        rev.push(digits[m % 10]);
        m = m / 10;
    }
    rev.push(digits[m]);
    let mut s = String::new();
    let mut i = rev.len();
    while i > 0
        invariant
            i <= rev.len(),
            s@ == rev@.reverse().take(rev.len() - i),
            decimal(n as nat) == rev@.reverse(),
        decreases i,
    {
        i -= 1;
        push_char(&mut s, rev[i]);
    }
    s
}

pub open spec fn slide_outcome(r: Result<SlideData, ParseHalt>, c: ParserCursor, t: Seq<char>, expect: Result<(SlideDataV, Spot), ParseHalt>) -> bool {
    match expect {
        Ok((v, e)) => r matches Ok(x) && x@ == v && c.wf() && c.text() == t && c.spot() == e,
        Err(h) => r == Err::<SlideData, ParseHalt>(h),
    }
}

pub open spec fn slides_outcome(r: Result<Vec<SlideData>, ParseHalt>, c: ParserCursor, t: Seq<char>, expect: Result<(Seq<SlideDataV>, Spot), ParseHalt>) -> bool {
    match expect {
        Ok((v, e)) => r matches Ok(x) && slide_seq_view(x@) == v && c.wf() && c.text() == t && c.spot() == e,
        Err(h) => r == Err::<Vec<SlideData>, ParseHalt>(h),
    }
}

/// Moves the items of `src` to the end of `dst`, last item first.
pub fn append_reversed(dst: &mut Vec<SlideData>, src: Vec<SlideData>)
    ensures
        final(dst)@ == old(dst)@ + src@.reverse(),
        slide_seq_view(final(dst)@) == slide_seq_view(old(dst)@) + slide_seq_view(src@).reverse(),
{
    let mut src = src;
    let ghost whole = src@;
    let ghost start = dst@;
    while src.len() > 0
        invariant
            src@ == whole.take(src@.len() as int),
            src@.len() <= whole.len(),
            dst@ == start + whole.skip(src@.len() as int).reverse(),
        decreases src.len(),
    {
        let ghost n = src@.len();
        let item = src.pop().unwrap();
        dst.push(item);
    }
}

/// The items of `v` in reverse order.
pub fn reversed(v: Vec<SlideData>) -> (r: Vec<SlideData>)
    ensures
        r@ == v@.reverse(),
        slide_seq_view(r@) == slide_seq_view(v@).reverse(),
{
    let mut r: Vec<SlideData> = Vec::new();
    append_reversed(&mut r, v);
    r
}

/// The settings an image takes.
pub open spec fn image_table() -> Seq<(Seq<char>, ConfigKwds, LexType)> {
    seq![
        ("path"@, ConfigKwds::image_path, LexType::Str),
        ("position"@, ConfigKwds::image_position, LexType::Arr),
        ("width"@, ConfigKwds::image_width, LexType::Num),
        ("height"@, ConfigKwds::image_height, LexType::Num),
    ]
}

/// `#image(...)`: an image element with its settings and no value.
pub open spec fn image_elem(t: Seq<char>, s: Spot) -> Result<(SlideDataV, Spot), ParseHalt> {
    match gen_config(t, s, image_table(), "#image"@) {
        Err(h) => Err(h),
        Ok((cfg, s1)) => {
            let s2 = step(t, s1);
            Ok((SlideDataV { config: Some(cfg), kwd: ConfigKwds::image, data: ValueV::Invalid, text_row: row_at(t, s2) }, s2))
        },
    }
}

/// Reading an image element ends at or after where it started.
pub proof fn lemma_image_forward(t: Seq<char>, s: Spot)
    requires
        ok_spot(t, s),
    ensures
        ends_ahead(t, s, image_elem(t, s)),
{
    lemma_gen_config_forward(t, s, image_table(), "#image"@);
}

/// Reads an image element.
pub fn image_func(parser_cursor: &mut ParserCursor) -> (r: Result<SlideData, ParseHalt>)
    requires
        old(parser_cursor).wf(),
        old(parser_cursor).text().len() > 0,
    ensures
        slide_outcome(r, *final(parser_cursor), old(parser_cursor).text(),
            image_elem(old(parser_cursor).text(), old(parser_cursor).spot())),
{
    let table = [
        ("path", ConfigKwds::image_path, LexType::Str),
        ("position", ConfigKwds::image_position, LexType::Arr),
        ("width", ConfigKwds::image_width, LexType::Num),
        ("height", ConfigKwds::image_height, LexType::Num),
    ];
    assert(table_view(table@) =~= image_table());
    let config = match gen_config_func(parser_cursor, &table, "#image") {
        Err(h) => {
            return Err(h);
        },
        Ok(c) => c,
    };
    parser_cursor.next();
    let row = parser_cursor.row();
    Ok(SlideData { config: Some(config), kwd: ConfigKwds::image, data: ValueType::Invalid, text_row: row })
}

/// A text element.
pub open spec fn text_item(cfg: Option<Seq<ConfigDataV>>, v: ValueV, row: nat) -> SlideDataV {
    SlideDataV { config: cfg, kwd: ConfigKwds::text, data: v, text_row: row }
}

/// The setting that numbers the lines of a braced `#font(...){...}`.
pub open spec fn braced_entry(n: nat) -> ConfigDataV {
    ConfigDataV { kwd: ConfigKwds::font_braced, data: ValueV::Num(decimal(n)) }
}

/// The settings a font takes.
pub open spec fn font_table() -> Seq<(Seq<char>, ConfigKwds, LexType)> {
    seq![
        ("family"@, ConfigKwds::font_current, LexType::Str),
        ("size"@, ConfigKwds::font_size, LexType::Num),
        ("position"@, ConfigKwds::text_position, LexType::Arr),
        ("color"@, ConfigKwds::font_color, LexType::Arr),
        ("style"@, ConfigKwds::font_style, LexType::Str),
        ("margin"@, ConfigKwds::text_margin, LexType::Num),
        ("align"@, ConfigKwds::text_align, LexType::Str),
    ]
}

/// The lines of a braced font, up to `}`: each a text element with the
/// font's settings and its line number.
pub open spec fn font_loop(t: Seq<char>, s: Spot, cfg: Seq<ConfigDataV>, nth: nat, acc: Seq<SlideDataV>) -> Result<(Seq<SlideDataV>, Spot), ParseHalt>
    decreases t.len() - s.pos,
    when ok_spot(t, s)
{
    if t[s.pos] == '}' {
        Ok((acc, s))
    } else {
        match gather(t, s, LexType::SlideStr, Some(LexType::Braced)) {
            Err(h) => Err(h),
            Ok((v, s1)) => {
                let acc2 = acc.push(text_item(Some(cfg.push(braced_entry(nth))), v, row_at(t, s)));
                if step_char(t, s1) is None {
                    Ok((acc2, step(t, s1)))
                } else {
                    proof {
                        lemma_slide_forward(t, s, true, seq![]);
                    }
                    font_loop(t, step(t, s1), cfg, nth + 1, acc2)
                }
            },
        }
    }
}

/// `#font(...)` followed by one line of text, or by lines in braces.
pub open spec fn font_elems(t: Seq<char>, s: Spot) -> Result<(Seq<SlideDataV>, Spot), ParseHalt> {
    match gen_config(t, s, font_table(), "#font"@) {
        Err(h) => Err(h),
        Ok((cfg, s1)) => {
            let s2 = step(t, s1);
            if t[s2.pos] != '{' {
                match gather(t, s2, LexType::SlideStr, None) {
                    Err(h) => Err(h),
                    Ok((v, s3)) => Ok((seq![text_item(Some(cfg.push(braced_entry(0))), v, row_at(t, s2))], s3)),
                }
            } else {
                match font_loop(t, step(t, s2), cfg, 0, seq![]) {
                    Err(h) => Err(h),
                    Ok((items, e)) => Ok((items.reverse(), e)),
                }
            }
        },
    }
}

/// Reading the lines of a braced font ends at or after where it started.
pub proof fn lemma_font_loop_forward(t: Seq<char>, s: Spot, cfg: Seq<ConfigDataV>, nth: nat, acc: Seq<SlideDataV>)
    requires
        ok_spot(t, s),
    ensures
        ends_ahead(t, s, font_loop(t, s, cfg, nth, acc)),
    decreases t.len() - s.pos,
{
    if t[s.pos] != '}' {
        lemma_slide_forward(t, s, true, seq![]);
        match gather(t, s, LexType::SlideStr, Some(LexType::Braced)) {
            Ok((v, s1)) => {
                if step_char(t, s1) is Some {
                    let acc2 = acc.push(text_item(Some(cfg.push(braced_entry(nth))), v, row_at(t, s)));
                    lemma_font_loop_forward(t, step(t, s1), cfg, nth + 1, acc2);
                }
            },
            _ => {},
        }
    }
}

/// Reading a font element ends at or after where it started.
pub proof fn lemma_font_forward(t: Seq<char>, s: Spot)
    requires
        ok_spot(t, s),
    ensures
        ends_ahead(t, s, font_elems(t, s)),
{
    lemma_gen_config_forward(t, s, font_table(), "#font"@);
    match gen_config(t, s, font_table(), "#font"@) {
        Ok((cfg, s1)) => {
            let s2 = step(t, s1);
            if t[s2.pos] != '{' {
                lemma_gather_forward(t, s2, LexType::SlideStr, None);
            } else {
                lemma_font_loop_forward(t, step(t, s2), cfg, 0, seq![]);
            }
        },
        _ => {},
    }
}

/// The setting that numbers the line `nth` of a braced font.
fn braced_config(nth: usize) -> (d: ConfigData)
    ensures
        d@ == braced_entry(nth as nat),
{
    ConfigData { kwd: ConfigKwds::font_braced, data: ValueType::Num(decimal_string(nth)) }
}

/// Reads `#font(...)` and the text it applies to.
pub fn font_func(parser_cursor: &mut ParserCursor) -> (r: Result<Vec<SlideData>, ParseHalt>)
    requires
        old(parser_cursor).wf(),
        old(parser_cursor).text().len() > 0,
    ensures
        slides_outcome(r, *final(parser_cursor), old(parser_cursor).text(),
            font_elems(old(parser_cursor).text(), old(parser_cursor).spot())),
{
    let ghost t = parser_cursor.text();
    let table = [
        ("family", ConfigKwds::font_current, LexType::Str),
        ("size", ConfigKwds::font_size, LexType::Num),
        ("position", ConfigKwds::text_position, LexType::Arr),
        ("color", ConfigKwds::font_color, LexType::Arr),
        ("style", ConfigKwds::font_style, LexType::Str),
        ("margin", ConfigKwds::text_margin, LexType::Num),
        ("align", ConfigKwds::text_align, LexType::Str),
    ];
    assert(table_view(table@) =~= font_table());
    let mut config = match gen_config_func(parser_cursor, &table, "#font") {
        Err(h) => {
            return Err(h);
        },
        Ok(c) => c,
    };
    let ghost cfg = config@;
    parser_cursor.next();
    let mut return_data: Vec<SlideData> = Vec::new();
    if parser_cursor.cur() != '{' {
        let ghost old_cfg = config@;
        let entry = braced_config(0);
        config.config_data.push(entry);
        assert(config@ =~= old_cfg.push(braced_entry(0)));
        let row = parser_cursor.row();
        let slide_data = match gather_value(parser_cursor, LexType::SlideStr, None) {
            Err(h) => {
                return Err(h);
            },
            Ok(v) => v,
        };
        return_data.push(SlideData { config: Some(config), kwd: ConfigKwds::text, data: slide_data, text_row: row });
        assert(slide_seq_view(return_data@) =~= seq![text_item(Some(cfg.push(braced_entry(0))), slide_data@, row as nat)]);
        Ok(return_data)
    } else {
        parser_cursor.next();
        let ghost s0 = parser_cursor.spot();
        let mut nth: usize = 0;
        assert(slide_seq_view(return_data@) =~= seq![]);
        loop
            invariant
                parser_cursor.wf(),
                parser_cursor.text() == t,
                t == old(parser_cursor).text(),
                t.len() > 0,
                config@ == cfg,
                nth <= parser_cursor.spot().pos,
                font_elems(t, old(parser_cursor).spot()) == (match font_loop(t, s0, cfg, 0, seq![]) {
                    Err(h) => Err(h),
                    Ok((items, e)) => Ok((items.reverse(), e)),
                }),
                font_loop(t, parser_cursor.spot(), cfg, nth as nat, slide_seq_view(return_data@))
                    == font_loop(t, s0, cfg, 0, seq![]),
            decreases t.len() - parser_cursor.spot().pos,
        {
            let ghost s = parser_cursor.spot();
            if parser_cursor.cur() == '}' {
                return Ok(reversed(return_data));
            }
            let mut this_config = config.duplicate();
            let ghost dup = this_config@;
            let entry = braced_config(nth);
            this_config.config_data.push(entry);
            assert(this_config@ =~= dup.push(braced_entry(nth as nat)));
            let row = parser_cursor.row();
            proof {
                lemma_slide_forward(t, s, true, seq![]);
            }
            let slide_data = match gather_value(parser_cursor, LexType::SlideStr, Some(LexType::Braced)) {
                Err(h) => {
                    return Err(h);
                },
                Ok(v) => v,
            };
            let ghost old_data = return_data@;
            return_data.push(SlideData { config: Some(this_config), kwd: ConfigKwds::text, data: slide_data, text_row: row });
            assert(slide_seq_view(return_data@) =~= slide_seq_view(old_data).push(
                text_item(Some(cfg.push(braced_entry(nth as nat))), slide_data@, row as nat),
            ));
            if parser_cursor.next().is_none() {
                return Ok(reversed(return_data));
            }
            let here = parser_cursor.pos();
            nth += 1;
        }
    }
}

/// The header kind named at `s`, and where the cursor ends.  Each name is
/// tried where the try before it stopped.
pub open spec fn header_kind(t: Seq<char>, s: Spot) -> (ConfigKwds, Spot) {
    let (m1, e1) = keyword_at(t, s, "#header1"@, false);
    if m1 {
        (ConfigKwds::header1, e1)
    } else {
        let (m2, e2) = keyword_at(t, e1, "#header2"@, false);
        if m2 {
            (ConfigKwds::header2, e2)
        } else {
            let (m3, e3) = keyword_at(t, e2, "#header3"@, false);
            if m3 {
                (ConfigKwds::header3, e3)
            } else {
                (ConfigKwds::default, e3)
            }
        }
    }
}

/// `#headerN` followed by its text; the row is the one the text ends on.
pub open spec fn header_elem(t: Seq<char>, s: Spot) -> Result<(SlideDataV, Spot), ParseHalt> {
    let (kwd, e) = header_kind(t, s);
    match gather(t, e, LexType::SlideStr, None) {
        Err(h) => Err(h),
        Ok((v, e2)) => Ok((SlideDataV { config: None, kwd: kwd, data: v, text_row: row_at(t, e2) }, e2)),
    }
}

/// Reading a header ends at or after where it started.
pub proof fn lemma_header_forward(t: Seq<char>, s: Spot)
    requires
        ok_spot(t, s),
    ensures
        ends_ahead(t, s, header_elem(t, s)),
{
    lemma_scan_forward(t, s, "#header1"@, 0);
    let e1 = keyword_at(t, s, "#header1"@, false).1;
    lemma_scan_forward(t, e1, "#header2"@, 0);
    let e2 = keyword_at(t, e1, "#header2"@, false).1;
    lemma_scan_forward(t, e2, "#header3"@, 0);
    let (kwd, e) = header_kind(t, s);
    lemma_gather_forward(t, e, LexType::SlideStr, None);
}

/// Reads a header element.
pub fn header_func(parser_cursor: &mut ParserCursor) -> (r: Result<SlideData, ParseHalt>)
    requires
        old(parser_cursor).wf(),
        old(parser_cursor).text().len() > 0,
    ensures
        slide_outcome(r, *final(parser_cursor), old(parser_cursor).text(),
            header_elem(old(parser_cursor).text(), old(parser_cursor).spot())),
{
    let mut configkwd = ConfigKwds::default;
    if is_keyword(parser_cursor, "#header1", false) {
        configkwd = ConfigKwds::header1;
    } else if is_keyword(parser_cursor, "#header2", false) {
        configkwd = ConfigKwds::header2;
    } else if is_keyword(parser_cursor, "#header3", false) {
        configkwd = ConfigKwds::header3;
    }
    let data = match gather_value(parser_cursor, LexType::SlideStr, None) {
        Err(h) => {
            return Err(h);
        },
        Ok(v) => v,
    };
    let row = parser_cursor.row();
    Ok(SlideData { config: None, kwd: configkwd, data: data, text_row: row })
}

/// The settings a LaTeX element takes.
pub open spec fn tex_table() -> Seq<(Seq<char>, ConfigKwds, LexType)> {
    seq![
        ("family"@, ConfigKwds::latex_current, LexType::Str),
        ("size"@, ConfigKwds::latex_size, LexType::Num),
        ("position"@, ConfigKwds::latex_position, LexType::Arr),
        ("color"@, ConfigKwds::latex_color, LexType::Arr),
        ("style"@, ConfigKwds::latex_style, LexType::Str),
        ("margin"@, ConfigKwds::latex_margin, LexType::Num),
    ]
}

/// The lines of a braced LaTeX element, joined, up to `}`.
pub open spec fn tex_loop(t: Seq<char>, s: Spot, acc: Seq<char>) -> Result<(Seq<char>, Spot), ParseHalt>
    decreases t.len() - s.pos, if s.prev == s.pos { 0int } else { 1int },
    when ok_spot(t, s)
{
    if t[s.pos] == '}' {
        Ok((acc, s))
    } else {
        match gather(t, s, LexType::SlideStr, None) {
            Err(h) => Err(h),
            Ok((v, s1)) => {
                let acc2 = match v {
                    ValueV::Str(x) => acc + x,
                    _ => acc,
                };
                let s2 = step(t, s1);
                if moved(t, s, true, s2, true) {
                    tex_loop(t, s2, acc2)
                } else {
                    Err(ParseHalt::Endless)
                }
            },
        }
    }
}

/// `#tex`, or `#tex(...)` with settings, followed by one line of LaTeX or by
/// lines in braces.
pub open spec fn tex_elem(t: Seq<char>, s: Spot) -> Result<(SlideDataV, Spot), ParseHalt> {
    let head: Result<(Seq<ConfigDataV>, Spot), ParseHalt> = if keyword_at(t, s, "#tex("@, true).0 {
        match gen_config(t, s, tex_table(), "#tex"@) {
            Err(h) => Err(h),
            Ok((c, s1)) => Ok((c, step(t, s1))),
        }
    } else {
        Ok((seq![], keyword_at(t, s, "#tex"@, false).1))
    };
    match head {
        Err(h) => Err(h),
        Ok((cfg, s2)) => {
            let row = row_at(t, s2);
            if t[s2.pos] != '{' {
                match gather(t, s2, LexType::SlideStr, None) {
                    Err(h) => Err(h),
                    Ok((v, s3)) => Ok((SlideDataV { config: Some(cfg), kwd: ConfigKwds::latex, data: v, text_row: row }, s3)),
                }
            } else {
                match tex_loop(t, step(t, s2), seq![]) {
                    Err(h) => Err(h),
                    Ok((acc, e)) => Ok((
                        SlideDataV { config: Some(cfg), kwd: ConfigKwds::latex, data: ValueV::Str(acc), text_row: row },
                        e,
                    )),
                }
            }
        },
    }
}

/// Reading the lines of a braced LaTeX element ends at or after where it
/// started.
pub proof fn lemma_tex_loop_forward(t: Seq<char>, s: Spot, acc: Seq<char>)
    requires
        ok_spot(t, s),
    ensures
        ends_ahead(t, s, tex_loop(t, s, acc)),
    decreases t.len() - s.pos, if s.prev == s.pos { 0int } else { 1int },
{
    if t[s.pos] != '}' {
        match gather(t, s, LexType::SlideStr, None) {
            Ok((v, s1)) => {
                let acc2 = match v {
                    ValueV::Str(x) => acc + x,
                    _ => acc,
                };
                let s2 = step(t, s1);
                if moved(t, s, true, s2, true) {
                    lemma_tex_loop_forward(t, s2, acc2);
                }
            },
            _ => {},
        }
    }
}

/// Reading a LaTeX element ends at or after where it started.
pub proof fn lemma_tex_forward(t: Seq<char>, s: Spot)
    requires
        ok_spot(t, s),
    ensures
        ends_ahead(t, s, tex_elem(t, s)),
{
    lemma_gen_config_forward(t, s, tex_table(), "#tex"@);
    lemma_scan_forward(t, s, "#tex"@, 0);
    let head: Result<(Seq<ConfigDataV>, Spot), ParseHalt> = if keyword_at(t, s, "#tex("@, true).0 {
        match gen_config(t, s, tex_table(), "#tex"@) {
            Err(h) => Err(h),
            Ok((c, s1)) => Ok((c, step(t, s1))),
        }
    } else {
        Ok((seq![], keyword_at(t, s, "#tex"@, false).1))
    };
    match head {
        Ok((cfg, s2)) => {
            if t[s2.pos] != '{' {
                lemma_gather_forward(t, s2, LexType::SlideStr, None);
            } else {
                lemma_tex_loop_forward(t, step(t, s2), seq![]);
            }
        },
        _ => {},
    }
}

/// Appends the characters of `s` to `value`.
fn push_str(value: &mut String, s: &String)
    ensures
        final(value)@ == old(value)@ + s@,
{
    let chars = crate::cursor::chars_of(s.as_str());
    let mut i: usize = 0;
    let ghost start = value@;
    while i < chars.len()
        invariant
            chars@ == s@,
            i <= chars.len(),
            value@ == start + s@.take(i as int),
        decreases chars.len() - i,
    {
        push_char(value, chars[i]);
        i += 1;
    }
}

/// Reads a LaTeX element.
pub fn tex_func(parser_cursor: &mut ParserCursor) -> (r: Result<SlideData, ParseHalt>)
    requires
        old(parser_cursor).wf(),
        old(parser_cursor).text().len() > 0,
    ensures
        slide_outcome(r, *final(parser_cursor), old(parser_cursor).text(),
            tex_elem(old(parser_cursor).text(), old(parser_cursor).spot())),
{
    let ghost t = parser_cursor.text();
    let mut config = ConfigCard { config_data: Vec::new() };
    assert(config@ =~= seq![]);
    if is_keyword(parser_cursor, "#tex(", true) {
        let table = [
            ("family", ConfigKwds::latex_current, LexType::Str),
            ("size", ConfigKwds::latex_size, LexType::Num),
            ("position", ConfigKwds::latex_position, LexType::Arr),
            ("color", ConfigKwds::latex_color, LexType::Arr),
            ("style", ConfigKwds::latex_style, LexType::Str),
            ("margin", ConfigKwds::latex_margin, LexType::Num),
        ];
        assert(table_view(table@) =~= tex_table());
        config = match gen_config_func(parser_cursor, &table, "#tex") {
            Err(h) => {
                return Err(h);
            },
            Ok(c) => c,
        };
        parser_cursor.next();
    } else {
        is_keyword(parser_cursor, "#tex", false);
    }
    let row = parser_cursor.row();
    if parser_cursor.cur() != '{' {
        let data = match gather_value(parser_cursor, LexType::SlideStr, None) {
            Err(h) => {
                return Err(h);
            },
            Ok(v) => v,
        };
        return Ok(SlideData { config: Some(config), kwd: ConfigKwds::latex, data: data, text_row: row });
    }
    parser_cursor.next();
    let ghost s0 = parser_cursor.spot();
    let ghost cfg = config@;
    let mut data_string = String::new();
    loop
        invariant
            parser_cursor.wf(),
            parser_cursor.text() == t,
            t == old(parser_cursor).text(),
            t.len() > 0,
            config@ == cfg,
            tex_elem(t, old(parser_cursor).spot()) == (match tex_loop(t, s0, seq![]) {
                Err(h) => Err(h),
                Ok((acc, e)) => Ok((
                    SlideDataV { config: Some(cfg), kwd: ConfigKwds::latex, data: ValueV::Str(acc), text_row: row as nat },
                    e,
                )),
            }),
            tex_loop(t, parser_cursor.spot(), data_string@) == tex_loop(t, s0, seq![]),
        decreases
            t.len() - parser_cursor.spot().pos,
            if parser_cursor.spot().prev == parser_cursor.spot().pos { 0int } else { 1int },
    {
        let start_pos = parser_cursor.pos();
        let start_prev = parser_cursor.prev_pos();
        if parser_cursor.cur() == '}' {
            return Ok(SlideData {
                config: Some(config),
                kwd: ConfigKwds::latex,
                data: ValueType::Str(data_string),
                text_row: row,
            });
        }
        match gather_value(parser_cursor, LexType::SlideStr, None) {
            Err(h) => {
                return Err(h);
            },
            Ok(v) => {
                match v {
                    ValueType::Str(s) => {
                        push_str(&mut data_string, &s);
                    },
                    _ => {},
                }
            },
        }
        parser_cursor.next();
        let now_pos = parser_cursor.pos();
        let now_prev = parser_cursor.prev_pos();
        if !(start_pos < now_pos || (now_pos == start_pos && now_prev == now_pos && start_prev
            != start_pos)) {
            return Err(ParseHalt::Endless);
        }
    }
}

} // verus!
