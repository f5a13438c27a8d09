use vstd::prelude::*;

use crate::cursor::{back, peek_at, step, step_char, ParserCursor, Spot};
use crate::document::{
    slide_seq_view, Card, CardV, ConfigCard, ConfigDataV, ConfigKwds, LexType, ParseHalt,
    SlideCard, SlideCardV, SlideData, SlideDataV, ValueV,
};
use crate::elements::{
    font_elems, font_func, header_elem, header_func, image_elem, image_func, lemma_font_forward,
    lemma_header_forward, lemma_image_forward, lemma_tex_forward, reversed, row_at, slide_outcome,
    slides_outcome, tex_elem, tex_func, text_item,
};
use crate::lexer::{
    ends_ahead, gather, gather_value, is_keyword, keyword_at, lemma_gather_forward, lemma_scan_forward,
    moved, ok_spot,
};
use crate::parser::{gen_config, gen_config_func, lemma_gen_config_forward, table_view};
use crate::document::card_seq_view;
use crate::preprocess::{remove_comments, replace_all, replace_bullet, replace_divs, replace_newline, strip_comments};

verus! {

broadcast use vstd::string::group_string_axioms;

pub open spec fn one(r: Result<(SlideDataV, Spot), ParseHalt>) -> Result<(Seq<SlideDataV>, Spot), ParseHalt> {
    match r {
        Err(h) => Err(h),
        Ok((d, e)) => Ok((seq![d], e)),
    }
}

pub open spec fn rev_items(r: Result<(Seq<SlideDataV>, Spot), ParseHalt>) -> Result<(Seq<SlideDataV>, Spot), ParseHalt> {
    match r {
        Err(h) => Err(h),
        Ok((d, e)) => Ok((d.reverse(), e)),
    }
}

/// The element named at `s` by `#font(`, `#image(`, `#tex(`, `#tex` or
/// `#head`, in the order the items are added to a slide; `None` when no
/// such name is there.
pub open spec fn plain_element(t: Seq<char>, s: Spot) -> Option<Result<(Seq<SlideDataV>, Spot), ParseHalt>> {
    if keyword_at(t, s, "#font("@, true).0 {
        Some(rev_items(font_elems(t, s)))
    } else if keyword_at(t, s, "#image("@, true).0 {
        Some(one(image_elem(t, s)))
    } else if keyword_at(t, s, "#tex("@, true).0 || keyword_at(t, s, "#tex"@, true).0 {
        Some(one(tex_elem(t, s)))
    } else if keyword_at(t, s, "#head"@, true).0 {
        Some(one(header_elem(t, s)))
    } else {
        None
    }
}

/// Plain text at `s`, with the given settings; its row is the one the text
/// starts on.
pub open spec fn text_element(t: Seq<char>, s: Spot, cfg: Option<Seq<ConfigDataV>>, braced: bool) -> Result<(Seq<SlideDataV>, Spot), ParseHalt> {
    match gather(t, s, LexType::SlideStr, if braced { Some(LexType::Braced) } else { None }) {
        Err(h) => Err(h),
        Ok((v, e)) => Ok((seq![text_item(cfg, v, row_at(t, s))], e)),
    }
}

/// Reading a named element ends at or after where it started.
pub proof fn lemma_plain_forward(t: Seq<char>, s: Spot)
    requires
        ok_spot(t, s),
    ensures
        plain_element(t, s) matches Some(r) ==> ends_ahead(t, s, r),
{
    lemma_font_forward(t, s);
    lemma_image_forward(t, s);
    lemma_tex_forward(t, s);
    lemma_header_forward(t, s);
}

/// Reading plain text ends at or after where it started.
pub proof fn lemma_text_forward(t: Seq<char>, s: Spot, cfg: Option<Seq<ConfigDataV>>, braced: bool)
    requires
        ok_spot(t, s),
    ensures
        ends_ahead(t, s, text_element(t, s, cfg, braced)),
{
    lemma_gather_forward(t, s, LexType::SlideStr, if braced { Some(LexType::Braced) } else { None });
}

/// An element of a div, read at `s`.
pub open spec fn div_item(t: Seq<char>, s: Spot, cfg: Seq<ConfigDataV>) -> Result<(Seq<SlideDataV>, Spot), ParseHalt> {
    match plain_element(t, s) {
        Some(r) => r,
        None => text_element(t, s, Some(cfg), true),
    }
}

/// Reading an element of a div ends at or after where it started.
pub proof fn lemma_div_item_forward(t: Seq<char>, s: Spot, cfg: Seq<ConfigDataV>)
    requires
        ok_spot(t, s),
    ensures
        ends_ahead(t, s, div_item(t, s, cfg)),
{
    lemma_plain_forward(t, s);
    lemma_text_forward(t, s, Some(cfg), true);
}

/// The settings a div takes.
pub open spec fn div_table() -> Seq<(Seq<char>, ConfigKwds, LexType)> {
    seq![
        ("size"@, ConfigKwds::font_size, LexType::Num),
        ("pos_x"@, ConfigKwds::div_x, LexType::Num),
        ("pos_y"@, ConfigKwds::div_y, LexType::Num),
        ("height"@, ConfigKwds::div_height, LexType::Num),
        ("width"@, ConfigKwds::div_width, LexType::Num),
        ("position"@, ConfigKwds::div_position, LexType::Arr),
        ("align"@, ConfigKwds::div_align, LexType::Str),
        ("background_color"@, ConfigKwds::div_background_color, LexType::Arr),
    ]
}

/// The elements of a div, up to `}` or the end of the text.  Each round
/// first steps forward.
pub open spec fn div_loop(t: Seq<char>, s: Spot, cfg: Seq<ConfigDataV>, acc: Seq<SlideDataV>) -> Result<(Seq<SlideDataV>, Spot), ParseHalt>
    decreases t.len() - s.pos,
    when ok_spot(t, s)
{
    let s1 = step(t, s);
    match div_item(t, s1, cfg) {
        Err(h) => Err(h),
        Ok((items, s2)) => {
            let acc2 = acc + items;
            match step_char(t, s2) {
                None => Ok((acc2, step(t, s2))),
                Some(c) => if c == '}' {
                    Ok((acc2, step(t, s2)))
                } else {
                    proof {
                        lemma_div_item_forward(t, s1, cfg);
                    }
                    div_loop(t, step(t, s2), cfg, acc2)
                },
            }
        },
    }
}

/// Reading the elements of a div ends at or after where it started.
pub proof fn lemma_div_loop_forward(t: Seq<char>, s: Spot, cfg: Seq<ConfigDataV>, acc: Seq<SlideDataV>)
    requires
        ok_spot(t, s),
    ensures
        ends_ahead(t, s, div_loop(t, s, cfg, acc)),
    decreases t.len() - s.pos,
{
    let s1 = step(t, s);
    lemma_div_item_forward(t, s1, cfg);
    match div_item(t, s1, cfg) {
        Ok((items, s2)) => {
            if step_char(t, s2) is Some && step_char(t, s2) != Some('}') {
                lemma_div_loop_forward(t, step(t, s2), cfg, acc + items);
            }
        },
        _ => {},
    }
}

/// An element of a div gets the div's settings after its own.
pub open spec fn attach_one(d: SlideDataV, cfg: Seq<ConfigDataV>) -> SlideDataV {
    SlideDataV {
        config: Some(
            match d.config {
                Some(c) => c + cfg,
                None => cfg,
            },
        ),
        kwd: d.kwd,
        data: d.data,
        text_row: d.text_row,
    }
}

pub open spec fn attach(items: Seq<SlideDataV>, cfg: Seq<ConfigDataV>) -> Seq<SlideDataV> {
    items.map_values(|d: SlideDataV| attach_one(d, cfg))
}

/// `#div(...){...}`: the elements of the div, each with the div's settings,
/// last element first.  Without a brace after the settings there are none.
pub open spec fn div_elems(t: Seq<char>, s: Spot) -> Result<(Seq<SlideDataV>, Spot), ParseHalt> {
    match gen_config(t, s, div_table(), "#div"@) {
        Err(h) => Err(h),
        Ok((cfg, s1)) => if step_char(t, s1) != Some('{') {
            Ok((seq![], step(t, s1)))
        } else {
            match div_loop(t, step(t, s1), cfg, seq![]) {
                Err(h) => Err(h),
                Ok((items, e)) => Ok((attach(items, cfg).reverse(), e)),
            }
        },
    }
}

/// Reading a div ends at or after where it started.
pub proof fn lemma_div_forward(t: Seq<char>, s: Spot)
    requires
        ok_spot(t, s),
    ensures
        ends_ahead(t, s, div_elems(t, s)),
{
    lemma_gen_config_forward(t, s, div_table(), "#div"@);
    match gen_config(t, s, div_table(), "#div"@) {
        Ok((cfg, s1)) => {
            if step_char(t, s1) == Some('{') {
                lemma_div_loop_forward(t, step(t, s1), cfg, seq![]);
            }
        },
        _ => {},
    }
}

fn one_item(r: Result<SlideData, ParseHalt>) -> (out: Result<Vec<SlideData>, ParseHalt>)
    ensures
        match r {
            Err(h) => out == Err::<Vec<SlideData>, ParseHalt>(h),
            Ok(d) => out matches Ok(v) && slide_seq_view(v@) == seq![d@],
        },
{
    match r {
        Err(h) => Err(h),
        Ok(d) => {
            let mut v: Vec<SlideData> = Vec::new();
            v.push(d);
            Ok(v)
        },
    }
}

/// Reads the element named at the cursor by `#font(`, `#image(`, `#tex(`,
/// `#tex` or `#head`; `None`, with the cursor unmoved, when there is none.
fn plain_element_func(parser_cursor: &mut ParserCursor) -> (r: Option<Result<Vec<SlideData>, ParseHalt>>)
    requires
        old(parser_cursor).wf(),
        old(parser_cursor).text().len() > 0,
    ensures
        match plain_element(old(parser_cursor).text(), old(parser_cursor).spot()) {
            None => r is None && final(parser_cursor).wf() && final(parser_cursor).text() == old(
                parser_cursor,
            ).text() && final(parser_cursor).spot() == old(parser_cursor).spot(),
            Some(x) => r matches Some(y) && slides_outcome(y, *final(parser_cursor), old(parser_cursor).text(), x),
        },
{
    if is_keyword(parser_cursor, "#font(", true) {
        match font_func(parser_cursor) {
            Err(h) => Some(Err(h)),
            Ok(fd) => Some(Ok(reversed(fd))),
        }
    } else if is_keyword(parser_cursor, "#image(", true) {
        Some(one_item(image_func(parser_cursor)))
    } else if is_keyword(parser_cursor, "#tex(", true) || is_keyword(parser_cursor, "#tex", true) {
        Some(one_item(tex_func(parser_cursor)))
    } else if is_keyword(parser_cursor, "#head", true) {
        Some(one_item(header_func(parser_cursor)))
    } else {
        None
    }
}

/// Plain text at the cursor, with the given settings.
fn text_element_func(parser_cursor: &mut ParserCursor, config: Option<ConfigCard>, braced: bool) -> (r: Result<Vec<SlideData>, ParseHalt>)
    requires
        old(parser_cursor).wf(),
        old(parser_cursor).text().len() > 0,
    ensures
        slides_outcome(r, *final(parser_cursor), old(parser_cursor).text(),
            text_element(old(parser_cursor).text(), old(parser_cursor).spot(), crate::document::opt_config_view(config), braced)),
{
    let row = parser_cursor.row();
    let data = match gather_value(parser_cursor, LexType::SlideStr, if braced { Some(LexType::Braced) } else { None }) {
        Err(h) => {
            return Err(h);
        },
        Ok(v) => v,
    };
    one_item(Ok(SlideData { config: config, kwd: ConfigKwds::text, data: data, text_row: row }))
}

/// Moves the items of `src` to the end of `dst`, in order.
fn append_items(dst: &mut Vec<SlideData>, src: Vec<SlideData>)
    ensures
        slide_seq_view(final(dst)@) == slide_seq_view(old(dst)@) + slide_seq_view(src@),
{
    let mut src = src;
    let ghost a = dst@;
    let ghost b = src@;
    dst.append(&mut src);
}

/// The div's settings after the element's own.
fn attach_config(mut d: SlideData, config: &ConfigCard) -> (r: SlideData)
    ensures
        r@ == attach_one(d@, config@),
{
    let extra = config.duplicate();
    match d.config {
        Some(c) => {
            let mut c = c;
            let mut extra = extra;
            let ghost a = c@;
            let ghost b = extra@;
            c.config_data.append(&mut extra.config_data);
            assert(c@ =~= a + b);
            SlideData { config: Some(c), kwd: d.kwd, data: d.data, text_row: d.text_row }
        },
        None => SlideData { config: Some(extra), kwd: d.kwd, data: d.data, text_row: d.text_row },
    }
}

/// The elements of a div with the div's settings attached, last first.
fn finish_div(data: Vec<SlideData>, config: &ConfigCard) -> (r: Vec<SlideData>)
    ensures
        slide_seq_view(r@) == attach(slide_seq_view(data@), config@).reverse(),
{
    let ghost items = slide_seq_view(data@);
    let ghost cfg = config@;
    let mut pending = reversed(data);
    let mut out: Vec<SlideData> = Vec::new();
    while pending.len() > 0
        invariant
            config@ == cfg,
            slide_seq_view(out@).len() <= items.len(),
            slide_seq_view(pending@) == items.skip(slide_seq_view(out@).len() as int).reverse(),
            slide_seq_view(out@) == attach(items, cfg).take(slide_seq_view(out@).len() as int),
        decreases pending.len(),
    {
        let ghost k: int = slide_seq_view(out@).len() as int;
        let ghost pv = slide_seq_view(pending@);
        let d = pending.pop().unwrap();
        assert(items.skip(k).reverse().last() == items[k]);
        let d2 = attach_config(d, &config);
        out.push(d2);
        assert(pv.drop_last() =~= items.skip(k + 1).reverse());
    }
    reversed(out)
}

/// Reads `#div(...){...}`: the elements of the div with the div's settings,
/// last element first.
pub fn div_func(parser_cursor: &mut ParserCursor) -> (r: Result<Vec<SlideData>, ParseHalt>)
    requires
        old(parser_cursor).wf(),
        old(parser_cursor).text().len() > 0,
        keyword_at(old(parser_cursor).text(), old(parser_cursor).spot(), "#div("@, true).0,
    ensures
        slides_outcome(r, *final(parser_cursor), old(parser_cursor).text(),
            div_elems(old(parser_cursor).text(), old(parser_cursor).spot())),
{
    let ghost t = parser_cursor.text();
    let mut data: Vec<SlideData> = Vec::new();
    let table = [
        ("size", ConfigKwds::font_size, LexType::Num),
        ("pos_x", ConfigKwds::div_x, LexType::Num),
        ("pos_y", ConfigKwds::div_y, LexType::Num),
        ("height", ConfigKwds::div_height, LexType::Num),
        ("width", ConfigKwds::div_width, LexType::Num),
        ("position", ConfigKwds::div_position, LexType::Arr),
        ("align", ConfigKwds::div_align, LexType::Str),
        ("background_color", ConfigKwds::div_background_color, LexType::Arr),
    ];
    assert(table_view(table@) =~= div_table());
    let config = match gen_config_func(parser_cursor, &table, "#div") {
        Err(h) => {
            return Err(h);
        },
        Ok(c) => c,
    };
    let ghost cfg = config@;
    if parser_cursor.next() != Some('{') {
        assert(slide_seq_view(data@) =~= seq![]);
        return Ok(data);
    }
    let ghost s0 = parser_cursor.spot();
    loop
        invariant
            parser_cursor.wf(),
            parser_cursor.text() == t,
            t == old(parser_cursor).text(),
            t.len() > 0,
            config@ == cfg,
            div_elems(t, old(parser_cursor).spot()) == (match div_loop(t, s0, cfg, seq![]) {
                Err(h) => Err(h),
                Ok((items, e)) => Ok((attach(items, cfg).reverse(), e)),
            }),
            div_loop(t, parser_cursor.spot(), cfg, slide_seq_view(data@)) == div_loop(t, s0, cfg, seq![]),
        decreases t.len() - parser_cursor.spot().pos,
    {
        let ghost s = parser_cursor.spot();
        parser_cursor.next();
        proof {
            lemma_div_item_forward(t, parser_cursor.spot(), cfg);
        }
        let items = match plain_element_func(parser_cursor) {
            Some(res) => res,
            None => text_element_func(parser_cursor, Some(config.duplicate()), true),
        };
        let items = match items {
            Err(h) => {
                return Err(h);
            },
            Ok(v) => v,
        };
        append_items(&mut data, items);
        match parser_cursor.next() {
            None => {
                return Ok(finish_div(data, &config));
            },
            Some(c) => {
                if c == '}' {
                    return Ok(finish_div(data, &config));
                }
            },
        }
    }
}

/// The element at `s` on a slide: a named element, a div, or plain text.
/// With `row_after`, plain text takes the row its text ends on.
pub open spec fn slide_element(t: Seq<char>, s: Spot, row_after: bool) -> Result<(Seq<SlideDataV>, Spot), ParseHalt> {
    match plain_element(t, s) {
        Some(r) => r,
        None => if keyword_at(t, s, "#div("@, true).0 {
            rev_items(div_elems(t, s))
        } else if row_after {
            match gather(t, s, LexType::SlideStr, None) {
                Err(h) => Err(h),
                Ok((v, e)) => Ok((seq![text_item(None, v, row_at(t, e))], e)),
            }
        } else {
            text_element(t, s, None, false)
        },
    }
}

/// Reading an element of a slide ends at or after where it started.
pub proof fn lemma_slide_element_forward(t: Seq<char>, s: Spot, row_after: bool)
    requires
        ok_spot(t, s),
    ensures
        ends_ahead(t, s, slide_element(t, s, row_after)),
{
    lemma_plain_forward(t, s);
    lemma_div_forward(t, s);
    lemma_gather_forward(t, s, LexType::SlideStr, None);
    lemma_text_forward(t, s, None, false);
}

/// Reads the element at the cursor on a slide.
fn slide_element_func(parser_cursor: &mut ParserCursor, row_after: bool) -> (r: Result<Vec<SlideData>, ParseHalt>)
    requires
        old(parser_cursor).wf(),
        old(parser_cursor).text().len() > 0,
    ensures
        slides_outcome(r, *final(parser_cursor), old(parser_cursor).text(),
            slide_element(old(parser_cursor).text(), old(parser_cursor).spot(), row_after)),
{
    match plain_element_func(parser_cursor) {
        Some(res) => res,
        None => {
            if is_keyword(parser_cursor, "#div(", true) {
                match div_func(parser_cursor) {
                    Err(h) => Err(h),
                    Ok(d) => Ok(reversed(d)),
                }
            } else if row_after {
                let data = match gather_value(parser_cursor, LexType::SlideStr, None) {
                    Err(h) => {
                        return Err(h);
                    },
                    Ok(v) => v,
                };
                let row = parser_cursor.row();
                one_item(Ok(SlideData { config: None, kwd: ConfigKwds::text, data: data, text_row: row }))
            } else {
                text_element_func(parser_cursor, None, false)
            }
        },
    }
}

/// Reads the element at the cursor, as a slide does, but giving plain text
/// the row its text ends on.
pub fn return_slide_data(parser_cursor: &mut ParserCursor) -> (r: Result<Vec<SlideData>, ParseHalt>)
    requires
        old(parser_cursor).wf(),
        old(parser_cursor).text().len() > 0,
    ensures
        slides_outcome(r, *final(parser_cursor), old(parser_cursor).text(),
            slide_element(old(parser_cursor).text(), old(parser_cursor).spot(), true)),
{
    slide_element_func(parser_cursor, true)
}

/// The settings `#slide(...)` takes.
pub open spec fn slide_table() -> Seq<(Seq<char>, ConfigKwds, LexType)> {
    seq![
        ("background_color"@, ConfigKwds::slide_background_color, LexType::Arr),
        ("width"@, ConfigKwds::slide_width, LexType::Num),
        ("height"@, ConfigKwds::slide_height, LexType::Num),
        ("align"@, ConfigKwds::align, LexType::Str),
        ("valign"@, ConfigKwds::valign, LexType::Str),
        ("text_position"@, ConfigKwds::text_position, LexType::Arr),
        ("text_margin"@, ConfigKwds::text_margin, LexType::Num),
        ("font_color"@, ConfigKwds::font_color, LexType::Arr),
    ]
}

/// The settings `#config(...)` takes.
pub open spec fn config_table() -> Seq<(Seq<char>, ConfigKwds, LexType)> {
    seq![
        ("width"@, ConfigKwds::slide_width, LexType::Num),
        ("height"@, ConfigKwds::slide_height, LexType::Num),
        ("background_color"@, ConfigKwds::slide_background_color, LexType::Arr),
        ("align"@, ConfigKwds::align, LexType::Str),
        ("valign"@, ConfigKwds::valign, LexType::Str),
        ("font"@, ConfigKwds::font, LexType::Str),
        ("font_color"@, ConfigKwds::font_color, LexType::Arr),
        ("text_position"@, ConfigKwds::text_position, LexType::Arr),
        ("font_size"@, ConfigKwds::font_size, LexType::Num),
    ]
}

/// Reads the settings of `#slide(...)`.
pub fn slide_config(parser_cursor: &mut ParserCursor) -> (r: Result<ConfigCard, ParseHalt>)
    requires
        old(parser_cursor).wf(),
        old(parser_cursor).text().len() > 0,
    ensures
        crate::parser::config_outcome(r, *final(parser_cursor), old(parser_cursor).text(),
            gen_config(old(parser_cursor).text(), old(parser_cursor).spot(), slide_table(), "#slide"@)),
{
    let table = [
        ("background_color", ConfigKwds::slide_background_color, LexType::Arr),
        ("width", ConfigKwds::slide_width, LexType::Num),
        ("height", ConfigKwds::slide_height, LexType::Num),
        ("align", ConfigKwds::align, LexType::Str),
        ("valign", ConfigKwds::valign, LexType::Str),
        ("text_position", ConfigKwds::text_position, LexType::Arr),
        ("text_margin", ConfigKwds::text_margin, LexType::Num),
        ("font_color", ConfigKwds::font_color, LexType::Arr),
    ];
    assert(table_view(table@) =~= slide_table());
    gen_config_func(parser_cursor, &table, "#slide")
}

/// `#config(...)`: the document-wide settings.
pub open spec fn config_card(t: Seq<char>, s: Spot) -> Result<(CardV, Spot), ParseHalt> {
    match gen_config(t, s, config_table(), "#config"@) {
        Err(h) => Err(h),
        Ok((c, e)) => Ok((CardV::ConfigCard(c), e)),
    }
}

pub open spec fn card_outcome(r: Result<Card, ParseHalt>, c: ParserCursor, t: Seq<char>, expect: Result<(CardV, Spot), ParseHalt>) -> bool {
    match expect {
        Ok((v, e)) => r matches Ok(x) && x@ == v && c.wf() && c.text() == t && c.spot() == e,
        Err(h) => r == Err::<Card, ParseHalt>(h),
    }
}

/// Reads `#config(...)`.
pub fn config_func(parser_cursor: &mut ParserCursor) -> (r: Result<Card, ParseHalt>)
    requires
        old(parser_cursor).wf(),
        old(parser_cursor).text().len() > 0,
    ensures
        card_outcome(r, *final(parser_cursor), old(parser_cursor).text(),
            config_card(old(parser_cursor).text(), old(parser_cursor).spot())),
{
    let table = [
        ("width", ConfigKwds::slide_width, LexType::Num),
        ("height", ConfigKwds::slide_height, LexType::Num),
        ("background_color", ConfigKwds::slide_background_color, LexType::Arr),
        ("align", ConfigKwds::align, LexType::Str),
        ("valign", ConfigKwds::valign, LexType::Str),
        ("font", ConfigKwds::font, LexType::Str),
        ("font_color", ConfigKwds::font_color, LexType::Arr),
        ("text_position", ConfigKwds::text_position, LexType::Arr),
        ("font_size", ConfigKwds::font_size, LexType::Num),
    ];
    assert(table_view(table@) =~= config_table());
    match gen_config_func(parser_cursor, &table, "#config") {
        Err(h) => Err(h),
        Ok(c) => Ok(Card::ConfigCard(c)),
    }
}

/// The rounds of a slide: the first `#slide` (with its settings, if any)
/// starts it, each round then reads one element, and the next `#slide`
/// ends it, the cursor stepping back once.
pub open spec fn slide_rounds(t: Seq<char>, s: Spot, init: bool, cfg: Option<Seq<ConfigDataV>>, data: Seq<SlideDataV>) -> Result<(SlideCardV, Spot), ParseHalt>
    decreases t.len() - s.pos, if init { 0int } else { 1int }, if s.prev == s.pos { 0int } else { 1int },
    when ok_spot(t, s)
{
    let at_slide = t[s.pos] == '#' && keyword_at(t, s, "#slide"@, true).0;
    if at_slide && init {
        Ok((SlideCardV { config: cfg, slide_data: data }, back(s)))
    } else {
        let head: Result<(Spot, Option<Seq<ConfigDataV>>), ParseHalt> = if at_slide {
            if keyword_at(t, s, "#slide("@, true).0 {
                match gen_config(t, s, slide_table(), "#slide"@) {
                    Err(h) => Err(h),
                    Ok((c, s1)) => Ok((step(t, s1), Some(c))),
                }
            } else {
                Ok((keyword_at(t, s, "#slide"@, false).1, cfg))
            }
        } else {
            Ok((s, cfg))
        };
        let init2 = init || at_slide;
        match head {
            Err(h) => Err(h),
            Ok((sh, cfg2)) => {
                let body = if init2 {
                    slide_element(t, sh, false)
                } else {
                    Ok((seq![], sh))
                };
                match body {
                    Err(h) => Err(h),
                    Ok((items, sb)) => {
                        let data2 = data + items;
                        if step_char(t, sb) is None {
                            Ok((SlideCardV { config: cfg2, slide_data: data2 }, step(t, sb)))
                        } else if moved(t, s, init, step(t, sb), init2) {
                            slide_rounds(t, step(t, sb), init2, cfg2, data2)
                        } else {
                            Err(ParseHalt::Endless)
                        }
                    },
                }
            },
        }
    }
}

/// Reading the rounds of a slide ends no earlier than `lo`, when the rounds
/// start there, and once a round has been read, also stood there before.
pub proof fn lemma_rounds_forward(t: Seq<char>, s: Spot, init: bool, cfg: Option<Seq<ConfigDataV>>, data: Seq<SlideDataV>, lo: int)
    requires
        ok_spot(t, s),
        s.pos >= lo,
        init ==> s.prev >= lo,
    ensures
        slide_rounds(t, s, init, cfg, data) matches Ok((_, e)) ==> ok_spot(t, e) && e.pos >= lo,
    decreases t.len() - s.pos, if init { 0int } else { 1int }, if s.prev == s.pos { 0int } else { 1int },
{
    let at_slide = t[s.pos] == '#' && keyword_at(t, s, "#slide"@, true).0;
    if !(at_slide && init) {
        lemma_gen_config_forward(t, s, slide_table(), "#slide"@);
        lemma_scan_forward(t, s, "#slide"@, 0);
        let head: Result<(Spot, Option<Seq<ConfigDataV>>), ParseHalt> = if at_slide {
            if keyword_at(t, s, "#slide("@, true).0 {
                match gen_config(t, s, slide_table(), "#slide"@) {
                    Err(h) => Err(h),
                    Ok((c, s1)) => Ok((step(t, s1), Some(c))),
                }
            } else {
                Ok((keyword_at(t, s, "#slide"@, false).1, cfg))
            }
        } else {
            Ok((s, cfg))
        };
        let init2 = init || at_slide;
        match head {
            Ok((sh, cfg2)) => {
                lemma_slide_element_forward(t, sh, false);
                let body = if init2 {
                    slide_element(t, sh, false)
                } else {
                    Ok((seq![], sh))
                };
                match body {
                    Ok((items, sb)) => {
                        if step_char(t, sb) is Some && moved(t, s, init, step(t, sb), init2) {
                            lemma_rounds_forward(t, step(t, sb), init2, cfg2, data + items, lo);
                        }
                    },
                    _ => {},
                }
            },
            _ => {},
        }
    }
}

/// A slide read from `s`.
pub open spec fn slide_card(t: Seq<char>, s: Spot) -> Result<(CardV, Spot), ParseHalt> {
    match slide_rounds(t, s, false, None, seq![]) {
        Err(h) => Err(h),
        Ok((c, e)) => Ok((CardV::SlideCard(c), e)),
    }
}

/// Reads a slide.
pub fn slide_func(parser_cursor: &mut ParserCursor) -> (r: Result<Card, ParseHalt>)
    requires
        old(parser_cursor).wf(),
        old(parser_cursor).text().len() > 0,
    ensures
        card_outcome(r, *final(parser_cursor), old(parser_cursor).text(),
            slide_card(old(parser_cursor).text(), old(parser_cursor).spot())),
{
    let ghost t = parser_cursor.text();
    let ghost s0 = parser_cursor.spot();
    let mut card = SlideCard { config: None, slide_data: Vec::new() };
    let mut init = false;
    loop
        invariant
            parser_cursor.wf(),
            parser_cursor.text() == t,
            t == old(parser_cursor).text(),
            s0 == old(parser_cursor).spot(),
            t.len() > 0,
            slide_rounds(t, parser_cursor.spot(), init, card@.config, card@.slide_data) == slide_rounds(
                t,
                s0,
                false,
                None,
                seq![],
            ),
        decreases
            t.len() - parser_cursor.spot().pos,
            if init { 0int } else { 1int },
            if parser_cursor.spot().prev == parser_cursor.spot().pos { 0int } else { 1int },
    {
        let start_pos = parser_cursor.pos();
        let start_prev = parser_cursor.prev_pos();
        let was_init = init;
        let current_char = parser_cursor.cur();
        if current_char == '#' {
            if is_keyword(parser_cursor, "#slide", true) {
                if init {
                    parser_cursor.previous();
                    return Ok(Card::SlideCard(card));
                }
                init = true;
                if is_keyword(parser_cursor, "#slide(", true) {
                    match slide_config(parser_cursor) {
                        Err(h) => {
                            return Err(h);
                        },
                        Ok(c) => {
                            card.config = Some(c);
                        },
                    }
                    parser_cursor.next();
                } else {
                    is_keyword(parser_cursor, "#slide", false);
                }
            }
        }
        if init {
            match slide_element_func(parser_cursor, false) {
                Err(h) => {
                    return Err(h);
                },
                Ok(items) => {
                    append_items(&mut card.slide_data, items);
                },
            }
        }
        if parser_cursor.next().is_none() {
            return Ok(Card::SlideCard(card));
        }
        let now_pos = parser_cursor.pos();
        let now_prev = parser_cursor.prev_pos();
        if !(start_pos < now_pos || (now_pos == start_pos && !was_init && init) || (now_pos
            == start_pos && was_init == init && now_prev == now_pos && start_prev != start_pos)) {
            return Err(ParseHalt::Endless);
        }
    }
}

/// What is read at `s` at the top level: a slide when `#slide` is there,
/// then settings when `#config` is where that leaves the cursor; nothing
/// otherwise.
pub open spec fn read_card(t: Seq<char>, s: Spot) -> Result<(CardV, Spot), ParseHalt> {
    if t[s.pos] == '#' {
        let first = if keyword_at(t, s, "#slide"@, true).0 {
            slide_card(t, s)
        } else {
            Ok((CardV::Default, s))
        };
        match first {
            Err(h) => Err(h),
            Ok((card, e)) => if keyword_at(t, e, "#config"@, true).0 {
                config_card(t, e)
            } else {
                Ok((card, e))
            },
        }
    } else {
        Ok((CardV::Default, s))
    }
}

/// Reading at the top level ends at or after where it started.
pub proof fn lemma_read_card_forward(t: Seq<char>, s: Spot)
    requires
        ok_spot(t, s),
    ensures
        ends_ahead(t, s, read_card(t, s)),
{
    if t[s.pos] == '#' {
        lemma_rounds_forward(t, s, false, None, seq![], s.pos);
        let first = if keyword_at(t, s, "#slide"@, true).0 {
            slide_card(t, s)
        } else {
            Ok((CardV::Default, s))
        };
        match first {
            Ok((card, e)) => {
                lemma_gen_config_forward(t, e, config_table(), "#config"@);
            },
            _ => {},
        }
    }
}

/// Whether `#slide` starts at the cursor; the cursor does not move.
pub fn is_slide(parser_cursor: &mut ParserCursor) -> (r: bool)
    requires
        old(parser_cursor).wf(),
        old(parser_cursor).text().len() > 0,
    ensures
        final(parser_cursor).wf(),
        final(parser_cursor).text() == old(parser_cursor).text(),
        final(parser_cursor).spot() == old(parser_cursor).spot(),
        r == keyword_at(old(parser_cursor).text(), old(parser_cursor).spot(), "#slide"@, true).0,
{
    is_keyword(parser_cursor, "#slide", true)
}

/// Whether `#config` starts at the cursor; the cursor does not move.
pub fn is_config(parser_cursor: &mut ParserCursor) -> (r: bool)
    requires
        old(parser_cursor).wf(),
        old(parser_cursor).text().len() > 0,
    ensures
        final(parser_cursor).wf(),
        final(parser_cursor).text() == old(parser_cursor).text(),
        final(parser_cursor).spot() == old(parser_cursor).spot(),
        r == keyword_at(old(parser_cursor).text(), old(parser_cursor).spot(), "#config"@, true).0,
{
    is_keyword(parser_cursor, "#config", true)
}

/// Reads what starts at the cursor at the top level of a document.
pub fn read_contents(parser_cursor: &mut ParserCursor) -> (r: Result<Card, ParseHalt>)
    requires
        old(parser_cursor).wf(),
        old(parser_cursor).text().len() > 0,
    ensures
        card_outcome(r, *final(parser_cursor), old(parser_cursor).text(),
            read_card(old(parser_cursor).text(), old(parser_cursor).spot())),
{
    let mut card = Card::Default;
    let current_char = parser_cursor.cur();
    if current_char == '#' {
        if is_slide(parser_cursor) {
            card = match slide_func(parser_cursor) {
                Err(h) => {
                    return Err(h);
                },
                Ok(c) => c,
            };
        }
        if is_config(parser_cursor) {
            card = match config_func(parser_cursor) {
                Err(h) => {
                    return Err(h);
                },
                Ok(c) => c,
            };
        }
    }
    Ok(card)
}

/// The cards of a document, from spot `s` on: at each stop what is read
/// there, if anything, then one step; the reading ends when no step is left
/// or nothing lies ahead.
pub open spec fn doc_loop(t: Seq<char>, s: Spot, acc: Seq<CardV>) -> Result<Seq<CardV>, ParseHalt>
    decreases t.len() - s.pos,
    when ok_spot(t, s)
{
    match read_card(t, s) {
        Err(h) => Err(h),
        Ok((card, e)) => {
            let acc2 = if card is Default { acc } else { acc.push(card) };
            if step_char(t, e) is None {
                Ok(acc2)
            } else if peek_at(t, step(t, e)) is None {
                Ok(acc2)
            } else {
                proof {
                    lemma_read_card_forward(t, s);
                }
                doc_loop(t, step(t, e), acc2)
            }
        },
    }
}

/// The cards of a prepared text.
pub open spec fn document_cards(t: Seq<char>) -> Result<Seq<CardV>, ParseHalt> {
    if t.len() == 0 {
        Err(ParseHalt::ReadPastEnd)
    } else {
        doc_loop(t, Spot { pos: 0, prev: 0 }, seq![])
    }
}

/// A text prepared for reading: comments taken out, then `#newline`,
/// `#bul ` and the half-slide divs written out.
pub open spec fn prepare(t: Seq<char>) -> Seq<char> {
    let a = strip_comments(t);
    let b = replace_all(a, "#newline"@, "\n"@);
    let c = replace_all(b, "\n#bul "@, "\n\n\u{2022} "@);
    let d = replace_all(c, "\n#left_div{"@, "\n#div(position=[0.05, 0.8], width=0.4, align=\"left\"){"@);
    replace_all(d, "\n#right_div{"@, "\n#div(position=[0.505, 0.8], width=0.4, align=\"left\"){"@)
}

/// The document read when none is given.
pub open spec fn example_document() -> Seq<char> {
    "
//Thoth Gunter
//Rust style comments

//Currently in temp

#config(
width = 254.0,
height = 190.5,
background_color = [100,0,100], //array style
font = [\"Times\", \"ASDF/aSDFA/FASDFA\"],
font_color = [200, 200, 200],
font_size = 32.0,
align = \"center\"
extern= \"/path\"
)


#slide
#header1 We can do headers #font(color=[200, 20, 10]) too!

We can write a slide like this. 
No need for a bracketted structure.

We can create a paragraph with consecutive \\n\\n.
We can create a new line with #newline

#slide
#div(width=0.5, pos_x=0.1){
ASDFTHOM
#font(color=[1,0,0]) Birds

Yup
}

#slide
#left_div{
SDFOMER #newline
ERADOFM
}
"@
}

/// The document to read: the given one, or the example.
pub open spec fn source_text(input: Option<String>) -> Seq<char> {
    match input {
        Some(s) => s@,
        None => example_document(),
    }
}

/// The cards of a document, or why reading it stops short.
pub open spec fn document_result(input: Option<String>) -> Result<Seq<CardV>, ParseHalt> {
    document_cards(prepare(source_text(input)))
}

fn example_string() -> (s: String)
    ensures
        s@ == example_document(),
{
    "
//Thoth Gunter
//Rust style comments

//Currently in temp

#config(
width = 254.0,
height = 190.5,
background_color = [100,0,100], //array style
font = [\"Times\", \"ASDF/aSDFA/FASDFA\"],
font_color = [200, 200, 200],
font_size = 32.0,
align = \"center\"
extern= \"/path\"
)


#slide
#header1 We can do headers #font(color=[200, 20, 10]) too!

We can write a slide like this. 
No need for a bracketted structure.

We can create a paragraph with consecutive \\n\\n.
We can create a new line with #newline

#slide
#div(width=0.5, pos_x=0.1){
ASDFTHOM
#font(color=[1,0,0]) Birds

Yup
}

#slide
#left_div{
SDFOMER #newline
ERADOFM
}
".to_string()
}

/// Reads a document, or the example document when none is given, into its
/// slides and settings; says why when the reading stops short.
pub fn parse_document(input_string: Option<String>) -> (r: Result<Vec<Card>, ParseHalt>)
    ensures
        match document_result(input_string) {
            Ok(cards) => r matches Ok(v) && card_seq_view(v@) == cards,
            Err(h) => r == Err::<Vec<Card>, ParseHalt>(h),
        },
{
    let ghost src = source_text(input_string);
    let slide_string = match input_string {
        Some(s) => s,
        None => example_string(),
    };
    let slide_string = remove_comments(slide_string);
    let slide_string = replace_newline(slide_string);
    let slide_string = replace_bullet(slide_string);
    let slide_string = replace_divs(slide_string);
    let mut parser_cursor = ParserCursor::new(slide_string);
    let ghost t = parser_cursor.text();
    if parser_cursor.len() == 0 {
        return Err(ParseHalt::ReadPastEnd);
    }
    let mut document_structure: Vec<Card> = Vec::new();
    assert(card_seq_view(document_structure@) =~= seq![]);
    loop
        invariant
            parser_cursor.wf(),
            parser_cursor.text() == t,
            t == prepare(src),
            src == source_text(input_string),
            t.len() > 0,
            doc_loop(t, parser_cursor.spot(), card_seq_view(document_structure@)) == document_cards(t),
        decreases t.len() - parser_cursor.spot().pos,
    {
        let ghost s = parser_cursor.spot();
        proof {
            lemma_read_card_forward(t, s);
        }
        let card = match read_contents(&mut parser_cursor) {
            Err(h) => {
                return Err(h);
            },
            Ok(c) => c,
        };
        match card {
            Card::Default => {},
            _ => {
                let ghost before = document_structure@;
                let ghost cv = card@;
                document_structure.push(card);
                assert(card_seq_view(document_structure@) =~= card_seq_view(before).push(cv));
            },
        }
        if parser_cursor.next().is_none() {
            return Ok(document_structure);
        }
        if parser_cursor.peek().is_none() {
            return Ok(document_structure);
        }
    }
}

/// Reads a document, or the example document when none is given, into its
/// slides and settings, leaving out what is not a slide or settings.
pub fn construct_document(input_string: Option<String>) -> (r: Vec<Card>)
    requires
        document_result(input_string) is Ok,
    ensures
        document_result(input_string) == Ok::<Seq<CardV>, ParseHalt>(card_seq_view(r@)),
{
    match parse_document(input_string) {
        Ok(v) => v,
        Err(_) => Vec::new(),
    }
}

} // verus!
