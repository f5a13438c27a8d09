use vstd::prelude::*;

use crate::cursor::{back, step, valid_spot, Spot};
use crate::document::{CardV, ConfigDataV, ConfigKwds, LexType, ParseHalt, SlideCardV, SlideDataV, ValueV};
use crate::lexer::{gather, is_digit, keyword_at, kw_scan, num_loop, ok_spot, points, slide_loop, str_loop, ws_skip};
use crate::preprocess::{before_comment, comment_at, line_end, strip_comments, strip_from};
use crate::reader::{attach, div_elems, div_loop, div_table, doc_loop, document_cards, document_result, read_card};
use crate::parser::gen_config;

verus! {

/// Stepping back right after a step forward brings the cursor back to the
/// position it stood on.
pub proof fn law_previous_undoes_next(t: Seq<char>, s: Spot)
    requires
        valid_spot(t, s),
    ensures
        back(step(t, s)).pos == s.pos,
{
}

/// The shape of a number literal read so far.
pub open spec fn literal_shape(x: Seq<char>) -> bool {
    &&& x.len() > 0 ==> is_digit(x[0])
    &&& forall|i: int| 0 <= i < x.len() ==> (is_digit(#[trigger] x[i]) || x[i] == '.')
    &&& forall|i: int| 0 <= i < x.len() - 1 ==> !(#[trigger] x[i] == '.' && x[i + 1] == '.')
}

proof fn lemma_num_shape(t: Seq<char>, s: Spot, acc: Seq<char>)
    requires
        ok_spot(t, s),
        literal_shape(acc),
        acc.len() > 0 ==> is_digit(acc.last()) || acc.last() == '.',
    ensures
        num_loop(t, s, acc) matches Ok((v, _)) ==> (v is Invalid || (v matches ValueV::Num(x) && x.len() > 0 && literal_shape(x) && points(x) <= 1)),
    decreases t.len() - s.pos,
{
    let s1 = ws_skip(t, s);
    let c = t[s1.pos];
    if !crate::lexer::is_num_end(c) && is_digit(c) {
        match crate::cursor::peek_at(t, s1) {
            None => {},
            Some(p) => {
                if p == '.' {
                    let a2 = acc.push(c).push('.');
                    lemma_num_shape(t, step(t, step(t, s1)), a2);
                } else {
                    let a2 = acc.push(c);
                    lemma_num_shape(t, step(t, s1), a2);
                }
            },
        }
    }
}

/// A number is read as a literal that starts with a digit and holds only
/// digits and at most one point, never two points in a row; reading no digit
/// at all gives an invalid value.
pub proof fn law_number_literal_shape(t: Seq<char>, s: Spot)
    requires
        ok_spot(t, s),
    ensures
        gather(t, s, LexType::Num, None) matches Ok((v, _)) ==> (v is Invalid || (v matches ValueV::Num(x) && x.len() > 0 && literal_shape(x) && points(x) <= 1)),
{
    lemma_num_shape(t, s, seq![]);
}

proof fn lemma_str_no_quote(t: Seq<char>, s: Spot, init: bool, acc: Seq<char>)
    requires
        ok_spot(t, s),
        !acc.contains('"'),
    ensures
        str_loop(t, s, init, acc) matches Ok((v, e)) ==> (v matches ValueV::Str(x) && !x.contains('"') && t[e.pos] == '"'),
    decreases t.len() - s.pos, if init { 0int } else { 1int },
{
    let c = t[s.pos];
    let s2 = step(t, s);
    if !init {
        if s2.pos > s.pos {
            lemma_str_no_quote(t, s2, c == '"', acc);
        } else if c == '"' {
            lemma_str_no_quote(t, s2, true, acc);
        }
    } else if c != '"' && s2.pos > s.pos {
        assert(!acc.push(c).contains('"')) by {
            if acc.push(c).contains('"') {
                let k = choose|k: int| 0 <= k < acc.push(c).len() && acc.push(c)[k] == '"';
            }
        }
        lemma_str_no_quote(t, s2, true, acc.push(c));
    }
}

/// A quoted string is read up to its closing quote, which it does not hold,
/// and the cursor stops on that quote.
pub proof fn law_quoted_string_stops_at_quote(t: Seq<char>, s: Spot)
    requires
        ok_spot(t, s),
    ensures
        gather(t, s, LexType::Str, None) matches Ok((v, e)) ==> (v matches ValueV::Str(x) && !x.contains('"') && t[e.pos] == '"'),
{
    lemma_str_no_quote(t, s, false, seq![]);
}

/// No `//` in a sequence.
pub open spec fn no_comment_mark(x: Seq<char>) -> bool {
    forall|i: int| 0 <= i < x.len() - 1 ==> !(#[trigger] x[i] == '/' && x[i + 1] == '/')
}

/// The number of line breaks in a sequence.
pub open spec fn line_breaks(x: Seq<char>) -> nat
    decreases x.len(),
{
    if x.len() == 0 {
        0
    } else {
        line_breaks(x.drop_last()) + if x.last() == '\n' { 1nat } else { 0nat }
    }
}

proof fn lemma_line_breaks_concat(a: Seq<char>, b: Seq<char>)
    ensures
        line_breaks(a + b) == line_breaks(a) + line_breaks(b),
    decreases b.len(),
{
    if b.len() > 0 {
        lemma_line_breaks_concat(a, b.drop_last());
        assert((a + b).drop_last() =~= a + b.drop_last());
    }
}

proof fn lemma_no_breaks(x: Seq<char>)
    requires
        !x.contains('\n'),
    ensures
        line_breaks(x) == 0,
    decreases x.len(),
{
    if x.len() > 0 {
        assert(!x.drop_last().contains('\n')) by {
            if x.drop_last().contains('\n') {
                let k = choose|k: int| 0 <= k < x.drop_last().len() && x.drop_last()[k] == '\n';
            }
        }
        lemma_no_breaks(x.drop_last());
    }
}

proof fn lemma_comment_at_first(line: Seq<char>, j: int)
    requires
        0 <= j,
        forall|i: int| 0 <= i < j && i < line.len() - 1 ==> !(#[trigger] line[i] == '/' && line[i + 1] == '/'),
    ensures
        no_comment_mark(line.take(comment_at(line, j))),
    decreases line.len() - j,
{
    crate::preprocess::lemma_comment_at_bounds(line, j);
    let c = comment_at(line, j);
    if j + 1 >= line.len() {
        let x = line.take(c);
    } else if line[j] == '/' && line[j + 1] == '/' {
        let x = line.take(c);
    } else {
        lemma_comment_at_first(line, j + 1);
    }
}

proof fn lemma_line_has_no_break(t: Seq<char>, i: int, j: int)
    requires
        0 <= i <= j <= line_end(t, i),
    ensures
        forall|k: int| i <= k < j ==> #[trigger] t[k] != '\n',
    decreases j - i,
{
    if i < j {
        lemma_line_has_no_break(t, i + 1, j);
    }
}

proof fn lemma_strip_from(t: Seq<char>, i: int)
    requires
        0 <= i <= t.len(),
    ensures
        no_comment_mark(strip_from(t, i)),
        strip_from(t, i).len() > 0 && strip_from(t, i)[0] == '\n',
        line_breaks(strip_from(t, i)) == line_breaks(t.subrange(i, t.len() as int)) + 1,
    decreases t.len() - i,
{
    crate::preprocess::lemma_line_end_bounds(t, i);
    let e = line_end(t, i);
    let line = t.subrange(i, e);
    lemma_comment_at_first(line, 0);
    let bc = before_comment(line);
    crate::preprocess::lemma_comment_at_bounds(line, 0);
    lemma_line_has_no_break(t, i, e);
    assert(!bc.contains('\n')) by {
        if bc.contains('\n') {
            let k = choose|k: int| 0 <= k < bc.len() && bc[k] == '\n';
        }
    }
    assert(!line.contains('\n')) by {
        if line.contains('\n') {
            let k = choose|k: int| 0 <= k < line.len() && line[k] == '\n';
        }
    }
    lemma_no_breaks(bc);
    lemma_no_breaks(line);
    let head = seq!['\n'] + bc;
    lemma_line_breaks_concat(seq!['\n'], bc);
    assert(line_breaks(seq!['\n']) == 1) by {
        assert(seq!['\n'].drop_last() =~= Seq::<char>::empty());
        assert(line_breaks(Seq::<char>::empty()) == 0);
    }
    if e < t.len() {
        lemma_strip_from(t, e + 1);
        let rest = strip_from(t, e + 1);
        let all = head + rest;
        lemma_line_breaks_concat(head, rest);
        let sub = t.subrange(i, t.len() as int);
        assert(sub =~= line + seq!['\n'] + t.subrange(e + 1, t.len() as int));
        lemma_line_breaks_concat(line + seq!['\n'], t.subrange(e + 1, t.len() as int));
        lemma_line_breaks_concat(line, seq!['\n']);
    }
}

/// Taking out comments leaves no `//`, and gives one line break for each
/// line of the input, the first character being a line break.
pub proof fn law_comments_removed(t: Seq<char>)
    ensures
        no_comment_mark(strip_comments(t)),
        strip_comments(t)[0] == '\n',
        line_breaks(strip_comments(t)) == line_breaks(t) + 1,
{
    lemma_strip_from(t, 0);
    assert(t.subrange(0, t.len() as int) =~= t);
}

proof fn lemma_doc_loop_no_default(t: Seq<char>, s: Spot, acc: Seq<CardV>)
    requires
        ok_spot(t, s),
        forall|i: int| 0 <= i < acc.len() ==> !(#[trigger] acc[i] is Default),
    ensures
        doc_loop(t, s, acc) matches Ok(cards) ==> forall|i: int| 0 <= i < cards.len() ==> !(#[trigger] cards[i] is Default),
    decreases t.len() - s.pos,
{
    match read_card(t, s) {
        Err(_) => {},
        Ok((card, e)) => {
            let acc2 = if card is Default { acc } else { acc.push(card) };
            if step_char_some(t, e) && crate::cursor::peek_at(t, step(t, e)) is Some {
                crate::reader::lemma_read_card_forward(t, s);
                lemma_doc_loop_no_default(t, step(t, e), acc2);
            }
        },
    }
}

spec fn step_char_some(t: Seq<char>, e: Spot) -> bool {
    crate::cursor::step_char(t, e) is Some
}

/// A document is read into slides and settings only: nothing else is kept.
pub proof fn law_document_keeps_only_slides_and_settings(input: Option<String>)
    ensures
        document_result(input) matches Ok(cards) ==> forall|i: int| 0 <= i < cards.len() ==> !(#[trigger] cards[i] is Default),
{
    let t = crate::reader::prepare(crate::reader::source_text(input));
    if t.len() > 0 {
        lemma_doc_loop_no_default(t, Spot { pos: 0, prev: 0 }, seq![]);
    }
}

/// `cfg` ends the settings of `d`.
pub open spec fn ends_with_settings(d: SlideDataV, cfg: Seq<ConfigDataV>) -> bool {
    d.config matches Some(c) && c.len() >= cfg.len() && c.subrange(c.len() - cfg.len(), c.len() as int) == cfg
}

/// Every element of a div carries the div's settings, after its own.
pub proof fn law_div_elements_carry_div_settings(t: Seq<char>, s: Spot)
    requires
        ok_spot(t, s),
    ensures
        div_elems(t, s) matches Ok((items, _)) ==> (gen_config(t, s, div_table(), "#div"@) matches Ok((cfg, _))
            && forall|i: int| 0 <= i < items.len() ==> ends_with_settings(#[trigger] items[i], cfg)),
{
    match gen_config(t, s, div_table(), "#div"@) {
        Err(_) => {},
        Ok((cfg, s1)) => {
            if crate::cursor::step_char(t, s1) == Some('{') {
                match div_loop(t, step(t, s1), cfg, seq![]) {
                    Err(_) => {},
                    Ok((raw, e)) => {
                        let items = attach(raw, cfg).reverse();
                        assert forall|i: int| 0 <= i < items.len() implies ends_with_settings(#[trigger] items[i], cfg) by {
                            let d = raw[raw.len() - 1 - i];
                            match d.config {
                                Some(c) => {
                                    assert((c + cfg).subrange(c.len() as int, (c + cfg).len() as int) =~= cfg);
                                },
                                None => {
                                    assert(cfg.subrange(0, cfg.len() as int) =~= cfg);
                                },
                            }
                        }
                    },
                }
            }
        },
    }
}

// ---------------------------------------------------------------------------
// Keywords and the text they stand for.
// ---------------------------------------------------------------------------

/// The text `t` holds `w` from position `k` on.
pub open spec fn spells(t: Seq<char>, k: int, w: Seq<char>) -> bool {
    0 <= k && k + w.len() <= t.len() && t.subrange(k, k + w.len()) =~= w
}

/// No character of `w` is followed by the same character.
pub open spec fn no_doubled(w: Seq<char>) -> bool {
    forall|j: int| 0 <= j < w.len() - 1 ==> #[trigger] w[j] != w[j + 1]
}

proof fn lemma_spells_scan(t: Seq<char>, s: Spot, kw: Seq<char>, i: nat)
    requires
        ok_spot(t, s),
        i <= kw.len(),
        s.pos + (kw.len() - i) <= t.len(),
        forall|j: int| i <= j < kw.len() ==> t[s.pos + j - i] == #[trigger] kw[j],
    ensures
        kw_scan(t, s, kw, i).0,
    decreases kw.len() - i,
{
    if i < kw.len() {
        assert(t[s.pos + i - i] == kw[i as int]);
        if i + 1 < kw.len() {
            assert forall|j: int| i + 1 <= j < kw.len() implies t[step(t, s).pos + j - (i + 1)] == #[trigger] kw[j] by {
                assert(t[s.pos + j - i] == kw[j]);
            }
        }
        lemma_spells_scan(t, step(t, s), kw, i + 1);
    }
}

proof fn lemma_scan_spells(t: Seq<char>, s: Spot, kw: Seq<char>, i: nat)
    requires
        ok_spot(t, s),
        i <= kw.len(),
        no_doubled(kw),
        kw_scan(t, s, kw, i).0,
    ensures
        s.pos + (kw.len() - i) <= t.len(),
        forall|j: int| i <= j < kw.len() ==> t[s.pos + j - i] == #[trigger] kw[j],
    decreases kw.len() - i,
{
    if i < kw.len() {
        let s2 = step(t, s);
        lemma_scan_spells(t, s2, kw, i + 1);
        if s2.pos == s.pos && i + 1 < kw.len() {
            assert(t[s2.pos + (i + 1) - (i + 1)] == kw[i + 1 as int]);
            assert(kw[i as int] != kw[i + 1 as int]);
        }
        assert forall|j: int| i <= j < kw.len() implies t[s.pos + j - i] == #[trigger] kw[j] by {
            if j > i {
                assert(t[s2.pos + j - (i + 1)] == kw[j]);
            }
        }
    }
}

/// A keyword without doubled letters is recognised at a spot exactly when the
/// text spells it there.
pub proof fn law_keyword_is_spelled(t: Seq<char>, s: Spot, kw: Seq<char>, reset: bool)
    requires
        ok_spot(t, s),
        no_doubled(kw),
    ensures
        keyword_at(t, s, kw, reset).0 <==> spells(t, s.pos, kw),
{
    if keyword_at(t, s, kw, reset).0 {
        lemma_scan_spells(t, s, kw, 0);
        assert(t.subrange(s.pos, s.pos + kw.len()) =~= kw) by {
            assert forall|j: int| 0 <= j < kw.len() implies t.subrange(s.pos, s.pos + kw.len())[j] == kw[j] by {
                assert(t[s.pos + j - 0] == kw[j]);
            }
        }
    }
    if spells(t, s.pos, kw) {
        assert forall|j: int| 0 <= j < kw.len() implies t[s.pos + j - 0] == #[trigger] kw[j] by {
            assert(t.subrange(s.pos, s.pos + kw.len())[j] == kw[j]);
        }
        lemma_spells_scan(t, s, kw, 0);
    }
}

// ---------------------------------------------------------------------------
// Quoted strings and slide text.
// ---------------------------------------------------------------------------

/// The characters after the quote at `q` and before position `e`.
pub open spec fn quoted_from(t: Seq<char>, q: int, e: int) -> Seq<char> {
    if q < e {
        t.subrange(q + 1, e)
    } else {
        seq![]
    }
}

proof fn lemma_str_inside(t: Seq<char>, s: Spot, acc: Seq<char>, q: int)
    requires
        ok_spot(t, s),
        0 <= q <= s.pos,
        t[q] == '"',
        acc == quoted_from(t, q, s.pos),
    ensures
        str_loop(t, s, true, acc) matches Ok((v, e)) ==> (q <= e.pos && t[e.pos] == '"' && v == ValueV::Str(
            quoted_from(t, q, e.pos),
        )),
    decreases t.len() - s.pos,
{
    let c = t[s.pos];
    let s2 = step(t, s);
    if c != '"' && s2.pos > s.pos {
        assert(quoted_from(t, q, s2.pos) =~= acc.push(c));
        lemma_str_inside(t, s2, acc.push(c), q);
    }
}

/// The first quote at or after `from`, and the string that follows it.
pub open spec fn quoted_at(t: Seq<char>, from: int, q: int, e: int, v: ValueV) -> bool {
    &&& from <= q <= e
    &&& t[q] == '"'
    &&& forall|k: int| from <= k < q ==> #[trigger] t[k] != '"'
    &&& t[e] == '"'
    &&& v == ValueV::Str(quoted_from(t, q, e))
}

proof fn lemma_str_before(t: Seq<char>, s: Spot, from: int)
    requires
        ok_spot(t, s),
        0 <= from <= s.pos,
        forall|k: int| from <= k < s.pos ==> #[trigger] t[k] != '"',
    ensures
        str_loop(t, s, false, seq![]) matches Ok((v, e)) ==> exists|q: int| quoted_at(t, from, q, e.pos, v),
    decreases t.len() - s.pos,
{
    let c = t[s.pos];
    let s2 = step(t, s);
    if s2.pos > s.pos {
        if c == '"' {
            assert(quoted_from(t, s.pos, s2.pos) =~= seq![]);
            lemma_str_inside(t, s2, seq![], s.pos);
            if let Ok((v, e)) = str_loop(t, s, false, seq![]) {
                assert(quoted_at(t, from, s.pos, e.pos, v));
            }
        } else {
            lemma_str_before(t, s2, from);
        }
    } else if c == '"' {
        lemma_str_inside(t, s2, seq![], s.pos);
        if let Ok((v, e)) = str_loop(t, s, false, seq![]) {
            assert(quoted_at(t, from, s.pos, e.pos, v));
        }
    }
}

/// A quoted string is exactly the text between the first quote at or after
/// the cursor and the next quote, on which the cursor stops; nothing in
/// between is left out or changed.
pub proof fn law_quoted_string_is_text_between_quotes(t: Seq<char>, s: Spot)
    requires
        ok_spot(t, s),
    ensures
        gather(t, s, LexType::Str, None) matches Ok((v, e)) ==> exists|q: int| quoted_at(t, s.pos, q, e.pos, v),
{
    lemma_str_before(t, s, s.pos);
}

/// `x` without its line breaks.
pub open spec fn without_breaks(x: Seq<char>) -> Seq<char>
    decreases x.len(),
{
    if x.len() == 0 {
        x
    } else if x.last() == '\n' {
        without_breaks(x.drop_last())
    } else {
        without_breaks(x.drop_last()).push(x.last())
    }
}

/// Slide text ends at position `k`: a line break before a blank line, a line
/// starting with `#` or `}`, or the end of the text; a `}` next, when the
/// text is braced; or the inline ` #font` spelled at `k`.
pub open spec fn slide_text_ends(t: Seq<char>, k: int, braced: bool) -> bool {
    ||| t[k] == '\n' && (k + 1 >= t.len() || t[k + 1] == '\n' || t[k + 1] == '#' || t[k + 1] == '}')
    ||| braced && k + 1 < t.len() && t[k + 1] == '}'
    ||| spells(t, k, " #font"@)
}

proof fn lemma_font_mark()
    ensures
        no_doubled(" #font"@),
        " #font"@.len() == 6,
        " #font"@[0] == ' ',
        " #font"@[1] == '#',
{
    reveal_strlit(" #font");
}

proof fn lemma_slide_text(t: Seq<char>, s: Spot, braced: bool, acc: Seq<char>, from: int)
    requires
        ok_spot(t, s),
        0 <= from <= s.pos,
        acc == without_breaks(t.subrange(from, s.pos)),
        forall|k: int| from <= k < s.pos ==> !#[trigger] slide_text_ends(t, k, braced),
    ensures
        slide_loop(t, s, braced, acc) matches Ok((v, e)) ==> {
            &&& from <= e.pos < t.len()
            &&& slide_text_ends(t, e.pos, braced)
            &&& forall|k: int| from <= k < e.pos ==> !#[trigger] slide_text_ends(t, k, braced)
            &&& v == ValueV::Str(without_breaks(t.subrange(from, e.pos)))
        },
    decreases t.len() - s.pos,
{
    lemma_font_mark();
    law_keyword_is_spelled(t, s, " #font"@, true);
    let c = t[s.pos];
    let s2 = step(t, s);
    assert(t.subrange(from, s.pos + 1).drop_last() =~= t.subrange(from, s.pos));
    if s.pos + 1 < t.len() && !slide_text_ends(t, s.pos, braced) {
        if c == '\n' {
            lemma_slide_text(t, s2, braced, acc, from);
        } else {
            if spells(t, s.pos, " #font"@) {
                assert(t.subrange(s.pos, s.pos + 6)[0] == ' ');
            }
            lemma_slide_text(t, s2, braced, acc.push(c), from);
        }
    } else if slide_text_ends(t, s.pos, braced) && c != '\n' && !(braced && s.pos + 1 < t.len() && t[s.pos + 1] == '}') {
        assert(t.subrange(s.pos, s.pos + 6)[0] == ' ');
        assert(t.subrange(s.pos, s.pos + 6)[1] == '#');
    }
}

/// Slide text runs from the cursor to the first place where it ends (see
/// `slide_text_ends`), and is all the characters in between but the line
/// breaks: a space ends it only where ` #font` is spelled, or a `}` follows
/// in braced text.
pub proof fn law_slide_text_runs_to_its_end(t: Seq<char>, s: Spot, braced: bool)
    requires
        ok_spot(t, s),
    ensures
        slide_loop(t, s, braced, seq![]) matches Ok((v, e)) ==> {
            &&& s.pos <= e.pos < t.len()
            &&& slide_text_ends(t, e.pos, braced)
            &&& forall|k: int| s.pos <= k < e.pos ==> !#[trigger] slide_text_ends(t, k, braced)
            &&& v == ValueV::Str(without_breaks(t.subrange(s.pos, e.pos)))
        },
{
    assert(t.subrange(s.pos, s.pos) =~= Seq::<char>::empty());
    lemma_slide_text(t, s, braced, seq![], s.pos);
}

// ---------------------------------------------------------------------------
// Elements keep the settings written in their parentheses.
// ---------------------------------------------------------------------------

proof fn lemma_spells_prefix(t: Seq<char>, k: int, w: Seq<char>, n: int)
    requires
        spells(t, k, w),
        0 <= n <= w.len(),
    ensures
        spells(t, k, w.take(n)),
{
    assert(t.subrange(k, k + n) =~= w.take(n)) by {
        assert forall|j: int| 0 <= j < n implies t.subrange(k, k + n)[j] == w.take(n)[j] by {
            assert(t.subrange(k, k + w.len())[j] == w[j]);
        }
    }
}

proof fn lemma_rounds_keep_settings(t: Seq<char>, s: Spot, cfg: Option<Seq<ConfigDataV>>, data: Seq<SlideDataV>)
    requires
        ok_spot(t, s),
    ensures
        crate::reader::slide_rounds(t, s, true, cfg, data) matches Ok((c, _)) ==> c.config == cfg,
    decreases t.len() - s.pos, if s.prev == s.pos { 0int } else { 1int },
{
    let at_slide = t[s.pos] == '#' && keyword_at(t, s, "#slide"@, true).0;
    if !at_slide {
        match crate::reader::slide_element(t, s, false) {
            Ok((items, sb)) => {
                if crate::cursor::step_char(t, sb) is Some && crate::lexer::moved(t, s, true, step(t, sb), true) {
                    lemma_rounds_keep_settings(t, step(t, sb), cfg, data + items);
                }
            },
            _ => {},
        }
    }
}

/// A slide that starts with `#slide(...)` carries as its settings exactly the
/// settings written there, read with the slide's table.
pub proof fn law_slide_keeps_its_settings(t: Seq<char>, s: Spot)
    requires
        ok_spot(t, s),
        spells(t, s.pos, "#slide("@),
    ensures
        crate::reader::slide_card(t, s) matches Ok((card, _)) ==> (gen_config(t, s, crate::reader::slide_table(), "#slide"@) matches Ok((cfg, _))
            && card matches CardV::SlideCard(c) && c.config == Some(cfg)),
{
    reveal_strlit("#slide(");
    reveal_strlit("#slide");
    lemma_spells_prefix(t, s.pos, "#slide("@, 6);
    assert("#slide("@.take(6) =~= "#slide"@);
    law_keyword_is_spelled(t, s, "#slide("@, true);
    law_keyword_is_spelled(t, s, "#slide"@, true);
    assert(t.subrange(s.pos, s.pos + 7)[0] == '#');
    match gen_config(t, s, crate::reader::slide_table(), "#slide"@) {
        Ok((c, s1)) => {
            let sh = step(t, s1);
            match crate::reader::slide_element(t, sh, false) {
                Ok((items, sb)) => {
                    if crate::cursor::step_char(t, sb) is Some && crate::lexer::moved(t, s, false, step(t, sb), true) {
                        lemma_rounds_keep_settings(t, step(t, sb), Some(c), items);
                    }
                },
                _ => {},
            }
        },
        _ => {},
    }
}

/// A LaTeX element written `#tex(...)` carries exactly the settings written
/// there, read with the LaTeX table.
pub proof fn law_tex_keeps_its_settings(t: Seq<char>, s: Spot)
    requires
        ok_spot(t, s),
        spells(t, s.pos, "#tex("@),
    ensures
        crate::elements::tex_elem(t, s) matches Ok((d, _)) ==> (gen_config(t, s, crate::elements::tex_table(), "#tex"@) matches Ok((cfg, _))
            && d.kwd == ConfigKwds::latex && d.config == Some(cfg)),
{
    reveal_strlit("#tex(");
    law_keyword_is_spelled(t, s, "#tex("@, true);
}

/// An image element carries exactly the settings written in its
/// parentheses, read with the image table.
pub proof fn law_image_keeps_its_settings(t: Seq<char>, s: Spot)
    requires
        ok_spot(t, s),
    ensures
        crate::elements::image_elem(t, s) matches Ok((d, _)) ==> (gen_config(t, s, crate::elements::image_table(), "#image"@) matches Ok((cfg, _))
            && d.kwd == ConfigKwds::image && d.config == Some(cfg) && d.data == ValueV::Invalid),
{
}

// ---------------------------------------------------------------------------
// The names of settings.
// ---------------------------------------------------------------------------

proof fn lemma_plain_name(w: Seq<char>, x: Seq<char>)
    requires
        x == w,
        w.len() > 0,
        forall|j: int| 0 <= j < w.len() ==> #[trigger] w[j] == '_' || ('a' <= w[j] && w[j] <= 'z'),
        no_doubled(w),
    ensures
        x.len() > 0 && no_doubled(x) && x.last() != ' ' && x.last() != '=',
{
    assert(w[w.len() - 1] == w.last());
}

/// In the table `kws`, the name `name` is present, and every entry with that
/// name sets `kwd` from a value of kind `ty`.
pub open spec fn names(kws: Seq<(Seq<char>, ConfigKwds, LexType)>, name: Seq<char>, kwd: ConfigKwds, ty: LexType) -> bool {
    &&& exists|i: int| 0 <= i < kws.len() && #[trigger] kws[i].0 == name
    &&& forall|i: int| 0 <= i < kws.len() && #[trigger] kws[i].0 == name ==> kws[i].1 == kwd && kws[i].2 == ty
}

/// An image names its path, position, width and height settings: each name written in the parentheses sets the setting of the same
/// meaning, and no name sets another.
pub proof fn law_image_setting_names()
    ensures
        plain_names(crate::elements::image_table()),
        names(crate::elements::image_table(), "path"@, ConfigKwds::image_path, LexType::Str),
        names(crate::elements::image_table(), "position"@, ConfigKwds::image_position, LexType::Arr),
        names(crate::elements::image_table(), "width"@, ConfigKwds::image_width, LexType::Num),
        names(crate::elements::image_table(), "height"@, ConfigKwds::image_height, LexType::Num),
{
    reveal_strlit("path");
    reveal_strlit("position");
    reveal_strlit("width");
    reveal_strlit("height");
    let kws = crate::elements::image_table();
    assert(kws[0].0 == "path"@);
    assert(kws[1].0 == "position"@);
    assert(kws[2].0 == "width"@);
    assert(kws[3].0 == "height"@);
    lemma_plain_name("path"@, kws[0].0);
    lemma_plain_name("position"@, kws[1].0);
    lemma_plain_name("width"@, kws[2].0);
    lemma_plain_name("height"@, kws[3].0);
}

/// A font names its family, size, position, colour, style, margin and alignment: each name written in the parentheses sets the setting of the same
/// meaning, and no name sets another.
pub proof fn law_font_setting_names()
    ensures
        plain_names(crate::elements::font_table()),
        names(crate::elements::font_table(), "family"@, ConfigKwds::font_current, LexType::Str),
        names(crate::elements::font_table(), "size"@, ConfigKwds::font_size, LexType::Num),
        names(crate::elements::font_table(), "position"@, ConfigKwds::text_position, LexType::Arr),
        names(crate::elements::font_table(), "color"@, ConfigKwds::font_color, LexType::Arr),
        names(crate::elements::font_table(), "style"@, ConfigKwds::font_style, LexType::Str),
        names(crate::elements::font_table(), "margin"@, ConfigKwds::text_margin, LexType::Num),
        names(crate::elements::font_table(), "align"@, ConfigKwds::text_align, LexType::Str),
{
    reveal_strlit("family");
    reveal_strlit("size");
    reveal_strlit("position");
    reveal_strlit("color");
    reveal_strlit("style");
    reveal_strlit("margin");
    reveal_strlit("align");
    assert("family"@[0] != "margin"@[0]);
    assert("color"@[0] != "style"@[0]);
    assert("color"@[0] != "align"@[0]);
    assert("style"@[0] != "align"@[0]);
    let kws = crate::elements::font_table();
    assert(kws[0].0 == "family"@);
    assert(kws[1].0 == "size"@);
    assert(kws[2].0 == "position"@);
    assert(kws[3].0 == "color"@);
    assert(kws[4].0 == "style"@);
    assert(kws[5].0 == "margin"@);
    assert(kws[6].0 == "align"@);
    lemma_plain_name("family"@, kws[0].0);
    lemma_plain_name("size"@, kws[1].0);
    lemma_plain_name("position"@, kws[2].0);
    lemma_plain_name("color"@, kws[3].0);
    lemma_plain_name("style"@, kws[4].0);
    lemma_plain_name("margin"@, kws[5].0);
    lemma_plain_name("align"@, kws[6].0);
}

/// A LaTeX element names its family, size, position, colour, style and margin: each name written in the parentheses sets the setting of the same
/// meaning, and no name sets another.
pub proof fn law_tex_setting_names()
    ensures
        plain_names(crate::elements::tex_table()),
        names(crate::elements::tex_table(), "family"@, ConfigKwds::latex_current, LexType::Str),
        names(crate::elements::tex_table(), "size"@, ConfigKwds::latex_size, LexType::Num),
        names(crate::elements::tex_table(), "position"@, ConfigKwds::latex_position, LexType::Arr),
        names(crate::elements::tex_table(), "color"@, ConfigKwds::latex_color, LexType::Arr),
        names(crate::elements::tex_table(), "style"@, ConfigKwds::latex_style, LexType::Str),
        names(crate::elements::tex_table(), "margin"@, ConfigKwds::latex_margin, LexType::Num),
{
    reveal_strlit("family");
    reveal_strlit("size");
    reveal_strlit("position");
    reveal_strlit("color");
    reveal_strlit("style");
    reveal_strlit("margin");
    assert("family"@[0] != "margin"@[0]);
    assert("color"@[0] != "style"@[0]);
    let kws = crate::elements::tex_table();
    assert(kws[0].0 == "family"@);
    assert(kws[1].0 == "size"@);
    assert(kws[2].0 == "position"@);
    assert(kws[3].0 == "color"@);
    assert(kws[4].0 == "style"@);
    assert(kws[5].0 == "margin"@);
    lemma_plain_name("family"@, kws[0].0);
    lemma_plain_name("size"@, kws[1].0);
    lemma_plain_name("position"@, kws[2].0);
    lemma_plain_name("color"@, kws[3].0);
    lemma_plain_name("style"@, kws[4].0);
    lemma_plain_name("margin"@, kws[5].0);
}

/// A div names its text size, place, height, width, position, alignment and background colour: each name written in the parentheses sets the setting of the same
/// meaning, and no name sets another.
pub proof fn law_div_setting_names()
    ensures
        plain_names(crate::reader::div_table()),
        names(crate::reader::div_table(), "size"@, ConfigKwds::font_size, LexType::Num),
        names(crate::reader::div_table(), "pos_x"@, ConfigKwds::div_x, LexType::Num),
        names(crate::reader::div_table(), "pos_y"@, ConfigKwds::div_y, LexType::Num),
        names(crate::reader::div_table(), "height"@, ConfigKwds::div_height, LexType::Num),
        names(crate::reader::div_table(), "width"@, ConfigKwds::div_width, LexType::Num),
        names(crate::reader::div_table(), "position"@, ConfigKwds::div_position, LexType::Arr),
        names(crate::reader::div_table(), "align"@, ConfigKwds::div_align, LexType::Str),
        names(crate::reader::div_table(), "background_color"@, ConfigKwds::div_background_color, LexType::Arr),
{
    reveal_strlit("size");
    reveal_strlit("pos_x");
    reveal_strlit("pos_y");
    reveal_strlit("height");
    reveal_strlit("width");
    reveal_strlit("position");
    reveal_strlit("align");
    reveal_strlit("background_color");
    assert("pos_x"@[4] != "pos_y"@[4]);
    assert("pos_x"@[0] != "width"@[0]);
    assert("pos_x"@[0] != "align"@[0]);
    assert("pos_y"@[0] != "width"@[0]);
    assert("pos_y"@[0] != "align"@[0]);
    assert("width"@[0] != "align"@[0]);
    let kws = crate::reader::div_table();
    assert(kws[0].0 == "size"@);
    assert(kws[1].0 == "pos_x"@);
    assert(kws[2].0 == "pos_y"@);
    assert(kws[3].0 == "height"@);
    assert(kws[4].0 == "width"@);
    assert(kws[5].0 == "position"@);
    assert(kws[6].0 == "align"@);
    assert(kws[7].0 == "background_color"@);
    lemma_plain_name("size"@, kws[0].0);
    lemma_plain_name("pos_x"@, kws[1].0);
    lemma_plain_name("pos_y"@, kws[2].0);
    lemma_plain_name("height"@, kws[3].0);
    lemma_plain_name("width"@, kws[4].0);
    lemma_plain_name("position"@, kws[5].0);
    lemma_plain_name("align"@, kws[6].0);
    lemma_plain_name("background_color"@, kws[7].0);
}

/// A slide names its background colour, size, alignments, text position and margin, and font colour: each name written in the parentheses sets the setting of the same
/// meaning, and no name sets another.
pub proof fn law_slide_setting_names()
    ensures
        plain_names(crate::reader::slide_table()),
        names(crate::reader::slide_table(), "background_color"@, ConfigKwds::slide_background_color, LexType::Arr),
        names(crate::reader::slide_table(), "width"@, ConfigKwds::slide_width, LexType::Num),
        names(crate::reader::slide_table(), "height"@, ConfigKwds::slide_height, LexType::Num),
        names(crate::reader::slide_table(), "align"@, ConfigKwds::align, LexType::Str),
        names(crate::reader::slide_table(), "valign"@, ConfigKwds::valign, LexType::Str),
        names(crate::reader::slide_table(), "text_position"@, ConfigKwds::text_position, LexType::Arr),
        names(crate::reader::slide_table(), "text_margin"@, ConfigKwds::text_margin, LexType::Num),
        names(crate::reader::slide_table(), "font_color"@, ConfigKwds::font_color, LexType::Arr),
{
    reveal_strlit("background_color");
    reveal_strlit("width");
    reveal_strlit("height");
    reveal_strlit("align");
    reveal_strlit("valign");
    reveal_strlit("text_position");
    reveal_strlit("text_margin");
    reveal_strlit("font_color");
    assert("width"@[0] != "align"@[0]);
    assert("height"@[0] != "valign"@[0]);
    let kws = crate::reader::slide_table();
    assert(kws[0].0 == "background_color"@);
    assert(kws[1].0 == "width"@);
    assert(kws[2].0 == "height"@);
    assert(kws[3].0 == "align"@);
    assert(kws[4].0 == "valign"@);
    assert(kws[5].0 == "text_position"@);
    assert(kws[6].0 == "text_margin"@);
    assert(kws[7].0 == "font_color"@);
    lemma_plain_name("background_color"@, kws[0].0);
    lemma_plain_name("width"@, kws[1].0);
    lemma_plain_name("height"@, kws[2].0);
    lemma_plain_name("align"@, kws[3].0);
    lemma_plain_name("valign"@, kws[4].0);
    lemma_plain_name("text_position"@, kws[5].0);
    lemma_plain_name("text_margin"@, kws[6].0);
    lemma_plain_name("font_color"@, kws[7].0);
}

/// The document settings name the slide size, background colour, alignments, font, font colour, text position and font size: each name written in the parentheses sets the setting of the same
/// meaning, and no name sets another.
pub proof fn law_config_setting_names()
    ensures
        plain_names(crate::reader::config_table()),
        names(crate::reader::config_table(), "width"@, ConfigKwds::slide_width, LexType::Num),
        names(crate::reader::config_table(), "height"@, ConfigKwds::slide_height, LexType::Num),
        names(crate::reader::config_table(), "background_color"@, ConfigKwds::slide_background_color, LexType::Arr),
        names(crate::reader::config_table(), "align"@, ConfigKwds::align, LexType::Str),
        names(crate::reader::config_table(), "valign"@, ConfigKwds::valign, LexType::Str),
        names(crate::reader::config_table(), "font"@, ConfigKwds::font, LexType::Str),
        names(crate::reader::config_table(), "font_color"@, ConfigKwds::font_color, LexType::Arr),
        names(crate::reader::config_table(), "text_position"@, ConfigKwds::text_position, LexType::Arr),
        names(crate::reader::config_table(), "font_size"@, ConfigKwds::font_size, LexType::Num),
{
    reveal_strlit("width");
    reveal_strlit("height");
    reveal_strlit("background_color");
    reveal_strlit("align");
    reveal_strlit("valign");
    reveal_strlit("font");
    reveal_strlit("font_color");
    reveal_strlit("text_position");
    reveal_strlit("font_size");
    assert("width"@[0] != "align"@[0]);
    assert("height"@[0] != "valign"@[0]);
    let kws = crate::reader::config_table();
    assert(kws[0].0 == "width"@);
    assert(kws[1].0 == "height"@);
    assert(kws[2].0 == "background_color"@);
    assert(kws[3].0 == "align"@);
    assert(kws[4].0 == "valign"@);
    assert(kws[5].0 == "font"@);
    assert(kws[6].0 == "font_color"@);
    assert(kws[7].0 == "text_position"@);
    assert(kws[8].0 == "font_size"@);
    lemma_plain_name("width"@, kws[0].0);
    lemma_plain_name("height"@, kws[1].0);
    lemma_plain_name("background_color"@, kws[2].0);
    lemma_plain_name("align"@, kws[3].0);
    lemma_plain_name("valign"@, kws[4].0);
    lemma_plain_name("font"@, kws[5].0);
    lemma_plain_name("font_color"@, kws[6].0);
    lemma_plain_name("text_position"@, kws[7].0);
    lemma_plain_name("font_size"@, kws[8].0);
}

/// The names of a table can be told from the text around them: none is
/// empty, none has a doubled letter, none ends in a space or `=`.
pub open spec fn plain_names(kws: Seq<(Seq<char>, ConfigKwds, LexType)>) -> bool {
    forall|i: int| 0 <= i < kws.len() ==> {
        let w = #[trigger] kws[i].0;
        &&& w.len() > 0
        &&& no_doubled(w)
        &&& w.last() != ' ' && w.last() != '='
    }
}

proof fn lemma_scan_end(t: Seq<char>, s: Spot, kw: Seq<char>, i: nat)
    requires
        ok_spot(t, s),
        i < kw.len(),
        no_doubled(kw),
        kw_scan(t, s, kw, i).0,
    ensures
        s.pos + (kw.len() - i) < t.len() ==> kw_scan(t, s, kw, i).1.pos == s.pos + (kw.len() - i),
        s.pos + (kw.len() - i) == t.len() ==> kw_scan(t, s, kw, i).1.pos == t.len() - 1,
    decreases kw.len() - i,
{
    lemma_scan_spells(t, s, kw, i);
    assert(kw[i as int] == t[s.pos]);
    assert(kw_scan(t, s, kw, i) == kw_scan(t, step(t, s), kw, i + 1));
    if i + 1 < kw.len() {
        lemma_scan_end(t, step(t, s), kw, i + 1);
    } else {
        assert(kw_scan(t, step(t, s), kw, i + 1) == (true, step(t, s)));
    }
}

proof fn lemma_try_written(t: Seq<char>, sp: Spot, kws: Seq<(Seq<char>, ConfigKwds, LexType)>, i: nat)
    requires
        ok_spot(t, sp),
        plain_names(kws),
    ensures
        crate::parser::kw_try(t, sp, kws, i) matches crate::parser::KwTry::Found(j, _) ==> {
            &&& i <= j < kws.len()
            &&& spells(t, sp.pos, kws[j].0)
            &&& sp.pos + kws[j].0.len() < t.len()
            &&& (t[sp.pos + kws[j].0.len()] == ' ' || t[sp.pos + kws[j].0.len()] == '=')
        },
    decreases kws.len() - i,
{
    if i < kws.len() {
        let w = kws[i as int].0;
        assert(w.len() > 0 && no_doubled(w) && w.last() != ' ' && w.last() != '=');
        let (m, e) = keyword_at(t, sp, w, false);
        crate::lexer::lemma_scan_forward(t, sp, w, 0);
        if m {
            law_keyword_is_spelled(t, sp, w, false);
            lemma_scan_end(t, sp, w, 0);
            if sp.pos + w.len() == t.len() {
                assert(t.subrange(sp.pos, sp.pos + w.len())[w.len() - 1] == w[w.len() - 1]);
            }
        }
        if !(m && (t[e.pos] == ' ' || t[e.pos] == '=')) {
            lemma_try_written(t, Spot { pos: sp.pos, prev: e.prev }, kws, i + 1);
        }
    }
}

/// A setting is recognised in a settings list only where its name is written
/// in full and followed by a space or `=`.
pub proof fn law_setting_name_is_written(t: Seq<char>, s: Spot, kws: Seq<(Seq<char>, ConfigKwds, LexType)>)
    requires
        ok_spot(t, s),
        plain_names(kws),
    ensures
        crate::parser::kw_try(t, s, kws, 0) matches crate::parser::KwTry::Found(j, _) ==> {
            &&& 0 <= j < kws.len()
            &&& spells(t, s.pos, kws[j].0)
            &&& s.pos + kws[j].0.len() < t.len()
            &&& (t[s.pos + kws[j].0.len()] == ' ' || t[s.pos + kws[j].0.len()] == '=')
        },
{
    lemma_try_written(t, s, kws, 0);
}

/// The settings of the line numbered `n` of a font: the font's own, then the
/// line's number.
pub open spec fn font_line_settings(cfg: Seq<ConfigDataV>, n: nat) -> Option<Seq<ConfigDataV>> {
    Some(cfg.push(ConfigDataV { kwd: ConfigKwds::font_braced, data: ValueV::Num(crate::elements::decimal(n)) }))
}

proof fn lemma_font_lines(t: Seq<char>, s: Spot, cfg: Seq<ConfigDataV>, acc: Seq<SlideDataV>)
    requires
        ok_spot(t, s),
        forall|k: int| 0 <= k < acc.len() ==> (#[trigger] acc[k]).kwd == ConfigKwds::text && acc[k].config == font_line_settings(cfg, k as nat),
    ensures
        crate::elements::font_loop(t, s, cfg, acc.len(), acc) matches Ok((items, _)) ==> forall|k: int| 0 <= k < items.len() ==> (#[trigger] items[k]).kwd
            == ConfigKwds::text && items[k].config == font_line_settings(cfg, k as nat),
    decreases t.len() - s.pos,
{
    if t[s.pos] != '}' {
        match gather(t, s, LexType::SlideStr, Some(LexType::Braced)) {
            Ok((v, s1)) => {
                let acc2 = acc.push(crate::elements::text_item(Some(cfg.push(crate::elements::braced_entry(acc.len()))), v, crate::elements::row_at(t, s)));
                assert forall|k: int| 0 <= k < acc2.len() implies (#[trigger] acc2[k]).kwd == ConfigKwds::text && acc2[k].config == font_line_settings(cfg, k as nat) by {
                    if k < acc.len() {
                        assert(acc2[k] == acc[k]);
                    }
                }
                if crate::cursor::step_char(t, s1) is Some {
                    crate::lexer::lemma_slide_forward(t, s, true, seq![]);
                    lemma_font_lines(t, step(t, s1), cfg, acc2);
                }
            },
            _ => {},
        }
    }
}

/// Each text line of a font element carries the settings written in the
/// font's parentheses, read with the font table, followed by the line's
/// number: 0 for text on the same line, and counting from 0 in reading order
/// for lines in braces (the last line comes first).
pub proof fn law_font_lines_keep_settings(t: Seq<char>, s: Spot)
    requires
        ok_spot(t, s),
    ensures
        crate::elements::font_elems(t, s) matches Ok((items, _)) ==> (gen_config(t, s, crate::elements::font_table(), "#font"@) matches Ok((cfg, _))
            && forall|i: int| 0 <= i < items.len() ==> (#[trigger] items[i]).kwd == ConfigKwds::text
                && items[i].config == font_line_settings(cfg, (items.len() - 1 - i) as nat)),
{
    match gen_config(t, s, crate::elements::font_table(), "#font"@) {
        Ok((cfg, s1)) => {
            crate::parser::lemma_gen_config_forward(t, s, crate::elements::font_table(), "#font"@);
            let s2 = step(t, s1);
            if t[s2.pos] == '{' {
                lemma_font_lines(t, step(t, s2), cfg, seq![]);
            }
        },
        _ => {},
    }
}

/// A settings card carries exactly the settings written in `#config(...)`,
/// read with the document's table.
pub proof fn law_settings_card_keeps_its_settings(t: Seq<char>, s: Spot)
    requires
        ok_spot(t, s),
    ensures
        crate::reader::config_card(t, s) matches Ok((card, _)) ==> (gen_config(t, s, crate::reader::config_table(), "#config"@) matches Ok((cfg, _))
            && card == CardV::ConfigCard(cfg)),
{
}

} // verus!
