use vstd::prelude::*;

use crate::cursor::{back, peek_at, step, valid_spot, ParserCursor, Spot};
use crate::document::{
    lemma_arr_view, string_of, values_view, LexType, ParseHalt, ValueType, ValueV,
};

verus! {

broadcast use vstd::string::group_string_axioms;

// ---------------------------------------------------------------------------
// What the lexer reads, stated over the text and the cursor's spot.
// ---------------------------------------------------------------------------

/// Compares `kw[i..]` with the text, stepping forward on each matching
/// character; gives whether all matched and where the cursor ends.
pub open spec fn kw_scan(t: Seq<char>, s: Spot, kw: Seq<char>, i: nat) -> (bool, Spot)
    decreases kw.len() - i,
{
    if i >= kw.len() {
        (true, s)
    } else if kw[i as int] != t[s.pos] {
        (false, s)
    } else {
        kw_scan(t, step(t, s), kw, i + 1)
    }
}

/// Whether the text at `s` spells `kw`, and where the cursor ends: back on
/// `s` when `reset`, else after the characters that matched.
pub open spec fn keyword_at(t: Seq<char>, s: Spot, kw: Seq<char>, reset: bool) -> (bool, Spot) {
    let (m, e) = kw_scan(t, s, kw, 0);
    (m, if reset { s } else { e })
}

pub open spec fn is_ws(c: char) -> bool {
    c == ' ' || c == '\t' || c == '\n'
}

pub open spec fn is_digit(c: char) -> bool {
    '0' <= c && c <= '9'
}

pub open spec fn skip_if(t: Seq<char>, s: Spot, c: char) -> Spot {
    if t[s.pos] == c {
        step(t, s)
    } else {
        s
    }
}

/// Steps over one space, then one tab, then one line break, each only if
/// the cursor stands on it.
pub open spec fn ws_skip(t: Seq<char>, s: Spot) -> Spot {
    skip_if(t, skip_if(t, skip_if(t, s, ' '), '\t'), '\n')
}

pub open spec fn ok_spot(t: Seq<char>, s: Spot) -> bool {
    t.len() > 0 && valid_spot(t, s)
}

/// The number of points in `x`.
pub open spec fn points(x: Seq<char>) -> nat
    decreases x.len(),
{
    if x.len() == 0 {
        0
    } else {
        points(x.drop_last()) + if x.last() == '.' { 1nat } else { 0nat }
    }
}

/// The number read: nothing read is an invalid value, and a literal with
/// more than one point is no number.
pub open spec fn num_value(acc: Seq<char>) -> Result<ValueV, ParseHalt> {
    if acc.len() == 0 {
        Ok(ValueV::Invalid)
    } else if points(acc) > 1 {
        Err(ParseHalt::BadNumber)
    } else {
        Ok(ValueV::Num(acc))
    }
}

/// A finished number and where the reader ends.
pub open spec fn num_end(acc: Seq<char>, e: Spot) -> Result<(ValueV, Spot), ParseHalt> {
    match num_value(acc) {
        Ok(v) => Ok((v, e)),
        Err(h) => Err(h),
    }
}

pub open spec fn is_num_end(c: char) -> bool {
    c == ',' || c == ')' || c == '}' || c == ']'
}

pub open spec fn is_arr_end(c: char) -> bool {
    c == ')' || c == '}' || c == ']'
}

/// Reading a number: digits, each possibly followed by a point, until a
/// separator (the cursor then steps back) or any other character.
pub open spec fn num_loop(t: Seq<char>, s: Spot, acc: Seq<char>) -> Result<(ValueV, Spot), ParseHalt>
    decreases t.len() - s.pos,
    when ok_spot(t, s)
{
    let s1 = ws_skip(t, s);
    let c = t[s1.pos];
    if is_num_end(c) {
        num_end(acc, back(s1))
    } else if is_digit(c) {
        match peek_at(t, s1) {
            None => Err(ParseHalt::ReadPastEnd),
            Some(p) => if p == '.' {
                num_loop(t, step(t, step(t, s1)), acc.push(c).push('.'))
            } else {
                num_loop(t, step(t, s1), acc.push(c))
            },
        }
    } else {
        num_end(acc, s1)
    }
}

/// Reading a quoted string: everything up to an opening quote is passed
/// over, then characters are kept up to the closing quote, on which the
/// cursor stops.  Without a quote at the end of the text the reader would
/// stay on the last character for ever.
pub open spec fn str_loop(t: Seq<char>, s: Spot, init: bool, acc: Seq<char>) -> Result<(ValueV, Spot), ParseHalt>
    decreases t.len() - s.pos, if init { 0int } else { 1int },
    when ok_spot(t, s)
{
    let c = t[s.pos];
    let s2 = step(t, s);
    if !init {
        if s2.pos > s.pos {
            str_loop(t, s2, c == '"', acc)
        } else if c == '"' {
            str_loop(t, s2, true, acc)
        } else {
            Err(ParseHalt::Endless)
        }
    } else if c == '"' {
        Ok((ValueV::Str(acc), s))
    } else if s2.pos > s.pos {
        str_loop(t, s2, true, acc.push(c))
    } else {
        Err(ParseHalt::Endless)
    }
}

/// Reading slide text: characters are kept until a blank line, a line that
/// starts with `#` or `}`, the end of the text at a line break, a `}` ahead
/// when the text is braced, or an inline ` #font`.  Reaching the last
/// character elsewhere would read past the end.
pub open spec fn slide_loop(t: Seq<char>, s: Spot, special: bool, acc: Seq<char>) -> Result<(ValueV, Spot), ParseHalt>
    decreases t.len() - s.pos,
    when ok_spot(t, s)
{
    let c = t[s.pos];
    if c == '\n' {
        match peek_at(t, s) {
            None => Ok((ValueV::Str(acc), s)),
            Some(p) => if p == '\n' || p == '#' || p == '}' {
                Ok((ValueV::Str(acc), s))
            } else {
                slide_loop(t, step(t, s), special, acc)
            },
        }
    } else if special && peek_at(t, s) == Some('}') {
        Ok((ValueV::Str(acc), s))
    } else {
        match peek_at(t, s) {
            None => Err(ParseHalt::ReadPastEnd),
            Some(p) => if p == '#' && c == ' ' && keyword_at(t, s, " #font"@, true).0 {
                Ok((ValueV::Str(acc), s))
            } else {
                slide_loop(t, step(t, s), special, acc.push(c))
            },
        }
    }
}

/// A reading that succeeds ends on a valid spot no earlier than where it
/// began.
pub open spec fn ends_ahead<A>(t: Seq<char>, s: Spot, r: Result<(A, Spot), ParseHalt>) -> bool {
    r matches Ok((_, e)) ==> ok_spot(t, e) && e.pos >= s.pos
}

/// Matching a keyword only steps forward.
pub proof fn lemma_scan_forward(t: Seq<char>, s: Spot, kw: Seq<char>, i: nat)
    requires
        ok_spot(t, s),
    ensures
        ok_spot(t, kw_scan(t, s, kw, i).1),
        kw_scan(t, s, kw, i).1.pos >= s.pos,
    decreases kw.len() - i,
{
    if i < kw.len() && kw[i as int] == t[s.pos] {
        lemma_scan_forward(t, step(t, s), kw, i + 1);
    }
}

/// Reading a quoted string ends at or after where it started.
pub proof fn lemma_str_forward(t: Seq<char>, s: Spot, init: bool, acc: Seq<char>)
    requires
        ok_spot(t, s),
    ensures
        ends_ahead(t, s, str_loop(t, s, init, acc)),
    decreases t.len() - s.pos, if init { 0int } else { 1int },
{
    let c = t[s.pos];
    let s2 = step(t, s);
    if !init {
        if s2.pos > s.pos {
            lemma_str_forward(t, s2, c == '"', acc);
        } else if c == '"' {
            lemma_str_forward(t, s2, true, acc);
        }
    } else if c != '"' && s2.pos > s.pos {
        lemma_str_forward(t, s2, true, acc.push(c));
    }
}

/// Reading slide text ends at or after where it started.
pub proof fn lemma_slide_forward(t: Seq<char>, s: Spot, special: bool, acc: Seq<char>)
    requires
        ok_spot(t, s),
    ensures
        ends_ahead(t, s, slide_loop(t, s, special, acc)),
    decreases t.len() - s.pos,
{
    let c = t[s.pos];
    if c == '\n' {
        if peek_at(t, s) is Some {
            lemma_slide_forward(t, step(t, s), special, acc);
        }
    } else if !(special && peek_at(t, s) == Some('}')) && peek_at(t, s) is Some {
        lemma_slide_forward(t, step(t, s), special, acc.push(c));
    }
}

/// Reading an array ends at or after where it started.
pub proof fn lemma_arr_forward(t: Seq<char>, s: Spot, init: bool, acc: Seq<ValueV>, elem: LexType)
    requires
        ok_spot(t, s),
    ensures
        ends_ahead(t, s, arr_loop(t, s, init, acc, elem)),
    decreases lex_rank(elem), t.len() - s.pos, if init { 0int } else { 1int }, if s.prev == s.pos { 0int } else { 1int },
{
    let inner = if elem == LexType::Arr {
        arr_loop(t, ws_skip(t, s), false, seq![], LexType::Num)
    } else {
        elem_value(t, ws_skip(t, s), elem)
    };
    match arr_round(t, s, init, acc, inner) {
        ArrRound::More(s2, init2, acc2) => {
            if moved(t, s, init, s2, init2) {
                lemma_arr_forward(t, s2, init2, acc2, elem);
            }
        },
        _ => {},
    }
}

pub open spec fn lex_rank(e: LexType) -> int {
    match e {
        LexType::Arr => 1,
        _ => 0,
    }
}

/// One element of an array, read as `elem`; an array element is itself an
/// array of numbers.
pub open spec fn elem_value(t: Seq<char>, s: Spot, elem: LexType) -> Result<(ValueV, Spot), ParseHalt> {
    match elem {
        LexType::Num => num_loop(t, s, seq![]),
        LexType::Str => str_loop(t, s, false, seq![]),
        LexType::SlideStr => slide_loop(t, s, t[s.prev] == '{', seq![]),
        _ => Ok((ValueV::Invalid, s)),
    }
}

/// What one round of the array reader does.
pub enum ArrRound {
    Done(ValueV, Spot),
    Stop(ParseHalt),
    More(Spot, bool, Seq<ValueV>),
}

pub open spec fn arr_round(t: Seq<char>, s: Spot, init: bool, acc: Seq<ValueV>, inner: Result<(ValueV, Spot), ParseHalt>) -> ArrRound {
    let s1 = ws_skip(t, s);
    let c = t[s1.pos];
    if is_arr_end(c) {
        ArrRound::Done(ValueV::Arr(acc), s1)
    } else if c == ',' {
        ArrRound::More(step(t, s1), init, acc)
    } else if !init {
        ArrRound::More(step(t, s1), c == '[', acc)
    } else {
        match inner {
            Err(h) => ArrRound::Stop(h),
            Ok((v, s2)) => ArrRound::More(step(t, s2), init, acc.push(v)),
        }
    }
}

/// Whether a round of a reading loop went from `(s, f)` to `(s2, f2)` by a
/// measurable amount: forward, or on the spot by setting its flag, or on the
/// spot by making its previous position the current one.  A round that does
/// none of these has not moved the loop on, and the reader stops there.
pub open spec fn moved(t: Seq<char>, s: Spot, f: bool, s2: Spot, f2: bool) -> bool {
    ||| (s.pos < s2.pos && ok_spot(t, s2))
    ||| (s2.pos == s.pos && !f && f2 && ok_spot(t, s2))
    ||| (s2.pos == s.pos && f == f2 && s2.prev == s2.pos && s.prev != s.pos && ok_spot(t, s2))
}

/// Reading an array: up to an opening bracket, then elements separated by
/// commas, up to a closing bracket, parenthesis or brace.
pub open spec fn arr_loop(t: Seq<char>, s: Spot, init: bool, acc: Seq<ValueV>, elem: LexType) -> Result<(ValueV, Spot), ParseHalt>
    decreases lex_rank(elem), t.len() - s.pos, if init { 0int } else { 1int }, if s.prev == s.pos { 0int } else { 1int },
    when ok_spot(t, s)
{
    let inner = if elem == LexType::Arr {
        arr_loop(t, ws_skip(t, s), false, seq![], LexType::Num)
    } else {
        elem_value(t, ws_skip(t, s), elem)
    };
    match arr_round(t, s, init, acc, inner) {
        ArrRound::Done(v, e) => Ok((v, e)),
        ArrRound::Stop(h) => Err(h),
        ArrRound::More(s2, init2, acc2) => if moved(t, s, init, s2, init2) {
            arr_loop(t, s2, init2, acc2, elem)
        } else {
            Err(ParseHalt::Endless)
        },
    }
}

/// Reading a value of kind `ty`; `sub` is the element kind of an array, or
/// marks slide text as braced.
pub open spec fn gather(t: Seq<char>, s: Spot, ty: LexType, sub: Option<LexType>) -> Result<(ValueV, Spot), ParseHalt> {
    match ty {
        LexType::Num => num_loop(t, s, seq![]),
        LexType::Str => str_loop(t, s, false, seq![]),
        LexType::SlideStr => slide_loop(t, s, sub is Some || t[s.prev] == '{', seq![]),
        LexType::Braced => Ok((ValueV::Invalid, s)),
        LexType::Arr => arr_loop(t, s, false, seq![], match sub { Some(e) => e, None => LexType::Num }),
    }
}

/// Reading anything but a number ends at or after where it started (a
/// number reader may step back once).
pub proof fn lemma_gather_forward(t: Seq<char>, s: Spot, ty: LexType, sub: Option<LexType>)
    requires
        ok_spot(t, s),
        ty != LexType::Num,
    ensures
        ends_ahead(t, s, gather(t, s, ty, sub)),
{
    match ty {
        LexType::Str => lemma_str_forward(t, s, false, seq![]),
        LexType::SlideStr => lemma_slide_forward(t, s, sub is Some || t[s.prev] == '{', seq![]),
        LexType::Arr => lemma_arr_forward(t, s, false, seq![], match sub { Some(e) => e, None => LexType::Num }),
        _ => {},
    }
}

/// The executable result agrees with the stated one: the same value and
/// the cursor where stated, or the same halt.
pub open spec fn value_outcome(r: Result<ValueType, ParseHalt>, c: ParserCursor, t: Seq<char>, expect: Result<(ValueV, Spot), ParseHalt>) -> bool {
    match expect {
        Ok((v, e)) => r matches Ok(x) && x@ == v && c.wf() && c.text() == t && c.spot() == e,
        Err(h) => r == Err::<ValueType, ParseHalt>(h),
    }
}

// ---------------------------------------------------------------------------
// The lexer.
// ---------------------------------------------------------------------------

/// Whether the text at the cursor spells `keyword`.  The cursor steps over
/// the characters that match; with `reset_pos` it then comes back.
pub fn is_keyword(parser_cursor: &mut ParserCursor, keyword: &str, reset_pos: bool) -> (r: bool)
    requires
        old(parser_cursor).wf(),
        old(parser_cursor).text().len() > 0,
    ensures
        final(parser_cursor).wf(),
        final(parser_cursor).text() == old(parser_cursor).text(),
        (r, final(parser_cursor).spot()) == keyword_at(
            old(parser_cursor).text(),
            old(parser_cursor).spot(),
            keyword@,
            reset_pos,
        ),
{
    let ghost t = parser_cursor.text();
    let ghost s0 = parser_cursor.spot();
    let saved = parser_cursor.mark();
    let kw = crate::cursor::chars_of(keyword);
    let mut matched = true;
    let mut i: usize = 0;
    while matched && i < kw.len()
        invariant
            parser_cursor.wf(),
            parser_cursor.text() == t,
            t == old(parser_cursor).text(),
            s0 == old(parser_cursor).spot(),
            t.len() > 0,
            saved.fits(t),
            saved.spot() == s0,
            kw@ == keyword@,
            i <= kw.len(),
            matched ==> kw_scan(t, parser_cursor.spot(), kw@, i as nat) == kw_scan(t, s0, kw@, 0),
            !matched ==> kw_scan(t, s0, kw@, 0) == (false, parser_cursor.spot()),
        decreases kw.len() - i, if matched { 1int } else { 0int },
    {
        if kw[i] != parser_cursor.cur() {
            matched = false;
        } else {
            parser_cursor.next();
            i += 1;
        }
    }
    if reset_pos {
        parser_cursor.reset(&saved);
    }
    matched
}

/// Steps over one space, then one tab, then one line break, each only if
/// the cursor stands on it.
fn skip_ws(parser_cursor: &mut ParserCursor)
    requires
        old(parser_cursor).wf(),
        old(parser_cursor).text().len() > 0,
    ensures
        final(parser_cursor).wf(),
        final(parser_cursor).text() == old(parser_cursor).text(),
        final(parser_cursor).spot() == ws_skip(old(parser_cursor).text(), old(parser_cursor).spot()),
{
    if parser_cursor.cur() == ' ' {
        parser_cursor.next();
    }
    if parser_cursor.cur() == '\t' {
        parser_cursor.next();
    }
    if parser_cursor.cur() == '\n' {
        parser_cursor.next();
    }
}

fn num_of(value: &Vec<char>) -> (r: Result<ValueType, ParseHalt>)
    ensures
        match num_value(value@) {
            Ok(v) => r matches Ok(x) && x@ == v,
            Err(h) => r == Err::<ValueType, ParseHalt>(h),
        },
{
    if value.len() == 0 {
        return Ok(ValueType::Invalid);
    }
    let mut count: usize = 0;
    let mut i: usize = 0;
    while i < value.len()
        invariant
            i <= value.len(),
            count == points(value@.take(i as int)),
            count <= i,
        decreases value.len() - i,
    {
        assert(value@.take(i + 1).drop_last() =~= value@.take(i as int));
        if value[i] == '.' {
            count += 1;
        }
        i += 1;
    }
    assert(value@.take(value.len() as int) =~= value@);
    if count > 1 {
        Err(ParseHalt::BadNumber)
    } else {
        Ok(ValueType::Num(string_of(value)))
    }
}

fn gather_num(parser_cursor: &mut ParserCursor) -> (r: Result<ValueType, ParseHalt>)
    requires
        old(parser_cursor).wf(),
        old(parser_cursor).text().len() > 0,
    ensures
        value_outcome(r, *final(parser_cursor), old(parser_cursor).text(),
            num_loop(old(parser_cursor).text(), old(parser_cursor).spot(), seq![])),
{
    let ghost t = parser_cursor.text();
    let ghost s0 = parser_cursor.spot();
    let mut value: Vec<char> = Vec::new();
    loop
        invariant
            parser_cursor.wf(),
            parser_cursor.text() == t,
            t == old(parser_cursor).text(),
            s0 == old(parser_cursor).spot(),
            t.len() > 0,
            num_loop(t, parser_cursor.spot(), value@) == num_loop(t, s0, seq![]),
        decreases t.len() - parser_cursor.spot().pos,
    {
        proof { parser_cursor.lemma_rows(); }
        skip_ws(parser_cursor);
        let ch = parser_cursor.cur();
        if ch == ',' || ch == ')' || ch == '}' || ch == ']' {
            parser_cursor.previous();
            return num_of(&value);
        } else if '0' <= ch && ch <= '9' {
            value.push(ch);
            match parser_cursor.peek() {
                None => {
                    return Err(ParseHalt::ReadPastEnd);
                },
                Some(p) => {
                    if p == '.' {
                        parser_cursor.next();
                        value.push('.');
                    }
                },
            }
            parser_cursor.next();
        } else {
            return num_of(&value);
        }
    }
}

fn gather_str(parser_cursor: &mut ParserCursor) -> (r: Result<ValueType, ParseHalt>)
    requires
        old(parser_cursor).wf(),
        old(parser_cursor).text().len() > 0,
    ensures
        value_outcome(r, *final(parser_cursor), old(parser_cursor).text(),
            str_loop(old(parser_cursor).text(), old(parser_cursor).spot(), false, seq![])),
{
    let ghost t = parser_cursor.text();
    let ghost s0 = parser_cursor.spot();
    let mut value = String::new();
    let mut init = false;
    loop
        invariant
            parser_cursor.wf(),
            parser_cursor.text() == t,
            t == old(parser_cursor).text(),
            s0 == old(parser_cursor).spot(),
            t.len() > 0,
            str_loop(t, parser_cursor.spot(), init, value@) == str_loop(t, s0, false, seq![]),
        decreases t.len() - parser_cursor.spot().pos, if init { 0int } else { 1int },
    {
        proof { parser_cursor.lemma_rows(); }
        let ch = parser_cursor.cur();
        let before = parser_cursor.pos();
        if !init {
            parser_cursor.next();
            if parser_cursor.pos() > before {
                init = ch == '"';
            } else if ch == '"' {
                init = true;
            } else {
                return Err(ParseHalt::Endless);
            }
        } else {
            if ch == '"' {
                return Ok(ValueType::Str(value));
            }
            crate::document::push_char(&mut value, ch);
            parser_cursor.next();
            if parser_cursor.pos() == before {
                return Err(ParseHalt::Endless);
            }
        }
    }
}

fn gather_slide_str(parser_cursor: &mut ParserCursor, special: bool) -> (r: Result<ValueType, ParseHalt>)
    requires
        old(parser_cursor).wf(),
        old(parser_cursor).text().len() > 0,
    ensures
        value_outcome(r, *final(parser_cursor), old(parser_cursor).text(),
            slide_loop(old(parser_cursor).text(), old(parser_cursor).spot(), special, seq![])),
{
    let ghost t = parser_cursor.text();
    let ghost s0 = parser_cursor.spot();
    let mut value = String::new();
    loop
        invariant
            parser_cursor.wf(),
            parser_cursor.text() == t,
            t == old(parser_cursor).text(),
            s0 == old(parser_cursor).spot(),
            t.len() > 0,
            slide_loop(t, parser_cursor.spot(), special, value@) == slide_loop(t, s0, special, seq![]),
        decreases t.len() - parser_cursor.spot().pos,
    {
        proof { parser_cursor.lemma_rows(); }
        let ch = parser_cursor.cur();
        let ahead = parser_cursor.peek();
        if ch == '\n' {
            match ahead {
                None => {
                    return Ok(ValueType::Str(value));
                },
                Some(p) => {
                    if p == '\n' || p == '#' || p == '}' {
                        return Ok(ValueType::Str(value));
                    }
                    parser_cursor.next();
                },
            }
        } else if special && ahead == Some('}') {
            return Ok(ValueType::Str(value));
        } else {
            match ahead {
                None => {
                    return Err(ParseHalt::ReadPastEnd);
                },
                Some(p) => {
                    if p == '#' && ch == ' ' {
                        if is_keyword(parser_cursor, " #font", true) {
                            return Ok(ValueType::Str(value));
                        }
                    }
                    crate::document::push_char(&mut value, ch);
                    parser_cursor.next();
                },
            }
        }
    }
}

/// The character the cursor stood on before its last step.
fn prev_char(parser_cursor: &ParserCursor) -> (ch: char)
    requires
        parser_cursor.wf(),
        parser_cursor.text().len() > 0,
    ensures
        ch == parser_cursor.text()[parser_cursor.spot().prev],
{
    let p = parser_cursor.prev_pos();
    parser_cursor.char_at(p)
}

fn gather_elem(parser_cursor: &mut ParserCursor, elem: LexType) -> (r: Result<ValueType, ParseHalt>)
    requires
        old(parser_cursor).wf(),
        old(parser_cursor).text().len() > 0,
    ensures
        value_outcome(r, *final(parser_cursor), old(parser_cursor).text(),
            elem_value(old(parser_cursor).text(), old(parser_cursor).spot(), elem)),
{
    match elem {
        LexType::Num => gather_num(parser_cursor),
        LexType::Str => gather_str(parser_cursor),
        LexType::SlideStr => {
            let special = prev_char(parser_cursor) == '{';
            gather_slide_str(parser_cursor, special)
        },
        _ => Ok(ValueType::Invalid),
    }
}

fn gather_arr(parser_cursor: &mut ParserCursor, elem: LexType) -> (r: Result<ValueType, ParseHalt>)
    requires
        old(parser_cursor).wf(),
        old(parser_cursor).text().len() > 0,
    ensures
        value_outcome(r, *final(parser_cursor), old(parser_cursor).text(),
            arr_loop(old(parser_cursor).text(), old(parser_cursor).spot(), false, seq![], elem)),
    decreases lex_rank(elem),
{
    let ghost t = parser_cursor.text();
    let ghost s0 = parser_cursor.spot();
    let mut arr: Vec<ValueType> = Vec::new();
    let mut init = false;
    assert(values_view(arr@) =~= seq![]);
    loop
        invariant
            parser_cursor.wf(),
            parser_cursor.text() == t,
            t == old(parser_cursor).text(),
            s0 == old(parser_cursor).spot(),
            t.len() > 0,
            arr_loop(t, parser_cursor.spot(), init, values_view(arr@), elem) == arr_loop(
                t,
                s0,
                false,
                seq![],
                elem,
            ),
        decreases
            t.len() - parser_cursor.spot().pos,
            if init { 0int } else { 1int },
            if parser_cursor.spot().prev == parser_cursor.spot().pos { 0int } else { 1int },
    {
        let start_pos = parser_cursor.pos();
        let start_prev = parser_cursor.prev_pos();
        let was_init = init;
        skip_ws(parser_cursor);
        let ch = parser_cursor.cur();
        if ch == ')' || ch == '}' || ch == ']' {
            proof {
                lemma_arr_view(arr);
            }
            return Ok(ValueType::Arr(arr));
        } else if ch == ',' {
            parser_cursor.next();
        } else if !init {
            if ch == '[' {
                init = true;
            }
            parser_cursor.next();
        } else {
            let got = if elem == LexType::Arr {
                gather_arr(parser_cursor, LexType::Num)
            } else {
                gather_elem(parser_cursor, elem)
            };
            match got {
                Err(h) => {
                    return Err(h);
                },
                Ok(v) => {
                    let ghost old_arr = arr@;
                    arr.push(v);
                    assert(values_view(arr@) =~= values_view(old_arr).push(v@));
                    parser_cursor.next();
                },
            }
        }
        let now_pos = parser_cursor.pos();
        let now_prev = parser_cursor.prev_pos();
        if !(start_pos < now_pos || (now_pos == start_pos && !was_init && init) || (now_pos
            == start_pos && was_init == init && now_prev == now_pos && start_prev != start_pos)) {
            return Err(ParseHalt::Endless);
        }
    }
}

/// Reads a value of kind `expected_type` at the cursor.  For an array,
/// `arr_type_or_braced` names the kind of its elements (numbers when it is
/// `None`); for slide text, any `Some` marks the text as braced.
pub fn gather_value(
    parser_cursor: &mut ParserCursor,
    expected_type: LexType,
    arr_type_or_braced: Option<LexType>,
) -> (r: Result<ValueType, ParseHalt>)
    requires
        old(parser_cursor).wf(),
        old(parser_cursor).text().len() > 0,
    ensures
        value_outcome(r, *final(parser_cursor), old(parser_cursor).text(),
            gather(old(parser_cursor).text(), old(parser_cursor).spot(), expected_type, arr_type_or_braced)),
{
    match expected_type {
        LexType::Num => gather_num(parser_cursor),
        LexType::Str => gather_str(parser_cursor),
        LexType::SlideStr => {
            let special = arr_type_or_braced.is_some() || prev_char(parser_cursor) == '{';
            gather_slide_str(parser_cursor, special)
        },
        LexType::Braced => Ok(ValueType::Invalid),
        LexType::Arr => {
            let elem = match arr_type_or_braced {
                Some(e) => e,
                None => LexType::Num,
            };
            gather_arr(parser_cursor, elem)
        },
    }
}

} // verus!
