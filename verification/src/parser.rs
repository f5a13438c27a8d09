use vstd::prelude::*;

use crate::cursor::{back, step, step_char, valid_spot, ParserCursor, Spot};
use crate::document::{ConfigCard, ConfigData, ConfigDataV, ConfigKwds, LexType, ParseHalt, ValueType, ValueV, config_seq_view};
use crate::lexer::{ends_ahead, gather, gather_value, is_keyword, is_ws, keyword_at, lemma_scan_forward, moved, ok_spot};

verus! {

broadcast use vstd::string::group_string_axioms;

/// A table of settings: the name written in the document, the setting it
/// names, and the kind of value it takes.
pub open spec fn table_view(kws: Seq<(&str, ConfigKwds, LexType)>) -> Seq<(Seq<char>, ConfigKwds, LexType)> {
    kws.map_values(|e: (&str, ConfigKwds, LexType)| (e.0@, e.1, e.2))
}

/// The outcome of trying the names of a table at one spot.
pub enum KwTry {
    Found(int, Spot),
    NotFound(Spot),
}

/// Tries the names of `kws` from `i` on at the position of `s`: a name
/// matches when it is followed by a space or `=`, and the cursor then steps
/// back once.  After a failed try the position comes back, but the previous
/// position is the one the try left.
pub open spec fn kw_try(t: Seq<char>, s: Spot, kws: Seq<(Seq<char>, ConfigKwds, LexType)>, i: nat) -> KwTry
    decreases kws.len() - i,
{
    if i >= kws.len() {
        KwTry::NotFound(s)
    } else {
        let (m, e) = keyword_at(t, s, kws[i as int].0, false);
        if m && (t[e.pos] == ' ' || t[e.pos] == '=') {
            KwTry::Found(i as int, back(e))
        } else {
            kw_try(t, Spot { pos: s.pos, prev: e.prev }, kws, i + 1)
        }
    }
}

/// The element kind of an array setting: strings for `font`, numbers for
/// the colours.
pub open spec fn arr_elem(value: LexType, kwd: ConfigKwds) -> Option<LexType> {
    if value == LexType::Arr {
        if kwd == ConfigKwds::font {
            Some(LexType::Str)
        } else if kwd == ConfigKwds::font_color {
            Some(LexType::Num)
        } else if kwd == ConfigKwds::slide_background_color {
            Some(LexType::Num)
        } else {
            None
        }
    } else {
        None
    }
}

/// What one round of the settings reader does.
pub enum CfgRound {
    Done(Spot),
    Stop(ParseHalt),
    More(Spot, bool, LexType, ConfigKwds, Seq<ConfigDataV>),
}

pub open spec fn cfg_round(
    t: Seq<char>,
    s: Spot,
    primed: bool,
    value: LexType,
    kwd: ConfigKwds,
    card: Seq<ConfigDataV>,
    kws: Seq<(Seq<char>, ConfigKwds, LexType)>,
) -> CfgRound {
    let c = t[s.pos];
    if c == ')' {
        CfgRound::Done(s)
    } else if is_ws(c) {
        CfgRound::More(step(t, s), primed, value, kwd, card)
    } else if !primed {
        match kw_try(t, s, kws, 0) {
            KwTry::Found(i, e) => CfgRound::More(
                step(t, e),
                true,
                kws[i].2,
                kws[i].1,
                card.push(ConfigDataV { kwd: kws[i].1, data: ValueV::Invalid }),
            ),
            KwTry::NotFound(e) => CfgRound::More(step(t, e), false, value, kwd, card),
        }
    } else if c != '=' {
        CfgRound::More(
            step(t, s),
            false,
            value,
            kwd,
            card.update(card.len() - 1, ConfigDataV { kwd: kwd, data: ValueV::Invalid }),
        )
    } else {
        match gather(t, step(t, s), value, arr_elem(value, kwd)) {
            Err(h) => CfgRound::Stop(h),
            Ok((v, e)) => CfgRound::More(
                step(t, e),
                false,
                value,
                kwd,
                card.update(card.len() - 1, ConfigDataV { kwd: kwd, data: v }),
            ),
        }
    }
}

/// Reading settings up to the closing parenthesis: a name from the table,
/// `=`, and a value of the name's kind; other characters are passed over.
pub open spec fn config_loop(
    t: Seq<char>,
    s: Spot,
    primed: bool,
    value: LexType,
    kwd: ConfigKwds,
    card: Seq<ConfigDataV>,
    kws: Seq<(Seq<char>, ConfigKwds, LexType)>,
) -> Result<(Seq<ConfigDataV>, Spot), ParseHalt>
    decreases t.len() - s.pos, if primed { 0int } else { 1int }, if s.prev == s.pos { 0int } else { 1int },
    when ok_spot(t, s)
{
    match cfg_round(t, s, primed, value, kwd, card, kws) {
        CfgRound::Done(e) => Ok((card, e)),
        CfgRound::Stop(h) => Err(h),
        CfgRound::More(s2, primed2, value2, kwd2, card2) => if moved(t, s, primed, s2, primed2) {
            config_loop(t, s2, primed2, value2, kwd2, card2, kws)
        } else {
            Err(ParseHalt::Endless)
        },
    }
}

/// Reading `keyword(` and the settings that follow, up to `)`; without the
/// parenthesis there are no settings.
pub open spec fn gen_config(t: Seq<char>, s: Spot, kws: Seq<(Seq<char>, ConfigKwds, LexType)>, keyword: Seq<char>) -> Result<(Seq<ConfigDataV>, Spot), ParseHalt> {
    let (_, s1) = keyword_at(t, s, keyword, false);
    if t[s1.pos] != '(' {
        Ok((seq![], s1))
    } else {
        config_loop(t, step(t, s1), false, LexType::Num, ConfigKwds::default, seq![], kws)
    }
}

/// Reading settings ends at or after where it started.
pub proof fn lemma_config_forward(
    t: Seq<char>,
    s: Spot,
    primed: bool,
    value: LexType,
    kwd: ConfigKwds,
    card: Seq<ConfigDataV>,
    kws: Seq<(Seq<char>, ConfigKwds, LexType)>,
)
    requires
        ok_spot(t, s),
    ensures
        ends_ahead(t, s, config_loop(t, s, primed, value, kwd, card, kws)),
    decreases t.len() - s.pos, if primed { 0int } else { 1int }, if s.prev == s.pos { 0int } else { 1int },
{
    match cfg_round(t, s, primed, value, kwd, card, kws) {
        CfgRound::More(s2, primed2, value2, kwd2, card2) => {
            if moved(t, s, primed, s2, primed2) {
                lemma_config_forward(t, s2, primed2, value2, kwd2, card2, kws);
            }
        },
        _ => {},
    }
}

/// Reading `keyword(...)` ends at or after where it started.
pub proof fn lemma_gen_config_forward(t: Seq<char>, s: Spot, kws: Seq<(Seq<char>, ConfigKwds, LexType)>, keyword: Seq<char>)
    requires
        ok_spot(t, s),
    ensures
        ends_ahead(t, s, gen_config(t, s, kws, keyword)),
{
    lemma_scan_forward(t, s, keyword, 0);
    let (_, s1) = keyword_at(t, s, keyword, false);
    if t[s1.pos] == '(' {
        lemma_config_forward(t, step(t, s1), false, LexType::Num, ConfigKwds::default, seq![], kws);
    }
}

pub open spec fn config_outcome(r: Result<ConfigCard, ParseHalt>, c: ParserCursor, t: Seq<char>, expect: Result<(Seq<ConfigDataV>, Spot), ParseHalt>) -> bool {
    match expect {
        Ok((v, e)) => r matches Ok(x) && x@ == v && c.wf() && c.text() == t && c.spot() == e,
        Err(h) => r == Err::<ConfigCard, ParseHalt>(h),
    }
}

fn try_keywords(parser_cursor: &mut ParserCursor, config_keywords: &[(&str, ConfigKwds, LexType)]) -> (r: Option<usize>)
    requires
        old(parser_cursor).wf(),
        old(parser_cursor).text().len() > 0,
    ensures
        final(parser_cursor).wf(),
        final(parser_cursor).text() == old(parser_cursor).text(),
        r matches Some(i) ==> i < config_keywords.len(),
        match kw_try(old(parser_cursor).text(), old(parser_cursor).spot(), table_view(config_keywords@), 0) {
            KwTry::Found(i, e) => 0 <= i < config_keywords.len() && r == Some(i as usize)
                && final(parser_cursor).spot() == e,
            KwTry::NotFound(e) => r is None && final(parser_cursor).spot() == e,
        },
{
    let ghost t = parser_cursor.text();
    let ghost kws = table_view(config_keywords@);
    let ghost s0 = parser_cursor.spot();
    let mut i: usize = 0;
    while i < config_keywords.len()
        invariant
            parser_cursor.wf(),
            parser_cursor.text() == t,
            t == old(parser_cursor).text(),
            s0 == old(parser_cursor).spot(),
            kws == table_view(config_keywords@),
            t.len() > 0,
            i <= config_keywords.len(),
            parser_cursor.spot().pos == s0.pos,
            kw_try(t, parser_cursor.spot(), kws, i as nat) == kw_try(t, s0, kws, 0),
        decreases config_keywords.len() - i,
    {
        let keyword = config_keywords[i].0;
        let saved = parser_cursor.mark();
        if is_keyword(parser_cursor, keyword, false) {
            let ch = parser_cursor.cur();
            if ch == ' ' || ch == '=' {
                parser_cursor.previous();
                return Some(i);
            } else {
                parser_cursor.reset_pos(&saved);
            }
        } else {
            parser_cursor.reset_pos(&saved);
        }
        i += 1;
    }
    None
}

/// Reads `keyword(` and the settings that follow it, named as in
/// `config_keywords`, up to the closing parenthesis.
pub fn gen_config_func(
    parser_cursor: &mut ParserCursor,
    config_keywords: &[(&str, ConfigKwds, LexType)],
    keyword: &str,
) -> (r: Result<ConfigCard, ParseHalt>)
    requires
        old(parser_cursor).wf(),
        old(parser_cursor).text().len() > 0,
    ensures
        config_outcome(r, *final(parser_cursor), old(parser_cursor).text(),
            gen_config(old(parser_cursor).text(), old(parser_cursor).spot(), table_view(config_keywords@), keyword@)),
{
    let ghost t = parser_cursor.text();
    let ghost kws = table_view(config_keywords@);
    let mut card = ConfigCard { config_data: Vec::new() };
    is_keyword(parser_cursor, keyword, false);
    if parser_cursor.cur() != '(' {
        assert(card@ =~= seq![]);
        return Ok(card);
    }
    parser_cursor.next();
    let ghost s0 = parser_cursor.spot();
    let mut keyword_primed = false;
    let mut value = LexType::Num;
    let mut kwd = ConfigKwds::default;
    loop
        invariant
            parser_cursor.wf(),
            parser_cursor.text() == t,
            t == old(parser_cursor).text(),
            kws == table_view(config_keywords@),
            t.len() > 0,
            keyword_primed ==> card.config_data.len() > 0,
            gen_config(t, old(parser_cursor).spot(), kws, keyword@) == config_loop(
                t,
                s0,
                false,
                LexType::Num,
                ConfigKwds::default,
                seq![],
                kws,
            ),
            config_loop(t, parser_cursor.spot(), keyword_primed, value, kwd, card@, kws) == config_loop(
                t,
                s0,
                false,
                LexType::Num,
                ConfigKwds::default,
                seq![],
                kws,
            ),
        decreases
            t.len() - parser_cursor.spot().pos,
            if keyword_primed { 0int } else { 1int },
            if parser_cursor.spot().prev == parser_cursor.spot().pos { 0int } else { 1int },
    {
        let start_pos = parser_cursor.pos();
        let start_prev = parser_cursor.prev_pos();
        let was_primed = keyword_primed;
        let ch = parser_cursor.cur();
        if ch == ')' {
            return Ok(card);
        }
        if ch == ' ' || ch == '\t' || ch == '\n' {
            parser_cursor.next();
        } else {
            if !keyword_primed {
                match try_keywords(parser_cursor, config_keywords) {
                    Some(i) => {
                        keyword_primed = true;
                        value = config_keywords[i].2;
                        kwd = config_keywords[i].1;
                        let ghost old_card = card@;
                        card.config_data.push(ConfigData { kwd: config_keywords[i].1, data: ValueType::Invalid });
                        assert(card@ =~= old_card.push(ConfigDataV { kwd: kwd, data: ValueV::Invalid }));
                    },
                    None => {},
                }
            } else {
                let index = card.config_data.len() - 1;
                let ghost old_card = card@;
                if ch != '=' {
                    card.config_data.set(index, ConfigData { kwd: kwd, data: ValueType::Invalid });
                    assert(card@ =~= old_card.update(index as int, ConfigDataV { kwd: kwd, data: ValueV::Invalid }));
                    keyword_primed = false;
                } else {
                    parser_cursor.next();
                    let arr_lextype: Option<LexType> = if value == LexType::Arr {
                        if kwd == ConfigKwds::font {
                            Some(LexType::Str)
                        } else if kwd == ConfigKwds::font_color {
                            Some(LexType::Num)
                        } else if kwd == ConfigKwds::slide_background_color {
                            Some(LexType::Num)
                        } else {
                            None
                        }
                    } else {
                        None
                    };
                    match gather_value(parser_cursor, value, arr_lextype) {
                        Err(h) => {
                            return Err(h);
                        },
                        Ok(v) => {
                            let ghost vv = v@;
                            card.config_data.set(index, ConfigData { kwd: kwd, data: v });
                            assert(card@ =~= old_card.update(index as int, ConfigDataV { kwd: kwd, data: vv }));
                        },
                    }
                    keyword_primed = false;
                }
            }
            parser_cursor.next();
        }
        let now_pos = parser_cursor.pos();
        let now_prev = parser_cursor.prev_pos();
        if !(start_pos < now_pos || (now_pos == start_pos && !was_primed && keyword_primed) || (
        now_pos == start_pos && was_primed == keyword_primed && now_prev == now_pos && start_prev
            != start_pos)) {
            return Err(ParseHalt::Endless);
        }
    }
}

} // verus!
