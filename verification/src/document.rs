use vstd::prelude::*;

verus! {

/// The kind of value a lexer routine is asked to read.
#[derive(Debug, Copy, Clone, PartialEq, Eq, Structural)]
pub enum LexType {
    Num,
    Str,
    Arr,
    SlideStr,
    Braced,
}

/// The settings and element kinds that a document can name.
#[allow(non_camel_case_types)]
#[derive(Debug, Copy, Clone, PartialEq, Eq, Structural)]
pub enum ConfigKwds {
    slide_width,
    slide_height,
    slide_background_color,
    align,
    valign,
    header1,
    header2,
    header3,
    text,
    text_position,
    text_align,
    text_margin,
    div,
    div_background_color,
    div_x,
    div_y,
    div_width,
    div_height,
    div_position,
    div_align,
    div_nth,
    font,
    font_color,
    font_size,
    font_current,
    font_style,
    font_braced,
    latex,
    latex_color,
    latex_size,
    latex_current,
    latex_position,
    latex_style,
    latex_nth,
    latex_margin,
    image,
    image_path,
    image_position,
    image_width,
    image_height,
    default,
}

/// A value read from a document.  A number is kept as the decimal literal
/// that was read (its digits and points), so that no precision is lost
/// before it is rendered.
#[derive(Debug, PartialEq)]
pub enum ValueType {
    Num(String),
    Str(String),
    Arr(Vec<ValueType>),
    Invalid,
}

/// The mathematical value of a [`ValueType`].
pub enum ValueV {
    Num(Seq<char>),
    Str(Seq<char>),
    Arr(Seq<ValueV>),
    Invalid,
}

pub open spec fn value_view(v: ValueType) -> ValueV
    decreases v,
{
    match v {
        ValueType::Num(s) => ValueV::Num(s@),
        ValueType::Str(s) => ValueV::Str(s@),
        ValueType::Arr(items) => ValueV::Arr(
            Seq::new(
                items@.len(),
                |i: int|
                    if 0 <= i < items@.len() {
                        value_view(items@[i])
                    } else {
                        ValueV::Invalid
                    },
            ),
        ),
        ValueType::Invalid => ValueV::Invalid,
    }
}

impl View for ValueType {
    type V = ValueV;

    open spec fn view(&self) -> ValueV {
        value_view(*self)
    }
}

pub open spec fn values_view(s: Seq<ValueType>) -> Seq<ValueV> {
    s.map_values(|v: ValueType| v@)
}

/// The view of an array value is the sequence of the views of its items.
pub proof fn lemma_arr_view(items: Vec<ValueType>)
    ensures
        ValueType::Arr(items)@ == ValueV::Arr(values_view(items@)),
{
    let x = match ValueType::Arr(items)@ {
        ValueV::Arr(x) => x,
        _ => Seq::empty(),
    };
    assert(x =~= values_view(items@));
}

/// One setting: which one, and its value.
#[derive(Debug, PartialEq)]
pub struct ConfigData {
    pub kwd: ConfigKwds,
    pub data: ValueType,
}

pub struct ConfigDataV {
    pub kwd: ConfigKwds,
    pub data: ValueV,
}

impl View for ConfigData {
    type V = ConfigDataV;

    open spec fn view(&self) -> ConfigDataV {
        ConfigDataV { kwd: self.kwd, data: self.data@ }
    }
}

/// A list of settings.
#[derive(Debug, PartialEq)]
pub struct ConfigCard {
    pub config_data: Vec<ConfigData>,
}

pub open spec fn config_seq_view(s: Seq<ConfigData>) -> Seq<ConfigDataV> {
    s.map_values(|d: ConfigData| d@)
}

impl View for ConfigCard {
    type V = Seq<ConfigDataV>;

    open spec fn view(&self) -> Seq<ConfigDataV> {
        config_seq_view(self.config_data@)
    }
}

pub open spec fn opt_config_view(c: Option<ConfigCard>) -> Option<Seq<ConfigDataV>> {
    match c {
        Some(card) => Some(card@),
        None => None,
    }
}

/// One element of a slide: its kind, its own settings, its value, and the
/// row of the document it was read on.
#[derive(Debug, PartialEq)]
pub struct SlideData {
    pub config: Option<ConfigCard>,
    pub kwd: ConfigKwds,
    pub data: ValueType,
    pub text_row: usize,
}

pub struct SlideDataV {
    pub config: Option<Seq<ConfigDataV>>,
    pub kwd: ConfigKwds,
    pub data: ValueV,
    pub text_row: nat,
}

impl View for SlideData {
    type V = SlideDataV;

    open spec fn view(&self) -> SlideDataV {
        SlideDataV {
            config: opt_config_view(self.config),
            kwd: self.kwd,
            data: self.data@,
            text_row: self.text_row as nat,
        }
    }
}

pub open spec fn slide_seq_view(s: Seq<SlideData>) -> Seq<SlideDataV> {
    s.map_values(|d: SlideData| d@)
}

/// A slide: its own settings and its elements.
#[derive(Debug, PartialEq)]
pub struct SlideCard {
    pub config: Option<ConfigCard>,
    pub slide_data: Vec<SlideData>,
}

pub struct SlideCardV {
    pub config: Option<Seq<ConfigDataV>>,
    pub slide_data: Seq<SlideDataV>,
}

impl View for SlideCard {
    type V = SlideCardV;

    open spec fn view(&self) -> SlideCardV {
        SlideCardV { config: opt_config_view(self.config), slide_data: slide_seq_view(self.slide_data@) }
    }
}

/// One top-level part of a document.
#[derive(Debug, PartialEq)]
pub enum Card {
    SlideCard(SlideCard),
    ConfigCard(ConfigCard),
    Default,
}

pub enum CardV {
    SlideCard(SlideCardV),
    ConfigCard(Seq<ConfigDataV>),
    Default,
}

impl View for Card {
    type V = CardV;

    open spec fn view(&self) -> CardV {
        match self {
            Card::SlideCard(s) => CardV::SlideCard(s@),
            Card::ConfigCard(c) => CardV::ConfigCard(c@),
            Card::Default => CardV::Default,
        }
    }
}

pub open spec fn card_seq_view(s: Seq<Card>) -> Seq<CardV> {
    s.map_values(|c: Card| c@)
}

/// Why reading a document stops short of a result: the reader would step past
/// the end of the text, a round of one of its loops ended without moving
/// forward, so that it would go round again over the same text, or a number
/// was written with more than one point and is no number.
#[derive(Debug, Copy, Clone, PartialEq, Eq, Structural)]
pub enum ParseHalt {
    ReadPastEnd,
    Endless,
    BadNumber,
}

/// Appends one character to a string by `String::push`; the contract claims
/// that the string afterwards is the old one with `c` at its end.
#[verifier::external_body]
pub(crate) fn push_char(s: &mut String, c: char)
    ensures
        final(s)@ == old(s)@.push(c),
{
    s.push(c);
}

/// A string holding the characters of `v`.
pub fn string_of(v: &Vec<char>) -> (s: String)
    ensures
        s@ == v@,
{
    let mut s = String::new();
    let mut i: usize = 0;
    while i < v.len()
        invariant
            i <= v.len(),
            s@ == v@.take(i as int),
        decreases v.len() - i,
    {
        push_char(&mut s, v[i]);
        i += 1;
    }
    s
}

impl ValueType {
    /// A copy of the value.
    pub fn duplicate(&self) -> (r: ValueType)
        ensures
            r@ == self@,
        decreases *self,
    {
        match self {
            ValueType::Num(s) => {
                let r = ValueType::Num(s.clone());
                r
            },
            ValueType::Str(s) => {
                let r = ValueType::Str(s.clone());
                r
            },
            ValueType::Arr(items) => {
                let mut out: Vec<ValueType> = Vec::new();
                let mut i: usize = 0;
                while i < items.len()
                    invariant
                        *self == ValueType::Arr(*items),
                        i <= items.len(),
                        out.len() == i,
                        forall|j: int| 0 <= j < i ==> (#[trigger] out@[j])@ == items@[j]@,
                    decreases items.len() - i,
                {
                    proof {
                        assert(decreases_to!(*self => self->Arr_0));
                    }
                    let v = items[i].duplicate();
                    out.push(v);
                    i += 1;
                }
                let r = ValueType::Arr(out);
                proof {
                    let x = match r@ {
                        ValueV::Arr(x) => x,
                        _ => Seq::empty(),
                    };
                    let y = match self@ {
                        ValueV::Arr(y) => y,
                        _ => Seq::empty(),
                    };
                    assert(x =~= y);
                }
                r
            },
            ValueType::Invalid => ValueType::Invalid,
        }
    }
}

impl ConfigCard {
    /// A copy of the settings.
    pub fn duplicate(&self) -> (r: ConfigCard)
        ensures
            r@ == self@,
    {
        let mut out: Vec<ConfigData> = Vec::new();
        let mut i: usize = 0;
        while i < self.config_data.len()
            invariant
                i <= self.config_data.len(),
                config_seq_view(out@) == config_seq_view(self.config_data@).take(i as int),
            decreases self.config_data.len() - i,
        {
            let d = ConfigData { kwd: self.config_data[i].kwd, data: self.config_data[i].data.duplicate() };
            out.push(d);
            i += 1;
            assert(config_seq_view(self.config_data@).take(i as int) =~= config_seq_view(
                self.config_data@,
            ).take(i - 1).push(d@));
        }
        ConfigCard { config_data: out }
    }
}

} // verus!
