//! The value model of a stylesheet: rules, selectors, declarations and the
//! typed values a declaration can carry.
//!
//! Every container type has a mathematical view (`@`) built from `Seq`,
//! `Option` and plain values; the contracts of the parser and of the layout
//! engine are stated over those views.
//!
//! Numbers are whole pixels (`i64`) and colour channels are bytes: the crate
//! holds no floating-point value.

use crate::text::{debug_text, integer_text, joined, quoted, to_decimal};
use vstd::prelude::*;
use vstd::string::StringExecFns;

verus! {

/// The closed set of length units a declaration can name. `Pct` is the
/// percent sign.
#[derive(Clone, Copy, Debug, PartialEq, Eq, Structural)]
pub enum Unit {
    Em,
    Ex,
    Ch,
    Rem,
    Vh,
    Vw,
    Vmin,
    Vmax,
    Px,
    Mm,
    Q,
    Cm,
    In,
    Pt,
    Pc,
    Pct,
}

/// An RGBA colour, one byte per channel. A channel `c` stands for the
/// normalised intensity `c / 255`.
#[derive(Clone, Copy, Debug, PartialEq, Eq, Structural)]
pub struct Color {
    pub r: u8,
    pub g: u8,
    pub b: u8,
    pub a: u8,
}

/// The typed value of a declaration.
#[derive(Debug, PartialEq, Eq)]
pub enum Value {
    /// A colour.
    Color(Color),
    /// A magnitude in whole units, with its unit.
    Length(i64, Unit),
    /// Anything that is neither a colour nor a length, kept as text.
    Other(String),
}

/// `property: value`, the property name in lower case.
#[derive(Debug, PartialEq, Eq)]
pub struct Declaration {
    pub property: String,
    pub value: Value,
}

/// `tag#id.class.class`: each part is optional, classes keep their order and
/// may repeat.
#[derive(Debug, PartialEq, Eq)]
pub struct SimpleSelector {
    pub tag_name: Option<String>,
    pub id: Option<String>,
    pub classes: Vec<String>,
}

/// A sequence of simple selectors and the raw combinator characters between
/// them.
#[derive(Debug, PartialEq, Eq)]
pub struct Selector {
    pub simple: Vec<SimpleSelector>,
    pub combinators: Vec<char>,
}

/// A selector list with the declarations it applies.
#[derive(Debug, PartialEq, Eq)]
pub struct Rule {
    pub selectors: Vec<Selector>,
    pub declarations: Vec<Declaration>,
}

/// The rules of a stylesheet in source order.
#[derive(Debug, PartialEq, Eq)]
pub struct Stylesheet {
    pub rules: Vec<Rule>,
}

/// View of a [`Value`].
pub enum ValueView {
    Color(Color),
    Length(i64, Unit),
    Other(Seq<char>),
}

/// View of a [`Declaration`].
pub struct DeclarationView {
    pub property: Seq<char>,
    pub value: ValueView,
}

/// View of a [`SimpleSelector`].
pub struct SimpleSelectorView {
    pub tag_name: Option<Seq<char>>,
    pub id: Option<Seq<char>>,
    pub classes: Seq<Seq<char>>,
}

/// View of a [`Selector`].
pub struct SelectorView {
    pub simple: Seq<SimpleSelectorView>,
    pub combinators: Seq<char>,
}

/// View of a [`Rule`].
pub struct RuleView {
    pub selectors: Seq<SelectorView>,
    pub declarations: Seq<DeclarationView>,
}

/// View of a [`Stylesheet`].
pub struct StylesheetView {
    pub rules: Seq<RuleView>,
}

/// The view of an optional string.
pub open spec fn text_opt(s: Option<String>) -> Option<Seq<char>> {
    match s {
        Some(t) => Some(t@),
        None => None,
    }
}

impl View for Value {
    type V = ValueView;

    open spec fn view(&self) -> ValueView {
        match *self {
            Value::Color(c) => ValueView::Color(c),
            Value::Length(n, u) => ValueView::Length(n, u),
            Value::Other(s) => ValueView::Other(s@),
        }
    }
}

impl View for Declaration {
    type V = DeclarationView;

    open spec fn view(&self) -> DeclarationView {
        DeclarationView { property: self.property@, value: self.value@ }
    }
}

impl View for SimpleSelector {
    type V = SimpleSelectorView;

    open spec fn view(&self) -> SimpleSelectorView {
        SimpleSelectorView {
            tag_name: text_opt(self.tag_name),
            id: text_opt(self.id),
            classes: self.classes@.map_values(|c: String| c@),
        }
    }
}

impl View for Selector {
    type V = SelectorView;

    open spec fn view(&self) -> SelectorView {
        SelectorView {
            simple: self.simple@.map_values(|s: SimpleSelector| s@),
            combinators: self.combinators@,
        }
    }
}

impl View for Rule {
    type V = RuleView;

    open spec fn view(&self) -> RuleView {
        RuleView {
            selectors: self.selectors@.map_values(|s: Selector| s@),
            declarations: self.declarations@.map_values(|d: Declaration| d@),
        }
    }
}

impl View for Stylesheet {
    type V = StylesheetView;

    open spec fn view(&self) -> StylesheetView {
        StylesheetView { rules: self.rules@.map_values(|r: Rule| r@) }
    }
}

impl SimpleSelectorView {
    /// The simple selector with no tag, no id and no class.
    pub open spec fn empty() -> SimpleSelectorView {
        SimpleSelectorView { tag_name: None, id: None, classes: Seq::empty() }
    }

    /// Tag, id and every class name are free of upper-case ASCII letters.
    pub open spec fn is_lowercase(self) -> bool {
        &&& self.tag_name matches Some(t) ==> crate::text::no_ascii_uppercase(t)
        &&& self.id matches Some(i) ==> crate::text::no_ascii_uppercase(i)
        &&& forall|k: int|
            0 <= k < self.classes.len() ==> crate::text::no_ascii_uppercase(
                #[trigger] self.classes[k],
            )
    }
}

impl SelectorView {
    /// The selector with no simple selector and no combinator.
    pub open spec fn empty() -> SelectorView {
        SelectorView { simple: Seq::empty(), combinators: Seq::empty() }
    }

    /// No stored simple selector is empty.
    pub open spec fn well_formed(self) -> bool {
        forall|k: int|
            0 <= k < self.simple.len() ==> #[trigger] self.simple[k] != SimpleSelectorView::empty()
    }

    /// The names of every simple selector are free of upper-case ASCII
    /// letters.
    pub open spec fn is_lowercase(self) -> bool {
        forall|k: int| 0 <= k < self.simple.len() ==> (#[trigger] self.simple[k]).is_lowercase()
    }
}

impl RuleView {
    /// No stored selector is empty, and none stores an empty simple selector.
    pub open spec fn well_formed(self) -> bool {
        forall|k: int|
            0 <= k < self.selectors.len() ==> {
                &&& #[trigger] self.selectors[k] != SelectorView::empty()
                &&& self.selectors[k].well_formed()
            }
    }

    /// The names of every selector are free of upper-case ASCII letters.
    pub open spec fn is_lowercase(self) -> bool {
        forall|k: int|
            0 <= k < self.selectors.len() ==> (#[trigger] self.selectors[k]).is_lowercase()
    }
}

impl StylesheetView {
    /// Every rule is well formed.
    pub open spec fn well_formed(self) -> bool {
        forall|k: int| 0 <= k < self.rules.len() ==> (#[trigger] self.rules[k]).well_formed()
    }

    /// The names of every selector are free of upper-case ASCII letters.
    pub open spec fn is_lowercase(self) -> bool {
        forall|k: int| 0 <= k < self.rules.len() ==> (#[trigger] self.rules[k]).is_lowercase()
    }
}

impl ValueView {
    /// The value as text: a colour by its channels, a length by its
    /// magnitude, anything else as `{:?}` formats it.
    pub open spec fn text(self) -> Seq<char> {
        match self {
            ValueView::Color(c) => c.text(),
            ValueView::Length(n, _) => integer_text(n as int),
            ValueView::Other(s) => debug_text(s),
        }
    }
}

impl DeclarationView {
    /// `property: value`.
    pub open spec fn text(self) -> Seq<char> {
        self.property + ": "@ + self.value.text()
    }
}

/// The first `n` of `classes`, each behind a `.`.
pub open spec fn classes_text(classes: Seq<Seq<char>>, n: int) -> Seq<char>
    decreases n,
{
    if n <= 0 || n > classes.len() {
        Seq::empty()
    } else {
        classes_text(classes, n - 1) + "."@ + classes[n - 1]
    }
}

/// The first `n` of `declarations`, each on a line of its own behind four
/// spaces.
pub open spec fn declarations_text(declarations: Seq<DeclarationView>, n: int) -> Seq<char>
    decreases n,
{
    if n <= 0 || n > declarations.len() {
        Seq::empty()
    } else {
        declarations_text(declarations, n - 1) + "    "@ + declarations[n - 1].text() + "\n"@
    }
}

impl SimpleSelectorView {
    /// `tag#id.class.class`, each part only where there is one.
    pub open spec fn text(self) -> Seq<char> {
        (match self.tag_name {
            Some(t) => t,
            None => Seq::empty(),
        }) + (match self.id {
            Some(i) => "#"@ + i,
            None => Seq::empty(),
        }) + classes_text(self.classes, self.classes.len() as int)
    }
}

impl SelectorView {
    /// The simple selectors, `, ` between them.
    pub open spec fn text(self) -> Seq<char> {
        joined(
            self.simple.map_values(|s: SimpleSelectorView| s.text()),
            self.simple.len() as int,
            ", "@,
        )
    }
}

impl RuleView {
    /// The selectors, `, ` between them, and the declarations between
    /// braces, one on a line.
    pub open spec fn text(self) -> Seq<char> {
        joined(
            self.selectors.map_values(|s: SelectorView| s.text()),
            self.selectors.len() as int,
            ", "@,
        ) + " {\n"@ + declarations_text(self.declarations, self.declarations.len() as int) + "}"@
    }
}

impl StylesheetView {
    /// The rules, an empty line between them.
    pub open spec fn text(self) -> Seq<char> {
        joined(self.rules.map_values(|r: RuleView| r.text()), self.rules.len() as int, "\n\n"@)
    }
}

impl Color {
    /// The four channels: `r: 255 g: 0 b: 0 a: 255`.
    pub open spec fn text(self) -> Seq<char> {
        "r: "@ + integer_text(self.r as int) + " g: "@ + integer_text(self.g as int) + " b: "@
            + integer_text(self.b as int) + " a: "@ + integer_text(self.a as int)
    }

    /// The colour as text: its four channels.
    pub fn to_text(&self) -> (text: String)
        ensures
            text@ == self.text(),
    {
        let mut text = String::new();
        text.append("r: ");
        text.append(to_decimal(self.r as i64).as_str());
        text.append(" g: ");
        text.append(to_decimal(self.g as i64).as_str());
        text.append(" b: ");
        text.append(to_decimal(self.b as i64).as_str());
        text.append(" a: ");
        text.append(to_decimal(self.a as i64).as_str());
        text
    }

    /// The colour with the given channels.
    pub fn new(r: u8, g: u8, b: u8, a: u8) -> (c: Color)
        ensures
            c == (Color { r, g, b, a }),
    {
        Color { r, g, b, a }
    }

    /// Opaque white, the colour of anything whose colour is not known.
    pub open spec fn white() -> Color {
        Color { r: 255, g: 255, b: 255, a: 255 }
    }
}

impl Default for Color {
    /// Opaque white.
    fn default() -> (c: Color)
        ensures
            c == Color::white(),
    {
        Color::new(255, 255, 255, 255)
    }
}

impl Value {
    /// The value as text: a colour by its channels, a length by its
    /// magnitude without the unit, anything else between double quotes.
    pub fn to_text(&self) -> (text: String)
        ensures
            text@ == self@.text(),
    {
        match self {
            Value::Color(c) => c.to_text(),
            Value::Length(n, _) => to_decimal(*n),
            Value::Other(s) => quoted(s.as_str()),
        }
    }
}

impl Declaration {
    /// The declaration as text: `property: value`.
    pub fn to_text(&self) -> (text: String)
        ensures
            text@ == self@.text(),
    {
        let mut text = String::new();
        text.append(self.property.as_str());
        text.append(": ");
        text.append(self.value.to_text().as_str());
        text
    }

    /// The declaration `property: value`.
    pub fn new(property: String, value: Value) -> (d: Declaration)
        ensures
            d.property == property,
            d.value == value,
    {
        Declaration { property, value }
    }
}

impl Default for Declaration {
    /// The declaration with an empty property name and an empty text value.
    fn default() -> (d: Declaration)
        ensures
            d@ == (DeclarationView {
                property: Seq::empty(),
                value: ValueView::Other(Seq::empty()),
            }),
    {
        Declaration { property: String::new(), value: Value::Other(String::new()) }
    }
}

impl SimpleSelector {
    /// The simple selector as text: `tag#id.class.class`.
    pub fn to_text(&self) -> (text: String)
        ensures
            text@ == self@.text(),
    {
        let mut text = String::new();
        match &self.tag_name {
            Some(t) => {
                text.append(t.as_str());
            },
            None => {},
        }
        match &self.id {
            Some(s) => {
                text.push('#');
                text.append(s.as_str());
            },
            None => {},
        }
        proof {
            reveal_strlit("#");
        }
        let ghost head = text@;
        let mut i: usize = 0;
        while i < self.classes.len()
            invariant
                0 <= i <= self.classes@.len(),
                text@ == head + classes_text(self@.classes, i as int),
            decreases self.classes@.len() - i,
        {
            proof {
                reveal_strlit(".");
            }
            text.push('.');
            text.append(self.classes[i].as_str());
            i += 1;
        }
        text
    }

    /// The simple selector with the given parts.
    pub fn new(tag_name: Option<String>, id: Option<String>, classes: Vec<String>) -> (s:
        SimpleSelector)
        ensures
            s.tag_name == tag_name,
            s.id == id,
            s.classes == classes,
    {
        SimpleSelector { tag_name, id, classes }
    }

    /// Whether the selector has no tag, no id and no class.
    pub fn is_empty(&self) -> (b: bool)
        ensures
            b == (self@ == SimpleSelectorView::empty()),
    {
        let b = self.tag_name.is_none() && self.id.is_none() && self.classes.len() == 0;
        proof {
            if b {
                assert(self@.classes =~= Seq::empty());
            } else if self.classes.len() != 0 {
                assert(self@.classes.len() != 0);
            }
        }
        b
    }
}

impl Default for SimpleSelector {
    /// The empty simple selector.
    fn default() -> (s: SimpleSelector)
        ensures
            s@ == SimpleSelectorView::empty(),
    {
        let s = SimpleSelector { tag_name: None, id: None, classes: Vec::new() };
        assert(s@.classes =~= Seq::empty());
        s
    }
}

impl Selector {
    /// The selector as text: its simple selectors, `, ` between them.
    pub fn to_text(&self) -> (text: String)
        ensures
            text@ == self@.text(),
    {
        let ghost parts = self@.simple.map_values(|s: SimpleSelectorView| s.text());
        let mut text = String::new();
        let mut i: usize = 0;
        while i < self.simple.len()
            invariant
                0 <= i <= self.simple@.len(),
                parts == self@.simple.map_values(|s: SimpleSelectorView| s.text()),
                text@ == joined(parts, i as int, ", "@),
            decreases self.simple@.len() - i,
        {
            if !text.as_str().is_empty() {
                text.append(", ");
            }
            text.append(self.simple[i].to_text().as_str());
            i += 1;
        }
        text
    }

    /// The selector with the given simple selectors and combinators.
    pub fn new(simple: Vec<SimpleSelector>, combinators: Vec<char>) -> (s: Selector)
        ensures
            s.simple == simple,
            s.combinators == combinators,
    {
        Selector { simple, combinators }
    }

    /// Whether the selector has no simple selector and no combinator.
    pub fn is_empty(&self) -> (b: bool)
        ensures
            b == (self@ == SelectorView::empty()),
    {
        let b = self.simple.len() == 0 && self.combinators.len() == 0;
        proof {
            if b {
                assert(self@.simple =~= Seq::empty());
                assert(self@.combinators =~= Seq::empty());
            } else if self.simple.len() != 0 {
                assert(self@.simple.len() != 0);
            }
        }
        b
    }
}

impl Default for Selector {
    /// The empty selector.
    fn default() -> (s: Selector)
        ensures
            s@ == SelectorView::empty(),
    {
        let s = Selector { simple: Vec::new(), combinators: Vec::new() };
        assert(s@.simple =~= Seq::empty());
        s
    }
}

impl Rule {
    /// The rule as text: its selectors, `, ` between them, then its
    /// declarations between braces, each on a line of its own.
    pub fn to_text(&self) -> (text: String)
        ensures
            text@ == self@.text(),
    {
        let ghost parts = self@.selectors.map_values(|s: SelectorView| s.text());
        let mut text = String::new();
        let mut i: usize = 0;
        while i < self.selectors.len()
            invariant
                0 <= i <= self.selectors@.len(),
                parts == self@.selectors.map_values(|s: SelectorView| s.text()),
                text@ == joined(parts, i as int, ", "@),
            decreases self.selectors@.len() - i,
        {
            if !text.as_str().is_empty() {
                text.append(", ");
            }
            text.append(self.selectors[i].to_text().as_str());
            i += 1;
        }
        text.append(" {\n");
        let ghost head = text@;
        let mut k: usize = 0;
        while k < self.declarations.len()
            invariant
                0 <= k <= self.declarations@.len(),
                text@ == head + declarations_text(self@.declarations, k as int),
            decreases self.declarations@.len() - k,
        {
            text.append("    ");
            text.append(self.declarations[k].to_text().as_str());
            text.append("\n");
            k += 1;
        }
        text.append("}");
        text
    }

    /// The rule that applies `declarations` to what `selectors` match.
    pub fn new(selectors: Vec<Selector>, declarations: Vec<Declaration>) -> (r: Rule)
        ensures
            r.selectors == selectors,
            r.declarations == declarations,
    {
        Rule { selectors, declarations }
    }
}

impl Default for Rule {
    /// The rule with no selector and no declaration.
    fn default() -> (r: Rule)
        ensures
            r@ == (RuleView { selectors: Seq::empty(), declarations: Seq::empty() }),
    {
        let r = Rule { selectors: Vec::new(), declarations: Vec::new() };
        assert(r@.selectors =~= Seq::empty());
        assert(r@.declarations =~= Seq::empty());
        r
    }
}

impl Stylesheet {
    /// The stylesheet as text: its rules, an empty line between them.
    pub fn to_text(&self) -> (text: String)
        ensures
            text@ == self@.text(),
    {
        let ghost parts = self@.rules.map_values(|r: RuleView| r.text());
        let mut text = String::new();
        let mut i: usize = 0;
        while i < self.rules.len()
            invariant
                0 <= i <= self.rules@.len(),
                parts == self@.rules.map_values(|r: RuleView| r.text()),
                text@ == joined(parts, i as int, "\n\n"@),
            decreases self.rules@.len() - i,
        {
            if !text.as_str().is_empty() {
                text.append("\n\n");
            }
            text.append(self.rules[i].to_text().as_str());
            i += 1;
        }
        text
    }

    /// The stylesheet made of `rules`, in that order.
    pub fn new(rules: Vec<Rule>) -> (s: Stylesheet)
        ensures
            s.rules == rules,
    {
        Stylesheet { rules }
    }
}

impl Default for Stylesheet {
    /// The stylesheet with no rule.
    fn default() -> (s: Stylesheet)
        ensures
            s@ == (StylesheetView { rules: Seq::empty() }),
    {
        let s = Stylesheet { rules: Vec::new() };
        assert(s@.rules =~= Seq::empty());
        s
    }
}

} // verus!
