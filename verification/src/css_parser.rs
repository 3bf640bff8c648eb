//! The stylesheet parser: from text to the rules of [`crate::css`].
//!
//! The parser never fails. Text that does not fit the grammar is skipped or
//! read by a fallback, and what every text parses to is stated by the spec
//! functions of this module, each a function of the text and of the position
//! at which reading starts.
//!
//! ```text
//! stylesheet   = rule*
//! rule         = selectors '{' declarations '}'
//! selectors    = selector (','? selector)*
//! selector     = tag? ('#' id | '.' class)*
//! declarations = (property ':' value (';' | before '}'))*
//! ```

use crate::css::{
    Color,
    Declaration,
    DeclarationView,
    Rule,
    RuleView,
    Selector,
    SelectorView,
    SimpleSelector,
    SimpleSelectorView,
    Stylesheet,
    StylesheetView,
    Unit,
    Value,
    ValueView,
};
use crate::text::{
    ascii_lowercase,
    chars_of,
    decimal_value,
    is_whitespace_char,
    lemma_scan_while_bounds,
    lemma_scan_while_progress,
    lowercase,
    no_ascii_uppercase,
    numeric,
    scan_while,
    str_eq,
    string_of,
    unsigned_of,
    whitespace,
};
use vstd::prelude::*;

verus! {

// Characters and identifiers.

/// A value read from a text, and the position behind what was read.
pub struct Parsed<T> {
    pub value: T,
    pub position: int,
}

/// `c` can start an identifier: an ASCII letter or `_`.
pub open spec fn is_identifier_start(c: char) -> bool {
    ('a' <= c <= 'z') || ('A' <= c <= 'Z') || c == '_'
}

/// `c` can stand in an identifier: an ASCII letter, an ASCII digit, `_` or
/// `-`.
pub open spec fn is_identifier_char(c: char) -> bool {
    is_identifier_start(c) || ('0' <= c <= '9') || c == '-'
}

/// The characters of identifiers.
pub open spec fn identifier_chars() -> spec_fn(char) -> bool {
    |c: char| is_identifier_char(c)
}

/// The characters of a property name: all but `:`.
pub open spec fn property_chars() -> spec_fn(char) -> bool {
    |c: char| c != ':'
}

/// The characters of a declared value: all but `;`, a line feed and `}`.
pub open spec fn value_chars() -> spec_fn(char) -> bool {
    |c: char| c != ';' && c != '\n' && c != '}'
}

/// The characters that are skipped where a selector cannot be read: all but
/// `,` and `{`.
pub open spec fn skipped_chars() -> spec_fn(char) -> bool {
    |c: char| c != ',' && c != '{'
}

/// Where the identifier at position `i` of `s` ends: `i` itself where no
/// identifier starts there.
pub open spec fn identifier_end(s: Seq<char>, i: int) -> int {
    if 0 <= i < s.len() && is_identifier_start(s[i]) {
        scan_while(s, i, identifier_chars())
    } else {
        i
    }
}

/// The identifier at position `i` of `s`, in lower case; empty where none
/// starts there.
pub open spec fn identifier_at(s: Seq<char>, i: int) -> Seq<char> {
    ascii_lowercase(s.subrange(i, identifier_end(s, i)))
}

/// The identifier at position `i` of `s` as an id: none where it is empty.
pub open spec fn id_at(s: Seq<char>, i: int) -> Option<Seq<char>> {
    if identifier_at(s, i).len() == 0 {
        None
    } else {
        Some(identifier_at(s, i))
    }
}

// Selectors.

/// What has been read of a simple selector behind its tag.
pub struct SelectorParts {
    /// The position behind what has been read.
    pub position: int,
    /// The id, unless there was none or more than one.
    pub id: Option<Seq<char>>,
    /// Whether an id was read while one was already there.
    pub multiple_ids: bool,
    /// The classes, in the order read.
    pub classes: Seq<Seq<char>>,
}

/// Whether the parts of a simple selector go on at position `i` of `s`: not
/// at the end, at `,`, at `{` or at white space.
pub open spec fn in_selector(s: Seq<char>, i: int) -> bool {
    &&& 0 <= i < s.len()
    &&& s[i] != ','
    &&& s[i] != '{'
    &&& !is_whitespace_char(s[i])
}

/// `parts` after one more part is read.
///
/// `#` reads an id: the first one is kept, unless it is empty; any further
/// one removes the id for good. `.` reads a class, which is kept unless it is
/// empty. Anything else is skipped up to the next `,` or `{`.
pub open spec fn next_part(s: Seq<char>, parts: SelectorParts) -> SelectorParts
    recommends
        in_selector(s, parts.position),
{
    let i = parts.position;
    if s[i] == '#' {
        if parts.id is Some || parts.multiple_ids {
            SelectorParts {
                position: identifier_end(s, i + 1),
                id: None,
                multiple_ids: true,
                classes: parts.classes,
            }
        } else {
            SelectorParts {
                position: identifier_end(s, i + 1),
                id: id_at(s, i + 1),
                multiple_ids: false,
                classes: parts.classes,
            }
        }
    } else if s[i] == '.' {
        SelectorParts {
            position: identifier_end(s, i + 1),
            id: parts.id,
            multiple_ids: parts.multiple_ids,
            classes: if identifier_at(s, i + 1).len() == 0 {
                parts.classes
            } else {
                parts.classes.push(identifier_at(s, i + 1))
            },
        }
    } else {
        SelectorParts {
            position: scan_while(s, i, skipped_chars()),
            id: parts.id,
            multiple_ids: parts.multiple_ids,
            classes: parts.classes,
        }
    }
}

/// Reading a part moves on, and not beyond the end.
pub proof fn lemma_next_part_progress(s: Seq<char>, parts: SelectorParts)
    requires
        in_selector(s, parts.position),
    ensures
        parts.position < next_part(s, parts).position <= s.len(),
{
    let i = parts.position;
    if s[i] == '#' || s[i] == '.' {
        lemma_scan_while_bounds(s, i + 1, identifier_chars());
    } else {
        lemma_scan_while_progress(s, i, skipped_chars());
    }
}

/// `parts` after all the parts of the simple selector are read.
pub open spec fn all_parts(s: Seq<char>, parts: SelectorParts) -> SelectorParts
    decreases s.len() - parts.position,
{
    if in_selector(s, parts.position) {
        proof {
            lemma_next_part_progress(s, parts);
        }
        all_parts(s, next_part(s, parts))
    } else {
        parts
    }
}

/// The selector at position `i` of `s`: white space, an optional tag, and
/// the ids and classes behind it. A simple selector that is empty is not
/// stored, so the selector is then empty itself. No combinator is read.
pub open spec fn selector_at(s: Seq<char>, i: int) -> Parsed<SelectorView> {
    let start = scan_while(s, i, whitespace());
    let tag_name = if 0 <= start < s.len() && is_identifier_start(s[start]) {
        Some(identifier_at(s, start))
    } else {
        None
    };
    let parts = all_parts(
        s,
        SelectorParts {
            position: identifier_end(s, start),
            id: None,
            multiple_ids: false,
            classes: Seq::empty(),
        },
    );
    let simple = SimpleSelectorView { tag_name, id: parts.id, classes: parts.classes };
    Parsed {
        value: SelectorView {
            simple: if simple == SimpleSelectorView::empty() {
                Seq::empty()
            } else {
                seq![simple]
            },
            combinators: Seq::empty(),
        },
        position: parts.position,
    }
}

/// A selector ends inside the text and not before its start.
pub proof fn lemma_selector_at_bounds(s: Seq<char>, i: int)
    requires
        0 <= i <= s.len(),
    ensures
        i <= selector_at(s, i).position <= s.len(),
        scan_while(s, i, whitespace()) <= selector_at(s, i).position,
{
    let start = scan_while(s, i, whitespace());
    lemma_scan_while_bounds(s, i, whitespace());
    lemma_scan_while_bounds(s, start, identifier_chars());
    lemma_all_parts_bounds(
        s,
        SelectorParts {
            position: identifier_end(s, start),
            id: None,
            multiple_ids: false,
            classes: Seq::empty(),
        },
    );
}

/// The parts of a selector end inside the text and not before their start.
pub proof fn lemma_all_parts_bounds(s: Seq<char>, parts: SelectorParts)
    requires
        0 <= parts.position <= s.len(),
    ensures
        parts.position <= all_parts(s, parts).position <= s.len(),
        !in_selector(s, all_parts(s, parts).position),
        parts.position < all_parts(s, parts).position <==> in_selector(s, parts.position),
    decreases s.len() - parts.position,
{
    if in_selector(s, parts.position) {
        lemma_next_part_progress(s, parts);
        lemma_all_parts_bounds(s, next_part(s, parts));
    }
}

/// Reading a selector of a list moves on, and not beyond the end.
pub proof fn lemma_next_selector_progress(s: Seq<char>, i: int)
    requires
        0 <= i < s.len(),
        s[i] != '{',
    ensures
        i < next_selector(s, i) <= s.len(),
{
    let start = scan_while(s, i, whitespace());
    let end = selector_at(s, i).position;
    lemma_selector_at_bounds(s, i);
    lemma_scan_while_bounds(s, end, whitespace());
    if is_whitespace_char(s[i]) {
        lemma_scan_while_progress(s, i, whitespace());
    } else if is_identifier_start(s[i]) {
        lemma_all_parts_bounds(
            s,
            SelectorParts {
                position: identifier_end(s, start),
                id: None,
                multiple_ids: false,
                classes: Seq::empty(),
            },
        );
    } else if s[i] != ',' {
        lemma_all_parts_bounds(
            s,
            SelectorParts {
                position: identifier_end(s, start),
                id: None,
                multiple_ids: false,
                classes: Seq::empty(),
            },
        );
    }
}

/// Where the next selector of a list starts, the selector at `i` being read:
/// behind white space and one `,`, if there is one.
pub open spec fn next_selector(s: Seq<char>, i: int) -> int {
    let j = scan_while(s, selector_at(s, i).position, whitespace());
    if 0 <= j < s.len() && s[j] == ',' {
        j + 1
    } else {
        j
    }
}

/// The position behind the character at position `i` of `s`, or `i` at the
/// end of `s`.
pub open spec fn step(s: Seq<char>, i: int) -> int {
    if 0 <= i < s.len() {
        i + 1
    } else {
        i
    }
}

/// The selectors from position `i` of `s` up to the next `{`, which is read
/// too, added to `found`. Empty selectors are left out.
pub open spec fn selectors_at(s: Seq<char>, i: int, found: Seq<SelectorView>) -> Parsed<
    Seq<SelectorView>,
>
    decreases s.len() - i,
{
    if 0 <= i < s.len() && s[i] != '{' {
        proof {
            lemma_next_selector_progress(s, i);
        }
        let selector = selector_at(s, i).value;
        selectors_at(
            s,
            next_selector(s, i),
            if selector == SelectorView::empty() {
                found
            } else {
                found.push(selector)
            },
        )
    } else {
        Parsed { value: found, position: step(s, i) }
    }
}

/// The selectors of a list end inside the text, and behind their start
/// unless the text has ended.
pub proof fn lemma_selectors_at_bounds(s: Seq<char>, i: int, found: Seq<SelectorView>)
    requires
        0 <= i <= s.len(),
    ensures
        i <= selectors_at(s, i, found).position <= s.len(),
        i < s.len() ==> i < selectors_at(s, i, found).position,
    decreases s.len() - i,
{
    if i < s.len() && s[i] != '{' {
        lemma_next_selector_progress(s, i);
        let selector = selector_at(s, i).value;
        lemma_selectors_at_bounds(
            s,
            next_selector(s, i),
            if selector == SelectorView::empty() {
                found
            } else {
                found.push(selector)
            },
        );
    }
}

// Values.

/// The kind of value that a property takes.
pub enum ValueKind {
    Color,
    Length,
    Other,
}

/// The kind of value that the property named `property` takes: a colour for
/// the three colour properties, a length for margins, padding, border
/// widths, `height` and `width`, text for every other name.
pub open spec fn kind_of(property: Seq<char>) -> ValueKind {
    if property == "background-color"@ || property == "border-color"@ || property == "color"@ {
        ValueKind::Color
    } else if property == "margin-right"@ || property == "margin-bottom"@ || property
        == "margin-left"@ || property == "margin-top"@ || property == "padding-right"@ || property
        == "padding-bottom"@ || property == "padding-left"@ || property == "padding-top"@
        || property == "border-right-width"@ || property == "border-bottom-width"@ || property
        == "border-left-width"@ || property == "border-top-width"@ || property == "height"@
        || property == "width"@ {
        ValueKind::Length
    } else {
        ValueKind::Other
    }
}

/// The unit that `suffix` names; pixels for a suffix that names none.
pub open spec fn unit_of(suffix: Seq<char>) -> Unit {
    if suffix == "em"@ {
        Unit::Em
    } else if suffix == "ex"@ {
        Unit::Ex
    } else if suffix == "ch"@ {
        Unit::Ch
    } else if suffix == "rem"@ {
        Unit::Rem
    } else if suffix == "vh"@ {
        Unit::Vh
    } else if suffix == "vw"@ {
        Unit::Vw
    } else if suffix == "vmin"@ {
        Unit::Vmin
    } else if suffix == "vmax"@ {
        Unit::Vmax
    } else if suffix == "px"@ {
        Unit::Px
    } else if suffix == "mm"@ {
        Unit::Mm
    } else if suffix == "q"@ {
        Unit::Q
    } else if suffix == "cm"@ {
        Unit::Cm
    } else if suffix == "in"@ {
        Unit::In
    } else if suffix == "pt"@ {
        Unit::Pt
    } else if suffix == "pc"@ {
        Unit::Pc
    } else if suffix == "%"@ {
        Unit::Pct
    } else {
        Unit::Px
    }
}

/// The magnitude that `digits` writes: their number where they are one or
/// more ASCII digits and the number fits in an `i64`, and 0 otherwise.
pub open spec fn magnitude_of(digits: Seq<char>) -> i64 {
    match unsigned_of(digits) {
        Some(n) => if n <= i64::MAX {
            n as i64
        } else {
            0
        },
        None => 0,
    }
}

/// The length that `raw` writes: the leading numeric characters give the
/// magnitude, everything behind them names the unit.
pub open spec fn length_of(raw: Seq<char>) -> ValueView {
    let split = scan_while(raw, 0, numeric());
    ValueView::Length(
        magnitude_of(raw.subrange(0, split)),
        unit_of(raw.subrange(split, raw.len() as int)),
    )
}

/// Where white space ends that is read backwards from position `end` of `s`
/// down to position `start`: the least position from which on there is
/// white space only.
pub open spec fn scan_back(s: Seq<char>, start: int, end: int) -> int
    decreases end - start,
{
    if 0 <= start < end <= s.len() && is_whitespace_char(s[end - 1]) {
        scan_back(s, start, end - 1)
    } else {
        end
    }
}

/// `raw` without the white space at its start and at its end.
pub open spec fn trimmed(raw: Seq<char>) -> Seq<char> {
    let start = scan_while(raw, 0, whitespace());
    raw.subrange(start, scan_back(raw, start, raw.len() as int))
}

/// The colour that the keyword `name` stands for: the sixteen basic colours,
/// `orange` and `transparent`, in lower case.
pub open spec fn named_color(name: Seq<char>) -> Option<Color> {
    if name == "black"@ {
        Some(Color { r: 0, g: 0, b: 0, a: 255 })
    } else if name == "silver"@ {
        Some(Color { r: 192, g: 192, b: 192, a: 255 })
    } else if name == "gray"@ {
        Some(Color { r: 128, g: 128, b: 128, a: 255 })
    } else if name == "white"@ {
        Some(Color { r: 255, g: 255, b: 255, a: 255 })
    } else if name == "maroon"@ {
        Some(Color { r: 128, g: 0, b: 0, a: 255 })
    } else if name == "red"@ {
        Some(Color { r: 255, g: 0, b: 0, a: 255 })
    } else if name == "purple"@ {
        Some(Color { r: 128, g: 0, b: 128, a: 255 })
    } else if name == "fuchsia"@ {
        Some(Color { r: 255, g: 0, b: 255, a: 255 })
    } else if name == "green"@ {
        Some(Color { r: 0, g: 128, b: 0, a: 255 })
    } else if name == "lime"@ {
        Some(Color { r: 0, g: 255, b: 0, a: 255 })
    } else if name == "olive"@ {
        Some(Color { r: 128, g: 128, b: 0, a: 255 })
    } else if name == "yellow"@ {
        Some(Color { r: 255, g: 255, b: 0, a: 255 })
    } else if name == "navy"@ {
        Some(Color { r: 0, g: 0, b: 128, a: 255 })
    } else if name == "blue"@ {
        Some(Color { r: 0, g: 0, b: 255, a: 255 })
    } else if name == "teal"@ {
        Some(Color { r: 0, g: 128, b: 128, a: 255 })
    } else if name == "aqua"@ {
        Some(Color { r: 0, g: 255, b: 255, a: 255 })
    } else if name == "orange"@ {
        Some(Color { r: 255, g: 165, b: 0, a: 255 })
    } else if name == "transparent"@ {
        Some(Color { r: 0, g: 0, b: 0, a: 0 })
    } else {
        None
    }
}

/// The number that the hexadecimal digit `c` stands for.
pub open spec fn hex_value(c: char) -> Option<int> {
    if '0' <= c <= '9' {
        Some(c as int - '0' as int)
    } else if 'a' <= c <= 'f' {
        Some(c as int - 'a' as int + 10)
    } else if 'A' <= c <= 'F' {
        Some(c as int - 'A' as int + 10)
    } else {
        None
    }
}

/// The opaque colour that `token` writes in hexadecimal: `#rgb`, each digit
/// standing for two equal ones, or `#rrggbb`.
pub open spec fn hex_color(token: Seq<char>) -> Option<Color> {
    if token.len() == 4 && token[0] == '#' && hex_value(token[1]) is Some && hex_value(
        token[2],
    ) is Some && hex_value(token[3]) is Some {
        Some(
            Color {
                r: (17 * hex_value(token[1])->0) as u8,
                g: (17 * hex_value(token[2])->0) as u8,
                b: (17 * hex_value(token[3])->0) as u8,
                a: 255,
            },
        )
    } else if token.len() == 7 && token[0] == '#' && hex_value(token[1]) is Some && hex_value(
        token[2],
    ) is Some && hex_value(token[3]) is Some && hex_value(token[4]) is Some && hex_value(
        token[5],
    ) is Some && hex_value(token[6]) is Some {
        Some(
            Color {
                r: (16 * hex_value(token[1])->0 + hex_value(token[2])->0) as u8,
                g: (16 * hex_value(token[3])->0 + hex_value(token[4])->0) as u8,
                b: (16 * hex_value(token[5])->0 + hex_value(token[6])->0) as u8,
                a: 255,
            },
        )
    } else {
        None
    }
}

/// The colour that `raw` writes, white space around it aside: that of a
/// colour keyword, else that of a hexadecimal colour, else opaque white.
pub open spec fn color_of(raw: Seq<char>) -> Color {
    let token = trimmed(raw);
    match named_color(token) {
        Some(c) => c,
        None => match hex_color(token) {
            Some(c) => c,
            None => Color::white(),
        },
    }
}

/// The value that the text `raw` declares for the property named
/// `property`.
pub open spec fn typed_value(property: Seq<char>, raw: Seq<char>) -> ValueView {
    match kind_of(property) {
        ValueKind::Color => ValueView::Color(color_of(raw)),
        ValueKind::Length => length_of(raw),
        ValueKind::Other => ValueView::Other(raw),
    }
}

// Declarations, rules and the stylesheet.

/// Where the property name of the declaration at position `i` of `s`
/// starts: behind white space.
pub open spec fn property_start(s: Seq<char>, i: int) -> int {
    scan_while(s, i, whitespace())
}

/// Where the property name of the declaration at position `i` of `s` ends:
/// at the next `:`.
pub open spec fn property_end(s: Seq<char>, i: int) -> int {
    scan_while(s, property_start(s, i), property_chars())
}

/// Where the value of the declaration at position `i` of `s` starts: behind
/// the `:` and white space.
pub open spec fn value_start(s: Seq<char>, i: int) -> int {
    scan_while(s, step(s, property_end(s, i)), whitespace())
}

/// Where the value of the declaration at position `i` of `s` ends: at the
/// next `;`, line feed or `}`.
pub open spec fn value_end(s: Seq<char>, i: int) -> int {
    scan_while(s, value_start(s, i), value_chars())
}

/// The declaration at position `i` of `s`: the property name and the text
/// of the value in lower case, the value typed by the property.
pub open spec fn declaration_at(s: Seq<char>, i: int) -> DeclarationView {
    let property = lowercase(s.subrange(property_start(s, i), property_end(s, i)));
    let raw = lowercase(s.subrange(value_start(s, i), value_end(s, i)));
    DeclarationView { property: property, value: typed_value(property, raw) }
}

/// Whether the declaration at position `i` of `s` counts: it ends on `;`,
/// or only white space stands between it and `}`.
pub open spec fn is_terminated(s: Seq<char>, i: int) -> bool {
    let end = value_end(s, i);
    let rest = scan_while(s, end, whitespace());
    (0 <= end < s.len() && s[end] == ';') || (0 <= rest < s.len() && s[rest] == '}')
}

/// Where the next declaration starts, the one at position `i` of `s` being
/// read: behind its `;`, if there is one, and white space.
pub open spec fn next_declaration(s: Seq<char>, i: int) -> int {
    let end = value_end(s, i);
    if 0 <= end < s.len() && s[end] == ';' {
        scan_while(s, end + 1, whitespace())
    } else {
        scan_while(s, end, whitespace())
    }
}

/// Reading a declaration moves on, and not beyond the end.
pub proof fn lemma_next_declaration_progress(s: Seq<char>, i: int)
    requires
        0 <= i < s.len(),
        s[i] != '}',
    ensures
        i < next_declaration(s, i) <= s.len(),
        i <= property_start(s, i) <= property_end(s, i) <= value_start(s, i) <= value_end(s, i)
            <= next_declaration(s, i),
{
    lemma_scan_while_bounds(s, i, whitespace());
    lemma_scan_while_bounds(s, property_start(s, i), property_chars());
    lemma_scan_while_bounds(s, step(s, property_end(s, i)), whitespace());
    lemma_scan_while_bounds(s, value_start(s, i), value_chars());
    let end = value_end(s, i);
    if end < s.len() && s[end] == ';' {
        lemma_scan_while_bounds(s, end + 1, whitespace());
    } else {
        lemma_scan_while_bounds(s, end, whitespace());
    }
}

/// The declarations from position `i` of `s` up to the next `}`, which is
/// read too, added to `found`. A declaration that is not terminated is left
/// out.
pub open spec fn declarations_at(s: Seq<char>, i: int, found: Seq<DeclarationView>) -> Parsed<
    Seq<DeclarationView>,
>
    decreases s.len() - i,
{
    if 0 <= i < s.len() && s[i] != '}' {
        proof {
            lemma_next_declaration_progress(s, i);
        }
        declarations_at(
            s,
            next_declaration(s, i),
            if is_terminated(s, i) {
                found.push(declaration_at(s, i))
            } else {
                found
            },
        )
    } else {
        Parsed { value: found, position: step(s, i) }
    }
}

/// The declarations of a block end inside the text and not before their
/// start.
pub proof fn lemma_declarations_at_bounds(s: Seq<char>, i: int, found: Seq<DeclarationView>)
    requires
        0 <= i <= s.len(),
    ensures
        i <= declarations_at(s, i, found).position <= s.len(),
    decreases s.len() - i,
{
    if i < s.len() && s[i] != '}' {
        lemma_next_declaration_progress(s, i);
        lemma_declarations_at_bounds(
            s,
            next_declaration(s, i),
            if is_terminated(s, i) {
                found.push(declaration_at(s, i))
            } else {
                found
            },
        );
    }
}

/// The rule at position `i` of `s`: a list of selectors and a block of
/// declarations.
pub open spec fn rule_at(s: Seq<char>, i: int) -> Parsed<RuleView> {
    let selectors = selectors_at(s, i, Seq::empty());
    let declarations = declarations_at(s, selectors.position, Seq::empty());
    Parsed {
        value: RuleView { selectors: selectors.value, declarations: declarations.value },
        position: declarations.position,
    }
}

/// The rules from position `i` of `s` to its end, added to `found`.
pub open spec fn rules_at(s: Seq<char>, i: int, found: Seq<RuleView>) -> Seq<RuleView>
    decreases s.len() - i,
{
    if 0 <= i < s.len() {
        proof {
            lemma_selectors_at_bounds(s, i, Seq::empty());
            lemma_declarations_at_bounds(s, selectors_at(s, i, Seq::empty()).position, Seq::empty());
        }
        rules_at(s, rule_at(s, i).position, found.push(rule_at(s, i).value))
    } else {
        found
    }
}

/// The stylesheet that the text `s` writes.
pub open spec fn stylesheet_of(s: Seq<char>) -> StylesheetView {
    StylesheetView { rules: rules_at(s, 0, Seq::empty()) }
}

// The parser.

/// A parser over a stylesheet text. It reads the text from its position on
/// and moves the position behind what it has read.
pub struct CssParser {
    chars: Vec<char>,
    pos: usize,
}

impl CssParser {
    /// The position is inside the text or at its end.
    #[verifier::type_invariant]
    spec fn in_text(&self) -> bool {
        self.pos <= self.chars@.len()
    }

    /// The whole text that the parser reads.
    pub closed spec fn input(&self) -> Seq<char> {
        self.chars@
    }

    /// The position of the next character to read; the length of the text
    /// once all is read.
    pub closed spec fn position(&self) -> int {
        self.pos as int
    }

    /// A parser at the start of `full_css`.
    pub fn new(full_css: &str) -> (parser: CssParser)
        ensures
            parser.input() == full_css@,
            parser.position() == 0,
    {
        CssParser { chars: crate::text::chars_of(full_css), pos: 0 }
    }

    /// The character at the position, if the text has not ended.
    fn peek(&self) -> (c: Option<char>)
        ensures
            0 <= self.position() <= self.input().len(),
            c == (if self.position() < self.input().len() {
                Some(self.input()[self.position()])
            } else {
                None
            }),
    {
        proof {
            use_type_invariant(self);
        }
        if self.pos < self.chars.len() {
            Some(self.chars[self.pos])
        } else {
            None
        }
    }

    /// Moves behind the character at the position, if the text has not
    /// ended.
    fn advance(&mut self)
        ensures
            final(self).input() == old(self).input(),
            final(self).position() == step(old(self).input(), old(self).position()),
    {
        proof {
            use_type_invariant(&*self);
        }
        if self.pos < self.chars.len() {
            self.pos = self.pos + 1;
        }
    }

    /// Reads the longest run of characters that `condition` accepts and
    /// returns it.
    pub fn consume_while<F>(&mut self, condition: F) -> (result: String) where F: Fn(char) -> bool
        requires
            forall|c: char| #[trigger] condition.requires((c,)),
        ensures
            final(self).input() == old(self).input(),
            old(self).position() <= final(self).position() <= old(self).input().len(),
            result@ == old(self).input().subrange(old(self).position(), final(self).position()),
            forall|k: int|
                old(self).position() <= k < final(self).position() ==> condition.ensures(
                    (#[trigger] old(self).input()[k],),
                    true,
                ),
            final(self).position() < old(self).input().len() ==> condition.ensures(
                (old(self).input()[final(self).position()],),
                false,
            ),
    {
        proof {
            use_type_invariant(&*self);
        }
        let mut result = String::new();
        let ghost start = self.pos as int;
        let mut reading = true;
        while reading
            invariant
                self.chars@ == old(self).chars@,
                start == old(self).pos,
                start <= self.pos <= self.chars@.len(),
                result@ == self.chars@.subrange(start, self.pos as int),
                forall|c: char| #[trigger] condition.requires((c,)),
                forall|k: int|
                    start <= k < self.pos ==> condition.ensures((#[trigger] self.chars@[k],), true),
                !reading && self.pos < self.chars@.len() ==> condition.ensures(
                    (self.chars@[self.pos as int],),
                    false,
                ),
            decreases self.chars@.len() - self.pos + (if reading { 1int } else { 0int }),
        {
            if self.pos >= self.chars.len() {
                reading = false;
            } else {
                let c = self.chars[self.pos];
                if condition(c) {
                    result.push(c);
                    self.pos = self.pos + 1;
                } else {
                    reading = false;
                }
            }
        }
        result
    }

    /// Reads the longest run of characters of class `class`, which is what
    /// `condition` decides, and returns it.
    fn consume_class<F>(&mut self, condition: F, Ghost(class): Ghost<spec_fn(char) -> bool>) -> (result:
        String) where F: Fn(char) -> bool
        requires
            forall|c: char| #[trigger] condition.requires((c,)),
            forall|c: char, b: bool| #[trigger] condition.ensures((c,), b) ==> b == class(c),
        ensures
            final(self).input() == old(self).input(),
            final(self).position() == scan_while(old(self).input(), old(self).position(), class),
            old(self).position() <= final(self).position() <= old(self).input().len(),
            result@ == old(self).input().subrange(old(self).position(), final(self).position()),
    {
        let result = self.consume_while(condition);
        proof {
            crate::text::lemma_scan_while_end(
                old(self).input(),
                old(self).position(),
                self.position(),
                class,
            );
        }
        result
    }

    /// Skips white space.
    fn skip_whitespace(&mut self)
        ensures
            final(self).input() == old(self).input(),
            final(self).position() == scan_while(
                old(self).input(),
                old(self).position(),
                whitespace(),
            ),
            old(self).position() <= final(self).position() <= old(self).input().len(),
    {
        self.consume_class(char::is_whitespace, Ghost(whitespace()));
    }

    /// Reads the identifier at the position and returns it in lower case;
    /// reads nothing and returns the empty string where no identifier
    /// starts there.
    pub fn parse_identifier(&mut self) -> (identifier: String)
        ensures
            final(self).input() == old(self).input(),
            final(self).position() == identifier_end(old(self).input(), old(self).position()),
            old(self).position() <= final(self).position() <= old(self).input().len(),
            identifier@ == identifier_at(old(self).input(), old(self).position()),
            no_ascii_uppercase(identifier@),
    {
        match self.peek() {
            Some(c) => {
                if is_valid_start_ident(c) {
                    let run = self.consume_class(is_valid_ident, Ghost(identifier_chars()));
                    crate::text::to_ascii_lowercase(run.as_str())
                } else {
                    String::new()
                }
            },
            None => String::new(),
        }
    }

    /// Reads the identifier at the position as an id: none where no
    /// identifier starts there.
    pub fn parse_id(&mut self) -> (id: Option<String>)
        ensures
            final(self).input() == old(self).input(),
            final(self).position() == identifier_end(old(self).input(), old(self).position()),
            old(self).position() <= final(self).position() <= old(self).input().len(),
            crate::css::text_opt(id) == id_at(old(self).input(), old(self).position()),
            id matches Some(name) ==> no_ascii_uppercase(name@),
    {
        let identifier = self.parse_identifier();
        if identifier.as_str().is_empty() {
            None
        } else {
            Some(identifier)
        }
    }

    /// Whether the parts of a simple selector go on at the position.
    fn in_selector(&self) -> (b: bool)
        ensures
            b == in_selector(self.input(), self.position()),
            0 <= self.position() <= self.input().len(),
    {
        match self.peek() {
            Some(c) => c != ',' && c != '{' && !c.is_whitespace(),
            None => false,
        }
    }

    /// Reads one selector: white space, an optional tag name, then ids and
    /// classes up to white space, `,` or `{`. Where a second id follows a
    /// first, the selector has no id. What is neither id nor class is skipped
    /// up to the next `,` or `{`. A selector of which nothing is left is
    /// returned empty.
    pub fn parse_selector(&mut self) -> (selector: Selector)
        ensures
            final(self).input() == old(self).input(),
            final(self).position() == selector_at(old(self).input(), old(self).position()).position,
            old(self).position() <= final(self).position() <= old(self).input().len(),
            selector@ == selector_at(old(self).input(), old(self).position()).value,
            selector@.well_formed(),
            selector@.is_lowercase(),
    {
        let ghost s = self.input();
        let mut simple_sel = SimpleSelector::default();
        let mut sel = Selector::default();

        self.skip_whitespace();

        let ghost start = self.position();
        simple_sel.tag_name = match self.peek() {
            Some(c) => if is_valid_start_ident(c) {
                Some(self.parse_identifier())
            } else {
                None
            },
            None => None,
        };

        let mut multiple_ids = false;
        let ghost tag_name = crate::css::text_opt(simple_sel.tag_name);
        let ghost first = SelectorParts {
            position: identifier_end(s, start),
            id: None,
            multiple_ids: false,
            classes: Seq::empty(),
        };
        while self.in_selector()
            invariant
                self.input() == s,
                0 <= self.position() <= s.len(),
                simple_sel@.tag_name == tag_name,
                simple_sel@.is_lowercase(),
                all_parts(s, first) == all_parts(
                    s,
                    SelectorParts {
                        position: self.position(),
                        id: simple_sel@.id,
                        multiple_ids: multiple_ids,
                        classes: simple_sel@.classes,
                    },
                ),
            decreases s.len() - self.position(),
        {
            let ghost parts = SelectorParts {
                position: self.position(),
                id: simple_sel@.id,
                multiple_ids: multiple_ids,
                classes: simple_sel@.classes,
            };
            proof {
                lemma_next_part_progress(s, parts);
            }
            match self.peek() {
                Some('#') => {
                    self.advance();
                    if simple_sel.id.is_some() || multiple_ids {
                        simple_sel.id = None;
                        multiple_ids = true;
                        self.parse_id();
                    } else {
                        simple_sel.id = self.parse_id();
                    }
                },
                Some('.') => {
                    self.advance();
                    let class_name = self.parse_identifier();
                    if !class_name.as_str().is_empty() {
                        let ghost before = simple_sel.classes@;
                        simple_sel.classes.push(class_name);
                        assert(simple_sel@.classes =~= before.map_values(|c: String| c@).push(
                            class_name@,
                        ));
                    }
                },
                _ => {
                    self.consume_class(is_skipped, Ghost(skipped_chars()));
                },
            }
        }
        proof {
            lemma_selector_at_bounds(s, old(self).position());
        }
        if !simple_sel.is_empty() {
            let ghost simple = simple_sel@;
            sel.simple.push(simple_sel);
            assert(sel@.simple =~= seq![simple]);
        }
        sel
    }

    /// Reads a list of selectors up to the next `{`, and the `{` too. A `,`
    /// between two selectors is read over; empty selectors are left out.
    pub fn parse_selectors(&mut self) -> (selectors: Vec<Selector>)
        ensures
            final(self).input() == old(self).input(),
            final(self).position() == selectors_at(
                old(self).input(),
                old(self).position(),
                Seq::empty(),
            ).position,
            old(self).position() <= final(self).position() <= old(self).input().len(),
            selectors@.map_values(|x: Selector| x@) == selectors_at(
                old(self).input(),
                old(self).position(),
                Seq::empty(),
            ).value,
            forall|k: int|
                0 <= k < selectors@.len() ==> {
                    &&& (#[trigger] selectors@[k])@ != SelectorView::empty()
                    &&& selectors@[k]@.well_formed()
                    &&& selectors@[k]@.is_lowercase()
                },
    {
        proof {
            use_type_invariant(&*self);
        }
        let ghost s = self.input();
        let ghost whole = selectors_at(s, self.position(), Seq::empty());
        let mut selectors: Vec<Selector> = Vec::new();
        assert(selectors@.map_values(|x: Selector| x@) =~= Seq::empty());
        loop
            invariant_except_break
                self.input() == s,
                0 <= self.position() <= s.len(),
                old(self).position() <= self.position(),
                whole == selectors_at(s, self.position(), selectors@.map_values(|x: Selector| x@)),
                forall|k: int|
                    0 <= k < selectors@.len() ==> {
                        &&& (#[trigger] selectors@[k])@ != SelectorView::empty()
                        &&& selectors@[k]@.well_formed()
                        &&& selectors@[k]@.is_lowercase()
                    },
            ensures
                self.input() == s,
                self.position() == whole.position,
                old(self).position() <= self.position() <= s.len(),
                selectors@.map_values(|x: Selector| x@) == whole.value,
                forall|k: int|
                    0 <= k < selectors@.len() ==> {
                        &&& (#[trigger] selectors@[k])@ != SelectorView::empty()
                        &&& selectors@[k]@.well_formed()
                        &&& selectors@[k]@.is_lowercase()
                    },
            decreases s.len() - self.position(),
        {
            let ghost i = self.position();
            match self.peek() {
                Some(c) if c != '{' => {},
                _ => {
                    self.advance();
                    break ;
                },
            }
            proof {
                lemma_next_selector_progress(s, i);
            }
            let sel = self.parse_selector();
            if !sel.is_empty() {
                let ghost before = selectors@.map_values(|x: Selector| x@);
                let ghost view = sel@;
                selectors.push(sel);
                assert(selectors@.map_values(|x: Selector| x@) =~= before.push(view));
            }
            self.skip_whitespace();
            match self.peek() {
                Some(',') => {
                    self.advance();
                },
                _ => {},
            }
        }
        selectors
    }

    /// Reads the declarations of a block up to the next `}`, and the `}`
    /// too.
    ///
    /// A declaration is a property name up to `:` and a value up to `;`, a
    /// line feed or `}`, both taken in lower case; the value is typed by the
    /// property. It counts where it ends on `;`, or where only white space
    /// stands between it and `}`.
    pub fn parse_declarations(&mut self) -> (declarations: Vec<Declaration>)
        ensures
            final(self).input() == old(self).input(),
            final(self).position() == declarations_at(
                old(self).input(),
                old(self).position(),
                Seq::empty(),
            ).position,
            old(self).position() <= final(self).position() <= old(self).input().len(),
            declarations@.map_values(|x: Declaration| x@) == declarations_at(
                old(self).input(),
                old(self).position(),
                Seq::empty(),
            ).value,
    {
        proof {
            use_type_invariant(&*self);
        }
        let ghost s = self.input();
        let ghost whole = declarations_at(s, self.position(), Seq::empty());
        let mut declarations: Vec<Declaration> = Vec::new();
        assert(declarations@.map_values(|x: Declaration| x@) =~= Seq::empty());
        loop
            invariant_except_break
                self.input() == s,
                0 <= self.position() <= s.len(),
                old(self).position() <= self.position(),
                whole == declarations_at(
                    s,
                    self.position(),
                    declarations@.map_values(|x: Declaration| x@),
                ),
            ensures
                self.input() == s,
                self.position() == whole.position,
                old(self).position() <= self.position() <= s.len(),
                declarations@.map_values(|x: Declaration| x@) == whole.value,
            decreases s.len() - self.position(),
        {
            let ghost i = self.position();
            match self.peek() {
                Some(c) if c != '}' => {},
                _ => {
                    self.advance();
                    break ;
                },
            }
            self.skip_whitespace();
            let property = self.consume_class(is_property_char, Ghost(property_chars()))
                .as_str().to_lowercase();
            self.advance();
            self.skip_whitespace();
            let value = self.consume_class(is_value_char, Ghost(value_chars()))
                .as_str().to_lowercase();
            let ghost end = self.position();
            let value_enum = match value_kind(property.as_str()) {
                ValueKind::Color => Value::Color(translate_color(value.as_str())),
                ValueKind::Length => translate_length(value.as_str()),
                ValueKind::Other => Value::Other(value),
            };
            let declaration = Declaration::new(property, value_enum);
            let ghost before = declarations@.map_values(|x: Declaration| x@);
            match self.peek() {
                Some(';') => {
                    declarations.push(declaration);
                    self.advance();
                },
                _ => {
                    self.skip_whitespace();
                    match self.peek() {
                        Some('}') => {
                            declarations.push(declaration);
                        },
                        _ => {},
                    }
                },
            }
            proof {
                if is_terminated(s, i) {
                    assert(declarations@.map_values(|x: Declaration| x@) =~= before.push(
                        declaration_at(s, i),
                    ));
                }
                crate::text::lemma_scan_while_run(s, end, whitespace());
            }
            self.skip_whitespace();
        }
        declarations
    }

    /// Reads the rest of the text as a stylesheet: rule after rule, each a
    /// list of selectors and a block of declarations.
    pub fn parse_stylesheet(&mut self) -> (sheet: Stylesheet)
        ensures
            final(self).input() == old(self).input(),
            old(self).position() <= final(self).position(),
            final(self).position() == old(self).input().len(),
            sheet@.rules == rules_at(old(self).input(), old(self).position(), Seq::empty()),
            sheet@.well_formed(),
            sheet@.is_lowercase(),
    {
        proof {
            use_type_invariant(&*self);
        }
        let ghost s = self.input();
        let ghost whole = rules_at(s, self.position(), Seq::empty());
        let mut sheet = Stylesheet::default();
        while self.peek().is_some()
            invariant
                self.input() == s,
                0 <= self.position() <= s.len(),
                old(self).position() <= self.position(),
                whole == rules_at(s, self.position(), sheet@.rules),
                sheet@.well_formed(),
                sheet@.is_lowercase(),
            decreases s.len() - self.position(),
        {
            let ghost i = self.position();
            proof {
                lemma_selectors_at_bounds(s, i, Seq::empty());
            }
            let selectors = self.parse_selectors();
            let styles = self.parse_declarations();
            let rule = Rule::new(selectors, styles);
            let ghost before = sheet@.rules;
            sheet.rules.push(rule);
            assert(sheet@.rules =~= before.push(rule_at(s, i).value));
        }
        sheet
    }
}

/// Parses `text` as a stylesheet. Every text is a stylesheet: what does not
/// fit the grammar is skipped or read by a fallback. No rule of the result
/// stores an empty selector, no selector an empty simple selector, and tag
/// names, ids and class names hold no upper-case ASCII letter.
pub fn parse(text: &str) -> (sheet: Stylesheet)
    ensures
        sheet@ == stylesheet_of(text@),
        sheet@.well_formed(),
        sheet@.is_lowercase(),
{
    let mut parser = CssParser::new(text);
    parser.parse_stylesheet()
}

/// The kind of value that the property named `property` takes.
pub fn value_kind(property: &str) -> (kind: ValueKind)
    ensures
        kind == kind_of(property@),
{
    if str_eq(property, "background-color") || str_eq(property, "border-color") || str_eq(
        property,
        "color",
    ) {
        ValueKind::Color
    } else if str_eq(property, "margin-right") || str_eq(property, "margin-bottom") || str_eq(
        property,
        "margin-left",
    ) || str_eq(property, "margin-top") || str_eq(property, "padding-right") || str_eq(
        property,
        "padding-bottom",
    ) || str_eq(property, "padding-left") || str_eq(property, "padding-top") || str_eq(
        property,
        "border-right-width",
    ) || str_eq(property, "border-bottom-width") || str_eq(property, "border-left-width")
        || str_eq(property, "border-top-width") || str_eq(property, "height") || str_eq(
        property,
        "width",
    ) {
        ValueKind::Length
    } else {
        ValueKind::Other
    }
}

/// The unit that `suffix` names; pixels for a suffix that names none.
pub fn translate_unit(suffix: &str) -> (unit: Unit)
    ensures
        unit == unit_of(suffix@),
{
    if str_eq(suffix, "em") {
        Unit::Em
    } else if str_eq(suffix, "ex") {
        Unit::Ex
    } else if str_eq(suffix, "ch") {
        Unit::Ch
    } else if str_eq(suffix, "rem") {
        Unit::Rem
    } else if str_eq(suffix, "vh") {
        Unit::Vh
    } else if str_eq(suffix, "vw") {
        Unit::Vw
    } else if str_eq(suffix, "vmin") {
        Unit::Vmin
    } else if str_eq(suffix, "vmax") {
        Unit::Vmax
    } else if str_eq(suffix, "px") {
        Unit::Px
    } else if str_eq(suffix, "mm") {
        Unit::Mm
    } else if str_eq(suffix, "q") {
        Unit::Q
    } else if str_eq(suffix, "cm") {
        Unit::Cm
    } else if str_eq(suffix, "in") {
        Unit::In
    } else if str_eq(suffix, "pt") {
        Unit::Pt
    } else if str_eq(suffix, "pc") {
        Unit::Pc
    } else if str_eq(suffix, "%") {
        Unit::Pct
    } else {
        Unit::Px
    }
}

/// Reads a length: the leading numeric characters of `value` give the
/// magnitude, everything behind them names the unit. The magnitude is 0
/// where those characters are not a number that an `i64` holds; the unit is
/// pixels where what follows names no unit.
pub fn translate_length(value: &str) -> (length: Value)
    ensures
        length@ == length_of(value@),
{
    let chars = chars_of(value);
    let mut split: usize = 0;
    while split < chars.len() && chars[split].is_numeric()
        invariant
            0 <= split <= chars@.len(),
            forall|k: int| 0 <= k < split ==> numeric()(#[trigger] chars@[k]),
        decreases chars@.len() - split,
    {
        split += 1;
    }
    proof {
        crate::text::lemma_scan_while_end(chars@, 0, split as int, numeric());
    }
    let number: i64 = match decimal_value(&chars, 0, split, 9223372036854775807u64) {
        Some(n) => n as i64,
        None => 0,
    };
    let suffix = string_of(&chars, split, chars.len());
    Value::Length(number, translate_unit(suffix.as_str()))
}

/// The colour that the keyword `name` stands for.
pub fn translate_color_name(name: &str) -> (color: Option<Color>)
    ensures
        color == named_color(name@),
{
    if str_eq(name, "black") {
        Some(Color::new(0, 0, 0, 255))
    } else if str_eq(name, "silver") {
        Some(Color::new(192, 192, 192, 255))
    } else if str_eq(name, "gray") {
        Some(Color::new(128, 128, 128, 255))
    } else if str_eq(name, "white") {
        Some(Color::new(255, 255, 255, 255))
    } else if str_eq(name, "maroon") {
        Some(Color::new(128, 0, 0, 255))
    } else if str_eq(name, "red") {
        Some(Color::new(255, 0, 0, 255))
    } else if str_eq(name, "purple") {
        Some(Color::new(128, 0, 128, 255))
    } else if str_eq(name, "fuchsia") {
        Some(Color::new(255, 0, 255, 255))
    } else if str_eq(name, "green") {
        Some(Color::new(0, 128, 0, 255))
    } else if str_eq(name, "lime") {
        Some(Color::new(0, 255, 0, 255))
    } else if str_eq(name, "olive") {
        Some(Color::new(128, 128, 0, 255))
    } else if str_eq(name, "yellow") {
        Some(Color::new(255, 255, 0, 255))
    } else if str_eq(name, "navy") {
        Some(Color::new(0, 0, 128, 255))
    } else if str_eq(name, "blue") {
        Some(Color::new(0, 0, 255, 255))
    } else if str_eq(name, "teal") {
        Some(Color::new(0, 128, 128, 255))
    } else if str_eq(name, "aqua") {
        Some(Color::new(0, 255, 255, 255))
    } else if str_eq(name, "orange") {
        Some(Color::new(255, 165, 0, 255))
    } else if str_eq(name, "transparent") {
        Some(Color::new(0, 0, 0, 0))
    } else {
        None
    }
}

/// The number that the hexadecimal digit `c` stands for.
fn hex_digit(c: char) -> (d: Option<u8>)
    ensures
        match d {
            Some(n) => hex_value(c) == Some(n as int) && n < 16,
            None => hex_value(c) is None,
        },
{
    if c >= '0' && c <= '9' {
        Some(c as u8 - 48u8)
    } else if c >= 'a' && c <= 'f' {
        Some(c as u8 - 97u8 + 10u8)
    } else if c >= 'A' && c <= 'F' {
        Some(c as u8 - 65u8 + 10u8)
    } else {
        None
    }
}

/// The channel that two hexadecimal digits write.
fn hex_channel(high: char, low: char) -> (channel: Option<u8>)
    ensures
        match channel {
            Some(n) => hex_value(high) is Some && hex_value(low) is Some && n == 16 * hex_value(
                high,
            )->0 + hex_value(low)->0,
            None => hex_value(high) is None || hex_value(low) is None,
        },
{
    match hex_digit(high) {
        Some(h) => match hex_digit(low) {
            Some(l) => Some(16 * h + l),
            None => None,
        },
        None => None,
    }
}

/// The colour that the characters of `chars` from `start` up to `end` write
/// in hexadecimal: `#rgb` or `#rrggbb`.
pub fn translate_hex_color(chars: &Vec<char>, start: usize, end: usize) -> (color: Option<Color>)
    requires
        start <= end <= chars@.len(),
    ensures
        color == hex_color(chars@.subrange(start as int, end as int)),
{
    if end - start == 4 && chars[start] == '#' {
        let r = hex_channel(chars[start + 1], chars[start + 1]);
        let g = hex_channel(chars[start + 2], chars[start + 2]);
        let b = hex_channel(chars[start + 3], chars[start + 3]);
        match (r, g, b) {
            (Some(r), Some(g), Some(b)) => Some(Color::new(r, g, b, 255)),
            _ => None,
        }
    } else if end - start == 7 && chars[start] == '#' {
        let r = hex_channel(chars[start + 1], chars[start + 2]);
        let g = hex_channel(chars[start + 3], chars[start + 4]);
        let b = hex_channel(chars[start + 5], chars[start + 6]);
        match (r, g, b) {
            (Some(r), Some(g), Some(b)) => Some(Color::new(r, g, b, 255)),
            _ => None,
        }
    } else {
        None
    }
}

/// Reads a colour: a colour keyword in lower case, `#rgb` or `#rrggbb`,
/// white space around it aside. Any other text reads as opaque white.
pub fn translate_color(value: &str) -> (color: Color)
    ensures
        color == color_of(value@),
{
    let chars = chars_of(value);
    let mut start: usize = 0;
    while start < chars.len() && chars[start].is_whitespace()
        invariant
            0 <= start <= chars@.len(),
            forall|k: int| 0 <= k < start ==> whitespace()(#[trigger] chars@[k]),
        decreases chars@.len() - start,
    {
        start += 1;
    }
    proof {
        crate::text::lemma_scan_while_end(chars@, 0, start as int, whitespace());
    }
    let mut end: usize = chars.len();
    while end > start && chars[end - 1].is_whitespace()
        invariant
            start <= end <= chars@.len(),
            scan_back(chars@, start as int, chars@.len() as int) == scan_back(
                chars@,
                start as int,
                end as int,
            ),
        decreases end,
    {
        end -= 1;
    }
    let token = string_of(&chars, start, end);
    match translate_color_name(token.as_str()) {
        Some(c) => c,
        None => match translate_hex_color(&chars, start, end) {
            Some(c) => c,
            None => Color::default(),
        },
    }
}

/// Whether `c` is skipped where a selector cannot be read.
fn is_skipped(c: char) -> (b: bool)
    ensures
        b == skipped_chars()(c),
{
    c != ',' && c != '{'
}

/// Whether `c` can stand in a property name.
fn is_property_char(c: char) -> (b: bool)
    ensures
        b == property_chars()(c),
{
    c != ':'
}

/// Whether `c` can stand in a declared value.
fn is_value_char(c: char) -> (b: bool)
    ensures
        b == value_chars()(c),
{
    c != ';' && c != '\n' && c != '}'
}

/// Whether `c` can start an identifier.
pub fn is_valid_start_ident(c: char) -> (b: bool)
    ensures
        b == is_identifier_start(c),
{
    (c >= 'a' && c <= 'z') || (c >= 'A' && c <= 'Z') || c == '_'
}

/// Whether `c` can stand in an identifier.
pub fn is_valid_ident(c: char) -> (b: bool)
    ensures
        b == is_identifier_char(c),
{
    is_valid_start_ident(c) || (c >= '0' && c <= '9') || c == '-'
}

} // verus!
