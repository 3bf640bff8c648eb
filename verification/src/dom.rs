//! The document tree: text, comments and elements with their attributes.

use crate::text::str_eq;
use vstd::hash_set::StringHashSet;
use vstd::prelude::*;
use vstd::string::StringExecFns;

verus! {

/// The attributes of an element: values by name, in the order in which the
/// names first came. No name occurs twice.
#[derive(Debug)]
pub struct AttrMap {
    entries: Vec<(String, String)>,
}

/// A node of the document with the nodes below it.
#[derive(Debug)]
pub struct Node {
    pub node_type: NodeType,
    pub children: Vec<Node>,
}

/// What a node is.
#[derive(Debug)]
pub enum NodeType {
    Text(String),
    Element(ElementData),
    Comment(String),
}

/// An element: its tag name and its attributes.
#[derive(Debug)]
pub struct ElementData {
    pub tag_name: String,
    pub attrs: AttrMap,
}

/// The position of the entry for `name` among the first `n` of `entries`,
/// if there is one.
pub open spec fn position_of(entries: Seq<(Seq<char>, Seq<char>)>, name: Seq<char>, n: int) -> Option<
    int,
>
    decreases n,
{
    if n <= 0 || n > entries.len() {
        None
    } else if entries[n - 1].0 == name {
        Some(n - 1)
    } else {
        position_of(entries, name, n - 1)
    }
}

/// What [`position_of`] finds is an entry for the name, and it finds one
/// where there is one.
pub proof fn lemma_position_of(entries: Seq<(Seq<char>, Seq<char>)>, name: Seq<char>, n: int)
    requires
        0 <= n <= entries.len(),
    ensures
        match position_of(entries, name, n) {
            Some(i) => 0 <= i < n && entries[i].0 == name,
            None => forall|i: int| 0 <= i < n ==> (#[trigger] entries[i]).0 != name,
        },
    decreases n,
{
    if n > 0 && entries[n - 1].0 != name {
        lemma_position_of(entries, name, n - 1);
    }
}

/// The first `n` of `entries` as text: ` name="value"` for each.
pub open spec fn attributes_text(entries: Seq<(Seq<char>, Seq<char>)>, n: int) -> Seq<char>
    decreases n,
{
    if n <= 0 || n > entries.len() {
        Seq::empty()
    } else {
        attributes_text(entries, n - 1) + " "@ + entries[n - 1].0 + "=\""@ + entries[n - 1].1
            + "\""@
    }
}

/// No name occurs twice in `entries`.
pub open spec fn distinct_names(entries: Seq<(Seq<char>, Seq<char>)>) -> bool {
    forall|i: int, j: int|
        0 <= i < j < entries.len() ==> (#[trigger] entries[i]).0 != (#[trigger] entries[j]).0
}

impl AttrMap {
    /// The attributes as pairs of name and value, in the order in which the
    /// names first came.
    pub closed spec fn entries(&self) -> Seq<(Seq<char>, Seq<char>)> {
        self.entries@.map_values(|e: (String, String)| (e.0@, e.1@))
    }

    /// Where the attribute `name` stands, if there is one.
    pub open spec fn position(&self, name: Seq<char>) -> Option<int> {
        position_of(self.entries(), name, self.entries().len() as int)
    }

    /// The value of the attribute `name`, if there is one.
    pub open spec fn value(&self, name: Seq<char>) -> Option<Seq<char>> {
        match self.position(name) {
            Some(i) => Some(self.entries()[i].1),
            None => None,
        }
    }

    /// No attributes.
    pub fn new() -> (m: AttrMap)
        ensures
            m.entries() == Seq::<(Seq<char>, Seq<char>)>::empty(),
            distinct_names(m.entries()),
    {
        AttrMap { entries: Vec::new() }
    }

    /// The number of attributes.
    pub fn len(&self) -> (n: usize)
        ensures
            n == self.entries().len(),
    {
        self.entries.len()
    }

    /// The attributes as text: ` name="value"` for each.
    pub fn to_text(&self) -> (text: String)
        ensures
            text@ == attributes_text(self.entries(), self.entries().len() as int),
    {
        let mut text = String::new();
        let mut i: usize = 0;
        while i < self.entries.len()
            invariant
                0 <= i <= self.entries@.len(),
                text@ == attributes_text(self.entries(), i as int),
            decreases self.entries@.len() - i,
        {
            text.append(" ");
            text.append(self.entries[i].0.as_str());
            text.append("=\"");
            text.append(self.entries[i].1.as_str());
            text.append("\"");
            i += 1;
        }
        text
    }

    /// Where the attribute `name` stands, if there is one.
    fn find(&self, name: &str) -> (r: Option<usize>)
        ensures
            match r {
                Some(i) => self.position(name@) == Some(i as int) && i < self.entries@.len(),
                None => self.position(name@) is None,
            },
    {
        let mut i: usize = self.entries.len();
        while i > 0
            invariant
                0 <= i <= self.entries@.len(),
                self.position(name@) == position_of(self.entries(), name@, i as int),
            decreases i,
        {
            i -= 1;
            if str_eq(self.entries[i].0.as_str(), name) {
                return Some(i);
            }
        }
        None
    }

    /// The value of the attribute `name`, if there is one.
    pub fn get(&self, name: &str) -> (r: Option<&String>)
        ensures
            match r {
                Some(v) => self.value(name@) == Some(v@),
                None => self.value(name@) is None,
            },
    {
        match self.find(name) {
            Some(i) => Some(&self.entries[i].1),
            None => None,
        }
    }

    /// Gives the attribute `name` the value `value`. A name that is new
    /// comes last; one that is there keeps its place. Returns the value that
    /// the attribute had.
    pub fn insert(&mut self, name: String, value: String) -> (r: Option<String>)
        ensures
            match old(self).position(name@) {
                Some(i) => {
                    &&& final(self).entries() == old(self).entries().update(i, (name@, value@))
                    &&& r matches Some(v) && v@ == old(self).entries()[i].1
                },
                None => {
                    &&& final(self).entries() == old(self).entries().push((name@, value@))
                    &&& r is None
                },
            },
            final(self).value(name@) == Some(value@),
            forall|other: Seq<char>|
                other != name@ ==> final(self).value(other) == old(self).value(other),
            distinct_names(old(self).entries()) ==> distinct_names(final(self).entries()),
    {
        let ghost before = self.entries();
        let ghost n = name@;
        let ghost v = value@;
        let r = match self.find(name.as_str()) {
            Some(i) => {
                let held = self.entries.remove(i);
                self.entries.insert(i, (name, value));
                assert(self.entries() =~= before.update(i as int, (n, v)));
                Some(held.1)
            },
            None => {
                self.entries.push((name, value));
                assert(self.entries() =~= before.push((n, v)));
                None
            },
        };
        proof {
            lemma_insert_value(before, self.entries(), n, v);
        }
        r
    }
}

/// What the values by name are after an entry is set.
proof fn lemma_insert_value(
    before: Seq<(Seq<char>, Seq<char>)>,
    after: Seq<(Seq<char>, Seq<char>)>,
    name: Seq<char>,
    value: Seq<char>,
)
    requires
        match position_of(before, name, before.len() as int) {
            Some(i) => after == before.update(i, (name, value)),
            None => after == before.push((name, value)),
        },
    ensures
        position_of(after, name, after.len() as int) matches Some(i) && after[i].1 == value,
        distinct_names(before) ==> distinct_names(after),
        forall|other: Seq<char>|
            other != name ==> #[trigger] position_of(after, other, after.len() as int)
                == position_of(before, other, before.len() as int),
        forall|other: Seq<char>, i: int|
            other != name && position_of(before, other, before.len() as int) == Some(i)
                ==> after[i] == before[i],
{
    lemma_position_of(before, name, before.len() as int);
    if let Some(i) = position_of(before, name, before.len() as int) {
        lemma_position_after_update(before, after, name, i, before.len() as int);
    }
    assert forall|other: Seq<char>| other != name implies #[trigger] position_of(
        after,
        other,
        after.len() as int,
    ) == position_of(before, other, before.len() as int) by {
        lemma_position_unchanged(before, after, other, before.len() as int);
    }
    assert forall|other: Seq<char>, k: int|
        other != name && position_of(before, other, before.len() as int) == Some(
            k,
        ) implies after[k] == before[k] by {
        lemma_position_of(before, other, before.len() as int);
    }
}

/// Entries that keep their names keep the positions of the names.
proof fn lemma_position_unchanged(
    before: Seq<(Seq<char>, Seq<char>)>,
    after: Seq<(Seq<char>, Seq<char>)>,
    name: Seq<char>,
    n: int,
)
    requires
        0 <= n <= before.len() <= after.len(),
        forall|i: int| 0 <= i < n ==> (#[trigger] after[i]).0 == before[i].0,
    ensures
        position_of(after, name, n) == position_of(before, name, n),
    decreases n,
{
    if n > 0 {
        lemma_position_unchanged(before, after, name, n - 1);
    }
}

/// An entry whose value is replaced keeps its position.
proof fn lemma_position_after_update(
    before: Seq<(Seq<char>, Seq<char>)>,
    after: Seq<(Seq<char>, Seq<char>)>,
    name: Seq<char>,
    i: int,
    n: int,
)
    requires
        0 <= i < n <= before.len(),
        position_of(before, name, n) == Some(i),
        after == before.update(i, (name, after[i].1)),
    ensures
        position_of(after, name, n) == Some(i),
    decreases n,
{
    if n - 1 > i {
        lemma_position_after_update(before, after, name, i, n - 1);
    }
}

/// Whether the characters of `s` from `i` up to `j` are one of the pieces
/// into which the spaces of `s` split it: a space or the start of `s` stands
/// before them, a space or the end of `s` behind them, and none of them is
/// a space. Two spaces in a row have an empty piece between them.
pub open spec fn is_piece(s: Seq<char>, i: int, j: int) -> bool {
    &&& 0 <= i <= j <= s.len()
    &&& i == 0 || s[i - 1] == ' '
    &&& j == s.len() || s[j] == ' '
    &&& forall|k: int| i <= k < j ==> #[trigger] s[k] != ' '
}

/// The pieces into which the spaces of `s` split it, as a set.
pub open spec fn pieces(s: Seq<char>) -> Set<Seq<char>> {
    Set::new(|name: Seq<char>| exists|i: int, j: int| is_piece(s, i, j) && name == s.subrange(i, j))
}

/// The pieces of `s` that end before position `n`.
pub open spec fn pieces_before(s: Seq<char>, n: int) -> Set<Seq<char>> {
    Set::new(
        |name: Seq<char>|
            exists|i: int, j: int| is_piece(s, i, j) && j < n && name == s.subrange(i, j),
    )
}

impl ElementData {
    /// The names in the `class` attribute: the pieces into which spaces
    /// split it. None where the element has no such attribute.
    pub open spec fn class_names(&self) -> Set<Seq<char>> {
        match self.attrs.value("class"@) {
            Some(names) => pieces(names),
            None => Set::empty(),
        }
    }

    /// `<tag, name="value" name="value">`.
    pub open spec fn text(&self) -> Seq<char> {
        "<"@ + self.tag_name@ + ","@ + attributes_text(
            self.attrs.entries(),
            self.attrs.entries().len() as int,
        ) + ">"@
    }

    /// The element as text: its tag name and its attributes between angle
    /// brackets.
    pub fn to_text(&self) -> (text: String)
        ensures
            text@ == self.text(),
    {
        let mut text = String::new();
        text.append("<");
        text.append(self.tag_name.as_str());
        text.append(",");
        text.append(self.attrs.to_text().as_str());
        text.append(">");
        text
    }

    /// An element with the given tag name and attributes.
    pub fn new(tag_name: String, attrs: AttrMap) -> (e: ElementData)
        ensures
            e.tag_name == tag_name,
            e.attrs == attrs,
    {
        ElementData { tag_name, attrs }
    }

    /// The value of the `id` attribute, if the element has one.
    pub fn get_id(&self) -> (id: Option<&String>)
        ensures
            match id {
                Some(v) => self.attrs.value("id"@) == Some(v@),
                None => self.attrs.value("id"@) is None,
            },
    {
        self.attrs.get("id")
    }

    /// The names in the `class` attribute, split at each space.
    pub fn get_classes(&self) -> (classes: StringHashSet)
        ensures
            classes@ == self.class_names(),
    {
        let mut classes = StringHashSet::new();
        match self.attrs.get("class") {
            Some(s) => {
                let mut piece = String::new();
                let ghost mut start: int = 0;
                let ghost text = s@;
                for c in it: s.as_str().chars()
                    invariant
                        it.seq() == text,
                        0 <= start <= it.index() <= text.len(),
                        start == 0 || text[start - 1] == ' ',
                        forall|k: int| start <= k < it.index() ==> #[trigger] text[k] != ' ',
                        piece@ == text.subrange(start, it.index() as int),
                        classes@ == pieces_before(text, it.index() as int),
                {
                    if c == ' ' {
                        classes.insert(piece);
                        piece = String::new();
                        proof {
                            start = it.index() + 1;
                        }
                    } else {
                        piece.push(c);
                    }
                }
                classes.insert(piece);
            },
            None => {},
        }
        classes
    }
}

impl NodeType {
    /// The characters of a text or of a comment; an element as
    /// [`ElementData::text`] writes it.
    pub open spec fn text(&self) -> Seq<char> {
        match self {
            NodeType::Text(t) => t@,
            NodeType::Comment(t) => t@,
            NodeType::Element(e) => e.text(),
        }
    }

    /// The node type as text: the characters of a text or of a comment, an
    /// element by its tag name and its attributes.
    pub fn to_text(&self) -> (text: String)
        ensures
            text@ == self.text(),
    {
        match self {
            NodeType::Text(t) => t.clone(),
            NodeType::Comment(t) => t.clone(),
            NodeType::Element(e) => e.to_text(),
        }
    }
}

impl Node {
    /// The node as text: that of its type. What is below the node is no part
    /// of the text.
    pub fn to_text(&self) -> (text: String)
        ensures
            text@ == self.node_type.text(),
    {
        self.node_type.to_text()
    }

    /// A node of the given type with the given children.
    pub fn new(node_type: NodeType, children: Vec<Node>) -> (n: Node)
        ensures
            n.node_type == node_type,
            n.children == children,
    {
        Node { node_type, children }
    }
}

} // verus!
