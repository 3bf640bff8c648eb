//! Styled nodes: what the layout engine reads of a document node once its
//! style has been resolved.
//!
//! A styled node carries its display mode, the declarations that apply to it
//! and its children in document order. Where a property is declared more
//! than once, the last declaration is the one that counts.

use crate::css::{Declaration, Value};
use crate::text::str_eq;
use vstd::prelude::*;

verus! {

/// How a node takes part in layout.
#[derive(Clone, Copy, Debug, PartialEq, Eq, Structural)]
pub enum Display {
    Block,
    Inline,
    InlineBlock,
    /// `display: none`: the node and everything below it is left out of
    /// layout.
    Omitted,
}

/// A document node with its resolved style.
#[derive(Debug, PartialEq, Eq)]
pub struct StyledNode {
    pub display: Display,
    pub specified_values: Vec<Declaration>,
    pub children: Vec<StyledNode>,
}

/// The value of the last declaration of `name` among `decls`, if there is
/// one.
pub open spec fn last_value(decls: Seq<Declaration>, name: Seq<char>) -> Option<Value>
    decreases decls.len(),
{
    if decls.len() == 0 {
        None
    } else if decls.last().property@ == name {
        Some(decls.last().value)
    } else {
        last_value(decls.drop_last(), name)
    }
}

/// The magnitude of a length, or `default` for any other value and for none.
pub open spec fn magnitude_or(v: Option<Value>, default: i64) -> i64 {
    match v {
        Some(Value::Length(n, _)) => n,
        _ => default,
    }
}

impl StyledNode {
    /// A styled node with the given display mode, declarations and children.
    pub fn new(display: Display, specified_values: Vec<Declaration>, children: Vec<StyledNode>) -> (n:
        StyledNode)
        ensures
            n.display == display,
            n.specified_values == specified_values,
            n.children == children,
    {
        StyledNode { display, specified_values, children }
    }

    /// The resolved value of property `name`.
    pub open spec fn spec_value(&self, name: Seq<char>) -> Option<Value> {
        last_value(self.specified_values@, name)
    }

    /// The resolved magnitude of property `name`, or `default`.
    pub open spec fn spec_num_or(&self, name: Seq<char>, default: i64) -> i64 {
        magnitude_or(self.spec_value(name), default)
    }

    /// The resolved value of property `name`, or `None` where the node
    /// declares no such property.
    pub fn value(&self, name: &str) -> (r: Option<&Value>)
        ensures
            match r {
                Some(v) => self.spec_value(name@) == Some(*v),
                None => self.spec_value(name@) is None,
            },
    {
        let mut i: usize = self.specified_values.len();
        assert(self.specified_values@.take(i as int) =~= self.specified_values@);
        while i > 0
            invariant
                0 <= i <= self.specified_values@.len(),
                self.spec_value(name@) == last_value(self.specified_values@.take(i as int), name@),
            decreases i,
        {
            let ghost upto = self.specified_values@.take(i as int);
            assert(upto.drop_last() =~= self.specified_values@.take(i - 1));
            i -= 1;
            if str_eq(self.specified_values[i].property.as_str(), name) {
                return Some(&self.specified_values[i].value);
            }
        }
        None
    }

    /// The magnitude of property `name` where it resolves to a length,
    /// whatever its unit; `default` where it is absent or no length.
    pub fn num_or(&self, name: &str, default: i64) -> (n: i64)
        ensures
            n == self.spec_num_or(name@, default),
    {
        match self.value(name) {
            Some(Value::Length(n, _)) => *n,
            _ => default,
        }
    }

    /// The display mode of the node.
    pub fn get_display(&self) -> (d: Display)
        ensures
            d == self.display,
    {
        self.display
    }
}

} // verus!
