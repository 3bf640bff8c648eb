//! The layout engine: from a tree of styled nodes to a tree of positioned
//! boxes.
//!
//! All geometry is in whole pixels. A step whose result does not fit in an
//! `i64` ends the pass with [`LayoutError::Overflow`]; a width in a unit other
//! than pixels or percent ends it with [`LayoutError::UnsupportedUnit`]. No
//! partial tree is handed out.
//!
//! The contracts speak of [`BoxTree`], the mathematical form of a
//! [`LayoutBox`], and of [`laid_out`], which says what geometry a box and
//! everything below it receive inside a given containing block.

use crate::css::{Unit, Value};
use crate::style::{Display, StyledNode};
use crate::text::{integer_of, integer_text, parse_integer, to_decimal};
use vstd::prelude::*;
use vstd::string::StringExecFns;

verus! {

/// A rectangle: the position of its top left corner and its size.
#[derive(Clone, Copy, Debug, PartialEq, Eq, Structural)]
pub struct Rectangle {
    pub x: i64,
    pub y: i64,
    pub width: i64,
    pub height: i64,
}

/// The thickness of the four edges around a rectangle.
#[derive(Clone, Copy, Debug, PartialEq, Eq, Structural)]
pub struct EdgeSizes {
    pub top: i64,
    pub bottom: i64,
    pub left: i64,
    pub right: i64,
}

/// The geometry of a box: its content rectangle, the padding, border and
/// margin around it, and `current`, the flow cursor that places the box's
/// inline-block children (its `x` is the width already taken on the current
/// line).
#[derive(Clone, Copy, Debug, PartialEq, Eq, Structural)]
pub struct Dimensions {
    pub content: Rectangle,
    pub padding: EdgeSizes,
    pub border: EdgeSizes,
    pub margin: EdgeSizes,
    pub current: Rectangle,
}

/// How a box is laid out.
#[derive(Clone, Copy, Debug, PartialEq, Eq, Structural)]
pub enum BoxType {
    Block,
    InlineBlock,
    Inline,
    /// A box that receives no geometry.
    Anonymous,
}

/// Why a layout pass ended without a result.
#[derive(Clone, Copy, Debug, PartialEq, Eq, Structural)]
pub enum LayoutError {
    /// A width is given in a unit other than pixels or percent.
    UnsupportedUnit,
    /// A position or a size does not fit in an `i64`.
    Overflow,
}

/// A box of the layout tree. It borrows the styled node it stands for.
#[derive(Debug)]
pub struct LayoutBox<'a> {
    pub dimensions: Dimensions,
    pub box_type: BoxType,
    pub styled_node: &'a StyledNode,
    pub children: Vec<LayoutBox<'a>>,
}

/// The mathematical form of a [`LayoutBox`]: the same box with its node by
/// value and its children as a sequence.
pub struct BoxTree {
    pub dimensions: Dimensions,
    pub box_type: BoxType,
    pub node: StyledNode,
    pub children: Seq<BoxTree>,
}

/// `v` is within the range of `i64`.
pub open spec fn fits(v: int) -> bool {
    i64::MIN <= v <= i64::MAX
}

/// `v` as a pixel count, where it fits.
pub open spec fn checked(v: int) -> Result<i64, LayoutError> {
    if fits(v) {
        Ok(v as i64)
    } else {
        Err(LayoutError::Overflow)
    }
}

/// The quotient of `a` by a positive `b`, rounded toward zero.
pub open spec fn div_toward_zero(a: int, b: int) -> int
    recommends
        b > 0,
{
    if a >= 0 {
        a / b
    } else {
        -((-a) / b)
    }
}

impl BoxType {
    /// The name of the box type.
    pub open spec fn text(self) -> Seq<char> {
        match self {
            BoxType::Block => "block"@,
            BoxType::Inline => "inline"@,
            BoxType::InlineBlock => "inline-block"@,
            BoxType::Anonymous => "anonymous"@,
        }
    }

    /// The name of the box type: `block`, `inline`, `inline-block` or
    /// `anonymous`.
    pub fn to_text(&self) -> (text: String)
        ensures
            text@ == self.text(),
    {
        let name = match self {
            BoxType::Block => "block",
            BoxType::Inline => "inline",
            BoxType::InlineBlock => "inline-block",
            BoxType::Anonymous => "anonymous",
        };
        let mut text = String::new();
        text.append(name);
        text
    }
}

impl EdgeSizes {
    /// The four edges: `l: 1 r: 2 top: 3 bot: 4`.
    pub open spec fn text(self) -> Seq<char> {
        "l: "@ + integer_text(self.left as int) + " r: "@ + integer_text(self.right as int)
            + " top: "@ + integer_text(self.top as int) + " bot: "@ + integer_text(
            self.bottom as int,
        )
    }

    /// The edges as text: left, right, top and bottom.
    pub fn to_text(&self) -> (text: String)
        ensures
            text@ == self.text(),
    {
        let mut text = String::new();
        text.append("l: ");
        text.append(to_decimal(self.left).as_str());
        text.append(" r: ");
        text.append(to_decimal(self.right).as_str());
        text.append(" top: ");
        text.append(to_decimal(self.top).as_str());
        text.append(" bot: ");
        text.append(to_decimal(self.bottom).as_str());
        text
    }
}

impl Rectangle {
    /// Position and size: `x: 1, y: 2, w: 3, h: 4`.
    pub open spec fn text(self) -> Seq<char> {
        "x: "@ + integer_text(self.x as int) + ", y: "@ + integer_text(self.y as int) + ", w: "@
            + integer_text(self.width as int) + ", h: "@ + integer_text(self.height as int)
    }

    /// The rectangle as text: position and size.
    pub fn to_text(&self) -> (text: String)
        ensures
            text@ == self.text(),
    {
        let mut text = String::new();
        text.append("x: ");
        text.append(to_decimal(self.x).as_str());
        text.append(", y: ");
        text.append(to_decimal(self.y).as_str());
        text.append(", w: ");
        text.append(to_decimal(self.width).as_str());
        text.append(", h: ");
        text.append(to_decimal(self.height).as_str());
        text
    }

    /// The rectangle at the origin with no extent.
    pub open spec fn zero() -> Rectangle {
        Rectangle { x: 0, y: 0, width: 0, height: 0 }
    }

    /// The rectangle grown by `e` on each side, where all four of its
    /// numbers fit: the position moves by the leading edges, the size grows
    /// by both opposing edges.
    pub open spec fn spec_expanded(self, e: EdgeSizes) -> Result<Rectangle, LayoutError> {
        if fits(self.x - e.left) && fits(self.y - e.top) && fits(self.width + e.left + e.right)
            && fits(self.height + e.top + e.bottom) {
            Ok(
                Rectangle {
                    x: (self.x - e.left) as i64,
                    y: (self.y - e.top) as i64,
                    width: (self.width + e.left + e.right) as i64,
                    height: (self.height + e.top + e.bottom) as i64,
                },
            )
        } else {
            Err(LayoutError::Overflow)
        }
    }

    /// The rectangle grown by `e` on each side. Negative edges shrink it.
    pub fn expanded(&self, e: EdgeSizes) -> (r: Result<Rectangle, LayoutError>)
        ensures
            r == self.spec_expanded(e),
    {
        let x: i128 = self.x as i128 - e.left as i128;
        let y: i128 = self.y as i128 - e.top as i128;
        let width: i128 = self.width as i128 + e.left as i128 + e.right as i128;
        let height: i128 = self.height as i128 + e.top as i128 + e.bottom as i128;
        if in_range(x) && in_range(y) && in_range(width) && in_range(height) {
            Ok(Rectangle { x: x as i64, y: y as i64, width: width as i64, height: height as i64 })
        } else {
            Err(LayoutError::Overflow)
        }
    }
}

/// Whether `v` is within the range of `i64`.
fn in_range(v: i128) -> (b: bool)
    ensures
        b == fits(v as int),
{
    v >= -9223372036854775808i128 && v <= 9223372036854775807i128
}

/// `v` as an `i64`, where it fits.
fn narrow(v: i128) -> (r: Result<i64, LayoutError>)
    ensures
        r == checked(v as int),
{
    if in_range(v) {
        Ok(v as i64)
    } else {
        Err(LayoutError::Overflow)
    }
}

impl Default for Rectangle {
    /// The rectangle at the origin with no extent.
    fn default() -> (r: Rectangle)
        ensures
            r == Rectangle::zero(),
    {
        Rectangle { x: 0, y: 0, width: 0, height: 0 }
    }
}

impl EdgeSizes {
    /// Four edges of no thickness.
    pub open spec fn zero() -> EdgeSizes {
        EdgeSizes { top: 0, bottom: 0, left: 0, right: 0 }
    }
}

impl Default for EdgeSizes {
    /// Four edges of no thickness.
    fn default() -> (e: EdgeSizes)
        ensures
            e == EdgeSizes::zero(),
    {
        EdgeSizes { top: 0, bottom: 0, left: 0, right: 0 }
    }
}

impl Dimensions {
    /// Content, padding, border and margin, each under its name. The flow
    /// cursor is no part of the text.
    pub open spec fn text(self) -> Seq<char> {
        "content:\n    "@ + self.content.text() + "\npadding:\n    "@ + self.padding.text()
            + "\nborder:\n    "@ + self.border.text() + "\nmargin:\n    "@ + self.margin.text()
    }

    /// The geometry as text: content, padding, border and margin, each under
    /// its name.
    pub fn to_text(&self) -> (text: String)
        ensures
            text@ == self.text(),
    {
        let mut text = String::new();
        text.append("content:\n    ");
        text.append(self.content.to_text().as_str());
        text.append("\npadding:\n    ");
        text.append(self.padding.to_text().as_str());
        text.append("\nborder:\n    ");
        text.append(self.border.to_text().as_str());
        text.append("\nmargin:\n    ");
        text.append(self.margin.to_text().as_str());
        text
    }

    /// The geometry in which every number is 0.
    pub open spec fn zero() -> Dimensions {
        Dimensions {
            content: Rectangle::zero(),
            padding: EdgeSizes::zero(),
            border: EdgeSizes::zero(),
            margin: EdgeSizes::zero(),
            current: Rectangle::zero(),
        }
    }

    /// The content rectangle grown by the padding.
    pub open spec fn spec_padding_box(self) -> Result<Rectangle, LayoutError> {
        self.content.spec_expanded(self.padding)
    }

    /// The padding box grown by the border.
    pub open spec fn spec_border_box(self) -> Result<Rectangle, LayoutError> {
        match self.spec_padding_box() {
            Ok(r) => r.spec_expanded(self.border),
            Err(e) => Err(e),
        }
    }

    /// The border box grown by the margin.
    pub open spec fn spec_margin_box(self) -> Result<Rectangle, LayoutError> {
        match self.spec_border_box() {
            Ok(r) => r.spec_expanded(self.margin),
            Err(e) => Err(e),
        }
    }

    /// The content rectangle grown by the padding.
    pub fn padding_box(&self) -> (r: Result<Rectangle, LayoutError>)
        ensures
            r == self.spec_padding_box(),
    {
        self.content.expanded(self.padding)
    }

    /// The padding box grown by the border.
    pub fn border_box(&self) -> (r: Result<Rectangle, LayoutError>)
        ensures
            r == self.spec_border_box(),
    {
        match self.padding_box() {
            Ok(r) => r.expanded(self.border),
            Err(e) => Err(e),
        }
    }

    /// The border box grown by the margin.
    pub fn margin_box(&self) -> (r: Result<Rectangle, LayoutError>)
        ensures
            r == self.spec_margin_box(),
    {
        match self.border_box() {
            Ok(r) => r.expanded(self.margin),
            Err(e) => Err(e),
        }
    }
}

impl Default for Dimensions {
    /// The geometry in which every number is 0.
    fn default() -> (d: Dimensions)
        ensures
            d == Dimensions::zero(),
    {
        Dimensions {
            content: Rectangle::default(),
            padding: EdgeSizes::default(),
            border: EdgeSizes::default(),
            margin: EdgeSizes::default(),
            current: Rectangle::default(),
        }
    }
}

// The box tree of a tree of styled nodes.

/// The box type that a display mode asks for. A node that is left out of
/// layout gets a box only where it is the root of the tree: an anonymous one.
pub open spec fn box_type_of(display: Display) -> BoxType {
    match display {
        Display::Block => BoxType::Block,
        Display::Inline => BoxType::Inline,
        Display::InlineBlock => BoxType::InlineBlock,
        Display::Omitted => BoxType::Anonymous,
    }
}

/// The boxes of the first `n` nodes of `nodes`, in order, without those that
/// are left out of layout.
pub open spec fn built_children(nodes: Seq<StyledNode>, n: int) -> Seq<BoxTree>
    decreases nodes, n,
{
    if n <= 0 || n > nodes.len() {
        Seq::empty()
    } else if nodes[n - 1].display == Display::Omitted {
        built_children(nodes, n - 1)
    } else {
        built_children(nodes, n - 1).push(built(nodes[n - 1]))
    }
}

/// The box tree of `node` before layout: one box for the node, and below it
/// the trees of its children that take part in layout, in document order.
/// Every geometry is zero.
pub open spec fn built(node: StyledNode) -> BoxTree
    decreases node, node.children@.len() + 1,
{
    BoxTree {
        dimensions: Dimensions::zero(),
        box_type: box_type_of(node.display),
        node: node,
        children: built_children(node.children@, node.children@.len() as int),
    }
}

impl BoxTree {
    /// The type and the geometry of the box, each under its name. What is
    /// below the box is no part of the text.
    pub open spec fn text(self) -> Seq<char> {
        "type:\n    "@ + self.box_type.text() + "\n"@ + self.dimensions.text() + "\n"@
    }
}

impl<'a> LayoutBox<'a> {
    /// The box as text: its type and its geometry.
    pub fn to_text(&self) -> (text: String)
        ensures
            text@ == self.tree().text(),
    {
        let mut text = String::new();
        text.append("type:\n    ");
        text.append(self.box_type.to_text().as_str());
        text.append("\n");
        text.append(self.dimensions.to_text().as_str());
        text.append("\n");
        text
    }

    /// The mathematical form of the box and of everything below it.
    pub open spec fn tree(&self) -> BoxTree
        decreases self,
    {
        BoxTree {
            dimensions: self.dimensions,
            box_type: self.box_type,
            node: *self.styled_node,
            children: Seq::new(
                self.children@.len(),
                |i: int|
                    if 0 <= i < self.children@.len() {
                        self.children@[i].tree()
                    } else {
                        arbitrary()
                    },
            ),
        }
    }

    /// A box of type `box_type` for `styled_node`, with zero geometry and no
    /// children.
    pub fn new(box_type: BoxType, styled_node: &'a StyledNode) -> (b: LayoutBox<'a>)
        ensures
            b.styled_node == styled_node,
            b.tree() == (BoxTree {
                dimensions: Dimensions::zero(),
                box_type: box_type,
                node: *styled_node,
                children: Seq::empty(),
            }),
    {
        let b = LayoutBox {
            dimensions: Dimensions::default(),
            box_type,
            styled_node,
            children: Vec::new(),
        };
        assert(b.tree().children =~= Seq::empty());
        b
    }
}

// The geometry of one box.

/// What resolving the horizontal dimensions of a block yields, in unbounded
/// whole numbers.
pub struct WidthSolution {
    pub content_width: int,
    pub margin_left: int,
    pub margin_right: int,
}

/// The width that `v` declares inside a containing block `containing_width`
/// wide: the magnitude of a length in pixels, that share of the containing
/// width for a length in percent (rounded toward zero), nothing for a value
/// that is no length and for no value. A length in any other unit is not
/// supported.
pub open spec fn absolute(v: Option<Value>, containing_width: i64) -> Result<
    Option<i64>,
    LayoutError,
> {
    match v {
        Some(Value::Length(l, u)) => match u {
            Unit::Px => Ok(Some(l)),
            Unit::Pct => match checked(div_toward_zero(l * containing_width, 100)) {
                Ok(n) => Ok(Some(n)),
                Err(e) => Err(e),
            },
            _ => Err(LayoutError::UnsupportedUnit),
        },
        _ => Ok(None),
    }
}

/// The margin that `v` declares for a block: nothing where the property is
/// absent; else the whole number that the raw text of the value writes, and
/// 0 where the value is no raw text or writes no number.
pub open spec fn declared_margin(v: Option<Value>) -> Option<i64> {
    match v {
        None => None,
        Some(Value::Other(s)) => match integer_of(s@) {
            Some(n) => Some(n),
            None => Some(0),
        },
        Some(_) => Some(0),
    }
}

/// The margin of `m`, 0 where there is none.
pub open spec fn margin_or_zero(m: Option<i64>) -> int {
    match m {
        Some(n) => n as int,
        None => 0,
    }
}

/// What is left of the containing width once the declared width, the
/// declared margins and `edges` (borders and padding, left and right) are
/// taken from it. Negative where they take more than there is.
pub open spec fn underflow(
    containing_width: int,
    width: int,
    margin_left: Option<i64>,
    margin_right: Option<i64>,
    edges: int,
) -> int {
    containing_width - (width + margin_or_zero(margin_left) + margin_or_zero(margin_right) + edges)
}

/// The horizontal dimensions of a block. `width` is the declared width, 0
/// for none; a margin is `None` where the property is absent.
///
/// - No width: the content takes what is left, if anything is; else the
///   right margin gives up what is missing. The left margin is as declared.
/// - A width and one margin absent: that margin takes what is left.
/// - A width and both margins absent: each takes half of what is left,
///   rounded toward zero.
/// - A width and both margins declared: the right margin is adjusted by what
///   is left.
pub open spec fn solve_width(
    containing_width: int,
    width: int,
    margin_left: Option<i64>,
    margin_right: Option<i64>,
    edges: int,
) -> WidthSolution {
    let left = margin_or_zero(margin_left);
    let right = margin_or_zero(margin_right);
    let rest = underflow(containing_width, width, margin_left, margin_right, edges);
    if width == 0 {
        if rest >= 0 {
            WidthSolution { content_width: rest, margin_left: left, margin_right: right }
        } else {
            WidthSolution { content_width: 0, margin_left: left, margin_right: right + rest }
        }
    } else if margin_left is None && margin_right is Some {
        WidthSolution { content_width: width, margin_left: rest, margin_right: right }
    } else if margin_left is Some && margin_right is None {
        WidthSolution { content_width: width, margin_left: left, margin_right: rest }
    } else if margin_left is None && margin_right is None {
        WidthSolution {
            content_width: width,
            margin_left: div_toward_zero(rest, 2),
            margin_right: div_toward_zero(rest, 2),
        }
    } else {
        WidthSolution { content_width: width, margin_left: left, margin_right: right + rest }
    }
}

/// The horizontal dimensions of a block box for `node` inside `b`, put into
/// `d`: content width and left and right margin as [`solve_width`] gives
/// them, borders and padding as declared.
pub open spec fn block_width(d: Dimensions, node: StyledNode, b: Dimensions) -> Result<
    Dimensions,
    LayoutError,
> {
    match absolute(node.spec_value("width"@), b.content.width) {
        Err(e) => Err(e),
        Ok(w) => {
            let width = match w {
                Some(n) => n,
                None => 0,
            };
            let border_left = node.spec_num_or("border-left-width"@, 0);
            let border_right = node.spec_num_or("border-right-width"@, 0);
            let padding_left = node.spec_num_or("padding-left"@, 0);
            let padding_right = node.spec_num_or("padding-right"@, 0);
            let s = solve_width(
                b.content.width as int,
                width as int,
                declared_margin(node.spec_value("margin-left"@)),
                declared_margin(node.spec_value("margin-right"@)),
                border_left + border_right + padding_left + padding_right,
            );
            if fits(s.content_width) && fits(s.margin_left) && fits(s.margin_right) {
                Ok(
                    Dimensions {
                        content: Rectangle { width: s.content_width as i64, ..d.content },
                        padding: EdgeSizes { left: padding_left, right: padding_right, ..d.padding },
                        border: EdgeSizes { left: border_left, right: border_right, ..d.border },
                        margin: EdgeSizes {
                            left: s.margin_left as i64,
                            right: s.margin_right as i64,
                            ..d.margin
                        },
                        current: d.current,
                    },
                )
            } else {
                Err(LayoutError::Overflow)
            }
        },
    }
}

/// The horizontal dimensions of an inline-block box for `node` inside `b`,
/// put into `d`: width, margins, borders and padding as declared, 0 for what
/// is not.
pub open spec fn inline_width(d: Dimensions, node: StyledNode, b: Dimensions) -> Result<
    Dimensions,
    LayoutError,
> {
    match absolute(node.spec_value("width"@), b.content.width) {
        Err(e) => Err(e),
        Ok(w) => Ok(
            Dimensions {
                content: Rectangle {
                    width: match w {
                        Some(n) => n,
                        None => 0,
                    },
                    ..d.content
                },
                padding: EdgeSizes {
                    left: node.spec_num_or("padding-left"@, 0),
                    right: node.spec_num_or("padding-right"@, 0),
                    ..d.padding
                },
                border: EdgeSizes {
                    left: node.spec_num_or("border-left-width"@, 0),
                    right: node.spec_num_or("border-right-width"@, 0),
                    ..d.border
                },
                margin: EdgeSizes {
                    left: node.spec_num_or("margin-left"@, 0),
                    right: node.spec_num_or("margin-right"@, 0),
                    ..d.margin
                },
                current: d.current,
            },
        ),
    }
}

/// `d` with the top and bottom margin, border and padding that `node`
/// declares, 0 for what it does not.
pub open spec fn vertical_edges(d: Dimensions, node: StyledNode) -> Dimensions {
    Dimensions {
        padding: EdgeSizes {
            top: node.spec_num_or("padding-top"@, 0),
            bottom: node.spec_num_or("padding-bottom"@, 0),
            ..d.padding
        },
        border: EdgeSizes {
            top: node.spec_num_or("border-top-width"@, 0),
            bottom: node.spec_num_or("border-bottom-width"@, 0),
            ..d.border
        },
        margin: EdgeSizes {
            top: node.spec_num_or("margin-top"@, 0),
            bottom: node.spec_num_or("margin-bottom"@, 0),
            ..d.margin
        },
        ..d
    }
}

/// `d` with its content rectangle at (`x`, `y`), where both fit.
pub open spec fn positioned(d: Dimensions, x: int, y: int) -> Result<Dimensions, LayoutError> {
    if fits(x) && fits(y) {
        Ok(Dimensions { content: Rectangle { x: x as i64, y: y as i64, ..d.content }, ..d })
    } else {
        Err(LayoutError::Overflow)
    }
}

/// The position of a block box for `node` inside `b`, put into `d`, whose
/// horizontal dimensions are known: the content starts behind the left
/// edges, and below everything that `b` already holds and the top edges.
pub open spec fn block_position(d: Dimensions, node: StyledNode, b: Dimensions) -> Result<
    Dimensions,
    LayoutError,
> {
    let v = vertical_edges(d, node);
    positioned(
        v,
        b.content.x + v.margin.left + v.border.left + v.padding.left,
        b.content.height + b.content.y + v.margin.top + v.border.top + v.padding.top,
    )
}

/// The position of an inline-block box for `node` inside `b`, put into `d`:
/// as for a block, and moved by the flow cursor of `b`.
pub open spec fn inline_position(d: Dimensions, node: StyledNode, b: Dimensions) -> Result<
    Dimensions,
    LayoutError,
> {
    let v = vertical_edges(d, node);
    positioned(
        v,
        b.content.x + b.current.x + v.margin.left + v.border.left + v.padding.left,
        b.content.y + b.content.height + b.current.y + v.margin.top + v.border.top
            + v.padding.top,
    )
}

/// `d` as it is when the children of its box begin to flow: nothing placed
/// yet, the cursor at the start of the first line.
pub open spec fn flow_start(d: Dimensions) -> Dimensions {
    Dimensions { content: Rectangle { height: 0, ..d.content }, current: Rectangle::zero(), ..d }
}

/// The geometry of a box of type `box_type` for `node` inside `b` before its
/// children are placed.
pub open spec fn frame(box_type: BoxType, node: StyledNode, b: Dimensions) -> Result<
    Dimensions,
    LayoutError,
> {
    let horizontal = if box_type == BoxType::InlineBlock {
        inline_width(Dimensions::zero(), node, b)
    } else {
        block_width(Dimensions::zero(), node, b)
    };
    match horizontal {
        Err(e) => Err(e),
        Ok(d) => {
            let placed = if box_type == BoxType::InlineBlock {
                inline_position(d, node, b)
            } else {
                block_position(d, node, b)
            };
            match placed {
                Err(e) => Err(e),
                Ok(p) => Ok(flow_start(p)),
            }
        },
    }
}

/// `d` with the height that `node` declares, whatever the unit; `d` itself
/// where `node` declares no height that is a length.
pub open spec fn with_declared_height(d: Dimensions, node: StyledNode) -> Dimensions {
    match node.spec_value("height"@) {
        Some(Value::Length(n, _)) => Dimensions {
            content: Rectangle { height: n, ..d.content },
            ..d
        },
        _ => d,
    }
}

// The flow of the children, and the layout of a whole tree.

/// Where the children of a box stand while they are placed one after the
/// other.
pub struct Flow {
    /// The geometry of the box that holds the children: its content height
    /// is that of the lines already closed and of the blocks already
    /// stacked, its cursor the width taken on the open line.
    pub containing: Dimensions,
    /// The greatest margin-box height among the children placed so far.
    pub max_child_height: i64,
    /// The type of the child placed last; `Block` before the first.
    pub previous: BoxType,
    /// The children placed so far, with their geometry.
    pub placed: Seq<BoxTree>,
}

/// The flow of a box with geometry `d` before any child is placed.
pub open spec fn flow_of(d: Dimensions) -> Flow {
    Flow {
        containing: d,
        max_child_height: 0,
        previous: BoxType::Block,
        placed: Seq::empty(),
    }
}

/// `d` after the open line is closed: the content is `max_child_height`
/// higher and the cursor is back at the start of the line.
pub open spec fn line_break(d: Dimensions, max_child_height: i64) -> Result<
    Dimensions,
    LayoutError,
> {
    match checked(d.content.height + max_child_height) {
        Ok(h) => Ok(
            Dimensions {
                content: Rectangle { height: h, ..d.content },
                current: Rectangle { x: 0, ..d.current },
                ..d
            },
        ),
        Err(e) => Err(e),
    }
}

/// `d` with the content `by` higher.
pub open spec fn stacked(d: Dimensions, by: i64) -> Result<Dimensions, LayoutError> {
    match checked(d.content.height + by) {
        Ok(h) => Ok(Dimensions { content: Rectangle { height: h, ..d.content }, ..d }),
        Err(e) => Err(e),
    }
}

/// `d` with the cursor at `x`.
pub open spec fn cursor_at(d: Dimensions, x: i64) -> Dimensions {
    Dimensions { current: Rectangle { x: x, ..d.current }, ..d }
}

/// What placing one child yields.
pub struct Placement {
    /// The geometry of the box that holds the child, once the child stands.
    pub containing: Dimensions,
    /// The greatest margin-box height among the children placed so far.
    pub max_child_height: i64,
    /// The child with its geometry.
    pub child: BoxTree,
}

/// The containing geometry in which a child of type `child_type` is laid
/// out: a block that follows an inline-block first closes the open line.
pub open spec fn opening(
    child_type: BoxType,
    containing: Dimensions,
    max_child_height: i64,
    previous: BoxType,
) -> Result<Dimensions, LayoutError> {
    if previous == BoxType::InlineBlock && child_type == BoxType::Block {
        line_break(containing, max_child_height)
    } else {
        Ok(containing)
    }
}

/// The greater of `height` and `max_child_height`.
pub open spec fn taller(height: i64, max_child_height: i64) -> i64 {
    if height > max_child_height {
        height
    } else {
        max_child_height
    }
}

/// Whether a child of type `child_type` with margin box `m` passes the end
/// of the open line of `d`: an inline-block whose margin-box width moves the
/// cursor beyond the content width.
pub open spec fn wraps(child_type: BoxType, d: Dimensions, m: Rectangle) -> bool {
    &&& child_type == BoxType::InlineBlock
    &&& fits(d.current.x + m.width)
    &&& d.current.x + m.width > d.content.width
}

/// `d` after a child of type `child_type` with margin box `m` has taken its
/// place on the open line. A block adds its margin-box height to the content
/// height; an inline-block moves the cursor on by its margin-box width; any
/// other child leaves `d` as it is.
pub open spec fn advanced(child_type: BoxType, d: Dimensions, m: Rectangle) -> Result<
    Dimensions,
    LayoutError,
> {
    match child_type {
        BoxType::Block => stacked(d, m.height),
        BoxType::InlineBlock => match checked(d.current.x + m.width) {
            Ok(x) => Ok(cursor_at(d, x)),
            Err(e) => Err(e),
        },
        _ => Ok(d),
    }
}

/// What the box that holds `child` and `child` itself become once `child`,
/// laid out as `first` inside `d` with margin box `m`, takes its place.
///
/// An inline-block that passes the end of the line (see [`wraps`]) closes
/// the line, which makes the content `max_child_height` higher, and is laid
/// out once more, at the start of the new line; the cursor then stands
/// behind it. Any other child stays as it was laid out (see [`advanced`]).
pub open spec fn settled(
    child: BoxTree,
    first: BoxTree,
    d: Dimensions,
    m: Rectangle,
    max_child_height: i64,
) -> Result<Placement, LayoutError>
    decreases child, 1int,
{
    if wraps(child.box_type, d, m) {
        match line_break(d, max_child_height) {
            Err(e) => Err(e),
            Ok(next_line) => match laid_out(child, next_line) {
                Err(e) => Err(e),
                Ok(second) => match second.dimensions.spec_margin_box() {
                    Err(e) => Err(e),
                    Ok(m2) => Ok(
                        Placement {
                            containing: cursor_at(next_line, m2.width),
                            max_child_height: max_child_height,
                            child: second,
                        },
                    ),
                },
            },
        }
    } else {
        match advanced(child.box_type, d, m) {
            Err(e) => Err(e),
            Ok(after) => Ok(
                Placement { containing: after, max_child_height: max_child_height, child: first },
            ),
        }
    }
}

/// Places `child` in a box with geometry `containing`, after a child of type
/// `previous`, `max_child_height` being the greatest margin-box height so
/// far.
///
/// The child is laid out in the containing geometry as it stands (see
/// [`opening`]) and then takes its place (see [`settled`]), the greatest
/// margin-box height now counting its own.
pub open spec fn place_child(
    child: BoxTree,
    containing: Dimensions,
    max_child_height: i64,
    previous: BoxType,
) -> Result<Placement, LayoutError>
    decreases child, 2int,
{
    match opening(child.box_type, containing, max_child_height, previous) {
        Err(e) => Err(e),
        Ok(d) => match laid_out(child, d) {
            Err(e) => Err(e),
            Ok(first) => match first.dimensions.spec_margin_box() {
                Err(e) => Err(e),
                Ok(m) => settled(child, first, d, m, taller(m.height, max_child_height)),
            },
        },
    }
}

/// The flow `st` after the children from position `i` on are placed, in
/// order.
pub open spec fn flow(children: Seq<BoxTree>, i: int, st: Flow) -> Result<Flow, LayoutError>
    decreases children, children.len() - i,
{
    if 0 <= i < children.len() {
        match place_child(children[i], st.containing, st.max_child_height, st.previous) {
            Err(e) => Err(e),
            Ok(p) => flow(
                children,
                i + 1,
                Flow {
                    containing: p.containing,
                    max_child_height: p.max_child_height,
                    previous: children[i].box_type,
                    placed: st.placed.push(p.child),
                },
            ),
        }
    } else {
        Ok(st)
    }
}

/// The box `t` and everything below it with the geometry they receive
/// inside the containing block `b`.
///
/// An anonymous box is left as it is. For any other box the result does not
/// depend on the geometry that `t` holds: the box gets its frame (an
/// inline-block that of an inline-block, any other that of a block), its
/// children are placed in it one after the other, and the content gets the
/// declared height or else the height that the children took.
pub open spec fn laid_out(t: BoxTree, b: Dimensions) -> Result<BoxTree, LayoutError>
    decreases t, 0int,
{
    if t.box_type == BoxType::Anonymous {
        Ok(t)
    } else {
        match frame(t.box_type, t.node, b) {
            Err(e) => Err(e),
            Ok(d) => match flow(t.children, 0, flow_of(d)) {
                Err(e) => Err(e),
                Ok(end) => Ok(
                    BoxTree {
                        dimensions: with_declared_height(end.containing, t.node),
                        box_type: t.box_type,
                        node: t.node,
                        children: end.placed,
                    },
                ),
            },
        }
    }
}

/// The box tree for `root` with the geometry it receives inside
/// `containing_block`, whose content height counts as 0.
pub open spec fn layout_of(root: StyledNode, containing_block: Dimensions) -> Result<
    BoxTree,
    LayoutError,
> {
    laid_out(
        built(root),
        Dimensions {
            content: Rectangle { height: 0, ..containing_block.content },
            ..containing_block
        },
    )
}

// What holds of every layout.

/// What the borders and the padding of `node` take of the width, left and
/// right together.
pub open spec fn horizontal_edges(node: StyledNode) -> int {
    node.spec_num_or("border-left-width"@, 0) + node.spec_num_or("border-right-width"@, 0)
        + node.spec_num_or("padding-left"@, 0) + node.spec_num_or("padding-right"@, 0)
}

/// A block box with no width of its own (none declared, or 0), margins of
/// 0, no border and no padding is exactly as wide as the block that contains
/// it, whatever that width is, as long as it is not negative.
pub proof fn lemma_auto_width_fills(d: Dimensions, node: StyledNode, b: Dimensions)
    requires
        b.content.width >= 0,
        absolute(node.spec_value("width"@), b.content.width) == Ok::<Option<i64>, LayoutError>(None)
            || absolute(node.spec_value("width"@), b.content.width) == Ok::<
            Option<i64>,
            LayoutError,
        >(Some(0)),
        margin_or_zero(declared_margin(node.spec_value("margin-left"@))) == 0,
        margin_or_zero(declared_margin(node.spec_value("margin-right"@))) == 0,
        node.spec_num_or("border-left-width"@, 0) == 0,
        node.spec_num_or("border-right-width"@, 0) == 0,
        node.spec_num_or("padding-left"@, 0) == 0,
        node.spec_num_or("padding-right"@, 0) == 0,
    ensures
        block_width(d, node, b) is Ok,
        block_width(d, node, b)->Ok_0.content.width == b.content.width,
        block_width(d, node, b)->Ok_0.margin.left == 0,
        block_width(d, node, b)->Ok_0.margin.right == 0,
{
}

/// Where a block box declares its width and both margins, and these
/// together with borders and padding take more than the containing block
/// has, the right margin gives up the excess: it is the declared margin plus
/// the (negative) rest. The content keeps the declared width and the left
/// margin stays as declared.
pub proof fn lemma_overconstrained_width(d: Dimensions, node: StyledNode, b: Dimensions)
    requires
        absolute(node.spec_value("width"@), b.content.width) matches Ok(Some(_)),
        declared_margin(node.spec_value("margin-left"@)) is Some,
        declared_margin(node.spec_value("margin-right"@)) is Some,
        absolute(node.spec_value("width"@), b.content.width)->Ok_0->0 + declared_margin(
            node.spec_value("margin-left"@),
        )->0 + declared_margin(node.spec_value("margin-right"@))->0 + horizontal_edges(node)
            > b.content.width,
    ensures
        ({
            let width = absolute(node.spec_value("width"@), b.content.width)->Ok_0->0;
            let left = declared_margin(node.spec_value("margin-left"@))->0;
            let right = declared_margin(node.spec_value("margin-right"@))->0;
            let total = width + left + right + horizontal_edges(node);
            &&& block_width(d, node, b) is Ok <==> fits(right + (b.content.width - total))
            &&& block_width(d, node, b) matches Ok(r) ==> {
                &&& r.margin.right == right + (b.content.width - total)
                &&& r.margin.left == left
                &&& r.content.width == width
            }
        }),
{
}

/// `a` and `b` are the same boxes for the same nodes, and differ at most in
/// geometry that layout replaces: an anonymous box, which layout leaves as it
/// is, is the same in both with everything below it.
pub open spec fn same_boxes(a: BoxTree, b: BoxTree) -> bool
    decreases a,
{
    &&& a.box_type == b.box_type
    &&& a.node == b.node
    &&& if a.box_type == BoxType::Anonymous {
        a == b
    } else {
        &&& a.children.len() == b.children.len()
        &&& forall|i: int|
            0 <= i < a.children.len() ==> same_boxes(
                #[trigger] a.children[i],
                b.children[i],
            )
    }
}

/// The greatest depth among the first `n` trees of `children`.
pub open spec fn max_depth(children: Seq<BoxTree>, n: int) -> nat
    decreases children, n,
{
    if n <= 0 || n > children.len() {
        0
    } else {
        let rest = max_depth(children, n - 1);
        let last = depth(children[n - 1]);
        if last > rest {
            last
        } else {
            rest
        }
    }
}

/// The number of boxes on the longest way from `t` down to a box without
/// children.
pub open spec fn depth(t: BoxTree) -> nat
    decreases t, t.children.len() + 1,
{
    1 + max_depth(t.children, t.children.len() as int)
}

/// A tree is at least as deep as each of the first `n` trees before it.
proof fn lemma_max_depth_bounds(children: Seq<BoxTree>, n: int, i: int)
    requires
        0 <= i < n <= children.len(),
    ensures
        depth(children[i]) <= max_depth(children, n),
    decreases n,
{
    if i < n - 1 {
        lemma_max_depth_bounds(children, n - 1, i);
    }
}

/// A box is deeper than each of its children.
proof fn lemma_child_depth(t: BoxTree, i: int)
    requires
        0 <= i < t.children.len(),
    ensures
        depth(t.children[i]) < depth(t),
{
    lemma_max_depth_bounds(t.children, t.children.len() as int, i);
}

/// Two boxes whose children are equally deep, one by one, are equally deep.
proof fn lemma_depth_of_children(a: BoxTree, b: BoxTree)
    requires
        a.children.len() == b.children.len(),
        forall|i: int| 0 <= i < a.children.len() ==> depth(#[trigger] a.children[i]) == depth(b.children[i]),
    ensures
        depth(a) == depth(b),
{
    lemma_max_depth_of_children(a.children, b.children, a.children.len() as int);
}

proof fn lemma_max_depth_of_children(xs: Seq<BoxTree>, ys: Seq<BoxTree>, n: int)
    requires
        xs.len() == ys.len(),
        forall|i: int| 0 <= i < xs.len() ==> depth(#[trigger] xs[i]) == depth(ys[i]),
    ensures
        max_depth(xs, n) == max_depth(ys, n),
    decreases n,
{
    if 0 < n <= xs.len() {
        lemma_max_depth_of_children(xs, ys, n - 1);
    }
}

/// The same boxes are equally deep.
proof fn lemma_same_boxes_depth(a: BoxTree, b: BoxTree)
    requires
        same_boxes(a, b),
    ensures
        depth(a) == depth(b),
    decreases a, 1int,
{
    if a.box_type != BoxType::Anonymous {
        lemma_same_boxes_max_depth(a.children, b.children, a.children.len() as int);
    }
}

proof fn lemma_same_boxes_max_depth(xs: Seq<BoxTree>, ys: Seq<BoxTree>, n: int)
    requires
        xs.len() == ys.len(),
        forall|i: int| 0 <= i < xs.len() ==> same_boxes(#[trigger] xs[i], ys[i]),
    ensures
        max_depth(xs, n) == max_depth(ys, n),
    decreases xs, n,
{
    if 0 < n <= xs.len() {
        lemma_same_boxes_max_depth(xs, ys, n - 1);
        lemma_same_boxes_depth(xs[n - 1], ys[n - 1]);
    }
}

/// Layout gives the same boxes the same geometry: what a box held before
/// does not count.
pub proof fn lemma_same_boxes_laid_out(a: BoxTree, b: BoxTree)
    requires
        same_boxes(a, b),
    ensures
        forall|cb: Dimensions| #[trigger] laid_out(a, cb) == laid_out(b, cb),
    decreases a, 0int,
{
    assert forall|cb: Dimensions| #[trigger] laid_out(a, cb) == laid_out(b, cb) by {
        if a.box_type != BoxType::Anonymous {
            match frame(a.box_type, a.node, cb) {
                Ok(d) => {
                    lemma_same_boxes_flow(a.children, b.children, 0, flow_of(d));
                },
                Err(_) => {},
            }
        }
    }
}

proof fn lemma_same_boxes_flow(xs: Seq<BoxTree>, ys: Seq<BoxTree>, i: int, st: Flow)
    requires
        xs.len() == ys.len(),
        forall|j: int| 0 <= j < xs.len() ==> same_boxes(#[trigger] xs[j], ys[j]),
        0 <= i <= xs.len(),
    ensures
        flow(xs, i, st) == flow(ys, i, st),
    decreases xs, xs.len() - i,
{
    if i < xs.len() {
        lemma_same_boxes_place(xs[i], ys[i], st.containing, st.max_child_height, st.previous);
        match place_child(xs[i], st.containing, st.max_child_height, st.previous) {
            Ok(p) => {
                lemma_same_boxes_flow(
                    xs,
                    ys,
                    i + 1,
                    Flow {
                        containing: p.containing,
                        max_child_height: p.max_child_height,
                        previous: xs[i].box_type,
                        placed: st.placed.push(p.child),
                    },
                );
            },
            Err(_) => {},
        }
    }
}

proof fn lemma_same_boxes_place(
    x: BoxTree,
    y: BoxTree,
    containing: Dimensions,
    max_child_height: i64,
    previous: BoxType,
)
    requires
        same_boxes(x, y),
    ensures
        place_child(x, containing, max_child_height, previous) == place_child(
            y,
            containing,
            max_child_height,
            previous,
        ),
    decreases x, 2int,
{
    lemma_same_boxes_laid_out(x, y);
    match opening(x.box_type, containing, max_child_height, previous) {
        Ok(d) => {
            match laid_out(x, d) {
                Ok(first) => match first.dimensions.spec_margin_box() {
                    Ok(m) => {
                        lemma_same_boxes_settled(
                            x,
                            y,
                            first,
                            d,
                            m,
                            taller(m.height, max_child_height),
                        );
                    },
                    Err(_) => {},
                },
                Err(_) => {},
            }
        },
        Err(_) => {},
    }
}

proof fn lemma_same_boxes_settled(
    x: BoxTree,
    y: BoxTree,
    first: BoxTree,
    d: Dimensions,
    m: Rectangle,
    max_child_height: i64,
)
    requires
        same_boxes(x, y),
    ensures
        settled(x, first, d, m, max_child_height) == settled(y, first, d, m, max_child_height),
    decreases x, 1int,
{
    lemma_same_boxes_laid_out(x, y);
    if wraps(x.box_type, d, m) {
        match line_break(d, max_child_height) {
            Ok(next_line) => {
                assert(laid_out(x, next_line) == laid_out(y, next_line));
            },
            Err(_) => {},
        }
    }
}

/// Layout keeps the boxes: the result holds the same boxes for the same
/// nodes as the tree that was laid out.
pub proof fn lemma_laid_out_same_boxes(t: BoxTree, cb: Dimensions)
    ensures
        laid_out(t, cb) matches Ok(r) ==> same_boxes(t, r),
    decreases t, 0int,
{
    if t.box_type != BoxType::Anonymous {
        match frame(t.box_type, t.node, cb) {
            Ok(d) => {
                lemma_flow_same_boxes(t.children, 0, flow_of(d));
            },
            Err(_) => {},
        }
    }
}

proof fn lemma_same_boxes_reflexive(t: BoxTree)
    ensures
        same_boxes(t, t),
    decreases t,
{
    if t.box_type != BoxType::Anonymous {
        assert forall|i: int| 0 <= i < t.children.len() implies same_boxes(
            #[trigger] t.children[i],
            t.children[i],
        ) by {
            lemma_same_boxes_reflexive(t.children[i]);
        }
    }
}

proof fn lemma_flow_same_boxes(children: Seq<BoxTree>, i: int, st: Flow)
    requires
        0 <= i <= children.len(),
        st.placed.len() == i,
        forall|j: int| 0 <= j < i ==> same_boxes(#[trigger] children[j], st.placed[j]),
    ensures
        flow(children, i, st) matches Ok(end) ==> {
            &&& end.placed.len() == children.len()
            &&& forall|j: int|
                0 <= j < children.len() ==> same_boxes(#[trigger] children[j], end.placed[j])
        },
    decreases children, children.len() - i,
{
    if i < children.len() {
        lemma_place_same_boxes(children[i], st.containing, st.max_child_height, st.previous);
        match place_child(children[i], st.containing, st.max_child_height, st.previous) {
            Ok(p) => {
                lemma_flow_same_boxes(
                    children,
                    i + 1,
                    Flow {
                        containing: p.containing,
                        max_child_height: p.max_child_height,
                        previous: children[i].box_type,
                        placed: st.placed.push(p.child),
                    },
                );
            },
            Err(_) => {},
        }
    }
}

proof fn lemma_place_same_boxes(
    child: BoxTree,
    containing: Dimensions,
    max_child_height: i64,
    previous: BoxType,
)
    ensures
        place_child(child, containing, max_child_height, previous) matches Ok(p) ==> same_boxes(
            child,
            p.child,
        ),
    decreases child, 2int,
{
    match opening(child.box_type, containing, max_child_height, previous) {
        Ok(d) => {
            lemma_laid_out_same_boxes(child, d);
            match laid_out(child, d) {
                Ok(first) => match first.dimensions.spec_margin_box() {
                    Ok(m) => {
                        lemma_settled_same_boxes(
                            child,
                            first,
                            d,
                            m,
                            taller(m.height, max_child_height),
                        );
                    },
                    Err(_) => {},
                },
                Err(_) => {},
            }
        },
        Err(_) => {},
    }
}

proof fn lemma_settled_same_boxes(
    child: BoxTree,
    first: BoxTree,
    d: Dimensions,
    m: Rectangle,
    max_child_height: i64,
)
    requires
        same_boxes(child, first),
    ensures
        settled(child, first, d, m, max_child_height) matches Ok(p) ==> same_boxes(child, p.child),
    decreases child, 1int,
{
    if wraps(child.box_type, d, m) {
        match line_break(d, max_child_height) {
            Ok(next_line) => {
                lemma_laid_out_same_boxes(child, next_line);
            },
            Err(_) => {},
        }
    }
}

/// The height of the margin box of `d`: that of the content and of the
/// padding, border and margin above and below it.
pub open spec fn margin_box_height(d: Dimensions) -> int {
    d.content.height + d.padding.top + d.padding.bottom + d.border.top + d.border.bottom
        + d.margin.top + d.margin.bottom
}

/// The margin-box heights of the boxes of `boxes` from position `from` on,
/// added up.
pub open spec fn total_height(boxes: Seq<BoxTree>, from: int) -> int
    decreases boxes.len() - from,
{
    if 0 <= from < boxes.len() {
        margin_box_height(boxes[from].dimensions) + total_height(boxes, from + 1)
    } else {
        0
    }
}

/// Blocks stack: a box that declares no height and holds nothing but blocks
/// is, once laid out, as high as the margin boxes of its children together.
pub proof fn lemma_blocks_stack(t: BoxTree, b: Dimensions)
    requires
        t.box_type != BoxType::Anonymous,
        forall|i: int|
            0 <= i < t.children.len() ==> (#[trigger] t.children[i]).box_type == BoxType::Block,
        !(t.node.spec_value("height"@) matches Some(Value::Length(_, _))),
    ensures
        laid_out(t, b) matches Ok(r) ==> r.dimensions.content.height == total_height(r.children, 0),
{
    match frame(t.box_type, t.node, b) {
        Ok(d) => {
            lemma_flow_of_blocks(t.children, 0, flow_of(d));
        },
        Err(_) => {},
    }
}

proof fn lemma_flow_of_blocks(children: Seq<BoxTree>, i: int, st: Flow)
    requires
        0 <= i <= children.len(),
        st.placed.len() == i,
        st.previous == BoxType::Block,
        forall|j: int|
            0 <= j < children.len() ==> (#[trigger] children[j]).box_type == BoxType::Block,
    ensures
        flow(children, i, st) matches Ok(end) ==> {
            &&& end.placed.len() == children.len()
            &&& forall|j: int| 0 <= j < i ==> end.placed[j] == st.placed[j]
            &&& end.containing.content.height == st.containing.content.height + total_height(
                end.placed,
                i,
            )
        },
    decreases children.len() - i,
{
    if i < children.len() {
        let child = children[i];
        match place_child(child, st.containing, st.max_child_height, st.previous) {
            Ok(p) => {
                let next = Flow {
                    containing: p.containing,
                    max_child_height: p.max_child_height,
                    previous: child.box_type,
                    placed: st.placed.push(p.child),
                };
                lemma_flow_of_blocks(children, i + 1, next);
                match flow(children, i + 1, next) {
                    Ok(end) => {
                    },
                    Err(_) => {},
                }
            },
            Err(_) => {},
        }
    }
}

/// The box at the end of the way `path` down from `t`: each number of the
/// path is the position of a child.
pub open spec fn box_at(t: BoxTree, path: Seq<int>) -> Option<BoxTree>
    decreases path.len(),
{
    if path.len() == 0 {
        Some(t)
    } else if 0 <= path[0] < t.children.len() {
        box_at(t.children[path[0]], path.drop_first())
    } else {
        None
    }
}

/// The node at the end of the way `path` down from `node`: each number of
/// the path is the position of a child.
pub open spec fn node_at(node: StyledNode, path: Seq<int>) -> Option<StyledNode>
    decreases path.len(),
{
    if path.len() == 0 {
        Some(node)
    } else if 0 <= path[0] < node.children@.len() {
        node_at(node.children@[path[0]], path.drop_first())
    } else {
        None
    }
}

/// Whether the way `path` down from `node` leads through nodes that take
/// part in layout only; `node` itself does not count.
pub open spec fn shown_below(node: StyledNode, path: Seq<int>) -> bool
    decreases path.len(),
{
    path.len() == 0 || {
        &&& 0 <= path[0] < node.children@.len()
        &&& node.children@[path[0]].display != Display::Omitted
        &&& shown_below(node.children@[path[0]], path.drop_first())
    }
}

/// Each box that is built for the first `n` of `nodes` is the tree of one of
/// those nodes, and of one that takes part in layout.
proof fn lemma_built_children_shown(nodes: Seq<StyledNode>, n: int, k: int)
    requires
        0 <= n <= nodes.len(),
        0 <= k < built_children(nodes, n).len(),
    ensures
        exists|i: int|
            0 <= i < n && nodes[i].display != Display::Omitted && #[trigger] built(nodes[i])
                == built_children(nodes, n)[k],
    decreases n,
{
    if n > 0 {
        if nodes[n - 1].display != Display::Omitted && k == built_children(nodes, n - 1).len() {
            assert(built(nodes[n - 1]) == built_children(nodes, n)[k]);
        } else {
            lemma_built_children_shown(nodes, n - 1, k);
        }
    }
}

/// Nodes that are left out of layout have no box, and neither has anything
/// below them: in a tree that holds the boxes built for `root`, every box
/// stands for a node that is reached from `root` through nodes that take
/// part in layout only. (`root` itself always has a box.)
pub proof fn lemma_omitted_nodes_have_no_box(root: StyledNode, t: BoxTree, path: Seq<int>)
    requires
        same_boxes(built(root), t),
        box_at(t, path) is Some,
    ensures
        exists|way: Seq<int>|
            way.len() == path.len() && shown_below(root, way) && #[trigger] node_at(root, way)
                == Some(box_at(t, path)->0.node),
    decreases path.len(),
{
    if path.len() == 0 {
        let way = Seq::<int>::empty();
        assert(node_at(root, way) == Some(t.node));
    } else {
        let k = path[0];
        let b = built(root);
        if b.box_type == BoxType::Anonymous {
            lemma_same_boxes_reflexive(b.children[k]);
        }
        lemma_built_children_shown(root.children@, root.children@.len() as int, k);
        let i = choose|i: int|
            0 <= i < root.children@.len() && root.children@[i].display != Display::Omitted
                && #[trigger] built(root.children@[i]) == b.children[k];
        lemma_omitted_nodes_have_no_box(root.children@[i], t.children[k], path.drop_first());
        let rest = choose|way: Seq<int>|
            way.len() == path.len() - 1 && shown_below(root.children@[i], way)
                && #[trigger] node_at(root.children@[i], way) == Some(box_at(t, path)->0.node);
        let way = seq![i] + rest;
        assert(way.drop_first() =~= rest);
        assert(node_at(root, way) == Some(box_at(t, path)->0.node));
    }
}

/// The tree that layout returns for `root` holds the boxes built for `root`,
/// so what [`lemma_omitted_nodes_have_no_box`] says holds of it.
pub proof fn lemma_layout_keeps_built_boxes(root: StyledNode, containing_block: Dimensions)
    ensures
        layout_of(root, containing_block) matches Ok(t) ==> same_boxes(built(root), t),
{
    lemma_laid_out_same_boxes(
        built(root),
        Dimensions {
            content: Rectangle { height: 0, ..containing_block.content },
            ..containing_block
        },
    );
}

// The layout pass.

/// Builds the box tree of `node`: a box for the node itself, and below it a
/// subtree for each child that takes part in layout. A child whose display
/// mode leaves it out contributes nothing, whatever stands below it.
pub fn build_layout_tree<'a>(node: &'a StyledNode) -> (b: LayoutBox<'a>)
    ensures
        b.tree() == built(*node),
    decreases node,
{
    let box_type = match node.get_display() {
        Display::Block => BoxType::Block,
        Display::Inline => BoxType::Inline,
        Display::InlineBlock => BoxType::InlineBlock,
        Display::Omitted => BoxType::Anonymous,
    };
    let mut layout_node = LayoutBox::new(box_type, node);
    let mut i: usize = 0;
    while i < node.children.len()
        invariant
            0 <= i <= node.children@.len(),
            layout_node.dimensions == Dimensions::zero(),
            layout_node.box_type == box_type_of(node.display),
            layout_node.styled_node == node,
            layout_node.tree().children == built_children(node.children@, i as int),
        decreases node.children@.len() - i,
    {
        let child = &node.children[i];
        match child.get_display() {
            Display::Omitted => {},
            _ => {
                let child_box = build_layout_tree(child);
                layout_node.children.push(child_box);
            },
        }
        i += 1;
    }
    layout_node
}

/// The width that property `prop` of `styled_node` declares inside `b_box`:
/// see [`absolute`].
fn get_abs_num(styled_node: &StyledNode, b_box: Dimensions, prop: &str) -> (r: Result<
    Option<i64>,
    LayoutError,
>)
    ensures
        r == absolute(styled_node.spec_value(prop@), b_box.content.width),
{
    match styled_node.value(prop) {
        Some(Value::Length(l, u)) => match u {
            Unit::Px => Ok(Some(*l)),
            Unit::Pct => {
                let w: i64 = b_box.content.width;
                proof {
                    lemma_product_bounds(*l as int, w as int);
                }
                let product: i128 = (*l as i128) * (w as i128);
                match narrow(product / 100) {
                    Ok(n) => Ok(Some(n)),
                    Err(e) => Err(e),
                }
            },
            _ => Err(LayoutError::UnsupportedUnit),
        },
        _ => Ok(None),
    }
}

/// The product of two 64-bit numbers fits in 128 bits.
proof fn lemma_product_bounds(a: int, b: int)
    requires
        fits(a),
        fits(b),
    ensures
        -0x4000_0000_0000_0000_0000_0000_0000_0000 <= a * b
            <= 0x4000_0000_0000_0000_0000_0000_0000_0000,
{
    assert(-0x4000_0000_0000_0000_0000_0000_0000_0000 <= a * b
        <= 0x4000_0000_0000_0000_0000_0000_0000_0000) by (nonlinear_arith)
        requires
            -0x8000_0000_0000_0000 <= a <= 0x8000_0000_0000_0000,
            -0x8000_0000_0000_0000 <= b <= 0x8000_0000_0000_0000,
    ;
}

/// Content width, left margin and right margin of a block: see
/// [`solve_width`].
fn solve(
    containing_width: i64,
    width: i64,
    margin_left: Option<i64>,
    margin_right: Option<i64>,
    edges: i128,
) -> (r: (i128, i128, i128))
    requires
        -4 * 0x8000_0000_0000_0000 <= edges <= 4 * 0x8000_0000_0000_0000,
    ensures
        ({
            let s = solve_width(
                containing_width as int,
                width as int,
                margin_left,
                margin_right,
                edges as int,
            );
            r.0 == s.content_width && r.1 == s.margin_left && r.2 == s.margin_right
        }),
{
    let margin_left_num: i64 = match margin_left {
        Some(m) => m,
        None => 0,
    };
    let margin_right_num: i64 = match margin_right {
        Some(m) => m,
        None => 0,
    };
    let total: i128 = width as i128 + margin_left_num as i128 + margin_right_num as i128 + edges;
    let underflow: i128 = containing_width as i128 - total;
    if width == 0 {
        if underflow >= 0 {
            (underflow, margin_left_num as i128, margin_right_num as i128)
        } else {
            (0, margin_left_num as i128, margin_right_num as i128 + underflow)
        }
    } else if margin_left.is_none() && margin_right.is_some() {
        (width as i128, underflow, margin_right_num as i128)
    } else if margin_left.is_some() && margin_right.is_none() {
        (width as i128, margin_left_num as i128, underflow)
    } else if margin_left.is_none() && margin_right.is_none() {
        (width as i128, underflow / 2, underflow / 2)
    } else {
        (width as i128, margin_left_num as i128, margin_right_num as i128 + underflow)
    }
}

/// The margin that `v` declares for a block: see [`declared_margin`].
fn margin_of(v: Option<&Value>) -> (m: Option<i64>)
    ensures
        m == declared_margin(
            match v {
                Some(x) => Some(*x),
                None => None,
            },
        ),
{
    match v {
        None => None,
        Some(Value::Other(s)) => match parse_integer(s.as_str()) {
            Some(n) => Some(n),
            None => Some(0),
        },
        Some(_) => Some(0),
    }
}

impl<'a> LayoutBox<'a> {
    /// Resolves the horizontal dimensions of a block box inside `b_box`.
    fn calculate_width(&mut self, b_box: Dimensions) -> (r: Result<(), LayoutError>)
        ensures
            final(self).box_type == old(self).box_type,
            final(self).styled_node == old(self).styled_node,
            final(self).children == old(self).children,
            match r {
                Ok(()) => block_width(old(self).dimensions, *old(self).styled_node, b_box) == Ok::<
                    Dimensions,
                    LayoutError,
                >(final(self).dimensions),
                Err(e) => block_width(old(self).dimensions, *old(self).styled_node, b_box) == Err::<
                    Dimensions,
                    LayoutError,
                >(e),
            },
    {
        let s = self.styled_node;
        let width: i64 = match get_abs_num(s, b_box, "width") {
            Ok(Some(w)) => w,
            Ok(None) => 0,
            Err(e) => {
                return Err(e);
            },
        };
        let margin_left = margin_of(s.value("margin-left"));
        let margin_right = margin_of(s.value("margin-right"));
        let border_left = s.num_or("border-left-width", 0);
        let border_right = s.num_or("border-right-width", 0);
        let padding_left = s.num_or("padding-left", 0);
        let padding_right = s.num_or("padding-right", 0);

        let edges: i128 = border_left as i128 + border_right as i128 + padding_left as i128
            + padding_right as i128;
        let (content_width, left, right) = solve(
            b_box.content.width,
            width,
            margin_left,
            margin_right,
            edges,
        );
        if !(in_range(content_width) && in_range(left) && in_range(right)) {
            return Err(LayoutError::Overflow);
        }
        self.dimensions.border.left = border_left;
        self.dimensions.border.right = border_right;
        self.dimensions.padding.left = padding_left;
        self.dimensions.padding.right = padding_right;
        self.dimensions.margin.left = left as i64;
        self.dimensions.margin.right = right as i64;
        self.dimensions.content.width = content_width as i64;
        Ok(())
    }

    /// Reads the top and bottom margin, border and padding of the box.
    fn read_vertical_edges(&mut self)
        ensures
            final(self).box_type == old(self).box_type,
            final(self).styled_node == old(self).styled_node,
            final(self).children == old(self).children,
            final(self).dimensions == vertical_edges(old(self).dimensions, *old(self).styled_node),
    {
        let s = self.styled_node;
        self.dimensions.margin.top = s.num_or("margin-top", 0);
        self.dimensions.margin.bottom = s.num_or("margin-bottom", 0);
        self.dimensions.border.top = s.num_or("border-top-width", 0);
        self.dimensions.border.bottom = s.num_or("border-bottom-width", 0);
        self.dimensions.padding.top = s.num_or("padding-top", 0);
        self.dimensions.padding.bottom = s.num_or("padding-bottom", 0);
    }

    /// Positions a block box inside `b_box`, below what `b_box` already
    /// holds.
    fn calculate_pos(&mut self, b_box: Dimensions) -> (r: Result<(), LayoutError>)
        ensures
            final(self).box_type == old(self).box_type,
            final(self).styled_node == old(self).styled_node,
            final(self).children == old(self).children,
            match r {
                Ok(()) => block_position(old(self).dimensions, *old(self).styled_node, b_box)
                    == Ok::<Dimensions, LayoutError>(final(self).dimensions),
                Err(e) => block_position(old(self).dimensions, *old(self).styled_node, b_box)
                    == Err::<Dimensions, LayoutError>(e),
            },
    {
        self.read_vertical_edges();
        let d = self.dimensions;
        let x: i128 = b_box.content.x as i128 + d.margin.left as i128 + d.border.left as i128
            + d.padding.left as i128;
        let y: i128 = b_box.content.height as i128 + b_box.content.y as i128 + d.margin.top as i128
            + d.border.top as i128 + d.padding.top as i128;
        if !(in_range(x) && in_range(y)) {
            return Err(LayoutError::Overflow);
        }
        self.dimensions.content.x = x as i64;
        self.dimensions.content.y = y as i64;
        Ok(())
    }

    /// Gives the content the declared height, where one is declared.
    fn calculate_height(&mut self)
        ensures
            final(self).box_type == old(self).box_type,
            final(self).styled_node == old(self).styled_node,
            final(self).children == old(self).children,
            final(self).dimensions == with_declared_height(
                old(self).dimensions,
                *old(self).styled_node,
            ),
    {
        match self.styled_node.value("height") {
            Some(Value::Length(n, _)) => {
                self.dimensions.content.height = *n;
            },
            _ => {},
        }
    }

    /// Reads the horizontal dimensions of an inline-block box inside
    /// `b_box`.
    fn calculate_inline_width(&mut self, b_box: Dimensions) -> (r: Result<(), LayoutError>)
        ensures
            final(self).box_type == old(self).box_type,
            final(self).styled_node == old(self).styled_node,
            final(self).children == old(self).children,
            match r {
                Ok(()) => inline_width(old(self).dimensions, *old(self).styled_node, b_box)
                    == Ok::<Dimensions, LayoutError>(final(self).dimensions),
                Err(e) => inline_width(old(self).dimensions, *old(self).styled_node, b_box)
                    == Err::<Dimensions, LayoutError>(e),
            },
    {
        let s = self.styled_node;
        let width: i64 = match get_abs_num(s, b_box, "width") {
            Ok(Some(w)) => w,
            Ok(None) => 0,
            Err(e) => {
                return Err(e);
            },
        };
        self.dimensions.content.width = width;
        self.dimensions.margin.left = s.num_or("margin-left", 0);
        self.dimensions.margin.right = s.num_or("margin-right", 0);
        self.dimensions.padding.left = s.num_or("padding-left", 0);
        self.dimensions.padding.right = s.num_or("padding-right", 0);
        self.dimensions.border.left = s.num_or("border-left-width", 0);
        self.dimensions.border.right = s.num_or("border-right-width", 0);
        Ok(())
    }

    /// Positions an inline-block box inside `b_box`, at its flow cursor.
    fn calculate_inline_pos(&mut self, b_box: Dimensions) -> (r: Result<(), LayoutError>)
        ensures
            final(self).box_type == old(self).box_type,
            final(self).styled_node == old(self).styled_node,
            final(self).children == old(self).children,
            match r {
                Ok(()) => inline_position(old(self).dimensions, *old(self).styled_node, b_box)
                    == Ok::<Dimensions, LayoutError>(final(self).dimensions),
                Err(e) => inline_position(old(self).dimensions, *old(self).styled_node, b_box)
                    == Err::<Dimensions, LayoutError>(e),
            },
    {
        self.read_vertical_edges();
        let d = self.dimensions;
        let x: i128 = b_box.content.x as i128 + b_box.current.x as i128 + d.margin.left as i128
            + d.border.left as i128 + d.padding.left as i128;
        let y: i128 = b_box.content.y as i128 + b_box.content.height as i128
            + b_box.current.y as i128 + d.margin.top as i128 + d.border.top as i128
            + d.padding.top as i128;
        if !(in_range(x) && in_range(y)) {
            return Err(LayoutError::Overflow);
        }
        self.dimensions.content.x = x as i64;
        self.dimensions.content.y = y as i64;
        Ok(())
    }
}

impl<'a> LayoutBox<'a> {
    /// The flow of the box's children at the top of the loop that places
    /// them: `placed` of them stand, the greatest margin-box height so far is
    /// `max_child_height`, and the child placed last has type `previous`.
    spec fn flow_at(&self, placed: int, max_child_height: i64, previous: BoxType) -> Flow {
        Flow {
            containing: self.dimensions,
            max_child_height,
            previous,
            placed: Seq::new(placed as nat, |j: int| self.children@[j].tree()),
        }
    }

    /// Closes the open line: the content grows by `max_child_height` and the
    /// cursor returns to the start of the line.
    fn break_line(&mut self, max_child_height: i64) -> (r: Result<(), LayoutError>)
        ensures
            final(self).box_type == old(self).box_type,
            final(self).styled_node == old(self).styled_node,
            final(self).children == old(self).children,
            depth(final(self).tree()) == depth(old(self).tree()),
            match r {
                Ok(()) => line_break(old(self).dimensions, max_child_height) == Ok::<
                    Dimensions,
                    LayoutError,
                >(final(self).dimensions),
                Err(e) => line_break(old(self).dimensions, max_child_height) == Err::<
                    Dimensions,
                    LayoutError,
                >(e) && final(self).dimensions == old(self).dimensions,
            },
    {
        let height = narrow(self.dimensions.content.height as i128 + max_child_height as i128);
        match height {
            Ok(h) => {
                self.dimensions.content.height = h;
                self.dimensions.current.x = 0;
                Ok(())
            },
            Err(e) => Err(e),
        }
    }

    /// Lays out the child at position `i` inside `b_box`.
    fn layout_child(&mut self, i: usize, b_box: Dimensions) -> (r: Result<(), LayoutError>)
        requires
            i < old(self).children@.len(),
        ensures
            final(self).dimensions == old(self).dimensions,
            final(self).box_type == old(self).box_type,
            final(self).styled_node == old(self).styled_node,
            final(self).children@.len() == old(self).children@.len(),
            forall|j: int|
                0 <= j < old(self).children@.len() && j != i ==> final(self).children@[j] == old(
                    self,
                ).children@[j],
            match r {
                Ok(()) => {
                    &&& laid_out(old(self).children@[i as int].tree(), b_box) == Ok::<
                        BoxTree,
                        LayoutError,
                    >(final(self).children@[i as int].tree())
                    &&& same_boxes(
                        old(self).children@[i as int].tree(),
                        final(self).children@[i as int].tree(),
                    )
                    &&& depth(final(self).tree()) == depth(old(self).tree())
                },
                Err(e) => laid_out(old(self).children@[i as int].tree(), b_box) == Err::<
                    BoxTree,
                    LayoutError,
                >(e),
            },
        decreases depth(old(self).tree()), 0int,
    {
        let ghost child = self.children@[i as int].tree();
        proof {
            lemma_child_depth(self.tree(), i as int);
        }
        let r = self.children[i].layout(b_box);
        proof {
            if r is Ok {
                lemma_laid_out_same_boxes(child, b_box);
                lemma_same_boxes_depth(child, self.children@[i as int].tree());
                lemma_depth_of_children(self.tree(), old(self).tree());
            }
        }
        r
    }

    /// Lets the child at position `i`, laid out with margin box `m`, take its
    /// place: see [`settled`].
    fn settle_child(&mut self, i: usize, m: Rectangle, max_child_height: i64) -> (r: Result<
        (),
        LayoutError,
    >)
        requires
            i < old(self).children@.len(),
        ensures
            final(self).box_type == old(self).box_type,
            final(self).styled_node == old(self).styled_node,
            final(self).children@.len() == old(self).children@.len(),
            forall|j: int|
                0 <= j < old(self).children@.len() && j != i ==> final(self).children@[j] == old(
                    self,
                ).children@[j],
            match settled(
                old(self).children@[i as int].tree(),
                old(self).children@[i as int].tree(),
                old(self).dimensions,
                m,
                max_child_height,
            ) {
                Ok(p) => {
                    &&& r is Ok
                    &&& final(self).dimensions == p.containing
                    &&& final(self).children@[i as int].tree() == p.child
                    &&& depth(final(self).tree()) == depth(old(self).tree())
                },
                Err(e) => r == Err::<(), LayoutError>(e),
            },
        decreases depth(old(self).tree()), 1int,
    {
        let child_type = self.children[i].box_type;
        match child_type {
            BoxType::Block => {
                match narrow(self.dimensions.content.height as i128 + m.height as i128) {
                    Ok(h) => {
                        self.dimensions.content.height = h;
                    },
                    Err(e) => {
                        return Err(e);
                    },
                }
            },
            BoxType::InlineBlock => {
                let x = match narrow(self.dimensions.current.x as i128 + m.width as i128) {
                    Ok(x) => x,
                    Err(e) => {
                        return Err(e);
                    },
                };
                if x > self.dimensions.content.width {
                    match self.break_line(max_child_height) {
                        Ok(()) => {},
                        Err(e) => {
                            return Err(e);
                        },
                    }
                    let next_line = self.dimensions;
                    match self.layout_child(i, next_line) {
                        Ok(()) => {},
                        Err(e) => {
                            return Err(e);
                        },
                    }
                    let m2 = match self.children[i].dimensions.margin_box() {
                        Ok(m2) => m2,
                        Err(e) => {
                            return Err(e);
                        },
                    };
                    self.dimensions.current.x = m2.width;
                } else {
                    self.dimensions.current.x = x;
                }
            },
            _ => {},
        }
        Ok(())
    }

    /// Opens the line on which a child of type `child_type` is laid out
    /// after a child of type `previous`: see [`opening`].
    fn open_line(&mut self, child_type: BoxType, max_child_height: i64, previous: BoxType) -> (r:
        Result<(), LayoutError>)
        ensures
            final(self).box_type == old(self).box_type,
            final(self).styled_node == old(self).styled_node,
            final(self).children == old(self).children,
            depth(final(self).tree()) == depth(old(self).tree()),
            match r {
                Ok(()) => opening(child_type, old(self).dimensions, max_child_height, previous)
                    == Ok::<Dimensions, LayoutError>(final(self).dimensions),
                Err(e) => opening(child_type, old(self).dimensions, max_child_height, previous)
                    == Err::<Dimensions, LayoutError>(e),
            },
    {
        if matches!(previous, BoxType::InlineBlock) && matches!(child_type, BoxType::Block) {
            self.break_line(max_child_height)
        } else {
            Ok(())
        }
    }

    /// Places the child at position `i` after a child of type `previous`,
    /// and gives back the greatest margin-box height so far.
    fn place_child(&mut self, i: usize, max_child_height: i64, previous: BoxType) -> (r: Result<
        i64,
        LayoutError,
    >)
        requires
            i < old(self).children@.len(),
        ensures
            final(self).box_type == old(self).box_type,
            final(self).styled_node == old(self).styled_node,
            final(self).children@.len() == old(self).children@.len(),
            forall|j: int|
                0 <= j < old(self).children@.len() && j != i ==> final(self).children@[j] == old(
                    self,
                ).children@[j],
            match place_child(
                old(self).children@[i as int].tree(),
                old(self).dimensions,
                max_child_height,
                previous,
            ) {
                Ok(p) => {
                    &&& r == Ok::<i64, LayoutError>(p.max_child_height)
                    &&& final(self).dimensions == p.containing
                    &&& final(self).children@[i as int].tree() == p.child
                    &&& depth(final(self).tree()) == depth(old(self).tree())
                },
                Err(e) => r == Err::<i64, LayoutError>(e),
            },
        decreases depth(old(self).tree()), 2int,
    {
        let ghost child = self.children@[i as int].tree();
        let child_type = self.children[i].box_type;
        match self.open_line(child_type, max_child_height, previous) {
            Ok(()) => {},
            Err(e) => {
                return Err(e);
            },
        }
        let ghost d = self.dimensions;
        match self.layout_child(i, self.dimensions) {
            Ok(()) => {},
            Err(e) => {
                return Err(e);
            },
        }
        let ghost first = self.children@[i as int].tree();
        let m = match self.children[i].dimensions.margin_box() {
            Ok(m) => m,
            Err(e) => {
                return Err(e);
            },
        };
        let max: i64 = if m.height > max_child_height {
            m.height
        } else {
            max_child_height
        };
        proof {
            lemma_same_boxes_settled(child, first, first, d, m, max);
        }
        match self.settle_child(i, m, max) {
            Ok(()) => Ok(max),
            Err(e) => Err(e),
        }
    }

    /// Places the children one after the other: blocks stack, inline-blocks
    /// fill lines from left to right and wrap where a line is full.
    fn layout_children(&mut self) -> (r: Result<(), LayoutError>)
        ensures
            final(self).box_type == old(self).box_type,
            final(self).styled_node == old(self).styled_node,
            match flow(old(self).tree().children, 0, flow_of(flow_start(old(self).dimensions))) {
                Ok(end) => {
                    &&& r is Ok
                    &&& final(self).dimensions == end.containing
                    &&& final(self).tree().children == end.placed
                },
                Err(e) => r == Err::<(), LayoutError>(e),
            },
        decreases depth(old(self).tree()), 3int,
    {
        let ghost kids = old(self).tree().children;
        let ghost start = flow_of(flow_start(old(self).dimensions));
        self.dimensions.content.height = 0;
        self.dimensions.current = Rectangle::default();
        let mut max_child_height: i64 = 0;
        let mut previous = BoxType::Block;
        let mut i: usize = 0;
        assert(self.flow_at(0, max_child_height, previous).placed =~= start.placed);
        while i < self.children.len()
            invariant
                0 <= i <= self.children@.len(),
                self.children@.len() == kids.len(),
                kids == old(self).tree().children,
                start == flow_of(flow_start(old(self).dimensions)),
                self.box_type == old(self).box_type,
                self.styled_node == old(self).styled_node,
                forall|j: int|
                    i <= j < self.children@.len() ==> self.children@[j] == old(self).children@[j],
                depth(self.tree()) == depth(old(self).tree()),
                flow(kids, 0, start) == flow(
                    kids,
                    i as int,
                    self.flow_at(i as int, max_child_height, previous),
                ),
            decreases self.children@.len() - i,
        {
            let ghost st = self.flow_at(i as int, max_child_height, previous);
            let child_type = self.children[i].box_type;
            match self.place_child(i, max_child_height, previous) {
                Ok(max) => {
                    max_child_height = max;
                },
                Err(e) => {
                    return Err(e);
                },
            }
            previous = child_type;
            i += 1;
            assert(self.flow_at(i as int, max_child_height, previous).placed =~= st.placed.push(
                self.children@[i - 1].tree(),
            ));
        }
        Ok(())
    }

    /// Lays out a block box inside `b_box`: width, position, children,
    /// height, in that order.
    fn layout_block(&mut self, b_box: Dimensions) -> (r: Result<(), LayoutError>)
        requires
            old(self).box_type != BoxType::InlineBlock,
            old(self).box_type != BoxType::Anonymous,
        ensures
            match r {
                Ok(()) => laid_out(old(self).tree(), b_box) == Ok::<BoxTree, LayoutError>(
                    final(self).tree(),
                ),
                Err(e) => laid_out(old(self).tree(), b_box) == Err::<BoxTree, LayoutError>(e),
            },
        decreases depth(old(self).tree()), 4int,
    {
        match self.calculate_width(b_box) {
            Ok(()) => {},
            Err(e) => {
                return Err(e);
            },
        }
        match self.calculate_pos(b_box) {
            Ok(()) => {},
            Err(e) => {
                return Err(e);
            },
        }
        match self.layout_children() {
            Ok(()) => {},
            Err(e) => {
                return Err(e);
            },
        }
        self.calculate_height();
        Ok(())
    }

    /// Lays out an inline-block box inside `b_box`: as a block, but with the
    /// declared horizontal dimensions, at the flow cursor of `b_box`.
    fn layout_inline_block(&mut self, b_box: Dimensions) -> (r: Result<(), LayoutError>)
        requires
            old(self).box_type == BoxType::InlineBlock,
        ensures
            match r {
                Ok(()) => laid_out(old(self).tree(), b_box) == Ok::<BoxTree, LayoutError>(
                    final(self).tree(),
                ),
                Err(e) => laid_out(old(self).tree(), b_box) == Err::<BoxTree, LayoutError>(e),
            },
        decreases depth(old(self).tree()), 4int,
    {
        match self.calculate_inline_width(b_box) {
            Ok(()) => {},
            Err(e) => {
                return Err(e);
            },
        }
        match self.calculate_inline_pos(b_box) {
            Ok(()) => {},
            Err(e) => {
                return Err(e);
            },
        }
        match self.layout_children() {
            Ok(()) => {},
            Err(e) => {
                return Err(e);
            },
        }
        self.calculate_height();
        Ok(())
    }

    /// Gives the box and everything below it their geometry inside `b_box`.
    /// An anonymous box is left as it is.
    fn layout(&mut self, b_box: Dimensions) -> (r: Result<(), LayoutError>)
        ensures
            match r {
                Ok(()) => laid_out(old(self).tree(), b_box) == Ok::<BoxTree, LayoutError>(
                    final(self).tree(),
                ),
                Err(e) => laid_out(old(self).tree(), b_box) == Err::<BoxTree, LayoutError>(e),
            },
        decreases depth(old(self).tree()), 5int,
    {
        match self.box_type {
            BoxType::Block => self.layout_block(b_box),
            BoxType::Inline => self.layout_block(b_box),
            BoxType::InlineBlock => self.layout_inline_block(b_box),
            BoxType::Anonymous => Ok(()),
        }
    }
}

/// Lays out the tree of styled nodes under `root` inside `containing_block`.
///
/// The content height of `containing_block` counts as 0, whatever it holds.
/// The result has a box for `root` and for every node below it that is not
/// left out of layout, each with its geometry; see [`layout_of`]. Where a box
/// declares a width in a unit other than pixels or percent, or a number does
/// not fit, the pass ends with that error.
pub fn layout_tree<'a>(root: &'a StyledNode, containing_block: Dimensions) -> (r: Result<
    LayoutBox<'a>,
    LayoutError,
>)
    ensures
        match r {
            Ok(b) => layout_of(*root, containing_block) == Ok::<BoxTree, LayoutError>(b.tree()),
            Err(e) => layout_of(*root, containing_block) == Err::<BoxTree, LayoutError>(e),
        },
{
    let mut containing_block = containing_block;
    containing_block.content.height = 0;
    let mut root_box = build_layout_tree(root);
    match root_box.layout(containing_block) {
        Ok(()) => Ok(root_box),
        Err(e) => Err(e),
    }
}

} // verus!
