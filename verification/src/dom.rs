//! The document tree as the library sees it: what a `TuiDom` holds, as a map
//! from nodes to their values, and the operations that read and change it.
//!
//! A `TuiDom` tells its observers of every change, and they may call event
//! listeners. Both may read the tree but not change it: the tree's own guard
//! panics if one does. A tree is called *quiet* here while no observer is
//! running and none of its observers and listeners breaks that rule.

use rdom_tui::core_api::Dom;
use rdom_tui::layout::{BorderStyle, Length, Position, ZIndex};
use rdom_tui::runtime::builtins::table;
use rdom_tui::{
    Border, Color, Direction, Display, Flow, NodeId, Overflow, Size, TuiAccessors, TuiDom, TuiExt,
    TuiNodeExt, TuiNodeMutExt, TuiStyle, Value,
};

use vstd::prelude::*;

verus! {

#[verifier::external_type_specification]
#[verifier::external_body]
#[verifier::reject_recursive_types(Ext)]
pub struct ExDom<Ext: 'static>(Dom<Ext>);

#[verifier::external_type_specification]
#[verifier::external_body]
pub struct ExTuiExt(TuiExt);

#[verifier::external_type_specification]
#[verifier::external_body]
pub struct ExNodeId(NodeId);

/// A width or height that an inline style asks for.
#[derive(Clone, Copy, Debug, PartialEq, Eq, Structural)]
pub enum BoxSize {
    Auto,
    Fixed(u16),
}

/// A colour.
#[derive(Clone, Copy, Debug, PartialEq, Eq, Structural)]
pub struct Rgb {
    pub red: u8,
    pub green: u8,
    pub blue: u8,
}

/// A panel placed over the rest of the page.
#[derive(Clone, Copy, Debug, PartialEq, Eq, Structural)]
pub struct Overlay {
    /// Cells below the top, and from the right edge, of the box it is placed in.
    pub top: i16,
    pub right: i16,
    /// Its place in the stack.
    pub z: i16,
    /// The colour of its background and its border.
    pub color: Rgb,
}

/// The part of an inline style that the library writes.
#[derive(Clone, Copy, Debug, PartialEq, Eq, Structural)]
pub struct BoxStyle {
    pub width: Option<BoxSize>,
    pub height: Option<BoxSize>,
    /// The box scrolls vertically when its content overflows.
    pub scroll_y: bool,
    /// The box lays its content out in a row.
    pub row: bool,
    /// The box is a panel over the rest of the page.
    pub overlay: Option<Overlay>,
}

/// A laid-out box in screen cells.
#[derive(Clone, Copy, Debug, PartialEq, Eq, Structural)]
pub struct BoxRect {
    pub x: i32,
    pub y: i32,
    pub width: u16,
    pub height: u16,
}

/// What sort of node a node is.
pub enum NodeKind {
    Element { tag: Seq<char> },
    Text,
    Comment,
    Fragment,
}

/// The value of a node.
#[verifier::ext_equal]
pub struct NodeView {
    pub kind: NodeKind,
    /// The characters of a text or a comment.
    pub data: Seq<char>,
    pub attrs: Map<Seq<char>, Seq<char>>,
    pub children: Seq<NodeId>,
    pub parent: Option<NodeId>,
    /// The inline style, as far as [`BoxStyle`] goes.
    pub style: BoxStyle,
    /// The width that the last column sizing gave to a table cell.
    pub used_width: Option<u16>,
    /// Where the last layout put the node.
    pub rect: BoxRect,
    /// How far the node's content is scrolled down.
    pub scroll_top: i32,
}

/// The nodes of a tree.
pub type Nodes = Map<NodeId, NodeView>;

/// The nodes that a `TuiDom` holds, attached to its root or not.
pub uninterp spec fn dom_nodes(dom: TuiDom) -> Map<NodeId, NodeView>;

/// Is no observer of the tree running, and does no observer or listener change
/// the nodes on what the library writes?
pub uninterp spec fn dom_quiet(dom: TuiDom) -> bool;

/// The widths that `size_columns` gives to the cells of the table `table`.
pub uninterp spec fn column_sizes(nodes: Map<NodeId, NodeView>, table: NodeId) -> Map<NodeId, u16>;

/// No inline style.
pub open spec fn no_style() -> BoxStyle {
    BoxStyle { width: None, height: None, scroll_y: false, row: false, overlay: None }
}

/// A node as it is created.
pub open spec fn new_node(kind: NodeKind, data: Seq<char>) -> NodeView {
    NodeView {
        kind,
        data,
        attrs: Map::empty(),
        children: Seq::empty(),
        parent: None,
        style: no_style(),
        used_width: None,
        rect: BoxRect { x: 0, y: 0, width: 0, height: 0 },
        scroll_top: 0,
    }
}

/// A new element.
pub open spec fn new_element(tag: Seq<char>) -> NodeView {
    new_node(NodeKind::Element { tag }, Seq::empty())
}

/// A new text.
pub open spec fn new_text(data: Seq<char>) -> NodeView {
    new_node(NodeKind::Text, data)
}

/// Is `id` an element?
pub open spec fn is_element(nodes: Nodes, id: NodeId) -> bool {
    nodes.contains_key(id) && nodes[id].kind is Element
}

/// Is `id` an element with the tag `tag`?
pub open spec fn has_tag(nodes: Nodes, id: NodeId, tag: Seq<char>) -> bool {
    nodes.contains_key(id) && nodes[id].kind == (NodeKind::Element { tag })
}

/// Is `id` neither a node nor the parent or a child of one?
pub open spec fn is_unused(nodes: Nodes, id: NodeId) -> bool {
    !nodes.contains_key(id) && forall|k: NodeId| #[trigger]
        nodes.contains_key(k) ==> nodes[k].parent != Some(id) && !nodes[k].children.contains(id)
}

/// Are there at most as many nodes as leave room for `n` more?
pub open spec fn has_room(nodes: Nodes, n: nat) -> bool {
    nodes.dom().finite() && nodes.dom().len() + n <= u32::MAX
}

/// Does the set hold, with each node, the node's parent?
pub open spec fn upward_closed(nodes: Nodes, set: Set<NodeId>) -> bool {
    forall|k: NodeId|
        set.contains(k) && nodes.contains_key(k) && nodes[k].parent is Some ==> set.contains(
            (#[trigger] nodes[k]).parent.unwrap(),
        )
}

/// Is `child` neither `parent` nor one of its ancestors?
pub open spec fn not_above(nodes: Nodes, child: NodeId, parent: NodeId) -> bool {
    exists|set: Set<NodeId>| #[trigger]
        upward_closed(nodes, set) && set.contains(parent) && !set.contains(child)
}

/// The tree with the orphan `child` appended to the children of `parent`.
pub open spec fn appended(nodes: Nodes, parent: NodeId, child: NodeId) -> Nodes {
    nodes.insert(
        parent,
        NodeView { children: nodes[parent].children.push(child), ..nodes[parent] },
    ).insert(child, NodeView { parent: Some(parent), ..nodes[child] })
}

/// Does `path` lead from node to child to grandchild?
pub open spec fn leads_down(nodes: Nodes, path: Seq<NodeId>) -> bool {
    forall|i: int|
        #![trigger path[i]]
        0 <= i < path.len() - 1 ==> nodes.contains_key(path[i]) && nodes[path[i]].children.contains(
            path[i + 1],
        )
}

/// Is `id` the node `top` or one of its descendants?
pub open spec fn is_below(nodes: Nodes, top: NodeId, id: NodeId) -> bool {
    exists|path: Seq<NodeId>| #[trigger]
        leads_down(nodes, path) && path.len() > 0 && path.first() == top && path.last() == id
}

/// A list of children without `child`.
pub open spec fn without_child(children: Seq<NodeId>, child: NodeId) -> Seq<NodeId> {
    children.filter(|c: NodeId| c != child)
}

/// The tree without `top` and its descendants.
pub open spec fn dropped(nodes: Nodes, top: NodeId) -> Nodes {
    if nodes.contains_key(top) {
        Map::new(
            |k: NodeId| nodes.contains_key(k) && !is_below(nodes, top, k),
            |k: NodeId|
                if nodes[top].parent == Some(k) {
                    NodeView { children: without_child(nodes[k].children, top), ..nodes[k] }
                } else {
                    nodes[k]
                },
        )
    } else {
        nodes
    }
}

/// The tree with the attribute `key` of the element `id` set to `value`, or
/// removed.
pub open spec fn with_attr(
    nodes: Nodes,
    id: NodeId,
    key: Seq<char>,
    value: Option<Seq<char>>,
) -> Nodes {
    if is_element(nodes, id) {
        nodes.insert(
            id,
            NodeView {
                attrs: match value {
                    Some(v) => nodes[id].attrs.insert(key, v),
                    None => nodes[id].attrs.remove(key),
                },
                ..nodes[id]
            },
        )
    } else {
        nodes
    }
}

/// The tree with the text or comment `id` reading `data`.
pub open spec fn with_data(nodes: Nodes, id: NodeId, data: Seq<char>) -> Nodes {
    if nodes.contains_key(id) && (nodes[id].kind is Text || nodes[id].kind is Comment) {
        nodes.insert(id, NodeView { data, ..nodes[id] })
    } else {
        nodes
    }
}

/// The tree with the inline style of the element `id` replaced.
pub open spec fn with_style(nodes: Nodes, id: NodeId, style: BoxStyle) -> Nodes {
    if is_element(nodes, id) {
        nodes.insert(id, NodeView { style, ..nodes[id] })
    } else {
        nodes
    }
}

/// The tree with the inline width of the element `id` set.
pub open spec fn with_width(nodes: Nodes, id: NodeId, width: BoxSize) -> Nodes {
    if is_element(nodes, id) {
        with_style(nodes, id, BoxStyle { width: Some(width), ..nodes[id].style })
    } else {
        nodes
    }
}

/// The tree with some elements given the widths of their columns.
pub open spec fn with_columns_sized(nodes: Nodes, sizes: Map<NodeId, u16>) -> Nodes {
    nodes.map_entries(
        |id: NodeId, node: NodeView|
            if sizes.contains_key(id) {
                NodeView { used_width: Some(sizes[id]), ..node }
            } else {
                node
            },
    )
}

/// The children of a node, none of an unknown id.
pub open spec fn children_of(nodes: Nodes, id: NodeId) -> Seq<NodeId> {
    if nodes.contains_key(id) {
        nodes[id].children
    } else {
        Seq::empty()
    }
}

/// The first child of a node.
pub open spec fn first_child_of(nodes: Nodes, id: NodeId) -> Option<NodeId> {
    if children_of(nodes, id).len() > 0 {
        Some(children_of(nodes, id)[0])
    } else {
        None
    }
}

/// The width that the last column sizing gave to an element.
pub open spec fn used_width_of(nodes: Nodes, id: NodeId) -> Option<u16> {
    if is_element(nodes, id) {
        nodes[id].used_width
    } else {
        None
    }
}

/// Does every node have only nodes as its children?
pub open spec fn closed_below(nodes: Nodes) -> bool {
    forall|k: NodeId, c: NodeId|
        nodes.contains_key(k) && #[trigger] nodes[k].children.contains(c) ==> nodes.contains_key(c)
}

/// Is `id` a group of table rows?
pub open spec fn is_row_group(nodes: Nodes, id: NodeId) -> bool {
    has_tag(nodes, id, "thead"@) || has_tag(nodes, id, "tbody"@) || has_tag(nodes, id, "tfoot"@)
}

/// Is `row` a row of the table `table`, by itself or in a group?
pub open spec fn is_row_of(nodes: Nodes, table: NodeId, row: NodeId) -> bool {
    has_tag(nodes, row, "tr"@) && (children_of(nodes, table).contains(row) || exists|group: NodeId|
        #[trigger] children_of(nodes, table).contains(group) && is_row_group(nodes, group)
            && children_of(nodes, group).contains(row))
}

/// The cells of a row.
pub open spec fn cells_of(nodes: Nodes, row: NodeId) -> Seq<NodeId> {
    children_of(nodes, row).filter(
        |c: NodeId| has_tag(nodes, c, "td"@) || has_tag(nodes, c, "th"@),
    )
}

/// The fixed width that an element's inline style asks for.
pub open spec fn fixed_width(nodes: Nodes, id: NodeId) -> Option<u16> {
    if is_element(nodes, id) {
        match nodes[id].style.width {
            Some(BoxSize::Fixed(w)) => Some(w),
            _ => None,
        }
    } else {
        None
    }
}

/// Is `w` the greatest fixed width that a cell in column `i` of a table asks for?
pub open spec fn column_fixed(nodes: Nodes, table: NodeId, i: int, w: u16) -> bool {
    &&& exists|row: NodeId| #[trigger]
        is_row_of(nodes, table, row) && 0 <= i < cells_of(nodes, row).len() && fixed_width(
            nodes,
            cells_of(nodes, row)[i],
        ) == Some(w)
    &&& forall|row: NodeId| #[trigger]
        is_row_of(nodes, table, row) && 0 <= i < cells_of(nodes, row).len() ==> match fixed_width(
            nodes,
            cells_of(nodes, row)[i],
        ) {
            Some(v) => v <= w,
            None => true,
        }
}

/// Does every cell in a column with a fixed width have that width?
pub open spec fn widths_kept(nodes: Nodes, table: NodeId) -> bool {
    forall|row: NodeId, i: int, w: u16| #[trigger]
        is_row_of(nodes, table, row) && 0 <= i < cells_of(nodes, row).len()
            && #[trigger] column_fixed(nodes, table, i, w) ==> used_width_of(
            nodes,
            cells_of(nodes, row)[i],
        ) == Some(w)
}

/// Where the last layout put an element.
pub open spec fn rect_of(nodes: Nodes, id: NodeId) -> Option<BoxRect> {
    if is_element(nodes, id) {
        Some(nodes[id].rect)
    } else {
        None
    }
}

/// How far an element's content is scrolled down.
pub open spec fn scroll_top_of(nodes: Nodes, id: NodeId) -> Option<i32> {
    if is_element(nodes, id) {
        Some(nodes[id].scroll_top)
    } else {
        None
    }
}

/// The ancestor of `id` `n` steps up, `id` itself being none up.
pub open spec fn ancestor(nodes: Nodes, id: NodeId, n: nat) -> Option<NodeId>
    decreases n,
{
    if n == 0 {
        Some(id)
    } else {
        match ancestor(nodes, id, (n - 1) as nat) {
            Some(a) => if nodes.contains_key(a) {
                nodes[a].parent
            } else {
                None
            },
            None => None,
        }
    }
}

/// Is `found` the nearest element with the tag `tag` from `id` upwards, or
/// `None` where there is none?
pub open spec fn is_closest(
    nodes: Nodes,
    id: NodeId,
    tag: Seq<char>,
    found: Option<NodeId>,
) -> bool {
    match found {
        Some(t) => has_tag(nodes, t, tag) && exists|n: nat|
            #[trigger] ancestor(nodes, id, n) == Some(t) && forall|m: nat|
                m < n ==> match #[trigger] ancestor(nodes, id, m) {
                    Some(a) => !has_tag(nodes, a, tag),
                    None => true,
                },
        None => forall|n: nat|
            match #[trigger] ancestor(nodes, id, n) {
                Some(a) => !has_tag(nodes, a, tag),
                None => true,
            },
    }
}

/// Is `other` the node `id` or one of its descendants, going by the parents of
/// `other`?
pub open spec fn is_within(nodes: Nodes, id: NodeId, other: NodeId) -> bool {
    exists|n: nat| #[trigger] ancestor(nodes, other, n) == Some(id)
}

/// Does the element `id` have the attribute `key`?
pub open spec fn has_attr(nodes: Nodes, id: NodeId, key: Seq<char>) -> bool {
    is_element(nodes, id) && nodes[id].attrs.contains_key(key)
}

/// `NodeId`'s `==`: two ids are equal when they are the same id.
#[verifier::external_body]
pub(crate) fn same_node(a: NodeId, b: NodeId) -> (r: bool)
    ensures
        r == (a == b),
{
    a == b
}

/// `Dom::new`: a tree of a fragment without children, its root, that nobody
/// observes or listens to.
#[verifier::external_body]
pub(crate) fn new_tree() -> (r: TuiDom)
    ensures
        dom_quiet(r),
        exists|root: NodeId|
            dom_nodes(r) == #[trigger] Map::empty().insert(
                root,
                new_node(NodeKind::Fragment, Seq::empty()),
            ),
{
    TuiDom::new()
}

/// `Dom::create_element`: a new element under an id that no node has or refers
/// to, without parent, children or attributes. The ids run out where there are
/// as many nodes as an id can number.
#[verifier::external_body]
pub(crate) fn create_element(dom: &mut TuiDom, tag: &str) -> (id: NodeId)
    requires
        has_room(dom_nodes(*old(dom)), 1),
    ensures
        is_unused(dom_nodes(*old(dom)), id),
        dom_nodes(*final(dom)) == dom_nodes(*old(dom)).insert(id, new_element(tag@)),
        dom_quiet(*final(dom)) == dom_quiet(*old(dom)),
{
    dom.create_element(tag)
}

/// `Dom::create_text_node`: a new text under an id that no node has or refers
/// to, without parent.
#[verifier::external_body]
pub(crate) fn create_text(dom: &mut TuiDom, data: &str) -> (id: NodeId)
    requires
        has_room(dom_nodes(*old(dom)), 1),
    ensures
        is_unused(dom_nodes(*old(dom)), id),
        dom_nodes(*final(dom)) == dom_nodes(*old(dom)).insert(id, new_text(data@)),
        dom_quiet(*final(dom)) == dom_quiet(*old(dom)),
{
    dom.create_text_node(data)
}

/// `Dom::append_child` of an orphan: it becomes the last child. The call fails
/// on an unknown id and on a child that stands above its parent.
#[verifier::external_body]
pub(crate) fn append_child(dom: &mut TuiDom, parent: NodeId, child: NodeId)
    requires
        dom_quiet(*old(dom)),
        dom_nodes(*old(dom)).contains_key(parent),
        dom_nodes(*old(dom)).contains_key(child),
        !(dom_nodes(*old(dom))[child].kind is Fragment),
        dom_nodes(*old(dom))[child].parent is None,
        not_above(dom_nodes(*old(dom)), child, parent),
    ensures
        dom_nodes(*final(dom)) == appended(dom_nodes(*old(dom)), parent, child),
        dom_quiet(*final(dom)),
{
    dom.append_child(parent, child).unwrap()
}

/// `Dom::drop_subtree`: the node goes with its descendants, and leaves its
/// parent's children. An unknown id is refused, which changes nothing.
#[verifier::external_body]
pub(crate) fn drop_subtree(dom: &mut TuiDom, id: NodeId) -> (r: bool)
    requires
        dom_quiet(*old(dom)),
    ensures
        r == dom_nodes(*old(dom)).contains_key(id),
        dom_nodes(*final(dom)) == dropped(dom_nodes(*old(dom)), id),
        dom_quiet(*final(dom)),
{
    dom.drop_subtree(id).is_ok()
}

/// `Dom::set_attribute` of any attribute but `style`, which observers read into
/// the inline style. What is no element is refused, which changes nothing.
#[verifier::external_body]
pub(crate) fn set_attribute(dom: &mut TuiDom, id: NodeId, key: &str, value: &str) -> (r: bool)
    requires
        dom_quiet(*old(dom)),
        key@ != "style"@,
    ensures
        r == is_element(dom_nodes(*old(dom)), id),
        dom_nodes(*final(dom)) == with_attr(dom_nodes(*old(dom)), id, key@, Some(value@)),
        dom_quiet(*final(dom)),
{
    dom.set_attribute(id, key, value).is_ok()
}

/// `Dom::remove_attribute` of any attribute but `style`. What is no element is
/// refused, which changes nothing.
#[verifier::external_body]
pub(crate) fn remove_attribute(dom: &mut TuiDom, id: NodeId, key: &str) -> (r: bool)
    requires
        dom_quiet(*old(dom)),
        key@ != "style"@,
    ensures
        r == is_element(dom_nodes(*old(dom)), id),
        dom_nodes(*final(dom)) == with_attr(dom_nodes(*old(dom)), id, key@, None),
        dom_quiet(*final(dom)),
{
    dom.remove_attribute(id, key).is_ok()
}

/// `NodeMut::set_node_value`: the characters of a text or a comment. Another
/// node is refused, which changes nothing.
#[verifier::external_body]
pub(crate) fn set_data(dom: &mut TuiDom, id: NodeId, data: &str) -> (r: bool)
    requires
        dom_quiet(*old(dom)),
    ensures
        r == (dom_nodes(*old(dom)).contains_key(id) && (dom_nodes(*old(dom))[id].kind is Text
            || dom_nodes(*old(dom))[id].kind is Comment)),
        dom_nodes(*final(dom)) == with_data(dom_nodes(*old(dom)), id, data@),
        dom_quiet(*final(dom)),
{
    dom.node_mut(id).set_node_value(data).is_ok()
}

/// `NodeRef::child_nodes`: the children in order, none of an unknown id.
#[verifier::external_body]
pub(crate) fn children(dom: &TuiDom, id: NodeId) -> (r: Vec<NodeId>)
    ensures
        r@ == children_of(dom_nodes(*dom), id),
{
    dom.node(id).child_nodes().map(|n| n.id()).collect()
}

/// The first child of a node.
pub(crate) fn first_child(dom: &TuiDom, id: NodeId) -> (r: Option<NodeId>)
    ensures
        r == first_child_of(dom_nodes(*dom), id),
{
    let all = children(dom, id);
    if all.len() > 0 {
        Some(all[0])
    } else {
        None
    }
}

/// `TuiNodeMutExt::set_width`: the inline width of an element; nothing happens
/// to another node.
#[verifier::external_body]
pub(crate) fn set_width(dom: &mut TuiDom, id: NodeId, width: BoxSize)
    ensures
        dom_nodes(*final(dom)) == with_width(dom_nodes(*old(dom)), id, width),
        dom_quiet(*final(dom)) == dom_quiet(*old(dom)),
{
    dom.node_mut(id).set_width(match width {
        BoxSize::Auto => Size::Auto,
        BoxSize::Fixed(w) => Size::Fixed(w),
    });
}

/// `TuiNodeMutExt::set_inline_style` of a style with a height and, if asked for,
/// vertical scrolling: it replaces the inline style of an element; nothing
/// happens to another node.
#[verifier::external_body]
pub(crate) fn set_box(dom: &mut TuiDom, id: NodeId, height: u16, scroll_y: bool)
    ensures
        dom_nodes(*final(dom)) == with_style(
            dom_nodes(*old(dom)),
            id,
            (BoxStyle { height: Some(BoxSize::Fixed(height)), scroll_y, ..no_style() }),
        ),
        dom_quiet(*final(dom)) == dom_quiet(*old(dom)),
{
    let mut style = TuiStyle::new().height(Size::Fixed(height));
    style.overflow_y = scroll_y.then_some(Value::Specified(Overflow::Auto));
    dom.node_mut(id).set_inline_style(style);
}

/// `TuiNodeMutExt::set_inline_style` of a box of the given height that lays its
/// content out in a row: it replaces the inline style of an element; nothing
/// happens to another node.
#[verifier::external_body]
pub(crate) fn set_row_box(dom: &mut TuiDom, id: NodeId, height: u16)
    ensures
        dom_nodes(*final(dom)) == with_style(
            dom_nodes(*old(dom)),
            id,
            (BoxStyle { height: Some(BoxSize::Fixed(height)), row: true, ..no_style() }),
        ),
        dom_quiet(*final(dom)) == dom_quiet(*old(dom)),
{
    let mut style = TuiStyle::new().height(Size::Fixed(height)).direction(Direction::Row);
    style.display = Some(Value::Specified(Display::Block));
    style.flow = Some(Value::Specified(Flow::Flex));
    dom.node_mut(id).set_inline_style(style);
}

/// `TuiNodeMutExt::set_inline_style` of a panel of the given size, its border of
/// half blocks in the colour of its background: it replaces the inline style of
/// an element; nothing happens to another node.
#[verifier::external_body]
pub(crate) fn set_overlay(dom: &mut TuiDom, id: NodeId, width: u16, height: u16, o: Overlay)
    ensures
        dom_nodes(*final(dom)) == with_style(
            dom_nodes(*old(dom)),
            id,
            (BoxStyle {
                width: Some(BoxSize::Fixed(width)),
                height: Some(BoxSize::Fixed(height)),
                overlay: Some(o),
                ..no_style()
            }),
        ),
        dom_quiet(*final(dom)) == dom_quiet(*old(dom)),
{
    let color = Color::Rgb(o.color.red, o.color.green, o.color.blue);
    let sized = TuiStyle::new().width(Size::Fixed(width)).height(Size::Fixed(height));
    let mut style = sized.bg(color).border(Border::ring(BorderStyle::HalfBlock)).border_fg(color);
    style.position = Some(Value::Specified(Position::Absolute));
    style.top = Some(Value::Specified(Length::Cells(o.top)));
    style.right = Some(Value::Specified(Length::Cells(o.right)));
    style.z_index = Some(Value::Specified(ZIndex::Value(o.z)));
    dom.node_mut(id).set_inline_style(style);
}

/// `size_columns`: every cell of the table's rows gets its column's width, which
/// depends on the tree alone and, where cells of the column ask for a fixed
/// width, is the greatest of these; nothing else changes.
#[verifier::external_body]
pub(crate) fn size_columns(dom: &mut TuiDom, table: NodeId)
    ensures
        dom_nodes(*final(dom)) == with_columns_sized(
            dom_nodes(*old(dom)),
            column_sizes(dom_nodes(*old(dom)), table),
        ),
        widths_kept(dom_nodes(*final(dom)), table),
        dom_quiet(*final(dom)) == dom_quiet(*old(dom)),
{
    table::size_columns(dom, table)
}

/// `TuiExt::table_used_width`: the width that the last column sizing gave to an
/// element.
#[verifier::external_body]
pub(crate) fn used_width(dom: &TuiDom, id: NodeId) -> (r: Option<u16>)
    ensures
        r == used_width_of(dom_nodes(*dom), id),
{
    dom.node(id).ext().and_then(|e| e.table_used_width)
}

/// `TuiNodeExt::layout_rect`: where the last layout put an element.
#[verifier::external_body]
pub(crate) fn layout_rect(dom: &TuiDom, id: NodeId) -> (r: Option<BoxRect>)
    ensures
        r == rect_of(dom_nodes(*dom), id),
{
    dom.node(id).layout_rect().map(|r| BoxRect { x: r.x, y: r.y, width: r.width, height: r.height })
}

/// `TuiAccessors::scroll_top`: how far an element's content is scrolled down.
#[verifier::external_body]
pub(crate) fn scroll_top(dom: &TuiDom, id: NodeId) -> (r: Option<i32>)
    ensures
        r == scroll_top_of(dom_nodes(*dom), id),
{
    dom.node(id).scroll_top()
}

/// `NodeRef::closest` for the tag of a data cell or of a header cell: the
/// nearest such element from the node upwards.
#[verifier::external_body]
pub(crate) fn closest(dom: &TuiDom, id: NodeId, tag: &str) -> (r: Option<NodeId>)
    requires
        tag@ == "td"@ || tag@ == "th"@,
    ensures
        is_closest(dom_nodes(*dom), id, tag@, r),
{
    dom.node(id).closest(tag).map(|n| n.id())
}

/// `NodeRef::contains`: whether the node is the other one or one of its
/// ancestors.
#[verifier::external_body]
pub(crate) fn contains(dom: &TuiDom, id: NodeId, other: NodeId) -> (r: bool)
    ensures
        r == is_within(dom_nodes(*dom), id, other),
{
    dom.node(id).contains(other)
}

/// `Dom::has_attribute`: whether an element has the attribute; no other node
/// has one.
#[verifier::external_body]
pub(crate) fn has_attribute(dom: &TuiDom, id: NodeId, key: &str) -> (r: bool)
    ensures
        r == has_attr(dom_nodes(*dom), id, key@),
{
    dom.has_attribute(id, key)
}

} // verus!
