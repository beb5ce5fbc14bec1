//! The column chooser: a chip at the end of the header whose panel lists every
//! column with a checkbox, checked while the column is shown.

use rdom_tui::{NodeId, TuiDom};
use vstd::prelude::*;
use vstd::string::StrSliceExecFns;

use crate::dom::{
    append_child, appended, create_element, create_text, dom_nodes, dom_quiet, has_room,
    new_element, new_text, no_style, set_attribute, set_data, set_overlay, set_row_box, set_width,
    with_data, BoxSize, BoxStyle, NodeView, Nodes, Overlay, Rgb,
};
use crate::draw::{built_beside, lemma_beside_not_above, lemma_changed_beside, lemma_created_beside};
use crate::grid::{Grid, GridView};
use crate::header::lemma_orphan;
use crate::marks::{all_marked, marked, set_flag, Mark};
use crate::model::Column;
use crate::text::{decimal, decimal_text};

verus! {

/// Width of the chip.
pub const CHIP_WIDTH: u16 = 3;

/// Height of an item, and width of its checkbox.
pub const ITEM_HEIGHT: u16 = 1;
pub const BOX_WIDTH: u16 = 4;

/// What the panel is wider, and taller, than its labels: the border on either
/// side, and the checkbox.
pub const MENU_EXTRA_WIDTH: u16 = 6;
pub const MENU_EXTRA_HEIGHT: u16 = 2;

/// The nodes of an open chooser.
pub struct Menu {
    pub node: NodeId,
    /// One label per column, with its checkbox and its text.
    pub items: Vec<NodeId>,
    pub boxes: Vec<NodeId>,
    pub texts: Vec<NodeId>,
    /// The highlighted item.
    pub cursor: usize,
}

/// The colour of the panel.
pub open spec fn menu_color() -> Rgb {
    Rgb { red: 0x22, green: 0x24, blue: 0x26 }
}

/// Where the panel is placed: below the chip, flush with its right edge, over
/// everything else.
pub open spec fn menu_overlay() -> Overlay {
    Overlay { top: 1, right: 0, z: 1000, color: menu_color() }
}

/// The length of the longest header among the first `n` columns.
pub open spec fn longest_header(columns: Seq<Column>, n: nat) -> nat
    decreases n,
{
    if n == 0 {
        0
    } else {
        let rest = longest_header(columns, (n - 1) as nat);
        let own = columns[n - 1].header@.len();
        if own > rest {
            own
        } else {
            rest
        }
    }
}

/// `n` cells and `extra`, as far as a size goes.
pub open spec fn size_of(n: nat, extra: u16) -> u16 {
    if n + extra <= u16::MAX {
        (n + extra) as u16
    } else {
        u16::MAX
    }
}

/// The inline style of the panel.
pub open spec fn menu_style(columns: Seq<Column>) -> BoxStyle {
    BoxStyle {
        width: Some(
            BoxSize::Fixed(
                size_of(longest_header(columns, columns.len()), MENU_EXTRA_WIDTH),
            ),
        ),
        height: Some(BoxSize::Fixed(size_of(columns.len(), MENU_EXTRA_HEIGHT))),
        overlay: Some(menu_overlay()),
        ..no_style()
    }
}

/// Is `item`, with the checkbox `input` and the text `text`, the item of column
/// `i`?
pub open spec fn item_built(
    nodes: Nodes,
    item: NodeId,
    input: NodeId,
    text: NodeId,
    parent: Option<NodeId>,
    column: Column,
    i: int,
    hidden: bool,
) -> bool {
    &&& nodes.contains_key(item)
    &&& nodes[item] == (NodeView {
        attrs: Map::empty().insert("data-vt-menu-item"@, ""@).insert(
            "data-vt-col"@,
            decimal(i as nat),
        ),
        children: seq![input, text],
        parent,
        style: BoxStyle { height: Some(BoxSize::Fixed(ITEM_HEIGHT)), row: true, ..no_style() },
        ..new_element("label"@)
    })
    &&& nodes.contains_key(input)
    &&& nodes[input] == (NodeView {
        attrs: if hidden {
            Map::empty().insert("type"@, "checkbox"@)
        } else {
            Map::empty().insert("type"@, "checkbox"@).insert("checked"@, ""@)
        },
        parent: Some(item),
        style: BoxStyle { width: Some(BoxSize::Fixed(BOX_WIDTH)), ..no_style() },
        ..new_element("input"@)
    })
    &&& nodes.contains_key(text)
    &&& nodes[text] == (NodeView { parent: Some(item), ..new_text(column.header@) })
}

/// Is `k` one of the nodes of the item?
pub open spec fn in_item(item: NodeId, input: NodeId, text: NodeId, k: NodeId) -> bool {
    k == item || k == input || k == text
}

/// Is `after` the tree `before` with the panel `menu` drawn as the last child of
/// `chip`, and the first columns listed in it? Nothing else has changed and
/// nothing else has come in.
pub open spec fn menu_drawn(
    before: Nodes,
    after: Nodes,
    chip: NodeId,
    menu: NodeId,
    items: Seq<NodeId>,
    boxes: Seq<NodeId>,
    texts: Seq<NodeId>,
    g: GridView,
) -> bool {
    &&& before.contains_key(chip)
    &&& !before.contains_key(menu)
    &&& after.contains_key(chip)
    &&& after[chip] == (NodeView {
        children: before[chip].children.push(menu),
        ..before[chip]
    })
    &&& forall|k: NodeId| #[trigger]
        before.contains_key(k) && k != chip ==> after.contains_key(k) && after[k] == before[k]
    &&& after.contains_key(menu)
    &&& after[menu] == (NodeView {
        attrs: Map::empty().insert("data-vt-menu"@, ""@),
        children: items,
        parent: Some(chip),
        style: menu_style(g.table.columns),
        ..new_element("div"@)
    })
    &&& items.len() <= g.table.columns.len()
    &&& boxes.len() == items.len()
    &&& texts.len() == items.len()
    &&& items.no_duplicates()
    &&& forall|i: int|
        0 <= i < items.len() ==> item_built(
            after,
            #[trigger] items[i],
            boxes[i],
            texts[i],
            Some(menu),
            g.table.columns[i],
            i,
            g.table.hidden.contains(i as usize),
        )
    &&& forall|i: int, k: NodeId|
        0 <= i < items.len() && #[trigger] in_item(items[i], boxes[i], texts[i], k)
            ==> !before.contains_key(k) && k != menu
    &&& forall|k: NodeId| #[trigger]
        after.contains_key(k) ==> before.contains_key(k) || k == menu || exists|i: int|
            0 <= i < items.len() && #[trigger] in_item(items[i], boxes[i], texts[i], k)
}

/// The attributes that the chooser writes are none of them `style`.
proof fn lemma_menu_attribute_names()
    ensures
        "data-vt-overflow"@ != "style"@,
        "data-vt-menu"@ != "style"@,
        "data-vt-menu-open"@ != "style"@,
        "data-vt-menu-item"@ != "style"@,
        "data-vt-menu-active"@ != "style"@,
        "data-vt-col"@ != "style"@,
        "type"@ != "style"@,
        "checked"@ != "style"@,
{
    reveal_strlit("style");
    reveal_strlit("data-vt-overflow");
    reveal_strlit("data-vt-menu");
    reveal_strlit("data-vt-menu-open");
    reveal_strlit("data-vt-menu-item");
    reveal_strlit("data-vt-menu-active");
    reveal_strlit("data-vt-col");
    reveal_strlit("type");
    reveal_strlit("checked");
    assert("style"@.len() == 5);
    assert("data-vt-overflow"@.len() == 16);
    assert("data-vt-menu"@.len() == 12);
    assert("data-vt-menu-open"@.len() == 17);
    assert("data-vt-menu-item"@.len() == 17);
    assert("data-vt-menu-active"@.len() == 19);
    assert("data-vt-col"@.len() == 11);
    assert("type"@.len() == 4);
    assert("checked"@.len() == 7);
}

/// The length of the longest header.
fn find_longest(columns: &[Column]) -> (r: usize)
    ensures
        r == longest_header(columns@, columns@.len()),
{
    let mut longest: usize = 0;
    let mut i: usize = 0;
    while i < columns.len()
        invariant
            i <= columns@.len(),
            longest == longest_header(columns@, i as nat),
        decreases columns@.len() - i,
    {
        let own: usize = columns[i].header.as_str().unicode_len();
        if own > longest {
            longest = own;
        }
        i = i + 1;
    }
    longest
}

/// `n` cells and `extra`, as far as a size goes.
fn to_size(n: usize, extra: u16) -> (r: u16)
    ensures
        r == size_of(n as nat, extra),
{
    if n <= (0xffff - extra) as usize {
        n as u16 + extra
    } else {
        0xffff
    }
}

/// Draw the item of a column that no panel has yet.
fn build_item(dom: &mut TuiDom, column: &Column, i: usize, hidden: bool) -> (r: (
    NodeId,
    NodeId,
    NodeId,
))
    requires
        dom_quiet(*old(dom)),
        has_room(dom_nodes(*old(dom)), 3),
    ensures
        dom_quiet(*final(dom)),
        built_beside(dom_nodes(*old(dom)), dom_nodes(*final(dom))),
        dom_nodes(*final(dom)).dom().finite(),
        dom_nodes(*final(dom)).dom().len() == dom_nodes(*old(dom)).dom().len() + 3,
        item_built(
            dom_nodes(*final(dom)),
            r.0,
            r.1,
            r.2,
            None,
            *column,
            i as int,
            hidden,
        ),
        forall|k: NodeId| #[trigger]
            in_item(r.0, r.1, r.2, k) ==> !dom_nodes(*old(dom)).contains_key(k),
        forall|k: NodeId| #[trigger]
            dom_nodes(*final(dom)).contains_key(k) ==> dom_nodes(*old(dom)).contains_key(k)
                || in_item(r.0, r.1, r.2, k),
{
    proof {
        lemma_menu_attribute_names();
    }
    let ghost n0 = dom_nodes(*dom);
    let item = create_element(dom, "label");
    let ghost n1 = dom_nodes(*dom);
    let input = create_element(dom, "input");
    let ghost n2 = dom_nodes(*dom);
    let text = create_text(dom, column.header.as_str());
    let ghost n3 = dom_nodes(*dom);
    proof {
        lemma_created_beside(n0, n0, item, n1[item]);
        lemma_created_beside(n0, n1, input, n2[input]);
        lemma_created_beside(n0, n2, text, n3[text]);
        assert(n3.dom().len() == n0.dom().len() + 3);
    }
    set_row_box(dom, item, ITEM_HEIGHT);
    set_attribute(dom, item, "data-vt-menu-item", "");
    let number = decimal_text(i as u64);
    set_attribute(dom, item, "data-vt-col", number.as_str());
    set_width(dom, input, BoxSize::Fixed(BOX_WIDTH));
    set_attribute(dom, input, "type", "checkbox");
    if !hidden {
        set_attribute(dom, input, "checked", "");
    }
    let ghost n4 = dom_nodes(*dom);
    proof {
        lemma_changed_beside(n0, n3, item, n4[item]);
        lemma_changed_beside(n0, n3.insert(item, n4[item]), input, n4[input]);
        assert(n4 =~= n3.insert(item, n4[item]).insert(input, n4[input]));
        assert(n4.dom() =~= n3.dom());
        lemma_orphan(n4, input, item);
    }
    append_child(dom, item, input);
    let ghost n5 = dom_nodes(*dom);
    proof {
        lemma_changed_beside(n0, n4, item, n5[item]);
        lemma_changed_beside(n0, n4.insert(item, n5[item]), input, n5[input]);
        assert(n5.dom() =~= n4.dom());
        lemma_orphan(n5, text, item);
    }
    append_child(dom, item, text);
    proof {
        let now = dom_nodes(*dom);
        lemma_changed_beside(n0, n5, item, now[item]);
        lemma_changed_beside(n0, n5.insert(item, now[item]), text, now[text]);
        assert(now.dom() =~= n5.dom());
        assert(now[item].children =~= seq![input, text]);
    }
    (item, input, text)
}

/// An item built beside a panel and appended to it is drawn.
proof fn lemma_item_added(
    before: Nodes,
    mid: Nodes,
    mid2: Nodes,
    chip: NodeId,
    menu: NodeId,
    items: Seq<NodeId>,
    boxes: Seq<NodeId>,
    texts: Seq<NodeId>,
    g: GridView,
    item: NodeId,
    input: NodeId,
    text: NodeId,
)
    requires
        menu_drawn(before, mid, chip, menu, items, boxes, texts, g),
        built_beside(mid, mid2),
        items.len() < g.table.columns.len(),
        item_built(
            mid2,
            item,
            input,
            text,
            None,
            g.table.columns[items.len() as int],
            items.len() as int,
            g.table.hidden.contains(items.len() as usize),
        ),
        forall|k: NodeId| #[trigger] in_item(item, input, text, k) ==> !mid.contains_key(k),
        forall|k: NodeId| #[trigger]
            mid2.contains_key(k) ==> mid.contains_key(k) || in_item(item, input, text, k),
    ensures
        menu_drawn(
            before,
            appended(mid2, menu, item),
            chip,
            menu,
            items.push(item),
            boxes.push(input),
            texts.push(text),
            g,
        ),
{
    let after = appended(mid2, menu, item);
    let items1 = items.push(item);
    let boxes1 = boxes.push(input);
    let texts1 = texts.push(text);
    assert(in_item(item, input, text, item));
    assert(in_item(item, input, text, input));
    assert(in_item(item, input, text, text));
    assert(mid2[menu] == mid[menu] && mid2[chip] == mid[chip]);
    assert(after[menu].children =~= items1);
    assert forall|i: int| 0 <= i < items1.len() implies item_built(
        after,
        #[trigger] items1[i],
        boxes1[i],
        texts1[i],
        Some(menu),
        g.table.columns[i],
        i,
        g.table.hidden.contains(i as usize),
    ) by {
        if i < items.len() {
            assert(items1[i] == items[i]);
            assert(item_built(
                mid,
                items[i],
                boxes[i],
                texts[i],
                Some(menu),
                g.table.columns[i],
                i,
                g.table.hidden.contains(i as usize),
            ));
            assert(in_item(items[i], boxes[i], texts[i], items[i]));
            assert(in_item(items[i], boxes[i], texts[i], boxes[i]));
            assert(in_item(items[i], boxes[i], texts[i], texts[i]));
        }
    }
    assert forall|i: int, k: NodeId|
        0 <= i < items1.len() && #[trigger] in_item(
            items1[i],
            boxes1[i],
            texts1[i],
            k,
        ) implies !before.contains_key(k) && k != menu by {
        if i < items.len() {
            assert(in_item(items[i], boxes[i], texts[i], k));
        } else {
            assert(in_item(item, input, text, k));
            if before.contains_key(k) && k != chip {
                assert(mid.contains_key(k));
            }
        }
    }
    assert forall|k: NodeId| #[trigger] after.contains_key(k) implies before.contains_key(k) || k
        == menu || exists|i: int|
        0 <= i < items1.len() && #[trigger] in_item(items1[i], boxes1[i], texts1[i], k) by {
        assert(mid2.contains_key(k));
        if mid.contains_key(k) {
            if !before.contains_key(k) && k != menu {
                let i = choose|i: int|
                    0 <= i < items.len() && #[trigger] in_item(items[i], boxes[i], texts[i], k);
                assert(in_item(items1[i], boxes1[i], texts1[i], k));
            }
        } else {
            let last = items.len() as int;
            assert(in_item(items1[last], boxes1[last], texts1[last], k));
        }
    }
    assert(items1.no_duplicates()) by {
        assert forall|i: int| 0 <= i < items.len() implies items[i] != item by {
            assert(item_built(
                mid,
                items[i],
                boxes[i],
                texts[i],
                Some(menu),
                g.table.columns[i],
                i,
                g.table.hidden.contains(i as usize),
            ));
        }
    }
}

/// Draw the panel with all columns as the last child of `chip`.
pub fn draw_menu(dom: &mut TuiDom, grid: &Grid, chip: NodeId) -> (m: Menu)
    requires
        dom_quiet(*old(dom)),
        dom_nodes(*old(dom)).contains_key(chip),
        has_room(dom_nodes(*old(dom)), 1 + 3 * grid@.table.columns.len()),
    ensures
        dom_quiet(*final(dom)),
        m.cursor == 0,
        m.items@.len() == grid@.table.columns.len(),
        dom_nodes(*final(dom)).dom().finite(),
        dom_nodes(*final(dom)).dom().len() == dom_nodes(*old(dom)).dom().len() + 1 + 3
            * grid@.table.columns.len(),
        menu_drawn(
            dom_nodes(*old(dom)),
            dom_nodes(*final(dom)),
            chip,
            m.node,
            m.items@,
            m.boxes@,
            m.texts@,
            grid@,
        ),
{
    proof {
        lemma_menu_attribute_names();
    }
    let columns = grid.model.columns();
    let ghost before = dom_nodes(*dom);
    let menu = create_element(dom, "div");
    let ghost n1 = dom_nodes(*dom);
    proof {
        lemma_created_beside(before, before, menu, n1[menu]);
        assert(n1.dom().len() == before.dom().len() + 1);
    }
    set_attribute(dom, menu, "data-vt-menu", "");
    let width: u16 = to_size(find_longest(columns), MENU_EXTRA_WIDTH);
    let height: u16 = to_size(columns.len(), MENU_EXTRA_HEIGHT);
    set_overlay(
        dom,
        menu,
        width,
        height,
        Overlay { top: 1, right: 0, z: 1000, color: Rgb { red: 0x22, green: 0x24, blue: 0x26 } },
    );
    let ghost n2 = dom_nodes(*dom);
    proof {
        assert(n2 =~= n1.insert(menu, n2[menu]));
        lemma_changed_beside(before, n1, menu, n2[menu]);
        lemma_beside_not_above(before, n2, menu, chip);
        assert(n2.dom() =~= n1.dom());
    }
    append_child(dom, chip, menu);
    let mut items: Vec<NodeId> = Vec::new();
    let mut boxes: Vec<NodeId> = Vec::new();
    let mut texts: Vec<NodeId> = Vec::new();
    let mut i: usize = 0;
    proof {
        assert(dom_nodes(*dom)[menu].children =~= items@);
        assert(dom_nodes(*dom).dom() =~= n2.dom());
    }
    while i < columns.len()
        invariant
            i <= columns@.len(),
            columns@ == grid@.table.columns,
            items@.len() == i,
            dom_quiet(*dom),
            has_room(before, 1 + 3 * columns@.len()),
            dom_nodes(*dom).dom().finite(),
            dom_nodes(*dom).dom().len() == before.dom().len() + 1 + 3 * i,
            menu_drawn(
                before,
                dom_nodes(*dom),
                chip,
                menu,
                items@,
                boxes@,
                texts@,
                grid@,
            ),
        decreases columns@.len() - i,
    {
        let ghost mid = dom_nodes(*dom);
        let (item, input, text) = build_item(
            dom,
            &columns[i],
            i,
            grid.model.is_column_hidden(i),
        );
        let ghost mid2 = dom_nodes(*dom);
        proof {
            assert(in_item(item, input, text, item));
            lemma_beside_not_above(mid, mid2, item, menu);
            lemma_item_added(
                before,
                mid,
                mid2,
                chip,
                menu,
                items@,
                boxes@,
                texts@,
                grid@,
                item,
                input,
                text,
            );
        }
        append_child(dom, menu, item);
        assert(dom_nodes(*dom).dom() =~= mid2.dom());
        items.push(item);
        boxes.push(input);
        texts.push(text);
        i = i + 1;
    }
    Menu { node: menu, items, boxes, texts, cursor: 0 }
}

/// The tree with the item of column `i` saying whether it is shown and what its
/// header is.
pub open spec fn item_synced(
    nodes: Nodes,
    input: NodeId,
    text: NodeId,
    g: GridView,
    i: int,
) -> Nodes {
    let checked = marked(
        nodes,
        Mark {
            id: input,
            attr: "checked"@,
            on: !g.table.hidden.contains(i as usize),
        },
    );
    if i < g.table.columns.len() {
        with_data(checked, text, g.table.columns[i].header@)
    } else {
        checked
    }
}

/// The tree with the first `n` items of a panel synced.
pub open spec fn items_synced(
    nodes: Nodes,
    boxes: Seq<NodeId>,
    texts: Seq<NodeId>,
    g: GridView,
    n: nat,
) -> Nodes
    decreases n,
{
    if n == 0 {
        nodes
    } else {
        item_synced(
            items_synced(nodes, boxes, texts, g, (n - 1) as nat),
            boxes[n - 1],
            texts[n - 1],
            g,
            n - 1,
        )
    }
}

/// Bring the checkboxes and labels of an open panel up to date.
pub fn sync_menu_items(dom: &mut TuiDom, grid: &Grid, m: &Menu)
    requires
        dom_quiet(*old(dom)),
        m.boxes@.len() == m.texts@.len(),
    ensures
        dom_quiet(*final(dom)),
        dom_nodes(*final(dom)) == items_synced(
            dom_nodes(*old(dom)),
            m.boxes@,
            m.texts@,
            grid@,
            m.boxes@.len(),
        ),
{
    proof {
        lemma_menu_attribute_names();
    }
    let ghost before = dom_nodes(*dom);
    let columns = grid.model.columns();
    let mut i: usize = 0;
    while i < m.boxes.len()
        invariant
            i <= m.boxes@.len(),
            m.boxes@.len() == m.texts@.len(),
            columns@ == grid@.table.columns,
            "checked"@ != "style"@,
            dom_quiet(*dom),
            dom_nodes(*dom) == items_synced(before, m.boxes@, m.texts@, grid@, i as nat),
        decreases m.boxes@.len() - i,
    {
        set_flag(dom, m.boxes[i], "checked", !grid.model.is_column_hidden(i));
        if i < columns.len() {
            set_data(dom, m.texts[i], columns[i].header.as_str());
        }
        i = i + 1;
    }
}

/// The marks of the items: which one is highlighted.
pub open spec fn item_marks(items: Seq<NodeId>, cursor: usize) -> Seq<Mark> {
    Seq::new(
        items.len(),
        |i: int| Mark { id: items[i], attr: "data-vt-menu-active"@, on: i == cursor },
    )
}

/// Mark the highlighted item.
pub fn mark_items(dom: &mut TuiDom, m: &Menu)
    requires
        dom_quiet(*old(dom)),
    ensures
        dom_quiet(*final(dom)),
        dom_nodes(*final(dom)) == all_marked(
            dom_nodes(*old(dom)),
            item_marks(m.items@, m.cursor),
        ),
{
    proof {
        lemma_menu_attribute_names();
    }
    let ghost before = dom_nodes(*dom);
    let ghost marks = item_marks(m.items@, m.cursor);
    let mut i: usize = 0;
    assert(marks.take(0) =~= Seq::empty());
    while i < m.items.len()
        invariant
            i <= m.items@.len(),
            marks == item_marks(m.items@, m.cursor),
            "data-vt-menu-active"@ != "style"@,
            dom_quiet(*dom),
            dom_nodes(*dom) == all_marked(before, marks.take(i as int)),
        decreases m.items@.len() - i,
    {
        set_flag(dom, m.items[i], "data-vt-menu-active", i == m.cursor);
        assert(marks.take(i + 1).drop_last() =~= marks.take(i as int));
        i = i + 1;
    }
    assert(marks.take(marks.len() as int) =~= marks);
}

/// The marks of an open or closed chooser on its chip and on the table.
pub open spec fn open_marks(chip: NodeId, table: NodeId, on: bool) -> Seq<Mark> {
    seq![
        Mark { id: chip, attr: "data-vt-menu-open"@, on },
        Mark { id: table, attr: "data-vt-menu-open"@, on },
    ]
}

/// Mark the chip and the table as having an open chooser, or not.
pub fn mark_open(dom: &mut TuiDom, chip: NodeId, table: NodeId, on: bool)
    requires
        dom_quiet(*old(dom)),
    ensures
        dom_quiet(*final(dom)),
        dom_nodes(*final(dom)) == all_marked(
            dom_nodes(*old(dom)),
            open_marks(chip, table, on),
        ),
{
    proof {
        lemma_menu_attribute_names();
        let marks = open_marks(chip, table, on);
        assert(marks.drop_last() =~= seq![marks[0]]);
        assert(marks.drop_last().drop_last() =~= Seq::empty());
        reveal_with_fuel(all_marked, 3);
    }
    set_flag(dom, chip, "data-vt-menu-open", on);
    set_flag(dom, table, "data-vt-menu-open", on);
}

/// Is `chip`, with the text `text`, a chip at the end of the header?
pub open spec fn chip_node(parent: Option<NodeId>, text: NodeId) -> NodeView {
    NodeView {
        attrs: Map::empty().insert("data-vt-overflow"@, ""@),
        children: seq![text],
        parent,
        style: BoxStyle { width: Some(BoxSize::Fixed(CHIP_WIDTH)), ..no_style() },
        ..new_element("th"@)
    }
}

/// Is `after` the tree `before` with a chip drawn as the last child of
/// `header_tr`?
pub open spec fn chip_drawn(before: Nodes, after: Nodes, header_tr: NodeId, chip: NodeId) -> bool {
    &&& before.contains_key(header_tr)
    &&& !before.contains_key(chip)
    &&& exists|text: NodeId|
        {
            &&& !#[trigger] before.contains_key(text)
            &&& text != chip
            &&& after == appended(
                before.insert(chip, chip_node(None, text)).insert(
                    text,
                    NodeView { parent: Some(chip), ..new_text("\u{2026}"@) },
                ),
                header_tr,
                chip,
            )
        }
}

/// Draw a chip as the last child of `header_tr`.
pub fn draw_chip(dom: &mut TuiDom, header_tr: NodeId) -> (chip: NodeId)
    requires
        dom_quiet(*old(dom)),
        dom_nodes(*old(dom)).contains_key(header_tr),
        has_room(dom_nodes(*old(dom)), 2),
    ensures
        dom_quiet(*final(dom)),
        chip_drawn(dom_nodes(*old(dom)), dom_nodes(*final(dom)), header_tr, chip),
        dom_nodes(*final(dom)).dom().finite(),
        dom_nodes(*final(dom)).dom().len() == dom_nodes(*old(dom)).dom().len() + 2,
{
    proof {
        lemma_menu_attribute_names();
    }
    let ghost before = dom_nodes(*dom);
    let chip = create_element(dom, "th");
    let ghost n1 = dom_nodes(*dom);
    let text = create_text(dom, "\u{2026}");
    let ghost n2 = dom_nodes(*dom);
    proof {
        lemma_created_beside(before, before, chip, n1[chip]);
        lemma_created_beside(before, n1, text, n2[text]);
        lemma_orphan(n2, text, chip);
    }
    append_child(dom, chip, text);
    let ghost n3 = dom_nodes(*dom);
    set_attribute(dom, chip, "data-vt-overflow", "");
    set_width(dom, chip, BoxSize::Fixed(CHIP_WIDTH));
    let ghost n4 = dom_nodes(*dom);
    proof {
        lemma_changed_beside(before, n2, chip, n3[chip]);
        lemma_changed_beside(before, n2.insert(chip, n3[chip]), text, n3[text]);
        lemma_changed_beside(before, n3, chip, n4[chip]);
        assert(n4 =~= n3.insert(chip, n4[chip]));
        lemma_beside_not_above(before, n4, chip, header_tr);
        assert(n4[chip].children =~= seq![text]);
        assert(n4[chip] == chip_node(None, text));
        assert(n4 =~= before.insert(chip, chip_node(None, text)).insert(
            text,
            NodeView { parent: Some(chip), ..new_text("\u{2026}"@) },
        ));
    }
    append_child(dom, header_tr, chip);
    chip
}

} // verus!
