//! What the column chooser shows, and what the header shows of the columns.

use rdom_tui::NodeId;
use vstd::prelude::*;

use crate::chooser::{chip_added, menu_opened};
use crate::chooser_laws::lemma_open_marked;
use crate::column_laws::hiding_changes_one_column;
use crate::columns::{headers_synced, hidden_marks, hide_step, menu_synced};
use crate::dom::{column_sizes, has_attr, has_tag, is_element, with_columns_sized, BoxSize, Nodes};
use crate::draw_laws::{headers_show_how_the_table_is_sorted, heads_stand, reads, shows_sort};
use crate::grid::GridView;
use crate::header::{all_labelled, all_widths_set, Frame};
use crate::input::{action_of, key_step};
use crate::input_laws::keys_of_an_open_chooser;
use crate::marks::{all_marked, Mark};
use crate::menu::{
    chip_drawn, item_built, item_marks, items_synced, longest_header, menu_drawn, open_marks, Menu,
};
use crate::model::Column;
use crate::view::{header_cells, VirtualTableView};
use crate::view_laws::{lemma_marks_keep, lemma_marks_keep_style, lemma_unmarked};

verus! {

/// Of the items, the highlighted one is marked, and no other.
pub(crate) proof fn lemma_items_marked(
    nodes: Nodes,
    items: Seq<NodeId>,
    cursor: usize,
    n: int,
    i: int,
)
    requires
        items.no_duplicates(),
        forall|k: int| 0 <= k < items.len() ==> is_element(nodes, #[trigger] items[k]),
        0 <= n <= items.len(),
        0 <= i < items.len(),
    ensures
        is_element(all_marked(nodes, item_marks(items, cursor).take(n)), items[i]),
        i < n ==> (has_attr(
            all_marked(nodes, item_marks(items, cursor).take(n)),
            items[i],
            "data-vt-menu-active"@,
        ) <==> i == cursor),
    decreases n,
{
    let marks = item_marks(items, cursor);
    if n > 0 {
        lemma_items_marked(nodes, items, cursor, n - 1, i);
        lemma_items_marked(nodes, items, cursor, n - 1, n - 1);
        assert(marks.take(n).drop_last() =~= marks.take(n - 1));
        assert(marks.take(n).last() == marks[n - 1]);
    } else {
        assert(marks.take(0) =~= Seq::<Mark>::empty());
    }
}

/// The arrow keys move the highlight of an open chooser to the next item or the one
/// before, and no further than the last or the first; that item is marked, and no
/// other. Nothing else of the view changes.
pub proof fn the_highlight_moves_item_by_item(
    v0: VirtualTableView,
    n0: Nodes,
    v1: VirtualTableView,
    n1: Nodes,
    m: Menu,
    key: Seq<char>,
    shift: bool,
    ctrl: bool,
    scroll_to: Option<usize>,
    i: int,
)
    requires
        v0.menu == Some(m),
        m.cursor < m.items@.len(),
        m.items@.len() <= usize::MAX,
        m.items@.no_duplicates(),
        forall|k: int| 0 <= k < m.items@.len() ==> is_element(n0, #[trigger] m.items@[k]),
        0 <= i < m.items@.len(),
        key_step(
            v0,
            n0,
            v1,
            n1,
            action_of(true, v0.grid@.selection.mode, key, shift, ctrl),
            scroll_to,
        ),
        key == "ArrowDown"@ || key == "j"@ || key == "ArrowUp"@ || key == "k"@,
    ensures
        v1 == (VirtualTableView { menu: v1.menu, ..v0 }),
        v1.menu is Some,
        v1.menu.unwrap() == (Menu { cursor: v1.menu.unwrap().cursor, ..m }),
        ({
            let at = v1.menu.unwrap().cursor;
            let down = key == "ArrowDown"@ || key == "j"@;
            &&& down && m.cursor + 1 < m.items@.len() ==> at == m.cursor + 1
            &&& down && m.cursor + 1 == m.items@.len() ==> at == m.cursor
            &&& !down && m.cursor > 0 ==> at == m.cursor - 1
            &&& !down && m.cursor == 0 ==> at == 0
            &&& has_attr(n1, m.items@[i], "data-vt-menu-active"@) <==> i == at
        }),
{
    keys_of_an_open_chooser(v0.grid@.selection.mode, key, shift, ctrl);
    let at = v1.menu.unwrap().cursor;
    let marks = item_marks(m.items@, at);
    assert(marks.take(marks.len() as int) =~= marks);
    lemma_items_marked(n0, m.items@, at, marks.len() as int, i);
}

/// Enter and space in an open chooser hide the highlighted column if it is shown
/// and show it if not, and no other; only that the one column still visible stays.
pub proof fn activating_flips_the_highlighted_column(
    v0: VirtualTableView,
    n0: Nodes,
    v1: VirtualTableView,
    n1: Nodes,
    m: Menu,
    key: Seq<char>,
    shift: bool,
    ctrl: bool,
    scroll_to: Option<usize>,
    c: usize,
)
    requires
        v0.menu == Some(m),
        key_step(
            v0,
            n0,
            v1,
            n1,
            action_of(true, v0.grid@.selection.mode, key, shift, ctrl),
            scroll_to,
        ),
        key == "Enter"@ || key == " "@,
    ensures
        ({
            let before = v0.grid@.table.hidden;
            let after = v1.grid@.table.hidden;
            let at = m.cursor;
            let alone = at < v0.grid@.table.columns.len() && !before.contains(at) && forall|
                k: usize,
            |
                k < v0.grid@.table.columns.len() && k != at ==> #[trigger] before.contains(k);
            &&& c != at ==> (after.contains(c) <==> before.contains(c))
            &&& after.contains(at) <==> !before.contains(at) && !alone
        }),
{
    keys_of_an_open_chooser(v0.grid@.selection.mode, key, shift, ctrl);
    let hidden = !v0.grid@.table.hidden.contains(m.cursor);
    assert(hide_step(v0, n0, v1, n1, m.cursor, hidden));
    hiding_changes_one_column(v0.grid@, m.cursor, hidden, c);
}

proof fn lemma_longest(columns: Seq<Column>, n: nat, c: int) -> (at: int)
    requires
        0 < n <= columns.len(),
        0 <= c < n,
    ensures
        0 <= at < n,
        longest_header(columns, n) == columns[at].header@.len(),
        columns[c].header@.len() <= longest_header(columns, n),
    decreases n,
{
    let own = columns[n - 1].header@.len();
    if n == 1 {
        assert(longest_header(columns, 0) == 0);
        0
    } else {
        let at = lemma_longest(columns, (n - 1) as nat, if c < n - 1 {
            c
        } else {
            0
        });
        if own > longest_header(columns, (n - 1) as nat) {
            n - 1
        } else {
            at
        }
    }
}

/// The panel of a chooser that was opened hangs below its chip, flush with its right
/// edge, and holds one item after the other. It is wide enough for its longest
/// header with the checkbox and the border, and no wider, and has one line for each
/// column inside the border, as far as sizes go.
pub proof fn the_panel_fits_its_items(
    n0: Nodes,
    n1: Nodes,
    v: VirtualTableView,
    m: Menu,
    chip: NodeId,
    c: int,
) -> (longest: int)
    requires
        menu_opened(n0, n1, v, m),
        v.chip == Some(chip),
        0 <= c < v.grid@.table.columns.len(),
    ensures
        n1.contains_key(m.node),
        n1[m.node].parent == Some(chip),
        n1[chip].children == n0[chip].children.push(m.node),
        n1[m.node].children == m.items@,
        has_attr(n1, m.node, "data-vt-menu"@),
        n1[m.node].style.overlay is Some,
        n1[m.node].style.overlay.unwrap().top == 1,
        n1[m.node].style.overlay.unwrap().right == 0,
        0 <= longest < v.grid@.table.columns.len(),
        v.grid@.table.columns[c].header@.len() <= v.grid@.table.columns[longest].header@.len(),
        ({
            let width = v.grid@.table.columns[longest].header@.len() + 6;
            let height = v.grid@.table.columns.len() + 2;
            &&& n1[m.node].style.width is Some && n1[m.node].style.height is Some
            &&& width <= 65535 ==> n1[m.node].style.width == Some(BoxSize::Fixed(width as u16))
            &&& width > 65535 ==> n1[m.node].style.width == Some(BoxSize::Fixed(65535))
            &&& height <= 65535 ==> n1[m.node].style.height == Some(BoxSize::Fixed(height as u16))
            &&& height > 65535 ==> n1[m.node].style.height == Some(BoxSize::Fixed(65535))
        }),
{
    let g = v.grid@;
    let table = v.frame.unwrap().table;
    let drawn = choose|drawn: Nodes| #[trigger]
        menu_drawn(n0, drawn, chip, m.node, m.items@, m.boxes@, m.texts@, g) && n1 == all_marked(
            all_marked(drawn, open_marks(chip, table, true)),
            item_marks(m.items@, 0),
        );
    let first = open_marks(chip, table, true);
    let second = item_marks(m.items@, 0);
    let opened = all_marked(drawn, first);
    lemma_marks_keep(drawn, first, m.node);
    lemma_marks_keep(opened, second, m.node);
    lemma_marks_keep(drawn, first, chip);
    lemma_marks_keep(opened, second, chip);
    lemma_marks_keep_style(drawn, first, m.node);
    lemma_marks_keep_style(opened, second, m.node);
    lemma_menu_names();
    lemma_unmarked(drawn, first, m.node, "data-vt-menu"@);
    lemma_unmarked(opened, second, m.node, "data-vt-menu"@);
    lemma_longest(g.table.columns, g.table.columns.len(), c)
}

proof fn lemma_menu_names()
    ensures
        "data-vt-menu"@.len() == 12,
        "data-vt-menu-open"@.len() == 17,
        "data-vt-menu-active"@.len() == 19,
        "data-vt-menu-item"@.len() == 17,
        "data-vt-col"@.len() == 11,
        "checked"@.len() == 7,
        "type"@.len() == 4,
        "data-vt-hidden"@.len() == 14,
        "data-sort"@.len() == 9,
{
    reveal_strlit("data-vt-menu");
    reveal_strlit("data-vt-menu-open");
    reveal_strlit("data-vt-menu-active");
    reveal_strlit("data-vt-menu-item");
    reveal_strlit("data-vt-col");
    reveal_strlit("checked");
    reveal_strlit("type");
    reveal_strlit("data-vt-hidden");
    reveal_strlit("data-sort");
}

/// When a chooser opens, its first item is highlighted and no other, and the chip
/// and the table are marked as having an open chooser; when one closes, they are not
/// any more.
pub proof fn the_chooser_marks_where_it_is_open(
    n0: Nodes,
    n1: Nodes,
    v: VirtualTableView,
    m: Menu,
    chip: NodeId,
    frame: Frame,
    i: int,
)
    requires
        menu_opened(n0, n1, v, m),
        v.chip == Some(chip),
        v.frame == Some(frame),
        is_element(n0, chip),
        is_element(n0, frame.table),
        0 <= i < m.items@.len(),
    ensures
        has_attr(n1, chip, "data-vt-menu-open"@),
        has_attr(n1, frame.table, "data-vt-menu-open"@),
        has_attr(n1, m.items@[i], "data-vt-menu-active"@) <==> i == 0,
        !has_attr(
            all_marked(n0, open_marks(chip, frame.table, false)),
            chip,
            "data-vt-menu-open"@,
        ),
        !has_attr(
            all_marked(n0, open_marks(chip, frame.table, false)),
            frame.table,
            "data-vt-menu-open"@,
        ),
{
    let g = v.grid@;
    let table = frame.table;
    let drawn = choose|drawn: Nodes| #[trigger]
        menu_drawn(n0, drawn, chip, m.node, m.items@, m.boxes@, m.texts@, g) && n1 == all_marked(
            all_marked(drawn, open_marks(chip, table, true)),
            item_marks(m.items@, 0),
        );
    let first = open_marks(chip, table, true);
    let second = item_marks(m.items@, 0);
    let opened = all_marked(drawn, first);
    lemma_open_marked(drawn, chip, table, true);
    lemma_open_marked(n0, chip, table, false);
    lemma_menu_names();
    lemma_unmarked(opened, second, chip, "data-vt-menu-open"@);
    lemma_unmarked(opened, second, table, "data-vt-menu-open"@);
    assert forall|k: int| 0 <= k < m.items@.len() implies is_element(
        opened,
        #[trigger] m.items@[k],
    ) by {
        assert(item_built(
            drawn,
            m.items@[k],
            m.boxes@[k],
            m.texts@[k],
            Some(m.node),
            g.table.columns[k],
            k,
            g.table.hidden.contains(k as usize),
        ));
        lemma_marks_keep(drawn, first, m.items@[k]);
    }
    assert(second.take(second.len() as int) =~= second);
    lemma_items_marked(opened, m.items@, 0, second.len() as int, i);
}

/// The chip of a chooser is a narrow header cell with an ellipsis, behind all other
/// header cells.
pub proof fn the_chip_stands_behind_the_headers(
    n0: Nodes,
    n1: Nodes,
    v: VirtualTableView,
    chip: NodeId,
    frame: Frame,
)
    requires
        chip_added(n0, n1, v, chip),
        v.frame == Some(frame),
    ensures
        !n0.contains_key(chip),
        n1[frame.header_tr].children == n0[frame.header_tr].children.push(chip),
        has_tag(n1, chip, "th"@),
        has_attr(n1, chip, "data-vt-overflow"@),
        n1[chip].parent == Some(frame.header_tr),
        n1[chip].style.width == Some(BoxSize::Fixed(3)),
        reads(n1, chip, "\u{2026}"@),
{
    let drawn = choose|drawn: Nodes| #[trigger]
        chip_drawn(n0, drawn, frame.header_tr, chip) && n1 == with_columns_sized(
            drawn,
            column_sizes(drawn, frame.table),
        );
}

/// Do the texts of a chooser stand apart from one another and from its checkboxes?
pub open spec fn labels_stand(nodes: Nodes, m: Menu) -> bool {
    &&& m.texts@.len() == m.boxes@.len()
    &&& m.texts@.no_duplicates()
    &&& forall|j: int|
        0 <= j < m.texts@.len() ==> nodes.contains_key(#[trigger] m.texts@[j])
            && nodes[m.texts@[j]].kind is Text
}

pub(crate) proof fn lemma_synced_frame(
    nodes: Nodes,
    boxes: Seq<NodeId>,
    texts: Seq<NodeId>,
    g: GridView,
    n: nat,
    k: NodeId,
)
    requires
        n <= boxes.len() == texts.len(),
    ensures
        items_synced(nodes, boxes, texts, g, n).contains_key(k) == nodes.contains_key(k),
        nodes.contains_key(k) ==> items_synced(nodes, boxes, texts, g, n)[k].kind == nodes[k].kind
            && items_synced(nodes, boxes, texts, g, n)[k].children == nodes[k].children,
        nodes.contains_key(k) && !boxes.contains(k) && !texts.contains(k) ==> items_synced(
            nodes,
            boxes,
            texts,
            g,
            n,
        )[k] == nodes[k],
    decreases n,
{
    if n > 0 {
        lemma_synced_frame(nodes, boxes, texts, g, (n - 1) as nat, k);
        assert(boxes.contains(boxes[n - 1]) && texts.contains(texts[n - 1]));
    }
}

proof fn lemma_synced_texts(nodes: Nodes, m: Menu, g: GridView, n: nat, i: int)
    requires
        labels_stand(nodes, m),
        n <= m.texts@.len() <= g.table.columns.len(),
        0 <= i < n,
    ensures
        items_synced(nodes, m.boxes@, m.texts@, g, n)[m.texts@[i]].data
            == g.table.columns[i].header@,
    decreases n,
{
    let rest = items_synced(nodes, m.boxes@, m.texts@, g, (n - 1) as nat);
    lemma_synced_frame(nodes, m.boxes@, m.texts@, g, (n - 1) as nat, m.texts@[n - 1]);
    lemma_synced_frame(nodes, m.boxes@, m.texts@, g, (n - 1) as nat, m.texts@[i]);
    assert(nodes.contains_key(m.texts@[i]) && nodes.contains_key(m.texts@[n - 1]));
    if i < n - 1 {
        lemma_synced_texts(nodes, m, g, (n - 1) as nat, i);
        assert(m.texts@[i] != m.texts@[n - 1]);
    }
}

/// When columns move, the labels of an open chooser come to read as the headers do,
/// in the order of the columns.
pub proof fn labels_follow_the_columns(nodes: Nodes, m: Menu, g: GridView, i: int)
    requires
        labels_stand(nodes, m),
        m.texts@.len() <= g.table.columns.len(),
        0 <= i < m.texts@.len(),
    ensures
        menu_synced(nodes, Some(m), g)[m.texts@[i]].data == g.table.columns[i].header@,
{
    lemma_synced_texts(nodes, m, g, m.boxes@.len(), i);
}

proof fn lemma_widths_set(nodes: Nodes, ths: Seq<NodeId>, g: GridView, n: int, k: NodeId)
    requires
        0 <= n <= ths.len() <= g.table.columns.len(),
        ths.no_duplicates(),
        forall|c: int| 0 <= c < ths.len() ==> is_element(nodes, #[trigger] ths[c]),
    ensures
        ({
            let to = all_widths_set(nodes, ths.take(n), g);
            &&& to.contains_key(k) == nodes.contains_key(k)
            &&& nodes.contains_key(k) ==> to[k].kind == nodes[k].kind && to[k].data
                == nodes[k].data && to[k].children == nodes[k].children && to[k].attrs
                == nodes[k].attrs
            &&& forall|c: int|
                0 <= c < n ==> asks_for_width(to, #[trigger] ths[c], g.table.columns[c])
        }),
    decreases n,
{
    if n > 0 {
        lemma_widths_set(nodes, ths, g, n - 1, k);
        lemma_widths_set(nodes, ths, g, n - 1, ths[n - 1]);
        assert(is_element(nodes, ths[n - 1]));
        assert(ths.take(n).drop_last() =~= ths.take(n - 1));
        assert(ths.take(n).last() == ths[n - 1]);
    }
}

/// Does a header cell ask for the width of its column?
pub open spec fn asks_for_width(nodes: Nodes, th: NodeId, column: Column) -> bool {
    &&& column.width is Some ==> nodes[th].style.width == Some(
        BoxSize::Fixed(column.width.unwrap()),
    )
    &&& column.width is None ==> nodes[th].style.width == Some(BoxSize::Auto)
}

/// Each header cell asks for the width that its column was given, or for one that
/// fits.
pub proof fn headers_ask_for_their_widths(nodes: Nodes, ths: Seq<NodeId>, g: GridView, c: int)
    requires
        0 <= c < ths.len() <= g.table.columns.len(),
        ths.no_duplicates(),
        forall|c: int| 0 <= c < ths.len() ==> is_element(nodes, #[trigger] ths[c]),
    ensures
        asks_for_width(all_widths_set(nodes, ths, g), ths[c], g.table.columns[c]),
{
    assert(ths.take(ths.len() as int) =~= ths);
    lemma_widths_set(nodes, ths, g, ths.len() as int, ths[c]);
}

proof fn lemma_hidden_marked(nodes: Nodes, g: GridView, ths: Seq<NodeId>, n: int, c: int)
    requires
        ths.no_duplicates(),
        forall|k: int| 0 <= k < ths.len() ==> is_element(nodes, #[trigger] ths[k]),
        0 <= n <= ths.len() <= usize::MAX,
        0 <= c < ths.len(),
    ensures
        is_element(all_marked(nodes, hidden_marks(g, ths).take(n)), ths[c]),
        c < n ==> (has_attr(
            all_marked(nodes, hidden_marks(g, ths).take(n)),
            ths[c],
            "data-vt-hidden"@,
        ) <==> g.table.hidden.contains(c as usize)),
    decreases n,
{
    let marks = hidden_marks(g, ths);
    if n > 0 {
        lemma_hidden_marked(nodes, g, ths, n - 1, c);
        lemma_hidden_marked(nodes, g, ths, n - 1, n - 1);
        assert(marks.take(n).drop_last() =~= marks.take(n - 1));
        assert(marks.take(n).last() == marks[n - 1]);
    } else {
        assert(marks.take(0) =~= Seq::<Mark>::empty());
    }
}

/// Are the nodes of a chooser none of the header's?
pub open spec fn stands_apart(nodes: Nodes, menu: Option<Menu>, ths: Seq<NodeId>) -> bool {
    menu matches Some(m) ==> {
        &&& m.texts@.len() == m.boxes@.len()
        &&& forall|c: int|
            0 <= c < ths.len() ==> !m.boxes@.contains(#[trigger] ths[c]) && !m.texts@.contains(
                ths[c],
            ) && !m.boxes@.contains(nodes[ths[c]].children[0]) && !m.texts@.contains(
                nodes[ths[c]].children[0],
            )
    }
}

/// When columns have moved, each header cell shows the column that is now in its
/// place: its header, how the table is sorted by it, whether it is hidden and the
/// width that it was given.
pub proof fn headers_follow_the_columns(v: VirtualTableView, n: Nodes, g: GridView, c: int)
    requires
        heads_stand(n, header_cells(v.frame)),
        0 <= c < header_cells(v.frame).len() <= g.table.columns.len() <= usize::MAX,
        stands_apart(n, v.menu, header_cells(v.frame)),
    ensures
        ({
            let to = headers_synced(v, n, g);
            let th = header_cells(v.frame)[c];
            &&& shows_sort(to, th, g, c)
            &&& has_attr(to, th, "data-vt-hidden"@) <==> g.table.hidden.contains(c as usize)
            &&& asks_for_width(to, th, g.table.columns[c])
        }),
{
    let ths = header_cells(v.frame);
    let th = ths[c];
    let text = n[th].children[0];
    headers_show_how_the_table_is_sorted(n, ths, g);
    let named = all_labelled(n, ths, g);
    assert(named[th].children == n[th].children) by {
        lemma_labels_keep(n, ths, g, c);
    }
    assert(ths.take(ths.len() as int) =~= ths);
    lemma_widths_set(named, ths, g, ths.len() as int, th);
    lemma_widths_set(named, ths, g, ths.len() as int, text);
    let sized = all_widths_set(named, ths, g);
    assert(asks_for_width(sized, th, g.table.columns[c]));
    let marks = hidden_marks(g, ths);
    assert forall|k: int| 0 <= k < ths.len() implies is_element(sized, #[trigger] ths[k]) by {
        lemma_widths_set(named, ths, g, ths.len() as int, ths[k]);
        assert(is_element(named, ths[k]));
    }
    assert(marks.take(marks.len() as int) =~= marks);
    lemma_hidden_marked(sized, g, ths, marks.len() as int, c);
    let hid = all_marked(sized, marks);
    lemma_marks_keep(sized, marks, th);
    lemma_marks_keep(sized, marks, text);
    lemma_marks_keep_style(sized, marks, th);
    lemma_menu_names();
    lemma_unmarked(sized, marks, th, "data-sort"@);
    assert(shows_sort(named, th, g, c));
    assert(shows_sort(hid, th, g, c));
    if v.menu is Some {
        let m = v.menu.unwrap();
        lemma_synced_frame(hid, m.boxes@, m.texts@, g, m.boxes@.len(), th);
        lemma_synced_frame(hid, m.boxes@, m.texts@, g, m.boxes@.len(), text);
    }
}

pub(crate) proof fn lemma_labels_keep(n: Nodes, ths: Seq<NodeId>, g: GridView, c: int)
    requires
        0 <= c < ths.len(),
        heads_stand(n, ths),
    ensures
        all_labelled(n, ths, g)[ths[c]].children == n[ths[c]].children,
{
    lemma_labels_keep_to(n, ths, g, ths.len() as int, ths[c]);
    assert(ths.take(ths.len() as int) =~= ths);
}

proof fn lemma_labels_keep_to(n: Nodes, ths: Seq<NodeId>, g: GridView, to: int, k: NodeId)
    requires
        0 <= to <= ths.len(),
        n.contains_key(k),
    ensures
        all_labelled(n, ths.take(to), g).contains_key(k),
        all_labelled(n, ths.take(to), g)[k].children == n[k].children,
    decreases to,
{
    if to > 0 {
        lemma_labels_keep_to(n, ths, g, to - 1, k);
        assert(ths.take(to).drop_last() =~= ths.take(to - 1));
    }
}

} // verus!
