//! Marks follow the cursor and the selection, and the rules tell them apart.

use rdom_tui::{Stylesheet, TuiDom};
use vstd::prelude::*;

use crate::cursor_laws::row_total;
use crate::dom::{dom_nodes, has_attr, Nodes, Rgb};
use crate::draw::cell_ids;
use crate::grid::GridView;
use crate::header::Frame;
use crate::rules::{
    default_rules, highlight_rules, highlight_stylesheet, rule_views, sheet_rules, HighlightRule,
    RuleView,
};
use crate::view::{rehighlighted, stepped, VirtualTableView};
use crate::view_laws::{marks_show_cursor_and_selection, row_marked_right, stands};

verus! {

/// Does the tree mark the cursor and the selection of `g` on the header cells and the
/// rows on show, and nothing else?
pub open spec fn is_marked(nodes: Nodes, g: GridView, frame: Frame, v: VirtualTableView) -> bool {
    &&& forall|c: usize|
        c < frame.header_cells@.len() ==> (has_attr(
            nodes,
            #[trigger] frame.header_cells@[c as int],
            "data-active-col"@,
        ) <==> c == g.cursor.col)
    &&& forall|i: int|
        0 <= i < v.window.rows@.len() ==> row_marked_right(
            nodes,
            g,
            #[trigger] v.window.rows@[i],
            v.window.cells@[i]@,
            (g.window_start + i) as usize,
        )
}

/// A step that leaves the window where it is, and asks for no scrolling, marks the
/// new cursor and the new selection on it.
pub proof fn a_step_marks_the_cursor(
    before: Nodes,
    after: Nodes,
    v0: VirtualTableView,
    v1: VirtualTableView,
    g1: GridView,
    scroll_to: Option<usize>,
    frame: Frame,
)
    requires
        stepped(before, after, v0, v1, g1, scroll_to),
        row_total(v0.grid@) > 0,
        v0.grid@.table.columns.len() > 0,
        v0.frame == Some(frame),
        scroll_to is None,
        v1.grid@.window_start == g1.window_start,
        0 <= g1.cursor.row < row_total(g1) <= usize::MAX,
        stands(before, frame.header_cells@, v0.window.rows@, cell_ids(v0.window.cells@)),
        g1.window_start + v0.window.rows@.len() <= usize::MAX,
        frame.header_cells@.len() <= usize::MAX,
    ensures
        is_marked(after, v1.grid@, frame, v1),
{
    assert(v0.grid@.has_cells());
    marks_show_cursor_and_selection(before, g1, frame, v0.window);
}

/// What changes the selection alone marks it on the rows on show.
pub proof fn a_new_selection_is_marked(
    before: Nodes,
    after: Nodes,
    v0: VirtualTableView,
    v1: VirtualTableView,
    frame: Frame,
)
    requires
        rehighlighted(before, after, v0, v1),
        v0.frame == Some(frame),
        stands(before, frame.header_cells@, v0.window.rows@, cell_ids(v0.window.cells@)),
        v1.grid@.window_start + v0.window.rows@.len() <= usize::MAX,
        frame.header_cells@.len() <= usize::MAX,
    ensures
        v1.window == v0.window,
        is_marked(after, v1.grid@, frame, v1),
{
    marks_show_cursor_and_selection(before, v1.grid@, frame, v0.window);
}

/// Selecting all marks every row on show whose key is known, and clearing none.
pub proof fn selecting_all_marks_every_row(
    v: &mut VirtualTableView,
    dom: &mut TuiDom,
    frame: Frame,
    i: int,
    c: usize,
)
    requires
        old(v).wf(),
        !(old(v).grid@.selection.mode is Off),
        call_ensures(VirtualTableView::select_all, (v, dom), ()),
        old(v).frame == Some(frame),
        stands(
            dom_nodes(*old(dom)),
            frame.header_cells@,
            old(v).window.rows@,
            cell_ids(old(v).window.cells@),
        ),
        old(v).grid@.window_start + old(v).window.rows@.len() <= usize::MAX,
        frame.header_cells@.len() <= usize::MAX,
        0 <= i < old(v).window.rows@.len(),
        c < old(v).window.cells@[i]@.len(),
        old(v).grid@.key_at((old(v).grid@.window_start + i) as usize) is Some,
    ensures
        has_attr(dom_nodes(*final(dom)), old(v).window.cells@[i]@[c as int], "data-selected"@),
        final(v).grid@.cursor == old(v).grid@.cursor,
{
    a_new_selection_is_marked(
        dom_nodes(*old(dom)),
        dom_nodes(*final(dom)),
        *old(v),
        *final(v),
        frame,
    );
    let row = (old(v).grid@.window_start + i) as usize;
    assert(row_marked_right(
        dom_nodes(*final(dom)),
        final(v).grid@,
        final(v).window.rows@[i],
        final(v).window.cells@[i]@,
        row,
    ));
    assert(final(v).grid@.cell_selected(row, c));
}

/// Does a rule set its background, and nothing else?
pub open spec fn paints(rule: HighlightRule, red: int, green: int, blue: int) -> bool {
    &&& rule.style.bg is Some
    &&& rule.style.bg.unwrap().red == red && rule.style.bg.unwrap().green == green
        && rule.style.bg.unwrap().blue == blue
    &&& rule.style.fg is None && rule.style.border_fg is None
    &&& !rule.style.no_select && !rule.style.hidden && !rule.style.side_blocks
}

/// The default rules: text in a table cannot be selected; the cursor's row and column
/// are tinted, over them selected cells, brighter in the cursor's row or column, and
/// over all the cursor's cell, which has a colour of its own when it is selected; the
/// scrollbar has its accent, hidden columns are not shown, an open chip is part of
/// its panel, and the highlighted item has the colour of selected cells near the
/// cursor. A later rule has precedence.
pub proof fn the_rules_tell_states_apart(rules: Vec<HighlightRule>)
    requires
        call_ensures(highlight_rules, (), rules),
    ensures
        rules@.len() == 13,
        rules@[0].selector@ == "table"@,
        rules@[0].style.no_select && rules@[0].style.bg is None && !rules@[0].style.hidden,
        forall|i: int| 1 <= i <= 3 ==> paints(#[trigger] rules@[i], 0x18, 0x1a, 0x1c),
        paints(rules@[4], 0x1e, 0x3a, 0x5f),
        forall|i: int| 5 <= i <= 6 ==> paints(#[trigger] rules@[i], 0x2b, 0x55, 0x7e),
        paints(rules@[7], 0x2d, 0x2f, 0x31),
        paints(rules@[8], 0x3a, 0x6e, 0xa5),
        rules@[9].style.bg is None && rules@[9].style.fg == Some(
            Rgb { red: 0x1e, green: 0x90, blue: 0xff },
        ),
        forall|i: int| 0 <= i < 13 ==> ((#[trigger] rules@[i]).style.hidden <==> i == 10),
        rules@[10].selector@ == ":where([data-vt-hidden])"@,
        rules@[11].style.side_blocks && rules@[11].style.bg == rules@[11].style.border_fg
            && rules@[11].style.bg == Some(Rgb { red: 0x22, green: 0x24, blue: 0x26 }),
        paints(rules@[12], 0x2b, 0x55, 0x7e),
{
    let views = rule_views(rules@);
    assert(views == default_rules());
    assert forall|i: int| 0 <= i < rules@.len() implies views[i].selector == (
    #[trigger] rules@[i]).selector@ && views[i].style == rules@[i].style by {}
}

/// A sheet holds the default rules, in their order.
pub proof fn the_sheet_holds_the_rules(
    rules: Vec<HighlightRule>,
    sheet: Option<Stylesheet>,
    i: int,
)
    requires
        call_ensures(highlight_rules, (), rules),
        call_ensures(highlight_stylesheet, (), sheet),
        sheet is Some,
        0 <= i < rules@.len(),
    ensures
        sheet_rules(sheet.unwrap()).len() == rules@.len(),
        sheet_rules(sheet.unwrap())[i] == (RuleView {
            selector: rules@[i].selector@,
            style: rules@[i].style,
        }),
{
    assert(rule_views(rules@)[i] == (RuleView {
        selector: rules@[i].selector@,
        style: rules@[i].style,
    }));
}

} // verus!
