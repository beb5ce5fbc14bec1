//! Drawing the table element and its header.

use rdom_tui::{NodeId, TuiDom};
use vstd::prelude::*;
use vstd::string::StringExecFns;

use crate::dom::{
    append_child, create_element, create_text, dom_nodes, dom_quiet, first_child, first_child_of,
    has_room, new_element, new_text, no_style, not_above, remove_attribute, set_attribute, set_data,
    set_width, upward_closed, with_attr, with_data, with_width, BoxSize, BoxStyle, NodeView, Nodes,
};
use crate::draw::{
    built_beside, lemma_attribute_names, lemma_beside_beside, lemma_changed_beside,
    lemma_created_beside, lemma_not_above,
};
use crate::grid::{Grid, GridView};
use crate::model::{Column, SortDir};

verus! {

/// The nodes of a mounted table that stay while windows come and go.
pub struct Frame {
    pub table: NodeId,
    pub tbody: NodeId,
    pub header_tr: NodeId,
    /// The header cells in column order.
    pub header_cells: Vec<NodeId>,
}

/// Is `th` the header cell of `column`?
pub open spec fn header_built(
    nodes: Nodes,
    th: NodeId,
    parent: Option<NodeId>,
    column: Column,
) -> bool {
    &&& nodes.contains_key(th)
    &&& nodes[th] == (NodeView {
        children: nodes[th].children,
        parent,
        style: BoxStyle {
            width: match column.width {
                Some(w) => Some(BoxSize::Fixed(w)),
                None => None,
            },
            ..no_style()
        },
        ..new_element("th"@)
    })
    &&& nodes[th].children.len() == 1
    &&& nodes.contains_key(nodes[th].children[0])
    &&& nodes[nodes[th].children[0]] == (NodeView {
        parent: Some(th),
        ..new_text(column.header@)
    })
}

/// Is `tr` a row of the header cells `ths` of the first columns?
pub open spec fn header_row_built(
    nodes: Nodes,
    tr: NodeId,
    parent: Option<NodeId>,
    ths: Seq<NodeId>,
    columns: Seq<Column>,
) -> bool {
    &&& nodes.contains_key(tr)
    &&& nodes[tr] == (NodeView { children: ths, parent, ..new_element("tr"@) })
    &&& ths.len() <= columns.len()
    &&& ths.no_duplicates()
    &&& forall|c: int|
        0 <= c < ths.len() ==> header_built(nodes, #[trigger] ths[c], Some(tr), columns[c])
}

/// Is `f` the frame of a table with the given columns, its body empty?
pub open spec fn frame_built(nodes: Nodes, f: Frame, columns: Seq<Column>) -> bool {
    &&& nodes.contains_key(f.table)
    &&& nodes[f.table].children.len() == 2
    &&& nodes[f.table].children[1] == f.tbody
    &&& nodes[f.table] == (NodeView {
        children: nodes[f.table].children,
        ..new_element("table"@)
    })
    &&& nodes.contains_key(nodes[f.table].children[0])
    &&& nodes[nodes[f.table].children[0]] == (NodeView {
        children: seq![f.header_tr],
        parent: Some(f.table),
        ..new_element("thead"@)
    })
    &&& nodes.contains_key(f.tbody)
    &&& nodes[f.tbody] == (NodeView { parent: Some(f.table), ..new_element("tbody"@) })
    &&& f.header_cells@.len() == columns.len()
    &&& header_row_built(
        nodes,
        f.header_tr,
        Some(nodes[f.table].children[0]),
        f.header_cells@,
        columns,
    )
}

/// An orphan stands under nothing but itself.
pub(crate) proof fn lemma_orphan(nodes: Nodes, child: NodeId, parent: NodeId)
    requires
        nodes.contains_key(parent),
        nodes[parent].parent is None,
        child != parent,
    ensures
        not_above(nodes, child, parent),
{
    let set = Set::empty().insert(parent);
    assert(upward_closed(nodes, set));
    assert(set.contains(parent) && !set.contains(child));
}

/// Draw the header cell of a column that no header has yet.
fn build_header_cell(dom: &mut TuiDom, column: &Column) -> (th: NodeId)
    requires
        dom_quiet(*old(dom)),
        has_room(dom_nodes(*old(dom)), 2),
    ensures
        dom_quiet(*final(dom)),
        built_beside(dom_nodes(*old(dom)), dom_nodes(*final(dom))),
        dom_nodes(*final(dom)).dom().finite(),
        dom_nodes(*final(dom)).dom().len() == dom_nodes(*old(dom)).dom().len() + 2,
        !dom_nodes(*old(dom)).contains_key(th),
        header_built(dom_nodes(*final(dom)), th, None, *column),
{
    let ghost before = dom_nodes(*dom);
    let th = create_element(dom, "th");
    proof {
        lemma_created_beside(before, before, th, dom_nodes(*dom)[th]);
    }
    let ghost mid = dom_nodes(*dom);
    let text = create_text(dom, column.header.as_str());
    proof {
        lemma_created_beside(before, mid, text, dom_nodes(*dom)[text]);
        lemma_not_above(dom_nodes(*dom), text, th);
        assert(dom_nodes(*dom).dom().len() == before.dom().len() + 2);
    }
    let ghost mid = dom_nodes(*dom);
    append_child(dom, th, text);
    proof {
        let now = dom_nodes(*dom);
        lemma_changed_beside(before, mid, th, now[th]);
        lemma_changed_beside(before, mid.insert(th, now[th]), text, now[text]);
        assert(now[th].children =~= seq![text]);
        assert(now.dom() =~= mid.dom());
    }
    match column.width {
        Some(w) => {
            let ghost mid = dom_nodes(*dom);
            set_width(dom, th, BoxSize::Fixed(w));
            proof {
                lemma_changed_beside(before, mid, th, dom_nodes(*dom)[th]);
                assert(dom_nodes(*dom).dom() =~= mid.dom());
            }
        },
        None => {},
    }
    th
}

/// Draw the header row of a table that no table has yet.
fn build_header_row(dom: &mut TuiDom, columns: &[Column]) -> (r: (NodeId, Vec<NodeId>))
    requires
        dom_quiet(*old(dom)),
        has_room(dom_nodes(*old(dom)), 1 + 2 * columns@.len()),
    ensures
        dom_quiet(*final(dom)),
        built_beside(dom_nodes(*old(dom)), dom_nodes(*final(dom))),
        dom_nodes(*final(dom)).dom().finite(),
        dom_nodes(*final(dom)).dom().len() == dom_nodes(*old(dom)).dom().len() + 1 + 2
            * columns@.len(),
        !dom_nodes(*old(dom)).contains_key(r.0),
        r.1@.len() == columns@.len(),
        header_row_built(dom_nodes(*final(dom)), r.0, None, r.1@, columns@),
{
    let ghost before = dom_nodes(*dom);
    let tr = create_element(dom, "tr");
    proof {
        lemma_created_beside(before, before, tr, dom_nodes(*dom)[tr]);
    }
    let mut ths: Vec<NodeId> = Vec::new();
    let mut c: usize = 0;
    assert(dom_nodes(*dom)[tr].children =~= ths@);
    while c < columns.len()
        invariant
            c <= columns@.len(),
            ths@.len() == c,
            dom_quiet(*dom),
            has_room(before, 1 + 2 * columns@.len()),
            built_beside(before, dom_nodes(*dom)),
            dom_nodes(*dom).dom().finite(),
            dom_nodes(*dom).dom().len() == before.dom().len() + 1 + 2 * c,
            !before.contains_key(tr),
            header_row_built(dom_nodes(*dom), tr, None, ths@, columns@),
        decreases columns@.len() - c,
    {
        let ghost mid = dom_nodes(*dom);
        let ghost ths0 = ths@;
        let th = build_header_cell(dom, &columns[c]);
        let ghost mid2 = dom_nodes(*dom);
        proof {
            lemma_beside_beside(before, mid, mid2);
            lemma_orphan(mid2, th, tr);
        }
        append_child(dom, tr, th);
        ths.push(th);
        proof {
            let now = dom_nodes(*dom);
            lemma_changed_beside(before, mid2, tr, now[tr]);
            lemma_changed_beside(before, mid2.insert(tr, now[tr]), th, now[th]);
            assert(now[tr].children =~= ths@);
            assert(now.dom() =~= mid2.dom());
            assert forall|i: int| 0 <= i < ths@.len() implies header_built(
                now,
                #[trigger] ths@[i],
                Some(tr),
                columns@[i],
            ) by {
                if i < c {
                    assert(ths@[i] == ths0[i]);
                    assert(header_built(mid, ths0[i], Some(tr), columns@[i]));
                    assert(mid.contains_key(ths0[i]));
                }
            }
        }
        c = c + 1;
    }
    (tr, ths)
}

/// Draw a table with a header and an empty body, beside whatever the tree
/// holds.
pub fn build_frame(dom: &mut TuiDom, columns: &[Column]) -> (f: Frame)
    requires
        dom_quiet(*old(dom)),
        has_room(dom_nodes(*old(dom)), 4 + 2 * columns@.len()),
    ensures
        dom_quiet(*final(dom)),
        built_beside(dom_nodes(*old(dom)), dom_nodes(*final(dom))),
        dom_nodes(*final(dom)).dom().finite(),
        dom_nodes(*final(dom)).dom().len() == dom_nodes(*old(dom)).dom().len() + 4 + 2
            * columns@.len(),
        !dom_nodes(*old(dom)).contains_key(f.table),
        !dom_nodes(*old(dom)).contains_key(f.tbody),
        frame_built(dom_nodes(*final(dom)), f, columns@),
{
    let ghost before = dom_nodes(*dom);
    let table = create_element(dom, "table");
    proof {
        lemma_created_beside(before, before, table, dom_nodes(*dom)[table]);
    }
    let ghost n1 = dom_nodes(*dom);
    let thead = create_element(dom, "thead");
    proof {
        lemma_created_beside(before, n1, thead, dom_nodes(*dom)[thead]);
    }
    let ghost n2 = dom_nodes(*dom);
    let (header_tr, header_cells) = build_header_row(dom, columns);
    let ghost n3 = dom_nodes(*dom);
    proof {
        lemma_beside_beside(before, n2, n3);
        assert(n2.contains_key(table) && n2.contains_key(thead));
        lemma_orphan(n3, header_tr, thead);
    }
    append_child(dom, thead, header_tr);
    let ghost n4 = dom_nodes(*dom);
    proof {
        lemma_changed_beside(before, n3, thead, n4[thead]);
        lemma_changed_beside(before, n3.insert(thead, n4[thead]), header_tr, n4[header_tr]);
        assert(n4[thead].children =~= seq![header_tr]);
        assert(n4.dom() =~= n3.dom());
        lemma_orphan(n4, thead, table);
    }
    append_child(dom, table, thead);
    let ghost n5 = dom_nodes(*dom);
    proof {
        lemma_changed_beside(before, n4, table, n5[table]);
        lemma_changed_beside(before, n4.insert(table, n5[table]), thead, n5[thead]);
        assert(n5.dom() =~= n4.dom());
    }
    let tbody = create_element(dom, "tbody");
    let ghost n6 = dom_nodes(*dom);
    proof {
        lemma_created_beside(before, n5, tbody, n6[tbody]);
        lemma_orphan(n6, tbody, table);
    }
    append_child(dom, table, tbody);
    let f = Frame { table, tbody, header_tr, header_cells };
    proof {
        let now = dom_nodes(*dom);
        lemma_changed_beside(before, n6, table, now[table]);
        lemma_changed_beside(before, n6.insert(table, now[table]), tbody, now[tbody]);
        assert(now.dom() =~= n6.dom());
        assert(now[table].children =~= seq![thead, tbody]);
        assert forall|c: int| 0 <= c < header_cells@.len() implies header_built(
            now,
            #[trigger] header_cells@[c],
            Some(header_tr),
            columns@[c],
        ) by {
            assert(header_built(n3, header_cells@[c], Some(header_tr), columns@[c]));
        }
    }
    f
}

/// What the header of column `c` reads, and its `data-sort` attribute.
pub open spec fn header_label(g: GridView, c: int) -> (Option<Seq<char>>, Seq<char>) {
    let label = if c < g.table.columns.len() {
        g.table.columns[c].header@
    } else {
        ""@
    };
    match g.table.sort {
        Some((sc, SortDir::Ascending)) => if sc == c {
            (Some("asc"@), label + g.glyphs.0)
        } else {
            (None, label)
        },
        Some((sc, SortDir::Descending)) => if sc == c {
            (Some("desc"@), label + g.glyphs.1)
        } else {
            (None, label)
        },
        None => (None, label),
    }
}

/// The tree with one header cell labelled: its `data-sort` attribute set or
/// removed, and its first child, if that is a text, reading the label.
pub open spec fn labelled(
    nodes: Nodes,
    th: NodeId,
    label: (Option<Seq<char>>, Seq<char>),
) -> Nodes {
    let marked = with_attr(nodes, th, "data-sort"@, label.0);
    match first_child_of(marked, th) {
        Some(text) => with_data(marked, text, label.1),
        None => marked,
    }
}

/// The tree with some header cells labelled, one after the other.
pub open spec fn all_labelled(nodes: Nodes, ths: Seq<NodeId>, g: GridView) -> Nodes
    decreases ths.len(),
{
    if ths.len() == 0 {
        nodes
    } else {
        labelled(
            all_labelled(nodes, ths.drop_last(), g),
            ths.last(),
            header_label(g, ths.len() - 1),
        )
    }
}

/// Show the sort in the headers: `data-sort` on the header of the sorted column
/// alone, and its direction's glyph behind its label.
pub fn apply_sort_indicator(dom: &mut TuiDom, grid: &Grid, ths: &Vec<NodeId>)
    requires
        dom_quiet(*old(dom)),
    ensures
        dom_quiet(*final(dom)),
        dom_nodes(*final(dom)) == all_labelled(dom_nodes(*old(dom)), ths@, grid@),
{
    let ghost before = dom_nodes(*dom);
    let columns = grid.model.columns();
    let sort = grid.model.sort_state();
    let mut c: usize = 0;
    proof {
        lemma_attribute_names();
        assert(ths@.take(0) =~= Seq::empty());
    }
    while c < ths.len()
        invariant
            c <= ths@.len(),
            columns@ == grid@.table.columns,
            sort == grid@.table.sort,
            "data-sort"@ != "style"@,
            dom_quiet(*dom),
            dom_nodes(*dom) == all_labelled(before, ths@.take(c as int), grid@),
        decreases ths@.len() - c,
    {
        let th = ths[c];
        let mut text = String::new();
        if c < columns.len() {
            text.append(columns[c].header.as_str());
        } else {
            text.append("");
        }
        let ghost plain = text@;
        let mut attr: Option<&str> = None;
        match sort {
            Some((sc, dir)) => {
                if sc == c {
                    match dir {
                        SortDir::Ascending => {
                            attr = Some("asc");
                            text.append(grid.sort_glyphs.0.as_str());
                        },
                        SortDir::Descending => {
                            attr = Some("desc");
                            text.append(grid.sort_glyphs.1.as_str());
                        },
                    }
                }
            },
            None => {},
        }
        proof {
            assert(plain =~= if c < columns@.len() {
                columns@[c as int].header@
            } else {
                ""@
            });
            assert(ths@.take(c + 1).drop_last() =~= ths@.take(c as int));
        }
        match attr {
            Some(value) => {
                set_attribute(dom, th, "data-sort", value);
            },
            None => {
                remove_attribute(dom, th, "data-sort");
            },
        }
        match first_child(dom, th) {
            Some(child) => {
                set_data(dom, child, text.as_str());
            },
            None => {},
        }
        c = c + 1;
    }
    assert(ths@.take(ths@.len() as int) =~= ths@);
}

/// The inline width of the header of column `c`.
pub open spec fn header_width(g: GridView, c: int) -> BoxSize {
    if c < g.table.columns.len() && g.table.columns[c].width is Some {
        BoxSize::Fixed(g.table.columns[c].width.unwrap())
    } else {
        BoxSize::Auto
    }
}

/// The tree with some header cells given their columns' widths.
pub open spec fn all_widths_set(nodes: Nodes, ths: Seq<NodeId>, g: GridView) -> Nodes
    decreases ths.len(),
{
    if ths.len() == 0 {
        nodes
    } else {
        with_width(
            all_widths_set(nodes, ths.drop_last(), g),
            ths.last(),
            header_width(g, ths.len() - 1),
        )
    }
}

/// Give each header cell its column's width.
pub fn sync_header_widths(dom: &mut TuiDom, grid: &Grid, ths: &Vec<NodeId>)
    ensures
        dom_quiet(*final(dom)) == dom_quiet(*old(dom)),
        dom_nodes(*final(dom)) == all_widths_set(dom_nodes(*old(dom)), ths@, grid@),
{
    let ghost before = dom_nodes(*dom);
    let ghost quiet = dom_quiet(*dom);
    let columns = grid.model.columns();
    let mut c: usize = 0;
    assert(ths@.take(0) =~= Seq::empty());
    while c < ths.len()
        invariant
            c <= ths@.len(),
            columns@ == grid@.table.columns,
            dom_quiet(*dom) == quiet,
            dom_nodes(*dom) == all_widths_set(before, ths@.take(c as int), grid@),
        decreases ths@.len() - c,
    {
        let mut width = BoxSize::Auto;
        if c < columns.len() {
            match columns[c].width {
                Some(w) => {
                    width = BoxSize::Fixed(w);
                },
                None => {},
            }
        }
        assert(ths@.take(c + 1).drop_last() =~= ths@.take(c as int));
        set_width(dom, ths[c], width);
        c = c + 1;
    }
    assert(ths@.take(ths@.len() as int) =~= ths@);
}

} // verus!
