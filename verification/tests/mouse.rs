//! Mouse interaction: header-click sort cycle + cell selection (click /
//! Shift+click / Ctrl+click / drag), wired by `install_mouse`.

use std::cell::RefCell;
use std::rc::Rc;

use crossterm::event::{
    Event as CtEvent, KeyModifiers, MouseButton as CtButton, MouseEvent, MouseEventKind,
};
use rdom_tui::render::{Terminal, TestBackend};
use rdom_tui::{
    App, ListenerOptions, MouseButton, NodeId, TuiAccessors, TuiAccessorsMut, TuiDispatchExt, TuiDom,
    TuiEvent,
};
use rdom_virtualtable::{
    highlight_stylesheet, Column, SelectionMode, SortDir, VirtualTable, VirtualTableView,
};

/// The number that a text spells, by its bits.
fn read(s: &str) -> Option<u64> {
    s.trim().parse::<f64>().ok().map(|n| n.to_bits())
}

/// A view that event listeners share.
type Shared = Rc<RefCell<VirtualTableView>>;

/// Scroll the body where the view asks for it, once the view is free again.
fn scroll_body(view: &Shared, dom: &mut TuiDom, scroll_to: Option<usize>) {
    if let Some(top) = scroll_to {
        let tbody = view.borrow().frame.as_ref().map(|f| f.tbody);
        if let Some(tbody) = tbody {
            dom.node_mut(tbody).set_scroll_top(top as i32).ok();
        }
    }
}

/// Let `keydown` events on the table drive the view.
fn install_nav(view: &Shared, dom: &mut TuiDom, table: NodeId, viewport_rows: u16) {
    view.borrow_mut().install_nav(dom, viewport_rows);
    let v = view.clone();
    dom.add_event_listener(table, "keydown", ListenerOptions::default(), move |ctx| {
        let Some(kbd) = ctx.event.detail.as_keyboard() else {
            return;
        };
        let ctrl = kbd.modifiers.ctrl || kbd.modifiers.meta;
        let h = v
            .borrow_mut()
            .on_key(ctx.dom, kbd.key.as_str(), kbd.modifiers.shift, ctrl);
        scroll_body(&v, ctx.dom, h.scroll_to);
        if h.handled {
            ctx.event.prevent_default();
            ctx.request_redraw();
        }
    })
    .unwrap();
}

/// Make the body scroll, and re-window on `scroll` events.
fn enable_scrollbar(view: &Shared, dom: &mut TuiDom) {
    view.borrow_mut().enable_scrollbar(dom);
    let tbody = view.borrow().frame.as_ref().unwrap().tbody;
    let v = view.clone();
    dom.add_event_listener(tbody, "scroll", ListenerOptions::default(), move |ctx| {
        if v.borrow_mut().on_scroll(ctx.dom) {
            ctx.request_redraw();
        }
    })
    .unwrap();
}

/// Let mouse events drive the view.
fn install_mouse(view: &Shared, dom: &mut TuiDom) {
    let root = dom.root();
    let v = view.clone();
    dom.add_event_listener(root, "mousedown", ListenerOptions::default(), move |ctx| {
        let Some(m) = ctx.event.detail.as_mouse() else {
            return;
        };
        let left = m.button == MouseButton::Left;
        let ctrl = m.modifiers.ctrl || m.modifiers.meta;
        let shift = m.modifiers.shift;
        let h = v
            .borrow_mut()
            .on_press(ctx.dom, ctx.event.target, left, ctrl, shift);
        scroll_body(&v, ctx.dom, h.scroll_to);
        if h.capture {
            let table = v.borrow().frame.as_ref().unwrap().table;
            let _ = ctx.dom.set_pointer_capture(table);
            ctx.dom.set_drag_autoscroll(true);
        }
        if h.handled {
            ctx.event.prevent_default();
            ctx.request_redraw();
        }
    })
    .unwrap();
    let v = view.clone();
    dom.add_event_listener(root, "mousemove", ListenerOptions::default(), move |ctx| {
        let Some(m) = ctx.event.detail.as_mouse() else {
            return;
        };
        let held = m.buttons & 1 != 0;
        let (x, y) = (m.client_x, m.client_y);
        let h = v
            .borrow_mut()
            .on_drag(ctx.dom, ctx.event.target, held, x as i32, y as i32);
        scroll_body(&v, ctx.dom, h.scroll_to);
        if h.handled {
            ctx.request_redraw();
        }
    })
    .unwrap();
    let v = view.clone();
    dom.add_event_listener(root, "mouseup", ListenerOptions::default(), move |_ctx| {
        v.borrow_mut().on_release();
    })
    .unwrap();
    let v = view.clone();
    dom.add_event_listener(root, "click", ListenerOptions::default(), move |ctx| {
        let Some(target) = ctx.event.target else {
            return;
        };
        if v.borrow_mut().on_header_click(ctx.dom, target, &read) {
            ctx.request_redraw();
        }
    })
    .unwrap();
}

const ROWS: usize = 5;

fn grid(cols: usize) -> Shared {
    let columns = (0..cols).map(|c| Column::new(format!("c{c}"))).collect();
    let mut model = VirtualTable::new(columns);
    model.set_rows(
        (0..ROWS)
            .map(|r| (0..cols).map(|c| format!("r{r}c{c}").into()).collect())
            .collect(),
    );
    Rc::new(RefCell::new(VirtualTableView::new(model)))
}

/// Mount + show all rows + wire mouse. Returns `(dom, table)`.
fn mounted(view: &Shared) -> (TuiDom, NodeId) {
    let mut dom = TuiDom::new();
    let table = view.borrow_mut().mount(&mut dom);
    let root = dom.root();
    dom.append_child(root, table).unwrap();
    view.borrow_mut().show_window(&mut dom, 0, ROWS);
    install_mouse(&view, &mut dom);
    (dom, table)
}

fn children_named(dom: &TuiDom, parent: NodeId, name: &str) -> Vec<NodeId> {
    dom.node(parent)
        .children()
        .filter(|c| c.node_name() == name)
        .map(|c| c.id())
        .collect()
}

fn first_named(dom: &TuiDom, parent: NodeId, name: &str) -> NodeId {
    children_named(dom, parent, name)[0]
}

/// The header `<th>` for model column `c`.
fn header(dom: &TuiDom, table: NodeId, c: usize) -> NodeId {
    let thead = first_named(dom, table, "thead");
    let tr = first_named(dom, thead, "tr");
    children_named(dom, tr, "th")[c]
}

/// The body `<td>` for window row `r`, column `c`.
fn cell(dom: &TuiDom, table: NodeId, r: usize, c: usize) -> NodeId {
    let tbody = first_named(dom, table, "tbody");
    let tr = children_named(dom, tbody, "tr")[r];
    children_named(dom, tr, "td")[c]
}

fn me(kind: MouseEventKind, mods: KeyModifiers) -> MouseEvent {
    MouseEvent {
        kind,
        column: 0,
        row: 0,
        modifiers: mods,
    }
}

fn dispatch(dom: &mut TuiDom, target: NodeId, mut ev: TuiEvent) {
    dom.dispatch_tui_event(target, &mut ev).unwrap();
}

fn down(dom: &mut TuiDom, target: NodeId, mods: KeyModifiers) {
    dispatch(
        dom,
        target,
        TuiEvent::mousedown(me(MouseEventKind::Down(CtButton::Left), mods)),
    );
}

fn click(dom: &mut TuiDom, target: NodeId) {
    dispatch(
        dom,
        target,
        TuiEvent::click(me(
            MouseEventKind::Down(CtButton::Left),
            KeyModifiers::empty(),
        )),
    );
}

// ── Header-click sort cycle ─────────────────────────────────────────

#[test]
fn header_click_cycles_sort_asc_desc_off() {
    let view = grid(3);
    let (mut dom, table) = mounted(&view);
    let th1 = header(&dom, table, 1);

    assert_eq!(view.borrow().sort_state(), None);
    click(&mut dom, th1);
    assert_eq!(view.borrow().sort_state(), Some((1, SortDir::Ascending)));
    click(&mut dom, th1);
    assert_eq!(view.borrow().sort_state(), Some((1, SortDir::Descending)));
    click(&mut dom, th1);
    assert_eq!(view.borrow().sort_state(), None, "third click turns sort off");
}

#[test]
fn header_click_on_a_new_column_starts_ascending() {
    let view = grid(3);
    let (mut dom, table) = mounted(&view);
    let th0 = header(&dom, table, 0);
    let th2 = header(&dom, table, 2);
    click(&mut dom, th0);
    assert_eq!(view.borrow().sort_state(), Some((0, SortDir::Ascending)));
    // Clicking a *different* header sorts that one ascending (not continuing the cycle).
    click(&mut dom, th2);
    assert_eq!(view.borrow().sort_state(), Some((2, SortDir::Ascending)));
}

// ── Cell click → move cursor ────────────────────────────────────────

#[test]
fn cell_click_moves_the_cursor() {
    let view = grid(3);
    let (mut dom, table) = mounted(&view);
    let c = cell(&dom, table, 3, 2);
    down(&mut dom, c, KeyModifiers::empty());
    assert_eq!((view.borrow().cursor().row(), view.borrow().cursor().col()), (3, 2));
}

// ── Shift+click → extend range ──────────────────────────────────────

#[test]
fn shift_click_extends_a_range() {
    let view = grid(3);
    view.borrow_mut().set_selection_mode(SelectionMode::Cell);
    let (mut dom, table) = mounted(&view);
    // Click anchors at (1,0); Shift+click extends to (3,2).
    let a = cell(&dom, table, 1, 0);
    let b = cell(&dom, table, 3, 2);
    down(&mut dom, a, KeyModifiers::empty());
    down(&mut dom, b, KeyModifiers::SHIFT);

    assert!(view.borrow().is_cell_selected(1, 0), "anchor corner");
    assert!(view.borrow().is_cell_selected(3, 2), "head corner");
    assert!(view.borrow().is_cell_selected(2, 1), "interior of the rectangle");
    assert!(!view.borrow().is_cell_selected(0, 0), "outside the rectangle");
    assert_eq!((view.borrow().cursor().row(), view.borrow().cursor().col()), (3, 2));
}

// ── Ctrl/⌘+click → toggle discontiguous ─────────────────────────────

#[test]
fn ctrl_click_toggles_individual_cells() {
    let view = grid(3);
    view.borrow_mut().set_selection_mode(SelectionMode::Cell);
    let (mut dom, table) = mounted(&view);
    let a = cell(&dom, table, 0, 0);
    let b = cell(&dom, table, 4, 2);
    down(&mut dom, a, KeyModifiers::CONTROL);
    down(&mut dom, b, KeyModifiers::CONTROL);
    assert!(view.borrow().is_cell_selected(0, 0));
    assert!(view.borrow().is_cell_selected(4, 2));
    assert!(!view.borrow().is_cell_selected(2, 1), "discontiguous — nothing between");
    // Ctrl+click an already-selected cell removes it.
    down(&mut dom, a, KeyModifiers::CONTROL);
    assert!(!view.borrow().is_cell_selected(0, 0));
}

// ── Drag → rubber-band range ────────────────────────────────────────

#[test]
fn drag_rubber_bands_a_range() {
    let view = grid(3);
    view.borrow_mut().set_selection_mode(SelectionMode::Cell);
    let (mut dom, table) = mounted(&view);

    let a = cell(&dom, table, 0, 0);
    let mid = cell(&dom, table, 2, 1);
    down(&mut dom, a, KeyModifiers::empty());
    dispatch(
        &mut dom,
        mid,
        TuiEvent::mousemove(me(
            MouseEventKind::Drag(CtButton::Left),
            KeyModifiers::empty(),
        )),
    );
    dispatch(
        &mut dom,
        mid,
        TuiEvent::mouseup(me(
            MouseEventKind::Up(CtButton::Left),
            KeyModifiers::empty(),
        )),
    );

    assert!(view.borrow().is_cell_selected(0, 0), "drag anchor");
    assert!(view.borrow().is_cell_selected(2, 1), "drag head");
    assert!(view.borrow().is_cell_selected(1, 0), "interior");
    assert!(!view.borrow().is_cell_selected(3, 0), "below the drag");
    assert_eq!((view.borrow().cursor().row(), view.borrow().cursor().col()), (2, 1));
}

// ── End-to-end: drag past the edge autoscrolls + keeps selecting ────

#[test]
fn drag_past_the_edge_autoscrolls_and_extends_the_selection() {
    // The headline behavior: a cell-range drag held past the bottom of a
    // scrollable virtual table scrolls the window in and keeps the rectangle
    // growing to rows that weren't materialized when the drag started.
    let mut model = VirtualTable::new((0..3).map(|c| Column::new(format!("c{c}"))).collect());
    model.set_rows(
        (0..40)
            .map(|r| (0..3).map(|c| format!("r{r}c{c}").into()).collect())
            .collect(),
    );
    let view = Rc::new(RefCell::new(VirtualTableView::new(model)));
    view.borrow_mut().set_selection_mode(SelectionMode::Cell);

    let mut dom = TuiDom::new();
    let table = view.borrow_mut().mount(&mut dom);
    dom.node_mut(table).set_attribute("tabindex", "0").ok();
    let root = dom.root();
    dom.append_child(root, table).unwrap();
    let visible = 6u16;
    view.borrow_mut().show_window(&mut dom, 0, visible as usize);
    install_nav(&view, &mut dom, table, visible);
    install_mouse(&view, &mut dom);
    enable_scrollbar(&view, &mut dom);
    dom.set_focused(Some(table));

    let term = Terminal::new(TestBackend::new(24, 8)).unwrap();
    let mut app = App::with_backend(dom, highlight_stylesheet().unwrap(), term).unwrap();
    app.draw_if_dirty().unwrap();

    let me = |kind, x: u16, y: u16| {
        CtEvent::Mouse(MouseEvent {
            kind,
            column: x,
            row: y,
            modifiers: KeyModifiers::empty(),
        })
    };
    // Press a top cell (anchors the range + captures + arms autoscroll), then
    // hold a drag at the bottom edge of the viewport. `x = 2` lands in the
    // first column (col 0) of a 24-wide / 3-column table.
    let col = 0;
    app.handle_event(me(MouseEventKind::Down(CtButton::Left), 2, 1));
    assert_eq!(
        app.dom().pointer_capture(),
        Some(table),
        "mousedown captured the table"
    );
    assert!(app.dom().drag_autoscroll(), "mousedown armed autoscroll");
    app.handle_event(me(MouseEventKind::Drag(CtButton::Left), 2, 7));
    // Tick the autoscroll several periods while held at the edge.
    for _ in 0..8 {
        app.advance(50).unwrap();
    }

    assert!(view.borrow().is_cell_selected(0, col), "anchor row still selected");
    assert!(
        (0..40).filter(|&r| view.borrow().is_cell_selected(r, col)).count() > visible as usize,
        "autoscroll extended the selection beyond the initial {visible}-row window"
    );
    assert!(
        view.borrow().is_cell_selected(visible as usize + 2, col),
        "a row that was off-screen at drag start is now selected"
    );

    // Release stops autoscroll; the selection is stable afterward.
    app.handle_event(me(MouseEventKind::Up(CtButton::Left), 2, 7));
    let count_after_release = (0..40)
        .filter(|&r| view.borrow().is_cell_selected(r, col))
        .count();
    app.advance(500).unwrap();
    assert_eq!(
        (0..40)
            .filter(|&r| view.borrow().is_cell_selected(r, col))
            .count(),
        count_after_release,
        "no further autoscroll after release"
    );
}

#[test]
fn drag_autoscroll_keeps_a_stable_column_and_an_unclipped_window() {
    // A cell-range drag past the edge must not make the selected column flicker
    // or crop the top of the window. Drag in the NAME column (col 1) and assert the column
    // stays col 1 (no col-0 bleed) and scroll_top tracks window_start each tick.
    let mut model = VirtualTable::new((0..3).map(|c| Column::new(format!("c{c}"))).collect());
    model.set_rows(
        (0..40)
            .map(|r| (0..3).map(|c| format!("r{r}c{c}").into()).collect())
            .collect(),
    );
    let view = Rc::new(RefCell::new(VirtualTableView::new(model)));
    view.borrow_mut().set_selection_mode(SelectionMode::Cell);

    let mut dom = TuiDom::new();
    let table = view.borrow_mut().mount(&mut dom);
    dom.node_mut(table).set_attribute("tabindex", "0").ok();
    let root = dom.root();
    dom.append_child(root, table).unwrap();
    let visible = 6u16;
    view.borrow_mut().show_window(&mut dom, 0, visible as usize);
    install_nav(&view, &mut dom, table, visible);
    install_mouse(&view, &mut dom);
    enable_scrollbar(&view, &mut dom);
    dom.set_focused(Some(table));

    let term = Terminal::new(TestBackend::new(24, 8)).unwrap();
    let mut app = App::with_backend(dom, highlight_stylesheet().unwrap(), term).unwrap();
    app.draw_if_dirty().unwrap();

    let me = |kind, x: u16, y: u16| {
        CtEvent::Mouse(MouseEvent {
            kind,
            column: x,
            row: y,
            modifiers: KeyModifiers::empty(),
        })
    };
    // x = 10 lands in the NAME column (col 1) of a 24-wide / 3-column table.
    let col = 1;
    app.handle_event(me(MouseEventKind::Down(CtButton::Left), 10, 1));
    app.handle_event(me(MouseEventKind::Drag(CtButton::Left), 10, 7));
    for _ in 0..6 {
        app.advance(50).unwrap();
        // No crop: the materialized window sits flush with the scroll offset.
        let tbody = first_named(app.dom(), table, "tbody");
        let st = app.dom().node(tbody).scroll_top().unwrap_or(-1) as usize;
        assert_eq!(
            st,
            view.borrow().window_start(),
            "scroll_top must track window_start (no cropped top)"
        );
    }

    // The cursor stayed in the NAME column — no flicker into col 0 / col 2.
    assert_eq!(view.borrow().cursor().col(), col, "cursor column is stable");
    let selected_in_col1 = (0..40).filter(|&r| view.borrow().is_cell_selected(r, col)).count();
    assert!(
        selected_in_col1 > visible as usize,
        "the NAME-column selection extended past the initial window"
    );
    // The rectangle is exactly col 1 — neither id (col 0) nor status (col 2)
    // bled in from a flickering head column.
    for r in 0..40 {
        if view.borrow().is_cell_selected(r, col) {
            assert!(
                !view.borrow().is_cell_selected(r, 0),
                "row {r}: col 0 must not be selected"
            );
            assert!(
                !view.borrow().is_cell_selected(r, 2),
                "row {r}: col 2 must not be selected"
            );
        }
    }
}

#[test]
fn drag_extends_only_while_the_button_is_held() {
    // A mousemove with no button held (buttons bit 0 clear) must not extend.
    let view = grid(3);
    view.borrow_mut().set_selection_mode(SelectionMode::Cell);
    let (mut dom, table) = mounted(&view);
    let a = cell(&dom, table, 0, 0);
    let mid = cell(&dom, table, 2, 1);
    let far = cell(&dom, table, 4, 2);
    down(&mut dom, a, KeyModifiers::empty());
    dispatch(
        &mut dom,
        mid,
        TuiEvent::mouseup(me(
            MouseEventKind::Up(CtButton::Left),
            KeyModifiers::empty(),
        )),
    );
    // After the up, a plain move must not extend a range.
    dispatch(
        &mut dom,
        far,
        TuiEvent::mousemove(me(MouseEventKind::Moved, KeyModifiers::empty())),
    );
    assert!(
        !view.borrow().is_cell_selected(4, 2),
        "a move after release doesn't extend"
    );
}
