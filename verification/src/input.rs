//! What keys and the mouse do to a view.

use rdom_tui::{NodeId, TuiDom};
use vstd::prelude::*;

use crate::chooser::{menu_opened, moved_highlight};
use crate::clear::cleared;
use crate::columns::{clear_sort_step, hide_step, menu_synced, sort_step};
use crate::dom::{
    contains, dom_nodes, dom_quiet, dropped, has_attr, has_attribute, has_room, is_closest,
    is_within, same_node, Nodes,
};
use crate::draw::cell_ids;
use crate::grid::GridView;
use crate::grid_cursor::{key_nav, nav_for_key, Nav};
use crate::hit::{is_drag_cell, is_place, rects_of};
use crate::marks::all_marked;
use crate::menu::{item_marks, open_marks, Menu};
use crate::selection::SelectionMode;
use crate::text::same_text;
use crate::view::{
    header_cells, highlighted, lemma_highlight_keeps, rehighlighted, same_nodes, stays_attached,
    stays_ready, stepped, VirtualTableView,
};

verus! {

/// What a key does.
#[derive(Clone, Copy, Debug, PartialEq, Eq, Structural)]
pub enum KeyAction {
    /// The key is not for the table.
    Ignore,
    CloseMenu,
    MenuDown,
    MenuUp,
    MenuActivate,
    SelectAll,
    ClearSelection,
    ToggleSelection,
    Extend(Nav),
    Navigate(Nav),
}

/// The action of a move, if there is one.
pub open spec fn extend_or_ignore(nav: Option<Nav>) -> KeyAction {
    match nav {
        Some(nav) => KeyAction::Extend(nav),
        None => KeyAction::Ignore,
    }
}

/// The action of a move, if there is one.
pub open spec fn navigate_or_ignore(nav: Option<Nav>) -> KeyAction {
    match nav {
        Some(nav) => KeyAction::Navigate(nav),
        None => KeyAction::Ignore,
    }
}

/// What a key does: an open chooser owns the keyboard; where something can be
/// selected, the selection keys come first and shift extends; else the key
/// navigates, unless shift is held.
pub open spec fn action_of(
    menu_open: bool,
    mode: SelectionMode,
    key: Seq<char>,
    shift: bool,
    ctrl: bool,
) -> KeyAction {
    if menu_open {
        if key == "Escape"@ {
            KeyAction::CloseMenu
        } else if key == "ArrowDown"@ || key == "j"@ {
            KeyAction::MenuDown
        } else if key == "ArrowUp"@ || key == "k"@ {
            KeyAction::MenuUp
        } else if key == "Enter"@ || key == " "@ {
            KeyAction::MenuActivate
        } else {
            KeyAction::Ignore
        }
    } else if mode != SelectionMode::Off {
        if ctrl && key == "a"@ {
            KeyAction::SelectAll
        } else if key == "Escape"@ {
            KeyAction::ClearSelection
        } else if key == " "@ {
            KeyAction::ToggleSelection
        } else if shift {
            extend_or_ignore(key_nav(key))
        } else {
            navigate_or_ignore(key_nav(key))
        }
    } else if shift {
        KeyAction::Ignore
    } else {
        navigate_or_ignore(key_nav(key))
    }
}

/// What a key does.
pub fn key_action(
    menu_open: bool,
    mode: SelectionMode,
    key: &str,
    shift: bool,
    ctrl: bool,
) -> (r: KeyAction)
    ensures
        r == action_of(menu_open, mode, key@, shift, ctrl),
{
    if menu_open {
        if same_text(key, "Escape") {
            KeyAction::CloseMenu
        } else if same_text(key, "ArrowDown") || same_text(key, "j") {
            KeyAction::MenuDown
        } else if same_text(key, "ArrowUp") || same_text(key, "k") {
            KeyAction::MenuUp
        } else if same_text(key, "Enter") || same_text(key, " ") {
            KeyAction::MenuActivate
        } else {
            KeyAction::Ignore
        }
    } else if mode != SelectionMode::Off {
        if ctrl && same_text(key, "a") {
            KeyAction::SelectAll
        } else if same_text(key, "Escape") {
            KeyAction::ClearSelection
        } else if same_text(key, " ") {
            KeyAction::ToggleSelection
        } else {
            match nav_for_key(key, false) {
                Some(nav) => if shift {
                    KeyAction::Extend(nav)
                } else {
                    KeyAction::Navigate(nav)
                },
                None => KeyAction::Ignore,
            }
        }
    } else {
        match nav_for_key(key, shift) {
            Some(nav) => KeyAction::Navigate(nav),
            None => KeyAction::Ignore,
        }
    }
}

/// What became of an input event.
pub struct Handled {
    /// The event was for the table, which must be redrawn.
    pub handled: bool,
    /// The pointer must be captured by the table, and drags past its edge must
    /// scroll it.
    pub capture: bool,
    /// The body must be scrolled to this row.
    pub scroll_to: Option<usize>,
}

/// What an action does to a view and its tree.
pub open spec fn key_step(
    v0: VirtualTableView,
    n0: Nodes,
    v1: VirtualTableView,
    n1: Nodes,
    action: KeyAction,
    scroll_to: Option<usize>,
) -> bool {
    match action {
        KeyAction::Ignore => v1 == v0 && n1 == n0 && scroll_to is None,
        KeyAction::CloseMenu => scroll_to is None && match (v0.menu, v0.frame, v0.chip) {
            (Some(m), Some(f), Some(chip)) => v1 == (VirtualTableView { menu: None, ..v0 }) && n1
                == all_marked(dropped(n0, m.node), open_marks(chip, f.table, false)),
            _ => true,
        },
        KeyAction::MenuDown => scroll_to is None && highlight_step(v0, n0, v1, n1, 1),
        KeyAction::MenuUp => scroll_to is None && highlight_step(v0, n0, v1, n1, -1),
        KeyAction::MenuActivate => scroll_to is None && match v0.menu {
            Some(m) => hide_step(
                v0,
                n0,
                v1,
                n1,
                m.cursor,
                !v0.grid@.table.hidden.contains(m.cursor),
            ),
            None => true,
        },
        KeyAction::SelectAll => scroll_to is None && rehighlighted(n0, n1, v0, v1) && v1.grid@ == (
        GridView { selection: v0.grid@.selection.everything(), ..v0.grid@ }),
        KeyAction::ClearSelection => scroll_to is None && rehighlighted(n0, n1, v0, v1) && v1.grid@
            == (GridView { selection: v0.grid@.selection.cleared(), ..v0.grid@ }),
        KeyAction::ToggleSelection => scroll_to is None && rehighlighted(n0, n1, v0, v1)
            && v1.grid@ == v0.grid@.after_toggle(),
        KeyAction::Extend(nav) => stepped(
            n0,
            n1,
            v0,
            v1,
            v0.grid@.after_extend(nav),
            scroll_to,
        ),
        KeyAction::Navigate(nav) => stepped(n0, n1, v0, v1, v0.grid@.after_nav(nav), scroll_to),
    }
}

/// What moving the highlight of the chooser does.
pub open spec fn highlight_step(
    v0: VirtualTableView,
    n0: Nodes,
    v1: VirtualTableView,
    n1: Nodes,
    delta: int,
) -> bool {
    match v0.menu {
        Some(m) => {
            let at = moved_highlight(m.cursor, delta, m.items@.len()) as usize;
            v1 == (VirtualTableView { menu: Some(Menu { cursor: at, ..m }), ..v0 }) && n1
                == all_marked(n0, item_marks(m.items@, at))
        },
        None => true,
    }
}

/// Is `cell` the cell of the node `target`, or `None` without one?
pub open spec fn is_target_cell(
    v: VirtualTableView,
    n: Nodes,
    target: Option<NodeId>,
    cell: Option<(usize, usize)>,
) -> bool {
    match target {
        Some(t) => exists|td: Option<NodeId>| #[trigger]
            is_closest(n, t, "td"@, td) && match td {
                Some(td) => is_place(
                    cell_ids(v.window.cells@),
                    v.grid@.window_start as int,
                    td,
                    cell,
                ),
                None => cell is None,
            },
        None => cell is None,
    }
}

/// Is `cell` the cell that a drag is over: that of the node under the pointer, or
/// else the one at its point?
pub open spec fn is_drag_target(
    v: VirtualTableView,
    n: Nodes,
    target: Option<NodeId>,
    x: int,
    y: int,
    cell: Option<(usize, usize)>,
) -> bool {
    exists|own: Option<(usize, usize)>| #[trigger]
        is_target_cell(v, n, target, own) && if own is Some {
            cell == own
        } else {
            is_drag_cell(
                rects_of(n, cell_ids(v.window.cells@)),
                v.grid@.window_start as int,
                x,
                y,
                cell,
            )
        }
}

impl VirtualTableView {
    /// Make the table ready for keys: set the number of visible data rows, and
    /// mark the cursor on the window on show.
    pub fn install_nav(&mut self, dom: &mut TuiDom, viewport_rows: u16)
        requires
            old(self).wf(),
            dom_quiet(*old(dom)),
        ensures
            final(self).wf(),
            dom_quiet(*final(dom)),
            same_nodes(*old(self), *final(self)),
            final(self).grid@ == (GridView {
                viewport_rows,
                nav_active: true,
                ..old(self).grid@
            }),
            dom_nodes(*final(dom)) == highlighted(
                dom_nodes(*old(dom)),
                final(self).grid@,
                final(self).frame,
                final(self).window,
            ),
            old(self).attached(dom_nodes(*old(dom))) ==> stays_ready(
                *old(self),
                *old(dom),
                *final(self),
                *final(dom),
            ),
    {
        self.set_viewport_rows(viewport_rows);
        self.highlight(dom);
        proof {
            lemma_highlight_keeps(dom_nodes(*old(dom)), *self);
        }
    }

    /// Handle a key.
    pub fn on_key(&mut self, dom: &mut TuiDom, key: &str, shift: bool, ctrl: bool) -> (r: Handled)
        requires
            old(self).wf(),
            old(self).ready(*old(dom), old(self).grid@.viewport_rows as int),
            old(self).ready(*old(dom), old(self).window.rows@.len() as int),
            old(self).grid@.buffer.epoch < u64::MAX,
        ensures
            final(self).wf(),
            dom_quiet(*final(dom)),
            old(self).menu is None || action_of(
                true,
                old(self).grid@.selection.mode,
                key@,
                shift,
                ctrl,
            ) == KeyAction::MenuActivate ==> stays_ready(
                *old(self),
                *old(dom),
                *final(self),
                *final(dom),
            ),
            old(self).menu is Some ==> stays_attached(
                *old(self),
                dom_nodes(*old(dom)),
                *final(self),
                dom_nodes(*final(dom)),
            ),
            !r.capture,
            r.handled == (action_of(
                old(self).menu is Some,
                old(self).grid@.selection.mode,
                key@,
                shift,
                ctrl,
            ) != KeyAction::Ignore),
            key_step(
                *old(self),
                dom_nodes(*old(dom)),
                *final(self),
                dom_nodes(*final(dom)),
                action_of(
                    old(self).menu is Some,
                    old(self).grid@.selection.mode,
                    key@,
                    shift,
                    ctrl,
                ),
                r.scroll_to,
            ),
    {
        let action = key_action(
            self.menu.is_some(),
            self.grid.selection.mode(),
            key,
            shift,
            ctrl,
        );
        let mut scroll_to: Option<usize> = None;
        match action {
            KeyAction::Ignore => {
                return Handled { handled: false, capture: false, scroll_to: None };
            },
            KeyAction::CloseMenu => {
                self.close_column_menu(dom);
            },
            KeyAction::MenuDown => {
                self.menu_highlight_move(dom, 1);
            },
            KeyAction::MenuUp => {
                self.menu_highlight_move(dom, -1);
            },
            KeyAction::MenuActivate => {
                self.menu_activate(dom);
            },
            KeyAction::SelectAll => {
                self.select_all(dom);
            },
            KeyAction::ClearSelection => {
                self.clear_selection(dom);
            },
            KeyAction::ToggleSelection => {
                self.toggle_selection(dom);
            },
            KeyAction::Extend(nav) => {
                let moved = self.extend_selection(dom, nav);
                scroll_to = moved.scroll_to;
            },
            KeyAction::Navigate(nav) => {
                let moved = self.navigate(dom, nav);
                scroll_to = moved.scroll_to;
            },
        }
        Handled { handled: true, capture: false, scroll_to }
    }

    /// Handle a press of a mouse button on the node `target`: on a data cell, the
    /// left button with ctrl toggles the cell, with shift extends the range to
    /// it, and else puts the cursor there and begins a drag. An open chooser
    /// keeps presses away.
    pub fn on_press(
        &mut self,
        dom: &mut TuiDom,
        target: Option<NodeId>,
        left: bool,
        ctrl: bool,
        shift: bool,
    ) -> (r: Handled)
        requires
            old(self).wf(),
            old(self).ready(*old(dom), old(self).grid@.viewport_rows as int),
            old(self).grid@.buffer.epoch < u64::MAX,
        ensures
            final(self).wf(),
            final(self).frame == old(self).frame,
            final(self).chip == old(self).chip,
            final(self).menu == old(self).menu,
            dom_quiet(*final(dom)),
            final(self).attached(dom_nodes(*final(dom))),
            old(self).frame is Some ==> cleared(dom_nodes(*final(dom)), final(self).window).dom()
                == cleared(dom_nodes(*old(dom)), old(self).window).dom(),
            exists|cell: Option<(usize, usize)>| #[trigger]
                is_target_cell(*old(self), dom_nodes(*old(dom)), target, cell) && press_step(
                    *old(self),
                    dom_nodes(*old(dom)),
                    *final(self),
                    dom_nodes(*final(dom)),
                    if old(self).menu is None && left {
                        cell
                    } else {
                        None
                    },
                    ctrl,
                    shift,
                    r,
                ),
    {
        let cell = match target {
            Some(t) => self.data_cell_of(dom, t),
            None => None,
        };
        assert(is_target_cell(*old(self), dom_nodes(*old(dom)), target, cell));
        let nothing = Handled { handled: false, capture: false, scroll_to: None };
        if self.menu.is_some() || !left {
            return nothing;
        }
        let (row, col) = match cell {
            Some(at) => at,
            None => {
                return nothing;
            },
        };
        if ctrl {
            let moved = self.toggle_at(dom, row, col);
            Handled { handled: true, capture: false, scroll_to: moved.scroll_to }
        } else if shift {
            let moved = self.extend_selection_to(dom, row, col);
            Handled { handled: true, capture: false, scroll_to: moved.scroll_to }
        } else {
            let moved = self.set_cursor_at(dom, row, col);
            let ghost v = *self;
            self.mouse_drag = true;
            proof {
                assert(placed_step(
                    *old(self),
                    dom_nodes(*old(dom)),
                    v,
                    dom_nodes(*dom),
                    row,
                    col,
                    moved.scroll_to,
                ));
            }
            Handled {
                handled: true,
                capture: self.frame.is_some(),
                scroll_to: moved.scroll_to,
            }
        }
    }

    /// Handle a move of the mouse: while a press is held, the range is extended
    /// to the cell under the pointer, or to the one at its point `(x, y)`. A move
    /// without the left button ends the drag.
    pub fn on_drag(
        &mut self,
        dom: &mut TuiDom,
        target: Option<NodeId>,
        left_held: bool,
        x: i32,
        y: i32,
    ) -> (r: Handled)
        requires
            old(self).wf(),
            old(self).ready(*old(dom), old(self).grid@.viewport_rows as int),
            old(self).grid@.buffer.epoch < u64::MAX,
        ensures
            final(self).wf(),
            !r.capture,
            !old(self).mouse_drag ==> *final(self) == *old(self) && *final(dom) == *old(dom)
                && !r.handled && r.scroll_to is None,
            old(self).mouse_drag && !left_held ==> *final(self) == (VirtualTableView {
                mouse_drag: false,
                ..*old(self)
            }) && *final(dom) == *old(dom) && !r.handled && r.scroll_to is None,
            old(self).mouse_drag && left_held ==> exists|cell: Option<(usize, usize)>| #[trigger]
                is_drag_target(
                    *old(self),
                    dom_nodes(*old(dom)),
                    target,
                    x as int,
                    y as int,
                    cell,
                ) && match cell {
                    Some((row, col)) => stays_ready(
                        *old(self),
                        *old(dom),
                        *final(self),
                        *final(dom),
                    ) && stepped(
                        dom_nodes(*old(dom)),
                        dom_nodes(*final(dom)),
                        *old(self),
                        *final(self),
                        old(self).grid@.after_extend_to(row, col),
                        r.scroll_to,
                    ) && r.handled == (old(self).grid@.has_cells() && (
                    old(self).grid@.selection.mode != SelectionMode::Off
                        || old(self).grid@.after_extend_to(row, col).cursor
                        != old(self).grid@.cursor)),
                    None => *final(self) == *old(self) && *final(dom) == *old(dom) && !r.handled
                        && r.scroll_to is None,
                },
    {
        let nothing = Handled { handled: false, capture: false, scroll_to: None };
        if !self.mouse_drag {
            return nothing;
        }
        if !left_held {
            self.mouse_drag = false;
            return nothing;
        }
        let own = match target {
            Some(t) => self.data_cell_of(dom, t),
            None => None,
        };
        assert(is_target_cell(*old(self), dom_nodes(*old(dom)), target, own));
        let cell = match own {
            Some(at) => Some(at),
            None => self.drag_cell_at(dom, x, y),
        };
        assert(is_drag_target(
            *old(self),
            dom_nodes(*old(dom)),
            target,
            x as int,
            y as int,
            cell,
        ));
        match cell {
            Some((row, col)) => {
                let moved = self.extend_selection_to(dom, row, col);
                Handled { handled: moved.changed, capture: false, scroll_to: moved.scroll_to }
            },
            None => nothing,
        }
    }

    /// Handle the release of a mouse button: a drag ends.
    pub fn on_release(&mut self)
        requires
            old(self).wf(),
        ensures
            final(self).wf(),
            *final(self) == (VirtualTableView { mouse_drag: false, ..*old(self) }),
    {
        self.mouse_drag = false;
    }

    /// Handle a click on the node `target`: on a column's header it steps the
    /// column's sort; `false` if it was not on one, or if the chooser is open.
    pub fn on_header_click<R: Fn(&str) -> Option<u64>>(
        &mut self,
        dom: &mut TuiDom,
        target: NodeId,
        read: &R,
    ) -> (r: bool)
        requires
            old(self).wf(),
            old(self).ready(*old(dom), old(self).window.rows@.len() as int),
            old(self).grid@.buffer.epoch < u64::MAX,
            forall|s: &str| #[trigger] call_requires(*read, (s,)),
        ensures
            final(self).wf(),
            exists|col: Option<usize>| #[trigger]
                is_header_col(*old(self), dom_nodes(*old(dom)), target, col) && r == (old(self).menu
                    is None && col is Some) && header_click_step(
                    *old(self),
                    dom_nodes(*old(dom)),
                    *final(self),
                    dom_nodes(*final(dom)),
                    if r {
                        col
                    } else {
                        None
                    },
                    *read,
                ),
            stays_ready(*old(self), *old(dom), *final(self), *final(dom)),
    {
        let col = self.header_col_of(dom, target);
        assert(is_header_col(*old(self), dom_nodes(*old(dom)), target, col));
        if self.menu.is_some() {
            return false;
        }
        match col {
            Some(c) => {
                self.cycle_sort(dom, c, read);
                true
            },
            None => false,
        }
    }

    /// Handle a click on the node `target` for the chooser: a click on its panel
    /// is left to the checkboxes; one on the chip opens or closes the panel; any
    /// other closes it. Whether the chooser changed.
    pub fn on_menu_click(&mut self, dom: &mut TuiDom, target: NodeId) -> (r: bool)
        requires
            old(self).wf(),
            dom_quiet(*old(dom)),
            old(self).menu is None && old(self).chip is Some ==> dom_nodes(
                *old(dom),
            ).contains_key(old(self).chip.unwrap()) && has_room(
                dom_nodes(*old(dom)),
                1 + 3 * old(self).grid@.table.columns.len(),
            ),
        ensures
            final(self).wf(),
            dom_quiet(*final(dom)),
            stays_attached(
                *old(self),
                dom_nodes(*old(dom)),
                *final(self),
                dom_nodes(*final(dom)),
            ),
            menu_click_step(
                *old(self),
                dom_nodes(*old(dom)),
                *final(self),
                dom_nodes(*final(dom)),
                target,
                r,
            ),
    {
        match (&self.menu, self.chip) {
            (Some(m), _) => {
                if contains(dom, m.node, target) {
                    return false;
                }
                self.close_column_menu(dom);
                true
            },
            (None, Some(chip)) => {
                if contains(dom, chip, target) {
                    self.open_column_menu(dom);
                    true
                } else {
                    false
                }
            },
            (None, None) => false,
        }
    }

    /// Handle a change of the checkbox `target`: its column is shown if it is
    /// checked and hidden if not. `false` if it is no checkbox of the chooser.
    pub fn on_menu_change(&mut self, dom: &mut TuiDom, target: NodeId) -> (r: bool)
        requires
            old(self).wf(),
            old(self).ready(*old(dom), old(self).window.rows@.len() as int),
            old(self).grid@.buffer.epoch < u64::MAX,
        ensures
            final(self).wf(),
            stays_ready(*old(self), *old(dom), *final(self), *final(dom)),
            (match old(self).menu {
                Some(m) => r == m.boxes@.contains(target) && (r ==> exists|i: int, n: Nodes|
                    {
                        &&& 0 <= i < m.boxes@.len()
                        &&& #[trigger] m.boxes@[i] == target
                        &&& hide_step(
                            *old(self),
                            dom_nodes(*old(dom)),
                            *final(self),
                            n,
                            i as usize,
                            !has_attr(dom_nodes(*old(dom)), target, "checked"@),
                        )
                        &&& dom_nodes(*final(dom)) == #[trigger] menu_synced(
                            n,
                            final(self).menu,
                            final(self).grid@,
                        )
                    }),
                None => !r,
            }),
            !r ==> *final(self) == *old(self) && *final(dom) == *old(dom),
    {
        let mut found: Option<usize> = None;
        match &self.menu {
            Some(m) => {
                let mut i: usize = 0;
                while i < m.boxes.len() && found.is_none()
                    invariant
                        i <= m.boxes@.len(),
                        match found {
                            Some(at) => at < m.boxes@.len() && m.boxes@[at as int] == target,
                            None => forall|k: int| 0 <= k < i ==> m.boxes@[k] != target,
                        },
                    decreases m.boxes@.len() - i + (if found is None {
                        1int
                    } else {
                        0int
                    }),
                {
                    if same_node(m.boxes[i], target) {
                        found = Some(i);
                    } else {
                        i = i + 1;
                    }
                }
            },
            None => {},
        }
        match found {
            Some(col) => {
                let shown = has_attribute(dom, target, "checked");
                self.choose_column(dom, col, shown);
                true
            },
            None => false,
        }
    }
}

/// Is `col` the column of the header that holds the node `target`, or `None`
/// where there is none?
pub open spec fn is_header_col(
    v: VirtualTableView,
    n: Nodes,
    target: NodeId,
    col: Option<usize>,
) -> bool {
    exists|th: Option<NodeId>| #[trigger]
        is_closest(n, target, "th"@, th) && match (th, col) {
            (Some(th), Some(c)) => c < header_cells(v.frame).len() && header_cells(
                v.frame,
            )[c as int] == th && !header_cells(v.frame).take(c as int).contains(th),
            (Some(th), None) => !header_cells(v.frame).contains(th),
            (None, col) => col is None,
        }
}

/// What a click on the header of a column does; without one, nothing.
pub open spec fn header_click_step<R: Fn(&str) -> Option<u64>>(
    v0: VirtualTableView,
    n0: Nodes,
    v1: VirtualTableView,
    n1: Nodes,
    col: Option<usize>,
    read: R,
) -> bool {
    match col {
        Some(c) => match v0.grid@.cycled_dir(c) {
            Some(dir) => sort_step(v0, n0, v1, n1, c, dir, read),
            None => clear_sort_step(v0, n0, v1, n1),
        },
        None => v1 == v0 && n1 == n0,
    }
}

/// What putting the cursor on a cell does.
pub open spec fn placed_step(
    v0: VirtualTableView,
    n0: Nodes,
    v1: VirtualTableView,
    n1: Nodes,
    row: usize,
    col: usize,
    scroll_to: Option<usize>,
) -> bool {
    stepped(n0, n1, v0, v1, v0.grid@.after_place(row, col), scroll_to)
}

/// What a press of the left button on a cell does; without one, nothing.
pub open spec fn press_step(
    v0: VirtualTableView,
    n0: Nodes,
    v1: VirtualTableView,
    n1: Nodes,
    cell: Option<(usize, usize)>,
    ctrl: bool,
    shift: bool,
    r: Handled,
) -> bool {
    match cell {
        Some((row, col)) => if ctrl {
            r.handled && !r.capture && v1.mouse_drag == v0.mouse_drag && stepped(
                n0,
                n1,
                v0,
                v1,
                v0.grid@.after_toggle_at(row, col),
                r.scroll_to,
            )
        } else if shift {
            r.handled && !r.capture && v1.mouse_drag == v0.mouse_drag && stepped(
                n0,
                n1,
                v0,
                v1,
                v0.grid@.after_extend_to(row, col),
                r.scroll_to,
            )
        } else {
            r.handled && r.capture == v0.frame is Some && v1.mouse_drag && exists|
                v: VirtualTableView,
            | #[trigger]
                placed_step(v0, n0, v, n1, row, col, r.scroll_to) && v1 == (VirtualTableView {
                    mouse_drag: true,
                    ..v
                })
        },
        None => v1 == v0 && n1 == n0 && !r.handled && !r.capture && r.scroll_to is None,
    }
}

/// What a click on the node `target` does to the chooser.
pub open spec fn menu_click_step(
    v0: VirtualTableView,
    n0: Nodes,
    v1: VirtualTableView,
    n1: Nodes,
    target: NodeId,
    changed: bool,
) -> bool {
    match (v0.menu, v0.chip, v0.frame) {
        (Some(m), Some(chip), Some(f)) => {
            &&& changed == !is_within(n0, m.node, target)
            &&& if changed {
                v1 == (VirtualTableView { menu: None, ..v0 }) && n1 == all_marked(
                    dropped(n0, m.node),
                    open_marks(chip, f.table, false),
                )
            } else {
                v1 == v0 && n1 == n0
            }
        },
        (None, Some(chip), _) => {
            &&& changed == is_within(n0, chip, target)
            &&& if changed {
                v1.menu matches Some(m) && v1 == (VirtualTableView { menu: v1.menu, ..v0 })
                    && m.cursor == 0 && m.items@.len() == v0.grid@.table.columns.len()
                    && menu_opened(n0, n1, v0, m)
            } else {
                v1 == v0 && n1 == n0
            }
        },
        _ => !changed && v1 == v0 && n1 == n0,
    }
}

} // verus!
