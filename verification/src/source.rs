//! The windowed data source of a view: the total, the deltas that a consumer
//! pushes, and the requests that it takes.

use rdom_tui::TuiDom;
use vstd::prelude::*;

use crate::data::Delta;
use crate::dom::{dom_nodes, no_style, scroll_top, set_box, with_style, BoxSize, BoxStyle};
use crate::clear::lemma_shape_kept;
use crate::grid::{request_view, state_view, GridView};
use crate::state::TableState;
use crate::view::{
    body_top, lemma_shape_ready, refreshed, same_nodes, stays_ready, window_shown,
    VirtualTableView,
};
use crate::window::WindowRequest;

verus! {

impl VirtualTableView {
    /// Show the rows on show anew, as many as there are.
    pub fn refresh(&mut self, dom: &mut TuiDom)
        requires
            old(self).wf(),
            old(self).ready(*old(dom), old(self).window.rows@.len() as int),
            old(self).grid@.buffer.epoch < u64::MAX,
        ensures
            final(self).wf(),
            stays_ready(*old(self), *old(dom), *final(self), *final(dom)),
            refreshed(
                dom_nodes(*old(dom)),
                dom_nodes(*final(dom)),
                old(self).frame,
                old(self).window,
                final(self).window,
                old(self).grid@,
                final(self).grid@,
                old(self).window.rows@.len() as usize,
            ),
    {
        let start: usize = self.grid.window_start;
        let count: usize = self.window.rows.len();
        self.show_window(dom, start, count);
    }

    /// Show the window anew, as many rows as the viewport has or are at hand.
    fn rerender_current(&mut self, dom: &mut TuiDom)
        requires
            old(self).wf(),
            old(self).ready(*old(dom), old(self).grid@.current_count()),
            old(self).grid@.buffer.epoch < u64::MAX,
        ensures
            final(self).wf(),
            stays_ready(*old(self), *old(dom), *final(self), *final(dom)),
            refreshed(
                dom_nodes(*old(dom)),
                dom_nodes(*final(dom)),
                old(self).frame,
                old(self).window,
                final(self).window,
                old(self).grid@,
                final(self).grid@,
                old(self).grid@.current_count() as usize,
            ),
    {
        let start: usize = self.grid.window_start;
        let count: usize = self.grid.current_count();
        self.show_window(dom, start, count);
    }

    /// The current window epoch, to be handed back with the rows of a request.
    pub fn window_epoch(&self) -> (r: u64)
        ensures
            r == self.grid@.buffer.epoch,
    {
        self.grid.buffer.epoch()
    }

    /// Set the number of rows of the result. From then on a windowed source
    /// fills the buffer. A window that starts past the last row is moved up to
    /// show the last rows.
    pub fn set_total(&mut self, dom: &mut TuiDom, total: usize)
        requires
            old(self).wf(),
            old(self).ready_for(
                *old(dom),
                old(self).grid@.with_total(total),
                old(self).grid@.with_total(total).current_count(),
            ),
            old(self).grid@.buffer.epoch < u64::MAX,
        ensures
            final(self).wf(),
            stays_ready(*old(self), *old(dom), *final(self), *final(dom)),
            refreshed(
                dom_nodes(*old(dom)),
                dom_nodes(*final(dom)),
                old(self).frame,
                old(self).window,
                final(self).window,
                old(self).grid@.with_total(total),
                final(self).grid@,
                old(self).grid@.with_total(total).current_count() as usize,
            ),
    {
        self.grid.set_total(total);
        self.rerender_current(dom);
    }

    /// Apply a delta of window `epoch`. One of another epoch is dropped: nothing
    /// changes. From the first that is taken on, a windowed source fills the
    /// buffer.
    pub fn apply(&mut self, dom: &mut TuiDom, epoch: u64, delta: Delta)
        requires
            old(self).wf(),
            epoch == old(self).grid@.buffer.epoch ==> epoch < u64::MAX && (delta matches
                Delta::Resync { start, rows } ==> start + rows@.len() <= usize::MAX + 1)
                && old(self).ready_for(
                *old(dom),
                old(self).grid@.after_delta(epoch, delta),
                old(self).grid@.after_delta(epoch, delta).current_count(),
            ),
        ensures
            final(self).wf(),
            epoch != old(self).grid@.buffer.epoch ==> *final(dom) == *old(dom) && final(self).grid@
                == old(self).grid@ && same_nodes(*old(self), *final(self)),
            epoch == old(self).grid@.buffer.epoch ==> stays_ready(
                *old(self),
                *old(dom),
                *final(self),
                *final(dom),
            ) && refreshed(
                dom_nodes(*old(dom)),
                dom_nodes(*final(dom)),
                old(self).frame,
                old(self).window,
                final(self).window,
                old(self).grid@.after_delta(epoch, delta),
                final(self).grid@,
                old(self).grid@.after_delta(epoch, delta).current_count() as usize,
            ),
    {
        if self.grid.accept(epoch, delta) {
            self.rerender_current(dom);
        }
    }

    /// Drop the buffered rows and request the window anew; placeholders show
    /// until the rows come.
    pub fn invalidate(&mut self, dom: &mut TuiDom)
        requires
            old(self).wf(),
            old(self).ready_for(
                *old(dom),
                old(self).grid@.invalidated(),
                old(self).grid@.invalidated().current_count(),
            ),
            old(self).grid@.buffer.epoch < u64::MAX - 1,
        ensures
            final(self).wf(),
            stays_ready(*old(self), *old(dom), *final(self), *final(dom)),
            refreshed(
                dom_nodes(*old(dom)),
                dom_nodes(*final(dom)),
                old(self).frame,
                old(self).window,
                final(self).window,
                old(self).grid@.invalidated(),
                final(self).grid@,
                old(self).grid@.invalidated().current_count() as usize,
            ),
    {
        self.grid.forget_window();
        let start: usize = self.grid.window_start;
        let count: usize = self.grid.current_count();
        self.grid.request_window(start, count, true);
        self.rerender_current(dom);
    }

    /// Have window requests put down for somebody to take. From then on a
    /// windowed source fills the buffer.
    pub fn on_window_change(&mut self)
        requires
            old(self).wf(),
        ensures
            final(self).wf(),
            final(self).grid@ == (GridView { listening: true, ..old(self).grid@.sourced() }),
            same_nodes(*old(self), *final(self)),
    {
        self.grid.take_source();
        self.grid.listening = true;
    }

    /// Take the window requests that were put down.
    pub fn take_requests(&mut self) -> (r: Vec<WindowRequest>)
        requires
            old(self).wf(),
        ensures
            final(self).wf(),
            Seq::new(r@.len(), |i: int| request_view(r@[i])) == old(self).grid@.requests,
            final(self).grid@ == (GridView { requests: Seq::empty(), ..old(self).grid@ }),
            same_nodes(*old(self), *final(self)),
    {
        let mut out: Vec<WindowRequest> = Vec::new();
        std::mem::swap(&mut out, &mut self.grid.requests);
        assert(self.grid@.requests =~= Seq::empty());
        out
    }

    /// Have layout changes put down for somebody to take.
    pub fn on_state_change(&mut self)
        requires
            old(self).wf(),
        ensures
            final(self).wf(),
            final(self).grid@ == (GridView { watching: true, ..old(self).grid@ }),
            same_nodes(*old(self), *final(self)),
    {
        self.grid.watching = true;
    }

    /// Take the layout changes that were put down.
    pub fn take_state_changes(&mut self) -> (r: Vec<TableState>)
        requires
            old(self).wf(),
        ensures
            final(self).wf(),
            Seq::new(r@.len(), |i: int| state_view(r@[i])) == old(self).grid@.changes,
            final(self).grid@ == (GridView { changes: Seq::empty(), ..old(self).grid@ }),
            same_nodes(*old(self), *final(self)),
    {
        let mut out: Vec<TableState> = Vec::new();
        std::mem::swap(&mut out, &mut self.grid.changes);
        assert(self.grid@.changes =~= Seq::empty());
        out
    }

    /// Let the body scroll by itself, as tall as the viewport; spacers stand for
    /// the rows above and below the window. Nothing happens before the table is
    /// mounted.
    pub fn enable_scrollbar(&mut self, dom: &mut TuiDom)
        requires
            old(self).wf(),
            old(self).ready(*old(dom), old(self).grid@.viewport_rows as int),
            old(self).grid@.buffer.epoch < u64::MAX,
        ensures
            final(self).wf(),
            stays_ready(*old(self), *old(dom), *final(self), *final(dom)),
            (match old(self).frame {
                Some(f) => refreshed(
                    with_style(
                        dom_nodes(*old(dom)),
                        f.tbody,
                        BoxStyle {
                            height: Some(BoxSize::Fixed(old(self).grid@.viewport_rows)),
                            scroll_y: true,
                            ..no_style()
                        },
                    ),
                    dom_nodes(*final(dom)),
                    old(self).frame,
                    old(self).window,
                    final(self).window,
                    (GridView { scroll_mode: true, ..old(self).grid@ }),
                    final(self).grid@,
                    old(self).grid@.viewport_rows as usize,
                ),
                None => *final(dom) == *old(dom) && final(self).grid@ == old(self).grid@
                    && final(self).window == old(self).window,
            }),
    {
        let tbody = match &self.frame {
            Some(f) => f.tbody,
            None => {
                return;
            },
        };
        let ghost before = dom_nodes(*dom);
        let rows: u16 = self.grid.viewport_rows;
        set_box(dom, tbody, rows, true);
        self.grid.scroll_mode = true;
        proof {
            let style = BoxStyle {
                height: Some(BoxSize::Fixed(rows)),
                scroll_y: true,
                ..no_style()
            };
            lemma_shape_kept(before, tbody, ""@, None, ""@, style, Map::empty());
            lemma_shape_ready(before, dom_nodes(*dom), *old(self), *self);
        }
        let start: usize = self.grid.window_start;
        self.show_window(dom, start, rows as usize);
    }

    /// Show the window at which the body is scrolled; `false` if it is on show
    /// already or the table is not mounted.
    pub fn on_scroll(&mut self, dom: &mut TuiDom) -> (r: bool)
        requires
            old(self).wf(),
            old(self).ready(*old(dom), old(self).grid@.viewport_rows as int),
            old(self).grid@.buffer.epoch < u64::MAX,
        ensures
            final(self).wf(),
            stays_ready(*old(self), *old(dom), *final(self), *final(dom)),
            r == (match old(self).frame {
                Some(f) => body_top(dom_nodes(*old(dom)), f.tbody) != old(self).grid@.window_start,
                None => false,
            }),
            (match old(self).frame {
                Some(f) => {
                    let top = body_top(dom_nodes(*old(dom)), f.tbody);
                    if r {
                        final(self).grid@ == old(self).grid@.shown(
                            top as usize,
                            old(self).grid@.viewport_rows as usize,
                        ) && window_shown(
                            dom_nodes(*old(dom)),
                            dom_nodes(*final(dom)),
                            old(self).frame,
                            old(self).window,
                            final(self).window,
                            final(self).grid@,
                            top,
                            old(self).grid@.viewport_rows as int,
                        )
                    } else {
                        *final(dom) == *old(dom) && final(self).grid@ == old(self).grid@
                            && final(self).window == old(self).window
                    }
                },
                None => *final(dom) == *old(dom) && final(self).grid@ == old(self).grid@
                    && final(self).window == old(self).window,
            }),
    {
        let tbody = match &self.frame {
            Some(f) => f.tbody,
            None => {
                return false;
            },
        };
        let top: usize = match scroll_top(dom, tbody) {
            Some(t) => if t > 0 {
                t as usize
            } else {
                0
            },
            None => 0,
        };
        if top == self.grid.window_start {
            return false;
        }
        let rows: usize = self.grid.viewport_rows as usize;
        self.show_window(dom, top, rows);
        true
    }
}

} // verus!
