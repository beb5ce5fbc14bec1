//! Which cells are selected, and what each gesture makes of that.

use vstd::prelude::*;

use crate::selection::{SelectionMode, SelectionView};

verus! {

/// Does `x` lie from the lesser to the greater of two numbers?
pub open spec fn spans(a: usize, b: usize, x: usize) -> bool {
    (x >= a || x >= b) && (x <= a || x <= b)
}

/// Is a cell in the rectangle from one corner to the other?
pub open spec fn in_rectangle(
    from: (usize, usize),
    to: (usize, usize),
    row: usize,
    col: usize,
) -> bool {
    spans(from.0, to.0, row) && spans(from.1, to.1, col)
}

/// Where cells are selected, a cell is so exactly if everything is and it is not
/// excepted, or if it was toggled on, or if it is in the rectangle of the range.
pub proof fn cells_are_selected_one_by_one(
    s: SelectionView,
    row: usize,
    col: usize,
    key: Seq<char>,
)
    requires
        s.mode is Cell,
    ensures
        s.selects(row, col, key) <==> {
            ||| s.all && !s.except.contains((key, col))
            ||| s.explicit.contains((key, col))
            ||| s.anchor is Some && in_rectangle(s.anchor.unwrap(), s.head, row, col)
        },
{
}

/// Where rows are selected, every cell of a row is so exactly if everything is and
/// the row is not excepted, or if the row was toggled on, or if it is among those
/// of the range.
pub proof fn rows_are_selected_one_by_one(s: SelectionView, row: usize, col: usize, key: Seq<char>)
    requires
        s.mode is Row,
    ensures
        s.selects(row, col, key) <==> {
            ||| s.all && !s.except.contains((key, 0))
            ||| s.explicit.contains((key, 0))
            ||| s.anchor is Some && spans(s.anchor.unwrap().0, s.head.0, row)
        },
{
}

/// A selection without a mode selects nothing, and one with a mode is active
/// exactly if everything, some toggled cell or a range is selected.
pub proof fn activity_means_selection(s: SelectionView)
    requires
        s.explicit.finite(),
    ensures
        s.mode is Off ==> !s.active(),
        !(s.mode is Off) ==> (s.active() <==> s.all || s.anchor is Some || exists|
            id: (Seq<char>, usize),
        | s.explicit.contains(id)),
{
    if exists|id: (Seq<char>, usize)| s.explicit.contains(id) {
        let id = choose|id: (Seq<char>, usize)| s.explicit.contains(id);
        assert(s.explicit.len() > 0) by {
            if s.explicit.len() == 0 {
                assert(s.explicit =~= Set::empty());
            }
        }
    } else {
        assert(s.explicit =~= Set::empty());
    }
}

/// Toggling adds what was not toggled and takes back what was, of the cell alone,
/// or of its row where rows are selected; while everything is selected it is the
/// exceptions that change.
pub proof fn toggling_changes_one_mark(
    s: SelectionView,
    key: Seq<char>,
    col: usize,
    id: (Seq<char>, usize),
)
    requires
        !(s.mode is Off),
    ensures
        ({
            let own = if s.mode is Row {
                (key, 0usize)
            } else {
                (key, col)
            };
            let t = s.toggled(key, col);
            &&& t.mode == s.mode && t.anchor == s.anchor && t.head == s.head && t.all == s.all
            &&& s.all ==> t.explicit == s.explicit && (t.except.contains(id) <==> (
            s.except.contains(id) != (id == own)))
            &&& !s.all ==> t.except == s.except && (t.explicit.contains(id) <==> (
            s.explicit.contains(id) != (id == own)))
        }),
{
}

/// Extending sets the end of the range, and its beginning if there was none; the
/// toggled cells stay, and a select-all ends.
pub proof fn extending_moves_the_end(s: SelectionView, from: (usize, usize), to: (usize, usize))
    requires
        !(s.mode is Off),
    ensures
        ({
            let t = s.extended(from, to);
            &&& t.mode == s.mode
            &&& t.anchor is Some
            &&& s.anchor is Some ==> t.anchor == s.anchor
            &&& s.anchor is None ==> t.anchor == Some(from)
            &&& t.head == to
            &&& t.explicit == s.explicit
            &&& !t.all
            &&& forall|id: (Seq<char>, usize)| !#[trigger] t.except.contains(id)
        }),
{
}

/// Collapsing ends the range and a select-all, and leaves the toggled cells as the
/// only ones selected.
pub proof fn collapsing_leaves_the_toggled_cells(s: SelectionView)
    ensures
        s.collapsed().mode == s.mode,
        s.collapsed().anchor is None,
        !s.collapsed().all,
        s.collapsed().explicit == s.explicit,
{
}

/// Clearing leaves nothing selected, and selecting everything leaves nothing else
/// held and nothing excepted.
pub proof fn clearing_and_selecting_all(s: SelectionView, id: (Seq<char>, usize))
    ensures
        s.cleared().mode == s.mode,
        s.cleared().anchor is None,
        !s.cleared().all,
        !s.cleared().explicit.contains(id),
        !(s.mode is Off) ==> {
            &&& s.everything().mode == s.mode
            &&& s.everything().all
            &&& s.everything().anchor is None
            &&& !s.everything().explicit.contains(id)
            &&& !s.everything().except.contains(id)
        },
{
}

/// Is `id` that of a cell of the range whose row is known?
pub open spec fn names_range_cell(
    s: SelectionView,
    key_at: spec_fn(usize) -> Option<Seq<char>>,
    id: (Seq<char>, usize),
) -> bool {
    exists|row: usize, col: usize|
        {
            &&& s.anchor is Some
            &&& spans(s.anchor.unwrap().0, s.head.0, row)
            &&& s.mode is Cell ==> spans(s.anchor.unwrap().1, s.head.1, col)
            &&& #[trigger] key_at(row) == Some(id.0)
            &&& #[trigger] held_under(s.mode, id.1, col)
        }
}

/// Is a cell of column `col` held under the column `held`? A row is held under
/// column 0.
pub open spec fn held_under(mode: SelectionMode, held: usize, col: usize) -> bool {
    if mode is Row {
        held == 0
    } else {
        held == col
    }
}

proof fn lemma_range_ids(
    s: SelectionView,
    key_at: spec_fn(usize) -> Option<Seq<char>>,
    id: (Seq<char>, usize),
)
    requires
        s.anchor is Some,
        !(s.mode is Off),
    ensures
        s.range_ids(key_at).contains(id) == names_range_cell(s, key_at, id),
{
    if s.range_ids(key_at).contains(id) {
        let (r, c) = choose|r: usize, c: usize|
            #![trigger s.in_range(r, c)]
            s.in_range(r, c) && key_at(r) is Some && id == s.id(key_at(r).unwrap(), c);
        assert(key_at(r) == Some(id.0));
        assert(held_under(s.mode, id.1, c));
    }
    if names_range_cell(s, key_at, id) {
        let (r, c) = choose|row: usize, col: usize|
            {
                &&& s.anchor is Some
                &&& spans(s.anchor.unwrap().0, s.head.0, row)
                &&& s.mode is Cell ==> spans(s.anchor.unwrap().1, s.head.1, col)
                &&& #[trigger] key_at(row) == Some(id.0)
                &&& #[trigger] held_under(s.mode, id.1, col)
            };
        assert(s.in_range(r, c));
    }
}

/// Committing a range ends it. Where all of its known cells were toggled on they
/// are taken back; else they are all toggled on. No other cell changes.
pub proof fn committing_toggles_the_range_as_one(
    s: SelectionView,
    key_at: spec_fn(usize) -> Option<Seq<char>>,
    id: (Seq<char>, usize),
)
    requires
        !(s.mode is Off),
        s.anchor is Some,
    ensures
        ({
            let t = s.range_toggled(key_at);
            let all_on = forall|k: (Seq<char>, usize)|
                #[trigger] names_range_cell(s, key_at, k) ==> s.explicit.contains(k);
            &&& t.mode == s.mode && t.all == s.all && t.except == s.except
            &&& t.anchor is None
            &&& !names_range_cell(s, key_at, id) ==> (t.explicit.contains(id)
                <==> s.explicit.contains(id))
            &&& names_range_cell(s, key_at, id) ==> (t.explicit.contains(id) <==> !all_on)
        }),
{
    let ids = s.range_ids(key_at);
    assert forall|k: (Seq<char>, usize)| #[trigger] ids.contains(k) == names_range_cell(
        s,
        key_at,
        k,
    ) by {
        lemma_range_ids(s, key_at, k);
    }
    let all_on = forall|k: (Seq<char>, usize)|
        #[trigger] names_range_cell(s, key_at, k) ==> s.explicit.contains(k);
    if all_on {
        assert forall|k: (Seq<char>, usize)| ids.contains(k) implies s.explicit.contains(k) by {
            assert(names_range_cell(s, key_at, k));
        }
        assert(ids.subset_of(s.explicit));
    } else {
        let k = choose|k: (Seq<char>, usize)| #[trigger]
            names_range_cell(s, key_at, k) && !s.explicit.contains(k);
        assert(ids.contains(k));
        assert(!ids.subset_of(s.explicit));
    }
    assert(ids.contains(id) == names_range_cell(s, key_at, id));
    if names_range_cell(s, key_at, id) {
        assert(ids.contains(id));
        assert(ids != Set::<(Seq<char>, usize)>::empty());
    }
}

} // verus!
