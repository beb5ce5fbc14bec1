//! The selection model of a grid.
//!
//! The durable selection, the individually toggled cells and the select-all
//! predicate, is keyed by row identity, so a selected row stays selected when
//! it scrolls or changes its place. Only the range being extended is
//! positional; a plain cursor move collapses it.

use vstd::prelude::*;

use crate::data::RowKey;

verus! {

/// How the table selects, or whether it does at all.
#[derive(Clone, Copy, Debug, PartialEq, Eq, Structural)]
pub enum SelectionMode {
    /// Selection is disabled.
    Off,
    /// A rectangular `(row, col)` range and toggled cells.
    Cell,
    /// Whole rows; the column is ignored.
    Row,
}

impl Default for SelectionMode {
    fn default() -> (r: Self)
        ensures
            r == SelectionMode::Off,
    {
        SelectionMode::Off
    }
}

/// A durable selection key: a row's identity and a column. In `Row` mode the
/// column is 0.
pub type CellKey = (RowKey, usize);

/// The mathematical value of a selection key.
pub open spec fn key_view(k: CellKey) -> (Seq<char>, usize) {
    (k.0@, k.1)
}

/// The mathematical values of a list of selection keys.
pub open spec fn key_views(keys: Seq<CellKey>) -> Seq<(Seq<char>, usize)> {
    Seq::new(keys.len(), |i: int| key_view(keys[i]))
}

/// The set of keys that a list holds.
pub open spec fn key_set(keys: Seq<CellKey>) -> Set<(Seq<char>, usize)> {
    key_views(keys).to_set()
}

/// A selection over a grid: the union of the range from `anchor` to `head`,
/// the `explicit` cells, and, while `all` is set, everything but `except`.
#[derive(Debug)]
pub struct GridSelection {
    mode: SelectionMode,
    anchor: Option<(usize, usize)>,
    head: (usize, usize),
    explicit: Vec<CellKey>,
    all: bool,
    except: Vec<CellKey>,
}

/// A selection as a mathematical value.
#[verifier::ext_equal]
pub struct SelectionView {
    pub mode: SelectionMode,
    pub anchor: Option<(usize, usize)>,
    pub head: (usize, usize),
    pub explicit: Set<(Seq<char>, usize)>,
    pub all: bool,
    pub except: Set<(Seq<char>, usize)>,
}

/// Does `x` lie between `a` and `b`, whichever of the two is greater?
pub open spec fn between(a: usize, x: usize, b: usize) -> bool {
    a <= x <= b || b <= x <= a
}

impl SelectionView {
    /// A selection of nothing.
    pub open spec fn nothing(mode: SelectionMode) -> SelectionView {
        SelectionView {
            mode,
            anchor: None,
            head: (0, 0),
            explicit: Set::empty(),
            all: false,
            except: Set::empty(),
        }
    }

    /// The identity under which a cell is selected: `Row` mode ignores the
    /// column.
    pub open spec fn id(self, key: Seq<char>, col: usize) -> (Seq<char>, usize) {
        match self.mode {
            SelectionMode::Row => (key, 0),
            _ => (key, col),
        }
    }

    /// Is anything selected?
    pub open spec fn active(self) -> bool {
        self.mode != SelectionMode::Off && (self.all || self.explicit.len() > 0
            || self.anchor is Some)
    }

    /// Does the cell `(row, col)` lie in the range being extended?
    pub open spec fn in_range(self, row: usize, col: usize) -> bool {
        match self.anchor {
            Some((ar, ac)) => between(ar, row, self.head.0) && (self.mode == SelectionMode::Row
                || between(ac, col, self.head.1)),
            None => false,
        }
    }

    /// Is the cell `(row, col)` of the row with identity `key` selected?
    pub open spec fn selects(self, row: usize, col: usize, key: Seq<char>) -> bool {
        let id = self.id(key, col);
        self.mode != SelectionMode::Off && ((self.all && !self.except.contains(id))
            || self.explicit.contains(id) || self.in_range(row, col))
    }

    /// The selection with its range extended to `to`, begun at `from` where
    /// none was.
    pub open spec fn extended(self, from: (usize, usize), to: (usize, usize)) -> SelectionView {
        if self.mode == SelectionMode::Off {
            self
        } else {
            SelectionView {
                anchor: if self.anchor is None {
                    Some(from)
                } else {
                    self.anchor
                },
                head: to,
                all: false,
                except: Set::empty(),
                ..self
            }
        }
    }

    /// The selection with one cell toggled.
    pub open spec fn toggled(self, key: Seq<char>, col: usize) -> SelectionView {
        let id = self.id(key, col);
        if self.mode == SelectionMode::Off {
            self
        } else if self.all {
            SelectionView { except: flipped(self.except, id), ..self }
        } else {
            SelectionView { explicit: flipped(self.explicit, id), ..self }
        }
    }

    /// The cells of the range, by identity: those whose row `key_at` resolves.
    pub open spec fn range_ids(
        self,
        key_at: spec_fn(usize) -> Option<Seq<char>>,
    ) -> Set<(Seq<char>, usize)> {
        Set::new(
            |id: (Seq<char>, usize)|
                exists|r: usize, c: usize|
                    #![trigger self.in_range(r, c)]
                    self.in_range(r, c) && key_at(r) is Some && id == self.id(
                        key_at(r).unwrap(),
                        c,
                    ),
        )
    }

    /// The identities of one row's cells in the columns from `c0` below `c1`.
    pub open spec fn row_ids(self, key: Seq<char>, c0: usize, c1: int) -> Set<(Seq<char>, usize)> {
        Set::new(
            |id: (Seq<char>, usize)|
                exists|c: usize|
                    #![trigger self.id(key, c)]
                    c0 <= c < c1 && id == self.id(key, c),
        )
    }

    /// The identities of the cells in the columns `c0..=c1` of the rows from
    /// `lo` below `hi` that `key_at` resolves.
    pub open spec fn block(
        self,
        key_at: spec_fn(usize) -> Option<Seq<char>>,
        lo: int,
        hi: int,
        c0: usize,
        c1: usize,
    ) -> Set<(Seq<char>, usize)> {
        Set::new(
            |id: (Seq<char>, usize)|
                exists|x: usize, c: usize|
                    #![trigger self.id(key_at(x).unwrap(), c)]
                    lo <= x < hi && c0 <= c <= c1 && key_at(x) is Some && id == self.id(
                        key_at(x).unwrap(),
                        c,
                    ),
        )
    }

    /// The selection with its range committed as a unit: taken out of the
    /// explicit cells where they hold all of it, else put in.
    pub open spec fn range_toggled(
        self,
        key_at: spec_fn(usize) -> Option<Seq<char>>,
    ) -> SelectionView {
        if self.mode == SelectionMode::Off || self.anchor is None {
            self
        } else {
            let ids = self.range_ids(key_at);
            SelectionView {
                explicit: if ids != Set::<(Seq<char>, usize)>::empty() && ids.subset_of(
                    self.explicit,
                ) {
                    self.explicit.difference(ids)
                } else {
                    self.explicit.union(ids)
                },
                anchor: None,
                ..self
            }
        }
    }

    /// The selection of everything.
    pub open spec fn everything(self) -> SelectionView {
        if self.mode == SelectionMode::Off {
            self
        } else {
            SelectionView {
                all: true,
                except: Set::empty(),
                anchor: None,
                explicit: Set::empty(),
                ..self
            }
        }
    }

    /// The selection without anything selected.
    pub open spec fn cleared(self) -> SelectionView {
        SelectionView {
            anchor: None,
            explicit: Set::empty(),
            all: false,
            except: Set::empty(),
            ..self
        }
    }

    /// The selection without its range and its select-all predicate.
    pub open spec fn collapsed(self) -> SelectionView {
        SelectionView { anchor: None, all: false, except: Set::empty(), ..self }
    }
}

/// `s` with `id` taken out if it was in, and put in if it was not.
pub open spec fn flipped<A>(s: Set<A>, id: A) -> Set<A> {
    if s.contains(id) {
        s.remove(id)
    } else {
        s.insert(id)
    }
}

/// Does the function `f` resolve rows to identities as `key_at` does?
pub open spec fn resolves_as<F: Fn(usize) -> Option<RowKey>>(
    f: F,
    key_at: spec_fn(usize) -> Option<Seq<char>>,
) -> bool {
    forall|r: usize, k: Option<RowKey>| #[trigger]
        call_ensures(f, (r,), k) ==> match k {
            Some(key) => key_at(r) == Some(key@),
            None => key_at(r) is None,
        }
}

proof fn lemma_pushed(keys: Seq<CellKey>, k: CellKey)
    ensures
        key_set(keys.push(k)) == key_set(keys).insert(key_view(k)),
{
    let before = key_views(keys);
    let after = key_views(keys.push(k));
    assert forall|id: (Seq<char>, usize)|
        after.to_set().contains(id) == before.to_set().insert(key_view(k)).contains(id) by {
        if before.contains(id) {
            let i = choose|i: int| 0 <= i < before.len() && before[i] == id;
            assert(after[i] == id);
        }
        if id == key_view(k) {
            assert(after[before.len() as int] == id);
        }
        if after.contains(id) {
            let i = choose|i: int| 0 <= i < after.len() && after[i] == id;
            if i < before.len() {
                assert(before[i] == id);
            }
        }
    }
    assert(after.to_set() =~= before.to_set().insert(key_view(k)));
}

proof fn lemma_taken(keys: Seq<CellKey>, i: int)
    requires
        0 <= i < keys.len(),
    ensures
        key_set(keys.take(i + 1)) == key_set(keys.take(i)).insert(key_view(keys[i])),
{
    assert(keys.take(i + 1) =~= keys.take(i).push(keys[i]));
    lemma_pushed(keys.take(i), keys[i]);
}

proof fn lemma_all_in(keys: Seq<CellKey>, s: Set<(Seq<char>, usize)>)
    ensures
        key_set(keys).subset_of(s) == forall|j: int|
            0 <= j < keys.len() ==> s.contains(#[trigger] key_views(keys)[j]),
        (key_set(keys) == Set::<(Seq<char>, usize)>::empty()) == (keys.len() == 0),
{
    if key_set(keys).subset_of(s) {
        assert forall|j: int| 0 <= j < keys.len() implies s.contains(
            #[trigger] key_views(keys)[j],
        ) by {
            assert(key_set(keys).contains(key_views(keys)[j]));
        }
    }
    if keys.len() == 0 {
        assert(key_set(keys) =~= Set::empty());
    } else {
        assert(key_set(keys).contains(key_views(keys)[0]));
    }
}

/// The place of `k` in `keys`.
fn find(keys: &Vec<CellKey>, k: &CellKey) -> (r: Option<usize>)
    ensures
        (match r {
            Some(i) => i < keys@.len() && key_view(keys@[i as int]) == key_view(*k)
                && key_set(keys@).contains(key_view(*k)),
            None => !key_set(keys@).contains(key_view(*k)),
        }),
{
    let mut i: usize = 0;
    while i < keys.len()
        invariant
            i <= keys@.len(),
            forall|j: int| 0 <= j < i ==> key_view(#[trigger] keys@[j]) != key_view(*k),
        decreases keys@.len() - i,
    {
        if keys[i].1 == k.1 && keys[i].0 == k.0 {
            assert(key_views(keys@)[i as int] == key_view(*k));
            return Some(i);
        }
        i = i + 1;
    }
    assert forall|j: int| 0 <= j < key_views(keys@).len() implies key_views(keys@)[j] != key_view(
        *k,
    ) by {
        assert(key_view(keys@[j]) != key_view(*k));
    }
    None
}

/// Put `k` into `keys`, unless it is in.
fn put(keys: &mut Vec<CellKey>, k: CellKey)
    requires
        key_views(old(keys)@).no_duplicates(),
    ensures
        key_views(final(keys)@).no_duplicates(),
        key_set(final(keys)@) == key_set(old(keys)@).insert(key_view(k)),
{
    match find(keys, &k) {
        Some(_) => {
            assert(key_set(keys@) =~= key_set(keys@).insert(key_view(k)));
        },
        None => {
            keys.push(k);
            proof {
                lemma_pushed(old(keys)@, k);
                assert(key_views(keys@) =~= key_views(old(keys)@).push(key_view(k)));
            }
        },
    }
}

/// Take `k` out of `keys`; `false` if it was not in.
fn take_out(keys: &mut Vec<CellKey>, k: &CellKey) -> (r: bool)
    requires
        key_views(old(keys)@).no_duplicates(),
    ensures
        key_views(final(keys)@).no_duplicates(),
        r == key_set(old(keys)@).contains(key_view(*k)),
        key_set(final(keys)@) == key_set(old(keys)@).remove(key_view(*k)),
{
    match find(keys, k) {
        Some(at) => {
            let ghost before = key_views(keys@);
            keys.remove(at);
            proof {
                let after = key_views(keys@);
                assert(after =~= before.remove(at as int));
                assert(before[at as int] == key_view(*k));
                assert forall|id: (Seq<char>, usize)|
                    after.to_set().contains(id) == before.to_set().remove(key_view(*k)).contains(
                        id,
                    ) by {
                    if before.contains(id) && id != key_view(*k) {
                        let i = choose|i: int| 0 <= i < before.len() && before[i] == id;
                        if i < at {
                            assert(after[i] == id);
                        } else {
                            assert(after[i - 1] == id);
                        }
                    }
                    if after.contains(id) {
                        let i = choose|i: int| 0 <= i < after.len() && after[i] == id;
                        if i < at {
                            assert(before[i] == id);
                        } else {
                            assert(before[i + 1] == id);
                        }
                    }
                }
                assert(after.to_set() =~= before.to_set().remove(key_view(*k)));
            }
            true
        },
        None => {
            assert(key_set(keys@) =~= key_set(keys@).remove(key_view(*k)));
            false
        },
    }
}

impl View for GridSelection {
    type V = SelectionView;

    closed spec fn view(&self) -> SelectionView {
        SelectionView {
            mode: self.mode,
            anchor: self.anchor,
            head: self.head,
            explicit: key_set(self.explicit@),
            all: self.all,
            except: key_set(self.except@),
        }
    }
}

/// A copy of a list of keys.
fn copied(keys: &Vec<CellKey>) -> (r: Vec<CellKey>)
    ensures
        r@ == keys@,
{
    let mut out: Vec<CellKey> = Vec::new();
    let mut i: usize = 0;
    while i < keys.len()
        invariant
            i <= keys@.len(),
            out@ == keys@.take(i as int),
        decreases keys@.len() - i,
    {
        out.push((keys[i].0.clone(), keys[i].1));
        i = i + 1;
        assert(out@ =~= keys@.take(i as int));
    }
    assert(out@ =~= keys@);
    out
}

impl Clone for GridSelection {
    fn clone(&self) -> (r: Self)
        ensures
            r@ == self@,
            self.wf() ==> r.wf(),
    {
        GridSelection {
            mode: self.mode,
            anchor: self.anchor,
            head: self.head,
            explicit: copied(&self.explicit),
            all: self.all,
            except: copied(&self.except),
        }
    }
}

impl Default for GridSelection {
    fn default() -> (r: Self)
        ensures
            r.wf(),
            r@ == SelectionView::nothing(SelectionMode::Off),
    {
        GridSelection::new(SelectionMode::Off)
    }
}

impl GridSelection {
    /// No key is held twice.
    pub closed spec fn wf(&self) -> bool {
        key_views(self.explicit@).no_duplicates() && key_views(self.except@).no_duplicates()
    }

    pub fn new(mode: SelectionMode) -> (r: Self)
        ensures
            r.wf(),
            r@ == SelectionView::nothing(mode),
    {
        let r = GridSelection {
            mode,
            anchor: None,
            head: (0, 0),
            explicit: Vec::new(),
            all: false,
            except: Vec::new(),
        };
        assert(key_set(r.explicit@) =~= Set::empty());
        r
    }

    pub fn mode(&self) -> (r: SelectionMode)
        ensures
            r == self@.mode,
    {
        self.mode
    }

    /// Change the mode, which clears the selection.
    pub fn set_mode(&mut self, mode: SelectionMode)
        ensures
            final(self).wf(),
            final(self)@ == (SelectionView { mode, ..old(self)@.cleared() }),
    {
        self.mode = mode;
        self.clear();
    }

    /// Is anything selected?
    pub fn is_active(&self) -> (r: bool)
        ensures
            r == self@.active(),
    {
        proof {
            if self.explicit@.len() > 0 {
                assert(key_set(self.explicit@).contains(key_views(self.explicit@)[0]));
            } else {
                assert(key_set(self.explicit@) =~= Set::empty());
            }
        }
        self.mode != SelectionMode::Off && (self.all || self.explicit.len() > 0
            || self.anchor.is_some())
    }

    /// Is the select-all predicate active?
    pub fn is_all(&self) -> (r: bool)
        ensures
            r == self@.all,
    {
        self.all
    }

    /// Where the range starts, if there is one.
    pub fn anchor(&self) -> (r: Option<(usize, usize)>)
        ensures
            r == self@.anchor,
    {
        self.anchor
    }

    /// The explicitly toggled cells, each once.
    pub fn explicit(&self) -> (r: &Vec<CellKey>)
        requires
            self.wf(),
        ensures
            key_set(r@) == self@.explicit,
            key_views(r@).no_duplicates(),
    {
        &self.explicit
    }

    /// The cells excepted from the select-all predicate, each once.
    pub fn except(&self) -> (r: &Vec<CellKey>)
        requires
            self.wf(),
        ensures
            key_set(r@) == self@.except,
            key_views(r@).no_duplicates(),
    {
        &self.except
    }

    /// The identity under which a cell is selected.
    fn id_key(&self, key: &RowKey, col: usize) -> (r: CellKey)
        ensures
            key_view(r) == self@.id(key@, col),
    {
        match self.mode {
            SelectionMode::Row => (key.clone(), 0),
            _ => (key.clone(), col),
        }
    }

    /// Is the cell at view index `row`, column `col`, whose row identity is
    /// `key`, selected?
    pub fn is_selected(&self, row: usize, col: usize, key: &RowKey) -> (r: bool)
        ensures
            r == self@.selects(row, col, key@),
    {
        if self.mode == SelectionMode::Off {
            return false;
        }
        let k = self.id_key(key, col);
        if self.all && find(&self.except, &k).is_none() {
            return true;
        }
        if find(&self.explicit, &k).is_some() {
            return true;
        }
        match self.anchor {
            Some((ar, ac)) => {
                let (hr, hc) = self.head;
                let in_rows = (ar <= row && row <= hr) || (hr <= row && row <= ar);
                match self.mode {
                    SelectionMode::Row => in_rows,
                    _ => in_rows && ((ac <= col && col <= hc) || (hc <= col && col <= ac)),
                }
            },
            None => false,
        }
    }

    /// Extend the range: it begins at `from`, the cursor before the move, if
    /// none is active, and its head goes to `to`. A select-all is dropped.
    pub fn extend(&mut self, from: (usize, usize), to: (usize, usize))
        requires
            old(self).wf(),
        ensures
            final(self).wf(),
            final(self)@ == old(self)@.extended(from, to),
    {
        if self.mode == SelectionMode::Off {
            return;
        }
        if self.anchor.is_none() {
            self.anchor = Some(from);
        }
        self.head = to;
        self.all = false;
        self.except.clear();
        assert(key_set(self.except@) =~= Set::empty());
    }

    /// Toggle the cell `(key, col)`, or its row in `Row` mode. Under select-all
    /// the cell enters or leaves the exceptions, else the explicit cells.
    pub fn toggle(&mut self, key: RowKey, col: usize)
        requires
            old(self).wf(),
        ensures
            final(self).wf(),
            final(self)@ == old(self)@.toggled(key@, col),
    {
        if self.mode == SelectionMode::Off {
            return;
        }
        let k = self.id_key(&key, col);
        if self.all {
            if !take_out(&mut self.except, &k) {
                put(&mut self.except, k);
            }
        } else if !take_out(&mut self.explicit, &k) {
            put(&mut self.explicit, k);
        }
        assert(self@.except =~= old(self)@.toggled(key@, col).except);
        assert(self@.explicit =~= old(self)@.toggled(key@, col).explicit);
    }

    /// Select everything.
    pub fn select_all(&mut self)
        requires
            old(self).wf(),
        ensures
            final(self).wf(),
            final(self)@ == old(self)@.everything(),
    {
        if self.mode == SelectionMode::Off {
            return;
        }
        self.all = true;
        self.except.clear();
        self.anchor = None;
        self.explicit.clear();
        assert(key_set(self.except@) =~= Set::empty());
        assert(key_set(self.explicit@) =~= Set::empty());
    }

    /// Clear everything.
    pub fn clear(&mut self)
        ensures
            final(self).wf(),
            final(self)@ == old(self)@.cleared(),
    {
        self.anchor = None;
        self.explicit.clear();
        self.all = false;
        self.except.clear();
        assert(key_set(self.except@) =~= Set::empty());
        assert(key_set(self.explicit@) =~= Set::empty());
    }

    /// Drop the range and the select-all predicate, as a plain cursor move
    /// does. The explicitly toggled cells stay.
    pub fn collapse_transient(&mut self)
        requires
            old(self).wf(),
        ensures
            final(self).wf(),
            final(self)@ == old(self)@.collapsed(),
    {
        self.anchor = None;
        self.all = false;
        self.except.clear();
        assert(key_set(self.except@) =~= Set::empty());
    }

    /// Append the keys of one row's cells in the columns `c0..=c1`.
    fn add_row(&self, keys: &mut Vec<CellKey>, key: &RowKey, c0: usize, c1: usize)
        requires
            c0 <= c1,
        ensures
            key_set(final(keys)@) == key_set(old(keys)@).union(self@.row_ids(key@, c0, c1 + 1)),
    {
        let mut c: usize = c0;
        assert(key_set(keys@) =~= key_set(keys@).union(self@.row_ids(key@, c0, c0 as int)));
        while c < c1
            invariant
                c0 <= c <= c1,
                key_set(keys@) == key_set(old(keys)@).union(self@.row_ids(key@, c0, c as int)),
            decreases c1 - c,
        {
            self.add_cell(keys, key, c);
            c = c + 1;
            assert(key_set(keys@) =~= key_set(old(keys)@).union(
                self@.row_ids(key@, c0, c as int),
            ));
        }
        self.add_cell(keys, key, c);
        assert(key_set(keys@) =~= key_set(old(keys)@).union(self@.row_ids(key@, c0, c1 + 1)));
    }

    /// Append the key of one cell.
    fn add_cell(&self, keys: &mut Vec<CellKey>, key: &RowKey, col: usize)
        ensures
            key_set(final(keys)@) == key_set(old(keys)@).insert(self@.id(key@, col)),
    {
        let k = self.id_key(key, col);
        keys.push(k);
        proof {
            lemma_pushed(old(keys)@, k);
        }
    }

    /// The keys of the range, row by row. A row that `key_at` cannot resolve is
    /// left out.
    fn range_keys<F: Fn(usize) -> Option<RowKey>>(&self, key_at: &F) -> (keys: Vec<CellKey>)
        requires
            self@.mode != SelectionMode::Off,
            self@.anchor is Some,
            forall|r: usize| #[trigger] call_requires(*key_at, (r,)),
        ensures
            forall|m: spec_fn(usize) -> Option<Seq<char>>| #[trigger]
                resolves_as(*key_at, m) ==> key_set(keys@) == self@.range_ids(m),
    {
        let (ar, ac): (usize, usize) = match self.anchor {
            Some(a) => a,
            None => (0, 0),
        };
        let (hr, hc): (usize, usize) = self.head;
        let (r0, r1): (usize, usize) = if ar <= hr {
            (ar, hr)
        } else {
            (hr, ar)
        };
        let (c0, c1): (usize, usize) = match self.mode {
            SelectionMode::Row => (0, 0),
            _ => if ac <= hc {
                (ac, hc)
            } else {
                (hc, ac)
            },
        };
        let mut keys: Vec<CellKey> = Vec::new();
        let mut r: usize = r0;
        proof {
            assert forall|m: spec_fn(usize) -> Option<Seq<char>>| #[trigger]
                resolves_as(*key_at, m) implies key_set(keys@) == self@.block(
                m,
                r0 as int,
                r0 as int,
                c0,
                c1,
            ) by {
                assert(key_set(keys@) =~= self@.block(m, r0 as int, r0 as int, c0, c1));
            }
        }
        while r < r1
            invariant
                r0 <= r <= r1,
                c0 <= c1,
                forall|r: usize| #[trigger] call_requires(*key_at, (r,)),
                forall|m: spec_fn(usize) -> Option<Seq<char>>| #[trigger]
                    resolves_as(*key_at, m) ==> key_set(keys@) == self@.block(
                        m,
                        r0 as int,
                        r as int,
                        c0,
                        c1,
                    ),
            decreases r1 - r,
        {
            self.add_resolved(&mut keys, r0, r, c0, c1, key_at);
            r = r + 1;
        }
        self.add_resolved(&mut keys, r0, r, c0, c1, key_at);
        proof {
            assert forall|m: spec_fn(usize) -> Option<Seq<char>>| #[trigger]
                resolves_as(*key_at, m) implies key_set(keys@) == self@.range_ids(m) by {
                let got = self@.block(m, r0 as int, r1 + 1, c0, c1);
                let want = self@.range_ids(m);
                assert forall|id: (Seq<char>, usize)| got.contains(id) == want.contains(id) by {
                    if got.contains(id) {
                        let (x, c) = choose|x: usize, c: usize|
                            #![trigger self@.id(m(x).unwrap(), c)]
                            r0 <= x < r1 + 1 && c0 <= c <= c1 && m(x) is Some && id == self@.id(
                                m(x).unwrap(),
                                c,
                            );
                        assert(self@.in_range(x, c));
                    }
                    if want.contains(id) {
                        let (x, c) = choose|x: usize, c: usize|
                            #![trigger self@.in_range(x, c)]
                            self@.in_range(x, c) && m(x) is Some && id == self@.id(
                                m(x).unwrap(),
                                c,
                            );
                        if self@.mode == SelectionMode::Row {
                            assert(id == self@.id(m(x).unwrap(), 0));
                        } else {
                            assert(id == self@.id(m(x).unwrap(), c));
                        }
                    }
                }
                assert(got =~= want);
            }
        }
        keys
    }

    /// Append the keys of row `r`, if `key_at` resolves it, to those of the
    /// rows `r0..r`.
    fn add_resolved<F: Fn(usize) -> Option<RowKey>>(
        &self,
        keys: &mut Vec<CellKey>,
        r0: usize,
        r: usize,
        c0: usize,
        c1: usize,
        key_at: &F,
    )
        requires
            r0 <= r,
            c0 <= c1,
            call_requires(*key_at, (r,)),
            forall|m: spec_fn(usize) -> Option<Seq<char>>| #[trigger]
                resolves_as(*key_at, m) ==> key_set(old(keys)@) == self@.block(
                    m,
                    r0 as int,
                    r as int,
                    c0,
                    c1,
                ),
        ensures
            forall|m: spec_fn(usize) -> Option<Seq<char>>| #[trigger]
                resolves_as(*key_at, m) ==> key_set(final(keys)@) == self@.block(
                    m,
                    r0 as int,
                    r + 1,
                    c0,
                    c1,
                ),
    {
        let key = key_at(r);
        match key {
            Some(k) => {
                self.add_row(keys, &k, c0, c1);
            },
            None => {},
        }
        proof {
            assert forall|m: spec_fn(usize) -> Option<Seq<char>>| #[trigger]
                resolves_as(*key_at, m) implies key_set(keys@) == self@.block(
                m,
                r0 as int,
                r + 1,
                c0,
                c1,
            ) by {
                assert(call_ensures(*key_at, (r,), key));
                let before = self@.block(m, r0 as int, r as int, c0, c1);
                let after = self@.block(m, r0 as int, r + 1, c0, c1);
                assert forall|id: (Seq<char>, usize)|
                    after.contains(id) == key_set(keys@).contains(id) by {
                    if before.contains(id) {
                        let (x, c) = choose|x: usize, c: usize|
                            #![trigger self@.id(m(x).unwrap(), c)]
                            r0 <= x < r && c0 <= c <= c1 && m(x) is Some && id == self@.id(
                                m(x).unwrap(),
                                c,
                            );
                        assert(id == self@.id(m(x).unwrap(), c));
                        assert(after.contains(id));
                    }
                    if after.contains(id) && !before.contains(id) {
                        let (x, c) = choose|x: usize, c: usize|
                            #![trigger self@.id(m(x).unwrap(), c)]
                            r0 <= x < r + 1 && c0 <= c <= c1 && m(x) is Some && id == self@.id(
                                m(x).unwrap(),
                                c,
                            );
                        assert(x == r);
                        assert(self@.row_ids(m(x).unwrap(), c0, c1 + 1).contains(id));
                    }
                    if key is Some && self@.row_ids(key.unwrap()@, c0, c1 + 1).contains(id) {
                        let c = choose|c: usize|
                            #![trigger self@.id(key.unwrap()@, c)]
                            c0 <= c < c1 + 1 && id == self@.id(key.unwrap()@, c);
                        assert(id == self@.id(m(r).unwrap(), c));
                        assert(after.contains(id));
                    }
                }
                assert(key_set(keys@) =~= after);
            }
        }
    }

    /// Commit the active range into the explicit cells as a unit, then collapse
    /// it. If every cell of the range that `key_at` resolves is explicit
    /// already, all of them are taken out; else all are put in. Returns `false`
    /// and does nothing when no range is active.
    pub fn toggle_range<F: Fn(usize) -> Option<RowKey>>(&mut self, key_at: F) -> (r: bool)
        requires
            old(self).wf(),
            forall|r: usize| #[trigger] call_requires(key_at, (r,)),
        ensures
            final(self).wf(),
            r == (old(self)@.mode != SelectionMode::Off && old(self)@.anchor is Some),
            !r ==> final(self)@ == old(self)@,
            final(self)@ == (SelectionView {
                anchor: None,
                explicit: final(self)@.explicit,
                ..old(self)@
            }) || !r,
            forall|m: spec_fn(usize) -> Option<Seq<char>>| #[trigger]
                resolves_as(key_at, m) ==> final(self)@ == old(self)@.range_toggled(m),
    {
        if self.mode == SelectionMode::Off || self.anchor.is_none() {
            return false;
        }
        let keys = self.range_keys(&key_at);
        let mut all_present = keys.len() > 0;
        let mut i: usize = 0;
        while i < keys.len()
            invariant
                i <= keys@.len(),
                all_present == (keys@.len() > 0 && forall|j: int|
                    0 <= j < i ==> self@.explicit.contains(#[trigger] key_views(keys@)[j])),
            decreases keys@.len() - i,
        {
            assert(key_views(keys@)[i as int] == key_view(keys@[i as int]));
            if find(&self.explicit, &keys[i]).is_none() {
                all_present = false;
            }
            i = i + 1;
        }
        let ghost ids = key_set(keys@);
        let ghost before = self@;
        proof {
            lemma_all_in(keys@, before.explicit);
        }
        if all_present {
            let mut i: usize = 0;
            assert(key_set(keys@.take(0)) =~= Set::empty());
            assert(self@.explicit =~= before.explicit.difference(key_set(keys@.take(0))));
            while i < keys.len()
                invariant
                    i <= keys@.len(),
                    self.wf(),
                    self@ == (SelectionView { explicit: self@.explicit, ..before }),
                    self@.explicit == before.explicit.difference(key_set(keys@.take(i as int))),
                decreases keys@.len() - i,
            {
                take_out(&mut self.explicit, &keys[i]);
                proof {
                    lemma_taken(keys@, i as int);
                }
                i = i + 1;
                assert(self@.explicit =~= before.explicit.difference(
                    key_set(keys@.take(i as int)),
                ));
            }
            assert(keys@.take(keys@.len() as int) =~= keys@);
        } else {
            let n: usize = keys.len();
            let mut i: usize = 0;
            assert(key_set(keys@.take(0)) =~= Set::empty());
            assert(self@.explicit =~= before.explicit.union(key_set(keys@.take(0))));
            for k in it: keys
                invariant
                    it.seq() == keys@,
                    i == it.index(),
                    n == keys@.len(),
                    self.wf(),
                    self@ == (SelectionView { explicit: self@.explicit, ..before }),
                    self@.explicit == before.explicit.union(key_set(keys@.take(i as int))),
            {
                put(&mut self.explicit, k);
                proof {
                    lemma_taken(keys@, i as int);
                }
                i = i + 1;
                assert(self@.explicit =~= before.explicit.union(key_set(keys@.take(i as int))));
            }
            assert(keys@.take(keys@.len() as int) =~= keys@);
        }
        self.anchor = None;
        true
    }
}

impl SelectionView {
    /// Nothing else is selected beside everything, and nothing is excepted from
    /// anything else; rows are held under column 0, and nothing is held where
    /// nothing can be selected.
    pub open spec fn coherent(self) -> bool {
        &&& if self.all {
            self.anchor is None && self.explicit == Set::<(Seq<char>, usize)>::empty()
        } else {
            self.except == Set::<(Seq<char>, usize)>::empty()
        }
        &&& self.mode == SelectionMode::Row ==> forall|id: (Seq<char>, usize)|
            #![trigger self.explicit.contains(id)]
            #![trigger self.except.contains(id)]
            self.explicit.contains(id) || self.except.contains(id) ==> id.1 == 0
        &&& self.mode == SelectionMode::Off ==> self.anchor is None && !self.all && self.explicit
            == Set::<(Seq<char>, usize)>::empty()
    }
}

/// Every selection is coherent: the empty one, and any that comes from such a
/// one.
pub proof fn selections_stay_coherent(
    s: SelectionView,
    mode: SelectionMode,
    from: (usize, usize),
    to: (usize, usize),
    key: Seq<char>,
    col: usize,
    key_at: spec_fn(usize) -> Option<Seq<char>>,
)
    requires
        s.coherent(),
    ensures
        SelectionView::nothing(mode).coherent(),
        (SelectionView { mode, ..s.cleared() }).coherent(),
        s.extended(from, to).coherent(),
        s.toggled(key, col).coherent(),
        s.range_toggled(key_at).coherent(),
        s.everything().coherent(),
        s.cleared().coherent(),
        s.collapsed().coherent(),
{
}

/// With selection off nothing is selected, and nothing can be.
pub proof fn off_selects_nothing(
    s: SelectionView,
    from: (usize, usize),
    to: (usize, usize),
    key: Seq<char>,
    row: usize,
    col: usize,
    key_at: spec_fn(usize) -> Option<Seq<char>>,
)
    requires
        s.mode == SelectionMode::Off,
    ensures
        !s.active(),
        !s.selects(row, col, key),
        s.extended(from, to) == s,
        s.toggled(key, col) == s,
        s.range_toggled(key_at) == s,
        s.everything() == s,
{
}

/// Outside the range a cell is selected by its row's identity, wherever the row
/// stands.
pub proof fn selection_follows_the_row(
    s: SelectionView,
    here: usize,
    there: usize,
    col: usize,
    key: Seq<char>,
)
    requires
        !s.in_range(here, col),
        !s.in_range(there, col),
    ensures
        s.selects(here, col, key) == s.selects(there, col, key),
{
}

/// Toggling a cell twice leaves the selection as it was.
pub proof fn toggling_twice_changes_nothing(s: SelectionView, key: Seq<char>, col: usize)
    ensures
        s.toggled(key, col).toggled(key, col) == s,
{
    let id = s.id(key, col);
    assert(flipped(flipped(s.explicit, id), id) =~= s.explicit);
    assert(flipped(flipped(s.except, id), id) =~= s.except);
}

/// Toggling a cell outside the range selects it if it was not selected, and
/// deselects it if it was, be everything selected or not.
pub proof fn toggling_flips_the_cell(s: SelectionView, row: usize, col: usize, key: Seq<char>)
    requires
        s.coherent(),
        s.mode != SelectionMode::Off,
        !s.in_range(row, col),
    ensures
        s.toggled(key, col).selects(row, col, key) == !s.selects(row, col, key),
{
}

/// Toggling a cell leaves every other cell alone; in `Row` mode, every other
/// row.
pub proof fn toggling_spares_other_cells(
    s: SelectionView,
    key: Seq<char>,
    col: usize,
    row: usize,
    other_col: usize,
    other_key: Seq<char>,
)
    requires
        s.id(other_key, other_col) != s.id(key, col),
    ensures
        s.toggled(key, col).selects(row, other_col, other_key) == s.selects(
            row,
            other_col,
            other_key,
        ),
{
}

/// In `Row` mode a row is selected as a whole.
pub proof fn rows_are_selected_as_a_whole(
    s: SelectionView,
    row: usize,
    a: usize,
    b: usize,
    key: Seq<char>,
)
    requires
        s.mode == SelectionMode::Row,
    ensures
        s.selects(row, a, key) == s.selects(row, b, key),
{
}

/// Extending selects the rectangle between the anchor and the new end, beside
/// the toggled cells, and nothing else.
pub proof fn a_range_selects_its_rectangle(
    s: SelectionView,
    from: (usize, usize),
    to: (usize, usize),
    row: usize,
    col: usize,
    key: Seq<char>,
)
    requires
        s.mode == SelectionMode::Cell,
    ensures
        ({
            let start = if s.anchor is None {
                from
            } else {
                s.anchor.unwrap()
            };
            s.extended(from, to).selects(row, col, key) == (s.explicit.contains((key, col)) || (
            between(start.0, row, to.0) && between(start.1, col, to.1)))
        }),
{
}

/// Collapsing keeps the toggled cells and nothing else.
pub proof fn collapsing_keeps_the_toggled_cells(
    s: SelectionView,
    row: usize,
    col: usize,
    key: Seq<char>,
)
    ensures
        s.collapsed().explicit == s.explicit,
        s.collapsed().selects(row, col, key) == (s.mode != SelectionMode::Off
            && s.explicit.contains(s.id(key, col))),
        s.collapsed().collapsed() == s.collapsed(),
{
}

/// Selecting everything selects every cell, and clearing deselects every cell.
pub proof fn everything_and_nothing(s: SelectionView, row: usize, col: usize, key: Seq<char>)
    ensures
        s.everything().selects(row, col, key) == (s.mode != SelectionMode::Off),
        !s.cleared().selects(row, col, key),
        !s.cleared().active(),
{
    assert(Set::<(Seq<char>, usize)>::empty().len() == 0);
}

/// A range that was not all toggled on before is toggled on when it is
/// committed: each of its cells whose row is known stays selected from then on,
/// wherever its row goes, and so does every cell that was toggled on before.
pub proof fn committing_keeps_the_range(
    s: SelectionView,
    key_at: spec_fn(usize) -> Option<Seq<char>>,
    row: usize,
    col: usize,
    later: usize,
)
    requires
        s.mode != SelectionMode::Off,
        s.anchor is Some,
        !s.range_ids(key_at).subset_of(s.explicit),
    ensures
        s.range_toggled(key_at).anchor is None,
        s.explicit.subset_of(s.range_toggled(key_at).explicit),
        s.in_range(row, col) && key_at(row) is Some ==> s.range_toggled(key_at).selects(
            later,
            col,
            key_at(row).unwrap(),
        ),
{
    if s.in_range(row, col) && key_at(row) is Some {
        assert(s.range_ids(key_at).contains(s.id(key_at(row).unwrap(), col)));
    }
}

/// Committing the same range once more takes it out again, and leaves of the
/// toggled cells those outside it.
pub proof fn committing_again_drops_the_range(
    s: SelectionView,
    key_at: spec_fn(usize) -> Option<Seq<char>>,
    row: usize,
    col: usize,
    key: Seq<char>,
)
    requires
        s.mode != SelectionMode::Off,
        s.anchor is Some,
        !s.range_ids(key_at).subset_of(s.explicit),
    ensures
        ({
            let once = s.range_toggled(key_at);
            let again = SelectionView { anchor: s.anchor, ..once };
            let twice = again.range_toggled(key_at);
            &&& twice.explicit == s.explicit.difference(s.range_ids(key_at))
            &&& !s.all && key_at(row) == Some(key) && s.in_range(row, col) ==> !twice.selects(
                row,
                col,
                key,
            )
        }),
{
    let ids = s.range_ids(key_at);
    let once = s.range_toggled(key_at);
    let again = SelectionView { anchor: s.anchor, ..once };
    let twice = again.range_toggled(key_at);
    assert forall|r: usize, c: usize| again.in_range(r, c) == s.in_range(r, c) by {}
    assert(again.range_ids(key_at) =~= ids) by {
        assert forall|id: (Seq<char>, usize)|
            again.range_ids(key_at).contains(id) == ids.contains(id) by {
            if ids.contains(id) {
                let (r, c) = choose|r: usize, c: usize|
                    #![trigger s.in_range(r, c)]
                    s.in_range(r, c) && key_at(r) is Some && id == s.id(key_at(r).unwrap(), c);
                assert(again.in_range(r, c));
            }
            if again.range_ids(key_at).contains(id) {
                let (r, c) = choose|r: usize, c: usize|
                    #![trigger again.in_range(r, c)]
                    again.in_range(r, c) && key_at(r) is Some && id == again.id(
                        key_at(r).unwrap(),
                        c,
                    );
                assert(s.in_range(r, c));
            }
        }
    }
    assert(ids != Set::<(Seq<char>, usize)>::empty());
    assert(ids.subset_of(once.explicit));
    assert(twice.explicit =~= s.explicit.difference(ids));
    if key_at(row) == Some(key) && s.in_range(row, col) {
        assert(ids.contains(s.id(key, col)));
    }
}

} // verus!
