//! The data every row source shares: stable row identity ([`RowKey`]), typed
//! cells ([`CellValue`]), a [`Row`], and a change to the windowed view
//! ([`Delta`]).

use std::cmp::Ordering;
use std::sync::Arc;

use vstd::prelude::*;
use vstd::string::StringExecFns;

use crate::number::{compare_numbers, format_number, number_order, number_text, Number};
use crate::order::{ordering, to_ordering, Order};
use crate::text::{compare_text, decimal, push_decimal, text_order};

verus! {

/// A stable row identity, cheap to clone. Consumers build it from their
/// source's primary key; the table only ever compares it.
#[derive(Debug, Hash)]
pub struct RowKey(pub Arc<String>);

/// `Arc`'s `clone`: another handle to the same text, so the two handles hold
/// equal values.
#[verifier::external_body]
fn share(text: &Arc<String>) -> (r: Arc<String>)
    ensures
        r == *text,
{
    Arc::clone(text)
}

impl View for RowKey {
    type V = Seq<char>;

    open spec fn view(&self) -> Seq<char> {
        self.0@
    }
}

impl RowKey {
    pub fn new<S: Into<RowKey>>(s: S) -> (r: Self)
        ensures
            call_ensures(S::into, (s,), r),
    {
        s.into()
    }

    pub fn as_str(&self) -> (r: &str)
        ensures
            r@ == self@,
    {
        self.0.as_str()
    }

    /// The key's text.
    pub fn to_string(&self) -> (r: String)
        ensures
            r@ == self@,
    {
        self.0.as_str().to_owned()
    }
}

impl Clone for RowKey {
    fn clone(&self) -> (r: Self)
        ensures
            r == *self,
    {
        RowKey(share(&self.0))
    }
}

impl PartialEq for RowKey {
    fn eq(&self, other: &Self) -> (r: bool) {
        *self.0 == *other.0
    }
}

impl vstd::std_specs::cmp::PartialEqSpecImpl for RowKey {
    open spec fn obeys_eq_spec() -> bool {
        true
    }

    open spec fn eq_spec(&self, other: &Self) -> bool {
        self@ == other@
    }
}

impl Eq for RowKey {

}

impl From<&str> for RowKey {
    fn from(s: &str) -> (r: Self)
        ensures
            r@ == s@,
    {
        RowKey(Arc::new(s.to_owned()))
    }
}

impl vstd::std_specs::convert::FromSpecImpl<&str> for RowKey {
    open spec fn obeys_from_spec() -> bool {
        false
    }

    open spec fn from_spec(s: &str) -> Self {
        arbitrary()
    }
}

impl From<String> for RowKey {
    fn from(s: String) -> (r: Self)
        ensures
            r@ == s@,
    {
        RowKey(Arc::new(s))
    }
}

impl vstd::std_specs::convert::FromSpecImpl<String> for RowKey {
    open spec fn obeys_from_spec() -> bool {
        true
    }

    open spec fn from_spec(s: String) -> Self {
        RowKey(Arc::new(s))
    }
}

/// A status severity that a cell carries. What each level means is the
/// consumer's to decide.
#[derive(Clone, Copy, Debug, PartialEq, Eq, Structural)]
pub enum StatusLevel {
    Okay,
    Info,
    Warn,
    Error,
}

impl StatusLevel {
    /// The `data-vt-status` attribute value of this level.
    pub open spec fn attr(self) -> Seq<char> {
        match self {
            StatusLevel::Okay => "ok"@,
            StatusLevel::Info => "info"@,
            StatusLevel::Warn => "warn"@,
            StatusLevel::Error => "error"@,
        }
    }

    /// The `data-vt-status` attribute value of this level.
    pub fn as_attr(self) -> (r: &'static str)
        ensures
            r@ == self.attr(),
    {
        match self {
            StatusLevel::Okay => "ok",
            StatusLevel::Info => "info",
            StatusLevel::Warn => "warn",
            StatusLevel::Error => "error",
        }
    }
}

/// Nanoseconds in a second.
pub const NANOS_PER_SEC: u32 = 1_000_000_000;

/// A span of time.
#[derive(Clone, Copy, Debug, PartialEq, Eq, Structural)]
pub struct Duration {
    pub secs: u64,
    pub nanos: u32,
}

impl Duration {
    /// The span in nanoseconds.
    pub open spec fn length(self) -> int {
        self.secs * NANOS_PER_SEC + self.nanos
    }

    /// A span of whole seconds.
    pub fn from_secs(secs: u64) -> (r: Self)
        ensures
            r == (Duration { secs, nanos: 0 }),
    {
        Duration { secs, nanos: 0 }
    }

    /// How this span stands to another in length.
    pub fn compare(self, other: Duration) -> (r: Order)
        ensures
            r == Order::of(self.length(), other.length()),
    {
        let a: u128 = self.secs as u128 * NANOS_PER_SEC as u128 + self.nanos as u128;
        let b: u128 = other.secs as u128 * NANOS_PER_SEC as u128 + other.nanos as u128;
        if a < b {
            Order::Before
        } else if a > b {
            Order::After
        } else {
            Order::Same
        }
    }
}

// ---- display text ----

/// `n / d` to the nearest whole number, an exact half going to the even one.
pub open spec fn round_half_even(n: int, d: int) -> int {
    let q = n / d;
    let r = n % d;
    if 2 * r < d {
        q
    } else if 2 * r > d {
        q + 1
    } else {
        q + q % 2
    }
}

/// The least `step * 2^k` that leaves `b` at most 53 significant bits when
/// divided by it.
pub open spec fn grain(b: int, step: int) -> int
    decreases b - step,
{
    if step < 1 || b < step * 0x20_0000_0000_0000 {
        step
    } else {
        grain(b, 2 * step)
    }
}

/// The double-precision number nearest to `b`.
pub open spec fn nearest_double(b: int) -> int {
    round_half_even(b, grain(b, 1)) * grain(b, 1)
}

/// How many times a byte count is divided by 1024, at most five times, to fall
/// below 1024.
pub open spec fn byte_unit(v: int) -> int {
    if v < 0x400 {
        0
    } else if v < 0x10_0000 {
        1
    } else if v < 0x4000_0000 {
        2
    } else if v < 0x100_0000_0000 {
        3
    } else if v < 0x4_0000_0000_0000 {
        4
    } else {
        5
    }
}

/// 1024 to the power of `u`.
pub open spec fn unit_size(u: int) -> int {
    if u == 0 {
        1
    } else if u == 1 {
        0x400
    } else if u == 2 {
        0x10_0000
    } else if u == 3 {
        0x4000_0000
    } else if u == 4 {
        0x100_0000_0000
    } else {
        0x4_0000_0000_0000
    }
}

/// The name of the unit of 1024 to the power of `u` bytes.
pub open spec fn unit_name(u: int) -> Seq<char> {
    if u == 0 {
        "B"@
    } else if u == 1 {
        "KiB"@
    } else if u == 2 {
        "MiB"@
    } else if u == 3 {
        "GiB"@
    } else if u == 4 {
        "TiB"@
    } else {
        "PiB"@
    }
}

/// The text that shows a byte count: the count itself below 1024, else the
/// largest unit that it reaches, to one decimal place.
pub open spec fn bytes_text(b: u64) -> Seq<char> {
    let v = nearest_double(b as int);
    let u = byte_unit(v);
    if u == 0 {
        decimal(b as nat) + " B"@
    } else {
        let tenths = round_half_even(10 * v, unit_size(u));
        decimal((tenths / 10) as nat) + "."@ + decimal((tenths % 10) as nat) + " "@ + unit_name(u)
    }
}

/// The text that shows a span: its two largest units, or the seconds alone
/// below a minute.
pub open spec fn duration_text(d: Duration) -> Seq<char> {
    let s = d.secs as int;
    if s < 60 {
        decimal(s as nat) + "s"@
    } else if s < 3600 {
        decimal((s / 60) as nat) + "m"@ + decimal((s % 60) as nat) + "s"@
    } else if s < 86400 {
        decimal((s / 3600) as nat) + "h"@ + decimal((s % 3600 / 60) as nat) + "m"@
    } else {
        decimal((s / 86400) as nat) + "d"@ + decimal((s % 86400 / 3600) as nat) + "h"@
    }
}

/// `n / d` to the nearest whole number, an exact half going to the even one.
fn rounded_quotient(n: u128, d: u128) -> (r: u128)
    requires
        0 < d <= 0x1_0000_0000_0000_0000,
        n <= 0x1_0000_0000_0000_0000_0000,
    ensures
        r == round_half_even(n as int, d as int),
        r <= n / d + 1,
{
    let q: u128 = n / d;
    let rem: u128 = n % d;
    assert(q <= n) by (nonlinear_arith)
        requires
            d > 0,
            q == n / d,
            n >= 0,
    ;
    assert(rem < d) by (nonlinear_arith)
        requires
            d > 0,
            rem == n % d,
            n >= 0,
    ;
    if 2 * rem < d {
        q
    } else if 2 * rem > d {
        q + 1
    } else {
        q + q % 2
    }
}

/// The double-precision number nearest to `b`.
fn to_nearest_double(b: u64) -> (r: u128)
    ensures
        r == nearest_double(b as int),
        r <= 0x2_0000_0000_0000_0000,
{
    let n: u128 = b as u128;
    let mut step: u128 = 1;
    while n >= step * 0x20_0000_0000_0000
        invariant
            n == b,
            1 <= step <= 0x1000,
            grain(b as int, 1) == grain(b as int, step as int),
            step == 1 || step * 0x10_0000_0000_0000 <= n,
        decreases 0x2000 - step,
    {
        step = 2 * step;
    }
    let q: u128 = rounded_quotient(n, step);
    assert(q * step <= n + step) by (nonlinear_arith)
        requires
            q <= n / step + 1,
            step >= 1,
            n >= 0,
    ;
    q * step
}

/// The name of the unit of 1024 to the power of `u` bytes.
fn unit_label(u: u64) -> (r: &'static str)
    requires
        u <= 5,
    ensures
        r@ == unit_name(u as int),
{
    if u == 0 {
        "B"
    } else if u == 1 {
        "KiB"
    } else if u == 2 {
        "MiB"
    } else if u == 3 {
        "GiB"
    } else if u == 4 {
        "TiB"
    } else {
        "PiB"
    }
}

/// The text that shows a byte count.
pub fn format_bytes(b: u64) -> (r: String)
    ensures
        r@ == bytes_text(b),
{
    let v: u128 = to_nearest_double(b);
    let mut u: u64 = 0;
    let mut size: u128 = 1;
    while u < 5 && v >= size * 1024
        invariant
            u <= 5,
            size == unit_size(u as int),
            u == 0 || v >= size,
            byte_unit(v as int) >= u,
            v <= 0x2_0000_0000_0000_0000,
        decreases 5 - u,
    {
        size = size * 1024;
        u = u + 1;
    }
    assert(u == byte_unit(v as int));
    let mut out = String::new();
    if u == 0 {
        push_decimal(&mut out, b);
        out.append(" B");
    } else {
        let n: u128 = 10 * v;
        let tenths: u128 = rounded_quotient(n, size);
        assert(n / size <= 0x500_0000_0000_0000) by (nonlinear_arith)
            requires
                n <= 0x14_0000_0000_0000_0000,
                size >= 0x400,
        ;
        push_decimal(&mut out, (tenths / 10) as u64);
        out.append(".");
        push_decimal(&mut out, (tenths % 10) as u64);
        out.append(" ");
        out.append(unit_label(u));
    }
    assert(out@ =~= bytes_text(b));
    out
}

/// The text that shows a span.
pub fn format_duration(d: Duration) -> (r: String)
    ensures
        r@ == duration_text(d),
{
    let s: u64 = d.secs;
    let mut out = String::new();
    if s < 60 {
        push_decimal(&mut out, s);
        out.append("s");
    } else if s < 3600 {
        push_decimal(&mut out, s / 60);
        out.append("m");
        push_decimal(&mut out, s % 60);
        out.append("s");
    } else if s < 86400 {
        push_decimal(&mut out, s / 3600);
        out.append("h");
        push_decimal(&mut out, s % 3600 / 60);
        out.append("m");
    } else {
        push_decimal(&mut out, s / 86400);
        out.append("d");
        push_decimal(&mut out, s % 86400 / 3600);
        out.append("h");
    }
    assert(out@ =~= duration_text(d));
    out
}

// ---- cells and rows ----

/// A typed cell value. `Text` is what a bare string becomes. The type drives
/// both the display text and the order used by the in-memory sort.
#[derive(Debug, PartialEq)]
pub enum CellValue {
    Empty,
    Text(String),
    /// A number without a unit.
    Number(Number),
    /// A byte count, shown as `1.5 KiB`; ordered by the count.
    Bytes(u64),
    /// A span of time such as an age, shown as `3d4h`; ordered by length.
    Duration(Duration),
    /// Text with a severity.
    Status { text: String, level: StatusLevel },
}

/// The text that shows a cell.
pub open spec fn cell_text(c: CellValue) -> Seq<char> {
    match c {
        CellValue::Empty => Seq::empty(),
        CellValue::Text(s) => s@,
        CellValue::Number(n) => number_text(n),
        CellValue::Bytes(b) => bytes_text(b),
        CellValue::Duration(d) => duration_text(d),
        CellValue::Status { text, level } => text@,
    }
}

/// The severity that a cell carries.
pub open spec fn cell_status(c: CellValue) -> Option<StatusLevel> {
    match c {
        CellValue::Status { text, level } => Some(level),
        _ => None,
    }
}

/// The order of two cells, `read` telling which number a text spells, by its
/// bit pattern. `Empty` comes first; two numbers, two byte counts and two spans
/// go by their size; any other pair goes by the two texts, as numbers where
/// both spell one.
pub open spec fn cell_order(
    a: CellValue,
    b: CellValue,
    read: spec_fn(Seq<char>) -> Option<u64>,
) -> Order {
    match (a, b) {
        (CellValue::Empty, CellValue::Empty) => Order::Same,
        (CellValue::Empty, _) => Order::Before,
        (_, CellValue::Empty) => Order::After,
        (CellValue::Number(x), CellValue::Number(y)) => number_order(x.bits, y.bits),
        (CellValue::Bytes(x), CellValue::Bytes(y)) => Order::of(x as int, y as int),
        (CellValue::Duration(x), CellValue::Duration(y)) => Order::of(x.length(), y.length()),
        _ => match (read(cell_text(a)), read(cell_text(b))) {
            (Some(x), Some(y)) => number_order(x, y),
            _ => text_order(cell_text(a), cell_text(b)),
        },
    }
}

/// Does the function `f` read texts the way `read` does?
pub open spec fn reads_as<F: Fn(&str) -> Option<u64>>(
    f: F,
    read: spec_fn(Seq<char>) -> Option<u64>,
) -> bool {
    forall|s: &str, n: Option<u64>| #[trigger] call_ensures(f, (s,), n) ==> n == read(s@)
}

impl CellValue {
    /// The display text of this cell.
    pub fn display(&self) -> (r: String)
        ensures
            r@ == cell_text(*self),
    {
        match self {
            CellValue::Empty => String::new(),
            CellValue::Text(s) => s.clone(),
            CellValue::Number(n) => format_number(n),
            CellValue::Bytes(b) => format_bytes(*b),
            CellValue::Duration(d) => format_duration(*d),
            CellValue::Status { text, level } => text.clone(),
        }
    }

    /// The status level this cell carries, if any.
    pub fn status(&self) -> (r: Option<StatusLevel>)
        ensures
            r == cell_status(*self),
    {
        match self {
            CellValue::Status { text, level } => Some(*level),
            _ => None,
        }
    }

    /// How this cell stands to another. `read` tells which number a text
    /// spells, by its bit pattern, or `None` of a text that spells none.
    pub fn compare<F: Fn(&str) -> Option<u64>>(&self, other: &CellValue, read: &F) -> (r: Order)
        requires
            forall|s: &str| #[trigger] call_requires(*read, (s,)),
        ensures
            forall|m: spec_fn(Seq<char>) -> Option<u64>|
                #[trigger] reads_as(*read, m) ==> r == cell_order(*self, *other, m),
            (match (*self, *other) {
                (CellValue::Duration(a), CellValue::Duration(b)) => {
                    &&& r is Before <==> a.secs * 1_000_000_000 + a.nanos < b.secs * 1_000_000_000
                        + b.nanos
                    &&& r is After <==> a.secs * 1_000_000_000 + a.nanos > b.secs * 1_000_000_000
                        + b.nanos
                },
                (CellValue::Bytes(a), CellValue::Bytes(b)) => {
                    &&& r is Before <==> a < b
                    &&& r is After <==> a > b
                },
                (CellValue::Empty, CellValue::Empty) => r is Same,
                (CellValue::Empty, _) => r is Before,
                (_, CellValue::Empty) => r is After,
                _ => true,
            }),
    {
        match (self, other) {
            (CellValue::Empty, CellValue::Empty) => Order::Same,
            (CellValue::Empty, _) => Order::Before,
            (_, CellValue::Empty) => Order::After,
            (CellValue::Number(x), CellValue::Number(y)) => compare_numbers(x.bits, y.bits),
            (CellValue::Bytes(x), CellValue::Bytes(y)) => if *x < *y {
                Order::Before
            } else if *x > *y {
                Order::After
            } else {
                Order::Same
            },
            (CellValue::Duration(x), CellValue::Duration(y)) => x.compare(*y),
            (a, b) => {
                let sa = a.display();
                let sb = b.display();
                match (read(sa.as_str()), read(sb.as_str())) {
                    (Some(x), Some(y)) => compare_numbers(x, y),
                    _ => compare_text(sa.as_str(), sb.as_str()),
                }
            },
        }
    }

    /// The order used by the in-memory sort, as [`compare`](Self::compare)
    /// gives it.
    pub fn sort_cmp<F: Fn(&str) -> Option<u64>>(&self, other: &CellValue, read: &F) -> (r: Ordering)
        requires
            forall|s: &str| #[trigger] call_requires(*read, (s,)),
        ensures
            forall|m: spec_fn(Seq<char>) -> Option<u64>|
                #[trigger] reads_as(*read, m) ==> r == ordering(cell_order(*self, *other, m)),
    {
        to_ordering(self.compare(other, read))
    }
}

impl Clone for CellValue {
    fn clone(&self) -> (r: Self)
        ensures
            r == *self,
    {
        match self {
            CellValue::Empty => CellValue::Empty,
            CellValue::Text(s) => CellValue::Text(s.clone()),
            CellValue::Number(n) => CellValue::Number(n.clone()),
            CellValue::Bytes(b) => CellValue::Bytes(*b),
            CellValue::Duration(d) => CellValue::Duration(*d),
            CellValue::Status { text, level } => CellValue::Status {
                text: text.clone(),
                level: *level,
            },
        }
    }
}

impl From<&str> for CellValue {
    fn from(s: &str) -> (r: Self)
        ensures
            r matches CellValue::Text(t) && t@ == s@,
    {
        CellValue::Text(s.to_owned())
    }
}

impl vstd::std_specs::convert::FromSpecImpl<&str> for CellValue {
    open spec fn obeys_from_spec() -> bool {
        false
    }

    open spec fn from_spec(s: &str) -> Self {
        arbitrary()
    }
}

impl From<String> for CellValue {
    fn from(s: String) -> (r: Self) {
        CellValue::Text(s)
    }
}

impl vstd::std_specs::convert::FromSpecImpl<String> for CellValue {
    open spec fn obeys_from_spec() -> bool {
        true
    }

    open spec fn from_spec(s: String) -> Self {
        CellValue::Text(s)
    }
}

/// One row: stable identity and cells in the table's column order.
#[derive(Debug, PartialEq)]
pub struct Row {
    pub key: RowKey,
    pub cells: Vec<CellValue>,
}

/// A row as a mathematical value.
pub struct RowView {
    pub key: Seq<char>,
    pub cells: Seq<CellValue>,
}

impl RowView {
    /// The cell at `col`, `Empty` past the end of a short row.
    pub open spec fn cell(self, col: int) -> CellValue {
        if 0 <= col < self.cells.len() {
            self.cells[col]
        } else {
            CellValue::Empty
        }
    }

    /// The cell at `col`.
    pub open spec fn cell_at(self, col: usize) -> CellValue {
        self.cell(col as int)
    }
}

impl View for Row {
    type V = RowView;

    open spec fn view(&self) -> RowView {
        RowView { key: self.key@, cells: self.cells@ }
    }
}

impl Row {
    pub fn new<K: Into<RowKey>>(key: K, cells: Vec<CellValue>) -> (r: Self)
        ensures
            call_ensures(K::into, (key,), r.key),
            r.cells == cells,
    {
        Row { key: key.into(), cells }
    }

    /// The cell at `col`, or `Empty` if the row is short.
    pub fn cell(&self, col: usize) -> (r: &CellValue)
        ensures
            *r == self@.cell_at(col),
    {
        if col < self.cells.len() {
            &self.cells[col]
        } else {
            &CellValue::Empty
        }
    }
}

impl Clone for Row {
    fn clone(&self) -> (r: Self)
        ensures
            r@ == self@,
    {
        let mut cells: Vec<CellValue> = Vec::new();
        let mut i: usize = 0;
        while i < self.cells.len()
            invariant
                i <= self.cells@.len(),
                cells@ == self.cells@.take(i as int),
            decreases self.cells@.len() - i,
        {
            cells.push(self.cells[i].clone());
            i = i + 1;
            assert(cells@ =~= self.cells@.take(i as int));
        }
        assert(cells@ =~= self.cells@);
        Row { key: self.key.clone(), cells }
    }
}

/// A change to the windowed view. The window epoch it applies to is passed
/// alongside it.
#[derive(Clone, Debug)]
pub enum Delta {
    /// A snapshot of `start..start + rows.len()`, which replaces the buffer.
    Resync { start: usize, rows: Vec<Row> },
    /// Rows that changed, matched by [`RowKey`].
    Upsert { rows: Vec<Row> },
    /// Rows that left the window, dropped by [`RowKey`].
    Remove { keys: Vec<RowKey> },
}

} // verus!
