//! What the texts and the order of cells mean.

use vstd::arithmetic::power2::{
    lemma2_to64, lemma_pow2_adds, lemma_pow2_pos, lemma_pow2_strictly_increases, pow2,
};
use vstd::prelude::*;
use vstd::utf8::encode_utf8;

use crate::data::{
    byte_unit, bytes_text, cell_order, cell_status, cell_text, duration_text, grain,
    nearest_double, round_half_even, unit_name, unit_size, CellValue, Duration, RowView,
    StatusLevel,
};
use crate::number::{
    is_short_whole, is_whole, number_order, number_text, scale, significand, Number,
};
use crate::order::Order;
use crate::text::{bytes_order, decimal, digit, text_order};

verus! {

/// The number that a string of the characters `0` to `9` stands for, the last one
/// counting units.
pub open spec fn numeral(s: Seq<char>) -> int
    decreases s.len(),
{
    if s.len() == 0 {
        0
    } else {
        10 * numeral(s.drop_last()) + (s.last() as int - 48)
    }
}

proof fn lemma_digit(d: nat)
    requires
        d < 10,
    ensures
        digit(d) as int == 48 + d,
{
    reveal_strlit("0123456789");
}

/// A number in decimal is a string of digits, the first of them not zero unless it
/// is the only one, that stands for the number.
pub proof fn decimals_stand_for_their_numbers(n: nat)
    ensures
        numeral(decimal(n)) == n,
        decimal(n).len() > 0,
        decimal(n).len() > 1 ==> decimal(n)[0] != '0',
        forall|i: int| 0 <= i < decimal(n).len() ==> '0' <= #[trigger] decimal(n)[i] <= '9',
    decreases n,
{
    lemma_digit(n % 10);
    reveal_with_fuel(numeral, 2);
    if n < 10 {
        assert(decimal(n).drop_last() =~= Seq::<char>::empty());
        assert(n % 10 == n);
        assert(decimal(n)[0] == digit(n));
    } else {
        decimals_stand_for_their_numbers(n / 10);
        let rest = decimal(n / 10);
        assert(decimal(n).drop_last() =~= rest);
        assert(decimal(n).last() == digit(n % 10));
        assert(decimal(n)[0] == rest[0]);
        if rest.len() == 1 {
            assert(rest[0] != '0') by {
                assert(numeral(rest.drop_last()) == 0) by {
                    assert(rest.drop_last() =~= Seq::<char>::empty());
                }
                assert(numeral(rest) == rest[0] as int - 48);
            }
        }
        assert forall|i: int| 0 <= i < decimal(n).len() implies '0' <= #[trigger] decimal(n)[i]
            <= '9' by {
            if i < rest.len() {
                assert(decimal(n)[i] == rest[i]);
            } else {
                assert(decimal(n)[i] == digit(n % 10));
            }
        }
    }
}

/// A span reads as seconds below a minute, and else as a count of a greater unit
/// and one of the next smaller unit, which is less than one of the greater and
/// which together miss less than one of the smaller.
pub proof fn spans_read_to_the_smaller_unit(d: Duration)
    ensures
        d.secs < 60 ==> duration_text(d) == decimal(d.secs as nat) + "s"@,
        60 <= d.secs < 3600 ==> exists|m: nat, s: nat|
            #![trigger decimal(m), decimal(s)]
            s < 60 && 60 * m + s == d.secs && duration_text(d) == decimal(m) + "m"@ + decimal(s)
                + "s"@,
        3600 <= d.secs < 86400 ==> exists|h: nat, m: nat|
            #![trigger decimal(h), decimal(m)]
            m < 60 && 60 * (60 * h + m) <= d.secs < 60 * (60 * h + m + 1) && duration_text(d)
                == decimal(h) + "h"@ + decimal(m) + "m"@,
        86400 <= d.secs ==> exists|days: nat, h: nat|
            #![trigger decimal(days), decimal(h)]
            h < 24 && 3600 * (24 * days + h) <= d.secs < 3600 * (24 * days + h + 1)
                && duration_text(d) == decimal(days) + "d"@ + decimal(h) + "h"@,
{
    let s = d.secs as int;
    if s < 60 {
    } else if s < 3600 {
        let a = (s / 60) as nat;
        let b = (s % 60) as nat;
        assert(b < 60 && 60 * a + b == s);
        assert(duration_text(d) == decimal(a) + "m"@ + decimal(b) + "s"@);
    } else if s < 86400 {
        let a = (s / 3600) as nat;
        let b = (s % 3600 / 60) as nat;
        assert(b < 60 && 60 * (60 * a + b) <= s < 60 * (60 * a + b + 1));
        assert(duration_text(d) == decimal(a) + "h"@ + decimal(b) + "m"@);
    } else {
        let a = (s / 86400) as nat;
        let b = (s % 86400 / 3600) as nat;
        assert(b < 24 && 3600 * (24 * a + b) <= s < 3600 * (24 * a + b + 1));
        assert(duration_text(d) == decimal(a) + "d"@ + decimal(b) + "h"@);
    }
}

/// 1024 to the power of `u`.
pub open spec fn kibi(u: nat) -> int
    decreases u,
{
    if u == 0 {
        1
    } else {
        1024 * kibi((u - 1) as nat)
    }
}

/// Does `text` end in the name of the unit of 1024 to the power of `u` bytes?
pub open spec fn names_unit(name: Seq<char>, u: nat) -> bool {
    &&& u == 1 ==> name == "KiB"@
    &&& u == 2 ==> name == "MiB"@
    &&& u == 3 ==> name == "GiB"@
    &&& u == 4 ==> name == "TiB"@
    &&& u == 5 ==> name == "PiB"@
}

/// Is a byte count shown in the unit `u` as `whole` and `tenth` tenths? It is the
/// greatest unit that the count reaches, and the count is shown to the nearest
/// tenth of it, half of one going to the even tenth; a count of more bits than a
/// double holds is first taken to the nearest double.
pub open spec fn shown_in_unit(b: int, u: nat, whole: nat, tenth: nat) -> bool {
    let size = kibi(u);
    let off = 10 * b - (10 * whole + tenth) * size;
    &&& 1 <= u <= 5
    &&& size <= b
    &&& u < 5 ==> b < 1024 * size
    &&& tenth < 10
    &&& b < 0x20_0000_0000_0000 ==> -size <= 2 * off <= size && (2 * off == size || 2 * off == -size
        ==> tenth % 2 == 0)
    &&& b >= 0x20_0000_0000_0000 ==> -size - 20480 <= 2 * off <= size + 20480
}

proof fn lemma_round(n: int, d: int)
    requires
        d > 0,
        n >= 0,
    ensures
        -d <= 2 * (n - round_half_even(n, d) * d) <= d,
        2 * (n - round_half_even(n, d) * d) == d || 2 * (n - round_half_even(n, d) * d) == -d
            ==> round_half_even(n, d) % 2 == 0,
        round_half_even(n, d) >= 0,
{
    let q = n / d;
    let r = n % d;
    assert(n == d * q + r && 0 <= r < d && q >= 0) by (nonlinear_arith)
        requires
            d > 0,
            n >= 0,
            q == n / d,
            r == n % d,
    ;
    assert(q * d == d * q && (q + 1) * d == d * q + d) by (nonlinear_arith);
}

proof fn lemma_nearest(b: int)
    requires
        0 <= b < 0x1_0000_0000_0000_0000,
    ensures
        b < 0x20_0000_0000_0000 ==> nearest_double(b) == b,
        -1024 <= nearest_double(b) - b <= 1024,
{
    reveal_with_fuel(grain, 13);
    let g = grain(b, 1);
    assert(1 <= g <= 2048);
    assert(b < 0x20_0000_0000_0000 ==> g == 1);
    lemma_round(b, g);
    if g == 1 {
        assert(round_half_even(b, 1) == b);
    }
}

/// A byte count reads as itself below 1024, and else as a number of the greatest
/// unit that it reaches, to the nearest tenth.
pub proof fn byte_counts_read_to_the_nearest_tenth(b: u64)
    ensures
        b < 1024 ==> bytes_text(b) == decimal(b as nat) + " B"@,
        b >= 1024 ==> exists|u: nat, whole: nat, tenth: nat, name: Seq<char>|
            #![trigger shown_in_unit(b as int, u, whole, tenth), names_unit(name, u)]
            shown_in_unit(b as int, u, whole, tenth) && names_unit(name, u) && bytes_text(b)
                == decimal(whole) + "."@ + decimal(tenth) + " "@ + name,
{
    let v = nearest_double(b as int);
    lemma_nearest(b as int);
    if b >= 1024 {
        let u = byte_unit(v);
        let size = unit_size(u);
        let t = round_half_even(10 * v, size);
        lemma_round(10 * v, size);
        reveal_with_fuel(kibi, 6);
        assert(size == kibi(u as nat));
        let whole = (t / 10) as nat;
        let tenth = (t % 10) as nat;
        assert(10 * whole + tenth == t);
        assert(shown_in_unit(b as int, u as nat, whole, tenth)) by {
            assert((10 * whole + tenth) * size == t * size);
            if tenth % 2 != 0 {
                assert(t % 2 != 0);
            }
        }
        assert(names_unit(unit_name(u), u as nat));
        assert(bytes_text(b) == decimal(whole) + "."@ + decimal(tenth) + " "@ + unit_name(u));
    }
}

/// The exponent of a bit pattern, 1 for those of the numbers nearest to zero.
pub open spec fn power_of(bits: u64) -> int {
    let e = bits as int % 0x8000_0000_0000_0000 / 0x10_0000_0000_0000;
    if e == 0 {
        1
    } else {
        e
    }
}

/// The digits of a bit pattern, as a whole number.
pub open spec fn digits_of(bits: u64) -> int {
    let mag = bits as int % 0x8000_0000_0000_0000;
    if mag < 0x10_0000_0000_0000 {
        mag
    } else {
        0x10_0000_0000_0000 + mag % 0x10_0000_0000_0000
    }
}

/// The number that a bit pattern stands for, times 2 to the power of 1075;
/// infinity counts as the number after the greatest.
pub open spec fn value_of(bits: u64) -> int {
    let v = digits_of(bits) * pow2(power_of(bits) as nat);
    if bits >= 0x8000_0000_0000_0000 {
        -v
    } else {
        v
    }
}

/// Does a bit pattern stand for no number?
pub open spec fn no_number(bits: u64) -> bool {
    bits as int % 0x8000_0000_0000_0000 > 0x7ff0_0000_0000_0000
}

/// Is `m` the absolute value of a finite number?
pub open spec fn measures(bits: u64, m: nat) -> bool {
    power_of(bits) < 2047 && digits_of(bits) * pow2(power_of(bits) as nat) == m * pow2(1075)
}

proof fn lemma_measures(bits: u64, m: nat)
    ensures
        is_whole(bits, m) == measures(bits, m),
{
    let e = power_of(bits) as nat;
    let s = digits_of(bits);
    assert(s == significand(bits));
    assert(e == scale(bits));
    lemma_pow2_pos(e);
    lemma_pow2_pos(1075);
    if e >= 1075 {
        let k = (e - 1075) as nat;
        lemma_pow2_adds(k, 1075);
        lemma_pow2_pos(k);
        let a = pow2(k) as int;
        let b = pow2(1075) as int;
        assert((m == s * a) == (s * (a * b) == m * b)) by (nonlinear_arith)
            requires
                b > 0,
        ;
    } else {
        let k = (1075 - e) as nat;
        lemma_pow2_adds(k, e);
        lemma_pow2_pos(k);
        let a = pow2(k) as int;
        let b = pow2(e) as int;
        assert((m * a == s) == (s * b == m * (a * b))) by (nonlinear_arith)
            requires
                b > 0,
        ;
    }
}

/// A whole number below 10 to the power of 15 reads in plain digits, with a minus
/// sign if it is below zero; any other number reads as its shortest decimal text.
pub proof fn whole_numbers_read_in_plain_digits(n: Number)
    ensures
        forall|m: nat|
            m < 1_000_000_000_000_000 && #[trigger] measures(n.bits, m) ==> number_text(n) == if
                n.bits >= 0x8000_0000_0000_0000 && m > 0 {
                "-"@ + decimal(m)
            } else {
                decimal(m)
            },
        (forall|m: nat| #[trigger] measures(n.bits, m) ==> m >= 1_000_000_000_000_000)
            ==> number_text(n) == n.text@,
{
    assert forall|m: nat|
        m < 1_000_000_000_000_000 && #[trigger] measures(n.bits, m) implies number_text(n) == if
        n.bits >= 0x8000_0000_0000_0000 && m > 0 {
        "-"@ + decimal(m)
    } else {
        decimal(m)
    } by {
        lemma_measures(n.bits, m);
        assert(is_short_whole(n.bits, m));
        let k = choose|k: nat| is_short_whole(n.bits, k);
        lemma_measures(n.bits, k);
        lemma_pow2_pos(1075);
        let b = pow2(1075) as int;
        assert(k == m) by (nonlinear_arith)
            requires
                k * b == m * b,
                b > 0,
        ;
    }
    if forall|m: nat| #[trigger] measures(n.bits, m) ==> m >= 1_000_000_000_000_000 {
        if exists|m: nat| is_short_whole(n.bits, m) {
            let k = choose|k: nat| is_short_whole(n.bits, k);
            lemma_measures(n.bits, k);
        }
    }
}

proof fn lemma_magnitudes(a: u64, b: u64)
    requires
        a < b < 0x8000_0000_0000_0000,
    ensures
        0 <= value_of(a) < value_of(b),
{
    let ea = power_of(a) as nat;
    let eb = power_of(b) as nat;
    let sa = digits_of(a);
    let sb = digits_of(b);
    lemma_pow2_pos(ea);
    lemma_pow2_pos(eb);
    let pa = pow2(ea) as int;
    let pb = pow2(eb) as int;
    assert(0 <= sa * pa) by (nonlinear_arith)
        requires
            sa >= 0,
            pa > 0,
    ;
    if ea == eb {
        assert(sa < sb);
        assert(sa * pa < sb * pa) by (nonlinear_arith)
            requires
                sa < sb,
                pa > 0,
        ;
    } else {
        assert(ea < eb);
        assert(sa < 0x20_0000_0000_0000);
        assert(sb >= 0x10_0000_0000_0000);
        lemma_pow2_adds(1, ea);
        lemma2_to64();
        if ea + 1 < eb {
            lemma_pow2_strictly_increases(ea + 1, eb);
        }
        assert(2 * pa <= pb);
        assert(sa * pa < sb * pb) by (nonlinear_arith)
            requires
                sa < 0x20_0000_0000_0000,
                sb >= 0x10_0000_0000_0000,
                2 * pa <= pb,
                pa > 0,
        ;
    }
}

/// Numbers are ordered by their values, and what is no number is the same as
/// everything.
pub proof fn numbers_are_ordered_by_value(a: u64, b: u64)
    ensures
        no_number(a) || no_number(b) ==> number_order(a, b) == Order::Same,
        !no_number(a) && !no_number(b) ==> {
            &&& number_order(a, b) == Order::Before <==> value_of(a) < value_of(b)
            &&& number_order(a, b) == Order::After <==> value_of(a) > value_of(b)
        },
{
    let top = 0x8000_0000_0000_0000u64;
    let ma = (a as int % 0x8000_0000_0000_0000) as u64;
    let mb = (b as int % 0x8000_0000_0000_0000) as u64;
    assert(value_of(a) == if a >= top {
        -value_of(ma)
    } else {
        value_of(ma)
    });
    assert(value_of(b) == if b >= top {
        -value_of(mb)
    } else {
        value_of(mb)
    });
    assert(value_of(0) == 0) by (nonlinear_arith);
    if ma < mb {
        lemma_magnitudes(ma, mb);
    } else if mb < ma {
        lemma_magnitudes(mb, ma);
    }
    if ma > 0 {
        lemma_magnitudes(0, ma);
    }
    if mb > 0 {
        lemma_magnitudes(0, mb);
    }
}

/// Does the byte string `a` come before `b`: at the first place where they differ
/// it has the lesser byte, or it ends?
pub open spec fn bytes_before(a: Seq<u8>, b: Seq<u8>) -> bool {
    exists|i: int|
        {
            &&& 0 <= i <= a.len()
            &&& i < b.len()
            &&& #[trigger] a.take(i) == b.take(i)
            &&& i == a.len() || a[i] < b[i]
        }
}

proof fn lemma_bytes_before(a: Seq<u8>, b: Seq<u8>)
    ensures
        (bytes_order(a, b) == Order::Before) == bytes_before(a, b),
        (bytes_order(a, b) == Order::After) == bytes_before(b, a),
    decreases a.len(),
{
    if a.len() == 0 || b.len() == 0 {
        assert(a.take(0) =~= b.take(0));
        if bytes_before(a, b) {
            let i = choose|i: int|
                0 <= i <= a.len() && i < b.len() && #[trigger] a.take(i) == b.take(i) && (i
                    == a.len() || a[i] < b[i]);
        }
        if bytes_before(b, a) {
            let i = choose|i: int|
                0 <= i <= b.len() && i < a.len() && #[trigger] b.take(i) == a.take(i) && (i
                    == b.len() || b[i] < a[i]);
        }
    } else {
        let x = a.drop_first();
        let y = b.drop_first();
        lemma_bytes_before(x, y);
        lemma_before_step(a, b);
        lemma_before_step(b, a);
    }
}

proof fn lemma_before_step(a: Seq<u8>, b: Seq<u8>)
    requires
        a.len() > 0,
        b.len() > 0,
    ensures
        bytes_before(a, b) == (a[0] < b[0] || (a[0] == b[0] && bytes_before(
            a.drop_first(),
            b.drop_first(),
        ))),
{
    let x = a.drop_first();
    let y = b.drop_first();
    if a[0] < b[0] {
        assert(a.take(0) =~= b.take(0));
    }
    if a[0] == b[0] && bytes_before(x, y) {
        let i = choose|i: int|
            0 <= i <= x.len() && i < y.len() && #[trigger] x.take(i) == y.take(i) && (i == x.len()
                || x[i] < y[i]);
        assert forall|k: int| 0 <= k < i + 1 implies a[k] == b[k] by {
            if k > 0 {
                assert(x.take(i)[k - 1] == a[k]);
                assert(y.take(i)[k - 1] == b[k]);
            }
        }
        assert(a.take(i + 1) =~= b.take(i + 1));
    }
    if bytes_before(a, b) {
        let i = choose|i: int|
            0 <= i <= a.len() && i < b.len() && #[trigger] a.take(i) == b.take(i) && (i == a.len()
                || a[i] < b[i]);
        if i > 0 {
            assert(a.take(i)[0] == b.take(i)[0]);
            assert forall|k: int| 0 <= k < i - 1 implies x[k] == y[k] by {
                assert(a.take(i)[k + 1] == b.take(i)[k + 1]);
            }
            assert(x.take(i - 1) =~= y.take(i - 1));
        }
    }
}

/// Texts are ordered by the first of their UTF-8 bytes in which they differ, the
/// beginning of a text coming before it.
pub proof fn texts_are_ordered_by_their_first_difference(a: Seq<char>, b: Seq<char>)
    ensures
        text_order(a, b) == Order::Before <==> bytes_before(encode_utf8(a), encode_utf8(b)),
        text_order(a, b) == Order::After <==> bytes_before(encode_utf8(b), encode_utf8(a)),
{
    lemma_bytes_before(encode_utf8(a), encode_utf8(b));
}

/// The nanoseconds of a span.
pub open spec fn nanoseconds(d: Duration) -> int {
    d.secs * 1_000_000_000 + d.nanos
}

/// Is `a` the lesser of two cells? An empty one is less than any other; numbers,
/// byte counts and spans go by their size; other cells by their texts, as numbers
/// where both spell one.
pub open spec fn is_less(
    a: CellValue,
    b: CellValue,
    read: spec_fn(Seq<char>) -> Option<u64>,
) -> bool {
    match (a, b) {
        (_, CellValue::Empty) => false,
        (CellValue::Empty, _) => true,
        (CellValue::Number(x), CellValue::Number(y)) => !no_number(x.bits) && !no_number(y.bits)
            && value_of(x.bits) < value_of(y.bits),
        (CellValue::Bytes(x), CellValue::Bytes(y)) => x < y,
        (CellValue::Duration(x), CellValue::Duration(y)) => nanoseconds(x) < nanoseconds(y),
        _ => match (read(cell_text(a)), read(cell_text(b))) {
            (Some(x), Some(y)) => !no_number(x) && !no_number(y) && value_of(x) < value_of(y),
            _ => bytes_before(encode_utf8(cell_text(a)), encode_utf8(cell_text(b))),
        },
    }
}

/// Cells are ordered by what they hold: `Before` is less and `After` is greater.
pub proof fn cells_are_ordered_by_what_they_hold(
    a: CellValue,
    b: CellValue,
    read: spec_fn(Seq<char>) -> Option<u64>,
)
    ensures
        cell_order(a, b, read) == Order::Before <==> is_less(a, b, read),
        cell_order(a, b, read) == Order::After <==> is_less(b, a, read),
{
    match (a, b) {
        (CellValue::Number(x), CellValue::Number(y)) => {
            numbers_are_ordered_by_value(x.bits, y.bits);
        },
        _ => {
            texts_are_ordered_by_their_first_difference(cell_text(a), cell_text(b));
            match (read(cell_text(a)), read(cell_text(b))) {
                (Some(x), Some(y)) => {
                    numbers_are_ordered_by_value(x, y);
                },
                _ => {},
            }
        },
    }
}

/// A cell of text reads as its text, one with a status as the status text, and an
/// empty one as nothing; and only a cell with a status has one, the one it holds.
pub proof fn cells_read_as_what_they_hold(c: CellValue)
    ensures
        c is Empty ==> cell_text(c) == Seq::<char>::empty(),
        c matches CellValue::Text(s) ==> cell_text(c) == s@,
        c matches CellValue::Number(n) ==> cell_text(c) == number_text(n),
        c matches CellValue::Bytes(b) ==> cell_text(c) == bytes_text(b),
        c matches CellValue::Duration(d) ==> cell_text(c) == duration_text(d),
        c matches CellValue::Status { text, level } ==> cell_text(c) == text@ && cell_status(c)
            == Some(level),
        !(c is Status) ==> cell_status(c) is None,
{
}

/// The four levels are named by four words.
pub proof fn levels_are_named(level: StatusLevel)
    ensures
        level == StatusLevel::Okay <==> level.attr() == "ok"@,
        level == StatusLevel::Info <==> level.attr() == "info"@,
        level == StatusLevel::Warn <==> level.attr() == "warn"@,
        level == StatusLevel::Error <==> level.attr() == "error"@,
{
    reveal_strlit("ok");
    reveal_strlit("info");
    reveal_strlit("warn");
    reveal_strlit("error");
    assert("ok"@.len() == 2 && "info"@.len() == 4 && "warn"@.len() == 4 && "error"@.len() == 5);
    assert("info"@[0] == 'i' && "warn"@[0] == 'w');
}

/// A row has the cells that it was given and, past them, empty ones.
pub proof fn short_rows_end_in_empty_cells(row: RowView, col: usize)
    ensures
        col < row.cells.len() ==> row.cell_at(col) == row.cells[col as int] && row.cell(col as int)
            == row.cells[col as int],
        col >= row.cells.len() ==> row.cell_at(col) is Empty && row.cell(col as int) is Empty,
{
}

} // verus!
