//! What comes out of formatting and comparing values.

use vstd::prelude::*;
use vstd::utf8::encode_utf8;

use crate::data::{format_bytes, format_duration, CellValue, Duration, Row, StatusLevel};
use crate::data_laws::{
    byte_counts_read_to_the_nearest_tenth, bytes_before, decimals_stand_for_their_numbers,
    levels_are_named, measures, names_unit, nanoseconds, no_number, numbers_are_ordered_by_value,
    numeral, shown_in_unit, spans_read_to_the_smaller_unit,
    texts_are_ordered_by_their_first_difference, value_of, whole_numbers_read_in_plain_digits,
};
use crate::number::{compare_numbers, format_number, Number};
use crate::order::Order;
use crate::text::{compare_text, decimal, decimal_text, same_text};

verus! {

/// Is a text the number `n` in digits, without leading zeros?
pub open spec fn is_numeral(s: Seq<char>, n: int) -> bool {
    &&& s.len() > 0
    &&& s.len() > 1 ==> s[0] != '0'
    &&& forall|i: int| 0 <= i < s.len() ==> '0' <= #[trigger] s[i] <= '9'
    &&& numeral(s) == n
}

/// Does a text say two numbers, each with its unit?
pub open spec fn says(
    text: Seq<char>,
    a: int,
    big: Seq<char>,
    b: int,
    small: Seq<char>,
) -> bool {
    exists|x: Seq<char>, y: Seq<char>|
        #![trigger is_numeral(x, a), is_numeral(y, b)]
        is_numeral(x, a) && is_numeral(y, b) && text == x + big + y + small
}

/// A span reads in its largest unit and the next: seconds below a minute; minutes and
/// seconds; hours and minutes below 60; days and hours below 24. What the text says
/// is the span, less than one of the smaller unit left out.
pub proof fn formatted_spans_read_to_the_smaller_unit(d: Duration, r: String)
    requires
        call_ensures(format_duration, (d,), r),
    ensures
        d.secs < 60 ==> exists|x: Seq<char>| #[trigger]
            is_numeral(x, d.secs as int) && r@ == x + "s"@,
        60 <= d.secs < 3600 ==> exists|m: int, s: int| #[trigger]
            says(r@, m, "m"@, s, "s"@) && 0 <= s < 60 && 60 * m + s == d.secs,
        3600 <= d.secs < 86400 ==> exists|h: int, m: int| #[trigger]
            says(r@, h, "h"@, m, "m"@) && 0 <= m < 60 && 60 * (60 * h + m) <= d.secs < 60 * (60
                * h + m + 1),
        86400 <= d.secs ==> exists|days: int, h: int| #[trigger]
            says(r@, days, "d"@, h, "h"@) && 0 <= h < 24 && 3600 * (24 * days + h) <= d.secs < 3600
                * (24 * days + h + 1),
{
    spans_read_to_the_smaller_unit(d);
    if d.secs < 60 {
        decimals_stand_for_their_numbers(d.secs as nat);
        assert(is_numeral(decimal(d.secs as nat), d.secs as int));
    } else if d.secs < 3600 {
        let (m, s) = choose|m: nat, s: nat|
            #![trigger decimal(m), decimal(s)]
            s < 60 && 60 * m + s == d.secs && r@ == decimal(m) + "m"@ + decimal(s) + "s"@;
        lemma_says(r@, m, "m"@, s, "s"@);
    } else if d.secs < 86400 {
        let (h, m) = choose|h: nat, m: nat|
            #![trigger decimal(h), decimal(m)]
            m < 60 && 60 * (60 * h + m) <= d.secs < 60 * (60 * h + m + 1) && r@ == decimal(h)
                + "h"@ + decimal(m) + "m"@;
        lemma_says(r@, h, "h"@, m, "m"@);
    } else {
        let (days, h) = choose|days: nat, h: nat|
            #![trigger decimal(days), decimal(h)]
            h < 24 && 3600 * (24 * days + h) <= d.secs < 3600 * (24 * days + h + 1) && r@
                == decimal(days) + "d"@ + decimal(h) + "h"@;
        lemma_says(r@, days, "d"@, h, "h"@);
    }
}

proof fn lemma_says(text: Seq<char>, a: nat, big: Seq<char>, b: nat, small: Seq<char>)
    requires
        text == decimal(a) + big + decimal(b) + small,
    ensures
        says(text, a as int, big, b as int, small),
{
    decimals_stand_for_their_numbers(a);
    decimals_stand_for_their_numbers(b);
    assert(is_numeral(decimal(a), a as int) && is_numeral(decimal(b), b as int));
}

/// A count of bytes reads as it is below one KiB, and else to the nearest tenth of
/// the largest unit that it fills.
pub proof fn formatted_byte_counts_read_to_the_nearest_tenth(b: u64, r: String)
    requires
        call_ensures(format_bytes, (b,), r),
    ensures
        b < 1024 ==> exists|x: Seq<char>| #[trigger]
            is_numeral(x, b as int) && r@ == x + " B"@,
        b >= 1024 ==> exists|u: nat, whole: nat, tenth: nat, name: Seq<char>|
            #![trigger shown_in_unit(b as int, u, whole, tenth), names_unit(name, u)]
            shown_in_unit(b as int, u, whole, tenth) && names_unit(name, u) && says(
                r@,
                whole as int,
                "."@,
                tenth as int,
                " "@ + name,
            ),
{
    byte_counts_read_to_the_nearest_tenth(b);
    if b < 1024 {
        decimals_stand_for_their_numbers(b as nat);
        assert(is_numeral(decimal(b as nat), b as int));
    } else {
        let (u, whole, tenth, name) = choose|u: nat, whole: nat, tenth: nat, name: Seq<char>|
            #![trigger shown_in_unit(b as int, u, whole, tenth), names_unit(name, u)]
            shown_in_unit(b as int, u, whole, tenth) && names_unit(name, u) && r@ == decimal(whole)
                + "."@ + decimal(tenth) + " "@ + name;
        assert(decimal(whole) + "."@ + decimal(tenth) + " "@ + name =~= decimal(whole) + "."@
            + decimal(tenth) + (" "@ + name));
        lemma_says(r@, whole, "."@, tenth, " "@ + name);
        assert(shown_in_unit(b as int, u, whole, tenth) && names_unit(name, u));
    }
}

/// Spans are compared by their lengths.
pub proof fn compared_spans_are_ordered_by_length(a: Duration, b: Duration, r: Order)
    requires
        call_ensures(Duration::compare, (a, b), r),
    ensures
        r is Before <==> a.secs * 1_000_000_000 + a.nanos < b.secs * 1_000_000_000 + b.nanos,
        r is After <==> a.secs * 1_000_000_000 + a.nanos > b.secs * 1_000_000_000 + b.nanos,
{
}

/// Two spans are compared by their lengths, two counts of bytes by their size, and an
/// empty cell comes before any other, however texts are read.
pub proof fn compared_cells_are_ordered_by_what_they_hold<F: Fn(&str) -> Option<u64>>(
    a: CellValue,
    b: CellValue,
    read: F,
    r: Order,
)
    requires
        call_ensures(CellValue::compare::<F>, (&a, &b, &read), r),
        forall|s: &str| #[trigger] call_requires(read, (s,)),
    ensures
        (match (a, b) {
            (CellValue::Duration(x), CellValue::Duration(y)) => {
                &&& r is Before <==> nanoseconds(x) < nanoseconds(y)
                &&& r is After <==> nanoseconds(x) > nanoseconds(y)
            },
            (CellValue::Bytes(x), CellValue::Bytes(y)) => {
                &&& r is Before <==> x < y
                &&& r is After <==> x > y
            },
            (CellValue::Empty, CellValue::Empty) => r is Same,
            (CellValue::Empty, _) => r is Before,
            (_, CellValue::Empty) => r is After,
            _ => true,
        }),
{
}

/// A cell of a row is the one in its column, and empty where the row is too short.
pub proof fn cells_are_read_by_their_column(row: Row, col: usize, r: CellValue)
    requires
        call_ensures(Row::cell, (&row, col), &r),
    ensures
        col < row.cells@.len() ==> r == row.cells@[col as int],
        col >= row.cells@.len() ==> r is Empty,
{
}

/// What a cell displays: nothing, its text, or its value formatted.
pub proof fn cells_display_what_they_hold(c: CellValue, r: String, s: String)
    requires
        call_ensures(CellValue::display, (&c,), r),
    ensures
        c is Empty ==> r@.len() == 0,
        c matches CellValue::Text(t) ==> r@ == t@,
        c matches CellValue::Status { text, level } ==> r@ == text@,
        c matches CellValue::Duration(d) ==> (call_ensures(format_duration, (d,), s) ==> r@ == s@),
        c matches CellValue::Bytes(b) ==> (call_ensures(format_bytes, (b,), s) ==> r@ == s@),
        c matches CellValue::Number(n) ==> (call_ensures(format_number, (&n,), s) ==> r@ == s@),
{
}

/// A cell has a status exactly if it is one, and a status is named after its level.
pub proof fn statuses_are_named_after_their_level(
    c: CellValue,
    r: Option<StatusLevel>,
    level: StatusLevel,
    name: &'static str,
)
    requires
        call_ensures(CellValue::status, (&c,), r),
        call_ensures(StatusLevel::as_attr, (level,), name),
    ensures
        r == Some(level) <==> c is Status && c->level == level,
        r is Some <==> c is Status,
        level is Okay <==> name@ == "ok"@,
        level is Info <==> name@ == "info"@,
        level is Warn <==> name@ == "warn"@,
        level is Error <==> name@ == "error"@,
{
    levels_are_named(level);
}

/// Whole numbers below 10^15 read in plain digits, and others as they were written.
pub proof fn formatted_numbers_read_in_plain_digits(n: Number, r: String, m: nat)
    requires
        call_ensures(format_number, (&n,), r),
    ensures
        m < 1_000_000_000_000_000 && measures(n.bits, m) ==> r@ == if n.bits
            >= 0x8000_0000_0000_0000 && m > 0 {
            "-"@ + decimal(m)
        } else {
            decimal(m)
        },
        (forall|k: nat| #[trigger] measures(n.bits, k) ==> k >= 1_000_000_000_000_000) ==> r@
            == n.text@,
        is_numeral(decimal(m), m as int),
{
    whole_numbers_read_in_plain_digits(n);
    decimals_stand_for_their_numbers(m);
}

/// Numbers are compared by value, and one that is no number stays where it is.
pub proof fn compared_numbers_are_ordered_by_value(a: u64, b: u64, r: Order)
    requires
        call_ensures(compare_numbers, (a, b), r),
    ensures
        no_number(a) || no_number(b) ==> r is Same,
        !no_number(a) && !no_number(b) ==> {
            &&& r is Before <==> value_of(a) < value_of(b)
            &&& r is After <==> value_of(a) > value_of(b)
        },
{
    numbers_are_ordered_by_value(a, b);
}

/// Texts are compared by the first byte in which they differ, a text that ends there
/// coming first; and they are the same if no character differs.
pub proof fn compared_texts_are_ordered_by_their_first_difference(
    a: &str,
    b: &str,
    r: Order,
    same: bool,
)
    requires
        call_ensures(compare_text, (a, b), r),
        call_ensures(same_text, (a, b), same),
    ensures
        r is Before <==> bytes_before(encode_utf8(a@), encode_utf8(b@)),
        r is After <==> bytes_before(encode_utf8(b@), encode_utf8(a@)),
        same <==> a@ == b@,
{
    texts_are_ordered_by_their_first_difference(a@, b@);
}

/// A number is written in digits.
pub proof fn numbers_are_written_in_digits(n: u64, r: String)
    requires
        call_ensures(decimal_text, (n,), r),
    ensures
        is_numeral(r@, n as int),
{
    decimals_stand_for_their_numbers(n as nat);
}

} // verus!
