//! Cells, rows and keys.

use std::cmp::Ordering;

use rdom_virtualtable::data::{format_bytes, format_duration};
use rdom_virtualtable::number::{compare_numbers, format_number, short_whole};
use rdom_virtualtable::order::Order;
use rdom_virtualtable::text::{compare_text, decimal_text, same_text};
use rdom_virtualtable::{CellValue, Duration, Number, Row, RowKey, StatusLevel};

/// A number cell of a double.
fn number(n: f64) -> CellValue {
    CellValue::Number(Number {
        bits: n.to_bits(),
        text: format!("{n}"),
    })
}

/// The number that a text spells, by its bits.
fn read(s: &str) -> Option<u64> {
    s.trim().parse::<f64>().ok().map(|n| n.to_bits())
}

#[test]
fn row_key_clone_and_eq() {
    let a: RowKey = "ns\u{1}pod-1".into();
    let b = a.clone();
    assert_eq!(a, b);
    assert_eq!(a.as_str(), "ns\u{1}pod-1");
    let c: RowKey = String::from("other").into();
    assert_ne!(a, c);
}

#[test]
fn row_key_debug_and_text() {
    let a = RowKey::new("k1");
    assert_eq!(format!("{a:?}"), "RowKey(\"k1\")");
    assert_eq!(a.to_string(), "k1");
    assert_eq!(RowKey::new(String::from("k1")), a);
}

#[test]
fn str_becomes_text_cell() {
    assert_eq!(CellValue::from("hi"), CellValue::Text("hi".into()));
    assert_eq!(
        CellValue::from(String::from("yo")),
        CellValue::Text("yo".into())
    );
}

#[test]
fn display_strings() {
    assert_eq!(CellValue::Empty.display(), "");
    assert_eq!(CellValue::Text("x".into()).display(), "x");
    assert_eq!(number(42.0).display(), "42");
    assert_eq!(CellValue::Bytes(2048).display(), "2.0 KiB");
    assert_eq!(CellValue::Bytes(512).display(), "512 B");
    assert_eq!(
        CellValue::Duration(Duration::from_secs(90)).display(),
        "1m30s"
    );
    assert_eq!(
        CellValue::Status {
            text: "Running".into(),
            level: StatusLevel::Okay
        }
        .display(),
        "Running"
    );
}

#[test]
fn sort_cmp_numeric_and_text() {
    // Two Numbers compare by value.
    assert_eq!(number(2.0).sort_cmp(&number(10.0), &read), Ordering::Less);
    // Two Texts that both parse compare numerically ("2" < "10").
    assert_eq!(
        CellValue::from("2").sort_cmp(&CellValue::from("10"), &read),
        Ordering::Less
    );
    // Plain text is lexicographic.
    assert_eq!(
        CellValue::from("apple").sort_cmp(&CellValue::from("banana"), &read),
        Ordering::Less
    );
    // Bytes compare by value, not display string ("2.0 KiB" vs "512 B").
    assert_eq!(
        CellValue::Bytes(512).sort_cmp(&CellValue::Bytes(2048), &read),
        Ordering::Less
    );
    // Empty sorts first.
    assert_eq!(
        CellValue::Empty.sort_cmp(&CellValue::from("a"), &read),
        Ordering::Less
    );
}

#[test]
fn sort_cmp_of_mixed_cells_goes_by_text() {
    // A number and a text that spells one compare as numbers.
    assert_eq!(
        number(9.0).sort_cmp(&CellValue::from(" 10 "), &read),
        Ordering::Less
    );
    // A byte count and a text compare by their texts.
    assert_eq!(
        CellValue::Bytes(2048).sort_cmp(&CellValue::from("10"), &read),
        Ordering::Greater
    );
    assert_eq!(
        CellValue::Empty.sort_cmp(&CellValue::Empty, &read),
        Ordering::Equal
    );
    assert_eq!(
        CellValue::from("a").sort_cmp(&CellValue::Empty, &read),
        Ordering::Greater
    );
    // What is no number is equal to every number.
    assert_eq!(
        number(f64::NAN).sort_cmp(&number(1.0), &read),
        Ordering::Equal
    );
}

#[test]
fn durations_order_by_length() {
    let short = CellValue::Duration(Duration {
        secs: 1,
        nanos: 999_999_999,
    });
    let long = CellValue::Duration(Duration::from_secs(2));
    assert_eq!(short.sort_cmp(&long, &read), Ordering::Less);
    assert_eq!(long.sort_cmp(&short, &read), Ordering::Greater);
    assert_eq!(long.sort_cmp(&long, &read), Ordering::Equal);
}

#[test]
fn row_cell_access_is_clamped() {
    let r = Row::new("k", vec![CellValue::from("a")]);
    assert_eq!(r.cell(0), &CellValue::Text("a".into()));
    assert_eq!(r.cell(5), &CellValue::Empty);
}

#[test]
fn status_level_attr() {
    assert_eq!(StatusLevel::Warn.as_attr(), "warn");
    assert_eq!(
        CellValue::Status {
            text: "x".into(),
            level: StatusLevel::Error
        }
        .status(),
        Some(StatusLevel::Error)
    );
    assert_eq!(CellValue::from("x").status(), None);
}

#[test]
fn every_status_level_has_its_attribute() {
    assert_eq!(StatusLevel::Okay.as_attr(), "ok");
    assert_eq!(StatusLevel::Info.as_attr(), "info");
    assert_eq!(StatusLevel::Error.as_attr(), "error");
}

/// The text of a byte count in floating-point arithmetic.
fn float_bytes(b: u64) -> String {
    let units = ["B", "KiB", "MiB", "GiB", "TiB", "PiB"];
    let mut v = b as f64;
    let mut u = 0;
    while v >= 1024.0 && u < units.len() - 1 {
        v /= 1024.0;
        u += 1;
    }
    if u == 0 {
        format!("{b} B")
    } else {
        format!("{v:.1} {}", units[u])
    }
}

#[test]
fn byte_counts_read_as_in_floating_point() {
    let mut counts: Vec<u64> = vec![0, 1, 1023, 1024, 1025, 1536, 1587, 1588, 10239, 10240];
    for shift in 0..64 {
        let p = 1u64 << shift;
        for delta in 0..4 {
            counts.push(p.saturating_sub(delta));
            counts.push(p.saturating_add(delta));
            counts.push(p.saturating_add(p / 2 + delta));
            counts.push(p.saturating_add(p / 20 + delta));
            counts.push(p.saturating_add(p / 4).saturating_add(delta));
        }
    }
    // Halves between two tenths, and their neighbours, in every unit.
    for unit in 1..6u32 {
        let size = 1024u128.pow(unit);
        for k in 10..400u128 {
            let mid = (2 * k + 1) * size / 20;
            for d in 0..3u128 {
                if mid + d <= u64::MAX as u128 {
                    counts.push((mid + d) as u64);
                    counts.push((mid - d) as u64);
                }
            }
        }
    }
    let mut x: u64 = 0x9e37_79b9_7f4a_7c15;
    for _ in 0..20_000 {
        x ^= x << 13;
        x ^= x >> 7;
        x ^= x << 17;
        counts.push(x >> (x & 63));
    }
    counts.push(u64::MAX);
    counts.push((1 << 53) + 1);
    counts.push((1 << 60) + 129);
    for b in counts {
        assert_eq!(format_bytes(b), float_bytes(b), "{b}");
    }
}

#[test]
fn durations_show_their_two_largest_units() {
    let text = |s: u64| format_duration(Duration::from_secs(s));
    assert_eq!(text(0), "0s");
    assert_eq!(text(59), "59s");
    assert_eq!(text(60), "1m0s");
    assert_eq!(text(3599), "59m59s");
    assert_eq!(text(3600), "1h0m");
    assert_eq!(text(86399), "23h59m");
    assert_eq!(text(86400), "1d0h");
    assert_eq!(text(3 * 86400 + 4 * 3600 + 59), "3d4h");
}

/// The text of a number in floating-point arithmetic.
fn float_number(n: f64) -> String {
    if n.fract() == 0.0 && n.abs() < 1e15 {
        format!("{}", n as i64)
    } else {
        format!("{n}")
    }
}

#[test]
fn numbers_read_as_in_floating_point() {
    let mut numbers = vec![
        0.0,
        -0.0,
        0.5,
        1.0,
        -1.0,
        42.0,
        1.5,
        -2.25,
        999_999_999_999_999.0,
        1e15,
        -1e15,
        999_999_999_999_999.9,
        1_125_899_906_842_624.0,
        1e300,
        f64::MIN_POSITIVE,
        5e-324,
        f64::MAX,
        f64::INFINITY,
        f64::NEG_INFINITY,
        f64::NAN,
        0.1,
        1e-7,
    ];
    let mut x: u64 = 0x2545_f491_4f6c_dd1d;
    for _ in 0..20_000 {
        x ^= x << 13;
        x ^= x >> 7;
        x ^= x << 17;
        numbers.push(f64::from_bits(x));
        numbers.push((x >> (x & 63)) as f64);
        numbers.push(-((x >> 20) as f64) / 8.0);
    }
    for n in numbers {
        let cell = Number {
            bits: n.to_bits(),
            text: format!("{n}"),
        };
        assert_eq!(format_number(&cell), float_number(n), "{n}");
    }
    assert_eq!(short_whole(7.0f64.to_bits()), Some(7));
    assert_eq!(short_whole(7.5f64.to_bits()), None);
}

#[test]
fn numbers_order_as_in_floating_point() {
    let mut numbers = vec![
        0.0,
        -0.0,
        1.0,
        -1.0,
        1.5,
        -1.5,
        1e300,
        -1e300,
        5e-324,
        -5e-324,
        f64::INFINITY,
        f64::NEG_INFINITY,
        f64::NAN,
    ];
    let mut x: u64 = 0x9e37_79b9_7f4a_7c15;
    for _ in 0..200 {
        x ^= x << 13;
        x ^= x >> 7;
        x ^= x << 17;
        numbers.push(f64::from_bits(x));
    }
    for a in &numbers {
        for b in &numbers {
            let want = match a.partial_cmp(b) {
                Some(Ordering::Less) => Order::Before,
                Some(Ordering::Greater) => Order::After,
                _ => Order::Same,
            };
            assert_eq!(compare_numbers(a.to_bits(), b.to_bits()), want, "{a} {b}");
            let equal = Number {
                bits: a.to_bits(),
                text: String::new(),
            } == Number {
                bits: b.to_bits(),
                text: String::new(),
            };
            assert_eq!(equal, a == b);
        }
    }
}

#[test]
fn texts_order_and_equal_as_strings() {
    let texts = ["", "a", "ab", "b", "10", "2", "é", "z", "\u{1f600}", "aé"];
    for a in texts {
        for b in texts {
            let want = match a.cmp(b) {
                Ordering::Less => Order::Before,
                Ordering::Greater => Order::After,
                Ordering::Equal => Order::Same,
            };
            assert_eq!(compare_text(a, b), want);
            assert_eq!(same_text(a, b), a == b);
        }
    }
    assert_eq!(decimal_text(0), "0");
    assert_eq!(decimal_text(u64::MAX), format!("{}", u64::MAX));
}
