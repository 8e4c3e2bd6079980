use natural_sort_rs::natural_cmp;
use natural_sort_rs::order::{cmp_ascii, cmp_digits, cmp_lexical};
use natural_sort_rs::NaturalSortable;
use std::cmp::Ordering;

const SAMPLES: [&str; 24] = [
    "", "0", "00", "007", "7", "07", "10", "9", "a", "a0", "a00", "a1", "a01", "a7b", "a07b",
    "a10", "a9", "b", "file1B.txt", "file0002.txt", "file11.txt", "-1", "~", "1~",
];

#[test]
fn digit_runs_compare_by_magnitude() {
    assert_eq!(cmp_ascii(b"file2.txt", b"file11.txt"), Ordering::Less);
    assert_eq!(cmp_ascii(b"file11.txt", b"file2.txt"), Ordering::Greater);
    assert_eq!(cmp_ascii(b"file2.txt", b"file2.txt"), Ordering::Equal);
}

#[test]
fn run_meets_a_literal_byte_at_one_position() {
    assert_eq!(cmp_ascii(b"file0002.txt", b"file1B.txt"), Ordering::Greater);
    assert_eq!(cmp_ascii(b"file0002.txt", b"file11.txt"), Ordering::Less);
}

#[test]
fn leading_zeros_do_not_count() {
    assert_eq!(cmp_ascii(b"007", b"7"), Ordering::Equal);
    assert_eq!(cmp_ascii(b"a7b", b"a07b"), Ordering::Equal);
    assert_eq!(cmp_ascii(b"000", b"0"), Ordering::Equal);
    assert_eq!(cmp_ascii(b"0", b"1"), Ordering::Less);
    assert_eq!(cmp_ascii(b"file00.txt", b"file1.txt"), Ordering::Less);
}

#[test]
fn empty_spans() {
    assert_eq!(cmp_ascii(b"", b""), Ordering::Equal);
    assert_eq!(cmp_ascii(b"", b"0"), Ordering::Less);
    assert_eq!(cmp_ascii(b"a", b""), Ordering::Greater);
}

#[test]
fn a_span_that_ends_first_comes_first() {
    assert_eq!(cmp_ascii(b"file", b"file1"), Ordering::Less);
    assert_eq!(cmp_ascii(b"file1", b"file1a"), Ordering::Less);
    assert_eq!(cmp_ascii(b"file01a", b"file1"), Ordering::Greater);
}

#[test]
fn digit_against_other_byte_compares_by_value() {
    // '-' is below the digits, 'a' and '~' are above them.
    assert_eq!(cmp_ascii(b"x1", b"x-"), Ordering::Greater);
    assert_eq!(cmp_ascii(b"x1", b"xa"), Ordering::Less);
    assert_eq!(cmp_ascii(b"x999", b"x~"), Ordering::Less);
}

#[test]
fn bytes_above_ascii_compare_by_value() {
    assert_eq!(cmp_ascii(&[0xff, 0x31], &[0xff, 0x30, 0x32]), Ordering::Less);
    assert_eq!(cmp_ascii(&[0x80], &[0x7f]), Ordering::Greater);
}

#[test]
fn long_digit_runs_do_not_overflow() {
    let a = format!("n{}", "9".repeat(100));
    let b = format!("n1{}", "0".repeat(100));
    assert_eq!(cmp_ascii(a.as_bytes(), b.as_bytes()), Ordering::Less);
    assert_eq!(cmp_ascii(b.as_bytes(), a.as_bytes()), Ordering::Greater);
}

#[test]
fn cmp_digits_takes_both_runs() {
    let mut a: &[u8] = b"0012ab";
    let mut b: &[u8] = b"3";
    assert_eq!(cmp_digits(&mut a, &mut b), Ordering::Greater);
    assert_eq!(a, b"ab");
    assert_eq!(b, b"");
    let mut a: &[u8] = b"19x";
    let mut b: &[u8] = b"0021";
    assert_eq!(cmp_digits(&mut a, &mut b), Ordering::Less);
    assert_eq!(a, b"x");
    assert_eq!(b, b"");
}

#[test]
fn cmp_lexical_is_the_order_of_slices() {
    for a in SAMPLES {
        for b in SAMPLES {
            assert_eq!(cmp_lexical(a.as_bytes(), b.as_bytes()), a.as_bytes().cmp(b.as_bytes()));
        }
    }
}

#[test]
fn reversed_when_sides_are_swapped() {
    for a in SAMPLES {
        assert_eq!(cmp_ascii(a.as_bytes(), a.as_bytes()), Ordering::Equal);
        for b in SAMPLES {
            assert_eq!(
                cmp_ascii(b.as_bytes(), a.as_bytes()),
                cmp_ascii(a.as_bytes(), b.as_bytes()).reverse()
            );
        }
    }
}

#[test]
fn transitive_on_all_triples() {
    for a in SAMPLES {
        for b in SAMPLES {
            for c in SAMPLES {
                let ab = cmp_ascii(a.as_bytes(), b.as_bytes());
                let bc = cmp_ascii(b.as_bytes(), c.as_bytes());
                let ac = cmp_ascii(a.as_bytes(), c.as_bytes());
                if ab != Ordering::Greater && bc != Ordering::Greater {
                    assert_ne!(ac, Ordering::Greater);
                    assert_eq!(
                        ac == Ordering::Equal,
                        ab == Ordering::Equal && bc == Ordering::Equal
                    );
                }
            }
        }
    }
}

#[test]
fn numbers_compare_as_numbers() {
    for m in 0u32..120 {
        for n in 0u32..120 {
            let plain_m = m.to_string();
            let padded_n = format!("{:05}", n);
            assert_eq!(cmp_ascii(plain_m.as_bytes(), padded_n.as_bytes()), m.cmp(&n));
            assert_eq!(cmp_ascii(padded_n.as_bytes(), plain_m.as_bytes()), n.cmp(&m));
        }
    }
    assert_eq!(cmp_ascii(b"0099", b"100"), Ordering::Less);
}

#[test]
fn without_digits_the_order_is_lexical() {
    let words = ["", "a", "ab", "abc", "abd", "b", "B", "~", "-x", "zebra", "Zebra"];
    for a in words {
        for b in words {
            assert_eq!(cmp_ascii(a.as_bytes(), b.as_bytes()), a.as_bytes().cmp(b.as_bytes()));
        }
    }
}

#[test]
fn both_views_read_the_same_bytes() {
    for a in SAMPLES {
        for b in SAMPLES {
            let expected = cmp_ascii(a.as_bytes(), b.as_bytes());
            assert_eq!(a.natural_cmp(b), expected);
            assert_eq!(a.as_bytes().natural_cmp(b.as_bytes()), expected);
            assert_eq!(natural_cmp::<str, str>(a, b), expected);
            assert_eq!(natural_cmp::<[u8], str>(a, b), expected);
            assert_eq!(natural_cmp::<[u8], [u8]>(a.as_bytes(), b.as_bytes()), expected);
        }
    }
}

#[test]
fn natural_cmp_reads_owned_values() {
    let a = String::from("file0002.txt");
    let b = String::from("file11.txt");
    assert_eq!(natural_cmp::<str, String>(&a, &b), Ordering::Less);
    assert_eq!(natural_cmp::<[u8], String>(&b, &a), Ordering::Greater);
    let x: Vec<u8> = b"x10".to_vec();
    let y: Vec<u8> = b"x9".to_vec();
    assert_eq!(natural_cmp::<[u8], Vec<u8>>(&x, &y), Ordering::Greater);
    assert_eq!(natural_cmp::<str, &str>(&"x10", &"x9"), Ordering::Greater);
}
