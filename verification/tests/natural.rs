use natural_sort_rs::{Natural, NaturalAscii, NaturalSort};
use std::cmp::Ordering;

#[test]
fn it_works() {
    let mut files = ["file2.txt", "file11.txt", "file1.txt"];
    files.sort();
    assert_eq!(files, ["file1.txt", "file11.txt", "file2.txt"]);

    assert!(Natural::str("file0002.txt") > Natural::str("file1B.txt"));
    assert!(Natural::str("file0002.txt") < Natural::str("file11.txt"));

    let mut files = [
        "file1.txt",
        "file1B.txt",
        "file00.txt",
        "file11.txt",
        "file0002.txt",
    ];

    files.natural_sort::<str>();

    // Here, "file11.txt" comes last because `natural_sort` saw that there was a
    // number inside the string, and did a numerical, rather than lexical,
    // comparison.
    assert_eq!(
        files,
        [
            "file00.txt",
            "file1.txt",
            "file1B.txt",
            "file0002.txt",
            "file11.txt"
        ]
    );
}

#[test]
fn constructors_keep_the_value() {
    assert_eq!(Natural::<&str, str>::new("x1").0, "x1");
    assert_eq!(Natural::<Vec<u8>, [u8]>::new(vec![1, 2]).0, vec![1, 2]);
    assert_eq!(Natural::str(String::from("x2")).0, "x2");
    assert_eq!(NaturalAscii::ascii("x3").0, "x3");
}

#[test]
fn wrapped_values_order_naturally_not_natively() {
    // As plain strings "file11.txt" comes before "file2.txt".
    assert!("file11.txt" < "file2.txt");
    assert!(Natural::str("file2.txt") < Natural::str("file11.txt"));
    assert!(Natural::str("file11.txt") >= Natural::str("file2.txt"));
    assert!(NaturalAscii::ascii(b"file2.txt".to_vec()) < NaturalAscii::ascii(b"file11.txt".to_vec()));
    assert!(NaturalAscii::ascii("a10") > NaturalAscii::ascii("a9"));
}

#[test]
fn equality_is_equality_in_natural_order() {
    assert!(Natural::str("file2.txt") == Natural::str("file2.txt"));
    assert!(Natural::str("file2.txt") != Natural::str("file3.txt"));
    assert!(Natural::str("a007") == Natural::str("a7"));
    assert!(Natural::str("a007") <= Natural::str("a7"));
    assert!(Natural::str("a007") >= Natural::str("a7"));
}

#[test]
fn three_way_comparison() {
    let a = Natural::str("file0002.txt");
    let b = Natural::str("file1B.txt");
    assert_eq!(a.cmp(&b), Ordering::Greater);
    assert_eq!(b.cmp(&a), Ordering::Less);
    assert_eq!(a.cmp(&a), Ordering::Equal);
    assert_eq!(a.partial_cmp(&b), Some(Ordering::Greater));
}

#[test]
fn as_ref_gives_the_view() {
    let text = Natural::str(String::from("x10"));
    assert_eq!(text.as_ref(), "x10");
    let bytes = NaturalAscii::ascii(String::from("x10"));
    assert_eq!(bytes.as_ref(), b"x10");
}

#[test]
fn clone_keeps_the_value() {
    let a = Natural::str(String::from("x10"));
    let b = a.clone();
    assert_eq!(b.0, "x10");
    assert!(a == b);
}

#[test]
fn wrapped_values_wrap_again() {
    let a = Natural::str(Natural::str("x9"));
    let b = Natural::str(Natural::str("x10"));
    assert!(a < b);
}
