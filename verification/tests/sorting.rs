use natural_sort_rs::NaturalSort;
use std::path::PathBuf;

fn names() -> Vec<&'static str> {
    vec!["file1.txt", "file1B.txt", "file00.txt", "file11.txt", "file0002.txt"]
}

const SORTED_NAMES: [&str; 5] = ["file00.txt", "file1.txt", "file1B.txt", "file0002.txt", "file11.txt"];

#[test]
fn three_files() {
    let mut files = ["file2.txt", "file11.txt", "file1.txt"];
    files.natural_sort::<str>();
    assert_eq!(files, ["file1.txt", "file2.txt", "file11.txt"]);
}

#[test]
fn unstable_sort_of_names() {
    let mut files = names();
    files.natural_sort_unstable::<str>();
    assert_eq!(files, SORTED_NAMES);
    let mut files = ["file0002.txt", "file1.txt"];
    files.natural_sort_unstable::<str>();
    assert_eq!(files, ["file1.txt", "file0002.txt"]);
}

#[test]
fn stable_sort_as_bytes() {
    let mut files: Vec<Vec<u8>> = names().into_iter().map(|name| name.as_bytes().to_vec()).collect();
    files.natural_sort::<[u8]>();
    let expected: Vec<Vec<u8>> = SORTED_NAMES.iter().map(|name| name.as_bytes().to_vec()).collect();
    assert_eq!(files, expected);
}

#[test]
fn integers_by_their_decimal_text() {
    let mut numbers = [4, 2, 3, 1];
    numbers.natural_sort_unstable_by_key::<str, _, _>(|x| x.to_string());
    assert_eq!(numbers, [1, 2, 3, 4]);

    let mut numbers = [4, 2, 3, 1];
    numbers.natural_sort_by_key::<str, _, _>(|x| x.to_string());
    assert_eq!(numbers, [1, 2, 3, 4]);

    let mut numbers = [4, 2, 3, 1];
    numbers.natural_sort_by_cached_key::<str, _, _>(|x| x.to_string());
    assert_eq!(numbers, [1, 2, 3, 4]);

    let mut numbers = [100, 9, 20, 1000, 3];
    numbers.natural_sort_by_key::<[u8], _, _>(|x| x.to_string().into_bytes());
    assert_eq!(numbers, [3, 9, 20, 100, 1000]);
}

#[test]
fn paths_by_bytes_and_by_text_agree() {
    let paths = ["dir/file10", "dir/file9", "dir2/a", "dir10/a", "dir/file1", "file4", "file3"];
    let mut by_bytes: Vec<PathBuf> = paths.iter().map(PathBuf::from).collect();
    by_bytes.natural_sort_by_key::<[u8], _, _>(|x| x.as_os_str().as_encoded_bytes().to_owned());
    let mut by_text: Vec<PathBuf> = paths.iter().map(PathBuf::from).collect();
    by_text.natural_sort_by_key::<str, _, _>(|x| x.to_str().unwrap().to_owned());
    assert_eq!(by_bytes, by_text);
    let expected: Vec<PathBuf> =
        ["dir/file1", "dir/file9", "dir/file10", "dir2/a", "dir10/a", "file3", "file4"]
            .iter()
            .map(PathBuf::from)
            .collect();
    assert_eq!(by_bytes, expected);

    let mut cached: Vec<PathBuf> = ["file1", "file2", "file4", "file3"].iter().map(PathBuf::from).collect();
    cached.natural_sort_by_cached_key::<[u8], _, _>(|x| x.as_os_str().as_encoded_bytes().to_owned());
    let expected: Vec<PathBuf> = ["file1", "file2", "file3", "file4"].iter().map(PathBuf::from).collect();
    assert_eq!(cached, expected);
}

#[test]
fn stable_sorts_keep_equal_elements_in_order() {
    // "a1", "a01" and "a001" are equal in natural order.
    let input = ["b", "a01", "a2", "a1", "a", "a001", "a02"];
    let expected = ["a", "a01", "a1", "a001", "a2", "a02", "b"];

    let mut direct = input;
    direct.natural_sort::<str>();
    assert_eq!(direct, expected);

    let mut by_key = input;
    by_key.natural_sort_by_key::<str, _, _>(|x| x.to_string());
    assert_eq!(by_key, expected);

    let mut cached = input;
    cached.natural_sort_by_cached_key::<str, _, _>(|x| x.to_string());
    assert_eq!(cached, expected);
}

#[test]
fn unstable_sorts_keep_the_elements() {
    let input = ["b", "a01", "a2", "a1", "a", "a001", "a02"];
    let mut direct = input;
    direct.natural_sort_unstable::<str>();
    let mut by_key = input;
    by_key.natural_sort_unstable_by_key::<str, _, _>(|x| x.to_string());
    for sorted in [direct, by_key] {
        assert_eq!(sorted[0], "a");
        assert_eq!(sorted[6], "b");
        let mut ones = sorted[1..4].to_vec();
        ones.sort();
        assert_eq!(ones, ["a001", "a01", "a1"]);
        let mut twos = sorted[4..6].to_vec();
        twos.sort();
        assert_eq!(twos, ["a02", "a2"]);
    }
}

#[test]
fn sorting_a_sorted_sequence_changes_nothing() {
    let mut files = SORTED_NAMES;
    files.natural_sort::<str>();
    assert_eq!(files, SORTED_NAMES);
    files.natural_sort_unstable::<str>();
    assert_eq!(files, SORTED_NAMES);
    files.natural_sort_by_key::<str, _, _>(|x| x.to_string());
    assert_eq!(files, SORTED_NAMES);
    files.natural_sort_by_cached_key::<str, _, _>(|x| x.to_string());
    assert_eq!(files, SORTED_NAMES);
}

#[test]
fn repeated_stable_sorts_keep_equal_elements_in_order() {
    let mut once = ["x07", "x7", "x007", "x1", "x0007"];
    once.natural_sort::<str>();
    assert_eq!(once, ["x1", "x07", "x7", "x007", "x0007"]);
    let mut twice = once;
    twice.natural_sort::<str>();
    assert_eq!(twice, once);
    twice.natural_sort_by_cached_key::<str, _, _>(|x| x.to_string());
    assert_eq!(twice, once);
}

#[test]
fn empty_and_single_sequences() {
    let mut none: [&str; 0] = [];
    none.natural_sort::<str>();
    none.natural_sort_unstable::<str>();
    none.natural_sort_by_cached_key::<str, _, _>(|x| x.to_string());
    assert_eq!(none.len(), 0);
    let mut one = ["only10"];
    one.natural_sort::<str>();
    one.natural_sort_unstable::<str>();
    one.natural_sort_by_key::<str, _, _>(|x| x.to_string());
    one.natural_sort_by_cached_key::<str, _, _>(|x| x.to_string());
    assert_eq!(one, ["only10"]);
}

#[test]
fn cached_keys_are_asked_for_once_per_element() {
    for len in 0usize..40 {
        let mut numbers: Vec<usize> = (0..len).map(|i| (i * 7919) % 101).collect();
        let mut calls = 0;
        numbers.natural_sort_by_cached_key::<str, _, _>(|x| {
            calls += 1;
            x.to_string()
        });
        assert_eq!(calls, len);
        let mut expected: Vec<usize> = (0..len).map(|i| (i * 7919) % 101).collect();
        expected.sort();
        assert_eq!(numbers, expected);
    }
}

#[test]
fn cached_sort_moves_every_element_to_its_place() {
    let mut letters = ["e5", "d4", "a1", "c3", "b2", "f06", "g7", "a01"];
    letters.natural_sort_by_cached_key::<str, _, _>(|x| x[1..].to_string());
    assert_eq!(letters, ["a1", "a01", "b2", "c3", "d4", "e5", "f06", "g7"]);
    let mut reversed: Vec<u32> = (0..50).rev().collect();
    reversed.natural_sort_by_cached_key::<[u8], _, _>(|x| x.to_string().into_bytes());
    let expected: Vec<u32> = (0..50).collect();
    assert_eq!(reversed, expected);
}

#[test]
fn uncached_keys_are_asked_for_on_demand() {
    let mut numbers = [5, 3, 8, 1, 9, 2];
    let mut calls = 0;
    numbers.natural_sort_by_key::<str, _, _>(|x| {
        calls += 1;
        x.to_string()
    });
    assert_eq!(numbers, [1, 2, 3, 5, 8, 9]);
    assert!(calls >= numbers.len());
}

#[test]
fn cache_keys_asks_once_per_element_in_order() {
    let words = ["b2", "a1", "c3"];
    let mut asked: Vec<&str> = Vec::new();
    let cache = natural_sort_rs::cached::cache_keys(&words, |x: &&'static str| {
        asked.push(*x);
        x.len() + 10
    });
    assert_eq!(asked, ["b2", "a1", "c3"]);
    assert_eq!(cache.len(), 3);
    for (place, entry) in cache.iter().enumerate() {
        assert_eq!(entry.index, place);
        assert_eq!(entry.key, 12);
    }
}

#[test]
fn place_in_order_follows_the_entries() {
    let mut words = ["zero", "one", "two", "three", "four"];
    let cache: Vec<natural_sort_rs::cached::Cached<()>> = [3usize, 0, 4, 1, 2]
        .iter()
        .map(|&index| natural_sort_rs::cached::Cached { key: (), index })
        .collect();
    natural_sort_rs::cached::place_in_order(&mut words, &cache);
    assert_eq!(words, ["three", "zero", "four", "one", "two"]);
}
