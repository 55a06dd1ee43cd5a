use std::cmp::Ordering;

use partwal::state::{Operation, Part};
use partwal::upload::{compare_file_names, configure_parts, digest_bytes};

#[test]
fn file_names_order_lexicographically() {
    assert_eq!(compare_file_names("a", "b"), Ordering::Less);
    assert_eq!(compare_file_names("b", "a"), Ordering::Greater);
    assert_eq!(compare_file_names("same", "same"), Ordering::Equal);
    assert_eq!(compare_file_names("a", "ab"), Ordering::Less);
    assert_eq!(compare_file_names("ab", "a"), Ordering::Greater);
    assert_eq!(compare_file_names("", "a"), Ordering::Less);
    assert_eq!(compare_file_names("part10", "part2"), Ordering::Less);
    assert_eq!(compare_file_names("dir/a", "dir/b"), Ordering::Less);
}

#[test]
fn sorting_with_the_comparison_fixes_part_order() {
    let mut paths = vec![
        String::from("c.bin"),
        String::from("a.bin"),
        String::from("b.bin"),
    ];
    paths.sort_by(|a, b| compare_file_names(a, b));
    assert_eq!(
        paths,
        vec![
            String::from("a.bin"),
            String::from("b.bin"),
            String::from("c.bin"),
        ]
    );
}

#[test]
fn configured_parts_are_numbered_in_order() {
    let op = configure_parts(vec![String::from("a.bin"), String::from("b.bin")]);
    assert_eq!(
        op,
        Operation::ConfiguredParts(vec![
            Part::new(1, String::from("a.bin")),
            Part::new(2, String::from("b.bin")),
        ])
    );
}

#[test]
fn configured_parts_of_nothing_is_empty() {
    assert_eq!(configure_parts(vec![]), Operation::ConfiguredParts(vec![]));
}

#[test]
fn digest_has_known_values() {
    let (len, hash) = digest_bytes(&b"hello".to_vec());
    assert_eq!(len, 5);
    assert_eq!(hash, "XUFAKrxLKna5cZ2REBfFkg==");

    let (len, hash) = digest_bytes(&Vec::new());
    assert_eq!(len, 0);
    assert_eq!(hash, "1B2M2Y8AsgTpgAmY7PhCfg==");

    let (len, hash) = digest_bytes(&b"abc".to_vec());
    assert_eq!(len, 3);
    assert_eq!(hash, "kAFQmDzST7DWlj99KOF/cg==");
}
