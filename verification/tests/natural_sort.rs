use mangapress::natural_sort::{compare, compare_paths};
use std::cmp::Ordering;
use std::path::PathBuf;

#[test]
fn numeric_runs_compare_numerically_not_lexicographically() {
    assert_eq!(compare("page2.jpg", "page10.jpg"), Ordering::Less);
}

#[test]
fn equal_strings_compare_equal() {
    assert_eq!(compare("page002.jpg", "page002.jpg"), Ordering::Equal);
}

#[test]
fn purely_textual_strings_fall_back_to_lexicographic() {
    assert_eq!(compare("apple.jpg", "banana.jpg"), Ordering::Less);
}

#[test]
fn chapter_paths_sort_by_directory_first_then_by_file() {
    let a = PathBuf::from("c001 - Title One/page002.jpg");
    let b = PathBuf::from("c002 - Title Two/page001.jpg");
    assert_eq!(compare_paths(a.to_str().unwrap(), b.to_str().unwrap()), Ordering::Less);
}

#[test]
fn double_digit_chapter_sorts_after_single_digit() {
    let a = PathBuf::from("c2 - Two/page001.jpg");
    let b = PathBuf::from("c10 - Ten/page001.jpg");
    assert_eq!(compare_paths(a.to_str().unwrap(), b.to_str().unwrap()), Ordering::Less);
}

#[test]
fn natural_order_is_antisymmetric_and_leading_zeros_compare_equal() {
    assert_eq!(compare("page10.jpg", "page2.jpg"), Ordering::Greater);
    assert_eq!(compare("a01", "a1"), Ordering::Equal);
    assert_eq!(compare("a", "a1"), Ordering::Less);
    assert_eq!(compare("1", "a"), Ordering::Less);
}

#[test]
fn natural_order_is_transitive_on_a_chain() {
    let names = ["p1", "p2", "p10", "p010a", "q"];
    for i in 0..names.len() {
        for j in (i + 1)..names.len() {
            assert_ne!(compare(names[i], names[j]), Ordering::Greater, "{} vs {}", names[i], names[j]);
        }
    }
}

#[test]
fn huge_numbers_saturate_and_compare_equal() {
    assert_eq!(
        compare("p99999999999999999999999", "p88888888888888888888888"),
        Ordering::Equal
    );
}

#[test]
fn paths_compare_component_by_component() {
    assert_eq!(compare_paths("a/b10", "a/b9"), Ordering::Greater);
    assert_eq!(compare_paths("a//b", "a/b"), Ordering::Equal);
    assert_eq!(compare_paths("a/b", "a/b/c"), Ordering::Less);
    assert_eq!(compare_paths("a1b/x", "a1/bx"), Ordering::Greater);
}

#[test]
fn a_leading_root_is_its_own_first_component() {
    assert_eq!(compare_paths("/b", "a"), Ordering::Less);
    assert_eq!(compare_paths("a", "/b"), Ordering::Greater);
    assert_eq!(compare_paths("/a/b", "/a/b"), Ordering::Equal);
}
