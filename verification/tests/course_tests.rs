use selector_air::borrowing::{double_all, find_max_index, sum_slice};
use selector_air::memory::Person;
use selector_air::ownership::{calculate_length, first_word, safe_slice};
use selector_air::slicing::{count_words, extract_domain, find_longest_word, reverse_words};

#[test]
fn test_calculate_length() {
    let s = String::from("hello");
    assert_eq!(calculate_length(&s), 5);
    assert_eq!(s, "hello");
}

#[test]
fn test_safe_slice() {
    let text = "hello world";
    assert_eq!(safe_slice(text, 0, 5), Some("hello"));
    assert_eq!(safe_slice(text, 6, 11), Some("world"));
    assert_eq!(safe_slice(text, 0, 20), None);
}

#[test]
fn test_first_word() {
    assert_eq!(first_word("hello world"), "hello");
    assert_eq!(first_word("rust"), "rust");
    assert_eq!(first_word(""), "");
}

#[test]
fn test_sum_slice() {
    let numbers = [1, 2, 3, 4, 5];
    assert_eq!(sum_slice(&numbers), 15);
    assert_eq!(sum_slice(&numbers[1..4]), 9);
}

#[test]
fn test_double_all() {
    let mut numbers = vec![1, 2, 3, 4, 5];
    double_all(&mut numbers);
    assert_eq!(numbers, vec![2, 4, 6, 8, 10]);
}

#[test]
fn test_find_max_index() {
    let numbers = [1, 5, 3, 9, 2];
    assert_eq!(find_max_index(&numbers), Some(3));
    assert_eq!(find_max_index(&[]), None);
}

#[test]
fn test_count_words() {
    assert_eq!(count_words("hello world rust"), 3);
    assert_eq!(count_words("   "), 0);
    assert_eq!(count_words("single"), 1);
}

#[test]
fn test_find_longest_word() {
    let text = "the quick brown fox";
    assert_eq!(find_longest_word(text), Some("brown"));
    assert_eq!(find_longest_word(""), None);
}

#[test]
fn test_reverse_words() {
    let text = "hello world rust";
    assert_eq!(reverse_words(text), "rust world hello");
}

#[test]
fn test_extract_domain() {
    assert_eq!(extract_domain("user@example.com"), Some("example.com"));
    assert_eq!(extract_domain("invalid"), None);
    assert_eq!(extract_domain("user@"), None);
}

#[test]
fn test_person_clone() {
    let person1 = Person::new(String::from("Alice"), 30);
    let person2 = person1.clone();

    assert_eq!(person1.name, "Alice");
    assert_eq!(person2.name, "Alice");
    assert_eq!(person1.age, 30);
    assert_eq!(person2.age, 30);
}
