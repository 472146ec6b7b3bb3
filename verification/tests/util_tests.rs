use selector_air::borrowing::{double_all, sum_slice};
use selector_air::guess::Guess;
use selector_air::memory::Person;
use selector_air::slicing::{count_words, extract_domain, reverse_words};

#[test]
fn greeting_spells_out_name_and_age() {
    let person = Person::new(String::from("Bo"), 7);
    assert_eq!(person.greet(), "你好，我是 Bo，今年 7 歲");
    let person = Person::new(String::from("Ada"), 208);
    assert_eq!(person.greet(), "你好，我是 Ada，今年 208 歲");
}

#[test]
fn guesses_in_range_are_accepted() {
    let _ = Guess::new(1);
    let _ = Guess::new(50);
    let _ = Guess::new(100);
}

#[test]
fn sum_of_empty_slice_is_zero() {
    let numbers: [i32; 0] = [];
    assert_eq!(sum_slice(&numbers), 0);
    let negatives = [-3, 1, -4];
    assert_eq!(sum_slice(&negatives), -6);
}

#[test]
fn double_all_of_empty_vec() {
    let mut numbers: Vec<i32> = Vec::new();
    double_all(&mut numbers);
    assert!(numbers.is_empty());
}

#[test]
fn words_collapse_repeated_whitespace() {
    assert_eq!(count_words("  a\t b \n"), 2);
    assert_eq!(reverse_words("  a\t b \n"), "b a");
    assert_eq!(reverse_words(""), "");
}

#[test]
fn domain_of_short_addresses() {
    assert_eq!(extract_domain("a@b"), Some("b"));
    assert_eq!(extract_domain("@"), None);
    assert_eq!(extract_domain("@host"), Some("host"));
}
