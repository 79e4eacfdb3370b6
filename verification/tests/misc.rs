use std::cell::RefCell;

use memcore::smart_pointer::{CoustomSmartPointer, MyBox};
use memcore::text::{extract_first_word, extract_first_word_with_lc, get_max, longest, max, strotk};
use memcore::tracker::{level_for, quota_message, LimitTracker, Messenger, QuotaLevel};

#[test]
fn test01() {
    let string1 = String::from("abcd");
    let string2 = "xyz";

    let result = longest(string1.as_str(), string2);
    println!("The longest string is {}", result);
    println!("The longest string is {}", string2);
    assert_eq!(result, "abcd");
}

#[test]
fn longest_prefers_second_on_ties() {
    assert_eq!(longest("ab", "cd"), "cd");
    assert_eq!(longest("", ""), "");
    assert_eq!(longest("abc", ""), "abc");
}

#[test]
fn strotk_splits_at_first_delimiter() {
    let s = "hello world".to_owned();
    let mut s1 = s.as_str();
    let hello = strotk(&mut s1, ' ');
    assert_eq!(hello, "hello");
    assert_eq!(s1, "world");
    assert_eq!(s, "hello world");
}

#[test]
fn strotk_without_delimiter_takes_all() {
    let mut s = "plain";
    let tok = strotk(&mut s, ',');
    assert_eq!(tok, "plain");
    assert_eq!(s, "");

    let mut empty = "";
    assert_eq!(strotk(&mut empty, ' '), "");
    assert_eq!(empty, "");

    let mut only = " ";
    assert_eq!(strotk(&mut only, ' '), "");
    assert_eq!(only, "");
}

#[test]
fn max_orders_by_code_point() {
    let s1 = String::from("Lindsey");
    let s2 = String::from("Rosie");
    assert_eq!(max(&s1, &s2), "Rosie");
    assert_eq!(max("b", "a"), "b");
    assert_eq!(max("ab", "abc"), "abc");
    assert_eq!(max("same", "same"), "same");
    assert_eq!(max("", "a"), "a");
    assert_eq!(get_max("Lindsey"), "Lindsey");
    assert_eq!(get_max("Anna"), "Cynthia");
}

#[test]
fn first_word_after_trimming() {
    assert_eq!(extract_first_word("Make the word beatter by coding!"), "Make");
    assert_eq!(extract_first_word("  leading and trailing  "), "leading");
    assert_eq!(extract_first_word("single"), "");
    assert_eq!(extract_first_word("   "), "");
    assert_eq!(extract_first_word(""), "");
    assert_eq!(extract_first_word_with_lc("a b"), "a");
}

#[test]
fn test_my_box() {
    let x = 5;
    let y = MyBox::new(x);

    assert_eq!(5, x);
    assert_eq!(5, *y.get());
}

#[test]
fn test_frop() {
    let _c = CoustomSmartPointer { data: String::from("my stuff") };
    let _d = CoustomSmartPointer { data: String::from("other stuff") };
    println!("CustomSmartPointers created.");
}

struct MockMessenger {
    sent_messages: RefCell<Vec<String>>,
}

impl MockMessenger {
    fn new() -> MockMessenger {
        MockMessenger { sent_messages: RefCell::new(vec![]) }
    }
}

impl Messenger for MockMessenger {
    fn send(&self, message: &str) {
        self.sent_messages.borrow_mut().push(String::from(message));
    }
}

#[test]
fn it_sends_an_over_75_percent_warning_message() {
    let mock_messenger = MockMessenger::new();
    let mut limit_tracker = LimitTracker::new(&mock_messenger, 100);

    limit_tracker.set_value(80);

    assert_eq!(mock_messenger.sent_messages.borrow().len(), 1);
}

#[test]
fn tracker_thresholds_are_exact() {
    let mock = MockMessenger::new();
    let mut tracker = LimitTracker::new(&mock, 100);
    tracker.set_value(74); // below every threshold
    assert_eq!(mock.sent_messages.borrow().len(), 0);
    tracker.set_value(75); // exactly three quarters
    assert_eq!(mock.sent_messages.borrow().last().unwrap().as_str(), "Warning: You've used up over 75% of your quota!");
    tracker.set_value(90);
    assert_eq!(mock.sent_messages.borrow().last().unwrap().as_str(), "Urgent warning: You've used up over 90% of your quota!");
    tracker.set_value(100);
    assert_eq!(mock.sent_messages.borrow().last().unwrap().as_str(), "Error: You are over your quota!");
    assert_eq!(mock.sent_messages.borrow().len(), 3);
}

#[test]
fn quota_messages_per_level() {
    assert_eq!(quota_message(QuotaLevel::Over), Some("Error: You are over your quota!"));
    assert_eq!(
        quota_message(QuotaLevel::Urgent),
        Some("Urgent warning: You've used up over 90% of your quota!")
    );
    assert_eq!(
        quota_message(QuotaLevel::Warning),
        Some("Warning: You've used up over 75% of your quota!")
    );
    assert_eq!(quota_message(QuotaLevel::Fine), None);
}

#[test]
fn quota_levels_at_the_boundaries() {
    assert_eq!(level_for(74, 100), QuotaLevel::Fine);
    assert_eq!(level_for(75, 100), QuotaLevel::Warning);
    assert_eq!(level_for(89, 100), QuotaLevel::Warning);
    assert_eq!(level_for(90, 100), QuotaLevel::Urgent);
    assert_eq!(level_for(99, 100), QuotaLevel::Urgent);
    assert_eq!(level_for(100, 100), QuotaLevel::Over);
    assert_eq!(level_for(3, 4), QuotaLevel::Warning);
    assert_eq!(level_for(usize::MAX, usize::MAX), QuotaLevel::Over);
    assert_eq!(level_for(usize::MAX - 1, usize::MAX), QuotaLevel::Urgent);
}

#[test]
fn tracker_zero_quota() {
    let mock = MockMessenger::new();
    let mut tracker = LimitTracker::new(&mock, 0);
    tracker.set_value(0); // zero against zero: nothing is sent
    assert_eq!(mock.sent_messages.borrow().len(), 0);
    tracker.set_value(1); // anything against zero is over quota
    assert_eq!(mock.sent_messages.borrow().len(), 1);
}
