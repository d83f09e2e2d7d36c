use std::cell::RefCell;

use shape_collide::blog::{Post, PostState};
use shape_collide::grading::TestResult;
use shape_collide::limit_tracker::{quota_warning, LimitTracker, Messenger, QuotaWarning};

struct MockMessenger {
    sent_messages: RefCell<Vec<String>>,
}

impl MockMessenger {
    fn new() -> Self {
        MockMessenger { sent_messages: RefCell::new(vec![]) }
    }
}

impl Messenger for MockMessenger {
    fn send(&self, msg: &str) {
        self.sent_messages.borrow_mut().push(String::from(msg));
    }
}

#[test]
fn it_sends_an_over_75_percent_warning_message() {
    let mock_messenger = MockMessenger::new();
    let mut limit_tracker = LimitTracker::new(&mock_messenger, 100);
    limit_tracker.set_value(80);

    assert_eq!(mock_messenger.sent_messages.borrow().len(), 1);
}

#[test]
fn tracker_sends_the_message_for_each_level() {
    let mock = MockMessenger::new();
    let mut t = LimitTracker::new(&mock, 100);
    t.set_value(74);
    t.set_value(75);
    t.set_value(90);
    t.set_value(100);
    t.set_value(250);
    assert_eq!(
        *mock.sent_messages.borrow(),
        vec![
            "Warning: You've used up over 75% of your quota!",
            "Urgent warning: You've used up over 90% of your quota!",
            "Error: You are over your quota!",
            "Error: You are over your quota!",
        ]
    );
}

#[test]
fn quota_levels() {
    assert_eq!(quota_warning(0, 100), None);
    assert_eq!(quota_warning(74, 100), None);
    assert_eq!(quota_warning(75, 100), Some(QuotaWarning::Warning));
    assert_eq!(quota_warning(89, 100), Some(QuotaWarning::Warning));
    assert_eq!(quota_warning(9, 10), Some(QuotaWarning::Urgent));
    assert_eq!(quota_warning(10, 10), Some(QuotaWarning::OverQuota));
    assert_eq!(quota_warning(0, 0), None);
    assert_eq!(quota_warning(1, 0), Some(QuotaWarning::OverQuota));
    assert_eq!(quota_warning(usize::MAX, usize::MAX), Some(QuotaWarning::OverQuota));
    assert_eq!(quota_warning(usize::MAX - 1, usize::MAX), Some(QuotaWarning::Urgent));
}

#[test]
fn posts() {
    let mut post = Post::new(String::from("I ate a salad for lunch today"));
    assert_eq!(post.state(), PostState::Draft);
    assert_eq!(post.content(), "");
    // approval before review changes nothing
    post.approve();
    assert_eq!(post.state(), PostState::Draft);
    post.request_review();
    assert_eq!(post.state(), PostState::PendingReview);
    assert_eq!(post.content(), "");
    post.request_review();
    assert_eq!(post.state(), PostState::PendingReview);
    post.approve();
    assert_eq!(post.state(), PostState::Published);
    assert_eq!(post.content(), "I ate a salad for lunch today");
    post.request_review();
    assert_eq!(post.state(), PostState::Published);
}

#[test]
fn struct_fields() {
    let mut result = TestResult { scores: vec![10, 20, 30], curve: Some(5) };
    assert_eq!(*result.get_curve(), Some(5));
    result.apply_curve();
    assert_eq!(result.scores, vec![15, 25, 35]);

    let mut flat = TestResult { scores: vec![1, 2], curve: None };
    assert_eq!(*flat.get_curve(), None);
    flat.apply_curve();
    assert_eq!(flat.scores, vec![1, 2]);
}
