//! Small exercises of ownership, closures, pattern matching and smart
//! pointers, kept beside the library's own tests.

use std::cell::RefCell;
use std::ops::Add;
use std::rc::{Rc, Weak};
use std::sync::Mutex;

#[derive(Debug, Copy, Clone, PartialEq)]
struct Vector {
    x: i32,
    y: i32,
}

impl Add for Vector {
    type Output = Vector;

    fn add(self, rhs: Self) -> Self::Output {
        Vector { x: self.x + rhs.x, y: self.y + rhs.y }
    }
}

impl Add<i32> for Vector {
    type Output = Vector;

    fn add(self, rhs: i32) -> Self::Output {
        Vector { x: self.x + rhs, y: self.y + rhs }
    }
}

#[test]
fn operator_overloading() {
    assert_eq!(Vector { x: 1, y: 2 } + Vector { x: 0, y: 3 }, Vector { x: 1, y: 5 });
    assert_eq!(Vector { x: 1, y: 2 } + 2, Vector { x: 3, y: 4 });
}

fn returns_inc_closure() -> impl Fn(i32) -> i32 {
    |x| x + 1
}

fn returns_dec_closure() -> impl Fn(i32) -> i32 {
    move |x| x - 1
}

#[test]
fn returning_closures() {
    let handlers: Vec<Box<dyn Fn(i32) -> i32>> = vec![
        Box::new(returns_inc_closure()),
        Box::new(returns_dec_closure()),
        Box::new(returns_inc_closure()),
    ];
    assert_eq!(handlers.iter().fold(0, |acc, f| f(acc)), 1);
}

#[derive(Debug, PartialEq)]
enum Status {
    Value(i32),
}

#[test]
fn closures_and_fn_pointers_basics() {
    let list_of_numbers = vec![1, 2, 3];
    let list_of_strings_using_closure: Vec<String> =
        list_of_numbers.iter().map(|i| i.to_string()).collect();
    assert_eq!(list_of_strings_using_closure, vec!["1", "2", "3"]);

    let list_of_strings_using_fn_pointer: Vec<String> =
        list_of_numbers.iter().map(ToString::to_string).collect();
    assert_eq!(list_of_strings_using_fn_pointer, vec!["1", "2", "3"]);

    let statuses: Vec<Status> = list_of_numbers.into_iter().map(Status::Value).collect();
    assert_eq!(statuses, vec![Status::Value(1), Status::Value(2), Status::Value(3)]);
}

#[test]
fn iterators_and_closures() {
    let v = vec![1, 2, 3];
    let v_inc = v.iter().map(|x| x + 1).collect::<Vec<i32>>();
    assert_eq!(v_inc, vec![2, 3, 4]);
}

#[test]
fn smart_pointers_test() {
    let b = Box::new(4);
    assert_eq!(*b, 4);
    let mut n = 5;
    let x = &mut n;
    {
        let _b2 = Box::new(x);
    }
    assert_eq!(n, 5);
}

enum ListRef<'a> {
    Cons(i32, &'a ListRef<'a>),
    Nil,
}

fn list_ref_sum(l: &ListRef) -> i32 {
    match l {
        ListRef::Cons(v, next) => v + list_ref_sum(next),
        ListRef::Nil => 0,
    }
}

#[test]
fn test_box_ref() {
    let nil = Box::new(ListRef::Nil);
    let a = Box::new(ListRef::Cons(4, &nil));
    let b = Box::new(ListRef::Cons(3, &a));
    let c = Box::new(ListRef::Cons(2, &a));
    let d = Box::new(ListRef::Cons(5, &c));
    // a is shared by b and c
    assert_eq!(list_ref_sum(&b), 7);
    assert_eq!(list_ref_sum(&d), 11);
}

struct Wrapped(i32);

#[test]
fn mutexes_basics() {
    let m = Mutex::new(Wrapped(2));
    {
        let mut guard = m.lock().unwrap();
        *guard = Wrapped(3);
    }
    assert_eq!(m.lock().unwrap().0, 3);
}

#[test]
fn refutability() {
    let opt = Option::<i32>::None;
    let mut matched = false;
    if let Some(_x) = opt {
        matched = true;
    }
    assert!(!matched);
}

fn classify(opt: Option<i32>, y: i32) -> String {
    match opt {
        Some(x) if x == 2 => String::from("A"),
        Some(x) if y == 2 && x == 1 => String::from("B"),
        Some(x @ (3 | 4)) => format!("C {x}"),
        Some(x @ 5..=10) => format!("C {x}"),
        Some(_) => String::from("D"),
        None => String::from("None"),
    }
}

#[test]
fn extra_conditionals_and_bindings() {
    assert_eq!(classify(Some(2), 2), "A");
    assert_eq!(classify(Some(1), 2), "B");
    assert_eq!(classify(Some(4), 2), "C 4");
    assert_eq!(classify(Some(10), 2), "C 10");
    assert_eq!(classify(Some(11), 2), "D");
    assert_eq!(classify(None, 2), "None");
}

#[test]
fn variable_and_subpattern_binding() {
    let arr = [1, 2, 3, 4];
    match arr {
        whole @ [head, tail @ .., last] => {
            assert_eq!(head, 1);
            assert_eq!(tail, [2, 3]);
            assert_eq!(whole, [1, 2, 3, 4]);
            assert_eq!(last, 4);
        }
    };
}

enum Parent<T> {
    Yes(T),
    No,
}

struct TreeNode<T> {
    children: RefCell<Vec<Rc<TreeNode<T>>>>,
    parent: RefCell<Parent<Weak<TreeNode<T>>>>,
}

impl<T> TreeNode<T> {
    fn new(_value: T) -> Self {
        TreeNode { children: RefCell::new(vec![]), parent: RefCell::new(Parent::No) }
    }

    fn add_child(&self, child: &Rc<TreeNode<T>>) {
        self.children.borrow_mut().push(Rc::clone(child));
    }

    fn add_parent(&self, parent: &Rc<TreeNode<T>>) {
        *self.parent.borrow_mut() = Parent::Yes(Rc::downgrade(parent));
    }
}

#[test]
fn test_parent_dropped() {
    let leaf = Rc::new(TreeNode::new(2));
    {
        let root = Rc::new(TreeNode::new(1));
        leaf.add_parent(&root);
        root.add_child(&leaf);

        assert_eq!(Rc::weak_count(&root), 1);
        assert_eq!(Rc::strong_count(&root), 1);

        assert_eq!(Rc::strong_count(&leaf), 2);
        assert_eq!(Rc::weak_count(&leaf), 0);
    }

    assert_eq!(Rc::strong_count(&leaf), 1);
    assert_eq!(Rc::weak_count(&leaf), 0);
    assert_eq!(
        if let Parent::Yes(ref p) = *leaf.parent.borrow() {
            p.upgrade().is_none()
        } else {
            false
        },
        true
    );
}
