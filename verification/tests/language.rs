#![allow(unused_variables, dead_code)]

use std::collections::HashMap;
use std::rc::Rc;

fn change(some_string: &mut String) {
    some_string.push_str(", world")
}

#[test]
fn test_string() {
    let a = "hello";
    let b = String::from("hello");
    assert_eq!(b, "hello");

    let c = b;
    let d = &c;
    assert_eq!(d, "hello");

    let mut e = String::from("hello");
    change(&mut e);
    assert_eq!(e, "hello, world");
}

#[test]
fn test_array() {
    let a = [3; 5];
    println!("{:#?}", a);

    let slice: &[i32] = &a[1..3];
    println!("{:#?}", slice);

    let array: [String; 8] = std::array::from_fn(|_i| String::from("rust is good!"));
    println!("{:#?}", array);
}

#[test]
fn test_vector() {
    let v = vec![1, 2, 3];
    println!("{:#?}", v);
    let third: &i32 = &v[2];
    println!("第三个元素是 {}", third);

    let mut v1: Vec<i32> = Vec::new();
    v1.push(1);

    match v1.get(0) {
        Some(one) => println!("第一个元素是 {one}"),
        None => println!("not find！"),
    }
}

#[test]
fn test_hashmap() {
    let mut scores = HashMap::new();
    scores.insert(String::from("Blue"), 10);
    scores.insert(String::from("Yellow"), 50);

    let team_name = String::from("Blue");
    match scores.get(&team_name) {
        Some(target) => println!("值是 {target}"),
        None => println!("not find！"),
    }
    let score: i32 = scores.get(&team_name).copied().unwrap_or(0);
    println!("值是 {score}")
}

fn print_list<T: std::fmt::Display>(list: &[T]) {
    for i in list {
        println!("{i}");
    }
}

#[test]
fn test_generics() {
    let number_list = vec![34, 50, 25, 100, 65];
    print_list(&number_list);
    let char_list = vec!['y', 'm', 'a', 'q'];
    print_list(&char_list)
}

pub trait Summary {
    fn summarize(&self) -> String;

    fn summarize2(&self) -> String {
        String::from("(Read more...)")
    }
}

#[derive(Debug)]
pub struct Post {
    pub author: String,
}

impl Summary for Post {
    fn summarize(&self) -> String {
        format!("作者是{}", self.author)
    }
}

#[test]
fn test_struct() {
    let post = Post {
        author: "Sunface".to_string(),
    };
    println!("整体信息打印：{:?}", post);
    println!("{}", post.summarize());
}

trait Animal {
    fn speak(&self);
}

struct Cat;

impl Animal for Cat {
    fn speak(&self) {
        println!("Meow!");
    }
}

struct Dog;

impl Animal for Dog {
    fn speak(&self) {
        println!("Woof!");
    }
}

fn make_animals_speak(animals: Vec<Box<dyn Animal>>) {
    for animal in animals.iter() {
        animal.speak();
    }
}

#[test]
fn test_trait() {
    let cat = Cat;
    let dog = Dog;
    let animals: Vec<Box<dyn Animal>> = vec![Box::new(cat), Box::new(dog)];
    make_animals_speak(animals);
}

#[derive(Debug)]
enum Message {
    Quit,
    Move { x: i32, y: i32 },
}

#[test]
fn test_enum() {
    let m1 = Message::Quit;
    let m2 = Message::Move { x: 1, y: 1 };
    println!("{:?}", m1);
}

#[test]
fn test_box() {
    let a = 3;
    let b = Box::new(a);
    let c = *b + 1;
    assert_eq!(c, 4);
}

#[test]
fn test_rc() {
    let a = Rc::new(String::from("test ref counting"));
    println!("count after creating a = {}", Rc::strong_count(&a));
    let b = Rc::clone(&a);
    println!("count after creating b = {}", Rc::strong_count(&a));
    {
        let c = Rc::clone(&a);
        println!("count after creating c = {}", Rc::strong_count(&c));
    }
    println!("count after c goes out of scope = {}", Rc::strong_count(&a));
}

fn longest<'a>(x: &'a str, y: &'a str) -> &'a str {
    if x.len() > y.len() {
        x
    } else {
        y
    }
}

#[test]
fn test_lifecycle() {
    let string1 = String::from("long string is long");

    {
        let string2 = String::from("xyz");
        let result = longest(string1.as_str(), string2.as_str());
        println!("The longest string is {}", result);
    }
}

#[test]
fn test_closure() {
    let x = 1;
    let sum = |y| x + y;
    assert_eq!(3, sum(2));
    let print_x = || {
        println!("muuuu.....");
        x
    };
    assert_eq!(1, print_x());
}
