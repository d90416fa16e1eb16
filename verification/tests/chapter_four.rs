use std::rc::Rc;
use workbook::ownership::Person;

#[test]
fn test_composer() {
    let mut composers = Vec::new();

    composers.push(Person {
        name: "Palestrina".to_string(),
        birth: 1525,
    });
    composers.push(Person {
        name: "Dowland".to_string(),
        birth: 1563,
    });
    composers.push(Person {
        name: "Lully".to_string(),
        birth: 1632,
    });

    for composer in &composers {
        println!("{}, born {}", composer.name, composer.birth);
    }
}

#[test]
fn test_moves() {
    let s = vec!["udon".to_string(), "ramen".to_string(), "soba".to_string()];
    // let t = s; // vector s moved here
    // let u = s; // error because s already moved to t

    let t = s.clone();
    let u = s.clone();

    println!("{:?}", t);
    println!("{:?}", u);

    let mut s = "Govinda".to_string();
    s = "Siddhartha".to_string(); // value "Govinda" dropped here
    println!("{}", s);

    let mut s = "Govinda".to_string();
    let t = s;
    println!("{}", t);
    s = "Siddhartha".to_string(); // nothing is dropped here
    println!("{}", s);
}

#[test]
fn test_moves_and_control_flow() {
    //
}

#[test]
fn test_moves_and_indexed_content() {
    // Build a vector of the strings "101", "102", ... "105"
    let mut v = Vec::new();
    for i in 101..106 {
        v.push(i.to_string());
    }

    // Pull out random elements from the vector.
    // let third = v[2]; // error: Cannot move out of index of Vec
    // let fifth = v[4]; // here too

    // 1. Pop a value off the end of the vector:
    let fifth = v.pop().expect("vector empty!");
    assert_eq!(fifth, "105");

    // 2. Move a value out of a given index in the vector,
    // and move the last element into its spot:
    let second = v.swap_remove(1);
    assert_eq!(second, "102");

    // 3. Swap in another value for the one we're taking out:
    let third = std::mem::replace(&mut v[2], "substitute".to_string());
    assert_eq!(third, "103");

    // Let's see what's left of our vector.
    assert_eq!(v, vec!["101", "104", "substitute"]);
}

#[test]
fn test_the_exception_to_moves() {
    // Assigning a String moves the value,
    // whereas assigning an i32 copies it

    let string1 = "somnambulance".to_string();
    let string2 = string1;
    // println!("{}", string1); // error: Value used after being moved
    println!("{}", string2);

    let num1: i32 = 36;
    let num2 = num1;
    println!("{}", num1);
    println!("{}", num2);
}

#[test]
fn test_rc_arc() {
    let s: Rc<String> = Rc::new("shirataki".to_string());
    let t: Rc<String> = s.clone();
    let u: Rc<String> = s.clone();

    assert!(s.contains("shira"));
    assert_eq!(t.find("taki"), Some(5));
    println!("{} are quite chewy, almost bouncy, but lack flavor", u);

    // A value owned by an Rc pointer is immutable. Suppose you
    // try to add some text to the end of the string:
    // s.push_str(" noodles"); // error: cannot borrow data in an `Rc` as mutable
}
