use std::collections::{HashMap, HashSet, LinkedList, VecDeque};
use std::str::FromStr;
use workbook::basics::{
    divide, divide_and_add_one, double, factorial, factorial_recursive, fizzbuzz, longest,
    sum_array,
};
use workbook::models::{
    Apple, Book, Category, Counter, Dog, Eater, Greeter, Level, new_greeter, Num, Person, Point,
    Student,
};
use workbook::search::linear_search;
use workbook::sort::bubble_sort;

#[test]
fn test_sum_array() {
    let nums = [1, 2, 3, 4, 5];
    assert_eq!(sum_array(nums), 15);
}

#[test]
fn test_factorial() {
    let n = 5;
    assert_eq!(factorial(n), 120);
}

#[test]
fn test_fizzbuzz() {
    for i in 1..=100 {
        println!("{}", fizzbuzz(i));
    }
}

#[test]
fn test_shadowing() {
    let my_var = "Billy Kore";
    println!("{}", my_var);

    // my_var get shadowed
    let my_var = 10;
    println!("{}", my_var);
}

#[test]
fn test_comment() {
    // this is single line comment

    /*
    multi
    line
    comment
     */

    println!("Not a comment");
}

#[test]
fn test_tuple() {
    let my_tuple = ("Billy", 25, false);
    let (a, b, c) = my_tuple;
    println!("{} {} {}", a, b, c);
}

#[test]
fn test_array() {
    let array: [char; 5] = ['H', 'e', 'l', 'l', 'o'];
    println!("{:?}", array);
    println!("{}", array.len());
    println!("{} {}", array[0], array[4]);
}

#[test]
fn matrix() {
    let mtx: [[i32; 2]; 2] = [[1, 2], [3, 4]];
    println!("{:?}", mtx);
}

#[test]
fn constant() {
    let minimum: i32 = 0;
    let maximum: i32 = 100;
    println!("{}", minimum);
    println!("{}", maximum);
}

#[test]
fn test_if_statement() {
    let a = 0;
    if a < 5 {
        println!("Less than 5");
    } else if a > 5 && a <= 10 {
        println!("More than 5 and less or equal 10");
    } else {
        println!("Too big");
    }
}

#[test]
fn test_loop() {
    let mut i = 0;
    loop {
        if i > 5 {
            break;
        }
        println!("i = {}", i);
        i += 1;
    }
}

#[test]
fn while_loop() {
    let mut a = 0;
    while a <= 5 {
        println!("a = {}", a);
        a += 1;
    }
}

#[test]
fn test_for_loop() {
    let array = ["A", "B", "C", "D", "E"];
    for char in array {
        println!("Value: {}", char);
    }
}

#[test]
fn test_for_range_loop() {
    let range = 0..5;
    println!("{}", range.start);
    println!("{}", range.end);

    for v in range {
        println!("{}", v);
    }
}

#[test]
fn test_factorial_recursive() {
    let res = factorial_recursive(5);
    println!("res = {}", res);
    assert_eq!(res, 120);
}

#[test]
fn test_struct() {
    let me = Person {
        first_name: String::from("Oyen"),
        age: 25,
    };
    println!("{}", me.first_name);
    println!("{}", me.age);

    let you = Person { ..me };
    println!("{}", you.first_name);
    println!("{}", you.age);

    let name = you.first_name.clone();
    println!("{}", name);
}

#[test]
fn test_tuple_struct() {
    let origin = Point(0, 0);
    let my_position = Point(1, 1);

    println!("{} {}", origin.0, origin.1);
    println!("{} {}", my_position.0, my_position.1);
}

#[test]
fn test_enum() {
    let _regular = Level::Regular;
    let _premium = Level::Premium;
    let _platinum = Level::Platinum;
}

#[test]
fn test_pattern_matching() {
    let level = Level::Platinum;

    match level {
        Level::Regular => {
            println!("Regular")
        }
        Level::Premium => {
            println!("Premium")
        }
        Level::Platinum => {
            println!("Platinum")
        }
    }
}

#[test]
fn test_type_alias() {
    let student1 = Student {
        name: String::from("Oyen"),
        age: 23,
    };

    println!("{}", student1.name);
    println!("{}", student1.age);
}

#[test]
fn test_trait() {
    let student = Student {
        name: String::from("Oyen"),
        age: 24,
    };

    let greet = student.say_hi_to("Billy");
    println!("{}", greet)
}

#[test]
fn test_return_trait() {
    let greeter = new_greeter(String::from("Oyen"));
    println!("{}", greeter.say_hi_to("Ciko"))
}

#[test]
fn test_eater() {
    let student = Student {
        name: String::from("Oyen"),
        age: 24,
    };
    assert_eq!(student.eat(), "Oyen eating...");
}

#[test]
fn test_ops_add() {
    let apple1 = Apple { quantity: 10 };
    let apple2 = Apple { quantity: 10 };

    let apple3 = apple1.add(apple2);
    println!("{}", apple3.quantity);
}

#[test]
fn test_partial_eq() {
    let apple1 = Apple { quantity: 10 };
    let apple2 = Apple { quantity: 10 };

    println!("{}", apple1.eq(&apple2))
}

#[test]
fn partial_ord() {
    let apple1 = Apple { quantity: 10 };
    let apple2 = Apple { quantity: 10 };

    println!("{}", apple1.gt(&apple2))
}

#[test]
fn test_option() {
    let some = double(Some(10));
    println!("{}", some.unwrap());

    let none = double(None);
    println!("{:?}", none);
}

#[test]
fn test_formating() {
    let category = Category {
        id: String::from("smartphone"),
        name: String::from("iPhone 15"),
    };

    println!("{:?}", category)
}

#[test]
fn test_closure() {
    let sum = |a: i32, b: i32| -> i32 { a + b };

    let res = sum(17, 11);
    println!("{}", res)
}

#[test]
fn test_increment() {
    let mut counter = Counter { count: 0 };
    counter.increment();
    counter.increment();
    counter.increment();
    println!("{}", counter.count)
}

#[test]
fn test_vec() {
    let mut nums = Vec::<i32>::new();
    nums.push(1);
    nums.push(2);
    nums.push(3);

    println!("{:?}", nums);
}

#[test]
fn test_vec_deque() {
    let mut nums = VecDeque::<i32>::new();
    nums.push_back(1);
    nums.push_back(3);
    nums.push_front(2);

    println!("{:?}", nums);
}

#[test]
fn test_linked_list() {
    let mut nums = LinkedList::<i32>::new();
    nums.push_back(1);
    nums.push_back(2);
    nums.push_back(3);

    println!("{:?}", nums);
}

#[test]
fn test_hash_map() {
    let mut map: HashMap<String, i32> = HashMap::new();
    map.insert(String::from("one"), 1);
    map.insert(String::from("two"), 2);

    let one = map.get("one");
    let two = map.get("two");

    println!("{}", one.unwrap());
    println!("{}", two.unwrap());
}

#[test]
fn test_set() {
    let mut set: HashSet<String> = HashSet::new();
    set.insert(String::from("Oyen"));
    set.insert(String::from("Oyen"));
    set.insert(String::from("Oyen"));

    for v in set {
        println!("{}", v)
    }
}

#[test]
fn test_iter() {
    let arr = [1, 2, 3, 4, 5];
    let mut iterator = arr.iter();

    while let Some(v) = iterator.next() {
        println!("{}", v)
    }

    println!("{:?}", iterator)
}

#[test]
fn test_iterator_method() {
    let nums = vec![1, 2, 3, 4, 5];

    let sum: i32 = nums.iter().sum();
    println!("{}", sum);

    let count = nums.iter().count();
    println!("{}", count);

    let doubled: Vec<i32> = nums.iter().map(|x| x * 2).collect();
    println!("{:?}", doubled);

    let odd: Vec<&i32> = nums.iter().filter(|x| *x % 2 != 0).collect();
    println!("{:?}", odd);
}

#[test]
fn test_result() {
    let none = divide(10, None);
    match none {
        Ok(res) => println!("res = {}", res),
        Err(err) => println!("{}", err),
    }

    let zero_divider = divide(10, Some(0));
    match zero_divider {
        Ok(res) => println!("res = {}", res),
        Err(err) => println!("{}", err),
    }

    let res = divide(10, Some(2));
    match res {
        Ok(res) => println!("res = {}", res),
        Err(err) => println!("{}", err),
    }
}

#[test]
fn test_divide_and_add_one() {
    let res = divide_and_add_one(4, Some(0));
    match res {
        Ok(a) => println!("{}", a),
        Err(err) => println!("error: {}", err),
    }
}

#[test]
fn test_lifetime_annotation() {
    let s1 = "Oyen";
    let s2 = "Chiko";
    let res = longest(s1, s2);
    println!("Longest: {}", res)
}

#[test]
fn test_dog() {
    let chiko = Dog {
        name: "Chiko",
        age: 1,
    };

    println!("{}", chiko.name);
    println!("{}", chiko.age);

    println!("{}", chiko.get_name())
}

#[test]
fn test_box() {
    let value: Box<i32> = Box::new(5);
    println!("{}", value)
}

#[test]
fn test_dereference() {
    let a = Box::new(10);
    let b = Box::new(10);
    let result = *a + *b;

    println!("{}", result)
}

#[test]
fn test_drop() {
    let b = Book {
        title: String::from("Bible"),
    };
    println!("{}", b.title)
}

#[test]
fn test_macro() {
    println!("Hi");
    println!("Hi, {}", "Oyen");

    for i in [1, 2, 3, 4, 5] {
        println!("{}", i);
    }
    println!("{}", 1);
    println!("{}", 2);
    println!("{}", 3);
    println!("{}", 4);
    println!("{}", 5);
}

#[test]
fn test_num() {
    let num = Num::from_str("5").unwrap();
    assert_eq!(num.x, 5);
}

#[test]
fn test_linear_search() {
    let arr = Vec::from([6, 7, 8, 9, 10, 5, 1, 2, 3, 4]);
    match linear_search(arr, 5) {
        None => println!("Not found"),
        Some(pos) => {
            assert_eq!(pos, 5);
            println!("Found at index {}", pos)
        }
    }
}

#[test]
fn test_bubble_sort() {
    let mut nums = Vec::from([1, 8, 6, 7, 4]);
    bubble_sort(&mut nums);
    assert_eq!(Vec::from([1, 4, 6, 7, 8]), nums)
}

#[test]
fn test_sort() {
    let mut nums = [1, 8, 6, 7, 4];
    nums.sort();
    println!("{:?}", nums);
}
