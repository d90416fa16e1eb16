//! Small model types: people, students, greeters, counters and fruit
//! with hand-written comparisons.

use vstd::prelude::*;
use core::cmp::Ordering;
use crate::parse::parse_u64;

verus! {

/// A person with a name and an age.
pub struct Person {
    pub first_name: String,
    pub age: u8,
}

/// A plain coordinate pair.
pub struct Point(pub i32, pub i32);

/// An employee with a name and a rule to play.
pub struct Employee {
    pub name: String,
    pub rule: String,
}

impl Employee {
    /// An employee from borrowed name and rule text.
    pub fn new(name: &str, rule: &str) -> (r: Employee)
        ensures
            r.name@ == name@,
            r.rule@ == rule@,
    {
        Employee { name: String::from_str(name), rule: String::from_str(rule) }
    }
}

/// A customer tier.
pub enum Level {
    Regular,
    Premium,
    Platinum,
}

/// An age in years.
pub type Age = u8;

/// A student with a name and an age.
pub struct Student {
    pub name: String,
    pub age: Age,
}

/// Something that can greet a named counterpart.
pub trait Greeter {
    /// A greeting addressed to `name`.
    fn say_hi_to(&self, name: &str) -> String;
}

/// Something that can eat.
pub trait Eater {
    /// What eating looks like.
    fn eat(&self) -> String;
}

impl Greeter for Student {
    fn say_hi_to(&self, name: &str) -> (r: String)
        ensures
            r@ == "Hi "@ + self.name@ + "! I am "@ + name@,
    {
        let mut out = String::from_str("Hi ");
        out.append(self.name.as_str());
        out.append("! I am ");
        out.append(name);
        out
    }
}

impl Eater for Student {
    fn eat(&self) -> (r: String)
        ensures
            r@ == self.name@ + " eating..."@,
    {
        let mut out = self.name.clone();
        out.append(" eating...");
        out
    }
}

/// Someone who greets in their own style.
pub struct Someone {
    pub name: String,
}

impl Greeter for Someone {
    fn say_hi_to(&self, name: &str) -> (r: String)
        ensures
            r@ == "Hai "@ + name@ + ", I am "@ + self.name@,
    {
        let mut out = String::from_str("Hai ");
        out.append(name);
        out.append(", I am ");
        out.append(self.name.as_str());
        out
    }
}

impl Eater for Someone {
    fn eat(&self) -> (r: String)
        ensures
            r@ == self.name@ + " eating..."@,
    {
        let mut out = self.name.clone();
        out.append(" eating...");
        out
    }
}

/// A greeter that owns the given name.
pub fn new_greeter(name: String) -> (r: Someone)
    ensures
        r.name == name,
{
    Someone { name }
}

/// A position over any coordinate type.
pub struct Position<T> {
    pub x: T,
    pub y: T,
}

impl<T> Position<T> {
    /// The first coordinate.
    pub fn get_x(&self) -> (r: &T)
        ensures
            *r == self.x,
    {
        &self.x
    }

    /// The second coordinate.
    pub fn get_y(&self) -> (r: &T)
        ensures
            *r == self.y,
    {
        &self.y
    }
}

/// A crate of apples, compared by quantity.
pub struct Apple {
    pub quantity: i32,
}

impl Apple {
    /// Combines two crates.
    pub fn add(self, rhs: Apple) -> (r: Apple)
        requires
            i32::MIN <= self.quantity + rhs.quantity <= i32::MAX,
        ensures
            r.quantity == self.quantity + rhs.quantity,
    {
        Apple { quantity: self.quantity + rhs.quantity }
    }

    /// Takes one crate's quantity out of another.
    pub fn sub(self, rhs: Apple) -> (r: Apple)
        requires
            i32::MIN <= self.quantity - rhs.quantity <= i32::MAX,
        ensures
            r.quantity == self.quantity - rhs.quantity,
    {
        Apple { quantity: self.quantity - rhs.quantity }
    }
}

impl PartialEq for Apple {
    fn eq(&self, other: &Apple) -> (r: bool) {
        self.quantity == other.quantity
    }
}

impl vstd::std_specs::cmp::PartialEqSpecImpl for Apple {
    open spec fn obeys_eq_spec() -> bool {
        true
    }

    open spec fn eq_spec(&self, other: &Apple) -> bool {
        self.quantity == other.quantity
    }
}

impl PartialOrd for Apple {
    fn partial_cmp(&self, other: &Apple) -> (r: Option<Ordering>) {
        if self.quantity < other.quantity {
            Some(Ordering::Less)
        } else if self.quantity == other.quantity {
            Some(Ordering::Equal)
        } else {
            Some(Ordering::Greater)
        }
    }
}

impl vstd::std_specs::cmp::PartialOrdSpecImpl for Apple {
    open spec fn obeys_partial_cmp_spec() -> bool {
        true
    }

    open spec fn partial_cmp_spec(&self, other: &Apple) -> Option<Ordering> {
        if self.quantity < other.quantity {
            Some(Ordering::Less)
        } else if self.quantity == other.quantity {
            Some(Ordering::Equal)
        } else {
            Some(Ordering::Greater)
        }
    }
}

/// A product category, printable for debugging.
#[derive(Debug)]
pub struct Category {
    pub id: String,
    pub name: String,
}

/// A counter that only moves up.
pub struct Counter {
    pub count: i32,
}

impl Counter {
    /// Adds one to the count.
    pub fn increment(&mut self)
        requires
            old(self).count < i32::MAX,
        ensures
            final(self).count == old(self).count + 1,
    {
        self.count += 1;
    }
}

/// A user with a public name and age.
pub struct User {
    pub name: String,
    pub age: u8,
}

/// A dog that borrows its name.
pub struct Dog<'n> {
    pub name: &'n str,
    pub age: i32,
}

impl<'n> Dog<'n> {
    /// The borrowed name, with the lifetime it was borrowed for.
    pub fn get_name(&self) -> (r: &'n str)
        ensures
            r@ == self.name@,
    {
        self.name
    }
}

/// A book with a title.
pub struct Book {
    pub title: String,
}

/// A wrapped number read from text.
pub struct Num {
    pub x: u64,
}

impl core::str::FromStr for Num {
    type Err = ();

    /// Reads an unsigned decimal; anything else is an error.
    fn from_str(s: &str) -> Result<Num, ()> {
        match parse_u64(s) {
            Some(x) => Ok(Num { x }),
            None => Err(()),
        }
    }
}

} // verus!
