//! A person record that owns its name, and two small types showing owned
//! versus borrowed names.

use vstd::prelude::*;

verus! {

/// A named person with an age in years.
pub struct Person {
    pub name: String,
    pub age: u32,
}

impl Person {
    /// A person with the given name and age.
    pub fn new(name: &str, age: u32) -> (p: Person)
        ensures
            p.name@ == name@,
            p.age == age,
    {
        Person { name: name.to_owned(), age }
    }

    /// Advances the age by one year.
    pub fn have_birthday(&mut self)
        requires
            old(self).age < u32::MAX,
        ensures
            final(self).age == old(self).age + 1,
            final(self).name == old(self).name,
    {
        self.age = self.age + 1;
    }

    /// Consumes the person, handing out the owned name.
    pub fn into_name(self) -> (name: String)
        ensures
            name == self.name,
    {
        self.name
    }
}

/// A record that owns its name.
pub struct Owner {
    pub name: String,
}

/// A record that borrows its name.
pub struct Borrower<'a> {
    pub name: &'a str,
}

/// Wraps a borrowed name in a `Borrower` with the same lifetime.
pub fn func1<'a>(name: &'a str) -> (b: Borrower<'a>)
    ensures
        b.name@ == name@,
{
    Borrower { name }
}

/// An `Owner` holding a fixed name, moved out by value.
pub fn func2() -> (o: Owner)
    ensures
        o.name@ == "Shajib Bhattacharjee"@,
{
    let name = "Shajib Bhattacharjee".to_owned();
    Owner { name }
}

/// A `Borrower` of a string literal, which lives for the whole program.
pub fn func3() -> (b: Borrower<'static>)
    ensures
        b.name@ == "Shajib Chaudhuri"@,
{
    Borrower { name: "Shajib Chaudhuri" }
}

} // verus!
