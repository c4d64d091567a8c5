//! People, employees and managers: each level adds fields to the one before.
use vstd::prelude::*;

verus! {

/// A person with a first and a last name.
pub struct Person {
    pub first_name: String,
    pub last_name: String,
}

impl Person {
    /// A person with these names.
    pub fn new(first_name: String, last_name: String) -> (r: Person)
        ensures
            r.first_name@ == first_name@,
            r.last_name@ == last_name@,
    {
        Person { first_name, last_name }
    }

    /// The first name, a space, and the last name.
    pub fn full_name(&self) -> (r: String)
        ensures
            r@ == self.first_name@ + seq![' '] + self.last_name@,
    {
        let mut r: String = self.first_name.clone();
        r.append(" ");
        r.append(self.last_name.as_str());
        proof {
            reveal_strlit(" ");
        }
        r
    }
}

/// A person with an employee number.
pub struct Employee {
    pub person: Person,
    pub id: u64,
}

impl Employee {
    /// An employee with these names and number.
    pub fn new(first_name: String, last_name: String, id: u64) -> (r: Employee)
        ensures
            r.person.first_name@ == first_name@,
            r.person.last_name@ == last_name@,
            r.id == id,
    {
        Employee { person: Person::new(first_name, last_name), id }
    }
}

/// An employee with a title.
pub struct Manager {
    pub employee: Employee,
    pub title: String,
}

impl Manager {
    /// A manager with these names, number and title.
    pub fn new(first_name: String, last_name: String, id: u64, title: String) -> (r: Manager)
        ensures
            r.employee.person.first_name@ == first_name@,
            r.employee.person.last_name@ == last_name@,
            r.employee.id == id,
            r.title@ == title@,
    {
        Manager { employee: Employee::new(first_name, last_name, id), title }
    }
}

} // verus!
