//! A fixed sample directory of people, served as-is.

use vstd::prelude::*;

verus! {

/// One person of the sample directory.
#[derive(Debug)]
pub struct Person {
    pub name: String,
    pub age: u32,
    pub favourite_food: Option<String>,
}

/// The person's fields match the given values.
pub open spec fn person_matches(p: Person, name: Seq<char>, age: u32, food: Option<Seq<char>>) -> bool {
    &&& p.name@ == name
    &&& p.age == age
    &&& match food {
        Some(f) => p.favourite_food matches Some(pf) && pf@ == f,
        None => p.favourite_food is None,
    }
}

/// The fixed list of sample people.
pub fn get_people() -> (r: Vec<Person>)
    ensures
        r@.len() == 3,
        person_matches(r@[0], "Person A"@, 36, Some("Pizza"@)),
        person_matches(r@[1], "Person B"@, 5, Some("Broccoli"@)),
        person_matches(r@[2], "Person Zoolander"@, 100, None),
{
    let mut people: Vec<Person> = Vec::new();
    people.push(
        Person {
            name: String::from_str("Person A"),
            age: 36,
            favourite_food: Some(String::from_str("Pizza")),
        },
    );
    people.push(
        Person {
            name: String::from_str("Person B"),
            age: 5,
            favourite_food: Some(String::from_str("Broccoli")),
        },
    );
    people.push(
        Person { name: String::from_str("Person Zoolander"), age: 100, favourite_food: None },
    );
    people
}

/// The fixed sample person.
pub fn get_person() -> (r: Person)
    ensures
        person_matches(r, "PPDB PERSON ZZZZZ 2222"@, 36, Some("Pizza"@)),
{
    Person {
        name: String::from_str("PPDB PERSON ZZZZZ 2222"),
        age: 36,
        favourite_food: Some(String::from_str("Pizza")),
    }
}

} // verus!
