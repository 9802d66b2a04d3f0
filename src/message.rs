//! The messages of the `Echo` call.
use vstd::prelude::*;
use vstd::string::StringExecFns;

verus! {

/// One record of a response: a name and an age.
#[derive(Clone, Debug, PartialEq, Eq)]
pub struct Person {
    pub name: String,
    pub age: i32,
}

/// A request of the call: a single label.
#[derive(Clone, Debug, PartialEq, Eq)]
pub struct EchoRequest {
    pub message: String,
}

/// A response of the call: a list of persons.
#[derive(Clone, Debug, PartialEq, Eq)]
pub struct EchoResponse {
    pub person: Vec<Person>,
}

impl View for Person {
    type V = (Seq<char>, i32);

    open spec fn view(&self) -> (Seq<char>, i32) {
        (self.name@, self.age)
    }
}

impl View for EchoRequest {
    type V = Seq<char>;

    open spec fn view(&self) -> Seq<char> {
        self.message@
    }
}

/// The persons of a list, as names and ages.
pub open spec fn persons_view(v: Seq<Person>) -> Seq<(Seq<char>, i32)> {
    v.map_values(|p: Person| p@)
}

impl View for EchoResponse {
    type V = Seq<(Seq<char>, i32)>;

    open spec fn view(&self) -> Seq<(Seq<char>, i32)> {
        persons_view(self.person@)
    }
}

/// The list that every successful response carries.
pub open spec fn fixed_persons() -> Seq<(Seq<char>, i32)> {
    seq![
        (seq!['J', 'o', 'h', 'n'], 12i32),
        (seq!['B', 'o', 'b'], 23i32),
        (seq!['A', 'l', 'e', 'x'], 33i32),
        (seq!['M', 'i', 'r', 'a', 'n', 'd', 'a'], 56i32),
    ]
}

impl Person {
    pub fn new(name: &str, age: i32) -> (r: Person)
        ensures
            r@ == (name@, age),
    {
        Person { name: String::from_str(name), age }
    }
}

impl EchoRequest {
    pub fn new(message: String) -> (r: EchoRequest)
        ensures
            r@ == message@,
    {
        EchoRequest { message }
    }
}

impl EchoResponse {
    /// The response that answers one request: the fixed list of four persons.
    pub fn echo_reply() -> (r: EchoResponse)
        ensures
            r@ == fixed_persons(),
    {
        let mut person: Vec<Person> = Vec::new();
        person.push(Person::new("John", 12));
        person.push(Person::new("Bob", 23));
        person.push(Person::new("Alex", 33));
        person.push(Person::new("Miranda", 56));
        proof {
            reveal_strlit("John");
            reveal_strlit("Bob");
            reveal_strlit("Alex");
            reveal_strlit("Miranda");
            assert("John"@ =~= seq!['J', 'o', 'h', 'n']);
            assert("Bob"@ =~= seq!['B', 'o', 'b']);
            assert("Alex"@ =~= seq!['A', 'l', 'e', 'x']);
            assert("Miranda"@ =~= seq!['M', 'i', 'r', 'a', 'n', 'd', 'a']);
            assert(persons_view(person@) =~= fixed_persons());
        }
        EchoResponse { person }
    }
}

} // verus!
