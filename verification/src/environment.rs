//! The environment variables of a job.

use crate::text::same_text;
use vstd::prelude::*;

verus! {

/// One environment variable.
#[derive(Debug)]
pub struct EnvVar {
    pub name: String,
    pub value: String,
}

/// Whether no name occurs twice.
pub open spec fn names_differ(variables: Seq<EnvVar>) -> bool {
    forall|i: int, j: int|
        0 <= i < j < variables.len() ==> (#[trigger] variables[i]).name@ != (
        #[trigger] variables[j]).name@
}

/// Whether one of the variables has this name.
pub open spec fn names_include(variables: Seq<EnvVar>, name: Seq<char>) -> bool {
    exists|i: int| 0 <= i < variables.len() && (#[trigger] variables[i]).name@ == name
}

/// The value of the variable that has this name.
pub open spec fn value_of(variables: Seq<EnvVar>, name: Seq<char>) -> Seq<char> {
    let place = choose|i: int| 0 <= i < variables.len() && (#[trigger] variables[i]).name@ == name;
    variables[place].value@
}

/// The values of the variables by their names.
pub open spec fn variables_map(variables: Seq<EnvVar>) -> Map<Seq<char>, Seq<char>> {
    Map::new(
        |name: Seq<char>| names_include(variables, name),
        |name: Seq<char>| value_of(variables, name),
    )
}

proof fn lemma_value_at(variables: Seq<EnvVar>, place: int)
    requires
        names_differ(variables),
        0 <= place < variables.len(),
    ensures
        names_include(variables, variables[place].name@),
        value_of(variables, variables[place].name@) == variables[place].value@,
{
    let name = variables[place].name@;
    let other = choose|i: int| 0 <= i < variables.len() && (#[trigger] variables[i]).name@ == name;
    assert(variables[place].name@ == name);
    if other < place {
        assert(variables[other].name@ != variables[place].name@);
    }
    if place < other {
        assert(variables[place].name@ != variables[other].name@);
    }
}

proof fn lemma_same_map(left: Seq<EnvVar>, right: Seq<EnvVar>)
    requires
        names_differ(left),
        names_differ(right),
        left.len() == right.len(),
        forall|i: int|
            0 <= i < left.len() ==> (#[trigger] left[i]).name@ == right[i].name@ && left[i].value@
                == right[i].value@,
    ensures
        variables_map(left) == variables_map(right),
{
    assert forall|name: Seq<char>|
        names_include(left, name) == names_include(right, name) && (names_include(left, name)
            ==> value_of(left, name) == value_of(right, name)) by {
        if names_include(left, name) {
            let i = choose|i: int| 0 <= i < left.len() && (#[trigger] left[i]).name@ == name;
            assert(right[i].name@ == name);
            lemma_value_at(left, i);
            lemma_value_at(right, i);
        }
        if names_include(right, name) {
            let i = choose|i: int| 0 <= i < right.len() && (#[trigger] right[i]).name@ == name;
            assert(left[i].name@ == name);
        }
    }
    assert(variables_map(left) =~= variables_map(right));
}

/// Environment variables, each name at most once.
#[derive(Debug)]
pub struct Environment {
    variables: Vec<EnvVar>,
}

impl View for Environment {
    type V = Map<Seq<char>, Seq<char>>;

    closed spec fn view(&self) -> Map<Seq<char>, Seq<char>> {
        variables_map(self.variables@)
    }
}

impl Environment {
    #[verifier::type_invariant]
    spec fn each_name_once(self) -> bool {
        names_differ(self.variables@)
    }

    /// An environment that sets nothing.
    pub fn new() -> (environment: Self)
        ensures
            environment@ == Map::<Seq<char>, Seq<char>>::empty(),
    {
        let environment = Environment { variables: Vec::new() };
        assert(environment@ =~= Map::<Seq<char>, Seq<char>>::empty());
        environment
    }

    /// The variables, each name once.
    pub fn variables(&self) -> (variables: &Vec<EnvVar>)
        ensures
            names_differ(variables@),
            variables_map(variables@) == self@,
    {
        proof {
            use_type_invariant(&*self);
        }
        &self.variables
    }

    /// The place of the variable that has this name, or how many there are where none has it.
    fn place_of(&self, name: &str) -> (place: usize)
        ensures
            place <= self.variables@.len(),
            place < self.variables@.len() ==> self.variables@[place as int].name@ == name@,
            place == self.variables@.len() ==> !names_include(self.variables@, name@),
    {
        let mut place: usize = 0;
        while place < self.variables.len() && !same_text(self.variables[place].name.as_str(), name)
            invariant
                place <= self.variables@.len(),
                forall|i: int| 0 <= i < place ==> (#[trigger] self.variables@[i]).name@ != name@,
            decreases self.variables.len() - place,
        {
            place = place + 1;
        }
        place
    }

    /// The value that the variable of this name is set to.
    pub fn get(&self, name: &str) -> (value: Option<&String>)
        ensures
            match value {
                Some(text) => self@.contains_key(name@) && self@[name@] == text@,
                None => !self@.contains_key(name@),
            },
    {
        proof {
            use_type_invariant(&*self);
        }
        let place = self.place_of(name);
        if place < self.variables.len() {
            proof {
                lemma_value_at(self.variables@, place as int);
            }
            Some(&self.variables[place].value)
        } else {
            None
        }
    }

    /// Sets the variable of this name to this value, in place of one that it had.
    pub fn insert(&mut self, name: String, value: String)
        ensures
            final(self)@ == old(self)@.insert(name@, value@),
    {
        proof {
            use_type_invariant(&*self);
        }
        let place = self.place_of(name.as_str());
        let ghost before = self.variables@;
        let ghost label = name@;
        let ghost content = value@;
        let mut variables: Vec<EnvVar> = Vec::new();
        std::mem::swap(&mut variables, &mut self.variables);
        let variable = EnvVar { name, value };
        if place < variables.len() {
            variables.set(place, variable);
        } else {
            variables.push(variable);
        }
        proof {
            let after = variables@;
            assert(names_differ(after)) by {
                assert forall|i: int, j: int| 0 <= i < j < after.len() implies (
                #[trigger] after[i]).name@ != (#[trigger] after[j]).name@ by {
                    if j < before.len() {
                        assert(before[i].name@ != before[j].name@);
                    } else {
                        assert(before[i].name@ != label);
                    }
                }
            }
            assert forall|other: Seq<char>|
                names_include(after, other) == (names_include(before, other) || other == label)
                    && (other != label && names_include(before, other) ==> value_of(after, other)
                    == value_of(before, other)) by {
                if names_include(before, other) {
                    let i = choose|i: int|
                        0 <= i < before.len() && (#[trigger] before[i]).name@ == other;
                    assert(after[i].name@ == other);
                    lemma_value_at(before, i);
                    lemma_value_at(after, i);
                }
                if names_include(after, other) && other != label {
                    let i = choose|i: int|
                        0 <= i < after.len() && (#[trigger] after[i]).name@ == other;
                    assert(before[i].name@ == other);
                }
                assert(after[place as int].name@ == label);
            }
            lemma_value_at(after, place as int);
            assert(variables_map(after) =~= variables_map(before).insert(label, content));
        }
        self.variables = variables;
    }
}

impl Clone for Environment {
    fn clone(&self) -> (copy: Self)
        ensures
            copy@ == self@,
    {
        proof {
            use_type_invariant(&*self);
        }
        let mut variables: Vec<EnvVar> = Vec::new();
        let mut at: usize = 0;
        while at < self.variables.len()
            invariant
                at <= self.variables@.len(),
                variables@.len() == at,
                forall|i: int|
                    0 <= i < at ==> (#[trigger] variables@[i]).name@ == self.variables@[i].name@
                        && variables@[i].value@ == self.variables@[i].value@,
            decreases self.variables.len() - at,
        {
            let variable = &self.variables[at];
            variables.push(
                EnvVar { name: variable.name.clone(), value: variable.value.clone() },
            );
            at = at + 1;
        }
        proof {
            let copied = variables@;
            let source = self.variables@;
            assert forall|i: int, j: int| 0 <= i < j < copied.len() implies (
            #[trigger] copied[i]).name@ != (#[trigger] copied[j]).name@ by {
                assert(source[i].name@ != source[j].name@);
            }
            assert forall|i: int| 0 <= i < source.len() implies (#[trigger] source[i]).name@
                == copied[i].name@ && source[i].value@ == copied[i].value@ by {
                assert(copied[i].name@ == source[i].name@);
            }
            lemma_same_map(source, copied);
        }
        Environment { variables }
    }
}

/// Whether the map holds each of the variables.
spec fn holds_each(map: Map<Seq<char>, Seq<char>>, variables: Seq<EnvVar>) -> bool {
    forall|i: int|
        0 <= i < variables.len() ==> map.contains_key((#[trigger] variables[i]).name@)
            && map[variables[i].name@] == variables[i].value@
}

proof fn lemma_maps_agree(left: Seq<EnvVar>, right: Seq<EnvVar>)
    requires
        names_differ(left),
        names_differ(right),
    ensures
        (variables_map(left) == variables_map(right)) == (holds_each(variables_map(left), right)
            && holds_each(variables_map(right), left)),
{
    let l = variables_map(left);
    let r = variables_map(right);
    assert forall|i: int| 0 <= i < left.len() implies l.contains_key(
        (#[trigger] left[i]).name@,
    ) && l[left[i].name@] == left[i].value@ by {
        lemma_value_at(left, i);
    }
    assert forall|i: int| 0 <= i < right.len() implies r.contains_key(
        (#[trigger] right[i]).name@,
    ) && r[right[i].name@] == right[i].value@ by {
        lemma_value_at(right, i);
    }
    if holds_each(l, right) && holds_each(r, left) {
        assert forall|name: Seq<char>| l.contains_key(name) implies r.contains_key(name) && r[name]
            == l[name] by {
            let i = choose|i: int| 0 <= i < left.len() && (#[trigger] left[i]).name@ == name;
            assert(left[i].name@ == name);
        }
        assert forall|name: Seq<char>| r.contains_key(name) implies l.contains_key(name) by {
            let i = choose|i: int| 0 <= i < right.len() && (#[trigger] right[i]).name@ == name;
            assert(right[i].name@ == name);
        }
        assert(l =~= r);
    }
}

impl Environment {
    /// Whether the other environment's variables all have the same values here.
    fn includes_all(&self, other: &Environment) -> (res: bool)
        ensures
            res == holds_each(self@, other.variables@),
    {
        let mut at: usize = 0;
        while at < other.variables.len()
            invariant
                at <= other.variables@.len(),
                forall|i: int|
                    0 <= i < at ==> self@.contains_key((#[trigger] other.variables@[i]).name@)
                        && self@[other.variables@[i].name@] == other.variables@[i].value@,
            decreases other.variables.len() - at,
        {
            let variable = &other.variables[at];
            let same = match self.get(variable.name.as_str()) {
                Some(value) => same_text(value.as_str(), variable.value.as_str()),
                None => false,
            };
            if !same {
                assert(other.variables@[at as int] == *variable);
                return false;
            }
            at = at + 1;
        }
        true
    }
}

/// Two environments are equal where they set the same variables to the same values, in whatever
/// order they were set.
impl PartialEq for Environment {
    fn eq(&self, other: &Self) -> (equal: bool) {
        proof {
            use_type_invariant(&*self);
            use_type_invariant(&*other);
            lemma_maps_agree(self.variables@, other.variables@);
        }
        self.includes_all(other) && other.includes_all(self)
    }
}

impl vstd::std_specs::cmp::PartialEqSpecImpl for Environment {
    open spec fn obeys_eq_spec() -> bool {
        true
    }

    open spec fn eq_spec(&self, other: &Self) -> bool {
        self@ == other@
    }
}

impl Eq for Environment {

}

} // verus!
