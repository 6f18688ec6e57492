//! How the screen says who is typing.

use vstd::prelude::*;
use vstd::string::StringExecFns;

verus! {

broadcast use vstd::string::group_string_axioms;

/// What the screen says when these people are typing.
pub open spec fn typing_string(people: Seq<&str>) -> Seq<char> {
    let n = people.len();
    if n > 500 {
        "(╯°□°）╯︵ ┻━┻"@
    } else if n > 100 {
        "A crap ton of people are typing"@
    } else if n > 50 {
        "Over 50 people are typing"@
    } else if n > 10 {
        "Over 10 people are typing"@
    } else if n > 3 {
        "Several people are typing"@
    } else if n == 3 {
        people[0]@ + ", "@ + people[1]@ + " and "@ + people[2]@ + " are typing"@
    } else if n == 2 {
        people[0]@ + " and "@ + people[1]@ + " are typing"@
    } else if n == 1 {
        people[0]@ + " is typing"@
    } else {
        Seq::empty()
    }
}

/// Says who is typing: up to three people by name.
pub fn get_typing_string(people: &[&str]) -> (res: String)
    ensures
        res@ == typing_string(people@),
{
    let n = people.len();
    if n > 500 {
        "(╯°□°）╯︵ ┻━┻".to_owned()
    } else if n > 100 {
        "A crap ton of people are typing".to_owned()
    } else if n > 50 {
        "Over 50 people are typing".to_owned()
    } else if n > 10 {
        "Over 10 people are typing".to_owned()
    } else if n > 3 {
        "Several people are typing".to_owned()
    } else if n == 3 {
        let mut res = people[0].to_owned();
        res.append(", ");
        res.append(people[1]);
        res.append(" and ");
        res.append(people[2]);
        res.append(" are typing");
        res
    } else if n == 2 {
        let mut res = people[0].to_owned();
        res.append(" and ");
        res.append(people[1]);
        res.append(" are typing");
        res
    } else if n == 1 {
        let mut res = people[0].to_owned();
        res.append(" is typing");
        res
    } else {
        String::new()
    }
}

/// Up to three people are named in their order; of more it is only told how many there are,
/// the more roughly the more there are.
pub proof fn law_typing_names_few(people: Seq<&str>)
    ensures
        people.len() == 0 ==> typing_string(people) == Seq::<char>::empty(),
        people.len() == 1 ==> typing_string(people) == people[0]@ + " is typing"@,
        people.len() == 2 ==> typing_string(people) == people[0]@ + " and "@ + people[1]@
            + " are typing"@,
        people.len() == 3 ==> typing_string(people) == people[0]@ + ", "@ + people[1]@ + " and "@
            + people[2]@ + " are typing"@,
        4 <= people.len() <= 10 ==> typing_string(people) == "Several people are typing"@,
        11 <= people.len() <= 50 ==> typing_string(people) == "Over 10 people are typing"@,
        51 <= people.len() <= 100 ==> typing_string(people) == "Over 50 people are typing"@,
        101 <= people.len() <= 500 ==> typing_string(people)
            == "A crap ton of people are typing"@,
        501 <= people.len() ==> typing_string(people) == "(╯°□°）╯︵ ┻━┻"@,
{
}

} // verus!
