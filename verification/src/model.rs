//! Resolution of the requested model among the available ones.

use vstd::prelude::*;

verus! {

/// The names in `names` below position `n`, separated by a comma and a
/// space.
pub open spec fn joined(names: Seq<String>, n: int) -> Seq<char>
    decreases n,
{
    if n <= 0 {
        Seq::empty()
    } else if n == 1 {
        names[0]@
    } else {
        joined(names, n - 1) + ", "@ + names[n - 1]@
    }
}

/// The message for a model that is not available: it names the model asked
/// for and lists the available ones.
pub open spec fn not_available_message(model_name: Seq<char>, available: Seq<String>) -> Seq<
    char,
> {
    "No language model named "@ + model_name + " was available. Available models: "@ + joined(
        available,
        available.len() as int,
    )
}

/// Joins the names with a comma and a space.
pub fn join_names(names: &Vec<String>) -> (text: String)
    ensures
        text@ == joined(names@, names@.len() as int),
{
    let mut text = String::new();
    let mut i: usize = 0;
    while i < names.len()
        invariant
            i <= names.len(),
            text@ == joined(names@, i as int),
        decreases names.len() - i,
    {
        if i > 0 {
            text.append(", ");
        }
        text.append(names[i].as_str());
        proof {
            if i == 0 {
                assert(Seq::<char>::empty() + names@[0]@ =~= names@[0]@);
            }
        }
        i += 1;
    }
    text
}

/// Finds the model named `model_name` among the identifiers of the
/// available models: the position of the first one with that name, or the
/// message that lists what is available when there is none.
pub fn find_model(model_name: &String, available: &Vec<String>) -> (found: Result<usize, String>)
    ensures
        match found {
            Ok(i) => i < available@.len() && available@[i as int]@ == model_name@ && forall|j: int|
                0 <= j < i ==> (#[trigger] available@[j])@ != model_name@,
            Err(message) => (forall|j: int|
                0 <= j < available@.len() ==> (#[trigger] available@[j])@ != model_name@)
                && message@ == not_available_message(model_name@, available@),
        },
{
    let mut i: usize = 0;
    while i < available.len()
        invariant
            i <= available.len(),
            forall|j: int| 0 <= j < i ==> (#[trigger] available@[j])@ != model_name@,
        decreases available.len() - i,
    {
        if available[i] == *model_name {
            return Ok(i);
        }
        i += 1;
    }
    let mut message = String::new();
    message.append("No language model named ");
    message.append(model_name.as_str());
    message.append(" was available. Available models: ");
    let names = join_names(available);
    message.append(names.as_str());
    proof {
        assert(Seq::<char>::empty() + "No language model named "@
            =~= "No language model named "@);
    }
    Err(message)
}

} // verus!
