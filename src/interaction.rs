//! The options a user filled in when invoking a command.
use vstd::prelude::*;
use crate::text::{chars_of, same_chars};

verus! {

/// The value of one option.
pub enum OptionValue {
    String(String),
    Integer(i64),
    /// A value of any other kind.
    Other,
}

/// One option, by name.
pub struct CommandOption {
    pub name: String,
    pub value: OptionValue,
}

/// The value of the first option called `name`.
pub fn get_value<'a>(options: &'a Vec<CommandOption>, name: &str) -> (r: Option<&'a OptionValue>)
    ensures
        match r {
            Some(v) => exists|i: int|
                0 <= i < options@.len() && (#[trigger] options@[i]).name@ == name@ && *v
                    == options@[i].value && forall|k: int|
                    0 <= k < i ==> (#[trigger] options@[k]).name@ != name@,
            None => forall|i: int| 0 <= i < options@.len() ==> (#[trigger] options@[i]).name@ != name@,
        },
{
    let wanted = chars_of(name);
    let mut i: usize = 0;
    while i < options.len()
        invariant
            i <= options@.len(),
            wanted@ == name@,
            forall|k: int| 0 <= k < i ==> (#[trigger] options@[k]).name@ != name@,
        decreases options@.len() - i,
    {
        let candidate = chars_of(options[i].name.as_str());
        if same_chars(&candidate, &wanted) {
            return Some(&options[i].value);
        }
        i += 1;
    }
    None
}

/// The text of a text value.
pub fn value_to_string(v: &OptionValue) -> (r: Option<String>)
    ensures
        r == match v {
            OptionValue::String(s) => Some(*s),
            _ => None,
        },
{
    match v {
        OptionValue::String(s) => Some(s.clone()),
        _ => None,
    }
}

/// The number of an integer value.
pub fn value_to_integer(v: &OptionValue) -> (r: Option<i64>)
    ensures
        r == match v {
            OptionValue::Integer(n) => Some(*n),
            _ => None,
        },
{
    match v {
        OptionValue::Integer(n) => Some(*n),
        _ => None,
    }
}

} // verus!
