//! Errors about fields missing from the data or from the configuration.
use vstd::prelude::*;
use crate::text::string_of_chars;

verus! {

/// A field missing from the data, or from the configuration, or empty.
#[derive(Debug, PartialEq)]
pub enum FieldError {
    LessData(String),
    LessConf(String),
    Empty,
}

impl FieldError {
    pub fn empty() -> (r: FieldError)
        ensures
            r == FieldError::Empty,
    {
        FieldError::Empty
    }

    pub fn less(msg: String) -> (r: FieldError)
        ensures
            r matches FieldError::LessConf(m) && m@ == msg@,
    {
        FieldError::LessConf(msg)
    }
}

/// The value, or a missing-configuration error that names `name`
/// (`"<name> less"`).
pub fn no_less<T>(opt: Option<T>, name: &str) -> (r: Result<T, FieldError>)
    ensures
        match opt {
            Some(v) => r == Ok::<T, FieldError>(v),
            None => r matches Err(FieldError::LessConf(m)) && m@ == name@ + seq![
                ' ',
                'l',
                'e',
                's',
                's',
            ],
        },
{
    match opt {
        Some(v) => Ok(v),
        None => {
            let mut m = name.to_owned();
            let suffix = [' ', 'l', 'e', 's', 's'];
            let tail = string_of_chars(&suffix);
            m.append(tail.as_str());
            assert(suffix@ =~= seq![' ', 'l', 'e', 's', 's']);
            Err(FieldError::LessConf(m))
        },
    }
}

/// The value, or `FieldError::Empty`.
pub fn no_empty<T>(opt: Option<T>) -> (r: Result<T, FieldError>)
    ensures
        match opt {
            Some(v) => r == Ok::<T, FieldError>(v),
            None => r == Err::<T, FieldError>(FieldError::Empty),
        },
{
    match opt {
        Some(v) => Ok(v),
        None => Err(FieldError::Empty),
    }
}

} // verus!
