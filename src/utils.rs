//! The values that the rewriting engine takes and returns.

use vstd::prelude::*;
use vstd::std_specs::iter::IteratorSpec;

verus! {

/// The selection: the name of the block to switch on.
#[derive(PartialEq, Eq, Debug)]
pub struct Config {
    pub keyword: String,
}

/// The full text of an env file.
#[derive(PartialEq, Eq, Debug)]
pub struct EnvContents {
    pub contents: String,
}

/// The message given when no name was supplied.
pub open spec fn missing_keyword_message() -> Seq<char> {
    "Keyword missing"@
}

impl Config {
    /// Builds a selection from a name; an empty name is refused.
    pub fn new(keyword: &str) -> (r: Result<Config, &'static str>)
        ensures
            r is Ok <==> keyword@.len() > 0,
            r matches Ok(c) ==> c.keyword@ == keyword@,
            r matches Err(e) ==> e@ == missing_keyword_message(),
    {
        if keyword.is_empty() {
            return Err("Keyword missing");
        }
        Ok(Config { keyword: keyword.to_owned() })
    }

    /// Builds a selection from command-line arguments: the first is the
    /// program's name and is skipped, the second is the name to select.
    pub fn new_from_args<T>(mut args: T) -> (r: Result<Config, &'static str>) where
        T: Iterator<Item = String>,
        ensures
            args.obeys_prophetic_iter_laws() ==> {
                let rest = args.remaining();
                &&& (r is Ok <==> rest.len() >= 2 && rest[1]@.len() > 0)
                &&& (r matches Ok(c) ==> c.keyword@ == rest[1]@)
            },
            r matches Err(e) ==> e@ == missing_keyword_message(),
    {
        args.next();
        match args.next() {
            Some(word) => {
                if word.as_str().is_empty() {
                    Err("Keyword missing")
                } else {
                    Ok(Config { keyword: word })
                }
            },
            None => Err("Keyword missing"),
        }
    }
}

impl EnvContents {
    /// Wraps the text of an env file.
    pub fn new(contents: String) -> (r: EnvContents)
        ensures
            r.contents@ == contents@,
    {
        EnvContents { contents }
    }
}

} // verus!
