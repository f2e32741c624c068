//! The deployment environment the program runs in.
use vstd::prelude::*;

verus! {

/// What `str::to_lowercase` returns for `s`: every character mapped to its
/// Unicode lowercase form.
pub uninterp spec fn lowercase(s: Seq<char>) -> Seq<char>;

/// Whether every character of `s` is ASCII.
pub open spec fn is_ascii(s: Seq<char>) -> bool {
    forall|i: int| 0 <= i < s.len() ==> (#[trigger] s[i] as u32) < 128
}

/// The ASCII lowercase form of `c`: `A` to `Z` become `a` to `z`, every other
/// character stays as it is.
pub open spec fn ascii_lower_char(c: char) -> char {
    if 'A' <= c && c <= 'Z' {
        ((c as u32) + 32) as char
    } else {
        c
    }
}

/// `s` with each character in its ASCII lowercase form.
pub open spec fn ascii_lowercase(s: Seq<char>) -> Seq<char> {
    s.map_values(|c: char| ascii_lower_char(c))
}

/// `str::to_lowercase`: the contract names its result. Of ASCII text it also
/// states what the documentation gives: each letter `A` to `Z` is mapped to
/// `a` to `z` and every other character is kept. The Unicode case tables for
/// other text are not written out here.
#[verifier::external_body]
fn to_lowercase(s: &str) -> (r: String)
    ensures
        r@ == lowercase(s@),
        is_ascii(s@) ==> r@ == ascii_lowercase(s@),
{
    s.to_lowercase()
}

/// The environments the program knows.
#[derive(Clone, Copy, PartialEq, Eq, Debug)]
pub enum Environment {
    Local,
    Production,
}

/// The name of an environment, as it is written in configuration.
pub open spec fn environment_name(e: Environment) -> Seq<char> {
    match e {
        Environment::Local => "local"@,
        Environment::Production => "production"@,
    }
}

/// The environment that lowercase text names, or the message that refuses it.
pub open spec fn parse_environment(name: Seq<char>) -> Result<Environment, Seq<char>> {
    if name == "local"@ {
        Ok(Environment::Local)
    } else if name == "production"@ {
        Ok(Environment::Production)
    } else {
        Err(name + " is not a supported environment"@)
    }
}

/// Parsing an environment's name gives the environment back.
pub proof fn lemma_environment_name_round_trip(e: Environment)
    ensures
        parse_environment(environment_name(e)) == Ok::<Environment, Seq<char>>(e),
{
    reveal_strlit("local");
    reveal_strlit("production");
    assert("local"@.len() == 5);
    assert("production"@.len() == 10);
}

impl Environment {
    pub fn as_str(&self) -> (r: &'static str)
        ensures
            r@ == environment_name(*self),
    {
        match self {
            Environment::Local => "local",
            Environment::Production => "production",
        }
    }

    /// The file holding this environment's settings.
    pub fn config_file_name(&self) -> (r: String)
        ensures
            r@ == environment_name(*self) + ".yaml"@,
    {
        let mut r = self.as_str().to_owned();
        r.push_str(".yaml");
        r
    }

    /// The environment that already lowercased text names; any other text is
    /// refused with a message that quotes it.
    pub fn from_lowercase(name: String) -> (r: Result<Environment, String>)
        ensures
            match (r, parse_environment(name@)) {
                (Ok(e), Ok(f)) => e == f,
                (Err(m), Err(t)) => m@ == t,
                _ => false,
            },
    {
        proof {
            reveal_strlit("local");
            reveal_strlit("production");
            assert("local"@.len() == 5);
            assert("production"@.len() == 10);
        }
        let local = "local".to_owned();
        let production = "production".to_owned();
        if name == local {
            Ok(Environment::Local)
        } else if name == production {
            Ok(Environment::Production)
        } else {
            let mut m = name;
            m.push_str(" is not a supported environment");
            Err(m)
        }
    }

    /// The environment named by `name`, in any letter case.
    pub fn try_from(name: String) -> (r: Result<Environment, String>)
        ensures
            match (r, parse_environment(lowercase(name@))) {
                (Ok(e), Ok(f)) => e == f,
                (Err(m), Err(t)) => m@ == t,
                _ => false,
            },
            is_ascii(name@) ==> lowercase(name@) == ascii_lowercase(name@),
    {
        Environment::from_lowercase(to_lowercase(name.as_str()))
    }
}

} // verus!
