//! Command-line source and destination selectors: `project=PATH`, `donate`,
//! `os=NAME`, `file=PATH` and their destination counterparts, parsed at the
//! first `=`.

use vstd::prelude::*;

use crate::strutil::{chars_eq_str, find_char, from_chars, sub_chars, to_chars};

verus! {

/// An operating system whose package manager can be scanned.
#[derive(Clone, Copy, PartialEq, Eq, Structural, Debug)]
pub enum Os {
    Debian,
    Arch,
}

/// One place to search for donation targets.
#[derive(Clone, Debug)]
pub enum ArgSource {
    Project(String),
    Donate,
    Os(Os),
    File(String),
}

/// One place to write the merged results.
#[derive(Clone, Debug)]
pub enum ArgDest {
    ProjectYaml(String),
    Donate,
    File(String),
}

/// Why a selector was rejected.
#[derive(Clone, Copy, PartialEq, Eq, Structural, Debug)]
pub enum ArgError {
    MissingPath,
    MissingOsName,
    UnknownOs,
    DonateTakesNoParameters,
    UnknownSourceType,
    UnknownDestType,
}

/// The selected sources and destinations of one invocation, with the
/// destructive-pruning switches.
#[derive(Clone, Debug)]
pub struct Args {
    pub source: Vec<ArgSource>,
    pub dest: Vec<ArgDest>,
    pub remove: bool,
    pub remove_accounts: bool,
}

/// The selector's kind: its characters before the first `=`.
pub open spec fn until_eq(s: Seq<char>) -> Seq<char>
    decreases s.len(),
{
    if s.len() == 0 {
        Seq::empty()
    } else if s[0] == '=' {
        Seq::empty()
    } else {
        seq![s[0]] + until_eq(s.drop_first())
    }
}

/// The selector's parameter: its characters after the first `=`, when one
/// is there.
pub open spec fn after_eq(s: Seq<char>) -> Option<Seq<char>> {
    if until_eq(s).len() == s.len() {
        None
    } else {
        Some(s.skip(until_eq(s).len() as int + 1))
    }
}

proof fn lemma_until_eq(s: Seq<char>)
    ensures
        0 <= until_eq(s).len() <= s.len(),
        forall|j: int| 0 <= j < until_eq(s).len() ==> until_eq(s)[j] == s[j] && s[j] != '=',
        until_eq(s).len() < s.len() ==> s[until_eq(s).len() as int] == '=',
    decreases s.len(),
{
    if s.len() == 0 {
    } else if s[0] == '=' {
    } else {
        lemma_until_eq(s.drop_first());
        assert(forall|j: int| 0 <= j < s.drop_first().len() ==> s.drop_first()[j] == s[j + 1]);
        assert(until_eq(s) == seq![s[0]] + until_eq(s.drop_first()));
        assert forall|j: int|
            0 <= j < until_eq(s).len() implies until_eq(s)[j] == s[j] && s[j] != '=' by {
            if j == 0 {
                assert((seq![s[0]] + until_eq(s.drop_first()))[0] == s[0]);
            } else {
                assert((seq![s[0]] + until_eq(s.drop_first()))[j] == until_eq(s.drop_first())[j
                    - 1]);
                assert(until_eq(s.drop_first())[j - 1] == s.drop_first()[j - 1]);
                assert(s.drop_first()[j - 1] == s[j]);
            }
        }
    }
}

fn split_selector(s: &String) -> (r: (Vec<char>, Option<Vec<char>>))
    ensures
        r.0@ == until_eq(s@),
        match r.1 {
            Some(v) => after_eq(s@) == Some(v@),
            None => after_eq(s@) is None,
        },
{
    let sc = to_chars(s.as_str());
    proof {
        lemma_until_eq(sc@);
    }
    match find_char(&sc, '=') {
        Some(i) => {
            proof {
                assert(i == until_eq(sc@).len()) by {
                    if i < until_eq(sc@).len() {
                        assert(sc@[i as int] != '=');
                    }
                    if i > until_eq(sc@).len() {
                        assert(sc@[until_eq(sc@).len() as int] == '=');
                    }
                }
            }
            let n = sc.len();
            assert(i < n);
            let key = sub_chars(&sc, 0, i);
            let val = sub_chars(&sc, i + 1, n);
            assert(key@ =~= until_eq(sc@));
            assert(val@ =~= sc@.skip(until_eq(sc@).len() as int + 1));
            (key, Some(val))
        },
        None => {
            proof {
                assert(until_eq(sc@).len() == sc@.len()) by {
                    if until_eq(sc@).len() < sc@.len() {
                        assert(sc@[until_eq(sc@).len() as int] == '=');
                    }
                }
            }
            let key = sub_chars(&sc, 0, sc.len());
            assert(key@ =~= until_eq(sc@));
            (key, None)
        },
    }
}

impl ArgSource {
    /// Parses one source selector; each error comes exactly when its shape
    /// is hit: a `project` or `file` without a parameter misses its path, an
    /// `os` without a parameter misses its name and with an unrecognized one
    /// is refused, a `donate` with a parameter is refused, and an unknown
    /// kind is refused.
    pub fn from_str(s: &String) -> (r: Result<ArgSource, ArgError>)
        ensures
            ({
                let k = until_eq(s@);
                let v = after_eq(s@);
                match r {
                    Ok(ArgSource::Project(p)) => k == "project"@ && v == Some(p@),
                    Ok(ArgSource::Donate) => k == "donate"@ && v is None,
                    Ok(ArgSource::Os(Os::Debian)) => k == "os"@ && v == Some("debian"@),
                    Ok(ArgSource::Os(Os::Arch)) => k == "os"@ && v == Some("arch"@),
                    Ok(ArgSource::File(p)) => k == "file"@ && v == Some(p@),
                    Err(ArgError::MissingPath) => (k == "project"@ || k == "file"@) && v is None,
                    Err(ArgError::MissingOsName) => k == "os"@ && v is None,
                    Err(ArgError::UnknownOs) => k == "os"@ && v is Some && v != Some("debian"@)
                        && v != Some("arch"@),
                    Err(ArgError::DonateTakesNoParameters) => k == "donate"@ && v is Some,
                    Err(ArgError::UnknownSourceType) => k != "project"@ && k != "donate"@ && k
                        != "os"@ && k != "file"@,
                    Err(ArgError::UnknownDestType) => false,
                }
            }),
    {
        let (key, val) = split_selector(s);
        if chars_eq_str(&key, "project") {
            match val {
                Some(v) => Ok(ArgSource::Project(from_chars(&v))),
                None => Err(ArgError::MissingPath),
            }
        } else if chars_eq_str(&key, "os") {
            match val {
                Some(v) => {
                    if chars_eq_str(&v, "debian") {
                        Ok(ArgSource::Os(Os::Debian))
                    } else if chars_eq_str(&v, "arch") {
                        Ok(ArgSource::Os(Os::Arch))
                    } else {
                        Err(ArgError::UnknownOs)
                    }
                },
                None => Err(ArgError::MissingOsName),
            }
        } else if chars_eq_str(&key, "donate") {
            match val {
                Some(_) => Err(ArgError::DonateTakesNoParameters),
                None => Ok(ArgSource::Donate),
            }
        } else if chars_eq_str(&key, "file") {
            match val {
                Some(v) => Ok(ArgSource::File(from_chars(&v))),
                None => Err(ArgError::MissingPath),
            }
        } else {
            Err(ArgError::UnknownSourceType)
        }
    }
}

impl ArgDest {
    /// Parses one destination selector, under the same shape rules as the
    /// sources.
    pub fn from_str(s: &String) -> (r: Result<ArgDest, ArgError>)
        ensures
            ({
                let k = until_eq(s@);
                let v = after_eq(s@);
                match r {
                    Ok(ArgDest::ProjectYaml(p)) => k == "project-yaml"@ && v == Some(p@),
                    Ok(ArgDest::Donate) => k == "donate"@ && v is None,
                    Ok(ArgDest::File(p)) => k == "file"@ && v == Some(p@),
                    Err(ArgError::MissingPath) => (k == "project-yaml"@ || k == "file"@) && v
                        is None,
                    Err(ArgError::DonateTakesNoParameters) => k == "donate"@ && v is Some,
                    Err(ArgError::UnknownDestType) => k != "project-yaml"@ && k != "donate"@ && k
                        != "file"@,
                    _ => false,
                }
            }),
    {
        let (key, val) = split_selector(s);
        if chars_eq_str(&key, "project-yaml") {
            match val {
                Some(v) => Ok(ArgDest::ProjectYaml(from_chars(&v))),
                None => Err(ArgError::MissingPath),
            }
        } else if chars_eq_str(&key, "donate") {
            match val {
                Some(_) => Err(ArgError::DonateTakesNoParameters),
                None => Ok(ArgDest::Donate),
            }
        } else if chars_eq_str(&key, "file") {
            match val {
                Some(v) => Ok(ArgDest::File(from_chars(&v))),
                None => Err(ArgError::MissingPath),
            }
        } else {
            Err(ArgError::UnknownDestType)
        }
    }
}

} // verus!
