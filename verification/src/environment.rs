//! A snapshot of the environment variables that loading consults.
//!
//! Lookups are keyed by the exact computed path string. Absence is a
//! distinguishable outcome from presence with an empty value; a variable whose
//! raw value is not valid text is treated as absent by whoever fills the
//! snapshot.

use crate::error::{ErrView, ParseError};
use crate::text::str_eq;
use vstd::prelude::*;
use vstd::string::*;

verus! {

/// An ordered snapshot of variables; the first entry recorded under a key is
/// the one lookups see.
pub struct Environment {
    vars: Vec<(String, String)>,
}

impl View for Environment {
    type V = Seq<(Seq<char>, Seq<char>)>;

    closed spec fn view(&self) -> Seq<(Seq<char>, Seq<char>)> {
        self.vars@.map_values(|p: (String, String)| (p.0@, p.1@))
    }
}

/// The value of the first variable recorded under `key`, if any.
pub open spec fn env_lookup(env: Seq<(Seq<char>, Seq<char>)>, key: Seq<char>) -> Option<Seq<char>>
    decreases env.len(),
{
    if env.len() == 0 {
        None
    } else if env[0].0 == key {
        Some(env[0].1)
    } else {
        env_lookup(env.drop_first(), key)
    }
}

/// A lookup ignores a prefix in which no entry carries the key.
pub proof fn lemma_env_lookup_skip(env: Seq<(Seq<char>, Seq<char>)>, key: Seq<char>, i: int)
    requires
        0 <= i <= env.len(),
        forall|j: int| 0 <= j < i ==> (#[trigger] env[j]).0 != key,
    ensures
        env_lookup(env, key) == env_lookup(env.skip(i), key),
    decreases i,
{
    if i > 0 {
        assert(env[0].0 != key);
        assert(env.drop_first().skip(i - 1) =~= env.skip(i));
        assert(forall|j: int|
            0 <= j < i - 1 ==> (#[trigger] env.drop_first()[j]).0 == env[j + 1].0);
        lemma_env_lookup_skip(env.drop_first(), key, i - 1);
    } else {
        assert(env.skip(0) =~= env);
    }
}

impl Environment {
    /// An empty snapshot.
    pub fn new() -> (r: Environment)
        ensures
            r@ == Seq::<(Seq<char>, Seq<char>)>::empty(),
    {
        let r = Environment { vars: Vec::new() };
        proof {
            assert(r@ =~= Seq::<(Seq<char>, Seq<char>)>::empty());
        }
        r
    }

    /// Records a variable at the end of the snapshot.
    pub fn push_var(&mut self, key: String, value: String)
        ensures
            final(self)@ == old(self)@.push((key@, value@)),
    {
        let ghost k = key@;
        let ghost v = value@;
        self.vars.push((key, value));
        proof {
            assert(self@ =~= old(self)@.push((k, v)));
        }
    }

    /// Looks up the first variable recorded under `key`.
    pub fn lookup(&self, key: &str) -> (r: Option<&String>)
        ensures
            match env_lookup(self@, key@) {
                Some(v) => r matches Some(s) && s@ == v,
                None => r is None,
            },
    {
        let n = self.vars.len();
        let mut i: usize = 0;
        while i < n
            invariant
                0 <= i <= n,
                n == self.vars@.len(),
                forall|j: int| 0 <= j < i ==> (#[trigger] self@[j]).0 != key@,
            decreases n - i,
        {
            if str_eq(self.vars[i].0.as_str(), key) {
                proof {
                    lemma_env_lookup_skip(self@, key@, i as int);
                    assert(self@.skip(i as int)[0] == self@[i as int]);
                }
                return Some(&self.vars[i].1);
            }
            i = i + 1;
        }
        proof {
            lemma_env_lookup_skip(self@, key@, n as int);
            assert(self@.skip(n as int) =~= Seq::<(Seq<char>, Seq<char>)>::empty());
        }
        None
    }
}

/// The error reported when a required environment variable is missing.
pub open spec fn env_lookup_failed(key: Seq<char>) -> ErrView {
    ErrView { module: "std::env"@, message: "Error parsing OS environment variable for "@ + key }
}

/// Looks a key up in the snapshot, or reports the lookup failure as an error.
pub fn env_or_error(key: &str, environment: &Environment) -> (r: Result<String, ParseError>)
    ensures
        match env_lookup(environment@, key@) {
            Some(v) => r matches Ok(s) && s@ == v,
            None => r matches Err(e) && e@ == env_lookup_failed(key@),
        },
{
    match environment.lookup(key) {
        Some(v) => Ok(v.clone()),
        None => {
            let mut message = "Error parsing OS environment variable for ".to_owned();
            message.append(key);
            Err(ParseError { module: "std::env".to_owned(), message })
        },
    }
}

} // verus!
