//! The build profile: the two-valued token that the package manager sets for
//! build scripts.

use vstd::prelude::*;
use vstd::string::StrSliceExecFns;
use vstd::string::StringExecFns;

use crate::error::{Error, ErrorKind, Rule};
use crate::text::match_at;

verus! {

/// The text of the release profile token.
pub open spec fn tok_release() -> Seq<char> {
    seq!['r', 'e', 'l', 'e', 'a', 's', 'e']
}

/// The text of the debug profile token.
pub open spec fn tok_debug() -> Seq<char> {
    seq!['d', 'e', 'b', 'u', 'g']
}

/// A build profile.
#[derive(Clone, Copy, Debug, Eq, PartialEq)]
pub enum Profile {
    /// An optimized build.
    Release,
    /// A debuggable build.
    Debug,
}

impl Profile {
    /// The canonical text of the profile.
    pub open spec fn spec_render(self) -> Seq<char> {
        match self {
            Profile::Release => tok_release(),
            Profile::Debug => tok_debug(),
        }
    }

    /// Recognizes a profile token at position `i`: `release` first, then
    /// `debug`, exact case.
    pub open spec fn spec_parse(s: Seq<char>, i: int) -> Option<(Profile, int)> {
        if match_at(s, i, tok_release()) {
            Some((Profile::Release, i + 7))
        } else if match_at(s, i, tok_debug()) {
            Some((Profile::Debug, i + 5))
        } else {
            None
        }
    }

    /// A whole input as a profile: the token with nothing after it.
    pub open spec fn spec_from_str(s: Seq<char>) -> Option<Profile> {
        match Profile::spec_parse(s, 0) {
            Some((p, j)) => if j == s.len() {
                Some(p)
            } else {
                None
            },
            None => None,
        }
    }

    /// Parses a whole input as a profile.  Succeeds exactly on the two
    /// profile tokens; anything else, a case variant included, is an error.
    pub fn from_str(s: &str) -> (r: Result<Profile, Error>)
        ensures
            (match r {
                Ok(p) => Profile::spec_from_str(s@) == Some(p),
                Err(e) => {
                    &&& Profile::spec_from_str(s@) is None
                    &&& e.frames@.len() == 1
                    &&& e.frames@[0].rule == Rule::Profile
                    &&& (Profile::spec_parse(s@, 0) matches Some(p) ==> e.kind
                        == ErrorKind::TrailingInput && e.frames@[0].position as int == p.1)
                    &&& (Profile::spec_parse(s@, 0) is None ==> e.kind == ErrorKind::Syntax
                        && e.frames@[0].position == 0)
                },
            }),
    {
        let n = s.unicode_len();
        proof {
            reveal_strlit("release");
            reveal_strlit("debug");
            assert("release"@ =~= tok_release());
            assert("debug"@ =~= tok_debug());
        }
        if crate::text::tag_matches(s, 0, "release") {
            if n == 7 {
                Ok(Profile::Release)
            } else {
                Err(Error::new(ErrorKind::TrailingInput, Rule::Profile, 7))
            }
        } else if crate::text::tag_matches(s, 0, "debug") {
            if n == 5 {
                Ok(Profile::Debug)
            } else {
                Err(Error::new(ErrorKind::TrailingInput, Rule::Profile, 5))
            }
        } else {
            Err(Error::new(ErrorKind::Syntax, Rule::Profile, 0))
        }
    }

    /// Renders the profile to its canonical text.
    pub fn to_string(&self) -> (r: String)
        ensures
            r@ == self.spec_render(),
    {
        let mut out = String::new();
        match self {
            Profile::Release => {
                out.append("release");
                proof {
                    reveal_strlit("release");
                    assert(out@ =~= tok_release());
                }
            },
            Profile::Debug => {
                out.append("debug");
                proof {
                    reveal_strlit("debug");
                    assert(out@ =~= tok_debug());
                }
            },
        }
        out
    }
}

/// Parsing a profile is exact: precisely the two lowercase tokens are
/// accepted, so every case variant of either is rejected.
pub proof fn lemma_profile_exact(s: Seq<char>)
    ensures
        Profile::spec_from_str(s) is Some <==> (s == tok_release() || s == tok_debug()),
{
    if Profile::spec_from_str(s) is Some {
        if match_at(s, 0, tok_release()) && s.len() == 7 {
            assert(s =~= tok_release());
        } else {
            assert(match_at(s, 0, tok_debug()) && s.len() == 5);
            assert(s =~= tok_debug());
        }
    }
    if s == tok_release() || s == tok_debug() {
        assert(Profile::spec_from_str(s) is Some);
    }
}

/// Rendering a profile and parsing it back yields the same profile.
pub proof fn lemma_profile_round_trip(p: Profile)
    ensures
        Profile::spec_from_str(p.spec_render()) == Some(p),
{
    let s = p.spec_render();
    match p {
        Profile::Release => {
            assert(match_at(s, 0, tok_release()));
        },
        Profile::Debug => {
            assert(!match_at(s, 0, tok_release()));
            assert(match_at(s, 0, tok_debug()));
        },
    }
}

/// Parsing, rendering the result, and parsing again yields the same value
/// as the first parse.
pub proof fn lemma_profile_parse_idempotent(s: Seq<char>)
    ensures
        (Profile::spec_from_str(s) matches Some(p) ==> Profile::spec_from_str(p.spec_render())
            == Some(p)),
{
    match Profile::spec_from_str(s) {
        None => {
        },
        Some(p) => {
            lemma_profile_round_trip(p);
        },
    }
}

} // verus!
