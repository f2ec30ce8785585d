//! The toolchain grammar: channels, version numbers, platform triples and
//! whole toolchain specifiers.
//!
//! Every type carries three faces: a spec-level renderer giving its canonical
//! text, a spec-level recognizer consuming that text from the front of an
//! input, and executable code proved equal to both.  The recognizers follow
//! ordered alternatives with one-character lookahead, which is all the
//! disambiguation the grammar needs: the only prefix collisions are the short
//! ABI tag `gnu` against `gnux32` and `gnullvm`, guarded by a
//! letter-lookahead, and the optional segments of triples and specifiers,
//! guarded by backtracking over the separating hyphen.

use vstd::prelude::*;
use vstd::string::StrSliceExecFns;
use vstd::string::StringExecFns;

use crate::date::Date;
use crate::error::{Error, ErrorKind, Frame, Rule};
use crate::text::{
    dec_rep, digits_value, is_alpha_char, is_digit_char, lemma_dec_rep, lemma_match_at_index,
    lemma_match_at_prefix, lemma_match_at_shift, match_at, spec_parse_number,
};

verus! {

/// The text of the `i686` architecture token.
pub open spec fn tok_i686() -> Seq<char> {
    seq!['i', '6', '8', '6']
}

/// The text of the `x86_64` architecture token.
pub open spec fn tok_x86_64() -> Seq<char> {
    seq!['x', '8', '6', '_', '6', '4']
}

/// The text of the `apple` vendor token.
pub open spec fn tok_apple() -> Seq<char> {
    seq!['a', 'p', 'p', 'l', 'e']
}

/// The text of the `pc` vendor token.
pub open spec fn tok_pc() -> Seq<char> {
    seq!['p', 'c']
}

/// The text of the `unknown` vendor token.
pub open spec fn tok_unknown() -> Seq<char> {
    seq!['u', 'n', 'k', 'n', 'o', 'w', 'n']
}

/// The text of the `darwin` system token.
pub open spec fn tok_darwin() -> Seq<char> {
    seq!['d', 'a', 'r', 'w', 'i', 'n']
}

/// The text of the `linux` system token.
pub open spec fn tok_linux() -> Seq<char> {
    seq!['l', 'i', 'n', 'u', 'x']
}

/// The text of the `windows` system token.
pub open spec fn tok_windows() -> Seq<char> {
    seq!['w', 'i', 'n', 'd', 'o', 'w', 's']
}

/// The text of the short `gnu` ABI token.
pub open spec fn tok_gnu() -> Seq<char> {
    seq!['g', 'n', 'u']
}

/// The text of the `gnux32` ABI token.
pub open spec fn tok_gnux32() -> Seq<char> {
    seq!['g', 'n', 'u', 'x', '3', '2']
}

/// The text of the `musl` ABI token.
pub open spec fn tok_musl() -> Seq<char> {
    seq!['m', 'u', 's', 'l']
}

/// The text of the `gnullvm` ABI token.
pub open spec fn tok_gnullvm() -> Seq<char> {
    seq!['g', 'n', 'u', 'l', 'l', 'v', 'm']
}

/// The text of the `msvc` ABI token.
pub open spec fn tok_msvc() -> Seq<char> {
    seq!['m', 's', 'v', 'c']
}

/// Whether the character at `i` is an ASCII letter.
pub(crate) fn alpha_at(s: &str, i: usize) -> (b: bool)
    requires
        i < s@.len(),
    ensures
        b == is_alpha_char(s@[i as int]),
{
    let c = s.get_char(i);
    let u = c as u32;
    (97 <= u && u <= 122) || (65 <= u && u <= 90)
}

/// Whether the character at `i` is a hyphen.
pub(crate) fn hyphen_at(s: &str, i: usize) -> (b: bool)
    requires
        i < s@.len(),
    ensures
        b == (s@[i as int] == '-'),
{
    s.get_char(i) == '-'
}

/// A processor architecture, the first segment of a platform triple.
#[allow(non_camel_case_types)]
#[derive(Clone, Copy, Debug, Eq, PartialEq)]
#[non_exhaustive]
pub enum Architecture {
    /// 32-bit x86.
    i686,
    /// 64-bit x86.
    x86_64,
}

impl Architecture {
    /// The canonical text of the architecture.
    pub open spec fn spec_render(self) -> Seq<char> {
        match self {
            Architecture::i686 => tok_i686(),
            Architecture::x86_64 => tok_x86_64(),
        }
    }

    /// Recognizes an architecture token at position `i`; the token set has no
    /// member that is a prefix of another, so plain first-match-wins is exact.
    pub open spec fn spec_parse(s: Seq<char>, i: int) -> Option<(Architecture, int)> {
        if match_at(s, i, tok_i686()) {
            Some((Architecture::i686, i + 4))
        } else if match_at(s, i, tok_x86_64()) {
            Some((Architecture::x86_64, i + 6))
        } else {
            None
        }
    }

    /// Recognizes an architecture token at position `i`.
    pub(crate) fn parse_at(s: &str, i: usize) -> (r: Result<(Architecture, usize), Error>)
        requires
            i <= s@.len(),
        ensures
            (match r {
                Ok(p) => Architecture::spec_parse(s@, i as int) == Some((p.0, p.1 as int)),
                Err(e) => {
                    &&& Architecture::spec_parse(s@, i as int) is None
                    &&& e.kind == ErrorKind::Syntax
                    &&& e.frames@.len() == 1
                    &&& e.frames@[0] == (Frame { rule: Rule::Architecture, position: i })
                },
            }),
    {
        let _n = s.unicode_len();
        proof {
            reveal_strlit("i686");
            reveal_strlit("x86_64");
            assert("i686"@ =~= tok_i686());
            assert("x86_64"@ =~= tok_x86_64());
        }
        if crate::text::tag_matches(s, i, "i686") {
            Ok((Architecture::i686, i + 4))
        } else if crate::text::tag_matches(s, i, "x86_64") {
            Ok((Architecture::x86_64, i + 6))
        } else {
            Err(Error::new(ErrorKind::Syntax, Rule::Architecture, i))
        }
    }

    /// Appends the canonical text of the architecture.
    pub(crate) fn push_onto(&self, out: &mut String)
        ensures
            final(out)@ == old(out)@ + self.spec_render(),
    {
        match self {
            Architecture::i686 => {
                out.append("i686");
                proof {
                    reveal_strlit("i686");
                    assert(out@ =~= old(out)@ + tok_i686());
                }
            },
            Architecture::x86_64 => {
                out.append("x86_64");
                proof {
                    reveal_strlit("x86_64");
                    assert(out@ =~= old(out)@ + tok_x86_64());
                }
            },
        }
    }

    /// Renders the architecture to its canonical text.
    pub fn to_string(&self) -> (r: String)
        ensures
            r@ == self.spec_render(),
    {
        let mut out = String::new();
        self.push_onto(&mut out);
        out
    }
}

/// Wherever the canonical text of an architecture occurs, the recognizer
/// accepts exactly it.
pub proof fn lemma_architecture_parse(s: Seq<char>, i: int, a: Architecture)
    requires
        match_at(s, i, a.spec_render()),
    ensures
        Architecture::spec_parse(s, i) == Some((a, i + a.spec_render().len())),
{
    match a {
        Architecture::i686 => {
        },
        Architecture::x86_64 => {
            lemma_match_at_index(s, i, tok_x86_64(), 0);
            assert(!match_at(s, i, tok_i686())) by {
                if match_at(s, i, tok_i686()) {
                    lemma_match_at_index(s, i, tok_i686(), 0);
                }
            }
        },
    }
}

/// A vendor, the optional second segment of a platform triple.
#[derive(Clone, Copy, Debug, Eq, PartialEq)]
#[non_exhaustive]
pub enum Vendor {
    /// The `apple` vendor.
    Apple,
    /// The `pc` vendor.
    PC,
    /// The `unknown` vendor.
    Unknown,
}

impl Vendor {
    /// The canonical text of the vendor.
    pub open spec fn spec_render(self) -> Seq<char> {
        match self {
            Vendor::Apple => tok_apple(),
            Vendor::PC => tok_pc(),
            Vendor::Unknown => tok_unknown(),
        }
    }

    /// Recognizes a vendor token at position `i`; no member of the token set
    /// is a prefix of another.
    pub open spec fn spec_parse(s: Seq<char>, i: int) -> Option<(Vendor, int)> {
        if match_at(s, i, tok_apple()) {
            Some((Vendor::Apple, i + 5))
        } else if match_at(s, i, tok_pc()) {
            Some((Vendor::PC, i + 2))
        } else if match_at(s, i, tok_unknown()) {
            Some((Vendor::Unknown, i + 7))
        } else {
            None
        }
    }

    /// Recognizes a vendor token at position `i`.
    pub(crate) fn parse_at(s: &str, i: usize) -> (r: Result<(Vendor, usize), Error>)
        requires
            i <= s@.len(),
        ensures
            (match r {
                Ok(p) => Vendor::spec_parse(s@, i as int) == Some((p.0, p.1 as int)),
                Err(e) => {
                    &&& Vendor::spec_parse(s@, i as int) is None
                    &&& e.kind == ErrorKind::Syntax
                    &&& e.frames@.len() == 1
                    &&& e.frames@[0] == (Frame { rule: Rule::Vendor, position: i })
                },
            }),
    {
        let _n = s.unicode_len();
        proof {
            reveal_strlit("apple");
            reveal_strlit("pc");
            reveal_strlit("unknown");
            assert("apple"@ =~= tok_apple());
            assert("pc"@ =~= tok_pc());
            assert("unknown"@ =~= tok_unknown());
        }
        if crate::text::tag_matches(s, i, "apple") {
            Ok((Vendor::Apple, i + 5))
        } else if crate::text::tag_matches(s, i, "pc") {
            Ok((Vendor::PC, i + 2))
        } else if crate::text::tag_matches(s, i, "unknown") {
            Ok((Vendor::Unknown, i + 7))
        } else {
            Err(Error::new(ErrorKind::Syntax, Rule::Vendor, i))
        }
    }

    /// Appends the canonical text of the vendor.
    pub(crate) fn push_onto(&self, out: &mut String)
        ensures
            final(out)@ == old(out)@ + self.spec_render(),
    {
        match self {
            Vendor::Apple => {
                out.append("apple");
                proof {
                    reveal_strlit("apple");
                    assert(out@ =~= old(out)@ + tok_apple());
                }
            },
            Vendor::PC => {
                out.append("pc");
                proof {
                    reveal_strlit("pc");
                    assert(out@ =~= old(out)@ + tok_pc());
                }
            },
            Vendor::Unknown => {
                out.append("unknown");
                proof {
                    reveal_strlit("unknown");
                    assert(out@ =~= old(out)@ + tok_unknown());
                }
            },
        }
    }

    /// Renders the vendor to its canonical text.
    pub fn to_string(&self) -> (r: String)
        ensures
            r@ == self.spec_render(),
    {
        let mut out = String::new();
        self.push_onto(&mut out);
        out
    }
}

/// Wherever the canonical text of a vendor occurs, the recognizer accepts
/// exactly it.
pub proof fn lemma_vendor_parse(s: Seq<char>, i: int, v: Vendor)
    requires
        match_at(s, i, v.spec_render()),
    ensures
        Vendor::spec_parse(s, i) == Some((v, i + v.spec_render().len())),
{
    match v {
        Vendor::Apple => {
        },
        Vendor::PC => {
            lemma_match_at_index(s, i, tok_pc(), 0);
            assert(!match_at(s, i, tok_apple())) by {
                if match_at(s, i, tok_apple()) {
                    lemma_match_at_index(s, i, tok_apple(), 0);
                }
            }
        },
        Vendor::Unknown => {
            lemma_match_at_index(s, i, tok_unknown(), 0);
            assert(!match_at(s, i, tok_apple())) by {
                if match_at(s, i, tok_apple()) {
                    lemma_match_at_index(s, i, tok_apple(), 0);
                }
            }
            assert(!match_at(s, i, tok_pc())) by {
                if match_at(s, i, tok_pc()) {
                    lemma_match_at_index(s, i, tok_pc(), 0);
                }
            }
        },
    }
}

/// No vendor token starts like a system token, so a failed vendor attempt
/// can never have stolen the start of the system segment.
pub proof fn lemma_vendor_not_system(s: Seq<char>, i: int, sys: System)
    requires
        match_at(s, i, sys.spec_render()),
    ensures
        Vendor::spec_parse(s, i) is None,
{
    lemma_match_at_index(s, i, sys.spec_render(), 0);
    match sys {
        System::Darwin => {
            assert(s[i] == 'd');
        },
        System::Linux(_) => {
            assert(s[i] == 'l');
        },
        System::Windows(_) => {
            assert(s[i] == 'w');
        },
    }
    assert(!match_at(s, i, tok_apple())) by {
        if match_at(s, i, tok_apple()) {
            lemma_match_at_index(s, i, tok_apple(), 0);
        }
    }
    assert(!match_at(s, i, tok_pc())) by {
        if match_at(s, i, tok_pc()) {
            lemma_match_at_index(s, i, tok_pc(), 0);
        }
    }
    assert(!match_at(s, i, tok_unknown())) by {
        if match_at(s, i, tok_unknown()) {
            lemma_match_at_index(s, i, tok_unknown(), 0);
        }
    }
}

/// An ABI tag of the Unix-like operating-system family.
#[allow(clippy::upper_case_acronyms)]
#[derive(Clone, Copy, Debug, Eq, PartialEq)]
#[non_exhaustive]
pub enum LinuxAbi {
    /// The `gnu` ABI.
    GNU,
    /// The `gnux32` ABI.
    GNUX32,
    /// The `musl` ABI.
    MUSL,
}

impl LinuxAbi {
    /// The canonical text of the ABI tag.
    pub open spec fn spec_render(self) -> Seq<char> {
        match self {
            LinuxAbi::GNU => tok_gnu(),
            LinuxAbi::GNUX32 => tok_gnux32(),
            LinuxAbi::MUSL => tok_musl(),
        }
    }

    /// Recognizes an ABI tag at position `i`.  The short `gnu` tag is a
    /// strict prefix of `gnux32`, so it is accepted only when the next
    /// character is not a letter; otherwise the longer alternatives get
    /// their turn.
    pub open spec fn spec_parse(s: Seq<char>, i: int) -> Option<(LinuxAbi, int)> {
        if match_at(s, i, tok_gnu()) && !(i + 3 < s.len() && is_alpha_char(s[i + 3])) {
            Some((LinuxAbi::GNU, i + 3))
        } else if match_at(s, i, tok_gnux32()) {
            Some((LinuxAbi::GNUX32, i + 6))
        } else if match_at(s, i, tok_musl()) {
            Some((LinuxAbi::MUSL, i + 4))
        } else {
            None
        }
    }

    /// Recognizes an ABI tag at position `i`.
    pub(crate) fn parse_at(s: &str, i: usize) -> (r: Result<(LinuxAbi, usize), Error>)
        requires
            i <= s@.len(),
        ensures
            (match r {
                Ok(p) => LinuxAbi::spec_parse(s@, i as int) == Some((p.0, p.1 as int)),
                Err(e) => {
                    &&& LinuxAbi::spec_parse(s@, i as int) is None
                    &&& e.kind == ErrorKind::Syntax
                    &&& e.frames@.len() == 1
                    &&& e.frames@[0] == (Frame { rule: Rule::SystemAbi, position: i })
                },
            }),
    {
        let n = s.unicode_len();
        proof {
            reveal_strlit("gnu");
            reveal_strlit("gnux32");
            reveal_strlit("musl");
            assert("gnu"@ =~= tok_gnu());
            assert("gnux32"@ =~= tok_gnux32());
            assert("musl"@ =~= tok_musl());
        }
        if crate::text::tag_matches(s, i, "gnu") && !(i + 3 < n && alpha_at(s, i + 3)) {
            Ok((LinuxAbi::GNU, i + 3))
        } else if crate::text::tag_matches(s, i, "gnux32") {
            Ok((LinuxAbi::GNUX32, i + 6))
        } else if crate::text::tag_matches(s, i, "musl") {
            Ok((LinuxAbi::MUSL, i + 4))
        } else {
            Err(Error::new(ErrorKind::Syntax, Rule::SystemAbi, i))
        }
    }

    /// Appends the canonical text of the ABI tag.
    pub(crate) fn push_onto(&self, out: &mut String)
        ensures
            final(out)@ == old(out)@ + self.spec_render(),
    {
        match self {
            LinuxAbi::GNU => {
                out.append("gnu");
                proof {
                    reveal_strlit("gnu");
                    assert(out@ =~= old(out)@ + tok_gnu());
                }
            },
            LinuxAbi::GNUX32 => {
                out.append("gnux32");
                proof {
                    reveal_strlit("gnux32");
                    assert(out@ =~= old(out)@ + tok_gnux32());
                }
            },
            LinuxAbi::MUSL => {
                out.append("musl");
                proof {
                    reveal_strlit("musl");
                    assert(out@ =~= old(out)@ + tok_musl());
                }
            },
        }
    }

    /// Renders the ABI tag to its canonical text.
    pub fn to_string(&self) -> (r: String)
        ensures
            r@ == self.spec_render(),
    {
        let mut out = String::new();
        self.push_onto(&mut out);
        out
    }
}

/// Wherever the canonical text of a Unix-family ABI tag occurs and is not
/// immediately followed by a letter, the recognizer accepts exactly it.
pub proof fn lemma_linux_abi_parse(s: Seq<char>, i: int, a: LinuxAbi)
    requires
        match_at(s, i, a.spec_render()),
        i + a.spec_render().len() == s.len() || !is_alpha_char(
            s[i + a.spec_render().len()],
        ),
    ensures
        LinuxAbi::spec_parse(s, i) == Some((a, i + a.spec_render().len())),
{
    match a {
        LinuxAbi::GNU => {
        },
        LinuxAbi::GNUX32 => {
            lemma_match_at_prefix(s, i, tok_gnux32(), tok_gnu());
            lemma_match_at_index(s, i, tok_gnux32(), 3);
            assert(is_alpha_char('x'));
        },
        LinuxAbi::MUSL => {
            lemma_match_at_index(s, i, tok_musl(), 0);
            assert(!match_at(s, i, tok_gnu())) by {
                if match_at(s, i, tok_gnu()) {
                    lemma_match_at_index(s, i, tok_gnu(), 0);
                }
            }
            assert(!match_at(s, i, tok_gnux32())) by {
                if match_at(s, i, tok_gnux32()) {
                    lemma_match_at_index(s, i, tok_gnux32(), 0);
                }
            }
        },
    }
}

/// The full text of the `gnux32` tag always resolves to `gnux32`, never to
/// its prefix `gnu` with letters left over.
pub proof fn lemma_linux_abi_longest_match(s: Seq<char>, i: int)
    requires
        match_at(s, i, tok_gnux32()),
    ensures
        LinuxAbi::spec_parse(s, i) == Some((LinuxAbi::GNUX32, i + 6)),
{
    lemma_match_at_prefix(s, i, tok_gnux32(), tok_gnu());
    lemma_match_at_index(s, i, tok_gnux32(), 3);
    assert(is_alpha_char('x'));
}

/// An ABI tag of the Windows operating-system family.
#[allow(clippy::upper_case_acronyms)]
#[derive(Clone, Copy, Debug, Eq, PartialEq)]
#[non_exhaustive]
pub enum WindowsAbi {
    /// The `gnu` ABI.
    GNU,
    /// The `gnullvm` ABI.
    GNULLVM,
    /// The `msvc` ABI.
    MSVC,
}

impl WindowsAbi {
    /// The canonical text of the ABI tag.
    pub open spec fn spec_render(self) -> Seq<char> {
        match self {
            WindowsAbi::GNU => tok_gnu(),
            WindowsAbi::GNULLVM => tok_gnullvm(),
            WindowsAbi::MSVC => tok_msvc(),
        }
    }

    /// Recognizes an ABI tag at position `i`, with the same letter-lookahead
    /// guard on the short `gnu` tag as the Unix family: `gnu` is a strict
    /// prefix of `gnullvm`.
    pub open spec fn spec_parse(s: Seq<char>, i: int) -> Option<(WindowsAbi, int)> {
        if match_at(s, i, tok_gnu()) && !(i + 3 < s.len() && is_alpha_char(s[i + 3])) {
            Some((WindowsAbi::GNU, i + 3))
        } else if match_at(s, i, tok_gnullvm()) {
            Some((WindowsAbi::GNULLVM, i + 7))
        } else if match_at(s, i, tok_msvc()) {
            Some((WindowsAbi::MSVC, i + 4))
        } else {
            None
        }
    }

    /// Recognizes an ABI tag at position `i`.
    pub(crate) fn parse_at(s: &str, i: usize) -> (r: Result<(WindowsAbi, usize), Error>)
        requires
            i <= s@.len(),
        ensures
            (match r {
                Ok(p) => WindowsAbi::spec_parse(s@, i as int) == Some((p.0, p.1 as int)),
                Err(e) => {
                    &&& WindowsAbi::spec_parse(s@, i as int) is None
                    &&& e.kind == ErrorKind::Syntax
                    &&& e.frames@.len() == 1
                    &&& e.frames@[0] == (Frame { rule: Rule::SystemAbi, position: i })
                },
            }),
    {
        let n = s.unicode_len();
        proof {
            reveal_strlit("gnu");
            reveal_strlit("gnullvm");
            reveal_strlit("msvc");
            assert("gnu"@ =~= tok_gnu());
            assert("gnullvm"@ =~= tok_gnullvm());
            assert("msvc"@ =~= tok_msvc());
        }
        if crate::text::tag_matches(s, i, "gnu") && !(i + 3 < n && alpha_at(s, i + 3)) {
            Ok((WindowsAbi::GNU, i + 3))
        } else if crate::text::tag_matches(s, i, "gnullvm") {
            Ok((WindowsAbi::GNULLVM, i + 7))
        } else if crate::text::tag_matches(s, i, "msvc") {
            Ok((WindowsAbi::MSVC, i + 4))
        } else {
            Err(Error::new(ErrorKind::Syntax, Rule::SystemAbi, i))
        }
    }

    /// Appends the canonical text of the ABI tag.
    pub(crate) fn push_onto(&self, out: &mut String)
        ensures
            final(out)@ == old(out)@ + self.spec_render(),
    {
        match self {
            WindowsAbi::GNU => {
                out.append("gnu");
                proof {
                    reveal_strlit("gnu");
                    assert(out@ =~= old(out)@ + tok_gnu());
                }
            },
            WindowsAbi::GNULLVM => {
                out.append("gnullvm");
                proof {
                    reveal_strlit("gnullvm");
                    assert(out@ =~= old(out)@ + tok_gnullvm());
                }
            },
            WindowsAbi::MSVC => {
                out.append("msvc");
                proof {
                    reveal_strlit("msvc");
                    assert(out@ =~= old(out)@ + tok_msvc());
                }
            },
        }
    }

    /// Renders the ABI tag to its canonical text.
    pub fn to_string(&self) -> (r: String)
        ensures
            r@ == self.spec_render(),
    {
        let mut out = String::new();
        self.push_onto(&mut out);
        out
    }
}

/// Wherever the canonical text of a Windows-family ABI tag occurs and is not
/// immediately followed by a letter, the recognizer accepts exactly it.
pub proof fn lemma_windows_abi_parse(s: Seq<char>, i: int, a: WindowsAbi)
    requires
        match_at(s, i, a.spec_render()),
        i + a.spec_render().len() == s.len() || !is_alpha_char(
            s[i + a.spec_render().len()],
        ),
    ensures
        WindowsAbi::spec_parse(s, i) == Some((a, i + a.spec_render().len())),
{
    match a {
        WindowsAbi::GNU => {
        },
        WindowsAbi::GNULLVM => {
            lemma_match_at_prefix(s, i, tok_gnullvm(), tok_gnu());
            lemma_match_at_index(s, i, tok_gnullvm(), 3);
            assert(is_alpha_char('l'));
        },
        WindowsAbi::MSVC => {
            lemma_match_at_index(s, i, tok_msvc(), 0);
            assert(!match_at(s, i, tok_gnu())) by {
                if match_at(s, i, tok_gnu()) {
                    lemma_match_at_index(s, i, tok_gnu(), 0);
                }
            }
            assert(!match_at(s, i, tok_gnullvm())) by {
                if match_at(s, i, tok_gnullvm()) {
                    lemma_match_at_index(s, i, tok_gnullvm(), 0);
                }
            }
        },
    }
}

/// The full text of the `gnullvm` tag always resolves to `gnullvm`, never to
/// its prefix `gnu` with letters left over.
pub proof fn lemma_windows_abi_longest_match(s: Seq<char>, i: int)
    requires
        match_at(s, i, tok_gnullvm()),
    ensures
        WindowsAbi::spec_parse(s, i) == Some((WindowsAbi::GNULLVM, i + 7)),
{
    lemma_match_at_prefix(s, i, tok_gnullvm(), tok_gnu());
    lemma_match_at_index(s, i, tok_gnullvm(), 3);
    assert(is_alpha_char('l'));
}

/// An operating system, with its ABI tag where the family has one.
#[derive(Clone, Copy, Debug, Eq, PartialEq)]
#[non_exhaustive]
pub enum System {
    /// The `darwin` system; it never carries an ABI tag.
    Darwin,
    /// A `linux` system with its ABI tag.
    Linux(LinuxAbi),
    /// A `windows` system with its ABI tag.
    Windows(WindowsAbi),
}

impl System {
    /// The canonical text of the system segment, ABI tag included.
    pub open spec fn spec_render(self) -> Seq<char> {
        match self {
            System::Darwin => tok_darwin(),
            System::Linux(a) => tok_linux() + seq!['-'] + a.spec_render(),
            System::Windows(a) => tok_windows() + seq!['-'] + a.spec_render(),
        }
    }

    /// Recognizes a system at position `i`: one of three keywords, the
    /// non-Darwin ones followed by a hyphen and their family's ABI tag.
    pub open spec fn spec_parse(s: Seq<char>, i: int) -> Option<(System, int)> {
        if match_at(s, i, tok_darwin()) {
            Some((System::Darwin, i + 6))
        } else if match_at(s, i, tok_linux()) {
            if i + 5 < s.len() && s[i + 5] == '-' {
                match LinuxAbi::spec_parse(s, i + 6) {
                    Some((a, j)) => Some((System::Linux(a), j)),
                    None => None,
                }
            } else {
                None
            }
        } else if match_at(s, i, tok_windows()) {
            if i + 7 < s.len() && s[i + 7] == '-' {
                match WindowsAbi::spec_parse(s, i + 8) {
                    Some((a, j)) => Some((System::Windows(a), j)),
                    None => None,
                }
            } else {
                None
            }
        } else {
            None
        }
    }

    /// Recognizes a system at position `i`.
    pub(crate) fn parse_at(s: &str, i: usize) -> (r: Result<(System, usize), Error>)
        requires
            i <= s@.len(),
        ensures
            (match r {
                Ok(p) => System::spec_parse(s@, i as int) == Some((p.0, p.1 as int)),
                Err(e) => {
                    &&& System::spec_parse(s@, i as int) is None
                    &&& e.kind == ErrorKind::Syntax
                    &&& e.frames@.len() >= 1
                    &&& (!match_at(s@, i as int, tok_darwin()) && !match_at(
                        s@,
                        i as int,
                        tok_linux(),
                    ) && !match_at(s@, i as int, tok_windows()) ==> e.frames@.len() == 1
                        && e.frames@[0] == (Frame { rule: Rule::System, position: i }))
                    &&& (match_at(s@, i as int, tok_linux()) ==> e.frames@[0].rule
                        == Rule::SystemAbi)
                    &&& (match_at(s@, i as int, tok_linux()) && !(i + 5 < s@.len() && s@[i + 5]
                        == '-') ==> e.frames@.len() == 1 && e.frames@[0].position == i + 5)
                    &&& (match_at(s@, i as int, tok_linux()) && i + 5 < s@.len() && s@[i + 5]
                        == '-' ==> e.frames@.len() == 2 && e.frames@[0].position == i + 6
                        && e.frames@[1] == (Frame { rule: Rule::System, position: i }))
                    &&& (match_at(s@, i as int, tok_windows()) ==> e.frames@[0].rule
                        == Rule::SystemAbi)
                    &&& (match_at(s@, i as int, tok_windows()) && !(i + 7 < s@.len() && s@[i + 7]
                        == '-') ==> e.frames@.len() == 1 && e.frames@[0].position == i + 7)
                    &&& (match_at(s@, i as int, tok_windows()) && i + 7 < s@.len() && s@[i + 7]
                        == '-' ==> e.frames@.len() == 2 && e.frames@[0].position == i + 8
                        && e.frames@[1] == (Frame { rule: Rule::System, position: i }))
                },
            }),
    {
        let n = s.unicode_len();
        proof {
            reveal_strlit("darwin");
            reveal_strlit("linux");
            reveal_strlit("windows");
            assert("darwin"@ =~= tok_darwin());
            assert("linux"@ =~= tok_linux());
            assert("windows"@ =~= tok_windows());
        }
        if crate::text::tag_matches(s, i, "darwin") {
            Ok((System::Darwin, i + 6))
        } else if crate::text::tag_matches(s, i, "linux") {
            if i + 5 < n && hyphen_at(s, i + 5) {
                match LinuxAbi::parse_at(s, i + 6) {
                    Ok((a, j)) => Ok((System::Linux(a), j)),
                    Err(e) => Err(e.within(Rule::System, i)),
                }
            } else {
                Err(Error::new(ErrorKind::Syntax, Rule::SystemAbi, i + 5))
            }
        } else if crate::text::tag_matches(s, i, "windows") {
            if i + 7 < n && hyphen_at(s, i + 7) {
                match WindowsAbi::parse_at(s, i + 8) {
                    Ok((a, j)) => Ok((System::Windows(a), j)),
                    Err(e) => Err(e.within(Rule::System, i)),
                }
            } else {
                Err(Error::new(ErrorKind::Syntax, Rule::SystemAbi, i + 7))
            }
        } else {
            Err(Error::new(ErrorKind::Syntax, Rule::System, i))
        }
    }

    /// Appends the canonical text of the system segment.
    pub(crate) fn push_onto(&self, out: &mut String)
        ensures
            final(out)@ == old(out)@ + self.spec_render(),
    {
        match self {
            System::Darwin => {
                out.append("darwin");
                proof {
                    reveal_strlit("darwin");
                    assert(out@ =~= old(out)@ + tok_darwin());
                }
            },
            System::Linux(a) => {
                out.append("linux-");
                proof {
                    reveal_strlit("linux-");
                    assert(out@ =~= old(out)@ + tok_linux() + seq!['-']);
                }
                a.push_onto(out);
                assert(out@ =~= old(out)@ + self.spec_render());
            },
            System::Windows(a) => {
                out.append("windows-");
                proof {
                    reveal_strlit("windows-");
                    assert(out@ =~= old(out)@ + tok_windows() + seq!['-']);
                }
                a.push_onto(out);
                assert(out@ =~= old(out)@ + self.spec_render());
            },
        }
    }

    /// Renders the system segment to its canonical text.
    pub fn to_string(&self) -> (r: String)
        ensures
            r@ == self.spec_render(),
    {
        let mut out = String::new();
        self.push_onto(&mut out);
        out
    }
}

/// Wherever the canonical text of a system occurs and is not immediately
/// followed by a letter, the recognizer accepts exactly it.
pub proof fn lemma_system_parse(s: Seq<char>, i: int, sys: System)
    requires
        match_at(s, i, sys.spec_render()),
        i + sys.spec_render().len() == s.len() || !is_alpha_char(
            s[i + sys.spec_render().len()],
        ),
    ensures
        System::spec_parse(s, i) == Some((sys, i + sys.spec_render().len())),
{
    match sys {
        System::Darwin => {
        },
        System::Linux(a) => {
            let r = sys.spec_render();
            let t = a.spec_render();
            lemma_match_at_prefix(s, i, r, tok_linux());
            lemma_match_at_index(s, i, tok_linux(), 0);
            assert(!match_at(s, i, tok_darwin())) by {
                if match_at(s, i, tok_darwin()) {
                    lemma_match_at_index(s, i, tok_darwin(), 0);
                }
            }
            lemma_match_at_index(s, i, r, 5);
            assert(s[i + 5] == '-');
            lemma_match_at_shift(s, i, r, 6, t);
            lemma_linux_abi_parse(s, i + 6, a);
        },
        System::Windows(a) => {
            let r = sys.spec_render();
            let t = a.spec_render();
            lemma_match_at_prefix(s, i, r, tok_windows());
            lemma_match_at_index(s, i, tok_windows(), 0);
            assert(!match_at(s, i, tok_darwin())) by {
                if match_at(s, i, tok_darwin()) {
                    lemma_match_at_index(s, i, tok_darwin(), 0);
                }
            }
            assert(!match_at(s, i, tok_linux())) by {
                if match_at(s, i, tok_linux()) {
                    lemma_match_at_index(s, i, tok_linux(), 0);
                }
            }
            lemma_match_at_index(s, i, r, 7);
            assert(s[i + 7] == '-');
            lemma_match_at_shift(s, i, r, 8, t);
            lemma_windows_abi_parse(s, i + 8, a);
        },
    }
}

/// Whether the character at `i` is a dot.
pub(crate) fn dot_at(s: &str, i: usize) -> (b: bool)
    requires
        i < s@.len(),
    ensures
        b == (s@[i as int] == '.'),
{
    s.get_char(i) == '.'
}

/// The kind of a failed numeral at position `i`: a nonempty digit run that
/// still yielded no number can only have overflowed the target integer
/// width, a value error; no digits at all is a syntax error.
pub open spec fn spec_number_fail_kind(s: Seq<char>, i: int) -> ErrorKind
    recommends
        spec_parse_number(s, i) is None,
{
    if i < s.len() && is_digit_char(s[i]) {
        ErrorKind::Value
    } else {
        ErrorKind::Syntax
    }
}

/// A channel's version number: two or three dot-separated components.
#[derive(Clone, Copy, Debug, Eq, PartialEq)]
pub enum ChannelVersion {
    /// A major and minor version number.
    MajorMinor(usize, usize),
    /// A fully specified version number.
    MajorMinorPatch(usize, usize, usize),
}

impl ChannelVersion {
    /// The canonical dotted text of the version number.
    pub open spec fn spec_render(self) -> Seq<char> {
        match self {
            ChannelVersion::MajorMinor(ma, mi) => dec_rep(ma as nat) + seq!['.'] + dec_rep(
                mi as nat,
            ),
            ChannelVersion::MajorMinorPatch(ma, mi, pa) => dec_rep(ma as nat) + seq!['.']
                + dec_rep(mi as nat) + seq!['.'] + dec_rep(pa as nat),
        }
    }

    /// Recognizes a version number at position `i`.  The two-component form
    /// is preferred, but a dot right after the minor component forces the
    /// three-component form instead, so `1.52.1` is never read as `1.52`
    /// with `.1` left over.
    pub open spec fn spec_parse(s: Seq<char>, i: int) -> Option<(ChannelVersion, int)>
        recommends
            0 <= i <= s.len(),
    {
        match spec_parse_number(s, i) {
            None => None,
            Some((ma, i1)) => if i1 < s.len() && s[i1] == '.' {
                match spec_parse_number(s, i1 + 1) {
                    None => None,
                    Some((mi, i2)) => if i2 < s.len() && s[i2] == '.' {
                        match spec_parse_number(s, i2 + 1) {
                            None => None,
                            Some((pa, i3)) => Some(
                                (
                                    ChannelVersion::MajorMinorPatch(
                                        ma as usize,
                                        mi as usize,
                                        pa as usize,
                                    ),
                                    i3,
                                ),
                            ),
                        }
                    } else {
                        Some((ChannelVersion::MajorMinor(ma as usize, mi as usize), i2))
                    },
                }
            } else {
                None
            },
        }
    }

    /// Where and how a failed version parse at `i` gave up: the kind of the
    /// failure and the position it reports, following the recognizer's
    /// alternatives to the first component that does not fit.
    pub open spec fn spec_fail(s: Seq<char>, i: int) -> (ErrorKind, int)
        recommends
            0 <= i <= s.len(),
            ChannelVersion::spec_parse(s, i) is None,
    {
        match spec_parse_number(s, i) {
            None => (spec_number_fail_kind(s, i), i),
            Some((_ma, i1)) => if !(i1 < s.len() && s[i1] == '.') {
                (ErrorKind::Syntax, i1)
            } else {
                match spec_parse_number(s, i1 + 1) {
                    None => (spec_number_fail_kind(s, i1 + 1), i1 + 1),
                    Some((_mi, i2)) => (spec_number_fail_kind(s, i2 + 1), i2 + 1),
                }
            },
        }
    }

    /// Recognizes a version number at position `i`.
    pub(crate) fn parse_at(s: &str, i: usize) -> (r: Result<(ChannelVersion, usize), Error>)
        requires
            i <= s@.len(),
        ensures
            (match r {
                Ok(p) => ChannelVersion::spec_parse(s@, i as int) == Some((p.0, p.1 as int)),
                Err(e) => {
                    &&& ChannelVersion::spec_parse(s@, i as int) is None
                    &&& e.frames@.len() == 1
                    &&& e.frames@[0].rule == Rule::Version
                    &&& e.kind == ChannelVersion::spec_fail(s@, i as int).0
                    &&& e.frames@[0].position as int == ChannelVersion::spec_fail(
                        s@,
                        i as int,
                    ).1
                },
            }),
    {
        let n = s.unicode_len();
        let (ma, i1) = match crate::text::parse_number_at(s, i) {
            Some(p) => p,
            None => {
                let kind = if i < n && crate::text::digit_at(s, i) {
                    ErrorKind::Value
                } else {
                    ErrorKind::Syntax
                };
                return Err(Error::new(kind, Rule::Version, i));
            },
        };
        if !(i1 < n && dot_at(s, i1)) {
            return Err(Error::new(ErrorKind::Syntax, Rule::Version, i1));
        }
        let (mi, i2) = match crate::text::parse_number_at(s, i1 + 1) {
            Some(p) => p,
            None => {
                let kind = if i1 + 1 < n && crate::text::digit_at(s, i1 + 1) {
                    ErrorKind::Value
                } else {
                    ErrorKind::Syntax
                };
                return Err(Error::new(kind, Rule::Version, i1 + 1));
            },
        };
        if i2 < n && dot_at(s, i2) {
            let (pa, i3) = match crate::text::parse_number_at(s, i2 + 1) {
                Some(p) => p,
                None => {
                    let kind = if i2 + 1 < n && crate::text::digit_at(s, i2 + 1) {
                        ErrorKind::Value
                    } else {
                        ErrorKind::Syntax
                    };
                    return Err(Error::new(kind, Rule::Version, i2 + 1));
                },
            };
            Ok((ChannelVersion::MajorMinorPatch(ma, mi, pa), i3))
        } else {
            Ok((ChannelVersion::MajorMinor(ma, mi), i2))
        }
    }

    /// Appends the canonical dotted text of the version number.
    pub(crate) fn push_onto(&self, out: &mut String)
        ensures
            final(out)@ == old(out)@ + self.spec_render(),
    {
        match self {
            ChannelVersion::MajorMinor(ma, mi) => {
                crate::text::push_number(out, *ma);
                out.append(".");
                proof {
                    reveal_strlit(".");
                }
                crate::text::push_number(out, *mi);
                assert(out@ =~= old(out)@ + self.spec_render());
            },
            ChannelVersion::MajorMinorPatch(ma, mi, pa) => {
                crate::text::push_number(out, *ma);
                out.append(".");
                proof {
                    reveal_strlit(".");
                }
                crate::text::push_number(out, *mi);
                out.append(".");
                crate::text::push_number(out, *pa);
                assert(out@ =~= old(out)@ + self.spec_render());
            },
        }
    }

    /// Renders the version number to its canonical dotted text.
    pub fn to_string(&self) -> (r: String)
        ensures
            r@ == self.spec_render(),
    {
        let mut out = String::new();
        self.push_onto(&mut out);
        out
    }
}

/// Wherever the canonical text of a version number occurs, followed by
/// neither a digit nor a dot, the recognizer accepts exactly it.
pub proof fn lemma_version_parse(s: Seq<char>, i: int, v: ChannelVersion)
    requires
        match_at(s, i, v.spec_render()),
        i + v.spec_render().len() == s.len() || (!is_digit_char(
            s[i + v.spec_render().len()],
        ) && s[i + v.spec_render().len()] != '.'),
    ensures
        ChannelVersion::spec_parse(s, i) == Some((v, i + v.spec_render().len())),
{
    let r = v.spec_render();
    let after = i + r.len();
    match v {
        ChannelVersion::MajorMinor(ma, mi) => {
            let dma = dec_rep(ma as nat);
            let dmi = dec_rep(mi as nat);
            lemma_dec_rep(ma as nat);
            lemma_dec_rep(mi as nat);
            let la = dma.len() as int;
            let lb = dmi.len() as int;
            assert(r =~= dma + seq!['.'] + dmi);
            assert(r.len() == la + 1 + lb);
            assert(forall|k: int| 0 <= k < la ==> #[trigger] r[k] == dma[k]);
            assert(r[la] == '.');
            assert(forall|k: int| 0 <= k < lb ==> #[trigger] r[la + 1 + k] == dmi[k]);
            lemma_match_at_index(s, i, r, la);
            assert(s[i + la] == '.');
            lemma_number_component(s, i, r, 0, dma, ma);
            lemma_number_component(s, i, r, la + 1, dmi, mi);
            assert(spec_parse_number(s, i + la + 1) == Some((mi as nat, after)));
        },
        ChannelVersion::MajorMinorPatch(ma, mi, pa) => {
            let dma = dec_rep(ma as nat);
            let dmi = dec_rep(mi as nat);
            let dpa = dec_rep(pa as nat);
            lemma_dec_rep(ma as nat);
            lemma_dec_rep(mi as nat);
            lemma_dec_rep(pa as nat);
            let la = dma.len() as int;
            let lb = dmi.len() as int;
            let lc = dpa.len() as int;
            assert(r =~= dma + seq!['.'] + dmi + seq!['.'] + dpa);
            assert(r.len() == la + 1 + lb + 1 + lc);
            assert(forall|k: int| 0 <= k < la ==> #[trigger] r[k] == dma[k]);
            assert(r[la] == '.');
            assert(forall|k: int| 0 <= k < lb ==> #[trigger] r[la + 1 + k] == dmi[k]);
            assert(r[la + 1 + lb] == '.');
            assert(forall|k: int| 0 <= k < lc ==> #[trigger] r[la + 1 + lb + 1 + k] == dpa[k]);
            lemma_match_at_index(s, i, r, la);
            assert(s[i + la] == '.');
            lemma_match_at_index(s, i, r, la + 1 + lb);
            assert(s[i + la + 1 + lb] == '.');
            lemma_number_component(s, i, r, 0, dma, ma);
            lemma_number_component(s, i, r, la + 1, dmi, mi);
            lemma_number_component(s, i, r, la + 1 + lb + 1, dpa, pa);
            assert(spec_parse_number(s, i + la + 1 + lb + 1) == Some((pa as nat, after)));
        },
    }
}

/// Inside the matched text `r` at `i`, the numeral `d` standing at offset
/// `off` — with no digit right after it — is read back as the number `m`.
proof fn lemma_number_component(
    s: Seq<char>,
    i: int,
    r: Seq<char>,
    off: int,
    d: Seq<char>,
    m: usize,
)
    requires
        match_at(s, i, r),
        0 <= off,
        off + d.len() <= r.len(),
        forall|k: int| 0 <= k < d.len() ==> d[k] == r[off + k],
        d.len() >= 1,
        forall|k: int| 0 <= k < d.len() ==> is_digit_char(#[trigger] d[k]),
        digits_value(d) == m as nat,
        i + off + d.len() == s.len() || !is_digit_char(s[i + off + d.len()]),
    ensures
        spec_parse_number(s, i + off) == Some((m as nat, i + off + d.len())),
{
    let p = i + off;
    let e = p + d.len();
    lemma_match_at_shift(s, i, r, off, d);
    assert forall|k: int| p <= k < e implies is_digit_char(s[k]) by {
        lemma_match_at_index(s, p, d, k - p);
    }
    crate::text::lemma_digit_run_end_of(s, p, e);
    assert(s.subrange(p, e) =~= d) by {
        assert forall|k: int| 0 <= k < d.len() implies s.subrange(p, e)[k] == d[k] by {
            lemma_match_at_index(s, p, d, k);
        }
    }
    assert(digits_value(s.subrange(p, e)) == m as nat);
    assert(m as nat <= usize::MAX as nat);
}

/// A release channel.
#[derive(Clone, Copy, Debug, Eq, PartialEq)]
pub enum Channel {
    /// The stable release track.
    Stable,
    /// The beta release track.
    Beta,
    /// The nightly release track.
    Nightly,
    /// A pinned release, named by its version number.
    Version(ChannelVersion),
}

/// The text of the `stable` channel token.
pub open spec fn tok_stable() -> Seq<char> {
    seq!['s', 't', 'a', 'b', 'l', 'e']
}

/// The text of the `beta` channel token.
pub open spec fn tok_beta() -> Seq<char> {
    seq!['b', 'e', 't', 'a']
}

/// The text of the `nightly` channel token.
pub open spec fn tok_nightly() -> Seq<char> {
    seq!['n', 'i', 'g', 'h', 't', 'l', 'y']
}

impl Channel {
    /// The canonical text of the channel.
    pub open spec fn spec_render(self) -> Seq<char> {
        match self {
            Channel::Stable => tok_stable(),
            Channel::Beta => tok_beta(),
            Channel::Nightly => tok_nightly(),
            Channel::Version(v) => v.spec_render(),
        }
    }

    /// Recognizes a channel at position `i`: one of the three keywords, or
    /// else a version number.  Keyword text and version text are disjoint —
    /// one starts with a letter, the other with a digit — so the order of
    /// alternatives cannot change what is accepted.
    pub open spec fn spec_parse(s: Seq<char>, i: int) -> Option<(Channel, int)>
        recommends
            0 <= i <= s.len(),
    {
        if match_at(s, i, tok_stable()) {
            Some((Channel::Stable, i + 6))
        } else if match_at(s, i, tok_beta()) {
            Some((Channel::Beta, i + 4))
        } else if match_at(s, i, tok_nightly()) {
            Some((Channel::Nightly, i + 7))
        } else {
            match ChannelVersion::spec_parse(s, i) {
                Some((v, j)) => Some((Channel::Version(v), j)),
                None => None,
            }
        }
    }

    /// A whole input as a channel: the channel with nothing after it.
    pub open spec fn spec_from_str(s: Seq<char>) -> Option<Channel> {
        match Channel::spec_parse(s, 0) {
            Some((c, j)) => if j == s.len() {
                Some(c)
            } else {
                None
            },
            None => None,
        }
    }

    /// Recognizes a channel at position `i`.
    pub(crate) fn parse_at(s: &str, i: usize) -> (r: Result<(Channel, usize), Error>)
        requires
            i <= s@.len(),
        ensures
            (match r {
                Ok(p) => Channel::spec_parse(s@, i as int) == Some((p.0, p.1 as int)),
                Err(e) => {
                    &&& Channel::spec_parse(s@, i as int) is None
                    &&& e.frames@.len() == 2
                    &&& e.frames@[0].rule == Rule::Version
                    &&& e.frames@[0].position as int == ChannelVersion::spec_fail(
                        s@,
                        i as int,
                    ).1
                    &&& e.frames@[1] == (Frame { rule: Rule::Channel, position: i })
                    &&& e.kind == ChannelVersion::spec_fail(s@, i as int).0
                },
            }),
    {
        proof {
            reveal_strlit("stable");
            reveal_strlit("beta");
            reveal_strlit("nightly");
            assert("stable"@ =~= tok_stable());
            assert("beta"@ =~= tok_beta());
            assert("nightly"@ =~= tok_nightly());
        }
        let _n = s.unicode_len();
        if crate::text::tag_matches(s, i, "stable") {
            Ok((Channel::Stable, i + 6))
        } else if crate::text::tag_matches(s, i, "beta") {
            Ok((Channel::Beta, i + 4))
        } else if crate::text::tag_matches(s, i, "nightly") {
            Ok((Channel::Nightly, i + 7))
        } else {
            match ChannelVersion::parse_at(s, i) {
                Ok((v, j)) => Ok((Channel::Version(v), j)),
                Err(e) => Err(e.within(Rule::Channel, i)),
            }
        }
    }

    /// Parses a whole input as a channel: one of the three keywords or a
    /// dotted version number, with nothing before or after it.
    pub fn from_str(s: &str) -> (r: Result<Channel, Error>)
        ensures
            (match r {
                Ok(c) => Channel::spec_from_str(s@) == Some(c),
                Err(e) => {
                    &&& Channel::spec_from_str(s@) is None
                    &&& e.frames@.len() >= 1
                    &&& e.frames@.last().rule == Rule::Channel
                    &&& (Channel::spec_parse(s@, 0) matches Some(p) ==> e.kind
                        == ErrorKind::TrailingInput && e.frames@.len() == 1
                        && e.frames@[0].position as int == p.1)
                    &&& (Channel::spec_parse(s@, 0) is None ==> e.kind
                        == ChannelVersion::spec_fail(s@, 0).0)
                },
            }),
    {
        let n = s.unicode_len();
        match Channel::parse_at(s, 0) {
            Ok((c, j)) => if j == n {
                Ok(c)
            } else {
                Err(Error::new(ErrorKind::TrailingInput, Rule::Channel, j))
            },
            Err(e) => Err(e),
        }
    }

    /// Appends the canonical text of the channel.
    pub(crate) fn push_onto(&self, out: &mut String)
        ensures
            final(out)@ == old(out)@ + self.spec_render(),
    {
        match self {
            Channel::Stable => {
                out.append("stable");
                proof {
                    reveal_strlit("stable");
                    assert(out@ =~= old(out)@ + tok_stable());
                }
            },
            Channel::Beta => {
                out.append("beta");
                proof {
                    reveal_strlit("beta");
                    assert(out@ =~= old(out)@ + tok_beta());
                }
            },
            Channel::Nightly => {
                out.append("nightly");
                proof {
                    reveal_strlit("nightly");
                    assert(out@ =~= old(out)@ + tok_nightly());
                }
            },
            Channel::Version(v) => {
                v.push_onto(out);
            },
        }
    }

    /// Renders the channel to its canonical text.
    pub fn to_string(&self) -> (r: String)
        ensures
            r@ == self.spec_render(),
    {
        let mut out = String::new();
        self.push_onto(&mut out);
        out
    }
}

/// Wherever the canonical text of a channel occurs, followed by neither a
/// digit nor a dot, the recognizer accepts exactly it.
pub proof fn lemma_channel_parse(s: Seq<char>, i: int, c: Channel)
    requires
        match_at(s, i, c.spec_render()),
        i + c.spec_render().len() == s.len() || (!is_digit_char(
            s[i + c.spec_render().len()],
        ) && s[i + c.spec_render().len()] != '.'),
    ensures
        Channel::spec_parse(s, i) == Some((c, i + c.spec_render().len())),
{
    match c {
        Channel::Stable => {
        },
        Channel::Beta => {
            lemma_match_at_index(s, i, tok_beta(), 0);
            assert(!match_at(s, i, tok_stable())) by {
                if match_at(s, i, tok_stable()) {
                    lemma_match_at_index(s, i, tok_stable(), 0);
                }
            }
        },
        Channel::Nightly => {
            lemma_match_at_index(s, i, tok_nightly(), 0);
            assert(!match_at(s, i, tok_stable())) by {
                if match_at(s, i, tok_stable()) {
                    lemma_match_at_index(s, i, tok_stable(), 0);
                }
            }
            assert(!match_at(s, i, tok_beta())) by {
                if match_at(s, i, tok_beta()) {
                    lemma_match_at_index(s, i, tok_beta(), 0);
                }
            }
        },
        Channel::Version(v) => {
            let r = v.spec_render();
            lemma_match_at_index(s, i, r, 0);
            assert(is_digit_char(r[0])) by {
                match v {
                    ChannelVersion::MajorMinor(ma, _) => {
                        lemma_dec_rep(ma as nat);
                        assert(r[0] == dec_rep(ma as nat)[0]);
                    },
                    ChannelVersion::MajorMinorPatch(ma, _, _) => {
                        lemma_dec_rep(ma as nat);
                        assert(r[0] == dec_rep(ma as nat)[0]);
                    },
                }
            }
            assert(!match_at(s, i, tok_stable())) by {
                if match_at(s, i, tok_stable()) {
                    lemma_match_at_index(s, i, tok_stable(), 0);
                }
            }
            assert(!match_at(s, i, tok_beta())) by {
                if match_at(s, i, tok_beta()) {
                    lemma_match_at_index(s, i, tok_beta(), 0);
                }
            }
            assert(!match_at(s, i, tok_nightly())) by {
                if match_at(s, i, tok_nightly()) {
                    lemma_match_at_index(s, i, tok_nightly(), 0);
                }
            }
            lemma_version_parse(s, i, v);
        },
    }
}

/// Rendering a channel and parsing it back yields the same channel.
pub proof fn lemma_channel_round_trip(c: Channel)
    ensures
        Channel::spec_from_str(c.spec_render()) == Some(c),
{
    let s = c.spec_render();
    assert(match_at(s, 0, s));
    lemma_channel_parse(s, 0, c);
}

/// A platform triple: architecture, optional vendor, and operating system
/// with its ABI where the family has one.
#[derive(Clone, Copy, Debug, Eq, PartialEq)]
pub struct Host {
    /// The architecture segment.
    pub architecture: Architecture,
    /// The vendor segment; some valid triples omit it.
    pub vendor: Option<Vendor>,
    /// The operating-system segment, ABI tag included.
    pub system: System,
}

impl Host {
    /// A triple from its parts.
    pub fn new(architecture: Architecture, vendor: Option<Vendor>, system: System) -> (r: Host)
        ensures
            r == (Host { architecture, vendor, system }),
    {
        Host { architecture, vendor, system }
    }

    /// The canonical hyphenated text of the triple.
    pub open spec fn spec_render(self) -> Seq<char> {
        self.architecture.spec_render() + (match self.vendor {
            Some(v) => seq!['-'] + v.spec_render(),
            None => Seq::<char>::empty(),
        }) + seq!['-'] + self.system.spec_render()
    }

    /// Recognizes a triple at position `i`: the architecture, then a
    /// speculative vendor attempt behind its hyphen — abandoned without
    /// consuming anything when no vendor token is there — then the mandatory
    /// system segment behind its own hyphen.  Vendor and system tokens start
    /// with different letters, so a vendor match never has to be undone for
    /// the system segment's sake.
    pub open spec fn spec_parse(s: Seq<char>, i: int) -> Option<(Host, int)>
        recommends
            0 <= i <= s.len(),
    {
        match Architecture::spec_parse(s, i) {
            None => None,
            Some((a, i1)) => {
                let vres = if i1 < s.len() && s[i1] == '-' {
                    Vendor::spec_parse(s, i1 + 1)
                } else {
                    None
                };
                match vres {
                    Some((v, i2)) => if i2 < s.len() && s[i2] == '-' {
                        match System::spec_parse(s, i2 + 1) {
                            Some((sys, i3)) => Some(
                                (Host { architecture: a, vendor: Some(v), system: sys }, i3),
                            ),
                            None => None,
                        }
                    } else {
                        None
                    },
                    None => if i1 < s.len() && s[i1] == '-' {
                        match System::spec_parse(s, i1 + 1) {
                            Some((sys, i3)) => Some(
                                (Host { architecture: a, vendor: None, system: sys }, i3),
                            ),
                            None => None,
                        }
                    } else {
                        None
                    },
                }
            },
        }
    }

    /// A whole input as a triple: the triple with nothing after it.
    pub open spec fn spec_from_str(s: Seq<char>) -> Option<Host> {
        match Host::spec_parse(s, 0) {
            Some((h, j)) => if j == s.len() {
                Some(h)
            } else {
                None
            },
            None => None,
        }
    }

    /// Recognizes a triple at position `i`.
    pub(crate) fn parse_at(s: &str, i: usize) -> (r: Result<(Host, usize), Error>)
        requires
            i <= s@.len(),
        ensures
            (match r {
                Ok(p) => Host::spec_parse(s@, i as int) == Some((p.0, p.1 as int)),
                Err(e) => {
                    &&& Host::spec_parse(s@, i as int) is None
                    &&& e.kind == ErrorKind::Syntax
                    &&& e.frames@.len() >= 1
                    &&& e.frames@.last().rule == Rule::Host
                    &&& (Architecture::spec_parse(s@, i as int) is None ==> e.frames@.len() == 2
                        && e.frames@[0] == (Frame { rule: Rule::Architecture, position: i }))
                },
            }),
    {
        let n = s.unicode_len();
        let (a, i1) = match Architecture::parse_at(s, i) {
            Ok(p) => p,
            Err(e) => {
                return Err(e.within(Rule::Host, i));
            },
        };
        let mut vendor: Option<Vendor> = None;
        let mut pos = i1;
        if i1 < n && hyphen_at(s, i1) {
            match Vendor::parse_at(s, i1 + 1) {
                Ok((v, i2)) => {
                    vendor = Some(v);
                    pos = i2;
                },
                Err(_) => {},
            }
        }
        if pos < n && hyphen_at(s, pos) {
            match System::parse_at(s, pos + 1) {
                Ok((sys, i3)) => Ok((Host { architecture: a, vendor, system: sys }, i3)),
                Err(e) => Err(e.within(Rule::Host, i)),
            }
        } else {
            Err(Error::new(ErrorKind::Syntax, Rule::Host, pos))
        }
    }

    /// Parses a whole input as a platform triple.
    pub fn from_str(s: &str) -> (r: Result<Host, Error>)
        ensures
            (match r {
                Ok(h) => Host::spec_from_str(s@) == Some(h),
                Err(e) => {
                    &&& Host::spec_from_str(s@) is None
                    &&& e.frames@.len() >= 1
                    &&& e.frames@.last().rule == Rule::Host
                    &&& (Host::spec_parse(s@, 0) matches Some(p) ==> e.kind
                        == ErrorKind::TrailingInput && e.frames@.len() == 1
                        && e.frames@[0].position as int == p.1)
                    &&& (Host::spec_parse(s@, 0) is None ==> e.kind == ErrorKind::Syntax)
                },
            }),
    {
        let n = s.unicode_len();
        match Host::parse_at(s, 0) {
            Ok((h, j)) => if j == n {
                Ok(h)
            } else {
                Err(Error::new(ErrorKind::TrailingInput, Rule::Host, j))
            },
            Err(e) => Err(e),
        }
    }

    /// Appends the canonical text of the triple.
    pub(crate) fn push_onto(&self, out: &mut String)
        ensures
            final(out)@ == old(out)@ + self.spec_render(),
    {
        self.architecture.push_onto(out);
        match &self.vendor {
            Some(v) => {
                out.append("-");
                proof {
                    reveal_strlit("-");
                }
                v.push_onto(out);
            },
            None => {},
        }
        out.append("-");
        proof {
            reveal_strlit("-");
        }
        self.system.push_onto(out);
        assert(out@ =~= old(out)@ + self.spec_render());
    }

    /// Renders the triple to its canonical text.
    pub fn to_string(&self) -> (r: String)
        ensures
            r@ == self.spec_render(),
    {
        let mut out = String::new();
        self.push_onto(&mut out);
        out
    }
}

/// Wherever the canonical text of a triple stands as the whole rest of the
/// input, the recognizer accepts exactly it.
pub proof fn lemma_host_parse(s: Seq<char>, i: int, h: Host)
    requires
        match_at(s, i, h.spec_render()),
        i + h.spec_render().len() == s.len(),
    ensures
        Host::spec_parse(s, i) == Some((h, s.len() as int)),
{
    let r = h.spec_render();
    let ra = h.architecture.spec_render();
    let la = ra.len() as int;
    let rs = h.system.spec_render();
    let ls = rs.len() as int;
    match h.vendor {
        Some(v) => {
            let rv = v.spec_render();
            let lv = rv.len() as int;
            assert(r =~= ra + seq!['-'] + rv + seq!['-'] + rs);
            assert(r.len() == la + 1 + lv + 1 + ls);
            assert(forall|k: int| 0 <= k < la ==> #[trigger] r[k] == ra[k]);
            assert(r[la] == '-');
            assert(forall|k: int| 0 <= k < lv ==> #[trigger] r[la + 1 + k] == rv[k]);
            assert(r[la + 1 + lv] == '-');
            assert(forall|k: int|
                0 <= k < ls ==> #[trigger] r[la + 1 + lv + 1 + k] == rs[k]);
            lemma_match_at_prefix(s, i, r, ra);
            lemma_architecture_parse(s, i, h.architecture);
            lemma_match_at_index(s, i, r, la);
            lemma_match_at_shift(s, i, r, la + 1, rv);
            lemma_vendor_parse(s, i + la + 1, v);
            lemma_match_at_index(s, i, r, la + 1 + lv);
            lemma_match_at_shift(s, i, r, la + 1 + lv + 1, rs);
            lemma_system_parse(s, i + la + 1 + lv + 1, h.system);
        },
        None => {
            assert(r =~= ra + seq!['-'] + rs);
            assert(r.len() == la + 1 + ls);
            assert(forall|k: int| 0 <= k < la ==> #[trigger] r[k] == ra[k]);
            assert(r[la] == '-');
            assert(forall|k: int| 0 <= k < ls ==> #[trigger] r[la + 1 + k] == rs[k]);
            lemma_match_at_prefix(s, i, r, ra);
            lemma_architecture_parse(s, i, h.architecture);
            lemma_match_at_index(s, i, r, la);
            lemma_match_at_shift(s, i, r, la + 1, rs);
            lemma_vendor_not_system(s, i + la + 1, h.system);
            lemma_system_parse(s, i + la + 1, h.system);
        },
    }
}

/// Rendering a triple and parsing it back yields the same triple.
pub proof fn lemma_host_round_trip(h: Host)
    ensures
        Host::spec_from_str(h.spec_render()) == Some(h),
{
    let s = h.spec_render();
    assert(match_at(s, 0, s));
    lemma_host_parse(s, 0, h);
}

/// A toolchain specifier: a channel, an optional pinned date and an optional
/// platform triple, in that fixed order.
#[derive(Clone, Copy, Debug, Eq, PartialEq)]
pub struct Toolchain {
    /// The release channel.
    pub channel: Channel,
    /// The pinned calendar date, if any.
    pub date: Option<Date>,
    /// The platform triple, if any.
    pub host: Option<Host>,
}

impl Toolchain {
    /// A specifier from its parts.
    pub fn new(channel: Channel, date: Option<Date>, host: Option<Host>) -> (r: Toolchain)
        ensures
            r == (Toolchain { channel, date, host }),
    {
        Toolchain { channel, date, host }
    }

    /// The specifier's date, if present, denotes a real calendar day.
    pub open spec fn wf(self) -> bool {
        self.date matches Some(d) ==> d.valid()
    }

    /// The canonical hyphenated text of the specifier.
    pub open spec fn spec_render(self) -> Seq<char> {
        self.channel.spec_render() + (match self.date {
            Some(d) => seq!['-'] + d.spec_render(),
            None => Seq::<char>::empty(),
        }) + (match self.host {
            Some(h) => seq!['-'] + h.spec_render(),
            None => Seq::<char>::empty(),
        })
    }

    /// Recognizes a specifier at position `i`: the channel, then a
    /// speculative date attempt and a speculative triple attempt, each
    /// behind its hyphen and each abandoned without consuming anything when
    /// its segment is not there.
    pub open spec fn spec_parse(s: Seq<char>, i: int) -> Option<(Toolchain, int)>
        recommends
            0 <= i <= s.len(),
    {
        match Channel::spec_parse(s, i) {
            None => None,
            Some((c, i1)) => {
                let dres = if i1 < s.len() && s[i1] == '-' {
                    Date::spec_parse(s, i1 + 1)
                } else {
                    None
                };
                let date = match dres {
                    Some((d, _)) => Some(d),
                    None => None,
                };
                let i2 = match dres {
                    Some((_, j)) => j,
                    None => i1,
                };
                let hres = if i2 < s.len() && s[i2] == '-' {
                    Host::spec_parse(s, i2 + 1)
                } else {
                    None
                };
                let host = match hres {
                    Some((h, _)) => Some(h),
                    None => None,
                };
                let i3 = match hres {
                    Some((_, j)) => j,
                    None => i2,
                };
                Some((Toolchain { channel: c, date, host }, i3))
            },
        }
    }

    /// A whole input as a specifier: the specifier with nothing after it.
    /// Each optional segment either parses in full behind its hyphen or is
    /// absent; leftover text, a trailing separator included, fails here even
    /// when every segment before it matched.
    pub open spec fn spec_from_str(s: Seq<char>) -> Option<Toolchain> {
        match Toolchain::spec_parse(s, 0) {
            Some((t, j)) => if j == s.len() {
                Some(t)
            } else {
                None
            },
            None => None,
        }
    }

    /// Recognizes a specifier at position `i`.
    pub(crate) fn parse_at(s: &str, i: usize) -> (r: Result<(Toolchain, usize), Error>)
        requires
            i <= s@.len(),
        ensures
            (match r {
                Ok(p) => Toolchain::spec_parse(s@, i as int) == Some((p.0, p.1 as int))
                    && p.0.wf(),
                Err(e) => {
                    &&& Toolchain::spec_parse(s@, i as int) is None
                    &&& e.frames@.len() == 3
                    &&& e.frames@[0].rule == Rule::Version
                    &&& e.frames@[1] == (Frame { rule: Rule::Channel, position: i })
                    &&& e.frames@[2] == (Frame { rule: Rule::Toolchain, position: i })
                    &&& e.kind == ChannelVersion::spec_fail(s@, i as int).0
                },
            }),
    {
        let n = s.unicode_len();
        let (c, i1) = match Channel::parse_at(s, i) {
            Ok(p) => p,
            Err(e) => {
                return Err(e.within(Rule::Toolchain, i));
            },
        };
        let mut date: Option<Date> = None;
        let mut pos = i1;
        if i1 < n && hyphen_at(s, i1) {
            match Date::parse_at(s, i1 + 1) {
                Ok((d, j)) => {
                    date = Some(d);
                    pos = j;
                },
                Err(_) => {},
            }
        }
        let mut host: Option<Host> = None;
        if pos < n && hyphen_at(s, pos) {
            match Host::parse_at(s, pos + 1) {
                Ok((h, j)) => {
                    host = Some(h);
                    pos = j;
                },
                Err(_) => {},
            }
        }
        Ok((Toolchain { channel: c, date, host }, pos))
    }

    /// Parses a whole input as a toolchain specifier.
    pub fn from_str(s: &str) -> (r: Result<Toolchain, Error>)
        ensures
            (match r {
                Ok(t) => Toolchain::spec_from_str(s@) == Some(t) && t.wf(),
                Err(e) => {
                    &&& Toolchain::spec_from_str(s@) is None
                    &&& e.frames@.len() >= 1
                    &&& e.frames@.last().rule == Rule::Toolchain
                    &&& (Toolchain::spec_parse(s@, 0) matches Some(p) ==> e.kind
                        == ErrorKind::TrailingInput && e.frames@.len() == 1
                        && e.frames@[0].position as int == p.1)
                    &&& (Toolchain::spec_parse(s@, 0) is None ==> e.kind
                        == ChannelVersion::spec_fail(s@, 0).0)
                },
            }),
    {
        let n = s.unicode_len();
        match Toolchain::parse_at(s, 0) {
            Ok((t, j)) => if j == n {
                Ok(t)
            } else {
                Err(Error::new(ErrorKind::TrailingInput, Rule::Toolchain, j))
            },
            Err(e) => Err(e),
        }
    }

    /// Appends the canonical text of the specifier.
    pub(crate) fn push_onto(&self, out: &mut String)
        requires
            self.wf(),
        ensures
            final(out)@ == old(out)@ + self.spec_render(),
    {
        self.channel.push_onto(out);
        match &self.date {
            Some(d) => {
                out.append("-");
                proof {
                    reveal_strlit("-");
                }
                d.push_onto(out);
            },
            None => {},
        }
        match &self.host {
            Some(h) => {
                out.append("-");
                proof {
                    reveal_strlit("-");
                }
                h.push_onto(out);
            },
            None => {},
        }
        assert(out@ =~= old(out)@ + self.spec_render());
    }

    /// Renders the specifier to its canonical text.
    pub fn to_string(&self) -> (r: String)
        requires
            self.wf(),
        ensures
            r@ == self.spec_render(),
    {
        let mut out = String::new();
        self.push_onto(&mut out);
        out
    }
}

/// A specifier accepted by the recognizer carries only valid dates.
pub proof fn lemma_toolchain_parse_wf(s: Seq<char>, i: int)
    ensures
        (Toolchain::spec_parse(s, i) matches Some(p) ==> p.0.wf()),
{
    match Channel::spec_parse(s, i) {
        None => {
        },
        Some((c, i1)) => {
            crate::date::lemma_date_parse_valid(s, i1 + 1);
        },
    }
}

/// Rendering a well-formed specifier and parsing it back yields the same
/// specifier.
pub proof fn lemma_toolchain_round_trip(t: Toolchain)
    requires
        t.wf(),
    ensures
        Toolchain::spec_from_str(t.spec_render()) == Some(t),
{
    match (t.date, t.host) {
        (None, None) => {
            lemma_toolchain_rt_plain(t);
        },
        (Some(d), None) => {
            lemma_toolchain_rt_date(t, d);
        },
        (None, Some(h)) => {
            lemma_toolchain_rt_host(t, h);
        },
        (Some(d), Some(h)) => {
            lemma_toolchain_rt_date_host(t, d, h);
        },
    }
}

/// The round trip for a specifier that is a bare channel.
proof fn lemma_toolchain_rt_plain(t: Toolchain)
    requires
        t.wf(),
        t.date is None,
        t.host is None,
    ensures
        Toolchain::spec_from_str(t.spec_render()) == Some(t),
{
    let s = t.spec_render();
    let rc = t.channel.spec_render();
    assert(match_at(s, 0, s));
    assert(s =~= rc);
    lemma_channel_parse(s, 0, t.channel);
}

/// The round trip for a specifier with a date and no triple.
proof fn lemma_toolchain_rt_date(t: Toolchain, d: Date)
    requires
        t.wf(),
        t.date == Some(d),
        t.host is None,
    ensures
        Toolchain::spec_from_str(t.spec_render()) == Some(t),
{
    let s = t.spec_render();
    let rc = t.channel.spec_render();
    let lc = rc.len() as int;
    let rd = d.spec_render();
    assert(match_at(s, 0, s));
    assert(rd.len() == 10);
    assert(s =~= rc + seq!['-'] + rd);
    assert(s.len() == lc + 1 + 10);
    assert(s[lc] == '-');
    assert(!is_digit_char('-') && '-' != '.');
    lemma_match_at_prefix(s, 0, s, rc);
    lemma_channel_parse(s, 0, t.channel);
    assert(forall|k: int| 0 <= k < 10 ==> #[trigger] s[lc + 1 + k] == rd[k]);
    lemma_match_at_shift(s, 0, s, lc + 1, rd);
    crate::date::lemma_date_parse(s, lc + 1, d);
}

/// The round trip for a specifier with a triple and no date.
proof fn lemma_toolchain_rt_host(t: Toolchain, h: Host)
    requires
        t.wf(),
        t.date is None,
        t.host == Some(h),
    ensures
        Toolchain::spec_from_str(t.spec_render()) == Some(t),
{
    let s = t.spec_render();
    let rc = t.channel.spec_render();
    let lc = rc.len() as int;
    let rh = h.spec_render();
    let lh = rh.len() as int;
    assert(match_at(s, 0, s));
    assert(s =~= rc + seq!['-'] + rh);
    assert(s.len() == lc + 1 + lh);
    assert(s[lc] == '-');
    assert(!is_digit_char('-') && '-' != '.');
    lemma_match_at_prefix(s, 0, s, rc);
    lemma_channel_parse(s, 0, t.channel);
    assert(forall|k: int| 0 <= k < lh ==> #[trigger] s[lc + 1 + k] == rh[k]);
    lemma_match_at_shift(s, 0, s, lc + 1, rh);
    lemma_host_not_date(s, lc + 1, h);
    lemma_host_parse(s, lc + 1, h);
}

/// The round trip for a specifier with both a date and a triple.
proof fn lemma_toolchain_rt_date_host(t: Toolchain, d: Date, h: Host)
    requires
        t.wf(),
        t.date == Some(d),
        t.host == Some(h),
    ensures
        Toolchain::spec_from_str(t.spec_render()) == Some(t),
{
    let s = t.spec_render();
    let rc = t.channel.spec_render();
    let lc = rc.len() as int;
    let rd = d.spec_render();
    let rh = h.spec_render();
    let lh = rh.len() as int;
    assert(match_at(s, 0, s));
    assert(rd.len() == 10);
    assert(s =~= rc + seq!['-'] + rd + seq!['-'] + rh);
    assert(s.len() == lc + 1 + 10 + 1 + lh);
    assert(s[lc] == '-');
    assert(!is_digit_char('-') && '-' != '.');
    lemma_match_at_prefix(s, 0, s, rc);
    lemma_channel_parse(s, 0, t.channel);
    assert(forall|k: int| 0 <= k < 10 ==> #[trigger] s[lc + 1 + k] == rd[k]);
    lemma_match_at_shift(s, 0, s, lc + 1, rd);
    crate::date::lemma_date_parse(s, lc + 1, d);
    assert(s[lc + 11] == '-');
    assert(forall|k: int| 0 <= k < lh ==> #[trigger] s[lc + 12 + k] == rh[k]);
    lemma_match_at_shift(s, 0, s, lc + 12, rh);
    lemma_host_parse(s, lc + 12, h);
}

/// A triple's text can never begin a date: a date starts with a digit, a
/// triple with the letter of an architecture.
proof fn lemma_host_not_date(s: Seq<char>, i: int, h: Host)
    requires
        match_at(s, i, h.spec_render()),
    ensures
        Date::spec_parse(s, i) is None,
{
    let r = h.spec_render();
    let ra = h.architecture.spec_render();
    assert(forall|k: int| 0 <= k < ra.len() ==> #[trigger] r[k] == ra[k]);
    lemma_match_at_index(s, i, r, 0);
    match h.architecture {
        Architecture::i686 => {
            assert(s[i] == 'i');
        },
        Architecture::x86_64 => {
            assert(s[i] == 'x');
        },
    }
    assert(!is_digit_char(s[i]));
}

/// No two distinct well-formed specifiers share a canonical text: the
/// grammar is unambiguous.
pub proof fn lemma_toolchain_render_injective(t1: Toolchain, t2: Toolchain)
    requires
        t1.wf(),
        t2.wf(),
        t1.spec_render() == t2.spec_render(),
    ensures
        t1 == t2,
{
    lemma_toolchain_round_trip(t1);
    lemma_toolchain_round_trip(t2);
}

/// Parsing, rendering the result, and parsing again yields the same value
/// as the first parse: the parse of any accepted input is a fixed point.
pub proof fn lemma_toolchain_parse_idempotent(s: Seq<char>)
    ensures
        (Toolchain::spec_from_str(s) matches Some(t) ==> Toolchain::spec_from_str(
            t.spec_render(),
        ) == Some(t)),
{
    match Toolchain::spec_from_str(s) {
        None => {
        },
        Some(t) => {
            lemma_toolchain_parse_wf(s, 0);
            lemma_toolchain_round_trip(t);
        },
    }
}

/// Parsing a keyword channel is exact: the parse of a whole input is a
/// keyword channel precisely when the input is that keyword, so every case
/// variant of a keyword is rejected.
pub proof fn lemma_channel_keyword_exact(s: Seq<char>)
    ensures
        Channel::spec_from_str(s) == Some(Channel::Stable) <==> s == tok_stable(),
        Channel::spec_from_str(s) == Some(Channel::Beta) <==> s == tok_beta(),
        Channel::spec_from_str(s) == Some(Channel::Nightly) <==> s == tok_nightly(),
{
    match Channel::spec_from_str(s) {
        Some(Channel::Stable) => {
            assert(match_at(s, 0, tok_stable()) && s.len() == 6);
            assert(s =~= tok_stable());
        },
        Some(Channel::Beta) => {
            assert(match_at(s, 0, tok_beta()) && s.len() == 4);
            assert(s =~= tok_beta());
        },
        Some(Channel::Nightly) => {
            assert(match_at(s, 0, tok_nightly()) && s.len() == 7);
            assert(s =~= tok_nightly());
        },
        _ => {
        },
    }
    lemma_channel_round_trip(Channel::Stable);
    lemma_channel_round_trip(Channel::Beta);
    lemma_channel_round_trip(Channel::Nightly);
}

/// Parsing, rendering the result, and parsing again yields the same channel
/// as the first parse.
pub proof fn lemma_channel_parse_idempotent(s: Seq<char>)
    ensures
        (Channel::spec_from_str(s) matches Some(c) ==> Channel::spec_from_str(c.spec_render())
            == Some(c)),
{
    match Channel::spec_from_str(s) {
        None => {
        },
        Some(c) => {
            lemma_channel_round_trip(c);
        },
    }
}

/// Parsing, rendering the result, and parsing again yields the same triple
/// as the first parse.
pub proof fn lemma_host_parse_idempotent(s: Seq<char>)
    ensures
        (Host::spec_from_str(s) matches Some(h) ==> Host::spec_from_str(h.spec_render()) == Some(
            h,
        )),
{
    match Host::spec_from_str(s) {
        None => {
        },
        Some(h) => {
            lemma_host_round_trip(h);
        },
    }
}

} // verus!
