//! The case-style enumeration and the resolver that maps a textual token to
//! one of its variants.

use crate::chars::{char_to_lower, lowered};
use vstd::prelude::*;
use vstd::string::{StrSliceExecFns, StringExecFns};

verus! {

/// The five supported case styles.
#[derive(Clone, Copy, Debug, PartialEq, Eq, Structural)]
pub enum CaseType {
    Pascal,
    Camel,
    Snake,
    ScreamingSnake,
    Kebab,
}

/// The style named by a token, compared case-insensitively: each style is
/// reached by its full name or its one- or two-letter abbreviation, and any
/// other token names no style at all.
pub open spec fn parse_style(s: Seq<char>) -> Option<CaseType> {
    let l = lowered(s);
    if l == "p"@ || l == "pascal"@ {
        Some(CaseType::Pascal)
    } else if l == "c"@ || l == "camel"@ {
        Some(CaseType::Camel)
    } else if l == "s"@ || l == "snake"@ {
        Some(CaseType::Snake)
    } else if l == "ss"@ || l == "screaming-snake"@ {
        Some(CaseType::ScreamingSnake)
    } else if l == "k"@ || l == "kebab"@ {
        Some(CaseType::Kebab)
    } else {
        None
    }
}

/// Whether the already lower-cased token equals the given name.
fn token_is(low: &Vec<char>, tok: &str) -> (b: bool)
    ensures
        b == (low@ == tok@),
{
    let n = tok.unicode_len();
    if low.len() != n {
        proof {
            assert(low@ != tok@);
        }
        return false;
    }
    let mut i: usize = 0;
    while i < n
        invariant
            i <= n,
            n == tok@.len(),
            n == low@.len(),
            forall|k: int| 0 <= k < i ==> low@[k] == tok@[k],
        decreases n - i,
    {
        if low[i] != tok.get_char(i) {
            proof {
                assert(low@ != tok@);
            }
            return false;
        }
        i += 1;
    }
    proof {
        assert(low@ =~= tok@);
    }
    true
}

impl CaseType {
    /// Resolves a case-style token. Succeeds exactly on the recognized
    /// tokens, case-insensitively; any other token is rejected with a
    /// message that carries the offending token.
    pub fn from_str(s: &str) -> (r: Result<CaseType, String>)
        ensures
            r is Ok <==> parse_style(s@) is Some,
            r is Ok ==> r->Ok_0 == parse_style(s@)->0,
            r is Err ==> r->Err_0@ == "Unknown case type: "@ + s@,
    {
        let n = s.unicode_len();
        let mut low: Vec<char> = Vec::new();
        let mut i: usize = 0;
        while i < n
            invariant
                i <= n,
                n == s@.len(),
                low@ == lowered(s@).take(i as int),
            decreases n - i,
        {
            low.push(char_to_lower(s.get_char(i)));
            i += 1;
            proof {
                assert(low@ =~= lowered(s@).take(i as int));
            }
        }
        proof {
            assert(low@ =~= lowered(s@));
        }
        if token_is(&low, "p") || token_is(&low, "pascal") {
            Ok(CaseType::Pascal)
        } else if token_is(&low, "c") || token_is(&low, "camel") {
            Ok(CaseType::Camel)
        } else if token_is(&low, "s") || token_is(&low, "snake") {
            Ok(CaseType::Snake)
        } else if token_is(&low, "ss") || token_is(&low, "screaming-snake") {
            Ok(CaseType::ScreamingSnake)
        } else if token_is(&low, "k") || token_is(&low, "kebab") {
            Ok(CaseType::Kebab)
        } else {
            let mut msg = "Unknown case type: ".to_owned();
            msg.append(s);
            Err(msg)
        }
    }
}

} // verus!
