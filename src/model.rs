//! Identifiers of the trader that owns a bus and of components.
use vstd::prelude::*;

use crate::correctness::{
    check_string_contains, check_valid_string, contains_substring, is_valid_string, CorrectnessError,
};
use crate::identifiers::intern;

verus! {

/// A valid string holding at least one `-`, such as `TRADER-001`.
pub open spec fn is_trader_id(s: Seq<char>) -> bool {
    is_valid_string(s) && exists|k: int| 0 <= k < s.len() && s[k] == '-'
}

/// The position of the last `-` in `s`, or -1.
pub open spec fn last_dash(s: Seq<char>) -> int
    decreases s.len(),
{
    if s.len() == 0 {
        -1
    } else if s.last() == '-' {
        s.len() - 1
    } else {
        last_dash(s.drop_last())
    }
}

proof fn lemma_last_dash(s: Seq<char>)
    ensures
        -1 <= last_dash(s) < s.len(),
        last_dash(s) >= 0 ==> s[last_dash(s)] == '-',
        forall|k: int| last_dash(s) < k < s.len() ==> s[k] != '-',
    decreases s.len(),
{
    if s.len() > 0 && s.last() != '-' {
        let t = s.drop_last();
        lemma_last_dash(t);
        assert forall|k: int| 0 <= k < t.len() implies t[k] == s[k] by {}
    }
}

proof fn lemma_one_char_contains(s: Seq<char>, pat: Seq<char>)
    requires
        pat.len() == 1,
    ensures
        contains_substring(s, pat) <==> exists|k: int| 0 <= k < s.len() && s[k] == pat[0],
{
    if contains_substring(s, pat) {
        let i = choose|i: int| 0 <= i && i + pat.len() <= s.len() && #[trigger] s.subrange(i, i + pat.len()) == pat;
        assert(s.subrange(i, i + 1)[0] == s[i]);
    }
    if exists|k: int| 0 <= k < s.len() && s[k] == pat[0] {
        let k = choose|k: int| 0 <= k < s.len() && s[k] == pat[0];
        assert(s.subrange(k, k + 1) =~= pat);
    }
}

/// The trader that owns a bus.
#[derive(Clone, Copy, Debug, PartialEq, Eq, Hash, PartialOrd, Ord)]
pub struct TraderId {
    pub(crate) value: &'static str,
}

impl View for TraderId {
    type V = Seq<char>;

    open(crate) spec fn view(&self) -> Seq<char> {
        self.value@
    }
}

impl TraderId {
    /// The trader id `value`, if it is a valid string holding a `-`.
    pub fn new_checked(value: &str) -> (r: Result<Self, CorrectnessError>)
        ensures
            r is Ok <==> is_trader_id(value@),
            r is Ok ==> r->Ok_0@ == value@,
    {
        let dash = "-";
        proof {
            reveal_strlit("-");
            lemma_one_char_contains(value@, dash@);
        }
        match check_valid_string(value, "value") {
            Ok(()) => {},
            Err(e) => {
                return Err(e);
            },
        }
        match check_string_contains(value, dash, "value") {
            Ok(()) => Ok(TraderId { value: intern(value) }),
            Err(e) => Err(e),
        }
    }

    /// The trader id `value`, which must be one.
    pub fn new(value: &str) -> (r: Self)
        requires
            is_trader_id(value@),
        ensures
            r@ == value@,
    {
        match Self::new_checked(value) {
            Ok(id) => id,
            Err(_) => {
                proof {
                    assert(false);
                }
                TraderId { value: intern(value) }
            },
        }
    }

    pub fn as_str(&self) -> (r: &'static str)
        ensures
            r@ == self@,
    {
        self.value
    }

    /// What follows the last `-`.
    pub fn get_tag(&self) -> (r: &'static str)
        ensures
            r@ == self@.subrange(last_dash(self@) + 1, self@.len() as int),
    {
        let s = self.value;
        let n = s.unicode_len();
        proof {
            lemma_last_dash(s@);
            assert(self@ == s@);
        }
        let mut i: usize = n;
        while i > 0
            invariant
                n == s@.len(),
                i <= n,
                forall|k: int| i <= k < n ==> s@[k] != '-',
                last_dash(s@) < i,
                self@ == s@,
                -1 <= last_dash(s@) < n,
                last_dash(s@) >= 0 ==> s@[last_dash(s@)] == '-',
                forall|k: int| last_dash(s@) < k < n ==> s@[k] != '-',
            decreases i,
        {
            if s.get_char(i - 1) == '-' {
                proof {
                    assert(last_dash(s@) == i - 1);
                }
                return s.substring_char(i, n);
            }
            i -= 1;
        }
        s.substring_char(0, n)
    }
}

/// A valid-string identifier of a component, such as `RiskEngine`.
#[derive(Clone, Copy, Debug, PartialEq, Eq, Hash, PartialOrd, Ord)]
pub struct ComponentId {
    pub(crate) value: &'static str,
}

impl View for ComponentId {
    type V = Seq<char>;

    open(crate) spec fn view(&self) -> Seq<char> {
        self.value@
    }
}

impl ComponentId {
    /// The component id `value`, if it is a valid string.
    pub fn new_checked(value: &str) -> (r: Result<Self, CorrectnessError>)
        ensures
            r is Ok <==> is_valid_string(value@),
            r is Ok ==> r->Ok_0@ == value@,
    {
        match check_valid_string(value, "value") {
            Ok(()) => Ok(ComponentId { value: intern(value) }),
            Err(e) => Err(e),
        }
    }

    /// The component id `value`, which must be a valid string.
    pub fn new(value: &str) -> (r: Self)
        requires
            is_valid_string(value@),
        ensures
            r@ == value@,
    {
        ComponentId { value: intern(value) }
    }

    pub fn as_str(&self) -> (r: &'static str)
        ensures
            r@ == self@,
    {
        self.value
    }
}

} // verus!
