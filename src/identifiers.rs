//! Interned identifiers of three kinds. A `Topic` or an `Endpoint` is a valid
//! string without wildcard characters; a `Pattern` may be any string. A topic
//! converts into the pattern that matches exactly it.
use core::marker::PhantomData;
use vstd::prelude::*;
use vstd::string::StringSliceAdditionalSpecFns;

use crate::correctness::{
    check_predicate_true, check_valid_string, is_valid_string, CheckFailure, CorrectnessError,
};
use crate::matching::{is_literal, is_matching, wildcard_match, WILDCARD_MANY, WILDCARD_ONE};

verus! {

/// The kinds of identifier, and which of them must be fully qualified.
pub trait IdentifierKind {
    spec fn must_be_fully_qualified() -> bool;
}

/// Marker for identifiers that may hold wildcards.
#[derive(Copy, Clone, Debug, PartialEq, Eq, Hash)]
pub struct Pattern;

/// Marker for fully qualified identifiers that messages are published under.
#[derive(Copy, Clone, Debug, PartialEq, Eq, Hash)]
pub struct Topic;

/// Marker for fully qualified identifiers of addressed handlers.
#[derive(Copy, Clone, Debug, PartialEq, Eq, Hash)]
pub struct Endpoint;

impl IdentifierKind for Pattern {
    open spec fn must_be_fully_qualified() -> bool {
        false
    }
}

impl IdentifierKind for Topic {
    open spec fn must_be_fully_qualified() -> bool {
        true
    }
}

impl IdentifierKind for Endpoint {
    open spec fn must_be_fully_qualified() -> bool {
        true
    }
}

/// An interned string tagged with its kind. Its view is the string's UTF-8
/// bytes. A topic or an endpoint is always fully qualified.
#[derive(Debug, PartialEq, Eq, Hash)]
pub struct MStr<T: IdentifierKind> {
    value: &'static str,
    _marker: PhantomData<T>,
}

impl<T: IdentifierKind> MStr<T> {
    #[verifier::type_invariant]
    spec fn kind_respected(self) -> bool {
        T::must_be_fully_qualified() ==> is_fully_qualified(self.value@)
    }
}

impl<T: IdentifierKind> View for MStr<T> {
    type V = Seq<u8>;

    closed spec fn view(&self) -> Seq<u8> {
        self.value.spec_bytes()
    }
}

impl<T: IdentifierKind> Clone for MStr<T> {
    fn clone(&self) -> (r: Self)
        ensures
            r == *self,
    {
        *self
    }
}

impl<T: IdentifierKind> Copy for MStr<T> {

}

impl<T: IdentifierKind> MStr<T> {
    /// The characters of the identifier.
    pub closed spec fn chars(&self) -> Seq<char> {
        self.value@
    }

    /// The text; a topic or an endpoint is fully qualified.
    pub fn as_str(&self) -> (r: &'static str)
        ensures
            r@ == self.chars(),
            r.spec_bytes() == self@,
            T::must_be_fully_qualified() ==> is_fully_qualified(self.chars()) && is_literal(self@),
    {
        proof {
            use_type_invariant(self);
            if T::must_be_fully_qualified() {
                lemma_fully_qualified_is_literal(self.value);
            }
        }
        self.value
    }

    /// The bytes; those of a topic or an endpoint hold no wildcard.
    pub fn as_bytes(&self) -> (r: &'static [u8])
        ensures
            r@ == self@,
            T::must_be_fully_qualified() ==> is_fully_qualified(self.chars()) && is_literal(self@),
    {
        proof {
            use_type_invariant(self);
            if T::must_be_fully_qualified() {
                lemma_fully_qualified_is_literal(self.value);
            }
        }
        self.value.as_bytes()
    }
}

/// Relies on `ustr::Ustr::from` and `Ustr::as_str`: the text is stored once in
/// ustr's process-wide cache and handed back, unchanged, with a static lifetime.
#[verifier::external_body]
pub(crate) fn intern(s: &str) -> (r: &'static str)
    ensures
        r@ == s@,
{
    ustr::Ustr::from(s).as_str()
}

pub open spec fn is_wildcard_char(c: char) -> bool {
    c == '*' || c == '?'
}

pub open spec fn has_wildcard(s: Seq<char>) -> bool {
    exists|k: int| 0 <= k < s.len() && is_wildcard_char(#[trigger] s[k])
}

/// What a topic or an endpoint may be: a valid string without wildcards.
pub open spec fn is_fully_qualified(s: Seq<char>) -> bool {
    is_valid_string(s) && !has_wildcard(s)
}

/// Scans the characters of `value` for a wildcard.
fn contains_wildcard(value: &str) -> (r: bool)
    ensures
        r == has_wildcard(value@),
{
    let n = value.unicode_len();
    let mut i: usize = 0;
    while i < n
        invariant
            n == value@.len(),
            i <= n,
            forall|k: int| 0 <= k < i ==> !is_wildcard_char(#[trigger] value@[k]),
        decreases n - i,
    {
        let c = value.get_char(i);
        if c == '*' || c == '?' {
            return true;
        }
        i += 1;
    }
    false
}

/// The checks shared by topics and endpoints.
fn check_fully_qualified(value: &str, kind_name: &str) -> (r: Result<(), CorrectnessError>)
    ensures
        r is Ok <==> is_fully_qualified(value@),
        r is Err && is_valid_string(value@) ==> r->Err_0.kind == CheckFailure::WildcardInIdentifier,
        r is Err && !is_valid_string(value@) ==> r->Err_0.kind != CheckFailure::WildcardInIdentifier,
{
    match check_valid_string(value, "value") {
        Ok(()) => {},
        Err(e) => {
            return Err(e);
        },
    }
    let wild = contains_wildcard(value);
    match check_predicate_true(!wild, kind_name) {
        Ok(()) => Ok(()),
        Err(e) => Err(CorrectnessError { kind: CheckFailure::WildcardInIdentifier, param: e.param, detail: e.detail }),
    }
}

/// The bytes of an identifier without wildcard characters hold no wildcard byte.
proof fn lemma_fully_qualified_is_literal(s: &str)
    requires
        is_fully_qualified(s@),
    ensures
        is_literal(s.spec_bytes()),
{
    vstd::string::is_ascii_spec_bytes(s);
    assert forall|k: int| 0 <= k < s.spec_bytes().len() implies s.spec_bytes()[k] != WILDCARD_MANY
        && s.spec_bytes()[k] != WILDCARD_ONE by {
        assert('\0' <= s@[k] <= '\u{7f}');
        assert(!is_wildcard_char(s@[k]));
    }
}

impl MStr<Pattern> {
    /// Interns `value` as a pattern; any string is a pattern.
    pub fn pattern(value: &str) -> (r: Self)
        ensures
            r.chars() == value@,
            r@ == value.spec_bytes(),
    {
        MStr { value: intern(value), _marker: PhantomData }
    }
}

impl MStr<Topic> {
    /// Interns `value` as a topic, if it is fully qualified.
    pub fn topic(value: &str) -> (r: Result<Self, CorrectnessError>)
        ensures
            r is Ok <==> is_fully_qualified(value@),
            r is Ok ==> r->Ok_0.chars() == value@ && r->Ok_0@ == value.spec_bytes() && is_literal(
                r->Ok_0@,
            ),
            r is Err && is_valid_string(value@) ==> r->Err_0.kind == CheckFailure::WildcardInIdentifier,
    {
        match check_fully_qualified(value, "Topic") {
            Ok(()) => {
                let interned = intern(value);
                proof {
                    lemma_fully_qualified_is_literal(value);
                }
                Ok(MStr { value: interned, _marker: PhantomData })
            },
            Err(e) => Err(e),
        }
    }
}

impl MStr<Endpoint> {
    /// Interns `value` as an endpoint, if it is fully qualified.
    pub fn endpoint(value: &str) -> (r: Result<Self, CorrectnessError>)
        ensures
            r is Ok <==> is_fully_qualified(value@),
            r is Ok ==> r->Ok_0.chars() == value@ && r->Ok_0@ == value.spec_bytes(),
            r is Err && is_valid_string(value@) ==> r->Err_0.kind == CheckFailure::WildcardInIdentifier,
    {
        match check_fully_qualified(value, "Endpoint") {
            Ok(()) => Ok(MStr { value: intern(value), _marker: PhantomData }),
            Err(e) => Err(e),
        }
    }
}

impl From<MStr<Topic>> for MStr<Pattern> {
    /// The pattern that matches exactly this topic.
    fn from(topic: MStr<Topic>) -> (r: MStr<Pattern>)
        ensures
            r@ == topic@,
            r.chars() == topic.chars(),
    {
        MStr { value: topic.value, _marker: PhantomData }
    }
}

impl vstd::std_specs::convert::FromSpecImpl<MStr<Topic>> for MStr<Pattern> {
    open spec fn obeys_from_spec() -> bool {
        true
    }

    closed spec fn from_spec(topic: MStr<Topic>) -> MStr<Pattern> {
        MStr { value: topic.value, _marker: PhantomData }
    }
}

/// Whether `pattern` matches `topic`.
pub fn is_matching_backtracking(topic: MStr<Topic>, pattern: MStr<Pattern>) -> (r: bool)
    ensures
        r == wildcard_match(topic@, pattern@),
{
    is_matching(topic.as_bytes(), pattern.as_bytes())
}

} // verus!
