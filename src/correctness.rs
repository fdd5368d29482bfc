//! Checks on arguments that fail with a `CorrectnessError` naming the
//! offending parameter.
use vstd::prelude::*;
use vstd::std_specs::cmp::PartialEqSpec;

use crate::collections::{MapLike, SetLike};
use vstd::string::StringSliceAdditionalSpecFns;
use vstd::utf8::is_ascii_chars;

verus! {

/// Which condition a check found violated.
#[derive(Clone, Copy, Debug, PartialEq, Eq, Structural)]
pub enum CheckFailure {
    Predicate,
    EmptyString,
    NonAsciiString,
    WhitespaceString,
    MissingSubstring,
    WildcardInIdentifier,
    NotEqual,
    NotPositive,
    OutOfRange,
    NotEmpty,
    Empty,
    KeyPresent,
    KeyAbsent,
    MemberPresent,
    MemberAbsent,
}

/// A failed check: what failed, the parameter (or message) it concerns, and
/// a second name where the check relates two things (empty otherwise).
#[derive(Clone, Debug)]
pub struct CorrectnessError {
    pub kind: CheckFailure,
    pub param: String,
    pub detail: String,
}

/// `r` is an error of the given kind about `param` (and `detail`).
pub open spec fn fails_with(
    r: Result<(), CorrectnessError>,
    kind: CheckFailure,
    param: Seq<char>,
    detail: Seq<char>,
) -> bool {
    &&& r is Err
    &&& r->Err_0.kind == kind
    &&& r->Err_0.param@ == param
    &&& r->Err_0.detail@ == detail
}

fn failure(kind: CheckFailure, param: &str) -> (r: Result<(), CorrectnessError>)
    ensures
        fails_with(r, kind, param@, Seq::empty()),
{
    Err(CorrectnessError { kind, param: param.to_owned(), detail: String::new() })
}

fn failure_of_pair(kind: CheckFailure, param: &str, detail: &str) -> (r: Result<(), CorrectnessError>)
    ensures
        fails_with(r, kind, param@, detail@),
{
    Err(CorrectnessError { kind, param: param.to_owned(), detail: detail.to_owned() })
}

/// ASCII whitespace as `char::is_whitespace` sees it: tab, line feed,
/// vertical tab, form feed, carriage return and space.
pub open spec fn is_whitespace_char(c: char) -> bool {
    c == ' ' || ('\t' <= c && c <= '\r')
}

pub open spec fn is_all_whitespace(s: Seq<char>) -> bool {
    forall|k: int| 0 <= k < s.len() ==> is_whitespace_char(#[trigger] s[k])
}

/// Non-empty, ASCII only, and not whitespace only.
pub open spec fn is_valid_string(s: Seq<char>) -> bool {
    s.len() > 0 && is_ascii_chars(s) && !is_all_whitespace(s)
}

/// Fails with `fail_msg` unless `predicate` holds.
pub fn check_predicate_true(predicate: bool, fail_msg: &str) -> (r: Result<(), CorrectnessError>)
    ensures
        predicate ==> r is Ok,
        !predicate ==> fails_with(r, CheckFailure::Predicate, fail_msg@, Seq::empty()),
{
    if !predicate {
        return failure(CheckFailure::Predicate, fail_msg);
    }
    Ok(())
}

/// Fails with `fail_msg` if `predicate` holds.
pub fn check_predicate_false(predicate: bool, fail_msg: &str) -> (r: Result<(), CorrectnessError>)
    ensures
        !predicate ==> r is Ok,
        predicate ==> fails_with(r, CheckFailure::Predicate, fail_msg@, Seq::empty()),
{
    if predicate {
        return failure(CheckFailure::Predicate, fail_msg);
    }
    Ok(())
}

pub fn check_nonempty_string(s: &str, param: &str) -> (r: Result<(), CorrectnessError>)
    ensures
        s@.len() > 0 ==> r is Ok,
        s@.len() == 0 ==> fails_with(r, CheckFailure::EmptyString, param@, Seq::empty()),
{
    if s.is_empty() {
        return failure(CheckFailure::EmptyString, param);
    }
    Ok(())
}

/// Accepts exactly the strings of `is_valid_string`; otherwise reports the
/// first of: empty, non-ASCII, whitespace only.
pub fn check_valid_string(s: &str, param: &str) -> (r: Result<(), CorrectnessError>)
    ensures
        is_valid_string(s@) ==> r is Ok,
        s@.len() == 0 ==> fails_with(r, CheckFailure::EmptyString, param@, Seq::empty()),
        s@.len() > 0 && !is_ascii_chars(s@) ==> fails_with(
            r,
            CheckFailure::NonAsciiString,
            param@,
            Seq::empty(),
        ),
        s@.len() > 0 && is_ascii_chars(s@) && is_all_whitespace(s@) ==> fails_with(
            r,
            CheckFailure::WhitespaceString,
            param@,
            Seq::empty(),
        ),
{
    if s.is_empty() {
        return failure(CheckFailure::EmptyString, param);
    }
    if !s.is_ascii() {
        return failure(CheckFailure::NonAsciiString, param);
    }
    let bytes = s.as_bytes();
    proof {
        vstd::string::is_ascii_spec_bytes(s);
    }
    let mut has_non_whitespace = false;
    let mut i: usize = 0;
    while i < bytes.len()
        invariant
            is_ascii_chars(s@),
            bytes@ == s.spec_bytes(),
            bytes@.len() == s@.len(),
            forall|k: int| 0 <= k < s@.len() ==> bytes@[k] == s@[k] as u8,
            i <= bytes@.len(),
            has_non_whitespace <==> exists|k: int| 0 <= k < i && !is_whitespace_char(#[trigger] s@[k]),
        decreases bytes@.len() - i,
    {
        let b = bytes[i];
        proof {
            assert('\0' <= s@[i as int] <= '\u{7f}');
            assert(b == s@[i as int] as u8);
        }
        if !(b == 32 || (9 <= b && b <= 13)) {
            has_non_whitespace = true;
        }
        i += 1;
    }
    if !has_non_whitespace {
        return failure(CheckFailure::WhitespaceString, param);
    }
    Ok(())
}

/// `check_valid_string` on the value, if there is one.
pub fn check_valid_string_optional(s: Option<&str>, param: &str) -> (r: Result<(), CorrectnessError>)
    ensures
        s is None ==> r is Ok,
        s is Some ==> {
            let v = s->Some_0@;
            &&& is_valid_string(v) ==> r is Ok
            &&& v.len() == 0 ==> fails_with(r, CheckFailure::EmptyString, param@, Seq::empty())
            &&& v.len() > 0 && !is_ascii_chars(v) ==> fails_with(
                r,
                CheckFailure::NonAsciiString,
                param@,
                Seq::empty(),
            )
            &&& v.len() > 0 && is_ascii_chars(v) && is_all_whitespace(v) ==> fails_with(
                r,
                CheckFailure::WhitespaceString,
                param@,
                Seq::empty(),
            )
        },
{
    match s {
        Some(v) => check_valid_string(v, param),
        None => Ok(()),
    }
}

/// `pat` occurs in `s` as a contiguous run of characters.
pub open spec fn contains_substring(s: Seq<char>, pat: Seq<char>) -> bool {
    exists|i: int| 0 <= i && i + pat.len() <= s.len() && #[trigger] s.subrange(i, i + pat.len()) == pat
}

/// Relies on `str::contains` with a `&str` pattern: true exactly when `pat`
/// occurs in `s` as a contiguous run of characters.
#[verifier::external_body]
fn str_contains(s: &str, pat: &str) -> (r: bool)
    ensures
        r == contains_substring(s@, pat@),
{
    s.contains(pat)
}

pub fn check_string_contains(s: &str, pat: &str, param: &str) -> (r: Result<(), CorrectnessError>)
    ensures
        contains_substring(s@, pat@) ==> r is Ok,
        !contains_substring(s@, pat@) ==> fails_with(r, CheckFailure::MissingSubstring, param@, pat@),
{
    if !str_contains(s, pat) {
        return failure_of_pair(CheckFailure::MissingSubstring, param, pat);
    }
    Ok(())
}

/// Fails unless `lhs == rhs`, for types whose `==` follows its specification.
pub fn check_equal<T: PartialEq>(lhs: &T, rhs: &T, lhs_param: &str, rhs_param: &str) -> (r: Result<
    (),
    CorrectnessError,
>)
    ensures
        T::obeys_eq_spec() ==> (lhs.eq_spec(rhs) ==> r is Ok),
        T::obeys_eq_spec() ==> (!lhs.eq_spec(rhs) ==> fails_with(
            r,
            CheckFailure::NotEqual,
            lhs_param@,
            rhs_param@,
        )),
{
    if !lhs.eq(rhs) {
        return failure_of_pair(CheckFailure::NotEqual, lhs_param, rhs_param);
    }
    Ok(())
}

pub fn check_equal_u8(lhs: u8, rhs: u8, lhs_param: &str, rhs_param: &str) -> (r: Result<(), CorrectnessError>)
    ensures
        lhs == rhs ==> r is Ok,
        lhs != rhs ==> fails_with(r, CheckFailure::NotEqual, lhs_param@, rhs_param@),
{
    if lhs != rhs {
        return failure_of_pair(CheckFailure::NotEqual, lhs_param, rhs_param);
    }
    Ok(())
}

pub fn check_equal_usize(lhs: usize, rhs: usize, lhs_param: &str, rhs_param: &str) -> (r: Result<
    (),
    CorrectnessError,
>)
    ensures
        lhs == rhs ==> r is Ok,
        lhs != rhs ==> fails_with(r, CheckFailure::NotEqual, lhs_param@, rhs_param@),
{
    if lhs != rhs {
        return failure_of_pair(CheckFailure::NotEqual, lhs_param, rhs_param);
    }
    Ok(())
}

pub fn check_positive_u64(value: u64, param: &str) -> (r: Result<(), CorrectnessError>)
    ensures
        value > 0 ==> r is Ok,
        value == 0 ==> fails_with(r, CheckFailure::NotPositive, param@, Seq::empty()),
{
    if value == 0 {
        return failure(CheckFailure::NotPositive, param);
    }
    Ok(())
}

pub fn check_positive_u128(value: u128, param: &str) -> (r: Result<(), CorrectnessError>)
    ensures
        value > 0 ==> r is Ok,
        value == 0 ==> fails_with(r, CheckFailure::NotPositive, param@, Seq::empty()),
{
    if value == 0 {
        return failure(CheckFailure::NotPositive, param);
    }
    Ok(())
}

pub fn check_positive_i64(value: i64, param: &str) -> (r: Result<(), CorrectnessError>)
    ensures
        value > 0 ==> r is Ok,
        value <= 0 ==> fails_with(r, CheckFailure::NotPositive, param@, Seq::empty()),
{
    if value <= 0 {
        return failure(CheckFailure::NotPositive, param);
    }
    Ok(())
}

pub fn check_positive_i128(value: i128, param: &str) -> (r: Result<(), CorrectnessError>)
    ensures
        value > 0 ==> r is Ok,
        value <= 0 ==> fails_with(r, CheckFailure::NotPositive, param@, Seq::empty()),
{
    if value <= 0 {
        return failure(CheckFailure::NotPositive, param);
    }
    Ok(())
}

/// Fails unless `l <= value <= r`.
pub fn check_in_range_inclusive_u8(value: u8, l: u8, r: u8, param: &str) -> (res: Result<
    (),
    CorrectnessError,
>)
    ensures
        l <= value <= r ==> res is Ok,
        !(l <= value <= r) ==> fails_with(res, CheckFailure::OutOfRange, param@, Seq::empty()),
{
    if value < l || value > r {
        return failure(CheckFailure::OutOfRange, param);
    }
    Ok(())
}

/// Fails unless `l <= value <= r`.
pub fn check_in_range_inclusive_u64(value: u64, l: u64, r: u64, param: &str) -> (res: Result<
    (),
    CorrectnessError,
>)
    ensures
        l <= value <= r ==> res is Ok,
        !(l <= value <= r) ==> fails_with(res, CheckFailure::OutOfRange, param@, Seq::empty()),
{
    if value < l || value > r {
        return failure(CheckFailure::OutOfRange, param);
    }
    Ok(())
}

/// Fails unless `l <= value <= r`.
pub fn check_in_range_inclusive_i64(value: i64, l: i64, r: i64, param: &str) -> (res: Result<
    (),
    CorrectnessError,
>)
    ensures
        l <= value <= r ==> res is Ok,
        !(l <= value <= r) ==> fails_with(res, CheckFailure::OutOfRange, param@, Seq::empty()),
{
    if value < l || value > r {
        return failure(CheckFailure::OutOfRange, param);
    }
    Ok(())
}

/// Fails unless `l <= value <= r`.
pub fn check_in_range_inclusive_usize(value: usize, l: usize, r: usize, param: &str) -> (res: Result<
    (),
    CorrectnessError,
>)
    ensures
        l <= value <= r ==> res is Ok,
        !(l <= value <= r) ==> fails_with(res, CheckFailure::OutOfRange, param@, Seq::empty()),
{
    if value < l || value > r {
        return failure(CheckFailure::OutOfRange, param);
    }
    Ok(())
}

pub fn check_slice_empty<T>(slice: &[T], param: &str) -> (r: Result<(), CorrectnessError>)
    ensures
        slice@.len() == 0 ==> r is Ok,
        slice@.len() > 0 ==> fails_with(r, CheckFailure::NotEmpty, param@, Seq::empty()),
{
    if slice.len() != 0 {
        return failure(CheckFailure::NotEmpty, param);
    }
    Ok(())
}

pub fn check_slice_not_empty<T>(slice: &[T], param: &str) -> (r: Result<(), CorrectnessError>)
    ensures
        slice@.len() > 0 ==> r is Ok,
        slice@.len() == 0 ==> fails_with(r, CheckFailure::Empty, param@, Seq::empty()),
{
    if slice.len() == 0 {
        return failure(CheckFailure::Empty, param);
    }
    Ok(())
}

pub fn check_map_empty<M: MapLike>(map: &M, param: &str) -> (r: Result<(), CorrectnessError>)
    ensures
        map.spec_is_empty() ==> r is Ok,
        !map.spec_is_empty() ==> fails_with(r, CheckFailure::NotEmpty, param@, Seq::empty()),
{
    if !map.is_empty() {
        return failure(CheckFailure::NotEmpty, param);
    }
    Ok(())
}

pub fn check_map_not_empty<M: MapLike>(map: &M, param: &str) -> (r: Result<(), CorrectnessError>)
    ensures
        !map.spec_is_empty() ==> r is Ok,
        map.spec_is_empty() ==> fails_with(r, CheckFailure::Empty, param@, Seq::empty()),
{
    if map.is_empty() {
        return failure(CheckFailure::Empty, param);
    }
    Ok(())
}

/// Fails if `key` is in `map`, for maps that follow their model.
pub fn check_key_not_in_map<M: MapLike>(key: &M::Key, map: &M, key_name: &str, map_name: &str) -> (r: Result<
    (),
    CorrectnessError,
>)
    ensures
        map.obeys_map_model() ==> (!map.spec_contains_key(*key) ==> r is Ok),
        map.obeys_map_model() ==> (map.spec_contains_key(*key) ==> fails_with(
            r,
            CheckFailure::KeyPresent,
            key_name@,
            map_name@,
        )),
{
    if map.contains_key(key) {
        return failure_of_pair(CheckFailure::KeyPresent, key_name, map_name);
    }
    Ok(())
}

/// Fails unless `key` is in `map`, for maps that follow their model.
pub fn check_key_in_map<M: MapLike>(key: &M::Key, map: &M, key_name: &str, map_name: &str) -> (r: Result<
    (),
    CorrectnessError,
>)
    ensures
        map.obeys_map_model() ==> (map.spec_contains_key(*key) ==> r is Ok),
        map.obeys_map_model() ==> (!map.spec_contains_key(*key) ==> fails_with(
            r,
            CheckFailure::KeyAbsent,
            key_name@,
            map_name@,
        )),
{
    if !map.contains_key(key) {
        return failure_of_pair(CheckFailure::KeyAbsent, key_name, map_name);
    }
    Ok(())
}

/// Fails if `member` is in `set`, for sets that follow their model.
pub fn check_member_not_in_set<S: SetLike>(member: &S::Item, set: &S, member_name: &str, set_name: &str) -> (r:
    Result<(), CorrectnessError>)
    ensures
        set.obeys_set_model() ==> (!set.spec_contains(*member) ==> r is Ok),
        set.obeys_set_model() ==> (set.spec_contains(*member) ==> fails_with(
            r,
            CheckFailure::MemberPresent,
            member_name@,
            set_name@,
        )),
{
    if set.contains(member) {
        return failure_of_pair(CheckFailure::MemberPresent, member_name, set_name);
    }
    Ok(())
}

/// Fails unless `member` is in `set`, for sets that follow their model.
pub fn check_member_in_set<S: SetLike>(member: &S::Item, set: &S, member_name: &str, set_name: &str) -> (r:
    Result<(), CorrectnessError>)
    ensures
        set.obeys_set_model() ==> (set.spec_contains(*member) ==> r is Ok),
        set.obeys_set_model() ==> (!set.spec_contains(*member) ==> fails_with(
            r,
            CheckFailure::MemberAbsent,
            member_name@,
            set_name@,
        )),
{
    if !set.contains(member) {
        return failure_of_pair(CheckFailure::MemberAbsent, member_name, set_name);
    }
    Ok(())
}

} // verus!
