//! Typed retrieval of configuration values from an environment-style
//! key/value store.
//!
//! A caller supplies a default value whose type fixes the target type of
//! the result. A raw string, when present, is converted to that type:
//! booleans by a fixed truthy set, integers by decimal numerals, strings
//! by passthrough, and sequences and string-keyed mappings by a small
//! inline literal syntax for arrays (`[1, 2, 3]`) and tables
//! (`{ a = 1, b = 2 }`). An absent value yields the default unchanged; a
//! present but malformed value is an error, never the default.

pub mod literal;
pub mod numeral;
pub mod rawconv;
pub mod scan;
pub mod table;
pub mod text;

use vstd::prelude::*;

verus! {

/// A type a raw environment text can be converted to. The spec members
/// give the value (as its model) that a text denotes, if any, and the one
/// error value a failed conversion carries; the conversion returns exactly
/// the denoted value, and fails with exactly that error when the text
/// denotes none. Conversion is thereby a pure function of the text.
pub trait TryFromEnv: Sized + DeepView {
    type Error;

    /// The model of the value this text denotes for the target type.
    spec fn from_env_spec(s: Seq<char>) -> Option<Self::V>;

    /// The error value every failed conversion carries.
    spec fn env_err() -> Self::Error;

    /// Converts a raw text to the target type.
    fn try_from_env(value: &str) -> (r: Result<Self, Self::Error>)
        ensures
            match r {
                Ok(v) => Self::from_env_spec(value@) == Some(v.deep_view()),
                Err(e) => Self::from_env_spec(value@) is None && e == Self::env_err(),
            },
    ;
}

/// The outward conversion, declared for symmetry with `TryFromEnv`.
pub trait TryIntoEnv<T>: Sized {
    type Error;

    /// Converts this value to the target representation.
    fn try_into_env(&self) -> Result<T, Self::Error>;
}

impl TryFromEnv for String {
    type Error = &'static str;

    open spec fn from_env_spec(s: Seq<char>) -> Option<Seq<char>> {
        Some(s)
    }

    open spec fn env_err() -> &'static str {
        "parse error"
    }

    fn try_from_env(value: &str) -> (r: Result<Self, Self::Error>) {
        Ok(value.to_owned())
    }
}

impl TryFromEnv for bool {
    type Error = &'static str;

    open spec fn from_env_spec(s: Seq<char>) -> Option<bool> {
        Some(rawconv::is_truthy(s))
    }

    open spec fn env_err() -> &'static str {
        "parse error"
    }

    fn try_from_env(value: &str) -> (r: Result<Self, Self::Error>) {
        Ok(rawconv::to_bool(value))
    }
}

impl TryFromEnv for usize {
    type Error = &'static str;

    open spec fn from_env_spec(s: Seq<char>) -> Option<usize> {
        numeral::parse_usize_spec(s)
    }

    open spec fn env_err() -> &'static str {
        "parse error"
    }

    fn try_from_env(value: &str) -> (r: Result<Self, Self::Error>) {
        match numeral::parse_usize(value) {
            Some(v) => Ok(v),
            None => Err("parse error"),
        }
    }
}

impl TryFromEnv for i8 {
    type Error = &'static str;

    open spec fn from_env_spec(s: Seq<char>) -> Option<i8> {
        numeral::parse_i8_spec(s)
    }

    open spec fn env_err() -> &'static str {
        "parse error"
    }

    fn try_from_env(value: &str) -> (r: Result<Self, Self::Error>) {
        match numeral::parse_i8(value) {
            Some(v) => Ok(v),
            None => Err("parse error"),
        }
    }
}

impl TryFromEnv for u8 {
    type Error = &'static str;

    open spec fn from_env_spec(s: Seq<char>) -> Option<u8> {
        numeral::parse_u8_spec(s)
    }

    open spec fn env_err() -> &'static str {
        "parse error"
    }

    fn try_from_env(value: &str) -> (r: Result<Self, Self::Error>) {
        match numeral::parse_u8(value) {
            Some(v) => Ok(v),
            None => Err("parse error"),
        }
    }
}

impl TryFromEnv for i16 {
    type Error = &'static str;

    open spec fn from_env_spec(s: Seq<char>) -> Option<i16> {
        numeral::parse_i16_spec(s)
    }

    open spec fn env_err() -> &'static str {
        "parse error"
    }

    fn try_from_env(value: &str) -> (r: Result<Self, Self::Error>) {
        match numeral::parse_i16(value) {
            Some(v) => Ok(v),
            None => Err("parse error"),
        }
    }
}

impl TryFromEnv for u16 {
    type Error = &'static str;

    open spec fn from_env_spec(s: Seq<char>) -> Option<u16> {
        numeral::parse_u16_spec(s)
    }

    open spec fn env_err() -> &'static str {
        "parse error"
    }

    fn try_from_env(value: &str) -> (r: Result<Self, Self::Error>) {
        match numeral::parse_u16(value) {
            Some(v) => Ok(v),
            None => Err("parse error"),
        }
    }
}

impl TryFromEnv for i32 {
    type Error = &'static str;

    open spec fn from_env_spec(s: Seq<char>) -> Option<i32> {
        numeral::parse_i32_spec(s)
    }

    open spec fn env_err() -> &'static str {
        "parse error"
    }

    fn try_from_env(value: &str) -> (r: Result<Self, Self::Error>) {
        match numeral::parse_i32(value) {
            Some(v) => Ok(v),
            None => Err("parse error"),
        }
    }
}

impl TryFromEnv for i64 {
    type Error = &'static str;

    open spec fn from_env_spec(s: Seq<char>) -> Option<i64> {
        numeral::parse_i64_spec(s)
    }

    open spec fn env_err() -> &'static str {
        "parse error"
    }

    fn try_from_env(value: &str) -> (r: Result<Self, Self::Error>) {
        match numeral::parse_i64(value) {
            Some(v) => Ok(v),
            None => Err("parse error"),
        }
    }
}

impl TryFromEnv for u32 {
    type Error = &'static str;

    open spec fn from_env_spec(s: Seq<char>) -> Option<u32> {
        numeral::parse_u32_spec(s)
    }

    open spec fn env_err() -> &'static str {
        "parse error"
    }

    fn try_from_env(value: &str) -> (r: Result<Self, Self::Error>) {
        match numeral::parse_u32(value) {
            Some(v) => Ok(v),
            None => Err("parse error"),
        }
    }
}

impl TryFromEnv for u64 {
    type Error = &'static str;

    open spec fn from_env_spec(s: Seq<char>) -> Option<u64> {
        numeral::parse_u64_spec(s)
    }

    open spec fn env_err() -> &'static str {
        "parse error"
    }

    fn try_from_env(value: &str) -> (r: Result<Self, Self::Error>) {
        match numeral::parse_u64(value) {
            Some(v) => Ok(v),
            None => Err("parse error"),
        }
    }
}

} // verus!

verus! {

impl<T: TryFromEnv> TryFromEnv for Vec<T> {
    type Error = &'static str;

    open spec fn from_env_spec(s: Seq<char>) -> Option<Seq<T::V>> {
        rawconv::vec_from_env_spec::<T>(s)
    }

    open spec fn env_err() -> &'static str {
        "parse error"
    }

    fn try_from_env(value: &str) -> (r: Result<Self, Self::Error>) {
        rawconv::to_vec(value)
    }
}

impl<T: TryFromEnv> TryFromEnv for table::EnvTable<T> {
    type Error = &'static str;

    open spec fn from_env_spec(s: Seq<char>) -> Option<Map<Seq<char>, T::V>> {
        rawconv::table_from_env_spec::<T>(s)
    }

    open spec fn env_err() -> &'static str {
        "parse error"
    }

    fn try_from_env(value: &str) -> (r: Result<Self, Self::Error>) {
        rawconv::to_table(value)
    }
}

/// What `resolve` promises: an absent raw value yields the default
/// unchanged; a present one yields exactly the value its text denotes, or
/// the type's one conversion error when the text denotes none.
pub open spec fn resolve_post<T: TryFromEnv>(
    raw: Option<Seq<char>>,
    default_value: T,
    r: Result<T, T::Error>,
) -> bool {
    match raw {
        None => r == Ok::<T, T::Error>(default_value),
        Some(s) => match r {
            Ok(v) => T::from_env_spec(s) == Some(v.deep_view()),
            Err(e) => T::from_env_spec(s) is None && e == T::env_err(),
        },
    }
}

/// Resolves a looked-up raw value against a default: the default when the
/// value is absent (an empty string is present, not absent), otherwise
/// the conversion of the raw text, whose failure is propagated and never
/// replaced by the default.
pub fn resolve<T: TryFromEnv>(raw: Option<&str>, default_value: T) -> (r: Result<T, T::Error>)
    ensures
        resolve_post(raw.deep_view(), default_value, r),
{
    match raw {
        Some(v) => T::try_from_env(v),
        None => Ok(default_value),
    }
}

/// Law: resolving an absent value yields the default, unchanged.
pub proof fn lemma_resolve_absent_is_default<T: TryFromEnv>(
    default_value: T,
    r: Result<T, T::Error>,
)
    requires
        resolve_post(None, default_value, r),
    ensures
        r == Ok::<T, T::Error>(default_value),
{
}

/// Law: resolving a present text that denotes a value yields exactly that
/// value — the same value that converting the text directly yields.
pub proof fn lemma_resolve_present_parses<T: TryFromEnv>(
    s: Seq<char>,
    default_value: T,
    r: Result<T, T::Error>,
)
    requires
        resolve_post(Some(s), default_value, r),
        T::from_env_spec(s) is Some,
    ensures
        r matches Ok(v) && Some(v.deep_view()) == T::from_env_spec(s),
{
}

/// Law: resolving a present text that denotes no value is an error; it is
/// never silently replaced by the default or by any other value.
pub proof fn lemma_resolve_present_malformed<T: TryFromEnv>(
    s: Seq<char>,
    default_value: T,
    r: Result<T, T::Error>,
)
    requires
        resolve_post(Some(s), default_value, r),
        T::from_env_spec(s) is None,
    ensures
        r is Err,
{
}

/// Law: resolution of an absent value has no hidden state — any two
/// results for the same default are equal.
pub proof fn lemma_resolve_absent_deterministic<T: TryFromEnv>(
    default_value: T,
    r1: Result<T, T::Error>,
    r2: Result<T, T::Error>,
)
    requires
        resolve_post(None, default_value, r1),
        resolve_post(None, default_value, r2),
    ensures
        r1 == r2,
{
}

/// Law: resolution is a pure function of the raw text and the default —
/// two results for the same inputs agree on the variant, carry equal
/// models when they succeed, and carry equal error values when they fail.
pub proof fn lemma_resolve_deterministic<T: TryFromEnv>(
    raw: Option<Seq<char>>,
    default_value: T,
    r1: Result<T, T::Error>,
    r2: Result<T, T::Error>,
)
    requires
        resolve_post(raw, default_value, r1),
        resolve_post(raw, default_value, r2),
    ensures
        r1 is Ok <==> r2 is Ok,
        r1 matches Ok(v1) ==> (r2 matches Ok(v2) && v1.deep_view() == v2.deep_view()),
        r1 matches Err(e1) ==> (r2 matches Err(e2) && e1 == e2),
{
}

} // verus!
