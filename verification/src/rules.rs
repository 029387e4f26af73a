//! The text rules shared by every validated input.

use vstd::prelude::*;
use vstd::string::StringExecFns;
use crate::error::{AppError, ErrorCode, ErrorV, err};
use crate::text::{trim, trimmed};

verus! {

/// Decimal text of a natural number.
pub open spec fn decimal_text(n: nat) -> Seq<char>
    decreases n,
{
    if n < 10 {
        seq![(48 + n) as char]
    } else {
        decimal_text(n / 10) + seq![(48 + (n % 10)) as char]
    }
}

/// `usize`'s `Display`: its decimal digits.
#[verifier::external_body]
pub(crate) fn usize_to_string(n: usize) -> (text: String)
    ensures
        text@ == decimal_text(n as nat),
{
    n.to_string()
}

/// Decimal text of an integer, with a leading `-` when negative.
pub open spec fn int_text(i: int) -> Seq<char> {
    if i < 0 {
        "-"@ + decimal_text((-i) as nat)
    } else {
        decimal_text(i as nat)
    }
}

/// `i64`'s `Display`: an optional `-` and the decimal digits.
#[verifier::external_body]
pub(crate) fn i64_to_string(i: i64) -> (text: String)
    ensures
        text@ == int_text(i as int),
{
    i.to_string()
}

pub open spec fn invalid(message: Seq<char>) -> ErrorV {
    err(ErrorCode::InvalidRequest, message)
}

pub open spec fn empty_message(field: Seq<char>) -> Seq<char> {
    field + " must not be empty"@
}

pub open spec fn too_long_message(field: Seq<char>, max: nat) -> Seq<char> {
    field + " must be at most "@ + decimal_text(max) + " characters"@
}

/// A required text: trimmed, not empty and at most `max` characters.
pub open spec fn text_rule(field: Seq<char>, value: Seq<char>, max: nat) -> Result<Seq<char>, ErrorV> {
    let t = trimmed(value);
    if t.len() == 0 {
        Err(invalid(empty_message(field)))
    } else if t.len() > max {
        Err(invalid(too_long_message(field, max)))
    } else {
        Ok(t)
    }
}

/// An optional text: trimmed and at most `max` characters; empty is allowed.
pub open spec fn optional_text_rule(field: Seq<char>, value: Seq<char>, max: nat) -> Result<Seq<char>, ErrorV> {
    let t = trimmed(value);
    if t.len() > max {
        Err(invalid(too_long_message(field, max)))
    } else {
        Ok(t)
    }
}

/// `text_rule` on an optional value.
pub open spec fn maybe_text_rule(field: Seq<char>, value: Option<Seq<char>>, max: nat) -> Result<Option<Seq<char>>, ErrorV> {
    match value {
        None => Ok(None),
        Some(v) => match text_rule(field, v, max) {
            Ok(t) => Ok(Some(t)),
            Err(e) => Err(e),
        },
    }
}

/// `text_rule` on every entry, in order; the first rejected entry decides.
pub open spec fn texts_rule(field: Seq<char>, values: Seq<Seq<char>>, max: nat) -> Result<Seq<Seq<char>>, ErrorV>
    decreases values.len(),
{
    if values.len() == 0 {
        Ok(Seq::empty())
    } else {
        match texts_rule(field, values.drop_last(), max) {
            Err(e) => Err(e),
            Ok(prefix) => match text_rule(field, values.last(), max) {
                Err(e) => Err(e),
                Ok(t) => Ok(prefix.push(t)),
            },
        }
    }
}

/// Once a prefix is rejected, the whole sequence is rejected the same way.
pub proof fn lemma_texts_rule_err_extends(field: Seq<char>, vs: Seq<Seq<char>>, k: int, max: nat)
    requires
        0 <= k <= vs.len(),
        texts_rule(field, vs.take(k), max) is Err,
    ensures
        texts_rule(field, vs, max) == texts_rule(field, vs.take(k), max),
    decreases vs.len() - k,
{
    if k == vs.len() {
        assert(vs.take(k) =~= vs);
    } else {
        assert(vs.take(k + 1).drop_last() =~= vs.take(k));
        lemma_texts_rule_err_extends(field, vs, k + 1, max);
    }
}

/// `f` applied to every item in order; the first rejected item decides.
pub open spec fn map_rule<A, B>(items: Seq<A>, f: spec_fn(A) -> Result<B, ErrorV>) -> Result<Seq<B>, ErrorV>
    decreases items.len(),
{
    if items.len() == 0 {
        Ok(Seq::empty())
    } else {
        match map_rule(items.drop_last(), f) {
            Err(e) => Err(e),
            Ok(prefix) => match f(items.last()) {
                Err(e) => Err(e),
                Ok(b) => Ok(prefix.push(b)),
            },
        }
    }
}

/// Once a prefix is rejected, the whole sequence is rejected the same way.
pub proof fn lemma_map_rule_err_extends<A, B>(items: Seq<A>, f: spec_fn(A) -> Result<B, ErrorV>, k: int)
    requires
        0 <= k <= items.len(),
        map_rule(items.take(k), f) is Err,
    ensures
        map_rule(items, f) == map_rule(items.take(k), f),
    decreases items.len() - k,
{
    if k == items.len() {
        assert(items.take(k) =~= items);
    } else {
        assert(items.take(k + 1).drop_last() =~= items.take(k));
        lemma_map_rule_err_extends(items, f, k + 1);
    }
}

pub open spec fn text_result(r: Result<String, AppError>) -> Result<Seq<char>, ErrorV> {
    match r {
        Ok(s) => Ok(s@),
        Err(e) => Err(e@),
    }
}

pub open spec fn unit_result(r: Result<(), AppError>) -> Result<(), ErrorV> {
    match r {
        Ok(()) => Ok(()),
        Err(e) => Err(e@),
    }
}

pub open spec fn maybe_text_result(r: Result<Option<String>, AppError>) -> Result<Option<Seq<char>>, ErrorV> {
    match r {
        Ok(Some(s)) => Ok(Some(s@)),
        Ok(None) => Ok(None),
        Err(e) => Err(e@),
    }
}

pub open spec fn strs(v: Seq<String>) -> Seq<Seq<char>> {
    v.map_values(|s: String| s@)
}

pub open spec fn texts_result(r: Result<Vec<String>, AppError>) -> Result<Seq<Seq<char>>, ErrorV> {
    match r {
        Ok(v) => Ok(strs(v@)),
        Err(e) => Err(e@),
    }
}

pub fn message2(a: &str, b: &str) -> (m: String)
    ensures
        m@ == a@ + b@,
{
    String::from_str(a).concat(b)
}

fn too_long_error(field: &str, max: usize) -> (e: AppError)
    ensures
        e@ == invalid(too_long_message(field@, max as nat)),
{
    let m = String::from_str(field).concat(" must be at most ");
    let n = usize_to_string(max);
    let m = m.concat(n.as_str()).concat(" characters");
    AppError::with_message(ErrorCode::InvalidRequest, m)
}

/// Trims a required text and bounds its length in characters.
pub fn validate_text(field: &str, value: String, max: usize) -> (r: Result<String, AppError>)
    ensures
        text_result(r) == text_rule(field@, value@, max as nat),
{
    let t = trim(value.as_str());
    let n = t.unicode_len();
    if n == 0 {
        return Err(AppError::with_message(ErrorCode::InvalidRequest, message2(field, " must not be empty")));
    }
    if n > max {
        return Err(too_long_error(field, max));
    }
    Ok(t.to_owned())
}

/// Trims an optional text and bounds its length in characters.
pub fn validate_optional_text(field: &str, value: String, max: usize) -> (r: Result<String, AppError>)
    ensures
        text_result(r) == optional_text_rule(field@, value@, max as nat),
{
    let t = trim(value.as_str());
    if t.unicode_len() > max {
        return Err(too_long_error(field, max));
    }
    Ok(t.to_owned())
}

/// `validate_text` on an optional value.
pub fn validate_maybe_text(field: &str, value: Option<String>, max: usize) -> (r: Result<Option<String>, AppError>)
    ensures
        maybe_text_result(r) == maybe_text_rule(field@, match value { Some(v) => Some(v@), None => None }, max as nat),
{
    match value {
        None => Ok(None),
        Some(v) => match validate_text(field, v, max) {
            Ok(t) => Ok(Some(t)),
            Err(e) => Err(e),
        },
    }
}

/// `validate_text` on every entry, in order.
pub fn validate_texts(field: &str, values: Vec<String>, max: usize) -> (r: Result<Vec<String>, AppError>)
    ensures
        texts_result(r) == texts_rule(field@, strs(values@), max as nat),
{
    let ghost vs = strs(values@);
    let mut out: Vec<String> = Vec::new();
    let n = values.len();
    let mut i: usize = 0;
    assert(vs.take(0) =~= Seq::<Seq<char>>::empty());
    assert(strs(out@) =~= Seq::<Seq<char>>::empty());
    while i < n
        invariant
            n == values@.len(),
            vs == strs(values@),
            i <= n,
            texts_rule(field@, vs.take(i as int), max as nat) == Ok::<Seq<Seq<char>>, ErrorV>(strs(out@)),
        decreases n - i,
    {
        assert(vs.take(i + 1).drop_last() =~= vs.take(i as int));
        assert(vs.take(i + 1).last() == values@[i as int]@);
        let v = values[i].clone();
        match validate_text(field, v, max) {
            Ok(t) => {
                let ghost before = out@;
                let ghost tv = t@;
                out.push(t);
                assert(strs(out@) =~= strs(before).push(tv));
            },
            Err(e) => {
                proof {
                    lemma_texts_rule_err_extends(field@, vs, i + 1, max as nat);
                }
                return Err(e);
            },
        }
        i = i + 1;
    }
    assert(vs.take(n as int) =~= vs);
    Ok(out)
}

/// A text that passed `text_rule` passes it again unchanged.
pub proof fn lemma_text_rule_idempotent(field: Seq<char>, value: Seq<char>, max: nat)
    ensures
        text_rule(field, value, max) matches Ok(t) ==> text_rule(field, t, max) == Ok::<Seq<char>, ErrorV>(t),
        optional_text_rule(field, value, max) matches Ok(t) ==> optional_text_rule(field, t, max) == Ok::<Seq<char>, ErrorV>(t),
{
    crate::text::lemma_trimmed_idempotent(value);
}

/// An optional text that passed `maybe_text_rule` passes it again unchanged.
pub proof fn lemma_maybe_text_rule_idempotent(field: Seq<char>, value: Option<Seq<char>>, max: nat)
    ensures
        maybe_text_rule(field, value, max) matches Ok(t) ==> maybe_text_rule(field, t, max) == Ok::<Option<Seq<char>>, ErrorV>(t),
{
    if let Some(v) = value {
        lemma_text_rule_idempotent(field, v, max);
    }
}

/// Texts that passed `texts_rule` pass it again unchanged, as many as before.
pub proof fn lemma_texts_rule_idempotent(field: Seq<char>, values: Seq<Seq<char>>, max: nat)
    ensures
        texts_rule(field, values, max) matches Ok(ts) ==> ts.len() == values.len() && texts_rule(field, ts, max) == Ok::<
            Seq<Seq<char>>,
            ErrorV,
        >(ts),
    decreases values.len(),
{
    if values.len() > 0 {
        lemma_texts_rule_idempotent(field, values.drop_last(), max);
        lemma_text_rule_idempotent(field, values.last(), max);
        if let Ok(ts) = texts_rule(field, values, max) {
            assert(ts.drop_last() == texts_rule(field, values.drop_last(), max)->Ok_0);
        }
    }
}

/// Items that passed `map_rule` with a rule that keeps its own results pass
/// it again unchanged, as many as before.
pub proof fn lemma_map_rule_idempotent<A>(items: Seq<A>, f: spec_fn(A) -> Result<A, ErrorV>)
    requires
        forall|x: A| #[trigger] f(x) matches Ok(y) ==> f(y) == Ok::<A, ErrorV>(y),
    ensures
        map_rule(items, f) matches Ok(out) ==> out.len() == items.len() && map_rule(out, f) == Ok::<Seq<A>, ErrorV>(out),
    decreases items.len(),
{
    if items.len() > 0 {
        lemma_map_rule_idempotent(items.drop_last(), f);
        if let Ok(out) = map_rule(items, f) {
            assert(out.drop_last() == map_rule(items.drop_last(), f)->Ok_0);
            assert(f(items.last()) is Ok);
        }
    }
}

/// `texts_rule` rejects only as an invalid request.
pub proof fn lemma_texts_rule_invalid_only(field: Seq<char>, values: Seq<Seq<char>>, max: nat)
    ensures
        texts_rule(field, values, max) matches Err(e) ==> e.code == ErrorCode::InvalidRequest,
    decreases values.len(),
{
    if values.len() > 0 {
        lemma_texts_rule_invalid_only(field, values.drop_last(), max);
    }
}

/// `map_rule` rejects only as its rule does, when that rule rejects only as
/// an invalid request.
pub proof fn lemma_map_rule_invalid_only<A, B>(items: Seq<A>, f: spec_fn(A) -> Result<B, ErrorV>)
    requires
        forall|x: A| #[trigger] f(x) matches Err(e) ==> e.code == ErrorCode::InvalidRequest,
    ensures
        map_rule(items, f) matches Err(e) ==> e.code == ErrorCode::InvalidRequest,
    decreases items.len(),
{
    if items.len() > 0 {
        lemma_map_rule_invalid_only(items.drop_last(), f);
        assert(f(items.last()) matches Err(e) ==> e.code == ErrorCode::InvalidRequest);
    }
}

} // verus!
