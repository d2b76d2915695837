//! The error type shared by every save codec.
use vstd::prelude::*;

verus! {

/// Failure of a save codec operation.
#[derive(Clone, Debug, PartialEq, Eq)]
pub enum StorageError {
    /// The bytes or the value break the record contract.
    Corrupt(String),
    /// The record was written by a newer format version than this reader knows.
    FutureVersion(String),
    /// The caller's destination buffer is shorter than the encoded record.
    OutputTooSmall { needed: usize, available: usize },
}

/// Result alias used by every codec.
pub type StorageResult<T> = Result<T, StorageError>;

/// Joins a context and a detail into one message, `"{context}: {detail}"`.
#[verifier::external_body]
fn join_message(context: &str, detail: &str) -> (message: String)
    ensures
        message@ == context@ + ": "@ + detail@,
{
    format!("{context}: {detail}")
}

/// Builds a corruption error carrying `"{context}: {detail}"`.
pub fn corrupt(context: &str, detail: &str) -> (err: StorageError)
    ensures
        err matches StorageError::Corrupt(message) && message@ == context@ + ": "@ + detail@,
{
    StorageError::Corrupt(join_message(context, detail))
}

/// Joins a context, a record index and a detail into one message,
/// `"{context}: {index}: {detail}"`.
#[verifier::external_body]
fn join_indexed_message(context: &str, index: usize, detail: &str) -> (message: String)
    ensures
        message@ == context@ + ": "@ + decimal_text(index as u64) + ": "@ + detail@,
{
    format!("{context}: {index}: {detail}")
}

/// Builds a corruption error for the record at `index`,
/// carrying `"{context}: {index}: {detail}"`.
pub fn corrupt_at(context: &str, index: usize, detail: &str) -> (err: StorageError)
    ensures
        err matches StorageError::Corrupt(message) && message@ == context@ + ": "@ + decimal_text(
            index as u64,
        ) + ": "@ + detail@,
{
    StorageError::Corrupt(join_indexed_message(context, index, detail))
}

/// The character of a decimal digit `d < 10`.
pub open spec fn digit_char(d: u64) -> char {
    (48 + d) as char
}

/// The decimal text that Rust's `Display` gives an unsigned integer: its
/// digits, most significant first, with no sign and no leading zeros.
pub open spec fn decimal_text(n: u64) -> Seq<char>
    decreases n,
{
    if n < 10 {
        seq![digit_char(n)]
    } else {
        decimal_text(n / 10).push(digit_char(n % 10))
    }
}

/// Renders `n` in decimal with `format!`.
#[verifier::external_body]
fn number_text(n: u64) -> (text: String)
    ensures
        text@ == decimal_text(n),
{
    format!("{n}")
}

/// Joins a context and a detail with a number inside it into one message,
/// `"{context}: {before}{n}{after}"`.
#[verifier::external_body]
fn join_numbered_message(context: &str, before: &str, n: u64, after: &str) -> (message: String)
    ensures
        message@ == context@ + ": "@ + before@ + decimal_text(n) + after@,
{
    format!("{context}: {before}{n}{after}")
}

/// Builds a corruption error whose detail carries a number,
/// `"{context}: {before}{n}{after}"`.
pub fn corrupt_numbered(context: &str, before: &str, n: u64, after: &str) -> (err: StorageError)
    ensures
        err matches StorageError::Corrupt(message) && message@ == context@ + ": "@ + before@
            + decimal_text(n) + after@,
{
    StorageError::Corrupt(join_numbered_message(context, before, n, after))
}

/// Joins a context and two numbers into one message,
/// `"{context}: {first}{middle}{second}"`.
#[verifier::external_body]
fn join_two_numbers_message(context: &str, first: u64, middle: &str, second: u64) -> (message:
    String)
    ensures
        message@ == context@ + ": "@ + decimal_text(first) + middle@ + decimal_text(second),
{
    format!("{context}: {first}{middle}{second}")
}

/// Builds a corruption error whose detail carries two numbers,
/// `"{context}: {first}{middle}{second}"`.
pub fn corrupt_two_numbers(context: &str, first: u64, middle: &str, second: u64) -> (err:
    StorageError)
    ensures
        err matches StorageError::Corrupt(message) && message@ == context@ + ": "@ + decimal_text(
            first,
        ) + middle@ + decimal_text(second),
{
    StorageError::Corrupt(join_two_numbers_message(context, first, middle, second))
}

/// An owned copy of a fixed detail text.
pub(crate) fn detail_text(s: &str) -> (t: String)
    ensures
        t@ == s@,
{
    proof {
        broadcast use vstd::string::to_string_from_display_ensures_for_str;
    }
    s.to_string()
}

/// A detail text with a number inside it, `"{before}{n}{after}"`.
#[verifier::external_body]
pub(crate) fn numbered_text(before: &str, n: u64, after: &str) -> (t: String)
    ensures
        t@ == before@ + decimal_text(n) + after@,
{
    format!("{before}{n}{after}")
}

/// Joins a short read's context and numbers into one message,
/// `"{context}: need {need} bytes at offset {offset}, only {remain} remain"`.
#[verifier::external_body]
fn join_short_read(context: &str, need: u64, offset: u64, remain: u64) -> (message: String)
    ensures
        message@ == context@ + ": "@ + "need "@ + decimal_text(need) + " bytes at offset "@
            + decimal_text(offset) + ", only "@ + decimal_text(remain) + " remain"@,
{
    format!("{context}: need {need} bytes at offset {offset}, only {remain} remain")
}

/// Builds the corruption error of a field of `need` bytes at `offset` that a
/// record of `len` bytes cuts short.
pub fn short_read(context: &str, need: usize, offset: usize, len: usize) -> (err: StorageError)
    requires
        offset <= len,
    ensures
        err matches StorageError::Corrupt(message) && message@ == context@ + ": "@ + "need "@
            + decimal_text(need as u64) + " bytes at offset "@ + decimal_text(offset as u64)
            + ", only "@ + decimal_text((len - offset) as u64) + " remain"@,
{
    StorageError::Corrupt(join_short_read(context, need as u64, offset as u64, (len - offset) as u64))
}

/// The decimal text that Rust's `Display` gives a signed integer.
pub open spec fn signed_decimal_text(n: i64) -> Seq<char> {
    if n < 0 {
        seq!['-'] + decimal_text((-n) as u64)
    } else {
        decimal_text(n as u64)
    }
}

/// Joins a context and a detail with a signed number inside it,
/// `"{context}: {before}{n}"`.
#[verifier::external_body]
fn join_signed_message(context: &str, before: &str, n: i64) -> (message: String)
    ensures
        message@ == context@ + ": "@ + before@ + signed_decimal_text(n),
{
    format!("{context}: {before}{n}")
}

/// Builds a corruption error whose detail ends in a signed number,
/// `"{context}: {before}{n}"`.
pub fn corrupt_signed(context: &str, before: &str, n: i64) -> (err: StorageError)
    ensures
        err matches StorageError::Corrupt(message) && message@ == context@ + ": "@ + before@
            + signed_decimal_text(n),
{
    StorageError::Corrupt(join_signed_message(context, before, n))
}

/// A detail text ending in a signed number, `"{before}{n}"`.
#[verifier::external_body]
pub(crate) fn signed_text(before: &str, n: i64) -> (t: String)
    ensures
        t@ == before@ + signed_decimal_text(n),
{
    format!("{before}{n}")
}

/// Builds a future-version error carrying `"{context}: {version}"`.
pub fn future_version(context: &str, version: u32) -> (err: StorageError)
    ensures
        err matches StorageError::FutureVersion(message) && message@ == context@ + ": "@
            + decimal_text(version as u64),
{
    let text = number_text(version as u64);
    StorageError::FutureVersion(join_message(context, text.as_str()))
}

} // verus!
