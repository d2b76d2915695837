//! Length-prefixed UTF-8 text fields and the checks the save contract puts
//! on them.
//!
//! Text is persisted as its UTF-8 bytes. Decoding never repairs: bytes that
//! are not UTF-8 are rejected, and a decoded string's UTF-8 encoding is
//! exactly the stored bytes.
use vstd::prelude::*;
use vstd::string::*;
use vstd::utf8::{decode_utf8, encode_utf8, valid_utf8};

verus! {

/// A Unicode control character (general category `Cc`: C0 and C1 codes).
pub open spec fn is_control(c: char) -> bool {
    (c as u32) <= 0x1F || (0x7F <= (c as u32) && (c as u32) <= 0x9F)
}

/// A character with the Unicode `White_Space` property.
pub open spec fn is_white_space(c: char) -> bool {
    let u = c as u32;
    ||| 0x09 <= u <= 0x0D
    ||| u == 0x20
    ||| u == 0x85
    ||| u == 0xA0
    ||| u == 0x1680
    ||| 0x2000 <= u <= 0x200A
    ||| u == 0x2028
    ||| u == 0x2029
    ||| u == 0x202F
    ||| u == 0x205F
    ||| u == 0x3000
}

/// Bounded command text: at most `max_bytes` UTF-8 bytes, no control
/// character, and not blank.
pub open spec fn command_text_ok(s: Seq<char>, max_bytes: nat) -> bool {
    &&& encode_utf8(s).len() <= max_bytes
    &&& forall|i: int| 0 <= i < s.len() ==> !is_control(#[trigger] s[i])
    &&& exists|i: int| 0 <= i < s.len() && !is_white_space(#[trigger] s[i])
}

/// Bounded free text: at most `max_bytes` UTF-8 bytes and no NUL character.
pub open spec fn free_text_ok(s: Seq<char>, max_bytes: nat) -> bool {
    &&& encode_utf8(s).len() <= max_bytes
    &&& forall|i: int| 0 <= i < s.len() ==> #[trigger] s[i] != '\0'
}

/// Every character takes at least one UTF-8 byte.
pub proof fn lemma_chars_within_bytes(s: Seq<char>)
    ensures
        s.len() <= encode_utf8(s).len(),
    decreases s.len(),
{
    if s.len() > 0 {
        lemma_chars_within_bytes(s.drop_first());
        assert(vstd::utf8::encode_scalar(s[0] as u32).len() >= 1);
    }
}

/// Decodes stored bytes as UTF-8 with `String::from_utf8`.
///
/// The standard library documents that the conversion succeeds exactly when
/// the bytes are valid UTF-8 and then yields the characters they encode.
#[verifier::external_body]
pub(crate) fn utf8_string(bytes: &[u8]) -> (r: Option<String>)
    ensures
        r is Some <==> valid_utf8(bytes@),
        r matches Some(s) ==> s@ == decode_utf8(bytes@),
{
    String::from_utf8(bytes.to_vec()).ok()
}

/// The UTF-8 bytes of a string.
pub fn text_bytes(s: &String) -> (b: &[u8])
    ensures
        b@ == encode_utf8(s@),
{
    s.as_str().as_bytes()
}

/// The UTF-8 byte length of a string.
pub fn text_len(s: &String) -> (n: usize)
    ensures
        n == encode_utf8(s@).len(),
{
    s.as_str().as_bytes().len()
}

/// Reports whether `s` holds a control character.
pub fn has_control(s: &String) -> (b: bool)
    ensures
        b <==> exists|i: int| 0 <= i < s@.len() && is_control(#[trigger] s@[i]),
{
    let mut found = false;
    for c in it: s.as_str().chars()
        invariant
            it.seq() == s@,
            found <==> exists|i: int| 0 <= i < it.index() && is_control(#[trigger] s@[i]),
    {
        let u = c as u32;
        if u <= 0x1F || (0x7F <= u && u <= 0x9F) {
            found = true;
        }
    }
    found
}

/// Reports whether every character of `s` is white space (so `s.trim()` is
/// empty).
pub fn is_blank(s: &String) -> (b: bool)
    ensures
        b <==> forall|i: int| 0 <= i < s@.len() ==> is_white_space(#[trigger] s@[i]),
{
    let mut blank = true;
    for c in it: s.as_str().chars()
        invariant
            it.seq() == s@,
            blank <==> forall|i: int| 0 <= i < it.index() ==> is_white_space(#[trigger] s@[i]),
    {
        let u = c as u32;
        let space = (0x09 <= u && u <= 0x0D) || u == 0x20 || u == 0x85 || u == 0xA0 || u == 0x1680
            || (0x2000 <= u && u <= 0x200A) || u == 0x2028 || u == 0x2029 || u == 0x202F || u
            == 0x205F || u == 0x3000;
        if !space {
            blank = false;
        }
    }
    blank
}

/// Reports whether `s` holds a NUL character.
pub fn has_nul(s: &String) -> (b: bool)
    ensures
        b <==> exists|i: int| 0 <= i < s@.len() && #[trigger] s@[i] == '\0',
{
    let mut found = false;
    for c in it: s.as_str().chars()
        invariant
            it.seq() == s@,
            found <==> exists|i: int| 0 <= i < it.index() && #[trigger] s@[i] == '\0',
    {
        if c == '\0' {
            found = true;
        }
    }
    found
}

/// Why a text field breaks its bound.
#[derive(Clone, Copy, Debug, PartialEq, Eq)]
pub enum TextFault {
    /// More UTF-8 bytes than the field allows.
    TooLong,
    /// A control character.
    Control,
    /// Only white space.
    Blank,
    /// A NUL character.
    Nul,
}

/// The text fields the companion contract bounds.
#[derive(Clone, Copy, Debug, PartialEq, Eq)]
pub enum TextField {
    TaskCommand,
    FifoCommand,
    Summary,
}

/// The name a fault message gives a text field.
pub open spec fn field_words(field: TextField) -> Seq<char> {
    match field {
        TextField::TaskCommand => "companion task command"@,
        TextField::FifoCommand => "companion FIFO command"@,
        TextField::Summary => "companion summary"@,
    }
}

/// What a fault message says of the fault, after the field's name.
pub open spec fn fault_words(fault: TextFault) -> Seq<char> {
    match fault {
        TextFault::TooLong => " exceeds the byte limit"@,
        TextFault::Control => " contains a control character"@,
        TextFault::Blank => " is empty"@,
        TextFault::Nul => " contains NUL"@,
    }
}

/// Each fault message is its field's name followed by the fault's words.
proof fn lemma_fault_messages()
    ensures
        "companion task command exceeds the byte limit"@ == field_words(TextField::TaskCommand) + fault_words(TextFault::TooLong),
        "companion task command contains a control character"@ == field_words(TextField::TaskCommand) + fault_words(TextFault::Control),
        "companion task command is empty"@ == field_words(TextField::TaskCommand) + fault_words(TextFault::Blank),
        "companion task command contains NUL"@ == field_words(TextField::TaskCommand) + fault_words(TextFault::Nul),
        "companion FIFO command exceeds the byte limit"@ == field_words(TextField::FifoCommand) + fault_words(TextFault::TooLong),
        "companion FIFO command contains a control character"@ == field_words(TextField::FifoCommand) + fault_words(TextFault::Control),
        "companion FIFO command is empty"@ == field_words(TextField::FifoCommand) + fault_words(TextFault::Blank),
        "companion FIFO command contains NUL"@ == field_words(TextField::FifoCommand) + fault_words(TextFault::Nul),
        "companion summary exceeds the byte limit"@ == field_words(TextField::Summary) + fault_words(TextFault::TooLong),
        "companion summary contains a control character"@ == field_words(TextField::Summary) + fault_words(TextFault::Control),
        "companion summary is empty"@ == field_words(TextField::Summary) + fault_words(TextFault::Blank),
        "companion summary contains NUL"@ == field_words(TextField::Summary) + fault_words(TextFault::Nul),
{
    reveal_strlit("companion task command");
    reveal_strlit("companion FIFO command");
    reveal_strlit("companion summary");
    reveal_strlit(" exceeds the byte limit");
    reveal_strlit(" contains a control character");
    reveal_strlit(" is empty");
    reveal_strlit(" contains NUL");
    reveal_strlit("companion task command exceeds the byte limit");
    assert("companion task command exceeds the byte limit"@ =~= "companion task command"@ + " exceeds the byte limit"@);
    reveal_strlit("companion task command contains a control character");
    assert("companion task command contains a control character"@ =~= "companion task command"@ + " contains a control character"@);
    reveal_strlit("companion task command is empty");
    assert("companion task command is empty"@ =~= "companion task command"@ + " is empty"@);
    reveal_strlit("companion task command contains NUL");
    assert("companion task command contains NUL"@ =~= "companion task command"@ + " contains NUL"@);
    reveal_strlit("companion FIFO command exceeds the byte limit");
    assert("companion FIFO command exceeds the byte limit"@ =~= "companion FIFO command"@ + " exceeds the byte limit"@);
    reveal_strlit("companion FIFO command contains a control character");
    assert("companion FIFO command contains a control character"@ =~= "companion FIFO command"@ + " contains a control character"@);
    reveal_strlit("companion FIFO command is empty");
    assert("companion FIFO command is empty"@ =~= "companion FIFO command"@ + " is empty"@);
    reveal_strlit("companion FIFO command contains NUL");
    assert("companion FIFO command contains NUL"@ =~= "companion FIFO command"@ + " contains NUL"@);
    reveal_strlit("companion summary exceeds the byte limit");
    assert("companion summary exceeds the byte limit"@ =~= "companion summary"@ + " exceeds the byte limit"@);
    reveal_strlit("companion summary contains a control character");
    assert("companion summary contains a control character"@ =~= "companion summary"@ + " contains a control character"@);
    reveal_strlit("companion summary is empty");
    assert("companion summary is empty"@ =~= "companion summary"@ + " is empty"@);
    reveal_strlit("companion summary contains NUL");
    assert("companion summary contains NUL"@ =~= "companion summary"@ + " contains NUL"@);
}

/// The error detail naming the field and the fault.
pub(crate) fn text_fault_message(field: TextField, fault: TextFault) -> (m: &'static str)
    ensures
        m@ == field_words(field) + fault_words(fault),
{
    proof {
        lemma_fault_messages();
    }
    match field {
        TextField::TaskCommand => match fault {
            TextFault::TooLong => "companion task command exceeds the byte limit",
            TextFault::Control => "companion task command contains a control character",
            TextFault::Blank => "companion task command is empty",
            TextFault::Nul => "companion task command contains NUL",
        },
        TextField::FifoCommand => match fault {
            TextFault::TooLong => "companion FIFO command exceeds the byte limit",
            TextFault::Control => "companion FIFO command contains a control character",
            TextFault::Blank => "companion FIFO command is empty",
            TextFault::Nul => "companion FIFO command contains NUL",
        },
        TextField::Summary => match fault {
            TextFault::TooLong => "companion summary exceeds the byte limit",
            TextFault::Control => "companion summary contains a control character",
            TextFault::Blank => "companion summary is empty",
            TextFault::Nul => "companion summary contains NUL",
        },
    }
}

/// Checks bounded command text: the byte ceiling, then control characters,
/// then blankness.
pub fn check_command_text(s: &String, max_bytes: usize) -> (res: Result<(), TextFault>)
    ensures
        res is Ok <==> command_text_ok(s@, max_bytes as nat),
        res matches Err(f) ==> (f is TooLong <==> encode_utf8(s@).len() > max_bytes),
{
    if text_len(s) > max_bytes {
        return Err(TextFault::TooLong);
    }
    if has_control(s) {
        return Err(TextFault::Control);
    }
    if is_blank(s) {
        return Err(TextFault::Blank);
    }
    Ok(())
}

/// Checks bounded free text: the byte ceiling, then NUL characters.
pub fn check_free_text(s: &String, max_bytes: usize) -> (res: Result<(), TextFault>)
    ensures
        res is Ok <==> free_text_ok(s@, max_bytes as nat),
        res matches Err(f) ==> (f is TooLong <==> encode_utf8(s@).len() > max_bytes),
{
    if text_len(s) > max_bytes {
        return Err(TextFault::TooLong);
    }
    if has_nul(s) {
        return Err(TextFault::Nul);
    }
    Ok(())
}

} // verus!
