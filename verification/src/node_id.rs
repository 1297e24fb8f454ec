use vstd::prelude::*;

verus! {

/// The lower-case hexadecimal digit for `n`, where `0 <= n < 16`.
pub open spec fn hex_digit(n: int) -> char {
    if n < 10 {
        (n + 48) as char
    } else {
        (n + 87) as char
    }
}

/// Digit `i` (`0 <= i < 32`) of the 32 hexadecimal digits of `bytes`, each byte
/// written as two digits, high nibble first.
pub open spec fn hex_digit_of(bytes: Seq<u8>, i: int) -> char {
    let byte = bytes[i / 2];
    if i % 2 == 0 {
        hex_digit((byte / 16) as int)
    } else {
        hex_digit((byte % 16) as int)
    }
}

/// Which of the 32 hexadecimal digits stands at position `j` of the hyphenated form.
pub open spec fn digit_index(j: int) -> int {
    if j < 8 {
        j
    } else if j < 13 {
        j - 1
    } else if j < 18 {
        j - 2
    } else if j < 23 {
        j - 3
    } else {
        j - 4
    }
}

/// Whether position `j` of the hyphenated form holds a hyphen.
pub open spec fn is_hyphen_position(j: int) -> bool {
    j == 8 || j == 13 || j == 18 || j == 23
}

/// The hyphenated lower-case text of the UUID with the sixteen `bytes`:
/// groups of 8, 4, 4, 4 and 12 hexadecimal digits joined by hyphens.
pub open spec fn uuid_text(bytes: Seq<u8>) -> Seq<char> {
    Seq::new(36, |j: int| if is_hyphen_position(j) { '-' } else { hex_digit_of(bytes, digit_index(j)) })
}

/// The bytes of a random (version 4, RFC variant) UUID: the version nibble is 4
/// and the two top bits of byte 8 are `10`.
pub open spec fn is_v4_uuid_bytes(bytes: Seq<u8>) -> bool {
    &&& bytes.len() == 16
    &&& bytes[6] / 16 == 4
    &&& bytes[8] / 64 == 2
}

/// Whether `text` is the hyphenated lower-case text of a random (version 4) UUID.
pub open spec fn is_v4_uuid_text(text: Seq<char>) -> bool {
    exists|bytes: Seq<u8>| is_v4_uuid_bytes(bytes) && #[trigger] uuid_text(bytes) == text
}

/// Calls `uuid::Uuid::new_v4` and hands back the sixteen bytes of the UUID.
///
/// The bytes are random; the crate's source masks them so that the version nibble
/// (high half of byte 6) is 4 and the top two bits of byte 8 are `10`, and that
/// is all that is claimed of them. The crate panics when the operating system
/// cannot supply random bytes; nothing here rules that out.
#[verifier::external_body]
fn random_v4_bytes() -> (bytes: [u8; 16])
    ensures
        bytes@[6] / 16 == 4,
        bytes@[8] / 64 == 2,
{
    uuid::Uuid::new_v4().into_bytes()
}

/// Formats the UUID with these `bytes` by its `Display` impl (`to_string`), which
/// the crate's source writes as the hyphenated lower-case form.
#[verifier::external_body]
fn uuid_string(bytes: [u8; 16]) -> (text: String)
    ensures
        text@ == uuid_text(bytes@),
{
    uuid::Uuid::from_bytes(bytes).to_string()
}

/// A fresh random identifier for a node: the text of a new version 4 UUID.
pub fn new_node_id() -> (id: String)
    ensures
        is_v4_uuid_text(id@),
{
    let bytes = random_v4_bytes();
    let id = uuid_string(bytes);
    assert(is_v4_uuid_bytes(bytes@) && uuid_text(bytes@) == id@);
    id
}

/// The text of a version 4 UUID has 36 characters, hyphens at positions 8, 13,
/// 18 and 23, lower-case hexadecimal digits elsewhere, the version digit `4` at
/// position 14 and one of `8`, `9`, `a`, `b` at position 19.
pub proof fn lemma_v4_text_shape(text: Seq<char>)
    requires
        is_v4_uuid_text(text),
    ensures
        text.len() == 36,
        forall|j: int| 0 <= j < 36 && is_hyphen_position(j) ==> text[j] == '-',
        forall|j: int|
            0 <= j < 36 && !is_hyphen_position(j) ==> ('0' <= #[trigger] text[j] <= '9' || 'a'
                <= text[j] <= 'f'),
        text[14] == '4',
        text[19] == '8' || text[19] == '9' || text[19] == 'a' || text[19] == 'b',
{
    let bytes = choose|bytes: Seq<u8>| is_v4_uuid_bytes(bytes) && #[trigger] uuid_text(bytes) == text;
    assert(text[14] == hex_digit_of(bytes, 12));
    assert(text[19] == hex_digit_of(bytes, 16));
    assert forall|j: int| 0 <= j < 36 && !is_hyphen_position(j) implies ('0' <= #[trigger] text[j]
        <= '9' || 'a' <= text[j] <= 'f') by {
        let i = digit_index(j);
        assert(0 <= i < 32);
        assert(text[j] == hex_digit_of(bytes, i));
    }
}

} // verus!
