//! The two text encodings of the wire, and the codecs behind them.
use vstd::prelude::*;

verus! {

#[derive(Debug, Clone, Copy, PartialEq, Eq, Structural)]
pub enum TextEncoding {
    Utf8,
    Gb18030,
}

/// The longest text, in characters or in bytes, that is handed to a codec.
/// Up to here no buffer size that the codecs compute overflows a `usize`.
pub const MAX_TEXT: usize = usize::MAX / 64;

/// The bytes that encode a text in GB18030.
pub uninterp spec fn gb18030_bytes(text: Seq<char>) -> Seq<u8>;

/// The text that bytes decode to, as GB18030.
pub uninterp spec fn gb18030_text(bytes: Seq<u8>) -> Seq<char>;

/// The text that bytes decode to, as UTF-8.
pub uninterp spec fn utf8_text(bytes: Seq<u8>) -> Seq<char>;

pub open spec fn ascii(c: char) -> bool {
    c as u32 <= 0x7f
}

/// A byte order mark: of UTF-8, or of one of the two kinds of UTF-16.
pub open spec fn begins_with_bom(bytes: Seq<u8>) -> bool {
    ||| bytes.len() >= 3 && bytes[0] == 0xef && bytes[1] == 0xbb && bytes[2] == 0xbf
    ||| bytes.len() >= 2 && bytes[0] == 0xff && bytes[1] == 0xfe
    ||| bytes.len() >= 2 && bytes[0] == 0xfe && bytes[1] == 0xff
}

/// A character that GB18030 does not give back: the one private-use character
/// that has no code, and the eighteen that share the code of another.
pub open spec fn lossy_in_gb18030(c: char) -> bool {
    let n = c as u32;
    ||| n == 0xe5e5
    ||| 0xe78d <= n <= 0xe796
    ||| n == 0xe81e
    ||| n == 0xe826
    ||| n == 0xe82b
    ||| n == 0xe82c
    ||| n == 0xe832
    ||| n == 0xe843
    ||| n == 0xe854
    ||| n == 0xe864
}

/// Every character of the text survives encoding and decoding.
pub open spec fn lossless(encoding: TextEncoding, text: Seq<char>) -> bool {
    match encoding {
        TextEncoding::Utf8 => true,
        TextEncoding::Gb18030 => forall|i: int|
            0 <= i < text.len() ==> !lossy_in_gb18030(#[trigger] text[i]),
    }
}

/// The bytes of a text.
pub open spec fn encoded(encoding: TextEncoding, text: Seq<char>) -> Seq<u8> {
    match encoding {
        TextEncoding::Utf8 => vstd::utf8::encode_utf8(text),
        TextEncoding::Gb18030 => gb18030_bytes(text),
    }
}

/// The text of bytes.
pub open spec fn decoded(encoding: TextEncoding, bytes: Seq<u8>) -> Seq<char> {
    match encoding {
        TextEncoding::Utf8 => utf8_text(bytes),
        TextEncoding::Gb18030 => gb18030_text(bytes),
    }
}

/// A character whose bytes can begin a byte order mark: the mark itself in UTF-8, and
/// the character with the code EFBB in GB18030.
pub open spec fn mark_like(c: char) -> bool {
    c as u32 == 0xfeff || c as u32 == 0x9518
}

/// Nothing about the bytes of the text makes the decoder take them for another
/// encoding: there is no byte order mark in front, as there never is where the
/// text does not begin with one of two characters.
pub open spec fn unmarked(text: Seq<char>, bytes: Seq<u8>) -> bool {
    text.len() == 0 || !mark_like(text[0]) || !begins_with_bom(bytes)
}

/// `encoding_rs::Encoding::encode` on `GB18030`. The result is a function of the
/// text. Characters are encoded one by one, an ASCII character as its own byte, so
/// what stands behind one in front is encoded as it would be alone. A character
/// takes eight bytes at most: four, or the eight of `&#58853;` for the one that
/// has no code.
#[verifier::external_body]
fn gb18030_encode(text: &str) -> (r: Vec<u8>)
    requires
        text@.len() <= MAX_TEXT,
    ensures
        r@ == gb18030_bytes(text@),
        text@.len() > 0 && ascii(text@[0]) ==> r@ == seq![text@[0] as u8] + gb18030_bytes(
            text@.skip(1),
        ),
        r@.len() <= 8 * text@.len(),
{
    encoding_rs::GB18030.encode(text).0.into_owned()
}

/// `encoding_rs::Encoding::encode` on `UTF_8`: the bytes of the text in UTF-8.
#[verifier::external_body]
fn utf8_encode(text: &str) -> (r: Vec<u8>)
    requires
        text@.len() <= MAX_TEXT,
    ensures
        r@ == vstd::utf8::encode_utf8(text@),
{
    encoding_rs::UTF_8.encode(text).0.into_owned()
}

/// `encoding_rs::Encoding::decode` on `GB18030`. The result is a function of the
/// bytes. The bytes of a text without lossy characters decode to that text, unless
/// they begin with what is a byte order mark. Only a text that begins with U+9518,
/// whose code is EFBB, can do so: no other code begins with these bytes, and none
/// with FF, or with FE and then FF.
#[verifier::external_body]
fn gb18030_decode(bytes: &[u8]) -> (r: String)
    requires
        bytes@.len() <= MAX_TEXT,
    ensures
        r@ == gb18030_text(bytes@),
        forall|t: Seq<char>|
            bytes@ == #[trigger] gb18030_bytes(t) && lossless(TextEncoding::Gb18030, t) && unmarked(
                t,
                bytes@,
            ) ==> r@ == t,
{
    encoding_rs::GB18030.decode(bytes).0.into_owned()
}

/// `encoding_rs::Encoding::decode` on `UTF_8`. The result is a function of the
/// bytes. The UTF-8 bytes of a text decode to that text, unless they begin with
/// a byte order mark, as only those of a text that begins with U+FEFF do.
#[verifier::external_body]
fn utf8_decode(bytes: &[u8]) -> (r: String)
    requires
        bytes@.len() <= MAX_TEXT,
    ensures
        r@ == utf8_text(bytes@),
        forall|t: Seq<char>|
            bytes@ == #[trigger] vstd::utf8::encode_utf8(t) && unmarked(t, bytes@) ==> r@ == t,
{
    encoding_rs::UTF_8.decode(bytes).0.into_owned()
}

/// Encodes a text for the wire. An ASCII character in front is its own byte.
pub fn encode_text(encoding: TextEncoding, s: &str) -> (r: Vec<u8>)
    requires
        s@.len() <= MAX_TEXT,
    ensures
        r@ == encoded(encoding, s@),
        s@.len() > 0 && ascii(s@[0]) ==> r@ == seq![s@[0] as u8] + encoded(encoding, s@.skip(1)),
        r@.len() <= 8 * s@.len(),
{
    match encoding {
        TextEncoding::Utf8 => {
            proof {
                lemma_utf8_len(s@);
                if s@.len() > 0 && ascii(s@[0]) {
                    lemma_utf8_ascii_first(s@);
                }
            }
            utf8_encode(s)
        },
        TextEncoding::Gb18030 => gb18030_encode(s),
    }
}

proof fn lemma_utf8_len(s: Seq<char>)
    ensures
        vstd::utf8::encode_utf8(s).len() <= 4 * s.len(),
    decreases s.len(),
{
    if s.len() > 0 {
        lemma_utf8_len(s.drop_first());
    }
}

proof fn lemma_ascii_byte(c: char)
    requires
        ascii(c),
    ensures
        c as u8 == (c as u32) as u8,
{
}

proof fn lemma_utf8_ascii_first(s: Seq<char>)
    requires
        s.len() > 0,
        ascii(s[0]),
    ensures
        vstd::utf8::encode_utf8(s) == seq![s[0] as u8] + vstd::utf8::encode_utf8(s.skip(1)),
{
    assert(s.drop_first() =~= s.skip(1));
    let c = s[0] as u32;
    assert((c & 0x7f) as u8 == c as u8) by (bit_vector)
        requires
            c <= 0x7f,
    ;
    lemma_ascii_byte(s[0]);
    assert(vstd::utf8::encode_scalar(c) =~= seq![s[0] as u8]);
}

/// Decodes a text from the wire. What `encode_text` made of a text without lossy
/// characters is read back as that text, unless it looks marked as something else.
pub fn decode_text(encoding: TextEncoding, buf: &[u8]) -> (r: String)
    requires
        buf@.len() <= MAX_TEXT,
    ensures
        r@ == decoded(encoding, buf@),
        forall|t: Seq<char>|
            buf@ == #[trigger] encoded(encoding, t) && lossless(encoding, t) && unmarked(t, buf@)
                ==> r@ == t,
{
    match encoding {
        TextEncoding::Utf8 => utf8_decode(buf),
        TextEncoding::Gb18030 => gb18030_decode(buf),
    }
}

} // verus!
