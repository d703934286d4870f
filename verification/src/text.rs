use vstd::prelude::*;

verus! {

/// `std::io::Error`'s `to_string`: the text of an I/O error. Nothing is
/// promised of it, as the text depends on the operating system.
#[verifier::external_body]
pub(crate) fn display_io_error(e: &std::io::Error) -> String {
    e.to_string()
}

/// `String::push`: appends one character.
pub assume_specification[ String::push ](s: &mut String, c: char)
    ensures
        final(s)@ == old(s)@.push(c),
;

/// `std::str::from_utf8`: succeeds exactly on valid UTF-8, and then gives the
/// text that the bytes encode.
#[verifier::external_body]
fn utf8_text(bytes: &[u8]) -> (text: Option<&str>)
    ensures
        text is Some <==> vstd::utf8::valid_utf8(bytes@),
        text matches Some(t) ==> t@ == vstd::utf8::decode_utf8(bytes@),
{
    std::str::from_utf8(bytes).ok()
}

/// `Vec::into_boxed_slice`: the same bytes, without spare capacity.
#[verifier::external_body]
pub(crate) fn boxed_bytes(bytes: Vec<u8>) -> (boxed: Box<[u8]>)
    ensures
        boxed@ == bytes@,
{
    bytes.into_boxed_slice()
}

/// The text that Latin-1 bytes spell: each byte is its own code point.
pub open spec fn latin1(bytes: Seq<u8>) -> Seq<char> {
    bytes.map_values(|b: u8| b as char)
}

/// The text of a byte string: UTF-8 where it is valid, Latin-1 otherwise.
pub open spec fn byte_text(bytes: Seq<u8>) -> Seq<char> {
    if vstd::utf8::valid_utf8(bytes) {
        vstd::utf8::decode_utf8(bytes)
    } else {
        latin1(bytes)
    }
}

/// Decodes a byte string as UTF-8 where it is valid, and otherwise as Latin-1,
/// which accepts every byte and loses none.
pub fn decode_text(bytes: &[u8]) -> (text: String)
    ensures
        text@ == byte_text(bytes@),
{
    if let Some(s) = utf8_text(bytes) {
        return s.to_owned();
    }
    let mut text = String::new();
    let mut i: usize = 0;
    while i < bytes.len()
        invariant
            0 <= i <= bytes@.len(),
            text@ == latin1(bytes@.take(i as int)),
        decreases bytes@.len() - i,
    {
        text.push(bytes[i] as char);
        proof {
            assert(bytes@.take(i + 1) =~= bytes@.take(i as int).push(bytes@[i as int]));
        }
        i += 1;
    }
    assert(bytes@.take(bytes@.len() as int) =~= bytes@);
    text
}

/// The decimal digit `d` as a character.
pub open spec fn digit_char(d: nat) -> char {
    (48 + d) as char
}

/// The decimal notation of `n`, without leading zeros.
pub open spec fn decimal(n: nat) -> Seq<char>
    decreases n,
{
    if n < 10 {
        seq![digit_char(n)]
    } else {
        decimal(n / 10).push(digit_char(n % 10))
    }
}

/// Appends the decimal notation of `n`.
pub fn push_decimal(text: &mut String, n: usize)
    ensures
        final(text)@ == old(text)@ + decimal(n as nat),
    decreases n,
{
    if n >= 10 {
        push_decimal(text, n / 10);
    }
    let d: u8 = (n % 10) as u8;
    text.push((48 + d) as char);
    assert(text@ =~= old(text)@ + decimal(n as nat));
}

/// The short form of an image: its pixel layout, then `(width`x`height)`.
pub open spec fn layout_text(layout: Seq<char>, width: nat, height: nat) -> Seq<char> {
    layout + "("@ + decimal(width) + "x"@ + decimal(height) + ")"@
}

/// Writes the short form of an image, e.g. `Srgb8(320x240)`.
pub fn describe_layout(layout: &str, width: usize, height: usize) -> (text: String)
    ensures
        text@ == layout_text(layout@, width as nat, height as nat),
{
    let mut text = layout.to_owned().concat("(");
    push_decimal(&mut text, width);
    text.append("x");
    push_decimal(&mut text, height);
    text.append(")");
    text
}

/// Latin-1 loses nothing: different bytes spell different texts.
pub proof fn law_latin1_loses_nothing(a: Seq<u8>, b: Seq<u8>)
    requires
        latin1(a) == latin1(b),
    ensures
        a == b,
{
    assert(latin1(a).len() == a.len());
    assert(latin1(b).len() == b.len());
    assert forall|i: int| 0 <= i < a.len() implies a[i] == b[i] by {
        assert(latin1(a)[i] == a[i] as char);
        assert(latin1(b)[i] == b[i] as char);
    }
    assert(a =~= b);
}

/// A text spells bytes: the bytes are its UTF-8, or, where they are no UTF-8,
/// each character has the code of the byte in its place.
pub open spec fn spells(text: Seq<char>, bytes: Seq<u8>) -> bool {
    if vstd::utf8::valid_utf8(bytes) {
        vstd::utf8::encode_utf8(text) == bytes
    } else {
        text.len() == bytes.len() && forall|i: int|
            0 <= i < text.len() ==> #[trigger] text[i] as u32 == bytes[i] as u32
    }
}

/// The text of a byte string spells it.
pub proof fn law_text_spells_its_bytes(bytes: Seq<u8>)
    ensures
        spells(byte_text(bytes), bytes),
{
    if vstd::utf8::valid_utf8(bytes) {
        vstd::utf8::decode_utf8_encode_utf8(bytes);
    }
}

/// The number that decimal digits stand for.
pub open spec fn digits_value(digits: Seq<char>) -> int
    decreases digits.len(),
{
    if digits.len() == 0 {
        0
    } else {
        10 * digits_value(digits.drop_last()) + (digits.last() as u32 - 48)
    }
}

/// The decimal notation of a number is made of digits, stands for the number, and
/// starts with a zero only for zero itself.
pub proof fn law_decimal_stands_for_number(n: nat)
    ensures
        digits_value(decimal(n)) == n,
        decimal(n).len() >= 1,
        forall|i: int|
            0 <= i < decimal(n).len() ==> 48 <= #[trigger] decimal(n)[i] as u32 <= 57,
        decimal(n)[0] as u32 == 48 ==> n == 0,
    decreases n,
{
    if n >= 10 {
        law_decimal_stands_for_number(n / 10);
        let d = decimal(n);
        assert(d.drop_last() =~= decimal(n / 10));
        assert(d.last() as u32 == 48 + n % 10);
    } else {
        let d = decimal(n);
        assert(d.drop_last() =~= Seq::empty());
        assert(digits_value(d.drop_last()) == 0);
        assert(d.last() as u32 == 48 + n);
    }
}

/// The short form of an image tells its layout, its width and its height, in this
/// order.
pub proof fn law_short_form_tells_dimensions(layout: Seq<char>, width: nat, height: nat)
    ensures
        ({
            let t = layout_text(layout, width, height);
            let a = layout.len() + 1;
            let b = a + decimal(width).len();
            let c = b + 1 + decimal(height).len();
            &&& t.len() == c + 1
            &&& t.take(layout.len() as int) == layout
            &&& t[a - 1] == '(' && t[b as int] == 'x' && t[c as int] == ')'
            &&& digits_value(t.subrange(a as int, b as int)) == width
            &&& digits_value(t.subrange((b + 1) as int, c as int)) == height
        }),
{
    reveal_strlit("(");
    reveal_strlit("x");
    reveal_strlit(")");
    law_decimal_stands_for_number(width);
    law_decimal_stands_for_number(height);
    let t = layout_text(layout, width, height);
    let a = layout.len() + 1;
    let b = a + decimal(width).len();
    let c = b + 1 + decimal(height).len();
    assert(t.take(layout.len() as int) =~= layout);
    assert(t.subrange(a as int, b as int) =~= decimal(width));
    assert(t.subrange((b + 1) as int, c as int) =~= decimal(height));
}

} // verus!
