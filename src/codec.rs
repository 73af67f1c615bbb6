//! Fixed-width text fields: UTF-8 text padded with zero bytes on encoding,
//! zero bytes stripped on decoding.

use vstd::prelude::*;
use vstd::utf8::*;

use crate::error::GlobalError;

verus! {

/// `n` zero bytes.
pub open spec fn zeros(n: nat) -> Seq<u8> {
    Seq::new(n, |i: int| 0u8)
}

/// The bytes of `b` that are not zero, in order.
pub open spec fn without_zeros(b: Seq<u8>) -> Seq<u8>
    decreases b.len(),
{
    if b.len() == 0 {
        Seq::empty()
    } else if b.last() == 0 {
        without_zeros(b.drop_last())
    } else {
        without_zeros(b.drop_last()).push(b.last())
    }
}

/// A text field of `width` bytes: the UTF-8 encoding of `text`, then zeros.
pub open spec fn text_field(text: Seq<char>, width: nat) -> Seq<u8> {
    encode_utf8(text) + zeros((width - encode_utf8(text).len()) as nat)
}

/// Whether `text` can be stored in a field of `width` bytes: its encoding
/// fits and it holds no NUL character, whose zero byte the field uses as
/// padding.
pub open spec fn fits_field(text: Seq<char>, width: nat) -> bool {
    encode_utf8(text).len() <= width && !text.contains('\0')
}

proof fn lemma_scalar_zero_byte(c: char)
    ensures
        encode_scalar(c as u32).contains(0u8) <==> c == '\0',
{
    let v = c as u32;
    let e = encode_scalar(v);
    if has_width_1_encoding(v) {
        assert(v <= 0x7F ==> ((v & 0x7F) as u8 == 0 <==> v == 0)) by (bit_vector);
        assert(e[0] == (v & 0x7F) as u8);
        if e.contains(0u8) {
            let i = choose|i: int| 0 <= i < e.len() && e[i] == 0u8;
            assert(i == 0);
        }
        if c == '\0' {
            assert(e[0] == 0u8);
        }
    } else {
        assert(forall|x: u8| #[trigger] (0x80u8 | x) != 0u8) by (bit_vector);
        assert(forall|x: u8| #[trigger] (0xC0u8 | x) != 0u8) by (bit_vector);
        assert(forall|x: u8| #[trigger] (0xE0u8 | x) != 0u8) by (bit_vector);
        assert(forall|x: u8| #[trigger] (0xF0u8 | x) != 0u8) by (bit_vector);
        assert(c != '\0');
        if e.contains(0u8) {
            let i = choose|i: int| 0 <= i < e.len() && e[i] == 0u8;
        }
    }
}

/// The encoding of a text holds a zero byte exactly where the text holds a
/// NUL character.
pub proof fn lemma_zero_byte_iff_nul(text: Seq<char>)
    ensures
        encode_utf8(text).contains(0u8) <==> text.contains('\0'),
    decreases text.len(),
{
    if text.len() > 0 {
        let rest = text.drop_first();
        lemma_zero_byte_iff_nul(rest);
        lemma_scalar_zero_byte(text[0]);
        let head = encode_scalar(text[0] as u32);
        let tail = encode_utf8(rest);
        let e = encode_utf8(text);
        assert(e == head + tail);
        if e.contains(0u8) {
            let i = choose|i: int| 0 <= i < e.len() && e[i] == 0u8;
            if i < head.len() {
                assert(head[i] == 0u8);
                assert(text[0] == '\0');
            } else {
                assert(tail[i - head.len()] == 0u8);
                let j = choose|j: int| 0 <= j < rest.len() && rest[j] == '\0';
                assert(text[j + 1] == '\0');
            }
        }
        if text.contains('\0') {
            let j = choose|j: int| 0 <= j < text.len() && text[j] == '\0';
            if j == 0 {
                let i = choose|i: int| 0 <= i < head.len() && head[i] == 0u8;
                assert(e[i] == 0u8);
            } else {
                assert(rest[j - 1] == '\0');
                let i = choose|i: int| 0 <= i < tail.len() && tail[i] == 0u8;
                assert(e[head.len() + i] == 0u8);
            }
        }
    }
}

/// The text that a text field holds: its bytes but the zeros, read as UTF-8,
/// or `None` where they are not UTF-8.
pub open spec fn field_text(b: Seq<u8>) -> Option<Seq<char>> {
    if valid_utf8(without_zeros(b)) {
        Some(decode_utf8(without_zeros(b)))
    } else {
        None
    }
}

proof fn lemma_without_zeros_add(a: Seq<u8>, b: Seq<u8>)
    ensures
        without_zeros(a + b) == without_zeros(a) + without_zeros(b),
    decreases b.len(),
{
    if b.len() == 0 {
        assert(a + b =~= a);
        assert(without_zeros(b) =~= Seq::<u8>::empty());
    } else {
        assert((a + b).drop_last() =~= a + b.drop_last());
        lemma_without_zeros_add(a, b.drop_last());
        if b.last() != 0 {
            assert(without_zeros(a + b) =~= without_zeros(a) + without_zeros(b));
        }
    }
}

proof fn lemma_without_zeros_of_zeros(n: nat)
    ensures
        without_zeros(zeros(n)) == Seq::<u8>::empty(),
    decreases n,
{
    if n > 0 {
        assert(zeros(n).drop_last() =~= zeros((n - 1) as nat));
        lemma_without_zeros_of_zeros((n - 1) as nat);
    }
}

proof fn lemma_without_zeros_keeps(b: Seq<u8>)
    requires
        !b.contains(0u8),
    ensures
        without_zeros(b) == b,
    decreases b.len(),
{
    if b.len() > 0 {
        assert(b.last() == b[b.len() - 1]);
        assert(!b.drop_last().contains(0u8)) by {
            if b.drop_last().contains(0u8) {
                let i = choose|i: int| 0 <= i < b.drop_last().len() && b.drop_last()[i] == 0u8;
                assert(b[i] == 0u8);
            }
        }
        lemma_without_zeros_keeps(b.drop_last());
        assert(b.drop_last().push(b.last()) =~= b);
    }
}

/// Reading a text field gives back the text that was stored in it.
pub proof fn lemma_text_field_round_trip(text: Seq<char>, width: nat)
    requires
        fits_field(text, width),
    ensures
        text_field(text, width).len() == width,
        field_text(text_field(text, width)) == Some(text),
        without_zeros(text_field(text, width)).len() == 0 <==> text.len() == 0,
{
    let e = encode_utf8(text);
    lemma_zero_byte_iff_nul(text);
    lemma_without_zeros_add(e, zeros((width - e.len()) as nat));
    lemma_without_zeros_of_zeros((width - e.len()) as nat);
    lemma_without_zeros_keeps(e);
    assert(without_zeros(text_field(text, width)) =~= e);
    encode_utf8_valid_utf8(text);
    encode_utf8_decode_utf8(text);
    if text.len() != 0 && e.len() == 0 {
        assert(decode_utf8(e) =~= Seq::<char>::empty());
    }
}

/// Appends the text field of `width` bytes that holds `text`.
pub fn push_text_field(out: &mut Vec<u8>, text: &str, width: usize) -> (r: Result<(), GlobalError>)
    ensures
        r is Ok <==> fits_field(text@, width as nat),
        r is Ok ==> final(out)@ == old(out)@ + text_field(text@, width as nat),
        r is Err ==> final(out)@ == old(out)@,
        text@.contains('\0') ==> r == Err::<(), GlobalError>(GlobalError::NulInText),
        !text@.contains('\0') && encode_utf8(text@).len() > width ==> r == Err::<
            (),
            GlobalError,
        >(GlobalError::TextTooLong { actual: encode_utf8(text@).len() as usize, max: width }),
{
    let bytes = text.as_bytes();
    let n = bytes.len();
    proof {
        lemma_zero_byte_iff_nul(text@);
    }
    let mut i: usize = 0;
    while i < n
        invariant
            bytes@ == encode_utf8(text@),
            n == bytes@.len(),
            i <= n,
            forall|j: int| 0 <= j < i ==> bytes@[j] != 0u8,
        decreases n - i,
    {
        if bytes[i] == 0 {
            proof {
                assert(bytes@[i as int] == 0u8);
                lemma_zero_byte_iff_nul(text@);
            }
            return Err(GlobalError::NulInText);
        }
        i = i + 1;
    }
    if n > width {
        return Err(GlobalError::TextTooLong { actual: n, max: width });
    }
    let ghost start = out@;
    let mut k: usize = 0;
    while k < n
        invariant
            bytes@ == encode_utf8(text@),
            n == bytes@.len(),
            k <= n,
            out@ == start + bytes@.subrange(0, k as int),
        decreases n - k,
    {
        out.push(bytes[k]);
        assert(bytes@.subrange(0, k + 1) =~= bytes@.subrange(0, k as int).push(bytes@[k as int]));
        k = k + 1;
    }
    let mut p: usize = n;
    while p < width
        invariant
            bytes@ == encode_utf8(text@),
            n <= p <= width,
            out@ == start + bytes@ + zeros((p - n) as nat),
        decreases width - p,
    {
        out.push(0u8);
        assert(zeros((p + 1 - n) as nat) =~= zeros((p - n) as nat).push(0u8));
        p = p + 1;
    }
    assert(out@ =~= start + text_field(text@, width as nat));
    Ok(())
}

/// The bytes of `b` that are not zero.
pub fn strip_zeros(b: &[u8]) -> (r: Vec<u8>)
    ensures
        r@ == without_zeros(b@),
{
    let mut r: Vec<u8> = Vec::new();
    let mut i: usize = 0;
    while i < b.len()
        invariant
            i <= b@.len(),
            r@ == without_zeros(b@.subrange(0, i as int)),
        decreases b@.len() - i,
    {
        assert(b@.subrange(0, i + 1).drop_last() =~= b@.subrange(0, i as int));
        if b[i] != 0 {
            r.push(b[i]);
        }
        i = i + 1;
    }
    assert(b@.subrange(0, b@.len() as int) =~= b@);
    r
}

/// Reads the text that a text field holds.
pub fn read_text_field(b: &[u8]) -> (r: Result<String, GlobalError>)
    ensures
        field_text(b@) matches Some(t) ==> r matches Ok(s) && s@ == t,
        field_text(b@) is None ==> r == Err::<String, GlobalError>(GlobalError::BadString),
{
    match string_from_utf8(strip_zeros(b)) {
        Some(s) => Ok(s),
        None => Err(GlobalError::BadString),
    }
}

/// Relies on `String::from_utf8`: the string that the bytes encode, or `None`
/// where they are not UTF-8.
#[verifier::external_body]
fn string_from_utf8(bytes: Vec<u8>) -> (r: Option<String>)
    ensures
        r is Some <==> valid_utf8(bytes@),
        r matches Some(s) ==> s@ == decode_utf8(bytes@),
{
    String::from_utf8(bytes).ok()
}

} // verus!
