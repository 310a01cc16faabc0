//! ASCII runs inside UTF-8 text: how their bytes read as characters, and how
//! to cut them out of a string slice.

use vstd::prelude::*;
use vstd::string::StringSliceAdditionalSpecFns;
use vstd::utf8::*;

verus! {

/// Every byte in the half-open range `from..to` of `bytes` is an ASCII byte.
pub open spec fn ascii_between(bytes: Seq<u8>, from: int, to: int) -> bool {
    forall|k: int| from <= k < to ==> #[trigger] bytes[k] < 0x80
}

/// The characters that a run of ASCII bytes spells, one per byte.
pub open spec fn ascii_text(bytes: Seq<u8>) -> Seq<char> {
    Seq::new(bytes.len(), |k: int| bytes[k] as char)
}

/// A run of ASCII bytes is the UTF-8 encoding of the characters it spells.
pub proof fn lemma_ascii_text_encoding(bytes: Seq<u8>)
    requires
        ascii_between(bytes, 0, bytes.len() as int),
    ensures
        encode_utf8(ascii_text(bytes)) == bytes,
{
    let text = ascii_text(bytes);
    assert(is_ascii_chars(text)) by {
        assert forall|k: int| 0 <= k < text.len() implies '\0' <= #[trigger] text[k] <= '\u{7f}' by {
            assert(bytes[k] < 0x80);
        }
    }
    is_ascii_chars_encode_utf8(text);
    assert(encode_utf8(text) =~= bytes) by {
        assert forall|k: int| 0 <= k < bytes.len() implies encode_utf8(text)[k] == bytes[k] by {
            assert(bytes[k] < 0x80);
            assert(text[k] as u8 == encode_utf8(text)[k]);
        }
    }
}

/// Text whose encoding holds only ASCII bytes is spelled by those bytes.
pub proof fn lemma_ascii_encoding_text(text: Seq<char>)
    requires
        ascii_between(encode_utf8(text), 0, encode_utf8(text).len() as int),
    ensures
        text == ascii_text(encode_utf8(text)),
{
    let bytes = encode_utf8(text);
    lemma_ascii_text_encoding(bytes);
    encode_utf8_decode_utf8(text);
    encode_utf8_decode_utf8(ascii_text(bytes));
}

/// Two texts are equal exactly when their encodings are.
pub proof fn lemma_encoding_injective(a: Seq<char>, b: Seq<char>)
    ensures
        (encode_utf8(a) == encode_utf8(b)) == (a == b),
{
    encode_utf8_decode_utf8(a);
    encode_utf8_decode_utf8(b);
}

/// In valid UTF-8 that starts with `n` ASCII bytes, a character ends after
/// each of them.
pub proof fn lemma_ascii_prefix_boundary(bytes: Seq<u8>, n: int)
    requires
        valid_utf8(bytes),
        0 <= n <= bytes.len(),
        ascii_between(bytes, 0, n),
    ensures
        is_char_boundary(bytes, n),
    decreases n,
{
    if n > 0 {
        assert(bytes[0] < 0x80);
        let rest = pop_first_scalar(bytes);
        assert(rest == bytes.subrange(1, bytes.len() as int));
        assert forall|k: int| 0 <= k < n - 1 implies #[trigger] rest[k] < 0x80 by {
            assert(bytes[k + 1] < 0x80);
        }
        lemma_ascii_prefix_boundary(rest, n - 1);
    }
}

/// Whether two string slices hold the same text.
pub fn str_eq(a: &str, b: &str) -> (same: bool)
    ensures
        same == (a@ == b@),
{
    let x = a.as_bytes();
    let y = b.as_bytes();
    proof {
        lemma_encoding_injective(a@, b@);
    }
    if x.len() != y.len() {
        return false;
    }
    let mut i: usize = 0;
    while i < x.len()
        invariant
            x@ == a.spec_bytes(),
            y@ == b.spec_bytes(),
            (x@ == y@) == (a@ == b@),
            x@.len() == y@.len(),
            0 <= i <= x@.len(),
            forall|k: int| 0 <= k < i ==> x@[k] == y@[k],
        decreases x@.len() - i,
    {
        if x[i] != y[i] {
            return false;
        }
        i += 1;
    }
    assert(x@ =~= y@);
    true
}

/// The text spelled by the ASCII bytes `from..to` of `s`, borrowed from `s`.
pub fn ascii_slice<'a>(s: &'a str, from: usize, to: usize) -> (part: &'a str)
    requires
        from <= to <= s.spec_bytes().len(),
        ascii_between(s.spec_bytes(), from as int, to as int),
    ensures
        part@ == ascii_text(s.spec_bytes().subrange(from as int, to as int)),
{
    if from == to {
        proof {
            reveal_strlit("");
        }
        assert(""@ =~= ascii_text(s.spec_bytes().subrange(from as int, to as int)));
        return "";
    }
    let ghost bytes = s.spec_bytes();
    proof {
        encode_utf8_valid_utf8(s@);
        assert(bytes[from as int] < 0x80);
        is_char_boundary_iff_is_leading_byte(bytes, from as int);
    }
    let (_, tail) = s.split_at(from);
    let ghost rest = tail.spec_bytes();
    proof {
        encode_utf8_valid_utf8(tail@);
        assert forall|k: int| 0 <= k < to - from implies #[trigger] rest[k] < 0x80 by {
            assert(bytes[from + k] < 0x80);
        }
        lemma_ascii_prefix_boundary(rest, to - from);
    }
    let (part, _) = tail.split_at(to - from);
    proof {
        assert(part.spec_bytes() =~= bytes.subrange(from as int, to as int));
        assert forall|k: int| 0 <= k < part.spec_bytes().len() implies #[trigger] part.spec_bytes()[k] < 0x80 by {
            assert(bytes[from + k] < 0x80);
        }
        lemma_ascii_encoding_text(part@);
    }
    part
}

} // verus!
