use vstd::prelude::*;
use vstd::utf8::*;
use crate::text::chars_of;

verus! {

/// Number of bytes in the UTF-8 encoding of `c`.
pub open spec fn char_width(c: char) -> nat {
    if (c as u32) < 0x80 {
        1
    } else if (c as u32) < 0x800 {
        2
    } else if (c as u32) < 0x10000 {
        3
    } else {
        4
    }
}

/// Number of bytes in the UTF-8 encoding of `cs`.
pub open spec fn utf8_width(cs: Seq<char>) -> nat
    decreases cs.len(),
{
    if cs.len() == 0 {
        0
    } else {
        utf8_width(cs.drop_last()) + char_width(cs.last())
    }
}

/// The byte offset of the character at index `k` of `cs`.
pub open spec fn byte_offset(cs: Seq<char>, k: int) -> nat {
    utf8_width(cs.take(k))
}

/// Whether `c` is a line break for line counting.
pub open spec fn is_newline(c: char) -> bool {
    c == '\n' || c == '\r'
}

/// Whether `c` has the Unicode `White_Space` property.
pub open spec fn is_white(c: char) -> bool {
    ||| c == '\t'
    ||| c == '\n'
    ||| c == '\u{b}'
    ||| c == '\u{c}'
    ||| c == '\r'
    ||| c == ' '
    ||| c == '\u{85}'
    ||| c == '\u{a0}'
    ||| c == '\u{1680}'
    ||| ('\u{2000}' <= c && c <= '\u{200a}')
    ||| c == '\u{2028}'
    ||| c == '\u{2029}'
    ||| c == '\u{202f}'
    ||| c == '\u{205f}'
    ||| c == '\u{3000}'
}

/// Whether `c` is an ASCII decimal digit.
pub open spec fn is_digit(c: char) -> bool {
    '0' <= c && c <= '9'
}

/// Whether `c` is an ASCII letter.
pub open spec fn is_ascii_letter(c: char) -> bool {
    ('a' <= c && c <= 'z') || ('A' <= c && c <= 'Z')
}

/// Whether `c` is an ASCII character.
pub open spec fn is_ascii(c: char) -> bool {
    (c as u32) < 0x80
}

/// Number of bytes in the UTF-8 encoding of `c`.
pub fn char_len(c: char) -> (n: usize)
    ensures
        n == char_width(c),
        1 <= n <= 4,
{
    let u = c as u32;
    if u < 0x80 {
        1
    } else if u < 0x800 {
        2
    } else if u < 0x10000 {
        3
    } else {
        4
    }
}

/// Whether `c` is a white-space character (the Unicode `White_Space`
/// property, as `char::is_whitespace` documents it).
pub fn is_whitespace(c: char) -> (r: bool)
    ensures
        r == is_white(c),
{
    c == '\t' || c == '\n' || c == '\u{b}' || c == '\u{c}' || c == '\r' || c == ' '
        || c == '\u{85}' || c == '\u{a0}' || c == '\u{1680}' || ('\u{2000}' <= c && c
        <= '\u{200a}') || c == '\u{2028}' || c == '\u{2029}' || c == '\u{202f}' || c
        == '\u{205f}' || c == '\u{3000}'
}

/// Whether `c` occurs in `chars`.
pub fn one_of(c: char, chars: &str) -> (r: bool)
    ensures
        r == chars@.contains(c),
{
    let v = chars_of(chars);
    let mut i: usize = 0;
    while i < v.len()
        invariant
            i <= v.len(),
            v@ == chars@,
            forall|j: int| 0 <= j < i ==> v@[j] != c,
        decreases v.len() - i,
    {
        if v[i] == c {
            return true;
        }
        i = i + 1;
    }
    false
}

/// The width of a sequence grows by the width of each character appended.
pub proof fn lemma_byte_offset_step(cs: Seq<char>, k: int)
    requires
        0 <= k < cs.len(),
    ensures
        byte_offset(cs, k + 1) == byte_offset(cs, k) + char_width(cs[k]),
{
    assert(cs.take(k + 1).drop_last() =~= cs.take(k));
}

/// Byte offsets grow with the character index.
pub proof fn lemma_byte_offset_mono(cs: Seq<char>, j: int, k: int)
    requires
        0 <= j <= k <= cs.len(),
    ensures
        byte_offset(cs, j) + (k - j) <= byte_offset(cs, k),
    decreases k - j,
{
    if j < k {
        lemma_byte_offset_mono(cs, j, k - 1);
        lemma_byte_offset_step(cs, k - 1);
    }
}

/// Byte offsets of a run of ASCII characters grow by one per character.
pub proof fn lemma_byte_offset_ascii(cs: Seq<char>, j: int, k: int)
    requires
        0 <= j <= k <= cs.len(),
        forall|i: int| j <= i < k ==> is_ascii(#[trigger] cs[i]),
    ensures
        byte_offset(cs, k) == byte_offset(cs, j) + (k - j),
    decreases k - j,
{
    if j < k {
        lemma_byte_offset_ascii(cs, j, k - 1);
        lemma_byte_offset_step(cs, k - 1);
    }
}

proof fn lemma_width_prepend(c: char, cs: Seq<char>)
    ensures
        utf8_width(seq![c] + cs) == char_width(c) + utf8_width(cs),
    decreases cs.len(),
{
    if cs.len() > 0 {
        lemma_width_prepend(c, cs.drop_last());
        assert((seq![c] + cs).drop_last() =~= seq![c] + cs.drop_last());
        assert((seq![c] + cs).last() == cs.last());
    } else {
        assert(seq![c] + cs =~= seq![c]);
        assert(seq![c].drop_last() =~= Seq::<char>::empty());
        assert(utf8_width(Seq::<char>::empty()) == 0);
    }
}

/// The width of a character sequence is the length of its UTF-8 encoding.
pub proof fn lemma_width_is_encoding_len(cs: Seq<char>)
    ensures
        utf8_width(cs) == encode_utf8(cs).len(),
    decreases cs.len(),
{
    if cs.len() > 0 {
        lemma_width_is_encoding_len(cs.drop_first());
        lemma_width_prepend(cs[0], cs.drop_first());
        assert(seq![cs[0]] + cs.drop_first() =~= cs);
        char_is_scalar(cs[0]);
    }
}

} // verus!
