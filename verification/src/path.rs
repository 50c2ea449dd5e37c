//! Target paths and the file name that a path ends in.
//!
//! A path is text; its parts are separated by `/`. The file name is what
//! follows the last separator. The functions here work on the UTF-8 bytes
//! of a path, and the lemmas show that this gives what the definition on
//! characters says.

use vstd::prelude::*;
use vstd::string::*;
use vstd::utf8::*;

verus! {

/// The separator as a character.
pub const SEPARATOR_CHAR: char = '/';

/// The file name that a path ends in: what follows its last separator,
/// the whole path where it holds none.
pub open spec fn file_name_of(path: Seq<char>) -> Seq<char> {
    path.skip(name_start_chars(path))
}

/// A path names a file when it is not empty and does not end in a
/// separator: then its file name is not empty.
pub open spec fn names_file(path: Seq<char>) -> bool {
    path.len() > 0 && path.last() != SEPARATOR_CHAR
}

/// Number of characters of `path` before its file name: the place right
/// after the last separator, or zero where the path holds none.
pub open spec fn name_start_chars(path: Seq<char>) -> int
    decreases path.len(),
{
    if path.len() == 0 {
        0
    } else if path.last() == SEPARATOR_CHAR {
        path.len() as int
    } else {
        name_start_chars(path.drop_last())
    }
}

/// The separator between the parts of a path.
pub const SEPARATOR: u8 = 0x2f;

/// Offset at which the file name starts: one past the last separator, or
/// zero where the path holds none.
pub open spec fn name_start(bytes: Seq<u8>) -> int
    decreases bytes.len(),
{
    if bytes.len() == 0 {
        0
    } else if bytes.last() == SEPARATOR {
        bytes.len() as int
    } else {
        name_start(bytes.drop_last())
    }
}

/// The file name that a path ends in: what follows its last separator,
/// the whole path where it holds none. Empty where the path is empty or
/// ends in a separator.
pub open spec fn file_name_bytes(bytes: Seq<u8>) -> Seq<u8> {
    bytes.subrange(name_start(bytes), bytes.len() as int)
}

/// The file name starts inside the path, right after a separator or at
/// the front, and holds no separator itself.
pub proof fn lemma_name_start(bytes: Seq<u8>)
    ensures
        0 <= name_start(bytes) <= bytes.len(),
        name_start(bytes) > 0 ==> bytes[name_start(bytes) - 1] == SEPARATOR,
        forall|i: int| name_start(bytes) <= i < bytes.len() ==> bytes[i] != SEPARATOR,
    decreases bytes.len(),
{
    if bytes.len() > 0 && bytes.last() != SEPARATOR {
        let front = bytes.drop_last();
        lemma_name_start(front);
        assert forall|i: int| name_start(bytes) <= i < bytes.len() implies bytes[i]
            != SEPARATOR by {
            if i < front.len() {
                assert(bytes[i] == front[i]);
            }
        }
    }
}

/// In valid UTF-8, the position right after an ASCII byte starts a
/// character or ends the text.
proof fn lemma_boundary_after_ascii(bytes: Seq<u8>, index: int)
    requires
        valid_utf8(bytes),
        0 < index <= bytes.len(),
        bytes[index - 1] < 0x80,
    ensures
        is_char_boundary(bytes, index),
{
    if index == bytes.len() {
        is_char_boundary_start_end_of_seq(bytes);
    } else {
        is_char_boundary_iff_not_is_continuation_byte(bytes, index - 1);
        valid_utf8_split(bytes, index - 1);
        let rest = bytes.subrange(index - 1, bytes.len() as int);
        assert(rest[0] == bytes[index - 1]);
        assert(length_of_first_scalar(rest) == 1);
        let tail = pop_first_scalar(rest);
        assert(valid_utf8(tail));
        assert(tail[0] == bytes[index]);
        is_char_boundary_iff_not_is_continuation_byte(tail, 0);
        is_char_boundary_iff_not_is_continuation_byte(bytes, index);
    }
}

proof fn lemma_name_start_chars(path: Seq<char>)
    ensures
        0 <= name_start_chars(path) <= path.len(),
        name_start_chars(path) > 0 ==> path[name_start_chars(path) - 1] == SEPARATOR_CHAR,
        forall|i: int| name_start_chars(path) <= i < path.len() ==> path[i] != SEPARATOR_CHAR,
    decreases path.len(),
{
    if path.len() > 0 && path.last() != SEPARATOR_CHAR {
        let front = path.drop_last();
        lemma_name_start_chars(front);
        assert forall|i: int| name_start_chars(path) <= i < path.len() implies path[i]
            != SEPARATOR_CHAR by {
            if i < front.len() {
                assert(path[i] == front[i]);
            }
        }
    }
}

proof fn lemma_scalar_bytes(s: u32)
    requires
        is_scalar(s),
    ensures
        s == 0x2f ==> encode_scalar(s) == seq![SEPARATOR],
        s != 0x2f ==> forall|i: int|
            0 <= i < encode_scalar(s).len() ==> #[trigger] encode_scalar(s)[i] != SEPARATOR,
{
    assert(s <= 0x7f ==> (s & 0x7F) as u8 == s) by (bit_vector);
    assert((0xC0u8 | ((s >> 6) & 0x1F) as u8) >= 0x80u8) by (bit_vector);
    assert((0xE0u8 | ((s >> 12) & 0x0F) as u8) >= 0x80u8) by (bit_vector);
    assert((0xF0u8 | ((s >> 18) & 0x7) as u8) >= 0x80u8) by (bit_vector);
    assert((0x80u8 | (s & 0x3F) as u8) >= 0x80u8) by (bit_vector);
    assert((0x80u8 | ((s >> 6) & 0x3F) as u8) >= 0x80u8) by (bit_vector);
    assert((0x80u8 | ((s >> 12) & 0x3F) as u8) >= 0x80u8) by (bit_vector);
    if s == 0x2f {
        assert(encode_scalar(s) =~= seq![SEPARATOR]);
    }
}

proof fn lemma_encode_concat(a: Seq<char>, b: Seq<char>)
    ensures
        encode_utf8(a + b) == encode_utf8(a) + encode_utf8(b),
    decreases a.len(),
{
    if a.len() == 0 {
        assert(a + b =~= b);
        assert(encode_utf8(a) + encode_utf8(b) =~= encode_utf8(b));
    } else {
        lemma_encode_concat(a.drop_first(), b);
        assert((a + b).drop_first() =~= a.drop_first() + b);
        assert((a + b)[0] == a[0]);
        assert(encode_utf8(a + b) =~= encode_utf8(a) + encode_utf8(b));
    }
}

proof fn lemma_encode_without_separator(chars: Seq<char>)
    requires
        forall|i: int| 0 <= i < chars.len() ==> chars[i] != SEPARATOR_CHAR,
    ensures
        forall|i: int|
            0 <= i < encode_utf8(chars).len() ==> #[trigger] encode_utf8(chars)[i] != SEPARATOR,
        chars.len() > 0 ==> encode_utf8(chars).len() > 0,
    decreases chars.len(),
{
    if chars.len() > 0 {
        let rest = chars.drop_first();
        assert forall|i: int| 0 <= i < rest.len() implies rest[i] != SEPARATOR_CHAR by {
            assert(rest[i] == chars[i + 1]);
        }
        lemma_encode_without_separator(rest);
        char_is_scalar(chars[0]);
        let s = chars[0] as u32;
        lemma_scalar_bytes(s);
        assert(s != 0x2f) by {
            if s == 0x2f {
                char_u32_cast(chars[0], s);
                assert(chars[0] == SEPARATOR_CHAR);
            }
        }
        let head = encode_scalar(s);
        let tail = encode_utf8(rest);
        assert forall|i: int| 0 <= i < encode_utf8(chars).len() implies #[trigger] encode_utf8(
            chars,
        )[i] != SEPARATOR by {
            if i < head.len() {
                assert(encode_utf8(chars)[i] == head[i]);
            } else {
                assert(encode_utf8(chars)[i] == tail[i - head.len()]);
            }
        }
    }
}

proof fn lemma_name_start_tail(front: Seq<u8>, tail: Seq<u8>)
    requires
        forall|i: int| 0 <= i < tail.len() ==> tail[i] != SEPARATOR,
        front.len() == 0 || front.last() == SEPARATOR,
    ensures
        name_start(front + tail) == front.len(),
    decreases tail.len(),
{
    let all = front + tail;
    if tail.len() == 0 {
        assert(all =~= front);
    } else {
        let less = tail.drop_last();
        assert(all.drop_last() =~= front + less);
        assert(all.last() == tail.last());
        assert forall|i: int| 0 <= i < less.len() implies less[i] != SEPARATOR by {
            assert(less[i] == tail[i]);
        }
        lemma_name_start_tail(front, less);
    }
}

/// Cutting a path at its last separator gives the same file name whether
/// the path is read as characters or as the bytes of its UTF-8 form; and
/// the file name is empty exactly where the path names no file.
pub proof fn lemma_file_name_bytes(path: Seq<char>)
    ensures
        file_name_bytes(encode_utf8(path)) == encode_utf8(file_name_of(path)),
        file_name_of(path).len() > 0 <==> names_file(path),
        file_name_bytes(encode_utf8(path)).len() > 0 <==> names_file(path),
{
    lemma_name_start_chars(path);
    let cut = name_start_chars(path);
    let front = path.take(cut);
    let tail = path.skip(cut);
    assert(path =~= front + tail);
    lemma_encode_concat(front, tail);
    lemma_encode_without_separator(tail);
    if cut > 0 {
        let before = front.drop_last();
        assert(front =~= before + seq![SEPARATOR_CHAR]);
        lemma_encode_concat(before, seq![SEPARATOR_CHAR]);
        let one = seq![SEPARATOR_CHAR];
        assert(one.drop_first() =~= Seq::<char>::empty());
        lemma_scalar_bytes(0x2f);
        assert(encode_utf8(one) =~= seq![SEPARATOR]) by {
            assert(SEPARATOR_CHAR as u32 == 0x2f);
            assert(encode_utf8(one.drop_first()) =~= Seq::<u8>::empty());
        }
        assert(encode_utf8(front).last() == SEPARATOR);
    } else {
        assert(front =~= Seq::<char>::empty());
    }
    lemma_name_start_tail(encode_utf8(front), encode_utf8(tail));
    let bytes = encode_utf8(path);
    assert(file_name_bytes(bytes) =~= encode_utf8(tail));
    if path.len() > 0 && path.last() == SEPARATOR_CHAR {
        assert(cut == path.len());
    }
    if tail.len() == 0 {
        assert(encode_utf8(tail) =~= Seq::<u8>::empty());
    }
}

/// The file name that `path` ends in. Empty where the path is empty or
/// ends in a separator.
pub fn file_name(path: &str) -> (name: &str)
    ensures
        name@ == file_name_of(path@),
        name.spec_bytes() == file_name_bytes(path.spec_bytes()),
{
    let bytes = path.as_bytes();
    let mut i: usize = bytes.len();
    proof {
        assert(bytes@.take(bytes@.len() as int) =~= bytes@);
    }
    while i > 0 && bytes[i - 1] != SEPARATOR
        invariant
            i <= bytes@.len(),
            name_start(bytes@) == name_start(bytes@.take(i as int)),
        decreases i,
    {
        proof {
            assert(bytes@.take(i as int).drop_last() =~= bytes@.take(i - 1));
        }
        i = i - 1;
    }
    proof {
        encode_utf8_valid_utf8(path@);
        if i > 0 {
            assert(bytes@.take(i as int).last() == bytes@[i - 1]);
            lemma_boundary_after_ascii(bytes@, i as int);
        }
    }
    let (_, name) = path.split_at(i);
    proof {
        lemma_file_name_bytes(path@);
        encode_utf8_decode_utf8(name@);
        encode_utf8_decode_utf8(file_name_of(path@));
    }
    name
}

/// Whether `path` names a file.
pub fn has_file_name(path: &str) -> (r: bool)
    ensures
        r == names_file(path@),
{
    let bytes = path.as_bytes();
    proof {
        lemma_file_name_bytes(path@);
        lemma_name_start(bytes@);
        if bytes@.len() > 0 && bytes@.last() == SEPARATOR {
            assert(name_start(bytes@) == bytes@.len());
        }
    }
    bytes.len() > 0 && bytes[bytes.len() - 1] != SEPARATOR
}

} // verus!
