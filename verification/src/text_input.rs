//! A single-line text field with a character-based cursor, and the byte /
//! character index conversions that keep slicing on character boundaries.
use vstd::prelude::*;
use vstd::string::*;
use vstd::utf8::*;
use crate::text::{push_char, chars_of};

verus! {

/// Number of bytes in the UTF-8 encoding of `chars`.
pub open spec fn utf8_len(chars: Seq<char>) -> nat {
    encode_utf8(chars).len()
}

/// Encoding distributes over concatenation.
pub proof fn lemma_encode_utf8_append(a: Seq<char>, b: Seq<char>)
    ensures
        encode_utf8(a + b) == encode_utf8(a) + encode_utf8(b),
    decreases a.len(),
{
    if a.len() == 0 {
        assert(a + b =~= b);
    } else {
        assert((a + b).drop_first() =~= a.drop_first() + b);
        assert((a + b)[0] == a[0]);
        lemma_encode_utf8_append(a.drop_first(), b);
        assert(encode_utf8(a + b) =~= encode_utf8(a) + encode_utf8(b));
    }
}

/// Encoding the first `i + 1` characters adds the encoding of character `i`.
proof fn lemma_utf8_len_take_step(s: Seq<char>, i: int)
    requires
        0 <= i < s.len(),
    ensures
        utf8_len(s.take(i + 1)) == utf8_len(s.take(i)) + encode_scalar(s[i] as u32).len(),
        utf8_len(s.take(i + 1)) <= utf8_len(s),
{
    assert(s.take(i + 1) =~= s.take(i) + seq![s[i]]);
    lemma_encode_utf8_append(s.take(i), seq![s[i]]);
    assert(seq![s[i]].drop_first() =~= Seq::<char>::empty());
    assert(encode_utf8(seq![s[i]]) =~= encode_scalar(s[i] as u32)) by {
        reveal_with_fuel(encode_utf8, 2);
    }
    assert(s =~= s.take(i + 1) + s.skip(i + 1));
    lemma_encode_utf8_append(s.take(i + 1), s.skip(i + 1));
}

/// Width in bytes of the UTF-8 encoding of `c`.
pub fn char_utf8_width(c: char) -> (w: usize)
    ensures
        w == encode_scalar(c as u32).len(),
        1 <= w <= 4,
{
    proof {
        char_is_scalar(c);
    }
    let v = c as u32;
    if v <= 0x7F {
        1
    } else if v <= 0x7FF {
        2
    } else if v <= 0xFFFF {
        3
    } else {
        4
    }
}

/// Byte offset of character `char_idx` in `input`; the byte length when the
/// index is at or past the last character.
pub fn byte_index_for_char(input: &str, char_idx: usize) -> (b: usize)
    ensures
        b == utf8_len(input@.take(if char_idx < input@.len() { char_idx as int } else { input@.len() as int })),
{
    let n = input.unicode_len();
    let stop = if char_idx < n { char_idx } else { n };
    let total = input.as_bytes().len();
    let mut acc: usize = 0;
    let mut i: usize = 0;
    proof {
        assert(input@.take(0) =~= Seq::<char>::empty());
        assert(input@.take(n as int) =~= input@);
    }
    while i < stop
        invariant
            n == input@.len(),
            stop <= n,
            i <= stop,
            total == utf8_len(input@),
            acc == utf8_len(input@.take(i as int)),
        decreases stop - i,
    {
        let c = input.get_char(i);
        proof {
            lemma_utf8_len_take_step(input@, i as int);
        }
        acc = acc + char_utf8_width(c);
        i += 1;
    }
    acc
}

/// `idx` is the greatest character boundary of `bytes` at or below `limit`.
pub open spec fn is_floor_boundary(bytes: Seq<u8>, limit: int, idx: int) -> bool {
    &&& 0 <= idx <= limit
    &&& is_char_boundary(bytes, idx)
    &&& forall|j: int| idx < j <= limit ==> !is_char_boundary(bytes, j)
}

/// In valid UTF-8 every position has a character boundary less than four
/// bytes before it (or at it): no character takes more than four bytes.
proof fn lemma_boundary_within_four(bytes: Seq<u8>, j: int)
    requires
        valid_utf8(bytes),
        0 <= j <= bytes.len(),
    ensures
        exists|b: int| j - 4 < b <= j && is_char_boundary(bytes, b),
    decreases bytes.len(),
{
    if j == 0 || j < length_of_first_scalar(bytes) {
        assert(is_char_boundary(bytes, 0));
    } else {
        let l = length_of_first_scalar(bytes);
        let tail = pop_first_scalar(bytes);
        assert(1 <= l <= 4 && l <= bytes.len());
        assert(tail.len() == bytes.len() - l);
        lemma_boundary_within_four(tail, j - l);
        let b = choose|b: int| j - l - 4 < b <= j - l && is_char_boundary(tail, b);
        assert(b >= 0);
        assert(is_char_boundary(bytes, b + l));
    }
}

/// Greatest character boundary at or below `idx` (clamped to the byte length),
/// so that slicing `text[..result]` never splits a character.
pub fn floor_char_boundary(text: &str, idx: usize) -> (b: usize)
    ensures
        is_floor_boundary(text.spec_bytes(), if idx < text.spec_bytes().len() { idx as int } else { text.spec_bytes().len() as int }, b as int),
        (if idx < text.spec_bytes().len() { idx as int } else { text.spec_bytes().len() as int }) - b < 4,
{
    proof {
        encode_utf8_valid_utf8(text@);
    }
    let len = text.as_bytes().len();
    let limit = if idx < len { idx } else { len };
    let mut i = limit;
    while i > 0 && !text.is_char_boundary(i)
        invariant
            len == text.spec_bytes().len(),
            valid_utf8(text.spec_bytes()),
            limit <= len,
            i <= limit,
            forall|j: int| i < j <= limit ==> !is_char_boundary(text.spec_bytes(), j),
        decreases i,
    {
        i -= 1;
    }
    proof {
        if i == 0 {
            assert(is_char_boundary(text.spec_bytes(), 0));
        }
        lemma_boundary_within_four(text.spec_bytes(), limit as int);
        let b0 = choose|b: int| limit - 4 < b <= limit && is_char_boundary(text.spec_bytes(), b);
        assert(b0 <= i);
    }
    i
}

/// Appends every character of `t` to `s`.
pub fn push_str(s: &mut String, t: &str)
    ensures
        final(s)@ == old(s)@ + t@,
{
    let chars = chars_of(t);
    let mut i: usize = 0;
    while i < chars.len()
        invariant
            chars@ == t@,
            i <= chars@.len(),
            s@ == old(s)@ + t@.take(i as int),
        decreases chars@.len() - i,
    {
        push_char(s, chars[i]);
        assert(s@ =~= old(s)@ + t@.take(i as int + 1));
        i += 1;
    }
    assert(t@.take(i as int) =~= t@);
}

/// `s` with `c` inserted before position `p`.
pub open spec fn insert_at(s: Seq<char>, p: int, c: char) -> Seq<char> {
    s.take(p).push(c) + s.skip(p)
}

/// `s` without the character at position `p`.
pub open spec fn remove_at(s: Seq<char>, p: int) -> Seq<char> {
    s.take(p) + s.skip(p + 1)
}

/// A single-line text input with a cursor counted in characters.
#[derive(Clone, Debug)]
pub struct TextInput {
    /// Current text value.
    pub value: String,
    /// Cursor position measured in characters from the start.
    pub cursor_chars: usize,
}

impl Default for TextInput {
    fn default() -> (r: Self)
        ensures
            r.value@ == Seq::<char>::empty(),
            r.cursor_chars == 0,
    {
        TextInput { value: String::new(), cursor_chars: 0 }
    }
}

impl TextInput {
    /// The cursor clamped to the text length.
    pub open spec fn clamped_cursor(self) -> int {
        if self.cursor_chars <= self.value@.len() { self.cursor_chars as int } else { self.value@.len() as int }
    }

    /// `after` is `self` with `ch` typed at the cursor.
    pub open spec fn typed(self, after: Self, ch: char) -> bool {
        &&& after.value@ == insert_at(self.value@, self.clamped_cursor(), ch)
        &&& after.cursor_chars == self.cursor_chars + 1
    }

    /// `after` is `self` after a backspace.
    pub open spec fn backspaced(self, after: Self) -> bool {
        &&& self.cursor_chars == 0 ==> after.value == self.value && after.cursor_chars == 0
        &&& self.cursor_chars > 0 ==> after.cursor_chars == self.cursor_chars - 1
        &&& self.cursor_chars > 0 && self.cursor_chars <= self.value@.len() ==> after.value@ == remove_at(self.value@, self.cursor_chars - 1)
        &&& self.cursor_chars > self.value@.len() ==> after.value@ == self.value@
    }

    /// `after` is `self` with the cursor moved one character left.
    pub open spec fn moved_left(self, after: Self) -> bool {
        &&& after.value == self.value
        &&& after.cursor_chars == if self.cursor_chars > 0 { self.cursor_chars - 1 } else { 0 }
    }

    /// `after` is `self` with the cursor moved one character right.
    pub open spec fn moved_right(self, after: Self) -> bool {
        &&& after.value == self.value
        &&& after.cursor_chars == if self.clamped_cursor() < self.value@.len() {
            self.clamped_cursor() + 1
        } else {
            self.clamped_cursor()
        }
    }

    /// An input holding `value` with the cursor after its last character.
    pub fn new(value: String) -> (r: Self)
        ensures
            r.value == value,
            r.cursor_chars == value@.len(),
    {
        let cursor_chars = value.as_str().unicode_len();
        TextInput { value, cursor_chars }
    }

    /// Pull a cursor that sits past the end back onto the end.
    pub fn clamp_cursor(&mut self)
        ensures
            final(self).value == old(self).value,
            final(self).cursor_chars == old(self).clamped_cursor(),
    {
        let total = self.value.as_str().unicode_len();
        if self.cursor_chars > total {
            self.cursor_chars = total;
        }
    }

    /// Insert `ch` at the cursor (at the end when the cursor is past it) and
    /// advance the cursor by one character.
    pub fn insert_char(&mut self, ch: char)
        requires
            old(self).cursor_chars < usize::MAX,
        ensures
            old(self).typed(*final(self), ch),
    {
        let total = self.value.as_str().unicode_len();
        let p = if self.cursor_chars < total { self.cursor_chars } else { total };
        let prefix = self.value.as_str().substring_char(0, p);
        let suffix = self.value.as_str().substring_char(p, total);
        let mut out = prefix.to_owned();
        push_char(&mut out, ch);
        push_str(&mut out, suffix);
        proof {
            assert(out@ =~= insert_at(self.value@, p as int, ch));
        }
        self.value = out;
        self.cursor_chars = self.cursor_chars + 1;
    }

    /// Delete the character before the cursor and move the cursor back one.
    /// No-op at the start.
    pub fn backspace(&mut self)
        ensures
            old(self).backspaced(*final(self)),
    {
        if self.cursor_chars == 0 {
            return;
        }
        let total = self.value.as_str().unicode_len();
        if self.cursor_chars <= total {
            let c = self.cursor_chars;
            let prefix = self.value.as_str().substring_char(0, c - 1);
            let suffix = self.value.as_str().substring_char(c, total);
            let mut out = prefix.to_owned();
            push_str(&mut out, suffix);
            proof {
                assert(out@ =~= remove_at(self.value@, c - 1));
            }
            self.value = out;
        }
        self.cursor_chars = self.cursor_chars - 1;
    }

    /// Move the cursor one character left, stopping at the start.
    pub fn move_left(&mut self)
        ensures
            old(self).moved_left(*final(self)),
    {
        if self.cursor_chars > 0 {
            self.cursor_chars = self.cursor_chars - 1;
        }
    }

    /// Move the cursor one character right, stopping at the end.
    pub fn move_right(&mut self)
        ensures
            old(self).moved_right(*final(self)),
    {
        self.clamp_cursor();
        let total = self.value.as_str().unicode_len();
        if self.cursor_chars < total {
            self.cursor_chars = self.cursor_chars + 1;
        }
    }
}

/// Typing a character and then deleting it restores the text and cursor
/// (for a cursor within the text).
pub proof fn lemma_insert_then_remove(s: Seq<char>, p: int, c: char)
    requires
        0 <= p <= s.len(),
    ensures
        remove_at(insert_at(s, p, c), p) == s,
        insert_at(s, p, c).len() == s.len() + 1,
{
    assert(remove_at(insert_at(s, p, c), p) =~= s);
}

/// Typing a character into an input and pressing backspace gives back the
/// input's text and cursor, for a cursor within the text.
pub proof fn lemma_type_then_backspace(a: TextInput, b: TextInput, c: TextInput, ch: char)
    requires
        a.cursor_chars <= a.value@.len(),
        a.typed(b, ch),
        b.backspaced(c),
    ensures
        c.value@ == a.value@,
        c.cursor_chars == a.cursor_chars,
{
    lemma_insert_then_remove(a.value@, a.cursor_chars as int, ch);
}

} // verus!
