//! Lengths and contents of texts.
use vstd::prelude::*;
use vstd::utf8::encode_utf8;

verus! {

/// The length of a text in bytes.
pub open spec fn byte_len(text: Seq<char>) -> nat {
    encode_utf8(text).len()
}

/// The length of a text in bytes.
pub fn text_len(text: &str) -> (len: usize)
    ensures
        len == byte_len(text@),
{
    text.as_bytes().len()
}

/// The pattern stands in the text at this position.
pub open spec fn stands_at(pattern: Seq<char>, text: Seq<char>, at: int) -> bool {
    &&& 0 <= at <= text.len() - pattern.len()
    &&& text.subrange(at, at + pattern.len()) == pattern
}

/// The pattern stands somewhere in the text.
pub open spec fn occurs(pattern: Seq<char>, text: Seq<char>) -> bool {
    exists|at: int| stands_at(pattern, text, at)
}

/// The characters of a text.
pub fn chars_of(text: &str) -> (chars: Vec<char>)
    ensures
        chars@ == text@,
{
    let mut chars: Vec<char> = Vec::new();
    for c in it: text.chars()
        invariant
            chars@ == text@.take(it.index()),
            it.seq() == text@,
    {
        chars.push(c);
        assert(chars@ =~= text@.take(it.index() + 1));
    }
    assert(text@.take(text@.len() as int) =~= text@);
    chars
}

fn is_standing_at(pattern: &Vec<char>, text: &Vec<char>, at: usize) -> (standing: bool)
    requires
        at + pattern@.len() <= text@.len(),
    ensures
        standing == stands_at(pattern@, text@, at as int),
{
    let mut i: usize = 0;
    while i < pattern.len()
        invariant
            at + pattern@.len() <= text.len(),
            i <= pattern@.len(),
            forall|j: int| 0 <= j < i ==> text@[at + j] == #[trigger] pattern@[j],
        decreases pattern@.len() - i,
    {
        if text[at + i] != pattern[i] {
            assert(text@.subrange(at as int, at + pattern@.len())[i as int] != pattern@[i as int]);
            return false;
        }
        i = i + 1;
    }
    assert(text@.subrange(at as int, at + pattern@.len()) =~= pattern@);
    true
}

/// Whether the pattern stands somewhere in the text.
pub fn text_contains(text: &Vec<char>, pattern: &str) -> (found: bool)
    ensures
        found == occurs(pattern@, text@),
{
    let wanted = chars_of(pattern);
    if wanted.len() > text.len() {
        return false;
    }
    let last: usize = text.len() - wanted.len();
    let mut at: usize = 0;
    loop
        invariant
            wanted@ == pattern@,
            last == text@.len() - wanted@.len(),
            at <= last,
            forall|i: int| 0 <= i < at ==> !stands_at(pattern@, text@, i),
        decreases last - at,
    {
        if is_standing_at(&wanted, text, at) {
            return true;
        }
        if at == last {
            return false;
        }
        at = at + 1;
    }
}

/// The length of two texts together is the sum of their lengths.
pub proof fn lemma_byte_len_concat(first: Seq<char>, second: Seq<char>)
    ensures
        byte_len(first + second) == byte_len(first) + byte_len(second),
    decreases first.len(),
{
    if first.len() == 0 {
        assert(first + second =~= second);
    } else {
        assert((first + second).drop_first() =~= first.drop_first() + second);
        lemma_byte_len_concat(first.drop_first(), second);
    }
}

/// A text has no more characters than bytes.
pub proof fn lemma_chars_within_bytes(text: Seq<char>)
    ensures
        text.len() <= byte_len(text),
    decreases text.len(),
{
    if text.len() > 0 {
        lemma_chars_within_bytes(text.drop_first());
    }
}

} // verus!
