//! Text as sequences of characters: the helpers that the lexer and the value
//! model share.

use vstd::prelude::*;
use vstd::std_specs::iter::IteratorSpec;

verus! {

/// `String::push` appends one character to the end of the string.
pub assume_specification[ std::string::String::push ](text: &mut std::string::String, ch: char)
    ensures
        final(text)@ == old(text)@.push(ch),
;

/// `needle` stands in `hay` at position `at`.
pub open spec fn occurs_at(hay: Seq<char>, needle: Seq<char>, at: int) -> bool {
    &&& 0 <= at
    &&& at + needle.len() <= hay.len()
    &&& hay.subrange(at, at + needle.len()) == needle
}

/// `needle` stands somewhere in `hay`.
pub open spec fn occurs(hay: Seq<char>, needle: Seq<char>) -> bool {
    exists|at: int| occurs_at(hay, needle, at)
}

/// The characters of `text`, in order.
pub fn chars_of(text: &str) -> (chars: Vec<char>)
    ensures
        chars@ == text@,
{
    let mut chars: Vec<char> = Vec::new();
    for c in it: text.chars()
        invariant
            it.seq() == text@,
            chars@ == text@.take(it.index() as int),
    {
        chars.push(c);
        assert(text@.take(it.index() + 1) =~= text@.take(it.index() as int).push(c));
    }
    assert(text@.take(text@.len() as int) =~= text@);
    chars
}

/// The characters of `chars` from `from` up to `to`, as a string.
pub fn text_of(chars: &Vec<char>, from: usize, to: usize) -> (text: String)
    requires
        from <= to <= chars@.len(),
    ensures
        text@ == chars@.subrange(from as int, to as int),
{
    let mut text = String::new();
    let mut at: usize = from;
    while at < to
        invariant
            from <= at <= to <= chars@.len(),
            text@ == chars@.subrange(from as int, at as int),
        decreases to - at,
    {
        text.push(chars[at]);
        assert(chars@.subrange(from as int, at + 1) =~= chars@.subrange(
            from as int,
            at as int,
        ).push(chars@[at as int]));
        at = at + 1;
    }
    text
}

/// `text` read from its last character to its first.
pub fn reversed(text: &str) -> (turned: String)
    ensures
        turned@ == text@.reverse(),
{
    let chars = chars_of(text);
    let mut turned = String::new();
    let mut left: usize = chars.len();
    while left > 0
        invariant
            left <= chars@.len(),
            turned@.len() == chars@.len() - left,
            forall|i: int| 0 <= i < turned@.len() ==> turned@[i] == chars@[chars@.len() - 1 - i],
        decreases left,
    {
        left = left - 1;
        turned.push(chars[left]);
    }
    assert(turned@ =~= text@.reverse());
    turned
}

/// Whether `word` holds exactly the characters of `literal`.
pub fn is_word(word: &Vec<char>, literal: &str) -> (same: bool)
    ensures
        same == (word@ == literal@),
{
    let other = chars_of(literal);
    if other.len() != word.len() {
        return false;
    }
    let mut at: usize = 0;
    while at < word.len()
        invariant
            at <= word@.len(),
            other@.len() == word@.len(),
            other@ == literal@,
            forall|i: int| 0 <= i < at ==> word@[i] == other@[i],
        decreases word@.len() - at,
    {
        if word[at] != other[at] {
            return false;
        }
        at = at + 1;
    }
    assert(word@ =~= other@);
    true
}

/// Whether `needle` stands in `hay` at position `at`.
pub fn stands_at(hay: &Vec<char>, needle: &Vec<char>, at: usize) -> (found: bool)
    ensures
        found == occurs_at(hay@, needle@, at as int),
{
    if needle.len() > hay.len() || at > hay.len() - needle.len() {
        return false;
    }
    let mut k: usize = 0;
    while k < needle.len()
        invariant
            k <= needle@.len(),
            at + needle@.len() <= hay@.len() <= usize::MAX,
            forall|i: int| 0 <= i < k ==> hay@[at + i] == needle@[i],
        decreases needle@.len() - k,
    {
        if hay[at + k] != needle[k] {
            assert(hay@.subrange(at as int, at + needle@.len())[k as int] != needle@[k as int]);
            return false;
        }
        k = k + 1;
    }
    assert(hay@.subrange(at as int, at + needle@.len()) =~= needle@);
    true
}

/// Whether `needle` stands somewhere in `hay`.
pub fn contains(hay: &Vec<char>, needle: &str) -> (found: bool)
    ensures
        found == occurs(hay@, needle@),
{
    let wanted = chars_of(needle);
    if wanted.len() > hay.len() {
        return false;
    }
    if wanted.len() == 0 {
        assert(hay@.subrange(0, 0) =~= wanted@);
        assert(occurs_at(hay@, wanted@, 0));
        return true;
    }
    let last: usize = hay.len() - wanted.len();
    let mut at: usize = 0;
    while at <= last
        invariant
            at <= last + 1,
            last < usize::MAX,
            last == hay@.len() - wanted@.len(),
            wanted@ == needle@,
            forall|i: int| 0 <= i < at ==> !occurs_at(hay@, wanted@, i),
        decreases last + 1 - at,
    {
        if stands_at(hay, &wanted, at) {
            return true;
        }
        at = at + 1;
    }
    false
}

} // verus!
