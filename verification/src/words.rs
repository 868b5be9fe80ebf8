//! Counting the words of a text.
//!
//! A word is a maximal run of characters that are not white space. The number
//! of words is therefore the number of positions at which such a run begins.

use vstd::prelude::*;

verus! {

/// Whether `c` is white space: the code points with the Unicode property
/// `White_Space`.
pub open spec fn is_space(c: char) -> bool {
    let n = c as u32;
    ||| 0x09 <= n <= 0x0D
    ||| n == 0x20
    ||| n == 0x85
    ||| n == 0xA0
    ||| n == 0x1680
    ||| 0x2000 <= n <= 0x200A
    ||| n == 0x2028
    ||| n == 0x2029
    ||| n == 0x202F
    ||| n == 0x205F
    ||| n == 0x3000
}

/// Whether a word begins at index `i` of `s`: the character there is not
/// white space, and it is the first one or follows white space.
pub open spec fn word_starts_at(s: Seq<char>, i: int) -> bool {
    &&& 0 <= i < s.len()
    &&& !is_space(s[i])
    &&& (i == 0 || is_space(s[i - 1]))
}

/// The positions of `s` at which a word begins.
pub open spec fn word_starts(s: Seq<char>) -> Set<int> {
    Set::new(|i: int| word_starts_at(s, i))
}

/// The number of words in `s`.
pub open spec fn count_words(s: Seq<char>) -> nat {
    word_starts(s).len()
}

/// Whether appending `c` to `s` begins a new word.
pub open spec fn opens_word(s: Seq<char>, c: char) -> bool {
    !is_space(c) && (s.len() == 0 || is_space(s.last()))
}

/// The word starts of a text lie among its indices, so they are finitely many.
pub proof fn lemma_word_starts_finite(s: Seq<char>)
    ensures
        word_starts(s).finite(),
        word_starts(s).len() <= s.len(),
{
    let all = Set::new(|i: int| 0 <= i < s.len());
    vstd::set_lib::lemma_int_range(0, s.len() as int);
    assert(all =~= vstd::set_lib::set_int_range(0, s.len() as int));
    assert(word_starts(s).subset_of(all));
    vstd::set_lib::lemma_len_subset(word_starts(s), all);
}

/// Appending one character adds one word exactly when it begins one.
pub proof fn lemma_count_words_push(s: Seq<char>, c: char)
    ensures
        count_words(s.push(c)) == count_words(s) + if opens_word(s, c) {
            1nat
        } else {
            0nat
        },
{
    let t = s.push(c);
    lemma_word_starts_finite(s);
    assert forall|i: int| i != s.len() implies (word_starts_at(t, i) <==> word_starts_at(s, i)) by {
        if 0 <= i < s.len() {
            assert(t[i] == s[i]);
            if i > 0 {
                assert(t[i - 1] == s[i - 1]);
            }
        }
    }
    assert(!word_starts_at(s, s.len() as int));
    assert(word_starts_at(t, s.len() as int) <==> opens_word(s, c)) by {
        assert(t[s.len() as int] == c);
        if s.len() > 0 {
            assert(t[s.len() - 1] == s.last());
        }
    }
    if opens_word(s, c) {
        assert(word_starts(t) =~= word_starts(s).insert(s.len() as int));
    } else {
        assert(word_starts(t) =~= word_starts(s));
    }
}

/// The empty text has no words.
pub proof fn lemma_count_words_empty()
    ensures
        count_words(Seq::<char>::empty()) == 0,
{
    assert(word_starts(Seq::<char>::empty()) =~= Set::<int>::empty());
}

/// A text of white space only has no words.
pub proof fn lemma_only_space_no_words(s: Seq<char>)
    requires
        forall|i: int| 0 <= i < s.len() ==> is_space(#[trigger] s[i]),
    ensures
        count_words(s) == 0,
{
    assert(word_starts(s) =~= Set::<int>::empty());
}

/// A text without white space that is not empty is one word.
pub proof fn lemma_no_space_one_word(s: Seq<char>)
    requires
        s.len() > 0,
        forall|i: int| 0 <= i < s.len() ==> !is_space(#[trigger] s[i]),
    ensures
        count_words(s) == 1,
{
    assert(word_starts_at(s, 0));
    assert forall|i: int| word_starts_at(s, i) implies i == 0 by {
        if i > 0 {
            assert(!is_space(s[i - 1]));
        }
    }
    assert(word_starts(s) =~= set![0int]);
}

/// Words on either side of a white-space character are counted separately:
/// the count of the whole is the sum of the counts of the two parts.
pub proof fn lemma_count_words_split(a: Seq<char>, c: char, b: Seq<char>)
    requires
        is_space(c),
    ensures
        count_words(a.push(c) + b) == count_words(a) + count_words(b),
    decreases b.len(),
{
    if b.len() == 0 {
        assert(a.push(c) + b =~= a.push(c));
        lemma_count_words_push(a, c);
        lemma_count_words_empty();
        assert(b =~= Seq::<char>::empty());
    } else {
        let front = b.drop_last();
        let x = b.last();
        lemma_count_words_split(a, c, front);
        assert(b =~= front.push(x));
        assert(a.push(c) + b =~= (a.push(c) + front).push(x));
        lemma_count_words_push(a.push(c) + front, x);
        lemma_count_words_push(front, x);
        if front.len() == 0 {
            assert((a.push(c) + front).last() == c);
        } else {
            assert((a.push(c) + front).last() == front.last());
        }
    }
}

/// White space in front of a text does not change its word count.
pub proof fn lemma_leading_space_ignored(c: char, s: Seq<char>)
    requires
        is_space(c),
    ensures
        count_words(seq![c] + s) == count_words(s),
{
    let none = Seq::<char>::empty();
    lemma_count_words_split(none, c, s);
    lemma_count_words_empty();
    assert(none.push(c) =~= seq![c]);
}

/// White space behind a text does not change its word count.
pub proof fn lemma_trailing_space_ignored(s: Seq<char>, c: char)
    requires
        is_space(c),
    ensures
        count_words(s.push(c)) == count_words(s),
{
    lemma_count_words_push(s, c);
}

/// White space next to white space does not change the word count: one
/// separator between two parts of a text counts like two.
pub proof fn lemma_repeated_space_ignored(a: Seq<char>, c: char, d: char, b: Seq<char>)
    requires
        is_space(c),
        is_space(d),
    ensures
        count_words(a.push(c).push(d) + b) == count_words(a.push(c) + b),
{
    lemma_count_words_split(a.push(c), d, b);
    lemma_count_words_split(a, c, b);
    lemma_count_words_push(a, c);
}

/// Tells whether `c` is white space.
pub fn is_whitespace(c: char) -> (b: bool)
    ensures
        b == is_space(c),
{
    let n: u32 = c as u32;
    (0x09 <= n && n <= 0x0D) || n == 0x20 || n == 0x85 || n == 0xA0 || n == 0x1680 || (0x2000 <= n
        && n <= 0x200A) || n == 0x2028 || n == 0x2029 || n == 0x202F || n == 0x205F || n == 0x3000
}

/// Counts the words of `text` in eight bits: the count wraps around at 256.
pub fn word_count(text: &str) -> (n: u8)
    ensures
        n as nat == count_words(text@) % 256,
{
    let mut n: u8 = 0;
    let mut after_space = true;
    proof {
        lemma_count_words_empty();
        assert(text@.take(0) =~= Seq::<char>::empty());
    }
    for c in it: text.chars()
        invariant
            it.seq() == text@,
            n as nat == count_words(text@.take(it.index())) % 256,
            after_space <==> (it.index() == 0 || is_space(text@[it.index() - 1])),
    {
        let space = is_whitespace(c);
        proof {
            let i = it.index();
            let seen = text@.take(i);
            assert(text@.take(i + 1) =~= seen.push(c));
            lemma_count_words_push(seen, c);
            if i > 0 {
                assert(seen.last() == text@[i - 1]);
            }
        }
        if !space && after_space {
            n = if n == 255 {
                0
            } else {
                n + 1
            };
        }
        after_space = space;
    }
    assert(text@.take(text@.len() as int) =~= text@);
    n
}

} // verus!
