//! Small text utilities shared by the other modules.

use vstd::prelude::*;

verus! {

/// `String::push` appends one character.
pub assume_specification[ String::push ](s: &mut String, ch: char)
    ensures
        final(s)@ == old(s)@.push(ch),
;

/// Two string slices compare equal exactly when they hold the same characters.
pub assume_specification[ <str as PartialEq>::eq ](a: &str, b: &str) -> (r: bool)
    ensures
        r == (a@ == b@),
;

/// The views of a sequence of strings.
pub open spec fn texts(v: Seq<String>) -> Seq<Seq<char>> {
    v.map_values(|s: String| s@)
}

/// The characters with the Unicode property `White_Space`.
pub open spec fn is_whitespace(c: char) -> bool {
    ||| ('\u{9}' <= c && c <= '\u{d}')
    ||| c == ' '
    ||| c == '\u{85}'
    ||| c == '\u{a0}'
    ||| c == '\u{1680}'
    ||| ('\u{2000}' <= c && c <= '\u{200a}')
    ||| c == '\u{2028}'
    ||| c == '\u{2029}'
    ||| c == '\u{202f}'
    ||| c == '\u{205f}'
    ||| c == '\u{3000}'
}

/// Whether `c` is white space, as `char::is_whitespace` tells it.
pub fn char_is_whitespace(c: char) -> (b: bool)
    ensures
        b == is_whitespace(c),
{
    ('\u{9}' <= c && c <= '\u{d}') || c == ' ' || c == '\u{85}' || c == '\u{a0}' || c
        == '\u{1680}' || ('\u{2000}' <= c && c <= '\u{200a}') || c == '\u{2028}' || c
        == '\u{2029}' || c == '\u{202f}' || c == '\u{205f}' || c == '\u{3000}'
}

/// `cur` as a one-word sequence, or nothing when it is empty.
pub open spec fn closed_word(cur: Seq<char>) -> Seq<Seq<char>> {
    if cur.len() == 0 {
        Seq::empty()
    } else {
        seq![cur]
    }
}

/// The words of `s`, read left to right while `cur` holds the word in progress.
pub open spec fn words_from(s: Seq<char>, cur: Seq<char>) -> Seq<Seq<char>>
    decreases s.len(),
{
    if s.len() == 0 {
        closed_word(cur)
    } else if is_whitespace(s[0]) {
        closed_word(cur) + words_from(s.drop_first(), Seq::empty())
    } else {
        words_from(s.drop_first(), cur.push(s[0]))
    }
}

/// The maximal runs of characters of `s` that hold no white space, in order.
pub open spec fn words(s: Seq<char>) -> Seq<Seq<char>> {
    words_from(s, Seq::empty())
}

/// A word: not empty, and free of white space.
pub open spec fn is_word(w: Seq<char>) -> bool {
    w.len() > 0 && forall|j: int| 0 <= j < w.len() ==> !is_whitespace(#[trigger] w[j])
}

/// Every element of `words_from(s, cur)` is a word, provided `cur` holds no white space.
pub proof fn lemma_words_from_are_words(s: Seq<char>, cur: Seq<char>)
    requires
        forall|j: int| 0 <= j < cur.len() ==> !is_whitespace(#[trigger] cur[j]),
    ensures
        forall|k: int|
            0 <= k < words_from(s, cur).len() ==> is_word(#[trigger] words_from(s, cur)[k]),
    decreases s.len(),
{
    let all = words_from(s, cur);
    if s.len() == 0 {
        assert forall|k: int| 0 <= k < all.len() implies is_word(#[trigger] all[k]) by {
            assert(all[k] == cur);
        }
    } else if is_whitespace(s[0]) {
        let rest = words_from(s.drop_first(), Seq::empty());
        lemma_words_from_are_words(s.drop_first(), Seq::empty());
        assert forall|k: int| 0 <= k < all.len() implies is_word(#[trigger] all[k]) by {
            if k < closed_word(cur).len() {
                assert(all[k] == cur);
            } else {
                assert(all[k] == rest[k - closed_word(cur).len()]);
            }
        }
    } else {
        let next = cur.push(s[0]);
        assert forall|j: int| 0 <= j < next.len() implies !is_whitespace(#[trigger] next[j]) by {
            if j < cur.len() {
                assert(next[j] == cur[j]);
            }
        }
        lemma_words_from_are_words(s.drop_first(), next);
        assert(all == words_from(s.drop_first(), next));
    }
}

/// Pushing a string onto a vector appends its view to the vector's texts.
proof fn lemma_texts_push(v: Seq<String>, s: String)
    ensures
        texts(v.push(s)) == texts(v) + seq![s@],
{
    assert(texts(v.push(s)) =~= texts(v) + seq![s@]);
}

/// Splits `s` at white space, as `str::split_whitespace` does: no word is
/// empty, none holds white space, and nothing else of `s` is dropped.
pub fn split_whitespace(s: &str) -> (out: Vec<String>)
    ensures
        texts(out@) == words(s@),
        forall|k: int| 0 <= k < out@.len() ==> is_word(#[trigger] out@[k]@),
{
    let mut out: Vec<String> = Vec::new();
    let mut cur = String::new();
    let mut in_word = false;
    proof {
        assert(s@.skip(0) == s@);
        assert(texts(out@) + words(s@) == words(s@));
    }
    for c in it: s.chars()
        invariant
            it.seq() == s@,
            words(s@) == texts(out@) + words_from(s@.skip(it.index()), cur@),
            in_word == (cur@.len() > 0),
    {
        let ghost rest = s@.skip(it.index());
        let ghost done = texts(out@);
        let ghost word = cur@;
        assert(rest.len() > 0 && rest[0] == c);
        assert(rest.drop_first() == s@.skip(it.index() + 1));
        if char_is_whitespace(c) {
            let ghost tail = words_from(rest.drop_first(), Seq::empty());
            assert(words_from(rest, word) == closed_word(word) + tail);
            if in_word {
                proof {
                    lemma_texts_push(out@, cur);
                }
                out.push(cur);
                cur = String::new();
                in_word = false;
            } else {
                assert(word == Seq::<char>::empty());
            }
            assert(done + (closed_word(word) + tail) == texts(out@) + tail);
        } else {
            assert(words_from(rest, word) == words_from(rest.drop_first(), word.push(c)));
            cur.push(c);
            in_word = true;
        }
    }
    assert(s@.skip(s@.len() as int).len() == 0);
    if in_word {
        proof {
            lemma_texts_push(out@, cur);
        }
        out.push(cur);
    } else {
        assert(texts(out@) + Seq::<Seq<char>>::empty() == texts(out@));
    }
    proof {
        lemma_words_from_are_words(s@, Seq::empty());
        assert forall|k: int| 0 <= k < out@.len() implies is_word(#[trigger] out@[k]@) by {
            assert(texts(out@)[k] == out@[k]@);
        }
    }
    out
}

} // verus!
