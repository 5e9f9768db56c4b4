//! The immutable dictionary of candidate words, and the filter over it.
//!
//! A [`ValidWords`] value holds a fixed list of five-letter words, validated
//! once at construction and never mutated afterwards. [`ValidWords::filter`]
//! returns, in dictionary order, the first words consistent with a grid's
//! constraints.

use vstd::prelude::*;

use crate::grid::spec_matches;
use crate::grid::Filter;
use crate::grid::GridCell;

verus! {

/// A dictionary word is exactly five ASCII lowercase letters.
pub open spec fn valid_word(w: Seq<char>) -> bool {
    w.len() == 5 && forall|i: int| 0 <= i < 5 ==> is_lowercase_letter(#[trigger] w[i])
}

/// Is the character an ASCII lowercase letter?
pub open spec fn is_lowercase_letter(c: char) -> bool {
    'a' <= c <= 'z'
}

/// The subsequence of `words`, in order, whose elements are consistent with
/// the grid `g`.
pub open spec fn matches_of(g: Seq<GridCell>, words: Seq<Seq<char>>) -> Seq<Seq<char>>
    decreases words.len(),
{
    if words.len() == 0 {
        Seq::empty()
    } else if spec_matches(g, words.last()) {
        matches_of(g, words.drop_last()).push(words.last())
    } else {
        matches_of(g, words.drop_last())
    }
}

/// The first `n` elements of `s`, or all of `s` where it holds fewer.
pub open spec fn first_n(s: Seq<Seq<char>>, n: int) -> Seq<Seq<char>> {
    if n <= s.len() {
        s.take(n)
    } else {
        s
    }
}

/// The fixed dictionary: a list of validated five-letter words.
pub struct ValidWords {
    words: Vec<Vec<char>>,
}

impl View for ValidWords {
    type V = Seq<Seq<char>>;

    closed spec fn view(&self) -> Seq<Seq<char>> {
        self.words@.map_values(|w: Vec<char>| w@)
    }
}

impl ValidWords {
    /// Every entry of the dictionary is a valid five-letter word.
    pub open spec fn wf(&self) -> bool {
        forall|i: int| 0 <= i < self@.len() ==> valid_word(#[trigger] self@[i])
    }

    /// Build the dictionary from a word list, validating every entry; the
    /// construction fails exactly where some entry is not a five-letter
    /// lowercase word.
    pub fn new(words: Vec<Vec<char>>) -> (r: Option<ValidWords>)
        ensures
            match r {
                Some(d) => d@ == words@.map_values(|w: Vec<char>| w@) && d.wf(),
                None => exists|i: int| 0 <= i < words@.len() && !valid_word(words@[i]@),
            },
    {
        let n: usize = words.len();
        let mut i: usize = 0;
        while i < n
            invariant
                n == words@.len(),
                i <= n,
                forall|j: int| 0 <= j < i ==> valid_word(#[trigger] words@[j]@),
            decreases n - i,
        {
            if !check_word(&words[i]) {
                return None;
            }
            i += 1;
        }
        let d = ValidWords { words };
        assert forall|i: int| 0 <= i < d@.len() implies valid_word(#[trigger] d@[i]) by {
            assert(d@[i] == d.words@[i]@);
        }
        Some(d)
    }

    /// The number of words in the dictionary.
    pub fn len(&self) -> (r: usize)
        ensures
            r == self@.len(),
    {
        self.words.len()
    }

    /// The first `limit` dictionary words, in dictionary order, that are
    /// consistent with the grid's constraints.
    pub fn filter(&self, filter: &Filter, limit: usize) -> (r: Vec<String>)
        requires
            self.wf(),
            filter.wf(),
        ensures
            r@.len() == first_n(matches_of(filter@, self@), limit as int).len(),
            forall|i: int|
                0 <= i < r@.len() ==> r@[i]@ == first_n(matches_of(filter@, self@), limit as int)[i],
    {
        let ghost g = filter@;
        let ghost all = self@;
        let mut out: Vec<String> = Vec::new();
        let n: usize = self.words.len();
        let mut i: usize = 0;
        while i < n
            invariant
                self.wf(),
                filter.wf(),
                g == filter@,
                all == self@,
                n == all.len(),
                i <= n,
                out@.len() == first_n(matches_of(g, all.take(i as int)), limit as int).len(),
                forall|j: int|
                    0 <= j < out@.len() ==> out@[j]@ == first_n(
                        matches_of(g, all.take(i as int)),
                        limit as int,
                    )[j],
            decreases n - i,
        {
            let ghost pre = all.take(i as int);
            let ghost post = all.take(i as int + 1);
            proof {
                assert(post.drop_last() =~= pre);
                assert(post.last() == all[i as int]);
                assert(all[i as int] == self.words@[i as int]@);
            }
            let word = &self.words[i];
            if out.len() < limit && filter.matches(word) {
                out.push(word_to_string(word));
                proof {
                    assert(matches_of(g, post) == matches_of(g, pre).push(word@));
                }
            }
            proof {
                if !spec_matches(g, word@) {
                    assert(matches_of(g, post) == matches_of(g, pre));
                } else if matches_of(g, pre).len() >= limit as int {
                    assert(matches_of(g, post) == matches_of(g, pre).push(word@));
                    assert(first_n(matches_of(g, post), limit as int) =~= first_n(
                        matches_of(g, pre),
                        limit as int,
                    ));
                }
            }
            i += 1;
        }
        proof {
            assert(all.take(n as int) =~= all);
        }
        out
    }
}

/// Check one candidate entry for the dictionary.
fn check_word(w: &Vec<char>) -> (r: bool)
    ensures
        r == valid_word(w@),
{
    if w.len() != 5 {
        return false;
    }
    let mut i: usize = 0;
    while i < 5
        invariant
            w@.len() == 5,
            i <= 5,
            forall|j: int| 0 <= j < i ==> is_lowercase_letter(#[trigger] w@[j]),
        decreases 5 - i,
    {
        let c = w[i];
        if c < 'a' || c > 'z' {
            return false;
        }
        i += 1;
    }
    true
}

/// Relies on `String::push`: appends the character to the end of the string.
#[verifier::external_body]
fn push_char(s: &mut String, c: char)
    ensures
        final(s)@ == old(s)@.push(c),
{
    s.push(c);
}

/// Copy a word into an owned `String` with the same characters.
fn word_to_string(w: &Vec<char>) -> (r: String)
    ensures
        r@ == w@,
{
    let mut s = String::new();
    let mut i: usize = 0;
    while i < w.len()
        invariant
            i <= w@.len(),
            s@ == w@.take(i as int),
        decreases w@.len() - i,
    {
        push_char(&mut s, w[i]);
        proof {
            assert(w@.take(i as int + 1) =~= w@.take(i as int).push(w@[i as int]));
        }
        i += 1;
    }
    proof {
        assert(w@.take(w@.len() as int) =~= w@);
    }
    s
}

/// Every filtered word is consistent with the grid and comes from the word
/// list: the filter keeps nothing that fails `spec_matches` and invents
/// nothing.
pub proof fn lemma_matches_of_sound(g: Seq<GridCell>, words: Seq<Seq<char>>)
    ensures
        matches_of(g, words).len() <= words.len(),
        forall|i: int|
            0 <= i < matches_of(g, words).len() ==> spec_matches(
                g,
                #[trigger] matches_of(g, words)[i],
            ) && words.contains(matches_of(g, words)[i]),
    decreases words.len(),
{
    if words.len() > 0 {
        lemma_matches_of_sound(g, words.drop_last());
        let pre = words.drop_last();
        assert forall|i: int|
            0 <= i < matches_of(g, words).len() implies spec_matches(
            g,
            #[trigger] matches_of(g, words)[i],
        ) && words.contains(matches_of(g, words)[i]) by {
            if i < matches_of(g, pre).len() {
                assert(matches_of(g, words)[i] == matches_of(g, pre)[i]);
                let j = choose|j: int| 0 <= j < pre.len() && pre[j] == matches_of(g, pre)[i];
                assert(words[j] == matches_of(g, words)[i]);
            } else {
                assert(matches_of(g, words)[i] == words.last());
                assert(words[words.len() - 1] == words.last());
            }
        }
    }
}

/// Every word of the list that is consistent with the grid appears in the
/// filtered sequence: the filter drops nothing that matches.
pub proof fn lemma_matches_of_complete(g: Seq<GridCell>, words: Seq<Seq<char>>, i: int)
    requires
        0 <= i < words.len(),
        spec_matches(g, words[i]),
    ensures
        matches_of(g, words).contains(words[i]),
    decreases words.len(),
{
    if i == words.len() - 1 {
        let m = matches_of(g, words);
        assert(m.last() == words[i]);
        assert(m[m.len() - 1] == words[i]);
    } else {
        lemma_matches_of_complete(g, words.drop_last(), i);
        let pre = matches_of(g, words.drop_last());
        let j = choose|j: int| 0 <= j < pre.len() && pre[j] == words.drop_last()[i];
        assert(matches_of(g, words)[j] == words[i]);
    }
}

/// A filter run with a smaller limit returns a prefix of a run with a larger
/// limit over the same grid and dictionary: both take their words from the
/// front of the same match sequence.
pub proof fn lemma_first_n_prefix(s: Seq<Seq<char>>, l1: int, l2: int)
    requires
        0 <= l1 <= l2,
    ensures
        first_n(s, l1).is_prefix_of(first_n(s, l2)),
{
}

} // verus!
