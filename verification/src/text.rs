//! Text as a sequence of characters: searching for a word, and splitting
//! into lines.

use vstd::prelude::*;
use vstd::string::*;

verus! {

/// The characters of `s`, in order.
pub fn chars_of(s: &str) -> (v: Vec<char>)
    ensures
        v@ == s@,
{
    let mut v: Vec<char> = Vec::new();
    for c in it: s.chars()
        invariant
            v@ == it.seq().take(it.index() as int),
            it.seq() == s@,
    {
        v.push(c);
    }
    v
}

/// Whether `word` stands in `text` at position `at`.
pub open spec fn occurs_at(text: Seq<char>, word: Seq<char>, at: int) -> bool {
    &&& 0 <= at
    &&& at + word.len() <= text.len()
    &&& text.subrange(at, at + word.len()) == word
}

/// Whether `word` stands somewhere in `text`.
pub open spec fn contains(text: Seq<char>, word: Seq<char>) -> bool {
    exists|at: int| occurs_at(text, word, at)
}

/// Whether `at` is the first position at which `word` stands in `text`.
pub open spec fn first_at(text: Seq<char>, word: Seq<char>, at: int) -> bool {
    &&& occurs_at(text, word, at)
    &&& forall|before: int| 0 <= before < at ==> !occurs_at(text, word, before)
}

/// The first position at which `word` stands in `text`, where there is one.
pub open spec fn index_of(text: Seq<char>, word: Seq<char>) -> int
    recommends
        contains(text, word),
{
    choose|at: int| first_at(text, word, at)
}

/// There is only one first position.
pub proof fn lemma_first_at_is_index_of(text: Seq<char>, word: Seq<char>, at: int)
    requires
        first_at(text, word, at),
    ensures
        contains(text, word),
        index_of(text, word) == at,
{
    let chosen = index_of(text, word);
    assert(first_at(text, word, chosen));
    if chosen < at {
        assert(!occurs_at(text, word, chosen));
    } else if at < chosen {
        assert(!occurs_at(text, word, at));
    }
}

/// Whether `word` stands in `text` at position `at`.
fn matches_at(text: &[char], word: &[char], at: usize) -> (b: bool)
    requires
        at + word@.len() <= text@.len(),
    ensures
        b == occurs_at(text@, word@, at as int),
{
    let n = text.len();
    let mut k: usize = 0;
    while k < word.len()
        invariant
            k <= word@.len(),
            at + word@.len() <= text@.len(),
            n == text@.len(),
            forall|j: int| 0 <= j < k ==> text@[at + j] == word@[j],
        decreases word@.len() - k,
    {
        if text[at + k] != word[k] {
            assert(text@.subrange(at as int, at + word@.len())[k as int] != word@[k as int]);
            return false;
        }
        k += 1;
    }
    assert(text@.subrange(at as int, at + word@.len()) =~= word@);
    true
}

/// Finds the first position at which `word` stands in `text`.
pub fn find(text: &[char], word: &[char]) -> (r: Option<usize>)
    ensures
        match r {
            Some(at) => first_at(text@, word@, at as int),
            None => !contains(text@, word@),
        },
{
    if word.len() > text.len() {
        return None;
    }
    let last: usize = text.len() - word.len();
    let mut at: usize = 0;
    loop
        invariant
            last == text@.len() - word@.len(),
            at <= last,
            forall|before: int| 0 <= before < at ==> !occurs_at(text@, word@, before),
        decreases last - at,
    {
        if matches_at(text, word, at) {
            return Some(at);
        }
        if at == last {
            return None;
        }
        at += 1;
    }
}

/// How many characters stand before the first line feed in `text`.
pub open spec fn first_line_len(text: Seq<char>) -> nat
    decreases text.len(),
{
    if text.len() == 0 || text[0] == '\n' {
        0
    } else {
        1 + first_line_len(text.drop_first())
    }
}

/// The lines of `text`: the parts that its line feeds separate. A text
/// without a line feed is one line, an empty text too.
pub open spec fn lines_of(text: Seq<char>) -> Seq<Seq<char>>
    decreases text.len(),
{
    let n = first_line_len(text) as int;
    if n >= text.len() {
        seq![text]
    } else {
        seq![text.take(n)] + lines_of(text.skip(n + 1))
    }
}

/// The texts of `lines`.
pub open spec fn texts(lines: Seq<&str>) -> Seq<Seq<char>> {
    Seq::new(lines.len(), |i: int| lines[i]@)
}

/// `first_line_len(text)` is `n` where no line feed is among the first `n`
/// characters of `text` and the next one, if there is one, is a line feed.
proof fn lemma_first_line_len(text: Seq<char>, n: int)
    requires
        0 <= n <= text.len(),
        forall|i: int| 0 <= i < n ==> text[i] != '\n',
        n < text.len() ==> text[n] == '\n',
    ensures
        first_line_len(text) == n,
    decreases n,
{
    if n > 0 {
        let rest = text.drop_first();
        assert forall|i: int| 0 <= i < n - 1 implies rest[i] != '\n' by {
            assert(rest[i] == text[i + 1]);
        }
        lemma_first_line_len(rest, n - 1);
    }
}

/// Splits `text` at its line feeds.
pub fn lines(text: &str) -> (r: Vec<&str>)
    ensures
        texts(r@) == lines_of(text@),
{
    let chars = chars_of(text);
    let n = chars.len();
    let mut r: Vec<&str> = Vec::new();
    let mut start: usize = 0;
    let mut i: usize = 0;
    proof {
        assert(text@.skip(0) =~= text@);
        assert(texts(r@) + lines_of(text@) =~= lines_of(text@));
    }
    while i < n
        invariant
            chars@ == text@,
            n == chars@.len(),
            start <= i <= n,
            forall|j: int| start <= j < i ==> chars@[j] != '\n',
            lines_of(text@) == texts(r@) + lines_of(text@.skip(start as int)),
        decreases n - i,
    {
        if chars[i] == '\n' {
            let line = text.substring_char(start, i);
            proof {
                let rest = text@.skip(start as int);
                lemma_first_line_len(rest, i - start);
                assert(rest.take(i - start) =~= line@);
                assert(rest.skip(i - start + 1) =~= text@.skip(i + 1));
                assert(texts(r@.push(line)) =~= texts(r@) + seq![line@]);
            }
            r.push(line);
            start = i + 1;
        }
        i += 1;
    }
    let line = text.substring_char(start, n);
    proof {
        let rest = text@.skip(start as int);
        lemma_first_line_len(rest, n - start);
        assert(rest =~= line@);
        assert(texts(r@.push(line)) =~= texts(r@) + seq![line@]);
    }
    r.push(line);
    r
}

} // verus!
