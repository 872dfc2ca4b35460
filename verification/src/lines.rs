//! Splitting a text into its lines.

use vstd::prelude::*;

verus! {

/// The number of characters of `text` before its first line feed, or the
/// length of `text` where it has none.
pub open spec fn line_end(text: Seq<char>) -> int
    decreases text.len(),
{
    if text.len() == 0 || text[0] == '\n' {
        0
    } else {
        1 + line_end(text.drop_first())
    }
}

/// `line` without the carriage return at its end, if it has one there.
pub open spec fn without_cr(line: Seq<char>) -> Seq<char> {
    if line.len() > 0 && line.last() == '\r' {
        line.drop_last()
    } else {
        line
    }
}

/// The lines of `text`. A line ends with a line feed, or with a carriage
/// return and a line feed; neither belongs to the line. What follows the
/// last line feed is a line of its own unless it is empty, and keeps a
/// carriage return at its end.
pub open spec fn lines_of(text: Seq<char>) -> Seq<Seq<char>>
    decreases text.len(),
{
    let n = line_end(text);
    if text.len() == 0 {
        Seq::empty()
    } else if n < 0 || n >= text.len() {
        seq![text]
    } else {
        seq![without_cr(text.take(n))] + lines_of(text.skip(n + 1))
    }
}

/// The texts of a sequence of strings.
pub open spec fn texts(strings: Seq<String>) -> Seq<Seq<char>> {
    Seq::new(strings.len(), |i: int| strings[i]@)
}

/// The first line of a text ends where its first line feed stands.
proof fn lemma_line_end(text: Seq<char>, k: int)
    requires
        0 <= k <= text.len(),
        forall|j: int| 0 <= j < k ==> text[j] != '\n',
        k == text.len() || text[k] == '\n',
    ensures
        line_end(text) == k,
    decreases k,
{
    if k > 0 {
        let rest = text.drop_first();
        assert forall|j: int| 0 <= j < k - 1 implies rest[j] != '\n' by {
            assert(rest[j] == text[j + 1]);
        }
        lemma_line_end(rest, k - 1);
    }
}

/// The text made of the characters in `chars`.
///
/// The body calls `String::from_iter` of std, which appends the characters
/// it is given, in order, to an empty string.
#[verifier::external_body]
fn string_from_chars(chars: &Vec<char>) -> (r: String)
    ensures
        r@ == chars@,
{
    String::from_iter(chars.iter())
}

/// Splits `text` into its lines.
pub fn split_lines(text: &str) -> (lines: Vec<String>)
    ensures
        texts(lines@) == lines_of(text@),
{
    broadcast use vstd::string::group_string_axioms;

    let mut lines: Vec<String> = Vec::new();
    let mut current: Vec<char> = Vec::new();
    let ghost mut start: int = 0;
    proof {
        assert(text@.skip(0) == text@);
        assert(texts(lines@) + lines_of(text@.skip(0)) == lines_of(text@));
    }
    for c in it: text.chars()
        invariant
            it.seq() == text@,
            0 <= start <= it.index(),
            current@ == text@.subrange(start, it.index() as int),
            forall|j: int| start <= j < it.index() ==> text@[j] != '\n',
            lines_of(text@) == texts(lines@) + lines_of(text@.skip(start)),
    {
        let ghost at: int = it.index() as int;
        let ghost tail: Seq<char> = text@.skip(start);
        if c == '\n' {
            proof {
                assert forall|j: int| 0 <= j < at - start implies tail[j] != '\n' by {
                    assert(tail[j] == text@[start + j]);
                }
                lemma_line_end(tail, at - start);
                assert(tail.take(at - start) == current@);
                assert(tail.skip(at - start + 1) == text@.skip(at + 1));
            }
            let ghost whole: Seq<char> = current@;
            let n: usize = current.len();
            if n > 0 && current[n - 1] == '\r' {
                current.pop();
            }
            assert(current@ == without_cr(whole));
            let line = string_from_chars(&current);
            let ghost before: Seq<String> = lines@;
            lines.push(line);
            current = Vec::new();
            proof {
                assert(texts(lines@) == texts(before) + seq![without_cr(whole)]);
                start = at + 1;
            }
        } else {
            current.push(c);
        }
    }
    let ghost tail: Seq<char> = text@.skip(start);
    proof {
        assert(tail == current@);
        assert forall|j: int| 0 <= j < tail.len() implies tail[j] != '\n' by {
            assert(tail[j] == text@[start + j]);
        }
        lemma_line_end(tail, tail.len() as int);
    }
    if current.len() > 0 {
        let line = string_from_chars(&current);
        let ghost before: Seq<String> = lines@;
        lines.push(line);
        assert(texts(lines@) == texts(before) + seq![tail]);
    } else {
        assert(texts(lines@) + Seq::<Seq<char>>::empty() == texts(lines@));
    }
    lines
}

} // verus!
