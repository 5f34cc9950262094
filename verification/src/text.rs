//! Text cut into segments at `/`, the separator of address components.

use vstd::prelude::*;
use vstd::string::StrSliceExecFns;
use vstd::string::StringExecFns;

verus! {

/// The views of a sequence of strings.
pub open spec fn texts(strings: Seq<String>) -> Seq<Seq<char>> {
    strings.map_values(|s: String| s@)
}

/// The pieces of `text` between its `/` characters. A text without `/` is
/// one segment; `n` separators always give `n + 1` segments, empty ones
/// included.
pub open spec fn segments(text: Seq<char>) -> Seq<Seq<char>>
    decreases text.len(),
{
    if text.len() == 0 {
        seq![Seq::<char>::empty()]
    } else {
        let before = segments(text.drop_last());
        if text.last() == '/' {
            before.push(Seq::<char>::empty())
        } else {
            before.drop_last().push(before.last().push(text.last()))
        }
    }
}

/// The segments written one after another with a `/` between neighbours.
pub open spec fn join(parts: Seq<Seq<char>>) -> Seq<char>
    decreases parts.len(),
{
    if parts.len() == 0 {
        Seq::<char>::empty()
    } else if parts.len() == 1 {
        parts[0]
    } else {
        join(parts.drop_last()) + seq!['/'] + parts.last()
    }
}

/// There is always at least one segment.
pub proof fn lemma_segments_nonempty(text: Seq<char>)
    ensures
        segments(text).len() >= 1,
    decreases text.len(),
{
    if text.len() > 0 {
        lemma_segments_nonempty(text.drop_last());
    }
}

/// No segment holds a separator.
pub proof fn lemma_segments_hold_no_separator(text: Seq<char>)
    ensures
        forall|i: int| 0 <= i < segments(text).len() ==> !(#[trigger] segments(text)[i]).contains('/'),
    decreases text.len(),
{
    if text.len() > 0 {
        let before = segments(text.drop_last());
        lemma_segments_nonempty(text.drop_last());
        lemma_segments_hold_no_separator(text.drop_last());
        if text.last() != '/' {
            let grown = before.last().push(text.last());
            assert(!before.last().contains('/'));
            assert(!grown.contains('/')) by {
                if grown.contains('/') {
                    let j = choose|j: int| 0 <= j < grown.len() && grown[j] == '/';
                    assert(before.last()[j] == '/');
                }
            }
        }
    }
}

/// Joining the segments of a text gives the text back.
pub proof fn lemma_join_segments(text: Seq<char>)
    ensures
        join(segments(text)) == text,
    decreases text.len(),
{
    if text.len() > 0 {
        let shorter = text.drop_last();
        let before = segments(shorter);
        lemma_segments_nonempty(shorter);
        lemma_join_segments(shorter);
        assert(text == shorter.push(text.last()));
        if text.last() == '/' {
            let all = before.push(Seq::<char>::empty());
            assert(all.drop_last() == before);
            assert(join(all) == join(before) + seq!['/'] + Seq::<char>::empty());
            assert(join(all) == text);
        } else {
            let grown = before.last().push(text.last());
            let all = before.drop_last().push(grown);
            assert(all.drop_last() == before.drop_last());
            if before.len() == 1 {
                assert(join(all) == grown);
                assert(join(before) == before[0]);
                assert(join(all) == text);
            } else {
                assert(join(all) == join(before.drop_last()) + seq!['/'] + grown);
                assert(join(before) == join(before.drop_last()) + seq!['/'] + before.last());
                assert(join(all) == join(before).push(text.last()));
                assert(join(all) == text);
            }
        }
    }
}

/// A text without a separator is its own single segment.
pub proof fn lemma_segments_of_word(word: Seq<char>)
    requires
        !word.contains('/'),
    ensures
        segments(word) == seq![word],
    decreases word.len(),
{
    if word.len() == 0 {
        assert(word == Seq::<char>::empty());
    } else {
        let shorter = word.drop_last();
        assert(!shorter.contains('/')) by {
            if shorter.contains('/') {
                let j = choose|j: int| 0 <= j < shorter.len() && shorter[j] == '/';
                assert(word[j] == '/');
            }
        }
        lemma_segments_of_word(shorter);
        assert(word.last() != '/') by {
            if word.last() == '/' {
                assert(word[word.len() - 1] == '/');
            }
        }
        assert(shorter.push(word.last()) == word);
        assert(segments(word) == seq![word]);
    }
}

/// The segments of two texts set apart by a separator are the segments of
/// the first followed by those of the second.
pub proof fn lemma_segments_across_separator(left: Seq<char>, right: Seq<char>)
    ensures
        segments(left + seq!['/'] + right) == segments(left) + segments(right),
    decreases right.len(),
{
    let whole = left + seq!['/'] + right;
    lemma_segments_nonempty(left);
    if right.len() == 0 {
        assert(whole.drop_last() == left);
        assert(whole.last() == '/');
        assert(segments(right) == seq![Seq::<char>::empty()]);
        assert(segments(whole) == segments(left).push(Seq::<char>::empty()));
        assert(segments(whole) == segments(left) + segments(right));
    } else {
        let shorter = right.drop_last();
        lemma_segments_across_separator(left, shorter);
        lemma_segments_nonempty(shorter);
        assert(whole.drop_last() == left + seq!['/'] + shorter);
        assert(whole.last() == right.last());
        let before = segments(left) + segments(shorter);
        assert(before.last() == segments(shorter).last());
        if right.last() == '/' {
            assert(segments(whole) == before.push(Seq::<char>::empty()));
            assert(segments(whole) == segments(left) + segments(right));
        } else {
            let grown = segments(shorter).last().push(right.last());
            assert(segments(whole) == before.drop_last().push(grown));
            assert(before.drop_last() == segments(left) + segments(shorter).drop_last());
            assert(segments(whole) == segments(left) + segments(right));
        }
    }
}

/// Cutting a joined text gives its parts back, where no part holds a
/// separator.
pub proof fn lemma_segments_join(parts: Seq<Seq<char>>)
    requires
        parts.len() >= 1,
        forall|i: int| 0 <= i < parts.len() ==> !(#[trigger] parts[i]).contains('/'),
    ensures
        segments(join(parts)) == parts,
    decreases parts.len(),
{
    if parts.len() == 1 {
        lemma_segments_of_word(parts[0]);
        assert(parts == seq![parts[0]]);
    } else {
        let front = parts.drop_last();
        assert forall|i: int| 0 <= i < front.len() implies !(#[trigger] front[i]).contains('/') by {
            assert(front[i] == parts[i]);
        }
        lemma_segments_join(front);
        lemma_segments_across_separator(join(front), parts.last());
        lemma_segments_of_word(parts.last());
        assert(front + seq![parts.last()] == parts);
    }
}

/// The characters of `text`, in order.
pub fn chars_of(text: &str) -> (chars: Vec<char>)
    ensures
        chars@ == text@,
{
    let mut chars: Vec<char> = Vec::new();
    for c in it: text.chars()
        invariant
            chars@ == it.seq().take(it.index() as int),
            it.seq() == text@,
    {
        chars.push(c);
    }
    chars
}

/// Whether `c` occurs in `text`.
pub fn contains_char(text: &str, c: char) -> (found: bool)
    ensures
        found == text@.contains(c),
{
    let chars = chars_of(text);
    let n = chars.len();
    let mut i: usize = 0;
    while i < n
        invariant
            chars@ == text@,
            n == chars.len(),
            i <= n,
            forall|j: int| 0 <= j < i ==> text@[j] != c,
        decreases n - i,
    {
        if chars[i] == c {
            return true;
        }
        i += 1;
    }
    false
}

/// Cuts `text` at every `/`.
pub fn split_segments(text: &str) -> (parts: Vec<String>)
    ensures
        texts(parts@) == segments(text@),
{
    let chars = chars_of(text);
    let n = chars.len();
    let mut parts: Vec<String> = Vec::new();
    let mut start: usize = 0;
    let mut i: usize = 0;
    assert(text@.take(0) == Seq::<char>::empty());
    assert(texts(parts@).push(text@.subrange(0, 0)) == seq![Seq::<char>::empty()]);
    while i < n
        invariant
            chars@ == text@,
            n == chars.len(),
            start <= i <= n,
            segments(text@.take(i as int)) == texts(parts@).push(
                text@.subrange(start as int, i as int),
            ),
        decreases n - i,
    {
        let ghost done = texts(parts@);
        let ghost open = text@.subrange(start as int, i as int);
        let ghost grown = text@.take(i + 1);
        proof {
            assert(grown.drop_last() == text@.take(i as int));
            assert(grown.last() == text@[i as int]);
            assert(done.push(open).drop_last() == done);
            assert(done.push(open).last() == open);
        }
        if chars[i] == '/' {
            let piece = text.substring_char(start, i);
            parts.push(String::from_str(piece));
            start = i + 1;
            proof {
                assert(texts(parts@) == done.push(open));
                assert(text@.subrange(start as int, i + 1) == Seq::<char>::empty());
            }
        } else {
            proof {
                assert(text@.subrange(start as int, i + 1) == open.push(text@[i as int]));
            }
        }
        i += 1;
    }
    let piece = text.substring_char(start, n);
    let ghost done = texts(parts@);
    parts.push(String::from_str(piece));
    proof {
        assert(text@.take(n as int) == text@);
        assert(texts(parts@) == done.push(piece@));
    }
    parts
}

/// Joins the first `count` of `parts` with `/` between neighbours.
pub(crate) fn join_segments(parts: &Vec<String>, count: usize) -> (joined: String)
    requires
        1 <= count <= parts.len(),
    ensures
        joined@ == join(texts(parts@).take(count as int)),
{
    let mut joined = parts[0].clone();
    let mut j: usize = 1;
    proof {
        assert(texts(parts@).take(1) == seq![parts@[0]@]);
    }
    while j < count
        invariant
            1 <= j <= count <= parts.len(),
            joined@ == join(texts(parts@).take(j as int)),
        decreases count - j,
    {
        proof {
            reveal_strlit("/");
            let longer = texts(parts@).take(j + 1);
            assert(longer.drop_last() == texts(parts@).take(j as int));
            assert(longer.last() == parts@[j as int]@);
            assert("/"@ == seq!['/']);
        }
        joined.append("/");
        joined.append(parts[j].as_str());
        j += 1;
    }
    joined
}

} // verus!
