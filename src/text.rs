//! Text forms of tag lists and of time spans.
use crate::task::strings_view;
use crate::trusted::{human_duration, humanized, push_char};
use vstd::prelude::*;
use vstd::string::{StrSliceExecFns, StringExecFns};

verus! {

/// Tags joined with `,` between them.
pub open spec fn joined(tags: Seq<Seq<char>>) -> Seq<char>
    decreases tags.len(),
{
    if tags.len() == 0 {
        Seq::empty()
    } else if tags.len() == 1 {
        tags[0]
    } else {
        joined(tags.drop_last()).push(',') + tags.last()
    }
}

/// The pieces of `s` between occurrences of `sep`, in order: no trimming,
/// and empty pieces are kept, so the empty text is one empty piece.
pub open spec fn split_on(s: Seq<char>, sep: char) -> Seq<Seq<char>>
    decreases s.len(),
{
    if s.len() == 0 {
        seq![Seq::empty()]
    } else {
        let pieces = split_on(s.drop_last(), sep);
        if s.last() == sep {
            pieces.push(Seq::empty())
        } else {
            pieces.update(pieces.len() - 1, pieces.last().push(s.last()))
        }
    }
}

/// The text before the first space, or all of it when there is none.
pub open spec fn first_word(s: Seq<char>) -> Seq<char>
    decreases s.len(),
{
    if s.len() == 0 || s[0] == ' ' {
        Seq::empty()
    } else {
        seq![s[0]] + first_word(s.drop_first())
    }
}

/// The pieces of `s` between commas.
pub open spec fn split_commas(s: Seq<char>) -> Seq<Seq<char>> {
    split_on(s, ',')
}

proof fn lemma_split_nonempty(s: Seq<char>, sep: char)
    ensures
        split_on(s, sep).len() >= 1,
    decreases s.len(),
{
    if s.len() > 0 {
        lemma_split_nonempty(s.drop_last(), sep);
    }
}

proof fn lemma_first_word_prefix(s: Seq<char>, k: int)
    requires
        0 <= k <= s.len(),
        forall|j: int| 0 <= j < k ==> s[j] != ' ',
        k == s.len() || s[k] == ' ',
    ensures
        first_word(s) == s.subrange(0, k),
    decreases s.len(),
{
    if k > 0 {
        lemma_first_word_prefix(s.drop_first(), k - 1);
        assert(s.subrange(0, k) =~= seq![s[0]] + s.drop_first().subrange(0, k - 1));
    } else {
        assert(s.subrange(0, k) =~= Seq::<char>::empty());
    }
}

/// The tags joined with `,` between them.
pub fn tag_csv(tags: &[String]) -> (r: String)
    ensures
        r@ == joined(strings_view(tags@)),
{
    let mut out = String::new();
    let mut i: usize = 0;
    while i < tags.len()
        invariant
            0 <= i <= tags.len(),
            out@ == joined(strings_view(tags@).subrange(0, i as int)),
        decreases tags.len() - i,
    {
        let ghost prev = strings_view(tags@).subrange(0, i as int);
        let ghost next = strings_view(tags@).subrange(0, i + 1);
        assert(next.drop_last() =~= prev);
        if i > 0 {
            push_char(&mut out, ',');
        }
        out.append(tags[i].as_str());
        proof {
            if i == 0 {
                assert(prev =~= Seq::<Seq<char>>::empty());
                assert(out@ =~= next[0]);
            } else {
                assert(out@ =~= joined(prev).push(',') + next.last());
            }
        }
        i += 1;
    }
    assert(strings_view(tags@).subrange(0, i as int) =~= strings_view(tags@));
    out
}

/// The pieces of `s` between commas, each as its own string.
pub fn split_commas_of(s: &str) -> (r: Vec<String>)
    ensures
        strings_view(r@) == split_commas(s@),
{
    split_by(s, ',')
}

/// The pieces of `s` between occurrences of `sep`, each as its own string.
pub fn split_by(s: &str, sep: char) -> (r: Vec<String>)
    ensures
        strings_view(r@) == split_on(s@, sep),
{
    let n = s.unicode_len();
    let mut pieces: Vec<String> = Vec::new();
    pieces.push(String::new());
    assert(strings_view(pieces@) =~= split_on(s@.subrange(0, 0), sep));
    let mut i: usize = 0;
    while i < n
        invariant
            0 <= i <= n,
            n == s@.len(),
            strings_view(pieces@) == split_on(s@.subrange(0, i as int), sep),
        decreases n - i,
    {
        let ghost prev = s@.subrange(0, i as int);
        let ghost next = s@.subrange(0, i + 1);
        assert(next.drop_last() =~= prev);
        proof {
            lemma_split_nonempty(prev, sep);
        }
        let c = s.get_char(i);
        if c == sep {
            pieces.push(String::new());
            assert(strings_view(pieces@) =~= split_on(next, sep));
        } else {
            let mut last = pieces.pop().unwrap();
            push_char(&mut last, c);
            pieces.push(last);
            assert(strings_view(pieces@) =~= split_on(next, sep));
        }
        i += 1;
    }
    assert(s@.subrange(0, n as int) =~= s@);
    pieces
}

/// The first word of `text` followed by " ago".
pub fn first_word_ago(text: &str) -> (r: String)
    ensures
        r@ == first_word(text@) + " ago"@,
{
    let n = text.unicode_len();
    let mut out = String::new();
    let mut i: usize = 0;
    while i < n && text.get_char(i) != ' '
        invariant
            0 <= i <= n,
            n == text@.len(),
            out@ == text@.subrange(0, i as int),
            forall|j: int| 0 <= j < i ==> text@[j] != ' ',
        decreases n - i,
    {
        push_char(&mut out, text.get_char(i));
        assert(out@ =~= text@.subrange(0, i + 1));
        i += 1;
    }
    proof {
        lemma_first_word_prefix(text@, i as int);
    }
    out.append(" ago");
    out
}

/// How long ago a span of `secs` seconds reaches back, coarsely: the largest
/// unit humantime prints, then " ago" (as in "3days ago").
pub fn days_ago(secs: u64) -> (r: String)
    ensures
        r@ == first_word(humanized(secs)) + " ago"@,
{
    let text = human_duration(secs);
    first_word_ago(text.as_str())
}

} // verus!
