//! Text helpers for `::`-separated paths.

use vstd::prelude::*;

verus! {

/// The characters of the path separator, `::`.
pub open spec fn separator() -> Seq<char> {
    seq![':', ':']
}

/// Whether a separator starts at index `i` of `s`.
pub open spec fn sep_at(s: Seq<char>, i: int) -> bool {
    0 <= i && i + 1 < s.len() && s[i] == ':' && s[i + 1] == ':'
}

/// Whether `s` holds a separator anywhere.
pub open spec fn has_sep(s: Seq<char>) -> bool {
    exists|i: int| sep_at(s, i)
}

/// Where the last segment begins, looking only at the first `n` characters:
/// just behind the last separator that ends at or before `n`, or at 0.
pub open spec fn segment_start(s: Seq<char>, n: int) -> int
    decreases n,
{
    if n < 2 {
        0
    } else if s[n - 2] == ':' && s[n - 1] == ':' {
        n
    } else {
        segment_start(s, n - 1)
    }
}

/// What follows the last separator of `s`; all of `s` where it holds none.
pub open spec fn last_segment(s: Seq<char>) -> Seq<char> {
    s.subrange(segment_start(s, s.len() as int), s.len() as int)
}

/// The segments joined by separators.
pub open spec fn join_path(segments: Seq<Seq<char>>) -> Seq<char>
    decreases segments.len(),
{
    if segments.len() == 0 {
        Seq::empty()
    } else if segments.len() == 1 {
        segments[0]
    } else {
        join_path(segments.drop_last()) + separator() + segments.last()
    }
}

pub proof fn lemma_segment_start_bounds(s: Seq<char>, n: int)
    requires
        0 <= n <= s.len(),
    ensures
        0 <= segment_start(s, n) <= n,
        segment_start(s, n) == 0 || sep_at(s, segment_start(s, n) - 2),
        forall|i: int| segment_start(s, n) - 2 < i && i + 2 <= n ==> !sep_at(s, i),
    decreases n,
{
    if n < 2 {
    } else if s[n - 2] == ':' && s[n - 1] == ':' {
    } else {
        lemma_segment_start_bounds(s, n - 1);
    }
}

/// The last segment begins behind the separator at `k` when no separator
/// starts behind `k`.
pub proof fn lemma_segment_start_at_last_sep(s: Seq<char>, k: int)
    requires
        sep_at(s, k),
        forall|i: int| i > k ==> !sep_at(s, i),
    ensures
        segment_start(s, s.len() as int) == k + 2,
{
    lemma_segment_start_bounds(s, s.len() as int);
    let st = segment_start(s, s.len() as int);
    if st == 0 {
        assert(!sep_at(s, k));
    } else {
        assert(sep_at(s, st - 2));
        if st - 2 < k {
            assert(!sep_at(s, k));
        }
    }
}

/// Without a separator the last segment is the whole text.
pub proof fn lemma_segment_start_without_sep(s: Seq<char>)
    requires
        !has_sep(s),
    ensures
        last_segment(s) == s,
{
    lemma_segment_start_bounds(s, s.len() as int);
    let st = segment_start(s, s.len() as int);
    if st != 0 {
        assert(sep_at(s, st - 2));
    }
    assert(s.subrange(0, s.len() as int) =~= s);
}

/// The last segment of a text that ends in a separator and a name is the
/// name, where the name holds no separator and does not begin with `:`.
pub proof fn lemma_last_segment_of_joined(head: Seq<char>, name: Seq<char>)
    requires
        !has_sep(name),
        name.len() > 0 ==> name[0] != ':',
    ensures
        last_segment(head + separator() + name) == name,
{
    let s = head + separator() + name;
    let k = head.len() as int;
    assert(s[k] == ':' && s[k + 1] == ':');
    assert forall|i: int| i > k implies !sep_at(s, i) by {
        if sep_at(s, i) {
            if i == k + 1 {
                assert(s[i + 1] == name[0]);
            } else {
                assert(s[i] == name[i - k - 2] && s[i + 1] == name[i - k - 1]);
                assert(sep_at(name, i - k - 2));
            }
        }
    }
    lemma_segment_start_at_last_sep(s, k);
    assert(s.subrange(k + 2, s.len() as int) =~= name);
}

/// `str::rsplit_once` on the separator `::`: the text before and behind the
/// last place where `::` stands, or `None` where it stands nowhere.
#[verifier::external_body]
pub(crate) fn rsplit_once_sep<'a>(s: &'a str) -> (r: Option<(&'a str, &'a str)>)
    ensures
        match r {
            None => !has_sep(s@),
            Some((head, tail)) => {
                &&& s@ == head@ + separator() + tail@
                &&& forall|i: int| i > head@.len() ==> !sep_at(s@, i)
            },
        },
{
    s.rsplit_once("::")
}

/// The last `::`-delimited segment of `s`.
pub fn last_segment_of<'a>(s: &'a str) -> (r: &'a str)
    ensures
        r@ == last_segment(s@),
{
    match rsplit_once_sep(s) {
        Some((head, tail)) => {
            proof {
                let k = head@.len() as int;
                assert(sep_at(s@, k));
                lemma_segment_start_at_last_sep(s@, k);
                assert(s@.subrange(k + 2, s@.len() as int) =~= tail@);
            }
            tail
        },
        None => {
            proof {
                lemma_segment_start_without_sep(s@);
            }
            s
        },
    }
}

/// `parent`, a separator, then `child`.
pub fn join_two(parent: &str, child: &str) -> (r: String)
    ensures
        r@ == parent@ + separator() + child@,
{
    let mut out = String::from_str(parent);
    proof {
        reveal_strlit("::");
        assert("::"@ =~= separator());
    }
    out.append("::");
    out.append(child);
    out
}

/// The index of the first `c` in `s`; the length of `s` where it holds none.
pub open spec fn first_index(s: Seq<char>, c: char) -> nat
    decreases s.len(),
{
    if s.len() == 0 || s[0] == c {
        0
    } else {
        1 + first_index(s.drop_first(), c)
    }
}

/// The pieces of `s` between the places where `c` stands. A text without
/// `c` is one piece, the empty text too.
pub open spec fn split_on(s: Seq<char>, c: char) -> Seq<Seq<char>>
    decreases s.len(),
{
    let i = first_index(s, c) as int;
    if i >= s.len() {
        seq![s]
    } else {
        seq![s.take(i)] + split_on(s.skip(i + 1), c)
    }
}

/// The pieces with `sep` between them.
pub open spec fn join_with(pieces: Seq<Seq<char>>, sep: char) -> Seq<char>
    decreases pieces.len(),
{
    if pieces.len() == 0 {
        Seq::empty()
    } else if pieces.len() == 1 {
        pieces[0]
    } else {
        join_with(pieces.drop_last(), sep).push(sep) + pieces.last()
    }
}

/// What a list of texts stands for.
pub open spec fn texts_view(texts: Seq<String>) -> Seq<Seq<char>> {
    texts.map_values(|t: String| t@)
}

/// `str::split` on the character `|`: the pieces between the places where
/// `|` stands, in order, each as a text of its own.
#[verifier::external_body]
pub(crate) fn split_bar(s: &str) -> (r: Vec<String>)
    ensures
        texts_view(r@) == split_on(s@, '|'),
{
    s.split('|').map(String::from).collect()
}

} // verus!
