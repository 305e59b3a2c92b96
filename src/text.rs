//! Splitting a string into words separated by ASCII whitespace.
use vstd::prelude::*;
use vstd::string::StrSliceExecFns;

verus! {

/// The characters that `str::split_ascii_whitespace` treats as separators.
pub open spec fn is_ascii_ws(c: char) -> bool {
    c == ' ' || c == '\t' || c == '\n' || c == '\x0C' || c == '\r'
}

/// The maximal runs of non-whitespace characters of `s`, in order,
/// built up one character at a time.
pub open spec fn words(s: Seq<char>) -> Seq<Seq<char>>
    decreases s.len(),
{
    if s.len() == 0 {
        Seq::empty()
    } else {
        let p = s.drop_last();
        let c = s.last();
        let w = words(p);
        if is_ascii_ws(c) {
            w
        } else if p.len() == 0 || is_ascii_ws(p.last()) {
            w.push(seq![c])
        } else {
            w.update(w.len() - 1, w.last().push(c))
        }
    }
}

/// The character sequences held by a sequence of strings.
pub open spec fn string_views(v: Seq<String>) -> Seq<Seq<char>> {
    v.map_values(|w: String| w@)
}

pub fn is_ascii_whitespace(c: char) -> (r: bool)
    ensures
        r == is_ascii_ws(c),
{
    c == ' ' || c == '\t' || c == '\n' || c == '\x0C' || c == '\r'
}

/// Splits `s` on ASCII whitespace, dropping empty pieces.
pub fn split_ascii_whitespace(s: &str) -> (r: Vec<String>)
    ensures
        string_views(r@) == words(s@),
{
    let n = s.unicode_len();
    let mut out: Vec<String> = Vec::new();
    let mut i: usize = 0;
    let mut start: usize = 0;
    let mut in_word = false;
    while i < n
        invariant
            n == s@.len(),
            i <= n,
            start <= i,
            in_word == (i > 0 && !is_ascii_ws(s@[i - 1])),
            in_word ==> words(s@.take(i as int)) == string_views(out@).push(
                s@.subrange(start as int, i as int),
            ),
            !in_word ==> words(s@.take(i as int)) == string_views(out@),
        decreases n - i,
    {
        let c = s.get_char(i);
        let ghost before = string_views(out@);
        assert(s@.take(i + 1).drop_last() =~= s@.take(i as int));
        assert(s@.take(i + 1).last() == c);
        if is_ascii_whitespace(c) {
            if in_word {
                let w = s.substring_char(start, i).to_owned();
                out.push(w);
                assert(string_views(out@) =~= before.push(
                    s@.subrange(start as int, i as int),
                ));
                in_word = false;
            }
        } else if !in_word {
            start = i;
            in_word = true;
            assert(s@.subrange(start as int, i + 1) =~= seq![c]);
        } else {
            assert(s@.subrange(start as int, i + 1) =~= s@.subrange(start as int, i as int).push(c));
            let ghost w = words(s@.take(i as int));
            assert(w.update(w.len() - 1, w.last().push(c)) =~= before.push(
                s@.subrange(start as int, i + 1),
            ));
        }
        i = i + 1;
    }
    assert(s@.take(n as int) =~= s@);
    if in_word {
        let ghost before = string_views(out@);
        let w = s.substring_char(start, n).to_owned();
        out.push(w);
        assert(string_views(out@) =~= before.push(s@.subrange(start as int, n as int)));
    }
    out
}

} // verus!
