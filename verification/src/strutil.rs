//! Character-level string utilities: case folding, whitespace trimming,
//! splitting on the `|` sub-delimiter, and substring search.

use vstd::prelude::*;
use vstd::string::StrSliceExecFns;
use vstd::string::StringExecFns;

verus! {

/// The sequence of characters that Unicode lowercasing yields for `s`.
pub uninterp spec fn lower_of(s: Seq<char>) -> Seq<char>;

/// Relies on `str::to_lowercase` from std: its result is a function of the
/// input characters alone, and lowercasing the empty string yields the
/// empty string.
#[verifier::external_body]
pub(crate) fn lowercase(s: &str) -> (r: String)
    ensures
        r@ == lower_of(s@),
        s@.len() == 0 ==> r@.len() == 0,
{
    s.to_lowercase()
}

/// Whether the Unicode white-space property holds of `c`.
pub uninterp spec fn is_space(c: char) -> bool;

/// Relies on `char::is_whitespace` from std: its result is a function of the
/// character alone.
#[verifier::external_body]
pub(crate) fn is_space_char(c: char) -> (r: bool)
    ensures
        r == is_space(c),
{
    c.is_whitespace()
}

/// `needle` occurs contiguously somewhere inside `hay`.
pub open spec fn contains_seq(hay: Seq<char>, needle: Seq<char>) -> bool {
    exists|i: int|
        0 <= i <= hay.len() - needle.len() && #[trigger] hay.subrange(i, i + needle.len() as int)
            == needle
}

/// Whether the characters of `needle` appear in `hay` starting at position `at`.
fn match_at(hay: &str, needle: &str, at: usize) -> (r: bool)
    requires
        at + needle@.len() <= hay@.len(),
        hay@.len() <= usize::MAX,
    ensures
        r == (hay@.subrange(at as int, at + needle@.len()) == needle@),
{
    let n = needle.unicode_len();
    let mut j: usize = 0;
    while j < n
        invariant
            j <= n,
            n == needle@.len(),
            at + n <= hay@.len() <= usize::MAX,
            forall|t: int| 0 <= t < j ==> hay@[at + t] == needle@[t],
        decreases n - j,
    {
        if hay.get_char(at + j) != needle.get_char(j) {
            proof {
                assert(hay@.subrange(at as int, at + needle@.len())[j as int] == hay@[at + j]);
            }
            return false;
        }
        j += 1;
    }
    proof {
        assert(hay@.subrange(at as int, at + needle@.len()) =~= needle@);
    }
    true
}

/// Substring search: decides `contains_seq(hay@, needle@)`.
pub fn contains_sub(hay: &str, needle: &str) -> (r: bool)
    ensures
        r == contains_seq(hay@, needle@),
{
    let h = hay.unicode_len();
    let n = needle.unicode_len();
    if n == 0 {
        proof {
            assert(hay@.subrange(0, 0 + needle@.len() as int) =~= needle@);
        }
        return true;
    }
    if n > h {
        return false;
    }
    let mut i: usize = 0;
    while i <= h - n
        invariant
            h == hay@.len(),
            n == needle@.len(),
            0 < n <= h,
            i <= h - n + 1,
            forall|k: int| 0 <= k < i ==> #[trigger] hay@.subrange(k, k + needle@.len())
                != needle@,
        decreases h - n - i + 1,
    {
        if match_at(hay, needle, i) {
            return true;
        }
        i += 1;
    }
    false
}

/// The characters of `s` with all leading and trailing white space removed.
pub open spec fn trim_spec(s: Seq<char>) -> Seq<char>
    decreases s.len(),
{
    if s.len() == 0 {
        s
    } else if is_space(s[0]) {
        trim_spec(s.drop_first())
    } else if is_space(s[s.len() - 1]) {
        trim_spec(s.drop_last())
    } else {
        s
    }
}

proof fn lemma_trim_subrange(s: Seq<char>, a: int, b: int)
    requires
        0 <= a <= b <= s.len(),
        forall|k: int| 0 <= k < a ==> is_space(s[k]),
        forall|k: int| b <= k < s.len() ==> is_space(s[k]),
        a < b ==> !is_space(s[a]) && !is_space(s[b - 1]),
    ensures
        trim_spec(s) == s.subrange(a, b),
    decreases s.len(),
{
    if s.len() == 0 {
        assert(trim_spec(s) =~= s.subrange(a, b));
    } else if is_space(s[0]) {
        if a > 0 {
            lemma_trim_subrange(s.drop_first(), a - 1, b - 1);
            assert(s.drop_first().subrange(a - 1, b - 1) =~= s.subrange(a, b));
        } else {
            // a == 0 with a white-space first character forces a == b == 0
            assert(a == b);
            lemma_trim_subrange(s.drop_first(), 0, 0);
            assert(s.drop_first().subrange(0, 0) =~= s.subrange(a, b));
        }
    } else if is_space(s[s.len() - 1]) {
        // the last character is white space, so b stays short of s.len()
        assert(b < s.len()) by {
            if b == s.len() {
                if a < b {
                    assert(!is_space(s[b - 1]));
                } else {
                    assert(is_space(s[0]));
                }
            }
        }
        lemma_trim_subrange(s.drop_last(), a, b);
        assert(s.drop_last().subrange(a, b) =~= s.subrange(a, b));
    } else {
        // neither end is white space, so nothing is trimmed
        assert(a == 0) by {
            if a > 0 {
                assert(is_space(s[0]));
            }
        }
        assert(b == s.len()) by {
            if b < s.len() {
                assert(is_space(s[s.len() - 1]));
            }
        }
        assert(s.subrange(a, b) =~= s);
    }
}

/// Trimming: returns the slice of `s` with leading and trailing white space
/// removed, as `trim_spec` describes.
pub fn trimmed<'a>(s: &'a str) -> (r: &'a str)
    ensures
        r@ == trim_spec(s@),
{
    let n = s.unicode_len();
    let mut a: usize = 0;
    while a < n && is_space_char(s.get_char(a))
        invariant
            a <= n,
            n == s@.len(),
            forall|k: int| 0 <= k < a ==> is_space(s@[k]),
        decreases n - a,
    {
        a += 1;
    }
    let mut b: usize = n;
    while b > a && is_space_char(s.get_char(b - 1))
        invariant
            a <= b <= n,
            n == s@.len(),
            forall|k: int| 0 <= k < a ==> is_space(s@[k]),
            forall|k: int| b <= k < n ==> is_space(s@[k]),
            a < n ==> !is_space(s@[a as int]),
        decreases b,
    {
        b -= 1;
    }
    proof {
        lemma_trim_subrange(s@, a as int, b as int);
    }
    s.substring_char(a, b)
}

/// The segments of `s` split on every `|` character, in order. A string with
/// no delimiter yields one segment; each delimiter starts a new (possibly
/// empty) segment.
pub open spec fn split_pipe(s: Seq<char>) -> Seq<Seq<char>>
    decreases s.len(),
{
    if s.len() == 0 {
        seq![Seq::<char>::empty()]
    } else {
        let rest = split_pipe(s.drop_last());
        if s.last() == '|' {
            rest.push(Seq::<char>::empty())
        } else {
            rest.update(rest.len() - 1, rest.last().push(s.last()))
        }
    }
}

proof fn lemma_split_pipe_len(s: Seq<char>)
    ensures
        split_pipe(s).len() >= 1,
    decreases s.len(),
{
    if s.len() > 0 {
        lemma_split_pipe_len(s.drop_last());
    }
}

/// Splitting on `|`: the returned segments are exactly `split_pipe(s@)`.
pub fn split_segments(s: &str) -> (r: Vec<String>)
    ensures
        r.deep_view() == split_pipe(s@),
{
    let n = s.unicode_len();
    let mut out: Vec<String> = Vec::new();
    let mut start: usize = 0;
    let mut i: usize = 0;
    proof {
        assert(s@.subrange(0, 0) =~= Seq::<char>::empty());
        assert(out.deep_view() =~= Seq::<Seq<char>>::empty());
        assert(split_pipe(s@.subrange(0, 0)) =~= out.deep_view().push(s@.subrange(0, 0)));
    }
    while i < n
        invariant
            start <= i <= n,
            n == s@.len(),
            split_pipe(s@.subrange(0, i as int)) == out.deep_view().push(
                s@.subrange(start as int, i as int),
            ),
        decreases n - i,
    {
        let ghost pre = s@.subrange(0, i as int);
        let ghost cur = s@.subrange(start as int, i as int);
        let ghost out0 = out.deep_view();
        proof {
            assert(s@.subrange(0, i + 1).drop_last() =~= pre);
            assert(s@.subrange(0, i + 1).last() == s@[i as int]);
        }
        if s.get_char(i) == '|' {
            let seg = String::from_str(s.substring_char(start, i));
            out.push(seg);
            proof {
                assert(out.deep_view() =~= out0.push(cur));
                assert(split_pipe(s@.subrange(0, i + 1)) == split_pipe(pre).push(
                    Seq::<char>::empty(),
                ));
                assert(s@.subrange(i + 1, i + 1) =~= Seq::<char>::empty());
                assert(split_pipe(pre).push(Seq::<char>::empty()) =~= out.deep_view().push(
                    s@.subrange(i + 1, i + 1),
                ));
            }
            start = i + 1;
        } else {
            proof {
                lemma_split_pipe_len(pre);
                assert(split_pipe(pre).last() == cur);
                assert(split_pipe(pre).len() - 1 == out0.len());
                assert(cur.push(s@[i as int]) =~= s@.subrange(start as int, i + 1));
                assert(split_pipe(s@.subrange(0, i + 1)) == split_pipe(pre).update(
                    out0.len() as int,
                    cur.push(s@[i as int]),
                ));
                assert(split_pipe(pre).update(out0.len() as int, cur.push(s@[i as int]))
                    =~= out0.push(s@.subrange(start as int, i + 1)));
            }
        }
        i += 1;
    }
    let ghost out0 = out.deep_view();
    let seg = String::from_str(s.substring_char(start, n));
    out.push(seg);
    proof {
        assert(out.deep_view() =~= out0.push(s@.subrange(start as int, n as int)));
        assert(s@.subrange(0, n as int) =~= s@);
    }
    out
}

} // verus!
