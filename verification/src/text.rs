//! Text utilities: the best-effort byte decoding used for output events,
//! and verified character-level helpers for the parsers.

use vstd::prelude::*;
use vstd::string::StrSliceExecFns;

verus! {

/// The text that best-effort decoding produces for a byte sequence: valid
/// UTF-8 is decoded, invalid sequences are replaced, never fatal. The result
/// depends on the bytes alone.
pub uninterp spec fn lossy_text_of(bytes: Seq<u8>) -> Seq<char>;

/// Relies on `String::from_utf8_lossy`: a pure function of the bytes that
/// decodes valid UTF-8 and substitutes the replacement character for invalid
/// sequences; an empty input yields an empty string.
#[verifier::external_body]
pub fn lossy_decode(bytes: &Vec<u8>) -> (r: String)
    ensures
        r@ == lossy_text_of(bytes@),
        bytes@.len() == 0 ==> r@.len() == 0,
{
    String::from_utf8_lossy(bytes.as_slice()).into_owned()
}

/// The lowercase form of a character sequence; depends on the characters
/// alone.
pub uninterp spec fn lower_of(s: Seq<char>) -> Seq<char>;

/// Relies on `str::to_lowercase`: the Unicode lowercase mapping of the
/// string, a pure function of its characters; an empty string stays empty.
#[verifier::external_body]
pub fn lowered(s: &str) -> (r: String)
    ensures
        r@ == lower_of(s@),
        s@.len() == 0 ==> r@.len() == 0,
{
    s.to_lowercase()
}

/// Compare two string slices character for character.
pub fn str_eq(a: &str, b: &str) -> (r: bool)
    ensures
        r == (a@ == b@),
{
    let an = a.unicode_len();
    let bn = b.unicode_len();
    if an != bn {
        return false;
    }
    let mut i: usize = 0;
    while i < an
        invariant
            an == a@.len(),
            a@.len() == b@.len(),
            i <= a@.len(),
            forall|k: int| 0 <= k < i ==> a@[k] == b@[k],
        decreases a@.len() - i,
    {
        if a.get_char(i) != b.get_char(i) {
            return false;
        }
        i += 1;
    }
    proof {
        assert(a@ =~= b@);
    }
    true
}

/// Does `s` start with `prefix`, character for character?
pub fn starts_with_chars(s: &str, prefix: &str) -> (r: bool)
    ensures
        r == (s@.len() >= prefix@.len() && s@.subrange(0, prefix@.len() as int) == prefix@),
{
    let n = s.unicode_len();
    let m = prefix.unicode_len();
    if n < m {
        return false;
    }
    let mut i: usize = 0;
    while i < m
        invariant
            n == s@.len(),
            m == prefix@.len(),
            m <= n,
            i <= m,
            forall|k: int| 0 <= k < i ==> s@[k] == prefix@[k],
        decreases m - i,
    {
        if s.get_char(i) != prefix.get_char(i) {
            proof {
                if s@.subrange(0, prefix@.len() as int) == prefix@ {
                    assert(s@.subrange(0, prefix@.len() as int)[i as int] == s@[i as int]);
                }
            }
            return false;
        }
        i += 1;
    }
    proof {
        assert(s@.subrange(0, prefix@.len() as int) =~= prefix@);
    }
    true
}

/// Does `needle` occur in `s` as a contiguous run of characters?
pub open spec fn contains_sub(s: Seq<char>, needle: Seq<char>) -> bool {
    exists|k: int|
        0 <= k && k + needle.len() <= s.len() && #[trigger] s.subrange(k, k + needle.len() as int)
            == needle
}

pub fn contains_chars(s: &str, needle: &str) -> (r: bool)
    ensures
        r == contains_sub(s@, needle@),
{
    let n = s.unicode_len();
    let m = needle.unicode_len();
    if m > n {
        return false;
    }
    if m == 0 {
        proof {
            assert(s@.subrange(0, 0 + needle@.len() as int) =~= needle@);
        }
        return true;
    }
    let mut k: usize = 0;
    while k <= n - m
        invariant
            n == s@.len(),
            m == needle@.len(),
            0 < m <= n,
            k <= n - m + 1,
            forall|q: int|
                0 <= q < k ==> #[trigger] s@.subrange(q, q + needle@.len() as int) != needle@,
        decreases n - m - k + 1,
    {
        let mut i: usize = 0;
        let mut matches = true;
        while i < m
            invariant
                n == s@.len(),
                m == needle@.len(),
                k + m <= n,
                i <= m,
                matches ==> forall|q: int| 0 <= q < i ==> s@[k + q] == needle@[q],
                !matches ==> s@.subrange(k as int, k + needle@.len() as int) != needle@,
            decreases m - i,
        {
            if s.get_char(k + i) != needle.get_char(i) {
                matches = false;
                proof {
                    if s@.subrange(k as int, k + needle@.len() as int) == needle@ {
                        let sub = s@.subrange(k as int, k + needle@.len() as int);
                        assert(sub[i as int] == s@[k + i]);
                    }
                }
                i = m;
            } else {
                i += 1;
            }
        }
        if matches {
            proof {
                assert(s@.subrange(k as int, k + needle@.len() as int) =~= needle@);
            }
            return true;
        }
        proof {
            assert(s@.subrange(k as int, k + needle@.len() as int) != needle@);
        }
        k += 1;
    }
    false
}

/// The whitespace the trimmers remove: space, tab, carriage return, newline.
pub open spec fn is_space(c: char) -> bool {
    c == ' ' || c == '\t' || c == '\n' || c == '\r'
}

pub fn is_space_char(c: char) -> (r: bool)
    ensures
        r == is_space(c),
{
    c == ' ' || c == '\t' || c == '\n' || c == '\r'
}

pub open spec fn trim_front(s: Seq<char>) -> Seq<char>
    decreases s.len(),
{
    if s.len() > 0 && is_space(s[0]) {
        trim_front(s.drop_first())
    } else {
        s
    }
}

pub open spec fn trim_back(s: Seq<char>) -> Seq<char>
    decreases s.len(),
{
    if s.len() > 0 && is_space(s[s.len() - 1]) {
        trim_back(s.drop_last())
    } else {
        s
    }
}

/// What trimming leaves: the characters between the first and the last
/// non-whitespace character.
pub open spec fn trim_spec(s: Seq<char>) -> Seq<char> {
    trim_back(trim_front(s))
}

proof fn lemma_trim_front_skip(s: Seq<char>, i: int)
    requires
        0 <= i <= s.len(),
        forall|k: int| 0 <= k < i ==> is_space(s[k]),
    ensures
        trim_front(s) == trim_front(s.subrange(i, s.len() as int)),
    decreases i,
{
    if i > 0 {
        assert(is_space(s[0]));
        assert(trim_front(s) == trim_front(s.drop_first()));
        let t = s.drop_first();
        assert(t =~= s.subrange(1, s.len() as int));
        lemma_trim_front_skip(t, i - 1);
        assert(t.subrange(i - 1, t.len() as int) =~= s.subrange(i, s.len() as int));
    } else {
        assert(s.subrange(0, s.len() as int) =~= s);
    }
}

proof fn lemma_trim_back_skip(s: Seq<char>, j: int)
    requires
        0 <= j <= s.len(),
        forall|k: int| j <= k < s.len() ==> is_space(s[k]),
    ensures
        trim_back(s) == trim_back(s.subrange(0, j)),
    decreases s.len() - j,
{
    if j < s.len() {
        assert(is_space(s[s.len() - 1]));
        assert(trim_back(s) == trim_back(s.drop_last()));
        let t = s.drop_last();
        assert(t =~= s.subrange(0, s.len() - 1));
        lemma_trim_back_skip(t, j);
        assert(t.subrange(0, j) =~= s.subrange(0, j));
    } else {
        assert(s.subrange(0, s.len() as int) =~= s);
    }
}

/// Trim the whitespace off both ends.
pub fn str_trim<'a>(s: &'a str) -> (r: &'a str)
    ensures
        r@ == trim_spec(s@),
{
    let n = s.unicode_len();
    let mut start: usize = 0;
    while start < n && is_space_char(s.get_char(start))
        invariant
            n == s@.len(),
            start <= n,
            forall|k: int| 0 <= k < start ==> is_space(s@[k]),
        decreases n - start,
    {
        start += 1;
    }
    let mut end: usize = n;
    while end > start && is_space_char(s.get_char(end - 1))
        invariant
            n == s@.len(),
            start <= end <= n,
            forall|k: int| end <= k < n ==> is_space(s@[k]),
        decreases end,
    {
        end -= 1;
    }
    let r = s.substring_char(start, end);
    proof {
        lemma_trim_front_skip(s@, start as int);
        let t = s@.subrange(start as int, n as int);
        assert(trim_front(s@) == t);
        lemma_trim_back_skip(t, end - start as int);
        assert(t.subrange(0, end - start as int) =~= s@.subrange(start as int, end as int));
        assert(trim_back(t.subrange(0, end - start as int)) == t.subrange(0, end - start as int));
        assert(trim_spec(s@) == s@.subrange(start as int, end as int));
    }
    r
}

/// Drop every leading occurrence of one character.
pub open spec fn skip_leading(s: Seq<char>, c: char) -> Seq<char>
    decreases s.len(),
{
    if s.len() > 0 && s[0] == c {
        skip_leading(s.drop_first(), c)
    } else {
        s
    }
}

proof fn lemma_skip_leading_skip(s: Seq<char>, c: char, i: int)
    requires
        0 <= i <= s.len(),
        forall|k: int| 0 <= k < i ==> s[k] == c,
    ensures
        skip_leading(s, c) == skip_leading(s.subrange(i, s.len() as int), c),
    decreases i,
{
    if i > 0 {
        let t = s.drop_first();
        assert(t =~= s.subrange(1, s.len() as int));
        lemma_skip_leading_skip(t, c, i - 1);
        assert(t.subrange(i - 1, t.len() as int) =~= s.subrange(i, s.len() as int));
    } else {
        assert(s.subrange(0, s.len() as int) =~= s);
    }
}

/// Strip every leading occurrence of one character.
pub fn strip_leading<'a>(s: &'a str, c: char) -> (r: &'a str)
    ensures
        r@ == skip_leading(s@, c),
{
    let n = s.unicode_len();
    let mut start: usize = 0;
    while start < n && s.get_char(start) == c
        invariant
            n == s@.len(),
            start <= n,
            forall|k: int| 0 <= k < start ==> s@[k] == c,
        decreases n - start,
    {
        start += 1;
    }
    let r = s.substring_char(start, n);
    proof {
        lemma_skip_leading_skip(s@, c, start as int);
        let t = s@.subrange(start as int, n as int);
        assert(skip_leading(t, c) == t);
    }
    r
}

/// Replace a leading `~/` with the home directory, if one is known;
/// any other path is returned unchanged.
pub fn expand_tilde(path: &str, home: Option<&str>) -> (r: String)
    ensures
        match home {
            Some(h) => {
                if path@.len() >= 2 && path@.subrange(0, 2) == "~/"@ {
                    r@ == h@ + path@.subrange(1, path@.len() as int)
                } else {
                    r@ == path@
                }
            },
            None => r@ == path@,
        },
{
    proof {
        reveal_strlit("~/");
    }
    match home {
        Some(h) => {
            if starts_with_chars(path, "~/") {
                let n = path.unicode_len();
                let rest = path.substring_char(1, n);
                let mut out = h.to_owned();
                out.append(rest);
                out
            } else {
                path.to_owned()
            }
        },
        None => path.to_owned(),
    }
}

/// One trailing carriage return is dropped from a line that a newline
/// terminated.
pub open spec fn strip_cr(line: Seq<char>) -> Seq<char> {
    if line.len() > 0 && line[line.len() - 1] == '\r' {
        line.drop_last()
    } else {
        line
    }
}

/// Index of the first newline, or the length if there is none.
pub open spec fn first_nl(s: Seq<char>) -> int
    decreases s.len(),
{
    if s.len() == 0 {
        0
    } else if s[0] == '\n' {
        0
    } else {
        1 + first_nl(s.drop_first())
    }
}

proof fn lemma_first_nl_is(s: Seq<char>, i: int)
    requires
        0 <= i <= s.len(),
        forall|k: int| 0 <= k < i ==> s[k] != '\n',
        i == s.len() || s[i] == '\n',
    ensures
        first_nl(s) == i,
    decreases i,
{
    if s.len() == 0 {
    } else if s[0] == '\n' {
        assert(i == 0);
    } else {
        let t = s.drop_first();
        assert(t =~= s.subrange(1, s.len() as int));
        lemma_first_nl_is(t, i - 1);
    }
}

/// The lines of a text, split at newlines, each line's one trailing
/// carriage return dropped, the final line ending optional.
pub open spec fn spec_lines(s: Seq<char>) -> Seq<Seq<char>>
    decreases s.len(),
{
    if s.len() == 0 {
        Seq::empty()
    } else {
        let i = first_nl(s);
        if 0 <= i < s.len() {
            seq![strip_cr(s.subrange(0, i))] + spec_lines(s.subrange(i + 1, s.len() as int))
        } else {
            seq![s]
        }
    }
}

/// The views of a vector of strings.
pub open spec fn views_of(ls: Seq<String>) -> Seq<Seq<char>> {
    Seq::new(ls.len(), |i: int| ls[i]@)
}

/// Split a text into its lines, as `str::lines` does: split at `\n`,
/// drop one `\r` before each split point, no trailing empty line.
pub fn split_lines(s: &str) -> (r: Vec<String>)
    ensures
        views_of(r@) == spec_lines(s@),
{
    let n = s.unicode_len();
    let mut out: Vec<String> = Vec::new();
    let mut pos: usize = 0;
    proof {
        assert(s@.subrange(0, n as int) =~= s@);
        assert(views_of(out@) =~= Seq::<Seq<char>>::empty());
        assert(Seq::<Seq<char>>::empty() + spec_lines(s@) =~= spec_lines(s@));
    }
    while pos < n
        invariant
            n == s@.len(),
            pos <= n,
            spec_lines(s@) == views_of(out@) + spec_lines(s@.subrange(pos as int, n as int)),
        decreases n - pos,
    {
        let ghost pre_out = out@;
        let ghost rest = s@.subrange(pos as int, n as int);
        let mut j: usize = pos;
        while j < n && s.get_char(j) != '\n'
            invariant
                n == s@.len(),
                pos <= j <= n,
                forall|k: int| pos <= k < j ==> s@[k] != '\n',
            decreases n - j,
        {
            j += 1;
        }
        proof {
            assert forall|k: int| 0 <= k < j - pos implies rest[k] != '\n' by {
                assert(rest[k] == s@[pos + k]);
            }
            lemma_first_nl_is(rest, j - pos as int);
        }
        let line: &str = if j < n && j > pos && s.get_char(j - 1) == '\r' {
            s.substring_char(pos, j - 1)
        } else {
            s.substring_char(pos, j)
        };
        out.push(line.to_owned());
        if j < n {
            proof {
                let i = j - pos as int;
                assert(rest.subrange(0, i) =~= s@.subrange(pos as int, j as int));
                assert(strip_cr(rest.subrange(0, i)) =~= line@);
                assert(rest.subrange(i + 1, rest.len() as int) =~= s@.subrange(
                    j + 1 as int,
                    n as int,
                ));
                assert(spec_lines(rest) == seq![line@] + spec_lines(
                    s@.subrange(j + 1 as int, n as int),
                ));
                assert(views_of(out@) =~= views_of(pre_out) + seq![line@]);
                assert(views_of(out@) + spec_lines(s@.subrange(j + 1 as int, n as int)) =~= (
                views_of(pre_out) + seq![line@]) + spec_lines(s@.subrange(j + 1 as int, n as int)));
                assert((views_of(pre_out) + seq![line@]) + spec_lines(
                    s@.subrange(j + 1 as int, n as int),
                ) =~= views_of(pre_out) + (seq![line@] + spec_lines(
                    s@.subrange(j + 1 as int, n as int),
                )));
            }
            pos = j + 1;
        } else {
            proof {
                assert(first_nl(rest) == rest.len());
                assert(rest.len() > 0);
                assert(line@ =~= rest);
                assert(spec_lines(rest) == seq![rest]);
                assert(views_of(out@) =~= views_of(pre_out) + seq![line@]);
                assert(s@.subrange(n as int, n as int) =~= Seq::<char>::empty());
                assert(spec_lines(s@.subrange(n as int, n as int)) == Seq::<Seq<char>>::empty());
                assert(views_of(out@) + Seq::<Seq<char>>::empty() =~= views_of(pre_out)
                    + seq![rest]);
            }
            pos = n;
        }
    }
    proof {
        assert(s@.subrange(pos as int, n as int).len() == 0);
        assert(spec_lines(s@.subrange(pos as int, n as int)) == Seq::<Seq<char>>::empty());
        assert(views_of(out@) + Seq::<Seq<char>>::empty() =~= views_of(out@));
    }
    out
}

} // verus!
