//! Line splitting, whitespace handling and tokenization of the input text.
use vstd::prelude::*;
use vstd::string::StrSliceExecFns;
use vstd::string::StringExecFns;

verus! {

/// The characters with the Unicode `White_Space` property: what `str::trim`
/// and `str::split_whitespace` treat as a separator.
pub open spec fn is_space(c: char) -> bool {
    ||| c == ' '
    ||| c == '\t'
    ||| c == '\n'
    ||| c == '\r'
    ||| c == '\u{b}'
    ||| c == '\u{c}'
    ||| c == '\u{85}'
    ||| c == '\u{a0}'
    ||| c == '\u{1680}'
    ||| ('\u{2000}' <= c && c <= '\u{200a}')
    ||| c == '\u{2028}'
    ||| c == '\u{2029}'
    ||| c == '\u{202f}'
    ||| c == '\u{205f}'
    ||| c == '\u{3000}'
}

pub fn is_space_char(c: char) -> (r: bool)
    ensures
        r == is_space(c),
{
    c == ' ' || c == '\t' || c == '\n' || c == '\r' || c == '\u{b}' || c == '\u{c}' || c
        == '\u{85}' || c == '\u{a0}' || c == '\u{1680}' || ('\u{2000}' <= c && c <= '\u{200a}') || c
        == '\u{2028}' || c == '\u{2029}' || c == '\u{202f}' || c == '\u{205f}' || c == '\u{3000}'
}

/// A line or a stretch of text is blank when every character is whitespace.
pub open spec fn blank(s: Seq<char>) -> bool {
    forall|i: int| 0 <= i < s.len() ==> is_space(s[i])
}

/// Index of the first newline in `s`, or `s.len()` if there is none.
pub open spec fn first_nl(s: Seq<char>) -> nat
    decreases s.len(),
{
    if s.len() == 0 {
        0
    } else if s[0] == '\n' {
        0
    } else {
        1 + first_nl(s.drop_first())
    }
}

pub proof fn lemma_first_nl(s: Seq<char>, k: int)
    requires
        0 <= k <= s.len(),
        forall|j: int| 0 <= j < k ==> s[j] != '\n',
        k < s.len() ==> s[k] == '\n',
    ensures
        first_nl(s) == k,
    decreases k,
{
    if k == 0 {
    } else {
        assert(s[0] != '\n');
        let t = s.drop_first();
        assert forall|j: int| 0 <= j < k - 1 implies t[j] != '\n' by {
            assert(t[j] == s[j + 1]);
        }
        if k - 1 < t.len() {
            assert(t[k - 1] == s[k]);
        }
        lemma_first_nl(t, k - 1);
    }
}

/// A segment terminated by a newline loses one trailing carriage return,
/// as the lines of a buffered reader do.
pub open spec fn strip_cr(s: Seq<char>) -> Seq<char> {
    if s.len() > 0 && s.last() == '\r' {
        s.drop_last()
    } else {
        s
    }
}

/// The lines of the input: segments split at `'\n'`, each newline-terminated
/// segment stripped of one trailing `'\r'`; text after the last newline is a
/// final line only if it is nonempty.
pub open spec fn lines_of(s: Seq<char>) -> Seq<Seq<char>>
    decreases s.len(),
{
    if s.len() == 0 {
        seq![]
    } else {
        let i = first_nl(s) as int;
        if i < s.len() {
            seq![strip_cr(s.subrange(0, i))] + lines_of(s.subrange(i + 1, s.len() as int))
        } else {
            seq![s]
        }
    }
}

/// Index of the first whitespace character in `s`, or `s.len()` if none.
pub open spec fn first_space(s: Seq<char>) -> nat
    decreases s.len(),
{
    if s.len() == 0 {
        0
    } else if is_space(s[0]) {
        0
    } else {
        1 + first_space(s.drop_first())
    }
}

pub proof fn lemma_first_space(s: Seq<char>, k: int)
    requires
        0 <= k <= s.len(),
        forall|j: int| 0 <= j < k ==> !is_space(s[j]),
        k < s.len() ==> is_space(s[k]),
    ensures
        first_space(s) == k,
    decreases k,
{
    if k == 0 {
    } else {
        assert(!is_space(s[0]));
        let t = s.drop_first();
        assert forall|j: int| 0 <= j < k - 1 implies !is_space(t[j]) by {
            assert(t[j] == s[j + 1]);
        }
        if k - 1 < t.len() {
            assert(t[k - 1] == s[k]);
        }
        lemma_first_space(t, k - 1);
    }
}

/// The tokens of a line: the maximal runs of non-whitespace characters, as
/// `str::split_whitespace` hands them out.
pub open spec fn tokens_of(s: Seq<char>) -> Seq<Seq<char>>
    decreases s.len(),
{
    if s.len() == 0 {
        seq![]
    } else if is_space(s[0]) {
        tokens_of(s.drop_first())
    } else {
        let k = first_space(s) as int;
        if k < s.len() {
            seq![s.subrange(0, k)] + tokens_of(s.subrange(k, s.len() as int))
        } else {
            seq![s]
        }
    }
}

/// What is left of `s` after dropping leading whitespace.
pub open spec fn trim_start_of(s: Seq<char>) -> Seq<char>
    decreases s.len(),
{
    if s.len() > 0 && is_space(s[0]) {
        trim_start_of(s.drop_first())
    } else {
        s
    }
}

/// What is left of `s` after dropping trailing whitespace.
pub open spec fn trim_end_of(s: Seq<char>) -> Seq<char>
    decreases s.len(),
{
    if s.len() > 0 && is_space(s.last()) {
        trim_end_of(s.drop_last())
    } else {
        s
    }
}

/// What `str::trim` leaves of `s`.
pub open spec fn trim_of(s: Seq<char>) -> Seq<char> {
    trim_end_of(trim_start_of(s))
}

pub proof fn lemma_trim_start_at(s: Seq<char>, lo: int)
    requires
        0 <= lo <= s.len(),
        forall|j: int| 0 <= j < lo ==> is_space(s[j]),
        lo < s.len() ==> !is_space(s[lo]),
    ensures
        trim_start_of(s) =~= s.subrange(lo, s.len() as int),
    decreases lo,
{
    if lo == 0 {
        if s.len() > 0 && is_space(s[0]) {
            assert(false);
        }
    } else {
        let t = s.drop_first();
        assert forall|j: int| 0 <= j < lo - 1 implies is_space(t[j]) by {
            assert(t[j] == s[j + 1]);
        }
        if lo - 1 < t.len() {
            assert(t[lo - 1] == s[lo]);
        }
        lemma_trim_start_at(t, lo - 1);
    }
}

pub proof fn lemma_trim_end_at(s: Seq<char>, hi: int)
    requires
        0 <= hi <= s.len(),
        forall|j: int| hi <= j < s.len() ==> is_space(s[j]),
        hi > 0 ==> !is_space(s[hi - 1]),
    ensures
        trim_end_of(s) =~= s.subrange(0, hi),
    decreases s.len(),
{
    if hi == s.len() {
        if s.len() > 0 && is_space(s.last()) {
            assert(false);
        }
    } else {
        assert(is_space(s.last()));
        let t = s.drop_last();
        lemma_trim_end_at(t, hi);
    }
}

/// A blank stretch trims away to nothing, and a stretch with some
/// non-whitespace character does not.
pub proof fn lemma_trim_empty_iff_blank(s: Seq<char>)
    ensures
        trim_of(s).len() == 0 <==> blank(s),
    decreases s.len(),
{
    if s.len() == 0 {
    } else if is_space(s[0]) {
        let t = s.drop_first();
        lemma_trim_empty_iff_blank(t);
        assert forall|j: int| 0 <= j < t.len() implies t[j] == s[j + 1] by {}
        if blank(s) {
            assert(blank(t));
        }
        if blank(t) {
            assert forall|i: int| 0 <= i < s.len() implies is_space(s[i]) by {
                if i > 0 {
                    assert(t[i - 1] == s[i]);
                }
            }
        }
    } else {
        assert(trim_start_of(s) == s);
        lemma_trim_end_keeps_head(s);
        assert(!blank(s)) by {
            assert(!is_space(s[0]));
        }
    }
}

/// Trimming from the end keeps a non-whitespace head character, so the
/// result stays nonempty.
proof fn lemma_trim_end_keeps_head(s: Seq<char>)
    requires
        s.len() > 0,
        !is_space(s[0]),
    ensures
        trim_end_of(s).len() > 0,
        trim_end_of(s)[0] == s[0],
    decreases s.len(),
{
    if s.len() > 0 && is_space(s.last()) {
        let t = s.drop_last();
        assert(t[0] == s[0]);
        lemma_trim_end_keeps_head(t);
    }
}

/// A line is blank exactly when it has no tokens.
pub proof fn lemma_blank_iff_no_tokens(s: Seq<char>)
    ensures
        blank(s) <==> tokens_of(s).len() == 0,
    decreases s.len(),
{
    if s.len() == 0 {
    } else if is_space(s[0]) {
        let t = s.drop_first();
        lemma_blank_iff_no_tokens(t);
        assert forall|j: int| 0 <= j < t.len() implies t[j] == s[j + 1] by {}
        if blank(s) {
            assert(blank(t));
        }
        if blank(t) {
            assert forall|i: int| 0 <= i < s.len() implies is_space(s[i]) by {
                if i > 0 {
                    assert(t[i - 1] == s[i]);
                }
            }
        }
    } else {
        assert(!is_space(s[0]));
        assert(!blank(s));
        assert(tokens_of(s).len() > 0);
    }
}

/// The characters of a string slice, one by one.
pub fn chars_of(s: &str) -> (r: Vec<char>)
    ensures
        r@ == s@,
{
    let n = s.unicode_len();
    let mut r: Vec<char> = Vec::new();
    let mut i: usize = 0;
    while i < n
        invariant
            i <= n,
            n == s@.len(),
            r@ == s@.subrange(0, i as int),
        decreases n - i,
    {
        let c = s.get_char(i);
        r.push(c);
        assert(r@ =~= s@.subrange(0, i + 1 as int));
        i = i + 1;
    }
    assert(r@ =~= s@);
    r
}

/// The lines of the input, as a buffered reader would hand them out.
pub fn split_lines(s: &str) -> (r: Vec<String>)
    ensures
        r.deep_view() == lines_of(s@),
{
    let c = chars_of(s);
    let n = c.len();
    let mut r: Vec<String> = Vec::new();
    let mut pos: usize = 0;
    proof {
        assert(s@.subrange(0, n as int) =~= s@);
        assert(r.deep_view() =~= Seq::<Seq<char>>::empty());
        assert(r.deep_view() + lines_of(s@) =~= lines_of(s@));
    }
    while pos < n
        invariant
            pos <= n,
            n == s@.len(),
            c@ == s@,
            lines_of(s@) == r.deep_view() + lines_of(s@.subrange(pos as int, n as int)),
        decreases n - pos,
    {
        let ghost suffix = s@.subrange(pos as int, n as int);
        let mut j: usize = pos;
        while j < n && c[j] != '\n'
            invariant
                pos <= j <= n,
                n == s@.len(),
                c@ == s@,
                forall|k: int| pos <= k < j ==> s@[k] != '\n',
            decreases n - j,
        {
            j = j + 1;
        }
        proof {
            assert forall|k: int| 0 <= k < j - pos implies suffix[k] != '\n' by {
                assert(suffix[k] == s@[pos + k]);
            }
            if (j - pos) < suffix.len() {
                assert(suffix[j - pos] == s@[j as int]);
            }
            lemma_first_nl(suffix, j - pos);
        }
        if j < n {
            let end: usize = if j > pos && c[j - 1] == '\r' {
                j - 1
            } else {
                j
            };
            let line = s.substring_char(pos, end);
            proof {
                let seg = suffix.subrange(0, j - pos);
                assert(seg =~= s@.subrange(pos as int, j as int));
                if seg.len() > 0 && seg.last() == '\r' {
                    assert(strip_cr(seg) =~= s@.subrange(pos as int, end as int));
                } else {
                    assert(strip_cr(seg) =~= s@.subrange(pos as int, end as int));
                }
                assert(suffix.subrange(j - pos + 1, suffix.len() as int) =~= s@.subrange(
                    j + 1 as int,
                    n as int,
                ));
            }
            let owned = String::from_str(line);
            r.push(owned);
            proof {
                assert(r.deep_view() =~= r.deep_view().subrange(0, r.deep_view().len() - 1).push(
                    s@.subrange(pos as int, end as int),
                ));
            }
            pos = j + 1;
        } else {
            let line = s.substring_char(pos, n);
            proof {
                assert(suffix =~= s@.subrange(pos as int, n as int));
            }
            let owned = String::from_str(line);
            r.push(owned);
            proof {
                assert(s@.subrange(n as int, n as int).len() == 0);
            }
            pos = n;
        }
    }
    proof {
        assert(s@.subrange(n as int, n as int).len() == 0);
        assert(r.deep_view() =~= r.deep_view() + lines_of(s@.subrange(pos as int, n as int)));
    }
    r
}

/// The whitespace-separated tokens of a line.
pub fn tokenize(s: &str) -> (r: Vec<String>)
    ensures
        r.deep_view() == tokens_of(s@),
{
    let c = chars_of(s);
    let n = c.len();
    let mut r: Vec<String> = Vec::new();
    let mut pos: usize = 0;
    proof {
        assert(s@.subrange(0, n as int) =~= s@);
        assert(r.deep_view() =~= Seq::<Seq<char>>::empty());
        assert(r.deep_view() + tokens_of(s@) =~= tokens_of(s@));
    }
    while pos < n
        invariant
            pos <= n,
            n == s@.len(),
            c@ == s@,
            tokens_of(s@) == r.deep_view() + tokens_of(s@.subrange(pos as int, n as int)),
        decreases n - pos,
    {
        let ghost suffix = s@.subrange(pos as int, n as int);
        if is_space_char(c[pos]) {
            proof {
                assert(suffix.drop_first() =~= s@.subrange(pos + 1 as int, n as int));
            }
            pos = pos + 1;
        } else {
            let mut j: usize = pos + 1;
            while j < n && !is_space_char(c[j])
                invariant
                    pos < j <= n,
                    n == s@.len(),
                    c@ == s@,
                    forall|k: int| pos <= k < j ==> !is_space(s@[k]),
                decreases n - j,
            {
                j = j + 1;
            }
            proof {
                assert forall|k: int| 0 <= k < j - pos implies !is_space(suffix[k]) by {
                    assert(suffix[k] == s@[pos + k]);
                }
                if (j - pos) < suffix.len() {
                    assert(suffix[j - pos] == s@[j as int]);
                }
                lemma_first_space(suffix, j - pos);
                assert(suffix.subrange(0, j - pos) =~= s@.subrange(pos as int, j as int));
                if (j as int) < n {
                    assert(suffix.subrange(j - pos, suffix.len() as int) =~= s@.subrange(
                        j as int,
                        n as int,
                    ));
                } else {
                    assert(suffix =~= s@.subrange(pos as int, j as int));
                    assert(s@.subrange(j as int, n as int).len() == 0);
                }
            }
            let tok = s.substring_char(pos, j);
            let owned = String::from_str(tok);
            r.push(owned);
            proof {
                assert(r.deep_view() =~= r.deep_view().subrange(0, r.deep_view().len() - 1).push(
                    s@.subrange(pos as int, j as int),
                ));
            }
            pos = j;
        }
    }
    proof {
        assert(s@.subrange(n as int, n as int).len() == 0);
        assert(r.deep_view() =~= r.deep_view() + tokens_of(s@.subrange(pos as int, n as int)));
    }
    r
}

/// Whether every character of the slice is whitespace.
pub fn is_blank(s: &str) -> (r: bool)
    ensures
        r == blank(s@),
{
    let c = chars_of(s);
    let n = c.len();
    let mut i: usize = 0;
    while i < n
        invariant
            i <= n,
            n == s@.len(),
            c@ == s@,
            forall|k: int| 0 <= k < i ==> is_space(s@[k]),
        decreases n - i,
    {
        if !is_space_char(c[i]) {
            assert(!is_space(s@[i as int]));
            return false;
        }
        i = i + 1;
    }
    true
}

/// What `str::trim` leaves of the slice, as an owned string.
pub fn trimmed(s: &str) -> (r: String)
    ensures
        r@ == trim_of(s@),
{
    let c = chars_of(s);
    let n = c.len();
    let mut lo: usize = 0;
    while lo < n && is_space_char(c[lo])
        invariant
            lo <= n,
            n == s@.len(),
            c@ == s@,
            forall|k: int| 0 <= k < lo ==> is_space(s@[k]),
        decreases n - lo,
    {
        lo = lo + 1;
    }
    proof {
        lemma_trim_start_at(s@, lo as int);
    }
    let ghost t = s@.subrange(lo as int, n as int);
    let mut hi: usize = n;
    while hi > lo && is_space_char(c[hi - 1])
        invariant
            lo <= hi <= n,
            n == s@.len(),
            c@ == s@,
            forall|k: int| hi <= k < n ==> is_space(s@[k]),
        decreases hi,
    {
        hi = hi - 1;
    }
    proof {
        assert forall|k: int| hi - lo <= k < t.len() implies is_space(t[k]) by {
            assert(t[k] == s@[lo + k]);
        }
        if hi > lo {
            assert(t[hi - lo - 1] == s@[hi - 1]);
        }
        lemma_trim_end_at(t, hi - lo);
        assert(t.subrange(0, hi - lo) =~= s@.subrange(lo as int, hi as int));
    }
    let out = s.substring_char(lo, hi);
    String::from_str(out)
}

} // verus!
