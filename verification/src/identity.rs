use vstd::prelude::*;
use vstd::string::StrSliceExecFns;

verus! {

/// The characters that carry the Unicode `White_Space` property.
pub open spec fn is_white_space(c: char) -> bool {
    ||| ('\u{9}' <= c && c <= '\u{d}')
    ||| c == ' '
    ||| c == '\u{85}'
    ||| c == '\u{a0}'
    ||| c == '\u{1680}'
    ||| ('\u{2000}' <= c && c <= '\u{200a}')
    ||| c == '\u{2028}'
    ||| c == '\u{2029}'
    ||| c == '\u{202f}'
    ||| c == '\u{205f}'
    ||| c == '\u{3000}'
}

/// A text is blank when trimming its surrounding white space leaves nothing.
pub open spec fn is_blank(s: Seq<char>) -> bool {
    forall|i: int| 0 <= i < s.len() ==> is_white_space(#[trigger] s[i])
}

pub fn char_is_white_space(c: char) -> (r: bool)
    ensures
        r == is_white_space(c),
{
    ('\u{9}' <= c && c <= '\u{d}') || c == ' ' || c == '\u{85}' || c == '\u{a0}' || c
        == '\u{1680}' || ('\u{2000}' <= c && c <= '\u{200a}') || c == '\u{2028}' || c == '\u{2029}'
        || c == '\u{202f}' || c == '\u{205f}' || c == '\u{3000}'
}

/// Whether `value.trim()` is empty.
pub fn is_blank_str(value: &str) -> (r: bool)
    ensures
        r == is_blank(value@),
{
    let mut blank = true;
    for c in it: value.chars()
        invariant
            it.seq() == value@,
            blank == (forall|j: int| 0 <= j < it.index() ==> is_white_space(#[trigger] value@[j])),
    {
        if !char_is_white_space(c) {
            blank = false;
        }
    }
    blank
}

/// `s` without its leading white space.
pub open spec fn trim_start(s: Seq<char>) -> Seq<char>
    decreases s.len(),
{
    if s.len() > 0 && is_white_space(s[0]) {
        trim_start(s.drop_first())
    } else {
        s
    }
}

/// `s` without its trailing white space.
pub open spec fn trim_end(s: Seq<char>) -> Seq<char>
    decreases s.len(),
{
    if s.len() > 0 && is_white_space(s.last()) {
        trim_end(s.drop_last())
    } else {
        s
    }
}

/// `s` without its leading and trailing white space.
pub open spec fn trimmed(s: Seq<char>) -> Seq<char> {
    trim_end(trim_start(s))
}

/// Trimming the start drops exactly the white space before the first other character.
pub proof fn lemma_trim_start(s: Seq<char>, k: int)
    requires
        0 <= k <= s.len(),
        forall|i: int| 0 <= i < k ==> is_white_space(#[trigger] s[i]),
        k == s.len() || !is_white_space(s[k]),
    ensures
        trim_start(s) == s.subrange(k, s.len() as int),
    decreases k,
{
    if k == 0 {
        assert(s.subrange(0, s.len() as int) =~= s);
    } else {
        let t = s.drop_first();
        assert forall|i: int| 0 <= i < k - 1 implies is_white_space(#[trigger] t[i]) by {
            assert(t[i] == s[i + 1]);
        }
        lemma_trim_start(t, k - 1);
        assert(t.subrange(k - 1, t.len() as int) =~= s.subrange(k, s.len() as int));
    }
}

/// Trimming the end drops exactly the white space after the last other character.
pub proof fn lemma_trim_end(s: Seq<char>, m: int)
    requires
        0 <= m <= s.len(),
        forall|i: int| m <= i < s.len() ==> is_white_space(#[trigger] s[i]),
        m == 0 || !is_white_space(s[m - 1]),
    ensures
        trim_end(s) == s.subrange(0, m),
    decreases s.len() - m,
{
    if m == s.len() {
        assert(s.subrange(0, m) =~= s);
    } else {
        let t = s.drop_last();
        assert forall|i: int| m <= i < t.len() implies is_white_space(#[trigger] t[i]) by {
            assert(t[i] == s[i]);
        }
        lemma_trim_end(t, m);
        assert(t.subrange(0, m) =~= s.subrange(0, m));
    }
}

/// `value` without its leading and trailing white space, as `str::trim` gives it.
pub fn trim_white_space(value: &str) -> (r: &str)
    ensures
        r@ == trimmed(value@),
        exists|i: int, j: int| 0 <= i <= j <= value@.len() && r@ == value@.subrange(i, j),
{
    let n = value.unicode_len();
    let mut start: usize = n;
    let mut end: usize = 0;
    let mut seen = false;
    let mut i: usize = 0;
    for c in it: value.chars()
        invariant
            it.seq() == value@,
            n == value@.len(),
            i == it.index(),
            !seen ==> start == n && end == 0 && forall|j: int| 0 <= j < i ==> is_white_space(#[trigger] value@[j]),
            seen ==> start < end <= i && !is_white_space(value@[start as int]) && !is_white_space(value@[end - 1]),
            seen ==> forall|j: int| 0 <= j < start ==> is_white_space(#[trigger] value@[j]),
            seen ==> forall|j: int| end <= j < i ==> is_white_space(#[trigger] value@[j]),
    {
        if !char_is_white_space(c) {
            if !seen {
                start = i;
                seen = true;
            }
            end = i + 1;
        }
        i = i + 1;
    }
    if !seen {
        start = n;
        end = n;
    }
    proof {
        let s = value@;
        lemma_trim_start(s, start as int);
        let t = s.subrange(start as int, s.len() as int);
        if seen {
            assert forall|j: int| end - start <= j < t.len() implies is_white_space(#[trigger] t[j]) by {
                assert(t[j] == s[j + start]);
            }
            assert(t[end - start - 1] == s[end - 1]);
        }
        lemma_trim_end(t, end - start);
        assert(t.subrange(0, end - start) =~= s.subrange(start as int, end as int));
        assert(0 <= start <= end <= s.len());
    }
    value.substring_char(start, end)
}

/// The message of an identity that is missing.
pub open spec fn empty_identity_message(label: Seq<char>) -> Seq<char> {
    label + " must not be empty"@
}

/// An identity must hold more than white space; the error names the identity.
pub fn validate_identity(label: &str, value: &str) -> (r: Result<(), String>)
    ensures
        r is Err <==> is_blank(value@),
        r matches Err(m) ==> m@ == empty_identity_message(label@),
{
    if is_blank_str(value) {
        let mut m = String::from_str(label);
        m.append(" must not be empty");
        Err(m)
    } else {
        Ok(())
    }
}

} // verus!
