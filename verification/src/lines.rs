//! Splitting text into lines the way `str::lines` does: a line ends at `\n`,
//! a `\r` right before that `\n` belongs to the line ending, and a final line
//! ending is optional.
use vstd::prelude::*;
use vstd::string::StrSliceExecFns;

verus! {

/// The position of the first `\n` at or after `from`, or the length.
pub open spec fn next_newline(s: Seq<char>, from: int) -> int
    decreases s.len() - from,
{
    if from >= s.len() {
        s.len() as int
    } else if s[from] == '\n' {
        from
    } else {
        next_newline(s, from + 1)
    }
}

/// A line without its `\r\n` ending.
pub open spec fn without_cr(line: Seq<char>) -> Seq<char> {
    if line.len() > 0 && line.last() == '\r' {
        line.drop_last()
    } else {
        line
    }
}

/// The lines of `s` from position `from` on.
pub open spec fn lines_from(s: Seq<char>, from: int) -> Seq<Seq<char>>
    decreases s.len() - from,
{
    if from >= s.len() || from < 0 {
        Seq::empty()
    } else {
        proof {
            lemma_next_newline(s, from);
        }
        let end = next_newline(s, from);
        if end >= s.len() {
            seq![s.subrange(from, s.len() as int)]
        } else {
            seq![without_cr(s.subrange(from, end))] + lines_from(s, end + 1)
        }
    }
}

/// The lines of `s`.
pub open spec fn lines_of(s: Seq<char>) -> Seq<Seq<char>> {
    lines_from(s, 0)
}

pub proof fn lemma_next_newline(s: Seq<char>, from: int)
    requires
        0 <= from <= s.len(),
    ensures
        from <= next_newline(s, from) <= s.len(),
        forall|k: int| from <= k < next_newline(s, from) ==> s[k] != '\n',
        next_newline(s, from) < s.len() ==> s[next_newline(s, from)] == '\n',
    decreases s.len() - from,
{
    if from < s.len() && s[from] != '\n' {
        lemma_next_newline(s, from + 1);
    }
}

pub proof fn lemma_next_newline_at(s: Seq<char>, from: int, end: int)
    requires
        0 <= from <= end <= s.len(),
        forall|k: int| from <= k < end ==> s[k] != '\n',
        end < s.len() ==> s[end] == '\n',
    ensures
        next_newline(s, from) == end,
    decreases end - from,
{
    if from < end {
        lemma_next_newline_at(s, from + 1, end);
    }
}

/// The lines of `text`.
pub fn split_lines(text: &str) -> (r: Vec<String>)
    ensures
        r@.len() == lines_of(text@).len(),
        forall|i: int| 0 <= i < r@.len() ==> #[trigger] r@[i]@ == lines_of(text@)[i],
{
    let n = text.unicode_len();
    let ghost s = text@;
    let mut lines: Vec<String> = Vec::new();
    let mut start: usize = 0;
    let mut j: usize = 0;
    while j < n
        invariant
            n == s.len(),
            s == text@,
            start <= j <= n,
            forall|k: int| start <= k < j ==> s[k] != '\n',
            ({
                let expected = lines_of(s);
                let tail = lines_from(s, start as int);
                &&& expected.len() == lines@.len() + tail.len()
                &&& forall|i: int| 0 <= i < lines@.len() ==> #[trigger] lines@[i]@ == expected[i]
                &&& forall|i: int| 0 <= i < tail.len() ==> #[trigger] tail[i] == expected[lines@.len() + i]
            }),
        decreases n - j,
    {
        let c = text.get_char(j);
        if c == '\n' {
            proof {
                lemma_next_newline_at(s, start as int, j as int);
            }
            let mut end = j;
            if end > start && text.get_char(end - 1) == '\r' {
                end = end - 1;
            }
            let line = text.substring_char(start, end);
            let owned = String::from_str(line);
            proof {
                let expected = lines_of(s);
                let tail = lines_from(s, start as int);
                let rest = lines_from(s, j + 1);
                assert(owned@ =~= without_cr(s.subrange(start as int, j as int)));
                assert(tail =~= seq![without_cr(s.subrange(start as int, j as int))] + rest);
                assert(tail[0] == owned@);
                assert forall|i: int| 0 <= i < rest.len() implies #[trigger] rest[i]
                    == expected[lines@.len() + 1 + i] by {
                    assert(rest[i] == tail[i + 1]);
                }
            }
            lines.push(owned);
            start = j + 1;
        }
        j = j + 1;
    }
    if start < n {
        let line = text.substring_char(start, n);
        let owned = String::from_str(line);
        proof {
            lemma_next_newline_at(s, start as int, n as int);
            let tail = lines_from(s, start as int);
            assert(tail =~= seq![s.subrange(start as int, n as int)]);
            assert(tail[0] == owned@);
        }
        lines.push(owned);
        proof {
            let expected = lines_of(s);
            assert forall|i: int| 0 <= i < lines@.len() implies #[trigger] lines@[i]@ == expected[i] by {
                if i == lines@.len() - 1 {
                    assert(lines_from(s, start as int)[0] == expected[i]);
                }
            }
        }
    } else {
        assert(lines_from(s, start as int) =~= Seq::<Seq<char>>::empty());
    }
    lines
}


/// The lines of `a + b` from a position inside `b` are those of `b`.
pub proof fn lemma_lines_shift(a: Seq<char>, b: Seq<char>, k: int)
    requires
        0 <= k <= b.len(),
    ensures
        lines_from(a + b, a.len() + k) == lines_from(b, k),
    decreases b.len() - k,
{
    let s = a + b;
    if k < b.len() {
        lemma_next_newline(b, k);
        let e = next_newline(b, k);
        assert forall|j: int| a.len() + k <= j < a.len() + e implies s[j] != '\n' by {
            assert(s[j] == b[j - a.len()]);
        }
        if e < b.len() {
            assert(s[a.len() + e] == b[e]);
        }
        lemma_next_newline_at(s, a.len() + k, a.len() + e);
        assert(s.subrange(a.len() + k, a.len() + e) =~= b.subrange(k, e));
        assert(s.subrange(a.len() + k, s.len() as int) =~= b.subrange(k, b.len() as int));
        if e < b.len() {
            lemma_lines_shift(a, b, e + 1);
        }
    }
}

/// Text that ends a line splits apart from what follows it.
pub proof fn lemma_lines_prefix(a: Seq<char>, b: Seq<char>, from: int)
    requires
        0 <= from <= a.len(),
        a.len() > 0,
        a.last() == '\n',
    ensures
        lines_from(a + b, from) == lines_from(a, from) + lines_from(b, 0),
    decreases a.len() - from,
{
    let s = a + b;
    if from == a.len() {
        lemma_lines_shift(a, b, 0);
        assert(lines_from(a, from) + lines_from(b, 0) =~= lines_from(b, 0));
    } else {
        lemma_next_newline(a, from);
        let e = next_newline(a, from);
        if e == a.len() {
            assert(a[a.len() - 1] != '\n');
        }
        assert(e < a.len());
        assert forall|j: int| from <= j < e implies s[j] != '\n' by {
            assert(s[j] == a[j]);
        }
        assert(s[e] == a[e]);
        lemma_next_newline_at(s, from, e);
        assert(s.subrange(from, e) =~= a.subrange(from, e));
        lemma_lines_prefix(a, b, e + 1);
        assert(lines_from(s, from) == seq![without_cr(a.subrange(from, e))] + lines_from(s, e + 1));
        assert(lines_from(a, from) == seq![without_cr(a.subrange(from, e))] + lines_from(a, e + 1));
        assert(seq![without_cr(a.subrange(from, e))] + (lines_from(a, e + 1) + lines_from(b, 0)) =~= (seq![
            without_cr(a.subrange(from, e)),
        ] + lines_from(a, e + 1)) + lines_from(b, 0));
    }
}

/// One line ended by a line feed.
pub proof fn lemma_single_line(x: Seq<char>)
    requires
        forall|j: int| 0 <= j < x.len() ==> x[j] != '\n',
        x.len() == 0 || x.last() != '\r',
    ensures
        lines_of(x.push('\n')) == seq![x],
{
    let s = x.push('\n');
    assert forall|j: int| 0 <= j < x.len() implies s[j] != '\n' by {
        assert(s[j] == x[j]);
    }
    lemma_next_newline_at(s, 0, x.len() as int);
    assert(s.subrange(0, x.len() as int) =~= x);
    assert(lines_from(s, x.len() + 1int) == Seq::<Seq<char>>::empty());
    assert(lines_of(s) == seq![without_cr(x)] + lines_from(s, x.len() + 1int));
    assert(seq![x] + Seq::<Seq<char>>::empty() =~= seq![x]);
}

} // verus!
