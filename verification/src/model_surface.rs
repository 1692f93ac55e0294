//! Report of the exact surface a model is shown at inference time: the
//! structured tools and the materialized prompt sections.
//!
//! Materialized input is a sequence of sections, each opened by a header line
//! `--- phenix <kind> [<source>] ---`. Only what the model sees is reported.
use crate::lines::{lemma_next_newline, lemma_single_line, lines_of, next_newline, split_lines};
use crate::text::{bytes_lt, lemma_bytes_lt_irreflexive, lemma_bytes_lt_transitive, str_less};
use crate::invocation::lemma_encode_utf8_concat;
use crate::sorting::{lemma_insert_before_greater, lemma_stable_sort_step, stable_sort};
use vstd::utf8::{decode_utf8, encode_utf8, valid_utf8};
use vstd::prelude::*;
use vstd::string::StrSliceExecFns;

verus! {

broadcast use vstd::seq_lib::group_to_multiset_ensures;

#[verifier::external_type_specification]
#[verifier::external_body]
pub struct ExJsonValue(serde_json::Value);

/// A tool as the model sees it, with its schemas in JSON form.
#[derive(Debug, PartialEq)]
pub struct ModelSurfaceTool {
    pub id: String,
    pub description: String,
    pub input_schema: serde_json::Value,
    pub output_schema: serde_json::Value,
}

/// One materialized prompt section: where it came from and what it says.
#[derive(Clone, Debug, PartialEq, Eq)]
pub struct ModelSurfaceSection {
    pub source: String,
    pub content: String,
}

/// What a model was shown.
#[derive(Debug, PartialEq)]
pub struct ModelSurfaceReport {
    pub model: String,
    pub tools: Vec<ModelSurfaceTool>,
    pub skills: Vec<ModelSurfaceSection>,
    pub instructions: Vec<ModelSurfaceSection>,
    pub context: Vec<ModelSurfaceSection>,
    pub request: String,
    pub continuation_turns: usize,
}

/// What the report reads of an inference request.
#[derive(Debug, PartialEq)]
pub struct ModelSurfaceRequest {
    pub model: String,
    pub tools: Vec<ModelSurfaceTool>,
    pub input: Vec<u8>,
    pub continuation_turns: usize,
}

/// A parsed section with its kind.
#[derive(Clone, Debug, PartialEq, Eq)]
pub struct ParsedSection {
    pub kind: String,
    pub source: String,
    pub content: String,
}

/// The text of a parsed section.
pub struct SectionText {
    pub kind: Seq<char>,
    pub source: Seq<char>,
    pub content: Seq<char>,
}

impl ParsedSection {
    pub open spec fn text(self) -> SectionText {
        SectionText { kind: self.kind@, source: self.source@, content: self.content@ }
    }

    /// The section as reported, without its kind.
    pub fn into_public(self) -> (r: ModelSurfaceSection)
        ensures
            r.source == self.source,
            r.content == self.content,
    {
        ModelSurfaceSection { source: self.source, content: self.content }
    }
}

pub open spec fn header_prefix() -> Seq<char> {
    seq!['-', '-', '-', ' ', 'p', 'h', 'e', 'n', 'i', 'x', ' ']
}

pub open spec fn header_suffix() -> Seq<char> {
    seq![']', ' ', '-', '-', '-']
}

/// The position of the first ` [` in `body` at or after `from`, or the length.
pub open spec fn separator_at(body: Seq<char>, from: int) -> int
    decreases body.len() - from,
{
    if from + 1 >= body.len() {
        body.len() as int
    } else if body[from] == ' ' && body[from + 1] == '[' {
        from
    } else {
        separator_at(body, from + 1)
    }
}

/// The kind and source that a header line names, if it is a header line.
pub open spec fn header_parts(line: Seq<char>) -> Option<(Seq<char>, Seq<char>)> {
    let p = header_prefix().len() as int;
    let q = header_suffix().len() as int;
    if line.len() >= p + q && line.subrange(0, p) == header_prefix() && line.subrange(
        line.len() - q,
        line.len() as int,
    ) == header_suffix() {
        let body = line.subrange(p, line.len() - q);
        let k = separator_at(body, 0);
        if k + 1 < body.len() {
            Some((body.subrange(0, k), body.subrange(k + 2, body.len() as int)))
        } else {
            None
        }
    } else {
        None
    }
}

pub proof fn lemma_separator_at(body: Seq<char>, from: int)
    requires
        0 <= from,
    ensures
        from <= separator_at(body, from) || separator_at(body, from) == body.len(),
        separator_at(body, from) <= body.len(),
        separator_at(body, from) + 1 < body.len() ==> body[separator_at(body, from)] == ' '
            && body[separator_at(body, from) + 1] == '[',
        forall|j: int|
            from <= j < separator_at(body, from) && j + 1 < body.len() ==> !(#[trigger] body[j] == ' '
                && body[j + 1] == '['),
    decreases body.len() - from,
{
    if from + 1 < body.len() && !(body[from] == ' ' && body[from + 1] == '[') {
        lemma_separator_at(body, from + 1);
    }
}

pub proof fn lemma_separator_found(body: Seq<char>, from: int, k: int)
    requires
        0 <= from <= k,
        k + 1 < body.len(),
        body[k] == ' ' && body[k + 1] == '[',
        forall|j: int| from <= j < k ==> !(#[trigger] body[j] == ' ' && body[j + 1] == '['),
    ensures
        separator_at(body, from) == k,
    decreases k - from,
{
    if from < k {
        lemma_separator_found(body, from + 1, k);
    }
}

pub proof fn lemma_separator_absent(body: Seq<char>, from: int)
    requires
        0 <= from,
        forall|j: int| from <= j && j + 1 < body.len() ==> !(#[trigger] body[j] == ' ' && body[j + 1] == '['),
    ensures
        separator_at(body, from) == body.len(),
    decreases body.len() - from,
{
    if from + 1 < body.len() {
        lemma_separator_absent(body, from + 1);
    }
}

/// Whether `line` holds `pattern` at position `at`.
fn holds_at(line: &str, n: usize, pattern: &str, at: usize) -> (r: bool)
    requires
        n == line@.len(),
    ensures
        r == (at + pattern@.len() <= n && line@.subrange(at as int, at + pattern@.len()) == pattern@),
{
    let m = pattern.unicode_len();
    if at > n || m > n - at {
        return false;
    }
    let mut i: usize = 0;
    while i < m
        invariant
            m == pattern@.len(),
            n == line@.len(),
            at + m <= n,
            i <= m,
            forall|j: int| 0 <= j < i ==> line@[at + j] == pattern@[j],
        decreases m - i,
    {
        if line.get_char(at + i) != pattern.get_char(i) {
            assert(line@.subrange(at as int, at + m)[i as int] != pattern@[i as int]);
            return false;
        }
        i = i + 1;
    }
    assert(line@.subrange(at as int, at + m) =~= pattern@);
    true
}

/// The kind and source of a header line, if it is one.
pub fn parse_header(line: &str) -> (r: Option<(String, String)>)
    ensures
        match header_parts(line@) {
            Some((kind, source)) => r matches Some((k, s)) && k@ == kind && s@ == source,
            None => r is None,
        },
{
    let prefix = "--- phenix ";
    let suffix = "] ---";
    proof {
        reveal_strlit("--- phenix ");
        reveal_strlit("] ---");
        assert(prefix@ =~= header_prefix());
        assert(suffix@ =~= header_suffix());
    }
    let n = line.unicode_len();
    if n < 16 {
        return None;
    }
    if !holds_at(line, n, prefix, 0) || !holds_at(line, n, suffix, n - 5) {
        return None;
    }
    let ghost body = line@.subrange(11, n - 5);
    let blen = n - 16;
    let mut k: usize = 0;
    while k + 1 < blen
        invariant
            n == line@.len(),
            blen + 16 == n,
            k <= blen,
            line@.subrange(0, 11) == header_prefix(),
            line@.subrange(n - 5, n as int) == header_suffix(),
            body == line@.subrange(11, n - 5),
            body.len() == blen,
            forall|j: int| 0 <= j < k ==> !(#[trigger] body[j] == ' ' && body[j + 1] == '['),
        decreases blen - k,
    {
        if line.get_char(11 + k) == ' ' && line.get_char(12 + k) == '[' {
            proof {
                lemma_separator_found(body, 0, k as int);
            }
            let kind = String::from_str(line.substring_char(11, 11 + k));
            let source = String::from_str(line.substring_char(13 + k, n - 5));
            proof {
                assert(kind@ =~= body.subrange(0, k as int));
                assert(source@ =~= body.subrange(k + 2, body.len() as int));
            }
            return Some((kind, source));
        }
        k = k + 1;
    }
    proof {
        lemma_separator_absent(body, 0);
    }
    None
}

/// A line joins a section's content: the first non-empty line starts it,
/// later lines follow a line break.
pub open spec fn append_line(content: Seq<char>, line: Seq<char>) -> Seq<char> {
    if content.len() == 0 {
        line
    } else {
        content.push('\n') + line
    }
}

/// A section closed by a following header loses one trailing line break.
pub open spec fn closed_content(content: Seq<char>) -> Seq<char> {
    if content.len() > 0 && content.last() == '\n' {
        content.drop_last()
    } else {
        content
    }
}

pub open spec fn closed(s: SectionText) -> SectionText {
    SectionText { content: closed_content(s.content), ..s }
}

/// The sections finished so far and the one still open, after `lines`.
pub open spec fn section_fold(lines: Seq<Seq<char>>) -> (Seq<SectionText>, Option<SectionText>)
    decreases lines.len(),
{
    if lines.len() == 0 {
        (Seq::empty(), None)
    } else {
        let (done, current) = section_fold(lines.drop_last());
        let line = lines.last();
        match header_parts(line) {
            Some((kind, source)) => (
                match current {
                    Some(s) => done.push(closed(s)),
                    None => done,
                },
                Some(SectionText { kind, source, content: Seq::empty() }),
            ),
            None => match current {
                Some(s) => (
                    done,
                    Some(SectionText { content: append_line(s.content, line), ..s }),
                ),
                None => (done, None),
            },
        }
    }
}

/// The sections of a materialized input; text before the first header belongs to none.
pub open spec fn sections_of(text: Seq<char>) -> Seq<SectionText> {
    let (done, current) = section_fold(lines_of(text));
    match current {
        Some(s) => done.push(s),
        None => done,
    }
}

fn close_content(content: String) -> (r: String)
    ensures
        r@ == closed_content(content@),
{
    let n = content.as_str().unicode_len();
    if n > 0 && content.as_str().get_char(n - 1) == '\n' {
        let kept = String::from_str(content.as_str().substring_char(0, n - 1));
        assert(kept@ =~= content@.drop_last());
        kept
    } else {
        content
    }
}

/// Parses materialized input into its sections.
pub fn parse_sections(input: &str) -> (r: Vec<ParsedSection>)
    ensures
        r@.len() == sections_of(input@).len(),
        forall|i: int| 0 <= i < r@.len() ==> #[trigger] r@[i].text() == sections_of(input@)[i],
{
    let lines = split_lines(input);
    let ghost all = lines_of(input@);
    assert(lines@.len() == all.len());
    let mut sections: Vec<ParsedSection> = Vec::new();
    let mut current: Option<ParsedSection> = None;
    let mut i: usize = 0;
    while i < lines.len()
        invariant
            i <= lines@.len(),
            lines@.len() == all.len(),
            forall|j: int| 0 <= j < lines@.len() ==> #[trigger] lines@[j]@ == all[j],
            ({
                let (done, cur) = section_fold(all.take(i as int));
                &&& sections@.len() == done.len()
                &&& forall|j: int| 0 <= j < done.len() ==> #[trigger] sections@[j].text() == done[j]
                &&& match cur {
                    Some(s) => current matches Some(c) && c.text() == s,
                    None => current is None,
                }
            }),
        decreases lines@.len() - i,
    {
        proof {
            assert(all.take(i + 1).drop_last() =~= all.take(i as int));
            assert(all.take(i + 1).last() == lines@[i as int]@);
        }
        let line = lines[i].as_str();
        match parse_header(line) {
            Some((kind, source)) => {
                let taken = current.take();
                match taken {
                    Some(section) => {
                        let content = close_content(section.content);
                        sections.push(ParsedSection { kind: section.kind, source: section.source, content });
                    },
                    None => {},
                }
                current = Some(ParsedSection { kind, source, content: String::new() });
            },
            None => {
                let taken = current.take();
                match taken {
                    Some(section) => {
                        let mut content = section.content;
                        let ghost before = content@;
                        if content.as_str().unicode_len() > 0 {
                            content.append("\n");
                            proof {
                                reveal_strlit("\n");
                                assert(content@ =~= before.push('\n'));
                            }
                        }
                        content.append(line);
                        assert(content@ =~= append_line(before, line@));
                        current = Some(ParsedSection { kind: section.kind, source: section.source, content });
                    },
                    None => {},
                }
            },
        }
        i = i + 1;
    }
    proof {
        assert(all.take(i as int) =~= all);
    }
    match current {
        Some(section) => {
            sections.push(section);
        },
        None => {},
    }
    sections
}

/// The text that `String::from_utf8_lossy` makes of a byte string.
pub uninterp spec fn lossy_utf8(bytes: Seq<u8>) -> Seq<char>;

/// Calls `String::from_utf8_lossy`: valid UTF-8 decodes to its text, and any
/// other input to the text that the function makes of it, invalid sequences
/// replaced.
#[verifier::external_body]
fn decode_lossy(bytes: &[u8]) -> (r: String)
    ensures
        r@ == lossy_utf8(bytes@),
        valid_utf8(bytes@) ==> r@ == decode_utf8(bytes@),
{
    String::from_utf8_lossy(bytes).into_owned()
}

/// Whether `s` is the text `lit`.
pub fn is_text(s: &str, lit: &str) -> (r: bool)
    ensures
        r == (s@ == lit@),
{
    let n = s.unicode_len();
    if n != lit.unicode_len() {
        return false;
    }
    let mut i: usize = 0;
    while i < n
        invariant
            n == s@.len(),
            n == lit@.len(),
            i <= n,
            forall|j: int| 0 <= j < i ==> s@[j] == lit@[j],
        decreases n - i,
    {
        if s.get_char(i) != lit.get_char(i) {
            return false;
        }
        i = i + 1;
    }
    assert(s@ =~= lit@);
    true
}

/// The report's share of the sections: skills, instructions, other context,
/// and the content of the last request section, if any.
pub open spec fn classify(sections: Seq<SectionText>) -> (
    Seq<SectionText>,
    Seq<SectionText>,
    Seq<SectionText>,
    Option<Seq<char>>,
)
    decreases sections.len(),
{
    if sections.len() == 0 {
        (Seq::empty(), Seq::empty(), Seq::empty(), None)
    } else {
        let (skills, instructions, context, request) = classify(sections.drop_last());
        let s = sections.last();
        if s.kind == "skill"@ {
            (skills.push(s), instructions, context, request)
        } else if s.kind == "instruction"@ || s.kind == "project-instruction"@ {
            (skills, instructions.push(s), context, request)
        } else if s.kind == "request"@ {
            (skills, instructions, context, Some(s.content))
        } else {
            (skills, instructions, context.push(s), request)
        }
    }
}

pub open spec fn shown_as(r: Seq<ModelSurfaceSection>, s: Seq<SectionText>) -> bool {
    &&& r.len() == s.len()
    &&& forall|i: int|
        0 <= i < r.len() ==> #[trigger] r[i].source@ == s[i].source && r[i].content@ == s[i].content
}

/// Tools in ascending order of their ids.
pub open spec fn tools_sorted(t: Seq<ModelSurfaceTool>) -> bool {
    forall|i: int, j: int|
        0 <= i < j < t.len() ==> !bytes_lt(encode_utf8(#[trigger] t[j].id@), encode_utf8(#[trigger] t[i].id@))
}

/// The order of tools: by the bytes of their ids.
pub open spec fn tool_order() -> spec_fn(ModelSurfaceTool, ModelSurfaceTool) -> bool {
    |a: ModelSurfaceTool, b: ModelSurfaceTool| bytes_lt(encode_utf8(a.id@), encode_utf8(b.id@))
}

/// Sorts tools by id, keeping tools with equal ids in the order they came.
pub fn sort_tools(input: Vec<ModelSurfaceTool>) -> (r: Vec<ModelSurfaceTool>)
    ensures
        r@ == stable_sort(input@, tool_order()),
        tools_sorted(r@),
        r@.to_multiset() == input@.to_multiset(),
{
    let mut rest = input;
    let mut sorted: Vec<ModelSurfaceTool> = Vec::new();
    let ghost all = rest@;
    let ghost mut taken: int = 0;
    while rest.len() > 0
        invariant
            tools_sorted(sorted@),
            sorted@.to_multiset().add(rest@.to_multiset()) == all.to_multiset(),
            0 <= taken <= all.len(),
            rest@ == all.skip(taken),
            sorted@ == stable_sort(all.take(taken), tool_order()),
        decreases rest@.len(),
    {
        let ghost before_rest = rest@;
        let x = rest.remove(0);
        proof {
            assert(x == all[taken]);
            lemma_stable_sort_step(all, taken, tool_order());
        }
        proof {
            assert(before_rest =~= seq![x] + rest@);
            vstd::seq_lib::lemma_multiset_commutative(seq![x], rest@);
            assert(seq![x].to_multiset() =~= vstd::multiset::Multiset::singleton(x)) by {
                assert(seq![x] =~= Seq::<ModelSurfaceTool>::empty().push(x));
            }
        }
        let mut p: usize = 0;
        while p < sorted.len() && !str_less(x.id.as_str(), sorted[p].id.as_str())
            invariant
                p <= sorted@.len(),
                forall|k: int| 0 <= k < p ==> !bytes_lt(encode_utf8(x.id@), encode_utf8(#[trigger] sorted@[k].id@)),
            decreases sorted@.len() - p,
        {
            p = p + 1;
        }
        let ghost old_sorted = sorted@;
        sorted.insert(p, x);
        proof {
            let s = sorted@;
            assert(s =~= old_sorted.insert(p as int, x));
            assert forall|k: int| 0 <= k < p implies !(tool_order())(x, #[trigger] old_sorted[k]) by {
                assert(!bytes_lt(encode_utf8(x.id@), encode_utf8(old_sorted[k].id@)));
            }
            lemma_insert_before_greater(old_sorted, x, tool_order(), p as int);
            taken = taken + 1;
            assert(rest@ =~= all.skip(taken));
            assert forall|i: int, j: int| 0 <= i < j < s.len() implies !bytes_lt(
                encode_utf8(#[trigger] s[j].id@),
                encode_utf8(#[trigger] s[i].id@),
            ) by {
                if j < p {
                    assert(s[i] == old_sorted[i] && s[j] == old_sorted[j]);
                } else if j == p {
                    assert(s[i] == old_sorted[i]);
                } else if i > p {
                    assert(s[i] == old_sorted[i - 1] && s[j] == old_sorted[j - 1]);
                } else if i == p {
                    assert(s[j] == old_sorted[j - 1]);
                    let a = encode_utf8(s[j].id@);
                    let b = encode_utf8(x.id@);
                    let c = encode_utf8(old_sorted[p as int].id@);
                    if bytes_lt(a, b) {
                        lemma_bytes_lt_transitive(a, b, c);
                        if j - 1 == p {
                            lemma_bytes_lt_irreflexive(c);
                        }
                    }
                } else {
                    assert(s[i] == old_sorted[i] && s[j] == old_sorted[j - 1]);
                }
            }
        }
    }
    proof {
        assert(rest@ =~= Seq::<ModelSurfaceTool>::empty());
        assert(sorted@.to_multiset().add(rest@.to_multiset()) =~= sorted@.to_multiset());
        assert(all.take(taken) =~= all);
    }
    sorted
}

/// The report's sections and request are those of `text`: its sections sorted
/// into skills, instructions and other context, and the request section's
/// content as the request (all of `text` when it has no section).
pub open spec fn sections_reported(r: ModelSurfaceReport, text: Seq<char>) -> bool {
    let sections = sections_of(text);
    let (skills, instructions, context, asked) = classify(sections);
    &&& shown_as(r.skills@, skills)
    &&& shown_as(r.instructions@, instructions)
    &&& shown_as(r.context@, context)
    &&& r.request@ == if sections.len() == 0 {
        text
    } else {
        match asked {
            Some(c) => c,
            None => Seq::empty(),
        }
    }
}

/// Reports what a model was shown: its tools ordered by id, and the sections
/// of its input sorted into skills, instructions, other context and the
/// request. Input without any section is reported as the request.
pub fn model_surface_report(request: ModelSurfaceRequest) -> (r: ModelSurfaceReport)
    ensures
        r.model == request.model,
        r.continuation_turns == request.continuation_turns,
        tools_sorted(r.tools@),
        r.tools@.to_multiset() == request.tools@.to_multiset(),
        sections_reported(r, lossy_utf8(request.input@)),
        valid_utf8(request.input@) ==> sections_reported(r, decode_utf8(request.input@)),
{
    let ModelSurfaceRequest { model, tools, input, continuation_turns } = request;
    let tools = sort_tools(tools);
    let text = decode_lossy(input.as_slice());
    let sections = parse_sections(text.as_str());
    let ghost all = sections_of(text@);
    let mut skills: Vec<ModelSurfaceSection> = Vec::new();
    let mut instructions: Vec<ModelSurfaceSection> = Vec::new();
    let mut context: Vec<ModelSurfaceSection> = Vec::new();
    let mut request_text = String::new();
    let mut asked = false;
    if sections.len() == 0 {
        request_text = text;
    } else {
        let mut rest = sections;
        let mut i: usize = 0;
        let n = rest.len();
        while i < n
            invariant
                n == all.len(),
                i <= n,
                rest@.len() == n - i,
                forall|j: int| 0 <= j < rest@.len() ==> #[trigger] rest@[j].text() == all[i + j],
                ({
                    let (s, ins, c, q) = classify(all.take(i as int));
                    &&& shown_as(skills@, s)
                    &&& shown_as(instructions@, ins)
                    &&& shown_as(context@, c)
                    &&& match q {
                        Some(t) => asked && request_text@ == t,
                        None => !asked && request_text@ == Seq::<char>::empty(),
                    }
                }),
            decreases n - i,
        {
            proof {
                assert(all.take(i + 1).drop_last() =~= all.take(i as int));
            }
            let section = rest.remove(0);
            assert(section.text() == all[i as int]);
            if is_text(section.kind.as_str(), "skill") {
                skills.push(section.into_public());
            } else if is_text(section.kind.as_str(), "instruction") || is_text(
                section.kind.as_str(),
                "project-instruction",
            ) {
                instructions.push(section.into_public());
            } else if is_text(section.kind.as_str(), "request") {
                request_text = section.content;
                asked = true;
            } else {
                context.push(section.into_public());
            }
            proof {
                assert forall|j: int| 0 <= j < rest@.len() implies #[trigger] rest@[j].text() == all[i + 1
                    + j] by {}
            }
            i = i + 1;
        }
        proof {
            assert(all.take(n as int) =~= all);
        }
    }
    ModelSurfaceReport {
        model,
        tools,
        skills,
        instructions,
        context,
        request: request_text,
        continuation_turns,
    }
}


// ---------------------------------------------------------------------------
// Parsing gives back what materialization wrote
// ---------------------------------------------------------------------------

/// The header line that names a kind and a source.
pub open spec fn header_line(kind: Seq<char>, source: Seq<char>) -> Seq<char> {
    header_prefix() + kind + seq![' ', '['] + source + header_suffix()
}

/// Sections written one after another as materialization frames them, as
/// text: a line feed between sections, then each section's header line, its
/// content and a line feed.
pub open spec fn materialized_text(secs: Seq<SectionText>) -> Seq<char>
    decreases secs.len(),
{
    if secs.len() == 0 {
        Seq::empty()
    } else {
        let out = materialized_text(secs.drop_last());
        let s = secs.last();
        (if out.len() == 0 {
            out
        } else {
            out.push('\n')
        }) + header_line(s.kind, s.source).push('\n') + s.content.push('\n')
    }
}

pub open spec fn lacks(s: Seq<char>, c: char) -> bool {
    forall|j: int| 0 <= j < s.len() ==> s[j] != c
}

/// A section that parsing gives back as it was written: kind and source on
/// one line, no ` [` in the kind, content without carriage returns, not
/// starting or ending with a line feed, and none of its lines a header line.
pub open spec fn round_trips(s: SectionText) -> bool {
    &&& lacks(s.kind, '\n')
    &&& lacks(s.source, '\n')
    &&& forall|j: int| 0 <= j && j + 1 < s.kind.len() ==> !(#[trigger] s.kind[j] == ' ' && s.kind[j + 1] == '[')
    &&& lacks(s.content, '\r')
    &&& s.content.len() > 0 ==> s.content[0] != '\n' && s.content.last() != '\n'
    &&& forall|i: int|
        0 <= i < lines_of(s.content.push('\n')).len() ==> header_parts(
            #[trigger] lines_of(s.content.push('\n'))[i],
        ) is None
}

/// One line's step of `section_fold`.
pub open spec fn fold_line(state: (Seq<SectionText>, Option<SectionText>), line: Seq<char>) -> (
    Seq<SectionText>,
    Option<SectionText>,
) {
    let (done, current) = state;
    match header_parts(line) {
        Some((kind, source)) => (
            match current {
                Some(s) => done.push(closed(s)),
                None => done,
            },
            Some(SectionText { kind, source, content: Seq::empty() }),
        ),
        None => match current {
            Some(s) => (done, Some(SectionText { content: append_line(s.content, line), ..s })),
            None => (done, None),
        },
    }
}

pub open spec fn fold_lines(state: (Seq<SectionText>, Option<SectionText>), lines: Seq<Seq<char>>) -> (
    Seq<SectionText>,
    Option<SectionText>,
)
    decreases lines.len(),
{
    if lines.len() == 0 {
        state
    } else {
        fold_line(fold_lines(state, lines.drop_last()), lines.last())
    }
}

proof fn lemma_fold_append(ls: Seq<Seq<char>>, more: Seq<Seq<char>>)
    ensures
        section_fold(ls + more) == fold_lines(section_fold(ls), more),
    decreases more.len(),
{
    if more.len() == 0 {
        assert(ls + more =~= ls);
    } else {
        lemma_fold_append(ls, more.drop_last());
        assert((ls + more).drop_last() =~= ls + more.drop_last());
        assert((ls + more).last() == more.last());
    }
}

proof fn lemma_fold_front(st: (Seq<SectionText>, Option<SectionText>), x: Seq<char>, m: Seq<Seq<char>>)
    ensures
        fold_lines(st, seq![x] + m) == fold_lines(fold_line(st, x), m),
    decreases m.len(),
{
    let xs = seq![x] + m;
    if m.len() == 0 {
        assert(xs.drop_last() =~= Seq::<Seq<char>>::empty());
        assert(fold_lines(st, xs.drop_last()) == st);
        assert(xs.last() == x);
        assert(fold_lines(st, xs) == fold_line(st, x));
    } else {
        lemma_fold_front(st, x, m.drop_last());
        assert(xs.drop_last() =~= seq![x] + m.drop_last());
        assert(xs.last() == m.last());
        assert(fold_lines(st, xs) == fold_line(fold_lines(st, xs.drop_last()), xs.last()));
    }
}

proof fn lemma_header_line(kind: Seq<char>, source: Seq<char>)
    requires
        forall|j: int| 0 <= j && j + 1 < kind.len() ==> !(#[trigger] kind[j] == ' ' && kind[j + 1] == '['),
    ensures
        header_parts(header_line(kind, source)) == Some((kind, source)),
{
    let line = header_line(kind, source);
    let p = header_prefix().len() as int;
    let q = header_suffix().len() as int;
    assert(line.subrange(0, p) =~= header_prefix());
    assert(line.subrange(line.len() - q, line.len() as int) =~= header_suffix());
    let body = line.subrange(p, line.len() - q);
    assert(body =~= kind + seq![' ', '['] + source);
    let k = kind.len() as int;
    assert forall|j: int| 0 <= j < k implies !(#[trigger] body[j] == ' ' && body[j + 1] == '[') by {
        if j + 1 < k {
            assert(body[j] == kind[j] && body[j + 1] == kind[j + 1]);
        } else {
            assert(body[j + 1] == ' ');
        }
    }
    assert(body[k] == ' ' && body[k + 1] == '[');
    lemma_separator_found(body, 0, k);
    assert(body.subrange(0, k) =~= kind);
    assert(body.subrange(k + 2, body.len() as int) =~= source);
}

/// The lines of a section's content, folded into an open section whose
/// content is `acc`, join that content after it.
proof fn lemma_fold_content(
    done: Seq<SectionText>,
    s: SectionText,
    c: Seq<char>,
)
    requires
        lacks(c, '\r'),
        s.content.len() > 0 || c.len() == 0 || c[0] != '\n',
        forall|i: int|
            0 <= i < lines_of(c.push('\n')).len() ==> header_parts(#[trigger] lines_of(c.push('\n'))[i]) is None,
    ensures
        fold_lines((done, Some(s)), lines_of(c.push('\n'))) == (
            done,
            Some(SectionText { content: append_line(s.content, c), ..s }),
        ),
    decreases c.len(),
{
    lemma_next_newline(c, 0);
    let k = next_newline(c, 0);
    if k == c.len() {
        assert(lacks(c, '\n'));
        lemma_single_line(c);
        let cs = lines_of(c.push('\n'));
        assert(cs[0] == c);
        assert(cs.drop_last() =~= Seq::<Seq<char>>::empty());
        assert(fold_lines((done, Some(s)), cs.drop_last()) == (done, Some(s)));
        assert(fold_lines((done, Some(s)), cs) == fold_line((done, Some(s)), c));
    } else {
        let x = c.subrange(0, k);
        let rest = c.subrange(k + 1, c.len() as int);
        assert(lacks(x, '\n') && lacks(x, '\r'));
        lemma_single_line(x);
        assert(c.push('\n') =~= x.push('\n') + rest.push('\n'));
        crate::lines::lemma_lines_prefix(x.push('\n'), rest.push('\n'), 0);
        assert(lines_of(c.push('\n')) =~= seq![x] + lines_of(rest.push('\n')));
        assert(lines_of(c.push('\n'))[0] == x);
        lemma_fold_front((done, Some(s)), x, lines_of(rest.push('\n')));
        let s1 = SectionText { content: append_line(s.content, x), ..s };
        assert(fold_line((done, Some(s)), x) == (done, Some(s1)));
        assert forall|i: int| 0 <= i < lines_of(rest.push('\n')).len() implies header_parts(
            #[trigger] lines_of(rest.push('\n'))[i],
        ) is None by {
            assert(lines_of(rest.push('\n'))[i] == lines_of(c.push('\n'))[i + 1]);
        }
        if s.content.len() == 0 {
            assert(x.len() > 0);
        }
        assert(s1.content.len() > 0);
        lemma_fold_content(done, s1, rest);
        if s.content.len() == 0 {
            assert(append_line(s1.content, rest) =~= c);
        } else {
            assert(append_line(s1.content, rest) =~= s.content.push('\n') + c);
        }
    }
}

proof fn lemma_frame_chars()
    ensures
        lacks(header_prefix(), '\n'),
        lacks(header_prefix(), '\r'),
        lacks(header_suffix(), '\n'),
        lacks(header_suffix(), '\r'),
{
    assert forall|j: int| 0 <= j < header_prefix().len() implies #[trigger] header_prefix()[j] != '\n'
        && header_prefix()[j] != '\r' by {
        assert(header_prefix()[j] == '-' || header_prefix()[j] == ' ' || header_prefix()[j] == 'p'
            || header_prefix()[j] == 'h' || header_prefix()[j] == 'e' || header_prefix()[j] == 'n'
            || header_prefix()[j] == 'i' || header_prefix()[j] == 'x');
    }
    assert forall|j: int| 0 <= j < header_suffix().len() implies #[trigger] header_suffix()[j] != '\n'
        && header_suffix()[j] != '\r' by {
        assert(header_suffix()[j] == ']' || header_suffix()[j] == ' ' || header_suffix()[j] == '-');
    }
}

proof fn lemma_materialized_fold(secs: Seq<SectionText>)
    requires
        secs.len() > 0,
        forall|i: int| 0 <= i < secs.len() ==> round_trips(#[trigger] secs[i]),
    ensures
        section_fold(lines_of(materialized_text(secs))) == (secs.drop_last(), Some(secs.last())),
        materialized_text(secs).len() > 0,
        materialized_text(secs).last() == '\n',
    decreases secs.len(),
{
    let prev = secs.drop_last();
    let out = materialized_text(prev);
    let s = secs.last();
    assert(round_trips(s));
    let h = header_line(s.kind, s.source);
    lemma_header_line(s.kind, s.source);
    lemma_frame_chars();
    assert(lacks(h, '\n')) by {
        assert forall|j: int| 0 <= j < h.len() implies h[j] != '\n' by {
            let p = header_prefix().len() as int;
            let kl = s.kind.len() as int;
            let sl = s.source.len() as int;
            if j < p {
                assert(h[j] == header_prefix()[j]);
            } else if j < p + kl {
                assert(h[j] == s.kind[j - p]);
            } else if j < p + kl + 2 {
                assert(h[j] == ' ' || h[j] == '[');
            } else if j < p + kl + 2 + sl {
                assert(h[j] == s.source[j - p - kl - 2]);
            } else {
                assert(h[j] == header_suffix()[j - p - kl - 2 - sl]);
            }
        }
    }
    assert(h.last() == header_suffix().last());
    assert(header_suffix().last() == '-');
    lemma_single_line(h);
    let cl = lines_of(s.content.push('\n'));
    let tail = h.push('\n') + s.content.push('\n');
    crate::lines::lemma_lines_prefix(h.push('\n'), s.content.push('\n'), 0);
    assert(lines_of(tail) =~= seq![h] + cl);
    let fresh = SectionText { kind: s.kind, source: s.source, content: Seq::empty() };
    let filled = SectionText { content: append_line(fresh.content, s.content), ..fresh };
    assert(filled == s);
    if prev.len() == 0 {
        assert(out =~= Seq::<char>::empty());
        assert(materialized_text(secs) =~= tail);
        assert(section_fold(seq![h]) == fold_line(section_fold(Seq::<Seq<char>>::empty()), h)) by {
            assert(seq![h].drop_last() =~= Seq::<Seq<char>>::empty());
        }
        lemma_fold_append(seq![h], cl);
        assert(section_fold(seq![h]) == (Seq::<SectionText>::empty(), Some(fresh)));
        lemma_fold_content(Seq::<SectionText>::empty(), fresh, s.content);
        assert(prev =~= Seq::<SectionText>::empty());
    } else {
        assert forall|i: int| 0 <= i < prev.len() implies round_trips(#[trigger] prev[i]) by {
            assert(prev[i] == secs[i]);
        }
        lemma_materialized_fold(prev);
        let rest = seq!['\n'] + tail;
        assert(materialized_text(secs) =~= out + rest);
        crate::lines::lemma_lines_prefix(out, rest, 0);
        lemma_single_line(Seq::<char>::empty());
        assert(Seq::<char>::empty().push('\n') =~= seq!['\n']);
        crate::lines::lemma_lines_prefix(seq!['\n'], tail, 0);
        assert(lines_of(rest) =~= seq![Seq::<char>::empty()] + (seq![h] + cl));
        lemma_fold_append(lines_of(out), lines_of(rest));
        let last = prev.last();
        let st0 = (prev.drop_last(), Some(last));
        lemma_fold_front(st0, Seq::<char>::empty(), seq![h] + cl);
        assert(header_parts(Seq::<char>::empty()) is None);
        let opened = SectionText { content: append_line(last.content, Seq::<char>::empty()), ..last };
        assert(fold_line(st0, Seq::<char>::empty()) == (prev.drop_last(), Some(opened)));
        lemma_fold_front((prev.drop_last(), Some(opened)), h, cl);
        assert(round_trips(last)) by {
            assert(last == secs[prev.len() - 1]);
        }
        assert(closed_content(opened.content) =~= last.content) by {
            if last.content.len() == 0 {
                assert(opened.content =~= Seq::<char>::empty());
            } else {
                assert(opened.content =~= last.content.push('\n'));
                assert(opened.content.drop_last() =~= last.content);
            }
        }
        assert(closed(opened) == last);
        assert(prev.drop_last().push(last) =~= prev);
        assert(fold_line((prev.drop_last(), Some(opened)), h) == (prev, Some(fresh)));
        lemma_fold_content(prev, fresh, s.content);
    }
}

/// Parsing materialized text gives back the sections that were written, in
/// order, when each section is one that parsing can give back.
pub proof fn lemma_parse_undoes_materialization(secs: Seq<SectionText>)
    requires
        forall|i: int| 0 <= i < secs.len() ==> round_trips(#[trigger] secs[i]),
    ensures
        sections_of(materialized_text(secs)) == secs,
{
    if secs.len() == 0 {
        assert(materialized_text(secs) =~= Seq::<char>::empty());
        assert(lines_of(Seq::<char>::empty()) =~= Seq::<Seq<char>>::empty());
        assert(secs =~= Seq::<SectionText>::empty());
    } else {
        lemma_materialized_fold(secs);
        assert(secs.drop_last().push(secs.last()) =~= secs);
    }
}


/// The bytes that framing `secs` one after another appends to an empty output.
pub open spec fn materialized_bytes(secs: Seq<SectionText>) -> Seq<u8>
    decreases secs.len(),
{
    if secs.len() == 0 {
        Seq::empty()
    } else {
        let s = secs.last();
        crate::context::framed(
            materialized_bytes(secs.drop_last()),
            encode_utf8(s.kind),
            encode_utf8(s.source),
            encode_utf8(s.content),
        )
    }
}

proof fn lemma_frame_bytes()
    ensures
        encode_utf8(header_prefix()) == crate::context::frame_open(),
        encode_utf8(seq![' ', '[']) == seq![32u8, 91],
        encode_utf8(header_suffix().push('\n')) == crate::context::frame_close(),
        encode_utf8(seq!['\n']) == seq![10u8],
{
    {
        let lit = header_prefix();
        assert(lit =~= seq!['-', '-', '-', ' ', 'p', 'h', 'e', 'n', 'i', 'x', ' ']);
        assert forall|i: int| 0 <= i < lit.len() implies '\0' <= #[trigger] lit[i] <= '\u{7f}' by {
            assert(lit[i] == ' ' || lit[i] == '-' || lit[i] == 'e' || lit[i] == 'h' || lit[i] == 'i' || lit[i] == 'n' || lit[i] == 'p' || lit[i] == 'x');
        }
        vstd::utf8::is_ascii_chars_encode_utf8(lit);
        assert(encode_utf8(lit)[0] == lit[0] as u8);
        assert(encode_utf8(lit)[1] == lit[1] as u8);
        assert(encode_utf8(lit)[2] == lit[2] as u8);
        assert(encode_utf8(lit)[3] == lit[3] as u8);
        assert(encode_utf8(lit)[4] == lit[4] as u8);
        assert(encode_utf8(lit)[5] == lit[5] as u8);
        assert(encode_utf8(lit)[6] == lit[6] as u8);
        assert(encode_utf8(lit)[7] == lit[7] as u8);
        assert(encode_utf8(lit)[8] == lit[8] as u8);
        assert(encode_utf8(lit)[9] == lit[9] as u8);
        assert(encode_utf8(lit)[10] == lit[10] as u8);
        assert(encode_utf8(lit) =~= crate::context::frame_open());
    }
    {
        let lit = seq![' ', '['];
        assert(lit =~= seq![' ', '[']);
        assert forall|i: int| 0 <= i < lit.len() implies '\0' <= #[trigger] lit[i] <= '\u{7f}' by {
            assert(lit[i] == ' ' || lit[i] == '[');
        }
        vstd::utf8::is_ascii_chars_encode_utf8(lit);
        assert(encode_utf8(lit)[0] == lit[0] as u8);
        assert(encode_utf8(lit)[1] == lit[1] as u8);
        assert(encode_utf8(lit) =~= seq![32u8, 91]);
    }
    {
        let lit = header_suffix().push('\n');
        assert(lit =~= seq![']', ' ', '-', '-', '-', '\n']);
        assert forall|i: int| 0 <= i < lit.len() implies '\0' <= #[trigger] lit[i] <= '\u{7f}' by {
            assert(lit[i] == '\n' || lit[i] == ' ' || lit[i] == '-' || lit[i] == ']');
        }
        vstd::utf8::is_ascii_chars_encode_utf8(lit);
        assert(encode_utf8(lit)[0] == lit[0] as u8);
        assert(encode_utf8(lit)[1] == lit[1] as u8);
        assert(encode_utf8(lit)[2] == lit[2] as u8);
        assert(encode_utf8(lit)[3] == lit[3] as u8);
        assert(encode_utf8(lit)[4] == lit[4] as u8);
        assert(encode_utf8(lit)[5] == lit[5] as u8);
        assert(encode_utf8(lit) =~= crate::context::frame_close());
    }
    {
        let lit = seq!['\n'];
        assert(lit =~= seq!['\n']);
        assert forall|i: int| 0 <= i < lit.len() implies '\0' <= #[trigger] lit[i] <= '\u{7f}' by {
            assert(lit[i] == '\n');
        }
        vstd::utf8::is_ascii_chars_encode_utf8(lit);
        assert(encode_utf8(lit)[0] == lit[0] as u8);
        assert(encode_utf8(lit) =~= seq![10u8]);
    }
}

/// The framed bytes are the UTF-8 encoding of the materialized text.
pub proof fn lemma_materialized_bytes(secs: Seq<SectionText>)
    ensures
        materialized_bytes(secs) == encode_utf8(materialized_text(secs)),
    decreases secs.len(),
{
    if secs.len() > 0 {
        let prev = secs.drop_last();
        lemma_materialized_bytes(prev);
        lemma_frame_bytes();
        let out = materialized_text(prev);
        let s = secs.last();
        let lead = if out.len() == 0 {
            out
        } else {
            out.push('\n')
        };
        let open = header_prefix();
        let mid = seq![' ', '['];
        let close = header_suffix().push('\n');
        let nl = seq!['\n'];
        assert(materialized_text(secs) =~= lead + open + s.kind + mid + s.source + close + s.content + nl);
        if out.len() > 0 {
            assert(out.push('\n') =~= out + nl);
            lemma_encode_utf8_concat(out, nl);
            assert(encode_utf8(out).push(10u8) =~= encode_utf8(out) + seq![10u8]);
        } else {
            assert(encode_utf8(out) =~= Seq::<u8>::empty());
        }
        lemma_encode_utf8_concat(lead, open);
        lemma_encode_utf8_concat(lead + open, s.kind);
        lemma_encode_utf8_concat(lead + open + s.kind, mid);
        lemma_encode_utf8_concat(lead + open + s.kind + mid, s.source);
        lemma_encode_utf8_concat(lead + open + s.kind + mid + s.source, close);
        lemma_encode_utf8_concat(lead + open + s.kind + mid + s.source + close, s.content);
        lemma_encode_utf8_concat(lead + open + s.kind + mid + s.source + close + s.content, nl);
    }
}

/// Parsing the bytes that materialization framed gives back the sections
/// that were written, in order, when each section is one that parsing can
/// give back.
pub proof fn lemma_parse_undoes_framing(secs: Seq<SectionText>)
    requires
        forall|i: int| 0 <= i < secs.len() ==> round_trips(#[trigger] secs[i]),
    ensures
        valid_utf8(materialized_bytes(secs)),
        sections_of(decode_utf8(materialized_bytes(secs))) == secs,
{
    lemma_materialized_bytes(secs);
    vstd::utf8::encode_utf8_valid_utf8(materialized_text(secs));
    vstd::utf8::encode_utf8_decode_utf8(materialized_text(secs));
    lemma_parse_undoes_materialization(secs);
}


/// Appending a section with `append_section` to the bytes of `secs` (the
/// kind's and source's bytes being their UTF-8 text, and the content the
/// UTF-8 encoding of its text) gives the bytes of `secs` with that section
/// added; so a run of appends from an empty output builds `materialized_bytes`.
pub proof fn lemma_append_section_extends(
    secs: Seq<SectionText>,
    kind: Seq<char>,
    source: Seq<char>,
    content: Seq<char>,
)
    ensures
        crate::context::framed(
            materialized_bytes(secs),
            encode_utf8(kind),
            encode_utf8(source),
            encode_utf8(content),
        ) == materialized_bytes(secs.push(SectionText { kind, source, content })),
{
    assert(secs.push(SectionText { kind, source, content }).drop_last() =~= secs);
}

} // verus!
