//! The tool catalog: case-insensitive search over tool identities and
//! descriptions, served in pages bound to a catalog revision and a query.
use crate::text::{bytes_lt, lemma_bytes_lt_irreflexive, lemma_bytes_lt_transitive, str_less};
use crate::text_map::{ascending, entries_map, has_entry, key_bytes, TextMap};
use vstd::prelude::*;
use vstd::utf8::encode_utf8;

verus! {

broadcast use vstd::seq_lib::group_to_multiset_ensures;

/// The interface id of the basic tools.
pub const TOOL_SERVICE: &'static str = "phenix.tools@1";

/// The interface through which tools are registered, found and invoked.
pub struct BasicToolsInterface;

impl BasicToolsInterface {
    pub fn interface_id() -> (r: &'static str)
        ensures
            r@ == TOOL_SERVICE@,
    {
        TOOL_SERVICE
    }
}

/// The most descriptors one page holds.
pub const MAX_CATALOG_PAGE: u32 = 100;

/// What `str::to_lowercase` makes of a text.
pub uninterp spec fn lowercase(s: Seq<char>) -> Seq<char>;

/// Calls `str::to_lowercase`.
#[verifier::external_body]
fn to_lowercase(s: &str) -> (r: String)
    ensures
        r@ == lowercase(s@),
{
    s.to_lowercase()
}

/// Whether `needle` occurs in `hay` as a contiguous run.
pub open spec fn occurs_in(hay: Seq<char>, needle: Seq<char>) -> bool {
    exists|i: int| 0 <= i && i + needle.len() <= hay.len() && #[trigger] hay.subrange(i, i + needle.len()) == needle
}

fn occurs_at(hay: &str, needle: &str, at: usize) -> (r: bool)
    requires
        at + needle@.len() <= hay@.len(),
    ensures
        r == (hay@.subrange(at as int, at + needle@.len()) == needle@),
{
    let n = needle.unicode_len();
    let hn = hay.unicode_len();
    let mut j: usize = 0;
    while j < n
        invariant
            n == needle@.len(),
            hn == hay@.len(),
            at + n <= hay@.len(),
            j <= n,
            forall|k: int| 0 <= k < j ==> hay@[at + k] == needle@[k],
        decreases n - j,
    {
        if hay.get_char(at + j) != needle.get_char(j) {
            assert(hay@.subrange(at as int, at + n)[j as int] != needle@[j as int]);
            return false;
        }
        j = j + 1;
    }
    assert(hay@.subrange(at as int, at + n) =~= needle@);
    true
}

/// Whether `needle` occurs in `hay`.
pub fn contains_text(hay: &str, needle: &str) -> (r: bool)
    ensures
        r == occurs_in(hay@, needle@),
{
    let h = hay.unicode_len();
    let n = needle.unicode_len();
    if n > h {
        return false;
    }
    let last = h - n;
    let mut at: usize = 0;
    loop
        invariant
            h == hay@.len(),
            n == needle@.len(),
            n <= h,
            last == h - n,
            at <= last,
            forall|i: int| 0 <= i < at ==> #[trigger] hay@.subrange(i, i + n) != needle@,
        decreases last - at,
    {
        if occurs_at(hay, needle, at) {
            return true;
        }
        if at == last {
            return false;
        }
        at = at + 1;
    }
}

/// A tool as the catalog lists it.
#[derive(Clone, Debug, PartialEq, Eq)]
pub struct CatalogEntry {
    pub id: String,
    pub description: String,
}

/// Where the next page of a search starts.
#[derive(Clone, Debug, PartialEq, Eq)]
pub struct ToolCatalogCursor {
    pub catalog_revision: String,
    pub query_identity: String,
    pub offset: u32,
}

/// The positions of one page's tools in the catalog, and the cursor of the next page.
#[derive(Clone, Debug, PartialEq, Eq)]
pub struct CatalogPage {
    pub positions: Vec<usize>,
    pub next_cursor: Option<ToolCatalogCursor>,
}

/// Why a catalog search was refused.
#[derive(Clone, Copy, Debug, PartialEq, Eq, Structural)]
pub enum CatalogError {
    ZeroLimit,
    StaleCursor,
    ForeignCursor,
    OffsetBeyondResults,
}

/// Whether a tool matches a query: every tool matches the empty query, and
/// otherwise the lower-cased query occurs in its lower-cased identity or description.
pub open spec fn matches_query(entry: CatalogEntry, query: Seq<char>) -> bool {
    query.len() == 0 || occurs_in(lowercase(entry.id@), lowercase(query)) || occurs_in(
        lowercase(entry.description@),
        lowercase(query),
    )
}

/// The positions of the matching tools, in catalog order.
pub open spec fn matching(tools: Seq<CatalogEntry>, query: Seq<char>) -> Seq<usize>
    decreases tools.len(),
{
    if tools.len() == 0 {
        Seq::empty()
    } else {
        let rest = matching(tools.drop_last(), query);
        if matches_query(tools.last(), query) {
            rest.push((tools.len() - 1) as usize)
        } else {
            rest
        }
    }
}

/// One page of a search: at most `min(limit, MAX_CATALOG_PAGE)` matching
/// tools from the cursor's offset on. A cursor must belong to this catalog
/// revision and to this query; `catalog_revision` and `query_identity` are
/// the content revisions of the catalog and of the query.
pub fn search_catalog(
    tools: &Vec<CatalogEntry>,
    query: &str,
    cursor: Option<ToolCatalogCursor>,
    limit: u32,
    catalog_revision: &String,
    query_identity: &String,
) -> (r: Result<CatalogPage, CatalogError>)
    requires
        tools@.len() <= usize::MAX,
    ensures
        limit == 0 ==> r == Err::<CatalogPage, _>(CatalogError::ZeroLimit),
        limit != 0 && (cursor matches Some(c) && c.catalog_revision@ != catalog_revision@) ==> r == Err::<
            CatalogPage,
            _,
        >(CatalogError::StaleCursor),
        limit != 0 && (cursor matches Some(c) && c.catalog_revision@ == catalog_revision@
            && c.query_identity@ != query_identity@) ==> r == Err::<CatalogPage, _>(
            CatalogError::ForeignCursor,
        ),
        limit != 0 && (cursor is None || (cursor matches Some(c) && c.catalog_revision@
            == catalog_revision@ && c.query_identity@ == query_identity@)) ==> {
            let m = matching(tools@, query@);
            let offset: int = match cursor {
                Some(c) => c.offset as int,
                None => 0,
            };
            let page: int = if limit < MAX_CATALOG_PAGE {
                limit as int
            } else {
                MAX_CATALOG_PAGE as int
            };
            let end: int = if offset + page < m.len() {
                offset + page
            } else {
                m.len() as int
            };
            if offset > m.len() {
                r == Err::<CatalogPage, _>(CatalogError::OffsetBeyondResults)
            } else {
                r matches Ok(p) && {
                    &&& p.positions@ == m.subrange(offset, end)
                    &&& if end < m.len() {
                        p.next_cursor matches Some(n) && n.catalog_revision == *catalog_revision
                            && n.query_identity == *query_identity && n.offset == (if end <= u32::MAX {
                            end as u32
                        } else {
                            u32::MAX
                        })
                    } else {
                        p.next_cursor is None
                    }
                }
            }
        },
{
    if limit == 0 {
        return Err(CatalogError::ZeroLimit);
    }
    let offset: usize = match &cursor {
        Some(c) => {
            if !(c.catalog_revision == *catalog_revision) {
                return Err(CatalogError::StaleCursor);
            }
            if !(c.query_identity == *query_identity) {
                return Err(CatalogError::ForeignCursor);
            }
            c.offset as usize
        },
        None => 0,
    };
    let needle = to_lowercase(query);
    let empty = query.unicode_len() == 0;
    let mut matched: Vec<usize> = Vec::new();
    let mut i: usize = 0;
    while i < tools.len()
        invariant
            i <= tools@.len(),
            needle@ == lowercase(query@),
            empty == (query@.len() == 0),
            matched@ == matching(tools@.take(i as int), query@),
            forall|k: int| 0 <= k < matched@.len() ==> matched@[k] < i,
        decreases tools@.len() - i,
    {
        let tool = &tools[i];
        let hit = empty || contains_text(to_lowercase(tool.id.as_str()).as_str(), needle.as_str())
            || contains_text(to_lowercase(tool.description.as_str()).as_str(), needle.as_str());
        proof {
            assert(tools@.take(i + 1).drop_last() =~= tools@.take(i as int));
            assert(tools@.take(i + 1).last() == tools@[i as int]);
        }
        if hit {
            matched.push(i);
        }
        i = i + 1;
    }
    proof {
        assert(tools@.take(i as int) =~= tools@);
    }
    if offset > matched.len() {
        return Err(CatalogError::OffsetBeyondResults);
    }
    let page: usize = if limit < MAX_CATALOG_PAGE {
        limit as usize
    } else {
        MAX_CATALOG_PAGE as usize
    };
    let end: usize = if (offset as u128) + (page as u128) < (matched.len() as u128) {
        offset + page
    } else {
        matched.len()
    };
    let mut positions: Vec<usize> = Vec::new();
    let mut k: usize = offset;
    while k < end
        invariant
            offset <= k <= end,
            end <= matched@.len(),
            positions@ == matched@.subrange(offset as int, k as int),
        decreases end - k,
    {
        positions.push(matched[k]);
        proof {
            assert(matched@.subrange(offset as int, k + 1) =~= matched@.subrange(offset as int, k as int).push(
                matched@[k as int],
            ));
        }
        k = k + 1;
    }
    let next_cursor = if end < matched.len() {
        Some(
            ToolCatalogCursor {
                catalog_revision: catalog_revision.clone(),
                query_identity: query_identity.clone(),
                offset: if (end as u128) <= (u32::MAX as u128) {
                    end as u32
                } else {
                    u32::MAX
                },
            },
        )
    } else {
        None
    };
    Ok(CatalogPage { positions, next_cursor })
}

// ---------------------------------------------------------------------------
// Schemas, the tool index, and invocation
// ---------------------------------------------------------------------------

/// Why schemas could not be loaded.
#[derive(Clone, Debug, PartialEq, Eq)]
pub enum SchemaError {
    StaleRevision,
    UnknownSchema { id: String },
}

/// The texts of a list, as a set.
pub open spec fn text_set(s: Seq<String>) -> Set<Seq<char>> {
    Set::new(|x: Seq<char>| exists|i: int| 0 <= i < s.len() && (#[trigger] s[i])@ == x)
}

/// Whether a catalog holds a tool with an identity.
pub open spec fn in_catalog(tools: Seq<CatalogEntry>, id: Seq<char>) -> bool {
    exists|i: int| 0 <= i < tools.len() && (#[trigger] tools[i]).id@ == id
}

/// Whether `i` is the last position of a tool with identity `id`.
pub open spec fn last_position(tools: Seq<CatalogEntry>, id: Seq<char>, i: int) -> bool {
    &&& 0 <= i < tools.len()
    &&& tools[i].id@ == id
    &&& forall|j: int| i < j < tools.len() ==> (#[trigger] tools[j]).id@ != id
}

/// The tool positions by identity, the last tool of each identity kept.
fn positions_by_id(tools: &Vec<CatalogEntry>) -> (r: TextMap<usize>)
    ensures
        r.wf(),
        forall|k: Seq<char>| #[trigger] r@.contains_key(k) <==> in_catalog(tools@, k),
        forall|k: Seq<char>| #[trigger] r@.contains_key(k) ==> last_position(tools@, k, r@[k] as int),
{
    let mut m: TextMap<usize> = TextMap::new();
    let mut i: usize = 0;
    while i < tools.len()
        invariant
            m.wf(),
            i <= tools@.len(),
            forall|k: Seq<char>| #[trigger] m@.contains_key(k) <==> in_catalog(tools@.take(i as int), k),
            forall|k: Seq<char>| #[trigger] m@.contains_key(k) ==> last_position(tools@.take(i as int), k, m@[k] as int),
        decreases tools@.len() - i,
    {
        m.insert(tools[i].id.clone(), i);
        proof {
            let before = tools@.take(i as int);
            let after = tools@.take(i + 1);
            assert forall|k: Seq<char>| #[trigger] m@.contains_key(k) <==> in_catalog(after, k) by {
                if in_catalog(after, k) {
                    let j = choose|j: int| 0 <= j < after.len() && (#[trigger] after[j]).id@ == k;
                    if j < i {
                        assert(before[j] == after[j]);
                    }
                }
                if in_catalog(before, k) {
                    let j = choose|j: int| 0 <= j < before.len() && (#[trigger] before[j]).id@ == k;
                    assert(after[j] == before[j]);
                }
                if k == tools@[i as int].id@ {
                    assert(after[i as int] == tools@[i as int]);
                }
            }
            assert forall|k: Seq<char>| #[trigger] m@.contains_key(k) implies last_position(after, k, m@[k] as int) by {
                if k != tools@[i as int].id@ {
                    assert forall|j: int| m@[k] < j < after.len() implies (#[trigger] after[j]).id@ != k by {
                        if j < i {
                            assert(after[j] == before[j]);
                        }
                    }
                    assert(after[m@[k] as int] == before[m@[k] as int]);
                }
            }
        }
        i = i + 1;
    }
    proof {
        assert(tools@.take(i as int) =~= tools@);
    }
    m
}

/// The requested identities as a set, each once, in ascending order.
fn requested_ids(ids: &Vec<String>) -> (r: TextMap<()>)
    ensures
        r.wf(),
        forall|k: Seq<char>| #[trigger] r@.contains_key(k) <==> text_set(ids@).contains(k),
{
    let mut m: TextMap<()> = TextMap::new();
    let mut i: usize = 0;
    while i < ids.len()
        invariant
            m.wf(),
            i <= ids@.len(),
            forall|k: Seq<char>| #[trigger] m@.contains_key(k) <==> text_set(ids@.take(i as int)).contains(k),
        decreases ids@.len() - i,
    {
        m.insert(ids[i].clone(), ());
        proof {
            let before = ids@.take(i as int);
            let after = ids@.take(i + 1);
            assert forall|k: Seq<char>| #[trigger] m@.contains_key(k) <==> text_set(after).contains(k) by {
                if text_set(after).contains(k) {
                    let j = choose|j: int| 0 <= j < after.len() && (#[trigger] after[j])@ == k;
                    if j < i {
                        assert(before[j] == after[j]);
                        assert(text_set(before).contains(k));
                    }
                }
                if text_set(before).contains(k) {
                    let j = choose|j: int| 0 <= j < before.len() && (#[trigger] before[j])@ == k;
                    assert(after[j] == before[j]);
                }
                if k == ids@[i as int]@ {
                    assert(after[i as int] == ids@[i as int]);
                }
            }
        }
        i = i + 1;
    }
    proof {
        assert(ids@.take(i as int) =~= ids@);
    }
    m
}

/// The positions of the requested tools: every requested tool is in the
/// catalog, each is at its last position, they come in ascending order of
/// identity, and they are exactly the requested ones.
pub open spec fn selected_in_order(tools: Seq<CatalogEntry>, ids: Seq<String>, ps: Seq<usize>) -> bool {
    &&& forall|k: Seq<char>| text_set(ids).contains(k) ==> in_catalog(tools, k)
    &&& forall|i: int| 0 <= i < ps.len() ==> last_position(tools, tools[#[trigger] ps[i] as int].id@, ps[i] as int)
    &&& forall|i: int, j: int|
        0 <= i < j < ps.len() ==> bytes_lt(
            key_bytes(tools[#[trigger] ps[i] as int].id@),
            key_bytes(tools[#[trigger] ps[j] as int].id@),
        )
    &&& forall|k: Seq<char>|
        text_set(ids).contains(k) <==> exists|i: int| 0 <= i < ps.len() && tools[#[trigger] ps[i] as int].id@ == k
}

/// The requested identity, smallest in byte order, that the catalog lacks.
pub open spec fn first_missing(tools: Seq<CatalogEntry>, ids: Seq<String>, id: Seq<char>) -> bool {
    &&& text_set(ids).contains(id)
    &&& !in_catalog(tools, id)
    &&& forall|k: Seq<char>|
        #[trigger] text_set(ids).contains(k) && bytes_lt(key_bytes(k), key_bytes(id)) ==> in_catalog(tools, k)
}

/// Loads the schemas of the requested tools from a catalog at
/// `catalog_revision`: the catalog must be the one expected, and every
/// requested tool must be in it. The positions come in ascending order of
/// identity, each requested tool once, the last tool of an identity kept.
pub fn select_schemas(
    tools: &Vec<CatalogEntry>,
    ids: &Vec<String>,
    expected_revision: &String,
    catalog_revision: &String,
) -> (r: Result<Vec<usize>, SchemaError>)
    ensures
        expected_revision@ != catalog_revision@ ==> r == Err::<Vec<usize>, _>(SchemaError::StaleRevision),
        expected_revision@ == catalog_revision@ ==> match r {
            Ok(ps) => selected_in_order(tools@, ids@, ps@),
            Err(SchemaError::UnknownSchema { id }) => first_missing(tools@, ids@, id@),
            Err(SchemaError::StaleRevision) => false,
        },
{
    if !(*expected_revision == *catalog_revision) {
        return Err(SchemaError::StaleRevision);
    }
    let available = positions_by_id(tools);
    let requested = requested_ids(ids);
    let ghost req = requested.entry_seq();
    proof {
        requested.lemma_entries();
    }
    let mut out: Vec<usize> = Vec::new();
    let mut i: usize = 0;
    while i < requested.len()
        invariant
            available.wf(),
            requested.wf(),
            expected_revision@ == catalog_revision@,
            req == requested.entry_seq(),
            ascending(req),
            requested@ == entries_map(req),
            forall|k: Seq<char>| #[trigger] requested@.contains_key(k) <==> has_entry(req, k),
            forall|k: Seq<char>| #[trigger] requested@.contains_key(k) <==> text_set(ids@).contains(k),
            forall|k: Seq<char>| #[trigger] available@.contains_key(k) <==> in_catalog(tools@, k),
            forall|k: Seq<char>| #[trigger] available@.contains_key(k) ==> last_position(tools@, k, available@[k] as int),
            i <= req.len(),
            out@.len() == i,
            forall|j: int| 0 <= j < i ==> #[trigger] out@[j] == available@[req[j].0@] && available@.contains_key(req[j].0@),
        decreases req.len() - i,
    {
        let (id, _) = requested.entry(i);
        match available.get(id) {
            None => {
                proof {
                    assert(has_entry(req, req[i as int].0@));
                    assert(requested@.contains_key(id@));
                    assert(text_set(ids@).contains(id@));
                    assert(!in_catalog(tools@, id@));
                    assert forall|k: Seq<char>| #[trigger] text_set(ids@).contains(k) && bytes_lt(key_bytes(k), key_bytes(req[i as int].0@)) implies in_catalog(tools@, k) by {
                        assert(requested@.contains_key(k));
                        let j = choose|j: int| 0 <= j < req.len() && #[trigger] req[j].0@ == k;
                        if j >= i {
                            if j > i {
                                assert(bytes_lt(key_bytes(req[i as int].0@), key_bytes(req[j].0@)));
                                lemma_bytes_lt_transitive(key_bytes(k), key_bytes(req[i as int].0@), key_bytes(k));
                            }
                            lemma_bytes_lt_irreflexive(key_bytes(k));
                        }
                        assert(out@[j] == available@[req[j].0@]);
                        assert(available@.contains_key(req[j].0@));
                    }
                }
                return Err(SchemaError::UnknownSchema { id: id.clone() });
            },
            Some(p) => {
                let ghost before = out@;
                out.push(*p);
                proof {
                    assert(out@[i as int] == available@[req[i as int].0@]);
                    assert forall|j: int| 0 <= j < i + 1 implies #[trigger] out@[j] == available@[req[j].0@]
                        && available@.contains_key(req[j].0@) by {
                        if j < i {
                            assert(out@[j] == before[j]);
                        }
                    }
                }
            },
        }
        i = i + 1;
    }
    proof {
        assert forall|k: Seq<char>| text_set(ids@).contains(k) implies in_catalog(tools@, k) by {
            assert(requested@.contains_key(k));
            let j = choose|j: int| 0 <= j < req.len() && #[trigger] req[j].0@ == k;
            assert(out@[j] == available@[req[j].0@]);
            assert(available@.contains_key(req[j].0@));
        }
        assert forall|a: int| 0 <= a < out@.len() implies last_position(tools@, tools@[#[trigger] out@[a] as int].id@, out@[a] as int) by {
            assert(out@[a] == available@[req[a].0@]);
            assert(last_position(tools@, req[a].0@, available@[req[a].0@] as int));
        }
        assert forall|a: int, b: int| 0 <= a < b < out@.len() implies bytes_lt(
            key_bytes(tools@[#[trigger] out@[a] as int].id@),
            key_bytes(tools@[#[trigger] out@[b] as int].id@),
        ) by {
            assert(out@[a] == available@[req[a].0@]);
            assert(out@[b] == available@[req[b].0@]);
            assert(last_position(tools@, req[a].0@, available@[req[a].0@] as int));
            assert(last_position(tools@, req[b].0@, available@[req[b].0@] as int));
        }
        assert forall|k: Seq<char>|
            text_set(ids@).contains(k) <==> exists|a: int| 0 <= a < out@.len() && tools@[#[trigger] out@[a] as int].id@ == k by {
            if text_set(ids@).contains(k) {
                assert(requested@.contains_key(k));
                let j = choose|j: int| 0 <= j < req.len() && #[trigger] req[j].0@ == k;
                assert(out@[j] == available@[req[j].0@]);
                assert(last_position(tools@, req[j].0@, available@[req[j].0@] as int));
                assert(tools@[out@[j] as int].id@ == k);
            }
            if exists|a: int| 0 <= a < out@.len() && tools@[#[trigger] out@[a] as int].id@ == k {
                let a = choose|a: int| 0 <= a < out@.len() && tools@[#[trigger] out@[a] as int].id@ == k;
                assert(out@[a] == available@[req[a].0@]);
                assert(last_position(tools@, req[a].0@, available@[req[a].0@] as int));
                assert(has_entry(req, req[a].0@));
                assert(requested@.contains_key(k));
            }
        }
        assert(selected_in_order(tools@, ids@, out@));
    }
    Ok(out)
}

/// What invoking a tool gives: its output prefix, then the input.
pub fn tool_output(output_prefix: &[u8], input: &[u8]) -> (r: Vec<u8>)
    ensures
        r@ == output_prefix@ + input@,
{
    let mut out: Vec<u8> = Vec::new();
    let mut i: usize = 0;
    while i < output_prefix.len()
        invariant
            i <= output_prefix@.len(),
            out@ == output_prefix@.take(i as int),
        decreases output_prefix@.len() - i,
    {
        out.push(output_prefix[i]);
        proof {
            assert(output_prefix@.take(i + 1) =~= output_prefix@.take(i as int).push(output_prefix@[i as int]));
        }
        i = i + 1;
    }
    let mut j: usize = 0;
    while j < input.len()
        invariant
            j <= input@.len(),
            out@ == output_prefix@ + input@.take(j as int),
        decreases input@.len() - j,
    {
        out.push(input[j]);
        proof {
            assert(input@.take(j + 1) =~= input@.take(j as int).push(input@[j as int]));
            assert(output_prefix@ + input@.take(j + 1) =~= (output_prefix@ + input@.take(j as int)).push(input@[j as int]));
        }
        j = j + 1;
    }
    proof {
        assert(output_prefix@.take(output_prefix@.len() as int) =~= output_prefix@);
        assert(input@.take(input@.len() as int) =~= input@);
    }
    out
}

/// Texts in ascending byte order.
pub open spec fn texts_sorted(s: Seq<String>) -> bool {
    forall|i: int, j: int|
        0 <= i < j < s.len() ==> !bytes_lt(encode_utf8(#[trigger] s[j]@), encode_utf8(#[trigger] s[i]@))
}

/// Sorts texts in ascending byte order, as `Vec::sort` sorts strings.
pub fn sort_texts(input: Vec<String>) -> (r: Vec<String>)
    ensures
        texts_sorted(r@),
        r@.to_multiset() == input@.to_multiset(),
{
    let mut rest = input;
    let mut sorted: Vec<String> = Vec::new();
    let ghost all = rest@;
    while rest.len() > 0
        invariant
            texts_sorted(sorted@),
            sorted@.to_multiset().add(rest@.to_multiset()) == all.to_multiset(),
        decreases rest@.len(),
    {
        let ghost before_rest = rest@;
        let x = rest.remove(0);
        proof {
            assert(before_rest =~= seq![x] + rest@);
            vstd::seq_lib::lemma_multiset_commutative(seq![x], rest@);
            assert(seq![x].to_multiset() =~= vstd::multiset::Multiset::singleton(x)) by {
                assert(seq![x] =~= Seq::<String>::empty().push(x));
            }
        }
        let mut p: usize = 0;
        while p < sorted.len() && !str_less(x.as_str(), sorted[p].as_str())
            invariant
                p <= sorted@.len(),
                forall|k: int| 0 <= k < p ==> !bytes_lt(encode_utf8(x@), encode_utf8(#[trigger] sorted@[k]@)),
            decreases sorted@.len() - p,
        {
            p = p + 1;
        }
        let ghost old_sorted = sorted@;
        sorted.insert(p, x);
        proof {
            let s = sorted@;
            assert(s =~= old_sorted.insert(p as int, x));
            assert forall|i: int, j: int| 0 <= i < j < s.len() implies !bytes_lt(
                encode_utf8(#[trigger] s[j]@),
                encode_utf8(#[trigger] s[i]@),
            ) by {
                if j < p {
                    assert(s[i] == old_sorted[i] && s[j] == old_sorted[j]);
                } else if j == p {
                    assert(s[i] == old_sorted[i]);
                } else if i > p {
                    assert(s[i] == old_sorted[i - 1] && s[j] == old_sorted[j - 1]);
                } else if i == p {
                    assert(s[j] == old_sorted[j - 1]);
                    let a = encode_utf8(s[j]@);
                    let b = encode_utf8(x@);
                    let c = encode_utf8(old_sorted[p as int]@);
                    if bytes_lt(a, b) {
                        lemma_bytes_lt_transitive(a, b, c);
                        if j - 1 == p {
                            lemma_bytes_lt_irreflexive(c);
                        }
                    }
                } else {
                    assert(s[i] == old_sorted[i] && s[j] == old_sorted[j - 1]);
                }
            }
            assert(s.to_multiset() =~= old_sorted.to_multiset().insert(x));
            assert(sorted@.to_multiset().add(rest@.to_multiset()) =~= all.to_multiset());
        }
    }
    proof {
        assert(rest@ =~= Seq::<String>::empty());
        assert(sorted@.to_multiset().add(rest@.to_multiset()) =~= sorted@.to_multiset());
    }
    sorted
}

/// The index of tool identities after registering a tool: unchanged if it
/// lists the identity already, and otherwise with it added and sorted.
pub fn index_with(ids: Vec<String>, id: String) -> (r: Vec<String>)
    ensures
        text_set(ids@).contains(id@) ==> r@ == ids@,
        !text_set(ids@).contains(id@) ==> texts_sorted(r@) && r@.to_multiset() == ids@.push(id).to_multiset(),
{
    let mut i: usize = 0;
    while i < ids.len()
        invariant
            i <= ids@.len(),
            forall|j: int| 0 <= j < i ==> (#[trigger] ids@[j])@ != id@,
        decreases ids@.len() - i,
    {
        if ids[i] == id {
            assert(ids@[i as int]@ == id@);
            return ids;
        }
        i = i + 1;
    }
    let mut all = ids;
    all.push(id);
    sort_texts(all)
}

} // verus!
