use phenix::tools::{
    contains_text, search_catalog, BasicToolsInterface, CatalogEntry, CatalogError, CatalogPage,
    ToolCatalogCursor, MAX_CATALOG_PAGE, TOOL_SERVICE,
};

fn entry(id: &str, description: &str) -> CatalogEntry {
    CatalogEntry { id: id.into(), description: description.into() }
}

fn catalog() -> Vec<CatalogEntry> {
    vec![
        entry("bash", "Run a shell command"),
        entry("read_file", "Read a file from the workspace"),
        entry("write_file", "Write a File"),
        entry("search", "Search the catalog"),
    ]
}

fn cursor(revision: &str, query: &str, offset: u32) -> ToolCatalogCursor {
    ToolCatalogCursor { catalog_revision: revision.into(), query_identity: query.into(), offset }
}

#[test]
fn search_matches_case_insensitively_in_id_or_description() {
    let tools = catalog();
    let rev = "catalog-1".to_string();
    let query = "query-file".to_string();
    let page = search_catalog(&tools, "FILE", None, 10, &rev, &query).unwrap();
    assert_eq!(page, CatalogPage { positions: vec![1, 2], next_cursor: None });
    let page = search_catalog(&tools, "SHELL", None, 10, &rev, &query).unwrap();
    assert_eq!(page.positions, vec![0]);
    let all = search_catalog(&tools, "", None, 10, &rev, &query).unwrap();
    assert_eq!(all.positions, vec![0, 1, 2, 3]);
}

#[test]
fn pages_continue_from_their_cursor() {
    let tools = catalog();
    let rev = "catalog-1".to_string();
    let query = "query-all".to_string();
    let first = search_catalog(&tools, "", None, 3, &rev, &query).unwrap();
    assert_eq!(first.positions, vec![0, 1, 2]);
    assert_eq!(first.next_cursor, Some(cursor("catalog-1", "query-all", 3)));
    let second = search_catalog(&tools, "", first.next_cursor, 3, &rev, &query).unwrap();
    assert_eq!(second, CatalogPage { positions: vec![3], next_cursor: None });
    let at_end = search_catalog(&tools, "", Some(cursor("catalog-1", "query-all", 4)), 3, &rev, &query).unwrap();
    assert_eq!(at_end, CatalogPage { positions: Vec::new(), next_cursor: None });
}

#[test]
fn stale_foreign_and_overlong_cursors_are_refused() {
    let tools = catalog();
    let rev = "catalog-1".to_string();
    let query = "query-all".to_string();
    assert_eq!(search_catalog(&tools, "", None, 0, &rev, &query), Err(CatalogError::ZeroLimit));
    assert_eq!(
        search_catalog(&tools, "", Some(cursor("catalog-0", "query-all", 0)), 3, &rev, &query),
        Err(CatalogError::StaleCursor)
    );
    assert_eq!(
        search_catalog(&tools, "", Some(cursor("catalog-1", "query-other", 0)), 3, &rev, &query),
        Err(CatalogError::ForeignCursor)
    );
    assert_eq!(
        search_catalog(&tools, "", Some(cursor("catalog-1", "query-all", 5)), 3, &rev, &query),
        Err(CatalogError::OffsetBeyondResults)
    );
}

#[test]
fn a_page_holds_at_most_the_maximum() {
    let tools: Vec<CatalogEntry> = (0..150).map(|i| entry(&format!("tool-{i}"), "")).collect();
    let rev = "r".to_string();
    let query = "q".to_string();
    let page = search_catalog(&tools, "", None, 1000, &rev, &query).unwrap();
    assert_eq!(page.positions.len(), MAX_CATALOG_PAGE as usize);
    assert_eq!(page.next_cursor, Some(cursor("r", "q", 100)));
}

#[test]
fn text_containment_and_interface() {
    assert!(contains_text("read_file", "file"));
    assert!(contains_text("abc", ""));
    assert!(!contains_text("abc", "abcd"));
    assert!(!contains_text("abc", "ac"));
    assert_eq!(BasicToolsInterface::interface_id(), TOOL_SERVICE);
}

use phenix::tools::{index_with, select_schemas, sort_texts, tool_output, SchemaError};

#[test]
fn schemas_load_once_each_in_identity_order() {
    let tools = catalog();
    let rev = "catalog-1".to_string();
    let ids = vec!["write_file".to_string(), "bash".to_string(), "write_file".to_string()];
    assert_eq!(select_schemas(&tools, &ids, &rev, &rev), Ok(vec![0, 2]));
    assert_eq!(
        select_schemas(&tools, &ids, &"catalog-0".to_string(), &rev),
        Err(SchemaError::StaleRevision)
    );
    let missing = vec!["zzz".to_string(), "bash".to_string(), "nope".to_string()];
    assert_eq!(
        select_schemas(&tools, &missing, &rev, &rev),
        Err(SchemaError::UnknownSchema { id: "nope".into() })
    );
    assert_eq!(select_schemas(&tools, &Vec::new(), &rev, &rev), Ok(Vec::new()));
    let repeated = vec![entry("a", "first"), entry("a", "second")];
    assert_eq!(select_schemas(&repeated, &vec!["a".to_string()], &rev, &rev), Ok(vec![1]));
}

#[test]
fn the_tool_index_stays_sorted() {
    let ids = vec!["bash".to_string(), "read".to_string()];
    assert_eq!(index_with(ids.clone(), "read".into()), ids);
    assert_eq!(
        index_with(ids, "edit".into()),
        vec!["bash".to_string(), "edit".to_string(), "read".to_string()]
    );
    assert_eq!(
        sort_texts(vec!["b".into(), "B".into(), "a".into(), "b".into()]),
        vec!["B".to_string(), "a".to_string(), "b".to_string(), "b".to_string()]
    );
}

#[test]
fn invoking_a_tool_prefixes_its_input() {
    assert_eq!(tool_output(b"echo:", b"hello"), b"echo:hello".to_vec());
    assert_eq!(tool_output(b"", b""), Vec::<u8>::new());
}
