use wikigraph::encoder::{create_graph, GraphError};
use wikigraph::graph_builder::{GraphBuilder, WikiBinaryGraphBuilder};
use wikigraph::models::{PageRecord, SpoolRecord};
use wikigraph::planner::Planner;

fn page(title: &str, body: &str, is_redirect: bool) -> PageRecord {
    PageRecord { title: title.to_string(), body: body.to_string(), is_redirect }
}

fn le(x: u32) -> [u8; 4] {
    x.to_le_bytes()
}

#[test]
fn end_to_end_two_nodes() {
    let mut planner = Planner::new();
    planner.process_page(&page("A1", "see [[B1]]", false)).unwrap();
    planner.process_page(&page("B1", "see [[A1]]", false)).unwrap();
    planner.process_page(&page("C1", "no links at all", false)).unwrap();
    assert_eq!(planner.spool().len(), 2);
    assert_eq!(planner.spool()[0].offset, 16);
    assert_eq!(planner.spool()[1].offset, 36);
    assert_eq!(planner.cursor(), 56);

    let (bytes, dangling) = create_graph(planner.spool(), planner.store(), 1).unwrap();
    assert_eq!(dangling, 0);
    let mut expected: Vec<u8> = Vec::new();
    expected.extend_from_slice(&le(0));
    expected.extend_from_slice(&le(0));
    expected.extend_from_slice(&le(1));
    expected.extend_from_slice(&le(2));
    expected.extend_from_slice(&le(0));
    expected.extend_from_slice(&le(0));
    expected.extend_from_slice(&le(0));
    expected.extend_from_slice(&le(1));
    expected.extend_from_slice(&le(36));
    expected.extend_from_slice(&le(0));
    expected.extend_from_slice(&le(0));
    expected.extend_from_slice(&le(0));
    expected.extend_from_slice(&le(1));
    expected.extend_from_slice(&le(16));
    assert_eq!(bytes, expected);

    assert_eq!(planner.store().resolve("C1"), None);
}

#[test]
fn spool_offset_equals_write_cursor() {
    let mut planner = Planner::new();
    planner.process_page(&page("alpha", "[[beta]] [[gamma]]", false)).unwrap();
    planner.process_page(&page("beta", "[[alpha]]", false)).unwrap();
    planner.process_page(&page("gamma", "[[alpha]] [[beta]] [[alpha]]", false)).unwrap();
    let (bytes, _) = create_graph(planner.spool(), planner.store(), 1).unwrap();
    for rec in planner.spool().iter() {
        let off = rec.offset as usize;
        let count = u32::from_le_bytes(bytes[off + 12..off + 16].try_into().unwrap());
        assert_eq!(count as usize, rec.targets.len());
    }
}

#[test]
fn redirect_page_records_first_target_only() {
    let mut planner = Planner::new();
    planner.process_page(&page("Old Name", "#REDIRECT [[New Name]] [[Other]]", true)).unwrap();
    planner.process_page(&page("New Name", "body [[Old Name]]", false)).unwrap();
    assert_eq!(planner.spool().len(), 1);
    assert_eq!(planner.store().resolve("Old Name"), Some(16));
}

#[test]
fn redirect_without_links_dropped() {
    let mut planner = Planner::new();
    planner.process_page(&page("Empty Redirect", "#REDIRECT nothing", true)).unwrap();
    assert_eq!(planner.spool().len(), 0);
    assert_eq!(planner.store().resolve("Empty Redirect"), None);
}

#[test]
fn filters_drop_pages() {
    let mut planner = Planner::new();
    planner.process_page(&page("", "[[X]]", false)).unwrap();
    planner.process_page(&page("Q", "[[X]]", false)).unwrap();
    planner.process_page(&page(&"t".repeat(256), "[[X]]", false)).unwrap();
    planner.process_page(&page("Template:Infobox", "[[X]]", false)).unwrap();
    planner.process_page(&page("Wikipedia:About", "[[X]]", false)).unwrap();
    planner.process_page(&page("Help:Here", "[[X]]", false)).unwrap();
    planner.process_page(&page("Topic (disambiguation)", "[[X]]", false)).unwrap();
    planner.process_page(&page("Fine", "", false)).unwrap();
    planner.process_page(&page("Dab Body", "x {{disambiguation}} [[X]]", false)).unwrap();
    planner.process_page(&page("Dab Body 2", "x {{disambig idx}} [[X]]", false)).unwrap();
    assert_eq!(planner.spool().len(), 0);
    assert_eq!(planner.cursor(), 16);
}

#[test]
fn duplicate_title_does_not_advance_cursor() {
    let mut planner = Planner::new();
    planner.process_page(&page("Same", "[[a]]", false)).unwrap();
    let cursor_after_first = planner.cursor();
    planner.process_page(&page("same", "[[b]] [[c]]", false)).unwrap();
    assert_eq!(planner.cursor(), cursor_after_first);
    assert_eq!(planner.spool().len(), 1);
    assert_eq!(planner.spool()[0].targets, vec!["a".to_string()]);
}

#[test]
fn second_run_leaves_store_unchanged() {
    let pages = vec![
        page("A2", "[[B2]]", false),
        page("B2", "[[A2]]", false),
        page("R2", "#REDIRECT [[A2]]", true),
    ];
    let mut planner = Planner::new();
    for p in pages.iter() {
        planner.process_page(p).unwrap();
    }
    let mut before = planner.store().read_offsets_into_memory();
    before.sort();
    for p in pages.iter() {
        planner.process_page(p).unwrap();
    }
    let mut after = planner.store().read_offsets_into_memory();
    after.sort();
    assert_eq!(before, after);
    assert_eq!(planner.store().resolve("R2"), planner.store().resolve("A2"));
}

#[test]
fn dangling_target_gets_sentinel_and_is_counted() {
    let mut planner = Planner::new();
    planner.process_page(&page("Lonely", "[[No Such Page]]", false)).unwrap();
    let (bytes, dangling) = create_graph(planner.spool(), planner.store(), 1).unwrap();
    assert_eq!(dangling, 1);
    assert_eq!(&bytes[32..36], &[0u8, 0, 0, 0]);
}

#[test]
fn offset_mismatch_is_fatal() {
    let mut planner = Planner::new();
    planner.process_page(&page("Solo", "[[other]]", false)).unwrap();
    let mut spool: Vec<SpoolRecord> = Vec::new();
    for rec in planner.spool().iter() {
        spool.push(SpoolRecord { offset: rec.offset + 4, targets: rec.targets.clone() });
    }
    let err = create_graph(&spool, planner.store(), 1).unwrap_err();
    assert_eq!(err, GraphError::OffsetMismatch { record: 0, expected: 20, actual: 16 });
}

#[test]
fn builder_writes_headers_and_values() {
    let mut b = WikiBinaryGraphBuilder::new(2, 7);
    b.write_file_header();
    assert_eq!(b.get_current_position(), 16);
    b.write_node_header(3);
    b.write_value(0x0102_0304);
    b.flush_writer();
    assert_eq!(b.get_current_position(), 36);
    let bytes = b.into_bytes();
    let mut expected: Vec<u8> = Vec::new();
    expected.extend_from_slice(&le(0));
    expected.extend_from_slice(&le(0));
    expected.extend_from_slice(&le(7));
    expected.extend_from_slice(&le(2));
    expected.extend_from_slice(&le(0));
    expected.extend_from_slice(&le(0));
    expected.extend_from_slice(&le(0));
    expected.extend_from_slice(&le(3));
    expected.extend_from_slice(&[0x04, 0x03, 0x02, 0x01]);
    assert_eq!(bytes, expected);
}
