use wikigraph::link_handler::{extract_links_str, LinkHandler, WikiLinkHandler};

#[test]
fn simple_link() {
    assert_eq!(extract_links_str("[[Foo]]"), vec!["foo".to_string()]);
}

#[test]
fn alias_dropped() {
    assert_eq!(extract_links_str("[[Foo|Bar]]"), vec!["foo".to_string()]);
}

#[test]
fn anchor_dropped() {
    assert_eq!(extract_links_str("[[Foo#Section]]"), vec!["foo".to_string()]);
}

#[test]
fn alias_and_anchor_dropped() {
    assert_eq!(extract_links_str("[[Foo#Sec|shown]]"), vec!["foo".to_string()]);
}

#[test]
fn template_content_never_scanned() {
    assert_eq!(extract_links_str("{{cite|url=[[Ignored]]}}"), Vec::<String>::new());
}

#[test]
fn tag_skip_suppresses_nested_link() {
    assert_eq!(extract_links_str("<ref>[[Ignored]]</ref> [[Kept]]"), vec!["kept".to_string()]);
}

#[test]
fn tag_skip_is_depth_aware() {
    assert_eq!(extract_links_str("<a><b></b></a>[[Kept]]"), vec!["kept".to_string()]);
}

#[test]
fn self_closing_tag_ends_skip() {
    assert_eq!(extract_links_str("<ref name=x/>[[Kept]]"), vec!["kept".to_string()]);
}

#[test]
fn namespace_candidates_abandoned() {
    assert_eq!(extract_links_str("[[File:Photo.png]] [[Image:I.jpg]] [[WP:RULES]]"), Vec::<
        String,
    >::new());
    assert_eq!(extract_links_str("[[User:Someone]] [[Real Page]]"), vec![
        "real page".to_string()
    ]);
}

#[test]
fn disambiguation_target_dropped() {
    assert_eq!(extract_links_str("[[Foo (disambiguation)]] [[Bar]]"), vec!["bar".to_string()]);
}

#[test]
fn empty_candidate_dropped() {
    assert_eq!(extract_links_str("[[]] [[Ok]]"), vec!["ok".to_string()]);
}

#[test]
fn duplicates_preserved_in_order() {
    assert_eq!(extract_links_str("[[B]] [[A]] [[B]]"), vec![
        "b".to_string(),
        "a".to_string(),
        "b".to_string()
    ]);
}

#[test]
fn unterminated_constructs_yield_nothing_more() {
    assert_eq!(extract_links_str("[[Dangling"), Vec::<String>::new());
    assert_eq!(extract_links_str("[[A]] {{unclosed [[B]]"), vec!["a".to_string()]);
    assert_eq!(extract_links_str("[[A]] <ref>[[B]]"), vec!["a".to_string()]);
}

#[test]
fn targets_are_sanitized() {
    assert_eq!(extract_links_str("[[Foo_Bar]]"), vec!["foo bar".to_string()]);
    assert_eq!(extract_links_str("[[:Category]]"), vec!["category".to_string()]);
}

#[test]
fn trait_impl_matches_free_function() {
    let handler = WikiLinkHandler;
    assert_eq!(handler.extract_links("[[Foo|Bar]] text [[Baz]]".to_string()), vec![
        "foo".to_string(),
        "baz".to_string()
    ]);
}

#[test]
fn template_inside_link_resumes_candidate() {
    assert_eq!(extract_links_str("[[Fo{{x}}o]]"), vec!["foo".to_string()]);
}
