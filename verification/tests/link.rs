use dkb::item::Item;
use dkb::link::{
    extract_link_spans, extract_links, find_link_at_offset, format_markdown_link, LinkSpan,
    SubitemWalk,
};
use std::collections::HashMap;
use uuid::Uuid;

/// Runs the sub-item walk over items held in memory.
fn count_in(items: &HashMap<u128, String>, root: u128) -> usize {
    let mut walk = SubitemWalk::new(root);
    while let Some(id) = walk.next_item() {
        let body = items.get(&id).map(|b| b.as_str());
        walk.record(body);
    }
    walk.count()
}

#[test]
fn link_test_link_extraction() {
    let body = "Parent item\n- [Sub 1](00000000-0000-0000-0000-000000000001.md)\n- [[00000000-0000-0000-0000-000000000002]]";
    let links = extract_links(body);
    assert_eq!(links.len(), 2);
    assert_eq!(links, vec![1u128, 2u128]);
}

#[test]
fn link_test_recursive_subitem_count() {
    let child_leaf = Item::new("Leaf child");
    let mut child_middle = Item::new("Middle child");
    child_middle
        .body
        .push_str(&format!("\n- [Leaf]({}.md)", Uuid::from_u128(child_leaf.id)));
    let mut root = Item::new("Root item");
    root.body
        .push_str(&format!("\n- [Middle]({}.md)", Uuid::from_u128(child_middle.id)));

    let mut items = HashMap::new();
    items.insert(child_leaf.id, child_leaf.body.clone());
    items.insert(child_middle.id, child_middle.body.clone());
    items.insert(root.id, root.body.clone());

    let count = count_in(&items, root.id);
    assert_eq!(count, 2);
}

#[test]
fn link_test_subitem_cycle_detection() {
    let mut item1 = Item::new("Item 1");
    let mut item2 = Item::new("Item 2");
    item1.body.push_str(&format!("\n- [[{}]]", Uuid::from_u128(item2.id)));
    item2.body.push_str(&format!("\n- [[{}]]", Uuid::from_u128(item1.id)));

    let mut items = HashMap::new();
    items.insert(item1.id, item1.body.clone());
    items.insert(item2.id, item2.body.clone());

    let count = count_in(&items, item1.id);
    assert_eq!(count, 1);
}

#[test]
fn subitem_walk_counts_missing_and_repeated_children() {
    let mut items = HashMap::new();
    let a = Uuid::new_v4().as_u128();
    let b = Uuid::new_v4().as_u128();
    let missing = Uuid::new_v4().as_u128();
    items.insert(
        a,
        format!("a\n[[{}]] [[{}]] [[{}]]", Uuid::from_u128(b), Uuid::from_u128(b), Uuid::from_u128(missing)),
    );
    items.insert(b, format!("b\n[[{}]]", Uuid::from_u128(a)));
    assert_eq!(count_in(&items, a), 2);
    // a root that cannot be read has no sub-items
    assert_eq!(count_in(&items, missing), 0);
}

#[test]
fn test_find_link_at_offset_markdown() {
    let id = Uuid::new_v4();
    let body = format!("Check this item: [My Sub Task]({id}.md) for details");
    let link_start = body.find('[').unwrap();
    let link_end = body.find(')').unwrap() + 1;

    assert!(find_link_at_offset(&body, 2).is_none());

    let span_start = find_link_at_offset(&body, link_start).expect("should find link at start");
    assert_eq!(span_start.target_id, id.as_u128());
    assert_eq!(span_start.text, "My Sub Task");
    assert_eq!(span_start.range, link_start..link_end);

    let span_mid = find_link_at_offset(&body, link_start + 5).expect("should find link in text");
    assert_eq!(span_mid.target_id, id.as_u128());
    assert_eq!(span_mid.text, "My Sub Task");
    assert_eq!(span_mid.range, link_start..link_end);

    let span_url = find_link_at_offset(&body, link_end - 5).expect("should find link in url");
    assert_eq!(span_url.target_id, id.as_u128());
    assert_eq!(span_url.text, "My Sub Task");
    assert_eq!(span_url.range, link_start..link_end);

    let span_end = find_link_at_offset(&body, link_end).expect("should find link at end boundary");
    assert_eq!(span_end.target_id, id.as_u128());
    assert_eq!(span_end.text, "My Sub Task");
    assert_eq!(span_end.range, link_start..link_end);

    assert!(find_link_at_offset(&body, link_end + 1).is_none());
}

#[test]
fn test_find_link_at_offset_wikilink() {
    let id = Uuid::new_v4();
    let body = format!("Prefix [[{id}.md]] suffix");
    let link_start = body.find("[[").unwrap();
    let link_end = body.find("]]").unwrap() + 2;

    let span = find_link_at_offset(&body, link_start + 4).expect("should find wikilink");
    assert_eq!(span.target_id, id.as_u128());
    assert_eq!(span.range, link_start..link_end);

    let body_no_ext = format!("Note: [[{id}]] done");
    let link_start2 = body_no_ext.find("[[").unwrap();
    let link_end2 = body_no_ext.find("]]").unwrap() + 2;
    let span2 = find_link_at_offset(&body_no_ext, link_start2 + 3).expect("should find wikilink without .md");
    assert_eq!(span2.target_id, id.as_u128());
    assert_eq!(span2.range, link_start2..link_end2);
}

#[test]
fn test_find_link_at_offset_multiple_links() {
    let id1 = Uuid::new_v4();
    let id2 = Uuid::new_v4();
    let body = format!("First [Item One]({id1}.md) and second [[{id2}]] end");

    let offset1 = body.find("Item One").unwrap();
    let span1 = find_link_at_offset(&body, offset1).expect("should find first link");
    assert_eq!(span1.target_id, id1.as_u128());
    assert_eq!(span1.text, "Item One");

    let offset2 = body.find(&id2.to_string()).unwrap();
    let span2 = find_link_at_offset(&body, offset2).expect("should find second link");
    assert_eq!(span2.target_id, id2.as_u128());

    let offset_between = body.find(" and ").unwrap() + 2;
    assert!(find_link_at_offset(&body, offset_between).is_none());
}

#[test]
fn test_format_markdown_link() {
    let id = Uuid::new_v4();
    let formatted = format_markdown_link("Design Document", id.as_u128());
    assert_eq!(formatted, format!("[Design Document]({id}.md)"));
}

#[test]
fn test_extract_link_spans() {
    let id1 = Uuid::new_v4();
    let id2 = Uuid::new_v4();
    let content = format!("Intro [Link One]({id1}.md) and [[{id2}|Custom Text]] outro");

    let spans = extract_link_spans(&content);
    assert_eq!(spans.len(), 2);

    let expected_span1 = LinkSpan {
        range: content.find('[').unwrap()..(content.find(')').unwrap() + 1),
        target_id: id1.as_u128(),
        text: "Link One".to_string(),
    };
    assert_eq!(spans[0], expected_span1);
    assert_eq!(spans[1].target_id, id2.as_u128());
    assert_eq!(spans[1].text, "Custom Text");
}

#[test]
fn test_find_link_at_offset_invalid_links() {
    let body = "This is [not a valid link](not-a-uuid.md) and [[invalid-uuid]]";
    assert!(find_link_at_offset(body, 15).is_none());
    assert!(find_link_at_offset(body, 50).is_none());
    assert!(find_link_at_offset(body, 999).is_none());
}

#[test]
fn link_spans_use_byte_offsets() {
    let id = Uuid::new_v4();
    let content = format!("äö [x]({id}.md)");
    let spans = extract_link_spans(&content);
    assert_eq!(spans.len(), 1);
    assert_eq!(spans[0].range.start, 5);
    assert_eq!(spans[0].range.end, content.len());
    // a wiki link without text shows its target
    let plain = format!("[[{id}]]");
    let spans = extract_link_spans(&plain);
    assert_eq!(spans[0].text, id.to_string());
}

#[test]
fn written_link_reads_back() {
    let id = Uuid::new_v4().as_u128();
    let link = format_markdown_link("Sub task", id);
    let body = format!("Parent\n- {link}\n");
    assert_eq!(extract_links(&body), vec![id]);
    let spans = extract_link_spans(&link);
    assert_eq!(spans.len(), 1);
    assert_eq!(spans[0].text, "Sub task");
    assert_eq!(spans[0].range, 0..link.len());
}
