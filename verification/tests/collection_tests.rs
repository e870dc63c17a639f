use notion_core::collection::reconcile_active_index;
use notion_core::collection::DocumentCollection;
use notion_core::document::Document;

fn doc_named(name: &str) -> Document {
    let mut d = Document::new();
    d.filename = name.to_string();
    d
}

#[test]
fn add_returns_new_index() {
    let mut docs = DocumentCollection::new();
    assert_eq!(docs.len(), 0);
    assert_eq!(docs.add(doc_named("a")), 0);
    assert_eq!(docs.add(doc_named("b")), 1);
    assert_eq!(docs.len(), 2);
}

#[test]
fn get_reads_by_index() {
    let mut docs = DocumentCollection::new();
    docs.add(doc_named("a"));
    docs.add(doc_named("b"));
    assert_eq!(docs.get(0).unwrap().filename, "a");
    assert_eq!(docs.get(1).unwrap().filename, "b");
    assert!(docs.get(2).is_none());
}

#[test]
fn get_mut_edits_in_place() {
    let mut docs = DocumentCollection::new();
    docs.add(doc_named("a"));
    docs.get_mut(0).unwrap().word_wrap = false;
    assert!(!docs.get(0).unwrap().word_wrap);
    assert!(docs.get_mut(1).is_none());
}

#[test]
fn close_shifts_later_documents_down() {
    let mut docs = DocumentCollection::new();
    docs.add(doc_named("a"));
    docs.add(doc_named("b"));
    docs.add(doc_named("c"));
    assert!(docs.close(1));
    assert_eq!(docs.len(), 2);
    assert_eq!(docs.get(0).unwrap().filename, "a");
    assert_eq!(docs.get(1).unwrap().filename, "c");
}

#[test]
fn close_out_of_range_is_ignored() {
    let mut docs = DocumentCollection::new();
    docs.add(doc_named("a"));
    docs.add(doc_named("b"));
    assert!(!docs.close(2));
    assert!(!docs.close(17));
    assert_eq!(docs.len(), 2);
    assert_eq!(docs.get(0).unwrap().filename, "a");
    assert_eq!(docs.get(1).unwrap().filename, "b");
}

#[test]
fn close_on_empty_collection_is_ignored() {
    let mut docs = DocumentCollection::new();
    assert!(!docs.close(0));
    assert_eq!(docs.len(), 0);
}

#[test]
fn active_index_reconciliation_with_three_documents() {
    // three open documents, active index 2; closing index 0 leaves two
    // documents and the active index becomes 1
    let mut docs = DocumentCollection::new();
    docs.add(doc_named("a"));
    docs.add(doc_named("b"));
    docs.add(doc_named("c"));
    let active: usize = 2;
    assert!(docs.close(0));
    let new_active = reconcile_active_index(active, docs.len());
    assert_eq!(new_active, Some(1));
    // and the reconciled index points at the document that was active
    assert_eq!(docs.get(1).unwrap().filename, "c");
}

#[test]
fn reconciliation_keeps_in_range_index() {
    assert_eq!(reconcile_active_index(0, 2), Some(0));
    assert_eq!(reconcile_active_index(1, 2), Some(1));
}

#[test]
fn reconciliation_clamps_to_last_tab() {
    assert_eq!(reconcile_active_index(2, 2), Some(1));
    assert_eq!(reconcile_active_index(9, 3), Some(2));
}

#[test]
fn reconciliation_of_empty_collection_clears_active() {
    assert_eq!(reconcile_active_index(0, 0), None);
    assert_eq!(reconcile_active_index(5, 0), None);
}

#[test]
fn apply_settings_reaches_every_document() {
    let mut docs = DocumentCollection::new();
    docs.add(doc_named("a"));
    docs.add(doc_named("b"));
    docs.apply_settings_to_documents(false, false);
    assert!(!docs.get(0).unwrap().line_numbers);
    assert!(!docs.get(0).unwrap().word_wrap);
    assert!(!docs.get(1).unwrap().line_numbers);
    assert!(!docs.get(1).unwrap().word_wrap);
    assert_eq!(docs.get(0).unwrap().filename, "a");
    docs.apply_settings_to_documents(true, false);
    assert!(docs.get(1).unwrap().line_numbers);
    assert!(!docs.get(1).unwrap().word_wrap);
}
