use quickwit::search::sort_repr::{InternalSortValueRepr, InternalValueRepr, SortOrder};
use quickwit::search::top_k_collector::QuickwitSegmentTopKCollector;

fn hit(value: u64, doc_id: u32) -> InternalSortValueRepr {
    InternalSortValueRepr::new(
        InternalValueRepr::new(value, 0, SortOrder::Desc),
        InternalValueRepr::new_missing(),
        doc_id,
        SortOrder::Desc,
    )
}

fn doc_ids(collector: &QuickwitSegmentTopKCollector) -> Vec<u32> {
    collector
        .get_top_k()
        .iter()
        .map(|hit| hit.sort_value.doc_id(SortOrder::Desc))
        .collect()
}

#[test]
fn test_best_hits_are_kept() {
    let mut collector = QuickwitSegmentTopKCollector::new("split".to_string(), 0, 3, None);
    collector.collect_top_k_block(&[hit(5, 1), hit(9, 2), hit(1, 3), hit(7, 4)]);
    collector.collect_top_k(hit(8, 5));
    assert_eq!(doc_ids(&collector), [2, 5, 4]);
    let hits = collector.get_top_k();
    assert_eq!(hits[0].split_id, "split");
    assert_eq!(hits[0].segment_ord, 0);
}

#[test]
fn test_ties_are_broken_by_doc_id() {
    let mut collector = QuickwitSegmentTopKCollector::new("split".to_string(), 0, 2, None);
    collector.collect_top_k_block(&[hit(5, 1), hit(5, 3), hit(5, 2)]);
    assert_eq!(doc_ids(&collector), [3, 2]);
}

#[test]
fn test_hits_up_to_the_boundary_are_skipped() {
    let boundary = hit(7, 4);
    let mut collector =
        QuickwitSegmentTopKCollector::new("split".to_string(), 0, 10, Some(boundary));
    collector.collect_top_k_block(&[hit(9, 2), hit(7, 4), hit(7, 3), hit(5, 1)]);
    assert_eq!(doc_ids(&collector), [3, 1]);
}

#[test]
fn test_no_hit_is_kept_when_none_is_asked_for() {
    let mut collector = QuickwitSegmentTopKCollector::new("split".to_string(), 0, 0, None);
    collector.collect_top_k(hit(9, 2));
    assert!(collector.get_top_k().is_empty());
}
