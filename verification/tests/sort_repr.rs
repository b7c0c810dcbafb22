use quickwit::search::sort_repr::{InternalSortValueRepr, InternalValueRepr, MinValue, SortOrder};

#[test]
fn test_internal_sort_value_repr_ordering_values() {
    // Primary sort (Desc v1=10) dominates over secondary (Desc v2=100) and doc_id.
    let lhs = InternalSortValueRepr::new(
        InternalValueRepr::new(10, 0, SortOrder::Desc),
        InternalValueRepr::new(0, 0, SortOrder::Desc),
        0,
        SortOrder::Desc,
    );
    let rhs = InternalSortValueRepr::new(
        InternalValueRepr::new(5, 0, SortOrder::Desc),
        InternalValueRepr::new(100, 0, SortOrder::Desc),
        999,
        SortOrder::Desc,
    );
    assert!(lhs > rhs, "primary sort must dominate, desc");

    // Same values but Asc, the order is reversed
    let lhs = InternalSortValueRepr::new(
        InternalValueRepr::new(10, 0, SortOrder::Asc),
        InternalValueRepr::new(0, 0, SortOrder::Desc),
        0,
        SortOrder::Desc,
    );
    let rhs = InternalSortValueRepr::new(
        InternalValueRepr::new(5, 0, SortOrder::Asc),
        InternalValueRepr::new(100, 0, SortOrder::Desc),
        999,
        SortOrder::Desc,
    );
    assert!(lhs < rhs, "primary sort must dominate, asc");

    // Secondary sort (Desc v2) breaks a tie on the primary field.
    let lhs = InternalSortValueRepr::new(
        InternalValueRepr::new(10, 0, SortOrder::Desc),
        InternalValueRepr::new(10, 0, SortOrder::Desc),
        0,
        SortOrder::Desc,
    );
    let rhs = InternalSortValueRepr::new(
        InternalValueRepr::new(10, 0, SortOrder::Desc),
        InternalValueRepr::new(5, 0, SortOrder::Desc),
        0,
        SortOrder::Desc,
    );
    assert!(lhs > rhs, "secondary sort must break primary tie, desc");

    // Same values but Asc, the order is reversed.
    let lhs = InternalSortValueRepr::new(
        InternalValueRepr::new(10, 0, SortOrder::Desc),
        InternalValueRepr::new(10, 0, SortOrder::Asc),
        0,
        SortOrder::Desc,
    );
    let rhs = InternalSortValueRepr::new(
        InternalValueRepr::new(10, 0, SortOrder::Desc),
        InternalValueRepr::new(5, 0, SortOrder::Asc),
        0,
        SortOrder::Desc,
    );
    assert!(lhs < rhs, "secondary sort must break primary tie, asc");

    // Doc-id Desc tiebreaker: higher doc_id wins.
    let lhs = InternalSortValueRepr::new(
        InternalValueRepr::new(10, 0, SortOrder::Desc),
        InternalValueRepr::new_missing(),
        10,
        SortOrder::Desc,
    );
    let rhs = InternalSortValueRepr::new(
        InternalValueRepr::new(10, 0, SortOrder::Desc),
        InternalValueRepr::new_missing(),
        5,
        SortOrder::Desc,
    );
    assert!(lhs > rhs, "Desc: higher doc_id must win tiebreaker");

    // Doc-id Asc tiebreaker: lower doc_id wins.
    let lhs = InternalSortValueRepr::new(
        InternalValueRepr::new(10, 0, SortOrder::Desc),
        InternalValueRepr::new_missing(),
        5,
        SortOrder::Asc,
    );
    let rhs = InternalSortValueRepr::new(
        InternalValueRepr::new(10, 0, SortOrder::Desc),
        InternalValueRepr::new_missing(),
        10,
        SortOrder::Asc,
    );
    assert!(lhs > rhs, "Asc: lower doc_id must win tiebreaker");

    // Missing values are always smaller
    let lhs = InternalSortValueRepr::new(
        InternalValueRepr::new_missing(),
        InternalValueRepr::new(10, 0, SortOrder::Desc),
        10,
        SortOrder::Desc,
    );
    let rhs = InternalSortValueRepr::new(
        InternalValueRepr::new(5, 0, SortOrder::Desc),
        InternalValueRepr::new(0, 0, SortOrder::Desc),
        0,
        SortOrder::Desc,
    );
    assert!(lhs < rhs, "missing values are always smaller, desc");

    // Same but Asc, missing is still smaller.
    let lhs = InternalSortValueRepr::new(
        InternalValueRepr::new_missing(),
        InternalValueRepr::new(10, 0, SortOrder::Desc),
        10,
        SortOrder::Desc,
    );
    let rhs = InternalSortValueRepr::new(
        InternalValueRepr::new(5, 0, SortOrder::Asc),
        InternalValueRepr::new(0, 0, SortOrder::Desc),
        0,
        SortOrder::Desc,
    );
    assert!(lhs < rhs, "missing values are always smaller, asc");
}

#[test]
fn test_internal_sort_value_repr_ordering_sentinels() {
    // Doc-id sentinel ordering: skip_doc_ids < normal_doc_id < keep_doc_ids.
    let s1 = InternalValueRepr::new(10, 0, SortOrder::Desc);
    let s2 = InternalValueRepr::new_missing();
    let skip_docs = InternalSortValueRepr::new_skip_doc_ids(s1, s2);
    let keep_docs = InternalSortValueRepr::new_keep_doc_ids(s1, s2);
    let normal_doc_desc = InternalSortValueRepr::new(s1, s2, 0, SortOrder::Desc);
    let normal_doc_asc = InternalSortValueRepr::new(s1, s2, 0, SortOrder::Asc);
    assert!(
        skip_docs < normal_doc_desc,
        "skip_doc_ids must be below normal"
    );
    assert!(
        normal_doc_desc < keep_docs,
        "normal must be below keep_doc_ids"
    );
    assert!(
        skip_docs < normal_doc_asc,
        "skip_doc_ids must be below normal"
    );
    assert!(
        normal_doc_asc < keep_docs,
        "normal must be below keep_doc_ids"
    );
}

#[test]
fn test_internal_sort_value_repr_ordering_types() {
    // Primary accessor ordering dominates all the rest
    let lhs = InternalSortValueRepr::new(
        InternalValueRepr::new(5, 1, SortOrder::Desc),
        InternalValueRepr::new(0, 0, SortOrder::Desc),
        0,
        SortOrder::Desc,
    );
    let rhs = InternalSortValueRepr::new(
        InternalValueRepr::new(15, 0, SortOrder::Desc),
        InternalValueRepr::new(100, 0, SortOrder::Desc),
        999,
        SortOrder::Desc,
    );
    assert!(lhs > rhs, "primary type sort must dominate, desc");

    // Same values but Asc, the order is reversed
    let lhs = InternalSortValueRepr::new(
        InternalValueRepr::new(5, 1, SortOrder::Asc),
        InternalValueRepr::new(0, 0, SortOrder::Desc),
        0,
        SortOrder::Desc,
    );
    let rhs = InternalSortValueRepr::new(
        InternalValueRepr::new(15, 0, SortOrder::Asc),
        InternalValueRepr::new(100, 0, SortOrder::Desc),
        999,
        SortOrder::Desc,
    );
    assert!(lhs < rhs, "primary type sort must dominate, asc");
}

#[test]
fn test_memory_footprint() {
    // Make sure that the memory representation is efficiently packed. For
    // instance refactoring to:
    // ```
    //   struct InternalSortValueRepr(InternalValueRepr,InternalValueRepr, u64)
    // ```
    // would cause the size to jump to 40 bytes.
    assert_eq!(std::mem::size_of::<InternalSortValueRepr>(), 24);
}

#[test]
fn test_decode_gives_the_value_back() {
    for order in [SortOrder::Asc, SortOrder::Desc] {
        for (value, accessor_idx) in [(0, 0), (42, 3), (u64::MAX, 125)] {
            let repr = InternalValueRepr::new(value, accessor_idx, order);
            assert_eq!(repr.decode(order), Some((accessor_idx, value)));
        }
        assert_eq!(InternalValueRepr::new_missing().decode(order), None);
    }
}

#[test]
fn test_parts_of_a_sort_value() {
    let sort_1 = InternalValueRepr::new(10, 0, SortOrder::Desc);
    let sort_2 = InternalValueRepr::new(7, 1, SortOrder::Asc);
    for order in [SortOrder::Asc, SortOrder::Desc] {
        let repr = InternalSortValueRepr::new(sort_1, sort_2, 123, order);
        assert_eq!(repr.sort_1(), sort_1);
        assert_eq!(repr.sort_2(), sort_2);
        assert_eq!(repr.doc_id(order), 123);
        assert!(InternalSortValueRepr::min_value() < repr);
    }
}

#[test]
fn test_column_sentinels_surround_the_values_of_a_column() {
    let missing = InternalValueRepr::new_missing();
    for order in [SortOrder::Asc, SortOrder::Desc] {
        let keep = InternalSortValueRepr::new_skip_doc_ids(
            InternalValueRepr::new_keep_column(1, order),
            missing,
        );
        let skip = InternalSortValueRepr::new_skip_doc_ids(
            InternalValueRepr::new_skip_column(1, order),
            missing,
        );
        for value in [0, 5, u64::MAX] {
            let hit = InternalSortValueRepr::new(
                InternalValueRepr::new(value, 1, order),
                missing,
                0,
                SortOrder::Desc,
            );
            assert!(hit < keep);
            assert!(skip < hit);
        }
    }
}

#[test]
fn test_skip_all_but_missing_is_between_missing_and_any_value() {
    let bound = InternalSortValueRepr::new_skip_doc_ids(
        InternalValueRepr::new_skip_all_but_missing(),
        InternalValueRepr::new_missing(),
    );
    let missing = InternalSortValueRepr::new(
        InternalValueRepr::new_missing(),
        InternalValueRepr::new_missing(),
        0,
        SortOrder::Desc,
    );
    let smallest = InternalSortValueRepr::new(
        InternalValueRepr::new(0, 0, SortOrder::Desc),
        InternalValueRepr::new_missing(),
        0,
        SortOrder::Desc,
    );
    assert!(missing < bound);
    assert!(bound < smallest);
}

#[test]
fn test_missing_is_last_whatever_the_column() {
    let missing = InternalValueRepr::new_missing();
    let last = InternalSortValueRepr::new(missing, missing, 0, SortOrder::Desc);
    for (order, accessor_idx) in [(SortOrder::Asc, 125), (SortOrder::Desc, 126)] {
        for value in [0, u64::MAX] {
            let repr = InternalValueRepr::new(value, accessor_idx, order);
            assert!(last < InternalSortValueRepr::new(repr, missing, 0, SortOrder::Desc));
        }
    }
    // Boundaries keep missing values, even those of the last column that they can skip.
    for (order, accessor_idx) in [(SortOrder::Asc, 124), (SortOrder::Desc, 126)] {
        let skip = InternalValueRepr::new_skip_column(accessor_idx, order);
        assert!(last < InternalSortValueRepr::new_skip_doc_ids(skip, missing));
    }
    for order in [SortOrder::Asc, SortOrder::Desc] {
        let keep = InternalValueRepr::new_keep_column(125, order);
        assert!(last < InternalSortValueRepr::new_skip_doc_ids(keep, missing));
    }
}
