//! Ordered representation of the sort values of a hit.
//!
//! Hits are ranked by a top-k calculator that keeps the largest representations.
use std::cmp::Ordering;
use vstd::prelude::*;

verus! {

/// Identifies a document inside a segment.
pub type DocId = u32;

/// The order in which hits are sorted.
#[derive(Clone, Copy, Debug, PartialEq, Eq, Structural)]
pub enum SortOrder {
    Asc,
    Desc,
}

/// Types with a smallest value.
pub trait MinValue: Sized {
    /// Whether this value is the smallest one.
    spec fn is_min(self) -> bool;

    /// The smallest value.
    fn min_value() -> (min: Self)
        ensures
            min.is_min(),
    ;
}

/// Encoded representation of the value, the index of its accessor in the list of fast field
/// columns and the sort order.
///
/// The first u8 encodes the index of the accessor and a sentinel value for missing and search
/// after values:
/// - 0 is a sentinel for skip all
/// - 1 is a sentinel for missing (always last in the sort order)
/// - other odd values encode the index of the accessor in the list of fast field columns (3 for
///   index 0, 5 for index 1, etc.)
/// - even values are sentinels for search after values that keep/skip all documents for a given
///   column (2 to skip all columns but keep missing, 4 only keeps column 0, 6 keeps column 0 and
///   1, etc.)
///
/// The following u64 encodes the value itself. Both are negated bitwise to reverse the sort order
/// when building an ascending sort.
#[derive(Clone, Copy, Debug, PartialEq, Eq, Structural)]
pub struct InternalValueRepr(pub u8, pub u64);

impl InternalValueRepr {
    /// Whether this representation is smaller than `other`.
    pub open spec fn below(self, other: InternalValueRepr) -> bool {
        self.0 < other.0 || (self.0 == other.0 && self.1 < other.1)
    }

    /// Whether the column `accessor_idx` can be represented: the bytes of the missing value and of
    /// the skip all sentinel are not those of a column.
    pub open spec fn has_column(accessor_idx: u8, order: SortOrder) -> bool {
        accessor_idx <= match order {
            SortOrder::Asc => 125int,
            SortOrder::Desc => 126,
        }
    }

    /// Whether there is a boundary that keeps the column `accessor_idx`.
    pub open spec fn can_keep_column(accessor_idx: u8) -> bool {
        accessor_idx <= 125
    }

    /// Whether there is a boundary that skips the column `accessor_idx`, above missing values.
    pub open spec fn can_skip_column(accessor_idx: u8, order: SortOrder) -> bool {
        accessor_idx <= match order {
            SortOrder::Asc => 124int,
            SortOrder::Desc => 126,
        }
    }

    /// The representation of a value of the column `accessor_idx`.
    pub open spec fn of(value: u64, accessor_idx: u8, order: SortOrder) -> InternalValueRepr {
        match order {
            SortOrder::Asc => InternalValueRepr(
                (252 - 2 * accessor_idx) as u8,
                (u64::MAX - value) as u64,
            ),
            SortOrder::Desc => InternalValueRepr((2 * accessor_idx + 3) as u8, value),
        }
    }

    /// The boundary that keeps the column `accessor_idx` and those that come after it in the sort
    /// order.
    pub open spec fn keep_column(accessor_idx: u8, order: SortOrder) -> InternalValueRepr {
        match order {
            SortOrder::Asc => InternalValueRepr((253 - 2 * accessor_idx) as u8, 0),
            SortOrder::Desc => InternalValueRepr((2 * accessor_idx + 4) as u8, 0),
        }
    }

    /// The boundary that keeps only the columns that come after `accessor_idx` in the sort order.
    pub open spec fn skip_column(accessor_idx: u8, order: SortOrder) -> InternalValueRepr {
        match order {
            SortOrder::Asc => InternalValueRepr((251 - 2 * accessor_idx) as u8, 0),
            SortOrder::Desc => InternalValueRepr((2 * accessor_idx + 2) as u8, 0),
        }
    }

    /// The representation of a missing value.
    pub open spec fn missing() -> InternalValueRepr {
        InternalValueRepr(1, 0)
    }

    /// The boundary that keeps missing values only.
    pub open spec fn skip_all_but_missing() -> InternalValueRepr {
        InternalValueRepr(2, 0)
    }

    /// Whether this represents a value or a missing value, sorted in this order.
    pub open spec fn is_decodable(self, order: SortOrder) -> bool {
        ||| self.0 == 1
        ||| match order {
            SortOrder::Asc => self.0 % 2 == 0 && 2 <= self.0 <= 252,
            SortOrder::Desc => self.0 % 2 == 1,
        }
    }

    /// The representation of a value of the column `accessor_idx`.
    pub fn new(value: u64, accessor_idx: u8, order: SortOrder) -> (repr: InternalValueRepr)
        requires
            InternalValueRepr::has_column(accessor_idx, order),
        ensures
            repr == InternalValueRepr::of(value, accessor_idx, order),
    {
        // For Asc, smaller values should win: invert so smaller maps to larger repr
        match order {
            SortOrder::Asc => InternalValueRepr(
                u8::MAX - (accessor_idx * 2 + 3),
                u64::MAX - value,
            ),
            SortOrder::Desc => InternalValueRepr(accessor_idx * 2 + 3, value),
        }
    }

    /// A sentinel value that can be instantiated as search after boundary to indicate that all
    /// documents should be kept for the given column.
    pub fn new_keep_column(accessor_idx: u8, order: SortOrder) -> (repr: InternalValueRepr)
        requires
            InternalValueRepr::can_keep_column(accessor_idx),
        ensures
            repr == InternalValueRepr::keep_column(accessor_idx, order),
    {
        match order {
            SortOrder::Asc => InternalValueRepr(u8::MAX - (accessor_idx * 2 + 2), 0),
            SortOrder::Desc => InternalValueRepr(accessor_idx * 2 + 4, 0),
        }
    }

    /// The representation of a missing value: always last, so the smallest possible one besides
    /// the skip all sentinel.
    pub fn new_missing() -> (repr: InternalValueRepr)
        ensures
            repr == InternalValueRepr::missing(),
    {
        InternalValueRepr(1, 0)
    }

    /// A sentinel value that can be instantiated as search after boundary to indicate that all
    /// documents should be skipped for the given column.
    pub fn new_skip_column(accessor_idx: u8, order: SortOrder) -> (repr: InternalValueRepr)
        requires
            InternalValueRepr::can_skip_column(accessor_idx, order),
        ensures
            repr == InternalValueRepr::skip_column(accessor_idx, order),
    {
        match order {
            SortOrder::Asc => InternalValueRepr(u8::MAX - (accessor_idx * 2 + 4), 0),
            SortOrder::Desc => InternalValueRepr(accessor_idx * 2 + 2, 0),
        }
    }

    /// A sentinel value that can be instantiated as search after boundary to indicate that all
    /// documents should be skipped, but those without a value.
    pub fn new_skip_all_but_missing() -> (repr: InternalValueRepr)
        ensures
            repr == InternalValueRepr::skip_all_but_missing(),
    {
        InternalValueRepr(2, 0)
    }

    /// The column and the value, or `None` for a missing value. Sentinels are not meant to be
    /// decoded.
    pub fn decode(self, order: SortOrder) -> (decoded: Option<(u8, u64)>)
        requires
            self.is_decodable(order),
        ensures
            decoded == if self.0 == 1 {
                None
            } else {
                match order {
                    SortOrder::Asc => Some(
                        (((252 - self.0) / 2) as u8, (u64::MAX - self.1) as u64),
                    ),
                    SortOrder::Desc => Some((((self.0 - 3) / 2) as u8, self.1)),
                }
            },
    {
        if self.0 == 1 {
            return None;
        }
        match order {
            SortOrder::Asc => Some(((u8::MAX - self.0 - 3) / 2, u64::MAX - self.1)),
            SortOrder::Desc => Some(((self.0 - 3) / 2, self.1)),
        }
    }
}

/// This is the ordered representation of the sort values. It is the concatenation of:
/// - the internal representation of the two sort values
/// - the doc id, preceded by a sentinel indicating how it should be used for tie-breaking
#[derive(Clone, Copy, Debug, Eq, Ord, Default, Hash)]
pub struct InternalSortValueRepr(pub u8, pub u64, pub u8, pub u64, pub u8, pub u32);

impl InternalSortValueRepr {
    /// Whether this representation is smaller than `other`, in lexicographic order.
    pub open spec fn below(self, other: InternalSortValueRepr) -> bool {
        let first = InternalValueRepr(self.0, self.1);
        let other_first = InternalValueRepr(other.0, other.1);
        let second = InternalValueRepr(self.2, self.3);
        let other_second = InternalValueRepr(other.2, other.3);
        ||| first.below(other_first)
        ||| first == other_first && (second.below(other_second) || (second == other_second && (
        self.4 < other.4 || (self.4 == other.4 && self.5 < other.5))))
    }

    /// The representation of a hit.
    pub open spec fn of(
        sort_1: InternalValueRepr,
        sort_2: InternalValueRepr,
        doc_id: DocId,
        doc_id_sort: SortOrder,
    ) -> InternalSortValueRepr {
        InternalSortValueRepr(
            sort_1.0,
            sort_1.1,
            sort_2.0,
            sort_2.1,
            1,
            match doc_id_sort {
                SortOrder::Asc => (u32::MAX - doc_id) as u32,
                SortOrder::Desc => doc_id,
            },
        )
    }

    /// The boundary that keeps every document with these sort values.
    pub open spec fn keep_doc_ids(
        sort_1: InternalValueRepr,
        sort_2: InternalValueRepr,
    ) -> InternalSortValueRepr {
        InternalSortValueRepr(sort_1.0, sort_1.1, sort_2.0, sort_2.1, 2, 0)
    }

    /// The boundary that skips every document with these sort values.
    pub open spec fn skip_doc_ids(
        sort_1: InternalValueRepr,
        sort_2: InternalValueRepr,
    ) -> InternalSortValueRepr {
        InternalSortValueRepr(sort_1.0, sort_1.1, sort_2.0, sort_2.1, 0, 0)
    }

    /// The representation of a hit.
    pub fn new(
        sort_1: InternalValueRepr,
        sort_2: InternalValueRepr,
        doc_id: DocId,
        doc_id_sort: SortOrder,
    ) -> (repr: InternalSortValueRepr)
        ensures
            repr == InternalSortValueRepr::of(sort_1, sort_2, doc_id, doc_id_sort),
    {
        // For Asc, smaller values should win: invert so smaller maps to larger repr
        let encoded: u32 = match doc_id_sort {
            SortOrder::Asc => u32::MAX - doc_id,
            SortOrder::Desc => doc_id,
        };
        InternalSortValueRepr(sort_1.0, sort_1.1, sort_2.0, sort_2.1, 1, encoded)
    }

    /// The boundary that keeps every document with these sort values.
    pub fn new_keep_doc_ids(sort_1: InternalValueRepr, sort_2: InternalValueRepr) -> (repr:
        InternalSortValueRepr)
        ensures
            repr == InternalSortValueRepr::keep_doc_ids(sort_1, sort_2),
    {
        InternalSortValueRepr(sort_1.0, sort_1.1, sort_2.0, sort_2.1, 2, 0)
    }

    /// The boundary that skips every document with these sort values.
    pub fn new_skip_doc_ids(sort_1: InternalValueRepr, sort_2: InternalValueRepr) -> (repr:
        InternalSortValueRepr)
        ensures
            repr == InternalSortValueRepr::skip_doc_ids(sort_1, sort_2),
    {
        InternalSortValueRepr(sort_1.0, sort_1.1, sort_2.0, sort_2.1, 0, 0)
    }

    /// The first sort value.
    pub fn sort_1(self) -> (repr: InternalValueRepr)
        ensures
            repr == InternalValueRepr(self.0, self.1),
    {
        InternalValueRepr(self.0, self.1)
    }

    /// The second sort value.
    pub fn sort_2(self) -> (repr: InternalValueRepr)
        ensures
            repr == InternalValueRepr(self.2, self.3),
    {
        InternalValueRepr(self.2, self.3)
    }

    /// The document. The sentinels for doc ids are not meant to be decoded.
    pub fn doc_id(self, order: SortOrder) -> (doc_id: DocId)
        requires
            self.4 == 1,
        ensures
            doc_id == match order {
                SortOrder::Asc => u32::MAX - self.5,
                SortOrder::Desc => self.5 as int,
            },
    {
        match order {
            SortOrder::Asc => u32::MAX - self.5,
            SortOrder::Desc => self.5,
        }
    }

    /// Whether this representation is smaller than `other`.
    pub fn is_below(&self, other: &InternalSortValueRepr) -> (below: bool)
        ensures
            below == self.below(*other),
    {
        if self.0 != other.0 {
            self.0 < other.0
        } else if self.1 != other.1 {
            self.1 < other.1
        } else if self.2 != other.2 {
            self.2 < other.2
        } else if self.3 != other.3 {
            self.3 < other.3
        } else if self.4 != other.4 {
            self.4 < other.4
        } else {
            self.5 < other.5
        }
    }
}

impl PartialEq for InternalSortValueRepr {
    fn eq(&self, other: &InternalSortValueRepr) -> (equal: bool) {
        self.0 == other.0 && self.1 == other.1 && self.2 == other.2 && self.3 == other.3 && self.4
            == other.4 && self.5 == other.5
    }
}

impl vstd::std_specs::cmp::PartialEqSpecImpl for InternalSortValueRepr {
    open spec fn obeys_eq_spec() -> bool {
        true
    }

    open spec fn eq_spec(&self, other: &InternalSortValueRepr) -> bool {
        *self == *other
    }
}

impl PartialOrd for InternalSortValueRepr {
    fn partial_cmp(&self, other: &InternalSortValueRepr) -> (ordering: Option<Ordering>) {
        if self.is_below(other) {
            Some(Ordering::Less)
        } else if other.is_below(self) {
            Some(Ordering::Greater)
        } else {
            Some(Ordering::Equal)
        }
    }
}

impl vstd::std_specs::cmp::PartialOrdSpecImpl for InternalSortValueRepr {
    open spec fn obeys_partial_cmp_spec() -> bool {
        true
    }

    open spec fn partial_cmp_spec(&self, other: &InternalSortValueRepr) -> Option<Ordering> {
        if self.below(*other) {
            Some(Ordering::Less)
        } else if other.below(*self) {
            Some(Ordering::Greater)
        } else {
            Some(Ordering::Equal)
        }
    }
}

impl MinValue for InternalSortValueRepr {
    open spec fn is_min(self) -> bool {
        forall|other: InternalSortValueRepr| !(#[trigger] other.below(self))
    }

    fn min_value() -> (min: InternalSortValueRepr) {
        InternalSortValueRepr(0, 0, 0, 0, 0, 0)
    }
}

/// Representations are ordered totally: of two different ones, exactly one is smaller, and the
/// order is transitive.
pub proof fn law_order_is_total(
    a: InternalSortValueRepr,
    b: InternalSortValueRepr,
    c: InternalSortValueRepr,
)
    ensures
        !(a.below(b) && b.below(a)),
        a == b || a.below(b) || b.below(a),
        a.below(b) && b.below(c) ==> a.below(c),
{
}

/// A decoded value is the one that was encoded, with its column.
pub proof fn law_decode_inverts_new(value: u64, accessor_idx: u8, order: SortOrder)
    requires
        InternalValueRepr::has_column(accessor_idx, order),
    ensures
        ({
            let repr = InternalValueRepr::of(value, accessor_idx, order);
            &&& repr.is_decodable(order)
            &&& repr.0 != 1
            &&& match order {
                SortOrder::Asc => (252 - repr.0) / 2 == accessor_idx && u64::MAX - repr.1 == value,
                SortOrder::Desc => (repr.0 - 3) / 2 == accessor_idx && repr.1 == value,
            }
        }),
{
}

/// Columns come first, then values. Descending, a larger column or value is represented by a
/// larger value, and ascending by a smaller one.
pub proof fn law_values_follow_the_sort_order(
    value: u64,
    accessor_idx: u8,
    other_value: u64,
    other_idx: u8,
    order: SortOrder,
)
    requires
        InternalValueRepr::has_column(accessor_idx, order),
        InternalValueRepr::has_column(other_idx, order),
    ensures
        ({
            let repr = InternalValueRepr::of(value, accessor_idx, order);
            let other = InternalValueRepr::of(other_value, other_idx, order);
            let smaller = accessor_idx < other_idx || (accessor_idx == other_idx && value
                < other_value);
            let larger = accessor_idx > other_idx || (accessor_idx == other_idx && value
                > other_value);
            match order {
                SortOrder::Asc => repr.below(other) <==> larger,
                SortOrder::Desc => repr.below(other) <==> smaller,
            }
        }),
{
}

/// A missing value comes last, whatever the order: its representation is smaller than that of any
/// value.
pub proof fn law_missing_is_last(value: u64, accessor_idx: u8, order: SortOrder)
    requires
        InternalValueRepr::has_column(accessor_idx, order),
    ensures
        InternalValueRepr::missing().below(InternalValueRepr::of(value, accessor_idx, order)),
{
}

/// As search after boundaries, the sentinels keep and skip whole columns: what is smaller than the
/// boundary is kept. Keeping a column keeps its values and those of the columns that come after it
/// in the sort order; skipping it keeps only the latter. Missing values are kept either way.
pub proof fn law_column_sentinels(
    value: u64,
    accessor_idx: u8,
    boundary_idx: u8,
    order: SortOrder,
)
    requires
        InternalValueRepr::has_column(accessor_idx, order),
    ensures
        ({
            let repr = InternalValueRepr::of(value, accessor_idx, order);
            let keep = InternalValueRepr::keep_column(boundary_idx, order);
            let skip = InternalValueRepr::skip_column(boundary_idx, order);
            &&& InternalValueRepr::can_keep_column(boundary_idx) ==> {
                &&& InternalValueRepr::missing().below(keep)
                &&& repr.below(keep) <==> match order {
                    SortOrder::Asc => accessor_idx >= boundary_idx,
                    SortOrder::Desc => accessor_idx <= boundary_idx,
                }
            }
            &&& InternalValueRepr::can_skip_column(boundary_idx, order) ==> {
                &&& InternalValueRepr::missing().below(skip)
                &&& repr.below(skip) <==> match order {
                    SortOrder::Asc => accessor_idx > boundary_idx,
                    SortOrder::Desc => accessor_idx < boundary_idx,
                }
            }
        }),
{
}

/// Skipping all but missing values keeps missing values, and skips any value.
pub proof fn law_skip_all_but_missing(value: u64, accessor_idx: u8, order: SortOrder)
    requires
        InternalValueRepr::has_column(accessor_idx, order),
    ensures
        InternalValueRepr::missing().below(InternalValueRepr::skip_all_but_missing()),
        !InternalValueRepr::of(value, accessor_idx, order).below(
            InternalValueRepr::skip_all_but_missing(),
        ),
{
}

/// The first sort value dominates the second one, which dominates the doc id. Among equal sort
/// values, the larger doc id wins in descending order, and the smaller one in ascending order.
pub proof fn law_sort_values_dominate(
    a_1: InternalValueRepr,
    a_2: InternalValueRepr,
    a_doc: DocId,
    b_1: InternalValueRepr,
    b_2: InternalValueRepr,
    b_doc: DocId,
    doc_id_sort: SortOrder,
)
    ensures
        ({
            let a = InternalSortValueRepr::of(a_1, a_2, a_doc, doc_id_sort);
            let b = InternalSortValueRepr::of(b_1, b_2, b_doc, doc_id_sort);
            &&& a_1.below(b_1) ==> a.below(b)
            &&& a_1 == b_1 && a_2.below(b_2) ==> a.below(b)
            &&& a_1 == b_1 && a_2 == b_2 ==> match doc_id_sort {
                SortOrder::Asc => a.below(b) <==> a_doc > b_doc,
                SortOrder::Desc => a.below(b) <==> a_doc < b_doc,
            }
        }),
{
}

/// Among equal sort values, the boundary that skips doc ids is smaller than any hit, and the one
/// that keeps them is larger.
pub proof fn law_doc_id_sentinels(
    sort_1: InternalValueRepr,
    sort_2: InternalValueRepr,
    doc_id: DocId,
    doc_id_sort: SortOrder,
)
    ensures
        ({
            let hit = InternalSortValueRepr::of(sort_1, sort_2, doc_id, doc_id_sort);
            &&& InternalSortValueRepr::skip_doc_ids(sort_1, sort_2).below(hit)
            &&& hit.below(InternalSortValueRepr::keep_doc_ids(sort_1, sort_2))
        }),
{
}

/// Encoding a hit loses nothing.
pub proof fn law_hit_is_decodable(
    sort_1: InternalValueRepr,
    sort_2: InternalValueRepr,
    doc_id: DocId,
    doc_id_sort: SortOrder,
)
    ensures
        ({
            let hit = InternalSortValueRepr::of(sort_1, sort_2, doc_id, doc_id_sort);
            &&& InternalValueRepr(hit.0, hit.1) == sort_1
            &&& InternalValueRepr(hit.2, hit.3) == sort_2
            &&& hit.4 == 1
            &&& doc_id == match doc_id_sort {
                SortOrder::Asc => u32::MAX - hit.5,
                SortOrder::Desc => hit.5 as int,
            }
        }),
{
}

/// Representations are compared field by field, from the first one on: the first field that differs
/// decides.
pub proof fn law_order_is_lexicographic(a: InternalSortValueRepr, b: InternalSortValueRepr)
    ensures
        a.0 != b.0 ==> (a.below(b) <==> a.0 < b.0),
        a.0 == b.0 && a.1 != b.1 ==> (a.below(b) <==> a.1 < b.1),
        a.0 == b.0 && a.1 == b.1 && a.2 != b.2 ==> (a.below(b) <==> a.2 < b.2),
        a.0 == b.0 && a.1 == b.1 && a.2 == b.2 && a.3 != b.3 ==> (a.below(b) <==> a.3 < b.3),
        a.0 == b.0 && a.1 == b.1 && a.2 == b.2 && a.3 == b.3 && a.4 != b.4 ==> (a.below(b) <==> a.4
            < b.4),
        a.0 == b.0 && a.1 == b.1 && a.2 == b.2 && a.3 == b.3 && a.4 == b.4 ==> (a.below(b) <==> a.5
            < b.5),
        InternalValueRepr(a.0, a.1).below(InternalValueRepr(b.0, b.1)) <==> a.0 < b.0 || (a.0
            == b.0 && a.1 < b.1),
{
}

/// Columns are represented by odd numbers from 3 on, and boundaries by the even numbers around them.
/// Ascending, the numbers and the values are those whose bits are all inverted: they add up to the
/// largest number with those of the descending order.
pub proof fn law_encoding(value: u64, accessor_idx: u8)
    requires
        accessor_idx <= 124,
    ensures
        ({
            let descending = InternalValueRepr::of(value, accessor_idx, SortOrder::Desc);
            let ascending = InternalValueRepr::of(value, accessor_idx, SortOrder::Asc);
            let keep = InternalValueRepr::keep_column(accessor_idx, SortOrder::Desc);
            let skip = InternalValueRepr::skip_column(accessor_idx, SortOrder::Desc);
            let keep_asc = InternalValueRepr::keep_column(accessor_idx, SortOrder::Asc);
            let skip_asc = InternalValueRepr::skip_column(accessor_idx, SortOrder::Asc);
            &&& descending.0 == 2 * accessor_idx + 3
            &&& descending.1 == value
            &&& ascending.0 + descending.0 == u8::MAX
            &&& ascending.1 + descending.1 == u64::MAX
            &&& keep.0 == descending.0 + 1 && keep.1 == 0
            &&& skip.0 == descending.0 - 1 && skip.1 == 0
            &&& keep_asc.0 == ascending.0 + 1 && keep_asc.1 == 0
            &&& skip_asc.0 == ascending.0 - 1 && skip_asc.1 == 0
            &&& InternalValueRepr::missing() == InternalValueRepr(1, 0)
            &&& InternalValueRepr::skip_all_but_missing() == InternalValueRepr(2, 0)
        }),
{
}

/// Comparisons follow the order, and two representations are equal if all their fields are.
pub proof fn law_comparisons_follow_the_order(a: InternalSortValueRepr, b: InternalSortValueRepr)
    ensures
        vstd::std_specs::cmp::PartialOrdSpec::partial_cmp_spec(&a, &b) == Some(Ordering::Less)
            <==> a.below(b),
        vstd::std_specs::cmp::PartialOrdSpec::partial_cmp_spec(&a, &b) == Some(Ordering::Greater)
            <==> b.below(a),
        vstd::std_specs::cmp::PartialOrdSpec::partial_cmp_spec(&a, &b) == Some(Ordering::Equal)
            <==> a == b,
        vstd::std_specs::cmp::PartialEqSpec::eq_spec(&a, &b) <==> a.0 == b.0 && a.1 == b.1 && a.2
            == b.2 && a.3 == b.3 && a.4 == b.4 && a.5 == b.5,
{
}

/// A representation is the smallest one if all its fields are zero, and no other one is.
pub proof fn law_smallest_representation(repr: InternalSortValueRepr)
    ensures
        repr.is_min() <==> repr.0 == 0 && repr.1 == 0 && repr.2 == 0 && repr.3 == 0 && repr.4 == 0
            && repr.5 == 0,
{
    let zero = InternalSortValueRepr(0, 0, 0, 0, 0, 0);
    if repr.is_min() {
        assert(!zero.below(repr));
    }
}

} // verus!
