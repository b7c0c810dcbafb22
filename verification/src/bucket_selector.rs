//! Selection of the storage bucket that the next split is written to.
use vstd::prelude::*;

verus! {

/// A storage URI.
#[derive(Debug, PartialEq)]
pub struct Uri {
    uri: String,
}

impl View for Uri {
    type V = Seq<char>;

    closed spec fn view(&self) -> Seq<char> {
        self.uri@
    }
}

impl Clone for Uri {
    fn clone(&self) -> (copy: Uri)
        ensures
            copy == *self,
    {
        Uri { uri: self.uri.clone() }
    }
}

impl Uri {
    /// A URI that is taken as it is.
    pub fn for_test(uri: &str) -> (result: Uri)
        ensures
            result@ == uri@,
    {
        Uri { uri: uri.to_owned() }
    }
}

/// Selects which storage bucket to write the next split to.
///
/// Implementations own the list of available URIs and encapsulate the selection algorithm.
pub trait BucketSelector {
    /// The URIs to select from.
    spec fn available(&self) -> Seq<Uri>;

    /// There is a URI to select.
    spec fn wf(&self) -> bool;

    /// Returns the storage URI to use for writing the next split.
    fn select(&mut self) -> (uri: &Uri)
        requires
            old(self).wf(),
        ensures
            final(self).wf(),
            final(self).available() == old(self).available(),
            old(self).available().contains(*uri),
    ;
}

/// Round-robin bucket selector that cycles through the configured URIs.
pub struct RoundRobinBucketSelector {
    uris: Vec<Uri>,
    counter: u64,
}

/// Where the URI stands that is selected after `num_selected` other selections.
pub open spec fn selected_index(num_selected: u64, num_uris: nat) -> int {
    (num_selected as usize) as int % num_uris as int
}

impl RoundRobinBucketSelector {
    /// The URIs to cycle through.
    pub closed spec fn uris(&self) -> Seq<Uri> {
        self.uris@
    }

    /// How often a URI has been selected. The count wraps around.
    pub closed spec fn num_selected(&self) -> u64 {
        self.counter
    }

    /// Creates a new round-robin selector.
    pub fn new(uris: Vec<Uri>) -> (selector: RoundRobinBucketSelector)
        requires
            uris@.len() > 0,
        ensures
            selector.wf(),
            selector.uris() == uris@,
            selector.num_selected() == 0,
    {
        RoundRobinBucketSelector { uris, counter: 0 }
    }
}

impl BucketSelector for RoundRobinBucketSelector {
    closed spec fn available(&self) -> Seq<Uri> {
        self.uris@
    }

    closed spec fn wf(&self) -> bool {
        self.uris@.len() > 0
    }

    fn select(&mut self) -> (uri: &Uri)
        ensures
            *uri == old(self).uris()[selected_index(
                old(self).num_selected(),
                old(self).uris().len(),
            )],
            final(self).uris() == old(self).uris(),
            final(self).num_selected() == old(self).num_selected().wrapping_add(1),
    {
        let idx: usize = (self.counter as usize) % self.uris.len();
        self.counter = self.counter.wrapping_add(1);
        &self.uris[idx]
    }
}

/// Creates the default bucket selector (round-robin) from a list of URIs.
pub fn default_bucket_selector(uris: Vec<Uri>) -> (selector: RoundRobinBucketSelector)
    requires
        uris@.len() > 0,
    ensures
        selector.wf(),
        selector.uris() == uris@,
        selector.num_selected() == 0,
{
    RoundRobinBucketSelector::new(uris)
}

/// The URIs are used in turn: among as many consecutive selections as there are URIs, each URI is
/// selected exactly once. (`start` counts the selections made before; the count does not wrap
/// around meanwhile.)
pub proof fn law_each_uri_is_selected_once_per_round(start: u64, num_uris: nat, uri: int)
    requires
        0 <= uri < num_uris,
        start + num_uris <= usize::MAX + 1,
    ensures
        exists|k: u64|
            start <= k < start + num_uris && #[trigger] selected_index(k, num_uris) == uri,
        forall|j: u64, k: u64|
            start <= j < start + num_uris && start <= k < start + num_uris && #[trigger]
                selected_index(j, num_uris) == uri && #[trigger] selected_index(k, num_uris) == uri
                ==> j == k,
{
    let n = num_uris as int;
    let s = start as int;
    let r = s % n;
    vstd::arithmetic::div_mod::lemma_mod_bound(s, n);
    vstd::arithmetic::div_mod::lemma_fundamental_div_mod(s, n);
    let q = s / n;
    let k = if uri >= r {
        s + (uri - r)
    } else {
        s + (uri - r) + n
    };
    if uri >= r {
        assert(k == q * n + uri) by (nonlinear_arith)
            requires
                k == s + (uri - r),
                s == n * q + r,
        ;
        vstd::arithmetic::div_mod::lemma_fundamental_div_mod_converse(k, n, q, uri);
    } else {
        assert(k == (q + 1) * n + uri) by (nonlinear_arith)
            requires
                k == s + (uri - r) + n,
                s == n * q + r,
        ;
        vstd::arithmetic::div_mod::lemma_fundamental_div_mod_converse(k, n, q + 1, uri);
    }
    assert(selected_index(k as u64, num_uris) == uri);
    assert forall|i: u64, j: u64|
        start <= i < start + num_uris && start <= j < start + num_uris && #[trigger]
            selected_index(i, num_uris) == uri && #[trigger] selected_index(j, num_uris)
            == uri implies i == j by {
        let a = i as int;
        let b = j as int;
        vstd::arithmetic::div_mod::lemma_fundamental_div_mod(a, n);
        vstd::arithmetic::div_mod::lemma_fundamental_div_mod(b, n);
        let x = a / n;
        let y = b / n;
        assert(a == b) by (nonlinear_arith)
            requires
                a == n * x + uri,
                b == n * y + uri,
                -n < a - b < n,
                n > 0,
        {
            assert(a - b == n * (x - y));
        }
    }
}

/// How often the URI at position `uri` is selected in the first `num_selections` selections.
pub open spec fn use_count(num_selections: nat, num_uris: nat, uri: int) -> nat
    decreases num_selections,
{
    if num_selections == 0 {
        0
    } else {
        let last = (num_selections - 1) as nat;
        use_count(last, num_uris, uri) + if selected_index(last as u64, num_uris) == uri {
            1nat
        } else {
            0
        }
    }
}

/// A URI is selected once in every full round, and once more if the last round has come to it.
proof fn lemma_use_count(num_selections: nat, num_uris: nat, uri: int)
    requires
        0 <= uri < num_uris,
        num_selections <= usize::MAX + 1,
    ensures
        use_count(num_selections, num_uris, uri) == num_selections / num_uris + if uri
            < num_selections % num_uris {
            1int
        } else {
            0
        },
    decreases num_selections,
{
    let n = num_uris as int;
    if num_selections == 0 {
        vstd::arithmetic::div_mod::lemma_small_mod(0, num_uris);
        vstd::arithmetic::div_mod::lemma_basic_div(0, n);
    } else {
        let last = num_selections - 1;
        lemma_use_count(last as nat, num_uris, uri);
        let q = last / n;
        let r = last % n;
        vstd::arithmetic::div_mod::lemma_fundamental_div_mod(last, n);
        vstd::arithmetic::div_mod::lemma_mod_bound(last, n);
        if r + 1 < n {
            assert(last + 1 == q * n + (r + 1)) by (nonlinear_arith)
                requires
                    last == n * q + r,
            ;
            vstd::arithmetic::div_mod::lemma_fundamental_div_mod_converse(last + 1, n, q, r + 1);
        } else {
            assert(last + 1 == (q + 1) * n + 0) by (nonlinear_arith)
                requires
                    last == n * q + r,
                    r + 1 == n,
            ;
            vstd::arithmetic::div_mod::lemma_fundamental_div_mod_converse(last + 1, n, q + 1, 0);
        }
    }
}

/// After any number of selections, two URIs have been used equally often, or one of them once more
/// than the other. (The count of selections has not wrapped around.)
pub proof fn law_uris_are_used_evenly(num_selections: nat, num_uris: nat, a: int, b: int)
    requires
        0 <= a < num_uris,
        0 <= b < num_uris,
        num_selections <= usize::MAX + 1,
    ensures
        -1 <= use_count(num_selections, num_uris, a) - use_count(num_selections, num_uris, b) <= 1,
{
    lemma_use_count(num_selections, num_uris, a);
    lemma_use_count(num_selections, num_uris, b);
}

/// The first URI is selected first, and after each of them the next one, with the first one again
/// after the last.
pub proof fn law_uris_come_in_turn(num_selected: u64, num_uris: nat)
    requires
        num_uris > 0,
        num_selected < usize::MAX,
    ensures
        selected_index(0, num_uris) == 0,
        0 <= selected_index(num_selected, num_uris) < num_uris,
        selected_index((num_selected + 1) as u64, num_uris) == if selected_index(
            num_selected,
            num_uris,
        ) + 1 == num_uris {
            0
        } else {
            selected_index(num_selected, num_uris) + 1
        },
{
    let n = num_uris as int;
    let k = num_selected as int;
    vstd::arithmetic::div_mod::lemma_small_mod(0, num_uris);
    vstd::arithmetic::div_mod::lemma_fundamental_div_mod(k, n);
    vstd::arithmetic::div_mod::lemma_mod_bound(k, n);
    let q = k / n;
    let r = k % n;
    if r + 1 < n {
        assert(k + 1 == q * n + (r + 1)) by (nonlinear_arith)
            requires
                k == n * q + r,
        ;
        vstd::arithmetic::div_mod::lemma_fundamental_div_mod_converse(k + 1, n, q, r + 1);
    } else {
        assert(k + 1 == (q + 1) * n + 0) by (nonlinear_arith)
            requires
                k == n * q + r,
                r + 1 == n,
        ;
        vstd::arithmetic::div_mod::lemma_fundamental_div_mod_converse(k + 1, n, q + 1, 0);
    }
}

} // verus!
