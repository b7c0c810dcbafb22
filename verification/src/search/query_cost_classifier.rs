//! Heuristic classification of search queries by expected execution cost.
//!
//! The classification is used exclusively to label metrics (search thread pool occupancy, search
//! permits, ...), so that the resource usage of expensive queries can be monitored separately from
//! that of regular ones. It is a cheap, pure function of the query.
use crate::text;
use vstd::prelude::*;

verus! {

/// Minimum number of literal characters required before the first wildcard/metacharacter of a
/// regex or wildcard query pattern for that query to be considered [`QueryCostClass::Regular`].
///
/// Patterns with a shorter literal prefix are considered [`QueryCostClass::Costly`], since they
/// can't rely on prefix pruning of the term dictionary and may end up scanning a large fraction of
/// it.
pub const MIN_LITERAL_PREFIX_LEN: usize = 3;

/// Coarse classification of the expected cost of executing a search query.
#[derive(Debug, Clone, Copy, PartialEq, Eq, Hash, Structural)]
pub enum QueryCostClass {
    /// The query is expected to run with predictable, moderate cost.
    Regular,
    /// The query contains patterns (e.g. unanchored regexes or wildcards) that can prevent
    /// efficient pruning of the term dictionary, and can be significantly more expensive to run
    /// than a [`QueryCostClass::Regular`] one.
    Costly,
}

impl QueryCostClass {
    /// Label value used when reporting this cost class in metrics.
    pub fn as_label(&self) -> (label: &'static str)
        ensures
            label@ == match self {
                QueryCostClass::Regular => "regular"@,
                QueryCostClass::Costly => "costly"@,
            },
    {
        match self {
            QueryCostClass::Regular => "regular",
            QueryCostClass::Costly => "costly",
        }
    }
}

/// Wire representation of a cost class, carried along search requests so that the class computed
/// once at the root reaches the leaves.
#[derive(Debug, Clone, Copy, PartialEq, Eq, Hash, Structural)]
pub enum WireQueryCostClass {
    Regular,
    Costly,
}

impl From<QueryCostClass> for WireQueryCostClass {
    fn from(cost_class: QueryCostClass) -> (wire: WireQueryCostClass) {
        match cost_class {
            QueryCostClass::Regular => WireQueryCostClass::Regular,
            QueryCostClass::Costly => WireQueryCostClass::Costly,
        }
    }
}

impl vstd::std_specs::convert::FromSpecImpl<QueryCostClass> for WireQueryCostClass {
    open spec fn obeys_from_spec() -> bool {
        true
    }

    open spec fn from_spec(cost_class: QueryCostClass) -> WireQueryCostClass {
        match cost_class {
            QueryCostClass::Regular => WireQueryCostClass::Regular,
            QueryCostClass::Costly => WireQueryCostClass::Costly,
        }
    }
}

impl From<WireQueryCostClass> for QueryCostClass {
    fn from(wire: WireQueryCostClass) -> (cost_class: QueryCostClass) {
        match wire {
            WireQueryCostClass::Regular => QueryCostClass::Regular,
            WireQueryCostClass::Costly => QueryCostClass::Costly,
        }
    }
}

impl vstd::std_specs::convert::FromSpecImpl<WireQueryCostClass> for QueryCostClass {
    open spec fn obeys_from_spec() -> bool {
        true
    }

    open spec fn from_spec(wire: WireQueryCostClass) -> QueryCostClass {
        match wire {
            WireQueryCostClass::Regular => QueryCostClass::Regular,
            WireQueryCostClass::Costly => QueryCostClass::Costly,
        }
    }
}

/// A parsed query.
pub enum QueryAst {
    /// Matches every document.
    MatchAll,
    /// Matches no document.
    MatchNone,
    /// Matches the documents with a given term.
    Term { field: String, value: String },
    /// Matches the documents with a term that a regex matches.
    Regex { field: String, regex: String },
    /// Matches the documents with a term that a wildcard pattern matches.
    Wildcard { field: String, value: String, lenient: bool, case_insensitive: bool },
    /// Any other query without queries inside it.
    Leaf,
    /// Combines queries.
    Bool { must: Vec<QueryAst>, must_not: Vec<QueryAst>, should: Vec<QueryAst>, filter: Vec<QueryAst> },
    /// Changes the score of a query.
    Boost { underlying: Box<QueryAst> },
}

/// Whether a query holds, at any depth, a regex or wildcard pattern without a long enough literal
/// prefix.
pub open spec fn is_costly(query_ast: QueryAst) -> bool
    decreases query_ast,
{
    match query_ast {
        QueryAst::Regex { field, regex } => !has_prefix(
            regex@,
            MIN_LITERAL_PREFIX_LEN as nat,
            PatternFlavor::Regex,
        ),
        QueryAst::Wildcard { field, value, lenient, case_insensitive } => !has_prefix(
            value@,
            MIN_LITERAL_PREFIX_LEN as nat,
            PatternFlavor::Wildcard,
        ),
        QueryAst::Bool { must, must_not, should, filter } => {
            ||| exists|i: int| 0 <= i < must@.len() && is_costly(#[trigger] must@[i])
            ||| exists|i: int| 0 <= i < must_not@.len() && is_costly(#[trigger] must_not@[i])
            ||| exists|i: int| 0 <= i < should@.len() && is_costly(#[trigger] should@[i])
            ||| exists|i: int| 0 <= i < filter@.len() && is_costly(#[trigger] filter@[i])
        },
        QueryAst::Boost { underlying } => is_costly(*underlying),
        _ => false,
    }
}

/// Classifies a query as [`QueryCostClass::Regular`] or [`QueryCostClass::Costly`], based on simple
/// heuristics.
pub fn classify(query_ast: &QueryAst) -> (cost_class: QueryCostClass)
    ensures
        cost_class == if is_costly(*query_ast) {
            QueryCostClass::Costly
        } else {
            QueryCostClass::Regular
        },
{
    if visit(query_ast) {
        QueryCostClass::Costly
    } else {
        QueryCostClass::Regular
    }
}

/// Whether a query is costly. The traversal stops as soon as a costly pattern is found: the verdict
/// can't be changed by the rest of the query.
fn visit(query_ast: &QueryAst) -> (costly: bool)
    ensures
        costly == is_costly(*query_ast),
    decreases query_ast, 0int,
{
    match query_ast {
        QueryAst::Regex { field: _, regex } => !has_min_literal_prefix(
            regex.as_str(),
            MIN_LITERAL_PREFIX_LEN,
            PatternFlavor::Regex,
        ),
        QueryAst::Wildcard { field: _, value, lenient: _, case_insensitive: _ } => {
            !has_min_literal_prefix(value.as_str(), MIN_LITERAL_PREFIX_LEN, PatternFlavor::Wildcard)
        },
        QueryAst::Bool { must, must_not, should, filter } => visit_any(must) || visit_any(should)
            || visit_any(must_not) || visit_any(filter),
        QueryAst::Boost { underlying } => visit(underlying),
        _ => false,
    }
}

/// Whether any of some queries is costly.
fn visit_any(queries: &Vec<QueryAst>) -> (costly: bool)
    ensures
        costly == exists|i: int| 0 <= i < queries@.len() && is_costly(#[trigger] queries@[i]),
    decreases queries, 1int,
{
    let mut i: usize = 0;
    while i < queries.len()
        invariant
            i <= queries@.len(),
            forall|k: int| 0 <= k < i ==> !is_costly(#[trigger] queries@[k]),
        decreases queries.len() - i,
    {
        proof {
            assert(decreases_to!(queries@ => queries@[i as int]));
            assert(decreases_to!(*queries => queries@));
        }
        if visit(&queries[i]) {
            return true;
        }
        i = i + 1;
    }
    false
}

/// Pattern syntax being scanned, which determines what terminates a literal prefix.
#[derive(Debug, Clone, Copy, PartialEq, Eq, Structural)]
pub enum PatternFlavor {
    /// Regex pattern, where `\` may introduce a character class or an assertion, and where `*`, `?`
    /// and `{0,n}` quantify the character that precedes them.
    Regex,
    /// Wildcard pattern, where `*` and `?` are the only wildcards and `\` always escapes the
    /// character that follows it.
    Wildcard,
}

/// What [`char::is_alphanumeric`] returns: whether a character is a letter or a digit, in the sense
/// of Unicode.
pub uninterp spec fn alphanumeric(c: char) -> bool;

/// Whether a character is an ASCII letter or digit.
pub open spec fn ascii_alphanumeric(c: char) -> bool {
    ('0' <= c && c <= '9') || ('A' <= c && c <= 'Z') || ('a' <= c && c <= 'z')
}

/// [`char::is_alphanumeric`]: whether a character is a letter or a digit. Among the ASCII
/// characters these are the 26 letters, in both cases, and the 10 digits.
#[verifier::external_body]
fn is_alphanumeric(c: char) -> (is: bool)
    ensures
        is == alphanumeric(c),
        c <= '\x7f' ==> is == ascii_alphanumeric(c),
{
    c.is_alphanumeric()
}

/// Whether a character is a letter or a digit.
pub open spec fn letter_or_digit(c: char) -> bool {
    if c <= '\x7f' {
        ascii_alphanumeric(c)
    } else {
        alphanumeric(c)
    }
}

/// The part of a text before the first comma or closing brace.
pub open spec fn before_separator(s: Seq<char>) -> Seq<char>
    decreases s.len(),
{
    if s.len() == 0 || s[0] == ',' || s[0] == '}' {
        Seq::empty()
    } else {
        seq![s[0]] + before_separator(s.skip(1))
    }
}

/// Whether a text consists of one or more digits 0.
pub open spec fn is_zeros(digits: Seq<char>) -> bool {
    digits.len() > 0 && forall|i: int| 0 <= i < digits.len() ==> #[trigger] digits[i] == '0'
}

/// Whether a text is the number zero: an optional plus sign, then one or more digits 0.
pub open spec fn is_zero(s: Seq<char>) -> bool {
    is_zeros(
        if s.len() > 0 && s[0] == '+' {
            s.skip(1)
        } else {
            s
        },
    )
}

impl PatternFlavor {
    /// Whether a character terminates the literal prefix.
    pub open spec fn ends_prefix(self, c: char) -> bool {
        match self {
            PatternFlavor::Regex => {
                ||| c == '.'
                ||| c == '*'
                ||| c == '+'
                ||| c == '?'
                ||| c == '('
                ||| c == ')'
                ||| c == '['
                ||| c == ']'
                ||| c == '{'
                ||| c == '}'
                ||| c == '|'
                ||| c == '^'
                ||| c == '$'
            },
            PatternFlavor::Wildcard => c == '*' || c == '?',
        }
    }

    /// Whether an escaped character stands for itself.
    pub open spec fn escapes_literally(self, escaped: char) -> bool {
        match self {
            PatternFlavor::Regex => !letter_or_digit(escaped),
            PatternFlavor::Wildcard => true,
        }
    }

    /// Whether `remainder` starts with a quantifier that makes the preceding character optional.
    pub open spec fn makes_optional(self, remainder: Seq<char>) -> bool {
        &&& self == PatternFlavor::Regex
        &&& remainder.len() > 0
        &&& (remainder[0] == '*' || remainder[0] == '?' || (remainder[0] == '{' && is_zero(
            before_separator(remainder.skip(1)),
        )))
    }

    /// The number of literal characters at the start of a pattern, before the first metacharacter.
    /// Characters that are optional do not count.
    pub open spec fn prefix_len(self, pattern: Seq<char>) -> nat
        decreases pattern.len(),
    {
        if pattern.len() == 0 {
            0
        } else if pattern[0] == '\\' {
            if pattern.len() == 1 || !self.escapes_literally(pattern[1]) {
                0
            } else {
                self.counted(pattern.skip(2)) + self.prefix_len(pattern.skip(2))
            }
        } else if self.ends_prefix(pattern[0]) {
            0
        } else {
            self.counted(pattern.skip(1)) + self.prefix_len(pattern.skip(1))
        }
    }

    /// What a literal character counts for, given what follows it.
    pub open spec fn counted(self, remainder: Seq<char>) -> nat {
        if self.makes_optional(remainder) {
            0
        } else {
            1
        }
    }

    /// The pattern without a leading regex anchor.
    pub open spec fn without_anchor(self, pattern: Seq<char>) -> Seq<char> {
        if self == PatternFlavor::Regex && pattern.len() > 0 && pattern[0] == '^' {
            pattern.skip(1)
        } else {
            pattern
        }
    }

    /// Returns whether `c` terminates the literal prefix.
    pub fn is_metacharacter(self, c: char) -> (is: bool)
        ensures
            is == self.ends_prefix(c),
    {
        match self {
            PatternFlavor::Regex => matches!(
                c,
                '.' | '*' | '+' | '?' | '(' | ')' | '[' | ']' | '{' | '}' | '|' | '^' | '$'
            ),
            PatternFlavor::Wildcard => matches!(c, '*' | '?'),
        }
    }

    /// Returns whether `escaped`, after a backslash, stands for itself, rather than for a character
    /// class or an assertion.
    ///
    /// In a regex, an escaped letter or digit matches more than a single known character, so it
    /// doesn't allow any prefix pruning. Escapes that denote a character by its number do denote a
    /// literal, but are conservatively lumped in with the character classes.
    pub fn escape_is_literal(self, escaped: char) -> (is: bool)
        ensures
            is == self.escapes_literally(escaped),
    {
        match self {
            PatternFlavor::Regex => !is_alphanumeric(escaped),
            PatternFlavor::Wildcard => true,
        }
    }

    /// Returns whether what follows the first `from` characters of `pattern` starts with a
    /// quantifier that makes the character preceding it optional, and which therefore doesn't
    /// extend the prunable prefix.
    ///
    /// Note that `+` and `{n,m}` with `n >= 1` are *not* such quantifiers: they require at least
    /// one occurrence of the character they apply to.
    fn starts_with_optional_quantifier(self, pattern: &Vec<char>, from: usize) -> (optional: bool)
        requires
            from <= pattern@.len(),
        ensures
            optional == self.makes_optional(pattern@.skip(from as int)),
    {
        if self == PatternFlavor::Wildcard || from >= pattern.len() {
            return false;
        }
        let c = pattern[from];
        if c == '*' || c == '?' {
            return true;
        }
        if c != '{' {
            return false;
        }
        let ghost rest = pattern@.skip(from as int).skip(1);
        proof {
            assert(rest =~= pattern@.skip(from + 1));
        }
        repeats_zero(pattern, from + 1)
    }
}

/// Whether the characters from `from` on, up to the first comma or closing brace, are the number
/// zero.
fn repeats_zero(pattern: &Vec<char>, from: usize) -> (zero: bool)
    requires
        from <= pattern@.len(),
    ensures
        zero == is_zero(before_separator(pattern@.skip(from as int))),
{
    let ghost whole = before_separator(pattern@.skip(from as int));
    let mut end: usize = from;
    proof {
        assert(pattern@.subrange(from as int, from as int) =~= Seq::empty());
        assert(Seq::<char>::empty() + whole =~= whole);
    }
    while end < pattern.len() && pattern[end] != ',' && pattern[end] != '}'
        invariant
            from <= end <= pattern@.len(),
            whole == pattern@.subrange(from as int, end as int) + before_separator(
                pattern@.skip(end as int),
            ),
        decreases pattern.len() - end,
    {
        proof {
            let e = end as int;
            assert(pattern@.skip(e).skip(1) =~= pattern@.skip(e + 1));
            assert(pattern@.subrange(from as int, e + 1) =~= pattern@.subrange(from as int, e)
                + seq![pattern@[e]]);
            assert((pattern@.subrange(from as int, e) + seq![pattern@[e]]) + before_separator(
                pattern@.skip(e + 1),
            ) =~= pattern@.subrange(from as int, e) + (seq![pattern@[e]] + before_separator(
                pattern@.skip(e + 1),
            )));
        }
        end = end + 1;
    }
    proof {
        assert(whole =~= pattern@.subrange(from as int, end as int));
    }
    let mut start: usize = from;
    if from < end && pattern[from] == '+' {
        start = from + 1;
        proof {
            assert(whole.skip(1) =~= pattern@.subrange(start as int, end as int));
        }
    }
    let ghost digits = pattern@.subrange(start as int, end as int);
    proof {
        assert(is_zero(whole) == is_zeros(digits));
    }
    if start == end {
        return false;
    }
    let mut i: usize = start;
    while i < end
        invariant
            start <= i <= end <= pattern@.len(),
            digits == pattern@.subrange(start as int, end as int),
            forall|k: int| 0 <= k < i - start ==> #[trigger] digits[k] == '0',
            is_zero(whole) == is_zeros(digits),
            whole == before_separator(pattern@.skip(from as int)),
        decreases end - i,
    {
        if pattern[i] != '0' {
            proof {
                assert(digits[i - start] != '0');
            }
            return false;
        }
        i = i + 1;
    }
    true
}

/// Whether a pattern has at least `min_len` literal characters at its start, a leading regex anchor
/// aside.
pub open spec fn has_prefix(pattern: Seq<char>, min_len: nat, flavor: PatternFlavor) -> bool {
    flavor.prefix_len(flavor.without_anchor(pattern)) >= min_len
}

/// Returns whether `pattern` has at least `min_len` literal characters at its start, before the
/// first metacharacter. A leading `^` regex anchor is ignored, as it doesn't prevent prefix-based
/// pruning of the term dictionary.
pub fn has_min_literal_prefix(pattern: &str, min_len: usize, flavor: PatternFlavor) -> (has: bool)
    ensures
        has == has_prefix(pattern@, min_len as nat, flavor),
{
    if min_len == 0 {
        return true;
    }
    let chars = text::characters(pattern);
    let mut next: usize = 0;
    if flavor == PatternFlavor::Regex && chars.len() > 0 && chars[0] == '^' {
        next = 1;
    }
    let mut prefix_len: usize = 0;
    let ghost total = flavor.prefix_len(flavor.without_anchor(pattern@));
    proof {
        assert(chars@.skip(0) =~= chars@);
    }
    while next < chars.len()
        invariant_except_break
            total == prefix_len + flavor.prefix_len(chars@.skip(next as int)),
        invariant
            next <= chars@.len(),
            prefix_len < min_len,
            total == flavor.prefix_len(flavor.without_anchor(pattern@)),
        ensures
            total == prefix_len,
        decreases chars.len() - next,
    {
        let ghost here = chars@.skip(next as int);
        let c = chars[next];
        if c == '\\' {
            if next + 1 >= chars.len() {
                // trailing, dangling escape: stop counting, this is likely not a well formed
                // pattern anyway.
                break ;
            }
            if !flavor.escape_is_literal(chars[next + 1]) {
                break ;
            }
            proof {
                assert(here.skip(2) =~= chars@.skip(next + 2));
            }
            next = next + 2;
        } else if flavor.is_metacharacter(c) {
            break ;
        } else {
            proof {
                assert(here.skip(1) =~= chars@.skip(next + 1));
            }
            next = next + 1;
        }
        if !flavor.starts_with_optional_quantifier(&chars, next) {
            prefix_len = prefix_len + 1;
        }
        if prefix_len >= min_len {
            return true;
        }
    }
    false
}

/// The requirement is monotone: a pattern with a literal prefix of some length has one of any
/// shorter length, and every pattern has one of length zero.
pub proof fn law_prefix_is_monotone(
    pattern: Seq<char>,
    shorter: nat,
    longer: nat,
    flavor: PatternFlavor,
)
    requires
        shorter <= longer,
    ensures
        has_prefix(pattern, longer, flavor) ==> has_prefix(pattern, shorter, flavor),
        has_prefix(pattern, 0, flavor),
{
}

/// An anchor in front of a regex that has none makes no difference.
pub proof fn law_anchor_is_ignored(regex: Seq<char>, min_len: nat)
    requires
        regex.len() == 0 || regex[0] != '^',
    ensures
        has_prefix(seq!['^'] + regex, min_len, PatternFlavor::Regex) == has_prefix(
            regex,
            min_len,
            PatternFlavor::Regex,
        ),
{
    assert((seq!['^'] + regex).skip(1) =~= regex);
}

/// Whether a character is special in some pattern: the backslash, or one of the characters that end
/// the literal prefix of a regex.
pub open spec fn is_special(c: char) -> bool {
    seq!['\\', '.', '*', '+', '?', '(', ')', '[', ']', '{', '}', '|', '^', '$'].contains(c)
}

/// Makes the special characters known one by one.
proof fn lemma_special(c: char)
    ensures
        is_special(c) <==> c == '\\' || c == '.' || c == '*' || c == '+' || c == '?' || c == '('
            || c == ')' || c == '[' || c == ']' || c == '{' || c == '}' || c == '|' || c == '^' || c
            == '$',
{
    let all = seq!['\\', '.', '*', '+', '?', '(', ')', '[', ']', '{', '}', '|', '^', '$'];
    assert(all[0] == '\\' && all[1] == '.' && all[2] == '*' && all[3] == '+' && all[4] == '?'
        && all[5] == '(' && all[6] == ')' && all[7] == '[' && all[8] == ']' && all[9] == '{'
        && all[10] == '}' && all[11] == '|' && all[12] == '^' && all[13] == '$');
}

/// Whether no character of a text is special in any pattern.
pub open spec fn is_plain(s: Seq<char>) -> bool {
    forall|i: int| 0 <= i < s.len() ==> !is_special(#[trigger] s[i])
}

/// A pattern of plain characters only has a literal prefix of its own length.
pub proof fn law_plain_pattern_counts_in_full(pattern: Seq<char>, flavor: PatternFlavor)
    requires
        is_plain(pattern),
    ensures
        flavor.prefix_len(pattern) == pattern.len(),
    decreases pattern.len(),
{
    lemma_plain_prefix(pattern, Seq::empty(), flavor);
    assert(pattern + Seq::empty() =~= pattern);
}

/// Plain characters count in full, whatever follows, but for the last one, which a quantifier can
/// make optional.
proof fn lemma_plain_prefix(plain: Seq<char>, rest: Seq<char>, flavor: PatternFlavor)
    requires
        is_plain(plain),
    ensures
        flavor.prefix_len(plain + rest) == plain.len() + flavor.prefix_len(rest) - if plain.len()
            > 0 && flavor.makes_optional(rest) {
            1int
        } else {
            0
        },
    decreases plain.len(),
{
    if plain.len() == 0 {
        assert(plain + rest =~= rest);
    } else {
        let whole = plain + rest;
        let tail = plain.skip(1);
        assert(whole[0] == plain[0]);
        lemma_special(plain[0]);
        assert(whole.skip(1) =~= tail + rest);
        assert(is_plain(tail)) by {
            assert forall|i: int| 0 <= i < tail.len() implies !is_special(#[trigger] tail[i]) by {
                assert(tail[i] == plain[i + 1]);
            }
        }
        lemma_plain_prefix(tail, rest, flavor);
        if tail.len() > 0 {
            assert((tail + rest)[0] == plain[1]);
            lemma_special(plain[1]);
        } else {
            assert(tail + rest =~= rest);
        }
    }
}

/// Text that is appended to a wildcard pattern does not shorten its literal prefix. (To a regex it
/// can be a quantifier that makes the last character optional.)
pub proof fn law_wildcard_prefix_survives_appending(
    pattern: Seq<char>,
    suffix: Seq<char>,
    min_len: nat,
)
    ensures
        PatternFlavor::Wildcard.prefix_len(pattern) <= PatternFlavor::Wildcard.prefix_len(
            pattern + suffix,
        ),
        has_prefix(pattern, min_len, PatternFlavor::Wildcard) ==> has_prefix(
            pattern + suffix,
            min_len,
            PatternFlavor::Wildcard,
        ),
    decreases pattern.len(),
{
    let whole = pattern + suffix;
    if pattern.len() > 0 {
        assert(whole[0] == pattern[0]);
        if pattern[0] == '\\' {
            if pattern.len() > 1 {
                assert(whole.skip(2) =~= pattern.skip(2) + suffix);
                law_wildcard_prefix_survives_appending(pattern.skip(2), suffix, min_len);
            }
        } else if !PatternFlavor::Wildcard.ends_prefix(pattern[0]) {
            assert(whole.skip(1) =~= pattern.skip(1) + suffix);
            law_wildcard_prefix_survives_appending(pattern.skip(1), suffix, min_len);
        }
    }
}

/// The class survives the way over the wire.
pub proof fn law_wire_roundtrip(cost_class: QueryCostClass)
    ensures
        <QueryCostClass as vstd::std_specs::convert::FromSpec<WireQueryCostClass>>::from_spec(
            <WireQueryCostClass as vstd::std_specs::convert::FromSpec<QueryCostClass>>::from_spec(
                cost_class,
            ),
        ) == cost_class,
{
}

/// The literal prefix of a regex ends at the first unescaped special character other than the
/// backslash: plain characters before one that is no quantifier are the whole prefix, and a regex
/// that starts with one, after an anchor or not, has no prefix at all.
pub proof fn law_regex_prefix_ends_at_special_characters(
    plain: Seq<char>,
    special: char,
    rest: Seq<char>,
    min_len: nat,
)
    requires
        is_plain(plain),
        seq!['.', '+', '(', ')', '[', ']', '}', '|', '^', '$'].contains(special) || (plain.len()
            == 0 && seq!['*', '?', '{'].contains(special)),
    ensures
        PatternFlavor::Regex.prefix_len(plain + seq![special] + rest) == plain.len(),
        plain.len() > 0 || special != '^' ==> (has_prefix(
            plain + seq![special] + rest,
            min_len,
            PatternFlavor::Regex,
        ) <==> min_len <= plain.len()),
        has_prefix(seq!['^'] + plain + seq![special] + rest, min_len, PatternFlavor::Regex) <==> min_len
            <= plain.len(),
{
    let enders = seq!['.', '+', '(', ')', '[', ']', '}', '|', '^', '$'];
    let quantifiers = seq!['*', '?', '{'];
    if enders.contains(special) {
        let i = choose|i: int| 0 <= i < enders.len() && enders[i] == special;
        assert(special == '.' || special == '+' || special == '(' || special == ')' || special
            == '[' || special == ']' || special == '}' || special == '|' || special == '^' || special
            == '$');
    } else {
        let i = choose|i: int| 0 <= i < quantifiers.len() && quantifiers[i] == special;
        assert(special == '*' || special == '?' || special == '{');
    }
    let tail = seq![special] + rest;
    let whole = plain + seq![special] + rest;
    assert(tail[0] == special);
    assert(whole =~= plain + tail);
    lemma_plain_prefix(plain, tail, PatternFlavor::Regex);
    if plain.len() > 0 {
        lemma_special(plain[0]);
        assert(whole[0] == plain[0]);
    } else {
        assert(whole[0] == special);
    }
    let anchored = seq!['^'] + plain + seq![special] + rest;
    assert(anchored[0] == '^');
    assert(anchored.skip(1) =~= whole);
}

/// A quantifier that allows no occurrence takes the character before it out of the literal prefix: a
/// star, a question mark, or braces that start with zeros, up to a comma or the closing brace. Braces
/// that start with another digit do not.
pub proof fn law_optional_characters_do_not_count(
    plain: Seq<char>,
    zeros: nat,
    digit: char,
    rest: Seq<char>,
)
    requires
        is_plain(plain),
        plain.len() > 0,
        zeros > 0,
        '1' <= digit <= '9',
    ensures
        PatternFlavor::Regex.prefix_len(plain + seq!['*'] + rest) == plain.len() - 1,
        PatternFlavor::Regex.prefix_len(plain + seq!['?'] + rest) == plain.len() - 1,
        PatternFlavor::Regex.prefix_len(
            plain + seq!['{'] + Seq::new(zeros, |i: int| '0') + seq![','] + rest,
        ) == plain.len() - 1,
        PatternFlavor::Regex.prefix_len(
            plain + seq!['{'] + Seq::new(zeros, |i: int| '0') + seq!['}'] + rest,
        ) == plain.len() - 1,
        PatternFlavor::Regex.prefix_len(plain + seq!['{'] + seq![digit] + rest) == plain.len(),
{
    lemma_plain_prefix(plain, seq!['*'] + rest, PatternFlavor::Regex);
    assert((seq!['*'] + rest)[0] == '*');
    assert(plain + seq!['*'] + rest =~= plain + (seq!['*'] + rest));
    lemma_plain_prefix(plain, seq!['?'] + rest, PatternFlavor::Regex);
    assert((seq!['?'] + rest)[0] == '?');
    assert(plain + seq!['?'] + rest =~= plain + (seq!['?'] + rest));
    lemma_zero_braces(plain, zeros, ',', rest);
    lemma_zero_braces(plain, zeros, '}', rest);
    let braces = seq!['{'] + seq![digit] + rest;
    let inner = seq![digit] + rest;
    assert(plain + seq!['{'] + seq![digit] + rest =~= plain + braces);
    assert(braces[0] == '{');
    assert(braces.skip(1) =~= inner);
    assert(inner[0] == digit);
    let bound = before_separator(inner);
    assert(bound[0] == digit);
    assert(!is_zero(bound)) by {
        assert(bound.len() > 0);
    }
    lemma_plain_prefix(plain, braces, PatternFlavor::Regex);
}

proof fn lemma_zero_braces(plain: Seq<char>, zeros: nat, separator: char, rest: Seq<char>)
    requires
        is_plain(plain),
        plain.len() > 0,
        zeros > 0,
        separator == ',' || separator == '}',
    ensures
        PatternFlavor::Regex.prefix_len(
            plain + seq!['{'] + Seq::new(zeros, |i: int| '0') + seq![separator] + rest,
        ) == plain.len() - 1,
{
    let digits = Seq::new(zeros, |i: int| '0');
    let inner = digits + seq![separator] + rest;
    let braces = seq!['{'] + inner;
    assert(plain + seq!['{'] + digits + seq![separator] + rest =~= plain + braces);
    assert(braces[0] == '{');
    assert(braces.skip(1) =~= inner);
    lemma_before_separator(digits, seq![separator] + rest);
    assert(digits + (seq![separator] + rest) =~= inner);
    assert(digits[0] == '0');
    assert(is_zeros(digits));
    lemma_plain_prefix(plain, braces, PatternFlavor::Regex);
}

proof fn lemma_before_separator(digits: Seq<char>, tail: Seq<char>)
    requires
        forall|i: int| 0 <= i < digits.len() ==> #[trigger] digits[i] == '0',
        tail.len() > 0,
        tail[0] == ',' || tail[0] == '}',
    ensures
        before_separator(digits + tail) == digits,
    decreases digits.len(),
{
    let whole = digits + tail;
    if digits.len() == 0 {
        assert(whole =~= tail);
        assert(before_separator(whole) =~= digits);
    } else {
        assert(whole[0] == '0');
        assert(whole.skip(1) =~= digits.skip(1) + tail);
        lemma_before_separator(digits.skip(1), tail);
        assert(seq!['0'] + digits.skip(1) =~= digits);
    }
}

/// In a regex, an escaped ASCII letter or digit ends the literal prefix, and any other escaped ASCII
/// character is a literal one. In a wildcard pattern every escaped character is. A backslash with
/// nothing after it ends the prefix.
pub proof fn law_escapes(plain: Seq<char>, escaped: char, rest: Seq<char>)
    requires
        is_plain(plain),
        escaped <= '\x7f',
        rest.len() > 0 ==> rest[0] != '*' && rest[0] != '?' && rest[0] != '{',
    ensures
        ({
            let pattern = plain + seq!['\\', escaped] + rest;
            let is_class = ('0' <= escaped && escaped <= '9') || ('A' <= escaped && escaped <= 'Z')
                || ('a' <= escaped && escaped <= 'z');
            &&& is_class ==> PatternFlavor::Regex.prefix_len(pattern) == plain.len()
            &&& !is_class ==> PatternFlavor::Regex.prefix_len(pattern) == plain.len() + 1
                + PatternFlavor::Regex.prefix_len(rest)
            &&& PatternFlavor::Wildcard.prefix_len(pattern) == plain.len() + 1
                + PatternFlavor::Wildcard.prefix_len(rest)
            &&& PatternFlavor::Regex.prefix_len(plain + seq!['\\']) == plain.len()
            &&& PatternFlavor::Wildcard.prefix_len(plain + seq!['\\']) == plain.len()
        }),
{
    let tail = seq!['\\', escaped] + rest;
    assert(plain + seq!['\\', escaped] + rest =~= plain + tail);
    assert(tail[0] == '\\' && tail[1] == escaped);
    assert(tail.skip(2) =~= rest);
    lemma_plain_prefix(plain, tail, PatternFlavor::Regex);
    lemma_plain_prefix(plain, tail, PatternFlavor::Wildcard);
    lemma_plain_prefix(plain, seq!['\\'], PatternFlavor::Regex);
    lemma_plain_prefix(plain, seq!['\\'], PatternFlavor::Wildcard);
}

/// The literal prefix of a wildcard pattern ends at the first unescaped star or question mark, and
/// only there.
pub proof fn law_wildcard_prefix_ends_at_wildcards(literal: Seq<char>, wildcard: char, rest: Seq<char>)
    requires
        forall|i: int|
            0 <= i < literal.len() ==> #[trigger] literal[i] != '\\' && literal[i] != '*'
                && literal[i] != '?',
        wildcard == '*' || wildcard == '?',
    ensures
        PatternFlavor::Wildcard.prefix_len(literal + seq![wildcard] + rest) == literal.len(),
        PatternFlavor::Wildcard.prefix_len(literal) == literal.len(),
        forall|min_len: nat|
            has_prefix(literal + seq![wildcard] + rest, min_len, PatternFlavor::Wildcard)
                <==> min_len <= literal.len(),
    decreases literal.len(),
{
    let whole = literal + seq![wildcard] + rest;
    if literal.len() == 0 {
        assert(whole[0] == wildcard);
    } else {
        let tail = literal.skip(1);
        assert(whole[0] == literal[0]);
        assert(whole.skip(1) =~= tail + seq![wildcard] + rest);
        assert forall|i: int| 0 <= i < tail.len() implies #[trigger] tail[i] != '\\' && tail[i] != '*'
            && tail[i] != '?' by {
            assert(tail[i] == literal[i + 1]);
        }
        law_wildcard_prefix_ends_at_wildcards(tail, wildcard, rest);
    }
}

/// A regex or a wildcard pattern is costly if it has no literal prefix of three characters. A query
/// made of others is costly if any of them is, in whatever clause, and no other query is.
pub proof fn law_costly_patterns_make_queries_costly(query_ast: QueryAst)
    ensures
        match query_ast {
            QueryAst::Regex { field, regex } => is_costly(query_ast) <==> !has_prefix(
                regex@,
                3,
                PatternFlavor::Regex,
            ),
            QueryAst::Wildcard { field, value, lenient, case_insensitive } => is_costly(query_ast)
                <==> !has_prefix(value@, 3, PatternFlavor::Wildcard),
            QueryAst::Boost { underlying } => is_costly(query_ast) <==> is_costly(*underlying),
            QueryAst::Bool { must, must_not, should, filter } => {
                let clauses = must@ + must_not@ + should@ + filter@;
                is_costly(query_ast) <==> exists|i: int|
                    0 <= i < clauses.len() && is_costly(#[trigger] clauses[i])
            },
            _ => !is_costly(query_ast),
        },
{
    if let QueryAst::Bool { must, must_not, should, filter } = query_ast {
        let clauses = must@ + must_not@ + should@ + filter@;
        let a = must@.len() as int;
        let b = a + must_not@.len();
        let c = b + should@.len();
        assert(forall|i: int| 0 <= i < must@.len() ==> #[trigger] must@[i] == clauses[i]);
        assert(forall|i: int| 0 <= i < must_not@.len() ==> #[trigger] must_not@[i] == clauses[a + i]);
        assert(forall|i: int| 0 <= i < should@.len() ==> #[trigger] should@[i] == clauses[b + i]);
        assert(forall|i: int| 0 <= i < filter@.len() ==> #[trigger] filter@[i] == clauses[c + i]);
        if exists|i: int| 0 <= i < clauses.len() && is_costly(#[trigger] clauses[i]) {
            let i = choose|i: int| 0 <= i < clauses.len() && is_costly(#[trigger] clauses[i]);
            if i < a {
                assert(is_costly(must@[i]));
            } else if i < b {
                assert(is_costly(must_not@[i - a]));
            } else if i < c {
                assert(is_costly(should@[i - b]));
            } else {
                assert(is_costly(filter@[i - c]));
            }
        }
    }
}

/// On the wire, a regular query stays regular and a costly one costly.
pub proof fn law_wire_keeps_the_class()
    ensures
        <WireQueryCostClass as vstd::std_specs::convert::FromSpec<QueryCostClass>>::from_spec(
            QueryCostClass::Regular,
        ) == WireQueryCostClass::Regular,
        <WireQueryCostClass as vstd::std_specs::convert::FromSpec<QueryCostClass>>::from_spec(
            QueryCostClass::Costly,
        ) == WireQueryCostClass::Costly,
        <QueryCostClass as vstd::std_specs::convert::FromSpec<WireQueryCostClass>>::from_spec(
            WireQueryCostClass::Regular,
        ) == QueryCostClass::Regular,
        <QueryCostClass as vstd::std_specs::convert::FromSpec<WireQueryCostClass>>::from_spec(
            WireQueryCostClass::Costly,
        ) == QueryCostClass::Costly,
{
}

proof fn lemma_bound(bound: Seq<char>, tail: Seq<char>)
    requires
        !bound.contains(','),
        !bound.contains('}'),
        tail.len() == 0 || tail[0] == ',' || tail[0] == '}',
    ensures
        before_separator(bound + tail) == bound,
    decreases bound.len(),
{
    let whole = bound + tail;
    if bound.len() == 0 {
        assert(whole =~= tail);
        assert(before_separator(whole) =~= bound);
    } else {
        let shorter = bound.skip(1);
        assert(bound.contains(bound[0]));
        assert(whole[0] == bound[0]);
        assert(whole.skip(1) =~= shorter + tail);
        assert forall|c: char| !bound.contains(c) implies !(#[trigger] shorter.contains(c)) by {
            if shorter.contains(c) {
                let i = choose|i: int| 0 <= i < shorter.len() && shorter[i] == c;
                assert(bound[i + 1] == c);
            }
        }
        lemma_bound(shorter, tail);
        assert(seq![bound[0]] + shorter =~= bound);
    }
}

/// Whether braces take the character before them out of the literal prefix is decided by what they
/// start with, up to a comma, the closing brace, or the end of the regex: only zeros, after a plus
/// sign or none, do.
pub proof fn law_lower_bound_decides(
    plain: Seq<char>,
    sign: Seq<char>,
    digits: Seq<char>,
    tail: Seq<char>,
)
    requires
        is_plain(plain),
        plain.len() > 0,
        sign == seq!['+'] || (sign.len() == 0 && (digits.len() == 0 || digits[0] != '+')),
        !digits.contains(','),
        !digits.contains('}'),
        tail.len() == 0 || tail[0] == ',' || tail[0] == '}',
    ensures
        digits.len() > 0 && (forall|i: int| 0 <= i < digits.len() ==> #[trigger] digits[i] == '0')
            ==> PatternFlavor::Regex.prefix_len(plain + seq!['{'] + sign + digits + tail)
            == plain.len() - 1,
        digits.len() == 0 || (exists|i: int| 0 <= i < digits.len() && #[trigger] digits[i] != '0')
            ==> PatternFlavor::Regex.prefix_len(plain + seq!['{'] + sign + digits + tail)
            == plain.len(),
{
    let bound = sign + digits;
    let inner = bound + tail;
    let braces = seq!['{'] + inner;
    assert(plain + seq!['{'] + sign + digits + tail =~= plain + braces);
    assert(braces[0] == '{');
    assert(braces.skip(1) =~= inner);
    assert forall|c: char| c != '+' && !digits.contains(c) implies !(#[trigger] bound.contains(c)) by {
        if bound.contains(c) {
            let i = choose|i: int| 0 <= i < bound.len() && bound[i] == c;
            if i >= sign.len() {
                assert(digits[i - sign.len()] == c);
            }
        }
    }
    lemma_bound(bound, tail);
    if sign.len() > 0 {
        assert(bound[0] == '+');
        assert(bound.skip(1) =~= digits);
    } else {
        assert(bound =~= digits);
    }
    assert(is_zero(bound) == is_zeros(digits));
    lemma_plain_prefix(plain, braces, PatternFlavor::Regex);
}

} // verus!
