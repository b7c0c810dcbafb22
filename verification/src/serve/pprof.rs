//! CPU profiling: rendering of profiles, and the state of the profiler.
use crate::sort;
use crate::sort::{Ranked, Sortable};
use crate::text;
use vstd::prelude::*;

verus! {

/// Matches a text that ends with digits or dashes, and captures what comes before them.
pub const TRAILING_NUMBERS_PATTERN: &'static str = "^(.*?)[-\\d]+$";

/// Captures a decimal digit of any script.
pub const DIGIT_PATTERN: &'static str = "(\\d)";

/// Default duration of the profiling, in seconds.
pub const DEFAULT_DURATION_SECS: u64 = 30;

/// Maximum duration of the profiling, in seconds.
pub const MAX_DURATION_SECS: u64 = 300;

/// Default sampling rate.
pub const DEFAULT_SAMPLING: i32 = 100;

/// Maximum sampling rate.
pub const MAX_SAMPLING: i32 = 1000;

/// What the first group of a regular expression captures of a text, if the expression matches.
pub uninterp spec fn first_group(pattern: Seq<char>, text: Seq<char>) -> Option<Seq<char>>;

/// Whether a character is a decimal digit of any script.
pub open spec fn is_decimal_digit(c: char) -> bool {
    if c <= '\x7f' {
        '0' <= c && c <= '9'
    } else {
        first_group(DIGIT_PATTERN@, seq![c]) is Some
    }
}

/// Whether a character is a decimal digit or a dash.
pub open spec fn is_number_char(c: char) -> bool {
    c == '-' || is_decimal_digit(c)
}

/// A text without the digits and dashes that it ends with.
pub open spec fn without_trailing_numbers(s: Seq<char>) -> Seq<char>
    decreases s.len(),
{
    if s.len() > 0 && is_number_char(s.last()) {
        without_trailing_numbers(s.drop_last())
    } else {
        s
    }
}

/// Whether a text is one line: it has no line feed.
pub open spec fn is_line(s: Seq<char>) -> bool {
    !s.contains('\n')
}

/// The name of a pool, given that of one of its threads: a name of one line loses the digits and
/// dashes that it ends with. Any other name stays.
pub open spec fn pool_name(thread_name: Seq<char>) -> Seq<char> {
    if is_line(thread_name) {
        without_trailing_numbers(thread_name)
    } else {
        thread_name
    }
}

/// [`regex::Regex::captures`]: what the first group captures, or `None` where the expression is not
/// valid, does not match, or has no such group.
///
/// The pattern for trailing numbers matches a line that ends with a digit or a dash, and its group
/// is the shortest prefix that only these follow. It matches no text with a line feed, which neither
/// a digit nor a dash is, and the dot does not match. The digits outside ASCII are those that the
/// class for digits matches.
#[verifier::external_body]
fn capture_first_group(pattern: &str, haystack: &str) -> (captured: Option<String>)
    ensures
        match captured {
            Some(group) => first_group(pattern@, haystack@) == Some(group@),
            None => first_group(pattern@, haystack@) is None,
        },
        pattern@ == TRAILING_NUMBERS_PATTERN@ ==> match captured {
            Some(group) => is_line(haystack@) && haystack@.len() > 0 && is_number_char(
                haystack@.last(),
            ) && group@ == without_trailing_numbers(haystack@),
            None => !is_line(haystack@) || haystack@.len() == 0 || !is_number_char(
                haystack@.last(),
            ),
        },
{
    let regex = regex::Regex::new(pattern).ok()?;
    let captures = regex.captures(haystack)?;
    captures.get(1).map(|group| group.as_str().to_string())
}

/// Replaces the thread name by what was captured of it, if anything.
pub fn replace_captured(thread_name: &mut String, captured: Option<String>)
    ensures
        final(thread_name)@ == match captured {
            Some(group) => group@,
            None => old(thread_name)@,
        },
{
    if let Some(group) = captured {
        *thread_name = group;
    }
}

/// Removes the digits and dashes that a thread name ends with, so that the threads of a pool are
/// profiled together.
pub fn remove_trailing_numbers(thread_name: &mut String)
    ensures
        final(thread_name)@ == pool_name(old(thread_name)@),
{
    let captured = capture_first_group(TRAILING_NUMBERS_PATTERN, thread_name.as_str());
    replace_captured(thread_name, captured);
}

/// A function symbol.
pub struct Symbol {
    /// Raw name of the symbol, which hasn't been demangled.
    pub name: Option<Vec<u8>>,
}

/// The display form of a symbol, given its raw name: demangled, or as it is.
pub uninterp spec fn symbol_display(name: Option<Seq<u8>>) -> Seq<char>;

impl Symbol {
    /// The raw name.
    pub open spec fn raw_name(self) -> Option<Seq<u8>> {
        match self.name {
            Some(name) => Some(name@),
            None => None,
        }
    }
}

/// [`pprof::Symbol`] is displayed by its demangled name, which depends on its raw name alone.
#[verifier::external_body]
fn display_symbol(symbol: &Symbol) -> (display: String)
    ensures
        display@ == symbol_display(symbol.raw_name()),
{
    pprof::Symbol { name: symbol.name.clone(), addr: None, lineno: None, filename: None }.to_string()
}

/// The backtrace of a sample. Frames are captured from the leaf up. A single frame resolves to
/// several symbols when a call was inlined, the innermost one first.
pub struct Frames {
    pub frames: Vec<Vec<Symbol>>,
    pub thread_name: String,
    pub thread_id: u64,
}

impl Frames {
    /// The name of the thread, or its id where it has no name.
    pub open spec fn thread(self) -> Seq<char> {
        if self.thread_name@.len() > 0 {
            self.thread_name@
        } else {
            text::decimal_digits(self.thread_id as nat)
        }
    }

    /// The symbols of each frame, as they are displayed.
    pub open spec fn displayed(self) -> Seq<Seq<Seq<char>>> {
        self.frames@.map_values(
            |frame: Vec<Symbol>| frame@.map_values(|symbol: Symbol| symbol_display(symbol.raw_name())),
        )
    }

    /// Returns the name of the thread, or its id where it has no name.
    pub fn thread_name_or_id(&self) -> (thread: String)
        ensures
            thread@ == self.thread(),
    {
        if self.thread_name.as_str().is_empty() {
            text::decimal(self.thread_id)
        } else {
            self.thread_name.clone()
        }
    }
}

/// Removes the trailing numbers of the thread name of a backtrace.
pub fn frames_post_processor(frames: &mut Frames)
    ensures
        final(frames).thread_name@ == pool_name(old(frames).thread_name@),
        final(frames).frames == old(frames).frames,
        final(frames).thread_id == old(frames).thread_id,
{
    remove_trailing_numbers(&mut frames.thread_name);
}

/// How often each backtrace was sampled.
pub struct Report {
    pub data: Vec<(Frames, isize)>,
}

/// A backtrace in one line, with how often it was sampled.
pub struct FoldedStack {
    pub sample_count: isize,
    pub stack: String,
}

/// Mathematical content of a [`FoldedStack`].
#[verifier::ext_equal]
pub struct FoldedModel {
    pub sample_count: int,
    pub stack: Seq<char>,
}

impl View for FoldedStack {
    type V = FoldedModel;

    open spec fn view(&self) -> FoldedModel {
        FoldedModel { sample_count: self.sample_count as int, stack: self.stack@ }
    }
}

impl Ranked for FoldedModel {
    /// The hottest stack goes first. The stack itself breaks ties.
    open spec fn ranks_before(self, other: FoldedModel) -> bool {
        ||| self.sample_count > other.sample_count
        ||| self.sample_count == other.sample_count && text::text_before(self.stack, other.stack)
    }

    proof fn ranks_asymmetric(a: FoldedModel, b: FoldedModel) {
        text::lemma_text_order_total(a.stack, b.stack);
    }

    proof fn ranks_weakly(a: FoldedModel, b: FoldedModel, c: FoldedModel) {
        if a.sample_count == b.sample_count && b.sample_count == c.sample_count {
            text::lemma_text_order_total(a.stack, b.stack);
            text::lemma_text_order_total(b.stack, c.stack);
            if a.stack != b.stack && b.stack != c.stack {
                text::lemma_text_order_transitive(c.stack, b.stack, a.stack);
                text::lemma_text_order_total(c.stack, a.stack);
            }
        }
    }
}

impl Ranked for FoldedStack {
    open spec fn ranks_before(self, other: FoldedStack) -> bool {
        self@.ranks_before(other@)
    }

    proof fn ranks_asymmetric(a: FoldedStack, b: FoldedStack) {
        FoldedModel::ranks_asymmetric(a@, b@);
    }

    proof fn ranks_weakly(a: FoldedStack, b: FoldedStack, c: FoldedStack) {
        FoldedModel::ranks_weakly(a@, b@, c@);
    }
}

impl Sortable for FoldedStack {
    fn goes_before(&self, other: &FoldedStack) -> (before: bool) {
        if self.sample_count != other.sample_count {
            self.sample_count > other.sample_count
        } else {
            text::goes_before(self.stack.as_str(), other.stack.as_str())
        }
    }
}

/// The symbols of a frame from the outermost one on, each after a semicolon.
pub open spec fn frame_text(symbols: Seq<Seq<char>>) -> Seq<char>
    decreases symbols.len(),
{
    if symbols.len() == 0 {
        Seq::empty()
    } else {
        seq![';'] + symbols.last() + frame_text(symbols.drop_last())
    }
}

/// The frames of a backtrace from the root down.
pub open spec fn frames_text(frames: Seq<Seq<Seq<char>>>) -> Seq<char>
    decreases frames.len(),
{
    if frames.len() == 0 {
        Seq::empty()
    } else {
        frame_text(frames.last()) + frames_text(frames.drop_last())
    }
}

/// A line for each stack: the stack, a space, and the sample count.
pub open spec fn folded_text(stacks: Seq<FoldedModel>) -> Seq<char>
    decreases stacks.len(),
{
    if stacks.len() == 0 {
        Seq::empty()
    } else {
        folded_text(stacks.drop_last()) + stacks.last().stack + seq![' '] + text::signed_digits(
            stacks.last().sample_count,
        ) + seq!['\n']
    }
}

/// The stacks of a report, one line each, in the order of the report.
pub open spec fn stacks_of(report: Report) -> Seq<FoldedModel> {
    report.data@.map_values(
        |entry: (Frames, isize)|
            FoldedModel {
                sample_count: entry.1 as int,
                stack: entry.0.thread() + frames_text(entry.0.displayed()),
            },
    )
}

/// The symbols of each frame, as they are displayed.
fn display_frames(frames: &Frames) -> (displayed: Vec<Vec<String>>)
    ensures
        displayed@.len() == frames.displayed().len(),
        forall|i: int|
            0 <= i < displayed@.len() ==> views(#[trigger] displayed@[i]@) == frames.displayed()[i],
{
    let mut displayed: Vec<Vec<String>> = Vec::new();
    for i in 0..frames.frames.len()
        invariant
            displayed@.len() == i,
            forall|k: int|
                0 <= k < i ==> views(#[trigger] displayed@[k]@) == frames.displayed()[k],
    {
        let frame = &frames.frames[i];
        let mut symbols: Vec<String> = Vec::new();
        for j in 0..frame.len()
            invariant
                symbols@.len() == j,
                forall|k: int|
                    0 <= k < j ==> (#[trigger] symbols@[k])@ == symbol_display(frame@[k].raw_name()),
        {
            symbols.push(display_symbol(&frame[j]));
        }
        proof {
            assert(views(symbols@) =~= frames.displayed()[i as int]);
        }
        displayed.push(symbols);
    }
    displayed
}

/// The contents of some strings.
pub open spec fn views(strings: Seq<String>) -> Seq<Seq<char>> {
    strings.map_values(|s: String| s@)
}

/// Writes a backtrace in one line, from the root down: the thread, then each symbol after a
/// semicolon.
pub fn fold_stack(thread: String, frames: &Vec<Vec<String>>) -> (stack: String)
    ensures
        stack@ == thread@ + frames_text(
            frames@.map_values(|symbols: Vec<String>| views(symbols@)),
        ),
{
    let ghost model = frames@.map_values(|symbols: Vec<String>| views(symbols@));
    let mut stack = thread;
    let mut i: usize = frames.len();
    proof {
        assert(model.take(model.len() as int) =~= model);
    }
    while i > 0
        invariant
            i <= frames@.len(),
            model == frames@.map_values(|symbols: Vec<String>| views(symbols@)),
            thread@ + frames_text(model) == stack@ + frames_text(model.take(i as int)),
        decreases i,
    {
        i = i - 1;
        let symbols = &frames[i];
        let ghost frame = views(symbols@);
        let ghost rest = frames_text(model.take(i as int));
        proof {
            assert(model.take(i + 1).drop_last() =~= model.take(i as int));
            assert(model.take(i + 1).last() == frame);
            assert(frame.take(frame.len() as int) =~= frame);
            assert(stack@ + (frame_text(frame) + rest) =~= stack@ + frame_text(frame) + rest);
        }
        let mut j: usize = symbols.len();
        while j > 0
            invariant
                j <= symbols@.len(),
                frame == views(symbols@),
                thread@ + frames_text(model) == stack@ + frame_text(frame.take(j as int)) + rest,
            decreases j,
        {
            j = j - 1;
            let ghost before = stack@;
            stack.push(';');
            stack.append(symbols[j].as_str());
            proof {
                assert(frame.take(j + 1).drop_last() =~= frame.take(j as int));
                assert(frame.take(j + 1).last() == symbols@[j as int]@);
                let inner = frame_text(frame.take(j as int));
                assert(before + (seq![';'] + symbols@[j as int]@ + inner) + rest =~= stack@ + inner
                    + rest);
            }
        }
        proof {
            assert(stack@ + frame_text(frame.take(0)) + rest =~= stack@ + rest);
        }
    }
    proof {
        assert(stack@ + frames_text(model.take(0)) =~= stack@);
    }
    stack
}

/// Writes stacks in order, the hottest one first, one per line.
pub fn fold_stacks(stacks: Vec<FoldedStack>) -> (folded: String)
    ensures
        folded@ == folded_text(sort::sorted(stacks@.map_values(|stack: FoldedStack| stack@))),
{
    let ghost view = |stack: FoldedStack| stack@;
    proof {
        sort::lemma_sorted_map(stacks@, view);
    }
    let stacks = sort::merge_sort(stacks);
    let ghost model = stacks@.map_values(view);
    let mut folded = String::new();
    proof {
        assert(model.take(0) =~= Seq::empty());
    }
    for i in 0..stacks.len()
        invariant
            model == stacks@.map_values(view),
            view == (|stack: FoldedStack| stack@),
            folded@ == folded_text(model.take(i as int)),
    {
        let ghost before = folded@;
        folded.append(stacks[i].stack.as_str());
        folded.push(' ');
        folded.append(text::signed_decimal(stacks[i].sample_count as i64).as_str());
        folded.push('\n');
        proof {
            let line = model[i as int];
            assert(model.take(i + 1).drop_last() =~= model.take(i as int));
            assert(model.take(i + 1).last() == line);
            assert(folded@ =~= before + line.stack + seq![' '] + text::signed_digits(
                line.sample_count,
            ) + seq!['\n']);
        }
    }
    proof {
        assert(model.take(model.len() as int) =~= model);
    }
    folded
}

/// Renders a report as collapsed (a.k.a. folded) stacks: one line per unique stack, formatted as
/// `thread;frame;frame;… <sample count>`, hottest stack first.
pub fn folded_stacks(report: &Report) -> (folded: String)
    ensures
        folded@ == folded_text(sort::sorted(stacks_of(*report))),
{
    let mut stacks: Vec<FoldedStack> = Vec::new();
    for i in 0..report.data.len()
        invariant
            stacks@.len() == i,
            forall|k: int| 0 <= k < i ==> (#[trigger] stacks@[k])@ == stacks_of(*report)[k],
    {
        let entry = &report.data[i];
        let displayed = display_frames(&entry.0);
        proof {
            assert(displayed@.map_values(|symbols: Vec<String>| views(symbols@))
                =~= entry.0.displayed());
        }
        let stack = fold_stack(entry.0.thread_name_or_id(), &displayed);
        stacks.push(FoldedStack { sample_count: entry.1, stack });
    }
    proof {
        assert(stacks@.map_values(|stack: FoldedStack| stack@) =~= stacks_of(*report));
    }
    fold_stacks(stacks)
}

/// The folded form of a report does not depend on the order in which the report lists the
/// backtraces: two profiles of the same workload stay comparable.
pub proof fn law_folded_form_is_deterministic(a: Report, b: Report)
    requires
        stacks_of(a).to_multiset() == stacks_of(b).to_multiset(),
    ensures
        folded_text(sort::sorted(stacks_of(a))) == folded_text(sort::sorted(stacks_of(b))),
{
    assert forall|x: FoldedModel, y: FoldedModel| #[trigger]
        x.ranks_before(y) || y.ranks_before(x) || x == y by {
        text::lemma_text_order_total(x.stack, y.stack);
    }
    sort::lemma_sorted_unique(stacks_of(a), stacks_of(b));
}

/// The hottest stack comes first: along the lines the sample count never increases.
pub proof fn law_hottest_stack_first(report: Report, i: int, j: int)
    requires
        0 <= i < j < report.data@.len(),
    ensures
        sort::sorted(stacks_of(report)).len() == report.data@.len(),
        sort::sorted(stacks_of(report))[i].sample_count >= sort::sorted(
            stacks_of(report),
        )[j].sample_count,
{
    sort::lemma_sorted(stacks_of(report));
    let lines = sort::sorted(stacks_of(report));
    assert(!lines[j].ranks_before(lines[i]));
}

/// A name of one line loses its longest run of trailing digits and dashes, and nothing else: what
/// is left does not end with any, and only these were removed.
pub proof fn law_trailing_run_is_removed(thread_name: Seq<char>)
    requires
        is_line(thread_name),
    ensures
        ({
            let left = pool_name(thread_name);
            &&& left.is_prefix_of(thread_name)
            &&& left.len() == 0 || !is_number_char(left.last())
            &&& forall|i: int|
                left.len() <= i < thread_name.len() ==> is_number_char(#[trigger] thread_name[i])
        }),
    decreases thread_name.len(),
{
    if thread_name.len() > 0 && is_number_char(thread_name.last()) {
        let shorter = thread_name.drop_last();
        if shorter.contains('\n') {
            let i = choose|i: int| 0 <= i < shorter.len() && shorter[i] == '\n';
            assert(thread_name[i] == '\n');
        }
        law_trailing_run_is_removed(shorter);
        let left = pool_name(shorter);
        assert(left =~= thread_name.subrange(0, left.len() as int));
        assert forall|i: int| left.len() <= i < thread_name.len() implies is_number_char(
            #[trigger] thread_name[i],
        ) by {
            if i < shorter.len() {
                assert(shorter[i] == thread_name[i]);
            }
        }
    } else {
        assert(thread_name =~= thread_name.subrange(0, thread_name.len() as int));
    }
}

/// Removing trailing numbers once is enough.
pub proof fn law_trailing_numbers_removed_for_good(thread_name: Seq<char>)
    ensures
        pool_name(pool_name(thread_name)) == pool_name(thread_name),
{
    if is_line(thread_name) {
        law_trailing_run_is_removed(thread_name);
        let left = pool_name(thread_name);
        if left.contains('\n') {
            let i = choose|i: int| 0 <= i < left.len() && left[i] == '\n';
            assert(thread_name[i] == '\n');
        }
    }
}

/// How a profiling is requested.
#[derive(Clone, Copy, Debug)]
pub struct ProfilerQueryParams {
    /// Duration in seconds, 30 by default and at most 300.
    pub duration: Option<u64>,
    /// Sampling rate, 100 by default and at most 1000.
    pub sampling: Option<i32>,
}

/// A profiling to run.
#[derive(Clone, Copy, Debug, PartialEq, Eq, Structural)]
pub struct ProfilerRun {
    pub duration_secs: u64,
    pub sampling: i32,
}

/// What a reply holds.
#[derive(Debug, PartialEq)]
pub enum ReplyBody {
    Text(String),
    Bytes(Vec<u8>),
}

/// The answer to a request.
pub struct ProfilerReply {
    /// HTTP status.
    pub status: u16,
    /// Value of the `Content-Type` header, where it is set.
    pub content_type: Option<&'static str>,
    pub body: ReplyBody,
}

impl ProfilerReply {
    /// Whether this reply has the given status, content type, and text.
    pub open spec fn is_text(
        self,
        status: u16,
        content_type: Option<Seq<char>>,
        body: Seq<char>,
    ) -> bool {
        &&& self.status == status
        &&& match (self.content_type, content_type) {
            (Some(a), Some(b)) => a@ == b,
            (None, None) => true,
            _ => false,
        }
        &&& self.body matches ReplyBody::Text(content) && content@ == body
    }

    /// Whether this reply has the given status, content type, and bytes.
    pub open spec fn is_bytes(self, status: u16, content_type: Seq<char>, body: Seq<u8>) -> bool {
        &&& self.status == status
        &&& self.content_type matches Some(a) && a@ == content_type
        &&& self.body matches ReplyBody::Bytes(content) && content@ == body
    }

    /// A plain text without a content type of its own.
    fn message(status: u16, body: &str) -> (reply: ProfilerReply)
        ensures
            reply.is_text(status, None, body@),
    {
        ProfilerReply { status, content_type: None, body: ReplyBody::Text(body.to_owned()) }
    }
}

/// What is known of the profiling: whether one is running, and the latest results. A new run
/// overwrites both.
pub struct ProfilerState {
    pub running: bool,
    pub flamegraph_data: Option<Vec<u8>>,
    pub folded_data: Option<String>,
}

impl ProfilerState {
    /// No profiling is running, and none has run.
    pub fn new() -> (state: ProfilerState)
        ensures
            !state.running,
            state.flamegraph_data is None,
            state.folded_data is None,
    {
        ProfilerState { running: false, flamegraph_data: None, folded_data: None }
    }

    /// Handles a request to start a profiling. Returns the reply, and the profiling to run unless
    /// one is running already.
    pub fn start_profiler(&mut self, params: ProfilerQueryParams) -> (outcome: (
        ProfilerReply,
        Option<ProfilerRun>,
    ))
        ensures
            final(self).running,
            final(self).flamegraph_data == old(self).flamegraph_data,
            final(self).folded_data == old(self).folded_data,
            if old(self).running {
                &&& outcome.0.is_text(400, None, "CPU profiling is already running"@)
                &&& outcome.1 is None
            } else {
                &&& outcome.0.is_text(200, None, "CPU profiling started"@)
                &&& outcome.1 matches Some(run)
                &&& run.duration_secs == match params.duration {
                    Some(duration) if duration < MAX_DURATION_SECS => duration,
                    Some(_) => MAX_DURATION_SECS,
                    None => DEFAULT_DURATION_SECS,
                }
                &&& run.sampling == match params.sampling {
                    Some(sampling) if sampling < MAX_SAMPLING => sampling,
                    Some(_) => MAX_SAMPLING,
                    None => DEFAULT_SAMPLING,
                }
            },
            outcome.1 matches Some(run) ==> {
                &&& run.duration_secs <= 300 && run.sampling <= 1000
                &&& params.duration is None ==> run.duration_secs == 30
                &&& params.sampling is None ==> run.sampling == 100
                &&& params.duration matches Some(duration) ==> run.duration_secs == if duration
                    <= 300 {
                    duration
                } else {
                    300
                }
                &&& params.sampling matches Some(sampling) ==> run.sampling == if sampling <= 1000 {
                    sampling
                } else {
                    1000
                }
            },
    {
        if self.running {
            return (ProfilerReply::message(400, "CPU profiling is already running"), None);
        }
        self.running = true;
        let requested: u64 = match params.duration {
            Some(duration) => duration,
            None => DEFAULT_DURATION_SECS,
        };
        let duration_secs: u64 = if requested < MAX_DURATION_SECS {
            requested
        } else {
            MAX_DURATION_SECS
        };
        let rate: i32 = match params.sampling {
            Some(sampling) => sampling,
            None => DEFAULT_SAMPLING,
        };
        let sampling: i32 = if rate < MAX_SAMPLING {
            rate
        } else {
            MAX_SAMPLING
        };
        (
            ProfilerReply::message(200, "CPU profiling started"),
            Some(ProfilerRun { duration_secs, sampling }),
        )
    }

    /// Handles a request for the latest flamegraph.
    pub fn get_flamegraph(&self) -> (reply: ProfilerReply)
        ensures
            match self.flamegraph_data {
                Some(data) => reply.is_bytes(200, "image/svg+xml"@, data@),
                None => reply.is_text(400, None, "flamegraph is not available"@),
            },
    {
        match &self.flamegraph_data {
            Some(data) => ProfilerReply {
                status: 200,
                content_type: Some("image/svg+xml"),
                body: ReplyBody::Bytes(data.clone()),
            },
            None => ProfilerReply::message(400, "flamegraph is not available"),
        }
    }

    /// Handles a request for the latest folded stacks.
    pub fn get_folded(&self) -> (reply: ProfilerReply)
        ensures
            match self.folded_data {
                Some(data) => reply.is_text(200, Some("text/plain; charset=utf-8"@), data@),
                None => reply.is_text(400, None, "folded stacks are not available"@),
            },
    {
        match &self.folded_data {
            Some(data) => ProfilerReply {
                status: 200,
                content_type: Some("text/plain; charset=utf-8"),
                body: ReplyBody::Text(data.clone()),
            },
            None => ProfilerReply::message(400, "folded stacks are not available"),
        }
    }

    /// Ends the running profiling, if any, and keeps its results: the report and the flamegraph, as
    /// far as these could be built.
    pub fn save_report(&mut self, outcome: Option<(Report, Option<Vec<u8>>)>)
        ensures
            !final(self).running,
            match outcome {
                Some((report, flamegraph)) if old(self).running => {
                    &&& final(self).folded_data matches Some(folded)
                    &&& folded@ == folded_text(sort::sorted(stacks_of(report)))
                    &&& final(self).flamegraph_data == match flamegraph {
                        Some(buffer) => Some(buffer),
                        None => old(self).flamegraph_data,
                    }
                },
                _ => {
                    &&& final(self).folded_data == old(self).folded_data
                    &&& final(self).flamegraph_data == old(self).flamegraph_data
                },
            },
    {
        if !self.running {
            return ;
        }
        self.running = false;
        if let Some((report, flamegraph)) = outcome {
            self.folded_data = Some(folded_stacks(&report));
            if let Some(buffer) = flamegraph {
                self.flamegraph_data = Some(buffer);
            }
        }
    }
}

/// Frames are written from the last one to the first, each of them in full: a list of frames is
/// written as its second part followed by its first part.
pub proof fn law_every_frame_is_written(a: Seq<Seq<Seq<char>>>, b: Seq<Seq<Seq<char>>>)
    ensures
        frames_text(a + b) == frames_text(b) + frames_text(a),
    decreases b.len(),
{
    if b.len() == 0 {
        assert(a + b =~= a);
        assert(frames_text(b) + frames_text(a) =~= frames_text(a));
    } else {
        law_every_frame_is_written(a, b.drop_last());
        assert((a + b).drop_last() =~= a + b.drop_last());
        assert((a + b).last() == b.last());
        assert(frame_text(b.last()) + (frames_text(b.drop_last()) + frames_text(a)) =~= frame_text(
            b.last(),
        ) + frames_text(b.drop_last()) + frames_text(a));
    }
}

/// The symbols of a frame are written from the last one to the first, each of them in full.
pub proof fn law_every_symbol_is_written(a: Seq<Seq<char>>, b: Seq<Seq<char>>)
    ensures
        frame_text(a + b) == frame_text(b) + frame_text(a),
    decreases b.len(),
{
    if b.len() == 0 {
        assert(a + b =~= a);
        assert(frame_text(b) + frame_text(a) =~= frame_text(a));
    } else {
        law_every_symbol_is_written(a, b.drop_last());
        assert((a + b).drop_last() =~= a + b.drop_last());
        assert((a + b).last() == b.last());
        assert(seq![';'] + b.last() + (frame_text(b.drop_last()) + frame_text(a)) =~= seq![';']
            + b.last() + frame_text(b.drop_last()) + frame_text(a));
    }
}

/// A frame of a single symbol is written as a semicolon and the symbol, and nothing is written of no
/// frame or no symbol.
pub proof fn law_symbol_follows_a_semicolon(symbol: Seq<char>)
    ensures
        frames_text(seq![seq![symbol]]) == seq![';'] + symbol,
        frame_text(seq![symbol]) == seq![';'] + symbol,
        frames_text(Seq::empty()) == Seq::<char>::empty(),
        frame_text(Seq::empty()) == Seq::<char>::empty(),
{
    reveal_with_fuel(frame_text, 2);
    reveal_with_fuel(frames_text, 2);
    let frame = seq![symbol];
    assert(frame.drop_last() =~= Seq::empty());
    assert(frame_text(frame) =~= seq![';'] + symbol);
    let frames = seq![frame];
    assert(frames.drop_last() =~= Seq::empty());
    assert(frames_text(frames) =~= seq![';'] + symbol);
}

/// How many characters the symbols of a frame take, each with a semicolon.
pub open spec fn symbols_len(symbols: Seq<Seq<char>>) -> nat {
    symbols.fold_left(0nat, |total: nat, symbol: Seq<char>| total + symbol.len() + 1)
}

/// How many characters the symbols of some frames take, each with a semicolon.
pub open spec fn frames_len(frames: Seq<Seq<Seq<char>>>) -> nat {
    frames.fold_left(0nat, |total: nat, symbols: Seq<Seq<char>>| total + symbols_len(symbols))
}

/// The backtrace is as long as all its symbols, with a semicolon for each.
pub proof fn law_backtrace_takes_all_its_symbols(frames: Seq<Seq<Seq<char>>>)
    ensures
        frames_text(frames).len() == frames_len(frames),
    decreases frames.len(),
{
    if frames.len() > 0 {
        law_backtrace_takes_all_its_symbols(frames.drop_last());
        lemma_frame_takes_all_its_symbols(frames.last());
    }
}

proof fn lemma_frame_takes_all_its_symbols(symbols: Seq<Seq<char>>)
    ensures
        frame_text(symbols).len() == symbols_len(symbols),
    decreases symbols.len(),
{
    if symbols.len() > 0 {
        lemma_frame_takes_all_its_symbols(symbols.drop_last());
    }
}

/// Lines follow each other: what is written of two lists of stacks is what is written of each. A
/// line is the stack, a space, the sample count and a line feed.
pub proof fn law_lines_follow_each_other(a: Seq<FoldedModel>, b: Seq<FoldedModel>, stack: FoldedModel)
    ensures
        folded_text(a + b) == folded_text(a) + folded_text(b),
        folded_text(seq![stack]) == stack.stack + seq![' '] + text::signed_digits(
            stack.sample_count,
        ) + seq!['\n'],
        folded_text(Seq::empty()) == Seq::<char>::empty(),
    decreases b.len(),
{
    reveal_with_fuel(folded_text, 2);
    let single = seq![stack];
    assert(single.drop_last() =~= Seq::empty());
    assert(folded_text(single) =~= stack.stack + seq![' '] + text::signed_digits(stack.sample_count)
        + seq!['\n']);
    if b.len() == 0 {
        assert(a + b =~= a);
        assert(folded_text(a) + folded_text(b) =~= folded_text(a));
    } else {
        law_lines_follow_each_other(a, b.drop_last(), stack);
        assert((a + b).drop_last() =~= a + b.drop_last());
        assert((a + b).last() == b.last());
        assert(folded_text(a + b) =~= folded_text(a) + folded_text(b));
    }
}

/// Each backtrace of a report has a line, with its sample count: the name of the thread, or its id
/// where it has no name, followed by each symbol of each frame, as it is displayed.
pub proof fn law_backtrace_has_a_line(report: Report, i: int)
    requires
        0 <= i < report.data@.len(),
    ensures
        ({
            let frames = report.data@[i].0;
            let line = stacks_of(report)[i];
            let thread = if frames.thread_name@.len() == 0 {
                text::decimal_digits(frames.thread_id as nat)
            } else {
                frames.thread_name@
            };
            &&& stacks_of(report).len() == report.data@.len()
            &&& line.sample_count == report.data@[i].1
            &&& line.stack == thread + frames_text(frames.displayed())
            &&& frames.displayed().len() == frames.frames@.len()
            &&& forall|k: int|
                0 <= k < frames.frames@.len() ==> (#[trigger] frames.displayed()[k]).len()
                    == frames.frames@[k]@.len()
            &&& forall|k: int, m: int|
                0 <= k < frames.frames@.len() && 0 <= m < frames.frames@[k]@.len()
                    ==> #[trigger] frames.displayed()[k][m] == symbol_display(
                    match frames.frames@[k]@[m].name {
                        Some(name) => Some(name@),
                        None => None,
                    },
                )
        }),
{
}

/// Along the lines of a report, the sample count never increases, and lines with the same count are
/// in the order of their text. They are those of the report.
pub proof fn law_lines_are_in_order(report: Report, i: int, j: int)
    requires
        0 <= i < j < report.data@.len(),
    ensures
        ({
            let lines = sort::sorted(stacks_of(report));
            &&& lines.to_multiset() == stacks_of(report).to_multiset()
            &&& lines[i].sample_count >= lines[j].sample_count
            &&& lines[i].sample_count == lines[j].sample_count ==> !text::text_before(
                lines[j].stack,
                lines[i].stack,
            )
        }),
{
    sort::lemma_sorted(stacks_of(report));
    let lines = sort::sorted(stacks_of(report));
    assert(!lines[j].ranks_before(lines[i]));
}

/// A thread name with a line feed stays, and so does one that ends with any other ASCII character
/// than a digit or a dash.
pub proof fn law_other_names_stay(thread_name: Seq<char>, i: int)
    ensures
        0 <= i < thread_name.len() && thread_name[i] == '\n' ==> pool_name(thread_name)
            == thread_name,
        thread_name.len() > 0 && thread_name.last() <= '\x7f' && thread_name.last() != '-' && !('0'
            <= thread_name.last() && thread_name.last() <= '9') ==> pool_name(thread_name)
            == thread_name,
        forall|c: char| c == '-' || ('0' <= c && c <= '9') ==> #[trigger] is_number_char(c),
{
    if 0 <= i < thread_name.len() && thread_name[i] == '\n' {
        assert(thread_name.contains('\n'));
    }
}

/// A reply with a text or with bytes has that status, that body, and that content type, or none.
pub proof fn law_reply_has_its_parts(
    reply: ProfilerReply,
    status: u16,
    content_type: Option<Seq<char>>,
    body: Seq<char>,
    bytes: Seq<u8>,
)
    ensures
        reply.is_text(status, content_type, body) ==> {
            &&& reply.status == status
            &&& reply.content_type is Some <==> content_type is Some
            &&& content_type is Some ==> (reply.content_type->0)@ == content_type->0
            &&& reply.body is Text
            &&& (reply.body->Text_0)@ == body
        },
        content_type is Some && reply.is_bytes(status, content_type->0, bytes) ==> {
            &&& reply.status == status
            &&& reply.content_type is Some
            &&& (reply.content_type->0)@ == content_type->0
            &&& reply.body is Bytes
            &&& (reply.body->Bytes_0)@ == bytes
        },
{
}

} // verus!
