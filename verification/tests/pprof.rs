use quickwit::serve::pprof::{
    fold_stack, fold_stacks, folded_stacks, frames_post_processor, remove_trailing_numbers,
    replace_captured, FoldedStack, Frames, ProfilerQueryParams, ProfilerState, ReplyBody, Report,
    Symbol,
};

fn symbol(name: &str) -> Symbol {
    Symbol {
        name: Some(name.as_bytes().to_vec()),
    }
}

/// Builds a stack from its frames given from the root down, the way the folded
/// format prints them (`Frames` stores them the other way around).
fn frames(thread_name: &str, root_to_leaf: &[&str]) -> Frames {
    Frames {
        frames: root_to_leaf
            .iter()
            .rev()
            .map(|name| vec![symbol(name)])
            .collect(),
        thread_name: thread_name.to_string(),
        thread_id: 1,
    }
}

fn report(stacks: Vec<(Frames, isize)>) -> Report {
    Report { data: stacks }
}

#[test]
fn test_folded_stacks() {
    let folded = folded_stacks(&report(vec![
        (frames("quickwit-search", &["search", "warmup"]), 3),
        (frames("quickwit-search", &["search", "collect"]), 12),
    ]));
    // Hottest stack first, frames from the root down, count last.
    assert_eq!(
        folded,
        "quickwit-search;search;collect 12\nquickwit-search;search;warmup 3\n"
    );
}

#[test]
fn test_folded_stacks_is_ordered_deterministically() {
    // Same count: the stack itself breaks the tie, so that two profiles of the
    // same workload can be diffed.
    let folded = folded_stacks(&report(vec![
        (frames("thread", &["b"]), 1),
        (frames("thread", &["a"]), 1),
    ]));
    assert_eq!(folded, "thread;a 1\nthread;b 1\n");
}

#[test]
fn test_folded_stacks_empty_report() {
    assert_eq!(folded_stacks(&report(Vec::new())), "");
}

#[test]
fn test_folded_stacks_inlined_frames() {
    // A single frame can resolve to several symbols when a call was inlined: they
    // are printed as regular frames, the innermost one last.
    let mut inlined = frames("thread", &["outer"]);
    inlined
        .frames
        .insert(0, vec![symbol("inlined"), symbol("caller")]);
    assert_eq!(
        folded_stacks(&report(vec![(inlined, 5)])),
        "thread;outer;caller;inlined 5\n"
    );
}

fn test_remove_trailing_numbers_aux(thread_name: &str, expected: &str) {
    let mut thread_name = thread_name.to_string();
    remove_trailing_numbers(&mut thread_name);
    assert_eq!(&thread_name, expected);
}

#[test]
fn test_remove_trailing_numbers() {
    test_remove_trailing_numbers_aux("thread-12", "thread");
    test_remove_trailing_numbers_aux("thread12", "thread");
    test_remove_trailing_numbers_aux("thread-", "thread");
    test_remove_trailing_numbers_aux("thread-1-2", "thread");
    test_remove_trailing_numbers_aux("thread-1-2", "thread");
    test_remove_trailing_numbers_aux("12-aa", "12-aa");
}

#[test]
fn test_remove_trailing_numbers_of_any_script() {
    test_remove_trailing_numbers_aux("", "");
    test_remove_trailing_numbers_aux("12-", "");
    test_remove_trailing_numbers_aux("caf\u{e9}-12", "caf\u{e9}");
    test_remove_trailing_numbers_aux("caf\u{e9}", "caf\u{e9}");
    // Arabic-Indic digits, then a superscript two, which is no decimal digit.
    test_remove_trailing_numbers_aux("thread-\u{661}\u{662}3", "thread");
    test_remove_trailing_numbers_aux("thread-1\u{b2}", "thread-1\u{b2}");
    test_remove_trailing_numbers_aux("two\nlines-12", "two\nlines-12");
    test_remove_trailing_numbers_aux("line-12\n", "line-12\n");
}

#[test]
fn test_trailing_numbers_are_removed_for_good() {
    let mut thread_name = "thread-12".to_string();
    remove_trailing_numbers(&mut thread_name);
    remove_trailing_numbers(&mut thread_name);
    assert_eq!(thread_name, "thread");
}

#[test]
fn test_names_without_a_capture_are_left_alone() {
    let mut thread_name = "1234".to_string();
    replace_captured(&mut thread_name, None);
    assert_eq!(thread_name, "1234");
    replace_captured(&mut thread_name, Some("thread".to_string()));
    assert_eq!(thread_name, "thread");
}

#[test]
fn test_post_processor_renames_the_thread() {
    let mut sampled = frames("tokio-runtime-worker-3", &["main"]);
    frames_post_processor(&mut sampled);
    assert_eq!(sampled.thread_name, "tokio-runtime-worker");
}

#[test]
fn test_unnamed_threads_and_symbols() {
    let unnamed = Frames {
        frames: vec![vec![Symbol { name: None }]],
        thread_name: String::new(),
        thread_id: 17,
    };
    assert_eq!(unnamed.thread_name_or_id(), "17");
    assert_eq!(folded_stacks(&report(vec![(unnamed, 1)])), "17;Unknown 1\n");
}

#[test]
fn test_mangled_symbols_are_demangled() {
    let folded = folded_stacks(&report(vec![(
        frames("thread", &["_ZN3foo3barE"]),
        2,
    )]));
    assert_eq!(folded, "thread;foo::bar 2\n");
}

#[test]
fn test_folding() {
    assert_eq!(
        fold_stack(
            "thread".to_string(),
            &vec![vec!["leaf".to_string()], vec!["root".to_string()]]
        ),
        "thread;root;leaf"
    );
    assert_eq!(
        fold_stacks(vec![
            FoldedStack { sample_count: -1, stack: "c".to_string() },
            FoldedStack { sample_count: 7, stack: "b".to_string() },
            FoldedStack { sample_count: 7, stack: "a".to_string() },
        ]),
        "a 7\nb 7\nc -1\n"
    );
}

#[test]
fn test_profiler_runs_once_at_a_time() {
    let mut state = ProfilerState::new();
    let params = ProfilerQueryParams { duration: None, sampling: None };
    assert_eq!(state.get_flamegraph().status, 400);
    assert_eq!(state.get_folded().status, 400);

    let (reply, run) = state.start_profiler(params);
    assert_eq!(reply.status, 200);
    let run = run.unwrap();
    assert_eq!(run.duration_secs, 30);
    assert_eq!(run.sampling, 100);

    // A second run is refused while the first one is under way.
    let (reply, run) = state.start_profiler(params);
    assert_eq!(reply.status, 400);
    assert!(run.is_none());

    state.save_report(Some((
        report(vec![(frames("thread", &["main"]), 4)]),
        Some(b"<svg/>".to_vec()),
    )));
    let folded = state.get_folded();
    assert_eq!(folded.status, 200);
    assert_eq!(folded.content_type, Some("text/plain; charset=utf-8"));
    assert_eq!(folded.body, ReplyBody::Text("thread;main 4\n".to_string()));
    let flamegraph = state.get_flamegraph();
    assert_eq!(flamegraph.status, 200);
    assert_eq!(flamegraph.content_type, Some("image/svg+xml"));
    assert_eq!(flamegraph.body, ReplyBody::Bytes(b"<svg/>".to_vec()));

    // The next run may start, within the limits. If it fails, the results stay.
    let (_, run) = state.start_profiler(ProfilerQueryParams {
        duration: Some(10_000),
        sampling: Some(5_000),
    });
    let run = run.unwrap();
    assert_eq!(run.duration_secs, 300);
    assert_eq!(run.sampling, 1_000);
    state.save_report(None);
    assert!(!state.running);
    assert_eq!(state.get_folded().status, 200);
}
