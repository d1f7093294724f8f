use re9k::{
    already_site_named, already_wrapper_named,
    detect_flattening, disassembly_is_signal_wrapper, encode_tokens, entry_point_found,
    flattened_functions, optimization_score, order_callers, rename_for_site, rename_for_wrapper,
    retain_reachable, scan_imports, scan_links, select_strategy, select_syscalls,
    syscall_installs_signal, top_complexity, CallerRecord, Sample, ScanAction, ScanEvent,
    SignatureTable, Strategy, SyscallRecord, SyscallScan, Tag, TagSet, SEQUENCE_LEN, build_vocab,
    listing_words, split_point,
};

fn strings(v: &[&str]) -> Vec<String> {
    v.iter().map(|s| s.to_string()).collect()
}

#[test]
fn strategy_table() {
    assert_eq!(select_strategy(false, false), Strategy::Import);
    assert_eq!(select_strategy(false, true), Strategy::Import);
    assert_eq!(select_strategy(true, false), Strategy::Link);
    assert_eq!(select_strategy(true, true), Strategy::Syscall);
}

#[test]
fn import_scan_keeps_contained_names() {
    let imports = strings(&["sym.imp.ptrace", "sym.imp.prctl", "sym.imp.printf", "sym.imp.puts"]);
    assert_eq!(scan_imports(&imports), strings(&["sym.imp.ptrace", "sym.imp.prctl"]));
}

#[test]
fn link_scan_keeps_suffix_matches() {
    let funcs = strings(&["sym.__ptrace", "sym.ptrace_helper", "sym.__libc_sigaction", "main"]);
    assert_eq!(scan_links(&funcs), strings(&["sym.__ptrace", "sym.__libc_sigaction"]));
}

#[test]
fn dynamic_binary_end_to_end() {
    let sample = Sample::new(
        "bin".to_string(),
        "x86".to_string(),
        64,
        "gcc".to_string(),
        false,
        false,
        30,
    );
    assert_eq!(select_strategy(sample.link_static, sample.stripped), Strategy::Import);
    let imports = strings(&["ptrace", "prctl", "malloc"]);
    let functions = scan_imports(&imports);
    assert_eq!(functions, strings(&["ptrace", "prctl"]));
    assert!(!sample.stripped);
    assert!(!sample.link_static);
    assert!(sample.sect_header);
    assert_eq!(sample.optimized, 0);
}

#[test]
fn section_headers_need_more_than_three() {
    let s = Sample::new(String::new(), String::new(), 32, String::new(), true, true, 3);
    assert!(!s.sect_header);
    let s = Sample::new(String::new(), String::new(), 32, String::new(), true, true, 4);
    assert!(s.sect_header);
}

#[test]
fn syscall_selection_skips_arch_prefixed() {
    let recs = vec![
        SyscallRecord { name: "ptrace".to_string(), addr: 1 },
        SyscallRecord { name: "arch_prctl".to_string(), addr: 2 },
        SyscallRecord { name: "write".to_string(), addr: 3 },
        SyscallRecord { name: "rt_sigaction".to_string(), addr: 4 },
    ];
    let kept: Vec<(String, u64)> =
        select_syscalls(&recs).into_iter().map(|r| (r.name, r.addr)).collect();
    assert_eq!(kept, vec![("ptrace".to_string(), 1), ("rt_sigaction".to_string(), 4)]);
}

#[test]
fn static_stripped_end_to_end() {
    let recs = vec![
        SyscallRecord { name: "ptrace".to_string(), addr: 0x10 },
        SyscallRecord { name: "sigaction".to_string(), addr: 0x20 },
    ];
    let (mut scan, a) = SyscallScan::new(&recs);
    assert!(matches!(a, ScanAction::ResolveFunction(0x10)));
    let a = scan.step(ScanEvent::FunctionFound("f1".to_string()));
    match a {
        ScanAction::Rename { new_name, old_name } => {
            assert_eq!(new_name, "f1_ptrace");
            assert_eq!(old_name, "f1");
        }
        _ => panic!("expected a rename"),
    }
    let a = scan.step(ScanEvent::Renamed);
    assert!(matches!(a, ScanAction::ResolveFunction(0x20)));
    let a = scan.step(ScanEvent::FunctionFound("f2".to_string()));
    assert!(matches!(a, ScanAction::Rename { .. }));
    let a = scan.step(ScanEvent::Renamed);
    match a {
        ScanAction::FindCallers(n) => assert_eq!(n, "f2_sigaction"),
        _ => panic!("expected a caller query"),
    }
    let a = scan.step(ScanEvent::CallersFound(vec![CallerRecord {
        name: "g".to_string(),
        addr: 0x30,
    }]));
    match a {
        ScanAction::Disassemble(n) => assert_eq!(n, "g"),
        _ => panic!("expected a disassembly"),
    }
    let a = scan.step(ScanEvent::Disassembled("push rbp mov rbp, rsp call f2_sigaction".to_string()));
    match a {
        ScanAction::Rename { new_name, old_name } => {
            assert_eq!(new_name, "g_signal");
            assert_eq!(old_name, "g");
        }
        _ => panic!("expected a rename"),
    }
    let a = scan.step(ScanEvent::Renamed);
    assert!(matches!(a, ScanAction::Finished));
    assert_eq!(scan.result(), strings(&["f1_ptrace", "f2_sigaction", "g_signal"]));
}

#[test]
fn caller_with_syscall_is_not_a_wrapper() {
    let recs = vec![SyscallRecord { name: "sigaction".to_string(), addr: 8 }];
    let (mut scan, _) = SyscallScan::new(&recs);
    scan.step(ScanEvent::FunctionFound("f".to_string()));
    scan.step(ScanEvent::Renamed);
    scan.step(ScanEvent::CallersFound(vec![CallerRecord { name: "h".to_string(), addr: 1 }]));
    let a = scan.step(ScanEvent::Disassembled("mov eax, 0xd syscall".to_string()));
    assert!(matches!(a, ScanAction::Finished));
    assert_eq!(scan.result(), strings(&["f_sigaction"]));
}

#[test]
fn unexpected_event_is_rejected() {
    let recs = vec![SyscallRecord { name: "ptrace".to_string(), addr: 8 }];
    let (mut scan, _) = SyscallScan::new(&recs);
    assert!(matches!(scan.step(ScanEvent::Renamed), ScanAction::Rejected));
    assert!(scan.result().is_empty());
}

#[test]
fn empty_syscall_scan_finishes_at_once() {
    let (scan, a) = SyscallScan::new(&vec![]);
    assert!(matches!(a, ScanAction::Finished));
    assert!(scan.result().is_empty());
}

/// Runs a scan over the two sites of the stripped-binary scenario, answering
/// with the given function and caller names, and returns the requested
/// renames and the result.
fn run_scan(f1: &str, f2: &str, g: &str) -> (Vec<(String, String)>, Vec<String>) {
    let recs = vec![
        SyscallRecord { name: "ptrace".to_string(), addr: 0x10 },
        SyscallRecord { name: "sigaction".to_string(), addr: 0x20 },
    ];
    let names = [f1, f2];
    let mut renames = vec![];
    let (mut scan, mut action) = SyscallScan::new(&recs);
    let mut site = 0;
    loop {
        let event = match action {
            ScanAction::ResolveFunction(_) => {
                site += 1;
                ScanEvent::FunctionFound(names[site - 1].to_string())
            }
            ScanAction::Rename { new_name, old_name } => {
                renames.push((new_name, old_name));
                ScanEvent::Renamed
            }
            ScanAction::FindCallers(_) => {
                ScanEvent::CallersFound(vec![CallerRecord { name: g.to_string(), addr: 0x30 }])
            }
            ScanAction::Disassemble(_) => ScanEvent::Disassembled("push rbp call x".to_string()),
            ScanAction::Finished => break,
            ScanAction::Rejected => panic!("event out of order"),
        };
        action = scan.step(event);
    }
    (renames, scan.result())
}

#[test]
fn second_scan_renames_nothing() {
    let (renames, first) = run_scan("f1", "f2", "g");
    assert_eq!(renames.len(), 3);
    assert_eq!(first, strings(&["f1_ptrace", "f2_sigaction", "g_signal"]));
    let (renames, second) = run_scan("f1_ptrace", "f2_sigaction", "g_signal");
    assert!(renames.is_empty());
    assert_eq!(second, first);
}

#[test]
fn already_named_checks() {
    assert!(already_site_named("f1_ptrace", "ptrace"));
    assert!(!already_site_named("f1ptrace", "ptrace"));
    assert!(!already_site_named("f1", "ptrace"));
    assert!(already_wrapper_named("g_signal"));
    assert!(!already_wrapper_named("signal"));
    assert_eq!(rename_for_site("f1", "ptrace"), "f1_ptrace");
    assert_eq!(rename_for_wrapper("g"), "g_signal");
}

#[test]
fn signal_helpers() {
    assert!(syscall_installs_signal("rt_sigaction"));
    assert!(!syscall_installs_signal("signal"));
    assert!(disassembly_is_signal_wrapper("push rbp ret"));
    assert!(!disassembly_is_signal_wrapper("svc 0"));
    assert!(!disassembly_is_signal_wrapper("syscall"));
}

#[test]
fn callers_sorted_and_deduplicated() {
    let cs = vec![
        CallerRecord { name: "b".to_string(), addr: 20 },
        CallerRecord { name: "a".to_string(), addr: 10 },
        CallerRecord { name: "b2".to_string(), addr: 20 },
        CallerRecord { name: "c".to_string(), addr: 5 },
    ];
    let r: Vec<(String, u64)> = order_callers(&cs).into_iter().map(|c| (c.name, c.addr)).collect();
    assert_eq!(
        r,
        vec![("c".to_string(), 5), ("a".to_string(), 10), ("b".to_string(), 20)]
    );
}

const DISPATCH: &str = "a --> d\nb --> d\nc --> d\nd --> a\nd --> b: t\n";

#[test]
fn dispatcher_with_unconditional_fan_in_is_flagged() {
    assert!(detect_flattening(DISPATCH));
    let names = vec![Some("f".to_string())];
    let renders = vec![DISPATCH.to_string()];
    assert_eq!(flattened_functions(&names, &renders), strings(&["f"]));
}

#[test]
fn conditional_fan_in_is_rejected() {
    let text = "a --> d\nb --> d: cond\nc --> d\nd --> a\n";
    assert!(!detect_flattening(text));
    let names = vec![Some("f".to_string())];
    assert!(flattened_functions(&names, &vec![text.to_string()]).is_empty());
}

#[test]
fn no_unconditional_jump_to_head_is_not_flagged() {
    let text = "a --> d\nb --> d\nc --> d\nd --> a: x\n";
    assert!(!detect_flattening(text));
}

#[test]
fn empty_and_malformed_renderings() {
    assert!(!detect_flattening(""));
    assert!(!detect_flattening("no arrows here\n-> nope\n"));
}

#[test]
fn head_is_first_five_nodes_only() {
    // d jumps only to the sixth node inserted.
    let text = "n1 --> d\nn2 --> d\nn3 --> d\nn4 --> n5\nd --> n6\nn6 --> n7\n";
    assert!(!detect_flattening(text));
    let text = "n1 --> d\nn2 --> d\nn3 --> d\nd --> n3\n";
    assert!(detect_flattening(text));
}

#[test]
fn nameless_functions_are_skipped() {
    let names = vec![None, Some("g".to_string())];
    let renders = vec![DISPATCH.to_string(), DISPATCH.to_string()];
    assert_eq!(flattened_functions(&names, &renders), strings(&["g"]));
}

#[test]
fn score_of_half() {
    assert_eq!(optimization_score(&vec![1, 1, 0, 0]), 50);
}

#[test]
fn score_of_nothing_is_zero() {
    assert_eq!(optimization_score(&vec![]), 0);
}

#[test]
fn score_rounds_to_nearest() {
    assert_eq!(optimization_score(&vec![1, 1, 0]), 67);
    assert_eq!(optimization_score(&vec![1, 0, 0]), 33);
    assert_eq!(optimization_score(&vec![1; 8]), 100);
    assert_eq!(optimization_score(&vec![1, 0, 0, 0, 0, 0, 0, 0]), 13);
}

#[test]
fn top_complexity_order_and_ties() {
    let cc = vec![3, 9, 3, 1, 9];
    assert_eq!(top_complexity(&cc), vec![4, 1, 2, 0, 3]);
    assert!(top_complexity(&vec![]).is_empty());
}

#[test]
fn top_complexity_takes_twenty_five() {
    let cc: Vec<u64> = (0..40).collect();
    let r = top_complexity(&cc);
    assert_eq!(r.len(), 25);
    assert_eq!(r[0], 39);
    assert_eq!(r[24], 15);
}

#[test]
fn tokens_are_padded_and_unknowns_mapped() {
    let r = encode_tokens(&vec![Some(5), None, Some(7)]);
    assert_eq!(r.len(), SEQUENCE_LEN);
    assert_eq!(&r[..4], &[5, 1, 7, 0]);
    let long: Vec<Option<usize>> = (0..100).map(Some).collect();
    let r = encode_tokens(&long);
    assert_eq!(r.len(), 64);
    assert_eq!(r[63], 63);
}

#[test]
fn reachability_filter() {
    let fs = strings(&["a", "b", "c"]);
    assert_eq!(retain_reachable(&fs, &vec![true, false, true]), strings(&["a", "c"]));
}

#[test]
fn entry_point_answer() {
    assert!(!entry_point_found("\n"));
    assert!(entry_point_found("name: entry0\n"));
    assert!(entry_point_found(""));
}

#[test]
fn tagging_finds_idioms() {
    let table = SignatureTable::new().expect("patterns compile");
    let mut params = TagSet::new();
    let texts = strings(&[
        "if (ptrace(0, 0, 0, 0) == -1) exit(1);",
        "madvise(p, 0x1000, 0x10)",
        "signal (5, handler);",
    ]);
    table.tag_renderings(&texts, &mut params);
    assert_eq!(params.names(), vec!["PTRACE_TRACEME", "MADV_DONTDUMP", "SIGNAL_SIGTRAP"]);
    assert_eq!(params.len(), 3);
}

#[test]
fn tagging_never_loses_tags() {
    let table = SignatureTable::new().expect("patterns compile");
    let mut params = TagSet::new();
    params.insert(Tag::PrSetName);
    table.tag_renderings(&strings(&["ptrace(0x10, pid, 0, 0)"]), &mut params);
    assert!(params.contains(Tag::PrSetName));
    assert!(params.contains(Tag::PtraceAttach));
    table.tag_renderings(&strings(&["nothing here"]), &mut params);
    assert_eq!(params.len(), 2);
}

#[test]
fn tag_names() {
    assert_eq!(Tag::PtraceSeize.name(), "PTRACE_SEIZE");
    assert_eq!(Tag::at(9), Tag::PrSetDumpable);
}

#[test]
fn listing_split_into_words() {
    assert_eq!(
        listing_words("  push rbp\nmov\trbp,  rsp \n"),
        strings(&["push", "rbp", "mov", "rbp,", "rsp"])
    );
    assert!(listing_words("").is_empty());
    assert!(listing_words(" \n\t").is_empty());
}

#[test]
fn vocabulary_in_first_appearance_order() {
    let v = build_vocab(&strings(&["mov rax rbx", "push rax\npop rbx", ""]));
    assert_eq!(v, strings(&["mov", "rax", "rbx", "push", "pop"]));
    assert!(build_vocab(&vec![]).is_empty());
}

#[test]
fn split_point_rounds_down() {
    assert_eq!(split_point(10, 80), 8);
    assert_eq!(split_point(7, 80), 5);
    assert_eq!(split_point(0, 80), 0);
    assert_eq!(split_point(9, 100), 9);
}

#[test]
fn import_scan_with_reachability() {
    let imports = strings(&["sym.imp.ptrace", "sym.imp.prctl", "sym.imp.puts"]);
    let found = scan_imports(&imports);
    assert_eq!(found, strings(&["sym.imp.ptrace", "sym.imp.prctl"]));
    assert_eq!(retain_reachable(&found, &vec![true, true]), found);
}

#[test]
fn strict_dispatcher_among_several_functions() {
    // d has three unconditional incoming edges, every other block fewer.
    let flat = "a --> d\nb --> d\nc --> d\nd --> b\n";
    let plain = "a --> b\nb --> c: t\na --> c\n";
    let names = vec![Some("f".to_string()), Some("h".to_string()), None, Some("k".to_string())];
    let renders = vec![flat.to_string(), plain.to_string(), flat.to_string(), flat.to_string()];
    assert_eq!(flattened_functions(&names, &renders), strings(&["f", "k"]));
}
