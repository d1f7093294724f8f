//! Feature extraction for triaging compiled executables: anti-debugging
//! idioms, control-flow flattening and an optimization estimate.
mod cfg;
mod estimate;
mod graph;
mod ranking;
mod report;
mod sensitive;
mod strategy;
mod syscall;
mod tags;
mod text;
mod vocab;

pub use cfg::{
    build_cfg, detect_flattening, flattened_functions, is_flattened, lemma_conditional_fan_in_rejects,
    lemma_dispatcher_accepted, lemma_flagged_exactly_once, lemma_strict_dispatcher_accepted,
    lemma_strict_max_is_dispatcher, parse_edge,
};
pub use estimate::{encode_tokens, listing_words, optimization_score, SEQUENCE_LEN, UNKNOWN_TOKEN};
pub use graph::BlockGraph;
pub use ranking::{top_complexity, TOP_COUNT};
pub use report::{entry_point_found, InspectError, Sample};
pub use sensitive::{
    import_matches, link_matches, scan_imports, scan_links, sensitive_name, syscall_matches,
    SENSITIVE_COUNT,
};
pub use strategy::{select_strategy, Strategy};
pub use syscall::{
    already_site_named, already_wrapper_named, disassembly_is_signal_wrapper,
    lemma_rename_never_stacks, lemma_single_suffix, order_callers, rename_for_site,
    rename_for_wrapper, select_syscalls, syscall_installs_signal, CallerRecord, ScanAction,
    ScanEvent, ScanStage, SyscallRecord, SyscallScan,
};
pub use tags::{lemma_tags_only_grow, retain_reachable, SignatureTable, Tag, TagSet, TAG_COUNT};
pub use text::{chars_of, ends_with, has_prefix, has_substring};
pub use vocab::{build_vocab, split_point};
