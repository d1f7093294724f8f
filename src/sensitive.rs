use vstd::prelude::*;
use crate::text::{contains_seq, ends_with, has_prefix, has_substring, prefix_of, suffix_of};

verus! {

/// How many names the sensitive-function set holds.
pub const SENSITIVE_COUNT: usize = 6;

/// The library functions and syscalls that anti-debugging code relies on.
pub open spec fn sensitive_names() -> Seq<Seq<char>> {
    seq![
        "madvise"@,
        "prctl"@,
        "signal"@,
        "sigaction"@,
        "process_vm_writev"@,
        "ptrace"@,
    ]
}

/// The `i`-th entry of the sensitive-function set.
pub fn sensitive_name(i: usize) -> (r: &'static str)
    requires
        i < SENSITIVE_COUNT,
    ensures
        r@ == sensitive_names()[i as int],
{
    proof {
        reveal_strlit("madvise");
        reveal_strlit("prctl");
        reveal_strlit("signal");
        reveal_strlit("sigaction");
        reveal_strlit("process_vm_writev");
        reveal_strlit("ptrace");
    }
    match i {
        0 => "madvise",
        1 => "prctl",
        2 => "signal",
        3 => "sigaction",
        4 => "process_vm_writev",
        _ => "ptrace",
    }
}

/// An imported symbol is kept when a sensitive name occurs anywhere in it.
pub open spec fn is_import_match(name: Seq<char>) -> bool {
    exists|k: int| 0 <= k < sensitive_names().len() && contains_seq(name, #[trigger] sensitive_names()[k])
}

/// A linked function is kept when its name ends with a sensitive name.
pub open spec fn is_link_match(name: Seq<char>) -> bool {
    exists|k: int| 0 <= k < sensitive_names().len() && suffix_of(name, #[trigger] sensitive_names()[k])
}

/// A raw syscall is kept when it names a sensitive function and is not an
/// architecture-qualified generic entry.
pub open spec fn is_syscall_match(name: Seq<char>) -> bool {
    !prefix_of(name, "arch"@) && is_import_match(name)
}

/// The views of a sequence of strings.
pub open spec fn views(v: Seq<String>) -> Seq<Seq<char>> {
    v.map_values(|s: String| s@)
}

/// Whether a sensitive name occurs in `name`.
pub fn import_matches(name: &str) -> (r: bool)
    ensures
        r == is_import_match(name@),
{
    let mut k: usize = 0;
    while k < SENSITIVE_COUNT
        invariant
            k <= SENSITIVE_COUNT,
            forall|j: int| 0 <= j < k ==> !contains_seq(name@, #[trigger] sensitive_names()[j]),
        decreases SENSITIVE_COUNT - k,
    {
        if has_substring(name, sensitive_name(k)) {
            return true;
        }
        k += 1;
    }
    false
}

/// Whether `name` ends with a sensitive name.
pub fn link_matches(name: &str) -> (r: bool)
    ensures
        r == is_link_match(name@),
{
    let mut k: usize = 0;
    while k < SENSITIVE_COUNT
        invariant
            k <= SENSITIVE_COUNT,
            forall|j: int| 0 <= j < k ==> !suffix_of(name@, #[trigger] sensitive_names()[j]),
        decreases SENSITIVE_COUNT - k,
    {
        if ends_with(name, sensitive_name(k)) {
            return true;
        }
        k += 1;
    }
    false
}

/// Whether a syscall of this name is one that the syscall scan follows.
pub fn syscall_matches(name: &str) -> (r: bool)
    ensures
        r == is_syscall_match(name@),
{
    proof {
        reveal_strlit("arch");
    }
    !has_prefix(name, "arch") && import_matches(name)
}

/// The import scan: the imported names in which a sensitive name occurs, in
/// their order.
pub fn scan_imports(names: &Vec<String>) -> (r: Vec<String>)
    ensures
        views(r@) == views(names@).filter(|n: Seq<char>| is_import_match(n)),
{
    let ghost pred = |n: Seq<char>| is_import_match(n);
    let mut r: Vec<String> = Vec::new();
    let mut i: usize = 0;
    while i < names.len()
        invariant
            i <= names@.len(),
            pred == (|n: Seq<char>| is_import_match(n)),
            views(r@) == views(names@.subrange(0, i as int)).filter(pred),
        decreases names@.len() - i,
    {
        let keep = import_matches(names[i].as_str());
        let ghost r0 = r@;
        if keep {
            r.push(names[i].clone());
        }
        proof {
            let prev = views(names@.subrange(0, i as int));
            let next = views(names@.subrange(0, i + 1));
            assert(next =~= prev.push(names@[i as int]@));
            reveal(Seq::filter);
            assert(next.drop_last() =~= prev);
            if keep {
                assert(views(r@) =~= views(r0).push(names@[i as int]@));
            } else {
                assert(r@ == r0);
            }
        }
        i += 1;
    }
    assert(names@.subrange(0, i as int) =~= names@);
    r
}

/// The link scan: the function names that end with a sensitive name, in
/// their order.
pub fn scan_links(names: &Vec<String>) -> (r: Vec<String>)
    ensures
        views(r@) == views(names@).filter(|n: Seq<char>| is_link_match(n)),
{
    let ghost pred = |n: Seq<char>| is_link_match(n);
    let mut r: Vec<String> = Vec::new();
    let mut i: usize = 0;
    while i < names.len()
        invariant
            i <= names@.len(),
            pred == (|n: Seq<char>| is_link_match(n)),
            views(r@) == views(names@.subrange(0, i as int)).filter(pred),
        decreases names@.len() - i,
    {
        let keep = link_matches(names[i].as_str());
        let ghost r0 = r@;
        if keep {
            r.push(names[i].clone());
        }
        proof {
            let prev = views(names@.subrange(0, i as int));
            let next = views(names@.subrange(0, i + 1));
            assert(next =~= prev.push(names@[i as int]@));
            reveal(Seq::filter);
            assert(next.drop_last() =~= prev);
            if keep {
                assert(views(r@) =~= views(r0).push(names@[i as int]@));
            } else {
                assert(r@ == r0);
            }
        }
        i += 1;
    }
    assert(names@.subrange(0, i as int) =~= names@);
    r
}

} // verus!
