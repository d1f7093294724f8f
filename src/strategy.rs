use vstd::prelude::*;

verus! {

/// How the security-relevant functions of a binary are found.
#[derive(Debug, Clone, Copy, PartialEq, Eq, Structural)]
pub enum Strategy {
    /// Match imported symbol names (dynamically linked binaries).
    Import,
    /// Match the names of linked-in functions (static, symbols kept).
    Link,
    /// Locate raw syscall sites and rename their functions (static, stripped).
    Syscall,
}

/// The decision table over (statically linked, stripped).
pub open spec fn strategy_for(link_static: bool, stripped: bool) -> Strategy {
    if !link_static {
        Strategy::Import
    } else if !stripped {
        Strategy::Link
    } else {
        Strategy::Syscall
    }
}

/// Picks the extraction strategy from the binary's characteristics.
pub fn select_strategy(link_static: bool, stripped: bool) -> (r: Strategy)
    ensures
        r == strategy_for(link_static, stripped),
        !link_static ==> r == Strategy::Import,
        link_static && !stripped ==> r == Strategy::Link,
        link_static && stripped ==> r == Strategy::Syscall,
{
    match (link_static, stripped) {
        (false, _) => Strategy::Import,
        (true, false) => Strategy::Link,
        (true, true) => Strategy::Syscall,
    }
}

} // verus!
