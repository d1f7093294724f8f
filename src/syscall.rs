use vstd::prelude::*;
use crate::sensitive::{is_syscall_match, syscall_matches};
use crate::text::{contains_seq, ends_with, has_substring, suffix_of};

verus! {

/// A raw syscall site found by the backend's syscall scanner.
pub struct SyscallRecord {
    pub name: String,
    pub addr: u64,
}

/// A cross-reference: the function that makes a call, and its address.
pub struct CallerRecord {
    pub name: String,
    pub addr: u64,
}

/// The name and address of a syscall site.
pub open spec fn site_view(r: SyscallRecord) -> (Seq<char>, u64) {
    (r.name@, r.addr)
}

/// The name and address of a caller.
pub open spec fn caller_view(c: CallerRecord) -> (Seq<char>, u64) {
    (c.name@, c.addr)
}

/// The views of a sequence of syscall sites.
pub open spec fn site_views(s: Seq<SyscallRecord>) -> Seq<(Seq<char>, u64)> {
    s.map_values(|r: SyscallRecord| site_view(r))
}

/// The views of a sequence of callers.
pub open spec fn caller_views(s: Seq<CallerRecord>) -> Seq<(Seq<char>, u64)> {
    s.map_values(|c: CallerRecord| caller_view(c))
}

/// The name given to the function holding a syscall site.
pub open spec fn site_name(function: Seq<char>, syscall: Seq<char>) -> Seq<char> {
    function + "_"@ + syscall
}

/// What renaming a site's function appends: `_` and the syscall's name.
pub open spec fn site_suffix(syscall: Seq<char>) -> Seq<char> {
    "_"@ + syscall
}

/// The function already carries the name that a site of `syscall` gives it,
/// from an earlier scan of the same session.
pub open spec fn site_named(function: Seq<char>, syscall: Seq<char>) -> bool {
    suffix_of(function, site_suffix(syscall))
}

/// The caller already carries a wrapper name from an earlier scan.
pub open spec fn wrapper_named(caller: Seq<char>) -> bool {
    suffix_of(caller, "_signal"@)
}

/// The name given to a signal wrapper.
pub open spec fn wrapper_name(caller: Seq<char>) -> Seq<char> {
    caller + "_signal"@
}

/// The syscall installs a signal handler, so its callers may be wrappers.
pub open spec fn installs_signal(syscall: Seq<char>) -> bool {
    contains_seq(syscall, "sigaction"@)
}

/// A disassembly with neither a software interrupt nor a syscall instruction.
pub open spec fn is_signal_wrapper(disassembly: Seq<char>) -> bool {
    !contains_seq(disassembly, "svc"@) && !contains_seq(disassembly, "syscall"@)
}

impl Clone for SyscallRecord {
    fn clone(&self) -> (r: SyscallRecord)
        ensures
            site_view(r) == site_view(*self),
    {
        SyscallRecord { name: self.name.clone(), addr: self.addr }
    }
}

impl Clone for CallerRecord {
    fn clone(&self) -> (r: CallerRecord)
        ensures
            caller_view(r) == caller_view(*self),
    {
        CallerRecord { name: self.name.clone(), addr: self.addr }
    }
}

/// The name given to the function `function` that holds a `syscall` site.
pub fn rename_for_site(function: &str, syscall: &str) -> (r: String)
    ensures
        r@ == site_name(function@, syscall@),
{
    proof {
        reveal_strlit("_");
    }
    let r = String::from_str(function);
    let r = r.concat("_");
    r.concat(syscall)
}

/// The name given to a signal wrapper.
pub fn rename_for_wrapper(caller: &str) -> (r: String)
    ensures
        r@ == wrapper_name(caller@),
{
    proof {
        reveal_strlit("_signal");
    }
    String::from_str(caller).concat("_signal")
}

/// Whether `function` already carries the name a `syscall` site gives it.
pub fn already_site_named(function: &str, syscall: &str) -> (r: bool)
    ensures
        r == site_named(function@, syscall@),
{
    proof {
        reveal_strlit("_");
    }
    let suffix = String::from_str("_").concat(syscall);
    ends_with(function, suffix.as_str())
}

/// Whether `caller` already carries a wrapper name.
pub fn already_wrapper_named(caller: &str) -> (r: bool)
    ensures
        r == wrapper_named(caller@),
{
    ends_with(caller, "_signal")
}

/// Whether a syscall of this name installs a signal handler.
pub fn syscall_installs_signal(syscall: &str) -> (r: bool)
    ensures
        r == installs_signal(syscall@),
{
    has_substring(syscall, "sigaction")
}

/// Whether a caller's disassembly shows a wrapper that makes no syscall itself.
pub fn disassembly_is_signal_wrapper(disassembly: &str) -> (r: bool)
    ensures
        r == is_signal_wrapper(disassembly@),
{
    !has_substring(disassembly, "svc") && !has_substring(disassembly, "syscall")
}

/// The syscall sites that the scan follows, in the scanner's order.
pub fn select_syscalls(records: &Vec<SyscallRecord>) -> (r: Vec<SyscallRecord>)
    ensures
        site_views(r@) == site_views(records@).filter(
            |s: (Seq<char>, u64)| is_syscall_match(s.0),
        ),
{
    let ghost pred = |s: (Seq<char>, u64)| is_syscall_match(s.0);
    let mut r: Vec<SyscallRecord> = Vec::new();
    let mut i: usize = 0;
    while i < records.len()
        invariant
            i <= records@.len(),
            pred == (|s: (Seq<char>, u64)| is_syscall_match(s.0)),
            site_views(r@) == site_views(records@.subrange(0, i as int)).filter(pred),
        decreases records@.len() - i,
    {
        let keep = syscall_matches(records[i].name.as_str());
        let ghost r0 = r@;
        if keep {
            r.push(records[i].clone());
        }
        proof {
            let prev = site_views(records@.subrange(0, i as int));
            let next = site_views(records@.subrange(0, i + 1));
            assert(next =~= prev.push(site_view(records@[i as int])));
            reveal(Seq::filter);
            assert(next.drop_last() =~= prev);
            if keep {
                assert(site_views(r@) =~= site_views(r0).push(site_view(records@[i as int])));
            } else {
                assert(r@ == r0);
            }
        }
        i += 1;
    }
    assert(records@.subrange(0, i as int) =~= records@);
    r
}

/// `callers[i]` is the first cross-reference from its address.
pub open spec fn first_of_addr(callers: Seq<CallerRecord>, i: int) -> bool {
    0 <= i < callers.len() && forall|j: int| 0 <= j < i ==> callers[j].addr != callers[i].addr
}

/// `c` is the first cross-reference from some address.
pub open spec fn stands_for_first(callers: Seq<CallerRecord>, c: CallerRecord) -> bool {
    exists|i: int| first_of_addr(callers, i) && caller_view(callers[i]) == caller_view(c)
}

/// Some entry of `r` comes from address `a`.
pub open spec fn addr_listed(r: Seq<CallerRecord>, a: u64) -> bool {
    exists|k: int| 0 <= k < r.len() && r[k].addr == a
}

/// `r` lists each calling function once, by increasing address; where
/// several cross-references share an address the first one stands for it.
pub open spec fn is_caller_order(callers: Seq<CallerRecord>, r: Seq<CallerRecord>) -> bool {
    &&& forall|k: int, l: int| 0 <= k < l < r.len() ==> r[k].addr < r[l].addr
    &&& forall|k: int| 0 <= k < r.len() ==> stands_for_first(callers, #[trigger] r[k])
    &&& forall|i: int| 0 <= i < callers.len() ==> addr_listed(r, (#[trigger] callers[i]).addr)
}

/// The callers of a signal installer, one per calling function, by address.
pub fn order_callers(callers: &Vec<CallerRecord>) -> (r: Vec<CallerRecord>)
    ensures
        is_caller_order(callers@, r@),
{
    let n = callers.len();
    let mut r: Vec<CallerRecord> = Vec::new();
    loop
        invariant
            n == callers@.len(),
            forall|k: int, l: int| 0 <= k < l < r@.len() ==> r@[k].addr < r@[l].addr,
            forall|k: int| 0 <= k < r@.len() ==> stands_for_first(callers@, #[trigger] r@[k]),
            forall|i: int|
                0 <= i < callers@.len() && r@.len() > 0 && (#[trigger] callers@[i]).addr
                    <= r@.last().addr ==> addr_listed(r@, callers@[i].addr),
        decreases (if r@.len() == 0 {
            u64::MAX as int + 1
        } else {
            u64::MAX as int - r@.last().addr
        }),
    {
        // The first caller with the least address above the last one listed.
        let mut best: Option<usize> = None;
        let mut i: usize = 0;
        while i < n
            invariant
                n == callers@.len(),
                i <= n,
                best matches Some(b) ==> b < i && (r@.len() == 0 || callers@[b as int].addr
                    > r@.last().addr),
                forall|j: int|
                    0 <= j < i && (r@.len() == 0 || (#[trigger] callers@[j]).addr > r@.last().addr)
                        ==> (best matches Some(b) && callers@[b as int].addr <= callers@[j].addr && (
                    callers@[b as int].addr == callers@[j].addr ==> b <= j)),
            decreases n - i,
        {
            let above = r.len() == 0 || callers[i].addr > r[r.len() - 1].addr;
            if above {
                match best {
                    None => {
                        best = Some(i);
                    },
                    Some(b) => {
                        if callers[i].addr < callers[b].addr {
                            best = Some(i);
                        }
                    },
                }
            }
            i += 1;
        }
        match best {
            None => {
                assert forall|i: int| 0 <= i < callers@.len() implies addr_listed(
                    r@,
                    (#[trigger] callers@[i]).addr,
                ) by {
                    assert(r@.len() > 0 && callers@[i].addr <= r@.last().addr);
                }
                return r;
            },
            Some(b) => {
                let ghost r0 = r@;
                let ghost cb = callers@[b as int];
                assert(first_of_addr(callers@, b as int)) by {
                    assert forall|j: int| 0 <= j < b implies callers@[j].addr != cb.addr by {
                        if callers@[j].addr == cb.addr {
                            assert(r0.len() == 0 || callers@[j].addr > r0.last().addr);
                        }
                    }
                }
                r.push(callers[b].clone());
                assert(r@[r0.len() as int] == r@.last());
                assert forall|k: int| 0 <= k < r@.len() implies stands_for_first(
                    callers@,
                    #[trigger] r@[k],
                ) by {
                    if k < r0.len() {
                        assert(r@[k] == r0[k]);
                    } else {
                        assert(caller_view(callers@[b as int]) == caller_view(r@[k]));
                    }
                }
                assert forall|i: int|
                    0 <= i < callers@.len() && r@.len() > 0 && (#[trigger] callers@[i]).addr
                        <= r@.last().addr implies addr_listed(r@, callers@[i].addr) by {
                    if r0.len() > 0 && callers@[i].addr <= r0.last().addr {
                        let k = choose|k: int| 0 <= k < r0.len() && r0[k].addr == callers@[i].addr;
                        assert(r@[k] == r0[k]);
                    } else {
                        assert(r@[r0.len() as int].addr == callers@[i].addr);
                    }
                }
            },
        }
    }
}

/// What the syscall scan asks of the analysis backend next.
pub enum ScanAction {
    /// Find the function that holds the syscall site at this address.
    ResolveFunction(u64),
    /// Rename function `old_name` to `new_name`.
    Rename { new_name: String, old_name: String },
    /// List the cross-references to the named function.
    FindCallers(String),
    /// Disassemble the named function.
    Disassemble(String),
    /// The scan is over; `found` holds its result.
    Finished,
    /// The event does not answer the last request; nothing changed.
    Rejected,
}

/// The backend's answer to the last request.
pub enum ScanEvent {
    /// The name of the function holding the syscall site.
    FunctionFound(String),
    /// The rename went through.
    Renamed,
    /// The cross-references to the function.
    CallersFound(Vec<CallerRecord>),
    /// The disassembly of the caller.
    Disassembled(String),
}

/// Which answer the scan waits for.
#[derive(Debug, Clone, Copy, PartialEq, Eq, Structural)]
pub enum ScanStage {
    Resolving,
    RenamingSite,
    Listing,
    Inspecting,
    RenamingWrapper,
    Finished,
}

/// The syscall scan for statically linked, stripped binaries: it walks the
/// selected syscall sites, renames each enclosing function after its
/// syscall, and for signal-handler installers renames the callers that are
/// plain wrappers. The backend work is done by the caller of `step`.
pub struct SyscallScan {
    sites: Vec<SyscallRecord>,
    site: usize,
    stage: ScanStage,
    callers: Vec<CallerRecord>,
    caller: usize,
    pending: String,
    found: Vec<String>,
}

impl SyscallScan {
    /// The syscall sites being walked.
    pub closed spec fn sites(&self) -> Seq<SyscallRecord> {
        self.sites@
    }

    /// The position of the current site.
    pub closed spec fn site(&self) -> int {
        self.site as int
    }

    /// Which answer the scan waits for.
    pub closed spec fn stage(&self) -> ScanStage {
        self.stage
    }

    /// The ordered callers of the current signal installer.
    pub closed spec fn callers(&self) -> Seq<CallerRecord> {
        self.callers@
    }

    /// The position of the current caller.
    pub closed spec fn caller(&self) -> int {
        self.caller as int
    }

    /// The name of the rename in flight.
    pub closed spec fn pending(&self) -> Seq<char> {
        self.pending@
    }

    /// The new names given so far, in order.
    pub closed spec fn found(&self) -> Seq<Seq<char>> {
        self.found@.map_values(|s: String| s@)
    }

    /// The positions fit the stage.
    pub open spec fn wf(&self) -> bool {
        &&& 0 <= self.site() <= self.sites().len()
        &&& 0 <= self.caller() <= self.callers().len()
        &&& (self.stage() == ScanStage::Finished <==> self.site() == self.sites().len())
        &&& (self.stage() == ScanStage::Inspecting || self.stage() == ScanStage::RenamingWrapper)
            ==> self.caller() < self.callers().len()
    }

    /// The scan stands at site `s` and `r` asks for what that needs.
    pub open spec fn at_site(&self, s: int, r: ScanAction) -> bool {
        &&& self.site() == s
        &&& if s < self.sites().len() {
            self.stage() == ScanStage::Resolving && (r matches ScanAction::ResolveFunction(a) && a
                == self.sites()[s].addr)
        } else {
            self.stage() == ScanStage::Finished && r is Finished
        }
    }

    /// The scan stands at caller `c` of site `s`, or past the last caller at
    /// the next site, and `r` asks for what that needs.
    pub open spec fn at_caller(&self, s: int, c: int, r: ScanAction) -> bool {
        if c < self.callers().len() {
            &&& self.site() == s
            &&& self.caller() == c
            &&& self.stage() == ScanStage::Inspecting
            &&& r matches ScanAction::Disassemble(n) && n@ == self.callers()[c].name@
        } else {
            self.at_site(s + 1, r)
        }
    }

    /// Moves on to site `self.site + 1`.
    fn next_site(&mut self) -> (r: ScanAction)
        requires
            old(self).site() < old(self).sites().len(),
            0 <= old(self).caller() <= old(self).callers().len(),
        ensures
            final(self).wf(),
            final(self).at_site(old(self).site() + 1, r),
            final(self).sites() == old(self).sites(),
            final(self).found() == old(self).found(),
            final(self).pending() == old(self).pending(),
            final(self).callers() == old(self).callers(),
    {
        let n = self.sites.len();
        assert(self.site < n);
        self.site = self.site + 1;
        if self.site < self.sites.len() {
            self.stage = ScanStage::Resolving;
            ScanAction::ResolveFunction(self.sites[self.site].addr)
        } else {
            self.stage = ScanStage::Finished;
            ScanAction::Finished
        }
    }

    /// Moves on to caller `c` of the current site.
    fn next_caller(&mut self, c: usize) -> (r: ScanAction)
        requires
            old(self).site() < old(self).sites().len(),
            c <= old(self).callers().len(),
        ensures
            final(self).wf(),
            final(self).at_caller(old(self).site(), c as int, r),
            final(self).sites() == old(self).sites(),
            final(self).found() == old(self).found(),
            final(self).callers() == old(self).callers(),
    {
        self.caller = c;
        if c < self.callers.len() {
            self.stage = ScanStage::Inspecting;
            ScanAction::Disassemble(self.callers[c].name.clone())
        } else {
            self.next_site()
        }
    }

    /// Starts a scan over the syscall sites that `records` reports, keeping
    /// those that `select_syscalls` keeps.
    pub fn new(records: &Vec<SyscallRecord>) -> (r: (SyscallScan, ScanAction))
        ensures
            r.0.wf(),
            site_views(r.0.sites()) == site_views(records@).filter(
                |s: (Seq<char>, u64)| is_syscall_match(s.0),
            ),
            r.0.found() == Seq::<Seq<char>>::empty(),
            r.0.at_site(0, r.1),
    {
        let sites = select_syscalls(records);
        let mut scan = SyscallScan {
            sites,
            site: 0,
            stage: ScanStage::Resolving,
            callers: Vec::new(),
            caller: 0,
            pending: String::new(),
            found: Vec::new(),
        };
        assert(scan.found() =~= Seq::<Seq<char>>::empty());
        if scan.sites.len() == 0 {
            scan.stage = ScanStage::Finished;
            (scan, ScanAction::Finished)
        } else {
            let a = scan.sites[0].addr;
            (scan, ScanAction::ResolveFunction(a))
        }
    }

    /// The new names, once the scan is over: syscall-site renames in the
    /// scanner's order, each followed by the renames of its wrappers in
    /// address order.
    pub fn result(&self) -> (r: Vec<String>)
        ensures
            r@.map_values(|s: String| s@) == self.found(),
    {
        let mut r: Vec<String> = Vec::new();
        let mut k: usize = 0;
        while k < self.found.len()
            invariant
                k <= self.found@.len(),
                r@.map_values(|s: String| s@) == self.found@.subrange(0, k as int).map_values(
                    |s: String| s@,
                ),
            decreases self.found@.len() - k,
        {
            let ghost r0 = r@;
            let s = self.found[k].clone();
            r.push(s);
            assert(r@.map_values(|s: String| s@) =~= r0.map_values(|s: String| s@).push(
                self.found@[k as int]@,
            ));
            assert(self.found@.subrange(0, k + 1).map_values(|s: String| s@) =~= self.found@.subrange(
                0,
                k as int,
            ).map_values(|s: String| s@).push(self.found@[k as int]@));
            k += 1;
        }
        assert(self.found@.subrange(0, k as int) =~= self.found@);
        r
    }

    /// Takes the backend's answer to the last request and returns the next
    /// request. The new names found so far only ever grow at the end. A
    /// function or caller that already carries its new name, from an earlier
    /// scan of the same session, is recorded as it is and not renamed again.
    pub fn step(&mut self, event: ScanEvent) -> (r: ScanAction)
        requires
            old(self).wf(),
        ensures
            final(self).wf(),
            final(self).sites() == old(self).sites(),
            old(self).found().is_prefix_of(final(self).found()),
            match (old(self).stage(), event) {
                (ScanStage::Resolving, ScanEvent::FunctionFound(f)) => {
                    let sys = old(self).sites()[old(self).site()].name@;
                    if site_named(f@, sys) {
                        &&& final(self).found() == old(self).found().push(f@)
                        &&& final(self).pending() == f@
                        &&& if installs_signal(sys) {
                            &&& final(self).stage() == ScanStage::Listing
                            &&& final(self).site() == old(self).site()
                            &&& r matches ScanAction::FindCallers(n) && n@ == f@
                        } else {
                            final(self).at_site(old(self).site() + 1, r)
                        }
                    } else {
                        let name = site_name(f@, sys);
                        &&& final(self).stage() == ScanStage::RenamingSite
                        &&& final(self).site() == old(self).site()
                        &&& final(self).pending() == name
                        &&& final(self).found() == old(self).found()
                        &&& r matches ScanAction::Rename { new_name, old_name } && new_name@
                            == name && old_name@ == f@
                        &&& !suffix_of(name, site_suffix(sys) + site_suffix(sys))
                    }
                },
                (ScanStage::RenamingSite, ScanEvent::Renamed) => {
                    let sys = old(self).sites()[old(self).site()].name@;
                    &&& final(self).found() == old(self).found().push(old(self).pending())
                    &&& if installs_signal(sys) {
                        &&& final(self).stage() == ScanStage::Listing
                        &&& final(self).site() == old(self).site()
                        &&& r matches ScanAction::FindCallers(n) && n@ == old(self).pending()
                    } else {
                        final(self).at_site(old(self).site() + 1, r)
                    }
                },
                (ScanStage::Listing, ScanEvent::CallersFound(cs)) => {
                    &&& is_caller_order(cs@, final(self).callers())
                    &&& final(self).found() == old(self).found()
                    &&& final(self).at_caller(old(self).site(), 0, r)
                },
                (ScanStage::Inspecting, ScanEvent::Disassembled(d)) => {
                    let c = old(self).callers()[old(self).caller()].name@;
                    &&& final(self).callers() == old(self).callers()
                    &&& if is_signal_wrapper(d@) && wrapper_named(c) {
                        &&& final(self).found() == old(self).found().push(c)
                        &&& final(self).at_caller(old(self).site(), old(self).caller() + 1, r)
                    } else if is_signal_wrapper(d@) {
                        &&& final(self).found() == old(self).found()
                        &&& final(self).stage() == ScanStage::RenamingWrapper
                        &&& final(self).site() == old(self).site()
                        &&& final(self).caller() == old(self).caller()
                        &&& final(self).pending() == wrapper_name(c)
                        &&& r matches ScanAction::Rename { new_name, old_name } && new_name@
                            == wrapper_name(c) && old_name@ == c
                        &&& !suffix_of(wrapper_name(c), "_signal"@ + "_signal"@)
                    } else {
                        &&& final(self).found() == old(self).found()
                        &&& final(self).at_caller(old(self).site(), old(self).caller() + 1, r)
                    }
                },
                (ScanStage::RenamingWrapper, ScanEvent::Renamed) => {
                    &&& final(self).found() == old(self).found().push(old(self).pending())
                    &&& final(self).callers() == old(self).callers()
                    &&& final(self).at_caller(old(self).site(), old(self).caller() + 1, r)
                },
                _ => {
                    &&& *final(self) == *old(self)
                    &&& r is Rejected
                },
            },
    {
        let ghost before = self.found();
        match (self.stage, event) {
            (ScanStage::Resolving, ScanEvent::FunctionFound(f)) => {
                let named = already_site_named(f.as_str(), self.sites[self.site].name.as_str());
                if named {
                    self.pending = f;
                    self.close_site()
                } else {
                    let name = rename_for_site(f.as_str(), self.sites[self.site].name.as_str());
                    proof {
                        lemma_single_suffix(f@, site_suffix(self.sites()[self.site()].name@));
                        assert(site_name(f@, self.sites()[self.site()].name@) =~= f@ + site_suffix(
                            self.sites()[self.site()].name@,
                        ));
                    }
                    self.pending = name.clone();
                    self.stage = ScanStage::RenamingSite;
                    assert(self.found().is_prefix_of(self.found()));
                    ScanAction::Rename { new_name: name, old_name: f }
                }
            },
            (ScanStage::RenamingSite, ScanEvent::Renamed) => self.close_site(),
            (ScanStage::Listing, ScanEvent::CallersFound(cs)) => {
                self.callers = order_callers(&cs);
                self.caller = 0;
                assert(before.is_prefix_of(self.found())) by {
                    assert(self.found().subrange(0, before.len() as int) =~= before);
                }
                self.next_caller(0)
            },
            (ScanStage::Inspecting, ScanEvent::Disassembled(d)) => {
                assert(before.is_prefix_of(self.found())) by {
                    assert(self.found().subrange(0, before.len() as int) =~= before);
                }
                if disassembly_is_signal_wrapper(d.as_str()) {
                    let c = self.callers[self.caller].name.clone();
                    if already_wrapper_named(c.as_str()) {
                        self.pending = c;
                        self.close_wrapper()
                    } else {
                        let name = rename_for_wrapper(c.as_str());
                        proof {
                            reveal_strlit("_signal");
                            lemma_single_suffix(c@, "_signal"@);
                        }
                        self.pending = name.clone();
                        self.stage = ScanStage::RenamingWrapper;
                        ScanAction::Rename { new_name: name, old_name: c }
                    }
                } else {
                    let n = self.callers.len();
                    assert(self.caller < n);
                    let c = self.caller + 1;
                    self.next_caller(c)
                }
            },
            (ScanStage::RenamingWrapper, ScanEvent::Renamed) => self.close_wrapper(),
            _ => {
                assert(before.is_prefix_of(self.found())) by {
                    assert(self.found().subrange(0, before.len() as int) =~= before);
                }
                ScanAction::Rejected
            },
        }
    }

    /// Records the site's function under its new name and moves on: to its
    /// callers when the syscall installs a signal handler, else to the next
    /// site.
    fn close_site(&mut self) -> (r: ScanAction)
        requires
            old(self).wf(),
            old(self).site() < old(self).sites().len(),
        ensures
            final(self).wf(),
            final(self).sites() == old(self).sites(),
            final(self).pending() == old(self).pending(),
            final(self).found() == old(self).found().push(old(self).pending()),
            if installs_signal(old(self).sites()[old(self).site()].name@) {
                &&& final(self).stage() == ScanStage::Listing
                &&& final(self).site() == old(self).site()
                &&& r matches ScanAction::FindCallers(n) && n@ == old(self).pending()
            } else {
                final(self).at_site(old(self).site() + 1, r)
            },
    {
        let ghost before = self.found();
        self.found.push(self.pending.clone());
        assert(self.found() =~= before.push(self.pending()));
        if syscall_installs_signal(self.sites[self.site].name.as_str()) {
            self.stage = ScanStage::Listing;
            ScanAction::FindCallers(self.pending.clone())
        } else {
            self.next_site()
        }
    }

    /// Records the current caller under its wrapper name and moves on to the
    /// next caller.
    fn close_wrapper(&mut self) -> (r: ScanAction)
        requires
            old(self).wf(),
            old(self).site() < old(self).sites().len(),
            old(self).caller() < old(self).callers().len(),
        ensures
            final(self).wf(),
            final(self).sites() == old(self).sites(),
            final(self).callers() == old(self).callers(),
            final(self).found() == old(self).found().push(old(self).pending()),
            final(self).at_caller(old(self).site(), old(self).caller() + 1, r),
    {
        let ghost before = self.found();
        self.found.push(self.pending.clone());
        assert(self.found() =~= before.push(self.pending()));
        let n = self.callers.len();
        assert(self.caller < n);
        let c = self.caller + 1;
        self.next_caller(c)
    }
}

/// Appending `u` to `f` yields a name ending in `u` twice exactly when `f`
/// already ended in `u`.
pub proof fn lemma_single_suffix(f: Seq<char>, u: Seq<char>)
    ensures
        suffix_of(f + u, u + u) <==> suffix_of(f, u),
{
    let name = f + u;
    let m = u.len() as int;
    let fl = f.len() as int;
    if suffix_of(name, u + u) {
        assert(m <= fl);
        assert(f.subrange(fl - m, fl) =~= (u + u).subrange(0, m)) by {
            assert forall|i: int| 0 <= i < m implies f.subrange(fl - m, fl)[i] == (u + u).subrange(
                0,
                m,
            )[i] by {
                assert(name.subrange(fl + m - 2 * m, fl + m)[i] == (u + u)[i]);
            }
        }
        assert((u + u).subrange(0, m) =~= u);
    }
    if suffix_of(f, u) {
        assert(name.subrange(fl + m - 2 * m, fl + m) =~= u + u) by {
            assert forall|i: int| 0 <= i < 2 * m implies name.subrange(fl - m, fl + m)[i] == (u
                + u)[i] by {
                if i < m {
                    assert(f.subrange(fl - m, fl)[i] == u[i]);
                }
            }
        }
    }
}

/// Running the scan again over functions it already renamed builds no chain
/// of suffixes: a rename is requested only for a name that does not already
/// carry the suffix, and the new name then carries it once.
pub proof fn lemma_rename_never_stacks(f: Seq<char>, syscall: Seq<char>, caller: Seq<char>)
    ensures
        !site_named(f, syscall) ==> !suffix_of(
            site_name(f, syscall),
            site_suffix(syscall) + site_suffix(syscall),
        ),
        !wrapper_named(caller) ==> !suffix_of(wrapper_name(caller), "_signal"@ + "_signal"@),
{
    lemma_single_suffix(f, site_suffix(syscall));
    assert(site_name(f, syscall) =~= f + site_suffix(syscall));
    lemma_single_suffix(caller, "_signal"@);
}

} // verus!
