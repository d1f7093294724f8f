use vstd::prelude::*;
use crate::sensitive::views;

verus! {

#[verifier::external_type_specification]
#[verifier::external_body]
pub struct ExRegex(regex::Regex);

/// Whether `pattern` is a valid regular expression.
pub uninterp spec fn pattern_compiles(pattern: Seq<char>) -> bool;

/// Whether the regular expression `pattern` matches somewhere in `text`.
pub uninterp spec fn pattern_matches(pattern: Seq<char>, text: Seq<char>) -> bool;

/// How many tags the signature table holds.
pub const TAG_COUNT: usize = 12;

/// A finding in decompiled code: which anti-debugging idiom was seen.
#[derive(Debug, Clone, Copy, PartialEq, Eq, Structural)]
pub enum Tag {
    /// A `signal` call installing a SIGTRAP handler.
    SignalSigtrap,
    /// A `sigaction` call for SIGTRAP.
    SigactSigtrap,
    /// `ptrace(PTRACE_TRACEME, ..)`.
    PtraceTraceme,
    /// `ptrace(PTRACE_PEEKTEXT, ..)`.
    PtracePeektext,
    /// `ptrace(PTRACE_POKETEXT, ..)`.
    PtracePoketext,
    /// `ptrace(PTRACE_PEEKDATA, ..)`.
    PtracePeekdata,
    /// `ptrace(PTRACE_POKEDATA, ..)`.
    PtracePokedata,
    /// `ptrace(PTRACE_ATTACH, ..)`.
    PtraceAttach,
    /// `ptrace(PTRACE_SEIZE, ..)`.
    PtraceSeize,
    /// `prctl(PR_SET_DUMPABLE, ..)`.
    PrSetDumpable,
    /// `prctl(PR_SET_NAME, ..)`.
    PrSetName,
    /// `madvise(.., MADV_DONTDUMP)`.
    MadvDontdump,
}

/// The tag at position `k` of the signature table.
pub open spec fn tag_at(k: int) -> Tag {
    if k == 0 {
        Tag::SignalSigtrap
    } else if k == 1 {
        Tag::SigactSigtrap
    } else if k == 2 {
        Tag::PtraceTraceme
    } else if k == 3 {
        Tag::PtracePeektext
    } else if k == 4 {
        Tag::PtracePoketext
    } else if k == 5 {
        Tag::PtracePeekdata
    } else if k == 6 {
        Tag::PtracePokedata
    } else if k == 7 {
        Tag::PtraceAttach
    } else if k == 8 {
        Tag::PtraceSeize
    } else if k == 9 {
        Tag::PrSetDumpable
    } else if k == 10 {
        Tag::PrSetName
    } else {
        Tag::MadvDontdump
    }
}

/// The report name of a tag.
pub open spec fn tag_name(t: Tag) -> Seq<char> {
    match t {
        Tag::SignalSigtrap => "SIGNAL_SIGTRAP"@,
        Tag::SigactSigtrap => "SIGACT_SIGTRAP"@,
        Tag::PtraceTraceme => "PTRACE_TRACEME"@,
        Tag::PtracePeektext => "PTRACE_PEEKTEXT"@,
        Tag::PtracePoketext => "PTRACE_POKETEXT"@,
        Tag::PtracePeekdata => "PTRACE_PEEKDATA"@,
        Tag::PtracePokedata => "PTRACE_POKEDATA"@,
        Tag::PtraceAttach => "PTRACE_ATTACH"@,
        Tag::PtraceSeize => "PTRACE_SEIZE"@,
        Tag::PrSetDumpable => "PR_SET_DUMPABLE"@,
        Tag::PrSetName => "PR_SET_NAME"@,
        Tag::MadvDontdump => "MADV_DONTDUMP"@,
    }
}

/// The pattern that reveals a tag in decompiled code.
pub open spec fn tag_pattern(t: Tag) -> Seq<char> {
    match t {
        Tag::SignalSigtrap => "signal[\\s]*\\([0x]*5,"@,
        Tag::SigactSigtrap => "sigaction[\\s]*\\([0x]*5,"@,
        Tag::PtraceTraceme => "ptrace[\\s]*\\([0x]*0,"@,
        Tag::PtracePeektext => "ptrace[\\s]*\\([0x]*1,"@,
        Tag::PtracePoketext => "ptrace[\\s]*\\([0x]*4,"@,
        Tag::PtracePeekdata => "ptrace[\\s]*\\([0x]*2,"@,
        Tag::PtracePokedata => "ptrace[\\s]*\\([0x]*5,"@,
        Tag::PtraceAttach => "ptrace[\\s]*\\(0x10,"@,
        Tag::PtraceSeize => "ptrace[\\s]*\\(0x4206,"@,
        Tag::PrSetDumpable => "prctl[\\s]*\\([0x]*4,"@,
        Tag::PrSetName => "prctl[\\s]*\\(0xf,"@,
        Tag::MadvDontdump => "madvise[^\\\\n]*, 0x10\\)"@,
    }
}

impl Tag {
    /// The tag at position `k` of the signature table.
    pub fn at(k: usize) -> (r: Tag)
        requires
            k < TAG_COUNT,
        ensures
            r == tag_at(k as int),
    {
        match k {
            0 => Tag::SignalSigtrap,
            1 => Tag::SigactSigtrap,
            2 => Tag::PtraceTraceme,
            3 => Tag::PtracePeektext,
            4 => Tag::PtracePoketext,
            5 => Tag::PtracePeekdata,
            6 => Tag::PtracePokedata,
            7 => Tag::PtraceAttach,
            8 => Tag::PtraceSeize,
            9 => Tag::PrSetDumpable,
            10 => Tag::PrSetName,
            _ => Tag::MadvDontdump,
        }
    }

    /// The name under which the report lists this tag.
    pub fn name(&self) -> (r: &'static str)
        ensures
            r@ == tag_name(*self),
    {
        proof {
            reveal_strlit("SIGNAL_SIGTRAP");
            reveal_strlit("SIGACT_SIGTRAP");
            reveal_strlit("PTRACE_TRACEME");
            reveal_strlit("PTRACE_PEEKTEXT");
            reveal_strlit("PTRACE_POKETEXT");
            reveal_strlit("PTRACE_PEEKDATA");
            reveal_strlit("PTRACE_POKEDATA");
            reveal_strlit("PTRACE_ATTACH");
            reveal_strlit("PTRACE_SEIZE");
            reveal_strlit("PR_SET_DUMPABLE");
            reveal_strlit("PR_SET_NAME");
            reveal_strlit("MADV_DONTDUMP");
        }
        match self {
            Tag::SignalSigtrap => "SIGNAL_SIGTRAP",
            Tag::SigactSigtrap => "SIGACT_SIGTRAP",
            Tag::PtraceTraceme => "PTRACE_TRACEME",
            Tag::PtracePeektext => "PTRACE_PEEKTEXT",
            Tag::PtracePoketext => "PTRACE_POKETEXT",
            Tag::PtracePeekdata => "PTRACE_PEEKDATA",
            Tag::PtracePokedata => "PTRACE_POKEDATA",
            Tag::PtraceAttach => "PTRACE_ATTACH",
            Tag::PtraceSeize => "PTRACE_SEIZE",
            Tag::PrSetDumpable => "PR_SET_DUMPABLE",
            Tag::PrSetName => "PR_SET_NAME",
            Tag::MadvDontdump => "MADV_DONTDUMP",
        }
    }

    /// The pattern that reveals this tag in decompiled code.
    pub fn pattern(&self) -> (r: &'static str)
        ensures
            r@ == tag_pattern(*self),
    {
        proof {
            reveal_strlit("signal[\\s]*\\([0x]*5,");
            reveal_strlit("sigaction[\\s]*\\([0x]*5,");
            reveal_strlit("ptrace[\\s]*\\([0x]*0,");
            reveal_strlit("ptrace[\\s]*\\([0x]*1,");
            reveal_strlit("ptrace[\\s]*\\([0x]*4,");
            reveal_strlit("ptrace[\\s]*\\([0x]*2,");
            reveal_strlit("ptrace[\\s]*\\([0x]*5,");
            reveal_strlit("ptrace[\\s]*\\(0x10,");
            reveal_strlit("ptrace[\\s]*\\(0x4206,");
            reveal_strlit("prctl[\\s]*\\([0x]*4,");
            reveal_strlit("prctl[\\s]*\\(0xf,");
            reveal_strlit("madvise[^\\\\n]*, 0x10\\)");
        }
        match self {
            Tag::SignalSigtrap => "signal[\\s]*\\([0x]*5,",
            Tag::SigactSigtrap => "sigaction[\\s]*\\([0x]*5,",
            Tag::PtraceTraceme => "ptrace[\\s]*\\([0x]*0,",
            Tag::PtracePeektext => "ptrace[\\s]*\\([0x]*1,",
            Tag::PtracePoketext => "ptrace[\\s]*\\([0x]*4,",
            Tag::PtracePeekdata => "ptrace[\\s]*\\([0x]*2,",
            Tag::PtracePokedata => "ptrace[\\s]*\\([0x]*5,",
            Tag::PtraceAttach => "ptrace[\\s]*\\(0x10,",
            Tag::PtraceSeize => "ptrace[\\s]*\\(0x4206,",
            Tag::PrSetDumpable => "prctl[\\s]*\\([0x]*4,",
            Tag::PrSetName => "prctl[\\s]*\\(0xf,",
            Tag::MadvDontdump => "madvise[^\\\\n]*, 0x10\\)",
        }
    }
}

/// Every tag appears in the table.
pub proof fn lemma_tag_in_table(t: Tag)
    ensures
        exists|k: int| 0 <= k < TAG_COUNT && tag_at(k) == t,
{
    match t {
        Tag::SignalSigtrap => assert(tag_at(0) == t),
        Tag::SigactSigtrap => assert(tag_at(1) == t),
        Tag::PtraceTraceme => assert(tag_at(2) == t),
        Tag::PtracePeektext => assert(tag_at(3) == t),
        Tag::PtracePoketext => assert(tag_at(4) == t),
        Tag::PtracePeekdata => assert(tag_at(5) == t),
        Tag::PtracePokedata => assert(tag_at(6) == t),
        Tag::PtraceAttach => assert(tag_at(7) == t),
        Tag::PtraceSeize => assert(tag_at(8) == t),
        Tag::PrSetDumpable => assert(tag_at(9) == t),
        Tag::PrSetName => assert(tag_at(10) == t),
        Tag::MadvDontdump => assert(tag_at(11) == t),
    }
}

/// A set of tags without repeats, kept in order of first insertion.
#[derive(Debug)]
pub struct TagSet {
    tags: Vec<Tag>,
}

impl View for TagSet {
    type V = Set<Tag>;

    closed spec fn view(&self) -> Set<Tag> {
        self.tags@.to_set()
    }
}

impl TagSet {
    /// No tag is held twice.
    pub closed spec fn wf(&self) -> bool {
        self.tags@.no_duplicates()
    }

    /// The tags in order of first insertion.
    pub closed spec fn order(&self) -> Seq<Tag> {
        self.tags@
    }

    /// An empty set.
    pub fn new() -> (r: TagSet)
        ensures
            r.wf(),
            r@ == Set::<Tag>::empty(),
    {
        let r = TagSet { tags: Vec::new() };
        assert(r.tags@.to_set() =~= Set::<Tag>::empty());
        r
    }

    /// Whether `t` is in the set.
    pub fn contains(&self, t: Tag) -> (r: bool)
        ensures
            r == self@.contains(t),
    {
        let mut i: usize = 0;
        while i < self.tags.len()
            invariant
                i <= self.tags@.len(),
                forall|j: int| 0 <= j < i ==> self.tags@[j] != t,
            decreases self.tags@.len() - i,
        {
            if self.tags[i] == t {
                assert(self.tags@.contains(t));
                return true;
            }
            i += 1;
        }
        false
    }

    /// Adds `t`; the tags already held stay.
    pub fn insert(&mut self, t: Tag)
        requires
            old(self).wf(),
        ensures
            final(self).wf(),
            final(self)@ == old(self)@.insert(t),
    {
        if !self.contains(t) {
            let ghost before = self.tags@;
            self.tags.push(t);
            assert(self.tags@ =~= before.push(t));
            assert forall|x: Tag| #[trigger] self.tags@.contains(x) <==> (before.contains(x) || x
                == t) by {
                if self.tags@.contains(x) {
                    let j = choose|j: int| 0 <= j < self.tags@.len() && self.tags@[j] == x;
                    if j < before.len() {
                        assert(before[j] == x);
                    }
                }
                if before.contains(x) {
                    let j = choose|j: int| 0 <= j < before.len() && before[j] == x;
                    assert(self.tags@[j] == x);
                }
                if x == t {
                    assert(self.tags@[before.len() as int] == x);
                }
            }
            assert(self.tags@.to_set() =~= before.to_set().insert(t));
            assert(self.tags@.no_duplicates()) by {
                assert forall|a: int, b: int| 0 <= a < b < self.tags@.len() implies self.tags@[a]
                    != self.tags@[b] by {
                    if b == before.len() {
                        assert(before.contains(before[a]));
                    }
                }
            }
        } else {
            assert(self@.insert(t) =~= self@);
        }
    }

    /// How many tags the set holds.
    pub fn len(&self) -> (r: usize)
        requires
            self.wf(),
        ensures
            r == self@.len(),
    {
        proof {
            self.tags@.unique_seq_to_set();
        }
        self.tags.len()
    }

    /// The report names of the tags, in order of first insertion.
    pub fn names(&self) -> (r: Vec<&'static str>)
        ensures
            r@.len() == self.order().len(),
            forall|k: int| 0 <= k < r@.len() ==> (#[trigger] r@[k])@ == tag_name(self.order()[k]),
    {
        let mut r: Vec<&'static str> = Vec::new();
        let mut i: usize = 0;
        while i < self.tags.len()
            invariant
                i <= self.tags@.len(),
                r@.len() == i,
                forall|k: int| 0 <= k < i ==> (#[trigger] r@[k])@ == tag_name(self.tags@[k]),
            decreases self.tags@.len() - i,
        {
            r.push(self.tags[i].name());
            i += 1;
        }
        r
    }
}

/// A compiled pattern with the tag it reveals. Only `compile_signature`
/// builds one, so `re` is always the compiled form of `pattern`.
pub struct Signature {
    tag: Tag,
    pattern: &'static str,
    re: regex::Regex,
}

/// Relies on `regex::Regex::new`: compiles `pattern`, or gives nothing when
/// the pattern is not a valid regular expression; which of the two depends
/// on the pattern alone.
#[verifier::external_body]
fn compile_signature(tag: Tag, pattern: &'static str) -> (r: Option<Signature>)
    ensures
        r is Some <==> pattern_compiles(pattern@),
        r matches Some(s) ==> s.tag == tag && s.pattern@ == pattern@,
{
    match regex::Regex::new(pattern) {
        Ok(re) => Some(Signature { tag, pattern, re }),
        Err(_) => None,
    }
}

/// Relies on `regex::Regex::is_match`: whether the signature's pattern
/// matches somewhere in `text`.
#[verifier::external_body]
fn signature_matches(sig: &Signature, text: &str) -> (r: bool)
    ensures
        r == pattern_matches(sig.pattern@, text@),
{
    sig.re.is_match(text)
}

/// The compiled patterns of every tag, in table order.
pub struct SignatureTable {
    sigs: Vec<Signature>,
}

/// The tags whose pattern matches somewhere in `text`.
pub open spec fn tags_in(text: Seq<char>) -> Set<Tag> {
    Set::new(|t: Tag| pattern_matches(tag_pattern(t), text))
}

/// The tags whose pattern matches somewhere in one of `texts`.
pub open spec fn tags_in_any(texts: Seq<Seq<char>>) -> Set<Tag> {
    Set::new(|t: Tag| exists|k: int| 0 <= k < texts.len() && pattern_matches(tag_pattern(t), #[trigger] texts[k]))
}

impl SignatureTable {
    /// Entry `k` holds the pattern of the `k`-th tag.
    pub closed spec fn wf(&self) -> bool {
        &&& self.sigs@.len() == TAG_COUNT
        &&& forall|k: int|
            0 <= k < TAG_COUNT ==> (#[trigger] self.sigs@[k]).tag == tag_at(k)
                && self.sigs@[k].pattern@ == tag_pattern(tag_at(k))
    }

    /// Compiles the pattern of every tag; nothing when one fails to compile.
    pub fn new() -> (r: Option<SignatureTable>)
        ensures
            r is Some <==> forall|k: int|
                0 <= k < TAG_COUNT ==> pattern_compiles(#[trigger] tag_pattern(tag_at(k))),
            r matches Some(t) ==> t.wf(),
    {
        let mut sigs: Vec<Signature> = Vec::new();
        let mut k: usize = 0;
        while k < TAG_COUNT
            invariant
                k <= TAG_COUNT,
                sigs@.len() == k,
                forall|j: int|
                    0 <= j < k ==> (#[trigger] sigs@[j]).tag == tag_at(j) && sigs@[j].pattern@
                        == tag_pattern(tag_at(j)),
                forall|j: int| 0 <= j < k ==> pattern_compiles(#[trigger] tag_pattern(tag_at(j))),
            decreases TAG_COUNT - k,
        {
            let t = Tag::at(k);
            match compile_signature(t, t.pattern()) {
                Some(s) => sigs.push(s),
                None => {
                    return None;
                },
            }
            k += 1;
        }
        Some(SignatureTable { sigs })
    }

    /// Adds to `params` every tag whose pattern matches somewhere in `text`.
    pub fn tag_text(&self, text: &str, params: &mut TagSet)
        requires
            self.wf(),
            old(params).wf(),
        ensures
            final(params).wf(),
            final(params)@ == old(params)@.union(tags_in(text@)),
    {
        let ghost before = params@;
        let mut k: usize = 0;
        while k < TAG_COUNT
            invariant
                self.wf(),
                k <= TAG_COUNT,
                params.wf(),
                params@ == before.union(
                    Set::new(
                        |t: Tag|
                            exists|j: int|
                                0 <= j < k && tag_at(j) == t && pattern_matches(
                                    tag_pattern(t),
                                    text@,
                                ),
                    ),
                ),
            decreases TAG_COUNT - k,
        {
            let ghost prev = params@;
            let sig = &self.sigs[k];
            assert(sig.tag == tag_at(k as int));
            if signature_matches(sig, text) {
                params.insert(sig.tag);
            }
            assert(params@ =~= before.union(
                Set::new(
                    |t: Tag|
                        exists|j: int|
                            0 <= j < k + 1 && tag_at(j) == t && pattern_matches(
                                tag_pattern(t),
                                text@,
                            ),
                ),
            ));
            k += 1;
        }
        assert forall|t: Tag| #[trigger] tags_in(text@).contains(t) implies exists|j: int|
            0 <= j < TAG_COUNT && tag_at(j) == t && pattern_matches(tag_pattern(t), text@) by {
            lemma_tag_in_table(t);
        }
        assert(params@ =~= before.union(tags_in(text@)));
    }

    /// The tagger: adds to `params` every tag whose pattern matches somewhere
    /// in one of the decompiled renderings.
    pub fn tag_renderings(&self, renderings: &Vec<String>, params: &mut TagSet)
        requires
            self.wf(),
            old(params).wf(),
        ensures
            final(params).wf(),
            final(params)@ == old(params)@.union(tags_in_any(views(renderings@))),
    {
        let ghost before = params@;
        let ghost texts = views(renderings@);
        let mut k: usize = 0;
        while k < renderings.len()
            invariant
                self.wf(),
                texts == views(renderings@),
                k <= renderings@.len(),
                params.wf(),
                params@ == before.union(tags_in_any(texts.subrange(0, k as int))),
            decreases renderings@.len() - k,
        {
            self.tag_text(renderings[k].as_str(), params);
            proof {
                let pre = texts.subrange(0, k as int);
                let next = texts.subrange(0, k + 1);
                assert(next =~= pre.push(texts[k as int]));
                assert forall|t: Tag| tags_in_any(next).contains(t) <==> (tags_in_any(pre).contains(t) || tags_in(texts[k as int]).contains(t)) by {
                    if tags_in_any(next).contains(t) {
                        let j = choose|j: int| 0 <= j < next.len() && pattern_matches(tag_pattern(t), #[trigger] next[j]);
                        if j < k {
                            assert(pre[j] == next[j]);
                        }
                    }
                    if tags_in_any(pre).contains(t) {
                        let j = choose|j: int| 0 <= j < pre.len() && pattern_matches(tag_pattern(t), #[trigger] pre[j]);
                        assert(next[j] == pre[j]);
                    }
                    if tags_in(texts[k as int]).contains(t) {
                        assert(next[k as int] == texts[k as int]);
                    }
                }
                assert(params@ =~= before.union(tags_in_any(next)));
            }
            k += 1;
        }
        assert(texts.subrange(0, k as int) =~= texts);
    }
}

/// Tagging never removes a tag: whatever was found before is still there
/// after more renderings are read.
pub proof fn lemma_tags_only_grow(before: Set<Tag>, renderings: Seq<Seq<char>>, t: Tag)
    requires
        before.contains(t),
    ensures
        before.union(tags_in_any(renderings)).contains(t),
{
}

/// The functions from which the entry point is reachable, in order:
/// `functions[k]` is kept when `reachable[k]` holds.
pub open spec fn kept_reachable(functions: Seq<Seq<char>>, reachable: Seq<bool>) -> Seq<Seq<char>>
    decreases functions.len(),
{
    if functions.len() == 0 {
        Seq::empty()
    } else {
        let prev = kept_reachable(functions.drop_last(), reachable);
        if reachable[functions.len() - 1] {
            prev.push(functions.last())
        } else {
            prev
        }
    }
}

/// The call-reachability filter.
pub fn retain_reachable(functions: &Vec<String>, reachable: &Vec<bool>) -> (r: Vec<String>)
    requires
        functions@.len() == reachable@.len(),
    ensures
        views(r@) == kept_reachable(views(functions@), reachable@),
{
    let ghost fs = views(functions@);
    let mut r: Vec<String> = Vec::new();
    let mut k: usize = 0;
    while k < functions.len()
        invariant
            fs == views(functions@),
            functions@.len() == reachable@.len(),
            k <= functions@.len(),
            views(r@) == kept_reachable(fs.subrange(0, k as int), reachable@),
        decreases functions@.len() - k,
    {
        let ghost r0 = r@;
        let ghost next = fs.subrange(0, k + 1);
        assert(next.drop_last() =~= fs.subrange(0, k as int));
        if reachable[k] {
            r.push(functions[k].clone());
            assert(views(r@) =~= views(r0).push(fs[k as int]));
        }
        k += 1;
    }
    assert(fs.subrange(0, k as int) =~= fs);
    r
}

} // verus!
