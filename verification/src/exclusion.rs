//! Programs that are never classified.

use aho_corasick::{AhoCorasick, AhoCorasickBuilder};

use vstd::prelude::*;

use crate::defaults;
use crate::storage::ImageName;
use crate::text;

verus! {

/// An automaton that looks for several patterns at once.
#[verifier::external_type_specification]
#[verifier::external_body]
pub struct ExAhoCorasick(AhoCorasick);

/// The patterns that an automaton looks for.
pub uninterp spec fn matcher_patterns(matcher: AhoCorasick) -> Seq<Seq<char>>;

/// One of the patterns stands in `haystack` from `start` to `end`, without regard to the case of
/// ASCII letters.
pub open spec fn occurs_between(
    patterns: Seq<Seq<char>>,
    haystack: Seq<char>,
    start: int,
    end: int,
) -> bool {
    &&& 0 <= start <= end <= haystack.len()
    &&& exists|k: int|
        0 <= k < patterns.len() && text::same_ignoring_case(
            haystack.subrange(start, end),
            #[trigger] patterns[k],
        )
}

/// The occurrence that ends first and, of those, the one that starts first.
pub open spec fn is_earliest(
    patterns: Seq<Seq<char>>,
    haystack: Seq<char>,
    start: int,
    end: int,
) -> bool {
    &&& occurs_between(patterns, haystack, start, end)
    &&& forall|other_start: int, other_end: int| #[trigger]
        occurs_between(patterns, haystack, other_start, other_end) ==> end < other_end || (end
            == other_end && start <= other_start)
}

/// The patterns are so few and so short that an automaton for them always fits.
pub open spec fn are_few_and_short(patterns: Seq<Seq<char>>) -> bool {
    patterns.len() <= 64 && forall|k: int|
        0 <= k < patterns.len() ==> (#[trigger] patterns[k]).len() <= 64
}

/// `AhoCorasickBuilder::build` with `ascii_case_insensitive` and the standard match kind: an
/// automaton for the given patterns, or none where they do not fit in one. Building fails only
/// where the states, the transitions, the matches kept at the states, the patterns or the bytes of
/// a pattern outnumber the identifiers of 31 bits; a few short patterns are far from that.
#[verifier::external_body]
pub(crate) fn build_matcher(patterns: &Vec<&'static str>) -> (matcher: Option<AhoCorasick>)
    ensures
        matcher matches Some(matcher) ==> matcher_patterns(matcher) == defaults::slices(patterns@),
        are_few_and_short(defaults::slices(patterns@)) ==> matcher is Some,
{
    AhoCorasickBuilder::new().ascii_case_insensitive(true).build(patterns).ok()
}

/// `AhoCorasick::find` on an automaton of [`build_matcher`]: the byte at which the occurrence
/// that ends first starts, where several end there the longest, or none where no pattern occurs.
/// Of the byte it is only claimed whether it is the first of the text.
#[verifier::external_body]
pub(crate) fn find_first(matcher: &AhoCorasick, haystack: &str) -> (found: Option<usize>)
    ensures
        match found {
            Some(byte) => exists|start: int, end: int| #[trigger]
                is_earliest(matcher_patterns(*matcher), haystack@, start, end) && (byte == 0 <==> start
                    == 0),
            None => forall|start: int, end: int|
                !#[trigger] occurs_between(
                    matcher_patterns(*matcher),
                    haystack@,
                    start,
                    end,
                ),
        },
{
    matcher.find(haystack).map(|found| found.start())
}

/// The names, or beginnings of names, of programs that are never classified.
pub open spec fn excluded_prefixes() -> Seq<Seq<char>> {
    seq![
        "explorer.exe"@,
        "svchost.exe"@,
        "powershell.exe"@,
        "cmd.exe"@,
        "dllhost.exe"@,
        "WUDFHost.exe"@,
        "WUDFCompanionHost.exe"@,
        "WorkloadsSessionManager.exe"@,
        "WorkloadsSessionHost.exe"@,
        "winlogon.exe"@,
        "wininit.exe"@,
        "OpenConsole.exe"@,
        "Notepad.exe"@,
        "services.exe"@,
        "smss.exe"@,
        "sihost.exe"@,
        "SecurityHealthService.exe"@,
        "RuntimeBroker.exe"@,
        "NgcIso.exe"@,
        "MsMpEng.exe"@,
        "MpDefenderCoreService.exe"@,
        "ekrn.exe"@,
        "LockApp.exe"@,
        "WindowsTerminal.exe"@,
        "pwsh.exe"@,
        "ssh-agent.exe"@,
        "csrss.exe"@,
        "lsass.exe"@,
        "Lsalso.exe"@,
        "dwm.exe"@,
        "conhost.exe"@,
        "dasHost.exe"@,
        "AggregatorHost.exe"@,
        "backgroundTaskHost.exe"@,
        "wslservice.exe"@,
        "wslhost.exe"@,
        "wsl.exe"@,
        "vmwp.exe"@,
        "vmcompute.exe"@,
        "vmmem"@,
        "vmmemWSL"@,
        "TiWorker.exe"@,
    ]
}

fn excluded_names() -> (names: Vec<&'static str>)
    ensures
        defaults::slices(names@) == excluded_prefixes(),
{
    let names = vec![
        "explorer.exe",
        "svchost.exe",
        "powershell.exe",
        "cmd.exe",
        "dllhost.exe",
        "WUDFHost.exe",
        "WUDFCompanionHost.exe",
        "WorkloadsSessionManager.exe",
        "WorkloadsSessionHost.exe",
        "winlogon.exe",
        "wininit.exe",
        "OpenConsole.exe",
        "Notepad.exe",
        "services.exe",
        "smss.exe",
        "sihost.exe",
        "SecurityHealthService.exe",
        "RuntimeBroker.exe",
        "NgcIso.exe",
        "MsMpEng.exe",
        "MpDefenderCoreService.exe",
        "ekrn.exe",
        "LockApp.exe",
        "WindowsTerminal.exe",
        "pwsh.exe",
        "ssh-agent.exe",
        "csrss.exe",
        "lsass.exe",
        "Lsalso.exe",
        "dwm.exe",
        "conhost.exe",
        "dasHost.exe",
        "AggregatorHost.exe",
        "backgroundTaskHost.exe",
        "wslservice.exe",
        "wslhost.exe",
        "wsl.exe",
        "vmwp.exe",
        "vmcompute.exe",
        "vmmem",
        "vmmemWSL",
        "TiWorker.exe",
    ];
    assert(defaults::slices(names@) =~= excluded_prefixes());
    names
}

/// The name begins with one of the excluded names, whatever the case.
pub open spec fn is_excluded(name: Seq<char>) -> bool {
    exists|end: int| #[trigger] occurs_between(excluded_prefixes(), name, 0, end)
}

/// Tells whether an occurrence that starts at the byte `found` excludes a program: one at the
/// start of the name does.
pub fn match_excludes(found: Option<usize>) -> (excluded: bool)
    ensures
        excluded == (found == Some(0usize)),
{
    match found {
        Some(byte) => byte == 0,
        None => false,
    }
}

proof fn lemma_earliest_is_unique(patterns: Seq<Seq<char>>, haystack: Seq<char>)
    ensures
        forall|a: int, b: int, c: int, d: int| #[trigger]
            is_earliest(patterns, haystack, a, b) && #[trigger] is_earliest(
                patterns,
                haystack,
                c,
                d,
            ) ==> a == c && b == d,
{
}

/// The name has one dot, which four characters behind it follow to the end.
spec fn ends_dotted(name: Seq<char>) -> bool {
    &&& name.len() >= 4
    &&& name[name.len() - 4] == '.'
    &&& forall|i: int| 0 <= i < name.len() && #[trigger] name[i] == '.' ==> i == name.len() - 4
}

/// The name has no dot, and begins with the letters `vm`.
spec fn begins_vm(name: Seq<char>) -> bool {
    &&& name.len() >= 2
    &&& name[0] == 'v'
    &&& name[1] == 'm'
    &&& forall|i: int| 0 <= i < name.len() ==> #[trigger] name[i] != '.'
}

/// The letters `vm` stand in the name from `i` on.
spec fn has_vm_at(name: Seq<char>, i: int) -> bool {
    text::ascii_lower(name[i]) == 'v' && text::ascii_lower(name[i + 1]) == 'm'
}

/// No name of this form stands inside another one.
spec fn stands_alone(name: Seq<char>) -> bool {
    &&& ends_dotted(name) || begins_vm(name)
    &&& forall|i: int| 0 < i < name.len() - 1 ==> !#[trigger] has_vm_at(name, i)
}

proof fn lemma_excluded_names_stand_alone()
    ensures
        forall|k: int|
            0 <= k < excluded_prefixes().len() ==> stands_alone(#[trigger] excluded_prefixes()[k]),
{
    assert(stands_alone("explorer.exe"@)) by {
        reveal_strlit("explorer.exe");
    }
    assert(stands_alone("svchost.exe"@)) by {
        reveal_strlit("svchost.exe");
    }
    assert(stands_alone("powershell.exe"@)) by {
        reveal_strlit("powershell.exe");
    }
    assert(stands_alone("cmd.exe"@)) by {
        reveal_strlit("cmd.exe");
    }
    assert(stands_alone("dllhost.exe"@)) by {
        reveal_strlit("dllhost.exe");
    }
    assert(stands_alone("WUDFHost.exe"@)) by {
        reveal_strlit("WUDFHost.exe");
    }
    assert(stands_alone("WUDFCompanionHost.exe"@)) by {
        reveal_strlit("WUDFCompanionHost.exe");
    }
    assert(stands_alone("WorkloadsSessionManager.exe"@)) by {
        reveal_strlit("WorkloadsSessionManager.exe");
    }
    assert(stands_alone("WorkloadsSessionHost.exe"@)) by {
        reveal_strlit("WorkloadsSessionHost.exe");
    }
    assert(stands_alone("winlogon.exe"@)) by {
        reveal_strlit("winlogon.exe");
    }
    assert(stands_alone("wininit.exe"@)) by {
        reveal_strlit("wininit.exe");
    }
    assert(stands_alone("OpenConsole.exe"@)) by {
        reveal_strlit("OpenConsole.exe");
    }
    assert(stands_alone("Notepad.exe"@)) by {
        reveal_strlit("Notepad.exe");
    }
    assert(stands_alone("services.exe"@)) by {
        reveal_strlit("services.exe");
    }
    assert(stands_alone("smss.exe"@)) by {
        reveal_strlit("smss.exe");
    }
    assert(stands_alone("sihost.exe"@)) by {
        reveal_strlit("sihost.exe");
    }
    assert(stands_alone("SecurityHealthService.exe"@)) by {
        reveal_strlit("SecurityHealthService.exe");
    }
    assert(stands_alone("RuntimeBroker.exe"@)) by {
        reveal_strlit("RuntimeBroker.exe");
    }
    assert(stands_alone("NgcIso.exe"@)) by {
        reveal_strlit("NgcIso.exe");
    }
    assert(stands_alone("MsMpEng.exe"@)) by {
        reveal_strlit("MsMpEng.exe");
    }
    assert(stands_alone("MpDefenderCoreService.exe"@)) by {
        reveal_strlit("MpDefenderCoreService.exe");
    }
    assert(stands_alone("ekrn.exe"@)) by {
        reveal_strlit("ekrn.exe");
    }
    assert(stands_alone("LockApp.exe"@)) by {
        reveal_strlit("LockApp.exe");
    }
    assert(stands_alone("WindowsTerminal.exe"@)) by {
        reveal_strlit("WindowsTerminal.exe");
    }
    assert(stands_alone("pwsh.exe"@)) by {
        reveal_strlit("pwsh.exe");
    }
    assert(stands_alone("ssh-agent.exe"@)) by {
        reveal_strlit("ssh-agent.exe");
    }
    assert(stands_alone("csrss.exe"@)) by {
        reveal_strlit("csrss.exe");
    }
    assert(stands_alone("lsass.exe"@)) by {
        reveal_strlit("lsass.exe");
    }
    assert(stands_alone("Lsalso.exe"@)) by {
        reveal_strlit("Lsalso.exe");
    }
    assert(stands_alone("dwm.exe"@)) by {
        reveal_strlit("dwm.exe");
    }
    assert(stands_alone("conhost.exe"@)) by {
        reveal_strlit("conhost.exe");
    }
    assert(stands_alone("dasHost.exe"@)) by {
        reveal_strlit("dasHost.exe");
    }
    assert(stands_alone("AggregatorHost.exe"@)) by {
        reveal_strlit("AggregatorHost.exe");
    }
    assert(stands_alone("backgroundTaskHost.exe"@)) by {
        reveal_strlit("backgroundTaskHost.exe");
    }
    assert(stands_alone("wslservice.exe"@)) by {
        reveal_strlit("wslservice.exe");
    }
    assert(stands_alone("wslhost.exe"@)) by {
        reveal_strlit("wslhost.exe");
    }
    assert(stands_alone("wsl.exe"@)) by {
        reveal_strlit("wsl.exe");
    }
    assert(stands_alone("vmwp.exe"@)) by {
        reveal_strlit("vmwp.exe");
    }
    assert(stands_alone("vmcompute.exe"@)) by {
        reveal_strlit("vmcompute.exe");
    }
    assert(stands_alone("vmmem"@)) by {
        reveal_strlit("vmmem");
    }
    assert(stands_alone("vmmemWSL"@)) by {
        reveal_strlit("vmmemWSL");
    }
    assert(stands_alone("TiWorker.exe"@)) by {
        reveal_strlit("TiWorker.exe");
    }
}

/// An excluded name does not end inside another one that begins before it.
proof fn lemma_no_name_inside(name: Seq<char>, k: int, end: int, inner: int, from: int, to: int)
    requires
        0 <= k < excluded_prefixes().len(),
        0 <= inner < excluded_prefixes().len(),
        0 < from <= to <= name.len(),
        0 <= end <= name.len(),
        text::same_ignoring_case(name.subrange(0, end), excluded_prefixes()[k]),
        text::same_ignoring_case(name.subrange(from, to), excluded_prefixes()[inner]),
    ensures
        end <= to,
{
    lemma_excluded_names_stand_alone();
    let outer = excluded_prefixes()[k];
    let part = excluded_prefixes()[inner];
    assert(stands_alone(outer) && stands_alone(part));
    if to < end {
        assert(text::lowered(name.subrange(0, end)).len() == end);
        assert(text::lowered(name.subrange(from, to)).len() == to - from);
        assert forall|i: int| from <= i < to implies text::ascii_lower(#[trigger] outer[i])
            == text::ascii_lower(part[i - from]) by {
            assert(text::lowered(name.subrange(0, end))[i] == text::ascii_lower(name[i]));
            assert(text::lowered(name.subrange(from, to))[i - from] == text::ascii_lower(name[i]));
            assert(text::lowered(outer)[i] == text::ascii_lower(outer[i]));
            assert(text::lowered(part)[i - from] == text::ascii_lower(part[i - from]));
        }
        if ends_dotted(part) {
            assert(part[part.len() - 4] == '.');
            assert(outer[to - 4] == '.');
        } else {
            assert(has_vm_at(outer, from));
        }
    }
}

/// The case of its letters does not decide whether a program is excluded.
pub proof fn law_case_does_not_exclude(name: Seq<char>, other: Seq<char>)
    requires
        text::same_ignoring_case(name, other),
    ensures
        is_excluded(name) == is_excluded(other),
{
    if is_excluded(name) {
        lemma_excluded_alike(name, other);
    }
    if is_excluded(other) {
        lemma_excluded_alike(other, name);
    }
}

proof fn lemma_excluded_alike(name: Seq<char>, other: Seq<char>)
    requires
        text::same_ignoring_case(name, other),
        is_excluded(name),
    ensures
        is_excluded(other),
{
    let end = choose|end: int| #[trigger] occurs_between(excluded_prefixes(), name, 0, end);
    assert(text::lowered(name).len() == text::lowered(other).len());
    assert(text::lowered(name.subrange(0, end)) =~= text::lowered(name).subrange(0, end));
    assert(text::lowered(other.subrange(0, end)) =~= text::lowered(other).subrange(0, end));
    let k = choose|k: int|
        0 <= k < excluded_prefixes().len() && text::same_ignoring_case(
            name.subrange(0, end),
            #[trigger] excluded_prefixes()[k],
        );
    assert(text::same_ignoring_case(other.subrange(0, end), excluded_prefixes()[k]));
    assert(occurs_between(excluded_prefixes(), other, 0, end));
}

/// Of the excluded names that begin `name`, one is found first.
proof fn lemma_beginning_is_found_first(name: Seq<char>, end: int)
    requires
        occurs_between(excluded_prefixes(), name, 0, end),
    ensures
        exists|first: int| #[trigger] is_earliest(excluded_prefixes(), name, 0, first),
    decreases end,
{
    if exists|shorter: int|
        shorter < end && #[trigger] occurs_between(excluded_prefixes(), name, 0, shorter) {
        let shorter = choose|shorter: int|
            shorter < end && #[trigger] occurs_between(excluded_prefixes(), name, 0, shorter);
        lemma_beginning_is_found_first(name, shorter);
    } else {
        assert forall|from: int, to: int| #[trigger]
            occurs_between(excluded_prefixes(), name, from, to) implies end < to || (end == to && 0
            <= from) by {
            if to < end {
                assert(from > 0);
                let k = choose|k: int|
                    0 <= k < excluded_prefixes().len() && text::same_ignoring_case(
                        name.subrange(0, end),
                        #[trigger] excluded_prefixes()[k],
                    );
                let inner = choose|k: int|
                    0 <= k < excluded_prefixes().len() && text::same_ignoring_case(
                        name.subrange(from, to),
                        #[trigger] excluded_prefixes()[k],
                    );
                lemma_no_name_inside(name, k, end, inner, from, to);
            }
        }
        assert(is_earliest(excluded_prefixes(), name, 0, end));
    }
}

proof fn lemma_excluded_names_are_short()
    ensures
        are_few_and_short(excluded_prefixes()),
{
    reveal_strlit("explorer.exe");
    reveal_strlit("svchost.exe");
    reveal_strlit("powershell.exe");
    reveal_strlit("cmd.exe");
    reveal_strlit("dllhost.exe");
    reveal_strlit("WUDFHost.exe");
    reveal_strlit("WUDFCompanionHost.exe");
    reveal_strlit("WorkloadsSessionManager.exe");
    reveal_strlit("WorkloadsSessionHost.exe");
    reveal_strlit("winlogon.exe");
    reveal_strlit("wininit.exe");
    reveal_strlit("OpenConsole.exe");
    reveal_strlit("Notepad.exe");
    reveal_strlit("services.exe");
    reveal_strlit("smss.exe");
    reveal_strlit("sihost.exe");
    reveal_strlit("SecurityHealthService.exe");
    reveal_strlit("RuntimeBroker.exe");
    reveal_strlit("NgcIso.exe");
    reveal_strlit("MsMpEng.exe");
    reveal_strlit("MpDefenderCoreService.exe");
    reveal_strlit("ekrn.exe");
    reveal_strlit("LockApp.exe");
    reveal_strlit("WindowsTerminal.exe");
    reveal_strlit("pwsh.exe");
    reveal_strlit("ssh-agent.exe");
    reveal_strlit("csrss.exe");
    reveal_strlit("lsass.exe");
    reveal_strlit("Lsalso.exe");
    reveal_strlit("dwm.exe");
    reveal_strlit("conhost.exe");
    reveal_strlit("dasHost.exe");
    reveal_strlit("AggregatorHost.exe");
    reveal_strlit("backgroundTaskHost.exe");
    reveal_strlit("wslservice.exe");
    reveal_strlit("wslhost.exe");
    reveal_strlit("wsl.exe");
    reveal_strlit("vmwp.exe");
    reveal_strlit("vmcompute.exe");
    reveal_strlit("vmmem");
    reveal_strlit("vmmemWSL");
    reveal_strlit("TiWorker.exe");
}

/// Looks for excluded names.
pub struct ExclusionList {
    matcher: Option<AhoCorasick>,
}

impl ExclusionList {
    #[verifier::type_invariant]
    spec fn wf(&self) -> bool {
        self.matcher matches Some(matcher) ==> matcher_patterns(matcher) == excluded_prefixes()
    }

    /// The automaton could be built.
    pub closed spec fn is_ready(&self) -> bool {
        self.matcher is Some
    }

    /// The list of the excluded names, which is ready.
    pub fn new() -> (list: Self)
        ensures
            list.is_ready(),
    {
        let names = excluded_names();
        proof {
            lemma_excluded_names_are_short();
        }
        ExclusionList { matcher: build_matcher(&names) }
    }

    /// Tells whether the program is excluded. Without an automaton none is.
    pub fn is_excluded_image_name(&self, image_name: &ImageName) -> (excluded: bool)
        ensures
            excluded == (self.is_ready() && is_excluded(image_name@)),
    {
        proof {
            use_type_invariant(self);
        }
        match &self.matcher {
            Some(matcher) => {
                let name = image_name.as_string();
                let found = find_first(matcher, name.as_str());
                proof {
                    lemma_earliest_is_unique(excluded_prefixes(), name@);
                    if is_excluded(name@) {
                        let end = choose|end: int| #[trigger]
                            occurs_between(excluded_prefixes(), name@, 0, end);
                        lemma_beginning_is_found_first(name@, end);
                    }
                }
                match_excludes(found)
            },
            None => false,
        }
    }
}

} // verus!
