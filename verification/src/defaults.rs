//! Programs whose policy is known beforehand.

use vstd::prelude::*;

use crate::affinity;
use crate::affinity::{AffinityExpression, AffinityTerm};
use crate::confidence::Confidence;
use crate::identity;
use crate::process::{ProcessMode, ProcessRule};
use crate::storage;
use crate::storage::{
    ApplicationDecisionStore, ApplicationIdentity, ImageName, StorageError, StoredProcessDecision,
};
use crate::text;

verus! {

/// A process that was seen.
#[derive(Debug, Eq, PartialEq)]
pub struct ObservedProcess {
    pub process_id: u32,
    pub creation_time: u64,
    pub image_name: ImageName,
    pub image_path: String,
    pub observed_unix_seconds: i64,
}

impl View for ObservedProcess {
    type V = (u32, u64, Seq<char>, Seq<char>, i64);

    open spec fn view(&self) -> (u32, u64, Seq<char>, Seq<char>, i64) {
        (
            self.process_id,
            self.creation_time,
            self.image_name@,
            self.image_path@,
            self.observed_unix_seconds,
        )
    }
}

impl Clone for ObservedProcess {
    fn clone(&self) -> (copied: Self)
        ensures
            copied@ == self@,
    {
        ObservedProcess {
            process_id: self.process_id,
            creation_time: self.creation_time,
            image_name: self.image_name.clone(),
            image_path: self.image_path.clone(),
            observed_unix_seconds: self.observed_unix_seconds,
        }
    }
}

impl ObservedProcess {
    /// A process with a name that is not too long.
    pub fn new(
        process_id: u32,
        creation_time: u64,
        image_name: &str,
        image_path: &str,
        observed_unix_seconds: i64,
    ) -> (observed: Self)
        requires
            identity::lowercase_name(image_name@).len() <= storage::MAX_IMAGE_NAME_CHARS,
        ensures
            observed.process_id == process_id,
            observed.creation_time == creation_time,
            observed.image_name@ == identity::lowercase_name(image_name@),
            identity::is_ascii_text(image_name@) ==> observed.image_name@ == text::lowered(
                image_name@,
            ),
            observed.image_path@ == image_path@,
            observed.observed_unix_seconds == observed_unix_seconds,
    {
        match ImageName::from_os_str(image_name) {
            Ok(image_name) => ObservedProcess {
                process_id,
                creation_time,
                image_name,
                image_path: image_path.to_owned(),
                observed_unix_seconds,
            },
            Err(_) => vstd::pervasive::unreached(),
        }
    }

    pub fn try_new(
        process_id: u32,
        creation_time: u64,
        image_name: &str,
        image_path: &str,
        observed_unix_seconds: i64,
    ) -> (observed: Result<Self, StorageError>)
        ensures
            match observed {
                Ok(observed) => {
                    &&& identity::lowercase_name(image_name@).len() <= storage::MAX_IMAGE_NAME_CHARS
                    &&& observed.process_id == process_id
                    &&& observed.creation_time == creation_time
                    &&& observed.image_name@ == identity::lowercase_name(image_name@)
                    &&& observed.image_path@ == image_path@
                    &&& observed.observed_unix_seconds == observed_unix_seconds
                },
                Err(error) => error == StorageError::ImageNameTooLong && identity::lowercase_name(
                    image_name@,
                ).len() > storage::MAX_IMAGE_NAME_CHARS,
            },
            identity::is_ascii_text(image_name@) ==> (observed is Ok <==> image_name@.len()
                <= storage::MAX_IMAGE_NAME_CHARS),
            identity::is_ascii_text(image_name@) ==> (observed matches Ok(observed)
                ==> observed.image_name@ == text::lowered(image_name@)),
    {
        match ImageName::from_os_str(image_name) {
            Ok(_) => Ok(
                ObservedProcess::new(
                    process_id,
                    creation_time,
                    image_name,
                    image_path,
                    observed_unix_seconds,
                ),
            ),
            Err(error) => Err(error),
        }
    }

    pub fn normalized_image_name(&self) -> (name: ImageName)
        ensures
            name@ == self.image_name@,
    {
        self.image_name.clone()
    }
}

/// Programs that run in the background and need little: efficiency mode on the low-power
/// processors.
pub open spec fn low_power_images() -> Seq<Seq<char>> {
    seq![
        "shtctky.exe"@,
        "LITSSvc.exe"@,
        "backgroundTaskHost.exe"@,
        "crashpad_handler.exe"@,
        "PhoneExperienceHost.exe"@,
        "TabTip.exe"@,
        "SpotifyWidgetProvider.exe"@,
        "ElafibsSSPSystemDaemon.exe"@,
        "SmartSense.exe"@,
        "LenovoVantage-(ThinkSpectrumAddin).exe"@,
        "UserSSCtrl.exe"@,
        "WMIRegistrationHost.exe"@,
        "WmiPrvSE.exe"@,
        "wlanext.exe"@,
        "CrossDeviceResume.exe"@,
        "PowerMgr.exe"@,
        "MicrosoftEdgeUpdate.exe"@,
        "IntelProviderDataHelperService.exe"@,
        "WidgetBoard.exe"@,
        "WidgetService.exe"@,
        "MicrosoftStartFeedProvider.exe"@,
        "IntelAnalyticsService.exe"@,
        "TapToXService.exe"@,
        "ElabsTapPlatformService.exe"@,
        "PresentMonService.exe"@,
        "LenovoVantage-(GenericMessagingAddin).exe"@,
        "LenovoVantageService.exe"@,
        "intel_cst_service_standalone.exe"@,
        "ssh-agent.exe"@,
        "SearchHost.exe"@,
        "SearchIndexer.exe"@,
        "localsend_app.exe"@,
        "SpotifyLauncher.exe"@,
        "IntelGraphicsSoftware.Service.exe"@,
        "tposd.exe"@,
    ]
}

/// Programs that run in efficiency mode on all efficient processors.
pub open spec fn efficient_images() -> Seq<Seq<char>> {
    seq![
        "DAX3API.exe"@,
        "ElevocControlService.exe"@,
        "IntelAudioService.exe"@,
        "git.exe"@,
        "ClickToDo.exe"@,
        "msedge.exe"@,
        "Discord.exe"@,
    ]
}

/// One of `names` is `name`, which is in lower case.
pub open spec fn is_listed(names: Seq<Seq<char>>, name: Seq<char>) -> bool {
    exists|i: int| 0 <= i < names.len() && name == text::lowered(#[trigger] names[i])
}

/// What is known beforehand of the program `name`.
pub open spec fn known_policy(name: Seq<char>) -> Option<(ProcessMode, Seq<AffinityTerm>)> {
    if is_listed(low_power_images(), name) {
        Some((ProcessMode::Efficiency, seq![AffinityTerm::LowPowerEfficiency]))
    } else if is_listed(efficient_images(), name) {
        Some(
            (
                ProcessMode::Efficiency,
                seq![AffinityTerm::Efficiency, AffinityTerm::LowPowerEfficiency],
            ),
        )
    } else if name == text::lowered("Spotify.exe"@) {
        Some((ProcessMode::Normal, seq![AffinityTerm::Efficiency]))
    } else {
        None
    }
}

/// The views of string slices.
pub open spec fn slices(names: Seq<&'static str>) -> Seq<Seq<char>> {
    names.map_values(|name: &'static str| name@)
}

fn low_power_names() -> (names: Vec<&'static str>)
    ensures
        slices(names@) == low_power_images(),
{
    let names = vec![
        "shtctky.exe",
        "LITSSvc.exe",
        "backgroundTaskHost.exe",
        "crashpad_handler.exe",
        "PhoneExperienceHost.exe",
        "TabTip.exe",
        "SpotifyWidgetProvider.exe",
        "ElafibsSSPSystemDaemon.exe",
        "SmartSense.exe",
        "LenovoVantage-(ThinkSpectrumAddin).exe",
        "UserSSCtrl.exe",
        "WMIRegistrationHost.exe",
        "WmiPrvSE.exe",
        "wlanext.exe",
        "CrossDeviceResume.exe",
        "PowerMgr.exe",
        "MicrosoftEdgeUpdate.exe",
        "IntelProviderDataHelperService.exe",
        "WidgetBoard.exe",
        "WidgetService.exe",
        "MicrosoftStartFeedProvider.exe",
        "IntelAnalyticsService.exe",
        "TapToXService.exe",
        "ElabsTapPlatformService.exe",
        "PresentMonService.exe",
        "LenovoVantage-(GenericMessagingAddin).exe",
        "LenovoVantageService.exe",
        "intel_cst_service_standalone.exe",
        "ssh-agent.exe",
        "SearchHost.exe",
        "SearchIndexer.exe",
        "localsend_app.exe",
        "SpotifyLauncher.exe",
        "IntelGraphicsSoftware.Service.exe",
        "tposd.exe",
    ];
    assert(slices(names@) =~= low_power_images());
    names
}

fn efficient_names() -> (names: Vec<&'static str>)
    ensures
        slices(names@) == efficient_images(),
{
    let names = vec![
        "DAX3API.exe",
        "ElevocControlService.exe",
        "IntelAudioService.exe",
        "git.exe",
        "ClickToDo.exe",
        "msedge.exe",
        "Discord.exe",
    ];
    assert(slices(names@) =~= efficient_images());
    names
}

fn lists(names: &Vec<&'static str>, name: &ImageName) -> (listed: bool)
    ensures
        listed == is_listed(slices(names@), name@),
{
    let ghost all = slices(names@);
    let mut i: usize = 0;
    while i < names.len()
        invariant
            i <= names@.len(),
            all == slices(names@),
            forall|j: int| 0 <= j < i ==> name@ != text::lowered(#[trigger] all[j]),
        decreases names@.len() - i,
    {
        assert(all[i as int] == names@[i as int]@);
        if name.eq_ignore_ascii_case_str(names[i]) {
            return true;
        }
        i = i + 1;
    }
    false
}

/// A policy that is known beforehand.
#[derive(Clone, Copy, Debug, Eq, PartialEq)]
pub struct StaticPolicy {
    pub mode: ProcessMode,
    pub affinity: &'static str,
}

/// What is known beforehand of the program `name`.
pub fn static_policy(name: &ImageName) -> (policy: Option<StaticPolicy>)
    ensures
        match policy {
            Some(policy) => known_policy(name@) matches Some((mode, terms)) && policy.mode == mode
                && policy.affinity@ == affinity::source_of(terms),
            None => known_policy(name@) is None,
        },
{
    proof {
        lemma_sources();
    }
    if lists(&low_power_names(), name) {
        return Some(StaticPolicy { mode: ProcessMode::Efficiency, affinity: "LPE" });
    }
    if lists(&efficient_names(), name) {
        return Some(StaticPolicy { mode: ProcessMode::Efficiency, affinity: "E+LPE" });
    }
    if name.eq_ignore_ascii_case_str("Spotify.exe") {
        return Some(StaticPolicy { mode: ProcessMode::Normal, affinity: "E" });
    }
    None
}

proof fn lemma_sources()
    ensures
        "LPE"@ == affinity::source_of(seq![AffinityTerm::LowPowerEfficiency]),
        "E"@ == affinity::source_of(seq![AffinityTerm::Efficiency]),
        "E+LPE"@ == affinity::source_of(
            seq![AffinityTerm::Efficiency, AffinityTerm::LowPowerEfficiency],
        ),
{
    reveal_strlit("LPE");
    reveal_strlit("E");
    reveal_strlit("E+LPE");
    let names = seq![AffinityTerm::Efficiency, AffinityTerm::LowPowerEfficiency].map_values(
        |term: AffinityTerm| affinity::term_name(term),
    );
    assert(names.drop_last() =~= seq!["E"@]);
    assert(names.last() == "LPE"@);
    assert(text::joined(seq!["E"@], '+') == "E"@);
    assert("E+LPE"@ =~= "E"@ + seq!['+'] + "LPE"@);
}

/// What is decided for a program of which a policy is known beforehand.
#[derive(Debug, Eq, PartialEq)]
pub struct BuiltinDecision {
    pub decision: StoredProcessDecision,
    pub rule: ProcessRule,
}

/// `builtin` is what the policy says of the process.
pub open spec fn is_builtin(
    builtin: BuiltinDecision,
    observed: ObservedProcess,
    threshold: Confidence,
    mode: ProcessMode,
    terms: Seq<AffinityTerm>,
) -> bool {
    &&& builtin.decision.identity.image@ == observed.image_name@
    &&& builtin.decision.identity.image_path matches Some(path) && path@ == observed.image_path@
    &&& builtin.decision.decision.0 == storage::encoded(mode, terms)
    &&& builtin.decision.confidence == threshold
    &&& storage::is_decided_rule(builtin.rule, builtin.decision)
    &&& builtin.rule.mode == mode
}

/// `builtin` is what is known beforehand of the process.
pub open spec fn is_known(
    builtin: BuiltinDecision,
    observed: ObservedProcess,
    threshold: Confidence,
) -> bool {
    known_policy(observed.image_name@) matches Some((mode, terms)) && is_builtin(
        builtin,
        observed,
        threshold,
        mode,
        terms,
    )
}

/// The decision that is known beforehand for a process. It is as sure as `threshold`, which must
/// be finite.
pub fn builtin_decision(observed: &ObservedProcess, threshold: Confidence) -> (builtin: Option<
    BuiltinDecision,
>)
    ensures
        match builtin {
            Some(builtin) => threshold.finite() && is_known(builtin, *observed, threshold),
            None => !threshold.finite() || known_policy(observed.image_name@) is None,
        },
{
    let policy = match static_policy(&observed.image_name) {
        Some(policy) => policy,
        None => {
            return None;
        },
    };
    proof {
        let known = known_policy(observed.image_name@)->0;
        affinity::law_written_terms_read_back(known.1);
        storage::law_encoding_reads_back(known.0, known.1);
    }
    let expression = match AffinityExpression::parse(policy.affinity.to_owned()) {
        Ok(expression) => expression,
        Err(_) => {
            return None;
        },
    };
    let identity = ApplicationIdentity::from_image_name(
        observed.image_name.clone(),
        observed.image_path.as_str(),
    );
    let decision = match StoredProcessDecision::new(
        identity,
        policy.mode,
        Some(expression),
        threshold,
    ) {
        Ok(decision) => decision,
        Err(_) => {
            return None;
        },
    };
    match decision.to_process_rule() {
        Ok(rule) => Some(BuiltinDecision { decision, rule }),
        Err(_) => None,
    }
}

/// The rule that is known beforehand for a process. The decision behind it is handed to the store,
/// and the rule holds whether or not the store takes it.
pub fn apply_builtin_static_policy<S: ApplicationDecisionStore>(
    decision_store: &S,
    observed: &ObservedProcess,
    threshold: Confidence,
) -> (rule: Option<ProcessRule>)
    ensures
        match rule {
            Some(rule) => threshold.finite() && exists|builtin: BuiltinDecision|
                builtin.rule == rule && #[trigger] is_known(builtin, *observed, threshold)
                    && storage::was_handed(decision_store, builtin.decision),
            None => !threshold.finite() || known_policy(observed.image_name@) is None,
        },
{
    match builtin_decision(observed, threshold) {
        Some(builtin) => {
            let ghost whole = builtin;
            let stored = decision_store.upsert_decision(builtin.decision);
            assert(is_known(whole, *observed, threshold));
            Some(builtin.rule)
        },
        None => None,
    }
}

} // verus!
