//! Decisions about applications, as they are stored and cached.

use vstd::prelude::*;

use crate::affinity;
use crate::affinity::{AffinityExpression, AffinityPolicy, AffinityTerm};
use crate::confidence::Confidence;
use crate::identity;
use crate::process::{ProcessMode, ProcessRule};
use crate::text;

verus! {

pub const MAX_IMAGE_NAME_CHARS: usize = 260;

pub const DECISION_CACHE_CAPACITY: usize = 320;

/// What storing and reading decisions can fail with.
#[derive(Debug, Eq, PartialEq)]
pub enum StorageError {
    Sqlite(String),
    Io(String),
    PoisonedMutex(String),
    InvalidStoredValue(String),
    InvalidAffinity(String),
    InvalidMode(String),
    ImageNameTooLong,
    InvalidPath(String),
}

impl StorageError {
    /// The words for the failure.
    pub open spec fn words(&self) -> Seq<char> {
        match self {
            StorageError::Sqlite(source) => "sqlite error: "@ + source@,
            StorageError::Io(source) => "io error: "@ + source@,
            StorageError::PoisonedMutex(name) => "poisoned mutex: "@ + name@,
            StorageError::InvalidStoredValue(message) => "invalid stored value: "@ + message@,
            StorageError::InvalidAffinity(message) => "invalid affinity: "@ + message@,
            StorageError::InvalidMode(value) => "invalid mode: "@ + value@,
            StorageError::ImageNameTooLong => "image name exceeds 260 characters"@,
            StorageError::InvalidPath(value) => "invalid path: "@ + value@,
        }
    }

    pub fn message(&self) -> (message: String)
        ensures
            message@ == self.words(),
    {
        let (prefix, detail) = match self {
            StorageError::Sqlite(source) => ("sqlite error: ", source.as_str()),
            StorageError::Io(source) => ("io error: ", source.as_str()),
            StorageError::PoisonedMutex(name) => ("poisoned mutex: ", name.as_str()),
            StorageError::InvalidStoredValue(message) => (
                "invalid stored value: ",
                message.as_str(),
            ),
            StorageError::InvalidAffinity(message) => ("invalid affinity: ", message.as_str()),
            StorageError::InvalidMode(value) => ("invalid mode: ", value.as_str()),
            StorageError::ImageNameTooLong => {
                return "image name exceeds 260 characters".to_string();
            },
            StorageError::InvalidPath(value) => ("invalid path: ", value.as_str()),
        };
        let mut message = prefix.to_string();
        text::append(&mut message, detail);
        message
    }
}

/// The name of a program, in lower case. It may be empty: such a name stands for none.
#[derive(Debug, Eq, Hash, PartialEq)]
pub struct ImageName {
    chars: Vec<char>,
}

impl View for ImageName {
    type V = Seq<char>;

    closed spec fn view(&self) -> Seq<char> {
        self.chars@
    }
}

impl Clone for ImageName {
    fn clone(&self) -> (copied: Self)
        ensures
            copied@ == self@,
    {
        proof {
            use_type_invariant(self);
        }
        ImageName { chars: identity::copy_chars(&self.chars) }
    }
}

impl ImageName {
    #[verifier::type_invariant]
    spec fn wf(&self) -> bool {
        self.chars@.len() <= MAX_IMAGE_NAME_CHARS
    }

    pub fn empty() -> (image: Self)
        ensures
            image@.len() == 0,
    {
        ImageName { chars: Vec::new() }
    }

    pub fn is_empty(&self) -> (empty: bool)
        ensures
            empty == (self@.len() == 0),
    {
        self.chars.len() == 0
    }

    /// The name that the operating system gives, where it is not text with the ill-formed parts
    /// replaced.
    pub fn from_os_str(value: &str) -> (image: Result<Self, StorageError>)
        ensures
            match image {
                Ok(image) => identity::lowercase_name(value@).len() <= MAX_IMAGE_NAME_CHARS
                    && image@ == identity::lowercase_name(value@),
                Err(error) => error == StorageError::ImageNameTooLong && identity::lowercase_name(
                    value@,
                ).len() > MAX_IMAGE_NAME_CHARS,
            },
            image matches Ok(image) ==> (image@.len() == 0 <==> value@.len() == 0),
            value@.len() > MAX_IMAGE_NAME_CHARS ==> image is Err,
            identity::is_ascii_text(value@) ==> (image is Ok <==> value@.len()
                <= MAX_IMAGE_NAME_CHARS),
            identity::is_ascii_text(value@) ==> (image matches Ok(image) ==> image@
                == text::lowered(value@)),
    {
        ImageName::from_db(value)
    }

    /// The name in lower case.
    pub fn from_db(value: &str) -> (image: Result<Self, StorageError>)
        ensures
            match image {
                Ok(image) => identity::lowercase_name(value@).len() <= MAX_IMAGE_NAME_CHARS
                    && image@ == identity::lowercase_name(value@),
                Err(error) => error == StorageError::ImageNameTooLong && identity::lowercase_name(
                    value@,
                ).len() > MAX_IMAGE_NAME_CHARS,
            },
            image matches Ok(image) ==> (image@.len() == 0 <==> value@.len() == 0),
            value@.len() > MAX_IMAGE_NAME_CHARS ==> image is Err,
            identity::is_ascii_text(value@) ==> (image is Ok <==> value@.len()
                <= MAX_IMAGE_NAME_CHARS),
            identity::is_ascii_text(value@) ==> (image matches Ok(image) ==> image@
                == text::lowered(value@)),
    {
        let lower = identity::lowercase_text(value);
        if lower.len() > MAX_IMAGE_NAME_CHARS {
            return Err(StorageError::ImageNameTooLong);
        }
        Ok(ImageName { chars: lower })
    }

    pub fn as_string(&self) -> (name: String)
        ensures
            name@ == self@,
    {
        text::text_of(&self.chars)
    }

    pub fn eq_ignore_ascii_case_str(&self, other: &str) -> (same: bool)
        ensures
            same == (self@ == text::lowered(other@)),
    {
        let lower = text::lowered_characters(other);
        text::same_text(text::text_of(&self.chars).as_str(), text::text_of(&lower).as_str())
    }

    pub fn same_name(&self, other: &ImageName) -> (same: bool)
        ensures
            same == (self@ == other@),
    {
        text::same_text(text::text_of(&self.chars).as_str(), text::text_of(&other.chars).as_str())
    }
}

/// An application: its image name and the path of its image where it is known.
#[derive(Debug, Eq, PartialEq)]
pub struct ApplicationIdentity {
    pub image: ImageName,
    pub image_path: Option<String>,
}

/// Two identities name the same image at the same path.
pub open spec fn same_identity(a: ApplicationIdentity, b: ApplicationIdentity) -> bool {
    &&& a.image@ == b.image@
    &&& match (a.image_path, b.image_path) {
        (Some(x), Some(y)) => x@ == y@,
        (None, None) => true,
        _ => false,
    }
}

fn copy_path(path: &Option<String>) -> (copied: Option<String>)
    ensures
        match (copied, path) {
            (Some(x), Some(y)) => x@ == y@,
            (None, None) => true,
            _ => false,
        },
{
    match path {
        Some(path) => Some(path.clone()),
        None => None,
    }
}

impl Clone for ApplicationIdentity {
    fn clone(&self) -> (copied: Self)
        ensures
            same_identity(copied, *self),
    {
        ApplicationIdentity { image: self.image.clone(), image_path: copy_path(&self.image_path) }
    }
}

impl ApplicationIdentity {
    pub fn from_process(image_name: &str, image_path: &str) -> (identity: Result<
        Self,
        StorageError,
    >)
        ensures
            match identity {
                Ok(identity) => identity::lowercase_name(image_name@).len() <= MAX_IMAGE_NAME_CHARS
                    && identity.image@ == identity::lowercase_name(image_name@)
                    && (identity.image_path matches Some(path) && path@ == image_path@),
                Err(error) => error == StorageError::ImageNameTooLong && identity::lowercase_name(
                    image_name@,
                ).len() > MAX_IMAGE_NAME_CHARS,
            },
    {
        match ImageName::from_os_str(image_name) {
            Ok(image) => Ok(ApplicationIdentity { image, image_path: Some(image_path.to_owned()) }),
            Err(error) => Err(error),
        }
    }

    pub fn from_image_name(image: ImageName, image_path: &str) -> (identity: Self)
        ensures
            identity.image@ == image@,
            identity.image_path matches Some(path) && path@ == image_path@,
    {
        ApplicationIdentity { image, image_path: Some(image_path.to_owned()) }
    }
}

/// An application that was seen, and when.
#[derive(Debug, Eq, PartialEq)]
pub struct ProcessObservation {
    pub identity: ApplicationIdentity,
    pub observed_unix_seconds: i64,
}

/// The seconds since the epoch that a clock shows. A clock before the epoch shows none.
pub fn unix_seconds(since_epoch: Option<u64>) -> (seconds: i64)
    ensures
        seconds == match since_epoch {
            Some(seconds) => if seconds <= i64::MAX {
                seconds as int
            } else {
                i64::MAX as int
            },
            None => 0,
        },
{
    match since_epoch {
        Some(seconds) => if seconds <= i64::MAX as u64 {
            seconds as i64
        } else {
            i64::MAX
        },
        None => 0,
    }
}

impl ProcessObservation {
    /// The observation of an application at the time `observed_unix_seconds`.
    pub fn from_identity(identity: ApplicationIdentity, observed_unix_seconds: i64) -> (observation:
        Self)
        ensures
            observation.identity == identity,
            observation.observed_unix_seconds == observed_unix_seconds,
    {
        ProcessObservation { identity, observed_unix_seconds }
    }
}

/// What is known of how often an application was seen.
#[derive(Debug, Eq, PartialEq)]
pub struct ApplicationRecord {
    pub identity: ApplicationIdentity,
    pub first_seen_unix_seconds: i64,
    pub last_seen_unix_seconds: i64,
    pub observation_count: i64,
}

/// The record of an observation. Observations are not kept, so nothing was seen before.
pub fn record_observation(observation: ProcessObservation) -> (record: ApplicationRecord)
    ensures
        record.identity == observation.identity,
        record.first_seen_unix_seconds == observation.observed_unix_seconds,
        record.last_seen_unix_seconds == observation.observed_unix_seconds,
        record.observation_count == 0,
{
    ApplicationRecord {
        identity: observation.identity,
        first_seen_unix_seconds: observation.observed_unix_seconds,
        last_seen_unix_seconds: observation.observed_unix_seconds,
        observation_count: 0,
    }
}

/// A mode and tiers, one bit each.
#[derive(Clone, Copy, Debug, Eq, PartialEq, Structural)]
pub struct ProcessPolicyEncoding(pub u8);

pub open spec fn mode_bit(mode: ProcessMode) -> u8 {
    match mode {
        ProcessMode::Normal => 0,
        ProcessMode::Efficiency => 1,
        ProcessMode::Realtime => 2,
        ProcessMode::Performance => 64,
    }
}

pub open spec fn flag(set: bool, bit: u8) -> u8 {
    if set {
        bit
    } else {
        0
    }
}

/// The bits of a mode and of those tiers that are among `terms`.
pub open spec fn encoded(mode: ProcessMode, terms: Seq<AffinityTerm>) -> u8 {
    mode_bit(mode) | flag(terms.contains(AffinityTerm::Performance), 4) | flag(
        terms.contains(AffinityTerm::Efficiency),
        8,
    ) | flag(terms.contains(AffinityTerm::LowPowerEfficiency), 16) | flag(
        terms.contains(AffinityTerm::Cache),
        32,
    )
}

/// The mode that the mode bits stand for, if at most one is set.
pub open spec fn decoded_mode(bits: u8) -> Option<ProcessMode> {
    if bits & 67 == 0 {
        Some(ProcessMode::Normal)
    } else if bits & 67 == 1 {
        Some(ProcessMode::Efficiency)
    } else if bits & 67 == 2 {
        Some(ProcessMode::Realtime)
    } else if bits & 67 == 64 {
        Some(ProcessMode::Performance)
    } else {
        None
    }
}

/// The tiers whose bits are set, in a fixed order.
pub open spec fn decoded_terms(bits: u8) -> Seq<AffinityTerm> {
    let p = if bits & 4 != 0 {
        seq![AffinityTerm::Performance]
    } else {
        Seq::empty()
    };
    let e = if bits & 8 != 0 {
        seq![AffinityTerm::Efficiency]
    } else {
        Seq::empty()
    };
    let l = if bits & 16 != 0 {
        seq![AffinityTerm::LowPowerEfficiency]
    } else {
        Seq::empty()
    };
    let c = if bits & 32 != 0 {
        seq![AffinityTerm::Cache]
    } else {
        Seq::empty()
    };
    p + e + l + c
}

pub proof fn lemma_encoded_bits(m: u8, p: u8, e: u8, l: u8, c: u8)
    requires
        m == 0 || m == 1 || m == 2 || m == 64,
        p == 0 || p == 4,
        e == 0 || e == 8,
        l == 0 || l == 16,
        c == 0 || c == 32,
    ensures
        (m | p | e | l | c) & 67 == m,
        (m | p | e | l | c) & 4 == p,
        (m | p | e | l | c) & 8 == e,
        (m | p | e | l | c) & 16 == l,
        (m | p | e | l | c) & 32 == c,
        (m | p | e | l | c) & 128 == 0,
{
    let bits = m | p | e | l | c;
    assert(bits & 67 == m && bits & 4 == p && bits & 8 == e && bits & 16 == l && bits & 32 == c
        && bits & 128 == 0) by (bit_vector)
        requires
            bits == m | p | e | l | c,
            m == 0 || m == 1 || m == 2 || m == 64,
            p == 0 || p == 4,
            e == 0 || e == 8,
            l == 0 || l == 16,
            c == 0 || c == 32,
    ;
}

/// Decoding gives back the mode that was encoded, and exactly the tiers that were.
pub proof fn law_encoding_reads_back(mode: ProcessMode, terms: Seq<AffinityTerm>)
    ensures
        decoded_mode(encoded(mode, terms)) == Some(mode),
        encoded(mode, terms) & 4 != 0 <==> terms.contains(AffinityTerm::Performance),
        encoded(mode, terms) & 8 != 0 <==> terms.contains(AffinityTerm::Efficiency),
        encoded(mode, terms) & 16 != 0 <==> terms.contains(AffinityTerm::LowPowerEfficiency),
        encoded(mode, terms) & 32 != 0 <==> terms.contains(AffinityTerm::Cache),
        encoded(mode, terms) & 128 == 0,
{
    lemma_encoded_bits(
        mode_bit(mode),
        flag(terms.contains(AffinityTerm::Performance), 4),
        flag(terms.contains(AffinityTerm::Efficiency), 8),
        flag(terms.contains(AffinityTerm::LowPowerEfficiency), 16),
        flag(terms.contains(AffinityTerm::Cache), 32),
    );
}

/// The terms of an optional expression.
pub open spec fn expression_terms(expression: Option<AffinityExpression>) -> Seq<AffinityTerm> {
    match expression {
        Some(expression) => expression.terms@,
        None => Seq::empty(),
    }
}

pub open spec fn expression_value(expression: Option<&AffinityExpression>) -> Option<
    AffinityExpression,
> {
    match expression {
        Some(expression) => Some(*expression),
        None => None,
    }
}

impl ProcessPolicyEncoding {
    pub const EFFICIENCY: u8 = 1;

    pub const REALTIME: u8 = 2;

    pub const AFFINITY_P: u8 = 4;

    pub const AFFINITY_E: u8 = 8;

    pub const AFFINITY_LPE: u8 = 16;

    pub const AFFINITY_C: u8 = 32;

    pub const PERFORMANCE: u8 = 64;

    pub fn new(mode: ProcessMode, affinity_expr: Option<&AffinityExpression>) -> (encoding: Result<
        Self,
        String,
    >)
        ensures
            encoding matches Ok(encoding) && encoding.0 == encoded(
                mode,
                expression_terms(expression_value(affinity_expr)),
            ),
    {
        let mut p: bool = false;
        let mut e: bool = false;
        let mut l: bool = false;
        let mut c: bool = false;
        if let Some(expression) = affinity_expr {
            let ghost all = expression.terms@;
            let mut i: usize = 0;
            while i < expression.terms.len()
                invariant
                    i <= expression.terms@.len(),
                    all == expression.terms@,
                    p == all.subrange(0, i as int).contains(AffinityTerm::Performance),
                    e == all.subrange(0, i as int).contains(AffinityTerm::Efficiency),
                    l == all.subrange(0, i as int).contains(AffinityTerm::LowPowerEfficiency),
                    c == all.subrange(0, i as int).contains(AffinityTerm::Cache),
                decreases expression.terms@.len() - i,
            {
                proof {
                    lemma_contains_next(all, i as int);
                }
                match expression.terms[i] {
                    AffinityTerm::Performance => {
                        p = true;
                    },
                    AffinityTerm::Efficiency => {
                        e = true;
                    },
                    AffinityTerm::LowPowerEfficiency => {
                        l = true;
                    },
                    AffinityTerm::Cache => {
                        c = true;
                    },
                    AffinityTerm::LogicalIndex(_) => {},
                }
                i = i + 1;
            }
            assert(all.subrange(0, all.len() as int) =~= all);
        }
        let mode_bits: u8 = match mode {
            ProcessMode::Normal => 0,
            ProcessMode::Efficiency => 1,
            ProcessMode::Realtime => 2,
            ProcessMode::Performance => 64,
        };
        let p_bit: u8 = if p {
            4
        } else {
            0
        };
        let e_bit: u8 = if e {
            8
        } else {
            0
        };
        let l_bit: u8 = if l {
            16
        } else {
            0
        };
        let c_bit: u8 = if c {
            32
        } else {
            0
        };
        Ok(ProcessPolicyEncoding(mode_bits | p_bit | e_bit | l_bit | c_bit))
    }

    pub fn mode(&self) -> (mode: Result<ProcessMode, String>)
        ensures
            match mode {
                Ok(mode) => decoded_mode(self.0) == Some(mode),
                Err(message) => decoded_mode(self.0) is None && message@
                    == "invalid encoding: multiple process mode bits are set"@,
            },
    {
        let bits: u8 = self.0 & 67;
        if bits == 0 {
            Ok(ProcessMode::Normal)
        } else if bits == 1 {
            Ok(ProcessMode::Efficiency)
        } else if bits == 64 {
            Ok(ProcessMode::Performance)
        } else if bits == 2 {
            Ok(ProcessMode::Realtime)
        } else {
            Err("invalid encoding: multiple process mode bits are set".to_string())
        }
    }

    pub fn has_p(&self) -> (set: bool)
        ensures
            set == (self.0 & 4 != 0),
    {
        self.0 & 4 != 0
    }

    pub fn has_e(&self) -> (set: bool)
        ensures
            set == (self.0 & 8 != 0),
    {
        self.0 & 8 != 0
    }

    pub fn has_lpe(&self) -> (set: bool)
        ensures
            set == (self.0 & 16 != 0),
    {
        self.0 & 16 != 0
    }

    pub fn has_c(&self) -> (set: bool)
        ensures
            set == (self.0 & 32 != 0),
    {
        self.0 & 32 != 0
    }
}

proof fn lemma_contains_next(all: Seq<AffinityTerm>, i: int)
    requires
        0 <= i < all.len(),
    ensures
        forall|term: AffinityTerm| #[trigger]
            all.subrange(0, i + 1).contains(term) <==> all.subrange(0, i).contains(term) || term
                == all[i],
{
    let longer = all.subrange(0, i + 1);
    let shorter = all.subrange(0, i);
    assert forall|term: AffinityTerm| #[trigger]
        longer.contains(term) <==> shorter.contains(term) || term == all[i] by {
        if longer.contains(term) {
            let k = choose|k: int| 0 <= k < longer.len() && longer[k] == term;
            if k < i {
                assert(shorter[k] == term);
            }
        }
        if shorter.contains(term) {
            let k = choose|k: int| 0 <= k < shorter.len() && shorter[k] == term;
            assert(longer[k] == term);
        }
        if term == all[i] {
            assert(longer[i] == term);
        }
    }
}

/// What is decided for an application, and how sure that is.
#[derive(Debug, Eq, PartialEq)]
pub struct StoredProcessDecision {
    pub identity: ApplicationIdentity,
    pub decision: ProcessPolicyEncoding,
    pub confidence: Confidence,
}

/// The decision can be used: its confidence is finite, and its bits are known and name one mode.
pub open spec fn is_valid(decision: ProcessPolicyEncoding, confidence: Confidence) -> bool {
    confidence.finite() && decision.0 & 128 == 0 && decoded_mode(decision.0) is Some
}

/// The failure that refuses a decision that cannot be used.
pub open spec fn refuses(
    error: StorageError,
    decision: ProcessPolicyEncoding,
    confidence: Confidence,
) -> bool {
    if !confidence.finite() {
        error matches StorageError::InvalidStoredValue(message) && message@
            == "confidence must be finite"@
    } else if decision.0 & 128 != 0 {
        error matches StorageError::InvalidStoredValue(message) && message@
            == "unknown decision bits set: 0x80"@
    } else {
        error matches StorageError::InvalidMode(message) && message@
            == "invalid encoding: multiple process mode bits are set"@
    }
}

/// `expression` writes the tiers of the decision, if there are any.
pub open spec fn is_decoded_expression(expression: Option<AffinityExpression>, bits: u8) -> bool {
    match expression {
        Some(expression) => {
            &&& decoded_terms(bits).len() > 0
            &&& expression.terms@ == decoded_terms(bits)
            &&& expression.source@ == affinity::source_of(decoded_terms(bits))
        },
        None => decoded_terms(bits).len() == 0,
    }
}

/// `rule` is what the decision says of the application.
pub open spec fn is_decided_rule(rule: ProcessRule, decision: StoredProcessDecision) -> bool {
    &&& rule.image_name@ == decision.identity.image@
    &&& decoded_mode(decision.decision.0) == Some(rule.mode)
    &&& match rule.affinity {
        Some(AffinityPolicy::Expression(expression)) => is_decoded_expression(
            Some(expression),
            decision.decision.0,
        ),
        Some(AffinityPolicy::Mask(_)) => false,
        None => is_decoded_expression(None, decision.decision.0),
    }
}

fn push_term(source: &mut String, terms: &mut Vec<AffinityTerm>, term: AffinityTerm, name: &str)
    requires
        old(source)@ == affinity::source_of(old(terms)@),
        name@ == affinity::term_name(term),
    ensures
        final(terms)@ == old(terms)@.push(term),
        final(source)@ == affinity::source_of(final(terms)@),
{
    let ghost before = terms@;
    let ghost names = before.map_values(|term: AffinityTerm| affinity::term_name(term));
    if terms.len() > 0 {
        source.push('+');
    }
    text::append(source, name);
    terms.push(term);
    proof {
        let longer = terms@.map_values(|term: AffinityTerm| affinity::term_name(term));
        assert(longer =~= names.push(name@));
        assert(longer.drop_last() =~= names);
        assert(names.len() == 0 ==> affinity::source_of(before) == Seq::<char>::empty());
        assert(source@ =~= affinity::source_of(terms@));
    }
}

impl StoredProcessDecision {
    pub fn new(
        identity: ApplicationIdentity,
        mode: ProcessMode,
        affinity: Option<AffinityExpression>,
        confidence: Confidence,
    ) -> (stored: Result<Self, StorageError>)
        ensures
            match stored {
                Ok(stored) => confidence.finite() && stored.identity == identity
                    && stored.confidence == confidence && stored.decision.0 == encoded(
                    mode,
                    expression_terms(affinity),
                ),
                Err(error) => !confidence.finite() && (error matches StorageError::InvalidStoredValue(
                    message,
                ) && message@ == "confidence must be finite"@),
            },
    {
        let expression = match &affinity {
            Some(expression) => Some(expression),
            None => None,
        };
        let decision = match ProcessPolicyEncoding::new(mode, expression) {
            Ok(decision) => decision,
            Err(message) => {
                return Err(StorageError::InvalidStoredValue(message));
            },
        };
        let stored = StoredProcessDecision { identity, decision, confidence };
        proof {
            law_encoding_reads_back(mode, expression_terms(affinity));
        }
        match stored.validate() {
            Ok(_) => Ok(stored),
            Err(error) => Err(error),
        }
    }

    pub fn is_conclusive(&self, confidence_threshold: Confidence) -> (conclusive: bool)
        ensures
            conclusive == self.confidence.reaches(confidence_threshold),
    {
        self.confidence.at_least(confidence_threshold)
    }

    /// The rule that the decision stands for.
    pub fn to_process_rule(&self) -> (rule: Result<ProcessRule, StorageError>)
        ensures
            match rule {
                Ok(rule) => is_valid(self.decision, self.confidence) && is_decided_rule(
                    rule,
                    *self,
                ),
                Err(error) => !is_valid(self.decision, self.confidence) && refuses(
                    error,
                    self.decision,
                    self.confidence,
                ),
            },
    {
        match self.validate() {
            Ok(_) => {},
            Err(error) => {
                return Err(error);
            },
        }
        let mode = match self.decision.mode() {
            Ok(mode) => mode,
            Err(message) => {
                return Err(StorageError::InvalidMode(message));
            },
        };
        let affinity = match self.affinity_expression() {
            Some(expression) => Some(AffinityPolicy::Expression(expression)),
            None => None,
        };
        Ok(ProcessRule { image_name: self.identity.image.as_string(), affinity, mode })
    }

    pub fn validate(&self) -> (valid: Result<(), StorageError>)
        ensures
            match valid {
                Ok(_) => is_valid(self.decision, self.confidence),
                Err(error) => !is_valid(self.decision, self.confidence) && refuses(
                    error,
                    self.decision,
                    self.confidence,
                ),
            },
    {
        if !self.confidence.is_finite() {
            return Err(StorageError::InvalidStoredValue("confidence must be finite".to_string()));
        }
        if self.decision.0 & 128 != 0 {
            return Err(
                StorageError::InvalidStoredValue("unknown decision bits set: 0x80".to_string()),
            );
        }
        match self.decision.mode() {
            Ok(_) => Ok(()),
            Err(message) => Err(StorageError::InvalidMode(message)),
        }
    }

    /// The expression that writes the tiers of the decision.
    pub fn affinity_expression(&self) -> (expression: Option<AffinityExpression>)
        ensures
            is_decoded_expression(expression, self.decision.0),
    {
        let mut source = String::new();
        let mut terms: Vec<AffinityTerm> = Vec::new();
        assert(source@ =~= affinity::source_of(terms@));
        if self.decision.has_p() {
            push_term(&mut source, &mut terms, AffinityTerm::Performance, "P");
        }
        if self.decision.has_e() {
            push_term(&mut source, &mut terms, AffinityTerm::Efficiency, "E");
        }
        if self.decision.has_lpe() {
            push_term(&mut source, &mut terms, AffinityTerm::LowPowerEfficiency, "LPE");
        }
        if self.decision.has_c() {
            push_term(&mut source, &mut terms, AffinityTerm::Cache, "C");
        }
        assert(terms@ =~= decoded_terms(self.decision.0));
        if terms.len() == 0 {
            return None;
        }
        Some(AffinityExpression { source, terms })
    }
}

/// A decision that was stored says the same when it is read: the mode it was made with, and the
/// tiers it was made with. The expression reads as one that writes these tiers.
pub proof fn law_stored_decision_reads_back(
    rule: ProcessRule,
    decision: StoredProcessDecision,
    mode: ProcessMode,
    terms: Seq<AffinityTerm>,
)
    requires
        decision.decision.0 == encoded(mode, terms),
        is_decided_rule(rule, decision),
    ensures
        rule.mode == mode,
        rule.affinity is Some ==> rule.affinity->0 is Expression && affinity::terms_of(
            rule.affinity->0->Expression_0.source@,
        ) == rule.affinity->0->Expression_0.terms@,
        forall|term: AffinityTerm|
            !(term is LogicalIndex) ==> (decoded_terms(decision.decision.0).contains(term)
                <==> #[trigger] terms.contains(term)),
{
    law_encoding_reads_back(mode, terms);
    let bits = decision.decision.0;
    let found = decoded_terms(bits);
    if rule.affinity is Some {
        affinity::law_written_terms_read_back(found);
    }
    assert forall|term: AffinityTerm| !(term is LogicalIndex) implies (found.contains(term)
        <==> #[trigger] terms.contains(term)) by {
        lemma_decoded_terms(bits, term);
    }
}

pub proof fn lemma_decoded_terms(bits: u8, term: AffinityTerm)
    ensures
        decoded_terms(bits).contains(term) <==> match term {
            AffinityTerm::Performance => bits & 4 != 0,
            AffinityTerm::Efficiency => bits & 8 != 0,
            AffinityTerm::LowPowerEfficiency => bits & 16 != 0,
            AffinityTerm::Cache => bits & 32 != 0,
            AffinityTerm::LogicalIndex(_) => false,
        },
{
    let p = if bits & 4 != 0 {
        seq![AffinityTerm::Performance]
    } else {
        Seq::empty()
    };
    let e = if bits & 8 != 0 {
        seq![AffinityTerm::Efficiency]
    } else {
        Seq::empty()
    };
    let l = if bits & 16 != 0 {
        seq![AffinityTerm::LowPowerEfficiency]
    } else {
        Seq::empty()
    };
    let all = decoded_terms(bits);
    match term {
        AffinityTerm::Performance => {
            if bits & 4 != 0 {
                assert(all[0] == term);
            }
        },
        AffinityTerm::Efficiency => {
            if bits & 8 != 0 {
                assert(all[p.len() as int] == term);
            }
        },
        AffinityTerm::LowPowerEfficiency => {
            if bits & 16 != 0 {
                assert(all[(p + e).len() as int] == term);
            }
        },
        AffinityTerm::Cache => {
            if bits & 32 != 0 {
                assert(all[(p + e + l).len() as int] == term);
            }
        },
        AffinityTerm::LogicalIndex(_) => {},
    }
}

/// Where decisions are kept.
pub trait ApplicationDecisionStore {
    fn initialize(&self) -> (ready: Result<(), StorageError>);

    fn get_active_decision(
        &self,
        identity: &ApplicationIdentity,
        confidence_threshold: Confidence,
    ) -> (decision: Result<Option<StoredProcessDecision>, StorageError>);

    fn record_observation(&self, observation: ProcessObservation) -> (record: Result<
        ApplicationRecord,
        StorageError,
    >);

    fn upsert_decision(&self, decision: StoredProcessDecision) -> (stored: Result<
        (),
        StorageError,
    >);
}

/// The decision was handed to the store, whatever the store answered.
pub open spec fn was_handed<S: ApplicationDecisionStore>(
    store: &S,
    decision: StoredProcessDecision,
) -> bool {
    exists|answer: Result<(), StorageError>| #[trigger]
        call_ensures(S::upsert_decision, (store, decision), answer)
}

/// The store took the decision.
pub open spec fn was_taken<S: ApplicationDecisionStore>(
    store: &S,
    decision: StoredProcessDecision,
) -> bool {
    exists|answer: Result<(), StorageError>|
        answer is Ok && #[trigger] call_ensures(S::upsert_decision, (store, decision), answer)
}

/// The store refused the decision.
pub open spec fn was_refused<S: ApplicationDecisionStore>(
    store: &S,
    decision: StoredProcessDecision,
) -> bool {
    exists|answer: Result<(), StorageError>|
        answer is Err && #[trigger] call_ensures(S::upsert_decision, (store, decision), answer)
}

/// The store was asked for the decision about `identity`, and answered.
pub open spec fn was_answered<S: ApplicationDecisionStore>(
    store: &S,
    identity: ApplicationIdentity,
    threshold: Confidence,
    answer: Result<Option<StoredProcessDecision>, StorageError>,
) -> bool {
    call_ensures(S::get_active_decision, (store, &identity, threshold), answer)
}

/// The store was told of the observation, and answered.
pub open spec fn was_told<S: ApplicationDecisionStore>(
    store: &S,
    observation: ProcessObservation,
    answer: Result<ApplicationRecord, StorageError>,
) -> bool {
    call_ensures(S::record_observation, (store, observation), answer)
}

/// A store that keeps nothing.
#[derive(Clone, Copy, Debug, Eq, PartialEq, Structural)]
pub struct NoopApplicationDecisionStore;

impl ApplicationDecisionStore for NoopApplicationDecisionStore {
    fn initialize(&self) -> (ready: Result<(), StorageError>)
        ensures
            ready is Ok,
    {
        Ok(())
    }

    fn get_active_decision(
        &self,
        identity: &ApplicationIdentity,
        confidence_threshold: Confidence,
    ) -> (decision: Result<Option<StoredProcessDecision>, StorageError>)
        ensures
            decision matches Ok(None),
    {
        Ok(None)
    }

    fn record_observation(&self, observation: ProcessObservation) -> (record: Result<
        ApplicationRecord,
        StorageError,
    >)
        ensures
            record matches Ok(record) && record.identity == observation.identity
                && record.first_seen_unix_seconds == observation.observed_unix_seconds
                && record.last_seen_unix_seconds == observation.observed_unix_seconds
                && record.observation_count == 0,
    {
        Ok(self::record_observation(observation))
    }

    fn upsert_decision(&self, decision: StoredProcessDecision) -> (stored: Result<(), StorageError>)
        ensures
            stored is Ok,
    {
        Ok(())
    }
}

/// The version of the tables that the store works with.
pub const SCHEMA_VERSION: i32 = 2;

/// Tells whether the tables are of an older version and are to be dropped.
pub fn is_outdated_schema(user_version: i32) -> (outdated: bool)
    ensures
        outdated == (user_version < SCHEMA_VERSION),
{
    user_version < SCHEMA_VERSION
}

/// Refuses an empty path.
pub fn check_database_path(path: &str) -> (usable: Result<(), StorageError>)
    ensures
        match usable {
            Ok(_) => path@.len() > 0,
            Err(error) => path@.len() == 0 && (error matches StorageError::InvalidPath(message)
                && message@ == "database path is empty"@),
        },
{
    if path.is_empty() {
        return Err(StorageError::InvalidPath("database path is empty".to_string()));
    }
    Ok(())
}

} // verus!
