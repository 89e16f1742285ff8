//! Policies as they are kept in the registry: one key for each image, with a mode and an
//! affinity.

use vstd::prelude::*;

use crate::affinity;
use crate::affinity::{AffinityExpression, AffinityPolicy};
use crate::bytes;
use crate::bytes::ByteOrder;
use crate::identity::ImageName;
use crate::process;
use crate::process::ProcessMode;
use crate::text;
use crate::wide;

verus! {

/// Why a registry policy could not be read.
#[derive(Debug, Eq, PartialEq)]
pub enum RegistryError {
    Io(String),
    InvalidValue(String),
}

impl RegistryError {
    pub fn message(&self) -> (message: String)
        ensures
            message@ == match self {
                RegistryError::Io(source) => "registry access failed: "@ + source@,
                RegistryError::InvalidValue(words) => "invalid registry policy: "@ + words@,
            },
    {
        match self {
            RegistryError::Io(source) => {
                let mut message = "registry access failed: ".to_string();
                text::append(&mut message, source.as_str());
                message
            },
            RegistryError::InvalidValue(words) => {
                let mut message = "invalid registry policy: ".to_string();
                text::append(&mut message, words.as_str());
                message
            },
        }
    }
}

/// A value as it stands in the registry: whether it is of the plain text type, and its bytes.
pub struct RawValue {
    pub is_text: bool,
    pub bytes: Vec<u8>,
}

/// The units that `bytes` hold, low byte first.
pub open spec fn value_units(bytes: Seq<u8>) -> Seq<u16> {
    Seq::new(
        bytes.len() / 2,
        |i: int| bytes::u16_at(bytes, 2 * i, ByteOrder::Little),
    )
}

/// The units without one terminating zero.
pub open spec fn unterminated(units: Seq<u16>) -> Seq<u16> {
    if units.len() > 0 && units.last() == 0 {
        units.drop_last()
    } else {
        units
    }
}

/// The value is of the text type and no longer than a policy value may be.
pub open spec fn is_policy_text(value: RawValue) -> bool {
    value.is_text && value.bytes@.len() <= 8192 && value.bytes@.len() % 2 == 0
}

/// What a value says, or why it says nothing.
pub open spec fn value_text(value: RawValue, name: Seq<char>) -> Result<Seq<char>, Seq<char>> {
    let units = unterminated(value_units(value.bytes@));
    if !is_policy_text(value) {
        Err(name + " must be REG_SZ with at most 4096 UTF-16 units"@)
    } else if units.contains(0) {
        Err(name + " contains embedded NUL"@)
    } else {
        match wide::decoded(units) {
            Some(text) => Ok(text),
            None => Err(name + " contains invalid UTF-16"@),
        }
    }
}

fn invalid(name: &str, words: &str) -> (error: RegistryError)
    ensures
        error matches RegistryError::InvalidValue(message) && message@ == name@ + words@,
{
    let mut message = name.to_owned();
    text::append(&mut message, words);
    RegistryError::InvalidValue(message)
}

/// What a value that was asked for says: nothing where there is none, or a text. There is no
/// answer where it cannot be read.
pub open spec fn read_value(value: Result<Option<RawValue>, String>, name: Seq<char>) -> Option<
    Option<Seq<char>>,
> {
    match value {
        Ok(None) => Some(None),
        Ok(Some(value)) => match value_text(value, name) {
            Ok(text) => Some(Some(text)),
            Err(_) => None,
        },
        Err(_) => None,
    }
}

/// `error` is why a value that was asked for cannot be read.
pub open spec fn refuses_value(
    error: RegistryError,
    value: Result<Option<RawValue>, String>,
    name: Seq<char>,
) -> bool {
    match value {
        Ok(None) => false,
        Ok(Some(value)) => value_text(value, name) matches Err(words) && error matches RegistryError::InvalidValue(
        message) && message@ == words,
        Err(source) => error matches RegistryError::Io(message) && message@ == source@,
    }
}

/// What the value `name` says, where there is such a value.
pub fn optional_string(value: &Result<Option<RawValue>, String>, name: &str) -> (read: Result<
    Option<String>,
    RegistryError,
>)
    ensures
        match read {
            Ok(found) => read_value(*value, name@) == Some(
                match found {
                    Some(found) => Some(found@),
                    None => None,
                },
            ),
            Err(error) => read_value(*value, name@) is None && refuses_value(error, *value, name@),
        },
{
    let raw = match value {
        Err(source) => {
            return Err(RegistryError::Io(source.as_str().to_owned()));
        },
        Ok(None) => {
            return Ok(None);
        },
        Ok(Some(raw)) => raw,
    };
    if !raw.is_text || raw.bytes.len() > 8192 || raw.bytes.len() % 2 != 0 {
        return Err(invalid(name, " must be REG_SZ with at most 4096 UTF-16 units"));
    }
    let mut units: Vec<u16> = Vec::new();
    let mut i: usize = 0;
    while i < raw.bytes.len() / 2
        invariant
            i <= raw.bytes.len() / 2,
            raw.bytes@.len() <= 8192,
            units@.len() == i,
            forall|k: int| 0 <= k < i ==> #[trigger] units@[k] == value_units(raw.bytes@)[k],
        decreases raw.bytes@.len() / 2 - i,
    {
        units.push(bytes::read_u16(raw.bytes.as_slice(), 2 * i, ByteOrder::Little));
        i = i + 1;
    }
    assert(units@ =~= value_units(raw.bytes@));
    if units.len() > 0 && units[units.len() - 1] == 0 {
        units.pop();
    }
    assert(units@ =~= unterminated(value_units(raw.bytes@)));
    let mut j: usize = 0;
    while j < units.len()
        invariant
            j <= units@.len(),
            is_policy_text(*raw),
            *value == Ok::<Option<RawValue>, String>(Some(*raw)),
            units@ == unterminated(value_units(raw.bytes@)),
            forall|k: int| 0 <= k < j ==> units@[k] != 0,
        decreases units@.len() - j,
    {
        if units[j] == 0 {
            assert(units@[j as int] == 0);
            return Err(invalid(name, " contains embedded NUL"));
        }
        j = j + 1;
    }
    assert(!units@.contains(0));
    match wide::decode(&units) {
        Some(text) => Ok(Some(text)),
        None => Err(invalid(name, " contains invalid UTF-16")),
    }
}

/// The name can be that of a key: not empty, no separator or zero in it, and of at most 255
/// units.
pub open spec fn is_subkey_name(name: Seq<char>) -> bool {
    &&& name.len() > 0
    &&& !name.contains('\\')
    &&& !name.contains('/')
    &&& !name.contains('\0')
    &&& wide::units(name).len() <= 255
}

fn holds_char(chars: &Vec<char>, c: char) -> (found: bool)
    ensures
        found == chars@.contains(c),
{
    let mut i: usize = 0;
    while i < chars.len()
        invariant
            i <= chars@.len(),
            forall|j: int| 0 <= j < i ==> chars@[j] != c,
        decreases chars@.len() - i,
    {
        if chars[i] == c {
            return true;
        }
        i = i + 1;
    }
    false
}

/// The name of the key that holds the policy of `image`.
pub fn image_subkey(image: &ImageName) -> (name: Result<String, RegistryError>)
    ensures
        match name {
            Ok(name) => is_subkey_name(image@) && name@ == image@,
            Err(error) => !is_subkey_name(image@) && (error matches RegistryError::InvalidValue(
                message,
            ) && message@ == "image must be a basename of at most 255 UTF-16 units"@),
        },
{
    let name = image.as_string();
    let chars = text::characters(name.as_str());
    if chars.len() == 0 || holds_char(&chars, '\\') || holds_char(&chars, '/') || holds_char(
        &chars,
        '\0',
    ) || wide::encode(name.as_str()).len() > 255 {
        return Err(
            RegistryError::InvalidValue(
                "image must be a basename of at most 255 UTF-16 units".to_string(),
            ),
        );
    }
    Ok(name)
}

/// A policy of the registry: fields that the key leaves open stay open.
#[derive(Debug, Eq, PartialEq)]
pub struct PolicyRule {
    pub image_name: String,
    pub affinity: Option<AffinityPolicy>,
    pub mode: Option<ProcessMode>,
}

/// The mode that the word `Mode` of a key stands for.
pub open spec fn registry_mode(word: Seq<char>) -> Option<ProcessMode> {
    if word == "none"@ {
        None
    } else {
        ProcessMode::of_word(word)
    }
}

/// Where the mode asks for something, it brings an affinity where none is named.
pub fn affinity_with_mode_default(
    mode: Option<ProcessMode>,
    named: Option<AffinityPolicy>,
) -> (policy: Option<AffinityPolicy>)
    ensures
        named is Some ==> policy == named,
        named is None && mode is None ==> policy is None,
        named is None ==> (mode matches Some(mode) ==> process::is_mode_default(policy, mode)),
{
    if named.is_some() {
        return named;
    }
    match mode {
        Some(mode) => process::mode_default_affinity(mode),
        None => None,
    }
}

/// Why a key makes no rule.
pub open spec fn is_rule_refusal(
    mode: Option<Seq<char>>,
    source: Option<Seq<char>>,
    words: Seq<char>,
) -> bool {
    if mode is Some && registry_mode(mode->0) is None {
        words == "unknown mode "@ + text::debug_quoted(mode->0)
    } else {
        source is Some && if text::trim(source->0).len() == 0 {
            words == "affinity expression must not be empty"@
        } else {
            exists|k: int| #[trigger]
                affinity::is_first_refused(source->0, k) && words == affinity::refused_word(
                    source->0,
                    affinity::words(source->0)[k],
                )
        }
    }
}

pub open spec fn text_view(text: Option<&str>) -> Option<Seq<char>> {
    match text {
        Some(text) => Some(text@),
        None => None,
    }
}

/// `rule` is the rule that the two values of a key make for `image`.
pub open spec fn is_made_rule(
    rule: PolicyRule,
    image: Seq<char>,
    mode: Option<Seq<char>>,
    source: Option<Seq<char>>,
) -> bool {
    &&& rule.image_name@ == image
    &&& rule.mode == match mode {
        Some(word) => registry_mode(word),
        None => None,
    }
    &&& mode is Some ==> rule.mode is Some
    &&& match source {
        Some(source) => affinity::is_expression(source) && (rule.affinity matches Some(
            AffinityPolicy::Expression(expression),
        ) && expression.source@ == text::trim(source) && expression.terms@ == affinity::terms_of(
            source,
        )),
        None => match rule.mode {
            Some(mode) => process::is_mode_default(rule.affinity, mode),
            None => rule.affinity is None,
        },
    }
}

/// The rule that the two values of a key make.
pub fn make_rule(image: &ImageName, mode: Option<&str>, affinity: Option<&str>) -> (rule: Result<
    PolicyRule,
    RegistryError,
>)
    ensures
        match rule {
            Ok(rule) => is_made_rule(rule, image@, text_view(mode), text_view(affinity)),
            Err(error) => error matches RegistryError::InvalidValue(words) && is_rule_refusal(
                text_view(mode),
                text_view(affinity),
                words@,
            ),
        },
{
    let mode = match mode {
        None => None,
        Some(word) => {
            let known = if text::same_text(word, "none") {
                None
            } else {
                ProcessMode::from_word(word)
            };
            if known.is_none() {
                let mut words = "unknown mode ".to_string();
                text::append(&mut words, text::quoted(word).as_str());
                return Err(RegistryError::InvalidValue(words));
            }
            known
        },
    };
    let named = match affinity {
        None => None,
        Some(source) => match AffinityExpression::parse(source.to_owned()) {
            Ok(expression) => Some(AffinityPolicy::Expression(expression)),
            Err(words) => {
                return Err(RegistryError::InvalidValue(words));
            },
        },
    };
    Ok(
        PolicyRule {
            image_name: image.as_string(),
            affinity: affinity_with_mode_default(mode, named),
            mode,
        },
    )
}

impl PolicyRule {
    pub open spec fn affinity_text(&self) -> Seq<char> {
        match self.affinity {
            Some(policy) => policy.log_text(),
            None => "unchanged"@,
        }
    }

    pub fn affinity_log_value(&self) -> (value: String)
        ensures
            value@ == self.affinity_text(),
    {
        match &self.affinity {
            Some(policy) => policy.log_value(),
            None => "unchanged".to_string(),
        }
    }
}

/// What came of asking a key for its two values.
pub struct PolicyValues {
    pub mode: Result<Option<RawValue>, String>,
    pub affinity: Result<Option<RawValue>, String>,
}

/// Where policies are looked up.
pub trait PolicyStore {
    fn get_policy(&self, image: &ImageName) -> (policy: Result<Option<PolicyRule>, RegistryError>);
}

/// The store was asked for the policy of `image`, and answered.
pub open spec fn was_answered<P: PolicyStore>(
    policy_store: &P,
    image: ImageName,
    answer: Result<Option<PolicyRule>, RegistryError>,
) -> bool {
    call_ensures(P::get_policy, (policy_store, &image), answer)
}

/// The policy of `image`, of what came of opening the key for it. The mode is read before the
/// affinity, and what is wrong with it is told first.
pub fn get_policy(image: &ImageName, key: &Result<Option<PolicyValues>, String>) -> (policy: Result<
    Option<PolicyRule>,
    RegistryError,
>)
    ensures
        !is_subkey_name(image@) ==> (policy matches Err(RegistryError::InvalidValue(words))
            && words@ == "image must be a basename of at most 255 UTF-16 units"@),
        is_subkey_name(image@) ==> match key {
            Err(source) => policy matches Err(RegistryError::Io(words)) && words@ == source@,
            Ok(None) => policy == Ok::<Option<PolicyRule>, RegistryError>(None),
            Ok(Some(values)) => match (
                read_value(values.mode, "Mode"@),
                read_value(values.affinity, "Affinity"@),
            ) {
                (None, _) => policy matches Err(error) && refuses_value(
                    error,
                    values.mode,
                    "Mode"@,
                ),
                (Some(_), None) => policy matches Err(error) && refuses_value(
                    error,
                    values.affinity,
                    "Affinity"@,
                ),
                (Some(mode), Some(source)) => match policy {
                    Ok(Some(rule)) => is_made_rule(rule, image@, mode, source),
                    Ok(None) => false,
                    Err(error) => error matches RegistryError::InvalidValue(words)
                        && is_rule_refusal(mode, source, words@),
                },
            },
        },
{
    match image_subkey(image) {
        Ok(_) => {},
        Err(error) => {
            return Err(error);
        },
    }
    let values = match key {
        Err(source) => {
            return Err(RegistryError::Io(source.as_str().to_owned()));
        },
        Ok(None) => {
            return Ok(None);
        },
        Ok(Some(values)) => values,
    };
    let mode = match optional_string(&values.mode, "Mode") {
        Ok(mode) => mode,
        Err(error) => {
            return Err(error);
        },
    };
    let source = match optional_string(&values.affinity, "Affinity") {
        Ok(source) => source,
        Err(error) => {
            return Err(error);
        },
    };
    let mode_text = match &mode {
        Some(mode) => Some(mode.as_str()),
        None => None,
    };
    let source_text = match &source {
        Some(source) => Some(source.as_str()),
        None => None,
    };
    match make_rule(image, mode_text, source_text) {
        Ok(rule) => Ok(Some(rule)),
        Err(error) => Err(error),
    }
}

} // verus!
