//! Policies of the registry.

use affix::identity::ImageName;
use affix::process::ProcessMode;
use affix::registry::{
    PolicyRule, PolicyValues, RawValue, RegistryError, get_policy, image_subkey, make_rule,
    optional_string,
};

fn text_value(text: &str) -> RawValue {
    let mut bytes = Vec::new();
    for unit in text.encode_utf16().chain(Some(0)) {
        bytes.extend(unit.to_le_bytes());
    }
    RawValue { is_text: true, bytes }
}

fn policy(
    name: &str,
    mode: Option<&str>,
    affinity: Option<&str>,
) -> Result<Option<PolicyRule>, RegistryError> {
    get_policy(
        &ImageName::parse(name).unwrap(),
        &Ok(Some(PolicyValues {
            mode: Ok(mode.map(text_value)),
            affinity: Ok(affinity.map(text_value)),
        })),
    )
}

#[test]
fn missing_keys_hold_no_policy() {
    assert_eq!(
        get_policy(&ImageName::parse("steam.exe").unwrap(), &Ok(None)),
        Ok(None)
    );
}

#[test]
fn what_is_wrong_with_the_mode_is_told_first() {
    let image = ImageName::parse("steam.exe").unwrap();
    let refused = || Err("access is denied".to_string());
    assert_eq!(
        get_policy(&image, &Err("access is denied".to_string())),
        Err(RegistryError::Io("access is denied".to_string()))
    );
    let asked = |mode, affinity| get_policy(&image, &Ok(Some(PolicyValues { mode, affinity })));
    let number = RawValue { is_text: false, bytes: vec![1, 0, 0, 0] };
    assert_eq!(
        asked(Ok(Some(number)), refused()),
        Err(RegistryError::InvalidValue(
            "Mode must be REG_SZ with at most 4096 UTF-16 units".to_string()
        ))
    );
    assert_eq!(
        asked(Ok(Some(text_value("invalid"))), refused()),
        Err(RegistryError::Io("access is denied".to_string()))
    );
    let odd = RawValue { is_text: true, bytes: vec![1] };
    assert_eq!(
        asked(refused(), Ok(Some(odd))),
        Err(RegistryError::Io("access is denied".to_string()))
    );
}

#[test]
fn partial_empty_efficiency_and_explicit_affinity_policies() {
    let rule = policy("MOONLIGHT.EXE", None, Some("LPE")).unwrap().unwrap();
    assert_eq!(rule.mode, None);
    assert_eq!(rule.affinity_log_value(), "LPE");
    let rule = policy("empty.exe", None, None).unwrap().unwrap();
    assert_eq!(rule.mode, None);
    assert_eq!(rule.affinity, None);
    assert_eq!(
        policy("moonlight.exe", Some("efficiency"), None)
            .unwrap()
            .unwrap()
            .affinity_log_value(),
        "E+LPE"
    );
    for affinity in ["P+E+LPE", "P+E", "LPE", "8+9+10+11"] {
        assert_eq!(
            policy("moonlight.exe", Some("efficiency"), Some(affinity))
                .unwrap()
                .unwrap()
                .affinity_log_value(),
            affinity
        );
    }
    assert_eq!(
        policy("moonlight.exe", Some("normal"), None)
            .unwrap()
            .unwrap()
            .affinity,
        None
    );
}

#[test]
fn rejects_bad_names_value_types_and_malformed_strings() {
    for name in [r"bad\child.exe", "bad/child.exe", "bad\0.exe"] {
        assert!(image_subkey(&ImageName::parse(name).unwrap()).is_err());
    }
    assert!(image_subkey(&ImageName::parse(&"x".repeat(256)).unwrap()).is_err());
    assert_eq!(
        image_subkey(&ImageName::parse("Good.exe").unwrap()).unwrap(),
        "good.exe"
    );
    for value in ["invalid", ""] {
        assert!(policy("bad.exe", Some(value), None).is_err());
    }
    let values = |mode: RawValue| {
        get_policy(
            &ImageName::parse("bad.exe").unwrap(),
            &Ok(Some(PolicyValues { mode: Ok(Some(mode)), affinity: Ok(None) })),
        )
    };
    assert!(values(RawValue { is_text: false, bytes: vec![1, 0, 0, 0] }).is_err());
    assert!(values(RawValue { is_text: true, bytes: vec![0, 0xd8, 0, 0] }).is_err());
    assert!(policy("bad.exe", None, Some("invalid_affinity")).is_err());
}

#[test]
fn values_are_text_or_nothing() {
    assert_eq!(optional_string(&Ok(None), "Mode"), Ok(None));
    assert_eq!(
        optional_string(&Ok(Some(text_value("P+E"))), "Affinity"),
        Ok(Some("P+E".to_string()))
    );
    assert!(optional_string(&Ok(Some(RawValue { is_text: true, bytes: vec![1] })), "Mode").is_err());
}

#[test]
fn rules_carry_the_name_of_their_image() {
    let image = ImageName::parse("Game.exe").unwrap();
    let rule = make_rule(&image, Some("realtime"), None).unwrap();
    assert_eq!(rule.image_name, "game.exe");
    assert_eq!(rule.mode, Some(ProcessMode::Realtime));
    assert_eq!(rule.affinity_log_value(), "P+C");
}
