use policy_server::policies::{Policy, PolicyMode, SettingsMap};
use std::collections::HashMap;

fn policies_from_yaml(input: &str) -> HashMap<String, Policy> {
    let raw: HashMap<String, serde_yaml::Value> = serde_yaml::from_str(input).unwrap();
    raw.into_iter()
        .map(|(name, value)| {
            let url = value
                .get("url")
                .and_then(|u| u.as_str())
                .unwrap_or("")
                .to_string();
            let settings = value.get("settings").map(|s| {
                let mapping = s.as_mapping().unwrap();
                let entries = mapping
                    .iter()
                    .map(|(k, v)| {
                        let key = k.as_str().unwrap_or("").to_string();
                        let bytes = serde_yaml::to_string(v).unwrap().into_bytes();
                        (key, bytes)
                    })
                    .collect();
                SettingsMap { entries }
            });
            let policy = Policy {
                url,
                wasm_module_path: String::new(),
                policy_mode: PolicyMode::Protect,
                allowed_to_mutate: false,
                settings,
                context_aware_resources: Vec::new(),
            };
            (name, policy)
        })
        .collect()
}

#[test]
fn get_settings_when_data_is_provided() -> std::result::Result<(), std::io::Error> {
    let input = r#"
---
example:
  url: file:///tmp/namespace-validate-policy.wasm
  settings:
    valid_namespace: valid
"#;
    let policies: HashMap<String, Policy> = policies_from_yaml(&input);
    assert_eq!(policies.is_empty(), false);

    let policy = policies.get("example").unwrap();
    let settings = policy.settings();
    assert_ne!(settings.is_empty(), true);

    Ok(())
}

#[test]
fn get_settings_when_empty_map_is_provided() -> std::result::Result<(), std::io::Error> {
    let input = r#"
---
example:
  url: file:///tmp/namespace-validate-policy.wasm
  settings: {}
"#;

    let policies: HashMap<String, Policy> = policies_from_yaml(&input);
    assert_eq!(policies.is_empty(), false);

    let policy = policies.get("example").unwrap();
    let settings = policy.settings();
    assert!(settings.is_empty());

    Ok(())
}

#[test]
fn get_settings_when_no_settings_are_provided() -> std::result::Result<(), std::io::Error> {
    let input = r#"
---
example:
  url: file:///tmp/namespace-validate-policy.wasm
"#;

    let policies: HashMap<String, Policy> = policies_from_yaml(&input);
    assert_eq!(policies.is_empty(), false);

    let policy = policies.get("example").unwrap();
    let settings = policy.settings();
    assert!(settings.is_empty());

    Ok(())
}

#[test]
fn settings_len_counts_configured_keys() {
    let map = SettingsMap {
        entries: vec![
            ("sleepMilliseconds".to_string(), b"2".to_vec()),
            ("defaultResource".to_string(), b"hay".to_vec()),
        ],
    };
    assert_eq!(map.len(), 2);
    assert!(!map.is_empty());
    let copy = map.clone();
    assert_eq!(copy.len(), 2);
}
