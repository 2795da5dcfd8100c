use zed_intellij::config::{shell_quote_if_needed, LaunchConfig};
use zed_intellij::json::Json;

fn s(x: &str) -> Json {
    Json::Str(x.to_string())
}

fn obj(members: Vec<(&str, Json)>) -> Json {
    Json::Object(members.into_iter().map(|(k, v)| (k.to_string(), v)).collect())
}

#[test]
fn defaults_without_settings() {
    let c = LaunchConfig::from_settings(None);
    assert!(!c.accept_eula);
    assert!(c.jvm_args.is_empty());
    assert_eq!(c.data_sharing, None);
    assert_eq!(c.region, None);
    assert_eq!(c.proxy_path, None);
    assert!(c.launch_env().is_empty());
}

#[test]
fn reads_and_filters_settings() {
    let settings = obj(vec![
        ("accept_jetbrains_eula", Json::Bool(true)),
        ("jvm_args", Json::Array(vec![s("-Xmx4g"), Json::UInt(3), s("-Dname=a b")])),
        ("data_sharing", s("full")),
        ("region", s("europe")),
        ("proxy_path", s("/opt/ij-zed-proxy")),
    ]);
    let c = LaunchConfig::from_settings(Some(&settings));
    assert!(c.accept_eula);
    assert_eq!(c.jvm_args, vec!["-Xmx4g".to_string(), "-Dname=a b".to_string()]);
    assert_eq!(c.data_sharing.as_deref(), Some("full"));
    assert_eq!(c.region.as_deref(), Some("europe"));
    assert_eq!(c.proxy_path.as_deref(), Some("/opt/ij-zed-proxy"));
    assert_eq!(
        c.launch_env(),
        vec![
            ("IJ_JAVA_OPTIONS".to_string(), "-Xmx4g \"-Dname=a b\"".to_string()),
            ("INTELLIJ_DATA_SHARING".to_string(), "full".to_string()),
            ("INTELLIJ_REGION".to_string(), "europe".to_string()),
        ]
    );
}

#[test]
fn rejects_unknown_values() {
    let settings = obj(vec![
        ("accept_jetbrains_eula", s("yes")),
        ("data_sharing", s("none")),
        ("region", s("mars")),
        ("proxy_path", s(" \t\u{3000}")),
        ("jvm_args", s("-Xmx1g")),
    ]);
    let c = LaunchConfig::from_settings(Some(&settings));
    assert!(!c.accept_eula);
    assert_eq!(c.data_sharing, None);
    assert_eq!(c.region, None);
    assert_eq!(c.proxy_path, None);
    assert!(c.jvm_args.is_empty());
}

#[test]
fn every_region_is_accepted() {
    for r in ["africa", "americas", "apac", "china", "europe", "middle_east", "oceania"] {
        let settings = obj(vec![("region", s(r))]);
        assert_eq!(LaunchConfig::from_settings(Some(&settings)).region.as_deref(), Some(r));
    }
}

#[test]
fn shell_quoting() {
    assert_eq!(shell_quote_if_needed("-Xmx4g"), "-Xmx4g");
    assert_eq!(shell_quote_if_needed("-Da=b:c/d@e"), "-Da=b:c/d@e");
    assert_eq!(shell_quote_if_needed("a b"), "\"a b\"");
    assert_eq!(shell_quote_if_needed("$HOME\"`\\"), "\"\\$HOME\\\"\\`\\\\\"");
    assert_eq!(shell_quote_if_needed(""), "");
}
