use zed_intellij::json::Json;
use zed_intellij::rewrite::{
    cache_path, cache_path_is_defined, command_link_targets, hover_link_targets, location_targets,
    rewrite_command_links, rewrite_hover, rewrite_locations, sanitize,
};
use zed_intellij::uri::{file_uri, percent_decode, percent_decode_is_defined, percent_encode_path};

fn s(x: &str) -> Json {
    Json::Str(x.to_string())
}

fn obj(members: Vec<(&str, Json)>) -> Json {
    Json::Object(members.into_iter().map(|(k, v)| (k.to_string(), v)).collect())
}

fn member<'a>(v: &'a Json, key: &str) -> &'a Json {
    v.get(key).expect("member")
}

fn fake_materialize(uri: &str) -> Option<String> {
    Some(format!(
        "file:///cache/{}",
        uri.rsplit('/').next().unwrap().replace(".class", ".java")
    ))
}

fn resolve_all(targets: Vec<String>, f: &dyn Fn(&str) -> Option<String>) -> Vec<(String, String)> {
    targets.into_iter().filter_map(|u| f(&u).map(|file| (u, file))).collect()
}

#[test]
fn cache_path_layout() {
    let uri = "jrt:///opt/jbr/Contents/Home!/modules/java.base/java/util/List.class";
    assert!(cache_path_is_defined(uri));
    let s = cache_path("/cache", uri, "java");
    assert!(s.starts_with("/cache/modules/java.base/java/util/"), "{s}");
    assert!(s.contains("List-"), "{s}");
    assert!(s.ends_with(".java"), "{s}");
}

#[test]
fn cache_path_kotlin_and_plain_uri() {
    let p = cache_path("/c", "jar:///a/b.jar!/com/x/Foo.class", "kotlin");
    assert!(p.starts_with("/c/com/x/Foo-"), "{p}");
    assert!(p.ends_with(".kt"), "{p}");
    // 8 hex digits between the stem and the extension
    let hash = &p["/c/com/x/Foo-".len()..p.len() - ".kt".len()];
    assert_eq!(hash.len(), 8);
    assert!(hash.chars().all(|c| c.is_ascii_hexdigit() && !c.is_ascii_uppercase()));
    let q = cache_path("/c", "jar:///a/b.jar!/com/x/Foo.class", "kotlin");
    assert_eq!(p, q);
    let empty = cache_path("/c", "jrt://", "java");
    assert!(empty.starts_with("/c/decompiled-"), "{empty}");
}

#[test]
fn cache_path_rejects_split_escapes() {
    assert!(!cache_path_is_defined("jar:///x!/%aé"));
    assert!(cache_path_is_defined("jar:///x!/a%20b"));
}

#[test]
fn sanitize_replaces_unsafe_characters() {
    assert_eq!(sanitize("a b/c$d.e_f-g"), "a_b_c_d.e_f-g");
    assert_eq!(sanitize("é"), "_");
}

#[test]
fn percent_coding() {
    assert_eq!(percent_decode("a%20b%2Fc"), "a b/c");
    assert_eq!(percent_decode("100%"), "100%");
    assert_eq!(percent_decode("%zz"), "%zz");
    assert_eq!(percent_decode("%E2%82%AC"), "€");
    assert_eq!(percent_decode("%FF"), "\u{FFFD}");
    assert!(percent_decode_is_defined("plain"));
    assert!(!percent_decode_is_defined("%aé"));
    assert!(percent_decode_is_defined("%é"));
    assert_eq!(percent_encode_path("a b€"), "a%20b%E2%82%AC");
    let text = "dir with spaces/ünïcode?#";
    assert_eq!(percent_decode(&percent_encode_path(text)), text);
}

#[test]
fn file_uri_encodes_each_component() {
    assert_eq!(file_uri("/home/u/My Project"), "file:///home/u/My%20Project");
    assert_eq!(file_uri("//a//b/"), "file:///a/b");
    assert_eq!(file_uri(""), "file://");
}

#[test]
fn rewrites_location_and_location_link() {
    let mut def = obj(vec![("uri", s("jrt:///x!/modules/java.base/List.class")), ("range", obj(vec![]))]);
    let resolved = resolve_all(location_targets(&def), &fake_materialize);
    assert!(rewrite_locations(&mut def, &resolved));
    assert_eq!(member(&def, "uri"), &s("file:///cache/List.java"));

    let mut link = Json::Array(vec![obj(vec![
        ("targetUri", s("jar:///x.jar!/com/Bar.class")),
        ("targetRange", obj(vec![])),
    ])]);
    let resolved = resolve_all(location_targets(&link), &fake_materialize);
    assert!(rewrite_locations(&mut link, &resolved));
    match &link {
        Json::Array(items) => assert_eq!(member(&items[0], "targetUri"), &s("file:///cache/Bar.java")),
        _ => panic!("not an array"),
    }

    let mut plain = obj(vec![("uri", s("file:///src/Main.java"))]);
    let resolved = resolve_all(location_targets(&plain), &|_| None);
    assert!(!rewrite_locations(&mut plain, &resolved));
}

#[test]
fn rewrites_inlay_hint_label_parts() {
    let mut hint = obj(vec![
        ("position", obj(vec![])),
        (
            "label",
            Json::Array(vec![obj(vec![
                ("value", s("List")),
                ("location", obj(vec![("uri", s("jrt:///x!/List.class")), ("range", obj(vec![]))])),
            ])]),
        ),
    ]);
    let resolved = resolve_all(location_targets(&hint), &fake_materialize);
    assert!(rewrite_locations(&mut hint, &resolved));
    match member(&hint, "label") {
        Json::Array(items) => {
            assert_eq!(member(member(&items[0], "location"), "uri"), &s("file:///cache/List.java"))
        }
        _ => panic!("not an array"),
    }
}

#[test]
fn unresolved_locations_stay() {
    let mut def = obj(vec![("uri", s("jar:///x.jar!/A.class"))]);
    let before = def.deep_clone();
    assert!(!rewrite_locations(&mut def, &vec![]));
    assert_eq!(def, before);
    assert_eq!(location_targets(&def), vec!["jar:///x.jar!/A.class".to_string()]);
}

fn encode_args(args: &str) -> String {
    args.chars()
        .map(|c| {
            if c.is_ascii_alphanumeric() || "-._~".contains(c) {
                c.to_string()
            } else {
                format!("%{:02X}", c as u32)
            }
        })
        .collect()
}

#[test]
fn rewrites_hover_command_links() {
    let args = r#"["jrt:///x!/List.class",41,7]"#;
    let encoded = encode_args(args);
    let md = format!("[Go to declaration](command:jetbrains.navigateToLocation?{encoded})");
    let resolved = resolve_all(command_link_targets(&md), &fake_materialize);
    let out = rewrite_command_links(&md, &resolved);
    assert_eq!(out, "[Go to declaration](file:///cache/List.java#L42)");
}

#[test]
fn command_links_that_cannot_resolve_stay() {
    let md = format!(
        "see [a](command:jetbrains.navigateToLocation?{}) and [b](command:jetbrains.navigateToLocation?{})",
        encode_args(r#"["file:///src/A.java",1]"#),
        encode_args(r#"["jar:///x!/B.class"]"#),
    );
    assert_eq!(command_link_targets(&md), vec!["jar:///x!/B.class".to_string()]);
    assert_eq!(rewrite_command_links(&md, &vec![]), md);
    let resolved = vec![("jar:///x!/B.class".to_string(), "file:///c/B.java".to_string())];
    let out = rewrite_command_links(&md, &resolved);
    assert!(out.ends_with("[b](file:///c/B.java#L1)"), "{out}");
    assert!(out.contains("navigateToLocation?"), "{out}");
}

#[test]
fn rewrites_hover_markup_and_marked_strings() {
    let link = format!("[x](command:jetbrains.navigateToLocation?{})", encode_args(r#"["jrt:///x!/List.class",0]"#));
    let mut hover = obj(vec![("contents", obj(vec![("kind", s("markdown")), ("value", s(&link))]))]);
    let resolved = resolve_all(hover_link_targets(&hover), &fake_materialize);
    assert_eq!(resolved.len(), 1);
    assert!(rewrite_hover(&mut hover, &resolved));
    assert_eq!(member(member(&hover, "contents"), "value"), &s("[x](file:///cache/List.java#L1)"));

    let mut marked = obj(vec![(
        "contents",
        Json::Array(vec![s(&link), obj(vec![("language", s("java")), ("value", s("int x;"))])]),
    )]);
    assert!(rewrite_hover(&mut marked, &resolved));
    match member(&marked, "contents") {
        Json::Array(items) => {
            assert_eq!(items[0], s("[x](file:///cache/List.java#L1)"));
            assert_eq!(member(&items[1], "value"), &s("int x;"));
        }
        _ => panic!("not an array"),
    }
    let mut none = obj(vec![("contents", s("plain text"))]);
    assert!(!rewrite_hover(&mut none, &resolved));
}

#[test]
fn cache_path_language_picks_extension_only() {
    let uri = "jar:///a/b.jar!/com/x/Foo.class";
    let java = cache_path("/c", uri, "java");
    let kotlin = cache_path("/c", uri, "kotlin");
    let other = cache_path("/c", uri, "scala");
    assert_eq!(java.strip_suffix(".java"), kotlin.strip_suffix(".kt"));
    assert_eq!(java.strip_suffix(".java"), other.strip_suffix(".java"));
    assert_ne!(java, kotlin);
}

#[test]
fn own_location_comes_before_nested_ones() {
    let v = obj(vec![("x", obj(vec![("uri", s("jar:///B"))])), ("uri", s("jar:///A"))]);
    assert_eq!(location_targets(&v), vec!["jar:///A".to_string(), "jar:///B".to_string()]);
    let link = obj(vec![("targetUri", s("jar:///T")), ("inner", obj(vec![("targetUri", s("jar:///U"))]))]);
    assert_eq!(location_targets(&link), vec!["jar:///T".to_string(), "jar:///U".to_string()]);
}
