use std::path::{Component as StdComponent, Path};

use ikigai_core::Capability;
use ikigai_fs::acl::{cap_action, cap_allows, scopes_allow};
use ikigai_fs::browser::{key, read_item, write_item};
use ikigai_fs::error::{deny, FsError};
use ikigai_fs::kernel::Verb;
use ikigai_fs::path::{components, extension, join, parent_of, path_within, Component};
use ikigai_fs::representation::{ack, media_type_for, source_type};
use ikigai_fs::FileEndpoint;

/// Path texts with every kind of oddity.
fn samples() -> Vec<&'static str> {
    vec![
        "", ".", "..", "/", "//", "/.", "/..", "./", "./.", "././a", "a", "a/", "a//b", "a/./b",
        "a/.", "a/..", "a/../b", "/a", "//a", "/a/b", "/a/bc", "/a/b/", "/a/b/.", "/a/b/c.txt",
        ".a", "a.", "..a", "...", "a/...", "a/.b", ".txt", "x.tar.gz", "a.b/c", "é/ü.md", "/é",
        "a/b.txt/", "a/b.txt/.", "a/b.txt/..", " ", "a b/c d.html", "a\\b", "C:/x", "-/a",
        "a\\..\\b", "C:\\x", "\\a", "..\\a",
    ]
}

fn std_components(text: &str) -> Vec<Component> {
    Path::new(text)
        .components()
        .map(|c| match c {
            StdComponent::RootDir => Component::RootDir,
            StdComponent::CurDir => Component::CurDir,
            StdComponent::ParentDir => Component::ParentDir,
            StdComponent::Normal(name) => Component::Normal(name.to_str().unwrap().to_string()),
            StdComponent::Prefix(_) => panic!("no prefixes on this host"),
        })
        .collect()
}

#[test]
fn components_are_those_of_the_host() {
    for text in samples() {
        assert_eq!(components(text), std_components(text), "{:?}", text);
    }
}

#[test]
fn containment_is_that_of_the_host() {
    for dir in samples() {
        for target in samples() {
            let expected = Path::new(target) == Path::new(dir) || Path::new(target).starts_with(dir);
            assert_eq!(path_within(dir, target), expected, "{:?} {:?}", dir, target);
        }
    }
}

#[test]
fn joining_is_that_of_the_host() {
    for base in samples() {
        for rel in samples() {
            let expected = Path::new(base).join(rel);
            assert_eq!(join(base, rel), expected.to_str().unwrap(), "{:?} {:?}", base, rel);
        }
    }
}

#[test]
fn extensions_are_those_of_the_host() {
    for text in samples() {
        let expected = Path::new(text)
            .extension()
            .map(|tail| tail.to_str().unwrap().to_string());
        assert_eq!(extension(text), expected, "{:?}", text);
    }
    assert_eq!(extension("a/b.tar.gz"), Some("gz".to_string()));
    assert_eq!(extension(".hidden"), None);
}

#[test]
fn containment_is_component_wise() {
    assert!(path_within("/a/b", "/a/b"));
    assert!(path_within("/a/b", "/a/b/c"));
    assert!(!path_within("/a/bc", "/a/b"));
    assert!(!path_within("/a/b", "/a/bc"));
    assert!(path_within("/a", "/a/b") && path_within("/a/b", "/a/b/c") && path_within("/a", "/a/b/c"));
}

#[test]
fn what_the_jail_accepts_stays_under_the_base() {
    for base in ["/ws", "/ws/", "/", ".", "rel/dir"] {
        for rel in samples() {
            let list = components(rel);
            if list.contains(&Component::RootDir) || list.contains(&Component::ParentDir) {
                continue;
            }
            assert!(path_within(base, &join(base, rel)), "{:?} {:?}", base, rel);
        }
    }
}

#[test]
fn verbs_need_their_actions() {
    assert_eq!(cap_action(Verb::Source), Some("read"));
    assert_eq!(cap_action(Verb::Exists), Some("read"));
    assert_eq!(cap_action(Verb::Sink), Some("write"));
    assert_eq!(cap_action(Verb::Delete), Some("delete"));
    assert_eq!(cap_action(Verb::Meta), None);
}

fn list(scopes: &[&str]) -> Vec<String> {
    scopes.iter().map(|s| s.to_string()).collect()
}

#[test]
fn no_rule_means_no() {
    assert!(!scopes_allow(&list(&[]), "read", "/ws/a"));
    assert!(!scopes_allow(&list(&["urn:cap:fs:read:/other"]), "read", "/ws/a"));
    assert!(!scopes_allow(&list(&["urn:cap:net:read:/ws"]), "read", "/ws/a"));
    assert!(!scopes_allow(&list(&["urn:cap:fs:read"]), "read", "/ws/a"));
}

#[test]
fn an_allowlist_grants_its_subtree_only() {
    let scopes = list(&["urn:cap:fs:read:/ws/public"]);
    assert!(scopes_allow(&scopes, "read", "/ws/public"));
    assert!(scopes_allow(&scopes, "read", "/ws/public/x"));
    assert!(!scopes_allow(&scopes, "read", "/ws/x"));
    assert!(!scopes_allow(&scopes, "read", "/ws/publicity"));
}

#[test]
fn a_deny_breaks_ties_in_either_order() {
    for scopes in [
        list(&["urn:cap:fs:read:/ws", "urn:cap:fs:read:-/ws"]),
        list(&["urn:cap:fs:read:-/ws", "urn:cap:fs:read:/ws"]),
        list(&["urn:cap:fs:read:/ws", "urn:cap:fs:read:-/ws", "urn:cap:fs:read:/ws"]),
    ] {
        assert!(!scopes_allow(&scopes, "read", "/ws/a"));
    }
}

#[test]
fn the_longest_rule_decides_in_any_order() {
    let rules = [
        "urn:cap:fs:read:/ws",
        "urn:cap:fs:read:-/ws/secret",
        "urn:cap:fs:read:/ws/secret/shared",
    ];
    for order in [[0, 1, 2], [0, 2, 1], [1, 0, 2], [1, 2, 0], [2, 0, 1], [2, 1, 0]] {
        let scopes = list(&[rules[order[0]], rules[order[1]], rules[order[2]]]);
        assert!(scopes_allow(&scopes, "read", "/ws/open"));
        assert!(!scopes_allow(&scopes, "read", "/ws/secret/k"));
        assert!(scopes_allow(&scopes, "read", "/ws/secret/shared/k"));
    }
}

#[test]
fn the_spelling_of_a_directory_makes_no_difference() {
    for allow in ["/ws/secret", "/ws/secret/", "/ws//secret", "/ws/./secret", "/ws/secret/."] {
        let scopes = list(&[
            "urn:cap:fs:read:-/ws/secret",
            &format!("urn:cap:fs:read:{}", allow),
        ]);
        assert!(!scopes_allow(&scopes, "read", "/ws/secret/k.txt"), "{}", allow);
        let capability = Capability::scoped(scopes);
        assert!(!cap_allows(&capability, "read", "/ws/secret/k.txt"), "{}", allow);
    }
    // A long spelling of a directory further up does not outrank the excluded subtree.
    let scopes = list(&["urn:cap:fs:read:/ws//////////", "urn:cap:fs:read:-/ws/s"]);
    assert!(!scopes_allow(&scopes, "read", "/ws/s/k"));
    assert!(scopes_allow(&scopes, "read", "/ws/t/k"));
    // Neither do characters of more than one byte.
    let scopes = list(&["urn:cap:fs:read:-/\u{e9}", "urn:cap:fs:read:/\u{e9}/x"]);
    assert!(scopes_allow(&scopes, "read", "/\u{e9}/x"));
    assert!(!scopes_allow(&scopes, "read", "/\u{e9}/y"));
}

#[test]
fn the_jail_refuses_what_the_host_calls_absolute_or_parent() {
    let ep = FileEndpoint::new("/ws".to_string());
    for text in samples() {
        let mut expected = Ok(Path::new("/ws").join(text).to_str().unwrap().to_string());
        for component in Path::new(text).components() {
            match component {
                StdComponent::Normal(_) | StdComponent::CurDir => {}
                StdComponent::ParentDir => {
                    expected = Err(deny("parent-directory (`..`) segments are not allowed"));
                    break;
                }
                StdComponent::RootDir | StdComponent::Prefix(_) => {
                    expected = Err(deny("absolute paths are not allowed"));
                    break;
                }
            }
        }
        assert_eq!(ep.resolve_within_root(text), expected, "{:?}", text);
    }
}

#[test]
fn one_more_rule_only_does_what_it_says() {
    let allow = "urn:cap:fs:read:/ws";
    let deny = "urn:cap:fs:read:-/ws/s";
    for target in ["/ws", "/ws/a", "/ws/s", "/ws/s/k", "/x"] {
        let before = scopes_allow(&list(&[allow]), "read", target);
        let denied = scopes_allow(&list(&[allow, deny]), "read", target);
        assert!(before || !denied, "{}", target);
        for more in ["urn:cap:fs:read:/ws/s", "urn:cap:fs:read:/ws/s/k", "urn:cap:fs:read:/x"] {
            let opened = scopes_allow(&list(&[allow, deny, more]), "read", target);
            assert!(opened || !denied, "{} {}", target, more);
        }
    }
}

#[test]
fn parents_are_those_of_the_host() {
    for text in samples() {
        let expected = Path::new(text)
            .parent()
            .map(|up| up.to_str().unwrap().to_string());
        assert_eq!(parent_of(text), expected, "{:?}", text);
    }
}

#[test]
fn a_rule_without_a_directory_is_for_every_path() {
    assert!(scopes_allow(&list(&["urn:cap:fs:read:"]), "read", "/ws/a"));
    assert!(!scopes_allow(&list(&["urn:cap:fs:read:-"]), "read", "/ws/a"));
}

#[test]
fn actions_are_separate() {
    let scopes = list(&["urn:cap:fs:read:/ws"]);
    assert!(scopes_allow(&scopes, "read", "/ws/a"));
    assert!(!scopes_allow(&scopes, "write", "/ws/a"));
    assert!(!scopes_allow(&scopes, "delete", "/ws/a"));
    let mixed = list(&["urn:cap:fs:read:/ws", "urn:cap:fs:write:-/ws/a"]);
    assert!(scopes_allow(&mixed, "read", "/ws/a"));
}

#[test]
fn capabilities_are_asked_for_their_scopes() {
    assert!(cap_allows(&Capability::root(), "write", "/anywhere"));
    let none: [&str; 0] = [];
    assert!(!cap_allows(&Capability::scoped(none), "read", "/ws"));
    let some = Capability::scoped(["urn:cap:fs:read:/ws", "urn:cap:fs:read:-/ws/x"]);
    assert!(cap_allows(&some, "read", "/ws/a"));
    assert!(!cap_allows(&some, "read", "/ws/x/a"));
    assert!(!cap_allows(&some, "write", "/ws/a"));
}

#[test]
fn known_extensions_have_media_types() {
    let cases = [
        ("a.txt", "text/plain"),
        ("a.md", "text/markdown"),
        ("a.ttl", "text/turtle"),
        ("a.nt", "application/n-triples"),
        ("a.json", "application/json"),
        ("a.jsonld", "application/ld+json"),
        ("a.html", "text/html"),
        ("a.TXT", "application/octet-stream"),
        ("a.bin", "application/octet-stream"),
        ("a", "application/octet-stream"),
        (".txt", "application/octet-stream"),
        ("d.txt/a", "application/octet-stream"),
    ];
    for (path, media_type) in cases {
        assert_eq!(media_type_for(path).canonical(), media_type, "{}", path);
    }
}

#[test]
fn the_type_of_a_read_follows_request_extension_and_bytes() {
    assert_eq!(source_type("a.md", b"x", Some("x/y")).canonical(), "x/y");
    assert_eq!(source_type("a.md", &[0xff], None).canonical(), "text/markdown");
    assert_eq!(source_type("a", b"x", None).canonical(), "text/plain;charset=utf-8");
    assert_eq!(source_type("a", b"", None).canonical(), "text/plain;charset=utf-8");
    assert_eq!(source_type("a", &[0xff], None).canonical(), "application/octet-stream");
    assert_eq!(source_type("a", &[0xc0, 0x80], None).canonical(), "application/octet-stream");
}

#[test]
fn acknowledgements_hold_their_message() {
    let rep = ack("héllo".to_string());
    assert_eq!(rep.bytes, "héllo".as_bytes());
    assert_eq!(rep.repr_type.canonical(), "text/plain;charset=utf-8");
}

#[test]
fn denials_blame_the_path() {
    assert_eq!(
        deny("why"),
        FsError::InvalidArgument {
            name: "path".to_string(),
            detail: "why".to_string(),
        }
    );
}

#[test]
fn browser_items_are_namespaced_text() {
    assert_eq!(key("/ws/a"), "ikigai:fs:/ws/a");
    assert_ne!(key("/ws/a"), key("/ws/b"));
    assert_eq!(
        write_item("/ws/a", "grüß".as_bytes()).unwrap(),
        "grüß".to_string()
    );
    assert_eq!(
        read_item("/ws/a", Some(write_item("/ws/a", "grüß".as_bytes()).unwrap())).unwrap(),
        "grüß".as_bytes()
    );
    assert_eq!(
        write_item("/ws/a", &[0xff]).unwrap_err(),
        FsError::Endpoint(
            "write /ws/a: the localStorage backend stores UTF-8 text (binary needs base64)"
                .to_string()
        )
    );
    assert_eq!(
        read_item("/ws/a", None).unwrap_err(),
        FsError::Endpoint("read /ws/a: no such item".to_string())
    );
}
