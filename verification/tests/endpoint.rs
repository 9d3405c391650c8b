use std::collections::BTreeMap;
use std::sync::{Arc, Mutex};

use futures::executor::block_on;
use ikigai_core::{
    ArgRef, Bindings, Capability, EndpointSpace, Error, Expiry, FnEndpoint, Grammar, Invocation,
    Iri, Kernel, Representation, Request, Thread, Verb,
};
use ikigai_fs::{
    backend_error, confirm_containment, delete_reply, exists_reply, file_template, known_root,
    search_from, search_step, write_reply, BackendStep, FileEndpoint, Finding, FsError, Location,
    Operation, Outcome, Place, Search, FILE_TEMPLATE, LINK_LIMIT,
};
use ikigai_fs::kernel::Verb as PlainVerb;

const ROOT: &str = "/ws";

/// A store of files by path.
struct Store(Mutex<BTreeMap<String, Vec<u8>>>);

impl Store {
    fn new(files: &[(&str, &[u8])]) -> Store {
        Store(Mutex::new(
            files
                .iter()
                .map(|(path, bytes)| (path.to_string(), bytes.to_vec()))
                .collect(),
        ))
    }

    fn get(&self, path: &str) -> Option<Vec<u8>> {
        self.0.lock().unwrap().get(path).cloned()
    }

    /// There are no links: the root and every file are their own canonical forms.
    fn find(&self, path: &str) -> Finding {
        if path == ROOT || self.get(path).is_some() {
            Finding::Canonical(path.to_string())
        } else {
            Finding::Absent
        }
    }

    fn nearest(&self, start: Place) -> Option<String> {
        let mut place = start;
        loop {
            match search_step(&place, self.find(&place.path)) {
                Search::Ended(found) => return found,
                Search::LookUp(onward) => place = onward,
            }
        }
    }

    fn perform(&self, operation: &Operation) -> Result<Outcome, FsError> {
        let mut files = self.0.lock().unwrap();
        match operation {
            Operation::Read(at) => match files.get(&at.target) {
                Some(bytes) => Ok(Outcome::Bytes(bytes.clone())),
                None => Err(backend_error(BackendStep::Read, &at.target, "not found")),
            },
            Operation::Write(at, bytes) => {
                files.insert(at.target.clone(), bytes.clone());
                Ok(Outcome::Written)
            }
            Operation::Exists(at) => Ok(Outcome::Present(files.contains_key(&at.target))),
            Operation::Delete(at) => match files.remove(&at.target) {
                Some(_) => Ok(Outcome::Deleted),
                None => Err(backend_error(BackendStep::Delete, &at.target, "not found")),
            },
        }
    }
}

/// Serve an invocation from a store.
fn serve(ep: &FileEndpoint, inv: &Invocation<'_>, store: &Store) -> Result<Representation, FsError> {
    let start = ep.search(inv)?;
    let root = known_root(store.find(ep.root()))?;
    let nearest = store.nearest(start);
    let operation = ep.authorize(inv, root.as_deref(), nearest.as_deref())?;
    let outcome = store.perform(&operation)?;
    Ok(ep.answer(inv, &operation, outcome).unwrap())
}

fn endpoint() -> FileEndpoint {
    FileEndpoint::new(ROOT.to_string())
}

fn request(verb: Verb, args: &[(&str, &[u8])]) -> Request {
    let mut req = Request::new(verb, Iri::parse("urn:file:default").unwrap());
    for (name, value) in args {
        req = req.with_arg(*name, ArgRef::Inline(value.to_vec()));
    }
    req
}

fn bound(path: &str) -> Bindings {
    let mut bindings = Bindings::new();
    bindings.insert("path", path);
    bindings
}

/// Invoke a verb with the given `path` binding under `cap`, optionally with arguments.
fn invoke(
    ep: &FileEndpoint,
    store: &Store,
    verb: Verb,
    path: &str,
    cap: &Capability,
    args: &[(&str, &[u8])],
) -> Result<Representation, FsError> {
    let req = request(verb, args);
    let bindings = bound(path);
    serve(ep, &Invocation::detached(&req, &bindings, cap), store)
}

fn cap(scopes: &[&str]) -> Capability {
    Capability::scoped(scopes.iter().map(|s| s.to_string()))
}

fn to_kernel(error: FsError) -> Error {
    match error {
        FsError::MissingArgument(name) => Error::MissingArgument(name),
        FsError::InvalidArgument { name, detail } => Error::InvalidArgument { name, detail },
        FsError::Endpoint(message) => Error::Endpoint(message),
    }
}

fn kernel_over(ep: FileEndpoint, store: Arc<Store>) -> Kernel {
    let hosted = FnEndpoint::new("file", move |inv: &Invocation<'_>| {
        serve(&ep, inv, &store).map_err(to_kernel)
    });
    Kernel::new(Arc::new(
        EndpointSpace::new().bind(file_template().unwrap(), hosted),
    ))
}

#[test]
fn root_capability_reads_a_text_file_as_a_string() {
    let store = Store::new(&[("/ws/hello.txt", b"hi there")]);
    let rep = invoke(
        &endpoint(),
        &store,
        Verb::Source,
        "hello.txt",
        &Capability::root(),
        &[],
    )
    .unwrap();
    assert_eq!(rep.repr_type.media_type, "text/plain");
    assert_eq!(rep.bytes, b"hi there");
}

#[test]
fn extensionless_utf8_defaults_to_a_string() {
    let store = Store::new(&[("/ws/note", b"plain words")]);
    let rep = invoke(&endpoint(), &store, Verb::Source, "note", &Capability::root(), &[]).unwrap();
    assert_eq!(rep.repr_type.media_type, "text/plain");
    assert_eq!(rep.repr_type.canonical(), "text/plain;charset=utf-8");
}

#[test]
fn as_octet_stream_forces_raw_bytes() {
    let store = Store::new(&[("/ws/hello.txt", b"hi")]);
    let rep = invoke(
        &endpoint(),
        &store,
        Verb::Source,
        "hello.txt",
        &Capability::root(),
        &[("as", b"application/octet-stream")],
    )
    .unwrap();
    assert_eq!(rep.repr_type.media_type, "application/octet-stream");
}

#[test]
fn read_capability_grants_reads_within_the_root() {
    let store = Store::new(&[("/ws/ok.txt", b"yes")]);
    let c = cap(&["urn:cap:fs:read:/ws"]);
    let rep = invoke(&endpoint(), &store, Verb::Source, "ok.txt", &c, &[]).unwrap();
    assert_eq!(rep.bytes, b"yes");
}

#[test]
fn an_empty_capability_is_denied() {
    let store = Store::new(&[("/ws/ok.txt", b"yes")]);
    let err = invoke(&endpoint(), &store, Verb::Source, "ok.txt", &cap(&[]), &[]).unwrap_err();
    assert!(matches!(err, FsError::Endpoint(_)));
    assert_eq!(
        err,
        FsError::Endpoint("capability does not grant `read` on `ok.txt`".to_string())
    );
}

#[test]
fn read_capability_does_not_grant_writes() {
    let store = Store::new(&[]);
    let c = cap(&["urn:cap:fs:read:/ws"]);
    let err = invoke(
        &endpoint(),
        &store,
        Verb::Sink,
        "new.txt",
        &c,
        &[("content", b"x")],
    )
    .unwrap_err();
    assert!(matches!(err, FsError::Endpoint(_)));
    assert!(store.get("/ws/new.txt").is_none());
}

#[test]
fn write_capability_sinks_and_then_sources_back() {
    let store = Store::new(&[]);
    let ep = endpoint();
    let c = cap(&["urn:cap:fs:read:/ws", "urn:cap:fs:write:/ws"]);
    let written = invoke(
        &ep,
        &store,
        Verb::Sink,
        "notes.txt",
        &c,
        &[("content", b"remember this")],
    )
    .unwrap();
    assert_eq!(written.bytes, b"wrote 13 bytes to notes.txt");
    let rep = invoke(&ep, &store, Verb::Source, "notes.txt", &c, &[]).unwrap();
    assert_eq!(rep.bytes, b"remember this");
}

#[test]
fn exclusion_denies_a_subtree_while_the_parent_is_granted() {
    let store = Store::new(&[("/ws/open.txt", b"public"), ("/ws/secret/k.txt", b"private")]);
    let ep = endpoint();
    let c = cap(&["urn:cap:fs:read:/ws", "urn:cap:fs:read:-/ws/secret"]);
    assert!(invoke(&ep, &store, Verb::Source, "open.txt", &c, &[]).is_ok());
    assert!(invoke(&ep, &store, Verb::Source, "secret/k.txt", &c, &[]).is_err());
}

#[test]
fn longer_allow_reopens_an_excluded_subtree() {
    let store = Store::new(&[
        ("/ws/secret/shared/ok.txt", b"reshared"),
        ("/ws/secret/k.txt", b"private"),
    ]);
    let ep = endpoint();
    let c = cap(&[
        "urn:cap:fs:read:/ws",
        "urn:cap:fs:read:-/ws/secret",
        "urn:cap:fs:read:/ws/secret/shared",
    ]);
    assert!(invoke(&ep, &store, Verb::Source, "secret/k.txt", &c, &[]).is_err());
    assert!(invoke(&ep, &store, Verb::Source, "secret/shared/ok.txt", &c, &[]).is_ok());
}

#[test]
fn the_jail_rejects_traversal_before_the_capability() {
    let store = Store::new(&[]);
    for c in [Capability::root(), cap(&[])] {
        let err = invoke(&endpoint(), &store, Verb::Source, "../escape", &c, &[]).unwrap_err();
        assert!(matches!(err, FsError::InvalidArgument { .. }));
        assert_eq!(
            err,
            FsError::InvalidArgument {
                name: "path".to_string(),
                detail: "parent-directory (`..`) segments are not allowed".to_string(),
            }
        );
    }
}

#[test]
fn exists_and_delete_are_capability_gated() {
    let store = Store::new(&[("/ws/gone.txt", b"x")]);
    let ep = endpoint();
    let read_only = cap(&["urn:cap:fs:read:/ws"]);
    assert_eq!(
        invoke(&ep, &store, Verb::Exists, "gone.txt", &read_only, &[])
            .unwrap()
            .bytes,
        b"true"
    );
    assert!(invoke(&ep, &store, Verb::Delete, "gone.txt", &read_only, &[]).is_err());
    assert!(store.get("/ws/gone.txt").is_some());
    let deleter = cap(&["urn:cap:fs:delete:/ws"]);
    let reply = invoke(&ep, &store, Verb::Delete, "gone.txt", &deleter, &[]).unwrap();
    assert_eq!(reply.bytes, b"deleted gone.txt");
    assert!(store.get("/ws/gone.txt").is_none());
    assert_eq!(
        invoke(&ep, &store, Verb::Exists, "gone.txt", &read_only, &[])
            .unwrap()
            .bytes,
        b"false"
    );
}

#[test]
fn space_mounts_the_grammar_and_resolves_a_path() {
    let store = Arc::new(Store::new(&[("/ws/page.txt", b"hello from a space")]));
    let kernel = kernel_over(endpoint(), store);
    let rep = block_on(kernel.issue(
        Request::new(Verb::Source, Iri::parse("urn:file:page.txt").unwrap()),
        &Capability::root(),
    ))
    .unwrap();
    assert_eq!(rep.bytes, b"hello from a space");
}

#[test]
fn default_space_does_not_cache_reads() {
    let store = Arc::new(Store::new(&[("/ws/live.txt", b"x")]));
    let kernel = kernel_over(endpoint(), store);
    let source = Request::new(Verb::Source, Iri::parse("urn:file:live.txt").unwrap());
    block_on(kernel.issue(source.clone(), &Capability::root())).unwrap();
    assert!(
        !kernel.is_cached(&source),
        "the default file mode is uncacheable (a live fact)"
    );
}

#[test]
fn cacheable_space_caches_reads_until_a_sink_cuts_them() {
    let store = Arc::new(Store::new(&[("/ws/notes.txt", b"v1")]));
    let kernel = kernel_over(endpoint().cacheable(), store);
    let cap = Capability::root();
    let source = || Request::new(Verb::Source, Iri::parse("urn:file:notes.txt").unwrap());

    assert_eq!(block_on(kernel.issue(source(), &cap)).unwrap().bytes, b"v1");
    assert!(kernel.is_cached(&source()), "cacheable source is cached");

    let sink = Request::new(Verb::Sink, Iri::parse("urn:file:notes.txt").unwrap())
        .with_arg("content", ArgRef::Inline(b"v2".to_vec()));
    block_on(kernel.issue(sink, &cap)).unwrap();
    assert!(
        !kernel.is_cached(&source()),
        "the write invalidated the cached read"
    );

    assert_eq!(block_on(kernel.issue(source(), &cap)).unwrap().bytes, b"v2");
}

#[test]
fn a_missing_path_binding_is_reported() {
    let req = request(Verb::Source, &[]);
    let none = Bindings::new();
    let root = Capability::root();
    let inv = Invocation::detached(&req, &none, &root);
    let expected = FsError::MissingArgument("path".to_string());
    assert_eq!(endpoint().locate(&inv).unwrap_err(), expected);
    assert_eq!(
        endpoint().authorize(&inv, None, None).unwrap_err(),
        expected
    );
}

#[test]
fn absolute_paths_are_refused() {
    for path in ["/etc/passwd", "/", "//x", "/.."] {
        assert_eq!(
            endpoint().resolve_within_root(path).unwrap_err(),
            FsError::InvalidArgument {
                name: "path".to_string(),
                detail: "absolute paths are not allowed".to_string(),
            }
        );
    }
}

#[test]
fn every_parent_segment_is_refused_and_lookalikes_are_not() {
    for path in ["..", "a/..", "a/../b", "./..", "a//..//b"] {
        assert!(endpoint().resolve_within_root(path).is_err(), "{}", path);
    }
    for path in ["...", "..a", "a..", "a/..b", "a/b..c", ". .", ""] {
        assert!(endpoint().resolve_within_root(path).is_ok(), "{}", path);
    }
}

#[test]
fn paths_resolve_under_the_root() {
    assert_eq!(endpoint().resolve_within_root("a/b").unwrap(), "/ws/a/b");
    assert_eq!(endpoint().resolve_within_root("./a").unwrap(), "/ws/./a");
    assert_eq!(endpoint().resolve_within_root("").unwrap(), "/ws/");
    let slash = FileEndpoint::new("/".to_string());
    assert_eq!(slash.resolve_within_root("a").unwrap(), "/a");
    let here = FileEndpoint::new(String::new());
    assert_eq!(here.resolve_within_root("a").unwrap(), "a");
    assert_eq!(here.root(), "");
}

#[test]
fn a_link_out_of_the_root_is_refused_whatever_the_capability() {
    let req = request(Verb::Source, &[]);
    let bindings = bound("link");
    let escape = FsError::Endpoint("resolved path escapes the endpoint root".to_string());
    for c in [Capability::root(), cap(&[])] {
        let inv = Invocation::detached(&req, &bindings, &c);
        let refused = endpoint().authorize(&inv, Some("/real/ws"), Some("/real/other"));
        assert_eq!(refused.unwrap_err(), escape);
    }
    assert!(confirm_containment(Some("/real/ws"), Some("/real/ws/x")));
    assert!(!confirm_containment(Some("/real/ws"), Some("/real/wsx")));
    assert!(!confirm_containment(Some("/real/ws"), None));
    assert!(confirm_containment(None, Some("/elsewhere")));
    assert!(confirm_containment(None, None));
}

/// What a host finds where `known` pairs paths with their canonical forms and `links` pairs links
/// through which nothing can be reached with what they say.
fn found_in(path: &str, known: &[(&str, &str)], links: &[(&str, &str)]) -> Finding {
    if let Some((_, canonical)) = known.iter().find(|(at, _)| *at == path) {
        return Finding::Canonical(canonical.to_string());
    }
    match links.iter().find(|(at, _)| *at == path) {
        Some((_, text)) => Finding::Link(Some(text.to_string())),
        None => Finding::Absent,
    }
}

fn nearest_of(
    verb: PlainVerb,
    path: &str,
    known: &[(&str, &str)],
    links: &[(&str, &str)],
) -> Option<String> {
    let mut place = search_from(verb, path.to_string());
    loop {
        match search_step(&place, found_in(&place.path, known, links)) {
            Search::Ended(end) => return end,
            Search::LookUp(onward) => place = onward,
        }
    }
}

fn escape() -> FsError {
    FsError::Endpoint("resolved path escapes the endpoint root".to_string())
}

#[test]
fn a_new_file_below_a_link_out_of_the_root_is_refused() {
    let ep = FileEndpoint::new("/r".to_string());
    let req = request(Verb::Sink, &[("content", b"x")]);
    let bindings = bound("link/new.txt");
    let cap = Capability::root();
    let inv = Invocation::detached(&req, &bindings, &cap);
    let target = ep.locate(&inv).unwrap().target;
    let write = PlainVerb::Sink;

    // A link to a directory outside.
    let known = [("/r", "/r"), ("/r/link", "/outside"), ("/", "/")];
    let nearest = nearest_of(write, &target, &known, &[]);
    assert_eq!(nearest.as_deref(), Some("/outside"));
    assert_eq!(
        ep.authorize(&inv, Some("/r"), nearest.as_deref()).unwrap_err(),
        escape()
    );
    // An ordinary new directory.
    let known = [("/r", "/r"), ("/", "/")];
    let nearest = nearest_of(write, &target, &known, &[]);
    assert_eq!(nearest.as_deref(), Some("/r"));
    assert!(ep.authorize(&inv, Some("/r"), nearest.as_deref()).is_ok());
    // A new file some directories down, none of which is there.
    let nearest = nearest_of(write, "/r/x/y/z.txt", &known, &[]);
    assert_eq!(nearest.as_deref(), Some("/r"));
    // A directory that is a link to nowhere: the store cannot make anything beyond it.
    let nearest = nearest_of(write, &target, &known, &[("/r/link", "/outside")]);
    assert_eq!(nearest.as_deref(), Some("/r"));
    // A root that is not there yet.
    assert!(ep.authorize(&inv, None, Some("/")).is_ok());
}

#[test]
fn dead_links_can_be_looked_at_and_removed() {
    let ep = FileEndpoint::new("/r".to_string());
    let none = || Err(FsError::MissingArgument("content".to_string()));
    let known = [("/r", "/r"), ("/", "/")];
    let at = || Location {
        rel: "l".to_string(),
        target: "/r/l".to_string(),
    };
    for text in ["inside", "/r/inside", "../outside", "/outside/x", "l"] {
        let links = [("/r/l", text)];
        for (verb, expected) in [
            (PlainVerb::Source, Operation::Read(at())),
            (PlainVerb::Exists, Operation::Exists(at())),
            (PlainVerb::Delete, Operation::Delete(at())),
        ] {
            let nearest = nearest_of(verb, "/r/l", &known, &links);
            assert_eq!(nearest.as_deref(), Some("/r"), "{}", text);
            assert_eq!(
                ep.decide(verb, Some("l"), None, none(), Some("/r"), nearest.as_deref()),
                Ok(expected),
                "{}",
                text
            );
        }
    }
}

#[test]
fn writes_go_through_links_within_the_root_only() {
    let ep = FileEndpoint::new("/r".to_string());
    let known = [
        ("/", "/"),
        ("/r", "/r"),
        ("/r/..", "/"),
        ("/r/../r", "/r"),
        ("/r/d", "/r/d"),
        ("/r/d/..", "/r"),
        ("/r/d/../..", "/"),
    ];
    let written = |links: &[(&str, &str)]| {
        let nearest = nearest_of(PlainVerb::Sink, "/r/l", &known, links);
        ep.decide(
            PlainVerb::Sink,
            Some("l"),
            None,
            Ok(vec![1]),
            Some("/r"),
            nearest.as_deref(),
        )
    };
    let allowed = || {
        Ok(Operation::Write(
            Location {
                rel: "l".to_string(),
                target: "/r/l".to_string(),
            },
            vec![1],
        ))
    };
    for text in ["new", "./new", "/r/new", "d/new", "d/../new", "/r/d/../new", "../r/new"] {
        assert_eq!(written(&[("/r/l", text)]), allowed(), "{}", text);
    }
    for text in ["/new", "../new", "d/../../new", "/x/y/new"] {
        assert_eq!(written(&[("/r/l", text)]), Err(escape()), "{}", text);
    }
    // From link to link.
    assert_eq!(written(&[("/r/l", "m"), ("/r/m", "d/new")]), allowed());
    assert_eq!(written(&[("/r/l", "m"), ("/r/m", "/new")]), Err(escape()));
    // In a circle: nothing can be written there, so the store is left to say so.
    assert_eq!(written(&[("/r/l", "m"), ("/r/m", "l")]), allowed());
    // A link that does not say in text where it leads.
    let place = search_from(PlainVerb::Sink, "/r/l".to_string());
    assert_eq!(search_step(&place, Finding::Link(None)), Search::Ended(None));
}

#[test]
fn the_root_is_known_by_what_is_found_there() {
    assert_eq!(
        known_root(Finding::Canonical("/r".to_string())),
        Ok(Some("/r".to_string()))
    );
    assert_eq!(known_root(Finding::Absent), Ok(None));
    assert_eq!(known_root(Finding::Link(Some("/x".to_string()))), Ok(None));
    assert_eq!(
        known_root(Finding::Unresolved),
        Err(FsError::Endpoint(
            "resolved path escapes the endpoint root".to_string()
        ))
    );
}

#[test]
fn the_search_goes_up_until_something_is_there() {
    let at = |path: &str, links: usize| Place {
        path: path.to_string(),
        links,
    };
    let up = |path: &str| search_step(&at(path, 3), Finding::Absent);
    assert_eq!(up("/r/a/b"), Search::LookUp(at("/r/a", 0)));
    assert_eq!(up("/r"), Search::LookUp(at("/", 0)));
    assert_eq!(up("/"), Search::Ended(None));
    assert_eq!(up("a"), Search::LookUp(at("", 0)));
    assert_eq!(up(""), Search::Ended(None));
    assert_eq!(search_step(&at("/r/a", 3), Finding::Unresolved), Search::Ended(None));
    assert_eq!(
        search_step(&at("/r/a", 0), Finding::Canonical("/x".to_string())),
        Search::Ended(Some("/x".to_string()))
    );
    let link = || Finding::Link(Some("b/c".to_string()));
    assert_eq!(search_step(&at("/r/a", 3), link()), Search::LookUp(at("/r/b/c", 2)));
    assert_eq!(search_step(&at("/r/a", 0), link()), Search::LookUp(at("/r", 0)));
    assert_eq!(search_step(&at("a", 1), link()), Search::LookUp(at("b/c", 0)));
    assert_eq!(search_step(&at("/r/a", 0), Finding::Link(None)), Search::LookUp(at("/r", 0)));

    assert_eq!(search_from(PlainVerb::Sink, "/r/a".to_string()), at("/r/a", LINK_LIMIT));
    assert_eq!(search_from(PlainVerb::Delete, "/r/a".to_string()), at("/r/a", 0));
    let ep = endpoint();
    let cap = Capability::root();
    let req = request(Verb::Sink, &[]);
    let bindings = bound("a");
    let inv = Invocation::detached(&req, &bindings, &cap);
    assert_eq!(ep.search(&inv), Ok(at("/ws/a", LINK_LIMIT)));
    let bindings = bound("../a");
    let inv = Invocation::detached(&req, &bindings, &cap);
    assert!(ep.search(&inv).is_err());
}

#[test]
fn answers_fit_what_was_done() {
    let ep = endpoint();
    let cap = Capability::root();
    let req = request(Verb::Source, &[]);
    let bindings = bound("a");
    let inv = Invocation::detached(&req, &bindings, &cap);
    let at = || Location {
        rel: "a".to_string(),
        target: "/ws/a".to_string(),
    };
    let operations = [
        Operation::Read(at()),
        Operation::Write(at(), vec![1, 2, 3]),
        Operation::Exists(at()),
        Operation::Delete(at()),
    ];
    let outcomes = || {
        [
            Outcome::Bytes(b"hi".to_vec()),
            Outcome::Written,
            Outcome::Present(true),
            Outcome::Deleted,
        ]
    };
    let expected: [&[u8]; 4] = [b"hi", b"wrote 3 bytes to a", b"true", b"deleted a"];
    for (i, operation) in operations.iter().enumerate() {
        for (j, outcome) in outcomes().into_iter().enumerate() {
            let reply = ep.answer(&inv, operation, outcome).map(|reply| reply.bytes);
            if i == j {
                assert_eq!(reply.as_deref(), Some(expected[i]));
            } else {
                assert_eq!(reply, None);
            }
        }
    }
    let absent = ep.answer(&inv, &operations[2], Outcome::Present(false)).unwrap();
    assert_eq!(absent.bytes, b"false");
}

#[test]
fn decisions_go_by_plain_values() {
    let ep = endpoint();
    let at = || Location {
        rel: "a".to_string(),
        target: "/ws/a".to_string(),
    };
    let none = || Err(FsError::MissingArgument("content".to_string()));
    let reading = vec!["urn:cap:fs:read:/ws".to_string()];
    let root = Some("/ws");
    assert_eq!(
        ep.decide(PlainVerb::Source, Some("a"), Some(&reading), none(), root, root),
        Ok(Operation::Read(at()))
    );
    assert_eq!(
        ep.decide(PlainVerb::Sink, Some("a"), None, Ok(vec![1]), root, root),
        Ok(Operation::Write(at(), vec![1]))
    );
    assert_eq!(
        ep.decide(PlainVerb::Sink, Some("a"), None, none(), root, root),
        Err(FsError::MissingArgument("content".to_string()))
    );
    assert_eq!(
        ep.decide(PlainVerb::Delete, Some("a"), Some(&reading), none(), root, root),
        Err(FsError::Endpoint(
            "capability does not grant `delete` on `a`".to_string()
        ))
    );
    assert_eq!(
        ep.decide(PlainVerb::Source, None, None, none(), root, root),
        Err(FsError::MissingArgument("path".to_string()))
    );
    assert_eq!(ep.locate_path(Some("a")), Ok(at()));
    let reply = ep.answer_read("urn:file:a", Some("x/y"), "/ws/a", vec![7]);
    assert_eq!(reply.repr_type.canonical(), "x/y");
    assert_eq!(reply.bytes, vec![7]);
}

#[test]
fn operations_carry_the_location_and_the_content() {
    let root = Capability::root();
    let bindings = bound("d/f.bin");
    let at = || Location {
        rel: "d/f.bin".to_string(),
        target: "/ws/d/f.bin".to_string(),
    };
    let planned = |req: &Request| {
        endpoint()
            .authorize(&Invocation::detached(req, &bindings, &root), None, None)
            .unwrap()
    };
    assert_eq!(planned(&request(Verb::Source, &[])), Operation::Read(at()));
    assert_eq!(planned(&request(Verb::Exists, &[])), Operation::Exists(at()));
    assert_eq!(planned(&request(Verb::Delete, &[])), Operation::Delete(at()));
    assert_eq!(
        planned(&request(Verb::Sink, &[("content", &[0, 255])])),
        Operation::Write(at(), vec![0, 255])
    );
}

#[test]
fn a_write_needs_inline_content() {
    let root = Capability::root();
    let bindings = bound("f");
    let bare = request(Verb::Sink, &[]);
    let inv = Invocation::detached(&bare, &bindings, &root);
    assert_eq!(
        endpoint().authorize(&inv, None, None).unwrap_err(),
        FsError::MissingArgument("content".to_string())
    );
    let by_reference = request(Verb::Sink, &[]).with_arg(
        "content",
        ArgRef::Reference(Iri::parse("urn:file:other").unwrap()),
    );
    let inv = Invocation::detached(&by_reference, &bindings, &root);
    assert_eq!(
        endpoint().authorize(&inv, None, None).unwrap_err(),
        FsError::InvalidArgument {
            name: "content".to_string(),
            detail: "expected an inline value".to_string(),
        }
    );
}

#[test]
fn descriptions_are_not_served_as_content() {
    let store = Store::new(&[("/ws/f", b"x")]);
    let err = invoke(&endpoint(), &store, Verb::Meta, "f", &Capability::root(), &[]).unwrap_err();
    assert_eq!(
        err,
        FsError::Endpoint("file endpoint does not support the Meta verb".to_string())
    );
}

#[test]
fn an_undecodable_type_request_is_ignored() {
    let store = Store::new(&[("/ws/f.json", b"{}")]);
    let rep = invoke(
        &endpoint(),
        &store,
        Verb::Source,
        "f.json",
        &Capability::root(),
        &[("as", &[0xff, 0xfe])],
    )
    .unwrap();
    assert_eq!(rep.repr_type.canonical(), "application/json");
    let rep = invoke(
        &endpoint(),
        &store,
        Verb::Source,
        "f.json",
        &Capability::root(),
        &[("as", b"text/x-custom")],
    )
    .unwrap();
    assert_eq!(rep.repr_type.canonical(), "text/x-custom");
}

#[test]
fn cached_reads_hang_on_the_thread_of_their_resource() {
    let store = Store::new(&[("/ws/f", b"x")]);
    let live = invoke(&endpoint(), &store, Verb::Source, "f", &Capability::root(), &[]).unwrap();
    assert_eq!(live.expiry, Expiry::Always);
    assert!(live.threads().is_empty());
    let caching = endpoint().cacheable();
    let args: [&[(&str, &[u8])]; 2] = [&[], &[("as", b"application/octet-stream")]];
    for args in args {
        let kept = invoke(&caching, &store, Verb::Source, "f", &Capability::root(), args).unwrap();
        assert_eq!(kept.expiry, Expiry::Never);
        let threads: Vec<&str> = kept.threads().iter().map(Thread::as_str).collect();
        assert_eq!(threads, vec!["urn:file:default"]);
    }
    let ack = invoke(&caching, &store, Verb::Exists, "f", &Capability::root(), &[]).unwrap();
    assert_eq!(ack.expiry, Expiry::Always);
    assert!(ack.threads().is_empty());
}

#[test]
fn acknowledgements_are_plain_text() {
    for reply in [
        write_reply("a/ä", 1234567890),
        write_reply("a", 0),
        delete_reply("b"),
        exists_reply(true),
    ] {
        assert_eq!(reply.repr_type.canonical(), "text/plain;charset=utf-8");
    }
    assert_eq!(
        write_reply("a/ä", 1234567890).bytes,
        "wrote 1234567890 bytes to a/ä".as_bytes()
    );
    assert_eq!(write_reply("a", 0).bytes, b"wrote 0 bytes to a");
    assert_eq!(
        write_reply("a", usize::MAX).bytes,
        format!("wrote {} bytes to a", usize::MAX).as_bytes()
    );
}

#[test]
fn backend_errors_name_the_step_and_the_path() {
    let cases = [
        (BackendStep::Read, "read /ws/f: gone"),
        (BackendStep::Create, "create /ws/f: gone"),
        (BackendStep::Write, "write /ws/f: gone"),
        (BackendStep::Exists, "exists /ws/f: gone"),
        (BackendStep::Delete, "delete /ws/f: gone"),
    ];
    for (step, message) in cases {
        assert_eq!(
            backend_error(step, "/ws/f", "gone"),
            FsError::Endpoint(message.to_string())
        );
    }
}

#[test]
fn the_endpoint_describes_itself() {
    let d = endpoint().describe();
    assert_eq!(endpoint().name(), "file");
    assert_eq!(d.id, "file");
    assert_eq!(d.title, "Capability-gated file/store");
    assert!(d.summary.starts_with("Reads and writes files resolved relative to a jailed root. Two layers gate every request:"));
    assert!(d.summary.ends_with("`as=application/octet-stream` yields raw bytes."));
    assert_eq!(
        d.verbs,
        vec![Verb::Source, Verb::Sink, Verb::Exists, Verb::Delete, Verb::Meta]
    );
    let inputs: Vec<(&str, bool)> = d
        .inputs
        .iter()
        .map(|input| (input.name.as_str(), input.required))
        .collect();
    assert_eq!(inputs, vec![("path", true), ("content", true), ("as", true)]);
    assert_eq!(
        d.inputs[0].summary,
        "Path relative to the endpoint root (no `..`, no absolute paths)."
    );
    assert_eq!(d.outputs, vec!["text/plain;charset=utf-8".to_string()]);
}

#[test]
fn the_template_captures_the_path() {
    let template = file_template().unwrap();
    assert_eq!(template.source(), FILE_TEMPLATE);
    let matched = template
        .match_iri(&Iri::parse("urn:file:a/b.txt").unwrap())
        .unwrap();
    assert_eq!(matched.get("path"), Some("a/b.txt"));
    assert!(template
        .match_iri(&Iri::parse("urn:other:a").unwrap())
        .is_none());
}
