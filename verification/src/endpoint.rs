//! The file endpoint: a jail around a root directory, and the capability path-ACL within it.
//!
//! Serving a request alternates between decisions, which are made here, and work on the store,
//! which the host does:
//!
//! 1. [`FileEndpoint::search`] resolves the request to a path within the root.
//! 2. The host looks up what is at the root ([`known_root`]), and what is at that path or, as
//!    long as nothing can be reached there, further up ([`search_step`]).
//! 3. [`FileEndpoint::authorize`] checks both layers and says what is to be done.
//! 4. The host does it.
//! 5. [`FileEndpoint::answer`] makes the answer, or [`backend_error`] the error.
//!
//! Each of these that takes an invocation only reads it and hands plain values on:
//! [`FileEndpoint::locate_path`], [`search_from`], [`FileEndpoint::decide`] and
//! [`FileEndpoint::answer_read`] take those values themselves.
use crate::acl::{action_of, allowed, cap_action, held_allow, held_by, held_model};
use crate::error::{denial, deny, ErrorModel, FsError};
use crate::kernel::{
    arg_spec, arg_summary, binding, bytes_model, capability_of, depends_on, describe_input,
    describe_output, describe_summary, describe_title, describe_verb, description, description_of,
    ends_in_variable, inline_arg, inline_str, inline_text, inline_value, mark_cacheable,
    parse_template, representation, representation_of, request_of, target_of, template_text,
    verb_of, DescriptionModel, InputModel, RepresentationModel, RequestModel, Verb,
};
use crate::path::{
    body, components, join, joined, leading, lemma_body_parts, parent, parent_of, parts,
    path_within, pieces, views, within, Component, Part,
};
use crate::representation::{ack, acknowledgement, source_type, source_type_of};
use crate::text::{concat3, decimal, decimal_text};
use ikigai_core::{Description, Invocation, Representation, TemplateError, UriTemplate};
use vstd::prelude::*;
use vstd::string::StringExecFns;

verus! {

/// The grammar that a host mounts the endpoint at: `{path}` is captured relative to the root and
/// handed to the endpoint as the `path` binding, so that the file's identity is the request and
/// not an argument.
pub const FILE_TEMPLATE: &'static str = "urn:file:{path}";

/// A file endpoint jailed to a root directory, gated by the capability path-ACL.
pub struct FileEndpoint {
    root: String,
    cacheable: bool,
}

/// A file endpoint, as contracts speak of it.
pub struct EndpointModel {
    pub root: Seq<char>,
    pub cacheable: bool,
}

impl View for FileEndpoint {
    type V = EndpointModel;

    closed spec fn view(&self) -> EndpointModel {
        EndpointModel { root: self.root@, cacheable: self.cacheable }
    }
}

/// Where a request points: its path relative to the root, and the path on the store.
#[derive(Debug, PartialEq, Eq)]
pub struct Location {
    pub rel: String,
    pub target: String,
}

/// A location, as contracts speak of it.
pub struct LocationModel {
    pub rel: Seq<char>,
    pub target: Seq<char>,
}

impl View for Location {
    type V = LocationModel;

    open spec fn view(&self) -> LocationModel {
        LocationModel { rel: self.rel@, target: self.target@ }
    }
}

/// What the host is to do on its store for a request that passed both layers.
#[derive(Debug, PartialEq, Eq)]
pub enum Operation {
    /// Read all bytes at the location.
    Read(Location),
    /// Write these bytes at the location.
    Write(Location, Vec<u8>),
    /// Tell whether there is anything at the location.
    Exists(Location),
    /// Remove what is at the location.
    Delete(Location),
}

/// An operation, as contracts speak of it.
pub enum OperationModel {
    Read(LocationModel),
    Write(LocationModel, Seq<u8>),
    Exists(LocationModel),
    Delete(LocationModel),
}

impl View for Operation {
    type V = OperationModel;

    open spec fn view(&self) -> OperationModel {
        match self {
            Operation::Read(location) => OperationModel::Read(location@),
            Operation::Write(location, bytes) => OperationModel::Write(location@, bytes@),
            Operation::Exists(location) => OperationModel::Exists(location@),
            Operation::Delete(location) => OperationModel::Delete(location@),
        }
    }
}

/// What came of an operation on the store.
#[derive(Debug, PartialEq, Eq)]
pub enum Outcome {
    /// These bytes were read.
    Bytes(Vec<u8>),
    /// The bytes were written.
    Written,
    /// Whether there is anything.
    Present(bool),
    /// It was removed.
    Deleted,
}

/// What came of an operation, as contracts speak of it.
pub enum OutcomeModel {
    Bytes(Seq<u8>),
    Written,
    Present(bool),
    Deleted,
}

impl View for Outcome {
    type V = OutcomeModel;

    open spec fn view(&self) -> OutcomeModel {
        match self {
            Outcome::Bytes(bytes) => OutcomeModel::Bytes(bytes@),
            Outcome::Written => OutcomeModel::Written,
            Outcome::Present(present) => OutcomeModel::Present(*present),
            Outcome::Deleted => OutcomeModel::Deleted,
        }
    }
}

/// What a host finds at a path.
#[derive(Debug, PartialEq, Eq)]
pub enum Finding {
    /// Something is there, and this is its canonical path: absolute, with every link resolved.
    Canonical(String),
    /// Nothing can be reached there, and it is not a link.
    Absent,
    /// A link is there, and nothing can be reached through it: it leads nowhere, in a circle, or
    /// to a place that is closed. This is what it says of where it leads, if that is text.
    Link(Option<String>),
    /// Something can be reached there, and it has no canonical path.
    Unresolved,
}

/// What was found, as contracts speak of it.
pub enum FindingModel {
    Canonical(Seq<char>),
    Absent,
    Link(Option<Seq<char>>),
    Unresolved,
}

impl View for Finding {
    type V = FindingModel;

    open spec fn view(&self) -> FindingModel {
        match self {
            Finding::Canonical(path) => FindingModel::Canonical(path@),
            Finding::Absent => FindingModel::Absent,
            Finding::Link(Some(text)) => FindingModel::Link(Some(text@)),
            Finding::Link(None) => FindingModel::Link(None),
            Finding::Unresolved => FindingModel::Unresolved,
        }
    }
}

/// A place to look at: its path, and how many links may be followed from there.
#[derive(Debug, PartialEq, Eq)]
pub struct Place {
    pub path: String,
    pub links: usize,
}

/// A place, as contracts speak of it.
pub struct PlaceModel {
    pub path: Seq<char>,
    pub links: nat,
}

impl View for Place {
    type V = PlaceModel;

    open spec fn view(&self) -> PlaceModel {
        PlaceModel { path: self.path@, links: self.links as nat }
    }
}

/// Where the search for the nearest canonical path stands.
#[derive(Debug, PartialEq, Eq)]
pub enum Search {
    /// It is over, with the canonical path where there is one.
    Ended(Option<String>),
    /// This is the place to look at next.
    LookUp(Place),
}

/// A search, as contracts speak of it.
pub enum SearchModel {
    Ended(Option<Seq<char>>),
    LookUp(PlaceModel),
}

impl View for Search {
    type V = SearchModel;

    open spec fn view(&self) -> SearchModel {
        match self {
            Search::Ended(Some(path)) => SearchModel::Ended(Some(path@)),
            Search::Ended(None) => SearchModel::Ended(None),
            Search::LookUp(place) => SearchModel::LookUp(place@),
        }
    }
}

/// The steps on a store that can fail.
#[derive(Debug, Clone, Copy, PartialEq, Eq, Structural)]
pub enum BackendStep {
    /// Reading a file.
    Read,
    /// Creating the directories above a file.
    Create,
    /// Writing a file.
    Write,
    /// Looking for a file.
    Exists,
    /// Removing a file.
    Delete,
}

/// Why the jail refuses a relative path, where it does: it is absolute, or it has a `..` segment.
pub open spec fn jail_denial(rel: Seq<char>) -> Option<Seq<char>> {
    if parts(rel).contains(Part::Root) {
        Some("absolute paths are not allowed"@)
    } else if parts(rel).contains(Part::Parent) {
        Some("parent-directory (`..`) segments are not allowed"@)
    } else {
        None
    }
}

/// The path on the store that `rel` stands for, or why the jail refuses it.
pub open spec fn resolved(root: Seq<char>, rel: Seq<char>) -> Result<Seq<char>, ErrorModel> {
    match jail_denial(rel) {
        Some(detail) => Err(denial(detail)),
        None => Ok(joined(root, rel)),
    }
}

/// Where the captured path `rel` points, or why it points nowhere.
pub open spec fn located_path(endpoint: EndpointModel, rel: Option<Seq<char>>) -> Result<
    LocationModel,
    ErrorModel,
> {
    match rel {
        None => Err(ErrorModel::MissingArgument("path"@)),
        Some(rel) => match resolved(endpoint.root, rel) {
            Ok(target) => Ok(LocationModel { rel, target }),
            Err(error) => Err(error),
        },
    }
}

/// The path that the grammar captured for a request.
pub open spec fn captured_path(request: RequestModel) -> Option<Seq<char>> {
    if request.bindings.contains_key("path"@) {
        Some(request.bindings["path"@])
    } else {
        None
    }
}

/// Where a request points, or why it points nowhere.
pub open spec fn located(endpoint: EndpointModel, request: RequestModel) -> Result<
    LocationModel,
    ErrorModel,
> {
    located_path(endpoint, captured_path(request))
}

/// There is a root, and what is known of the path does not sit within it: `nearest` is what the
/// search for its nearest canonical path ended with (see [`search_after`]).
pub open spec fn escapes(root: Option<Seq<char>>, nearest: Option<Seq<char>>) -> bool {
    root is Some && !(nearest is Some && within(root->0, nearest->0))
}

/// The error of a path that leads out of the root.
pub open spec fn escape_error() -> ErrorModel {
    ErrorModel::Endpoint("resolved path escapes the endpoint root"@)
}

/// The name of a verb.
pub open spec fn verb_text(verb: Verb) -> Seq<char> {
    match verb {
        Verb::Source => "Source"@,
        Verb::Sink => "Sink"@,
        Verb::Exists => "Exists"@,
        Verb::Delete => "Delete"@,
        Verb::Meta => "Meta"@,
    }
}

/// The error of a verb that the endpoint does not serve.
pub open spec fn unsupported_error(verb: Verb) -> ErrorModel {
    ErrorModel::Endpoint("file endpoint does not support the "@ + verb_text(verb) + " verb"@)
}

/// The error of a capability that does not grant `action` on `rel`.
pub open spec fn refusal_error(action: Seq<char>, rel: Seq<char>) -> ErrorModel {
    ErrorModel::Endpoint(
        "capability does not grant `"@ + action + "` on `"@ + rel + "`"@,
    )
}

/// What a granted request asks the host to do: reads, existence checks and removals as they are,
/// and a write with the bytes of its content.
pub open spec fn operation_of(
    verb: Verb,
    location: LocationModel,
    content: Result<Seq<u8>, ErrorModel>,
) -> Result<OperationModel, ErrorModel> {
    match verb {
        Verb::Source => Ok(OperationModel::Read(location)),
        Verb::Sink => match content {
            Ok(bytes) => Ok(OperationModel::Write(location, bytes)),
            Err(error) => Err(error),
        },
        Verb::Exists => Ok(OperationModel::Exists(location)),
        Verb::Delete => Ok(OperationModel::Delete(location)),
        Verb::Meta => Err(unsupported_error(verb)),
    }
}

/// The outcome of both layers, in their order: the jail (by the path's segments, then by the
/// canonical paths), the verb, the capability, and at last what the verb asks for.
pub open spec fn decided(
    endpoint: EndpointModel,
    verb: Verb,
    rel: Option<Seq<char>>,
    held: Option<Set<Seq<char>>>,
    content: Result<Seq<u8>, ErrorModel>,
    root: Option<Seq<char>>,
    nearest: Option<Seq<char>>,
) -> Result<OperationModel, ErrorModel> {
    match located_path(endpoint, rel) {
        Err(error) => Err(error),
        Ok(location) => if escapes(root, nearest) {
            Err(escape_error())
        } else {
            match action_of(verb) {
                None => Err(unsupported_error(verb)),
                Some(action) => if !allowed(held, action, location.target) {
                    Err(refusal_error(action, location.rel))
                } else {
                    operation_of(verb, location, content)
                },
            }
        },
    }
}

/// The outcome of both layers for a request.
pub open spec fn authorized(
    endpoint: EndpointModel,
    request: RequestModel,
    root: Option<Seq<char>>,
    nearest: Option<Seq<char>>,
) -> Result<OperationModel, ErrorModel> {
    decided(
        endpoint,
        request.verb,
        captured_path(request),
        request.scopes,
        inline_value(request.arguments, "content"@),
        root,
        nearest,
    )
}

/// How many links the search follows for a write: more than any host does.
pub const LINK_LIMIT: usize = 64;

/// Where the search for the nearest canonical path starts. Only a write takes place beyond a link
/// that leads nowhere: it makes the file that the link names. A read and an existence check find
/// nothing there, and a removal takes away the link itself.
pub open spec fn search_start(verb: Verb, target: Seq<char>) -> PlaceModel {
    PlaceModel {
        path: target,
        links: if verb == Verb::Sink {
            LINK_LIMIT as nat
        } else {
            0
        },
    }
}

/// Where a link at `path` leads that says `text`.
pub open spec fn led(path: Seq<char>, text: Seq<char>) -> Seq<char> {
    match parent(path) {
        Some(dir) => joined(dir, text),
        None => text,
    }
}

/// The search goes one component up from `path`, where it can. No link is followed from there on:
/// nothing takes place beyond a directory that cannot be reached.
pub open spec fn search_up(path: Seq<char>) -> SearchModel {
    match parent(path) {
        Some(up) => SearchModel::LookUp(PlaceModel { path: up, links: 0 }),
        None => SearchModel::Ended(None),
    }
}

/// What the search for the nearest canonical path does after `found` at `place`: it ends with a
/// canonical path, goes up where nothing can be reached, and ends without a canonical path where
/// something can be reached that has none. A link through which nothing can be reached is followed
/// as far as the place allows.
pub open spec fn search_after(place: PlaceModel, found: FindingModel) -> SearchModel {
    match found {
        FindingModel::Canonical(canonical) => SearchModel::Ended(Some(canonical)),
        FindingModel::Absent => search_up(place.path),
        FindingModel::Link(text) => if place.links == 0 {
            search_up(place.path)
        } else {
            match text {
                Some(text) => SearchModel::LookUp(
                    PlaceModel { path: led(place.path, text), links: (place.links - 1) as nat },
                ),
                None => SearchModel::Ended(None),
            }
        },
        FindingModel::Unresolved => SearchModel::Ended(None),
    }
}

/// The answer to a read of the resource `thread`. Where the endpoint caches, it may be cached, and
/// it depends on the golden thread of that name.
pub open spec fn read_answer_of(
    endpoint: EndpointModel,
    thread: Seq<char>,
    requested: Option<Seq<char>>,
    path: Seq<char>,
    bytes: Seq<u8>,
) -> RepresentationModel {
    RepresentationModel {
        repr_type: source_type_of(path, bytes, requested),
        bytes,
        cacheable: endpoint.cacheable,
        threads: if endpoint.cacheable {
            set![thread]
        } else {
            Set::empty()
        },
    }
}

/// The answer to a read request: the thread is named after its target.
pub open spec fn read_answer(
    endpoint: EndpointModel,
    request: RequestModel,
    path: Seq<char>,
    bytes: Seq<u8>,
) -> RepresentationModel {
    read_answer_of(endpoint, request.target, inline_text(request.arguments, "as"@), path, bytes)
}

/// The answer to a write of `count` bytes to `rel`.
pub open spec fn write_answer(rel: Seq<char>, count: nat) -> RepresentationModel {
    acknowledgement("wrote "@ + decimal(count) + " bytes to "@ + rel)
}

/// The answer to an existence check.
pub open spec fn exists_answer(present: bool) -> RepresentationModel {
    acknowledgement(
        if present {
            "true"@
        } else {
            "false"@
        },
    )
}

/// The answer to the removal of `rel`.
pub open spec fn delete_answer(rel: Seq<char>) -> RepresentationModel {
    acknowledgement("deleted "@ + rel)
}

/// The answer to a request for which `operation` was done with `outcome`, where the two fit.
pub open spec fn answer_of(
    endpoint: EndpointModel,
    request: RequestModel,
    operation: OperationModel,
    outcome: OutcomeModel,
) -> Option<RepresentationModel> {
    match (operation, outcome) {
        (OperationModel::Read(at), OutcomeModel::Bytes(bytes)) => Some(
            read_answer(endpoint, request, at.target, bytes),
        ),
        (OperationModel::Write(at, bytes), OutcomeModel::Written) => Some(
            write_answer(at.rel, bytes.len()),
        ),
        (OperationModel::Exists(_), OutcomeModel::Present(present)) => Some(
            exists_answer(present),
        ),
        (OperationModel::Delete(at), OutcomeModel::Deleted) => Some(delete_answer(at.rel)),
        _ => None,
    }
}

/// The word for a step in an error message.
pub open spec fn step_text(step: BackendStep) -> Seq<char> {
    match step {
        BackendStep::Read => "read"@,
        BackendStep::Create => "create"@,
        BackendStep::Write => "write"@,
        BackendStep::Exists => "exists"@,
        BackendStep::Delete => "delete"@,
    }
}

/// The self-description of the endpoint: what it says of itself at length.
pub const SUMMARY: &'static str = "Reads and writes files resolved relative to a jailed root. Two layers gate every request: the structural jail (no `..`, no absolute paths, symlink-safe) and the capability path-ACL (`urn:cap:fs:<read|write|delete>:<path>`, longest-prefix match, `-`-prefixed exclusions, default-deny). `Source` yields a string by default; `as=application/octet-stream` yields raw bytes.";

/// What it says of its `path` input.
pub const PATH_SUMMARY: &'static str = "Path relative to the endpoint root (no `..`, no absolute paths).";

/// What it says of its `content` input.
pub const CONTENT_SUMMARY: &'static str = "Bytes to write (Sink only).";

/// What it says of its `as` input.
pub const AS_SUMMARY: &'static str = "Requested representation type for Source (e.g. application/octet-stream for raw bytes).";

/// A required by-value input.
pub open spec fn required_input(name: Seq<char>, summary: Seq<char>) -> InputModel {
    InputModel { name, summary, required: true, captured: false }
}

/// The self-description of the endpoint.
pub open spec fn self_description() -> DescriptionModel {
    DescriptionModel {
        id: "file"@,
        title: "Capability-gated file/store"@,
        summary: SUMMARY@,
        verbs: seq![Verb::Source, Verb::Sink, Verb::Exists, Verb::Delete, Verb::Meta],
        inputs: seq![
            required_input("path"@, PATH_SUMMARY@),
            required_input("content"@, CONTENT_SUMMARY@),
            required_input("as"@, AS_SUMMARY@),
        ],
        outputs: seq!["text/plain;charset=utf-8"@],
    }
}

/// A text or an error, as contracts speak of it.
pub open spec fn text_model(result: Result<String, FsError>) -> Result<Seq<char>, ErrorModel> {
    match result {
        Ok(text) => Ok(text@),
        Err(error) => Err(error@),
    }
}

/// A location or an error, as contracts speak of it.
pub open spec fn location_model(result: Result<Location, FsError>) -> Result<
    LocationModel,
    ErrorModel,
> {
    match result {
        Ok(location) => Ok(location@),
        Err(error) => Err(error@),
    }
}

/// An operation or an error, as contracts speak of it.
pub open spec fn operation_model(result: Result<Operation, FsError>) -> Result<
    OperationModel,
    ErrorModel,
> {
    match result {
        Ok(operation) => Ok(operation@),
        Err(error) => Err(error@),
    }
}

/// An optional answer, as contracts speak of it.
pub open spec fn reply_model(reply: Option<Representation>) -> Option<RepresentationModel> {
    match reply {
        Some(made) => Some(representation_of(made)),
        None => None,
    }
}

/// An optional text, as contracts speak of it.
pub open spec fn option_text(text: Option<&str>) -> Option<Seq<char>> {
    match text {
        Some(known) => Some(known@),
        None => None,
    }
}

impl FileEndpoint {
    /// A file endpoint that will only ever serve paths within `root` (the jail).
    pub fn new(root: String) -> (endpoint: Self)
        ensures
            endpoint@ == (EndpointModel { root: root@, cacheable: false }),
    {
        FileEndpoint { root, cacheable: false }
    }

    /// Cache reads under a golden thread (opt-in).
    ///
    /// By default a file is a live fact: every read recomputes, so a change made outside the
    /// kernel is always seen. Opt in to caching: each read is stored under the thread named after
    /// the resource, and a write or removal through the kernel cuts that thread. Changes out of
    /// band (an editor, another process) are not seen until something cuts the thread.
    pub fn cacheable(self) -> (endpoint: Self)
        ensures
            endpoint@ == (EndpointModel { cacheable: true, ..self@ }),
    {
        FileEndpoint { root: self.root, cacheable: true }
    }

    /// The root directory.
    pub fn root(&self) -> (root: &str)
        ensures
            root@ == self@.root,
    {
        self.root.as_str()
    }

    /// Resolve a request-relative path to a path within the root, or deny. This is the jail by
    /// the path's segments: structural confinement, consulted before the capability.
    pub fn resolve_within_root(&self, rel: &str) -> (target: Result<String, FsError>)
        ensures
            text_model(target) == resolved(self@.root, rel@),
    {
        let list = components(rel);
        let size: usize = list.len();
        let mut i: usize = 0;
        while i < size
            invariant
                size == list@.len(),
                i <= size,
                views(list@) == parts(rel@),
                forall|j: int|
                    0 <= j < i ==> (#[trigger] parts(rel@)[j]) !is Root && parts(
                        rel@,
                    )[j] !is Parent,
            decreases size - i,
        {
            assert(parts(rel@)[i as int] == list@[i as int]@);
            match &list[i] {
                Component::Normal(_) | Component::CurDir => {},
                Component::ParentDir => {
                    assert(parts(rel@).contains(Part::Parent));
                    proof {
                        lemma_root_comes_first(rel@);
                        if parts(rel@).contains(Part::Root) {
                            assert(parts(rel@)[0] is Root);
                        }
                    }
                    return Err(deny("parent-directory (`..`) segments are not allowed"));
                },
                Component::RootDir => {
                    assert(parts(rel@).contains(Part::Root));
                    return Err(deny("absolute paths are not allowed"));
                },
            }
            i = i + 1;
        }
        Ok(join(self.root.as_str(), rel))
    }

    /// Where the captured path `rel` points, resolved within the root.
    pub fn locate_path(&self, rel: Option<&str>) -> (location: Result<Location, FsError>)
        ensures
            location_model(location) == located_path(self@, option_text(rel)),
    {
        match rel {
            None => Err(FsError::MissingArgument("path".to_owned())),
            Some(rel) => match self.resolve_within_root(rel) {
                Ok(target) => Ok(Location { rel: rel.to_owned(), target }),
                Err(error) => Err(error),
            },
        }
    }

    /// Where a request points: the `path` that the grammar captured, resolved within the root.
    pub fn locate(&self, inv: &Invocation<'_>) -> (location: Result<Location, FsError>)
        ensures
            location_model(location) == located(self@, request_of(*inv)),
    {
        match binding(inv, "path") {
            Some(rel) => self.locate_path(Some(rel.as_str())),
            None => self.locate_path(None),
        }
    }

    /// Where the search for the nearest canonical path of a request starts.
    pub fn search(&self, inv: &Invocation<'_>) -> (start: Result<Place, FsError>)
        ensures
            start matches Ok(place) ==> {
                &&& located(self@, request_of(*inv)) is Ok
                &&& place@ == search_start(
                    request_of(*inv).verb,
                    located(self@, request_of(*inv))->Ok_0.target,
                )
            },
            start matches Err(error) ==> located(self@, request_of(*inv)) == Err::<
                LocationModel,
                ErrorModel,
            >(error@),
    {
        match self.locate(inv) {
            Ok(location) => Ok(search_from(verb_of(inv), location.target)),
            Err(error) => Err(error),
        }
    }

    /// Checks a request against both layers and says what the host is to do.
    ///
    /// `rel` is the captured path, `held` the scopes of the capability (`None` for the root
    /// capability), and `content` the bytes to write or why there are none. `root` is the
    /// canonical form of the root, where there is anything at it yet, and `nearest` the nearest
    /// canonical path to the located one (see [`search_from`]). Even the root capability does not
    /// get past the jail.
    pub fn decide(
        &self,
        verb: Verb,
        rel: Option<&str>,
        held: Option<&Vec<String>>,
        content: Result<Vec<u8>, FsError>,
        root: Option<&str>,
        nearest: Option<&str>,
    ) -> (operation: Result<Operation, FsError>)
        ensures
            operation_model(operation) == decided(
                self@,
                verb,
                option_text(rel),
                held_model(held),
                bytes_model(content),
                option_text(root),
                option_text(nearest),
            ),
    {
        // Layer 1: the jail. Even a root capability stops here.
        let location = match self.locate_path(rel) {
            Ok(location) => location,
            Err(error) => {
                return Err(error);
            },
        };
        if !confirm_containment(root, nearest) {
            return Err(escape());
        }
        // Layer 2: the capability path-ACL.
        let action = match cap_action(verb) {
            Some(action) => action,
            None => {
                return Err(unsupported(verb));
            },
        };
        if !held_allow(held, action, location.target.as_str()) {
            return Err(refused(action, location.rel.as_str()));
        }
        match verb {
            Verb::Source => Ok(Operation::Read(location)),
            Verb::Sink => match content {
                Ok(bytes) => Ok(Operation::Write(location, bytes)),
                Err(error) => Err(error),
            },
            Verb::Exists => Ok(Operation::Exists(location)),
            Verb::Delete => Ok(Operation::Delete(location)),
            Verb::Meta => Err(unsupported(verb)),
        }
    }

    /// Checks the request of an invocation against both layers and says what the host is to do
    /// (see [`FileEndpoint::decide`]).
    pub fn authorize(
        &self,
        inv: &Invocation<'_>,
        root: Option<&str>,
        nearest: Option<&str>,
    ) -> (operation: Result<Operation, FsError>)
        ensures
            operation_model(operation) == authorized(
                self@,
                request_of(*inv),
                option_text(root),
                option_text(nearest),
            ),
    {
        let verb = verb_of(inv);
        let captured = binding(inv, "path");
        let rel = match &captured {
            Some(text) => Some(text.as_str()),
            None => None,
        };
        let content = inline_arg(inv, "content");
        match held_by(capability_of(inv)) {
            Some(list) => self.decide(verb, rel, Some(&list), content, root, nearest),
            None => self.decide(verb, rel, None, content, root, nearest),
        }
    }

    /// The answer to a read of `path` that found `bytes`, for the resource `thread` and the type
    /// `requested`, if any.
    pub fn answer_read(
        &self,
        thread: &str,
        requested: Option<&str>,
        path: &str,
        bytes: Vec<u8>,
    ) -> (reply: Representation)
        ensures
            representation_of(reply) == read_answer_of(
                self@,
                thread@,
                option_text(requested),
                path@,
                bytes@,
            ),
    {
        let repr_type = source_type(path, bytes.as_slice(), requested);
        let reply = representation(repr_type, bytes);
        if self.cacheable {
            // All representations of a file share the thread, so that one write invalidates
            // them all.
            let reply = depends_on(mark_cacheable(reply), thread);
            assert(representation_of(reply).threads =~= set![thread@]);
            reply
        } else {
            reply
        }
    }

    /// The answer to a read request of `path` that found `bytes`.
    pub fn read_reply(&self, inv: &Invocation<'_>, path: &str, bytes: Vec<u8>) -> (reply:
        Representation)
        ensures
            representation_of(reply) == read_answer(self@, request_of(*inv), path@, bytes@),
    {
        let target = target_of(inv);
        match inline_str(inv, "as") {
            Some(media_type) => self.answer_read(
                target.as_str(),
                Some(media_type.as_str()),
                path,
                bytes,
            ),
            None => self.answer_read(target.as_str(), None, path, bytes),
        }
    }

    /// The answer to a request for which `operation` was done with `outcome`; none where the two
    /// do not fit.
    pub fn answer(&self, inv: &Invocation<'_>, operation: &Operation, outcome: Outcome) -> (reply:
        Option<Representation>)
        ensures
            reply_model(reply) == answer_of(self@, request_of(*inv), operation@, outcome@),
    {
        match (operation, outcome) {
            (Operation::Read(at), Outcome::Bytes(bytes)) => Some(
                self.read_reply(inv, at.target.as_str(), bytes),
            ),
            (Operation::Write(at, bytes), Outcome::Written) => Some(
                write_reply(at.rel.as_str(), bytes.len()),
            ),
            (Operation::Exists(_), Outcome::Present(present)) => Some(exists_reply(present)),
            (Operation::Delete(at), Outcome::Deleted) => Some(delete_reply(at.rel.as_str())),
            _ => None,
        }
    }

    /// A short label for diagnostics.
    pub fn name(&self) -> (name: &'static str)
        ensures
            name@ == "file"@,
    {
        "file"
    }

    /// A structured self-description.
    pub fn describe(&self) -> (made: Description)
        ensures
            description_of(made) == self_description(),
    {
        let made = description("file");
        let made = describe_title(made, "Capability-gated file/store");
        let made = describe_summary(made, SUMMARY);
        let made = describe_verb(made, Verb::Source);
        let made = describe_verb(made, Verb::Sink);
        let made = describe_verb(made, Verb::Exists);
        let made = describe_verb(made, Verb::Delete);
        let made = describe_verb(made, Verb::Meta);
        let made = describe_input(made, arg_summary(arg_spec("path"), PATH_SUMMARY));
        let made = describe_input(made, arg_summary(arg_spec("content"), CONTENT_SUMMARY));
        let made = describe_input(made, arg_summary(arg_spec("as"), AS_SUMMARY));
        let made = describe_output(made, "text/plain;charset=utf-8");
        proof {
            assert(description_of(made).verbs =~= self_description().verbs);
            assert(description_of(made).inputs =~= self_description().inputs);
            assert(description_of(made).outputs =~= self_description().outputs);
        }
        made
    }
}

/// The root of an absolute path is its first component.
pub proof fn lemma_root_comes_first(path: Seq<char>)
    ensures
        forall|i: int| 0 < i < parts(path).len() ==> #[trigger] parts(path)[i] !is Root,
        parts(path).contains(Part::Root) <==> path.len() > 0 && path[0] == '/',
{
    lemma_body_parts(pieces(path));
    assert forall|i: int| 0 < i < parts(path).len() implies #[trigger] parts(path)[i] !is Root by {
        assert(parts(path)[i] == body(pieces(path))[i - leading(path).len()]);
    }
    if path.len() > 0 && path[0] == '/' {
        assert(parts(path)[0] == Part::Root);
    }
    if parts(path).contains(Part::Root) {
        let i = choose|i: int| 0 <= i < parts(path).len() && parts(path)[i] == Part::Root;
        if leading(path).len() == 0 {
            assert(parts(path)[i] == body(pieces(path))[i]);
        }
    }
}

/// Whether the canonical paths bear out that the path sits within the root, so that no link leads
/// out of it. `nearest` is the nearest canonical path to it; where there is a root and no such
/// path, the answer is no.
pub fn confirm_containment(root: Option<&str>, nearest: Option<&str>) -> (inside: bool)
    ensures
        inside == !escapes(option_text(root), option_text(nearest)),
{
    match (root, nearest) {
        (None, _) => true,
        (Some(outer), Some(inner)) => path_within(outer, inner),
        (Some(_), None) => false,
    }
}

/// The canonical form of the root, by what was found there: none where nothing can be reached yet.
/// A root that is there without one cannot be held to, so every request is refused.
pub fn known_root(found: Finding) -> (root: Result<Option<String>, FsError>)
    ensures
        root matches Ok(Some(path)) ==> found@ == FindingModel::Canonical(path@),
        root matches Ok(None) ==> found@ is Absent || found@ is Link,
        root matches Err(error) ==> found@ is Unresolved && error@ == escape_error(),
{
    match found {
        Finding::Canonical(path) => Ok(Some(path)),
        Finding::Absent | Finding::Link(_) => Ok(None),
        Finding::Unresolved => Err(escape()),
    }
}

/// Where the search for the nearest canonical path to `target` starts, for a request with `verb`.
pub fn search_from(verb: Verb, target: String) -> (start: Place)
    ensures
        start@ == search_start(verb, target@),
{
    match verb {
        Verb::Sink => Place { path: target, links: LINK_LIMIT },
        _ => Place { path: target, links: 0 },
    }
}

/// One component up from `path`.
fn step_up(path: &str) -> (next: Search)
    ensures
        next@ == search_up(path@),
        next matches Search::LookUp(up) ==> up.links == 0 && up.path@.len() < path@.len(),
{
    match parent_of(path) {
        Some(up) => Search::LookUp(Place { path: up, links: 0 }),
        None => Search::Ended(None),
    }
}

/// The next step of the search for the nearest canonical path, after `found` at `place`. Each step
/// leaves fewer links to follow, or no more links and a shorter path.
pub fn search_step(place: &Place, found: Finding) -> (next: Search)
    ensures
        next@ == search_after(place@, found@),
        next matches Search::LookUp(onward) ==> onward.links < place.links || (onward.links
            == place.links && onward.path@.len() < place.path@.len()),
{
    match found {
        Finding::Canonical(canonical) => Search::Ended(Some(canonical)),
        Finding::Absent => step_up(place.path.as_str()),
        Finding::Link(text) => {
            if place.links == 0 {
                return step_up(place.path.as_str());
            }
            match text {
                Some(text) => {
                    let path = match parent_of(place.path.as_str()) {
                        Some(dir) => join(dir.as_str(), text.as_str()),
                        None => text,
                    };
                    Search::LookUp(Place { path, links: place.links - 1 })
                },
                None => Search::Ended(None),
            }
        },
        Finding::Unresolved => Search::Ended(None),
    }
}

/// The error of a path that leads out of the root.
fn escape() -> (error: FsError)
    ensures
        error@ == escape_error(),
{
    FsError::Endpoint("resolved path escapes the endpoint root".to_owned())
}

/// The error of a verb that the endpoint does not serve.
fn unsupported(verb: Verb) -> (error: FsError)
    ensures
        error@ == unsupported_error(verb),
{
    let name = match verb {
        Verb::Source => "Source",
        Verb::Sink => "Sink",
        Verb::Exists => "Exists",
        Verb::Delete => "Delete",
        Verb::Meta => "Meta",
    };
    FsError::Endpoint(concat3("file endpoint does not support the ", name, " verb"))
}

/// The error of a capability that does not grant `action` on `rel`.
fn refused(action: &str, rel: &str) -> (error: FsError)
    ensures
        error@ == refusal_error(action@, rel@),
{
    let mut message = concat3("capability does not grant `", action, "` on `");
    message.append(rel);
    message.append("`");
    FsError::Endpoint(message)
}

/// The answer to a write of `count` bytes to `rel`.
pub fn write_reply(rel: &str, count: usize) -> (reply: Representation)
    ensures
        representation_of(reply) == write_answer(rel@, count as nat),
{
    let size = decimal_text(count);
    let mut message = concat3("wrote ", size.as_str(), " bytes to ");
    message.append(rel);
    ack(message)
}

/// The answer to an existence check.
pub fn exists_reply(present: bool) -> (reply: Representation)
    ensures
        representation_of(reply) == exists_answer(present),
{
    if present {
        ack("true".to_owned())
    } else {
        ack("false".to_owned())
    }
}

/// The answer to the removal of `rel`.
pub fn delete_reply(rel: &str) -> (reply: Representation)
    ensures
        representation_of(reply) == delete_answer(rel@),
{
    let mut message = "deleted ".to_owned();
    message.append(rel);
    ack(message)
}

/// The error of a step on the store that failed at `path` for the reason `cause`.
pub fn backend_error(step: BackendStep, path: &str, cause: &str) -> (error: FsError)
    ensures
        error@ == ErrorModel::Endpoint(step_text(step) + " "@ + path@ + ": "@ + cause@),
{
    let word = match step {
        BackendStep::Read => "read",
        BackendStep::Create => "create",
        BackendStep::Write => "write",
        BackendStep::Exists => "exists",
        BackendStep::Delete => "delete",
    };
    let mut message = concat3(word, " ", path);
    message.append(": ");
    message.append(cause);
    FsError::Endpoint(message)
}

/// The template of the grammar that the endpoint is mounted at.
pub fn file_template() -> (template: Result<UriTemplate, TemplateError>)
    ensures
        template matches Ok(parsed) && template_text(parsed) == FILE_TEMPLATE@,
{
    proof {
        reveal_strlit("urn:file:{path}");
        reveal_strlit("urn:file:");
        reveal_strlit("path");
        assert(FILE_TEMPLATE@ =~= "urn:file:"@.push('{') + "path"@.push('}'));
        assert(ends_in_variable(FILE_TEMPLATE@, "urn:file:"@, "path"@));
    }
    parse_template(FILE_TEMPLATE)
}

} // verus!
