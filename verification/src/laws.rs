//! What holds of the endpoint as a whole: the jail, the two layers, the store and the cache.
use crate::acl::{action_of, allowed, law_scopes_allow_their_own_action_only};
use crate::endpoint::{
    answer_of, authorized, decided, delete_answer, escape_error, escapes, exists_answer,
    jail_denial, led, lemma_root_comes_first, located, located_path, location_model,
    operation_model, operation_of, option_text, read_answer, read_answer_of, refusal_error,
    reply_model, resolved, search_after, search_start, self_description, step_text, text_model,
    write_answer, BackendStep, EndpointModel, Finding, FindingModel, Location, LocationModel,
    Operation, OperationModel, Outcome, OutcomeModel, Place, PlaceModel, Search, SearchModel,
    FILE_TEMPLATE,
};
use crate::error::{denial, ErrorModel, FsError};
use crate::kernel::{
    bare_type, bytes_model, inline_value, representation_of, Argument, InputModel,
    RepresentationModel, RequestModel, TypeModel, Verb,
};
use crate::path::{
    body, joined, law_components_further_down, law_within_is_reflexive, law_within_is_transitive,
    leading, lemma_parent_is_a_prefix, lemma_parts_of_join, lemma_parts_of_parent, parent, parts,
    pieces, within, Part,
};
use crate::representation::{source_type_of, OCTET_STREAM};
use crate::text::{decimal, law_decimals_spell_their_number, number_of};
use ikigai_core::Representation;
use vstd::prelude::*;
use vstd::utf8::{decode_utf8, encode_utf8, valid_utf8};

verus! {

/// Where an operation takes place.
pub open spec fn place(operation: OperationModel) -> LocationModel {
    match operation {
        OperationModel::Read(location) => location,
        OperationModel::Write(location, _) => location,
        OperationModel::Exists(location) => location,
        OperationModel::Delete(location) => location,
    }
}

/// What a store of files by path holds after an operation, if it held `store` before.
pub open spec fn store_after(
    operation: OperationModel,
    store: Map<Seq<char>, Seq<u8>>,
) -> Map<Seq<char>, Seq<u8>> {
    match operation {
        OperationModel::Read(_) | OperationModel::Exists(_) => store,
        OperationModel::Write(location, bytes) => store.insert(location.target, bytes),
        OperationModel::Delete(location) => store.remove(location.target),
    }
}

/// What the jail lets through stays within the root, and none of the components below the root
/// leads up or back to the top.
pub proof fn law_jail_confines(root: Seq<char>, rel: Seq<char>)
    requires
        jail_denial(rel) is None,
    ensures
        within(root, joined(root, rel)),
        forall|i: int|
            parts(root).len() <= i < parts(joined(root, rel)).len() ==> {
                &&& (#[trigger] parts(joined(root, rel))[i]) !is Parent
                &&& parts(joined(root, rel))[i] !is Root
            },
{
    let target = joined(root, rel);
    let n = parts(root).len() as int;
    lemma_root_comes_first(rel);
    assert(parts(rel) == leading(rel) + body(pieces(rel)));
    if root.len() == 0 {
        reveal_with_fuel(body, 2);
        assert(root =~= Seq::empty());
        assert(pieces(root) =~= seq![Seq::<char>::empty()]);
        assert(pieces(root).drop_last() =~= Seq::empty());
        assert(parts(root) =~= Seq::empty());
        assert(target =~= rel);
        assert(parts(root) =~= parts(target).subrange(0, n));
        assert forall|i: int| 0 <= i < parts(target).len() implies {
            &&& (#[trigger] parts(target)[i]) !is Parent
            &&& parts(target)[i] !is Root
        } by {
            assert(parts(rel).contains(parts(rel)[i]));
        }
    } else {
        lemma_parts_of_join(root, rel);
        assert(parts(root) =~= parts(target).subrange(0, n));
        assert forall|i: int| n <= i < parts(target).len() implies {
            &&& (#[trigger] parts(target)[i]) !is Parent
            &&& parts(target)[i] !is Root
        } by {
            let k = i - n + leading(rel).len();
            assert(parts(target)[i] == parts(rel)[k]);
            assert(parts(rel).contains(parts(rel)[k]));
        }
    }
}

/// Nothing is done on the store unless both layers let it pass: the jail by the segments of the
/// path, the jail by the canonical paths, and the capability.
pub proof fn law_operations_pass_both_layers(
    endpoint: EndpointModel,
    request: RequestModel,
    root: Option<Seq<char>>,
    nearest: Option<Seq<char>>,
)
    requires
        authorized(endpoint, request, root, nearest) is Ok,
    ensures
        ({
            let at = place(authorized(endpoint, request, root, nearest)->Ok_0);
            &&& request.bindings.contains_key("path"@)
            &&& at.rel == request.bindings["path"@]
            &&& at.target == joined(endpoint.root, at.rel)
            &&& jail_denial(at.rel) is None
            &&& within(endpoint.root, at.target)
            &&& root is Some ==> nearest is Some && within(root->0, nearest->0)
            &&& action_of(request.verb) is Some
            &&& allowed(request.scopes, action_of(request.verb)->0, at.target)
        }),
{
    law_jail_confines(endpoint.root, request.bindings["path"@]);
}

/// Where nothing can be reached and no link is to be followed, the search goes up through the
/// directories that contain the path, and does not leave the root before it has looked at the root
/// itself.
pub proof fn law_search_goes_up_to_the_root(
    root: Seq<char>,
    place: PlaceModel,
    found: FindingModel,
)
    requires
        within(root, place.path),
        parts(root).len() < parts(place.path).len(),
        parts(place.path).last() !is Root,
        found is Absent || (found is Link && place.links == 0),
    ensures
        search_after(place, found) matches SearchModel::LookUp(up) && {
            &&& up.links == 0
            &&& up.path.len() < place.path.len()
            &&& parts(up.path).len() == parts(place.path).len() - 1
            &&& within(up.path, place.path)
            &&& within(root, up.path)
        },
{
    let path = place.path;
    lemma_parts_of_parent(path);
    let up = parent(path)->0;
    assert(parts(up) =~= parts(path).subrange(0, parts(up).len() as int));
    assert(parts(root) =~= parts(up).subrange(0, parts(root).len() as int)) by {
        assert(parts(path).subrange(0, parts(root).len() as int) =~= parts(up).subrange(
            0,
            parts(root).len() as int,
        ));
    }
}

/// To all but a write, a link through which nothing can be reached counts as nothing.
pub proof fn law_dead_links_count_as_nothing(verb: Verb, target: Seq<char>, text: Option<Seq<char>>)
    requires
        verb != Verb::Sink,
    ensures
        search_after(search_start(verb, target), FindingModel::Link(text)) == search_after(
            search_start(verb, target),
            FindingModel::Absent,
        ),
{
}

/// What the whole search from `place` ends with on a host where `found` tells what is at each path.
pub open spec fn searched(
    found: spec_fn(Seq<char>) -> FindingModel,
    place: PlaceModel,
) -> Option<Seq<char>>
    decreases place.links, place.path.len(),
{
    match search_after(place, found(place.path)) {
        SearchModel::Ended(nearest) => nearest,
        SearchModel::LookUp(onward) => if onward.links < place.links || (onward.links
            == place.links && onward.path.len() < place.path.len()) {
            searched(found, onward)
        } else {
            None
        },
    }
}

/// Where an operation at `place` takes place: where the links lead that it follows, and nowhere
/// known where one of them does not say.
pub open spec fn reached(
    found: spec_fn(Seq<char>) -> FindingModel,
    place: PlaceModel,
) -> Option<Seq<char>>
    decreases place.links,
{
    if place.links == 0 {
        Some(place.path)
    } else {
        match found(place.path) {
            FindingModel::Link(Some(text)) => reached(
                found,
                PlaceModel { path: led(place.path, text), links: (place.links - 1) as nat },
            ),
            FindingModel::Link(None) => None,
            _ => Some(place.path),
        }
    }
}

/// The search that follows no links.
pub open spec fn climbed(
    found: spec_fn(Seq<char>) -> FindingModel,
    path: Seq<char>,
) -> Option<Seq<char>> {
    searched(found, PlaceModel { path, links: 0 })
}

/// What is at a path depends on its components alone, not on how it is spelled.
pub open spec fn spelling_does_not_matter(found: spec_fn(Seq<char>) -> FindingModel) -> bool {
    forall|a: Seq<char>, b: Seq<char>|
        #![trigger found(a), found(b)]
        parts(a) == parts(b) ==> found(a) == found(b)
}

/// The search first follows links, to where the operation takes place, and then goes up from
/// there.
pub proof fn law_search_follows_links_first(
    found: spec_fn(Seq<char>) -> FindingModel,
    place: PlaceModel,
)
    ensures
        searched(found, place) == match reached(found, place) {
            Some(path) => climbed(found, path),
            None => None,
        },
    decreases place.links,
{
    if place.links > 0 {
        if let FindingModel::Link(Some(text)) = found(place.path) {
            law_search_follows_links_first(
                found,
                PlaceModel { path: led(place.path, text), links: (place.links - 1) as nat },
            );
        } else {
            let still = PlaceModel { path: place.path, links: 0 };
            if parent(place.path) is Some {
                lemma_parts_of_parent(place.path);
            }
            assert(found(place.path) !is Link ==> search_after(still, found(still.path))
                == search_after(place, found(place.path)));
        }
    }
}

/// A canonical path that the search ends with is that of something at the path or above it.
pub proof fn law_search_finds_what_is_there(
    found: spec_fn(Seq<char>) -> FindingModel,
    path: Seq<char>,
)
    requires
        climbed(found, path) is Some,
    ensures
        exists|at: Seq<char>| #[trigger]
            within(at, path) && found(at) == FindingModel::Canonical(climbed(found, path)->0),
    decreases path.len(),
{
    if found(path) is Canonical {
        law_within_is_reflexive(path);
    } else {
        let up = parent(path)->0;
        lemma_parts_of_parent(path);
        law_search_finds_what_is_there(found, up);
        let at = choose|at: Seq<char>| #[trigger]
            within(at, up) && found(at) == FindingModel::Canonical(climbed(found, up)->0);
        assert(parts(up) =~= parts(path).subrange(0, parts(up).len() as int));
        law_within_is_transitive(at, up, path);
    }
}

/// Where there is a root, the search that follows no links ends at the path, the root or a
/// directory in between, where something can be reached. It finds the canonical path of that place,
/// where there is one.
pub proof fn law_search_ends_within_the_root(
    found: spec_fn(Seq<char>) -> FindingModel,
    root: Seq<char>,
    path: Seq<char>,
)
    requires
        within(root, path),
        parts(root).len() > 0 || !parts(path).contains(Part::Root),
        found(root) is Canonical,
        spelling_does_not_matter(found),
    ensures
        exists|at: Seq<char>|
            {
                &&& #[trigger] within(root, at)
                &&& within(at, path)
                &&& found(at) is Canonical || found(at) is Unresolved
                &&& climbed(found, path) == match found(at) {
                    FindingModel::Canonical(canonical) => Some(canonical),
                    _ => None,
                }
            },
    decreases path.len(),
{
    let n = parts(root).len() as int;
    if found(path) is Absent || found(path) is Link {
        if parts(path).len() == n {
            assert(parts(root) =~= parts(path).subrange(0, n));
            assert(parts(root) =~= parts(path));
            assert(found(root) == found(path));
        }
        lemma_root_comes_first(path);
        assert(parts(path).last() !is Root) by {
            if n == 0 {
                assert(parts(path).contains(parts(path).last()));
            }
        }
        law_search_goes_up_to_the_root(root, PlaceModel { path, links: 0 }, found(path));
        let up = parent(path)->0;
        assert(parts(up) =~= parts(path).subrange(0, parts(up).len() as int));
        if parts(up).contains(Part::Root) {
            let i = choose|i: int| 0 <= i < parts(up).len() && parts(up)[i] == Part::Root;
            assert(parts(path)[i] == Part::Root);
        }
        law_search_ends_within_the_root(found, root, up);
        let at = choose|at: Seq<char>|
            {
                &&& #[trigger] within(root, at)
                &&& within(at, up)
                &&& found(at) is Canonical || found(at) is Unresolved
                &&& climbed(found, up) == match found(at) {
                    FindingModel::Canonical(canonical) => Some(canonical),
                    _ => None,
                }
            };
        law_within_is_transitive(at, up, path);
    } else {
        law_within_is_reflexive(path);
        assert(within(root, path));
    }
}

/// A path that the jail lets through leaves the root's own components in front, so that the search
/// from it comes to the root.
proof fn lemma_resolved_path_is_below(root: Seq<char>, rel: Seq<char>)
    requires
        jail_denial(rel) is None,
    ensures
        within(root, joined(root, rel)),
        parts(root).len() > 0 || !parts(joined(root, rel)).contains(Part::Root),
{
    let path = joined(root, rel);
    law_jail_confines(root, rel);
    if parts(root).len() == 0 && parts(path).contains(Part::Root) {
        let i = choose|i: int| 0 <= i < parts(path).len() && parts(path)[i] == Part::Root;
        assert(parts(path)[i] !is Root);
    }
}

/// A jail without links refuses nothing by its canonical paths: where everything below the root
/// has a canonical path within that of the root, every path that the segments let through is
/// confirmed, whether or not anything is there.
pub proof fn law_plain_directories_are_contained(
    found: spec_fn(Seq<char>) -> FindingModel,
    verb: Verb,
    root: Seq<char>,
    rel: Seq<char>,
    canonical: Seq<char>,
)
    requires
        jail_denial(rel) is None,
        found(root) == FindingModel::Canonical(canonical),
        spelling_does_not_matter(found),
        forall|at: Seq<char>| #[trigger]
            within(root, at) && found(at) !is Absent ==> found(at) is Canonical && within(
                canonical,
                found(at)->Canonical_0,
            ),
    ensures
        !escapes(Some(canonical), searched(found, search_start(verb, joined(root, rel)))),
{
    let path = joined(root, rel);
    lemma_resolved_path_is_below(root, rel);
    law_search_follows_links_first(found, search_start(verb, path));
    law_search_ends_within_the_root(found, root, path);
}

/// Whatever a host has at each path, an operation that passes with the outcome of the search takes
/// place within the root: where it takes place, or above it, there is something whose canonical
/// path lies within that of the root. Where that is the target itself (no link was followed to
/// write through it), that something lies at or below the root. Where something can be reached at
/// the target, its canonical path lies within that of the root.
pub proof fn law_operations_stay_within_the_root(
    found: spec_fn(Seq<char>) -> FindingModel,
    endpoint: EndpointModel,
    request: RequestModel,
    canonical: Seq<char>,
)
    requires
        found(endpoint.root) == FindingModel::Canonical(canonical),
        spelling_does_not_matter(found),
        located(endpoint, request) is Ok,
        authorized(
            endpoint,
            request,
            Some(canonical),
            searched(
                found,
                search_start(request.verb, located(endpoint, request)->Ok_0.target),
            ),
        ) is Ok,
    ensures
        ({
            let target = located(endpoint, request)->Ok_0.target;
            let end = reached(found, search_start(request.verb, target));
            &&& end is Some
            &&& exists|at: Seq<char>|
                {
                    &&& #[trigger] within(at, end->0)
                    &&& found(at) is Canonical
                    &&& within(canonical, found(at)->Canonical_0)
                    &&& end->0 == target ==> within(endpoint.root, at)
                }
            &&& request.verb != Verb::Sink || found(target) !is Link ==> end->0 == target
            &&& found(target) is Canonical ==> within(canonical, found(target)->Canonical_0)
            &&& found(target) !is Unresolved
        }),
{
    let target = located(endpoint, request)->Ok_0.target;
    let start = search_start(request.verb, target);
    law_search_follows_links_first(found, start);
    let end = reached(found, start);
    if end->0 == target {
        lemma_resolved_path_is_below(endpoint.root, request.bindings["path"@]);
        law_search_ends_within_the_root(found, endpoint.root, target);
        let at = choose|at: Seq<char>|
            {
                &&& #[trigger] within(endpoint.root, at)
                &&& within(at, target)
                &&& found(at) is Canonical || found(at) is Unresolved
                &&& climbed(found, target) == match found(at) {
                    FindingModel::Canonical(canonical) => Some(canonical),
                    _ => None,
                }
            };
        assert(within(at, end->0));
    } else {
        law_search_finds_what_is_there(found, end->0);
    }
}

/// The jail refuses by its segments only what is absolute or has a `..` segment. Every other path,
/// however long and deep, stands for itself below the root.
pub proof fn law_jail_refuses_only_what_leads_out(root: Seq<char>, rel: Seq<char>)
    ensures
        resolved(root, rel) is Ok <==> !parts(rel).contains(Part::Root) && !parts(rel).contains(
            Part::Parent,
        ),
        resolved(root, rel) is Ok ==> resolved(root, rel)->Ok_0 == joined(root, rel),
        parts(rel).contains(Part::Root) ==> resolved(root, rel) == Err::<Seq<char>, ErrorModel>(
            ErrorModel::InvalidArgument {
                name: "path"@,
                detail: "absolute paths are not allowed"@,
            },
        ),
        parts(rel).contains(Part::Parent) && !parts(rel).contains(Part::Root) ==> resolved(
            root,
            rel,
        ) == Err::<Seq<char>, ErrorModel>(
            ErrorModel::InvalidArgument {
                name: "path"@,
                detail: "parent-directory (`..`) segments are not allowed"@,
            },
        ),
        parts(rel).contains(Part::Root) <==> rel.len() > 0 && rel[0] == '/',
{
    lemma_root_comes_first(rel);
}

/// Names alone never lead out: below any path that the jail lets through, it lets through every
/// further name too, and a `.` or a slash at the end; a further `..` it never lets through.
pub proof fn law_jail_lets_names_through(root: Seq<char>, rel: Seq<char>, name: Seq<char>)
    requires
        resolved(root, rel) is Ok,
        rel.len() > 0,
        !name.contains('/'),
    ensures
        resolved(root, rel.push('/') + name) is Ok <==> name != seq!['.', '.'],
{
    law_components_further_down(rel, name);
    let more = parts(rel.push('/') + name);
    let last = parts(rel).len() as int;
    if name == seq!['.', '.'] {
        assert(more[last] == Part::Parent);
    } else {
        assert forall|part: Part| part is Root || part is Parent implies !#[trigger] more.contains(
            part,
        ) by {
            if more.contains(part) {
                let i = choose|i: int| 0 <= i < more.len() && more[i] == part;
                assert(i < last);
                assert(parts(rel)[i] == part);
                assert(parts(rel).contains(part));
            }
        }
    }
}

/// The captured path is where the request points; without one it points nowhere.
pub proof fn law_requests_point_to_the_captured_path(
    endpoint: EndpointModel,
    request: RequestModel,
    rel: Seq<char>,
)
    ensures
        located_path(endpoint, None) == Err::<LocationModel, ErrorModel>(
            ErrorModel::MissingArgument("path"@),
        ),
        resolved(endpoint.root, rel) is Ok ==> located_path(endpoint, Some(rel)) == Ok::<
            LocationModel,
            ErrorModel,
        >(LocationModel { rel, target: resolved(endpoint.root, rel)->Ok_0 }),
        resolved(endpoint.root, rel) is Err ==> located_path(endpoint, Some(rel)) == Err::<
            LocationModel,
            ErrorModel,
        >(resolved(endpoint.root, rel)->Err_0),
        request.bindings.contains_key("path"@) ==> located(endpoint, request) == located_path(
            endpoint,
            Some(request.bindings["path"@]),
        ),
        !request.bindings.contains_key("path"@) ==> located(endpoint, request) == located_path(
            endpoint,
            None,
        ),
{
}

/// No segment of `rel` leads out of the root, and what is known of the canonical paths bears that
/// out.
pub open spec fn inside(
    rel: Seq<char>,
    root: Option<Seq<char>>,
    nearest: Option<Seq<char>>,
) -> bool {
    &&& !parts(rel).contains(Part::Root)
    &&& !parts(rel).contains(Part::Parent)
    &&& root is None || (nearest is Some && within(root->0, nearest->0))
}

/// What is inside is done where the capability allows the verb's own action, and no other: reading
/// and checking take `read`, writing takes `write`, removing takes `delete`. It is done at the
/// captured path below the root, and a write writes the very content that came with it.
pub proof fn law_granted_requests_are_served(
    endpoint: EndpointModel,
    rel: Seq<char>,
    held: Option<Set<Seq<char>>>,
    content: Result<Seq<u8>, ErrorModel>,
    root: Option<Seq<char>>,
    nearest: Option<Seq<char>>,
)
    requires
        inside(rel, root, nearest),
    ensures
        ({
            let at = LocationModel { rel, target: joined(endpoint.root, rel) };
            let done = |verb: Verb|
                decided(endpoint, verb, Some(rel), held, content, root, nearest);
            &&& allowed(held, "read"@, at.target) ==> {
                &&& done(Verb::Source) == Ok::<OperationModel, ErrorModel>(OperationModel::Read(at))
                &&& done(Verb::Exists) == Ok::<OperationModel, ErrorModel>(
                    OperationModel::Exists(at),
                )
            }
            &&& allowed(held, "write"@, at.target) ==> {
                &&& content matches Ok(bytes) ==> done(Verb::Sink) == Ok::<
                    OperationModel,
                    ErrorModel,
                >(OperationModel::Write(at, bytes))
                &&& content matches Err(error) ==> done(Verb::Sink) == Err::<
                    OperationModel,
                    ErrorModel,
                >(error)
            }
            &&& allowed(held, "delete"@, at.target) ==> done(Verb::Delete) == Ok::<
                OperationModel,
                ErrorModel,
            >(OperationModel::Delete(at))
        }),
{
}

/// What is inside and not allowed is refused, with a message that names the verb's action and the
/// path.
pub proof fn law_refusals_name_the_action_and_the_path(
    endpoint: EndpointModel,
    rel: Seq<char>,
    held: Option<Set<Seq<char>>>,
    content: Result<Seq<u8>, ErrorModel>,
    root: Option<Seq<char>>,
    nearest: Option<Seq<char>>,
)
    requires
        inside(rel, root, nearest),
    ensures
        ({
            let target = joined(endpoint.root, rel);
            let done = |verb: Verb|
                decided(endpoint, verb, Some(rel), held, content, root, nearest);
            let refusal = |action: Seq<char>|
                Err::<OperationModel, ErrorModel>(
                    ErrorModel::Endpoint(
                        "capability does not grant `"@ + action + "` on `"@ + rel + "`"@,
                    ),
                );
            &&& !allowed(held, "read"@, target) ==> done(Verb::Source) == refusal("read"@) && done(
                Verb::Exists,
            ) == refusal("read"@)
            &&& !allowed(held, "write"@, target) ==> done(Verb::Sink) == refusal("write"@)
            &&& !allowed(held, "delete"@, target) ==> done(Verb::Delete) == refusal("delete"@)
            &&& done(Verb::Meta) == Err::<OperationModel, ErrorModel>(
                ErrorModel::Endpoint("file endpoint does not support the Meta verb"@),
            )
        }),
{
    reveal_strlit("file endpoint does not support the ");
    reveal_strlit("Meta");
    reveal_strlit(" verb");
    reveal_strlit("file endpoint does not support the Meta verb");
    assert("file endpoint does not support the "@ + "Meta"@ + " verb"@
        =~= "file endpoint does not support the Meta verb"@);
}

/// What is not inside is refused by the jail, whatever the verb, the capability and the content
/// are.
pub proof fn law_refusals_of_the_jail(
    endpoint: EndpointModel,
    verb: Verb,
    rel: Seq<char>,
    held: Option<Set<Seq<char>>>,
    content: Result<Seq<u8>, ErrorModel>,
    root: Option<Seq<char>>,
    nearest: Option<Seq<char>>,
)
    ensures
        decided(endpoint, verb, None, held, content, root, nearest) == Err::<
            OperationModel,
            ErrorModel,
        >(ErrorModel::MissingArgument("path"@)),
        !inside(rel, root, nearest) ==> decided(
            endpoint,
            verb,
            Some(rel),
            held,
            content,
            root,
            nearest,
        ) == Err::<OperationModel, ErrorModel>(
            if parts(rel).contains(Part::Root) {
                ErrorModel::InvalidArgument {
                    name: "path"@,
                    detail: "absolute paths are not allowed"@,
                }
            } else if parts(rel).contains(Part::Parent) {
                ErrorModel::InvalidArgument {
                    name: "path"@,
                    detail: "parent-directory (`..`) segments are not allowed"@,
                }
            } else {
                ErrorModel::Endpoint("resolved path escapes the endpoint root"@)
            },
        ),
        escapes(root, nearest) <==> root is Some && (nearest is None || !within(
            root->0,
            nearest->0,
        )),
        escape_error() == ErrorModel::Endpoint("resolved path escapes the endpoint root"@),
{
}

/// A request is decided by its verb, its captured path, its capability and its inline `content`,
/// and by nothing else of it.
pub proof fn law_requests_are_decided_by_these(
    endpoint: EndpointModel,
    request: RequestModel,
    root: Option<Seq<char>>,
    nearest: Option<Seq<char>>,
)
    ensures
        authorized(endpoint, request, root, nearest) == decided(
            endpoint,
            request.verb,
            if request.bindings.contains_key("path"@) {
                Some(request.bindings["path"@])
            } else {
                None
            },
            request.scopes,
            if !request.arguments.contains_key("content"@) {
                Err(ErrorModel::MissingArgument("content"@))
            } else {
                match request.arguments["content"@] {
                    Argument::Inline(bytes) => Ok(bytes),
                    Argument::Elsewhere => Err(
                        ErrorModel::InvalidArgument {
                            name: "content"@,
                            detail: "expected an inline value"@,
                        },
                    ),
                }
            },
            root,
            nearest,
        ),
{
}

/// A capability whose scopes are all for other actions than the verb's own gets nothing done: to
/// hold `write` is not to hold `read`, nor the other way round.
pub proof fn law_scopes_serve_their_own_action_only(
    endpoint: EndpointModel,
    request: RequestModel,
    root: Option<Seq<char>>,
    nearest: Option<Seq<char>>,
    scopes: Set<Seq<char>>,
)
    requires
        request.scopes == Some(scopes),
        forall|scope: Seq<char>| #[trigger]
            scopes.contains(scope) ==> {
                ||| "urn:cap:fs:read:"@.is_prefix_of(scope) && request.verb != Verb::Source
                    && request.verb != Verb::Exists
                ||| "urn:cap:fs:write:"@.is_prefix_of(scope) && request.verb != Verb::Sink
                ||| "urn:cap:fs:delete:"@.is_prefix_of(scope) && request.verb != Verb::Delete
            },
    ensures
        authorized(endpoint, request, root, nearest) is Err,
{
    reveal_strlit("urn:cap:fs:");
    reveal_strlit(":");
    reveal_strlit("read");
    reveal_strlit("write");
    reveal_strlit("delete");
    reveal_strlit("urn:cap:fs:read:");
    reveal_strlit("urn:cap:fs:write:");
    reveal_strlit("urn:cap:fs:delete:");
    assert("urn:cap:fs:"@ + "read"@ + ":"@ =~= "urn:cap:fs:read:"@);
    assert("urn:cap:fs:"@ + "write"@ + ":"@ =~= "urn:cap:fs:write:"@);
    assert("urn:cap:fs:"@ + "delete"@ + ":"@ =~= "urn:cap:fs:delete:"@);
    assert("read"@.len() == 4 && "write"@.len() == 5 && "delete"@.len() == 6);
    assert(!"read"@.contains(':'));
    assert(!"write"@.contains(':'));
    assert(!"delete"@.contains(':'));
    if request.verb != Verb::Meta {
        let action = action_of(request.verb)->0;
        assert forall|scope: Seq<char>| #[trigger] scopes.contains(scope) implies exists|
            other: Seq<char>,
        |
            {
                &&& !other.contains(':')
                &&& other != action
                &&& #[trigger] ("urn:cap:fs:"@ + other + ":"@).is_prefix_of(scope)
            } by {
            if "urn:cap:fs:read:"@.is_prefix_of(scope) && request.verb != Verb::Source
                && request.verb != Verb::Exists {
                assert(("urn:cap:fs:"@ + "read"@ + ":"@).is_prefix_of(scope));
            } else if "urn:cap:fs:write:"@.is_prefix_of(scope) && request.verb != Verb::Sink {
                assert(("urn:cap:fs:"@ + "write"@ + ":"@).is_prefix_of(scope));
            } else {
                assert(("urn:cap:fs:"@ + "delete"@ + ":"@).is_prefix_of(scope));
            }
        }
        if request.bindings.contains_key("path"@) {
            law_scopes_allow_their_own_action_only(
                scopes,
                action,
                joined(endpoint.root, request.bindings["path"@]),
            );
        }
    }
}

/// An existence check passes exactly where a read does, and fails as a read fails.
pub proof fn law_checking_is_like_reading(
    endpoint: EndpointModel,
    request: RequestModel,
    root: Option<Seq<char>>,
    nearest: Option<Seq<char>>,
)
    ensures
        ({
            let read = authorized(
                endpoint,
                (RequestModel { verb: Verb::Source, ..request }),
                root,
                nearest,
            );
            let check = authorized(
                endpoint,
                (RequestModel { verb: Verb::Exists, ..request }),
                root,
                nearest,
            );
            &&& read is Ok <==> check is Ok
            &&& read is Ok ==> read->Ok_0 is Read && check->Ok_0 is Exists && place(check->Ok_0)
                == place(read->Ok_0)
            &&& read is Err ==> read == check
        }),
{
}

/// One step of the search: it ends at a canonical path, and without one where something has none.
/// Where nothing can be reached it goes up by one component, following no link from there on, until
/// there is nothing further up.
pub proof fn law_steps_of_the_search(
    path: Seq<char>,
    links: nat,
    canonical: Seq<char>,
    text: Option<Seq<char>>,
)
    ensures
        ({
            let next = |found: FindingModel| search_after(PlaceModel { path, links }, found);
            let top = parts(path).len() == 0 || parts(path).last() is Root;
            &&& next(FindingModel::Canonical(canonical)) == SearchModel::Ended(Some(canonical))
            &&& next(FindingModel::Unresolved) == SearchModel::Ended(None)
            &&& top ==> next(FindingModel::Absent) == SearchModel::Ended(None)
            &&& !top ==> (next(FindingModel::Absent) matches SearchModel::LookUp(up) && {
                &&& up.links == 0
                &&& parts(up.path) == parts(path).drop_last()
                &&& up.path.is_prefix_of(path)
                &&& up.path.len() < path.len()
            })
            &&& links == 0 ==> next(FindingModel::Link(text)) == next(FindingModel::Absent)
            &&& links > 0 && text is None ==> next(FindingModel::Link(text)) == SearchModel::Ended(
                None,
            )
            &&& links > 0 && text is Some ==> (next(FindingModel::Link(text)) matches
                SearchModel::LookUp(onward) && {
                &&& onward.links == links - 1
                &&& top ==> onward.path == text->0
                &&& !top ==> onward.path == joined(
                    next(FindingModel::Absent)->LookUp_0.path,
                    text->0,
                )
            })
        }),
{
    let top = parts(path).len() == 0 || parts(path).last() is Root;
    if !top {
        lemma_parts_of_parent(path);
        lemma_parent_is_a_prefix(path);
    }
}

/// The search starts at the target. A write may follow more links than hosts do, forty and some;
/// nothing else follows any.
pub proof fn law_start_of_the_search(verb: Verb, target: Seq<char>)
    ensures
        search_start(verb, target).path == target,
        verb == Verb::Sink ==> search_start(verb, target).links > 40,
        verb != Verb::Sink ==> search_start(verb, target).links == 0,
{
}

/// A read is answered with the very bytes that were read, in the type that was asked for or else
/// in that of the file. It may be kept only where the endpoint says so, and then until the
/// resource that was asked for changes.
pub proof fn law_reads_are_answered_with_what_was_read(
    endpoint: EndpointModel,
    request: RequestModel,
    at: LocationModel,
    bytes: Seq<u8>,
)
    ensures
        ({
            let answer = answer_of(
                endpoint,
                request,
                OperationModel::Read(at),
                OutcomeModel::Bytes(bytes),
            );
            let reply = answer->0;
            let asked = request.arguments["as"@];
            let asks = request.arguments.contains_key("as"@) && asked is Inline && valid_utf8(
                asked->Inline_0,
            );
            &&& answer is Some
            &&& reply.bytes == bytes
            &&& reply.cacheable == endpoint.cacheable
            &&& forall|thread: Seq<char>| #[trigger]
                reply.threads.contains(thread) <==> endpoint.cacheable && thread == request.target
            &&& asks ==> reply.repr_type == source_type_of(
                at.target,
                bytes,
                Some(decode_utf8(asked->Inline_0)),
            )
            &&& !asks ==> reply.repr_type == source_type_of(at.target, bytes, None)
        }),
{
}

/// The same of the answer by its plain values.
pub proof fn law_answers_to_reads_by_plain_values(
    endpoint: EndpointModel,
    thread: Seq<char>,
    requested: Option<Seq<char>>,
    path: Seq<char>,
    bytes: Seq<u8>,
)
    ensures
        ({
            let reply = read_answer_of(endpoint, thread, requested, path, bytes);
            &&& reply.bytes == bytes
            &&& reply.repr_type == source_type_of(path, bytes, requested)
            &&& reply.cacheable == endpoint.cacheable
            &&& forall|other: Seq<char>| #[trigger]
                reply.threads.contains(other) <==> endpoint.cacheable && other == thread
        }),
{
}

/// A short plain text that is not kept.
pub open spec fn says(reply: RepresentationModel, message: Seq<char>) -> bool {
    &&& reply.bytes == encode_utf8(message)
    &&& reply.repr_type.media_type == "text/plain"@
    &&& reply.repr_type.params == map!["charset"@ => "utf-8"@]
    &&& !reply.cacheable
    &&& reply.threads == Set::<Seq<char>>::empty()
}

/// The answer to an existence check says what the store holds, wherever in the store and whoever
/// asks.
pub proof fn law_checks_are_answered_with_what_the_store_holds(
    endpoint: EndpointModel,
    request: RequestModel,
    at: LocationModel,
    store: Map<Seq<char>, Seq<u8>>,
)
    ensures
        ({
            let present = store.contains_key(at.target);
            let reply = answer_of(
                endpoint,
                request,
                OperationModel::Exists(at),
                OutcomeModel::Present(present),
            );
            &&& reply is Some
            &&& present ==> says(reply->0, "true"@)
            &&& !present ==> says(reply->0, "false"@)
        }),
        exists_answer(store.contains_key(at.target)) == answer_of(
            endpoint,
            request,
            OperationModel::Exists(at),
            OutcomeModel::Present(store.contains_key(at.target)),
        )->0,
{
}

/// The answer to a write says how many bytes were written and where: the number, in decimal, is
/// that of the bytes of the operation.
pub proof fn law_writes_are_answered_with_their_size(
    endpoint: EndpointModel,
    request: RequestModel,
    at: LocationModel,
    bytes: Seq<u8>,
)
    ensures
        exists|digits: Seq<char>|
            {
                &&& number_of(digits) == bytes.len()
                &&& digits.len() > 0
                &&& digits.len() > 1 ==> digits[0] != '0'
                &&& forall|i: int| 0 <= i < digits.len() ==> '0' <= #[trigger] digits[i] <= '9'
                &&& answer_of(
                    endpoint,
                    request,
                    OperationModel::Write(at, bytes),
                    OutcomeModel::Written,
                ) matches Some(reply) && says(
                    reply,
                    #[trigger] ("wrote "@ + digits + " bytes to "@ + at.rel),
                )
            },
        Some(write_answer(at.rel, bytes.len())) == answer_of(
            endpoint,
            request,
            OperationModel::Write(at, bytes),
            OutcomeModel::Written,
        ),
{
    let digits = decimal(bytes.len());
    law_decimals_spell_their_number(bytes.len());
    let message = "wrote "@ + digits + " bytes to "@ + at.rel;
    assert(says(write_answer(at.rel, bytes.len()), message));
}

/// The answer to a removal says what was removed.
pub proof fn law_removals_are_answered_with_their_path(
    endpoint: EndpointModel,
    request: RequestModel,
    at: LocationModel,
)
    ensures
        answer_of(
            endpoint,
            request,
            OperationModel::Delete(at),
            OutcomeModel::Deleted,
        ) matches Some(reply) && says(reply, "deleted "@ + at.rel) && reply == delete_answer(at.rel),
{
}

/// There is an answer exactly where the outcome is one of the operation that was asked for.
pub proof fn law_answers_fit_the_operation(
    endpoint: EndpointModel,
    request: RequestModel,
    operation: OperationModel,
    outcome: OutcomeModel,
)
    ensures
        answer_of(endpoint, request, operation, outcome) is Some <==> {
            ||| operation is Read && outcome is Bytes
            ||| operation is Write && outcome is Written
            ||| operation is Exists && outcome is Present
            ||| operation is Delete && outcome is Deleted
        },
{
}

/// What contracts see of a value is all of it: the same kind, and the same fields.
pub proof fn law_operations_are_seen_as_they_are(
    location: Location,
    bytes: Vec<u8>,
    present: bool,
)
    ensures
        location@ == (LocationModel { rel: location.rel@, target: location.target@ }),
        Operation::Read(location)@ == OperationModel::Read(location@),
        Operation::Write(location, bytes)@ == OperationModel::Write(location@, bytes@),
        Operation::Exists(location)@ == OperationModel::Exists(location@),
        Operation::Delete(location)@ == OperationModel::Delete(location@),
        Outcome::Bytes(bytes)@ == OutcomeModel::Bytes(bytes@),
        Outcome::Written@ == OutcomeModel::Written,
        Outcome::Present(present)@ == OutcomeModel::Present(present),
        Outcome::Deleted@ == OutcomeModel::Deleted,
{
}

/// The same of errors and of what comes with them.
pub proof fn law_results_are_seen_as_they_are(
    text: String,
    name: String,
    part: &str,
    location: Location,
    operation: Operation,
    bytes: Vec<u8>,
    reply: Representation,
    error: FsError,
)
    ensures
        FsError::MissingArgument(text)@ == ErrorModel::MissingArgument(text@),
        (FsError::InvalidArgument { name, detail: text })@ == (ErrorModel::InvalidArgument {
            name: name@,
            detail: text@,
        }),
        FsError::Endpoint(text)@ == ErrorModel::Endpoint(text@),
        text_model(Ok(text)) == Ok::<Seq<char>, ErrorModel>(text@),
        text_model(Err(error)) == Err::<Seq<char>, ErrorModel>(error@),
        location_model(Ok(location)) == Ok::<LocationModel, ErrorModel>(location@),
        location_model(Err(error)) == Err::<LocationModel, ErrorModel>(error@),
        operation_model(Ok(operation)) == Ok::<OperationModel, ErrorModel>(operation@),
        operation_model(Err(error)) == Err::<OperationModel, ErrorModel>(error@),
        bytes_model(Ok(bytes)) == Ok::<Seq<u8>, ErrorModel>(bytes@),
        bytes_model(Err(error)) == Err::<Seq<u8>, ErrorModel>(error@),
        reply_model(Some(reply)) == Some(representation_of(reply)),
        reply_model(None) is None,
        option_text(Some(part)) == Some(part@),
        option_text(None) is None,
{
}

/// The same of what is found and of the search.
pub proof fn law_searches_are_seen_as_they_are(path: String, place: Place)
    ensures
        Finding::Canonical(path)@ == FindingModel::Canonical(path@),
        Finding::Absent@ == FindingModel::Absent,
        Finding::Link(Some(path))@ == FindingModel::Link(Some(path@)),
        Finding::Link(None)@ == FindingModel::Link(None),
        Finding::Unresolved@ == FindingModel::Unresolved,
        place@ == (PlaceModel { path: place.path@, links: place.links as nat }),
        Search::Ended(Some(path))@ == SearchModel::Ended(Some(path@)),
        Search::Ended(None)@ == SearchModel::Ended(None),
        Search::LookUp(place)@ == SearchModel::LookUp(place@),
{
}

/// The word for each step that can fail.
pub proof fn law_steps_are_named()
    ensures
        step_text(BackendStep::Read) == "read"@,
        step_text(BackendStep::Create) == "create"@,
        step_text(BackendStep::Write) == "write"@,
        step_text(BackendStep::Exists) == "exists"@,
        step_text(BackendStep::Delete) == "delete"@,
{
}

/// The endpoint describes itself as what it is: the verbs it serves, what it takes and what it
/// gives.
pub proof fn law_the_endpoint_describes_itself()
    ensures
        FILE_TEMPLATE@ == "urn:file:{path}"@,
        self_description().id == "file"@,
        self_description().title == "Capability-gated file/store"@,
        self_description().summary == "Reads and writes files resolved relative to a jailed root. Two layers gate every request: the structural jail (no `..`, no absolute paths, symlink-safe) and the capability path-ACL (`urn:cap:fs:<read|write|delete>:<path>`, longest-prefix match, `-`-prefixed exclusions, default-deny). `Source` yields a string by default; `as=application/octet-stream` yields raw bytes."@,
        self_description().verbs == seq![
            Verb::Source,
            Verb::Sink,
            Verb::Exists,
            Verb::Delete,
            Verb::Meta,
        ],
        self_description().inputs == seq![
            InputModel {
                name: "path"@,
                summary: "Path relative to the endpoint root (no `..`, no absolute paths)."@,
                required: true,
                captured: false,
            },
            InputModel {
                name: "content"@,
                summary: "Bytes to write (Sink only)."@,
                required: true,
                captured: false,
            },
            InputModel {
                name: "as"@,
                summary: "Requested representation type for Source (e.g. application/octet-stream for raw bytes)."@,
                required: true,
                captured: false,
            },
        ],
        self_description().outputs == seq!["text/plain;charset=utf-8"@],
{
}

/// The jail comes before the capability: a path that it refuses is answered in the same way
/// whatever the scopes are, the root capability's among them.
pub proof fn law_jail_stops_every_capability(
    endpoint: EndpointModel,
    request: RequestModel,
    root: Option<Seq<char>>,
    nearest: Option<Seq<char>>,
    scopes: Option<Set<Seq<char>>>,
)
    requires
        request.bindings.contains_key("path"@),
        jail_denial(request.bindings["path"@]) is Some,
    ensures
        authorized(
            endpoint,
            (RequestModel { scopes, ..request }),
            root,
            nearest,
        ) == Err::<OperationModel, ErrorModel>(
            denial(jail_denial(request.bindings["path"@])->0),
        ),
{
}

/// A path that the canonical paths do not show to be within the root is refused whatever the
/// scopes are: one that a link leads out, and one of which nothing canonical is known.
pub proof fn law_escape_stops_every_capability(
    endpoint: EndpointModel,
    request: RequestModel,
    root: Option<Seq<char>>,
    nearest: Option<Seq<char>>,
    scopes: Option<Set<Seq<char>>>,
)
    requires
        located(endpoint, request) is Ok,
        escapes(root, nearest),
    ensures
        authorized(
            endpoint,
            (RequestModel { scopes, ..request }),
            root,
            nearest,
        ) == Err::<OperationModel, ErrorModel>(escape_error()),
{
}

/// Within the jail, the root capability allows everything.
pub proof fn law_root_capability_within_the_jail(
    endpoint: EndpointModel,
    request: RequestModel,
    root: Option<Seq<char>>,
    nearest: Option<Seq<char>>,
)
    requires
        request.scopes is None,
        located(endpoint, request) is Ok,
        !escapes(root, nearest),
    ensures
        authorized(endpoint, request, root, nearest) == operation_of(
            request.verb,
            located(endpoint, request)->Ok_0,
            inline_value(request.arguments, "content"@),
        ),
{
}

/// Within the jail, a request that the capability does not grant is answered with a refusal that
/// names the action and the path.
pub proof fn law_ungranted_requests_are_refused(
    endpoint: EndpointModel,
    request: RequestModel,
    root: Option<Seq<char>>,
    nearest: Option<Seq<char>>,
)
    requires
        located(endpoint, request) is Ok,
        !escapes(root, nearest),
        action_of(request.verb) is Some,
        !allowed(
            request.scopes,
            action_of(request.verb)->0,
            located(endpoint, request)->Ok_0.target,
        ),
    ensures
        authorized(endpoint, request, root, nearest) == Err::<OperationModel, ErrorModel>(
            refusal_error(action_of(request.verb)->0, located(endpoint, request)->Ok_0.rel),
        ),
{
}

/// A request changes the store only where its capability grants to write or to delete, and only
/// at the path that it names.
pub proof fn law_changes_are_granted(
    endpoint: EndpointModel,
    request: RequestModel,
    root: Option<Seq<char>>,
    nearest: Option<Seq<char>>,
    store: Map<Seq<char>, Seq<u8>>,
)
    requires
        authorized(endpoint, request, root, nearest) is Ok,
    ensures
        ({
            let operation = authorized(endpoint, request, root, nearest)->Ok_0;
            let target = place(operation).target;
            &&& store_after(operation, store) != store ==> {
                ||| request.verb == Verb::Sink && allowed(request.scopes, "write"@, target)
                ||| request.verb == Verb::Delete && allowed(request.scopes, "delete"@, target)
            }
            &&& store_after(operation, store).remove(target) == store.remove(target)
        }),
{
    let operation = authorized(endpoint, request, root, nearest)->Ok_0;
    let target = place(operation).target;
    assert(store_after(operation, store).remove(target) =~= store.remove(target));
}

/// What was written is what a later read of the same path finds and answers with: the very bytes
/// of the `content` argument.
pub proof fn law_read_gives_back_what_was_written(
    endpoint: EndpointModel,
    write: RequestModel,
    write_root: Option<Seq<char>>,
    write_nearest: Option<Seq<char>>,
    read: RequestModel,
    read_root: Option<Seq<char>>,
    read_nearest: Option<Seq<char>>,
    store: Map<Seq<char>, Seq<u8>>,
)
    requires
        write.verb == Verb::Sink,
        read.verb == Verb::Source,
        authorized(endpoint, write, write_root, write_nearest) is Ok,
        authorized(endpoint, read, read_root, read_nearest) is Ok,
        write.bindings["path"@] == read.bindings["path"@],
    ensures
        ({
            let written = authorized(endpoint, write, write_root, write_nearest)->Ok_0;
            let path = place(authorized(endpoint, read, read_root, read_nearest)->Ok_0).target;
            let after = store_after(written, store);
            &&& after.contains_key(path)
            &&& inline_value(write.arguments, "content"@) == Ok::<Seq<u8>, ErrorModel>(
                read_answer(endpoint, read, path, after[path]).bytes,
            )
        }),
{
}

/// What was deleted is not there any more.
pub proof fn law_deleted_files_are_gone(
    endpoint: EndpointModel,
    request: RequestModel,
    root: Option<Seq<char>>,
    nearest: Option<Seq<char>>,
    store: Map<Seq<char>, Seq<u8>>,
)
    requires
        request.verb == Verb::Delete,
        authorized(endpoint, request, root, nearest) is Ok,
    ensures
        ({
            let operation = authorized(endpoint, request, root, nearest)->Ok_0;
            !store_after(operation, store).contains_key(place(operation).target)
        }),
{
}

/// Reads are live facts by default. Where the endpoint caches, every read of a resource hangs on
/// the one thread named after it, whatever type was asked for: the thread that a write or removal
/// of that resource cuts.
pub proof fn law_reads_hang_on_their_resource(
    endpoint: EndpointModel,
    read: RequestModel,
    path: Seq<char>,
    bytes: Seq<u8>,
    change: RequestModel,
)
    requires
        change.target == read.target,
    ensures
        read_answer(endpoint, read, path, bytes).cacheable == endpoint.cacheable,
        endpoint.cacheable ==> read_answer(endpoint, read, path, bytes).threads == set![
            change.target,
        ],
        !endpoint.cacheable ==> read_answer(endpoint, read, path, bytes).threads == Set::<
            Seq<char>,
        >::empty(),
{
}

/// Text by default: valid UTF-8 never comes back as raw bytes unless raw bytes were asked for.
pub proof fn law_text_by_default(path: Seq<char>, bytes: Seq<u8>)
    requires
        valid_utf8(bytes),
    ensures
        source_type_of(path, bytes, None).media_type != OCTET_STREAM@,
{
    reveal_strlit("text/plain");
    reveal_strlit("application/octet-stream");
    assert("text/plain"@.len() != OCTET_STREAM@.len());
}

/// A requested type is given, whatever the extension and the bytes are.
pub proof fn law_requested_type_is_given(
    path: Seq<char>,
    bytes: Seq<u8>,
    media_type: Seq<char>,
)
    ensures
        source_type_of(path, bytes, Some(media_type)) == bare_type(media_type),
        source_type_of(path, bytes, Some(media_type)) == (TypeModel {
            media_type,
            params: Map::empty(),
        }),
{
}

} // verus!
