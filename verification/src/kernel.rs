//! What the endpoint has from the kernel: it reads invocations and the capabilities that they
//! carry, and it builds representations, a description and the template of its grammar.
//!
//! The kernel's own types are opaque here. A few spec functions without a body name what they
//! hold, and each wrapper below says, in those names, what one call into `ikigai_core` returns.
use crate::error::{ErrorModel, FsError};
use ikigai_core::{
    ArgSpec, Capability, Description, Error, Invocation, ReprType, Representation, TemplateError,
    UriTemplate,
};
use vstd::prelude::*;
use vstd::utf8::{decode_utf8, valid_utf8};

verus! {

/// The request verbs.
#[derive(Debug, Clone, Copy, PartialEq, Eq, Structural)]
pub enum Verb {
    /// Read a resource's representation.
    Source,
    /// Write or replace a resource's representation.
    Sink,
    /// Test for a resource's existence.
    Exists,
    /// Remove a resource.
    Delete,
    /// Read a resource's self-description.
    Meta,
}

/// A by-name argument of a request: bytes carried inline, or a value that lives elsewhere.
pub enum Argument {
    Inline(Seq<u8>),
    Elsewhere,
}

/// The authority handle of the kernel.
#[verifier::external_type_specification]
#[verifier::external_body]
pub struct ExCapability(Capability);

/// The context that the kernel hands to an endpoint.
#[verifier::external_type_specification]
#[verifier::external_body]
pub struct ExInvocation<'a>(Invocation<'a>);

/// The scopes that a capability holds; `None` is the root capability, which holds them all.
pub uninterp spec fn held_scopes(capability: Capability) -> Option<Set<Seq<char>>>;

/// All that the endpoint reads from an invocation: the verb, the target and the named arguments
/// of its request, the variables that the resolving grammar captured, and the scopes that its
/// capability holds.
pub struct RequestModel {
    pub verb: Verb,
    pub target: Seq<char>,
    pub bindings: Map<Seq<char>, Seq<char>>,
    pub arguments: Map<Seq<char>, Argument>,
    pub scopes: Option<Set<Seq<char>>>,
}

/// The request that an invocation holds.
pub uninterp spec fn request_of(inv: Invocation<'_>) -> RequestModel;

/// The bytes of the inline argument `name`, or why there are none.
pub open spec fn inline_value(arguments: Map<Seq<char>, Argument>, name: Seq<char>) -> Result<
    Seq<u8>,
    ErrorModel,
> {
    if !arguments.contains_key(name) {
        Err(ErrorModel::MissingArgument(name))
    } else {
        match arguments[name] {
            Argument::Inline(bytes) => Ok(bytes),
            Argument::Elsewhere => Err(
                ErrorModel::InvalidArgument { name, detail: "expected an inline value"@ },
            ),
        }
    }
}

/// The text of the inline argument `name`, where it is there and is valid UTF-8.
pub open spec fn inline_text(arguments: Map<Seq<char>, Argument>, name: Seq<char>) -> Option<
    Seq<char>,
> {
    match inline_value(arguments, name) {
        Ok(bytes) => if valid_utf8(bytes) {
            Some(decode_utf8(bytes))
        } else {
            None
        },
        Err(_) => None,
    }
}

/// Bytes or an error, as contracts speak of them.
pub open spec fn bytes_model(value: Result<Vec<u8>, FsError>) -> Result<Seq<u8>, ErrorModel> {
    match value {
        Ok(bytes) => Ok(bytes@),
        Err(error) => Err(error@),
    }
}

/// A representation type: a media type and its parameters.
pub struct TypeModel {
    pub media_type: Seq<char>,
    pub params: Map<Seq<char>, Seq<char>>,
}

/// A representation: its type, its bytes, whether it may be cached, and the golden threads that
/// it depends on.
pub struct RepresentationModel {
    pub repr_type: TypeModel,
    pub bytes: Seq<u8>,
    pub cacheable: bool,
    pub threads: Set<Seq<char>>,
}

/// One named input of an endpoint.
pub struct InputModel {
    pub name: Seq<char>,
    pub summary: Seq<char>,
    pub required: bool,
    pub captured: bool,
}

/// The self-description of an endpoint.
pub struct DescriptionModel {
    pub id: Seq<char>,
    pub title: Seq<char>,
    pub summary: Seq<char>,
    pub verbs: Seq<Verb>,
    pub inputs: Seq<InputModel>,
    pub outputs: Seq<Seq<char>>,
}

/// A representation type of the kernel.
#[verifier::external_type_specification]
#[verifier::external_body]
pub struct ExReprType(ReprType);

/// A representation of the kernel.
#[verifier::external_type_specification]
#[verifier::external_body]
pub struct ExRepresentation(Representation);

/// An input specification of the kernel.
#[verifier::external_type_specification]
#[verifier::external_body]
pub struct ExArgSpec(ArgSpec);

/// A self-description of the kernel.
#[verifier::external_type_specification]
#[verifier::external_body]
pub struct ExDescription(Description);

/// A parsed URI template.
#[verifier::external_type_specification]
#[verifier::external_body]
pub struct ExUriTemplate(UriTemplate);

/// Why a URI template was rejected.
#[verifier::external_type_specification]
#[verifier::external_body]
pub struct ExTemplateError(TemplateError);

/// The media type and the parameters that a `ReprType` holds.
pub uninterp spec fn type_of(repr_type: ReprType) -> TypeModel;

/// What a `Representation` holds.
pub uninterp spec fn representation_of(representation: Representation) -> RepresentationModel;

/// What an `ArgSpec` holds.
pub uninterp spec fn input_of(input: ArgSpec) -> InputModel;

/// What a `Description` holds.
pub uninterp spec fn description_of(description: Description) -> DescriptionModel;

/// The text that a `UriTemplate` was parsed from.
pub uninterp spec fn template_text(template: UriTemplate) -> Seq<char>;

/// A type without parameters.
pub open spec fn bare_type(media_type: Seq<char>) -> TypeModel {
    TypeModel { media_type, params: Map::empty() }
}

/// A character that may stand in the name of a template variable.
pub open spec fn variable_char(c: char) -> bool {
    'a' <= c <= 'z' || 'A' <= c <= 'Z' || '0' <= c <= '9' || c == '_'
}

/// The template of a literal without braces that one variable follows.
pub open spec fn ends_in_variable(text: Seq<char>, literal: Seq<char>, name: Seq<char>) -> bool {
    &&& text == literal.push('{') + name.push('}')
    &&& !literal.contains('{')
    &&& name.len() > 0
    &&& forall|i: int| 0 <= i < name.len() ==> variable_char(#[trigger] name[i])
}

/// The texts in a list, as a set.
pub open spec fn texts(list: Seq<String>) -> Set<Seq<char>> {
    list.map_values(|text: String| text@).to_set()
}

/// Calls `Capability::is_root`, which tells the root capability from one of listed scopes.
#[verifier::external_body]
pub(crate) fn is_root(capability: &Capability) -> (root: bool)
    ensures
        root == (held_scopes(*capability) is None),
{
    capability.is_root()
}

/// Calls `Capability::scopes`, which lists the scopes held: `None` for the root capability, and
/// otherwise each scope of the set. The order of the list is left open here.
#[verifier::external_body]
pub(crate) fn scopes(capability: &Capability) -> (list: Option<Vec<String>>)
    ensures
        list is None <==> held_scopes(*capability) is None,
        list matches Some(all) ==> texts(all@) == held_scopes(*capability)->0,
{
    capability.scopes().map(|held| held.iter().cloned().collect())
}

/// Reads the field `capability` of an `Invocation`: the scopes that it holds are those that the
/// invocation carries.
#[verifier::external_body]
pub(crate) fn capability_of<'a>(inv: &Invocation<'a>) -> (capability: &'a Capability)
    ensures
        held_scopes(*capability) == request_of(*inv).scopes,
{
    inv.capability
}

/// Reads the field `verb` of the request of an `Invocation`, variant by variant.
#[verifier::external_body]
pub(crate) fn verb_of(inv: &Invocation<'_>) -> (verb: Verb)
    ensures
        verb == request_of(*inv).verb,
{
    match inv.request.verb {
        ikigai_core::Verb::Source => Verb::Source,
        ikigai_core::Verb::Sink => Verb::Sink,
        ikigai_core::Verb::Exists => Verb::Exists,
        ikigai_core::Verb::Delete => Verb::Delete,
        ikigai_core::Verb::Meta => Verb::Meta,
    }
}

/// Calls `Iri::as_str` on the target of the request of an `Invocation`: the identifier as text.
#[verifier::external_body]
pub(crate) fn target_of(inv: &Invocation<'_>) -> (target: String)
    ensures
        target@ == request_of(*inv).target,
{
    inv.request.target.as_str().to_string()
}

/// Calls `Bindings::get`, which looks up a captured variable by its name.
#[verifier::external_body]
pub(crate) fn binding(inv: &Invocation<'_>, name: &str) -> (value: Option<String>)
    ensures
        value is Some <==> request_of(*inv).bindings.contains_key(name@),
        value matches Some(text) ==> text@ == request_of(*inv).bindings[name@],
{
    inv.bindings.get(name).map(|value| value.to_string())
}

/// Calls `Invocation::inline_arg`, which hands out the bytes of an inline argument. It fails with
/// a missing argument where there is none of that name, and with an invalid one where its value
/// is not inline.
#[verifier::external_body]
pub(crate) fn inline_arg(inv: &Invocation<'_>, name: &str) -> (value: Result<Vec<u8>, FsError>)
    ensures
        bytes_model(value) == inline_value(request_of(*inv).arguments, name@),
{
    inv.inline_arg(name).map(|bytes| bytes.to_vec()).map_err(|error| match error {
        Error::MissingArgument(name) => FsError::MissingArgument(name),
        Error::InvalidArgument { name, detail } => FsError::InvalidArgument { name, detail },
        Error::Endpoint(message) => FsError::Endpoint(message),
        other => FsError::Endpoint(other.to_string()),
    })
}

/// Calls `Invocation::inline_str`, which hands out an inline argument as text. It fails where
/// `inline_arg` does, and where the bytes are not valid UTF-8; why it failed is not kept.
#[verifier::external_body]
pub(crate) fn inline_str(inv: &Invocation<'_>, name: &str) -> (value: Option<String>)
    ensures
        value is Some <==> inline_text(request_of(*inv).arguments, name@) is Some,
        value matches Some(text) ==> inline_text(request_of(*inv).arguments, name@) == Some(text@),
{
    inv.inline_str(name).ok().map(|text| text.to_string())
}

/// Calls `ReprType::new`, which makes a type without parameters.
#[verifier::external_body]
pub(crate) fn repr_type(media_type: &str) -> (made: ReprType)
    ensures
        type_of(made) == bare_type(media_type@),
{
    ReprType::new(media_type)
}

/// Calls `ReprType::with_param`, which adds a parameter to a type or replaces it.
#[verifier::external_body]
pub(crate) fn with_param(base: ReprType, key: &str, value: &str) -> (made: ReprType)
    ensures
        type_of(made) == (TypeModel {
            media_type: type_of(base).media_type,
            params: type_of(base).params.insert(key@, value@),
        }),
{
    base.with_param(key, value)
}

/// Calls `Representation::new`, which puts a type and bytes together; the result may not be
/// cached and depends on no thread.
#[verifier::external_body]
pub(crate) fn representation(repr_type: ReprType, bytes: Vec<u8>) -> (made: Representation)
    ensures
        representation_of(made) == (RepresentationModel {
            repr_type: type_of(repr_type),
            bytes: bytes@,
            cacheable: false,
            threads: Set::empty(),
        }),
{
    Representation::new(repr_type, bytes)
}

/// Calls `Representation::cacheable`, after which the representation may be cached.
#[verifier::external_body]
pub(crate) fn mark_cacheable(base: Representation) -> (made: Representation)
    ensures
        representation_of(made) == (RepresentationModel {
            cacheable: true,
            ..representation_of(base)
        }),
{
    base.cacheable()
}

/// Calls `Representation::depends_on`, which adds a golden thread by its name.
#[verifier::external_body]
pub(crate) fn depends_on(base: Representation, thread: &str) -> (made: Representation)
    ensures
        representation_of(made) == (RepresentationModel {
            threads: representation_of(base).threads.insert(thread@),
            ..representation_of(base)
        }),
{
    base.depends_on(thread)
}

/// Calls `ArgSpec::new`, which makes a required by-value input without a summary.
#[verifier::external_body]
pub(crate) fn arg_spec(name: &str) -> (made: ArgSpec)
    ensures
        input_of(made) == (InputModel {
            name: name@,
            summary: Seq::empty(),
            required: true,
            captured: false,
        }),
{
    ArgSpec::new(name)
}

/// Calls `ArgSpec::summary`, which sets the summary.
#[verifier::external_body]
pub(crate) fn arg_summary(base: ArgSpec, summary: &str) -> (made: ArgSpec)
    ensures
        input_of(made) == (InputModel { summary: summary@, ..input_of(base) }),
{
    base.summary(summary)
}

/// Calls `Description::new`, which makes a description that has nothing but an identifier.
#[verifier::external_body]
pub(crate) fn description(id: &str) -> (made: Description)
    ensures
        description_of(made) == (DescriptionModel {
            id: id@,
            title: Seq::empty(),
            summary: Seq::empty(),
            verbs: Seq::empty(),
            inputs: Seq::empty(),
            outputs: Seq::empty(),
        }),
{
    Description::new(id)
}

/// Calls `Description::title`, which sets the title.
#[verifier::external_body]
pub(crate) fn describe_title(base: Description, title: &str) -> (made: Description)
    ensures
        description_of(made) == (DescriptionModel { title: title@, ..description_of(base) }),
{
    base.title(title)
}

/// Calls `Description::summary`, which sets the summary.
#[verifier::external_body]
pub(crate) fn describe_summary(base: Description, summary: &str) -> (made: Description)
    ensures
        description_of(made) == (DescriptionModel { summary: summary@, ..description_of(base) }),
{
    base.summary(summary)
}

/// Calls `Description::verb`, which adds a verb at the end of the list.
#[verifier::external_body]
pub(crate) fn describe_verb(base: Description, verb: Verb) -> (made: Description)
    ensures
        description_of(made) == (DescriptionModel {
            verbs: description_of(base).verbs.push(verb),
            ..description_of(base)
        }),
{
    base.verb(match verb {
        Verb::Source => ikigai_core::Verb::Source,
        Verb::Sink => ikigai_core::Verb::Sink,
        Verb::Exists => ikigai_core::Verb::Exists,
        Verb::Delete => ikigai_core::Verb::Delete,
        Verb::Meta => ikigai_core::Verb::Meta,
    })
}

/// Calls `Description::input`, which adds an input at the end of the list.
#[verifier::external_body]
pub(crate) fn describe_input(base: Description, input: ArgSpec) -> (made: Description)
    ensures
        description_of(made) == (DescriptionModel {
            inputs: description_of(base).inputs.push(input_of(input)),
            ..description_of(base)
        }),
{
    base.input(input)
}

/// Calls `Description::output`, which adds a media type at the end of the list.
#[verifier::external_body]
pub(crate) fn describe_output(base: Description, media_type: &str) -> (made: Description)
    ensures
        description_of(made) == (DescriptionModel {
            outputs: description_of(base).outputs.push(media_type@),
            ..description_of(base)
        }),
{
    base.output(media_type)
}

/// Calls `UriTemplate::parse`. It accepts every literal that one variable follows, and what it
/// returns keeps the text that it was given. Which other templates it accepts is not stated.
#[verifier::external_body]
pub(crate) fn parse_template(text: &str) -> (template: Result<UriTemplate, TemplateError>)
    ensures
        (exists|literal: Seq<char>, name: Seq<char>| ends_in_variable(text@, literal, name))
            ==> template is Ok,
        template matches Ok(parsed) ==> template_text(parsed) == text@,
{
    UriTemplate::parse(text)
}

} // verus!
