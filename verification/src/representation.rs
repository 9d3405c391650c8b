//! Representations: media types by extension, the type of what was read, and acknowledgements.
use crate::kernel::{
    bare_type, repr_type, representation, representation_of, type_of, with_param,
    RepresentationModel, TypeModel,
};
use crate::path::{extension, extension_of};
use crate::text::{same_text, utf8_text};
use ikigai_core::{ReprType, Representation};
use vstd::prelude::*;
use vstd::string::StrSliceExecFns;
use vstd::utf8::{encode_utf8, valid_utf8};

verus! {

/// The media type of raw bytes.
pub const OCTET_STREAM: &'static str = "application/octet-stream";

/// The media type that the extension of `path` stands for: raw bytes where it is none of the
/// known ones.
pub open spec fn media_type_of(path: Seq<char>) -> Seq<char> {
    let tail = extension_of(path);
    if tail == Some("txt"@) {
        "text/plain"@
    } else if tail == Some("md"@) {
        "text/markdown"@
    } else if tail == Some("ttl"@) {
        "text/turtle"@
    } else if tail == Some("nt"@) {
        "application/n-triples"@
    } else if tail == Some("json"@) {
        "application/json"@
    } else if tail == Some("jsonld"@) {
        "application/ld+json"@
    } else if tail == Some("html"@) {
        "text/html"@
    } else {
        OCTET_STREAM@
    }
}

/// Plain text in UTF-8.
pub open spec fn plain_text() -> TypeModel {
    TypeModel { media_type: "text/plain"@, params: map!["charset"@ => "utf-8"@] }
}

/// The type of `bytes` read from `path`: the requested type where there is one, else the type of
/// the extension, else plain text where the bytes are valid UTF-8, else raw bytes.
pub open spec fn source_type_of(
    path: Seq<char>,
    bytes: Seq<u8>,
    requested: Option<Seq<char>>,
) -> TypeModel {
    match requested {
        Some(media_type) => bare_type(media_type),
        None => if media_type_of(path) != OCTET_STREAM@ {
            bare_type(media_type_of(path))
        } else if valid_utf8(bytes) {
            plain_text()
        } else {
            bare_type(OCTET_STREAM@)
        },
    }
}

/// A short acknowledgement in plain text; it may not be cached.
pub open spec fn acknowledgement(message: Seq<char>) -> RepresentationModel {
    RepresentationModel {
        repr_type: plain_text(),
        bytes: encode_utf8(message),
        cacheable: false,
        threads: Set::empty(),
    }
}

/// The media type that the extension of `path` stands for.
fn media_type_text(path: &str) -> (media_type: &'static str)
    ensures
        media_type@ == media_type_of(path@),
{
    match extension(path) {
        None => OCTET_STREAM,
        Some(tail) => {
            if same_text(tail.as_str(), "txt") {
                "text/plain"
            } else if same_text(tail.as_str(), "md") {
                "text/markdown"
            } else if same_text(tail.as_str(), "ttl") {
                "text/turtle"
            } else if same_text(tail.as_str(), "nt") {
                "application/n-triples"
            } else if same_text(tail.as_str(), "json") {
                "application/json"
            } else if same_text(tail.as_str(), "jsonld") {
                "application/ld+json"
            } else if same_text(tail.as_str(), "html") {
                "text/html"
            } else {
                OCTET_STREAM
            }
        },
    }
}

/// The representation type that the extension of `path` stands for.
pub fn media_type_for(path: &str) -> (guessed: ReprType)
    ensures
        type_of(guessed) == bare_type(media_type_of(path@)),
{
    repr_type(media_type_text(path))
}

/// Plain text in UTF-8.
fn plain_text_type() -> (made: ReprType)
    ensures
        type_of(made) == plain_text(),
{
    let made = with_param(repr_type("text/plain"), "charset", "utf-8");
    assert(type_of(made).params =~= plain_text().params);
    made
}

/// The representation type of what was read: an explicit request, else the type of the
/// extension, else ("strings by default") plain text when the bytes are valid UTF-8, else raw
/// bytes.
pub fn source_type(path: &str, bytes: &[u8], as_override: Option<&str>) -> (made: ReprType)
    ensures
        type_of(made) == source_type_of(
            path@,
            bytes@,
            (match as_override {
                Some(media_type) => Some(media_type@),
                None => None,
            }),
        ),
{
    if let Some(media_type) = as_override {
        return repr_type(media_type);
    }
    let guessed = media_type_text(path);
    if !same_text(guessed, OCTET_STREAM) {
        return repr_type(guessed);
    }
    if utf8_text(bytes).is_some() {
        plain_text_type()
    } else {
        repr_type(OCTET_STREAM)
    }
}

/// A known extension decides, whatever the bytes are and whether or not they are text.
pub proof fn law_known_extensions_decide(path: Seq<char>, bytes: Seq<u8>)
    ensures
        extension_of(path) == Some("txt"@) ==> source_type_of(path, bytes, None) == (TypeModel {
            media_type: "text/plain"@,
            params: Map::empty(),
        }),
        extension_of(path) == Some("md"@) ==> source_type_of(path, bytes, None) == (TypeModel {
            media_type: "text/markdown"@,
            params: Map::empty(),
        }),
        extension_of(path) == Some("ttl"@) ==> source_type_of(path, bytes, None) == (TypeModel {
            media_type: "text/turtle"@,
            params: Map::empty(),
        }),
        extension_of(path) == Some("nt"@) ==> source_type_of(path, bytes, None) == (TypeModel {
            media_type: "application/n-triples"@,
            params: Map::empty(),
        }),
        extension_of(path) == Some("json"@) ==> source_type_of(path, bytes, None) == (TypeModel {
            media_type: "application/json"@,
            params: Map::empty(),
        }),
        extension_of(path) == Some("jsonld"@) ==> source_type_of(path, bytes, None) == (TypeModel {
            media_type: "application/ld+json"@,
            params: Map::empty(),
        }),
        extension_of(path) == Some("html"@) ==> source_type_of(path, bytes, None) == (TypeModel {
            media_type: "text/html"@,
            params: Map::empty(),
        }),
        extension_of(path) is Some && {
            ||| extension_of(path)->0 == "txt"@
            ||| extension_of(path)->0 == "md"@
            ||| extension_of(path)->0 == "ttl"@
            ||| extension_of(path)->0 == "nt"@
            ||| extension_of(path)->0 == "json"@
            ||| extension_of(path)->0 == "jsonld"@
            ||| extension_of(path)->0 == "html"@
        } ==> media_type_of(path) == source_type_of(path, bytes, None).media_type,
{
    lemma_extensions_differ();
    lemma_types_are_no_raw_bytes();
}

/// Without a known extension the bytes decide: UTF-8 is plain text, and all else is raw bytes.
pub proof fn law_bytes_decide_without_an_extension(path: Seq<char>, bytes: Seq<u8>)
    requires
        extension_of(path) != Some("txt"@),
        extension_of(path) != Some("md"@),
        extension_of(path) != Some("ttl"@),
        extension_of(path) != Some("nt"@),
        extension_of(path) != Some("json"@),
        extension_of(path) != Some("jsonld"@),
        extension_of(path) != Some("html"@),
    ensures
        media_type_of(path) == "application/octet-stream"@,
        valid_utf8(bytes) ==> source_type_of(path, bytes, None) == (TypeModel {
            media_type: "text/plain"@,
            params: map!["charset"@ => "utf-8"@],
        }),
        !valid_utf8(bytes) ==> source_type_of(path, bytes, None) == (TypeModel {
            media_type: "application/octet-stream"@,
            params: Map::empty(),
        }),
{
}

/// An acknowledgement is its message in UTF-8, as plain text that is not kept.
pub proof fn law_acknowledgements_are_plain_text(message: Seq<char>)
    ensures
        acknowledgement(message).bytes == encode_utf8(message),
        acknowledgement(message).repr_type == (TypeModel {
            media_type: "text/plain"@,
            params: map!["charset"@ => "utf-8"@],
        }),
        !acknowledgement(message).cacheable,
        acknowledgement(message).threads == Set::<Seq<char>>::empty(),
{
}

proof fn lemma_extensions_differ()
    ensures
        "txt"@ != "md"@,
        "txt"@ != "ttl"@,
        "txt"@ != "nt"@,
        "txt"@ != "json"@,
        "txt"@ != "jsonld"@,
        "txt"@ != "html"@,
        "md"@ != "ttl"@,
        "md"@ != "nt"@,
        "md"@ != "json"@,
        "md"@ != "jsonld"@,
        "md"@ != "html"@,
        "ttl"@ != "nt"@,
        "ttl"@ != "json"@,
        "ttl"@ != "jsonld"@,
        "ttl"@ != "html"@,
        "nt"@ != "json"@,
        "nt"@ != "jsonld"@,
        "nt"@ != "html"@,
        "json"@ != "jsonld"@,
        "json"@ != "html"@,
        "jsonld"@ != "html"@,
{
    reveal_strlit("txt");
    reveal_strlit("md");
    reveal_strlit("ttl");
    reveal_strlit("nt");
    reveal_strlit("json");
    reveal_strlit("jsonld");
    reveal_strlit("html");
    assert("txt"@[1] != "ttl"@[1]);
    assert("md"@[0] != "nt"@[0]);
    assert("json"@[0] != "html"@[0]);
    assert("json"@.len() == 4 && "jsonld"@.len() == 6);
}

proof fn lemma_types_are_no_raw_bytes()
    ensures
        "text/plain"@ != OCTET_STREAM@,
        "text/markdown"@ != OCTET_STREAM@,
        "text/turtle"@ != OCTET_STREAM@,
        "application/n-triples"@ != OCTET_STREAM@,
        "application/json"@ != OCTET_STREAM@,
        "application/ld+json"@ != OCTET_STREAM@,
        "text/html"@ != OCTET_STREAM@,
{
    reveal_strlit("text/plain");
    reveal_strlit("text/markdown");
    reveal_strlit("text/turtle");
    reveal_strlit("application/n-triples");
    reveal_strlit("application/json");
    reveal_strlit("application/ld+json");
    reveal_strlit("text/html");
    reveal_strlit("application/octet-stream");
    assert(OCTET_STREAM@.len() == 24);
    assert("text/plain"@.len() == 10);
    assert("text/markdown"@.len() == 13);
    assert("text/turtle"@.len() == 11);
    assert("application/n-triples"@.len() == 21);
    assert("application/json"@.len() == 16);
    assert("application/ld+json"@.len() == 19);
    assert("text/html"@.len() == 9);
}

/// A short plain-text acknowledgement.
pub fn ack(message: String) -> (made: Representation)
    ensures
        representation_of(made) == acknowledgement(message@),
{
    representation(plain_text_type(), message.as_str().as_bytes_vec())
}

} // verus!
