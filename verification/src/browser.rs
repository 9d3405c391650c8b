//! The browser store: one text item per path, in a store of UTF-16 strings.
use crate::endpoint::{backend_error, step_text, text_model, BackendStep};
use crate::error::{ErrorModel, FsError};
use crate::kernel::bytes_model;
use crate::text::utf8_text;
use vstd::prelude::*;
use vstd::string::{StrSliceExecFns, StringExecFns};
use vstd::utf8::{decode_utf8, encode_utf8, valid_utf8};

verus! {

/// The key of the item that holds the file at `path`.
pub open spec fn key_of(path: Seq<char>) -> Seq<char> {
    "ikigai:fs:"@ + path
}

/// The bytes of the file at `path`, of which the store returned `item`.
pub open spec fn item_bytes(path: Seq<char>, item: Option<Seq<char>>) -> Result<
    Seq<u8>,
    ErrorModel,
> {
    match item {
        Some(text) => Ok(encode_utf8(text)),
        None => Err(
            ErrorModel::Endpoint(
                step_text(BackendStep::Read) + " "@ + path + ": "@ + "no such item"@,
            ),
        ),
    }
}

/// Why the store refuses bytes that are no text.
pub const BINARY_REFUSAL: &'static str = "the localStorage backend stores UTF-8 text (binary needs base64)";

/// The item that holds `bytes` for the file at `path`: their text, if they are valid UTF-8.
pub open spec fn item_text(path: Seq<char>, bytes: Seq<u8>) -> Result<Seq<char>, ErrorModel> {
    if valid_utf8(bytes) {
        Ok(decode_utf8(bytes))
    } else {
        Err(
            ErrorModel::Endpoint(
                step_text(BackendStep::Write) + " "@ + path + ": "@ + BINARY_REFUSAL@,
            ),
        )
    }
}

/// The key of the item that holds the file at `path`. The namespace lets several mounts coexist
/// in one origin's store.
pub fn key(path: &str) -> (name: String)
    ensures
        name@ == key_of(path@),
{
    let mut name = "ikigai:fs:".to_owned();
    name.append(path);
    name
}

/// The bytes of the file at `path`, of which the store returned `item`.
pub fn read_item(path: &str, item: Option<String>) -> (bytes: Result<Vec<u8>, FsError>)
    ensures
        bytes_model(bytes) == item_bytes(
            path@,
            (match item {
                Some(text) => Some(text@),
                None => None,
            }),
        ),
{
    match item {
        Some(text) => Ok(text.as_str().as_bytes_vec()),
        None => Err(backend_error(BackendStep::Read, path, "no such item")),
    }
}

/// The item to store for `bytes` at `path`. The store is text-oriented: bytes that are not valid
/// UTF-8 are refused.
pub fn write_item(path: &str, bytes: &[u8]) -> (item: Result<String, FsError>)
    ensures
        text_model(item) == item_text(path@, bytes@),
{
    match utf8_text(bytes) {
        Some(text) => {
            proof {
                vstd::utf8::encode_utf8_decode_utf8(text@);
            }
            Ok(text.to_owned())
        },
        None => Err(backend_error(BackendStep::Write, path, BINARY_REFUSAL)),
    }
}

/// Files at different paths are kept in different items.
pub proof fn law_keys_tell_paths_apart(a: Seq<char>, b: Seq<char>)
    ensures
        key_of(a) == key_of(b) <==> a == b,
{
    let n = "ikigai:fs:"@.len() as int;
    assert(key_of(a).skip(n) =~= a);
    assert(key_of(b).skip(n) =~= b);
}

/// Every key is the path behind the namespace.
pub proof fn law_keys_are_namespaced(path: Seq<char>)
    ensures
        key_of(path) == "ikigai:fs:"@ + path,
{
}

/// Text is stored as it is and read as it is. Bytes that are no text are refused, and so is the
/// read of an item that is not there.
pub proof fn law_items_are_the_text_itself(path: Seq<char>, text: Seq<char>, bytes: Seq<u8>)
    ensures
        item_text(path, encode_utf8(text)) == Ok::<Seq<char>, ErrorModel>(text),
        item_bytes(path, Some(text)) == Ok::<Seq<u8>, ErrorModel>(encode_utf8(text)),
        !valid_utf8(bytes) ==> item_text(path, bytes) == Err::<Seq<char>, ErrorModel>(
            ErrorModel::Endpoint(
                "write "@ + path
                    + ": the localStorage backend stores UTF-8 text (binary needs base64)"@,
            ),
        ),
        item_bytes(path, None) == Err::<Seq<u8>, ErrorModel>(
            ErrorModel::Endpoint("read "@ + path + ": no such item"@),
        ),
{
    vstd::utf8::encode_utf8_decode_utf8(text);
    vstd::utf8::encode_utf8_valid_utf8(text);
    reveal_strlit("write ");
    reveal_strlit("write");
    reveal_strlit("read ");
    reveal_strlit("read");
    reveal_strlit(" ");
    reveal_strlit(": ");
    reveal_strlit("no such item");
    reveal_strlit(": no such item");
    reveal_strlit("the localStorage backend stores UTF-8 text (binary needs base64)");
    reveal_strlit(": the localStorage backend stores UTF-8 text (binary needs base64)");
    assert("write"@ + " "@ + path + ": "@ + BINARY_REFUSAL@ =~= "write "@ + path
        + ": the localStorage backend stores UTF-8 text (binary needs base64)"@);
    assert("read"@ + " "@ + path + ": "@ + "no such item"@ =~= "read "@ + path
        + ": no such item"@);
}

/// What was stored for some bytes reads back as those bytes.
pub proof fn law_items_round_trip(path: Seq<char>, bytes: Seq<u8>)
    requires
        item_text(path, bytes) is Ok,
    ensures
        item_bytes(path, Some(item_text(path, bytes)->Ok_0)) == Ok::<Seq<u8>, ErrorModel>(bytes),
{
    vstd::utf8::decode_utf8_encode_utf8(bytes);
}

} // verus!
