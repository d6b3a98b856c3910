//! The registry client: where a package's version history is asked for, and
//! how the registry's answer is read.

use vstd::prelude::*;
use vstd::string::StringExecFns;
use crate::error::ResolveError;
use crate::json::{json_document, member, parse_json, Json, JsonView};
use crate::version::{previous_of, previous_version, resolved_view, texts};

verus! {

/// What came back from one request to the registry.
#[derive(Debug, PartialEq, Eq)]
pub enum RegistryReply {
    /// The request failed before any response arrived.
    Unreachable,
    /// A response arrived, with this status code and body.
    Answer { status: u16, body: String },
}

/// The mathematical content of a [`RegistryReply`].
pub ghost enum RegistryReplyView {
    Unreachable,
    Answer { status: u16, body: Seq<char> },
}

impl View for RegistryReply {
    type V = RegistryReplyView;

    open spec fn view(&self) -> RegistryReplyView {
        match self {
            RegistryReply::Unreachable => RegistryReplyView::Unreachable,
            RegistryReply::Answer { status, body } => RegistryReplyView::Answer {
                status: *status,
                body: body@,
            },
        }
    }
}

/// The address of a package's version history: the registry's base address,
/// then `/api/v1/versions/`, the package's name and `.json`.
pub open spec fn versions_url_of(registry_base: Seq<char>, package_name: Seq<char>) -> Seq<char> {
    registry_base + "/api/v1/versions/"@ + package_name + ".json"@
}

/// Builds the address at which the registry serves a package's history.
pub fn versions_url(registry_base: &str, package_name: &str) -> (url: String)
    ensures
        url@ == versions_url_of(registry_base@, package_name@),
{
    let mut url = String::from_str(registry_base);
    url.append("/api/v1/versions/");
    url.append(package_name);
    url.append(".json");
    url
}

/// A status code of the success class.
pub open spec fn is_success(status: u16) -> bool {
    200 <= status < 300
}

/// The version that one entry of a history announces: the text of its member
/// `number`, where the entry is an object that has such a member.
pub open spec fn entry_number(entry: JsonView) -> Option<Seq<char>> {
    match entry {
        JsonView::Object(members) => match member(members, "number"@) {
            Some(JsonView::Text(number)) => Some(number),
            _ => None,
        },
        _ => None,
    }
}

/// The versions that a payload lists, in the payload's order. A payload is
/// well formed where it is an array whose every entry announces a version.
pub open spec fn numbers_of(payload: JsonView) -> Option<Seq<Seq<char>>> {
    match payload {
        JsonView::Array(entries) => if forall|i: int|
            0 <= i < entries.len() ==> entry_number(#[trigger] entries[i]) is Some {
            Some(entries.map_values(|entry: JsonView| entry_number(entry)->0))
        } else {
            None
        },
        _ => None,
    }
}

/// The history that a reply carries: that of its payload, where the registry
/// answered with success and a body that is a JSON document.
pub open spec fn history_of(reply: RegistryReplyView) -> Option<Seq<Seq<char>>> {
    match reply {
        RegistryReplyView::Answer { status, body } => if is_success(status) {
            match json_document(body) {
                Some(payload) => numbers_of(payload),
                None => None,
            }
        } else {
            None
        },
        RegistryReplyView::Unreachable => None,
    }
}

/// What a reply settles about the predecessor of `target`.
pub open spec fn resolution_of(reply: RegistryReplyView, target: Seq<char>) -> Result<
    Option<Seq<char>>,
    ResolveError,
> {
    match history_of(reply) {
        Some(history) => previous_of(history, target),
        None => Err(ResolveError::RegistryUnavailable),
    }
}

/// Reads the version that one entry of a history announces.
pub fn number_of_entry(entry: &Json) -> (number: Option<String>)
    ensures
        match number {
            Some(text) => entry_number(entry@) == Some(text@),
            None => entry_number(entry@) is None,
        },
{
    match entry.get("number") {
        Some(Json::Text(text)) => Some(text.clone()),
        _ => None,
    }
}

/// Reads the versions that a payload lists, in the payload's order. A payload
/// of any other shape than an array of objects with a textual member `number`
/// is refused.
pub fn version_numbers(payload: &Json) -> (numbers: Result<Vec<String>, ResolveError>)
    ensures
        match numbers {
            Ok(list) => numbers_of(payload@) == Some(texts(list@)),
            Err(error) => error == ResolveError::RegistryUnavailable && numbers_of(payload@)
                is None,
        },
{
    match payload {
        Json::Array(entries) => {
            let mut list: Vec<String> = Vec::new();
            let mut index: usize = 0;
            while index < entries.len()
                invariant
                    index <= entries.len(),
                    payload@ is Array,
                    payload@->Array_0.len() == entries@.len(),
                    forall|k: int|
                        0 <= k < entries@.len() ==> #[trigger] payload@->Array_0[k] == entries@[k]@,
                    list@.len() == index,
                    forall|k: int|
                        0 <= k < index ==> entry_number(#[trigger] payload@->Array_0[k]) == Some(
                            list@[k]@,
                        ),
                decreases entries.len() - index,
            {
                match number_of_entry(&entries[index]) {
                    Some(text) => {
                        list.push(text);
                    },
                    None => {
                        assert(entry_number(payload@->Array_0[index as int]) is None);
                        return Err(ResolveError::RegistryUnavailable);
                    },
                }
                index += 1;
            }
            assert(texts(list@) =~= payload@->Array_0.map_values(
                |entry: JsonView| entry_number(entry)->0,
            ));
            Ok(list)
        },
        _ => Err(ResolveError::RegistryUnavailable),
    }
}

/// Reads the history that a reply carries. A reply that is no successful
/// answer with a well-formed payload counts as the registry being
/// unavailable.
pub fn read_history(reply: &RegistryReply) -> (history: Result<Vec<String>, ResolveError>)
    ensures
        match history {
            Ok(list) => history_of(reply@) == Some(texts(list@)),
            Err(error) => error == ResolveError::RegistryUnavailable && history_of(reply@)
                is None,
        },
{
    match reply {
        RegistryReply::Answer { status, body } => {
            if 200 <= *status && *status < 300 {
                match parse_json(body.as_str()) {
                    Some(payload) => version_numbers(&payload),
                    None => Err(ResolveError::RegistryUnavailable),
                }
            } else {
                Err(ResolveError::RegistryUnavailable)
            }
        },
        RegistryReply::Unreachable => Err(ResolveError::RegistryUnavailable),
    }
}

/// Resolves the predecessor of `target` from the registry's reply.
pub fn resolve_previous(reply: &RegistryReply, target: &str) -> (resolved: Result<
    Option<String>,
    ResolveError,
>)
    ensures
        resolved_view(resolved) == resolution_of(reply@, target@),
{
    match read_history(reply) {
        Ok(history) => previous_version(&history, target),
        Err(error) => Err(error),
    }
}

} // verus!
