//! Model-catalog data and the decisions made about it: model identifiers are
//! pinned to the `OpenVINO/` organization, and a model's update status is
//! decided from its local and remote commit identifiers.  The catalog and
//! the model server are reached over the network by the caller; only the
//! decisions live here.

use vstd::prelude::*;

use crate::text::chars_of;
use crate::text::find_from;
use crate::text::lower_of;
use crate::text::lowercase;
use crate::text::spec_contains;
use crate::text::spec_ends_with;
use crate::text::spec_starts_with;
use crate::text::spec_trim;
use crate::text::str_ends_with;
use crate::text::str_eq;
use crate::text::str_starts_with;
use crate::text::trim_chars;

verus! {

/// A catalog entry for one model.
pub struct ModelInfo {
    pub id: String,
    pub author: Option<String>,
    pub sha: Option<String>,
    pub pipeline_tag: Option<String>,
    pub tags: Vec<String>,
    pub downloads: Option<u64>,
    pub likes: Option<u64>,
    pub created_at: Option<String>,
    pub last_modified: Option<String>,
}

/// Whether a downloaded model is current with respect to the catalog.
pub struct ModelUpdateInfo {
    pub model_id: String,
    pub is_latest: bool,
    pub local_commit: Option<String>,
    pub remote_commit: Option<String>,
    pub needs_update: bool,
}

/// The running model server's reported state.
pub struct OvmsStatus {
    pub status: String,
    pub loaded_models: Vec<String>,
}

/// A model identifier pinned to the organization: identifiers that already
/// start with `OpenVINO/` stay as they are, all others get the prefix.
pub open spec fn spec_normalize_model_id(id: Seq<char>) -> Seq<char> {
    if spec_starts_with(id, "OpenVINO/"@) {
        id
    } else {
        "OpenVINO/"@ + id
    }
}

/// Pins a model identifier to the organization.
pub fn normalize_model_id(model_id: String) -> (r: String)
    ensures
        r@ == spec_normalize_model_id(model_id@),
{
    if str_starts_with(model_id.as_str(), "OpenVINO/") {
        model_id
    } else {
        let mut r = String::from_str("OpenVINO/");
        r.append(model_id.as_str());
        r
    }
}

/// Whether a catalog entry answers a search: it must belong to the
/// organization, and a non-blank query must occur in the identifier, both
/// sides lower-cased.
pub open spec fn spec_model_matches_query(id: Seq<char>, query: Seq<char>) -> bool {
    spec_starts_with(id, "OpenVINO/"@) && (spec_trim(query).len() == 0 || spec_contains(
        lower_of(id),
        lower_of(query),
    ))
}

/// Decides whether a model identifier answers a search query.
pub fn model_matches_query(id: &str, query: &str) -> (r: bool)
    ensures
        r == spec_model_matches_query(id@, query@),
{
    if !str_starts_with(id, "OpenVINO/") {
        return false;
    }
    let query_chars = chars_of(query);
    if trim_chars(&query_chars).len() == 0 {
        return true;
    }
    let id_lower = lowercase(id);
    let query_lower = lowercase(query);
    let haystack = chars_of(id_lower.as_str());
    let needle = chars_of(query_lower.as_str());
    match find_from(&haystack, &needle, 0) {
        Some(_) => true,
        None => false,
    }
}

/// Whether a directory entry's name marks a downloaded model: one of the
/// model file endings, or the model card.
pub open spec fn spec_is_model_file_name(name: Seq<char>) -> bool {
    ||| spec_ends_with(name, ".json"@)
    ||| spec_ends_with(name, ".bin"@)
    ||| spec_ends_with(name, ".safetensors"@)
    ||| spec_ends_with(name, ".model"@)
    ||| name == "README.md"@
}

/// Decides whether a file name marks a downloaded model.
pub fn is_model_file_name(name: &str) -> (r: bool)
    ensures
        r == spec_is_model_file_name(name@),
{
    str_ends_with(name, ".json") || str_ends_with(name, ".bin") || str_ends_with(
        name,
        ".safetensors",
    ) || str_ends_with(name, ".model") || str_eq(name, "README.md")
}

/// When an update is owed: the commits disagree, or only the catalog has
/// one.  With no catalog commit, or no commit anywhere, the local copy is
/// taken to be fine.
pub open spec fn spec_needs_update(local: Option<Seq<char>>, remote: Option<Seq<char>>) -> bool {
    match (local, remote) {
        (Some(l), Some(r)) => l != r,
        (None, Some(_)) => true,
        (Some(_), None) => false,
        (None, None) => false,
    }
}

/// The view of an optional commit identifier.
pub open spec fn opt_text(o: Option<String>) -> Option<Seq<char>> {
    match o {
        Some(s) => Some(s@),
        None => None,
    }
}

/// Decides a model's update status from its local and remote commits.
pub fn resolve_update_status(
    model_id: String,
    local_commit: Option<String>,
    remote_commit: Option<String>,
) -> (r: ModelUpdateInfo)
    ensures
        r.model_id == model_id,
        r.local_commit == local_commit,
        r.remote_commit == remote_commit,
        r.needs_update == spec_needs_update(opt_text(local_commit), opt_text(remote_commit)),
        r.is_latest == !r.needs_update,
{
    let needs_update = match (&local_commit, &remote_commit) {
        (Some(l), Some(r)) => !str_eq(l.as_str(), r.as_str()),
        (None, Some(_)) => true,
        (Some(_), None) => false,
        (None, None) => false,
    };
    ModelUpdateInfo {
        model_id,
        is_latest: !needs_update,
        local_commit,
        remote_commit,
        needs_update,
    }
}

} // verus!
