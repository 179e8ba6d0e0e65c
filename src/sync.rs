use vstd::prelude::*;

verus! {

/// How a response to a conditional fetch is to be taken.
#[derive(Debug, Clone, Copy, PartialEq, Eq, Structural)]
pub enum FetchStatus {
    /// The server reports that the stored copy is current (HTTP 304).
    NotModified,
    /// The server sent the archive (HTTP 2xx).
    Fetched,
    /// Any other status.
    Failed,
}

/// Classify the HTTP status of a response to a fetch of a database archive.
pub fn fetch_status(status: u16) -> (r: FetchStatus)
    ensures
        status == 304 ==> r == FetchStatus::NotModified,
        200 <= status < 300 ==> r == FetchStatus::Fetched,
        status != 304 && !(200 <= status < 300) ==> r == FetchStatus::Failed,
{
    if status == 304 {
        FetchStatus::NotModified
    } else if 200 <= status && status < 300 {
        FetchStatus::Fetched
    } else {
        FetchStatus::Failed
    }
}

/// The outcome of a conditional fetch of a database archive.
#[derive(Debug, Clone, PartialEq, Eq)]
pub enum FetchOutcome {
    /// The stored copy is current.
    NotModified,
    /// A new archive arrived, with the validators that the server sent along, if any.
    Fetched { last_modified: Option<String>, etag: Option<String> },
}

/// A step that brings the local copy of a repository database up to date.
#[derive(Debug, Clone, PartialEq, Eq)]
pub enum SyncAction {
    /// Delete the stored cache validators.
    RemoveValidators,
    /// Delete the metadata directory with all it holds, and create it anew.
    RecreateDirectory,
    /// Extract the fetched archive into the metadata directory.
    Extract,
    /// Store the `Last-Modified` validator.
    StoreLastModified(String),
    /// Store the entity tag.
    StoreEtag(String),
}

/// The steps that follow a fetch: none where the server reports the copy current; else
/// dropping the old validators, replacing the directory by the extracted archive, and storing
/// each validator that the server sent.
pub open spec fn sync_plan(outcome: FetchOutcome) -> Seq<SyncAction> {
    match outcome {
        FetchOutcome::NotModified => Seq::empty(),
        FetchOutcome::Fetched { last_modified, etag } => seq![
            SyncAction::RemoveValidators,
            SyncAction::RecreateDirectory,
            SyncAction::Extract,
        ] + store_last_modified(last_modified) + store_etag(etag),
    }
}

/// The step that stores a `Last-Modified` validator, if there is one.
pub open spec fn store_last_modified(v: Option<String>) -> Seq<SyncAction> {
    match v {
        Some(v) => seq![SyncAction::StoreLastModified(v)],
        None => Seq::empty(),
    }
}

/// The step that stores an entity tag, if there is one.
pub open spec fn store_etag(v: Option<String>) -> Seq<SyncAction> {
    match v {
        Some(v) => seq![SyncAction::StoreEtag(v)],
        None => Seq::empty(),
    }
}

/// Decide the steps that follow a fetch of a repository database.
pub fn sync_actions(outcome: &FetchOutcome) -> (r: Vec<SyncAction>)
    ensures
        r@ == sync_plan(*outcome),
        *outcome == FetchOutcome::NotModified ==> r@.len() == 0,
{
    match outcome {
        FetchOutcome::NotModified => Vec::new(),
        FetchOutcome::Fetched { last_modified, etag } => {
            let mut out: Vec<SyncAction> = Vec::new();
            out.push(SyncAction::RemoveValidators);
            out.push(SyncAction::RecreateDirectory);
            out.push(SyncAction::Extract);
            if let Some(v) = last_modified {
                out.push(SyncAction::StoreLastModified(v.clone()));
            }
            if let Some(v) = etag {
                out.push(SyncAction::StoreEtag(v.clone()));
            }
            assert(out@ =~= sync_plan(*outcome));
            out
        },
    }
}

/// The request headers of a conditional fetch, one for each stored validator.
pub open spec fn conditional_headers_spec(
    last_modified: Option<Seq<char>>,
    etag: Option<Seq<char>>,
) -> Seq<(Seq<char>, Seq<char>)> {
    header_if("If-Modified-Since"@, last_modified) + header_if("If-None-Match"@, etag)
}

/// A header of the given name, if there is a value for it.
pub open spec fn header_if(name: Seq<char>, v: Option<Seq<char>>) -> Seq<(Seq<char>, Seq<char>)> {
    match v {
        Some(v) => seq![(name, v)],
        None => Seq::empty(),
    }
}

pub open spec fn opt_str_view(s: Option<&str>) -> Option<Seq<char>> {
    match s {
        Some(x) => Some(x@),
        None => None,
    }
}

/// The headers that make a fetch conditional on the stored validators.
pub fn conditional_headers(last_modified: Option<&str>, etag: Option<&str>) -> (r: Vec<
    (String, String),
>)
    ensures
        r@.map_values(|h: (String, String)| (h.0@, h.1@)) == conditional_headers_spec(
            opt_str_view(last_modified),
            opt_str_view(etag),
        ),
{
    let mut out: Vec<(String, String)> = Vec::new();
    if let Some(v) = last_modified {
        out.push(("If-Modified-Since".to_owned(), v.to_owned()));
    }
    if let Some(v) = etag {
        out.push(("If-None-Match".to_owned(), v.to_owned()));
    }
    assert(out@.map_values(|h: (String, String)| (h.0@, h.1@)) =~= conditional_headers_spec(
        opt_str_view(last_modified),
        opt_str_view(etag),
    ));
    out
}

} // verus!
