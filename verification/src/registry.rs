//! The package index: where a package is asked for, what it answers, and
//! which answers count as failures.

use crate::requirement::{dep_views, keep_dependencies, kept_dependencies, texts, Dep, DepView};
use std::collections::HashMap;
use vstd::prelude::*;
use vstd::string::*;

verus! {

/// The requirements of one released file.
#[derive(Debug, Clone)]
pub struct ReleaseData {
    pub requires_dist: Option<Vec<String>>,
}

/// What the index says of the latest release of a package.
#[derive(Debug, Clone)]
pub struct PkgMetadata {
    pub version: String,
    pub requires_dist: Option<Vec<String>>,
}

/// The record that the index returns for a package. Only `info` is read;
/// `releases` is carried along as it came.
#[derive(Debug, Clone)]
pub struct Response {
    pub info: PkgMetadata,
    pub releases: HashMap<String, Vec<ReleaseData>>,
}

/// Mathematical value of a [`Response`]: the current version and the raw
/// requirement strings, which may be absent.
pub struct ResponseView {
    pub version: Seq<char>,
    pub requirements: Option<Seq<Seq<char>>>,
}

impl View for Response {
    type V = ResponseView;

    open spec fn view(&self) -> ResponseView {
        ResponseView {
            version: self.info.version@,
            requirements: match self.info.requires_dist {
                Some(raws) => Some(texts(raws@)),
                None => None,
            },
        }
    }
}

/// The dependencies that a record of the index gives: those of its
/// requirement strings, none where the record has no such list.
pub open spec fn parsed(info: ResponseView) -> Seq<DepView> {
    match info.requirements {
        Some(raws) => kept_dependencies(raws),
        None => Seq::empty(),
    }
}

/// The address at which the index describes the package `pkg`.
pub open spec fn registry_address(pkg: Seq<char>) -> Seq<char> {
    "https://pypi.org/pypi/"@ + pkg + "/json"@
}

/// True of the status codes that the index answers with when it has the
/// package: 200 to 299.
pub open spec fn is_success(status: u16) -> bool {
    200 <= status <= 299
}

/// Why the metadata of a package could not be had.
#[derive(Debug, Clone, Copy, PartialEq, Eq, Structural)]
pub enum FetchError {
    /// The request did not get through.
    Transport,
    /// The index answered with a status other than success.
    NotFound { status: u16 },
    /// The body of the answer could not be decoded.
    Decode,
}

/// The address to ask for the metadata of `pkg`.
pub fn registry_url(pkg: &str) -> (url: String)
    ensures
        url@ == registry_address(pkg@),
{
    let url = String::from_str("https://pypi.org/pypi/").concat(pkg).concat("/json");
    url
}

/// Judges the status of an answer: the body is worth reading on success
/// only; any other status means that the index does not have the package.
pub fn check_status(status: u16) -> (verdict: Result<(), FetchError>)
    ensures
        verdict == if is_success(status) {
            Ok::<(), FetchError>(())
        } else {
            Err::<(), FetchError>(FetchError::NotFound { status })
        },
{
    if 200 <= status && status <= 299 {
        Ok(())
    } else {
        Err(FetchError::NotFound { status })
    }
}

/// The dependencies of a package, read from its record.
pub fn parse_deps(info: &Response) -> (deps: Vec<Dep>)
    ensures
        dep_views(deps@) == parsed(info@),
{
    match &info.info.requires_dist {
        Some(requires_dist) => keep_dependencies(requires_dist),
        None => {
            let deps: Vec<Dep> = Vec::new();
            deps
        },
    }
}

} // verus!
