//! The public registry.

use crate::text::views;
use vstd::prelude::*;

verus! {

/// The versions of a package that the registry knows.
#[derive(Debug)]
pub struct PubVersions {
    pub name: String,
    pub latest: String,
    pub versions: Vec<String>,
}

/// The mathematical value of a `PubVersions`.
pub struct PubVersionsView {
    pub name: Seq<char>,
    pub latest: Seq<char>,
    pub versions: Seq<Seq<char>>,
}

impl View for PubVersions {
    type V = PubVersionsView;

    open spec fn view(&self) -> PubVersionsView {
        PubVersionsView { name: self.name@, latest: self.latest@, versions: views(self.versions@) }
    }
}

/// Where the registry tells of the package `package_name`.
pub open spec fn package_url_of(package_name: Seq<char>) -> Seq<char> {
    "https://pub.dev/api/packages/"@ + package_name
}

/// Where the registry tells of the package `package_name`.
pub fn package_url(package_name: &str) -> (url: String)
    ensures
        url@ == package_url_of(package_name@),
{
    let mut url = "https://pub.dev/api/packages/".to_owned();
    url.append(package_name);
    url
}

} // verus!
