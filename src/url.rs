//! Locations the launcher can open besides applications.

use crate::apps::App;
use vstd::prelude::*;

verus! {

/// Something to open by URL.
#[derive(Debug, Clone)]
pub enum Url {
    /// A file, opened through `file://`.
    File(String),
    /// A web address, opened through `https://`.
    Https(String),
}

/// A named entry of the launcher.
#[derive(Debug, Clone)]
pub enum UrlEntry {
    Url { name: String, url: Url },
    App { app: App },
}

impl Url {
    /// The URL of a file path.
    pub fn from_path(path: String) -> (r: Url)
        ensures
            r == Url::File(path),
    {
        Url::File(path)
    }

    /// The URL as text.
    pub fn to_url_string(&self) -> (r: String)
        ensures
            match self {
                Url::File(p) => r@ == "file://"@ + p@,
                Url::Https(d) => r@ == "https://"@ + d@,
            },
    {
        match self {
            Url::File(p) => {
                let mut r = "file://".to_owned();
                r.append(p.as_str());
                r
            },
            Url::Https(d) => {
                let mut r = "https://".to_owned();
                r.append(d.as_str());
                r
            },
        }
    }

    /// A copy of the URL.
    pub fn duplicate(&self) -> (r: Url)
        ensures
            r == *self,
    {
        match self {
            Url::File(p) => Url::File(p.clone()),
            Url::Https(d) => Url::Https(d.clone()),
        }
    }
}

} // verus!
