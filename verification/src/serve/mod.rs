//! The web console.

use vstd::prelude::*;
use crate::text;

pub mod api;
pub mod auth;
pub mod tasks;

verus! {

/// A file that the page loads.
#[derive(Debug, Clone, Copy, PartialEq, Eq, Structural)]
pub enum StaticFile {
    AppJs,
    BootstrapCss,
    BootstrapJs,
}

/// The file of the name.
pub open spec fn static_file_of(name: Seq<char>) -> Option<StaticFile> {
    if name == "app.js"@ {
        Some(StaticFile::AppJs)
    } else if name == "bootstrap.min.css"@ {
        Some(StaticFile::BootstrapCss)
    } else if name == "bootstrap.bundle.min.js"@ {
        Some(StaticFile::BootstrapJs)
    } else {
        None
    }
}

/// The file of the name, if there is one.
pub fn static_file(name: &str) -> (r: Option<StaticFile>)
    ensures
        r == static_file_of(name@),
{
    if text::same(name, "app.js") {
        Some(StaticFile::AppJs)
    } else if text::same(name, "bootstrap.min.css") {
        Some(StaticFile::BootstrapCss)
    } else if text::same(name, "bootstrap.bundle.min.js") {
        Some(StaticFile::BootstrapJs)
    } else {
        None
    }
}

impl StaticFile {
    /// The type of the file.
    pub fn mime(&self) -> (r: &'static str)
        ensures
            r@ == if *self == StaticFile::BootstrapCss {
                "text/css; charset=utf-8"@
            } else {
                "application/javascript; charset=utf-8"@
            },
    {
        match self {
            StaticFile::BootstrapCss => "text/css; charset=utf-8",
            _ => "application/javascript; charset=utf-8",
        }
    }
}

} // verus!
