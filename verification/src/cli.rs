//! Arguments, and the early checks on the paths among them.

use crate::text;
use vstd::prelude::*;

verus! {

/// What the program is asked to do: explore a directory, or run a command.
#[derive(Debug)]
pub struct Cli {
    /// Project root directory to explore (the current directory by default).
    pub path: Option<String>,
    pub command: Option<Command>,
}

#[derive(Debug)]
pub enum Command {
    /// Serve a preselected component without the explorer.
    Serve {
        /// Component source file to render.
        component: String,
        /// Project root the component lives in (its directory by default).
        root: Option<String>,
        /// Fixed port for the control server (a free port by default).
        port: Option<u16>,
        /// Where the selection file lives.
        selection_file: Option<String>,
        /// Do not open the browser.
        no_open: bool,
    },
}

/// What is wrong with a path that cannot be opened as `what`.
pub open spec fn cannot_open(what: Seq<char>, path: Seq<char>, e: Seq<char>) -> Seq<char> {
    "cannot open "@ + what + " '"@ + path + "': "@ + e
}

/// What is wrong with a path that is no `what`.
pub open spec fn is_not(path: Seq<char>, what: Seq<char>) -> Seq<char> {
    "'"@ + path + "' is not a "@ + what
}

fn cannot_open_message(what: &str, path: &str, e: &str) -> (r: String)
    ensures
        r@ == cannot_open(what@, path@, e@),
{
    let head: String = text::cat5("cannot open ", what, " '", path, "': ");
    text::cat(head.as_str(), e)
}

fn is_not_message(path: &str, what: &str) -> (r: String)
    ensures
        r@ == is_not(path@, what@),
{
    let head: String = text::cat3("'", path, "' is not a ");
    text::cat(head.as_str(), what)
}

/// Check that a candidate project root is a usable directory. `canonical` is
/// the canonical form of `path` or why there is none, `is_dir` whether that is a
/// directory.
pub fn validate_root(path: &str, canonical: Result<String, String>, is_dir: bool) -> (r: Result<
    String,
    String,
>)
    ensures
        match canonical {
            Ok(c) => if is_dir {
                r matches Ok(p) && p@ == c@
            } else {
                r matches Err(m) && m@ == is_not(c@, "directory"@)
            },
            Err(e) => r matches Err(m) && m@ == cannot_open("project root"@, path@, e@),
        },
{
    match canonical {
        Ok(c) => if is_dir {
            Ok(c)
        } else {
            Err(is_not_message(c.as_str(), "directory"))
        },
        Err(e) => Err(cannot_open_message("project root", path, e.as_str())),
    }
}

/// Check that a candidate component file exists. `canonical` is the canonical
/// form of `path` or why there is none, `is_file` whether that is a file.
pub fn validate_component(path: &str, canonical: Result<String, String>, is_file: bool) -> (r:
    Result<String, String>)
    ensures
        match canonical {
            Ok(c) => if is_file {
                r matches Ok(p) && p@ == c@
            } else {
                r matches Err(m) && m@ == is_not(c@, "file"@)
            },
            Err(e) => r matches Err(m) && m@ == cannot_open("component"@, path@, e@),
        },
{
    match canonical {
        Ok(c) => if is_file {
            Ok(c)
        } else {
            Err(is_not_message(c.as_str(), "file"))
        },
        Err(e) => Err(cannot_open_message("component", path, e.as_str())),
    }
}

} // verus!
