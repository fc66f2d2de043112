//! Requests to open files, as the desktop shell passes them on the command
//! line: paths of the formats the tools handle, each optionally preceded by
//! `--action <name>` (from a context-menu entry).

use vstd::prelude::*;
use crate::common::text::{
    ascii_lowercase, path_extension, path_parent, spec_path_extension, spec_path_parent, str_eq,
    to_ascii_lowercase,
};

verus! {

/// A request to open one file with an action.
#[derive(Debug, Clone, PartialEq, Eq)]
pub struct OpenRequest {
    pub action: String,
    pub path: String,
}

/// The mathematical form of a request.
pub struct OpenRequestModel {
    pub action: Seq<char>,
    pub path: Seq<char>,
}

impl View for OpenRequest {
    type V = OpenRequestModel;

    open spec fn view(&self) -> OpenRequestModel {
        OpenRequestModel { action: self.action@, path: self.path@ }
    }
}

/// The lower-cased extension of a path (empty where it has none).
pub open spec fn extension_spec(path: Seq<char>) -> Seq<char> {
    match spec_path_extension(path) {
        Some(e) => ascii_lowercase(e),
        None => Seq::empty(),
    }
}

/// Whether a path names a file of a format the tools open.
pub open spec fn is_openable(path: Seq<char>) -> bool {
    let e = extension_spec(path);
    e == "spf"@ || e == "ldt"@ || e == "stg"@ || e == "csv"@ || e == "json"@
}

/// The requests that the arguments from `i` on give, `action` being the
/// action for the next file: `--action` followed by an argument sets the
/// action; an openable path makes a request and resets the action to
/// `open`; anything else is passed over.
pub open spec fn requests_from(args: Seq<Seq<char>>, i: int, action: Seq<char>) -> Seq<
    OpenRequestModel,
>
    decreases args.len() - i,
{
    if i < 0 || i >= args.len() {
        Seq::empty()
    } else if args[i] == "--action"@ && i + 1 < args.len() {
        requests_from(args, i + 2, args[i + 1])
    } else if is_openable(args[i]) {
        seq![OpenRequestModel { action, path: args[i] }] + requests_from(args, i + 1, "open"@)
    } else {
        requests_from(args, i + 1, action)
    }
}

/// The lower-cased extension of a path; empty where it has none.
pub fn extension_of(path: &str) -> (r: String)
    ensures
        r@ == extension_spec(path@),
{
    match path_extension(path) {
        Some(e) => to_ascii_lowercase(e.as_str()),
        None => String::new(),
    }
}

/// The directory that holds a path: its parent, or `.` where the parent is
/// missing or empty.
pub fn containing_directory(path: &str) -> (r: String)
    ensures
        r@ == match spec_path_parent(path@) {
            Some(p) => if p.len() > 0 {
                p
            } else {
                "."@
            },
            None => "."@,
        },
{
    match path_parent(path) {
        Some(p) => {
            if p.as_str().unicode_len() > 0 {
                p
            } else {
                String::from_str(".")
            }
        },
        None => String::from_str("."),
    }
}

fn is_openable_path(path: &str) -> (r: bool)
    ensures
        r == is_openable(path@),
{
    let e = extension_of(path);
    let e = e.as_str();
    str_eq(e, "spf") || str_eq(e, "ldt") || str_eq(e, "stg") || str_eq(e, "csv") || str_eq(
        e,
        "json",
    )
}

/// The open requests in the command line `args` (whose first argument, the
/// program, is skipped).
pub fn parse_open_requests(args: &[String]) -> (r: Vec<OpenRequest>)
    ensures
        r@.map_values(|q: OpenRequest| q@) == requests_from(
            args@.map_values(|a: String| a@),
            1,
            "open"@,
        ),
{
    let ghost av = args@.map_values(|a: String| a@);
    let ghost total = requests_from(av, 1, "open"@);
    let mut requests: Vec<OpenRequest> = Vec::new();
    let mut action = String::from_str("open");
    let mut index: usize = 1;
    assert(requests@.map_values(|q: OpenRequest| q@) + requests_from(av, index as int, action@)
        =~= total);
    while index < args.len()
        invariant
            av == args@.map_values(|a: String| a@),
            total == requests_from(av, 1, "open"@),
            index >= 1,
            requests@.map_values(|q: OpenRequest| q@) + requests_from(av, index as int, action@)
                == total,
        decreases args@.len() - index,
    {
        let ghost before = requests@.map_values(|q: OpenRequest| q@);
        if str_eq(args[index].as_str(), "--action") && index + 1 < args.len() {
            action = args[index + 1].clone();
            index = index + 2;
            continue;
        }
        if is_openable_path(args[index].as_str()) {
            let q = OpenRequest { action: action.clone(), path: args[index].clone() };
            let ghost qv = q@;
            requests.push(q);
            action = String::from_str("open");
            proof {
                assert(requests@.map_values(|q: OpenRequest| q@) =~= before.push(qv));
                assert(before.push(qv) + requests_from(av, index + 1, "open"@) =~= before + (
                seq![qv] + requests_from(av, index + 1, "open"@)));
            }
        }
        index = index + 1;
    }
    proof {
        assert(requests_from(av, index as int, action@) =~= Seq::<OpenRequestModel>::empty());
        assert(requests@.map_values(|q: OpenRequest| q@) + Seq::<OpenRequestModel>::empty() =~= requests@.map_values(|q: OpenRequest| q@));
    }
    requests
}

} // verus!
