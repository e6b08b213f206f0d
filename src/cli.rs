//! What a command line asks for.
use vstd::prelude::*;
use crate::format::{Format, format_of, same_text};

verus! {

/// The formats a command line names, or `None` where it asks for help: on
/// `-h` anywhere, on any count of arguments but two, and on a name the
/// registry does not know.
pub open spec fn requested(args: Seq<Seq<char>>) -> Option<(Format, Format)> {
    if exists|i: int| 0 <= i < args.len() && args[i] == "-h"@ {
        None
    } else if args.len() != 2 {
        None
    } else {
        match (format_of(args[0]), format_of(args[1])) {
            (Some(input), Some(output)) => Some((input, output)),
            _ => None,
        }
    }
}

/// Reads the arguments that follow the program name: the input format,
/// then the output format.
pub fn parse_args(args: &Vec<String>) -> (r: Option<(Format, Format)>)
    ensures
        r == requested(args@.map_values(|a: String| a@)),
{
    let ghost names = args@.map_values(|a: String| a@);
    proof {
        reveal_strlit("-h");
    }
    let mut i: usize = 0;
    while i < args.len()
        invariant
            i <= args.len(),
            names == args@.map_values(|a: String| a@),
            forall|j: int| 0 <= j < i ==> names[j] != "-h"@,
        decreases args.len() - i,
    {
        if same_text(args[i].as_str(), "-h") {
            assert(names[i as int] == "-h"@);
            return None;
        }
        i = i + 1;
    }
    if args.len() != 2 {
        return None;
    }
    match (Format::from_str(args[0].as_str()), Format::from_str(args[1].as_str())) {
        (Ok(input), Ok(output)) => Some((input, output)),
        _ => None,
    }
}

} // verus!
