//! The command line: which of version, help, listing or the interactive
//! picker the arguments ask for.

use vstd::prelude::*;
use crate::text::{append_str, str_eq, string_text};

verus! {

broadcast use vstd::seq_lib::group_seq_properties;

/// What the command line asks for.
#[derive(Debug)]
pub enum Command {
    /// Print the version.
    Version,
    /// Print the usage text.
    Help,
    /// List the themes (`list_only`) or run the picker.
    Run { list_only: bool },
    /// These arguments are not understood.
    Unknown(Vec<String>),
}

pub open spec fn is_version_flag(a: Seq<char>) -> bool {
    a == "--version"@ || a == "-V"@
}

pub open spec fn is_help_flag(a: Seq<char>) -> bool {
    a == "--help"@ || a == "-h"@
}

pub open spec fn is_list_flag(a: Seq<char>) -> bool {
    a == "--list"@ || a == "-l"@
}

pub open spec fn is_unknown() -> spec_fn(Seq<char>) -> bool {
    |a: Seq<char>| !is_version_flag(a) && !is_help_flag(a) && !is_list_flag(a)
}

/// The known flags are exactly `--version`, `-V`, `--help`, `-h`, `--list`
/// and `-l`; every other argument is unknown.
pub proof fn lemma_known_flags(a: Seq<char>)
    ensures
        is_version_flag(a) <==> (a == "--version"@ || a == "-V"@),
        is_help_flag(a) <==> (a == "--help"@ || a == "-h"@),
        is_list_flag(a) <==> (a == "--list"@ || a == "-l"@),
        is_unknown()(a) <==> !(a == "--version"@ || a == "-V"@ || a == "--help"@ || a == "-h"@
            || a == "--list"@ || a == "-l"@),
{
}

fn is_flag(a: &String, long: &str, short: &str) -> (r: bool)
    ensures
        r == (a@ == long@ || a@ == short@),
{
    str_eq(a.as_str(), long) || str_eq(a.as_str(), short)
}

/// Reads the command line (without the program name).
pub fn parse_args(args: &Vec<String>) -> (r: Command)
    ensures
        (exists|i: int|
            0 <= i < args.len() && (#[trigger] args@[i]@ == "--version"@ || args@[i]@ == "-V"@))
            ==> r is Version,
        !(exists|i: int|
            0 <= i < args.len() && (#[trigger] args@[i]@ == "--version"@ || args@[i]@ == "-V"@))
            && (exists|i: int|
            0 <= i < args.len() && (#[trigger] args@[i]@ == "--help"@ || args@[i]@ == "-h"@))
            ==> r is Help,
        r matches Command::Run { list_only } ==> list_only == (exists|i: int|
            0 <= i < args.len() && (#[trigger] args@[i]@ == "--list"@ || args@[i]@ == "-l"@)),
        (exists|i: int| 0 <= i < args.len() && is_version_flag(#[trigger] args@[i]@)) ==> r
            is Version,
        !(exists|i: int| 0 <= i < args.len() && is_version_flag(#[trigger] args@[i]@)) && (exists|
            i: int,
        | 0 <= i < args.len() && is_help_flag(#[trigger] args@[i]@)) ==> r is Help,
        !(exists|i: int| 0 <= i < args.len() && is_version_flag(#[trigger] args@[i]@)) && !(exists|
            i: int,
        | 0 <= i < args.len() && is_help_flag(#[trigger] args@[i]@)) ==> match r {
            Command::Unknown(u) => u@.map_values(string_text()) == args@.map_values(
                string_text(),
            ).filter(is_unknown()) && u.len() > 0,
            Command::Run { list_only } => args@.map_values(string_text()).filter(
                is_unknown(),
            ).len() == 0 && list_only == (exists|i: int|
                0 <= i < args.len() && is_list_flag(#[trigger] args@[i]@)),
            _ => false,
        },
{
    let mut i: usize = 0;
    while i < args.len()
        invariant
            i <= args.len(),
            forall|j: int| 0 <= j < i ==> !is_version_flag(#[trigger] args@[j]@),
        decreases args.len() - i,
    {
        if is_flag(&args[i], "--version", "-V") {
            return Command::Version;
        }
        i += 1;
    }
    let mut i: usize = 0;
    while i < args.len()
        invariant
            i <= args.len(),
            forall|j: int| 0 <= j < i ==> !is_help_flag(#[trigger] args@[j]@),
            forall|j: int| 0 <= j < args.len() ==> !is_version_flag(#[trigger] args@[j]@),
        decreases args.len() - i,
    {
        if is_flag(&args[i], "--help", "-h") {
            return Command::Help;
        }
        i += 1;
    }
    let mut list_only = false;
    let mut unknown: Vec<String> = Vec::new();
    let ghost views = args@.map_values(string_text());
    let mut i: usize = 0;
    while i < args.len()
        invariant
            i <= args.len(),
            views == args@.map_values(string_text()),
            forall|j: int| 0 <= j < args.len() ==> !is_version_flag(#[trigger] args@[j]@),
            forall|j: int| 0 <= j < args.len() ==> !is_help_flag(#[trigger] args@[j]@),
            list_only == (exists|j: int| 0 <= j < i && is_list_flag(#[trigger] args@[j]@)),
            unknown@.map_values(string_text()) == views.take(i as int).filter(is_unknown()),
        decreases args.len() - i,
    {
        proof {
            crate::text::lemma_filter_push(views.take(i as int), views[i as int], is_unknown());
            assert(views.take(i + 1) =~= views.take(i as int).push(views[i as int]));
        }
        if is_flag(&args[i], "--list", "-l") {
            list_only = true;
        } else {
            let ghost before = unknown@;
            unknown.push(args[i].clone());
            assert(unknown@.map_values(string_text()) =~= before.map_values(string_text()).push(
                args@[i as int]@,
            ));
        }
        i += 1;
    }
    assert(views.take(args.len() as int) =~= views);
    if unknown.len() > 0 {
        Command::Unknown(unknown)
    } else {
        Command::Run { list_only }
    }
}

/// The texts `parts` with `sep` between each two.
pub open spec fn joined(parts: Seq<Seq<char>>, sep: Seq<char>) -> Seq<char>
    decreases parts.len(),
{
    if parts.len() == 0 {
        Seq::empty()
    } else if parts.len() == 1 {
        parts[0]
    } else {
        joined(parts.drop_last(), sep) + sep + parts.last()
    }
}

/// The error for arguments that are not understood, such as
/// `unknown argument(s): --foo bar`.
pub fn unknown_args_message(unknown: &Vec<String>) -> (r: String)
    ensures
        r@ == "unknown argument(s): "@ + joined(unknown@.map_values(string_text()), " "@),
{
    let mut r = String::new();
    append_str(&mut r, "unknown argument(s): ");
    let ghost head = r@;
    let ghost views = unknown@.map_values(string_text());
    let mut i: usize = 0;
    while i < unknown.len()
        invariant
            i <= unknown.len(),
            views == unknown@.map_values(string_text()),
            r@ == head + joined(views.take(i as int), " "@),
        decreases unknown.len() - i,
    {
        let ghost before = r@;
        if i > 0 {
            append_str(&mut r, " ");
        }
        append_str(&mut r, unknown[i].as_str());
        proof {
            let t = views.take(i + 1);
            assert(t.drop_last() =~= views.take(i as int));
            if i == 0 {
                assert(joined(views.take(0), " "@) =~= Seq::<char>::empty());
                assert(r@ =~= head + joined(t, " "@));
            } else {
                assert(r@ =~= head + joined(t, " "@));
            }
        }
        i += 1;
    }
    assert(views.take(unknown.len() as int) =~= views);
    r
}

} // verus!
