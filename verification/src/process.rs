//! Finding the running Ghostty processes in the output of
//! `ps -axo pid=,command=`.

use vstd::prelude::*;
use crate::text::{
    chars_of, contains, contains_chars, ends_with, ends_with_chars, lemma_split_end,
    lemma_split_start, lemma_split_step, lines, newline, non_space, prefix_len, range_eq,
    skip_non_spaces, split_progress, string_of_range, string_text, trim, trim_range,
};

verus! {

broadcast use vstd::seq_lib::group_seq_properties;

/// A command line that runs Ghostty: the macOS application binary, a bare
/// `ghostty`, or any path ending in `/ghostty`.
pub open spec fn is_ghostty_command(cmd: Seq<char>) -> bool {
    ||| contains(cmd, "/Ghostty.app/Contents/MacOS/ghostty"@)
    ||| cmd == "ghostty"@
    ||| ends_with(cmd, "/ghostty"@)
}

/// The process id on a line of `ps` output, when its command runs Ghostty:
/// the trimmed line is split at its first white-space character into the
/// id and the command, and the command is trimmed.
pub open spec fn ghostty_pid_of_line(line: Seq<char>) -> Option<Seq<char>> {
    let t = trim(line);
    let i = prefix_len(t, non_space());
    if t.len() == 0 || i >= t.len() {
        None
    } else if is_ghostty_command(trim(t.skip(i + 1 as int))) {
        Some(t.take(i as int))
    } else {
        None
    }
}

pub open spec fn pid_of_line() -> spec_fn(Seq<char>) -> Option<Seq<char>> {
    |line: Seq<char>| ghostty_pid_of_line(line)
}

/// The ids of the Ghostty processes in `ps` output, in the order listed.
pub open spec fn ghostty_pids_of_text(output: Seq<char>) -> Seq<Seq<char>> {
    lines(output).filter_map(pid_of_line())
}

proof fn lemma_filter_map_push<A, B>(s: Seq<A>, x: A, f: spec_fn(A) -> Option<B>)
    ensures
        s.push(x).filter_map(f) == (match f(x) {
            Some(y) => s.filter_map(f).push(y),
            None => s.filter_map(f),
        }),
{
    assert(s.push(x).drop_last() =~= s);
    match f(x) {
        Some(y) => {
            assert(s.filter_map(f) + seq![y] =~= s.filter_map(f).push(y));
        },
        None => {},
    }
}

/// The process id on the `ps` line `s[lo..hi]`, when it runs Ghostty.
fn pid_of_line_range(
    s: &Vec<char>,
    lo: usize,
    hi: usize,
    app: &Vec<char>,
    bare: &Vec<char>,
    suffix: &Vec<char>,
) -> (r: Option<String>)
    requires
        lo <= hi <= s.len(),
        app@ == "/Ghostty.app/Contents/MacOS/ghostty"@,
        bare@ == "ghostty"@,
        suffix@ == "/ghostty"@,
    ensures
        r matches Some(p) ==> ghostty_pid_of_line(s@.subrange(lo as int, hi as int)) == Some(p@),
        r is None ==> ghostty_pid_of_line(s@.subrange(lo as int, hi as int)) is None,
{
    let (a, b) = trim_range(s, lo, hi);
    let ghost t = s@.subrange(a as int, b as int);
    if a == b {
        return None;
    }
    let ws = skip_non_spaces(s, a, b);
    if ws == b {
        return None;
    }
    let (ca, cb) = trim_range(s, ws + 1, b);
    assert(t.skip(ws - a + 1) =~= s@.subrange(ws + 1, b as int));
    assert(t.take(ws - a) =~= s@.subrange(a as int, ws as int));
    let cmd = string_of_range(s, ca, cb);
    let cmd_chars = chars_of(cmd.as_str());
    if contains_chars(&cmd_chars, app) || range_eq(s, ca, cb, bare) || ends_with_chars(
        &cmd_chars,
        suffix,
    ) {
        Some(string_of_range(s, a, ws))
    } else {
        None
    }
}

/// The ids of the Ghostty processes listed in the output of
/// `ps -axo pid=,command=`.
pub fn ghostty_pids(output: &str) -> (r: Vec<String>)
    ensures
        r@.map_values(string_text()) == ghostty_pids_of_text(output@),
{
    let s = chars_of(output);
    let app = chars_of("/Ghostty.app/Contents/MacOS/ghostty");
    let bare = chars_of("ghostty");
    let suffix = chars_of("/ghostty");
    let mut pids: Vec<String> = Vec::new();
    let ghost mut done: Seq<Seq<char>> = Seq::empty();
    let mut start: usize = 0;
    let mut i: usize = 0;
    proof {
        lemma_split_start(s@, newline());
    }
    while i < s.len()
        invariant
            start <= i <= s.len(),
            split_progress(s@, newline(), i as int, done, start as int),
            app@ == "/Ghostty.app/Contents/MacOS/ghostty"@,
            bare@ == "ghostty"@,
            suffix@ == "/ghostty"@,
            pids@.map_values(string_text()) == done.filter_map(pid_of_line()),
        decreases s.len() - i,
    {
        proof {
            lemma_split_step(s@, newline(), i as int, done, start as int);
        }
        if s[i] == '\n' {
            proof {
                let line = s@.subrange(start as int, i as int);
                lemma_filter_map_push(done, line, pid_of_line());
                done = done.push(line);
            }
            match pid_of_line_range(&s, start, i, &app, &bare, &suffix) {
                Some(p) => {
                    pids.push(p);
                },
                None => {},
            }
            start = i + 1;
        }
        i += 1;
    }
    proof {
        lemma_split_end(s@, newline(), done, start as int);
        lemma_filter_map_push(done, s@.subrange(start as int, s@.len() as int), pid_of_line());
    }
    match pid_of_line_range(&s, start, s.len(), &app, &bare, &suffix) {
        Some(p) => {
            pids.push(p);
        },
        None => {},
    }
    pids
}

} // verus!
