//! The file through which the chosen theme reaches Ghostty: a single
//! `theme = NAME` line, and reading the active theme back out of it.

use vstd::prelude::*;
use crate::text::{
    chars_of, find_char, is_space, lemma_fold_push, lemma_prefix_len, lemma_split_end,
    lemma_split_no_sep, lemma_split_once_at, lemma_split_push_sep, lemma_split_start,
    lemma_split_step, lemma_trim_exact, lemma_trim_shape, lines, newline, other_than, push_char,
    range_eq, split_once, split_progress, string_of_range, trim, trim_range,
};

verus! {

broadcast use vstd::seq_lib::group_seq_properties;

pub open spec fn theme_key() -> Seq<char> {
    seq!['t', 'h', 'e', 'm', 'e']
}

/// What the theme file holds to select the theme `name`: `theme = NAME`
/// and a line break.
pub open spec fn theme_file_text(name: Seq<char>) -> Seq<char> {
    seq!['t', 'h', 'e', 'm', 'e', ' ', '=', ' '] + name + seq!['\n']
}

/// The text of the theme file that selects the theme `name`.
pub fn theme_file_contents(name: &str) -> (r: String)
    ensures
        r@ == theme_file_text(name@),
{
    let mut r = String::new();
    push_char(&mut r, 't');
    push_char(&mut r, 'h');
    push_char(&mut r, 'e');
    push_char(&mut r, 'm');
    push_char(&mut r, 'e');
    push_char(&mut r, ' ');
    push_char(&mut r, '=');
    push_char(&mut r, ' ');
    let chars = chars_of(name);
    let ghost prefix = r@;
    let mut i: usize = 0;
    while i < chars.len()
        invariant
            i <= chars.len(),
            r@ == prefix + chars@.take(i as int),
        decreases chars.len() - i,
    {
        push_char(&mut r, chars[i]);
        assert(chars@.take(i + 1) =~= chars@.take(i as int).push(chars@[i as int]));
        i += 1;
    }
    push_char(&mut r, '\n');
    assert(chars@.take(chars.len() as int) =~= chars@);
    assert(r@ =~= theme_file_text(name@));
    r
}

/// The theme a line selects: a line that is not blank and not a `#`
/// comment, whose trimmed text before the first `=` is `theme` and whose
/// trimmed text after it is not empty.
pub open spec fn theme_of_line(line: Seq<char>) -> Option<Seq<char>> {
    let t = trim(line);
    if t.len() == 0 || t[0] == '#' {
        None
    } else {
        match split_once(t, '=') {
            None => None,
            Some((k, v)) => if trim(k) == theme_key() && trim(v).len() > 0 {
                Some(trim(v))
            } else {
                None
            },
        }
    }
}

pub open spec fn first_theme_step() -> spec_fn(Option<Seq<char>>, Seq<char>) -> Option<Seq<char>> {
    |found: Option<Seq<char>>, line: Seq<char>|
        if found is Some {
            found
        } else {
            theme_of_line(line)
        }
}

/// The theme that a theme file's text selects: that of its first line that
/// selects one.
pub open spec fn theme_name_of_text(content: Seq<char>) -> Option<Seq<char>> {
    lines(content).fold_left(None, first_theme_step())
}

/// The bounds of the theme name that the line `s[lo..hi]` selects.
fn theme_of_line_range(s: &Vec<char>, lo: usize, hi: usize) -> (r: Option<(usize, usize)>)
    requires
        lo <= hi <= s.len(),
    ensures
        r matches Some((a, b)) ==> a <= b <= s.len() && theme_of_line(
            s@.subrange(lo as int, hi as int),
        ) == Some(s@.subrange(a as int, b as int)),
        r is None ==> theme_of_line(s@.subrange(lo as int, hi as int)) is None,
{
    let (a, b) = trim_range(s, lo, hi);
    if a == b || s[a] == '#' {
        return None;
    }
    let eq = find_char(s, a, b, '=');
    proof {
        lemma_split_once_at(s@, a as int, eq as int, b as int, '=');
    }
    if eq == b {
        return None;
    }
    let (ka, kb) = trim_range(s, a, eq);
    let (va, vb) = trim_range(s, eq + 1, b);
    let key = vec!['t', 'h', 'e', 'm', 'e'];
    assert(key@ =~= theme_key());
    if range_eq(s, ka, kb, &key) && va < vb {
        Some((va, vb))
    } else {
        None
    }
}

/// The theme that the theme file's text `content` selects, if any.
pub fn active_theme_name(content: &str) -> (r: Option<String>)
    ensures
        r matches Some(name) ==> theme_name_of_text(content@) == Some(name@),
        r is None ==> theme_name_of_text(content@) is None,
{
    let s = chars_of(content);
    let mut found: Option<(usize, usize)> = None;
    let ghost mut acc: Option<Seq<char>> = None;
    let ghost mut done: Seq<Seq<char>> = Seq::empty();
    let mut start: usize = 0;
    let mut i: usize = 0;
    proof {
        lemma_split_start(s@, newline());
    }
    while i < s.len()
        invariant
            start <= i <= s.len(),
            split_progress(s@, newline(), i as int, done, start as int),
            acc == done.fold_left(None, first_theme_step()),
            found matches Some((a, b)) ==> a <= b <= s.len() && acc == Some(
                s@.subrange(a as int, b as int),
            ),
            found is None ==> acc is None,
        decreases s.len() - i,
    {
        proof {
            lemma_split_step(s@, newline(), i as int, done, start as int);
        }
        if s[i] == '\n' {
            proof {
                let line = s@.subrange(start as int, i as int);
                lemma_fold_push(done, line, None, first_theme_step());
                done = done.push(line);
                if acc is None {
                    acc = theme_of_line(line);
                }
            }
            if found.is_none() {
                found = theme_of_line_range(&s, start, i);
            }
            start = i + 1;
        }
        i += 1;
    }
    proof {
        lemma_split_end(s@, newline(), done, start as int);
        lemma_fold_push(done, s@.subrange(start as int, s@.len() as int), None, first_theme_step());
    }
    if found.is_none() {
        found = theme_of_line_range(&s, start, s.len());
    }
    match found {
        Some((a, b)) => Some(string_of_range(&s, a, b)),
        None => None,
    }
}

pub open spec fn theme_head() -> Seq<char> {
    seq!['t', 'h', 'e', 'm', 'e', ' ', '=', ' ']
}

proof fn lemma_head_line_trims(name: Seq<char>, a: int, b: int)
    requires
        0 <= a < b <= name.len(),
        forall|j: int| b <= j < name.len() ==> is_space(#[trigger] name[j]),
        !is_space(name[b - 1]),
    ensures
        trim(theme_head() + name) == (theme_head() + name).subrange(0, 8 + b),
{
    let line = theme_head() + name;
    assert forall|j: int| 8 + b <= j < line.len() implies is_space(#[trigger] line[j]) by {
        assert(line[j] == name[j - 8]);
    }
    assert(line[8 + b - 1] == name[b - 1]);
    assert(line[0] == 't');
    lemma_trim_exact(line, 0, 8 + b);
}

proof fn lemma_head_line_selects(name: Seq<char>, a: int, b: int)
    requires
        0 <= a < b <= name.len(),
        forall|j: int| 0 <= j < a ==> is_space(#[trigger] name[j]),
        forall|j: int| b <= j < name.len() ==> is_space(#[trigger] name[j]),
        !is_space(name[a]),
        !is_space(name[b - 1]),
    ensures
        theme_of_line(theme_head() + name) == Some(name.subrange(a, b)),
{
    let line = theme_head() + name;
    lemma_head_line_trims(name, a, b);
    let t = line.subrange(0, 8 + b);
    assert(t[0] == 't');
    lemma_prefix_len(t, other_than('='), 6);
    let k = t.take(6);
    let v = t.skip(7);
    assert(split_once(t, '=') == Some((k, v)));
    assert(k =~= seq!['t', 'h', 'e', 'm', 'e', ' ']);
    lemma_trim_exact(k, 0, 5);
    assert(trim(k) =~= theme_key());
    assert(v.len() == 1 + b);
    assert forall|j: int| 0 <= j < 1 + a implies is_space(#[trigger] v[j]) by {
        if j > 0 {
            assert(v[j] == name[j - 1]);
        } else {
            assert(v[j] == ' ');
        }
    }
    assert(v[1 + a] == name[a]);
    assert(v[b] == name[b - 1]);
    lemma_trim_exact(v, 1 + a, 1 + b);
    assert(v.subrange(1 + a, 1 + b) =~= name.subrange(a, b));
}

/// Reading back the theme file written for `name` gives `name` without its
/// surrounding white space, for any name on one line that is not blank.
pub proof fn lemma_written_theme_reads_back(name: Seq<char>)
    requires
        !name.contains('\n'),
        trim(name).len() > 0,
    ensures
        theme_name_of_text(theme_file_text(name)) == Some(trim(name)),
{
    let (a, b) = lemma_trim_shape(name);
    lemma_head_line_selects(name, a, b);
    let line = theme_head() + name;
    let content = theme_file_text(name);
    assert(content =~= line.push('\n'));
    assert forall|j: int| 0 <= j < line.len() implies !newline()(#[trigger] line[j]) by {
        if j >= 8 {
            assert(line[j] == name[j - 8]);
            if name[j - 8] == '\n' {
                assert(name.contains('\n'));
            }
        }
    }
    lemma_split_no_sep(line, newline());
    lemma_split_push_sep(line, newline(), '\n');
    assert(seq![line] =~= Seq::<Seq<char>>::empty().push(line));
    lemma_fold_push(Seq::<Seq<char>>::empty(), line, None, first_theme_step());
    lemma_fold_push(seq![line], Seq::<char>::empty(), None, first_theme_step());
}

} // verus!
