//! Themes: reading a Ghostty theme file's colours, the dark/light filter,
//! searching and ordering themes.

use vstd::prelude::*;
use std::path::PathBuf;
use crate::color::{color_of_text, parse_color_range, Color};
use crate::text::{
    append_str, chars_of, contains, contains_chars, find_char, is_space, is_whitespace, occurs_at,
    lemma_filter_push, lemma_fold_push, lemma_lex_asymmetric, lemma_lex_irreflexive,
    lemma_lex_total, lemma_lex_transitive, lemma_split_end, lemma_split_once_at,
    lemma_split_start, lemma_split_step, lex_less, lex_lt, lines, lowercase, newline,
    parse_usize_range, push_char, range_eq, split_by, split_once, split_progress, to_lowercase,
    trim, trim_range, usize_of_text,
};

verus! {

broadcast use vstd::seq_lib::group_seq_properties;

/// Which themes the picker lists.
#[derive(PartialEq, Eq, Structural, Clone, Copy, Debug)]
pub enum ThemeFilter {
    All,
    Dark,
    Light,
}

impl ThemeFilter {
    /// The filter that the `f` key switches to: all, then dark, then light,
    /// then all again.
    pub fn next(self) -> (r: Self)
        ensures
            r == next_filter(self),
    {
        match self {
            ThemeFilter::All => ThemeFilter::Dark,
            ThemeFilter::Dark => ThemeFilter::Light,
            ThemeFilter::Light => ThemeFilter::All,
        }
    }

    /// The filter's name as the picker shows it.
    pub fn label(self) -> (r: &'static str)
        ensures
            r@ == filter_label(self),
    {
        match self {
            ThemeFilter::All => "all",
            ThemeFilter::Dark => "dark",
            ThemeFilter::Light => "light",
        }
    }
}

/// The filter's name.
pub open spec fn filter_label(f: ThemeFilter) -> Seq<char> {
    match f {
        ThemeFilter::All => "all"@,
        ThemeFilter::Dark => "dark"@,
        ThemeFilter::Light => "light"@,
    }
}

/// The filter after `f` in the cycle all, dark, light.
pub open spec fn next_filter(f: ThemeFilter) -> ThemeFilter {
    match f {
        ThemeFilter::All => ThemeFilter::Dark,
        ThemeFilter::Dark => ThemeFilter::Light,
        ThemeFilter::Light => ThemeFilter::All,
    }
}

/// Cycling the filter three times comes back to where it started.
pub proof fn lemma_filter_cycle(f: ThemeFilter)
    ensures
        f != next_filter(f),
        next_filter(next_filter(next_filter(f))) == f,
{
}

/// A palette entry `N=COLOR`: the text before the first `=`, trimmed, is a
/// `usize` below 16, and the text after it, trimmed, names a colour.
pub open spec fn palette_entry_of_text(s: Seq<char>) -> Option<(nat, Color)> {
    match split_once(s, '=') {
        None => None,
        Some((k, v)) => match usize_of_text(trim(k)) {
            None => None,
            Some(i) => if i < 16 {
                match color_of_text(trim(v)) {
                    None => None,
                    Some(c) => Some((i, c)),
                }
            } else {
                None
            },
        },
    }
}

/// The palette entry written in `s[lo..hi]`.
pub fn parse_palette_entry_range(s: &Vec<char>, lo: usize, hi: usize) -> (r: Option<(usize, Color)>)
    requires
        lo <= hi <= s.len(),
    ensures
        r matches Some((i, c)) ==> palette_entry_of_text(s@.subrange(lo as int, hi as int)) == Some(
            (i as nat, c),
        ),
        r is None ==> palette_entry_of_text(s@.subrange(lo as int, hi as int)) is None,
{
    let eq = find_char(s, lo, hi, '=');
    proof {
        lemma_split_once_at(s@, lo as int, eq as int, hi as int, '=');
    }
    if eq == hi {
        return None;
    }
    let (ka, kb) = trim_range(s, lo, eq);
    let idx = match parse_usize_range(s, ka, kb) {
        Some(i) => i,
        None => {
            return None;
        },
    };
    if idx >= 16 {
        return None;
    }
    let (va, vb) = trim_range(s, eq + 1, hi);
    match parse_color_range(s, va, vb) {
        Some(c) => Some((idx, c)),
        None => None,
    }
}

/// Reads a palette entry such as `4=#89b4fa`.
pub fn parse_palette_entry(entry: &str) -> (r: Option<(usize, Color)>)
    ensures
        r matches Some((i, c)) ==> palette_entry_of_text(entry@) == Some((i as nat, c)),
        r is None ==> palette_entry_of_text(entry@) is None,
{
    let s = chars_of(entry);
    assert(s@.subrange(0, s@.len() as int) =~= s@);
    parse_palette_entry_range(&s, 0, s.len())
}

/// The colours a theme file sets.
#[derive(Clone, Copy, Debug)]
pub struct ThemeColors {
    pub palette: [Color; 16],
    pub background: Color,
    pub foreground: Color,
}

/// The colours of a theme, with the palette as a sequence.
pub struct ThemeColorsView {
    pub palette: Seq<Color>,
    pub background: Color,
    pub foreground: Color,
}

impl View for ThemeColors {
    type V = ThemeColorsView;

    open spec fn view(&self) -> ThemeColorsView {
        ThemeColorsView {
            palette: self.palette@,
            background: self.background,
            foreground: self.foreground,
        }
    }
}

/// What a theme that sets nothing looks like: a black palette, a black
/// background and a white foreground.
pub open spec fn default_colors() -> ThemeColorsView {
    ThemeColorsView {
        palette: Seq::new(16, |i: int| Color::Black),
        background: Color::Black,
        foreground: Color::White,
    }
}

/// Palette entries are separated by commas and white space.
pub open spec fn palette_separator() -> spec_fn(char) -> bool {
    |c: char| c == ',' || is_space(c)
}

pub open spec fn non_empty() -> spec_fn(Seq<char>) -> bool {
    |p: Seq<char>| p.len() > 0
}

/// One palette entry applied: a valid entry sets its slot, anything else is
/// ignored.
pub open spec fn apply_palette_token(st: ThemeColorsView, token: Seq<char>) -> ThemeColorsView {
    match palette_entry_of_text(token) {
        Some((i, c)) => ThemeColorsView { palette: st.palette.update(i as int, c), ..st },
        None => st,
    }
}

pub open spec fn palette_step() -> spec_fn(ThemeColorsView, Seq<char>) -> ThemeColorsView {
    |st: ThemeColorsView, token: Seq<char>| apply_palette_token(st, token)
}

/// The entries of a `palette = ...` value applied in order.
pub open spec fn apply_palette(st: ThemeColorsView, value: Seq<char>) -> ThemeColorsView {
    split_by(value, palette_separator()).filter(non_empty()).fold_left(st, palette_step())
}

pub open spec fn palette_key() -> Seq<char> {
    seq!['p', 'a', 'l', 'e', 't', 't', 'e']
}

pub open spec fn background_key() -> Seq<char> {
    seq!['b', 'a', 'c', 'k', 'g', 'r', 'o', 'u', 'n', 'd']
}

pub open spec fn foreground_key() -> Seq<char> {
    seq!['f', 'o', 'r', 'e', 'g', 'r', 'o', 'u', 'n', 'd']
}

/// One line of a theme file applied.  Blank lines, lines starting with `#`
/// and lines without `=` change nothing; otherwise the trimmed text before
/// the first `=` is the key and the trimmed text after it the value.
/// `palette` applies each entry of the value, `background` and `foreground`
/// set their colour when the value names one; other keys are ignored.
pub open spec fn apply_line(st: ThemeColorsView, line: Seq<char>) -> ThemeColorsView {
    let t = trim(line);
    if t.len() == 0 || t[0] == '#' {
        st
    } else {
        match split_once(t, '=') {
            None => st,
            Some((k, v)) => {
                let key = trim(k);
                let value = trim(v);
                if key == palette_key() {
                    apply_palette(st, value)
                } else if key == background_key() {
                    match color_of_text(value) {
                        Some(c) => ThemeColorsView { background: c, ..st },
                        None => st,
                    }
                } else if key == foreground_key() {
                    match color_of_text(value) {
                        Some(c) => ThemeColorsView { foreground: c, ..st },
                        None => st,
                    }
                } else {
                    st
                }
            },
        }
    }
}

pub open spec fn line_step() -> spec_fn(ThemeColorsView, Seq<char>) -> ThemeColorsView {
    |st: ThemeColorsView, line: Seq<char>| apply_line(st, line)
}

/// The colours a theme file's text sets: its lines applied in order to the
/// defaults.
pub open spec fn colors_of_text(content: Seq<char>) -> ThemeColorsView {
    lines(content).fold_left(default_colors(), line_step())
}

/// A line that sets nothing: blank once trimmed, a `#` comment, without
/// `=`, or with a key other than `palette`, `background` and `foreground`.
pub open spec fn sets_nothing(line: Seq<char>) -> bool {
    let t = trim(line);
    ||| t.len() == 0
    ||| t[0] == '#'
    ||| match split_once(t, '=') {
        None => true,
        Some((k, v)) => trim(k) != palette_key() && trim(k) != background_key() && trim(k)
            != foreground_key(),
    }
}

pub open spec fn may_set_something() -> spec_fn(Seq<char>) -> bool {
    |line: Seq<char>| !sets_nothing(line)
}

proof fn lemma_fold_skips_idle_lines(ls: Seq<Seq<char>>, st: ThemeColorsView)
    ensures
        ls.fold_left(st, line_step()) == ls.filter(may_set_something()).fold_left(
            st,
            line_step(),
        ),
    decreases ls.len(),
{
    if ls.len() > 0 {
        let rest = ls.drop_last();
        lemma_fold_skips_idle_lines(rest, st);
        assert(rest.push(ls.last()) =~= ls);
        lemma_filter_push(rest, ls.last(), may_set_something());
        if !sets_nothing(ls.last()) {
            lemma_fold_push(rest.filter(may_set_something()), ls.last(), st, line_step());
        }
    }
}

/// Lines that set nothing (blank lines, comments, lines without `=` and
/// lines with other keys) make no difference wherever they stand: two theme
/// files whose other lines are the same, in the same order, give the same
/// colours.
pub proof fn lemma_idle_lines_change_nothing(c1: Seq<char>, c2: Seq<char>)
    requires
        lines(c1).filter(may_set_something()) == lines(c2).filter(may_set_something()),
    ensures
        colors_of_text(c1) == colors_of_text(c2),
{
    lemma_fold_skips_idle_lines(lines(c1), default_colors());
    lemma_fold_skips_idle_lines(lines(c2), default_colors());
}

proof fn lemma_piece_shift(s: Seq<char>, lo: int, hi: int, start: int, i: int)
    requires
        0 <= lo <= start <= i <= hi <= s.len(),
    ensures
        s.subrange(lo, hi).subrange(start - lo, i - lo) == s.subrange(start, i),
{
    assert(s.subrange(lo, hi).subrange(start - lo, i - lo) =~= s.subrange(start, i));
}

/// Applies the entries of the palette value `s[lo..hi]`.
fn apply_palette_range(colors: &mut ThemeColors, s: &Vec<char>, lo: usize, hi: usize)
    requires
        lo <= hi <= s.len(),
    ensures
        final(colors)@ == apply_palette(old(colors)@, s@.subrange(lo as int, hi as int)),
{
    let ghost v = s@.subrange(lo as int, hi as int);
    let ghost st0 = colors@;
    let ghost mut done: Seq<Seq<char>> = Seq::empty();
    let mut start = lo;
    let mut i = lo;
    proof {
        lemma_split_start(v, palette_separator());
    }
    while i < hi
        invariant
            lo <= start <= i <= hi <= s.len(),
            v == s@.subrange(lo as int, hi as int),
            split_progress(v, palette_separator(), i - lo, done, start - lo),
            colors@ == done.filter(non_empty()).fold_left(st0, palette_step()),
        decreases hi - i,
    {
        let c = s[i];
        proof {
            lemma_split_step(v, palette_separator(), i - lo, done, start - lo);
            lemma_piece_shift(s@, lo as int, hi as int, start as int, i as int);
        }
        if c == ',' || is_whitespace(c) {
            proof {
                let piece = s@.subrange(start as int, i as int);
                lemma_filter_push(done, piece, non_empty());
                lemma_fold_push(done.filter(non_empty()), piece, st0, palette_step());
                done = done.push(piece);
            }
            if start < i {
                match parse_palette_entry_range(s, start, i) {
                    Some((idx, color)) => {
                        colors.palette[idx] = color;
                    },
                    None => {},
                }
            }
            start = i + 1;
        }
        i += 1;
    }
    proof {
        lemma_split_end(v, palette_separator(), done, start - lo);
        lemma_piece_shift(s@, lo as int, hi as int, start as int, hi as int);
        let piece = s@.subrange(start as int, hi as int);
        lemma_filter_push(done, piece, non_empty());
        lemma_fold_push(done.filter(non_empty()), piece, st0, palette_step());
    }
    if start < hi {
        match parse_palette_entry_range(s, start, hi) {
            Some((idx, color)) => {
                colors.palette[idx] = color;
            },
            None => {},
        }
    }
}

/// Applies the theme-file line `s[lo..hi]`.
fn apply_line_range(colors: &mut ThemeColors, s: &Vec<char>, lo: usize, hi: usize)
    requires
        lo <= hi <= s.len(),
    ensures
        final(colors)@ == apply_line(old(colors)@, s@.subrange(lo as int, hi as int)),
{
    let (a, b) = trim_range(s, lo, hi);
    if a == b || s[a] == '#' {
        return;
    }
    let eq = find_char(s, a, b, '=');
    proof {
        lemma_split_once_at(s@, a as int, eq as int, b as int, '=');
    }
    if eq == b {
        return;
    }
    let (ka, kb) = trim_range(s, a, eq);
    let (va, vb) = trim_range(s, eq + 1, b);
    let palette_word = vec!['p', 'a', 'l', 'e', 't', 't', 'e'];
    let background_word = vec!['b', 'a', 'c', 'k', 'g', 'r', 'o', 'u', 'n', 'd'];
    let foreground_word = vec!['f', 'o', 'r', 'e', 'g', 'r', 'o', 'u', 'n', 'd'];
    assert(palette_word@ =~= palette_key());
    assert(background_word@ =~= background_key());
    assert(foreground_word@ =~= foreground_key());
    if range_eq(s, ka, kb, &palette_word) {
        apply_palette_range(colors, s, va, vb);
    } else if range_eq(s, ka, kb, &background_word) {
        match parse_color_range(s, va, vb) {
            Some(c) => {
                colors.background = c;
            },
            None => {},
        }
    } else if range_eq(s, ka, kb, &foreground_word) {
        match parse_color_range(s, va, vb) {
            Some(c) => {
                colors.foreground = c;
            },
            None => {},
        }
    }
}

/// The colours that a theme file's text sets, starting from a black
/// palette, a black background and a white foreground.
pub fn parse_theme_content(content: &str) -> (r: ThemeColors)
    ensures
        r@ == colors_of_text(content@),
{
    let s = chars_of(content);
    let mut colors = ThemeColors {
        palette: [Color::Black; 16],
        background: Color::Black,
        foreground: Color::White,
    };
    assert(colors@.palette =~= default_colors().palette);
    let ghost mut done: Seq<Seq<char>> = Seq::empty();
    let mut start: usize = 0;
    let mut i: usize = 0;
    proof {
        lemma_split_start(s@, newline());
    }
    while i < s.len()
        invariant
            start <= i <= s.len(),
            split_progress(s@, newline(), i as int, done, start as int),
            colors@ == done.fold_left(default_colors(), line_step()),
        decreases s.len() - i,
    {
        proof {
            lemma_split_step(s@, newline(), i as int, done, start as int);
        }
        if s[i] == '\n' {
            proof {
                let line = s@.subrange(start as int, i as int);
                lemma_fold_push(done, line, default_colors(), line_step());
                done = done.push(line);
            }
            apply_line_range(&mut colors, &s, start, i);
            start = i + 1;
        }
        i += 1;
    }
    proof {
        lemma_split_end(s@, newline(), done, start as int);
        lemma_fold_push(done, s@.subrange(start as int, s@.len() as int), default_colors(), line_step());
    }
    apply_line_range(&mut colors, &s, start, s.len());
    colors
}

/// `std::path::PathBuf`, declared so that a theme can carry its file's path;
/// nothing here looks inside it.
#[verifier::external_type_specification]
#[verifier::external_body]
pub struct ExPathBuf(std::path::PathBuf);

/// `PathBuf::clone`; the contract claims that the copy is the same path.
pub assume_specification[ <std::path::PathBuf as Clone>::clone ](p: &std::path::PathBuf) -> (r:
    std::path::PathBuf)
    ensures
        r == *p,
;

/// A discovered theme.
#[derive(Clone, Debug)]
pub struct Theme {
    pub name: String,
    /// `name` in lower case, which searching and ordering use.
    pub name_lower: String,
    pub path: PathBuf,
    pub palette: [Color; 16],
    pub background: Color,
    pub foreground: Color,
    pub is_dark: bool,
}

impl Theme {
    /// A theme named `name`, read from `path`, with the colours its file sets.
    pub fn new(name: String, path: PathBuf, colors: ThemeColors, is_dark: bool) -> (t: Theme)
        ensures
            t.name@ == name@,
            t.name_lower@ == lowercase(name@),
            t.path == path,
            t.palette@ == colors.palette@,
            t.background == colors.background,
            t.foreground == colors.foreground,
            t.is_dark == is_dark,
    {
        let name_lower = to_lowercase(name.as_str());
        Theme {
            name,
            name_lower,
            path,
            palette: colors.palette,
            background: colors.background,
            foreground: colors.foreground,
            is_dark,
        }
    }
}

/// Whether `t` is listed under `filter` for the (already lower-cased) search
/// text `needle`: its darkness matches the filter, and an empty needle or
/// one that occurs in the lower-cased name.
pub open spec fn theme_selected(t: Theme, filter: ThemeFilter, needle: Seq<char>) -> bool {
    &&& match filter {
        ThemeFilter::All => true,
        ThemeFilter::Dark => t.is_dark,
        ThemeFilter::Light => !t.is_dark,
    }
    &&& needle.len() == 0 || contains(t.name_lower@, needle)
}

/// `r` lists, in increasing order and each once, exactly the positions in
/// `themes` of the themes that `filter` and `needle` select.
pub open spec fn is_selection(
    r: Seq<usize>,
    themes: Seq<Theme>,
    filter: ThemeFilter,
    needle: Seq<char>,
) -> bool {
    &&& forall|k: int|
        0 <= k < r.len() ==> r[k] < themes.len() && theme_selected(
            themes[#[trigger] r[k] as int],
            filter,
            needle,
        )
    &&& forall|k1: int, k2: int| 0 <= k1 < k2 < r.len() ==> #[trigger] r[k1] < #[trigger] r[k2]
    &&& forall|i: int|
        0 <= i < themes.len() && theme_selected(#[trigger] themes[i], filter, needle)
            ==> r.contains(i as usize)
}

/// The dark and the light listings split the full listing between them:
/// for the same search, every theme listed under "all" is listed under
/// exactly one of "dark" and "light", and nothing else is.
pub proof fn lemma_dark_light_partition(
    themes: Seq<Theme>,
    needle: Seq<char>,
    all: Seq<usize>,
    dark: Seq<usize>,
    light: Seq<usize>,
)
    requires
        is_selection(all, themes, ThemeFilter::All, needle),
        is_selection(dark, themes, ThemeFilter::Dark, needle),
        is_selection(light, themes, ThemeFilter::Light, needle),
    ensures
        forall|i: usize| #[trigger] all.contains(i) <==> (dark.contains(i) || light.contains(i)),
        forall|i: usize| !(#[trigger] dark.contains(i) && light.contains(i)),
{
    assert forall|i: usize| #[trigger] all.contains(i) <==> (dark.contains(i) || light.contains(
        i,
    )) by {
        if all.contains(i) {
            let k = choose|k: int| 0 <= k < all.len() && all[k] == i;
            assert(theme_selected(themes[all[k] as int], ThemeFilter::All, needle));
            if themes[i as int].is_dark {
                assert(theme_selected(themes[i as int], ThemeFilter::Dark, needle));
            } else {
                assert(theme_selected(themes[i as int], ThemeFilter::Light, needle));
            }
        }
        if dark.contains(i) {
            let k = choose|k: int| 0 <= k < dark.len() && dark[k] == i;
            assert(theme_selected(themes[dark[k] as int], ThemeFilter::Dark, needle));
            assert(theme_selected(themes[i as int], ThemeFilter::All, needle));
        }
        if light.contains(i) {
            let k = choose|k: int| 0 <= k < light.len() && light[k] == i;
            assert(theme_selected(themes[light[k] as int], ThemeFilter::Light, needle));
            assert(theme_selected(themes[i as int], ThemeFilter::All, needle));
        }
    }
    assert forall|i: usize| !(#[trigger] dark.contains(i) && light.contains(i)) by {
        if dark.contains(i) && light.contains(i) {
            let k = choose|k: int| 0 <= k < dark.len() && dark[k] == i;
            let m = choose|m: int| 0 <= m < light.len() && light[m] == i;
            assert(theme_selected(themes[dark[k] as int], ThemeFilter::Dark, needle));
            assert(theme_selected(themes[light[m] as int], ThemeFilter::Light, needle));
        }
    }
}

/// With no search text, "all" lists every theme, once each, in order.
pub proof fn lemma_empty_search_lists_all(themes: Seq<Theme>, all: Seq<usize>)
    requires
        themes.len() <= usize::MAX,
        is_selection(all, themes, ThemeFilter::All, Seq::empty()),
    ensures
        all == Seq::new(themes.len(), |i: int| i as usize),
{
    // every position is listed, and the list increases strictly, so the
    // k-th entry is k
    assert forall|i: usize| i < themes.len() implies #[trigger] all.contains(i) by {
        assert(theme_selected(themes[i as int], ThemeFilter::All, Seq::empty()));
    }
    lemma_increasing_cover(all, themes.len());
    assert(all =~= Seq::new(themes.len(), |i: int| i as usize));
}

proof fn lemma_increasing_cover(r: Seq<usize>, n: nat)
    requires
        n <= usize::MAX,
        forall|k: int| 0 <= k < r.len() ==> #[trigger] r[k] < n,
        forall|k1: int, k2: int| 0 <= k1 < k2 < r.len() ==> #[trigger] r[k1] < #[trigger] r[k2],
        forall|i: usize| i < n ==> #[trigger] r.contains(i),
    ensures
        r.len() == n,
        forall|k: int| 0 <= k < n ==> #[trigger] r[k] == k,
    decreases n,
{
    if n > 0 {
        // the largest value, n - 1, is the last entry
        assert(r.contains((n - 1) as usize));
        let m = choose|m: int| 0 <= m < r.len() && r[m] == (n - 1) as usize;
        assert(m == r.len() - 1) by {
            if m < r.len() - 1 {
                assert(r[m] < r[m + 1]);
                assert(r[m + 1] < n);
            }
        }
        let q = r.drop_last();
        assert forall|i: usize| i < n - 1 implies #[trigger] q.contains(i) by {
            assert(r.contains(i));
            let k = choose|k: int| 0 <= k < r.len() && r[k] == i;
            assert(k != m);
            assert(q[k] == i);
        }
        assert forall|k: int| 0 <= k < q.len() implies #[trigger] q[k] < n - 1 by {
            assert(r[k] < r[m]);
        }
        lemma_increasing_cover(q, (n - 1) as nat);
        assert forall|k: int| 0 <= k < n implies #[trigger] r[k] == k by {
            if k < n - 1 {
                assert(q[k] == r[k]);
            }
        }
    } else {
        if r.len() > 0 {
            assert(r[0] < 0);
        }
    }
}

proof fn lemma_increasing_same_elements(a: Seq<usize>, b: Seq<usize>)
    requires
        forall|k1: int, k2: int| 0 <= k1 < k2 < a.len() ==> #[trigger] a[k1] < #[trigger] a[k2],
        forall|k1: int, k2: int| 0 <= k1 < k2 < b.len() ==> #[trigger] b[k1] < #[trigger] b[k2],
        forall|x: usize|
            #![trigger a.contains(x)]
            #![trigger b.contains(x)]
            a.contains(x) <==> b.contains(x),
    ensures
        a == b,
    decreases a.len(),
{
    if a.len() == 0 {
        if b.len() > 0 {
            assert(b.contains(b[0]));
        }
        assert(a =~= b);
    } else {
        assert(a.contains(a.last()));
        assert(b.len() > 0);
        assert(b.contains(b.last()));
        let j = choose|j: int| 0 <= j < b.len() && b[j] == a.last();
        let k = choose|k: int| 0 <= k < a.len() && a[k] == b.last();
        if j < b.len() - 1 {
            assert(b[j] < b[b.len() - 1]);
            if k < a.len() - 1 {
                assert(a[k] < a[a.len() - 1]);
            }
        }
        if k < a.len() - 1 {
            assert(a[k] < a[a.len() - 1]);
            if j < b.len() - 1 {
                assert(b[j] < b[b.len() - 1]);
            }
        }
        assert(a.last() == b.last());
        let a2 = a.drop_last();
        let b2 = b.drop_last();
        assert forall|x: usize|
            #![trigger a2.contains(x)]
            #![trigger b2.contains(x)]
            a2.contains(x) <==> b2.contains(x) by {
            if a2.contains(x) {
                let p = choose|p: int| 0 <= p < a2.len() && a2[p] == x;
                assert(a[p] < a[a.len() - 1]);
                assert(a.contains(x));
                let q = choose|q: int| 0 <= q < b.len() && b[q] == x;
                assert(q != b.len() - 1);
                assert(b2[q] == x);
            }
            if b2.contains(x) {
                let p = choose|p: int| 0 <= p < b2.len() && b2[p] == x;
                assert(b[p] < b[b.len() - 1]);
                assert(b.contains(x));
                let q = choose|q: int| 0 <= q < a.len() && a[q] == x;
                assert(q != a.len() - 1);
                assert(a2[q] == x);
            }
        }
        lemma_increasing_same_elements(a2, b2);
        assert(a =~= a2.push(a.last()));
        assert(b =~= b2.push(b.last()));
    }
}

/// Searches whose texts lower-case to the same text list the same themes:
/// in particular, what `str::to_lowercase` folds together, the search does
/// not tell apart.
pub proof fn lemma_same_lowercase_same_listing(
    themes: Seq<Theme>,
    filter: ThemeFilter,
    s1: Seq<char>,
    s2: Seq<char>,
    r1: Seq<usize>,
    r2: Seq<usize>,
)
    requires
        lowercase(s1) == lowercase(s2),
        is_selection(r1, themes, filter, lowercase(s1)),
        is_selection(r2, themes, filter, lowercase(s2)),
    ensures
        r1 == r2,
{
    assert forall|x: usize|
        #![trigger r1.contains(x)]
        #![trigger r2.contains(x)]
        r1.contains(x) <==> r2.contains(x) by {
        if r1.contains(x) {
            let k = choose|k: int| 0 <= k < r1.len() && r1[k] == x;
            assert(theme_selected(themes[r1[k] as int], filter, lowercase(s1)));
        }
        if r2.contains(x) {
            let k = choose|k: int| 0 <= k < r2.len() && r2[k] == x;
            assert(theme_selected(themes[r2[k] as int], filter, lowercase(s2)));
        }
    }
    lemma_increasing_same_elements(r1, r2);
}

/// A longer search never lists more: when the lower-cased shorter search
/// occurs in the lower-cased longer one, every theme that the longer search
/// lists, the shorter one lists too.
pub proof fn lemma_longer_search_lists_less(
    themes: Seq<Theme>,
    filter: ThemeFilter,
    short: Seq<char>,
    long: Seq<char>,
    r_short: Seq<usize>,
    r_long: Seq<usize>,
)
    requires
        contains(lowercase(long), lowercase(short)),
        is_selection(r_short, themes, filter, lowercase(short)),
        is_selection(r_long, themes, filter, lowercase(long)),
    ensures
        forall|i: usize| #[trigger] r_long.contains(i) ==> r_short.contains(i),
{
    let n1 = lowercase(short);
    let n2 = lowercase(long);
    assert forall|i: usize| #[trigger] r_long.contains(i) implies r_short.contains(i) by {
        let k = choose|k: int| 0 <= k < r_long.len() && r_long[k] == i;
        let t = themes[i as int];
        assert(theme_selected(themes[r_long[k] as int], filter, n2));
        if n1.len() > 0 {
            let j = choose|j: int| occurs_at(n2, n1, j);
            assert(n2.len() > 0);
            let h = t.name_lower@;
            let p = choose|p: int| occurs_at(h, n2, p);
            assert(h.subrange(p + j, p + j + n1.len()) =~= n1) by {
                assert forall|q: int| 0 <= q < n1.len() implies h.subrange(
                    p + j,
                    p + j + n1.len(),
                )[q] == n1[q] by {
                    assert(n1[q] == n2.subrange(j, j + n1.len())[q]);
                    assert(n2[j + q] == h.subrange(p, p + n2.len())[j + q]);
                }
            }
            assert(occurs_at(h, n1, p + j));
        }
        assert(theme_selected(t, filter, n1));
    }
}

/// A theme is selected exactly when its darkness suits the filter and the
/// search text is empty or occurs in its lower-cased name, whatever the
/// length of either.
pub proof fn lemma_selected_when(t: Theme, filter: ThemeFilter, needle: Seq<char>)
    ensures
        theme_selected(t, filter, needle) <==> ((filter == ThemeFilter::All || (filter
            == ThemeFilter::Dark && t.is_dark) || (filter == ThemeFilter::Light && !t.is_dark)) && (
        needle.len() == 0 || exists|i: int|
            0 <= i && i + needle.len() <= t.name_lower@.len() && #[trigger] t.name_lower@.subrange(
                i,
                i + needle.len(),
            ) == needle)),
{
    let h = t.name_lower@;
    if contains(h, needle) {
        let i = choose|i: int| occurs_at(h, needle, i);
        assert(h.subrange(i, i + needle.len()) == needle);
    }
    if exists|i: int|
        0 <= i && i + needle.len() <= h.len() && #[trigger] h.subrange(i, i + needle.len())
            == needle {
        let i = choose|i: int|
            0 <= i && i + needle.len() <= h.len() && #[trigger] h.subrange(i, i + needle.len())
                == needle;
        assert(occurs_at(h, needle, i));
    }
}

/// The positions in `themes` of the themes that `filter` and the search
/// text `search` (compared in lower case) select, in increasing order.
pub fn filter_themes(themes: &[Theme], filter: ThemeFilter, search: &str) -> (r: Vec<usize>)
    ensures
        is_selection(r@, themes@, filter, lowercase(search@)),
        forall|i: int|
            0 <= i < themes@.len() ==> (#[trigger] r@.contains(i as usize) <==> ((filter
                == ThemeFilter::All || (filter == ThemeFilter::Dark && themes@[i].is_dark) || (
            filter == ThemeFilter::Light && !themes@[i].is_dark)) && (lowercase(search@).len() == 0
                || contains(themes@[i].name_lower@, lowercase(search@))))),
        forall|k: int| 0 <= k < r@.len() ==> #[trigger] r@[k] < themes@.len(),
        search@.len() == 0 ==> is_selection(r@, themes@, filter, Seq::empty()),
        search@.len() == 0 && filter == ThemeFilter::All ==> r@ == Seq::new(
            themes@.len(),
            |i: int| i as usize,
        ),
{
    let search_lower = to_lowercase(search);
    let needle = chars_of(search_lower.as_str());
    let mut indices: Vec<usize> = Vec::new();
    let mut i: usize = 0;
    while i < themes.len()
        invariant
            i <= themes.len(),
            needle@ == lowercase(search@),
            forall|k: int|
                0 <= k < indices.len() ==> indices[k] < i && theme_selected(
                    themes[indices[k] as int],
                    filter,
                    needle@,
                ),
            forall|k1: int, k2: int| 0 <= k1 < k2 < indices.len() ==> indices[k1] < indices[k2],
            forall|j: int|
                0 <= j < i && theme_selected(themes[j], filter, needle@) ==> indices@.contains(
                    j as usize,
                ),
        decreases themes.len() - i,
    {
        let matches_filter = match filter {
            ThemeFilter::All => true,
            ThemeFilter::Dark => themes[i].is_dark,
            ThemeFilter::Light => !themes[i].is_dark,
        };
        let matches_search = if needle.len() == 0 {
            true
        } else {
            let name = chars_of(themes[i].name_lower.as_str());
            contains_chars(&name, &needle)
        };
        if matches_filter && matches_search {
            indices.push(i);
            assert(indices@[indices.len() - 1] == i);
        }
        i += 1;
    }
    proof {
        assert forall|i: int| 0 <= i < themes@.len() implies (#[trigger] indices@.contains(
            i as usize,
        ) <==> theme_selected(themes@[i], filter, needle@)) by {
            if indices@.contains(i as usize) {
                let k = choose|k: int| 0 <= k < indices@.len() && indices@[k] == i as usize;
                assert(theme_selected(themes@[indices@[k] as int], filter, needle@));
            }
        }
        if search@.len() == 0 {
            assert(needle@ =~= Seq::<char>::empty());
            if filter == ThemeFilter::All {
                lemma_empty_search_lists_all(themes@, indices@);
            }
        }
    }
    indices
}

/// Every theme's lower-cased name sorts no later than the next one's.
pub open spec fn sorted_by_name(s: Seq<Theme>) -> bool {
    forall|i: int, j: int|
        0 <= i < j < s.len() ==> !lex_lt(#[trigger] s[j].name_lower@, #[trigger] s[i].name_lower@)
}

/// The themes whose lower-cased name is `k`.
pub open spec fn named(k: Seq<char>) -> spec_fn(Theme) -> bool {
    |t: Theme| t.name_lower@ == k
}

proof fn lemma_filter_none<A>(s: Seq<A>, pred: spec_fn(A) -> bool)
    requires
        forall|i: int| 0 <= i < s.len() ==> !pred(#[trigger] s[i]),
    ensures
        s.filter(pred) == Seq::<A>::empty(),
    decreases s.len(),
{
    reveal(Seq::filter);
    if s.len() > 0 {
        lemma_filter_none(s.drop_last(), pred);
    }
}

proof fn lemma_insert_in_order(res: Seq<Theme>, x: Theme, pos: int)
    requires
        sorted_by_name(res),
        0 <= pos <= res.len(),
        forall|j: int| 0 <= j < pos ==> !lex_lt(x.name_lower@, #[trigger] res[j].name_lower@),
        pos < res.len() ==> lex_lt(x.name_lower@, res[pos].name_lower@),
    ensures
        sorted_by_name(res.insert(pos, x)),
        forall|k: Seq<char>|
            #[trigger] res.insert(pos, x).filter(named(k)) == (if x.name_lower@ == k {
                res.filter(named(k)).push(x)
            } else {
                res.filter(named(k))
            }),
{
    let xk = x.name_lower@;
    let r2 = res.insert(pos, x);
    assert forall|m: int| pos <= m < res.len() implies lex_lt(xk, #[trigger] res[m].name_lower@) by {
        if m > pos {
            let pk = res[pos].name_lower@;
            let mk = res[m].name_lower@;
            if pk != mk {
                lemma_lex_total(pk, mk);
                lemma_lex_transitive(xk, pk, mk);
            }
        }
    }
    assert forall|i: int, j: int| 0 <= i < j < r2.len() implies !lex_lt(
        #[trigger] r2[j].name_lower@,
        #[trigger] r2[i].name_lower@,
    ) by {
        if j < pos {
            assert(r2[i] == res[i] && r2[j] == res[j]);
        } else if j == pos {
            assert(r2[i] == res[i] && r2[j] == x);
        } else if i < pos {
            assert(r2[i] == res[i] && r2[j] == res[j - 1]);
        } else if i == pos {
            assert(r2[i] == x && r2[j] == res[j - 1]);
            lemma_lex_asymmetric(xk, res[j - 1].name_lower@);
        } else {
            assert(r2[i] == res[i - 1] && r2[j] == res[j - 1]);
        }
    }
    let a = res.take(pos);
    let b = res.skip(pos);
    assert(res =~= a + b);
    assert(r2 =~= a + seq![x] + b);
    assert forall|k: Seq<char>| #[trigger] res.insert(pos, x).filter(named(k)) == (if xk == k {
        res.filter(named(k)).push(x)
    } else {
        res.filter(named(k))
    }) by {
        Seq::filter_distributes_over_add(a, b, named(k));
        Seq::filter_distributes_over_add(a + seq![x], b, named(k));
        Seq::filter_distributes_over_add(a, seq![x], named(k));
        lemma_filter_push(Seq::<Theme>::empty(), x, named(k));
        assert(Seq::<Theme>::empty().push(x) =~= seq![x]);
        assert(Seq::<Theme>::empty().filter(named(k)) =~= Seq::<Theme>::empty()) by {
            reveal(Seq::filter);
        }
        if xk == k {
            assert forall|i: int| 0 <= i < b.len() implies !named(k)(#[trigger] b[i]) by {
                assert(b[i] == res[pos + i]);
                lemma_lex_irreflexive(xk);
            }
            lemma_filter_none(b, named(k));
            assert(res.filter(named(k)) =~= a.filter(named(k)));
            assert(r2.filter(named(k)) =~= a.filter(named(k)).push(x));
        } else {
            assert(r2.filter(named(k)) =~= a.filter(named(k)) + b.filter(named(k)));
        }
    }
}

/// Orders themes by lower-cased name, as a stable sort: themes whose
/// lower-cased names are equal keep their relative order.
pub fn sort_themes(themes: Vec<Theme>) -> (r: Vec<Theme>)
    ensures
        r.len() == themes.len(),
        sorted_by_name(r@),
        forall|k: Seq<char>| #[trigger] r@.filter(named(k)) == themes@.filter(named(k)),
{
    let ghost orig = themes@;
    let n = themes.len();
    let mut rest = themes;
    let mut res: Vec<Theme> = Vec::new();
    let mut i: usize = 0;
    while i < n
        invariant
            i <= n == orig.len(),
            res.len() == i,
            rest@ == orig.skip(i as int),
            sorted_by_name(res@),
            forall|k: Seq<char>| #[trigger] res@.filter(named(k)) == orig.take(i as int).filter(
                named(k),
            ),
        decreases n - i,
    {
        let x = rest.remove(0);
        assert(x == orig[i as int]);
        assert(rest@ =~= orig.skip(i + 1));
        let xk = chars_of(x.name_lower.as_str());
        let mut pos: usize = 0;
        loop
            invariant
                pos <= res.len(),
                xk@ == x.name_lower@,
                forall|j: int| 0 <= j < pos ==> !lex_lt(xk@, #[trigger] res@[j].name_lower@),
            ensures
                pos <= res.len(),
                forall|j: int| 0 <= j < pos ==> !lex_lt(xk@, #[trigger] res@[j].name_lower@),
                pos < res.len() ==> lex_lt(xk@, res@[pos as int].name_lower@),
            decreases res.len() - pos,
        {
            if pos == res.len() {
                break;
            }
            let other = chars_of(res[pos].name_lower.as_str());
            if lex_less(&xk, &other) {
                break;
            }
            pos += 1;
        }
        proof {
            lemma_insert_in_order(res@, x, pos as int);
            assert(orig.take(i + 1) =~= orig.take(i as int).push(x));
            assert forall|k: Seq<char>| #[trigger] res@.insert(pos as int, x).filter(named(k))
                == orig.take(i + 1).filter(named(k)) by {
                lemma_filter_push(orig.take(i as int), x, named(k));
            }
        }
        res.insert(pos, x);
        i += 1;
    }
    assert(orig.take(n as int) =~= orig);
    res
}

/// `s` padded with spaces on the right to `width` characters.
pub open spec fn pad_right(s: Seq<char>, width: nat) -> Seq<char> {
    if s.len() >= width {
        s
    } else {
        s + Seq::new((width - s.len()) as nat, |i: int| ' ')
    }
}

/// The line that `--list` prints for a theme: its name in a 30-character
/// column, `[dark]` or `[light]`, and the path of its file.
pub open spec fn listing_text(name: Seq<char>, is_dark: bool, path: Seq<char>) -> Seq<char> {
    "  "@ + pad_right(name, 30) + " ["@ + (if is_dark {
        "dark"@
    } else {
        "light"@
    }) + "] "@ + path
}

/// The line that `--list` prints for `theme`, whose file's path reads `path`.
pub fn listing_line(theme: &Theme, path: &str) -> (r: String)
    ensures
        r@ == listing_text(theme.name@, theme.is_dark, path@),
{
    let mut r = String::new();
    append_str(&mut r, "  ");
    let name = chars_of(theme.name.as_str());
    append_str(&mut r, theme.name.as_str());
    let ghost padded_from = r@;
    let mut n = name.len();
    while n < 30
        invariant
            name.len() <= n <= 30 || (n == name.len() && n >= 30),
            r@ == padded_from + Seq::new((n - name.len()) as nat, |i: int| ' '),
        decreases 30 - n,
    {
        let ghost before = r@;
        push_char(&mut r, ' ');
        assert(r@ =~= padded_from + Seq::new((n + 1 - name.len()) as nat, |i: int| ' '));
        n += 1;
    }
    assert(r@ =~= "  "@ + pad_right(theme.name@, 30));
    append_str(&mut r, " [");
    if theme.is_dark {
        append_str(&mut r, "dark");
    } else {
        append_str(&mut r, "light");
    }
    append_str(&mut r, "] ");
    append_str(&mut r, path);
    r
}

} // verus!
