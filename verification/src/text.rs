//! Character classes, text scanning and the small string operations the
//! parsers are written with.  Text is handled as a `Vec<char>` with index
//! ranges, and specified over `Seq<char>`.

use vstd::prelude::*;

verus! {

broadcast use vstd::seq_lib::group_seq_properties;

/// Unicode `White_Space`, the set that `char::is_whitespace` and `str::trim` use.
pub open spec fn is_space(c: char) -> bool {
    let u = c as u32;
    ||| 9 <= u <= 13
    ||| u == 32
    ||| u == 0x85
    ||| u == 0xA0
    ||| u == 0x1680
    ||| 0x2000 <= u <= 0x200A
    ||| u == 0x2028
    ||| u == 0x2029
    ||| u == 0x202F
    ||| u == 0x205F
    ||| u == 0x3000
}

/// ASCII hexadecimal digit: `0-9`, `a-f`, `A-F`.
pub open spec fn is_hex_digit(c: char) -> bool {
    ||| '0' <= c <= '9'
    ||| 'a' <= c <= 'f'
    ||| 'A' <= c <= 'F'
}

/// Value of an ASCII hexadecimal digit.
pub open spec fn hex_value(c: char) -> int {
    if '0' <= c <= '9' {
        c as int - '0' as int
    } else if 'a' <= c <= 'f' {
        c as int - 'a' as int + 10
    } else {
        c as int - 'A' as int + 10
    }
}

pub open spec fn is_decimal_digit(c: char) -> bool {
    '0' <= c <= '9'
}

pub open spec fn space() -> spec_fn(char) -> bool {
    |c: char| is_space(c)
}

pub open spec fn non_space() -> spec_fn(char) -> bool {
    |c: char| !is_space(c)
}

pub open spec fn hex_digit() -> spec_fn(char) -> bool {
    |c: char| is_hex_digit(c)
}

/// Holds of every character but `sep`.
pub open spec fn other_than(sep: char) -> spec_fn(char) -> bool {
    |c: char| c != sep
}

/// Number of leading characters of `s` that satisfy `p`.
pub open spec fn prefix_len(s: Seq<char>, p: spec_fn(char) -> bool) -> nat
    decreases s.len(),
{
    if s.len() > 0 && p(s[0]) {
        1 + prefix_len(s.drop_first(), p)
    } else {
        0
    }
}

/// Number of trailing characters of `s` that satisfy `p`.
pub open spec fn suffix_len(s: Seq<char>, p: spec_fn(char) -> bool) -> nat
    decreases s.len(),
{
    if s.len() > 0 && p(s.last()) {
        1 + suffix_len(s.drop_last(), p)
    } else {
        0
    }
}

/// `s` without its leading white space.
pub open spec fn trim_start(s: Seq<char>) -> Seq<char> {
    s.skip(prefix_len(s, space()) as int)
}

/// `s` without its trailing white space.
pub open spec fn trim_end(s: Seq<char>) -> Seq<char> {
    s.take(s.len() - suffix_len(s, space()))
}

/// `s` without leading and trailing white space, as `str::trim`.
pub open spec fn trim(s: Seq<char>) -> Seq<char> {
    trim_end(trim_start(s))
}

/// The pieces of `s` between the characters that satisfy `p`, as `str::split`:
/// `n` separators give `n + 1` pieces, some of them possibly empty.
pub open spec fn split_by(s: Seq<char>, p: spec_fn(char) -> bool) -> Seq<Seq<char>>
    decreases s.len(),
{
    if s.len() == 0 {
        seq![Seq::<char>::empty()]
    } else {
        let before = split_by(s.drop_last(), p);
        if p(s.last()) {
            before.push(Seq::<char>::empty())
        } else {
            before.update(before.len() - 1, before.last().push(s.last()))
        }
    }
}

/// The text before and after the first `sep` in `s`, as `str::split_once`.
pub open spec fn split_once(s: Seq<char>, sep: char) -> Option<(Seq<char>, Seq<char>)> {
    let i = prefix_len(s, other_than(sep));
    if i < s.len() {
        Some((s.take(i as int), s.skip(i + 1 as int)))
    } else {
        None
    }
}

/// The first white-space separated word of `s`, as `str::split_whitespace().next()`.
pub open spec fn first_word(s: Seq<char>) -> Option<Seq<char>> {
    let t = trim_start(s);
    if t.len() == 0 {
        None
    } else {
        Some(t.take(prefix_len(t, non_space()) as int))
    }
}

/// `needle` occurs in `hay` at `i`.
pub open spec fn occurs_at(hay: Seq<char>, needle: Seq<char>, i: int) -> bool {
    0 <= i && i + needle.len() <= hay.len() && hay.subrange(i, i + needle.len()) == needle
}

/// `needle` occurs somewhere in `hay`, as `str::contains`.
pub open spec fn contains(hay: Seq<char>, needle: Seq<char>) -> bool {
    exists|i: int| occurs_at(hay, needle, i)
}

/// `hay` ends with `needle`, as `str::ends_with`.
pub open spec fn ends_with(hay: Seq<char>, needle: Seq<char>) -> bool {
    needle.len() <= hay.len() && hay.skip(hay.len() - needle.len()) == needle
}

pub proof fn lemma_prefix_len(s: Seq<char>, p: spec_fn(char) -> bool, i: int)
    requires
        0 <= i <= s.len(),
        forall|j: int| 0 <= j < i ==> p(s[j]),
        i == s.len() || !p(s[i]),
    ensures
        prefix_len(s, p) == i,
    decreases i,
{
    if i > 0 {
        lemma_prefix_len(s.drop_first(), p, i - 1);
    }
}

pub proof fn lemma_suffix_len(s: Seq<char>, p: spec_fn(char) -> bool, k: int)
    requires
        0 <= k <= s.len(),
        forall|j: int| k <= j < s.len() ==> p(s[j]),
        k == 0 || !p(s[k - 1]),
    ensures
        suffix_len(s, p) == s.len() - k,
    decreases s.len() - k,
{
    if k < s.len() {
        lemma_suffix_len(s.drop_last(), p, k);
    }
}

/// The characters of `s`.
pub fn chars_of(s: &str) -> (v: Vec<char>)
    ensures
        v@ == s@,
{
    broadcast use vstd::string::axiom_spec_iter;
    let mut v: Vec<char> = Vec::new();
    for c in it: s.chars()
        invariant
            it.seq() == s@,
            v@ == it.seq().take(it.index() as int),
    {
        v.push(c);
    }
    v
}

/// `char::is_whitespace`: the Unicode `White_Space` property.
pub fn is_whitespace(c: char) -> (r: bool)
    ensures
        r == is_space(c),
{
    let u = c as u32;
    (9 <= u && u <= 13) || u == 32 || u == 0x85 || u == 0xA0 || u == 0x1680 || (0x2000 <= u
        && u <= 0x200A) || u == 0x2028 || u == 0x2029 || u == 0x202F || u == 0x205F || u == 0x3000
}

/// `char::is_ascii_hexdigit`.
pub fn is_ascii_hexdigit(c: char) -> (r: bool)
    ensures
        r == is_hex_digit(c),
{
    ('0' <= c && c <= '9') || ('a' <= c && c <= 'f') || ('A' <= c && c <= 'F')
}

/// End of the run of white space that starts at `lo`.
pub fn skip_spaces(s: &Vec<char>, lo: usize, hi: usize) -> (r: usize)
    requires
        lo <= hi <= s.len(),
    ensures
        lo <= r <= hi,
        r - lo == prefix_len(s@.subrange(lo as int, hi as int), space()),
        forall|j: int| lo <= j < r ==> is_space(s@[j]),
        r < hi ==> !is_space(s@[r as int]),
{
    let mut i = lo;
    while i < hi && is_whitespace(s[i])
        invariant
            lo <= i <= hi <= s.len(),
            forall|j: int| lo <= j < i ==> is_space(s@[j]),
        decreases hi - i,
    {
        i += 1;
    }
    proof {
        lemma_prefix_len(s@.subrange(lo as int, hi as int), space(), i - lo);
    }
    i
}

/// End of the run of non-white-space characters that starts at `lo`.
pub fn skip_non_spaces(s: &Vec<char>, lo: usize, hi: usize) -> (r: usize)
    requires
        lo <= hi <= s.len(),
    ensures
        lo <= r <= hi,
        r - lo == prefix_len(s@.subrange(lo as int, hi as int), non_space()),
        forall|j: int| lo <= j < r ==> !is_space(s@[j]),
        r < hi ==> is_space(s@[r as int]),
{
    let mut i = lo;
    while i < hi && !is_whitespace(s[i])
        invariant
            lo <= i <= hi <= s.len(),
            forall|j: int| lo <= j < i ==> !is_space(s@[j]),
        decreases hi - i,
    {
        i += 1;
    }
    proof {
        lemma_prefix_len(s@.subrange(lo as int, hi as int), non_space(), i - lo);
    }
    i
}

/// End of the run of hexadecimal digits that starts at `lo`.
pub fn skip_hex_digits(s: &Vec<char>, lo: usize, hi: usize) -> (r: usize)
    requires
        lo <= hi <= s.len(),
    ensures
        lo <= r <= hi,
        r - lo == prefix_len(s@.subrange(lo as int, hi as int), hex_digit()),
        forall|j: int| lo <= j < r ==> is_hex_digit(s@[j]),
        r < hi ==> !is_hex_digit(s@[r as int]),
{
    let mut i = lo;
    while i < hi && is_ascii_hexdigit(s[i])
        invariant
            lo <= i <= hi <= s.len(),
            forall|j: int| lo <= j < i ==> is_hex_digit(s@[j]),
        decreases hi - i,
    {
        i += 1;
    }
    proof {
        lemma_prefix_len(s@.subrange(lo as int, hi as int), hex_digit(), i - lo);
    }
    i
}

/// Position of the first `sep` at or after `lo`, or `hi` if there is none.
pub fn find_char(s: &Vec<char>, lo: usize, hi: usize, sep: char) -> (r: usize)
    requires
        lo <= hi <= s.len(),
    ensures
        lo <= r <= hi,
        r - lo == prefix_len(s@.subrange(lo as int, hi as int), other_than(sep)),
        forall|j: int| lo <= j < r ==> s@[j] != sep,
        r < hi ==> s@[r as int] == sep,
{
    let mut i = lo;
    while i < hi && s[i] != sep
        invariant
            lo <= i <= hi <= s.len(),
            forall|j: int| lo <= j < i ==> s@[j] != sep,
        decreases hi - i,
    {
        i += 1;
    }
    proof {
        lemma_prefix_len(s@.subrange(lo as int, hi as int), other_than(sep), i - lo);
    }
    i
}

/// Start of the run of white space that ends at `hi`.
pub fn skip_spaces_back(s: &Vec<char>, lo: usize, hi: usize) -> (r: usize)
    requires
        lo <= hi <= s.len(),
    ensures
        lo <= r <= hi,
        hi - r == suffix_len(s@.subrange(lo as int, hi as int), space()),
{
    let mut k = hi;
    while k > lo && is_whitespace(s[k - 1])
        invariant
            lo <= k <= hi <= s.len(),
            forall|j: int| k <= j < hi ==> is_space(s@[j]),
        decreases k - lo,
    {
        k -= 1;
    }
    proof {
        lemma_suffix_len(s@.subrange(lo as int, hi as int), space(), k - lo);
    }
    k
}

/// The bounds of `s[lo..hi]` with leading and trailing white space removed.
pub fn trim_range(s: &Vec<char>, lo: usize, hi: usize) -> (r: (usize, usize))
    requires
        lo <= hi <= s.len(),
    ensures
        lo <= r.0 <= r.1 <= hi,
        s@.subrange(r.0 as int, r.1 as int) == trim(s@.subrange(lo as int, hi as int)),
{
    let a = skip_spaces(s, lo, hi);
    let b = skip_spaces_back(s, a, hi);
    proof {
        let t = s@.subrange(lo as int, hi as int);
        assert(trim_start(t) =~= s@.subrange(a as int, hi as int));
        assert(trim_end(s@.subrange(a as int, hi as int)) =~= s@.subrange(a as int, b as int));
    }
    (a, b)
}

/// `split_by(s.take(i), p)` is the pieces `done` already closed, followed by
/// the open piece `s[start..i]`.
pub open spec fn split_progress(
    s: Seq<char>,
    p: spec_fn(char) -> bool,
    i: int,
    done: Seq<Seq<char>>,
    start: int,
) -> bool {
    &&& 0 <= start <= i <= s.len()
    &&& split_by(s.take(i), p) == done.push(s.subrange(start, i))
}

pub proof fn lemma_split_len(s: Seq<char>, p: spec_fn(char) -> bool)
    ensures
        split_by(s, p).len() >= 1,
    decreases s.len(),
{
    if s.len() > 0 {
        lemma_split_len(s.drop_last(), p);
    }
}

pub proof fn lemma_split_start(s: Seq<char>, p: spec_fn(char) -> bool)
    ensures
        split_progress(s, p, 0, Seq::empty(), 0),
{
    assert(s.take(0) =~= Seq::<char>::empty());
    assert(Seq::<Seq<char>>::empty().push(s.subrange(0, 0)) =~= seq![Seq::<char>::empty()]);
}

/// One more character: a separator closes the open piece, anything else
/// extends it.
pub proof fn lemma_split_step(
    s: Seq<char>,
    p: spec_fn(char) -> bool,
    i: int,
    done: Seq<Seq<char>>,
    start: int,
)
    requires
        split_progress(s, p, i, done, start),
        i < s.len(),
    ensures
        p(s[i]) ==> split_progress(s, p, i + 1, done.push(s.subrange(start, i)), i + 1),
        !p(s[i]) ==> split_progress(s, p, i + 1, done, start),
{
    let t = s.take(i + 1);
    assert(t.drop_last() =~= s.take(i));
    assert(t.last() == s[i]);
    assert(s.subrange(i + 1, i + 1) =~= Seq::<char>::empty());
    let before = done.push(s.subrange(start, i));
    if !p(s[i]) {
        assert(s.subrange(start, i).push(s[i]) =~= s.subrange(start, i + 1));
        assert(before.update(before.len() - 1, before.last().push(s[i])) =~= done.push(
            s.subrange(start, i + 1),
        ));
    }
}

pub proof fn lemma_split_end(s: Seq<char>, p: spec_fn(char) -> bool, done: Seq<Seq<char>>, start: int)
    requires
        split_progress(s, p, s.len() as int, done, start),
    ensures
        split_by(s, p) == done.push(s.subrange(start, s.len() as int)),
{
    assert(s.take(s.len() as int) =~= s);
}

/// `s[lo..hi]` equals `w`.
pub fn range_eq(s: &Vec<char>, lo: usize, hi: usize, w: &Vec<char>) -> (r: bool)
    requires
        lo <= hi <= s.len(),
    ensures
        r == (s@.subrange(lo as int, hi as int) == w@),
{
    if hi - lo != w.len() {
        return false;
    }
    let mut i: usize = 0;
    while i < w.len()
        invariant
            lo <= hi <= s.len(),
            hi - lo == w.len(),
            0 <= i <= w.len(),
            forall|j: int| 0 <= j < i ==> s@[lo + j] == w@[j],
        decreases w.len() - i,
    {
        if s[lo + i] != w[i] {
            assert(s@.subrange(lo as int, hi as int)[i as int] != w@[i as int]);
            return false;
        }
        i += 1;
    }
    assert(s@.subrange(lo as int, hi as int) =~= w@);
    true
}

/// Value of a string of decimal digits.
pub open spec fn decimal_value(d: Seq<char>) -> nat
    decreases d.len(),
{
    if d.len() == 0 {
        0
    } else {
        10 * decimal_value(d.drop_last()) + (d.last() as int - '0' as int) as nat
    }
}

pub open spec fn all_decimal(d: Seq<char>) -> bool {
    forall|i: int| 0 <= i < d.len() ==> is_decimal_digit(#[trigger] d[i])
}

/// `usize::from_str`: an optional `+`, then one or more decimal digits whose
/// value fits in a `usize`.
pub open spec fn usize_of_text(s: Seq<char>) -> Option<nat> {
    let d = if s.len() > 0 && s[0] == '+' {
        s.drop_first()
    } else {
        s
    };
    if d.len() > 0 && all_decimal(d) && decimal_value(d) <= usize::MAX {
        Some(decimal_value(d))
    } else {
        None
    }
}

proof fn lemma_decimal_prefix_grows(d: Seq<char>, k: int, m: int)
    requires
        0 <= k <= m <= d.len(),
        all_decimal(d),
    ensures
        decimal_value(d.take(k)) <= decimal_value(d.take(m)),
    decreases m - k,
{
    if k < m {
        lemma_decimal_prefix_grows(d, k, m - 1);
        assert(d.take(m).drop_last() =~= d.take(m - 1));
    }
}

/// `s[lo..hi]` read as a `usize`, as `str::parse::<usize>` does.
pub fn parse_usize_range(s: &Vec<char>, lo: usize, hi: usize) -> (r: Option<usize>)
    requires
        lo <= hi <= s.len(),
    ensures
        r matches Some(v) ==> usize_of_text(s@.subrange(lo as int, hi as int)) == Some(v as nat),
        r is None ==> usize_of_text(s@.subrange(lo as int, hi as int)) is None,
{
    let ghost t = s@.subrange(lo as int, hi as int);
    let start = if lo < hi && s[lo] == '+' {
        lo + 1
    } else {
        lo
    };
    let ghost d = s@.subrange(start as int, hi as int);
    assert(d =~= (if t.len() > 0 && t[0] == '+' { t.drop_first() } else { t }));
    if start == hi {
        return None;
    }
    let mut value: usize = 0;
    let mut i = start;
    while i < hi
        invariant
            lo <= start <= i <= hi <= s.len(),
            d == s@.subrange(start as int, hi as int),
            t == s@.subrange(lo as int, hi as int),
            d == (if t.len() > 0 && t[0] == '+' { t.drop_first() } else { t }),
            forall|j: int| start <= j < i ==> is_decimal_digit(s@[j]),
            value == decimal_value(d.take(i - start)),
        decreases hi - i,
    {
        let c = s[i];
        if !('0' <= c && c <= '9') {
            assert(!is_decimal_digit(d[i - start]));
            return None;
        }
        assert(d.take(i + 1 - start).drop_last() =~= d.take(i - start));
        let digit = (c as u32 - '0' as u32) as usize;
        proof {
            if all_decimal(d) {
                lemma_decimal_prefix_grows(d, i + 1 - start, d.len() as int);
                assert(d.take(d.len() as int) =~= d);
            }
            assert(d.take(i + 1 - start).last() == c);
        }
        match value.checked_mul(10) {
            Some(m) => match m.checked_add(digit) {
                Some(v) => {
                    value = v;
                },
                None => {
                    return None;
                },
            },
            None => {
                return None;
            },
        }
        i += 1;
    }
    assert(d.take(hi - start) =~= d);
    Some(value)
}

pub proof fn lemma_filter_push<A>(s: Seq<A>, x: A, pred: spec_fn(A) -> bool)
    ensures
        s.push(x).filter(pred) == (if pred(x) {
            s.filter(pred).push(x)
        } else {
            s.filter(pred)
        }),
{
    reveal(Seq::filter);
    assert(s.push(x).drop_last() =~= s);
}

pub proof fn lemma_fold_push<A, B>(s: Seq<A>, x: A, b: B, f: spec_fn(B, A) -> B)
    ensures
        s.push(x).fold_left(b, f) == f(s.fold_left(b, f), x),
{
    assert(s.push(x).drop_last() =~= s);
}

/// `a` sorts before `b`: the order of `String`'s `<`, which compares the
/// UTF-8 bytes and so the characters' code points, a proper prefix first.
pub open spec fn lex_lt(a: Seq<char>, b: Seq<char>) -> bool
    decreases a.len(),
{
    if a.len() == 0 {
        b.len() > 0
    } else if b.len() == 0 {
        false
    } else if a[0] != b[0] {
        a[0] < b[0]
    } else {
        lex_lt(a.drop_first(), b.drop_first())
    }
}

/// The order is the code-point order on the first character where two texts
/// differ: a text starting with a smaller character sorts first, whatever
/// follows.
pub proof fn lemma_lex_first_char(x: char, y: char, s: Seq<char>, t: Seq<char>)
    requires
        (x as u32) < (y as u32),
    ensures
        lex_lt(seq![x] + s, seq![y] + t),
        !lex_lt(seq![y] + t, seq![x] + s),
{
    let a = seq![x] + s;
    let b = seq![y] + t;
    assert(a[0] == x && b[0] == y);
}

/// Texts with the same first character compare as the rest does.
pub proof fn lemma_lex_same_first(x: char, s: Seq<char>, t: Seq<char>)
    ensures
        lex_lt(seq![x] + s, seq![x] + t) == lex_lt(s, t),
{
    let a = seq![x] + s;
    let b = seq![x] + t;
    assert(a.drop_first() =~= s);
    assert(b.drop_first() =~= t);
}

/// Empty text sorts before every other text, and nothing sorts before it.
pub proof fn lemma_lex_empty(t: Seq<char>)
    ensures
        lex_lt(Seq::empty(), t) == (t.len() > 0),
        !lex_lt(t, Seq::empty()),
{
}

pub proof fn lemma_lex_irreflexive(a: Seq<char>)
    ensures
        !lex_lt(a, a),
    decreases a.len(),
{
    if a.len() > 0 {
        lemma_lex_irreflexive(a.drop_first());
    }
}

pub proof fn lemma_lex_asymmetric(a: Seq<char>, b: Seq<char>)
    requires
        lex_lt(a, b),
    ensures
        !lex_lt(b, a),
    decreases a.len(),
{
    if a.len() > 0 && b.len() > 0 && a[0] == b[0] {
        lemma_lex_asymmetric(a.drop_first(), b.drop_first());
    }
}

pub proof fn lemma_lex_transitive(a: Seq<char>, b: Seq<char>, c: Seq<char>)
    requires
        lex_lt(a, b),
        lex_lt(b, c),
    ensures
        lex_lt(a, c),
    decreases a.len(),
{
    if a.len() > 0 && b.len() > 0 && c.len() > 0 && a[0] == b[0] && b[0] == c[0] {
        lemma_lex_transitive(a.drop_first(), b.drop_first(), c.drop_first());
    }
}

pub proof fn lemma_lex_total(a: Seq<char>, b: Seq<char>)
    requires
        a != b,
    ensures
        lex_lt(a, b) || lex_lt(b, a),
    decreases a.len(),
{
    if a.len() > 0 && b.len() > 0 && a[0] == b[0] {
        if a.drop_first() == b.drop_first() {
            assert(a =~= seq![a[0]] + a.drop_first());
            assert(b =~= seq![b[0]] + b.drop_first());
        }
        lemma_lex_total(a.drop_first(), b.drop_first());
    } else if a.len() == 0 && b.len() == 0 {
        assert(a =~= b);
    }
}

proof fn lemma_lex_skip(a: Seq<char>, b: Seq<char>, i: int)
    requires
        0 <= i <= a.len(),
        i <= b.len(),
        forall|j: int| 0 <= j < i ==> a[j] == b[j],
    ensures
        lex_lt(a, b) == lex_lt(a.skip(i), b.skip(i)),
    decreases i,
{
    if i > 0 {
        lemma_lex_skip(a.drop_first(), b.drop_first(), i - 1);
        assert(a.drop_first().skip(i - 1) =~= a.skip(i));
        assert(b.drop_first().skip(i - 1) =~= b.skip(i));
    } else {
        assert(a.skip(0) =~= a);
        assert(b.skip(0) =~= b);
    }
}

/// `a < b` for the texts `a` and `b`.
pub fn lex_less(a: &Vec<char>, b: &Vec<char>) -> (r: bool)
    ensures
        r == lex_lt(a@, b@),
{
    let mut i: usize = 0;
    while i < a.len() && i < b.len() && a[i] == b[i]
        invariant
            i <= a.len(),
            i <= b.len(),
            forall|j: int| 0 <= j < i ==> a@[j] == b@[j],
        decreases a.len() - i,
    {
        i += 1;
    }
    proof {
        lemma_lex_skip(a@, b@, i as int);
    }
    if i == a.len() {
        i < b.len()
    } else if i == b.len() {
        false
    } else {
        assert(a@.skip(i as int)[0] == a@[i as int]);
        assert(b@.skip(i as int)[0] == b@[i as int]);
        a[i] < b[i]
    }
}

/// Whether `needle` occurs in `hay`.
pub fn contains_chars(hay: &Vec<char>, needle: &Vec<char>) -> (r: bool)
    ensures
        r == contains(hay@, needle@),
{
    if needle.len() > hay.len() {
        assert(forall|i: int| !occurs_at(hay@, needle@, i));
        return false;
    }
    if needle.len() == 0 {
        assert(hay@.subrange(0, 0) =~= needle@);
        assert(occurs_at(hay@, needle@, 0));
        return true;
    }
    let last = hay.len() - needle.len();
    let mut i: usize = 0;
    while i <= last
        invariant
            last == hay.len() - needle.len(),
            needle.len() > 0,
            i <= last + 1,
            forall|j: int| 0 <= j < i ==> !occurs_at(hay@, needle@, j),
        decreases last + 1 - i,
    {
        if range_eq(hay, i, i + needle.len(), needle) {
            assert(occurs_at(hay@, needle@, i as int));
            return true;
        }
        i += 1;
    }
    assert(forall|j: int| !occurs_at(hay@, needle@, j));
    false
}

/// What `str::to_lowercase` returns for the text `s`: the text under the
/// Unicode lower-case mapping, as that function applies it.
pub uninterp spec fn lowercase(s: Seq<char>) -> Seq<char>;

/// Calls `str::to_lowercase`; the contract claims that the result is
/// `lowercase` of the argument, a function of the text alone, and that empty
/// text stays empty.  It says nothing else of what lower-casing does.
#[verifier::external_body]
pub(crate) fn to_lowercase(s: &str) -> (r: String)
    ensures
        r@ == lowercase(s@),
        s@.len() == 0 ==> r@.len() == 0,
{
    s.to_lowercase()
}

pub open spec fn newline() -> spec_fn(char) -> bool {
    |c: char| c == '\n'
}

/// The lines of `s`: the pieces between its `\n` characters.  Every use
/// trims the line, so this agrees with `str::lines`, which also drops a
/// `\r` before the `\n` and a last, empty piece.
pub open spec fn lines(s: Seq<char>) -> Seq<Seq<char>> {
    split_by(s, newline())
}

pub proof fn lemma_prefix_len_facts(s: Seq<char>, p: spec_fn(char) -> bool)
    ensures
        prefix_len(s, p) <= s.len(),
        forall|j: int| 0 <= j < prefix_len(s, p) ==> p(#[trigger] s[j]),
        prefix_len(s, p) < s.len() ==> !p(s[prefix_len(s, p) as int]),
    decreases s.len(),
{
    if s.len() > 0 && p(s[0]) {
        lemma_prefix_len_facts(s.drop_first(), p);
        assert forall|j: int| 0 <= j < prefix_len(s, p) implies p(#[trigger] s[j]) by {
            if j > 0 {
                assert(s[j] == s.drop_first()[j - 1]);
            }
        }
    }
}

pub proof fn lemma_suffix_len_facts(s: Seq<char>, p: spec_fn(char) -> bool)
    ensures
        suffix_len(s, p) <= s.len(),
        forall|j: int| s.len() - suffix_len(s, p) <= j < s.len() ==> p(#[trigger] s[j]),
        suffix_len(s, p) < s.len() ==> !p(s[s.len() - suffix_len(s, p) - 1]),
    decreases s.len(),
{
    if s.len() > 0 && p(s.last()) {
        lemma_suffix_len_facts(s.drop_last(), p);
        assert forall|j: int| s.len() - suffix_len(s, p) <= j < s.len() implies p(
            #[trigger] s[j],
        ) by {
            if j < s.len() - 1 {
                assert(s[j] == s.drop_last()[j]);
            }
        }
    }
}

/// `trim(s)` is `s[a..b]`: white space before `a` and from `b` on, and the
/// kept text, when there is any, starts and ends with other characters.
pub proof fn lemma_trim_shape(s: Seq<char>) -> (r: (int, int))
    ensures
        0 <= r.0 <= r.1 <= s.len(),
        forall|j: int| 0 <= j < r.0 ==> is_space(#[trigger] s[j]),
        forall|j: int| r.1 <= j < s.len() ==> is_space(#[trigger] s[j]),
        r.0 < r.1 ==> !is_space(s[r.0]) && !is_space(s[r.1 - 1]),
        trim(s) == s.subrange(r.0, r.1),
{
    lemma_prefix_len_facts(s, space());
    let a = prefix_len(s, space()) as int;
    let t = s.skip(a);
    lemma_suffix_len_facts(t, space());
    let b = s.len() - suffix_len(t, space());
    assert(forall|j: int| 0 <= j < t.len() ==> t[j] == s[a + j]);
    assert forall|j: int| b <= j < s.len() implies is_space(#[trigger] s[j]) by {
        assert(s[j] == t[j - a]);
    }
    if a < b {
        assert(s[b - 1] == t[b - 1 - a]);
    }
    assert(trim(s) =~= s.subrange(a, b));
    (a, b)
}

/// Conversely, white space around a text that starts and ends with other
/// characters is exactly what `trim` removes.
#[verifier::spinoff_prover]
#[verifier::rlimit(40)]
pub proof fn lemma_trim_exact(s: Seq<char>, a: int, b: int)
    requires
        0 <= a <= b <= s.len(),
        forall|j: int| 0 <= j < a ==> is_space(#[trigger] s[j]),
        forall|j: int| b <= j < s.len() ==> is_space(#[trigger] s[j]),
        a < b ==> !is_space(s[a]) && !is_space(s[b - 1]),
    ensures
        trim(s) == s.subrange(a, b),
{
    if a < b {
        lemma_prefix_len(s, space(), a);
        let t = s.skip(a);
        assert(forall|j: int| 0 <= j < t.len() ==> t[j] == s[a + j]);
        lemma_suffix_len(t, space(), b - a);
        assert(trim(s) =~= s.subrange(a, b));
    } else {
        lemma_prefix_len(s, space(), s.len() as int);
        assert(trim(s) =~= s.subrange(a, b));
    }
}

pub proof fn lemma_split_no_sep(s: Seq<char>, p: spec_fn(char) -> bool)
    requires
        forall|j: int| 0 <= j < s.len() ==> !p(#[trigger] s[j]),
    ensures
        split_by(s, p) == seq![s],
    decreases s.len(),
{
    if s.len() > 0 {
        lemma_split_no_sep(s.drop_last(), p);
        assert(s.drop_last().push(s.last()) =~= s);
        assert(seq![s.drop_last()].update(0, s) =~= seq![s]);
    } else {
        assert(s =~= Seq::<char>::empty());
    }
}

pub proof fn lemma_split_push_sep(s: Seq<char>, p: spec_fn(char) -> bool, c: char)
    requires
        p(c),
    ensures
        split_by(s.push(c), p) == split_by(s, p).push(Seq::empty()),
{
    assert(s.push(c).drop_last() =~= s);
}

/// Whether `hay` ends with `needle`.
pub fn ends_with_chars(hay: &Vec<char>, needle: &Vec<char>) -> (r: bool)
    ensures
        r == ends_with(hay@, needle@),
{
    if needle.len() > hay.len() {
        return false;
    }
    let r = range_eq(hay, hay.len() - needle.len(), hay.len(), needle);
    assert(hay@.skip(hay.len() - needle.len()) =~= hay@.subrange(
        hay.len() - needle.len(),
        hay.len() as int,
    ));
    r
}

/// Where `find_char` stopped tells how `split_once` splits the text.
pub proof fn lemma_split_once_at(s: Seq<char>, lo: int, eq: int, hi: int, sep: char)
    requires
        0 <= lo <= eq <= hi <= s.len(),
        eq - lo == prefix_len(s.subrange(lo, hi), other_than(sep)),
        eq < hi ==> s[eq] == sep,
    ensures
        eq == hi ==> split_once(s.subrange(lo, hi), sep) is None,
        eq < hi ==> split_once(s.subrange(lo, hi), sep) == Some(
            (s.subrange(lo, eq), s.subrange(eq + 1, hi)),
        ),
{
    let t = s.subrange(lo, hi);
    if eq < hi {
        assert(t.take(eq - lo) =~= s.subrange(lo, eq));
        assert(t.skip(eq - lo + 1) =~= s.subrange(eq + 1, hi));
    }
}

/// Whether the texts `a` and `b` are equal.
pub fn str_eq(a: &str, b: &str) -> (r: bool)
    ensures
        r == (a@ == b@),
{
    let x = chars_of(a);
    let y = chars_of(b);
    assert(x@.subrange(0, x@.len() as int) =~= x@);
    range_eq(&x, 0, x.len(), &y)
}

/// The text of a `String`.
pub open spec fn string_text() -> spec_fn(String) -> Seq<char> {
    |s: String| s@
}

/// Calls `String::push`; the contract claims that `c` is appended to the
/// text and nothing else changes.
#[verifier::external_body]
pub(crate) fn push_char(s: &mut String, c: char)
    ensures
        final(s)@ == old(s)@.push(c),
{
    s.push(c)
}

/// Calls `String::pop`; the contract claims that it removes and returns the
/// last character, and returns `None` and changes nothing on empty text.
#[verifier::external_body]
pub(crate) fn pop_char(s: &mut String) -> (r: Option<char>)
    ensures
        old(s)@.len() == 0 ==> r is None && final(s)@ == old(s)@,
        old(s)@.len() > 0 ==> r == Some(old(s)@.last()) && final(s)@ == old(s)@.drop_last(),
{
    s.pop()
}

/// Appends the characters of `t` to `s`.
pub fn append_str(s: &mut String, t: &str)
    ensures
        final(s)@ == old(s)@ + t@,
{
    let chars = chars_of(t);
    let ghost start = s@;
    let mut i: usize = 0;
    while i < chars.len()
        invariant
            i <= chars.len(),
            chars@ == t@,
            s@ == start + chars@.take(i as int),
        decreases chars.len() - i,
    {
        push_char(s, chars[i]);
        assert(chars@.take(i + 1) =~= chars@.take(i as int).push(chars@[i as int]));
        i += 1;
    }
    assert(chars@.take(chars.len() as int) =~= chars@);
}

/// A `String` holding `v[lo..hi]`.
pub fn string_of_range(v: &Vec<char>, lo: usize, hi: usize) -> (s: String)
    requires
        lo <= hi <= v.len(),
    ensures
        s@ == v@.subrange(lo as int, hi as int),
{
    let mut s = String::new();
    let mut i = lo;
    while i < hi
        invariant
            lo <= i <= hi <= v.len(),
            s@ == v@.subrange(lo as int, i as int),
        decreases hi - i,
    {
        push_char(&mut s, v[i]);
        i += 1;
    }
    s
}

/// A `String` holding the characters of `v`.
pub fn string_of_chars(v: &Vec<char>) -> (s: String)
    ensures
        s@ == v@,
{
    string_of_range(v, 0, v.len())
}

} // verus!
