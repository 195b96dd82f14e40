//! Character-level helpers shared by the parsing and rendering modules.
//!
//! All internal string processing works on `Vec<char>`, whose view is the
//! same `Seq<char>` as the view of `str`, so contracts about strings and
//! contracts about character buffers compose directly.

use vstd::prelude::*;
use vstd::string::StrSliceExecFns;

verus! {

/// Relies on String::push: appends the given character to the end of the string.
pub assume_specification[ String::push ](s: &mut String, c: char)
    ensures
        final(s)@ == old(s)@.push(c),
;

/// The whitespace characters recognized when trimming lines.
pub open spec fn is_ws(c: char) -> bool {
    c == ' ' || c == '\t' || c == '\r' || c == '\n' || c == '\u{b}' || c == '\u{c}'
}

/// Executable mirror of `is_ws`.
pub fn ws_char(c: char) -> (r: bool)
    ensures
        r == is_ws(c),
{
    c == ' ' || c == '\t' || c == '\r' || c == '\n' || c == '\u{b}' || c == '\u{c}'
}

/// The characters of `s`, in order.
pub fn chars_of(s: &str) -> (v: Vec<char>)
    ensures
        v@ == s@,
{
    let n = s.unicode_len();
    let mut v: Vec<char> = Vec::new();
    let mut i: usize = 0;
    while i < n
        invariant
            n == s@.len(),
            i <= n,
            v@ == s@.subrange(0, i as int),
        decreases n - i,
    {
        v.push(s.get_char(i));
        i = i + 1;
        proof {
            assert(v@ =~= s@.subrange(0, i as int));
        }
    }
    proof {
        assert(v@ =~= s@);
    }
    v
}

/// True when `p` occurs in `s` starting at index `i`.
pub open spec fn starts_with_at(s: Seq<char>, p: Seq<char>, i: int) -> bool {
    0 <= i && i + p.len() <= s.len() && s.subrange(i, i + p.len()) == p
}

/// True when `s` begins with `p`.
pub open spec fn starts_with(s: Seq<char>, p: Seq<char>) -> bool {
    starts_with_at(s, p, 0)
}

/// Whether `v` contains `p` starting at position `from`.
pub fn slice_starts_with(v: &[char], from: usize, p: &[char]) -> (r: bool)
    requires
        from <= v@.len(),
    ensures
        r == starts_with_at(v@, p@, from as int),
{
    let n = v.len();
    if n - from < p.len() {
        return false;
    }
    let mut i: usize = 0;
    while i < p.len()
        invariant
            n == v@.len(),
            from + p@.len() <= n,
            i <= p@.len(),
            forall|j: int| 0 <= j < i ==> v@[from + j] == p@[j],
        decreases p@.len() - i,
    {
        if v[from + i] != p[i] {
            proof {
                assert(v@.subrange(from as int, from + p@.len())[i as int] != p@[i as int]);
            }
            return false;
        }
        i = i + 1;
    }
    proof {
        assert(v@.subrange(from as int, from + p@.len()) =~= p@);
    }
    true
}

/// Whether the character slices hold the same characters.
pub fn slice_eq(a: &[char], b: &[char]) -> (r: bool)
    ensures
        r == (a@ == b@),
{
    if a.len() != b.len() {
        proof {
            assert(a@ != b@);
        }
        return false;
    }
    let r = slice_starts_with(a, 0, b);
    proof {
        assert(a@.subrange(0, b@.len() as int) =~= a@);
    }
    r
}

/// The position of the first occurrence of `c` in `s`, or `s.len()` if absent.
pub open spec fn spec_find(s: Seq<char>, c: char) -> int
    decreases s.len(),
{
    if s.len() == 0 {
        0
    } else if s[0] == c {
        0
    } else {
        1 + spec_find(s.drop_first(), c)
    }
}

/// What `spec_find` returns: the first index holding `c`, or the length.
pub proof fn lemma_spec_find(s: Seq<char>, c: char)
    ensures
        0 <= spec_find(s, c) <= s.len(),
        spec_find(s, c) < s.len() ==> s[spec_find(s, c)] == c,
        forall|j: int| 0 <= j < spec_find(s, c) ==> s[j] != c,
    decreases s.len(),
{
    if s.len() > 0 && s[0] != c {
        lemma_spec_find(s.drop_first(), c);
        assert(forall|j: int| 0 <= j < spec_find(s.drop_first(), c) ==> s.drop_first()[j] != c);
        assert forall|j: int| 0 <= j < spec_find(s, c) implies s[j] != c by {
            if j > 0 {
                assert(s.drop_first()[j - 1] != c);
            }
        }
    }
}

/// The first occurrence of `c` in `v` at or after `from`, if any.
pub fn find_char(v: &[char], from: usize, c: char) -> (r: Option<usize>)
    requires
        from <= v@.len(),
    ensures
        match r {
            Some(i) => from + spec_find(v@.skip(from as int), c) == i && i < v@.len() && v@[i as int]
                == c,
            None => spec_find(v@.skip(from as int), c) == v@.len() - from,
        },
{
    proof {
        lemma_spec_find(v@.skip(from as int), c);
    }
    let mut i: usize = from;
    while i < v.len()
        invariant
            from <= i <= v@.len(),
            forall|j: int| from <= j < i ==> v@[j] != c,
            0 <= spec_find(v@.skip(from as int), c) <= v@.len() - from,
            spec_find(v@.skip(from as int), c) < v@.len() - from ==> v@.skip(from as int)[spec_find(
                v@.skip(from as int),
                c,
            )] == c,
            forall|j: int|
                0 <= j < spec_find(v@.skip(from as int), c) ==> v@.skip(from as int)[j] != c,
        decreases v@.len() - i,
    {
        if v[i] == c {
            proof {
                let f = spec_find(v@.skip(from as int), c);
                if f < i - from {
                    assert(v@[from + f] != c);
                    assert(v@.skip(from as int)[f] == v@[from + f]);
                    assert(false);
                }
                if f > i - from {
                    assert(v@.skip(from as int)[i - from] != c);
                    assert(v@.skip(from as int)[i - from] == v@[i as int]);
                    assert(false);
                }
            }
            return Some(i);
        }
        proof {
            assert(v@.skip(from as int)[i - from] == v@[i as int]);
        }
        i = i + 1;
    }
    proof {
        let f = spec_find(v@.skip(from as int), c);
        if f < v@.len() - from {
            assert(v@.skip(from as int)[f] == v@[from + f]);
            assert(false);
        }
    }
    None
}

/// The number of leading whitespace characters of `s`.
pub open spec fn ws_prefix_len(s: Seq<char>) -> int
    decreases s.len(),
{
    if s.len() > 0 && is_ws(s[0]) {
        1 + ws_prefix_len(s.drop_first())
    } else {
        0
    }
}

/// The index where the trailing whitespace run of `s` begins.
pub open spec fn ws_suffix_start(s: Seq<char>) -> int
    decreases s.len(),
{
    if s.len() > 0 && is_ws(s[s.len() - 1]) {
        ws_suffix_start(s.drop_last())
    } else {
        s.len() as int
    }
}

/// `s` with leading and trailing whitespace removed.
pub open spec fn spec_trim(s: Seq<char>) -> Seq<char> {
    if ws_prefix_len(s) <= ws_suffix_start(s) {
        s.subrange(ws_prefix_len(s), ws_suffix_start(s))
    } else {
        Seq::empty()
    }
}

/// The characterization of `ws_prefix_len`: everything before it is
/// whitespace and it stops at the first non-whitespace character.
pub proof fn lemma_ws_prefix(s: Seq<char>)
    ensures
        0 <= ws_prefix_len(s) <= s.len(),
        forall|j: int| 0 <= j < ws_prefix_len(s) ==> is_ws(s[j]),
        ws_prefix_len(s) < s.len() ==> !is_ws(s[ws_prefix_len(s)]),
    decreases s.len(),
{
    if s.len() > 0 && is_ws(s[0]) {
        lemma_ws_prefix(s.drop_first());
        assert forall|j: int| 0 <= j < ws_prefix_len(s) implies is_ws(s[j]) by {
            if j > 0 {
                assert(is_ws(s.drop_first()[j - 1]));
            }
        }
        if ws_prefix_len(s) < s.len() {
            assert(s.drop_first()[ws_prefix_len(s) - 1] == s[ws_prefix_len(s)]);
        }
    }
}

/// The characterization of `ws_suffix_start`: everything from it on is
/// whitespace and the character just before it, if any, is not.
pub proof fn lemma_ws_suffix(s: Seq<char>)
    ensures
        0 <= ws_suffix_start(s) <= s.len(),
        forall|j: int| ws_suffix_start(s) <= j < s.len() ==> is_ws(s[j]),
        ws_suffix_start(s) > 0 ==> !is_ws(s[ws_suffix_start(s) - 1]),
    decreases s.len(),
{
    if s.len() > 0 && is_ws(s[s.len() - 1]) {
        lemma_ws_suffix(s.drop_last());
        assert forall|j: int| ws_suffix_start(s) <= j < s.len() implies is_ws(s[j]) by {
            if j < s.len() - 1 {
                assert(s.drop_last()[j] == s[j]);
            }
        }
        if ws_suffix_start(s) > 0 {
            assert(s.drop_last()[ws_suffix_start(s) - 1] == s[ws_suffix_start(s) - 1]);
        }
    }
}

/// `ws_prefix_len` never passes `ws_suffix_start` except on all-whitespace
/// input, where the trimmed text is empty either way.
pub proof fn lemma_trim_bounds(s: Seq<char>)
    ensures
        ws_prefix_len(s) > ws_suffix_start(s) ==> spec_trim(s) =~= Seq::<char>::empty(),
        spec_trim(s).len() > 0 ==> !is_ws(spec_trim(s)[0]) && !is_ws(
            spec_trim(s)[spec_trim(s).len() - 1],
        ),
{
    lemma_ws_prefix(s);
    lemma_ws_suffix(s);
}

/// The bounds of the non-whitespace core of `v`: the pair of
/// `ws_prefix_len` and the larger of it and `ws_suffix_start`.
pub fn trim_bounds(v: &[char]) -> (r: (usize, usize))
    ensures
        r.0 == ws_prefix_len(v@),
        r.1 == if ws_suffix_start(v@) >= ws_prefix_len(v@) {
            ws_suffix_start(v@)
        } else {
            ws_prefix_len(v@)
        },
        r.0 <= r.1 <= v@.len(),
        v@.subrange(r.0 as int, r.1 as int) =~= spec_trim(v@),
{
    proof {
        lemma_ws_prefix(v@);
        lemma_ws_suffix(v@);
    }
    let mut start: usize = 0;
    while start < v.len() && ws_char(v[start])
        invariant
            0 <= start <= v@.len(),
            forall|j: int| 0 <= j < start ==> is_ws(v@[j]),
            start <= ws_prefix_len(v@),
        decreases v@.len() - start,
    {
        start = start + 1;
        proof {
            lemma_ws_prefix(v@);
            if start > ws_prefix_len(v@) {
                assert(!is_ws(v@[ws_prefix_len(v@)]));
                assert(false);
            }
        }
    }
    proof {
        if start < ws_prefix_len(v@) {
            assert(is_ws(v@[start as int]));
            assert(false);
        }
    }
    let mut end: usize = v.len();
    while end > start && ws_char(v[end - 1])
        invariant
            start <= end <= v@.len(),
            start == ws_prefix_len(v@),
            forall|j: int| end <= j < v@.len() ==> is_ws(v@[j]),
            end >= ws_suffix_start(v@) || end == v@.len(),
            end >= ws_suffix_start(v@) || ws_suffix_start(v@) > start,
        decreases end,
    {
        end = end - 1;
        proof {
            lemma_ws_suffix(v@);
            if end < ws_suffix_start(v@) {
                assert(!is_ws(v@[ws_suffix_start(v@) - 1]));
                assert(false);
            }
        }
    }
    proof {
        if end > start {
            // the loop stopped on a non-whitespace character
            if end > ws_suffix_start(v@) {
                assert(is_ws(v@[end - 1]));
                assert(false);
            }
            assert(end == ws_suffix_start(v@));
        } else {
            // everything outside the whitespace prefix is whitespace
            if ws_suffix_start(v@) > start {
                assert(!is_ws(v@[ws_suffix_start(v@) - 1]));
                assert(ws_suffix_start(v@) - 1 >= start);
                assert(is_ws(v@[ws_suffix_start(v@) - 1]));
                assert(false);
            }
        }
        assert(v@.subrange(start as int, end as int) =~= spec_trim(v@));
    }
    (start, end)
}

/// The characters of `v` between `from` and `to`.
pub fn subvec(v: &[char], from: usize, to: usize) -> (r: Vec<char>)
    requires
        from <= to <= v@.len(),
    ensures
        r@ == v@.subrange(from as int, to as int),
{
    let mut r: Vec<char> = Vec::new();
    let mut i: usize = from;
    while i < to
        invariant
            from <= i <= to <= v@.len(),
            r@ == v@.subrange(from as int, i as int),
        decreases to - i,
    {
        r.push(v[i]);
        i = i + 1;
        proof {
            assert(r@ =~= v@.subrange(from as int, i as int));
        }
    }
    r
}

/// `s` with one trailing carriage return removed, as left by splitting a
/// CRLF line ending.
pub open spec fn strip_cr(s: Seq<char>) -> Seq<char> {
    if s.len() > 0 && s[s.len() - 1] == '\r' {
        s.drop_last()
    } else {
        s
    }
}

/// The lines of `s`: pieces separated by `'\n'`, each with a trailing
/// carriage return removed; a final piece without a newline still counts,
/// and a trailing newline adds no empty line.
pub open spec fn spec_lines(s: Seq<char>) -> Seq<Seq<char>>
    decreases s.len(),
{
    if s.len() == 0 {
        Seq::empty()
    } else {
        let f = spec_find(s, '\n');
        if 0 <= f < s.len() {
            seq![strip_cr(s.subrange(0, f))] + spec_lines(
                s.subrange(f + 1, s.len() as int),
            )
        } else {
            seq![strip_cr(s)]
        }
    }
}

/// Splits `v` into its lines.
pub fn split_lines(v: &[char]) -> (r: Vec<Vec<char>>)
    ensures
        r.deep_view() == spec_lines(v@),
{
    let n = v.len();
    let mut r: Vec<Vec<char>> = Vec::new();
    let mut pos: usize = 0;
    proof {
        assert(v@.skip(0) =~= v@);
        assert(r.deep_view() =~= Seq::<Seq<char>>::empty());
        assert(r.deep_view() + spec_lines(v@) =~= spec_lines(v@));
    }
    while pos < n
        invariant
            n == v@.len(),
            pos <= n,
            spec_lines(v@) == r.deep_view() + spec_lines(v@.skip(pos as int)),
        decreases n - pos,
    {
        let ghost prev = r.deep_view();
        let ghost rem = v@.skip(pos as int);
        match find_char(v, pos, '\n') {
            Some(i) => {
                proof {
                    lemma_spec_find(rem, '\n');
                    assert(spec_find(rem, '\n') == i - pos);
                    assert(rem.subrange(0, i - pos) =~= v@.subrange(pos as int, i as int));
                    assert(rem.subrange(i - pos + 1, rem.len() as int) =~= v@.skip(i + 1));
                }
                let end = if i > pos && v[i - 1] == '\r' {
                    i - 1
                } else {
                    i
                };
                let line = subvec(v, pos, end);
                proof {
                    assert(line@ =~= strip_cr(v@.subrange(pos as int, i as int)));
                }
                r.push(line);
                pos = i + 1;
                proof {
                    assert(line.deep_view() =~= line@);
                    assert(r.deep_view() =~~= prev.push(line@));
                    assert(spec_lines(rem) == seq![line@] + spec_lines(v@.skip(pos as int)));
                    assert(prev + spec_lines(rem) =~= r.deep_view() + spec_lines(
                        v@.skip(pos as int),
                    ));
                }
            },
            None => {
                proof {
                    lemma_spec_find(rem, '\n');
                    assert(spec_find(rem, '\n') == rem.len());
                }
                let end = if n > pos && v[n - 1] == '\r' {
                    n - 1
                } else {
                    n
                };
                let line = subvec(v, pos, end);
                proof {
                    assert(rem =~= v@.subrange(pos as int, n as int));
                    assert(line@ =~= strip_cr(rem));
                }
                r.push(line);
                pos = n;
                proof {
                    assert(line.deep_view() =~= line@);
                    assert(r.deep_view() =~~= prev.push(line@));
                    assert(spec_lines(rem) == seq![line@]);
                    assert(v@.skip(pos as int) =~= Seq::<char>::empty());
                    assert(prev + spec_lines(rem) =~= r.deep_view() + spec_lines(
                        v@.skip(pos as int),
                    ));
                }
            },
        }
    }
    proof {
        assert(v@.skip(pos as int) =~= Seq::<char>::empty());
        assert(r.deep_view() =~= r.deep_view() + spec_lines(v@.skip(pos as int)));
    }
    r
}

/// `c` with an ASCII capital letter mapped to its small form.
pub open spec fn lower_char(c: char) -> char {
    if 'A' <= c && c <= 'Z' {
        (((c as u8) + 32) as char)
    } else {
        c
    }
}

/// Executable mirror of `lower_char`.
pub fn to_lower_char(c: char) -> (r: char)
    ensures
        r == lower_char(c),
{
    if 'A' <= c && c <= 'Z' {
        ((c as u8) + 32) as char
    } else {
        c
    }
}

/// Case-insensitive ASCII equality of `p` with the piece of `s` at `i`.
pub open spec fn starts_with_ci_at(s: Seq<char>, p: Seq<char>, i: int) -> bool {
    0 <= i && i + p.len() <= s.len() && (forall|j: int|
        0 <= j < p.len() ==> lower_char(s[i + j]) == lower_char(p[j]))
}

/// Whether `v` contains `p` at position `from`, ignoring ASCII case.
pub fn slice_starts_with_ci(v: &[char], from: usize, p: &[char]) -> (r: bool)
    requires
        from <= v@.len(),
    ensures
        r == starts_with_ci_at(v@, p@, from as int),
{
    let n = v.len();
    if n - from < p.len() {
        return false;
    }
    let mut i: usize = 0;
    while i < p.len()
        invariant
            n == v@.len(),
            from + p@.len() <= n,
            i <= p@.len(),
            forall|j: int| 0 <= j < i ==> lower_char(v@[from + j]) == lower_char(p@[j]),
        decreases p@.len() - i,
    {
        if to_lower_char(v[from + i]) != to_lower_char(p[i]) {
            return false;
        }
        i = i + 1;
    }
    true
}

/// Strict lexicographic order on character sequences, by code point.
pub open spec fn lex_lt(a: Seq<char>, b: Seq<char>) -> bool
    decreases a.len(),
{
    if b.len() == 0 {
        false
    } else if a.len() == 0 {
        true
    } else if a[0] == b[0] {
        lex_lt(a.drop_first(), b.drop_first())
    } else {
        (a[0] as int) < (b[0] as int)
    }
}

/// Whether `x` comes before `y` in code point order.
pub fn char_lt(x: char, y: char) -> (r: bool)
    ensures
        r == ((x as int) < (y as int)),
{
    (x as u32) < (y as u32)
}

/// Two distinct sequences are ordered one way or the other.
pub proof fn lemma_lex_connected(a: Seq<char>, b: Seq<char>)
    ensures
        a != b ==> lex_lt(a, b) || lex_lt(b, a),
    decreases a.len(),
{
    if a.len() > 0 && b.len() > 0 && a[0] == b[0] {
        lemma_lex_connected(a.drop_first(), b.drop_first());
        if a.drop_first() == b.drop_first() {
            assert forall|i: int| 0 <= i < a.len() implies a[i] == b[i] by {
                if i > 0 {
                    assert(a.drop_first()[i - 1] == b.drop_first()[i - 1]);
                }
            }
            assert(a =~= b);
        }
    } else if a.len() > 0 && b.len() > 0 {
        if (a[0] as int) == (b[0] as int) {
            assert(a[0] as char == b[0] as char);
            assert(false);
        }
    } else if a.len() == 0 && b.len() == 0 {
        assert(a =~= Seq::<char>::empty());
        assert(b =~= Seq::<char>::empty());
    }
}

/// Nothing is below itself.
pub proof fn lemma_lex_irrefl(a: Seq<char>)
    ensures
        !lex_lt(a, a),
    decreases a.len(),
{
    if a.len() > 0 {
        lemma_lex_irrefl(a.drop_first());
    }
}

/// The order composes.
pub proof fn lemma_lex_trans(a: Seq<char>, b: Seq<char>, c: Seq<char>)
    requires
        lex_lt(a, b),
        lex_lt(b, c),
    ensures
        lex_lt(a, c),
    decreases a.len(),
{
    if c.len() == 0 {
        assert(false);
    } else if b.len() == 0 {
        assert(false);
    } else if a.len() == 0 {
    } else {
        if a[0] == b[0] && b[0] == c[0] {
            lemma_lex_trans(a.drop_first(), b.drop_first(), c.drop_first());
        }
    }
}

/// If `a` and `b` agree before `i`, the order is decided from `i` on.
pub proof fn lemma_lex_skip(a: Seq<char>, b: Seq<char>, i: int)
    requires
        0 <= i <= a.len(),
        0 <= i <= b.len(),
        forall|j: int| 0 <= j < i ==> a[j] == b[j],
    ensures
        lex_lt(a, b) == lex_lt(a.skip(i), b.skip(i)),
    decreases i,
{
    if i > 0 {
        if a.len() > 0 && b.len() > 0 {
            assert(a[0] == b[0]);
            lemma_lex_skip(a.drop_first(), b.drop_first(), i - 1);
            assert(a.drop_first().skip(i - 1) =~= a.skip(i));
            assert(b.drop_first().skip(i - 1) =~= b.skip(i));
        }
    } else {
        assert(a.skip(0) =~= a);
        assert(b.skip(0) =~= b);
    }
}

/// Whether `a` comes strictly before `b` in lexicographic order.
pub fn lex_less(a: &[char], b: &[char]) -> (r: bool)
    ensures
        r == lex_lt(a@, b@),
{
    let an = a.len();
    let bn = b.len();
    let mut i: usize = 0;
    while i < an && i < bn
        invariant
            an == a@.len(),
            bn == b@.len(),
            i <= an,
            i <= bn,
            forall|j: int| 0 <= j < i ==> a@[j] == b@[j],
        decreases an - i,
    {
        if a[i] != b[i] {
            proof {
                lemma_lex_skip(a@, b@, i as int);
            }
            return char_lt(a[i], b[i]);
        }
        i = i + 1;
    }
    proof {
        lemma_lex_skip(a@, b@, i as int);
    }
    if i < bn {
        proof {
            assert(a@.skip(i as int).len() == 0);
            assert(b@.skip(i as int).len() > 0);
        }
        true
    } else {
        proof {
            assert(b@.skip(i as int).len() == 0);
        }
        false
    }
}

/// True when `s` holds no escape character, so no ANSI sequence starts in
/// it.
pub open spec fn no_esc(s: Seq<char>) -> bool {
    forall|i: int| 0 <= i < s.len() ==> s[i] != '\u{1b}'
}

/// `s` with every ANSI escape sequence removed: from each escape
/// character everything up to and including the next `m` is dropped, or
/// the whole rest when no `m` follows.
pub open spec fn strip_ansi(s: Seq<char>) -> Seq<char>
    decreases s.len(),
{
    if s.len() == 0 {
        Seq::empty()
    } else if s[0] == '\u{1b}' {
        let m = spec_find(s, 'm');
        if 0 <= m < s.len() {
            strip_ansi(s.skip(m + 1))
        } else {
            Seq::empty()
        }
    } else {
        seq![s[0]] + strip_ansi(s.drop_first())
    }
}

/// Text without escape characters is unchanged by ANSI stripping.
pub proof fn lemma_strip_ansi_plain(s: Seq<char>)
    requires
        no_esc(s),
    ensures
        strip_ansi(s) =~= s,
    decreases s.len(),
{
    if s.len() > 0 {
        assert(s[0] != '\u{1b}');
        assert forall|i: int| 0 <= i < s.drop_first().len() implies s.drop_first()[i]
            != '\u{1b}' by {
            assert(s[i + 1] != '\u{1b}');
        }
        lemma_strip_ansi_plain(s.drop_first());
        assert(strip_ansi(s) =~= seq![s[0]] + s.drop_first());
    }
}

/// Whether two string slices hold the same characters.
pub fn str_eq(a: &str, b: &str) -> (r: bool)
    ensures
        r == (a@ == b@),
{
    let va = chars_of(a);
    let vb = chars_of(b);
    slice_eq(va.as_slice(), vb.as_slice())
}

/// A `String` holding exactly the characters of `v`.
pub fn string_of(v: &[char]) -> (s: String)
    ensures
        s@ == v@,
{
    let mut s = String::new();
    let mut i: usize = 0;
    while i < v.len()
        invariant
            i <= v@.len(),
            s@ == v@.subrange(0, i as int),
        decreases v@.len() - i,
    {
        s.push(v[i]);
        i = i + 1;
        proof {
            assert(s@ =~= v@.subrange(0, i as int));
        }
    }
    proof {
        assert(s@ =~= v@);
    }
    s
}

/// The position of the first whitespace character of `s`, or `s.len()`.
pub open spec fn spec_find_ws(s: Seq<char>) -> int
    decreases s.len(),
{
    if s.len() == 0 {
        0
    } else if is_ws(s[0]) {
        0
    } else {
        1 + spec_find_ws(s.drop_first())
    }
}

/// What `spec_find_ws` returns: the first whitespace index, or the length.
pub proof fn lemma_spec_find_ws(s: Seq<char>)
    ensures
        0 <= spec_find_ws(s) <= s.len(),
        spec_find_ws(s) < s.len() ==> is_ws(s[spec_find_ws(s)]),
        forall|j: int| 0 <= j < spec_find_ws(s) ==> !is_ws(s[j]),
    decreases s.len(),
{
    if s.len() > 0 && !is_ws(s[0]) {
        lemma_spec_find_ws(s.drop_first());
        assert forall|j: int| 0 <= j < spec_find_ws(s) implies !is_ws(s[j]) by {
            if j > 0 {
                assert(!is_ws(s.drop_first()[j - 1]));
            }
        }
    }
}

/// The maximal non-whitespace words of `s`, in order.
pub open spec fn spec_split_ws(s: Seq<char>) -> Seq<Seq<char>>
    decreases s.len(),
{
    if s.len() == 0 {
        Seq::empty()
    } else if is_ws(s[0]) {
        spec_split_ws(s.drop_first())
    } else {
        let e = spec_find_ws(s);
        if 0 < e <= s.len() {
            seq![s.subrange(0, e)] + spec_split_ws(s.subrange(e, s.len() as int))
        } else {
            seq![s]
        }
    }
}

/// Splits `v` into whitespace-separated words.
pub fn split_ws(v: &[char]) -> (r: Vec<Vec<char>>)
    ensures
        r.deep_view() == spec_split_ws(v@),
{
    let n = v.len();
    let mut r: Vec<Vec<char>> = Vec::new();
    let mut pos: usize = 0;
    proof {
        assert(v@.skip(0) =~= v@);
        assert(r.deep_view() =~= Seq::<Seq<char>>::empty());
        assert(r.deep_view() + spec_split_ws(v@) =~= spec_split_ws(v@));
    }
    while pos < n
        invariant
            n == v@.len(),
            pos <= n,
            spec_split_ws(v@) == r.deep_view() + spec_split_ws(v@.skip(pos as int)),
        decreases n - pos,
    {
        let ghost rem = v@.skip(pos as int);
        let ghost prev = r.deep_view();
        if ws_char(v[pos]) {
            proof {
                assert(rem[0] == v@[pos as int]);
                assert(rem.drop_first() =~= v@.skip(pos + 1));
                assert(spec_split_ws(rem) == spec_split_ws(v@.skip(pos + 1)));
            }
            pos = pos + 1;
        } else {
            let mut e: usize = pos;
            while e < n && !ws_char(v[e])
                invariant
                    n == v@.len(),
                    pos <= e <= n,
                    forall|j: int| pos <= j < e ==> !is_ws(v@[j]),
                decreases n - e,
            {
                e = e + 1;
            }
            proof {
                assert(rem[0] == v@[pos as int]);
                lemma_spec_find_ws(rem);
                let f = spec_find_ws(rem);
                if f < e - pos {
                    assert(is_ws(rem[f]));
                    assert(rem[f] == v@[pos + f]);
                    assert(false);
                }
                if f > e - pos {
                    assert(e < n);
                    assert(!is_ws(rem[e - pos]));
                    assert(rem[e - pos] == v@[e as int]);
                    assert(false);
                }
                assert(f == e - pos);
                assert(f > 0);
                assert(rem.subrange(0, f) =~= v@.subrange(pos as int, e as int));
                assert(rem.subrange(f, rem.len() as int) =~= v@.skip(e as int));
                assert(spec_split_ws(rem) == seq![rem.subrange(0, f)] + spec_split_ws(
                    v@.skip(e as int),
                ));
            }
            let word = subvec(v, pos, e);
            r.push(word);
            pos = e;
            proof {
                assert(word.deep_view() =~= word@);
                assert(r.deep_view() =~~= prev.push(word@));
                assert(prev + spec_split_ws(rem) =~= r.deep_view() + spec_split_ws(
                    v@.skip(pos as int),
                ));
            }
        }
    }
    proof {
        assert(v@.skip(n as int) =~= Seq::<char>::empty());
        assert(r.deep_view() =~= r.deep_view() + spec_split_ws(v@.skip(n as int)));
    }
    r
}

/// How many copies of `c` begin `s`.
pub open spec fn char_prefix_len(s: Seq<char>, c: char) -> int
    decreases s.len(),
{
    if s.len() > 0 && s[0] == c {
        1 + char_prefix_len(s.drop_first(), c)
    } else {
        0
    }
}

/// Where the trailing run of `c` in `s` begins.
pub open spec fn char_suffix_start(s: Seq<char>, c: char) -> int
    decreases s.len(),
{
    if s.len() > 0 && s[s.len() - 1] == c {
        char_suffix_start(s.drop_last(), c)
    } else {
        s.len() as int
    }
}

/// `s` with every leading and trailing `c` removed.
pub open spec fn spec_trim_char(s: Seq<char>, c: char) -> Seq<char> {
    if char_prefix_len(s, c) <= char_suffix_start(s, c) {
        s.subrange(char_prefix_len(s, c), char_suffix_start(s, c))
    } else {
        Seq::empty()
    }
}

/// The characterization of `char_prefix_len`.
pub proof fn lemma_char_prefix(s: Seq<char>, c: char)
    ensures
        0 <= char_prefix_len(s, c) <= s.len(),
        forall|j: int| 0 <= j < char_prefix_len(s, c) ==> s[j] == c,
        char_prefix_len(s, c) < s.len() ==> s[char_prefix_len(s, c)] != c,
    decreases s.len(),
{
    if s.len() > 0 && s[0] == c {
        lemma_char_prefix(s.drop_first(), c);
        assert forall|j: int| 0 <= j < char_prefix_len(s, c) implies s[j] == c by {
            if j > 0 {
                assert(s.drop_first()[j - 1] == c);
            }
        }
        if char_prefix_len(s, c) < s.len() {
            assert(s.drop_first()[char_prefix_len(s, c) - 1] == s[char_prefix_len(s, c)]);
        }
    }
}

/// The characterization of `char_suffix_start`.
pub proof fn lemma_char_suffix(s: Seq<char>, c: char)
    ensures
        0 <= char_suffix_start(s, c) <= s.len(),
        forall|j: int| char_suffix_start(s, c) <= j < s.len() ==> s[j] == c,
        char_suffix_start(s, c) > 0 ==> s[char_suffix_start(s, c) - 1] != c,
    decreases s.len(),
{
    if s.len() > 0 && s[s.len() - 1] == c {
        lemma_char_suffix(s.drop_last(), c);
        assert forall|j: int| char_suffix_start(s, c) <= j < s.len() implies s[j] == c by {
            if j < s.len() - 1 {
                assert(s.drop_last()[j] == s[j]);
            }
        }
        if char_suffix_start(s, c) > 0 {
            assert(s.drop_last()[char_suffix_start(s, c) - 1] == s[char_suffix_start(s, c) - 1]);
        }
    }
}

/// The characters of `v` with surrounding runs of `c` removed.
pub fn trim_char_vec(v: &[char], c: char) -> (r: Vec<char>)
    ensures
        r@ == spec_trim_char(v@, c),
{
    proof {
        lemma_char_prefix(v@, c);
        lemma_char_suffix(v@, c);
    }
    let n = v.len();
    let mut start: usize = 0;
    while start < n && v[start] == c
        invariant
            n == v@.len(),
            0 <= start <= n,
            forall|j: int| 0 <= j < start ==> v@[j] == c,
            start <= char_prefix_len(v@, c),
        decreases n - start,
    {
        start = start + 1;
        proof {
            lemma_char_prefix(v@, c);
            if start > char_prefix_len(v@, c) {
                assert(v@[char_prefix_len(v@, c)] != c);
                assert(false);
            }
        }
    }
    proof {
        if start < char_prefix_len(v@, c) {
            assert(v@[start as int] == c);
            assert(false);
        }
    }
    let mut end: usize = n;
    while end > start && v[end - 1] == c
        invariant
            start <= end <= n,
            n == v@.len(),
            start == char_prefix_len(v@, c),
            forall|j: int| end <= j < n ==> v@[j] == c,
            end >= char_suffix_start(v@, c) || end == n,
            end >= char_suffix_start(v@, c) || char_suffix_start(v@, c) > start,
        decreases end,
    {
        end = end - 1;
        proof {
            lemma_char_suffix(v@, c);
            if end < char_suffix_start(v@, c) {
                assert(v@[char_suffix_start(v@, c) - 1] != c);
                assert(false);
            }
        }
    }
    proof {
        if end > start {
            if end > char_suffix_start(v@, c) {
                assert(v@[end - 1] == c);
                assert(false);
            }
            assert(end == char_suffix_start(v@, c));
        } else {
            if char_suffix_start(v@, c) > start {
                assert(v@[char_suffix_start(v@, c) - 1] != c);
                assert(char_suffix_start(v@, c) - 1 >= start);
                assert(v@[char_suffix_start(v@, c) - 1] == c);
                assert(false);
            }
        }
        assert(v@.subrange(start as int, end as int) =~= spec_trim_char(v@, c));
    }
    subvec(v, start, end)
}

/// The pieces of `s` separated by `c`: always one more piece than
/// separators, empty pieces included.
pub open spec fn spec_split_char(s: Seq<char>, c: char) -> Seq<Seq<char>>
    decreases s.len(),
{
    let f = spec_find(s, c);
    if 0 <= f < s.len() {
        seq![s.subrange(0, f)] + spec_split_char(s.subrange(f + 1, s.len() as int), c)
    } else {
        seq![s]
    }
}

/// Splits `v` at every occurrence of `c`.
pub fn split_char(v: &[char], c: char) -> (r: Vec<Vec<char>>)
    ensures
        r.deep_view() == spec_split_char(v@, c),
        r@.len() >= 1,
{
    let n = v.len();
    let mut r: Vec<Vec<char>> = Vec::new();
    let mut pos: usize = 0;
    let mut done = false;
    proof {
        assert(v@.skip(0) =~= v@);
        assert(r.deep_view() =~= Seq::<Seq<char>>::empty());
        assert(r.deep_view() + spec_split_char(v@, c) =~= spec_split_char(v@, c));
    }
    while !done
        invariant
            n == v@.len(),
            pos <= n,
            !done ==> spec_split_char(v@, c) == r.deep_view() + spec_split_char(
                v@.skip(pos as int),
                c,
            ),
            done ==> r.deep_view() == spec_split_char(v@, c),
            done ==> r@.len() >= 1,
        decreases n - pos, (if done { 0int } else { 1int }),
    {
        let ghost rem = v@.skip(pos as int);
        let ghost prev = r.deep_view();
        match find_char(v, pos, c) {
            Some(i) => {
                proof {
                    lemma_spec_find(rem, c);
                    assert(spec_find(rem, c) == i - pos);
                    assert(rem.subrange(0, i - pos) =~= v@.subrange(pos as int, i as int));
                    assert(rem.subrange(i - pos + 1, rem.len() as int) =~= v@.skip(i + 1));
                }
                let piece = subvec(v, pos, i);
                r.push(piece);
                pos = i + 1;
                proof {
                    assert(piece.deep_view() =~= piece@);
                    assert(r.deep_view() =~~= prev.push(piece@));
                    assert(spec_split_char(rem, c) == seq![piece@] + spec_split_char(
                        v@.skip(pos as int),
                        c,
                    ));
                    assert(prev + spec_split_char(rem, c) =~= r.deep_view() + spec_split_char(
                        v@.skip(pos as int),
                        c,
                    ));
                }
            },
            None => {
                proof {
                    lemma_spec_find(rem, c);
                    assert(spec_find(rem, c) == rem.len());
                }
                let piece = subvec(v, pos, n);
                r.push(piece);
                done = true;
                proof {
                    assert(piece@ =~= rem);
                    assert(piece.deep_view() =~= piece@);
                    assert(r.deep_view() =~~= prev.push(rem));
                    assert(spec_split_char(rem, c) == seq![rem]);
                    assert(r.deep_view() =~= prev + spec_split_char(rem, c));
                }
            },
        }
    }
    r
}

/// The position of the last occurrence of `c` in `s`, or -1 if absent.
pub open spec fn spec_rfind(s: Seq<char>, c: char) -> int
    decreases s.len(),
{
    if s.len() == 0 {
        -1
    } else if s[s.len() - 1] == c {
        s.len() - 1
    } else {
        spec_rfind(s.drop_last(), c)
    }
}

/// What `spec_rfind` returns: the last index holding `c`, or -1.
pub proof fn lemma_spec_rfind(s: Seq<char>, c: char)
    ensures
        -1 <= spec_rfind(s, c) < s.len(),
        spec_rfind(s, c) >= 0 ==> s[spec_rfind(s, c)] == c,
        forall|j: int| spec_rfind(s, c) < j < s.len() ==> s[j] != c,
    decreases s.len(),
{
    if s.len() > 0 && s[s.len() - 1] != c {
        lemma_spec_rfind(s.drop_last(), c);
        if spec_rfind(s, c) >= 0 {
            assert(s.drop_last()[spec_rfind(s, c)] == s[spec_rfind(s, c)]);
        }
        assert forall|j: int| spec_rfind(s, c) < j < s.len() implies s[j] != c by {
            if j < s.len() - 1 {
                assert(s.drop_last()[j] != c);
            }
        }
    }
}

/// The last occurrence of `c` in `v`, if any.
pub fn find_last_char(v: &[char], c: char) -> (r: Option<usize>)
    ensures
        match r {
            Some(i) => spec_rfind(v@, c) == i && i < v@.len() && v@[i as int] == c,
            None => spec_rfind(v@, c) == -1,
        },
{
    proof {
        lemma_spec_rfind(v@, c);
    }
    let n = v.len();
    let mut i: usize = n;
    while i > 0
        invariant
            n == v@.len(),
            i <= n,
            forall|j: int| i <= j < n ==> v@[j] != c,
            -1 <= spec_rfind(v@, c) < v@.len(),
            spec_rfind(v@, c) >= 0 ==> v@[spec_rfind(v@, c)] == c,
            forall|j: int| spec_rfind(v@, c) < j < v@.len() ==> v@[j] != c,
        decreases i,
    {
        i = i - 1;
        if v[i] == c {
            proof {
                if spec_rfind(v@, c) < i {
                    assert(v@[i as int] != c);
                    assert(false);
                }
                if spec_rfind(v@, c) > i {
                    assert(v@[spec_rfind(v@, c)] != c);
                    assert(false);
                }
            }
            return Some(i);
        }
    }
    proof {
        if spec_rfind(v@, c) >= 0 {
            assert(v@[spec_rfind(v@, c)] != c);
            assert(false);
        }
    }
    None
}

/// `s` with ASCII capitals mapped to small letters.
pub open spec fn lower_seq(s: Seq<char>) -> Seq<char> {
    Seq::new(s.len(), |i: int| lower_char(s[i]))
}

/// The characters of `v` in ASCII lower case.
pub fn lower_vec(v: &[char]) -> (r: Vec<char>)
    ensures
        r@ == lower_seq(v@),
{
    let n = v.len();
    let mut r: Vec<char> = Vec::new();
    let mut i: usize = 0;
    while i < n
        invariant
            n == v@.len(),
            i <= n,
            r@ =~= lower_seq(v@).subrange(0, i as int),
        decreases n - i,
    {
        r.push(to_lower_char(v[i]));
        i = i + 1;
        proof {
            assert(r@ =~= lower_seq(v@).subrange(0, i as int));
        }
    }
    proof {
        assert(r@ =~= lower_seq(v@));
    }
    r
}

/// True when every character of `s` is ASCII.
pub open spec fn is_ascii_seq(s: Seq<char>) -> bool {
    forall|i: int| 0 <= i < s.len() ==> (s[i] as int) < 128
}

/// Whether every character of `v` is ASCII.
pub fn ascii_only(v: &[char]) -> (r: bool)
    ensures
        r == is_ascii_seq(v@),
{
    let n = v.len();
    let mut i: usize = 0;
    while i < n
        invariant
            n == v@.len(),
            i <= n,
            forall|j: int| 0 <= j < i ==> (v@[j] as int) < 128,
        decreases n - i,
    {
        if !char_lt(v[i], '\u{80}') {
            proof {
                assert(('\u{80}' as int) == 128);
            }
            return false;
        }
        i = i + 1;
    }
    true
}

} // verus!
