use vstd::prelude::*;

use crate::names::{lib_names, MissingLib};

verus! {

/// What ldd prints after a library it cannot find.
pub open spec fn marker() -> Seq<char> {
    seq![' ', '=', '>', ' ', 'n', 'o', 't', ' ', 'f', 'o', 'u', 'n', 'd']
}

/// Unicode white space, as `char::is_whitespace` defines it.
pub open spec fn is_ws(c: char) -> bool {
    c == '\t' || c == '\n' || c == '\u{0B}' || c == '\u{0C}' || c == '\r' || c == ' ' || c
        == '\u{85}' || c == '\u{A0}' || c == '\u{1680}' || ('\u{2000}' <= c && c <= '\u{200A}')
        || c == '\u{2028}' || c == '\u{2029}' || c == '\u{202F}' || c == '\u{205F}' || c
        == '\u{3000}'
}

/// `s` without leading white space.
pub open spec fn trim_start(s: Seq<char>) -> Seq<char>
    decreases s.len(),
{
    if s.len() > 0 && is_ws(s[0]) {
        trim_start(s.drop_first())
    } else {
        s
    }
}

/// `s` without trailing white space.
pub open spec fn trim_end(s: Seq<char>) -> Seq<char>
    decreases s.len(),
{
    if s.len() > 0 && is_ws(s.last()) {
        trim_end(s.drop_last())
    } else {
        s
    }
}

/// The first position at or after `i` where the marker starts in `l`.
pub open spec fn find_marker_from(l: Seq<char>, i: int) -> Option<int>
    decreases l.len() - i,
{
    if i < 0 || i + marker().len() > l.len() {
        None
    } else if l.subrange(i, i + marker().len()) == marker() {
        Some(i)
    } else {
        find_marker_from(l, i + 1)
    }
}

/// The library that an ldd output line reports missing: the text before the
/// marker, without its first character (a tab) and surrounding white space.
pub open spec fn line_missing(l: Seq<char>) -> Option<Seq<char>> {
    match find_marker_from(l, 0) {
        None => None,
        Some(i) => Some(
            trim_end(
                trim_start(
                    if i > 0 {
                        l.subrange(1, i)
                    } else {
                        Seq::empty()
                    },
                ),
            ),
        ),
    }
}

/// The end of the line that starts at `start`: its newline, or the end of `s`.
pub open spec fn line_end(s: Seq<char>, start: int) -> int
    decreases s.len() - start,
{
    if start >= s.len() {
        s.len() as int
    } else if s[start] == '\n' {
        start
    } else {
        line_end(s, start + 1)
    }
}

/// The libraries reported missing in the lines of `s` from `start` on, in order.
pub open spec fn missing_from(s: Seq<char>, start: int) -> Seq<Seq<char>>
    decreases s.len() - start + 1 via missing_from_decreases
{
    if start < 0 || start > s.len() {
        Seq::empty()
    } else {
        let e = line_end(s, start);
        let here = match line_missing(s.subrange(start, e)) {
            Some(n) => seq![n],
            None => Seq::empty(),
        };
        if e < s.len() {
            here + missing_from(s, e + 1)
        } else {
            here
        }
    }
}

/// A line ends at or after its start, and within the text.
pub proof fn lemma_line_end_bounds(s: Seq<char>, start: int)
    requires
        0 <= start <= s.len(),
    ensures
        start <= line_end(s, start) <= s.len(),
    decreases s.len() - start,
{
    if start < s.len() && s[start] != '\n' {
        lemma_line_end_bounds(s, start + 1);
    }
}

#[via_fn]
proof fn missing_from_decreases(s: Seq<char>, start: int) {
    if 0 <= start <= s.len() {
        lemma_line_end_bounds(s, start);
    }
}

fn is_whitespace(c: char) -> (r: bool)
    ensures
        r == is_ws(c),
{
    c == '\t' || c == '\n' || c == '\u{0B}' || c == '\u{0C}' || c == '\r' || c == ' ' || c
        == '\u{85}' || c == '\u{A0}' || c == '\u{1680}' || ('\u{2000}' <= c && c <= '\u{200A}')
        || c == '\u{2028}' || c == '\u{2029}' || c == '\u{202F}' || c == '\u{205F}' || c
        == '\u{3000}'
}

/// The characters of `s`.
fn chars_of(s: &str) -> (r: Vec<char>)
    ensures
        r@ == s@,
{
    let n = s.unicode_len();
    let mut r: Vec<char> = Vec::new();
    let mut i: usize = 0;
    while i < n
        invariant
            i <= n,
            n == s@.len(),
            r@ == s@.take(i as int),
        decreases n - i,
    {
        r.push(s.get_char(i));
        assert(r@ =~= s@.take(i + 1));
        i = i + 1;
    }
    assert(s@.take(n as int) =~= s@);
    r
}

fn find_line_end(cs: &Vec<char>, start: usize) -> (e: usize)
    requires
        start <= cs.len(),
    ensures
        e == line_end(cs@, start as int),
        start <= e <= cs.len(),
{
    let mut e = start;
    while e < cs.len() && cs[e] != '\n'
        invariant
            start <= e <= cs.len(),
            line_end(cs@, start as int) == line_end(cs@, e as int),
        decreases cs.len() - e,
    {
        e = e + 1;
    }
    e
}

fn marker_at(cs: &Vec<char>, m: &Vec<char>, p: usize) -> (r: bool)
    requires
        p + m.len() <= cs.len(),
    ensures
        r == (cs@.subrange(p as int, p + m.len()) == m@),
{
    let mut k: usize = 0;
    while k < m.len()
        invariant
            k <= m.len(),
            p + m.len() <= cs.len(),
            forall|j: int| 0 <= j < k ==> cs@[p + j] == m@[j],
        decreases m.len() - k,
    {
        if cs[p + k] != m[k] {
            assert(cs@.subrange(p as int, p + m.len())[k as int] != m@[k as int]);
            return false;
        }
        k = k + 1;
    }
    assert(cs@.subrange(p as int, p + m.len()) =~= m@);
    true
}

fn find_marker(cs: &Vec<char>, m: &Vec<char>, start: usize, end: usize) -> (r: Option<usize>)
    requires
        start <= end <= cs.len(),
        m@ == marker(),
    ensures
        find_marker_from(cs@.subrange(start as int, end as int), 0) == match r {
            None => None,
            Some(i) => Some(i as int),
        },
        match r {
            None => true,
            Some(i) => start + i + m.len() <= end,
        },
{
    let ghost l = cs@.subrange(start as int, end as int);
    let mut j: usize = 0;
    loop
        invariant
            start <= end <= cs.len(),
            m@ == marker(),
            l == cs@.subrange(start as int, end as int),
            j <= end - start,
            find_marker_from(l, 0) == find_marker_from(l, j as int),
        decreases end - start - j,
    {
        if m.len() > end - start - j {
            return None;
        }
        if marker_at(cs, m, start + j) {
            assert(l.subrange(j as int, j + m.len()) =~= cs@.subrange(
                start + j,
                start + j + m.len(),
            ));
            return Some(j);
        }
        assert(l.subrange(j as int, j + m.len()) =~= cs@.subrange(
            start + j,
            start + j + m.len(),
        ));
        j = j + 1;
    }
}

fn line_library(text: &str, cs: &Vec<char>, m: &Vec<char>, start: usize, end: usize) -> (r:
    Option<MissingLib>)
    requires
        cs@ == text@,
        start <= end <= cs.len(),
        m@ == marker(),
    ensures
        line_missing(cs@.subrange(start as int, end as int)) == match r {
            None => None,
            Some(x) => Some(x.name@),
        },
{
    let ghost l = cs@.subrange(start as int, end as int);
    match find_marker(cs, m, start, end) {
        None => None,
        Some(i) => {
            let b0 = start + i;
            let mut a = if i > 0 {
                start + 1
            } else {
                b0
            };
            let ghost seg = if i > 0 {
                l.subrange(1, i as int)
            } else {
                Seq::<char>::empty()
            };
            assert(seg =~= cs@.subrange(a as int, b0 as int));
            while a < b0 && is_whitespace(cs[a])
                invariant
                    start <= a <= b0,
                    b0 <= end <= cs.len(),
                    trim_start(seg) == trim_start(cs@.subrange(a as int, b0 as int)),
                decreases b0 - a,
            {
                assert(cs@.subrange(a as int, b0 as int).drop_first() =~= cs@.subrange(
                    a + 1,
                    b0 as int,
                ));
                a = a + 1;
            }
            let ghost head = cs@.subrange(a as int, b0 as int);
            assert(trim_start(seg) == head);
            let mut b = b0;
            while b > a && is_whitespace(cs[b - 1])
                invariant
                    a <= b <= b0,
                    b0 <= cs.len(),
                    head == cs@.subrange(a as int, b0 as int),
                    trim_end(head) == trim_end(cs@.subrange(a as int, b as int)),
                decreases b - a,
            {
                assert(cs@.subrange(a as int, b as int).drop_last() =~= cs@.subrange(
                    a as int,
                    b - 1,
                ));
                b = b - 1;
            }
            let name = String::from_str(text.substring_char(a, b));
            Some(MissingLib { name })
        },
    }
}

/// The libraries that an ldd output reports as not found, in the order of its
/// lines: from each line holding ` => not found`, the text before it, without
/// the leading tab and surrounding white space.
pub fn parse_ldd_output(output: &str) -> (r: Vec<MissingLib>)
    ensures
        lib_names(r@) == missing_from(output@, 0),
{
    let cs = chars_of(output);
    let m: Vec<char> = vec![' ', '=', '>', ' ', 'n', 'o', 't', ' ', 'f', 'o', 'u', 'n', 'd'];
    assert(m@ =~= marker());
    let mut r: Vec<MissingLib> = Vec::new();
    let mut start: usize = 0;
    assert(lib_names(r@) + missing_from(cs@, 0) =~= missing_from(cs@, 0));
    loop
        invariant_except_break
            lib_names(r@) + missing_from(cs@, start as int) == missing_from(cs@, 0),
        invariant
            cs@ == output@,
            m@ == marker(),
            start <= cs.len(),
        ensures
            lib_names(r@) == missing_from(cs@, 0),
        decreases cs.len() - start,
    {
        let e = find_line_end(&cs, start);
        let lib = line_library(output, &cs, &m, start, e);
        let ghost before = lib_names(r@);
        let ghost here = match line_missing(cs@.subrange(start as int, e as int)) {
            Some(n) => seq![n],
            None => Seq::<Seq<char>>::empty(),
        };
        match lib {
            Some(x) => {
                r.push(x);
                assert(lib_names(r@) =~= before + here);
            },
            None => {
                assert(lib_names(r@) =~= before + here);
            },
        }
        if e < cs.len() {
            assert(missing_from(cs@, start as int) == here + missing_from(cs@, e + 1));
            assert(before + (here + missing_from(cs@, e + 1)) =~= (before + here) + missing_from(
                cs@,
                e + 1,
            ));
            start = e + 1;
        } else {
            assert(missing_from(cs@, start as int) == here);
            break;
        }
    }
    r
}

} // verus!
