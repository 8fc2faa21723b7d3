use vstd::prelude::*;

use crate::model::{Face, FaceCorner};

verus! {

/// The byte that separates the fields of a face corner.
pub const SLASH: u8 = 47;

pub open spec fn is_digit(b: u8) -> bool {
    48 <= b <= 57
}

/// Whether `s` is a nonempty run of decimal digits.
pub open spec fn is_number(s: Seq<u8>) -> bool {
    s.len() > 0 && forall|i: int| 0 <= i < s.len() ==> is_digit(#[trigger] s[i])
}

/// The value of a run of decimal digits.
pub open spec fn decimal_value(s: Seq<u8>) -> int
    decreases s.len(),
{
    if s.len() == 0 {
        0
    } else {
        decimal_value(s.drop_last()) * 10 + (s.last() - 48)
    }
}

/// The 0-based index named by a 1-based decimal field, or `None` when the
/// field is not a number between 1 and `usize::MAX`.
pub open spec fn field_index(s: Seq<u8>) -> Option<usize> {
    if is_number(s) && 1 <= decimal_value(s) <= usize::MAX {
        Some((decimal_value(s) - 1) as usize)
    } else {
        None
    }
}

/// Position of the first `b` in `s`, or `s.len()` when there is none.
pub open spec fn index_of(s: Seq<u8>, b: u8) -> int
    decreases s.len(),
{
    if s.len() == 0 {
        0
    } else if s[0] == b {
        0
    } else {
        1 + index_of(s.drop_first(), b)
    }
}

/// A face corner written `v/t` or `v/t/n`, each field a 1-based index.
pub open spec fn corner_spec(s: Seq<u8>) -> Option<FaceCorner> {
    let i = index_of(s, SLASH);
    let rest = s.subrange(i + 1, s.len() as int);
    let j = index_of(rest, SLASH);
    if i >= s.len() {
        None
    } else {
        match (field_index(s.subrange(0, i)), field_index(rest.subrange(0, j))) {
            (Some(v), Some(t)) => if j >= rest.len() {
                Some(FaceCorner { vert: v, texcoord: t, normal: None })
            } else {
                match field_index(rest.subrange(j + 1, rest.len() as int)) {
                    Some(n) => Some(FaceCorner { vert: v, texcoord: t, normal: Some(n) }),
                    None => None,
                }
            },
            _ => None,
        }
    }
}

proof fn lemma_index_of(s: Seq<u8>, b: u8, i: int)
    requires
        0 <= i <= s.len(),
        forall|k: int| 0 <= k < i ==> s[k] != b,
        i == s.len() || s[i] == b,
    ensures
        index_of(s, b) == i,
    decreases s.len(),
{
    if s.len() > 0 && i > 0 {
        lemma_index_of(s.drop_first(), b, i - 1);
    }
}

/// Appending digits never lowers the value.
proof fn lemma_decimal_monotone(s: Seq<u8>, k: int)
    requires
        0 <= k <= s.len(),
        forall|i: int| 0 <= i < s.len() ==> is_digit(#[trigger] s[i]),
    ensures
        decimal_value(s.subrange(0, k)) <= decimal_value(s),
    decreases s.len() - k,
{
    if k < s.len() {
        lemma_decimal_monotone(s, k + 1);
        let p = s.subrange(0, k + 1);
        assert(p.drop_last() =~= s.subrange(0, k));
        assert(decimal_value(p) == decimal_value(s.subrange(0, k)) * 10 + (p.last() - 48));
        assert(decimal_value(s.subrange(0, k)) >= 0) by {
            lemma_decimal_nonneg(s.subrange(0, k));
        }
    } else {
        assert(s.subrange(0, k) =~= s);
    }
}

proof fn lemma_decimal_nonneg(s: Seq<u8>)
    requires
        forall|i: int| 0 <= i < s.len() ==> is_digit(#[trigger] s[i]),
    ensures
        decimal_value(s) >= 0,
    decreases s.len(),
{
    if s.len() > 0 {
        lemma_decimal_nonneg(s.drop_last());
    }
}

/// First position at or after `from` and before `to` that holds `b`, or `to`.
fn find_byte(s: &[u8], b: u8, from: usize, to: usize) -> (r: usize)
    requires
        from <= to <= s@.len(),
    ensures
        r == from + index_of(s@.subrange(from as int, to as int), b),
        from <= r <= to,
{
    let mut i = from;
    while i < to && s[i] != b
        invariant
            from <= i <= to,
            to <= s@.len(),
            forall|k: int| from <= k < i ==> s@[k] != b,
        decreases to - i,
    {
        i = i + 1;
    }
    proof {
        lemma_index_of(s@.subrange(from as int, to as int), b, i - from);
    }
    i
}

/// Computes `field_index` of `s[from..to]`.
fn parse_index(s: &[u8], from: usize, to: usize) -> (r: Option<usize>)
    requires
        from <= to <= s@.len(),
    ensures
        r == field_index(s@.subrange(from as int, to as int)),
{
    let ghost f = s@.subrange(from as int, to as int);
    if from == to {
        return None;
    }
    let mut value: usize = 0;
    let mut i = from;
    while i < to
        invariant
            from <= i <= to,
            to <= s@.len(),
            f == s@.subrange(from as int, to as int),
            forall|k: int| from <= k < i ==> is_digit(#[trigger] s@[k]),
            value == decimal_value(s@.subrange(from as int, i as int)),
        decreases to - i,
    {
        let d = s[i];
        if d < 48 || d > 57 {
            assert(!is_digit(f[i - from]));
            return None;
        }
        let ghost p = s@.subrange(from as int, i + 1);
        assert(p.drop_last() =~= s@.subrange(from as int, i as int));
        if value > (usize::MAX - (d - 48) as usize) / 10 {
            proof {
                if is_number(f) {
                    assert(f.subrange(0, i + 1 - from) =~= p);
                    lemma_decimal_monotone(f, i + 1 - from);
                }
            }
            return None;
        }
        value = value * 10 + (d - 48) as usize;
        i = i + 1;
    }
    assert(s@.subrange(from as int, i as int) =~= f);
    if value == 0 {
        None
    } else {
        Some(value - 1)
    }
}

/// Computes `corner_spec` of `s[from..to]`.
fn parse_corner_range(s: &[u8], from: usize, to: usize) -> (r: Option<FaceCorner>)
    requires
        from <= to <= s@.len(),
    ensures
        r == corner_spec(s@.subrange(from as int, to as int)),
{
    let ghost t = s@.subrange(from as int, to as int);
    let i = find_byte(s, SLASH, from, to);
    if i >= to {
        return None;
    }
    let ghost rest = t.subrange(i - from + 1, t.len() as int);
    assert(rest =~= s@.subrange(i + 1, to as int));
    let j = find_byte(s, SLASH, i + 1, to);
    let vert = parse_index(s, from, i);
    let tex = parse_index(s, i + 1, j);
    assert(t.subrange(0, i - from) =~= s@.subrange(from as int, i as int));
    assert(rest.subrange(0, j - (i + 1)) =~= s@.subrange(i + 1, j as int));
    match (vert, tex) {
        (Some(v), Some(tc)) => {
            if j >= to {
                Some(FaceCorner { vert: v, texcoord: tc, normal: None })
            } else {
                assert(rest.subrange(j - (i + 1) + 1, rest.len() as int) =~= s@.subrange(
                    j + 1,
                    to as int,
                ));
                match parse_index(s, j + 1, to) {
                    Some(nm) => Some(FaceCorner { vert: v, texcoord: tc, normal: Some(nm) }),
                    None => None,
                }
            }
        },
        _ => None,
    }
}

/// Parses one corner of a face line: `v/t` or `v/t/n`, each field a
/// 1-based decimal index, giving 0-based indices. `None` for anything else,
/// including a missing texture index or an index of 0.
pub fn parse_corner(s: &[u8]) -> (r: Option<FaceCorner>)
    ensures
        r == corner_spec(s@),
{
    assert(s@.subrange(0, s@.len() as int) =~= s@);
    parse_corner_range(s, 0, s.len())
}

/// ASCII whitespace: space, tab, line feed, form feed, carriage return.
pub open spec fn is_space(b: u8) -> bool {
    b == 32 || b == 9 || b == 10 || b == 12 || b == 13
}

/// The first position at or after `i` that is not whitespace, or `s.len()`.
pub open spec fn skip_space(s: Seq<u8>, i: int) -> int
    decreases s.len() - i,
{
    if i >= s.len() {
        s.len() as int
    } else if !is_space(s[i]) {
        i
    } else {
        skip_space(s, i + 1)
    }
}

/// The first position at or after `i` that is whitespace, or `s.len()`: the
/// end of the word that starts at `i`.
pub open spec fn word_end(s: Seq<u8>, i: int) -> int
    decreases s.len() - i,
{
    if i >= s.len() {
        s.len() as int
    } else if is_space(s[i]) {
        i
    } else {
        word_end(s, i + 1)
    }
}

/// The start of the `k`-th whitespace-separated word of `s` (counting from
/// 0), or `s.len()` when there are fewer words.
pub open spec fn word_start(s: Seq<u8>, k: nat) -> int
    decreases k,
{
    if k == 0 {
        skip_space(s, 0)
    } else {
        skip_space(s, word_end(s, word_start(s, (k - 1) as nat)))
    }
}

/// The `k`-th whitespace-separated word of `s`; empty when there is none.
pub open spec fn word(s: Seq<u8>, k: nat) -> Seq<u8> {
    let st = word_start(s, k);
    s.subrange(st, word_end(s, st))
}

/// A face line: the word `f` and exactly three corner words, separated by
/// whitespace.
pub open spec fn face_spec(s: Seq<u8>) -> Option<Face> {
    if word(s, 0) == seq![102u8] && word_start(s, 4) >= s.len() {
        match (corner_spec(word(s, 1)), corner_spec(word(s, 2)), corner_spec(word(s, 3))) {
            (Some(a), Some(b), Some(c)) => Some(Face { a, b, c }),
            _ => None,
        }
    } else {
        None
    }
}

fn skip_space_exec(s: &[u8], i: usize) -> (r: usize)
    requires
        i <= s@.len(),
    ensures
        r == skip_space(s@, i as int),
        i <= r <= s@.len(),
{
    let mut j = i;
    while j < s.len() && (s[j] == 32 || s[j] == 9 || s[j] == 10 || s[j] == 12 || s[j] == 13)
        invariant
            i <= j <= s@.len(),
            skip_space(s@, i as int) == skip_space(s@, j as int),
        decreases s@.len() - j,
    {
        j = j + 1;
    }
    j
}

fn word_end_exec(s: &[u8], i: usize) -> (r: usize)
    requires
        i <= s@.len(),
    ensures
        r == word_end(s@, i as int),
        i <= r <= s@.len(),
{
    let mut j = i;
    while j < s.len() && !(s[j] == 32 || s[j] == 9 || s[j] == 10 || s[j] == 12 || s[j] == 13)
        invariant
            i <= j <= s@.len(),
            word_end(s@, i as int) == word_end(s@, j as int),
        decreases s@.len() - j,
    {
        j = j + 1;
    }
    j
}

/// Parses a face line of the mesh format: `f` and three corners, as
/// `parse_corner` reads them, separated by whitespace. `None` for any other
/// line, including a face with more or fewer corners.
pub fn parse_face(s: &[u8]) -> (r: Option<Face>)
    ensures
        r == face_spec(s@),
{
    let ghost q = s@;
    let s0 = skip_space_exec(s, 0);
    let e0 = word_end_exec(s, s0);
    let s1 = skip_space_exec(s, e0);
    let e1 = word_end_exec(s, s1);
    let s2 = skip_space_exec(s, e1);
    let e2 = word_end_exec(s, s2);
    let s3 = skip_space_exec(s, e2);
    let e3 = word_end_exec(s, s3);
    let s4 = skip_space_exec(s, e3);
    assert(s0 == word_start(q, 0));
    assert(s1 == word_start(q, 1));
    assert(s2 == word_start(q, 2));
    assert(s3 == word_start(q, 3));
    assert(s4 == word_start(q, 4));
    let is_f = s0 < s.len() && e0 == s0 + 1 && s[s0] == 102;
    proof {
        if is_f {
            assert(word(q, 0) =~= seq![102u8]);
        } else if word(q, 0) == seq![102u8] {
            assert(word(q, 0).len() == 1);
            assert(word(q, 0)[0] == q[s0 as int]);
        }
    }
    if !is_f || s4 < s.len() {
        return None;
    }
    let a = parse_corner_range(s, s1, e1);
    let b = parse_corner_range(s, s2, e2);
    let c = parse_corner_range(s, s3, e3);
    match (a, b, c) {
        (Some(a), Some(b), Some(c)) => Some(Face { a, b, c }),
        _ => None,
    }
}

} // verus!
