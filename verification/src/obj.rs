//! Parsing of the text mesh format's face statements.
//!
//! A face statement names three corners, each a group of slash-separated
//! one-based indices of which the first two — vertex and texture coordinate
//! — matter here. The indices are converted to zero-based form. Vertex and
//! texture-coordinate statements carry real numbers and are read by the
//! caller; the face statements are pure index work and are parsed here.

use vstd::prelude::*;

use crate::error::ParseError;

verus! {

/// One corner of a mesh face: indices into the vertex and texture
/// coordinate lists, zero-based.
#[derive(Clone, Copy, Debug, Default, PartialEq, Eq, Structural)]
pub struct Face {
    /// Index of the corner's position in the vertex list.
    pub vertex_index: usize,
    /// Index of the corner's texture coordinate in the coordinate list.
    pub texture_index: usize,
}

/// Whether `c` is an ASCII decimal digit.
pub open spec fn is_digit(c: u8) -> bool {
    48 <= c <= 57
}

/// The value of the decimal digit string `s` (most significant first).
pub open spec fn digits_val(s: Seq<u8>) -> int
    decreases s.len(),
{
    if s.len() == 0 {
        0
    } else {
        digits_val(s.drop_last()) * 10 + (s.last() - 48)
    }
}

/// Whether `s` is entirely decimal digits.
pub open spec fn all_digits(s: Seq<u8>) -> bool {
    forall|i: int| 0 <= i < s.len() ==> is_digit(#[trigger] s[i])
}

/// The index a digit string denotes: its decimal value, provided the string
/// is nonempty, all digits, and the value fits the address range.
pub open spec fn index_val(s: Seq<u8>) -> Option<int> {
    if s.len() >= 1 && all_digits(s) && digits_val(s) <= usize::MAX {
        Some(digits_val(s))
    } else {
        None
    }
}

/// The pieces of `s` between occurrences of `sep`, in order. Splitting never
/// yields fewer than one piece; `n` separators yield `n + 1` pieces.
pub open spec fn split_seq(s: Seq<u8>, sep: u8) -> Seq<Seq<u8>>
    decreases s.len(),
{
    if s.len() == 0 {
        seq![Seq::empty()]
    } else if s[0] == sep {
        seq![Seq::<u8>::empty()] + split_seq(s.skip(1), sep)
    } else {
        let rest = split_seq(s.skip(1), sep);
        rest.update(0, seq![s[0]] + rest[0])
    }
}

/// What one corner group ("v/t" or "v/t/n") of a face statement means:
/// the zero-based vertex and texture indices, or why it is rejected.
pub open spec fn group_spec(g: Seq<u8>) -> Result<(int, int), ParseError> {
    let parts = split_seq(g, 47);  // '/'
    if parts.len() < 2 {
        Err(ParseError::MalformedFace)
    } else {
        match (index_val(parts[0]), index_val(parts[1])) {
            (Some(v), Some(t)) => if v == 0 || t == 0 {
                Err(ParseError::ZeroFaceIndex)
            } else {
                Ok((v - 1, t - 1))
            },
            _ => Err(ParseError::MalformedFace),
        }
    }
}

/// What a whole face statement means: the three corners' zero-based index
/// pairs, or the first corner's rejection. The statement must hold at least
/// three space-separated groups after the keyword; any further groups are
/// ignored.
pub open spec fn face_line_spec(s: Seq<u8>) -> Result<Seq<(int, int)>, ParseError> {
    let parts = split_seq(s, 32);  // ' '
    if parts.len() < 4 {
        Err(ParseError::MalformedFace)
    } else {
        match (group_spec(parts[1]), group_spec(parts[2]), group_spec(parts[3])) {
            (Ok(g1), Ok(g2), Ok(g3)) => Ok(seq![g1, g2, g3]),
            (Err(e), _, _) => Err(e),
            (Ok(_), Err(e), _) => Err(e),
            (Ok(_), Ok(_), Err(e)) => Err(e),
        }
    }
}

/// Splitting yields at least one piece.
proof fn lemma_split_seq_nonempty(s: Seq<u8>, sep: u8)
    ensures
        split_seq(s, sep).len() >= 1,
    decreases s.len(),
{
    if s.len() != 0 {
        lemma_split_seq_nonempty(s.skip(1), sep);
    }
}

/// A separator-free stretch that runs to the end of the input splits into
/// that one piece.
proof fn lemma_split_seq_last(s: Seq<u8>, sep: u8, a: int)
    requires
        0 <= a <= s.len(),
        forall|j: int| a <= j < s.len() ==> s[j] != sep,
    ensures
        split_seq(s.skip(a), sep) == seq![s.skip(a)],
    decreases s.len() - a,
{
    if a == s.len() {
        assert(s.skip(a) =~= Seq::<u8>::empty());
    } else {
        lemma_split_seq_last(s, sep, a + 1);
        let t = s.skip(a);
        assert(t[0] == s[a]);
        assert(t.skip(1) =~= s.skip(a + 1));
        assert(seq![t[0]] + s.skip(a + 1) =~= t);
        assert(split_seq(t, sep) =~= seq![t]);
    }
}

/// A separator-free stretch up to a separator splits into that piece
/// followed by the split of what comes after the separator.
proof fn lemma_split_seq_step(s: Seq<u8>, sep: u8, a: int, b: int)
    requires
        0 <= a <= b < s.len(),
        forall|j: int| a <= j < b ==> s[j] != sep,
        s[b] == sep,
    ensures
        split_seq(s.skip(a), sep) == seq![s.subrange(a, b)] + split_seq(s.skip(b + 1), sep),
    decreases b - a,
{
    let t = s.skip(a);
    if a == b {
        assert(t[0] == sep);
        assert(t.skip(1) =~= s.skip(b + 1));
        assert(s.subrange(a, b) =~= Seq::<u8>::empty());
        assert(split_seq(t, sep) =~= seq![s.subrange(a, b)] + split_seq(s.skip(b + 1), sep));
    } else {
        lemma_split_seq_step(s, sep, a + 1, b);
        lemma_split_seq_nonempty(s.skip(b + 1), sep);
        assert(t[0] == s[a]);
        assert(t.skip(1) =~= s.skip(a + 1));
        let rest = split_seq(s.skip(a + 1), sep);
        assert(rest[0] == s.subrange(a + 1, b));
        assert(seq![t[0]] + s.subrange(a + 1, b) =~= s.subrange(a, b));
        assert(split_seq(t, sep) =~= seq![s.subrange(a, b)] + split_seq(s.skip(b + 1), sep));
    }
}

/// The value of a digit string is nonnegative.
proof fn lemma_digits_val_nonneg(s: Seq<u8>)
    requires
        all_digits(s),
    ensures
        digits_val(s) >= 0,
    decreases s.len(),
{
    if s.len() > 0 {
        assert(all_digits(s.drop_last())) by {
            assert(forall|i: int|
                0 <= i < s.len() - 1 ==> s.drop_last()[i] == #[trigger] s[i]);
        }
        lemma_digits_val_nonneg(s.drop_last());
    }
}

/// The value of a digit string is at least the value of any prefix.
proof fn lemma_digits_val_prefix_le(s: Seq<u8>, k: int)
    requires
        all_digits(s),
        0 <= k <= s.len(),
    ensures
        digits_val(s.take(k)) <= digits_val(s),
    decreases s.len() - k,
{
    if k < s.len() {
        lemma_digits_val_prefix_le(s.drop_last(), k);
        assert(all_digits(s.drop_last())) by {
            assert(forall|i: int|
                0 <= i < s.len() - 1 ==> s.drop_last()[i] == #[trigger] s[i]);
        }
        lemma_digits_val_nonneg(s.drop_last());
        assert(s.drop_last().take(k) =~= s.take(k));
        assert(digits_val(s.drop_last()) * 10 + (s.last() - 48) >= digits_val(s.drop_last()))
            by (nonlinear_arith)
            requires
                digits_val(s.drop_last()) >= 0,
                s.last() - 48 >= 0,
        ;
    } else {
        assert(s.take(k) =~= s);
    }
}

/// Splits `s` at every occurrence of `sep`, keeping empty pieces.
fn split_bytes<'a>(s: &'a [u8], sep: u8) -> (r: Vec<&'a [u8]>)
    ensures
        r@.len() == split_seq(s@, sep).len(),
        forall|k: int| 0 <= k < r@.len() ==> (#[trigger] r@[k])@ == split_seq(s@, sep)[k],
{
    let n = s.len();
    let mut parts: Vec<&[u8]> = Vec::new();
    let mut start: usize = 0;
    let mut i: usize = 0;

    proof {
        lemma_split_seq_nonempty(s@, sep);
        assert(s@.skip(0) =~= s@);
        assert(parts@.map_values(|p: &[u8]| p@) =~= Seq::<Seq<u8>>::empty());
        assert(Seq::<Seq<u8>>::empty() + split_seq(s@, sep) =~= split_seq(s@, sep));
    }

    while i < n
        invariant
            n == s@.len(),
            start <= i <= n,
            forall|j: int| start <= j < i ==> s@[j] != sep,
            split_seq(s@, sep).len() >= parts@.len() + 1,
            split_seq(s@, sep) == parts@.map_values(|p: &[u8]| p@) + split_seq(
                s@.skip(start as int),
                sep,
            ),
            forall|k: int| 0 <= k < parts@.len() ==> (#[trigger] parts@[k])@ == split_seq(
                s@,
                sep,
            )[k],
        decreases n - i,
    {
        if s[i] == sep {
            let piece = &s[start..i];
            proof {
                lemma_split_seq_step(s@, sep, start as int, i as int);
                lemma_split_seq_nonempty(s@.skip(i + 1), sep);
                assert(parts@.push(piece).map_values(|p: &[u8]| p@) =~= parts@.map_values(
                    |p: &[u8]| p@,
                ).push(piece@));
                assert(parts@.map_values(|p: &[u8]| p@) + (seq![s@.subrange(
                    start as int,
                    i as int,
                )] + split_seq(s@.skip(i + 1), sep)) =~= parts@.map_values(|p: &[u8]| p@).push(
                    piece@,
                ) + split_seq(s@.skip(i + 1), sep));
            }
            parts.push(piece);
            start = i + 1;
        }
        i = i + 1;
    }

    let piece = &s[start..n];
    proof {
        lemma_split_seq_last(s@, sep, start as int);
        assert(parts@.push(piece).map_values(|p: &[u8]| p@) =~= parts@.map_values(
            |p: &[u8]| p@,
        ).push(piece@));
        assert(parts@.map_values(|p: &[u8]| p@) + seq![s@.skip(start as int)] =~= parts@.map_values(
            |p: &[u8]| p@,
        ).push(piece@));
    }
    parts.push(piece);
    parts
}

/// Reads a decimal index: the string's value if it is a nonempty digit
/// string whose value fits the address range.
fn parse_index(s: &[u8]) -> (r: Option<usize>)
    ensures
        match index_val(s@) {
            Some(v) => r == Some(v as usize),
            None => r is None,
        },
{
    let n = s.len();
    if n == 0 {
        return None;
    }
    let mut v: usize = 0;
    let mut i: usize = 0;
    while i < n
        invariant
            n == s@.len(),
            i <= n,
            forall|j: int| 0 <= j < i ==> is_digit(#[trigger] s@[j]),
            v == digits_val(s@.take(i as int)),
        decreases n - i,
    {
        let d = s[i];
        if d < 48 || d > 57 {
            return None;
        }
        proof {
            assert(s@.take(i + 1).drop_last() =~= s@.take(i as int));
            assert(s@.take(i + 1).last() == d);
        }
        let step = v.checked_mul(10);
        match step {
            None => {
                proof {
                    lemma_overflow_means_none(s@, i as int, v as int, d as int);
                }
                return None;
            },
            Some(v10) => {
                match v10.checked_add((d - 48) as usize) {
                    None => {
                        proof {
                            lemma_overflow_means_none(s@, i as int, v as int, d as int);
                        }
                        return None;
                    },
                    Some(vn) => {
                        v = vn;
                    },
                }
            },
        }
        i = i + 1;
    }
    proof {
        assert(s@.take(n as int) =~= s@);
    }
    Some(v)
}

/// A digit whose arrival overflows the accumulator pushes the whole
/// string's value past the address range.
proof fn lemma_overflow_means_none(s: Seq<u8>, i: int, v: int, d: int)
    requires
        0 <= i < s.len(),
        is_digit(s[i] as u8),
        d == s[i],
        v == digits_val(s.take(i)),
        v * 10 + (d - 48) > usize::MAX,
        forall|j: int| 0 <= j < i ==> is_digit(#[trigger] s[j]),
    ensures
        index_val(s) is None,
{
    if s.len() >= 1 && all_digits(s) {
        assert(s.take(i + 1).drop_last() =~= s.take(i));
        assert(s.take(i + 1).last() == s[i]);
        assert(digits_val(s.take(i + 1)) == v * 10 + (d - 48));
        lemma_digits_val_prefix_le(s, i + 1);
    }
}

/// Parses one corner group of a face statement: the one-based vertex and
/// texture indices before the first two slashes, converted to zero-based.
pub fn parse_face_group(g: &[u8]) -> (r: Result<Face, ParseError>)
    ensures
        match group_spec(g@) {
            Ok(p) => r matches Ok(f) && f.vertex_index == p.0 && f.texture_index == p.1,
            Err(e) => r == Err::<Face, ParseError>(e),
        },
{
    let parts = split_bytes(g, 47);
    if parts.len() < 2 {
        return Err(ParseError::MalformedFace);
    }
    proof {
        // A parsed index is a digit-string value, hence nonnegative.
        if index_val(parts@[0]@) is Some {
            lemma_digits_val_nonneg(parts@[0]@);
        }
        if index_val(parts@[1]@) is Some {
            lemma_digits_val_nonneg(parts@[1]@);
        }
    }
    let v = match parse_index(parts[0]) {
        Some(v) => v,
        None => {
            return Err(ParseError::MalformedFace);
        },
    };
    let t = match parse_index(parts[1]) {
        Some(t) => t,
        None => {
            return Err(ParseError::MalformedFace);
        },
    };
    if v == 0 || t == 0 {
        return Err(ParseError::ZeroFaceIndex);
    }
    // Convert to zero-based indices.
    Ok(Face { vertex_index: v - 1, texture_index: t - 1 })
}

/// Parses a face statement: the keyword, then at least three corner groups
/// separated by single spaces; groups past the third are ignored. The
/// caller dispatches on the leading keyword and hands the whole line over.
pub fn parse_face_line(line: &[u8]) -> (r: Result<[Face; 3], ParseError>)
    requires
        line@.len() >= 2,
        line@[0] == 102,  // 'f'
        line@[1] == 32,  // ' '
    ensures
        match face_line_spec(line@) {
            Ok(t) => r matches Ok(fs) && {
                &&& fs[0].vertex_index == t[0].0
                &&& fs[0].texture_index == t[0].1
                &&& fs[1].vertex_index == t[1].0
                &&& fs[1].texture_index == t[1].1
                &&& fs[2].vertex_index == t[2].0
                &&& fs[2].texture_index == t[2].1
            },
            Err(e) => r == Err::<[Face; 3], ParseError>(e),
        },
{
    let parts = split_bytes(line, 32);
    if parts.len() < 4 {
        return Err(ParseError::MalformedFace);
    }
    let f1 = match parse_face_group(parts[1]) {
        Ok(f) => f,
        Err(e) => {
            return Err(e);
        },
    };
    let f2 = match parse_face_group(parts[2]) {
        Ok(f) => f,
        Err(e) => {
            return Err(e);
        },
    };
    let f3 = match parse_face_group(parts[3]) {
        Ok(f) => f,
        Err(e) => {
            return Err(e);
        },
    };
    Ok([f1, f2, f3])
}

} // verus!
