//! The lines of a Wavefront OBJ file: fields parted by single spaces, the first of which
//! says what the line holds.

use vstd::prelude::*;
use vstd::slice::slice_subrange;

verus! {

/// The byte that parts the fields of a line.
pub const SPACE: u8 = 32;

/// What a line holds, as its first field tells.
#[derive(Clone, Copy, Debug, PartialEq, Eq)]
pub enum LineKind {
    /// Nothing: the line is empty, or a comment that starts with `#`.
    Skip,
    /// A face: the first field is `f`.
    Face,
    /// A vertex: the first field is `v`.
    Vertex,
    /// Anything else.
    Unknown,
}

/// Why a line holds no face.
#[derive(Clone, Copy, Debug, PartialEq, Eq)]
pub enum FaceError {
    /// The line has fewer than three fields after the first.
    MissingField,
    /// A field is not the number of a vertex.
    NotANumber,
}

/// Where the first space of `line` stands; its length if it holds none.
pub open spec fn first_space(line: Seq<u8>) -> nat
    decreases line.len(),
{
    if line.len() == 0 || line[0] == SPACE {
        0
    } else {
        1 + first_space(line.drop_first())
    }
}

/// The field of `line` with the number `k`, counted from 0: what stands between two spaces,
/// or between a space and an end of the line. Two spaces in a row have the empty field
/// between them.
pub open spec fn field(line: Seq<u8>, k: nat) -> Option<Seq<u8>>
    decreases k,
{
    let end = first_space(line) as int;
    if k == 0 {
        Some(line.take(end))
    } else if end >= line.len() {
        None
    } else {
        field(line.skip(end + 1), (k - 1) as nat)
    }
}

/// The number that decimal `digits` write.
pub open spec fn digits_value(digits: Seq<u8>) -> nat
    decreases digits.len(),
{
    if digits.len() == 0 {
        0
    } else {
        10 * digits_value(digits.drop_last()) + (digits.last() - 48) as nat
    }
}

/// Each byte of `digits` is a decimal digit.
pub open spec fn all_digits(digits: Seq<u8>) -> bool {
    forall|i: int| 0 <= i < digits.len() ==> 48 <= #[trigger] digits[i] <= 57
}

/// What is left of `token` without the plus sign that it may start with.
pub open spec fn unsigned(token: Seq<u8>) -> Seq<u8> {
    if token.len() > 0 && token[0] == 43 {
        token.drop_first()
    } else {
        token
    }
}

/// The number that `token` writes: one decimal digit or more, after a plus sign or none.
pub open spec fn number_of(token: Seq<u8>) -> Option<nat> {
    if unsigned(token).len() > 0 && all_digits(unsigned(token)) {
        Some(digits_value(unsigned(token)))
    } else {
        None
    }
}

/// The vertex number that `token` writes, if it writes a number that a `usize` holds.
pub open spec fn index_of(token: Seq<u8>) -> Option<usize> {
    match number_of(token) {
        Some(value) => if value <= usize::MAX {
            Some(value as usize)
        } else {
            None
        },
        None => None,
    }
}

/// The vertex number in the field `k` of a face line.
pub open spec fn face_field(line: Seq<u8>, k: nat) -> Result<usize, FaceError> {
    match field(line, k) {
        None => Err(FaceError::MissingField),
        Some(token) => match index_of(token) {
            None => Err(FaceError::NotANumber),
            Some(index) => Ok(index),
        },
    }
}

/// The face that a line holds in its fields 1 to 3; the first of them that is missing or is
/// no number decides what is wrong with the line. Further fields are not looked at.
pub open spec fn face_of(line: Seq<u8>) -> Result<(usize, usize, usize), FaceError> {
    match face_field(line, 1) {
        Err(e) => Err(e),
        Ok(i1) => match face_field(line, 2) {
            Err(e) => Err(e),
            Ok(i2) => match face_field(line, 3) {
                Err(e) => Err(e),
                Ok(i3) => Ok((i1, i2, i3)),
            },
        },
    }
}

/// What `line` holds, as its first field tells.
pub open spec fn kind_of(line: Seq<u8>) -> LineKind {
    if line.len() == 0 || line[0] == 35 {
        LineKind::Skip
    } else if field(line, 0) == Some(seq![102u8]) {
        LineKind::Face
    } else if field(line, 0) == Some(seq![118u8]) {
        LineKind::Vertex
    } else {
        LineKind::Unknown
    }
}

/// A stretch without a space, that ends at a space or at the end, reaches to the first space.
proof fn lemma_first_space(line: Seq<u8>, end: int)
    requires
        0 <= end <= line.len(),
        forall|j: int| 0 <= j < end ==> line[j] != SPACE,
        end == line.len() || line[end] == SPACE,
    ensures
        first_space(line) == end,
    decreases end,
{
    if end > 0 {
        lemma_first_space(line.drop_first(), end - 1);
    }
}

/// Finds where the field that starts at `start` ends.
fn field_end(line: &[u8], start: usize) -> (end: usize)
    requires
        start <= line@.len(),
    ensures
        start <= end <= line@.len(),
        end == start + first_space(line@.skip(start as int)),
{
    let mut end = start;
    while end < line.len() && line[end] != SPACE
        invariant
            start <= end <= line@.len(),
            forall|j: int| start <= j < end ==> line@[j] != SPACE,
        decreases line@.len() - end,
    {
        end += 1;
    }
    proof {
        lemma_first_space(line@.skip(start as int), end - start);
    }
    end
}

/// Finds the field of `line` with the number `k`, counted from 0: where it starts and where
/// it ends. `None` if the line has no more than `k` fields.
pub fn nth_field(line: &[u8], k: usize) -> (res: Option<(usize, usize)>)
    ensures
        match res {
            Some((start, end)) => start <= end <= line@.len() && field(line@, k as nat) == Some(
                line@.subrange(start as int, end as int),
            ),
            None => field(line@, k as nat) is None,
        },
{
    let mut start: usize = 0;
    let mut left: usize = k;
    assert(line@.skip(0) == line@);
    loop
        invariant
            start <= line@.len(),
            left <= k,
            field(line@, k as nat) == field(line@.skip(start as int), left as nat),
        decreases left,
    {
        let end = field_end(line, start);
        if left == 0 {
            proof {
                assert(line@.skip(start as int).take(end - start) == line@.subrange(
                    start as int,
                    end as int,
                ));
            }
            return Some((start, end));
        }
        if end >= line.len() {
            return None;
        }
        proof {
            assert(line@.skip(start as int).skip(end - start + 1) == line@.skip(end + 1));
        }
        start = end + 1;
        left -= 1;
    }
}

/// Reads the vertex number that `token` writes. `None` if it writes no number, or one that
/// a `usize` does not hold.
pub fn parse_index(token: &[u8]) -> (res: Option<usize>)
    ensures
        res == index_of(token@),
{
    let first: usize = if token.len() > 0 && token[0] == 43 {
        1
    } else {
        0
    };
    let ghost digits = token@.skip(first as int);
    proof {
        if first == 1 {
            assert(digits == token@.drop_first());
        } else {
            assert(digits == token@);
        }
    }
    if first == token.len() {
        return None;
    }
    let mut value: usize = 0;
    let mut i: usize = first;
    while i < token.len()
        invariant
            first <= i <= token@.len(),
            digits == token@.skip(first as int),
            digits == unsigned(token@),
            digits.len() > 0,
            all_digits(digits.take(i - first)),
            value == digits_value(digits.take(i - first)),
        decreases token@.len() - i,
    {
        let byte = token[i];
        if byte < 48 || byte > 57 {
            assert(!(48 <= digits[i - first] <= 57));
            return None;
        }
        proof {
            assert(digits.take(i - first + 1).drop_last() == digits.take(i - first));
            assert(digits.take(i - first + 1).last() == byte);
            assert forall|j: int| 0 <= j < i - first + 1 implies 48 <= #[trigger] digits.take(
                i - first + 1,
            )[j] <= 57 by {
                if j < i - first {
                    assert(digits.take(i - first)[j] == digits[j]);
                }
            }
            assert(digits_value(digits.take(i - first + 1)) == 10 * value + (byte - 48));
        }
        let grown = match value.checked_mul(10) {
            Some(tens) => tens.checked_add((byte - 48) as usize),
            None => None,
        };
        match grown {
            Some(next) => {
                value = next;
            },
            None => {
                proof {
                    assert(10 * value + (byte - 48) > usize::MAX);
                    if all_digits(digits) {
                        lemma_digits_value_grows(digits, i - first + 1);
                        assert(digits_value(digits) > usize::MAX);
                    }
                }
                return None;
            },
        }
        i += 1;
    }
    proof {
        assert(digits.take(digits.len() as int) == digits);
    }
    Some(value)
}

/// More digits write no smaller number.
proof fn lemma_digits_value_grows(digits: Seq<u8>, n: int)
    requires
        0 <= n <= digits.len(),
        all_digits(digits),
    ensures
        digits_value(digits.take(n)) <= digits_value(digits),
    decreases digits.len() - n,
{
    if n < digits.len() {
        lemma_digits_value_grows(digits, n + 1);
        assert(digits.take(n + 1).drop_last() == digits.take(n));
    } else {
        assert(digits.take(n) == digits);
    }
}

/// Tells what `line` holds. The line is taken as it is: spaces around it are not removed.
pub fn line_kind(line: &[u8]) -> (kind: LineKind)
    ensures
        kind == kind_of(line@),
{
    if line.len() == 0 || line[0] == 35 {
        return LineKind::Skip;
    }
    let end = field_end(line, 0);
    proof {
        assert(line@.skip(0) == line@);
        assert(line@.take(end as int).len() == end);
        if end == 1 {
            assert(line@.take(1) == seq![line@[0]]);
        }
    }
    if end == 1 && line[0] == 102 {
        LineKind::Face
    } else if end == 1 && line[0] == 118 {
        LineKind::Vertex
    } else {
        LineKind::Unknown
    }
}

/// Reads the vertex number in the field `k` of a face line.
fn read_face_field(line: &[u8], k: usize) -> (res: Result<usize, FaceError>)
    ensures
        res == face_field(line@, k as nat),
{
    match nth_field(line, k) {
        None => Err(FaceError::MissingField),
        Some((start, end)) => match parse_index(slice_subrange(line, start, end)) {
            None => Err(FaceError::NotANumber),
            Some(index) => Ok(index),
        },
    }
}

/// Reads the face that a line holds in its fields 1 to 3.
pub fn face_of_line(line: &[u8]) -> (res: Result<(usize, usize, usize), FaceError>)
    ensures
        res == face_of(line@),
{
    let i1 = match read_face_field(line, 1) {
        Ok(index) => index,
        Err(e) => {
            return Err(e);
        },
    };
    let i2 = match read_face_field(line, 2) {
        Ok(index) => index,
        Err(e) => {
            return Err(e);
        },
    };
    let i3 = match read_face_field(line, 3) {
        Ok(index) => index,
        Err(e) => {
            return Err(e);
        },
    };
    Ok((i1, i2, i3))
}

} // verus!
