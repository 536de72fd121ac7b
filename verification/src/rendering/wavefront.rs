//! The lines of a Wavefront OBJ file that describe faces.
//!
//! A face line holds the letter `f` and, separated by blanks, one field for
//! each corner of the face. A corner is either a plain vertex number, or a
//! vertex number, a texture coordinate number and a normal number with a
//! slash between them. Numbers count from one.

use vstd::prelude::*;
use vstd::slice::slice_subrange;
use crate::raster::vector::Vec3u;

verus! {

/// The byte of a blank.
pub const BLANK: u8 = 32;

/// The byte of a slash.
pub const SLASH: u8 = 47;

/// The byte of a minus sign.
pub const MINUS: u8 = 45;

/// The byte of a plus sign.
pub const PLUS: u8 = 43;

/// The place of the first `mark` in `text`, or the length of `text` if it
/// holds none.
pub open spec fn first_at(text: Seq<u8>, mark: u8) -> int
    decreases text.len(),
{
    if text.len() == 0 || text[0] == mark {
        0
    } else {
        1 + first_at(text.drop_first(), mark)
    }
}

/// The pieces of `text` between its `mark`s, empty pieces included.
pub open spec fn pieces(text: Seq<u8>, mark: u8) -> Seq<Seq<u8>>
    decreases text.len(),
{
    let at = first_at(text, mark);
    if 0 <= at < text.len() {
        seq![text.take(at)] + pieces(text.skip(at + 1), mark)
    } else {
        seq![text]
    }
}

/// The fields of `text`: its pieces between blanks, without the empty
/// ones.
pub open spec fn fields(text: Seq<u8>) -> Seq<Seq<u8>>
    decreases text.len(),
{
    let at = first_at(text, BLANK);
    let rest = if 0 <= at < text.len() {
        fields(text.skip(at + 1))
    } else {
        Seq::empty()
    };
    if at <= 0 {
        rest
    } else {
        seq![text.take(at)] + rest
    }
}

/// The place `at` is that of the first `mark` if no earlier byte is a
/// `mark` and the text ends there or has a `mark` there.
pub proof fn lemma_first_at(text: Seq<u8>, mark: u8, at: int)
    requires
        0 <= at <= text.len(),
        forall|k: int| 0 <= k < at ==> text[k] != mark,
        at < text.len() ==> text[at] == mark,
    ensures
        first_at(text, mark) == at,
    decreases at,
{
    if at > 0 {
        let rest = text.drop_first();
        assert forall|k: int| 0 <= k < at - 1 implies rest[k] != mark by {
            assert(rest[k] == text[k + 1]);
        }
        lemma_first_at(rest, mark, at - 1);
    }
}

/// The texts that the slices hold.
pub open spec fn texts(slices: Seq<&[u8]>) -> Seq<Seq<u8>> {
    Seq::new(slices.len(), |k: int| slices[k]@)
}

/// Finds the first `mark` in `text` at or behind `from`; gives the length
/// of `text` if there is none.
fn find(text: &[u8], from: usize, mark: u8) -> (at: usize)
    requires
        from <= text@.len(),
    ensures
        from <= at <= text@.len(),
        at == from + first_at(text@.skip(from as int), mark),
{
    let mut at = from;
    while at < text.len() && text[at] != mark
        invariant
            from <= at <= text@.len(),
            forall|k: int| from <= k < at ==> text@[k] != mark,
        decreases text@.len() - at,
    {
        at = at + 1;
    }
    proof {
        let rest = text@.skip(from as int);
        assert forall|k: int| 0 <= k < at - from implies rest[k] != mark by {
            assert(rest[k] == text@[from + k]);
        }
        lemma_first_at(rest, mark, at - from);
    }
    at
}

/// Splits `text` into its fields.
pub fn split_fields<'a>(text: &'a [u8]) -> (found: Vec<&'a [u8]>)
    ensures
        texts(found@) == fields(text@),
{
    let mut found: Vec<&'a [u8]> = Vec::new();
    let mut from: usize = 0;
    let mut done = false;
    assert(text@.skip(0) =~= text@);
    assert(texts(found@) =~= Seq::<Seq<u8>>::empty());
    while !done
        invariant
            from <= text@.len(),
            !done ==> fields(text@) == texts(found@) + fields(text@.skip(from as int)),
            done ==> fields(text@) == texts(found@),
        decreases text@.len() - from + (if done { 0int } else { 1int }),
    {
        let at = find(text, from, BLANK);
        let ghost rest = text@.skip(from as int);
        let ghost before = texts(found@);
        if at > from {
            let field = slice_subrange(text, from, at);
            found.push(field);
            proof {
                assert(field@ =~= rest.take(at - from));
                assert(texts(found@) =~= before + seq![rest.take(at - from)]);
            }
        }
        if at < text.len() {
            proof {
                assert(rest.skip(at - from + 1) =~= text@.skip(at + 1));
                assert(texts(found@) + fields(text@.skip(at + 1)) =~= before + fields(rest));
            }
            from = at + 1;
        } else {
            proof {
                assert(texts(found@) =~= before + fields(rest));
            }
            done = true;
        }
    }
    found
}

/// Splits `text` into its pieces between `mark`s.
pub fn split_pieces<'a>(text: &'a [u8], mark: u8) -> (found: Vec<&'a [u8]>)
    ensures
        texts(found@) == pieces(text@, mark),
{
    let mut found: Vec<&'a [u8]> = Vec::new();
    let mut from: usize = 0;
    let mut done = false;
    assert(text@.skip(0) =~= text@);
    assert(texts(found@) =~= Seq::<Seq<u8>>::empty());
    while !done
        invariant
            from <= text@.len(),
            !done ==> pieces(text@, mark) == texts(found@) + pieces(text@.skip(from as int), mark),
            done ==> pieces(text@, mark) == texts(found@),
        decreases text@.len() - from + (if done { 0int } else { 1int }),
    {
        let at = find(text, from, mark);
        let ghost rest = text@.skip(from as int);
        let ghost before = texts(found@);
        let piece = slice_subrange(text, from, at);
        found.push(piece);
        proof {
            assert(piece@ =~= rest.take(at - from));
            assert(texts(found@) =~= before + seq![rest.take(at - from)]);
        }
        if at < text.len() {
            proof {
                assert(rest.skip(at - from + 1) =~= text@.skip(at + 1));
                assert(texts(found@) + pieces(text@.skip(at + 1), mark) =~= before + pieces(
                    rest,
                    mark,
                ));
            }
            from = at + 1;
        } else {
            proof {
                assert(rest.take(at - from) =~= rest);
                assert(texts(found@) =~= before + pieces(rest, mark));
            }
            done = true;
        }
    }
    found
}

/// Whether the byte is a decimal digit.
pub open spec fn is_digit(byte: u8) -> bool {
    48 <= byte <= 57
}

/// Whether the text holds decimal digits only.
pub open spec fn all_digits(text: Seq<u8>) -> bool {
    forall|k: int| 0 <= k < text.len() ==> is_digit(#[trigger] text[k])
}

/// What a byte adds to a number as its last digit.
pub open spec fn digit_of(byte: u8) -> nat {
    if is_digit(byte) {
        (byte - 48) as nat
    } else {
        0
    }
}

/// The number that a text of decimal digits denotes.
pub open spec fn digits_value(text: Seq<u8>) -> nat
    decreases text.len(),
{
    if text.len() == 0 {
        0
    } else {
        digits_value(text.drop_last()) * 10 + digit_of(text.last())
    }
}

/// The number that `text` denotes as an unsigned integer: there may be a
/// plus sign in front, there is at least one digit and nothing else, and the
/// number fits the machine's word.
pub open spec fn unsigned(text: Seq<u8>) -> Option<nat> {
    let digits = if text.len() > 0 && text[0] == PLUS {
        text.drop_first()
    } else {
        text
    };
    if digits.len() > 0 && all_digits(digits) && digits_value(digits) <= usize::MAX {
        Some(digits_value(digits))
    } else {
        None
    }
}

/// Whether `text` denotes an integer of 32 bits with a sign: there may be
/// a plus or minus sign in front, there is at least one digit and nothing
/// else, and the number is in range.
pub open spec fn is_int32(text: Seq<u8>) -> bool {
    let negative = text.len() > 0 && text[0] == MINUS;
    let digits = if text.len() > 0 && (text[0] == PLUS || text[0] == MINUS) {
        text.drop_first()
    } else {
        text
    };
    digits.len() > 0 && all_digits(digits) && digits_value(digits) <= (if negative {
        0x8000_0000nat
    } else {
        0x7fff_ffffnat
    })
}

/// A number does not shrink when digits are put behind it.
proof fn lemma_value_grows(text: Seq<u8>, n: int)
    requires
        0 <= n <= text.len(),
    ensures
        digits_value(text.take(n)) <= digits_value(text),
    decreases text.len() - n,
{
    if n < text.len() {
        lemma_value_grows(text.drop_last(), n);
        assert(text.drop_last().take(n) =~= text.take(n));
    } else {
        assert(text.take(n) =~= text);
    }
}

/// Reads the digits of `text` behind its first `from` bytes. Gives their
/// value if there is at least one digit, nothing but digits, and the value
/// is at most `limit`.
fn read_digits(text: &[u8], from: usize, limit: u64) -> (value: Option<u64>)
    requires
        from <= text@.len(),
    ensures
        ({
            let digits = text@.skip(from as int);
            value == (if digits.len() > 0 && all_digits(digits) && digits_value(digits) <= limit {
                Some(digits_value(digits) as u64)
            } else {
                None::<u64>
            })
        }),
{
    let ghost digits = text@.skip(from as int);
    if from == text.len() {
        return None;
    }
    let mut sum: u128 = 0;
    let mut at: usize = from;
    assert(digits.take(0) =~= Seq::<u8>::empty());
    while at < text.len()
        invariant
            from <= at <= text@.len(),
            digits == text@.skip(from as int),
            sum == digits_value(digits.take(at - from)),
            sum <= limit,
            forall|k: int| 0 <= k < at - from ==> is_digit(#[trigger] digits[k]),
        decreases text@.len() - at,
    {
        let byte = text[at];
        assert(byte == digits[at - from]);
        if byte < 48 || byte > 57 {
            return None;
        }
        proof {
            assert(digits.take(at - from + 1).drop_last() =~= digits.take(at - from));
            assert(digits.take(at - from + 1).last() == byte);
        }
        sum = sum * 10 + (byte - 48) as u128;
        if sum > limit as u128 {
            proof {
                lemma_value_grows(digits, at - from + 1);
            }
            return None;
        }
        at = at + 1;
    }
    assert(digits.take(at - from) =~= digits);
    Some(sum as u64)
}

/// Reads `text` as an unsigned integer.
pub fn read_unsigned(text: &[u8]) -> (value: Option<usize>)
    ensures
        value.is_some() == unsigned(text@).is_some(),
        value.is_some() ==> value.unwrap() == unsigned(text@).unwrap(),
{
    let from: usize = if text.len() > 0 && text[0] == PLUS {
        1
    } else {
        0
    };
    proof {
        assert(text@.skip(0) =~= text@);
        assert(text@.skip(1) =~= text@.drop_first());
    }
    match read_digits(text, from, usize::MAX as u64) {
        Some(value) => Some(value as usize),
        None => None,
    }
}

/// Tells whether `text` denotes an integer of 32 bits with a sign.
pub fn reads_as_int32(text: &[u8]) -> (fits: bool)
    ensures
        fits == is_int32(text@),
{
    proof {
        assert(text@.skip(0) =~= text@);
        assert(text@.skip(1) =~= text@.drop_first());
    }
    if text.len() > 0 && text[0] == MINUS {
        read_digits(text, 1, 0x8000_0000).is_some()
    } else if text.len() > 0 && text[0] == PLUS {
        read_digits(text, 1, 0x7fff_ffff).is_some()
    } else {
        read_digits(text, 0, 0x7fff_ffff).is_some()
    }
}

/// The text without its `mark`s.
pub open spec fn without(text: Seq<u8>, mark: u8) -> Seq<u8>
    decreases text.len(),
{
    if text.len() == 0 {
        Seq::empty()
    } else if text.last() == mark {
        without(text.drop_last(), mark)
    } else {
        without(text.drop_last(), mark).push(text.last())
    }
}

/// Copies `text` without its `mark`s.
pub fn strip(text: &[u8], mark: u8) -> (rest: Vec<u8>)
    ensures
        rest@ == without(text@, mark),
{
    let mut rest: Vec<u8> = Vec::new();
    let mut at: usize = 0;
    assert(text@.take(0) =~= Seq::<u8>::empty());
    while at < text.len()
        invariant
            at <= text@.len(),
            rest@ == without(text@.take(at as int), mark),
        decreases text@.len() - at,
    {
        proof {
            assert(text@.take(at + 1).drop_last() =~= text@.take(at as int));
            assert(text@.take(at + 1).last() == text@[at as int]);
        }
        if text[at] != mark {
            rest.push(text[at]);
        }
        at = at + 1;
    }
    assert(text@.take(at as int) =~= text@);
    rest
}

/// The index that a number text stands for: the number less one, since
/// the file counts from one. A text that is no unsigned integer, or that
/// denotes zero, stands for none.
pub open spec fn index_of(text: Seq<u8>) -> Option<usize> {
    match unsigned(text) {
        Some(number) => if number >= 1 {
            Some((number - 1) as usize)
        } else {
            None
        },
        None => None,
    }
}

/// Whether the text has a slash.
pub open spec fn has_slash(text: Seq<u8>) -> bool {
    first_at(text, SLASH) < text.len()
}

/// Whether the field counts as a corner: what stands in front of its first
/// slash is an integer of 32 bits.
pub open spec fn counts(field: Seq<u8>) -> bool {
    is_int32(field.take(first_at(field, SLASH)))
}

/// The indices that the first `n` of the `parts` stand for, minus signs
/// ignored; none if one of these parts stands for no index.
pub open spec fn indices(parts: Seq<Seq<u8>>, n: int) -> Option<Seq<usize>>
    decreases n,
{
    if n <= 0 {
        Some(Seq::empty())
    } else {
        match (indices(parts, n - 1), index_of(without(parts[n - 1], MINUS))) {
            (Some(before), Some(index)) => Some(before.push(index)),
            _ => None,
        }
    }
}

/// The corner that a field with slashes stands for: the vertex, the
/// texture coordinate and the normal. Each part between slashes must stand
/// for an index, and there must be three of them at least.
pub open spec fn slashed_corner(field: Seq<u8>) -> Option<Vec3u> {
    let parts = pieces(field, SLASH);
    match indices(parts, parts.len() as int) {
        Some(found) => if found.len() >= 3 {
            Some(Vec3u(found[0], found[1], found[2]))
        } else {
            None
        },
        None => None,
    }
}

/// The corner that a field without slashes stands for: a vertex.
pub open spec fn plain_corner(field: Seq<u8>) -> Option<Vec3u> {
    match index_of(field) {
        Some(vertex) => Some(Vec3u(vertex, 0, 0)),
        None => None,
    }
}

/// The corner that a field stands for on a line of the given kind.
pub open spec fn corner_of(field: Seq<u8>, slashed: bool) -> Option<Vec3u> {
    if slashed {
        slashed_corner(field)
    } else {
        plain_corner(field)
    }
}

/// The corners that the first `n` fields stand for, in their order. Fields
/// that do not count as corners are left out; if one that counts stands
/// for no corner, there is no result.
pub open spec fn corners(all: Seq<Seq<u8>>, slashed: bool, n: int) -> Option<Seq<Vec3u>>
    decreases n,
{
    if n <= 0 {
        Some(Seq::empty())
    } else if !counts(all[n - 1]) {
        corners(all, slashed, n - 1)
    } else {
        match (corners(all, slashed, n - 1), corner_of(all[n - 1], slashed)) {
            (Some(before), Some(corner)) => Some(before.push(corner)),
            _ => None,
        }
    }
}

/// The face that a face line describes: its first three corners. The
/// second field decides whether the corners are read with slashes. A line
/// with fewer than two fields or fewer than three corners, or with a corner
/// that cannot be read, describes no face.
pub open spec fn face_of(line: Seq<u8>) -> Option<Seq<Vec3u>> {
    let all = fields(line);
    if all.len() < 2 {
        None
    } else {
        match corners(all, has_slash(all[1]), all.len() as int) {
            Some(found) => if found.len() >= 3 {
                Some(found.take(3))
            } else {
                None
            },
            None => None,
        }
    }
}

/// Reads the index that a number text stands for.
fn read_index(text: &[u8]) -> (index: Option<usize>)
    ensures
        index == index_of(text@),
{
    match read_unsigned(text) {
        Some(number) => if number >= 1 {
            Some(number - 1)
        } else {
            None
        },
        None => None,
    }
}

/// Reads a corner with slashes.
fn read_slashed_corner(field: &[u8]) -> (corner: Option<Vec3u>)
    ensures
        corner == slashed_corner(field@),
{
    let parts = split_pieces(field, SLASH);
    let ghost all = pieces(field@, SLASH);
    let mut found: Vec<usize> = Vec::new();
    let mut at: usize = 0;
    while at < parts.len()
        invariant
            at <= parts@.len(),
            texts(parts@) == all,
            all == pieces(field@, SLASH),
            indices(all, at as int) == Some(found@),
        decreases parts@.len() - at,
    {
        let bare = strip(parts[at], MINUS);
        assert(all[at as int] == parts@[at as int]@);
        match read_index(bare.as_slice()) {
            Some(index) => {
                found.push(index);
            },
            None => {
                proof {
                    assert(index_of(without(all[at as int], MINUS)).is_none());
                    assert(indices(all, at + 1).is_none());
                    lemma_indices_fail(all, at + 1, all.len() as int);
                }
                return None;
            },
        }
        at = at + 1;
    }
    if found.len() >= 3 {
        Some(Vec3u(found[0], found[1], found[2]))
    } else {
        None
    }
}

/// Once a part stands for no index, no longer run of parts gives indices.
proof fn lemma_indices_fail(parts: Seq<Seq<u8>>, n: int, m: int)
    requires
        0 <= n <= m,
        indices(parts, n).is_none(),
    ensures
        indices(parts, m).is_none(),
    decreases m - n,
{
    if n < m {
        lemma_indices_fail(parts, n, m - 1);
    }
}

/// Once a field that counts stands for no corner, no longer run of fields
/// gives corners.
proof fn lemma_corners_fail(all: Seq<Seq<u8>>, slashed: bool, n: int, m: int)
    requires
        0 <= n <= m,
        corners(all, slashed, n).is_none(),
    ensures
        corners(all, slashed, m).is_none(),
    decreases m - n,
{
    if n < m {
        lemma_corners_fail(all, slashed, n, m - 1);
    }
}

/// Reads the face that a face line describes.
pub fn parse_face(line: &[u8]) -> (face: Option<Vec<Vec3u>>)
    ensures
        face.is_some() == face_of(line@).is_some(),
        face.is_some() ==> face.unwrap()@ == face_of(line@).unwrap(),
{
    let found = split_fields(line);
    let ghost all = fields(line@);
    if found.len() < 2 {
        return None;
    }
    assert(all[1] == found@[1]@);
    proof {
        assert(found@[1]@.skip(0) =~= found@[1]@);
    }
    let slashed = find(found[1], 0, SLASH) < found[1].len();
    let mut read: Vec<Vec3u> = Vec::new();
    let mut at: usize = 0;
    while at < found.len()
        invariant
            at <= found@.len(),
            texts(found@) == all,
            all == fields(line@),
            all.len() >= 2,
            slashed == has_slash(all[1]),
            corners(all, slashed, at as int) == Some(read@),
        decreases found@.len() - at,
    {
        let field = found[at];
        assert(all[at as int] == field@);
        let stop = find(field, 0, SLASH);
        proof {
            assert(field@.skip(0) =~= field@);
        }
        if reads_as_int32(slice_subrange(field, 0, stop)) {
            let corner = if slashed {
                read_slashed_corner(field)
            } else {
                match read_index(field) {
                    Some(vertex) => Some(Vec3u(vertex, 0, 0)),
                    None => None,
                }
            };
            match corner {
                Some(corner) => {
                    read.push(corner);
                },
                None => {
                    proof {
                        assert(counts(all[at as int]));
                        assert(corner_of(all[at as int], slashed).is_none());
                        assert(corners(all, slashed, at + 1).is_none());
                        lemma_corners_fail(all, slashed, at + 1, all.len() as int);
                    }
                    return None;
                },
            }
        }
        at = at + 1;
    }
    if read.len() >= 3 {
        let mut face: Vec<Vec3u> = Vec::new();
        face.push(read[0]);
        face.push(read[1]);
        face.push(read[2]);
        assert(face@ =~= read@.take(3));
        Some(face)
    } else {
        None
    }
}

/// What a line of the file describes.
#[derive(Clone, Copy, Debug, PartialEq, Eq, Structural)]
pub enum LineKind {
    /// The position of a vertex: the line starts with `v` and a blank.
    Vertex,
    /// A texture coordinate: the line starts with `vt`.
    TexCoord,
    /// A face: the line starts with `f`.
    Face,
    /// Anything else, which a reader passes over.
    Other,
}

/// What the line describes, by its first two bytes.
pub open spec fn kind_of(line: Seq<u8>) -> LineKind {
    if line.len() >= 1 && line[0] == 102 {
        LineKind::Face
    } else if line.len() >= 2 && line[0] == 118 && line[1] == BLANK {
        LineKind::Vertex
    } else if line.len() >= 2 && line[0] == 118 && line[1] == 116 {
        LineKind::TexCoord
    } else {
        LineKind::Other
    }
}

/// Tells what the line describes.
pub fn line_kind(line: &[u8]) -> (kind: LineKind)
    ensures
        kind == kind_of(line@),
{
    if line.len() >= 1 && line[0] == 102 {
        LineKind::Face
    } else if line.len() >= 2 && line[0] == 118 && line[1] == BLANK {
        LineKind::Vertex
    } else if line.len() >= 2 && line[0] == 118 && line[1] == 116 {
        LineKind::TexCoord
    } else {
        LineKind::Other
    }
}

} // verus!
