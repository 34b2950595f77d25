//! Wavefront OBJ: the vertices and the triangles of a text file.

use crate::mesh::{triangle_in_range, triangles_in_range, Mesh, Position};
use crate::uv::Number;
use vstd::prelude::*;

verus! {

pub const SPACE: u8 = 32;

pub const NEWLINE: u8 = 10;

pub const RETURN: u8 = 13;

pub const SLASH: u8 = 47;

pub const PLUS: u8 = 43;

pub const ZERO: u8 = 48;

pub const NINE: u8 = 57;

pub const LETTER_V: u8 = 118;

pub const LETTER_F: u8 = 102;

/// What is wrong with a line.
#[derive(Debug, Clone, Copy, PartialEq, Eq, Structural)]
pub enum ObjErrorKind {
    /// A corner of a face is no whole number.
    BadIndex,
    /// A face has another number of corners than three.
    NotTriangle,
    /// A corner of a face is zero, though vertices are counted from one.
    ZeroIndex,
    /// A corner of a face names a vertex beyond the last of the file.
    OutOfRange,
}

/// Why a file could not be loaded: the line, counted from zero, and what is wrong with it.
#[derive(Debug, Clone, Copy, PartialEq, Eq, Structural)]
pub struct ObjError {
    pub line: usize,
    pub kind: ObjErrorKind,
}

/// What a line says.
#[derive(Debug, Clone, Copy, PartialEq, Eq, Structural)]
pub enum ObjLine {
    /// A vertex at the given place.
    Vertex(Position),
    /// A triangle between three vertices, counted from zero.
    Face(usize, usize, usize),
    /// Nothing that a mesh is made of.
    Other,
}

/// The end of the word that holds the byte at `pos`: the place of the next
/// space, or `end`.
pub open spec fn word_end(text: Seq<u8>, pos: int, end: int) -> int
    decreases end - pos,
{
    if pos >= end || text[pos] == SPACE {
        pos
    } else {
        word_end(text, pos + 1, end)
    }
}

/// The words between `pos` and `end`, each by its first byte and the place
/// after its last: the longest runs of bytes that are no spaces.
pub open spec fn words_from(text: Seq<u8>, pos: int, end: int) -> Seq<(usize, usize)>
    decreases end - pos,
{
    if pos >= end {
        Seq::empty()
    } else if text[pos] == SPACE {
        words_from(text, pos + 1, end)
    } else {
        let stop = word_end(text, pos, end);
        if stop <= pos || stop > end {
            Seq::empty()
        } else {
            seq![(pos as usize, stop as usize)] + words_from(text, stop, end)
        }
    }
}

/// A word ends after it starts, and not beyond `end`.
pub proof fn lemma_word_end(text: Seq<u8>, pos: int, end: int)
    requires
        pos <= end,
    ensures
        pos <= word_end(text, pos, end) <= end,
        pos < end && text[pos] != SPACE ==> pos < word_end(text, pos, end),
        forall|k: int| pos <= k < word_end(text, pos, end) ==> text[k] != SPACE,
        word_end(text, pos, end) < end ==> text[word_end(text, pos, end)] == SPACE,
    decreases end - pos,
{
    if pos < end && text[pos] != SPACE {
        lemma_word_end(text, pos + 1, end);
    }
}

/// The place of the first byte `mark` at or after `pos`, or the end of `text`.
pub open spec fn next_mark(text: Seq<u8>, pos: int, end: int, mark: u8) -> int
    decreases end - pos,
{
    if pos >= end || text[pos] == mark {
        pos
    } else {
        next_mark(text, pos + 1, end, mark)
    }
}

/// The number that decimal digits spell.
pub open spec fn decimal(digits: Seq<u8>) -> nat
    decreases digits.len(),
{
    if digits.len() == 0 {
        0
    } else {
        decimal(digits.drop_last()) * 10 + (digits.last() - ZERO) as nat
    }
}

/// Whether every byte is a decimal digit.
pub open spec fn all_digits(digits: Seq<u8>) -> bool {
    forall|i: int| 0 <= i < digits.len() ==> ZERO <= #[trigger] digits[i] <= NINE
}

/// The whole number that a word spells: decimal digits, at least one, which a
/// plus sign may precede. A number too large for the machine is none.
pub open spec fn index_value(word: Seq<u8>) -> Option<usize> {
    let digits = if word.len() > 0 && word[0] == PLUS {
        word.skip(1)
    } else {
        word
    };
    if digits.len() == 0 || !all_digits(digits) || decimal(digits) > usize::MAX {
        None
    } else {
        Some(decimal(digits) as usize)
    }
}

/// More digits never spell a smaller number.
pub proof fn lemma_decimal_grows(digits: Seq<u8>, n: int)
    requires
        0 <= n <= digits.len(),
        all_digits(digits),
    ensures
        decimal(digits.take(n)) <= decimal(digits),
    decreases digits.len() - n,
{
    if n < digits.len() {
        lemma_decimal_grows(digits, n + 1);
        assert(digits.take(n + 1).drop_last() == digits.take(n));
        assert(digits.take(n + 1).last() == digits[n]);
    } else {
        assert(digits.take(n) == digits);
    }
}

/// The place of the first byte `mark` between `pos` and `end`, or `end`.
fn find_mark(text: &[u8], pos: usize, end: usize, mark: u8) -> (at: usize)
    requires
        pos <= end <= text@.len(),
    ensures
        at == next_mark(text@, pos as int, end as int, mark),
        pos <= at <= end,
{
    let mut at = pos;
    while at < end && text[at] != mark
        invariant
            pos <= at <= end <= text@.len(),
            next_mark(text@, pos as int, end as int, mark) == next_mark(
                text@,
                at as int,
                end as int,
                mark,
            ),
        decreases end - at,
    {
        at += 1;
    }
    at
}

/// The whole number that the bytes from `start` to `end` spell.
#[verifier::loop_isolation(false)]
pub fn parse_index(text: &[u8], start: usize, end: usize) -> (index: Option<usize>)
    requires
        start <= end <= text@.len(),
    ensures
        index == index_value(text@.subrange(start as int, end as int)),
{
    let ghost word = text@.subrange(start as int, end as int);
    let first = if start < end && text[start] == PLUS {
        start + 1
    } else {
        start
    };
    let ghost digits = text@.subrange(first as int, end as int);
    proof {
        if start < end {
            assert(word[0] == text@[start as int]);
        }
        if first > start {
            assert(word.skip(1) == digits);
        } else {
            assert(word == digits);
        }
    }
    if first == end {
        return None;
    }
    let mut value: usize = 0;
    let mut i: usize = first;
    assert(digits.take(0) == Seq::<u8>::empty());
    while i < end
        invariant
            first <= i <= end <= text@.len(),
            digits == text@.subrange(first as int, end as int),
            all_digits(digits.take(i - first)),
            value == decimal(digits.take(i - first)),
        decreases end - i,
    {
        let byte = text[i];
        proof {
            assert(digits[i - first] == byte);
            assert(digits.take(i - first + 1).drop_last() == digits.take(i - first));
            assert(digits.take(i - first + 1).last() == byte);
        }
        if byte < ZERO || byte > NINE {
            return None;
        }
        let digit = (byte - ZERO) as usize;
        if value > (usize::MAX - digit) / 10 {
            proof {
                if all_digits(digits) {
                    lemma_decimal_grows(digits, i - first + 1);
                }
            }
            return None;
        }
        value = value * 10 + digit;
        proof {
            assert forall|k: int| 0 <= k < i - first + 1 implies ZERO <= #[trigger] (digits.take(
                i - first + 1,
            )[k]) <= NINE by {
                if k < i - first {
                    assert(digits.take(i - first)[k] == digits.take(i - first + 1)[k]);
                }
            }
        }
        i += 1;
    }
    assert(digits.take(end - first) == digits);
    Some(value)
}

/// The words of a line that runs from `start` to `end`.
pub fn split_words(text: &[u8], start: usize, end: usize) -> (words: Vec<(usize, usize)>)
    requires
        start <= end <= text@.len(),
    ensures
        words@ == words_from(text@, start as int, end as int),
        forall|i: int|
            0 <= i < words@.len() ==> start <= (#[trigger] words@[i]).0 < words@[i].1 <= end,
{
    let mut words: Vec<(usize, usize)> = Vec::new();
    let mut pos = start;
    assert(words@ + words_from(text@, start as int, end as int) == words_from(
        text@,
        start as int,
        end as int,
    ));
    while pos < end
        invariant
            start <= pos <= end <= text@.len(),
            words_from(text@, start as int, end as int) == words@ + words_from(
                text@,
                pos as int,
                end as int,
            ),
            forall|i: int|
                0 <= i < words@.len() ==> start <= (#[trigger] words@[i]).0 < words@[i].1 <= end,
        decreases end - pos,
    {
        if text[pos] == SPACE {
            pos += 1;
        } else {
            let ghost before = words@;
            let stop = find_mark(text, pos, end, SPACE);
            proof {
                lemma_word_end(text@, pos as int, end as int);
                lemma_word_end_is_next_mark(text@, pos as int, end as int);
                let rest = words_from(text@, stop as int, end as int);
                assert(before + (seq![(pos, stop)] + rest) == before.push((pos, stop)) + rest);
            }
            words.push((pos, stop));
            pos = stop;
        }
    }
    assert(words@ + Seq::<(usize, usize)>::empty() == words@);
    words
}

/// The end of a word is the place of the next space.
pub proof fn lemma_word_end_is_next_mark(text: Seq<u8>, pos: int, end: int)
    ensures
        word_end(text, pos, end) == next_mark(text, pos, end, SPACE),
    decreases end - pos,
{
    if pos < end && text[pos] != SPACE {
        lemma_word_end_is_next_mark(text, pos + 1, end);
    }
}

/// The part of a corner of a face that names its vertex: the word up to its first slash.
pub open spec fn corner_word(text: Seq<u8>, word: (usize, usize)) -> Seq<u8> {
    text.subrange(word.0 as int, next_mark(text, word.0 as int, word.1 as int, SLASH))
}

/// The first of the corners from `from` on that is no whole number, if there is one.
pub open spec fn bad_corner(text: Seq<u8>, words: Seq<(usize, usize)>) -> bool {
    exists|i: int| 1 <= i < words.len() && index_value(corner_word(text, #[trigger] words[i])) is None
}

/// What a line of the given words says. A line of `v` and three or four more
/// words is a vertex at the first three of them. A line that starts with `f`
/// is a face, and the rest of its words are its corners. Any other line says
/// nothing.
pub open spec fn line_item(text: Seq<u8>, words: Seq<(usize, usize)>) -> Result<
    ObjLine,
    ObjErrorKind,
> {
    if words.len() == 0 {
        Ok(ObjLine::Other)
    } else {
        let head = text.subrange(words[0].0 as int, words[0].1 as int);
        if head == seq![LETTER_V] && (words.len() == 4 || words.len() == 5) {
            Ok(
                ObjLine::Vertex(
                    Position {
                        x: Number::Text { start: words[1].0, end: words[1].1 },
                        y: Number::Text { start: words[2].0, end: words[2].1 },
                        z: Number::Text { start: words[3].0, end: words[3].1 },
                    },
                ),
            )
        } else if head == seq![LETTER_F] {
            if bad_corner(text, words) {
                Err(ObjErrorKind::BadIndex)
            } else if words.len() != 4 {
                Err(ObjErrorKind::NotTriangle)
            } else {
                let a = index_value(corner_word(text, words[1]))->0;
                let b = index_value(corner_word(text, words[2]))->0;
                let c = index_value(corner_word(text, words[3]))->0;
                if a == 0 || b == 0 || c == 0 {
                    Err(ObjErrorKind::ZeroIndex)
                } else {
                    Ok(ObjLine::Face((a - 1) as usize, (b - 1) as usize, (c - 1) as usize))
                }
            }
        } else {
            Ok(ObjLine::Other)
        }
    }
}

/// Tells whether the word is the one letter `letter`.
fn is_letter(text: &[u8], word: (usize, usize), letter: u8) -> (yes: bool)
    requires
        word.0 < word.1 <= text@.len(),
    ensures
        yes == (text@.subrange(word.0 as int, word.1 as int) == seq![letter]),
{
    let ghost head = text@.subrange(word.0 as int, word.1 as int);
    let yes = word.1 - word.0 == 1 && text[word.0] == letter;
    proof {
        if yes {
            assert(head =~= seq![letter]);
        } else if word.1 - word.0 == 1 {
            assert(head[0] == text@[word.0 as int]);
            assert(seq![letter][0] == letter);
        } else {
            assert(seq![letter].len() == 1);
        }
    }
    yes
}

/// What the line of the given words says.
#[verifier::loop_isolation(false)]
pub fn parse_line(text: &[u8], words: &Vec<(usize, usize)>) -> (r: Result<ObjLine, ObjErrorKind>)
    requires
        forall|i: int|
            0 <= i < words@.len() ==> (#[trigger] words@[i]).0 < words@[i].1 <= text@.len(),
    ensures
        r == line_item(text@, words@),
{
    if words.len() == 0 {
        return Ok(ObjLine::Other);
    }
    if is_letter(text, words[0], LETTER_V) && (words.len() == 4 || words.len() == 5) {
        return Ok(
            ObjLine::Vertex(
                Position::new(
                    Number::Text { start: words[1].0, end: words[1].1 },
                    Number::Text { start: words[2].0, end: words[2].1 },
                    Number::Text { start: words[3].0, end: words[3].1 },
                ),
            ),
        );
    }
    if !is_letter(text, words[0], LETTER_F) {
        return Ok(ObjLine::Other);
    }
    let mut corners: Vec<usize> = Vec::new();
    let mut i: usize = 1;
    while i < words.len()
        invariant
            1 <= i <= words.len(),
            corners@.len() == i - 1,
            forall|k: int|
                0 <= k < words@.len() ==> (#[trigger] words@[k]).0 < words@[k].1 <= text@.len(),
            forall|k: int|
                1 <= k < i ==> index_value(corner_word(text@, #[trigger] words@[k])) == Some(
                    corners@[k - 1],
                ),
        decreases words.len() - i,
    {
        let word = words[i];
        let stop = find_mark(text, word.0, word.1, SLASH);
        match parse_index(text, word.0, stop) {
            Some(corner) => {
                corners.push(corner);
            },
            None => {
                return Err(ObjErrorKind::BadIndex);
            },
        }
        i += 1;
    }
    if corners.len() != 3 {
        return Err(ObjErrorKind::NotTriangle);
    }
    if corners[0] == 0 || corners[1] == 0 || corners[2] == 0 {
        return Err(ObjErrorKind::ZeroIndex);
    }
    Ok(ObjLine::Face(corners[0] - 1, corners[1] - 1, corners[2] - 1))
}

/// The end of the line that starts at `pos` and has its line feed at `feed`,
/// or none where `feed` is the end: a carriage return right before the line
/// feed is no part of the line.
pub open spec fn line_end(text: Seq<u8>, pos: int, feed: int) -> int {
    if feed < text.len() && pos < feed && text[feed - 1] == RETURN {
        feed - 1
    } else {
        feed
    }
}

/// The vertices and the triangles of a file, in its order, and for each
/// triangle the line that it stands in.
pub struct Parts {
    pub vertices: Seq<Position>,
    pub faces: Seq<(usize, usize, usize)>,
    pub face_lines: Seq<usize>,
}

/// The vertices and the triangles that were read from a file.
#[derive(Debug)]
pub struct ObjData {
    pub vertices: Vec<Position>,
    pub faces: Vec<(usize, usize, usize)>,
    pub face_lines: Vec<usize>,
}

impl View for ObjData {
    type V = Parts;

    open spec fn view(&self) -> Parts {
        Parts { vertices: self.vertices@, faces: self.faces@, face_lines: self.face_lines@ }
    }
}

/// A file without lines.
pub open spec fn no_parts() -> Parts {
    Parts { vertices: Seq::empty(), faces: Seq::empty(), face_lines: Seq::empty() }
}

/// `parts` with what the line of the given number says added to it.
pub open spec fn add_item(parts: Parts, item: ObjLine, line: usize) -> Parts {
    match item {
        ObjLine::Vertex(position) => Parts { vertices: parts.vertices.push(position), ..parts },
        ObjLine::Face(a, b, c) => Parts {
            faces: parts.faces.push((a, b, c)),
            face_lines: parts.face_lines.push(line),
            ..parts
        },
        ObjLine::Other => parts,
    }
}

/// What the lines from the place `pos` on add to `parts`, where `line` counts
/// the lines before. The first line that is wrong is the error.
pub open spec fn load_from(text: Seq<u8>, pos: int, line: usize, parts: Parts) -> Result<
    Parts,
    ObjError,
>
    decreases text.len() - pos,
{
    if pos < 0 || pos >= text.len() {
        Ok(parts)
    } else {
        let feed = next_mark(text, pos, text.len() as int, NEWLINE);
        match line_item(text, words_from(text, pos, line_end(text, pos, feed))) {
            Err(kind) => Err(ObjError { line, kind }),
            Ok(item) => if feed < pos || feed >= text.len() {
                Ok(add_item(parts, item, line))
            } else {
                load_from(text, feed + 1, (line + 1) as usize, add_item(parts, item, line))
            },
        }
    }
}

/// The vertices and the triangles of a file, whether or not the triangles
/// name vertices that the file has.
#[verifier::loop_isolation(false)]
pub fn read_lines(text: &[u8]) -> (r: Result<ObjData, ObjError>)
    ensures
        match r {
            Ok(data) => load_from(text@, 0, 0, no_parts()) == Ok::<_, ObjError>(data@)
                && data.face_lines@.len() == data.faces@.len(),
            Err(e) => load_from(text@, 0, 0, no_parts()) == Err::<Parts, _>(e),
        },
{
    let mut data = ObjData { vertices: Vec::new(), faces: Vec::new(), face_lines: Vec::new() };
    let mut pos: usize = 0;
    let mut line: usize = 0;
    while pos < text.len()
        invariant
            line <= pos,
            data.face_lines@.len() == data.faces@.len(),
            load_from(text@, 0, 0, no_parts()) == load_from(text@, pos as int, line, data@),
        decreases text.len() - pos,
    {
        let feed = find_mark(text, pos, text.len(), NEWLINE);
        let end = if feed < text.len() && pos < feed && text[feed - 1] == RETURN {
            feed - 1
        } else {
            feed
        };
        let words = split_words(text, pos, end);
        match parse_line(text, &words) {
            Err(kind) => {
                return Err(ObjError { line, kind });
            },
            Ok(ObjLine::Vertex(position)) => {
                data.vertices.push(position);
            },
            Ok(ObjLine::Face(a, b, c)) => {
                data.faces.push((a, b, c));
                data.face_lines.push(line);
            },
            Ok(ObjLine::Other) => {},
        }
        if feed == text.len() {
            pos = feed;
        } else {
            pos = feed + 1;
        }
        line += 1;
    }
    Ok(data)
}

/// The place of the first of `faces`, from `from` on, that names a vertex
/// beyond the `count` that there are; the number of faces where there is none.
pub open spec fn first_out_of_range(faces: Seq<(usize, usize, usize)>, count: int, from: int) -> int
    decreases faces.len() - from,
{
    if from < 0 || from >= faces.len() {
        faces.len() as int
    } else if !triangle_in_range(faces[from], count) {
        from
    } else {
        first_out_of_range(faces, count, from + 1)
    }
}

/// Where no face is out of range, every face is in range.
pub proof fn lemma_first_out_of_range(faces: Seq<(usize, usize, usize)>, count: int, from: int)
    requires
        0 <= from <= faces.len(),
    ensures
        from <= first_out_of_range(faces, count, from) <= faces.len(),
        forall|i: int|
            from <= i < first_out_of_range(faces, count, from) ==> triangle_in_range(
                #[trigger] faces[i],
                count,
            ),
        first_out_of_range(faces, count, from) < faces.len() ==> !triangle_in_range(
            faces[first_out_of_range(faces, count, from)],
            count,
        ),
    decreases faces.len() - from,
{
    if from < faces.len() && triangle_in_range(faces[from], count) {
        lemma_first_out_of_range(faces, count, from + 1);
    }
}

/// The mesh that a file describes. After the last line, the first face that
/// names a vertex beyond the last of the file is an error, at the line of that face.
pub open spec fn obj_mesh(text: Seq<u8>) -> Result<Parts, ObjError> {
    match load_from(text, 0, 0, no_parts()) {
        Err(e) => Err(e),
        Ok(parts) => {
            let bad = first_out_of_range(parts.faces, parts.vertices.len() as int, 0);
            if bad < parts.faces.len() {
                Err(ObjError { line: parts.face_lines[bad], kind: ObjErrorKind::OutOfRange })
            } else {
                Ok(parts)
            }
        },
    }
}

/// The mesh that a file describes: its vertices, whose coordinates are left as
/// the text that they are, and its triangles, each of which names vertices of
/// the file. Every texture coordinate is zero, and the material is the first
/// of the scene. A face may stand before the vertices that it names.
#[verifier::loop_isolation(false)]
pub fn load_mesh(text: &[u8]) -> (r: Result<Mesh, ObjError>)
    ensures
        match r {
            Ok(mesh) => {
                &&& obj_mesh(text@) matches Ok(parts) && parts.vertices == mesh.position@
                    && parts.faces == mesh.indices@
                &&& mesh.material_index == 0
                &&& mesh.texcoord@ == Seq::new(mesh.position@.len(), |i: int| crate::uv::Uv::zero())
                &&& mesh.well_formed()
            },
            Err(e) => obj_mesh(text@) == Err::<Parts, _>(e),
        },
{
    let data = match read_lines(text) {
        Ok(data) => data,
        Err(e) => {
            return Err(e);
        },
    };
    let count = data.vertices.len();
    let mut i: usize = 0;
    while i < data.faces.len()
        invariant
            i <= data.faces.len(),
            first_out_of_range(data.faces@, count as int, 0) == first_out_of_range(
                data.faces@,
                count as int,
                i as int,
            ),
        decreases data.faces.len() - i,
    {
        let face = data.faces[i];
        if face.0 >= count || face.1 >= count || face.2 >= count {
            return Err(ObjError { line: data.face_lines[i], kind: ObjErrorKind::OutOfRange });
        }
        i += 1;
    }
    proof {
        lemma_first_out_of_range(data.faces@, count as int, 0);
    }
    Ok(Mesh::new(0, data.vertices, None, data.faces))
}

} // verus!
