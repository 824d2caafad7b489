//! The text of a Wavefront OBJ file, line by line: faces with their vertex,
//! texture and normal indices, the material in force, and the numbers of each
//! vertex line as they are written.

use crate::text::{
    fields, is_number, is_number_text, parse_usize, same_text, usize_of, words, Fields, Words,
};
use crate::wavefront_mtl::{last_place, WavefrontMtl, WavefrontMtlView};
use vstd::prelude::*;

verus! {

/// The one error of reading an OBJ or MTL file: a line does not have the
/// shape that its first word asks for, a face stands under a material that
/// no library defines, or a face with texture coordinates stands under no
/// material at all.
#[derive(Debug, Clone, Copy, PartialEq, Eq)]
pub struct FileError {}

impl FileError {
    /// The name under which the error is reported.
    pub fn description(&self) -> (text: &'static str)
        ensures
            text@ == "WavefrontObjFileError"@,
    {
        "WavefrontObjFileError"
    }
}

/// What was read where there is something, and the error where there is
/// nothing.
pub open spec fn or_file_error<T>(read: Option<T>) -> Result<T, FileError> {
    match read {
        Some(value) => Ok(value),
        None => Err(FileError {}),
    }
}

/// Three indices, one for each corner of a face.
#[derive(Debug, Clone, Copy, PartialEq, Eq)]
pub struct VertIndex {
    pub x: usize,
    pub y: usize,
    pub z: usize,
}

/// One corner of a face as written, `v`, `v/t`, `v//n` or `v/t/n`: the index
/// of its position and, where given, of its texture coordinate and normal.
#[derive(Debug, Clone, Copy, PartialEq, Eq)]
pub struct VertDefinition {
    pub v: usize,
    pub t: Option<usize>,
    pub n: Option<usize>,
}

/// A triangular face: the indices of its three positions, of its texture
/// coordinates and normals where all three corners give them, and the
/// material in force where the face stands. Indices count from one.
#[derive(Debug, Clone, PartialEq, Eq)]
pub struct Face {
    pub v: VertIndex,
    pub vt: Option<VertIndex>,
    pub vn: Option<VertIndex>,
    pub usemtl: Option<String>,
}

/// What a `Face` holds, with the material's name as a sequence of
/// characters.
pub struct FaceView {
    pub v: VertIndex,
    pub vt: Option<VertIndex>,
    pub vn: Option<VertIndex>,
    pub usemtl: Option<Seq<char>>,
}

/// The characters of a name that may be absent.
pub open spec fn name_view(name: Option<String>) -> Option<Seq<char>> {
    match name {
        Some(name) => Some(name@),
        None => None,
    }
}

impl View for Face {
    type V = FaceView;

    open spec fn view(&self) -> FaceView {
        FaceView { v: self.v, vt: self.vt, vn: self.vn, usemtl: name_view(self.usemtl) }
    }
}

/// The index that piece `i` of a corner writes: none where the piece is
/// missing or empty, and no result at all where it is not a number.
pub open spec fn optional_index(pieces: Seq<Seq<char>>, i: int) -> Option<Option<usize>> {
    if i >= pieces.len() || pieces[i].len() == 0 {
        Some(None)
    } else if usize_of(pieces[i]) is Some {
        Some(usize_of(pieces[i]))
    } else {
        None
    }
}

/// The corner that `definition` writes, if it writes one: its pieces between
/// slashes are a position index, then an optional texture index, then an
/// optional normal index. Further pieces are not looked at.
pub open spec fn vert_definition_of(definition: Seq<char>) -> Option<VertDefinition> {
    let pieces = fields(definition, '/');
    let v = usize_of(pieces[0]);
    let t = optional_index(pieces, 1);
    let n = optional_index(pieces, 2);
    if v is Some && t is Some && n is Some {
        Some(VertDefinition { v: v.unwrap(), t: t.unwrap(), n: n.unwrap() })
    } else {
        None
    }
}

/// The three indices of one kind that the corners of a face give: all
/// three, or none where no corner gives one. A face where only some corners
/// give one has no result.
pub open spec fn uniform_indices(
    a: Option<usize>,
    b: Option<usize>,
    c: Option<usize>,
) -> Option<Option<VertIndex>> {
    if a is Some && b is Some && c is Some {
        Some(Some(VertIndex { x: a.unwrap(), y: b.unwrap(), z: c.unwrap() }))
    } else if a is None && b is None && c is None {
        Some(None)
    } else {
        None
    }
}

/// The face that the first three of `corners` write under the material
/// `usemtl`, if they write one.
pub open spec fn face_of(corners: Seq<Seq<char>>, usemtl: Option<Seq<char>>) -> Option<FaceView> {
    if corners.len() < 3 {
        None
    } else {
        let a = vert_definition_of(corners[0]);
        let b = vert_definition_of(corners[1]);
        let c = vert_definition_of(corners[2]);
        if a is Some && b is Some && c is Some {
            let (a, b, c) = (a.unwrap(), b.unwrap(), c.unwrap());
            let vt = uniform_indices(a.t, b.t, c.t);
            let vn = uniform_indices(a.n, b.n, c.n);
            if vt is Some && vn is Some {
                Some(
                    FaceView {
                        v: VertIndex { x: a.v, y: b.v, z: c.v },
                        vt: vt.unwrap(),
                        vn: vn.unwrap(),
                        usemtl,
                    },
                )
            } else {
                None
            }
        } else {
            None
        }
    }
}

/// How many of `corners` are taken while a face is read: up to three, and
/// none after the first that is not a corner.
pub open spec fn face_words_read(corners: Seq<Seq<char>>) -> int {
    if corners.len() == 0 {
        0
    } else if corners.len() == 1 || vert_definition_of(corners[0]) is None {
        1
    } else if corners.len() == 2 || vert_definition_of(corners[1]) is None {
        2
    } else {
        3
    }
}

/// Takes the next word as it stands.
pub fn expect_string(words: &mut Words) -> (result: Result<String, FileError>)
    ensures
        old(words)@.len() == 0 ==> result is Err && final(words)@ == old(words)@,
        old(words)@.len() > 0 ==> (result matches Ok(word) && word@ == old(words)@[0])
            && final(words)@ == old(words)@.drop_first(),
{
    match words.next() {
        Some(word) => Ok(word.to_owned()),
        None => Err(FileError {}),
    }
}

/// What is left of `words` once up to `count` of them are taken.
pub open spec fn rest_after(words: Seq<Seq<char>>, count: int) -> Seq<Seq<char>> {
    if count < words.len() {
        words.skip(count)
    } else {
        Seq::empty()
    }
}

/// Whether the first `count` of `words` are there and are numbers.
pub open spec fn are_numbers(words: Seq<Seq<char>>, count: int) -> bool {
    &&& words.len() >= count
    &&& forall|i: int| 0 <= i < count ==> is_number(#[trigger] words[i])
}

/// How many of `words` are taken while `count` numbers, three at most, are
/// read: up to `count`, and none after the first that is no number.
pub open spec fn numbers_read(words: Seq<Seq<char>>, count: int) -> int {
    if count <= 0 || words.len() == 0 {
        0
    } else if count == 1 || words.len() == 1 || !is_number(words[0]) {
        1
    } else if count == 2 || words.len() == 2 || !is_number(words[1]) {
        2
    } else {
        3
    }
}

/// Takes the next word, which has to be a number, as it is written.
pub fn expect_number(words: &mut Words) -> (result: Result<String, FileError>)
    ensures
        final(words)@ == rest_after(old(words)@, 1),
        are_numbers(old(words)@, 1) ==> (result matches Ok(number) && number@ == old(words)@[0]),
        !are_numbers(old(words)@, 1) ==> result is Err,
{
    let ghost before = words@;
    match words.next() {
        Some(word) => {
            assert(words@ =~= rest_after(before, 1));
            if is_number_text(word) {
                Ok(word.to_owned())
            } else {
                Err(FileError {})
            }
        },
        None => {
            assert(words@ =~= rest_after(before, 1));
            Err(FileError {})
        },
    }
}

/// Takes the next two words, the two numbers of a texture coordinate or of a
/// normal, as they are written.
pub fn expect_xy(words: &mut Words) -> (result: Result<(String, String), FileError>)
    ensures
        final(words)@ == rest_after(old(words)@, numbers_read(old(words)@, 2)),
        are_numbers(old(words)@, 2) ==> (result matches Ok(pair) && pair.0@ == old(words)@[0]
            && pair.1@ == old(words)@[1]),
        !are_numbers(old(words)@, 2) ==> result is Err,
{
    let ghost before = words@;
    let x = match expect_number(words) {
        Ok(x) => x,
        Err(error) => {
            assert(words@ =~= rest_after(before, numbers_read(before, 2)));
            return Err(error);
        },
    };
    let ghost after_one = words@;
    let y = match expect_number(words) {
        Ok(y) => y,
        Err(error) => {
            assert(after_one.len() > 0 ==> after_one[0] == before[1]);
            assert(words@ =~= rest_after(before, numbers_read(before, 2)));
            return Err(error);
        },
    };
    assert(after_one[0] == before[1]);
    assert(words@ =~= rest_after(before, numbers_read(before, 2)));
    Ok((x, y))
}

/// Takes the next three words, the three numbers of a position or of a
/// colour, as they are written.
pub fn expect_xyz(words: &mut Words) -> (result: Result<(String, String, String), FileError>)
    ensures
        final(words)@ == rest_after(old(words)@, numbers_read(old(words)@, 3)),
        are_numbers(old(words)@, 3) ==> (result matches Ok(triple) && triple.0@ == old(words)@[0]
            && triple.1@ == old(words)@[1] && triple.2@ == old(words)@[2]),
        !are_numbers(old(words)@, 3) ==> result is Err,
{
    let ghost before = words@;
    let x = match expect_number(words) {
        Ok(x) => x,
        Err(error) => {
            assert(words@ =~= rest_after(before, numbers_read(before, 3)));
            return Err(error);
        },
    };
    let ghost after_one = words@;
    let y = match expect_number(words) {
        Ok(y) => y,
        Err(error) => {
            assert(after_one.len() > 0 ==> after_one[0] == before[1]);
            assert(words@ =~= rest_after(before, numbers_read(before, 3)));
            return Err(error);
        },
    };
    assert(after_one[0] == before[1]);
    let ghost after_two = words@;
    let z = match expect_number(words) {
        Ok(z) => z,
        Err(error) => {
            assert(after_two.len() > 0 ==> after_two[0] == before[2]);
            assert(words@ =~= rest_after(before, numbers_read(before, 3)));
            return Err(error);
        },
    };
    assert(after_two[0] == before[2]);
    assert(words@ =~= rest_after(before, numbers_read(before, 3)));
    Ok((x, y, z))
}

/// Takes the next piece, which has to be a number.
pub fn expect_usize(split: &mut Fields) -> (result: Result<usize, FileError>)
    ensures
        final(split)@ == rest_after(old(split)@, 1),
        old(split)@.len() == 0 ==> result is Err,
        old(split)@.len() > 0 ==> result == or_file_error(usize_of(old(split)@[0])),
{
    let ghost before = split@;
    match split.next() {
        Some(piece) => {
            assert(split@ =~= rest_after(before, 1));
            match parse_usize(piece) {
                Some(value) => Ok(value),
                None => Err(FileError {}),
            }
        },
        None => {
            assert(split@ =~= rest_after(before, 1));
            Err(FileError {})
        },
    }
}

/// Takes the next piece, which has to be a number where there is one and it
/// is not empty.
pub fn maybe_usize(split: &mut Fields) -> (result: Result<Option<usize>, FileError>)
    ensures
        final(split)@ == rest_after(old(split)@, 1),
        result == or_file_error(optional_index(old(split)@, 0)),
{
    let ghost before = split@;
    match split.next() {
        Some(piece) => {
            assert(split@ =~= rest_after(before, 1));
            if piece.is_empty() {
                Ok(None)
            } else {
                match parse_usize(piece) {
                    Some(value) => Ok(Some(value)),
                    None => Err(FileError {}),
                }
            }
        },
        None => {
            assert(split@ =~= rest_after(before, 1));
            Ok(None)
        },
    }
}

/// Reads one corner of a face.
pub fn expect_vert_face_definition(definition: &str) -> (result: Result<VertDefinition, FileError>)
    ensures
        result == or_file_error(vert_definition_of(definition@)),
{
    let mut split = Fields::new(definition, '/');
    let ghost pieces = split@;
    proof {
        crate::text::lemma_fields_nonempty(definition@, '/', 0);
    }
    let v = match expect_usize(&mut split) {
        Ok(v) => v,
        Err(error) => {
            return Err(error);
        },
    };
    assert(split@ =~= pieces.skip(1)) by {
        if pieces.len() > 1 {
        } else {
            assert(pieces.skip(1) =~= Seq::<Seq<char>>::empty());
        }
    }
    assert(optional_index(split@, 0) == optional_index(pieces, 1));
    let t = match maybe_usize(&mut split) {
        Ok(t) => t,
        Err(error) => {
            return Err(error);
        },
    };
    assert(optional_index(split@, 0) == optional_index(pieces, 2)) by {
        if pieces.len() > 2 {
            assert(split@ =~= pieces.skip(2));
        }
    }
    let n = match maybe_usize(&mut split) {
        Ok(n) => n,
        Err(error) => {
            return Err(error);
        },
    };
    Ok(VertDefinition { v, t, n })
}

/// Takes the next word and reads it as one corner of a face.
fn expect_corner(words: &mut Words) -> (result: Result<VertDefinition, FileError>)
    ensures
        final(words)@ == rest_after(old(words)@, 1),
        old(words)@.len() == 0 ==> result is Err,
        old(words)@.len() > 0 ==> result == or_file_error(vert_definition_of(old(words)@[0])),
{
    let ghost before = words@;
    match words.next() {
        Some(word) => {
            assert(words@ =~= rest_after(before, 1));
            expect_vert_face_definition(word)
        },
        None => {
            assert(words@ =~= rest_after(before, 1));
            Err(FileError {})
        },
    }
}

/// The three indices of one kind that the corners of a face give, where all
/// three or none of the corners give one.
fn uniform(
    a: Option<usize>,
    b: Option<usize>,
    c: Option<usize>,
) -> (result: Result<Option<VertIndex>, FileError>)
    ensures
        result == or_file_error(uniform_indices(a, b, c)),
{
    match (a, b, c) {
        (Some(x), Some(y), Some(z)) => Ok(Some(VertIndex { x, y, z })),
        (None, None, None) => Ok(None),
        _ => Err(FileError {}),
    }
}

/// Reads a face from the next three words, each one corner, and puts it
/// under the material `usemtl`. The corners have to agree on whether they
/// give a texture coordinate and on whether they give a normal.
pub fn expect_face(words: &mut Words, usemtl: Option<String>) -> (result: Result<Face, FileError>)
    ensures
        final(words)@ == rest_after(old(words)@, face_words_read(old(words)@)),
        result matches Ok(face) ==> face_of(old(words)@, name_view(usemtl)) == Some(face@)
            && face.usemtl == usemtl,
        result is Err ==> face_of(old(words)@, name_view(usemtl)) is None,
{
    let ghost before = words@;
    let v1 = match expect_corner(words) {
        Ok(corner) => corner,
        Err(error) => {
            assert(words@ =~= rest_after(before, face_words_read(before)));
            return Err(error);
        },
    };
    let ghost after_one = words@;
    let v2 = match expect_corner(words) {
        Ok(corner) => corner,
        Err(error) => {
            assert(words@ =~= rest_after(before, face_words_read(before)));
            return Err(error);
        },
    };
    assert(after_one[0] == before[1]);
    let ghost after_two = words@;
    let v3 = match expect_corner(words) {
        Ok(corner) => corner,
        Err(error) => {
            assert(words@ =~= rest_after(before, face_words_read(before)));
            return Err(error);
        },
    };
    assert(after_two[0] == before[2]);
    assert(words@ =~= rest_after(before, face_words_read(before)));
    let vt = match uniform(v1.t, v2.t, v3.t) {
        Ok(vt) => vt,
        Err(error) => {
            return Err(error);
        },
    };
    let vn = match uniform(v1.n, v2.n, v3.n) {
        Ok(vn) => vn,
        Err(error) => {
            return Err(error);
        },
    };
    Ok(Face { v: VertIndex { x: v1.v, y: v2.v, z: v3.v }, vt, vn, usemtl })
}

/// What the caller has to do with a line once it has been read: nothing,
/// load the material library that the line names, or take the numbers of a
/// position, a texture coordinate or a normal, each as it is written.
#[derive(Debug, Clone, PartialEq, Eq)]
pub enum ObjAction {
    Nothing,
    LoadLibrary(String),
    Vertex(String, String, String),
    Texture(String, String),
    Normal(String, String),
}

/// What an `ObjAction` holds, with each text as a sequence of characters.
pub enum ObjActionView {
    Nothing,
    LoadLibrary(Seq<char>),
    Vertex(Seq<char>, Seq<char>, Seq<char>),
    Texture(Seq<char>, Seq<char>),
    Normal(Seq<char>, Seq<char>),
}

impl View for ObjAction {
    type V = ObjActionView;

    open spec fn view(&self) -> ObjActionView {
        match *self {
            ObjAction::Nothing => ObjActionView::Nothing,
            ObjAction::LoadLibrary(file) => ObjActionView::LoadLibrary(file@),
            ObjAction::Vertex(x, y, z) => ObjActionView::Vertex(x@, y@, z@),
            ObjAction::Texture(x, y) => ObjActionView::Texture(x@, y@),
            ObjAction::Normal(x, y) => ObjActionView::Normal(x@, y@),
        }
    }
}

/// What has been gathered from the lines of an OBJ file read so far: the
/// material in force and the faces, in the order of the file.
#[derive(Debug, Clone, PartialEq, Eq)]
pub struct ObjReader {
    pub usemtl: Option<String>,
    pub faces: Vec<Face>,
}

/// What an `ObjReader` holds, as sequences.
pub struct ObjReaderView {
    pub usemtl: Option<Seq<char>>,
    pub faces: Seq<FaceView>,
}

impl View for ObjReader {
    type V = ObjReaderView;

    open spec fn view(&self) -> ObjReaderView {
        ObjReaderView {
            usemtl: name_view(self.usemtl),
            faces: self.faces@.map_values(|face: Face| face@),
        }
    }
}

/// What one line does to the state of the reader, and what it leaves for the
/// caller to do. A line is known by its first word. `mtllib` and `usemtl`
/// need a name, `v` three numbers, `vt` and `vn` two, `f` three corners; a
/// line that falls short of that has no result. What follows on the line is
/// not looked at. Any other line, an empty one too, changes nothing and asks
/// for nothing.
pub open spec fn obj_line(
    state: ObjReaderView,
    line: Seq<char>,
) -> Option<(ObjReaderView, ObjActionView)> {
    let w = words(line);
    if w.len() == 0 {
        Some((state, ObjActionView::Nothing))
    } else if w[0] == "mtllib"@ {
        if w.len() >= 2 {
            Some((state, ObjActionView::LoadLibrary(w[1])))
        } else {
            None
        }
    } else if w[0] == "usemtl"@ {
        if w.len() >= 2 {
            Some(
                (
                    ObjReaderView { usemtl: Some(w[1]), faces: state.faces },
                    ObjActionView::Nothing,
                ),
            )
        } else {
            None
        }
    } else if w[0] == "v"@ {
        if are_numbers(w.skip(1), 3) {
            Some((state, ObjActionView::Vertex(w[1], w[2], w[3])))
        } else {
            None
        }
    } else if w[0] == "vt"@ {
        if are_numbers(w.skip(1), 2) {
            Some((state, ObjActionView::Texture(w[1], w[2])))
        } else {
            None
        }
    } else if w[0] == "vn"@ {
        if are_numbers(w.skip(1), 2) {
            Some((state, ObjActionView::Normal(w[1], w[2])))
        } else {
            None
        }
    } else if w[0] == "f"@ {
        match face_of(w.skip(1), state.usemtl) {
            Some(face) => Some(
                (
                    ObjReaderView { usemtl: state.usemtl, faces: state.faces.push(face) },
                    ObjActionView::Nothing,
                ),
            ),
            None => None,
        }
    } else {
        Some((state, ObjActionView::Nothing))
    }
}

/// A copy of a name that may be absent.
fn clone_name(name: &Option<String>) -> (copy: Option<String>)
    ensures
        copy == *name,
{
    match name {
        Some(name) => Some(name.clone()),
        None => None,
    }
}

impl ObjReader {
    /// A reader that has seen no line: no material in force, no face.
    pub fn new() -> (reader: ObjReader)
        ensures
            reader@ == (ObjReaderView { usemtl: None, faces: Seq::empty() }),
    {
        let reader = ObjReader { usemtl: None, faces: Vec::new() };
        assert(reader@.faces =~= Seq::empty());
        reader
    }

    /// Reads the next line of the file. A line that cannot be read leaves the
    /// reader as it was.
    pub fn read_line(&mut self, line: &str) -> (result: Result<ObjAction, FileError>)
        ensures
            result matches Ok(action) ==> obj_line(old(self)@, line@) == Some(
                (final(self)@, action@),
            ),
            result is Err ==> obj_line(old(self)@, line@) is None && *final(self) == *old(self),
    {
        let mut words = Words::new(line);
        let ghost w = words@;
        let first = match words.next() {
            Some(first) => first,
            None => {
                return Ok(ObjAction::Nothing);
            },
        };
        assert(words@ =~= w.skip(1));
        if same_text(first, "mtllib") {
            match expect_string(&mut words) {
                Ok(file) => Ok(ObjAction::LoadLibrary(file)),
                Err(error) => Err(error),
            }
        } else if same_text(first, "usemtl") {
            match expect_string(&mut words) {
                Ok(name) => {
                    self.usemtl = Some(name);
                    Ok(ObjAction::Nothing)
                },
                Err(error) => Err(error),
            }
        } else if same_text(first, "v") {
            match expect_xyz(&mut words) {
                Ok((x, y, z)) => Ok(ObjAction::Vertex(x, y, z)),
                Err(error) => Err(error),
            }
        } else if same_text(first, "vt") {
            match expect_xy(&mut words) {
                Ok((x, y)) => Ok(ObjAction::Texture(x, y)),
                Err(error) => Err(error),
            }
        } else if same_text(first, "vn") {
            match expect_xy(&mut words) {
                Ok((x, y)) => Ok(ObjAction::Normal(x, y)),
                Err(error) => Err(error),
            }
        } else if same_text(first, "f") {
            let usemtl = clone_name(&self.usemtl);
            match expect_face(&mut words, usemtl) {
                Ok(face) => {
                    self.faces.push(face);
                    assert(self@.faces =~= old(self)@.faces.push(face@));
                    Ok(ObjAction::Nothing)
                },
                Err(error) => Err(error),
            }
        } else {
            Ok(ObjAction::Nothing)
        }
    }
}

impl VertIndex {
    /// Whether each of the three indices, counted from one, names one of
    /// `count` items.
    pub open spec fn within(self, count: usize) -> bool {
        &&& 1 <= self.x <= count
        &&& 1 <= self.y <= count
        &&& 1 <= self.z <= count
    }

    /// The same three places counted from zero.
    pub open spec fn zero_based(self) -> VertIndex {
        VertIndex {
            x: (self.x - 1) as usize,
            y: (self.y - 1) as usize,
            z: (self.z - 1) as usize,
        }
    }

    /// Whether each of the three indices names one of `count` items.
    pub fn is_within(&self, count: usize) -> (within: bool)
        ensures
            within == self.within(count),
    {
        1 <= self.x && self.x <= count && 1 <= self.y && self.y <= count && 1 <= self.z && self.z
            <= count
    }

    /// The three places counted from zero.
    pub fn to_zero_based(&self) -> (places: VertIndex)
        requires
            self.x >= 1,
            self.y >= 1,
            self.z >= 1,
        ensures
            places == self.zero_based(),
    {
        VertIndex { x: self.x - 1, y: self.y - 1, z: self.z - 1 }
    }
}

impl FaceView {
    /// Whether every index of the face names an item of its list, where the
    /// lists hold `positions`, `textures` and `normals` items.
    pub open spec fn in_range(self, positions: usize, textures: usize, normals: usize) -> bool {
        &&& self.v.within(positions)
        &&& self.vt matches Some(vt) ==> vt.within(textures)
        &&& self.vn matches Some(vn) ==> vn.within(normals)
    }

    /// Whether every index that is read while the face is bound to the
    /// materials of `mtl` names an item of its list: the positions and the
    /// texture coordinates always, the normals only where the face has the
    /// material that it needs.
    pub open spec fn readable(
        self,
        mtl: WavefrontMtlView,
        positions: usize,
        textures: usize,
        normals: usize,
    ) -> bool {
        &&& self.v.within(positions)
        &&& self.vt matches Some(vt) ==> vt.within(textures)
        &&& !material_missing(self, mtl) ==> (self.vn matches Some(vn) ==> vn.within(normals))
    }
}

/// A face made ready for building a triangle. Every place counts from zero.
#[derive(Debug, Clone, Copy, PartialEq, Eq)]
pub struct FaceBinding {
    /// The places of the three corners in the list of positions.
    pub v: VertIndex,
    /// For a textured face, the places of the three corners in the list of
    /// texture coordinates and the place of the texture in the list of
    /// texture files.
    pub uv: Option<(VertIndex, usize)>,
    /// The places of the three corners in the list of normals.
    pub normals: Option<VertIndex>,
    /// The place of the material whose diffuse colour the face takes.
    pub diffusion: Option<usize>,
}

/// The place in `mtl` of the material that a face under `usemtl` is made of.
pub open spec fn material_place(usemtl: Option<Seq<char>>, mtl: WavefrontMtlView) -> Option<int> {
    match usemtl {
        Some(name) => last_place(mtl.definitions, name),
        None => None,
    }
}

/// Whether `face` lacks the material that it needs: it stands under a name
/// that `mtl` does not define, or it gives texture coordinates and stands
/// under no material at all.
pub open spec fn material_missing(face: FaceView, mtl: WavefrontMtlView) -> bool {
    match face.usemtl {
        Some(name) => last_place(mtl.definitions, name) is None,
        None => face.vt is Some,
    }
}

/// How `face` is bound to the materials of `mtl`.
///
/// A face that stands under a material has to stand under one that `mtl`
/// defines, and a face that gives texture coordinates has to stand under a
/// material; a face that does not has no binding. A face is textured where
/// it gives texture coordinates and its material has a texture. It takes
/// its diffuse colour from its material where the material has one.
pub open spec fn binding_of(face: FaceView, mtl: WavefrontMtlView) -> Option<FaceBinding> {
    let material = material_place(face.usemtl, mtl);
    if material_missing(face, mtl) {
        None
    } else {
        Some(
            FaceBinding {
                v: face.v.zero_based(),
                uv: match (face.vt, material) {
                    (Some(vt), Some(place)) => match mtl.definitions[place].1.map {
                        Some(map) => Some((vt.zero_based(), map)),
                        None => None,
                    },
                    _ => None,
                },
                normals: match face.vn {
                    Some(vn) => Some(vn.zero_based()),
                    None => None,
                },
                diffusion: match material {
                    Some(place) => if mtl.definitions[place].1.diffusion is Some {
                        Some(place as usize)
                    } else {
                        None
                    },
                    None => None,
                },
            },
        )
    }
}

/// A face under a material that no library defines has no binding, with or
/// without texture coordinates.
pub proof fn lemma_unknown_material_has_no_binding(face: FaceView, mtl: WavefrontMtlView)
    requires
        face.usemtl matches Some(name) && last_place(mtl.definitions, name) is None,
    ensures
        binding_of(face, mtl) is None,
{
}

/// A face whose every index names an item meets what binding asks of its
/// indices, whatever its material.
pub proof fn lemma_in_range_is_readable(
    face: FaceView,
    mtl: WavefrontMtlView,
    positions: usize,
    textures: usize,
    normals: usize,
)
    requires
        face.in_range(positions, textures, normals),
    ensures
        face.readable(mtl, positions, textures, normals),
{
}

/// The place in `mtl` of the material of `face`, where the face stands
/// under one, or the error where it lacks the material that it needs.
fn material_of(face: &Face, mtl: &WavefrontMtl) -> (result: Result<Option<usize>, FileError>)
    ensures
        result is Err <==> material_missing(face@, mtl@),
        result matches Ok(Some(place)) ==> material_place(face@.usemtl, mtl@) == Some(
            place as int,
        ) && place < mtl@.definitions.len(),
        result matches Ok(None) ==> material_place(face@.usemtl, mtl@) is None,
{
    match &face.usemtl {
        Some(name) => {
            proof {
                crate::wavefront_mtl::lemma_last_place(mtl@.definitions, name@);
            }
            match mtl.find_definition(name.as_str()) {
                Some(place) => Ok(Some(place)),
                None => Err(FileError {}),
            }
        },
        None => {
            if face.vt.is_some() {
                Err(FileError {})
            } else {
                Ok(None)
            }
        },
    }
}

impl Face {
    /// Whether every index of the face names an item of its list, where the
    /// lists hold `positions`, `textures` and `normals` items.
    pub fn in_range(&self, positions: usize, textures: usize, normals: usize) -> (fits: bool)
        ensures
            fits == self@.in_range(positions, textures, normals),
    {
        let textures_fit = match &self.vt {
            Some(vt) => vt.is_within(textures),
            None => true,
        };
        let normals_fit = match &self.vn {
            Some(vn) => vn.is_within(normals),
            None => true,
        };
        self.v.is_within(positions) && textures_fit && normals_fit
    }

    /// Whether every index that is read while the face is bound to the
    /// materials of `mtl` names an item of its list.
    pub fn is_readable(
        &self,
        mtl: &WavefrontMtl,
        positions: usize,
        textures: usize,
        normals: usize,
    ) -> (fits: bool)
        ensures
            fits == self@.readable(mtl@, positions, textures, normals),
    {
        let textures_fit = match &self.vt {
            Some(vt) => vt.is_within(textures),
            None => true,
        };
        if !self.v.is_within(positions) || !textures_fit {
            return false;
        }
        match material_of(self, mtl) {
            Ok(_) => match &self.vn {
                Some(vn) => vn.is_within(normals),
                None => true,
            },
            Err(_) => true,
        }
    }
}

/// Binds `face` to the materials of `mtl`, for lists of `positions`,
/// `textures` and `normals` items. The material is looked for once the
/// positions and the texture coordinates are found, and before the normals
/// are.
pub fn bind_face(
    face: &Face,
    mtl: &WavefrontMtl,
    positions: usize,
    textures: usize,
    normals: usize,
) -> (result: Result<FaceBinding, FileError>)
    requires
        face@.readable(mtl@, positions, textures, normals),
    ensures
        result == or_file_error(binding_of(face@, mtl@)),
        result matches Ok(binding) ==> ({
            &&& binding.v.x < positions && binding.v.y < positions && binding.v.z < positions
            &&& binding.uv matches Some((t, map)) ==> t.x < textures && t.y < textures && t.z
                < textures && (mtl@.well_formed() ==> map < mtl@.maps.len())
            &&& binding.normals matches Some(n) ==> n.x < normals && n.y < normals && n.z
                < normals
            &&& binding.diffusion matches Some(place) ==> place < mtl@.definitions.len()
        }),
{
    let v = face.v.to_zero_based();
    let t = match &face.vt {
        Some(vt) => Some(vt.to_zero_based()),
        None => None,
    };
    let material = match material_of(face, mtl) {
        Ok(material) => material,
        Err(error) => {
            return Err(error);
        },
    };
    let uv = match (t, material) {
        (Some(t), Some(place)) => match mtl.definitions[place].1.map {
            Some(map) => Some((t, map)),
            None => None,
        },
        _ => None,
    };
    let normals = match &face.vn {
        Some(vn) => Some(vn.to_zero_based()),
        None => None,
    };
    let diffusion = match material {
        Some(place) => if mtl.definitions[place].1.diffusion.is_some() {
            Some(place)
        } else {
            None
        },
        None => None,
    };
    Ok(FaceBinding { v, uv, normals, diffusion })
}

} // verus!
