//! Loading of Wavefront OBJ models: the subset with vertices, texture
//! coordinates, normals and faces whose corners read `v/vt/vn`.
use vstd::prelude::*;

pub mod chars;
pub mod model;
pub mod syntax;

pub use model::ObjModel;

use chars::chars_of;
use syntax::{
    char_is_whitespace, float_literal, is_float_literal, lemma_chars_deep_view, lemma_split_state_push,
    lemma_words_state_push, parse_u16, slash_parts, split_slash, split_state, text_lines,
    u16_literal, words, words_state,
};

verus! {

/// The three kinds of numbered records of an OBJ file.
#[derive(Copy, Clone, Debug, PartialEq, Eq, Structural)]
pub enum ObjRecord {
    /// A `v` line: a vertex position.
    Vertex,
    /// A `vt` line: a texture coordinate.
    TexCoord,
    /// A `vn` line: a normal.
    Normal,
}

/// Why an OBJ text was refused.
#[derive(Copy, Clone, Debug, PartialEq, Eq, Structural)]
pub enum ObjError {
    /// A `v`, `vt` or `vn` line ends after `found` of its numbers.
    MissingNumber { record: ObjRecord, found: u8 },
    /// A number of a `v`, `vt` or `vn` line is no floating-point literal.
    NotANumber { record: ObjRecord },
    /// A face line ends after `found` of its corners.
    MissingCorner { found: u8 },
    /// A corner ends after `found` of its `/`-separated indices.
    MissingIndex { found: u8 },
    /// The index at `position` of a corner (vertex, texture coordinate, normal)
    /// is no 16-bit unsigned number.
    BadIndex { position: u8 },
    /// A face refers past the end of the table of `record`.
    IndexOutOfBounds { record: ObjRecord },
}

impl ObjError {
    /// The text that reports the error.
    pub open spec fn text(self) -> &'static str {
        match self {
            ObjError::MissingNumber { record: ObjRecord::Vertex, found } => if found == 0 {
                "Broken vertex line spotted, expected 3 coords but got none"
            } else if found == 1 {
                "Broken vertex line spotted, expected 3 coords but got only one"
            } else {
                "Broken vertex line spotted, expected 3 coords but got only two"
            },
            ObjError::MissingNumber { record: ObjRecord::TexCoord, found } => if found == 0 {
                "Broken texture coord line spotted, expected 2 coords but got none"
            } else {
                "Broken texture coord line spotted, expected 2 coords but got only one"
            },
            ObjError::MissingNumber { record: ObjRecord::Normal, found } => if found == 0 {
                "Broken normal spotted, expected 3 coords but got none"
            } else if found == 1 {
                "Broken normal spotted, expected 3 coords but got only one"
            } else {
                "Broken normal spotted, expected 3 coords but got only two"
            },
            ObjError::NotANumber { record: ObjRecord::Vertex } =>
                "Expected vertex component to be a floating point number",
            ObjError::NotANumber { record: ObjRecord::TexCoord } =>
                "Expected texture coordinate to be a floating point number",
            ObjError::NotANumber { record: ObjRecord::Normal } =>
                "Expected normal component to be a floating point number",
            ObjError::MissingCorner { found } => if found == 0 {
                "Broken face line spotted, expected 3 or 4 index triplets but got none"
            } else if found == 1 {
                "Broken face line spotted, expected 3 or 4 index triplets but got only one"
            } else {
                "Broken face line spotted, expected 3 or 4 index triplets but got only two"
            },
            ObjError::MissingIndex { found } => if found == 0 {
                "Broken index triplet spotted, expected 3 indices but got none"
            } else if found == 1 {
                "Broken index triplet spotted, expected 2 indices but got only one"
            } else {
                "Broken index triplet spotted, expected 3 indices but got only two"
            },
            ObjError::BadIndex { position } => if position == 0 {
                "Expected vertex index to be a number"
            } else if position == 1 {
                "Expected uv index to be a number"
            } else {
                "Expected normal index to be a number"
            },
            ObjError::IndexOutOfBounds { record: ObjRecord::Vertex } => "Vertex index out of bounds",
            ObjError::IndexOutOfBounds { record: ObjRecord::TexCoord } =>
                "Texture coord index out of bounds",
            ObjError::IndexOutOfBounds { record: ObjRecord::Normal } =>
                "Normal index out of bounds",
        }
    }

    /// Returns the text that reports the error.
    pub fn message(self) -> (m: &'static str)
        ensures
            m == self.text(),
    {
        match self {
            ObjError::MissingNumber { record: ObjRecord::Vertex, found } => if found == 0 {
                "Broken vertex line spotted, expected 3 coords but got none"
            } else if found == 1 {
                "Broken vertex line spotted, expected 3 coords but got only one"
            } else {
                "Broken vertex line spotted, expected 3 coords but got only two"
            },
            ObjError::MissingNumber { record: ObjRecord::TexCoord, found } => if found == 0 {
                "Broken texture coord line spotted, expected 2 coords but got none"
            } else {
                "Broken texture coord line spotted, expected 2 coords but got only one"
            },
            ObjError::MissingNumber { record: ObjRecord::Normal, found } => if found == 0 {
                "Broken normal spotted, expected 3 coords but got none"
            } else if found == 1 {
                "Broken normal spotted, expected 3 coords but got only one"
            } else {
                "Broken normal spotted, expected 3 coords but got only two"
            },
            ObjError::NotANumber { record: ObjRecord::Vertex } =>
                "Expected vertex component to be a floating point number",
            ObjError::NotANumber { record: ObjRecord::TexCoord } =>
                "Expected texture coordinate to be a floating point number",
            ObjError::NotANumber { record: ObjRecord::Normal } =>
                "Expected normal component to be a floating point number",
            ObjError::MissingCorner { found } => if found == 0 {
                "Broken face line spotted, expected 3 or 4 index triplets but got none"
            } else if found == 1 {
                "Broken face line spotted, expected 3 or 4 index triplets but got only one"
            } else {
                "Broken face line spotted, expected 3 or 4 index triplets but got only two"
            },
            ObjError::MissingIndex { found } => if found == 0 {
                "Broken index triplet spotted, expected 3 indices but got none"
            } else if found == 1 {
                "Broken index triplet spotted, expected 2 indices but got only one"
            } else {
                "Broken index triplet spotted, expected 3 indices but got only two"
            },
            ObjError::BadIndex { position } => if position == 0 {
                "Expected vertex index to be a number"
            } else if position == 1 {
                "Expected uv index to be a number"
            } else {
                "Expected normal index to be a number"
            },
            ObjError::IndexOutOfBounds { record: ObjRecord::Vertex } => "Vertex index out of bounds",
            ObjError::IndexOutOfBounds { record: ObjRecord::TexCoord } =>
                "Texture coord index out of bounds",
            ObjError::IndexOutOfBounds { record: ObjRecord::Normal } =>
                "Normal index out of bounds",
        }
    }
}

/// What an OBJ file holds, as read: the text of each number, and the
/// 1-based indices of the faces' corners.
#[verifier::ext_equal]
pub struct ObjData {
    /// Per `v` line, the text of its three numbers.
    pub vs: Seq<Seq<Seq<char>>>,
    /// Per `vt` line, the text of its two numbers.
    pub vts: Seq<Seq<Seq<char>>>,
    /// Per `vn` line, the text of its three numbers.
    pub vns: Seq<Seq<Seq<char>>>,
    /// Per triangle, the vertex indices of its corners.
    pub v_indices: Seq<[u16; 3]>,
    /// Per triangle, the texture coordinate indices of its corners.
    pub vt_indices: Seq<[u16; 3]>,
    /// Per triangle, the normal indices of its corners.
    pub vn_indices: Seq<[u16; 3]>,
}

/// An OBJ file loaded from a string as is.
pub struct ObjFile {
    /// Vertex coordinates, as the text of three numbers each.
    pub vs: Vec<Vec<Vec<char>>>,
    /// Texture coordinates, as the text of two numbers each.
    pub vts: Vec<Vec<Vec<char>>>,
    /// Normals, as the text of three numbers each.
    pub vns: Vec<Vec<Vec<char>>>,
    /// Indices for vertices. Be careful, they are 1-based.
    pub v_indices: Vec<[u16; 3]>,
    /// Indices for texture coordinates. Be careful, they are 1-based.
    pub vt_indices: Vec<[u16; 3]>,
    /// Indices for normals. Be careful, they are 1-based.
    pub vn_indices: Vec<[u16; 3]>,
}

impl ObjFile {
    pub open spec fn data(&self) -> ObjData {
        ObjData {
            vs: self.vs.deep_view(),
            vts: self.vts.deep_view(),
            vns: self.vns.deep_view(),
            v_indices: self.v_indices@,
            vt_indices: self.vt_indices@,
            vn_indices: self.vn_indices@,
        }
    }
}

pub open spec fn empty_data() -> ObjData {
    ObjData {
        vs: seq![],
        vts: seq![],
        vns: seq![],
        v_indices: seq![],
        vt_indices: seq![],
        vn_indices: seq![],
    }
}

/// Reads the numbers at positions `1..=n` of a line's words, in order; the
/// first one missing or malformed decides the error.
pub open spec fn read_numbers(toks: Seq<Seq<char>>, n: nat, record: ObjRecord) -> Result<
    Seq<Seq<char>>,
    ObjError,
>
    decreases n,
{
    if n == 0 {
        Ok(seq![])
    } else {
        match read_numbers(toks, (n - 1) as nat, record) {
            Err(e) => Err(e),
            Ok(prev) => if toks.len() <= n {
                Err(ObjError::MissingNumber { record, found: (n - 1) as u8 })
            } else if !float_literal(toks[n as int]) {
                Err(ObjError::NotANumber { record })
            } else {
                Ok(prev.push(toks[n as int]))
            },
        }
    }
}

/// Reads a corner `v/vt/vn` as its three indices.
pub open spec fn parse_corner(t: Seq<char>) -> Result<[u16; 3], ObjError> {
    let parts = slash_parts(t);
    if parts.len() < 1 {
        Err(ObjError::MissingIndex { found: 0 })
    } else if u16_literal(parts[0]) is None {
        Err(ObjError::BadIndex { position: 0 })
    } else if parts.len() < 2 {
        Err(ObjError::MissingIndex { found: 1 })
    } else if u16_literal(parts[1]) is None {
        Err(ObjError::BadIndex { position: 1 })
    } else if parts.len() < 3 {
        Err(ObjError::MissingIndex { found: 2 })
    } else if u16_literal(parts[2]) is None {
        Err(ObjError::BadIndex { position: 2 })
    } else {
        Ok([u16_literal(parts[0])->0, u16_literal(parts[1])->0, u16_literal(parts[2])->0])
    }
}

/// Reads a face line into one triangle (three corners) or two (four corners,
/// split along the diagonal from the first to the third corner). Words past
/// the fourth corner are ignored.
pub open spec fn parse_face(toks: Seq<Seq<char>>) -> Result<Seq<[[u16; 3]; 3]>, ObjError> {
    if toks.len() < 2 {
        Err(ObjError::MissingCorner { found: 0 })
    } else if toks.len() < 3 {
        Err(ObjError::MissingCorner { found: 1 })
    } else if toks.len() < 4 {
        Err(ObjError::MissingCorner { found: 2 })
    } else {
        match parse_corner(toks[1]) {
            Err(e) => Err(e),
            Ok(c0) => match parse_corner(toks[2]) {
                Err(e) => Err(e),
                Ok(c1) => match parse_corner(toks[3]) {
                    Err(e) => Err(e),
                    Ok(c2) => if toks.len() < 5 {
                        Ok(seq![[c0, c1, c2]])
                    } else {
                        match parse_corner(toks[4]) {
                            Err(e) => Err(e),
                            Ok(c3) => Ok(seq![[c0, c1, c2], [c0, c2, c3]]),
                        }
                    },
                },
            },
        }
    }
}

/// Adds one triangle, given by its corners, to the face tables.
pub open spec fn add_triangle(d: ObjData, tri: [[u16; 3]; 3]) -> ObjData {
    ObjData {
        v_indices: d.v_indices.push([tri[0][0], tri[1][0], tri[2][0]]),
        vt_indices: d.vt_indices.push([tri[0][1], tri[1][1], tri[2][1]]),
        vn_indices: d.vn_indices.push([tri[0][2], tri[1][2], tri[2][2]]),
        ..d
    }
}

pub open spec fn add_triangles(d: ObjData, tris: Seq<[[u16; 3]; 3]>) -> ObjData
    decreases tris.len(),
{
    if tris.len() == 0 {
        d
    } else {
        add_triangle(add_triangles(d, tris.drop_last()), tris.last())
    }
}

proof fn lemma_add_triangles_push(d: ObjData, tris: Seq<[[u16; 3]; 3]>, t: [[u16; 3]; 3])
    ensures
        add_triangles(d, tris.push(t)) == add_triangle(add_triangles(d, tris), t),
{
    assert(tris.push(t).drop_last() =~= tris);
}

/// The effect of one line, given by its words, on what was read before it.
/// Lines with no words or with an unknown first word change nothing.
pub open spec fn parse_line(d: ObjData, toks: Seq<Seq<char>>) -> Result<ObjData, ObjError> {
    if toks.len() == 0 {
        Ok(d)
    } else if toks[0] == seq!['v'] {
        match read_numbers(toks, 3, ObjRecord::Vertex) {
            Err(e) => Err(e),
            Ok(ns) => Ok(ObjData { vs: d.vs.push(ns), ..d }),
        }
    } else if toks[0] == seq!['v', 't'] {
        match read_numbers(toks, 2, ObjRecord::TexCoord) {
            Err(e) => Err(e),
            Ok(ns) => Ok(ObjData { vts: d.vts.push(ns), ..d }),
        }
    } else if toks[0] == seq!['v', 'n'] {
        match read_numbers(toks, 3, ObjRecord::Normal) {
            Err(e) => Err(e),
            Ok(ns) => Ok(ObjData { vns: d.vns.push(ns), ..d }),
        }
    } else if toks[0] == seq!['f'] {
        match parse_face(toks) {
            Err(e) => Err(e),
            Ok(tris) => Ok(add_triangles(d, tris)),
        }
    } else {
        Ok(d)
    }
}

/// Reads the lines in order; the first refused line decides the error.
pub open spec fn parse_lines(lines: Seq<Seq<char>>) -> Result<ObjData, ObjError>
    decreases lines.len(),
{
    if lines.len() == 0 {
        Ok(empty_data())
    } else {
        match parse_lines(lines.drop_last()) {
            Err(e) => Err(e),
            Ok(d) => parse_line(d, words(lines.last())),
        }
    }
}

/// What reading the OBJ text `text` gives.
pub open spec fn parse_obj(text: Seq<char>) -> Result<ObjData, ObjError> {
    parse_lines(text_lines(text))
}

/// Once reading the numbers fails, reading more of them fails the same way.
proof fn lemma_read_numbers_stays_failed(toks: Seq<Seq<char>>, k: nat, n: nat, record: ObjRecord)
    requires
        k <= n,
        read_numbers(toks, k, record) is Err,
    ensures
        read_numbers(toks, n, record) == read_numbers(toks, k, record),
    decreases n - k,
{
    if k < n {
        lemma_read_numbers_stays_failed(toks, k, (n - 1) as nat, record);
    }
}

/// Copies a word.
fn copy_chars(v: &Vec<char>) -> (r: Vec<char>)
    ensures
        r@ == v@,
{
    let mut r: Vec<char> = Vec::new();
    for i in 0..v.len()
        invariant
            r@ == v@.take(i as int),
    {
        r.push(v[i]);
        assert(r@ =~= v@.take(i + 1));
    }
    assert(v@.take(v@.len() as int) =~= v@);
    r
}

/// Reads the numbers at positions `1..=n` of `toks`.
fn read_numbers_exec(toks: &Vec<Vec<char>>, n: usize, record: ObjRecord) -> (r: Result<
    Vec<Vec<char>>,
    ObjError,
>)
    requires
        n <= 3,
    ensures
        match read_numbers(toks.deep_view(), n as nat, record) {
            Ok(ns) => r matches Ok(v) && v.deep_view() == ns,
            Err(e) => r == Err::<Vec<Vec<char>>, ObjError>(e),
        },
{
    let mut out: Vec<Vec<char>> = Vec::new();
    assert(out.deep_view() =~= Seq::<Seq<char>>::empty());
    let mut k: usize = 1;
    while k <= n
        invariant
            1 <= k <= n + 1,
            n <= 3,
            read_numbers(toks.deep_view(), (k - 1) as nat, record) == Ok::<
                Seq<Seq<char>>,
                ObjError,
            >(out.deep_view()),
        decreases n + 1 - k,
    {
        if toks.len() <= k {
            proof {
                lemma_read_numbers_stays_failed(toks.deep_view(), k as nat, n as nat, record);
            }
            return Err(ObjError::MissingNumber { record, found: (k - 1) as u8 });
        }
        proof {
            lemma_chars_deep_view(toks@[k as int]);
        }
        if !is_float_literal(&toks[k]) {
            proof {
                lemma_read_numbers_stays_failed(toks.deep_view(), k as nat, n as nat, record);
            }
            return Err(ObjError::NotANumber { record });
        }
        let word = copy_chars(&toks[k]);
        let ghost prev = out.deep_view();
        proof {
            lemma_chars_deep_view(word);
        }
        out.push(word);
        assert(out.deep_view() =~= prev.push(toks.deep_view()[k as int]));
        k = k + 1;
    }
    Ok(out)
}

/// Reads a corner `v/vt/vn`.
fn parse_corner_exec(t: &Vec<char>) -> (r: Result<[u16; 3], ObjError>)
    ensures
        r == parse_corner(t@),
{
    let parts = split_slash(t);
    if parts.len() < 1 {
        return Err(ObjError::MissingIndex { found: 0 });
    }
    proof {
        lemma_chars_deep_view(parts@[0]);
    }
    let v = match parse_u16(&parts[0]) {
        Some(v) => v,
        None => {
            return Err(ObjError::BadIndex { position: 0 });
        },
    };
    if parts.len() < 2 {
        return Err(ObjError::MissingIndex { found: 1 });
    }
    proof {
        lemma_chars_deep_view(parts@[1]);
    }
    let vt = match parse_u16(&parts[1]) {
        Some(vt) => vt,
        None => {
            return Err(ObjError::BadIndex { position: 1 });
        },
    };
    if parts.len() < 3 {
        return Err(ObjError::MissingIndex { found: 2 });
    }
    proof {
        lemma_chars_deep_view(parts@[2]);
    }
    let vn = match parse_u16(&parts[2]) {
        Some(vn) => vn,
        None => {
            return Err(ObjError::BadIndex { position: 2 });
        },
    };
    Ok([v, vt, vn])
}

/// Tells whether `w` is the word made of the characters `a` and, if given, `b`.
fn word_is(w: &Vec<char>, a: char, b: Option<char>) -> (r: bool)
    ensures
        r == (w@ == match b {
            Some(b) => seq![a, b],
            None => seq![a],
        }),
{
    match b {
        Some(b) => {
            let r = w.len() == 2 && w[0] == a && w[1] == b;
            assert(r ==> w@ =~= seq![a, b]);
            r
        },
        None => {
            let r = w.len() == 1 && w[0] == a;
            assert(r ==> w@ =~= seq![a]);
            r
        },
    }
}

impl ObjFile {
    /// Adds one triangle, given by its corners, to the face tables.
    fn push_triangle(&mut self, c0: [u16; 3], c1: [u16; 3], c2: [u16; 3])
        ensures
            final(self).data() == add_triangle(old(self).data(), [c0, c1, c2]),
    {
        self.v_indices.push([c0[0], c1[0], c2[0]]);
        self.vt_indices.push([c0[1], c1[1], c2[1]]);
        self.vn_indices.push([c0[2], c1[2], c2[2]]);
    }

    /// Applies one line, given by its words.
    fn read_line(&mut self, toks: &Vec<Vec<char>>) -> (r: Result<(), ObjError>)
        ensures
            match parse_line(old(self).data(), toks.deep_view()) {
                Ok(d) => r is Ok && final(self).data() == d,
                Err(e) => r == Err::<(), ObjError>(e),
            },
    {
        let ghost d = self.data();
        let ghost words = toks.deep_view();
        if toks.len() == 0 {
            return Ok(());
        }
        proof {
            lemma_chars_deep_view(toks@[0]);
        }
        if word_is(&toks[0], 'v', None) {
            let ns = read_numbers_exec(toks, 3, ObjRecord::Vertex)?;
            let ghost old_vs = self.vs.deep_view();
            self.vs.push(ns);
            assert(self.vs.deep_view() =~= old_vs.push(ns.deep_view()));
            Ok(())
        } else if word_is(&toks[0], 'v', Some('t')) {
            let ns = read_numbers_exec(toks, 2, ObjRecord::TexCoord)?;
            let ghost old_vts = self.vts.deep_view();
            self.vts.push(ns);
            assert(self.vts.deep_view() =~= old_vts.push(ns.deep_view()));
            Ok(())
        } else if word_is(&toks[0], 'v', Some('n')) {
            let ns = read_numbers_exec(toks, 3, ObjRecord::Normal)?;
            let ghost old_vns = self.vns.deep_view();
            self.vns.push(ns);
            assert(self.vns.deep_view() =~= old_vns.push(ns.deep_view()));
            Ok(())
        } else if word_is(&toks[0], 'f', None) {
            if toks.len() < 2 {
                return Err(ObjError::MissingCorner { found: 0 });
            }
            if toks.len() < 3 {
                return Err(ObjError::MissingCorner { found: 1 });
            }
            if toks.len() < 4 {
                return Err(ObjError::MissingCorner { found: 2 });
            }
            proof {
                lemma_chars_deep_view(toks@[1]);
                lemma_chars_deep_view(toks@[2]);
                lemma_chars_deep_view(toks@[3]);
            }
            let c0 = parse_corner_exec(&toks[1])?;
            let c1 = parse_corner_exec(&toks[2])?;
            let c2 = parse_corner_exec(&toks[3])?;
            if toks.len() < 5 {
                self.push_triangle(c0, c1, c2);
                proof {
                    lemma_add_triangles_push(d, Seq::empty(), [c0, c1, c2]);
                    assert(Seq::<[[u16; 3]; 3]>::empty().push([c0, c1, c2]) =~= seq![[c0, c1, c2]]);
                }
            } else {
                proof {
                    lemma_chars_deep_view(toks@[4]);
                }
                let c3 = parse_corner_exec(&toks[4])?;
                self.push_triangle(c0, c1, c2);
                self.push_triangle(c0, c2, c3);
                let ghost tris = seq![[c0, c1, c2], [c0, c2, c3]];
                proof {
                    lemma_add_triangles_push(d, Seq::empty(), [c0, c1, c2]);
                    lemma_add_triangles_push(d, seq![[c0, c1, c2]], [c0, c2, c3]);
                    assert(Seq::<[[u16; 3]; 3]>::empty().push([c0, c1, c2]) =~= seq![[c0, c1, c2]]);
                    assert(seq![[c0, c1, c2]].push([c0, c2, c3]) =~= tris);
                }
            }
            Ok(())
        } else {
            Ok(())
        }
    }
}

/// Once a line is refused, the lines after it change nothing.
proof fn lemma_parse_lines_stays_failed(lines: Seq<Seq<char>>, more: Seq<Seq<char>>)
    requires
        parse_lines(lines) is Err,
    ensures
        parse_lines(lines + more) == parse_lines(lines),
    decreases more.len(),
{
    if more.len() == 0 {
        assert(lines + more =~= lines);
    } else {
        lemma_parse_lines_stays_failed(lines, more.drop_last());
        assert((lines + more).drop_last() =~= lines + more.drop_last());
    }
}

/// The lines completed in a prefix of a text are the first lines of the text.
proof fn lemma_lines_of_prefix(s: Seq<char>, j: int)
    requires
        0 <= j <= s.len(),
    ensures
        ({
            let done_prefix = split_state(s.take(j), '\n').0;
            let all = text_lines(s);
            done_prefix.len() <= all.len() && all.take(done_prefix.len() as int) == done_prefix
        }),
    decreases s.len() - j,
{
    let done_prefix = split_state(s.take(j), '\n').0;
    if j == s.len() {
        assert(s.take(j) =~= s);
        let (done, cur) = split_state(s, '\n');
        if cur.len() > 0 {
            assert(done.push(cur).take(done.len() as int) =~= done);
        } else {
            assert(done.take(done.len() as int) =~= done);
        }
    } else {
        lemma_lines_of_prefix(s, j + 1);
        lemma_split_state_push(s.take(j), '\n', s[j]);
        assert(s.take(j).push(s[j]) =~= s.take(j + 1));
        let next = split_state(s.take(j + 1), '\n').0;
        let all = text_lines(s);
        assert(next.take(done_prefix.len() as int) =~= done_prefix);
        assert(all.take(done_prefix.len() as int) =~= next.take(done_prefix.len() as int));
    }
}

/// Which written corner (0-based, among the corners of the face line) is
/// corner `k` of triangle `t` of the face: a triangle face is its three
/// corners; a quad is cut along its diagonal from the first corner to the
/// third, into the corners 0, 1, 2 and 0, 2, 3.
pub open spec fn face_corner(t: int, k: int) -> int {
    if t == 0 {
        k
    } else if k == 0 {
        0
    } else {
        k + 1
    }
}

/// A face line adds one triangle for three written corners and two for four,
/// after the triangles read before and with no other table changed; each
/// corner of a new triangle takes its vertex, texture coordinate and normal
/// indices together from one written `v/vt/vn` corner.
#[verifier::rlimit(30)]
pub proof fn law_face_keeps_corners_together(d: ObjData, toks: Seq<Seq<char>>)
    requires
        toks.len() >= 1,
        toks[0] == seq!['f'],
        parse_line(d, toks) is Ok,
    ensures
        ({
            let d2 = parse_line(d, toks)->Ok_0;
            let n = if toks.len() >= 5 {
                2int
            } else {
                1int
            };
            let base = d.v_indices.len() as int;
            &&& d2.vs == d.vs && d2.vts == d.vts && d2.vns == d.vns
            &&& d2.v_indices.len() == base + n
            &&& d2.vt_indices.len() == d.vt_indices.len() + n
            &&& d2.vn_indices.len() == d.vn_indices.len() + n
            &&& d2.v_indices.take(base) == d.v_indices
            &&& d2.vt_indices.take(d.vt_indices.len() as int) == d.vt_indices
            &&& d2.vn_indices.take(d.vn_indices.len() as int) == d.vn_indices
            &&& forall|t: int, k: int|
                0 <= t < n && 0 <= k < 3 ==> {
                    let c = parse_corner(toks[1 + face_corner(t, k)]);
                    &&& c is Ok
                    &&& #[trigger] d2.v_indices[base + t][k] == c->Ok_0[0]
                    &&& d2.vt_indices[d.vt_indices.len() + t][k] == c->Ok_0[1]
                    &&& d2.vn_indices[d.vn_indices.len() + t][k] == c->Ok_0[2]
                }
        }),
{
    assert(toks[0][0] != seq!['v'][0]);
    assert(toks[0].len() != seq!['v', 't'].len());
    assert(toks[0].len() != seq!['v', 'n'].len());
    let tris = parse_face(toks)->Ok_0;
    assert(parse_line(d, toks) == Ok::<ObjData, ObjError>(add_triangles(d, tris)));
    lemma_face_triangles(toks);
    lemma_add_triangles_tables(d, tris);
    let d2 = add_triangles(d, tris);
    assert forall|t: int, k: int| 0 <= t < tris.len() && 0 <= k < 3 implies {
        let c = parse_corner(toks[1 + face_corner(t, k)]);
        &&& c is Ok
        &&& #[trigger] d2.v_indices[d.v_indices.len() + t][k] == c->Ok_0[0]
        &&& d2.vt_indices[d.vt_indices.len() + t][k] == c->Ok_0[1]
        &&& d2.vn_indices[d.vn_indices.len() + t][k] == c->Ok_0[2]
    } by {
        assert(tris[t][k] == parse_corner(toks[1 + face_corner(t, k)])->Ok_0);
        assert(d2.v_indices[d.v_indices.len() + t][k] == tris[t][k][0]);
    }
}

/// The triangles of a face that reads, as written corners.
proof fn lemma_face_triangles(toks: Seq<Seq<char>>)
    requires
        parse_face(toks) is Ok,
    ensures
        ({
            let tris = parse_face(toks)->Ok_0;
            &&& tris.len() == if toks.len() >= 5 {
                2int
            } else {
                1int
            }
            &&& forall|t: int, k: int|
                0 <= t < tris.len() && 0 <= k < 3 ==> parse_corner(toks[1 + face_corner(t, k)]) is Ok
                    && #[trigger] tris[t][k] == parse_corner(toks[1 + face_corner(t, k)])->Ok_0
        }),
{
}

/// Adding triangles appends one entry per triangle to each face table, in
/// order, and changes nothing else.
proof fn lemma_add_triangles_tables(d: ObjData, tris: Seq<[[u16; 3]; 3]>)
    ensures
        ({
            let d2 = add_triangles(d, tris);
            &&& d2.vs == d.vs && d2.vts == d.vts && d2.vns == d.vns
            &&& d2.v_indices.len() == d.v_indices.len() + tris.len()
            &&& d2.vt_indices.len() == d.vt_indices.len() + tris.len()
            &&& d2.vn_indices.len() == d.vn_indices.len() + tris.len()
            &&& d2.v_indices.take(d.v_indices.len() as int) == d.v_indices
            &&& d2.vt_indices.take(d.vt_indices.len() as int) == d.vt_indices
            &&& d2.vn_indices.take(d.vn_indices.len() as int) == d.vn_indices
            &&& forall|t: int, k: int|
                0 <= t < tris.len() && 0 <= k < 3 ==> {
                    &&& #[trigger] d2.v_indices[d.v_indices.len() + t][k] == tris[t][k][0]
                    &&& d2.vt_indices[d.vt_indices.len() + t][k] == tris[t][k][1]
                    &&& d2.vn_indices[d.vn_indices.len() + t][k] == tris[t][k][2]
                }
        }),
    decreases tris.len(),
{
    if tris.len() > 0 {
        let prev = tris.drop_last();
        lemma_add_triangles_tables(d, prev);
        let m = add_triangles(d, prev);
        let d2 = add_triangles(d, tris);
        assert(d2.v_indices.take(d.v_indices.len() as int) =~= m.v_indices.take(d.v_indices.len() as int));
        assert(d2.vt_indices.take(d.vt_indices.len() as int) =~= m.vt_indices.take(
            d.vt_indices.len() as int,
        ));
        assert(d2.vn_indices.take(d.vn_indices.len() as int) =~= m.vn_indices.take(
            d.vn_indices.len() as int,
        ));
        assert forall|t: int, k: int| 0 <= t < tris.len() && 0 <= k < 3 implies {
            &&& #[trigger] d2.v_indices[d.v_indices.len() + t][k] == tris[t][k][0]
            &&& d2.vt_indices[d.vt_indices.len() + t][k] == tris[t][k][1]
            &&& d2.vn_indices[d.vn_indices.len() + t][k] == tris[t][k][2]
        } by {
            if t < prev.len() {
                assert(prev[t] == tris[t]);
                assert(d2.v_indices[d.v_indices.len() + t] == m.v_indices[d.v_indices.len() + t]);
                assert(d2.vt_indices[d.vt_indices.len() + t] == m.vt_indices[d.vt_indices.len() + t]);
                assert(d2.vn_indices[d.vn_indices.len() + t] == m.vn_indices[d.vn_indices.len() + t]);
            } else {
                let tri = tris.last();
                assert(tri == tris[t]);
                if k == 0 {
                } else if k == 1 {
                } else {
                }
            }
        }
    }
}

/// A text that is refused stays refused, with the same error, whatever lines
/// follow it: the first refused line decides.
pub proof fn law_refused_text_stays_refused(s: Seq<char>, t: Seq<char>)
    requires
        parse_obj(s) is Err,
    ensures
        parse_obj(s + seq!['\n'] + t) == parse_obj(s),
{
    let u = s + seq!['\n'] + t;
    let j = s.len() + 1int;
    assert(u.take(j) =~= s.push('\n'));
    assert(s.push('\n').drop_last() =~= s);
    let (done, cur) = split_state(s, '\n');
    let prefix = split_state(u.take(j), '\n').0;
    assert(prefix == done.push(cur));
    if cur.len() == 0 {
        assert(done.push(cur).drop_last() =~= done);
    }
    assert(parse_lines(prefix) == parse_lines(text_lines(s)));
    lemma_lines_of_prefix(u, j);
    let all = text_lines(u);
    let rest = all.skip(prefix.len() as int);
    assert(all =~= prefix + rest);
    lemma_parse_lines_stays_failed(prefix, rest);
}

/// The words of a line, from the words completed and the word being read.
fn finish_words(done: Vec<Vec<char>>, word: Vec<char>) -> (toks: Vec<Vec<char>>)
    ensures
        toks.deep_view() == (if word@.len() > 0 {
            done.deep_view().push(word@)
        } else {
            done.deep_view()
        }),
{
    let mut toks = done;
    if word.len() > 0 {
        let ghost before = toks.deep_view();
        proof {
            lemma_chars_deep_view(word);
        }
        toks.push(word);
        assert(toks.deep_view() =~= before.push(word@));
    }
    toks
}

impl ObjFile {
    /// Reads an OBJ text; the error, if any, is that of the first refused line.
    fn parse(source: &str) -> (r: Result<ObjFile, ObjError>)
        ensures
            match parse_obj(source@) {
                Ok(d) => r matches Ok(f) && f.data() == d,
                Err(e) => r matches Err(e2) && e2 == e,
            },
    {
        let text = chars_of(source);
        let n = text.len();
        let mut file = ObjFile {
            vs: Vec::new(),
            vts: Vec::new(),
            vns: Vec::new(),
            v_indices: Vec::new(),
            vt_indices: Vec::new(),
            vn_indices: Vec::new(),
        };
        assert(file.data() =~~= empty_data());
        let mut words_done: Vec<Vec<char>> = Vec::new();
        let mut word: Vec<char> = Vec::new();
        let mut line_nonempty = false;
        let ghost mut lines_done: Seq<Seq<char>> = seq![];
        let ghost mut line: Seq<char> = seq![];
        assert(words_done.deep_view() =~= Seq::<Seq<char>>::empty());
        assert(text@.take(0) =~= Seq::<char>::empty());
        let mut i: usize = 0;
        while i < n
            invariant
                n == text.len(),
                text@ == source@,
                0 <= i <= n,
                (lines_done, line) == split_state(text@.take(i as int), '\n'),
                (words_done.deep_view(), word@) == words_state(line),
                line_nonempty == (line.len() > 0),
                parse_lines(lines_done) == Ok::<ObjData, ObjError>(file.data()),
            decreases n - i,
        {
            let c = text[i];
            proof {
                lemma_split_state_push(text@.take(i as int), '\n', c);
                assert(text@.take(i as int).push(c) =~= text@.take(i + 1));
            }
            if c == '\n' {
                let toks = finish_words(words_done, word);
                words_done = Vec::new();
                word = Vec::new();
                let ghost finished = lines_done.push(line);
                assert(finished.drop_last() =~= lines_done);
                match file.read_line(&toks) {
                    Ok(()) => {},
                    Err(e) => {
                        proof {
                            lemma_lines_of_prefix(text@, i + 1);
                            let all = text_lines(text@);
                            assert(all =~= finished + all.skip(finished.len() as int));
                            lemma_parse_lines_stays_failed(
                                finished,
                                all.skip(finished.len() as int),
                            );
                        }
                        return Err(e);
                    },
                }
                proof {
                    lines_done = finished;
                    line = seq![];
                }
                line_nonempty = false;
                assert(words_done.deep_view() =~= Seq::<Seq<char>>::empty());
            } else {
                proof {
                    lemma_words_state_push(line, c);
                }
                if char_is_whitespace(c) {
                    if word.len() > 0 {
                        let ghost before = words_done.deep_view();
                        proof {
                            lemma_chars_deep_view(word);
                        }
                        words_done.push(word);
                        assert(words_done.deep_view() =~= before.push(word@));
                        word = Vec::new();
                    }
                } else {
                    word.push(c);
                }
                proof {
                    line = line.push(c);
                }
                line_nonempty = true;
            }
            i = i + 1;
        }
        assert(text@.take(n as int) =~= text@);
        if line_nonempty {
            let toks = finish_words(words_done, word);
            let ghost finished = lines_done.push(line);
            assert(finished.drop_last() =~= lines_done);
            match file.read_line(&toks) {
                Ok(()) => {},
                Err(e) => {
                    return Err(e);
                },
            }
        }
        Ok(file)
    }

    /// Loads an obj file from a source string. Only the one specific subset is supported,
    /// where the model should have only vertices, texture coordinates, and normals. Indices
    /// are expected to be triplets in a form `v_id/vt_id/vn_id`.
    pub fn load_from_string(source: &str) -> (r: Result<Self, &'static str>)
        ensures
            match parse_obj(source@) {
                Ok(d) => r matches Ok(f) && f.data() == d,
                Err(e) => r matches Err(m) && m == e.text(),
            },
    {
        match Self::parse(source) {
            Ok(f) => Ok(f),
            Err(e) => Err(e.message()),
        }
    }
}

proof fn lemma_read_numbers_len(toks: Seq<Seq<char>>, n: nat, record: ObjRecord)
    ensures
        read_numbers(toks, n, record) matches Ok(ns) ==> ns.len() == n,
    decreases n,
{
    if n > 0 {
        lemma_read_numbers_len(toks, (n - 1) as nat, record);
    }
}

/// Every entry of the vertex table holds three numbers, of the texture
/// coordinate table two, of the normal table three.
pub open spec fn tables_shaped(d: ObjData) -> bool {
    &&& forall|i: int| 0 <= i < d.vs.len() ==> (#[trigger] d.vs[i]).len() == 3
    &&& forall|i: int| 0 <= i < d.vts.len() ==> (#[trigger] d.vts[i]).len() == 2
    &&& forall|i: int| 0 <= i < d.vns.len() ==> (#[trigger] d.vns[i]).len() == 3
}

/// A file that reads holds three numbers per vertex, two per texture
/// coordinate and three per normal.
pub proof fn law_tables_shaped(lines: Seq<Seq<char>>)
    ensures
        parse_lines(lines) matches Ok(d) ==> tables_shaped(d),
    decreases lines.len(),
{
    if lines.len() > 0 {
        law_tables_shaped(lines.drop_last());
        let toks = words(lines.last());
        lemma_read_numbers_len(toks, 3, ObjRecord::Vertex);
        lemma_read_numbers_len(toks, 2, ObjRecord::TexCoord);
        lemma_read_numbers_len(toks, 3, ObjRecord::Normal);
        if let Ok(d) = parse_lines(lines.drop_last()) {
            if let Ok(tris) = parse_face(toks) {
                lemma_add_triangles_keeps_tables(d, tris);
            }
        }
    }
}

proof fn lemma_add_triangles_keeps_tables(d: ObjData, tris: Seq<[[u16; 3]; 3]>)
    ensures
        add_triangles(d, tris).vs == d.vs,
        add_triangles(d, tris).vts == d.vts,
        add_triangles(d, tris).vns == d.vns,
    decreases tris.len(),
{
    if tris.len() > 0 {
        lemma_add_triangles_keeps_tables(d, tris.drop_last());
    }
}

} // verus!
