//! Turning a loaded OBJ file into an indexed model whose vertices each carry
//! one position, one texture coordinate and one normal.
use vstd::prelude::*;
use std::collections::HashMap;

use super::{add_triangles, parse_face, parse_lines, parse_obj, ObjData, ObjError, ObjFile, ObjRecord};
use super::syntax::{lemma_chars_deep_view, text_lines, words};

verus! {

broadcast use vstd::std_specs::hash::group_hash_axioms;

/// What an indexed model holds: per vertex, the text of its position, texture
/// coordinate and normal numbers; per triangle, the 0-based indices of its vertices.
#[verifier::ext_equal]
pub struct ModelData {
    pub vs: Seq<Seq<Seq<char>>>,
    pub vts: Seq<Seq<Seq<char>>>,
    pub vns: Seq<Seq<Seq<char>>>,
    pub indices: Seq<[u16; 3]>,
}

/// The three face tables have one entry per triangle each.
pub open spec fn faces_aligned(d: ObjData) -> bool {
    d.v_indices.len() == d.vt_indices.len() && d.v_indices.len() == d.vn_indices.len()
}

/// Every 1-based index of `ids` names an entry of a table of `len` entries:
/// none is 0 or past `len`.
pub open spec fn refs_in_bounds(ids: Seq<[u16; 3]>, len: nat) -> bool {
    forall|f: int, k: int| 0 <= f < ids.len() && 0 <= k < 3 ==> 1 <= #[trigger] ids[f][k] <= len
}

/// The corners of all triangles, triangle by triangle, as 0-based
/// `[vertex, texture coordinate, normal]` indices.
pub open spec fn corner_list(d: ObjData) -> Seq<[u16; 3]> {
    Seq::new(
        3 * d.v_indices.len(),
        |i: int|
            [
                (d.v_indices[i / 3][i % 3] - 1) as u16,
                (d.vt_indices[i / 3][i % 3] - 1) as u16,
                (d.vn_indices[i / 3][i % 3] - 1) as u16,
            ],
    )
}

/// Numbering distinct corners in order of first appearance: the distinct
/// corners so far, and the number given to each corner read. Numbers are
/// counted in 16 bits and wrap past 65535.
pub open spec fn number_corners(cs: Seq<[u16; 3]>) -> (Seq<[u16; 3]>, Seq<u16>)
    decreases cs.len(),
{
    if cs.len() == 0 {
        (seq![], seq![])
    } else {
        let (uniq, ids) = number_corners(cs.drop_last());
        let c = cs.last();
        if uniq.contains(c) {
            (uniq, ids.push((uniq.index_of(c) % 0x10000) as u16))
        } else {
            (uniq.push(c), ids.push((uniq.len() % 0x10000) as u16))
        }
    }
}

/// The indexed model of a file whose faces all refer to existing entries.
pub open spec fn build_model(d: ObjData) -> ModelData {
    let (uniq, ids) = number_corners(corner_list(d));
    ModelData {
        vs: Seq::new(uniq.len(), |j: int| d.vs[uniq[j][0] as int]),
        vts: Seq::new(uniq.len(), |j: int| d.vts[uniq[j][1] as int]),
        vns: Seq::new(uniq.len(), |j: int| d.vns[uniq[j][2] as int]),
        indices: Seq::new(
            d.v_indices.len(),
            |f: int| [ids[3 * f], ids[3 * f + 1], ids[3 * f + 2]],
        ),
    }
}

/// What loading the OBJ text `text` as a model gives: the file's error, else
/// an error for a face that refers to no entry of a table, with an index 0 or
/// past its end (vertex tables checked before texture coordinates, those
/// before normals), else the indexed model.
pub open spec fn load_model(text: Seq<char>) -> Result<ModelData, ObjError> {
    match parse_obj(text) {
        Err(e) => Err(e),
        Ok(d) => if !refs_in_bounds(d.v_indices, d.vs.len()) {
            Err(ObjError::IndexOutOfBounds { record: ObjRecord::Vertex })
        } else if !refs_in_bounds(d.vt_indices, d.vts.len()) {
            Err(ObjError::IndexOutOfBounds { record: ObjRecord::TexCoord })
        } else if !refs_in_bounds(d.vn_indices, d.vns.len()) {
            Err(ObjError::IndexOutOfBounds { record: ObjRecord::Normal })
        } else {
            Ok(build_model(d))
        },
    }
}

/// The key under which a corner is looked up.
pub open spec fn corner_key(c: [u16; 3]) -> u64 {
    ((c[0] as u64) << 32u64) | ((c[1] as u64) << 16u64) | (c[2] as u64)
}

proof fn lemma_corner_key_injective(c: [u16; 3], d: [u16; 3])
    requires
        corner_key(c) == corner_key(d),
    ensures
        c == d,
{
    let (a0, a1, a2, b0, b1, b2) = (c[0], c[1], c[2], d[0], d[1], d[2]);
    assert(((a0 as u64) << 32u64) | ((a1 as u64) << 16u64) | (a2 as u64) == ((b0 as u64) << 32u64)
        | ((b1 as u64) << 16u64) | (b2 as u64) ==> a0 == b0 && a1 == b1 && a2 == b2)
        by (bit_vector);
    assert(c =~= d);
}

fn corner_key_exec(c: [u16; 3]) -> (k: u64)
    ensures
        k == corner_key(c),
{
    ((c[0] as u64) << 32u64) | ((c[1] as u64) << 16u64) | (c[2] as u64)
}

/// An indexed model: per vertex, the text of its position, texture
/// coordinate and normal numbers; per triangle, the 0-based indices of its
/// vertices.
#[derive(Clone)]
pub struct ObjModel {
    vs: Vec<Vec<Vec<char>>>,
    vts: Vec<Vec<Vec<char>>>,
    vns: Vec<Vec<Vec<char>>>,
    indices: Vec<[u16; 3]>,
}

impl View for ObjModel {
    type V = ModelData;

    closed spec fn view(&self) -> ModelData {
        ModelData {
            vs: self.vs.deep_view(),
            vts: self.vts.deep_view(),
            vns: self.vns.deep_view(),
            indices: self.indices@,
        }
    }
}

/// Copies the texts of one table entry.
fn copy_entry(v: &Vec<Vec<char>>) -> (r: Vec<Vec<char>>)
    ensures
        r.deep_view() == v.deep_view(),
{
    let mut r: Vec<Vec<char>> = Vec::new();
    for i in 0..v.len()
        invariant
            r.deep_view() == v.deep_view().take(i as int),
    {
        let mut w: Vec<char> = Vec::new();
        let src = &v[i];
        for j in 0..src.len()
            invariant
                w@ == src@.take(j as int),
                i < v.len(),
                *src == v@[i as int],
                r.deep_view() == v.deep_view().take(i as int),
        {
            w.push(src[j]);
            assert(w@ =~= src@.take(j + 1));
        }
        assert(src@.take(src@.len() as int) =~= src@);
        proof {
            lemma_chars_deep_view(w);
            lemma_chars_deep_view(*src);
        }
        let ghost before = r.deep_view();
        let ghost wv = w@;
        assert(v.deep_view()[i as int] == wv);
        r.push(w);
        assert(r.deep_view() =~= before.push(wv));
        assert(v.deep_view().take(i + 1) =~= v.deep_view().take(i as int).push(wv));
    }
    assert(v.deep_view().take(v.len() as int) =~= v.deep_view());
    r
}

/// Tells whether every 1-based index of `ids` names an entry of a table of `len` entries.
fn check_refs(ids: &Vec<[u16; 3]>, len: usize) -> (ok: bool)
    ensures
        ok == refs_in_bounds(ids@, len as nat),
{
    for f in 0..ids.len()
        invariant
            forall|g: int, k: int| 0 <= g < f && 0 <= k < 3 ==> 1 <= #[trigger] ids@[g][k] <= len,
    {
        let tri = ids[f];
        for k in 0..3usize
            invariant
                f < ids.len(),
                tri == ids@[f as int],
                forall|g: int, k2: int| 0 <= g < f && 0 <= k2 < 3 ==> 1 <= #[trigger] ids@[g][k2] <= len,
                forall|k2: int| 0 <= k2 < k ==> 1 <= #[trigger] ids@[f as int][k2] <= len,
        {
            if tri[k] == 0 || len < tri[k] as usize {
                assert(!(1 <= ids@[f as int][k as int] <= len));
                return false;
            }
        }
    }
    true
}

/// The model state after the first `n` corners have been numbered.
spec fn numbered(
    d: ObjData,
    n: int,
    mapper: Map<u64, u16>,
    vs: Seq<Seq<Seq<char>>>,
    vts: Seq<Seq<Seq<char>>>,
    vns: Seq<Seq<Seq<char>>>,
) -> bool {
    let (uniq, ids) = number_corners(corner_list(d).take(n));
    &&& uniq.no_duplicates()
    &&& forall|j: int|
        0 <= j < uniq.len() ==> #[trigger] mapper.contains_key(corner_key(uniq[j])) && mapper[corner_key(
            uniq[j],
        )] == (j % 0x10000) as u16
    &&& forall|key: u64|
        #[trigger] mapper.contains_key(key) ==> exists|j: int|
            0 <= j < uniq.len() && corner_key(#[trigger] uniq[j]) == key
    &&& vs == Seq::new(uniq.len(), |j: int| d.vs[uniq[j][0] as int])
    &&& vts == Seq::new(uniq.len(), |j: int| d.vts[uniq[j][1] as int])
    &&& vns == Seq::new(uniq.len(), |j: int| d.vns[uniq[j][2] as int])
}

proof fn lemma_numbered_start(d: ObjData)
    ensures
        numbered(d, 0, Map::empty(), seq![], seq![], seq![]),
{
    let cs = corner_list(d);
    assert(cs.take(0) =~= Seq::<[u16; 3]>::empty());
    let uniq = number_corners(cs.take(0)).0;
    assert(uniq.len() == 0);
    assert(Seq::new(uniq.len(), |j: int| d.vs[uniq[j][0] as int]) =~= Seq::<Seq<Seq<char>>>::empty());
    assert(Seq::new(uniq.len(), |j: int| d.vts[uniq[j][1] as int]) =~= Seq::<Seq<Seq<char>>>::empty());
    assert(Seq::new(uniq.len(), |j: int| d.vns[uniq[j][2] as int]) =~= Seq::<Seq<Seq<char>>>::empty());
}

proof fn lemma_number_corners_len(cs: Seq<[u16; 3]>)
    ensures
        number_corners(cs).1.len() == cs.len(),
        number_corners(cs).0.len() <= cs.len(),
    decreases cs.len(),
{
    if cs.len() > 0 {
        lemma_number_corners_len(cs.drop_last());
    }
}

proof fn lemma_number_corners_prefix(cs: Seq<[u16; 3]>, n: int, m: int)
    requires
        0 <= n <= m <= cs.len(),
    ensures
        number_corners(cs.take(m)).1.take(n) == number_corners(cs.take(n)).1,
    decreases m - n,
{
    lemma_number_corners_len(cs.take(m));
    lemma_number_corners_len(cs.take(n));
    if n == m {
        assert(number_corners(cs.take(m)).1.take(n) =~= number_corners(cs.take(n)).1);
    } else {
        lemma_number_corners_prefix(cs, n, m - 1);
        assert(cs.take(m).drop_last() =~= cs.take(m - 1));
        lemma_number_corners_len(cs.take(m - 1));
        assert(number_corners(cs.take(m)).1.take(n) =~= number_corners(cs.take(m - 1)).1.take(n));
    }
}

impl ObjModel {
    /// Numbers the corners of a file whose indices all name table entries.
    fn build(file: &ObjFile) -> (m: ObjModel)
        requires
            faces_aligned(file.data()),
            refs_in_bounds(file.data().v_indices, file.data().vs.len()),
            refs_in_bounds(file.data().vt_indices, file.data().vts.len()),
            refs_in_bounds(file.data().vn_indices, file.data().vns.len()),
        ensures
            m@ == build_model(file.data()),
    {
        let ghost d = file.data();
        let ghost cs = corner_list(d);
        let mut mapper: HashMap<u64, u16> = HashMap::new();
        let mut vs: Vec<Vec<Vec<char>>> = Vec::new();
        let mut vts: Vec<Vec<Vec<char>>> = Vec::new();
        let mut vns: Vec<Vec<Vec<char>>> = Vec::new();
        let mut indices: Vec<[u16; 3]> = Vec::new();
        let nf = file.v_indices.len();
        assert(cs.take(0) =~= Seq::<[u16; 3]>::empty());
        assert(vs.deep_view() =~= Seq::new(0, |j: int| d.vs[0]));
        assert(vts.deep_view() =~= Seq::new(0, |j: int| d.vts[0]));
        assert(vns.deep_view() =~= Seq::new(0, |j: int| d.vns[0]));
        assert(number_corners(cs.take(0)) == (Seq::<[u16; 3]>::empty(), Seq::<u16>::empty()));
        assert(mapper@ =~= Map::<u64, u16>::empty());
        proof {
            lemma_numbered_start(d);
            assert(vs.deep_view() =~= Seq::<Seq<Seq<char>>>::empty());
            assert(vts.deep_view() =~= Seq::<Seq<Seq<char>>>::empty());
            assert(vns.deep_view() =~= Seq::<Seq<Seq<char>>>::empty());
            assert(numbered(d, 0, mapper@, vs.deep_view(), vts.deep_view(), vns.deep_view()));
        }
        assert(indices@ =~= Seq::new(0, |g: int| [0u16, 0u16, 0u16]));
        for f in 0..nf
            invariant
                nf == file.v_indices.len(),
                d == file.data(),
                cs == corner_list(d),
                faces_aligned(d),
                refs_in_bounds(d.v_indices, d.vs.len()),
                refs_in_bounds(d.vt_indices, d.vts.len()),
                refs_in_bounds(d.vn_indices, d.vns.len()),
                numbered(d, 3 * f, mapper@, vs.deep_view(), vts.deep_view(), vns.deep_view()),
                indices@ == Seq::new(
                    f as nat,
                    |g: int|
                        [
                            number_corners(cs.take(3 * f)).1[3 * g],
                            number_corners(cs.take(3 * f)).1[3 * g + 1],
                            number_corners(cs.take(3 * f)).1[3 * g + 2],
                        ],
                ),
        {
            let mut tri: [u16; 3] = [0, 0, 0];
            for k in 0..3usize
                invariant
                    nf == file.v_indices.len(),
                    f < nf,
                    d == file.data(),
                    cs == corner_list(d),
                    faces_aligned(d),
                    refs_in_bounds(d.v_indices, d.vs.len()),
                    refs_in_bounds(d.vt_indices, d.vts.len()),
                    refs_in_bounds(d.vn_indices, d.vns.len()),
                    numbered(d, 3 * f + k, mapper@, vs.deep_view(), vts.deep_view(), vns.deep_view()),
                    forall|k2: int|
                        0 <= k2 < k ==> tri[k2] == number_corners(cs.take(3 * f + k)).1[3 * f + k2],
            {
                let ghost n = 3 * f + k;
                let ghost before = number_corners(cs.take(n));
                assert(cs.take(n + 1).drop_last() =~= cs.take(n));
                assert((n / 3) == f && n % 3 == k) by (nonlinear_arith)
                    requires
                        n == 3 * f + k,
                        0 <= k < 3,
                ;
                assert(d.v_indices[f as int][k as int] >= 1);
                assert(d.vt_indices[f as int][k as int] >= 1);
                assert(d.vn_indices[f as int][k as int] >= 1);
                let v = file.v_indices[f][k] - 1;
                let vt = file.vt_indices[f][k] - 1;
                let vn = file.vn_indices[f][k] - 1;
                let corner = [v, vt, vn];
                assert(cs.take(n + 1).last() == cs[n]);
                assert(cs[n] =~= corner);
                let key = corner_key_exec(corner);
                proof {
                    lemma_number_corners_len(cs.take(n));
                }
                match mapper.get(&key) {
                    Some(id) => {
                        let id = *id;
                        proof {
                            let j = choose|j: int|
                                0 <= j < before.0.len() && corner_key(#[trigger] before.0[j]) == key;
                            lemma_corner_key_injective(before.0[j], corner);
                            assert(before.0.contains(corner));
                            let p = before.0.index_of(corner);
                            assert(p == j);
                            assert(number_corners(cs.take(n + 1)).0 == before.0);
                            assert(numbered(d, n as int, mapper@, vs.deep_view(), vts.deep_view(), vns.deep_view()));
                            assert(numbered(
                                d,
                                n + 1,
                                mapper@,
                                vs.deep_view(),
                                vts.deep_view(),
                                vns.deep_view(),
                            ));
                        }
                        tri[k] = id;
                    },
                    None => {
                        proof {
                            assert(numbered(d, n as int, mapper@, vs.deep_view(), vts.deep_view(), vns.deep_view()));
                            if before.0.contains(corner) {
                                let p = before.0.index_of(corner);
                                assert(mapper@.contains_key(corner_key(before.0[p])));
                            }
                        }
                        let id = (vs.len() % 0x10000) as u16;
                        assert(d.v_indices[f as int][k as int] <= d.vs.len());
                        assert(d.vt_indices[f as int][k as int] <= d.vts.len());
                        assert(d.vn_indices[f as int][k as int] <= d.vns.len());
                        let ghost old_vs = vs.deep_view();
                        let ghost old_vts = vts.deep_view();
                        let ghost old_vns = vns.deep_view();
                        let ghost old_mapper = mapper@;
                        let ev = copy_entry(&file.vs[v as usize]);
                        let et = copy_entry(&file.vts[vt as usize]);
                        let en = copy_entry(&file.vns[vn as usize]);
                        vs.push(ev);
                        vts.push(et);
                        vns.push(en);
                        mapper.insert(key, id);
                        proof {
                            let uniq = before.0.push(corner);
                            assert(vs.deep_view() =~= old_vs.push(d.vs[v as int]));
                            assert(vts.deep_view() =~= old_vts.push(d.vts[vt as int]));
                            assert(vns.deep_view() =~= old_vns.push(d.vns[vn as int]));
                            assert(vs.deep_view() =~= Seq::new(
                                uniq.len(),
                                |j: int| d.vs[uniq[j][0] as int],
                            ));
                            assert(vts.deep_view() =~= Seq::new(
                                uniq.len(),
                                |j: int| d.vts[uniq[j][1] as int],
                            ));
                            assert(vns.deep_view() =~= Seq::new(
                                uniq.len(),
                                |j: int| d.vns[uniq[j][2] as int],
                            ));
                            assert forall|j: int| 0 <= j < uniq.len() implies #[trigger] mapper@.contains_key(
                                corner_key(uniq[j]),
                            ) && mapper@[corner_key(uniq[j])] == (j % 0x10000) as u16 by {
                                if j < before.0.len() {
                                    assert(uniq[j] == before.0[j]);
                                    if corner_key(before.0[j]) == key {
                                        lemma_corner_key_injective(before.0[j], corner);
                                    }
                                    assert(old_mapper.contains_key(corner_key(before.0[j])));
                                } else {
                                    assert(uniq[j] == corner);
                                    assert(old_vs.len() == before.0.len());
                                    assert(mapper@[key] == id);
                                }
                            }
                            assert forall|key2: u64| #[trigger] mapper@.contains_key(key2) implies exists|j: int|
                                0 <= j < uniq.len() && corner_key(#[trigger] uniq[j]) == key2 by {
                                if key2 == key {
                                    assert(corner_key(uniq[uniq.len() - 1]) == key2);
                                } else {
                                    let j = choose|j: int|
                                        0 <= j < before.0.len() && corner_key(#[trigger] before.0[j]) == key2;
                                    assert(uniq[j] == before.0[j]);
                                }
                            }
                            assert(uniq.no_duplicates());
                            assert(number_corners(cs.take(n + 1)).0 == uniq);
                            assert(numbered(
                                d,
                                n + 1,
                                mapper@,
                                vs.deep_view(),
                                vts.deep_view(),
                                vns.deep_view(),
                            ));
                        }
                        tri[k] = id;
                    },
                }
                proof {
                    lemma_number_corners_prefix(cs, n, n + 1);
                    lemma_number_corners_len(cs.take(n));
                    lemma_number_corners_len(cs.take(n + 1));
                    assert forall|k2: int| 0 <= k2 < k + 1 implies tri[k2] == number_corners(
                        cs.take(3 * f + k + 1),
                    ).1[3 * f + k2] by {
                        if k2 < k {
                            assert(number_corners(cs.take(n + 1)).1.take(n)[3 * f + k2]
                                == number_corners(cs.take(n + 1)).1[3 * f + k2]);
                        }
                    }
                }
            }
            let ghost n = 3 * f + 3;
            proof {
                lemma_number_corners_len(cs.take(n));
                lemma_number_corners_len(cs.take(3 * f));
                lemma_number_corners_prefix(cs, 3 * f, n);
            }
            let ghost before_ids = indices@;
            indices.push(tri);
            proof {
                let ids_new = number_corners(cs.take(n)).1;
                let ids_old = number_corners(cs.take(3 * f)).1;
                assert forall|g: int| 0 <= g < f implies #[trigger] indices@[g] == [
                    ids_new[3 * g],
                    ids_new[3 * g + 1],
                    ids_new[3 * g + 2],
                ] by {
                    assert(ids_new.take(3 * f)[3 * g] == ids_new[3 * g]);
                    assert(ids_new.take(3 * f)[3 * g + 1] == ids_new[3 * g + 1]);
                    assert(ids_new.take(3 * f)[3 * g + 2] == ids_new[3 * g + 2]);
                }
                assert(indices@[f as int] =~= [ids_new[3 * f], ids_new[3 * f + 1], ids_new[3 * f + 2]]);
                assert(indices@ =~= Seq::new(
                    (f + 1) as nat,
                    |g: int| [ids_new[3 * g], ids_new[3 * g + 1], ids_new[3 * g + 2]],
                ));
            }
        }
        assert(cs.take(3 * nf) =~= cs);
        let m = ObjModel { vs, vts, vns, indices };
        assert(m@ =~~= build_model(d));
        m
    }
}

proof fn lemma_add_triangles_aligned(d: ObjData, tris: Seq<[[u16; 3]; 3]>)
    requires
        faces_aligned(d),
    ensures
        faces_aligned(add_triangles(d, tris)),
    decreases tris.len(),
{
    if tris.len() > 0 {
        lemma_add_triangles_aligned(d, tris.drop_last());
    }
}

/// Reading lines keeps one entry per triangle in each face table.
proof fn lemma_parse_lines_aligned(lines: Seq<Seq<char>>)
    ensures
        parse_lines(lines) matches Ok(d) ==> faces_aligned(d),
    decreases lines.len(),
{
    if lines.len() > 0 {
        lemma_parse_lines_aligned(lines.drop_last());
        if let Ok(d) = parse_lines(lines.drop_last()) {
            if let Ok(tris) = parse_face(words(lines.last())) {
                lemma_add_triangles_aligned(d, tris);
            }
        }
    }
}

impl ObjModel {
    /// Loads an obj file from a source string. Only the one specific subset is supported,
    /// where the model should have only vertices, texture coordinates, and normals. Indices
    /// are expected to be triplets in a form `v_id/vt_id/vn_id`.
    ///
    /// Each distinct `v/vt/vn` corner becomes one vertex of the model, numbered in order
    /// of first appearance.
    pub fn load_from_string(source: &str) -> (r: Result<Self, &'static str>)
        ensures
            match load_model(source@) {
                Ok(m) => r matches Ok(model) && model@ == m,
                Err(e) => r matches Err(msg) && msg == e.text(),
            },
    {
        let file = match ObjFile::parse(source) {
            Ok(f) => f,
            Err(e) => {
                return Err(e.message());
            },
        };
        proof {
            lemma_parse_lines_aligned(text_lines(source@));
        }
        if !check_refs(&file.v_indices, file.vs.len()) {
            return Err(ObjError::IndexOutOfBounds { record: ObjRecord::Vertex }.message());
        }
        if !check_refs(&file.vt_indices, file.vts.len()) {
            return Err(ObjError::IndexOutOfBounds { record: ObjRecord::TexCoord }.message());
        }
        if !check_refs(&file.vn_indices, file.vns.len()) {
            return Err(ObjError::IndexOutOfBounds { record: ObjRecord::Normal }.message());
        }
        Ok(Self::build(&file))
    }

    /// Vertex coordinates: per vertex, the text of its three numbers.
    pub fn vs(&self) -> (r: &[Vec<Vec<char>>])
        ensures
            r.deep_view() == self@.vs,
    {
        self.vs.as_slice()
    }

    /// Texture coordinates: per vertex, the text of its two numbers.
    pub fn vts(&self) -> (r: &[Vec<Vec<char>>])
        ensures
            r.deep_view() == self@.vts,
    {
        self.vts.as_slice()
    }

    /// Normals: per vertex, the text of its three numbers.
    pub fn vns(&self) -> (r: &[Vec<Vec<char>>])
        ensures
            r.deep_view() == self@.vns,
    {
        self.vns.as_slice()
    }

    /// Indices, 0-based.
    pub fn indices(&self) -> (r: &[[u16; 3]])
        ensures
            r@ == self@.indices,
    {
        self.indices.as_slice()
    }
}

/// Numbering corners gives each corner read a number that, while there are
/// at most 65536 distinct corners, points back to that very corner.
proof fn lemma_number_corners_points_back(cs: Seq<[u16; 3]>)
    ensures
        ({
            let (uniq, ids) = number_corners(cs);
            uniq.len() <= 0x10000 ==> forall|n: int|
                0 <= n < cs.len() ==> (#[trigger] ids[n] as int) < uniq.len() && uniq[ids[n]
                    as int] == cs[n]
        }),
    decreases cs.len(),
{
    lemma_number_corners_len(cs);
    if cs.len() > 0 {
        let prev = cs.drop_last();
        let c = cs.last();
        lemma_number_corners_points_back(prev);
        lemma_number_corners_len(prev);
        let (uniq, ids) = number_corners(prev);
        let (uniq2, ids2) = number_corners(cs);
        if uniq2.len() <= 0x10000 {
            assert(uniq.len() <= uniq2.len());
            assert forall|n: int| 0 <= n < cs.len() implies (#[trigger] ids2[n] as int) < uniq2.len()
                && uniq2[ids2[n] as int] == cs[n] by {
                if n < prev.len() {
                    assert(ids2[n] == ids[n]);
                    assert(prev[n] == cs[n]);
                } else {
                    if uniq.contains(c) {
                        let p = uniq.index_of(c);
                        assert(0 <= p < uniq.len() && uniq[p] == c);
                    }
                }
            }
        }
    }
}

/// Every number given to a corner is below the count of distinct corners.
proof fn lemma_number_corners_bounded(cs: Seq<[u16; 3]>)
    ensures
        forall|n: int|
            0 <= n < cs.len() ==> (#[trigger] number_corners(cs).1[n] as int) < number_corners(
                cs,
            ).0.len(),
    decreases cs.len(),
{
    lemma_number_corners_len(cs);
    if cs.len() > 0 {
        let prev = cs.drop_last();
        let c = cs.last();
        lemma_number_corners_bounded(prev);
        lemma_number_corners_len(prev);
        let (uniq, ids) = number_corners(prev);
        let (uniq2, ids2) = number_corners(cs);
        assert forall|n: int| 0 <= n < cs.len() implies (#[trigger] ids2[n] as int) < uniq2.len() by {
            if n < prev.len() {
                assert(ids2[n] == ids[n]);
            } else if uniq.contains(c) {
                let p = uniq.index_of(c);
                assert(0 <= p < uniq.len());
                assert(p % 0x10000 <= p) by (nonlinear_arith)
                    requires
                        p >= 0,
                ;
            } else {
                let l = uniq.len() as int;
                assert(l % 0x10000 <= l) by (nonlinear_arith)
                    requires
                        l >= 0,
                ;
            }
        }
    }
}

/// A loaded model has one position, one texture coordinate and one normal
/// per vertex, one index triple per triangle of the file, and every index
/// names one of its vertices.
pub proof fn law_model_indices_in_bounds(text: Seq<char>)
    requires
        load_model(text) is Ok,
    ensures
        ({
            let m = load_model(text)->Ok_0;
            &&& m.vs.len() == m.vts.len()
            &&& m.vs.len() == m.vns.len()
            &&& m.indices.len() == parse_obj(text)->Ok_0.v_indices.len()
            &&& forall|f: int, k: int|
                0 <= f < m.indices.len() && 0 <= k < 3 ==> (#[trigger] m.indices[f][k] as int)
                    < m.vs.len()
        }),
{
    let d = parse_obj(text)->Ok_0;
    let m = load_model(text)->Ok_0;
    lemma_parse_lines_aligned(text_lines(text));
    let cs = corner_list(d);
    lemma_number_corners_bounded(cs);
    let (uniq, ids) = number_corners(cs);
    assert forall|f: int, k: int| 0 <= f < m.indices.len() && 0 <= k < 3 implies (
    #[trigger] m.indices[f][k] as int) < m.vs.len() by {
        let n = 3 * f + k;
        assert(0 <= n < cs.len()) by (nonlinear_arith)
            requires
                n == 3 * f + k,
                0 <= k < 3,
                0 <= f < d.v_indices.len(),
                cs.len() == 3 * d.v_indices.len(),
        ;
        assert((ids[n] as int) < uniq.len());
        if k == 0 {
            assert(m.indices[f][k] == ids[3 * f]);
        } else if k == 1 {
            assert(m.indices[f][k] == ids[3 * f + 1]);
        } else {
            assert(m.indices[f][k] == ids[3 * f + 2]);
        }
    }
}

/// Each corner of each triangle of a loaded model (with at most 65536
/// distinct corners) carries the position, texture coordinate and normal
/// that its face line named.
pub proof fn law_model_keeps_corners(text: Seq<char>, f: int, k: int)
    requires
        load_model(text) is Ok,
        load_model(text)->Ok_0.vs.len() <= 0x10000,
        0 <= f < load_model(text)->Ok_0.indices.len(),
        0 <= k < 3,
    ensures
        ({
            let m = load_model(text)->Ok_0;
            let d = parse_obj(text)->Ok_0;
            let j = m.indices[f][k] as int;
            &&& j < m.vs.len()
            &&& m.vs.len() == m.vts.len() && m.vs.len() == m.vns.len()
            &&& m.vs[j] == d.vs[d.v_indices[f][k] - 1]
            &&& m.vts[j] == d.vts[d.vt_indices[f][k] - 1]
            &&& m.vns[j] == d.vns[d.vn_indices[f][k] - 1]
        }),
{
    let d = parse_obj(text)->Ok_0;
    lemma_parse_lines_aligned(text_lines(text));
    let cs = corner_list(d);
    lemma_number_corners_points_back(cs);
    let n = 3 * f + k;
    assert(n / 3 == f && n % 3 == k) by (nonlinear_arith)
        requires
            n == 3 * f + k,
            0 <= k < 3,
    ;
    assert(0 <= n < cs.len()) by (nonlinear_arith)
        requires
            n == 3 * f + k,
            0 <= k < 3,
            0 <= f < d.v_indices.len(),
            cs.len() == 3 * d.v_indices.len(),
    ;
    assert(d.v_indices[f][k] != 0 && d.vt_indices[f][k] != 0 && d.vn_indices[f][k] != 0);
    let (uniq, ids) = number_corners(cs);
    assert((ids[n] as int) < uniq.len());
    let m = load_model(text)->Ok_0;
    if k == 0 {
        assert(m.indices[f][k] == ids[3 * f]);
    } else if k == 1 {
        assert(m.indices[f][k] == ids[3 * f + 1]);
    } else {
        assert(m.indices[f][k] == ids[3 * f + 2]);
    }
}

} // verus!
