//! Cutting the faces of a mesh into triangles.
use crate::error::{ErrorView, WavefrontObjError};
use crate::mtl::{lookup, LibModel, MtlLib};
use crate::rows::ObjIndex;
use crate::wavefront_obj::{ObjModel, WavefrontObj};
use vstd::prelude::*;

verus! {

broadcast use vstd::std_specs::hash::group_hash_axioms;

/// One triangle of a surface: the face it was cut from, counted from zero,
/// its three corners, and its material.
#[derive(Debug)]
pub struct Facet<M> {
    pub face: usize,
    pub a: ObjIndex,
    pub b: ObjIndex,
    pub c: ObjIndex,
    pub material: M,
}

/// The triangles of a mesh.
#[derive(Debug)]
pub struct Surface<M>(pub Vec<Facet<M>>);

impl<M> Facet<M> {
    /// Whether every corner of the triangle has a texture coordinate.
    pub fn is_textured(&self) -> (r: bool)
        ensures
            r == (self.a.texture is Some && self.b.texture is Some && self.c.texture is Some),
    {
        self.a.texture.is_some() && self.b.texture.is_some() && self.c.texture.is_some()
    }
}

impl<M> View for Surface<M> {
    type V = Seq<Facet<M>>;

    open spec fn view(&self) -> Seq<Facet<M>> {
        self.0@
    }
}

/// The number of triangles that a face of `corners` corners is cut into:
/// two fewer than it has corners.
pub open spec fn fan_len(corners: nat) -> nat {
    if corners >= 2 {
        (corners - 2) as nat
    } else {
        0
    }
}

/// The number of triangles that `faces` are cut into.
pub open spec fn triangle_count(faces: Seq<(usize, Seq<ObjIndex>)>) -> nat
    decreases faces.len(),
{
    if faces.len() == 0 {
        0
    } else {
        triangle_count(faces.drop_last()) + fan_len(faces.last().1.len())
    }
}

/// The triangles of face number `face`: a fan around its first corner.
pub open spec fn face_facets<M>(face: int, cs: Seq<ObjIndex>, material: M) -> Seq<Facet<M>> {
    Seq::new(
        fan_len(cs.len()),
        |k: int| Facet { face: face as usize, a: cs[0], b: cs[k + 1], c: cs[k + 2], material },
    )
}

/// The triangles of `faces`, face by face, each with the material that
/// `per_face` gives its face.
pub open spec fn facets<M>(faces: Seq<(usize, Seq<ObjIndex>)>, per_face: Seq<M>) -> Seq<Facet<M>>
    decreases faces.len(),
{
    if faces.len() == 0 {
        Seq::empty()
    } else {
        facets(faces.drop_last(), per_face) + face_facets(
            faces.len() - 1,
            faces.last().1,
            per_face[faces.len() - 1],
        )
    }
}

/// Cutting faces into triangles gives, for each face, two triangles fewer
/// than the face has corners.
pub proof fn lemma_facets_len<M>(faces: Seq<(usize, Seq<ObjIndex>)>, per_face: Seq<M>)
    ensures
        facets(faces, per_face).len() == triangle_count(faces),
    decreases faces.len(),
{
    if faces.len() > 0 {
        lemma_facets_len(faces.drop_last(), per_face);
    }
}

/// The name of the material in use for corner number `key`, where there
/// is one.
pub open spec fn material_of(uses: Map<usize, Seq<char>>, key: int) -> Option<Seq<char>> {
    if 0 <= key <= usize::MAX && uses.contains_key(key as usize) {
        Some(uses[key as usize])
    } else {
        None
    }
}

/// The number in the library `lib` of the material of face number `face`;
/// `None` where the face has none, or the library does not know its name.
pub open spec fn face_material(m: ObjModel, lib: LibModel, face: int) -> Option<usize> {
    match material_of(m.mat_assign, face) {
        Some(name) => lookup(lib.names, name),
        None => None,
    }
}

impl ObjModel {
    /// Every face has a corner.
    pub open spec fn faces_have_corners(self) -> bool {
        forall|i: int| 0 <= i < self.faces.len() ==> (#[trigger] self.faces[i]).1.len() >= 1
    }

    /// The library `lib` knows the material of every face that has one.
    pub open spec fn materials_known(self, lib: LibModel) -> bool {
        forall|face: int|
            0 <= face < self.faces.len() ==> (#[trigger] material_of(self.mat_assign, face) is Some
                ==> face_material(self, lib, face) is Some)
    }

    /// The material of each face in the library `lib`.
    pub open spec fn face_materials(self, lib: LibModel) -> Seq<Option<usize>> {
        Seq::new(self.faces.len(), |face: int| face_material(self, lib, face))
    }
}

impl WavefrontObj {
    fn material_name(&self, key: usize) -> (r: Option<&String>)
        ensures
            match material_of(self@.mat_assign, key as int) {
                Some(name) => r matches Some(s) && s@ == name,
                None => r is None,
            },
    {
        self.mat_assign.get(&key)
    }

    /// Whether the library `lib` knows the material of every face that has
    /// one.
    pub fn materials_known(&self, lib: &MtlLib) -> (r: bool)
        ensures
            r == self@.materials_known(lib@),
    {
        let mut face: usize = 0;
        while face < self.faces.len()
            invariant
                face <= self.faces@.len(),
                self@.faces.len() == self.faces@.len(),
                forall|f: int|
                    0 <= f < face ==> (#[trigger] material_of(self@.mat_assign, f) is Some
                        ==> face_material(self@, lib@, f) is Some),
            decreases self.faces@.len() - face,
        {
            match self.material_name(face) {
                Some(name) => {
                    if lib.index_of(name.as_str()).is_none() {
                        proof {
                            assert(material_of(self@.mat_assign, face as int) is Some);
                            assert(face_material(self@, lib@, face as int) is None);
                        }
                        return false;
                    }
                },
                None => {},
            }
            face = face + 1;
        }
        true
    }

    fn cut<M: Copy>(&self, per_face: &Vec<M>) -> (r: Surface<M>)
        requires
            per_face@.len() == self.faces@.len(),
            forall|i: int|
                0 <= i < self.faces@.len() ==> (#[trigger] self.faces@[i]).corners@.len() >= 1,
        ensures
            r@ == facets(self@.faces, per_face@),
    {
        let ghost faces = self@.faces;
        let mut out: Vec<Facet<M>> = Vec::new();
        let mut i: usize = 0;
        proof {
            assert(faces.take(0) =~= Seq::empty());
        }
        while i < self.faces.len()
            invariant
                i <= self.faces@.len(),
                faces == self@.faces,
                faces.len() == self.faces@.len(),
                per_face@.len() == self.faces@.len(),
                forall|k: int|
                    0 <= k < self.faces@.len() ==> (#[trigger] self.faces@[k]).corners@.len() >= 1,
                out@ == facets(faces.take(i as int), per_face@),
            decreases self.faces@.len() - i,
        {
            let corners = &self.faces[i].corners;
            let material = per_face[i];
            let ghost before = out@;
            let ghost cs = corners@;
            proof {
                assert(faces.take(i as int + 1).drop_last() =~= faces.take(i as int));
                assert(faces.take(i as int + 1).last() == faces[i as int]);
                assert(faces[i as int].1 == cs);
            }
            let count = if corners.len() >= 2 {
                corners.len() - 2
            } else {
                0
            };
            let mut k: usize = 0;
            while k < count
                invariant
                    k <= count,
                    count == fan_len(cs.len()),
                    cs.len() <= usize::MAX,
                    cs == corners@,
                    cs.len() >= 1,
                    out@.len() == before.len() + k,
                    forall|j: int| 0 <= j < before.len() ==> out@[j] == before[j],
                    forall|j: int|
                        0 <= j < k ==> out@[before.len() + j] == face_facets(
                            i as int,
                            cs,
                            material,
                        )[j],
                decreases count - k,
            {
                out.push(
                    Facet {
                        face: i,
                        a: corners[0],
                        b: corners[k + 1],
                        c: corners[k + 2],
                        material,
                    },
                );
                k = k + 1;
            }
            proof {
                assert(out@ =~= before + face_facets(i as int, cs, material));
            }
            i = i + 1;
        }
        proof {
            assert(faces.take(i as int) =~= faces);
        }
        Surface(out)
    }

    /// Cuts every face into triangles, all of the one material `material`.
    pub fn triangulate_with_material<M: Copy>(&self, material: M) -> (r: Surface<M>)
        requires
            self@.faces_have_corners(),
        ensures
            r@ == facets(self@.faces, Seq::new(self@.faces.len(), |i: int| material)),
            r@.len() == triangle_count(self@.faces),
    {
        let mut per_face: Vec<M> = Vec::new();
        let mut i: usize = 0;
        while i < self.faces.len()
            invariant
                i <= self.faces@.len(),
                per_face@.len() == i,
                forall|k: int| 0 <= k < i ==> per_face@[k] == material,
            decreases self.faces@.len() - i,
        {
            per_face.push(material);
            i = i + 1;
        }
        proof {
            assert(per_face@ =~= Seq::new(self@.faces.len(), |i: int| material));
            lemma_facets_len(self@.faces, per_face@);
            assert forall|i: int| 0 <= i < self.faces@.len() implies (
            #[trigger] self.faces@[i]).corners@.len() >= 1 by {
                assert(self@.faces[i].1 == self.faces@[i].corners@);
            }
        }
        self.cut(&per_face)
    }

    /// Cuts every face into triangles. Each triangle gets the number that the
    /// material of its face has in `library`, or none where the face has no
    /// material. Without a library there is no surface.
    pub fn triangulate(&self, library: Option<&MtlLib>) -> (r: Result<
        Surface<Option<usize>>,
        WavefrontObjError,
    >)
        requires
            self@.faces_have_corners(),
            library matches Some(lib) ==> self@.materials_known(lib@),
        ensures
            match library {
                None => r matches Err(e) && e@ == ErrorView::NoMaterial(self@.file),
                Some(lib) => r matches Ok(s) && s@ == facets(
                    self@.faces,
                    self@.face_materials(lib@),
                ) && s@.len() == triangle_count(self@.faces),
            },
    {
        let lib = match library {
            None => {
                return Err(WavefrontObjError::NoMaterial(self.file.clone()));
            },
            Some(lib) => lib,
        };
        let mut per_face: Vec<Option<usize>> = Vec::new();
        let mut i: usize = 0;
        while i < self.faces.len()
            invariant
                i <= self.faces@.len(),
                self@.faces.len() == self.faces@.len(),
                per_face@.len() == i,
                forall|k: int| 0 <= k < i ==> per_face@[k] == face_material(self@, lib@, k),
            decreases self.faces@.len() - i,
        {
            let slot = match self.material_name(i) {
                Some(name) => lib.index_of(name.as_str()),
                None => None,
            };
            per_face.push(slot);
            i = i + 1;
        }
        proof {
            assert(per_face@ =~= self@.face_materials(lib@));
            lemma_facets_len(self@.faces, per_face@);
            assert forall|i: int| 0 <= i < self.faces@.len() implies (
            #[trigger] self.faces@[i]).corners@.len() >= 1 by {
                assert(self@.faces[i].1 == self.faces@[i].corners@);
            }
        }
        Ok(self.cut(&per_face))
    }
}

} // verus!
