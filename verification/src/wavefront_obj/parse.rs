//! Reading a mesh text row by row.
use crate::error::{CauseView, ErrorView, ParseCause, WavefrontObjError};
use crate::number::Number;
use crate::rows::{
    after_directive, classify, corner_values, directive, first_corner_error, first_float_error,
    first_int_error, int_values, lemma_all_literals, read_corners, read_indices, read_numbers,
    row_kind, row_spans, texts, tokens, ObjIndex, RowKind,
};
use crate::text::{chars_of, slice_of, split, split_spans, string_of, Span};
use crate::wavefront_obj::validate::validate_spec;
use crate::wavefront_obj::{
    lemma_names_insert, names_of, opt_text, Face, Normal, ObjModel, OptParams, ParamsModel,
    Polyline, TextureCoord, Vertex, WavefrontObj,
};
use std::collections::HashMap;
use vstd::prelude::*;

verus! {

broadcast use {vstd::std_specs::hash::group_hash_axioms, vstd::string::group_string_axioms};

/// The state of reading a mesh text: the mesh so far, the material in use,
/// and the number of face corners read.
pub struct ParserView {
    pub obj: ObjModel,
    pub current_material: Option<Seq<char>>,
    pub corner_count: nat,
}

/// Why a row of a known directive is refused.
pub enum RowFault {
    Cause(CauseView),
    IncompleteVertex,
    IncompleteFace,
    IncompleteNormal,
}

/// The error that reports the fault `fault` of row `row` of `file`.
pub open spec fn fault_error(file: Seq<char>, row: usize, fault: RowFault) -> ErrorView {
    match fault {
        RowFault::Cause(c) => ErrorView::ParseError(file, row, c),
        RowFault::IncompleteVertex => ErrorView::IncompleteVertex(file, row),
        RowFault::IncompleteFace => ErrorView::IncompleteFace(file, row),
        RowFault::IncompleteNormal => ErrorView::IncompleteNormal(file, row),
    }
}

/// A vertex row: real numbers, three at least; the fourth is `1` where it is
/// not written, and what follows the fourth is read and dropped.
pub open spec fn vertex_row(toks: Seq<Seq<char>>) -> Result<Seq<Seq<char>>, RowFault> {
    match first_float_error(toks) {
        Some(e) => Err(RowFault::Cause(CauseView::Float(e))),
        None => if toks.len() < 3 {
            Err(RowFault::IncompleteVertex)
        } else {
            Ok(
                seq![
                    toks[0],
                    toks[1],
                    toks[2],
                    if toks.len() >= 4 {
                        toks[3]
                    } else {
                        "1"@
                    },
                ],
            )
        },
    }
}

/// A normal row: exactly three real numbers.
pub open spec fn normal_row(toks: Seq<Seq<char>>) -> Result<Seq<Seq<char>>, RowFault> {
    match first_float_error(toks) {
        Some(e) => Err(RowFault::Cause(CauseView::Float(e))),
        None => if toks.len() != 3 {
            Err(RowFault::IncompleteNormal)
        } else {
            Ok(toks)
        },
    }
}

/// A parameter row: real numbers, one at least; what follows the third is
/// read and dropped.
pub open spec fn parameter_row(toks: Seq<Seq<char>>) -> Result<ParamsModel, RowFault> {
    match first_float_error(toks) {
        Some(e) => Err(RowFault::Cause(CauseView::Float(e))),
        None => if toks.len() == 0 {
            Err(RowFault::IncompleteVertex)
        } else {
            Ok(
                ParamsModel {
                    u: toks[0],
                    v: if toks.len() > 1 {
                        Some(toks[1])
                    } else {
                        None
                    },
                    w: if toks.len() > 2 {
                        Some(toks[2])
                    } else {
                        None
                    },
                },
            )
        },
    }
}

/// A texture row: real numbers, one at least; the second and third are `0`
/// where they are not written, and what follows the third is read and
/// dropped.
pub open spec fn texture_row(toks: Seq<Seq<char>>) -> Result<Seq<Seq<char>>, RowFault> {
    match first_float_error(toks) {
        Some(e) => Err(RowFault::Cause(CauseView::Float(e))),
        None => if toks.len() == 0 {
            Err(RowFault::IncompleteVertex)
        } else {
            Ok(
                seq![
                    toks[0],
                    if toks.len() > 1 {
                        toks[1]
                    } else {
                        "0"@
                    },
                    if toks.len() > 2 {
                        toks[2]
                    } else {
                        "0"@
                    },
                ],
            )
        },
    }
}

/// A face row: three corners or more.
pub open spec fn face_row(toks: Seq<Seq<char>>) -> Result<Seq<ObjIndex>, RowFault> {
    if toks.len() < 3 {
        Err(RowFault::IncompleteFace)
    } else {
        match first_corner_error(toks) {
            Some(c) => Err(RowFault::Cause(c)),
            None => Ok(corner_values(toks)),
        }
    }
}

/// The map `map` with the name `name` put under each of the `count` keys
/// from `first` on.
pub open spec fn assigned(
    map: Map<usize, Seq<char>>,
    first: nat,
    count: nat,
    name: Seq<char>,
) -> Map<usize, Seq<char>> {
    Map::new(
        |k: usize| map.contains_key(k) || first <= k < first + count,
        |k: usize|
            if first <= k < first + count {
                name
            } else {
                map[k]
            },
    )
}

/// Puts the name `name` under each of the `count` keys from `first` on.
fn assign(map: &mut HashMap<usize, String>, first: usize, count: usize, name: &String)
    requires
        first + count <= usize::MAX,
    ensures
        names_of(final(map)@) == assigned(names_of(old(map)@), first as nat, count as nat, name@),
{
    let mut k: usize = 0;
    proof {
        assert(names_of(map@) =~= assigned(names_of(old(map)@), first as nat, 0, name@));
    }
    while k < count
        invariant
            k <= count,
            first + count <= usize::MAX,
            names_of(map@) == assigned(names_of(old(map)@), first as nat, k as nat, name@),
        decreases count - k,
    {
        let ghost before = map@;
        let copy = name.clone();
        map.insert(first + k, copy);
        proof {
            lemma_names_insert(before, (first + k) as usize, copy);
            assert(names_of(map@) =~= assigned(
                names_of(old(map)@),
                first as nat,
                (k + 1) as nat,
                name@,
            ));
        }
        k = k + 1;
    }
}

/// A polyline row: indices.
pub open spec fn line_row(toks: Seq<Seq<char>>) -> Result<Seq<isize>, RowFault> {
    match first_int_error(toks) {
        Some(e) => Err(RowFault::Cause(CauseView::Int(e))),
        None => Ok(int_values(toks)),
    }
}

/// What reading row number `n` does to the state `p`: the state after it
/// and the material library that the row asks for, or the error that the
/// row gives.
pub open spec fn step(p: ParserView, row: Seq<char>, n: usize) -> Result<
    (ParserView, Option<Seq<char>>),
    ErrorView,
> {
    let toks = tokens(row);
    let file = p.obj.file;
    match row_kind(row) {
        RowKind::Skip => Ok((p, None)),
        RowKind::Vertex => match vertex_row(toks) {
            Err(f) => Err(fault_error(file, n, f)),
            Ok(v) => Ok(
                (
                    ParserView {
                        obj: ObjModel { vertices: p.obj.vertices.push(v), ..p.obj },
                        ..p
                    },
                    None,
                ),
            ),
        },
        RowKind::Face => match face_row(toks) {
            Err(f) => Err(fault_error(file, n, f)),
            Ok(cs) => Ok(
                (
                    ParserView {
                        obj: ObjModel {
                            faces: p.obj.faces.push((n, cs)),
                            mat_assign: match p.current_material {
                                Some(m) => assigned(
                                    p.obj.mat_assign,
                                    p.corner_count,
                                    cs.len(),
                                    m,
                                ),
                                None => p.obj.mat_assign,
                            },
                            ..p.obj
                        },
                        corner_count: p.corner_count + cs.len(),
                        ..p
                    },
                    None,
                ),
            ),
        },
        RowKind::Normal => match normal_row(toks) {
            Err(f) => Err(fault_error(file, n, f)),
            Ok(v) => Ok(
                (
                    ParserView {
                        obj: ObjModel { vertex_normals: p.obj.vertex_normals.push(v), ..p.obj },
                        ..p
                    },
                    None,
                ),
            ),
        },
        RowKind::Parameter => match parameter_row(toks) {
            Err(f) => Err(fault_error(file, n, f)),
            Ok(v) => Ok(
                (
                    ParserView {
                        obj: ObjModel {
                            parameter_vertices: p.obj.parameter_vertices.push(v),
                            ..p.obj
                        },
                        ..p
                    },
                    None,
                ),
            ),
        },
        RowKind::Texture => match texture_row(toks) {
            Err(f) => Err(fault_error(file, n, f)),
            Ok(v) => Ok(
                (
                    ParserView {
                        obj: ObjModel { texture_coords: p.obj.texture_coords.push(v), ..p.obj },
                        ..p
                    },
                    None,
                ),
            ),
        },
        RowKind::Line => match line_row(toks) {
            Err(f) => Err(fault_error(file, n, f)),
            Ok(vs) => Ok(
                (
                    ParserView {
                        obj: ObjModel { lines: p.obj.lines.push((n, vs)), ..p.obj },
                        ..p
                    },
                    None,
                ),
            ),
        },
        RowKind::Library => if toks.len() > 0 {
            Ok(
                (
                    ParserView { obj: ObjModel { library: Some(toks[0]), ..p.obj }, ..p },
                    Some(toks[0]),
                ),
            )
        } else {
            Err(ErrorView::ParseError(file, n, CauseView::MissingArgument("mtllib"@)))
        },
        RowKind::Material => match after_directive(row) {
            Some(name) => Ok((ParserView { current_material: Some(name), ..p }, None)),
            None => Err(ErrorView::ParseError(file, n, CauseView::MissingArgument("usemtl"@))),
        },
        RowKind::Unknown => Err(ErrorView::UnsupportedType(file, directive(row), n)),
    }
}

/// Reading a row keeps every number a literal and every face at three
/// corners or more.
pub proof fn lemma_step_keeps_wf(p: ParserView, row: Seq<char>, n: usize)
    requires
        p.obj.wf(),
    ensures
        step(p, row, n) matches Ok((q, _)) ==> q.obj.wf(),
{
    crate::number::lemma_zero_and_one_are_literals();
    let toks = tokens(row);
    lemma_all_literals(toks);
}

/// A row adds one vertex, one texture coordinate or one normal at most.
pub proof fn lemma_step_adds_one_at_most(p: ParserView, row: Seq<char>, n: usize)
    ensures
        step(p, row, n) matches Ok((q, _)) ==> {
            &&& q.obj.vertices.len() <= p.obj.vertices.len() + 1
            &&& q.obj.texture_coords.len() <= p.obj.texture_coords.len() + 1
            &&& q.obj.vertex_normals.len() <= p.obj.vertex_normals.len() + 1
        },
{
}

/// The state in which reading starts: an empty mesh, no material in use.
pub open spec fn start(file: Seq<char>) -> ParserView {
    ParserView { obj: ObjModel::empty(file), current_material: None, corner_count: 0 }
}

/// What reading the rows from number `from` on does to the state `p`. Rows
/// are numbered from zero here and from one in reports; the first row that
/// gives an error ends the reading.
pub open spec fn feed(p: ParserView, rows: Seq<Seq<char>>, from: int) -> Result<
    ParserView,
    ErrorView,
>
    decreases rows.len() - from,
{
    if from < 0 || from >= rows.len() {
        Ok(p)
    } else {
        match step(p, rows[from], (from + 1) as usize) {
            Err(e) => Err(e),
            Ok((q, _)) => feed(q, rows, from + 1),
        }
    }
}

/// A mesh text is read row by row, and the mesh it gives is then checked.
pub open spec fn parse_spec(data: Seq<char>, file: Seq<char>) -> Result<ObjModel, ErrorView> {
    match feed(start(file), split(data, '\n'), 0) {
        Err(e) => Err(e),
        Ok(p) => validate_spec(p.obj),
    }
}

/// Reads a mesh text row by row.
#[derive(Debug)]
pub struct ObjParser {
    /// The mesh read so far.
    pub obj: WavefrontObj,
    /// The material in use.
    pub current_material: Option<String>,
    /// The number of face corners read.
    pub corner_count: usize,
}

impl View for ObjParser {
    type V = ParserView;

    open spec fn view(&self) -> ParserView {
        ParserView {
            obj: self.obj@,
            current_material: opt_text(self.current_material),
            corner_count: self.corner_count as nat,
        }
    }
}

/// What a row asks of the one who feeds the rows.
#[derive(Debug)]
pub enum RowEvent {
    /// Nothing: go on with the next row.
    Nothing,
    /// The row names a material library, which is to be read.
    LibraryWanted(String),
}

impl View for RowEvent {
    type V = Option<Seq<char>>;

    open spec fn view(&self) -> Option<Seq<char>> {
        match self {
            RowEvent::Nothing => None,
            RowEvent::LibraryWanted(name) => Some(name@),
        }
    }
}

impl ObjParser {
    /// The state in which reading starts.
    pub fn new(file: &str) -> (r: ObjParser)
        ensures
            r@ == start(file@),
    {
        ObjParser { obj: WavefrontObj::new(file), current_material: None, corner_count: 0 }
    }

    fn fault(&self, row_num: usize, cause: ParseCause) -> (e: WavefrontObjError)
        ensures
            e@ == ErrorView::ParseError(self@.obj.file, row_num, cause@),
    {
        WavefrontObjError::ParseError(self.obj.file.clone(), row_num, cause)
    }

    fn feed_vertex(&mut self, row: &[char], row_num: usize) -> (r: Result<(), WavefrontObjError>)
        ensures
            match vertex_row(tokens(row@)) {
                Ok(v) => r is Ok && final(self)@ == (ParserView {
                    obj: ObjModel { vertices: old(self)@.obj.vertices.push(v), ..old(self)@.obj },
                    ..old(self)@
                }),
                Err(f) => r matches Err(e) && e@ == fault_error(old(self)@.obj.file, row_num, f)
                    && final(self)@ == old(self)@,
            },
            final(self).corner_count <= old(self).corner_count + row@.len(),
    {
        let spans = row_spans(row);
        match read_numbers(row, &spans) {
            Err(e) => Err(self.fault(row_num, ParseCause::Float(e))),
            Ok(nums) => {
                if nums.len() < 3 {
                    return Err(
                        WavefrontObjError::IncompleteVertex(self.obj.file.clone(), row_num),
                    );
                }
                let w = if nums.len() >= 4 {
                    nums[3].clone()
                } else {
                    Number::one()
                };
                let v = Vertex { x: nums[0].clone(), y: nums[1].clone(), z: nums[2].clone(), w };
                proof {
                    let toks = tokens(row@);
                    assert(texts(nums@) == toks);
                    assert(texts(nums@)[0] == nums@[0]@);
                    assert(texts(nums@)[1] == nums@[1]@);
                    assert(texts(nums@)[2] == nums@[2]@);
                    if nums@.len() >= 4 {
                        assert(texts(nums@)[3] == nums@[3]@);
                    }
                    assert(v@ =~= vertex_row(toks)->Ok_0);
                }
                self.obj.vertices.push(v);
                proof {
                    assert(self@.obj.vertices =~= old(self)@.obj.vertices.push(v@));
                    assert(self@ =~~= (ParserView {
                        obj: ObjModel {
                            vertices: old(self)@.obj.vertices.push(v@),
                            ..old(self)@.obj
                        },
                        ..old(self)@
                    }));
                }
                Ok(())
            },
        }
    }

    fn feed_normal(&mut self, row: &[char], row_num: usize) -> (r: Result<(), WavefrontObjError>)
        ensures
            match normal_row(tokens(row@)) {
                Ok(v) => r is Ok && final(self)@ == (ParserView {
                    obj: ObjModel {
                        vertex_normals: old(self)@.obj.vertex_normals.push(v),
                        ..old(self)@.obj
                    },
                    ..old(self)@
                }),
                Err(f) => r matches Err(e) && e@ == fault_error(old(self)@.obj.file, row_num, f)
                    && final(self)@ == old(self)@,
            },
            final(self).corner_count <= old(self).corner_count + row@.len(),
    {
        let spans = row_spans(row);
        match read_numbers(row, &spans) {
            Err(e) => Err(self.fault(row_num, ParseCause::Float(e))),
            Ok(nums) => {
                if nums.len() != 3 {
                    return Err(
                        WavefrontObjError::IncompleteNormal(self.obj.file.clone(), row_num),
                    );
                }
                let v = Normal { x: nums[0].clone(), y: nums[1].clone(), z: nums[2].clone() };
                proof {
                    let toks = tokens(row@);
                    assert(texts(nums@) == toks);
                    assert(texts(nums@)[0] == nums@[0]@);
                    assert(texts(nums@)[1] == nums@[1]@);
                    assert(texts(nums@)[2] == nums@[2]@);
                    assert(v@ =~= toks);
                }
                self.obj.vertex_normals.push(v);
                proof {
                    assert(self@.obj.vertex_normals =~= old(self)@.obj.vertex_normals.push(v@));
                    assert(self@ =~~= (ParserView {
                        obj: ObjModel {
                            vertex_normals: old(self)@.obj.vertex_normals.push(v@),
                            ..old(self)@.obj
                        },
                        ..old(self)@
                    }));
                }
                Ok(())
            },
        }
    }

    fn feed_parameter(&mut self, row: &[char], row_num: usize) -> (r: Result<
        (),
        WavefrontObjError,
    >)
        ensures
            match parameter_row(tokens(row@)) {
                Ok(v) => r is Ok && final(self)@ == (ParserView {
                    obj: ObjModel {
                        parameter_vertices: old(self)@.obj.parameter_vertices.push(v),
                        ..old(self)@.obj
                    },
                    ..old(self)@
                }),
                Err(f) => r matches Err(e) && e@ == fault_error(old(self)@.obj.file, row_num, f)
                    && final(self)@ == old(self)@,
            },
            final(self).corner_count <= old(self).corner_count + row@.len(),
    {
        let spans = row_spans(row);
        match read_numbers(row, &spans) {
            Err(e) => Err(self.fault(row_num, ParseCause::Float(e))),
            Ok(nums) => {
                if nums.len() == 0 {
                    return Err(
                        WavefrontObjError::IncompleteVertex(self.obj.file.clone(), row_num),
                    );
                }
                let second = if nums.len() > 1 {
                    Some(nums[1].clone())
                } else {
                    None
                };
                let third = if nums.len() > 2 {
                    Some(nums[2].clone())
                } else {
                    None
                };
                let v = OptParams { u: nums[0].clone(), v: second, w: third };
                proof {
                    let toks = tokens(row@);
                    assert(texts(nums@) == toks);
                    assert(texts(nums@)[0] == nums@[0]@);
                    if nums@.len() > 1 {
                        assert(texts(nums@)[1] == nums@[1]@);
                    }
                    if nums@.len() > 2 {
                        assert(texts(nums@)[2] == nums@[2]@);
                    }
                    assert(v@ == parameter_row(toks)->Ok_0);
                }
                self.obj.parameter_vertices.push(v);
                proof {
                    assert(self@.obj.parameter_vertices =~= old(self)@.obj.parameter_vertices.push(
                        v@,
                    ));
                    assert(self@ =~~= (ParserView {
                        obj: ObjModel {
                            parameter_vertices: old(self)@.obj.parameter_vertices.push(v@),
                            ..old(self)@.obj
                        },
                        ..old(self)@
                    }));
                }
                Ok(())
            },
        }
    }

    fn feed_texture(&mut self, row: &[char], row_num: usize) -> (r: Result<(), WavefrontObjError>)
        ensures
            match texture_row(tokens(row@)) {
                Ok(v) => r is Ok && final(self)@ == (ParserView {
                    obj: ObjModel {
                        texture_coords: old(self)@.obj.texture_coords.push(v),
                        ..old(self)@.obj
                    },
                    ..old(self)@
                }),
                Err(f) => r matches Err(e) && e@ == fault_error(old(self)@.obj.file, row_num, f)
                    && final(self)@ == old(self)@,
            },
            final(self).corner_count <= old(self).corner_count + row@.len(),
    {
        let spans = row_spans(row);
        match read_numbers(row, &spans) {
            Err(e) => Err(self.fault(row_num, ParseCause::Float(e))),
            Ok(nums) => {
                if nums.len() == 0 {
                    return Err(
                        WavefrontObjError::IncompleteVertex(self.obj.file.clone(), row_num),
                    );
                }
                let second = if nums.len() > 1 {
                    nums[1].clone()
                } else {
                    Number::zero()
                };
                let third = if nums.len() > 2 {
                    nums[2].clone()
                } else {
                    Number::zero()
                };
                let v = TextureCoord { u: nums[0].clone(), v: second, w: third };
                proof {
                    let toks = tokens(row@);
                    assert(texts(nums@) == toks);
                    assert(texts(nums@)[0] == nums@[0]@);
                    if nums@.len() > 1 {
                        assert(texts(nums@)[1] == nums@[1]@);
                    }
                    if nums@.len() > 2 {
                        assert(texts(nums@)[2] == nums@[2]@);
                    }
                    assert(v@ =~= texture_row(toks)->Ok_0);
                }
                self.obj.texture_coords.push(v);
                proof {
                    assert(self@.obj.texture_coords =~= old(self)@.obj.texture_coords.push(v@));
                    assert(self@ =~~= (ParserView {
                        obj: ObjModel {
                            texture_coords: old(self)@.obj.texture_coords.push(v@),
                            ..old(self)@.obj
                        },
                        ..old(self)@
                    }));
                }
                Ok(())
            },
        }
    }

    fn feed_line(&mut self, row: &[char], row_num: usize) -> (r: Result<(), WavefrontObjError>)
        ensures
            match line_row(tokens(row@)) {
                Ok(vs) => r is Ok && final(self)@ == (ParserView {
                    obj: ObjModel {
                        lines: old(self)@.obj.lines.push((row_num, vs)),
                        ..old(self)@.obj
                    },
                    ..old(self)@
                }),
                Err(f) => r matches Err(e) && e@ == fault_error(old(self)@.obj.file, row_num, f)
                    && final(self)@ == old(self)@,
            },
            final(self).corner_count <= old(self).corner_count + row@.len(),
    {
        let spans = row_spans(row);
        match read_indices(row, &spans) {
            Err(e) => Err(self.fault(row_num, ParseCause::Int(e))),
            Ok(vertices) => {
                let line = Polyline { row: row_num, vertices };
                self.obj.lines.push(line);
                proof {
                    assert(self@.obj.lines =~= old(self)@.obj.lines.push(line@));
                    assert(self@ =~~= (ParserView {
                        obj: ObjModel {
                            lines: old(self)@.obj.lines.push(line@),
                            ..old(self)@.obj
                        },
                        ..old(self)@
                    }));
                }
                Ok(())
            },
        }
    }

    fn feed_face(&mut self, row: &[char], row_num: usize) -> (r: Result<(), WavefrontObjError>)
        requires
            old(self).corner_count + row@.len() <= usize::MAX,
        ensures
            match face_row(tokens(row@)) {
                Ok(cs) => r is Ok && final(self)@ == (ParserView {
                    obj: ObjModel {
                        faces: old(self)@.obj.faces.push((row_num, cs)),
                        mat_assign: match old(self)@.current_material {
                            Some(m) => assigned(
                                old(self)@.obj.mat_assign,
                                old(self)@.corner_count,
                                cs.len(),
                                m,
                            ),
                            None => old(self)@.obj.mat_assign,
                        },
                        ..old(self)@.obj
                    },
                    corner_count: old(self)@.corner_count + cs.len(),
                    ..old(self)@
                }) && cs.len() <= row@.len(),
                Err(f) => r matches Err(e) && e@ == fault_error(old(self)@.obj.file, row_num, f)
                    && final(self)@ == old(self)@,
            },
            final(self).corner_count <= old(self).corner_count + row@.len(),
    {
        let spans = row_spans(row);
        if spans.len() - 1 < 3 {
            return Err(WavefrontObjError::IncompleteFace(self.obj.file.clone(), row_num));
        }
        match read_corners(row, &spans) {
            Err(c) => Err(self.fault(row_num, c)),
            Ok(corners) => {
                let count = corners.len();
                let end = self.corner_count + count;
                match &self.current_material {
                    Some(name) => {
                        assign(&mut self.obj.mat_assign, self.corner_count, count, name);
                    },
                    None => {},
                }
                let face = Face { row: row_num, corners };
                self.obj.faces.push(face);
                self.corner_count = end;
                proof {
                    assert(self@.obj.faces =~= old(self)@.obj.faces.push(face@));
                    assert(self@ =~~= (ParserView {
                        obj: ObjModel {
                            faces: old(self)@.obj.faces.push(face@),
                            mat_assign: self@.obj.mat_assign,
                            ..old(self)@.obj
                        },
                        corner_count: (old(self)@.corner_count + count) as nat,
                        ..old(self)@
                    }));
                }
                Ok(())
            },
        }
    }

    /// Reads the row `row`, the `row_num`th of its text counted from one.
    /// Where the row names a material library, the event says so. A row
    /// that is refused leaves the state as it was.
    pub fn feed_row(&mut self, row: &[char], row_num: usize) -> (r: Result<
        RowEvent,
        WavefrontObjError,
    >)
        requires
            old(self).corner_count + row@.len() <= usize::MAX,
        ensures
            match step(old(self)@, row@, row_num) {
                Ok((q, wanted)) => r matches Ok(ev) && ev@ == wanted && final(self)@ == q,
                Err(e) => r matches Err(x) && x@ == e && final(self)@ == old(self)@,
            },
            final(self).corner_count <= old(self).corner_count + row@.len(),
            old(self)@.obj.wf() && r is Ok ==> final(self)@.obj.wf(),
    {
        proof {
            if old(self)@.obj.wf() {
                lemma_step_keeps_wf(old(self)@, row@, row_num);
            }
        }
        match classify(row) {
            RowKind::Skip => Ok(RowEvent::Nothing),
            RowKind::Vertex => match self.feed_vertex(row, row_num) {
                Ok(()) => Ok(RowEvent::Nothing),
                Err(e) => Err(e),
            },
            RowKind::Face => match self.feed_face(row, row_num) {
                Ok(()) => Ok(RowEvent::Nothing),
                Err(e) => Err(e),
            },
            RowKind::Normal => match self.feed_normal(row, row_num) {
                Ok(()) => Ok(RowEvent::Nothing),
                Err(e) => Err(e),
            },
            RowKind::Parameter => match self.feed_parameter(row, row_num) {
                Ok(()) => Ok(RowEvent::Nothing),
                Err(e) => Err(e),
            },
            RowKind::Texture => match self.feed_texture(row, row_num) {
                Ok(()) => Ok(RowEvent::Nothing),
                Err(e) => Err(e),
            },
            RowKind::Line => match self.feed_line(row, row_num) {
                Ok(()) => Ok(RowEvent::Nothing),
                Err(e) => Err(e),
            },
            RowKind::Library => {
                let spans = row_spans(row);
                if spans.len() > 1 {
                    let name = string_of(slice_of(row, spans[1]));
                    let wanted = name.clone();
                    self.obj.library = Some(name);
                    proof {
                        assert(tokens(row@)[0] == wanted@);
                        assert(self@ =~~= (ParserView {
                            obj: ObjModel { library: Some(wanted@), ..old(self)@.obj },
                            ..old(self)@
                        }));
                    }
                    Ok(RowEvent::LibraryWanted(wanted))
                } else {
                    Err(self.fault(row_num, ParseCause::MissingArgument("mtllib".to_owned())))
                }
            },
            RowKind::Material => {
                let spans = row_spans(row);
                if spans.len() > 1 {
                    let rest = slice_of(row, Span { start: spans[0].end + 1, end: row.len() });
                    let name = string_of(rest);
                    proof {
                        assert(spans@[0].of(row@) == directive(row@));
                        assert(rest@ =~= row@.skip(directive(row@).len() as int + 1));
                    }
                    self.current_material = Some(name);
                    proof {
                        assert(self@ =~~= (ParserView {
                            current_material: after_directive(row@),
                            ..old(self)@
                        }));
                    }
                    Ok(RowEvent::Nothing)
                } else {
                    Err(self.fault(row_num, ParseCause::MissingArgument("usemtl".to_owned())))
                }
            },
            RowKind::Unknown => {
                let spans = row_spans(row);
                let word = string_of(slice_of(row, spans[0]));
                Err(WavefrontObjError::UnsupportedType(self.obj.file.clone(), word, row_num))
            },
        }
    }

    /// Ends the reading: checks the mesh and hands it out. The mesh must
    /// hold no more elements of a kind than an index can count.
    pub fn finish(self) -> (r: Result<WavefrontObj, WavefrontObjError>)
        requires
            self@.obj.countable(),
        ensures
            match validate_spec(self@.obj) {
                Ok(m) => r matches Ok(o) && o@ == m && m.indexed() && (self@.obj.wf() ==> m.wf()),
                Err(e) => r matches Err(x) && x@ == e,
            },
    {
        self.obj.validate()
    }
}

impl WavefrontObj {
    /// Reads the mesh text `data`. `file` is the name under which errors
    /// report it. The material libraries that the text names are not read:
    /// the mesh holds the name of the last one. The text must be short
    /// enough for an index to count its rows.
    pub fn from_text(data: &str, file: &str) -> (r: Result<WavefrontObj, WavefrontObjError>)
        requires
            data@.len() < isize::MAX,
        ensures
            match parse_spec(data@, file@) {
                Ok(m) => r matches Ok(o) && o@ == m && m.wf() && m.indexed(),
                Err(e) => r matches Err(x) && x@ == e,
            },
    {
        let text = chars_of(data);
        let spans = split_spans(text.as_slice(), '\n');
        let ghost rows = split(data@, '\n');
        let mut parser = ObjParser::new(file);
        let mut i: usize = 0;
        while i < spans.len()
            invariant
                i <= spans@.len(),
                text@ == data@,
                text@.len() < isize::MAX,
                rows == split(data@, '\n'),
                spans@.len() == rows.len(),
                spans@.len() <= text@.len() + 1,
                forall|k: int|
                    0 <= k < spans@.len() ==> (#[trigger] spans@[k]).within(text@.len())
                        && spans@[k].of(text@) == rows[k],
                forall|k: int|
                    0 <= k < spans@.len() - 1 ==> (#[trigger] spans@[k]).end + 1 == spans@[k
                        + 1].start,
                i < spans@.len() ==> parser.corner_count <= spans@[i as int].start,
                feed(start(file@), rows, 0) == feed(parser@, rows, i as int),
                parser@.obj.wf(),
                parser@.obj.vertices.len() <= i,
                parser@.obj.texture_coords.len() <= i,
                parser@.obj.vertex_normals.len() <= i,
            decreases spans@.len() - i,
        {
            proof {
                lemma_step_adds_one_at_most(parser@, rows[i as int], (i + 1) as usize);
            }
            let row = slice_of(text.as_slice(), spans[i]);
            match parser.feed_row(row, i + 1) {
                Ok(_) => {},
                Err(e) => {
                    return Err(e);
                },
            }
            i = i + 1;
        }
        parser.finish()
    }
}

} // verus!
