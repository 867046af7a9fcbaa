//! The rows of a mesh text: which directive a row carries, and what its
//! tokens say.
use crate::error::{CauseView, ParseCause};
use crate::number::{
    check_float_spec, is_float_literal, parse_int, parse_int_spec, FloatError, IntError, Number,
};
use crate::text::{slice_of, split, split_spans, starts_with, Span};
use vstd::prelude::*;

verus! {

broadcast use vstd::string::group_string_axioms;

/// The texts that `spans` cover in `row`.
pub open spec fn span_texts(row: Seq<char>, spans: Seq<Span>) -> Seq<Seq<char>> {
    Seq::new(spans.len(), |k: int| spans[k].of(row))
}

/// The texts of `numbers`, in order.
pub open spec fn texts(numbers: Seq<Number>) -> Seq<Seq<char>> {
    Seq::new(numbers.len(), |k: int| numbers[k]@)
}

/// Every number of `numbers` is a literal.
pub open spec fn all_wf(numbers: Seq<Number>) -> bool {
    forall|k: int| 0 <= k < numbers.len() ==> (#[trigger] numbers[k]).wf()
}

/// The tokens of a row: what stands between its blanks, but for the
/// directive in front.
pub open spec fn tokens(row: Seq<char>) -> Seq<Seq<char>> {
    split(row, ' ').drop_first()
}

/// The directive of a row: what stands before its first blank.
pub open spec fn directive(row: Seq<char>) -> Seq<char> {
    split(row, ' ').first()
}

/// What follows the first blank of a row; `None` where it has no blank.
pub open spec fn after_directive(row: Seq<char>) -> Option<Seq<char>> {
    if split(row, ' ').len() > 1 {
        Some(row.skip(directive(row).len() as int + 1))
    } else {
        None
    }
}

/// Why the first token of `toks` that is no real number is none; `None`
/// where every token is one.
pub open spec fn first_float_error(toks: Seq<Seq<char>>) -> Option<FloatError>
    decreases toks.len(),
{
    if toks.len() == 0 {
        None
    } else {
        match check_float_spec(toks[0]) {
            Err(e) => Some(e),
            Ok(_) => first_float_error(toks.drop_first()),
        }
    }
}

/// Where no token fails the grammar, every token is a literal.
pub proof fn lemma_all_literals(toks: Seq<Seq<char>>)
    ensures
        first_float_error(toks) is None ==> forall|k: int|
            0 <= k < toks.len() ==> is_float_literal(#[trigger] toks[k]),
    decreases toks.len(),
{
    if toks.len() > 0 {
        lemma_all_literals(toks.drop_first());
        if first_float_error(toks) is None {
            assert forall|k: int| 0 <= k < toks.len() implies is_float_literal(
                #[trigger] toks[k],
            ) by {
                if k > 0 {
                    assert(toks.drop_first()[k - 1] == toks[k]);
                }
            }
        }
    }
}

/// Why the first token of `toks` that is no index is none; `None` where
/// every token is one.
pub open spec fn first_int_error(toks: Seq<Seq<char>>) -> Option<IntError>
    decreases toks.len(),
{
    if toks.len() == 0 {
        None
    } else {
        match parse_int_spec(toks[0]) {
            Err(e) => Some(e),
            Ok(_) => first_int_error(toks.drop_first()),
        }
    }
}

/// The value of the index token `tok`, where it is one.
pub open spec fn int_value(tok: Seq<char>) -> isize {
    match parse_int_spec(tok) {
        Ok(v) => v as isize,
        Err(_) => 0,
    }
}

/// The values of the index tokens `toks`.
pub open spec fn int_values(toks: Seq<Seq<char>>) -> Seq<isize> {
    Seq::new(toks.len(), |k: int| int_value(toks[k]))
}

/// One corner of a face: the vertex it stands on and, optionally, its
/// texture coordinate and its normal. As written, a positive index counts
/// from the first element, which is number one, and a negative index from
/// the last, which is number minus one; once the mesh is checked, every
/// index counts from zero.
#[derive(Debug, Clone, Copy)]
pub struct ObjIndex {
    pub vertex: isize,
    pub texture: Option<isize>,
    pub normal: Option<isize>,
}

/// The index in part `k` of a face corner: none where the part is absent or
/// empty.
pub open spec fn optional_index(parts: Seq<Seq<char>>, k: int) -> Result<Option<isize>, IntError> {
    if parts.len() > k && parts[k].len() > 0 {
        match parse_int_spec(parts[k]) {
            Ok(v) => Ok(Some(v as isize)),
            Err(e) => Err(e),
        }
    } else {
        Ok(None)
    }
}

/// What the face corner `el` says: up to three indices with `/` between
/// them, of which the first must be there.
pub open spec fn corner_spec(el: Seq<char>) -> Result<ObjIndex, CauseView> {
    let parts = split(el, '/');
    if parts.len() > 3 {
        Err(CauseView::MalformedIndex)
    } else {
        match parse_int_spec(parts[0]) {
            Err(e) => Err(CauseView::Int(e)),
            Ok(v) => match optional_index(parts, 1) {
                Err(e) => Err(CauseView::Int(e)),
                Ok(t) => match optional_index(parts, 2) {
                    Err(e) => Err(CauseView::Int(e)),
                    Ok(n) => Ok(ObjIndex { vertex: v as isize, texture: t, normal: n }),
                },
            },
        }
    }
}

/// What is wrong with the first corner of `toks` that cannot be read; `None`
/// where every corner can.
pub open spec fn first_corner_error(toks: Seq<Seq<char>>) -> Option<CauseView>
    decreases toks.len(),
{
    if toks.len() == 0 {
        None
    } else {
        match corner_spec(toks[0]) {
            Err(e) => Some(e),
            Ok(_) => first_corner_error(toks.drop_first()),
        }
    }
}

/// The corner that the token `tok` writes, where it writes one.
pub open spec fn corner_value(tok: Seq<char>) -> ObjIndex {
    match corner_spec(tok) {
        Ok(c) => c,
        Err(_) => ObjIndex { vertex: 0, texture: None, normal: None },
    }
}

/// The corners that the tokens `toks` write.
pub open spec fn corner_values(toks: Seq<Seq<char>>) -> Seq<ObjIndex> {
    Seq::new(toks.len(), |k: int| corner_value(toks[k]))
}

/// The spans of the pieces of `row` between its blanks.
pub fn row_spans(row: &[char]) -> (r: Vec<Span>)
    ensures
        1 <= r@.len() <= row@.len() + 1,
        forall|k: int| 0 <= k < r@.len() ==> (#[trigger] r@[k]).within(row@.len()),
        span_texts(row@, r@) == split(row@, ' '),
        r@[0].start == 0,
        r@.len() > 1 ==> r@[0].end < row@.len(),
{
    let r = split_spans(row, ' ');
    proof {
        assert(span_texts(row@, r@) =~= split(row@, ' '));
    }
    r
}

/// Reads every token of a row as a real number. `spans` are the spans of the
/// row's pieces, the directive first.
pub fn read_numbers(row: &[char], spans: &Vec<Span>) -> (r: Result<Vec<Number>, FloatError>)
    requires
        spans@.len() >= 1,
        forall|k: int| 0 <= k < spans@.len() ==> (#[trigger] spans@[k]).within(row@.len()),
    ensures
        match r {
            Ok(v) => first_float_error(span_texts(row@, spans@).drop_first()) is None && texts(v@)
                == span_texts(row@, spans@).drop_first() && all_wf(v@),
            Err(e) => first_float_error(span_texts(row@, spans@).drop_first()) == Some(e),
        },
{
    let ghost toks = span_texts(row@, spans@).drop_first();
    let mut v: Vec<Number> = Vec::new();
    let mut i: usize = 1;
    proof {
        assert(toks.skip(0) =~= toks);
    }
    while i < spans.len()
        invariant
            1 <= i <= spans@.len(),
            toks == span_texts(row@, spans@).drop_first(),
            forall|k: int| 0 <= k < spans@.len() ==> (#[trigger] spans@[k]).within(row@.len()),
            first_float_error(toks) == first_float_error(toks.skip(i - 1)),
            v@.len() == i - 1,
            forall|k: int| 0 <= k < v@.len() ==> (#[trigger] v@[k])@ == toks[k],
            all_wf(v@),
        decreases spans@.len() - i,
    {
        let tok = slice_of(row, spans[i]);
        proof {
            assert(toks.skip(i - 1)[0] == tok@);
            assert(toks.skip(i - 1).drop_first() =~= toks.skip(i as int));
        }
        match Number::parse(tok) {
            Ok(n) => {
                v.push(n);
            },
            Err(e) => {
                return Err(e);
            },
        }
        i = i + 1;
    }
    proof {
        assert(texts(v@) =~= toks);
    }
    Ok(v)
}

/// Reads every token of a row as an index. `spans` are the spans of the
/// row's pieces, the directive first.
pub fn read_indices(row: &[char], spans: &Vec<Span>) -> (r: Result<Vec<isize>, IntError>)
    requires
        spans@.len() >= 1,
        forall|k: int| 0 <= k < spans@.len() ==> (#[trigger] spans@[k]).within(row@.len()),
    ensures
        match r {
            Ok(v) => first_int_error(span_texts(row@, spans@).drop_first()) is None && v@
                == int_values(span_texts(row@, spans@).drop_first()),
            Err(e) => first_int_error(span_texts(row@, spans@).drop_first()) == Some(e),
        },
{
    let ghost toks = span_texts(row@, spans@).drop_first();
    let mut v: Vec<isize> = Vec::new();
    let mut i: usize = 1;
    proof {
        assert(toks.skip(0) =~= toks);
    }
    while i < spans.len()
        invariant
            1 <= i <= spans@.len(),
            toks == span_texts(row@, spans@).drop_first(),
            forall|k: int| 0 <= k < spans@.len() ==> (#[trigger] spans@[k]).within(row@.len()),
            first_int_error(toks) == first_int_error(toks.skip(i - 1)),
            v@.len() == i - 1,
            forall|k: int| 0 <= k < v@.len() ==> #[trigger] v@[k] == int_value(toks[k]),
        decreases spans@.len() - i,
    {
        let tok = slice_of(row, spans[i]);
        proof {
            assert(toks.skip(i - 1)[0] == tok@);
            assert(toks.skip(i - 1).drop_first() =~= toks.skip(i as int));
        }
        match parse_int(tok) {
            Ok(n) => {
                v.push(n);
            },
            Err(e) => {
                return Err(e);
            },
        }
        i = i + 1;
    }
    proof {
        assert(v@ =~= int_values(toks));
    }
    Ok(v)
}

fn read_optional_index(el: &[char], parts: &Vec<Span>, k: usize) -> (r: Result<
    Option<isize>,
    IntError,
>)
    requires
        forall|j: int| 0 <= j < parts@.len() ==> (#[trigger] parts@[j]).within(el@.len()),
    ensures
        r == optional_index(span_texts(el@, parts@), k as int),
{
    if parts.len() > k && parts[k].end > parts[k].start {
        let part = slice_of(el, parts[k]);
        match parse_int(part) {
            Ok(v) => Ok(Some(v)),
            Err(e) => Err(e),
        }
    } else {
        Ok(None)
    }
}

/// Reads one corner of a face.
pub fn read_corner(el: &[char]) -> (r: Result<ObjIndex, ParseCause>)
    ensures
        match r {
            Ok(c) => corner_spec(el@) == Ok::<ObjIndex, CauseView>(c),
            Err(e) => corner_spec(el@) == Err::<ObjIndex, CauseView>(e@),
        },
{
    let parts = split_spans(el, '/');
    proof {
        assert(span_texts(el@, parts@) =~= split(el@, '/'));
    }
    if parts.len() > 3 {
        return Err(ParseCause::MalformedIndex);
    }
    let vertex = match parse_int(slice_of(el, parts[0])) {
        Ok(v) => v,
        Err(e) => {
            return Err(ParseCause::Int(e));
        },
    };
    let texture = match read_optional_index(el, &parts, 1) {
        Ok(t) => t,
        Err(e) => {
            return Err(ParseCause::Int(e));
        },
    };
    let normal = match read_optional_index(el, &parts, 2) {
        Ok(n) => n,
        Err(e) => {
            return Err(ParseCause::Int(e));
        },
    };
    Ok(ObjIndex { vertex, texture, normal })
}

/// Reads every token of a row as a face corner. `spans` are the spans of the
/// row's pieces, the directive first.
pub fn read_corners(row: &[char], spans: &Vec<Span>) -> (r: Result<Vec<ObjIndex>, ParseCause>)
    requires
        spans@.len() >= 1,
        forall|k: int| 0 <= k < spans@.len() ==> (#[trigger] spans@[k]).within(row@.len()),
    ensures
        match r {
            Ok(v) => first_corner_error(span_texts(row@, spans@).drop_first()) is None && v@
                == corner_values(span_texts(row@, spans@).drop_first()),
            Err(e) => first_corner_error(span_texts(row@, spans@).drop_first()) == Some(e@),
        },
{
    let ghost toks = span_texts(row@, spans@).drop_first();
    let mut v: Vec<ObjIndex> = Vec::new();
    let mut i: usize = 1;
    proof {
        assert(toks.skip(0) =~= toks);
    }
    while i < spans.len()
        invariant
            1 <= i <= spans@.len(),
            toks == span_texts(row@, spans@).drop_first(),
            forall|k: int| 0 <= k < spans@.len() ==> (#[trigger] spans@[k]).within(row@.len()),
            first_corner_error(toks) == first_corner_error(toks.skip(i - 1)),
            v@.len() == i - 1,
            forall|k: int| 0 <= k < v@.len() ==> #[trigger] v@[k] == corner_value(toks[k]),
        decreases spans@.len() - i,
    {
        let tok = slice_of(row, spans[i]);
        proof {
            assert(toks.skip(i - 1)[0] == tok@);
            assert(toks.skip(i - 1).drop_first() =~= toks.skip(i as int));
        }
        match read_corner(tok) {
            Ok(c) => {
                v.push(c);
            },
            Err(e) => {
                return Err(e);
            },
        }
        i = i + 1;
    }
    proof {
        assert(v@ =~= corner_values(toks));
    }
    Ok(v)
}

/// The directives of a mesh text.
#[derive(Debug, Clone, Copy, PartialEq, Eq, Structural)]
pub enum RowKind {
    /// A comment, an empty row, an object name or a smoothing group.
    Skip,
    Vertex,
    Face,
    Normal,
    Parameter,
    Texture,
    Line,
    Library,
    Material,
    /// Anything else.
    Unknown,
}

/// The directive that `row` carries.
pub open spec fn row_kind(row: Seq<char>) -> RowKind {
    if "#"@.is_prefix_of(row) || row.len() == 0 || "o "@.is_prefix_of(row) || "s "@.is_prefix_of(
        row,
    ) {
        RowKind::Skip
    } else if "v "@.is_prefix_of(row) {
        RowKind::Vertex
    } else if "f "@.is_prefix_of(row) {
        RowKind::Face
    } else if "vn "@.is_prefix_of(row) {
        RowKind::Normal
    } else if "vp "@.is_prefix_of(row) {
        RowKind::Parameter
    } else if "vt "@.is_prefix_of(row) {
        RowKind::Texture
    } else if "l "@.is_prefix_of(row) {
        RowKind::Line
    } else if "mtllib "@.is_prefix_of(row) {
        RowKind::Library
    } else if "usemtl "@.is_prefix_of(row) {
        RowKind::Material
    } else {
        RowKind::Unknown
    }
}

/// Tells which directive `row` carries.
pub fn classify(row: &[char]) -> (r: RowKind)
    ensures
        r == row_kind(row@),
{
    if starts_with(row, "#") || row.len() == 0 || starts_with(row, "o ") || starts_with(row, "s ") {
        RowKind::Skip
    } else if starts_with(row, "v ") {
        RowKind::Vertex
    } else if starts_with(row, "f ") {
        RowKind::Face
    } else if starts_with(row, "vn ") {
        RowKind::Normal
    } else if starts_with(row, "vp ") {
        RowKind::Parameter
    } else if starts_with(row, "vt ") {
        RowKind::Texture
    } else if starts_with(row, "l ") {
        RowKind::Line
    } else if starts_with(row, "mtllib ") {
        RowKind::Library
    } else if starts_with(row, "usemtl ") {
        RowKind::Material
    } else {
        RowKind::Unknown
    }
}

} // verus!
