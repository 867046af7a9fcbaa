//! What can be wrong with a mesh or material text, and how it is reported.
use crate::number::{FloatError, IntError};
use crate::text::{decimal, push_decimal, push_signed_decimal, push_str, signed_decimal, string_of};
use vstd::prelude::*;

verus! {

broadcast use vstd::string::group_string_axioms;

/// The kinds of element that a mesh text names.
#[derive(Debug, Clone, Copy, PartialEq, Eq, Structural)]
pub enum GeometryType {
    Line,
    Face,
    Vertex,
    TextureCoord,
    Normal,
}

impl GeometryType {
    /// The name of the kind, as reports write it.
    pub open spec fn name_spec(self) -> Seq<char> {
        match self {
            GeometryType::Line => "Line"@,
            GeometryType::Face => "Face"@,
            GeometryType::Vertex => "vertex"@,
            GeometryType::TextureCoord => "texture coordinate"@,
            GeometryType::Normal => "vertex normal"@,
        }
    }

    /// The name of the kind, as reports write it.
    pub fn name(&self) -> (r: &'static str)
        ensures
            r@ == self.name_spec(),
    {
        match self {
            GeometryType::Line => "Line",
            GeometryType::Face => "Face",
            GeometryType::Vertex => "vertex",
            GeometryType::TextureCoord => "texture coordinate",
            GeometryType::Normal => "vertex normal",
        }
    }
}

/// What the report of an unreadable index token says.
pub open spec fn int_error_text(e: IntError) -> Seq<char> {
    match e {
        IntError::Empty => "cannot parse integer from empty string"@,
        IntError::InvalidDigit => "invalid digit found in string"@,
        IntError::PosOverflow => "number too large to fit in target type"@,
        IntError::NegOverflow => "number too small to fit in target type"@,
    }
}

/// What the report of an unreadable real-number token says.
pub open spec fn float_error_text(e: FloatError) -> Seq<char> {
    match e {
        FloatError::Empty => "cannot parse float from empty string"@,
        FloatError::Invalid => "invalid float literal"@,
    }
}

/// Why a row could not be read.
#[derive(Debug)]
pub enum ParseCause {
    /// A token that should be a real number is none.
    Float(FloatError),
    /// A token that should be an index is none.
    Int(IntError),
    /// A face corner has more than three parts.
    MalformedIndex,
    /// The named directive lacks its argument.
    MissingArgument(String),
}

/// The mathematical value of a `ParseCause`.
pub enum CauseView {
    Float(FloatError),
    Int(IntError),
    MalformedIndex,
    MissingArgument(Seq<char>),
}

impl View for ParseCause {
    type V = CauseView;

    open spec fn view(&self) -> CauseView {
        match self {
            ParseCause::Float(e) => CauseView::Float(*e),
            ParseCause::Int(e) => CauseView::Int(*e),
            ParseCause::MalformedIndex => CauseView::MalformedIndex,
            ParseCause::MissingArgument(d) => CauseView::MissingArgument(d@),
        }
    }
}

impl CauseView {
    /// What a report says of the cause.
    pub open spec fn message(self) -> Seq<char> {
        match self {
            CauseView::Float(e) => float_error_text(e),
            CauseView::Int(e) => int_error_text(e),
            CauseView::MalformedIndex => "Malformed index"@,
            CauseView::MissingArgument(d) => "Missing argument for directive "@ + d,
        }
    }
}

impl ParseCause {
    fn push_message(&self, buf: &mut Vec<char>)
        ensures
            final(buf)@ == old(buf)@ + self@.message(),
    {
        match self {
            ParseCause::Float(FloatError::Empty) => push_str(
                buf,
                "cannot parse float from empty string",
            ),
            ParseCause::Float(FloatError::Invalid) => push_str(buf, "invalid float literal"),
            ParseCause::Int(IntError::Empty) => push_str(
                buf,
                "cannot parse integer from empty string",
            ),
            ParseCause::Int(IntError::InvalidDigit) => push_str(
                buf,
                "invalid digit found in string",
            ),
            ParseCause::Int(IntError::PosOverflow) => push_str(
                buf,
                "number too large to fit in target type",
            ),
            ParseCause::Int(IntError::NegOverflow) => push_str(
                buf,
                "number too small to fit in target type",
            ),
            ParseCause::MalformedIndex => push_str(buf, "Malformed index"),
            ParseCause::MissingArgument(d) => {
                push_str(buf, "Missing argument for directive ");
                push_str(buf, d.as_str());
                proof {
                    assert(buf@ =~= old(buf)@ + ("Missing argument for directive "@ + d@));
                }
            },
        }
    }

    /// What a report says of the cause.
    pub fn message(&self) -> (r: String)
        ensures
            r@ == self@.message(),
    {
        let mut buf: Vec<char> = Vec::new();
        self.push_message(&mut buf);
        proof {
            assert(buf@ =~= self@.message());
        }
        string_of(buf.as_slice())
    }
}

/// What is wrong with a mesh or material text. Each variant names the file
/// and, where one row is at fault, that row, counted from one.
#[derive(Debug)]
pub enum WavefrontObjError {
    /// A row starts with a directive that is not known: file, directive, row.
    UnsupportedType(String, String, usize),
    /// A row of a known directive cannot be read: file, row, cause.
    ParseError(String, usize, ParseCause),
    /// A face has fewer than three corners.
    IncompleteFace(String, usize),
    /// A vertex, texture coordinate or parameter vertex lacks numbers.
    IncompleteVertex(String, usize),
    /// A normal has not exactly three numbers.
    IncompleteNormal(String, usize),
    /// An element refers to another that the text does not hold: file, row,
    /// the element that refers, the kind referred to, the index as written.
    InconsistentObject(String, usize, GeometryType, GeometryType, isize),
    /// A colour has not exactly three numbers.
    IncompleteColour(String, usize),
    /// The illumination model is none of those known: file, row, the model
    /// as written.
    UnknownIlluminationModel(String, usize, String),
    /// Materials are used, but no library is named.
    NoMaterial(String),
}

/// The mathematical value of a `WavefrontObjError`.
pub enum ErrorView {
    UnsupportedType(Seq<char>, Seq<char>, usize),
    ParseError(Seq<char>, usize, CauseView),
    IncompleteFace(Seq<char>, usize),
    IncompleteVertex(Seq<char>, usize),
    IncompleteNormal(Seq<char>, usize),
    InconsistentObject(Seq<char>, usize, GeometryType, GeometryType, isize),
    IncompleteColour(Seq<char>, usize),
    UnknownIlluminationModel(Seq<char>, usize, Seq<char>),
    NoMaterial(Seq<char>),
}

impl View for WavefrontObjError {
    type V = ErrorView;

    open spec fn view(&self) -> ErrorView {
        match self {
            WavefrontObjError::UnsupportedType(f, t, n) => ErrorView::UnsupportedType(f@, t@, *n),
            WavefrontObjError::ParseError(f, n, c) => ErrorView::ParseError(f@, *n, c@),
            WavefrontObjError::IncompleteFace(f, n) => ErrorView::IncompleteFace(f@, *n),
            WavefrontObjError::IncompleteVertex(f, n) => ErrorView::IncompleteVertex(f@, *n),
            WavefrontObjError::IncompleteNormal(f, n) => ErrorView::IncompleteNormal(f@, *n),
            WavefrontObjError::InconsistentObject(f, n, g, m, i) => ErrorView::InconsistentObject(
                f@,
                *n,
                *g,
                *m,
                *i,
            ),
            WavefrontObjError::IncompleteColour(f, n) => ErrorView::IncompleteColour(f@, *n),
            WavefrontObjError::UnknownIlluminationModel(f, n, m) => {
                ErrorView::UnknownIlluminationModel(f@, *n, m@)
            },
            WavefrontObjError::NoMaterial(f) => ErrorView::NoMaterial(f@),
        }
    }
}

impl ErrorView {
    /// The report of the error, in one line.
    pub open spec fn message(self) -> Seq<char> {
        match self {
            ErrorView::UnsupportedType(file, typ, line) => file
                + ": Encountered unsupported type "@ + typ + " in line "@ + decimal(line as nat),
            ErrorView::ParseError(file, line, cause) => file + ": Error parsing line "@ + decimal(
                line as nat,
            ) + ": "@ + cause.message(),
            ErrorView::IncompleteFace(file, line) => file
                + ": Not enough vertices to form a face in line "@ + decimal(line as nat),
            ErrorView::IncompleteVertex(file, line) => file
                + ": Not enough data to form a vertex in line "@ + decimal(line as nat),
            ErrorView::IncompleteNormal(file, line) => file
                + ": Not enough data to form a vertex normal in line "@ + decimal(line as nat),
            ErrorView::InconsistentObject(file, line, geometry, missing, num) => file + " line "@
                + decimal(line as nat) + ": "@ + geometry.name_spec() + " references "@
                + missing.name_spec() + " number "@ + signed_decimal(num as int)
                + ", but it doesn't exist"@,
            ErrorView::IncompleteColour(file, line) => file
                + ": Not enough data to form a colour in line "@ + decimal(line as nat),
            ErrorView::UnknownIlluminationModel(file, line, mode) => file + ", line "@ + decimal(
                line as nat,
            ) + ": Encountered unknown illumination model '"@ + mode + "'"@,
            ErrorView::NoMaterial(file) => "File "@ + file + " contains no mtllib directive"@,
        }
    }
}

fn push_located(buf: &mut Vec<char>, file: &String, text: &str, line: usize)
    ensures
        final(buf)@ == old(buf)@ + file@ + text@ + decimal(line as nat),
{
    push_str(buf, file.as_str());
    push_str(buf, text);
    push_decimal(buf, line as u64);
}

impl WavefrontObjError {
    /// The report of the error, in one line.
    pub fn message(&self) -> (r: String)
        ensures
            r@ == self@.message(),
    {
        let mut buf: Vec<char> = Vec::new();
        let ghost empty = buf@;
        match self {
            WavefrontObjError::UnsupportedType(file, typ, line) => {
                push_str(&mut buf, file.as_str());
                push_str(&mut buf, ": Encountered unsupported type ");
                push_str(&mut buf, typ.as_str());
                push_str(&mut buf, " in line ");
                push_decimal(&mut buf, *line as u64);
            },
            WavefrontObjError::ParseError(file, line, cause) => {
                push_located(&mut buf, file, ": Error parsing line ", *line);
                push_str(&mut buf, ": ");
                cause.push_message(&mut buf);
            },
            WavefrontObjError::IncompleteFace(file, line) => {
                push_located(
                    &mut buf,
                    file,
                    ": Not enough vertices to form a face in line ",
                    *line,
                );
            },
            WavefrontObjError::IncompleteVertex(file, line) => {
                push_located(&mut buf, file, ": Not enough data to form a vertex in line ", *line);
            },
            WavefrontObjError::IncompleteNormal(file, line) => {
                push_located(
                    &mut buf,
                    file,
                    ": Not enough data to form a vertex normal in line ",
                    *line,
                );
            },
            WavefrontObjError::InconsistentObject(file, line, geometry, missing, num) => {
                push_located(&mut buf, file, " line ", *line);
                push_str(&mut buf, ": ");
                push_str(&mut buf, geometry.name());
                push_str(&mut buf, " references ");
                push_str(&mut buf, missing.name());
                push_str(&mut buf, " number ");
                push_signed_decimal(&mut buf, *num);
                push_str(&mut buf, ", but it doesn't exist");
            },
            WavefrontObjError::IncompleteColour(file, line) => {
                push_located(&mut buf, file, ": Not enough data to form a colour in line ", *line);
            },
            WavefrontObjError::UnknownIlluminationModel(file, line, mode) => {
                push_located(&mut buf, file, ", line ", *line);
                push_str(&mut buf, ": Encountered unknown illumination model '");
                push_str(&mut buf, mode.as_str());
                push_str(&mut buf, "'");
            },
            WavefrontObjError::NoMaterial(file) => {
                push_str(&mut buf, "File ");
                push_str(&mut buf, file.as_str());
                push_str(&mut buf, " contains no mtllib directive");
            },
        }
        proof {
            assert(empty + self@.message() =~= self@.message());
            assert(buf@ =~= empty + self@.message());
        }
        string_of(buf.as_slice())
    }
}

} // verus!
