//! Material libraries in the MTL format: reading the text row by row into
//! named materials.
use crate::error::{CauseView, ErrorView, ParseCause, WavefrontObjError};
use crate::number::{check_float_spec, is_float_literal, Number};
use crate::rows::{
    after_directive, directive, first_float_error, lemma_all_literals, read_numbers, row_spans,
    texts, tokens,
};
use crate::text::{
    chars_of, eq_str, slice_of, split, split_spans, starts_with, string_of, trim, trim_span, Span,
};
use crate::wavefront_obj::opt_text;
use std::collections::HashMap;
use vstd::prelude::*;

verus! {

broadcast use {vstd::std_specs::hash::group_hash_axioms, vstd::string::group_string_axioms};

/// How light acts on a material: the models numbered 0 to 10.
#[derive(Debug, Clone, Copy, PartialEq, Eq, Structural)]
pub enum IlluminationModel {
    /// 0: colour on, ambient off.
    ColourNoAmbient,
    /// 1: colour on, ambient on.
    ColourAmbient,
    /// 2: highlight on.
    Highlight,
    /// 3: reflection on, ray trace on.
    ReflectionRaytrace,
    /// 4: glass on, reflection with ray trace.
    GlassReflection,
    /// 5: Fresnel reflection, ray trace on.
    ReflectionFresnel,
    /// 6: refraction on, Fresnel off, ray trace on.
    RefractionNoFresnel,
    /// 7: refraction on, Fresnel on, ray trace on.
    RefractionFresnel,
    /// 8: reflection on, ray trace off.
    ReflectionOnly,
    /// 9: glass on, reflection without ray trace.
    GlassNoReflection,
    /// 10: casts shadows onto invisible surfaces.
    Shadows,
}

/// The model that the text `value` numbers.
pub open spec fn illumination_of(value: Seq<char>) -> Option<IlluminationModel> {
    if value == "0"@ {
        Some(IlluminationModel::ColourNoAmbient)
    } else if value == "1"@ {
        Some(IlluminationModel::ColourAmbient)
    } else if value == "2"@ {
        Some(IlluminationModel::Highlight)
    } else if value == "3"@ {
        Some(IlluminationModel::ReflectionRaytrace)
    } else if value == "4"@ {
        Some(IlluminationModel::GlassReflection)
    } else if value == "5"@ {
        Some(IlluminationModel::ReflectionFresnel)
    } else if value == "6"@ {
        Some(IlluminationModel::RefractionNoFresnel)
    } else if value == "7"@ {
        Some(IlluminationModel::RefractionFresnel)
    } else if value == "8"@ {
        Some(IlluminationModel::ReflectionOnly)
    } else if value == "9"@ {
        Some(IlluminationModel::GlassNoReflection)
    } else if value == "10"@ {
        Some(IlluminationModel::Shadows)
    } else {
        None
    }
}

/// What an illumination row says: the model that the text after the first
/// blank numbers.
pub open spec fn illumination_row(row: Seq<char>, row_num: usize, file: Seq<char>) -> Result<
    IlluminationModel,
    ErrorView,
> {
    match after_directive(row) {
        Some(value) => match illumination_of(value) {
            Some(model) => Ok(model),
            None => Err(ErrorView::UnknownIlluminationModel(file, row_num, value)),
        },
        None => Err(ErrorView::ParseError(file, row_num, CauseView::MissingArgument(row))),
    }
}

/// What follows the first blank of `row`, where it has a blank.
pub fn rest_of_row<'a>(row: &'a [char]) -> (r: Option<&'a [char]>)
    ensures
        match after_directive(row@) {
            Some(rest) => r matches Some(x) && x@ == rest,
            None => r is None,
        },
{
    let spans = row_spans(row);
    let len = row.len();
    if spans.len() > 1 {
        let rest = slice_of(row, Span { start: spans[0].end + 1, end: len });
        proof {
            assert(spans@[0].of(row@) == directive(row@));
            assert(rest@ =~= row@.skip(directive(row@).len() as int + 1));
        }
        Some(rest)
    } else {
        None
    }
}

impl IlluminationModel {
    fn read(row: &[char], row_num: usize, file: &str) -> (r: Result<
        IlluminationModel,
        WavefrontObjError,
    >)
        ensures
            match illumination_row(row@, row_num, file@) {
                Ok(m) => r matches Ok(x) && x == m,
                Err(e) => r matches Err(x) && x@ == e,
            },
    {
        match rest_of_row(row) {
            Some(value) => {
                if eq_str(value, "0") {
                    Ok(IlluminationModel::ColourNoAmbient)
                } else if eq_str(value, "1") {
                    Ok(IlluminationModel::ColourAmbient)
                } else if eq_str(value, "2") {
                    Ok(IlluminationModel::Highlight)
                } else if eq_str(value, "3") {
                    Ok(IlluminationModel::ReflectionRaytrace)
                } else if eq_str(value, "4") {
                    Ok(IlluminationModel::GlassReflection)
                } else if eq_str(value, "5") {
                    Ok(IlluminationModel::ReflectionFresnel)
                } else if eq_str(value, "6") {
                    Ok(IlluminationModel::RefractionNoFresnel)
                } else if eq_str(value, "7") {
                    Ok(IlluminationModel::RefractionFresnel)
                } else if eq_str(value, "8") {
                    Ok(IlluminationModel::ReflectionOnly)
                } else if eq_str(value, "9") {
                    Ok(IlluminationModel::GlassNoReflection)
                } else if eq_str(value, "10") {
                    Ok(IlluminationModel::Shadows)
                } else {
                    Err(
                        WavefrontObjError::UnknownIlluminationModel(
                            file.to_owned(),
                            row_num,
                            string_of(value),
                        ),
                    )
                }
            },
            None => Err(
                WavefrontObjError::ParseError(
                    file.to_owned(),
                    row_num,
                    ParseCause::MissingArgument(string_of(row)),
                ),
            ),
        }
    }

    /// Reads the illumination model of the row `row`, the `row_num`th of the
    /// text `file`.
    pub fn parse(row: &str, row_num: usize, file: &str) -> (r: Result<
        IlluminationModel,
        WavefrontObjError,
    >)
        ensures
            match illumination_row(row@, row_num, file@) {
                Ok(m) => r matches Ok(x) && x == m,
                Err(e) => r matches Err(x) && x@ == e,
            },
    {
        let chars = chars_of(row);
        IlluminationModel::read(chars.as_slice(), row_num, file)
    }
}

impl Default for IlluminationModel {
    fn default() -> (r: IlluminationModel)
        ensures
            r == IlluminationModel::ColourNoAmbient,
    {
        IlluminationModel::ColourNoAmbient
    }
}

/// A colour as it is written: red, green and blue.
#[derive(Debug)]
pub struct ColourText {
    pub r: Number,
    pub g: Number,
    pub b: Number,
}

impl View for ColourText {
    type V = Seq<Seq<char>>;

    open spec fn view(&self) -> Seq<Seq<char>> {
        seq![self.r@, self.g@, self.b@]
    }
}

impl ColourText {
    /// Black: no red, no green, no blue.
    pub fn black() -> (r: ColourText)
        ensures
            r@ == black(),
    {
        ColourText { r: Number::zero(), g: Number::zero(), b: Number::zero() }
    }
}

/// How much light a material lets through: `value`, or one minus `value`
/// where `complement` holds, which is how an opacity is written.
#[derive(Debug)]
pub struct Transmission {
    pub complement: bool,
    pub value: Number,
}

impl View for Transmission {
    type V = (bool, Seq<char>);

    open spec fn view(&self) -> (bool, Seq<char>) {
        (self.complement, self.value@)
    }
}

/// One material of a library.
#[derive(Debug)]
pub struct Mtl {
    pub ambient: ColourText,
    pub diffuse: ColourText,
    pub specular: ColourText,
    pub exponent: Number,
    pub transmission: Transmission,
    pub transmission_filter: ColourText,
    pub emissive: ColourText,
    pub density: Number,
    pub illumination: IlluminationModel,
    /// The name of the image that gives the diffuse colour.
    pub diffuse_texture: Option<String>,
}

/// The mathematical value of a material: every number as the text of its
/// literal.
pub struct MtlModel {
    pub ambient: Seq<Seq<char>>,
    pub diffuse: Seq<Seq<char>>,
    pub specular: Seq<Seq<char>>,
    pub exponent: Seq<char>,
    pub transmission: (bool, Seq<char>),
    pub transmission_filter: Seq<Seq<char>>,
    pub emissive: Seq<Seq<char>>,
    pub density: Seq<char>,
    pub illumination: IlluminationModel,
    pub diffuse_texture: Option<Seq<char>>,
}

impl View for Mtl {
    type V = MtlModel;

    open spec fn view(&self) -> MtlModel {
        MtlModel {
            ambient: self.ambient@,
            diffuse: self.diffuse@,
            specular: self.specular@,
            exponent: self.exponent@,
            transmission: self.transmission@,
            transmission_filter: self.transmission_filter@,
            emissive: self.emissive@,
            density: self.density@,
            illumination: self.illumination,
            diffuse_texture: opt_text(self.diffuse_texture),
        }
    }
}

/// The colour black.
pub open spec fn black() -> Seq<Seq<char>> {
    seq!["0"@, "0"@, "0"@]
}

impl MtlModel {
    /// The material of which nothing is said: black, opaque, model 0.
    pub open spec fn blank() -> MtlModel {
        MtlModel {
            ambient: black(),
            diffuse: black(),
            specular: black(),
            exponent: "0"@,
            transmission: (false, "0"@),
            transmission_filter: black(),
            emissive: black(),
            density: "0"@,
            illumination: IlluminationModel::ColourNoAmbient,
            diffuse_texture: None,
        }
    }

    /// Every number of the material is a literal.
    pub open spec fn wf(self) -> bool {
        &&& colour_wf(self.ambient)
        &&& colour_wf(self.diffuse)
        &&& colour_wf(self.specular)
        &&& is_float_literal(self.exponent)
        &&& is_float_literal(self.transmission.1)
        &&& colour_wf(self.transmission_filter)
        &&& colour_wf(self.emissive)
        &&& is_float_literal(self.density)
    }
}

/// `c` is a colour: three literals.
pub open spec fn colour_wf(c: Seq<Seq<char>>) -> bool {
    c.len() == 3 && is_float_literal(c[0]) && is_float_literal(c[1]) && is_float_literal(c[2])
}

impl Default for Mtl {
    fn default() -> (r: Mtl)
        ensures
            r@ == MtlModel::blank(),
    {
        Mtl {
            ambient: ColourText::black(),
            diffuse: ColourText::black(),
            specular: ColourText::black(),
            exponent: Number::zero(),
            transmission: Transmission { complement: false, value: Number::zero() },
            transmission_filter: ColourText::black(),
            emissive: ColourText::black(),
            density: Number::zero(),
            illumination: IlluminationModel::ColourNoAmbient,
            diffuse_texture: None,
        }
    }
}

/// What a colour row says: exactly three real numbers.
pub open spec fn colour_row(row: Seq<char>, row_num: usize, file: Seq<char>) -> Result<
    Seq<Seq<char>>,
    ErrorView,
> {
    let toks = tokens(row);
    if toks.len() != 3 {
        Err(ErrorView::IncompleteColour(file, row_num))
    } else {
        match first_float_error(toks) {
            Some(e) => Err(ErrorView::ParseError(file, row_num, CauseView::Float(e))),
            None => Ok(toks),
        }
    }
}

/// What a row of one number says: the text after the first blank, which
/// must be a real number.
pub open spec fn single_float_row(row: Seq<char>, row_num: usize, file: Seq<char>) -> Result<
    Seq<char>,
    ErrorView,
> {
    match after_directive(row) {
        Some(value) => match check_float_spec(value) {
            Ok(_) => Ok(value),
            Err(e) => Err(ErrorView::ParseError(file, row_num, CauseView::Float(e))),
        },
        None => Err(ErrorView::ParseError(file, row_num, CauseView::MissingArgument(row))),
    }
}

/// Reads the colour of a row.
pub fn parse_colour(row: &[char], row_num: usize, file: &str) -> (r: Result<
    ColourText,
    WavefrontObjError,
>)
    ensures
        match colour_row(row@, row_num, file@) {
            Ok(c) => r matches Ok(x) && x@ == c && colour_wf(c),
            Err(e) => r matches Err(x) && x@ == e,
        },
{
    let spans = row_spans(row);
    if spans.len() - 1 != 3 {
        return Err(WavefrontObjError::IncompleteColour(file.to_owned(), row_num));
    }
    match read_numbers(row, &spans) {
        Err(e) => Err(
            WavefrontObjError::ParseError(file.to_owned(), row_num, ParseCause::Float(e)),
        ),
        Ok(nums) => {
            let c = ColourText { r: nums[0].clone(), g: nums[1].clone(), b: nums[2].clone() };
            proof {
                let toks = tokens(row@);
                assert(texts(nums@) == toks);
                assert(texts(nums@)[0] == nums@[0]@);
                assert(texts(nums@)[1] == nums@[1]@);
                assert(texts(nums@)[2] == nums@[2]@);
                assert(c@ =~= toks);
            }
            Ok(c)
        },
    }
}

/// Reads the one number of a row.
pub fn parse_single_float(row: &[char], row_num: usize, file: &str) -> (r: Result<
    Number,
    WavefrontObjError,
>)
    ensures
        match single_float_row(row@, row_num, file@) {
            Ok(v) => r matches Ok(x) && x@ == v && x.wf(),
            Err(e) => r matches Err(x) && x@ == e,
        },
{
    match rest_of_row(row) {
        Some(value) => match Number::parse(value) {
            Ok(n) => Ok(n),
            Err(e) => Err(
                WavefrontObjError::ParseError(file.to_owned(), row_num, ParseCause::Float(e)),
            ),
        },
        None => Err(
            WavefrontObjError::ParseError(
                file.to_owned(),
                row_num,
                ParseCause::MissingArgument(string_of(row)),
            ),
        ),
    }
}

/// A material library: materials by number, and the names under which
/// they are found. A material has the number of materials that were in the
/// library before it.
#[derive(Debug)]
pub struct MtlLib {
    /// Names and the numbers of the materials that they stand for. Where a
    /// name occurs more than once, its last entry counts.
    pub material_names: Vec<(String, usize)>,
    pub materials: HashMap<usize, Mtl>,
}

/// The mathematical value of a material library.
pub struct LibModel {
    pub names: Seq<(Seq<char>, usize)>,
    pub materials: Map<usize, MtlModel>,
}

/// The values of the materials in `m`, under the same numbers.
pub open spec fn models_of(m: Map<usize, Mtl>) -> Map<usize, MtlModel> {
    Map::new(|k: usize| m.contains_key(k), |k: usize| m[k]@)
}

/// Putting a material into a map puts its value into the map of the values.
pub proof fn lemma_models_insert(m: Map<usize, Mtl>, k: usize, v: Mtl)
    ensures
        models_of(m.insert(k, v)) == models_of(m).insert(k, v@),
        models_of(m).dom() == m.dom(),
{
    assert(models_of(m.insert(k, v)) =~= models_of(m).insert(k, v@));
    assert(models_of(m).dom() =~= m.dom());
}

impl View for MtlLib {
    type V = LibModel;

    open spec fn view(&self) -> LibModel {
        LibModel {
            names: Seq::new(
                self.material_names@.len(),
                |i: int| (self.material_names@[i].0@, self.material_names@[i].1),
            ),
            materials: models_of(self.materials@),
        }
    }
}

/// The number that the name `name` stands for: that of its last entry.
pub open spec fn lookup(names: Seq<(Seq<char>, usize)>, name: Seq<char>) -> Option<usize>
    decreases names.len(),
{
    if names.len() == 0 {
        None
    } else if names.last().0 == name {
        Some(names.last().1)
    } else {
        lookup(names.drop_last(), name)
    }
}

impl LibModel {
    /// The library without materials.
    pub open spec fn empty() -> LibModel {
        LibModel { names: Seq::empty(), materials: Map::empty() }
    }

    /// Every name stands for a material of the library, and every number
    /// written in a material is a literal.
    pub open spec fn wf(self) -> bool {
        &&& forall|i: int|
            0 <= i < self.names.len() ==> self.materials.contains_key((#[trigger] self.names[i]).1)
        &&& forall|k: usize|
            self.materials.contains_key(k) ==> (#[trigger] self.materials[k]).wf()
    }

    /// The number that the next material gets: the number of materials in
    /// the library.
    pub open spec fn next_number(self) -> usize {
        self.materials.len() as usize
    }

    /// The library with the material `m` added under the name `name`.
    pub open spec fn with(self, name: Seq<char>, m: MtlModel) -> LibModel {
        LibModel {
            names: self.names.push((name, self.next_number())),
            materials: self.materials.insert(self.next_number(), m),
        }
    }
}

/// A name that is found stands for a material of the library.
pub proof fn lemma_lookup_in_range(lib: LibModel, name: Seq<char>)
    requires
        lib.wf(),
    ensures
        lookup(lib.names, name) matches Some(i) ==> lib.materials.contains_key(i),
    decreases lib.names.len(),
{
    if lib.names.len() > 0 && lib.names.last().0 != name {
        lemma_lookup_in_range(
            LibModel { names: lib.names.drop_last(), materials: lib.materials },
            name,
        );
    }
}

impl MtlLib {
    /// The library without materials.
    pub fn new() -> (r: MtlLib)
        ensures
            r@ == LibModel::empty(),
    {
        let r = MtlLib { material_names: Vec::new(), materials: HashMap::new() };
        proof {
            assert(r@.names =~= Seq::empty());
            assert(r@.materials =~= Map::empty());
        }
        r
    }

    /// The number in `materials` of the material named `name`.
    pub fn index_of(&self, name: &str) -> (r: Option<usize>)
        ensures
            r == lookup(self@.names, name@),
    {
        let mut i: usize = self.material_names.len();
        proof {
            assert(self@.names.take(i as int) =~= self@.names);
        }
        while i > 0
            invariant
                i <= self.material_names@.len(),
                lookup(self@.names, name@) == lookup(self@.names.take(i as int), name@),
            decreases i,
        {
            let entry = &self.material_names[i - 1];
            let chars = chars_of(entry.0.as_str());
            proof {
                assert(self@.names.take(i as int).last() == self@.names[i - 1]);
                assert(self@.names.take(i as int).drop_last() =~= self@.names.take(i as int - 1));
            }
            if eq_str(chars.as_slice(), name) {
                return Some(entry.1);
            }
            i = i - 1;
        }
        None
    }

    /// Reads the material text `data`. `file` is the name under which errors
    /// report it. The images that the text names are not read: each
    /// material holds the name of its own.
    pub fn from_text(data: &str, file: &str) -> (r: Result<MtlLib, WavefrontObjError>)
        requires
            data@.len() < usize::MAX,
        ensures
            match parse_mtl_spec(data@, file@) {
                Ok(m) => r matches Ok(o) && o@ == m && m.wf(),
                Err(e) => r matches Err(x) && x@ == e,
            },
    {
        let text = chars_of(data);
        let spans = split_spans(text.as_slice(), '\n');
        let ghost rows = split(data@, '\n');
        let mut parser = MtlParser::new(file);
        let mut i: usize = 0;
        while i < spans.len()
            invariant
                i <= spans@.len(),
                text@ == data@,
                text@.len() < usize::MAX,
                rows == split(data@, '\n'),
                spans@.len() == rows.len(),
                spans@.len() <= text@.len() + 1,
                forall|k: int|
                    0 <= k < spans@.len() ==> (#[trigger] spans@[k]).within(text@.len())
                        && spans@[k].of(text@) == rows[k],
                mtl_feed(MtlParserView::start(file@), rows, 0) == mtl_feed(
                    parser@,
                    rows,
                    i as int,
                ),
                parser@.wf(),
            decreases spans@.len() - i,
        {
            let row = slice_of(text.as_slice(), spans[i]);
            match parser.feed_row(row, i + 1) {
                Ok(_) => {},
                Err(e) => {
                    return Err(e);
                },
            }
            i = i + 1;
        }
        Ok(parser.finish())
    }

    fn add(&mut self, name: String, m: Mtl)
        ensures
            final(self)@ == old(self)@.with(name@, m@),
    {
        proof {
            lemma_models_insert(self.materials@, 0, m);
        }
        let at = self.materials.len();
        let ghost before = self.materials@;
        self.material_names.push((name, at));
        self.materials.insert(at, m);
        proof {
            lemma_models_insert(before, at, m);
            assert(self@.names =~= old(self)@.names.push((name@, at)));
        }
    }
}

/// The directives of a material text.
#[derive(Debug, Clone, Copy, PartialEq, Eq, Structural)]
pub enum MtlKind {
    /// A comment or an empty row.
    Skip,
    NewMaterial,
    Ambient,
    Diffuse,
    Specular,
    Emissive,
    Filter,
    Exponent,
    Density,
    Opacity,
    Transparency,
    Illumination,
    DiffuseMap,
    /// Anything else.
    Unknown,
}

/// The directive that `row`, already trimmed, carries.
pub open spec fn mtl_kind(row: Seq<char>) -> MtlKind {
    if "# "@.is_prefix_of(row) || row.len() == 0 {
        MtlKind::Skip
    } else if "newmtl "@.is_prefix_of(row) {
        MtlKind::NewMaterial
    } else if "Ka "@.is_prefix_of(row) {
        MtlKind::Ambient
    } else if "Kd "@.is_prefix_of(row) {
        MtlKind::Diffuse
    } else if "Ks "@.is_prefix_of(row) {
        MtlKind::Specular
    } else if "Ke "@.is_prefix_of(row) {
        MtlKind::Emissive
    } else if "Tf "@.is_prefix_of(row) {
        MtlKind::Filter
    } else if "Ns "@.is_prefix_of(row) {
        MtlKind::Exponent
    } else if "Ni "@.is_prefix_of(row) {
        MtlKind::Density
    } else if "d "@.is_prefix_of(row) {
        MtlKind::Opacity
    } else if "Tr "@.is_prefix_of(row) {
        MtlKind::Transparency
    } else if "illum "@.is_prefix_of(row) {
        MtlKind::Illumination
    } else if "map_Kd "@.is_prefix_of(row) {
        MtlKind::DiffuseMap
    } else {
        MtlKind::Unknown
    }
}

/// Tells which directive `row`, already trimmed, carries.
pub fn classify_mtl(row: &[char]) -> (r: MtlKind)
    ensures
        r == mtl_kind(row@),
{
    if starts_with(row, "# ") || row.len() == 0 {
        MtlKind::Skip
    } else if starts_with(row, "newmtl ") {
        MtlKind::NewMaterial
    } else if starts_with(row, "Ka ") {
        MtlKind::Ambient
    } else if starts_with(row, "Kd ") {
        MtlKind::Diffuse
    } else if starts_with(row, "Ks ") {
        MtlKind::Specular
    } else if starts_with(row, "Ke ") {
        MtlKind::Emissive
    } else if starts_with(row, "Tf ") {
        MtlKind::Filter
    } else if starts_with(row, "Ns ") {
        MtlKind::Exponent
    } else if starts_with(row, "Ni ") {
        MtlKind::Density
    } else if starts_with(row, "d ") {
        MtlKind::Opacity
    } else if starts_with(row, "Tr ") {
        MtlKind::Transparency
    } else if starts_with(row, "illum ") {
        MtlKind::Illumination
    } else if starts_with(row, "map_Kd ") {
        MtlKind::DiffuseMap
    } else {
        MtlKind::Unknown
    }
}

/// The state of reading a material text: the library so far, whether a
/// material has been opened, and the open material with its name.
pub struct MtlParserView {
    pub file: Seq<char>,
    pub lib: LibModel,
    pub started: bool,
    pub current: MtlModel,
    pub current_name: Seq<char>,
}

impl MtlParserView {
    /// The state in which reading starts.
    pub open spec fn start(file: Seq<char>) -> MtlParserView {
        MtlParserView {
            file,
            lib: LibModel::empty(),
            started: false,
            current: MtlModel::blank(),
            current_name: Seq::empty(),
        }
    }

    /// The library and the open material are well formed.
    pub open spec fn wf(self) -> bool {
        self.lib.wf() && self.current.wf()
    }

    /// The state with `m` as the open material.
    pub open spec fn with_current(self, m: MtlModel) -> MtlParserView {
        MtlParserView { current: m, ..self }
    }

    /// The library at the end of the text: the open material is added under
    /// its name.
    pub open spec fn finished(self) -> LibModel {
        if self.started {
            self.lib.with(self.current_name, self.current)
        } else {
            self.lib
        }
    }
}

/// What reading row number `n` does to the state `p`: the state after it
/// and the image that the row asks for, or the error that the row gives.
/// White space at the ends of the row does not count. A row that opens a
/// material closes the one before it, which is added to the library under
/// the name of the material that opens.
pub open spec fn mtl_step(p: MtlParserView, raw: Seq<char>, n: usize) -> Result<
    (MtlParserView, Option<Seq<char>>),
    ErrorView,
> {
    let row = trim(raw);
    let toks = tokens(row);
    let file = p.file;
    let m = p.current;
    match mtl_kind(row) {
        MtlKind::Skip => Ok((p, None)),
        MtlKind::NewMaterial => if toks.len() > 0 {
            if p.started {
                Ok(
                    (
                        MtlParserView {
                            lib: p.lib.with(toks[0], m),
                            current: MtlModel::blank(),
                            current_name: toks[0],
                            ..p
                        },
                        None,
                    ),
                )
            } else {
                Ok((MtlParserView { started: true, current_name: toks[0], ..p }, None))
            }
        } else {
            Err(ErrorView::ParseError(file, n, CauseView::MissingArgument("newmtl"@)))
        },
        MtlKind::Ambient => match colour_row(row, n, file) {
            Ok(c) => Ok((p.with_current(MtlModel { ambient: c, ..m }), None)),
            Err(e) => Err(e),
        },
        MtlKind::Diffuse => match colour_row(row, n, file) {
            Ok(c) => Ok((p.with_current(MtlModel { diffuse: c, ..m }), None)),
            Err(e) => Err(e),
        },
        MtlKind::Specular => match colour_row(row, n, file) {
            Ok(c) => Ok((p.with_current(MtlModel { specular: c, ..m }), None)),
            Err(e) => Err(e),
        },
        MtlKind::Emissive => match colour_row(row, n, file) {
            Ok(c) => Ok((p.with_current(MtlModel { emissive: c, ..m }), None)),
            Err(e) => Err(e),
        },
        MtlKind::Filter => match colour_row(row, n, file) {
            Ok(c) => Ok((p.with_current(MtlModel { transmission_filter: c, ..m }), None)),
            Err(e) => Err(e),
        },
        MtlKind::Exponent => match single_float_row(row, n, file) {
            Ok(v) => Ok((p.with_current(MtlModel { exponent: v, ..m }), None)),
            Err(e) => Err(e),
        },
        MtlKind::Density => match single_float_row(row, n, file) {
            Ok(v) => Ok((p.with_current(MtlModel { density: v, ..m }), None)),
            Err(e) => Err(e),
        },
        MtlKind::Opacity => match single_float_row(row, n, file) {
            Ok(v) => Ok((p.with_current(MtlModel { transmission: (true, v), ..m }), None)),
            Err(e) => Err(e),
        },
        MtlKind::Transparency => match single_float_row(row, n, file) {
            Ok(v) => Ok((p.with_current(MtlModel { transmission: (false, v), ..m }), None)),
            Err(e) => Err(e),
        },
        MtlKind::Illumination => match illumination_row(row, n, file) {
            Ok(i) => Ok((p.with_current(MtlModel { illumination: i, ..m }), None)),
            Err(e) => Err(e),
        },
        MtlKind::DiffuseMap => if toks.len() > 0 {
            Ok((p.with_current(MtlModel { diffuse_texture: Some(toks[0]), ..m }), Some(toks[0])))
        } else {
            Err(ErrorView::ParseError(file, n, CauseView::MissingArgument("map_Kd"@)))
        },
        MtlKind::Unknown => Err(ErrorView::UnsupportedType(file, directive(row), n)),
    }
}

/// What reading the rows from number `from` on does to the state `p`.
pub open spec fn mtl_feed(p: MtlParserView, rows: Seq<Seq<char>>, from: int) -> Result<
    MtlParserView,
    ErrorView,
>
    decreases rows.len() - from,
{
    if from < 0 || from >= rows.len() {
        Ok(p)
    } else {
        match mtl_step(p, rows[from], (from + 1) as usize) {
            Err(e) => Err(e),
            Ok((q, _)) => mtl_feed(q, rows, from + 1),
        }
    }
}

/// A material text is read row by row; at its end the open material is
/// added to the library.
pub open spec fn parse_mtl_spec(data: Seq<char>, file: Seq<char>) -> Result<LibModel, ErrorView> {
    match mtl_feed(MtlParserView::start(file), split(data, '\n'), 0) {
        Err(e) => Err(e),
        Ok(p) => Ok(p.finished()),
    }
}

/// Reads a material text row by row.
#[derive(Debug)]
pub struct MtlParser {
    /// The name under which errors report the text.
    pub file: String,
    /// The library read so far.
    pub lib: MtlLib,
    /// Whether a material has been opened.
    pub started: bool,
    /// The open material.
    pub current: Mtl,
    /// The name of the open material.
    pub current_name: String,
}

impl View for MtlParser {
    type V = MtlParserView;

    open spec fn view(&self) -> MtlParserView {
        MtlParserView {
            file: self.file@,
            lib: self.lib@,
            started: self.started,
            current: self.current@,
            current_name: self.current_name@,
        }
    }
}

/// What a row asks of the one who feeds the rows.
#[derive(Debug)]
pub enum MtlEvent {
    /// Nothing: go on with the next row.
    Nothing,
    /// The row names an image, which is to be read.
    TextureWanted(String),
}

impl View for MtlEvent {
    type V = Option<Seq<char>>;

    open spec fn view(&self) -> Option<Seq<char>> {
        match self {
            MtlEvent::Nothing => None,
            MtlEvent::TextureWanted(name) => Some(name@),
        }
    }
}

/// Reading a row keeps every number a literal and every name in the
/// library.
pub proof fn lemma_mtl_step_keeps_wf(p: MtlParserView, raw: Seq<char>, n: usize)
    requires
        p.wf(),
    ensures
        mtl_step(p, raw, n) matches Ok((q, _)) ==> q.wf(),
        p.finished().wf(),
{
    crate::number::lemma_zero_and_one_are_literals();
    lemma_all_literals(tokens(trim(raw)));
}

impl MtlParser {
    /// The state in which reading starts.
    pub fn new(file: &str) -> (r: MtlParser)
        ensures
            r@ == MtlParserView::start(file@),
            r@.wf(),
    {
        proof {
            crate::number::lemma_zero_and_one_are_literals();
        }
        MtlParser {
            file: file.to_owned(),
            lib: MtlLib::new(),
            started: false,
            current: Mtl::default(),
            current_name: String::new(),
        }
    }

    fn missing(&self, row_num: usize, what: &str) -> (e: WavefrontObjError)
        ensures
            e@ == ErrorView::ParseError(self@.file, row_num, CauseView::MissingArgument(what@)),
    {
        WavefrontObjError::ParseError(
            self.file.clone(),
            row_num,
            ParseCause::MissingArgument(what.to_owned()),
        )
    }

    /// Reads the row `raw`, the `row_num`th of its text counted from one.
    /// Where the row names an image, the event says so. A row that is
    /// refused leaves the state as it was.
    pub fn feed_row(&mut self, raw: &[char], row_num: usize) -> (r: Result<
        MtlEvent,
        WavefrontObjError,
    >)
        ensures
            match mtl_step(old(self)@, raw@, row_num) {
                Ok((q, wanted)) => r matches Ok(ev) && ev@ == wanted && final(self)@ == q,
                Err(e) => r matches Err(x) && x@ == e && final(self)@ == old(self)@,
            },
            old(self)@.wf() && r is Ok ==> final(self)@.wf(),
    {
        proof {
            if old(self)@.wf() {
                lemma_mtl_step_keeps_wf(old(self)@, raw@, row_num);
            }
        }
        let row = slice_of(raw, trim_span(raw));
        let ghost p = old(self)@;
        let ghost m = p.current;
        match classify_mtl(row) {
            MtlKind::Skip => Ok(MtlEvent::Nothing),
            MtlKind::NewMaterial => {
                let spans = row_spans(row);
                if spans.len() > 1 {
                    let name = string_of(slice_of(row, spans[1]));
                    proof {
                        assert(tokens(row@)[0] == name@);
                    }
                    if self.started {
                        let mut closed = Mtl::default();
                        std::mem::swap(&mut closed, &mut self.current);
                        self.lib.add(name.clone(), closed);
                    }
                    self.started = true;
                    self.current_name = name;
                    Ok(MtlEvent::Nothing)
                } else {
                    Err(self.missing(row_num, "newmtl"))
                }
            },
            MtlKind::Ambient => match parse_colour(row, row_num, self.file.as_str()) {
                Ok(c) => {
                    self.current.ambient = c;
                    proof {
                        assert(self@ =~~= p.with_current(MtlModel { ambient: c@, ..m }));
                    }
                    Ok(MtlEvent::Nothing)
                },
                Err(e) => Err(e),
            },
            MtlKind::Diffuse => match parse_colour(row, row_num, self.file.as_str()) {
                Ok(c) => {
                    self.current.diffuse = c;
                    proof {
                        assert(self@ =~~= p.with_current(MtlModel { diffuse: c@, ..m }));
                    }
                    Ok(MtlEvent::Nothing)
                },
                Err(e) => Err(e),
            },
            MtlKind::Specular => match parse_colour(row, row_num, self.file.as_str()) {
                Ok(c) => {
                    self.current.specular = c;
                    proof {
                        assert(self@ =~~= p.with_current(MtlModel { specular: c@, ..m }));
                    }
                    Ok(MtlEvent::Nothing)
                },
                Err(e) => Err(e),
            },
            MtlKind::Emissive => match parse_colour(row, row_num, self.file.as_str()) {
                Ok(c) => {
                    self.current.emissive = c;
                    proof {
                        assert(self@ =~~= p.with_current(MtlModel { emissive: c@, ..m }));
                    }
                    Ok(MtlEvent::Nothing)
                },
                Err(e) => Err(e),
            },
            MtlKind::Filter => match parse_colour(row, row_num, self.file.as_str()) {
                Ok(c) => {
                    self.current.transmission_filter = c;
                    proof {
                        assert(self@ =~~= p.with_current(
                            MtlModel { transmission_filter: c@, ..m },
                        ));
                    }
                    Ok(MtlEvent::Nothing)
                },
                Err(e) => Err(e),
            },
            MtlKind::Exponent => match parse_single_float(row, row_num, self.file.as_str()) {
                Ok(v) => {
                    self.current.exponent = v;
                    proof {
                        assert(self@ =~~= p.with_current(MtlModel { exponent: v@, ..m }));
                    }
                    Ok(MtlEvent::Nothing)
                },
                Err(e) => Err(e),
            },
            MtlKind::Density => match parse_single_float(row, row_num, self.file.as_str()) {
                Ok(v) => {
                    self.current.density = v;
                    proof {
                        assert(self@ =~~= p.with_current(MtlModel { density: v@, ..m }));
                    }
                    Ok(MtlEvent::Nothing)
                },
                Err(e) => Err(e),
            },
            MtlKind::Opacity => match parse_single_float(row, row_num, self.file.as_str()) {
                Ok(v) => {
                    self.current.transmission = Transmission { complement: true, value: v };
                    proof {
                        assert(self@ =~~= p.with_current(
                            MtlModel { transmission: (true, v@), ..m },
                        ));
                    }
                    Ok(MtlEvent::Nothing)
                },
                Err(e) => Err(e),
            },
            MtlKind::Transparency => match parse_single_float(row, row_num, self.file.as_str()) {
                Ok(v) => {
                    self.current.transmission = Transmission { complement: false, value: v };
                    proof {
                        assert(self@ =~~= p.with_current(
                            MtlModel { transmission: (false, v@), ..m },
                        ));
                    }
                    Ok(MtlEvent::Nothing)
                },
                Err(e) => Err(e),
            },
            MtlKind::Illumination => match IlluminationModel::read(
                row,
                row_num,
                self.file.as_str(),
            ) {
                Ok(i) => {
                    self.current.illumination = i;
                    proof {
                        assert(self@ =~~= p.with_current(MtlModel { illumination: i, ..m }));
                    }
                    Ok(MtlEvent::Nothing)
                },
                Err(e) => Err(e),
            },
            MtlKind::DiffuseMap => {
                let spans = row_spans(row);
                if spans.len() > 1 {
                    let name = string_of(slice_of(row, spans[1]));
                    let wanted = name.clone();
                    self.current.diffuse_texture = Some(name);
                    proof {
                        assert(tokens(row@)[0] == wanted@);
                        assert(self@ =~~= p.with_current(
                            MtlModel { diffuse_texture: Some(wanted@), ..m },
                        ));
                    }
                    Ok(MtlEvent::TextureWanted(wanted))
                } else {
                    Err(self.missing(row_num, "map_Kd"))
                }
            },
            MtlKind::Unknown => {
                let spans = row_spans(row);
                let word = string_of(slice_of(row, spans[0]));
                Err(WavefrontObjError::UnsupportedType(self.file.clone(), word, row_num))
            },
        }
    }

    /// The number that the open material gets in the library once it is
    /// closed.
    pub fn open_number(&self) -> (r: usize)
        ensures
            r == self@.lib.next_number(),
            self@.started ==> self@.finished().materials.contains_key(r)
                && self@.finished().materials[r] == self@.current,
    {
        proof {
            lemma_models_insert(self.lib.materials@, 0, self.current);
        }
        self.lib.materials.len()
    }

    /// Ends the reading: adds the open material and hands the library out.
    pub fn finish(self) -> (r: MtlLib)
        ensures
            r@ == self@.finished(),
            self@.wf() ==> r@.wf(),
    {
        proof {
            if self@.wf() {
                lemma_mtl_step_keeps_wf(self@, Seq::empty(), 0);
            }
        }
        let mut lib = self.lib;
        if self.started {
            lib.add(self.current_name, self.current);
        }
        lib
    }
}

} // verus!
