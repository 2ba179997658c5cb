//! Frame definitions: which fields a frame of each kind holds and how each
//! field is written, as the `Field` headers declare it.

use super::decode::Encoding;
use super::text::{
    parse_number, same_bytes, same_text, spec_parse_number, split, split_all, texts,
};
use super::{ParseError, ParseErrorView, ParseResult};
use vstd::prelude::*;
use vstd::string::StringSliceAdditionalSpecFns;

verus! {

/// The kinds of frames that have a definition in the headers.
#[derive(Debug, Clone, Copy, PartialEq, Eq, Hash, Structural)]
pub enum FrameKind {
    /// `I`: a frame that stands alone.
    Intra,
    /// `P`: a frame written as the difference from the frame before it.
    Inter,
    /// `S`: a frame of values that change rarely.
    Slow,
}

/// The properties that a `Field` header can give.
#[derive(Debug, Clone, Copy, PartialEq, Eq, Hash, Structural)]
pub enum FrameProperty {
    Name,
    Signed,
    Predictor,
    Encoding,
    Width,
}

/// The name of the header that gives `property` for frames of `kind`.
pub open spec fn spec_frame_header(kind: FrameKind, property: FrameProperty) -> Seq<u8> {
    match (kind, property) {
        (FrameKind::Intra, FrameProperty::Name) => "Field I name".spec_bytes(),
        (FrameKind::Intra, FrameProperty::Signed) => "Field I signed".spec_bytes(),
        (FrameKind::Intra, FrameProperty::Predictor) => "Field I predictor".spec_bytes(),
        (FrameKind::Intra, FrameProperty::Encoding) => "Field I encoding".spec_bytes(),
        (FrameKind::Intra, FrameProperty::Width) => "Field I width".spec_bytes(),
        (FrameKind::Inter, FrameProperty::Name) => "Field P name".spec_bytes(),
        (FrameKind::Inter, FrameProperty::Signed) => "Field P signed".spec_bytes(),
        (FrameKind::Inter, FrameProperty::Predictor) => "Field P predictor".spec_bytes(),
        (FrameKind::Inter, FrameProperty::Encoding) => "Field P encoding".spec_bytes(),
        (FrameKind::Inter, FrameProperty::Width) => "Field P width".spec_bytes(),
        (FrameKind::Slow, FrameProperty::Name) => "Field S name".spec_bytes(),
        (FrameKind::Slow, FrameProperty::Signed) => "Field S signed".spec_bytes(),
        (FrameKind::Slow, FrameProperty::Predictor) => "Field S predictor".spec_bytes(),
        (FrameKind::Slow, FrameProperty::Encoding) => "Field S encoding".spec_bytes(),
        (FrameKind::Slow, FrameProperty::Width) => "Field S width".spec_bytes(),
    }
}

/// The name of the header that gives `property` for frames of `kind`.
pub fn frame_header(kind: FrameKind, property: FrameProperty) -> (name: &'static str)
    ensures
        name.spec_bytes() == spec_frame_header(kind, property),
{
    match (kind, property) {
        (FrameKind::Intra, FrameProperty::Name) => "Field I name",
        (FrameKind::Intra, FrameProperty::Signed) => "Field I signed",
        (FrameKind::Intra, FrameProperty::Predictor) => "Field I predictor",
        (FrameKind::Intra, FrameProperty::Encoding) => "Field I encoding",
        (FrameKind::Intra, FrameProperty::Width) => "Field I width",
        (FrameKind::Inter, FrameProperty::Name) => "Field P name",
        (FrameKind::Inter, FrameProperty::Signed) => "Field P signed",
        (FrameKind::Inter, FrameProperty::Predictor) => "Field P predictor",
        (FrameKind::Inter, FrameProperty::Encoding) => "Field P encoding",
        (FrameKind::Inter, FrameProperty::Width) => "Field P width",
        (FrameKind::Slow, FrameProperty::Name) => "Field S name",
        (FrameKind::Slow, FrameProperty::Signed) => "Field S signed",
        (FrameKind::Slow, FrameProperty::Predictor) => "Field S predictor",
        (FrameKind::Slow, FrameProperty::Encoding) => "Field S encoding",
        (FrameKind::Slow, FrameProperty::Width) => "Field S width",
    }
}

/// Whether a header of this name is one of those that define frames: its
/// name starts with `Field` and a space.
pub open spec fn spec_is_frame_def_header(header: Seq<u8>) -> bool {
    header.len() >= 6 && header.subrange(0, 6) == "Field ".spec_bytes()
}

/// The property that the header `header` gives for frames of `kind`, where
/// it is the name of such a header.
pub open spec fn spec_property_of(header: Seq<u8>, kind: FrameKind) -> Option<FrameProperty> {
    if header == spec_frame_header(kind, FrameProperty::Name) {
        Some(FrameProperty::Name)
    } else if header == spec_frame_header(kind, FrameProperty::Signed) {
        Some(FrameProperty::Signed)
    } else if header == spec_frame_header(kind, FrameProperty::Predictor) {
        Some(FrameProperty::Predictor)
    } else if header == spec_frame_header(kind, FrameProperty::Encoding) {
        Some(FrameProperty::Encoding)
    } else if header == spec_frame_header(kind, FrameProperty::Width) {
        Some(FrameProperty::Width)
    } else {
        None
    }
}

/// The kind of frame and the property that the header `header` speaks of,
/// where it is the name of a header that defines frames.
pub open spec fn spec_parse_frame_def_header(header: Seq<u8>) -> Option<
    (FrameKind, FrameProperty),
> {
    if let Some(property) = spec_property_of(header, FrameKind::Intra) {
        Some((FrameKind::Intra, property))
    } else if let Some(property) = spec_property_of(header, FrameKind::Inter) {
        Some((FrameKind::Inter, property))
    } else if let Some(property) = spec_property_of(header, FrameKind::Slow) {
        Some((FrameKind::Slow, property))
    } else {
        None
    }
}

/// Whether a header of this name is one of those that define frames.
pub fn is_frame_def_header(header: &str) -> (is: bool)
    ensures
        is == spec_is_frame_def_header(header.spec_bytes()),
{
    let bytes = header.as_bytes();
    bytes.len() >= 6 && same_bytes(vstd::slice::slice_subrange(bytes, 0, 6), "Field ".as_bytes())
}

fn property_of(header: &str, kind: FrameKind) -> (property: Option<FrameProperty>)
    ensures
        property == spec_property_of(header.spec_bytes(), kind),
{
    if same_text(header, frame_header(kind, FrameProperty::Name)) {
        Some(FrameProperty::Name)
    } else if same_text(header, frame_header(kind, FrameProperty::Signed)) {
        Some(FrameProperty::Signed)
    } else if same_text(header, frame_header(kind, FrameProperty::Predictor)) {
        Some(FrameProperty::Predictor)
    } else if same_text(header, frame_header(kind, FrameProperty::Encoding)) {
        Some(FrameProperty::Encoding)
    } else if same_text(header, frame_header(kind, FrameProperty::Width)) {
        Some(FrameProperty::Width)
    } else {
        None
    }
}

/// The kind of frame and the property that a header of this name speaks of;
/// `None` where it is not the name of a header that defines frames.
pub fn parse_frame_def_header(header: &str) -> (parsed: Option<(FrameKind, FrameProperty)>)
    ensures
        parsed == spec_parse_frame_def_header(header.spec_bytes()),
{
    if let Some(property) = property_of(header, FrameKind::Intra) {
        Some((FrameKind::Intra, property))
    } else if let Some(property) = property_of(header, FrameKind::Inter) {
        Some((FrameKind::Inter, property))
    } else if let Some(property) = property_of(header, FrameKind::Slow) {
        Some((FrameKind::Slow, property))
    } else {
        None
    }
}

/// One field of a frame.
#[derive(Debug, Clone, Copy)]
pub struct FieldDef<'data> {
    pub name: &'data str,
    pub signed: bool,
    /// How the value of the field is predicted from earlier frames; a
    /// number that this library hands on as it is.
    pub predictor: u8,
    pub encoding: Encoding,
}

/// Mathematical value of a [`FieldDef`].
pub struct FieldDefView {
    pub name: Seq<u8>,
    pub signed: bool,
    pub predictor: u8,
    pub encoding: Encoding,
}

impl<'data> View for FieldDef<'data> {
    type V = FieldDefView;

    open spec fn view(&self) -> FieldDefView {
        FieldDefView {
            name: self.name.spec_bytes(),
            signed: self.signed,
            predictor: self.predictor,
            encoding: self.encoding,
        }
    }
}

/// The values of the fields of a frame, in their order.
pub open spec fn field_views(fields: Seq<FieldDef>) -> Seq<FieldDefView> {
    Seq::new(fields.len(), |i: int| fields[i]@)
}

/// The sign that an item of a `signed` list gives.
pub open spec fn spec_sign(item: Seq<u8>) -> Option<bool> {
    if item == seq![0x30u8] {
        Some(false)
    } else if item == seq![0x31u8] {
        Some(true)
    } else {
        None
    }
}

/// The predictor that an item of a `predictor` list gives.
pub open spec fn spec_predictor(item: Seq<u8>) -> Option<u8> {
    match spec_parse_number(item, 255) {
        Some(number) => Some(number as u8),
        None => None,
    }
}

/// The encoding that an item of an `encoding` list gives.
pub open spec fn spec_encoding(item: Seq<u8>) -> Option<Encoding> {
    match spec_parse_number(item, 255) {
        Some(number) => Encoding::spec_from_tag(number as u8),
        None => None,
    }
}

/// The lists that the headers of one kind of frame have given so far, each
/// as it was written.
#[derive(Debug, Clone, Copy)]
pub struct FrameProps<'data> {
    pub names: Option<&'data str>,
    pub signs: Option<&'data str>,
    pub predictors: Option<&'data str>,
    pub encodings: Option<&'data str>,
}

/// Mathematical value of [`FrameProps`].
pub struct FramePropsView {
    pub names: Option<Seq<u8>>,
    pub signs: Option<Seq<u8>>,
    pub predictors: Option<Seq<u8>>,
    pub encodings: Option<Seq<u8>>,
}

/// The bytes of a text that may be absent.
pub open spec fn text_view(text: Option<&str>) -> Option<Seq<u8>> {
    match text {
        Some(text) => Some(text.spec_bytes()),
        None => None,
    }
}

impl<'data> View for FrameProps<'data> {
    type V = FramePropsView;

    open spec fn view(&self) -> FramePropsView {
        FramePropsView {
            names: text_view(self.names),
            signs: text_view(self.signs),
            predictors: text_view(self.predictors),
            encodings: text_view(self.encodings),
        }
    }
}

impl FramePropsView {
    /// No list given.
    pub open spec fn empty() -> FramePropsView {
        FramePropsView { names: None, signs: None, predictors: None, encodings: None }
    }

    /// These lists after a header has given `value` for `property`. A later
    /// header replaces an earlier one; widths are not kept.
    pub open spec fn set(self, property: FrameProperty, value: Seq<u8>) -> FramePropsView {
        match property {
            FrameProperty::Name => FramePropsView { names: Some(value), ..self },
            FrameProperty::Signed => FramePropsView { signs: Some(value), ..self },
            FrameProperty::Predictor => FramePropsView { predictors: Some(value), ..self },
            FrameProperty::Encoding => FramePropsView { encodings: Some(value), ..self },
            FrameProperty::Width => self,
        }
    }

    /// The fields that these lists define for frames of `kind`.
    ///
    /// All four lists are required. Each is split at its commas; every item
    /// of `signed` is `0` or `1`, every predictor a number up to 255 and
    /// every encoding the number of an encoding. The four lists have the
    /// same number of items, one for each field.
    pub open spec fn fields(self, kind: FrameKind) -> Result<Seq<FieldDefView>, ParseErrorView> {
        if self.names is None {
            Err(ParseErrorView::MissingHeader(spec_frame_header(kind, FrameProperty::Name)))
        } else if self.signs is None {
            Err(ParseErrorView::MissingHeader(spec_frame_header(kind, FrameProperty::Signed)))
        } else if self.predictors is None {
            Err(ParseErrorView::MissingHeader(spec_frame_header(kind, FrameProperty::Predictor)))
        } else if self.encodings is None {
            Err(ParseErrorView::MissingHeader(spec_frame_header(kind, FrameProperty::Encoding)))
        } else {
            let names = split(self.names.unwrap(), 0x2C);
            let signs = split(self.signs.unwrap(), 0x2C);
            let predictors = split(self.predictors.unwrap(), 0x2C);
            let encodings = split(self.encodings.unwrap(), 0x2C);
            if exists|i: int| 0 <= i < signs.len() && #[trigger] spec_sign(signs[i]) is None {
                Err(
                    ParseErrorView::InvalidHeader {
                        header: spec_frame_header(kind, FrameProperty::Signed),
                        value: self.signs.unwrap(),
                    },
                )
            } else if exists|i: int|
                0 <= i < predictors.len() && #[trigger] spec_predictor(predictors[i]) is None {
                Err(
                    ParseErrorView::InvalidHeader {
                        header: spec_frame_header(kind, FrameProperty::Predictor),
                        value: self.predictors.unwrap(),
                    },
                )
            } else if exists|i: int|
                0 <= i < encodings.len() && #[trigger] spec_encoding(encodings[i]) is None {
                Err(
                    ParseErrorView::InvalidHeader {
                        header: spec_frame_header(kind, FrameProperty::Encoding),
                        value: self.encodings.unwrap(),
                    },
                )
            } else if signs.len() != names.len() || predictors.len() != names.len()
                || encodings.len() != names.len() {
                Err(ParseErrorView::Corrupted)
            } else {
                Ok(
                    Seq::new(
                        names.len(),
                        |i: int|
                            FieldDefView {
                                name: names[i],
                                signed: spec_sign(signs[i]).unwrap(),
                                predictor: spec_predictor(predictors[i]).unwrap(),
                                encoding: spec_encoding(encodings[i]).unwrap(),
                            },
                    ),
                )
            }
        }
    }
}

fn parse_signs(items: &Vec<&str>) -> (signs: Option<Vec<bool>>)
    ensures
        match signs {
            Some(signs) => signs@.len() == items@.len() && forall|i: int|
                0 <= i < items@.len() ==> #[trigger] spec_sign(texts(items@)[i]) == Some(signs@[i]),
            None => exists|i: int|
                0 <= i < items@.len() && #[trigger] spec_sign(texts(items@)[i]) is None,
        },
{
    let mut signs: Vec<bool> = Vec::new();
    let mut i: usize = 0;
    while i < items.len()
        invariant
            i <= items@.len(),
            signs@.len() == i,
            forall|k: int| 0 <= k < i ==> #[trigger] spec_sign(texts(items@)[k]) == Some(signs@[k]),
        decreases items@.len() - i,
    {
        let bytes = items[i].as_bytes();
        assert(bytes@ == texts(items@)[i as int]);
        if bytes.len() == 1 && bytes[0] == 0x30 {
            assert(bytes@ =~= seq![0x30u8]);
            signs.push(false);
        } else if bytes.len() == 1 && bytes[0] == 0x31 {
            assert(bytes@ =~= seq![0x31u8]);
            signs.push(true);
        } else {
            assert(seq![0x30u8].len() == 1 && seq![0x31u8].len() == 1);
            assert(seq![0x30u8][0] == 0x30 && seq![0x31u8][0] == 0x31);
            assert(spec_sign(texts(items@)[i as int]) is None);
            return None;
        }
        i = i + 1;
    }
    Some(signs)
}

fn parse_predictors(items: &Vec<&str>) -> (predictors: Option<Vec<u8>>)
    ensures
        match predictors {
            Some(predictors) => predictors@.len() == items@.len() && forall|i: int|
                0 <= i < items@.len() ==> #[trigger] spec_predictor(texts(items@)[i]) == Some(
                    predictors@[i],
                ),
            None => exists|i: int|
                0 <= i < items@.len() && #[trigger] spec_predictor(texts(items@)[i]) is None,
        },
{
    let mut predictors: Vec<u8> = Vec::new();
    let mut i: usize = 0;
    while i < items.len()
        invariant
            i <= items@.len(),
            predictors@.len() == i,
            forall|k: int|
                0 <= k < i ==> #[trigger] spec_predictor(texts(items@)[k]) == Some(predictors@[k]),
        decreases items@.len() - i,
    {
        assert(items@[i as int].spec_bytes() == texts(items@)[i as int]);
        match parse_number(items[i], 255) {
            Some(number) => predictors.push(number as u8),
            None => {
                assert(spec_predictor(texts(items@)[i as int]) is None);
                return None;
            },
        }
        i = i + 1;
    }
    Some(predictors)
}

fn parse_encodings(items: &Vec<&str>) -> (encodings: Option<Vec<Encoding>>)
    ensures
        match encodings {
            Some(encodings) => encodings@.len() == items@.len() && forall|i: int|
                0 <= i < items@.len() ==> #[trigger] spec_encoding(texts(items@)[i]) == Some(
                    encodings@[i],
                ),
            None => exists|i: int|
                0 <= i < items@.len() && #[trigger] spec_encoding(texts(items@)[i]) is None,
        },
{
    let mut encodings: Vec<Encoding> = Vec::new();
    let mut i: usize = 0;
    while i < items.len()
        invariant
            i <= items@.len(),
            encodings@.len() == i,
            forall|k: int|
                0 <= k < i ==> #[trigger] spec_encoding(texts(items@)[k]) == Some(encodings@[k]),
        decreases items@.len() - i,
    {
        assert(items@[i as int].spec_bytes() == texts(items@)[i as int]);
        let encoding = match parse_number(items[i], 255) {
            Some(number) => Encoding::from_tag(number as u8),
            None => None,
        };
        match encoding {
            Some(encoding) => encodings.push(encoding),
            None => {
                assert(spec_encoding(texts(items@)[i as int]) is None);
                return None;
            },
        }
        i = i + 1;
    }
    Some(encodings)
}

impl<'data> FrameProps<'data> {
    /// No list given.
    pub fn new() -> (props: Self)
        ensures
            props@ == FramePropsView::empty(),
    {
        FrameProps { names: None, signs: None, predictors: None, encodings: None }
    }

    /// Takes down what a header gives for `property`.
    pub fn set(&mut self, property: FrameProperty, value: &'data str)
        ensures
            final(self)@ == old(self)@.set(property, value.spec_bytes()),
    {
        match property {
            FrameProperty::Name => self.names = Some(value),
            FrameProperty::Signed => self.signs = Some(value),
            FrameProperty::Predictor => self.predictors = Some(value),
            FrameProperty::Encoding => self.encodings = Some(value),
            FrameProperty::Width => {},
        }
    }

    /// The fields that these lists define for frames of `kind`.
    pub fn parse(&self, kind: FrameKind) -> (res: ParseResult<Vec<FieldDef<'data>>>)
        ensures
            match self@.fields(kind) {
                Ok(fields) => res matches Ok(found) && field_views(found@) == fields,
                Err(error) => res matches Err(e) && e@ == error,
            },
    {
        let Some(names) = self.names else {
            return Err(ParseError::missing_header(frame_header(kind, FrameProperty::Name)));
        };
        let Some(signs) = self.signs else {
            return Err(ParseError::missing_header(frame_header(kind, FrameProperty::Signed)));
        };
        let Some(predictors) = self.predictors else {
            return Err(ParseError::missing_header(frame_header(kind, FrameProperty::Predictor)));
        };
        let Some(encodings) = self.encodings else {
            return Err(ParseError::missing_header(frame_header(kind, FrameProperty::Encoding)));
        };
        let name_items = split_all(names, 0x2C);
        let sign_items = split_all(signs, 0x2C);
        let predictor_items = split_all(predictors, 0x2C);
        let encoding_items = split_all(encodings, 0x2C);
        let Some(sign_values) = parse_signs(&sign_items) else {
            return Err(
                ParseError::invalid_header(frame_header(kind, FrameProperty::Signed), signs),
            );
        };
        let Some(predictor_values) = parse_predictors(&predictor_items) else {
            return Err(
                ParseError::invalid_header(frame_header(kind, FrameProperty::Predictor), predictors),
            );
        };
        let Some(encoding_values) = parse_encodings(&encoding_items) else {
            return Err(
                ParseError::invalid_header(frame_header(kind, FrameProperty::Encoding), encodings),
            );
        };
        let count = name_items.len();
        if sign_values.len() != count || predictor_values.len() != count || encoding_values.len()
            != count {
            return Err(ParseError::Corrupted);
        }
        let mut fields: Vec<FieldDef<'data>> = Vec::new();
        let mut i: usize = 0;
        while i < count
            invariant
                i <= count,
                count == name_items@.len() == sign_values@.len(),
                count == predictor_values@.len() == encoding_values@.len(),
                fields@.len() == i,
                forall|k: int|
                    0 <= k < i ==> (#[trigger] fields@[k])@ == (FieldDefView {
                        name: texts(name_items@)[k],
                        signed: sign_values@[k],
                        predictor: predictor_values@[k],
                        encoding: encoding_values@[k],
                    }),
            decreases count - i,
        {
            fields.push(
                FieldDef {
                    name: name_items[i],
                    signed: sign_values[i],
                    predictor: predictor_values[i],
                    encoding: encoding_values[i],
                },
            );
            i = i + 1;
        }
        proof {
            assert(field_views(fields@) =~= self@.fields(kind)->Ok_0);
        }
        Ok(fields)
    }
}

/// The definition of the main frames: the fields of an `I` frame and those
/// of a `P` frame, which are the same fields written in another way.
#[derive(Debug, Clone)]
pub struct MainFrameDef<'data> {
    pub intra: Vec<FieldDef<'data>>,
    pub inter: Vec<FieldDef<'data>>,
}

/// Mathematical value of a [`MainFrameDef`].
pub struct MainFrameDefView {
    pub intra: Seq<FieldDefView>,
    pub inter: Seq<FieldDefView>,
}

impl MainFrameDefView {
    /// What holds of every definition that was parsed: there are at least
    /// two fields, the iteration count and the time, and the two kinds of
    /// frame have the same fields under the same names.
    pub open spec fn well_formed(self) -> bool {
        &&& self.intra.len() >= 2
        &&& self.inter.len() == self.intra.len()
        &&& forall|i: int|
            0 <= i < self.intra.len() ==> (#[trigger] self.intra[i]).name == self.inter[i].name
    }
}

impl<'data> View for MainFrameDef<'data> {
    type V = MainFrameDefView;

    open spec fn view(&self) -> MainFrameDefView {
        MainFrameDefView { intra: field_views(self.intra@), inter: field_views(self.inter@) }
    }
}

/// The lists given for the main frames so far.
#[derive(Debug, Clone, Copy)]
pub struct MainFrameDefBuilder<'data> {
    intra: FrameProps<'data>,
    inter: FrameProps<'data>,
}

/// Mathematical value of a [`MainFrameDefBuilder`].
pub struct MainFrameDefBuilderView {
    pub intra: FramePropsView,
    pub inter: FramePropsView,
}

impl<'data> View for MainFrameDefBuilder<'data> {
    type V = MainFrameDefBuilderView;

    closed spec fn view(&self) -> MainFrameDefBuilderView {
        MainFrameDefBuilderView { intra: self.intra@, inter: self.inter@ }
    }
}

impl MainFrameDefBuilderView {
    /// No list given.
    pub open spec fn empty() -> MainFrameDefBuilderView {
        MainFrameDefBuilderView { intra: FramePropsView::empty(), inter: FramePropsView::empty() }
    }

    /// The builder after a header has given `value` for `property` of the
    /// frames of `kind`.
    pub open spec fn update(
        self,
        kind: FrameKind,
        property: FrameProperty,
        value: Seq<u8>,
    ) -> MainFrameDefBuilderView {
        match kind {
            FrameKind::Intra => MainFrameDefBuilderView {
                intra: self.intra.set(property, value),
                ..self
            },
            FrameKind::Inter => MainFrameDefBuilderView {
                inter: self.inter.set(property, value),
                ..self
            },
            FrameKind::Slow => self,
        }
    }

    /// The lists that define the `P` frames: their own, with names and signs
    /// taken from the `I` frames where they have none.
    pub open spec fn inter_props(self) -> FramePropsView {
        FramePropsView {
            names: if self.inter.names is Some {
                self.inter.names
            } else {
                self.intra.names
            },
            signs: if self.inter.signs is Some {
                self.inter.signs
            } else {
                self.intra.signs
            },
            predictors: self.inter.predictors,
            encodings: self.inter.encodings,
        }
    }

    /// The definition that the lists give: the fields of the `I` frames,
    /// then those of the `P` frames; the two must agree in number and in
    /// names, and hold the iteration count and the time at least.
    pub open spec fn parse(self) -> Result<MainFrameDefView, ParseErrorView> {
        match self.intra.fields(FrameKind::Intra) {
            Ok(intra) => match self.inter_props().fields(FrameKind::Inter) {
                Ok(inter) => {
                    let def = MainFrameDefView { intra, inter };
                    if def.well_formed() {
                        Ok(def)
                    } else {
                        Err(ParseErrorView::Corrupted)
                    }
                },
                Err(e) => Err(e),
            },
            Err(e) => Err(e),
        }
    }
}

impl<'data> MainFrameDef<'data> {
    /// A builder that has seen no header yet.
    pub fn builder() -> (builder: MainFrameDefBuilder<'data>)
        ensures
            builder@ == MainFrameDefBuilderView::empty(),
    {
        MainFrameDefBuilder { intra: FrameProps::new(), inter: FrameProps::new() }
    }
}

impl<'data> MainFrameDefBuilder<'data> {
    /// Takes down what a header gives for `property` of the `I` or the `P`
    /// frames.
    pub fn update(&mut self, kind: FrameKind, property: FrameProperty, value: &'data str)
        requires
            kind != FrameKind::Slow,
        ensures
            final(self)@ == old(self)@.update(kind, property, value.spec_bytes()),
    {
        match kind {
            FrameKind::Intra => self.intra.set(property, value),
            FrameKind::Inter => self.inter.set(property, value),
            FrameKind::Slow => {},
        }
    }

    /// The definition that the lists give.
    pub fn parse(&self) -> (res: ParseResult<MainFrameDef<'data>>)
        ensures
            match self@.parse() {
                Ok(def) => res matches Ok(found) && found@ == def && def.well_formed(),
                Err(error) => res matches Err(e) && e@ == error,
            },
    {
        let intra = self.intra.parse(FrameKind::Intra)?;
        let inter_props = FrameProps {
            names: if self.inter.names.is_some() {
                self.inter.names
            } else {
                self.intra.names
            },
            signs: if self.inter.signs.is_some() {
                self.inter.signs
            } else {
                self.intra.signs
            },
            predictors: self.inter.predictors,
            encodings: self.inter.encodings,
        };
        assert(inter_props@ == self@.inter_props());
        let inter = inter_props.parse(FrameKind::Inter)?;
        if intra.len() < 2 || inter.len() != intra.len() {
            return Err(ParseError::Corrupted);
        }
        let mut i: usize = 0;
        while i < intra.len()
            invariant
                i <= intra@.len() == inter@.len(),
                self@.intra.fields(FrameKind::Intra) matches Ok(fields) && fields == field_views(
                    intra@,
                ),
                self@.inter_props().fields(FrameKind::Inter) matches Ok(fields) && fields
                    == field_views(inter@),
                forall|k: int|
                    0 <= k < i ==> (#[trigger] field_views(intra@)[k]).name == field_views(
                        inter@,
                    )[k].name,
            decreases intra@.len() - i,
        {
            if !same_text(intra[i].name, inter[i].name) {
                assert(field_views(intra@)[i as int].name != field_views(inter@)[i as int].name);
                return Err(ParseError::Corrupted);
            }
            i = i + 1;
        }
        Ok(MainFrameDef { intra, inter })
    }
}

/// The definition of the slow frames.
#[derive(Debug, Clone)]
pub struct SlowFrameDef<'data>(pub Vec<FieldDef<'data>>);

impl<'data> View for SlowFrameDef<'data> {
    type V = Seq<FieldDefView>;

    open spec fn view(&self) -> Seq<FieldDefView> {
        field_views(self.0@)
    }
}

/// The lists given for the slow frames so far.
#[derive(Debug, Clone, Copy)]
pub struct SlowFrameDefBuilder<'data>(FrameProps<'data>);

impl<'data> View for SlowFrameDefBuilder<'data> {
    type V = FramePropsView;

    closed spec fn view(&self) -> FramePropsView {
        self.0@
    }
}

/// The fields of the slow frames that the lists `props` define: none where
/// no list was given.
pub open spec fn spec_slow_fields(props: FramePropsView) -> Result<
    Seq<FieldDefView>,
    ParseErrorView,
> {
    if props == FramePropsView::empty() {
        Ok(Seq::empty())
    } else {
        props.fields(FrameKind::Slow)
    }
}

impl<'data> SlowFrameDef<'data> {
    /// A builder that has seen no header yet.
    pub fn builder() -> (builder: SlowFrameDefBuilder<'data>)
        ensures
            builder@ == FramePropsView::empty(),
    {
        SlowFrameDefBuilder(FrameProps::new())
    }
}

impl<'data> SlowFrameDefBuilder<'data> {
    /// Takes down what a header gives for `property` of the slow frames.
    pub fn update(&mut self, property: FrameProperty, value: &'data str)
        ensures
            final(self)@ == old(self)@.set(property, value.spec_bytes()),
    {
        self.0.set(property, value)
    }

    /// The definition that the lists give.
    pub fn parse(&self) -> (res: ParseResult<SlowFrameDef<'data>>)
        ensures
            match spec_slow_fields(self@) {
                Ok(fields) => res matches Ok(found) && found@ == fields,
                Err(error) => res matches Err(e) && e@ == error,
            },
    {
        let props = &self.0;
        if props.names.is_none() && props.signs.is_none() && props.predictors.is_none()
            && props.encodings.is_none() {
            let fields: Vec<FieldDef<'data>> = Vec::new();
            assert(field_views(fields@) =~= Seq::empty());
            Ok(SlowFrameDef(fields))
        } else {
            Ok(SlowFrameDef(props.parse(FrameKind::Slow)?))
        }
    }
}

} // verus!
