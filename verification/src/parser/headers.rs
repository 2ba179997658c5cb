//! The header section of a log: lines of the form `H name:value` that tell
//! what wrote the log and how its frames are laid out.

use super::frame::{
    is_frame_def_header, parse_frame_def_header, spec_is_frame_def_header,
    spec_parse_frame_def_header, spec_slow_fields, text_view, FieldDefView, FrameKind,
    FramePropsView, MainFrameDef, MainFrameDefBuilder, MainFrameDefBuilderView, MainFrameDefView,
    SlowFrameDef, SlowFrameDefBuilder,
};
use super::text::{
    cut, find_byte, is_lower, lemma_find_byte, lower, parse_number, same_text, spec_parse_number,
    split_once, utf8_text,
};
use super::{ParseError, ParseErrorView, ParseResult, Reader};
use crate::LogVersion;
use vstd::prelude::*;
use vstd::string::StringSliceAdditionalSpecFns;
use vstd::utf8::valid_utf8;

verus! {

/// The firmware that wrote a log.
#[derive(Debug, Clone, Copy, PartialEq, Eq, Hash, Structural)]
pub enum FirmwareKind {
    Baseflight,
    Cleanflight,
    INav,
}

impl FirmwareKind {
    /// The firmware that the value of a `Firmware type` header names,
    /// whatever the case of its letters.
    pub open spec fn spec_from_str(s: Seq<u8>) -> Option<FirmwareKind> {
        if lower(s) == "cleanflight".spec_bytes() {
            Some(FirmwareKind::Cleanflight)
        } else if lower(s) == "baseflight".spec_bytes() {
            Some(FirmwareKind::Baseflight)
        } else if lower(s) == "inav".spec_bytes() {
            Some(FirmwareKind::INav)
        } else {
            None
        }
    }

    /// Reads the value of a `Firmware type` header.
    pub fn from_str(s: &str) -> (res: ParseResult<FirmwareKind>)
        ensures
            match Self::spec_from_str(s.spec_bytes()) {
                Some(kind) => res == Ok::<FirmwareKind, ParseError>(kind),
                None => res matches Err(e) && e@ == (ParseErrorView::InvalidHeader {
                    header: "Firmware type".spec_bytes(),
                    value: s.spec_bytes(),
                }),
            },
    {
        if is_lower(s, "cleanflight") {
            Ok(FirmwareKind::Cleanflight)
        } else if is_lower(s, "baseflight") {
            Ok(FirmwareKind::Baseflight)
        } else if is_lower(s, "inav") {
            Ok(FirmwareKind::INav)
        } else {
            Err(ParseError::invalid_header("Firmware type", s))
        }
    }
}

/// The range of the values sent to the motors.
#[derive(Debug, Clone, Copy, PartialEq, Eq, Structural)]
pub struct MotorOutputRange(u16, u16);

impl MotorOutputRange {
    /// The range from `min` to `max`.
    pub closed spec fn spec_new(min: u16, max: u16) -> MotorOutputRange {
        MotorOutputRange(min, max)
    }

    /// The lower end.
    pub closed spec fn spec_min(self) -> u16 {
        self.0
    }

    /// The upper end.
    pub closed spec fn spec_max(self) -> u16 {
        self.1
    }

    /// A range is its two ends, as they were given.
    pub proof fn lemma_ends(min: u16, max: u16)
        ensures
            Self::spec_new(min, max).spec_min() == min,
            Self::spec_new(min, max).spec_max() == max,
    {
    }

    /// The range from `min` to `max`.
    pub fn new(min: u16, max: u16) -> (range: Self)
        ensures
            range == Self::spec_new(min, max),
            range.spec_min() == min,
            range.spec_max() == max,
    {
        Self(min, max)
    }

    /// The lower end.
    pub fn min(&self) -> (min: u16)
        ensures
            min == self.spec_min(),
    {
        self.0
    }

    /// The upper end.
    pub fn max(&self) -> (max: u16)
        ensures
            max == self.spec_max(),
    {
        self.1
    }

    /// The range that the value of a `motorOutput` header writes: two
    /// numbers of 16 bits with a comma between them.
    pub open spec fn spec_from_str(s: Seq<u8>) -> Option<MotorOutputRange> {
        let comma = find_byte(s, 0x2C, 0);
        if 0 <= comma < s.len() {
            match (
                spec_parse_number(s.subrange(0, comma), 0xFFFF),
                spec_parse_number(s.subrange(comma + 1, s.len() as int), 0xFFFF),
            ) {
                (Some(min), Some(max)) => Some(Self::spec_new(min as u16, max as u16)),
                _ => None,
            }
        } else {
            None
        }
    }

    /// Reads the value of a `motorOutput` header.
    pub fn from_str(s: &str) -> (res: ParseResult<MotorOutputRange>)
        ensures
            match Self::spec_from_str(s.spec_bytes()) {
                Some(range) => res == Ok::<MotorOutputRange, ParseError>(range),
                None => res == Err::<MotorOutputRange, ParseError>(ParseError::Corrupted),
            },
    {
        let Some((min, max)) = split_once(s, 0x2C) else {
            return Err(ParseError::Corrupted);
        };
        let Some(min) = parse_number(min, 0xFFFF) else {
            return Err(ParseError::Corrupted);
        };
        let Some(max) = parse_number(max, 0xFFFF) else {
            return Err(ParseError::Corrupted);
        };
        Ok(MotorOutputRange::new(min as u16, max as u16))
    }
}

/// What the header section of a log says.
#[derive(Debug, Clone)]
pub struct Headers<'data> {
    pub version: LogVersion,
    pub main_frames: MainFrameDef<'data>,
    pub slow_frames: SlowFrameDef<'data>,
    pub firmware_revision: &'data str,
    pub firmware_kind: FirmwareKind,
    pub board_info: &'data str,
    pub craft_name: &'data str,
    /// Measured battery voltage at arm
    pub vbat_reference: u16,
    pub min_throttle: Option<u16>,
    pub motor_output_range: Option<MotorOutputRange>,
}

/// Mathematical value of [`Headers`].
pub struct HeadersView {
    pub version: LogVersion,
    pub main_frames: MainFrameDefView,
    pub slow_frames: Seq<FieldDefView>,
    pub firmware_revision: Seq<u8>,
    pub firmware_kind: FirmwareKind,
    pub board_info: Seq<u8>,
    pub craft_name: Seq<u8>,
    pub vbat_reference: u16,
    pub min_throttle: Option<u16>,
    pub motor_output_range: Option<MotorOutputRange>,
}

impl<'data> View for Headers<'data> {
    type V = HeadersView;

    open spec fn view(&self) -> HeadersView {
        HeadersView {
            version: self.version,
            main_frames: self.main_frames@,
            slow_frames: self.slow_frames@,
            firmware_revision: self.firmware_revision.spec_bytes(),
            firmware_kind: self.firmware_kind,
            board_info: self.board_info.spec_bytes(),
            craft_name: self.craft_name.spec_bytes(),
            vbat_reference: self.vbat_reference,
            min_throttle: self.min_throttle,
            motor_output_range: self.motor_output_range,
        }
    }
}

/// What has been learnt from the headers read so far.
#[derive(Debug, Clone, Copy)]
pub struct State<'data> {
    version: LogVersion,
    main_frames: MainFrameDefBuilder<'data>,
    slow_frames: SlowFrameDefBuilder<'data>,
    firmware_revision: Option<&'data str>,
    firmware_kind: Option<FirmwareKind>,
    board_info: Option<&'data str>,
    craft_name: Option<&'data str>,
    vbat_reference: Option<u16>,
    min_throttle: Option<u16>,
    motor_output_range: Option<MotorOutputRange>,
}

/// Mathematical value of a [`State`].
pub struct StateView {
    pub version: LogVersion,
    pub main_frames: MainFrameDefBuilderView,
    pub slow_frames: FramePropsView,
    pub firmware_revision: Option<Seq<u8>>,
    pub firmware_kind: Option<FirmwareKind>,
    pub board_info: Option<Seq<u8>>,
    pub craft_name: Option<Seq<u8>>,
    pub vbat_reference: Option<u16>,
    pub min_throttle: Option<u16>,
    pub motor_output_range: Option<MotorOutputRange>,
}

impl<'data> View for State<'data> {
    type V = StateView;

    closed spec fn view(&self) -> StateView {
        StateView {
            version: self.version,
            main_frames: self.main_frames@,
            slow_frames: self.slow_frames@,
            firmware_revision: text_view(self.firmware_revision),
            firmware_kind: self.firmware_kind,
            board_info: text_view(self.board_info),
            craft_name: text_view(self.craft_name),
            vbat_reference: self.vbat_reference,
            min_throttle: self.min_throttle,
            motor_output_range: self.motor_output_range,
        }
    }
}

/// The error for a header `header` whose value `value` could not be read.
pub open spec fn invalid(header: Seq<u8>, value: Seq<u8>) -> ParseErrorView {
    ParseErrorView::InvalidHeader { header, value }
}

impl StateView {
    /// The state before any header but the version.
    pub open spec fn new(version: LogVersion) -> StateView {
        StateView {
            version,
            main_frames: MainFrameDefBuilderView::empty(),
            slow_frames: FramePropsView::empty(),
            firmware_revision: None,
            firmware_kind: None,
            board_info: None,
            craft_name: None,
            vbat_reference: None,
            min_throttle: None,
            motor_output_range: None,
        }
    }

    /// The state after the header `header` with the value `value`.
    ///
    /// The headers that describe the craft are known by their names,
    /// whatever the case of the letters. A header whose name starts with
    /// `Field` defines frames and must name a kind of frame and a property.
    /// Any other header changes nothing.
    pub open spec fn update(self, header: Seq<u8>, value: Seq<u8>) -> Result<
        StateView,
        ParseErrorView,
    > {
        let name = lower(header);
        if name == "firmware revision".spec_bytes() {
            Ok(StateView { firmware_revision: Some(value), ..self })
        } else if name == "firmware type".spec_bytes() {
            match FirmwareKind::spec_from_str(value) {
                Some(kind) => Ok(StateView { firmware_kind: Some(kind), ..self }),
                None => Err(invalid("Firmware type".spec_bytes(), value)),
            }
        } else if name == "board information".spec_bytes() {
            Ok(StateView { board_info: Some(value), ..self })
        } else if name == "craft name".spec_bytes() {
            Ok(StateView { craft_name: Some(value), ..self })
        } else if name == "vbatref".spec_bytes() {
            match spec_parse_number(value, 0xFFFF) {
                Some(number) => Ok(StateView { vbat_reference: Some(number as u16), ..self }),
                None => Err(invalid(header, value)),
            }
        } else if name == "minthrottle".spec_bytes() {
            match spec_parse_number(value, 0xFFFF) {
                Some(number) => Ok(StateView { min_throttle: Some(number as u16), ..self }),
                None => Err(invalid(header, value)),
            }
        } else if name == "motoroutput".spec_bytes() {
            match MotorOutputRange::spec_from_str(value) {
                Some(range) => Ok(StateView { motor_output_range: Some(range), ..self }),
                None => Err(invalid(header, value)),
            }
        } else if spec_is_frame_def_header(header) {
            match spec_parse_frame_def_header(header) {
                Some((FrameKind::Slow, property)) => Ok(
                    StateView { slow_frames: self.slow_frames.set(property, value), ..self },
                ),
                Some((kind, property)) => Ok(
                    StateView {
                        main_frames: self.main_frames.update(kind, property, value),
                        ..self
                    },
                ),
                None => Err(ParseErrorView::UnknownHeader(header)),
            }
        } else {
            Ok(self)
        }
    }

    /// What the headers say once they have all been read: the frame
    /// definitions are parsed, and the headers that every log must have are
    /// asked for.
    pub open spec fn finish(self) -> Result<HeadersView, ParseErrorView> {
        match self.main_frames.parse() {
            Err(e) => Err(e),
            Ok(main_frames) => match spec_slow_fields(self.slow_frames) {
                Err(e) => Err(e),
                Ok(slow_frames) => if self.firmware_revision is None {
                    Err(ParseErrorView::MissingHeader("Firmware revision".spec_bytes()))
                } else if self.firmware_kind is None {
                    Err(ParseErrorView::MissingHeader("Firmware type".spec_bytes()))
                } else if self.board_info is None {
                    Err(ParseErrorView::MissingHeader("Board information".spec_bytes()))
                } else if self.craft_name is None {
                    Err(ParseErrorView::MissingHeader("Craft name".spec_bytes()))
                } else if self.vbat_reference is None {
                    Err(ParseErrorView::MissingHeader("vbatref".spec_bytes()))
                } else {
                    Ok(
                        HeadersView {
                            version: self.version,
                            main_frames,
                            slow_frames,
                            firmware_revision: self.firmware_revision.unwrap(),
                            firmware_kind: self.firmware_kind.unwrap(),
                            board_info: self.board_info.unwrap(),
                            craft_name: self.craft_name.unwrap(),
                            vbat_reference: self.vbat_reference.unwrap(),
                            min_throttle: self.min_throttle,
                            motor_output_range: self.motor_output_range,
                        },
                    )
                },
            },
        }
    }
}

impl<'data> State<'data> {
    /// The state before any header but the version.
    pub fn new(version: LogVersion) -> (state: Self)
        ensures
            state@ == StateView::new(version),
    {
        Self {
            version,
            main_frames: MainFrameDef::builder(),
            slow_frames: SlowFrameDef::builder(),
            firmware_revision: None,
            firmware_kind: None,
            board_info: None,
            craft_name: None,
            vbat_reference: None,
            min_throttle: None,
            motor_output_range: None,
        }
    }

    /// Takes in one header. A header that is refused changes nothing.
    pub fn update(&mut self, header: &'data str, value: &'data str) -> (res: ParseResult<()>)
        ensures
            match old(self)@.update(header.spec_bytes(), value.spec_bytes()) {
                Ok(state) => res is Ok && final(self)@ == state,
                Err(error) => (res matches Err(e) && e@ == error) && final(self)@ == old(self)@,
            },
    {
        if is_lower(header, "firmware revision") {
            self.firmware_revision = Some(value);
        } else if is_lower(header, "firmware type") {
            self.firmware_kind = Some(FirmwareKind::from_str(value)?);
        } else if is_lower(header, "board information") {
            self.board_info = Some(value);
        } else if is_lower(header, "craft name") {
            self.craft_name = Some(value);
        } else if is_lower(header, "vbatref") {
            let Some(vbat_reference) = parse_number(value, 0xFFFF) else {
                return Err(ParseError::invalid_header(header, value));
            };
            self.vbat_reference = Some(vbat_reference as u16);
        } else if is_lower(header, "minthrottle") {
            let Some(min_throttle) = parse_number(value, 0xFFFF) else {
                return Err(ParseError::invalid_header(header, value));
            };
            self.min_throttle = Some(min_throttle as u16);
        } else if is_lower(header, "motoroutput") {
            let Ok(range) = MotorOutputRange::from_str(value) else {
                return Err(ParseError::invalid_header(header, value));
            };
            self.motor_output_range = Some(range);
        } else if is_frame_def_header(header) {
            let Some((frame_kind, property)) = parse_frame_def_header(header) else {
                return Err(ParseError::unknown_header(header));
            };
            match frame_kind {
                FrameKind::Inter | FrameKind::Intra => {
                    self.main_frames.update(frame_kind, property, value);
                },
                FrameKind::Slow => self.slow_frames.update(property, value),
            }
        }
        Ok(())
    }

    /// Closes the header section and says what it held.
    pub fn finish(self) -> (res: ParseResult<Headers<'data>>)
        ensures
            match self@.finish() {
                Ok(headers) => res matches Ok(found) && found@ == headers,
                Err(error) => res matches Err(e) && e@ == error,
            },
    {
        let main_frames = self.main_frames.parse()?;
        let slow_frames = self.slow_frames.parse()?;
        let Some(firmware_revision) = self.firmware_revision else {
            return Err(ParseError::missing_header("Firmware revision"));
        };
        let Some(firmware_kind) = self.firmware_kind else {
            return Err(ParseError::missing_header("Firmware type"));
        };
        let Some(board_info) = self.board_info else {
            return Err(ParseError::missing_header("Board information"));
        };
        let Some(craft_name) = self.craft_name else {
            return Err(ParseError::missing_header("Craft name"));
        };
        let Some(vbat_reference) = self.vbat_reference else {
            return Err(ParseError::missing_header("vbatref"));
        };
        Ok(
            Headers {
                version: self.version,
                main_frames,
                slow_frames,
                firmware_revision,
                firmware_kind,
                board_info,
                craft_name,
                vbat_reference,
                min_throttle: self.min_throttle,
                motor_output_range: self.motor_output_range,
            },
        )
    }
}

/// The name and the value that a header line holds, the line being what
/// stands between the leading `H` and the line feed. One space before the
/// name is not part of it; the name ends at the first colon.
pub open spec fn spec_header_line(line: Seq<u8>) -> Result<(Seq<u8>, Seq<u8>), ParseErrorView> {
    if !valid_utf8(line) {
        Err(ParseErrorView::HeaderInvalidUtf8)
    } else {
        let text = if line.len() > 0 && line[0] == 0x20 {
            line.subrange(1, line.len() as int)
        } else {
            line
        };
        let colon = find_byte(text, 0x3A, 0);
        if 0 <= colon < text.len() {
            Ok((text.subrange(0, colon), text.subrange(colon + 1, text.len() as int)))
        } else {
            Err(ParseErrorView::HeaderMissingColon)
        }
    }
}

/// The header that starts at the byte `at` of `bytes`: its name, its value
/// and the index of the byte behind its line feed.
pub open spec fn spec_parse_header(bytes: Seq<u8>, at: int) -> Result<
    (Seq<u8>, Seq<u8>, int),
    ParseErrorView,
> {
    if at < 0 || at >= bytes.len() {
        Err(ParseErrorView::UnexpectedEof)
    } else if bytes[at] != 0x48 {
        Err(ParseErrorView::Corrupted)
    } else {
        let end = find_byte(bytes, 0x0A, at + 1);
        if end >= bytes.len() {
            Err(ParseErrorView::UnexpectedEof)
        } else {
            match spec_header_line(bytes.subrange(at + 1, end)) {
                Ok((name, value)) => Ok((name, value, end + 1)),
                Err(e) => Err(e),
            }
        }
    }
}

/// Reads one header line and returns its name and its value. The reader
/// stands at the leading `H` before and behind the line feed after. Where
/// the line is refused, nothing is read.
pub fn parse_header<'data>(data: &mut Reader<'data>) -> (res: ParseResult<
    (&'data str, &'data str),
>)
    ensures
        final(data).bytes() == old(data).bytes(),
        match spec_parse_header(old(data).bytes(), old(data).byte_pos()) {
            Ok((name, value, next)) => {
                &&& res matches Ok(found) && found.0.spec_bytes() == name && found.1.spec_bytes()
                    == value
                &&& final(data).pos() == 8 * next
                &&& old(data).byte_pos() < next <= old(data).bytes().len()
            },
            Err(error) => (res matches Err(e) && e@ == error) && final(data).pos() == old(data).pos(),
        },
{
    let mut cursor = *data;
    match cursor.read_u8() {
        Some(0x48) => {},
        Some(_) => {
            return Err(ParseError::Corrupted);
        },
        None => {
            return Err(ParseError::UnexpectedEof);
        },
    }
    let Some(line) = cursor.read_line() else {
        return Err(ParseError::UnexpectedEof);
    };
    proof {
        lemma_find_byte(old(data).bytes(), 0x0A, old(data).byte_pos() + 1);
    }
    let Some(text) = utf8_text(line) else {
        return Err(ParseError::HeaderInvalidUtf8);
    };
    let bytes = text.as_bytes();
    let text = if bytes.len() > 0 && bytes[0] == 0x20 {
        cut(text, 0).1
    } else {
        text
    };
    let Some((name, value)) = split_once(text, 0x3A) else {
        return Err(ParseError::HeaderMissingColon);
    };
    *data = cursor;
    Ok((name, value))
}

/// What the header section that starts at the byte `at` of `bytes` says,
/// given the `state` that the headers before have left, and the index of
/// the first byte behind the section. The section ends before the first
/// line that does not start with `H`; it does not end with the data.
pub open spec fn spec_accumulate(bytes: Seq<u8>, at: int, state: StateView) -> Result<
    (HeadersView, int),
    ParseErrorView,
>
    decreases bytes.len() - at,
{
    if at < 0 || at >= bytes.len() {
        Err(ParseErrorView::UnexpectedEof)
    } else if bytes[at] != 0x48 {
        match state.finish() {
            Ok(headers) => Ok((headers, at)),
            Err(e) => Err(e),
        }
    } else {
        match spec_parse_header(bytes, at) {
            Ok((name, value, next)) => match state.update(name, value) {
                Ok(state) => {
                    proof {
                        lemma_find_byte(bytes, 0x0A, at + 1);
                    }
                    spec_accumulate(bytes, next, state)
                },
                Err(e) => Err(e),
            },
            Err(e) => Err(e),
        }
    }
}

/// What the header section that starts at the byte `at` of `bytes` says,
/// and the index of the first byte behind it. The first header is
/// `Product`, the second `Data version` with a version that is known.
pub open spec fn spec_parse(bytes: Seq<u8>, at: int) -> Result<(HeadersView, int), ParseErrorView> {
    match spec_parse_header(bytes, at) {
        Err(e) => Err(e),
        Ok((name, _product, next)) => if name != "Product".spec_bytes() {
            Err(ParseErrorView::MissingHeader("Product".spec_bytes()))
        } else {
            match spec_parse_header(bytes, next) {
                Err(e) => Err(e),
                Ok((name, value, next)) => if name != "Data version".spec_bytes() {
                    Err(ParseErrorView::MissingHeader("Data version".spec_bytes()))
                } else {
                    match LogVersion::spec_from_str(value) {
                        None => Err(invalid(name, value)),
                        Some(version) => spec_accumulate(bytes, next, StateView::new(version)),
                    }
                },
            }
        },
    }
}

/// In the first `n` bytes of `s`, a byte is found where it is found in `s`,
/// unless that is at `n` or behind it.
pub proof fn lemma_find_byte_prefix(s: Seq<u8>, b: u8, from: int, n: int)
    requires
        0 <= from <= n <= s.len(),
    ensures
        find_byte(s.subrange(0, n), b, from) == if find_byte(s, b, from) < n {
            find_byte(s, b, from)
        } else {
            n
        },
    decreases n - from,
{
    let prefix = s.subrange(0, n);
    if from < n {
        assert(prefix[from] == s[from]);
        if s[from] != b {
            lemma_find_byte_prefix(s, b, from + 1, n);
        }
    } else {
        lemma_find_byte(s, b, from);
    }
}

/// A header that can be read from `bytes` is read in the same way from
/// their first `n`, where they hold its line feed; where they do not, they
/// end too early.
pub proof fn lemma_parse_header_prefix(bytes: Seq<u8>, at: int, n: int)
    requires
        spec_parse_header(bytes, at) is Ok,
        0 <= n <= bytes.len(),
    ensures
        spec_parse_header(bytes, at) matches Ok((name, value, next)) && at < next
            <= bytes.len() && spec_parse_header(bytes.subrange(0, n), at) == if next <= n {
            spec_parse_header(bytes, at)
        } else {
            Err(ParseErrorView::UnexpectedEof)
        },
{
    let prefix = bytes.subrange(0, n);
    let end = find_byte(bytes, 0x0A, at + 1);
    lemma_find_byte(bytes, 0x0A, at + 1);
    if at < n {
        assert(prefix[at] == bytes[at]);
        lemma_find_byte_prefix(bytes, 0x0A, at + 1, n);
        if end < n {
            assert(prefix.subrange(at + 1, end) =~= bytes.subrange(at + 1, end));
        }
    }
}

/// A header section that can be read ends at a byte of the data that is
/// not behind the place where reading began.
pub proof fn lemma_accumulate_end(bytes: Seq<u8>, at: int, state: StateView)
    ensures
        spec_accumulate(bytes, at, state) matches Ok((headers, end)) ==> 0 <= at <= end
            < bytes.len() && bytes[end] != 0x48,
    decreases bytes.len() - at,
{
    if 0 <= at < bytes.len() && bytes[at] == 0x48 {
        if let Ok((name, value, next)) = spec_parse_header(bytes, at) {
            lemma_find_byte(bytes, 0x0A, at + 1);
            if let Ok(state) = state.update(name, value) {
                lemma_accumulate_end(bytes, next, state);
            }
        }
    }
}

/// The rest of a header section that can be read from `bytes` is read in
/// the same way from their first `n`, where they hold the byte behind the
/// section; where they do not, they end too early.
pub proof fn lemma_accumulate_prefix(bytes: Seq<u8>, at: int, state: StateView, n: int)
    requires
        spec_accumulate(bytes, at, state) is Ok,
        0 <= n <= bytes.len(),
    ensures
        spec_accumulate(bytes, at, state) matches Ok((headers, end)) && spec_accumulate(
            bytes.subrange(0, n),
            at,
            state,
        ) == if end < n {
            spec_accumulate(bytes, at, state)
        } else {
            Err(ParseErrorView::UnexpectedEof)
        },
    decreases bytes.len() - at,
{
    let prefix = bytes.subrange(0, n);
    lemma_accumulate_end(bytes, at, state);
    if at < n {
        assert(prefix[at] == bytes[at]);
        if bytes[at] == 0x48 {
            lemma_parse_header_prefix(bytes, at, n);
            let (name, value, next) = spec_parse_header(bytes, at)->Ok_0;
            let state = state.update(name, value)->Ok_0;
            lemma_accumulate_end(bytes, next, state);
            if next <= n {
                lemma_accumulate_prefix(bytes, next, state, n);
            }
        }
    }
}

/// Of a log whose header section can be read, every beginning is read
/// without fault: one that holds the byte behind the section says what the
/// whole log says, and a shorter one is refused as ending too early.
pub proof fn lemma_parse_prefix(bytes: Seq<u8>, at: int, n: int)
    requires
        spec_parse(bytes, at) is Ok,
        0 <= n <= bytes.len(),
    ensures
        spec_parse(bytes, at) matches Ok((headers, end)) && spec_parse(bytes.subrange(0, n), at)
            == if end < n {
            spec_parse(bytes, at)
        } else {
            Err(ParseErrorView::UnexpectedEof)
        },
{
    lemma_parse_header_prefix(bytes, at, n);
    let (name, product, next) = spec_parse_header(bytes, at)->Ok_0;
    lemma_parse_header_prefix(bytes, next, n);
    let (name, value, next) = spec_parse_header(bytes, next)->Ok_0;
    let state = StateView::new(LogVersion::spec_from_str(value)->Some_0);
    lemma_accumulate_end(bytes, next, state);
    lemma_accumulate_prefix(bytes, next, state, n);
}

impl<'data> Headers<'data> {
    /// The names of the fields of the main frames, in their order.
    pub fn main_fields(&self) -> (names: Vec<&'data str>)
        ensures
            names@.len() == self@.main_frames.intra.len(),
            forall|i: int|
                0 <= i < names@.len() ==> (#[trigger] names@[i]).spec_bytes()
                    == self@.main_frames.intra[i].name,
    {
        names_of(&self.main_frames.intra)
    }

    /// The names of the fields of the slow frames, in their order.
    pub fn slow_fields(&self) -> (names: Vec<&'data str>)
        ensures
            names@.len() == self@.slow_frames.len(),
            forall|i: int|
                0 <= i < names@.len() ==> (#[trigger] names@[i]).spec_bytes()
                    == self@.slow_frames[i].name,
    {
        names_of(&self.slow_frames.0)
    }

    /// Reads the header section of a log. The reader then stands at the
    /// first byte behind the section. Where the section is refused, nothing
    /// is read.
    pub fn parse(data: &mut Reader<'data>) -> (res: ParseResult<Self>)
        ensures
            final(data).bytes() == old(data).bytes(),
            match spec_parse(old(data).bytes(), old(data).byte_pos()) {
                Ok((headers, end)) => (res matches Ok(found) && found@ == headers) && final(data).pos() == 8 * end,
                Err(error) => (res matches Err(e) && e@ == error) && final(data).pos() == old(data).pos(),
            },
    {
        let mut cursor = *data;
        let (name, _product) = parse_header(&mut cursor)?;
        if !same_text(name, "Product") {
            return Err(ParseError::missing_header("Product"));
        }
        let (name, version) = parse_header(&mut cursor)?;
        if !same_text(name, "Data version") {
            return Err(ParseError::missing_header("Data version"));
        }
        let Some(version) = LogVersion::from_str(version) else {
            return Err(ParseError::invalid_header(name, version));
        };
        let mut state = State::new(version);
        let ghost whole = spec_parse(old(data).bytes(), old(data).byte_pos());
        loop
            invariant_except_break
                whole == spec_accumulate(cursor.bytes(), cursor.byte_pos(), state@),
            invariant
                *data == *old(data),
                cursor.bytes() == old(data).bytes(),
                cursor.pos() == 8 * cursor.byte_pos(),
                whole == spec_parse(old(data).bytes(), old(data).byte_pos()),
            ensures
                whole == match state@.finish() {
                    Ok(headers) => Ok((headers, cursor.byte_pos())),
                    Err(e) => Err(e),
                },
            decreases cursor.bytes().len() - cursor.byte_pos(),
        {
            match cursor.peek() {
                Some(0x48) => {},
                Some(_) => {
                    break ;
                },
                None => {
                    return Err(ParseError::UnexpectedEof);
                },
            }
            let (name, value) = parse_header(&mut cursor)?;
            state.update(name, value)?;
        }
        let headers = state.finish()?;
        *data = cursor;
        Ok(headers)
    }
}

fn names_of<'data>(fields: &Vec<super::frame::FieldDef<'data>>) -> (names: Vec<&'data str>)
    ensures
        names@.len() == fields@.len(),
        forall|i: int|
            0 <= i < names@.len() ==> (#[trigger] names@[i]).spec_bytes() == fields@[i]@.name,
{
    let mut names: Vec<&'data str> = Vec::new();
    let mut i: usize = 0;
    while i < fields.len()
        invariant
            i <= fields@.len(),
            names@.len() == i,
            forall|k: int| 0 <= k < i ==> (#[trigger] names@[k]).spec_bytes() == fields@[k]@.name,
        decreases fields@.len() - i,
    {
        names.push(fields[i].name);
        i = i + 1;
    }
    names
}

} // verus!
