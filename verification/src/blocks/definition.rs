//! How a block presents itself: its properties, its pads and its looks.

use crate::properties::{PropertyTree, PropertyValue};
use vstd::prelude::*;

verus! {

/// What travels over a pad.
#[derive(Clone, Copy, Debug, PartialEq, Eq, Structural)]
pub enum MediaType {
    Audio,
    Video,
    Generic,
}

/// A pad that a block shows, and the pad inside it that this is.
pub struct ExternalPad {
    /// What tells it apart from its siblings on the block.
    pub label: Option<String>,
    pub name: String,
    pub media_type: MediaType,
    pub internal_element_id: String,
    pub internal_pad_name: String,
}

pub struct PadInfo {
    pub label: Option<Seq<char>>,
    pub name: Seq<char>,
    pub media_type: MediaType,
    pub internal_element_id: Seq<char>,
    pub internal_pad_name: Seq<char>,
}

pub open spec fn optional(s: Option<String>) -> Option<Seq<char>> {
    match s {
        Some(s) => Some(s@),
        None => None,
    }
}

impl View for ExternalPad {
    type V = PadInfo;

    open spec fn view(&self) -> PadInfo {
        PadInfo {
            label: optional(self.label),
            name: self.name@,
            media_type: self.media_type,
            internal_element_id: self.internal_element_id@,
            internal_pad_name: self.internal_pad_name@,
        }
    }
}

/// The pads that a block shows.
pub struct ExternalPads {
    pub inputs: Vec<ExternalPad>,
    pub outputs: Vec<ExternalPad>,
}

pub struct PadsInfo {
    pub inputs: Seq<PadInfo>,
    pub outputs: Seq<PadInfo>,
}

pub open spec fn pad_infos(v: Seq<ExternalPad>) -> Seq<PadInfo> {
    v.map_values(|p: ExternalPad| p@)
}

impl View for ExternalPads {
    type V = PadsInfo;

    open spec fn view(&self) -> PadsInfo {
        PadsInfo { inputs: pad_infos(self.inputs@), outputs: pad_infos(self.outputs@) }
    }
}

pub open spec fn no_pads() -> PadsInfo {
    PadsInfo { inputs: Seq::empty(), outputs: Seq::empty() }
}

impl PadsInfo {
    pub open spec fn input(self, pad: PadInfo) -> PadsInfo {
        PadsInfo { inputs: self.inputs.push(pad), ..self }
    }

    pub open spec fn output(self, pad: PadInfo) -> PadsInfo {
        PadsInfo { outputs: self.outputs.push(pad), ..self }
    }
}

impl ExternalPads {
    pub fn none() -> (r: ExternalPads)
        ensures
            r@ == no_pads(),
    {
        let r = ExternalPads { inputs: Vec::new(), outputs: Vec::new() };
        assert(r@.inputs =~= Seq::<PadInfo>::empty());
        assert(r@.outputs =~= Seq::<PadInfo>::empty());
        r
    }

    pub fn input(&mut self, pad: ExternalPad)
        ensures
            final(self)@ == old(self)@.input(pad@),
    {
        let ghost before = self@;
        let ghost added = pad@;
        self.inputs.push(pad);
        assert(self@.inputs =~= before.inputs.push(added));
    }

    pub fn output(&mut self, pad: ExternalPad)
        ensures
            final(self)@ == old(self)@.output(pad@),
    {
        let ghost before = self@;
        let ghost added = pad@;
        self.outputs.push(pad);
        assert(self@.outputs =~= before.outputs.push(added));
    }
}

/// A pad of a block.
pub open spec fn pad_info(
    label: Option<Seq<char>>,
    name: Seq<char>,
    media_type: MediaType,
    element: Seq<char>,
    pad: Seq<char>,
) -> PadInfo {
    PadInfo { label, name, media_type, internal_element_id: element, internal_pad_name: pad }
}

pub open spec fn optional_str(s: Option<&str>) -> Option<Seq<char>> {
    match s {
        Some(s) => Some(s@),
        None => None,
    }
}

/// A pad of a block.
pub fn external_pad(
    label: Option<&str>,
    name: &str,
    media_type: MediaType,
    element: &str,
    pad: &str,
) -> (r: ExternalPad)
    ensures
        r@ == pad_info(optional_str(label), name@, media_type, element@, pad@),
{
    ExternalPad {
        label: match label {
            Some(s) => Some(s.to_owned()),
            None => None,
        },
        name: name.to_owned(),
        media_type,
        internal_element_id: element.to_owned(),
        internal_pad_name: pad.to_owned(),
    }
}

/// A value to choose from, and how it is shown.
pub struct EnumValue {
    pub value: String,
    pub label: Option<String>,
}

/// A value to choose from: the value and how it is shown.
pub type Choice = (Seq<char>, Option<Seq<char>>);

impl View for EnumValue {
    type V = Choice;

    open spec fn view(&self) -> Choice {
        (self.value@, optional(self.label))
    }
}

pub open spec fn choices(v: Seq<EnumValue>) -> Seq<Choice> {
    v.map_values(|e: EnumValue| e@)
}

/// The choices with one more.
pub open spec fn or(all: Seq<Choice>, value: Seq<char>, label: Seq<char>) -> Seq<Choice> {
    all.push((value, Some(label)))
}

pub open spec fn no_choice() -> Seq<Choice> {
    Seq::empty()
}

/// No value to choose from yet.
pub fn no_values() -> (r: Vec<EnumValue>)
    ensures
        choices(r@) == no_choice(),
{
    let r: Vec<EnumValue> = Vec::new();
    assert(choices(r@) =~= no_choice());
    r
}

/// Adds a value to choose from.
pub fn add_value(all: &mut Vec<EnumValue>, value: &str, label: &str)
    ensures
        choices(final(all)@) == or(choices(old(all)@), value@, label@),
{
    let ghost before = choices(all@);
    all.push(EnumValue { value: value.to_owned(), label: Some(label.to_owned()) });
    assert(choices(all@) =~= before.push((value@, Some(label@))));
}

/// A copy of the values to choose from.
pub fn copy_values(all: &Vec<EnumValue>) -> (r: Vec<EnumValue>)
    ensures
        choices(r@) == choices(all@),
{
    let mut out: Vec<EnumValue> = Vec::new();
    let mut i: usize = 0;
    proof {
        assert(choices(out@) =~= choices(all@).take(0));
    }
    while i < all.len()
        invariant
            i <= all.len(),
            choices(out@) == choices(all@).take(i as int),
        decreases all.len() - i,
    {
        let ghost before = choices(out@);
        let label = match &all[i].label {
            Some(s) => Some(s.clone()),
            None => None,
        };
        out.push(EnumValue { value: all[i].value.clone(), label });
        proof {
            assert(choices(out@) =~= before.push(all@[i as int]@));
            assert(choices(all@).take(i + 1) =~= choices(all@).take(i as int).push(
                choices(all@)[i as int],
            ));
        }
        i += 1;
    }
    proof {
        assert(choices(all@).take(all@.len() as int) =~= choices(all@));
    }
    out
}

/// What a property can hold.
pub enum PropertyType {
    String,
    Multiline,
    Int,
    UInt,
    Float,
    Bool,
    Enum { values: Vec<EnumValue> },
    VideoDevice,
    AudioDevice,
}

pub enum TypeInfo {
    Text,
    Multiline,
    Int,
    UInt,
    Float,
    Bool,
    OneOf(Seq<Choice>),
    VideoDevice,
    AudioDevice,
}

impl View for PropertyType {
    type V = TypeInfo;

    open spec fn view(&self) -> TypeInfo {
        match self {
            PropertyType::String => TypeInfo::Text,
            PropertyType::Multiline => TypeInfo::Multiline,
            PropertyType::Int => TypeInfo::Int,
            PropertyType::UInt => TypeInfo::UInt,
            PropertyType::Float => TypeInfo::Float,
            PropertyType::Bool => TypeInfo::Bool,
            PropertyType::Enum { values } => TypeInfo::OneOf(choices(values@)),
            PropertyType::VideoDevice => TypeInfo::VideoDevice,
            PropertyType::AudioDevice => TypeInfo::AudioDevice,
        }
    }
}

/// Where a property of a block goes inside it.
pub struct PropertyMapping {
    pub element_id: String,
    pub property_name: String,
    pub transform: Option<String>,
}

/// A property that a block shows.
pub struct ExposedProperty {
    pub name: String,
    pub label: String,
    pub description: String,
    pub property_type: PropertyType,
    pub default_value: Option<PropertyValue>,
    pub mapping: PropertyMapping,
    /// Whether it can change while the block runs.
    pub live: bool,
    pub persist: Option<bool>,
}

pub struct PropertyInfo {
    pub name: Seq<char>,
    pub label: Seq<char>,
    pub description: Seq<char>,
    pub property_type: TypeInfo,
    pub default_value: Option<PropertyTree>,
    pub element_id: Seq<char>,
    pub property_name: Seq<char>,
    pub transform: Option<Seq<char>>,
    pub live: bool,
    pub persist: Option<bool>,
}

pub open spec fn optional_value(v: Option<PropertyValue>) -> Option<PropertyTree> {
    match v {
        Some(v) => Some(v@),
        None => None,
    }
}

impl View for ExposedProperty {
    type V = PropertyInfo;

    open spec fn view(&self) -> PropertyInfo {
        PropertyInfo {
            name: self.name@,
            label: self.label@,
            description: self.description@,
            property_type: self.property_type@,
            default_value: optional_value(self.default_value),
            element_id: self.mapping.element_id@,
            property_name: self.mapping.property_name@,
            transform: optional(self.mapping.transform),
            live: self.live,
            persist: self.persist,
        }
    }
}

/// A property that goes to an element inside the block.
pub open spec fn element_property(
    name: Seq<char>,
    label: Seq<char>,
    description: Seq<char>,
    property_type: TypeInfo,
    default_value: Option<PropertyTree>,
    element_id: Seq<char>,
    property_name: Seq<char>,
    live: bool,
) -> PropertyInfo {
    PropertyInfo {
        name,
        label,
        description,
        property_type,
        default_value,
        element_id,
        property_name,
        transform: None,
        live,
        persist: None,
    }
}

/// A property that the block itself reads.
pub open spec fn block_property(
    name: Seq<char>,
    label: Seq<char>,
    description: Seq<char>,
    property_type: TypeInfo,
    default_value: PropertyTree,
) -> PropertyInfo {
    element_property(
        name,
        label,
        description,
        property_type,
        Some(default_value),
        "_block"@,
        name,
        false,
    )
}

/// A property that goes to an element inside the block.
pub fn for_element(
    name: &str,
    label: &str,
    description: &str,
    property_type: PropertyType,
    default_value: Option<PropertyValue>,
    element_id: &str,
    property_name: &str,
    live: bool,
) -> (r: ExposedProperty)
    ensures
        r@ == element_property(
            name@,
            label@,
            description@,
            property_type@,
            optional_value(default_value),
            element_id@,
            property_name@,
            live,
        ),
{
    ExposedProperty {
        name: name.to_owned(),
        label: label.to_owned(),
        description: description.to_owned(),
        property_type,
        default_value,
        mapping: PropertyMapping {
            element_id: element_id.to_owned(),
            property_name: property_name.to_owned(),
            transform: None,
        },
        live,
        persist: None,
    }
}

/// A property that the block itself reads.
pub fn for_block(
    name: &str,
    label: &str,
    description: &str,
    property_type: PropertyType,
    default_value: PropertyValue,
) -> (r: ExposedProperty)
    ensures
        r@ == block_property(name@, label@, description@, property_type@, default_value@),
{
    for_element(
        name,
        label,
        description,
        property_type,
        Some(default_value),
        "_block",
        name,
        false,
    )
}

/// How a block looks. Sizes are in tenths.
pub struct BlockUIMetadata {
    pub icon: Option<String>,
    pub color: Option<String>,
    pub width_tenths: Option<u32>,
    pub height_tenths: Option<u32>,
    pub light_fill_color: Option<String>,
    pub light_stroke_color: Option<String>,
    pub dark_fill_color: Option<String>,
    pub dark_stroke_color: Option<String>,
}

pub struct LooksInfo {
    pub icon: Option<Seq<char>>,
    pub color: Option<Seq<char>>,
    pub width_tenths: Option<u32>,
    pub height_tenths: Option<u32>,
    pub light_fill_color: Option<Seq<char>>,
    pub light_stroke_color: Option<Seq<char>>,
    pub dark_fill_color: Option<Seq<char>>,
    pub dark_stroke_color: Option<Seq<char>>,
}

impl View for BlockUIMetadata {
    type V = LooksInfo;

    open spec fn view(&self) -> LooksInfo {
        LooksInfo {
            icon: optional(self.icon),
            color: optional(self.color),
            width_tenths: self.width_tenths,
            height_tenths: self.height_tenths,
            light_fill_color: optional(self.light_fill_color),
            light_stroke_color: optional(self.light_stroke_color),
            dark_fill_color: optional(self.dark_fill_color),
            dark_stroke_color: optional(self.dark_stroke_color),
        }
    }
}

/// A block with an icon and a size, and the usual colours.
pub open spec fn plain_looks(
    icon: Option<Seq<char>>,
    width_tenths: u32,
    height_tenths: u32,
) -> LooksInfo {
    LooksInfo {
        icon,
        color: None,
        width_tenths: Some(width_tenths),
        height_tenths: Some(height_tenths),
        light_fill_color: None,
        light_stroke_color: None,
        dark_fill_color: None,
        dark_stroke_color: None,
    }
}

/// A block with an icon and a size, and the usual colours.
pub fn plain_ui(icon: Option<&str>, width_tenths: u32, height_tenths: u32) -> (r: BlockUIMetadata)
    ensures
        r@ == plain_looks(optional_str(icon), width_tenths, height_tenths),
{
    BlockUIMetadata {
        icon: match icon {
            Some(s) => Some(s.to_owned()),
            None => None,
        },
        color: None,
        width_tenths: Some(width_tenths),
        height_tenths: Some(height_tenths),
        light_fill_color: None,
        light_stroke_color: None,
        dark_fill_color: None,
        dark_stroke_color: None,
    }
}

/// How a block presents itself.
pub struct BlockDefinition {
    pub id: String,
    pub name: String,
    pub description: String,
    pub category: String,
    pub exposed_properties: Vec<ExposedProperty>,
    pub external_pads: ExternalPads,
    pub built_in: bool,
    pub ui_metadata: Option<BlockUIMetadata>,
}

pub struct DefinitionInfo {
    pub id: Seq<char>,
    pub name: Seq<char>,
    pub description: Seq<char>,
    pub category: Seq<char>,
    pub exposed_properties: Seq<PropertyInfo>,
    pub external_pads: PadsInfo,
    pub built_in: bool,
    pub ui_metadata: Option<LooksInfo>,
}

pub open spec fn property_infos(v: Seq<ExposedProperty>) -> Seq<PropertyInfo> {
    v.map_values(|p: ExposedProperty| p@)
}

impl View for BlockDefinition {
    type V = DefinitionInfo;

    open spec fn view(&self) -> DefinitionInfo {
        DefinitionInfo {
            id: self.id@,
            name: self.name@,
            description: self.description@,
            category: self.category@,
            exposed_properties: property_infos(self.exposed_properties@),
            external_pads: self.external_pads@,
            built_in: self.built_in,
            ui_metadata: match self.ui_metadata {
                Some(ui) => Some(ui@),
                None => None,
            },
        }
    }
}

pub open spec fn definition_infos(v: Seq<BlockDefinition>) -> Seq<DefinitionInfo> {
    v.map_values(|d: BlockDefinition| d@)
}

/// A built-in block without properties yet.
pub open spec fn built_in_block(
    id: Seq<char>,
    name: Seq<char>,
    description: Seq<char>,
    category: Seq<char>,
    external_pads: PadsInfo,
    looks: LooksInfo,
) -> DefinitionInfo {
    DefinitionInfo {
        id,
        name,
        description,
        category,
        exposed_properties: Seq::empty(),
        external_pads,
        built_in: true,
        ui_metadata: Some(looks),
    }
}

impl DefinitionInfo {
    pub open spec fn property(self, p: PropertyInfo) -> DefinitionInfo {
        DefinitionInfo { exposed_properties: self.exposed_properties.push(p), ..self }
    }
}

impl BlockDefinition {
    /// A built-in block without properties yet.
    pub fn built_in(
        id: &str,
        name: &str,
        description: &str,
        category: &str,
        external_pads: ExternalPads,
        ui: BlockUIMetadata,
    ) -> (r: BlockDefinition)
        ensures
            r@ == built_in_block(id@, name@, description@, category@, external_pads@, ui@),
    {
        let r = BlockDefinition {
            id: id.to_owned(),
            name: name.to_owned(),
            description: description.to_owned(),
            category: category.to_owned(),
            exposed_properties: Vec::new(),
            external_pads,
            built_in: true,
            ui_metadata: Some(ui),
        };
        assert(r@.exposed_properties =~= Seq::<PropertyInfo>::empty());
        r
    }

    /// Adds a property.
    pub fn property(&mut self, p: ExposedProperty)
        ensures
            final(self)@ == old(self)@.property(p@),
    {
        let ghost before = self@;
        let ghost added = p@;
        self.exposed_properties.push(p);
        assert(self@.exposed_properties =~= before.exposed_properties.push(added));
    }
}

/// One definition, as a list.
pub fn only(definition: BlockDefinition) -> (r: Vec<BlockDefinition>)
    ensures
        definition_infos(r@) == seq![definition@],
{
    let ghost shown = definition@;
    let mut r: Vec<BlockDefinition> = Vec::new();
    r.push(definition);
    assert(definition_infos(r@) =~= seq![shown]);
    r
}

/// Two definitions, as a list.
pub fn both(first: BlockDefinition, second: BlockDefinition) -> (r: Vec<BlockDefinition>)
    ensures
        definition_infos(r@) == seq![first@, second@],
{
    let ghost shown = seq![first@, second@];
    let mut r: Vec<BlockDefinition> = Vec::new();
    r.push(first);
    r.push(second);
    assert(definition_infos(r@) =~= shown);
    r
}

/// Which media a block carries.
#[derive(Clone, Copy, Debug, PartialEq, Eq, Structural)]
pub enum StreamMode {
    AudioVideo,
    Video,
    Audio,
}

/// The mode that a text names; both media where it names none.
pub open spec fn named_mode(s: Seq<char>) -> StreamMode {
    if s == "video"@ {
        StreamMode::Video
    } else if s == "audio"@ {
        StreamMode::Audio
    } else {
        StreamMode::AudioVideo
    }
}

impl StreamMode {
    pub open spec fn video(self) -> bool {
        self != StreamMode::Audio
    }

    pub open spec fn audio(self) -> bool {
        self != StreamMode::Video
    }

    pub fn parse(s: &str) -> (r: StreamMode)
        ensures
            r == named_mode(s@),
    {
        if crate::text::same(s, "video") {
            StreamMode::Video
        } else if crate::text::same(s, "audio") {
            StreamMode::Audio
        } else {
            StreamMode::AudioVideo
        }
    }

    pub fn has_video(self) -> (r: bool)
        ensures
            r == self.video(),
    {
        match self {
            StreamMode::Audio => false,
            _ => true,
        }
    }

    pub fn has_audio(self) -> (r: bool)
        ensures
            r == self.audio(),
    {
        match self {
            StreamMode::Video => false,
            _ => true,
        }
    }
}

/// The mode that the properties of a block name.
pub open spec fn stream_mode_of(
    p: crate::properties::PropertyMap,
    fallback: StreamMode,
) -> StreamMode {
    match crate::properties::text_property(p, "stream_mode"@) {
        Some(s) => named_mode(s),
        None => fallback,
    }
}

/// The mode that the properties of a block name.
pub fn read_stream_mode(properties: &crate::properties::Properties, fallback: StreamMode) -> (r:
    StreamMode)
    ensures
        r == stream_mode_of(properties@, fallback),
{
    match properties.text("stream_mode") {
        Some(s) => StreamMode::parse(s.as_str()),
        None => fallback,
    }
}

/// A video and an audio pad as far as the mode has them. Where both are there,
/// labels tell them apart.
pub open spec fn mode_pads(
    mode: StreamMode,
    video_name: Seq<char>,
    video_element: Seq<char>,
    audio_name: Seq<char>,
    audio_element: Seq<char>,
    pad: Seq<char>,
) -> Seq<PadInfo> {
    let video = pad_info(
        if mode.audio() {
            Some("V"@)
        } else {
            None
        },
        video_name,
        MediaType::Video,
        video_element,
        pad,
    );
    let audio = pad_info(
        if mode.video() {
            Some("A"@)
        } else {
            None
        },
        audio_name,
        MediaType::Audio,
        audio_element,
        pad,
    );
    (if mode.video() {
        seq![video]
    } else {
        Seq::empty()
    }) + (if mode.audio() {
        seq![audio]
    } else {
        Seq::empty()
    })
}

/// A video and an audio pad as far as the mode has them.
pub fn pads_for_mode(
    mode: StreamMode,
    video_name: &str,
    video_element: &str,
    audio_name: &str,
    audio_element: &str,
    pad: &str,
) -> (r: Vec<ExternalPad>)
    ensures
        pad_infos(r@) == mode_pads(
            mode,
            video_name@,
            video_element@,
            audio_name@,
            audio_element@,
            pad@,
        ),
{
    let mut out: Vec<ExternalPad> = Vec::new();
    if mode.has_video() {
        let label = if mode.has_audio() {
            Some("V")
        } else {
            None
        };
        out.push(external_pad(label, video_name, MediaType::Video, video_element, pad));
    }
    if mode.has_audio() {
        let label = if mode.has_video() {
            Some("A")
        } else {
            None
        };
        out.push(external_pad(label, audio_name, MediaType::Audio, audio_element, pad));
    }
    assert(pad_infos(out@) =~= mode_pads(
        mode,
        video_name@,
        video_element@,
        audio_name@,
        audio_element@,
        pad@,
    ));
    out
}

} // verus!
