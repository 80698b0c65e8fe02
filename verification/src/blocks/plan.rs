//! What a block is built of: elements with their settings, the pads requested
//! on them, and the connections between them.

use crate::text;
use vstd::prelude::*;

verus! {

/// A field of media capabilities.
pub enum CapsField {
    Int(i32),
    Fraction(i32, i32),
    Bitmask(u64),
    Text(String),
}

pub enum CapsFieldInfo {
    Int(i32),
    Fraction(i32, i32),
    Bitmask(u64),
    Text(Seq<char>),
}

impl View for CapsField {
    type V = CapsFieldInfo;

    open spec fn view(&self) -> CapsFieldInfo {
        match self {
            CapsField::Int(n) => CapsFieldInfo::Int(*n),
            CapsField::Fraction(n, d) => CapsFieldInfo::Fraction(*n, *d),
            CapsField::Bitmask(m) => CapsFieldInfo::Bitmask(*m),
            CapsField::Text(s) => CapsFieldInfo::Text(s@),
        }
    }
}

/// Media capabilities: a media type and what is fixed about it.
pub struct CapsSpec {
    pub media: String,
    pub fields: Vec<(String, CapsField)>,
}

pub struct CapsInfo {
    pub media: Seq<char>,
    pub fields: Seq<(Seq<char>, CapsFieldInfo)>,
}

impl View for CapsSpec {
    type V = CapsInfo;

    open spec fn view(&self) -> CapsInfo {
        CapsInfo {
            media: self.media@,
            fields: self.fields@.map_values(|f: (String, CapsField)| (f.0@, f.1@)),
        }
    }
}

/// A media type with nothing fixed about it.
pub open spec fn any_of(media: Seq<char>) -> CapsInfo {
    CapsInfo { media, fields: Seq::empty() }
}

impl CapsInfo {
    pub open spec fn field(self, name: Seq<char>, value: CapsFieldInfo) -> CapsInfo {
        CapsInfo { fields: self.fields.push((name, value)), ..self }
    }
}

impl CapsSpec {
    /// A media type with nothing fixed about it.
    pub fn new(media: &str) -> (r: CapsSpec)
        ensures
            r@ == any_of(media@),
    {
        let r = CapsSpec { media: media.to_owned(), fields: Vec::new() };
        assert(r@.fields =~= Seq::<(Seq<char>, CapsFieldInfo)>::empty());
        r
    }

    pub fn field(&mut self, name: &str, value: CapsField)
        ensures
            final(self)@ == old(self)@.field(name@, value@),
    {
        let ghost before = self@;
        let ghost added = (name@, value@);
        self.fields.push((name.to_owned(), value));
        assert(self@.fields =~= before.fields.push(added));
    }
}

/// The value that a setting is given, by the kind of setting that takes it.
pub enum SettingValue {
    Bool(bool),
    I32(i32),
    I64(i64),
    U32(u32),
    U64(u64),
    /// A fractional number, as the bits of its double-precision form.
    Float(u64),
    Text(String),
    /// A value given in its textual form.
    Parsed(String),
    /// Media capabilities, field by field.
    Caps(CapsSpec),
    /// Media capabilities in their textual form.
    CapsText(String),
    /// Mixing coefficients by output and input, each all or nothing.
    Matrix(Vec<Vec<bool>>),
}

/// What a setting is given.
pub enum SettingInfo {
    Bool(bool),
    I32(i32),
    I64(i64),
    U32(u32),
    U64(u64),
    Float(u64),
    Text(Seq<char>),
    Parsed(Seq<char>),
    Caps(CapsInfo),
    CapsText(Seq<char>),
    Matrix(Seq<Seq<bool>>),
}

/// The rows of a matrix.
pub open spec fn rows(v: Seq<Vec<bool>>) -> Seq<Seq<bool>> {
    v.map_values(|row: Vec<bool>| row@)
}

impl View for SettingValue {
    type V = SettingInfo;

    open spec fn view(&self) -> SettingInfo {
        match self {
            SettingValue::Bool(b) => SettingInfo::Bool(*b),
            SettingValue::I32(n) => SettingInfo::I32(*n),
            SettingValue::I64(n) => SettingInfo::I64(*n),
            SettingValue::U32(n) => SettingInfo::U32(*n),
            SettingValue::U64(n) => SettingInfo::U64(*n),
            SettingValue::Float(bits) => SettingInfo::Float(*bits),
            SettingValue::Text(s) => SettingInfo::Text(s@),
            SettingValue::Parsed(s) => SettingInfo::Parsed(s@),
            SettingValue::Caps(c) => SettingInfo::Caps(c@),
            SettingValue::CapsText(s) => SettingInfo::CapsText(s@),
            SettingValue::Matrix(m) => SettingInfo::Matrix(rows(m@)),
        }
    }
}

/// Settings by name, in the order they are made.
pub struct Settings {
    pub entries: Vec<(String, SettingValue)>,
}

pub type SettingsInfo = Seq<(Seq<char>, SettingInfo)>;

impl View for Settings {
    type V = SettingsInfo;

    open spec fn view(&self) -> SettingsInfo {
        self.entries@.map_values(|e: (String, SettingValue)| (e.0@, e.1@))
    }
}

pub open spec fn no_settings() -> SettingsInfo {
    Seq::empty()
}

impl Settings {
    pub fn none() -> (r: Settings)
        ensures
            r@ == no_settings(),
    {
        let r = Settings { entries: Vec::new() };
        assert(r@ =~= no_settings());
        r
    }

    pub fn set(&mut self, name: &str, value: SettingValue)
        ensures
            final(self)@ == old(self)@.push((name@, value@)),
    {
        self.entries.push((name.to_owned(), value));
        assert(self@ =~= old(self)@.push((name@, value@)));
    }
}

/// A pad requested on an element before anything is connected.
pub struct PadRequest {
    /// The template that the pad is requested from.
    pub template: String,
    pub settings: Settings,
    /// What is reported where the element refuses the pad.
    pub refusal: String,
}

pub struct PadRequestInfo {
    pub template: Seq<char>,
    pub settings: SettingsInfo,
    pub refusal: Seq<char>,
}

impl View for PadRequest {
    type V = PadRequestInfo;

    open spec fn view(&self) -> PadRequestInfo {
        PadRequestInfo {
            template: self.template@,
            settings: self.settings@,
            refusal: self.refusal@,
        }
    }
}

/// Who makes an element.
#[derive(Clone, Copy, Debug, PartialEq, Eq, Structural)]
pub enum Recipe {
    /// GStreamer, from the factory and the settings alone.
    Factory,
    /// This program's maker of the compositor for the programme output.
    DistCompositor,
    /// This program's maker of the compositor for the multiview output.
    MultiviewCompositor,
    /// This program's maker of queues.
    Queue,
    /// This program's maker of queues, answering no latency queries.
    QuietQueue,
    /// This program's maker of tees.
    Tee,
    /// This program's maker of level meters.
    Level,
    /// This program's maker of sinks behind level meters.
    MeterSink,
    /// The capture device whose id stands in place of the factory.
    Device,
}

/// An element to create.
pub struct ElementSpec {
    pub id: String,
    pub recipe: Recipe,
    pub factory: String,
    /// What stands before the reason where it cannot be created.
    pub label: String,
    pub settings: Settings,
    pub requests: Vec<PadRequest>,
}

pub struct ElementPlan {
    pub id: Seq<char>,
    pub recipe: Recipe,
    pub factory: Seq<char>,
    pub label: Seq<char>,
    pub settings: SettingsInfo,
    pub requests: Seq<PadRequestInfo>,
}

impl View for ElementSpec {
    type V = ElementPlan;

    open spec fn view(&self) -> ElementPlan {
        ElementPlan {
            id: self.id@,
            recipe: self.recipe,
            factory: self.factory@,
            label: self.label@,
            settings: self.settings@,
            requests: self.requests@.map_values(|r: PadRequest| r@),
        }
    }
}

/// An element without settings, reported by its factory's name.
pub open spec fn plain_element(id: Seq<char>, factory: Seq<char>) -> ElementPlan {
    ElementPlan {
        id,
        recipe: Recipe::Factory,
        factory,
        label: factory,
        settings: Seq::empty(),
        requests: Seq::empty(),
    }
}

impl ElementPlan {
    pub open spec fn with(self, name: Seq<char>, value: SettingInfo) -> ElementPlan {
        ElementPlan { settings: self.settings.push((name, value)), ..self }
    }

    pub open spec fn made_by(self, recipe: Recipe) -> ElementPlan {
        ElementPlan { recipe, ..self }
    }

    pub open spec fn labelled(self, label: Seq<char>) -> ElementPlan {
        ElementPlan { label, ..self }
    }

    pub open spec fn requesting(self, request: PadRequestInfo) -> ElementPlan {
        ElementPlan { requests: self.requests.push(request), ..self }
    }
}

impl ElementSpec {
    pub fn new(id: &str, factory: &str) -> (r: ElementSpec)
        ensures
            r@ == plain_element(id@, factory@),
    {
        let r = ElementSpec {
            id: id.to_owned(),
            recipe: Recipe::Factory,
            factory: factory.to_owned(),
            label: factory.to_owned(),
            settings: Settings::none(),
            requests: Vec::new(),
        };
        assert(r@.requests =~= Seq::<PadRequestInfo>::empty());
        r
    }

    pub fn set(&mut self, name: &str, value: SettingValue)
        ensures
            final(self)@ == old(self)@.with(name@, value@),
    {
        self.settings.set(name, value);
    }

    pub fn make_by(&mut self, recipe: Recipe)
        ensures
            final(self)@ == old(self)@.made_by(recipe),
    {
        self.recipe = recipe;
    }

    pub fn label(&mut self, label: &str)
        ensures
            final(self)@ == old(self)@.labelled(label@),
    {
        self.label = label.to_owned();
    }

    pub fn request(&mut self, request: PadRequest)
        ensures
            final(self)@ == old(self)@.requesting(request@),
    {
        let ghost before = self@;
        let ghost added = request@;
        self.requests.push(request);
        assert(self@.requests =~= before.requests.push(added));
    }
}

/// A connection from a pad of one element to a pad of another.
pub struct PadLink {
    pub from_element: String,
    pub from_pad: String,
    pub to_element: String,
    pub to_pad: String,
}

pub struct LinkPlan {
    pub from_element: Seq<char>,
    pub from_pad: Seq<char>,
    pub to_element: Seq<char>,
    pub to_pad: Seq<char>,
}

impl View for PadLink {
    type V = LinkPlan;

    open spec fn view(&self) -> LinkPlan {
        LinkPlan {
            from_element: self.from_element@,
            from_pad: self.from_pad@,
            to_element: self.to_element@,
            to_pad: self.to_pad@,
        }
    }
}

/// What a block is built of.
pub struct BlockPlan {
    pub elements: Vec<ElementSpec>,
    pub links: Vec<PadLink>,
}

pub struct PlanInfo {
    pub elements: Seq<ElementPlan>,
    pub links: Seq<LinkPlan>,
}

impl View for BlockPlan {
    type V = PlanInfo;

    open spec fn view(&self) -> PlanInfo {
        PlanInfo {
            elements: self.elements@.map_values(|e: ElementSpec| e@),
            links: self.links@.map_values(|l: PadLink| l@),
        }
    }
}

/// A plan without anything.
pub open spec fn empty_plan() -> PlanInfo {
    PlanInfo { elements: Seq::empty(), links: Seq::empty() }
}

/// One plan and then another.
pub open spec fn joined(first: PlanInfo, second: PlanInfo) -> PlanInfo {
    PlanInfo {
        elements: first.elements + second.elements,
        links: first.links + second.links,
    }
}

impl PlanInfo {
    pub open spec fn add(self, element: ElementPlan) -> PlanInfo {
        PlanInfo { elements: self.elements.push(element), ..self }
    }

    pub open spec fn link(
        self,
        from_element: Seq<char>,
        from_pad: Seq<char>,
        to_element: Seq<char>,
        to_pad: Seq<char>,
    ) -> PlanInfo {
        PlanInfo {
            links: self.links.push(LinkPlan { from_element, from_pad, to_element, to_pad }),
            ..self
        }
    }

    /// Some element of the plan has the id.
    pub open spec fn has_element(self, id: Seq<char>) -> bool {
        exists|i: int| 0 <= i < self.elements.len() && (#[trigger] self.elements[i]).id == id
    }

    /// Every connection is between elements of `host`.
    pub open spec fn links_inside(self, host: PlanInfo) -> bool {
        forall|i: int|
            0 <= i < self.links.len() ==> host.has_element((#[trigger] self.links[i]).from_element)
                && host.has_element(self.links[i].to_element)
    }

    /// Every connection is between elements of the plan.
    pub open spec fn links_hold(self) -> bool {
        self.links_inside(self)
    }

    /// Every element of the plan has one with its id in `host`.
    pub open spec fn within(self, host: PlanInfo) -> bool {
        forall|id: Seq<char>| #[trigger] self.has_element(id) ==> host.has_element(id)
    }

    /// No two elements have the same id.
    pub open spec fn ids_differ(self) -> bool {
        forall|i: int, j: int|
            0 <= i < j < self.elements.len() ==> (#[trigger] self.elements[i]).id != (
            #[trigger] self.elements[j]).id
    }
}

impl BlockPlan {
    pub fn new() -> (r: BlockPlan)
        ensures
            r@ == empty_plan(),
    {
        let r = BlockPlan { elements: Vec::new(), links: Vec::new() };
        assert(r@.elements =~= Seq::<ElementPlan>::empty());
        assert(r@.links =~= Seq::<LinkPlan>::empty());
        r
    }

    pub fn add(&mut self, element: ElementSpec)
        ensures
            final(self)@ == old(self)@.add(element@),
    {
        let ghost before = self@;
        let ghost added = element@;
        self.elements.push(element);
        assert(self@.elements =~= before.elements.push(added));
    }

    pub fn link(&mut self, from_element: &str, from_pad: &str, to_element: &str, to_pad: &str)
        ensures
            final(self)@ == old(self)@.link(from_element@, from_pad@, to_element@, to_pad@),
    {
        let ghost before = self@;
        let link = PadLink {
            from_element: from_element.to_owned(),
            from_pad: from_pad.to_owned(),
            to_element: to_element.to_owned(),
            to_pad: to_pad.to_owned(),
        };
        let ghost added = link@;
        self.links.push(link);
        assert(self@.links =~= before.links.push(added));
    }
}

/// The id of an element inside a block.
pub open spec fn member(instance: Seq<char>, name: Seq<char>) -> Seq<char> {
    instance + ":"@ + name
}

/// The id of an element inside a block.
pub fn member_id(instance: &str, name: &str) -> (r: String)
    ensures
        r@ == member(instance@, name@),
{
    instance.to_owned().concat(":").concat(name)
}

/// A name with a number behind it.
pub open spec fn numbered(name: Seq<char>, n: int) -> Seq<char> {
    name + text::decimal(n as nat)
}

/// A name with a number behind it.
pub fn numbered_name(name: &str, n: usize) -> (r: String)
    ensures
        r@ == numbered(name@, n as int),
{
    let number = text::usize_text(n);
    name.to_owned().concat(number.as_str())
}

/// Why a block cannot be built.
pub enum BlockBuildError {
    ElementCreation(String),
    InvalidConfiguration(String),
    MissingPlugin(String),
}

pub enum BuildErrorInfo {
    ElementCreation(Seq<char>),
    InvalidConfiguration(Seq<char>),
    MissingPlugin(Seq<char>),
}

impl View for BlockBuildError {
    type V = BuildErrorInfo;

    open spec fn view(&self) -> BuildErrorInfo {
        match self {
            BlockBuildError::ElementCreation(s) => BuildErrorInfo::ElementCreation(s@),
            BlockBuildError::InvalidConfiguration(s) => BuildErrorInfo::InvalidConfiguration(s@),
            BlockBuildError::MissingPlugin(s) => BuildErrorInfo::MissingPlugin(s@),
        }
    }
}

/// What is reported where an element cannot be created, with the reason that
/// GStreamer gives.
pub fn creation_error(element: &ElementSpec, reason: &str) -> (r: BlockBuildError)
    ensures
        r@ == BuildErrorInfo::ElementCreation(element.label@ + ": "@ + reason@),
{
    BlockBuildError::ElementCreation(element.label.clone().concat(": ").concat(reason))
}

// ---------------------------------------------------------------------------
// Facts about plans
// ---------------------------------------------------------------------------

/// Elements inside one block have the same id only under the same name.
pub proof fn member_is_injective(instance: Seq<char>, a: Seq<char>, b: Seq<char>)
    ensures
        member(instance, a) == member(instance, b) ==> a == b,
{
    if member(instance, a) == member(instance, b) {
        let n = (instance + ":"@).len() as int;
        assert(a =~= member(instance, a).skip(n));
        assert(b =~= member(instance, b).skip(n));
    }
}

/// The elements of a plan have these names inside a block.
pub open spec fn named(plan: PlanInfo, instance: Seq<char>, names: Seq<Seq<char>>) -> bool {
    plan.elements.len() == names.len() && forall|i: int|
        0 <= i < names.len() ==> (#[trigger] plan.elements[i]).id == member(instance, names[i])
}

/// No name is there twice.
pub open spec fn names_differ(names: Seq<Seq<char>>) -> bool {
    forall|i: int, j: int|
        0 <= i < j < names.len() ==> #[trigger] names[i] != #[trigger] names[j]
}

/// Elements whose names differ have ids that differ.
pub proof fn lemma_names_keep_ids_apart(plan: PlanInfo, instance: Seq<char>, names: Seq<Seq<char>>)
    requires
        named(plan, instance, names),
        names_differ(names),
    ensures
        plan.ids_differ(),
{
    assert forall|i: int, j: int| 0 <= i < j < plan.elements.len() implies (
    #[trigger] plan.elements[i]).id != (#[trigger] plan.elements[j]).id by {
        member_is_injective(instance, names[i], names[j]);
    }
}

/// A name, with a number behind it where there is one.
pub type Tag = (Seq<char>, Option<nat>);

/// The name that a tag stands for.
pub open spec fn spelled(tag: Tag) -> Seq<char> {
    match tag.1 {
        Some(n) => numbered(tag.0, n as int),
        None => tag.0,
    }
}

/// A number behind it can be told from it.
pub open spec fn is_stem(s: Seq<char>) -> bool {
    s.len() > 0 && !text::is_digit(s.last())
}

/// Tags with different stems or numbers stand for different names.
pub proof fn spelling_is_injective(a: Tag, b: Tag)
    requires
        is_stem(a.0),
        is_stem(b.0),
    ensures
        spelled(a) == spelled(b) ==> a == b,
{
    if spelled(a) == spelled(b) {
        lemma_stem_is_found(a);
        lemma_stem_is_found(b);
        let s = spelled(a);
        if a.0.len() < b.0.len() {
            assert(text::is_digit(s[b.0.len() - 1]));
        } else if b.0.len() < a.0.len() {
            assert(text::is_digit(s[a.0.len() - 1]));
        }
        assert(a.0 =~= s.take(a.0.len() as int));
        assert(b.0 =~= s.take(b.0.len() as int));
        match (a.1, b.1) {
            (Some(m), Some(n)) => {
                assert(text::decimal(m) =~= s.skip(a.0.len() as int));
                assert(text::decimal(n) =~= s.skip(b.0.len() as int));
                text::decimal_is_injective(m, n);
            },
            (Some(m), None) => {
                text::lemma_decimal_is_digits(m);
            },
            (None, Some(n)) => {
                text::lemma_decimal_is_digits(n);
            },
            (None, None) => {},
        }
    }
}

/// What stands behind the stem of a name are digits.
proof fn lemma_stem_is_found(tag: Tag)
    requires
        is_stem(tag.0),
    ensures
        spelled(tag).len() >= tag.0.len(),
        spelled(tag).take(tag.0.len() as int) == tag.0,
        forall|i: int|
            tag.0.len() <= i < spelled(tag).len() ==> text::is_digit(#[trigger] spelled(tag)[i]),
        !text::is_digit(spelled(tag)[tag.0.len() - 1]),
{
    let s = spelled(tag);
    let n = tag.0.len() as int;
    match tag.1 {
        Some(m) => {
            text::lemma_decimal_is_digits(m);
            let ok = |c: char| text::is_digit(c);
            assert forall|i: int| n <= i < s.len() implies text::is_digit(#[trigger] s[i]) by {
                assert(ok(text::decimal(m)[i - n]));
            }
        },
        None => {},
    }
    assert(s.take(n) =~= tag.0);
}

/// The elements of a plan have these names inside a block.
pub open spec fn tagged(plan: PlanInfo, instance: Seq<char>, tags: Seq<Tag>) -> bool {
    plan.elements.len() == tags.len() && forall|i: int|
        0 <= i < tags.len() ==> (#[trigger] plan.elements[i]).id == member(
            instance,
            spelled(tags[i]),
        )
}

/// No tag is there twice.
pub open spec fn tags_differ(tags: Seq<Tag>) -> bool {
    &&& forall|i: int| 0 <= i < tags.len() ==> is_stem((#[trigger] tags[i]).0)
    &&& forall|i: int, j: int|
        0 <= i < j < tags.len() ==> #[trigger] tags[i] != #[trigger] tags[j]
}

/// Elements whose tags differ have ids that differ.
pub proof fn lemma_tags_keep_ids_apart(plan: PlanInfo, instance: Seq<char>, tags: Seq<Tag>)
    requires
        tagged(plan, instance, tags),
        tags_differ(tags),
    ensures
        plan.ids_differ(),
{
    assert forall|i: int, j: int| 0 <= i < j < plan.elements.len() implies (
    #[trigger] plan.elements[i]).id != (#[trigger] plan.elements[j]).id by {
        spelling_is_injective(tags[i], tags[j]);
        member_is_injective(instance, spelled(tags[i]), spelled(tags[j]));
    }
}

/// Adding an element keeps what was there.
pub proof fn lemma_add(plan: PlanInfo, element: ElementPlan, host: PlanInfo)
    ensures
        plan.within(plan.add(element)),
        plan.add(element).has_element(element.id),
        plan.links_inside(host) ==> plan.add(element).links_inside(host),
{
    let after = plan.add(element);
    assert(after.elements[plan.elements.len() as int] == element);
    assert forall|id: Seq<char>| #[trigger] plan.has_element(id) implies after.has_element(id) by {
        let i = choose|i: int|
            0 <= i < plan.elements.len() && (#[trigger] plan.elements[i]).id == id;
        assert(after.elements[i].id == id);
    }
    if plan.links_inside(host) {
        assert forall|i: int| 0 <= i < after.links.len() implies host.has_element(
            (#[trigger] after.links[i]).from_element,
        ) && host.has_element(after.links[i].to_element) by {
            assert(after.links[i] == plan.links[i]);
        }
    }
}

/// A connection keeps what was there.
pub proof fn lemma_link(
    plan: PlanInfo,
    from_element: Seq<char>,
    from_pad: Seq<char>,
    to_element: Seq<char>,
    to_pad: Seq<char>,
    host: PlanInfo,
)
    ensures
        plan.within(plan.link(from_element, from_pad, to_element, to_pad)),
        plan.links_inside(host) && host.has_element(from_element) && host.has_element(to_element)
            ==> plan.link(from_element, from_pad, to_element, to_pad).links_inside(host),
{
    let after = plan.link(from_element, from_pad, to_element, to_pad);
    assert forall|id: Seq<char>| #[trigger] plan.has_element(id) implies after.has_element(id) by {
        let i = choose|i: int|
            0 <= i < plan.elements.len() && (#[trigger] plan.elements[i]).id == id;
        assert(after.elements[i].id == id);
    }
    if plan.links_inside(host) && host.has_element(from_element) && host.has_element(to_element) {
        assert forall|i: int| 0 <= i < after.links.len() implies host.has_element(
            (#[trigger] after.links[i]).from_element,
        ) && host.has_element(after.links[i].to_element) by {
            if i < plan.links.len() {
                assert(after.links[i] == plan.links[i]);
            }
        }
    }
}

/// Adding an element keeps what was there.
pub broadcast proof fn adding_keeps(base: PlanInfo, element: ElementPlan)
    ensures
        base.within(#[trigger] base.add(element)),
        base.add(element).has_element(element.id),
        base.links_hold() ==> base.add(element).links_hold(),
{
    lemma_add(base, element, base);
    let after = base.add(element);
    if base.links_hold() {
        assert forall|i: int| 0 <= i < after.links.len() implies after.has_element(
            (#[trigger] after.links[i]).from_element,
        ) && after.has_element(after.links[i].to_element) by {
            assert(base.has_element(base.links[i].from_element));
            assert(base.has_element(base.links[i].to_element));
        }
    }
}

/// Connecting elements keeps what was there.
pub broadcast proof fn linking_keeps(
    base: PlanInfo,
    from_element: Seq<char>,
    from_pad: Seq<char>,
    to_element: Seq<char>,
    to_pad: Seq<char>,
)
    ensures
        base.within(#[trigger] base.link(from_element, from_pad, to_element, to_pad)),
        base.links_hold() && base.has_element(from_element) && base.has_element(to_element)
            ==> base.link(from_element, from_pad, to_element, to_pad).links_hold(),
{
    lemma_link(base, from_element, from_pad, to_element, to_pad, base);
    let after = base.link(from_element, from_pad, to_element, to_pad);
    if base.links_hold() && base.has_element(from_element) && base.has_element(to_element) {
        assert forall|i: int| 0 <= i < after.links.len() implies after.has_element(
            (#[trigger] after.links[i]).from_element,
        ) && after.has_element(after.links[i].to_element) by {
            assert(base.has_element(after.links[i].from_element));
            assert(base.has_element(after.links[i].to_element));
        }
    }
}

} // verus!
