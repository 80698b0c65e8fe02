//! What a vision mixer is built from, and the kinds of elements in it.

use crate::blocks::plan;
use crate::blocks::plan::{
    BlockPlan, CapsField, CapsFieldInfo, CapsInfo, CapsSpec, ElementPlan, ElementSpec, PlanInfo,
    Recipe, SettingInfo, SettingValue,
};
use crate::text;
use vstd::prelude::*;

verus! {

/// What composes the pictures.
#[derive(Clone, Copy, Debug, PartialEq, Eq, Structural)]
pub enum CompositorBackend {
    OpenGL,
    Software,
}

/// What both pipelines are built from.
pub struct PipelineParams {
    pub instance_id: String,
    pub num_inputs: usize,
    pub num_dsk_inputs: usize,
    pub num_pips: usize,
    pub latency_ms: u64,
    pub min_upstream_ms: u64,
    pub pgm_w: u32,
    pub pgm_h: u32,
    pub mv_w: u32,
    pub mv_h: u32,
    pub pgm_framerate: (i32, i32),
    pub mv_framerate: (i32, i32),
    pub backend: CompositorBackend,
    pub output_format: Option<String>,
    pub gl_download: bool,
    /// The element that converts between raw video formats on this host.
    pub video_convert: String,
}

pub struct PipelineInfo {
    pub instance: Seq<char>,
    pub inputs: nat,
    pub dsks: nat,
    pub pips: nat,
    pub latency_ms: u64,
    pub min_upstream_ms: u64,
    pub pgm_w: u32,
    pub pgm_h: u32,
    pub mv_w: u32,
    pub mv_h: u32,
    pub pgm_rate: (i32, i32),
    pub mv_rate: (i32, i32),
    pub backend: CompositorBackend,
    pub format: Option<Seq<char>>,
    pub gl_download: bool,
    pub convert: Seq<char>,
}

impl View for PipelineParams {
    type V = PipelineInfo;

    open spec fn view(&self) -> PipelineInfo {
        PipelineInfo {
            instance: self.instance_id@,
            inputs: self.num_inputs as nat,
            dsks: self.num_dsk_inputs as nat,
            pips: self.num_pips as nat,
            latency_ms: self.latency_ms,
            min_upstream_ms: self.min_upstream_ms,
            pgm_w: self.pgm_w,
            pgm_h: self.pgm_h,
            mv_w: self.mv_w,
            mv_h: self.mv_h,
            pgm_rate: self.pgm_framerate,
            mv_rate: self.mv_framerate,
            backend: self.backend,
            format: match self.output_format {
                Some(f) => Some(f@),
                None => None,
            },
            gl_download: self.gl_download,
            convert: self.video_convert@,
        }
    }
}

/// The pad of the multiview compositor for an input's own thumbnail.
pub open spec fn thumb_pad(i: int) -> int {
    i
}

/// The pad of the multiview compositor that shows programme.
pub open spec fn pgm_pad(inputs: nat) -> int {
    inputs as int
}

/// The pad of the multiview compositor that shows an input on preview.
pub open spec fn pvw_pad(inputs: nat, i: int) -> int {
    inputs + 1 + i
}

/// The pad of the multiview compositor that shows an input in a tile.
pub open spec fn pip_pad(inputs: nat, pip: int, i: int) -> int {
    2 * inputs + 1 + pip * inputs + i
}

/// The pad of the multiview compositor for the overlay, behind all others.
pub open spec fn overlay_pad(inputs: nat, pips: nat) -> int {
    (2 * inputs + 1 + pips * inputs) as int
}

/// The pad of the programme compositor for a downstream key.
pub open spec fn dsk_pad(inputs: nat, i: int) -> int {
    inputs + i
}

impl PipelineInfo {
    pub open spec fn id(self, name: Seq<char>) -> Seq<char> {
        plan::member(self.instance, name)
    }

    pub open spec fn idn(self, name: Seq<char>, i: int) -> Seq<char> {
        plan::member(self.instance, plan::numbered(name, i))
    }

    /// The id of an element for a tile and an input.
    pub open spec fn idnn(self, name: Seq<char>, pip: int, i: int) -> Seq<char> {
        plan::member(self.instance, plan::numbered(plan::numbered(name, pip) + "_"@, i))
    }

    /// All pads of both compositors can be numbered.
    pub open spec fn fits(self) -> bool {
        &&& overlay_pad(self.inputs, self.pips) < usize::MAX
        &&& self.inputs + self.dsks < usize::MAX
        &&& self.pips < usize::MAX - 3
    }
}

/// Every pad for a tile comes before the pad for the overlay.
pub proof fn pip_pads_come_before_the_overlay(inputs: nat, pips: nat, pip: int, i: int)
    requires
        0 <= pip < pips,
        0 <= i < inputs,
    ensures
        2 * inputs + 1 <= pip_pad(inputs, pip, i) < overlay_pad(inputs, pips),
        0 <= pip * inputs <= pips * inputs,
{
    assert(pip * inputs + inputs <= pips * inputs && 0 <= pip * inputs) by (nonlinear_arith)
        requires
            0 <= pip < pips,
            0 <= inputs,
    ;
}

/// No two tile and input pairs share a pad.
pub proof fn pip_pads_differ(inputs: nat, pip: int, i: int, other_pip: int, other: int)
    requires
        0 <= pip,
        0 <= other_pip,
        0 <= i < inputs,
        0 <= other < inputs,
        pip_pad(inputs, pip, i) == pip_pad(inputs, other_pip, other),
    ensures
        pip == other_pip && i == other,
{
    if pip < other_pip {
        assert(pip * inputs + inputs <= other_pip * inputs) by (nonlinear_arith)
            requires
                pip + 1 <= other_pip,
                0 <= inputs,
        ;
    }
    if other_pip < pip {
        assert(other_pip * inputs + inputs <= pip * inputs) by (nonlinear_arith)
            requires
                other_pip + 1 <= pip,
                0 <= inputs,
        ;
    }
}

impl PipelineParams {
    /// The id of an element.
    pub fn id(&self, name: &str) -> (r: String)
        ensures
            r@ == self@.id(name@),
    {
        plan::member_id(self.instance_id.as_str(), name)
    }

    pub fn idn(&self, name: &str, i: usize) -> (r: String)
        ensures
            r@ == self@.idn(name@, i as int),
    {
        let full = plan::numbered_name(name, i);
        plan::member_id(self.instance_id.as_str(), full.as_str())
    }

    pub fn idnn(&self, name: &str, pip: usize, i: usize) -> (r: String)
        ensures
            r@ == self@.idnn(name@, pip as int, i as int),
    {
        let first = plan::numbered_name(name, pip).concat("_");
        let full = plan::numbered_name(first.as_str(), i);
        plan::member_id(self.instance_id.as_str(), full.as_str())
    }
}

/// The number of a pad for a tile.
pub fn pip_pad_index(inputs: usize, pips: usize, pip: usize, i: usize) -> (r: usize)
    requires
        pip < pips,
        i < inputs,
        overlay_pad(inputs as nat, pips as nat) < usize::MAX,
    ensures
        r == pip_pad(inputs as nat, pip as int, i as int),
{
    proof {
        pip_pads_come_before_the_overlay(inputs as nat, pips as nat, pip as int, i as int);
    }
    2 * inputs + 1 + pip * inputs + i
}

/// The number of the pad for the overlay.
pub fn overlay_pad_index(inputs: usize, pips: usize) -> (r: usize)
    requires
        overlay_pad(inputs as nat, pips as nat) < usize::MAX,
    ensures
        r == overlay_pad(inputs as nat, pips as nat),
{
    assert(0 <= pips * inputs) by (nonlinear_arith);
    2 * inputs + 1 + pips * inputs
}

// ---------------------------------------------------------------------------
// Capabilities
// ---------------------------------------------------------------------------

/// Raw video of a size and rate, in a format where one is asked for.
pub open spec fn raw_caps(w: u32, h: u32, rate: (i32, i32), format: Option<Seq<char>>) -> CapsInfo {
    let sized = plan::any_of("video/x-raw"@).field("width"@, CapsFieldInfo::Int(w as i32)).field(
        "height"@,
        CapsFieldInfo::Int(h as i32),
    ).field("framerate"@, CapsFieldInfo::Fraction(rate.0, rate.1)).field(
        "pixel-aspect-ratio"@,
        CapsFieldInfo::Fraction(1, 1),
    );
    match format {
        Some(f) => sized.field("format"@, CapsFieldInfo::Text(f)),
        None => sized,
    }
}

fn make_raw_caps(w: u32, h: u32, rate: (i32, i32), format: &Option<String>) -> (r: CapsSpec)
    ensures
        r@ == raw_caps(
            w,
            h,
            rate,
            match *format {
                Some(f) => Some(f@),
                None => None,
            },
        ),
{
    let mut caps = CapsSpec::new("video/x-raw");
    caps.field("width", CapsField::Int(w as i32));
    caps.field("height", CapsField::Int(h as i32));
    caps.field("framerate", CapsField::Fraction(rate.0, rate.1));
    caps.field("pixel-aspect-ratio", CapsField::Fraction(1, 1));
    match format {
        Some(f) => caps.field("format", CapsField::Text(f.clone())),
        None => {},
    }
    caps
}

/// Raw video in a format.
pub open spec fn format_caps(format: Seq<char>) -> CapsInfo {
    plan::any_of("video/x-raw"@).field("format"@, CapsFieldInfo::Text(format))
}

pub fn make_format_caps(format: &str) -> (r: CapsSpec)
    ensures
        r@ == format_caps(format@),
{
    let mut caps = CapsSpec::new("video/x-raw");
    caps.field("format", CapsField::Text(format.to_owned()));
    caps
}

/// A size and a rate, written between the parts of a text.
pub open spec fn sized_text(
    before: Seq<char>,
    w: u32,
    between: Seq<char>,
    h: u32,
    then_rate: Seq<char>,
    rate: (i32, i32),
    after: Seq<char>,
) -> Seq<char> {
    before + text::decimal(w as nat) + between + text::decimal(h as nat) + then_rate
        + text::decimal_int(rate.0 as int) + "/"@ + text::decimal_int(rate.1 as int) + after
}

fn write_sized(
    before: &str,
    w: u32,
    between: &str,
    h: u32,
    then_rate: &str,
    rate: (i32, i32),
    after: &str,
) -> (r: String)
    ensures
        r@ == sized_text(before@, w, between@, h, then_rate@, rate, after@),
{
    let width = text::u64_text(w as u64);
    let height = text::u64_text(h as u64);
    let numerator = text::i64_text(rate.0 as i64);
    let denominator = text::i64_text(rate.1 as i64);
    before.to_owned().concat(width.as_str()).concat(between).concat(height.as_str()).concat(
        then_rate,
    ).concat(numerator.as_str()).concat("/").concat(denominator.as_str()).concat(after)
}

/// Video of a size and rate that stays in graphics memory.
pub open spec fn glmem_caps(w: u32, h: u32, rate: (i32, i32)) -> Seq<char> {
    sized_text(
        "video/x-raw(memory:GLMemory),width="@,
        w,
        ",height="@,
        h,
        ",framerate="@,
        rate,
        ",pixel-aspect-ratio=1/1"@,
    )
}

/// What an overlay drawn by the mixer itself is.
pub open spec fn overlay_caps(w: u32, h: u32, rate: (i32, i32)) -> Seq<char> {
    sized_text(
        "video/x-raw,format=RGBA,width="@,
        w,
        ",height="@,
        h,
        ",pixel-aspect-ratio=1/1,framerate="@,
        rate,
        ",interlace-mode=progressive,multiview-mode=mono"@,
    )
}

impl PipelineInfo {
    pub open spec fn pgm_caps(self) -> CapsInfo {
        raw_caps(self.pgm_w, self.pgm_h, self.pgm_rate, self.format)
    }

    pub open spec fn mv_caps(self) -> CapsInfo {
        raw_caps(self.mv_w, self.mv_h, self.mv_rate, self.format)
    }

    pub open spec fn pgm_caps_glmem(self) -> Seq<char> {
        glmem_caps(self.pgm_w, self.pgm_h, self.pgm_rate)
    }

    pub open spec fn mv_caps_glmem(self) -> Seq<char> {
        glmem_caps(self.mv_w, self.mv_h, self.mv_rate)
    }

    /// The capabilities of the multiview's overlay.
    pub open spec fn mv_overlay_caps(self) -> Seq<char> {
        overlay_caps(self.mv_w, self.mv_h, self.mv_rate)
    }

    /// The capabilities of the programme's overlay.
    pub open spec fn pgm_overlay_caps(self) -> Seq<char> {
        overlay_caps(self.pgm_w, self.pgm_h, self.pgm_rate)
    }
}

impl PipelineParams {
    /// Programme as it leaves the mixer.
    pub fn pgm_caps(&self) -> (r: CapsSpec)
        ensures
            r@ == self@.pgm_caps(),
    {
        make_raw_caps(self.pgm_w, self.pgm_h, self.pgm_framerate, &self.output_format)
    }

    /// The multiview as it leaves the mixer.
    pub fn mv_caps(&self) -> (r: CapsSpec)
        ensures
            r@ == self@.mv_caps(),
    {
        make_raw_caps(self.mv_w, self.mv_h, self.mv_framerate, &self.output_format)
    }

    /// Programme where it stays in graphics memory.
    pub fn pgm_caps_glmem(&self) -> (r: String)
        ensures
            r@ == self@.pgm_caps_glmem(),
    {
        write_sized(
            "video/x-raw(memory:GLMemory),width=",
            self.pgm_w,
            ",height=",
            self.pgm_h,
            ",framerate=",
            self.pgm_framerate,
            ",pixel-aspect-ratio=1/1",
        )
    }

    /// The multiview where it stays in graphics memory.
    pub fn mv_caps_glmem(&self) -> (r: String)
        ensures
            r@ == self@.mv_caps_glmem(),
    {
        write_sized(
            "video/x-raw(memory:GLMemory),width=",
            self.mv_w,
            ",height=",
            self.mv_h,
            ",framerate=",
            self.mv_framerate,
            ",pixel-aspect-ratio=1/1",
        )
    }

    /// The overlay of the multiview.
    pub fn mv_overlay_caps(&self) -> (r: String)
        ensures
            r@ == self@.mv_overlay_caps(),
    {
        write_sized(
            "video/x-raw,format=RGBA,width=",
            self.mv_w,
            ",height=",
            self.mv_h,
            ",pixel-aspect-ratio=1/1,framerate=",
            self.mv_framerate,
            ",interlace-mode=progressive,multiview-mode=mono",
        )
    }

    /// The overlay of programme.
    pub fn pgm_overlay_caps(&self) -> (r: String)
        ensures
            r@ == self@.pgm_overlay_caps(),
    {
        write_sized(
            "video/x-raw,format=RGBA,width=",
            self.pgm_w,
            ",height=",
            self.pgm_h,
            ",pixel-aspect-ratio=1/1,framerate=",
            self.pgm_framerate,
            ",interlace-mode=progressive,multiview-mode=mono",
        )
    }
}

// ---------------------------------------------------------------------------
// Elements
// ---------------------------------------------------------------------------

pub open spec fn queue(id: Seq<char>) -> ElementPlan {
    plan::plain_element(id, "queue"@).made_by(Recipe::Queue)
}

pub fn make_queue(id: &str) -> (r: ElementSpec)
    ensures
        r@ == queue(id@),
{
    let mut e = ElementSpec::new(id, "queue");
    e.make_by(Recipe::Queue);
    e
}

/// A queue that answers no latency queries.
pub open spec fn quiet_queue(id: Seq<char>) -> ElementPlan {
    plan::plain_element(id, "queue"@).made_by(Recipe::QuietQueue)
}

pub fn make_quiet_queue(id: &str) -> (r: ElementSpec)
    ensures
        r@ == quiet_queue(id@),
{
    let mut e = ElementSpec::new(id, "queue");
    e.make_by(Recipe::QuietQueue);
    e
}

pub open spec fn tee(id: Seq<char>) -> ElementPlan {
    plan::plain_element(id, "tee"@).made_by(Recipe::Tee)
}

pub fn make_tee(id: &str) -> (r: ElementSpec)
    ensures
        r@ == tee(id@),
{
    let mut e = ElementSpec::new(id, "tee");
    e.make_by(Recipe::Tee);
    e
}

/// A compositor, with its latencies in milliseconds.
pub open spec fn compositor(p: PipelineInfo, id: Seq<char>, recipe: Recipe) -> ElementPlan {
    plan::plain_element(
        id,
        if p.backend == CompositorBackend::OpenGL {
            "glvideomixerelement"@
        } else {
            "compositor"@
        },
    ).made_by(recipe).with("latency"@, SettingInfo::U64(p.latency_ms)).with(
        "min-upstream-latency"@,
        SettingInfo::U64(p.min_upstream_ms),
    )
}

fn make_compositor(p: &PipelineParams, id: &str, recipe: Recipe) -> (r: ElementSpec)
    ensures
        r@ == compositor(p@, id@, recipe),
{
    let factory = match p.backend {
        CompositorBackend::OpenGL => "glvideomixerelement",
        CompositorBackend::Software => "compositor",
    };
    let mut e = ElementSpec::new(id, factory);
    e.make_by(recipe);
    e.set("latency", SettingValue::U64(p.latency_ms));
    e.set("min-upstream-latency", SettingValue::U64(p.min_upstream_ms));
    e
}

/// An element that lets through only what has the capabilities.
pub open spec fn capsfilter(id: Seq<char>, label: Seq<char>, caps: CapsInfo) -> ElementPlan {
    plan::plain_element(id, "capsfilter"@).labelled(label).with("caps"@, SettingInfo::Caps(caps))
}

pub fn make_capsfilter(id: &str, label: &str, caps: CapsSpec) -> (r: ElementSpec)
    ensures
        r@ == capsfilter(id@, label@, caps@),
{
    let mut e = ElementSpec::new(id, "capsfilter");
    e.label(label);
    e.set("caps", SettingValue::Caps(caps));
    e
}

/// An element that lets through only what has the capabilities in a text.
pub open spec fn text_capsfilter(id: Seq<char>, label: Seq<char>, caps: Seq<char>) -> ElementPlan {
    plan::plain_element(id, "capsfilter"@).labelled(label).with(
        "caps"@,
        SettingInfo::CapsText(caps),
    )
}

pub fn make_text_capsfilter(id: &str, label: &str, caps: String) -> (r: ElementSpec)
    ensures
        r@ == text_capsfilter(id@, label@, caps@),
{
    let mut e = ElementSpec::new(id, "capsfilter");
    e.label(label);
    e.set("caps", SettingValue::CapsText(caps));
    e
}

/// Where frames that the mixer draws itself come in.
pub open spec fn overlay_source(id: Seq<char>) -> ElementPlan {
    plan::plain_element(id, "appsrc"@).with("format"@, SettingInfo::Parsed("time"@)).with(
        "is-live"@,
        SettingInfo::Bool(false),
    ).with("automatic-eos"@, SettingInfo::Bool(false)).with(
        "do-timestamp"@,
        SettingInfo::Bool(true),
    ).with("max-buffers"@, SettingInfo::U64(2)).with(
        "leaky-type"@,
        SettingInfo::Parsed("upstream"@),
    )
}

pub fn make_overlay_source(id: &str) -> (r: ElementSpec)
    ensures
        r@ == overlay_source(id@),
{
    let mut e = ElementSpec::new(id, "appsrc");
    e.set("format", SettingValue::Parsed("time".to_owned()));
    e.set("is-live", SettingValue::Bool(false));
    e.set("automatic-eos", SettingValue::Bool(false));
    e.set("do-timestamp", SettingValue::Bool(true));
    e.set("max-buffers", SettingValue::U64(2));
    e.set("leaky-type", SettingValue::Parsed("upstream".to_owned()));
    e
}

/// Both compositors.
pub open spec fn compositors(p: PipelineInfo) -> PlanInfo {
    plan::empty_plan().add(compositor(p, p.id("mixer"@), Recipe::DistCompositor)).add(
        compositor(p, p.id("mv_comp"@), Recipe::MultiviewCompositor),
    )
}

pub fn make_compositors(p: &PipelineParams) -> (r: BlockPlan)
    ensures
        r@ == compositors(p@),
{
    let mixer = p.id("mixer");
    let mv_comp = p.id("mv_comp");
    let mut parts = BlockPlan::new();
    parts.add(make_compositor(p, mixer.as_str(), Recipe::DistCompositor));
    parts.add(make_compositor(p, mv_comp.as_str(), Recipe::MultiviewCompositor));
    parts
}

} // verus!
