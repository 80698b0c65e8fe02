//! The vision mixer as a block: its pads, its parts and its meters.

use crate::blocks::definition;
use crate::blocks::definition::{ExternalPads, MediaType, PadInfo, PadsInfo};
use crate::blocks::plan;
use crate::blocks::plan::{BlockPlan, PlanInfo};
use crate::blocks::vision_mixer::cpu;
use crate::blocks::vision_mixer::gpu;
use crate::blocks::vision_mixer::layout::MultiviewLayout;
use crate::blocks::vision_mixer::pads;
use crate::blocks::vision_mixer::pads::{
    MixerStart, PadSettings, PadsFrom, Source, ZonePads, Zorders,
};
use crate::blocks::vision_mixer::params::{CompositorBackend, PipelineInfo, PipelineParams};
use crate::text;
use vstd::prelude::*;

verus! {

pub struct VisionMixerBuilder;

// ---------------------------------------------------------------------------
// Pads
// ---------------------------------------------------------------------------

/// The pad of a video input.
pub open spec fn video_in(i: int) -> PadInfo {
    definition::pad_info(
        Some(plan::numbered("V"@, i)),
        plan::numbered("video_in_"@, i),
        MediaType::Video,
        plan::numbered("queue_"@, i),
        "sink"@,
    )
}

/// The pad of a downstream key. Keys are counted from one.
pub open spec fn dsk_in(i: int) -> PadInfo {
    definition::pad_info(
        Some(plan::numbered("DSK"@, i + 1)),
        plan::numbered("dsk_in_"@, i),
        MediaType::Video,
        plan::numbered("queue_dsk_"@, i),
        "sink"@,
    )
}

/// The pad of the sound of an input, which is only measured.
pub open spec fn audio_in(i: int) -> PadInfo {
    definition::pad_info(
        Some(plan::numbered("A"@, i)),
        plan::numbered("audio_in_"@, i),
        MediaType::Audio,
        plan::numbered("queue_audio_"@, i),
        "sink"@,
    )
}

/// The pad of the sound of programme, which is only measured.
pub open spec fn pgm_audio_in() -> PadInfo {
    definition::pad_info(
        Some("PGM Audio"@),
        "pgm_audio_in"@,
        MediaType::Audio,
        "queue_audio_pgm"@,
        "sink"@,
    )
}

/// The pads of a mixer with so many inputs and downstream keys.
pub open spec fn mixer_pads(inputs: nat, dsks: nat) -> PadsInfo {
    PadsInfo {
        inputs: Seq::new(inputs, |i: int| video_in(i)) + Seq::new(dsks, |i: int| dsk_in(i))
            + Seq::new(inputs, |i: int| audio_in(i)).push(pgm_audio_in()),
        outputs: seq![
            definition::pad_info(
                Some("PGM"@),
                "pgm_out"@,
                MediaType::Video,
                "queue_dist_out"@,
                "src"@,
            ),
            definition::pad_info(
                Some("MV"@),
                "multiview_out"@,
                MediaType::Video,
                "queue_mv_out"@,
                "src"@,
            ),
        ],
    }
}

/// Adds a numbered input pad.
fn add_input(
    all: &mut ExternalPads,
    label: &str,
    label_number: usize,
    name: &str,
    media_type: MediaType,
    element: &str,
    i: usize,
)
    ensures
        final(all)@ == old(all)@.input(
            definition::pad_info(
                Some(plan::numbered(label@, label_number as int)),
                plan::numbered(name@, i as int),
                media_type,
                plan::numbered(element@, i as int),
                "sink"@,
            ),
        ),
{
    let shown = plan::numbered_name(label, label_number);
    let full = plan::numbered_name(name, i);
    let inside = plan::numbered_name(element, i);
    all.input(
        definition::external_pad(
            Some(shown.as_str()),
            full.as_str(),
            media_type,
            inside.as_str(),
            "sink",
        ),
    );
}

/// What is built: the parts, how the pads are set, and what the mixer draws
/// over the multiview.
pub struct MixerBuild {
    pub plan: BlockPlan,
    pub pad_properties: Vec<PadSettings>,
    pub overlay_caps: String,
}

/// What the mixer is built of.
pub open spec fn mixer_plan(p: PipelineInfo) -> PlanInfo {
    match p.backend {
        CompositorBackend::OpenGL => gpu::gpu_plan(p),
        CompositorBackend::Software => cpu::plain_cpu_plan(p),
    }
}

impl VisionMixerBuilder {
    /// The pads of a mixer with so many inputs and downstream keys.
    pub fn get_external_pads(&self, num_inputs: usize, num_dsk: usize) -> (r: Option<ExternalPads>)
        ensures
            r matches Some(all) && all@ == mixer_pads(num_inputs as nat, num_dsk as nat),
    {
        let ghost videos = Seq::new(num_inputs as nat, |i: int| video_in(i));
        let ghost dsks = Seq::new(num_dsk as nat, |i: int| dsk_in(i));
        let mut all = ExternalPads::none();
        let mut i: usize = 0;
        while i < num_inputs
            invariant
                i <= num_inputs,
                all@.inputs =~= Seq::new(i as nat, |k: int| video_in(k)),
                all@.outputs =~= Seq::<PadInfo>::empty(),
            decreases num_inputs - i,
        {
            add_input(&mut all, "V", i, "video_in_", MediaType::Video, "queue_", i);
            i += 1;
        }
        let mut i: usize = 0;
        while i < num_dsk
            invariant
                i <= num_dsk,
                all@.inputs =~= videos + Seq::new(i as nat, |k: int| dsk_in(k)),
                all@.outputs =~= Seq::<PadInfo>::empty(),
            decreases num_dsk - i,
        {
            add_input(&mut all, "DSK", i + 1, "dsk_in_", MediaType::Video, "queue_dsk_", i);
            i += 1;
        }
        let mut i: usize = 0;
        while i < num_inputs
            invariant
                i <= num_inputs,
                all@.inputs =~= videos + dsks + Seq::new(i as nat, |k: int| audio_in(k)),
                all@.outputs =~= Seq::<PadInfo>::empty(),
            decreases num_inputs - i,
        {
            add_input(&mut all, "A", i, "audio_in_", MediaType::Audio, "queue_audio_", i);
            i += 1;
        }
        all.input(
            definition::external_pad(
                Some("PGM Audio"),
                "pgm_audio_in",
                MediaType::Audio,
                "queue_audio_pgm",
                "sink",
            ),
        );
        all.output(
            definition::external_pad(
                Some("PGM"),
                "pgm_out",
                MediaType::Video,
                "queue_dist_out",
                "src",
            ),
        );
        all.output(
            definition::external_pad(
                Some("MV"),
                "multiview_out",
                MediaType::Video,
                "queue_mv_out",
                "src",
            ),
        );
        proof {
            let whole = mixer_pads(num_inputs as nat, num_dsk as nat);
            assert(all@.inputs =~= whole.inputs);
            assert(all@.outputs =~= whole.outputs);
        }
        Some(all)
    }

    /// What a mixer is built of.
    pub fn build(
        &self,
        p: &PipelineParams,
        view: &MultiviewLayout,
        start: &MixerStart,
        zones: &ZonePads,
        z: Zorders,
    ) -> (r: MixerBuild)
        requires
            p@.fits(),
            pads::order_fits(p@, zones@, z),
        ensures
            r.plan@ == mixer_plan(p@),
            pads::settings_infos(r.pad_properties@) == pads::all_pads(
                PadsFrom { p: p@, view: view@, start: start@, zones: zones@, z },
            ),
            r.overlay_caps@ == p@.mv_overlay_caps(),
    {
        let parts = match p.backend {
            CompositorBackend::OpenGL => gpu::build_gpu_pipeline(p),
            CompositorBackend::Software => cpu::build_plain_cpu_pipeline(p),
        };
        MixerBuild {
            plan: parts,
            pad_properties: pads::build_pad_properties(p, view, start, zones, z),
            overlay_caps: p.mv_overlay_caps(),
        }
    }
}

// ---------------------------------------------------------------------------
// What is shown at the start
// ---------------------------------------------------------------------------

/// A part of a tile in which its sources share the room.
pub struct Zone {
    pub sources: Vec<usize>,
}

pub open spec fn zone_sources(v: Seq<Zone>) -> Seq<Seq<usize>> {
    v.map_values(|zone: Zone| zone.sources@)
}

/// The zones of a tile that names its sources only: one that holds them all,
/// or none where there are none.
pub fn zones_of_sources(sources: Vec<usize>) -> (r: Vec<Zone>)
    ensures
        zone_sources(r@) == if sources.len() == 0 {
            Seq::<Seq<usize>>::empty()
        } else {
            seq![sources@]
        },
{
    let ghost held = sources@;
    let mut zones: Vec<Zone> = Vec::new();
    if sources.len() > 0 {
        zones.push(Zone { sources });
        assert(zone_sources(zones@) =~= seq![held]);
    } else {
        assert(zone_sources(zones@) =~= Seq::<Seq<usize>>::empty());
    }
    zones
}

/// The one input that stands for a source: the input itself, or what is behind
/// the tile, where anything is.
pub open spec fn standing_input(
    source: Source,
    backgrounds: Seq<Option<usize>>,
    fallback: usize,
) -> usize {
    match source {
        Source::Input(_) => fallback,
        Source::Pip(pip) => match pads::background_of(backgrounds, pip as int) {
            Some(input) => input,
            None => fallback,
        },
    }
}

/// The one input that stands for a source when the mixer starts.
pub fn initial_input(source: Source, backgrounds: &Vec<Option<usize>>, fallback: usize) -> (r:
    usize)
    ensures
        r == standing_input(source, backgrounds@, fallback),
{
    match source.as_pip() {
        Some(pip) => match pads::background(backgrounds, pip) {
            Some(input) => input,
            None => fallback,
        },
        None => fallback,
    }
}

/// What composes the pictures, as the operator asks for it.
pub fn compositor_preference(properties: &crate::properties::Properties) -> (r: String)
    ensures
        r@ == crate::properties::text_or(properties@, "compositor_preference"@, "auto"@),
{
    properties.text_or("compositor_preference", "auto")
}

// ---------------------------------------------------------------------------
// Meters
// ---------------------------------------------------------------------------

/// Whose sound a meter measures.
#[derive(Clone, Copy, Debug, PartialEq, Eq, Structural)]
pub enum Meter {
    Pgm,
    Input(usize),
}

/// Whose sound the element with a name measures, where it is one of the
/// block's meters.
pub open spec fn meter_named(instance: Seq<char>, name: Seq<char>) -> Option<Meter> {
    let prefix = plan::member(instance, "level_audio_"@);
    if name == plan::member(instance, "level_audio_pgm"@) {
        Some(Meter::Pgm)
    } else if text::has_prefix(name, prefix) {
        match text::parsed_number(name.skip(prefix.len() as int), usize::MAX as nat) {
            Some(i) => Some(Meter::Input(i as usize)),
            None => None,
        }
    } else {
        None
    }
}

/// Whose sound the element with a name measures.
pub fn meter_of(instance_id: &str, name: &str) -> (r: Option<Meter>)
    ensures
        r == meter_named(instance_id@, name@),
{
    let pgm = plan::member_id(instance_id, "level_audio_pgm");
    if text::same(name, pgm.as_str()) {
        return Some(Meter::Pgm);
    }
    let prefix = plan::member_id(instance_id, "level_audio_");
    match text::strip_prefix(name, prefix.as_str()) {
        Some(rest) => match text::parse_usize(rest.as_str()) {
            Some(i) => Some(Meter::Input(i)),
            None => None,
        },
        None => None,
    }
}

/// Every meter of an input is known again by its name.
pub proof fn input_meter_is_known(instance: Seq<char>, i: nat)
    requires
        i <= usize::MAX,
    ensures
        meter_named(
            instance,
            plan::member(instance, plan::numbered("level_audio_"@, i as int)),
        ) == Some(Meter::Input(i as usize)),
{
    let prefix = plan::member(instance, "level_audio_"@);
    let name = plan::member(instance, plan::numbered("level_audio_"@, i as int));
    let pgm = plan::member(instance, "level_audio_pgm"@);
    assert(name =~= prefix + text::decimal(i));
    assert(name.subrange(0, prefix.len() as int) =~= prefix);
    assert(name.skip(prefix.len() as int) =~= text::decimal(i));
    text::parse_reads_decimal(i, usize::MAX as nat);
    text::lemma_decimal_is_digits(i);
    reveal_strlit("level_audio_pgm");
    reveal_strlit("level_audio_");
    if name == pgm {
        assert(name[prefix.len() as int] == text::decimal(i)[0]);
        assert(pgm[prefix.len() as int] == 'p');
        assert(text::is_digit(text::decimal(i)[0]));
    }
}

/// The loudest peak and decay that a meter reports, each as the bits of its
/// double-precision form. Without a peak there is nothing to show; without a
/// decay the peak stands for it.
pub fn meter_levels(peak: Option<u64>, decay: Option<u64>) -> (r: Option<(u64, u64)>)
    ensures
        r == match peak {
            Some(top) => Some(
                (
                    top,
                    match decay {
                        Some(held) => held,
                        None => top,
                    },
                ),
            ),
            None => None,
        },
{
    match peak {
        Some(top) => match decay {
            Some(held) => Some((top, held)),
            None => Some((top, top)),
        },
        None => None,
    }
}

} // verus!
