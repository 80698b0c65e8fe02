use strom::blocks::plan::{BlockPlan, CapsField};
use strom::blocks::vision_mixer::builder::{
    compositor_preference, initial_input, meter_levels, meter_of, zones_of_sources, Meter,
    VisionMixerBuilder,
};
use strom::blocks::vision_mixer::cpu::{build_cpu_pipeline, build_plain_cpu_pipeline};
use strom::blocks::vision_mixer::geometry::{
    input_size, pads_to_watch, picture_size, refresh_geometry, Compositor, GeometryStep, OnAir,
};
use strom::blocks::vision_mixer::gpu::build_gpu_pipeline;
use strom::blocks::vision_mixer::layout::{MultiviewLayout, Rect};
use strom::blocks::vision_mixer::pads::{
    build_pad_properties, initial_pad_geom_for_input, MixerStart, Source, ZonePad, ZonePads,
    Zorders,
};
use strom::blocks::vision_mixer::params::{
    overlay_pad_index, pip_pad_index, CompositorBackend, PipelineParams,
};
use strom::blocks::vision_mixer::pgm_overlay::{
    collect_borders, frame_interval, hash_borders, next_tick, pack_rows, BorderStyle,
    DrawnBorders, FrameAction, PadGeometry, Rgba, ZoneBorder,
};
use strom::properties::{Properties, PropertyValue};

fn params(backend: CompositorBackend) -> PipelineParams {
    PipelineParams {
        instance_id: "vm".to_string(),
        num_inputs: 3,
        num_dsk_inputs: 1,
        num_pips: 2,
        latency_ms: 40,
        min_upstream_ms: 20,
        pgm_w: 1920,
        pgm_h: 1080,
        mv_w: 1280,
        mv_h: 720,
        pgm_framerate: (25, 1),
        mv_framerate: (25, 1),
        backend,
        output_format: None,
        gl_download: false,
        video_convert: "videoconvert".to_string(),
    }
}

fn rect(x: i32) -> Rect {
    Rect { x, y: 0, w: 10, h: 10 }
}

fn view() -> MultiviewLayout {
    MultiviewLayout {
        pvw: rect(1),
        pgm: rect(2),
        thumbnails: vec![rect(3), rect(4), rect(5)],
        pip_tiles: vec![rect(6), rect(7)],
    }
}

fn zorders() -> Zorders {
    Zorders {
        dist_pgm: 1,
        dist_pip_overlay: 2,
        dist_dsk_base: 10,
        mv_thumbnail: 1,
        mv_big_display: 2,
        mv_pvw_pip_overlay: 3,
        mv_pip_bg: 4,
        mv_pip_overlay: 5,
        mv_overlay: 100,
    }
}

fn start() -> MixerStart {
    MixerStart {
        pgm_source: Source::Input(0),
        pvw_source: Source::Pip(1),
        pip_bg_inputs: vec![None, Some(2)],
    }
}

fn no_zones() -> ZonePads {
    ZonePads {
        pgm: Vec::new(),
        pvw: Vec::new(),
        tiles: vec![Vec::new(), Vec::new()],
    }
}

fn assert_connected(plan: &BlockPlan) {
    let ids: Vec<&str> = plan.elements.iter().map(|e| e.id.as_str()).collect();
    for (i, id) in ids.iter().enumerate() {
        assert!(!ids[..i].contains(id), "{} is there twice", id);
    }
    assert!(!plan.links.is_empty());
    for l in &plan.links {
        assert!(ids.contains(&l.from_element.as_str()), "{}", l.from_element);
        assert!(ids.contains(&l.to_element.as_str()), "{}", l.to_element);
    }
}

#[test]
fn every_pipeline_is_connected_and_names_differ() {
    assert_connected(&build_gpu_pipeline(&params(CompositorBackend::OpenGL)));
    assert_connected(&build_plain_cpu_pipeline(&params(CompositorBackend::Software)));
    assert_connected(&build_cpu_pipeline(&params(CompositorBackend::Software)));
}

#[test]
fn compositor_pads_are_connected_in_their_order() {
    let plan = build_gpu_pipeline(&params(CompositorBackend::OpenGL));
    let into: Vec<&str> = plan
        .links
        .iter()
        .filter(|l| l.to_element == "vm:mv_comp")
        .map(|l| l.to_pad.as_str())
        .collect();
    assert_eq!(into.len(), 14);
    for (i, pad) in into.iter().enumerate() {
        assert_eq!(*pad, format!("sink_{}", i));
    }
    assert_eq!(pip_pad_index(3, 2, 0, 0), 7);
    assert_eq!(pip_pad_index(3, 2, 1, 2), 12);
    assert_eq!(overlay_pad_index(3, 2), 13);
}

#[test]
fn names_differ_with_many_inputs_and_a_format() {
    for backend in [CompositorBackend::OpenGL, CompositorBackend::Software] {
        let mut many = params(backend);
        many.num_inputs = 12;
        many.num_dsk_inputs = 11;
        many.num_pips = 12;
        many.output_format = Some("I420".to_string());
        many.gl_download = true;
        assert_connected(&build_gpu_pipeline(&many));
        assert_connected(&build_plain_cpu_pipeline(&many));
        assert_connected(&build_cpu_pipeline(&many));
    }
}

#[test]
fn pictures_are_described_by_size_and_rate() {
    let mut p = params(CompositorBackend::OpenGL);
    p.pgm_framerate = (30000, 1001);
    p.output_format = Some("I420".to_string());
    assert_eq!(
        p.pgm_caps_glmem(),
        "video/x-raw(memory:GLMemory),width=1920,height=1080,framerate=30000/1001,\
         pixel-aspect-ratio=1/1"
    );
    assert_eq!(
        p.mv_caps_glmem(),
        "video/x-raw(memory:GLMemory),width=1280,height=720,framerate=25/1,\
         pixel-aspect-ratio=1/1"
    );
    assert_eq!(
        p.pgm_overlay_caps(),
        "video/x-raw,format=RGBA,width=1920,height=1080,pixel-aspect-ratio=1/1,\
         framerate=30000/1001,interlace-mode=progressive,multiview-mode=mono"
    );
    assert_eq!(
        p.mv_overlay_caps(),
        "video/x-raw,format=RGBA,width=1280,height=720,pixel-aspect-ratio=1/1,\
         framerate=25/1,interlace-mode=progressive,multiview-mode=mono"
    );
    let caps = p.pgm_caps();
    assert_eq!(caps.media, "video/x-raw");
    let names: Vec<&str> = caps.fields.iter().map(|f| f.0.as_str()).collect();
    assert_eq!(
        names,
        vec!["width", "height", "framerate", "pixel-aspect-ratio", "format"]
    );
    assert!(matches!(caps.fields[2].1, CapsField::Fraction(30000, 1001)));
    assert!(matches!(&caps.fields[4].1, CapsField::Text(f) if f == "I420"));
    p.output_format = None;
    assert_eq!(p.mv_caps().fields.len(), 4);
}

#[test]
fn a_mixer_shows_all_its_pads() {
    let pads = VisionMixerBuilder.get_external_pads(3, 1).unwrap();
    assert!(pads.inputs.iter().any(|p| p.name == "video_in_2"));
    assert!(pads.inputs.iter().all(|p| p.name != "video_in_3"));
    let built = VisionMixerBuilder.build(
        &params(CompositorBackend::OpenGL),
        &view(),
        &start(),
        &no_zones(),
        zorders(),
    );
    let ids: Vec<String> = built.plan.elements.iter().map(|e| e.id.clone()).collect();
    for pad in pads.inputs.iter().chain(pads.outputs.iter()) {
        let id = format!("vm:{}", pad.internal_element_id);
        assert!(ids.contains(&id), "{}", id);
    }
    assert!(!built.pad_properties.is_empty());
    assert!(built.overlay_caps.contains("1280"));
}

fn number(p: &Properties, name: &str) -> Option<i64> {
    match p.get(name) {
        Some(PropertyValue::Int(n)) => Some(*n),
        Some(PropertyValue::UInt(n)) => Some(*n as i64),
        _ => None,
    }
}

#[test]
fn every_pad_is_set_once_and_one_input_is_on_programme() {
    let all = build_pad_properties(
        &params(CompositorBackend::OpenGL),
        &view(),
        &start(),
        &no_zones(),
        zorders(),
    );
    let names: Vec<(String, String)> = all
        .iter()
        .map(|s| (s.element.clone(), s.pad.clone()))
        .collect();
    for (i, name) in names.iter().enumerate() {
        assert!(!names[..i].contains(name), "{:?} is set twice", name);
    }
    let first = &all[0];
    assert_eq!(number(&first.properties, "xpos"), Some(0));
    assert_eq!(number(&first.properties, "width"), Some(1920));
}

#[test]
fn an_input_of_a_tile_is_behind_in_a_zone_or_hidden() {
    let zones = vec![ZonePad {
        input: 1,
        rect: rect(50),
        zorder_offset: 3,
    }];
    let behind = initial_pad_geom_for_input(Some(0), &zones, 0, rect(9), 4, 5);
    assert!(behind.shown);
    assert_eq!((behind.rect.x, behind.zorder), (9, 4));
    let zone = initial_pad_geom_for_input(Some(0), &zones, 1, rect(9), 4, 5);
    assert!(zone.shown);
    assert_eq!((zone.rect.x, zone.zorder), (50, 8));
    assert!(!initial_pad_geom_for_input(Some(0), &zones, 2, rect(9), 4, 5).shown);
}

#[test]
fn thumbnails_are_always_fitted() {
    let on_air = OnAir {
        num_inputs: 3,
        num_pips: 2,
        ftb_active: true,
        pgm_pip: None,
        pvw_pip: Some(1),
        pgm_input: Some(0),
        pvw_input: Some(1),
    };
    let steps = refresh_geometry(&on_air, &view(), rect(0), zorders());
    let thumbs: Vec<usize> = steps
        .iter()
        .filter_map(|s| match s {
            GeometryStep::Thumbnail { pad, .. } => Some(*pad),
            _ => None,
        })
        .collect();
    assert_eq!(thumbs, vec![0, 1, 2]);
    // What is faded to black is not shown on programme.
    assert!(steps.iter().all(|s| !matches!(
        s,
        GeometryStep::Inputs { compositor: Compositor::Programme, .. }
    )));
    let on_air = OnAir { ftb_active: false, ..on_air };
    let steps = refresh_geometry(&on_air, &view(), rect(0), zorders());
    assert!(steps.iter().any(|s| matches!(
        s,
        GeometryStep::Inputs { compositor: Compositor::Programme, active: Some(0), .. }
    )));
    assert!(!pads_to_watch(3, 2).is_empty());
    assert_eq!(picture_size(640, 480), Some((640, 480)));
    assert_eq!(picture_size(0, 480), None);
    assert_eq!(input_size(None, Some((1, 2))), Some((1, 2)));
    assert_eq!(input_size(Some((3, 4)), Some((1, 2))), Some((3, 4)));
}

#[test]
fn no_pad_is_placed_twice() {
    let on_air = OnAir {
        num_inputs: 3,
        num_pips: 2,
        ftb_active: false,
        pgm_pip: Some(0),
        pvw_pip: None,
        pgm_input: Some(0),
        pvw_input: Some(1),
    };
    let steps = refresh_geometry(&on_air, &view(), rect(0), zorders());
    let mut placed: Vec<(Compositor, usize)> = Vec::new();
    for step in steps.iter() {
        match step {
            GeometryStep::Tile { compositor, first_pad, .. }
            | GeometryStep::Inputs { compositor, first_pad, .. } => {
                for i in 0..3 {
                    placed.push((*compositor, first_pad + i));
                }
            }
            GeometryStep::Thumbnail { pad, .. } => placed.push((Compositor::Multiview, *pad)),
        }
    }
    for (i, one) in placed.iter().enumerate() {
        assert!(!placed[i + 1..].contains(one));
    }
    assert!(placed.contains(&(Compositor::Programme, 2)));
    assert!(placed.contains(&(Compositor::Multiview, 4)));
    // With nothing changed on air, the same is done again.
    assert_eq!(refresh_geometry(&on_air, &view(), rect(0), zorders()), steps);
}

#[test]
fn meters_are_known_by_their_name() {
    assert_eq!(meter_of("vm", "vm:level_audio_2"), Some(Meter::Input(2)));
    assert_eq!(meter_of("vm", "vm:level_audio_pgm"), Some(Meter::Pgm));
    assert_eq!(meter_of("vm", "vm:level_audio_x"), None);
    assert_eq!(meter_of("vm", "other:level_audio_2"), None);
    assert_eq!(meter_levels(None, Some(1)), None);
    assert_eq!(meter_levels(Some(1), None), Some((1, 1)));
    assert_eq!(meter_levels(Some(1), Some(2)), Some((1, 2)));
    assert_eq!(initial_input(Source::Input(4), &vec![None], 7), 7);
    assert_eq!(initial_input(Source::Pip(0), &vec![Some(2)], 7), 2);
    assert_eq!(initial_input(Source::Pip(0), &vec![None], 7), 7);
    assert_eq!(zones_of_sources(Vec::new()).len(), 0);
    assert_eq!(compositor_preference(&Properties::new()), "auto");
}

// --- Borders ---

fn style(width: u64) -> BorderStyle {
    BorderStyle {
        visible: true,
        rgba: Some(Rgba { r: 1, g: 2, b: 3, a: 4 }),
        width,
    }
}

fn geometry(faded: bool) -> Option<PadGeometry> {
    Some(PadGeometry {
        x: 10,
        y: 20,
        w: 30,
        h: 40,
        alpha: 1,
        faded,
    })
}

fn border(style: Option<BorderStyle>) -> Vec<ZoneBorder> {
    vec![ZoneBorder {
        style,
        sources: vec![0],
    }]
}

#[test]
fn only_pictures_that_are_seen_have_a_border() {
    let drawn = collect_borders(&border(Some(style(2))), &vec![geometry(false)]);
    assert_eq!(drawn.len(), 1);
    assert_eq!((drawn[0].x, drawn[0].w, drawn[0].width), (10, 30, 2));
    assert!(collect_borders(&border(Some(style(2))), &vec![geometry(true)]).is_empty());
    assert!(collect_borders(&border(None), &vec![geometry(false)]).is_empty());
    assert!(collect_borders(&border(Some(style(2))), &vec![None]).is_empty());
    let mut hidden = style(2);
    hidden.visible = false;
    assert!(collect_borders(&border(Some(hidden)), &vec![geometry(false)]).is_empty());
    let mut colourless = style(2);
    colourless.rgba = None;
    assert!(collect_borders(&border(Some(colourless)), &vec![geometry(false)]).is_empty());
}

#[test]
fn borders_are_drawn_anew_where_they_differ() {
    let one = hash_borders(&collect_borders(&border(Some(style(2))), &vec![geometry(false)]));
    let two = hash_borders(&collect_borders(&border(Some(style(3))), &vec![geometry(false)]));
    assert_ne!(one, two);
    let mut drawn = DrawnBorders::new();
    assert!(matches!(drawn.action(one), FrameAction::Draw));
    drawn.drew(one, false);
    assert!(matches!(drawn.action(one), FrameAction::Draw));
    drawn.drew(one, true);
    assert!(matches!(drawn.action(one), FrameAction::Repush));
    assert!(matches!(drawn.action(two), FrameAction::Draw));
}

#[test]
fn rows_are_packed_without_their_padding() {
    let data = vec![1, 2, 0, 3, 4, 0];
    assert_eq!(pack_rows(&data, 2, 3, 2), vec![1, 2, 3, 4]);
    assert_eq!(pack_rows(&data, 3, 3, 2), data);
}

#[test]
fn ticks_keep_up_with_the_frame_rate() {
    assert_eq!(frame_interval((25, 1)), 40_000_000);
    assert_eq!(frame_interval((30000, 1001)), 33_366_666);
    assert_eq!(frame_interval((0, 1)), 1_000_000_000);
    assert_eq!(next_tick(100, 90, 40), (140, 50));
    assert_eq!(next_tick(100, 150, 40), (140, 0));
    assert_eq!(next_tick(100, 1000, 40), (1000, 0));
}
