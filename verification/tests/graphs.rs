use strom::flow::{BlockInstance, Flow, Link as FlowLink};
use strom::gst_launch::{
    element_id, elements_to_gst_launch, export_gst_launch, format_element,
    gvalue_to_property_value, ids_by_name, keeps_property, links_of_parsed, values_equal, Element,
    ExportError, GstValue, LaunchValue, Link, ParsedElement, Peer, SourcePad,
};
use strom::json::Json;
use strom::properties::{Properties, PropertyValue};
use strom::whep::{
    fill_page, find_vision_mixer, find_whep_endpoint_for_pad, mixer_config, multiview_endpoint,
    no_flow_page, render_page, render_vision_mixer_page, LiveMixer, MixerSettings, PipPage,
};

fn element(id: &str, kind: &str) -> Element {
    Element {
        id: id.to_string(),
        element_type: kind.to_string(),
        properties: Vec::new(),
    }
}

fn link(from: &str, to: &str) -> Link {
    Link {
        from: from.to_string(),
        to: to.to_string(),
    }
}

// --- Writing ---

#[test]
fn a_chain_is_written_in_order() {
    let elements = vec![
        element("sink", "autovideosink"),
        element("src", "videotestsrc"),
        element("q", "queue"),
    ];
    let links = vec![link("src", "q:sink"), link("q", "sink")];
    assert_eq!(
        elements_to_gst_launch(&elements, &links).as_deref(),
        Some("videotestsrc ! queue ! autovideosink")
    );
}

#[test]
fn a_branch_is_written_after_the_first_chain() {
    let elements = vec![
        element("src", "videotestsrc"),
        element("t", "tee"),
        element("a", "fakesink"),
        element("b", "filesink"),
    ];
    let links = vec![link("src", "t"), link("t:src_0", "a"), link("t:src_1", "b")];
    assert_eq!(
        elements_to_gst_launch(&elements, &links).as_deref(),
        Some("videotestsrc ! tee name=t ! fakesink \\\n  t. ! filesink")
    );
}

#[test]
fn chains_meet_by_name() {
    let elements = vec![
        element("a", "videotestsrc"),
        element("b", "audiotestsrc"),
        element("m", "matroskamux"),
    ];
    let links = vec![link("a", "m"), link("b", "m")];
    assert_eq!(
        elements_to_gst_launch(&elements, &links).as_deref(),
        Some("videotestsrc ! matroskamux name=m \\\n  audiotestsrc ! m. ")
    );
}

#[test]
fn a_circle_is_closed_by_name() {
    let elements = vec![element("a", "x"), element("b", "y")];
    let links = vec![link("a", "b"), link("b", "a")];
    assert_eq!(
        elements_to_gst_launch(&elements, &links).as_deref(),
        Some("x name=a ! y ! a. ")
    );
    let alone = vec![element("a", "x")];
    assert_eq!(
        elements_to_gst_launch(&alone, &vec![link("a:src", "a:sink")]).as_deref(),
        Some("x name=a ! a. ")
    );
}

#[test]
fn a_second_connection_between_two_elements_is_written_too() {
    let elements = vec![
        element("s", "audiotestsrc"),
        element("t", "tee"),
        element("m", "audiomixer"),
    ];
    let links = vec![
        link("s", "t"),
        link("t:src_0", "m:sink_0"),
        link("t:src_1", "m:sink_1"),
    ];
    assert_eq!(
        elements_to_gst_launch(&elements, &links).as_deref(),
        Some("audiotestsrc ! tee name=t ! audiomixer name=m \\\n  t. ! m. ")
    );
}

#[test]
fn a_branch_of_a_branch_is_written() {
    let elements = vec![
        element("s", "videotestsrc"),
        element("t", "tee"),
        element("a", "fakesink"),
        element("u", "tee"),
        element("b", "filesink"),
        element("c", "autovideosink"),
    ];
    let links = vec![
        link("s", "t"),
        link("t", "a"),
        link("t", "u"),
        link("u", "b"),
        link("u", "c"),
    ];
    assert_eq!(
        elements_to_gst_launch(&elements, &links).as_deref(),
        Some(
            "videotestsrc ! tee name=t ! fakesink \\\n  t. ! tee name=u ! filesink \\\n  u. ! autovideosink"
        )
    );
}

#[test]
fn every_connection_of_a_dense_graph_is_written() {
    // Each of four elements is connected to each of the others.
    let names = ["a", "b", "c", "d"];
    let elements = names.iter().map(|n| element(n, "x")).collect::<Vec<_>>();
    let mut links = Vec::new();
    for from in names {
        for to in names {
            if from != to {
                links.push(link(from, to));
            }
        }
    }
    let out = elements_to_gst_launch(&elements, &links).expect("nothing dangles");
    assert_eq!(out.matches(" ! ").count(), links.len());
    for name in names {
        assert_eq!(out.matches(&format!("x name={}", name)).count(), 1);
    }
}

#[test]
fn a_connection_from_nowhere_is_left_out() {
    let elements = vec![element("a", "x"), element("b", "y")];
    let links = vec![link("gone", "a"), link("a", "b")];
    assert_eq!(elements_to_gst_launch(&elements, &links).as_deref(), Some("x ! y"));
}

#[test]
fn nothing_and_nowhere_cannot_be_exported() {
    assert!(matches!(
        export_gst_launch(&Vec::new(), &Vec::new()),
        Err(ExportError::Empty)
    ));
    let elements = vec![element("a", "x")];
    assert!(matches!(
        export_gst_launch(&elements, &vec![link("a", "gone")]),
        Err(ExportError::DanglingLink)
    ));
    assert!(elements_to_gst_launch(&elements, &vec![link("a", "gone")]).is_none());
    assert_eq!(elements_to_gst_launch(&Vec::new(), &Vec::new()).as_deref(), Some(""));
    assert_eq!(export_gst_launch(&elements, &Vec::new()).ok().as_deref(), Some("x"));
}

#[test]
fn values_are_quoted_where_they_need_it() {
    let mut e = element("f", "filesrc");
    e.properties = vec![
        ("a".to_string(), LaunchValue::Text("plain".to_string())),
        ("b".to_string(), LaunchValue::Text("two \"words\"".to_string())),
        ("c".to_string(), LaunchValue::Text("say\"".to_string())),
        ("d".to_string(), LaunchValue::Int(-3)),
        ("e".to_string(), LaunchValue::UInt(7)),
        ("f".to_string(), LaunchValue::Float("0.5".to_string())),
        ("g".to_string(), LaunchValue::Bool(true)),
        ("h".to_string(), LaunchValue::Text("a=b".to_string())),
    ];
    assert_eq!(
        format_element(&e, true),
        "filesrc name=f a=plain b=\"two \\\"words\\\"\" c=say\" d=-3 e=7 f=0.5 g=true h=\"a=b\""
    );
    assert_eq!(format_element(&element("x", "queue"), false), "queue");
}

// --- Reading ---

fn parsed(name: &str, kind: Option<&str>, pads: Vec<(&str, Option<Peer>)>) -> ParsedElement {
    ParsedElement {
        name: name.to_string(),
        factory: kind.map(|k| k.to_string()),
        src_siblings: pads.len(),
        src_pads: pads
            .into_iter()
            .map(|(name, peer)| SourcePad {
                name: name.to_string(),
                peer,
            })
            .collect(),
    }
}

fn peer(element: &str, pad: &str, siblings: usize) -> Option<Peer> {
    Some(Peer {
        element: element.to_string(),
        pad: pad.to_string(),
        siblings,
    })
}

#[test]
fn generated_names_become_readable_ids() {
    assert_eq!(element_id("queue0", "queue", 3), "queue_3");
    assert_eq!(element_id("mine", "queue", 3), "mine");
    assert_eq!(element_id("queue", "queue", 3), "queue");
}

#[test]
fn pads_are_named_only_where_there_are_several() {
    let elements = vec![
        parsed(
            "tee0",
            Some("tee"),
            vec![
                ("src_0", peer("sink", "sink", 1)),
                ("src_1", peer("mux", "sink_1", 2)),
                ("src_2", peer("sink", "sink", 1)),
                ("src_3", None),
                ("src_4", peer("strange", "sink", 1)),
            ],
        ),
        parsed("sink", Some("fakesink"), vec![]),
        parsed("mux", Some("mp4mux"), vec![("src", peer("sink", "sink", 1))]),
        parsed("strange", None, vec![]),
    ];
    let ids = ids_by_name(&elements);
    assert!(ids.contains(&("tee0".to_string(), "tee_0".to_string())));
    assert!(ids.iter().all(|i| i.0 != "strange"));
    let pair = |a: &str, b: &str| (a.to_string(), b.to_string());
    assert_eq!(
        links_of_parsed(&elements),
        vec![
            pair("tee_0:src_0", "sink"),
            pair("tee_0:src_1", "mux:sink_1"),
            pair("mux", "sink"),
        ]
    );
}

#[test]
fn values_of_parsed_elements_are_compared_by_type() {
    assert!(values_equal(&GstValue::I32(1), &GstValue::I32(1), false));
    assert!(!values_equal(&GstValue::I32(1), &GstValue::I64(1), false));
    assert!(values_equal(&GstValue::F64(1), &GstValue::F64(2), true));
    assert!(!values_equal(&GstValue::F64(1), &GstValue::F64(1), false));
    assert!(values_equal(&GstValue::NoText, &GstValue::NoText, false));
    assert!(!values_equal(&GstValue::Other, &GstValue::Other, false));
    assert!(matches!(
        gvalue_to_property_value(&GstValue::U32(9)),
        Some(PropertyValue::UInt(9))
    ));
    assert!(matches!(
        gvalue_to_property_value(&GstValue::I32(-9)),
        Some(PropertyValue::Int(-9))
    ));
    assert!(gvalue_to_property_value(&GstValue::NoText).is_none());
    assert!(keeps_property("location", true, false));
    assert!(!keeps_property("location", true, true));
    assert!(!keeps_property("location", false, false));
    assert!(!keeps_property("name", true, false));
    assert!(!keeps_property("parent", true, false));
}

// --- WHEP endpoints ---

fn block(id: &str, kind: &str, endpoint: Option<&str>) -> BlockInstance {
    BlockInstance {
        id: id.to_string(),
        block_definition_id: kind.to_string(),
        properties: Properties::new(),
        whep_endpoint_id: endpoint.map(|e| e.to_string()),
    }
}

fn joined(from: &str, to: &str) -> FlowLink {
    FlowLink {
        from: from.to_string(),
        to: to.to_string(),
    }
}

fn mixer_flow() -> Flow {
    Flow {
        id: 1,
        blocks: vec![
            block("vm", "builtin.vision_mixer", None),
            block("enc", "builtin.videoenc", None),
            block("out", "builtin.whep_output", Some("abc")),
            block("vm2", "builtin.vision_mixer", None),
        ],
        links: vec![
            joined("vm:multiview_out", "enc:in"),
            joined("enc:encoded_out", "out:video_in"),
        ],
    }
}

#[test]
fn an_output_is_followed_through_other_blocks() {
    let flow = mixer_flow();
    assert_eq!(
        find_whep_endpoint_for_pad(&flow, "vm", "multiview_out"),
        "/whep/abc"
    );
    assert_eq!(find_whep_endpoint_for_pad(&flow, "vm", "pgm_out"), "");
    assert_eq!(find_whep_endpoint_for_pad(&flow, "vm2", "multiview_out"), "");
}

#[test]
fn an_output_is_found_behind_any_of_several_links() {
    let mut flow = mixer_flow();
    flow.blocks.push(block("rec", "builtin.recorder", None));
    // The first link of the pad ends at a recorder, and so does the encoder's.
    flow.links = vec![
        joined("vm:multiview_out", "rec:video_in"),
        joined("vm:multiview_out", "enc:in"),
        joined("enc:encoded_out", "rec:video_in"),
        joined("enc:encoded_out", "out:video_in"),
    ];
    assert_eq!(
        find_whep_endpoint_for_pad(&flow, "vm", "multiview_out"),
        "/whep/abc"
    );
    // What lies behind the first link comes before the second.
    flow.blocks.push(block("near", "builtin.whep_output", Some("near")));
    flow.links.push(joined("vm:multiview_out", "near:video_in"));
    assert_eq!(
        find_whep_endpoint_for_pad(&flow, "vm", "multiview_out"),
        "/whep/abc"
    );
}

#[test]
fn a_circle_of_links_ends_the_search() {
    let mut flow = mixer_flow();
    flow.links = vec![joined("a:o", "b:i"), joined("b:o", "a:i"), joined("a:o", "b:i")];
    assert_eq!(find_whep_endpoint_for_pad(&flow, "a", "o"), "");
}

#[test]
fn an_output_without_an_endpoint_gives_none() {
    let mut flow = mixer_flow();
    flow.blocks[2].whep_endpoint_id = None;
    assert_eq!(find_whep_endpoint_for_pad(&flow, "vm", "multiview_out"), "");
}

#[test]
fn the_multiview_endpoint_is_that_of_a_mixer() {
    let flow = Some(mixer_flow());
    assert_eq!(multiview_endpoint(&flow, "vm").ok().as_deref(), Some("/whep/abc"));
    assert_eq!(multiview_endpoint(&flow, "vm2").ok().as_deref(), Some(""));
    assert_eq!(multiview_endpoint(&flow, "enc"), Err(404));
    assert_eq!(multiview_endpoint(&None, "vm"), Err(404));
}

// --- The mixer's page ---

#[test]
fn the_page_is_about_the_mixer_asked_for() {
    let flow = mixer_flow();
    assert_eq!(find_vision_mixer(&flow, &None), Some(0));
    assert_eq!(find_vision_mixer(&flow, &Some("vm2".to_string())), Some(3));
    assert_eq!(find_vision_mixer(&flow, &Some("enc".to_string())), None);
    let flow = Some(flow);
    assert_eq!(render_vision_mixer_page(&flow, "f", &None), Ok(0));
    assert_eq!(
        render_vision_mixer_page(&flow, "f", &Some("enc".to_string())),
        Err("<html><body>No vision mixer block found in this flow</body></html>".to_string())
    );
    assert_eq!(
        render_vision_mixer_page(&None, "f", &None),
        Err("<html><body>Flow f not found</body></html>".to_string())
    );
    assert_eq!(no_flow_page("x"), "<html><body>Flow x not found</body></html>");
}

#[test]
fn every_mark_of_the_template_is_filled() {
    assert_eq!(
        fill_page("<a>{{VM_CONFIG_JSON}}</a>{{VM_CONFIG_JSON}}", "{}"),
        "<a>{}</a>{}"
    );
    assert_eq!(fill_page("nothing", "{}"), "nothing");
}

fn settings() -> MixerSettings {
    MixerSettings {
        num_inputs: 2,
        input_labels: vec!["In 1".to_string(), "In 2".to_string()],
        num_dsk_inputs: 2,
        num_pips: 1,
        initial_pgm: 0,
        initial_pvw: 1,
        pgm_w: 1920,
        pgm_h: 1080,
        pips: vec![PipPage {
            bg: Some(1),
            zones: Json::Array(Vec::new()),
            transforms: Json::Null,
        }],
    }
}

#[test]
fn a_page_holds_its_configuration_as_json() {
    let config = mixer_config("flow", "vm", settings(), None, Json::Array(Vec::new()));
    let page = render_page("<script>{{VM_CONFIG_JSON}}</script>", config);
    assert_eq!(
        page.ok().as_deref(),
        Some("<script>{\"block_id\":\"vm\",\"dsk_states\":[true,true],\"flow_id\":\"flow\",\"ftb_active\":false,\"initial_pgm\":0,\"initial_pvw\":1,\"input_labels\":[\"In 1\",\"In 2\"],\"input_resolutions\":[],\"num_dsk_inputs\":2,\"num_inputs\":2,\"num_pips\":1,\"overlay_alpha\":1.0,\"pgm_h\":1080,\"pgm_pip\":null,\"pgm_w\":1920,\"pips\":[{\"bg\":1,\"transforms\":null,\"zones\":[]}],\"pvw_pip\":null}</script>")
    );
    assert!(render_page("x", Json::Float("one".to_string())).is_err());
}

fn number(config: &Json, name: &str) -> Option<i64> {
    config.get(name).and_then(|v| v.as_i64())
}

#[test]
fn a_mixer_that_does_not_run_shows_its_settings() {
    let config = mixer_config("flow", "vm", settings(), None, Json::Array(Vec::new()));
    assert_eq!(config.get("flow_id").and_then(|v| v.as_str()), Some("flow"));
    assert_eq!(config.get("block_id").and_then(|v| v.as_str()), Some("vm"));
    assert_eq!(number(&config, "initial_pgm"), Some(0));
    assert_eq!(number(&config, "initial_pvw"), Some(1));
    assert_eq!(number(&config, "pgm_w"), Some(1920));
    assert_eq!(number(&config, "num_inputs"), Some(2));
    assert!(matches!(config.get("ftb_active"), Some(Json::Bool(false))));
    assert!(matches!(config.get("overlay_alpha"), Some(Json::Float(s)) if s == "1.0"));
    assert!(matches!(config.get("pgm_pip"), Some(Json::Null)));
    match config.get("dsk_states") {
        Some(Json::Array(v)) => {
            assert_eq!(v.len(), 2);
            assert!(v.iter().all(|d| matches!(d, Json::Bool(true))));
        }
        _ => panic!("a list"),
    }
    match config.get("pips") {
        Some(Json::Array(v)) => assert_eq!(number(&v[0], "bg"), Some(1)),
        _ => panic!("a list"),
    }
}

#[test]
fn a_mixer_that_runs_shows_its_state() {
    let live = LiveMixer {
        pgm_input: None,
        pvw_input: Some(0),
        ftb_active: true,
        dsk_enabled: vec![false, true],
        overlay_alpha: "0.5".to_string(),
        pips: vec![PipPage {
            bg: None,
            zones: Json::Null,
            transforms: Json::Null,
        }],
        pvw_pip: None,
        pgm_pip: Some(0),
    };
    let config = mixer_config("flow", "vm", settings(), Some(live), Json::Null);
    assert!(matches!(config.get("initial_pgm"), Some(Json::Null)));
    assert_eq!(number(&config, "initial_pvw"), Some(0));
    assert_eq!(number(&config, "pgm_pip"), Some(0));
    assert!(matches!(config.get("ftb_active"), Some(Json::Bool(true))));
    assert!(matches!(config.get("overlay_alpha"), Some(Json::Float(s)) if s == "0.5"));
    match config.get("pips") {
        Some(Json::Array(v)) => assert!(matches!(v[0].get("bg"), Some(Json::Null))),
        _ => panic!("a list"),
    }
}
