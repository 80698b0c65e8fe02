//! What the properties of a compositor do: laws on where its inputs stand, how
//! they are blended and how large the canvas is.

use crate::blocks::definition::MediaType;
use crate::blocks::glcompositor;
use crate::blocks::plan;
use crate::blocks::plan::{ElementPlan, LinkPlan, PlanInfo, SettingInfo, SettingsInfo};
use crate::properties::{PropertyMap, PropertyTree};
use crate::text;
use vstd::prelude::*;

verus! {

/// The name of a property of an input.
pub open spec fn property_of_input(i: nat, tail: Seq<char>) -> Seq<char> {
    "input_"@ + text::decimal(i) + tail
}

/// The whole number set under a name, or `fallback` where none is.
pub open spec fn whole_number(p: PropertyMap, name: Seq<char>, fallback: int) -> int {
    match text::lookup(p, name) {
        Some(PropertyTree::Int(n)) => n as int,
        _ => fallback,
    }
}

/// How the pad that the mixer is asked for on behalf of an input is set.
pub open spec fn settings_of_input(instance: Seq<char>, p: PropertyMap, i: int) -> SettingsInfo {
    glcompositor::compositor_elements(instance, p).elements[0].requests[i].settings
}

/// A setting that is given a whole number.
pub open spec fn has_number(settings: SettingsInfo, name: Seq<char>, n: int) -> bool {
    settings.contains((name, SettingInfo::Parsed(text::decimal_int(n))))
}

proof fn lemma_pads(e: ElementPlan, p: PropertyMap, n: nat)
    ensures
        ({
            let all = glcompositor::with_pads(e, p, n);
            &&& all.requests.len() == e.requests.len() + n
            &&& forall|i: int|
                0 <= i < n ==> #[trigger] all.requests[e.requests.len() + i]
                    == glcompositor::pad_request(p, i)
            &&& all.settings == e.settings
            &&& all.id == e.id
            &&& all.factory == e.factory
        }),
    decreases n,
{
    if n > 0 {
        lemma_pads(e, p, (n - 1) as nat);
        let before = glcompositor::with_pads(e, p, (n - 1) as nat);
        let all = glcompositor::with_pads(e, p, n);
        assert forall|i: int| 0 <= i < n implies #[trigger] all.requests[e.requests.len() + i]
            == glcompositor::pad_request(p, i) by {
            if i < n - 1 {
                assert(all.requests[e.requests.len() + i] == before.requests[e.requests.len() + i]);
            }
        }
    }
}

proof fn lemma_uploads(base: PlanInfo, instance: Seq<char>, n: nat)
    ensures
        ({
            let all = glcompositor::with_uploads(base, instance, n);
            &&& all.links == base.links
            &&& all.elements.len() == base.elements.len() + n
            &&& forall|k: int|
                0 <= k < base.elements.len() ==> #[trigger] all.elements[k] == base.elements[k]
            &&& forall|i: int|
                0 <= i < n ==> #[trigger] all.elements[base.elements.len() + i]
                    == glcompositor::upload(instance, i)
        }),
    decreases n,
{
    if n > 0 {
        lemma_uploads(base, instance, (n - 1) as nat);
        let before = glcompositor::with_uploads(base, instance, (n - 1) as nat);
        let all = glcompositor::with_uploads(base, instance, n);
        assert forall|i: int| 0 <= i < n implies #[trigger] all.elements[base.elements.len() + i]
            == glcompositor::upload(instance, i) by {
            if i < n - 1 {
                assert(all.elements[base.elements.len() + i] == before.elements[
                    base.elements.len() + i
                ]);
            }
        }
    }
}

proof fn lemma_mixer(instance: Seq<char>, p: PropertyMap) -> (delayed: ElementPlan)
    ensures
        glcompositor::compositor_elements(instance, p).elements[0] == glcompositor::mixer(
            instance,
            p,
        ),
        delayed.settings == glcompositor::mixer(instance, p).settings,
        delayed.requests.len() == 0,
        delayed.id == plan::member(instance, "mixer"@),
        delayed.factory == "glvideomixerelement"@,
        glcompositor::mixer(instance, p) == glcompositor::with_pads(
            delayed,
            p,
            glcompositor::inputs_under(p),
        ),
        delayed.settings.contains(
            ("force-live"@, SettingInfo::Bool(
                crate::properties::bool_or(p, "force_live"@, true),
            )),
        ),
        delayed.settings.contains(
            ("background"@, SettingInfo::Parsed(glcompositor::background_under(p))),
        ),
        delayed.settings.len() == 2 + (if glcompositor::latency_under(p, "latency"@) is Some {
            1int
        } else {
            0
        }) + (if glcompositor::latency_under(p, "min_upstream_latency"@) is Some {
            1int
        } else {
            0
        }),
        glcompositor::latency_under(p, "latency"@) matches Some(ms)
            ==> delayed.settings.contains(("latency"@, glcompositor::written(ms * 1_000_000))),
        glcompositor::latency_under(p, "min_upstream_latency"@) matches Some(ms)
            ==> delayed.settings.contains(
            ("min-upstream-latency"@, glcompositor::written(ms * 1_000_000)),
        ),
{
    let live = SettingInfo::Bool(crate::properties::bool_or(p, "force_live"@, true));
    let background = SettingInfo::Parsed(glcompositor::background_under(p));
    let bare = plan::plain_element(
        plan::member(instance, "mixer"@),
        "glvideomixerelement"@,
    ).with("force-live"@, live).with("background"@, background);
    let once = glcompositor::with_latency(bare, p, "latency"@, "latency"@);
    let delayed = glcompositor::with_latency(
        once,
        p,
        "min_upstream_latency"@,
        "min-upstream-latency"@,
    );
    let n = glcompositor::inputs_under(p);
    lemma_pads(delayed, p, n);
    lemma_uploads(plan::empty_plan().add(glcompositor::mixer(instance, p)), instance, n);
    assert(delayed.settings[0] == ("force-live"@, live));
    assert(delayed.settings[1] == ("background"@, background));
    if let Some(ms) = glcompositor::latency_under(p, "latency"@) {
        assert(delayed.settings[2] == ("latency"@, glcompositor::written(ms * 1_000_000)));
    }
    if let Some(ms) = glcompositor::latency_under(p, "min_upstream_latency"@) {
        assert(delayed.settings[delayed.settings.len() - 1] == (
            "min-upstream-latency"@,
            glcompositor::written(ms * 1_000_000),
        ));
    }
    delayed
}

/// Every setting of an input's pad is read from the property of its own name:
/// where the input stands and how large it is from the four numbers, and
/// nothing else is set.
pub proof fn inputs_stand_where_they_are_put(instance: Seq<char>, p: PropertyMap, i: int)
    requires
        0 <= i < glcompositor::compositor_elements(instance, p).elements[0].requests.len(),
    ensures
        ({
            let s = settings_of_input(instance, p, i);
            let name = |tail: Seq<char>| property_of_input(i as nat, tail);
            &&& s.len() == 7
            &&& has_number(
                s,
                "xpos"@,
                whole_number(
                    p,
                    name("_xpos"@),
                    if i == 0 {
                        0
                    } else {
                        960
                    },
                ),
            )
            &&& has_number(s, "ypos"@, whole_number(p, name("_ypos"@), 0))
            &&& has_number(s, "width"@, whole_number(p, name("_width"@), -1))
            &&& has_number(s, "height"@, whole_number(p, name("_height"@), -1))
        }),
{
    let delayed = lemma_mixer(instance, p);
    lemma_pads(delayed, p, glcompositor::inputs_under(p));
    let s = settings_of_input(instance, p, i);
    assert(glcompositor::mixer(instance, p).requests[delayed.requests.len() + i]
        == glcompositor::pad_request(p, i));
    assert(s[0].0 == "xpos"@ && s[1].0 == "ypos"@ && s[2].0 == "width"@ && s[3].0 == "height"@);
    assert(s.contains(s[0]) && s.contains(s[1]) && s.contains(s[2]) && s.contains(s[3]));
}

/// How an input is blended is read from the properties of those names: its
/// opacity, what it lies over and how it is fitted.
pub proof fn inputs_are_blended_as_set(instance: Seq<char>, p: PropertyMap, i: int)
    requires
        0 <= i < glcompositor::compositor_elements(instance, p).elements[0].requests.len(),
    ensures
        ({
            let s = settings_of_input(instance, p, i);
            let alpha = text::lookup(p, property_of_input(i as nat, "_alpha"@));
            let zorder = text::lookup(p, property_of_input(i as nat, "_zorder"@));
            let policy = text::lookup(p, property_of_input(i as nat, "_sizing_policy"@));
            &&& alpha matches Some(PropertyTree::Float(bits)) ==> s.contains(
                ("alpha"@, SettingInfo::Float(bits)),
            )
            &&& alpha is None ==> s.contains(("alpha"@, SettingInfo::Float(0x3ff0000000000000)))
            &&& zorder matches Some(PropertyTree::UInt(n)) ==> n <= u32::MAX ==> has_number(
                s,
                "zorder"@,
                n as int,
            )
            &&& zorder matches Some(PropertyTree::Int(n)) ==> 0 <= n <= u32::MAX ==> has_number(
                s,
                "zorder"@,
                n as int,
            )
            &&& zorder is None ==> has_number(s, "zorder"@, i)
            &&& policy matches Some(PropertyTree::Text(t)) ==> s.contains(
                ("sizing-policy"@, SettingInfo::Parsed(t)),
            )
            &&& policy is None ==> s.contains(
                ("sizing-policy"@, SettingInfo::Parsed("keep-aspect-ratio"@)),
            )
        }),
{
    let delayed = lemma_mixer(instance, p);
    lemma_pads(delayed, p, glcompositor::inputs_under(p));
    let s = settings_of_input(instance, p, i);
    assert(glcompositor::mixer(instance, p).requests[delayed.requests.len() + i]
        == glcompositor::pad_request(p, i));
    assert(s[4].0 == "alpha"@ && s[5].0 == "zorder"@ && s[6].0 == "sizing-policy"@);
    assert(s.contains(s[4]) && s.contains(s[5]) && s.contains(s[6]));
    let zorder = text::lookup(p, property_of_input(i as nat, "_zorder"@));
    if let Some(PropertyTree::Int(n)) = zorder {
        if 0 <= n <= u32::MAX {
            assert(n as u64 as u32 == n);
        }
    }
}

/// There is a pad, an upload and a shown pad for each input: as many as are
/// asked for, from one to sixteen, and two where nothing is said.
pub proof fn every_input_has_its_pads(instance: Seq<char>, p: PropertyMap)
    ensures
        ({
            let n = glcompositor::inputs_under(p);
            let parts = glcompositor::compositor_elements(instance, p);
            let shown = glcompositor::compositor_pads(n);
            &&& text::lookup(p, "num_inputs"@) is None ==> n == 2
            &&& text::lookup(p, "num_inputs"@) matches Some(PropertyTree::UInt(k)) ==> n == if k < 1 {
                1
            } else if k > 16 {
                16
            } else {
                k as int
            }
            &&& parts.elements.len() == n + 3
            &&& parts.elements[0].requests.len() == n
            &&& forall|i: int|
                0 <= i < n ==> (#[trigger] parts.elements[0].requests[i]).template == "sink_%u"@
            &&& forall|i: int|
                0 <= i < n ==> (#[trigger] parts.elements[1 + i]).factory == "glupload"@
                    && parts.elements[1 + i].id == plan::member(
                    instance,
                    plan::numbered("glupload_"@, i),
                )
            &&& shown.inputs.len() == n
            &&& forall|i: int|
                0 <= i < n ==> (#[trigger] shown.inputs[i]).name == plan::numbered("video_in_"@, i)
                    && shown.inputs[i].media_type == MediaType::Video
                    && shown.inputs[i].internal_element_id == plan::numbered("glupload_"@, i)
                    && shown.inputs[i].internal_pad_name == "sink"@
            &&& shown.outputs.len() == 1
            &&& shown.outputs[0].name == "video_out"@
            &&& shown.outputs[0].media_type == MediaType::Video
            &&& shown.outputs[0].internal_element_id == "capsfilter"@
            &&& shown.outputs[0].internal_pad_name == "src"@
        }),
{
    let n = glcompositor::inputs_under(p);
    let parts = glcompositor::compositor_elements(instance, p);
    let delayed = lemma_mixer(instance, p);
    let base = plan::empty_plan().add(glcompositor::mixer(instance, p));
    lemma_pads(delayed, p, n);
    lemma_uploads(base, instance, n);
    let all = glcompositor::with_uploads(base, instance, n);
    assert forall|i: int| 0 <= i < n implies (#[trigger] parts.elements[1 + i]).factory
        == "glupload"@ && parts.elements[1 + i].id == plan::member(
        instance,
        plan::numbered("glupload_"@, i),
    ) by {
        assert(parts.elements[1 + i] == all.elements[base.elements.len() + i]);
    }
    assert forall|i: int| 0 <= i < n implies (
    #[trigger] parts.elements[0].requests[i]).template == "sink_%u"@ by {
        assert(glcompositor::mixer(instance, p).requests[delayed.requests.len() + i]
            == glcompositor::pad_request(p, i));
    }
}

/// The canvas and what lies behind the inputs are as set: its size from the
/// two numbers, the background from the four choices, and the latencies in
/// nanoseconds where they are set at all.
pub proof fn canvas_is_as_set(instance: Seq<char>, p: PropertyMap, w: u64, h: u64)
    ensures
        ({
            let parts = glcompositor::compositor_elements(instance, p);
            let mixer = parts.elements[0];
            let filter = parts.elements.last();
            let behind = text::lookup(p, "background"@);
            &&& mixer.id == plan::member(instance, "mixer"@)
            &&& mixer.factory == "glvideomixerelement"@
            &&& filter.id == plan::member(instance, "capsfilter"@)
            &&& filter.factory == "capsfilter"@
            &&& text::lookup(p, "output_width"@) == Some(PropertyTree::UInt(w)) && text::lookup(
                p,
                "output_height"@,
            ) == Some(PropertyTree::UInt(h)) && 1 <= w <= 7680 && 1 <= h <= 4320
                ==> filter.settings == seq![
                (
                    "caps"@,
                    SettingInfo::CapsText(
                        "video/x-raw,width="@ + text::decimal(w as nat) + ",height="@
                            + text::decimal(h as nat),
                    ),
                ),
            ]
            &&& text::lookup(p, "output_width"@) is None && text::lookup(p, "output_height"@) is None
                ==> filter.settings == seq![
                (
                    "caps"@,
                    SettingInfo::CapsText(
                        "video/x-raw,width="@ + text::decimal(1920) + ",height="@ + text::decimal(
                            1080,
                        ),
                    ),
                ),
            ]
            &&& behind == Some(PropertyTree::Text("white"@)) ==> mixer.settings.contains(
                ("background"@, SettingInfo::Parsed("white"@)),
            )
            &&& behind == Some(PropertyTree::Text("checker"@)) ==> mixer.settings.contains(
                ("background"@, SettingInfo::Parsed("checker"@)),
            )
            &&& behind == Some(PropertyTree::Text("transparent"@)) ==> mixer.settings.contains(
                ("background"@, SettingInfo::Parsed("transparent"@)),
            )
            &&& behind is None ==> mixer.settings.contains(
                ("background"@, SettingInfo::Parsed("black"@)),
            )
            &&& text::lookup(p, "force_live"@) matches Some(PropertyTree::Bool(b))
                ==> mixer.settings.contains(("force-live"@, SettingInfo::Bool(b)))
            &&& text::lookup(p, "force_live"@) is None ==> mixer.settings.contains(
                ("force-live"@, SettingInfo::Bool(true)),
            )
            &&& text::lookup(p, "latency"@) matches Some(PropertyTree::UInt(ms)) ==> has_number(
                mixer.settings,
                "latency"@,
                ms * 1_000_000,
            )
            &&& text::lookup(p, "min_upstream_latency"@) matches Some(PropertyTree::UInt(ms))
                ==> has_number(mixer.settings, "min-upstream-latency"@, ms * 1_000_000)
            &&& text::lookup(p, "latency"@) is None && text::lookup(
                p,
                "min_upstream_latency"@,
            ) is None ==> mixer.settings.len() == 2
        }),
{
    let delayed = lemma_mixer(instance, p);
    lemma_pads(delayed, p, glcompositor::inputs_under(p));
    let parts = glcompositor::compositor_elements(instance, p);
    let filter = parts.elements.last();
    assert(filter.settings =~= seq![("caps"@, SettingInfo::CapsText(glcompositor::canvas_caps(p)))]);
}

/// Each input goes to the pad that the mixer gave it, the mixer to the
/// download, and that to the end of the block; there is no other connection.
pub proof fn inputs_go_to_their_own_pads(
    instance: Seq<char>,
    p: PropertyMap,
    pads: Seq<Seq<char>>,
)
    ensures
        ({
            let links = glcompositor::connected(
                glcompositor::compositor_elements(instance, p),
                instance,
                pads,
            ).links;
            let n = pads.len() as int;
            &&& links.len() == n + 2
            &&& forall|i: int|
                #![trigger pads[i]]
                0 <= i < n ==> links[i] == (LinkPlan {
                    from_element: plan::member(instance, plan::numbered("glupload_"@, i)),
                    from_pad: "src"@,
                    to_element: plan::member(instance, "mixer"@),
                    to_pad: pads[i],
                })
            &&& links[n] == (LinkPlan {
                from_element: plan::member(instance, "mixer"@),
                from_pad: "src"@,
                to_element: plan::member(instance, "gldownload"@),
                to_pad: "sink"@,
            })
            &&& links[n + 1] == (LinkPlan {
                from_element: plan::member(instance, "gldownload"@),
                from_pad: "src"@,
                to_element: plan::member(instance, "capsfilter"@),
                to_pad: "sink"@,
            })
        }),
{
    let base = glcompositor::compositor_elements(instance, p);
    let first = plan::empty_plan().add(glcompositor::mixer(instance, p));
    lemma_uploads(first, instance, glcompositor::inputs_under(p));
    assert(base.links.len() == 0);
    lemma_inputs(base, instance, pads, pads.len());
}

proof fn lemma_inputs(base: PlanInfo, instance: Seq<char>, pads: Seq<Seq<char>>, n: nat)
    requires
        base.links.len() == 0,
        n <= pads.len(),
    ensures
        ({
            let links = glcompositor::with_inputs(base, instance, pads, n).links;
            &&& links.len() == n
            &&& forall|i: int|
                #![trigger pads[i]]
                0 <= i < n ==> links[i] == (LinkPlan {
                    from_element: plan::member(instance, plan::numbered("glupload_"@, i)),
                    from_pad: "src"@,
                    to_element: plan::member(instance, "mixer"@),
                    to_pad: pads[i],
                })
        }),
    decreases n,
{
    if n > 0 {
        lemma_inputs(base, instance, pads, (n - 1) as nat);
    }
}

} // verus!
