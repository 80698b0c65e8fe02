//! What a plan holds: which elements it makes, how they are set and how they
//! are connected.

use crate::blocks::definition::{DefinitionInfo, MediaType, PadInfo, PropertyInfo};
use crate::blocks::plan::{CapsFieldInfo, CapsInfo, ElementPlan, LinkPlan, PlanInfo, Recipe, SettingInfo};
use crate::properties::PropertyTree;
use vstd::prelude::*;

verus! {

/// The element is given a setting.
pub open spec fn has_setting(e: ElementPlan, name: Seq<char>, value: SettingInfo) -> bool {
    e.settings.contains((name, value))
}

/// The plan has an element with an id, made by a factory.
pub open spec fn makes(p: PlanInfo, id: Seq<char>, factory: Seq<char>) -> bool {
    exists|k: int|
        0 <= k < p.elements.len() && (#[trigger] p.elements[k]).id == id && p.elements[k].factory
            == factory
}

/// The plan gives an element with an id a setting.
pub open spec fn sets(p: PlanInfo, id: Seq<char>, name: Seq<char>, value: SettingInfo) -> bool {
    exists|k: int|
        0 <= k < p.elements.len() && (#[trigger] p.elements[k]).id == id && has_setting(
            p.elements[k],
            name,
            value,
        )
}

/// The plan has a connection.
pub open spec fn joins(
    p: PlanInfo,
    from: Seq<char>,
    from_pad: Seq<char>,
    to: Seq<char>,
    to_pad: Seq<char>,
) -> bool {
    p.links.contains(
        LinkPlan { from_element: from, from_pad, to_element: to, to_pad },
    )
}

pub broadcast proof fn given_setting_is_had(e: ElementPlan, name: Seq<char>, value: SettingInfo)
    ensures
        has_setting(#[trigger] e.with(name, value), name, value),
{
    let all = e.with(name, value).settings;
    assert(all[all.len() - 1] == (name, value));
}

pub broadcast proof fn further_setting_keeps(
    e: ElementPlan,
    name: Seq<char>,
    value: SettingInfo,
    other: Seq<char>,
    had: SettingInfo,
)
    requires
        has_setting(e, other, had),
    ensures
        #[trigger] has_setting(e.with(name, value), other, had),
{
    let k = choose|k: int| 0 <= k < e.settings.len() && e.settings[k] == (other, had);
    assert(e.with(name, value).settings[k] == (other, had));
}

pub broadcast proof fn label_keeps_settings(
    e: ElementPlan,
    label: Seq<char>,
    other: Seq<char>,
    had: SettingInfo,
)
    requires
        has_setting(e, other, had),
    ensures
        #[trigger] has_setting(e.labelled(label), other, had),
{
}

pub broadcast proof fn recipe_keeps_settings(
    e: ElementPlan,
    recipe: Recipe,
    other: Seq<char>,
    had: SettingInfo,
)
    requires
        has_setting(e, other, had),
    ensures
        #[trigger] has_setting(e.made_by(recipe), other, had),
{
}

pub broadcast proof fn added_element_is_made(p: PlanInfo, e: ElementPlan)
    ensures
        makes(#[trigger] p.add(e), e.id, e.factory),
{
    let all = p.add(e).elements;
    assert(all[all.len() - 1] == e);
}

pub broadcast proof fn adding_keeps_made(
    p: PlanInfo,
    e: ElementPlan,
    id: Seq<char>,
    factory: Seq<char>,
)
    requires
        makes(p, id, factory),
    ensures
        #[trigger] makes(p.add(e), id, factory),
{
    let k = choose|k: int|
        0 <= k < p.elements.len() && (#[trigger] p.elements[k]).id == id && p.elements[k].factory
            == factory;
    assert(p.add(e).elements[k] == p.elements[k]);
}

pub broadcast proof fn added_element_is_set(
    p: PlanInfo,
    e: ElementPlan,
    name: Seq<char>,
    value: SettingInfo,
)
    requires
        has_setting(e, name, value),
    ensures
        #[trigger] sets(p.add(e), e.id, name, value),
{
    let all = p.add(e).elements;
    assert(all[all.len() - 1] == e);
}

pub broadcast proof fn adding_keeps_set(
    p: PlanInfo,
    e: ElementPlan,
    id: Seq<char>,
    name: Seq<char>,
    value: SettingInfo,
)
    requires
        sets(p, id, name, value),
    ensures
        #[trigger] sets(p.add(e), id, name, value),
{
    let k = choose|k: int|
        0 <= k < p.elements.len() && (#[trigger] p.elements[k]).id == id && has_setting(
            p.elements[k],
            name,
            value,
        );
    assert(p.add(e).elements[k] == p.elements[k]);
}

pub broadcast proof fn linking_keeps_made(
    p: PlanInfo,
    a: Seq<char>,
    pa: Seq<char>,
    b: Seq<char>,
    pb: Seq<char>,
    id: Seq<char>,
    factory: Seq<char>,
)
    requires
        makes(p, id, factory),
    ensures
        #[trigger] makes(p.link(a, pa, b, pb), id, factory),
{
    let k = choose|k: int|
        0 <= k < p.elements.len() && (#[trigger] p.elements[k]).id == id && p.elements[k].factory
            == factory;
    assert(p.link(a, pa, b, pb).elements[k] == p.elements[k]);
}

pub broadcast proof fn linking_keeps_set(
    p: PlanInfo,
    a: Seq<char>,
    pa: Seq<char>,
    b: Seq<char>,
    pb: Seq<char>,
    id: Seq<char>,
    name: Seq<char>,
    value: SettingInfo,
)
    requires
        sets(p, id, name, value),
    ensures
        #[trigger] sets(p.link(a, pa, b, pb), id, name, value),
{
    let k = choose|k: int|
        0 <= k < p.elements.len() && (#[trigger] p.elements[k]).id == id && has_setting(
            p.elements[k],
            name,
            value,
        );
    assert(p.link(a, pa, b, pb).elements[k] == p.elements[k]);
}

pub broadcast proof fn made_link_joins(
    p: PlanInfo,
    a: Seq<char>,
    pa: Seq<char>,
    b: Seq<char>,
    pb: Seq<char>,
)
    ensures
        joins(#[trigger] p.link(a, pa, b, pb), a, pa, b, pb),
{
    let all = p.link(a, pa, b, pb).links;
    assert(all[all.len() - 1] == LinkPlan {
        from_element: a,
        from_pad: pa,
        to_element: b,
        to_pad: pb,
    });
}

pub broadcast proof fn linking_keeps_joined(
    p: PlanInfo,
    a: Seq<char>,
    pa: Seq<char>,
    b: Seq<char>,
    pb: Seq<char>,
    c: Seq<char>,
    pc: Seq<char>,
    d: Seq<char>,
    pd: Seq<char>,
)
    requires
        joins(p, c, pc, d, pd),
    ensures
        #[trigger] joins(p.link(a, pa, b, pb), c, pc, d, pd),
{
    let old = LinkPlan { from_element: c, from_pad: pc, to_element: d, to_pad: pd };
    let k = choose|k: int| 0 <= k < p.links.len() && p.links[k] == old;
    assert(p.link(a, pa, b, pb).links[k] == old);
}

pub broadcast proof fn adding_keeps_joined(
    p: PlanInfo,
    e: ElementPlan,
    c: Seq<char>,
    pc: Seq<char>,
    d: Seq<char>,
    pd: Seq<char>,
)
    requires
        joins(p, c, pc, d, pd),
    ensures
        #[trigger] joins(p.add(e), c, pc, d, pd),
{
}

/// The capabilities fix a field.
pub open spec fn fixes(c: CapsInfo, name: Seq<char>, value: CapsFieldInfo) -> bool {
    c.fields.contains((name, value))
}

pub broadcast proof fn given_field_is_fixed(c: CapsInfo, name: Seq<char>, value: CapsFieldInfo)
    ensures
        fixes(#[trigger] c.field(name, value), name, value),
{
    let all = c.field(name, value).fields;
    assert(all[all.len() - 1] == (name, value));
}

pub broadcast proof fn further_field_keeps(
    c: CapsInfo,
    name: Seq<char>,
    value: CapsFieldInfo,
    other: Seq<char>,
    had: CapsFieldInfo,
)
    requires
        fixes(c, other, had),
    ensures
        #[trigger] fixes(c.field(name, value), other, had),
{
    let k = choose|k: int| 0 <= k < c.fields.len() && c.fields[k] == (other, had);
    assert(c.field(name, value).fields[k] == (other, had));
}

/// Among the pads is one with a name, which stands for a pad inside.
pub open spec fn shows(
    pads: Seq<PadInfo>,
    name: Seq<char>,
    media: MediaType,
    element: Seq<char>,
    pad: Seq<char>,
) -> bool {
    exists|k: int|
        0 <= k < pads.len() && (#[trigger] pads[k]).name == name && pads[k].media_type == media
            && pads[k].internal_element_id == element && pads[k].internal_pad_name == pad
}

/// A property as a block offers it: its name, what it is where nothing is set,
/// the element inside that it goes to, and the property of that element.
pub open spec fn is_property(
    q: PropertyInfo,
    name: Seq<char>,
    default_value: Option<PropertyTree>,
    element: Seq<char>,
    property: Seq<char>,
    live: bool,
) -> bool {
    &&& q.name == name
    &&& q.default_value == default_value
    &&& q.element_id == element
    &&& q.property_name == property
    &&& q.live == live
}

/// The block offers a property.
pub open spec fn offers(
    d: DefinitionInfo,
    name: Seq<char>,
    default_value: Option<PropertyTree>,
    element: Seq<char>,
    property: Seq<char>,
    live: bool,
) -> bool {
    exists|k: int|
        0 <= k < d.exposed_properties.len() && is_property(
            #[trigger] d.exposed_properties[k],
            name,
            default_value,
            element,
            property,
            live,
        )
}

pub broadcast proof fn added_property_is_offered(d: DefinitionInfo, q: PropertyInfo)
    ensures
        offers(
            #[trigger] d.property(q),
            q.name,
            q.default_value,
            q.element_id,
            q.property_name,
            q.live,
        ),
{
    let all = d.property(q).exposed_properties;
    assert(all[all.len() - 1] == q);
}

pub broadcast proof fn further_property_keeps(
    d: DefinitionInfo,
    q: PropertyInfo,
    name: Seq<char>,
    default_value: Option<PropertyTree>,
    element: Seq<char>,
    property: Seq<char>,
    live: bool,
)
    requires
        offers(d, name, default_value, element, property, live),
    ensures
        #[trigger] offers(d.property(q), name, default_value, element, property, live),
{
    let k = choose|k: int|
        0 <= k < d.exposed_properties.len() && is_property(
            #[trigger] d.exposed_properties[k],
            name,
            default_value,
            element,
            property,
            live,
        );
    assert(d.property(q).exposed_properties[k] == d.exposed_properties[k]);
}

/// What one plan holds, another does too.
pub open spec fn held_too(a: PlanInfo, b: PlanInfo) -> bool {
    &&& forall|id: Seq<char>, factory: Seq<char>|
        makes(a, id, factory) ==> #[trigger] makes(b, id, factory)
    &&& forall|id: Seq<char>, name: Seq<char>, value: SettingInfo|
        sets(a, id, name, value) ==> #[trigger] sets(b, id, name, value)
    &&& forall|id: Seq<char>, template: Seq<char>, n: int|
        requests(a, id, template, n) ==> #[trigger] requests(
            b,
            id,
            template,
            n,
        )
    &&& forall|c: Seq<char>, pc: Seq<char>, d: Seq<char>, pd: Seq<char>|
        joins(a, c, pc, d, pd) ==> #[trigger] joins(b, c, pc, d, pd)
}

pub proof fn lemma_held_on(a: PlanInfo, b: PlanInfo, c: PlanInfo)
    requires
        held_too(a, b),
        held_too(b, c),
    ensures
        held_too(a, c),
{
}

pub broadcast group what_definitions_offer {
    added_property_is_offered,
    further_property_keeps,
}

/// The plan has an element with an id that so many pads are requested on, all
/// from one template.
pub open spec fn requests(p: PlanInfo, id: Seq<char>, template: Seq<char>, n: int) -> bool {
    exists|k: int|
        0 <= k < p.elements.len() && (#[trigger] p.elements[k]).id == id && asks(
            p.elements[k],
            template,
            n,
        )
}

/// So many pads are requested on the element, all from one template.
pub open spec fn asks(e: ElementPlan, template: Seq<char>, n: int) -> bool {
    e.requests.len() == n && forall|i: int|
        0 <= i < n ==> (#[trigger] e.requests[i]).template == template
}

pub broadcast proof fn added_element_is_requested_on(
    p: PlanInfo,
    e: ElementPlan,
    template: Seq<char>,
    n: int,
)
    requires
        asks(e, template, n),
    ensures
        #[trigger] requests(p.add(e), e.id, template, n),
{
    let all = p.add(e).elements;
    assert(all[all.len() - 1] == e);
}

pub broadcast proof fn adding_keeps_requested(
    p: PlanInfo,
    e: ElementPlan,
    id: Seq<char>,
    template: Seq<char>,
    n: int,
)
    requires
        requests(p, id, template, n),
    ensures
        #[trigger] requests(p.add(e), id, template, n),
{
    let k = choose|k: int|
        0 <= k < p.elements.len() && (#[trigger] p.elements[k]).id == id && asks(
            p.elements[k],
            template,
            n,
        );
    assert(p.add(e).elements[k] == p.elements[k]);
}

pub broadcast proof fn linking_keeps_requested(
    p: PlanInfo,
    a: Seq<char>,
    pa: Seq<char>,
    b: Seq<char>,
    pb: Seq<char>,
    id: Seq<char>,
    template: Seq<char>,
    n: int,
)
    requires
        requests(p, id, template, n),
    ensures
        #[trigger] requests(p.link(a, pa, b, pb), id, template, n),
{
    let k = choose|k: int|
        0 <= k < p.elements.len() && (#[trigger] p.elements[k]).id == id && asks(
            p.elements[k],
            template,
            n,
        );
    assert(p.link(a, pa, b, pb).elements[k] == p.elements[k]);
}

pub broadcast group what_plans_hold {
    added_element_is_requested_on,
    adding_keeps_requested,
    linking_keeps_requested,
    given_field_is_fixed,
    further_field_keeps,
    given_setting_is_had,
    further_setting_keeps,
    label_keeps_settings,
    recipe_keeps_settings,
    added_element_is_made,
    adding_keeps_made,
    added_element_is_set,
    adding_keeps_set,
    linking_keeps_made,
    linking_keeps_set,
    made_link_joins,
    linking_keeps_joined,
    adding_keeps_joined,
}

} // verus!
