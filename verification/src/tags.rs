//! Tag mappings and translation of BBR attribute codes into tag values.
//!
//! A tag mapping is a list of key/value pairs; inserting replaces the first
//! pair with the same key or appends a new pair. The translations are total
//! over the code space: codes outside the known tables contribute nothing.

use vstd::prelude::*;

verus! {

use crate::numfmt::dec_rep;
use crate::records::BbrBuilding;

/// The colour tag value for a wall material code.
pub open spec fn wall_colour_of(code: i32) -> Option<Seq<char>> {
    if code == 1 { Some("#b5451b"@) }
    else if code == 2 { Some("#c8c0b8"@) }
    else if code == 3 { Some("#b0b0b0"@) }
    else if code == 4 { Some("#c8a050"@) }
    else if code == 5 { Some("#a07040"@) }
    else if code == 6 { Some("#909090"@) }
    else if code == 7 { Some("#d8c8a0"@) }
    else if code == 8 { Some("#808890"@) }
    else if code == 10 { Some("#d0e8f0"@) }
    else if code == 11 { Some("#e8e0d0"@) }
    else if code == 12 { Some("#f0e8d0"@) }
    else { None }
}

/// Translate a BBR wall material code to a building colour tag value
/// (a hex colour). Unknown codes map to `None`.
pub fn bbr_wall_material_to_colour(code: i32) -> (r: Option<&'static str>)
    ensures
        r is Some <==> wall_colour_of(code) is Some,
        r is Some ==> r->0@ == wall_colour_of(code)->0,
{
    match code {
        1 => Some("#b5451b"),
        2 => Some("#c8c0b8"),
        3 => Some("#b0b0b0"),
        4 => Some("#c8a050"),
        5 => Some("#a07040"),
        6 => Some("#909090"),
        7 => Some("#d8c8a0"),
        8 => Some("#808890"),
        10 => Some("#d0e8f0"),
        11 => Some("#e8e0d0"),
        12 => Some("#f0e8d0"),
        _ => None,
    }
}

/// The roof shape tag value for a roof covering code.
pub open spec fn roof_shape_of(code: i32) -> Option<Seq<char>> {
    if code == 1 || code == 2 || code == 11 || code == 20 { Some("flat"@) }
    else if code == 3 || code == 4 || code == 5 || code == 6 { Some("gabled"@) }
    else if code == 7 || code == 12 { Some("hipped"@) }
    else { None }
}

/// The roof material tag value for a roof covering code.
pub open spec fn roof_material_of(code: i32) -> Option<Seq<char>> {
    if code == 4 || code == 5 { Some("tile"@) }
    else if code == 6 { Some("metal"@) }
    else if code == 7 { Some("thatch"@) }
    else if code == 10 { Some("glass"@) }
    else if code == 12 { Some("slate"@) }
    else { None }
}

/// Roof tags derived from a roof covering code: an optional shape and an
/// optional material.
#[derive(Clone, Copy, Debug)]
pub struct RoofTags {
    pub shape: Option<&'static str>,
    pub material: Option<&'static str>,
}

/// Translate a BBR roof covering code to roof tags: a shape (the larger
/// visual impact) and, where applicable, a material. Unknown codes yield
/// no tags.
pub fn bbr_roof_to_tags(code: i32) -> (r: RoofTags)
    ensures
        r.shape is Some <==> roof_shape_of(code) is Some,
        r.shape is Some ==> r.shape->0@ == roof_shape_of(code)->0,
        r.material is Some <==> roof_material_of(code) is Some,
        r.material is Some ==> r.material->0@ == roof_material_of(code)->0,
{
    match code {
        1 => RoofTags { shape: Some("flat"), material: None },
        2 => RoofTags { shape: Some("flat"), material: None },
        3 => RoofTags { shape: Some("gabled"), material: None },
        4 => RoofTags { shape: Some("gabled"), material: Some("tile") },
        5 => RoofTags { shape: Some("gabled"), material: Some("tile") },
        6 => RoofTags { shape: Some("gabled"), material: Some("metal") },
        7 => RoofTags { shape: Some("hipped"), material: Some("thatch") },
        10 => RoofTags { shape: None, material: Some("glass") },
        11 => RoofTags { shape: Some("flat"), material: None },
        12 => RoofTags { shape: Some("hipped"), material: Some("slate") },
        20 => RoofTags { shape: Some("flat"), material: None },
        _ => RoofTags { shape: None, material: None },
    }
}

/// The building type tag value for a building use code.
pub open spec fn building_type_of(code: i32) -> Option<Seq<char>> {
    if code == 110 || code == 120 { Some("house"@) }
    else if code == 121 { Some("semidetached_house"@) }
    else if code == 130 || code == 131 || code == 132 || code == 140 { Some("apartments"@) }
    else if code == 150 || code == 160 || (185 <= code && code <= 190) { Some("residential"@) }
    else if (310 <= code && code <= 319) || (340 <= code && code <= 349)
        || (360 <= code && code <= 379) || (390 <= code && code <= 399) { Some("commercial"@) }
    else if 320 <= code && code <= 329 { Some("office"@) }
    else if 330 <= code && code <= 339 { Some("hotel"@) }
    else if 350 <= code && code <= 359 { Some("retail"@) }
    else if (410 <= code && code <= 429) || (440 <= code && code <= 449)
        || (710 <= code && code <= 729) { Some("industrial"@) }
    else if 430 <= code && code <= 439 { Some("warehouse"@) }
    else if (510 <= code && code <= 519) || (550 <= code && code <= 559) { Some("school"@) }
    else if 520 <= code && code <= 529 { Some("university"@) }
    else if 530 <= code && code <= 539 { Some("hospital"@) }
    else if (540 <= code && code <= 549) || (590 <= code && code <= 599)
        || (610 <= code && code <= 629) { Some("public"@) }
    else if code == 585 { Some("church"@) }
    else if 910 <= code && code <= 919 { Some("farm"@) }
    else if 920 <= code && code <= 929 { Some("farm_auxiliary"@) }
    else if code == 930 || code == 950 { Some("shed"@) }
    else if code == 940 { Some("garage"@) }
    else { None }
}

/// Translate a BBR building use code to a building type tag value.
/// Unknown codes map to `None`.
pub fn bbr_anvendelse_to_building_type(code: i32) -> (r: Option<&'static str>)
    ensures
        r is Some <==> building_type_of(code) is Some,
        r is Some ==> r->0@ == building_type_of(code)->0,
{
    if code == 110 || code == 120 {
        Some("house")
    } else if code == 121 {
        Some("semidetached_house")
    } else if code == 130 || code == 131 || code == 132 || code == 140 {
        Some("apartments")
    } else if code == 150 || code == 160 || (185 <= code && code <= 190) {
        Some("residential")
    } else if (310 <= code && code <= 319) || (340 <= code && code <= 349)
        || (360 <= code && code <= 379) || (390 <= code && code <= 399) {
        Some("commercial")
    } else if 320 <= code && code <= 329 {
        Some("office")
    } else if 330 <= code && code <= 339 {
        Some("hotel")
    } else if 350 <= code && code <= 359 {
        Some("retail")
    } else if (410 <= code && code <= 429) || (440 <= code && code <= 449)
        || (710 <= code && code <= 729) {
        Some("industrial")
    } else if 430 <= code && code <= 439 {
        Some("warehouse")
    } else if (510 <= code && code <= 519) || (550 <= code && code <= 559) {
        Some("school")
    } else if 520 <= code && code <= 529 {
        Some("university")
    } else if 530 <= code && code <= 539 {
        Some("hospital")
    } else if (540 <= code && code <= 549) || (590 <= code && code <= 599)
        || (610 <= code && code <= 629) {
        Some("public")
    } else if code == 585 {
        Some("church")
    } else if 910 <= code && code <= 919 {
        Some("farm")
    } else if 920 <= code && code <= 929 {
        Some("farm_auxiliary")
    } else if code == 930 || code == 950 {
        Some("shed")
    } else if code == 940 {
        Some("garage")
    } else {
        None
    }
}

/// The key/value views of a tag list.
pub open spec fn tags_view(tags: Seq<(String, String)>) -> Seq<(Seq<char>, Seq<char>)> {
    tags.map_values(|p: (String, String)| (p.0@, p.1@))
}

/// Some pair of the tag list has this key.
pub open spec fn tag_has_key(tv: Seq<(Seq<char>, Seq<char>)>, key: Seq<char>) -> bool {
    exists|i: int| 0 <= i < tv.len() && #[trigger] tv[i].0 == key
}

/// `new_tv` is `old_tv` with `key` set to `val`: the first pair bearing the
/// key replaced, or a new pair appended where no pair bears it.
pub open spec fn spec_tag_inserted(
    old_tv: Seq<(Seq<char>, Seq<char>)>,
    new_tv: Seq<(Seq<char>, Seq<char>)>,
    key: Seq<char>,
    val: Seq<char>,
) -> bool {
    if tag_has_key(old_tv, key) {
        exists|i: int|
            {
                &&& 0 <= i < old_tv.len()
                &&& #[trigger] old_tv[i].0 == key
                &&& (forall|j: int| 0 <= j < i ==> #[trigger] old_tv[j].0 != key)
                &&& new_tv == old_tv.update(i, (key, val))
            }
    } else {
        new_tv == old_tv.push((key, val))
    }
}

/// Set `key` to `value` in the tag list: replace the first pair bearing the
/// key, or append a new pair.
pub fn insert_tag(tags: &mut Vec<(String, String)>, key: String, value: String)
    ensures
        spec_tag_inserted(tags_view(old(tags)@), tags_view(final(tags)@), key@, value@),
{
    let ghost old_tags = tags@;
    let ghost kview = key@;
    let ghost vview = value@;
    let mut i: usize = 0;
    while i < tags.len()
        invariant
            i <= tags@.len(),
            tags@ == old_tags,
            old_tags == old(tags)@,
            key@ == kview,
            value@ == vview,
            forall|j: int| 0 <= j < i ==> #[trigger] tags_view(tags@)[j].0 != key@,
        decreases tags@.len() - i,
    {
        let p = &tags[i];
        if p.0.eq(&key) {
            proof {
                assert(tags@[i as int].0@ == kview);
                assert(tags_view(old_tags)[i as int].0 == kview);
            }
            tags.set(i, (key, value));
            proof {
                let otv = tags_view(old_tags);
                assert(tags_view(tags@) =~= otv.update(i as int, (kview, vview)));
                assert(tag_has_key(otv, kview));
                assert({
                    &&& 0 <= (i as int) && (i as int) < otv.len()
                    &&& otv[i as int].0 == kview
                    &&& (forall|j: int| 0 <= j < i as int ==> #[trigger] otv[j].0 != kview)
                    &&& tags_view(tags@) == otv.update(i as int, (kview, vview))
                });
                assert(spec_tag_inserted(otv, tags_view(tags@), kview, vview));
            }
            return;
        }
        i = i + 1;
    }
    tags.push((key, value));
    proof {
        assert(!tag_has_key(tags_view(old_tags), kview));
        assert(tags_view(tags@) =~= tags_view(old_tags).push((kview, vview)));
    }
}

/// Does any tag of the list bear this key?
pub fn tags_contain_key(tags: &Vec<(String, String)>, key: &String) -> (r: bool)
    ensures
        r == tag_has_key(tags_view(tags@), key@),
{
    let mut i: usize = 0;
    while i < tags.len()
        invariant
            i <= tags@.len(),
            forall|j: int| 0 <= j < i ==> #[trigger] tags_view(tags@)[j].0 != key@,
        decreases tags@.len() - i,
    {
        let p = &tags[i];
        if p.0.eq(key) {
            proof {
                assert(tags_view(tags@)[i as int].0 == key@);
            }
            return true;
        }
        i = i + 1;
    }
    false
}

/// The floor-count override applies: the record carries a floor count of at
/// least one.
pub open spec fn levels_applies(b: BbrBuilding) -> bool {
    b.antal_etager matches Some(l) && l >= 1
}

/// `t1` is `t0` after the floor-count override.
pub open spec fn levels_applied(
    t0: Seq<(Seq<char>, Seq<char>)>,
    t1: Seq<(Seq<char>, Seq<char>)>,
    b: BbrBuilding,
) -> bool {
    if levels_applies(b) {
        spec_tag_inserted(t0, t1, "building:levels"@, dec_rep(b.antal_etager->0 as nat))
    } else {
        t1 == t0
    }
}

/// `t1` is `t0` after the wall-colour override.
pub open spec fn colour_applied(
    t0: Seq<(Seq<char>, Seq<char>)>,
    t1: Seq<(Seq<char>, Seq<char>)>,
    b: BbrBuilding,
) -> bool {
    match b.ydervaegs_materiale {
        Some(code) => match wall_colour_of(code) {
            Some(c) => spec_tag_inserted(t0, t1, "building:colour"@, c),
            None => t1 == t0,
        },
        None => t1 == t0,
    }
}

/// `t1` is `t0` after the roof-shape override.
pub open spec fn roof_shape_applied(
    t0: Seq<(Seq<char>, Seq<char>)>,
    t1: Seq<(Seq<char>, Seq<char>)>,
    code: i32,
) -> bool {
    match roof_shape_of(code) {
        Some(s) => spec_tag_inserted(t0, t1, "roof:shape"@, s),
        None => t1 == t0,
    }
}

/// `t2` is `t0` after the roof overrides: shape, then material.
pub open spec fn roof_applied(
    t0: Seq<(Seq<char>, Seq<char>)>,
    t2: Seq<(Seq<char>, Seq<char>)>,
    b: BbrBuilding,
) -> bool {
    match b.tagdaekning {
        Some(code) => exists|t1: Seq<(Seq<char>, Seq<char>)>|
            {
                &&& #[trigger] roof_shape_applied(t0, t1, code)
                &&& match roof_material_of(code) {
                    Some(m) => spec_tag_inserted(t1, t2, "roof:material"@, m),
                    None => t2 == t1,
                }
            },
        None => t2 == t0,
    }
}

/// `t1` is `t0` after the building-type override.
pub open spec fn building_type_applied(
    t0: Seq<(Seq<char>, Seq<char>)>,
    t1: Seq<(Seq<char>, Seq<char>)>,
    b: BbrBuilding,
) -> bool {
    match b.anvendelse {
        Some(code) => match building_type_of(code) {
            Some(t) => spec_tag_inserted(t0, t1, "building"@, t),
            None => t1 == t0,
        },
        None => t1 == t0,
    }
}

/// `t3` is `t1` after the roof and building-type overrides.
pub open spec fn roof_then_type_applied(
    t1: Seq<(Seq<char>, Seq<char>)>,
    t3: Seq<(Seq<char>, Seq<char>)>,
    b: BbrBuilding,
) -> bool {
    exists|t2: Seq<(Seq<char>, Seq<char>)>|
        #[trigger] roof_applied(t1, t2, b) && building_type_applied(t2, t3, b)
}

/// `tn` is `t0` after all four overrides of a matched record, in order:
/// floor count, wall colour, roof tags, building type.
pub open spec fn overrides_applied(
    t0: Seq<(Seq<char>, Seq<char>)>,
    tn: Seq<(Seq<char>, Seq<char>)>,
    b: BbrBuilding,
) -> bool {
    exists|t1: Seq<(Seq<char>, Seq<char>)>|
        {
            &&& #[trigger] levels_applied(t0, t1, b)
            &&& exists|t2: Seq<(Seq<char>, Seq<char>)>|
                #[trigger] colour_applied(t1, t2, b) && roof_then_type_applied(t2, tn, b)
        }
}

/// At least one override of the record contributes a tag.
pub open spec fn spec_did_enrich(b: BbrBuilding) -> bool {
    ||| levels_applies(b)
    ||| (b.ydervaegs_materiale matches Some(c) && wall_colour_of(c) is Some)
    ||| (b.tagdaekning matches Some(c) && (roof_shape_of(c) is Some || roof_material_of(c)
        is Some))
    ||| (b.anvendelse matches Some(c) && building_type_of(c) is Some)
}

/// Apply the overrides of a matched record to an entity's tags: each of the
/// four attributes is applied independently where present and recognized.
/// Returns whether any tag was contributed.
pub fn apply_overrides(tags: &mut Vec<(String, String)>, b: &BbrBuilding) -> (did: bool)
    ensures
        overrides_applied(tags_view(old(tags)@), tags_view(final(tags)@), *b),
        did == spec_did_enrich(*b),
{
    let ghost t0 = tags_view(tags@);
    let mut did = false;
    match b.antal_etager {
        Some(l) => {
            if l >= 1 {
                insert_tag(tags, "building:levels".to_owned(), crate::numfmt::u64_to_string(
                    l as u64,
                ));
                did = true;
            }
        },
        None => {},
    }
    let ghost t1 = tags_view(tags@);
    proof {
        assert(levels_applied(t0, t1, *b));
    }
    match b.ydervaegs_materiale {
        Some(code) => match bbr_wall_material_to_colour(code) {
            Some(colour) => {
                insert_tag(tags, "building:colour".to_owned(), colour.to_owned());
                did = true;
            },
            None => {},
        },
        None => {},
    }
    let ghost t2 = tags_view(tags@);
    proof {
        assert(colour_applied(t1, t2, *b));
    }
    match b.tagdaekning {
        Some(code) => {
            let roof = bbr_roof_to_tags(code);
            match roof.shape {
                Some(s) => {
                    insert_tag(tags, "roof:shape".to_owned(), s.to_owned());
                    did = true;
                },
                None => {},
            }
            let ghost tmid = tags_view(tags@);
            proof {
                assert(roof_shape_applied(t2, tmid, code));
            }
            match roof.material {
                Some(m) => {
                    insert_tag(tags, "roof:material".to_owned(), m.to_owned());
                    did = true;
                },
                None => {},
            }
        },
        None => {},
    }
    let ghost t3 = tags_view(tags@);
    proof {
        assert(roof_applied(t2, t3, *b));
    }
    match b.anvendelse {
        Some(code) => match bbr_anvendelse_to_building_type(code) {
            Some(btype) => {
                insert_tag(tags, "building".to_owned(), btype.to_owned());
                did = true;
            },
            None => {},
        },
        None => {},
    }
    let ghost t4 = tags_view(tags@);
    proof {
        assert(building_type_applied(t3, t4, *b));
        assert(roof_then_type_applied(t2, t4, *b));
        assert(colour_applied(t1, t2, *b) && roof_then_type_applied(t2, t4, *b));
        assert(overrides_applied(t0, t4, *b));
    }
    did
}

} // verus!
