use vstd::prelude::*;
use crate::resource_type::ResourceType;
use crate::seqs::keep;
use crate::text::{lowercase, seq_contains};

verus! {

/// The number of single-character insertions, deletions and substitutions needed to
/// turn `a` into `b` (the Levenshtein distance).
pub open spec fn edit_distance(a: Seq<char>, b: Seq<char>) -> nat
    decreases a.len() + b.len(),
{
    if a.len() == 0 {
        b.len()
    } else if b.len() == 0 {
        a.len()
    } else {
        let del = edit_distance(a.drop_last(), b) + 1;
        let ins = edit_distance(a, b.drop_last()) + 1;
        let sub = edit_distance(a.drop_last(), b.drop_last()) + (if a.last() == b.last() { 0nat } else { 1nat });
        if del <= ins && del <= sub {
            del
        } else if ins <= sub {
            ins
        } else {
            sub
        }
    }
}

/// Calls `strsim::levenshtein`, which computes, over the characters of both strings,
/// the least number of insertions, deletions and substitutions that turn one into the
/// other: `edit_distance`.
#[verifier::external_body]
fn levenshtein(a: &str, b: &str) -> (r: usize)
    ensures
        r == edit_distance(a@, b@),
{
    strsim::levenshtein(a, b)
}

/// The number of bytes of a text in UTF-8.
pub open spec fn byte_len(s: Seq<char>) -> nat {
    vstd::utf8::encode_utf8(s).len()
}

/// The greatest distance at which two texts may still be alike, by the length (in
/// bytes) of the longer one.
pub open spec fn max_allowed_distance(longer_len: nat) -> nat {
    if longer_len <= 3 {
        0
    } else if longer_len <= 6 {
        2
    } else if longer_len <= 10 {
        3
    } else {
        4
    }
}

/// Two non-empty texts are alike: equal; or the shorter (of at least 3 bytes) occurs in the
/// longer and is at least half as long; or they are within the allowed distance of each
/// other, and within a quarter (rounded up) of the longer one's length.
pub open spec fn alike(s1: Seq<char>, s2: Seq<char>) -> bool {
    let l1 = byte_len(s1);
    let l2 = byte_len(s2);
    if l1 == 0 || l2 == 0 {
        false
    } else {
        let shorter = if l1 <= l2 { s1 } else { s2 };
        let longer = if l1 <= l2 { s2 } else { s1 };
        let sl = if l1 <= l2 { l1 } else { l2 };
        let ll = if l1 <= l2 { l2 } else { l1 };
        if shorter == longer {
            true
        } else if sl >= 3 && seq_contains(longer, shorter) && 2 * sl >= ll {
            true
        } else {
            let d = edit_distance(s1, s2);
            d <= max_allowed_distance(ll) && d <= (ll + 3) / 4
        }
    }
}

/// Whether two texts are alike (see `alike`).
pub fn is_approximately_similar(s1: &str, s2: &str) -> (r: bool)
    ensures
        r == alike(s1@, s2@),
{
    let len1 = s1.as_bytes().len();
    let len2 = s2.as_bytes().len();
    if len1 == 0 || len2 == 0 {
        return false;
    }
    let (shorter, longer, shorter_len, longer_len) = if len1 <= len2 {
        (s1, s2, len1, len2)
    } else {
        (s2, s1, len2, len1)
    };
    if crate::text::str_eq(shorter, longer) {
        return true;
    }
    if shorter_len >= 3 && crate::text::str_contains(longer, shorter) && shorter_len <= longer_len
        && longer_len - shorter_len <= shorter_len {
        return true;
    }
    let max_allowed: usize = if longer_len <= 3 {
        0
    } else if longer_len <= 6 {
        2
    } else if longer_len <= 10 {
        3
    } else {
        4
    };
    let distance = levenshtein(s1, s2);
    if distance <= max_allowed {
        let threshold = longer_len / 4 + (if longer_len % 4 == 0 { 0 } else { 1 });
        assert(threshold == (longer_len + 3) / 4);
        if distance <= threshold {
            return true;
        }
    }
    false
}

/// An ASCII letter or digit.
pub open spec fn is_ascii_alnum(c: char) -> bool {
    ('a' <= c && c <= 'z') || ('A' <= c && c <= 'Z') || ('0' <= c && c <= '9')
}

/// A lowercase text with all but its ASCII letters and digits removed.
pub open spec fn alnum_only(lower: Seq<char>) -> Seq<char> {
    keep(lower, |c: char| is_ascii_alnum(c))
}

/// The form a query is compared in: lowercase, ASCII letters and digits only.
pub open spec fn normalized_query(q: Seq<char>) -> Seq<char> {
    alnum_only(lowercase(q))
}

/// Keeps the ASCII letters and digits of a text that is already lowercase.
pub fn normalize_lowered(lower: &str) -> (r: String)
    ensures
        r@ == alnum_only(lower@),
{
    let cs = crate::text::chars_of(lower);
    let mut out: Vec<char> = Vec::new();
    let mut i: usize = 0;
    while i < cs.len()
        invariant
            i <= cs.len(),
            cs@ == lower@,
            out@ == keep(lower@.take(i as int), |c: char| is_ascii_alnum(c)),
        decreases cs.len() - i,
    {
        proof {
            crate::seqs::lemma_keep_step(lower@, |c: char| is_ascii_alnum(c), i as int);
        }
        let c = cs[i];
        if ('a' <= c && c <= 'z') || ('A' <= c && c <= 'Z') || ('0' <= c && c <= '9') {
            out.push(c);
        }
        i = i + 1;
    }
    assert(lower@.take(cs.len() as int) =~= lower@);
    crate::text::string_from_chars(&out)
}

/// The form a query is compared in (see `normalized_query`).
pub fn normalize(query: String) -> (r: String)
    ensures
        r@ == normalized_query(query@),
{
    let lower = crate::text::to_lowercase(query.as_str());
    normalize_lowered(lower.as_str())
}

/// The abstract value of a known item.
#[verifier::ext_equal]
pub struct SupplyModel {
    pub main_name: Seq<char>,
    pub normalized_main_name: Seq<char>,
    pub normalized_synonyms: Seq<Seq<char>>,
    pub primary_resource_types: Seq<ResourceType>,
}

/// A well-known project: its name, other names it is searched by (in compared form) and
/// the types it mainly comes as.
#[derive(Debug)]
pub struct SupplyItemDefinition {
    pub main_name: String,
    pub normalized_main_name: String,
    pub normalized_synonyms: Vec<String>,
    pub primary_resource_types: Vec<ResourceType>,
}

impl View for SupplyItemDefinition {
    type V = SupplyModel;

    open spec fn view(&self) -> SupplyModel {
        SupplyModel {
            main_name: self.main_name@,
            normalized_main_name: self.normalized_main_name@,
            normalized_synonyms: self.normalized_synonyms@.map_values(|s: String| s@),
            primary_resource_types: self.primary_resource_types@,
        }
    }
}

/// A query (in compared form) matches an item when it is alike its name or one of its
/// other names.
pub open spec fn item_matches(q: Seq<char>, m: SupplyModel) -> bool {
    alike(q, m.normalized_main_name) || exists|i: int|
        0 <= i < m.normalized_synonyms.len() && alike(q, #[trigger] m.normalized_synonyms[i])
}

/// The item an entry of the catalogue describes: its name and other names in compared form.
pub open spec fn supply_model(main: Seq<char>, synonyms: Seq<Seq<char>>, types: Seq<ResourceType>) -> SupplyModel {
    SupplyModel {
        main_name: main,
        normalized_main_name: normalized_query(main),
        normalized_synonyms: synonyms.map_values(|s: Seq<char>| normalized_query(s)),
        primary_resource_types: types,
    }
}

impl SupplyItemDefinition {
    pub fn new(main_name: &str, synonyms: Vec<&str>, primary_types: Vec<ResourceType>) -> (r: SupplyItemDefinition)
        ensures
            r@ == supply_model(main_name@, synonyms@.map_values(|s: &str| s@), primary_types@),
    {
        let normalized_main_name = normalize(crate::text::owned(main_name));
        let mut normalized_synonyms: Vec<String> = Vec::new();
        let mut i: usize = 0;
        while i < synonyms.len()
            invariant
                i <= synonyms.len(),
                normalized_synonyms@.map_values(|s: String| s@) == synonyms@.take(i as int).map_values(
                    |s: &str| normalized_query(s@),
                ),
            decreases synonyms.len() - i,
        {
            let n = normalize(crate::text::owned(synonyms[i]));
            let ghost f = |s: &str| normalized_query(s@);
            assert(synonyms@.take(i + 1).map_values(f) =~= synonyms@.take(i as int).map_values(f).push(
                f(synonyms@[i as int]),
            ));
            normalized_synonyms.push(n);
            assert(synonyms@.take(i + 1) =~= synonyms@.take(i as int).push(synonyms@[i as int]));
            assert(normalized_synonyms@.map_values(|s: String| s@) =~= synonyms@.take(i + 1).map_values(
                |s: &str| normalized_query(s@),
            ));
            i = i + 1;
        }
        assert(synonyms@.take(synonyms.len() as int) =~= synonyms@);
        let r = SupplyItemDefinition {
            main_name: crate::text::owned(main_name),
            normalized_main_name,
            normalized_synonyms,
            primary_resource_types: primary_types,
        };
        assert(r@.normalized_synonyms =~= synonyms@.map_values(|s: &str| s@).map_values(
            |s: Seq<char>| normalized_query(s),
        ));
        r
    }

    /// Whether a query (in compared form) matches this item (see `item_matches`).
    pub fn matches_query(&self, normalized_query: &str) -> (r: bool)
        ensures
            r == item_matches(normalized_query@, self@),
    {
        if is_approximately_similar(normalized_query, self.normalized_main_name.as_str()) {
            return true;
        }
        let mut i: usize = 0;
        while i < self.normalized_synonyms.len()
            invariant
                i <= self.normalized_synonyms.len(),
                !alike(normalized_query@, self@.normalized_main_name),
                forall|j: int| 0 <= j < i ==> !alike(normalized_query@, #[trigger] self@.normalized_synonyms[j]),
            decreases self.normalized_synonyms.len() - i,
        {
            if is_approximately_similar(normalized_query, self.normalized_synonyms[i].as_str()) {
                assert(self@.normalized_synonyms[i as int] == self.normalized_synonyms@[i as int]@);
                return true;
            }
            assert(self@.normalized_synonyms[i as int] == self.normalized_synonyms@[i as int]@);
            i = i + 1;
        }
        false
    }
}

/// The suggestion for a query: the first item (in catalogue order) that the query
/// matches, that does not come as the current type and that has a type; its first type
/// and its name. None for an empty query or when no item qualifies.
pub open spec fn suggestion(q: Seq<char>, items: Seq<SupplyModel>, current: ResourceType) -> Option<(ResourceType, Seq<char>)>
    decreases items.len(),
{
    if q.len() == 0 || items.len() == 0 {
        None
    } else {
        let m = items[0];
        if item_matches(q, m) && !m.primary_resource_types.contains(current) && m.primary_resource_types.len() > 0 {
            Some((m.primary_resource_types[0], m.main_name))
        } else {
            suggestion(q, items.drop_first(), current)
        }
    }
}

/// A suggestion never points at the type the user is already looking at: it names an
/// item that the query matches and none of whose primary types is the current type, and
/// it offers that item's first type. When every item that the query matches comes as the
/// current type (among others or alone), nothing is suggested. The item is the first of
/// the catalogue that qualifies, and one is suggested whenever some item qualifies and
/// the query is not empty; an empty query gets none.
pub proof fn law_suggestion_is_other_type(q: Seq<char>, items: Seq<SupplyModel>, current: ResourceType)
    ensures
        suggestion(q, items, current) matches Some(r) ==> r.0 != current && exists|i: int|
            0 <= i < items.len() && item_matches(q, #[trigger] items[i]) && items[i].main_name == r.1
                && !items[i].primary_resource_types.contains(current)
                && items[i].primary_resource_types.len() > 0
                && r.0 == items[i].primary_resource_types[0]
                && forall|j: int| 0 <= j < i ==> !(item_matches(q, #[trigger] items[j])
                    && !items[j].primary_resource_types.contains(current)
                    && items[j].primary_resource_types.len() > 0),
        (forall|i: int| 0 <= i < items.len() && item_matches(q, #[trigger] items[i])
            ==> items[i].primary_resource_types.contains(current)) ==> suggestion(q, items, current) is None,
        (q.len() > 0 && exists|i: int| 0 <= i < items.len() && item_matches(q, #[trigger] items[i])
            && !items[i].primary_resource_types.contains(current) && items[i].primary_resource_types.len() > 0)
            ==> suggestion(q, items, current) is Some,
        q.len() == 0 ==> suggestion(q, items, current) is None,
    decreases items.len(),
{
    if q.len() > 0 && items.len() > 0 {
        let m = items[0];
        if item_matches(q, m) && !m.primary_resource_types.contains(current) && m.primary_resource_types.len() > 0 {
            if m.primary_resource_types[0] == current {
                assert(m.primary_resource_types.contains(current));
            }
            assert(item_matches(q, items[0]));
        } else {
            let rest = items.drop_first();
            law_suggestion_is_other_type(q, rest, current);
            if let Some(r) = suggestion(q, rest, current) {
                let i = choose|i: int|
                    0 <= i < rest.len() && item_matches(q, #[trigger] rest[i]) && rest[i].main_name == r.1
                        && !rest[i].primary_resource_types.contains(current)
                        && rest[i].primary_resource_types.len() > 0
                        && r.0 == rest[i].primary_resource_types[0]
                        && forall|j: int| 0 <= j < i ==> !(item_matches(q, #[trigger] rest[j])
                            && !rest[j].primary_resource_types.contains(current)
                            && rest[j].primary_resource_types.len() > 0);
                assert(items[i + 1] == rest[i]);
                assert forall|j: int| 0 <= j < i + 1 implies !(item_matches(q, #[trigger] items[j])
                    && !items[j].primary_resource_types.contains(current)
                    && items[j].primary_resource_types.len() > 0) by {
                    if j > 0 {
                        assert(items[j] == rest[j - 1]);
                    }
                }
            }
            if exists|i: int| 0 <= i < items.len() && item_matches(q, #[trigger] items[i])
                && !items[i].primary_resource_types.contains(current) && items[i].primary_resource_types.len() > 0 {
                let i = choose|i: int| 0 <= i < items.len() && item_matches(q, #[trigger] items[i])
                    && !items[i].primary_resource_types.contains(current) && items[i].primary_resource_types.len() > 0;
                assert(i > 0);
                assert(items[i] == rest[i - 1]);
            }
            if forall|i: int| 0 <= i < items.len() && item_matches(q, #[trigger] items[i])
                ==> items[i].primary_resource_types.contains(current) {
                assert forall|i: int| 0 <= i < rest.len() && item_matches(q, #[trigger] rest[i])
                    implies rest[i].primary_resource_types.contains(current) by {
                    assert(items[i + 1] == rest[i]);
                }
            }
        }
    }
}

pub open spec fn supply_models(v: Seq<SupplyItemDefinition>) -> Seq<SupplyModel> {
    v.map_values(|d: SupplyItemDefinition| d@)
}

/// Whether a type is among the types.
fn has_type(v: &Vec<ResourceType>, t: ResourceType) -> (r: bool)
    ensures
        r == v@.contains(t),
{
    let mut i: usize = 0;
    while i < v.len()
        invariant
            i <= v.len(),
            forall|j: int| 0 <= j < i ==> v@[j] != t,
        decreases v.len() - i,
    {
        if v[i] == t {
            assert(v@[i as int] == t);
            return true;
        }
        i = i + 1;
    }
    false
}

/// The suggestion for a query already in compared form, among the given items (see
/// `suggestion`).
pub fn suggest_among(
    normalized: &str,
    items: &Vec<SupplyItemDefinition>,
    current_resource_type: ResourceType,
) -> (r: Option<(ResourceType, String)>)
    ensures
        match r {
            Some((t, name)) => suggestion(normalized@, supply_models(items@), current_resource_type) == Some(
                (t, name@),
            ),
            None => suggestion(normalized@, supply_models(items@), current_resource_type) is None,
        },
{
    let ghost q = normalized@;
    let ghost ms = supply_models(items@);
    if normalized.is_empty() {
        return None;
    }
    assert(ms.skip(0) =~= ms);
    let mut i: usize = 0;
    while i < items.len()
        invariant
            i <= items.len(),
            ms == supply_models(items@),
            q == normalized@,
            q.len() > 0,
            suggestion(q, ms, current_resource_type) == suggestion(q, ms.skip(i as int), current_resource_type),
        decreases items.len() - i,
    {
        let d = &items[i];
        assert(ms.skip(i as int)[0] == d@);
        assert(ms.skip(i as int).drop_first() =~= ms.skip(i + 1));
        if d.matches_query(normalized) && !has_type(&d.primary_resource_types, current_resource_type)
            && d.primary_resource_types.len() > 0 {
            let t = d.primary_resource_types[0];
            return Some((t, d.main_name.clone()));
        }
        i = i + 1;
    }
    None
}

/// Suggests another type for a search: when the query (in compared form) matches a
/// well-known project that does not come as the current type, that project's first type
/// and its name (see `suggestion`).
pub fn is_for_other_type(query: String, current_resource_type: &ResourceType) -> (r: Option<(ResourceType, String)>)
    ensures
        match r {
            Some((t, name)) => suggestion(normalized_query(query@), supply_catalogue(), *current_resource_type)
                == Some((t, name@)),
            None => suggestion(normalized_query(query@), supply_catalogue(), *current_resource_type) is None,
        },
{
    let normalized = normalize(query);
    let items = all_supply_items();
    suggest_among(normalized.as_str(), &items, *current_resource_type)
}

pub open spec fn catalogue_part0() -> Seq<SupplyModel> {
    seq![
        supply_model("Sodium"@, seq!["optifine alternative"@, "sodium mod"@, "sodium extra"@], seq![ResourceType::Mod]),
        supply_model("OptiFine"@, seq!["optifabric"@, "optiforge"@], seq![ResourceType::Mod]),
        supply_model("Fabric API"@, seq!["fabric"@, "fabric loader api"@], seq![ResourceType::Mod]),
        supply_model("Iris"@, seq!["iris shaders"@], seq![ResourceType::Mod]),
        supply_model("Mod Menu"@, Seq::<Seq<char>>::empty(), seq![ResourceType::Mod]),
        supply_model("Xaero's Minimap"@, Seq::<Seq<char>>::empty(), seq![ResourceType::Mod]),
        supply_model("Xaero's World Map"@, Seq::<Seq<char>>::empty(), seq![ResourceType::Mod]),
        supply_model("Entity Texture Features"@, seq!["etf"@], seq![ResourceType::Mod]),
        supply_model("Entity Model Features"@, seq!["emf"@], seq![ResourceType::Mod]),
        supply_model("Not Enough Animations"@, Seq::<Seq<char>>::empty(), seq![ResourceType::Mod]),
    ]
}

pub open spec fn catalogue_part1() -> Seq<SupplyModel> {
    seq![
        supply_model("Simple Voice Chat"@, Seq::<Seq<char>>::empty(), seq![ResourceType::Mod, ResourceType::Plugin]),
        supply_model("Faithful"@, seq!["faithful texture pack"@], seq![ResourceType::ResourcePack]),
        supply_model("Fresh Animations"@, seq!["fresh anims"@], seq![ResourceType::ResourcePack]),
        supply_model("Translations for Sodium"@, seq!["sodium translations"@], seq![ResourceType::ResourcePack]),
        supply_model("Dramatic Skys"@, seq!["Dramatic Skys texture pack"@], seq![ResourceType::ResourcePack]),
        supply_model("Fast Better Grass"@, Seq::<Seq<char>>::empty(), seq![ResourceType::ResourcePack]),
        supply_model("Better Leaves"@, seq!["Better Leaves texture pack"@], seq![ResourceType::ResourcePack]),
        supply_model("Fresh Moves"@, Seq::<Seq<char>>::empty(), seq![ResourceType::ResourcePack]),
        supply_model("Low Fire"@, Seq::<Seq<char>>::empty(), seq![ResourceType::ResourcePack]),
        supply_model("Default HD"@, Seq::<Seq<char>>::empty(), seq![ResourceType::ResourcePack]),
    ]
}

pub open spec fn catalogue_part2() -> Seq<SupplyModel> {
    seq![
        supply_model("Fullbright UB"@, seq!["fullbright"@], seq![ResourceType::ResourcePack]),
        supply_model("Barebones"@, Seq::<Seq<char>>::empty(), seq![ResourceType::ResourcePack]),
        supply_model("Complementary"@, seq!["complementary shaders"@], seq![ResourceType::Shader]),
        supply_model("BSL"@, seq!["bsl shaders"@], seq![ResourceType::Shader]),
        supply_model("bliss"@, seq!["bliss shaders"@], seq![ResourceType::Shader]),
        supply_model("Photon"@, seq!["photon shaders"@], seq![ResourceType::Shader]),
        supply_model("Solas"@, seq!["solas shaders"@], seq![ResourceType::Shader]),
        supply_model("Rethinking Voxels"@, seq!["voxels"@], seq![ResourceType::Shader]),
        supply_model("Veinminer"@, seq!["Veinminer Enchantment"@], seq![ResourceType::Datapack, ResourceType::Mod, ResourceType::Plugin]),
        supply_model("Terralith"@, Seq::<Seq<char>>::empty(), seq![ResourceType::Datapack, ResourceType::Mod]),
    ]
}

pub open spec fn catalogue_part3() -> Seq<SupplyModel> {
    seq![
        supply_model("Dungeons and Taverns"@, Seq::<Seq<char>>::empty(), seq![ResourceType::Datapack, ResourceType::Mod]),
        supply_model("Tectonic"@, Seq::<Seq<char>>::empty(), seq![ResourceType::Datapack, ResourceType::Mod]),
        supply_model("Geophilic"@, Seq::<Seq<char>>::empty(), seq![ResourceType::Datapack, ResourceType::Mod]),
        supply_model("Incendium"@, Seq::<Seq<char>>::empty(), seq![ResourceType::Datapack, ResourceType::Mod]),
        supply_model("Explorify"@, Seq::<Seq<char>>::empty(), seq![ResourceType::Datapack, ResourceType::Mod]),
        supply_model("Spawn Animations"@, Seq::<Seq<char>>::empty(), seq![ResourceType::Datapack, ResourceType::Mod]),
        supply_model("Dynamic Lights"@, Seq::<Seq<char>>::empty(), seq![ResourceType::Datapack, ResourceType::Mod]),
        supply_model("Timer Plugin"@, Seq::<Seq<char>>::empty(), seq![ResourceType::Plugin]),
        supply_model("CustomDeaths"@, Seq::<Seq<char>>::empty(), seq![ResourceType::Plugin]),
        supply_model("Essential"@, Seq::<Seq<char>>::empty(), seq![ResourceType::Plugin]),
    ]
}

pub open spec fn catalogue_part4() -> Seq<SupplyModel> {
    seq![
        supply_model("Multiplayer Gameplay"@, Seq::<Seq<char>>::empty(), seq![ResourceType::Plugin]),
        supply_model("Image Previewer"@, Seq::<Seq<char>>::empty(), seq![ResourceType::Plugin]),
        supply_model("Worldedit"@, Seq::<Seq<char>>::empty(), seq![ResourceType::Plugin, ResourceType::Mod]),
        supply_model("worldguard"@, Seq::<Seq<char>>::empty(), seq![ResourceType::Plugin]),
        supply_model("viaversion"@, seq!["via backwards"@, "via rewind"@], seq![ResourceType::Plugin, ResourceType::Mod]),
    ]
}

/// The well-known projects, in the order they are looked at.
pub open spec fn supply_catalogue() -> Seq<SupplyModel> {
    catalogue_part0() + catalogue_part1() + catalogue_part2() + catalogue_part3() + catalogue_part4()
}

fn catalogue_items0(v: &mut Vec<SupplyItemDefinition>)
    ensures
        supply_models(final(v)@) == supply_models(old(v)@) + catalogue_part0(),
{
    let ghost start = supply_models(v@);
    let syns: Vec<&str> = vec!["optifine alternative", "sodium mod", "sodium extra"];
    let types: Vec<ResourceType> = vec![ResourceType::Mod];
    assert(syns@.map_values(|s: &str| s@) =~= seq!["optifine alternative"@, "sodium mod"@, "sodium extra"@]);
    assert(types@ =~= seq![ResourceType::Mod]);
    let d = SupplyItemDefinition::new("Sodium", syns, types);
    assert(d@ == catalogue_part0()[0]);
    v.push(d);
    assert(supply_models(v@) =~= start + catalogue_part0().take(1));
    let syns: Vec<&str> = vec!["optifabric", "optiforge"];
    let types: Vec<ResourceType> = vec![ResourceType::Mod];
    assert(syns@.map_values(|s: &str| s@) =~= seq!["optifabric"@, "optiforge"@]);
    assert(types@ =~= seq![ResourceType::Mod]);
    let d = SupplyItemDefinition::new("OptiFine", syns, types);
    assert(d@ == catalogue_part0()[1]);
    v.push(d);
    assert(supply_models(v@) =~= start + catalogue_part0().take(2));
    let syns: Vec<&str> = vec!["fabric", "fabric loader api"];
    let types: Vec<ResourceType> = vec![ResourceType::Mod];
    assert(syns@.map_values(|s: &str| s@) =~= seq!["fabric"@, "fabric loader api"@]);
    assert(types@ =~= seq![ResourceType::Mod]);
    let d = SupplyItemDefinition::new("Fabric API", syns, types);
    assert(d@ == catalogue_part0()[2]);
    v.push(d);
    assert(supply_models(v@) =~= start + catalogue_part0().take(3));
    let syns: Vec<&str> = vec!["iris shaders"];
    let types: Vec<ResourceType> = vec![ResourceType::Mod];
    assert(syns@.map_values(|s: &str| s@) =~= seq!["iris shaders"@]);
    assert(types@ =~= seq![ResourceType::Mod]);
    let d = SupplyItemDefinition::new("Iris", syns, types);
    assert(d@ == catalogue_part0()[3]);
    v.push(d);
    assert(supply_models(v@) =~= start + catalogue_part0().take(4));
    let syns: Vec<&str> = vec![];
    let types: Vec<ResourceType> = vec![ResourceType::Mod];
    assert(syns@.map_values(|s: &str| s@) =~= Seq::<Seq<char>>::empty());
    assert(types@ =~= seq![ResourceType::Mod]);
    let d = SupplyItemDefinition::new("Mod Menu", syns, types);
    assert(d@ == catalogue_part0()[4]);
    v.push(d);
    assert(supply_models(v@) =~= start + catalogue_part0().take(5));
    let syns: Vec<&str> = vec![];
    let types: Vec<ResourceType> = vec![ResourceType::Mod];
    assert(syns@.map_values(|s: &str| s@) =~= Seq::<Seq<char>>::empty());
    assert(types@ =~= seq![ResourceType::Mod]);
    let d = SupplyItemDefinition::new("Xaero's Minimap", syns, types);
    assert(d@ == catalogue_part0()[5]);
    v.push(d);
    assert(supply_models(v@) =~= start + catalogue_part0().take(6));
    let syns: Vec<&str> = vec![];
    let types: Vec<ResourceType> = vec![ResourceType::Mod];
    assert(syns@.map_values(|s: &str| s@) =~= Seq::<Seq<char>>::empty());
    assert(types@ =~= seq![ResourceType::Mod]);
    let d = SupplyItemDefinition::new("Xaero's World Map", syns, types);
    assert(d@ == catalogue_part0()[6]);
    v.push(d);
    assert(supply_models(v@) =~= start + catalogue_part0().take(7));
    let syns: Vec<&str> = vec!["etf"];
    let types: Vec<ResourceType> = vec![ResourceType::Mod];
    assert(syns@.map_values(|s: &str| s@) =~= seq!["etf"@]);
    assert(types@ =~= seq![ResourceType::Mod]);
    let d = SupplyItemDefinition::new("Entity Texture Features", syns, types);
    assert(d@ == catalogue_part0()[7]);
    v.push(d);
    assert(supply_models(v@) =~= start + catalogue_part0().take(8));
    let syns: Vec<&str> = vec!["emf"];
    let types: Vec<ResourceType> = vec![ResourceType::Mod];
    assert(syns@.map_values(|s: &str| s@) =~= seq!["emf"@]);
    assert(types@ =~= seq![ResourceType::Mod]);
    let d = SupplyItemDefinition::new("Entity Model Features", syns, types);
    assert(d@ == catalogue_part0()[8]);
    v.push(d);
    assert(supply_models(v@) =~= start + catalogue_part0().take(9));
    let syns: Vec<&str> = vec![];
    let types: Vec<ResourceType> = vec![ResourceType::Mod];
    assert(syns@.map_values(|s: &str| s@) =~= Seq::<Seq<char>>::empty());
    assert(types@ =~= seq![ResourceType::Mod]);
    let d = SupplyItemDefinition::new("Not Enough Animations", syns, types);
    assert(d@ == catalogue_part0()[9]);
    v.push(d);
    assert(supply_models(v@) =~= start + catalogue_part0().take(10));
    assert(catalogue_part0().take(10) =~= catalogue_part0());
}

fn catalogue_items1(v: &mut Vec<SupplyItemDefinition>)
    ensures
        supply_models(final(v)@) == supply_models(old(v)@) + catalogue_part1(),
{
    let ghost start = supply_models(v@);
    let syns: Vec<&str> = vec![];
    let types: Vec<ResourceType> = vec![ResourceType::Mod, ResourceType::Plugin];
    assert(syns@.map_values(|s: &str| s@) =~= Seq::<Seq<char>>::empty());
    assert(types@ =~= seq![ResourceType::Mod, ResourceType::Plugin]);
    let d = SupplyItemDefinition::new("Simple Voice Chat", syns, types);
    assert(d@ == catalogue_part1()[0]);
    v.push(d);
    assert(supply_models(v@) =~= start + catalogue_part1().take(1));
    let syns: Vec<&str> = vec!["faithful texture pack"];
    let types: Vec<ResourceType> = vec![ResourceType::ResourcePack];
    assert(syns@.map_values(|s: &str| s@) =~= seq!["faithful texture pack"@]);
    assert(types@ =~= seq![ResourceType::ResourcePack]);
    let d = SupplyItemDefinition::new("Faithful", syns, types);
    assert(d@ == catalogue_part1()[1]);
    v.push(d);
    assert(supply_models(v@) =~= start + catalogue_part1().take(2));
    let syns: Vec<&str> = vec!["fresh anims"];
    let types: Vec<ResourceType> = vec![ResourceType::ResourcePack];
    assert(syns@.map_values(|s: &str| s@) =~= seq!["fresh anims"@]);
    assert(types@ =~= seq![ResourceType::ResourcePack]);
    let d = SupplyItemDefinition::new("Fresh Animations", syns, types);
    assert(d@ == catalogue_part1()[2]);
    v.push(d);
    assert(supply_models(v@) =~= start + catalogue_part1().take(3));
    let syns: Vec<&str> = vec!["sodium translations"];
    let types: Vec<ResourceType> = vec![ResourceType::ResourcePack];
    assert(syns@.map_values(|s: &str| s@) =~= seq!["sodium translations"@]);
    assert(types@ =~= seq![ResourceType::ResourcePack]);
    let d = SupplyItemDefinition::new("Translations for Sodium", syns, types);
    assert(d@ == catalogue_part1()[3]);
    v.push(d);
    assert(supply_models(v@) =~= start + catalogue_part1().take(4));
    let syns: Vec<&str> = vec!["Dramatic Skys texture pack"];
    let types: Vec<ResourceType> = vec![ResourceType::ResourcePack];
    assert(syns@.map_values(|s: &str| s@) =~= seq!["Dramatic Skys texture pack"@]);
    assert(types@ =~= seq![ResourceType::ResourcePack]);
    let d = SupplyItemDefinition::new("Dramatic Skys", syns, types);
    assert(d@ == catalogue_part1()[4]);
    v.push(d);
    assert(supply_models(v@) =~= start + catalogue_part1().take(5));
    let syns: Vec<&str> = vec![];
    let types: Vec<ResourceType> = vec![ResourceType::ResourcePack];
    assert(syns@.map_values(|s: &str| s@) =~= Seq::<Seq<char>>::empty());
    assert(types@ =~= seq![ResourceType::ResourcePack]);
    let d = SupplyItemDefinition::new("Fast Better Grass", syns, types);
    assert(d@ == catalogue_part1()[5]);
    v.push(d);
    assert(supply_models(v@) =~= start + catalogue_part1().take(6));
    let syns: Vec<&str> = vec!["Better Leaves texture pack"];
    let types: Vec<ResourceType> = vec![ResourceType::ResourcePack];
    assert(syns@.map_values(|s: &str| s@) =~= seq!["Better Leaves texture pack"@]);
    assert(types@ =~= seq![ResourceType::ResourcePack]);
    let d = SupplyItemDefinition::new("Better Leaves", syns, types);
    assert(d@ == catalogue_part1()[6]);
    v.push(d);
    assert(supply_models(v@) =~= start + catalogue_part1().take(7));
    let syns: Vec<&str> = vec![];
    let types: Vec<ResourceType> = vec![ResourceType::ResourcePack];
    assert(syns@.map_values(|s: &str| s@) =~= Seq::<Seq<char>>::empty());
    assert(types@ =~= seq![ResourceType::ResourcePack]);
    let d = SupplyItemDefinition::new("Fresh Moves", syns, types);
    assert(d@ == catalogue_part1()[7]);
    v.push(d);
    assert(supply_models(v@) =~= start + catalogue_part1().take(8));
    let syns: Vec<&str> = vec![];
    let types: Vec<ResourceType> = vec![ResourceType::ResourcePack];
    assert(syns@.map_values(|s: &str| s@) =~= Seq::<Seq<char>>::empty());
    assert(types@ =~= seq![ResourceType::ResourcePack]);
    let d = SupplyItemDefinition::new("Low Fire", syns, types);
    assert(d@ == catalogue_part1()[8]);
    v.push(d);
    assert(supply_models(v@) =~= start + catalogue_part1().take(9));
    let syns: Vec<&str> = vec![];
    let types: Vec<ResourceType> = vec![ResourceType::ResourcePack];
    assert(syns@.map_values(|s: &str| s@) =~= Seq::<Seq<char>>::empty());
    assert(types@ =~= seq![ResourceType::ResourcePack]);
    let d = SupplyItemDefinition::new("Default HD", syns, types);
    assert(d@ == catalogue_part1()[9]);
    v.push(d);
    assert(supply_models(v@) =~= start + catalogue_part1().take(10));
    assert(catalogue_part1().take(10) =~= catalogue_part1());
}

fn catalogue_items2(v: &mut Vec<SupplyItemDefinition>)
    ensures
        supply_models(final(v)@) == supply_models(old(v)@) + catalogue_part2(),
{
    let ghost start = supply_models(v@);
    let syns: Vec<&str> = vec!["fullbright"];
    let types: Vec<ResourceType> = vec![ResourceType::ResourcePack];
    assert(syns@.map_values(|s: &str| s@) =~= seq!["fullbright"@]);
    assert(types@ =~= seq![ResourceType::ResourcePack]);
    let d = SupplyItemDefinition::new("Fullbright UB", syns, types);
    assert(d@ == catalogue_part2()[0]);
    v.push(d);
    assert(supply_models(v@) =~= start + catalogue_part2().take(1));
    let syns: Vec<&str> = vec![];
    let types: Vec<ResourceType> = vec![ResourceType::ResourcePack];
    assert(syns@.map_values(|s: &str| s@) =~= Seq::<Seq<char>>::empty());
    assert(types@ =~= seq![ResourceType::ResourcePack]);
    let d = SupplyItemDefinition::new("Barebones", syns, types);
    assert(d@ == catalogue_part2()[1]);
    v.push(d);
    assert(supply_models(v@) =~= start + catalogue_part2().take(2));
    let syns: Vec<&str> = vec!["complementary shaders"];
    let types: Vec<ResourceType> = vec![ResourceType::Shader];
    assert(syns@.map_values(|s: &str| s@) =~= seq!["complementary shaders"@]);
    assert(types@ =~= seq![ResourceType::Shader]);
    let d = SupplyItemDefinition::new("Complementary", syns, types);
    assert(d@ == catalogue_part2()[2]);
    v.push(d);
    assert(supply_models(v@) =~= start + catalogue_part2().take(3));
    let syns: Vec<&str> = vec!["bsl shaders"];
    let types: Vec<ResourceType> = vec![ResourceType::Shader];
    assert(syns@.map_values(|s: &str| s@) =~= seq!["bsl shaders"@]);
    assert(types@ =~= seq![ResourceType::Shader]);
    let d = SupplyItemDefinition::new("BSL", syns, types);
    assert(d@ == catalogue_part2()[3]);
    v.push(d);
    assert(supply_models(v@) =~= start + catalogue_part2().take(4));
    let syns: Vec<&str> = vec!["bliss shaders"];
    let types: Vec<ResourceType> = vec![ResourceType::Shader];
    assert(syns@.map_values(|s: &str| s@) =~= seq!["bliss shaders"@]);
    assert(types@ =~= seq![ResourceType::Shader]);
    let d = SupplyItemDefinition::new("bliss", syns, types);
    assert(d@ == catalogue_part2()[4]);
    v.push(d);
    assert(supply_models(v@) =~= start + catalogue_part2().take(5));
    let syns: Vec<&str> = vec!["photon shaders"];
    let types: Vec<ResourceType> = vec![ResourceType::Shader];
    assert(syns@.map_values(|s: &str| s@) =~= seq!["photon shaders"@]);
    assert(types@ =~= seq![ResourceType::Shader]);
    let d = SupplyItemDefinition::new("Photon", syns, types);
    assert(d@ == catalogue_part2()[5]);
    v.push(d);
    assert(supply_models(v@) =~= start + catalogue_part2().take(6));
    let syns: Vec<&str> = vec!["solas shaders"];
    let types: Vec<ResourceType> = vec![ResourceType::Shader];
    assert(syns@.map_values(|s: &str| s@) =~= seq!["solas shaders"@]);
    assert(types@ =~= seq![ResourceType::Shader]);
    let d = SupplyItemDefinition::new("Solas", syns, types);
    assert(d@ == catalogue_part2()[6]);
    v.push(d);
    assert(supply_models(v@) =~= start + catalogue_part2().take(7));
    let syns: Vec<&str> = vec!["voxels"];
    let types: Vec<ResourceType> = vec![ResourceType::Shader];
    assert(syns@.map_values(|s: &str| s@) =~= seq!["voxels"@]);
    assert(types@ =~= seq![ResourceType::Shader]);
    let d = SupplyItemDefinition::new("Rethinking Voxels", syns, types);
    assert(d@ == catalogue_part2()[7]);
    v.push(d);
    assert(supply_models(v@) =~= start + catalogue_part2().take(8));
    let syns: Vec<&str> = vec!["Veinminer Enchantment"];
    let types: Vec<ResourceType> = vec![ResourceType::Datapack, ResourceType::Mod, ResourceType::Plugin];
    assert(syns@.map_values(|s: &str| s@) =~= seq!["Veinminer Enchantment"@]);
    assert(types@ =~= seq![ResourceType::Datapack, ResourceType::Mod, ResourceType::Plugin]);
    let d = SupplyItemDefinition::new("Veinminer", syns, types);
    assert(d@ == catalogue_part2()[8]);
    v.push(d);
    assert(supply_models(v@) =~= start + catalogue_part2().take(9));
    let syns: Vec<&str> = vec![];
    let types: Vec<ResourceType> = vec![ResourceType::Datapack, ResourceType::Mod];
    assert(syns@.map_values(|s: &str| s@) =~= Seq::<Seq<char>>::empty());
    assert(types@ =~= seq![ResourceType::Datapack, ResourceType::Mod]);
    let d = SupplyItemDefinition::new("Terralith", syns, types);
    assert(d@ == catalogue_part2()[9]);
    v.push(d);
    assert(supply_models(v@) =~= start + catalogue_part2().take(10));
    assert(catalogue_part2().take(10) =~= catalogue_part2());
}

fn catalogue_items3(v: &mut Vec<SupplyItemDefinition>)
    ensures
        supply_models(final(v)@) == supply_models(old(v)@) + catalogue_part3(),
{
    let ghost start = supply_models(v@);
    let syns: Vec<&str> = vec![];
    let types: Vec<ResourceType> = vec![ResourceType::Datapack, ResourceType::Mod];
    assert(syns@.map_values(|s: &str| s@) =~= Seq::<Seq<char>>::empty());
    assert(types@ =~= seq![ResourceType::Datapack, ResourceType::Mod]);
    let d = SupplyItemDefinition::new("Dungeons and Taverns", syns, types);
    assert(d@ == catalogue_part3()[0]);
    v.push(d);
    assert(supply_models(v@) =~= start + catalogue_part3().take(1));
    let syns: Vec<&str> = vec![];
    let types: Vec<ResourceType> = vec![ResourceType::Datapack, ResourceType::Mod];
    assert(syns@.map_values(|s: &str| s@) =~= Seq::<Seq<char>>::empty());
    assert(types@ =~= seq![ResourceType::Datapack, ResourceType::Mod]);
    let d = SupplyItemDefinition::new("Tectonic", syns, types);
    assert(d@ == catalogue_part3()[1]);
    v.push(d);
    assert(supply_models(v@) =~= start + catalogue_part3().take(2));
    let syns: Vec<&str> = vec![];
    let types: Vec<ResourceType> = vec![ResourceType::Datapack, ResourceType::Mod];
    assert(syns@.map_values(|s: &str| s@) =~= Seq::<Seq<char>>::empty());
    assert(types@ =~= seq![ResourceType::Datapack, ResourceType::Mod]);
    let d = SupplyItemDefinition::new("Geophilic", syns, types);
    assert(d@ == catalogue_part3()[2]);
    v.push(d);
    assert(supply_models(v@) =~= start + catalogue_part3().take(3));
    let syns: Vec<&str> = vec![];
    let types: Vec<ResourceType> = vec![ResourceType::Datapack, ResourceType::Mod];
    assert(syns@.map_values(|s: &str| s@) =~= Seq::<Seq<char>>::empty());
    assert(types@ =~= seq![ResourceType::Datapack, ResourceType::Mod]);
    let d = SupplyItemDefinition::new("Incendium", syns, types);
    assert(d@ == catalogue_part3()[3]);
    v.push(d);
    assert(supply_models(v@) =~= start + catalogue_part3().take(4));
    let syns: Vec<&str> = vec![];
    let types: Vec<ResourceType> = vec![ResourceType::Datapack, ResourceType::Mod];
    assert(syns@.map_values(|s: &str| s@) =~= Seq::<Seq<char>>::empty());
    assert(types@ =~= seq![ResourceType::Datapack, ResourceType::Mod]);
    let d = SupplyItemDefinition::new("Explorify", syns, types);
    assert(d@ == catalogue_part3()[4]);
    v.push(d);
    assert(supply_models(v@) =~= start + catalogue_part3().take(5));
    let syns: Vec<&str> = vec![];
    let types: Vec<ResourceType> = vec![ResourceType::Datapack, ResourceType::Mod];
    assert(syns@.map_values(|s: &str| s@) =~= Seq::<Seq<char>>::empty());
    assert(types@ =~= seq![ResourceType::Datapack, ResourceType::Mod]);
    let d = SupplyItemDefinition::new("Spawn Animations", syns, types);
    assert(d@ == catalogue_part3()[5]);
    v.push(d);
    assert(supply_models(v@) =~= start + catalogue_part3().take(6));
    let syns: Vec<&str> = vec![];
    let types: Vec<ResourceType> = vec![ResourceType::Datapack, ResourceType::Mod];
    assert(syns@.map_values(|s: &str| s@) =~= Seq::<Seq<char>>::empty());
    assert(types@ =~= seq![ResourceType::Datapack, ResourceType::Mod]);
    let d = SupplyItemDefinition::new("Dynamic Lights", syns, types);
    assert(d@ == catalogue_part3()[6]);
    v.push(d);
    assert(supply_models(v@) =~= start + catalogue_part3().take(7));
    let syns: Vec<&str> = vec![];
    let types: Vec<ResourceType> = vec![ResourceType::Plugin];
    assert(syns@.map_values(|s: &str| s@) =~= Seq::<Seq<char>>::empty());
    assert(types@ =~= seq![ResourceType::Plugin]);
    let d = SupplyItemDefinition::new("Timer Plugin", syns, types);
    assert(d@ == catalogue_part3()[7]);
    v.push(d);
    assert(supply_models(v@) =~= start + catalogue_part3().take(8));
    let syns: Vec<&str> = vec![];
    let types: Vec<ResourceType> = vec![ResourceType::Plugin];
    assert(syns@.map_values(|s: &str| s@) =~= Seq::<Seq<char>>::empty());
    assert(types@ =~= seq![ResourceType::Plugin]);
    let d = SupplyItemDefinition::new("CustomDeaths", syns, types);
    assert(d@ == catalogue_part3()[8]);
    v.push(d);
    assert(supply_models(v@) =~= start + catalogue_part3().take(9));
    let syns: Vec<&str> = vec![];
    let types: Vec<ResourceType> = vec![ResourceType::Plugin];
    assert(syns@.map_values(|s: &str| s@) =~= Seq::<Seq<char>>::empty());
    assert(types@ =~= seq![ResourceType::Plugin]);
    let d = SupplyItemDefinition::new("Essential", syns, types);
    assert(d@ == catalogue_part3()[9]);
    v.push(d);
    assert(supply_models(v@) =~= start + catalogue_part3().take(10));
    assert(catalogue_part3().take(10) =~= catalogue_part3());
}

fn catalogue_items4(v: &mut Vec<SupplyItemDefinition>)
    ensures
        supply_models(final(v)@) == supply_models(old(v)@) + catalogue_part4(),
{
    let ghost start = supply_models(v@);
    let syns: Vec<&str> = vec![];
    let types: Vec<ResourceType> = vec![ResourceType::Plugin];
    assert(syns@.map_values(|s: &str| s@) =~= Seq::<Seq<char>>::empty());
    assert(types@ =~= seq![ResourceType::Plugin]);
    let d = SupplyItemDefinition::new("Multiplayer Gameplay", syns, types);
    assert(d@ == catalogue_part4()[0]);
    v.push(d);
    assert(supply_models(v@) =~= start + catalogue_part4().take(1));
    let syns: Vec<&str> = vec![];
    let types: Vec<ResourceType> = vec![ResourceType::Plugin];
    assert(syns@.map_values(|s: &str| s@) =~= Seq::<Seq<char>>::empty());
    assert(types@ =~= seq![ResourceType::Plugin]);
    let d = SupplyItemDefinition::new("Image Previewer", syns, types);
    assert(d@ == catalogue_part4()[1]);
    v.push(d);
    assert(supply_models(v@) =~= start + catalogue_part4().take(2));
    let syns: Vec<&str> = vec![];
    let types: Vec<ResourceType> = vec![ResourceType::Plugin, ResourceType::Mod];
    assert(syns@.map_values(|s: &str| s@) =~= Seq::<Seq<char>>::empty());
    assert(types@ =~= seq![ResourceType::Plugin, ResourceType::Mod]);
    let d = SupplyItemDefinition::new("Worldedit", syns, types);
    assert(d@ == catalogue_part4()[2]);
    v.push(d);
    assert(supply_models(v@) =~= start + catalogue_part4().take(3));
    let syns: Vec<&str> = vec![];
    let types: Vec<ResourceType> = vec![ResourceType::Plugin];
    assert(syns@.map_values(|s: &str| s@) =~= Seq::<Seq<char>>::empty());
    assert(types@ =~= seq![ResourceType::Plugin]);
    let d = SupplyItemDefinition::new("worldguard", syns, types);
    assert(d@ == catalogue_part4()[3]);
    v.push(d);
    assert(supply_models(v@) =~= start + catalogue_part4().take(4));
    let syns: Vec<&str> = vec!["via backwards", "via rewind"];
    let types: Vec<ResourceType> = vec![ResourceType::Plugin, ResourceType::Mod];
    assert(syns@.map_values(|s: &str| s@) =~= seq!["via backwards"@, "via rewind"@]);
    assert(types@ =~= seq![ResourceType::Plugin, ResourceType::Mod]);
    let d = SupplyItemDefinition::new("viaversion", syns, types);
    assert(d@ == catalogue_part4()[4]);
    v.push(d);
    assert(supply_models(v@) =~= start + catalogue_part4().take(5));
    assert(catalogue_part4().take(5) =~= catalogue_part4());
}

/// The well-known projects (see `supply_catalogue`).
pub fn all_supply_items() -> (r: Vec<SupplyItemDefinition>)
    ensures
        supply_models(r@) == supply_catalogue(),
{
    let mut v: Vec<SupplyItemDefinition> = Vec::new();
    assert(supply_models(v@) =~= Seq::<SupplyModel>::empty());
    catalogue_items0(&mut v);
    catalogue_items1(&mut v);
    catalogue_items2(&mut v);
    catalogue_items3(&mut v);
    catalogue_items4(&mut v);
    assert(supply_models(v@) =~= supply_catalogue());
    v
}

} // verus!
