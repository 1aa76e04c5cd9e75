//! Channel classification: dictionary lookups and simple prefix/suffix
//! glob patterns that sort EXR channels into named groups.
use vstd::prelude::*;
use crate::io::metadata_traits::ChannelInfo;
use dashmap::DashMap;
use crate::text::{
    before_char, chars_before, chars_ends_with, chars_eq, chars_eq_ignore_case, chars_starts_with,
    ends_with, eq_ignore_case, lower_seq, owned, starts_with, str_chars,
};

verus! {

// ---------------------------------------------------------------------------
// Configuration types and their views
// ---------------------------------------------------------------------------

/// One group of channels: exact prefixes and glob patterns that select it.
#[derive(Clone, Debug)]
pub struct GroupDefinition {
    pub name: String,
    pub prefixes: Vec<String>,
    pub patterns: Vec<String>,
    pub basic_rgb: bool,
}

/// Display names used when no group claims a channel.
#[derive(Clone, Debug)]
pub struct FallbackNames {
    pub basic_rgb: String,
    pub default: String,
}

/// Configuration for channel grouping.
///
/// `groups` maps a group key to its definition; a key is looked up by its
/// first occurrence.
#[derive(Clone, Debug)]
pub struct ChannelGroupConfig {
    pub basic_rgb_channels: Vec<String>,
    pub group_priority_order: Vec<String>,
    pub fallback_names: FallbackNames,
    pub groups: Vec<(String, GroupDefinition)>,
}

/// Mathematical view of a [`GroupDefinition`].
pub struct GroupDefinitionView {
    pub name: Seq<char>,
    pub prefixes: Seq<Seq<char>>,
    pub patterns: Seq<Seq<char>>,
    pub basic_rgb: bool,
}

/// Mathematical view of a [`ChannelGroupConfig`].
pub struct ChannelGroupConfigView {
    pub basic_rgb_channels: Seq<Seq<char>>,
    pub group_priority_order: Seq<Seq<char>>,
    pub fallback_basic_rgb: Seq<char>,
    pub fallback_default: Seq<char>,
    pub groups: Seq<(Seq<char>, GroupDefinitionView)>,
}

impl View for GroupDefinition {
    type V = GroupDefinitionView;

    open spec fn view(&self) -> GroupDefinitionView {
        GroupDefinitionView {
            name: self.name@,
            prefixes: self.prefixes.deep_view(),
            patterns: self.patterns.deep_view(),
            basic_rgb: self.basic_rgb,
        }
    }
}

impl DeepView for GroupDefinition {
    type V = GroupDefinitionView;

    open spec fn deep_view(&self) -> GroupDefinitionView {
        self@
    }
}

impl View for ChannelGroupConfig {
    type V = ChannelGroupConfigView;

    open spec fn view(&self) -> ChannelGroupConfigView {
        ChannelGroupConfigView {
            basic_rgb_channels: self.basic_rgb_channels.deep_view(),
            group_priority_order: self.group_priority_order.deep_view(),
            fallback_basic_rgb: self.fallback_names.basic_rgb@,
            fallback_default: self.fallback_names.default@,
            groups: self.groups.deep_view(),
        }
    }
}

// ---------------------------------------------------------------------------
// Specification of the classification
// ---------------------------------------------------------------------------

/// Glob matching: `"*"` matches anything, `""` only the empty text,
/// `"p*"` texts starting with `p`, `"*s"` texts ending with `s`, anything
/// else exactly itself.
pub open spec fn pattern_matches(text: Seq<char>, pattern: Seq<char>) -> bool {
    if pattern == seq!['*'] {
        true
    } else if pattern.len() == 0 {
        text.len() == 0
    } else if pattern.last() == '*' {
        starts_with(text, pattern.drop_last())
    } else if pattern[0] == '*' {
        ends_with(text, pattern.drop_first())
    } else {
        text == pattern
    }
}

/// The part of a channel name before its first `.`.
pub open spec fn channel_prefix(name: Seq<char>) -> Seq<char> {
    before_char(name, '.')
}

/// Built-in prefix dictionary of the fast classifier.
pub open spec fn builtin_prefix_group(p: Seq<char>) -> Option<Seq<char>> {
    if p == "Beauty"@ || p == "R"@ || p == "G"@ || p == "B"@ || p == "A"@ {
        Some("base"@)
    } else if p == "Background"@ || p == "VirtualBeauty"@ || p == "ZDepth"@ {
        Some("scene"@)
    } else if p == "Sky"@ || p == "Sun"@ || p == "LightMix"@ {
        Some("light"@)
    } else {
        None
    }
}

/// Group key chosen by the configuration-free classifier.
pub open spec fn fast_group(name: Seq<char>) -> Seq<char> {
    if name == "R"@ || name == "G"@ || name == "B"@ || name == "A"@ {
        "base"@
    } else {
        let p = channel_prefix(name);
        match builtin_prefix_group(p) {
            Some(g) => g,
            None => if pattern_matches(p, "Light*"@) {
                "light"@
            } else {
                "scene_objects"@
            },
        }
    }
}

/// Interned display names of the well-known group keys.
pub open spec fn known_display_name(key: Seq<char>) -> Option<Seq<char>> {
    if key == "base"@ {
        Some("Base"@)
    } else if key == "scene"@ {
        Some("Scene"@)
    } else if key == "technical"@ {
        Some("Technical"@)
    } else if key == "light"@ {
        Some("Light"@)
    } else if key == "cryptomatte"@ {
        Some("Cryptomatte"@)
    } else if key == "scene_objects"@ {
        Some("Scene Objects"@)
    } else if key == "basic_rgb"@ {
        Some("Basic RGB"@)
    } else if key == "other"@ {
        Some("Other"@)
    } else {
        None
    }
}

/// Display name of group `key` with definition name `def_name`: the interned
/// name when the key is well known, otherwise the definition's own name.
pub open spec fn display_name_for(key: Seq<char>, def_name: Seq<char>) -> Seq<char> {
    match known_display_name(key) {
        Some(n) => n,
        None => def_name,
    }
}

/// A group definition claims `prefix` by an exact prefix or by a pattern.
pub open spec fn group_claims(def: GroupDefinitionView, prefix: Seq<char>) -> bool {
    (exists|i: int| 0 <= i < def.prefixes.len() && def.prefixes[i] == prefix) || (exists|i: int|
        0 <= i < def.patterns.len() && pattern_matches(prefix, #[trigger] def.patterns[i]))
}

/// First definition stored under `key`.
pub open spec fn find_group(groups: Seq<(Seq<char>, GroupDefinitionView)>, key: Seq<char>) -> Option<
    GroupDefinitionView,
>
    decreases groups.len(),
{
    if groups.len() == 0 {
        None
    } else if groups[0].0 == key {
        Some(groups[0].1)
    } else {
        find_group(groups.drop_first(), key)
    }
}

/// Result of walking the priority list: the first listed group that exists
/// and claims `prefix`.
pub open spec fn priority_match(
    order: Seq<Seq<char>>,
    groups: Seq<(Seq<char>, GroupDefinitionView)>,
    prefix: Seq<char>,
) -> Option<Seq<char>>
    decreases order.len(),
{
    if order.len() == 0 {
        None
    } else {
        match find_group(groups, order[0]) {
            Some(d) => if group_claims(d, prefix) {
                Some(display_name_for(order[0], d.name))
            } else {
                priority_match(order.drop_first(), groups, prefix)
            },
            None => priority_match(order.drop_first(), groups, prefix),
        }
    }
}

/// Result of walking the groups absent from the priority list, in stored order.
pub open spec fn unlisted_match(
    groups: Seq<(Seq<char>, GroupDefinitionView)>,
    order: Seq<Seq<char>>,
    prefix: Seq<char>,
) -> Option<Seq<char>>
    decreases groups.len(),
{
    if groups.len() == 0 {
        None
    } else if !order.contains(groups[0].0) && group_claims(groups[0].1, prefix) {
        Some(display_name_for(groups[0].0, groups[0].1.name))
    } else {
        unlisted_match(groups.drop_first(), order, prefix)
    }
}

/// `name` equals one of the basic RGB channel names, ignoring ASCII case.
pub open spec fn is_basic_rgb_channel(cfg: ChannelGroupConfigView, name: Seq<char>) -> bool {
    exists|i: int| 0 <= i < cfg.basic_rgb_channels.len() && eq_ignore_case(#[trigger] cfg.basic_rgb_channels[i], name)
}

/// Some group is marked as holding the basic RGB channels.
pub open spec fn has_basic_rgb_group(cfg: ChannelGroupConfigView) -> bool {
    exists|i: int| 0 <= i < cfg.groups.len() && (#[trigger] cfg.groups[i]).1.basic_rgb
}

/// Display name of the group a channel belongs to under `cfg`.
pub open spec fn config_group(name: Seq<char>, cfg: ChannelGroupConfigView) -> Seq<char> {
    if is_basic_rgb_channel(cfg, name) {
        if has_basic_rgb_group(cfg) {
            "Base"@
        } else {
            "Basic RGB"@
        }
    } else {
        let p = channel_prefix(name);
        match priority_match(cfg.group_priority_order, cfg.groups, p) {
            Some(n) => n,
            None => match unlisted_match(cfg.groups, cfg.group_priority_order, p) {
                Some(n) => n,
                None => "Other"@,
            },
        }
    }
}

// ---------------------------------------------------------------------------
// Laws of the classifiers
// ---------------------------------------------------------------------------

/// A channel whose name equals one of the configured basic RGB channel
/// names (ignoring ASCII case) goes to the group "Base" when some group is
/// marked as holding the basic RGB channels, and to "Basic RGB" otherwise,
/// whatever its prefix or the other groups say.
pub proof fn lemma_basic_rgb_channels_go_to_base(name: Seq<char>, cfg: ChannelGroupConfigView)
    requires
        exists|i: int|
            0 <= i < cfg.basic_rgb_channels.len() && #[trigger] lower_seq(cfg.basic_rgb_channels[i])
                == lower_seq(name),
    ensures
        (exists|j: int| 0 <= j < cfg.groups.len() && (#[trigger] cfg.groups[j]).1.basic_rgb)
            ==> config_group(name, cfg) == "Base"@,
        !(exists|j: int| 0 <= j < cfg.groups.len() && (#[trigger] cfg.groups[j]).1.basic_rgb)
            ==> config_group(name, cfg) == "Basic RGB"@,
{
    let i = choose|i: int|
        0 <= i < cfg.basic_rgb_channels.len() && #[trigger] lower_seq(cfg.basic_rgb_channels[i])
            == lower_seq(name);
    assert(eq_ignore_case(cfg.basic_rgb_channels[i], name));
}

/// Under the built-in configuration, R, G, B and A in either case go to
/// "Base".
pub proof fn lemma_default_rgb_is_base(name: Seq<char>)
    requires
        eq_ignore_case(name, "R"@) || eq_ignore_case(name, "G"@) || eq_ignore_case(name, "B"@)
            || eq_ignore_case(name, "A"@),
    ensures
        config_group(name, default_config_view()) == "Base"@,
{
    let cfg = default_config_view();
    assert(cfg.groups[0].1.basic_rgb);
    if eq_ignore_case(name, "R"@) {
        assert(lower_seq(cfg.basic_rgb_channels[0]) == lower_seq(name));
    } else if eq_ignore_case(name, "G"@) {
        assert(lower_seq(cfg.basic_rgb_channels[1]) == lower_seq(name));
    } else if eq_ignore_case(name, "B"@) {
        assert(lower_seq(cfg.basic_rgb_channels[2]) == lower_seq(name));
    } else {
        assert(lower_seq(cfg.basic_rgb_channels[3]) == lower_seq(name));
    }
    lemma_basic_rgb_channels_go_to_base(name, cfg);
}

/// The text before the first `c` of `p`, then `c`, then anything, is `p`
/// when `p` holds no `c`; so is the text before the first `c` of `p` itself.
proof fn lemma_before_char_prefix(p: Seq<char>, c: char, rest: Seq<char>)
    requires
        forall|i: int| 0 <= i < p.len() ==> p[i] != c,
    ensures
        before_char(p + seq![c] + rest, c) == p,
        before_char(p, c) == p,
    decreases p.len(),
{
    if p.len() == 0 {
        assert((p + seq![c] + rest)[0] == c);
        assert(p =~= Seq::<char>::empty());
    } else {
        let t = p.drop_first();
        lemma_before_char_prefix(t, c, rest);
        assert((p + seq![c] + rest).drop_first() =~= t + seq![c] + rest);
        assert(seq![p[0]] + t =~= p);
    }
}

/// The literals of the fast classifier's table, told apart.
proof fn lemma_fast_table_literals()
    ensures
        "R"@ == seq!['R'],
        "G"@ == seq!['G'],
        "B"@ == seq!['B'],
        "A"@ == seq!['A'],
        "Beauty"@ == seq!['B', 'e', 'a', 'u', 't', 'y'],
        "Background"@ == seq!['B', 'a', 'c', 'k', 'g', 'r', 'o', 'u', 'n', 'd'],
        "VirtualBeauty"@ == seq!['V', 'i', 'r', 't', 'u', 'a', 'l', 'B', 'e', 'a', 'u', 't', 'y'],
        "ZDepth"@ == seq!['Z', 'D', 'e', 'p', 't', 'h'],
        "Sky"@ == seq!['S', 'k', 'y'],
        "Sun"@ == seq!['S', 'u', 'n'],
        "LightMix"@ == seq!['L', 'i', 'g', 'h', 't', 'M', 'i', 'x'],
{
    reveal_strlit("R");
    reveal_strlit("G");
    reveal_strlit("B");
    reveal_strlit("A");
    reveal_strlit("Beauty");
    reveal_strlit("Background");
    reveal_strlit("VirtualBeauty");
    reveal_strlit("ZDepth");
    reveal_strlit("Sky");
    reveal_strlit("Sun");
    reveal_strlit("LightMix");
}

/// The colour channels R, G, B and A, alone or as the prefix of a dotted
/// name, belong to "base" in the fast classifier.
pub proof fn lemma_fast_colour_channels(rest: Seq<char>)
    ensures
        fast_group("R"@) == "base"@,
        fast_group("G"@) == "base"@,
        fast_group("B"@) == "base"@,
        fast_group("A"@) == "base"@,
        fast_group("R"@ + seq!['.'] + rest) == "base"@,
        fast_group("G"@ + seq!['.'] + rest) == "base"@,
        fast_group("B"@ + seq!['.'] + rest) == "base"@,
        fast_group("A"@ + seq!['.'] + rest) == "base"@,
{
    lemma_fast_table_literals();
    let keys = seq!["R"@, "G"@, "B"@, "A"@];
    assert forall|k: int| 0 <= k < keys.len() implies {
        let p = #[trigger] keys[k];
        &&& before_char(p + seq!['.'] + rest, '.') == p
        &&& (p + seq!['.'] + rest).len() > 1
    } by {
        let p = keys[k];
        assert forall|i: int| 0 <= i < p.len() implies p[i] != '.' by {}
        lemma_before_char_prefix(p, '.', rest);
    }
    assert(keys[0] == "R"@);
    assert(keys[1] == "G"@);
    assert(keys[2] == "B"@);
    assert(keys[3] == "A"@);
}

/// In the fast classifier, a name outside the table whose prefix starts
/// with "Light" belongs to "light", and any other name outside the table to
/// "scene_objects".
pub proof fn lemma_fast_fallbacks(name: Seq<char>)
    requires
        !(name == "R"@ || name == "G"@ || name == "B"@ || name == "A"@),
        builtin_prefix_group(channel_prefix(name)) is None,
    ensures
        starts_with(channel_prefix(name), "Light"@) ==> fast_group(name) == "light"@,
        !starts_with(channel_prefix(name), "Light"@) ==> fast_group(name) == "scene_objects"@,
{
    reveal_strlit("Light*");
    reveal_strlit("Light");
    assert("Light*"@ =~= "Light"@.push('*'));
    assert("Light*"@.drop_last() =~= "Light"@);
    assert("Light*"@ != seq!['*']) by {
        assert("Light*"@.len() != 1);
    }
}

/// The fast classifier's table: a channel named `p` or `p.anything` goes to
/// "base" for p = Beauty, to "scene" for Background, VirtualBeauty and
/// ZDepth, and to "light" for Sky, Sun and LightMix.
pub proof fn lemma_fast_table(rest: Seq<char>)
    ensures
        fast_group("Beauty"@) == "base"@,
        fast_group("Beauty"@ + seq!['.'] + rest) == "base"@,
        fast_group("Background"@) == "scene"@,
        fast_group("Background"@ + seq!['.'] + rest) == "scene"@,
        fast_group("VirtualBeauty"@) == "scene"@,
        fast_group("VirtualBeauty"@ + seq!['.'] + rest) == "scene"@,
        fast_group("ZDepth"@) == "scene"@,
        fast_group("ZDepth"@ + seq!['.'] + rest) == "scene"@,
        fast_group("Sky"@) == "light"@,
        fast_group("Sky"@ + seq!['.'] + rest) == "light"@,
        fast_group("Sun"@) == "light"@,
        fast_group("Sun"@ + seq!['.'] + rest) == "light"@,
        fast_group("LightMix"@) == "light"@,
        fast_group("LightMix"@ + seq!['.'] + rest) == "light"@,
{
    lemma_fast_table_literals();
    let keys = seq!["Beauty"@, "Background"@, "VirtualBeauty"@, "ZDepth"@, "Sky"@, "Sun"@, "LightMix"@];
    assert forall|k: int| 0 <= k < keys.len() implies {
        let p = #[trigger] keys[k];
        &&& before_char(p + seq!['.'] + rest, '.') == p
        &&& before_char(p, '.') == p
        &&& p.len() > 1
        &&& (p + seq!['.'] + rest).len() > 1
    } by {
        let p = keys[k];
        assert forall|i: int| 0 <= i < p.len() implies p[i] != '.' by {}
        lemma_before_char_prefix(p, '.', rest);
    }
    assert(keys[0] == "Beauty"@);
    assert(keys[1] == "Background"@);
    assert(keys[2] == "VirtualBeauty"@);
    assert(keys[3] == "ZDepth"@);
    assert(keys[4] == "Sky"@);
    assert(keys[5] == "Sun"@);
    assert(keys[6] == "LightMix"@);
    assert("ZDepth"@[0] != "Beauty"@[0]);
    assert("Sun"@[1] != "Sky"@[1]);
}

// ---------------------------------------------------------------------------
// Default configuration
// ---------------------------------------------------------------------------

/// Group definition view built from literal parts.
pub open spec fn group_view(
    name: Seq<char>,
    prefixes: Seq<Seq<char>>,
    patterns: Seq<Seq<char>>,
    basic_rgb: bool,
) -> GroupDefinitionView {
    GroupDefinitionView { name, prefixes, patterns, basic_rgb }
}

/// The built-in grouping configuration.
/// Every group key occurs once, as in a map from keys to definitions.
pub open spec fn group_keys_unique(cfg: ChannelGroupConfigView) -> bool {
    forall|i: int, j: int|
        0 <= i < j < cfg.groups.len() ==> (#[trigger] cfg.groups[i]).0 != (#[trigger] cfg.groups[j]).0
}

pub open spec fn default_config_view() -> ChannelGroupConfigView {
    ChannelGroupConfigView {
        basic_rgb_channels: seq!["R"@, "G"@, "B"@, "A"@],
        group_priority_order: seq![
            "cryptomatte"@,
            "light"@,
            "scene"@,
            "technical"@,
            "scene_objects"@,
        ],
        fallback_basic_rgb: "Basic RGB"@,
        fallback_default: "Other"@,
        groups: seq![
            ("base"@, group_view("Base"@, seq!["Beauty"@], seq![], true)),
            (
                "scene"@,
                group_view(
                    "Scene"@,
                    seq!["Background"@, "VirtualBeauty"@, "ZDepth"@],
                    seq!["Translucency*"@, "translucency*"@],
                    false,
                ),
            ),
            (
                "technical"@,
                group_view("Technical"@, seq![], seq!["RenderStamp*"@, "renderstamp*"@], false),
            ),
            (
                "light"@,
                group_view(
                    "Light"@,
                    seq!["Sky"@, "Sun"@, "LightMix"@],
                    seq!["Light*"@, "light*"@],
                    false,
                ),
            ),
            (
                "cryptomatte"@,
                group_view("Cryptomatte"@, seq![], seq!["Cryptomatte*"@, "cryptomatte*"@], false),
            ),
            (
                "scene_objects"@,
                group_view("Scene Objects"@, seq![], seq!["ID*"@, "Object*"@, "_*"@], false),
            ),
        ],
    }
}

/// Owned strings for a list of literals.
fn string_vec(items: &[&str]) -> (r: Vec<String>)
    ensures
        r.deep_view() == items@.map_values(|s: &str| s@),
{
    let mut v: Vec<String> = Vec::new();
    let mut i: usize = 0;
    while i < items.len()
        invariant
            i <= items@.len(),
            v.deep_view() == items@.subrange(0, i as int).map_values(|s: &str| s@),
        decreases items.len() - i,
    {
        let ghost old_v = v.deep_view();
        let ghost old_raw = v@;
        v.push(owned(items[i]));
        proof {
            assert forall|j: int| 0 <= j < old_raw.len() implies v@[j] == old_raw[j] by {}
            assert(v.deep_view() =~= old_v.push(items@[i as int]@));
            assert(items@.subrange(0, i + 1).map_values(|s: &str| s@) =~= items@.subrange(
                0,
                i as int,
            ).map_values(|s: &str| s@).push(items@[i as int]@));
        }
        i = i + 1;
    }
    proof {
        assert(items@.subrange(0, items@.len() as int) =~= items@);
    }
    v
}

fn group(name: &str, prefixes: &[&str], patterns: &[&str], basic_rgb: bool) -> (r: GroupDefinition)
    ensures
        r@ == group_view(
            name@,
            prefixes@.map_values(|s: &str| s@),
            patterns@.map_values(|s: &str| s@),
            basic_rgb,
        ),
{
    GroupDefinition {
        name: owned(name),
        prefixes: string_vec(prefixes),
        patterns: string_vec(patterns),
        basic_rgb,
    }
}

/// The default configuration for channel grouping.
pub fn create_default_config() -> (r: ChannelGroupConfig)
    ensures
        r@ == default_config_view(),
        group_keys_unique(r@),
{
    let mut groups: Vec<(String, GroupDefinition)> = Vec::new();
    let empty: [&str; 0] = [];
    groups.push((owned("base"), group("Base", &["Beauty"], &empty, true)));
    groups.push(
        (
            owned("scene"),
            group(
                "Scene",
                &["Background", "VirtualBeauty", "ZDepth"],
                &["Translucency*", "translucency*"],
                false,
            ),
        ),
    );
    groups.push(
        (owned("technical"), group("Technical", &empty, &["RenderStamp*", "renderstamp*"], false)),
    );
    groups.push(
        (
            owned("light"),
            group("Light", &["Sky", "Sun", "LightMix"], &["Light*", "light*"], false),
        ),
    );
    groups.push(
        (
            owned("cryptomatte"),
            group("Cryptomatte", &empty, &["Cryptomatte*", "cryptomatte*"], false),
        ),
    );
    groups.push(
        (owned("scene_objects"), group("Scene Objects", &empty, &["ID*", "Object*", "_*"], false)),
    );
    let r = ChannelGroupConfig {
        basic_rgb_channels: string_vec(&["R", "G", "B", "A"]),
        group_priority_order: string_vec(
            &["cryptomatte", "light", "scene", "technical", "scene_objects"],
        ),
        fallback_names: FallbackNames { basic_rgb: owned("Basic RGB"), default: owned("Other") },
        groups,
    };
    proof {
        assert(r@.basic_rgb_channels =~= default_config_view().basic_rgb_channels);
        assert(r@.group_priority_order =~= default_config_view().group_priority_order);
        assert(r@.groups[0].1.prefixes =~= default_config_view().groups[0].1.prefixes);
        assert(r@.groups[0].1.patterns =~= default_config_view().groups[0].1.patterns);
        assert(r@.groups[1].1.prefixes =~= default_config_view().groups[1].1.prefixes);
        assert(r@.groups[1].1.patterns =~= default_config_view().groups[1].1.patterns);
        assert(r@.groups[2].1.prefixes =~= default_config_view().groups[2].1.prefixes);
        assert(r@.groups[2].1.patterns =~= default_config_view().groups[2].1.patterns);
        assert(r@.groups[3].1.prefixes =~= default_config_view().groups[3].1.prefixes);
        assert(r@.groups[3].1.patterns =~= default_config_view().groups[3].1.patterns);
        assert(r@.groups[4].1.prefixes =~= default_config_view().groups[4].1.prefixes);
        assert(r@.groups[4].1.patterns =~= default_config_view().groups[4].1.patterns);
        assert(r@.groups[5].1.prefixes =~= default_config_view().groups[5].1.prefixes);
        assert(r@.groups[5].1.patterns =~= default_config_view().groups[5].1.patterns);
        assert(r@.groups =~= default_config_view().groups);
        reveal_strlit("base");
        reveal_strlit("scene");
        reveal_strlit("technical");
        reveal_strlit("light");
        reveal_strlit("cryptomatte");
        reveal_strlit("scene_objects");
        let g = default_config_view().groups;
        assert(g.len() == 6);
        assert(g[0].0.len() == 4 && g[1].0.len() == 5 && g[2].0.len() == 9);
        assert(g[3].0.len() == 5 && g[4].0.len() == 11 && g[5].0.len() == 13);
        assert(g[1].0[0] != g[3].0[0]);
        assert forall|i: int, j: int| 0 <= i < j < g.len() implies #[trigger] g[i].0 != #[trigger] g[j].0 by {
            if i == 1 && j == 3 {
                assert(g[1].0[0] != g[3].0[0]);
            } else {
                assert(g[i].0.len() != g[j].0.len());
            }
        }
        assert(group_keys_unique(default_config_view()));
    }
    r
}

// ---------------------------------------------------------------------------
// Pattern matching
// ---------------------------------------------------------------------------

/// Glob matching on character slices (see [`pattern_matches`]).
pub fn matches_pattern_chars(text: &[char], pattern: &[char]) -> (r: bool)
    ensures
        r == pattern_matches(text@, pattern@),
{
    let n = pattern.len();
    if n == 1 && pattern[0] == '*' {
        proof {
            assert(pattern@ =~= seq!['*']);
        }
        return true;
    }
    proof {
        if n == 1 && pattern@[0] != '*' {
            assert(pattern@ != seq!['*']) by {
                assert(seq!['*'][0] == '*');
            }
        }
        if n != 1 {
            assert(pattern@ != seq!['*']) by {
                assert(seq!['*'].len() == 1);
            }
        }
    }
    if n == 0 {
        return text.len() == 0;
    }
    if pattern[n - 1] == '*' {
        let mut p: Vec<char> = Vec::new();
        let mut i: usize = 0;
        while i < n - 1
            invariant
                n == pattern@.len(),
                n >= 1,
                i <= n - 1,
                p@ == pattern@.subrange(0, i as int),
            decreases n - 1 - i,
        {
            p.push(pattern[i]);
            proof {
                assert(pattern@.subrange(0, i + 1) =~= pattern@.subrange(0, i as int).push(
                    pattern@[i as int],
                ));
            }
            i = i + 1;
        }
        proof {
            assert(p@ =~= pattern@.drop_last());
        }
        return chars_starts_with(text, p.as_slice());
    }
    if pattern[0] == '*' {
        let mut p: Vec<char> = Vec::new();
        let mut i: usize = 1;
        while i < n
            invariant
                n == pattern@.len(),
                1 <= i <= n,
                p@ == pattern@.subrange(1, i as int),
            decreases n - i,
        {
            p.push(pattern[i]);
            proof {
                assert(pattern@.subrange(1, i + 1) =~= pattern@.subrange(1, i as int).push(
                    pattern@[i as int],
                ));
            }
            i = i + 1;
        }
        proof {
            assert(p@ =~= pattern@.drop_first());
        }
        return chars_ends_with(text, p.as_slice());
    }
    chars_eq(text, pattern)
}

/// Match a channel-classification glob pattern against `text`.
///
/// Supported patterns: `"*"` matches anything, `""` only the empty string,
/// `"prefix*"` strings starting with `prefix`, `"*suffix"` strings ending
/// with `suffix`, and any other pattern only itself.
pub fn matches_pattern_simd(text: &str, pattern: &str) -> (r: bool)
    ensures
        r == pattern_matches(text@, pattern@),
{
    let t = str_chars(text);
    let p = str_chars(pattern);
    matches_pattern_chars(t.as_slice(), p.as_slice())
}

// ---------------------------------------------------------------------------
// Configuration-free classification
// ---------------------------------------------------------------------------

fn lit_eq(s: &[char], lit: &str) -> (r: bool)
    ensures
        r == (s@ == lit@),
{
    let l = str_chars(lit);
    chars_eq(s, l.as_slice())
}

/// Group key for a channel using only the built-in dictionary and the
/// `Light*` pattern; everything else falls into `scene_objects`.
pub fn determine_channel_group_ultra_fast(channel_name: &str) -> (r: &'static str)
    ensures
        r@ == fast_group(channel_name@),
{
    let name = str_chars(channel_name);
    let n = name.as_slice();
    if lit_eq(n, "R") || lit_eq(n, "G") || lit_eq(n, "B") || lit_eq(n, "A") {
        return "base";
    }
    let p = chars_before(n, '.');
    let ps = p.as_slice();
    if lit_eq(ps, "Beauty") || lit_eq(ps, "R") || lit_eq(ps, "G") || lit_eq(ps, "B") || lit_eq(
        ps,
        "A",
    ) {
        return "base";
    }
    if lit_eq(ps, "Background") || lit_eq(ps, "VirtualBeauty") || lit_eq(ps, "ZDepth") {
        return "scene";
    }
    if lit_eq(ps, "Sky") || lit_eq(ps, "Sun") || lit_eq(ps, "LightMix") {
        return "light";
    }
    let light = str_chars("Light*");
    if matches_pattern_chars(ps, light.as_slice()) {
        return "light";
    }
    "scene_objects"
}

// ---------------------------------------------------------------------------
// Configuration-driven classification
// ---------------------------------------------------------------------------

/// Interned display name of a well-known group key.
pub fn known_group_display_name(key: &[char]) -> (r: Option<String>)
    ensures
        match r {
            Some(n) => known_display_name(key@) == Some(n@),
            None => known_display_name(key@) is None,
        },
{
    if lit_eq(key, "base") {
        Some(owned("Base"))
    } else if lit_eq(key, "scene") {
        Some(owned("Scene"))
    } else if lit_eq(key, "technical") {
        Some(owned("Technical"))
    } else if lit_eq(key, "light") {
        Some(owned("Light"))
    } else if lit_eq(key, "cryptomatte") {
        Some(owned("Cryptomatte"))
    } else if lit_eq(key, "scene_objects") {
        Some(owned("Scene Objects"))
    } else if lit_eq(key, "basic_rgb") {
        Some(owned("Basic RGB"))
    } else if lit_eq(key, "other") {
        Some(owned("Other"))
    } else {
        None
    }
}

fn display_name_exec(key: &String, def_name: &String) -> (r: String)
    ensures
        r@ == display_name_for(key@, def_name@),
{
    let k = str_chars(key.as_str());
    match known_group_display_name(k.as_slice()) {
        Some(n) => n,
        None => def_name.clone(),
    }
}

/// Whether `def` claims the channel prefix `prefix`.
fn group_claims_exec(def: &GroupDefinition, prefix: &[char]) -> (r: bool)
    ensures
        r == group_claims(def@, prefix@),
{
    let mut i: usize = 0;
    while i < def.prefixes.len()
        invariant
            i <= def.prefixes@.len(),
            forall|j: int| 0 <= j < i ==> def.prefixes@[j]@ != prefix@,
        decreases def.prefixes.len() - i,
    {
        let c = str_chars(def.prefixes[i].as_str());
        if chars_eq(c.as_slice(), prefix) {
            proof {
                assert(def@.prefixes[i as int] == prefix@);
            }
            return true;
        }
        i = i + 1;
    }
    let mut k: usize = 0;
    while k < def.patterns.len()
        invariant
            k <= def.patterns@.len(),
            forall|j: int| 0 <= j < k ==> !pattern_matches(prefix@, def.patterns@[j]@),
        decreases def.patterns.len() - k,
    {
        let c = str_chars(def.patterns[k].as_str());
        if matches_pattern_chars(prefix, c.as_slice()) {
            proof {
                assert(pattern_matches(prefix@, def@.patterns[k as int]));
            }
            return true;
        }
        k = k + 1;
    }
    proof {
        assert forall|j: int| 0 <= j < def@.prefixes.len() implies def@.prefixes[j] != prefix@ by {
            assert(def@.prefixes[j] == def.prefixes@[j]@);
        }
        assert forall|j: int| 0 <= j < def@.patterns.len() implies !pattern_matches(
            prefix@,
            #[trigger] def@.patterns[j],
        ) by {
            assert(def@.patterns[j] == def.patterns@[j]@);
        }
    }
    false
}

/// Index of the first definition stored under `key`.
pub(crate) fn find_group_index(groups: &Vec<(String, GroupDefinition)>, key: &String) -> (r: Option<usize>)
    ensures
        match r {
            Some(i) => i < groups@.len() && find_group(groups.deep_view(), key@) == Some(
                groups@[i as int].1@,
            ),
            None => find_group(groups.deep_view(), key@) is None,
        },
{
    let mut i: usize = 0;
    proof {
        assert(groups.deep_view().skip(0) =~= groups.deep_view());
    }
    while i < groups.len()
        invariant
            i <= groups@.len(),
            find_group(groups.deep_view(), key@) == find_group(groups.deep_view().skip(i as int), key@),
        decreases groups.len() - i,
    {
        let ghost rest = groups.deep_view().skip(i as int);
        proof {
            assert(rest[0] == groups.deep_view()[i as int]);
            assert(rest.drop_first() =~= groups.deep_view().skip(i + 1));
        }
        if groups[i].0 == *key {
            return Some(i);
        }
        i = i + 1;
    }
    None
}

/// Whether `key` occurs in `order`.
fn order_contains(order: &Vec<String>, key: &String) -> (r: bool)
    ensures
        r == order.deep_view().contains(key@),
{
    let mut i: usize = 0;
    while i < order.len()
        invariant
            i <= order@.len(),
            forall|j: int| 0 <= j < i ==> order@[j]@ != key@,
        decreases order.len() - i,
    {
        if order[i] == *key {
            proof {
                assert(order.deep_view()[i as int] == key@);
            }
            return true;
        }
        i = i + 1;
    }
    proof {
        if order.deep_view().contains(key@) {
            let j = choose|j: int| 0 <= j < order.deep_view().len() && order.deep_view()[j] == key@;
            assert(order@[j]@ == key@);
        }
    }
    false
}

/// Whether `name` equals one of `channels`, ignoring ASCII case.
fn basic_rgb_hit(channels: &Vec<String>, name: &[char]) -> (r: bool)
    ensures
        r == (exists|i: int| 0 <= i < channels.deep_view().len() && eq_ignore_case(#[trigger] channels.deep_view()[i], name@)),
{
    let mut i: usize = 0;
    while i < channels.len()
        invariant
            i <= channels@.len(),
            forall|j: int| 0 <= j < i ==> !eq_ignore_case(channels@[j]@, name@),
        decreases channels.len() - i,
    {
        let c = str_chars(channels[i].as_str());
        if chars_eq_ignore_case(c.as_slice(), name) {
            proof {
                assert(eq_ignore_case(channels.deep_view()[i as int], name@));
            }
            return true;
        }
        i = i + 1;
    }
    proof {
        assert forall|j: int| 0 <= j < channels.deep_view().len() implies !eq_ignore_case(
            #[trigger] channels.deep_view()[j],
            name@,
        ) by {
            assert(channels.deep_view()[j] == channels@[j]@);
        }
    }
    false
}

/// Channel group determination with configuration support.
///
/// Basic RGB channels (compared ignoring ASCII case) go to the base group;
/// otherwise the prefix before the first `.` is tried against the groups of
/// the priority list, then against the remaining groups in stored order, and
/// finally the default group.
#[verifier::loop_isolation(false)]
pub fn determine_channel_group_with_config(channel_name: &str, config: &ChannelGroupConfig) -> (r:
    String)
    ensures
        r@ == config_group(channel_name@, config@),
        (exists|i: int|
            0 <= i < config@.basic_rgb_channels.len() && #[trigger] lower_seq(
                config@.basic_rgb_channels[i],
            ) == lower_seq(channel_name@)) ==> (r@ == "Base"@ <==> exists|j: int|
            0 <= j < config@.groups.len() && (#[trigger] config@.groups[j]).1.basic_rgb),
{
    proof {
        if exists|i: int|
            0 <= i < config@.basic_rgb_channels.len() && #[trigger] lower_seq(
                config@.basic_rgb_channels[i],
            ) == lower_seq(channel_name@) {
            lemma_basic_rgb_channels_go_to_base(channel_name@, config@);
            reveal_strlit("Base");
            reveal_strlit("Basic RGB");
            assert("Base"@.len() != "Basic RGB"@.len());
        }
    }
    let name = str_chars(channel_name);
    let cfg = config;
    let is_rgb = basic_rgb_hit(&cfg.basic_rgb_channels, name.as_slice());
    proof {
        if is_rgb {
            let w = choose|i: int| 0 <= i < cfg.basic_rgb_channels.deep_view().len() && eq_ignore_case(#[trigger] cfg.basic_rgb_channels.deep_view()[i], name@);
            assert(eq_ignore_case(cfg@.basic_rgb_channels[w], channel_name@));
            assert(is_basic_rgb_channel(cfg@, channel_name@));
        } else {
            assert(!is_basic_rgb_channel(cfg@, channel_name@));
        }
    }
    if is_rgb {
        let mut g: usize = 0;
        while g < cfg.groups.len()
            invariant
                g <= cfg.groups@.len(),
                forall|j: int| 0 <= j < g ==> !cfg.groups@[j].1.basic_rgb,
            decreases cfg.groups.len() - g,
        {
            if cfg.groups[g].1.basic_rgb {
                proof {
                    assert(cfg@.groups[g as int].1.basic_rgb);
                }
                return owned("Base");
            }
            g = g + 1;
        }
        proof {
            assert forall|j: int| 0 <= j < cfg@.groups.len() implies !(#[trigger] cfg@.groups[j]).1.basic_rgb by {
                assert(cfg@.groups[j].1 == cfg.groups@[j].1@);
            }
        }
        return owned("Basic RGB");
    }
    let prefix = chars_before(name.as_slice(), '.');
    let p = prefix.as_slice();
    // Groups in priority order.
    let ghost groups_v = cfg.groups.deep_view();
    let ghost order_v = cfg.group_priority_order.deep_view();
    let mut k: usize = 0;
    proof {
        assert(order_v.skip(0) =~= order_v);
    }
    while k < cfg.group_priority_order.len()
        invariant
            k <= cfg.group_priority_order@.len(),
            groups_v == cfg.groups.deep_view(),
            order_v == cfg.group_priority_order.deep_view(),
            p@ == channel_prefix(channel_name@),
            priority_match(order_v, groups_v, p@) == priority_match(order_v.skip(k as int), groups_v, p@),
        decreases cfg.group_priority_order.len() - k,
    {
        let key = &cfg.group_priority_order[k];
        proof {
            let rest = order_v.skip(k as int);
            assert(rest[0] == key@);
            assert(rest.drop_first() =~= order_v.skip(k + 1));
        }
        match find_group_index(&cfg.groups, key) {
            Some(gi) => {
                let def = &cfg.groups[gi].1;
                if group_claims_exec(def, p) {
                    proof {
                        let rest = order_v.skip(k as int);
                        assert(rest.len() > 0);
                        assert(find_group(groups_v, rest[0]) == Some(def@));
                    }
                    return display_name_exec(key, &def.name);
                }
            },
            None => {},
        }
        k = k + 1;
    }
    // Groups missing from the priority list, in stored order.
    let mut g: usize = 0;
    proof {
        assert(groups_v.skip(0) =~= groups_v);
    }
    while g < cfg.groups.len()
        invariant
            g <= cfg.groups@.len(),
            groups_v == cfg.groups.deep_view(),
            order_v == cfg.group_priority_order.deep_view(),
            p@ == channel_prefix(channel_name@),
            priority_match(order_v, groups_v, p@) is None,
            unlisted_match(groups_v, order_v, p@) == unlisted_match(groups_v.skip(g as int), order_v, p@),
        decreases cfg.groups.len() - g,
    {
        proof {
            let rest = groups_v.skip(g as int);
            assert(rest[0] == groups_v[g as int]);
            assert(rest.drop_first() =~= groups_v.skip(g + 1));
        }
        let entry = &cfg.groups[g];
        if !order_contains(&cfg.group_priority_order, &entry.0) && group_claims_exec(&entry.1, p) {
            proof {
                let rest = groups_v.skip(g as int);
                assert(rest.len() > 0);
                assert(rest[0].0 == entry.0@);
                assert(rest[0].1 == entry.1@);
            }
            return display_name_exec(&entry.0, &entry.1.name);
        }
        g = g + 1;
    }
    owned("Other")
}

// ---------------------------------------------------------------------------
// Grouping a list of channels
// ---------------------------------------------------------------------------

#[verifier::external_type_specification]
#[verifier::external_body]
#[verifier::reject_recursive_types(K)]
#[verifier::reject_recursive_types(V)]
#[verifier::reject_recursive_types(S)]
pub struct ExDashMap<K, V, S>(DashMap<K, V, S>);

/// What a concurrent group map holds: group name to the channel names
/// filed under it, in insertion order.
pub uninterp spec fn dash_groups(m: DashMap<String, Vec<String>>) -> Map<Seq<char>, Seq<Seq<char>>>;

/// `m` with `item` appended to the list under `key` (a new, empty list when absent).
pub open spec fn map_push(m: Map<Seq<char>, Seq<Seq<char>>>, key: Seq<char>, item: Seq<char>) -> Map<
    Seq<char>,
    Seq<Seq<char>>,
> {
    m.insert(
        key,
        (if m.contains_key(key) {
            m[key]
        } else {
            Seq::empty()
        }).push(item),
    )
}

/// The map with no groups.
pub open spec fn no_groups() -> Map<Seq<char>, Seq<Seq<char>>> {
    Map::empty()
}

/// Creates an empty map (`DashMap::new`).
#[verifier::external_body]
fn new_group_map() -> (r: DashMap<String, Vec<String>>)
    ensures
        dash_groups(r) == no_groups(),
{
    DashMap::new()
}

/// Appends `item` to the list under `key`, creating an empty list first when
/// the key is absent (`DashMap::entry(..).or_default().push(..)`).
#[verifier::external_body]
fn group_map_push(m: &mut DashMap<String, Vec<String>>, key: String, item: String)
    ensures
        dash_groups(*final(m)) == map_push(dash_groups(*old(m)), key@, item@),
{
    m.entry(key).or_default().push(item);
}

/// Drains the map into its (key, list) pairs (`DashMap::into_iter().collect()`).
/// Each key comes out once, with its list; the order of the pairs is that of
/// the map's shards and is not stated.
#[verifier::external_body]
fn group_map_into_pairs(m: DashMap<String, Vec<String>>) -> (r: Vec<(String, Vec<String>)>)
    ensures
        forall|i: int, j: int| 0 <= i < j < r@.len() ==> r@[i].0@ != r@[j].0@,
        forall|i: int|
            0 <= i < r@.len() ==> dash_groups(m).contains_key(#[trigger] r@[i].0@) && dash_groups(
                m,
            )[r@[i].0@] == r@[i].1.deep_view(),
        forall|k: Seq<char>|
            #[trigger] dash_groups(m).contains_key(k) ==> exists|i: int| 0 <= i < r@.len() && r@[i].0@ == k,
{
    m.into_iter().collect()
}

/// Group key of a channel: configured classification when a configuration
/// is given, the fast classifier otherwise.
pub open spec fn group_of(name: Seq<char>, config: Option<ChannelGroupConfigView>) -> Seq<char> {
    match config {
        Some(c) => config_group(name, c),
        None => fast_group(name),
    }
}

/// Channel names grouped by [`group_of`], each list in input order.
pub open spec fn grouping(names: Seq<Seq<char>>, config: Option<ChannelGroupConfigView>) -> Map<
    Seq<char>,
    Seq<Seq<char>>,
>
    decreases names.len(),
{
    if names.len() == 0 {
        no_groups()
    } else {
        map_push(grouping(names.drop_last(), config), group_of(names.last(), config), names.last())
    }
}

/// Grouping of a list of channel descriptors.
pub open spec fn channel_grouping(channels: Seq<ChannelInfo>, config: Option<ChannelGroupConfigView>) -> Map<
    Seq<char>,
    Seq<Seq<char>>,
> {
    grouping(channels.map_values(|c: ChannelInfo| c.name@), config)
}

/// View of an optional configuration reference.
pub open spec fn config_opt_view(config: Option<&ChannelGroupConfig>) -> Option<ChannelGroupConfigView> {
    match config {
        Some(c) => Some(c@),
        None => None,
    }
}

/// Groups channels by their group name.
///
/// Returns one (group name, channel names) pair per group; the names under
/// a group keep the order of `channels`.
pub fn group_channels_parallel(channels: &[ChannelInfo], config: Option<&ChannelGroupConfig>) -> (r:
    Vec<(String, Vec<String>)>)
    ensures
        forall|i: int, j: int| 0 <= i < j < r@.len() ==> r@[i].0@ != r@[j].0@,
        forall|i: int|
            0 <= i < r@.len() ==> channel_grouping(channels@, config_opt_view(config)).contains_key(
                #[trigger] r@[i].0@,
            ) && channel_grouping(channels@, config_opt_view(config))[r@[i].0@]
                == r@[i].1.deep_view(),
        forall|k: Seq<char>|
            #[trigger] channel_grouping(channels@, config_opt_view(config)).contains_key(k)
                ==> exists|i: int| 0 <= i < r@.len() && r@[i].0@ == k,
{
    let ghost names = channels@.map_values(|c: ChannelInfo| c.name@);
    let ghost cv = config_opt_view(config);
    let mut m = new_group_map();
    let mut i: usize = 0;
    while i < channels.len()
        invariant
            i <= channels@.len(),
            names == channels@.map_values(|c: ChannelInfo| c.name@),
            cv == config_opt_view(config),
            dash_groups(m) == grouping(names.subrange(0, i as int), cv),
        decreases channels.len() - i,
    {
        let name = &channels[i].name;
        let group_name = match config {
            Some(cfg) => determine_channel_group_with_config(name.as_str(), cfg),
            None => owned(determine_channel_group_ultra_fast(name.as_str())),
        };
        proof {
            let sub = names.subrange(0, i + 1);
            assert(sub.drop_last() =~= names.subrange(0, i as int));
            assert(sub.last() == name@);
            assert(group_name@ == group_of(name@, cv));
        }
        group_map_push(&mut m, group_name, name.clone());
        i = i + 1;
    }
    proof {
        assert(names.subrange(0, channels@.len() as int) =~= names);
    }
    group_map_into_pairs(m)
}

} // verus!
