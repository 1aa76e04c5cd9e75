//! Choice of the layers to export and of the files they are written to.
use vstd::prelude::*;
use crate::io::image_cache::{find_best_layer, layer_channel_names, LayerInfo};
use crate::io::metadata_traits::{best_position, lemma_first_with_found};
use crate::processing::channel_classification::{
    config_group, determine_channel_group_with_config, find_group, find_group_index,
    ChannelGroupConfig, ChannelGroupConfigView,
};
use crate::text::{owned, push_char, push_str, str_chars, str_eq};

verus! {

/// File format of an exported layer.
#[derive(Clone, Debug, PartialEq, Eq, Structural)]
pub enum ExportFormat {
    /// PNG, 16 bits per channel.
    Png16,
    /// TIFF, 32-bit float per channel.
    Tiff32Float,
}

/// Why an export request cannot be served.
#[derive(Debug, Clone, Copy, PartialEq, Eq, Structural)]
pub enum ExportError {
    /// The group name is none of beauty, scene, objects, cryptomatte, lights.
    UnknownGroup,
    /// No layer belongs to the requested group.
    NoLayersInGroup,
    /// No layer carries the name chosen for the base layer.
    BaseLayerNotFound,
}

/// Internal key of a group as named in the export menu.
pub open spec fn group_key_of(name: Seq<char>) -> Option<Seq<char>> {
    if name == "beauty"@ {
        Some("base"@)
    } else if name == "scene"@ {
        Some("scene"@)
    } else if name == "objects"@ {
        Some("scene_objects"@)
    } else if name == "cryptomatte"@ {
        Some("cryptomatte"@)
    } else if name == "lights"@ {
        Some("light"@)
    } else {
        None
    }
}

/// Display name of the group stored under `key`; empty when there is none.
pub open spec fn group_display_name(cfg: ChannelGroupConfigView, key: Seq<char>) -> Seq<char> {
    match find_group(cfg.groups, key) {
        Some(d) => d.name,
        None => Seq::empty(),
    }
}

/// The layer belongs to the group with key `key`: it is classified under
/// the key itself or under the group's display name.
pub open spec fn layer_in_group(layer_name: Seq<char>, key: Seq<char>, cfg: ChannelGroupConfigView) -> bool {
    let g = config_group(layer_name, cfg);
    g == key || g == group_display_name(cfg, key)
}

/// The layers of the group with key `key`, in order.
pub open spec fn group_members(layers: Seq<LayerInfo>, key: Seq<char>, cfg: ChannelGroupConfigView) -> Seq<
    (Seq<char>, Seq<Seq<char>>),
>
    decreases layers.len(),
{
    if layers.len() == 0 {
        Seq::empty()
    } else {
        let rest = group_members(layers.drop_last(), key, cfg);
        if layer_in_group(layers.last().name@, key, cfg) {
            rest.push(layers.last()@)
        } else {
            rest
        }
    }
}

/// Characters that cannot stand in a file name.
pub open spec fn is_unsafe_char(c: char) -> bool {
    c == '/' || c == '\\' || c == ':' || c == '*' || c == '?' || c == '"' || c == '<' || c == '>'
        || c == '|'
}

/// The name with each unsafe character replaced by an underscore.
pub open spec fn sanitize(s: Seq<char>) -> Seq<char> {
    s.map_values(|c: char| if is_unsafe_char(c) { '_' } else { c })
}

/// File extension of a format.
pub open spec fn extension_of(format: ExportFormat) -> Seq<char> {
    match format {
        ExportFormat::Png16 => "png"@,
        ExportFormat::Tiff32Float => "tiff"@,
    }
}

/// Name of the file an exported layer is written to.
pub open spec fn output_name(base: Seq<char>, layer: Seq<char>, format: ExportFormat) -> Seq<char> {
    if layer.len() == 0 {
        base + "_base."@ + extension_of(format)
    } else {
        base + "_"@ + sanitize(layer) + "."@ + extension_of(format)
    }
}

/// A sanitized layer name holds no character that cannot stand in a file
/// name, and keeps its length.
pub proof fn lemma_sanitized_is_safe(layer: Seq<char>)
    ensures
        sanitize(layer).len() == layer.len(),
        forall|i: int| 0 <= i < layer.len() ==> !is_unsafe_char(#[trigger] sanitize(layer)[i]),
{
}

/// Name of the base layer: the layer `find_best_layer` chooses.
pub open spec fn base_layer_name(layers: Seq<LayerInfo>) -> Seq<char> {
    match best_position(layer_channel_names(layers)) {
        Some(i) => layers[i].name@,
        None => "Layer 1"@,
    }
}

/// First position at or after `i` of a layer named `name`.
pub open spec fn first_named(layers: Seq<LayerInfo>, name: Seq<char>, i: int) -> Option<int>
    decreases layers.len() - i,
{
    if i < 0 || i >= layers.len() {
        None
    } else if layers[i].name@ == name {
        Some(i)
    } else {
        first_named(layers, name, i + 1)
    }
}

proof fn lemma_first_named_found(layers: Seq<LayerInfo>, name: Seq<char>, i: int, j: int)
    requires
        0 <= i <= j < layers.len(),
        layers[j].name@ == name,
    ensures
        first_named(layers, name, i) matches Some(k) && i <= k <= j && layers[k].name@ == name,
    decreases j - i,
{
    if layers[i].name@ != name {
        lemma_first_named_found(layers, name, i + 1, j);
    }
}

/// The internal key of a group named in the export menu.
pub fn group_key(group_name: &str) -> (r: Option<&'static str>)
    ensures
        match r {
            Some(k) => group_key_of(group_name@) == Some(k@),
            None => group_key_of(group_name@) is None,
        },
{
    if str_eq(group_name, "beauty") {
        Some("base")
    } else if str_eq(group_name, "scene") {
        Some("scene")
    } else if str_eq(group_name, "objects") {
        Some("scene_objects")
    } else if str_eq(group_name, "cryptomatte") {
        Some("cryptomatte")
    } else if str_eq(group_name, "lights") {
        Some("light")
    } else {
        None
    }
}

/// The layers of the group named `group_name` in the export menu, in
/// order, classified with `config`. Fails for an unknown group name and
/// for a group without layers.
pub fn layers_in_group(layers_info: &[LayerInfo], group_name: &str, config: &ChannelGroupConfig) -> (r:
    Result<Vec<LayerInfo>, ExportError>)
    ensures
        match group_key_of(group_name@) {
            None => r == Err::<Vec<LayerInfo>, ExportError>(ExportError::UnknownGroup),
            Some(key) => {
                let m = group_members(layers_info@, key, config@);
                if m.len() == 0 {
                    r == Err::<Vec<LayerInfo>, ExportError>(ExportError::NoLayersInGroup)
                } else {
                    r matches Ok(v) && v@.map_values(|l: LayerInfo| l@) == m
                }
            },
        },
{
    let key_str = match group_key(group_name) {
        Some(k) => k,
        None => {
            return Err(ExportError::UnknownGroup);
        },
    };
    let key = owned(key_str);
    let display = match find_group_index(&config.groups, &key) {
        Some(idx) => config.groups[idx].1.name.clone(),
        None => String::new(),
    };
    let ghost cfg = config@;
    let mut out: Vec<LayerInfo> = Vec::new();
    let mut i: usize = 0;
    while i < layers_info.len()
        invariant
            i <= layers_info@.len(),
            cfg == config@,
            key@ == key_str@,
            display@ == group_display_name(cfg, key@),
            out@.map_values(|l: LayerInfo| l@) == group_members(
                layers_info@.subrange(0, i as int),
                key@,
                cfg,
            ),
        decreases layers_info.len() - i,
    {
        let layer = &layers_info[i];
        let g = determine_channel_group_with_config(layer.name.as_str(), config);
        let ghost before = out@;
        proof {
            let pre = layers_info@.subrange(0, i + 1);
            assert(pre.drop_last() =~= layers_info@.subrange(0, i as int));
            assert(pre.last() == layers_info@[i as int]);
        }
        if g == key || g == display {
            let c = layer.clone();
            out.push(c);
            proof {
                assert(c@ == layer@);
                assert(out@.map_values(|l: LayerInfo| l@) =~= before.map_values(|l: LayerInfo| l@).push(
                    layer@,
                ));
            }
        }
        i = i + 1;
    }
    proof {
        assert(layers_info@.subrange(0, layers_info@.len() as int) =~= layers_info@);
    }
    if out.len() == 0 {
        return Err(ExportError::NoLayersInGroup);
    }
    Ok(out)
}

/// The base layer: the first layer carrying the name `find_best_layer`
/// chooses. Fails only when there are no layers.
pub fn find_base_layer(layers_info: &[LayerInfo]) -> (r: Result<LayerInfo, ExportError>)
    ensures
        match first_named(layers_info@, base_layer_name(layers_info@), 0) {
            Some(i) => r matches Ok(l) && l@ == layers_info@[i]@,
            None => r == Err::<LayerInfo, ExportError>(ExportError::BaseLayerNotFound),
        },
        layers_info@.len() > 0 <==> r is Ok,
{
    let name = find_best_layer(layers_info);
    let ghost target = base_layer_name(layers_info@);
    proof {
        let all = layer_channel_names(layers_info@);
        lemma_first_with_found(all, true, 0);
        lemma_first_with_found(all, false, 0);
        if layers_info@.len() > 0 {
            let p = best_position(all)->0;
            lemma_first_named_found(layers_info@, target, 0, p);
        }
    }
    let mut i: usize = 0;
    while i < layers_info.len()
        invariant
            i <= layers_info@.len(),
            name@ == target,
            target == base_layer_name(layers_info@),
            first_named(layers_info@, target, 0) == first_named(layers_info@, target, i as int),
        decreases layers_info.len() - i,
    {
        if layers_info[i].name == name {
            let l = layers_info[i].clone();
            proof {
                assert(first_named(layers_info@, target, i as int) == Some(i as int));
                assert(l@ == layers_info@[i as int]@);
            }
            return Ok(l);
        }
        i = i + 1;
    }
    Err(ExportError::BaseLayerNotFound)
}

/// File extension of a format.
pub fn format_extension(format: &ExportFormat) -> (r: &'static str)
    ensures
        r@ == extension_of(*format),
{
    match format {
        ExportFormat::Png16 => "png",
        ExportFormat::Tiff32Float => "tiff",
    }
}

/// Name of the file a layer is exported to: the base file name, then
/// "_base" for the unnamed layer or "_" and the layer name with the
/// characters that cannot stand in a file name replaced by "_", then the
/// format's extension.
pub fn output_file_name(base_filename: &str, layer_name: &str, format: &ExportFormat) -> (r: String)
    ensures
        r@ == output_name(base_filename@, layer_name@, *format),
{
    let ext = format_extension(format);
    let mut s = owned(base_filename);
    let name = str_chars(layer_name);
    if name.len() == 0 {
        push_str(&mut s, "_base.");
        push_str(&mut s, ext);
    } else {
        push_str(&mut s, "_");
        let ghost start = s@;
        let mut i: usize = 0;
        while i < name.len()
            invariant
                i <= name@.len(),
                name@ == layer_name@,
                s@ == start + sanitize(layer_name@).subrange(0, i as int),
            decreases name.len() - i,
        {
            let c = name[i];
            let d = if c == '/' || c == '\\' || c == ':' || c == '*' || c == '?' || c == '"' || c
                == '<' || c == '>' || c == '|' {
                '_'
            } else {
                c
            };
            push_char(&mut s, d);
            proof {
                assert(sanitize(layer_name@).subrange(0, i + 1) =~= sanitize(layer_name@).subrange(
                    0,
                    i as int,
                ).push(d));
            }
            i = i + 1;
        }
        proof {
            assert(sanitize(layer_name@).subrange(0, name@.len() as int) =~= sanitize(layer_name@));
        }
        push_str(&mut s, ".");
        push_str(&mut s, ext);
    }
    s
}

} // verus!
