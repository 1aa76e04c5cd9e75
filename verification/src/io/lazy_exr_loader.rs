//! Layer metadata read ahead of the pixel data: how the channels of the
//! file's headers are gathered into layers, and how a layer is looked up.
use vstd::prelude::*;
use crate::text::{eq_ignore_case, str_chars, str_eq, chars_eq_ignore_case};

verus! {

/// Structure of one layer, known before its pixels are loaded.
#[derive(Clone, Debug)]
pub struct LazyLayerMetadata {
    pub name: String,
    pub width: u32,
    pub height: u32,
    pub channel_names: Vec<String>,
}

/// One channel of a header: the layer it belongs to, its short name, and
/// the size of the header's data window.
#[derive(Clone, Debug)]
pub struct HeaderChannel {
    pub layer: String,
    pub short_name: String,
    pub width: u32,
    pub height: u32,
}

/// Layer, short name, width and height of a header channel.
pub open spec fn channel_view(c: HeaderChannel) -> (Seq<char>, Seq<char>, u32, u32) {
    (c.layer@, c.short_name@, c.width, c.height)
}

/// Name, width, height and channel names of a layer.
pub open spec fn layer_view(m: LazyLayerMetadata) -> (Seq<char>, u32, u32, Seq<Seq<char>>) {
    (m.name@, m.width, m.height, m.channel_names.deep_view())
}

/// Name, width, height and channel names of each layer.
pub open spec fn layer_views(layers: Seq<LazyLayerMetadata>) -> Seq<(Seq<char>, u32, u32, Seq<Seq<char>>)> {
    layers.map_values(|m: LazyLayerMetadata| layer_view(m))
}

/// First position at or after `i` of the layer named `name`.
pub open spec fn layer_index_from(acc: Seq<(Seq<char>, u32, u32, Seq<Seq<char>>)>, name: Seq<char>, i: int) -> Option<int>
    decreases acc.len() - i,
{
    if i < 0 || i >= acc.len() {
        None
    } else if acc[i].0 == name {
        Some(i)
    } else {
        layer_index_from(acc, name, i + 1)
    }
}

/// Layers gathered from the channels, in order of first appearance. A
/// layer takes the size of the header where it first appears; when
/// `same_size` holds, a later channel of another size is left out.
pub open spec fn gather_layers(channels: Seq<(Seq<char>, Seq<char>, u32, u32)>, same_size: bool) -> Seq<
    (Seq<char>, u32, u32, Seq<Seq<char>>),
>
    decreases channels.len(),
{
    if channels.len() == 0 {
        Seq::empty()
    } else {
        let acc = gather_layers(channels.drop_last(), same_size);
        let c = channels.last();
        match layer_index_from(acc, c.0, 0) {
            None => acc.push((c.0, c.2, c.3, seq![c.1])),
            Some(j) => if !same_size || (acc[j].1 == c.2 && acc[j].2 == c.3) {
                acc.update(j, (acc[j].0, acc[j].1, acc[j].2, acc[j].3.push(c.1)))
            } else {
                acc
            },
        }
    }
}

proof fn lemma_layer_index_found(acc: Seq<(Seq<char>, u32, u32, Seq<Seq<char>>)>, name: Seq<char>, i: int)
    ensures
        layer_index_from(acc, name, i) matches Some(j) ==> 0 <= i <= j < acc.len() && acc[j].0
            == name,
    decreases acc.len() - i,
{
    if 0 <= i < acc.len() && acc[i].0 != name {
        lemma_layer_index_found(acc, name, i + 1);
    }
}

/// Not found from `i` on: no layer at or after `i` has the name.
proof fn lemma_layer_index_absent(acc: Seq<(Seq<char>, u32, u32, Seq<Seq<char>>)>, name: Seq<char>, i: int)
    requires
        0 <= i,
        layer_index_from(acc, name, i) is None,
    ensures
        forall|j: int| i <= j < acc.len() ==> (#[trigger] acc[j]).0 != name,
    decreases acc.len() - i,
{
    if i < acc.len() {
        lemma_layer_index_absent(acc, name, i + 1);
    }
}

/// Gathered layers carry distinct names.
pub proof fn lemma_gathered_names_distinct(channels: Seq<(Seq<char>, Seq<char>, u32, u32)>, same_size: bool)
    ensures
        forall|i: int, j: int|
            0 <= i < j < gather_layers(channels, same_size).len() ==> (#[trigger] gather_layers(
                channels,
                same_size,
            )[i]).0 != (#[trigger] gather_layers(channels, same_size)[j]).0,
    decreases channels.len(),
{
    if channels.len() > 0 {
        let acc = gather_layers(channels.drop_last(), same_size);
        lemma_gathered_names_distinct(channels.drop_last(), same_size);
        let c = channels.last();
        let g = gather_layers(channels, same_size);
        match layer_index_from(acc, c.0, 0) {
            None => {
                lemma_layer_index_absent(acc, c.0, 0);
                assert forall|i: int, j: int| 0 <= i < j < g.len() implies g[i].0 != g[j].0 by {
                    if j == acc.len() {
                        assert(g[j].0 == c.0);
                        assert(acc[i].0 != c.0);
                    } else {
                        assert(g[i] == acc[i] && g[j] == acc[j]);
                    }
                }
            },
            Some(k) => {
                lemma_layer_index_found(acc, c.0, 0);
                assert forall|i: int, j: int| 0 <= i < j < g.len() implies g[i].0 != g[j].0 by {
                    assert(g[i].0 == acc[i].0 && g[j].0 == acc[j].0);
                }
            },
        }
    }
}

/// Number of channels held by the gathered layers.
pub open spec fn channel_total(acc: Seq<(Seq<char>, u32, u32, Seq<Seq<char>>)>) -> nat
    decreases acc.len(),
{
    if acc.len() == 0 {
        0
    } else {
        channel_total(acc.drop_last()) + acc.last().3.len()
    }
}

proof fn lemma_channel_total_update(
    acc: Seq<(Seq<char>, u32, u32, Seq<Seq<char>>)>,
    k: int,
    x: (Seq<char>, u32, u32, Seq<Seq<char>>),
)
    requires
        0 <= k < acc.len(),
    ensures
        channel_total(acc.update(k, x)) == channel_total(acc) - acc[k].3.len() + x.3.len(),
    decreases acc.len(),
{
    let u = acc.update(k, x);
    if k == acc.len() - 1 {
        assert(u.drop_last() =~= acc.drop_last());
    } else {
        assert(u.drop_last() =~= acc.drop_last().update(k, x));
        lemma_channel_total_update(acc.drop_last(), k, x);
    }
}

/// When sizes are not compared, every channel lands in exactly one layer:
/// the gathered layers hold as many channels as were given.
pub proof fn lemma_gather_keeps_every_channel(channels: Seq<(Seq<char>, Seq<char>, u32, u32)>)
    ensures
        channel_total(gather_layers(channels, false)) == channels.len(),
    decreases channels.len(),
{
    if channels.len() > 0 {
        let acc = gather_layers(channels.drop_last(), false);
        lemma_gather_keeps_every_channel(channels.drop_last());
        let c = channels.last();
        match layer_index_from(acc, c.0, 0) {
            None => {
                assert(acc.push((c.0, c.2, c.3, seq![c.1])).drop_last() =~= acc);
            },
            Some(k) => {
                lemma_layer_index_found(acc, c.0, 0);
                lemma_channel_total_update(acc, k, (acc[k].0, acc[k].1, acc[k].2, acc[k].3.push(c.1)));
            },
        }
    }
}

/// Position of the layer named `name` among the gathered layers.
fn find_layer(acc: &Vec<LazyLayerMetadata>, name: &str) -> (r: Option<usize>)
    ensures
        r matches Some(j) ==> layer_index_from(layer_views(acc@), name@, 0) == Some(j as int),
        r is None ==> layer_index_from(layer_views(acc@), name@, 0) is None,
{
    let ghost views = layer_views(acc@);
    let mut i: usize = 0;
    while i < acc.len()
        invariant
            i <= acc@.len(),
            views == layer_views(acc@),
            layer_index_from(views, name@, 0) == layer_index_from(views, name@, i as int),
        decreases acc.len() - i,
    {
        if str_eq(acc[i].name.as_str(), name) {
            return Some(i);
        }
        i = i + 1;
    }
    None
}

/// Gathers the channels of a file's headers into layers, in order of first
/// appearance; a layer has the size of the header where it first appears,
/// and a channel of the same layer in a header of another size is left out.
pub fn gather_layer_metadata(channels: &[HeaderChannel]) -> (r: Vec<LazyLayerMetadata>)
    ensures
        layer_views(r@) == gather_layers(
            channels@.map_values(|c: HeaderChannel| channel_view(c)),
            true,
        ),
{
    let ghost input = channels@.map_values(|c: HeaderChannel| channel_view(c));
    let mut acc: Vec<LazyLayerMetadata> = Vec::new();
    let mut i: usize = 0;
    while i < channels.len()
        invariant
            i <= channels@.len(),
            input == channels@.map_values(|c: HeaderChannel| channel_view(c)),
            layer_views(acc@) == gather_layers(
                input.subrange(0, i as int),
                true,
            ),
        decreases channels.len() - i,
    {
        let c = &channels[i];
        let ghost before = layer_views(acc@);
        proof {
            let pre = input.subrange(0, i + 1);
            assert(pre.drop_last() =~= input.subrange(0, i as int));
            assert(pre.last() == channel_view(*c));
            lemma_layer_index_found(before, c.layer@, 0);
        }
        match find_layer(&acc, c.layer.as_str()) {
            None => {
                let mut names: Vec<String> = Vec::new();
                names.push(c.short_name.clone());
                acc.push(
                    LazyLayerMetadata {
                        name: c.layer.clone(),
                        width: c.width,
                        height: c.height,
                        channel_names: names,
                    },
                );
                proof {
                    assert(names.deep_view() =~= seq![c.short_name@]);
                    assert(layer_views(acc@) =~= before.push(
                        (c.layer@, c.width, c.height, seq![c.short_name@]),
                    ));
                    assert(layer_views(acc@) == gather_layers(
                        input.subrange(0, i + 1),
                        true,
                    ));
                }
            },
            Some(j) => {
                proof {
                    assert(layer_index_from(before, c.layer@, 0) == Some(j as int));
                    assert(before[j as int] == layer_view(acc@[j as int]));
                }
                if acc[j].width == c.width && acc[j].height == c.height {
                    let ghost old_names = acc@[j as int].channel_names.deep_view();
                    acc[j].channel_names.push(c.short_name.clone());
                    proof {
                        assert(acc@[j as int].channel_names.deep_view() =~= old_names.push(
                            c.short_name@,
                        ));
                        assert(layer_views(acc@) =~= before.update(
                            j as int,
                            (before[j as int].0, before[j as int].1, before[j as int].2, before[j as int].3.push(
                                c.short_name@,
                            )),
                        ));
                        assert(layer_views(acc@) == gather_layers(
                            input.subrange(0, i + 1),
                            true,
                        ));
                    }
                } else {
                    assert(layer_views(acc@) == gather_layers(
                        input.subrange(0, i + 1),
                        true,
                    ));
                }
            },
        }
        i = i + 1;
    }
    proof {
        assert(input.subrange(0, channels@.len() as int) =~= input);
    }
    acc
}

/// Short names of the channels of the layer `layer_name` (layer names
/// compared ignoring ASCII case), in order.
pub open spec fn layer_channel_shorts(channels: Seq<(Seq<char>, Seq<char>, u32, u32)>, layer_name: Seq<char>) -> Seq<
    Seq<char>,
>
    decreases channels.len(),
{
    if channels.len() == 0 {
        Seq::empty()
    } else {
        let rest = layer_channel_shorts(channels.drop_last(), layer_name);
        if eq_ignore_case(channels.last().0, layer_name) {
            rest.push(channels.last().1)
        } else {
            rest
        }
    }
}

/// Short names of the channels that belong to the layer `layer_name`,
/// layer names compared ignoring ASCII case, in the order given.
pub fn channels_of_layer(channels: &[HeaderChannel], layer_name: &str) -> (r: Vec<String>)
    ensures
        r.deep_view() == layer_channel_shorts(
            channels@.map_values(|c: HeaderChannel| channel_view(c)),
            layer_name@,
        ),
{
    let ghost input = channels@.map_values(|c: HeaderChannel| channel_view(c));
    let wanted = str_chars(layer_name);
    let mut out: Vec<String> = Vec::new();
    let mut i: usize = 0;
    while i < channels.len()
        invariant
            i <= channels@.len(),
            wanted@ == layer_name@,
            input == channels@.map_values(|c: HeaderChannel| channel_view(c)),
            out.deep_view() == layer_channel_shorts(input.subrange(0, i as int), layer_name@),
        decreases channels.len() - i,
    {
        let c = &channels[i];
        proof {
            let pre = input.subrange(0, i + 1);
            assert(pre.drop_last() =~= input.subrange(0, i as int));
            assert(pre.last() == channel_view(*c));
        }
        let lname = str_chars(c.layer.as_str());
        if chars_eq_ignore_case(lname.as_slice(), wanted.as_slice()) {
            let ghost before = out.deep_view();
            out.push(c.short_name.clone());
            proof {
                assert(out.deep_view() =~= before.push(c.short_name@));
            }
        }
        i = i + 1;
    }
    proof {
        assert(input.subrange(0, channels@.len() as int) =~= input);
    }
    out
}

/// Names of the layers.
pub open spec fn layer_names(layers: Seq<LazyLayerMetadata>) -> Seq<Seq<char>> {
    layers.map_values(|m: LazyLayerMetadata| m.name@)
}

/// Position of the first layer whose name equals `layer_name` ignoring
/// ASCII case.
pub open spec fn layer_position(names: Seq<Seq<char>>, layer_name: Seq<char>, i: int) -> Option<int>
    decreases names.len() - i,
{
    if i < 0 || i >= names.len() {
        None
    } else if eq_ignore_case(names[i], layer_name) {
        Some(i)
    } else {
        layer_position(names, layer_name, i + 1)
    }
}

/// The metadata of the layer named `layer_name`, ignoring ASCII case: the
/// first such layer.
pub fn find_layer_metadata(metadata: &[LazyLayerMetadata], layer_name: &str) -> (r: Option<usize>)
    ensures
        r matches Some(j) ==> layer_position(layer_names(metadata@), layer_name@, 0) == Some(j as int),
        r is None ==> layer_position(layer_names(metadata@), layer_name@, 0) is None,
{
    let ghost names = layer_names(metadata@);
    let wanted = str_chars(layer_name);
    let mut i: usize = 0;
    while i < metadata.len()
        invariant
            i <= metadata@.len(),
            wanted@ == layer_name@,
            names == layer_names(metadata@),
            layer_position(names, layer_name@, 0) == layer_position(names, layer_name@, i as int),
        decreases metadata.len() - i,
    {
        let name = str_chars(metadata[i].name.as_str());
        if chars_eq_ignore_case(name.as_slice(), wanted.as_slice()) {
            return Some(i);
        }
        i = i + 1;
    }
    None
}

} // verus!
