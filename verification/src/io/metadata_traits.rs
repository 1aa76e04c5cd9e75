//! Unified layer descriptors and the selection of the layer to display.
use vstd::prelude::*;
use crate::io::exr_metadata::LayerMetadata;
use crate::io::image_cache::{LayerInfo, names_contain};
use crate::io::lazy_exr_loader::LazyLayerMetadata;

pub mod utils;

verus! {

/// Channel information: the short channel name (after the last dot).
#[derive(Debug)]
pub struct ChannelInfo {
    pub name: String,
}

impl Clone for ChannelInfo {
    fn clone(&self) -> (r: Self)
        ensures
            r == *self,
    {
        ChannelInfo { name: self.name.clone() }
    }
}

impl ChannelInfo {
    pub fn new(name: String) -> (r: Self)
        ensures
            r.name == name,
    {
        Self { name }
    }
}

impl View for ChannelInfo {
    type V = Seq<char>;

    open spec fn view(&self) -> Seq<char> {
        self.name@
    }
}

impl DeepView for ChannelInfo {
    type V = Seq<char>;

    open spec fn deep_view(&self) -> Seq<char> {
        self.name@
    }
}

/// The channel names contain R, G and B.
pub open spec fn has_rgb_names(names: Seq<Seq<char>>) -> bool {
    names.contains(seq!['R']) && names.contains(seq!['G']) && names.contains(seq!['B'])
}

/// Common interface of all layer descriptor types.
pub trait LayerDescriptor {
    spec fn spec_name(&self) -> Seq<char>;

    spec fn spec_channel_names(&self) -> Seq<Seq<char>>;

    spec fn spec_dimensions(&self) -> Option<(u32, u32)>;

    /// The layer name.
    fn name(&self) -> (r: &str)
        ensures
            r@ == self.spec_name(),
    ;

    /// The channel names.
    fn channel_names(&self) -> (r: Vec<String>)
        ensures
            r.deep_view() == self.spec_channel_names(),
    ;

    /// (width, height) when known.
    fn dimensions(&self) -> (r: Option<(u32, u32)>)
        ensures
            r == self.spec_dimensions(),
    ;

    /// Whether the layer has a channel with this exact name.
    fn has_channel(&self, channel_name: &str) -> (r: bool)
        ensures
            r == self.spec_channel_names().contains(channel_name@),
    {
        let names = self.channel_names();
        names_contain(&names, channel_name)
    }
}

/// Unified layer information, combining the fields of the basic, metadata
/// and lazily loaded layer descriptions.
#[derive(Clone, Debug)]
pub struct UnifiedLayerInfo {
    pub name: String,
    pub width: Option<u32>,
    pub height: Option<u32>,
    pub channels: Vec<ChannelInfo>,
    pub channel_names: Vec<String>,
    pub attributes: Vec<(String, String)>,
}

/// Names of a list of channel descriptors.
pub open spec fn names_of_channels(channels: Seq<ChannelInfo>) -> Seq<Seq<char>> {
    channels.map_values(|c: ChannelInfo| c.name@)
}

fn channel_name_list(channels: &Vec<ChannelInfo>) -> (r: Vec<String>)
    ensures
        r.deep_view() == names_of_channels(channels@),
{
    let mut out: Vec<String> = Vec::new();
    let mut i: usize = 0;
    while i < channels.len()
        invariant
            i <= channels@.len(),
            out@.len() == i,
            forall|j: int| 0 <= j < i ==> out@[j]@ == channels@[j].name@,
        decreases channels.len() - i,
    {
        out.push(channels[i].name.clone());
        i = i + 1;
    }
    proof {
        assert(out.deep_view() =~= names_of_channels(channels@));
    }
    out
}

fn channel_infos(names: &Vec<String>) -> (r: Vec<ChannelInfo>)
    ensures
        names_of_channels(r@) == names.deep_view(),
{
    let mut out: Vec<ChannelInfo> = Vec::new();
    let mut i: usize = 0;
    while i < names.len()
        invariant
            i <= names@.len(),
            out@.len() == i,
            forall|j: int| 0 <= j < i ==> out@[j].name@ == names@[j]@,
        decreases names.len() - i,
    {
        out.push(ChannelInfo::new(names[i].clone()));
        i = i + 1;
    }
    proof {
        assert(names_of_channels(out@) =~= names.deep_view());
    }
    out
}

impl UnifiedLayerInfo {
    /// From basic layer information (no size, no attributes).
    pub fn from_basic(name: String, channels: Vec<ChannelInfo>) -> (r: Self)
        ensures
            r.name == name,
            r.width is None,
            r.height is None,
            r.channels == channels,
            r.channel_names.deep_view() == names_of_channels(channels@),
            r.attributes@.len() == 0,
    {
        let channel_names = channel_name_list(&channels);
        Self { name, width: None, height: None, channels, channel_names, attributes: Vec::new() }
    }

    /// From file metadata (size and attributes, no channels).
    pub fn from_metadata(name: String, width: u32, height: u32, attributes: Vec<(String, String)>) -> (r:
        Self)
        ensures
            r.name == name,
            r.width == Some(width),
            r.height == Some(height),
            r.channels@.len() == 0,
            r.channel_names@.len() == 0,
            r.attributes == attributes,
    {
        Self {
            name,
            width: Some(width),
            height: Some(height),
            channels: Vec::new(),
            channel_names: Vec::new(),
            attributes,
        }
    }

    /// From lazily loaded metadata (size and channel names).
    pub fn from_lazy(name: String, width: u32, height: u32, channel_names: Vec<String>) -> (r: Self)
        ensures
            r.name == name,
            r.width == Some(width),
            r.height == Some(height),
            names_of_channels(r.channels@) == channel_names.deep_view(),
            r.channel_names.deep_view() == channel_names.deep_view(),
            r.attributes@.len() == 0,
    {
        let channels = channel_infos(&channel_names);
        Self {
            name,
            width: Some(width),
            height: Some(height),
            channels,
            channel_names,
            attributes: Vec::new(),
        }
    }
}

impl LayerDescriptor for UnifiedLayerInfo {
    open spec fn spec_name(&self) -> Seq<char> {
        self.name@
    }

    /// The explicit channel names when there are any, otherwise the names
    /// of the channel descriptors.
    open spec fn spec_channel_names(&self) -> Seq<Seq<char>> {
        if self.channel_names@.len() > 0 {
            self.channel_names.deep_view()
        } else {
            names_of_channels(self.channels@)
        }
    }

    open spec fn spec_dimensions(&self) -> Option<(u32, u32)> {
        match (self.width, self.height) {
            (Some(w), Some(h)) => Some((w, h)),
            _ => None,
        }
    }

    fn name(&self) -> (r: &str) {
        self.name.as_str()
    }

    fn channel_names(&self) -> (r: Vec<String>) {
        if self.channel_names.len() > 0 {
            clone_strings(&self.channel_names)
        } else {
            channel_name_list(&self.channels)
        }
    }

    fn dimensions(&self) -> (r: Option<(u32, u32)>) {
        match (self.width, self.height) {
            (Some(w), Some(h)) => Some((w, h)),
            _ => None,
        }
    }
}

/// A copy of a list of strings.
pub fn clone_strings(v: &Vec<String>) -> (r: Vec<String>)
    ensures
        r.deep_view() == v.deep_view(),
{
    let mut out: Vec<String> = Vec::new();
    let mut i: usize = 0;
    while i < v.len()
        invariant
            i <= v@.len(),
            out@.len() == i,
            forall|j: int| 0 <= j < i ==> out@[j]@ == v@[j]@,
        decreases v.len() - i,
    {
        out.push(v[i].clone());
        i = i + 1;
    }
    proof {
        assert(out.deep_view() =~= v.deep_view());
    }
    out
}

impl From<LayerInfo> for UnifiedLayerInfo {
    /// The layer's name and channels, with the channel names listed.
    fn from(layer_info: LayerInfo) -> (r: Self)
        ensures
            r.name == layer_info.name,
            r.width is None,
            r.height is None,
            r.channels == layer_info.channels,
            r.channel_names.deep_view() == names_of_channels(layer_info.channels@),
            r.attributes@.len() == 0,
    {
        Self::from_basic(layer_info.name, layer_info.channels)
    }
}

impl vstd::std_specs::convert::FromSpecImpl<LayerInfo> for UnifiedLayerInfo {
    /// The lists built by the conversion are stated by `from` itself.
    open spec fn obeys_from_spec() -> bool {
        false
    }

    open spec fn from_spec(v: LayerInfo) -> Self {
        arbitrary()
    }
}

impl From<UnifiedLayerInfo> for LayerInfo {
    fn from(unified: UnifiedLayerInfo) -> (r: Self) {
        LayerInfo { name: unified.name, channels: unified.channels }
    }
}

impl vstd::std_specs::convert::FromSpecImpl<UnifiedLayerInfo> for LayerInfo {
    open spec fn obeys_from_spec() -> bool {
        true
    }

    open spec fn from_spec(v: UnifiedLayerInfo) -> Self {
        LayerInfo { name: v.name, channels: v.channels }
    }
}

impl From<LayerMetadata> for UnifiedLayerInfo {
    /// Name, size and attributes, with no channels.
    fn from(metadata: LayerMetadata) -> (r: Self)
        ensures
            r.name == metadata.name,
            r.width == Some(metadata.width),
            r.height == Some(metadata.height),
            r.channels@.len() == 0,
            r.channel_names@.len() == 0,
            r.attributes == metadata.attributes,
    {
        Self::from_metadata(metadata.name, metadata.width, metadata.height, metadata.attributes)
    }
}

impl vstd::std_specs::convert::FromSpecImpl<LayerMetadata> for UnifiedLayerInfo {
    /// The empty lists built by the conversion are stated by `from` itself.
    open spec fn obeys_from_spec() -> bool {
        false
    }

    open spec fn from_spec(v: LayerMetadata) -> Self {
        arbitrary()
    }
}

/// A size that is unknown counts as zero.
pub open spec fn size_or_zero(v: Option<u32>) -> u32 {
    match v {
        Some(w) => w,
        None => 0,
    }
}

impl From<UnifiedLayerInfo> for LayerMetadata {
    fn from(unified: UnifiedLayerInfo) -> (r: Self) {
        LayerMetadata {
            name: unified.name,
            width: match unified.width {
                Some(w) => w,
                None => 0,
            },
            height: match unified.height {
                Some(h) => h,
                None => 0,
            },
            attributes: unified.attributes,
        }
    }
}

impl vstd::std_specs::convert::FromSpecImpl<UnifiedLayerInfo> for LayerMetadata {
    open spec fn obeys_from_spec() -> bool {
        true
    }

    open spec fn from_spec(v: UnifiedLayerInfo) -> Self {
        LayerMetadata {
            name: v.name,
            width: size_or_zero(v.width),
            height: size_or_zero(v.height),
            attributes: v.attributes,
        }
    }
}

impl From<LazyLayerMetadata> for UnifiedLayerInfo {
    /// Name, size and channel names, with a descriptor per channel.
    fn from(lazy: LazyLayerMetadata) -> (r: Self)
        ensures
            r.name == lazy.name,
            r.width == Some(lazy.width),
            r.height == Some(lazy.height),
            names_of_channels(r.channels@) == lazy.channel_names.deep_view(),
            r.channel_names.deep_view() == lazy.channel_names.deep_view(),
            r.attributes@.len() == 0,
    {
        Self::from_lazy(lazy.name, lazy.width, lazy.height, lazy.channel_names)
    }
}

impl vstd::std_specs::convert::FromSpecImpl<LazyLayerMetadata> for UnifiedLayerInfo {
    /// The lists built by the conversion are stated by `from` itself.
    open spec fn obeys_from_spec() -> bool {
        false
    }

    open spec fn from_spec(v: LazyLayerMetadata) -> Self {
        arbitrary()
    }
}

impl From<UnifiedLayerInfo> for LazyLayerMetadata {
    fn from(unified: UnifiedLayerInfo) -> (r: Self) {
        LazyLayerMetadata {
            name: unified.name,
            width: match unified.width {
                Some(w) => w,
                None => 0,
            },
            height: match unified.height {
                Some(h) => h,
                None => 0,
            },
            channel_names: unified.channel_names,
        }
    }
}

impl vstd::std_specs::convert::FromSpecImpl<UnifiedLayerInfo> for LazyLayerMetadata {
    open spec fn obeys_from_spec() -> bool {
        true
    }

    open spec fn from_spec(v: UnifiedLayerInfo) -> Self {
        LazyLayerMetadata {
            name: v.name,
            width: size_or_zero(v.width),
            height: size_or_zero(v.height),
            channel_names: v.channel_names,
        }
    }
}

/// The channel names fit the display: R, G and B, and A as well when
/// `with_alpha` holds.
pub open spec fn layer_fits(names: Seq<Seq<char>>, with_alpha: bool) -> bool {
    has_rgb_names(names) && (with_alpha ==> names.contains(seq!['A']))
}

/// First position `j >= i` whose channel names fit the display.
pub open spec fn first_with(layers: Seq<Seq<Seq<char>>>, with_alpha: bool, i: int) -> Option<int>
    decreases layers.len() - i,
{
    if i < 0 || i >= layers.len() {
        None
    } else if layer_fits(layers[i], with_alpha) {
        Some(i)
    } else {
        first_with(layers, with_alpha, i + 1)
    }
}

/// Position of the layer best suited for display, given the channel names
/// of each layer: the first RGBA layer, else the first RGB layer, else the
/// first layer.
pub open spec fn best_position(layers: Seq<Seq<Seq<char>>>) -> Option<int> {
    match first_with(layers, true, 0) {
        Some(i) => Some(i),
        None => match first_with(layers, false, 0) {
            Some(i) => Some(i),
            None => if layers.len() > 0 {
                Some(0)
            } else {
                None
            },
        },
    }
}

/// Channel names of each descriptor.
pub open spec fn descriptor_channel_names<T: LayerDescriptor>(layers: Seq<T>) -> Seq<Seq<Seq<char>>> {
    layers.map_values(|l: T| l.spec_channel_names())
}

/// Choosing the layer to display from the plain layer list and from its
/// unified descriptors gives the same position, whenever each descriptor
/// lists the channel names of its layer (as the conversion from the plain
/// layer guarantees).
pub proof fn lemma_best_layer_choices_agree(layers: Seq<LayerInfo>, unified: Seq<UnifiedLayerInfo>)
    requires
        unified.len() == layers.len(),
        forall|i: int|
            0 <= i < layers.len() ==> (#[trigger] unified[i]).spec_channel_names() == names_of_channels(
                layers[i].channels@,
            ),
    ensures
        best_position(descriptor_channel_names(unified)) == best_position(
            crate::io::image_cache::layer_channel_names(layers),
        ),
{
    assert(descriptor_channel_names(unified) =~= crate::io::image_cache::layer_channel_names(layers));
}

/// A unified descriptor made from a plain layer lists that layer's channel
/// names, whether it keeps the names or only the channel descriptors.
pub proof fn lemma_unified_lists_layer_channels(u: UnifiedLayerInfo, l: LayerInfo)
    requires
        u.channels == l.channels,
        u.channel_names.deep_view() == names_of_channels(l.channels@),
    ensures
        u.spec_channel_names() == names_of_channels(l.channels@),
{
}

/// Converting a plain layer to a unified descriptor and back gives the
/// layer again.
pub proof fn lemma_layer_info_round_trip(l: LayerInfo, u: UnifiedLayerInfo)
    requires
        u.name == l.name,
        u.channels == l.channels,
    ensures
        <LayerInfo as vstd::std_specs::convert::FromSpec<UnifiedLayerInfo>>::from_spec(u) == l,
{
}

/// A position found by `first_with` lies in range and fits.
pub proof fn lemma_first_with_found(layers: Seq<Seq<Seq<char>>>, with_alpha: bool, i: int)
    ensures
        first_with(layers, with_alpha, i) matches Some(j) ==> 0 <= i <= j < layers.len()
            && layer_fits(layers[j], with_alpha),
    decreases layers.len() - i,
{
    if 0 <= i < layers.len() && !layer_fits(layers[i], with_alpha) {
        lemma_first_with_found(layers, with_alpha, i + 1);
    }
}

} // verus!
