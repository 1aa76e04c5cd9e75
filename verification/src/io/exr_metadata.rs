//! EXR metadata as presented to the user: grouped key/value items, layers
//! with their attributes, and the text lines and table rows built from them.
use vstd::prelude::*;
use crate::sorting::{key_of, stable_sort, stably_sorted, SortKey};
use crate::text::{
    lemma_lex_total, lex_le, chars_eq_ignore_case, chars_to_ascii_lowercase, chars_trim, decimal, eq_ignore_case, lower_seq,
    owned, push_decimal, push_str, str_chars, str_eq, string_from_chars, to_lowercase, trim,
    unicode_lowercase,
};

verus! {

/// A named group of key/value items.
#[derive(Debug, Clone)]
pub struct MetadataGroup {
    pub name: String,
    pub items: Vec<(String, String)>,
}

/// One layer: its name (empty for the base layer), size and attributes.
#[derive(Debug, Clone)]
pub struct LayerMetadata {
    pub name: String,
    pub width: u32,
    pub height: u32,
    pub attributes: Vec<(String, String)>,
}

/// Metadata of a whole file.
#[derive(Debug, Clone)]
pub struct ExrMetadata {
    pub groups: Vec<MetadataGroup>,
    pub layers: Vec<LayerMetadata>,
}

pub struct MetadataGroupView {
    pub name: Seq<char>,
    pub items: Seq<(Seq<char>, Seq<char>)>,
}

pub struct LayerMetadataView {
    pub name: Seq<char>,
    pub width: u32,
    pub height: u32,
    pub attributes: Seq<(Seq<char>, Seq<char>)>,
}

pub struct ExrMetadataView {
    pub groups: Seq<MetadataGroupView>,
    pub layers: Seq<LayerMetadataView>,
}

impl View for MetadataGroup {
    type V = MetadataGroupView;

    open spec fn view(&self) -> MetadataGroupView {
        MetadataGroupView { name: self.name@, items: self.items.deep_view() }
    }
}

impl DeepView for MetadataGroup {
    type V = MetadataGroupView;

    open spec fn deep_view(&self) -> MetadataGroupView {
        self@
    }
}

impl View for LayerMetadata {
    type V = LayerMetadataView;

    open spec fn view(&self) -> LayerMetadataView {
        LayerMetadataView {
            name: self.name@,
            width: self.width,
            height: self.height,
            attributes: self.attributes.deep_view(),
        }
    }
}

impl DeepView for LayerMetadata {
    type V = LayerMetadataView;

    open spec fn deep_view(&self) -> LayerMetadataView {
        self@
    }
}

impl View for ExrMetadata {
    type V = ExrMetadataView;

    open spec fn view(&self) -> ExrMetadataView {
        ExrMetadataView { groups: self.groups.deep_view(), layers: self.layers.deep_view() }
    }
}

// ---------------------------------------------------------------------------
// Specification of the presentation
// ---------------------------------------------------------------------------

/// A group item as a line: the bare value when the key is empty.
pub open spec fn item_line(item: (Seq<char>, Seq<char>)) -> Seq<char> {
    if item.0.len() == 0 {
        item.1
    } else {
        item.0 + ": "@ + item.1
    }
}

/// Lines of a group: its bracketed name, then one line per item.
pub open spec fn group_lines(g: MetadataGroupView) -> Seq<Seq<char>> {
    seq!["["@ + g.name + "]"@] + g.items.map_values(|it: (Seq<char>, Seq<char>)| item_line(it))
}

/// Title of a layer: its name, or a placeholder for the unnamed base layer.
pub open spec fn layer_title(name: Seq<char>) -> Seq<char> {
    if name.len() == 0 {
        "(domyślna)"@
    } else {
        name
    }
}

/// `WxH` text of a size.
pub open spec fn size_text(w: u32, h: u32) -> Seq<char> {
    decimal(w as nat) + "x"@ + decimal(h as nat)
}

/// A layer attribute as an indented line.
pub open spec fn attribute_line(item: (Seq<char>, Seq<char>)) -> Seq<char> {
    if item.0.len() == 0 {
        "  "@ + item.1
    } else {
        "  "@ + item.0 + ": "@ + item.1
    }
}

/// Lines of a layer: a title line with its size, then its attributes.
pub open spec fn layer_lines(l: LayerMetadataView) -> Seq<Seq<char>> {
    seq!["Warstwa: "@ + layer_title(l.name) + "  — "@ + size_text(l.width, l.height)]
        + l.attributes.map_values(|it: (Seq<char>, Seq<char>)| attribute_line(it))
}

pub open spec fn lines_of_groups(gs: Seq<MetadataGroupView>) -> Seq<Seq<char>>
    decreases gs.len(),
{
    if gs.len() == 0 {
        Seq::empty()
    } else {
        lines_of_groups(gs.drop_last()) + group_lines(gs.last())
    }
}

pub open spec fn lines_of_layers(ls: Seq<LayerMetadataView>) -> Seq<Seq<char>>
    decreases ls.len(),
{
    if ls.len() == 0 {
        Seq::empty()
    } else {
        lines_of_layers(ls.drop_last()) + layer_lines(ls.last())
    }
}

/// All text lines of the metadata: groups first, then layers.
pub open spec fn ui_lines(m: ExrMetadataView) -> Seq<Seq<char>> {
    lines_of_groups(m.groups) + lines_of_layers(m.layers)
}

/// Items of every group named `name`, in order.
pub open spec fn items_named(gs: Seq<MetadataGroupView>, name: Seq<char>) -> Seq<(Seq<char>, Seq<char>)>
    decreases gs.len(),
{
    if gs.len() == 0 {
        Seq::empty()
    } else {
        items_named(gs.drop_last(), name) + if gs.last().name == name {
            gs.last().items
        } else {
            Seq::empty()
        }
    }
}

/// A layer attribute as a table row: trimmed key (a placeholder when blank) and value.
pub open spec fn attribute_row(item: (Seq<char>, Seq<char>)) -> (Seq<char>, Seq<char>) {
    (
        if trim(item.0).len() == 0 {
            "Atrybut"@
        } else {
            trim(item.0)
        },
        item.1,
    )
}

/// Rows of a layer: a title row, a size row, then its attributes.
pub open spec fn layer_rows(l: LayerMetadataView) -> Seq<(Seq<char>, Seq<char>)> {
    seq![
        ("Warstwa: "@ + layer_title(l.name), Seq::<char>::empty()),
        ("Wymiary"@, size_text(l.width, l.height)),
    ] + l.attributes.map_values(|it: (Seq<char>, Seq<char>)| attribute_row(it))
}

pub open spec fn rows_of_layers(ls: Seq<LayerMetadataView>) -> Seq<(Seq<char>, Seq<char>)>
    decreases ls.len(),
{
    if ls.len() == 0 {
        Seq::empty()
    } else {
        rows_of_layers(ls.drop_last()) + layer_rows(ls.last())
    }
}

/// Two-column rows: the general section, the header section, then layers.
pub open spec fn ui_rows(m: ExrMetadataView) -> Seq<(Seq<char>, Seq<char>)> {
    seq![("Ogólne"@, Seq::<char>::empty())] + items_named(m.groups, "Ogólne"@) + seq![
        ("Nagłówek"@, Seq::<char>::empty()),
    ] + items_named(m.groups, "Nagłówek"@) + rows_of_layers(m.layers)
}

// ---------------------------------------------------------------------------
// Building lines and rows
// ---------------------------------------------------------------------------

fn push_line(out: &mut Vec<String>, s: String)
    ensures
        final(out).deep_view() == old(out).deep_view().push(s@),
{
    let ghost before = out@;
    out.push(s);
    proof {
        assert(out.deep_view() =~= old(out).deep_view().push(s@)) by {
            assert forall|j: int| 0 <= j < before.len() implies out@[j] == before[j] by {}
        }
    }
}

fn push_row(out: &mut Vec<(String, String)>, k: String, v: String)
    ensures
        final(out).deep_view() == old(out).deep_view().push((k@, v@)),
{
    let ghost before = out@;
    out.push((k, v));
    proof {
        assert(out.deep_view() =~= old(out).deep_view().push((k@, v@))) by {
            assert forall|j: int| 0 <= j < before.len() implies out@[j] == before[j] by {}
        }
    }
}

fn size_string(s: &mut String, w: u32, h: u32)
    ensures
        final(s)@ == old(s)@ + size_text(w, h),
{
    push_decimal(s, w as u64);
    push_str(s, "x");
    push_decimal(s, h as u64);
    proof {
        assert(old(s)@ + decimal(w as nat) + "x"@ + decimal(h as nat) =~= old(s)@ + size_text(w, h));
    }
}

fn title_string(name: &String) -> (r: String)
    ensures
        r@ == layer_title(name@),
{
    if name.as_str().unicode_len() == 0 {
        owned("(domyślna)")
    } else {
        name.clone()
    }
}

fn push_group_lines(out: &mut Vec<String>, g: &MetadataGroup)
    ensures
        final(out).deep_view() == old(out).deep_view() + group_lines(g@),
{
    let mut head = String::new();
    push_str(&mut head, "[");
    push_str(&mut head, g.name.as_str());
    push_str(&mut head, "]");
    proof {
        assert(head@ =~= "["@ + g.name@ + "]"@);
    }
    push_line(out, head);
    let ghost base = old(out).deep_view().push("["@ + g.name@ + "]"@);
    let ghost f = |it: (Seq<char>, Seq<char>)| item_line(it);
    let mut i: usize = 0;
    while i < g.items.len()
        invariant
            i <= g.items@.len(),
            f == (|it: (Seq<char>, Seq<char>)| item_line(it)),
            out.deep_view() == base + g.items.deep_view().subrange(0, i as int).map_values(f),
        decreases g.items.len() - i,
    {
        let (k, v) = (&g.items[i].0, &g.items[i].1);
        let line = if k.as_str().unicode_len() == 0 {
            v.clone()
        } else {
            let mut s = k.clone();
            push_str(&mut s, ": ");
            push_str(&mut s, v.as_str());
            s
        };
        proof {
            assert(g.items.deep_view()[i as int] == (k@, v@));
            assert(line@ == item_line((k@, v@)));
        }
        push_line(out, line);
        proof {
            let dv = g.items.deep_view();
            assert(f(dv[i as int]) == item_line((k@, v@)));
            assert forall|j: int| 0 <= j < i + 1 implies #[trigger] dv.subrange(0, i + 1).map_values(f)[j]
                == dv.subrange(0, i as int).map_values(f).push(item_line((k@, v@)))[j] by {
                if j < i {
                    assert(dv.subrange(0, i + 1)[j] == dv.subrange(0, i as int)[j]);
                }
            }
            assert(dv.subrange(0, i + 1).map_values(f) =~= dv.subrange(0, i as int).map_values(f).push(
                item_line((k@, v@)),
            ));
        }
        i = i + 1;
    }
    proof {
        assert(g.items.deep_view().subrange(0, g.items@.len() as int) =~= g.items.deep_view());
        assert(seq!["["@ + g.name@ + "]"@] + g.items.deep_view().map_values(f) =~= group_lines(g@));
        assert(old(out).deep_view() + group_lines(g@) =~= base + g.items.deep_view().map_values(f));
    }
}

fn push_layer_lines(out: &mut Vec<String>, l: &LayerMetadata)
    ensures
        final(out).deep_view() == old(out).deep_view() + layer_lines(l@),
{
    let mut head = String::new();
    push_str(&mut head, "Warstwa: ");
    let title = title_string(&l.name);
    push_str(&mut head, title.as_str());
    push_str(&mut head, "  — ");
    size_string(&mut head, l.width, l.height);
    let ghost hv = "Warstwa: "@ + layer_title(l.name@) + "  — "@ + size_text(l.width, l.height);
    proof {
        assert(head@ =~= hv);
    }
    push_line(out, head);
    let ghost base = old(out).deep_view().push(hv);
    let ghost f = |it: (Seq<char>, Seq<char>)| attribute_line(it);
    let mut i: usize = 0;
    while i < l.attributes.len()
        invariant
            i <= l.attributes@.len(),
            f == (|it: (Seq<char>, Seq<char>)| attribute_line(it)),
            out.deep_view() == base + l.attributes.deep_view().subrange(0, i as int).map_values(f),
        decreases l.attributes.len() - i,
    {
        let (k, v) = (&l.attributes[i].0, &l.attributes[i].1);
        let mut s = String::new();
        push_str(&mut s, "  ");
        if k.as_str().unicode_len() != 0 {
            push_str(&mut s, k.as_str());
            push_str(&mut s, ": ");
        }
        push_str(&mut s, v.as_str());
        proof {
            assert(l.attributes.deep_view()[i as int] == (k@, v@));
            if k@.len() == 0 {
                assert(s@ =~= attribute_line((k@, v@)));
            } else {
                assert(s@ =~= attribute_line((k@, v@)));
            }
        }
        push_line(out, s);
        proof {
            let dv = l.attributes.deep_view();
            assert(f(dv[i as int]) == attribute_line((k@, v@)));
            assert forall|j: int| 0 <= j < i + 1 implies #[trigger] dv.subrange(0, i + 1).map_values(f)[j]
                == dv.subrange(0, i as int).map_values(f).push(attribute_line((k@, v@)))[j] by {
                if j < i {
                    assert(dv.subrange(0, i + 1)[j] == dv.subrange(0, i as int)[j]);
                }
            }
            assert(dv.subrange(0, i + 1).map_values(f) =~= dv.subrange(0, i as int).map_values(f).push(
                attribute_line((k@, v@)),
            ));
        }
        i = i + 1;
    }
    proof {
        assert(l.attributes.deep_view().subrange(0, l.attributes@.len() as int) =~= l.attributes.deep_view());
        assert(old(out).deep_view() + layer_lines(l@) =~= base + l.attributes.deep_view().map_values(f));
    }
}

/// Plain text lines for the UI: every group (a bracketed title and its
/// items), then every layer (a title with its size and its attributes).
pub fn build_ui_lines(meta: &ExrMetadata) -> (r: Vec<String>)
    ensures
        r.deep_view() == ui_lines(meta@),
{
    let mut out: Vec<String> = Vec::new();
    let mut i: usize = 0;
    proof {
        assert(out.deep_view() =~= lines_of_groups(meta@.groups.subrange(0, 0)));
    }
    while i < meta.groups.len()
        invariant
            i <= meta.groups@.len(),
            out.deep_view() == lines_of_groups(meta@.groups.subrange(0, i as int)),
        decreases meta.groups.len() - i,
    {
        push_group_lines(&mut out, &meta.groups[i]);
        proof {
            let sub = meta@.groups.subrange(0, i + 1);
            assert(sub.drop_last() =~= meta@.groups.subrange(0, i as int));
            assert(sub.last() == meta.groups@[i as int]@);
        }
        i = i + 1;
    }
    proof {
        assert(meta@.groups.subrange(0, meta.groups@.len() as int) =~= meta@.groups);
    }
    let ghost gl = out.deep_view();
    let mut j: usize = 0;
    proof {
        assert(out.deep_view() =~= gl + lines_of_layers(meta@.layers.subrange(0, 0)));
    }
    while j < meta.layers.len()
        invariant
            j <= meta.layers@.len(),
            gl == lines_of_groups(meta@.groups),
            out.deep_view() == gl + lines_of_layers(meta@.layers.subrange(0, j as int)),
        decreases meta.layers.len() - j,
    {
        push_layer_lines(&mut out, &meta.layers[j]);
        proof {
            let sub = meta@.layers.subrange(0, j + 1);
            assert(sub.drop_last() =~= meta@.layers.subrange(0, j as int));
            assert(sub.last() == meta.layers@[j as int]@);
            assert(out.deep_view() =~= gl + lines_of_layers(sub));
        }
        j = j + 1;
    }
    proof {
        assert(meta@.layers.subrange(0, meta.layers@.len() as int) =~= meta@.layers);
    }
    out
}

fn push_items_named(out: &mut Vec<(String, String)>, groups: &Vec<MetadataGroup>, name: &str)
    ensures
        final(out).deep_view() == old(out).deep_view() + items_named(groups.deep_view(), name@),
{
    let ghost base = old(out).deep_view();
    let mut i: usize = 0;
    proof {
        assert(out.deep_view() =~= base + items_named(groups.deep_view().subrange(0, 0), name@));
    }
    while i < groups.len()
        invariant
            i <= groups@.len(),
            base == old(out).deep_view(),
            out.deep_view() == base + items_named(groups.deep_view().subrange(0, i as int), name@),
        decreases groups.len() - i,
    {
        let g = &groups[i];
        let ghost before = out.deep_view();
        if str_eq(g.name.as_str(), name) {
            let mut k: usize = 0;
            while k < g.items.len()
                invariant
                    k <= g.items@.len(),
                    out.deep_view() == before + g.items.deep_view().subrange(0, k as int),
                decreases g.items.len() - k,
            {
                push_row(out, g.items[k].0.clone(), g.items[k].1.clone());
                proof {
                    assert(g.items.deep_view().subrange(0, k + 1) =~= g.items.deep_view().subrange(0, k as int).push(g.items.deep_view()[k as int]));
                }
                k = k + 1;
            }
            proof {
                assert(g.items.deep_view().subrange(0, g.items@.len() as int) =~= g.items.deep_view());
            }
        }
        proof {
            let sub = groups.deep_view().subrange(0, i + 1);
            assert(sub.drop_last() =~= groups.deep_view().subrange(0, i as int));
            assert(sub.last() == g@);
            if g@.name == name@ {
                assert(out.deep_view() =~= base + items_named(sub, name@));
            } else {
                assert(out.deep_view() =~= base + items_named(sub, name@));
            }
        }
        i = i + 1;
    }
    proof {
        assert(groups.deep_view().subrange(0, groups@.len() as int) =~= groups.deep_view());
    }
}

fn push_layer_rows(out: &mut Vec<(String, String)>, l: &LayerMetadata)
    ensures
        final(out).deep_view() == old(out).deep_view() + layer_rows(l@),
{
    let mut head = String::new();
    push_str(&mut head, "Warstwa: ");
    let title = title_string(&l.name);
    push_str(&mut head, title.as_str());
    push_row(out, head, String::new());
    let mut size = String::new();
    size_string(&mut size, l.width, l.height);
    push_row(out, owned("Wymiary"), size);
    let ghost base = old(out).deep_view() + seq![
        ("Warstwa: "@ + layer_title(l.name@), Seq::<char>::empty()),
        ("Wymiary"@, size_text(l.width, l.height)),
    ];
    proof {
        assert(out.deep_view() =~= base);
    }
    let ghost f = |it: (Seq<char>, Seq<char>)| attribute_row(it);
    let mut i: usize = 0;
    while i < l.attributes.len()
        invariant
            i <= l.attributes@.len(),
            f == (|it: (Seq<char>, Seq<char>)| attribute_row(it)),
            out.deep_view() == base + l.attributes.deep_view().subrange(0, i as int).map_values(f),
        decreases l.attributes.len() - i,
    {
        let (k, v) = (&l.attributes[i].0, &l.attributes[i].1);
        let kc = str_chars(k.as_str());
        let t = chars_trim(kc.as_slice());
        let key = if t.len() == 0 {
            owned("Atrybut")
        } else {
            string_from_chars(t.as_slice())
        };
        proof {
            assert(l.attributes.deep_view()[i as int] == (k@, v@));
            assert((key@, v@) == attribute_row((k@, v@)));
        }
        push_row(out, key, v.clone());
        proof {
            let dv = l.attributes.deep_view();
            assert(f(dv[i as int]) == attribute_row((k@, v@)));
            assert forall|j: int| 0 <= j < i + 1 implies #[trigger] dv.subrange(0, i + 1).map_values(f)[j]
                == dv.subrange(0, i as int).map_values(f).push(attribute_row((k@, v@)))[j] by {
                if j < i {
                    assert(dv.subrange(0, i + 1)[j] == dv.subrange(0, i as int)[j]);
                }
            }
            assert(dv.subrange(0, i + 1).map_values(f) =~= dv.subrange(0, i as int).map_values(f).push(
                attribute_row((k@, v@)),
            ));
        }
        i = i + 1;
    }
    proof {
        assert(l.attributes.deep_view().subrange(0, l.attributes@.len() as int) =~= l.attributes.deep_view());
        assert(old(out).deep_view() + layer_rows(l@) =~= base + l.attributes.deep_view().map_values(f));
    }
}

/// Two-column rows for a table: the general section, the header section,
/// then for every layer a title row, a size row and its attributes.
pub fn build_ui_rows(meta: &ExrMetadata) -> (r: Vec<(String, String)>)
    ensures
        r.deep_view() == ui_rows(meta@),
{
    let mut rows: Vec<(String, String)> = Vec::new();
    push_row(&mut rows, owned("Ogólne"), String::new());
    push_items_named(&mut rows, &meta.groups, "Ogólne");
    push_row(&mut rows, owned("Nagłówek"), String::new());
    push_items_named(&mut rows, &meta.groups, "Nagłówek");
    let ghost head = rows.deep_view();
    proof {
        assert(head =~= seq![("Ogólne"@, Seq::<char>::empty())] + items_named(meta@.groups, "Ogólne"@)
            + seq![("Nagłówek"@, Seq::<char>::empty())] + items_named(meta@.groups, "Nagłówek"@));
    }
    let mut j: usize = 0;
    proof {
        assert(rows.deep_view() =~= head + rows_of_layers(meta@.layers.subrange(0, 0)));
    }
    while j < meta.layers.len()
        invariant
            j <= meta.layers@.len(),
            rows.deep_view() == head + rows_of_layers(meta@.layers.subrange(0, j as int)),
        decreases meta.layers.len() - j,
    {
        push_layer_rows(&mut rows, &meta.layers[j]);
        proof {
            let sub = meta@.layers.subrange(0, j + 1);
            assert(sub.drop_last() =~= meta@.layers.subrange(0, j as int));
            assert(sub.last() == meta.layers@[j as int]@);
            assert(rows.deep_view() =~= head + rows_of_layers(sub));
        }
        j = j + 1;
    }
    proof {
        assert(meta@.layers.subrange(0, meta.layers@.len() as int) =~= meta@.layers);
    }
    rows
}

// ---------------------------------------------------------------------------
// Grouping header attributes and ordering layers
// ---------------------------------------------------------------------------

/// Canonical key of an attribute name: common spellings of the pixel aspect
/// ratio, chromaticities and time code (compared ignoring ASCII case) map
/// to one key each; any other name is kept as it is.
pub open spec fn normalized_key(raw: Seq<char>) -> Seq<char> {
    let l = lower_seq(raw);
    if l == "pixel_aspect_ratio"@ || l == "pixel_aspect"@ {
        "pixel_aspect"@
    } else if l == "chromaticities"@ {
        "chromaticities"@
    } else if l == "time_code"@ || l == "timecode"@ {
        "time_code"@
    } else {
        raw
    }
}

/// Position of the first item whose key equals `key` ignoring ASCII case.
pub open spec fn find_key_ci(items: Seq<(Seq<char>, Seq<char>)>, key: Seq<char>) -> Option<int>
    decreases items.len(),
{
    if items.len() == 0 {
        None
    } else if eq_ignore_case(items[0].0, key) {
        Some(0)
    } else {
        match find_key_ci(items.drop_first(), key) {
            Some(j) => Some(j + 1),
            None => None,
        }
    }
}

/// `items` after setting `key` to `value`: the value of the first item with
/// that key (ignoring ASCII case) is replaced, otherwise the pair is appended.
pub open spec fn upsert(items: Seq<(Seq<char>, Seq<char>)>, key: Seq<char>, value: Seq<char>) -> Seq<
    (Seq<char>, Seq<char>),
> {
    match find_key_ci(items, key) {
        Some(i) => items.update(i, (items[i].0, value)),
        None => items.push((key, value)),
    }
}

proof fn lemma_find_key_ci_bounds(items: Seq<(Seq<char>, Seq<char>)>, key: Seq<char>)
    ensures
        find_key_ci(items, key) matches Some(i) ==> 0 <= i < items.len() && eq_ignore_case(items[i].0, key),
    decreases items.len(),
{
    if items.len() > 0 && !eq_ignore_case(items[0].0, key) {
        lemma_find_key_ci_bounds(items.drop_first(), key);
    }
}

fn lit_eq_chars(s: &[char], lit: &str) -> (r: bool)
    ensures
        r == (s@ == lit@),
{
    let l = str_chars(lit);
    crate::text::chars_eq(s, l.as_slice())
}

/// Canonical key of an attribute name (see [`normalized_key`]).
pub fn normalize_attribute_key(raw: &str) -> (r: String)
    ensures
        r@ == normalized_key(raw@),
{
    let c = str_chars(raw);
    let l = chars_to_ascii_lowercase(c.as_slice());
    let ls = l.as_slice();
    if lit_eq_chars(ls, "pixel_aspect_ratio") || lit_eq_chars(ls, "pixel_aspect") {
        owned("pixel_aspect")
    } else if lit_eq_chars(ls, "chromaticities") {
        owned("chromaticities")
    } else if lit_eq_chars(ls, "time_code") || lit_eq_chars(ls, "timecode") {
        owned("time_code")
    } else {
        owned(raw)
    }
}

/// Sets `key` to `value` in `items` (see [`upsert`]).
pub fn upsert_item(items: &mut Vec<(String, String)>, key: String, value: String)
    ensures
        final(items).deep_view() == upsert(old(items).deep_view(), key@, value@),
{
    let kc = str_chars(key.as_str());
    let mut i: usize = 0;
    proof {
        assert(items.deep_view().skip(0) =~= items.deep_view());
    }
    while i < items.len()
        invariant
            i <= items@.len(),
            items.deep_view() == old(items).deep_view(),
            kc@ == key@,
            find_key_ci(items.deep_view(), key@) == match find_key_ci(items.deep_view().skip(i as int), key@) {
                Some(j) => Some(j + i),
                None => None,
            },
        decreases items.len() - i,
    {
        let ic = str_chars(items[i].0.as_str());
        proof {
            let rest = items.deep_view().skip(i as int);
            assert(rest[0] == items.deep_view()[i as int]);
            assert(rest.drop_first() =~= items.deep_view().skip(i + 1));
        }
        if chars_eq_ignore_case(ic.as_slice(), kc.as_slice()) {
            let ghost before = items@;
            let k = items[i].0.clone();
            items.set(i, (k, value));
            proof {
                lemma_find_key_ci_bounds(old(items).deep_view(), key@);
                assert(items.deep_view() =~= upsert(old(items).deep_view(), key@, value@)) by {
                    assert forall|j: int| 0 <= j < before.len() && j != i implies items@[j] == before[j] by {}
                }
            }
            return;
        }
        i = i + 1;
    }
    let ghost before = items@;
    items.push((key, value));
    proof {
        assert(items.deep_view() =~= upsert(old(items).deep_view(), key@, value@)) by {
            assert forall|j: int| 0 <= j < before.len() implies items@[j] == before[j] by {}
        }
    }
}

/// Sort key of a layer: the unnamed layer first, then by lower-cased name.
pub open spec fn layer_sort_key(l: LayerMetadataView) -> (bool, Seq<char>) {
    if l.name.len() == 0 {
        (true, Seq::empty())
    } else {
        (false, unicode_lowercase(l.name))
    }
}

/// `out` is `input` stably sorted by [`layer_sort_key`]: `perm[k]` is the
/// input position of `out[k]`, each position used once.
pub open spec fn layers_sorted_from(input: Seq<LayerMetadataView>, out: Seq<LayerMetadataView>, perm: Seq<int>) -> bool {
    &&& out.len() == input.len()
    &&& crate::sorting::is_index_perm(perm, input.len() as int)
    &&& forall|k: int| 0 <= k < out.len() ==> #[trigger] out[k] == input[perm[k]]
    &&& forall|k: int, l: int|
        0 <= k < l < out.len() ==> crate::sorting::stable_before(
            layer_sort_key(#[trigger] out[k]),
            perm[k],
            layer_sort_key(#[trigger] out[l]),
            perm[l],
        )
}

/// In sorted layers, unnamed layers come before named ones, and of two
/// named layers the earlier has the smaller or equal Unicode lower-cased
/// name.
pub proof fn lemma_sorted_layers_order(input: Seq<LayerMetadataView>, out: Seq<LayerMetadataView>, perm: Seq<int>)
    requires
        layers_sorted_from(input, out, perm),
    ensures
        forall|k: int, l: int|
            0 <= k < l < out.len() ==> {
                &&& ((#[trigger] out[k]).name.len() > 0 ==> (#[trigger] out[l]).name.len() > 0)
                &&& (out[k].name.len() > 0 && out[l].name.len() > 0 ==> lex_le(
                    unicode_lowercase(out[k].name),
                    unicode_lowercase(out[l].name),
                ))
            },
{
    assert forall|k: int, l: int| 0 <= k < l < out.len() implies {
        &&& ((#[trigger] out[k]).name.len() > 0 ==> (#[trigger] out[l]).name.len() > 0)
        &&& (out[k].name.len() > 0 && out[l].name.len() > 0 ==> lex_le(
            unicode_lowercase(out[k].name),
            unicode_lowercase(out[l].name),
        ))
    } by {
        assert(crate::sorting::stable_before(
            layer_sort_key(out[k]),
            perm[k],
            layer_sort_key(out[l]),
            perm[l],
        ));
        lemma_lex_total(unicode_lowercase(out[k].name), unicode_lowercase(out[k].name));
    }
}

/// Orders layers: the unnamed base layer first, then by lower-cased name;
/// layers with equal keys keep their order.
pub fn sort_layers(layers: Vec<LayerMetadata>) -> (r: Vec<LayerMetadata>)
    ensures
        exists|perm: Seq<int>| layers_sorted_from(layers.deep_view(), r.deep_view(), perm),
        forall|k: int, l: int|
            0 <= k < l < r@.len() ==> {
                &&& ((#[trigger] r@[k]).name@.len() > 0 ==> (#[trigger] r@[l]).name@.len() > 0)
                &&& (r@[k].name@.len() > 0 && r@[l].name@.len() > 0 ==> lex_le(
                    unicode_lowercase(r@[k].name@),
                    unicode_lowercase(r@[l].name@),
                ))
            },
{
    let ghost input = layers@;
    let ghost input_dv = layers.deep_view();
    let mut layers = layers;
    let mut keyed: Vec<(SortKey, LayerMetadata)> = Vec::new();
    // Keys are built back to front so that the input can be consumed.
    let mut rev: Vec<(SortKey, LayerMetadata)> = Vec::new();
    while layers.len() > 0
        invariant
            layers@ == input.subrange(0, layers@.len() as int),
            rev@.len() + layers@.len() == input.len(),
            forall|k: int| 0 <= k < rev@.len() ==> #[trigger] rev@[k].1 == input[input.len() - 1 - k]
                && key_of(rev@[k].0) == layer_sort_key(rev@[k].1@),
        decreases layers@.len(),
    {
        let l = layers.pop().unwrap();
        let key = if l.name.as_str().unicode_len() == 0 {
            SortKey { first: true, text: Vec::new() }
        } else {
            let lc = to_lowercase(l.name.as_str());
            SortKey { first: false, text: str_chars(lc.as_str()) }
        };
        proof {
            assert(key_of(key) =~= layer_sort_key(l@));
        }
        rev.push((key, l));
    }
    while rev.len() > 0
        invariant
            rev@.len() + keyed@.len() == input.len(),
            forall|k: int| 0 <= k < rev@.len() ==> #[trigger] rev@[k].1 == input[input.len() - 1 - k]
                && key_of(rev@[k].0) == layer_sort_key(rev@[k].1@),
            forall|k: int| 0 <= k < keyed@.len() ==> #[trigger] keyed@[k].1 == input[k]
                && key_of(keyed@[k].0) == layer_sort_key(keyed@[k].1@),
        decreases rev@.len(),
    {
        let e = rev.pop().unwrap();
        keyed.push(e);
    }
    let ghost keyed_v = keyed@;
    let (sorted, perm) = stable_sort(keyed);
    let ghost sorted_v = sorted@;
    let mut sorted = sorted;
    let mut out: Vec<LayerMetadata> = Vec::new();
    while sorted.len() > 0
        invariant
            out@.len() + sorted@.len() == sorted_v.len(),
            sorted@ == sorted_v.subrange(out@.len() as int, sorted_v.len() as int),
            forall|k: int| 0 <= k < out@.len() ==> #[trigger] out@[k] == sorted_v[k].1,
        decreases sorted@.len(),
    {
        let (_k, l) = sorted.remove(0);
        proof {
            assert(sorted@ =~= sorted_v.subrange(out@.len() + 1int, sorted_v.len() as int));
        }
        out.push(l);
    }
    proof {
        let p = perm@;
        let dv_in = input.map_values(|x: LayerMetadata| x@);
        assert(dv_in =~= layers_deep(input));
        assert forall|k: int| 0 <= k < out@.len() implies #[trigger] out.deep_view()[k] == dv_in[p[k]] by {
            assert(sorted_v[k] == keyed_v[p[k]]);
        }
        assert forall|k: int, l: int| 0 <= k < l < out@.len() implies crate::sorting::stable_before(
            layer_sort_key(#[trigger] out.deep_view()[k]),
            p[k],
            layer_sort_key(#[trigger] out.deep_view()[l]),
            p[l],
        ) by {
            assert(sorted_v[k] == keyed_v[p[k]]);
            assert(sorted_v[l] == keyed_v[p[l]]);
            assert(crate::sorting::stable_before(key_of(sorted_v[k].0), p[k], key_of(sorted_v[l].0), p[l]));
        }
        assert(layers_sorted_from(dv_in, out.deep_view(), p));
        assert(dv_in =~= input_dv);
        let odv = out.deep_view();
        lemma_sorted_layers_order(input_dv, odv, p);
        assert forall|k: int, l: int| 0 <= k < l < out@.len() implies {
            &&& ((#[trigger] out@[k]).name@.len() > 0 ==> (#[trigger] out@[l]).name@.len() > 0)
            &&& (out@[k].name@.len() > 0 && out@[l].name@.len() > 0 ==> lex_le(
                unicode_lowercase(out@[k].name@),
                unicode_lowercase(out@[l].name@),
            ))
        } by {
            assert(odv[k].name == out@[k].name@);
            assert(odv[l].name == out@[l].name@);
        }
    }
    out
}

/// Attributes shared by all layers, as read from the first header: the
/// display window and pixel aspect already rendered as text, and the other
/// attributes as (raw name, rendered value) pairs.
#[derive(Debug, Clone)]
pub struct SharedHeader {
    pub display_window: String,
    pub pixel_aspect: String,
    pub other: Vec<(String, String)>,
}

/// One header of a file: layer name, size and own attributes as
/// (raw name, rendered value) pairs.
#[derive(Debug, Clone)]
pub struct HeaderAttributes {
    pub layer_name: Option<String>,
    pub width: u32,
    pub height: u32,
    pub attributes: Vec<(String, String)>,
}

/// Why metadata could not be assembled.
#[derive(Debug, Clone, Copy, PartialEq, Eq)]
pub enum MetadataError {
    /// The file has no headers.
    NoHeaders,
}

/// Header items after folding the shared attributes, with normalised keys,
/// into the initial items.
pub open spec fn header_items(init: Seq<(Seq<char>, Seq<char>)>, attrs: Seq<(Seq<char>, Seq<char>)>) -> Seq<
    (Seq<char>, Seq<char>),
>
    decreases attrs.len(),
{
    if attrs.len() == 0 {
        init
    } else {
        upsert(header_items(init, attrs.drop_last()), normalized_key(attrs.last().0), attrs.last().1)
    }
}

/// Attribute pairs with normalised keys.
pub open spec fn normalized_attributes(attrs: Seq<(Seq<char>, Seq<char>)>) -> Seq<(Seq<char>, Seq<char>)> {
    attrs.map_values(|a: (Seq<char>, Seq<char>)| (normalized_key(a.0), a.1))
}

/// The layer described by a header.
pub open spec fn layer_of_header(h: HeaderAttributes) -> LayerMetadataView {
    LayerMetadataView {
        name: match h.layer_name {
            Some(n) => n@,
            None => Seq::empty(),
        },
        width: h.width,
        height: h.height,
        attributes: normalized_attributes(h.attributes.deep_view()),
    }
}

/// The layers described by a list of headers.
pub open spec fn header_layers(headers: Seq<HeaderAttributes>) -> Seq<LayerMetadataView> {
    headers.map_values(|h: HeaderAttributes| layer_of_header(h))
}

fn normalize_pairs(attrs: &Vec<(String, String)>) -> (r: Vec<(String, String)>)
    ensures
        r.deep_view() == normalized_attributes(attrs.deep_view()),
{
    let mut out: Vec<(String, String)> = Vec::new();
    let mut i: usize = 0;
    while i < attrs.len()
        invariant
            i <= attrs@.len(),
            out.deep_view() == normalized_attributes(attrs.deep_view().subrange(0, i as int)),
        decreases attrs.len() - i,
    {
        let k = normalize_attribute_key(attrs[i].0.as_str());
        let ghost before = out@;
        out.push((k, attrs[i].1.clone()));
        proof {
            let dv = attrs.deep_view();
            assert forall|j: int| 0 <= j < before.len() implies out@[j] == before[j] by {}
            assert(dv[i as int] == (attrs@[i as int].0@, attrs@[i as int].1@));
            assert(normalized_attributes(dv.subrange(0, i + 1)) =~= normalized_attributes(
                dv.subrange(0, i as int),
            ).push((k@, attrs@[i as int].1@)));
            assert(out.deep_view() =~= normalized_attributes(dv.subrange(0, i + 1)));
        }
        i = i + 1;
    }
    proof {
        assert(attrs.deep_view().subrange(0, attrs@.len() as int) =~= attrs.deep_view());
    }
    out
}

/// Assembles the metadata of a file: a general group with `general_items`,
/// a header group holding the display window, the pixel aspect and the
/// shared attributes (keys normalised, a later value replacing an earlier
/// one with the same key ignoring ASCII case), and one layer per header,
/// ordered with the unnamed base layer first and then by lower-cased name.
/// Fails when there is no header.
pub fn group_metadata(
    general_items: Vec<(String, String)>,
    shared: Option<SharedHeader>,
    headers: Vec<HeaderAttributes>,
) -> (r: Result<ExrMetadata, MetadataError>)
    ensures
        shared is None <==> r is Err,
        r matches Err(e) ==> e == MetadataError::NoHeaders,
        r matches Ok(m) ==> {
            &&& m@.groups.len() == 2
            &&& m@.groups[0].name == "Ogólne"@
            &&& m@.groups[0].items == general_items.deep_view()
            &&& m@.groups[1].name == "Nagłówek"@
            &&& m@.groups[1].items == header_items(
                seq![
                    ("display_window"@, shared.unwrap().display_window@),
                    ("pixel_aspect"@, shared.unwrap().pixel_aspect@),
                ],
                shared.unwrap().other.deep_view(),
            )
            &&& exists|perm: Seq<int>|
                #[trigger] layers_sorted_from(header_layers(headers@), m@.layers, perm)
        },
{
    let sh = match shared {
        Some(sh) => sh,
        None => return Err(MetadataError::NoHeaders),
    };
    let mut items: Vec<(String, String)> = Vec::new();
    items.push((owned("display_window"), sh.display_window.clone()));
    items.push((owned("pixel_aspect"), sh.pixel_aspect.clone()));
    let ghost init = seq![("display_window"@, sh.display_window@), ("pixel_aspect"@, sh.pixel_aspect@)];
    proof {
        assert(items.deep_view() =~= init);
        assert(sh.other.deep_view().subrange(0, 0) =~= Seq::<(Seq<char>, Seq<char>)>::empty());
    }
    let mut i: usize = 0;
    while i < sh.other.len()
        invariant
            i <= sh.other@.len(),
            items.deep_view() == header_items(init, sh.other.deep_view().subrange(0, i as int)),
        decreases sh.other.len() - i,
    {
        let k = normalize_attribute_key(sh.other[i].0.as_str());
        upsert_item(&mut items, k, sh.other[i].1.clone());
        proof {
            let sub = sh.other.deep_view().subrange(0, i + 1);
            assert(sub.drop_last() =~= sh.other.deep_view().subrange(0, i as int));
            assert(sub.last() == sh.other.deep_view()[i as int]);
        }
        i = i + 1;
    }
    proof {
        assert(sh.other.deep_view().subrange(0, sh.other@.len() as int) =~= sh.other.deep_view());
    }
    let mut layers: Vec<LayerMetadata> = Vec::new();
    let mut j: usize = 0;
    while j < headers.len()
        invariant
            j <= headers@.len(),
            layers.deep_view() == header_layers(headers@.subrange(0, j as int)),
        decreases headers.len() - j,
    {
        let h = &headers[j];
        let name = match &h.layer_name {
            Some(n) => n.clone(),
            None => String::new(),
        };
        let attributes = normalize_pairs(&h.attributes);
        let l = LayerMetadata { name, width: h.width, height: h.height, attributes };
        proof {
            assert(l@ == layer_of_header(*h));
        }
        let ghost before = layers@;
        layers.push(l);
        proof {
            assert forall|q: int| 0 <= q < before.len() implies layers@[q] == before[q] by {}
            assert(header_layers(headers@.subrange(0, j + 1)) =~= header_layers(
                headers@.subrange(0, j as int),
            ).push(layer_of_header(headers@[j as int])));
            assert(layers.deep_view() =~= header_layers(headers@.subrange(0, j + 1)));
        }
        j = j + 1;
    }
    proof {
        assert(headers@.subrange(0, headers@.len() as int) =~= headers@);
    }
    let ghost unsorted = layers.deep_view();
    let sorted = sort_layers(layers);
    let ghost sorted_v = sorted.deep_view();
    let groups = vec![
        MetadataGroup { name: owned("Ogólne"), items: general_items },
        MetadataGroup { name: owned("Nagłówek"), items },
    ];
    let m = ExrMetadata { groups, layers: sorted };
    proof {
        assert(m@.groups[0] == groups@[0]@);
        assert(m@.groups[1] == groups@[1]@);
        assert(m@.layers == sorted_v);
        let perm = choose|perm: Seq<int>| layers_sorted_from(unsorted, sorted_v, perm);
        assert(unsorted == header_layers(headers@));
        assert(layers_sorted_from(header_layers(headers@), m@.layers, perm));
        assert(m@.groups.len() == 2);
        assert(m@.groups[0].name == "Ogólne"@);
        assert(m@.groups[0].items == general_items.deep_view());
        assert(m@.groups[1].name == "Nagłówek"@);
        assert(m@.groups[1].items == header_items(init, sh.other.deep_view()));
        assert(layers_sorted_from(header_layers(headers@), m@.layers, perm));
    }
    Ok(m)
}

spec fn layers_deep(s: Seq<LayerMetadata>) -> Seq<LayerMetadataView> {
    s.map_values(|x: LayerMetadata| x@)
}

} // verus!
