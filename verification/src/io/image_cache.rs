//! Layer descriptions of an opened image and the choice of its channels.
use vstd::prelude::*;
use crate::io::lazy_exr_loader::{channel_view, gather_layers, layer_index_from, HeaderChannel};
use crate::io::metadata_traits::{best_position, first_with, names_of_channels, ChannelInfo};
use crate::text::{
    ascii_upper, char_to_ascii_uppercase, chars_trim, is_whitespace, leading_ws,
    lemma_trim_idempotent, owned, str_chars, str_eq, string_from_chars, trailing_ws, trim,
};
use vstd::utf8::{encode_scalar, encode_utf8, is_char_boundary};

verus! {

/// A layer of an image: its name and its channels.
#[derive(Debug)]
pub struct LayerInfo {
    pub name: String,
    pub channels: Vec<ChannelInfo>,
}

impl View for LayerInfo {
    /// The name and the channel names.
    type V = (Seq<char>, Seq<Seq<char>>);

    open spec fn view(&self) -> (Seq<char>, Seq<Seq<char>>) {
        (self.name@, names_of_channels(self.channels@))
    }
}

impl Clone for LayerInfo {
    fn clone(&self) -> (r: Self)
        ensures
            r.name == self.name,
            r.channels@ == self.channels@,
    {
        let mut channels: Vec<ChannelInfo> = Vec::new();
        let mut i: usize = 0;
        while i < self.channels.len()
            invariant
                i <= self.channels@.len(),
                channels@ == self.channels@.subrange(0, i as int),
            decreases self.channels.len() - i,
        {
            channels.push(self.channels[i].clone());
            i = i + 1;
        }
        LayerInfo { name: self.name.clone(), channels }
    }
}

/// First index `j >= i` at which `names[j]` equals `s`.
pub open spec fn find_exact_from(names: Seq<Seq<char>>, s: Seq<char>, i: int) -> Option<int>
    decreases names.len() - i,
{
    if i < 0 || i >= names.len() {
        None
    } else if names[i] == s {
        Some(i)
    } else {
        find_exact_from(names, s, i + 1)
    }
}

/// The name starts, ignoring ASCII case, with the upper-case letter `c`.
pub open spec fn starts_with_upper(name: Seq<char>, c: char) -> bool {
    name.len() > 0 && ascii_upper(name[0]) == c
}

/// First index `j >= i` whose name starts, ignoring ASCII case, with `c`.
pub open spec fn find_prefix_from(names: Seq<Seq<char>>, c: char, i: int) -> Option<int>
    decreases names.len() - i,
{
    if i < 0 || i >= names.len() {
        None
    } else if starts_with_upper(names[i], c) {
        Some(i)
    } else {
        find_prefix_from(names, c, i + 1)
    }
}

/// The channel for a colour component: the channel named exactly `s`,
/// else the first whose name starts with the letter `c` in either case.
pub open spec fn pick_channel(names: Seq<Seq<char>>, s: Seq<char>, c: char) -> Option<int> {
    match find_exact_from(names, s, 0) {
        Some(i) => Some(i),
        None => find_prefix_from(names, c, 0),
    }
}

/// The red, green, blue and alpha channel indices used to compose a
/// displayable image from a list of channel names.
pub open spec fn rgb_indices(names: Seq<Seq<char>>) -> (int, int, int, Option<int>) {
    let r_opt = pick_channel(names, seq!['R'], 'R');
    let g_opt = pick_channel(names, seq!['G'], 'G');
    let b_opt = pick_channel(names, seq!['B'], 'B');
    let a_opt = pick_channel(names, seq!['A'], 'A');
    if r_opt is Some || g_opt is Some || b_opt is Some {
        let r = match r_opt {
            Some(i) => i,
            None => match g_opt {
                Some(i) => i,
                None => match b_opt {
                    Some(i) => i,
                    None => 0,
                },
            },
        };
        let g = match g_opt {
            Some(i) => i,
            None => r,
        };
        let b = match b_opt {
            Some(i) => i,
            None => g,
        };
        (r, g, b, a_opt)
    } else {
        let g = if names.len() > 1 {
            1int
        } else {
            0int
        };
        let b = if names.len() > 2 {
            2int
        } else {
            g
        };
        (0int, g, b, a_opt)
    }
}

/// Whether the list of names holds `s`.
pub fn names_contain(names: &Vec<String>, s: &str) -> (r: bool)
    ensures
        r == names.deep_view().contains(s@),
{
    let mut i: usize = 0;
    while i < names.len()
        invariant
            i <= names@.len(),
            forall|j: int| 0 <= j < i ==> names@[j]@ != s@,
        decreases names.len() - i,
    {
        if str_eq(names[i].as_str(), s) {
            proof {
                assert(names.deep_view()[i as int] == s@);
            }
            return true;
        }
        i = i + 1;
    }
    proof {
        if names.deep_view().contains(s@) {
            let j = choose|j: int| 0 <= j < names.deep_view().len() && names.deep_view()[j] == s@;
            assert(names@[j]@ == s@);
        }
    }
    false
}

/// Some name starts with the letter `c` (ignoring ASCII case).
pub open spec fn some_name_starts(names: Seq<Seq<char>>, c: char) -> bool {
    exists|i: int| 0 <= i < names.len() && #[trigger] starts_with_upper(names[i], c)
}

proof fn lemma_find_exact(names: Seq<Seq<char>>, s: Seq<char>, i: int)
    requires
        0 <= i,
    ensures
        find_exact_from(names, s, i) matches Some(k) ==> i <= k < names.len() && names[k] == s,
        find_exact_from(names, s, i) is None ==> forall|j: int| i <= j < names.len() ==> names[j] != s,
    decreases names.len() - i,
{
    if i < names.len() && names[i] != s {
        lemma_find_exact(names, s, i + 1);
    }
}

proof fn lemma_find_prefix(names: Seq<Seq<char>>, c: char, i: int)
    requires
        0 <= i,
    ensures
        find_prefix_from(names, c, i) matches Some(k) ==> i <= k < names.len() && starts_with_upper(
            names[k],
            c,
        ),
        find_prefix_from(names, c, i) is None ==> forall|j: int|
            i <= j < names.len() ==> !starts_with_upper(#[trigger] names[j], c),
    decreases names.len() - i,
{
    if i < names.len() && !starts_with_upper(names[i], c) {
        lemma_find_prefix(names, c, i + 1);
    }
}

/// The channel picked for an upper-case letter `c` starts with that letter,
/// and none is picked exactly when no name starts with it.
proof fn lemma_pick_channel(names: Seq<Seq<char>>, c: char)
    requires
        ascii_upper(c) == c,
    ensures
        pick_channel(names, seq![c], c) matches Some(i) ==> 0 <= i < names.len() && starts_with_upper(
            names[i],
            c,
        ),
        pick_channel(names, seq![c], c) is None <==> !some_name_starts(names, c),
{
    lemma_find_exact(names, seq![c], 0);
    lemma_find_prefix(names, c, 0);
    if let Some(k) = find_exact_from(names, seq![c], 0) {
        assert(names[k][0] == c);
    }
    if some_name_starts(names, c) {
        let j = choose|j: int| 0 <= j < names.len() && #[trigger] starts_with_upper(names[j], c);
        assert(starts_with_upper(names[j], c));
    }
}

/// How the display channels are chosen, over all lists of names: a colour
/// whose letter some name starts with gets such a channel; a missing blue
/// takes the green channel and a missing green the red one; with none of
/// the three letters the first channels are taken in order; alpha is a
/// channel starting with A when there is one, and none otherwise.
pub proof fn lemma_rgb_indices_choice(names: Seq<Seq<char>>)
    ensures
        ({
            let (r, g, b, a) = rgb_indices(names);
            &&& some_name_starts(names, 'R') ==> 0 <= r < names.len() && starts_with_upper(names[r], 'R')
            &&& some_name_starts(names, 'G') ==> 0 <= g < names.len() && starts_with_upper(names[g], 'G')
            &&& some_name_starts(names, 'B') ==> 0 <= b < names.len() && starts_with_upper(names[b], 'B')
            &&& !some_name_starts(names, 'B') && (some_name_starts(names, 'R') || some_name_starts(
                names,
                'G',
            )) ==> b == g
            &&& !some_name_starts(names, 'G') && some_name_starts(names, 'R') ==> g == r
            &&& !some_name_starts(names, 'R') && !some_name_starts(names, 'G') && !some_name_starts(
                names,
                'B',
            ) ==> r == 0 && g == (if names.len() > 1 {
                1int
            } else {
                0int
            }) && b == (if names.len() > 2 {
                2int
            } else {
                g
            })
            &&& some_name_starts(names, 'A') ==> (a matches Some(i) && 0 <= i < names.len()
                && starts_with_upper(names[i], 'A'))
            &&& !some_name_starts(names, 'A') ==> a is None
        }),
{
    lemma_pick_channel(names, 'R');
    lemma_pick_channel(names, 'G');
    lemma_pick_channel(names, 'B');
    lemma_pick_channel(names, 'A');
}

fn find_exact(names: &[String], s: &str) -> (r: Option<usize>)
    ensures
        r matches Some(i) ==> find_exact_from(names.deep_view(), s@, 0) == Some(i as int),
        r is None ==> find_exact_from(names.deep_view(), s@, 0) is None,
{
    let ghost dv = names.deep_view();
    let mut i: usize = 0;
    while i < names.len()
        invariant
            i <= names@.len(),
            dv == names.deep_view(),
            find_exact_from(dv, s@, 0) == find_exact_from(dv, s@, i as int),
        decreases names.len() - i,
    {
        if str_eq(names[i].as_str(), s) {
            return Some(i);
        }
        i = i + 1;
    }
    None
}

fn find_prefix(names: &[String], c: char) -> (r: Option<usize>)
    ensures
        r matches Some(i) ==> find_prefix_from(names.deep_view(), c, 0) == Some(i as int),
        r is None ==> find_prefix_from(names.deep_view(), c, 0) is None,
{
    let ghost dv = names.deep_view();
    let mut i: usize = 0;
    while i < names.len()
        invariant
            i <= names@.len(),
            dv == names.deep_view(),
            find_prefix_from(dv, c, 0) == find_prefix_from(dv, c, i as int),
        decreases names.len() - i,
    {
        let name: &str = names[i].as_str();
        if name.unicode_len() > 0 {
            let first = name.get_char(0);
            if char_to_ascii_uppercase(first) == c {
                return Some(i);
            }
        }
        i = i + 1;
    }
    None
}

fn pick(names: &[String], s: &str, c: char) -> (r: Option<usize>)
    ensures
        r matches Some(i) ==> pick_channel(names.deep_view(), s@, c) == Some(i as int),
        r is None ==> pick_channel(names.deep_view(), s@, c) is None,
{
    match find_exact(names, s) {
        Some(i) => Some(i),
        None => find_prefix(names, c),
    }
}

/// Resolves the red, green, blue and (optional) alpha channel indices:
/// each colour takes the channel named exactly after it, else the first
/// whose name starts with its letter in either case; a missing colour
/// borrows its neighbour, and a layer with none of the three takes its
/// first channels in order.
pub fn resolve_rgb_indices(channel_names: &[String]) -> (r: (usize, usize, usize, Option<usize>))
    ensures
        ({
            let (er, eg, eb, ea) = rgb_indices(channel_names.deep_view());
            &&& r.0 == er
            &&& r.1 == eg
            &&& r.2 == eb
            &&& (match r.3 {
                Some(i) => ea == Some(i as int),
                None => ea is None,
            })
        }),
        ({
            let names = channel_names.deep_view();
            &&& some_name_starts(names, 'R') ==> starts_with_upper(names[r.0 as int], 'R')
            &&& some_name_starts(names, 'G') ==> starts_with_upper(names[r.1 as int], 'G')
            &&& some_name_starts(names, 'B') ==> starts_with_upper(names[r.2 as int], 'B')
            &&& !some_name_starts(names, 'B') && (some_name_starts(names, 'R') || some_name_starts(
                names,
                'G',
            )) ==> r.2 == r.1
            &&& !some_name_starts(names, 'G') && some_name_starts(names, 'R') ==> r.1 == r.0
            &&& (r.3 matches Some(i) ==> starts_with_upper(names[i as int], 'A'))
            &&& (r.3 is None <==> !some_name_starts(names, 'A'))
        }),
{
    proof {
        lemma_rgb_indices_choice(channel_names.deep_view());
        reveal_strlit("R");
        reveal_strlit("G");
        reveal_strlit("B");
        reveal_strlit("A");
        assert("R"@ =~= seq!['R']);
        assert("G"@ =~= seq!['G']);
        assert("B"@ =~= seq!['B']);
        assert("A"@ =~= seq!['A']);
    }
    let r_opt = pick(channel_names, "R", 'R');
    let g_opt = pick(channel_names, "G", 'G');
    let b_opt = pick(channel_names, "B", 'B');
    let a_opt = pick(channel_names, "A", 'A');
    if r_opt.is_some() || g_opt.is_some() || b_opt.is_some() {
        let r = match r_opt {
            Some(i) => i,
            None => match g_opt {
                Some(i) => i,
                None => match b_opt {
                    Some(i) => i,
                    None => 0,
                },
            },
        };
        let g = match g_opt {
            Some(i) => i,
            None => r,
        };
        let b = match b_opt {
            Some(i) => i,
            None => g,
        };
        (r, g, b, a_opt)
    } else {
        let n = channel_names.len();
        let g: usize = if n > 1 {
            1
        } else {
            0
        };
        let b: usize = if n > 2 {
            2
        } else {
            g
        };
        (0, g, b, a_opt)
    }
}

/// Channel names of each layer.
pub open spec fn layer_channel_names(layers: Seq<LayerInfo>) -> Seq<Seq<Seq<char>>> {
    layers.map_values(|l: LayerInfo| names_of_channels(l.channels@))
}

fn layer_has_channel(layer: &LayerInfo, wanted: &str) -> (r: bool)
    ensures
        r == names_of_channels(layer.channels@).contains(wanted@),
{
    let mut i: usize = 0;
    while i < layer.channels.len()
        invariant
            i <= layer.channels@.len(),
            forall|j: int| 0 <= j < i ==> layer.channels@[j].name@ != wanted@,
        decreases layer.channels.len() - i,
    {
        if str_eq(layer.channels[i].name.as_str(), wanted) {
            proof {
                assert(names_of_channels(layer.channels@)[i as int] == wanted@);
            }
            return true;
        }
        i = i + 1;
    }
    proof {
        let ns = names_of_channels(layer.channels@);
        if ns.contains(wanted@) {
            let j = choose|j: int| 0 <= j < ns.len() && ns[j] == wanted@;
            assert(layer.channels@[j].name@ == wanted@);
        }
    }
    false
}

/// Name of the layer to show first: the first layer with R, G, B and A
/// channels, else the first with R, G and B, else the first layer; for an
/// image without layers, "Layer 1".
pub fn find_best_layer(layers_info: &[LayerInfo]) -> (r: String)
    ensures
        match best_position(layer_channel_names(layers_info@)) {
            Some(i) => r@ == layers_info@[i].name@,
            None => r@ == "Layer 1"@,
        },
{
    let ghost all = layer_channel_names(layers_info@);
    proof {
        reveal_strlit("R");
        reveal_strlit("G");
        reveal_strlit("B");
        reveal_strlit("A");
        assert("R"@ =~= seq!['R']);
        assert("G"@ =~= seq!['G']);
        assert("B"@ =~= seq!['B']);
        assert("A"@ =~= seq!['A']);
    }
    let n = layers_info.len();
    let mut i: usize = 0;
    while i < n
        invariant
            n == layers_info@.len(),
            all == layer_channel_names(layers_info@),
            i <= n,
            "R"@ =~= seq!['R'],
            "G"@ =~= seq!['G'],
            "B"@ =~= seq!['B'],
            "A"@ =~= seq!['A'],
            first_with(all, true, 0)
                == first_with(all, true, i as int),
        decreases n - i,
    {
        let l = &layers_info[i];
        if layer_has_channel(l, "R") && layer_has_channel(l, "G") && layer_has_channel(l, "B")
            && layer_has_channel(l, "A") {
            return l.name.clone();
        }
        i = i + 1;
    }
    let mut k: usize = 0;
    while k < n
        invariant
            n == layers_info@.len(),
            all == layer_channel_names(layers_info@),
            k <= n,
            "R"@ =~= seq!['R'],
            "G"@ =~= seq!['G'],
            "B"@ =~= seq!['B'],
            first_with(all, true, 0) is None,
            first_with(all, false, 0)
                == first_with(all, false, k as int),
        decreases n - k,
    {
        let l = &layers_info[k];
        if layer_has_channel(l, "R") && layer_has_channel(l, "G") && layer_has_channel(l, "B") {
            return l.name.clone();
        }
        k = k + 1;
    }
    if n > 0 {
        layers_info[0].name.clone()
    } else {
        owned("Layer 1")
    }
}

/// ASCII lower case of a byte.
pub open spec fn lower_byte(b: u8) -> u8 {
    if 65 <= b <= 90 {
        (b + 32) as u8
    } else {
        b
    }
}

/// Byte strings equal ignoring ASCII case.
pub open spec fn bytes_eq_ignore_case(a: Seq<u8>, b: Seq<u8>) -> bool {
    a.len() == b.len() && forall|i: int| 0 <= i < a.len() ==> lower_byte(#[trigger] a[i]) == lower_byte(b[i])
}

/// The text is a one-letter name followed by a bit depth: the letter in
/// either ASCII case, then one or more ASCII digits (as in "R8").
pub open spec fn letter_with_depth(bytes: Seq<u8>, letter: Seq<u8>) -> bool {
    &&& bytes.len() >= 2
    &&& letter.len() == 1
    &&& lower_byte(bytes[0]) == lower_byte(letter[0])
    &&& forall|i: int| 1 <= i < bytes.len() ==> 48 <= #[trigger] bytes[i] <= 57
}

/// The text is an alias of a colour: the letter itself, the letter with a
/// bit depth, or text whose first bytes spell the colour's name, ignoring
/// ASCII case.
pub open spec fn alias_hit(bytes: Seq<u8>, letter: Seq<u8>, word: Seq<u8>) -> bool {
    bytes_eq_ignore_case(bytes, letter) || letter_with_depth(bytes, letter) || (bytes.len()
        >= word.len() && bytes_eq_ignore_case(bytes.subrange(0, word.len() as int), word))
}

/// Testing the alias would cut the text inside a character.
pub open spec fn alias_cuts(bytes: Seq<u8>, letter: Seq<u8>, word: Seq<u8>) -> bool {
    !bytes_eq_ignore_case(bytes, letter) && bytes.len() >= word.len() && !is_char_boundary(
        bytes,
        word.len() as int,
    )
}

/// Bytes of the letters and names of the four colours.
pub open spec fn r_letter() -> Seq<u8> { seq![82u8] }
pub open spec fn r_word() -> Seq<u8> { seq![82u8, 69u8, 68u8] }
pub open spec fn g_letter() -> Seq<u8> { seq![71u8] }
pub open spec fn g_word() -> Seq<u8> { seq![71u8, 82u8, 69u8, 69u8, 78u8] }
pub open spec fn b_letter() -> Seq<u8> { seq![66u8] }
pub open spec fn b_word() -> Seq<u8> { seq![66u8, 76u8, 85u8, 69u8] }
pub open spec fn a_letter() -> Seq<u8> { seq![65u8] }
pub open spec fn a_word() -> Seq<u8> { seq![65u8, 76u8, 80u8, 72u8, 65u8] }

/// The aliases are tested, in order, without cutting a character.
pub open spec fn alias_testable(input: Seq<char>) -> bool {
    let b = encode_utf8(trim(input));
    &&& !alias_cuts(b, r_letter(), r_word())
    &&& (!alias_hit(b, r_letter(), r_word()) ==> !alias_cuts(b, g_letter(), g_word()))
    &&& (!alias_hit(b, r_letter(), r_word()) && !alias_hit(b, g_letter(), g_word()) ==> !alias_cuts(
        b,
        b_letter(),
        b_word(),
    ))
    &&& (!alias_hit(b, r_letter(), r_word()) && !alias_hit(b, g_letter(), g_word()) && !alias_hit(
        b,
        b_letter(),
        b_word(),
    ) ==> !alias_cuts(b, a_letter(), a_word()))
}

/// Canonical short name of a channel: R, G, B or A for their letters, for
/// their letters followed by a bit depth, and for names starting with red,
/// green, blue or alpha, in any ASCII case; otherwise the name without
/// surrounding whitespace.
pub open spec fn alias_short(input: Seq<char>) -> Seq<char> {
    let b = encode_utf8(trim(input));
    if alias_hit(b, r_letter(), r_word()) {
        "R"@
    } else if alias_hit(b, g_letter(), g_word()) {
        "G"@
    } else if alias_hit(b, b_letter(), b_word()) {
        "B"@
    } else if alias_hit(b, a_letter(), a_word()) {
        "A"@
    } else {
        trim(input)
    }
}

/// A one-character ASCII text is encoded as its code.
proof fn lemma_encode_ascii(c: char, b: u8)
    requires
        c as u32 == b as u32,
        b < 128,
    ensures
        encode_utf8(seq![c]) == seq![b],
{
    let v = c as u32;
    assert(v & 0x7F == v) by (bit_vector)
        requires
            v < 128,
    ;
    assert(seq![c].drop_first() =~= Seq::<char>::empty());
    assert(encode_utf8(Seq::<char>::empty()) =~= Seq::<u8>::empty());
    assert(encode_scalar(v) =~= seq![b]);
    assert(encode_utf8(seq![c]) =~= seq![b]);
}

/// A canonical short name is its own canonical short name: the colour
/// letters map to themselves, and any other name is already trimmed.
pub proof fn lemma_alias_canonical(name: Seq<char>)
    requires
        alias_testable(name),
    ensures
        alias_testable(alias_short(name)),
        alias_short(alias_short(name)) == alias_short(name),
{
    let b = encode_utf8(trim(name));
    lemma_trim_idempotent(name);
    reveal_strlit("R");
    reveal_strlit("G");
    reveal_strlit("B");
    reveal_strlit("A");
    assert(trim("R"@) =~= "R"@) by {
        assert(!is_whitespace('R'));
        assert(leading_ws("R"@) == 0);
        assert(trailing_ws("R"@) == 0);
    }
    assert(trim("G"@) =~= "G"@) by {
        assert(!is_whitespace('G'));
        assert(leading_ws("G"@) == 0);
        assert(trailing_ws("G"@) == 0);
    }
    assert(trim("B"@) =~= "B"@) by {
        assert(!is_whitespace('B'));
        assert(leading_ws("B"@) == 0);
        assert(trailing_ws("B"@) == 0);
    }
    assert(trim("A"@) =~= "A"@) by {
        assert(!is_whitespace('A'));
        assert(leading_ws("A"@) == 0);
        assert(trailing_ws("A"@) == 0);
    }
    lemma_encode_ascii('R', 82u8);
    lemma_encode_ascii('G', 71u8);
    lemma_encode_ascii('B', 66u8);
    lemma_encode_ascii('A', 65u8);
    assert("R"@ =~= seq!['R']);
    assert("G"@ =~= seq!['G']);
    assert("B"@ =~= seq!['B']);
    assert("A"@ =~= seq!['A']);
    assert(bytes_eq_ignore_case(seq![82u8], r_letter()));
    assert(lower_byte(seq![71u8][0]) != lower_byte(r_letter()[0]));
    assert(!bytes_eq_ignore_case(seq![71u8], r_letter()));
    assert(bytes_eq_ignore_case(seq![71u8], g_letter()));
    assert(lower_byte(seq![66u8][0]) != lower_byte(r_letter()[0]));
    assert(!bytes_eq_ignore_case(seq![66u8], r_letter()));
    assert(lower_byte(seq![66u8][0]) != lower_byte(g_letter()[0]));
    assert(!bytes_eq_ignore_case(seq![66u8], g_letter()));
    assert(bytes_eq_ignore_case(seq![66u8], b_letter()));
    assert(lower_byte(seq![65u8][0]) != lower_byte(r_letter()[0]));
    assert(!bytes_eq_ignore_case(seq![65u8], r_letter()));
    assert(lower_byte(seq![65u8][0]) != lower_byte(g_letter()[0]));
    assert(!bytes_eq_ignore_case(seq![65u8], g_letter()));
    assert(lower_byte(seq![65u8][0]) != lower_byte(b_letter()[0]));
    assert(!bytes_eq_ignore_case(seq![65u8], b_letter()));
    assert(bytes_eq_ignore_case(seq![65u8], a_letter()));
}

/// The first `lit.len()` bytes of `b` equal `lit` ignoring ASCII case.
fn prefix_eq_ignore_case(b: &[u8], lit: &[u8]) -> (r: bool)
    ensures
        r == (b@.len() >= lit@.len() && bytes_eq_ignore_case(b@.subrange(0, lit@.len() as int), lit@)),
{
    if b.len() < lit.len() {
        return false;
    }
    let mut i: usize = 0;
    while i < lit.len()
        invariant
            i <= lit@.len() <= b@.len(),
            forall|k: int| 0 <= k < i ==> lower_byte(#[trigger] b@[k]) == lower_byte(lit@[k]),
        decreases lit.len() - i,
    {
        let x = b[i];
        let y = lit[i];
        let lx: u8 = if 65 <= x && x <= 90 {
            x + 32
        } else {
            x
        };
        let ly: u8 = if 65 <= y && y <= 90 {
            y + 32
        } else {
            y
        };
        if lx != ly {
            proof {
                assert(b@.subrange(0, lit@.len() as int)[i as int] == b@[i as int]);
            }
            return false;
        }
        i = i + 1;
    }
    proof {
        assert forall|k: int| 0 <= k < lit@.len() implies lower_byte(
            #[trigger] b@.subrange(0, lit@.len() as int)[k],
        ) == lower_byte(lit@[k]) by {
            assert(b@.subrange(0, lit@.len() as int)[k] == b@[k]);
        }
    }
    true
}

fn letter_with_depth_exec(b: &[u8], letter: &[u8]) -> (r: bool)
    ensures
        r == letter_with_depth(b@, letter@),
{
    if b.len() < 2 || letter.len() != 1 {
        return false;
    }
    let x = b[0];
    let y = letter[0];
    let lx: u8 = if 65 <= x && x <= 90 {
        x + 32
    } else {
        x
    };
    let ly: u8 = if 65 <= y && y <= 90 {
        y + 32
    } else {
        y
    };
    if lx != ly {
        return false;
    }
    let mut i: usize = 1;
    while i < b.len()
        invariant
            1 <= i <= b@.len(),
            forall|k: int| 1 <= k < i ==> 48 <= #[trigger] b@[k] <= 57,
        decreases b.len() - i,
    {
        if b[i] < 48 || b[i] > 57 {
            return false;
        }
        i = i + 1;
    }
    true
}

fn alias_hit_exec(b: &[u8], letter: &[u8], word: &[u8]) -> (r: bool)
    ensures
        r == alias_hit(b@, letter@, word@),
{
    let whole = b.len() == letter.len() && prefix_eq_ignore_case(b, letter);
    proof {
        if b@.len() == letter@.len() {
            assert(b@.subrange(0, letter@.len() as int) =~= b@);
        }
    }
    whole || letter_with_depth_exec(b, letter) || prefix_eq_ignore_case(b, word)
}

/// Canonical short name of a channel: "red", "Red", "RED", "r", "R8" and
/// the like give "R"; likewise for green, blue and alpha; any other name
/// is returned without surrounding whitespace.
pub fn channel_alias_to_short(input: &str) -> (r: String)
    requires
        alias_testable(input@),
    ensures
        r@ == alias_short(input@),
{
    let chars = str_chars(input);
    let trimmed_chars = chars_trim(chars.as_slice());
    let trimmed = string_from_chars(trimmed_chars.as_slice());
    let b = trimmed.as_str().as_bytes();
    proof {
        assert(b@ == encode_utf8(trim(input@)));
    }
    let r_l: [u8; 1] = [82];
    let r_w: [u8; 3] = [82, 69, 68];
    let g_l: [u8; 1] = [71];
    let g_w: [u8; 5] = [71, 82, 69, 69, 78];
    let b_l: [u8; 1] = [66];
    let b_w: [u8; 4] = [66, 76, 85, 69];
    let a_l: [u8; 1] = [65];
    let a_w: [u8; 5] = [65, 76, 80, 72, 65];
    proof {
        assert(r_l@ =~= r_letter());
        assert(r_w@ =~= r_word());
        assert(g_l@ =~= g_letter());
        assert(g_w@ =~= g_word());
        assert(b_l@ =~= b_letter());
        assert(b_w@ =~= b_word());
        assert(a_l@ =~= a_letter());
        assert(a_w@ =~= a_word());
    }
    if alias_hit_exec(b, r_l.as_slice(), r_w.as_slice()) {
        return owned("R");
    }
    if alias_hit_exec(b, g_l.as_slice(), g_w.as_slice()) {
        return owned("G");
    }
    if alias_hit_exec(b, b_l.as_slice(), b_w.as_slice()) {
        return owned("B");
    }
    if alias_hit_exec(b, a_l.as_slice(), a_w.as_slice()) {
        return owned("A");
    }
    trimmed
}

/// Some run of bytes of `hay` equals `needle` ignoring ASCII case.
pub open spec fn contains_ignore_case(hay: Seq<u8>, needle: Seq<u8>) -> bool {
    exists|k: int|
        0 <= k && k + needle.len() <= hay.len() && #[trigger] bytes_eq_ignore_case(
            hay.subrange(k, k + needle.len()),
            needle,
        )
}

/// A stored layer answers a request for `wanted`: both names are empty, or
/// both are not and they are equal, or one contains the other, ignoring
/// ASCII case.
pub open spec fn layer_answers(name: Seq<char>, wanted: Seq<char>) -> bool {
    let a = encode_utf8(name);
    let b = encode_utf8(wanted);
    if name.len() == 0 && wanted.len() == 0 {
        true
    } else if name.len() == 0 || wanted.len() == 0 {
        false
    } else {
        bytes_eq_ignore_case(a, b) || contains_ignore_case(a, b) || contains_ignore_case(b, a)
    }
}

fn window_eq_ignore_case(hay: &[u8], k: usize, needle: &[u8]) -> (r: bool)
    requires
        k + needle@.len() <= hay@.len(),
    ensures
        r == bytes_eq_ignore_case(hay@.subrange(k as int, k + needle@.len()), needle@),
{
    let hay_len = hay.len();
    let mut i: usize = 0;
    while i < needle.len()
        invariant
            hay_len == hay@.len(),
            k + needle@.len() <= hay@.len(),
            i <= needle@.len(),
            forall|j: int| 0 <= j < i ==> lower_byte(#[trigger] hay@[k + j]) == lower_byte(needle@[j]),
        decreases needle.len() - i,
    {
        let x = hay[k + i];
        let y = needle[i];
        let lx: u8 = if 65 <= x && x <= 90 {
            x + 32
        } else {
            x
        };
        let ly: u8 = if 65 <= y && y <= 90 {
            y + 32
        } else {
            y
        };
        if lx != ly {
            proof {
                assert(hay@.subrange(k as int, k + needle@.len())[i as int] == hay@[k + i]);
            }
            return false;
        }
        i = i + 1;
    }
    proof {
        assert forall|j: int| 0 <= j < needle@.len() implies lower_byte(
            #[trigger] hay@.subrange(k as int, k + needle@.len())[j],
        ) == lower_byte(needle@[j]) by {
            assert(hay@.subrange(k as int, k + needle@.len())[j] == hay@[k + j]);
        }
    }
    true
}

fn contains_ignore_case_exec(hay: &[u8], needle: &[u8]) -> (r: bool)
    ensures
        r == contains_ignore_case(hay@, needle@),
{
    if needle.len() > hay.len() {
        return false;
    }
    let last = hay.len() - needle.len();
    let mut k: usize = 0;
    while k <= last
        invariant
            last + needle@.len() == hay@.len(),
            k <= last + 1,
            forall|j: int|
                0 <= j < k ==> !#[trigger] bytes_eq_ignore_case(
                    hay@.subrange(j, j + needle@.len()),
                    needle@,
                ),
        ensures
            forall|j: int|
                0 <= j <= last ==> !#[trigger] bytes_eq_ignore_case(
                    hay@.subrange(j, j + needle@.len()),
                    needle@,
                ),
        decreases last + 1 - k,
    {
        if window_eq_ignore_case(hay, k, needle) {
            return true;
        }
        if k == last {
            break;
        }
        k = k + 1;
    }
    false
}

/// Whether a stored layer named `name` answers a request for `wanted`:
/// both names empty, or both non-empty and equal or one containing the
/// other, ignoring ASCII case.
pub fn layer_name_answers(name: &str, wanted: &str) -> (r: bool)
    ensures
        r == layer_answers(name@, wanted@),
{
    let a = name.as_bytes();
    let b = wanted.as_bytes();
    let ne = name.unicode_len() == 0;
    let we = wanted.unicode_len() == 0;
    if ne && we {
        return true;
    }
    if ne || we {
        return false;
    }
    let same = a.len() == b.len() && prefix_eq_ignore_case(a, b);
    proof {
        if a@.len() == b@.len() {
            assert(a@.subrange(0, b@.len() as int) =~= a@);
        }
    }
    same || contains_ignore_case_exec(a, b) || contains_ignore_case_exec(b, a)
}

/// Position of the first stored layer that answers a request for `wanted`.
pub fn find_answering_layer(names: &[String], wanted: &str) -> (r: Option<usize>)
    ensures
        match r {
            Some(i) => i < names@.len() && layer_answers(names@[i as int]@, wanted@) && forall|j: int|
                0 <= j < i ==> !layer_answers(#[trigger] names@[j]@, wanted@),
            None => forall|j: int| 0 <= j < names@.len() ==> !layer_answers(#[trigger] names@[j]@, wanted@),
        },
{
    let mut i: usize = 0;
    while i < names.len()
        invariant
            i <= names@.len(),
            forall|j: int| 0 <= j < i ==> !layer_answers(#[trigger] names@[j]@, wanted@),
        decreases names.len() - i,
    {
        if layer_name_answers(names[i].as_str(), wanted) {
            return Some(i);
        }
        i = i + 1;
    }
    None
}

/// Name and channel names of each layer.
pub open spec fn layer_info_views(layers: Seq<LayerInfo>) -> Seq<(Seq<char>, Seq<Seq<char>>)> {
    layers.map_values(|l: LayerInfo| l@)
}

/// Layers gathered from header channels, without regard to size: name and
/// channel names of each.
pub open spec fn gathered_names(channels: Seq<(Seq<char>, Seq<char>, u32, u32)>) -> Seq<
    (Seq<char>, Seq<Seq<char>>),
> {
    gather_layers(channels, false).map_values(|t: (Seq<char>, u32, u32, Seq<Seq<char>>)| (t.0, t.3))
}

/// Name, first size and channel names of each layer, the size being that
/// of the channel that opened the layer.
spec fn with_sizes(layers: Seq<LayerInfo>, sizes: Seq<(u32, u32)>) -> Seq<(Seq<char>, u32, u32, Seq<Seq<char>>)> {
    Seq::new(
        layers.len(),
        |k: int| (layers[k].name@, sizes[k].0, sizes[k].1, names_of_channels(layers[k].channels@)),
    )
}

/// Gathers the channels of a file's headers into layers, in order of first
/// appearance of each layer name, each channel going to its layer.
pub fn layers_from_channels(channels: &[HeaderChannel]) -> (r: Vec<LayerInfo>)
    ensures
        layer_info_views(r@) == gathered_names(channels@.map_values(|c: HeaderChannel| channel_view(c))),
{
    let ghost input = channels@.map_values(|c: HeaderChannel| channel_view(c));
    let mut acc: Vec<LayerInfo> = Vec::new();
    let ghost mut sizes: Seq<(u32, u32)> = Seq::empty();
    let mut i: usize = 0;
    while i < channels.len()
        invariant
            i <= channels@.len(),
            input == channels@.map_values(|c: HeaderChannel| channel_view(c)),
            sizes.len() == acc@.len(),
            with_sizes(acc@, sizes) == gather_layers(input.subrange(0, i as int), false),
        decreases channels.len() - i,
    {
        let c = &channels[i];
        let ghost before = with_sizes(acc@, sizes);
        proof {
            let pre = input.subrange(0, i + 1);
            assert(pre.drop_last() =~= input.subrange(0, i as int));
            assert(pre.last() == channel_view(*c));
        }
        let mut j: usize = 0;
        while j < acc.len()
            invariant
                j <= acc@.len(),
                sizes.len() == acc@.len(),
                before == with_sizes(acc@, sizes),
                layer_index_from(before, c.layer@, 0) == layer_index_from(before, c.layer@, j as int),
            ensures
                j <= acc@.len(),
                j < acc@.len() ==> acc@[j as int].name@ == c.layer@,
                layer_index_from(before, c.layer@, 0) == layer_index_from(before, c.layer@, j as int),
            decreases acc.len() - j,
        {
            if str_eq(acc[j].name.as_str(), c.layer.as_str()) {
                break;
            }
            j = j + 1;
        }
        if j < acc.len() {
            proof {
                assert(layer_index_from(before, c.layer@, 0) == Some(j as int));
            }
            let ghost old_names = names_of_channels(acc@[j as int].channels@);
            acc[j].channels.push(ChannelInfo::new(c.short_name.clone()));
            proof {
                assert(names_of_channels(acc@[j as int].channels@) =~= old_names.push(c.short_name@));
                assert(with_sizes(acc@, sizes) =~= before.update(
                    j as int,
                    (before[j as int].0, before[j as int].1, before[j as int].2, before[j as int].3.push(
                        c.short_name@,
                    )),
                ));
            }
        } else {
            proof {
                assert(layer_index_from(before, c.layer@, 0) is None);
            }
            let mut chs: Vec<ChannelInfo> = Vec::new();
            chs.push(ChannelInfo::new(c.short_name.clone()));
            acc.push(LayerInfo { name: c.layer.clone(), channels: chs });
            proof {
                sizes = sizes.push((c.width, c.height));
                assert(names_of_channels(chs@) =~= seq![c.short_name@]);
                assert(with_sizes(acc@, sizes) =~= before.push(
                    (c.layer@, c.width, c.height, seq![c.short_name@]),
                ));
            }
        }
        i = i + 1;
    }
    proof {
        assert(input.subrange(0, channels@.len() as int) =~= input);
        assert(layer_info_views(acc@) =~= gathered_names(input));
    }
    acc
}

} // verus!
